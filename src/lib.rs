//! Image tagging core: deterministic preprocessing for a fixed-shape
//! multi-label vision model, category-aware postprocessing of its
//! confidences (thresholds and the MCut adaptive cut), the label catalog, the
//! load-once model registry, and the decisions of the bounded background jobs
//! (thumbnails, tagging, health checks) with their progress notifications.
//!
//! Confidences are fixed-point probabilities in millionths
//! (`ranking::CONFIDENCE_SCALE` stands for 1.0).

pub mod digest;
pub mod error;
pub mod geometry;
pub mod health;
pub mod jobs;
pub mod labels;
pub mod preprocess;
pub mod ranking;
pub mod registry;
pub mod selection;
pub mod strings;
pub mod tagging;
pub mod text;
