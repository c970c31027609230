use vstd::prelude::*;

verus! {

/// Why the model, its label catalog or one classification is unavailable.
#[derive(Clone, Copy, Debug, PartialEq, Eq, Structural)]
pub enum ModelError {
    /// No candidate models directory exists.
    DirectoryNotFound,
    /// The label catalog file is not in the models directory.
    LabelMapNotFound,
    /// The label catalog file exists but could not be read.
    LabelMapUnreadable,
    /// The label catalog holds no usable row.
    LabelMapEmpty,
    /// The model file is not in the models directory.
    ModelNotFound,
    /// The inference engine refused the model file.
    ModelLoadFailed,
    /// Classification was asked for while the model or catalog is unusable.
    NotAvailable,
    /// The image bytes could not be decoded.
    ImageDecodeFailed,
    /// The image is too large for the preprocessing buffers.
    ImageTooLarge,
    /// The engine failed while running the model.
    InferenceFailed,
}

} // verus!
