use crate::error::ModelError;
use crate::labels::{catalog_of_text, describes, parse_label_catalog, Category, LabelCatalog};
use crate::strings::{push_text, text};
use crate::tagging::{rank_tags, ranked, InferenceParams, TagPrediction};
use vstd::prelude::*;

verus! {

/// File name of the label catalog inside the models directory.
pub const LABEL_MAP_FILE: &'static str = "selected_tags.csv";
/// File name of the model inside the models directory.
pub const MODEL_FILE: &'static str = "swin-v2-tagger-v3.onnx";

/// A load that happens at most once: its outcome, success or failure, is
/// kept, and later outcomes are ignored.
pub struct LoadSlot<T> {
    outcome: Option<Result<T, ModelError>>,
}

impl<T> LoadSlot<T> {
    pub closed spec fn state(&self) -> Option<Result<T, ModelError>> {
        self.outcome
    }

    /// A slot whose load has not happened.
    pub fn new() -> (s: LoadSlot<T>)
        ensures
            s.state() is None,
    {
        LoadSlot { outcome: None }
    }

    /// Whether the load still has to happen.
    pub fn needs_load(&self) -> (r: bool)
        ensures
            r == self.state() is None,
    {
        self.outcome.is_none()
    }

    /// Keeps the outcome of the load, unless one is kept already.
    pub fn resolve(&mut self, outcome: Result<T, ModelError>)
        ensures
            old(self).state() is None ==> final(self).state() == Some(outcome),
            old(self).state() is Some ==> final(self).state() == old(self).state(),
    {
        if self.outcome.is_none() {
            self.outcome = Some(outcome);
        }
    }

    /// Whether the load happened and succeeded.
    pub fn is_loaded(&self) -> (r: bool)
        ensures
            r == (self.state() is Some && self.state()->0 is Ok),
    {
        match &self.outcome {
            Some(Ok(_)) => true,
            _ => false,
        }
    }

    /// The kept failure, if the load failed.
    pub fn error(&self) -> (r: Option<ModelError>)
        ensures
            r == match self.state() {
                Some(Err(e)) => Some(e),
                _ => None::<ModelError>,
            },
    {
        match &self.outcome {
            Some(Err(e)) => Some(*e),
            _ => None,
        }
    }

    /// The loaded value, if the load succeeded.
    pub fn get(&self) -> (r: Option<&T>)
        ensures
            match self.state() {
                Some(Ok(v)) => r == Some(&v),
                _ => r is None,
            },
    {
        match &self.outcome {
            Some(Ok(v)) => Some(v),
            _ => None,
        }
    }
}

/// Availability and locations of the model artifacts.
#[derive(Clone, Debug)]
pub struct ModelStatus {
    pub models_dir: String,
    pub model_file_exists: bool,
    pub model_file_path: String,
    pub csv_file_exists: bool,
    pub csv_file_path: String,
    pub label_map_loaded: bool,
    pub model_session_loaded: bool,
    pub label_map_error: Option<ModelError>,
    pub model_session_error: Option<ModelError>,
}

/// The label catalog and the model handle `M`, each loaded at most once.
pub struct ModelRegistry<M> {
    pub labels: LoadSlot<LabelCatalog>,
    pub model: LoadSlot<M>,
}

impl<M> ModelRegistry<M> {
    /// A registry before any load.
    pub fn new() -> (r: ModelRegistry<M>)
        ensures
            r.labels.state() is None,
            r.model.state() is None,
    {
        ModelRegistry { labels: LoadSlot::new(), model: LoadSlot::new() }
    }

    /// Both the catalog and the model loaded successfully.
    pub fn is_model_available(&self) -> (r: bool)
        ensures
            r == (self.labels.state() is Some && self.labels.state()->0 is Ok
                && self.model.state() is Some && self.model.state()->0 is Ok),
    {
        self.labels.is_loaded() && self.model.is_loaded()
    }

    /// Status report for the artifacts in `models_dir`, once both loads have
    /// happened (successfully or not).
    pub fn get_model_status(
        &self,
        models_dir: &str,
        model_file_exists: bool,
        csv_file_exists: bool,
    ) -> (r: ModelStatus)
        requires
            self.labels.state() is Some,
            self.model.state() is Some,
        ensures
            r.models_dir@ == models_dir@,
            r.model_file_path@ == models_dir@ + "/"@ + MODEL_FILE@,
            r.csv_file_path@ == models_dir@ + "/"@ + LABEL_MAP_FILE@,
            r.model_file_exists == model_file_exists,
            r.csv_file_exists == csv_file_exists,
            r.label_map_loaded == (self.labels.state() is Some && self.labels.state()->0 is Ok),
            r.model_session_loaded == (self.model.state() is Some && self.model.state()->0 is Ok),
            r.label_map_error == match self.labels.state() {
                Some(Err(e)) => Some(e),
                _ => None::<ModelError>,
            },
            r.model_session_error == match self.model.state() {
                Some(Err(e)) => Some(e),
                _ => None::<ModelError>,
            },
    {
        let mut model_file_path = text(models_dir);
        push_text(&mut model_file_path, "/");
        push_text(&mut model_file_path, MODEL_FILE);
        let mut csv_file_path = text(models_dir);
        push_text(&mut csv_file_path, "/");
        push_text(&mut csv_file_path, LABEL_MAP_FILE);
        ModelStatus {
            models_dir: text(models_dir),
            model_file_exists,
            model_file_path,
            csv_file_exists,
            csv_file_path,
            label_map_loaded: self.labels.is_loaded(),
            model_session_loaded: self.model.is_loaded(),
            label_map_error: self.labels.error(),
            model_session_error: self.model.error(),
        }
    }

    /// Reloading is not offered: kept outcomes stay until the registry is
    /// dropped, and this leaves the registry as it is.
    pub fn reload_model(&mut self) -> (r: Result<(), ModelError>)
        ensures
            r is Ok,
            final(self).labels.state() == old(self).labels.state(),
            final(self).model.state() == old(self).model.state(),
    {
        Ok(())
    }

    /// Ranked tags for per-index confidences, once both artifacts are loaded.
    pub fn classify_confidences(&self, probabilities: &Vec<u32>, params: &InferenceParams) -> (r:
        Result<Vec<TagPrediction>, ModelError>)
        ensures
            match r {
                Err(e) => e == ModelError::NotAvailable && !(self.labels.state() is Some
                    && self.labels.state()->0 is Ok && self.model.state() is Some
                    && self.model.state()->0 is Ok),
                Ok(tags) => self.labels.state() is Some && self.labels.state()->0 is Ok
                    && self.model.state() is Some && self.model.state()->0 is Ok && {
                    let catalog = self.labels.state()->0->Ok_0;
                    let expected = ranked(probabilities@, catalog@, *params);
                    &&& tags.len() == expected.len()
                    &&& forall|k: int|
                        0 <= k < tags.len() ==> {
                            &&& tags[k].confidence == expected[k].1
                            &&& tags[k].name@ == catalog@[expected[k].0].name@
                        }
                    &&& forall|i: int, j: int| 0 <= i < j < tags.len() ==> tags[i].name@ != tags[j].name@
                },
            },
    {
        if !self.model.is_loaded() {
            return Err(ModelError::NotAvailable);
        }
        match self.labels.get() {
            Some(catalog) => Ok(rank_tags(probabilities, catalog, params)),
            None => Err(ModelError::NotAvailable),
        }
    }
}

/// Outcome of loading the label catalog from the models directory.
pub open spec fn label_map_outcome(file_exists: bool, contents: Option<Seq<char>>) -> Result<
    Map<usize, (Seq<char>, Category)>,
    ModelError,
> {
    if !file_exists {
        Err(ModelError::LabelMapNotFound)
    } else {
        match contents {
            None => Err(ModelError::LabelMapUnreadable),
            Some(c) => if catalog_of_text(c) == Map::<usize, (Seq<char>, Category)>::empty() {
                Err(ModelError::LabelMapEmpty)
            } else {
                Ok(catalog_of_text(c))
            },
        }
    }
}

/// Loads the label catalog: missing file, unreadable file and empty catalog
/// are three distinct failures.
pub fn load_label_map(file_exists: bool, contents: Option<&str>) -> (r: Result<LabelCatalog, ModelError>)
    ensures
        match label_map_outcome(
            file_exists,
            match contents {
                Some(c) => Some(c@),
                None => None,
            },
        ) {
            Ok(m) => r is Ok && describes(r->Ok_0@, m),
            Err(e) => r is Err && r->Err_0 == e,
        },
{
    if !file_exists {
        return Err(ModelError::LabelMapNotFound);
    }
    match contents {
        None => Err(ModelError::LabelMapUnreadable),
        Some(c) => parse_label_catalog(c),
    }
}

/// A place where the models directory may be, and whether it exists.
#[derive(Clone, Debug)]
pub struct DirCandidate {
    pub path: String,
    pub exists: bool,
}

/// No candidate models directory exists; `tried` lists every candidate path,
/// in the order tried.
#[derive(Clone, Debug)]
pub struct ModelsDirNotFound {
    pub tried: Vec<String>,
}

/// The first candidate that exists, in the order given; otherwise every path
/// that was tried.
pub fn select_models_dir(candidates: &Vec<DirCandidate>) -> (r: Result<String, ModelsDirNotFound>)
    ensures
        match r {
            Ok(p) => exists|i: int|
                0 <= i < candidates.len() && candidates[i].exists && p@ == candidates[i].path@
                    && forall|j: int| 0 <= j < i ==> !(#[trigger] candidates[j].exists),
            Err(e) => {
                &&& forall|j: int| 0 <= j < candidates.len() ==> !(#[trigger] candidates[j].exists)
                &&& e.tried.len() == candidates.len()
                &&& forall|j: int| 0 <= j < candidates.len() ==> #[trigger] e.tried[j]@ == candidates[j].path@
            },
        },
{
    let mut i: usize = 0;
    while i < candidates.len()
        invariant
            0 <= i <= candidates.len(),
            forall|j: int| 0 <= j < i ==> !(#[trigger] candidates[j].exists),
        decreases candidates.len() - i,
    {
        if candidates[i].exists {
            return Ok(candidates[i].path.clone());
        }
        i = i + 1;
    }
    let mut tried: Vec<String> = Vec::new();
    let mut k: usize = 0;
    while k < candidates.len()
        invariant
            0 <= k <= candidates.len(),
            tried.len() == k,
            forall|j: int| 0 <= j < k ==> #[trigger] tried[j]@ == candidates[j].path@,
        decreases candidates.len() - k,
    {
        tried.push(candidates[k].path.clone());
        k = k + 1;
    }
    Err(ModelsDirNotFound { tried })
}

/// Whether AI tagging is switched on.
#[derive(Clone, Copy, Debug, PartialEq, Eq, Structural)]
pub struct AISettings {
    pub ai_enabled: bool,
}

impl Default for AISettings {
    /// Tagging is on unless switched off.
    fn default() -> (s: AISettings)
        ensures
            s.ai_enabled,
    {
        AISettings { ai_enabled: true }
    }
}

} // verus!
