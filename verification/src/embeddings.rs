//! Where the embedding model comes from.

use vstd::prelude::*;

verus! {

/// The model that is used where no other is chosen.
pub const DEFAULT_MODEL_ID: &'static str = "sentence-transformers/all-MiniLM-L6-v2";

/// How many tokens of a text are embedded.
pub const MAX_TOKENS: usize = 256;

/// Where a model comes from.
pub enum ModelSource {
    /// The files in a local directory.
    Directory(String),
    /// The hub, under this id.
    Hub(String),
}

/// Chooses where the model comes from: the local directory where one is set, else the hub, under
/// the id that is set or the one of the default model.
pub fn model_source(dir: Option<String>, id: Option<String>) -> (r: ModelSource)
    ensures
        match dir {
            Some(d) => r matches ModelSource::Directory(x) && x@ == d@,
            None => r matches ModelSource::Hub(x) && x@ == (match id {
                Some(i) => i@,
                None => DEFAULT_MODEL_ID@,
            }),
        },
{
    match dir {
        Some(d) => ModelSource::Directory(d),
        None => match id {
            Some(i) => ModelSource::Hub(i),
            None => ModelSource::Hub(DEFAULT_MODEL_ID.to_string()),
        },
    }
}

} // verus!
