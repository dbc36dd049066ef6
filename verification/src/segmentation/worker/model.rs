use vstd::prelude::*;
use crate::segmentation::model::EmbeddedChunk;

verus! {

/// A page to be split into sentences and embedded.
pub struct EmbeddingTask {
    pub source_text: String,
    pub url: String,
}

/// The embedded chunks of one page.
pub struct EmbeddingResponse<E> {
    pub chunks: Vec<EmbeddedChunk<E>>,
}

} // verus!
