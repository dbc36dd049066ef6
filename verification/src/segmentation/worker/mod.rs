use vstd::prelude::*;
use std::sync::Arc;
use crate::segmentation::model::{EmbeddedChunk, share};
use crate::segmentation::pure::reversed;

pub mod model;

verus! {

/// The prefix that marks a text as a document for the embedding model.
pub open spec fn document_prefix() -> Seq<char> {
    "search_document: "@
}

/// `format!("search_document: {text}")`.
pub fn document_prompt(text: &str) -> (r: String)
    ensures
        r@ == document_prefix() + text@,
{
    let mut r = String::from_str("search_document: ");
    r.append(text);
    r
}

/// The prompt for each text, in order.
pub fn document_prompts(texts: &Vec<String>) -> (r: Vec<String>)
    ensures
        r@.len() == texts@.len(),
        forall|i: int| 0 <= i < texts@.len() ==> (#[trigger] r@[i])@ == document_prefix() + texts@[i]@,
{
    let mut out: Vec<String> = Vec::new();
    let mut i: usize = 0;
    while i < texts.len()
        invariant
            i <= texts.len(),
            out@.len() == i,
            forall|j: int| 0 <= j < i ==> (#[trigger] out@[j])@ == document_prefix() + texts@[j]@,
        decreases texts.len() - i,
    {
        out.push(document_prompt(texts[i].as_str()));
        i = i + 1;
    }
    out
}

/// The chunks of many pages laid out as columns, one row per chunk: its URL,
/// its source text, its own text and its embedding.
pub struct ChunkColumns<E> {
    pub urls: Vec<Arc<String>>,
    pub texts: Vec<Arc<String>>,
    pub snippets: Vec<Arc<String>>,
    pub embeddings: Vec<E>,
}

/// The URL of each chunk.
pub open spec fn url_column<E>(chunks: Seq<EmbeddedChunk<E>>) -> Seq<Arc<String>> {
    Seq::new(chunks.len(), |i: int| chunks[i].source_url)
}

/// The source text of each chunk.
pub open spec fn text_column<E>(chunks: Seq<EmbeddedChunk<E>>) -> Seq<Arc<String>> {
    Seq::new(chunks.len(), |i: int| chunks[i].source_text)
}

/// The chunk text of each chunk.
pub open spec fn snippet_column<E>(chunks: Seq<EmbeddedChunk<E>>) -> Seq<Seq<char>> {
    Seq::new(chunks.len(), |i: int| chunks[i].text_view())
}

/// The embedding of each chunk.
pub open spec fn embedding_column<E>(chunks: Seq<EmbeddedChunk<E>>) -> Seq<E> {
    Seq::new(chunks.len(), |i: int| chunks[i].embedding)
}

impl<E> ChunkColumns<E> {
    /// The snippets as character sequences.
    pub open spec fn snippet_view(&self) -> Seq<Seq<char>> {
        Seq::new(self.snippets@.len(), |i: int| self.snippets@[i]@)
    }

    /// No rows.
    pub fn new() -> (r: Self)
        ensures
            r.urls@.len() == 0,
            r.texts@.len() == 0,
            r.snippets@.len() == 0,
            r.embeddings@.len() == 0,
    {
        ChunkColumns { urls: Vec::new(), texts: Vec::new(), snippets: Vec::new(), embeddings: Vec::new() }
    }

    /// Appends one row per chunk, in order.
    pub fn push_chunks(&mut self, chunks: Vec<EmbeddedChunk<E>>)
        requires
            forall|i: int| 0 <= i < chunks@.len() ==> (#[trigger] chunks@[i]).well_placed(),
        ensures
            final(self).urls@ == old(self).urls@ + url_column(chunks@),
            final(self).texts@ == old(self).texts@ + text_column(chunks@),
            final(self).snippet_view() == old(self).snippet_view() + snippet_column(chunks@),
            final(self).embeddings@ == old(self).embeddings@ + embedding_column(chunks@),
    {
        let ghost all = chunks@;
        let ghost u0 = self.urls@;
        let ghost t0 = self.texts@;
        let ghost s0 = self.snippet_view();
        let ghost e0 = self.embeddings@;
        let n = chunks.len();
        let mut taken = reversed(chunks);
        let mut i: usize = 0;
        while i < n
            invariant
                n == all.len(),
                i <= n,
                taken@ =~= all.skip(i as int).reverse(),
                forall|j: int| 0 <= j < all.len() ==> (#[trigger] all[j]).well_placed(),
                self.urls@ =~= u0 + url_column(all.take(i as int)),
                self.texts@ =~= t0 + text_column(all.take(i as int)),
                self.snippet_view() =~= s0 + snippet_column(all.take(i as int)),
                self.embeddings@ =~= e0 + embedding_column(all.take(i as int)),
            decreases n - i,
        {
            let c = taken.pop().unwrap();
            assert(all.skip(i + 1).reverse() =~= all.skip(i as int).reverse().drop_last());
            assert(c == all[i as int]);
            let snippet = c.chunk_text().to_owned();
            self.urls.push(share(&c.source_url));
            self.texts.push(share(&c.source_text));
            let ghost sv = self.snippet_view();
            let shared = Arc::new(snippet);
            assert(shared@ == c.text_view());
            self.snippets.push(shared);
            assert(self.snippet_view() =~= sv.push(c.text_view()));
            assert(snippet_column(all.take(i + 1)) =~= snippet_column(all.take(i as int)).push(c.text_view()));
            let EmbeddedChunk { id: _, source_url: _, source_text: _, range: _, embedding } = c;
            self.embeddings.push(embedding);
            i = i + 1;
        }
        assert(all.take(n as int) =~= all);
    }
}

} // verus!
