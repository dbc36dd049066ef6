use vstd::prelude::*;
use core::ops::Range;
use std::sync::Arc;
use uuid::Uuid;
use crate::text::{valid_byte_range, byte_slice, substring, is_byte_range};

verus! {

/// `uuid::Uuid`, carried through the library as an opaque identifier.
#[verifier::external_type_specification]
#[verifier::external_body]
pub struct ExUuid(Uuid);

/// `Uuid`'s `clone`: `Uuid` is `Copy`, so the clone is the same identifier.
pub assume_specification[ <Uuid as Clone>::clone ](u: &Uuid) -> (r: Uuid)
    ensures
        r == *u,
;

/// `Range`'s derived `clone`: each end is cloned.
pub assume_specification<Idx: Clone>[ <Range<Idx> as Clone>::clone ](r: &Range<Idx>) -> (c: Range<Idx>)
    ensures
        cloned(r.start, c.start),
        cloned(r.end, c.end),
;

/// A piece of a source text, located by a byte range.
#[derive(Clone, Debug, Default)]
pub struct Chunk {
    pub id: Uuid,
    pub source_url: String,
    pub source_text: String,
    pub range: Range<usize>,
}

/// A piece of a source text together with its embedding. The library never
/// looks inside the embedding; it only carries it along.
#[derive(Clone, Debug, Default)]
pub struct EmbeddedChunk<E> {
    pub id: Uuid,
    pub source_url: Arc<String>,
    pub source_text: Arc<String>,
    pub range: Range<usize>,
    pub embedding: E,
}

impl Chunk {
    /// The range lies on character boundaries of the source text.
    pub open spec fn well_placed(&self) -> bool {
        valid_byte_range(self.source_text@, self.range.start as int, self.range.end as int)
    }

    /// Tests `well_placed`.
    pub fn is_well_placed(&self) -> (r: bool)
        ensures
            r == self.well_placed(),
    {
        is_byte_range(self.source_text.as_str(), self.range.start, self.range.end)
    }

    /// `&self.source_text[self.range]`.
    pub fn chunk_text(&self) -> (r: &str)
        requires
            self.well_placed(),
        ensures
            r@ == byte_slice(self.source_text@, self.range.start as int, self.range.end as int),
    {
        substring(self.source_text.as_str(), self.range.start, self.range.end)
    }
}

impl<E> EmbeddedChunk<E> {
    /// The range lies on character boundaries of the source text.
    pub open spec fn well_placed(&self) -> bool {
        valid_byte_range(self.source_text@, self.range.start as int, self.range.end as int)
    }

    /// The text of the chunk: its source text between the bytes of its range.
    pub open spec fn text_view(&self) -> Seq<char> {
        byte_slice(self.source_text@, self.range.start as int, self.range.end as int)
    }

    /// Tests `well_placed`.
    pub fn is_well_placed(&self) -> (r: bool)
        ensures
            r == self.well_placed(),
    {
        is_byte_range(self.source_text.as_str(), self.range.start, self.range.end)
    }

    /// `&self.source_text[self.range]`.
    pub fn chunk_text(&self) -> (r: &str)
        requires
            self.well_placed(),
        ensures
            r@ == self.text_view(),
    {
        substring(self.source_text.as_str(), self.range.start, self.range.end)
    }
}

/// Calls `Arc::clone`. Per its documentation it makes another pointer to the
/// same allocation, so the clone holds the same value.
#[verifier::external_body]
pub fn share<T>(a: &Arc<T>) -> (r: Arc<T>)
    ensures
        r == *a,
{
    Arc::clone(a)
}

/// Calls `Uuid::new_v4` of `uuid`: a fresh random identifier. Nothing is
/// stated of it, since it rests on chance.
#[verifier::external_body]
pub fn new_chunk_id() -> Uuid {
    Uuid::new_v4()
}

} // verus!
