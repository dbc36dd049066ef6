use vstd::prelude::*;
use crate::segmentation::{segment as sentence_ranges, slices, sentence_spans, slice_all, concat};

verus! {

/// The sentences of a text, in order, as the sentence segmenter splits it.
pub open spec fn sentences_view(text: Seq<char>) -> Seq<Seq<char>> {
    slice_all(text, sentence_spans(text))
}

/// Splits each text into its sentences.
pub fn segment<X>(text: Vec<String>) -> (r: Result<Vec<Vec<String>>, X>)
    ensures
        r matches Ok(out) && out@.len() == text@.len() && forall|i: int|
            0 <= i < text@.len() ==> (#[trigger] out@[i]).deep_view() == sentences_view(text@[i]@)
                && concat(out@[i].deep_view()) == text@[i]@,
{
    let mut out: Vec<Vec<String>> = Vec::new();
    let mut i: usize = 0;
    while i < text.len()
        invariant
            i <= text.len(),
            out@.len() == i,
            forall|j: int| 0 <= j < i ==> (#[trigger] out@[j]).deep_view() == sentences_view(text@[j]@)
                && concat(out@[j].deep_view()) == text@[j]@,
        decreases text.len() - i,
    {
        let s = text[i].as_str();
        let ranges = sentence_ranges(s);
        let pieces = slices(s, &ranges);
        out.push(pieces);
        i = i + 1;
    }
    Ok(out)
}

} // verus!
