use vstd::prelude::*;
use vstd::utf8::*;
use core::ops::Range;
use icu_segmenter::SentenceSegmenter;
use icu_segmenter::options::SentenceBreakInvariantOptions;
use crate::text::{utf8_bytes, valid_byte_range, byte_slice, substring_owned};

pub mod model;
pub mod pure;
pub mod worker;

verus! {

broadcast use vstd::utf8::group_utf8_lib;

/// The sentence breakpoints (byte offsets) that `icu_segmenter`'s sentence
/// segmenter, built with the invariant locale and compiled data, reports for
/// a text.
pub uninterp spec fn sentence_breakpoints(text: Seq<char>) -> Seq<usize>;

/// What the segmenter's documentation promises of its breakpoints: the empty
/// text has the single breakpoint 0; any other text has breakpoints at 0 and
/// at its length, in increasing order, each on a character boundary.
pub open spec fn breakpoints_well_formed(text: Seq<char>, breaks: Seq<usize>) -> bool {
    let bytes = utf8_bytes(text);
    if bytes.len() == 0 {
        breaks == seq![0usize]
    } else {
        &&& breaks.len() >= 2
        &&& breaks[0] == 0
        &&& breaks.last() == bytes.len()
        &&& forall|i: int, j: int| 0 <= i < j < breaks.len() ==> breaks[i] < breaks[j]
        &&& forall|i: int| 0 <= i < breaks.len() ==> is_char_boundary(bytes, #[trigger] breaks[i] as int)
    }
}

/// The ranges between successive breakpoints.
pub open spec fn pairwise_ranges(breaks: Seq<usize>) -> Seq<Range<usize>> {
    let n: int = if breaks.len() == 0 { 0 } else { breaks.len() - 1 };
    Seq::new(n as nat, |i: int| Range { start: breaks[i], end: breaks[i + 1] })
}

/// The byte ranges of the sentences of `text`, in order.
pub open spec fn sentence_spans(text: Seq<char>) -> Seq<Range<usize>> {
    pairwise_ranges(sentence_breakpoints(text))
}

/// The sentence ranges are exactly the ranges between successive
/// breakpoints of the segmenter: one fewer than the breakpoints, range `i`
/// running from breakpoint `i` to breakpoint `i + 1`.
pub proof fn law_spans_between_breakpoints(text: Seq<char>)
    requires
        sentence_breakpoints(text).len() > 0,
    ensures
        sentence_spans(text).len() + 1 == sentence_breakpoints(text).len(),
        forall|i: int|
            0 <= i < sentence_spans(text).len() ==> (#[trigger] sentence_spans(text)[i]).start
                == sentence_breakpoints(text)[i] && sentence_spans(text)[i].end == sentence_breakpoints(text)[i + 1],
{
}

/// Every range is a valid byte range of `text`.
pub open spec fn ranges_valid_in(text: Seq<char>, ranges: Seq<Range<usize>>) -> bool {
    forall|i: int| 0 <= i < ranges.len() ==> valid_byte_range(text, #[trigger] ranges[i].start as int, ranges[i].end as int)
}

/// The pieces of `text` that the ranges select, in order.
pub open spec fn slice_all(text: Seq<char>, ranges: Seq<Range<usize>>) -> Seq<Seq<char>> {
    Seq::new(ranges.len(), |i: int| byte_slice(text, ranges[i].start as int, ranges[i].end as int))
}

/// The pieces put back together, in order.
pub open spec fn concat(pieces: Seq<Seq<char>>) -> Seq<char>
    decreases pieces.len(),
{
    if pieces.len() == 0 {
        Seq::empty()
    } else {
        concat(pieces.drop_last()) + pieces.last()
    }
}

/// A character boundary of a valid UTF-8 sequence at or before `end`, where
/// `end` is itself a boundary, is a boundary of the prefix that ends at `end`.
proof fn lemma_boundary_in_prefix(bytes: Seq<u8>, end: int, index: int)
    requires
        valid_utf8(bytes),
        0 <= index <= end <= bytes.len(),
        is_char_boundary(bytes, end),
        is_char_boundary(bytes, index),
    ensures
        valid_utf8(bytes.subrange(0, end)),
        is_char_boundary(bytes.subrange(0, end), index),
{
    let prefix = bytes.subrange(0, end);
    assert(valid_utf8(prefix));
    if index < end {
        assert(prefix[index] == bytes[index]);
        is_char_boundary_iff_not_is_continuation_byte(bytes, index);
        is_char_boundary_iff_not_is_continuation_byte(prefix, index);
    } else {
        is_char_boundary_start_end_of_seq(prefix);
    }
}

/// The text up to byte `c` is the text up to byte `b` followed by the text
/// between `b` and `c`, when `b` and `c` are character boundaries.
pub proof fn lemma_prefix_split(text: Seq<char>, b: int, c: int)
    requires
        valid_byte_range(text, b, c),
    ensures
        byte_slice(text, 0, c) == byte_slice(text, 0, b) + byte_slice(text, b, c),
{
    let bytes = utf8_bytes(text);
    let prefix = bytes.subrange(0, c);
    lemma_boundary_in_prefix(bytes, c, b);
    decode_utf8_split(prefix, b);
    assert(prefix.subrange(0, b) =~= bytes.subrange(0, b));
    assert(prefix.subrange(b, prefix.len() as int) =~= bytes.subrange(b, c));
}

/// The first `k` sentences, put back together, give the text up to the
/// `k`-th breakpoint.
proof fn lemma_prefix_cover(text: Seq<char>, breaks: Seq<usize>, k: int)
    requires
        breakpoints_well_formed(text, breaks),
        utf8_bytes(text).len() > 0,
        0 <= k < breaks.len(),
    ensures
        concat(slice_all(text, pairwise_ranges(breaks)).take(k)) == byte_slice(text, 0, breaks[k] as int),
    decreases k,
{
    let ranges = pairwise_ranges(breaks);
    let pieces = slice_all(text, ranges);
    lemma_spans_valid(text, breaks);
    if k == 0 {
        assert(pieces.take(0) =~= Seq::<Seq<char>>::empty());
        assert(utf8_bytes(text).subrange(0, 0) =~= Seq::<u8>::empty());
        assert(decode_utf8(Seq::<u8>::empty()) =~= Seq::<char>::empty());
    } else {
        lemma_prefix_cover(text, breaks, k - 1);
        assert(ranges[k - 1].start == breaks[k - 1] && ranges[k - 1].end == breaks[k]);
        assert(valid_byte_range(text, ranges[k - 1].start as int, ranges[k - 1].end as int));
        lemma_prefix_split(text, breaks[k - 1] as int, breaks[k] as int);
        assert(pieces.take(k).drop_last() =~= pieces.take(k - 1));
    }
}

/// The sentences of a text, put back together, give the text: the ranges
/// between well-formed breakpoints cover the text without gaps or overlaps.
pub proof fn law_sentences_cover_text(text: Seq<char>, breaks: Seq<usize>)
    requires
        breakpoints_well_formed(text, breaks),
    ensures
        concat(slice_all(text, pairwise_ranges(breaks))) == text,
{
    let bytes = utf8_bytes(text);
    let pieces = slice_all(text, pairwise_ranges(breaks));
    assert(decode_utf8(encode_utf8(text)) == text);
    if bytes.len() == 0 {
        assert(pieces.len() == 0);
        assert(bytes =~= Seq::<u8>::empty());
        assert(decode_utf8(Seq::<u8>::empty()) =~= Seq::<char>::empty());
    } else {
        let n = breaks.len() - 1;
        lemma_prefix_cover(text, breaks, n);
        assert(pieces.take(n) =~= pieces);
        assert(bytes.subrange(0, bytes.len() as int) =~= bytes);
    }
}

/// Ranges that run in order through the text without gaps: each is non-empty
/// and ends within the text, the first starts at byte 0 and each starts
/// where the one before it ends.
pub open spec fn spans_ordered(text: Seq<char>, ranges: Seq<Range<usize>>) -> bool {
    &&& forall|i: int| 0 <= i < ranges.len() ==> (#[trigger] ranges[i]).start < ranges[i].end <= utf8_bytes(text).len()
    &&& ranges.len() > 0 ==> ranges[0].start == 0
    &&& forall|i: int| 0 <= i < ranges.len() - 1 ==> (#[trigger] ranges[i]).end == ranges[i + 1].start
}

/// A text is empty exactly when its UTF-8 encoding is.
pub proof fn lemma_empty_iff_no_bytes(text: Seq<char>)
    ensures
        (text.len() == 0) == (utf8_bytes(text).len() == 0),
{
    assert(decode_utf8(encode_utf8(text)) == text);
    if utf8_bytes(text).len() == 0 {
        assert(utf8_bytes(text) =~= Seq::<u8>::empty());
        assert(decode_utf8(Seq::<u8>::empty()) =~= Seq::<char>::empty());
    }
    if text.len() == 0 {
        assert(text =~= Seq::<char>::empty());
        assert(encode_utf8(Seq::<char>::empty()) =~= Seq::<u8>::empty());
    }
}

/// The ranges between well-formed breakpoints run in order through the whole
/// text: there are none for the empty text, and otherwise the last ends at
/// the text's end.
pub proof fn lemma_spans_ordered(text: Seq<char>, breaks: Seq<usize>)
    requires
        breakpoints_well_formed(text, breaks),
    ensures
        spans_ordered(text, pairwise_ranges(breaks)),
        (pairwise_ranges(breaks).len() == 0) == (text.len() == 0),
        pairwise_ranges(breaks).len() > 0 ==> pairwise_ranges(breaks).last().end == utf8_bytes(text).len(),
{
    lemma_empty_iff_no_bytes(text);
    let ranges = pairwise_ranges(breaks);
    if utf8_bytes(text).len() > 0 {
        assert forall|i: int| 0 <= i < ranges.len() implies (#[trigger] ranges[i]).start < ranges[i].end <= utf8_bytes(text).len() by {
            assert(breaks[i] < breaks[i + 1]);
            assert(breaks[i + 1] <= breaks[breaks.len() - 1]);
        }
    }
}

/// Calls `SentenceSegmenter::segment_str` of `icu_segmenter` and collects the
/// breakpoints. The result is named by `sentence_breakpoints`; beside the name
/// this states only what the segmenter documents of every result (see
/// `breakpoints_well_formed`).
#[verifier::external_body]
fn sentence_breaks(text: &str) -> (r: Vec<usize>)
    ensures
        r@ == sentence_breakpoints(text@),
        breakpoints_well_formed(text@, r@),
{
    SentenceSegmenter::new(SentenceBreakInvariantOptions::default()).segment_str(text).collect()
}

/// The ranges between successive well-formed breakpoints are valid byte
/// ranges of the text.
pub proof fn lemma_spans_valid(text: Seq<char>, breaks: Seq<usize>)
    requires
        breakpoints_well_formed(text, breaks),
    ensures
        ranges_valid_in(text, pairwise_ranges(breaks)),
{
    let bytes = utf8_bytes(text);
    let ranges = pairwise_ranges(breaks);
    assert forall|i: int| 0 <= i < ranges.len() implies valid_byte_range(
        text,
        #[trigger] ranges[i].start as int,
        ranges[i].end as int,
    ) by {
        assert(breaks[i] < breaks[i + 1]);
        assert(breaks[i + 1] <= breaks[breaks.len() - 1]);
        assert(is_char_boundary(bytes, breaks[i] as int));
        assert(is_char_boundary(bytes, breaks[i + 1] as int));
    }
}

/// The byte ranges of the sentences of `s`: the ranges between successive
/// breakpoints of the sentence segmenter.
pub fn segment(s: &str) -> (r: Vec<Range<usize>>)
    ensures
        r@ == sentence_spans(s@),
        breakpoints_well_formed(s@, sentence_breakpoints(s@)),
        r@.len() + 1 == sentence_breakpoints(s@).len(),
        forall|i: int|
            0 <= i < r@.len() ==> (#[trigger] r@[i]).start == sentence_breakpoints(s@)[i] && r@[i].end
                == sentence_breakpoints(s@)[i + 1],
        ranges_valid_in(s@, r@),
        spans_ordered(s@, r@),
        (r@.len() == 0) == (s@.len() == 0),
        r@.len() > 0 ==> r@.last().end == utf8_bytes(s@).len(),
        concat(slice_all(s@, r@)) == s@,
{
    let breaks = sentence_breaks(s);
    let mut ranges: Vec<Range<usize>> = Vec::new();
    let n = breaks.len();
    if n >= 2 {
        let mut i: usize = 0;
        while i + 1 < n
            invariant
                n == breaks.len(),
                n >= 2,
                i + 1 <= n,
                ranges@ =~= pairwise_ranges(breaks@).take(i as int),
            decreases n - i,
        {
            ranges.push(Range { start: breaks[i], end: breaks[i + 1] });
            i = i + 1;
        }
    }
    assert(ranges@ =~= pairwise_ranges(breaks@));
    proof {
        lemma_spans_valid(s@, breaks@);
        law_sentences_cover_text(s@, breaks@);
        lemma_spans_ordered(s@, breaks@);
    }
    ranges
}

/// The pieces of `text` that `ranges` select, as owned strings.
pub fn slices(text: &str, ranges: &Vec<Range<usize>>) -> (r: Vec<String>)
    requires
        ranges_valid_in(text@, ranges@),
    ensures
        r.deep_view() == slice_all(text@, ranges@),
{
    let mut out: Vec<String> = Vec::new();
    let mut i: usize = 0;
    while i < ranges.len()
        invariant
            ranges_valid_in(text@, ranges@),
            i <= ranges.len(),
            out.deep_view() =~= slice_all(text@, ranges@).take(i as int),
        decreases ranges.len() - i,
    {
        let piece = substring_owned(text, ranges[i].start, ranges[i].end);
        let ghost before = out.deep_view();
        out.push(piece);
        assert(out.deep_view() =~= before.push(piece@));
        i = i + 1;
    }
    out
}

} // verus!
