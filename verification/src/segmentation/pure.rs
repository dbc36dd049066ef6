use vstd::prelude::*;
use core::ops::Range;
use std::sync::Arc;
use crate::pipeline::Pipeline;
use crate::segmentation::{segment, slices, sentence_spans, sentence_breakpoints, slice_all, concat, pairwise_ranges, breakpoints_well_formed, spans_ordered};
use crate::text::utf8_bytes;
use crate::segmentation::model::{EmbeddedChunk, share, new_chunk_id};

verus! {

/// The most sentences that one text is split into; later ones are dropped.
pub const MAX_SEGMENTS: usize = 700;

/// The first `MAX_SEGMENTS` sentence ranges of `text`.
pub open spec fn capped_spans(text: Seq<char>) -> Seq<Range<usize>> {
    let all = sentence_spans(text);
    if all.len() > MAX_SEGMENTS {
        all.take(MAX_SEGMENTS as int)
    } else {
        all
    }
}

/// The sentences of `text` (at most `MAX_SEGMENTS`) with their byte ranges.
pub fn split_sentences<X>(text: &str) -> (r: Result<(Vec<String>, Vec<Range<usize>>), X>)
    ensures
        r matches Ok((segments, ranges)) && ranges@ == capped_spans(text@)
            && segments.deep_view() == slice_all(text@, ranges@)
            && (sentence_spans(text@).len() <= MAX_SEGMENTS ==> concat(segments.deep_view()) == text@)
            && spans_ordered(text@, ranges@) && ranges@.len() <= MAX_SEGMENTS
            && ((ranges@.len() == 0) == (text@.len() == 0))
            && ranges@.len() == (if sentence_breakpoints(text@).len() - 1 <= MAX_SEGMENTS {
                sentence_breakpoints(text@).len() - 1
            } else {
                MAX_SEGMENTS as int
            })
            && forall|i: int|
                0 <= i < ranges@.len() ==> (#[trigger] ranges@[i]).start == sentence_breakpoints(text@)[i]
                    && ranges@[i].end == sentence_breakpoints(text@)[i + 1],
{
    let mut ranges = segment(text);
    if ranges.len() > MAX_SEGMENTS {
        ranges.truncate(MAX_SEGMENTS);
    }
    let segments = slices(text, &ranges);
    Ok((segments, ranges))
}

/// What goes into [`Pipeline::assemble_chunks`]: the sentence ranges of a
/// source, one embedding per range, the source and its URL.
pub struct AssemblyInput<E> {
    pub ranges: Vec<Range<usize>>,
    pub embeds: Vec<E>,
    pub source: Arc<String>,
    pub url: Arc<String>,
}

/// `chunks` pairs the ranges with the embeddings, in order, up to the shorter
/// of the two, each chunk pointing at the source and its URL.
pub open spec fn assembled_from<E>(
    ranges: Seq<Range<usize>>,
    embeds: Seq<E>,
    source: Arc<String>,
    url: Arc<String>,
    chunks: Seq<EmbeddedChunk<E>>,
) -> bool {
    &&& chunks.len() == if ranges.len() <= embeds.len() { ranges.len() } else { embeds.len() }
    &&& forall|i: int|
        0 <= i < chunks.len() ==> {
            &&& (#[trigger] chunks[i]).range == ranges[i]
            &&& chunks[i].embedding == embeds[i]
            &&& chunks[i].source_text == source
            &&& chunks[i].source_url == url
        }
}

/// Assembling pairs the `i`-th range with the `i`-th embedding, whatever the
/// lengths, and stops at the shorter of the two.
pub proof fn law_assembly_pairs_in_order<E>(
    ranges: Seq<Range<usize>>,
    embeds: Seq<E>,
    source: Arc<String>,
    url: Arc<String>,
    chunks: Seq<EmbeddedChunk<E>>,
)
    requires
        assembled_from(ranges, embeds, source, url, chunks),
    ensures
        chunks.len() <= ranges.len() && chunks.len() <= embeds.len(),
        chunks.len() == ranges.len() || chunks.len() == embeds.len(),
        forall|i: int| 0 <= i < chunks.len() ==> (#[trigger] chunks[i]).embedding == embeds[i] && chunks[i].range == ranges[i],
{
}

/// The elements of `v` in reverse order.
pub fn reversed<T>(v: Vec<T>) -> (r: Vec<T>)
    ensures
        r@ == v@.reverse(),
{
    let ghost orig = v@;
    let mut v = v;
    let mut r: Vec<T> = Vec::new();
    while v.len() > 0
        invariant
            v@.len() <= orig.len(),
            v@ == orig.take(v@.len() as int),
            r@ =~= orig.skip(v@.len() as int).reverse(),
        decreases v.len(),
    {
        let ghost k = v@.len();
        let x = v.pop().unwrap();
        assert(v@ =~= orig.take(k - 1));
        r.push(x);
        assert(orig.skip(k - 1).reverse() =~= orig.skip(k as int).reverse().push(orig[k - 1]));
    }
    assert(orig.skip(0) =~= orig);
    r
}

/// Pairs the ranges with the embeddings into chunks with fresh identifiers.
pub fn assemble<E>(input: AssemblyInput<E>) -> (r: Vec<EmbeddedChunk<E>>)
    ensures
        assembled_from(input.ranges@, input.embeds@, input.source, input.url, r@),
        r@.len() <= input.ranges@.len(),
        r@.len() <= input.embeds@.len(),
        r@.len() == input.ranges@.len() || r@.len() == input.embeds@.len(),
        forall|i: int| 0 <= i < r@.len() ==> (#[trigger] r@[i]).embedding == input.embeds@[i] && r@[i].range == input.ranges@[i],
{
    let AssemblyInput { ranges, embeds, source, url } = input;
    let ghost all = embeds@;
    let n = if ranges.len() <= embeds.len() { ranges.len() } else { embeds.len() };
    let mut rest = reversed(embeds);
    let mut chunks: Vec<EmbeddedChunk<E>> = Vec::new();
    let mut i: usize = 0;
    while i < n
        invariant
            n <= ranges.len(),
            n <= all.len(),
            i <= n,
            rest@ =~= all.skip(i as int).reverse(),
            chunks@.len() == i,
            forall|j: int|
                0 <= j < i ==> {
                    &&& (#[trigger] chunks@[j]).range == ranges@[j]
                    &&& chunks@[j].embedding == all[j]
                    &&& chunks@[j].source_text == source
                    &&& chunks@[j].source_url == url
                },
        decreases n - i,
    {
        let embedding = rest.pop().unwrap();
        assert(all.skip(i + 1).reverse() =~= all.skip(i as int).reverse().drop_last());
        let chunk = EmbeddedChunk {
            id: new_chunk_id(),
            source_url: share(&url),
            source_text: share(&source),
            range: Range { start: ranges[i].start, end: ranges[i].end },
            embedding,
        };
        chunks.push(chunk);
        i = i + 1;
    }
    chunks
}

/// A chunk whose range now ends at `end`.
pub open spec fn extended<E>(c: EmbeddedChunk<E>, end: usize) -> EmbeddedChunk<E> {
    EmbeddedChunk { range: Range { start: c.range.start, end }, ..c }
}

/// Merging the first `k` chunks: chunk `i + 1` joins the chunk before it
/// (extending that chunk's range to its own end) when `joins[i]` holds, and
/// starts a new chunk otherwise.
pub open spec fn merged_prefix<E>(chunks: Seq<EmbeddedChunk<E>>, joins: Seq<bool>, k: nat) -> Seq<EmbeddedChunk<E>>
    decreases k,
{
    if k == 0 {
        Seq::empty()
    } else if k == 1 {
        seq![chunks[0]]
    } else {
        let prev = merged_prefix(chunks, joins, (k - 1) as nat);
        let curr = chunks[k - 1];
        if joins[k - 2] {
            prev.update(prev.len() - 1, extended(prev.last(), curr.range.end))
        } else {
            prev.push(curr)
        }
    }
}

/// The merge of all the chunks.
pub open spec fn merged<E>(chunks: Seq<EmbeddedChunk<E>>, joins: Seq<bool>) -> Seq<EmbeddedChunk<E>> {
    merged_prefix(chunks, joins, chunks.len())
}

/// There is one decision for each pair of neighbouring chunks.
pub open spec fn joins_fit<E>(chunks: Seq<EmbeddedChunk<E>>, joins: Seq<bool>) -> bool {
    chunks.len() == 0 || joins.len() + 1 == chunks.len()
}

/// A merged prefix of at least one chunk is not empty.
pub proof fn lemma_merged_prefix_nonempty<E>(chunks: Seq<EmbeddedChunk<E>>, joins: Seq<bool>, k: nat)
    requires
        k >= 1,
    ensures
        merged_prefix(chunks, joins, k).len() >= 1,
    decreases k,
{
    if k > 1 {
        lemma_merged_prefix_nonempty(chunks, joins, (k - 1) as nat);
    }
}

/// The number of neighbouring pairs that are not joined.
pub open spec fn count_breaks(joins: Seq<bool>) -> nat
    decreases joins.len(),
{
    if joins.len() == 0 {
        0
    } else {
        count_breaks(joins.drop_last()) + if joins.last() { 0nat } else { 1nat }
    }
}

/// Each chunk ends where the next one starts.
pub open spec fn contiguous<E>(chunks: Seq<EmbeddedChunk<E>>) -> bool {
    forall|i: int| 0 <= i < chunks.len() - 1 ==> (#[trigger] chunks[i]).range.end == chunks[i + 1].range.start
}

proof fn lemma_no_joins_prefix<E>(chunks: Seq<EmbeddedChunk<E>>, joins: Seq<bool>, k: nat)
    requires
        k <= chunks.len(),
        joins_fit(chunks, joins),
        forall|i: int| 0 <= i < joins.len() ==> !joins[i],
    ensures
        merged_prefix(chunks, joins, k) == chunks.take(k as int),
    decreases k,
{
    if k == 0 {
        assert(chunks.take(0) =~= Seq::<EmbeddedChunk<E>>::empty());
    } else if k == 1 {
        assert(chunks.take(1) =~= seq![chunks[0]]);
    } else {
        lemma_no_joins_prefix(chunks, joins, (k - 1) as nat);
        assert(chunks.take(k as int) =~= chunks.take(k - 1).push(chunks[k - 1]));
    }
}

/// Where no neighbours are joined, merging changes nothing.
pub proof fn law_merge_without_joins<E>(chunks: Seq<EmbeddedChunk<E>>, joins: Seq<bool>)
    requires
        joins_fit(chunks, joins),
        forall|i: int| 0 <= i < joins.len() ==> !joins[i],
    ensures
        merged(chunks, joins) == chunks,
{
    lemma_no_joins_prefix(chunks, joins, chunks.len());
    assert(chunks.take(chunks.len() as int) =~= chunks);
}

proof fn lemma_all_joins_prefix<E>(chunks: Seq<EmbeddedChunk<E>>, joins: Seq<bool>, k: nat)
    requires
        1 <= k <= chunks.len(),
        joins_fit(chunks, joins),
        forall|i: int| 0 <= i < joins.len() ==> joins[i],
    ensures
        merged_prefix(chunks, joins, k) == seq![extended(chunks[0], chunks[k - 1].range.end)],
    decreases k,
{
    if k == 1 {
        assert(extended(chunks[0], chunks[0].range.end) == chunks[0]);
    } else {
        lemma_all_joins_prefix(chunks, joins, (k - 1) as nat);
        assert(merged_prefix(chunks, joins, k) =~= seq![extended(chunks[0], chunks[k - 1].range.end)]);
    }
}

/// Where all neighbours are joined, merging leaves one chunk: the first,
/// reaching to the end of the last.
pub proof fn law_merge_with_all_joins<E>(chunks: Seq<EmbeddedChunk<E>>, joins: Seq<bool>)
    requires
        chunks.len() > 0,
        joins_fit(chunks, joins),
        forall|i: int| 0 <= i < joins.len() ==> joins[i],
    ensures
        merged(chunks, joins) == seq![extended(chunks[0], chunks.last().range.end)],
{
    lemma_all_joins_prefix(chunks, joins, chunks.len());
}

/// Merging leaves one chunk, plus one more for every pair of neighbours that
/// is not joined.
pub proof fn law_merge_count<E>(chunks: Seq<EmbeddedChunk<E>>, joins: Seq<bool>, k: nat)
    requires
        1 <= k <= chunks.len(),
        joins_fit(chunks, joins),
    ensures
        merged_prefix(chunks, joins, k).len() == 1 + count_breaks(joins.take(k - 1)),
    decreases k,
{
    if k == 1 {
        assert(joins.take(0) =~= Seq::<bool>::empty());
    } else {
        law_merge_count(chunks, joins, (k - 1) as nat);
        lemma_merged_prefix_nonempty(chunks, joins, (k - 1) as nat);
        assert(joins.take(k - 1).drop_last() =~= joins.take(k - 2));
    }
}

/// Merging contiguous chunks gives contiguous chunks that span the same
/// bytes: the first starts where the first chunk started and the last ends
/// where the last chunk ended.
pub proof fn law_merge_keeps_span<E>(chunks: Seq<EmbeddedChunk<E>>, joins: Seq<bool>, k: nat)
    requires
        1 <= k <= chunks.len(),
        joins_fit(chunks, joins),
        contiguous(chunks),
    ensures
        contiguous(merged_prefix(chunks, joins, k)),
        merged_prefix(chunks, joins, k)[0].range.start == chunks[0].range.start,
        merged_prefix(chunks, joins, k).last().range.end == chunks[k - 1].range.end,
    decreases k,
{
    if k > 1 {
        law_merge_keeps_span(chunks, joins, (k - 1) as nat);
        lemma_merged_prefix_nonempty(chunks, joins, (k - 1) as nat);
        let prev = merged_prefix(chunks, joins, (k - 1) as nat);
        let cur = merged_prefix(chunks, joins, k);
        assert(chunks[k - 2].range.end == chunks[k - 1].range.start);
        if joins[k - 2] {
            assert forall|i: int| 0 <= i < cur.len() - 1 implies (#[trigger] cur[i]).range.end == cur[i + 1].range.start by {
                assert(cur[i] == prev[i]);
                if i + 1 < cur.len() - 1 {
                    assert(cur[i + 1] == prev[i + 1]);
                }
            }
        } else {
            assert forall|i: int| 0 <= i < cur.len() - 1 implies (#[trigger] cur[i]).range.end == cur[i + 1].range.start by {
                assert(cur[i] == prev[i]);
                if i + 1 < cur.len() - 1 {
                    assert(cur[i + 1] == prev[i + 1]);
                }
            }
        }
    }
}

/// Chunks assembled from all the sentences of a non-empty text, one embedding
/// per sentence, and then merged, still cover the whole text: they are
/// contiguous, the first starts at byte 0 and the last ends at the text's end.
pub proof fn law_merged_chunks_cover_text<E>(
    text: Seq<char>,
    breaks: Seq<usize>,
    embeds: Seq<E>,
    source: Arc<String>,
    url: Arc<String>,
    chunks: Seq<EmbeddedChunk<E>>,
    joins: Seq<bool>,
)
    requires
        breakpoints_well_formed(text, breaks),
        utf8_bytes(text).len() > 0,
        embeds.len() == pairwise_ranges(breaks).len(),
        assembled_from(pairwise_ranges(breaks), embeds, source, url, chunks),
        joins_fit(chunks, joins),
    ensures
        contiguous(merged(chunks, joins)),
        merged(chunks, joins)[0].range.start == 0,
        merged(chunks, joins).last().range.end == utf8_bytes(text).len(),
{
    let ranges = pairwise_ranges(breaks);
    assert(chunks.len() == ranges.len());
    assert(chunks.len() >= 1);
    assert(contiguous(chunks)) by {
        assert forall|i: int| 0 <= i < chunks.len() - 1 implies (#[trigger] chunks[i]).range.end == chunks[i + 1].range.start by {
            assert(chunks[i].range == ranges[i]);
            assert(chunks[i + 1].range == ranges[i + 1]);
        }
    }
    assert(chunks[0].range == ranges[0]);
    assert(chunks[chunks.len() - 1].range == ranges[ranges.len() - 1]);
    law_merge_keeps_span(chunks, joins, chunks.len());
}

/// The merged chunk that chunk `k` ends up in: one more for every pair before
/// `k` that is not joined.
pub open spec fn run_index(joins: Seq<bool>, k: int) -> nat {
    count_breaks(joins.take(k))
}

proof fn lemma_run_index_step(joins: Seq<bool>, k: int)
    requires
        0 <= k < joins.len(),
    ensures
        run_index(joins, k + 1) == run_index(joins, k) + if joins[k] { 0nat } else { 1nat },
{
    assert(joins.take(k + 1).drop_last() =~= joins.take(k));
}

proof fn lemma_run_index_monotone(joins: Seq<bool>, a: int, b: int)
    requires
        0 <= a <= b <= joins.len(),
    ensures
        run_index(joins, a) <= run_index(joins, b),
    decreases b - a,
{
    if a < b {
        lemma_run_index_monotone(joins, a, b - 1);
        lemma_run_index_step(joins, b - 1);
    }
}

/// The shape of a merged prefix of `n` chunks (see `law_merge_runs_shape`).
pub open spec fn runs_shape<E>(chunks: Seq<EmbeddedChunk<E>>, joins: Seq<bool>, out: Seq<EmbeddedChunk<E>>, n: int) -> bool {
    forall|k: int|
        #![trigger run_index(joins, k)]
        0 <= k < n ==> {
            &&& run_index(joins, k) < out.len()
            &&& (k == 0 || !joins[k - 1]) ==> out[run_index(joins, k) as int] == extended(
                chunks[k],
                out[run_index(joins, k) as int].range.end,
            )
            &&& (k == n - 1 || !joins[k]) ==> out[run_index(joins, k) as int].range.end == chunks[k].range.end
        }
}

proof fn lemma_merge_runs_shape<E>(chunks: Seq<EmbeddedChunk<E>>, joins: Seq<bool>, n: nat)
    requires
        1 <= n <= chunks.len(),
        joins_fit(chunks, joins),
    ensures
        runs_shape(chunks, joins, merged_prefix(chunks, joins, n), n as int),
        merged_prefix(chunks, joins, n).len() == 1 + run_index(joins, n - 1),
    decreases n,
{
    law_merge_count(chunks, joins, n);
    let cur = merged_prefix(chunks, joins, n);
    if n == 1 {
        assert(joins.take(0) =~= Seq::<bool>::empty());
        assert(run_index(joins, 0) == 0);
        assert(extended(chunks[0], chunks[0].range.end) == chunks[0]);
        assert(cur == seq![chunks[0]]);
        assert forall|k: int| #![trigger run_index(joins, k)] 0 <= k < n implies {
            &&& run_index(joins, k) < cur.len()
            &&& (k == 0 || !joins[k - 1]) ==> cur[run_index(joins, k) as int] == extended(
                chunks[k],
                cur[run_index(joins, k) as int].range.end,
            )
            &&& (k == n - 1 || !joins[k]) ==> cur[run_index(joins, k) as int].range.end == chunks[k].range.end
        } by {
            assert(k == 0);
        }
    } else {
        let k1 = n - 1;
        lemma_merge_runs_shape(chunks, joins, k1 as nat);
        let prev = merged_prefix(chunks, joins, k1 as nat);
        let last = prev.len() - 1;
        lemma_run_index_step(joins, k1 - 1);
        assert forall|k: int| #![trigger run_index(joins, k)] 0 <= k < n implies {
            &&& run_index(joins, k) < cur.len()
            &&& (k == 0 || !joins[k - 1]) ==> cur[run_index(joins, k) as int] == extended(
                chunks[k],
                cur[run_index(joins, k) as int].range.end,
            )
            &&& (k == n - 1 || !joins[k]) ==> cur[run_index(joins, k) as int].range.end == chunks[k].range.end
        } by {
            let m = run_index(joins, k) as int;
            if k < k1 {
                lemma_run_index_monotone(joins, k, k1 - 1);
                if joins[k1 - 1] {
                    if m < last {
                        assert(cur[m] == prev[m]);
                    } else {
                        assert(m == last);
                        assert(cur[m] == extended(prev[m], chunks[k1].range.end));
                        if !joins[k] {
                            lemma_run_index_step(joins, k);
                            lemma_run_index_monotone(joins, k + 1, k1 - 1);
                        }
                    }
                } else {
                    assert(cur[m] == prev[m]);
                    if k == k1 - 1 {
                        assert(!joins[k]);
                    }
                }
            } else {
                assert(k == k1);
                if joins[k1 - 1] {
                    assert(m == last);
                } else {
                    assert(m == last + 1);
                    assert(cur[m] == chunks[k1]);
                    assert(extended(chunks[k1], chunks[k1].range.end) == chunks[k1]);
                }
            }
        }
    }
}

/// What merging produces, in terms of the chunks and the decisions: chunk
/// `k` lands in merged chunk `run_index(joins, k)`, one further for every
/// unjoined pair before it. A chunk that begins a run (the first chunk, or
/// one not joined to the chunk before it) gives that merged chunk everything
/// but its end, and a chunk that ends a run (the last chunk, or one not
/// joined to the chunk after it) gives it its end. Earlier merged chunks are
/// never changed by later joins.
pub proof fn law_merge_runs_shape<E>(chunks: Seq<EmbeddedChunk<E>>, joins: Seq<bool>)
    requires
        chunks.len() > 0,
        joins_fit(chunks, joins),
    ensures
        merged(chunks, joins).len() == 1 + count_breaks(joins),
        forall|k: int|
        #![trigger run_index(joins, k)]
            0 <= k < chunks.len() ==> {
                &&& run_index(joins, k) < merged(chunks, joins).len()
                &&& (k == 0 || !joins[k - 1]) ==> merged(chunks, joins)[run_index(joins, k) as int]
                    == extended(chunks[k], merged(chunks, joins)[run_index(joins, k) as int].range.end)
                &&& (k == chunks.len() - 1 || !joins[k]) ==> merged(chunks, joins)[run_index(
                    joins,
                    k,
                ) as int].range.end == chunks[k].range.end
            },
{
    lemma_merge_runs_shape(chunks, joins, chunks.len());
    assert(joins.take(joins.len() as int) =~= joins);
    assert(chunks.len() - 1 == joins.len());
    let out = merged(chunks, joins);
    let n = chunks.len() as int;
    assert(runs_shape(chunks, joins, out, n));
    assert forall|k: int| #![trigger run_index(joins, k)] 0 <= k < chunks.len() implies {
        &&& run_index(joins, k) < out.len()
        &&& (k == 0 || !joins[k - 1]) ==> out[run_index(joins, k) as int] == extended(
            chunks[k],
            out[run_index(joins, k) as int].range.end,
        )
        &&& (k == chunks.len() - 1 || !joins[k]) ==> out[run_index(joins, k) as int].range.end == chunks[k].range.end
    } by {
        let m = run_index(joins, k) as int;
        assert(0 <= k < n);
        assert(run_index(joins, k) < out.len());
        assert((k == 0 || !joins[k - 1]) ==> out[m] == extended(chunks[k], out[m].range.end));
        assert((k == n - 1 || !joins[k]) ==> out[m].range.end == chunks[k].range.end);
    }
}

/// Merges neighbouring chunks: where `joins[i]` holds, chunk `i + 1` is folded
/// into the chunk before it, whose range then reaches to chunk `i + 1`'s end.
pub fn merge_runs<E>(chunks: Vec<EmbeddedChunk<E>>, joins: &Vec<bool>) -> (r: Vec<EmbeddedChunk<E>>)
    requires
        joins_fit(chunks@, joins@),
    ensures
        r@ == merged(chunks@, joins@),
{
    let ghost all = chunks@;
    let n = chunks.len();
    if n == 0 {
        return Vec::new();
    }
    let mut rest = reversed(chunks);
    let first = rest.pop().unwrap();
    assert(all.skip(1).reverse() =~= all.skip(0).reverse().drop_last());
    assert(all.skip(0) =~= all);
    let mut out: Vec<EmbeddedChunk<E>> = Vec::new();
    out.push(first);
    assert(out@ =~= merged_prefix(all, joins@, 1));
    let mut i: usize = 1;
    while i < n
        invariant
            n == all.len(),
            joins@.len() + 1 == n,
            1 <= i <= n,
            rest@ =~= all.skip(i as int).reverse(),
            out@ == merged_prefix(all, joins@, i as nat),
        decreases n - i,
    {
        let curr = rest.pop().unwrap();
        assert(all.skip(i + 1).reverse() =~= all.skip(i as int).reverse().drop_last());
        assert(curr == all[i as int]);
        proof {
            lemma_merged_prefix_nonempty(all, joins@, i as nat);
        }
        if joins[i - 1] {
            let mut last = out.pop().unwrap();
            last.range = Range { start: last.range.start, end: curr.range.end };
            out.push(last);
            assert(out@ =~= merged_prefix(all, joins@, (i + 1) as nat));
        } else {
            out.push(curr);
            assert(out@ =~= merged_prefix(all, joins@, (i + 1) as nat));
        }
        i = i + 1;
    }
    out
}

/// `assemble` applied inside a `Result`; an error passes through.
pub fn assemble_result<E, X>(res: Result<AssemblyInput<E>, X>) -> (r: Result<Vec<EmbeddedChunk<E>>, X>)
    ensures
        match (res, r) {
            (Ok(input), Ok(chunks)) => assembled_from(input.ranges@, input.embeds@, input.source, input.url, chunks@),
            (Err(x), Err(y)) => x == y,
            _ => false,
        },
{
    match res {
        Ok(input) => Ok(assemble(input)),
        Err(x) => Err(x),
    }
}

impl<'a> Pipeline<&'a str> {
    /// Splits the text into sentences (at most `MAX_SEGMENTS`), logging
    /// "Segmenting text...".
    pub fn segment<X>(self) -> (r: Pipeline<Result<(Vec<String>, Vec<Range<usize>>), X>>)
        ensures
            r.log_view() == self.log_view().push("Segmenting text..."@),
            r.value matches Ok((segments, ranges)) && ranges@ == capped_spans(self.value@)
                && segments.deep_view() == slice_all(self.value@, ranges@)
                && (sentence_spans(self.value@).len() <= MAX_SEGMENTS ==> concat(segments.deep_view()) == self.value@)
                && spans_ordered(self.value@, ranges@) && ranges@.len() <= MAX_SEGMENTS
                && ((ranges@.len() == 0) == (self.value@.len() == 0))
                && ranges@.len() == (if sentence_breakpoints(self.value@).len() - 1 <= MAX_SEGMENTS {
                    sentence_breakpoints(self.value@).len() - 1
                } else {
                    MAX_SEGMENTS as int
                })
                && forall|i: int|
                    0 <= i < ranges@.len() ==> (#[trigger] ranges@[i]).start == sentence_breakpoints(self.value@)[i]
                        && ranges@[i].end == sentence_breakpoints(self.value@)[i + 1],
    {
        self.map("Segmenting text...", split_sentences::<X>)
    }
}

impl<E, X> Pipeline<Result<AssemblyInput<E>, X>> {
    /// Pairs sentence ranges with their embeddings into chunks, logging
    /// "Assembling chunk types...".
    pub fn assemble_chunks(self) -> (r: Pipeline<Result<Vec<EmbeddedChunk<E>>, X>>)
        ensures
            r.log_view() == self.log_view().push("Assembling chunk types..."@),
            match (self.value, r.value) {
                (Ok(input), Ok(chunks)) => assembled_from(input.ranges@, input.embeds@, input.source, input.url, chunks@),
                (Err(x), Err(y)) => x == y,
                _ => false,
            },
    {
        self.map("Assembling chunk types...", assemble_result::<E, X>)
    }
}

impl<E, X> Pipeline<Result<Vec<EmbeddedChunk<E>>, X>> {
    /// Merges neighbouring chunks where `joins` says so (see `merge_runs`),
    /// logging "Merging vectors...". An error passes through.
    pub fn merge_chunks_by(self, joins: &Vec<bool>) -> (r: Pipeline<Result<Vec<EmbeddedChunk<E>>, X>>)
        requires
            self.value matches Ok(chunks) ==> joins_fit(chunks@, joins@),
        ensures
            r.log_view() == self.log_view().push("Merging vectors..."@),
            match (self.value, r.value) {
                (Ok(chunks), Ok(out)) => out@ == merged(chunks@, joins@),
                (Err(x), Err(y)) => x == y,
                _ => false,
            },
    {
        let step = (move |res: Result<Vec<EmbeddedChunk<E>>, X>| -> (out: Result<Vec<EmbeddedChunk<E>>, X>)
            requires
                res matches Ok(chunks) ==> joins_fit(chunks@, joins@),
            ensures
                match (res, out) {
                    (Ok(chunks), Ok(m)) => m@ == merged(chunks@, joins@),
                    (Err(x), Err(y)) => x == y,
                    _ => false,
                },
            {
                match res {
                    Ok(chunks) => Ok(merge_runs(chunks, joins)),
                    Err(x) => Err(x),
                }
            });
        self.map("Merging vectors...", step)
    }
}

} // verus!
