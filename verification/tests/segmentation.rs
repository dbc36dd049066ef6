use dynamism::segmentation::model::{Chunk, EmbeddedChunk};
use dynamism::segmentation::pure::{assemble, merge_runs, split_sentences, AssemblyInput, MAX_SEGMENTS};
use dynamism::segmentation::{segment, slices};
use dynamism::segmenter;
use dynamism::text::{substring, substring_owned};
use dynamism::Pipeline;
use std::ops::Range;
use std::sync::Arc;

#[test]
fn mod_seg_test() {
    let text = "Hello world. This is Rust.";
    let sentences = segment(text);
    let segments = sentences
        .iter()
        .map(|&Range { start, end }| &text[start..end])
        .collect::<Vec<&str>>();
    assert_eq!(segments, &["Hello world. ", "This is Rust."])
}

#[test]
fn segmenter_init() {
    let text = "Hello world. This is Rust.";
    let sentances: anyhow::Result<Vec<Vec<String>>> = segmenter::segment(vec![text.to_string()]);
    sentances.iter().for_each(|s| {
        s.iter().for_each(|v| {
            let segments = v.iter().map(|a| a.as_str()).collect::<Vec<&str>>();
            assert_eq!(segments, &["Hello world. ", "This is Rust."]);
        });
    });
}

#[test]
fn segment_covers_whole_text() {
    let text = "Ceci tuera cela. Le livre tuera l’édifice.";
    let ranges = segment(text);
    assert_eq!(ranges, vec![0..17, 17..text.len()]);
    let pieces = slices(text, &ranges);
    assert_eq!(pieces.concat(), text);
    assert_eq!(pieces[1], "Le livre tuera l’édifice.");
}

#[test]
fn segment_of_empty_text_is_empty() {
    assert!(segment("").is_empty());
    let r: Result<Vec<Vec<String>>, ()> = segmenter::segment(vec![String::new()]);
    assert_eq!(r.unwrap(), vec![Vec::<String>::new()]);
}

#[test]
fn substring_takes_bytes_between_boundaries() {
    let text = "añb";
    assert_eq!(substring(text, 1, 3), "ñ");
    assert_eq!(substring_owned(text, 0, 4), "añb");
    assert_eq!(substring(text, 2 + 1, 4), "b");
}

#[test]
fn pipeline_segment_logs_and_splits() {
    let p: Pipeline<Result<(Vec<String>, Vec<Range<usize>>), String>> =
        Pipeline::inject("One. Two. Three.").segment();
    assert_eq!(p.logs, vec!["Segmenting text...".to_string()]);
    let (segments, ranges) = p.value.unwrap();
    assert_eq!(segments, vec!["One. ", "Two. ", "Three."]);
    assert_eq!(ranges, vec![0..5, 5..10, 10..16]);
}

#[test]
fn split_sentences_caps_the_count() {
    let text = "Go. ".repeat(MAX_SEGMENTS + 5);
    let r: Result<(Vec<String>, Vec<Range<usize>>), ()> = split_sentences(&text);
    let (segments, ranges) = r.unwrap();
    assert_eq!(ranges.len(), MAX_SEGMENTS);
    assert_eq!(segments.len(), MAX_SEGMENTS);
    assert_eq!(segments[0], "Go. ");
    assert_eq!(ranges[MAX_SEGMENTS - 1], (4 * (MAX_SEGMENTS - 1))..(4 * MAX_SEGMENTS));
}

fn chunk(start: usize, end: usize, tag: u32) -> EmbeddedChunk<u32> {
    EmbeddedChunk {
        source_url: Arc::new("u".to_string()),
        source_text: Arc::new("abcdefghij".to_string()),
        range: start..end,
        embedding: tag,
        ..Default::default()
    }
}

fn spans(chunks: &[EmbeddedChunk<u32>]) -> Vec<(usize, usize, u32)> {
    chunks.iter().map(|c| (c.range.start, c.range.end, c.embedding)).collect()
}

#[test]
fn merge_joins_marked_neighbours() {
    let chunks = vec![chunk(0, 2, 1), chunk(2, 5, 2), chunk(5, 7, 3), chunk(7, 10, 4)];
    let merged = merge_runs(chunks, &vec![true, false, true]);
    assert_eq!(spans(&merged), vec![(0, 5, 1), (5, 10, 3)]);
}

#[test]
fn merge_without_joins_keeps_chunks() {
    let chunks = vec![chunk(0, 2, 1), chunk(2, 5, 2), chunk(5, 7, 3)];
    let merged = merge_runs(chunks, &vec![false, false]);
    assert_eq!(spans(&merged), vec![(0, 2, 1), (2, 5, 2), (5, 7, 3)]);
}

#[test]
fn merge_with_all_joins_gives_one_chunk() {
    let chunks = vec![chunk(0, 2, 1), chunk(2, 5, 2), chunk(5, 7, 3)];
    let merged = merge_runs(chunks, &vec![true, true]);
    assert_eq!(spans(&merged), vec![(0, 7, 1)]);
    assert!(merge_runs(Vec::<EmbeddedChunk<u32>>::new(), &vec![]).is_empty());
}

#[test]
fn merge_chunks_by_passes_errors_and_logs() {
    let p: Pipeline<Result<Vec<EmbeddedChunk<u32>>, String>> = Pipeline::inject(Err("no embeddings".to_string()));
    let q = p.merge_chunks_by(&vec![]);
    assert_eq!(q.value.unwrap_err(), "no embeddings");
    assert_eq!(q.logs, vec!["Merging vectors...".to_string()]);
    let p: Pipeline<Result<Vec<EmbeddedChunk<u32>>, String>> =
        Pipeline::inject(Ok(vec![chunk(0, 2, 1), chunk(2, 5, 2)]));
    let q = p.merge_chunks_by(&vec![true]);
    assert_eq!(spans(&q.value.unwrap()), vec![(0, 5, 1)]);
}

#[test]
fn assemble_pairs_ranges_with_embeddings() {
    let source = Arc::new("First. Second. Third.".to_string());
    let url = Arc::new("https://example.org/".to_string());
    let input = AssemblyInput {
        ranges: vec![0..7, 7..15, 15..21],
        embeds: vec![10u32, 20],
        source: source.clone(),
        url: url.clone(),
    };
    let chunks = assemble(input);
    assert_eq!(chunks.len(), 2);
    assert_eq!(chunks[0].range, 0..7);
    assert_eq!(chunks[1].range, 7..15);
    assert_eq!(chunks[1].embedding, 20);
    assert_eq!(*chunks[0].source_url, *url);
    assert_eq!(chunks[1].chunk_text(), "Second. ");
    assert_ne!(chunks[0].id, chunks[1].id);
}

#[test]
fn assemble_chunks_logs_and_passes_errors() {
    let p: Pipeline<Result<AssemblyInput<u32>, String>> = Pipeline::inject(Err("bad".to_string()));
    let q = p.assemble_chunks();
    assert_eq!(q.logs, vec!["Assembling chunk types...".to_string()]);
    assert_eq!(q.value.unwrap_err(), "bad");
}

#[test]
fn chunk_text_slices_the_source() {
    let c = Chunk {
        source_url: "u".to_string(),
        source_text: "Hello world. This is Rust.".to_string(),
        range: 13..26,
        ..Default::default()
    };
    assert_eq!(c.chunk_text(), "This is Rust.");
}

#[test]
fn merged_chunks_cover_the_text() {
    let text = "One. Two. Three.";
    let ranges = segment(text);
    let embeds: Vec<u32> = (0..ranges.len() as u32).collect();
    let chunks = assemble(AssemblyInput {
        ranges,
        embeds,
        source: Arc::new(text.to_string()),
        url: Arc::new("https://example.org/".to_string()),
    });
    let merged = merge_runs(chunks, &vec![true, false]);
    assert_eq!(merged.len(), 2);
    assert_eq!(merged[0].range, 0..10);
    assert_eq!(merged[1].range, 10..16);
    let whole: String = merged.iter().map(|c| c.chunk_text()).collect();
    assert_eq!(whole, text);
}

#[test]
fn well_placed_ranges_are_tested() {
    let c = chunk(0, 2, 1);
    assert!(c.is_well_placed());
    assert!(!chunk(3, 2, 1).is_well_placed());
    assert!(!chunk(0, 11, 1).is_well_placed());
    let accent = EmbeddedChunk {
        source_text: Arc::new("añb".to_string()),
        range: 0..2,
        embedding: 0u32,
        ..Default::default()
    };
    assert!(!accent.is_well_placed());
    assert!(dynamism::text::is_byte_range("añb", 1, 3));
    let copy = c.clone();
    assert_eq!(copy.range, c.range);
    assert_eq!(copy.id, c.id);
}
