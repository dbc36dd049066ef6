use dynamism::dashboard::{PickEvent, UiCommand, UiEvent, ViewState};
use dynamism::demo::{generate_demo_data, title_for, DEMO_COUNT};
use dynamism::segmentation::model::EmbeddedChunk;
use dynamism::segmentation::worker::model::EmbeddingTask;
use dynamism::segmentation::worker::{document_prompt, document_prompts, ChunkColumns};
use dynamism::telemetry::{BarEvent, SpinnerStep};
use std::sync::Arc;

#[test]
fn finish_ends_a_bar() {
    assert!(BarEvent::Finish("done".to_string()).ends_bar());
    assert!(!BarEvent::Inc(3).ends_bar());
    assert!(!BarEvent::SetMsg("x".to_string()).ends_bar());
}

#[test]
fn spinner_only_finishes() {
    match BarEvent::Finish("ok".to_string()).spinner_step() {
        SpinnerStep::Finish(m) => assert_eq!(m, "ok"),
        SpinnerStep::Reject => panic!("finish was rejected"),
    }
    assert!(matches!(BarEvent::SetPos(4).spinner_step(), SpinnerStep::Reject));
    assert!(matches!(BarEvent::AddLen(4).spinner_step(), SpinnerStep::Reject));
}

#[test]
fn button_press_loads_the_query_and_clears_it() {
    let mut s = ViewState::new();
    assert!(matches!(s.update(UiEvent::ContentChanged("rust".to_string())), UiCommand::Nothing));
    assert_eq!(s.content, "rust");
    match s.update(UiEvent::ButtonPressed) {
        UiCommand::Load(q) => assert_eq!(q, "rust"),
        _ => panic!("expected a load"),
    }
    assert_eq!(s.content, "");
}

#[test]
fn picking_follows_plot_events() {
    let mut s = ViewState::new();
    assert!(matches!(s.update(UiEvent::Loaded(3)), UiCommand::ShowSeries));
    assert_eq!(s.point_count, Some(3));
    assert!(matches!(s.update(UiEvent::Plot(Some(PickEvent::Pick(2)))), UiCommand::UpdatePlot(Some(2))));
    assert_eq!(s.detail_row(), Some(2));
    assert!(matches!(s.update(UiEvent::Plot(Some(PickEvent::Hover(0)))), UiCommand::UpdatePlot(Some(2))));
    assert!(matches!(s.update(UiEvent::Plot(None)), UiCommand::UpdatePlot(Some(2))));
    assert!(matches!(s.update(UiEvent::Plot(Some(PickEvent::ClearPick))), UiCommand::UpdatePlot(None)));
    assert_eq!(s.detail_row(), None);
}

#[test]
fn demo_data_has_thirty_documents() {
    let points = generate_demo_data();
    assert_eq!(points.len(), DEMO_COUNT);
    assert_eq!(points[0].title, "doc-001");
    assert_eq!(points[29].title, "doc-030");
    assert_eq!(points[0].x_tenths, -32);
    assert_eq!(points[0].y_tenths, 21);
    assert_eq!(points[9].x_tenths, 50);
    assert_eq!(points[29].y_tenths, 35);
    assert!(points[7].content.starts_with("The cosine similarity metric"));
    assert_eq!(title_for(123), "doc-123");
}

#[test]
fn document_prompts_prefix_each_text() {
    assert_eq!(document_prompt("cats"), "search_document: cats");
    let texts = vec!["a".to_string(), "b c".to_string()];
    assert_eq!(document_prompts(&texts), vec!["search_document: a", "search_document: b c"]);
    let task = EmbeddingTask { source_text: "t".to_string(), url: "u".to_string() };
    assert_eq!(task.url, "u");
}

#[test]
fn columns_hold_one_row_per_chunk() {
    let text = Arc::new("Hello world. This is Rust.".to_string());
    let url = Arc::new("https://rust-lang.org/".to_string());
    let make = |start: usize, end: usize, e: u8| EmbeddedChunk {
        source_url: url.clone(),
        source_text: text.clone(),
        range: start..end,
        embedding: e,
        ..Default::default()
    };
    let mut cols = ChunkColumns::new();
    cols.push_chunks(vec![make(0, 13, 1), make(13, 26, 2)]);
    cols.push_chunks(vec![make(6, 11, 3)]);
    assert_eq!(cols.urls.len(), 3);
    assert_eq!(*cols.snippets[0], "Hello world. ");
    assert_eq!(*cols.snippets[1], "This is Rust.");
    assert_eq!(*cols.snippets[2], "world");
    assert_eq!(cols.embeddings, vec![1, 2, 3]);
    assert_eq!(*cols.texts[2], *text);
}

#[test]
fn titles_pad_to_three_digits() {
    assert_eq!(title_for(7), "doc-007");
    assert_eq!(title_for(42), "doc-042");
    assert_eq!(title_for(1234), "doc-1234");
    assert_eq!(title_for(0), "doc-000");
}

#[test]
fn counting_bar_is_created_once_and_finished() {
    let mut bar = dynamism::telemetry::CountingBar::new();
    assert!(!bar.finish_at_end());
    assert!(bar.on_count());
    assert!(!bar.on_count());
    assert!(bar.finish_at_end());
}

#[test]
fn loading_points_shows_their_series() {
    let mut s = ViewState::new();
    assert_eq!(s.point_count.is_some(), s.series_shown);
    s.update(UiEvent::Loaded(0));
    assert!(s.series_shown);
    assert_eq!(s.point_count, Some(0));
}
