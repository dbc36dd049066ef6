use dynamism::scraper::{article_text, page_text, parse, try_parse};
use dynamism::whitespace::{join_words, normalize_all, normalize_whitespace, split_words};

#[test]
fn split_words_drops_all_white_space() {
    let words = split_words("  alpha\tbeta\n\u{00a0}gamma\u{3000} ");
    assert_eq!(words, vec!["alpha", "beta", "gamma"]);
    assert!(split_words(" \n\t ").is_empty());
}

#[test]
fn join_words_puts_single_spaces_between() {
    assert_eq!(join_words(&vec!["a".to_string(), "bc".to_string(), "d".to_string()]), "a bc d");
    assert_eq!(join_words(&vec![]), "");
}

#[test]
fn normalize_whitespace_collapses_runs() {
    assert_eq!(normalize_whitespace("  Hello \n\n  world\t!  "), "Hello world !");
    let once = normalize_whitespace(" a  b\u{2003}c ");
    assert_eq!(normalize_whitespace(&once), once);
}

#[test]
fn normalize_all_keeps_node_boundaries() {
    let nodes = vec!["foo".to_string(), "bar  baz".to_string(), "  ".to_string(), "qux".to_string()];
    assert_eq!(normalize_all(&nodes), "foo bar baz qux");
}

#[test]
fn article_text_prefers_the_readable_text() {
    let nodes = vec!["menu".to_string(), " body  text ".to_string()];
    assert_eq!(article_text(Some("  the\n article ".to_string()), &nodes), "the article");
    assert_eq!(article_text(None, &nodes), "menu body text");
}

#[test]
fn page_text_joins_the_text_nodes() {
    let html = "<html><head><title>T</title></head><body><p>Hello   <b>big</b>\n world</p></body></html>";
    assert_eq!(page_text(html), "T Hello big world");
}

#[test]
fn parse_keeps_the_url_and_extracts_text() {
    let html = "<html><body><p>Some   text here.</p></body></html>".to_string();
    let url = "https://example.org/a".to_string();
    let (text, u) = parse((html.clone(), url.clone()));
    assert_eq!(u, url);
    assert!(text.contains("Some text here."));
    assert!(!text.contains("  "));
    let again = try_parse((html, url.clone())).unwrap();
    assert_eq!(again.1, url);
}

#[test]
fn parse_drops_scripts_through_the_sanitizer() {
    let html = "<html><body><script>var hidden = 1;</script><p>Visible words</p></body></html>".to_string();
    let (text, _) = parse((html, "https://example.org/".to_string()));
    assert!(text.contains("Visible words"));
    assert!(!text.contains("hidden"));
    assert!(!text.contains('<'));
}
