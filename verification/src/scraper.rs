use vstd::prelude::*;
use ::scraper::Html;
use readability_rust::Readability;
use sanitize_html::rules::predefined::DEFAULT;
use sanitize_html::sanitize_str;
use crate::whitespace::{normalized, joined, words_of_all, normalize_whitespace, normalize_all, proper_words, lemma_joined_nonempty, lemma_words_of_all_proper};

verus! {

/// What `sanitize_html::sanitize_str` with the `DEFAULT` rules returns for an
/// HTML text: the sanitized HTML, or `None` where it reports an error.
pub uninterp spec fn sanitized_html(html: Seq<char>) -> Option<Seq<char>>;

/// The text of the article that `readability_rust`'s `Readability`, built
/// with `new_with_base_uri(html, base_uri, None)`, finds by `parse` in
/// sanitized HTML, or `None` where it finds none.
pub uninterp spec fn readable_article(html: Seq<char>, base_uri: Seq<char>) -> Option<Seq<char>>;

/// The text nodes, in document order, of the document that
/// `scraper::Html::parse_document` builds from an HTML text: what
/// `root_element().text()` yields.
pub uninterp spec fn html_text_nodes(html: Seq<char>) -> Seq<Seq<char>>;

/// Calls `sanitize_html::sanitize_str` with the predefined `DEFAULT` rules.
/// The result is named by `sanitized_html`; an error becomes `None`.
#[verifier::external_body]
fn sanitize(html: &str) -> (r: Option<String>)
    ensures
        match r {
            Some(s) => sanitized_html(html@) == Some(s@),
            None => sanitized_html(html@) is None,
        },
{
    sanitize_str(&DEFAULT, html).ok()
}

/// Calls `scraper::Html::parse_document`, then `root_element().text()`, and
/// copies the text nodes. The result is named by `html_text_nodes`.
#[verifier::external_body]
fn document_text_nodes(html: &str) -> (r: Vec<String>)
    ensures
        r.deep_view() == html_text_nodes(html@),
{
    Html::parse_document(html).root_element().text().map(|t| t.to_string()).collect()
}

/// Calls `readability_rust::Readability::new_with_base_uri(html, base_uri,
/// None)` and then `parse`, and returns the article's `text_content`. The
/// result is named by `readable_article`.
///
/// The HTML must be output of the sanitizer. Its default rules keep no
/// element at all (every tag is elided, spaced or deleted), so the parsed
/// document holds only the `html`, `head` and `body` elements that the HTML
/// parser adds. On such a document:
/// - `parse` does not panic: where it builds a CSS selector from a chosen
///   element's tag name and unwraps it, these names are accepted;
/// - the result is a function of the arguments: the candidate scoring that
///   walks a `HashMap` only looks at `p`, `td` and `pre` elements, of which
///   there are none, so `grab_article` takes its fixed fallback list of
///   selectors.
///
/// Beside the name, what `parse` guarantees of every article is stated: its
/// text is at least `char_threshold` (by default 25) bytes long, and it comes
/// from `get_inner_text(.., true)`, which collapses every run of white space
/// into one space and trims the ends, so it is in normal form.
/// (`new_with_base_uri` always succeeds and a parsed article always has
/// `text_content`, as that crate's source shows; the `None` for those cases is
/// never returned.)
#[verifier::external_body]
fn readable_text(html: &str, base_uri: &str) -> (r: Option<String>)
    requires
        is_sanitized(html@),
    ensures
        match r {
            Some(t) => readable_article(html@, base_uri@) == Some(t@),
            None => readable_article(html@, base_uri@) is None,
        },
        r matches Some(t) ==> t@.len() > 0 && normalized(t@) == t@,
{
    let mut parser = match Readability::new_with_base_uri(html, base_uri, None) {
        Ok(p) => p,
        Err(_) => return None,
    };
    match parser.parse() {
        Some(article) => article.text_content,
        None => None,
    }
}

/// The text of an article: the readable text with its white space
/// normalized where there is one, else all words of the page's text nodes.
pub open spec fn article_view(readable: Option<Seq<char>>, nodes: Seq<Seq<char>>) -> Seq<char> {
    match readable {
        Some(t) => normalized(t),
        None => joined(words_of_all(nodes)),
    }
}

/// The text of a page: the words of all its text nodes, separated by single
/// spaces.
pub open spec fn page_view(html: Seq<char>) -> Seq<char> {
    joined(words_of_all(html_text_nodes(html)))
}

/// Picks the article text: the readable text, white space normalized, when
/// the readability pass found one; the words of the page's text nodes
/// otherwise.
pub fn article_text(readable: Option<String>, nodes: &Vec<String>) -> (r: String)
    ensures
        r@ == article_view(
            match readable {
                Some(t) => Some(t@),
                None => None,
            },
            nodes.deep_view(),
        ),
{
    match readable {
        Some(t) => normalize_whitespace(t.as_str()),
        None => normalize_all(nodes),
    }
}

/// The words of all the text of an HTML page, separated by single spaces.
pub fn page_text(html: &str) -> (r: String)
    ensures
        r@ == page_view(html@),
{
    let nodes = document_text_nodes(html);
    normalize_all(&nodes)
}

/// `html` is what the sanitizer made of some page.
pub open spec fn is_sanitized(html: Seq<char>) -> bool {
    exists|page: Seq<char>| sanitized_html(page) == Some(html)
}

/// The shape of the text extracted from a sanitized page: the words of the
/// page's text nodes (when the readability pass found no article), or a
/// non-empty text in normal form (the article's). Either way, a page with
/// words gives a non-empty text.
pub open spec fn extracted_from(sanitized: Seq<char>, text: Seq<char>) -> bool {
    &&& text == page_view(sanitized) || (text.len() > 0 && normalized(text) == text)
    &&& words_of_all(html_text_nodes(sanitized)).len() > 0 ==> text.len() > 0
}

/// Extracts the article text of already sanitized HTML and pairs it with the
/// page's URL.
pub fn parse_sanitized(sanitized: &str, url: String) -> (r: (String, String))
    requires
        is_sanitized(sanitized@),
    ensures
        r.1 == url,
        r.0@ == article_view(readable_article(sanitized@, url@), html_text_nodes(sanitized@)),
        extracted_from(sanitized@, r.0@),
{
    let nodes = document_text_nodes(sanitized);
    let readable = readable_text(sanitized, url.as_str());
    let text = article_text(readable, &nodes);
    proof {
        lemma_words_of_all_proper(nodes.deep_view());
        lemma_joined_nonempty(words_of_all(nodes.deep_view()));
    }
    (text, url)
}

/// Sanitizes the page's HTML, then extracts its article text (see
/// `parse_sanitized`). The page must be one that the sanitizer accepts.
pub fn parse(html: (String, String)) -> (r: (String, String))
    requires
        sanitized_html(html.0@) is Some,
    ensures
        r.1 == html.1,
        r.0@ == article_view(
            readable_article(sanitized_html(html.0@)->0, html.1@),
            html_text_nodes(sanitized_html(html.0@)->0),
        ),
        extracted_from(sanitized_html(html.0@)->0, r.0@),
{
    let (text, url) = html;
    match sanitize(text.as_str()) {
        Some(clean) => {
            assert(sanitized_html(text@) == Some(clean@));
            parse_sanitized(clean.as_str(), url)
        },
        None => {
            proof {
                assert(false);
            }
            (String::new(), url)
        },
    }
}

/// [`parse`] for any page: `None` exactly when the sanitizer rejects the HTML.
pub fn try_parse(html: (String, String)) -> (r: Option<(String, String)>)
    ensures
        r is None <==> sanitized_html(html.0@) is None,
        r matches Some(p) ==> p.1 == html.1 && p.0@ == article_view(
            readable_article(sanitized_html(html.0@)->0, html.1@),
            html_text_nodes(sanitized_html(html.0@)->0),
        ) && extracted_from(sanitized_html(html.0@)->0, p.0@),
{
    match sanitize(html.0.as_str()) {
        Some(_) => Some(parse(html)),
        None => None,
    }
}

} // verus!
