//! Regular-expression scans and HTML-to-Markdown conversion, the two
//! outside engines of the XHTML transformer.

use vstd::prelude::*;
use pulldown_cmark::{Event, Options, Tag, TagEnd};

verus! {

/// One match of a scan: the text between the previous match and this one,
/// and the capture groups (group 0 is the whole match).
pub struct Match {
    pub before: String,
    pub groups: Vec<Option<String>>,
}

/// The successive matches of a pattern in a text, then the text after the
/// last match.
pub struct Scan {
    pub matches: Vec<Match>,
    pub tail: String,
}

/// The values of the capture groups.
pub open spec fn group_views(g: Seq<Option<String>>) -> Seq<Option<Seq<char>>> {
    g.map_values(|o: Option<String>| match o {
        Some(s) => Some(s@),
        None => None,
    })
}

/// The values of the matches of a scan.
pub open spec fn match_views(ms: Seq<Match>) -> Seq<(Seq<char>, Seq<Option<Seq<char>>>)> {
    ms.map_values(|m: Match| (m.before@, group_views(m.groups@)))
}

/// The text of capture group `i` (empty when it did not take part).
pub open spec fn group(g: Seq<Option<Seq<char>>>, i: int) -> Seq<char> {
    if 0 <= i < g.len() && g[i] is Some {
        g[i]->Some_0
    } else {
        Seq::<char>::empty()
    }
}

/// The text that the matches `ms` and `tail` were cut from.
pub open spec fn rejoined(ms: Seq<(Seq<char>, Seq<Option<Seq<char>>>)>, tail: Seq<char>) -> Seq<char>
    decreases ms.len(),
{
    if ms.len() == 0 {
        tail
    } else {
        rejoined(ms.drop_last(), Seq::<char>::empty()) + ms.last().0 + group(ms.last().1, 0) + tail
    }
}

/// The matches of `pattern` in `text`, and the text after the last one.
pub uninterp spec fn regex_scan_of(pattern: Seq<char>, text: Seq<char>) -> (Seq<(Seq<char>, Seq<Option<Seq<char>>>)>, Seq<char>);

/// The Markdown that the converter makes of `html`.
pub uninterp spec fn markdown_of(html: Seq<char>) -> Seq<char>;

/// The HTML that the CommonMark renderer makes of `md` with the given
/// extensions (tables, footnotes, strikethrough, heading attributes).
pub uninterp spec fn cmark_html_of(md: Seq<char>, tables: bool, footnotes: bool, strike: bool, heading_attrs: bool) -> Seq<char>;

/// A Markdown parser event, as far as the outline reader needs it.
pub enum MdEvent {
    ListStart,
    ListEnd,
    /// The start of a link, with its destination.
    LinkStart(String),
    LinkEnd,
    Text(String),
    Other,
}

/// The events of the outline reader for `md`.
pub uninterp spec fn md_events_of(md: Seq<char>) -> Seq<MdEvent>;

/// Relies on `pulldown_cmark::Parser::new`: its events for `md` with no
/// extensions, lists, links and text told apart.
#[verifier::external_body]
pub fn md_events(md: &str) -> (r: Vec<MdEvent>)
    ensures
        r@ == md_events_of(md@),
{
    let mut out = Vec::new();
    for e in pulldown_cmark::Parser::new(md) {
        out.push(match e {
            Event::Start(Tag::List(_)) => MdEvent::ListStart,
            Event::End(TagEnd::List(_)) => MdEvent::ListEnd,
            Event::Start(Tag::Link { dest_url, .. }) => MdEvent::LinkStart(dest_url.to_string()),
            Event::End(TagEnd::Link) => MdEvent::LinkEnd,
            Event::Text(t) => MdEvent::Text(t.to_string()),
            _ => MdEvent::Other,
        });
    }
    out
}

/// Relies on `pulldown_cmark::Parser::new_ext` and `html::push_html`: the
/// HTML rendering of `md` with the extensions flagged.
#[verifier::external_body]
pub fn render_markdown(md: &str, tables: bool, footnotes: bool, strike: bool, heading_attrs: bool) -> (r: String)
    ensures
        r@ == cmark_html_of(md@, tables, footnotes, strike, heading_attrs),
{
    let mut o = Options::empty();
    o.set(Options::ENABLE_TABLES, tables);
    o.set(Options::ENABLE_FOOTNOTES, footnotes);
    o.set(Options::ENABLE_STRIKETHROUGH, strike);
    o.set(Options::ENABLE_HEADING_ATTRIBUTES, heading_attrs);
    let mut html = String::new();
    pulldown_cmark::html::push_html(&mut html, pulldown_cmark::Parser::new_ext(md, o));
    html
}

/// Whether `pattern` is a valid regular expression.
pub uninterp spec fn regex_compiles(pattern: Seq<char>) -> bool;

/// `s` with every regular-expression meta character escaped.
pub uninterp spec fn regex_escaped(s: Seq<char>) -> Seq<char>;

/// `text` with every match of `pattern` replaced by the expansion of the
/// template `rep` (`$1` and the like).
pub uninterp spec fn regex_replaced(pattern: Seq<char>, text: Seq<char>, rep: Seq<char>) -> Seq<char>;

/// Relies on `regex::Regex::new`: whether the pattern compiles.
#[verifier::external_body]
pub fn regex_is_valid(pattern: &str) -> (r: bool)
    ensures
        r == regex_compiles(pattern@),
{
    regex::Regex::new(pattern).is_ok()
}

/// Relies on `regex::escape`: a pattern that matches `s` literally.
#[verifier::external_body]
pub fn regex_escape(s: &str) -> (r: String)
    ensures
        r@ == regex_escaped(s@),
{
    regex::escape(s)
}

/// Relies on `regex::Regex::replace_all`: every match replaced by the
/// expanded template; the text unchanged for an invalid pattern.
#[verifier::external_body]
pub fn regex_replace_all(pattern: &str, text: &str, rep: &str) -> (r: String)
    ensures
        r@ == regex_replaced(pattern@, text@, rep@),
{
    match regex::Regex::new(pattern) {
        Ok(re) => re.replace_all(text, rep).into_owned(),
        Err(_) => text.to_string(),
    }
}

/// Relies on `regex::Regex::new` and `captures_iter`: the successive
/// non-overlapping matches of `pattern`, each with the text before it and
/// its groups (group 0, the whole match, always takes part), then the rest;
/// an invalid pattern matches nothing.
#[verifier::external_body]
pub fn regex_scan(pattern: &str, text: &str) -> (r: Scan)
    ensures
        (match_views(r.matches@), r.tail@) == regex_scan_of(pattern@, text@),
        rejoined(match_views(r.matches@), r.tail@) == text@,
{
    let mut matches = Vec::new();
    let mut last: usize = 0;
    if let Ok(re) = regex::Regex::new(pattern) {
        for c in re.captures_iter(text) {
            let whole = c.get(0).unwrap();
            let groups = c.iter().map(|g| g.map(|m| m.as_str().to_string())).collect();
            matches.push(Match { before: text[last..whole.start()].to_string(), groups });
            last = whole.end();
        }
    }
    Scan { matches, tail: text[last..].to_string() }
}

/// Relies on `html_to_markdown_rs::convert` with default options: the
/// Markdown content of the conversion, empty when it fails.
#[verifier::external_body]
pub fn html_to_markdown(html: &str) -> (r: String)
    ensures
        r@ == markdown_of(html@),
{
    match html_to_markdown_rs::convert(html, None) {
        Ok(res) => res.content.unwrap_or_default(),
        Err(_) => String::new(),
    }
}

} // verus!
