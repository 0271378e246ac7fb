//! XHTML to Markdown, keeping the anchors that something links to.
//!
//! The converter drops `id` attributes, so the ids worth keeping travel
//! through it as opaque text tokens (`EPXANCHOR__<id>__ENDEPX`) and are
//! turned into Pandoc anchors afterwards. Every rewriting step is a scan
//! of one pattern followed by a verified rule applied to each match.

use vstd::prelude::*;
use crate::numfmt::{decimal, push_decimal};
use crate::paths::str_views;
use crate::patterns::{group, group_views, html_to_markdown, markdown_of, match_views, regex_scan, regex_scan_of, Match, Scan};
use crate::strmap::StrMap;
use crate::text::{append_chars, chars_of, is_prefix, push_str, seq_eq, slice, string_of, trim, trimmed, trim_end, trim_end_chars, rfind_char, is_last_index};

verus! {

/// The token that carries id `id` through the converter.
pub open spec fn anchor_token(id: Seq<char>) -> Seq<char> {
    "EPXANCHOR__"@ + id + "__ENDEPX"@
}

/// How a match is rewritten.
#[derive(Clone, Copy, PartialEq, Eq, Structural)]
pub enum Rule {
    /// The match is removed.
    Drop,
    /// An SVG that only wraps one image becomes that image.
    SvgUnwrap,
    /// An empty `alt` gets text derived from the image's file name.
    AltFill,
    /// An image without `alt` gets one.
    AltInject,
    /// An empty `<a id>`: its token when referenced, else nothing.
    AnchorEmpty,
    /// An `<a>` with an id: the id leaves the tag, its token goes before
    /// it when referenced.
    AnchorId,
    /// Any other element with an id: the id leaves the tag, its token goes
    /// after it when referenced.
    ElementId,
    /// A footnote `<aside>` becomes a Markdown footnote definition.
    Footnote,
    /// A note reference becomes a Markdown footnote reference.
    NoteRef,
    /// A token becomes the brace form `{{EPX_ID:<id>}}`.
    TokenToBrace,
    /// A brace anchor at the start of bold text moves before it.
    BoldLift,
    /// A brace anchor that begins a heading line moves to its end, pending.
    HeadingLead,
    /// A brace anchor inside a heading becomes its `{#id}`.
    HeadingInner,
    /// A pending anchor at the end of a heading becomes its `{#id}`.
    HeadingPending,
    /// Brace anchors on the lines before a heading: the first becomes the
    /// heading's `{#id}`, the others `[]{#id}` lines.
    PreHeading,
    /// A remaining brace anchor becomes a Pandoc span `[]{#id}`.
    BraceToSpan,
    /// A run of three or more line breaks becomes two.
    Blank,
    /// A Pandoc span `[]{#id}` becomes an empty HTML anchor.
    SpanToAnchor,
}

/// Drawing elements, which keep an SVG as it is.
pub open spec fn drawing_pattern() -> Seq<char> {
    "(?i)<(?:rect|circle|path|text|line|polygon|polyline|ellipse)\\b"@
}

/// An `<image>` and its (`xlink:`) `href`.
pub open spec fn image_pattern() -> Seq<char> {
    "(?i)<image\\b[^>]*(?:xlink:)?href=\"([^\"]+)\"[^>]*/?\\s*>"@
}

/// An `alt` attribute.
pub open spec fn alt_pattern() -> Seq<char> {
    "\\balt\\s*="@
}

/// A `src` attribute.
pub open spec fn src_pattern() -> Seq<char> {
    "src=\"([^\"]+)\""@
}

/// A tag.
pub open spec fn tag_pattern() -> Seq<char> {
    "<[^>]+>"@
}

/// A brace anchor.
pub open spec fn brace_pattern() -> Seq<char> {
    "\\{\\{EPX_ID:([^}]+)\\}\\}"@
}

/// The text outside the matches of a scan.
pub open spec fn unmatched(ms: Seq<(Seq<char>, Seq<Option<Seq<char>>>)>, tail: Seq<char>) -> Seq<char>
    decreases ms.len(),
{
    if ms.len() == 0 {
        tail
    } else {
        unmatched(ms.drop_last(), Seq::<char>::empty()) + ms.last().0 + tail
    }
}

/// `s` without its tags, trimmed.
pub open spec fn stripped_tags(s: Seq<char>) -> Seq<char> {
    let sc = regex_scan_of(tag_pattern(), s);
    trimmed(unmatched(sc.0, sc.1))
}

/// The part of `s` after its last `c` (all of it when there is none).
pub open spec fn after_last(s: Seq<char>, c: char) -> Seq<char> {
    if exists|i: int| is_last_index(s, c, i) {
        s.subrange((choose|i: int| is_last_index(s, c, i)) + 1, s.len() as int)
    } else {
        s
    }
}

/// The part of `s` before its last `c` (all of it when there is none).
pub open spec fn before_last(s: Seq<char>, c: char) -> Seq<char> {
    if exists|i: int| is_last_index(s, c, i) {
        s.take(choose|i: int| is_last_index(s, c, i))
    } else {
        s
    }
}

/// `s` with `_` replaced by a space.
pub open spec fn underscores_to_spaces(s: Seq<char>) -> Seq<char> {
    s.map_values(|c: char| if c == '_' { ' ' } else { c })
}

/// Alt text for an image tag: the stem of its `src` file name with `_` as
/// spaces, or `Image` for an empty or all-digit stem.
pub open spec fn derived_alt(tag: Seq<char>) -> Seq<char> {
    let ms = regex_scan_of(src_pattern(), tag).0;
    let src = if ms.len() > 0 { group(ms[0].1, 1) } else { Seq::<char>::empty() };
    alt_of_name(before_last(after_last(after_last(src, '/'), '\\'), '.'))
}

/// Alt text for a file stem: `Image` for an empty or all-digit stem,
/// else the stem with `_` as spaces.
pub open spec fn alt_of_name(name: Seq<char>) -> Seq<char> {
    if name.len() == 0 || (forall|i: int| 0 <= i < name.len() ==> '0' <= #[trigger] name[i] <= '9') {
        "Image"@
    } else {
        underscores_to_spaces(name)
    }
}

/// The `[]{#id}` lines for the brace anchors `ms`.
pub open spec fn span_lines(ms: Seq<(Seq<char>, Seq<Option<Seq<char>>>)>) -> Seq<char>
    decreases ms.len(),
{
    if ms.len() == 0 {
        Seq::<char>::empty()
    } else {
        span_lines(ms.drop_last()) + "[]{#"@ + group(ms.last().1, 1) + "}\n"@
    }
}

/// `s` from index `n` on (empty when shorter).
pub open spec fn skip_n(s: Seq<char>, n: int) -> Seq<char> {
    if s.len() >= n {
        s.subrange(n, s.len() as int)
    } else {
        Seq::<char>::empty()
    }
}

/// What `rule` makes of a match with groups `g`, given the referenced ids.
pub open spec fn rule_out(rule: Rule, g: Seq<Option<Seq<char>>>, refs: Seq<Seq<char>>) -> Seq<char> {
    match rule {
        Rule::Drop => Seq::<char>::empty(),
        Rule::SvgUnwrap => {
            let inner = group(g, 1);
            let imgs = regex_scan_of(image_pattern(), inner).0;
            if regex_scan_of(drawing_pattern(), inner).0.len() > 0 {
                group(g, 0)
            } else if imgs.len() == 1 {
                "<img src=\""@ + group(imgs[0].1, 1) + "\" alt=\"Cover image\"/>"@
            } else {
                group(g, 0)
            }
        },
        Rule::AltFill => group(g, 1) + "alt=\""@ + derived_alt(group(g, 1)) + "\""@ + group(g, 2),
        Rule::AltInject => if regex_scan_of(alt_pattern(), group(g, 0)).0.len() > 0 {
            group(g, 0)
        } else {
            "<img alt=\""@ + derived_alt(group(g, 0)) + "\""@ + skip_n(group(g, 0), 4)
        },
        Rule::AnchorEmpty => if refs.contains(group(g, 1)) {
            anchor_token(group(g, 1))
        } else {
            Seq::<char>::empty()
        },
        Rule::AnchorId => {
            let rest = group(g, 1) + group(g, 2) + group(g, 4);
            if refs.contains(group(g, 3)) {
                anchor_token(group(g, 3)) + rest
            } else {
                rest
            }
        },
        Rule::ElementId => if group(g, 2) == "a"@ || group(g, 2) == "A"@ {
            group(g, 0)
        } else {
            let rest = group(g, 1) + group(g, 3) + group(g, 5);
            if refs.contains(group(g, 4)) {
                rest + anchor_token(group(g, 4))
            } else {
                rest
            }
        },
        Rule::Footnote => "[^"@ + group(g, 1) + "]: "@ + stripped_tags(group(g, 2)),
        Rule::NoteRef => "[^"@ + group(g, 1) + "]"@,
        Rule::TokenToBrace => "{{EPX_ID:"@ + group(g, 1) + "}}"@,
        Rule::BoldLift => if group(g, 2).len() == 0 {
            "{{EPX_ID:"@ + group(g, 1) + "}}"@
        } else {
            "{{EPX_ID:"@ + group(g, 1) + "}}**"@ + group(g, 2) + "**"@
        },
        Rule::HeadingLead => group(g, 2) + "<<PENDING:"@ + group(g, 1) + ">>"@,
        Rule::HeadingInner => group(g, 1) + trimmed(group(g, 2) + group(g, 4)) + " {#"@ + group(g, 3) + "}"@,
        Rule::HeadingPending => group(g, 1) + " {#"@ + group(g, 2) + "}"@,
        Rule::PreHeading => {
            let ids = regex_scan_of(brace_pattern(), group(g, 1)).0;
            if ids.len() == 0 {
                group(g, 0)
            } else {
                span_lines(ids.drop_first()) + group(g, 2) + " {#"@ + group(ids[0].1, 1) + "}"@
            }
        },
        Rule::BraceToSpan => "[]{#"@ + group(g, 1) + "}"@,
        Rule::Blank => "\n\n"@,
        Rule::SpanToAnchor => "<a id=\""@ + group(g, 1) + "\"></a>"@,
    }
}

/// The anchor steps bring in a token only for a referenced id: an empty
/// anchor becomes its token exactly when its id is referenced (else
/// nothing), and an element with an id keeps its tag, without the id, with
/// the token added exactly when the id is referenced.
pub proof fn lemma_tokens_only_for_referenced(g: Seq<Option<Seq<char>>>, refs: Seq<Seq<char>>)
    ensures
        rule_out(Rule::AnchorEmpty, g, refs) == (if refs.contains(group(g, 1)) {
            anchor_token(group(g, 1))
        } else {
            Seq::<char>::empty()
        }),
        rule_out(Rule::AnchorId, g, refs) == (if refs.contains(group(g, 3)) {
            anchor_token(group(g, 3))
        } else {
            Seq::<char>::empty()
        }) + group(g, 1) + group(g, 2) + group(g, 4),
        !(group(g, 2) == "a"@ || group(g, 2) == "A"@) ==> rule_out(Rule::ElementId, g, refs) == group(g, 1)
            + group(g, 3) + group(g, 5) + (if refs.contains(group(g, 4)) {
            anchor_token(group(g, 4))
        } else {
            Seq::<char>::empty()
        }),
        refs.len() == 0 ==> rule_out(Rule::AnchorEmpty, g, refs) == Seq::<char>::empty(),
{
    let rest = group(g, 1) + group(g, 2) + group(g, 4);
    if !refs.contains(group(g, 3)) {
        assert(Seq::<char>::empty() + group(g, 1) + group(g, 2) + group(g, 4) =~= rest);
    }
    if !(group(g, 2) == "a"@ || group(g, 2) == "A"@) && !refs.contains(group(g, 4)) {
        let r2 = group(g, 1) + group(g, 3) + group(g, 5);
        assert(r2 + Seq::<char>::empty() =~= r2);
    }
}

/// The text of a scan with each match rewritten by `rule`.
pub open spec fn rewritten(
    ms: Seq<(Seq<char>, Seq<Option<Seq<char>>>)>,
    tail: Seq<char>,
    rule: Rule,
    refs: Seq<Seq<char>>,
) -> Seq<char>
    decreases ms.len(),
{
    if ms.len() == 0 {
        tail
    } else {
        rewritten(ms.drop_last(), Seq::<char>::empty(), rule, refs) + ms.last().0 + rule_out(rule, ms.last().1, refs)
            + tail
    }
}

/// `text` with every match of `pattern` rewritten by `rule`.
pub open spec fn apply_spec(pattern: Seq<char>, text: Seq<char>, rule: Rule, refs: Seq<Seq<char>>) -> Seq<char> {
    let sc = regex_scan_of(pattern, text);
    rewritten(sc.0, sc.1, rule, refs)
}

/// Group `i` of a match, as characters.
fn group_chars(g: &Vec<Option<String>>, i: usize) -> (r: Vec<char>)
    ensures
        r@ == group(group_views(g@), i as int),
{
    if i < g.len() {
        match &g[i] {
            Some(s) => chars_of(s.as_str()),
            None => Vec::new(),
        }
    } else {
        Vec::new()
    }
}

/// Group `i` of a match, as a string.
pub fn group_string(g: &Vec<Option<String>>, i: usize) -> (r: String)
    ensures
        r@ == group(group_views(g@), i as int),
{
    string_of(&group_chars(g, i))
}

/// Whether `refs` holds `id`.
fn is_referenced(refs: &Vec<String>, id: &Vec<char>) -> (r: bool)
    ensures
        r == str_views(refs@).contains(id@),
{
    let mut i: usize = 0;
    while i < refs.len()
        invariant
            i <= refs@.len(),
            forall|j: int| 0 <= j < i ==> refs@[j]@ != id@,
        decreases refs.len() - i,
    {
        let r = chars_of(refs[i].as_str());
        if seq_eq(&r, id) {
            proof {
                assert(str_views(refs@)[i as int] == id@);
            }
            return true;
        }
        i = i + 1;
    }
    proof {
        if str_views(refs@).contains(id@) {
            let j = choose|j: int| 0 <= j < str_views(refs@).len() && str_views(refs@)[j] == id@;
            assert(refs@[j]@ == id@);
        }
    }
    false
}

/// The text outside the matches of a scan.
fn unmatched_text(sc: &Scan) -> (r: Vec<char>)
    ensures
        r@ == unmatched(match_views(sc.matches@), sc.tail@),
{
    let ghost ms = match_views(sc.matches@);
    let mut out: Vec<char> = Vec::new();
    let mut i: usize = 0;
    proof {
        assert(ms.take(0) =~= Seq::<(Seq<char>, Seq<Option<Seq<char>>>)>::empty());
    }
    while i < sc.matches.len()
        invariant
            i <= sc.matches@.len(),
            ms == match_views(sc.matches@),
            out@ == unmatched(ms.take(i as int), Seq::<char>::empty()),
        decreases sc.matches.len() - i,
    {
        let b = chars_of(sc.matches[i].before.as_str());
        append_chars(&mut out, &b);
        i = i + 1;
        proof {
            let t = ms.take(i as int);
            assert(t.drop_last() =~= ms.take(i - 1));
            assert(out@ =~= unmatched(t, Seq::<char>::empty()));
        }
    }
    let t = chars_of(sc.tail.as_str());
    proof {
        assert(ms.take(i as int) =~= ms);
        lemma_unmatched_tail(ms, t@);
    }
    append_chars(&mut out, &t);
    out
}

/// The tail goes at the end.
proof fn lemma_unmatched_tail(ms: Seq<(Seq<char>, Seq<Option<Seq<char>>>)>, tail: Seq<char>)
    ensures
        unmatched(ms, tail) == unmatched(ms, Seq::<char>::empty()) + tail,
{
    if ms.len() > 0 {
        assert(unmatched(ms, tail) =~= unmatched(ms, Seq::<char>::empty()) + tail);
    } else {
        assert(unmatched(ms, tail) =~= unmatched(ms, Seq::<char>::empty()) + tail);
    }
}

/// `s` without its tags, trimmed.
pub fn strip_html_tags(s: &str) -> (r: String)
    ensures
        r@ == stripped_tags(s@),
{
    let sc = regex_scan(
        "<[^>]+>",
        s,
    );
    let u = unmatched_text(&sc);
    let t = trim(&u);
    string_of(&t)
}

/// The part of `s` after its last `c`.
fn after_last_of(s: &Vec<char>, c: char) -> (r: Vec<char>)
    ensures
        r@ == after_last(s@, c),
{
    match rfind_char(s, c) {
        Some(i) => {
            proof {
                assert forall|j: int| is_last_index(s@, c, j) implies j == i by {}
            }
            let n = s.len();
            assert(i < n);
            slice(s, i + 1, n)
        },
        None => s.clone(),
    }
}

/// The part of `s` before its last `c`.
fn before_last_of(s: &Vec<char>, c: char) -> (r: Vec<char>)
    ensures
        r@ == before_last(s@, c),
{
    match rfind_char(s, c) {
        Some(i) => {
            proof {
                assert forall|j: int| is_last_index(s@, c, j) implies j == i by {}
            }
            slice(s, 0, i)
        },
        None => s.clone(),
    }
}

/// Alt text derived from an image tag.
fn derive_alt_chars(tag: &Vec<char>) -> (r: Vec<char>)
    ensures
        r@ == derived_alt(tag@),
{
    let ts = string_of(tag);
    let sc = regex_scan("src=\"([^\"]+)\"", ts.as_str());
    let src: Vec<char> = if sc.matches.len() > 0 {
        group_chars(&sc.matches[0].groups, 1)
    } else {
        Vec::new()
    };
    proof {
        assert(match_views(sc.matches@).len() == sc.matches@.len());
        if sc.matches@.len() > 0 {
            assert(match_views(sc.matches@)[0].1 == group_views(sc.matches@[0].groups@));
        }
    }
    let a = after_last_of(&src, '/');
    let b = after_last_of(&a, '\\');
    let name = before_last_of(&b, '.');
    let ghost ms = regex_scan_of(src_pattern(), tag@).0;
    assert(src@ == (if ms.len() > 0 { group(ms[0].1, 1) } else { Seq::<char>::empty() }));
    assert(name@ == before_last(after_last(after_last(src@, '/'), '\\'), '.'));
    assert(derived_alt(tag@) == alt_of_name(name@));
    let mut all_digits = true;
    let mut i: usize = 0;
    while i < name.len()
        invariant
            i <= name@.len(),
            all_digits == forall|j: int| 0 <= j < i ==> '0' <= #[trigger] name@[j] <= '9',
            derived_alt(tag@) == alt_of_name(name@),
        decreases name.len() - i,
    {
        if name[i] < '0' || name[i] > '9' {
            all_digits = false;
        }
        i = i + 1;
    }
    if name.len() == 0 || all_digits {
        let r = chars_of("Image");
        assert(r@ == derived_alt(tag@));
        r
    } else {
        let mut out: Vec<char> = Vec::new();
        let mut k: usize = 0;
        while k < name.len()
            invariant
                k <= name@.len(),
                out@ == underscores_to_spaces(name@.take(k as int)),
                derived_alt(tag@) == alt_of_name(name@),
                !(name@.len() == 0 || (forall|i: int| 0 <= i < name@.len() ==> '0' <= #[trigger] name@[i] <= '9')),
            decreases name.len() - k,
        {
            out.push(if name[k] == '_' { ' ' } else { name[k] });
            k = k + 1;
            proof {
                assert(out@ =~= underscores_to_spaces(name@.take(k as int)));
            }
        }
        proof {
            assert(name@.take(k as int) =~= name@);
        }
        out
    }
}

/// Alt text derived from an image tag: the stem of its `src` file name,
/// `_` read as spaces, or `Image` for an empty or all-digit stem.
pub fn derive_alt_from_tag(tag: &str) -> (r: String)
    ensures
        r@ == derived_alt(tag@),
{
    let t = chars_of(tag);
    string_of(&derive_alt_chars(&t))
}

/// The `[]{#id}` lines for brace anchors `ms[1..]`.
fn span_lines_from(ms: &Vec<Match>) -> (r: Vec<char>)
    requires
        ms@.len() > 0,
    ensures
        r@ == span_lines(match_views(ms@).drop_first()),
{
    let ghost mv = match_views(ms@).drop_first();
    let mut out: Vec<char> = Vec::new();
    let mut i: usize = 1;
    proof {
        assert(mv.take(0) =~= Seq::<(Seq<char>, Seq<Option<Seq<char>>>)>::empty());
    }
    while i < ms.len()
        invariant
            1 <= i <= ms@.len(),
            mv == match_views(ms@).drop_first(),
            out@ == span_lines(mv.take(i - 1)),
        decreases ms.len() - i,
    {
        push_str(&mut out, "[]{#");
        let id = group_chars(&ms[i].groups, 1);
        append_chars(&mut out, &id);
        push_str(&mut out, "}\n");
        i = i + 1;
        proof {
            let t = mv.take(i - 1);
            assert(t.drop_last() =~= mv.take(i - 2));
            assert(t.last() == match_views(ms@)[i - 1]);
            assert(out@ =~= span_lines(t));
        }
    }
    proof {
        assert(mv.take(i - 1) =~= mv);
    }
    out
}

/// The rewriting of one match by `Rule::Drop`.
fn rule_drop(g: &Vec<Option<String>>, refs: &Vec<String>) -> (r: Vec<char>)
    ensures
        r@ == rule_out(Rule::Drop, group_views(g@), str_views(refs@)),
{
    let out: Vec<char> = Vec::new();
    proof {
        assert(out@ =~= rule_out(Rule::Drop, group_views(g@), str_views(refs@)));
    }
    out
}

/// The rewriting of one match by `Rule::SvgUnwrap`.
fn rule_svg_unwrap(g: &Vec<Option<String>>, refs: &Vec<String>) -> (r: Vec<char>)
    ensures
        r@ == rule_out(Rule::SvgUnwrap, group_views(g@), str_views(refs@)),
{
    let mut out: Vec<char> = Vec::new();
    let inner = string_of(&group_chars(g, 1));
    let drawing = regex_scan("(?i)<(?:rect|circle|path|text|line|polygon|polyline|ellipse)\\b", inner.as_str());
    let imgs = regex_scan("(?i)<image\\b[^>]*(?:xlink:)?href=\"([^\"]+)\"[^>]*/?\\s*>", inner.as_str());
    proof {
        assert(match_views(drawing.matches@).len() == drawing.matches@.len());
        assert(match_views(imgs.matches@).len() == imgs.matches@.len());
    }
    if drawing.matches.len() > 0 {
        out = group_chars(g, 0);
    } else if imgs.matches.len() == 1 {
        proof {
            assert(match_views(imgs.matches@)[0].1 == group_views(imgs.matches@[0].groups@));
        }
        push_str(&mut out, "<img src=\"");
        let h = group_chars(&imgs.matches[0].groups, 1);
        append_chars(&mut out, &h);
        push_str(&mut out, "\" alt=\"Cover image\"/>");
    } else {
        out = group_chars(g, 0);
    }
    proof {
        assert(out@ =~= rule_out(Rule::SvgUnwrap, group_views(g@), str_views(refs@)));
    }
    out
}

/// The rewriting of one match by `Rule::AltFill`.
fn rule_alt_fill(g: &Vec<Option<String>>, refs: &Vec<String>) -> (r: Vec<char>)
    ensures
        r@ == rule_out(Rule::AltFill, group_views(g@), str_views(refs@)),
{
    let mut out: Vec<char> = Vec::new();
    let before = group_chars(g, 1);
    let alt = derive_alt_chars(&before);
    out = before;
    push_str(&mut out, "alt=\"");
    append_chars(&mut out, &alt);
    push_str(&mut out, "\"");
    let after = group_chars(g, 2);
    append_chars(&mut out, &after);
    proof {
        assert(out@ =~= rule_out(Rule::AltFill, group_views(g@), str_views(refs@)));
    }
    out
}

/// The rewriting of one match by `Rule::AltInject`.
fn rule_alt_inject(g: &Vec<Option<String>>, refs: &Vec<String>) -> (r: Vec<char>)
    ensures
        r@ == rule_out(Rule::AltInject, group_views(g@), str_views(refs@)),
{
    let mut out: Vec<char> = Vec::new();
    let tag = group_chars(g, 0);
    let ts = string_of(&tag);
    let has = regex_scan("\\balt\\s*=", ts.as_str());
    proof {
        assert(match_views(has.matches@).len() == has.matches@.len());
    }
    if has.matches.len() > 0 {
        out = tag;
    } else {
        let alt = derive_alt_chars(&tag);
        push_str(&mut out, "<img alt=\"");
        append_chars(&mut out, &alt);
        push_str(&mut out, "\"");
        let rest = if tag.len() >= 4 { slice(&tag, 4, tag.len()) } else { Vec::new() };
        append_chars(&mut out, &rest);
    }
    proof {
        assert(out@ =~= rule_out(Rule::AltInject, group_views(g@), str_views(refs@)));
    }
    out
}

/// The rewriting of one match by `Rule::AnchorEmpty`.
fn rule_anchor_empty(g: &Vec<Option<String>>, refs: &Vec<String>) -> (r: Vec<char>)
    ensures
        r@ == rule_out(Rule::AnchorEmpty, group_views(g@), str_views(refs@)),
{
    let mut out: Vec<char> = Vec::new();
    let id = group_chars(g, 1);
    if is_referenced(refs, &id) {
        push_str(&mut out, "EPXANCHOR__");
        append_chars(&mut out, &id);
        push_str(&mut out, "__ENDEPX");
    }
    proof {
        assert(out@ =~= rule_out(Rule::AnchorEmpty, group_views(g@), str_views(refs@)));
    }
    out
}

/// The rewriting of one match by `Rule::AnchorId`.
fn rule_anchor_id(g: &Vec<Option<String>>, refs: &Vec<String>) -> (r: Vec<char>)
    ensures
        r@ == rule_out(Rule::AnchorId, group_views(g@), str_views(refs@)),
{
    let mut out: Vec<char> = Vec::new();
    let id = group_chars(g, 3);
    if is_referenced(refs, &id) {
        push_str(&mut out, "EPXANCHOR__");
        append_chars(&mut out, &id);
        push_str(&mut out, "__ENDEPX");
    }
    let ghost pre = out@;
    append_chars(&mut out, &group_chars(g, 1));
    append_chars(&mut out, &group_chars(g, 2));
    append_chars(&mut out, &group_chars(g, 4));
    proof {
        assert(out@ =~= rule_out(Rule::AnchorId, group_views(g@), str_views(refs@)));
    }
    out
}

/// The rewriting of one match by `Rule::ElementId`.
fn rule_element_id(g: &Vec<Option<String>>, refs: &Vec<String>) -> (r: Vec<char>)
    ensures
        r@ == rule_out(Rule::ElementId, group_views(g@), str_views(refs@)),
{
    let mut out: Vec<char> = Vec::new();
    let name = group_chars(g, 2);
    if seq_eq(&name, &chars_of("a")) || seq_eq(&name, &chars_of("A")) {
        out = group_chars(g, 0);
    } else {
        append_chars(&mut out, &group_chars(g, 1));
        append_chars(&mut out, &group_chars(g, 3));
        append_chars(&mut out, &group_chars(g, 5));
        let id = group_chars(g, 4);
        if is_referenced(refs, &id) {
            push_str(&mut out, "EPXANCHOR__");
            append_chars(&mut out, &id);
            push_str(&mut out, "__ENDEPX");
        }
    }
    proof {
        assert(out@ =~= rule_out(Rule::ElementId, group_views(g@), str_views(refs@)));
    }
    out
}

/// The rewriting of one match by `Rule::Footnote`.
fn rule_footnote(g: &Vec<Option<String>>, refs: &Vec<String>) -> (r: Vec<char>)
    ensures
        r@ == rule_out(Rule::Footnote, group_views(g@), str_views(refs@)),
{
    let mut out: Vec<char> = Vec::new();
    push_str(&mut out, "[^");
    append_chars(&mut out, &group_chars(g, 1));
    push_str(&mut out, "]: ");
    let body = string_of(&group_chars(g, 2));
    let text = strip_html_tags(body.as_str());
    push_str(&mut out, text.as_str());
    proof {
        assert(out@ =~= rule_out(Rule::Footnote, group_views(g@), str_views(refs@)));
    }
    out
}

/// The rewriting of one match by `Rule::NoteRef`.
fn rule_note_ref(g: &Vec<Option<String>>, refs: &Vec<String>) -> (r: Vec<char>)
    ensures
        r@ == rule_out(Rule::NoteRef, group_views(g@), str_views(refs@)),
{
    let mut out: Vec<char> = Vec::new();
    push_str(&mut out, "[^");
    append_chars(&mut out, &group_chars(g, 1));
    push_str(&mut out, "]");
    proof {
        assert(out@ =~= rule_out(Rule::NoteRef, group_views(g@), str_views(refs@)));
    }
    out
}

/// The rewriting of one match by `Rule::TokenToBrace`.
fn rule_token_to_brace(g: &Vec<Option<String>>, refs: &Vec<String>) -> (r: Vec<char>)
    ensures
        r@ == rule_out(Rule::TokenToBrace, group_views(g@), str_views(refs@)),
{
    let mut out: Vec<char> = Vec::new();
    push_str(&mut out, "{{EPX_ID:");
    append_chars(&mut out, &group_chars(g, 1));
    push_str(&mut out, "}}");
    proof {
        assert(out@ =~= rule_out(Rule::TokenToBrace, group_views(g@), str_views(refs@)));
    }
    out
}

/// The rewriting of one match by `Rule::BoldLift`.
fn rule_bold_lift(g: &Vec<Option<String>>, refs: &Vec<String>) -> (r: Vec<char>)
    ensures
        r@ == rule_out(Rule::BoldLift, group_views(g@), str_views(refs@)),
{
    let mut out: Vec<char> = Vec::new();
    push_str(&mut out, "{{EPX_ID:");
    append_chars(&mut out, &group_chars(g, 1));
    let text = group_chars(g, 2);
    if text.len() > 0 {
        push_str(&mut out, "}}**");
        append_chars(&mut out, &text);
        push_str(&mut out, "**");
    } else {
        push_str(&mut out, "}}");
    }
    proof {
        assert(out@ =~= rule_out(Rule::BoldLift, group_views(g@), str_views(refs@)));
    }
    out
}

/// The rewriting of one match by `Rule::HeadingLead`.
fn rule_heading_lead(g: &Vec<Option<String>>, refs: &Vec<String>) -> (r: Vec<char>)
    ensures
        r@ == rule_out(Rule::HeadingLead, group_views(g@), str_views(refs@)),
{
    let mut out: Vec<char> = Vec::new();
    append_chars(&mut out, &group_chars(g, 2));
    push_str(&mut out, "<<PENDING:");
    append_chars(&mut out, &group_chars(g, 1));
    push_str(&mut out, ">>");
    proof {
        assert(out@ =~= rule_out(Rule::HeadingLead, group_views(g@), str_views(refs@)));
    }
    out
}

/// The rewriting of one match by `Rule::HeadingInner`.
fn rule_heading_inner(g: &Vec<Option<String>>, refs: &Vec<String>) -> (r: Vec<char>)
    ensures
        r@ == rule_out(Rule::HeadingInner, group_views(g@), str_views(refs@)),
{
    let mut out: Vec<char> = Vec::new();
    append_chars(&mut out, &group_chars(g, 1));
    let mut both = group_chars(g, 2);
    append_chars(&mut both, &group_chars(g, 4));
    append_chars(&mut out, &trim(&both));
    push_str(&mut out, " {#");
    append_chars(&mut out, &group_chars(g, 3));
    push_str(&mut out, "}");
    proof {
        assert(out@ =~= rule_out(Rule::HeadingInner, group_views(g@), str_views(refs@)));
    }
    out
}

/// The rewriting of one match by `Rule::HeadingPending`.
fn rule_heading_pending(g: &Vec<Option<String>>, refs: &Vec<String>) -> (r: Vec<char>)
    ensures
        r@ == rule_out(Rule::HeadingPending, group_views(g@), str_views(refs@)),
{
    let mut out: Vec<char> = Vec::new();
    append_chars(&mut out, &group_chars(g, 1));
    push_str(&mut out, " {#");
    append_chars(&mut out, &group_chars(g, 2));
    push_str(&mut out, "}");
    proof {
        assert(out@ =~= rule_out(Rule::HeadingPending, group_views(g@), str_views(refs@)));
    }
    out
}

/// The rewriting of one match by `Rule::PreHeading`.
fn rule_pre_heading(g: &Vec<Option<String>>, refs: &Vec<String>) -> (r: Vec<char>)
    ensures
        r@ == rule_out(Rule::PreHeading, group_views(g@), str_views(refs@)),
{
    let mut out: Vec<char> = Vec::new();
    let block = string_of(&group_chars(g, 1));
    let ids = regex_scan("\\{\\{EPX_ID:([^}]+)\\}\\}", block.as_str());
    proof {
        assert(match_views(ids.matches@).len() == ids.matches@.len());
    }
    if ids.matches.len() == 0 {
        out = group_chars(g, 0);
    } else {
        proof {
            assert(match_views(ids.matches@)[0].1 == group_views(ids.matches@[0].groups@));
        }
        out = span_lines_from(&ids.matches);
        append_chars(&mut out, &group_chars(g, 2));
        push_str(&mut out, " {#");
        append_chars(&mut out, &group_chars(&ids.matches[0].groups, 1));
        push_str(&mut out, "}");
    }
    proof {
        assert(out@ =~= rule_out(Rule::PreHeading, group_views(g@), str_views(refs@)));
    }
    out
}

/// The rewriting of one match by `Rule::BraceToSpan`.
fn rule_brace_to_span(g: &Vec<Option<String>>, refs: &Vec<String>) -> (r: Vec<char>)
    ensures
        r@ == rule_out(Rule::BraceToSpan, group_views(g@), str_views(refs@)),
{
    let mut out: Vec<char> = Vec::new();
    push_str(&mut out, "[]{#");
    append_chars(&mut out, &group_chars(g, 1));
    push_str(&mut out, "}");
    proof {
        assert(out@ =~= rule_out(Rule::BraceToSpan, group_views(g@), str_views(refs@)));
    }
    out
}

/// The rewriting of one match by `Rule::Blank`.
fn rule_blank(g: &Vec<Option<String>>, refs: &Vec<String>) -> (r: Vec<char>)
    ensures
        r@ == rule_out(Rule::Blank, group_views(g@), str_views(refs@)),
{
    let mut out: Vec<char> = Vec::new();
    push_str(&mut out, "\n\n");
    proof {
        assert(out@ =~= rule_out(Rule::Blank, group_views(g@), str_views(refs@)));
    }
    out
}

/// The rewriting of one match by `Rule::SpanToAnchor`.
fn rule_span_to_anchor(g: &Vec<Option<String>>, refs: &Vec<String>) -> (r: Vec<char>)
    ensures
        r@ == rule_out(Rule::SpanToAnchor, group_views(g@), str_views(refs@)),
{
    let mut out: Vec<char> = Vec::new();
    push_str(&mut out, "<a id=\"");
    append_chars(&mut out, &group_chars(g, 1));
    push_str(&mut out, "\"></a>");
    proof {
        assert(out@ =~= rule_out(Rule::SpanToAnchor, group_views(g@), str_views(refs@)));
    }
    out
}

/// What `rule` makes of a match with groups `g`.
fn apply_rule(rule: Rule, g: &Vec<Option<String>>, refs: &Vec<String>) -> (r: Vec<char>)
    ensures
        r@ == rule_out(rule, group_views(g@), str_views(refs@)),
{
    match rule {
        Rule::Drop => rule_drop(g, refs),
        Rule::SvgUnwrap => rule_svg_unwrap(g, refs),
        Rule::AltFill => rule_alt_fill(g, refs),
        Rule::AltInject => rule_alt_inject(g, refs),
        Rule::AnchorEmpty => rule_anchor_empty(g, refs),
        Rule::AnchorId => rule_anchor_id(g, refs),
        Rule::ElementId => rule_element_id(g, refs),
        Rule::Footnote => rule_footnote(g, refs),
        Rule::NoteRef => rule_note_ref(g, refs),
        Rule::TokenToBrace => rule_token_to_brace(g, refs),
        Rule::BoldLift => rule_bold_lift(g, refs),
        Rule::HeadingLead => rule_heading_lead(g, refs),
        Rule::HeadingInner => rule_heading_inner(g, refs),
        Rule::HeadingPending => rule_heading_pending(g, refs),
        Rule::PreHeading => rule_pre_heading(g, refs),
        Rule::BraceToSpan => rule_brace_to_span(g, refs),
        Rule::Blank => rule_blank(g, refs),
        Rule::SpanToAnchor => rule_span_to_anchor(g, refs),
    }
}

/// `text` with every match of `pattern` rewritten by `rule`.
pub fn apply(pattern: &str, text: &str, rule: Rule, refs: &Vec<String>) -> (r: String)
    ensures
        r@ == apply_spec(pattern@, text@, rule, str_views(refs@)),
{
    let sc = regex_scan(pattern, text);
    let ghost ms = match_views(sc.matches@);
    let ghost rv = str_views(refs@);
    let mut out: Vec<char> = Vec::new();
    let mut i: usize = 0;
    proof {
        assert(ms.take(0) =~= Seq::<(Seq<char>, Seq<Option<Seq<char>>>)>::empty());
    }
    while i < sc.matches.len()
        invariant
            i <= sc.matches@.len(),
            ms == match_views(sc.matches@),
            rv == str_views(refs@),
            out@ == rewritten(ms.take(i as int), Seq::<char>::empty(), rule, rv),
        decreases sc.matches.len() - i,
    {
        let m = &sc.matches[i];
        let b = chars_of(m.before.as_str());
        append_chars(&mut out, &b);
        let x = apply_rule(rule, &m.groups, refs);
        append_chars(&mut out, &x);
        i = i + 1;
        proof {
            let t = ms.take(i as int);
            assert(t.drop_last() =~= ms.take(i - 1));
            assert(t.last() == (m.before@, group_views(m.groups@)));
            assert(out@ =~= rewritten(t, Seq::<char>::empty(), rule, rv));
        }
    }
    let t = chars_of(sc.tail.as_str());
    append_chars(&mut out, &t);
    proof {
        assert(ms.take(i as int) =~= ms);
        if ms.len() > 0 {
            assert(out@ =~= rewritten(ms, sc.tail@, rule, rv));
        } else {
            assert(out@ =~= rewritten(ms, sc.tail@, rule, rv));
        }
    }
    string_of(&out)
}

/// `<head>` elements.
pub const HEAD_PATTERN: &'static str = "(?is)<head[^>]*>.*?</head>";
/// SVG elements and their content.
pub const SVG_PATTERN: &'static str = "(?is)<svg\\b[^>]*>(.*?)</svg>";
/// Images with an empty `alt`.
pub const EMPTY_ALT_PATTERN: &'static str = "(<img\\b[^>]*)\\balt\\s*=\\s*\"\"([^>]*>)";
/// Image tags.
pub const IMG_PATTERN: &'static str = "<img\\b[^>]*>";
/// Empty anchors with an id.
pub const EMPTY_ANCHOR_PATTERN: &'static str = "<a\\s[^>]*id=\"([^\"]+)\"[^>]*>\\s*</a>";
/// Opening `<a>` tags with an id.
pub const ANCHOR_ID_PATTERN: &'static str = "(<a\\b)([^>]*?)\\sid=\"([^\"]+)\"([^>]*>)";
/// Opening tags with an id.
pub const ELEMENT_ID_PATTERN: &'static str = "(<(\\w+)\\b)([^>]*?)\\sid=\"([^\"]+)\"([^>]*>)";
/// Footnote asides.
pub const FOOTNOTE_PATTERN: &'static str = "<aside[^>]*data-epub-type=\"footnote\"[^>]*id=\"([^\"]*)\"[^>]*>(.*?)</aside>";
/// Note references.
pub const NOTEREF_PATTERN: &'static str = "<a[^>]*data-epub-type=\"noteref\"[^>]*href=\"#([^\"]*)\"[^>]*>[^<]*</a>";
/// Anchor tokens.
pub const TOKEN_PATTERN: &'static str = "EPXANCHOR__(.+?)__ENDEPX";
/// Brace anchors at the start of bold text.
pub const BOLD_PATTERN: &'static str = "\\*\\*\\{\\{EPX_ID:([^}]+)\\}\\}([^*]*)\\*\\*";
/// Heading lines that begin with a brace anchor.
pub const HEADING_LEAD_PATTERN: &'static str = "(?m)^(\\{\\{EPX_ID:[^}]+\\}\\})(#{1,6}\\s+.+)$";
/// Heading lines that hold a brace anchor.
pub const HEADING_INNER_PATTERN: &'static str = "(?m)^(#{1,6}\\s+)(.*?)\\{\\{EPX_ID:([^}]+)\\}\\}(.*)$";
/// Heading lines that end with a pending anchor.
pub const PENDING_PATTERN: &'static str = "(?m)^(#{1,6}\\s+.+?)<<PENDING:\\{\\{EPX_ID:([^}]+)\\}\\}>>$";
/// Brace anchors on the lines before a heading.
pub const PRE_HEADING_PATTERN: &'static str = "(?m)((?:\\{\\{EPX_ID:[^}]+\\}\\}\\s*)+)\\n\\n(#{1,6}\\s+.+)$";
/// Brace anchors.
pub const BRACE_PATTERN: &'static str = "\\{\\{EPX_ID:([^}]+)\\}\\}";
/// Runs of three or more line breaks.
pub const BLANK_PATTERN: &'static str = "\\n{3,}";

/// `s` with every occurrence of `pat` (scanning left to right, without
/// overlaps) replaced by `rep`; unchanged for an empty `pat`.
pub open spec fn replaced(s: Seq<char>, pat: Seq<char>, rep: Seq<char>) -> Seq<char>
    decreases s.len(),
{
    if pat.len() == 0 || s.len() < pat.len() {
        s
    } else if s.take(pat.len() as int) == pat {
        rep + replaced(s.skip(pat.len() as int), pat, rep)
    } else {
        seq![s[0]] + replaced(s.skip(1), pat, rep)
    }
}

/// Replaces every occurrence of `pat` in `s` by `rep`.
pub fn replace_all(s: &Vec<char>, pat: &Vec<char>, rep: &Vec<char>) -> (r: Vec<char>)
    ensures
        r@ == replaced(s@, pat@, rep@),
{
    if pat.len() == 0 {
        return s.clone();
    }
    let mut out: Vec<char> = Vec::new();
    let mut i: usize = 0;
    proof {
        assert(s@.skip(0) =~= s@);
    }
    while i < s.len()
        invariant
            i <= s@.len(),
            pat@.len() > 0,
            replaced(s@, pat@, rep@) == out@ + replaced(s@.skip(i as int), pat@, rep@),
        decreases s.len() - i,
    {
        let ghost rest = s@.skip(i as int);
        if pat.len() <= s.len() - i && crate::text::matches_at(s, pat, i) {
            proof {
                assert(rest.take(pat@.len() as int) =~= s@.subrange(i as int, i + pat@.len()));
                assert(rest.skip(pat@.len() as int) =~= s@.skip(i + pat@.len()));
            }
            append_chars(&mut out, rep);
            i = i + pat.len();
            proof {
                assert(replaced(s@, pat@, rep@) =~= out@ + replaced(s@.skip(i as int), pat@, rep@));
            }
        } else {
            proof {
                if rest.len() >= pat@.len() {
                    assert(rest.take(pat@.len() as int) =~= s@.subrange(i as int, i + pat@.len()));
                }
                assert(rest.skip(1) =~= s@.skip(i + 1));
                assert(rest[0] == s@[i as int]);
            }
            out.push(s[i]);
            i = i + 1;
            proof {
                assert(replaced(s@, pat@, rep@) =~= out@ + replaced(s@.skip(i as int), pat@, rep@));
            }
        }
    }
    proof {
        assert(s@.skip(i as int) =~= Seq::<char>::empty());
        assert(out@ =~= out@ + Seq::<char>::empty());
    }
    out
}

/// `s` without a leading XML declaration.
pub open spec fn without_xml_decl(s: Seq<char>) -> Seq<char> {
    if is_prefix("<?xml"@, s) && exists|i: int| crate::text::occurs_at(s, "?>"@, i) {
        let i = choose|i: int| crate::text::occurs_at(s, "?>"@, i)
            && forall|j: int| 0 <= j < i ==> !crate::text::occurs_at(s, "?>"@, j);
        s.skip(i + 2)
    } else {
        s
    }
}

/// Removes a leading XML declaration.
fn strip_xml_decl(s: &Vec<char>) -> (r: Vec<char>)
    ensures
        r@ == without_xml_decl(s@),
{
    let decl = chars_of("<?xml");
    let close = chars_of("?>");
    if crate::text::starts_with(s, &decl) {
        match crate::text::find_from(s, &close, 0) {
            Some(i) => {
                proof {
                    let c = choose|c: int| crate::text::occurs_at(s@, "?>"@, c)
                        && forall|j: int| 0 <= j < c ==> !crate::text::occurs_at(s@, "?>"@, j);
                    if c < i {
                    } else if c > i {
                    }
                    assert(c == i);
                    reveal_strlit("?>");
                }
                let n = s.len();
                let r = slice(s, i + close.len(), n);
                proof {
                    assert(r@ =~= s@.skip(i + 2));
                }
                return r;
            },
            None => {},
        }
    }
    s.clone()
}

/// The placeholder for the path with sort position `i`.
pub open spec fn placeholder(i: nat) -> Seq<char> {
    seq!['\0'] + "EPX_PATH_"@ + decimal(i) + seq!['\0']
}

/// The placeholder for sort position `i`.
fn placeholder_of(i: usize) -> (r: Vec<char>)
    ensures
        r@ == placeholder(i as nat),
{
    let mut v: Vec<char> = Vec::new();
    v.push('\0');
    push_str(&mut v, "EPX_PATH_");
    push_decimal(&mut v, i as u64);
    v.push('\0');
    proof {
        assert(v@ =~= placeholder(i as nat));
    }
    v
}

/// `order` lists every entry once, longest key first.
pub open spec fn is_length_order(es: Seq<(String, String)>, order: Seq<usize>) -> bool {
    &&& order.len() == es.len()
    &&& forall|i: int| 0 <= i < order.len() ==> #[trigger] order[i] < es.len()
    &&& forall|i: int, j: int| 0 <= i < j < order.len() ==> #[trigger] order[i] != #[trigger] order[j]
    &&& forall|i: int| 0 <= i < order.len() - 1 ==> es[#[trigger] order[i] as int].0@.len() >= es[order[i + 1] as int].0@.len()
}

/// The first phase: each key, longest first, replaced by its placeholder.
pub open spec fn to_placeholders(s: Seq<char>, es: Seq<(String, String)>, order: Seq<usize>) -> Seq<char>
    decreases order.len(),
{
    if order.len() == 0 {
        s
    } else {
        replaced(to_placeholders(s, es, order.drop_last()), es[order.last() as int].0@, placeholder((order.len() - 1) as nat))
    }
}

/// The second phase: each placeholder replaced by its new path.
pub open spec fn from_placeholders(s: Seq<char>, es: Seq<(String, String)>, order: Seq<usize>) -> Seq<char>
    decreases order.len(),
{
    if order.len() == 0 {
        s
    } else {
        replaced(from_placeholders(s, es, order.drop_last()), placeholder((order.len() - 1) as nat), es[order.last() as int].1@)
    }
}

/// The entry indices, longest key first (ties in map order).
fn length_order(es: &Vec<(String, String)>) -> (r: Vec<usize>)
    ensures
        is_length_order(es@, r@),
{
    let n = es.len();
    let mut lens: Vec<usize> = Vec::new();
    let mut i: usize = 0;
    while i < n
        invariant
            n == es@.len(),
            i <= n,
            lens@.len() == i,
            forall|j: int| 0 <= j < i ==> #[trigger] lens@[j] == es@[j].0@.len(),
        decreases n - i,
    {
        let k = chars_of(es[i].0.as_str());
        lens.push(k.len());
        i = i + 1;
    }
    let mut order: Vec<usize> = Vec::new();
    let mut i: usize = 0;
    while i < n
        invariant
            n == es@.len(),
            lens@.len() == n,
            forall|j: int| 0 <= j < n ==> #[trigger] lens@[j] == es@[j].0@.len(),
            i <= n,
            order@.len() == i,
            forall|a: int| 0 <= a < order@.len() ==> #[trigger] order@[a] < i,
            forall|a: int, b: int| 0 <= a < b < order@.len() ==> #[trigger] order@[a] != #[trigger] order@[b],
            forall|a: int| 0 <= a < order@.len() - 1 ==> es@[#[trigger] order@[a] as int].0@.len() >= es@[order@[a + 1] as int].0@.len(),
        decreases n - i,
    {
        let mut p: usize = order.len();
        while p > 0 && lens[order[p - 1]] < lens[i]
            invariant
                p <= order@.len(),
                forall|a: int| 0 <= a < order@.len() ==> #[trigger] order@[a] < i,
                lens@.len() == n,
                i < n,
                forall|a: int| p <= a < order@.len() ==> es@[#[trigger] order@[a] as int].0@.len() < es@[i as int].0@.len(),
                forall|j: int| 0 <= j < n ==> #[trigger] lens@[j] == es@[j].0@.len(),
            decreases p,
        {
            p = p - 1;
        }
        let ghost pre = order@;
        order.insert(p, i);
        proof {
            assert forall|a: int| 0 <= a < order@.len() - 1 implies es@[#[trigger] order@[a] as int].0@.len() >= es@[order@[a + 1] as int].0@.len() by {
                if a + 1 < p {
                    assert(order@[a] == pre[a] && order@[a + 1] == pre[a + 1]);
                } else if a + 1 == p {
                    assert(order@[a] == pre[a] && order@[a + 1] == i);
                } else if a == p {
                    assert(order@[a] == i && order@[a + 1] == pre[a]);
                } else {
                    assert(order@[a] == pre[a - 1] && order@[a + 1] == pre[a]);
                }
            }
            assert forall|a: int, b: int| 0 <= a < b < order@.len() implies #[trigger] order@[a] != #[trigger] order@[b] by {
                let pa = if a < p { a } else if a == p { -1 } else { a - 1 };
                let pb = if b < p { b } else if b == p { -1 } else { b - 1 };
                if pa >= 0 && pb >= 0 {
                    assert(pre[pa] != pre[pb]);
                } else if pa >= 0 {
                    assert(pre[pa] < i);
                } else if pb >= 0 {
                    assert(pre[pb] < i);
                }
            }
        }
        i = i + 1;
    }
    order
}

/// Rewrites the paths of the map in `s`: every key, longest first, becomes
/// a placeholder, then every placeholder its new path, so that no new path
/// is rewritten again.
pub fn rewrite_paths(s: &Vec<char>, path_map: &StrMap<String>) -> (r: Vec<char>)
    ensures
        exists|order: Seq<usize>| is_length_order(path_map.entries@, order)
            && r@ == from_placeholders(to_placeholders(s@, path_map.entries@, order), path_map.entries@, order),
{
    let es = &path_map.entries;
    let order = length_order(es);
    let mut cur = s.clone();
    let mut k: usize = 0;
    proof {
        assert(order@.take(0) =~= Seq::<usize>::empty());
    }
    while k < order.len()
        invariant
            k <= order@.len(),
            is_length_order(es@, order@),
            cur@ == to_placeholders(s@, es@, order@.take(k as int)),
        decreases order.len() - k,
    {
        let key = chars_of(es[order[k]].0.as_str());
        let ph = placeholder_of(k);
        cur = replace_all(&cur, &key, &ph);
        k = k + 1;
        proof {
            let t = order@.take(k as int);
            assert(t.drop_last() =~= order@.take(k - 1));
        }
    }
    proof {
        assert(order@.take(k as int) =~= order@);
    }
    let ghost mid = cur@;
    let mut k: usize = 0;
    proof {
        assert(order@.take(0) =~= Seq::<usize>::empty());
    }
    while k < order.len()
        invariant
            k <= order@.len(),
            is_length_order(es@, order@),
            cur@ == from_placeholders(mid, es@, order@.take(k as int)),
        decreases order.len() - k,
    {
        let ph = placeholder_of(k);
        let new_path = chars_of(es[order[k]].1.as_str());
        cur = replace_all(&cur, &ph, &new_path);
        k = k + 1;
        proof {
            let t = order@.take(k as int);
            assert(t.drop_last() =~= order@.take(k - 1));
        }
    }
    proof {
        assert(order@.take(k as int) =~= order@);
    }
    cur
}

/// The pieces of `s` between the occurrences of `c` (one empty piece for
/// `""`).
pub open spec fn split_on(s: Seq<char>, c: char) -> Seq<Seq<char>>
    decreases s.len(),
{
    if s.len() == 0 {
        seq![Seq::<char>::empty()]
    } else {
        let rest = split_on(s.drop_last(), c);
        if s.last() == c {
            rest.push(Seq::<char>::empty())
        } else {
            rest.update(rest.len() - 1, rest.last().push(s.last()))
        }
    }
}

/// `split_on` yields at least one piece.
proof fn lemma_split_on_nonempty(s: Seq<char>, c: char)
    ensures
        split_on(s, c).len() >= 1,
    decreases s.len(),
{
    if s.len() > 0 {
        lemma_split_on_nonempty(s.drop_last(), c);
    }
}

/// The pieces of `s` between the occurrences of `c`.
pub fn split_pieces(s: &Vec<char>, c: char) -> (r: Vec<Vec<char>>)
    ensures
        crate::paths::views(r@) == split_on(s@, c),
{
    split_chars(s, c)
}

/// The pieces of `s` between the occurrences of `c`.
fn split_chars(s: &Vec<char>, c: char) -> (r: Vec<Vec<char>>)
    ensures
        crate::paths::views(r@) == split_on(s@, c),
{
    let mut parts: Vec<Vec<char>> = Vec::new();
    let mut cur: Vec<char> = Vec::new();
    let mut i: usize = 0;
    proof {
        assert(s@.take(0) =~= Seq::<char>::empty());
        assert(crate::paths::views(parts@).push(cur@) =~= seq![Seq::<char>::empty()]);
    }
    while i < s.len()
        invariant
            i <= s.len(),
            crate::paths::views(parts@).push(cur@) == split_on(s@.take(i as int), c),
        decreases s.len() - i,
    {
        let x = s[i];
        let ghost old_parts = parts@;
        let ghost old_cur = cur@;
        if x == c {
            parts.push(cur);
            cur = Vec::new();
            proof {
                assert(crate::paths::views(parts@) =~= crate::paths::views(old_parts).push(old_cur));
            }
        } else {
            cur.push(x);
        }
        i = i + 1;
        proof {
            let t = s@.take(i as int);
            assert(t.drop_last() =~= s@.take(i - 1));
            assert(t.last() == x);
            if x == c {
                assert(crate::paths::views(parts@).push(cur@) =~= split_on(t, c));
            } else {
                assert(crate::paths::views(parts@) =~= crate::paths::views(old_parts));
                assert(crate::paths::views(parts@).push(cur@) =~= crate::paths::views(old_parts).push(old_cur).update(
                    crate::paths::views(old_parts).push(old_cur).len() - 1,
                    old_cur.push(x),
                ));
            }
        }
    }
    let ghost pre = parts@;
    parts.push(cur);
    proof {
        assert(s@.take(i as int) =~= s@);
        assert(crate::paths::views(parts@) =~= crate::paths::views(pre).push(cur@));
    }
    parts
}

/// The lines of `s`, as `str::lines` gives them: no last empty line after
/// a final line break.
pub open spec fn text_lines(s: Seq<char>) -> Seq<Seq<char>> {
    let p = split_on(s, '\n');
    if p.len() > 0 && p.last().len() == 0 {
        p.drop_last()
    } else {
        p
    }
}

/// A line without its carriage return and trailing white space.
pub open spec fn clean_line(l: Seq<char>) -> Seq<char> {
    trim_end(if l.len() > 0 && l.last() == '\r' { l.drop_last() } else { l })
}

/// The lines, cleaned and joined with line breaks.
pub open spec fn joined_lines(ls: Seq<Seq<char>>) -> Seq<char>
    decreases ls.len(),
{
    if ls.len() == 0 {
        Seq::<char>::empty()
    } else if ls.len() == 1 {
        clean_line(ls[0])
    } else {
        joined_lines(ls.drop_last()) + seq!['\n'] + clean_line(ls.last())
    }
}

/// Lines without trailing white space, and exactly one final line break.
pub open spec fn tidied(s: Seq<char>) -> Seq<char> {
    trim_end(joined_lines(text_lines(s))) + seq!['\n']
}

/// The lines of `s`, as `str::lines` gives them.
pub fn lines_of(s: &Vec<char>) -> (r: Vec<Vec<char>>)
    ensures
        crate::paths::views(r@) == text_lines(s@),
{
    let mut parts = split_chars(s, '\n');
    proof {
        lemma_split_on_nonempty(s@, '\n');
    }
    let last = parts.len() - 1;
    if parts[last].len() == 0 {
        let ghost pre = parts@;
        parts.pop();
        proof {
            assert(crate::paths::views(parts@) =~= crate::paths::views(pre).drop_last());
        }
    }
    parts
}

/// Trims the lines and ends the text with exactly one line break.
fn tidy(s: &Vec<char>) -> (r: Vec<char>)
    ensures
        r@ == tidied(s@),
{
    let parts = split_chars(s, '\n');
    let ghost pv = crate::paths::views(parts@);
    proof {
        lemma_split_on_nonempty(s@, '\n');
    }
    let last = parts.len() - 1;
    let n = if parts[last].len() == 0 { last } else { parts.len() };
    let ghost ls = text_lines(s@);
    proof {
        assert(ls =~= pv.take(n as int));
    }
    let mut out: Vec<char> = Vec::new();
    let mut k: usize = 0;
    proof {
        assert(ls.take(0) =~= Seq::<Seq<char>>::empty());
    }
    while k < n
        invariant
            n <= parts@.len(),
            k <= n,
            pv == crate::paths::views(parts@),
            ls == pv.take(n as int),
            out@ == joined_lines(ls.take(k as int)),
        decreases n - k,
    {
        if k > 0 {
            out.push('\n');
        }
        let line = &parts[k];
        let body = if line.len() > 0 && line[line.len() - 1] == '\r' {
            slice(line, 0, line.len() - 1)
        } else {
            line.clone()
        };
        let t = trim_end_chars(&body);
        append_chars(&mut out, &t);
        k = k + 1;
        proof {
            let tk = ls.take(k as int);
            assert(tk.drop_last() =~= ls.take(k - 1));
            assert(tk.last() == parts@[k - 1]@);
            if line@.len() > 0 && line@.last() == '\r' {
                assert(body@ =~= line@.drop_last());
            }
            assert(out@ =~= joined_lines(tk));
        }
    }
    proof {
        assert(ls.take(k as int) =~= ls);
    }
    let mut r = trim_end_chars(&out);
    r.push('\n');
    r
}

/// The steps before conversion, paths rewritten in the order `order`.
pub open spec fn preprocessed(x: Seq<char>, es: Seq<(String, String)>, order: Seq<usize>, refs: Seq<Seq<char>>) -> Seq<char> {
    let s1 = apply_spec(HEAD_PATTERN@, without_xml_decl(x), Rule::Drop, refs);
    let s2 = apply_spec(SVG_PATTERN@, s1, Rule::SvgUnwrap, refs);
    let s3 = apply_spec(EMPTY_ALT_PATTERN@, s2, Rule::AltFill, refs);
    let s4 = apply_spec(IMG_PATTERN@, s3, Rule::AltInject, refs);
    let s5 = apply_spec(EMPTY_ANCHOR_PATTERN@, s4, Rule::AnchorEmpty, refs);
    let s6 = apply_spec(ANCHOR_ID_PATTERN@, s5, Rule::AnchorId, refs);
    let s7 = apply_spec(ELEMENT_ID_PATTERN@, s6, Rule::ElementId, refs);
    let s8 = replaced(s7, "epub:"@, "data-epub-"@);
    let s9 = from_placeholders(to_placeholders(s8, es, order), es, order);
    let s10 = apply_spec(FOOTNOTE_PATTERN@, s9, Rule::Footnote, refs);
    apply_spec(NOTEREF_PATTERN@, s10, Rule::NoteRef, refs)
}

/// The steps after conversion.
pub open spec fn postprocessed(md: Seq<char>) -> Seq<char> {
    let none = Seq::<Seq<char>>::empty();
    let s1 = apply_spec(TOKEN_PATTERN@, md, Rule::TokenToBrace, none);
    let s2 = apply_spec(BOLD_PATTERN@, s1, Rule::BoldLift, none);
    let s3 = apply_spec(HEADING_LEAD_PATTERN@, s2, Rule::HeadingLead, none);
    let s4 = apply_spec(HEADING_INNER_PATTERN@, s3, Rule::HeadingInner, none);
    let s5 = apply_spec(PENDING_PATTERN@, s4, Rule::HeadingPending, none);
    let s6 = apply_spec(PRE_HEADING_PATTERN@, s5, Rule::PreHeading, none);
    let s7 = apply_spec(BRACE_PATTERN@, s6, Rule::BraceToSpan, none);
    let s8 = apply_spec(BLANK_PATTERN@, s7, Rule::Blank, none);
    tidied(s8)
}

/// Prepares XHTML for the converter: strips the XML declaration and the
/// `<head>`, unwraps SVG covers, fills in `alt` text, turns referenced ids
/// into tokens and drops the others, flattens the `epub:` namespace,
/// rewrites paths through the path map and turns footnotes into Markdown.
pub fn preprocess_xhtml(xhtml: &str, path_map: &StrMap<String>, referenced_ids: &Vec<String>) -> (r: String)
    ensures
        exists|order: Seq<usize>| is_length_order(path_map.entries@, order)
            && r@ == preprocessed(xhtml@, path_map.entries@, order, str_views(referenced_ids@)),
{
    let x = chars_of(xhtml);
    let s0 = string_of(&strip_xml_decl(&x));
    let s1 = apply(HEAD_PATTERN, s0.as_str(), Rule::Drop, referenced_ids);
    let s2 = apply(SVG_PATTERN, s1.as_str(), Rule::SvgUnwrap, referenced_ids);
    let s3 = apply(EMPTY_ALT_PATTERN, s2.as_str(), Rule::AltFill, referenced_ids);
    let s4 = apply(IMG_PATTERN, s3.as_str(), Rule::AltInject, referenced_ids);
    let s5 = apply(EMPTY_ANCHOR_PATTERN, s4.as_str(), Rule::AnchorEmpty, referenced_ids);
    let s6 = apply(ANCHOR_ID_PATTERN, s5.as_str(), Rule::AnchorId, referenced_ids);
    let s7 = apply(ELEMENT_ID_PATTERN, s6.as_str(), Rule::ElementId, referenced_ids);
    let s8 = replace_all(&chars_of(s7.as_str()), &chars_of("epub:"), &chars_of("data-epub-"));
    let s9 = string_of(&rewrite_paths(&s8, path_map));
    let s10 = apply(FOOTNOTE_PATTERN, s9.as_str(), Rule::Footnote, referenced_ids);
    apply(NOTEREF_PATTERN, s10.as_str(), Rule::NoteRef, referenced_ids)
}

/// Turns anchor tokens in converted Markdown into Pandoc anchors (heading
/// attributes where a heading is at hand, inline spans elsewhere), lifts
/// them out of bold text, collapses blank lines and tidies line ends.
pub fn postprocess_markdown(md: &str) -> (r: String)
    ensures
        r@ == postprocessed(md@),
{
    let none: Vec<String> = Vec::new();
    proof {
        assert(str_views(none@) =~= Seq::<Seq<char>>::empty());
    }
    let s1 = apply(TOKEN_PATTERN, md, Rule::TokenToBrace, &none);
    let s2 = apply(BOLD_PATTERN, s1.as_str(), Rule::BoldLift, &none);
    let s3 = apply(HEADING_LEAD_PATTERN, s2.as_str(), Rule::HeadingLead, &none);
    let s4 = apply(HEADING_INNER_PATTERN, s3.as_str(), Rule::HeadingInner, &none);
    let s5 = apply(PENDING_PATTERN, s4.as_str(), Rule::HeadingPending, &none);
    let s6 = apply(PRE_HEADING_PATTERN, s5.as_str(), Rule::PreHeading, &none);
    let s7 = apply(BRACE_PATTERN, s6.as_str(), Rule::BraceToSpan, &none);
    let s8 = apply(BLANK_PATTERN, s7.as_str(), Rule::Blank, &none);
    let t = tidy(&chars_of(s8.as_str()));
    string_of(&t)
}

/// Converts a chapter's XHTML to Markdown. Only the ids in
/// `referenced_ids` survive, as Pandoc anchors; paths are rewritten
/// through `path_map`.
pub fn xhtml_to_markdown(xhtml: &str, path_map: &StrMap<String>, referenced_ids: &Vec<String>) -> (r: String)
    ensures
        exists|order: Seq<usize>| is_length_order(path_map.entries@, order)
            && r@ == postprocessed(markdown_of(preprocessed(xhtml@, path_map.entries@, order, str_views(referenced_ids@)))),
{
    let pre = preprocess_xhtml(xhtml, path_map, referenced_ids);
    let md = html_to_markdown(pre.as_str());
    postprocess_markdown(md.as_str())
}

} // verus!
