//! Searching and rewriting the text of the chapters.

use vstd::prelude::*;
use vstd::string::StrSliceExecFns;
use vstd::utf8::{decode_utf8, encode_utf8, valid_utf8};
use crate::chapter_manage::find_idref;
use crate::epub::EpubBook;
use crate::error::EpxError;
use crate::html_to_md::{lines_of, stripped_tags, strip_html_tags, text_lines};
use crate::paths::{find_item, find_manifest_item};
use crate::patterns::{regex_compiles, regex_escape, regex_escaped, regex_is_valid, regex_replace_all, regex_replaced, regex_scan, regex_scan_of, match_views};
use crate::assemble::is_first_at;
use crate::html_to_md::split_on;
use crate::numfmt::{decimal, push_decimal};
use crate::text::{find_from, slice, chars_of, contains, parse_index, parsed_index, push_str, str_contains, str_eq, string_of, trim, trimmed, utf8_decode};
use crate::util::{find_resource_key, resource_key_for};

verus! {

/// A line of chapter text that matches a search.
pub struct SearchMatch {
    pub chapter_id: String,
    pub chapter_href: String,
    pub line_number: usize,
    pub context: String,
}

/// The values of a search match.
pub open spec fn match_view(m: SearchMatch) -> (Seq<char>, Seq<char>, nat, Seq<char>) {
    (m.chapter_id@, m.chapter_href@, m.line_number as nat, m.context@)
}

/// The pattern a search uses: the given one as a regular expression, or
/// one that matches it literally.
pub open spec fn effective_pattern(pattern: Seq<char>, use_regex: bool) -> Seq<char> {
    if use_regex { pattern } else { regex_escaped(pattern) }
}

/// Spine position `i` passes the chapter filter: no filter, its idref, or
/// an index that is the first position of its idref.
pub open spec fn is_selected(book: EpubBook, i: int, filter: Option<Seq<char>>) -> bool {
    match filter {
        None => true,
        Some(f) => book.spine@[i].idref@ == f || (parsed_index(f) is Some && find_idref(book.spine@, book.spine@[i].idref@)
            == Some(parsed_index(f)->Some_0 as int)),
    }
}

/// The href, resource key and text of the (X)HTML chapter at spine
/// position `i`, when it has one that is UTF-8.
pub open spec fn chapter_doc(book: EpubBook, i: int) -> Option<(Seq<char>, Seq<char>, Seq<char>)> {
    doc_with(book, book.resources.bytes_view(), i)
}

/// As `chapter_doc`, with the resource bytes taken from `res`.
pub open spec fn doc_with(book: EpubBook, res: Map<Seq<char>, Seq<u8>>, i: int) -> Option<(Seq<char>, Seq<char>, Seq<char>)> {
    match find_item(book.manifest@, book.spine@[i].idref@) {
        Some(j) => {
            let m = book.manifest@[j];
            if contains(m.media_type@, "html"@) {
                match resource_key_for(book.resources.key_seq(), book.resources@.contains_key(m.href@), m.href@) {
                    Some(k) => if res.contains_key(k) && valid_utf8(res[k]) {
                        Some((m.href@, k, decode_utf8(res[k])))
                    } else {
                        None
                    },
                    None => None,
                }
            } else {
                None
            }
        },
        None => None,
    }
}

/// The matching lines among `lines`, numbered from 1.
pub open spec fn line_hits(id: Seq<char>, href: Seq<char>, lines: Seq<Seq<char>>, pattern: Seq<char>) -> Seq<(Seq<char>, Seq<char>, nat, Seq<char>)>
    decreases lines.len(),
{
    if lines.len() == 0 {
        Seq::empty()
    } else {
        let rest = line_hits(id, href, lines.drop_last(), pattern);
        if regex_scan_of(pattern, lines.last()).0.len() > 0 {
            rest.push((id, href, lines.len() as nat, trimmed(lines.last())))
        } else {
            rest
        }
    }
}

/// The search results of the first `n` spine positions.
pub open spec fn search_hits(book: EpubBook, pattern: Seq<char>, filter: Option<Seq<char>>, n: int) -> Seq<(Seq<char>, Seq<char>, nat, Seq<char>)>
    decreases n,
{
    if n <= 0 {
        Seq::empty()
    } else {
        let rest = search_hits(book, pattern, filter, n - 1);
        if is_selected(book, n - 1, filter) && chapter_doc(book, n - 1) is Some {
            let d = chapter_doc(book, n - 1)->Some_0;
            rest + line_hits(book.spine@[n - 1].idref@, d.0, text_lines(stripped_tags(d.2)), pattern)
        } else {
            rest
        }
    }
}

/// The characters of an optional string.
pub open spec fn opt_chars(o: Option<&str>) -> Option<Seq<char>> {
    match o {
        Some(s) => Some(s@),
        None => None,
    }
}

/// Whether spine position `i` passes the chapter filter.
fn selected(book: &EpubBook, i: usize, filter: Option<&str>) -> (r: bool)
    requires
        i < book.spine@.len(),
    ensures
        r == is_selected(*book, i as int, opt_chars(filter)),
{
    match filter {
        None => true,
        Some(f) => {
            if str_eq(book.spine[i].idref.as_str(), f) {
                return true;
            }
            match parse_index(f) {
                Some(idx) => {
                    let mut k: usize = 0;
                    while k < book.spine.len()
                        invariant
                            k <= book.spine@.len(),
                            i < book.spine@.len(),
                            book.spine@[i as int].idref@ != f@,
                            parsed_index(f@) == Some(idx),
                            filter == Some(f),
                            find_idref(book.spine@.take(k as int), book.spine@[i as int].idref@) is None,
                        decreases book.spine.len() - k,
                    {
                        proof {
                            assert(book.spine@.take(k + 1).drop_last() =~= book.spine@.take(k as int));
                        }
                        if str_eq(book.spine[k].idref.as_str(), book.spine[i].idref.as_str()) {
                            proof {
                                lemma_prefix_idref(book.spine@, book.spine@[i as int].idref@, k + 1);
                            }
                            return k == idx;
                        }
                        k = k + 1;
                    }
                    proof {
                        assert(book.spine@.take(k as int) =~= book.spine@);
                    }
                    false
                },
                None => false,
            }
        },
    }
}

/// A first match in a prefix is the first match of the whole.
proof fn lemma_prefix_idref(s: Seq<crate::epub::SpineItem>, id: Seq<char>, n: int)
    requires
        0 <= n <= s.len(),
        find_idref(s.take(n), id) is Some,
    ensures
        find_idref(s, id) == find_idref(s.take(n), id),
    decreases s.len() - n,
{
    if n < s.len() {
        assert(s.take(n + 1).drop_last() =~= s.take(n));
        lemma_prefix_idref(s, id, n + 1);
    } else {
        assert(s.take(n) =~= s);
    }
}

/// The href, resource key and text of the chapter at spine position `i`.
fn chapter_doc_of(book: &EpubBook, i: usize) -> (r: Option<(String, String, String)>)
    requires
        book.wf(),
        i < book.spine@.len(),
    ensures
        match r {
            Some(d) => chapter_doc(*book, i as int) == Some((d.0@, d.1@, d.2@)),
            None => chapter_doc(*book, i as int) is None,
        },
{
    let j = match find_manifest_item(&book.manifest, book.spine[i].idref.as_str()) {
        Some(j) => j,
        None => return None,
    };
    let m = &book.manifest[j];
    if !str_contains(m.media_type.as_str(), "html") {
        return None;
    }
    let key = match find_resource_key(&book.resources, m.href.as_str()) {
        Some(k) => k,
        None => return None,
    };
    match book.resources.get(key.as_str()) {
        Some(b) => {
            proof {
                book.resources.lemma_bytes_view(key@);
            }
            match utf8_decode(b.clone()) {
                Some(text) => Some((m.href.clone(), key, text)),
                None => None,
            }
        },
        None => None,
    }
}

/// Searches the text of the chapters (tags removed) line by line for a
/// pattern, a regular expression or a literal; only the chapters that the
/// filter names (an idref or a spine index) when there is one. An error for
/// an invalid regular expression.
pub fn search(book: &EpubBook, pattern: &str, chapter_filter: Option<&str>, use_regex: bool) -> (r: Result<Vec<SearchMatch>, EpxError>)
    requires
        book.wf(),
    ensures
        match r {
            Ok(ms) => regex_compiles(effective_pattern(pattern@, use_regex))
                && ms@.map_values(|m: SearchMatch| match_view(m)) == search_hits(
                *book,
                effective_pattern(pattern@, use_regex),
                opt_chars(chapter_filter),
                book.spine@.len() as int,
            ),
            Err(e) => e is InvalidArgument && !regex_compiles(effective_pattern(pattern@, use_regex)),
        },
{
    let pat = if use_regex { String::from_str(pattern) } else { regex_escape(pattern) };
    if !regex_is_valid(pat.as_str()) {
        let mut m = chars_of("invalid pattern: ");
        push_str(&mut m, pattern);
        return Err(EpxError::InvalidArgument(string_of(&m)));
    }
    let ghost pv = pat@;
    let ghost fv = opt_chars(chapter_filter);
    let mut out: Vec<SearchMatch> = Vec::new();
    let mut i: usize = 0;
    proof {
        assert(out@.map_values(|m: SearchMatch| match_view(m)) =~= search_hits(*book, pv, fv, 0));
    }
    while i < book.spine.len()
        invariant
            book.wf(),
            i <= book.spine@.len(),
            pv == pat@,
            fv == opt_chars(chapter_filter),
            out@.map_values(|m: SearchMatch| match_view(m)) == search_hits(*book, pv, fv, i as int),
        decreases book.spine.len() - i,
    {
        if selected(book, i, chapter_filter) {
            match chapter_doc_of(book, i) {
                Some((href, _key, xhtml)) => {
                    let text = strip_html_tags(xhtml.as_str());
                    let lines = lines_of(&chars_of(text.as_str()));
                    let ghost ls = crate::paths::views(lines@);
                    let ghost base = out@.map_values(|m: SearchMatch| match_view(m));
                    let idref = &book.spine[i].idref;
                    let mut l: usize = 0;
                    proof {
                        assert(ls.take(0) =~= Seq::<Seq<char>>::empty());
                        assert(base + line_hits(idref@, href@, ls.take(0), pv) =~= base);
                    }
                    while l < lines.len()
                        invariant
                            l <= lines@.len(),
                            ls == crate::paths::views(lines@),
                            pv == pat@,
                            out@.map_values(|m: SearchMatch| match_view(m)) == base + line_hits(idref@, href@, ls.take(l as int), pv),
                        decreases lines.len() - l,
                    {
                        let line = string_of(&lines[l]);
                        let sc = regex_scan(pat.as_str(), line.as_str());
                        proof {
                            assert(ls.take(l + 1).drop_last() =~= ls.take(l as int));
                            assert(ls.take(l + 1).last() == line@);
                            assert(match_views(sc.matches@).len() == sc.matches@.len());
                        }
                        if sc.matches.len() > 0 {
                            let t = trim(&lines[l]);
                            let ghost pre = out@;
                            out.push(SearchMatch {
                                chapter_id: idref.clone(),
                                chapter_href: href.clone(),
                                line_number: l + 1,
                                context: string_of(&t),
                            });
                            proof {
                                assert(out@.map_values(|m: SearchMatch| match_view(m)) =~= pre.map_values(|m: SearchMatch| match_view(m)).push(
                                    (idref@, href@, (l + 1) as nat, trimmed(line@)),
                                ));
                            }
                        }
                        l = l + 1;
                    }
                    proof {
                        assert(ls.take(l as int) =~= ls);
                        assert(ls == text_lines(stripped_tags(xhtml@)));
                    }
                },
                None => {},
            }
        }
        i = i + 1;
    }
    Ok(out)
}

/// Replacement state over XHTML: inside a tag, the pending text, the
/// output so far.
pub type TextNodeState = (bool, Seq<char>, Seq<char>);

/// The pending text, rewritten (nothing when it is empty).
pub open spec fn flushed(buf: Seq<char>, pattern: Seq<char>, rep: Seq<char>) -> Seq<char> {
    if buf.len() > 0 { regex_replaced(pattern, buf, rep) } else { Seq::<char>::empty() }
}

/// The replacement state after the characters `s`: `<` opens a tag and
/// flushes the pending text, `>` closes an open tag, characters inside
/// tags are copied, the others gather as pending text.
pub open spec fn text_node_run(s: Seq<char>, pattern: Seq<char>, rep: Seq<char>) -> TextNodeState
    decreases s.len(),
{
    if s.len() == 0 {
        (false, Seq::<char>::empty(), Seq::<char>::empty())
    } else {
        let (in_tag, buf, out) = text_node_run(s.drop_last(), pattern, rep);
        let c = s.last();
        if c == '<' {
            (true, Seq::<char>::empty(), out + flushed(buf, pattern, rep) + seq!['<'])
        } else if c == '>' && in_tag {
            (false, buf, out + seq!['>'])
        } else if in_tag {
            (in_tag, buf, out + seq![c])
        } else {
            (in_tag, buf.push(c), out)
        }
    }
}

/// `xhtml` with the pattern replaced in its text, never inside tags.
pub open spec fn text_nodes_replaced(xhtml: Seq<char>, pattern: Seq<char>, rep: Seq<char>) -> Seq<char> {
    let (_, buf, out) = text_node_run(xhtml, pattern, rep);
    out + flushed(buf, pattern, rep)
}

/// Replaces matches of `pattern` by the template `replacement` in the text
/// of `xhtml`, leaving tags (and so attribute values) alone.
pub fn replace_in_text_nodes(xhtml: &str, pattern: &str, replacement: &str) -> (r: String)
    ensures
        r@ == text_nodes_replaced(xhtml@, pattern@, replacement@),
{
    let s = chars_of(xhtml);
    let mut in_tag = false;
    let mut buf: Vec<char> = Vec::new();
    let mut out: Vec<char> = Vec::new();
    let mut i: usize = 0;
    proof {
        assert(s@.take(0) =~= Seq::<char>::empty());
    }
    while i < s.len()
        invariant
            i <= s@.len(),
            s@ == xhtml@,
            text_node_run(s@.take(i as int), pattern@, replacement@) == (in_tag, buf@, out@),
        decreases s.len() - i,
    {
        proof {
            assert(s@.take(i + 1).drop_last() =~= s@.take(i as int));
        }
        let c = s[i];
        if c == '<' {
            if buf.len() > 0 {
                let b = string_of(&buf);
                let rep = regex_replace_all(pattern, b.as_str(), replacement);
                push_str(&mut out, rep.as_str());
            }
            buf = Vec::new();
            in_tag = true;
            out.push('<');
        } else if c == '>' && in_tag {
            in_tag = false;
            out.push('>');
        } else if in_tag {
            out.push(c);
        } else {
            buf.push(c);
        }
        i = i + 1;
        proof {
            let prev = text_node_run(s@.take(i - 1), pattern@, replacement@);
            assert(out@ =~= text_node_run(s@.take(i as int), pattern@, replacement@).2);
        }
    }
    proof {
        assert(s@.take(i as int) =~= s@);
    }
    if buf.len() > 0 {
        let b = string_of(&buf);
        let rep = regex_replace_all(pattern, b.as_str(), replacement);
        push_str(&mut out, rep.as_str());
    }
    proof {
        assert(out@ =~= text_nodes_replaced(xhtml@, pattern@, replacement@));
    }
    string_of(&out)
}

/// The number of matches of `pattern` in the text of `xhtml`.
pub fn count_matches(xhtml: &str, pattern: &str) -> (r: usize)
    ensures
        r == regex_scan_of(pattern@, stripped_tags(xhtml@)).0.len(),
{
    let text = strip_html_tags(xhtml);
    let sc = regex_scan(pattern, text.as_str());
    proof {
        assert(match_views(sc.matches@).len() == sc.matches@.len());
    }
    sc.matches.len()
}

/// The resource bytes and the match count after replacing in the first
/// `n` spine positions, one after the other.
pub open spec fn replace_state(book: EpubBook, pattern: Seq<char>, rep: Seq<char>, filter: Option<Seq<char>>, n: int) -> (Map<Seq<char>, Seq<u8>>, nat)
    decreases n,
{
    if n <= 0 {
        (book.resources.bytes_view(), 0)
    } else {
        let (res, c) = replace_state(book, pattern, rep, filter, n - 1);
        if is_selected(book, n - 1, filter) && doc_with(book, res, n - 1) is Some {
            let d = doc_with(book, res, n - 1)->Some_0;
            (
                res.insert(d.1, encode_utf8(text_nodes_replaced(d.2, pattern, rep))),
                crate::profile::sat_add(c, regex_scan_of(pattern, stripped_tags(d.2)).0.len()),
            )
        } else {
            (res, c)
        }
    }
}

/// Replaces a pattern (a regular expression or a literal) by `replacement`
/// in the text of the chapters that the filter selects, never inside tags;
/// returns how many matches the text of those chapters held (saturating).
/// An error for an invalid regular expression, with the book untouched.
pub fn replace(book: &mut EpubBook, pattern: &str, replacement: &str, chapter_filter: Option<&str>, use_regex: bool) -> (r: Result<usize, EpxError>)
    requires
        old(book).wf(),
    ensures
        final(book).wf(),
        r is Err <==> !regex_compiles(effective_pattern(pattern@, use_regex)),
        r is Err ==> *final(book) == *old(book),
        final(book).manifest == old(book).manifest,
        final(book).spine == old(book).spine,
        final(book).metadata == old(book).metadata,
        final(book).navigation == old(book).navigation,
        final(book).resources@.dom() == old(book).resources@.dom(),
        r matches Ok(n) ==> {
            let st = replace_state(*old(book), effective_pattern(pattern@, use_regex), replacement@,
                opt_chars(chapter_filter), old(book).spine@.len() as int);
            final(book).resources.bytes_view() == st.0 && n as nat == st.1
        },
{
    let pat = if use_regex { String::from_str(pattern) } else { regex_escape(pattern) };
    if !regex_is_valid(pat.as_str()) {
        let mut m = chars_of("invalid pattern: ");
        push_str(&mut m, pattern);
        return Err(EpxError::InvalidArgument(string_of(&m)));
    }
    let ghost pre = *book;
    let ghost fv = opt_chars(chapter_filter);
    let mut total: usize = 0;
    let mut i: usize = 0;
    while i < book.spine.len()
        invariant
            book.wf(),
            i <= book.spine@.len(),
            book.manifest == pre.manifest,
            book.spine == pre.spine,
            book.metadata == pre.metadata,
            book.navigation == pre.navigation,
            book.resources@.dom() == pre.resources@.dom(),
            book.resources.key_seq() == pre.resources.key_seq(),
            fv == opt_chars(chapter_filter),
            replace_state(pre, pat@, replacement@, fv, i as int) == (book.resources.bytes_view(), total as nat),
        decreases book.spine.len() - i,
    {
        proof {
            assert(chapter_doc(*book, i as int) == doc_with(pre, book.resources.bytes_view(), i as int));
        }
        if selected(book, i, chapter_filter) {
            match chapter_doc_of(book, i) {
                Some((_href, key, xhtml)) => {
                    let result = replace_in_text_nodes(xhtml.as_str(), pat.as_str(), replacement);
                    let count = count_matches(xhtml.as_str(), pat.as_str());
                    total = total.saturating_add(count);
                    let ghost before = *book;
                    proof {
                        assert(before.resources@.contains_key(key@)) by {
                            assert(chapter_doc(*book, i as int) is Some);
                        }
                        assert(before.resources.has_key(key@));
                    }
                    let bytes = result.as_str().as_bytes_vec();
                    book.resources.insert_bytes(key, bytes);
                    proof {
                        assert(before.resources@.dom().insert(key@) =~= before.resources@.dom());
                    }
                },
                None => {},
            }
        }
        i = i + 1;
    }
    Ok(total)
}

/// Headings of the XHTML.
pub const HEADING_PATTERN: &'static str = "<h([1-6])[^>]*>(.*?)</h[1-6]>";

/// The level of a heading from its digit.
pub open spec fn heading_level(d: Seq<char>) -> nat {
    if d.len() == 1 && '1' <= d[0] <= '6' { (d[0] as nat - '0' as nat) as nat } else { 1 }
}

/// The headings of one chapter: `(href, level, text)`.
pub open spec fn headings_in(href: Seq<char>, xhtml: Seq<char>) -> Seq<(Seq<char>, nat, Seq<char>)> {
    regex_scan_of(HEADING_PATTERN@, xhtml).0.map_values(|m: (Seq<char>, Seq<Option<Seq<char>>>)|
        (href, heading_level(crate::patterns::group(m.1, 1)), stripped_tags(crate::patterns::group(m.1, 2))))
}

/// The headings of the first `n` spine documents.
pub open spec fn all_headings(book: EpubBook, n: int) -> Seq<(Seq<char>, nat, Seq<char>)>
    decreases n,
{
    if n <= 0 {
        Seq::empty()
    } else {
        let rest = all_headings(book, n - 1);
        match chapter_doc(book, n - 1) {
            Some(d) => rest + headings_in(d.0, d.2),
            None => rest,
        }
    }
}

/// The values of a heading list.
pub open spec fn heading_views(v: Seq<(String, usize, String)>) -> Seq<(Seq<char>, nat, Seq<char>)> {
    v.map_values(|h: (String, usize, String)| (h.0@, h.1 as nat, h.2@))
}

/// The level of a heading from its digit.
fn level_of(d: &Vec<char>) -> (r: usize)
    ensures
        r as nat == heading_level(d@),
{
    if d.len() == 1 && '1' <= d[0] && d[0] <= '6' {
        (d[0] as u32 - '0' as u32) as usize
    } else {
        1
    }
}

/// The headings of the chapters, in spine order: `(href, level, text)`.
pub fn list_headings(book: &EpubBook) -> (r: Result<Vec<(String, usize, String)>, EpxError>)
    requires
        book.wf(),
    ensures
        r matches Ok(h) && heading_views(h@) == all_headings(*book, book.spine@.len() as int),
{
    let mut out: Vec<(String, usize, String)> = Vec::new();
    let mut i: usize = 0;
    proof {
        assert(heading_views(out@) =~= all_headings(*book, 0));
    }
    while i < book.spine.len()
        invariant
            book.wf(),
            i <= book.spine@.len(),
            heading_views(out@) == all_headings(*book, i as int),
        decreases book.spine.len() - i,
    {
        match chapter_doc_of(book, i) {
            Some((href, _key, xhtml)) => {
                let sc = regex_scan(HEADING_PATTERN, xhtml.as_str());
                let ghost hs = headings_in(href@, xhtml@);
                let ghost base = heading_views(out@);
                let mut k: usize = 0;
                proof {
                    assert(base + hs.take(0) =~= base);
                }
                while k < sc.matches.len()
                    invariant
                        k <= sc.matches@.len(),
                        hs == headings_in(href@, xhtml@),
                        hs.len() == sc.matches@.len(),
                        match_views(sc.matches@) == regex_scan_of(HEADING_PATTERN@, xhtml@).0,
                        heading_views(out@) == base + hs.take(k as int),
                    decreases sc.matches.len() - k,
                {
                    let g = &sc.matches[k].groups;
                    let lv = level_of(&chars_of(crate::html_to_md::group_string(g, 1).as_str()));
                    let body = crate::html_to_md::group_string(g, 2);
                    let text = strip_html_tags(body.as_str());
                    let ghost pre = out@;
                    out.push((href.clone(), lv, text));
                    proof {
                        assert(match_views(sc.matches@)[k as int].1 == crate::patterns::group_views(sc.matches@[k as int].groups@));
                        assert(hs.take(k + 1) =~= hs.take(k as int).push(hs[k as int]));
                        assert(heading_views(out@) =~= heading_views(pre).push(hs[k as int]));
                    }
                    k = k + 1;
                }
                proof {
                    assert(hs.take(k as int) =~= hs);
                }
            },
            None => {},
        }
        i = i + 1;
    }
    Ok(out)
}

/// `s` without its leading `h` characters.
pub open spec fn skip_hs(s: Seq<char>) -> Seq<char>
    decreases s.len(),
{
    if s.len() > 0 && s[0] == 'h' { skip_hs(s.drop_first()) } else { s }
}

/// The heading level that one side of a mapping names (`h2`, `2`), 1 to 6.
pub open spec fn level_text(p: Seq<char>) -> Option<nat> {
    match parsed_index(skip_hs(trimmed(p))) {
        Some(n) => if 1 <= n <= 6 { Some(n as nat) } else { None },
        None => None,
    }
}

/// The levels that one `hN->hM` pair maps.
pub open spec fn pair_of(p: Seq<char>) -> Option<(nat, nat)> {
    if exists|i: int| is_first_at(p, "->"@, 0, i) {
        let i = choose|i: int| is_first_at(p, "->"@, 0, i);
        if contains(p.skip(i + 2), "->"@) {
            None
        } else {
            match (level_text(p.take(i)), level_text(p.skip(i + 2))) {
                (Some(a), Some(b)) => Some((a, b)),
                _ => None,
            }
        }
    } else {
        None
    }
}

/// `ps` with `(a, b)` set: the pair for `a` replaced, or added at the end.
pub open spec fn map_set(ps: Seq<(nat, nat)>, a: nat, b: nat) -> Seq<(nat, nat)> {
    if exists|k: int| 0 <= k < ps.len() && ps[k].0 == a {
        ps.update(choose|k: int| 0 <= k < ps.len() && ps[k].0 == a, (a, b))
    } else {
        ps.push((a, b))
    }
}

/// The level mapping of the comma-separated pairs `pieces`.
pub open spec fn pairs_map(pieces: Seq<Seq<char>>) -> Option<Seq<(nat, nat)>>
    decreases pieces.len(),
{
    if pieces.len() == 0 {
        Some(Seq::empty())
    } else {
        match (pairs_map(pieces.drop_last()), pair_of(pieces.last())) {
            (Some(ps), Some((a, b))) => Some(map_set(ps, a, b)),
            _ => None,
        }
    }
}

/// The level mapping that a restructure argument such as `h2->h1,h3->h2`
/// gives; None when it is malformed.
pub open spec fn heading_map(m: Seq<char>) -> Option<Seq<(nat, nat)>> {
    pairs_map(split_on(m, ','))
}

/// The heading level one side of a pair names.
fn level_of_text(p: &Vec<char>) -> (r: Option<usize>)
    ensures
        match r {
            Some(n) => level_text(p@) == Some(n as nat),
            None => level_text(p@) is None,
        },
{
    let t = trim(p);
    let mut i: usize = 0;
    proof {
        assert(t@.skip(0) =~= t@);
    }
    while i < t.len() && t[i] == 'h'
        invariant
            i <= t@.len(),
            skip_hs(t@.skip(i as int)) == skip_hs(t@),
        decreases t.len() - i,
    {
        proof {
            assert(t@.skip(i as int).drop_first() =~= t@.skip(i + 1));
        }
        i = i + 1;
    }
    let rest = slice(&t, i, t.len());
    proof {
        assert(rest@ =~= t@.skip(i as int));
    }
    match parse_index(string_of(&rest).as_str()) {
        Some(n) => if 1 <= n && n <= 6 { Some(n) } else { None },
        None => None,
    }
}

/// The levels one `hN->hM` pair maps.
fn pair_of_text(p: &Vec<char>) -> (r: Option<(usize, usize)>)
    ensures
        match r {
            Some(x) => pair_of(p@) == Some((x.0 as nat, x.1 as nat)),
            None => pair_of(p@) is None,
        },
{
    let arrow = chars_of("->");
    proof {
        reveal_strlit("->");
    }
    match find_from(p, &arrow, 0) {
        Some(i) => {
            proof {
                assert(is_first_at(p@, "->"@, 0, i as int));
                let c = choose|c: int| is_first_at(p@, "->"@, 0, c);
                if c < i {
                } else if c > i {
                }
            }
            let n = p.len();
            let left = slice(p, 0, i);
            let right = slice(p, i + arrow.len(), n);
            proof {
                assert(right@ =~= p@.skip(i + 2));
                assert(left@ =~= p@.take(i as int));
            }
            if crate::text::contains_seq(&right, &arrow) {
                return None;
            }
            match (level_of_text(&left), level_of_text(&right)) {
                (Some(a), Some(b)) => Some((a, b)),
                _ => None,
            }
        },
        None => None,
    }
}

/// The values of a level list.
pub open spec fn level_views(v: Seq<(usize, usize)>) -> Seq<(nat, nat)> {
    v.map_values(|x: (usize, usize)| (x.0 as nat, x.1 as nat))
}

/// Parses a restructure argument such as `h2->h1,h3->h2` into level pairs,
/// a later pair for the same level replacing an earlier one.
pub fn parse_heading_map(mapping: &str) -> (r: Result<Vec<(usize, usize)>, EpxError>)
    ensures
        match r {
            Ok(ps) => heading_map(mapping@) == Some(level_views(ps@)),
            Err(e) => e is InvalidArgument && heading_map(mapping@) is None,
        },
{
    let m = chars_of(mapping);
    let pieces = crate::html_to_md::split_pieces(&m, ',');
    let ghost pv = crate::paths::views(pieces@);
    let mut out: Vec<(usize, usize)> = Vec::new();
    let mut i: usize = 0;
    proof {
        assert(pv.take(0) =~= Seq::<Seq<char>>::empty());
        assert(level_views(out@) =~= Seq::<(nat, nat)>::empty());
    }
    while i < pieces.len()
        invariant
            i <= pieces@.len(),
            pv == crate::paths::views(pieces@),
            pv == split_on(m@, ','),
            m@ == mapping@,
            pairs_map(pv.take(i as int)) == Some(level_views(out@)),
            forall|x: int, y: int| 0 <= x < y < out@.len() ==> out@[x].0 != out@[y].0,
        decreases pieces.len() - i,
    {
        proof {
            assert(pv.take(i + 1).drop_last() =~= pv.take(i as int));
            assert(pv.take(i + 1).last() == pieces@[i as int]@);
        }
        match pair_of_text(&pieces[i]) {
            Some((a, b)) => {
                let mut k: usize = 0;
                let mut found: Option<usize> = None;
                while k < out.len()
                    invariant_except_break
                        found is None,
                    invariant
                        k <= out@.len(),
                        forall|j: int| 0 <= j < k ==> out@[j].0 != a,
                    ensures
                        match found {
                            Some(j) => j < out@.len() && out@[j as int].0 == a && forall|t: int| 0 <= t < j ==> out@[t].0 != a,
                            None => forall|j: int| 0 <= j < out@.len() ==> out@[j].0 != a,
                        },
                    decreases out.len() - k,
                {
                    if out[k].0 == a {
                        found = Some(k);
                        break;
                    }
                    k = k + 1;
                }
                let ghost lv = level_views(out@);
                match found {
                    Some(j) => {
                        proof {
                            assert(lv[j as int].0 == a as nat);
                            let c = choose|c: int| 0 <= c < lv.len() && lv[c].0 == a as nat;
                            if c < j {
                                assert(out@[c].0 != a);
                            } else if c > j {
                                assert(out@[j as int].0 != out@[c].0);
                            }
                        }
                        let ghost before = out@;
                        out.set(j, (a, b));
                        proof {
                            assert(level_views(out@) =~= lv.update(j as int, (a as nat, b as nat)));
                            assert forall|x: int, y: int| 0 <= x < y < out@.len() implies out@[x].0 != out@[y].0 by {
                                assert(before[x].0 != before[y].0);
                            }
                        }
                    },
                    None => {
                        out.push((a, b));
                        proof {
                            assert forall|c: int| 0 <= c < lv.len() implies lv[c].0 != a as nat by {
                                assert(out@[c].0 != a);
                            }
                            assert(level_views(out@) =~= lv.push((a as nat, b as nat)));
                        }
                    },
                }
            },
            None => {
                proof {
                    lemma_pairs_map_none(pv, i as int + 1);
                }
                let mut msg = chars_of("invalid mapping: ");
                push_str(&mut msg, mapping);
                return Err(EpxError::InvalidArgument(string_of(&msg)));
            },
        }
        i = i + 1;
    }
    proof {
        assert(pv.take(i as int) =~= pv);
    }
    Ok(out)
}

/// Once a prefix of pieces fails, the whole fails.
proof fn lemma_pairs_map_none(ps: Seq<Seq<char>>, n: int)
    requires
        0 < n <= ps.len(),
        pairs_map(ps.take(n)) is None,
    ensures
        pairs_map(ps) is None,
    decreases ps.len() - n,
{
    if n < ps.len() {
        assert(ps.take(n + 1).drop_last() =~= ps.take(n));
        lemma_pairs_map_none(ps, n + 1);
    } else {
        assert(ps.take(n) =~= ps);
    }
}

/// The opening tags of level `n` headings.
pub open spec fn open_pat(n: nat) -> Seq<char> {
    "<h"@ + decimal(n) + "([^>]*)>"@
}

/// The closing tags of level `n` headings.
pub open spec fn close_pat(n: nat) -> Seq<char> {
    "</h"@ + decimal(n) + ">"@
}

/// The template of an opening tag of level `n`.
pub open spec fn open_rep(n: nat) -> Seq<char> {
    "<h"@ + decimal(n) + "$1>"@
}

/// `text` renumbered by the pairs in turn, with the number of opening tags
/// each pair renumbered (saturating).
pub open spec fn renumbered(text: Seq<char>, pairs: Seq<(nat, nat)>) -> (Seq<char>, nat)
    decreases pairs.len(),
{
    if pairs.len() == 0 {
        (text, 0)
    } else {
        let (t, c) = renumbered(text, pairs.drop_last());
        let (f, to) = pairs.last();
        (
            regex_replaced(close_pat(f), regex_replaced(open_pat(f), t, open_rep(to)), close_pat(to)),
            crate::profile::sat_add(c, regex_scan_of(open_pat(f), t).0.len()),
        )
    }
}

/// What restructuring makes of a resource's bytes: UTF-8 text renumbered,
/// anything else unchanged.
pub open spec fn restructured(b: Seq<u8>, pairs: Seq<(nat, nat)>) -> Seq<u8> {
    if valid_utf8(b) && renumbered(decode_utf8(b), pairs).0 != decode_utf8(b) {
        encode_utf8(renumbered(decode_utf8(b), pairs).0)
    } else {
        b
    }
}

/// The renumbered opening tags of the resources with the first `n` keys.
pub open spec fn restructure_count(keys: Seq<Seq<char>>, res: Map<Seq<char>, Seq<u8>>, pairs: Seq<(nat, nat)>, n: int) -> nat
    decreases n,
{
    if n <= 0 {
        0
    } else {
        let c = restructure_count(keys, res, pairs, n - 1);
        let b = res[keys[n - 1]];
        if valid_utf8(b) { crate::profile::sat_add(c, renumbered(decode_utf8(b), pairs).1) } else { c }
    }
}

/// A pattern or template `<pre><n><post>`.
fn tag_text(pre: &str, n: usize, post: &str) -> (r: String)
    ensures
        r@ == pre@ + decimal(n as nat) + post@,
{
    let mut v = chars_of(pre);
    push_decimal(&mut v, n as u64);
    push_str(&mut v, post);
    string_of(&v)
}

/// `text` renumbered by `pairs`, with the count.
fn renumber_text(text: &String, pairs: &Vec<(usize, usize)>) -> (r: (String, usize))
    ensures
        (r.0@, r.1 as nat) == renumbered(text@, level_views(pairs@)),
{
    let ghost pv = level_views(pairs@);
    let mut modified = text.clone();
    let mut total: usize = 0;
    let mut k: usize = 0;
    proof {
        assert(pv.take(0) =~= Seq::<(nat, nat)>::empty());
    }
    while k < pairs.len()
        invariant
            k <= pairs@.len(),
            pv == level_views(pairs@),
            (modified@, total as nat) == renumbered(text@, pv.take(k as int)),
        decreases pairs.len() - k,
    {
        let (from, to) = pairs[k];
        let open = tag_text("<h", from, "([^>]*)>");
        let close = tag_text("</h", from, ">");
        let orep = tag_text("<h", to, "$1>");
        let crep = tag_text("</h", to, ">");
        let sc = regex_scan(open.as_str(), modified.as_str());
        proof {
            assert(match_views(sc.matches@).len() == sc.matches@.len());
            assert(pv.take(k + 1).drop_last() =~= pv.take(k as int));
            assert(pv.take(k + 1).last() == (from as nat, to as nat));
        }
        total = total.saturating_add(sc.matches.len());
        let step = regex_replace_all(open.as_str(), modified.as_str(), orep.as_str());
        modified = regex_replace_all(close.as_str(), step.as_str(), crep.as_str());
        k = k + 1;
    }
    proof {
        assert(pv.take(k as int) =~= pv);
    }
    (modified, total)
}

/// Renumbers headings through `mapping` (such as `h2->h1,h3->h2`) in every
/// UTF-8 resource, pair by pair; returns how many opening tags were
/// renumbered (saturating). An error for a malformed mapping, with the
/// book untouched.
pub fn restructure_headings(book: &mut EpubBook, mapping: &str) -> (r: Result<usize, EpxError>)
    requires
        old(book).wf(),
    ensures
        final(book).wf(),
        r is Err <==> heading_map(mapping@) is None,
        r is Err ==> *final(book) == *old(book),
        final(book).manifest == old(book).manifest,
        final(book).spine == old(book).spine,
        final(book).metadata == old(book).metadata,
        final(book).navigation == old(book).navigation,
        final(book).resources@.dom() == old(book).resources@.dom(),
        r matches Ok(n) ==> {
            let pairs = heading_map(mapping@)->Some_0;
            &&& forall|k: Seq<char>| #![trigger final(book).resources.bytes_view()[k]] old(book).resources@.contains_key(k)
                ==> final(book).resources.bytes_view()[k] == restructured(old(book).resources.bytes_view()[k], pairs)
            &&& n as nat == restructure_count(old(book).resources.key_seq(), old(book).resources.bytes_view(), pairs,
                old(book).resources.entries@.len() as int)
        },
{
    let pairs = match parse_heading_map(mapping) {
        Ok(p) => p,
        Err(e) => return Err(e),
    };
    let ghost pv = level_views(pairs@);
    let ghost pre = *book;
    let ghost keys = pre.resources.key_seq();
    let ghost orig = pre.resources.bytes_view();
    let mut total: usize = 0;
    let mut i: usize = 0;
    while i < book.resources.entries.len()
        invariant
            book.wf(),
            pre.wf(),
            i <= book.resources.entries@.len(),
            book.manifest == pre.manifest,
            book.spine == pre.spine,
            book.metadata == pre.metadata,
            book.navigation == pre.navigation,
            book.resources@.dom() == pre.resources@.dom(),
            book.resources.key_seq() == keys,
            keys == pre.resources.key_seq(),
            orig == pre.resources.bytes_view(),
            keys.len() == book.resources.entries@.len(),
            pv == level_views(pairs@),
            total as nat == restructure_count(keys, orig, pv, i as int),
            forall|j: int| 0 <= j < keys.len() ==> #[trigger] book.resources.bytes_view()[keys[j]]
                == if j < i { restructured(orig[keys[j]], pv) } else { orig[keys[j]] },
        decreases book.resources.entries.len() - i,
    {
        proof {
            book.resources.lemma_entry(i as int);
            pre.resources.lemma_entry(i as int);
            assert(keys[i as int] == book.resources.entries@[i as int].0@);
        }
        let key = book.resources.entries[i].0.clone();
        let ghost b = book.resources.entries@[i as int].1@;
        proof {
            book.resources.lemma_bytes_view(keys[i as int]);
            assert(book.resources.bytes_view()[keys[i as int]] == orig[keys[i as int]]);
            assert(b == orig[keys[i as int]]);
        }
        match utf8_decode(book.resources.entries[i].1.clone()) {
            Some(xhtml) => {
                let (modified, count) = renumber_text(&xhtml, &pairs);
                total = total.saturating_add(count);
                if !str_eq(modified.as_str(), xhtml.as_str()) {
                    proof {
                        assert(book.resources.has_key(key@)) by {
                            assert(book.resources.entries@[i as int].0@ == key@);
                        }
                    }
                    let ghost before = book.resources.bytes_view();
                    let ghost bd = book.resources@.dom();
                    book.resources.insert_bytes(key, modified.as_str().as_bytes_vec());
                    proof {
                        assert(bd.insert(keys[i as int]) =~= bd);
                        assert forall|j: int| 0 <= j < keys.len() implies #[trigger] book.resources.bytes_view()[keys[j]]
                            == if j < i + 1 { restructured(orig[keys[j]], pv) } else { orig[keys[j]] } by {
                            if j != i {
                                assert(keys[j] != keys[i as int]) by {
                                    if j < i { assert(pre.resources.entries@[j].0@ != pre.resources.entries@[i as int].0@); }
                                    else { assert(pre.resources.entries@[i as int].0@ != pre.resources.entries@[j].0@); }
                                }
                            }
                        }
                    }
                } else {
                    proof {
                        vstd::utf8::decode_utf8_encode_utf8(b);
                        assert forall|j: int| 0 <= j < keys.len() implies #[trigger] book.resources.bytes_view()[keys[j]]
                            == if j < i + 1 { restructured(orig[keys[j]], pv) } else { orig[keys[j]] } by {}
                    }
                }
            },
            None => {
                proof {
                    assert forall|j: int| 0 <= j < keys.len() implies #[trigger] book.resources.bytes_view()[keys[j]]
                        == if j < i + 1 { restructured(orig[keys[j]], pv) } else { orig[keys[j]] } by {}
                }
            },
        }
        i = i + 1;
    }
    proof {
        assert forall|k: Seq<char>| #![trigger book.resources.bytes_view()[k]] pre.resources@.contains_key(k)
            implies book.resources.bytes_view()[k] == restructured(orig[k], pv) by {
            let j = pre.resources.index_of(k);
            assert(keys[j] == k);
        }
    }
    Ok(total)
}

} // verus!
