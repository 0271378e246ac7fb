//! Checking the cross-references of an extracted book.

use vstd::prelude::*;
use crate::html_to_md::split_on;
use crate::patterns::{group, match_views, regex_scan, regex_scan_of};
use crate::text::{append_chars, chars_of, push_str, seq_eq, slice, string_of};

verus! {

/// Report of a link check.
pub struct LinkValidationReport {
    pub warnings: Vec<String>,
    pub total_links: usize,
    pub valid_links: usize,
    pub dangling_fragments: usize,
    pub missing_files: usize,
}

/// The lower-case form of `s`.
pub uninterp spec fn lower_of(s: Seq<char>) -> Seq<char>;

/// Whether `c` is alphabetic or numeric in Unicode's sense.
pub uninterp spec fn is_alnum(c: char) -> bool;

/// Relies on `str::to_lowercase`: the lower-case form of `s`, a function
/// of `s` alone.
#[verifier::external_body]
fn lowercase(s: &str) -> (r: String)
    ensures
        r@ == lower_of(s@),
{
    s.to_lowercase()
}

/// Relies on `char::is_alphanumeric`.
#[verifier::external_body]
fn alphanumeric(c: char) -> (r: bool)
    ensures
        r == is_alnum(c),
{
    c.is_alphanumeric()
}

/// `s` with every character that is not alphanumeric made a `-`.
pub open spec fn dashed(s: Seq<char>) -> Seq<char> {
    s.map_values(|c: char| if is_alnum(c) { c } else { '-' })
}

/// The non-empty pieces joined by `-`.
pub open spec fn join_nonempty(ps: Seq<Seq<char>>) -> Seq<char>
    decreases ps.len(),
{
    if ps.len() == 0 {
        Seq::<char>::empty()
    } else {
        let rest = join_nonempty(ps.drop_last());
        if ps.last().len() == 0 {
            rest
        } else if rest.len() == 0 {
            ps.last()
        } else {
            rest + seq!['-'] + ps.last()
        }
    }
}

/// The anchor a Markdown renderer derives from a heading: lower case, runs
/// of other characters than letters and digits as single `-`, none at the
/// ends.
pub open spec fn heading_slug(h: Seq<char>) -> Seq<char> {
    join_nonempty(split_on(dashed(lower_of(h)), '-'))
}

/// The anchor a Markdown renderer derives from a heading.
pub fn slugify_heading(heading: &str) -> (r: String)
    ensures
        r@ == heading_slug(heading@),
{
    let low = chars_of(lowercase(heading).as_str());
    let mut d: Vec<char> = Vec::new();
    let mut i: usize = 0;
    while i < low.len()
        invariant
            i <= low@.len(),
            d@ == dashed(low@.take(i as int)),
        decreases low.len() - i,
    {
        let c = low[i];
        d.push(if alphanumeric(c) { c } else { '-' });
        i = i + 1;
        proof {
            assert(d@ =~= dashed(low@.take(i as int)));
        }
    }
    proof {
        assert(low@.take(i as int) =~= low@);
    }
    let pieces = crate::html_to_md::split_pieces(&d, '-');
    let ghost pv = crate::paths::views(pieces@);
    let mut out: Vec<char> = Vec::new();
    let mut k: usize = 0;
    proof {
        assert(pv.take(0) =~= Seq::<Seq<char>>::empty());
    }
    while k < pieces.len()
        invariant
            k <= pieces@.len(),
            pv == crate::paths::views(pieces@),
            out@ == join_nonempty(pv.take(k as int)),
        decreases pieces.len() - k,
    {
        proof {
            assert(pv.take(k + 1).drop_last() =~= pv.take(k as int));
            assert(pv.take(k + 1).last() == pieces@[k as int]@);
        }
        if pieces[k].len() > 0 {
            if out.len() > 0 {
                out.push('-');
            }
            append_chars(&mut out, &pieces[k]);
        }
        k = k + 1;
        proof {
            assert(out@ =~= join_nonempty(pv.take(k as int)));
        }
    }
    proof {
        assert(pv.take(k as int) =~= pv);
    }
    string_of(&out)
}

/// Raw HTML anchors.
pub const HTML_ANCHOR_PATTERN: &'static str = "<a id=\"([^\"]+)\"></a>";
/// Heading attributes.
pub const HEADING_ATTR_PATTERN: &'static str = "(?m)^#{1,6}\\s+.+\\{#([^}]+)\\}\\s*$";
/// Pandoc spans.
pub const SPAN_ANCHOR_PATTERN: &'static str = "\\[\\]\\{#([^}]+)\\}";
/// Heading texts.
pub const HEADING_TEXT_PATTERN: &'static str = "(?m)^#{1,6}\\s+(.+?)(?:\\s*\\{#[^}]+\\})?\\s*$";
/// Links with a fragment.
pub const FRAGMENT_LINK_PATTERN: &'static str = "\\]\\(([^)]*#[^)]+)\\)";

/// Group 1 of every match of `p` in `text`.
pub open spec fn firsts(p: Seq<char>, text: Seq<char>) -> Seq<Seq<char>> {
    regex_scan_of(p, text).0.map_values(|m: (Seq<char>, Seq<Option<Seq<char>>>)| group(m.1, 1))
}

/// The anchors a chapter offers: raw anchors, heading attributes, spans and
/// heading slugs.
pub open spec fn anchors_of(content: Seq<char>) -> Seq<Seq<char>> {
    firsts(HTML_ANCHOR_PATTERN@, content) + firsts(HEADING_ATTR_PATTERN@, content) + firsts(SPAN_ANCHOR_PATTERN@, content)
        + firsts(HEADING_TEXT_PATTERN@, content).map_values(|h: Seq<char>| heading_slug(h))
}

/// The file and fragment a link points to (the file is `current` when the
/// link has no file part).
pub open spec fn link_target(link: Seq<char>, current: Seq<char>) -> (Seq<char>, Seq<char>) {
    let i = choose|i: int| 0 <= i < link.len() && link[i] == '#' && forall|j: int| 0 <= j < i ==> link[j] != '#';
    let file = link.take(i);
    (if file.len() == 0 { current } else { file }, link.skip(i + 1))
}

/// The index of the first file named `f`.
pub open spec fn first_file(files: Seq<(String, String)>, f: Seq<char>) -> Option<int>
    decreases files.len(),
{
    if files.len() == 0 {
        None
    } else {
        match first_file(files.drop_last(), f) {
            Some(k) => Some(k),
            None => if files.last().0@ == f { Some(files.len() - 1) } else { None },
        }
    }
}

/// A first match in a prefix is the first match of the whole.
proof fn lemma_first_file_prefix(files: Seq<(String, String)>, f: Seq<char>, n: int)
    requires
        0 <= n <= files.len(),
        first_file(files.take(n), f) is Some,
    ensures
        first_file(files, f) == first_file(files.take(n), f),
    decreases files.len() - n,
{
    if n < files.len() {
        assert(files.take(n + 1).drop_last() =~= files.take(n));
        lemma_first_file_prefix(files, f, n + 1);
    } else {
        assert(files.take(n) =~= files);
    }
}

/// How a link fares: 0 when its file is missing, 1 when its fragment is
/// dangling, 2 when it resolves.
pub open spec fn link_kind(files: Seq<(String, String)>, link: Seq<char>, current: Seq<char>) -> int {
    if !(exists|i: int| 0 <= i < link.len() && link[i] == '#') {
        2
    } else {
        let (f, frag) = link_target(link, current);
        match first_file(files, f) {
            None => 0,
            Some(k) => if frag.len() > 0 && !anchors_of(files[k].1@).contains(frag) { 1 } else { 2 },
        }
    }
}

/// `a + 1`, capped at `usize::MAX`.
pub open spec fn bump(a: nat) -> nat {
    if a >= usize::MAX { usize::MAX as nat } else { a + 1 }
}

/// The link counts (total, valid, dangling, missing) after the links `ls`
/// of file `current`, starting from `c`.
pub open spec fn tally(files: Seq<(String, String)>, current: Seq<char>, ls: Seq<Seq<char>>, c: (nat, nat, nat, nat)) -> (nat, nat, nat, nat)
    decreases ls.len(),
{
    if ls.len() == 0 {
        c
    } else {
        let (t, v, d, m) = tally(files, current, ls.drop_last(), c);
        let k = link_kind(files, ls.last(), current);
        (bump(t), if k == 2 { bump(v) } else { v }, if k == 1 { bump(d) } else { d }, if k == 0 { bump(m) } else { m })
    }
}

/// How many of the links `ls` of file `current` give a warning (a missing
/// file or a dangling fragment).
pub open spec fn warn_tally(files: Seq<(String, String)>, current: Seq<char>, ls: Seq<Seq<char>>) -> nat
    decreases ls.len(),
{
    if ls.len() == 0 {
        0
    } else {
        warn_tally(files, current, ls.drop_last()) + if link_kind(files, ls.last(), current) == 2 { 0nat } else { 1nat }
    }
}

/// How many warnings the first `n` files give.
pub open spec fn file_warns(files: Seq<(String, String)>, n: int) -> nat
    decreases n,
{
    if n <= 0 {
        0
    } else {
        file_warns(files, n - 1) + warn_tally(files, files[n - 1].0@, firsts(FRAGMENT_LINK_PATTERN@, files[n - 1].1@))
    }
}

/// The link counts over the first `n` files.
pub open spec fn file_tally(files: Seq<(String, String)>, n: int) -> (nat, nat, nat, nat)
    decreases n,
{
    if n <= 0 {
        (0, 0, 0, 0)
    } else {
        tally(files, files[n - 1].0@, firsts(FRAGMENT_LINK_PATTERN@, files[n - 1].1@), file_tally(files, n - 1))
    }
}

/// The anchors of chapter `content`.
fn collect_anchors(content: &str) -> (r: Vec<String>)
    ensures
        crate::paths::str_views(r@) == anchors_of(content@),
{
    let mut out: Vec<String> = Vec::new();
    proof {
        assert(crate::paths::str_views(out@) =~= Seq::<Seq<char>>::empty());
    }
    push_firsts(&mut out, HTML_ANCHOR_PATTERN, content, false);
    push_firsts(&mut out, HEADING_ATTR_PATTERN, content, false);
    push_firsts(&mut out, SPAN_ANCHOR_PATTERN, content, false);
    push_firsts(&mut out, HEADING_TEXT_PATTERN, content, true);
    proof {
        assert(Seq::<Seq<char>>::empty() + firsts(HTML_ANCHOR_PATTERN@, content@) =~= firsts(HTML_ANCHOR_PATTERN@, content@));
    }
    out
}

/// Appends group 1 of every match of `p` (slugged when `slug`).
fn push_firsts(out: &mut Vec<String>, p: &str, text: &str, slug: bool)
    ensures
        crate::paths::str_views(final(out)@) == crate::paths::str_views(old(out)@) + (if slug {
            firsts(p@, text@).map_values(|h: Seq<char>| heading_slug(h))
        } else {
            firsts(p@, text@)
        }),
{
    let sc = regex_scan(p, text);
    let ghost fs = firsts(p@, text@);
    let ghost want = if slug { fs.map_values(|h: Seq<char>| heading_slug(h)) } else { fs };
    let ghost base = crate::paths::str_views(out@);
    let mut i: usize = 0;
    proof {
        assert(base + want.take(0) =~= base);
    }
    while i < sc.matches.len()
        invariant
            i <= sc.matches@.len(),
            fs == firsts(p@, text@),
            want == (if slug { fs.map_values(|h: Seq<char>| heading_slug(h)) } else { fs }),
            match_views(sc.matches@) == regex_scan_of(p@, text@).0,
            crate::paths::str_views(out@) == base + want.take(i as int),
        decreases sc.matches.len() - i,
    {
        let g = crate::html_to_md::group_string(&sc.matches[i].groups, 1);
        proof {
            assert(match_views(sc.matches@)[i as int].1 == crate::patterns::group_views(sc.matches@[i as int].groups@));
            assert(fs[i as int] == g@);
        }
        let v = if slug { slugify_heading(g.as_str()) } else { g };
        let ghost pre = out@;
        out.push(v);
        proof {
            assert(want.take(i + 1) =~= want.take(i as int).push(want[i as int]));
            assert(crate::paths::str_views(out@) =~= crate::paths::str_views(pre).push(want[i as int]));
        }
        i = i + 1;
    }
    proof {
        assert(want.take(i as int) =~= want);
    }
}

/// Whether `v` holds `s`.
fn holds(v: &Vec<String>, s: &Vec<char>) -> (r: bool)
    ensures
        r == crate::paths::str_views(v@).contains(s@),
{
    let mut i: usize = 0;
    while i < v.len()
        invariant
            i <= v@.len(),
            forall|j: int| 0 <= j < i ==> v@[j]@ != s@,
        decreases v.len() - i,
    {
        if seq_eq(&chars_of(v[i].as_str()), s) {
            proof {
                assert(crate::paths::str_views(v@)[i as int] == s@);
            }
            return true;
        }
        i = i + 1;
    }
    proof {
        if crate::paths::str_views(v@).contains(s@) {
            let j = choose|j: int| 0 <= j < v@.len() && crate::paths::str_views(v@)[j] == s@;
            assert(v@[j]@ == s@);
        }
    }
    false
}

/// Checks every fragment link (`](file.md#id)` or `](#id)`) of the
/// chapters `files` (name, Markdown) against the files and the anchors
/// they offer: a link to a missing file and a fragment that the file does
/// not offer each give a warning; counts saturate.
pub fn validate_links(files: &Vec<(String, String)>) -> (r: LinkValidationReport)
    ensures
        file_tally(files@, files@.len() as int) == (r.total_links as nat, r.valid_links as nat, r.dangling_fragments as nat, r.missing_files as nat),
        r.warnings@.len() == file_warns(files@, files@.len() as int),
{
    let mut anchors: Vec<Vec<String>> = Vec::new();
    let mut a: usize = 0;
    while a < files.len()
        invariant
            a <= files@.len(),
            anchors@.len() == a,
            forall|j: int| 0 <= j < a ==> crate::paths::str_views(#[trigger] anchors@[j]@) == anchors_of(files@[j].1@),
        decreases files.len() - a,
    {
        anchors.push(collect_anchors(files[a].1.as_str()));
        a = a + 1;
    }
    let mut warnings: Vec<String> = Vec::new();
    let mut total: usize = 0;
    let mut valid: usize = 0;
    let mut dangling: usize = 0;
    let mut missing: usize = 0;
    let mut f: usize = 0;
    while f < files.len()
        invariant
            f <= files@.len(),
            anchors@.len() == files@.len(),
            forall|j: int| 0 <= j < files@.len() ==> crate::paths::str_views(#[trigger] anchors@[j]@) == anchors_of(files@[j].1@),
            file_tally(files@, f as int) == (total as nat, valid as nat, dangling as nat, missing as nat),
            warnings@.len() == file_warns(files@, f as int),
        decreases files.len() - f,
    {
        let name = &files[f].0;
        let sc = regex_scan(FRAGMENT_LINK_PATTERN, files[f].1.as_str());
        let ghost ls = firsts(FRAGMENT_LINK_PATTERN@, files@[f as int].1@);
        let ghost start = (total as nat, valid as nat, dangling as nat, missing as nat);
        let ghost wstart = warnings@.len();
        let mut l: usize = 0;
        proof {
            assert(ls.take(0) =~= Seq::<Seq<char>>::empty());
        }
        while l < sc.matches.len()
            invariant
                f < files@.len(),
                l <= sc.matches@.len(),
                anchors@.len() == files@.len(),
                forall|j: int| 0 <= j < files@.len() ==> crate::paths::str_views(#[trigger] anchors@[j]@) == anchors_of(files@[j].1@),
                ls == firsts(FRAGMENT_LINK_PATTERN@, files@[f as int].1@),
                match_views(sc.matches@) == regex_scan_of(FRAGMENT_LINK_PATTERN@, files@[f as int].1@).0,
                name@ == files@[f as int].0@,
                tally(files@, name@, ls.take(l as int), start) == (total as nat, valid as nat, dangling as nat, missing as nat),
                warnings@.len() == wstart + warn_tally(files@, name@, ls.take(l as int)),
            decreases sc.matches.len() - l,
        {
            let ls_str = crate::html_to_md::group_string(&sc.matches[l].groups, 1);
            let link = chars_of(ls_str.as_str());
            proof {
                assert(match_views(sc.matches@)[l as int].1 == crate::patterns::group_views(sc.matches@[l as int].groups@));
                assert(ls[l as int] == link@);
                assert(ls.take(l + 1).drop_last() =~= ls.take(l as int));
                assert(ls.take(l + 1).last() == link@);
            }
            total = total.saturating_add(1);
            let kind = link_kind_of(files, &anchors, &link, name, &mut warnings);
            if kind == 2 {
                valid = valid.saturating_add(1);
            } else if kind == 1 {
                dangling = dangling.saturating_add(1);
            } else {
                missing = missing.saturating_add(1);
            }
            l = l + 1;
        }
        proof {
            assert(ls.take(l as int) =~= ls);
        }
        f = f + 1;
    }
    LinkValidationReport { warnings, total_links: total, valid_links: valid, dangling_fragments: dangling, missing_files: missing }
}

/// The index of the first file named `target`.
fn find_file(files: &Vec<(String, String)>, target: &Vec<char>) -> (r: Option<usize>)
    ensures
        match r {
            Some(t) => first_file(files@, target@) == Some(t as int) && t < files@.len(),
            None => first_file(files@, target@) is None,
        },
{
    let mut t: usize = 0;
    proof {
        assert(files@.take(0) =~= Seq::<(String, String)>::empty());
    }
    while t < files.len()
        invariant
            t <= files@.len(),
            first_file(files@.take(t as int), target@) is None,
        decreases files.len() - t,
    {
        proof {
            assert(files@.take(t + 1).drop_last() =~= files@.take(t as int));
        }
        if seq_eq(&chars_of(files[t].0.as_str()), target) {
            proof {
                lemma_first_file_prefix(files@, target@, t + 1);
            }
            return Some(t);
        }
        t = t + 1;
    }
    proof {
        assert(files@.take(t as int) =~= files@);
    }
    None
}

/// How link `link` of file `name` fares (see `link_kind`), with a warning
/// added for a missing file or a dangling fragment.
fn link_kind_of(
    files: &Vec<(String, String)>,
    anchors: &Vec<Vec<String>>,
    link: &Vec<char>,
    name: &String,
    warnings: &mut Vec<String>,
) -> (r: u8)
    requires
        anchors@.len() == files@.len(),
        forall|j: int| 0 <= j < files@.len() ==> crate::paths::str_views(#[trigger] anchors@[j]@) == anchors_of(files@[j].1@),
    ensures
        r as int == link_kind(files@, link@, name@),
        final(warnings)@.len() == old(warnings)@.len() + if r == 2 { 0nat } else { 1nat },
{
    let mut h: usize = 0;
    while h < link.len() && link[h] != '#'
        invariant
            h <= link@.len(),
            forall|j: int| 0 <= j < h ==> link@[j] != '#',
        decreases link.len() - h,
    {
        h = h + 1;
    }
    if h == link.len() {
        proof {
            if exists|i: int| 0 <= i < link@.len() && link@[i] == '#' {
                let i = choose|i: int| 0 <= i < link@.len() && link@[i] == '#';
                assert(link@[i] != '#');
            }
        }
        return 2;
    }
    proof {
        assert(link@[h as int] == '#');
        let c = choose|i: int| 0 <= i < link@.len() && link@[i] == '#' && forall|j: int| 0 <= j < i ==> link@[j] != '#';
        if c < h {
        } else if c > h {
            assert(link@[h as int] == '#');
        }
    }
    let n = link.len();
    let file_part = slice(link, 0, h);
    let frag = slice(link, h + 1, n);
    let target: Vec<char> = if file_part.len() == 0 { chars_of(name.as_str()) } else { file_part };
    proof {
        assert(frag@ =~= link@.skip(h + 1));
        assert(link_target(link@, name@) == (target@, frag@));
    }
    match find_file(files, &target) {
        Some(t) => {
            if frag.len() > 0 && !holds(&anchors[t], &frag) {
                let mut w = chars_of(name.as_str());
                push_str(&mut w, ": dangling fragment '#");
                append_chars(&mut w, &frag);
                push_str(&mut w, "' in '");
                append_chars(&mut w, &target);
                push_str(&mut w, "'");
                warnings.push(string_of(&w));
                return 1;
            }
            return 2;
        },
        None => {},
    }
    let mut w = chars_of(name.as_str());
    push_str(&mut w, ": link to non-existent file '");
    append_chars(&mut w, &target);
    push_str(&mut w, "'");
    warnings.push(string_of(&w));
    0
}

} // verus!
