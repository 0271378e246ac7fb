//! Names and lookups for the chapters of an extracted book.

use vstd::prelude::*;
use vstd::utf8::{decode_utf8, valid_utf8};

use crate::epub::{opf_dir_of, EpubBook, ManifestItem, NavPoint};
use crate::error::EpxError;
use crate::html_to_md::{is_length_order, postprocessed, preprocessed, xhtml_to_markdown};
use crate::patterns::{group, markdown_of, regex_scan, regex_scan_of};
use crate::numfmt::{push_padded, push_decimal, zero_padded, decimal};
use crate::paths::{base_name, build_path_map, find_item, find_manifest_item, lemma_find_item, path_map};
use crate::strmap::StrMap;
use crate::summary::before_hash;
use crate::text::{append_chars, chars_of, ends_with, is_suffix, parse_index, parsed_index, push_str, seq_eq, slice, string_of, utf8_decode, rfind_char, is_last_index};

verus! {

/// The slug that the slug crate makes of `s`.
pub uninterp spec fn slug_of(s: Seq<char>) -> Seq<char>;

/// Relies on `slug::slugify`: the slug of `s` (lower-case ASCII words
/// joined by `-`), a function of `s` alone.
#[verifier::external_body]
pub fn slugify(s: &str) -> (r: String)
    ensures
        r@ == slug_of(s@),
{
    slug::slugify(s)
}

/// Point `p` stands for the document `target` (both without fragment):
/// the same href, or one that `target` ends with.
pub open spec fn label_matches(p: NavPoint, target: Seq<char>) -> bool {
    before_hash(p.href@) == target || is_suffix(before_hash(p.href@), target)
}

/// The label of the first point, depth first, that stands for `target`.
pub open spec fn toc_label(ps: Seq<NavPoint>, target: Seq<char>) -> Option<Seq<char>>
    decreases ps,
{
    if ps.len() == 0 {
        None
    } else {
        match toc_label(ps.drop_last(), target) {
            Some(l) => Some(l),
            None => if label_matches(ps.last(), target) {
                Some(ps.last().label@)
            } else {
                toc_label(ps.last().children@, target)
            },
        }
    }
}

/// The href up to its first `#`.
fn href_base(h: &str) -> (r: Vec<char>)
    ensures
        r@ == before_hash(h@),
{
    let v = chars_of(h);
    let mut i: usize = 0;
    while i < v.len()
        invariant
            i <= v@.len(),
            v@ == h@,
            forall|j: int| 0 <= j < i ==> v@[j] != '#',
        decreases v.len() - i,
    {
        if v[i] == '#' {
            proof {
                let w = i as int;
                let c = choose|c: int| 0 <= c < v@.len() && v@[c] == '#' && forall|j: int| 0 <= j < c ==> v@[j] != '#';
                if c < w {
                } else if c > w {
                    assert(v@[w] != '#');
                }
            }
            return slice(&v, 0, i);
        }
        i = i + 1;
    }
    v
}

/// The label of the first point, depth first, whose href (fragment
/// removed) is the href of `href` or a suffix of it.
pub fn find_toc_label(toc: &Vec<NavPoint>, href: &str) -> (r: Option<String>)
    ensures
        match r {
            Some(l) => toc_label(toc@, before_hash(href@)) == Some(l@),
            None => toc_label(toc@, before_hash(href@)) is None,
        },
    decreases toc@,
{
    let target = href_base(href);
    let mut i: usize = 0;
    proof {
        assert(toc@.take(0) =~= Seq::<NavPoint>::empty());
    }
    while i < toc.len()
        invariant
            i <= toc@.len(),
            target@ == before_hash(href@),
            toc_label(toc@.take(i as int), target@) is None,
        decreases toc.len() - i,
    {
        let point = &toc[i];
        proof {
            let t = toc@.take(i + 1);
            assert(t.drop_last() =~= toc@.take(i as int));
            assert(t.last() == *point);
        }
        let ph = href_base(point.href.as_str());
        if seq_eq(&ph, &target) || ends_with(&target, &ph) {
            proof {
                lemma_toc_label_prefix(toc@, target@, i + 1);
            }
            return Some(point.label.clone());
        }
        assert(decreases_to!(toc@ => toc@[i as int].children@));
        match find_toc_label(&point.children, href) {
            Some(l) => {
                proof {
                    lemma_toc_label_prefix(toc@, target@, i + 1);
                }
                return Some(l);
            },
            None => {},
        }
        i = i + 1;
    }
    proof {
        assert(toc@.take(i as int) =~= toc@);
    }
    None
}

/// A first match in a prefix is the first match of the whole.
proof fn lemma_toc_label_prefix(ps: Seq<NavPoint>, target: Seq<char>, n: int)
    requires
        0 <= n <= ps.len(),
        toc_label(ps.take(n), target) is Some,
    ensures
        toc_label(ps, target) == toc_label(ps.take(n), target),
    decreases ps.len() - n,
{
    if n < ps.len() {
        assert(ps.take(n + 1).drop_last() =~= ps.take(n));
        lemma_toc_label_prefix(ps, target, n + 1);
    } else {
        assert(ps.take(n) =~= ps);
    }
}

/// The stem of the last component of `href`: its name without the part
/// from its last `.` on.
pub open spec fn file_stem(href: Seq<char>) -> Seq<char> {
    let name = base_name(href);
    if exists|i: int| is_last_index(name, '.', i) {
        name.take(choose|i: int| is_last_index(name, '.', i))
    } else {
        name
    }
}

/// The stem of the last component of `href`.
fn file_stem_of(href: &str) -> (r: Vec<char>)
    ensures
        r@ == file_stem(href@),
{
    let h = chars_of(href);
    let d = crate::epub::dir_of(&h);
    let name = slice(&h, d.len(), h.len());
    match rfind_char(&name, '.') {
        Some(i) => {
            proof {
                assert forall|j: int| is_last_index(name@, '.', j) implies j == i by {}
            }
            slice(&name, 0, i)
        },
        None => name,
    }
}

/// The Markdown file name of chapter `index`: the two-digit index, then
/// the slug of its table-of-contents label (else of its file stem, else
/// `chapter-<index>`).
pub open spec fn chapter_file_name(index: nat, toc: Seq<NavPoint>, href: Seq<char>) -> Seq<char> {
    let base = match toc_label(toc, before_hash(href)) {
        Some(l) => slug_of(l),
        None => slug_of(file_stem(href)),
    };
    let name = if base.len() == 0 { "chapter-"@ + decimal(index) } else { base };
    zero_padded(index, 2) + "-"@ + name + ".md"@
}

/// The Markdown file name of chapter `index` whose manifest href is `href`.
pub fn chapter_filename(index: usize, book: &EpubBook, href: &str) -> (r: String)
    ensures
        r@ == chapter_file_name(index as nat, book.navigation.toc@, href@),
{
    let base = match find_toc_label(&book.navigation.toc, href) {
        Some(label) => slugify(label.as_str()),
        None => {
            let stem = string_of(&file_stem_of(href));
            slugify(stem.as_str())
        },
    };
    let bv = chars_of(base.as_str());
    let name: Vec<char> = if bv.len() == 0 {
        let mut n = chars_of("chapter-");
        push_decimal(&mut n, index as u64);
        n
    } else {
        bv
    };
    let mut out: Vec<char> = Vec::new();
    push_padded(&mut out, index as u64, 2);
    push_str(&mut out, "-");
    append_chars(&mut out, &name);
    push_str(&mut out, ".md");
    proof {
        assert(out@ =~= chapter_file_name(index as nat, book.navigation.toc@, href@));
    }
    string_of(&out)
}

/// Both items hold the same values.
pub open spec fn same_manifest_item(a: ManifestItem, b: ManifestItem) -> bool {
    &&& a.id@ == b.id@
    &&& a.href@ == b.href@
    &&& a.media_type@ == b.media_type@
    &&& match (a.properties, b.properties) {
        (Some(x), Some(y)) => x@ == y@,
        (None, None) => true,
        _ => false,
    }
}

impl ManifestItem {
    /// A copy of the item.
    pub fn duplicate(&self) -> (r: ManifestItem)
        ensures
            same_manifest_item(*self, r),
    {
        ManifestItem {
            id: self.id.clone(),
            href: self.href.clone(),
            media_type: self.media_type.clone(),
            properties: match &self.properties {
                Some(p) => Some(p.clone()),
                None => None,
            },
        }
    }
}

/// The spine position of the chapter that `id_or_index` names: an index
/// in range whose item is in the manifest, else the first spine item with
/// that idref that is.
pub open spec fn chapter_position(book: EpubBook, id_or_index: Seq<char>) -> Option<int> {
    let p = parsed_index(id_or_index);
    if p is Some && (p->Some_0 as int) < book.spine@.len()
        && find_item(book.manifest@, book.spine@[p->Some_0 as int].idref@) is Some {
        Some(p->Some_0 as int)
    } else if exists|i: int| is_first_chapter_with(book, id_or_index, i) {
        Some(choose|i: int| is_first_chapter_with(book, id_or_index, i))
    } else {
        None
    }
}

/// `i` is the first spine item with idref `id` that is in the manifest.
pub open spec fn is_first_chapter_with(book: EpubBook, id: Seq<char>, i: int) -> bool {
    &&& 0 <= i < book.spine@.len()
    &&& book.spine@[i].idref@ == id
    &&& find_item(book.manifest@, id) is Some
    &&& forall|j: int| 0 <= j < i ==> !(#[trigger] book.spine@[j].idref@ == id && find_item(book.manifest@, id) is Some)
}

/// The manifest item and spine position of the chapter named by
/// `id_or_index`; an error when there is none.
pub fn find_chapter(book: &EpubBook, id_or_index: &str) -> (r: Result<(ManifestItem, usize), EpxError>)
    ensures
        match r {
            Ok((item, i)) => chapter_position(*book, id_or_index@) == Some(i as int)
                && same_manifest_item(item, book.manifest@[find_item(book.manifest@, book.spine@[i as int].idref@)->Some_0]),
            Err(e) => chapter_position(*book, id_or_index@) is None && e is NotFound,
        },
{
    match parse_index(id_or_index) {
        Some(index) => {
            if index < book.spine.len() {
                match find_manifest_item(&book.manifest, book.spine[index].idref.as_str()) {
                    Some(j) => {
                        return Ok((book.manifest[j].duplicate(), index));
                    },
                    None => {},
                }
            }
        },
        None => {},
    }
    let mut i: usize = 0;
    while i < book.spine.len()
        invariant
            i <= book.spine@.len(),
            forall|j: int| 0 <= j < i ==> !(#[trigger] book.spine@[j].idref@ == id_or_index@
                && find_item(book.manifest@, id_or_index@) is Some),
            !(parsed_index(id_or_index@) is Some && (parsed_index(id_or_index@)->Some_0 as int) < book.spine@.len()
                && find_item(book.manifest@, book.spine@[parsed_index(id_or_index@)->Some_0 as int].idref@) is Some),
        decreases book.spine.len() - i,
    {
        if crate::text::str_eq(book.spine[i].idref.as_str(), id_or_index) {
            match find_manifest_item(&book.manifest, book.spine[i].idref.as_str()) {
                Some(j) => {
                    proof {
                        assert(is_first_chapter_with(*book, id_or_index@, i as int));
                        let c = choose|c: int| is_first_chapter_with(*book, id_or_index@, c);
                        if c < i {
                        } else if c > i {
                            assert(!(book.spine@[i as int].idref@ == id_or_index@ && find_item(book.manifest@, id_or_index@) is Some));
                        }
                    }
                    return Ok((book.manifest[j].duplicate(), i));
                },
                None => {},
            }
        }
        i = i + 1;
    }
    let mut m = chars_of("chapter not found: ");
    push_str(&mut m, id_or_index);
    Err(EpxError::NotFound(string_of(&m)))
}

/// The text of the chapter named by `id_or_index`: its resource under the
/// OPF directory, when that is there and is UTF-8.
pub open spec fn chapter_resource_text(book: EpubBook, id_or_index: Seq<char>) -> Option<Seq<char>> {
    match chapter_position(book, id_or_index) {
        Some(i) => {
            let item = book.manifest@[find_item(book.manifest@, book.spine@[i].idref@)->Some_0];
            let key = opf_dir_of(book.resources.key_seq()) + item.href@;
            if book.resources.bytes_view().contains_key(key) && valid_utf8(book.resources.bytes_view()[key]) {
                Some(decode_utf8(book.resources.bytes_view()[key]))
            } else {
                None
            }
        },
        None => None,
    }
}

/// The text of the chapter named by `id_or_index`.
fn chapter_text(book: &EpubBook, id_or_index: &str) -> (r: Result<String, EpxError>)
    requires
        book.wf(),
    ensures
        match r {
            Ok(x) => chapter_resource_text(*book, id_or_index@) == Some(x@),
            Err(e) => e is NotFound && chapter_resource_text(*book, id_or_index@) is None,
        },
        chapter_position(*book, id_or_index@) is None ==> r is Err,
{
    let opf_dir = book.detect_opf_dir();
    let (item, index) = match find_chapter(book, id_or_index) {
        Ok(x) => x,
        Err(e) => return Err(e),
    };
    proof {
        lemma_find_item(book.manifest@, book.spine@[index as int].idref@);
    }
    let mut key = chars_of(opf_dir.as_str());
    push_str(&mut key, item.href.as_str());
    let key = string_of(&key);
    let xhtml = match book.resources.get(key.as_str()) {
        Some(bytes) => {
            proof {
                book.resources.lemma_bytes_view(key@);
            }
            utf8_decode(bytes.clone())
        },
        None => None,
    };
    match xhtml {
        Some(x) => Ok(x),
        None => {
            let mut m = chars_of("chapter content not found: ");
            push_str(&mut m, item.href.as_str());
            Err(EpxError::NotFound(string_of(&m)))
        },
    }
}

/// Converts one chapter, named by spine index or idref, to Markdown, with
/// paths rewritten for the extracted tree and no anchors kept.
pub fn extract_single_chapter(book: &EpubBook, id_or_index: &str) -> (r: Result<String, EpxError>)
    requires
        book.wf(),
    ensures
        chapter_position(*book, id_or_index@) is None ==> r is Err && r->Err_0 is NotFound,
        chapter_resource_text(*book, id_or_index@) is None ==> r is Err,
        chapter_resource_text(*book, id_or_index@) is Some ==> r is Ok,
        r matches Ok(md) ==> chapter_resource_text(*book, id_or_index@) is Some && exists|pm: StrMap<String>, order: Seq<usize>|
            pm.text_view() == path_map(book.manifest@, book.spine@, opf_dir_of(book.resources.key_seq()), Seq::empty())
            && is_length_order(pm.entries@, order)
            && md@ == postprocessed(markdown_of(preprocessed(chapter_resource_text(*book, id_or_index@)->Some_0, pm.entries@, order, Seq::empty()))),
{
    let opf_dir = book.detect_opf_dir();
    let path_map = build_path_map(book, opf_dir.as_str(), &[]);
    let x = match chapter_text(book, id_or_index) {
        Ok(x) => x,
        Err(e) => return Err(e),
    };
    let none: Vec<String> = Vec::new();
    proof {
        assert(crate::paths::str_views(none@) =~= Seq::<Seq<char>>::empty());
    }
    Ok(xhtml_to_markdown(x.as_str(), &path_map, &none))
}

/// Links that carry a fragment.
pub const FRAGMENT_LINK_PATTERN: &'static str = "href=\"[^\"]*#([^\"]+)\"";

/// The text of the spine document `i` when it is an (X)HTML or XML
/// resource held under the OPF directory, else empty.
pub open spec fn spine_doc_text(book: EpubBook, opf_dir: Seq<char>, i: int) -> Seq<char> {
    match find_item(book.manifest@, book.spine@[i].idref@) {
        Some(j) => {
            let key = opf_dir + book.manifest@[j].href@;
            if crate::paths::is_text_doc(book.manifest@[j].media_type@) && book.resources.bytes_view().contains_key(key)
                && valid_utf8(book.resources.bytes_view()[key]) {
                decode_utf8(book.resources.bytes_view()[key])
            } else {
                Seq::<char>::empty()
            }
        },
        None => Seq::<char>::empty(),
    }
}

/// The fragment ids that `text` links to.
pub open spec fn fragment_ids(text: Seq<char>) -> Seq<Seq<char>> {
    regex_scan_of(FRAGMENT_LINK_PATTERN@, text).0.map_values(|m: (Seq<char>, Seq<Option<Seq<char>>>)| group(m.1, 1))
}

/// The fragment ids of the first `n` spine documents, in order.
pub open spec fn all_fragment_ids(book: EpubBook, opf_dir: Seq<char>, n: int) -> Seq<Seq<char>>
    decreases n,
{
    if n <= 0 {
        Seq::empty()
    } else {
        all_fragment_ids(book, opf_dir, n - 1) + fragment_ids(spine_doc_text(book, opf_dir, n - 1))
    }
}

/// `s` with every repeat of an earlier element left out.
pub open spec fn dedup(s: Seq<Seq<char>>) -> Seq<Seq<char>>
    decreases s.len(),
{
    if s.len() == 0 {
        s
    } else {
        let d = dedup(s.drop_last());
        if d.contains(s.last()) {
            d
        } else {
            d.push(s.last())
        }
    }
}

/// The text of spine document `i`.
pub(crate) fn spine_text(book: &EpubBook, opf_dir: &str, i: usize) -> (r: String)
    requires
        book.wf(),
        i < book.spine@.len(),
    ensures
        r@ == spine_doc_text(*book, opf_dir@, i as int),
{
    match find_manifest_item(&book.manifest, book.spine[i].idref.as_str()) {
        Some(j) => {
            let m = &book.manifest[j];
            if crate::text::str_contains(m.media_type.as_str(), "html") || crate::text::str_contains(m.media_type.as_str(), "xml") {
                let mut k = chars_of(opf_dir);
                push_str(&mut k, m.href.as_str());
                let key = string_of(&k);
                match book.resources.get(key.as_str()) {
                    Some(b) => {
                        proof {
                            book.resources.lemma_bytes_view(key@);
                        }
                        match utf8_decode(b.clone()) {
                            Some(s) => s,
                            None => String::new(),
                        }
                    },
                    None => String::new(),
                }
            } else {
                String::new()
            }
        },
        None => String::new(),
    }
}

/// The ids that the spine documents link to with a fragment
/// (`href="…#id"`), each once, in order of first appearance.
pub fn collect_referenced_ids(book: &EpubBook, opf_dir: &str) -> (r: Vec<String>)
    requires
        book.wf(),
    ensures
        crate::paths::str_views(r@) == dedup(all_fragment_ids(*book, opf_dir@, book.spine@.len() as int)),
{
    let mut ids: Vec<String> = Vec::new();
    let mut i: usize = 0;
    proof {
        assert(crate::paths::str_views(ids@) =~= dedup(all_fragment_ids(*book, opf_dir@, 0)));
    }
    while i < book.spine.len()
        invariant
            book.wf(),
            i <= book.spine@.len(),
            crate::paths::str_views(ids@) == dedup(all_fragment_ids(*book, opf_dir@, i as int)),
        decreases book.spine.len() - i,
    {
        let text = spine_text(book, opf_dir, i);
        let sc = regex_scan(FRAGMENT_LINK_PATTERN, text.as_str());
        let ghost fids = fragment_ids(text@);
        let ghost base = all_fragment_ids(*book, opf_dir@, i as int);
        let mut k: usize = 0;
        proof {
            assert(base + fids.take(0) =~= base);
        }
        while k < sc.matches.len()
            invariant
                k <= sc.matches@.len(),
                fids == fragment_ids(text@),
                fids.len() == sc.matches@.len(),
                forall|m: int| 0 <= m < fids.len() ==> #[trigger] fids[m] == group(crate::patterns::group_views(sc.matches@[m].groups@), 1),
                crate::paths::str_views(ids@) == dedup(base + fids.take(k as int)),
            decreases sc.matches.len() - k,
        {
            let id = crate::html_to_md::group_string(&sc.matches[k].groups, 1);
            let ghost pre = ids@;
            let mut found = false;
            let mut q: usize = 0;
            while q < ids.len()
                invariant
                    q <= ids@.len(),
                    found == exists|t: int| 0 <= t < q && #[trigger] ids@[t]@ == id@,
                decreases ids.len() - q,
            {
                if crate::text::str_eq(ids[q].as_str(), id.as_str()) {
                    found = true;
                }
                q = q + 1;
            }
            proof {
                let sv = crate::paths::str_views(ids@);
                let ext = base + fids.take(k + 1);
                assert(ext.drop_last() =~= base + fids.take(k as int));
                assert(ext.last() == id@);
                if found {
                    let t = choose|t: int| 0 <= t < q && #[trigger] ids@[t]@ == id@;
                    assert(sv[t] == id@);
                } else {
                    assert forall|t: int| 0 <= t < sv.len() implies sv[t] != id@ by {
                        assert(sv[t] == ids@[t]@);
                    }
                }
                assert(found == sv.contains(id@));
            }
            if !found {
                ids.push(id);
                proof {
                    assert(crate::paths::str_views(ids@) =~= crate::paths::str_views(pre).push(fids[k as int]));
                }
            }
            k = k + 1;
        }
        proof {
            assert(fids.take(k as int) =~= fids);
            assert(text@ == spine_doc_text(*book, opf_dir@, i as int));
        }
        i = i + 1;
    }
    ids
}

} // verus!
