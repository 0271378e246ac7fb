//! Removing and reordering chapters of a book.

use vstd::prelude::*;
use crate::epub::{nav_has_href, opf_dir_of, EpubBook, ManifestItem, NavPoint, SpineItem};
use crate::assemble::{chapter_xhtml, first_heading, markdown_to_xhtml};
use crate::chapter_org::{slug_of, slugify};
use crate::html_to_md::{lines_of, text_lines};
use vstd::string::StrSliceExecFns;
use vstd::utf8::encode_utf8;
use crate::error::EpxError;
use crate::paths::{find_item, find_manifest_item, lemma_find_item};
use crate::text::{chars_of, parse_index, parsed_index, push_str, str_eq, string_of};

verus! {

/// The index of the first spine item with idref `id`.
pub open spec fn find_idref(spine: Seq<SpineItem>, id: Seq<char>) -> Option<int>
    decreases spine.len(),
{
    if spine.len() == 0 {
        None
    } else {
        match find_idref(spine.drop_last(), id) {
            Some(i) => Some(i),
            None => if spine.last().idref@ == id {
                Some(spine.len() - 1)
            } else {
                None
            },
        }
    }
}

/// A first match in a prefix is the first match of the whole.
proof fn lemma_find_idref_prefix(s: Seq<SpineItem>, id: Seq<char>, n: int)
    requires
        0 <= n <= s.len(),
        find_idref(s.take(n), id) is Some,
    ensures
        find_idref(s, id) == find_idref(s.take(n), id),
    decreases s.len() - n,
{
    if n < s.len() {
        assert(s.take(n + 1).drop_last() =~= s.take(n));
        lemma_find_idref_prefix(s, id, n + 1);
    } else {
        assert(s.take(n) =~= s);
    }
}

/// A found index is in range and has the idref.
pub proof fn lemma_find_idref(s: Seq<SpineItem>, id: Seq<char>)
    ensures
        match find_idref(s, id) {
            Some(i) => 0 <= i < s.len() && s[i].idref@ == id,
            None => forall|j: int| 0 <= j < s.len() ==> s[j].idref@ != id,
        },
    decreases s.len(),
{
    if s.len() > 0 {
        lemma_find_idref(s.drop_last(), id);
        assert forall|j: int| 0 <= j < s.len() - 1 implies s.drop_last()[j] == s[j] by {}
    }
}

/// The spine position that `id_or_index` names: an index in range, else
/// the first item with that idref.
pub open spec fn resolved_position(spine: Seq<SpineItem>, id_or_index: Seq<char>) -> Option<int> {
    let p = parsed_index(id_or_index);
    if p is Some && (p->Some_0 as int) < spine.len() {
        Some(p->Some_0 as int)
    } else {
        find_idref(spine, id_or_index)
    }
}

/// The index of the first spine item with idref `id`.
fn find_spine_idref(spine: &Vec<SpineItem>, id: &str) -> (r: Option<usize>)
    ensures
        match r {
            Some(i) => find_idref(spine@, id@) == Some(i as int) && i < spine@.len(),
            None => find_idref(spine@, id@) is None,
        },
{
    let mut i: usize = 0;
    while i < spine.len()
        invariant
            i <= spine@.len(),
            find_idref(spine@.take(i as int), id@) is None,
        decreases spine.len() - i,
    {
        proof {
            assert(spine@.take(i + 1).drop_last() =~= spine@.take(i as int));
        }
        if str_eq(spine[i].idref.as_str(), id) {
            proof {
                lemma_find_idref_prefix(spine@, id@, i + 1);
            }
            return Some(i);
        }
        i = i + 1;
    }
    proof {
        assert(spine@.take(i as int) =~= spine@);
    }
    None
}

/// The spine position named by `id_or_index`, if any.
pub fn find_spine_position(book: &EpubBook, id_or_index: &str) -> (r: Result<Option<usize>, EpxError>)
    ensures
        match r {
            Ok(Some(i)) => resolved_position(book.spine@, id_or_index@) == Some(i as int),
            Ok(None) => resolved_position(book.spine@, id_or_index@) is None,
            Err(_) => false,
        },
{
    match parse_index(id_or_index) {
        Some(index) => {
            if index < book.spine.len() {
                return Ok(Some(index));
            }
        },
        None => {},
    }
    Ok(find_spine_idref(&book.spine, id_or_index))
}

/// The spine position and idref of the chapter named by `id_or_index`; an
/// error when there is none.
pub fn resolve_chapter(book: &EpubBook, id_or_index: &str) -> (r: Result<(usize, String), EpxError>)
    ensures
        match r {
            Ok((i, idref)) => resolved_position(book.spine@, id_or_index@) == Some(i as int)
                && i < book.spine@.len() && idref@ == book.spine@[i as int].idref@,
            Err(e) => resolved_position(book.spine@, id_or_index@) is None && e is NotFound,
        },
{
    let pos = match find_spine_position(book, id_or_index) {
        Ok(p) => p,
        Err(e) => return Err(e),
    };
    match pos {
        Some(i) => {
            proof {
                lemma_find_idref(book.spine@, id_or_index@);
            }
            Ok((i, book.spine[i].idref.clone()))
        },
        None => {
            let mut m = chars_of("chapter not found: ");
            push_str(&mut m, id_or_index);
            Err(EpxError::NotFound(string_of(&m)))
        },
    }
}

/// The label and href of each top-level point.
pub open spec fn top_pairs(ps: Seq<NavPoint>) -> Seq<(Seq<char>, Seq<char>)> {
    ps.map_values(|p: NavPoint| (p.label@, p.href@))
}

/// The top-level pairs whose href is not `h`.
pub open spec fn pairs_without(ps: Seq<(Seq<char>, Seq<char>)>, h: Seq<char>) -> Seq<(Seq<char>, Seq<char>)> {
    ps.filter(|x: (Seq<char>, Seq<char>)| x.1 != h)
}

/// Removes every point with href `href` from the forest, at every depth;
/// the other points keep their order.
pub fn remove_from_nav(toc: &mut Vec<NavPoint>, href: &str)
    ensures
        !nav_has_href(final(toc)@, href@),
        top_pairs(final(toc)@) == pairs_without(top_pairs(old(toc)@), href@),
    decreases old(toc)@,
{
    let mut taken: Vec<NavPoint> = Vec::new();
    std::mem::swap(toc, &mut taken);
    let ghost orig = taken@;
    let total = taken.len();
    let mut k: usize = 0;
    proof {
        reveal(Seq::filter);
        assert(top_pairs(orig.take(0)) =~= Seq::<(Seq<char>, Seq<char>)>::empty());
    }
    while taken.len() > 0
        invariant
            k + taken@.len() == orig.len(),
            orig.len() == total,
            taken@ == orig.subrange(k as int, orig.len() as int),
            orig == old(toc)@,
            !nav_has_href(toc@, href@),
            top_pairs(toc@) == pairs_without(top_pairs(orig.take(k as int)), href@),
        decreases taken@.len(),
    {
        let mut p = taken.remove(0);
        assert(p == orig[k as int]);
        let h = p.href.clone();
        if !str_eq(h.as_str(), href) {
            assert(decreases_to!(orig => orig[k as int].children@));
            remove_from_nav(&mut p.children, href);
            let ghost pre = toc@;
            let ghost pp = p;
            toc.push(p);
            proof {
                assert(toc@.drop_last() =~= pre);
                assert(toc@.last() == pp);
            }
        }
        k = k + 1;
        proof {
            reveal(Seq::filter);
            let t = top_pairs(orig.take(k as int));
            assert(t.drop_last() =~= top_pairs(orig.take(k - 1)));
            assert(t.last() == (orig[k - 1].label@, orig[k - 1].href@));
            assert(top_pairs(toc@) =~= pairs_without(t, href@));
        }
    }
    proof {
        assert(orig.take(k as int) =~= orig);
    }
}

/// `v` with the items whose id is `id` left out.
pub open spec fn without_id(v: Seq<ManifestItem>, id: Seq<char>) -> Seq<ManifestItem> {
    v.filter(|m: ManifestItem| m.id@ != id)
}

/// Drops the manifest items with id `id`, keeping the order of the others.
pub(crate) fn retain_other_ids(manifest: &mut Vec<ManifestItem>, id: &str)
    ensures
        final(manifest)@ == without_id(old(manifest)@, id@),
{
    let mut taken: Vec<ManifestItem> = Vec::new();
    std::mem::swap(manifest, &mut taken);
    let ghost orig = taken@;
    let total = taken.len();
    let mut k: usize = 0;
    proof {
        reveal(Seq::filter);
        assert(orig.take(0) =~= Seq::<ManifestItem>::empty());
    }
    while taken.len() > 0
        invariant
            k + taken@.len() == orig.len(),
            orig.len() == total,
            taken@ == orig.subrange(k as int, orig.len() as int),
            orig == old(manifest)@,
            manifest@ == without_id(orig.take(k as int), id@),
        decreases taken@.len(),
    {
        let m = taken.remove(0);
        assert(m == orig[k as int]);
        if !str_eq(m.id.as_str(), id) {
            manifest.push(m);
        }
        k = k + 1;
        proof {
            reveal(Seq::filter);
            assert(orig.take(k as int).drop_last() =~= orig.take(k - 1));
            assert(manifest@ =~= without_id(orig.take(k as int), id@));
        }
    }
    proof {
        assert(orig.take(k as int) =~= orig);
    }
}

/// Removes the chapter named by `id_or_index` (a spine index, else a spine
/// idref): its spine entry, every manifest item with its id, its resource
/// (under its ZIP path and under its bare href) and every navigation point
/// that links to its href. Returns the idref.
pub fn remove_chapter(book: &mut EpubBook, id_or_index: &str) -> (r: Result<String, EpxError>)
    requires
        old(book).wf(),
    ensures
        final(book).wf(),
        match r {
            Ok(idref) => {
                let i = resolved_position(old(book).spine@, id_or_index@);
                &&& i is Some
                &&& idref@ == old(book).spine@[i->Some_0].idref@
                &&& final(book).spine@ == old(book).spine@.remove(i->Some_0)
                &&& final(book).manifest@ == without_id(old(book).manifest@, idref@)
                &&& final(book).metadata == old(book).metadata
                &&& match find_item(old(book).manifest@, idref@) {
                    Some(j) => {
                        let href = old(book).manifest@[j].href@;
                        let opf = opf_dir_of(old(book).resources.key_seq());
                        &&& final(book).resources@ == old(book).resources@.remove(opf + href).remove(href)
                        &&& !nav_has_href(final(book).navigation.toc@, href)
                        &&& top_pairs(final(book).navigation.toc@) == pairs_without(
                            top_pairs(old(book).navigation.toc@),
                            href,
                        )
                    },
                    None => final(book).resources == old(book).resources
                        && final(book).navigation == old(book).navigation,
                }
            },
            Err(e) => e is NotFound && resolved_position(old(book).spine@, id_or_index@) is None
                && *final(book) == *old(book),
        },
{
    let (spine_idx, idref) = match resolve_chapter(book, id_or_index) {
        Ok(x) => x,
        Err(e) => return Err(e),
    };
    let found = find_manifest_item(&book.manifest, idref.as_str());
    proof {
        lemma_find_item(book.manifest@, idref@);
    }
    let item_href: Option<String> = match found {
        Some(j) => Some(book.manifest[j].href.clone()),
        None => None,
    };
    book.spine.remove(spine_idx);
    retain_other_ids(&mut book.manifest, idref.as_str());
    match item_href {
        Some(href) => {
            let opf_dir = book.detect_opf_dir();
            let mut key = chars_of(opf_dir.as_str());
            push_str(&mut key, href.as_str());
            let key = string_of(&key);
            book.resources.remove(key.as_str());
            book.resources.remove(href.as_str());
            remove_from_nav(&mut book.navigation.toc, href.as_str());
        },
        None => {},
    }
    Ok(idref)
}

/// Moves the spine item at `from` to position `to`; an error when either
/// is out of range.
pub fn reorder_chapter(book: &mut EpubBook, from: usize, to: usize) -> (r: Result<(), EpxError>)
    ensures
        match r {
            Ok(()) => from < old(book).spine@.len() && to < old(book).spine@.len()
                && final(book).spine@ == old(book).spine@.remove(from as int).insert(
                to as int,
                old(book).spine@[from as int],
            ),
            Err(e) => (from >= old(book).spine@.len() || to >= old(book).spine@.len())
                && e is InvalidArgument && final(book).spine == old(book).spine,
        },
        final(book).metadata == old(book).metadata,
        final(book).manifest == old(book).manifest,
        final(book).navigation == old(book).navigation,
        final(book).resources == old(book).resources,
{
    move_spine_item(book, from, to)
}

/// Moves the spine item at `from` to position `to`.
pub(crate) fn move_spine_item(book: &mut EpubBook, from: usize, to: usize) -> (r: Result<(), EpxError>)
    ensures
        match r {
            Ok(()) => from < old(book).spine@.len() && to < old(book).spine@.len()
                && final(book).spine@ == old(book).spine@.remove(from as int).insert(
                to as int,
                old(book).spine@[from as int],
            ),
            Err(e) => (from >= old(book).spine@.len() || to >= old(book).spine@.len())
                && e is InvalidArgument && final(book).spine == old(book).spine,
        },
        final(book).metadata == old(book).metadata,
        final(book).manifest == old(book).manifest,
        final(book).navigation == old(book).navigation,
        final(book).resources == old(book).resources,
{
    if from >= book.spine.len() {
        return Err(EpxError::InvalidArgument(String::from_str("source index out of range")));
    }
    if to >= book.spine.len() {
        return Err(EpxError::InvalidArgument(String::from_str("target index out of range")));
    }
    let item = book.spine.remove(from);
    book.spine.insert(to, item);
    Ok(())
}

/// The title of an added chapter: the one given, else the first `# `
/// heading of its Markdown, else its file stem.
pub open spec fn added_title(md: Seq<char>, stem: Seq<char>, title: Option<Seq<char>>) -> Seq<char> {
    match title {
        Some(t) => t,
        None => match first_heading(text_lines(md)) {
            Some(h) => h,
            None => stem,
        },
    }
}

/// The text of the first `# ` heading of `md`.
fn first_heading_of(md: &str) -> (r: Option<String>)
    ensures
        match r {
            Some(h) => first_heading(text_lines(md@)) == Some(h@),
            None => first_heading(text_lines(md@)) is None,
        },
{
    let lines = lines_of(&chars_of(md));
    let ghost ls = text_lines(md@);
    let hash = chars_of("# ");
    proof {
        reveal_strlit("# ");
    }
    let mut k: usize = 0;
    proof {
        assert(ls.skip(0) =~= ls);
    }
    while k < lines.len()
        invariant
            k <= lines@.len(),
            crate::paths::views(lines@) == ls,
            ls == text_lines(md@),
            hash@ == "# "@,
            first_heading(ls) == first_heading(ls.skip(k as int)),
        decreases lines.len() - k,
    {
        let line = &lines[k];
        let body = if line.len() > 0 && line[line.len() - 1] == '\r' {
            crate::text::slice(line, 0, line.len() - 1)
        } else {
            line.clone()
        };
        let tr = crate::text::trim(&body);
        proof {
            reveal_strlit("# ");
            assert(ls.skip(k as int)[0] == line@);
            assert(ls.skip(k as int).drop_first() =~= ls.skip(k + 1));
            if line@.len() > 0 && line@.last() == '\r' {
                assert(body@ =~= line@.drop_last());
            }
        }
        if crate::text::starts_with(&tr, &hash) {
            let rest = crate::text::slice(&tr, 2, tr.len());
            proof {
                assert(rest@ =~= tr@.skip(2));
            }
            return Some(string_of(&crate::text::trim(&rest)));
        }
        k = k + 1;
    }
    proof {
        assert(ls.skip(k as int) =~= Seq::<Seq<char>>::empty());
    }
    None
}

/// Adds a chapter made from Markdown `md` (from a file with stem `stem`):
/// its XHTML goes under the OPF directory as `<slug>.xhtml`, its manifest
/// id is `chapter-added-<slug>` (slug of the title), and its spine item and
/// navigation point go right after the spine position that `after` names,
/// or at the end when there is no `after`. Returns the id; an error, with
/// the book untouched, when `after` names no spine item.
pub fn add_chapter(book: &mut EpubBook, md: &str, stem: &str, after: Option<&str>, title: Option<&str>) -> (r: Result<String, EpxError>)
    requires
        old(book).wf(),
    ensures
        final(book).wf(),
        (after matches Some(a) && resolved_position(old(book).spine@, a@) is None) <==> r is Err,
        r matches Err(e) ==> e is NotFound && *final(book) == *old(book),
        r matches Ok(id) ==> {
            let t = added_title(md@, stem@, match title { Some(x) => Some(x@), None => None });
            let href = slug_of(t) + ".xhtml"@;
            let pos = match after {
                Some(a) => match resolved_position(old(book).spine@, a@) {
                    Some(p) => Some(p + 1),
                    None => None,
                },
                None => None,
            };
            &&& id@ == "chapter-added-"@ + slug_of(t)
            &&& final(book).manifest@.len() == old(book).manifest@.len() + 1
            &&& final(book).manifest@.drop_last() == old(book).manifest@
            &&& final(book).manifest@.last().id@ == id@
            &&& final(book).manifest@.last().href@ == href
            &&& final(book).spine@.len() == old(book).spine@.len() + 1
            &&& (pos is None ==> final(book).spine@.drop_last() == old(book).spine@ && final(book).spine@.last().idref@ == id@)
            &&& (pos matches Some(p) ==> final(book).spine@[p].idref@ == id@
                && final(book).spine@.remove(p) == old(book).spine@)
            &&& final(book).resources.bytes_view() == old(book).resources.bytes_view().insert(
                opf_dir_of(old(book).resources.key_seq()) + href,
                encode_utf8(chapter_xhtml(md@, t, None)),
            )
        },
{
    let t = match title {
        Some(x) => String::from_str(x),
        None => match first_heading_of(md) {
            Some(h) => h,
            None => String::from_str(stem),
        },
    };
    let xhtml = markdown_to_xhtml(md, t.as_str(), None);
    let sl = slugify(t.as_str());
    let mut idv = chars_of("chapter-added-");
    push_str(&mut idv, sl.as_str());
    let id = string_of(&idv);
    let mut hv = chars_of(sl.as_str());
    push_str(&mut hv, ".xhtml");
    let href = string_of(&hv);
    let pos: Option<usize> = match after {
        Some(a) => match find_spine_position(book, a) {
            Ok(Some(p)) => {
                proof {
                    lemma_find_idref(book.spine@, a@);
                }
                let n = book.spine.len();
                assert(p < n);
                Some(p + 1)
            },
            Ok(None) => {
                let mut m = chars_of("chapter not found: ");
                push_str(&mut m, a);
                return Err(EpxError::NotFound(string_of(&m)));
            },
            Err(e) => return Err(e),
        },
        None => None,
    };
    let opf_dir = book.detect_opf_dir();
    let mut kv = chars_of(opf_dir.as_str());
    push_str(&mut kv, href.as_str());
    book.resources.insert_bytes(string_of(&kv), xhtml.as_str().as_bytes_vec());
    let ghost pre_manifest = book.manifest@;
    let ghost pre_spine = book.spine@;
    book.manifest.push(ManifestItem {
        id: id.clone(),
        href: href.clone(),
        media_type: String::from_str("application/xhtml+xml"),
        properties: None,
    });
    let item = SpineItem { idref: id.clone(), linear: true, properties: None };
    let point = NavPoint { label: t.clone(), href: href.clone(), children: Vec::new() };
    match pos {
        Some(p) => {
            book.spine.insert(p, item);
            if p <= book.navigation.toc.len() {
                book.navigation.toc.insert(p, point);
            } else {
                book.navigation.toc.push(point);
            }
            proof {
                assert(book.spine@.remove(p as int) =~= pre_spine);
            }
        },
        None => {
            book.spine.push(item);
            book.navigation.toc.push(point);
            proof {
                assert(book.spine@.drop_last() =~= pre_spine);
            }
        },
    }
    proof {
        assert(book.manifest@.drop_last() =~= pre_manifest);
    }
    Ok(id)
}

} // verus!
