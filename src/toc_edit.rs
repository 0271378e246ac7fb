//! Reordering and replacing the spine.

use vstd::prelude::*;
use crate::chapter_manage::{find_idref, move_spine_item};
use crate::epub::{EpubBook, SpineItem};
use crate::error::EpxError;
use crate::text::{chars_of, push_str, str_eq, string_of};
use crate::assemble::{outline_links, outline_run};
use crate::patterns::{md_events, md_events_of};
use crate::content_edit::{all_headings, heading_views, list_headings};
use crate::epub::{nav_nodes, NavNode, NavPoint};
use crate::util::{build_nav_tree, link_forest};

verus! {

/// Both items hold the same values.
pub open spec fn same_spine_item(a: SpineItem, b: SpineItem) -> bool {
    &&& a.idref@ == b.idref@
    &&& a.linear == b.linear
    &&& match (a.properties, b.properties) {
        (Some(x), Some(y)) => x@ == y@,
        (None, None) => true,
        _ => false,
    }
}

impl SpineItem {
    /// A copy of the item.
    pub fn duplicate(&self) -> (r: SpineItem)
        ensures
            same_spine_item(*self, r),
    {
        SpineItem {
            idref: self.idref.clone(),
            linear: self.linear,
            properties: match &self.properties {
                Some(p) => Some(p.clone()),
                None => None,
            },
        }
    }
}

/// Moves the spine item at `from` to position `to`; an error when either
/// is out of range.
pub fn reorder_spine(book: &mut EpubBook, from: usize, to: usize) -> (r: Result<(), EpxError>)
    ensures
        match r {
            Ok(()) => from < old(book).spine@.len() && to < old(book).spine@.len()
                && final(book).spine@ == old(book).spine@.remove(from as int).insert(
                to as int,
                old(book).spine@[from as int],
            ),
            Err(e) => (from >= old(book).spine@.len() || to >= old(book).spine@.len())
                && e is InvalidArgument && final(book).spine == old(book).spine,
        },
        final(book).metadata == old(book).metadata,
        final(book).manifest == old(book).manifest,
        final(book).navigation == old(book).navigation,
        final(book).resources == old(book).resources,
{
    move_spine_item(book, from, to)
}

/// Every idref of `idrefs` names a spine item.
pub open spec fn all_in_spine(spine: Seq<SpineItem>, idrefs: Seq<String>) -> bool {
    forall|i: int| 0 <= i < idrefs.len() ==> #[trigger] find_idref(spine, idrefs[i]@) is Some
}

/// Replaces the spine by copies of the items that `idrefs` name, in that
/// order (the first item with each idref); an error, with the spine left
/// as it was, when an idref names none.
pub fn set_spine_order(book: &mut EpubBook, idrefs: &[String]) -> (r: Result<(), EpxError>)
    ensures
        match r {
            Ok(()) => {
                &&& all_in_spine(old(book).spine@, idrefs@)
                &&& final(book).spine@.len() == idrefs@.len()
                &&& forall|i: int| 0 <= i < idrefs@.len() ==> same_spine_item(
                    #[trigger] final(book).spine@[i],
                    old(book).spine@[find_idref(old(book).spine@, idrefs@[i]@)->Some_0],
                )
            },
            Err(e) => !all_in_spine(old(book).spine@, idrefs@) && e is NotFound
                && final(book).spine == old(book).spine,
        },
        final(book).metadata == old(book).metadata,
        final(book).manifest == old(book).manifest,
        final(book).navigation == old(book).navigation,
        final(book).resources == old(book).resources,
{
    let mut new_spine: Vec<SpineItem> = Vec::new();
    let mut i: usize = 0;
    while i < idrefs.len()
        invariant
            i <= idrefs@.len(),
            new_spine@.len() == i,
            forall|j: int| 0 <= j < i ==> #[trigger] find_idref(book.spine@, idrefs@[j]@) is Some,
            forall|j: int| 0 <= j < i ==> same_spine_item(
                #[trigger] new_spine@[j],
                book.spine@[find_idref(book.spine@, idrefs@[j]@)->Some_0],
            ),
        decreases idrefs.len() - i,
    {
        let id = &idrefs[i];
        let mut found: Option<usize> = None;
        let mut k: usize = 0;
        proof {
            assert(book.spine@.take(0) =~= Seq::<SpineItem>::empty());
        }
        while k < book.spine.len()
            invariant_except_break
                found is None,
            invariant
                k <= book.spine@.len(),
                find_idref(book.spine@.take(k as int), id@) is None,
            ensures
                match found {
                    Some(j) => j < book.spine@.len() && book.spine@[j as int].idref@ == id@
                        && find_idref(book.spine@.take(j as int), id@) is None,
                    None => k == book.spine@.len() && find_idref(book.spine@.take(k as int), id@) is None,
                },
            decreases book.spine.len() - k,
        {
            proof {
                assert(book.spine@.take(k + 1).drop_last() =~= book.spine@.take(k as int));
            }
            if str_eq(book.spine[k].idref.as_str(), id.as_str()) {
                found = Some(k);
                break;
            }
            k = k + 1;
        }
        match found {
            Some(k) => {
                proof {
                    lemma_prefix_first(book.spine@, id@, k + 1);
                }
                let item = book.spine[k].duplicate();
                new_spine.push(item);
            },
            None => {
                proof {
                    assert(book.spine@.take(k as int) =~= book.spine@);
                    assert(!all_in_spine(book.spine@, idrefs@)) by {
                        assert(find_idref(book.spine@, idrefs@[i as int]@) is None);
                    }
                }
                let mut m = chars_of("spine item not found: ");
                push_str(&mut m, id.as_str());
                return Err(EpxError::NotFound(string_of(&m)));
            },
        }
        i = i + 1;
    }
    book.spine = new_spine;
    Ok(())
}

/// Replaces the table of contents by the links of a Markdown outline (in
/// the format of `SUMMARY.md`), nested by list depth.
pub fn set_toc_from_markdown(book: &mut EpubBook, toc_content: &str) -> (r: Result<(), EpxError>)
    ensures
        r is Ok,
        nav_nodes(final(book).navigation.toc@) == link_forest(
            outline_run(md_events_of(toc_content@)).4,
            0,
            outline_run(md_events_of(toc_content@)).4.len() as int,
        ),
        final(book).metadata == old(book).metadata,
        final(book).manifest == old(book).manifest,
        final(book).spine == old(book).spine,
        final(book).resources == old(book).resources,
{
    let events = md_events(toc_content);
    let links = outline_links(&events);
    let sl = links.as_slice();
    let toc = build_nav_tree(sl);
    proof {
        assert(sl@ == links@);
    }
    book.navigation.toc = toc;
    Ok(())
}

/// The headings that a generated table of contents keeps: those at most
/// `max_depth` deep with some text.
pub open spec fn kept_headings(hs: Seq<(Seq<char>, nat, Seq<char>)>, max_depth: nat) -> Seq<(Seq<char>, nat, Seq<char>)> {
    hs.filter(|h: (Seq<char>, nat, Seq<char>)| h.1 <= max_depth && h.2.len() > 0)
}

/// Replaces the table of contents by the headings of the chapters in spine
/// order, down to `max_depth` (3 when not given), one top-level point per
/// heading, linking to its chapter.
pub fn generate_toc(book: &mut EpubBook, max_depth: Option<usize>) -> (r: Result<(), EpxError>)
    requires
        old(book).wf(),
    ensures
        r is Ok,
        final(book).wf(),
        nav_nodes(final(book).navigation.toc@) == kept_headings(
            all_headings(*old(book), old(book).spine@.len() as int),
            match max_depth { Some(d) => d as nat, None => 3 },
        ).map_values(|h: (Seq<char>, nat, Seq<char>)| NavNode { label: h.2, href: h.0, children: Seq::empty() }),
        final(book).metadata == old(book).metadata,
        final(book).manifest == old(book).manifest,
        final(book).spine == old(book).spine,
        final(book).resources == old(book).resources,
{
    let depth: usize = match max_depth { Some(d) => d, None => 3 };
    let hs = match list_headings(book) {
        Ok(h) => h,
        Err(e) => return Err(e),
    };
    let ghost hv = heading_views(hs@);
    let ghost f = |h: (Seq<char>, nat, Seq<char>)| h.1 <= depth as nat && h.2.len() > 0;
    let ghost g = |h: (Seq<char>, nat, Seq<char>)| NavNode { label: h.2, href: h.0, children: Seq::empty() };
    let mut toc: Vec<NavPoint> = Vec::new();
    let mut i: usize = 0;
    proof {
        reveal(Seq::filter);
        assert(hv.take(0) =~= Seq::<(Seq<char>, nat, Seq<char>)>::empty());
        assert(nav_nodes(toc@) =~= kept_headings(hv.take(0), depth as nat).map_values(g));
    }
    while i < hs.len()
        invariant
            i <= hs@.len(),
            hv == heading_views(hs@),
            g == (|h: (Seq<char>, nat, Seq<char>)| NavNode { label: h.2, href: h.0, children: Seq::empty() }),
            nav_nodes(toc@) == kept_headings(hv.take(i as int), depth as nat).map_values(g),
        decreases hs.len() - i,
    {
        let h = &hs[i];
        let ghost pre = toc@;
        let text = chars_of(h.2.as_str());
        if h.1 <= depth && text.len() > 0 {
            toc.push(NavPoint { label: h.2.clone(), href: h.0.clone(), children: Vec::new() });
            proof {
                assert(nav_nodes(Seq::<NavPoint>::empty()) =~= Seq::<NavNode>::empty());
                assert(toc@.drop_last() =~= pre);
            }
        }
        i = i + 1;
        proof {
            reveal(Seq::filter);
            assert(hv.take(i as int).drop_last() =~= hv.take(i - 1));
            assert(hv.take(i as int).last() == (h.0@, h.1 as nat, h.2@));
            assert(nav_nodes(toc@) =~= kept_headings(hv.take(i as int), depth as nat).map_values(g));
        }
    }
    proof {
        assert(hv.take(i as int) =~= hv);
    }
    book.navigation.toc = toc;
    Ok(())
}

/// A first match in a prefix is the first match of the whole.
proof fn lemma_prefix_first(s: Seq<SpineItem>, id: Seq<char>, n: int)
    requires
        0 < n <= s.len(),
        find_idref(s.take(n - 1), id) is None,
        s[n - 1].idref@ == id,
    ensures
        find_idref(s, id) == Some(n - 1),
    decreases s.len() - n,
{
    assert(s.take(n).drop_last() =~= s.take(n - 1));
    if n < s.len() {
        assert(s.take(n + 1).drop_last() =~= s.take(n));
        lemma_prefix_first_step(s, id, n + 1, n - 1);
    } else {
        assert(s.take(n) =~= s);
    }
}

/// Extending the prefix keeps a first match.
proof fn lemma_prefix_first_step(s: Seq<SpineItem>, id: Seq<char>, n: int, i: int)
    requires
        0 < n <= s.len(),
        find_idref(s.take(n - 1), id) == Some(i),
    ensures
        find_idref(s, id) == Some(i),
    decreases s.len() - n,
{
    assert(s.take(n).drop_last() =~= s.take(n - 1));
    if n < s.len() {
        lemma_prefix_first_step(s, id, n + 1, i);
    } else {
        assert(s.take(n) =~= s);
    }
}

} // verus!
