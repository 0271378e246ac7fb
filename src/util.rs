//! Lookups shared by the pipelines: resource keys and navigation trees.

use vstd::prelude::*;
use crate::epub::{nav_nodes, NavNode, NavPoint};
use crate::strmap::StrMap;
use crate::text::{chars_of, ends_with, is_suffix};

verus! {

/// `i` is the first entry whose key ends with `href`.
pub open spec fn is_first_suffix_key(keys: Seq<Seq<char>>, href: Seq<char>, i: int) -> bool {
    &&& 0 <= i < keys.len()
    &&& is_suffix(href, keys[i])
    &&& forall|j: int| 0 <= j < i ==> !is_suffix(href, #[trigger] keys[j])
}

/// The resource key that a manifest href names (see `find_resource_key`).
pub open spec fn resource_key_for(keys: Seq<Seq<char>>, contains_href: bool, href: Seq<char>) -> Option<Seq<char>> {
    if contains_href {
        Some(href)
    } else if exists|i: int| is_first_suffix_key(keys, href, i) {
        Some(keys[choose|i: int| is_first_suffix_key(keys, href, i)])
    } else {
        None
    }
}

/// The resource key that a manifest href names: the href itself when it is
/// a key, else the first key (in the map's order) that ends with it.
pub fn find_resource_key(resources: &StrMap<Vec<u8>>, href: &str) -> (r: Option<String>)
    ensures
        resources@.contains_key(href@) ==> r is Some && r->Some_0@ == href@,
        !resources@.contains_key(href@) ==> match r {
            Some(k) => exists|i: int| is_first_suffix_key(resources.key_seq(), href@, i)
                && resources.key_seq()[i] == k@,
            None => forall|i: int| 0 <= i < resources.key_seq().len()
                ==> !is_suffix(href@, #[trigger] resources.key_seq()[i]),
        },
        match r {
            Some(k) => resource_key_for(resources.key_seq(), resources@.contains_key(href@), href@) == Some(k@),
            None => resource_key_for(resources.key_seq(), resources@.contains_key(href@), href@) is None,
        },
{
    if resources.contains_key(href) {
        return Some(String::from_str(href));
    }
    let h = chars_of(href);
    let ghost keys = resources.key_seq();
    let mut i: usize = 0;
    while i < resources.entries.len()
        invariant
            i <= resources.entries@.len(),
            keys == resources.key_seq(),
            h@ == href@,
            !resources@.contains_key(href@),
            forall|j: int| 0 <= j < i ==> !is_suffix(href@, #[trigger] keys[j]),
        decreases resources.entries.len() - i,
    {
        let k = chars_of(resources.entries[i].0.as_str());
        assert(keys[i as int] == k@);
        if ends_with(&k, &h) {
            let r = resources.entries[i].0.clone();
            assert(is_first_suffix_key(keys, href@, i as int));
            proof {
                let c = choose|c: int| is_first_suffix_key(keys, href@, c);
                if c < i {
                } else if c > i {
                    assert(!is_suffix(href@, keys[i as int]));
                }
            }
            return Some(r);
        }
        i = i + 1;
    }
    None
}

/// The values of a list of `(label, href, depth)` links.
pub open spec fn link_views(v: Seq<(String, String, usize)>) -> Seq<(Seq<char>, Seq<char>, nat)> {
    v.map_values(|l: (String, String, usize)| (l.0@, l.1@, l.2 as nat))
}

/// The end of the subtree of link `i` within `[i, hi)`: the first later
/// link that is no deeper than it, or `hi`.
pub open spec fn subtree_end(links: Seq<(Seq<char>, Seq<char>, nat)>, i: int, hi: int) -> int
    decreases hi - i,
{
    if i + 1 >= hi {
        hi
    } else if links[i + 1].2 <= links[i].2 {
        i + 1
    } else {
        subtree_end_from(links, i, i + 2, hi)
    }
}

/// The first link at or after `j` (before `hi`) no deeper than link `i`.
pub open spec fn subtree_end_from(links: Seq<(Seq<char>, Seq<char>, nat)>, i: int, j: int, hi: int) -> int
    decreases hi - j,
{
    if j >= hi {
        hi
    } else if links[j].2 <= links[i].2 {
        j
    } else {
        subtree_end_from(links, i, j + 1, hi)
    }
}

/// `subtree_end_from` lies in `[j, hi]` (when `j <= hi`).
proof fn lemma_end_from_bounds(links: Seq<(Seq<char>, Seq<char>, nat)>, i: int, j: int, hi: int)
    requires
        j <= hi,
    ensures
        j <= subtree_end_from(links, i, j, hi) <= hi,
    decreases hi - j,
{
    if j < hi && links[j].2 > links[i].2 {
        lemma_end_from_bounds(links, i, j + 1, hi);
    }
}

/// The forest that the links `[lo, hi)` form: each link with the deeper
/// links that follow it (up to the next one no deeper) as its children.
pub open spec fn link_forest(links: Seq<(Seq<char>, Seq<char>, nat)>, lo: int, hi: int) -> Seq<NavNode>
    decreases hi - lo, 0int,
{
    if lo >= hi || hi > links.len() {
        Seq::empty()
    } else {
        let e = subtree_end(links, lo, hi);
        if e <= lo || e > hi {
            Seq::empty()
        } else {
            seq![NavNode { label: links[lo].0, href: links[lo].1, children: link_forest(links, lo + 1, e) }]
                + link_forest(links, e, hi)
        }
    }
}

/// The end of the subtree of link `i` within `[i, hi)`.
fn subtree_end_of(links: &[(String, String, usize)], i: usize, hi: usize) -> (r: usize)
    requires
        i < hi <= links@.len(),
    ensures
        r == subtree_end(link_views(links@), i as int, hi as int),
        i < r <= hi,
{
    if i + 1 >= hi {
        return hi;
    }
    if links[i + 1].2 <= links[i].2 {
        return i + 1;
    }
    let mut j: usize = i + 2;
    proof {
        lemma_end_from_bounds(link_views(links@), i as int, (i + 2) as int, hi as int);
    }
    while j < hi && links[j].2 > links[i].2
        invariant
            i + 2 <= j <= hi,
            hi <= links@.len(),
            i < links@.len(),
            subtree_end_from(link_views(links@), i as int, j as int, hi as int) == subtree_end_from(link_views(links@), i as int, (i + 2) as int, hi as int),
        decreases hi - j,
    {
        j = j + 1;
    }
    j
}

/// The forest of the links `[lo, hi)`.
fn build_forest(links: &[(String, String, usize)], lo: usize, hi: usize) -> (r: Vec<NavPoint>)
    requires
        lo <= hi <= links@.len(),
    ensures
        nav_nodes(r@) == link_forest(link_views(links@), lo as int, hi as int),
    decreases hi - lo,
{
    let mut out: Vec<NavPoint> = Vec::new();
    let mut i: usize = lo;
    proof {
        assert(nav_nodes(out@) + link_forest(link_views(links@), i as int, hi as int) =~= link_forest(link_views(links@), lo as int, hi as int));
    }
    while i < hi
        invariant
            lo <= i <= hi <= links@.len(),
            nav_nodes(out@) + link_forest(link_views(links@), i as int, hi as int) == link_forest(link_views(links@), lo as int, hi as int),
        decreases hi - i,
    {
        let e = subtree_end_of(links, i, hi);
        let children = build_forest(links, i + 1, e);
        let ghost pre = out@;
        let link = &links[i];
        out.push(NavPoint { label: link.0.clone(), href: link.1.clone(), children });
        proof {
            assert(out@.drop_last() =~= pre);
            let node = NavNode { label: link_views(links@)[i as int].0, href: link_views(links@)[i as int].1, children: link_forest(link_views(links@), i + 1, e as int) };
            assert(nav_nodes(out@) == nav_nodes(pre).push(node));
            assert(link_forest(link_views(links@), i as int, hi as int) == seq![node] + link_forest(link_views(links@), e as int, hi as int));
            assert(nav_nodes(out@) + link_forest(link_views(links@), e as int, hi as int) =~= nav_nodes(pre) + link_forest(link_views(links@), i as int, hi as int));
        }
        i = e;
    }
    proof {
        assert(nav_nodes(out@) + link_forest(link_views(links@), i as int, hi as int) =~= nav_nodes(out@));
    }
    out
}

/// The navigation tree that a list of `(label, href, depth)` links gives:
/// every link becomes a child of the nearest earlier link that is less
/// deep, or a top-level point when there is none.
pub fn build_nav_tree(links: &[(String, String, usize)]) -> (r: Vec<NavPoint>)
    ensures
        nav_nodes(r@) == link_forest(link_views(links@), 0, links@.len() as int),
{
    build_forest(links, 0, links.len())
}

} // verus!
