//! The `SUMMARY.md` outline of an extracted book.

use vstd::prelude::*;
use crate::epub::NavPoint;
use crate::text::{chars_of, ends_with, is_suffix, push_str, seq_eq, slice, string_of};
use crate::writer::{lemma_tree_size_prefix, tree_size};

verus! {

/// `h` up to its first `#` (all of it when it has none).
pub open spec fn before_hash(h: Seq<char>) -> Seq<char> {
    if exists|i: int| 0 <= i < h.len() && h[i] == '#' {
        h.take(choose|i: int| 0 <= i < h.len() && h[i] == '#' && forall|j: int| 0 <= j < i ==> h[j] != '#')
    } else {
        h
    }
}

/// Chapter file `k` is the first whose EPUB href is `href` or ends
/// with it.
pub open spec fn is_first_match(files: Seq<(String, String)>, href: Seq<char>, k: int) -> bool {
    &&& 0 <= k < files.len()
    &&& (files[k].0@ == href || is_suffix(href, files[k].0@))
    &&& forall|j: int| 0 <= j < k ==> !(#[trigger] files[j].0@ == href || is_suffix(href, files[j].0@))
}

/// The Markdown file that a navigation href (without fragment) leads to.
pub open spec fn link_target(files: Seq<(String, String)>, href: Seq<char>) -> Option<Seq<char>> {
    if exists|k: int| is_first_match(files, href, k) {
        Some(files[choose|k: int| is_first_match(files, href, k)].1@)
    } else {
        None
    }
}

/// Two spaces per level of indentation.
pub open spec fn indentation(n: nat) -> Seq<char> {
    Seq::new(2 * n, |_i: int| ' ')
}

/// One outline line for point `p` at depth `indent`.
pub open spec fn summary_line(p: NavPoint, files: Seq<(String, String)>, indent: nat) -> Seq<char> {
    indentation(indent) + "- "@ + match link_target(files, before_hash(p.href@)) {
        Some(md) => "["@ + p.label@ + "]("@ + "chapters/"@ + md + ")"@,
        None => p.label@,
    } + "\n"@
}

/// The outline lines for the forest `ps` at depth `indent`, depth first.
pub open spec fn summary_entries(ps: Seq<NavPoint>, files: Seq<(String, String)>, indent: nat) -> Seq<char>
    decreases ps,
{
    if ps.len() == 0 {
        Seq::<char>::empty()
    } else {
        summary_entries(ps.drop_last(), files, indent) + summary_line(ps.last(), files, indent)
            + summary_entries(ps.last().children@, files, indent + 1)
    }
}

/// The href up to its first `#`.
fn strip_fragment(h: &Vec<char>) -> (r: Vec<char>)
    ensures
        r@ == before_hash(h@),
{
    let mut i: usize = 0;
    while i < h.len()
        invariant
            i <= h@.len(),
            forall|j: int| 0 <= j < i ==> h@[j] != '#',
        decreases h.len() - i,
    {
        if h[i] == '#' {
            proof {
                let w = i as int;
                assert(0 <= w < h@.len() && h@[w] == '#' && forall|j: int| 0 <= j < w ==> h@[j] != '#');
                let c = choose|c: int| 0 <= c < h@.len() && h@[c] == '#' && forall|j: int| 0 <= j < c ==> h@[j] != '#';
                if c < w {
                } else if c > w {
                    assert(h@[w] != '#');
                }
            }
            return slice(h, 0, i);
        }
        i = i + 1;
    }
    h.clone()
}

/// The Markdown file for `href`, from the first matching chapter file.
fn find_link(files: &[(String, String)], href: &Vec<char>) -> (r: Option<String>)
    ensures
        match r {
            Some(m) => link_target(files@, href@) == Some(m@),
            None => link_target(files@, href@) is None,
        },
{
    let mut k: usize = 0;
    while k < files.len()
        invariant
            k <= files@.len(),
            forall|j: int| 0 <= j < k ==> !(#[trigger] files@[j].0@ == href@ || is_suffix(href@, files@[j].0@)),
        decreases files.len() - k,
    {
        let orig = chars_of(files[k].0.as_str());
        if seq_eq(href, &orig) || ends_with(&orig, href) {
            proof {
                assert(is_first_match(files@, href@, k as int));
                let c = choose|c: int| is_first_match(files@, href@, c);
                if c < k {
                } else if c > k {
                    assert(!(files@[k as int].0@ == href@ || is_suffix(href@, files@[k as int].0@)));
                }
            }
            return Some(files[k].1.clone());
        }
        k = k + 1;
    }
    None
}

/// Appends the outline lines for `points` at depth `indent`.
pub fn write_nav_entries(output: &mut Vec<char>, points: &Vec<NavPoint>, chapter_files: &[(String, String)], indent: usize)
    requires
        indent + tree_size(points@) <= usize::MAX,
    ensures
        final(output)@ == old(output)@ + summary_entries(points@, chapter_files@, indent as nat),
    decreases points@,
{
    let mut i: usize = 0;
    proof {
        assert(points@.take(0) =~= Seq::<NavPoint>::empty());
        assert(old(output)@ + summary_entries(Seq::<NavPoint>::empty(), chapter_files@, indent as nat) =~= old(output)@);
    }
    while i < points.len()
        invariant
            i <= points@.len(),
            indent + tree_size(points@) <= usize::MAX,
            output@ == old(output)@ + summary_entries(points@.take(i as int), chapter_files@, indent as nat),
        decreases points.len() - i,
    {
        let point = &points[i];
        proof {
            let t = points@.take(i + 1);
            assert(t.drop_last() =~= points@.take(i as int));
            assert(t.last() == *point);
            lemma_tree_size_prefix(points@, i + 1);
        }
        let mut k: usize = 0;
        while k < indent
            invariant
                k <= indent,
                output@ == old(output)@ + summary_entries(points@.take(i as int), chapter_files@, indent as nat)
                    + indentation(k as nat),
            decreases indent - k,
        {
            push_str(output, "  ");
            k = k + 1;
            proof {
                reveal_strlit("  ");
                assert(output@ =~= old(output)@ + summary_entries(points@.take(i as int), chapter_files@, indent as nat)
                    + indentation(k as nat));
            }
        }
        push_str(output, "- ");
        let h = chars_of(point.href.as_str());
        let href = strip_fragment(&h);
        match find_link(chapter_files, &href) {
            Some(md) => {
                push_str(output, "[");
                push_str(output, point.label.as_str());
                push_str(output, "](");
                push_str(output, "chapters/");
                push_str(output, md.as_str());
                push_str(output, ")");
            },
            None => {
                push_str(output, point.label.as_str());
            },
        }
        push_str(output, "\n");
        assert(decreases_to!(points@ => points@[i as int].children@));
        write_nav_entries(output, &point.children, chapter_files, indent + 1);
        i = i + 1;
        proof {
            let t = points@.take(i as int);
            assert(output@ =~= old(output)@ + summary_entries(t, chapter_files@, indent as nat));
        }
    }
    proof {
        assert(points@.take(i as int) =~= points@);
    }
}

/// The `SUMMARY.md` text for a table of contents: a heading, then one list
/// line per point, indented by depth, linking to `chapters/<file>` where
/// the point's href (fragment removed) matches an extracted chapter.
pub fn generate_summary(toc: &Vec<NavPoint>, chapter_files: &[(String, String)]) -> (r: String)
    requires
        tree_size(toc@) <= usize::MAX,
    ensures
        r@ == "# Summary\n\n"@ + summary_entries(toc@, chapter_files@, 0),
{
    let mut output = chars_of("# Summary\n\n");
    write_nav_entries(&mut output, toc, chapter_files, 0);
    string_of(&output)
}

} // verus!
