//! Structural checks on a book.

use vstd::prelude::*;
use crate::epub::EpubBook;
use crate::paths::{find_item, find_manifest_item};
use crate::text::{chars_of, push_str, string_of};

verus! {

/// The book carries a title, a language and an identifier, its spine is
/// not empty and every spine item names a manifest item.
pub open spec fn is_structurally_valid(book: EpubBook) -> bool {
    &&& book.metadata.titles@.len() > 0
    &&& book.metadata.languages@.len() > 0
    &&& book.metadata.identifiers@.len() > 0
    &&& book.spine@.len() > 0
    &&& forall|i: int| 0 <= i < book.spine@.len() ==> #[trigger] find_item(book.manifest@, book.spine@[i].idref@) is Some
}

/// The messages for spine items that name no manifest item, among the
/// first `n`.
pub open spec fn spine_issues(book: EpubBook, n: int) -> Seq<Seq<char>>
    decreases n,
{
    if n <= 0 {
        Seq::empty()
    } else {
        let rest = spine_issues(book, n - 1);
        if find_item(book.manifest@, book.spine@[n - 1].idref@) is None {
            rest.push("spine references missing manifest item: "@ + book.spine@[n - 1].idref@)
        } else {
            rest
        }
    }
}

/// The structural problems of a book, in order: missing title, language
/// and identifier, spine items without manifest item, an empty spine.
pub open spec fn issues_of(book: EpubBook) -> Seq<Seq<char>> {
    (if book.metadata.titles@.len() == 0 { seq!["missing dc:title"@] } else { Seq::empty() })
        + (if book.metadata.languages@.len() == 0 { seq!["missing dc:language"@] } else { Seq::empty() })
        + (if book.metadata.identifiers@.len() == 0 { seq!["missing dc:identifier"@] } else { Seq::empty() })
        + spine_issues(book, book.spine@.len() as int)
        + (if book.spine@.len() == 0 { seq!["spine is empty"@] } else { Seq::empty() })
}

/// No spine issues exactly when every spine item resolves.
proof fn lemma_spine_issues(book: EpubBook, n: int)
    requires
        0 <= n <= book.spine@.len(),
    ensures
        spine_issues(book, n).len() == 0 <==> forall|i: int| 0 <= i < n ==> #[trigger] find_item(book.manifest@, book.spine@[i].idref@) is Some,
    decreases n,
{
    if n > 0 {
        lemma_spine_issues(book, n - 1);
    }
}

/// The structural problems of a book, one message each; none exactly when
/// the book is structurally valid.
pub fn validation_issues(book: &EpubBook) -> (r: Vec<String>)
    ensures
        crate::paths::str_views(r@) == issues_of(*book),
        r@.len() == 0 <==> is_structurally_valid(*book),
{
    let mut issues: Vec<String> = Vec::new();
    if book.metadata.titles.len() == 0 {
        issues.push(String::from_str("missing dc:title"));
    }
    if book.metadata.languages.len() == 0 {
        issues.push(String::from_str("missing dc:language"));
    }
    if book.metadata.identifiers.len() == 0 {
        issues.push(String::from_str("missing dc:identifier"));
    }
    let ghost head = crate::paths::str_views(issues@);
    proof {
        assert(head =~= (if book.metadata.titles@.len() == 0 { seq!["missing dc:title"@] } else { Seq::empty() })
            + (if book.metadata.languages@.len() == 0 { seq!["missing dc:language"@] } else { Seq::empty() })
            + (if book.metadata.identifiers@.len() == 0 { seq!["missing dc:identifier"@] } else { Seq::empty() }));
        assert(head + spine_issues(*book, 0) =~= head);
    }
    let mut i: usize = 0;
    while i < book.spine.len()
        invariant
            i <= book.spine@.len(),
            crate::paths::str_views(issues@) == head + spine_issues(*book, i as int),
        decreases book.spine.len() - i,
    {
        let idref = &book.spine[i].idref;
        let ghost pre = issues@;
        if find_manifest_item(&book.manifest, idref.as_str()).is_none() {
            let mut m = chars_of("spine references missing manifest item: ");
            push_str(&mut m, idref.as_str());
            issues.push(string_of(&m));
            proof {
                assert(crate::paths::str_views(issues@) =~= crate::paths::str_views(pre).push(m@));
            }
        }
        i = i + 1;
    }
    if book.spine.len() == 0 {
        let ghost pre = issues@;
        issues.push(String::from_str("spine is empty"));
        proof {
            assert(crate::paths::str_views(issues@) =~= crate::paths::str_views(pre).push("spine is empty"@));
        }
    }
    proof {
        lemma_spine_issues(*book, book.spine@.len() as int);
        assert(crate::paths::str_views(issues@) =~= issues_of(*book));
        assert(crate::paths::str_views(issues@).len() == issues@.len());
        reveal_strlit("missing dc:title");
    }
    issues
}

} // verus!
