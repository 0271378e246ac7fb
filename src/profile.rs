//! Genre classification from the structural counts of a book.

use vstd::prelude::*;
use vstd::string::StrSliceExecFns;
use vstd::utf8::encode_utf8;
use crate::chapter_org::{spine_doc_text};
use crate::epub::{opf_dir_of, EpubBook};
use crate::patterns::{match_views, regex_scan, regex_scan_of};

verus! {

/// Genre of a book, guessed from its structure.
#[derive(Clone, Copy, Debug, PartialEq, Eq, Structural)]
pub enum BookGenre {
    Fiction,
    Technical,
    Reference,
    Illustrated,
    Minimal,
}

impl BookGenre {
    /// The genre's name.
    pub open spec fn name(self) -> Seq<char> {
        match self {
            BookGenre::Fiction => "Fiction"@,
            BookGenre::Technical => "Technical"@,
            BookGenre::Reference => "Reference"@,
            BookGenre::Illustrated => "Illustrated"@,
            BookGenre::Minimal => "Minimal"@,
        }
    }

    /// The genre's name.
    pub fn to_string(&self) -> (r: String)
        ensures
            r@ == self.name(),
    {
        match self {
            BookGenre::Fiction => String::from_str("Fiction"),
            BookGenre::Technical => String::from_str("Technical"),
            BookGenre::Reference => String::from_str("Reference"),
            BookGenre::Illustrated => String::from_str("Illustrated"),
            BookGenre::Minimal => String::from_str("Minimal"),
        }
    }
}

/// Structural profile of a book.
#[derive(Clone, Debug)]
pub struct BookProfile {
    pub genre: BookGenre,
    pub spine_count: usize,
    pub image_count: usize,
    pub cross_reference_count: usize,
    pub has_image_gallery: bool,
    pub has_svg_cover: bool,
    pub empty_alt_count: usize,
}

/// The genre that the counts point to, the first rule that applies
/// winning: many images and cross-references, technical; a long spine,
/// reference; many images and few cross-references, illustrated; a short
/// spine with few images, minimal; otherwise fiction.
pub open spec fn genre_of(spine_count: int, image_count: int, cross_refs: int) -> BookGenre {
    if image_count > 100 && cross_refs > 500 {
        BookGenre::Technical
    } else if spine_count > 100 {
        BookGenre::Reference
    } else if image_count > 10 && cross_refs < 10 {
        BookGenre::Illustrated
    } else if spine_count < 15 && image_count < 5 {
        BookGenre::Minimal
    } else {
        BookGenre::Fiction
    }
}

/// Classifies a book by its spine length, image count and cross-reference
/// count.
pub fn classify_genre(spine_count: usize, image_count: usize, cross_refs: usize) -> (r: BookGenre)
    ensures
        r == genre_of(spine_count as int, image_count as int, cross_refs as int),
{
    if image_count > 100 && cross_refs > 500 {
        BookGenre::Technical
    } else if spine_count > 100 {
        BookGenre::Reference
    } else if image_count > 10 && cross_refs < 10 {
        BookGenre::Illustrated
    } else if spine_count < 15 && image_count < 5 {
        BookGenre::Minimal
    } else {
        BookGenre::Fiction
    }
}

/// Fragment links.
pub const XREF_PATTERN: &'static str = "href=\"[^\"]*#[^\"]+\"";
/// Image tags.
pub const IMAGE_PATTERN: &'static str = "<img\\b[^>]*>";
/// An SVG that holds an image.
pub const SVG_IMAGE_PATTERN: &'static str = "(?is)<svg\\b[^>]*>.*?<image\\b[^>]*>.*?</svg>";
/// Image tags with an empty `alt`.
pub const EMPTY_ALT_PATTERN: &'static str = "<img\\b[^>]*\\balt\\s*=\\s*\"\"[^>]*>";
/// An `alt` attribute.
pub const HAS_ALT_PATTERN: &'static str = "\\balt\\s*=";

/// How many matches of `p` the text has.
pub open spec fn hits(p: Seq<char>, text: Seq<char>) -> nat {
    regex_scan_of(p, text).0.len()
}

/// How many image tags of the text have no `alt` at all.
pub open spec fn alt_less(ms: Seq<(Seq<char>, Seq<Option<Seq<char>>>)>) -> nat
    decreases ms.len(),
{
    if ms.len() == 0 {
        0
    } else {
        alt_less(ms.drop_last()) + if hits(HAS_ALT_PATTERN@, crate::patterns::group(ms.last().1, 0)) == 0 { 1nat } else { 0nat }
    }
}

/// `a + b`, capped at `usize::MAX`.
pub open spec fn sat_add(a: nat, b: nat) -> nat {
    if a + b > usize::MAX { usize::MAX as nat } else { a + b }
}

/// `a * b`, capped at `usize::MAX`.
pub open spec fn sat_mul(a: nat, b: nat) -> nat {
    if a * b > usize::MAX { usize::MAX as nat } else { a * b }
}

/// The counts of the first `n` spine documents: images, cross-references,
/// images without alt text, an SVG-wrapped image seen, image-dominated
/// chapters.
pub open spec fn profile_counts(book: EpubBook, opf_dir: Seq<char>, n: int) -> (nat, nat, nat, bool, nat)
    decreases n,
{
    if n <= 0 {
        (0, 0, 0, false, 0)
    } else {
        let (img, xref, alt, svg, gal) = profile_counts(book, opf_dir, n - 1);
        let t = spine_doc_text(book, opf_dir, n - 1);
        let ci = hits(IMAGE_PATTERN@, t);
        let text_len = if encode_utf8(t).len() >= sat_mul(ci, 200) { (encode_utf8(t).len() - sat_mul(ci, 200)) as nat } else { 0nat };
        (
            sat_add(img, ci),
            sat_add(xref, hits(XREF_PATTERN@, t)),
            sat_add(sat_add(alt, hits(EMPTY_ALT_PATTERN@, t)), alt_less(regex_scan_of(IMAGE_PATTERN@, t).0)),
            svg || hits(SVG_IMAGE_PATTERN@, t) > 0,
            if ci > 5 && sat_mul(ci, 100) > text_len { sat_add(gal, 1) } else { gal },
        )
    }
}

/// `a * b`, capped at `usize::MAX`.
fn saturating_product(a: usize, b: usize) -> (r: usize)
    ensures
        r as nat == sat_mul(a as nat, b as nat),
{
    if b != 0 && a > usize::MAX / b {
        proof {
            assert(a * b > usize::MAX) by (nonlinear_arith)
                requires b != 0, a > usize::MAX / b, b <= usize::MAX;
        }
        usize::MAX
    } else {
        proof {
            if b != 0 {
                assert(a * b <= usize::MAX) by (nonlinear_arith)
                    requires b != 0, a <= usize::MAX / b;
            } else {
                assert(a * b == 0) by (nonlinear_arith)
                    requires b == 0;
            }
        }
        a * b
    }
}

/// How many image tags among the matches have no `alt`.
fn count_alt_less(sc: &crate::patterns::Scan) -> (r: usize)
    ensures
        r as nat == alt_less(match_views(sc.matches@)),
{
    let ghost ms = match_views(sc.matches@);
    let mut n: usize = 0;
    let mut i: usize = 0;
    proof {
        assert(ms.take(0) =~= Seq::<(Seq<char>, Seq<Option<Seq<char>>>)>::empty());
    }
    while i < sc.matches.len()
        invariant
            i <= sc.matches@.len(),
            ms == match_views(sc.matches@),
            n as nat == alt_less(ms.take(i as int)),
            n <= i,
        decreases sc.matches.len() - i,
    {
        let tag = crate::html_to_md::group_string(&sc.matches[i].groups, 0);
        let has = regex_scan(HAS_ALT_PATTERN, tag.as_str());
        proof {
            assert(ms.take(i + 1).drop_last() =~= ms.take(i as int));
            assert(ms[i as int].1 == crate::patterns::group_views(sc.matches@[i as int].groups@));
            assert(match_views(has.matches@).len() == has.matches@.len());
        }
        if has.matches.len() == 0 {
            n = n + 1;
        }
        i = i + 1;
    }
    proof {
        assert(ms.take(i as int) =~= ms);
    }
    n
}

/// The structural profile of a book: image, cross-reference and missing
/// alt-text counts over the spine documents, whether an SVG wraps an
/// image, whether some chapter is dominated by images, and the genre these
/// point to.
pub fn analyze_book(book: &EpubBook) -> (r: BookProfile)
    requires
        book.wf(),
    ensures
        ({
            let (img, xref, alt, svg, gal) = profile_counts(*book, opf_dir_of(book.resources.key_seq()), book.spine@.len() as int);
            &&& r.spine_count == book.spine@.len()
            &&& r.image_count as nat == img
            &&& r.cross_reference_count as nat == xref
            &&& r.empty_alt_count as nat == alt
            &&& r.has_svg_cover == svg
            &&& r.has_image_gallery == (gal > 0)
            &&& r.genre == genre_of(book.spine@.len() as int, img as int, xref as int)
        }),
{
    let opf_dir = book.detect_opf_dir();
    let mut img: usize = 0;
    let mut xref: usize = 0;
    let mut alt: usize = 0;
    let mut svg = false;
    let mut gal: usize = 0;
    let mut i: usize = 0;
    while i < book.spine.len()
        invariant
            book.wf(),
            i <= book.spine@.len(),
            opf_dir@ == opf_dir_of(book.resources.key_seq()),
            profile_counts(*book, opf_dir@, i as int) == (img as nat, xref as nat, alt as nat, svg, gal as nat),
        decreases book.spine.len() - i,
    {
        let text = crate::chapter_org::spine_text(book, opf_dir.as_str(), i);
        let images = regex_scan(IMAGE_PATTERN, text.as_str());
        let xrefs = regex_scan(XREF_PATTERN, text.as_str());
        let empties = regex_scan(EMPTY_ALT_PATTERN, text.as_str());
        let svgs = regex_scan(SVG_IMAGE_PATTERN, text.as_str());
        proof {
            assert(match_views(images.matches@).len() == images.matches@.len());
            assert(match_views(xrefs.matches@).len() == xrefs.matches@.len());
            assert(match_views(empties.matches@).len() == empties.matches@.len());
            assert(match_views(svgs.matches@).len() == svgs.matches@.len());
        }
        let ci = images.matches.len();
        img = img.saturating_add(ci);
        xref = xref.saturating_add(xrefs.matches.len());
        alt = alt.saturating_add(empties.matches.len()).saturating_add(count_alt_less(&images));
        if svgs.matches.len() > 0 {
            svg = true;
        }
        let bytes = text.as_str().as_bytes_vec().len();
        let text_len = bytes.saturating_sub(saturating_product(ci, 200));
        if ci > 5 && saturating_product(ci, 100) > text_len {
            gal = gal.saturating_add(1);
        }
        i = i + 1;
    }
    BookProfile {
        genre: classify_genre(book.spine.len(), img, xref),
        spine_count: book.spine.len(),
        image_count: img,
        cross_reference_count: xref,
        has_image_gallery: gal > 0,
        has_svg_cover: svg,
        empty_alt_count: alt,
    }
}

} // verus!
