//! Reading the table of contents from an EPUB 3 nav document or an EPUB 2
//! NCX document.

use vstd::prelude::*;
use crate::epub::{lemma_nav_nodes, nav_nodes, EpubVersion, ManifestItem, NavNode, NavPoint, Navigation};
use crate::error::EpxError;
use crate::text::{append_chars, chars_of, contains, is_suffix, str_contains, str_ends_with, string_of, trim, trimmed};
use crate::xml::{find_last_attr, is_str, last_attr, xml_tokens, XmlToken, token_views, xml_parses, xml_tokens_of};

verus! {

/// Parser state for a nav document: inside the `toc` nav, the stack of
/// lists under construction, the current link's href and label, inside a
/// link.
pub type NavState = (bool, Seq<Seq<NavNode>>, Seq<char>, Seq<char>, bool);

/// Some attribute's key ends with `type` and its value is `toc`.
pub open spec fn has_toc_type(attrs: Seq<(String, String)>) -> bool {
    exists|i: int| 0 <= i < attrs.len() && is_suffix("type"@, #[trigger] attrs[i].0@) && attrs[i].1@ == "toc"@
}

/// Closing a list: it becomes the children of the last point of the list
/// below it, or the content of that list when it is empty.
pub open spec fn close_list(stack: Seq<Seq<NavNode>>) -> Seq<Seq<NavNode>> {
    let children = if stack.len() > 0 { stack.last() } else { Seq::<NavNode>::empty() };
    let rest = if stack.len() > 0 { stack.drop_last() } else { stack };
    if rest.len() > 0 {
        let parent = rest.last();
        let parent2 = if parent.len() > 0 {
            parent.update(parent.len() - 1, NavNode { label: parent.last().label, href: parent.last().href, children })
        } else {
            children
        };
        rest.update(rest.len() - 1, parent2)
    } else {
        rest
    }
}

/// Closing a link: a point with its trimmed label and href joins the list
/// on top of the stack.
pub open spec fn close_link(stack: Seq<Seq<NavNode>>, href: Seq<char>, label: Seq<char>) -> Seq<Seq<NavNode>> {
    if stack.len() > 0 {
        stack.update(
            stack.len() - 1,
            stack.last().push(NavNode { label: trimmed(label), href, children: Seq::<NavNode>::empty() }),
        )
    } else {
        stack
    }
}

/// One step of the nav document parser.
pub open spec fn nav_step(st: NavState, t: XmlToken) -> NavState {
    let (in_nav, stack, href, label, in_a) = st;
    match t {
        XmlToken::Open { name, attrs, empty } => if empty {
            st
        } else if name@ == "nav"@ {
            (in_nav || has_toc_type(attrs@), stack, href, label, in_a)
        } else if !in_nav {
            st
        } else if name@ == "ol"@ {
            (in_nav, stack.push(Seq::<NavNode>::empty()), href, label, in_a)
        } else if name@ == "a"@ {
            let h = match last_attr(attrs@, "href"@) {
                Some(v) => v,
                None => Seq::<char>::empty(),
            };
            (in_nav, stack, h, Seq::<char>::empty(), true)
        } else {
            st
        },
        XmlToken::Text(x) => if in_a && in_nav {
            (in_nav, stack, href, label + x@, in_a)
        } else {
            st
        },
        XmlToken::Close(name) => if name@ == "nav"@ && in_nav {
            (false, stack, href, label, in_a)
        } else if !in_nav {
            st
        } else if name@ == "a"@ {
            (in_nav, close_link(stack, href, label), href, label, false)
        } else if name@ == "ol"@ {
            (in_nav, close_list(stack), href, label, in_a)
        } else {
            st
        },
        _ => st,
    }
}

/// The nav parser's state after the tokens `toks`.
pub open spec fn nav_run(toks: Seq<XmlToken>) -> NavState
    decreases toks.len(),
{
    if toks.len() == 0 {
        (false, seq![Seq::<NavNode>::empty()], Seq::<char>::empty(), Seq::<char>::empty(), false)
    } else {
        nav_step(nav_run(toks.drop_last()), toks.last())
    }
}

/// The table of contents that a nav document's tokens give: the bottom
/// list of the stack.
pub open spec fn nav_toc(toks: Seq<XmlToken>) -> Seq<NavNode> {
    let stack = nav_run(toks).1;
    if stack.len() > 0 {
        stack[0]
    } else {
        Seq::<NavNode>::empty()
    }
}

/// The values of a stack of point lists.
pub open spec fn stack_nodes(stack: Seq<Vec<NavPoint>>) -> Seq<Seq<NavNode>> {
    stack.map_values(|v: Vec<NavPoint>| nav_nodes(v@))
}

/// Whether some attribute marks a `toc` nav.
fn find_toc_type(attrs: &Vec<(String, String)>) -> (r: bool)
    ensures
        r == has_toc_type(attrs@),
{
    let mut i: usize = 0;
    while i < attrs.len()
        invariant
            i <= attrs@.len(),
            forall|j: int| 0 <= j < i ==> !(is_suffix("type"@, #[trigger] attrs@[j].0@) && attrs@[j].1@ == "toc"@),
        decreases attrs.len() - i,
    {
        if str_ends_with(attrs[i].0.as_str(), "type") && is_str(&attrs[i].1, "toc") {
            return true;
        }
        i = i + 1;
    }
    false
}

/// The table of contents of a nav document, from its tokens.
pub fn nav_from_tokens(toks: &Vec<XmlToken>) -> (r: Vec<NavPoint>)
    ensures
        nav_nodes(r@) == nav_toc(toks@),
{
    let mut in_nav = false;
    let mut stack: Vec<Vec<NavPoint>> = Vec::new();
    stack.push(Vec::new());
    let mut href = String::new();
    let mut label: Vec<char> = Vec::new();
    let mut in_a = false;
    let mut i: usize = 0;
    proof {
        assert(toks@.take(0) =~= Seq::<XmlToken>::empty());
        assert(stack_nodes(stack@) =~= seq![Seq::<NavNode>::empty()]);
    }
    while i < toks.len()
        invariant
            i <= toks@.len(),
            nav_run(toks@.take(i as int)) == (in_nav, stack_nodes(stack@), href@, label@, in_a),
        decreases toks.len() - i,
    {
        proof {
            assert(toks@.take(i + 1).drop_last() =~= toks@.take(i as int));
        }
        let ghost st = (in_nav, stack_nodes(stack@), href@, label@, in_a);
        match &toks[i] {
            XmlToken::Open { name, attrs, empty } => {
                if *empty {
                } else if is_str(name, "nav") {
                    if find_toc_type(attrs) {
                        in_nav = true;
                    }
                } else if !in_nav {
                } else if is_str(name, "ol") {
                    let ghost pre = stack@;
                    stack.push(Vec::new());
                    proof {
                        assert(stack_nodes(stack@) =~= stack_nodes(pre).push(Seq::<NavNode>::empty()));
                    }
                } else if is_str(name, "a") {
                    in_a = true;
                    label = Vec::new();
                    href = match find_last_attr(attrs, "href") {
                        Some(v) => v,
                        None => String::new(),
                    };
                }
            },
            XmlToken::Text(x) => {
                if in_a && in_nav {
                    let xv = chars_of(x.as_str());
                    append_chars(&mut label, &xv);
                }
            },
            XmlToken::Close(name) => {
                if is_str(name, "nav") && in_nav {
                    in_nav = false;
                } else if !in_nav {
                } else if is_str(name, "a") {
                    in_a = false;
                    let t = trim(&label);
                    let point = NavPoint { label: string_of(&t), href: href.clone(), children: Vec::new() };
                    push_on_top(&mut stack, point);
                } else if is_str(name, "ol") {
                    close_top_list(&mut stack);
                }
            },
            _ => {},
        }
        i = i + 1;
    }
    proof {
        assert(toks@.take(i as int) =~= toks@);
    }
    if stack.len() > 0 {
        let ghost s0 = stack@[0];
        let mut first = stack.swap_remove(0);
        proof {
            assert(first@ == s0@);
        }
        first
    } else {
        Vec::new()
    }
}

/// Adds `point` to the list on top of the stack (if any).
fn push_on_top(stack: &mut Vec<Vec<NavPoint>>, point: NavPoint)
    ensures
        stack_nodes(final(stack)@) == (if old(stack)@.len() > 0 {
            stack_nodes(old(stack)@).update(
                old(stack)@.len() - 1,
                stack_nodes(old(stack)@).last().push(
                    NavNode { label: point.label@, href: point.href@, children: nav_nodes(point.children@) },
                ),
            )
        } else {
            stack_nodes(old(stack)@)
        }),
{
    let ghost pre = stack@;
    match stack.pop() {
        Some(mut top) => {
            let ghost t0 = top@;
            top.push(point);
            proof {
                assert(top@.drop_last() =~= t0);
            }
            stack.push(top);
            proof {
                assert(stack_nodes(stack@) =~= stack_nodes(pre).update(
                    pre.len() - 1,
                    stack_nodes(pre).last().push(
                        NavNode { label: point.label@, href: point.href@, children: nav_nodes(point.children@) },
                    ),
                ));
            }
        },
        None => {},
    }
}

/// Closes the list on top of the stack (see `close_list`).
fn close_top_list(stack: &mut Vec<Vec<NavPoint>>)
    ensures
        stack_nodes(final(stack)@) == close_list(stack_nodes(old(stack)@)),
{
    let ghost pre = stack@;
    let children = match stack.pop() {
        Some(c) => c,
        None => Vec::new(),
    };
    proof {
        assert(stack_nodes(stack@) =~= (if pre.len() > 0 { stack_nodes(pre).drop_last() } else { stack_nodes(pre) }));
    }
    let ghost rest = stack@;
    match stack.pop() {
        Some(mut parent) => {
            let ghost par = parent@;
            proof {
                lemma_nav_nodes(par);
            }
            match parent.pop() {
                Some(mut p) => {
                    p.children = children;
                    parent.push(p);
                    proof {
                        assert(parent@.drop_last() =~= par.drop_last());
                        assert(nav_nodes(parent@) =~= nav_nodes(par).update(
                            par.len() - 1,
                            NavNode { label: nav_nodes(par).last().label, href: nav_nodes(par).last().href, children: nav_nodes(children@) },
                        )) by {
                            assert(nav_nodes(par) == nav_nodes(par.drop_last()).push(nav_nodes(par).last()));
                        }
                    }
                    stack.push(parent);
                },
                None => {
                    stack.push(children);
                },
            }
            proof {
                assert(stack_nodes(stack@) =~= close_list(stack_nodes(pre)));
            }
        },
        None => {
            proof {
                assert(stack_nodes(stack@) =~= close_list(stack_nodes(pre)));
            }
        },
    }
}

/// Reads the table of contents of an EPUB 3 nav document.
pub fn parse_nav_xhtml(html: &str) -> (r: Result<Navigation, EpxError>)
    ensures
        match r {
            Ok(nav) => nav.epub_version == EpubVersion::V3 && nav.landmarks@.len() == 0
                && nav.page_list@.len() == 0 && xml_parses(html@) && exists|toks: Seq<XmlToken>|
                token_views(toks) == xml_tokens_of(html@) && nav_nodes(nav.toc@) == nav_toc(toks),
            Err(e) => e is Xml && !xml_parses(html@),
        },
{
    let toks = match xml_tokens(html) {
        Ok(t) => t,
        Err(e) => return Err(e),
    };
    let toc = nav_from_tokens(&toks);
    Ok(Navigation { toc, landmarks: Vec::new(), page_list: Vec::new(), epub_version: EpubVersion::V3 })
}

/// Parser state for an NCX document: the points under construction
/// (innermost last), the finished top-level points, inside a `text`
/// element, the text read there.
pub type NcxState = (Seq<NavNode>, Seq<NavNode>, bool, Seq<char>);

/// `n` with another href.
pub open spec fn with_href(n: NavNode, h: Seq<char>) -> NavNode {
    NavNode { label: n.label, href: h, children: n.children }
}

/// `n` with another label.
pub open spec fn with_label(n: NavNode, l: Seq<char>) -> NavNode {
    NavNode { label: l, href: n.href, children: n.children }
}

/// One step of the NCX parser.
pub open spec fn ncx_step(st: NcxState, t: XmlToken) -> NcxState {
    let (stack, done, in_text, label) = st;
    match t {
        XmlToken::Open { name, attrs, empty } => if !empty && name@ == "navPoint"@ {
            (stack.push(NavNode { label: Seq::<char>::empty(), href: Seq::<char>::empty(), children: Seq::<NavNode>::empty() }), done, in_text, label)
        } else if !empty && name@ == "text"@ {
            (stack, done, true, Seq::<char>::empty())
        } else if empty && name@ == "content"@ && stack.len() > 0 {
            match last_attr(attrs@, "src"@) {
                Some(v) => (stack.update(stack.len() - 1, with_href(stack.last(), v)), done, in_text, label),
                None => st,
            }
        } else {
            st
        },
        XmlToken::Text(x) => if in_text {
            (stack, done, in_text, label + x@)
        } else {
            st
        },
        XmlToken::Close(name) => if name@ == "text"@ {
            if stack.len() > 0 {
                (stack.update(stack.len() - 1, with_label(stack.last(), trimmed(label))), done, false, label)
            } else {
                (stack, done, false, label)
            }
        } else if name@ == "navPoint"@ && stack.len() > 0 {
            let point = stack.last();
            let rest = stack.drop_last();
            if rest.len() > 0 {
                let parent = rest.last();
                (rest.update(rest.len() - 1, NavNode { label: parent.label, href: parent.href, children: parent.children.push(point) }), done, in_text, label)
            } else {
                (rest, done.push(point), in_text, label)
            }
        } else {
            st
        },
        _ => st,
    }
}

/// The NCX parser's state after the tokens `toks`.
pub open spec fn ncx_run(toks: Seq<XmlToken>) -> NcxState
    decreases toks.len(),
{
    if toks.len() == 0 {
        (Seq::<NavNode>::empty(), Seq::<NavNode>::empty(), false, Seq::<char>::empty())
    } else {
        ncx_step(ncx_run(toks.drop_last()), toks.last())
    }
}

/// The values of one point.
pub open spec fn node_of(p: NavPoint) -> NavNode {
    NavNode { label: p.label@, href: p.href@, children: nav_nodes(p.children@) }
}

/// The values of each point of a sequence, one by one.
pub open spec fn each_node(ps: Seq<NavPoint>) -> Seq<NavNode> {
    ps.map_values(|p: NavPoint| node_of(p))
}

/// The top-level points of an NCX document, from its tokens. Every
/// `navPoint` that closes with none open around it is one; one that closes
/// with nothing open is ignored.
pub fn ncx_from_tokens(toks: &Vec<XmlToken>) -> (r: Vec<NavPoint>)
    ensures
        nav_nodes(r@) == ncx_run(toks@).1,
{
    let mut stack: Vec<NavPoint> = Vec::new();
    let mut done: Vec<NavPoint> = Vec::new();
    let mut in_text = false;
    let mut label: Vec<char> = Vec::new();
    let mut i: usize = 0;
    proof {
        assert(toks@.take(0) =~= Seq::<XmlToken>::empty());
        assert(each_node(stack@) =~= Seq::<NavNode>::empty());
    }
    while i < toks.len()
        invariant
            i <= toks@.len(),
            ncx_run(toks@.take(i as int)) == (each_node(stack@), nav_nodes(done@), in_text, label@),
        decreases toks.len() - i,
    {
        proof {
            assert(toks@.take(i + 1).drop_last() =~= toks@.take(i as int));
            lemma_nav_nodes(done@);
        }
        let ghost pre_stack = stack@;
        match &toks[i] {
            XmlToken::Open { name, attrs, empty } => {
                if !*empty && is_str(name, "navPoint") {
                    stack.push(NavPoint { label: String::new(), href: String::new(), children: Vec::new() });
                    proof {
                        assert(nav_nodes(Seq::<NavPoint>::empty()) =~= Seq::<NavNode>::empty());
                        assert(each_node(stack@) =~= each_node(pre_stack).push(
                            NavNode { label: Seq::<char>::empty(), href: Seq::<char>::empty(), children: Seq::<NavNode>::empty() },
                        ));
                    }
                } else if !*empty && is_str(name, "text") {
                    in_text = true;
                    label = Vec::new();
                } else if *empty && is_str(name, "content") && stack.len() > 0 {
                    match find_last_attr(attrs, "src") {
                        Some(v) => {
                            let mut top = stack.pop().unwrap();
                            top.href = v;
                            stack.push(top);
                            proof {
                                assert(each_node(stack@) =~= each_node(pre_stack).update(
                                    pre_stack.len() - 1,
                                    with_href(each_node(pre_stack).last(), v@),
                                ));
                            }
                        },
                        None => {},
                    }
                }
            },
            XmlToken::Text(x) => {
                if in_text {
                    let xv = chars_of(x.as_str());
                    append_chars(&mut label, &xv);
                }
            },
            XmlToken::Close(name) => {
                if is_str(name, "text") {
                    in_text = false;
                    if stack.len() > 0 {
                        let t = trim(&label);
                        let mut top = stack.pop().unwrap();
                        top.label = string_of(&t);
                        stack.push(top);
                        proof {
                            assert(each_node(stack@) =~= each_node(pre_stack).update(
                                pre_stack.len() - 1,
                                with_label(each_node(pre_stack).last(), trimmed(label@)),
                            ));
                        }
                    }
                } else if is_str(name, "navPoint") && stack.len() > 0 {
                    let point = stack.pop().unwrap();
                    proof {
                        assert(each_node(stack@) =~= each_node(pre_stack).drop_last());
                    }
                    let ghost mid = stack@;
                    if stack.len() > 0 {
                        let mut parent = stack.pop().unwrap();
                        let ghost pc = parent.children@;
                        parent.children.push(point);
                        proof {
                            assert(parent.children@.drop_last() =~= pc);
                        }
                        stack.push(parent);
                        proof {
                            assert(each_node(stack@) =~= each_node(mid).update(
                                mid.len() - 1,
                                NavNode {
                                    label: each_node(mid).last().label,
                                    href: each_node(mid).last().href,
                                    children: each_node(mid).last().children.push(node_of(point)),
                                },
                            ));
                        }
                    } else {
                        let ghost pd = done@;
                        done.push(point);
                        proof {
                            assert(done@.drop_last() =~= pd);
                        }
                    }
                }
            },
            _ => {},
        }
        i = i + 1;
    }
    proof {
        assert(toks@.take(i as int) =~= toks@);
    }
    done
}

/// Reads the table of contents of an NCX document.
pub fn parse_ncx(xml: &str) -> (r: Result<Vec<NavPoint>, EpxError>)
    ensures
        match r {
            Ok(toc) => xml_parses(xml@) && exists|toks: Seq<XmlToken>|
                token_views(toks) == xml_tokens_of(xml@) && nav_nodes(toc@) == ncx_run(toks).1,
            Err(e) => e is Xml && !xml_parses(xml@),
        },
{
    let toks = match xml_tokens(xml) {
        Ok(t) => t,
        Err(e) => return Err(e),
    };
    Ok(ncx_from_tokens(&toks))
}

/// The index of the first manifest item whose properties mention `nav`.
pub open spec fn is_first_nav_item(m: Seq<ManifestItem>, i: int) -> bool {
    &&& 0 <= i < m.len()
    &&& m[i].properties is Some && contains(m[i].properties->Some_0@, "nav"@)
    &&& forall|j: int| 0 <= j < i ==> !(#[trigger] m[j].properties is Some && contains(m[j].properties->Some_0@, "nav"@))
}

/// The index of the first NCX manifest item.
pub open spec fn is_first_ncx_item(m: Seq<ManifestItem>, i: int) -> bool {
    &&& 0 <= i < m.len()
    &&& m[i].media_type@ == "application/x-dtbncx+xml"@
    &&& forall|j: int| 0 <= j < i ==> #[trigger] m[j].media_type@ != "application/x-dtbncx+xml"@
}

/// The first manifest item whose properties mention `nav`.
fn find_nav_item(manifest: &Vec<ManifestItem>) -> (r: Option<usize>)
    ensures
        match r {
            Some(i) => is_first_nav_item(manifest@, i as int),
            None => forall|j: int| 0 <= j < manifest@.len() ==> !(#[trigger] manifest@[j].properties is Some
                && contains(manifest@[j].properties->Some_0@, "nav"@)),
        },
{
    let mut i: usize = 0;
    while i < manifest.len()
        invariant
            i <= manifest@.len(),
            forall|j: int| 0 <= j < i ==> !(#[trigger] manifest@[j].properties is Some
                && contains(manifest@[j].properties->Some_0@, "nav"@)),
        decreases manifest.len() - i,
    {
        match &manifest[i].properties {
            Some(p) => {
                if str_contains(p.as_str(), "nav") {
                    return Some(i);
                }
            },
            None => {},
        }
        i = i + 1;
    }
    None
}

/// The first NCX manifest item.
fn find_ncx_item(manifest: &Vec<ManifestItem>) -> (r: Option<usize>)
    ensures
        match r {
            Some(i) => is_first_ncx_item(manifest@, i as int),
            None => forall|j: int| 0 <= j < manifest@.len() ==> #[trigger] manifest@[j].media_type@
                != "application/x-dtbncx+xml"@,
        },
{
    let mut i: usize = 0;
    while i < manifest.len()
        invariant
            i <= manifest@.len(),
            forall|j: int| 0 <= j < i ==> #[trigger] manifest@[j].media_type@ != "application/x-dtbncx+xml"@,
        decreases manifest.len() - i,
    {
        if is_str(&manifest[i].media_type, "application/x-dtbncx+xml") {
            return Some(i);
        }
        i = i + 1;
    }
    None
}

/// The values of an optional string.
pub open spec fn opt_view(o: Option<String>) -> Option<Seq<char>> {
    match o {
        Some(x) => Some(x@),
        None => None,
    }
}

/// The navigation that `manifest` gives when the content read for its first
/// nav item is `v1` and for its first NCX item `v2`: the nav document when
/// there is one and it parses (V3); else the NCX when there is one, its
/// parse (V2) or an XML error; else an empty V3 navigation.
pub open spec fn nav_outcome(m: Seq<ManifestItem>, v1: Option<Seq<char>>, v2: Option<Seq<char>>, r: Result<Navigation, EpxError>) -> bool {
    if (exists|i: int| is_first_nav_item(m, i)) && v1 is Some && xml_parses(v1->Some_0) {
        r matches Ok(nav) && nav.epub_version == EpubVersion::V3 && nav.landmarks@.len() == 0
            && nav.page_list@.len() == 0 && exists|toks: Seq<XmlToken>|
            token_views(toks) == xml_tokens_of(v1->Some_0) && nav_nodes(nav.toc@) == nav_toc(toks)
    } else if (exists|i: int| is_first_ncx_item(m, i)) && v2 is Some {
        if xml_parses(v2->Some_0) {
            r matches Ok(nav) && nav.epub_version == EpubVersion::V2 && nav.landmarks@.len() == 0
                && nav.page_list@.len() == 0 && exists|toks: Seq<XmlToken>|
                token_views(toks) == xml_tokens_of(v2->Some_0) && nav_nodes(nav.toc@) == ncx_run(toks).1
        } else {
            r matches Err(e) && e is Xml
        }
    } else {
        r matches Ok(nav) && nav.epub_version == EpubVersion::V3 && nav.toc@.len() == 0
            && nav.landmarks@.len() == 0 && nav.page_list@.len() == 0
    }
}

/// The navigation of a book whose manifest is `manifest`, reading documents
/// through `get_content` (by manifest href). The first item whose
/// properties mention `nav` is read as an EPUB 3 nav document, and used
/// when its content is there and parses; otherwise the first NCX item is
/// read, and an error in it is returned; with neither, the navigation is
/// empty.
pub fn parse_navigation<F: Fn(&str) -> Option<String>>(manifest: &Vec<ManifestItem>, get_content: &F) -> (r: Result<Navigation, EpxError>)
    requires
        forall|s: &str| get_content.requires((s,)),
    ensures
        exists|c1: Option<String>, c2: Option<String>| {
            &&& forall|i: int| is_first_nav_item(manifest@, i) ==> exists|h: &str|
                h@ == manifest@[i].href@ && get_content.ensures((h,), c1)
            &&& forall|i: int| is_first_ncx_item(manifest@, i) && !((exists|k: int| is_first_nav_item(manifest@, k))
                && c1 is Some && xml_parses(c1->Some_0@)) ==> exists|h: &str|
                h@ == manifest@[i].href@ && get_content.ensures((h,), c2)
            &&& nav_outcome(manifest@, opt_view(c1), opt_view(c2), r)
        },
{
    let ghost mut g1: Option<String> = None;
    let ghost mut g2: Option<String> = None;
    match find_nav_item(manifest) {
        Some(i) => {
            let h = manifest[i].href.as_str();
            let c = get_content(h);
            proof {
                g1 = c;
                assert(h@ == manifest@[i as int].href@ && get_content.ensures((h,), g1));
                assert forall|k: int| is_first_nav_item(manifest@, k) implies k == i by {
                    if k < i {
                    } else if k > i {
                    }
                }
            }
            match c {
                Some(content) => {
                    match parse_nav_xhtml(content.as_str()) {
                        Ok(nav) => {
                            proof {
                                assert(nav_outcome(manifest@, opt_view(g1), opt_view(g2), Ok(nav)));
                            }
                            return Ok(nav);
                        },
                        Err(_) => {},
                    }
                },
                None => {},
            }
        },
        None => {},
    }
    let ghost nav_ok = (exists|k: int| is_first_nav_item(manifest@, k)) && g1 is Some && xml_parses(g1->Some_0@);
    assert(!nav_ok);
    match find_ncx_item(manifest) {
        Some(i) => {
            let h = manifest[i].href.as_str();
            let c = get_content(h);
            proof {
                g2 = c;
                assert(h@ == manifest@[i as int].href@ && get_content.ensures((h,), g2));
                assert forall|k: int| is_first_ncx_item(manifest@, k) implies k == i by {
                    if k < i {
                    } else if k > i {
                    }
                }
            }
            match c {
                Some(content) => {
                    let toc = match parse_ncx(content.as_str()) {
                        Ok(t) => t,
                        Err(e) => {
                            proof {
                                assert(nav_outcome(manifest@, opt_view(g1), opt_view(g2), Err::<Navigation, EpxError>(e)));
                            }
                            return Err(e);
                        },
                    };
                    let nav = Navigation { toc, landmarks: Vec::new(), page_list: Vec::new(), epub_version: EpubVersion::V2 };
                    proof {
                        assert(nav_outcome(manifest@, opt_view(g1), opt_view(g2), Ok::<Navigation, EpxError>(nav)));
                    }
                    return Ok(nav);
                },
                None => {},
            }
        },
        None => {},
    }
    let nav = Navigation { toc: Vec::new(), landmarks: Vec::new(), page_list: Vec::new(), epub_version: EpubVersion::V3 };
    proof {
        assert(nav_outcome(manifest@, opt_view(g1), opt_view(g2), Ok::<Navigation, EpxError>(nav)));
    }
    Ok(nav)
}

} // verus!
