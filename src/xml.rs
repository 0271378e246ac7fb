//! Tokens of an XML document, as the pull parser hands them out.
//!
//! The parsers of the container, package and navigation documents are
//! verified functions over a sequence of these tokens.

use vstd::prelude::*;
use crate::error::EpxError;
use crate::text::{chars_of, seq_eq};
use quick_xml::events::Event;

verus! {

/// One event of the pull parser, with names and attribute values as text.
pub enum XmlToken {
    /// An opening tag (`empty` for a self-closing one): its local name and
    /// its attributes as `(qualified key, raw value)`, in document order.
    Open { name: String, attrs: Vec<(String, String)>, empty: bool },
    /// A closing tag and its local name.
    Close(String),
    /// Character data, with entities resolved.
    Text(String),
    /// Anything else (comments, declarations, processing instructions).
    Other,
    /// The end of the input.
    Eof,
    /// A syntax error, with the parser's message.
    Fail(String),
}

/// What a token holds, as values.
pub enum TokenView {
    Open(Seq<char>, Seq<(Seq<char>, Seq<char>)>, bool),
    Close(Seq<char>),
    Text(Seq<char>),
    Other,
}

/// The values of a list of attributes.
pub open spec fn attr_views(a: Seq<(String, String)>) -> Seq<(Seq<char>, Seq<char>)> {
    a.map_values(|x: (String, String)| (x.0@, x.1@))
}

/// What token `t` holds.
pub open spec fn token_view(t: XmlToken) -> TokenView {
    match t {
        XmlToken::Open { name, attrs, empty } => TokenView::Open(name@, attr_views(attrs@), empty),
        XmlToken::Close(n) => TokenView::Close(n@),
        XmlToken::Text(x) => TokenView::Text(x@),
        _ => TokenView::Other,
    }
}

/// What each token holds.
pub open spec fn token_views(ts: Seq<XmlToken>) -> Seq<TokenView> {
    ts.map_values(|t: XmlToken| token_view(t))
}

/// The kind of event number `i` (from 0) of the document `s`: 0 an opening
/// tag, 1 a self-closing tag, 2 a closing tag, 3 character data, 4 the end,
/// 5 anything else, 6 a syntax error.
pub uninterp spec fn xml_kind(s: Seq<char>, i: nat) -> u8;

/// The local name of the tag of event `i` of `s`.
pub uninterp spec fn xml_name(s: Seq<char>, i: nat) -> Seq<char>;

/// The character data of event `i` of `s`, entities resolved.
pub uninterp spec fn xml_text(s: Seq<char>, i: nat) -> Seq<char>;

/// The attributes `(qualified key, raw value)` of the tag of event `i`.
pub uninterp spec fn xml_attrs(s: Seq<char>, i: nat) -> Seq<(Seq<char>, Seq<char>)>;

/// Relies on `quick_xml::Reader::from_str` and `read_event`: the kind of
/// event `i` (6 when an earlier one fails).
#[verifier::external_body]
pub fn xml_kind_at(s: &str, i: usize) -> (r: u8)
    ensures
        r == xml_kind(s@, i as nat),
{
    let mut rd = quick_xml::Reader::from_str(s);
    for _ in 0..i {
        if rd.read_event().is_err() {
            return 6;
        }
    }
    match rd.read_event() {
        Ok(Event::Start(_)) => 0,
        Ok(Event::Empty(_)) => 1,
        Ok(Event::End(_)) => 2,
        Ok(Event::Text(_)) => 3,
        Ok(Event::Eof) => 4,
        Ok(_) => 5,
        Err(_) => 6,
    }
}

/// Relies on `quick_xml::Reader::read_event` and `local_name`: the local
/// name of the tag of event `i` (empty for other events).
#[verifier::external_body]
pub fn xml_name_at(s: &str, i: usize) -> (r: String)
    ensures
        r@ == xml_name(s@, i as nat),
{
    let mut rd = quick_xml::Reader::from_str(s);
    for _ in 0..i {
        if rd.read_event().is_err() {
            return String::new();
        }
    }
    match rd.read_event() {
        Ok(Event::Start(e)) | Ok(Event::Empty(e)) => String::from_utf8_lossy(e.local_name().as_ref()).into_owned(),
        Ok(Event::End(e)) => String::from_utf8_lossy(e.local_name().as_ref()).into_owned(),
        _ => String::new(),
    }
}

/// Relies on `quick_xml::Reader::read_event` and `BytesText::unescape`:
/// the character data of event `i`, entities resolved (empty for other
/// events or when they cannot be).
#[verifier::external_body]
pub fn xml_text_at(s: &str, i: usize) -> (r: String)
    ensures
        r@ == xml_text(s@, i as nat),
{
    let mut rd = quick_xml::Reader::from_str(s);
    for _ in 0..i {
        if rd.read_event().is_err() {
            return String::new();
        }
    }
    match rd.read_event() {
        Ok(Event::Text(e)) => e.unescape().map(|t| t.into_owned()).unwrap_or_default(),
        _ => String::new(),
    }
}

/// Relies on `quick_xml::Reader::read_event` and
/// `BytesStart::attributes`: the well-formed attributes of the tag of
/// event `i`, in order (none for other events).
#[verifier::external_body]
pub fn xml_attrs_at(s: &str, i: usize) -> (r: Vec<(String, String)>)
    ensures
        attr_views(r@) == xml_attrs(s@, i as nat),
{
    let mut rd = quick_xml::Reader::from_str(s);
    let mut attrs = Vec::new();
    for _ in 0..i {
        if rd.read_event().is_err() {
            return attrs;
        }
    }
    if let Ok(Event::Start(e)) | Ok(Event::Empty(e)) = rd.read_event() {
        for a in e.attributes().flatten() {
            attrs.push((String::from_utf8_lossy(a.key.as_ref()).into_owned(), String::from_utf8_lossy(&a.value).into_owned()));
        }
    }
    attrs
}

/// What event `i` of `s` holds.
pub open spec fn token_at(s: Seq<char>, i: nat) -> TokenView {
    let k = xml_kind(s, i);
    if k == 0 || k == 1 {
        TokenView::Open(xml_name(s, i), xml_attrs(s, i), k == 1)
    } else if k == 2 {
        TokenView::Close(xml_name(s, i))
    } else if k == 3 {
        TokenView::Text(xml_text(s, i))
    } else {
        TokenView::Other
    }
}

/// The end of input or an error.
pub open spec fn is_stop(k: u8) -> bool {
    k == 4 || k == 6
}

/// `n` is the first event of `s` that ends the document or fails, within
/// one event per character.
pub open spec fn is_stop_index(s: Seq<char>, n: nat) -> bool {
    &&& n <= s.len()
    &&& is_stop(xml_kind(s, n))
    &&& forall|j: nat| j < n ==> !is_stop(#[trigger] xml_kind(s, j))
}

/// The document parses: it reaches its end, without error, within one
/// event per character.
pub open spec fn xml_parses(s: Seq<char>) -> bool {
    exists|n: nat| is_stop_index(s, n) && xml_kind(s, n) == 4
}

/// The tokens of a document that parses, up to its end.
pub open spec fn xml_tokens_of(s: Seq<char>) -> Seq<TokenView> {
    if exists|n: nat| is_stop_index(s, n) {
        let n = choose|n: nat| is_stop_index(s, n);
        Seq::new(n, |i: int| token_at(s, i as nat))
    } else {
        Seq::empty()
    }
}

/// The first stop is unique.
pub proof fn lemma_stop_unique(s: Seq<char>, a: nat, b: nat)
    requires
        is_stop_index(s, a),
        is_stop_index(s, b),
    ensures
        a == b,
{
    if a < b {
        assert(!is_stop(xml_kind(s, a)));
    } else if b < a {
        assert(!is_stop(xml_kind(s, b)));
    }
}

/// Neither the end of input nor an error.
pub open spec fn is_content(t: XmlToken) -> bool {
    !(t is Eof) && !(t is Fail)
}

/// The tokens of the document `s` up to its end; an error when it does not
/// parse.
pub fn xml_tokens(s: &str) -> (r: Result<Vec<XmlToken>, EpxError>)
    ensures
        match r {
            Ok(toks) => xml_parses(s@) && token_views(toks@) == xml_tokens_of(s@)
                && forall|i: int| 0 <= i < toks@.len() ==> is_content(#[trigger] toks@[i]),
            Err(e) => e is Xml && !xml_parses(s@),
        },
{
    let cap = chars_of(s).len();
    let mut toks: Vec<XmlToken> = Vec::new();
    let mut i: usize = 0;
    proof {
        assert(token_views(toks@) =~= Seq::new(0, |j: int| token_at(s@, j as nat)));
    }
    loop
        invariant
            i <= cap,
            cap == s@.len(),
            forall|j: nat| j < i ==> !is_stop(#[trigger] xml_kind(s@, j)),
            token_views(toks@) == Seq::new(i as nat, |j: int| token_at(s@, j as nat)),
            forall|j: int| 0 <= j < toks@.len() ==> is_content(#[trigger] toks@[j]),
        decreases cap - i,
    {
        let k = xml_kind_at(s, i);
        if k == 4 || k == 6 {
            proof {
                assert(is_stop_index(s@, i as nat));
                assert forall|n: nat| is_stop_index(s@, n) implies n == i by {
                    lemma_stop_unique(s@, n, i as nat);
                }
            }
            if k == 4 {
                return Ok(toks);
            }
            return Err(EpxError::Xml(String::from_str("malformed XML")));
        }
        let t = if k == 0 || k == 1 {
            XmlToken::Open { name: xml_name_at(s, i), attrs: xml_attrs_at(s, i), empty: k == 1 }
        } else if k == 2 {
            XmlToken::Close(xml_name_at(s, i))
        } else if k == 3 {
            XmlToken::Text(xml_text_at(s, i))
        } else {
            XmlToken::Other
        };
        let ghost pre = toks@;
        proof {
            assert(token_view(t) == token_at(s@, i as nat));
        }
        toks.push(t);
        proof {
            assert(token_views(pre).len() == pre.len());
            assert(pre.len() == i);
            assert(toks@ == pre.push(t));
            assert(token_views(toks@) =~= token_views(pre).push(token_view(t)));
            assert(token_views(toks@) =~= Seq::new((i + 1) as nat, |j: int| token_at(s@, j as nat)));
        }
        if i == cap {
            proof {
                assert forall|n: nat| !is_stop_index(s@, n) by {
                    if is_stop_index(s@, n) {
                        assert(n <= i);
                        if n < i {
                        }
                    }
                }
            }
            return Err(EpxError::Xml(String::from_str("unterminated document")));
        }
        i = i + 1;
    }
}

/// The value of the first attribute with key `key`.
pub open spec fn first_attr(attrs: Seq<(String, String)>, key: Seq<char>) -> Option<Seq<char>>
    decreases attrs.len(),
{
    if attrs.len() == 0 {
        None
    } else {
        match first_attr(attrs.drop_last(), key) {
            Some(v) => Some(v),
            None => if attrs.last().0@ == key {
                Some(attrs.last().1@)
            } else {
                None
            },
        }
    }
}

/// The value of the last attribute with key `key`.
pub open spec fn last_attr(attrs: Seq<(String, String)>, key: Seq<char>) -> Option<Seq<char>>
    decreases attrs.len(),
{
    if attrs.len() == 0 {
        None
    } else if attrs.last().0@ == key {
        Some(attrs.last().1@)
    } else {
        last_attr(attrs.drop_last(), key)
    }
}

/// The value of the first attribute with key `key`.
pub fn find_attr(attrs: &Vec<(String, String)>, key: &str) -> (r: Option<String>)
    ensures
        match r {
            Some(v) => first_attr(attrs@, key@) == Some(v@),
            None => first_attr(attrs@, key@) is None,
        },
{
    let k = chars_of(key);
    let mut i: usize = 0;
    while i < attrs.len()
        invariant
            i <= attrs@.len(),
            k@ == key@,
            first_attr(attrs@.take(i as int), key@) is None,
        decreases attrs.len() - i,
    {
        proof {
            assert(attrs@.take(i + 1).drop_last() =~= attrs@.take(i as int));
        }
        let a = chars_of(attrs[i].0.as_str());
        if seq_eq(&a, &k) {
            proof {
                lemma_first_attr_prefix(attrs@, key@, i + 1);
            }
            return Some(attrs[i].1.clone());
        }
        i = i + 1;
    }
    proof {
        assert(attrs@.take(i as int) =~= attrs@);
    }
    None
}

/// A first match in a prefix is the first match of the whole.
proof fn lemma_first_attr_prefix(a: Seq<(String, String)>, key: Seq<char>, n: int)
    requires
        0 <= n <= a.len(),
        first_attr(a.take(n), key) is Some,
    ensures
        first_attr(a, key) == first_attr(a.take(n), key),
    decreases a.len() - n,
{
    if n < a.len() {
        assert(a.take(n + 1).drop_last() =~= a.take(n));
        lemma_first_attr_prefix(a, key, n + 1);
    } else {
        assert(a.take(n) =~= a);
    }
}

/// The value of the last attribute with key `key`.
pub fn find_last_attr(attrs: &Vec<(String, String)>, key: &str) -> (r: Option<String>)
    ensures
        match r {
            Some(v) => last_attr(attrs@, key@) == Some(v@),
            None => last_attr(attrs@, key@) is None,
        },
{
    let k = chars_of(key);
    let mut i: usize = attrs.len();
    proof {
        assert(attrs@.take(i as int) =~= attrs@);
    }
    while i > 0
        invariant
            i <= attrs@.len(),
            k@ == key@,
            last_attr(attrs@, key@) == last_attr(attrs@.take(i as int), key@),
        decreases i,
    {
        proof {
            assert(attrs@.take(i as int).drop_last() =~= attrs@.take(i - 1));
        }
        let a = chars_of(attrs[i - 1].0.as_str());
        if seq_eq(&a, &k) {
            return Some(attrs[i - 1].1.clone());
        }
        i = i - 1;
    }
    None
}

/// Whether the string `s` holds the characters of `lit`.
pub fn is_str(s: &String, lit: &str) -> (r: bool)
    ensures
        r == (s@ == lit@),
{
    crate::text::str_eq(s.as_str(), lit)
}

} // verus!
