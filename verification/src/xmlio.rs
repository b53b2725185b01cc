//! The XML event stream and the element tree built from it.
//!
//! Lexing bytes into events is done by an outside XML pull parser; the event
//! stream a given byte sequence lexes to is given a name, `xml_events_of`,
//! and everything after that — building the element tree, and reading suites
//! out of it — is the library's own verified logic over that stream.

use vstd::prelude::*;
use xml::reader::{EventReader, XmlEvent};

verus! {

broadcast use vstd::std_specs::vec::group_vec_axioms;

/// One event of the XML stream, reduced to plain values: an opening tag with
/// its attributes, a closing tag, character data (text or CDATA), ignorable
/// whitespace, or anything else (declarations, comments, processing
/// instructions, document start and end).
pub enum RawEvent {
    Start { name: String, attrs: Vec<(String, String)> },
    End { name: String },
    Text { text: String },
    Space { text: String },
    Misc,
}

/// Mathematical image of a `RawEvent`.
pub enum RawEventV {
    Start { name: Seq<char>, attrs: Seq<(Seq<char>, Seq<char>)> },
    End { name: Seq<char> },
    Text { text: Seq<char> },
    Space { text: Seq<char> },
    Misc,
}

impl View for RawEvent {
    type V = RawEventV;

    open spec fn view(&self) -> RawEventV {
        match self {
            RawEvent::Start { name, attrs } => RawEventV::Start {
                name: name@,
                attrs: attrs.deep_view(),
            },
            RawEvent::End { name } => RawEventV::End { name: name@ },
            RawEvent::Text { text } => RawEventV::Text { text: text@ },
            RawEvent::Space { text } => RawEventV::Space { text: text@ },
            RawEvent::Misc => RawEventV::Misc,
        }
    }
}

impl DeepView for RawEvent {
    type V = RawEventV;

    open spec fn deep_view(&self) -> RawEventV {
        self.view()
    }
}

/// The event stream that a byte sequence lexes to, or nothing when the bytes
/// are not well-formed XML.  The stream is a function of the bytes alone.
pub uninterp spec fn xml_events_of(bytes: Seq<u8>) -> Option<Seq<RawEventV>>;

/// Relies on xml::reader::EventReader: pulls the event stream out of the
/// bytes, mapping each event kind to its plain-value image, and reports
/// malformed XML as the parser's error message.
#[verifier::external_body]
pub fn lex_xml(input: &[u8]) -> (r: Result<Vec<RawEvent>, String>)
    ensures
        match r {
            Ok(v) => xml_events_of(input@) == Some(v.deep_view()),
            Err(_) => xml_events_of(input@) is None,
        },
{
    let mut out: Vec<RawEvent> = Vec::new();
    for ev in EventReader::new(input) {
        out.push(match ev {
            Err(e) => return Err(e.to_string()),
            Ok(XmlEvent::StartElement { name, attributes, .. }) => RawEvent::Start {
                name: name.local_name,
                attrs: attributes.into_iter().map(|a| (a.name.local_name, a.value)).collect(),
            },
            Ok(XmlEvent::EndElement { name }) => RawEvent::End { name: name.local_name },
            Ok(XmlEvent::Characters(text)) | Ok(XmlEvent::CData(text)) => RawEvent::Text { text },
            Ok(XmlEvent::Whitespace(text)) => RawEvent::Space { text },
            Ok(_) => RawEvent::Misc,
        });
    }
    Ok(out)
}

/// An XML element: name, attributes in document order, the concatenation of
/// its character data, and its child elements in document order.
pub struct XmlElem {
    pub name: String,
    pub attrs: Vec<(String, String)>,
    pub text: String,
    pub children: Vec<XmlElem>,
}

/// Mathematical image of an `XmlElem`.
pub struct ElemV {
    pub name: Seq<char>,
    pub attrs: Seq<(Seq<char>, Seq<char>)>,
    pub text: Seq<char>,
    pub children: Seq<ElemV>,
}

pub open spec fn elem_view(e: XmlElem) -> ElemV
    decreases e,
    via elem_view_dec
{
    ElemV {
        name: e.name@,
        attrs: e.attrs.deep_view(),
        text: e.text@,
        children: children_views(e.children@),
    }
}

pub open spec fn children_views(cs: Seq<XmlElem>) -> Seq<ElemV>
    decreases cs,
    via children_views_dec
{
    if cs.len() == 0 {
        Seq::empty()
    } else {
        children_views(cs.drop_last()).push(elem_view(cs.last()))
    }
}

#[via_fn]
proof fn elem_view_dec(e: XmlElem) {
    assert(decreases_to!(e => e.children));
    vstd::std_specs::vec::axiom_vec_decreases_to_view(e.children);
}

#[via_fn]
proof fn children_views_dec(cs: Seq<XmlElem>) {
    if cs.len() > 0 {
        vstd::seq::axiom_seq_index_decreases(cs, cs.len() - 1);
        vstd::seq::axiom_seq_subrange_decreases(cs, 0, cs.len() - 1);
    }
}

impl View for XmlElem {
    type V = ElemV;

    open spec fn view(&self) -> ElemV {
        elem_view(*self)
    }
}

/// Parse one element starting at event `i`: `evs[i]` must open it, and its
/// content runs to the matching close.  Yields the element and the index
/// just past it.  The stream is well-nested by construction (the lexer
/// rejects mismatched tags), so close tags are not re-checked against names.
pub open spec fn spec_elem(evs: Seq<RawEventV>, i: int) -> Option<(ElemV, int)>
    decreases evs.len() - i, 0int,
{
    if 0 <= i < evs.len() {
        match evs[i] {
            RawEventV::Start { name, attrs } => match spec_items(evs, i + 1) {
                Some((children, text, j)) => Some(
                    (ElemV { name, attrs, text, children }, j),
                ),
                None => None,
            },
            _ => None,
        }
    } else {
        None
    }
}

/// Parse element content starting at event `i`: child elements and character
/// data up to a closing tag.  Yields the children, the concatenated text,
/// and the index just past the close.  `None` when the content never closes.
pub open spec fn spec_items(evs: Seq<RawEventV>, i: int) -> Option<(Seq<ElemV>, Seq<char>, int)>
    decreases evs.len() - i, 1int,
{
    if 0 <= i < evs.len() {
        match evs[i] {
            RawEventV::End { name } => Some((Seq::empty(), Seq::empty(), i + 1)),
            RawEventV::Start { name, attrs } => match spec_elem(evs, i) {
                Some((e, j)) => if i < j <= evs.len() {
                    match spec_items(evs, j) {
                        Some((cs, t, k)) => Some((seq![e] + cs, t, k)),
                        None => None,
                    }
                } else {
                    None
                },
                None => None,
            },
            RawEventV::Text { text } => match spec_items(evs, i + 1) {
                Some((cs, t, k)) => Some((cs, text + t, k)),
                None => None,
            },
            RawEventV::Space { .. } => spec_items(evs, i + 1),
            RawEventV::Misc => spec_items(evs, i + 1),
        }
    } else {
        None
    }
}

pub open spec fn ignorable(e: RawEventV) -> bool {
    e is Space || e is Misc
}

pub open spec fn all_ignorable_from(evs: Seq<RawEventV>, j: int) -> bool {
    forall|k: int| j <= k < evs.len() ==> ignorable(#[trigger] evs[k])
}

/// The document: ignorable events, one root element, ignorable events.
pub open spec fn spec_doc_from(evs: Seq<RawEventV>, i: int) -> Option<ElemV>
    decreases evs.len() - i,
{
    if 0 <= i < evs.len() {
        match evs[i] {
            RawEventV::Start { .. } => match spec_elem(evs, i) {
                Some((e, j)) => if all_ignorable_from(evs, j) {
                    Some(e)
                } else {
                    None
                },
                None => None,
            },
            RawEventV::Space { .. } => spec_doc_from(evs, i + 1),
            RawEventV::Misc => spec_doc_from(evs, i + 1),
            _ => None,
        }
    } else {
        None
    }
}

pub open spec fn spec_doc(evs: Seq<RawEventV>) -> Option<ElemV> {
    spec_doc_from(evs, 0)
}

/// Owned copies of a borrowed attribute list.
fn clone_attrs(attrs: &Vec<(String, String)>) -> (r: Vec<(String, String)>)
    ensures
        r.deep_view() == attrs.deep_view(),
{
    let mut out: Vec<(String, String)> = Vec::new();
    let n = attrs.len();
    let mut i: usize = 0;
    while i < n
        invariant
            i <= n,
            n == attrs@.len(),
            out.deep_view() =~~= attrs.deep_view().take(i as int),
        decreases n - i,
    {
        let pair = &attrs[i];
        out.push((pair.0.clone(), pair.1.clone()));
        assert(out.deep_view() =~~= attrs.deep_view().take(i + 1 as int));
        i = i + 1;
    }
    assert(out.deep_view() =~~= attrs.deep_view());
    out
}

/// Parse one element of the event stream, starting at `i`.
#[verifier::loop_isolation(false)]
pub fn parse_elem(evs: &Vec<RawEvent>, i: usize) -> (r: Option<(XmlElem, usize)>)
    ensures
        match r {
            Some((e, j)) => spec_elem(evs.deep_view(), i as int) == Some((e@, j as int)) && i < j
                <= evs@.len(),
            None => spec_elem(evs.deep_view(), i as int) is None,
        },
    decreases evs@.len() - i,
{
    let ghost devs = evs.deep_view();
    let n = evs.len();
    proof {
        assert(devs.len() == n);
    }
    if i >= n {
        return None;
    }
    let (name, attrs) = match &evs[i] {
        RawEvent::Start { name, attrs } => (name.clone(), clone_attrs(attrs)),
        _ => {
            assert(!(devs[i as int] is Start));
            return None;
        },
    };
    assert(devs[i as int] is Start);

    let mut children: Vec<XmlElem> = Vec::new();
    let mut text = String::new();
    let mut j = i + 1;
    loop
        invariant
            i + 1 <= j <= n,
            ({
                match spec_items(devs, j as int) {
                    Some((cs, t, k)) => spec_items(devs, i + 1 as int) == Some(
                        (children_views(children@) + cs, text@ + t, k),
                    ),
                    None => spec_items(devs, i + 1 as int) is None,
                }
            }),
        decreases n - j,
    {
        if j >= n {
            assert(spec_items(devs, j as int) is None);
            return None;
        }
        match &evs[j] {
            RawEvent::End { name: _ } => {
                assert(devs[j as int] is End);
                assert(spec_items(devs, j as int) == Some(
                    (Seq::<ElemV>::empty(), Seq::<char>::empty(), j + 1 as int),
                ));
                proof {
                    let cur = children_views(children@);
                    assert(cur + Seq::<ElemV>::empty() =~= cur);
                    assert(text@ + Seq::<char>::empty() =~= text@);
                }
                let elem = XmlElem { name, attrs, text, children };
                return Some((elem, j + 1));
            },
            RawEvent::Start { .. } => {
                assert(devs[j as int] is Start);
                let ghost j0 = j as int;
                match parse_elem(evs, j) {
                    Some((child, k)) => {
                        proof {
                            let cur = children_views(children@);
                            if spec_items(devs, k as int) is Some {
                                let (cs, t, fin) = spec_items(devs, k as int)->Some_0;
                                assert(spec_items(devs, j0) == Some(
                                    (seq![child@] + cs, t, fin),
                                ));
                                assert(cur + (seq![child@] + cs) =~= (cur.push(child@)) + cs);
                            }
                        }
                        let ghost before = children@;
                        children.push(child);
                        proof {
                            assert(children@.drop_last() =~= before);
                            assert(children_views(children@) =~= children_views(before).push(
                                child@,
                            ));
                        }
                        j = k;
                    },
                    None => {
                        assert(spec_items(devs, j0) is None);
                        return None;
                    },
                }
            },
            RawEvent::Text { text: t } => {
                assert(devs[j as int] is Text);
                let ghost before = text@;
                text.append(t.as_str());
                proof {
                    if spec_items(devs, j + 1 as int) is Some {
                        let (cs, t2, k) = spec_items(devs, j + 1 as int)->Some_0;
                        assert(before + ((devs[j as int])->Text_text + t2) =~= text@ + t2);
                    }
                }
                j = j + 1;
            },
            RawEvent::Space { .. } => {
                assert(devs[j as int] is Space);
                j = j + 1;
            },
            RawEvent::Misc => {
                assert(devs[j as int] is Misc);
                j = j + 1;
            },
        }
    }
}

/// Parse a whole document: one root element among ignorable events.
#[verifier::loop_isolation(false)]
pub fn parse_document(evs: &Vec<RawEvent>) -> (r: Option<XmlElem>)
    ensures
        match r {
            Some(e) => spec_doc(evs.deep_view()) == Some(e@),
            None => spec_doc(evs.deep_view()) is None,
        },
{
    let ghost devs = evs.deep_view();
    let n = evs.len();
    let mut i: usize = 0;
    while i < n
        invariant
            i <= n,
            n == evs@.len(),
            devs == evs.deep_view(),
            devs.len() == n,
            spec_doc(devs) == spec_doc_from(devs, i as int),
        decreases n - i,
    {
        match &evs[i] {
            RawEvent::Space { .. } => {
                assert(devs[i as int] is Space);
                i = i + 1;
            },
            RawEvent::Misc => {
                assert(devs[i as int] is Misc);
                i = i + 1;
            },
            RawEvent::Start { .. } => {
                assert(devs[i as int] is Start);
                match parse_elem(evs, i) {
                    None => {
                        return None;
                    },
                    Some((root, j)) => {
                        // everything after the root must be ignorable
                        let mut k = j;
                        while k < n
                            invariant
                                j <= k <= n,
                                n == evs@.len(),
                                devs == evs.deep_view(),
                                devs.len() == n,
                                forall|q: int| j <= q < k ==> ignorable(#[trigger] devs[q]),
                            decreases n - k,
                        {
                            match &evs[k] {
                                RawEvent::Space { .. } => {
                                    assert(devs[k as int] is Space);
                                },
                                RawEvent::Misc => {
                                    assert(devs[k as int] is Misc);
                                },
                                RawEvent::Start { .. } => {
                                    assert(devs[k as int] is Start);
                                    assert(!ignorable(devs[k as int]));
                                    return None;
                                },
                                RawEvent::End { .. } => {
                                    assert(devs[k as int] is End);
                                    assert(!ignorable(devs[k as int]));
                                    return None;
                                },
                                RawEvent::Text { .. } => {
                                    assert(devs[k as int] is Text);
                                    assert(!ignorable(devs[k as int]));
                                    return None;
                                },
                            }
                            k = k + 1;
                        }
                        assert(all_ignorable_from(devs, j as int));
                        return Some(root);
                    },
                }
            },
            RawEvent::End { .. } => {
                assert(devs[i as int] is End);
                return None;
            },
            RawEvent::Text { .. } => {
                assert(devs[i as int] is Text);
                return None;
            },
        }
    }
    assert(spec_doc_from(devs, i as int) is None);
    None
}

} // verus!
