//! Suite decoder: from the bytes of one report file to its suites.
//!
//! The recognized shapes are a document rooted at a single `testsuite`
//! element, or a collection root `testsuites` wrapping zero or more of them.
//! Anything else is a decode error; the error names neither shape.  Counts
//! embedded in the document (its own `tests`, `failures`, ... attributes)
//! are ignored: summaries are derived by scanning cases.  A case carrying
//! more than one outcome payload is resolved here, once, with the fixed
//! precedence failure, then error, then skipped.

use vstd::prelude::*;
use crate::duration::{spec_duration_from_secs, duration_from_secs_str, Duration};
use crate::strutil::str_eq;
use crate::xmlio::{
    children_views, lex_xml, parse_document, spec_doc, xml_events_of, ElemV, XmlElem,
};
use super::{
    spec_summary, JunitError, SuiteWithSummary, SummaryWith, TestCase, TestCaseV, TestFailure,
    TestFailureV, TestSkipped, TestSuite, TestSuiteV,
};

verus! {

/// The value of the first attribute named `key`, if any.
pub open spec fn attr_val(attrs: Seq<(Seq<char>, Seq<char>)>, key: Seq<char>) -> Option<Seq<char>>
    decreases attrs.len(),
{
    if attrs.len() == 0 {
        None
    } else if attrs[0].0 == key {
        Some(attrs[0].1)
    } else {
        attr_val(attrs.drop_first(), key)
    }
}

/// The first child element named `name`, if any.
pub open spec fn first_child_named(children: Seq<ElemV>, name: Seq<char>) -> Option<ElemV>
    decreases children.len(),
{
    if children.len() == 0 {
        None
    } else if children[0].name == name {
        Some(children[0])
    } else {
        first_child_named(children.drop_first(), name)
    }
}

/// What a `failure` or `error` element decodes to: the `type` attribute is
/// required, the `message` attribute optional, and the element's text body
/// is the stack trace.
pub open spec fn spec_failure(e: ElemV) -> Option<TestFailureV> {
    match attr_val(e.attrs, "type"@) {
        Some(cn) => Some(
            TestFailureV {
                message: attr_val(e.attrs, "message"@),
                classname: cn,
                stack_trace: e.text,
            },
        ),
        None => None,
    }
}

/// What a `testcase` element decodes to.  `name`, `classname` and a decimal
/// `time` are required; a present but malformed payload child is an error;
/// among several payloads, failure beats error beats skipped.
pub open spec fn spec_case(e: ElemV) -> Option<TestCaseV> {
    let name = attr_val(e.attrs, "name"@);
    let classname = attr_val(e.attrs, "classname"@);
    let time = match attr_val(e.attrs, "time"@) {
        Some(t) => spec_duration_from_secs(t),
        None => None,
    };
    if name is Some && classname is Some && time is Some {
        let fail_elem = first_child_named(e.children, "failure"@);
        let err_elem = first_child_named(e.children, "error"@);
        let has_skip = first_child_named(e.children, "skipped"@) is Some;
        let failure = match fail_elem {
            Some(c) => match spec_failure(c) {
                Some(f) => Some(Some(f)),
                None => None,
            },
            None => Some(None::<TestFailureV>),
        };
        let error = match err_elem {
            Some(c) => match spec_failure(c) {
                Some(f) => Some(Some(f)),
                None => None,
            },
            None => Some(None::<TestFailureV>),
        };
        match (failure, error) {
            (Some(failure), Some(error)) => Some(
                TestCaseV {
                    name: name->Some_0,
                    classname: classname->Some_0,
                    time: time->Some_0,
                    failure,
                    error: if failure is Some {
                        None
                    } else {
                        error
                    },
                    skipped: failure is None && error is None && has_skip,
                },
            ),
            _ => None,
        }
    } else {
        None
    }
}

/// The cases of a suite element: its children named `testcase`, in order;
/// other children (properties, output capture) are ignored.
pub open spec fn spec_cases(children: Seq<ElemV>) -> Option<Seq<TestCaseV>>
    decreases children.len(),
{
    if children.len() == 0 {
        Some(Seq::empty())
    } else {
        match spec_cases(children.drop_last()) {
            Some(rest) => if children.last().name == "testcase"@ {
                match spec_case(children.last()) {
                    Some(c) => Some(rest.push(c)),
                    None => None,
                }
            } else {
                Some(rest)
            },
            None => None,
        }
    }
}

/// What a `testsuite` element decodes to: a required `name`, a required
/// decimal `time` kept as reported, and the decoded cases.
pub open spec fn spec_suite(e: ElemV) -> Option<TestSuiteV> {
    let name = attr_val(e.attrs, "name"@);
    let time = match attr_val(e.attrs, "time"@) {
        Some(t) => spec_duration_from_secs(t),
        None => None,
    };
    if name is Some && time is Some {
        match spec_cases(e.children) {
            Some(cases) => Some(
                TestSuiteV { name: name->Some_0, time: time->Some_0, testcases: cases },
            ),
            None => None,
        }
    } else {
        None
    }
}

/// The suites of a collection root: its children named `testsuite`, in
/// order; other children are ignored.
pub open spec fn spec_suites(children: Seq<ElemV>) -> Option<Seq<TestSuiteV>>
    decreases children.len(),
{
    if children.len() == 0 {
        Some(Seq::empty())
    } else {
        match spec_suites(children.drop_last()) {
            Some(rest) => if children.last().name == "testsuite"@ {
                match spec_suite(children.last()) {
                    Some(s) => Some(rest.push(s)),
                    None => None,
                }
            } else {
                Some(rest)
            },
            None => None,
        }
    }
}

/// What a document root decodes to: a bare suite, a collection of suites,
/// or (for any other root) a decode error.
pub open spec fn spec_root_suites(root: ElemV) -> Option<Seq<TestSuiteV>> {
    if root.name == "testsuite"@ {
        match spec_suite(root) {
            Some(s) => Some(seq![s]),
            None => None,
        }
    } else if root.name == "testsuites"@ {
        spec_suites(root.children)
    } else {
        None
    }
}

/// What a report file's bytes decode to: `None` is a decode error.
pub open spec fn spec_read_suites(bytes: Seq<u8>) -> Option<Seq<TestSuiteV>> {
    match xml_events_of(bytes) {
        None => None,
        Some(evs) => match spec_doc(evs) {
            None => None,
            Some(root) => spec_root_suites(root),
        },
    }
}

/// A bare suite root and the same suite element wrapped in a collection
/// root decode to the same result.
pub proof fn lemma_bare_equals_wrapped(root: ElemV, wrapper: ElemV)
    requires
        root.name == "testsuite"@,
        wrapper.name == "testsuites"@,
        wrapper.children == seq![root],
    ensures
        spec_root_suites(wrapper) == spec_root_suites(root),
{
    reveal_strlit("testsuite");
    reveal_strlit("testsuites");
    assert(wrapper.name != "testsuite"@) by {
        assert("testsuite"@.len() != "testsuites"@.len());
    }
    assert(wrapper.children.drop_last() =~= Seq::<ElemV>::empty());
    assert(wrapper.children.last() == root);
    assert(spec_suites(Seq::<ElemV>::empty()) == Some(Seq::<TestSuiteV>::empty()));
    match spec_suite(root) {
        Some(s) => {
            assert(spec_suites(wrapper.children) == Some(Seq::<TestSuiteV>::empty().push(s)));
            assert(Seq::<TestSuiteV>::empty().push(s) =~= seq![s]);
        },
        None => {},
    }
}

/// Whether an executable suite list shows exactly the given suite views,
/// each paired with its derived summary.
pub open spec fn suites_match(v: Seq<SummaryWith<TestSuite>>, list: Seq<TestSuiteV>) -> bool {
    &&& v.len() == list.len()
    &&& forall|i: int|
        0 <= i < v.len() ==> (#[trigger] v[i]).value@ == list[i] && v[i].summary == spec_summary(
            list[i],
        )
}

/// Find the first attribute named `key`.
fn find_attr<'a>(attrs: &'a Vec<(String, String)>, key: &str) -> (r: Option<&'a String>)
    ensures
        match r {
            Some(v) => attr_val(attrs.deep_view(), key@) == Some(v@),
            None => attr_val(attrs.deep_view(), key@) is None,
        },
{
    let ghost whole = attrs.deep_view();
    assert(whole.skip(0) =~= whole);
    let n = attrs.len();
    let mut i: usize = 0;
    while i < n
        invariant
            i <= n,
            n == attrs@.len(),
            whole == attrs.deep_view(),
            whole.len() == n,
            attr_val(whole, key@) == attr_val(whole.skip(i as int), key@),
        decreases n - i,
    {
        proof {
            assert(whole.skip(i as int).drop_first() =~= whole.skip(i + 1 as int));
            assert(whole.skip(i as int)[0] == whole[i as int]);
        }
        if str_eq(attrs[i].0.as_str(), key) {
            return Some(&attrs[i].1);
        }
        i = i + 1;
    }
    assert(whole.skip(n as int) =~= Seq::<(Seq<char>, Seq<char>)>::empty());
    None
}

/// Find the first child element named `name`.
fn first_child<'a>(children: &'a Vec<XmlElem>, name: &str) -> (r: Option<&'a XmlElem>)
    ensures
        match r {
            Some(c) => first_child_named(children_views(children@), name@) == Some(c@),
            None => first_child_named(children_views(children@), name@) is None,
        },
{
    proof {
        lemma_children_views_index(children@);
    }
    let ghost cv = children_views(children@);
    assert(cv.skip(0) =~= cv);
    let n = children.len();
    let mut i: usize = 0;
    while i < n
        invariant
            i <= n,
            n == children@.len(),
            cv == children_views(children@),
            cv.len() == n,
            forall|q: int| 0 <= q < n ==> cv[q] == children@[q]@,
            first_child_named(cv, name@) == first_child_named(cv.skip(i as int), name@),
        decreases n - i,
    {
        proof {
            assert(cv.skip(i as int).drop_first() =~= cv.skip(i + 1 as int));
            assert(cv.skip(i as int)[0] == cv[i as int]);
        }
        if str_eq(children[i].name.as_str(), name) {
            return Some(&children[i]);
        }
        i = i + 1;
    }
    assert(cv.skip(n as int) =~= Seq::<ElemV>::empty());
    None
}

/// The views of a child list are its children's views, in place.
pub proof fn lemma_children_views_index(cs: Seq<XmlElem>)
    ensures
        children_views(cs).len() == cs.len(),
        forall|q: int| 0 <= q < cs.len() ==> children_views(cs)[q] == cs[q]@,
    decreases cs.len(),
{
    if cs.len() > 0 {
        lemma_children_views_index(cs.drop_last());
        assert(forall|q: int| 0 <= q < cs.len() - 1 ==> #[trigger] cs.drop_last()[q] == cs[q]);
    }
}

/// Decode a `failure` or `error` element's payload.
fn parse_failure(e: &XmlElem) -> (r: Option<TestFailure>)
    ensures
        match r {
            Some(f) => spec_failure(e@) == Some(f@),
            None => spec_failure(e@) is None,
        },
{
    let classname = match find_attr(&e.attrs, "type") {
        Some(cn) => cn.clone(),
        None => {
            return None;
        },
    };
    let message = match find_attr(&e.attrs, "message") {
        Some(m) => Some(m.clone()),
        None => None,
    };
    Some(TestFailure { message, classname, stack_trace: e.text.clone() })
}

/// Decode a `testcase` element.
fn parse_case(e: &XmlElem) -> (r: Option<TestCase>)
    ensures
        match r {
            Some(c) => spec_case(e@) == Some(c@),
            None => spec_case(e@) is None,
        },
{
    let name = match find_attr(&e.attrs, "name") {
        Some(v) => v.clone(),
        None => {
            return None;
        },
    };
    let classname = match find_attr(&e.attrs, "classname") {
        Some(v) => v.clone(),
        None => {
            return None;
        },
    };
    let time = match find_attr(&e.attrs, "time") {
        Some(v) => match duration_from_secs_str(v.as_str()) {
            Some(d) => d,
            None => {
                return None;
            },
        },
        None => {
            return None;
        },
    };
    let failure = match first_child(&e.children, "failure") {
        Some(c) => match parse_failure(c) {
            Some(f) => Some(f),
            None => {
                return None;
            },
        },
        None => None,
    };
    let error = match first_child(&e.children, "error") {
        Some(c) => match parse_failure(c) {
            Some(f) => Some(f),
            None => {
                return None;
            },
        },
        None => None,
    };
    let has_skip = first_child(&e.children, "skipped").is_some();

    // outcome precedence: failure, then error, then skipped
    let error = if failure.is_some() {
        None
    } else {
        error
    };
    let skipped = if failure.is_none() && error.is_none() && has_skip {
        Some(TestSkipped {  })
    } else {
        None
    };
    Some(TestCase { name, classname, time, failure, error, skipped })
}

/// Decode a `testsuite` element.
fn parse_suite(e: &XmlElem) -> (r: Option<TestSuite>)
    ensures
        match r {
            Some(s) => spec_suite(e@) == Some(s@),
            None => spec_suite(e@) is None,
        },
{
    let name = match find_attr(&e.attrs, "name") {
        Some(v) => v.clone(),
        None => {
            return None;
        },
    };
    let time = match find_attr(&e.attrs, "time") {
        Some(v) => match duration_from_secs_str(v.as_str()) {
            Some(d) => d,
            None => {
                return None;
            },
        },
        None => {
            return None;
        },
    };
    proof {
        lemma_children_views_index(e.children@);
    }
    let ghost cv = children_views(e.children@);
    let mut testcases: Vec<TestCase> = Vec::new();
    let n = e.children.len();
    let mut i: usize = 0;
    while i < n
        invariant
            i <= n,
            n == e.children@.len(),
            cv == children_views(e.children@),
            cv.len() == n,
            forall|q: int| 0 <= q < n ==> cv[q] == e.children@[q]@,
            spec_cases(cv.take(i as int)) == Some(
                testcases@.map_values(|c: TestCase| c@),
            ),
        decreases n - i,
    {
        proof {
            assert(cv.take(i + 1 as int).drop_last() =~= cv.take(i as int));
            assert(cv.take(i + 1 as int).last() == cv[i as int]);
        }
        let child = &e.children[i];
        if str_eq(child.name.as_str(), "testcase") {
            match parse_case(child) {
                Some(c) => {
                    let ghost before = testcases@;
                    testcases.push(c);
                    proof {
                        assert(testcases@.map_values(|c: TestCase| c@) =~= before.map_values(
                            |c: TestCase| c@,
                        ).push(testcases@.last()@));
                    }
                },
                None => {
                    proof {
                        lemma_spec_cases_extend_none(cv, i + 1 as int);
                    }
                    return None;
                },
            }
        }
        i = i + 1;
    }
    assert(cv.take(n as int) =~= cv);
    Some(TestSuite { name, time, testcases })
}

/// Once a prefix of the children fails to decode, the whole list does.
proof fn lemma_spec_cases_extend_none(cs: Seq<ElemV>, k: int)
    requires
        0 <= k <= cs.len(),
        spec_cases(cs.take(k)) is None,
    ensures
        spec_cases(cs) is None,
    decreases cs.len() - k,
{
    if k < cs.len() {
        assert(cs.take(k + 1).drop_last() =~= cs.take(k));
        lemma_spec_cases_extend_none(cs, k + 1);
    } else {
        assert(cs.take(k) =~= cs);
    }
}

/// Once a prefix of the collection's children fails to decode, the whole
/// collection does.
proof fn lemma_spec_suites_extend_none(cs: Seq<ElemV>, k: int)
    requires
        0 <= k <= cs.len(),
        spec_suites(cs.take(k)) is None,
    ensures
        spec_suites(cs) is None,
    decreases cs.len() - k,
{
    if k < cs.len() {
        assert(cs.take(k + 1).drop_last() =~= cs.take(k));
        lemma_spec_suites_extend_none(cs, k + 1);
    } else {
        assert(cs.take(k) =~= cs);
    }
}

/// Decode one report file's bytes into its suites, each paired with its
/// derived summary.  Accepts a bare `testsuite` root or a `testsuites`
/// collection root; anything else, and any malformed content, is an
/// `UnparsableXML` error.
#[verifier::loop_isolation(false)]
pub fn read_suites(input: &[u8]) -> (r: Result<Vec<SuiteWithSummary>, JunitError>)
    ensures
        match spec_read_suites(input@) {
            Some(list) => r is Ok && suites_match(r->Ok_0@, list),
            None => r is Err && r->Err_0 is UnparsableXML,
        },
{
    let events = match lex_xml(input) {
        Ok(v) => v,
        Err(msg) => {
            return Err(JunitError::UnparsableXML(msg));
        },
    };
    let root = match parse_document(&events) {
        Some(root) => root,
        None => {
            return Err(
                JunitError::UnparsableXML("the document is not a recognized report".to_owned()),
            );
        },
    };
    if str_eq(root.name.as_str(), "testsuite") {
        match parse_suite(&root) {
            Some(s) => {
                let ws = s.with_summary();
                let mut out: Vec<SuiteWithSummary> = Vec::new();
                out.push(ws);
                proof {
                    let list = spec_read_suites(input@)->Some_0;
                    assert(list =~= seq![out@[0].value@]);
                }
                Ok(out)
            },
            None => Err(
                JunitError::UnparsableXML("the suite element cannot be decoded".to_owned()),
            ),
        }
    } else if str_eq(root.name.as_str(), "testsuites") {
        proof {
            lemma_children_views_index(root.children@);
        }
        let ghost cv = children_views(root.children@);
        let mut out: Vec<SuiteWithSummary> = Vec::new();
        let n = root.children.len();
        let mut i: usize = 0;
        while i < n
            invariant
                i <= n,
                n == root.children@.len(),
                cv == children_views(root.children@),
                cv.len() == n,
                forall|q: int| 0 <= q < n ==> cv[q] == root.children@[q]@,
                ({
                    match spec_suites(cv.take(i as int)) {
                        Some(list) => suites_match(out@, list),
                        None => false,
                    }
                }),
            decreases n - i,
        {
            proof {
                assert(cv.take(i + 1 as int).drop_last() =~= cv.take(i as int));
                assert(cv.take(i + 1 as int).last() == cv[i as int]);
            }
            let child = &root.children[i];
            if str_eq(child.name.as_str(), "testsuite") {
                match parse_suite(child) {
                    Some(s) => {
                        out.push(s.with_summary());
                    },
                    None => {
                        proof {
                            lemma_spec_suites_extend_none(cv, i + 1 as int);
                        }
                        return Err(
                            JunitError::UnparsableXML(
                                "a suite element cannot be decoded".to_owned(),
                            ),
                        );
                    },
                }
            }
            i = i + 1;
        }
        assert(cv.take(n as int) =~= cv);
        Ok(out)
    } else {
        Err(JunitError::UnparsableXML("the root element is not a suite".to_owned()))
    }
}

} // verus!
