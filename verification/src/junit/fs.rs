//! Report discovery and the aggregation of decoded suites.
//!
//! Discovery expands a glob pattern rooted at a base directory and keeps the
//! regular files with the report extension.  Validating the pattern is pure
//! computation and happens here, before any I/O; walking the filesystem is
//! not, so the caller performs the walk and hands back the candidate paths,
//! each with whether it is a regular file, and the filtering is verified
//! here.  Paths use `/` as the literal separator throughout.
//!
//! Aggregation merges per-suite summaries into one running total.  The merge
//! is commutative and associative (`lemma_merge_all_permutation`), so the
//! total does not depend on the order in which parse workers deliver their
//! batches; the order of the collected suites reflects arrival and is *not*
//! deterministic — callers that need one apply the sorter.

use vstd::prelude::*;
use crate::strutil::str_eq;
use super::{
    spec_as_failed, spec_merge_all, spec_summary, FailedSuiteWithSummary, JunitError,
    SuiteWithSummary, Summary, SummaryWith, TestSuite, TestSuiteV,
};

verus! {

/// Index of the last occurrence of `c` in `s`, or `-1` if there is none.
pub open spec fn last_index_of(s: Seq<char>, c: char) -> int
    decreases s.len(),
{
    if s.len() == 0 {
        -1
    } else if s.last() == c {
        s.len() - 1
    } else {
        last_index_of(s.drop_last(), c)
    }
}

pub proof fn lemma_last_index_at(s: Seq<char>, c: char, j: int)
    requires
        0 <= j < s.len(),
        s[j] == c,
        forall|i: int| j < i < s.len() ==> s[i] != c,
    ensures
        last_index_of(s, c) == j,
    decreases s.len(),
{
    if j < s.len() - 1 {
        assert(s.drop_last()[j] == c);
        lemma_last_index_at(s.drop_last(), c, j);
    }
}

pub proof fn lemma_last_index_none(s: Seq<char>, c: char)
    requires
        forall|i: int| 0 <= i < s.len() ==> s[i] != c,
    ensures
        last_index_of(s, c) == -1,
    decreases s.len(),
{
    if s.len() > 0 {
        lemma_last_index_none(s.drop_last(), c);
    }
}

/// The file name of a `/`-separated path: what follows the last separator.
pub open spec fn file_name_of(p: Seq<char>) -> Seq<char> {
    p.skip(last_index_of(p, '/') + 1)
}

/// The extension of a path, as the standard library reads it: what follows
/// the last dot of the file name, unless that dot starts the name.
pub open spec fn extension_of(p: Seq<char>) -> Option<Seq<char>> {
    let name = file_name_of(p);
    let d = last_index_of(name, '.');
    if d > 0 {
        Some(name.skip(d + 1))
    } else {
        None
    }
}

pub open spec fn has_xml_extension(p: Seq<char>) -> bool {
    extension_of(p) == Some("xml"@)
}

/// Scan for the last occurrence of `c` in `chars[from..]`; the result is an
/// absolute index shifted up by one, with zero meaning no occurrence.
fn rscan_char(chars: &Vec<char>, from: usize, c: char) -> (r: usize)
    requires
        from <= chars@.len(),
    ensures
        r - 1 - from == last_index_of(chars@.skip(from as int), c),
        from <= r <= chars@.len(),
{
    let ghost sub = chars@.skip(from as int);
    let n = chars.len();
    let mut i = n;
    while i > from
        invariant
            from <= i <= n,
            n == chars@.len(),
            sub == chars@.skip(from as int),
            forall|q: int| i <= q < n ==> chars@[q] != c,
        decreases i,
    {
        if chars[i - 1] == c {
            proof {
                assert(forall|q: int| 0 <= q < sub.len() ==> sub[q] == chars@[q + from]);
                lemma_last_index_at(sub, c, i - 1 - from);
            }
            return i;
        }
        i = i - 1;
    }
    proof {
        assert(forall|q: int| 0 <= q < sub.len() ==> sub[q] == chars@[q + from]);
        lemma_last_index_none(sub, c);
    }
    from
}

/// The extension of a path, if its file name has one.
pub fn extension_str(path: &str) -> (r: Option<&str>)
    ensures
        match r {
            Some(e) => extension_of(path@) == Some(e@),
            None => extension_of(path@) is None,
        },
{
    let chars = crate::strutil::str_chars(path);
    let n = chars.len();
    let start = rscan_char(&chars, 0, '/');
    let ghost name = file_name_of(path@);
    proof {
        assert(path@.skip(0) =~= path@);
        assert(name =~= chars@.subrange(start as int, n as int));
    }
    let dot = rscan_char(&chars, start, '.');
    proof {
        assert(chars@.skip(start as int) =~= name);
    }
    if dot == start || dot - start == 1 {
        // no dot in the name, or a dot that starts it: no extension
        return None;
    }
    let ext = path.substring_char(dot, n);
    proof {
        assert(name.skip(last_index_of(name, '.') + 1) =~= path@.subrange(
            dot as int,
            n as int,
        ));
    }
    Some(ext)
}

/// Whether a path names a file with the report extension.
pub fn has_xml_extension_exec(path: &str) -> (r: bool)
    ensures
        r == has_xml_extension(path@),
{
    match extension_str(path) {
        Some(e) => str_eq(e, "xml"),
        None => false,
    }
}

/// The pattern that discovery expands: the base directory and the configured
/// pattern, joined with the literal separator.
pub fn prefixed_pattern(base_dir: &str, report_dir_pattern: &str) -> (r: String)
    ensures
        r@ == base_dir@ + "/"@ + report_dir_pattern@,
{
    let mut out = base_dir.to_owned();
    out.append("/");
    out.append(report_dir_pattern);
    out
}

/// Whether a glob pattern compiles: a function of the pattern text alone.
pub uninterp spec fn glob_pattern_ok(p: Seq<char>) -> bool;

/// Relies on glob::Pattern::new: it compiles the pattern or rejects it, by
/// the pattern text alone, and performs no I/O.
#[verifier::external_body]
fn glob_pattern_check(pattern: &str) -> (r: Result<(), String>)
    ensures
        match r {
            Ok(_) => glob_pattern_ok(pattern@),
            Err(_) => !glob_pattern_ok(pattern@),
        },
{
    match glob::Pattern::new(pattern) {
        Ok(_) => Ok(()),
        Err(e) => Err(e.to_string()),
    }
}

/// Reject an invalid report directory pattern before any I/O is attempted.
pub fn validate_pattern(pattern: &str) -> (r: Result<(), JunitError>)
    ensures
        match r {
            Ok(_) => glob_pattern_ok(pattern@),
            Err(e) => !glob_pattern_ok(pattern@) && e is InvalidReportDirPattern,
        },
{
    match glob_pattern_check(pattern) {
        Ok(_) => Ok(()),
        Err(msg) => Err(JunitError::InvalidReportDirPattern(msg)),
    }
}

/// What discovery keeps of the walked candidates: the regular files whose
/// name carries the report extension, in walk order.
pub open spec fn spec_report_files(cands: Seq<(String, bool)>) -> Seq<String> {
    cands.filter_map(
        |c: (String, bool)|
            if c.1 && has_xml_extension(c.0@) {
                Some(c.0)
            } else {
                None
            },
    )
}

/// Keep the regular files with the report extension, in order.  The caller
/// walks the expanded pattern and hands in each path with whether it is a
/// regular file.
pub fn filter_report_files(candidates: &Vec<(String, bool)>) -> (r: Vec<String>)
    ensures
        r@ == spec_report_files(candidates@),
{
    let ghost cands = candidates@;
    let mut out: Vec<String> = Vec::new();
    let n = candidates.len();
    let mut i: usize = 0;
    while i < n
        invariant
            i <= n,
            n == candidates@.len(),
            cands == candidates@,
            out@ == spec_report_files(cands.take(i as int)),
        decreases n - i,
    {
        proof {
            assert(cands.take(i + 1 as int).drop_last() =~= cands.take(i as int));
            assert(cands.take(i + 1 as int).last() == cands[i as int]);
        }
        let c = &candidates[i];
        if c.1 && has_xml_extension_exec(c.0.as_str()) {
            out.push(c.0.clone());
        }
        i = i + 1;
    }
    assert(cands.take(n as int) =~= cands);
    out
}

/// The discovered report files, walked in order.
pub struct ReportVisitor {
    pub report_files: Vec<String>,
    pub position: usize,
}

impl ReportVisitor {
    pub fn from_files(report_files: Vec<String>) -> (r: ReportVisitor)
        ensures
            r.report_files == report_files,
            r.position == 0,
    {
        ReportVisitor { report_files, position: 0 }
    }

    /// The next discovered file, if any is left.
    pub fn next(&mut self) -> (r: Option<String>)
        ensures
            old(self).position < old(self).report_files@.len() ==> r == Some(
                old(self).report_files@[old(self).position as int],
            ) && final(self).position == old(self).position + 1,
            old(self).position >= old(self).report_files@.len() ==> r is None && final(self).position == old(self).position,
            final(self).report_files == old(self).report_files,
    {
        if self.position >= self.report_files.len() {
            None
        } else {
            let item = self.report_files[self.position].clone();
            self.position = self.position + 1;
            Some(item)
        }
    }
}

/// Decoded suites, walked in order.
pub struct TestSuiteVisitor {
    pub suites: Vec<TestSuite>,
    pub position: usize,
}

impl TestSuiteVisitor {
    pub fn from_suites(suites: Vec<TestSuite>) -> (r: TestSuiteVisitor)
        ensures
            r.suites == suites,
            r.position == 0,
    {
        TestSuiteVisitor { suites, position: 0 }
    }

    pub fn next(&mut self) -> (r: Option<TestSuite>)
        ensures
            old(self).position < old(self).suites@.len() ==> r is Some && super::suite_same(
                r->Some_0,
                old(self).suites@[old(self).position as int],
            ) && final(self).position == old(self).position + 1,
            old(self).position >= old(self).suites@.len() ==> r is None && final(self).position == old(self).position,
            final(self).suites == old(self).suites,
    {
        if self.position >= self.suites.len() {
            None
        } else {
            let item = self.suites[self.position].duplicate();
            self.position = self.position + 1;
            Some(item)
        }
    }
}

/// The next failed-suite view at or after position `i`, with the scan's new
/// position.
pub open spec fn next_failed(suites: Seq<TestSuiteV>, i: int) -> Option<
    (super::FailedTestSuiteV, Summary, int),
>
    decreases suites.len() - i,
{
    if 0 <= i < suites.len() {
        match spec_as_failed(suites[i]) {
            Some(f) => Some((f, spec_summary(suites[i]), i + 1)),
            None => next_failed(suites, i + 1),
        }
    } else {
        None
    }
}

/// The failed suites among the decoded ones, walked in order.
pub struct FailedTestSuiteVisitor {
    pub visitor: TestSuiteVisitor,
}

impl FailedTestSuiteVisitor {
    pub fn from_suites(suites: Vec<TestSuite>) -> (r: FailedTestSuiteVisitor)
        ensures
            r.visitor.suites == suites,
            r.visitor.position == 0,
    {
        FailedTestSuiteVisitor { visitor: TestSuiteVisitor::from_suites(suites) }
    }

    /// The next failed suite.  A clean suite has no failed view at all, so
    /// no guard against an impossible classification is needed here: the
    /// scan and the classification are the same scan.
    pub fn next(&mut self) -> (r: Option<FailedSuiteWithSummary>)
        ensures
            final(self).visitor.suites == old(self).visitor.suites,
            ({
                let views = old(self).visitor.suites@.map_values(|s: TestSuite| s@);
                match next_failed(views, old(self).visitor.position as int) {
                    Some((f, summary, np)) => r is Some && r->Some_0.value@ == f
                        && r->Some_0.summary == summary && final(self).visitor.position == np,
                    None => r is None,
                }
            }),
    {
        let ghost views = self.visitor.suites@.map_values(|s: TestSuite| s@);
        let n = self.visitor.suites.len();
        while self.visitor.position < n
            invariant
                self.visitor.suites == old(self).visitor.suites,
                views == self.visitor.suites@.map_values(|s: TestSuite| s@),
                n == self.visitor.suites@.len(),
                old(self).visitor.position <= self.visitor.position,
                next_failed(views, old(self).visitor.position as int) == next_failed(
                    views,
                    self.visitor.position as int,
                ),
            decreases n - self.visitor.position,
        {
            let pos = self.visitor.position;
            let suite = &self.visitor.suites[pos];
            assert(views[pos as int] == suite@);
            match suite.as_failed() {
                Some(ws) => {
                    self.visitor.position = pos + 1;
                    return Some(ws);
                },
                None => {
                    self.visitor.position = pos + 1;
                },
            }
        }
        None
    }
}

/// The summaries carried by a suite collection.
pub open spec fn summaries_of(s: Seq<SummaryWith<TestSuite>>) -> Seq<Summary> {
    s.map_values(|ws: SummaryWith<TestSuite>| ws.summary)
}

/// The aggregator: the single owner of the running totals.  Parse workers
/// deliver batches of decoded suites; each batch is appended and its
/// summaries are merged into the aggregate.  The aggregate summary is always
/// exactly the merge of the collected suites' summaries.
pub struct ReportAggregator {
    pub suites: Vec<SuiteWithSummary>,
    pub summary: Summary,
}

impl ReportAggregator {
    /// The aggregate summary is the merge of the collected summaries.
    pub open spec fn wf(self) -> bool {
        self.summary == spec_merge_all(summaries_of(self.suites@))
    }

    pub fn new() -> (r: ReportAggregator)
        ensures
            r.wf(),
            r.suites@.len() == 0,
    {
        let r = ReportAggregator { suites: Vec::new(), summary: Summary::zero() };
        proof {
            assert(summaries_of(r.suites@) =~= Seq::<Summary>::empty());
        }
        r
    }

    /// Take one worker's batch: append its suites and merge their summaries.
    pub fn accept(&mut self, batch: Vec<SuiteWithSummary>)
        requires
            old(self).wf(),
        ensures
            final(self).wf(),
            final(self).suites@ == old(self).suites@ + batch@,
    {
        let ghost incoming = batch@;
        let n = batch.len();
        let mut batch = batch;
        while batch.len() > 0
            invariant
                self.wf(),
                incoming.len() == n,
                batch@.len() <= n,
                batch@ =~= incoming.skip(n - batch@.len()),
                self.suites@ == old(self).suites@ + incoming.take(n - batch@.len()),
            decreases batch@.len(),
        {
            let ghost k = n - batch@.len();
            let ws = batch.remove(0);
            proof {
                assert(incoming.skip(k)[0] == incoming[k]);
                assert(ws == incoming[k]);
                assert(batch@ =~= incoming.skip(k + 1));
            }
            self.summary.merge(&ws.summary);
            let ghost before = self.suites@;
            self.suites.push(ws);
            proof {
                assert(summaries_of(self.suites@) =~= summaries_of(before).push(
                    incoming[k].summary,
                ));
                assert(summaries_of(self.suites@).drop_last() =~= summaries_of(before));
                assert(self.suites@ =~= old(self).suites@ + incoming.take(k + 1));
            }
        }
        proof {
            assert(incoming.take(n as int) =~= incoming);
            assert(self.suites@ =~= old(self).suites@ + incoming);
        }
    }

    /// Hand out the collected suites and the aggregate summary.
    pub fn finish(self) -> (r: (Vec<SuiteWithSummary>, Summary))
        ensures
            r.0 == self.suites,
            r.1 == self.summary,
    {
        (self.suites, self.summary)
    }
}

} // verus!
