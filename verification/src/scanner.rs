//! The secret scanner: it splits text into lines and reports every line that
//! holds, case-insensitively, a keyword of a fixed credential vocabulary,
//! together with one line of context on each side.

use vstd::prelude::*;
use vstd::string::*;

use crate::text::{line_seq, lower_char, split_lines, to_lower_char, views_of};

verus! {

/// The fixed credential vocabulary, each keyword in lower case.
pub open spec fn keywords() -> Seq<Seq<char>> {
    seq![
        "apikey"@,
        "api_key"@,
        "password"@,
        "username"@,
        "secret"@,
        "token"@,
        "auth"@,
        "credential"@,
        "private_key"@,
        "privkey"@,
        "access_key"@,
        "npm_token"@,
    ]
}

/// `kw` occurs in `line` at position `i`, comparing ASCII case-insensitively.
pub open spec fn contains_at(line: Seq<char>, kw: Seq<char>, i: int) -> bool {
    &&& 0 <= i
    &&& i + kw.len() <= line.len()
    &&& forall|j: int| 0 <= j < kw.len() ==> lower_char(line[i + j]) == kw[j]
}

/// `kw` occurs somewhere in `line`.
pub open spec fn keyword_at(line: Seq<char>, kw: Seq<char>) -> bool {
    exists|i: int| contains_at(line, kw, i)
}

/// The line holds at least one keyword of the vocabulary.
pub open spec fn line_matches(line: Seq<char>) -> bool {
    exists|k: int| 0 <= k < keywords().len() && keyword_at(line, keywords()[k])
}

/// One reported finding: the matched line, its 1-based number, the
/// neighbouring lines where they exist, and the reason for the report.
pub struct ScanResult {
    pub line_number: usize,
    pub culprit_line: String,
    pub prev_line: Option<String>,
    pub next_line: Option<String>,
    pub reason: String,
}

/// What one finding must say about the scanned lines.
pub open spec fn scan_result_ok(lines: Seq<Seq<char>>, r: ScanResult) -> bool {
    &&& 1 <= r.line_number <= lines.len()
    &&& line_matches(lines[r.line_number - 1])
    &&& r.culprit_line@ == lines[r.line_number - 1]
    &&& match r.prev_line {
        Option::Some(p) => r.line_number > 1 && p@ == lines[r.line_number - 2],
        Option::None => r.line_number == 1,
    }
    &&& match r.next_line {
        Option::Some(nx) => r.line_number < lines.len() && nx@ == lines[r.line_number as int],
        Option::None => r.line_number == lines.len(),
    }
    &&& r.reason@ == "Keyword match"@
}

/// What a whole scan must report: only matching lines, faithfully rendered,
/// in strictly ascending line order, and no matching line left out.
pub open spec fn scan_results_ok(lines: Seq<Seq<char>>, rs: Seq<ScanResult>) -> bool {
    &&& forall|j: int| 0 <= j < rs.len() ==> scan_result_ok(lines, #[trigger] rs[j])
    &&& forall|j1: int, j2: int|
        0 <= j1 < j2 < rs.len() ==> rs[j1].line_number < rs[j2].line_number
    &&& forall|i: int|
        0 <= i < lines.len() && line_matches(#[trigger] lines[i]) ==> exists|j: int|
            0 <= j < rs.len() && (#[trigger] rs[j]).line_number == i + 1
}

/// Whether `kw` occurs at position `i` of `line`, case-insensitively.
fn matches_at(line: &str, kw: &str, i: usize, n: usize, m: usize) -> (b: bool)
    requires
        n == line@.len(),
        m == kw@.len(),
        i + m <= n,
    ensures
        b == contains_at(line@, kw@, i as int),
{
    let mut j: usize = 0;
    while j < m
        invariant
            n == line@.len(),
            m == kw@.len(),
            i + m <= n,
            j <= m,
            forall|jj: int| 0 <= jj < j ==> lower_char(line@[i + jj]) == kw@[jj],
        decreases m - j,
    {
        let lc = to_lower_char(line.get_char(i + j));
        let kc = kw.get_char(j);
        if lc != kc {
            assert(lower_char(line@[i + j]) != kw@[j as int]);
            return false;
        }
        j = j + 1;
    }
    true
}

/// Whether `kw` occurs anywhere in `line`, case-insensitively.
fn contains_keyword(line: &str, kw: &str) -> (b: bool)
    ensures
        b == keyword_at(line@, kw@),
{
    let n = line.unicode_len();
    let m = kw.unicode_len();
    if m > n {
        assert forall|i: int| !contains_at(line@, kw@, i) by {
            assert(i >= 0 ==> i + kw@.len() > line@.len());
        }
        return false;
    }
    let mut i: usize = 0;
    while i <= n - m
        invariant
            n == line@.len(),
            m == kw@.len(),
            m <= n,
            i <= n - m + 1,
            forall|ii: int| 0 <= ii < i ==> !contains_at(line@, kw@, ii),
        decreases n - m + 1 - i,
    {
        if matches_at(line, kw, i, n, m) {
            assert(contains_at(line@, kw@, i as int));
            return true;
        }
        i = i + 1;
    }
    assert forall|ii: int| !contains_at(line@, kw@, ii) by {
        if 0 <= ii < i {
        } else if ii >= i {
            assert(ii + kw@.len() > line@.len());
        }
    }
    false
}

/// The scanner itself: the vocabulary, held as one immutable value built
/// once and consulted by every scan.
pub struct Scanner {
    keywords: Vec<String>,
}

impl Scanner {
    /// The scanner holds exactly the fixed vocabulary.
    pub closed spec fn wf(&self) -> bool {
        views_of(self.keywords@) == keywords()
    }

    /// Builds the scanner over the fixed vocabulary.
    pub fn new() -> (s: Scanner)
        ensures
            s.wf(),
    {
        let mut ks: Vec<String> = Vec::new();
        ks.push("apikey".to_owned());
        ks.push("api_key".to_owned());
        ks.push("password".to_owned());
        ks.push("username".to_owned());
        ks.push("secret".to_owned());
        ks.push("token".to_owned());
        ks.push("auth".to_owned());
        ks.push("credential".to_owned());
        ks.push("private_key".to_owned());
        ks.push("privkey".to_owned());
        ks.push("access_key".to_owned());
        ks.push("npm_token".to_owned());
        let s = Scanner { keywords: ks };
        proof {
            assert(views_of(s.keywords@) =~= keywords());
        }
        s
    }

    /// Whether the line holds a keyword of the vocabulary.
    fn line_has_secret(&self, line: &str) -> (b: bool)
        requires
            self.wf(),
        ensures
            b == line_matches(line@),
    {
        let klen = self.keywords.len();
        let mut k: usize = 0;
        while k < klen
            invariant
                self.wf(),
                klen == self.keywords@.len(),
                k <= klen,
                forall|kk: int| 0 <= kk < k ==> !keyword_at(line@, keywords()[kk]),
            decreases klen - k,
        {
            proof {
                assert(keywords()[k as int] == views_of(self.keywords@)[k as int]);
            }
            if contains_keyword(line, self.keywords[k].as_str()) {
                assert(line_matches(line@));
                return true;
            }
            k = k + 1;
        }
        proof {
            assert(klen == keywords().len());
        }
        false
    }

    /// Scans `content` line by line and reports every line that holds a
    /// keyword, in ascending line order, each with its context lines.
    pub fn scan(&self, content: &str) -> (results: Vec<ScanResult>)
        requires
            self.wf(),
        ensures
            scan_results_ok(line_seq(content@), results@),
    {
        let lines = split_lines(content);
        let nl = lines.len();
        let mut results: Vec<ScanResult> = Vec::new();
        let mut idx: usize = 0;
        while idx < nl
            invariant
                self.wf(),
                nl == lines@.len(),
                views_of(lines@) == line_seq(content@),
                idx <= nl,
                forall|j: int|
                    0 <= j < results@.len() ==> scan_result_ok(
                        views_of(lines@),
                        #[trigger] results@[j],
                    ),
                forall|j: int|
                    0 <= j < results@.len() ==> (#[trigger] results@[j]).line_number <= idx,
                forall|j1: int, j2: int|
                    0 <= j1 < j2 < results@.len() ==> results@[j1].line_number
                        < results@[j2].line_number,
                forall|i: int|
                    0 <= i < idx && line_matches(#[trigger] views_of(lines@)[i]) ==> exists|j: int|
                        0 <= j < results@.len() && (#[trigger] results@[j]).line_number == i + 1,
            decreases nl - idx,
        {
            proof {
                assert(views_of(lines@)[idx as int] == lines@[idx as int]@);
            }
            if self.line_has_secret(lines[idx].as_str()) {
                let prev = if idx > 0 {
                    proof {
                        assert(views_of(lines@)[idx - 1] == lines@[idx - 1]@);
                    }
                    Option::Some(lines[idx - 1].clone())
                } else {
                    Option::None
                };
                let next = if idx + 1 < nl {
                    proof {
                        assert(views_of(lines@)[idx + 1] == lines@[idx + 1]@);
                    }
                    Option::Some(lines[idx + 1].clone())
                } else {
                    Option::None
                };
                let r = ScanResult {
                    line_number: idx + 1,
                    culprit_line: lines[idx].clone(),
                    prev_line: prev,
                    next_line: next,
                    reason: "Keyword match".to_owned(),
                };
                let ghost prior = results@;
                results.push(r);
                proof {
                    assert forall|i: int|
                        0 <= i <= idx && line_matches(#[trigger] views_of(lines@)[i]) implies exists|
                        j: int,
                    | 0 <= j < results@.len() && (#[trigger] results@[j]).line_number == i + 1 by {
                        if i == idx {
                            assert(results@[prior.len() as int].line_number == i + 1);
                        } else {
                            let j = choose|j: int|
                                0 <= j < prior.len() && (#[trigger] prior[j]).line_number == i + 1;
                            assert(results@[j].line_number == i + 1);
                        }
                    }
                }
            }
            idx = idx + 1;
        }
        results
    }
}

/// Matches come strictly in ascending line order, each line number within
/// the range of the scanned lines.
pub proof fn lemma_scan_ascending_in_range(lines: Seq<Seq<char>>, rs: Seq<ScanResult>)
    requires
        scan_results_ok(lines, rs),
    ensures
        forall|j1: int, j2: int|
            0 <= j1 < j2 < rs.len() ==> rs[j1].line_number < rs[j2].line_number,
        forall|j: int| 0 <= j < rs.len() ==> 1 <= (#[trigger] rs[j]).line_number <= lines.len(),
{
}

/// Content without any keyword occurrence yields an empty report.
pub proof fn lemma_scan_clean_content_empty(lines: Seq<Seq<char>>, rs: Seq<ScanResult>)
    requires
        scan_results_ok(lines, rs),
        forall|i: int| 0 <= i < lines.len() ==> !line_matches(#[trigger] lines[i]),
    ensures
        rs.len() == 0,
{
    if rs.len() > 0 {
        assert(scan_result_ok(lines, rs[0]));
        assert(line_matches(lines[rs[0].line_number - 1]));
    }
}

/// Whether the integers of `s` come in strictly ascending order.
spec fn strictly_increasing(s: Seq<int>) -> bool {
    forall|a: int, b: int| 0 <= a < b < s.len() ==> s[a] < s[b]
}

/// Two strictly ascending integer sequences with the same members are the
/// same sequence.
proof fn lemma_sorted_same_members(s: Seq<int>, t: Seq<int>)
    requires
        strictly_increasing(s),
        strictly_increasing(t),
        forall|x: int| s.contains(x) <==> t.contains(x),
    ensures
        s == t,
    decreases s.len(),
{
    if s.len() == 0 {
        if t.len() > 0 {
            assert(t.contains(t[0]));
            assert(s.contains(t[0]));
        }
        assert(s =~= t);
    } else {
        assert(s.contains(s[0]));
        assert(t.contains(s[0]));
        let k = choose|k: int| 0 <= k < t.len() && t[k] == s[0];
        assert(t.contains(t[0]));
        assert(s.contains(t[0]));
        let k2 = choose|k2: int| 0 <= k2 < s.len() && s[k2] == t[0];
        assert(t[0] <= t[k]);
        assert(s[0] <= s[k2]);
        assert(s[0] == t[0]);
        assert forall|x: int| s.drop_first().contains(x) <==> t.drop_first().contains(x) by {
            if s.drop_first().contains(x) {
                let i = choose|i: int| 0 <= i < s.drop_first().len() && s.drop_first()[i] == x;
                assert(s[i + 1] == x);
                assert(s[0] < x);
                assert(t.contains(x));
                let i2 = choose|i2: int| 0 <= i2 < t.len() && t[i2] == x;
                assert(i2 > 0);
                assert(t.drop_first()[i2 - 1] == x);
            }
            if t.drop_first().contains(x) {
                let i = choose|i: int| 0 <= i < t.drop_first().len() && t.drop_first()[i] == x;
                assert(t[i + 1] == x);
                assert(t[0] < x);
                assert(s.contains(x));
                let i2 = choose|i2: int| 0 <= i2 < s.len() && s[i2] == x;
                assert(i2 > 0);
                assert(s.drop_first()[i2 - 1] == x);
            }
        }
        lemma_sorted_same_members(s.drop_first(), t.drop_first());
        assert forall|i: int| 0 <= i < s.len() implies s[i] == t[i] by {
            if i > 0 {
                assert(s.drop_first()[i - 1] == t.drop_first()[i - 1]);
            }
        }
        assert(s =~= t);
    }
}

/// The scan contract is deterministic: over the same lines, any two
/// reports that meet it agree entry for entry.
pub proof fn lemma_scan_deterministic(
    lines: Seq<Seq<char>>,
    rs1: Seq<ScanResult>,
    rs2: Seq<ScanResult>,
)
    requires
        scan_results_ok(lines, rs1),
        scan_results_ok(lines, rs2),
    ensures
        rs1.len() == rs2.len(),
        forall|j: int|
            0 <= j < rs1.len() ==> {
                &&& (#[trigger] rs1[j]).line_number == rs2[j].line_number
                &&& rs1[j].culprit_line@ == rs2[j].culprit_line@
                &&& rs1[j].reason@ == rs2[j].reason@
                &&& (rs1[j].prev_line is Some <==> rs2[j].prev_line is Some)
                &&& (rs1[j].prev_line is Some ==> rs1[j].prev_line->0@ == rs2[j].prev_line->0@)
                &&& (rs1[j].next_line is Some <==> rs2[j].next_line is Some)
                &&& (rs1[j].next_line is Some ==> rs1[j].next_line->0@ == rs2[j].next_line->0@)
            },
{
    let ln1 = Seq::new(rs1.len(), |j: int| rs1[j].line_number as int);
    let ln2 = Seq::new(rs2.len(), |j: int| rs2[j].line_number as int);
    assert forall|x: int| ln1.contains(x) <==> ln2.contains(x) by {
        if ln1.contains(x) {
            let j = choose|j: int| 0 <= j < ln1.len() && ln1[j] == x;
            assert(scan_result_ok(lines, rs1[j]));
            assert(line_matches(lines[x - 1]));
            let j2 = choose|j2: int| 0 <= j2 < rs2.len() && (#[trigger] rs2[j2]).line_number == x;
            assert(ln2[j2] == x);
        }
        if ln2.contains(x) {
            let j = choose|j: int| 0 <= j < ln2.len() && ln2[j] == x;
            assert(scan_result_ok(lines, rs2[j]));
            assert(line_matches(lines[x - 1]));
            let j2 = choose|j2: int| 0 <= j2 < rs1.len() && (#[trigger] rs1[j2]).line_number == x;
            assert(ln1[j2] == x);
        }
    }
    lemma_sorted_same_members(ln1, ln2);
    assert forall|j: int| 0 <= j < rs1.len() implies {
        &&& (#[trigger] rs1[j]).line_number == rs2[j].line_number
        &&& rs1[j].culprit_line@ == rs2[j].culprit_line@
        &&& rs1[j].reason@ == rs2[j].reason@
        &&& (rs1[j].prev_line is Some <==> rs2[j].prev_line is Some)
        &&& (rs1[j].prev_line is Some ==> rs1[j].prev_line->0@ == rs2[j].prev_line->0@)
        &&& (rs1[j].next_line is Some <==> rs2[j].next_line is Some)
        &&& (rs1[j].next_line is Some ==> rs1[j].next_line->0@ == rs2[j].next_line->0@)
    } by {
        assert(ln1[j] == ln2[j]);
        assert(scan_result_ok(lines, rs1[j]));
        assert(scan_result_ok(lines, rs2[j]));
    }
}

/// A match carries a previous line exactly when it is not the first line,
/// and a next line exactly when a line follows it.
pub proof fn lemma_scan_context_presence(lines: Seq<Seq<char>>, rs: Seq<ScanResult>, j: int)
    requires
        scan_results_ok(lines, rs),
        0 <= j < rs.len(),
    ensures
        rs[j].prev_line is Some <==> rs[j].line_number > 1,
        rs[j].next_line is Some <==> rs[j].line_number < lines.len(),
{
    assert(scan_result_ok(lines, rs[j]));
}

} // verus!
