//! The API integration check's report and the addresses it talks to: the
//! markdown table of results with links to the checks' source lines, the
//! session URL of a thread, and fresh thread keys for test sessions.
use vstd::prelude::*;

use crate::ids::{is_lower_hex, new_uuid_simple};

verus! {

/// Where the API runs unless told otherwise.
pub const DEFAULT_API_URL: &'static str = "http://127.0.0.1:18080";

/// The path, within the repository, of the file that holds the checks.
pub const SOURCE_PATH: &'static str = "services/api-rs/crates/centaur-api-integration-test/src/main.rs";

/// The outcome of one check: what it checks, the source line that starts
/// it, and whether it passed.
#[derive(Debug)]
pub struct TestResult {
    pub summary: &'static str,
    pub line: u32,
    pub passed: bool,
}

/// Where the checked source can be browsed: the forge's address, the
/// repository, and the commit, either the one named for the checks or the
/// one the build is of. `None` stands for a variable that is not set.
#[derive(Debug, Clone)]
pub struct SourceOrigin {
    pub server: Option<String>,
    pub repository: Option<String>,
    pub source_sha: Option<String>,
    pub github_sha: Option<String>,
}

/// The character of the decimal digit `d`.
pub open spec fn digit_char(d: nat) -> char {
    if d == 0 {
        '0'
    } else if d == 1 {
        '1'
    } else if d == 2 {
        '2'
    } else if d == 3 {
        '3'
    } else if d == 4 {
        '4'
    } else if d == 5 {
        '5'
    } else if d == 6 {
        '6'
    } else if d == 7 {
        '7'
    } else if d == 8 {
        '8'
    } else {
        '9'
    }
}

/// `n` written in decimal, without leading zeros.
pub open spec fn decimal_text(n: nat) -> Seq<char>
    decreases n,
{
    if n < 10 {
        seq![digit_char(n)]
    } else {
        decimal_text(n / 10).push(digit_char(n % 10))
    }
}

fn digit_str(d: u32) -> (r: &'static str)
    requires
        d < 10,
    ensures
        r@ == seq![digit_char(d as nat)],
{
    proof {
        reveal_strlit("0");
        reveal_strlit("1");
        reveal_strlit("2");
        reveal_strlit("3");
        reveal_strlit("4");
        reveal_strlit("5");
        reveal_strlit("6");
        reveal_strlit("7");
        reveal_strlit("8");
        reveal_strlit("9");
    }
    if d == 0 {
        "0"
    } else if d == 1 {
        "1"
    } else if d == 2 {
        "2"
    } else if d == 3 {
        "3"
    } else if d == 4 {
        "4"
    } else if d == 5 {
        "5"
    } else if d == 6 {
        "6"
    } else if d == 7 {
        "7"
    } else if d == 8 {
        "8"
    } else {
        "9"
    }
}

/// `n` written in decimal.
pub fn decimal(n: u32) -> (r: String)
    ensures
        r@ == decimal_text(n as nat),
    decreases n,
{
    if n < 10 {
        digit_str(n).to_owned()
    } else {
        let mut s = decimal(n / 10);
        s.append(digit_str(n % 10));
        s
    }
}

/// The commit to link to: the one named for the checks when that is set,
/// else the build's.
pub open spec fn origin_sha(o: SourceOrigin) -> Option<String> {
    match o.source_sha {
        Some(s) => Some(s),
        None => o.github_sha,
    }
}

/// The forge address, repository and commit, when all three are set and
/// none is empty.
pub open spec fn browsable(o: SourceOrigin) -> bool {
    &&& o.server matches Some(s) && s@.len() > 0
    &&& o.repository matches Some(p) && p@.len() > 0
    &&& origin_sha(o) matches Some(h) && h@.len() > 0
}

/// The link to `line` of the checks' source: on the forge when the origin
/// is browsable, else the bare repository path.
pub open spec fn link_text(line: u32, o: SourceOrigin) -> Seq<char> {
    if browsable(o) {
        o.server.unwrap()@ + "/"@ + o.repository.unwrap()@ + "/blob/"@ + origin_sha(o).unwrap()@
            + "/"@ + SOURCE_PATH@ + "#L"@ + decimal_text(line as nat)
    } else {
        SOURCE_PATH@ + "#L"@ + decimal_text(line as nat)
    }
}

fn non_empty(o: &Option<String>) -> (r: bool)
    ensures
        r == (*o matches Some(s) && s@.len() > 0),
{
    match o {
        Some(s) => s.as_str().unicode_len() > 0,
        None => false,
    }
}

/// The link to `line` of the checks' source.
pub fn source_link(line: u32, origin: &SourceOrigin) -> (r: String)
    ensures
        r@ == link_text(line, *origin),
{
    let sha = match &origin.source_sha {
        Some(_) => &origin.source_sha,
        None => &origin.github_sha,
    };
    assert(*sha == origin_sha(*origin));
    let mut s;
    if non_empty(&origin.server) && non_empty(&origin.repository) && non_empty(sha) {
        s = origin.server.as_ref().unwrap().clone();
        s.append("/");
        s.append(origin.repository.as_ref().unwrap().as_str());
        s.append("/blob/");
        s.append(sha.as_ref().unwrap().as_str());
        s.append("/");
        s.append(SOURCE_PATH);
    } else {
        s = SOURCE_PATH.to_owned();
    }
    s.append("#L");
    let d = decimal(line);
    s.append(d.as_str());
    s
}

/// The report's table head.
pub open spec fn report_head() -> Seq<char> {
    "| Test | Result |\n| --- | --- |\n"@
}

/// The table row of one result.
pub open spec fn report_row(r: TestResult, o: SourceOrigin) -> Seq<char> {
    "| ["@ + r.summary@ + "]("@ + link_text(r.line, o) + ") | "@ + (if r.passed {
        "Passed"@
    } else {
        "Failed"@
    }) + " |\n"@
}

/// The report of `results`: the head, then one row per result in order.
pub open spec fn report_text(results: Seq<TestResult>, o: SourceOrigin) -> Seq<char>
    decreases results.len(),
{
    if results.len() == 0 {
        report_head()
    } else {
        report_text(results.drop_last(), o) + report_row(results.last(), o)
    }
}

/// The markdown table of the checks' results, each linked to its source.
pub fn render_report(results: &[TestResult], origin: &SourceOrigin) -> (r: String)
    ensures
        r@ == report_text(results@, *origin),
{
    let mut report = "| Test | Result |\n| --- | --- |\n".to_owned();
    let mut i: usize = 0;
    assert(results@.subrange(0, 0) =~= Seq::<TestResult>::empty());
    while i < results.len()
        invariant
            i <= results@.len(),
            report@ == report_text(results@.subrange(0, i as int), *origin),
        decreases results@.len() - i,
    {
        let result = &results[i];
        let status = if result.passed {
            "Passed"
        } else {
            "Failed"
        };
        report.append("| [");
        report.append(result.summary);
        report.append("](");
        let link = source_link(result.line, origin);
        report.append(link.as_str());
        report.append(") | ");
        report.append(status);
        report.append(" |\n");
        assert(results@.subrange(0, i + 1).drop_last() =~= results@.subrange(0, i as int));
        i = i + 1;
    }
    assert(results@.subrange(0, results@.len() as int) =~= results@);
    report
}

/// True when every check passed.
pub fn all_passed(results: &[TestResult]) -> (r: bool)
    ensures
        r == forall|i: int| 0 <= i < results@.len() ==> (#[trigger] results@[i]).passed,
{
    let mut i: usize = 0;
    while i < results.len()
        invariant
            i <= results@.len(),
            forall|j: int| 0 <= j < i ==> (#[trigger] results@[j]).passed,
        decreases results@.len() - i,
    {
        if !results[i].passed {
            return false;
        }
        i = i + 1;
    }
    true
}

/// The URL of the session of `thread_key` on the API at `base_url`.
pub fn session_url(base_url: &str, thread_key: &str) -> (r: String)
    ensures
        r@ == base_url@ + "/api/session/"@ + thread_key@,
{
    let mut s = base_url.to_owned();
    s.append("/api/session/");
    s.append(thread_key);
    s
}

/// `s` without the slashes at its end.
pub open spec fn without_trailing_slashes(s: Seq<char>) -> Seq<char>
    decreases s.len(),
{
    if s.len() > 0 && s.last() == '/' {
        without_trailing_slashes(s.drop_last())
    } else {
        s
    }
}

/// The API's base URL: the configured one, or the default, without
/// trailing slashes.
pub fn api_base_url(configured: Option<&str>) -> (r: String)
    ensures
        r@ == without_trailing_slashes(
            match configured {
                Some(c) => c@,
                None => DEFAULT_API_URL@,
            },
        ),
{
    let url = match configured {
        Some(c) => c,
        None => DEFAULT_API_URL,
    };
    let mut hi = url.unicode_len();
    assert(url@.subrange(0, hi as int) =~= url@);
    while hi > 0 && url.get_char(hi - 1) == '/'
        invariant
            hi <= url@.len(),
            without_trailing_slashes(url@) == without_trailing_slashes(
                url@.subrange(0, hi as int),
            ),
        decreases hi,
    {
        assert(url@.subrange(0, hi as int).drop_last() =~= url@.subrange(0, hi - 1));
        hi = hi - 1;
    }
    url.substring_char(0, hi).to_owned()
}

/// The test thread key made of `token` and `suffix`:
/// `api-integration-test:<token>:<suffix>`.
pub fn thread_key_with_token(token: &str, suffix: &str) -> (r: String)
    ensures
        r@ == "api-integration-test:"@ + token@ + ":"@ + suffix@,
{
    let mut s = "api-integration-test:".to_owned();
    s.append(token);
    s.append(":");
    s.append(suffix);
    s
}

/// A thread key that no other test run uses: `api-integration-test:`, 32
/// random lowercase hexadecimal digits, `:` and the suffix.
pub fn test_thread_key(suffix: &str) -> (r: String)
    ensures
        exists|u: Seq<char>|
            #![trigger "api-integration-test:"@ + u]
            u.len() == 32 && (forall|i: int| 0 <= i < 32 ==> is_lower_hex(#[trigger] u[i])) && r@
                == "api-integration-test:"@ + u + ":"@ + suffix@,
{
    let u = new_uuid_simple();
    let s = thread_key_with_token(u.as_str(), suffix);
    assert(s@ == "api-integration-test:"@ + u@ + ":"@ + suffix@);
    s
}

} // verus!
