//! Start-up checks of the rollback bridge server: which service credentials
//! it needs, that no two services share one, and that it never migrates the
//! schema itself.
use vstd::prelude::*;

use crate::types::text_eq;

verus! {

/// The variable that holds the control plane's credential.
pub const CONTROL_API_KEY_ENV: &'static str = "CENTAUR_CONTROL_API_KEY";

/// The variables that hold service credentials, the control one first.
pub fn service_api_key_envs() -> (r: Vec<&'static str>)
    ensures
        r@.len() == 8,
        r@[0]@ == CONTROL_API_KEY_ENV@,
        r@[1]@ == "SLACKBOT_API_KEY"@,
        r@[2]@ == "GITHUBBOT_API_KEY"@,
        r@[3]@ == "LINEARBOT_API_KEY"@,
        r@[4]@ == "DISCORDBOT_API_KEY"@,
        r@[5]@ == "TEAMSBOT_API_KEY"@,
        r@[6]@ == "WORKFLOW_API_KEY"@,
        r@[7]@ == "SLACK_FEEDBACK_API_KEY"@,
{
    let mut v: Vec<&'static str> = Vec::new();
    v.push(CONTROL_API_KEY_ENV);
    v.push("SLACKBOT_API_KEY");
    v.push("GITHUBBOT_API_KEY");
    v.push("LINEARBOT_API_KEY");
    v.push("DISCORDBOT_API_KEY");
    v.push("TEAMSBOT_API_KEY");
    v.push("WORKFLOW_API_KEY");
    v.push("SLACK_FEEDBACK_API_KEY");
    v
}

/// A character of the Unicode `White_Space` property, which `str::trim`
/// removes.
pub open spec fn is_white_space(c: char) -> bool {
    ||| '\u{9}' <= c <= '\u{d}'
    ||| c == ' '
    ||| c == '\u{85}'
    ||| c == '\u{a0}'
    ||| c == '\u{1680}'
    ||| '\u{2000}' <= c <= '\u{200a}'
    ||| c == '\u{2028}'
    ||| c == '\u{2029}'
    ||| c == '\u{202f}'
    ||| c == '\u{205f}'
    ||| c == '\u{3000}'
}

/// `s` without its leading white space.
pub open spec fn trim_start(s: Seq<char>) -> Seq<char>
    decreases s.len(),
{
    if s.len() > 0 && is_white_space(s[0]) {
        trim_start(s.drop_first())
    } else {
        s
    }
}

/// `s` without its trailing white space.
pub open spec fn trim_end(s: Seq<char>) -> Seq<char>
    decreases s.len(),
{
    if s.len() > 0 && is_white_space(s.last()) {
        trim_end(s.drop_last())
    } else {
        s
    }
}

/// `s` without white space at either end.
pub open spec fn trimmed(s: Seq<char>) -> Seq<char> {
    trim_end(trim_start(s))
}

fn is_white_space_char(c: char) -> (r: bool)
    ensures
        r == is_white_space(c),
{
    ('\u{9}' <= c && c <= '\u{d}') || c == ' ' || c == '\u{85}' || c == '\u{a0}' || c == '\u{1680}'
        || ('\u{2000}' <= c && c <= '\u{200a}') || c == '\u{2028}' || c == '\u{2029}' || c
        == '\u{202f}' || c == '\u{205f}' || c == '\u{3000}'
}

/// `s` without white space at either end.
pub fn trim(s: &str) -> (r: &str)
    ensures
        r@ == trimmed(s@),
{
    let n = s.unicode_len();
    let mut lo: usize = 0;
    assert(s@.subrange(0, n as int) =~= s@);
    while lo < n && is_white_space_char(s.get_char(lo))
        invariant
            n == s@.len(),
            lo <= n,
            trim_start(s@) == trim_start(s@.subrange(lo as int, n as int)),
        decreases n - lo,
    {
        assert(s@.subrange(lo as int, n as int).drop_first() =~= s@.subrange(
            lo + 1,
            n as int,
        ));
        lo = lo + 1;
    }
    assert(trim_start(s@) == s@.subrange(lo as int, n as int));
    let mut hi: usize = n;
    while hi > lo && is_white_space_char(s.get_char(hi - 1))
        invariant
            n == s@.len(),
            lo <= hi <= n,
            trim_start(s@) == s@.subrange(lo as int, n as int),
            trimmed(s@) == trim_end(s@.subrange(lo as int, hi as int)),
        decreases hi,
    {
        assert(s@.subrange(lo as int, hi as int).drop_last() =~= s@.subrange(
            lo as int,
            hi - 1,
        ));
        hi = hi - 1;
    }
    s.substring_char(lo, hi)
}

/// The configured credentials that count: each name with its trimmed value,
/// in order, leaving out those whose value is blank.
pub open spec fn kept_credentials<'a>(configured: Seq<(&'a str, &'a str)>) -> Seq<
    (Seq<char>, Seq<char>),
>
    decreases configured.len(),
{
    if configured.len() == 0 {
        Seq::empty()
    } else {
        let prev = kept_credentials(configured.drop_last());
        let value = trimmed(configured.last().1@);
        if value.len() > 0 {
            prev.push((configured.last().0@, value))
        } else {
            prev
        }
    }
}

/// Some kept credential is the control plane's.
pub open spec fn has_control_key(k: Seq<(Seq<char>, Seq<char>)>) -> bool {
    exists|i: int| 0 <= i < k.len() && (#[trigger] k[i]).0 == CONTROL_API_KEY_ENV@
}

/// The credential at `j` repeats the value of an earlier one.
pub open spec fn repeats_earlier(k: Seq<(Seq<char>, Seq<char>)>, j: int) -> bool {
    exists|i: int| 0 <= i < j && (#[trigger] k[i]).1 == k[j].1
}

/// `j` is the first credential that repeats an earlier value.
pub open spec fn is_first_repeat(k: Seq<(Seq<char>, Seq<char>)>, j: int) -> bool {
    &&& 0 <= j < k.len()
    &&& repeats_earlier(k, j)
    &&& forall|m: int| 0 <= m < j ==> !#[trigger] repeats_earlier(k, m)
}

/// The refusal when the control credential is missing.
pub open spec fn missing_control_text() -> Seq<char> {
    "rollback bridge refuses to start unless "@ + CONTROL_API_KEY_ENV@ + " is configured"@
}

/// The refusal when `existing` and `name` hold the same credential.
pub open spec fn shared_credential_text(existing: Seq<char>, name: Seq<char>) -> Seq<char> {
    "rollback bridge refuses to start because "@ + existing + " and "@ + name
        + " must contain distinct service credentials"@
}

/// The verdict on the kept credentials `k`: refused without the control
/// credential; refused, naming both, at the first value held twice;
/// accepted otherwise.
pub open spec fn separation_verdict(k: Seq<(Seq<char>, Seq<char>)>) -> Result<(), Seq<char>> {
    if !has_control_key(k) {
        Err(missing_control_text())
    } else if exists|j: int| is_first_repeat(k, j) {
        let j = choose|j: int| is_first_repeat(k, j);
        let i = choose|i: int| 0 <= i < j && (#[trigger] k[i]).1 == k[j].1;
        Err(shared_credential_text(k[i].0, k[j].0))
    } else {
        Ok(())
    }
}

/// The model of a verdict as returned.
pub open spec fn verdict_view(r: Result<(), String>) -> Result<(), Seq<char>> {
    match r {
        Ok(()) => Ok(()),
        Err(e) => Err(e@),
    }
}

/// The first repeat, and the one earlier credential it repeats, are the
/// ones the verdict names.
proof fn lemma_first_repeat_named(k: Seq<(Seq<char>, Seq<char>)>, i: int, j: int)
    requires
        has_control_key(k),
        is_first_repeat(k, j),
        0 <= i < j,
        k[i].1 == k[j].1,
    ensures
        separation_verdict(k) == Err::<(), Seq<char>>(shared_credential_text(k[i].0, k[j].0)),
{
    let j2 = choose|j2: int| is_first_repeat(k, j2);
    if j2 < j {
        assert(!repeats_earlier(k, j2));
    } else if j < j2 {
        assert(!repeats_earlier(k, j));
    }
    assert(j2 == j);
    let i2 = choose|i2: int| 0 <= i2 < j && (#[trigger] k[i2]).1 == k[j].1;
    assert(0 <= i2 < j && k[i2].1 == k[j].1);
    if i2 < i {
        assert(k[i2].1 == k[i].1);
        assert(repeats_earlier(k, i));
    } else if i < i2 {
        assert(k[i].1 == k[i2].1);
        assert(repeats_earlier(k, i2));
    }
}

/// Checks the configured service credentials, given as name and value in
/// the order read: values are trimmed and blank ones left out; the control
/// credential must be there, and no two services may share a value. A
/// refusal names the variables, never the credential.
pub fn validate_service_api_key_separation(configured: &[(&str, &str)]) -> (r: Result<(), String>)
    ensures
        verdict_view(r) == separation_verdict(kept_credentials(configured@)),
{
    let ghost k = kept_credentials(configured@);
    let mut kept: Vec<(&str, &str)> = Vec::new();
    let mut idx: usize = 0;
    assert(configured@.subrange(0, 0) =~= Seq::<(&str, &str)>::empty());
    while idx < configured.len()
        invariant
            idx <= configured@.len(),
            kept@.len() == kept_credentials(configured@.subrange(0, idx as int)).len(),
            forall|m: int|
                0 <= m < kept@.len() ==> ((#[trigger] kept@[m]).0@, kept@[m].1@)
                    == kept_credentials(configured@.subrange(0, idx as int))[m],
        decreases configured@.len() - idx,
    {
        let (name, value) = configured[idx];
        let v = trim(value);
        assert(configured@.subrange(0, idx + 1).drop_last() =~= configured@.subrange(
            0,
            idx as int,
        ));
        if v.unicode_len() > 0 {
            kept.push((name, v));
        }
        idx = idx + 1;
    }
    assert(configured@.subrange(0, configured@.len() as int) =~= configured@);
    let n = kept.len();
    let mut found = false;
    let mut c: usize = 0;
    while c < n
        invariant
            n == kept@.len() == k.len(),
            forall|m: int| 0 <= m < n ==> ((#[trigger] kept@[m]).0@, kept@[m].1@) == k[m],
            c <= n,
            found <==> exists|m: int| 0 <= m < c && (#[trigger] k[m]).0 == CONTROL_API_KEY_ENV@,
        decreases n - c,
    {
        if text_eq(kept[c].0, CONTROL_API_KEY_ENV) {
            assert(k[c as int].0 == CONTROL_API_KEY_ENV@);
            found = true;
        }
        c = c + 1;
    }
    if !found {
        let mut e = "rollback bridge refuses to start unless ".to_owned();
        e.append(CONTROL_API_KEY_ENV);
        e.append(" is configured");
        return Err(e);
    }
    let mut j: usize = 0;
    while j < n
        invariant
            n == kept@.len() == k.len(),
            forall|m: int| 0 <= m < n ==> ((#[trigger] kept@[m]).0@, kept@[m].1@) == k[m],
            has_control_key(k),
            k == kept_credentials(configured@),
            j <= n,
            forall|m: int| 0 <= m < j ==> !#[trigger] repeats_earlier(k, m),
        decreases n - j,
    {
        let mut i: usize = 0;
        while i < j
            invariant
                n == kept@.len() == k.len(),
                forall|m: int| 0 <= m < n ==> ((#[trigger] kept@[m]).0@, kept@[m].1@) == k[m],
                has_control_key(k),
                k == kept_credentials(configured@),
                i <= j < n,
                forall|m: int| 0 <= m < j ==> !#[trigger] repeats_earlier(k, m),
                forall|m: int| 0 <= m < i ==> (#[trigger] k[m]).1 != k[j as int].1,
            decreases j - i,
        {
            if text_eq(kept[i].1, kept[j].1) {
                proof {
                    assert(k[i as int].1 == k[j as int].1);
                    assert(repeats_earlier(k, j as int));
                    assert(is_first_repeat(k, j as int));
                    assert(kept@[i as int].0@ == k[i as int].0);
                    assert(kept@[j as int].0@ == k[j as int].0);
                    lemma_first_repeat_named(k, i as int, j as int);
                }
                let mut e = "rollback bridge refuses to start because ".to_owned();
                e.append(kept[i].0);
                e.append(" and ");
                e.append(kept[j].0);
                e.append(" must contain distinct service credentials");
                return Err(e);
            }
            i = i + 1;
        }
        assert(!repeats_earlier(k, j as int));
        j = j + 1;
    }
    assert(!exists|j: int| is_first_repeat(k, j));
    Ok(())
}

/// Refuses to start when asked to run schema migrations.
pub fn require_rollback_bridge_migrations_disabled(run_migrations: bool) -> (r: Result<(), String>)
    ensures
        r is Ok <==> !run_migrations,
        r matches Err(e) ==> e@ == migrations_refusal_text(),
{
    if run_migrations {
        return Err(
            "rollback bridge refuses to start with RUN_MIGRATIONS=true; the reviewed forward runtime owns schema migration".to_owned(),
        );
    }
    Ok(())
}

/// The refusal when migrations were asked for.
pub open spec fn migrations_refusal_text() -> Seq<char> {
    "rollback bridge refuses to start with RUN_MIGRATIONS=true; the reviewed forward runtime owns schema migration"@
}

} // verus!
