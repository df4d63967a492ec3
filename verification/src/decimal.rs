//! The decimal text of an integer, as the database writes a JSON number
//! when it reads a member as text.
use vstd::prelude::*;

verus! {

/// The digit character of `d`, for `d` below ten.
pub open spec fn digit_char(d: nat) -> char {
    (48 + d) as char
}

/// The decimal digits of `n`, most significant first, without leading
/// zeros.
pub open spec fn spec_decimal(n: nat) -> Seq<char>
    decreases n,
{
    if n < 10 {
        seq![digit_char(n)]
    } else {
        spec_decimal(n / 10).push(digit_char(n % 10))
    }
}

/// The decimal text of `n`: its digits, after a `-` when it is negative.
pub open spec fn spec_signed_decimal(n: int) -> Seq<char> {
    if n < 0 {
        seq!['-'] + spec_decimal((-n) as nat)
    } else {
        spec_decimal(n as nat)
    }
}

proof fn lemma_decimal_nonempty(n: nat)
    ensures
        spec_decimal(n).len() >= 1,
    decreases n,
{
    if n >= 10 {
        lemma_decimal_nonempty(n / 10);
    }
}

/// True when `t` is the decimal digits of `n`.
fn digits_eq(n: u128, t: &str, start: usize) -> (r: bool)
    requires
        start <= t@.len(),
    ensures
        r == (t@.subrange(start as int, t@.len() as int) == spec_decimal(n as nat)),
{
    let len = t.unicode_len();
    let mut i: usize = len;
    let mut m: u128 = n;
    proof {
        assert(t@.subrange(len as int, len as int) =~= Seq::<char>::empty());
        assert(spec_decimal(n as nat) =~= spec_decimal(m as nat) + Seq::<char>::empty());
    }
    let ghost mut suffix: Seq<char> = Seq::empty();
    loop
        invariant
            len == t@.len(),
            start <= i <= len,
            suffix == t@.subrange(i as int, len as int),
            spec_decimal(n as nat) == spec_decimal(m as nat) + suffix,
        decreases i,
    {
        proof {
            lemma_decimal_nonempty(m as nat);
        }
        if i == start {
            proof {
                assert(t@.subrange(start as int, len as int) == suffix);
                assert(spec_decimal(m as nat).len() >= 1);
                assert((spec_decimal(m as nat) + suffix).len() > suffix.len());
            }
            return false;
        }
        let c = t.get_char(i - 1);
        let d = m % 10;
        let expected = d as u32 + 48;
        proof {
            if m >= 10 {
                assert(spec_decimal(m as nat) == spec_decimal((m / 10) as nat).push(digit_char((m % 10) as nat)));
            } else {
                assert(spec_decimal(m as nat) =~= seq![digit_char(m as nat)]);
            }
        }
        if c as u32 != expected {
            proof {
                let whole = spec_decimal(m as nat) + suffix;
                let last = spec_decimal(m as nat).len() - 1;
                assert(whole[last] == digit_char((m % 10) as nat));
                let sub = t@.subrange(start as int, len as int);
                if sub == whole {
                    if sub.len() == whole.len() {
                        assert(sub[(i - 1 - start) as int] == c);
                        assert(whole.len() - suffix.len() - 1 == last);
                        assert(sub.len() == len - start);
                        assert((i - 1 - start) as int == last);
                        assert(digit_char((m % 10) as nat) as u32 == expected);
                    }
                }
            }
            return false;
        }
        let ghost old_suffix = suffix;
        proof {
            suffix = t@.subrange(i - 1, len as int);
            assert(suffix =~= seq![c] + old_suffix);
        }
        i = i - 1;
        if m < 10 {
            proof {
                assert(spec_decimal(m as nat) =~= seq![digit_char(m as nat)]);
                assert(digit_char(m as nat) == c);
                assert(spec_decimal(n as nat) =~= suffix);
            }
            return i == start;
        }
        proof {
            assert(spec_decimal(m as nat) + old_suffix =~= spec_decimal((m / 10) as nat) + suffix);
        }
        m = m / 10;
    }
}

/// True when `t` is the decimal text of the unsigned integer `n`.
pub fn is_decimal_of_u64(n: u64, t: &str) -> (r: bool)
    ensures
        r == (t@ == spec_signed_decimal(n as int)),
{
    proof {
        assert(t@.subrange(0, t@.len() as int) =~= t@);
    }
    digits_eq(n as u128, t, 0)
}

/// True when `t` is the decimal text of the signed integer `n`.
pub fn is_decimal_of_i64(n: i64, t: &str) -> (r: bool)
    ensures
        r == (t@ == spec_signed_decimal(n as int)),
{
    if n >= 0 {
        proof {
            assert(t@.subrange(0, t@.len() as int) =~= t@);
        }
        return digits_eq(n as u128, t, 0);
    }
    let len = t.unicode_len();
    if len == 0 || t.get_char(0) != '-' {
        return false;
    }
    let magnitude: u128 = (-(n as i128)) as u128;
    proof {
        assert(t@ =~= seq![t@[0]] + t@.subrange(1, len as int));
    }
    let r = digits_eq(magnitude, t, 1);
    proof {
        if r {
            assert(t@ =~= seq!['-'] + spec_decimal(magnitude as nat));
        } else {
            let want = seq!['-'] + spec_decimal(magnitude as nat);
            if t@ == want {
                assert(t@.subrange(1, len as int) =~= want.subrange(1, want.len() as int));
                assert(want.subrange(1, want.len() as int) =~= spec_decimal(magnitude as nat));
            }
        }
    }
    r
}

} // verus!
