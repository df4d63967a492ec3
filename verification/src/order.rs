//! The order in which the store sorts rows: by a timestamp, then by a text
//! column compared character by character, as the database compares text
//! under the `C` collation.
use vstd::prelude::*;
use vstd::set_lib::{lemma_int_range, lemma_len_subset, lemma_subset_equality, set_int_range};

verus! {

/// `a` sorts before `b`: at the first character where they differ, `a`'s
/// is the smaller; or `a` is a proper prefix of `b`.
pub open spec fn text_lt(a: Seq<char>, b: Seq<char>) -> bool
    decreases a.len(),
{
    if a.len() == 0 {
        b.len() > 0
    } else if b.len() == 0 {
        false
    } else if a[0] != b[0] {
        a[0] < b[0]
    } else {
        text_lt(a.drop_first(), b.drop_first())
    }
}

/// No text sorts before itself, and of two texts at most one sorts first.
pub proof fn lemma_text_lt_asymmetric(a: Seq<char>, b: Seq<char>)
    ensures
        !(text_lt(a, b) && text_lt(b, a)),
        !text_lt(a, a),
    decreases a.len(),
{
    if a.len() > 0 && b.len() > 0 && a[0] == b[0] {
        lemma_text_lt_asymmetric(a.drop_first(), b.drop_first());
    }
    if a.len() > 0 {
        lemma_text_lt_asymmetric(a.drop_first(), a.drop_first());
    }
}

/// Of two different texts, one sorts before the other.
pub proof fn lemma_text_lt_total(a: Seq<char>, b: Seq<char>)
    requires
        a != b,
    ensures
        text_lt(a, b) || text_lt(b, a),
    decreases a.len(),
{
    if a.len() > 0 && b.len() > 0 && a[0] == b[0] {
        if a.drop_first() == b.drop_first() {
            assert(a =~= seq![a[0]] + a.drop_first());
            assert(b =~= seq![b[0]] + b.drop_first());
        }
        lemma_text_lt_total(a.drop_first(), b.drop_first());
    }
    if a.len() == 0 && b.len() == 0 {
        assert(a =~= b);
    }
}

/// Sorting before is transitive.
pub proof fn lemma_text_lt_transitive(a: Seq<char>, b: Seq<char>, c: Seq<char>)
    requires
        text_lt(a, b),
        text_lt(b, c),
    ensures
        text_lt(a, c),
    decreases a.len(),
{
    if a.len() > 0 && b.len() > 0 && c.len() > 0 && a[0] == b[0] && b[0] == c[0] {
        lemma_text_lt_transitive(a.drop_first(), b.drop_first(), c.drop_first());
    }
}

/// True when `a` sorts before `b`.
pub fn text_less(a: &str, b: &str) -> (r: bool)
    ensures
        r == text_lt(a@, b@),
{
    let n = a.unicode_len();
    let m = b.unicode_len();
    let mut i: usize = 0;
    assert(a@.subrange(0, n as int) =~= a@);
    assert(b@.subrange(0, m as int) =~= b@);
    while i < n && i < m && a.get_char(i) == b.get_char(i)
        invariant
            n == a@.len(),
            m == b@.len(),
            i <= n,
            i <= m,
            text_lt(a@, b@) == text_lt(a@.subrange(i as int, n as int), b@.subrange(i as int, m as int)),
        decreases n - i,
    {
        assert(a@.subrange(i as int, n as int).drop_first() =~= a@.subrange(i + 1, n as int));
        assert(b@.subrange(i as int, m as int).drop_first() =~= b@.subrange(i + 1, m as int));
        i = i + 1;
    }
    if i == n {
        i < m
    } else if i == m {
        false
    } else {
        a.get_char(i) < b.get_char(i)
    }
}

/// The order of rows keyed by a timestamp and then a text.
pub open spec fn key_lt(t1: i128, s1: Seq<char>, t2: i128, s2: Seq<char>) -> bool {
    t1 < t2 || (t1 == t2 && text_lt(s1, s2))
}

/// True when key `(t1, s1)` sorts before key `(t2, s2)`.
pub fn key_less(t1: i128, s1: &str, t2: i128, s2: &str) -> (r: bool)
    ensures
        r == key_lt(t1, s1@, t2, s2@),
{
    t1 < t2 || (t1 == t2 && text_less(s1, s2))
}

/// Sorting keys before is transitive.
pub proof fn lemma_key_lt_transitive(
    t1: i128,
    s1: Seq<char>,
    t2: i128,
    s2: Seq<char>,
    t3: i128,
    s3: Seq<char>,
)
    requires
        key_lt(t1, s1, t2, s2),
        key_lt(t2, s2, t3, s3),
    ensures
        key_lt(t1, s1, t3, s3),
{
    if t1 == t2 && t2 == t3 {
        lemma_text_lt_transitive(s1, s2, s3);
    }
}

/// `p` lists each position below `n` exactly once.
pub open spec fn is_permutation(p: Seq<usize>, n: nat) -> bool {
    &&& p.len() == n
    &&& forall|k: int| 0 <= k < p.len() ==> #[trigger] p[k] < n
    &&& forall|a: int, b: int| 0 <= a < p.len() && 0 <= b < p.len() && a != b ==> p[a] != p[b]
}

/// `p` lists the positions of `keys` in key order.
pub open spec fn in_key_order(p: Seq<usize>, keys: Seq<(i128, Seq<char>)>) -> bool {
    &&& is_permutation(p, keys.len())
    &&& forall|a: int, b: int|
        0 <= a < b < p.len() ==> !key_lt(
            keys[p[b] as int].0,
            keys[p[b] as int].1,
            keys[p[a] as int].0,
            keys[p[a] as int].1,
        )
}

/// The items of `s` in the order `p` lists their positions.
pub open spec fn reordered<A>(s: Seq<A>, p: Seq<usize>) -> Seq<A> {
    Seq::new(p.len(), |k: int| s[p[k] as int])
}

/// Every position below `p.len()` is listed by the permutation `p`.
proof fn lemma_permutation_covers(p: Seq<usize>, x: int)
    requires
        is_permutation(p, p.len()),
        0 <= x < p.len(),
    ensures
        exists|k: int| 0 <= k < p.len() && p[k] == x,
{
    let n = p.len() as int;
    let pi = p.map_values(|v: usize| v as int);
    assert(pi.no_duplicates()) by {
        assert forall|a: int, b: int| 0 <= a < pi.len() && 0 <= b < pi.len() && a != b implies pi[a]
            != pi[b] by {
            assert(p[a] != p[b]);
        }
    }
    pi.unique_seq_to_set();
    lemma_int_range(0, n);
    assert(pi.to_set().subset_of(set_int_range(0, n))) by {
        assert forall|v: int| pi.to_set().contains(v) implies set_int_range(0, n).contains(v) by {
            let k = choose|k: int| 0 <= k < pi.len() && pi[k] == v;
            assert(p[k] < n);
        }
    }
    lemma_len_subset(pi.to_set(), set_int_range(0, n));
    lemma_subset_equality(pi.to_set(), set_int_range(0, n));
    assert(set_int_range(0, n).contains(x));
    assert(pi.to_set().contains(x));
    let k = choose|k: int| 0 <= k < pi.len() && pi[k] == x;
    assert(p[k] == x);
}

/// The texts of `keys` are pairwise different.
pub open spec fn distinct_texts(keys: Seq<(i128, Seq<char>)>) -> bool {
    forall|i: int, j: int| 0 <= i < keys.len() && 0 <= j < keys.len() && i != j ==> keys[i].1 != keys[j].1
}

/// Under two key orders of keys with distinct texts, position `k` holds the
/// same key.
proof fn lemma_key_order_same_at(keys: Seq<(i128, Seq<char>)>, p: Seq<usize>, q: Seq<usize>, k: int)
    requires
        in_key_order(p, keys),
        in_key_order(q, keys),
        distinct_texts(keys),
        0 <= k < p.len(),
    ensures
        p[k] == q[k],
    decreases k,
{
    let x = p[k] as int;
    lemma_permutation_covers(q, x);
    let m = choose|m: int| 0 <= m < q.len() && q[m] == x;
    if m < k {
        lemma_key_order_same_at(keys, p, q, m);
        assert(p[m] == p[k]);
    } else if m > k {
        let y = q[k] as int;
        assert(y != x);
        assert(!key_lt(keys[x].0, keys[x].1, keys[y].0, keys[y].1));
        lemma_text_lt_total(keys[x].1, keys[y].1);
        assert(key_lt(keys[y].0, keys[y].1, keys[x].0, keys[x].1));
        lemma_permutation_covers(p, y);
        let m2 = choose|m2: int| 0 <= m2 < p.len() && p[m2] == y;
        if m2 > k {
            assert(!key_lt(keys[y].0, keys[y].1, keys[x].0, keys[x].1));
        } else if m2 < k {
            lemma_key_order_same_at(keys, p, q, m2);
            assert(q[m2] == q[k]);
        }
    }
}

/// The items of `s` have pairwise different texts under `text`.
pub open spec fn distinct_by<A>(s: Seq<A>, text: spec_fn(A) -> Seq<char>) -> bool {
    forall|i: int, j: int| 0 <= i < s.len() && 0 <= j < s.len() && i != j ==> text(s[i]) != text(s[j])
}

/// Keeping the items `pred` accepts keeps their texts pairwise different.
pub proof fn lemma_filter_distinct_by<A>(s: Seq<A>, pred: spec_fn(A) -> bool, text: spec_fn(A) -> Seq<char>)
    requires
        distinct_by(s, text),
    ensures
        distinct_by(s.filter(pred), text),
    decreases s.len(),
{
    if s.len() > 0 {
        let init = s.drop_last();
        let e = s.last();
        assert(s =~= init.push(e));
        lemma_filter_distinct_by(init, pred, text);
        init.lemma_filter_push(e, pred);
        if pred(e) {
            let f = init.filter(pred);
            assert forall|i: int, j: int|
                0 <= i < f.push(e).len() && 0 <= j < f.push(e).len() && i != j implies text(f.push(e)[i])
                != text(f.push(e)[j]) by {
                if i == f.len() {
                    assert(f.contains(f[j]));
                    init.lemma_filter_contains_rev(pred, f[j]);
                    let m = choose|m: int| 0 <= m < init.len() && init[m] == f[j];
                    assert(s[m] == init[m] && s[s.len() - 1] == e);
                } else if j == f.len() {
                    assert(f.contains(f[i]));
                    init.lemma_filter_contains_rev(pred, f[i]);
                    let m = choose|m: int| 0 <= m < init.len() && init[m] == f[i];
                    assert(s[m] == init[m] && s[s.len() - 1] == e);
                } else {
                    assert(f.push(e)[i] == f[i] && f.push(e)[j] == f[j]);
                }
            }
        }
    }
}

/// Keys with distinct texts have one key order only: a listing that takes
/// rows in key order is the same whichever way it is produced.
pub proof fn lemma_key_order_unique(keys: Seq<(i128, Seq<char>)>, p: Seq<usize>, q: Seq<usize>)
    requires
        in_key_order(p, keys),
        in_key_order(q, keys),
        distinct_texts(keys),
    ensures
        p == q,
{
    assert forall|k: int| 0 <= k < p.len() implies p[k] == q[k] by {
        lemma_key_order_same_at(keys, p, q, k);
    }
    assert(p =~= q);
}

/// A row that the store lists in the order of a key made of a timestamp
/// and a text.
pub trait KeyedRow: Sized {
    /// The key the row is listed by.
    spec fn row_key(&self) -> (i128, Seq<char>);

    /// True when this row sorts before `other`.
    fn sorts_before(&self, other: &Self) -> (r: bool)
        ensures
            r == key_lt(self.row_key().0, self.row_key().1, other.row_key().0, other.row_key().1),
    ;
}

/// Row `x` sorts before row `y`.
pub open spec fn row_lt<T: KeyedRow>(x: T, y: T) -> bool {
    key_lt(x.row_key().0, x.row_key().1, y.row_key().0, y.row_key().1)
}

/// The rows in key order, rows with equal keys in their given order.
pub fn sort_rows<T: KeyedRow>(rows: Vec<T>) -> (r: Vec<T>)
    ensures
        r@.len() == rows@.len(),
        exists|p: Seq<usize>|
            #[trigger] is_permutation(p, rows@.len()) && forall|k: int|
                0 <= k < r@.len() ==> r@[k] == rows@[p[k] as int],
        forall|a: int, b: int| 0 <= a < b < r@.len() ==> !row_lt(r@[b], r@[a]),
{
    let ghost orig = rows@;
    let n = rows.len();
    let mut rest = rows;
    let mut out: Vec<T> = Vec::new();
    let ghost mut perm: Seq<usize> = Seq::empty();
    let mut i: usize = 0;
    assert(orig.subrange(0, n as int) =~= orig);
    while i < n
        invariant
            n == orig.len(),
            i <= n,
            rest@ == orig.subrange(i as int, n as int),
            out@.len() == i,
            perm.len() == i,
            forall|k: int| 0 <= k < perm.len() ==> #[trigger] perm[k] < i,
            forall|a: int, b: int|
                0 <= a < perm.len() && 0 <= b < perm.len() && a != b ==> perm[a] != perm[b],
            forall|k: int| 0 <= k < out@.len() ==> #[trigger] out@[k] == orig[perm[k] as int],
            forall|a: int, b: int| 0 <= a < b < out@.len() ==> !row_lt(out@[b], out@[a]),
        decreases n - i,
    {
        let x = rest.remove(0);
        assert(x == orig[i as int]);
        assert(rest@ =~= orig.subrange(i + 1, n as int));
        let mut p: usize = 0;
        while p < out.len() && !x.sorts_before(&out[p])
            invariant
                p <= out@.len(),
                forall|a: int| 0 <= a < p ==> !row_lt(x, #[trigger] out@[a]),
            decreases out@.len() - p,
        {
            p = p + 1;
        }
        let ghost gx = x;
        let ghost old_out = out@;
        let ghost old_perm = perm;
        out.insert(p, x);
        proof {
            perm = old_perm.insert(p as int, i);
            assert(out@ == old_out.insert(p as int, gx));
            assert forall|a: int, b: int| 0 <= a < b < out@.len() implies !row_lt(out@[b], out@[a]) by {
                if a < p && b < p {
                    assert(out@[a] == old_out[a] && out@[b] == old_out[b]);
                } else if a < p && b == p {
                    assert(out@[a] == old_out[a]);
                } else if a < p && b > p {
                    assert(out@[a] == old_out[a] && out@[b] == old_out[b - 1]);
                } else if a == p {
                    let y = old_out[b - 1];
                    let z = old_out[p as int];
                    assert(out@[b] == y);
                    assert(row_lt(gx, z));
                    if row_lt(y, gx) {
                        lemma_key_lt_transitive(
                            y.row_key().0,
                            y.row_key().1,
                            gx.row_key().0,
                            gx.row_key().1,
                            z.row_key().0,
                            z.row_key().1,
                        );
                        if b - 1 > p {
                            assert(!row_lt(y, z));
                        } else {
                            lemma_text_lt_asymmetric(z.row_key().1, z.row_key().1);
                        }
                    }
                } else {
                    assert(out@[a] == old_out[a - 1] && out@[b] == old_out[b - 1]);
                }
            }
            assert forall|a: int, b: int|
                0 <= a < perm.len() && 0 <= b < perm.len() && a != b implies perm[a] != perm[b] by {
                if a != p && b != p {
                    let a2 = if a < p { a } else { a - 1 };
                    let b2 = if b < p { b } else { b - 1 };
                    assert(perm[a] == old_perm[a2] && perm[b] == old_perm[b2]);
                } else if a == p {
                    let b2 = if b < p { b } else { b - 1 };
                    assert(perm[b] == old_perm[b2]);
                } else {
                    let a2 = if a < p { a } else { a - 1 };
                    assert(perm[a] == old_perm[a2]);
                }
            }
            assert forall|k: int| 0 <= k < perm.len() implies #[trigger] perm[k] < i + 1 by {
                if k < p {
                    assert(perm[k] == old_perm[k]);
                } else if k > p {
                    assert(perm[k] == old_perm[k - 1]);
                }
            }
            assert forall|k: int| 0 <= k < out@.len() implies #[trigger] out@[k] == orig[perm[k] as int] by {
                if k < p {
                    assert(out@[k] == old_out[k] && perm[k] == old_perm[k]);
                } else if k > p {
                    assert(out@[k] == old_out[k - 1] && perm[k] == old_perm[k - 1]);
                }
            }
        }
        i = i + 1;
    }
    assert(is_permutation(perm, orig.len()));
    out
}

} // verus!
