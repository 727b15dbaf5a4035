//! Byte-string keys: lexicographic order, prefixes, and the exclusive upper
//! bound of a prefix.  Ranges own half-open `[lower, upper)` intervals of
//! this order, so everything the router proves rests on these definitions.

use vstd::prelude::*;

verus! {

/// Strict lexicographic order on byte strings: `a` comes before `b`.
pub open spec fn lex_lt(a: Seq<u8>, b: Seq<u8>) -> bool
    decreases a.len(),
{
    if b.len() == 0 {
        false
    } else if a.len() == 0 {
        true
    } else if a[0] < b[0] {
        true
    } else if a[0] > b[0] {
        false
    } else {
        lex_lt(a.drop_first(), b.drop_first())
    }
}

/// Non-strict lexicographic order.
pub open spec fn lex_le(a: Seq<u8>, b: Seq<u8>) -> bool {
    lex_lt(a, b) || a =~= b
}

/// `p` is a prefix of `k`.
pub open spec fn is_prefix(p: Seq<u8>, k: Seq<u8>) -> bool {
    p.len() <= k.len() && k.subrange(0, p.len() as int) =~= p
}

/// The order is irreflexive.
pub proof fn lemma_lex_irrefl(a: Seq<u8>)
    ensures
        !lex_lt(a, a),
    decreases a.len(),
{
    if a.len() > 0 {
        lemma_lex_irrefl(a.drop_first());
    }
}

/// The order is total: two byte strings, neither below the other, are equal.
pub proof fn lemma_lex_total(a: Seq<u8>, b: Seq<u8>)
    requires
        !lex_lt(a, b),
        !lex_lt(b, a),
    ensures
        a =~= b,
    decreases a.len(),
{
    if a.len() > 0 && b.len() > 0 {
        lemma_lex_total(a.drop_first(), b.drop_first());
        assert(a =~= seq![a[0]] + a.drop_first());
        assert(b =~= seq![b[0]] + b.drop_first());
    }
}

/// The order is transitive.
pub proof fn lemma_lex_trans(a: Seq<u8>, b: Seq<u8>, c: Seq<u8>)
    requires
        lex_lt(a, b),
        lex_lt(b, c),
    ensures
        lex_lt(a, c),
    decreases a.len(),
{
    if a.len() > 0 && b.len() > 0 && c.len() > 0 && a[0] == b[0] && b[0] == c[0] {
        lemma_lex_trans(a.drop_first(), b.drop_first(), c.drop_first());
    }
}

/// If the first `i` bytes agree, the order is decided by the remainders.
proof fn lemma_lex_skip(a: Seq<u8>, b: Seq<u8>, i: int)
    requires
        0 <= i <= a.len(),
        i <= b.len(),
        a.subrange(0, i) =~= b.subrange(0, i),
    ensures
        lex_lt(a, b) == lex_lt(a.skip(i), b.skip(i)),
    decreases i,
{
    if i > 0 {
        assert(a.subrange(0, i)[0] == a[0]);
        assert(b.subrange(0, i)[0] == b[0]);
        assert(a.drop_first().subrange(0, i - 1) =~= b.drop_first().subrange(0, i - 1)) by {
            assert forall|j: int| 0 <= j < i - 1 implies a.drop_first()[j] == b.drop_first()[j] by {
                assert(a.subrange(0, i)[j + 1] == b.subrange(0, i)[j + 1]);
            }
        }
        lemma_lex_skip(a.drop_first(), b.drop_first(), i - 1);
        assert(a.drop_first().skip(i - 1) =~= a.skip(i));
        assert(b.drop_first().skip(i - 1) =~= b.skip(i));
    } else {
        assert(a.skip(0) =~= a);
        assert(b.skip(0) =~= b);
    }
}

/// A non-strict step followed by a strict one is strict.
pub proof fn lemma_lex_le_lt_trans(a: Seq<u8>, b: Seq<u8>, c: Seq<u8>)
    requires
        lex_le(a, b),
        lex_lt(b, c),
    ensures
        lex_lt(a, c),
{
    if lex_lt(a, b) {
        lemma_lex_trans(a, b, c);
    }
}

/// A strict step followed by a non-strict one is strict.
pub proof fn lemma_lex_lt_le_trans(a: Seq<u8>, b: Seq<u8>, c: Seq<u8>)
    requires
        lex_lt(a, b),
        lex_le(b, c),
    ensures
        lex_lt(a, c),
{
    if lex_lt(b, c) {
        lemma_lex_trans(a, b, c);
    }
}

/// Decide equality of two byte strings.
pub fn bytes_eq(a: &Vec<u8>, b: &Vec<u8>) -> (r: bool)
    ensures
        r == (a@ =~= b@),
{
    if a.len() != b.len() {
        return false;
    }
    let mut i: usize = 0;
    while i < a.len()
        invariant
            a@.len() == b@.len(),
            i <= a@.len(),
            forall|j: int| 0 <= j < i ==> a@[j] == b@[j],
        decreases a@.len() - i,
    {
        if a[i] != b[i] {
            return false;
        }
        i = i + 1;
    }
    proof {
        assert(a@ =~= b@);
    }
    true
}

/// Decide whether `p` is a prefix of `k`.
pub fn key_is_prefix(p: &Vec<u8>, k: &Vec<u8>) -> (r: bool)
    ensures
        r == is_prefix(p@, k@),
{
    if p.len() > k.len() {
        return false;
    }
    let mut i: usize = 0;
    while i < p.len()
        invariant
            p@.len() <= k@.len(),
            i <= p@.len(),
            forall|j: int| 0 <= j < i ==> p@[j] == k@[j],
        decreases p@.len() - i,
    {
        if p[i] != k[i] {
            proof {
                assert(k@.subrange(0, p@.len() as int)[i as int] == k@[i as int]);
            }
            return false;
        }
        i = i + 1;
    }
    proof {
        assert(k@.subrange(0, p@.len() as int) =~= p@);
    }
    true
}

/// Some byte of `p` can still be incremented.
pub open spec fn has_non_ff(p: Seq<u8>) -> bool {
    exists|i: int| 0 <= i < p.len() && p[i] != 0xff
}

/// The exclusive upper bound of the keys extending prefix `p`: drop trailing
/// `0xff` bytes and increment the last remaining byte.
pub open spec fn prefix_upper(p: Seq<u8>) -> Seq<u8>
    decreases p.len(),
{
    if p.len() == 0 {
        Seq::empty()
    } else if p.last() < 0xff {
        p.drop_last().push((p.last() + 1) as u8)
    } else {
        prefix_upper(p.drop_last())
    }
}

/// Every key extending `p` lies strictly below `prefix_upper(p)`.
pub proof fn lemma_prefix_below_upper(p: Seq<u8>, k: Seq<u8>)
    requires
        has_non_ff(p),
        is_prefix(p, k),
    ensures
        lex_lt(k, prefix_upper(p)),
    decreases p.len(),
{
    let n = p.len() as int;
    if p.last() < 0xff {
        let u = p.drop_last().push((p.last() + 1) as u8);
        assert(u.subrange(0, n - 1) =~= k.subrange(0, n - 1)) by {
            assert forall|j: int| 0 <= j < n - 1 implies u[j] == k[j] by {
                assert(k.subrange(0, n)[j] == p[j]);
            }
        }
        lemma_lex_skip(k, u, n - 1);
        assert(k.skip(n - 1)[0] == k[n - 1]);
        assert(k.subrange(0, n)[n - 1] == p[n - 1]);
        assert(u.skip(n - 1)[0] == p.last() + 1);
        assert(lex_lt(k.skip(n - 1), u.skip(n - 1)));
    } else {
        let p2 = p.drop_last();
        assert(has_non_ff(p2)) by {
            let i = choose|i: int| 0 <= i < p.len() && p[i] != 0xff;
            assert(i != n - 1);
            assert(p2[i] != 0xff);
        }
        assert(is_prefix(p2, k)) by {
            assert(k.subrange(0, n - 1) =~= p2) by {
                assert forall|j: int| 0 <= j < n - 1 implies k[j] == p2[j] by {
                    assert(k.subrange(0, n)[j] == p[j]);
                }
            }
        }
        lemma_prefix_below_upper(p2, k);
    }
}

/// The exclusive upper bound of the keys extending this prefix.
pub fn upper_bound(p: &Vec<u8>) -> (r: Vec<u8>)
    requires
        has_non_ff(p@),
    ensures
        r@ == prefix_upper(p@),
{
    let mut j: usize = p.len();
    proof {
        assert(p@.subrange(0, p.len() as int) =~= p@);
    }
    while j > 0 && p[j - 1] == 0xff
        invariant
            j <= p.len(),
            has_non_ff(p@.subrange(0, j as int)),
            prefix_upper(p@) == prefix_upper(p@.subrange(0, j as int)),
        decreases j,
    {
        proof {
            let pj = p@.subrange(0, j as int);
            assert(pj.last() == 0xff);
            assert(pj.drop_last() =~= p@.subrange(0, j - 1));
            let i = choose|i: int| 0 <= i < pj.len() && pj[i] != 0xff;
            assert(i != j - 1);
            assert(p@.subrange(0, j - 1)[i] != 0xff);
        }
        j = j - 1;
    }
    proof {
        let pj = p@.subrange(0, j as int);
        if j == 0 {
            assert(!has_non_ff(pj));
            assert(false);
        }
        assert(pj.last() == p@[j - 1]);
        assert(pj.last() < 0xff);
    }
    let mut r: Vec<u8> = Vec::new();
    let mut i: usize = 0;
    while i < j - 1
        invariant
            j >= 1,
            j <= p.len(),
            i <= j - 1,
            r@ =~= p@.subrange(0, i as int),
        decreases j - i,
    {
        r.push(p[i]);
        i = i + 1;
    }
    let b = p[j - 1];
    proof {
        assert(p@.subrange(0, j as int).last() == b);
        assert(b < 0xff);
    }
    r.push(b + 1);
    proof {
        let pj = p@.subrange(0, j as int);
        assert(pj.drop_last() =~= p@.subrange(0, j - 1));
        assert(r@ =~= pj.drop_last().push((pj.last() + 1) as u8));
    }
    r
}

/// Compare two keys, deciding the strict lexicographic order.
pub fn key_lt(a: &Vec<u8>, b: &Vec<u8>) -> (r: bool)
    ensures
        r == lex_lt(a@, b@),
{
    let mut i: usize = 0;
    loop
        invariant
            i <= a.len(),
            i <= b.len(),
            a@.subrange(0, i as int) =~= b@.subrange(0, i as int),
        decreases a.len() - i,
    {
        proof {
            lemma_lex_skip(a@, b@, i as int);
        }
        if i >= a.len() || i >= b.len() {
            // one string is a prefix of the other
            assert(a@.skip(i as int).len() == 0 || b@.skip(i as int).len() == 0);
            return i >= a.len() && i < b.len();
        }
        let ab = a[i];
        let bb = b[i];
        if ab != bb {
            assert(a@.skip(i as int)[0] == ab);
            assert(b@.skip(i as int)[0] == bb);
            return ab < bb;
        }
        assert(a@.subrange(0, i + 1 as int) =~= b@.subrange(0, i + 1 as int));
        i = i + 1;
    }
}

/// Compare two keys, deciding the non-strict lexicographic order.
pub fn key_le(a: &Vec<u8>, b: &Vec<u8>) -> (r: bool)
    ensures
        r == lex_le(a@, b@),
{
    let lt_ba = key_lt(b, a);
    proof {
        if !lt_ba && !lex_lt(a@, b@) {
            lemma_lex_total(a@, b@);
        }
        if lex_lt(a@, b@) && lex_lt(b@, a@) {
            lemma_lex_trans(a@, b@, a@);
            lemma_lex_irrefl(a@);
        }
        if a@ =~= b@ {
            lemma_lex_irrefl(a@);
        }
    }
    !lt_ba
}

} // verus!
