use vstd::prelude::*;

verus! {

/// Strict lexicographic order on byte strings, compared from position `i` on.
pub open spec fn lex_lt_from(a: Seq<u8>, b: Seq<u8>, i: int) -> bool
    decreases a.len() - i,
{
    if i >= a.len() {
        i < b.len()
    } else if i >= b.len() {
        false
    } else if a[i] != b[i] {
        a[i] < b[i]
    } else {
        lex_lt_from(a, b, i + 1)
    }
}

/// The order in which the store keeps and scans its keys.
pub open spec fn lex_lt(a: Seq<u8>, b: Seq<u8>) -> bool {
    lex_lt_from(a, b, 0)
}

/// `p` is a prefix of `s`.
pub open spec fn has_prefix(s: Seq<u8>, p: Seq<u8>) -> bool {
    p.len() <= s.len() && s.subrange(0, p.len() as int) == p
}

pub proof fn lemma_lex_irreflexive_from(a: Seq<u8>, i: int)
    requires
        0 <= i,
    ensures
        !lex_lt_from(a, a, i),
    decreases a.len() - i,
{
    if i < a.len() {
        lemma_lex_irreflexive_from(a, i + 1);
    }
}

pub proof fn lemma_lex_irreflexive(a: Seq<u8>)
    ensures
        !lex_lt(a, a),
{
    lemma_lex_irreflexive_from(a, 0);
}

pub proof fn lemma_lex_transitive_from(a: Seq<u8>, b: Seq<u8>, c: Seq<u8>, i: int)
    requires
        0 <= i,
        lex_lt_from(a, b, i),
        lex_lt_from(b, c, i),
    ensures
        lex_lt_from(a, c, i),
    decreases a.len() - i,
{
    if i < a.len() && i < b.len() && i < c.len() && a[i] == b[i] && b[i] == c[i] {
        lemma_lex_transitive_from(a, b, c, i + 1);
    }
}

pub proof fn lemma_lex_transitive(a: Seq<u8>, b: Seq<u8>, c: Seq<u8>)
    requires
        lex_lt(a, b),
        lex_lt(b, c),
    ensures
        lex_lt(a, c),
{
    lemma_lex_transitive_from(a, b, c, 0);
}

pub proof fn lemma_lex_total_from(a: Seq<u8>, b: Seq<u8>, i: int)
    requires
        0 <= i <= a.len(),
        i <= b.len(),
        a.subrange(0, i) == b.subrange(0, i),
        !lex_lt_from(a, b, i),
        !lex_lt_from(b, a, i),
    ensures
        a == b,
    decreases a.len() - i,
{
    if i < a.len() && i < b.len() {
        assert(a[i] == b[i]);
        assert(a.subrange(0, i + 1) == a.subrange(0, i).push(a[i]));
        assert(b.subrange(0, i + 1) == b.subrange(0, i).push(b[i]));
        lemma_lex_total_from(a, b, i + 1);
    } else {
        assert(a.len() == i && b.len() == i);
        assert(a == a.subrange(0, i));
        assert(b == b.subrange(0, i));
    }
}

/// Any two distinct byte strings are ordered one way or the other.
pub proof fn lemma_lex_total(a: Seq<u8>, b: Seq<u8>)
    requires
        a != b,
    ensures
        lex_lt(a, b) || lex_lt(b, a),
{
    if !lex_lt(a, b) && !lex_lt(b, a) {
        assert(a.subrange(0, 0) == b.subrange(0, 0));
        lemma_lex_total_from(a, b, 0);
    }
}

/// `lex_lt_from` on `a` from `i` is `lex_lt` of what follows `i`, when `a` and `b` agree before it.
pub proof fn lemma_lex_shift(a: Seq<u8>, b: Seq<u8>, i: int, j: int)
    requires
        0 <= i <= j,
        j <= a.len(),
        j <= b.len(),
        a.subrange(i, j) == b.subrange(i, j),
    ensures
        lex_lt_from(a, b, i) == lex_lt_from(a, b, j),
    decreases j - i,
{
    if i < j {
        assert(a[i] == a.subrange(i, j)[0]);
        assert(b[i] == b.subrange(i, j)[0]);
        assert(a.subrange(i + 1, j) == a.subrange(i, j).subrange(1, j - i));
        assert(b.subrange(i + 1, j) == b.subrange(i, j).subrange(1, j - i));
        lemma_lex_shift(a, b, i + 1, j);
    }
}

proof fn lemma_lex_offset(a: Seq<u8>, b: Seq<u8>, off: int, i: int)
    requires
        0 <= off <= a.len(),
        0 <= i,
    ensures
        b.len() < off || lex_lt_from(a, b, off + i) == lex_lt_from(
            a.subrange(off, a.len() as int),
            b.subrange(off, b.len() as int),
            i,
        ),
    decreases a.len() - off - i,
{
    if off <= b.len() && off + i < a.len() && off + i < b.len() {
        lemma_lex_offset(a, b, off, i + 1);
    }
}

pub proof fn lemma_lex_asymmetric(a: Seq<u8>, b: Seq<u8>)
    requires
        lex_lt(a, b),
    ensures
        !lex_lt(b, a),
{
    if lex_lt(b, a) {
        lemma_lex_transitive(a, b, a);
        lemma_lex_irreflexive(a);
    }
}

proof fn lemma_lex_proper_prefix_from(a: Seq<u8>, b: Seq<u8>, i: int)
    requires
        0 <= i <= a.len() < b.len(),
        b.subrange(0, a.len() as int) == a,
    ensures
        lex_lt_from(a, b, i),
    decreases a.len() - i,
{
    if i < a.len() {
        assert(b[i] == b.subrange(0, a.len() as int)[i]);
        lemma_lex_proper_prefix_from(a, b, i + 1);
    }
}

/// A proper prefix comes first.
pub proof fn lemma_lex_proper_prefix(a: Seq<u8>, b: Seq<u8>)
    requires
        has_prefix(b, a),
        a.len() < b.len(),
    ensures
        lex_lt(a, b),
{
    lemma_lex_proper_prefix_from(a, b, 0);
}

proof fn lemma_lex_after_one_from(k: Seq<u8>, x: Seq<u8>, i: int)
    requires
        0 <= i <= k.len(),
        lex_lt_from(k, x, i),
        !(x.len() > k.len() && x[k.len() as int] == 0 && x.subrange(i, k.len() as int) == k.subrange(
            i,
            k.len() as int,
        )),
    ensures
        !lex_lt_from(x, k.push(1u8), i),
    decreases k.len() - i,
{
    let k1 = k.push(1u8);
    let kl = k.len() as int;
    if i < kl {
        assert(k1[i] == k[i]);
        if i < x.len() && k[i] == x[i] {
            if x.len() > kl && x[kl] == 0 && x.subrange(i + 1, kl) == k.subrange(i + 1, kl) {
                assert forall|j: int| 0 <= j < kl - i implies x.subrange(i, kl)[j] == k.subrange(i, kl)[j] by {
                    if j > 0 {
                        assert(x.subrange(i, kl)[j] == x.subrange(i + 1, kl)[j - 1]);
                        assert(k.subrange(i, kl)[j] == k.subrange(i + 1, kl)[j - 1]);
                    }
                }
                assert(x.subrange(i, kl) =~= k.subrange(i, kl));
            }
            lemma_lex_after_one_from(k, x, i + 1);
        }
    } else {
        assert(k1[kl] == 1);
        assert(x.subrange(i, kl) =~= k.subrange(i, kl));
        if i < x.len() && x[i] == 1 {
            assert(!lex_lt_from(x, k1, i + 1));
        }
    }
}

/// A key after `k` that does not continue `k` with a zero byte is not below `k` followed by 1.
pub proof fn lemma_lex_after_one(k: Seq<u8>, x: Seq<u8>)
    requires
        lex_lt(k, x),
        !has_prefix(x, k.push(0u8)),
    ensures
        !lex_lt(x, k.push(1u8)),
{
    if x.len() > k.len() && x[k.len() as int] == 0 && x.subrange(0, k.len() as int) == k.subrange(
        0,
        k.len() as int,
    ) {
        assert(x.subrange(0, k.len() + 1 as int) =~= k.push(0u8));
    }
    lemma_lex_after_one_from(k, x, 0);
}

/// Comparing keys that share a prefix is comparing what follows the prefix.
pub proof fn lemma_lex_common_prefix(p: Seq<u8>, a: Seq<u8>, b: Seq<u8>)
    ensures
        lex_lt(p + a, p + b) == lex_lt(a, b),
{
    let x = p + a;
    let y = p + b;
    assert(x.subrange(0, p.len() as int) == y.subrange(0, p.len() as int));
    lemma_lex_shift(x, y, 0, p.len() as int);
    lemma_lex_offset(x, y, p.len() as int, 0);
    assert(x.subrange(p.len() as int, x.len() as int) == a);
    assert(y.subrange(p.len() as int, y.len() as int) == b);
}

/// Exact comparison `a[off..] < b` in the key order.
pub fn lt_from_offset(a: &[u8], off: usize, b: &[u8]) -> (r: bool)
    requires
        off <= a@.len(),
    ensures
        r == lex_lt(a@.subrange(off as int, a@.len() as int), b@),
{
    let ghost s = a@.subrange(off as int, a@.len() as int);
    let mut i: usize = 0;
    while i < a.len() - off && i < b.len()
        invariant
            off <= a@.len(),
            i <= a@.len() - off,
            i <= b@.len(),
            s == a@.subrange(off as int, a@.len() as int),
            lex_lt(s, b@) == lex_lt_from(s, b@, i as int),
        decreases b@.len() - i,
    {
        if a[off + i] != b[i] {
            return a[off + i] < b[i];
        }
        i = i + 1;
    }
    i < b.len()
}

/// Whether `p` is a prefix of `s`.
pub fn starts_with(s: &[u8], p: &[u8]) -> (r: bool)
    ensures
        r == has_prefix(s@, p@),
{
    if p.len() > s.len() {
        return false;
    }
    let mut i: usize = 0;
    while i < p.len()
        invariant
            p@.len() <= s@.len(),
            i <= p@.len(),
            forall|j: int| 0 <= j < i ==> s@[j] == p@[j],
        decreases p@.len() - i,
    {
        if s[i] != p[i] {
            assert(s@.subrange(0, p@.len() as int)[i as int] != p@[i as int]);
            return false;
        }
        i = i + 1;
    }
    assert(s@.subrange(0, p@.len() as int) == p@);
    true
}

/// Whether two byte strings are equal.
pub fn bytes_eq(a: &[u8], b: &[u8]) -> (r: bool)
    ensures
        r == (a@ == b@),
{
    if a.len() != b.len() {
        return false;
    }
    let r = starts_with(a, b);
    assert(a@ == a@.subrange(0, b@.len() as int));
    r
}

} // verus!
