use vstd::prelude::*;

use crate::bytes::{
    bytes_eq, has_prefix, lemma_lex_irreflexive, lemma_lex_total, lemma_lex_transitive, lex_lt,
    lt_from_offset, starts_with,
};

verus! {

/// A value that the store can hand out copies of.
pub trait Record: View + Sized {
    fn duplicate(&self) -> (r: Self)
        ensures
            r@ == self@,
    ;
}

/// Keys strictly increase along the sequence.
pub open spec fn keys_sorted<T>(s: Seq<(Seq<u8>, T)>) -> bool {
    forall|i: int, j: int| 0 <= i < j < s.len() ==> lex_lt(#[trigger] s[i].0, #[trigger] s[j].0)
}

pub open spec fn has_key<T>(s: Seq<(Seq<u8>, T)>, k: Seq<u8>) -> bool {
    exists|i: int| 0 <= i < s.len() && #[trigger] s[i].0 == k
}

pub open spec fn key_index<T>(s: Seq<(Seq<u8>, T)>, k: Seq<u8>) -> int {
    choose|i: int| 0 <= i < s.len() && #[trigger] s[i].0 == k
}

/// The value stored under `k`, if any.
pub open spec fn lookup<T>(s: Seq<(Seq<u8>, T)>, k: Seq<u8>) -> Option<T> {
    if has_key(s, k) {
        Some(s[key_index(s, k)].1)
    } else {
        None
    }
}

/// What follows `prefix` in `key`.
pub open spec fn suffix(key: Seq<u8>, prefix: Seq<u8>) -> Seq<u8> {
    key.subrange(prefix.len() as int, key.len() as int)
}

/// A key lies in a scan over `prefix`: its suffix is at least `start` (inclusive)
/// and below `end` (exclusive); a missing bound does not restrict.
pub open spec fn in_scan(
    key: Seq<u8>,
    prefix: Seq<u8>,
    start: Option<Seq<u8>>,
    end: Option<Seq<u8>>,
) -> bool {
    &&& has_prefix(key, prefix)
    &&& match start {
        Some(st) => !lex_lt(suffix(key, prefix), st),
        None => true,
    }
    &&& match end {
        Some(en) => lex_lt(suffix(key, prefix), en),
        None => true,
    }
}

/// Positions from `lo` upward whose key lies in the scan, in increasing order.
pub open spec fn scan_up<T>(
    s: Seq<(Seq<u8>, T)>,
    lo: int,
    prefix: Seq<u8>,
    start: Option<Seq<u8>>,
    end: Option<Seq<u8>>,
) -> Seq<int>
    decreases s.len() - lo,
{
    if lo < 0 || lo >= s.len() {
        Seq::empty()
    } else {
        let rest = scan_up(s, lo + 1, prefix, start, end);
        if in_scan(s[lo].0, prefix, start, end) {
            seq![lo] + rest
        } else {
            rest
        }
    }
}

/// Positions below `hi` whose key lies in the scan, in decreasing order.
pub open spec fn scan_down<T>(
    s: Seq<(Seq<u8>, T)>,
    hi: int,
    prefix: Seq<u8>,
    start: Option<Seq<u8>>,
    end: Option<Seq<u8>>,
) -> Seq<int>
    decreases hi,
{
    if hi <= 0 || hi > s.len() {
        Seq::empty()
    } else {
        let rest = scan_down(s, hi - 1, prefix, start, end);
        if in_scan(s[hi - 1].0, prefix, start, end) {
            seq![hi - 1] + rest
        } else {
            rest
        }
    }
}

/// Every position in the scan, in the requested direction.
pub open spec fn scan_all<T>(
    s: Seq<(Seq<u8>, T)>,
    prefix: Seq<u8>,
    start: Option<Seq<u8>>,
    end: Option<Seq<u8>>,
    descending: bool,
) -> Seq<int> {
    if descending {
        scan_down(s, s.len() as int, prefix, start, end)
    } else {
        scan_up(s, 0, prefix, start, end)
    }
}

/// The first `limit` positions of the scan.
pub open spec fn scan_page<T>(
    s: Seq<(Seq<u8>, T)>,
    prefix: Seq<u8>,
    start: Option<Seq<u8>>,
    end: Option<Seq<u8>>,
    descending: bool,
    limit: nat,
) -> Seq<int> {
    let all = scan_all(s, prefix, start, end, descending);
    if all.len() <= limit {
        all
    } else {
        all.take(limit as int)
    }
}

pub open spec fn opt_view(o: Option<Vec<u8>>) -> Option<Seq<u8>> {
    match o {
        Some(v) => Some(v@),
        None => None,
    }
}

/// In sorted entries, the value under an entry's key is that entry's value.
pub proof fn lemma_lookup_at<T>(s: Seq<(Seq<u8>, T)>, j: int)
    requires
        keys_sorted(s),
        0 <= j < s.len(),
    ensures
        lookup(s, s[j].0) == Some(s[j].1),
{
    let k = s[j].0;
    assert(has_key(s, k));
    let i = key_index(s, k);
    if i < j {
        assert(lex_lt(s[i].0, s[j].0));
        lemma_lex_irreflexive(k);
    } else if i > j {
        assert(lex_lt(s[j].0, s[i].0));
        lemma_lex_irreflexive(k);
    }
}

pub proof fn lemma_scan_up_bounds<T>(
    s: Seq<(Seq<u8>, T)>,
    lo: int,
    prefix: Seq<u8>,
    start: Option<Seq<u8>>,
    end: Option<Seq<u8>>,
)
    ensures
        forall|j: int|
            0 <= j < scan_up(s, lo, prefix, start, end).len() ==> lo <= #[trigger] scan_up(
                s,
                lo,
                prefix,
                start,
                end,
            )[j] < s.len() && in_scan(
                s[scan_up(s, lo, prefix, start, end)[j]].0,
                prefix,
                start,
                end,
            ),
    decreases s.len() - lo,
{
    if 0 <= lo < s.len() {
        lemma_scan_up_bounds(s, lo + 1, prefix, start, end);
        let rest = scan_up(s, lo + 1, prefix, start, end);
        let x = seq![lo] + rest;
        assert forall|j: int| 0 <= j < x.len() implies lo <= #[trigger] x[j] < s.len() && (in_scan(
            s[lo].0,
            prefix,
            start,
            end,
        ) ==> in_scan(s[x[j]].0, prefix, start, end)) by {
            if j > 0 {
                assert(x[j] == rest[j - 1]);
            }
        }
    }
}

pub proof fn lemma_scan_down_bounds<T>(
    s: Seq<(Seq<u8>, T)>,
    hi: int,
    prefix: Seq<u8>,
    start: Option<Seq<u8>>,
    end: Option<Seq<u8>>,
)
    ensures
        forall|j: int|
            0 <= j < scan_down(s, hi, prefix, start, end).len() ==> 0 <= #[trigger] scan_down(
                s,
                hi,
                prefix,
                start,
                end,
            )[j] < hi && in_scan(
                s[scan_down(s, hi, prefix, start, end)[j]].0,
                prefix,
                start,
                end,
            ),
    decreases hi,
{
    if 0 < hi <= s.len() {
        lemma_scan_down_bounds(s, hi - 1, prefix, start, end);
        let rest = scan_down(s, hi - 1, prefix, start, end);
        let x = seq![hi - 1] + rest;
        assert forall|j: int| 0 <= j < x.len() implies 0 <= #[trigger] x[j] < hi && (in_scan(
            s[hi - 1].0,
            prefix,
            start,
            end,
        ) ==> in_scan(s[x[j]].0, prefix, start, end)) by {
            if j > 0 {
                assert(x[j] == rest[j - 1]);
            }
        }
    }
}

proof fn lemma_insert_keeps_order<T>(s: Seq<(Seq<u8>, T)>, i: int, e: (Seq<u8>, T))
    requires
        keys_sorted(s),
        0 <= i <= s.len(),
        forall|j: int| 0 <= j < i ==> lex_lt(#[trigger] s[j].0, e.0),
        i < s.len() ==> !lex_lt(s[i].0, e.0) && s[i].0 != e.0,
    ensures
        keys_sorted(s.insert(i, e)),
        forall|k: Seq<u8>|
            #[trigger] lookup(s.insert(i, e), k) == if k == e.0 {
                Some(e.1)
            } else {
                lookup(s, k)
            },
{
    let t = s.insert(i, e);
    if i < s.len() {
        lemma_lex_total(s[i].0, e.0);
    }
    assert forall|a: int, b: int| 0 <= a < b < t.len() implies lex_lt(#[trigger] t[a].0, #[trigger] t[b].0) by {
        if a < i && b == i {
        } else if a < i && b > i {
            assert(t[b] == s[b - 1]);
        } else if a == i {
            assert(t[b] == s[b - 1]);
            if b - 1 > i {
                assert(lex_lt(s[i].0, s[b - 1].0));
                lemma_lex_transitive(e.0, s[i].0, s[b - 1].0);
            }
        } else if a > i {
            assert(t[a] == s[a - 1] && t[b] == s[b - 1]);
        } else {
            assert(t[a] == s[a] && t[b] == s[b]);
        }
    }
    assert forall|k: Seq<u8>| #[trigger] lookup(t, k) == if k == e.0 {
        Some(e.1)
    } else {
        lookup(s, k)
    } by {
        if k == e.0 {
            lemma_lookup_at(t, i);
        } else if has_key(s, k) {
            let j = key_index(s, k);
            lemma_lookup_at(s, j);
            if j < i {
                assert(t[j] == s[j]);
                lemma_lookup_at(t, j);
            } else {
                assert(t[j + 1] == s[j]);
                lemma_lookup_at(t, j + 1);
            }
        } else if has_key(t, k) {
            let m = key_index(t, k);
            if m < i {
                assert(s[m] == t[m]);
            } else if m > i {
                assert(s[m - 1] == t[m]);
            }
        }
    }
}

proof fn lemma_update_keeps_order<T>(s: Seq<(Seq<u8>, T)>, i: int, e: (Seq<u8>, T))
    requires
        keys_sorted(s),
        0 <= i < s.len(),
        s[i].0 == e.0,
    ensures
        keys_sorted(s.update(i, e)),
        forall|k: Seq<u8>|
            #[trigger] lookup(s.update(i, e), k) == if k == e.0 {
                Some(e.1)
            } else {
                lookup(s, k)
            },
{
    let t = s.update(i, e);
    assert forall|a: int, b: int| 0 <= a < b < t.len() implies lex_lt(#[trigger] t[a].0, #[trigger] t[b].0) by {
        assert(t[a].0 == s[a].0 && t[b].0 == s[b].0);
    }
    assert forall|k: Seq<u8>| #[trigger] lookup(t, k) == if k == e.0 {
        Some(e.1)
    } else {
        lookup(s, k)
    } by {
        if k == e.0 {
            lemma_lookup_at(t, i);
        } else if has_key(s, k) {
            let j = key_index(s, k);
            lemma_lookup_at(s, j);
            assert(t[j] == s[j]);
            lemma_lookup_at(t, j);
        } else if has_key(t, k) {
            let m = key_index(t, k);
            assert(s[m].0 == t[m].0);
        }
    }
}

proof fn lemma_remove_keeps_order<T>(s: Seq<(Seq<u8>, T)>, i: int)
    requires
        keys_sorted(s),
        0 <= i < s.len(),
    ensures
        keys_sorted(s.remove(i)),
        forall|k: Seq<u8>|
            #[trigger] lookup(s.remove(i), k) == if k == s[i].0 {
                None
            } else {
                lookup(s, k)
            },
{
    let t = s.remove(i);
    assert forall|a: int, b: int| 0 <= a < b < t.len() implies lex_lt(#[trigger] t[a].0, #[trigger] t[b].0) by {
        if b < i {
            assert(t[a] == s[a] && t[b] == s[b]);
        } else if a < i {
            assert(t[a] == s[a] && t[b] == s[b + 1]);
        } else {
            assert(t[a] == s[a + 1] && t[b] == s[b + 1]);
        }
    }
    assert forall|k: Seq<u8>| #[trigger] lookup(t, k) == if k == s[i].0 {
        None
    } else {
        lookup(s, k)
    } by {
        if has_key(t, k) {
            let m = key_index(t, k);
            if m < i {
                assert(t[m] == s[m]);
                assert(lex_lt(s[m].0, s[i].0));
                lemma_lookup_at(s, m);
                lemma_lookup_at(t, m);
                if k == s[i].0 {
                    lemma_lex_irreflexive(k);
                }
            } else {
                assert(t[m] == s[m + 1]);
                assert(lex_lt(s[i].0, s[m + 1].0));
                lemma_lookup_at(s, m + 1);
                lemma_lookup_at(t, m);
                if k == s[i].0 {
                    lemma_lex_irreflexive(k);
                }
            }
        } else if k != s[i].0 && has_key(s, k) {
            let j = key_index(s, k);
            if j < i {
                assert(t[j] == s[j]);
            } else {
                assert(t[j - 1] == s[j]);
            }
        }
    }
}

proof fn lemma_absent<T>(s: Seq<(Seq<u8>, T)>, i: int, k: Seq<u8>)
    requires
        keys_sorted(s),
        0 <= i <= s.len(),
        forall|j: int| 0 <= j < i ==> lex_lt(#[trigger] s[j].0, k),
        i < s.len() ==> !lex_lt(s[i].0, k) && s[i].0 != k,
    ensures
        !has_key(s, k),
        lookup(s, k) is None,
{
    if has_key(s, k) {
        let j = key_index(s, k);
        if j < i {
            lemma_lex_irreflexive(k);
        } else if j > i {
            assert(lex_lt(s[i].0, s[j].0));
            lemma_lex_total(s[i].0, k);
            lemma_lex_transitive(k, s[i].0, k);
            lemma_lex_irreflexive(k);
        }
    }
}

/// Whether `key` lies in the scan described by `prefix`, `start` and `end`.
pub fn key_in_scan(key: &[u8], prefix: &[u8], start: &Option<Vec<u8>>, end: &Option<Vec<u8>>) -> (r: bool)
    ensures
        r == in_scan(key@, prefix@, opt_view(*start), opt_view(*end)),
{
    if !starts_with(key, prefix) {
        return false;
    }
    let after_start = match start {
        Some(st) => !lt_from_offset(key, prefix.len(), st.as_slice()),
        None => true,
    };
    let before_end = match end {
        Some(en) => lt_from_offset(key, prefix.len(), en.as_slice()),
        None => true,
    };
    after_start && before_end
}

/// What follows the `m`-th position of an upward scan is the scan from just past it.
pub proof fn lemma_scan_up_rest<T>(
    s: Seq<(Seq<u8>, T)>,
    lo: int,
    prefix: Seq<u8>,
    start: Option<Seq<u8>>,
    end: Option<Seq<u8>>,
    m: int,
)
    requires
        0 <= lo,
        0 <= m < scan_up(s, lo, prefix, start, end).len(),
    ensures
        scan_up(s, lo, prefix, start, end).skip(m + 1) == scan_up(
            s,
            scan_up(s, lo, prefix, start, end)[m] + 1,
            prefix,
            start,
            end,
        ),
    decreases s.len() - lo,
{
    let x = scan_up(s, lo, prefix, start, end);
    let rest = scan_up(s, lo + 1, prefix, start, end);
    if in_scan(s[lo].0, prefix, start, end) {
        if m == 0 {
            assert(x.skip(1) =~= rest);
        } else {
            assert(x[m] == rest[m - 1]);
            lemma_scan_up_rest(s, lo + 1, prefix, start, end, m - 1);
            assert(x.skip(m + 1) =~= rest.skip(m));
        }
    } else {
        lemma_scan_up_rest(s, lo + 1, prefix, start, end, m);
    }
}

/// Positions outside the scan between `lo` and `hi` do not change an upward scan.
pub proof fn lemma_scan_up_gap<T>(
    s: Seq<(Seq<u8>, T)>,
    lo: int,
    hi: int,
    prefix: Seq<u8>,
    start: Option<Seq<u8>>,
    end: Option<Seq<u8>>,
)
    requires
        0 <= lo <= hi <= s.len(),
        forall|j: int| lo <= j < hi ==> !in_scan(#[trigger] s[j].0, prefix, start, end),
    ensures
        scan_up(s, lo, prefix, start, end) == scan_up(s, hi, prefix, start, end),
    decreases hi - lo,
{
    if lo < hi {
        lemma_scan_up_gap(s, lo + 1, hi, prefix, start, end);
    }
}

/// Two upward scans that agree on every position from `lo` on are equal from `lo` on.
pub proof fn lemma_scan_up_agree<T>(
    s: Seq<(Seq<u8>, T)>,
    lo: int,
    prefix: Seq<u8>,
    start1: Option<Seq<u8>>,
    end1: Option<Seq<u8>>,
    start2: Option<Seq<u8>>,
    end2: Option<Seq<u8>>,
)
    requires
        0 <= lo,
        forall|j: int|
            lo <= j < s.len() ==> in_scan(#[trigger] s[j].0, prefix, start1, end1) == in_scan(
                s[j].0,
                prefix,
                start2,
                end2,
            ),
    ensures
        scan_up(s, lo, prefix, start1, end1) == scan_up(s, lo, prefix, start2, end2),
    decreases s.len() - lo,
{
    if lo < s.len() {
        lemma_scan_up_agree(s, lo + 1, prefix, start1, end1, start2, end2);
    }
}

/// What follows the `m`-th position of a downward scan is the scan below it.
pub proof fn lemma_scan_down_rest<T>(
    s: Seq<(Seq<u8>, T)>,
    hi: int,
    prefix: Seq<u8>,
    start: Option<Seq<u8>>,
    end: Option<Seq<u8>>,
    m: int,
)
    requires
        hi <= s.len(),
        0 <= m < scan_down(s, hi, prefix, start, end).len(),
    ensures
        scan_down(s, hi, prefix, start, end).skip(m + 1) == scan_down(
            s,
            scan_down(s, hi, prefix, start, end)[m],
            prefix,
            start,
            end,
        ),
    decreases hi,
{
    let x = scan_down(s, hi, prefix, start, end);
    let rest = scan_down(s, hi - 1, prefix, start, end);
    if in_scan(s[hi - 1].0, prefix, start, end) {
        if m == 0 {
            assert(x.skip(1) =~= rest);
        } else {
            assert(x[m] == rest[m - 1]);
            lemma_scan_down_rest(s, hi - 1, prefix, start, end, m - 1);
            assert(x.skip(m + 1) =~= rest.skip(m));
        }
    } else {
        lemma_scan_down_rest(s, hi - 1, prefix, start, end, m);
    }
}

/// Positions outside the scan between `lo` and `hi` do not change a downward scan.
pub proof fn lemma_scan_down_gap<T>(
    s: Seq<(Seq<u8>, T)>,
    lo: int,
    hi: int,
    prefix: Seq<u8>,
    start: Option<Seq<u8>>,
    end: Option<Seq<u8>>,
)
    requires
        0 <= lo <= hi <= s.len(),
        forall|j: int| lo <= j < hi ==> !in_scan(#[trigger] s[j].0, prefix, start, end),
    ensures
        scan_down(s, lo, prefix, start, end) == scan_down(s, hi, prefix, start, end),
    decreases hi - lo,
{
    if lo < hi {
        lemma_scan_down_gap(s, lo, hi - 1, prefix, start, end);
    }
}

/// Two downward scans that agree on every position below `hi` are equal below `hi`.
pub proof fn lemma_scan_down_agree<T>(
    s: Seq<(Seq<u8>, T)>,
    hi: int,
    prefix: Seq<u8>,
    start1: Option<Seq<u8>>,
    end1: Option<Seq<u8>>,
    start2: Option<Seq<u8>>,
    end2: Option<Seq<u8>>,
)
    requires
        hi <= s.len(),
        forall|j: int|
            0 <= j < hi ==> in_scan(#[trigger] s[j].0, prefix, start1, end1) == in_scan(
                s[j].0,
                prefix,
                start2,
                end2,
            ),
    ensures
        scan_down(s, hi, prefix, start1, end1) == scan_down(s, hi, prefix, start2, end2),
    decreases hi,
{
    if 0 < hi {
        lemma_scan_down_agree(s, hi - 1, prefix, start1, end1, start2, end2);
    }
}

/// An ordered key-value store over byte-string keys, as a host ledger provides:
/// point reads and writes, and scans over a key range in either direction.
pub struct Store<V> {
    entries: Vec<(Vec<u8>, V)>,
}

impl<V: Record> Store<V> {
    /// The entries in key order.
    pub closed spec fn model(&self) -> Seq<(Seq<u8>, V::V)> {
        self.entries@.map(|i: int, e: (Vec<u8>, V)| (e.0@, e.1@))
    }

    pub open spec fn wf(&self) -> bool {
        keys_sorted(self.model())
    }

    pub open spec fn get_spec(&self, k: Seq<u8>) -> Option<V::V> {
        lookup(self.model(), k)
    }

    pub fn new() -> (r: Self)
        ensures
            r.wf(),
            r.model() == Seq::<(Seq<u8>, V::V)>::empty(),
    {
        let r = Store { entries: Vec::new() };
        assert(r.model() =~= Seq::<(Seq<u8>, V::V)>::empty());
        r
    }

    /// Number of entries whose key is below `key`.
    fn position(&self, key: &[u8]) -> (r: usize)
        requires
            self.wf(),
        ensures
            r <= self.model().len(),
            forall|j: int| 0 <= j < r ==> lex_lt(#[trigger] self.model()[j].0, key@),
            r < self.model().len() ==> !lex_lt(self.model()[r as int].0, key@),
    {
        let mut i: usize = 0;
        while i < self.entries.len()
            invariant
                i <= self.entries@.len(),
                self.model().len() == self.entries@.len(),
                forall|j: int| 0 <= j < i ==> lex_lt(#[trigger] self.model()[j].0, key@),
            decreases self.entries@.len() - i,
        {
            if !lt_from_offset(&self.entries[i].0, 0, key) {
                assert(self.entries[i as int].0@.subrange(0, self.entries[i as int].0@.len() as int)
                    == self.entries[i as int].0@);
                return i;
            }
            assert(self.entries[i as int].0@.subrange(0, self.entries[i as int].0@.len() as int)
                == self.entries[i as int].0@);
            i = i + 1;
        }
        i
    }

    /// The value under `key`.
    pub fn get(&self, key: &[u8]) -> (r: Option<&V>)
        requires
            self.wf(),
        ensures
            match r {
                Some(v) => self.get_spec(key@) == Some(v@),
                None => self.get_spec(key@) is None,
            },
    {
        let i = self.position(key);
        if i < self.entries.len() && bytes_eq(&self.entries[i].0, key) {
            proof {
                lemma_lookup_at(self.model(), i as int);
            }
            Some(&self.entries[i].1)
        } else {
            proof {
                lemma_absent(self.model(), i as int, key@);
            }
            None
        }
    }

    /// Writes `value` under `key`, replacing what was there.
    pub fn insert(&mut self, key: Vec<u8>, value: V)
        requires
            old(self).wf(),
        ensures
            final(self).wf(),
            forall|k: Seq<u8>|
                #[trigger] final(self).get_spec(k) == if k == key@ {
                    Some(value@)
                } else {
                    old(self).get_spec(k)
                },
    {
        let ghost s = self.model();
        let ghost e = (key@, value@);
        let i = self.position(&key);
        if i < self.entries.len() && bytes_eq(&self.entries[i].0, &key) {
            self.entries.set(i, (key, value));
            proof {
                assert(self.model() =~= s.update(i as int, e));
                lemma_update_keeps_order(s, i as int, e);
            }
        } else {
            self.entries.insert(i, (key, value));
            proof {
                assert(self.model() =~= s.insert(i as int, e));
                lemma_insert_keeps_order(s, i as int, e);
            }
        }
    }

    /// Deletes the entry under `key`, if there is one.
    pub fn remove(&mut self, key: &[u8])
        requires
            old(self).wf(),
        ensures
            final(self).wf(),
            forall|k: Seq<u8>|
                #[trigger] final(self).get_spec(k) == if k == key@ {
                    None
                } else {
                    old(self).get_spec(k)
                },
    {
        let ghost s = self.model();
        let i = self.position(key);
        if i < self.entries.len() && bytes_eq(&self.entries[i].0, key) {
            self.entries.remove(i);
            proof {
                assert(self.model() =~= s.remove(i as int));
                lemma_remove_keeps_order(s, i as int);
            }
        } else {
            proof {
                lemma_absent(s, i as int, key@);
            }
        }
    }

    /// Copies of all entries, in key order.
    pub fn entries(&self) -> (r: Vec<(Vec<u8>, V)>)
        requires
            self.wf(),
        ensures
            r@.map_values(|e: (Vec<u8>, V)| (e.0@, e.1@)) == self.model(),
    {
        let mut out: Vec<(Vec<u8>, V)> = Vec::new();
        let mut i: usize = 0;
        while i < self.entries.len()
            invariant
                i <= self.entries@.len(),
                out@.len() == i,
                forall|j: int|
                    0 <= j < i ==> (#[trigger] out@[j]).0@ == self.entries@[j].0@ && out@[j].1@
                        == self.entries@[j].1@,
            decreases self.entries@.len() - i,
        {
            let k = crate::keys::copy_bytes(self.entries[i].0.as_slice());
            let v = self.entries[i].1.duplicate();
            out.push((k, v));
            i = i + 1;
        }
        assert(out@.map_values(|e: (Vec<u8>, V)| (e.0@, e.1@)) =~= self.model());
        out
    }

    /// Copies of the values of the first `limit` entries in the scan, in key order
    /// (`descending` reverses it).
    pub fn range(
        &self,
        prefix: &[u8],
        start: &Option<Vec<u8>>,
        end: &Option<Vec<u8>>,
        descending: bool,
        limit: usize,
    ) -> (r: Vec<V>)
        requires
            self.wf(),
        ensures
            ({
                let page = scan_page(
                    self.model(),
                    prefix@,
                    opt_view(*start),
                    opt_view(*end),
                    descending,
                    limit as nat,
                );
                &&& r@.len() == page.len()
                &&& forall|j: int|
                    0 <= j < page.len() ==> 0 <= #[trigger] page[j] < self.model().len()
                        && r@[j]@ == self.model()[page[j]].1
            }),
    {
        let ghost s = self.model();
        let ghost p = prefix@;
        let ghost st = opt_view(*start);
        let ghost en = opt_view(*end);
        let ghost all = scan_all(s, p, st, en, descending);
        let mut out: Vec<V> = Vec::new();
        let ghost mut idx: Seq<int> = Seq::empty();
        let n = self.entries.len();
        if !descending {
            let mut i: usize = 0;
            while i < n && out.len() < limit
                invariant
                    n == s.len(),
                    s == self.model(),
                    p == prefix@,
                    st == opt_view(*start),
                    en == opt_view(*end),
                    all == scan_up(s, 0, p, st, en),
                    i <= n,
                    all == idx + scan_up(s, i as int, p, st, en),
                    out@.len() == idx.len(),
                    idx.len() <= limit,
                    forall|j: int|
                        0 <= j < idx.len() ==> 0 <= #[trigger] idx[j] < s.len() && out@[j]@
                            == s[idx[j]].1,
                decreases n - i,
            {
                let ghost rest = scan_up(s, i as int + 1, p, st, en);
                assert(s[i as int].0 == self.entries@[i as int].0@);
                if key_in_scan(self.entries[i].0.as_slice(), prefix, start, end) {
                    let v = self.entries[i].1.duplicate();
                    out.push(v);
                    proof {
                        assert(scan_up(s, i as int, p, st, en) == seq![i as int] + rest);
                        assert(idx + (seq![i as int] + rest) =~= idx.push(i as int) + rest);
                        idx = idx.push(i as int);
                    }
                }
                i = i + 1;
            }
            proof {
                if i == n {
                    assert(all =~= idx + Seq::<int>::empty());
                }
            }
        } else {
            let mut i: usize = n;
            while i > 0 && out.len() < limit
                invariant
                    n == s.len(),
                    s == self.model(),
                    p == prefix@,
                    st == opt_view(*start),
                    en == opt_view(*end),
                    all == scan_down(s, n as int, p, st, en),
                    i <= n,
                    all == idx + scan_down(s, i as int, p, st, en),
                    out@.len() == idx.len(),
                    idx.len() <= limit,
                    forall|j: int|
                        0 <= j < idx.len() ==> 0 <= #[trigger] idx[j] < s.len() && out@[j]@
                            == s[idx[j]].1,
                decreases i,
            {
                let ghost rest = scan_down(s, i as int - 1, p, st, en);
                assert(s[i as int - 1].0 == self.entries@[i as int - 1].0@);
                if key_in_scan(self.entries[i - 1].0.as_slice(), prefix, start, end) {
                    let v = self.entries[i - 1].1.duplicate();
                    out.push(v);
                    proof {
                        assert(scan_down(s, i as int, p, st, en) == seq![i as int - 1] + rest);
                        assert(idx + (seq![i as int - 1] + rest) =~= idx.push(i as int - 1) + rest);
                        idx = idx.push(i as int - 1);
                    }
                }
                i = i - 1;
            }
            proof {
                if i == 0 {
                    assert(all =~= idx + Seq::<int>::empty());
                }
            }
        }
        proof {
            let page = scan_page(s, p, st, en, descending, limit as nat);
            if out.len() == limit {
                assert((all.len() <= limit) ==> all =~= idx);
                assert(all.take(limit as int) =~= idx);
            }
            assert(page =~= idx);
        }
        out
    }
}

} // verus!
