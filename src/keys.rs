use vstd::prelude::*;

use crate::models::OrderBy;

verus! {

/// `blockchain.protocol.method`.
pub open spec fn alert_key_spec(
    blockchain: Seq<char>,
    protocol: Seq<char>,
    method: Seq<char>,
) -> Seq<char> {
    blockchain + seq!['.'] + protocol + seq!['.'] + method
}

/// A namespace as the store lays it out: its length in two big-endian bytes, then its bytes.
pub open spec fn length_prefixed(ns: Seq<u8>) -> Seq<u8> {
    seq![(ns.len() / 256) as u8, (ns.len() % 256) as u8] + ns
}

/// `alert` in ASCII.
pub open spec fn alert_namespace() -> Seq<u8> {
    seq![97u8, 108, 101, 114, 116]
}

/// `subscription` in ASCII.
pub open spec fn subscription_namespace() -> Seq<u8> {
    seq![115u8, 117, 98, 115, 99, 114, 105, 112, 116, 105, 111, 110]
}

/// The common start of every alert's storage key.
pub open spec fn alert_prefix() -> Seq<u8> {
    length_prefixed(alert_namespace())
}

/// The common start of the storage keys of one subscriber's subscriptions.
pub open spec fn subscriber_prefix(subscriber: Seq<u8>) -> Seq<u8> {
    length_prefixed(subscription_namespace()) + length_prefixed(subscriber)
}

/// The bytes that an alert key contributes to a storage key.
pub open spec fn key_bytes(alert_key: Seq<char>) -> Seq<u8> {
    vstd::utf8::encode_utf8(alert_key)
}

pub open spec fn alert_storage_key(alert_key: Seq<char>) -> Seq<u8> {
    alert_prefix() + key_bytes(alert_key)
}

pub open spec fn subscription_storage_key(subscriber: Seq<u8>, alert_key: Seq<char>) -> Seq<u8> {
    subscriber_prefix(subscriber) + key_bytes(alert_key)
}

/// Relies on cosmwasm_storage::to_length_prefixed: two big-endian length bytes, then the
/// namespace; it panics on a namespace over 0xFFFF bytes.
#[verifier::external_body]
pub(crate) fn to_length_prefixed(namespace: &[u8]) -> (r: Vec<u8>)
    requires
        namespace@.len() <= 0xFFFF,
    ensures
        r@ == length_prefixed(namespace@),
{
    cosmwasm_storage::to_length_prefixed(namespace)
}

/// Relies on cosmwasm_storage::to_length_prefixed_nested: each namespace length-prefixed,
/// in order; it panics on a namespace over 0xFFFF bytes.
#[verifier::external_body]
fn to_length_prefixed_nested(first: &[u8], second: &[u8]) -> (r: Vec<u8>)
    requires
        first@.len() <= 0xFFFF,
        second@.len() <= 0xFFFF,
    ensures
        r@ == length_prefixed(first@) + length_prefixed(second@),
{
    cosmwasm_storage::to_length_prefixed_nested(&[first, second])
}

/// A fresh copy of `a`.
pub fn copy_bytes(a: &[u8]) -> (r: Vec<u8>)
    ensures
        r@ == a@,
{
    let mut r: Vec<u8> = Vec::new();
    let mut i: usize = 0;
    while i < a.len()
        invariant
            i <= a@.len(),
            r@ == a@.subrange(0, i as int),
        decreases a@.len() - i,
    {
        r.push(a[i]);
        i = i + 1;
        assert(r@ =~= a@.subrange(0, i as int));
    }
    assert(a@ =~= a@.subrange(0, i as int));
    r
}

/// `a` followed by `b`.
pub fn concat_bytes(a: &[u8], b: &[u8]) -> (r: Vec<u8>)
    ensures
        r@ == a@ + b@,
{
    let mut r = copy_bytes(a);
    let mut j: usize = 0;
    assert(a@ + b@.subrange(0, 0) =~= a@);
    while j < b.len()
        invariant
            j <= b@.len(),
            r@ == a@ + b@.subrange(0, j as int),
        decreases b@.len() - j,
    {
        r.push(b[j]);
        j = j + 1;
        assert(r@ =~= a@ + b@.subrange(0, j as int));
    }
    assert(b@ =~= b@.subrange(0, j as int));
    r
}

/// The key of an alert: its blockchain, protocol and method joined by `.`.
pub fn alert_key(blockchain: &str, protocol: &str, method: &str) -> (r: String)
    ensures
        r@ == alert_key_spec(blockchain@, protocol@, method@),
{
    let mut r = String::new();
    r.append(blockchain);
    r.append(".");
    r.append(protocol);
    r.append(".");
    r.append(method);
    proof {
        reveal_strlit(".");
        assert(r@ =~= alert_key_spec(blockchain@, protocol@, method@));
    }
    r
}

pub fn alert_prefix_bytes() -> (r: Vec<u8>)
    ensures
        r@ == alert_prefix(),
{
    let ns: Vec<u8> = vec![97u8, 108, 101, 114, 116];
    assert(ns@ =~= alert_namespace());
    to_length_prefixed(ns.as_slice())
}

pub fn subscriber_prefix_bytes(subscriber: &[u8]) -> (r: Vec<u8>)
    requires
        subscriber@.len() <= 0xFFFF,
    ensures
        r@ == subscriber_prefix(subscriber@),
{
    let ns: Vec<u8> = vec![115u8, 117, 98, 115, 99, 114, 105, 112, 116, 105, 111, 110];
    assert(ns@ =~= subscription_namespace());
    to_length_prefixed_nested(ns.as_slice(), subscriber)
}

/// Storage key of the alert with key `alert_key`.
pub fn alert_storage_key_bytes(alert_key: &str) -> (r: Vec<u8>)
    ensures
        r@ == alert_storage_key(alert_key@),
{
    let p = alert_prefix_bytes();
    concat_bytes(p.as_slice(), alert_key.as_bytes())
}

/// Storage key of `subscriber`'s subscription to `alert_key`.
pub fn subscription_key(subscriber: &[u8], alert_key: &str) -> (r: Vec<u8>)
    requires
        subscriber@.len() <= 0xFFFF,
    ensures
        r@ == subscription_storage_key(subscriber@, alert_key@),
{
    let p = subscriber_prefix_bytes(subscriber);
    concat_bytes(p.as_slice(), alert_key.as_bytes())
}

pub open spec fn is_descending(order: Option<OrderBy>) -> bool {
    order != Some(OrderBy::Asc)
}

/// Inclusive lower bound of an ascending scan that resumes after `cursor`.
pub open spec fn range_start_spec(cursor: Option<Seq<u8>>) -> Option<Seq<u8>> {
    match cursor {
        Some(c) => Some(c.push(1u8)),
        None => None,
    }
}

/// The cursor with one byte of value 1 appended, so that an ascending scan starts after it.
pub fn calc_range_start(start_after: Option<Vec<u8>>) -> (r: Option<Vec<u8>>)
    ensures
        crate::store::opt_view(r) == range_start_spec(crate::store::opt_view(start_after)),
{
    match start_after {
        Some(c) => {
            let mut v = c;
            v.push(1u8);
            Some(v)
        },
        None => None,
    }
}

/// The cursor itself: the exclusive upper bound of a descending scan.
pub fn calc_range_end(start_after: Option<Vec<u8>>) -> (r: Option<Vec<u8>>)
    ensures
        r == start_after,
{
    start_after
}

/// Scan bounds `(start, end)` for a listing after `cursor` in the given direction.
pub open spec fn range_bounds_spec(cursor: Option<Seq<u8>>, order: Option<OrderBy>) -> (
    Option<Seq<u8>>,
    Option<Seq<u8>>,
) {
    if is_descending(order) {
        (None, cursor)
    } else {
        (range_start_spec(cursor), None)
    }
}

pub fn range_bounds(start_after: Option<Vec<u8>>, order: Option<OrderBy>) -> (r: (
    Option<Vec<u8>>,
    Option<Vec<u8>>,
))
    ensures
        (crate::store::opt_view(r.0), crate::store::opt_view(r.1)) == range_bounds_spec(
            crate::store::opt_view(start_after),
            order,
        ),
{
    match order {
        Some(OrderBy::Asc) => (calc_range_start(start_after), None),
        _ => (None, calc_range_end(start_after)),
    }
}

} // verus!
