use vstd::prelude::*;

use crate::bytes::{
    has_prefix, lemma_lex_after_one, lemma_lex_asymmetric, lemma_lex_common_prefix,
    lemma_lex_irreflexive, lemma_lex_proper_prefix, lemma_lex_transitive, lex_lt,
};
use crate::contract::{
    create_alert_outcome, first_missing, is_owner, new_alert, provides, subscribe_outcome,
    unsubscribe_outcome,
};
use crate::error::ContractError;
use crate::keys::{
    alert_key_spec, alert_storage_key, is_descending, key_bytes, length_prefixed,
    range_bounds_spec, range_start_spec, subscriber_prefix, subscription_namespace,
    subscription_storage_key,
};
use crate::models::{AlertFieldView, OrderBy, SubscriptionFieldValueView};
use crate::state::{effective_limit_spec, subscriptions_page, Storage, DEFAULT_LIMIT, MAX_LIMIT};
use crate::store::{
    in_scan, keys_sorted, lemma_lookup_at, lemma_scan_down_agree, lemma_scan_down_bounds,
    lemma_scan_down_gap,
    lemma_scan_down_rest, lemma_scan_up_agree, lemma_scan_up_bounds, lemma_scan_up_gap,
    lemma_scan_up_rest, scan_all, scan_down, scan_page, scan_up, suffix,
};

verus! {

/// No key under `prefix` continues another key under `prefix` with a zero byte. An
/// ascending page resumes at the last key followed by 1, so it would skip such a key.
pub open spec fn no_zero_extension<T>(s: Seq<(Seq<u8>, T)>, prefix: Seq<u8>) -> bool {
    forall|a: int, b: int|
        0 <= a < s.len() && 0 <= b < s.len() && has_prefix(s[a].0, prefix) && has_prefix(
            s[b].0,
            prefix,
        ) ==> !has_prefix(#[trigger] suffix(s[b].0, prefix), #[trigger] suffix(s[a].0, prefix).push(0u8))
}

/// Every key in scope of a listing after `cursor`, in the listing's order.
pub open spec fn listing_all<T>(
    s: Seq<(Seq<u8>, T)>,
    prefix: Seq<u8>,
    cursor: Option<Seq<u8>>,
    order: Option<OrderBy>,
) -> Seq<int> {
    let b = range_bounds_spec(cursor, order);
    scan_all(s, prefix, b.0, b.1, is_descending(order))
}

/// One page of a listing after `cursor`.
pub open spec fn listing_page<T>(
    s: Seq<(Seq<u8>, T)>,
    prefix: Seq<u8>,
    cursor: Option<Seq<u8>>,
    order: Option<OrderBy>,
    n: nat,
) -> Seq<int> {
    let b = range_bounds_spec(cursor, order);
    scan_page(s, prefix, b.0, b.1, is_descending(order), n)
}

proof fn lemma_suffix_order<T>(s: Seq<(Seq<u8>, T)>, prefix: Seq<u8>, i: int, j: int)
    requires
        keys_sorted(s),
        0 <= i < j < s.len(),
        has_prefix(s[i].0, prefix),
        has_prefix(s[j].0, prefix),
    ensures
        lex_lt(suffix(s[i].0, prefix), suffix(s[j].0, prefix)),
{
    assert(s[i].0 =~= prefix + suffix(s[i].0, prefix));
    assert(s[j].0 =~= prefix + suffix(s[j].0, prefix));
    lemma_lex_common_prefix(prefix, suffix(s[i].0, prefix), suffix(s[j].0, prefix));
}

proof fn lemma_next_page_up<T>(s: Seq<(Seq<u8>, T)>, prefix: Seq<u8>, cursor: Option<Seq<u8>>, n: nat)
    requires
        keys_sorted(s),
        no_zero_extension(s, prefix),
        0 < n <= scan_up(s, 0, prefix, range_start_spec(cursor), None).len(),
    ensures
        ({
            let all = scan_up(s, 0, prefix, range_start_spec(cursor), None);
            let next = Some(suffix(s[all[n - 1]].0, prefix));
            &&& 0 <= all[n - 1] < s.len()
            &&& all == all.take(n as int) + scan_up(s, 0, prefix, range_start_spec(next), None)
        }),
{
    let sc = range_start_spec(cursor);
    let all = scan_up(s, 0, prefix, sc, None);
    lemma_scan_up_bounds(s, 0, prefix, sc, None);
    let last = all[n - 1];
    let k = suffix(s[last].0, prefix);
    let k1 = k.push(1u8);
    let sk = range_start_spec(Some(k));
    assert(in_scan(s[last].0, prefix, sc, None));
    lemma_scan_up_rest(s, 0, prefix, sc, None, n - 1);
    assert(has_prefix(k1, k) && k1.len() > k.len()) by {
        assert(k1.subrange(0, k.len() as int) =~= k);
    }
    lemma_lex_proper_prefix(k, k1);
    assert forall|j: int| 0 <= j < last + 1 implies !in_scan(#[trigger] s[j].0, prefix, sk, None) by {
        if has_prefix(s[j].0, prefix) {
            if j < last {
                lemma_suffix_order(s, prefix, j, last);
                lemma_lex_transitive(suffix(s[j].0, prefix), k, k1);
            }
            lemma_lex_asymmetric(suffix(s[j].0, prefix), k1);
        }
    }
    lemma_scan_up_gap(s, 0, last + 1, prefix, sk, None);
    assert forall|j: int| last + 1 <= j < s.len() implies in_scan(#[trigger] s[j].0, prefix, sc, None)
        == in_scan(s[j].0, prefix, sk, None) by {
        if has_prefix(s[j].0, prefix) {
            let x = suffix(s[j].0, prefix);
            lemma_suffix_order(s, prefix, last, j);
            lemma_lex_after_one(k, x);
            if let Some(c) = cursor {
                if lex_lt(x, c.push(1u8)) {
                    lemma_lex_transitive(k, x, c.push(1u8));
                }
            }
        }
    }
    lemma_scan_up_agree(s, last + 1, prefix, sc, None, sk, None);
    assert(all =~= all.take(n as int) + all.skip(n as int));
}

proof fn lemma_next_page_down<T>(s: Seq<(Seq<u8>, T)>, prefix: Seq<u8>, cursor: Option<Seq<u8>>, n: nat)
    requires
        keys_sorted(s),
        0 < n <= scan_down(s, s.len() as int, prefix, None, cursor).len(),
    ensures
        ({
            let all = scan_down(s, s.len() as int, prefix, None, cursor);
            let next = Some(suffix(s[all[n - 1]].0, prefix));
            &&& 0 <= all[n - 1] < s.len()
            &&& all == all.take(n as int) + scan_down(s, s.len() as int, prefix, None, next)
        }),
{
    let len = s.len() as int;
    let all = scan_down(s, len, prefix, None, cursor);
    lemma_scan_down_bounds(s, len, prefix, None, cursor);
    let last = all[n - 1];
    let k = suffix(s[last].0, prefix);
    let ek = Some(k);
    assert(in_scan(s[last].0, prefix, None, cursor));
    lemma_scan_down_rest(s, len, prefix, None, cursor, n - 1);
    assert forall|j: int| last <= j < len implies !in_scan(#[trigger] s[j].0, prefix, None, ek) by {
        if has_prefix(s[j].0, prefix) {
            if j == last {
                lemma_lex_irreflexive(k);
            } else {
                lemma_suffix_order(s, prefix, last, j);
                lemma_lex_asymmetric(k, suffix(s[j].0, prefix));
            }
        }
    }
    lemma_scan_down_gap(s, last, len, prefix, None, ek);
    assert forall|j: int| 0 <= j < last implies in_scan(#[trigger] s[j].0, prefix, None, cursor)
        == in_scan(s[j].0, prefix, None, ek) by {
        if has_prefix(s[j].0, prefix) {
            lemma_suffix_order(s, prefix, j, last);
            if let Some(c) = cursor {
                lemma_lex_transitive(suffix(s[j].0, prefix), k, c);
            }
        }
    }
    lemma_scan_down_agree(s, last, prefix, None, cursor, None, ek);
    assert(all =~= all.take(n as int) + all.skip(n as int));
}

/// Paging is exhaustive: when a page after `cursor` is full, every key in scope after
/// `cursor` is that page followed by everything after the page's last key, passed as the
/// next cursor, in the same order. Ascending listings need `no_zero_extension`.
pub proof fn law_pagination_step<T>(
    s: Seq<(Seq<u8>, T)>,
    prefix: Seq<u8>,
    cursor: Option<Seq<u8>>,
    order: Option<OrderBy>,
    n: nat,
)
    requires
        keys_sorted(s),
        !is_descending(order) ==> no_zero_extension(s, prefix),
        n > 0,
        listing_page(s, prefix, cursor, order, n).len() == n,
    ensures
        ({
            let page = listing_page(s, prefix, cursor, order, n);
            &&& 0 <= page[n - 1] < s.len()
            &&& listing_all(s, prefix, cursor, order) == page + listing_all(
                s,
                prefix,
                Some(suffix(s[page[n - 1]].0, prefix)),
                order,
            )
        }),
{
    let all = listing_all(s, prefix, cursor, order);
    let page = listing_page(s, prefix, cursor, order, n);
    assert(page =~= all.take(n as int));
    if is_descending(order) {
        lemma_next_page_down(s, prefix, cursor, n);
    } else {
        lemma_next_page_up(s, prefix, cursor, n);
    }
}

/// A page shorter than the limit holds everything in scope after its cursor.
pub proof fn law_short_page_is_last<T>(
    s: Seq<(Seq<u8>, T)>,
    prefix: Seq<u8>,
    cursor: Option<Seq<u8>>,
    order: Option<OrderBy>,
    n: nat,
)
    requires
        listing_page(s, prefix, cursor, order, n).len() < n,
    ensures
        listing_page(s, prefix, cursor, order, n) == listing_all(s, prefix, cursor, order),
{
}

/// A listing returns `min(limit, available)` records, with the limit taken as
/// `DEFAULT_LIMIT` when absent and clamped into `[1, MAX_LIMIT]` otherwise: asking for 0
/// gives a limit of 1, asking for 1000 a limit of 30.
pub proof fn law_limit_clamped<T>(
    s: Seq<(Seq<u8>, T)>,
    prefix: Seq<u8>,
    cursor: Option<Seq<u8>>,
    limit: Option<u32>,
    order: Option<OrderBy>,
)
    ensures
        1 <= effective_limit_spec(limit) <= MAX_LIMIT,
        effective_limit_spec(None) == DEFAULT_LIMIT,
        effective_limit_spec(Some(0)) == 1,
        effective_limit_spec(Some(1000)) == MAX_LIMIT,
        listing_page(s, prefix, cursor, order, effective_limit_spec(limit)).len() == if listing_all(
            s,
            prefix,
            cursor,
            order,
        ).len() < effective_limit_spec(limit) {
            listing_all(s, prefix, cursor, order).len()
        } else {
            effective_limit_spec(limit)
        },
{
}

/// The listing obtained by asking for pages of `n`, each time passing the last key of the
/// previous page as the cursor, for at most `rounds` pages and stopping after a short page.
pub open spec fn paged<T>(
    s: Seq<(Seq<u8>, T)>,
    prefix: Seq<u8>,
    cursor: Option<Seq<u8>>,
    order: Option<OrderBy>,
    n: nat,
    rounds: nat,
) -> Seq<int>
    decreases rounds,
{
    let page = listing_page(s, prefix, cursor, order, n);
    if rounds == 0 || n == 0 {
        Seq::empty()
    } else if page.len() < n {
        page
    } else {
        page + paged(s, prefix, Some(suffix(s[page[n - 1]].0, prefix)), order, n, (rounds - 1) as nat)
    }
}

/// Paging through a listing with pages of `n` visits every key in scope after `cursor`
/// exactly once, in the listing's order, within one page more than there are keys.
pub proof fn law_paging_exhaustive<T>(
    s: Seq<(Seq<u8>, T)>,
    prefix: Seq<u8>,
    cursor: Option<Seq<u8>>,
    order: Option<OrderBy>,
    n: nat,
    rounds: nat,
)
    requires
        keys_sorted(s),
        !is_descending(order) ==> no_zero_extension(s, prefix),
        n > 0,
        rounds > listing_all(s, prefix, cursor, order).len(),
    ensures
        paged(s, prefix, cursor, order, n, rounds) == listing_all(s, prefix, cursor, order),
    decreases rounds,
{
    let page = listing_page(s, prefix, cursor, order, n);
    if page.len() < n {
        law_short_page_is_last(s, prefix, cursor, order, n);
    } else {
        law_pagination_step(s, prefix, cursor, order, n);
        let next = Some(suffix(s[page[n - 1]].0, prefix));
        law_paging_exhaustive(s, prefix, next, order, n, (rounds - 1) as nat);
    }
}

/// Creating an alert again from the same blockchain, protocol and method replaces the
/// first one: a read by their key then gives the second.
pub proof fn law_same_key_overwrites(
    s0: Storage,
    s1: Storage,
    s2: Storage,
    owner: Seq<u8>,
    blockchain: Seq<char>,
    protocol: Seq<char>,
    method: Seq<char>,
    name1: Seq<char>,
    description1: Seq<char>,
    fields1: Seq<AlertFieldView>,
    name2: Seq<char>,
    description2: Seq<char>,
    fields2: Seq<AlertFieldView>,
    r1: Result<(), ContractError>,
    r2: Result<(), ContractError>,
)
    requires
        is_owner(s0, owner),
        create_alert_outcome(
            s0,
            s1,
            owner,
            new_alert(blockchain, protocol, method, name1, description1, fields1),
            r1,
        ),
        create_alert_outcome(
            s1,
            s2,
            owner,
            new_alert(blockchain, protocol, method, name2, description2, fields2),
            r2,
        ),
    ensures
        r1 is Ok,
        r2 is Ok,
        s2.alerts.get_spec(alert_storage_key(alert_key_spec(blockchain, protocol, method))) == Some(
            new_alert(blockchain, protocol, method, name2, description2, fields2),
        ),
{
    let k = alert_storage_key(alert_key_spec(blockchain, protocol, method));
    assert(s2.alerts.get_spec(k) == Some(
        new_alert(blockchain, protocol, method, name2, description2, fields2),
    ));
}

/// CreateAlert succeeds exactly for the owner and fails with `Unauthorized` for anyone else.
pub proof fn law_create_alert_authorization(
    pre: Storage,
    post: Storage,
    sender: Seq<u8>,
    alert: crate::models::AlertView,
    r: Result<(), ContractError>,
)
    requires
        pre.config is Some,
        create_alert_outcome(pre, post, sender, alert, r),
    ensures
        (r == Err::<(), ContractError>(ContractError::Unauthorized)) == !is_owner(pre, sender),
        r is Ok == is_owner(pre, sender),
{
}

proof fn lemma_first_missing_none(
    fields: Seq<AlertFieldView>,
    field_values: Seq<SubscriptionFieldValueView>,
    i: int,
)
    requires
        0 <= i <= fields.len(),
    ensures
        first_missing(fields, field_values, i) is None <==> forall|j: int|
            i <= j < fields.len() ==> provides(field_values, #[trigger] fields[j].field_key),
    decreases fields.len() - i,
{
    if i < fields.len() {
        lemma_first_missing_none(fields, field_values, i + 1);
    }
}

/// Subscribing to an existing alert fails with `ValidationError` when a field of the
/// alert has no value, and succeeds when every field has one (extra values are ignored).
pub proof fn law_subscription_completeness(
    pre: Storage,
    post: Storage,
    sender: Seq<u8>,
    alert_key: Seq<char>,
    field_values: Seq<SubscriptionFieldValueView>,
    r: Result<(), ContractError>,
)
    requires
        pre.alerts.get_spec(alert_storage_key(alert_key)) is Some,
        subscribe_outcome(pre, post, sender, alert_key, field_values, r),
    ensures
        ({
            let fields = pre.alerts.get_spec(alert_storage_key(alert_key))->Some_0.fields;
            &&& (exists|i: int|
                0 <= i < fields.len() && !provides(field_values, #[trigger] fields[i].field_key))
                ==> r is Err && r->Err_0 is ValidationError
            &&& (forall|i: int|
                0 <= i < fields.len() ==> provides(field_values, #[trigger] fields[i].field_key))
                ==> r is Ok
        }),
{
    let fields = pre.alerts.get_spec(alert_storage_key(alert_key))->Some_0.fields;
    lemma_first_missing_none(fields, field_values, 0);
}

/// A key under one subscriber's prefix belongs to no other subscriber.
pub proof fn lemma_subscriber_of_key(a: Seq<u8>, b: Seq<u8>, x: Seq<u8>)
    requires
        a.len() <= 0xFFFF,
        b.len() <= 0xFFFF,
        has_prefix(subscriber_prefix(a) + x, subscriber_prefix(b)),
    ensures
        a == b,
{
    let k = subscriber_prefix(a) + x;
    let p = subscriber_prefix(b);
    let n = length_prefixed(subscription_namespace());
    assert(n.len() == 14);
    assert(k[14] == p[14] && k[15] == p[15]) by {
        assert(k.subrange(0, p.len() as int)[14] == p[14]);
        assert(k.subrange(0, p.len() as int)[15] == p[15]);
    }
    assert(a.len() == b.len());
    assert forall|i: int| 0 <= i < b.len() implies a[i] == b[i] by {
        assert(k.subrange(0, p.len() as int)[16 + i] == p[16 + i]);
        assert(k[16 + i] == a[i]);
        assert(p[16 + i] == b[i]);
    }
    assert(a =~= b);
}

/// After a subscription and its removal, no page of the subscriber's listing, nor the
/// whole listing, shows that alert, and removing it again fails with `NotFound`.
pub proof fn law_unsubscribe_removes(
    s0: Storage,
    s1: Storage,
    s2: Storage,
    s3: Storage,
    sender: Seq<u8>,
    alert_key: Seq<char>,
    field_values: Seq<SubscriptionFieldValueView>,
    r1: Result<(), ContractError>,
    r2: Result<(), ContractError>,
    r3: Result<(), ContractError>,
    cursor: Option<Seq<u8>>,
    limit: Option<u32>,
    order: Option<OrderBy>,
)
    requires
        sender.len() <= 0xFFFF,
        subscribe_outcome(s0, s1, sender, alert_key, field_values, r1),
        r1 is Ok,
        unsubscribe_outcome(s1, s2, sender, alert_key, r2),
        unsubscribe_outcome(s2, s3, sender, alert_key, r3),
    ensures
        r2 is Ok,
        ({
            let m = s2.subscriptions.model();
            let page = subscriptions_page(m, sender, cursor, limit, order);
            forall|j: int|
                0 <= j < page.len() ==> #[trigger] m[page[j]].1.alert_key != alert_key
                    && m[page[j]].0 != subscription_storage_key(sender, alert_key)
        }),
        ({
            let m = s2.subscriptions.model();
            let all = listing_all(m, subscriber_prefix(sender), cursor, order);
            forall|j: int|
                0 <= j < all.len() ==> #[trigger] m[all[j]].1.alert_key != alert_key
                    && m[all[j]].0 != subscription_storage_key(sender, alert_key)
        }),
        r3 matches Err(ContractError::NotFound { kind }) && kind@ == "subscription"@,
{
    let key = subscription_storage_key(sender, alert_key);
    assert(s1.subscriptions.get_spec(key) is Some);
    let m = s2.subscriptions.model();
    let page = subscriptions_page(m, sender, cursor, limit, order);
    let b = range_bounds_spec(cursor, order);
    let prefix = crate::keys::subscriber_prefix(sender);
    lemma_scan_up_bounds(m, 0, prefix, b.0, b.1);
    lemma_scan_down_bounds(m, m.len() as int, prefix, b.0, b.1);
    let all = scan_all(m, prefix, b.0, b.1, is_descending(order));
    assert forall|j: int| 0 <= j < all.len() implies #[trigger] m[all[j]].1.alert_key != alert_key
        && m[all[j]].0 != key by {
        let e = m[all[j]];
        lemma_lookup_at(m, all[j]);
        assert(s2.subscriptions.get_spec(e.0) is Some);
        if e.1.alert_key == alert_key {
            let a = choose|a: Seq<u8>|
                a.len() <= 0xFFFF && e.0 == subscription_storage_key(
                    a,
                    s2.subscriptions.get_spec(e.0)->Some_0.alert_key,
                );
            lemma_subscriber_of_key(a, sender, key_bytes(alert_key));
        }
    }
    assert forall|j: int| 0 <= j < page.len() implies #[trigger] m[page[j]].1.alert_key != alert_key
        && m[page[j]].0 != key by {
        assert(page[j] == all[j]);
        assert(m[all[j]].1.alert_key != alert_key);
    }
}

} // verus!
