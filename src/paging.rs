use vstd::prelude::*;

use crate::bytes::has_prefix;
use crate::keys::{
    alert_prefix, copy_bytes, is_descending, key_bytes, range_bounds_spec, subscriber_prefix,
};
use crate::laws::{
    law_pagination_step, law_short_page_is_last, lemma_subscriber_of_key, listing_all,
    listing_page, no_zero_extension,
};
use crate::models::{Alert, OrderBy, Subscription};
use crate::state::{
    effective_limit, effective_limit_spec, read_alerts, read_subscriptions_for_address, Storage,
};
use crate::store::{
    keys_sorted, lemma_lookup_at, lemma_scan_down_bounds, lemma_scan_up_bounds, opt_view,
    scan_all, suffix,
};

verus! {

/// Every alert, gathered by listing pages of `limit` (clamped) one after another, each time
/// passing the last alert key of the previous page as the cursor, until a short page.
pub fn read_all_alerts(storage: &Storage, limit: Option<u32>, order: Option<OrderBy>) -> (r: Vec<
    Alert,
>)
    requires
        storage.wf(),
        !is_descending(order) ==> no_zero_extension(storage.alerts.model(), alert_prefix()),
    ensures
        r@.map_values(|a: Alert| a@) == listing_all(
            storage.alerts.model(),
            alert_prefix(),
            None,
            order,
        ).map_values(|i: int| storage.alerts.model()[i].1),
{
    let ghost s = storage.alerts.model();
    let ghost p = alert_prefix();
    let ghost target = listing_all(s, p, None, order).map_values(|i: int| s[i].1);
    let n = effective_limit(limit);
    let mut out: Vec<Alert> = Vec::new();
    let mut cursor: Option<Vec<u8>> = None;
    let mut done = false;
    assert(out@.map_values(|a: Alert| a@) + target =~= target);
    while !done
        invariant
            storage.wf(),
            s == storage.alerts.model(),
            p == alert_prefix(),
            n == effective_limit_spec(limit),
            !is_descending(order) ==> no_zero_extension(s, p),
            target == listing_all(s, p, None, order).map_values(|i: int| s[i].1),
            !done ==> out@.map_values(|a: Alert| a@) + listing_all(
                s,
                p,
                opt_view(cursor),
                order,
            ).map_values(|i: int| s[i].1) == target,
            done ==> out@.map_values(|a: Alert| a@) == target,
        decreases
                (if done {
                    0
                } else {
                    listing_all(s, p, opt_view(cursor), order).len() + 1
                }),
    {
        let ghost c = opt_view(cursor);
        let ghost all = listing_all(s, p, c, order);
        let ghost pg = listing_page(s, p, c, order, n as nat);
        let ghost before = out@.map_values(|a: Alert| a@);
        let mut page = read_alerts(storage, cursor, limit, order);
        let ghost got = page@.map_values(|a: Alert| a@);
        assert(got == pg.map_values(|i: int| s[i].1));
        assert(got.len() == pg.len());
        if page.len() < n {
            proof {
                law_short_page_is_last(s, p, c, order, n as nat);
            }
            out.append(&mut page);
            assert(out@.map_values(|a: Alert| a@) =~= before + got);
            assert(target =~= before + got);
            cursor = None;
            done = true;
        } else {
            proof {
                law_pagination_step(s, p, c, order, n as nat);
            }
            let ghost i = pg[n - 1];
            let last = page[page.len() - 1].alert_key.as_str();
            let next = copy_bytes(last.as_bytes());
            proof {
                let next_c = Some(suffix(s[i].0, p));
                let rest = listing_all(s, p, next_c, order);
                assert(page@[n - 1]@ == got[n - 1]);
                lemma_lookup_at(s, i);
                assert(storage.alerts.get_spec(s[i].0) is Some);
                assert(s[i].0 == p + key_bytes(s[i].1.alert_key));
                assert(suffix(s[i].0, p) =~= key_bytes(s[i].1.alert_key));
                assert(next@ == suffix(s[i].0, p));
                assert(all.map_values(|j: int| s[j].1) =~= pg.map_values(|j: int| s[j].1)
                    + rest.map_values(|j: int| s[j].1));
            }
            out.append(&mut page);
            proof {
                let rest = listing_all(s, p, Some(next@), order);
                assert(out@.map_values(|a: Alert| a@) =~= before + got);
                assert(before + got + rest.map_values(|j: int| s[j].1) =~= before + (got
                    + rest.map_values(|j: int| s[j].1)));
            }
            cursor = Some(next);
        }
    }
    out
}

/// Every subscription of `subscriber_address`, gathered page by page as `read_all_alerts`
/// gathers alerts.
pub fn read_all_subscriptions_for_address(
    storage: &Storage,
    subscriber_address: &[u8],
    limit: Option<u32>,
    order: Option<OrderBy>,
) -> (r: Vec<Subscription>)
    requires
        storage.wf(),
        subscriber_address@.len() <= 0xFFFF,
        !is_descending(order) ==> no_zero_extension(
            storage.subscriptions.model(),
            subscriber_prefix(subscriber_address@),
        ),
    ensures
        r@.map_values(|x: Subscription| x@) == listing_all(
            storage.subscriptions.model(),
            subscriber_prefix(subscriber_address@),
            None,
            order,
        ).map_values(|i: int| storage.subscriptions.model()[i].1),
{
    let ghost s = storage.subscriptions.model();
    let ghost p = subscriber_prefix(subscriber_address@);
    let ghost target = listing_all(s, p, None, order).map_values(|i: int| s[i].1);
    let n = effective_limit(limit);
    let mut out: Vec<Subscription> = Vec::new();
    let mut cursor: Option<Vec<u8>> = None;
    let mut done = false;
    assert(out@.map_values(|x: Subscription| x@) + target =~= target);
    while !done
        invariant
            storage.wf(),
            subscriber_address@.len() <= 0xFFFF,
            s == storage.subscriptions.model(),
            p == subscriber_prefix(subscriber_address@),
            n == effective_limit_spec(limit),
            !is_descending(order) ==> no_zero_extension(s, p),
            target == listing_all(s, p, None, order).map_values(|i: int| s[i].1),
            !done ==> out@.map_values(|x: Subscription| x@) + listing_all(
                s,
                p,
                opt_view(cursor),
                order,
            ).map_values(|i: int| s[i].1) == target,
            done ==> out@.map_values(|x: Subscription| x@) == target,
        decreases
                (if done {
                    0
                } else {
                    listing_all(s, p, opt_view(cursor), order).len() + 1
                }),
    {
        let ghost c = opt_view(cursor);
        let ghost all = listing_all(s, p, c, order);
        let ghost pg = listing_page(s, p, c, order, n as nat);
        let ghost before = out@.map_values(|x: Subscription| x@);
        let mut page = read_subscriptions_for_address(
            storage,
            subscriber_address,
            cursor,
            limit,
            order,
        );
        let ghost got = page@.map_values(|x: Subscription| x@);
        assert(got == pg.map_values(|i: int| s[i].1));
        assert(got.len() == pg.len());
        if page.len() < n {
            proof {
                law_short_page_is_last(s, p, c, order, n as nat);
            }
            out.append(&mut page);
            assert(out@.map_values(|x: Subscription| x@) =~= before + got);
            assert(target =~= before + got);
            cursor = None;
            done = true;
        } else {
            proof {
                law_pagination_step(s, p, c, order, n as nat);
            }
            let ghost i = pg[n - 1];
            let last = page[page.len() - 1].alert_key.as_str();
            let next = copy_bytes(last.as_bytes());
            proof {
                let next_c = Some(suffix(s[i].0, p));
                let rest = listing_all(s, p, next_c, order);
                let b = range_bounds_spec(c, order);
                lemma_scan_up_bounds(s, 0, p, b.0, b.1);
                lemma_scan_down_bounds(s, s.len() as int, p, b.0, b.1);
                let sa = scan_all(s, p, b.0, b.1, is_descending(order));
                assert(i == sa[n - 1]);
                assert(has_prefix(s[i].0, p));
                assert(page@[n - 1]@ == got[n - 1]);
                lemma_lookup_at(s, i);
                assert(storage.subscriptions.get_spec(s[i].0) is Some);
                let a = choose|a: Seq<u8>|
                    a.len() <= 0xFFFF && s[i].0 == crate::keys::subscription_storage_key(
                        a,
                        storage.subscriptions.get_spec(s[i].0)->Some_0.alert_key,
                    );
                lemma_subscriber_of_key(a, subscriber_address@, key_bytes(s[i].1.alert_key));
                assert(s[i].0 == p + key_bytes(s[i].1.alert_key));
                assert(suffix(s[i].0, p) =~= key_bytes(s[i].1.alert_key));
                assert(next@ == suffix(s[i].0, p));
                assert(all.map_values(|j: int| s[j].1) =~= pg.map_values(|j: int| s[j].1)
                    + rest.map_values(|j: int| s[j].1));
            }
            out.append(&mut page);
            proof {
                let rest = listing_all(s, p, Some(next@), order);
                assert(out@.map_values(|x: Subscription| x@) =~= before + got);
                assert(before + got + rest.map_values(|j: int| s[j].1) =~= before + (got
                    + rest.map_values(|j: int| s[j].1)));
            }
            cursor = Some(next);
        }
    }
    out
}

} // verus!
