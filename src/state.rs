use vstd::prelude::*;

use crate::error::ContractError;
use crate::keys::{
    alert_prefix, alert_prefix_bytes, alert_storage_key, alert_storage_key_bytes, copy_bytes,
    is_descending, range_bounds, range_bounds_spec, subscriber_prefix, subscriber_prefix_bytes,
    subscription_key, subscription_storage_key,
};
use crate::models::{Alert, OrderBy, Subscription};
use crate::store::{opt_view, scan_page, Record, Store};

verus! {

/// The owner record.
#[derive(Clone, Debug, PartialEq, Eq)]
pub struct Config {
    pub owner: Vec<u8>,
}

/// Everything the contract keeps: the owner record, the alerts and the subscriptions.
pub struct Storage {
    pub config: Option<Config>,
    pub alerts: Store<Alert>,
    pub subscriptions: Store<Subscription>,
}

impl Storage {
    /// Both stores are well formed, and each record sits under the key derived from it:
    /// an alert under its alert key, a subscription under some subscriber and its alert key.
    pub open spec fn wf(&self) -> bool {
        &&& self.alerts.wf()
        &&& self.subscriptions.wf()
        &&& forall|k: Seq<u8>|
            (#[trigger] self.alerts.get_spec(k)) is Some ==> k == alert_storage_key(
                self.alerts.get_spec(k)->Some_0.alert_key,
            )
        &&& forall|k: Seq<u8>|
            (#[trigger] self.subscriptions.get_spec(k)) is Some ==> exists|a: Seq<u8>|
                a.len() <= 0xFFFF && k == subscription_storage_key(
                    a,
                    self.subscriptions.get_spec(k)->Some_0.alert_key,
                )
    }

    /// An empty store.
    pub fn new() -> (r: Self)
        ensures
            r.wf(),
            r.config is None,
            r.alerts.model().len() == 0,
            r.subscriptions.model().len() == 0,
    {
        Storage { config: None, alerts: Store::new(), subscriptions: Store::new() }
    }
}

pub const MAX_LIMIT: u32 = 30;

pub const DEFAULT_LIMIT: u32 = 10;

/// Page size: `DEFAULT_LIMIT` when none is given, else clamped into `[1, MAX_LIMIT]`.
pub open spec fn effective_limit_spec(limit: Option<u32>) -> nat {
    match limit {
        None => DEFAULT_LIMIT as nat,
        Some(l) => if l < 1 {
            1
        } else if l > MAX_LIMIT {
            MAX_LIMIT as nat
        } else {
            l as nat
        },
    }
}

pub fn effective_limit(limit: Option<u32>) -> (r: usize)
    ensures
        r == effective_limit_spec(limit),
{
    let l = match limit {
        None => DEFAULT_LIMIT,
        Some(l) => if l < 1 {
            1
        } else if l > MAX_LIMIT {
            MAX_LIMIT
        } else {
            l
        },
    };
    l as usize
}

/// Positions in `alerts` of the alerts that a listing returns.
pub open spec fn alerts_page(
    alerts: Seq<(Seq<u8>, crate::models::AlertView)>,
    start_after: Option<Seq<u8>>,
    limit: Option<u32>,
    order: Option<OrderBy>,
) -> Seq<int> {
    let bounds = range_bounds_spec(start_after, order);
    scan_page(
        alerts,
        alert_prefix(),
        bounds.0,
        bounds.1,
        is_descending(order),
        effective_limit_spec(limit),
    )
}

/// Positions in `subscriptions` of the subscriptions of `subscriber` that a listing returns.
pub open spec fn subscriptions_page(
    subscriptions: Seq<(Seq<u8>, crate::models::SubscriptionView)>,
    subscriber: Seq<u8>,
    start_after: Option<Seq<u8>>,
    limit: Option<u32>,
    order: Option<OrderBy>,
) -> Seq<int> {
    let bounds = range_bounds_spec(start_after, order);
    scan_page(
        subscriptions,
        subscriber_prefix(subscriber),
        bounds.0,
        bounds.1,
        is_descending(order),
        effective_limit_spec(limit),
    )
}

/// Writes the owner record.
pub fn store_config(storage: &mut Storage, config: Config)
    requires
        old(storage).wf(),
    ensures
        final(storage).wf(),
        final(storage).config == Some(config),
        final(storage).alerts == old(storage).alerts,
        final(storage).subscriptions == old(storage).subscriptions,
{
    storage.config = Some(config);
}

/// Reads the owner record.
pub fn read_config(storage: &Storage) -> (r: Result<Config, ContractError>)
    ensures
        match storage.config {
            Some(c) => r matches Ok(rc) && rc.owner@ == c.owner@,
            None => r == Err::<Config, ContractError>(ContractError::NotInitialized),
        },
{
    match &storage.config {
        Some(c) => Ok(Config { owner: copy_bytes(c.owner.as_slice()) }),
        None => Err(ContractError::NotInitialized),
    }
}

/// Writes `alert` under its key, replacing any alert stored there.
pub fn store_alert(storage: &mut Storage, alert: Alert)
    requires
        old(storage).wf(),
    ensures
        final(storage).wf(),
        final(storage).config == old(storage).config,
        final(storage).subscriptions == old(storage).subscriptions,
        forall|k: Seq<u8>|
            #[trigger] final(storage).alerts.get_spec(k) == if k == alert_storage_key(
                alert.alert_key@,
            ) {
                Some(alert@)
            } else {
                old(storage).alerts.get_spec(k)
            },
{
    let key = alert_storage_key_bytes(alert.alert_key.as_str());
    storage.alerts.insert(key, alert);
}

/// The alert with key `alert_key`.
pub fn read_alert(storage: &Storage, alert_key: &str) -> (r: Result<Alert, ContractError>)
    requires
        storage.wf(),
    ensures
        match storage.alerts.get_spec(alert_storage_key(alert_key@)) {
            Some(a) => r matches Ok(ra) && ra@ == a,
            None => r matches Err(ContractError::NotFound { kind }) && kind@ == "alert"@,
        },
{
    let key = alert_storage_key_bytes(alert_key);
    match storage.alerts.get(key.as_slice()) {
        Some(a) => Ok(a.duplicate()),
        None => {
            let kind = String::from_str("alert");
            Err(ContractError::NotFound { kind })
        },
    }
}

/// One page of alerts after `start_after`, at most `limit` of them (clamped), in the
/// requested order (descending when none is given).
pub fn read_alerts(
    storage: &Storage,
    start_after: Option<Vec<u8>>,
    limit: Option<u32>,
    order: Option<OrderBy>,
) -> (r: Vec<Alert>)
    requires
        storage.wf(),
    ensures
        ({
            let s = storage.alerts.model();
            let page = alerts_page(s, opt_view(start_after), limit, order);
            &&& r@.map_values(|a: Alert| a@) == page.map_values(|i: int| s[i].1)
            &&& forall|j: int| 0 <= j < page.len() ==> 0 <= #[trigger] page[j] < s.len()
        }),
{
    let n = effective_limit(limit);
    let bounds = range_bounds(start_after, order);
    let descending = match order {
        Some(OrderBy::Asc) => false,
        _ => true,
    };
    let prefix = alert_prefix_bytes();
    let r = storage.alerts.range(prefix.as_slice(), &bounds.0, &bounds.1, descending, n);
    proof {
        let s = storage.alerts.model();
        let page = alerts_page(s, opt_view(start_after), limit, order);
        assert(r@.map_values(|a: Alert| a@) =~= page.map_values(|i: int| s[i].1));
    }
    r
}

/// Writes `subscription` under `subscriber_addr` and its alert key, replacing any
/// subscription stored there.
pub fn store_subscription_for_address(
    storage: &mut Storage,
    subscriber_addr: &[u8],
    subscription: Subscription,
)
    requires
        old(storage).wf(),
        subscriber_addr@.len() <= 0xFFFF,
    ensures
        final(storage).wf(),
        final(storage).config == old(storage).config,
        final(storage).alerts == old(storage).alerts,
        forall|k: Seq<u8>|
            #[trigger] final(storage).subscriptions.get_spec(k) == if k
                == subscription_storage_key(subscriber_addr@, subscription.alert_key@) {
                Some(subscription@)
            } else {
                old(storage).subscriptions.get_spec(k)
            },
{
    let key = subscription_key(subscriber_addr, subscription.alert_key.as_str());
    let ghost addr = subscriber_addr@;
    storage.subscriptions.insert(key, subscription);
    assert forall|k: Seq<u8>| (#[trigger] storage.subscriptions.get_spec(k)) is Some implies exists|
        a: Seq<u8>,
    |
        a.len() <= 0xFFFF && k == subscription_storage_key(
            a,
            storage.subscriptions.get_spec(k)->Some_0.alert_key,
        ) by {
        if k == key@ {
            let v = storage.subscriptions.get_spec(k)->Some_0;
            assert(k == subscription_storage_key(addr, v.alert_key));
        } else {
            assert(old(storage).subscriptions.get_spec(k) is Some);
        }
    }
}

/// Whether `subscriber_addr` is subscribed to `alert_key`.
pub fn has_subscription_for_address(storage: &Storage, subscriber_addr: &[u8], alert_key: &str) -> (r:
    bool)
    requires
        storage.wf(),
        subscriber_addr@.len() <= 0xFFFF,
    ensures
        r == storage.subscriptions.get_spec(
            subscription_storage_key(subscriber_addr@, alert_key@),
        ) is Some,
{
    let key = subscription_key(subscriber_addr, alert_key);
    storage.subscriptions.get(key.as_slice()).is_some()
}

/// Deletes `subscriber_address`'s subscription to `alert_key`, if there is one.
pub fn remove_subscription_for_address(
    storage: &mut Storage,
    subscriber_address: &[u8],
    alert_key: &str,
)
    requires
        old(storage).wf(),
        subscriber_address@.len() <= 0xFFFF,
    ensures
        final(storage).wf(),
        final(storage).config == old(storage).config,
        final(storage).alerts == old(storage).alerts,
        forall|k: Seq<u8>|
            #[trigger] final(storage).subscriptions.get_spec(k) == if k == subscription_storage_key(
                subscriber_address@,
                alert_key@,
            ) {
                None
            } else {
                old(storage).subscriptions.get_spec(k)
            },
{
    let key = subscription_key(subscriber_address, alert_key);
    storage.subscriptions.remove(key.as_slice());
}

/// One page of `subscriber_address`'s subscriptions, as `read_alerts` pages alerts.
pub fn read_subscriptions_for_address(
    storage: &Storage,
    subscriber_address: &[u8],
    start_after: Option<Vec<u8>>,
    limit: Option<u32>,
    order: Option<OrderBy>,
) -> (r: Vec<Subscription>)
    requires
        storage.wf(),
        subscriber_address@.len() <= 0xFFFF,
    ensures
        ({
            let s = storage.subscriptions.model();
            let page = subscriptions_page(
                s,
                subscriber_address@,
                opt_view(start_after),
                limit,
                order,
            );
            &&& r@.map_values(|x: Subscription| x@) == page.map_values(|i: int| s[i].1)
            &&& forall|j: int| 0 <= j < page.len() ==> 0 <= #[trigger] page[j] < s.len()
        }),
{
    let n = effective_limit(limit);
    let bounds = range_bounds(start_after, order);
    let descending = match order {
        Some(OrderBy::Asc) => false,
        _ => true,
    };
    let prefix = subscriber_prefix_bytes(subscriber_address);
    let r = storage.subscriptions.range(prefix.as_slice(), &bounds.0, &bounds.1, descending, n);
    proof {
        let s = storage.subscriptions.model();
        let page = subscriptions_page(s, subscriber_address@, opt_view(start_after), limit, order);
        assert(r@.map_values(|x: Subscription| x@) =~= page.map_values(|i: int| s[i].1));
    }
    r
}

} // verus!
