use vstd::prelude::*;

use crate::keys::{concat_bytes, length_prefixed, range_bounds, range_bounds_spec, to_length_prefixed};
use crate::error::ContractError;
use crate::keys::copy_bytes;
use crate::state::{DEFAULT_LIMIT, MAX_LIMIT};
use crate::store::{opt_view, scan_page, Record, Store};

verus! {

/// The owner record of the watcher registry.
#[derive(Clone, Debug, PartialEq, Eq)]
pub struct State {
    pub owner: Vec<u8>,
}

/// One field of a watcher.
#[derive(Clone, Debug, PartialEq, Eq)]
pub struct WatcherField {
    pub key: String,
    pub name: String,
    pub description: String,
    pub validation_regex: String,
}

pub struct WatcherFieldView {
    pub key: Seq<char>,
    pub name: Seq<char>,
    pub description: Seq<char>,
    pub validation_regex: Seq<char>,
}

impl View for WatcherField {
    type V = WatcherFieldView;

    open spec fn view(&self) -> WatcherFieldView {
        WatcherFieldView {
            key: self.key@,
            name: self.name@,
            description: self.description@,
            validation_regex: self.validation_regex@,
        }
    }
}

impl Record for WatcherField {
    fn duplicate(&self) -> (r: Self) {
        WatcherField {
            key: self.key.clone(),
            name: self.name.clone(),
            description: self.description.clone(),
            validation_regex: self.validation_regex.clone(),
        }
    }
}

/// A watcher definition, stored under its `key`.
#[derive(Clone, Debug, PartialEq, Eq)]
pub struct Watcher {
    pub key: String,
    pub blockchain: String,
    pub protocol: String,
    pub method: String,
    pub name: String,
    pub description: String,
    pub fields: Vec<WatcherField>,
}

pub open spec fn watcher_fields_view(fields: Vec<WatcherField>) -> Seq<WatcherFieldView> {
    fields@.map_values(|f: WatcherField| f@)
}

pub struct WatcherView {
    pub key: Seq<char>,
    pub blockchain: Seq<char>,
    pub protocol: Seq<char>,
    pub method: Seq<char>,
    pub name: Seq<char>,
    pub description: Seq<char>,
    pub fields: Seq<WatcherFieldView>,
}

impl View for Watcher {
    type V = WatcherView;

    open spec fn view(&self) -> WatcherView {
        WatcherView {
            key: self.key@,
            blockchain: self.blockchain@,
            protocol: self.protocol@,
            method: self.method@,
            name: self.name@,
            description: self.description@,
            fields: watcher_fields_view(self.fields),
        }
    }
}

impl Record for Watcher {
    fn duplicate(&self) -> (r: Self) {
        Watcher {
            key: self.key.clone(),
            blockchain: self.blockchain.clone(),
            protocol: self.protocol.clone(),
            method: self.method.clone(),
            name: self.name.clone(),
            description: self.description.clone(),
            fields: crate::models::duplicate_all(&self.fields),
        }
    }
}

/// Direction of a watcher listing.
#[derive(Clone, Copy, Debug, PartialEq, Eq, Structural)]
pub enum OrderBy {
    Asc,
    Desc,
}

#[derive(Clone, Debug, PartialEq, Eq)]
pub struct InitMsg {}

#[derive(Clone, Debug, PartialEq, Eq)]
pub enum HandleMsg {
    CreateWatcher { watcher: Watcher },
    SubscribeWatcher { watcher_key: String },
    UnsubscribeWatcher { watcher_key: String },
}

#[derive(Clone, Debug, PartialEq, Eq)]
pub enum QueryMsg {
    GetAllWatchers { limit: Option<u32>, order_by: Option<OrderBy> },
}

#[derive(Clone, Debug, PartialEq, Eq)]
pub struct GetAllWatchersResponse {
    pub watchers: Vec<Watcher>,
}

/// `watcher` in ASCII.
pub open spec fn watcher_namespace() -> Seq<u8> {
    seq![119u8, 97, 116, 99, 104, 101, 114]
}

pub open spec fn watcher_prefix() -> Seq<u8> {
    length_prefixed(watcher_namespace())
}

fn watcher_prefix_bytes() -> (r: Vec<u8>)
    ensures
        r@ == watcher_prefix(),
{
    let ns: Vec<u8> = vec![119u8, 97, 116, 99, 104, 101, 114];
    assert(ns@ =~= watcher_namespace());
    to_length_prefixed(ns.as_slice())
}

pub open spec fn as_alert_order(order: Option<OrderBy>) -> Option<crate::models::OrderBy> {
    match order {
        Some(OrderBy::Asc) => Some(crate::models::OrderBy::Asc),
        Some(OrderBy::Desc) => Some(crate::models::OrderBy::Desc),
        None => None,
    }
}

/// Writes `watcher` under its key, replacing any watcher stored there.
pub fn store_watcher(storage: &mut Store<Watcher>, watcher: Watcher)
    requires
        old(storage).wf(),
    ensures
        final(storage).wf(),
        forall|k: Seq<u8>|
            #[trigger] final(storage).get_spec(k) == if k == watcher_prefix()
                + vstd::utf8::encode_utf8(watcher.key@) {
                Some(watcher@)
            } else {
                old(storage).get_spec(k)
            },
{
    let prefix = watcher_prefix_bytes();
    let key = concat_bytes(prefix.as_slice(), watcher.key.as_str().as_bytes());
    storage.insert(key, watcher);
}

/// Writes the owner record of the watcher registry.
pub fn config(slot: &mut Option<State>, state: State)
    ensures
        *final(slot) == Some(state),
{
    *slot = Some(state);
}

/// Reads the owner record of the watcher registry.
pub fn config_read(slot: &Option<State>) -> (r: Result<State, ContractError>)
    ensures
        match *slot {
            Some(st) => r matches Ok(rs) && rs.owner@ == st.owner@,
            None => r == Err::<State, ContractError>(ContractError::NotInitialized),
        },
{
    match slot {
        Some(st) => Ok(State { owner: copy_bytes(st.owner.as_slice()) }),
        None => Err(ContractError::NotInitialized),
    }
}

/// Page size of a watcher listing: `DEFAULT_LIMIT` when none is given, else the limit
/// capped at `MAX_LIMIT` (a limit of 0 gives an empty page).
pub open spec fn watcher_limit_spec(limit: Option<u32>) -> nat {
    match limit {
        None => DEFAULT_LIMIT as nat,
        Some(l) => if l > MAX_LIMIT {
            MAX_LIMIT as nat
        } else {
            l as nat
        },
    }
}

pub fn watcher_limit(limit: Option<u32>) -> (r: usize)
    ensures
        r == watcher_limit_spec(limit),
{
    let l = match limit {
        None => DEFAULT_LIMIT,
        Some(l) => if l > MAX_LIMIT {
            MAX_LIMIT
        } else {
            l
        },
    };
    l as usize
}

/// One page of watchers after `start_after`, at most `watcher_limit_spec(limit)` of them,
/// in the requested order (descending when none is given).
pub fn read_watchers(
    storage: &Store<Watcher>,
    limit: Option<u32>,
    start_after: Option<Vec<u8>>,
    order: Option<OrderBy>,
) -> (r: Vec<Watcher>)
    requires
        storage.wf(),
    ensures
        ({
            let s = storage.model();
            let b = range_bounds_spec(opt_view(start_after), as_alert_order(order));
            let page = scan_page(
                s,
                watcher_prefix(),
                b.0,
                b.1,
                order != Some(OrderBy::Asc),
                watcher_limit_spec(limit),
            );
            &&& r@.map_values(|w: Watcher| w@) == page.map_values(|i: int| s[i].1)
            &&& forall|j: int| 0 <= j < page.len() ==> 0 <= #[trigger] page[j] < s.len()
        }),
{
    let n = watcher_limit(limit);
    let alert_order = match order {
        Some(OrderBy::Asc) => Some(crate::models::OrderBy::Asc),
        Some(OrderBy::Desc) => Some(crate::models::OrderBy::Desc),
        None => None,
    };
    let bounds = range_bounds(start_after, alert_order);
    let descending = match order {
        Some(OrderBy::Asc) => false,
        _ => true,
    };
    let prefix = watcher_prefix_bytes();
    let r = storage.range(prefix.as_slice(), &bounds.0, &bounds.1, descending, n);
    proof {
        let s = storage.model();
        let b = range_bounds_spec(opt_view(start_after), as_alert_order(order));
        let page = scan_page(s, watcher_prefix(), b.0, b.1, descending, n as nat);
        assert(r@.map_values(|w: Watcher| w@) =~= page.map_values(|i: int| s[i].1));
    }
    r
}

} // verus!
