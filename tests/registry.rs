use alert_registry::contract::{
    handle, init, query, try_create_alert, try_subscribe_alert, try_unsubscribe_alert,
};
use alert_registry::error::ContractError;
use alert_registry::keys::{
    alert_key, alert_storage_key_bytes, calc_range_end, calc_range_start, range_bounds,
    subscription_key,
};
use alert_registry::models::{Alert, AlertField, OrderBy, Subscription, SubscriptionFieldValue};
use alert_registry::msg::{HandleMsg, QueryMsg, QueryResponse};
use alert_registry::paging::{read_all_alerts, read_all_subscriptions_for_address};
use alert_registry::state::{
    effective_limit, read_alert, read_alerts, read_config, read_subscriptions_for_address, Storage,
};

const OWNER: &[u8] = &[7, 7, 7, 7];
const USER: &[u8] = &[1, 2, 3, 4];
const OTHER: &[u8] = &[9, 9, 9, 9];

fn field(key: &str) -> AlertField {
    AlertField {
        field_key: key.to_string(),
        name: format!("{} name", key),
        description: format!("{} description", key),
        validation_regex: ".*".to_string(),
    }
}

fn value(key: &str, v: &str) -> SubscriptionFieldValue {
    SubscriptionFieldValue { field_key: key.to_string(), value: v.to_string() }
}

fn initialized() -> Storage {
    let mut st = Storage::new();
    init(&mut st, OWNER);
    st
}

fn create(
    st: &mut Storage,
    sender: &[u8],
    b: &str,
    p: &str,
    m: &str,
    name: &str,
    fields: Vec<AlertField>,
) -> Result<(), ContractError> {
    try_create_alert(
        st,
        sender,
        b.to_string(),
        p.to_string(),
        m.to_string(),
        name.to_string(),
        format!("{} alert", name),
        fields,
    )
}

fn uniswap(st: &mut Storage) {
    create(st, OWNER, "eth", "uniswap", "swap", "Swap", vec![field("min_amount"), field("token")]).unwrap();
}

#[test]
fn alert_key_joins_with_dots() {
    assert_eq!(alert_key("eth", "uniswap", "swap"), "eth.uniswap.swap");
    assert_eq!(alert_key("", "", ""), "..");
}

#[test]
fn storage_keys_are_length_prefixed() {
    let mut expected = vec![0u8, 5];
    expected.extend_from_slice(b"alert");
    expected.extend_from_slice(b"x.y.z");
    assert_eq!(alert_storage_key_bytes("x.y.z"), expected);

    let mut expected = vec![0u8, 12];
    expected.extend_from_slice(b"subscription");
    expected.extend_from_slice(&[0, 2, 1, 2]);
    expected.extend_from_slice(b"k");
    assert_eq!(subscription_key(&[1, 2], "k"), expected);
}

#[test]
fn range_bounds_depend_on_direction() {
    assert_eq!(calc_range_start(Some(vec![5, 6])), Some(vec![5, 6, 1]));
    assert_eq!(calc_range_start(None), None);
    assert_eq!(calc_range_end(Some(vec![5, 6])), Some(vec![5, 6]));
    assert_eq!(range_bounds(Some(vec![3]), Some(OrderBy::Asc)), (Some(vec![3, 1]), None));
    assert_eq!(range_bounds(Some(vec![3]), Some(OrderBy::Desc)), (None, Some(vec![3])));
    assert_eq!(range_bounds(Some(vec![3]), None), (None, Some(vec![3])));
    assert_eq!(range_bounds(None, Some(OrderBy::Asc)), (None, None));
}

#[test]
fn limits_are_clamped() {
    assert_eq!(effective_limit(None), 10);
    assert_eq!(effective_limit(Some(0)), 1);
    assert_eq!(effective_limit(Some(1)), 1);
    assert_eq!(effective_limit(Some(17)), 17);
    assert_eq!(effective_limit(Some(30)), 30);
    assert_eq!(effective_limit(Some(1000)), 30);
}

#[test]
fn config_records_owner() {
    let st = Storage::new();
    assert_eq!(read_config(&st), Err(ContractError::NotInitialized));
    let st = initialized();
    assert_eq!(read_config(&st).unwrap().owner, OWNER.to_vec());
}

#[test]
fn create_without_init_fails() {
    let mut st = Storage::new();
    assert_eq!(create(&mut st, OWNER, "a", "b", "c", "n", vec![]), Err(ContractError::NotInitialized));
}

#[test]
fn only_owner_creates_alerts() {
    let mut st = initialized();
    assert_eq!(create(&mut st, USER, "eth", "uniswap", "swap", "Swap", vec![]), Err(ContractError::Unauthorized));
    assert!(read_alerts(&st, None, None, None).is_empty());
    assert_eq!(create(&mut st, OWNER, "eth", "uniswap", "swap", "Swap", vec![]), Ok(()));
    let a = read_alert(&st, "eth.uniswap.swap").unwrap();
    assert_eq!(a.alert_key, "eth.uniswap.swap");
    assert_eq!(a.blockchain, "eth");
    assert_eq!(a.protocol, "uniswap");
    assert_eq!(a.method, "swap");
    assert_eq!(a.name, "Swap");
    assert_eq!(a.description, "Swap alert");
}

#[test]
fn same_triple_overwrites() {
    let mut st = initialized();
    create(&mut st, OWNER, "eth", "uniswap", "swap", "First", vec![field("a")]).unwrap();
    create(&mut st, OWNER, "eth", "uniswap", "swap", "Second", vec![field("b")]).unwrap();
    let a = read_alert(&st, "eth.uniswap.swap").unwrap();
    assert_eq!(a.name, "Second");
    assert_eq!(a.fields, vec![field("b")]);
    assert_eq!(read_alerts(&st, None, None, None).len(), 1);
}

#[test]
fn ambiguous_triples_collide() {
    let mut st = initialized();
    create(&mut st, OWNER, "a.b", "c", "d", "First", vec![]).unwrap();
    create(&mut st, OWNER, "a", "b.c", "d", "Second", vec![]).unwrap();
    assert_eq!(read_alerts(&st, None, None, None).len(), 1);
    assert_eq!(read_alert(&st, "a.b.c.d").unwrap().name, "Second");
}

#[test]
fn read_missing_alert_is_not_found() {
    let st = initialized();
    assert_eq!(read_alert(&st, "nope"), Err(ContractError::NotFound { kind: "alert".to_string() }));
}

#[test]
fn subscribe_scenario() {
    let mut st = initialized();
    uniswap(&mut st);
    let full = vec![value("min_amount", "10"), value("token", "USDC")];
    assert_eq!(try_subscribe_alert(&mut st, USER, "eth.uniswap.swap".to_string(), full.clone()), Ok(()));
    let partial = vec![value("min_amount", "10")];
    assert_eq!(
        try_subscribe_alert(&mut st, USER, "eth.uniswap.swap".to_string(), partial),
        Err(ContractError::ValidationError { msg: "missing field token".to_string() })
    );
    let subs = read_subscriptions_for_address(&st, USER, None, None, None);
    assert_eq!(subs, vec![Subscription { alert_key: "eth.uniswap.swap".to_string(), field_values: full }]);
}

#[test]
fn first_missing_field_is_named() {
    let mut st = initialized();
    uniswap(&mut st);
    assert_eq!(
        try_subscribe_alert(&mut st, USER, "eth.uniswap.swap".to_string(), vec![value("token", "X")]),
        Err(ContractError::ValidationError { msg: "missing field min_amount".to_string() })
    );
    assert_eq!(
        try_subscribe_alert(&mut st, USER, "eth.uniswap.swap".to_string(), vec![]),
        Err(ContractError::ValidationError { msg: "missing field min_amount".to_string() })
    );
    assert!(read_subscriptions_for_address(&st, USER, None, None, None).is_empty());
}

#[test]
fn extra_values_are_accepted() {
    let mut st = initialized();
    uniswap(&mut st);
    let values = vec![value("extra", "1"), value("token", "DAI"), value("min_amount", "5")];
    assert_eq!(try_subscribe_alert(&mut st, USER, "eth.uniswap.swap".to_string(), values), Ok(()));
}

#[test]
fn subscribe_to_unknown_alert_fails() {
    let mut st = initialized();
    assert_eq!(
        try_subscribe_alert(&mut st, USER, "x.y.z".to_string(), vec![]),
        Err(ContractError::NotFound { kind: "alert".to_string() })
    );
}

#[test]
fn resubscribe_overwrites() {
    let mut st = initialized();
    uniswap(&mut st);
    let first = vec![value("min_amount", "1"), value("token", "A")];
    let second = vec![value("min_amount", "2"), value("token", "B")];
    try_subscribe_alert(&mut st, USER, "eth.uniswap.swap".to_string(), first).unwrap();
    try_subscribe_alert(&mut st, USER, "eth.uniswap.swap".to_string(), second.clone()).unwrap();
    let subs = read_subscriptions_for_address(&st, USER, None, None, None);
    assert_eq!(subs.len(), 1);
    assert_eq!(subs[0].field_values, second);
}

#[test]
fn unsubscribe_removes_and_second_fails() {
    let mut st = initialized();
    uniswap(&mut st);
    create(&mut st, OWNER, "eth", "aave", "borrow", "Borrow", vec![]).unwrap();
    let full = vec![value("min_amount", "10"), value("token", "USDC")];
    try_subscribe_alert(&mut st, USER, "eth.uniswap.swap".to_string(), full).unwrap();
    try_subscribe_alert(&mut st, USER, "eth.aave.borrow".to_string(), vec![]).unwrap();
    assert_eq!(try_unsubscribe_alert(&mut st, USER, "eth.uniswap.swap".to_string()), Ok(()));
    let keys: Vec<String> = read_subscriptions_for_address(&st, USER, None, None, None)
        .into_iter()
        .map(|s| s.alert_key)
        .collect();
    assert_eq!(keys, vec!["eth.aave.borrow".to_string()]);
    assert_eq!(
        try_unsubscribe_alert(&mut st, USER, "eth.uniswap.swap".to_string()),
        Err(ContractError::NotFound { kind: "subscription".to_string() })
    );
}

#[test]
fn unsubscribe_unknown_alert_fails() {
    let mut st = initialized();
    assert_eq!(
        try_unsubscribe_alert(&mut st, USER, "x.y.z".to_string()),
        Err(ContractError::NotFound { kind: "alert".to_string() })
    );
}

#[test]
fn subscriptions_are_per_subscriber() {
    let mut st = initialized();
    create(&mut st, OWNER, "a", "b", "c", "N", vec![]).unwrap();
    create(&mut st, OWNER, "d", "e", "f", "M", vec![]).unwrap();
    try_subscribe_alert(&mut st, USER, "a.b.c".to_string(), vec![]).unwrap();
    try_subscribe_alert(&mut st, OTHER, "d.e.f".to_string(), vec![]).unwrap();
    let mine = read_subscriptions_for_address(&st, USER, None, None, None);
    assert_eq!(mine.len(), 1);
    assert_eq!(mine[0].alert_key, "a.b.c");
    let theirs = read_subscriptions_for_address(&st, OTHER, None, None, None);
    assert_eq!(theirs.len(), 1);
    assert_eq!(theirs[0].alert_key, "d.e.f");
    assert!(read_subscriptions_for_address(&st, &[5, 5], None, None, None).is_empty());
}

fn many_alerts(n: usize) -> Storage {
    let mut st = initialized();
    for i in 0..n {
        create(&mut st, OWNER, "chain", &format!("p{:02}", i), "m", "N", vec![]).unwrap();
    }
    st
}

fn keys_of(alerts: &[Alert]) -> Vec<String> {
    alerts.iter().map(|a| a.alert_key.clone()).collect()
}

#[test]
fn listing_defaults_to_descending_ten() {
    let st = many_alerts(12);
    let page = read_alerts(&st, None, None, None);
    let expected: Vec<String> = (2..12).rev().map(|i| format!("chain.p{:02}.m", i)).collect();
    assert_eq!(keys_of(&page), expected);
}

#[test]
fn listing_limits_are_clamped() {
    let st = many_alerts(35);
    assert_eq!(read_alerts(&st, None, Some(0), None).len(), 1);
    assert_eq!(read_alerts(&st, None, Some(1000), None).len(), 30);
    assert_eq!(read_alerts(&st, None, Some(1000), Some(OrderBy::Asc)).len(), 30);
    assert_eq!(read_alerts(&st, None, Some(7), Some(OrderBy::Asc)).len(), 7);
    let few = many_alerts(3);
    assert_eq!(read_alerts(&few, None, Some(1000), None).len(), 3);
}

fn page_through(st: &Storage, order: OrderBy, limit: u32) -> Vec<String> {
    let mut seen = Vec::new();
    let mut cursor: Option<Vec<u8>> = None;
    loop {
        let page = read_alerts(st, cursor.clone(), Some(limit), Some(order));
        seen.extend(keys_of(&page));
        if page.len() < limit as usize {
            return seen;
        }
        cursor = Some(page.last().unwrap().alert_key.as_bytes().to_vec());
    }
}

#[test]
fn paging_ascending_visits_each_once() {
    let st = many_alerts(8);
    let expected: Vec<String> = (0..8).map(|i| format!("chain.p{:02}.m", i)).collect();
    assert_eq!(page_through(&st, OrderBy::Asc, 3), expected);
    assert_eq!(page_through(&st, OrderBy::Asc, 1), expected);
    assert_eq!(page_through(&st, OrderBy::Asc, 8), expected);
}

#[test]
fn paging_descending_visits_each_once() {
    let st = many_alerts(8);
    let expected: Vec<String> = (0..8).rev().map(|i| format!("chain.p{:02}.m", i)).collect();
    assert_eq!(page_through(&st, OrderBy::Desc, 3), expected);
    assert_eq!(page_through(&st, OrderBy::Desc, 2), expected);
}

#[test]
fn ascending_cursor_skips_zero_continuation() {
    let mut st = initialized();
    create(&mut st, OWNER, "a", "b", "c", "N", vec![]).unwrap();
    create(&mut st, OWNER, "a", "b", "c\u{0}", "N", vec![]).unwrap();
    create(&mut st, OWNER, "a", "b", "d", "N", vec![]).unwrap();
    let page = read_alerts(&st, Some(b"a.b.c".to_vec()), None, Some(OrderBy::Asc));
    assert_eq!(keys_of(&page), vec!["a.b.d".to_string()]);
}

#[test]
fn subscription_paging() {
    let mut st = initialized();
    for i in 0..5 {
        create(&mut st, OWNER, "c", &format!("pool{}", i), "m", "N", vec![]).unwrap();
        try_subscribe_alert(&mut st, USER, format!("c.pool{}.m", i), vec![]).unwrap();
    }
    let first = read_subscriptions_for_address(&st, USER, None, Some(2), Some(OrderBy::Asc));
    let keys: Vec<String> = first.iter().map(|s| s.alert_key.clone()).collect();
    assert_eq!(keys, vec!["c.pool0.m".to_string(), "c.pool1.m".to_string()]);
    let cursor = Some(b"c.pool1.m".to_vec());
    let next = read_subscriptions_for_address(&st, USER, cursor.clone(), Some(2), Some(OrderBy::Asc));
    let keys: Vec<String> = next.iter().map(|s| s.alert_key.clone()).collect();
    assert_eq!(keys, vec!["c.pool2.m".to_string(), "c.pool3.m".to_string()]);
    let back = read_subscriptions_for_address(&st, USER, cursor, Some(5), Some(OrderBy::Desc));
    let keys: Vec<String> = back.iter().map(|s| s.alert_key.clone()).collect();
    assert_eq!(keys, vec!["c.pool0.m".to_string()]);
}

#[test]
fn handle_and_query_dispatch() {
    let mut st = initialized();
    let msg = HandleMsg::CreateAlert {
        blockchain: "eth".to_string(),
        protocol: "uniswap".to_string(),
        method: "swap".to_string(),
        name: "Swap".to_string(),
        description: "d".to_string(),
        fields: vec![field("token")],
    };
    assert_eq!(handle(&mut st, OWNER, msg), Ok(()));
    let sub = HandleMsg::SubscribeAlert {
        alert_key: "eth.uniswap.swap".to_string(),
        field_values: vec![value("token", "USDC")],
    };
    assert_eq!(handle(&mut st, USER, sub), Ok(()));
    match query(&st, QueryMsg::GetAlerts { start_after: None, limit: None, order_by: None }) {
        QueryResponse::Alerts(r) => assert_eq!(keys_of(&r.alerts), vec!["eth.uniswap.swap".to_string()]),
        other => panic!("unexpected answer {:?}", other),
    }
    let q = QueryMsg::GetSubscriptionsForAddress {
        subscriber_addr: USER.to_vec(),
        start_after: None,
        limit: None,
        order_by: None,
    };
    match query(&st, q) {
        QueryResponse::Subscriptions(r) => assert_eq!(r.subscriptions.len(), 1),
        other => panic!("unexpected answer {:?}", other),
    }
    let unsub = HandleMsg::UnsubscribeAlert { alert_key: "eth.uniswap.swap".to_string() };
    assert_eq!(handle(&mut st, USER, unsub.clone()), Ok(()));
    assert_eq!(
        handle(&mut st, USER, unsub),
        Err(ContractError::NotFound { kind: "subscription".to_string() })
    );
}

#[test]
fn read_all_alerts_gathers_every_page() {
    let st = many_alerts(23);
    let asc: Vec<String> = (0..23).map(|i| format!("chain.p{:02}.m", i)).collect();
    let desc: Vec<String> = asc.iter().rev().cloned().collect();
    assert_eq!(keys_of(&read_all_alerts(&st, Some(4), Some(OrderBy::Asc))), asc);
    assert_eq!(keys_of(&read_all_alerts(&st, Some(0), Some(OrderBy::Asc))), asc);
    assert_eq!(keys_of(&read_all_alerts(&st, None, None)), desc);
    assert_eq!(keys_of(&read_all_alerts(&st, Some(1000), Some(OrderBy::Desc))), desc);
    let empty = initialized();
    assert!(read_all_alerts(&empty, Some(3), None).is_empty());
}

#[test]
fn read_all_subscriptions_after_unsubscribe() {
    let mut st = initialized();
    for i in 0..7 {
        create(&mut st, OWNER, "c", &format!("pool{}", i), "m", "N", vec![]).unwrap();
        try_subscribe_alert(&mut st, USER, format!("c.pool{}.m", i), vec![]).unwrap();
    }
    try_subscribe_alert(&mut st, OTHER, "c.pool3.m".to_string(), vec![]).unwrap();
    try_unsubscribe_alert(&mut st, USER, "c.pool3.m".to_string()).unwrap();
    let all = read_all_subscriptions_for_address(&st, USER, Some(2), Some(OrderBy::Asc));
    let keys: Vec<String> = all.into_iter().map(|s| s.alert_key).collect();
    let expected: Vec<String> =
        [0, 1, 2, 4, 5, 6].iter().map(|i| format!("c.pool{}.m", i)).collect();
    assert_eq!(keys, expected);
    let back = read_all_subscriptions_for_address(&st, USER, Some(3), None);
    assert_eq!(back.len(), 6);
    assert_eq!(back[0].alert_key, "c.pool6.m");
    let theirs = read_all_subscriptions_for_address(&st, OTHER, Some(1), Some(OrderBy::Asc));
    assert_eq!(theirs.len(), 1);
}
