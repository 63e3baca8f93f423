use alert_registry::models::Subscription;
use alert_registry::store::Store;
use alert_registry::error::ContractError;
use alert_registry::watcher::{
    config, config_read, read_watchers, store_watcher, watcher_limit, OrderBy, State, Watcher,
    WatcherField,
};

fn watcher(key: &str, name: &str) -> Watcher {
    Watcher {
        key: key.to_string(),
        blockchain: "eth".to_string(),
        protocol: "p".to_string(),
        method: "m".to_string(),
        name: name.to_string(),
        description: String::new(),
        fields: vec![WatcherField {
            key: "f".to_string(),
            name: "F".to_string(),
            description: String::new(),
            validation_regex: String::new(),
        }],
    }
}

fn keys(ws: &[Watcher]) -> Vec<String> {
    ws.iter().map(|w| w.key.clone()).collect()
}

#[test]
fn watchers_are_listed_in_key_order() {
    let mut st: Store<Watcher> = Store::new();
    for k in ["b", "a", "d", "c"] {
        store_watcher(&mut st, watcher(k, "w"));
    }
    assert_eq!(keys(&read_watchers(&st, None, None, Some(OrderBy::Asc))), vec!["a", "b", "c", "d"]);
    assert_eq!(keys(&read_watchers(&st, None, None, None)), vec!["d", "c", "b", "a"]);
    assert_eq!(keys(&read_watchers(&st, Some(2), Some(b"b".to_vec()), Some(OrderBy::Asc))), vec!["c", "d"]);
    assert_eq!(keys(&read_watchers(&st, Some(2), Some(b"c".to_vec()), Some(OrderBy::Desc))), vec!["b", "a"]);
    assert!(read_watchers(&st, Some(0), None, None).is_empty());
    assert!(read_watchers(&st, Some(0), None, Some(OrderBy::Asc)).is_empty());
    assert_eq!(read_watchers(&st, Some(1000), None, None).len(), 4);
    assert_eq!(keys(&read_watchers(&st, Some(1), None, None)), vec!["d"]);
}

#[test]
fn storing_a_watcher_again_replaces_it() {
    let mut st: Store<Watcher> = Store::new();
    store_watcher(&mut st, watcher("a", "first"));
    store_watcher(&mut st, watcher("a", "second"));
    let all = read_watchers(&st, None, None, None);
    assert_eq!(all, vec![watcher("a", "second")]);
}

#[test]
fn store_range_respects_prefix_and_bounds() {
    let mut st: Store<Subscription> = Store::new();
    let sub = |k: &str| Subscription { alert_key: k.to_string(), field_values: vec![] };
    st.insert(b"xa".to_vec(), sub("xa"));
    st.insert(b"xc".to_vec(), sub("xc"));
    st.insert(b"xb".to_vec(), sub("xb"));
    st.insert(b"y".to_vec(), sub("y"));
    st.insert(b"x".to_vec(), sub("x"));
    let ks = |v: Vec<Subscription>| v.into_iter().map(|s| s.alert_key).collect::<Vec<_>>();
    assert_eq!(ks(st.range(b"x", &None, &None, false, 10)), vec!["x", "xa", "xb", "xc"]);
    assert_eq!(ks(st.range(b"x", &Some(b"b".to_vec()), &None, false, 10)), vec!["xb", "xc"]);
    assert_eq!(ks(st.range(b"x", &None, &Some(b"b".to_vec()), true, 10)), vec!["xa", "x"]);
    assert_eq!(ks(st.range(b"", &None, &None, true, 2)), vec!["y", "xc"]);
    assert_eq!(st.get(b"xb").map(|s| s.alert_key.clone()), Some("xb".to_string()));
    st.remove(b"xb");
    assert!(st.get(b"xb").is_none());
    st.remove(b"zz");
    let keys: Vec<Vec<u8>> = st.entries().into_iter().map(|(k, _)| k).collect();
    assert_eq!(keys, vec![b"x".to_vec(), b"xa".to_vec(), b"xc".to_vec(), b"y".to_vec()]);
    assert_eq!(ks(st.range(b"", &None, &None, false, 10)), vec!["x", "xa", "xc", "y"]);
}

#[test]
fn watcher_page_size_caps_without_raising() {
    assert_eq!(watcher_limit(None), 10);
    assert_eq!(watcher_limit(Some(0)), 0);
    assert_eq!(watcher_limit(Some(12)), 12);
    assert_eq!(watcher_limit(Some(1000)), 30);
}

#[test]
fn watcher_owner_record() {
    let mut slot: Option<State> = None;
    assert_eq!(config_read(&slot), Err(ContractError::NotInitialized));
    config(&mut slot, State { owner: vec![4, 2] });
    assert_eq!(config_read(&slot), Ok(State { owner: vec![4, 2] }));
}
