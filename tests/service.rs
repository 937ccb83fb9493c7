use pass_secret_service::graph::{collection_path, secret_alias_path, secret_path, session_path, GraphObject, ObjectGraph};
use pass_secret_service::index::Attributes;
use pass_secret_service::service::{alias_from_request, parse_alias_target, Service};
use pass_secret_service::store::SecretStore;

fn attrs(pairs: &[(&str, &str)]) -> Attributes {
    let mut a = Attributes::new();
    for (k, v) in pairs {
        a.insert(k.to_string(), v.to_string());
    }
    a
}

fn item(c: &str, s: &str) -> GraphObject {
    GraphObject::Item { collection: c.to_string(), id: s.to_string() }
}

fn alias_item(a: &str, c: &str, s: &str) -> GraphObject {
    GraphObject::AliasItem { alias: a.to_string(), collection: c.to_string(), id: s.to_string() }
}

fn paths(objs: &[GraphObject]) -> Vec<String> {
    objs.iter().filter_map(|o| o.path()).collect()
}

fn two_collections() -> (Service, String, String) {
    let mut store = SecretStore::new();
    let c1 = store.create_collection(Some("One".to_string()), Some("default".to_string()), &"aaaa".to_string());
    let c2 = store.create_collection(Some("Two".to_string()), None, &"bbbb".to_string());
    let listings = vec![(c1.clone(), vec!["I1".to_string()]), (c2.clone(), vec!["I2".to_string()])];
    let (svc, _, created) = Service::init(store, &listings, &"dflt".to_string());
    assert_eq!(created, None);
    (svc, c1, c2)
}

#[test]
fn fresh_store_default_alias_resolves() {
    let store = SecretStore::new();
    let (svc, _, created) = Service::init(store, &vec![], &"XXXX".to_string());
    let id = created.unwrap();
    assert_eq!(id, "default_XXXX");
    assert!(svc.graph().contains(&GraphObject::Collection { id: id.clone() }));
    assert!(svc.graph().contains(&GraphObject::AliasCollection { alias: "default".to_string(), collection: id.clone() }));
    assert_eq!(svc.read_alias("default"), "/org/freedesktop/secrets/collection/default_XXXX");
    assert_eq!(svc.store().get_label(&id).unwrap(), "Default");
    assert_eq!(svc.read_alias("nothing"), "/");
}

#[test]
fn init_mirrors_aliased_collections() {
    let (svc, c1, c2) = two_collections();
    let g = svc.graph();
    assert!(g.contains(&item(&c1, "I1")));
    assert!(g.contains(&alias_item("default", &c1, "I1")));
    assert!(g.contains(&item(&c2, "I2")));
    assert!(!g.contains(&alias_item("default", &c2, "I2")));
}

#[test]
fn alias_switch_moves_mirrors() {
    let (mut svc, c1, c2) = two_collections();
    let target = collection_path(&c2).unwrap();
    let change = svc.set_alias("default", &target).ok().unwrap();
    assert_eq!(change.previous, Some(c1.clone()));
    let g = svc.graph();
    assert!(!g.contains(&alias_item("default", &c1, "I1")));
    assert!(g.contains(&alias_item("default", &c2, "I2")));
    assert!(g.contains(&GraphObject::AliasCollection { alias: "default".to_string(), collection: c2.clone() }));
    assert!(paths(&change.removed).contains(&"/org/freedesktop/secrets/aliases/default/I1".to_string()));
    assert!(paths(&change.installed).contains(&"/org/freedesktop/secrets/aliases/default/I2".to_string()));
    assert_eq!(svc.store().get_alias(&"default".to_string()).unwrap(), c2);
}

#[test]
fn alias_cleared_with_root_path() {
    let (mut svc, c1, _) = two_collections();
    let change = svc.set_alias("default", "/").ok().unwrap();
    assert_eq!(change.previous, Some(c1.clone()));
    assert!(change.installed.is_empty());
    assert!(!svc.graph().contains(&alias_item("default", &c1, "I1")));
    assert!(svc.store().get_alias(&"default".to_string()).is_err());
}

#[test]
fn alias_to_unknown_path_is_refused() {
    let (mut svc, c1, _) = two_collections();
    assert!(svc.set_alias("default", "/org/freedesktop/secrets/collection/missing_1").is_err());
    assert!(svc.set_alias("default", "/somewhere/else").is_err());
    assert!(svc.graph().contains(&alias_item("default", &c1, "I1")));
}

#[test]
fn created_item_is_mirrored_and_searchable() {
    let (mut svc, c1, _) = two_collections();
    let installed = svc.add_item(&c1, &"NEW1".to_string(), Some("Mail".to_string()), attrs(&[("app", "mail")])).ok().unwrap();
    assert_eq!(
        paths(&installed),
        vec![
            "/org/freedesktop/secrets/aliases/default/NEW1".to_string(),
            "/org/freedesktop/secrets/collection/one_aaaa/NEW1".to_string(),
        ]
    );
    assert!(svc.graph().contains(&item(&c1, "NEW1")));
    assert!(svc.graph().contains(&alias_item("default", &c1, "NEW1")));
    let found = svc.store().search_collection(&c1, &attrs(&[("app", "mail")])).unwrap();
    assert_eq!(found, vec!["NEW1".to_string()]);
    assert_eq!(svc.store().get_secret_label(&c1, &"NEW1".to_string()).unwrap(), "Mail");
}

#[test]
fn deleted_item_leaves_every_path() {
    let (mut svc, c1, _) = two_collections();
    svc.add_item(&c1, &"NEW1".to_string(), None, attrs(&[("app", "mail")])).ok().unwrap();
    let removed = svc.delete_item(&c1, &"NEW1".to_string()).ok().unwrap();
    assert_eq!(removed.len(), 2);
    assert!(!svc.graph().contains(&item(&c1, "NEW1")));
    assert!(!svc.graph().contains(&alias_item("default", &c1, "NEW1")));
    assert!(svc.delete_item(&c1, &"NEW1".to_string()).is_ok());
}

#[test]
fn replace_finds_matching_secret() {
    let (mut svc, c1, _) = two_collections();
    svc.add_item(&c1, &"S1".to_string(), None, attrs(&[("a", "1"), ("b", "2")])).ok().unwrap();
    assert_eq!(svc.find_replacement(&c1, &attrs(&[("a", "1")]), true).unwrap(), Some("S1".to_string()));
    assert_eq!(svc.find_replacement(&c1, &attrs(&[("a", "1")]), false).unwrap(), None);
    assert_eq!(svc.find_replacement(&c1, &attrs(&[("a", "9")]), true).unwrap(), None);
}

#[test]
fn create_collection_with_empty_alias_has_none() {
    let (mut svc, _, _) = two_collections();
    let (id, created, change) = svc.create_collection(Some("Three".to_string()), "", &"cccc".to_string());
    assert!(created);
    assert_eq!(id, "three_cccc");
    assert!(svc.store().list_aliases_for_collection(&id).is_empty());
    assert_eq!(paths(&change.installed), vec!["/org/freedesktop/secrets/collection/three_cccc".to_string()]);
    assert_eq!(alias_from_request(""), None);
    assert_eq!(alias_from_request(" !! "), None);
    assert_eq!(alias_from_request("My Alias"), Some("my_alias".to_string()));
}

#[test]
fn create_collection_with_existing_alias_makes_nothing_new() {
    let (mut svc, c1, _) = two_collections();
    let (id, created, change) = svc.create_collection(Some("Renamed".to_string()), "Default", &"dddd".to_string());
    assert_eq!(id, c1);
    assert!(!created);
    assert!(change.removed.len() == change.installed.len());
    assert_eq!(svc.store().get_label(&c1).unwrap(), "Renamed");
}

#[test]
fn create_collection_takes_alias_from_other() {
    let (mut svc, c1, _) = two_collections();
    let (id, created, _) = svc.create_collection(None, "other", &"eeee".to_string());
    assert!(created);
    let change = svc.set_alias("default", &collection_path(&id).unwrap()).ok().unwrap();
    assert_eq!(change.previous, Some(c1.clone()));
    assert!(!svc.graph().contains(&alias_item("default", &c1, "I1")));
}

#[test]
fn delete_collection_removes_all_paths() {
    let (mut svc, c1, c2) = two_collections();
    let removed = svc.delete_collection(&c1);
    let removed_paths = paths(&removed);
    assert!(removed_paths.contains(&"/org/freedesktop/secrets/collection/one_aaaa".to_string()));
    assert!(removed_paths.contains(&"/org/freedesktop/secrets/collection/one_aaaa/I1".to_string()));
    assert!(removed_paths.contains(&"/org/freedesktop/secrets/aliases/default".to_string()));
    assert!(removed_paths.contains(&"/org/freedesktop/secrets/aliases/default/I1".to_string()));
    assert!(svc.store().get_alias(&"default".to_string()).is_err());
    assert!(svc.graph().contains(&item(&c2, "I2")));
    assert_eq!(svc.read_alias("default"), "/");
}

#[test]
fn lock_targets_follow_paths_and_aliases() {
    let (svc, c1, c2) = two_collections();
    let targets = svc.lock_targets(&vec![
        "/org/freedesktop/secrets/collection/two_bbbb".to_string(),
        "/org/freedesktop/secrets/aliases/default/I1".to_string(),
        "/org/freedesktop/secrets/session/xyz".to_string(),
        "/elsewhere".to_string(),
    ]);
    assert_eq!(targets, vec![c2, c1]);
}

#[test]
fn signal_targets_aliases_then_canonical() {
    let (svc, c1, _) = two_collections();
    let targets = svc.graph().signal_targets(&c1);
    assert_eq!(
        paths(&targets),
        vec![
            "/org/freedesktop/secrets/aliases/default".to_string(),
            "/org/freedesktop/secrets/collection/one_aaaa".to_string(),
        ]
    );
}

#[test]
fn object_paths() {
    let c = "default_ab12".to_string();
    let s = "Q1w2E3r4".to_string();
    assert_eq!(collection_path(&c).unwrap(), "/org/freedesktop/secrets/collection/default_ab12");
    assert_eq!(secret_path(&c, &s).unwrap(), "/org/freedesktop/secrets/collection/default_ab12/Q1w2E3r4");
    assert_eq!(secret_alias_path(&"login".to_string(), &s).unwrap(), "/org/freedesktop/secrets/aliases/login/Q1w2E3r4");
    assert_eq!(session_path(&"abc".to_string()).unwrap(), "/org/freedesktop/secrets/session/abc");
    assert_eq!(collection_path(&"bad/id".to_string()), None);
    assert_eq!(collection_path(&String::new()), None);
}

#[test]
fn alias_target_paths() {
    assert_eq!(parse_alias_target("/"), Some(None));
    assert_eq!(parse_alias_target("/org/freedesktop/secrets/collection/one_aaaa"), Some(Some("one_aaaa".to_string())));
    assert_eq!(parse_alias_target("/org/freedesktop/secrets/collection/"), None);
    assert_eq!(parse_alias_target("/org/freedesktop/secrets/aliases/x"), None);
}

#[test]
fn graph_alias_without_collection_is_refused() {
    let mut g = ObjectGraph::new();
    assert!(g.set_alias(&"a".to_string(), Some(&"c".to_string())).is_err());
    g.add_collection(&"c".to_string());
    g.add_item(&"c".to_string(), &"s".to_string());
    assert!(g.set_alias(&"a".to_string(), Some(&"c".to_string())).is_ok());
    assert!(g.contains(&alias_item("a", "c", "s")));
    assert!(g.add_item(&"c".to_string(), &"s".to_string()).is_empty());
}

#[test]
fn stale_default_alias_gets_a_new_collection() {
    let mut store = SecretStore::new();
    store.set_alias(&"default".to_string(), Some("gone_1".to_string()));
    let (svc, _, created) = Service::init(store, &vec![], &"ZZZZ".to_string());
    assert_eq!(created, Some("default_ZZZZ".to_string()));
    assert_eq!(svc.read_alias("default"), "/org/freedesktop/secrets/collection/default_ZZZZ");
}
