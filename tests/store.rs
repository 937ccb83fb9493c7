use pass_secret_service::catalog::Catalog;
use pass_secret_service::index::{search_collection, AttributeIndex, Attributes};
use pass_secret_service::store::SecretStore;

fn attrs(pairs: &[(&str, &str)]) -> Attributes {
    let mut a = Attributes::new();
    for (k, v) in pairs {
        a.insert(k.to_string(), v.to_string());
    }
    a
}

fn sorted(mut v: Vec<String>) -> Vec<String> {
    v.sort();
    v
}

#[test]
fn subset_search_matches_included_pairs_only() {
    let mut idx = AttributeIndex::new();
    idx.create_secret(&"s1".to_string(), None, attrs(&[("a", "1"), ("b", "2"), ("c", "3")]));
    assert_eq!(search_collection(&attrs(&[("a", "1"), ("b", "2")]), &idx), vec!["s1".to_string()]);
    assert!(search_collection(&attrs(&[("a", "1"), ("b", "X")]), &idx).is_empty());
}

#[test]
fn empty_query_finds_nothing() {
    let mut idx = AttributeIndex::new();
    idx.create_secret(&"s1".to_string(), None, attrs(&[("a", "1")]));
    assert!(search_collection(&Attributes::new(), &idx).is_empty());
}

#[test]
fn search_is_not_equality() {
    let mut idx = AttributeIndex::new();
    idx.create_secret(&"s1".to_string(), None, attrs(&[("a", "1")]));
    idx.create_secret(&"s2".to_string(), None, attrs(&[("a", "1"), ("b", "2")]));
    idx.create_secret(&"s3".to_string(), None, attrs(&[("a", "2")]));
    assert_eq!(
        sorted(search_collection(&attrs(&[("a", "1")]), &idx)),
        vec!["s1".to_string(), "s2".to_string()]
    );
    assert_eq!(search_collection(&attrs(&[("a", "1"), ("b", "2")]), &idx), vec!["s2".to_string()]);
}

#[test]
fn set_attrs_replaces_old_edges() {
    let mut idx = AttributeIndex::new();
    let id = "s1".to_string();
    idx.create_secret(&id, Some("L".to_string()), attrs(&[("a", "1")]));
    idx.set_secret_attrs(&id, attrs(&[("a", "2")]));
    assert!(search_collection(&attrs(&[("a", "1")]), &idx).is_empty());
    assert_eq!(search_collection(&attrs(&[("a", "2")]), &idx), vec![id.clone()]);
    assert_eq!(idx.get_secret_label(&id), Some("L".to_string()));
    let read = idx.read_secret_attrs(&id).unwrap();
    assert_eq!(read.get(&"a".to_string()), Some(&"2".to_string()));
}

#[test]
fn default_secret_label() {
    let mut idx = AttributeIndex::new();
    let id = "s1".to_string();
    idx.create_secret(&id, None, Attributes::new());
    assert_eq!(idx.get_secret_label(&id), Some("Untitled Secret".to_string()));
}

#[test]
fn delete_secret_twice_is_fine() {
    let mut store = SecretStore::new();
    let c = store.create_collection(Some("Work".to_string()), None, &"q1w2".to_string());
    let s = "abcdefgh".to_string();
    store.create_secret(&c, &s, None, attrs(&[("k", "v")])).unwrap();
    assert!(store.delete_secret(&c, &s).is_ok());
    assert!(store.delete_secret(&c, &s).is_ok());
    assert!(store.search_collection(&c, &attrs(&[("k", "v")])).unwrap().is_empty());
    assert!(store.read_secret_attrs(&c, &s).is_err());
}

#[test]
fn set_alias_twice_leaves_same_state() {
    let mut cat = Catalog::new();
    let a = "default".to_string();
    cat.set_alias(&a, Some("c1".to_string()));
    let first = (cat.get_alias(&a), cat.list_aliases_for_collection(&"c1".to_string()));
    cat.set_alias(&a, Some("c1".to_string()));
    let second = (cat.get_alias(&a), cat.list_aliases_for_collection(&"c1".to_string()));
    assert_eq!(first, second);
    assert_eq!(second.0, Some("c1".to_string()));
    cat.set_alias(&a, None);
    assert_eq!(cat.get_alias(&a), None);
}

#[test]
fn create_collection_reuses_aliased_collection() {
    let mut cat = Catalog::new();
    let first = cat.create_collection(Some("Login".to_string()), Some("default".to_string()), &"ab12".to_string());
    assert_eq!(first, "login_ab12");
    let again = cat.create_collection(None, Some("default".to_string()), &"zz99".to_string());
    assert_eq!(again, first);
    assert_eq!(cat.get_label(&first), Some("Login".to_string()));
    let relabeled = cat.create_collection(Some("New".to_string()), Some("default".to_string()), &"zz99".to_string());
    assert_eq!(relabeled, first);
    assert_eq!(cat.get_label(&first), Some("New".to_string()));
}

#[test]
fn create_collection_without_label_uses_default() {
    let mut cat = Catalog::new();
    let id = cat.create_collection(None, None, &"x".to_string());
    assert_eq!(id, "untitled_collection_x");
    assert_eq!(cat.get_label(&id), Some("Untitled Collection".to_string()));
}

#[test]
fn alias_moves_between_collections() {
    let mut cat = Catalog::new();
    let c1 = cat.create_collection(Some("One".to_string()), Some("work".to_string()), &"1".to_string());
    cat.set_alias(&"work".to_string(), Some("two_2".to_string()));
    assert!(cat.list_aliases_for_collection(&c1).is_empty());
    assert_eq!(cat.list_aliases_for_collection(&"two_2".to_string()), vec!["work".to_string()]);
}

#[test]
fn delete_collection_drops_aliases_and_label() {
    let mut store = SecretStore::new();
    let c = store.create_collection(Some("Work".to_string()), Some("default".to_string()), &"aa".to_string());
    store.set_alias(&"other".to_string(), Some(c.clone()));
    store.set_alias(&"keep".to_string(), Some("elsewhere".to_string()));
    store.delete_collection(&c);
    assert!(store.get_alias(&"default".to_string()).is_err());
    assert!(store.get_alias(&"other".to_string()).is_err());
    assert_eq!(store.get_alias(&"keep".to_string()).unwrap(), "elsewhere");
    assert!(store.get_label(&c).is_err());
    assert!(store.collections().is_empty());
}

#[test]
fn fresh_store_gets_default_collection() {
    let mut store = SecretStore::new();
    let id = store.ensure_default_collection(&"XXXX".to_string()).unwrap();
    assert_eq!(id, "default_XXXX");
    assert_eq!(store.get_label(&id).unwrap(), "Default");
    assert_eq!(store.get_alias(&"default".to_string()).unwrap(), id);
    assert_eq!(store.ensure_default_collection(&"YYYY".to_string()), None);
}

#[test]
fn unknown_collection_is_not_found() {
    let mut store = SecretStore::new();
    let err = store
        .create_secret(&"nope".to_string(), &"s".to_string(), None, Attributes::new())
        .unwrap_err();
    assert_eq!(err.name(), "org.freedesktop.Secret.Error.NoSuchObject");
    assert!(store.search_collection(&"nope".to_string(), &attrs(&[("a", "1")])).is_err());
}

#[test]
fn search_all_collections_reports_each_collection() {
    let mut store = SecretStore::new();
    let c1 = store.create_collection(Some("One".to_string()), None, &"1".to_string());
    let c2 = store.create_collection(Some("Two".to_string()), None, &"2".to_string());
    store.create_secret(&c1, &"s1".to_string(), None, attrs(&[("k", "v")])).unwrap();
    store.create_secret(&c2, &"s2".to_string(), None, attrs(&[("k", "w")])).unwrap();
    let mut all = store.search_all_collections(&attrs(&[("k", "v")]));
    all.sort();
    assert_eq!(all, vec![(c1, vec!["s1".to_string()]), (c2, vec![])]);
}

#[test]
fn secret_ids_stay_unique() {
    let mut store = SecretStore::new();
    let c = store.create_collection(Some("Work".to_string()), None, &"aa".to_string());
    let s = "abcdefgh".to_string();
    store.create_secret(&c, &s, Some("First".to_string()), attrs(&[("k", "v")])).unwrap();
    let err = store.create_secret(&c, &s, Some("Second".to_string()), attrs(&[("k", "w")])).unwrap_err();
    assert_eq!(err.name(), "org.freedesktop.DBus.Error.IOError");
    assert_eq!(store.get_secret_label(&c, &s).unwrap(), "First");
    assert_eq!(store.search_collection(&c, &attrs(&[("k", "v")])).unwrap(), vec![s]);
}

#[test]
fn search_lists_each_secret_once() {
    let mut idx = AttributeIndex::new();
    let id = "s1".to_string();
    idx.create_secret(&id, None, attrs(&[("a", "1"), ("b", "2")]));
    idx.set_secret_attrs(&id, attrs(&[("a", "1"), ("b", "2")]));
    assert_eq!(search_collection(&attrs(&[("a", "1")]), &idx), vec![id]);
}
