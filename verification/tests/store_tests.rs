use aka::store::{AliasDefinition, AliasScope, Store};

fn get<'a>(
    entries: &'a [(String, Vec<AliasDefinition>)],
    name: &str,
) -> Option<&'a Vec<AliasDefinition>> {
    entries.iter().find(|(k, _)| k == name).map(|(_, v)| v)
}

#[test]
fn test_store_ops() {
    let dir = tempfile::tempdir().unwrap();
    let path = dir.path().join("aka.redb");
    let mut store = Store::load(path.to_str().unwrap()).unwrap();

    store
        .add("foo".to_string(), "echo foo".to_string(), AliasScope::Global)
        .unwrap();

    let aliases = store.list().unwrap();
    let defs = get(&aliases, "foo").unwrap();
    assert_eq!(defs.len(), 1);
    assert_eq!(defs[0].command, "echo foo");
    assert_eq!(defs[0].scope, AliasScope::Global);

    store
        .add(
            "foo".to_string(),
            "echo bar".to_string(),
            AliasScope::Exact("/tmp".to_string()),
        )
        .unwrap();
    let aliases = store.list().unwrap();
    let defs = get(&aliases, "foo").unwrap();
    assert_eq!(defs.len(), 2);

    let removed = store.remove("foo").unwrap();
    assert!(removed.is_some());
    assert_eq!(removed.unwrap().len(), 2);

    let aliases = store.list().unwrap();
    assert!(aliases.is_empty());
}

#[test]
fn test_remove_all() {
    let dir = tempfile::tempdir().unwrap();
    let path = dir.path().join("aka.redb");
    let mut store = Store::load(path.to_str().unwrap()).unwrap();

    store
        .add("foo".to_string(), "echo foo".to_string(), AliasScope::Global)
        .unwrap();
    store
        .add("bar".to_string(), "echo bar".to_string(), AliasScope::Global)
        .unwrap();
    store
        .add(
            "baz".to_string(),
            "echo baz".to_string(),
            AliasScope::Exact("/tmp".to_string()),
        )
        .unwrap();

    let aliases = store.list().unwrap();
    assert_eq!(aliases.len(), 3);

    let count = store.remove_all().unwrap();
    assert_eq!(count, 3);

    let aliases = store.list().unwrap();
    assert!(aliases.is_empty());
}

#[test]
fn test_remove_scope_from_alias_partial() {
    let dir = tempfile::tempdir().unwrap();
    let path = dir.path().join("aka.redb");
    let mut store = Store::load(path.to_str().unwrap()).unwrap();

    store
        .add("foo".to_string(), "echo foo".to_string(), AliasScope::Global)
        .unwrap();
    store
        .add(
            "foo".to_string(),
            "echo bar".to_string(),
            AliasScope::Exact("/tmp".to_string()),
        )
        .unwrap();

    let removed = store
        .remove_scope_from_alias("foo", &AliasScope::Exact("/tmp".to_string()))
        .unwrap();
    assert!(removed.is_some());
    assert_eq!(removed.unwrap().command, "echo bar");

    let aliases = store.list().unwrap();
    let defs = get(&aliases, "foo").unwrap();
    assert_eq!(defs.len(), 1);
    assert_eq!(defs[0].scope, AliasScope::Global);
}

#[test]
fn test_remove_scope_from_alias_complete() {
    let dir = tempfile::tempdir().unwrap();
    let path = dir.path().join("aka.redb");
    let mut store = Store::load(path.to_str().unwrap()).unwrap();

    store
        .add("foo".to_string(), "echo foo".to_string(), AliasScope::Global)
        .unwrap();

    let removed = store
        .remove_scope_from_alias("foo", &AliasScope::Global)
        .unwrap();
    assert!(removed.is_some());

    let aliases = store.list().unwrap();
    assert!(get(&aliases, "foo").is_none());
}

#[test]
fn test_remove_scope_from_alias_not_found() {
    let dir = tempfile::tempdir().unwrap();
    let path = dir.path().join("aka.redb");
    let mut store = Store::load(path.to_str().unwrap()).unwrap();

    store
        .add("foo".to_string(), "echo foo".to_string(), AliasScope::Global)
        .unwrap();

    let removed = store
        .remove_scope_from_alias("foo", &AliasScope::Exact("/tmp".to_string()))
        .unwrap();
    assert!(removed.is_none());

    let aliases = store.list().unwrap();
    let defs = get(&aliases, "foo").unwrap();
    assert_eq!(defs.len(), 1);
}

#[test]
fn test_remove_all_in_scope_global() {
    let dir = tempfile::tempdir().unwrap();
    let path = dir.path().join("aka.redb");
    let mut store = Store::load(path.to_str().unwrap()).unwrap();

    store
        .add("foo".to_string(), "echo foo".to_string(), AliasScope::Global)
        .unwrap();
    store
        .add("bar".to_string(), "echo bar".to_string(), AliasScope::Global)
        .unwrap();
    store
        .add(
            "baz".to_string(),
            "echo baz".to_string(),
            AliasScope::Exact("/tmp".to_string()),
        )
        .unwrap();
    store
        .add(
            "qux".to_string(),
            "echo qux global".to_string(),
            AliasScope::Global,
        )
        .unwrap();
    store
        .add(
            "qux".to_string(),
            "echo qux scoped".to_string(),
            AliasScope::Exact("/tmp".to_string()),
        )
        .unwrap();

    let removed = store.remove_all_in_scope(&AliasScope::Global).unwrap();

    assert_eq!(removed.len(), 3);
    assert!(get(&removed, "foo").is_some());
    assert!(get(&removed, "bar").is_some());
    assert!(get(&removed, "qux").is_some());
    assert_eq!(get(&removed, "foo").unwrap().len(), 1);
    assert_eq!(get(&removed, "qux").unwrap().len(), 1);

    let aliases = store.list().unwrap();
    assert_eq!(aliases.len(), 2);
    assert!(get(&aliases, "baz").is_some());
    assert!(get(&aliases, "qux").is_some());

    let qux_defs = get(&aliases, "qux").unwrap();
    assert_eq!(qux_defs.len(), 1);
    assert_eq!(qux_defs[0].scope, AliasScope::Exact("/tmp".to_string()));
}

#[test]
fn test_persistence() {
    let dir = tempfile::tempdir().unwrap();
    let path = dir.path().join("aka.redb");
    {
        let mut store = Store::load(path.to_str().unwrap()).unwrap();
        store
            .add("ll".to_string(), "ls -la".to_string(), AliasScope::Global)
            .unwrap();
    }
    let store = Store::load(path.to_str().unwrap()).unwrap();
    let aliases = store.list().unwrap();
    let defs = get(&aliases, "ll").unwrap();
    assert_eq!(defs[0].command, "ls -la");
}

#[test]
fn test_legacy_raw_value_reads_as_global() {
    // A value that is not a serialized definition list is one global
    // definition holding the raw value as its command.
    let defs = aka::codec::decode_definitions("ls -la");
    assert_eq!(defs.len(), 1);
    assert_eq!(defs[0].command, "ls -la");
    assert_eq!(defs[0].scope, AliasScope::Global);
}

#[test]
fn test_remove_all_in_scope_leaves_other_scopes() {
    // {a: [Global, Exact(/x)], b: [Global]}: removing the global scope
    // leaves a with only Exact(/x) and deletes b entirely.
    let dir = tempfile::tempdir().unwrap();
    let path = dir.path().join("aka.redb");
    let mut store = Store::load(path.to_str().unwrap()).unwrap();
    store
        .add("a".to_string(), "echo a".to_string(), AliasScope::Global)
        .unwrap();
    store
        .add(
            "a".to_string(),
            "echo ax".to_string(),
            AliasScope::Exact("/x".to_string()),
        )
        .unwrap();
    store
        .add("b".to_string(), "echo b".to_string(), AliasScope::Global)
        .unwrap();

    let removed = store.remove_all_in_scope(&AliasScope::Global).unwrap();
    assert_eq!(removed.len(), 2);

    let aliases = store.list().unwrap();
    assert_eq!(aliases.len(), 1);
    let a_defs = get(&aliases, "a").unwrap();
    assert_eq!(a_defs.len(), 1);
    assert_eq!(a_defs[0].scope, AliasScope::Exact("/x".to_string()));
    assert!(get(&aliases, "b").is_none());
}

#[test]
fn test_add_overwrites_same_scope() {
    // A repeated add for one (name, scope) keeps exactly one definition for
    // that scope, holding the newer command.
    let dir = tempfile::tempdir().unwrap();
    let path = dir.path().join("aka.redb");
    let mut store = Store::load(path.to_str().unwrap()).unwrap();

    store
        .add("t".to_string(), "echo one".to_string(), AliasScope::Global)
        .unwrap();
    store
        .add("t".to_string(), "echo two".to_string(), AliasScope::Global)
        .unwrap();

    let aliases = store.list().unwrap();
    let defs = get(&aliases, "t").unwrap();
    assert_eq!(defs.len(), 1);
    assert_eq!(defs[0].command, "echo two");
    assert_eq!(defs[0].scope, AliasScope::Global);
}

#[test]
fn test_distinct_scopes_accumulate_and_remove_returns_all() {
    // Three adds with three distinct scopes; removing the name returns all
    // three definitions and the name disappears from the listing.
    let dir = tempfile::tempdir().unwrap();
    let path = dir.path().join("aka.redb");
    let mut store = Store::load(path.to_str().unwrap()).unwrap();

    store
        .add("t".to_string(), "echo g".to_string(), AliasScope::Global)
        .unwrap();
    store
        .add(
            "t".to_string(),
            "echo e".to_string(),
            AliasScope::Exact("/a".to_string()),
        )
        .unwrap();
    store
        .add(
            "t".to_string(),
            "echo r".to_string(),
            AliasScope::Recursive("/a".to_string()),
        )
        .unwrap();

    let removed = store.remove("t").unwrap().unwrap();
    assert_eq!(removed.len(), 3);
    assert!(get(&store.list().unwrap(), "t").is_none());
}

#[test]
fn test_load_failure_is_database_error() {
    // A path that is an existing directory cannot be opened as a database
    // file; the failure is the open's own error kind.
    let dir = tempfile::tempdir().unwrap();
    match Store::load(dir.path().to_str().unwrap()) {
        Err(aka::error::AkaError::DatabaseError(_)) => {},
        Err(e) => panic!("Expected DatabaseError, got {:?}", e),
        Ok(_) => panic!("Should have failed"),
    }
}
