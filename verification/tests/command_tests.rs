use aka::commands::add::handle_add_command;
use aka::commands::install::install_plan;
use aka::commands::list::{handle_list_command, pad_to_width, visual_width};
use aka::commands::remove::{handle_remove_command, match_scope_in_definitions};
use aka::error::AkaError;
use aka::store::{AliasDefinition, AliasScope, Store};

fn fresh_store(dir: &tempfile::TempDir) -> Store {
    let path = dir.path().join("aka.redb");
    Store::load(path.to_str().unwrap()).unwrap()
}

#[test]
fn test_add_command_message() {
    let dir = tempfile::tempdir().unwrap();
    let mut store = fresh_store(&dir);
    let msg = handle_add_command(&mut store, "foo".to_string(), "echo bar".to_string(), None, false)
        .unwrap();
    assert!(msg.contains("Added alias 'foo' for 'echo bar'"));
}

#[test]
fn test_explicit_flow() {
    let dir = tempfile::tempdir().unwrap();
    let mut store = fresh_store(&dir);

    let empty = handle_list_command(&store, false, "/anywhere", false).unwrap();
    assert!(empty.contains("No aliases found"));

    handle_add_command(&mut store, "foo".to_string(), "echo bar".to_string(), None, false).unwrap();

    let listed = handle_list_command(&store, false, "/anywhere", false).unwrap();
    assert!(listed.contains("foo = 'echo bar'"));

    let removed = handle_remove_command(
        &mut store,
        Some("foo".to_string()),
        false,
        None,
        Ok(String::new()),
    )
    .unwrap();
    assert!(removed.contains("Removed alias 'foo' (1 definitions)"));

    let empty = handle_list_command(&store, false, "/anywhere", false).unwrap();
    assert!(empty.contains("No aliases found"));
}

#[test]
fn test_remove_non_existent() {
    let dir = tempfile::tempdir().unwrap();
    let mut store = fresh_store(&dir);
    match handle_remove_command(&mut store, Some("ghost".to_string()), false, None, Ok(String::new()))
    {
        Err(AkaError::AliasNotFound(a)) => assert_eq!(a, "ghost"),
        other => panic!("Expected AliasNotFound, got {:?}", other.is_ok()),
    }
}

#[test]
fn test_remove_all_with_force() {
    let dir = tempfile::tempdir().unwrap();
    let mut store = fresh_store(&dir);

    store
        .add("foo".to_string(), "echo foo".to_string(), AliasScope::Global)
        .unwrap();
    store
        .add("bar".to_string(), "echo bar".to_string(), AliasScope::Global)
        .unwrap();

    let result = handle_remove_command(&mut store, None, true, None, Ok(String::new()));
    assert!(result.is_ok());
    assert!(result.unwrap().contains("Removed 2 alias(es)"));

    assert!(store.list().unwrap().is_empty());
}

#[test]
fn test_remove_all_flow_empty() {
    let dir = tempfile::tempdir().unwrap();
    let mut store = fresh_store(&dir);
    let msg = handle_remove_command(&mut store, None, true, None, Ok(String::new())).unwrap();
    assert_eq!(msg, "No aliases to remove");
}

#[test]
fn test_remove_all_with_scope_flow() {
    let dir = tempfile::tempdir().unwrap();
    let mut store = fresh_store(&dir);
    store
        .add("foo".to_string(), "echo foo global".to_string(), AliasScope::Global)
        .unwrap();
    store
        .add("bar".to_string(), "echo bar global".to_string(), AliasScope::Global)
        .unwrap();
    store
        .add(
            "baz".to_string(),
            "echo baz scoped".to_string(),
            AliasScope::Exact("/tmp".to_string()),
        )
        .unwrap();

    let msg = handle_remove_command(
        &mut store,
        None,
        true,
        Some("global".to_string()),
        Err("unused".to_string()),
    )
    .unwrap();
    assert!(msg.contains("Removed 2 alias(es) from scope 'global'"));

    let listing = handle_list_command(&store, true, "/", false).unwrap();
    assert!(listing.contains("baz"));
    assert!(!listing.contains("foo"));
    assert!(!listing.contains("bar"));
}

#[test]
fn test_remove_partial_scope_flow() {
    let dir = tempfile::tempdir().unwrap();
    let mut store = fresh_store(&dir);
    store
        .add("foo".to_string(), "echo foo global".to_string(), AliasScope::Global)
        .unwrap();
    store
        .add(
            "foo".to_string(),
            "echo foo scoped".to_string(),
            AliasScope::Exact("/tmp".to_string()),
        )
        .unwrap();

    let msg = handle_remove_command(
        &mut store,
        Some("foo".to_string()),
        false,
        Some("/tmp".to_string()),
        Ok("/tmp".to_string()),
    )
    .unwrap();
    assert!(msg.contains("Removed alias 'foo' from scope"));

    let listing = handle_list_command(&store, true, "/", false).unwrap();
    assert!(listing.contains("foo = 'echo foo global' (Global)"));
}

#[test]
fn test_remove_scope_not_found() {
    let dir = tempfile::tempdir().unwrap();
    let mut store = fresh_store(&dir);
    store
        .add("foo".to_string(), "echo foo".to_string(), AliasScope::Global)
        .unwrap();

    let r = handle_remove_command(
        &mut store,
        Some("foo".to_string()),
        false,
        Some("/nonexistent".to_string()),
        Err("No such file or directory (os error 2)".to_string()),
    );
    match r {
        Err(AkaError::InvalidScopePath(_)) => {},
        other => panic!("Expected InvalidScopePath, got ok={}", other.is_ok()),
    }
}

#[test]
fn test_match_scope_prefers_stored_scope() {
    let defs = vec![
        AliasDefinition {
            command: "x".to_string(),
            scope: AliasScope::Recursive("/tmp".to_string()),
        },
    ];
    let got = match_scope_in_definitions(&defs, "/tmp", &Ok("/tmp".to_string())).unwrap();
    assert_eq!(got, AliasScope::Recursive("/tmp".to_string()));

    let global = match_scope_in_definitions(&defs, "GLOBAL", &Err("ignored".to_string())).unwrap();
    assert_eq!(global, AliasScope::Global);

    match match_scope_in_definitions(&defs, "/other", &Ok("/other".to_string())) {
        Err(AkaError::InvalidScopePath(m)) => {
            assert!(m.contains("No matching scope found for path: /other"))
        },
        other => panic!("Expected InvalidScopePath, got ok={}", other.is_ok()),
    }
}

#[test]
fn test_list_filtering() {
    let dir = tempfile::tempdir().unwrap();
    let mut store = fresh_store(&dir);
    store
        .add("global_alias".to_string(), "echo global".to_string(), AliasScope::Global)
        .unwrap();
    store
        .add(
            "current_exact".to_string(),
            "echo current".to_string(),
            AliasScope::Exact("/work/here".to_string()),
        )
        .unwrap();
    store
        .add(
            "other_exact".to_string(),
            "echo other".to_string(),
            AliasScope::Exact("/elsewhere".to_string()),
        )
        .unwrap();

    let stdout = handle_list_command(&store, false, "/work/here", false).unwrap();
    assert!(stdout.contains("global_alias"), "Missing global alias");
    assert!(stdout.contains("current_exact"), "Missing current scope alias");
    assert!(!stdout.contains("other_exact"), "Should filter out other scope alias");

    let stdout = handle_list_command(&store, true, "/work/here", false).unwrap();
    assert!(stdout.contains("global_alias"));
    assert!(stdout.contains("current_exact"));
    assert!(stdout.contains("other_exact"), "Missing other exact with --all");
}

#[test]
fn test_list_recursive_scope_matches_subdirectories() {
    let dir = tempfile::tempdir().unwrap();
    let mut store = fresh_store(&dir);
    store
        .add(
            "tree".to_string(),
            "echo tree".to_string(),
            AliasScope::Recursive("/work".to_string()),
        )
        .unwrap();

    let inside = handle_list_command(&store, false, "/work/sub/dir", false).unwrap();
    assert!(inside.contains("tree = 'echo tree' (Recursive: /work)"));

    let outside = handle_list_command(&store, false, "/home", false).unwrap();
    assert!(outside.contains("No aliases found"));
}

#[test]
fn test_visual_width_ignores_escape_sequences() {
    assert_eq!(visual_width("plain"), 5);
    assert_eq!(visual_width("\u{1b}[36mcyan\u{1b}[39m"), 4);
    assert_eq!(visual_width(""), 0);
}

#[test]
fn test_pad_to_width() {
    assert_eq!(pad_to_width("ab", 5), "ab   ");
    assert_eq!(pad_to_width("abcdef", 3), "abcdef");
    assert_eq!(pad_to_width("\u{1b}[36mab\u{1b}[39m", 4), "\u{1b}[36mab\u{1b}[39m  ");
}

#[test]
fn test_install_plan() {
    let plan = install_plan("").unwrap();
    assert!(plan.contains("# aka alias manager"));
    assert!(plan.contains("eval \"$(aka init)\""));

    let already = install_plan("x\neval \"$(aka init)\"\ny");
    assert!(already.is_none());
}

#[test]
fn test_invalid_argument_combination() {
    let dir = tempfile::tempdir().unwrap();
    let mut store = fresh_store(&dir);
    match handle_remove_command(
        &mut store,
        Some("x".to_string()),
        true,
        None,
        Ok(String::new()),
    ) {
        Err(AkaError::ConfigError(_)) => {},
        other => panic!("Expected ConfigError, got ok={}", other.is_ok()),
    }
}
