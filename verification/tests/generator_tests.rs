use aka::commands::init::{
    handle_init_command, has_positional_args, prepare_command_body, replace_placeholders,
    sort_definitions,
};
use aka::store::{AliasDefinition, AliasScope, Store};

fn def(command: &str, scope: AliasScope) -> AliasDefinition {
    AliasDefinition { command: command.to_string(), scope }
}

#[test]
fn test_scanner_cases() {
    assert!(!has_positional_args("echo hi"));
    assert!(has_positional_args("echo $1"));
    assert!(!has_positional_args("echo '$1'"));
    assert!(has_positional_args("echo \"$1\""));
    assert!(!has_positional_args("awk '{print $1}'"));
    assert!(!has_positional_args("echo ${name}"));
    assert!(has_positional_args("echo ${2}"));
    assert!(!has_positional_args("echo ${1foo}"));
}

#[test]
fn test_scanner_special_parameters() {
    assert!(has_positional_args("cp $@ /dest"));
    assert!(has_positional_args("echo $*"));
    assert!(has_positional_args("echo $#"));
    assert!(has_positional_args("echo ${@}"));
    assert!(!has_positional_args("echo \\$1"));
    assert!(!has_positional_args("echo $HOME"));
    assert!(!has_positional_args("echo $"));
}

#[test]
fn test_placeholder_rewrite() {
    assert_eq!(replace_placeholders("grep foo @1"), "grep foo $1");
    assert_eq!(replace_placeholders("mail @user"), "mail @user");
    assert_eq!(replace_placeholders("a @1 @2 @x"), "a $1 $2 @x");
    assert_eq!(replace_placeholders("tail@"), "tail@");
}

#[test]
fn test_prepare_command_body_appends_forwarding() {
    assert_eq!(prepare_command_body("echo hi"), "echo hi \"$@\"");
    assert_eq!(prepare_command_body("echo $1"), "echo $1");
    assert_eq!(prepare_command_body("grep foo @1"), "grep foo $1");
    assert_eq!(prepare_command_body("echo $HOME"), "echo $HOME \"$@\"");
    assert_eq!(
        prepare_command_body("awk '{print $1}'"),
        "awk '{print $1}' \"$@\""
    );
}

#[test]
fn test_precedence_order() {
    // Exact before Recursive before Global, in exactly that order.
    let defs = vec![
        def("g", AliasScope::Global),
        def("r", AliasScope::Recursive("/a".to_string())),
        def("e", AliasScope::Exact("/a/b".to_string())),
    ];
    let sorted = sort_definitions(defs);
    assert_eq!(sorted[0].scope, AliasScope::Exact("/a/b".to_string()));
    assert_eq!(sorted[1].scope, AliasScope::Recursive("/a".to_string()));
    assert_eq!(sorted[2].scope, AliasScope::Global);
}

#[test]
fn test_precedence_longer_paths_first() {
    let defs = vec![
        def("outer", AliasScope::Recursive("/a".to_string())),
        def("inner", AliasScope::Recursive("/a/deep".to_string())),
    ];
    let sorted = sort_definitions(defs);
    assert_eq!(sorted[0].command, "inner");
    assert_eq!(sorted[1].command, "outer");
}

#[test]
fn test_dump_emits_branches_in_precedence_order() {
    let dir = tempfile::tempdir().unwrap();
    let path = dir.path().join("aka.redb");
    let mut store = Store::load(path.to_str().unwrap()).unwrap();
    store
        .add("foo".to_string(), "echo global".to_string(), AliasScope::Global)
        .unwrap();
    store
        .add(
            "foo".to_string(),
            "echo scoped".to_string(),
            AliasScope::Recursive("/tmp".to_string()),
        )
        .unwrap();

    let out = handle_init_command(Some(&store), true).unwrap();
    assert!(out.contains("foo() {"));
    assert!(out.contains("if [[ \"$current_dir\" == \"/tmp\"* ]]; then"));
    assert!(out.contains("echo scoped \"$@\""));
    assert!(out.contains("else"));
    assert!(out.contains("echo global \"$@\""));
    let scoped_at = out.find("echo scoped").unwrap();
    let global_at = out.find("echo global").unwrap();
    assert!(scoped_at < global_at);
}

#[test]
fn test_dump_positional_args_substitution() {
    let dir = tempfile::tempdir().unwrap();
    let path = dir.path().join("aka.redb");
    let mut store = Store::load(path.to_str().unwrap()).unwrap();
    store
        .add(
            "grep_foo".to_string(),
            "grep foo @1".to_string(),
            AliasScope::Global,
        )
        .unwrap();

    let out = handle_init_command(Some(&store), true).unwrap();
    assert!(out.contains("grep foo $1"));
    assert!(!out.contains("grep foo $1 \"$@\""));
}

#[test]
fn test_dump_scoped_only_alias_falls_through() {
    // A directory-scoped-only alias must not shadow the real command
    // outside its scope.
    let dir = tempfile::tempdir().unwrap();
    let path = dir.path().join("aka.redb");
    let mut store = Store::load(path.to_str().unwrap()).unwrap();
    store
        .add(
            "ls2".to_string(),
            "ls -la".to_string(),
            AliasScope::Exact("/somewhere".to_string()),
        )
        .unwrap();

    let out = handle_init_command(Some(&store), true).unwrap();
    assert!(out.contains("command ls2 \"$@\""));
    assert!(out.contains("fi"));
}

#[test]
fn test_init_command_outputs() {
    let dir = tempfile::tempdir().unwrap();
    let path = dir.path().join("aka.redb");
    let mut store = Store::load(path.to_str().unwrap()).unwrap();
    store
        .add("hello".to_string(), "echo world".to_string(), AliasScope::Global)
        .unwrap();

    let bootstrap = handle_init_command(None, false).unwrap();
    assert!(bootstrap.contains("eval \"$(command aka init --dump)\""));

    let dump = handle_init_command(Some(&store), true).unwrap();
    assert!(dump.contains("hello"));
    assert!(dump.contains("[[ -o aliases ]]"));
    assert!(dump.contains("export AKA_MANAGED_ALIASES=\"hello\""));
}

#[test]
fn test_arg_detection_edge_cases() {
    let dir = tempfile::tempdir().unwrap();
    let path = dir.path().join("aka.redb");
    let mut store = Store::load(path.to_str().unwrap()).unwrap();
    store
        .add(
            "home_echo".to_string(),
            "echo $HOME".to_string(),
            AliasScope::Global,
        )
        .unwrap();
    store
        .add(
            "myawk".to_string(),
            "awk '{print $1}'".to_string(),
            AliasScope::Global,
        )
        .unwrap();
    store
        .add("explicit".to_string(), "echo $1".to_string(), AliasScope::Global)
        .unwrap();

    let stdout = handle_init_command(Some(&store), true).unwrap();
    assert!(
        stdout.contains("echo $HOME \"$@\""),
        "Failed: home_echo not correct. Output:\n{}",
        stdout
    );
    assert!(
        stdout.contains("awk '{print $1}' \"$@\""),
        "Failed: myawk not correct. Output:\n{}",
        stdout
    );
    assert!(stdout.contains("echo $1"), "Failed: explicit arg not found");
    assert!(
        !stdout.contains("echo $1 \"$@\""),
        "Failed: explicit arg user got extra \"$@\""
    );
}

#[test]
fn test_scanner_backslash_in_single_quotes_is_plain() {
    // Inside single quotes a backslash has no special meaning: the quote
    // after it still closes the quoted region, so the `$1` behind it counts.
    assert!(has_positional_args("echo '\\' $1"));
    // Outside single quotes a backslash consumes the next character.
    assert!(!has_positional_args("echo \\$1"));
}
