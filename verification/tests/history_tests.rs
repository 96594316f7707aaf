use aka::commands::history::parse_history_line;

#[test]
fn test_parse_history_line_zsh_extended() {
    let line = ": 1700000000:0;git status";
    let parsed = parse_history_line(line);
    assert_eq!(parsed, Some("git status".to_string()));
}

#[test]
fn test_parse_history_line_bash_timestamp() {
    let line = "#1700000000";
    let parsed = parse_history_line(line);
    assert_eq!(parsed, None);
}

#[test]
fn test_parse_history_line_plain() {
    assert_eq!(parse_history_line("ls -la"), Some("ls -la".to_string()));
    assert_eq!(
        parse_history_line("#not all digits"),
        Some("#not all digits".to_string())
    );
    assert_eq!(parse_history_line(": 1;a;b"), Some("a;b".to_string()));
}
