use aka::codec::{decode_definitions, encode_definitions};
use aka::store::{AliasDefinition, AliasScope};

fn def(command: &str, scope: AliasScope) -> AliasDefinition {
    AliasDefinition { command: command.to_string(), scope }
}

#[test]
fn test_round_trip_plain() {
    let defs = vec![def("echo foo", AliasScope::Global)];
    let text = encode_definitions(&defs);
    assert_eq!(decode_definitions(&text), defs);
}

#[test]
fn test_round_trip_quotes_dollars_and_unicode() {
    let defs = vec![
        def("echo \"hi\" '$1' \\ done", AliasScope::Global),
        def("grep 'naïve' — ページ", AliasScope::Recursive("/ホーム/dir".to_string())),
        def("awk '{print $1}'", AliasScope::Exact("/a b/c".to_string())),
    ];
    let text = encode_definitions(&defs);
    assert_eq!(decode_definitions(&text), defs);
}

#[test]
fn test_round_trip_empty_list() {
    let defs: Vec<AliasDefinition> = Vec::new();
    let text = encode_definitions(&defs);
    assert_eq!(text, "[]");
    assert_eq!(decode_definitions(&text), defs);
}

#[test]
fn test_encoding_is_not_the_input() {
    // The encoder frames and escapes; it never hands the command back alone.
    let defs = vec![def("echo foo", AliasScope::Global)];
    let text = encode_definitions(&defs);
    assert_eq!(
        text,
        "[{\"command\":\"echo foo\",\"scope\":\"Global\"}]"
    );
}

#[test]
fn test_decode_accepts_escapes() {
    let decoded = decode_definitions(
        "[{\"command\":\"line\\none\\ttab\",\"scope\":{\"Exact\":\"/x\"}}]",
    );
    assert_eq!(decoded.len(), 1);
    assert_eq!(decoded[0].command, "line\none\ttab");
    assert_eq!(decoded[0].scope, AliasScope::Exact("/x".to_string()));
}

#[test]
fn test_malformed_text_falls_back_to_raw_command() {
    let raw = "[{\"command\":unquoted}]";
    let decoded = decode_definitions(raw);
    assert_eq!(decoded.len(), 1);
    assert_eq!(decoded[0].command, raw);
    assert_eq!(decoded[0].scope, AliasScope::Global);
}

#[test]
fn test_trailing_garbage_falls_back_to_raw_command() {
    let raw = "[{\"command\":\"x\",\"scope\":\"Global\"}] extra";
    let decoded = decode_definitions(raw);
    assert_eq!(decoded.len(), 1);
    assert_eq!(decoded[0].command, raw);
}

#[test]
fn test_decode_mixed_scope_list() {
    let decoded = decode_definitions(
        "[{\"command\":\"a\",\"scope\":\"Global\"},{\"command\":\"b\",\"scope\":{\"Recursive\":\"/r\"}},{\"command\":\"c\",\"scope\":{\"Exact\":\"/e\"}}]",
    );
    assert_eq!(
        decoded,
        vec![
            def("a", AliasScope::Global),
            def("b", AliasScope::Recursive("/r".to_string())),
            def("c", AliasScope::Exact("/e".to_string())),
        ]
    );
}

#[test]
fn test_decode_accepts_control_escapes() {
    let decoded = decode_definitions(
        "[{\"command\":\"bell\\u0007 esc\\u001b back\\b feed\\f\",\"scope\":\"Global\"}]",
    );
    assert_eq!(decoded.len(), 1);
    assert_eq!(decoded[0].command, "bell\u{7} esc\u{1b} back\u{8} feed\u{c}");
}
