use whiskers::helper::unquote;
use whiskers::postprocess::postprocess;
use whiskers::postprocess::postprocess_with_warnings;

#[test]
fn unquote_wraps_base64_of_the_json_text() {
    let env = unquote(&serde_json::Value::from(42));
    assert_eq!(env, "{WHISKERS:UNQUOTE:NDI}");
}

#[test]
fn number_comes_out_unquoted() {
    let env = unquote(&serde_json::Value::from(42));
    let rendered = format!("size = \"{env}\";");
    assert_eq!(postprocess(&rendered), "size = 42;");
}

#[test]
fn boolean_comes_out_unquoted() {
    let env = unquote(&serde_json::Value::Bool(true));
    let rendered = format!("\"{env}\"");
    assert_eq!(postprocess(&rendered), "true");
}

#[test]
fn string_keeps_its_own_quotes() {
    let env = unquote(&serde_json::Value::String("hello".to_string()));
    let rendered = format!("\"{env}\"");
    assert_eq!(postprocess(&rendered), "\"hello\"");
}

#[test]
fn plain_text_is_left_alone() {
    assert_eq!(postprocess("no markers here"), "no markers here");
    assert_eq!(postprocess(""), "");
}

#[test]
fn corrupt_payload_is_left_untouched() {
    let text = "\"{WHISKERS:UNQUOTE:!!!}\"";
    assert_eq!(postprocess(text), text);
    let full = postprocess_with_warnings(text);
    assert_eq!(full.text, text);
    assert_eq!(full.skipped, vec!["!!!".to_string()]);
}

#[test]
fn several_envelopes_in_one_pass() {
    let a = unquote(&serde_json::Value::from(1));
    let b = unquote(&serde_json::Value::Bool(false));
    let rendered = format!("x = \"{a}\"; y = \"{b}\";");
    let full = postprocess_with_warnings(&rendered);
    assert_eq!(full.text, "x = 1; y = false;");
    assert!(full.skipped.is_empty());
}

#[test]
fn unquoted_marker_without_quotes_is_kept() {
    let env = unquote(&serde_json::Value::from(7));
    assert_eq!(postprocess(&env), env);
}

#[test]
fn decoded_text_is_not_scanned_again() {
    // a payload that decodes to marker-shaped text must not be replaced twice
    let inner = unquote(&serde_json::Value::from(5));
    let outer = unquote(&serde_json::Value::String(format!("\"{inner}\"")));
    let rendered = format!("\"{outer}\"");
    let once = postprocess(&rendered);
    assert_eq!(once, serde_json::to_string(&format!("\"{inner}\"")).unwrap());
}
