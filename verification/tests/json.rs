use edgefirst_client::json::{is_jsonrpc_error_envelope, JsonValue};

fn text(s: &str) -> JsonValue {
    JsonValue::Text(s.to_string())
}

fn object(members: Vec<(&str, JsonValue)>) -> JsonValue {
    JsonValue::Object(members.into_iter().map(|(k, v)| (k.to_string(), v)).collect())
}

#[test]
fn detects_real_envelope() {
    let v = object(vec![
        ("jsonrpc", text("2.0")),
        ("id", JsonValue::UInt(0)),
        ("error", object(vec![("code", JsonValue::UInt(101)), ("message", text("Cannot find task"))])),
    ]);
    assert!(is_jsonrpc_error_envelope(&v));
}

#[test]
fn rejects_plain_json_artifact_with_error_field() {
    let v = object(vec![
        ("metric", text("loss")),
        ("value", JsonValue::Float(0.42f64.to_bits())),
        ("error", object(vec![("code", text("ENV_NOT_FOUND")), ("message", text("missing var"))])),
    ]);
    assert!(
        !is_jsonrpc_error_envelope(&v),
        "missing jsonrpc sentinel should mean 'not an envelope'"
    );
}

#[test]
fn rejects_envelope_missing_jsonrpc_sentinel() {
    let v = object(vec![
        ("id", JsonValue::UInt(0)),
        ("error", object(vec![("code", JsonValue::UInt(101)), ("message", text("x"))])),
    ]);
    assert!(!is_jsonrpc_error_envelope(&v));
}

#[test]
fn rejects_envelope_with_non_object_error_field() {
    let v = object(vec![("jsonrpc", text("2.0")), ("error", text("something went wrong"))]);
    assert!(!is_jsonrpc_error_envelope(&v));
}

#[test]
fn rejects_envelope_without_error_code() {
    let v = object(vec![
        ("jsonrpc", text("2.0")),
        ("error", object(vec![("message", text("no code"))])),
    ]);
    assert!(!is_jsonrpc_error_envelope(&v));
}

#[test]
fn rejects_envelope_with_non_numeric_error_code() {
    let v = object(vec![
        ("jsonrpc", text("2.0")),
        ("error", object(vec![("code", text("ENOENT")), ("message", text("x"))])),
    ]);
    assert!(!is_jsonrpc_error_envelope(&v));
}

#[test]
fn rejects_non_object_root() {
    let v = JsonValue::Array(vec![JsonValue::UInt(1), JsonValue::UInt(2), JsonValue::UInt(3)]);
    assert!(!is_jsonrpc_error_envelope(&v));
}

#[test]
fn accepts_unsigned_error_code() {
    let v = object(vec![
        ("jsonrpc", text("2.0")),
        ("error", object(vec![("code", JsonValue::UInt(101)), ("message", text("x"))])),
    ]);
    assert!(is_jsonrpc_error_envelope(&v));
}

#[test]
fn accepts_negative_error_code_and_rejects_float_code() {
    let neg = object(vec![
        ("jsonrpc", text("2.0")),
        ("error", object(vec![("code", JsonValue::Int(-32600))])),
    ]);
    assert!(is_jsonrpc_error_envelope(&neg));
    let float = object(vec![
        ("jsonrpc", text("2.0")),
        ("error", object(vec![("code", JsonValue::Float(1.5f64.to_bits()))])),
    ]);
    assert!(!is_jsonrpc_error_envelope(&float));
}
