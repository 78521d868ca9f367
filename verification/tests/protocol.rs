use manga_reader_engine::protocol::{
    handler_response, method_not_found_response, parse_error_response, JsonRpcError, JsonRpcRequest, JsonRpcResponse,
    Method,
};
use serde_json::Value;

fn request(params: Option<Value>) -> JsonRpcRequest {
    JsonRpcRequest { jsonrpc: "2.0".to_string(), method: "manga.get".to_string(), id: Value::from(7), params }
}

#[test]
fn methods_are_routed_by_name() {
    assert_eq!(Method::parse("system.ping"), Some(Method::SystemPing));
    assert_eq!(Method::parse("manga.get"), Some(Method::MangaGet));
    assert_eq!(Method::parse("manga.Get"), None);
    assert_eq!(Method::parse(""), None);
}

#[test]
fn error_codes() {
    assert_eq!(JsonRpcError::parse_error().code, -32700);
    assert_eq!(JsonRpcError::invalid_request().code, -32600);
    assert_eq!(JsonRpcError::method_not_found().message, "Method not found");
    assert_eq!(JsonRpcError::internal_error().code, -32603);
    let e = JsonRpcError::internal_error().with_message("boom".to_string()).with_data(Value::from(1));
    assert_eq!((e.code, e.message.as_str(), e.data), (-32603, "boom", Some(Value::from(1))));
}

#[test]
fn unknown_method_response() {
    let r = method_not_found_response(Value::from(3), "nope");
    let e = r.error.unwrap();
    assert_eq!(e.code, -32601);
    assert_eq!(e.message, "Method 'nope' not found");
    assert_eq!(r.id, Some(Value::from(3)));
    assert!(r.result.is_none());
}

#[test]
fn handler_outcomes() {
    let ok = handler_response(Value::from(1), Ok(Value::from("pong")));
    assert_eq!(ok.result, Some(Value::from("pong")));
    assert!(ok.error.is_none());
    let err = handler_response(Value::from(1), Err("db down".to_string()));
    let e = err.error.unwrap();
    assert_eq!((e.code, e.message.as_str()), (-32603, "db down"));
    let parse = parse_error_response("EOF");
    assert_eq!(parse.error.unwrap().message, "Parse error: EOF");
    assert!(parse.id.is_none());
}

#[test]
fn parameters_by_name() {
    let mut params = serde_json::Map::new();
    params.insert("id".to_string(), Value::from(42));
    params.insert("title".to_string(), Value::from("Akira"));
    let req = request(Some(Value::Object(params)));
    assert_eq!(req.param_i64("id"), Ok(42));
    assert_eq!(req.param_str("title"), Ok("Akira".to_string()));
    assert_eq!(req.param_str("id").unwrap_err(), "Missing or invalid parameter: id");
    assert_eq!(req.optional_i64("limit"), None);
    let bare = request(None);
    assert_eq!(bare.param_i64("id").unwrap_err(), "Missing or invalid parameter: id");
}

#[test]
fn responses_carry_version() {
    let r = JsonRpcResponse::success(Some(Value::from(1)), Value::Null);
    assert_eq!(r.jsonrpc, "2.0");
    assert_eq!(r.result, Some(Value::Null));
}
