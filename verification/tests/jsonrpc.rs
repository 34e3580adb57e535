use ls_server::json::{self, Json};
use ls_server::jsonrpc::{
    error_codes, frame as framed, frame_need, header_value, parse_incoming, read_frame, write_frame,
    write_null_id_error, write_response, FrameError, FrameNeed, Incoming, Notification, RequestId, Response, ResponseError,
};
use serde_json::Value;

fn frame(body: &str) -> Vec<u8> {
    format!("Content-Length: {}\r\n\r\n{}", body.len(), body).into_bytes()
}

fn parse(text: &str) -> Json {
    json::decode(text.as_bytes()).unwrap()
}

fn value_of(json: &Json) -> Value {
    serde_json::from_slice(&json::encode(json)).unwrap()
}

#[test]
fn write_then_read_round_trips_a_response() {
    let response = Response::success(RequestId::Number(7), parse(r#"{"ok": true}"#));
    let buffer = write_frame(&response.to_json());

    let (body, used) = read_frame(&buffer).unwrap().unwrap();
    let value: Value = serde_json::from_slice(&body).unwrap();
    assert_eq!(value["jsonrpc"], "2.0");
    assert_eq!(value["id"], 7);
    assert_eq!(value["result"]["ok"], true);
    assert!(value.get("error").is_none());
    assert!(read_frame(&buffer[used..]).unwrap().is_none());
}

#[test]
fn a_null_result_is_serialized_present() {
    let buffer = write_frame(&Response::success(RequestId::Number(1), Json::Null).to_json());
    let text = String::from_utf8(buffer).unwrap();
    assert!(text.contains("\"result\":null"), "{text}");
    assert!(!text.contains("error"), "{text}");
}

#[test]
fn reads_two_concatenated_messages_then_eof() {
    let mut bytes = frame(r#"{"jsonrpc":"2.0","id":1,"method":"initialize","params":{}}"#);
    bytes.extend(frame(r#"{"jsonrpc":"2.0","method":"exit"}"#));

    let (body, used) = read_frame(&bytes).unwrap().unwrap();
    match parse_incoming(&body).unwrap() {
        Incoming::Request(r) => {
            assert_eq!(r.id, RequestId::Number(1));
            assert_eq!(r.method, "initialize");
        }
        other => panic!("expected a request, got {other:?}"),
    }
    let (body, more) = read_frame(&bytes[used..]).unwrap().unwrap();
    let second = parse_incoming(&body).unwrap();
    assert_eq!(
        second,
        Incoming::Notification(Notification {
            method: "exit".to_string(),
            params: Json::Null,
        })
    );
    assert!(read_frame(&bytes[used + more..]).unwrap().is_none());
}

#[test]
fn a_string_id_request_parses() {
    let body = r#"{"jsonrpc":"2.0","id":"abc","method":"shutdown"}"#;
    match parse_incoming(body.as_bytes()).unwrap() {
        Incoming::Request(r) => assert_eq!(r.id, RequestId::String("abc".to_string())),
        other => panic!("expected a request, got {other:?}"),
    }
}

#[test]
fn a_null_id_is_a_notification() {
    let body = r#"{"jsonrpc":"2.0","id":null,"method":"initialized","params":{}}"#;
    assert!(matches!(
        parse_incoming(body.as_bytes()).unwrap(),
        Incoming::Notification(_)
    ));
}

#[test]
fn missing_content_length_is_an_error() {
    assert!(read_frame(b"Content-Type: x\r\n\r\n{}").is_err());
}

#[test]
fn header_names_are_case_insensitive() {
    let (body, _) = read_frame(b"content-length: 2\r\n\r\n{}").unwrap().unwrap();
    assert_eq!(body, b"{}");
}

#[test]
fn invalid_json_is_a_parse_error() {
    let err = parse_incoming(b"not json").unwrap_err();
    assert_eq!(err.code, error_codes::PARSE_ERROR);
}

#[test]
fn a_message_without_a_method_is_an_invalid_request() {
    let err = parse_incoming(br#"{"jsonrpc":"2.0","id":1}"#).unwrap_err();
    assert_eq!(err.code, error_codes::INVALID_REQUEST);
}

#[test]
fn an_id_result_frame_without_a_method_is_a_client_response() {
    let body = r#"{"jsonrpc":"2.0","id":7,"result":{"ok":true}}"#;
    match parse_incoming(body.as_bytes()).unwrap() {
        Incoming::Response(response) => {
            assert_eq!(response.id, Some(RequestId::Number(7)));
            assert_eq!(response.result, Some(parse(r#"{ "ok": true }"#)));
            assert_eq!(response.error, None);
        }
        other => panic!("expected a client response, got {other:?}"),
    }
}

#[test]
fn an_id_error_frame_without_a_method_is_a_client_response() {
    let body = r#"{"jsonrpc":"2.0","id":"r1","error":{"code":-32601,"message":"nope"}}"#;
    match parse_incoming(body.as_bytes()).unwrap() {
        Incoming::Response(response) => {
            assert_eq!(response.id, Some(RequestId::String("r1".to_string())));
            assert_eq!(response.result, None);
            assert_eq!(value_of(&response.error.unwrap())["code"], -32601);
        }
        other => panic!("expected a client response, got {other:?}"),
    }
}

#[test]
fn each_malformed_frame_has_its_error() {
    assert_eq!(read_frame(b"Content-Length: 2\r\n"), Err(FrameError::HeaderCut));
    assert_eq!(read_frame(b"X: \xff\r\n\r\n"), Err(FrameError::HeaderNotText));
    assert_eq!(
        read_frame(b"Content-Length: two\r\n\r\n{}"),
        Err(FrameError::InvalidLength)
    );
    assert_eq!(read_frame(b"X: y\r\n\r\n{}"), Err(FrameError::MissingLength));
    assert_eq!(read_frame(b"Content-Length: 3\r\n\r\n{}"), Err(FrameError::BodyCut));
    assert_eq!(read_frame(b""), Ok(None));
}

#[test]
fn a_frame_is_read_back_as_the_body_it_holds() {
    let bytes = framed(b"{\"a\":1}");
    assert_eq!(bytes, b"Content-Length: 7\r\n\r\n{\"a\":1}");
    assert_eq!(read_frame(&bytes), Ok(Some((b"{\"a\":1}".to_vec(), bytes.len()))));
}

#[test]
fn a_header_name_is_trimmed_and_has_any_case_and_its_value_is_the_rest() {
    assert_eq!(
        header_value(" CONTENT-length :  12 ", "Content-Length").as_deref(),
        Some("  12 ")
    );
    assert_eq!(header_value("Content-Type: x", "Content-Length"), None);
    assert_eq!(header_value("no colon", "Content-Length"), None);
}

#[test]
fn an_error_without_a_request_has_a_null_id() {
    let bytes = write_null_id_error(&ResponseError::new(-32700, "bad"));
    let (body, _) = read_frame(&bytes).unwrap().unwrap();
    let value: Value = serde_json::from_slice(&body).unwrap();
    assert_eq!(value["id"], Value::Null);
    assert!(value.get("id").is_some());
    assert_eq!(value["error"]["code"], -32700);
    assert_eq!(value["error"]["message"], "bad");
    assert!(value["error"].get("data").is_none());
}

#[test]
fn a_failure_has_an_error_and_no_result() {
    let response = Response::failure(
        RequestId::String("s".to_string()),
        ResponseError::new(-32601, "nope"),
    );
    let value = value_of(&response.to_json());
    assert_eq!(value["id"], "s");
    assert_eq!(value["error"]["code"], -32601);
    assert!(value.get("result").is_none());
}

#[test]
fn a_plain_value_is_read_back_as_it_was_printed() {
    let value = parse(r#"{"text":"é\n","list":[1,-2,true,null],"inner":{"k":""}}"#);
    assert_eq!(json::decode(&json::encode(&value)), Ok(value));
}

#[test]
fn a_frame_is_read_on_demand() {
    assert_eq!(frame_need(b""), FrameNeed::Line);
    assert_eq!(frame_need(b"Content-Len"), FrameNeed::Line);
    assert_eq!(frame_need(b"Content-Length: 3\r\n"), FrameNeed::Line);
    assert_eq!(frame_need(b"Content-Length: 3\r\n\r\n"), FrameNeed::Bytes(3));
    assert_eq!(frame_need(b"Content-Length: 3\r\n\r\nab"), FrameNeed::Bytes(1));
    assert_eq!(frame_need(b"Content-Length: 3\r\n\r\nabc"), FrameNeed::Nothing);
    assert_eq!(frame_need(b"Content-Length: two\r\n"), FrameNeed::Nothing);
    assert_eq!(frame_need(b"X: \xff\r\n"), FrameNeed::Nothing);
    assert_eq!(frame_need(b"X: \xff"), FrameNeed::Line);
    assert_eq!(frame_need(b"\r\n"), FrameNeed::Nothing);

    let stream = [frame("{}"), frame("[1,2]")].concat();
    let mut at = 0;
    let mut bodies = Vec::new();
    while at < stream.len() {
        let mut read = Vec::new();
        while frame_need(&read) != FrameNeed::Nothing {
            read.push(stream[at]);
            at += 1;
        }
        bodies.push(read_frame(&read).unwrap().unwrap().0);
    }
    assert_eq!(bodies, vec![b"{}".to_vec(), b"[1,2]".to_vec()]);
}

#[test]
fn sorting_a_value_orders_the_names_at_every_depth() {
    let value = parse(r#"{"b": [{"d": 1, "c": {"f": 1, "e": 2}}], "a": 0}"#);
    let text = |json: &Json| String::from_utf8(json::encode(json)).unwrap();
    assert_eq!(text(&value), r#"{"b":[{"d":1,"c":{"f":1,"e":2}}],"a":0}"#);
    let sorted = value.sorted();
    assert_eq!(text(&sorted), r#"{"a":0,"b":[{"c":{"e":2,"f":1},"d":1}]}"#);
    assert_eq!(sorted.sorted(), sorted);
    assert_eq!(json::decode(&json::encode(&value)), Ok(value));
    assert_eq!(json::decode(&json::encode(&sorted)), Ok(sorted));
}

#[test]
fn a_written_response_is_read_back() {
    let response = Response::success(RequestId::Number(-4), parse(r#"{"z": [], "a": "x"}"#));
    let bytes = write_response(&response);
    let (body, _) = read_frame(&bytes).unwrap().unwrap();
    assert_eq!(
        String::from_utf8(body.clone()).unwrap(),
        r#"{"jsonrpc":"2.0","id":-4,"result":{"a":"x","z":[]}}"#
    );
    assert_eq!(json::decode(&body), Ok(response.to_json()));
}
