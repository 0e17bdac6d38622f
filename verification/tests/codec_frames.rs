use jsontp::client::Request;
use jsontp::codec::{
    check_frame_size, decode_request, decode_request_frame, decode_response, encode_request,
    encode_response, make_prefix, read_prefix, CodecError,
};
use jsontp::json::JsonValue;
use jsontp::model::{Body, JsontpRequest, Language, Response};
use jsontp::server::{Handler, Server};
use jsontp::time::DateParts;

fn moment() -> DateParts {
    DateParts { year: 2024, month: 1, day: 2, hour: 15, minute: 4, second: 5 }
}

struct HelloHandler;

impl Handler for HelloHandler {
    fn handle(&self, req: JsontpRequest) -> Response {
        req.to_response(
            Body::new("Hello", "identity", None),
            200,
            None,
            Language::default(),
            None,
        )
    }
}

fn assert_requests_equal(a: &JsontpRequest, b: &JsontpRequest) {
    assert_eq!(a.jsontp, b.jsontp);
    assert_eq!(a.type_of_request, b.type_of_request);
    assert_eq!(a.method, b.method);
    assert_eq!(a.resource, b.resource);
    assert_eq!(a.body.content, b.body.content);
    assert_eq!(a.body.encoding, b.body.encoding);
    assert_eq!(a.headers.len(), b.headers.len());
    for i in 0..a.headers.len() {
        assert_eq!(a.headers[i].0, b.headers[i].0);
    }
    assert_eq!(a.body.other.len(), b.body.other.len());
    for i in 0..a.body.other.len() {
        assert_eq!(a.body.other[i].0, b.body.other[i].0);
    }
}

#[test]
fn prefix_round_trip() {
    let p = make_prefix(0x01020304);
    assert_eq!(p, vec![1u8, 2, 3, 4]);
    assert_eq!(read_prefix(&p), Some(0x01020304));
    let p = make_prefix(0);
    assert_eq!(read_prefix(&p), Some(0));
    let p = make_prefix(u32::MAX);
    assert_eq!(read_prefix(&p), Some(u32::MAX));
    assert_eq!(read_prefix(&vec![1u8, 2, 3]), None);
}

#[test]
fn oversize_frames_are_refused() {
    assert_eq!(check_frame_size(10, 1024), Ok(()));
    assert_eq!(check_frame_size(1025, 1024), Err(CodecError::FrameTooLarge));
}

#[test]
fn request_round_trip_plain() {
    let req = Request::new()
        .method("POST")
        .resource("/things")
        .header("key1", "value1")
        .body("raw text to be sent", "gzip")
        .into_inner();
    let frame = encode_request(req).unwrap();
    let back = decode_request_frame(&frame, 1 << 20).unwrap();
    let again = Request::new()
        .method("POST")
        .resource("/things")
        .header("key1", "value1")
        .body("raw text to be sent", "gzip")
        .into_inner();
    assert_requests_equal(&back, &again);
}

#[test]
fn request_round_trip_awkward_content() {
    let content = "line1\nline2\t\"quoted\" back\\slash \u{1F980} caf\u{e9} \u{0} end";
    let req = Request::new()
        .method("PUT")
        .resource("/caf\u{e9}/menu")
        .header("x-note", "a\"b\\c\nd")
        .body(content, "identity")
        .body_key("extra", "{not json}")
        .into_inner();
    let frame = encode_request(req).unwrap();
    let back = decode_request_frame(&frame, 1 << 20).unwrap();
    assert_eq!(back.body.content, content);
    assert_eq!(back.resource, "/caf\u{e9}/menu");
    assert_eq!(back.headers[0].0, "x-note");
    match &back.headers[0].1 {
        JsonValue::Str(s) => assert_eq!(s, "a\"b\\c\nd"),
        _ => panic!("header lost its shape"),
    }
    match &back.body.other[0].1 {
        JsonValue::Str(s) => assert_eq!(s, "{not json}"),
        _ => panic!("extra field lost its shape"),
    }
}

#[test]
fn request_round_trip_large_payload() {
    let content = "abcdefgh".repeat(4096);
    let req = Request::new().method("POST").resource("/bulk").body(&content, "identity").into_inner();
    let frame = encode_request(req).unwrap();
    assert!(frame.len() > 8192);
    let back = decode_request_frame(&frame, 1 << 20).unwrap();
    assert_eq!(back.body.content, content);
}

#[test]
fn response_round_trip() {
    let resp = Response::new_manual(
        Body::new("payload", "identity", None),
        200,
        Some(vec![(String::from("session"), String::from("abc"))]),
        String::from("/x"),
        Language::default(),
        None,
    );
    let w = resp.to_jsontp_response_at(&moment());
    let frame = encode_response(w).unwrap();
    assert!(frame.len() > 4);
    let n = read_prefix(&frame[0..4].to_vec()).unwrap() as usize;
    assert_eq!(frame.len(), 4 + n);
    let back = decode_response(frame[4..].to_vec()).unwrap();
    assert_eq!(back.status.code, 200);
    assert_eq!(back.status.formal_message, "OK");
    assert_eq!(back.body.content, "payload");
    assert_eq!(back.resource, "/x");
    assert_eq!(back.jsontp, "1.0-rc1");
    assert_eq!(back.type_of_response, "response");
}

#[test]
fn declared_length_beyond_maximum_is_frame_error() {
    let good = Request::new().method("GET").resource("/").body("x", "identity").into_inner();
    let frame = encode_request(good).unwrap();
    // one message decodes fine first
    assert!(decode_request_frame(&frame, 1 << 20).is_ok());
    // then a frame declaring more than the maximum is refused, and the
    // earlier success is unaffected
    let mut huge = make_prefix(1 << 21);
    huge.extend_from_slice(&[0u8; 8]);
    assert!(matches!(
        decode_request_frame(&huge, 1 << 20),
        Err(CodecError::FrameTooLarge)
    ));
    assert!(decode_request_frame(&frame, 1 << 20).is_ok());
}

#[test]
fn truncated_frames_mean_the_connection_closed() {
    assert!(matches!(
        decode_request_frame(&vec![0u8, 0], 1024),
        Err(CodecError::ConnectionClosed)
    ));
    let mut frame = make_prefix(10);
    frame.extend_from_slice(&[b'x'; 4]);
    assert!(matches!(
        decode_request_frame(&frame, 1024),
        Err(CodecError::ConnectionClosed)
    ));
}

#[test]
fn malformed_payloads_are_refused() {
    assert!(matches!(
        decode_request(b"{not json".to_vec()),
        Err(CodecError::MalformedPayload)
    ));
    assert!(matches!(
        decode_request(b"[1,2,3]".to_vec()),
        Err(CodecError::MalformedPayload)
    ));
    assert!(matches!(
        decode_request(vec![0xff, 0xfe]),
        Err(CodecError::MalformedPayload)
    ));
    assert!(matches!(
        decode_request(b"{\"jsontp\":\"1.0-rc1\"}".to_vec()),
        Err(CodecError::MalformedPayload)
    ));
}

#[test]
fn engine_answers_a_framed_request() {
    let mut server: Server<HelloHandler> = Server::new("hey", "localhost", 8080);
    server.route(String::from("/"), HelloHandler);
    let req = Request::new().method("GET").resource("/").body("x", "identity").into_inner();
    let frame = encode_request(req).unwrap();
    let reply = server.handle_frame(&frame, 1 << 20, &moment()).unwrap();
    let n = read_prefix(&reply[0..4].to_vec()).unwrap() as usize;
    assert_eq!(reply.len(), 4 + n);
    let w = decode_response(reply[4..].to_vec()).unwrap();
    assert_eq!(w.status.code, 200);
    assert_eq!(w.body.content, "Hello");
}

#[test]
fn engine_reports_fatal_codec_errors() {
    let server: Server<HelloHandler> = Server::new("hey", "localhost", 8080);
    let mut huge = make_prefix(1 << 21);
    huge.extend_from_slice(&[0u8; 8]);
    assert_eq!(
        server.handle_frame(&huge, 1 << 20, &moment()),
        Err(CodecError::FrameTooLarge)
    );
    assert_eq!(
        server.handle_frame(&vec![0u8], 1 << 20, &moment()),
        Err(CodecError::ConnectionClosed)
    );
}

#[test]
fn decoded_requests_still_validate() {
    // decoding checks shape, not rules: a bad method survives the codec
    // and is rejected by validation
    let req = Request::new().method("FETCH").resource("/").body("x", "identity").into_inner();
    let frame = encode_request(req).unwrap();
    let back = decode_request_frame(&frame, 1 << 20).unwrap();
    assert_eq!(back.validate().unwrap_err(), "Method FETCH is not allowed");
}
