use jsontp::client::Request;
use jsontp::model::{Body, JsontpRequest, JsontpResponse, Language, Response};
use jsontp::server::{Handler, Server};
use jsontp::status::categorise;
use jsontp::time::{format_date, DateParts};

fn moment() -> DateParts {
    DateParts { year: 2024, month: 1, day: 2, hour: 15, minute: 4, second: 5 }
}

struct HelloHandler;

impl Handler for HelloHandler {
    fn handle(&self, req: JsontpRequest) -> Response {
        req.to_response(
            Body::new("Hello", "identity", None),
            200,
            None,
            Language::default(),
            None,
        )
    }
}

struct ShoutHandler;

impl Handler for ShoutHandler {
    fn handle(&self, req: JsontpRequest) -> Response {
        req.to_response(
            Body::new("HELLO", "identity", None),
            200,
            None,
            Language::default(),
            None,
        )
    }
}

fn simple_request(method: &str, resource: &str) -> JsontpRequest {
    Request::new().method(method).resource(resource).body("x", "identity").into_inner()
}

fn header_value(w: &JsontpResponse, key: &str) -> Option<String> {
    for (k, v) in &w.headers {
        if k == key {
            if let jsontp::json::JsonValue::Str(s) = v {
                return Some(s.clone());
            }
        }
    }
    None
}

#[test]
fn scenario_root_get_succeeds() {
    let mut server: Server<HelloHandler> = Server::new("hey", "localhost", 8080);
    server.route(String::from("/"), HelloHandler);
    let req = simple_request("GET", "/");
    let w = server.handle_request(req, &moment());
    assert_eq!(w.status.code, 200);
    assert_eq!(w.status.formal_message, "OK");
    assert_eq!(w.status.human_message, "The request has succeeded");
    assert_eq!(w.body.content, "Hello");
    assert_eq!(w.body.encoding, "identity");
    assert_eq!(w.resource, "/");
    assert_eq!(w.jsontp, "1.0-rc1");
    assert_eq!(w.type_of_response, "response");
    assert_eq!(header_value(&w, "language").as_deref(), Some("en-US"));
    assert_eq!(
        header_value(&w, "date").as_deref(),
        Some("2024-01-02T15:04:05Z+0000")
    );
}

#[test]
fn scenario_missing_resource_is_not_found() {
    let mut server: Server<HelloHandler> = Server::new("hey", "localhost", 8080);
    server.route(String::from("/"), HelloHandler);
    let req = simple_request("GET", "/missing");
    let w = server.handle_request(req, &moment());
    assert_eq!(w.status.code, 404);
    assert_eq!(w.status.formal_message, "Not Found");
    assert_eq!(w.body.content, "");
}

#[test]
fn scenario_language_mismatch_is_not_acceptable() {
    let mut server: Server<HelloHandler> = Server::new("hey", "localhost", 8080);
    server.route(String::from("/"), HelloHandler);
    let req = Request::new()
        .method("GET")
        .resource("/")
        .header("accept-language", "fr")
        .body("x", "identity")
        .into_inner();
    let w = server.handle_request(req, &moment());
    assert_eq!(w.status.code, 406);
    assert_eq!(w.body.content, "Language not supported");
}

#[test]
fn matching_language_is_accepted() {
    let mut server: Server<HelloHandler> = Server::new("hey", "localhost", 8080);
    server.route(String::from("/"), HelloHandler);
    let req = Request::new()
        .method("GET")
        .resource("/")
        .header("accept-language", "en")
        .body("x", "identity")
        .into_inner();
    let w = server.handle_request(req, &moment());
    assert_eq!(w.status.code, 200);
    let req = Request::new()
        .method("GET")
        .resource("/")
        .header("accept-language", "*")
        .body("x", "identity")
        .into_inner();
    let w = server.handle_request(req, &moment());
    assert_eq!(w.status.code, 200);
    let req = Request::new()
        .method("GET")
        .resource("/")
        .header("accept-language", "en-US")
        .body("x", "identity")
        .into_inner();
    let w = server.handle_request(req, &moment());
    assert_eq!(w.status.code, 200);
}

#[test]
fn bad_encoding_is_rejected_with_400() {
    let mut server: Server<HelloHandler> = Server::new("hey", "localhost", 8080);
    server.route(String::from("/"), HelloHandler);
    let req = Request::new().method("GET").resource("/").body("x", "zip").into_inner();
    let w = server.handle_request(req, &moment());
    assert_eq!(w.status.code, 400);
    assert_eq!(w.status.formal_message, "Bad Request");
    assert_eq!(w.body.content, "Encoding zip is not allowed");
}

#[test]
fn bad_method_is_rejected_with_400() {
    let server: Server<HelloHandler> = Server::new("hey", "localhost", 8080);
    let req = Request::new().method("FETCH").resource("/").body("x", "identity").into_inner();
    let w = server.handle_request(req, &moment());
    assert_eq!(w.status.code, 400);
    assert_eq!(w.body.content, "Method FETCH is not allowed");
}

#[test]
fn last_registration_wins() {
    let mut server: Server<HelloHandler> = Server::new("hey", "localhost", 8080);
    server.route(String::from("/"), HelloHandler);
    server.route(String::from("/"), HelloHandler);
    assert_eq!(server.route_handlers.len(), 1);
    let mut server2: Server<ShoutHandler> = Server::new("hey", "localhost", 8080);
    server2.route(String::from("/"), ShoutHandler);
    server2.route(String::from("/"), ShoutHandler);
    let req = simple_request("GET", "/");
    let w = server2.handle_request(req, &moment());
    assert_eq!(w.body.content, "HELLO");
}

#[test]
fn error_handler_registration_replaces() {
    let mut server: Server<HelloHandler> = Server::new("hey", "localhost", 8080);
    server.error(500, HelloHandler);
    server.error(500, HelloHandler);
    server.error(404, HelloHandler);
    assert_eq!(server.error_handlers.len(), 2);
}

#[test]
fn revalidation_of_valid_request_succeeds() {
    let req = simple_request("GET", "/");
    assert!(req.validate().is_ok());
    assert!(req.validate().is_ok());
}

#[test]
fn negotiation_verdict_is_repeatable() {
    let req = Request::new()
        .method("GET")
        .resource("/")
        .header("accept-language", "fr")
        .body("x", "identity")
        .into_inner();
    let lang = Language::default();
    let first = jsontp::model::language_acceptable(&req.headers, &lang);
    let second = jsontp::model::language_acceptable(&req.headers, &lang);
    assert_eq!(first, second);
    assert!(!first);
}

#[test]
fn response_status_bounds() {
    let mk = |status: u16| Response::new_manual(
        Body::new("ok", "identity", None),
        status,
        None,
        String::from("/"),
        Language::default(),
        None,
    );
    assert!(mk(100).validate().is_ok());
    assert!(mk(599).validate().is_ok());
    assert_eq!(
        mk(99).validate().unwrap_err(),
        "Status code is not in the range 100-599"
    );
    assert_eq!(
        mk(600).validate().unwrap_err(),
        "Status code is not in the range 100-599"
    );
}

#[test]
fn empty_body_response_becomes_400() {
    let resp = Response::new_manual(
        Body::new("", "identity", None),
        200,
        None,
        String::from("/"),
        Language::default(),
        None,
    );
    let w = resp.to_jsontp_response_at(&moment());
    assert_eq!(w.status.code, 400);
    assert_eq!(w.status.formal_message, "Bad Request");
    assert_eq!(w.status.human_message, "Body is empty");
    // the violation message is the wire body content
    assert_eq!(w.body.content, "Body is empty");
    assert_eq!(w.body.encoding, "identity");
}

struct BadStatusHandler;

impl Handler for BadStatusHandler {
    fn handle(&self, _req: JsontpRequest) -> Response {
        Response::new_manual(
            Body::new("ok", "identity", None),
            99,
            None,
            String::from("/"),
            Language::default(),
            None,
        )
    }
}

#[test]
fn invalid_handler_response_reports_violation_as_content() {
    let mut server: Server<BadStatusHandler> = Server::new("hey", "localhost", 8080);
    server.route(String::from("/"), BadStatusHandler);
    let req = simple_request("GET", "/");
    let w = server.handle_request(req, &moment());
    assert_eq!(w.status.code, 400);
    assert_eq!(w.status.formal_message, "Bad Request");
    assert_eq!(w.body.content, "Status code is not in the range 100-599");
    assert_eq!(w.body.encoding, "identity");
}

#[test]
fn repeated_header_key_keeps_the_last_value() {
    let req = Request::new()
        .method("GET")
        .resource("/")
        .header("k", "first")
        .header("k", "second")
        .header("other", "x")
        .body("x", "identity")
        .into_inner();
    assert_eq!(req.headers.len(), 2);
    assert_eq!(req.headers[0].0, "k");
    match &req.headers[0].1 {
        jsontp::json::JsonValue::Str(s) => assert_eq!(s, "second"),
        _ => panic!("header lost its shape"),
    }
}

#[test]
fn repeated_body_key_keeps_the_last_value() {
    let req = Request::new()
        .method("GET")
        .resource("/")
        .body("x", "identity")
        .body_key("k", "first")
        .body_key("k", "second")
        .into_inner();
    assert_eq!(req.body.other.len(), 1);
    match &req.body.other[0].1 {
        jsontp::json::JsonValue::Str(s) => assert_eq!(s, "second"),
        _ => panic!("field lost its shape"),
    }
}

#[test]
fn injected_headers_replace_declared_ones() {
    let resp = Response::new_manual(
        Body::new("ok", "identity", None),
        200,
        Some(vec![(String::from("session"), String::from("fresh"))]),
        String::from("/"),
        Language::default(),
        Some(vec![
            (String::from("date"), jsontp::json::JsonValue::Str(String::from("stale"))),
            (String::from("session"), jsontp::json::JsonValue::Str(String::from("stale"))),
            (String::from("x-app"), jsontp::json::JsonValue::Str(String::from("kept"))),
        ]),
    );
    let w = resp.to_jsontp_response_at(&moment());
    let mut date_count = 0;
    let mut session_count = 0;
    for (k, _) in &w.headers {
        if k == "date" {
            date_count += 1;
        }
        if k == "session" {
            session_count += 1;
        }
    }
    assert_eq!(date_count, 1);
    assert_eq!(session_count, 1);
    assert_eq!(
        header_value(&w, "date").as_deref(),
        Some("2024-01-02T15:04:05Z+0000")
    );
    assert_eq!(header_value(&w, "session").as_deref(), Some("fresh"));
    assert_eq!(header_value(&w, "x-app").as_deref(), Some("kept"));
}

#[test]
fn cookies_are_flattened_into_headers() {
    let resp = Response::new_manual(
        Body::new("ok", "identity", None),
        200,
        Some(vec![(String::from("session"), String::from("abc"))]),
        String::from("/"),
        Language::default(),
        None,
    );
    let w = resp.to_jsontp_response_at(&moment());
    assert_eq!(header_value(&w, "session").as_deref(), Some("abc"));
    assert_eq!(header_value(&w, "language").as_deref(), Some("en-US"));
}

#[test]
fn unrecognized_status_keeps_its_code() {
    let s = categorise(299);
    assert_eq!(s.code, 299);
    assert_eq!(s.formal_message, "Internal Server Error");
    assert_eq!(s.human_message, "The callback provided an incorrect error code.");
}

#[test]
fn catalog_entries_match() {
    let s = categorise(200);
    assert_eq!(s.code, 200);
    assert_eq!(s.formal_message, "OK");
    let s = categorise(404);
    assert_eq!(s.code, 404);
    assert_eq!(s.formal_message, "Not Found");
    let s = categorise(505);
    assert_eq!(s.formal_message, "jsontp Version Not Supported");
    let s = categorise(100);
    assert_eq!(s.formal_message, "Continue");
    let s = categorise(511);
    assert_eq!(s.formal_message, "Network Authentication Required");
}

#[test]
fn status_renders_code_and_name() {
    let s = categorise(404);
    assert_eq!(s.render(), "404 Not Found");
}

#[test]
fn language_rendering() {
    assert_eq!(Language::default().render(), "en-US");
    let fr = Language { lang: Some(String::from("fr")), locale: None };
    assert_eq!(fr.render(), "fr-FR");
    let none = Language { lang: None, locale: None };
    assert_eq!(none.render(), "en-US");
    let full = Language { lang: Some(String::from("pt")), locale: Some(String::from("BR")) };
    assert_eq!(full.render(), "pt-BR");
}

#[test]
fn builder_sets_all_fields() {
    let req = Request::new()
        .method("GET")
        .resource("/")
        .header("key1", "value1")
        .body("raw text to be sent", "gzip")
        .into_inner();
    assert_eq!(req.method, "GET");
    assert_eq!(req.resource, "/");
    assert_eq!(req.jsontp, "1.0-rc1");
    assert_eq!(req.type_of_request, "request");
    assert_eq!(req.body.content, "raw text to be sent");
    assert_eq!(req.body.encoding, "gzip");
    assert_eq!(req.headers.len(), 1);
    assert_eq!(req.headers[0].0, "key1");
    assert!(req.validate().is_ok());
}

#[test]
fn wire_conversion_with_current_time() {
    let resp = Response::new_manual(
        Body::new("ok", "identity", None),
        200,
        None,
        String::from("/"),
        Language::default(),
        None,
    );
    let w = resp.to_jsontp_response();
    assert_eq!(w.status.code, 200);
    assert_eq!(w.status.formal_message, "OK");
    let date = header_value(&w, "date").expect("a date header is always injected");
    // ISO-8601 with a numeric offset, e.g. 2024-01-02T15:04:05Z+0000
    assert_eq!(date.len(), 25);
    assert_eq!(&date[4..5], "-");
    assert_eq!(&date[10..11], "T");
    assert_eq!(&date[19..25], "Z+0000");
}

#[test]
fn each_request_rule_names_its_field() {
    let valid = simple_request("GET", "/");
    let mut r = valid;
    r.jsontp = String::new();
    assert_eq!(r.validate().unwrap_err(), "Field jsontp is empty");
    let mut r = simple_request("GET", "/");
    r.type_of_request = String::new();
    assert_eq!(r.validate().unwrap_err(), "Field type is empty");
    let mut r = simple_request("GET", "/");
    r.method = String::new();
    assert_eq!(r.validate().unwrap_err(), "Field method is empty");
    let mut r = simple_request("GET", "/");
    r.resource = String::new();
    assert_eq!(r.validate().unwrap_err(), "Field resource is empty");
    let mut r = simple_request("GET", "/");
    r.type_of_request = String::from("query");
    assert_eq!(r.validate().unwrap_err(), "Type query is not allowed");
}

#[test]
fn response_encoding_rules() {
    let mk = |encoding: &str| Response::new_manual(
        Body::new("ok", encoding, None),
        200,
        None,
        String::from("/"),
        Language::default(),
        None,
    );
    assert!(mk("identity").validate().is_ok());
    assert!(mk("gzip").validate().is_ok());
    assert!(mk("deflate").validate().is_ok());
    assert!(mk("br").validate().is_ok());
    assert_eq!(mk("").validate().unwrap_err(), "Body encoding is empty");
    assert_eq!(mk("zip").validate().unwrap_err(), "Body encoding is not allowed");
}

#[test]
fn date_formatting_edges() {
    let d = |year: i32| DateParts { year, month: 12, day: 31, hour: 23, minute: 59, second: 59 };
    assert_eq!(format_date(&d(2024)), "2024-12-31T23:59:59Z+0000");
    assert_eq!(format_date(&d(7)), "0007-12-31T23:59:59Z+0000");
    assert_eq!(format_date(&d(12345)), "12345-12-31T23:59:59Z+0000");
    assert_eq!(format_date(&d(-44)), "-44-12-31T23:59:59Z+0000");
}
