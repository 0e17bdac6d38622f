//! The server: the route table, dispatch, and the per-message step of
//! the connection engine. Stream handling stays with the host program:
//! it reads one frame, hands the bytes here, and writes the reply.

use vstd::prelude::*;

use crate::codec::{encode_response, decode_request_frame, spec_decode_request_frame, spec_prefix,
    spec_encode_response, CodecError};
use crate::json::clone_entries;
use crate::model::{language_acceptable, spec_acceptable, spec_lookup, spec_validate_request,
    spec_wire_of, Body, BodyView, JsontpRequest, JsontpResponse, LangView, Language, RequestView,
    Response, ResponseView, Status, StatusView, WireView};
use crate::text::str_eq;
use crate::time::DateParts;

verus! {

use vstd::string::StringExecFns;
use vstd::utf8::encode_utf8;

/// Application logic behind one resource: turns a request into a
/// response. The engine validates whatever comes back, so nothing is
/// assumed of an implementation.
pub trait Handler {
    fn handle(&self, req: JsontpRequest) -> Response;
}

/// A server: its name, address, protocol version, and the handlers it
/// routes to.
pub struct Server<H> {
    pub name: String,
    pub host: String,
    pub version: String,
    pub port: u16,
    pub route_handlers: Vec<(String, H)>,
    pub error_handlers: Vec<(u16, H)>,
}

/// The position of the first route registered for exactly `resource`.
pub open spec fn spec_find_route<H>(routes: Seq<(String, H)>, resource: Seq<char>) -> Option<int>
    decreases routes.len(),
{
    if routes.len() == 0 {
        None
    } else if routes[0].0@ == resource {
        Some(0int)
    } else {
        match spec_find_route(routes.drop_first(), resource) {
            Some(i) => Some(i + 1),
            None => None,
        }
    }
}

/// What the first-match position means.
pub proof fn lemma_find_route<H>(routes: Seq<(String, H)>, resource: Seq<char>)
    ensures
        match spec_find_route(routes, resource) {
            Some(i) => 0 <= i < routes.len() && routes[i].0@ == resource && (forall|j: int|
                0 <= j < i ==> (#[trigger] routes[j].0)@ != resource),
            None => forall|j: int|
                0 <= j < routes.len() ==> (#[trigger] routes[j].0)@ != resource,
        },
    decreases routes.len(),
{
    if routes.len() > 0 && routes[0].0@ != resource {
        lemma_find_route(routes.drop_first(), resource);
        match spec_find_route(routes.drop_first(), resource) {
            Some(i) => {
                assert(routes.drop_first()[i] == routes[i + 1]);
                assert forall|j: int| 0 <= j < i + 1 implies (#[trigger] routes[j].0)@
                    != resource by {
                    if j > 0 {
                        assert(routes.drop_first()[j - 1] == routes[j]);
                    }
                }
            },
            None => {
                assert forall|j: int| 0 <= j < routes.len() implies (#[trigger] routes[j].0)@
                    != resource by {
                    if j > 0 {
                        assert(routes.drop_first()[j - 1] == routes[j]);
                    }
                }
            },
        }
    }
}

/// The position of the first error handler registered for `code`.
pub open spec fn spec_find_error<H>(handlers: Seq<(u16, H)>, code: u16) -> Option<int>
    decreases handlers.len(),
{
    if handlers.len() == 0 {
        None
    } else if handlers[0].0 == code {
        Some(0int)
    } else {
        match spec_find_error(handlers.drop_first(), code) {
            Some(i) => Some(i + 1),
            None => None,
        }
    }
}

/// What the first-match position means.
pub proof fn lemma_find_error<H>(handlers: Seq<(u16, H)>, code: u16)
    ensures
        match spec_find_error(handlers, code) {
            Some(i) => 0 <= i < handlers.len() && handlers[i].0 == code && (forall|j: int|
                0 <= j < i ==> (#[trigger] handlers[j].0) != code),
            None => forall|j: int|
                0 <= j < handlers.len() ==> (#[trigger] handlers[j].0) != code,
        },
    decreases handlers.len(),
{
    if handlers.len() > 0 && handlers[0].0 != code {
        lemma_find_error(handlers.drop_first(), code);
        match spec_find_error(handlers.drop_first(), code) {
            Some(i) => {
                assert(handlers.drop_first()[i] == handlers[i + 1]);
                assert forall|j: int| 0 <= j < i + 1 implies (#[trigger] handlers[j].0)
                    != code by {
                    if j > 0 {
                        assert(handlers.drop_first()[j - 1] == handlers[j]);
                    }
                }
            },
            None => {
                assert forall|j: int| 0 <= j < handlers.len() implies (#[trigger] handlers[j].0)
                    != code by {
                    if j > 0 {
                        assert(handlers.drop_first()[j - 1] == handlers[j]);
                    }
                }
            },
        }
    }
}

/// The fixed wire response for an unregistered resource: a terminal
/// 404 with an empty body, never negotiated against.
pub open spec fn spec_not_found_wire(resource: Seq<char>) -> WireView {
    WireView {
        jsontp: "1.0-rc1"@,
        type_of_response: "response"@,
        status: StatusView {
            code: 404,
            formal_message: "Not Found"@,
            human_message: "Resource not found"@,
        },
        resource,
        headers: Seq::empty(),
        body: BodyView { content: Seq::empty(), encoding: Seq::empty(), other: Seq::empty() },
    }
}

/// The response the engine reports a request-validation failure with.
pub open spec fn spec_invalid_response(resource: Seq<char>, m: Seq<char>) -> ResponseView {
    ResponseView {
        body: BodyView { content: m, encoding: "identity"@, other: Seq::empty() },
        status: 400,
        cookies: None,
        resource,
        language: LangView { lang: Some("en"@), locale: Some("US"@) },
        headers: None,
    }
}

/// What the engine sends onward after dispatch: the handler's response
/// when the request accepts its language, the fixed 406 rejection
/// otherwise.
pub open spec fn spec_engine_finish(rv: RequestView, resp: ResponseView) -> ResponseView {
    if spec_acceptable(spec_lookup(rv.headers, "accept-language"@), resp.language) {
        resp
    } else {
        ResponseView {
            body: BodyView {
                content: "Language not supported"@,
                encoding: "identity"@,
                other: Seq::empty(),
            },
            status: 406,
            cookies: None,
            resource: rv.resource,
            language: resp.language,
            headers: None,
        }
    }
}

/// What one handled request may produce as its wire response: the
/// exact 400 for an invalid request, the exact 404 for a miss, and
/// otherwise the negotiated, validated and categorized wrapping of
/// whatever response the handler returned.
pub open spec fn spec_handled<H>(
    routes: Seq<(String, H)>,
    rv: RequestView,
    now: DateParts,
    w: WireView,
) -> bool {
    match spec_validate_request(rv) {
        Err(m) => w == spec_wire_of(spec_invalid_response(rv.resource, m), now),
        Ok(()) => match spec_find_route(routes, rv.resource) {
            None => w == spec_not_found_wire(rv.resource),
            Some(_) => exists|resp: ResponseView| w == spec_wire_of(
                #[trigger] spec_engine_finish(rv, resp),
                now,
            ),
        },
    }
}

impl<H: Handler> Server<H> {
    /// A server with the given name, host and port, no routes yet, and
    /// the protocol version this engine speaks.
    pub fn new(name: &str, host: &str, port: u16) -> (r: Server<H>)
        ensures
            r.name@ == name@,
            r.host@ == host@,
            r.version@ == "1.0-rc1"@,
            r.port == port,
            r.route_handlers@ == Seq::<(String, H)>::empty(),
            r.error_handlers@ == Seq::<(u16, H)>::empty(),
    {
        Server {
            name: String::from_str(name),
            host: String::from_str(host),
            version: String::from_str("1.0-rc1"),
            port,
            route_handlers: Vec::new(),
            error_handlers: Vec::new(),
        }
    }

    /// Registers a handler for exactly `route`, replacing any handler
    /// that resource already had: the last write wins.
    pub fn route(&mut self, route: String, handler: H)
        ensures
            final (self).route_handlers@ == match spec_find_route(
                old(self).route_handlers@,
                route@,
            ) {
                Some(i) => old(self).route_handlers@.update(i, (route, handler)),
                None => old(self).route_handlers@.push((route, handler)),
            },
            final (self).error_handlers == old(self).error_handlers,
            final (self).name == old(self).name,
            final (self).host == old(self).host,
            final (self).version == old(self).version,
            final (self).port == old(self).port,
    {
        proof {
            lemma_find_route(self.route_handlers@, route@);
        }
        let mut i: usize = 0;
        while i < self.route_handlers.len()
            invariant
                i <= self.route_handlers@.len(),
                forall|j: int|
                    0 <= j < i ==> (#[trigger] self.route_handlers@[j].0)@ != route@,
                self == old(self),
            decreases self.route_handlers@.len() - i,
        {
            if str_eq(self.route_handlers[i].0.as_str(), route.as_str()) {
                proof {
                    lemma_find_route(self.route_handlers@, route@);
                    match spec_find_route(self.route_handlers@, route@) {
                        Some(ix) => {
                            if ix < i {
                                assert((self.route_handlers@[ix].0)@ != route@);
                            } else if ix > i {
                                assert((self.route_handlers@[i as int].0)@ != route@);
                            }
                        },
                        None => {
                            assert((self.route_handlers@[i as int].0)@ != route@);
                        },
                    }
                }
                self.route_handlers[i] = (route, handler);
                return ;
            }
            i += 1;
        }
        proof {
            lemma_find_route(self.route_handlers@, route@);
            match spec_find_route(self.route_handlers@, route@) {
                Some(ix) => {
                    assert((self.route_handlers@[ix].0)@ != route@);
                },
                None => {},
            }
        }
        self.route_handlers.push((route, handler));
    }

    /// Registers a handler for an error code, replacing any handler
    /// that code already had.
    pub fn error(&mut self, code: u16, handler: H)
        ensures
            final (self).error_handlers@ == match spec_find_error(
                old(self).error_handlers@,
                code,
            ) {
                Some(i) => old(self).error_handlers@.update(i, (code, handler)),
                None => old(self).error_handlers@.push((code, handler)),
            },
            final (self).route_handlers == old(self).route_handlers,
            final (self).name == old(self).name,
            final (self).host == old(self).host,
            final (self).version == old(self).version,
            final (self).port == old(self).port,
    {
        proof {
            lemma_find_error(self.error_handlers@, code);
        }
        let mut i: usize = 0;
        while i < self.error_handlers.len()
            invariant
                i <= self.error_handlers@.len(),
                forall|j: int| 0 <= j < i ==> (#[trigger] self.error_handlers@[j].0) != code,
                self == old(self),
            decreases self.error_handlers@.len() - i,
        {
            if self.error_handlers[i].0 == code {
                proof {
                    lemma_find_error(self.error_handlers@, code);
                    match spec_find_error(self.error_handlers@, code) {
                        Some(ix) => {
                            if ix < i {
                                assert((self.error_handlers@[ix].0) != code);
                            } else if ix > i {
                                assert((self.error_handlers@[i as int].0) != code);
                            }
                        },
                        None => {
                            assert((self.error_handlers@[i as int].0) != code);
                        },
                    }
                }
                self.error_handlers[i] = (code, handler);
                return ;
            }
            i += 1;
        }
        proof {
            lemma_find_error(self.error_handlers@, code);
            match spec_find_error(self.error_handlers@, code) {
                Some(ix) => {
                    assert((self.error_handlers@[ix].0) != code);
                },
                None => {},
            }
        }
        self.error_handlers.push((code, handler));
    }

    /// One request cycle after decoding: validate the request, dispatch
    /// it, negotiate the response's language, validate the response,
    /// and build the final wire response as of the given moment.
    pub fn handle_request(&self, req: JsontpRequest, now: &DateParts) -> (w: JsontpResponse)
        ensures
            spec_handled(self.route_handlers@, req@, *now, w@),
    {
        let ghost rv = req@;
        match req.validate() {
            Err(m) => {
                let resp = Response {
                    body: Body {
                        content: m,
                        encoding: String::from_str("identity"),
                        other: Vec::new(),
                    },
                    status: 400,
                    cookies: None,
                    resource: req.resource.clone(),
                    language: Language::default(),
                    headers: None,
                };
                proof {
                    assert(resp@ =~= spec_invalid_response(rv.resource, m@));
                }
                resp.to_jsontp_response_at(now)
            },
            Ok(()) => {
                proof {
                    lemma_find_route(self.route_handlers@, rv.resource);
                }
                let resource = req.resource.clone();
                let headers_kept = clone_entries(&req.headers);
                let mut i: usize = 0;
                while i < self.route_handlers.len()
                    invariant
                        i <= self.route_handlers@.len(),
                        forall|j: int|
                            0 <= j < i ==> (#[trigger] self.route_handlers@[j].0)@ != rv.resource,
                        resource@ == rv.resource,
                        crate::json::view_obj_from(headers_kept, 0) == rv.headers,
                        spec_validate_request(rv) is Ok,
                        req@ == rv,
                    decreases self.route_handlers@.len() - i,
                {
                    if str_eq(self.route_handlers[i].0.as_str(), resource.as_str()) {
                        proof {
                            lemma_find_route(self.route_handlers@, rv.resource);
                            if spec_find_route(self.route_handlers@, rv.resource) is None {
                                assert((self.route_handlers@[i as int].0)@ != rv.resource);
                            }
                        }
                        let resp = self.route_handlers[i].1.handle(req);
                        let ghost respv = resp@;
                        let finished: Response = if language_acceptable(
                            &headers_kept,
                            &resp.language,
                        ) {
                            resp
                        } else {
                            Response {
                                body: Body::new("Language not supported", "identity", None),
                                status: 406,
                                cookies: None,
                                resource,
                                language: resp.language,
                                headers: None,
                            }
                        };
                        proof {
                            assert(finished@ =~= spec_engine_finish(rv, respv));
                        }
                        let w = finished.to_jsontp_response_at(now);
                        proof {
                            assert(w@ == spec_wire_of(spec_engine_finish(rv, respv), *now));
                        }
                        return w;
                    }
                    i += 1;
                }
                let w = JsontpResponse {
                    jsontp: String::from_str("1.0-rc1"),
                    type_of_response: String::from_str("response"),
                    status: Status {
                        code: 404,
                        formal_message: String::from_str("Not Found"),
                        human_message: String::from_str("Resource not found"),
                    },
                    resource,
                    headers: Vec::new(),
                    body: Body {
                        content: String::new(),
                        encoding: String::new(),
                        other: Vec::new(),
                    },
                };
                proof {
                    lemma_find_route(self.route_handlers@, rv.resource);
                    match spec_find_route(self.route_handlers@, rv.resource) {
                        Some(ix) => {
                            assert((self.route_handlers@[ix].0)@ != rv.resource);
                        },
                        None => {},
                    }
                    crate::json::lemma_view_obj_from(w.headers, 0);
                    crate::json::lemma_view_obj_from(w.body.other, 0);
                    assert(w@ =~= spec_not_found_wire(rv.resource));
                }
                w
            },
        }
    }

    /// One whole message cycle on a buffered frame: decode the request,
    /// handle it, and encode the reply frame. An error is fatal to the
    /// connection and reported for the host to close it.
    pub fn handle_frame(&self, frame: &Vec<u8>, max: u32, now: &DateParts) -> (r: Result<
        Vec<u8>,
        CodecError,
    >)
        ensures
            match spec_decode_request_frame(frame@, max) {
                Ok(rv) => match r {
                    Ok(bytes) => exists|w: WireView|
                        {
                            &&& #[trigger] spec_handled(self.route_handlers@, rv, *now, w)
                            &&& encode_utf8(spec_encode_response(w)).len() <= u32::MAX
                            &&& bytes@ == spec_prefix(
                                encode_utf8(spec_encode_response(w)).len() as u32,
                            ) + encode_utf8(spec_encode_response(w))
                        },
                    Err(e) => e == CodecError::FrameTooLarge && (exists|w: WireView|
                        {
                            &&& #[trigger] spec_handled(self.route_handlers@, rv, *now, w)
                            &&& encode_utf8(spec_encode_response(w)).len() > u32::MAX
                        }),
                },
                Err(e) => r == Err::<Vec<u8>, CodecError>(e),
            },
    {
        let req = match decode_request_frame(frame, max) {
            Ok(req) => req,
            Err(e) => {
                return Err(e);
            },
        };
        let w = self.handle_request(req, now);
        let ghost wv = w@;
        match encode_response(w) {
            Ok(bytes) => {
                proof {
                    assert(spec_handled(self.route_handlers@, req@, *now, wv));
                }
                Ok(bytes)
            },
            Err(e) => {
                proof {
                    assert(spec_handled(self.route_handlers@, req@, *now, wv));
                }
                Err(e)
            },
        }
    }
}

/// Dispatch preserves a handler's response: when the request accepts
/// the response's language and the response is valid, the wire response
/// carries the same body content and encoding, the same numeric status,
/// and the same resource.
pub proof fn lemma_dispatch_preserves(rv: RequestView, resp: ResponseView, now: DateParts)
    requires
        spec_acceptable(spec_lookup(rv.headers, "accept-language"@), resp.language),
        crate::model::spec_validate_response(resp) is Ok,
    ensures
        spec_wire_of(spec_engine_finish(rv, resp), now).body.content == resp.body.content,
        spec_wire_of(spec_engine_finish(rv, resp), now).body.encoding == resp.body.encoding,
        spec_wire_of(spec_engine_finish(rv, resp), now).status.code == resp.status,
        spec_wire_of(spec_engine_finish(rv, resp), now).resource == resp.resource,
{
}

} // verus!
