//! The client-side request builder. Sending over a stream stays with
//! the host program: it encodes the built request with the codec and
//! writes the frame.

use vstd::prelude::*;

use crate::json::{lemma_view_obj_from, set_entry, spec_set_entry, JsonVal, JsonValue};
use crate::model::{Body, BodyView, JsontpRequest, RequestView};

verus! {

use vstd::string::StringExecFns;

/// A request under construction.
pub struct Request {
    pub inner: JsontpRequest,
}

impl Request {
    /// A fresh request: a GET for `/` with an empty identity body.
    pub fn new() -> (r: Request)
        ensures
            r.inner@ == (RequestView {
                jsontp: "1.0-rc1"@,
                type_of_request: "request"@,
                method: "GET"@,
                resource: "/"@,
                headers: Seq::empty(),
                body: BodyView {
                    content: Seq::empty(),
                    encoding: "identity"@,
                    other: Seq::empty(),
                },
            }),
    {
        let inner = JsontpRequest {
            jsontp: String::from_str("1.0-rc1"),
            type_of_request: String::from_str("request"),
            method: String::from_str("GET"),
            resource: String::from_str("/"),
            headers: Vec::new(),
            body: Body::new("", "identity", None),
        };
        proof {
            reveal_strlit("");
            lemma_view_obj_from(inner.headers, 0);
            assert(inner@ =~~= RequestView {
                jsontp: "1.0-rc1"@,
                type_of_request: "request"@,
                method: "GET"@,
                resource: "/"@,
                headers: Seq::empty(),
                body: BodyView {
                    content: Seq::empty(),
                    encoding: "identity"@,
                    other: Seq::empty(),
                },
            });
        }
        Request { inner }
    }

    /// Sets the method.
    pub fn method(self, method: &str) -> (r: Request)
        ensures
            r.inner@ == (RequestView { method: method@, ..self.inner@ }),
    {
        let r = Request {
            inner: JsontpRequest { method: String::from_str(method), ..self.inner },
        };
        proof {
            assert(r.inner@ =~= RequestView { method: method@, ..self.inner@ });
        }
        r
    }

    /// Sets the target resource.
    pub fn resource(self, resource: &str) -> (r: Request)
        ensures
            r.inner@ == (RequestView { resource: resource@, ..self.inner@ }),
    {
        let r = Request {
            inner: JsontpRequest { resource: String::from_str(resource), ..self.inner },
        };
        proof {
            assert(r.inner@ =~= RequestView { resource: resource@, ..self.inner@ });
        }
        r
    }

    /// Sets a header: the entry the key already has is replaced, else
    /// the entry is added — the last write wins.
    pub fn header(self, key: &str, value: &str) -> (r: Request)
        ensures
            r.inner@ == (RequestView {
                headers: spec_set_entry(self.inner@.headers, key@, JsonVal::Str(value@)),
                ..self.inner@
            }),
    {
        let ghost sv = self.inner@;
        let mut inner = self.inner;
        set_entry(
            &mut inner.headers,
            String::from_str(key),
            JsonValue::Str(String::from_str(value)),
        );
        proof {
            assert(inner@ =~= RequestView {
                headers: spec_set_entry(sv.headers, key@, JsonVal::Str(value@)),
                ..sv
            });
        }
        Request { inner }
    }

    /// Sets the body's content and encoding, keeping its extra fields.
    pub fn body(self, content: &str, encoding: &str) -> (r: Request)
        ensures
            r.inner@ == (RequestView {
                body: BodyView { content: content@, encoding: encoding@, ..self.inner@.body },
                ..self.inner@
            }),
    {
        let ghost sv = self.inner@;
        let mut inner = self.inner;
        inner.body.content = String::from_str(content);
        inner.body.encoding = String::from_str(encoding);
        proof {
            assert(inner@ =~= RequestView {
                body: BodyView { content: content@, encoding: encoding@, ..sv.body },
                ..sv
            });
        }
        Request { inner }
    }

    /// Sets an application-defined field of the body: the entry the key
    /// already has is replaced, else the entry is added — the last
    /// write wins.
    pub fn body_key(self, key: &str, value: &str) -> (r: Request)
        ensures
            r.inner@ == (RequestView {
                body: BodyView {
                    other: spec_set_entry(self.inner@.body.other, key@, JsonVal::Str(value@)),
                    ..self.inner@.body
                },
                ..self.inner@
            }),
    {
        let ghost sv = self.inner@;
        let mut inner = self.inner;
        set_entry(
            &mut inner.body.other,
            String::from_str(key),
            JsonValue::Str(String::from_str(value)),
        );
        proof {
            assert(inner@ =~= RequestView {
                body: BodyView {
                    other: spec_set_entry(sv.body.other, key@, JsonVal::Str(value@)),
                    ..sv.body
                },
                ..sv
            });
        }
        Request { inner }
    }

    /// Hands the built request over, e.g. to the codec.
    pub fn into_inner(self) -> (r: JsontpRequest)
        ensures
            r == self.inner,
    {
        self.inner
    }
}

} // verus!
