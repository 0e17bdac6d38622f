//! The message codec: the JSON document forms of requests and wire
//! responses, and length-prefixed framing. Every message on the wire is
//! a 4-byte big-endian length prefix followed by that many bytes of
//! UTF-8 canonical JSON.

use vstd::prelude::*;

use crate::json::{clone_entries, lemma_text_round_trip, lemma_view_obj_from,
    lemma_view_obj_insert0, lemma_view_wf, lemma_wf_entries_index, parse_text, spec_parse_text,
    ser_val, view_obj_from, view_val, wf_val, write_val, JsonVal, JsonValue};
use crate::model::{lookup_header, spec_lookup, Body, BodyView, JsontpRequest, JsontpResponse,
    RequestView, Status, StatusView, WireView};
use crate::text::{chars_of, str_eq, string_from_utf8};

verus! {

broadcast use vstd::string::group_string_axioms;

use vstd::string::StringExecFns;
use vstd::string::StrSliceExecFns;
use vstd::utf8::{decode_utf8, encode_utf8, valid_utf8};

/// How the codec fails: the stream ended inside a frame, the declared
/// length exceeds the configured maximum, or the payload is not a valid
/// document.
#[derive(Debug, PartialEq, Eq, Structural, Clone, Copy)]
pub enum CodecError {
    ConnectionClosed,
    FrameTooLarge,
    MalformedPayload,
}

/// The keys a body object reserves for its own fields.
pub open spec fn reserved_key(k: Seq<char>) -> bool {
    k == "content"@ || k == "encoding"@
}

/// The entries that are not reserved, in order.
pub open spec fn without_reserved(es: Seq<(Seq<char>, JsonVal)>) -> Seq<(Seq<char>, JsonVal)>
    decreases es.len(),
{
    if es.len() == 0 {
        Seq::empty()
    } else {
        let rest = without_reserved(es.drop_first());
        if reserved_key(es[0].0) {
            rest
        } else {
            seq![es[0]] + rest
        }
    }
}

/// The document form of a body: content, encoding, then the extra
/// fields.
pub open spec fn body_json(b: BodyView) -> JsonVal {
    JsonVal::Obj(
        seq![("content"@, JsonVal::Str(b.content)), ("encoding"@, JsonVal::Str(b.encoding))]
            + b.other,
    )
}

/// The document form of a request.
pub open spec fn request_json(r: RequestView) -> JsonVal {
    JsonVal::Obj(
        seq![
            ("jsontp"@, JsonVal::Str(r.jsontp)),
            ("type"@, JsonVal::Str(r.type_of_request)),
            ("method"@, JsonVal::Str(r.method)),
            ("resource"@, JsonVal::Str(r.resource)),
            ("headers"@, JsonVal::Obj(r.headers)),
            ("body"@, body_json(r.body)),
        ],
    )
}

/// The document form of a status triple.
pub open spec fn status_json(s: StatusView) -> JsonVal {
    JsonVal::Obj(
        seq![
            ("code"@, JsonVal::Int(s.code as int)),
            ("formal-message"@, JsonVal::Str(s.formal_message)),
            ("human-message"@, JsonVal::Str(s.human_message)),
        ],
    )
}

/// The document form of a wire response.
pub open spec fn response_json(w: WireView) -> JsonVal {
    JsonVal::Obj(
        seq![
            ("jsontp"@, JsonVal::Str(w.jsontp)),
            ("type"@, JsonVal::Str(w.type_of_response)),
            ("status"@, status_json(w.status)),
            ("resource"@, JsonVal::Str(w.resource)),
            ("headers"@, JsonVal::Obj(w.headers)),
            ("body"@, body_json(w.body)),
        ],
    )
}

/// Reads a body back from its document form.
pub open spec fn json_body(v: JsonVal) -> Option<BodyView> {
    match v {
        JsonVal::Obj(es) => match (spec_lookup(es, "content"@), spec_lookup(es, "encoding"@)) {
            (Some(JsonVal::Str(c)), Some(JsonVal::Str(e))) => Some(
                BodyView { content: c, encoding: e, other: without_reserved(es) },
            ),
            _ => None,
        },
        _ => None,
    }
}

/// Reads a request back from its document form.
pub open spec fn json_request(v: JsonVal) -> Option<RequestView> {
    match v {
        JsonVal::Obj(es) => match (
            spec_lookup(es, "jsontp"@),
            spec_lookup(es, "type"@),
            spec_lookup(es, "method"@),
            spec_lookup(es, "resource"@),
            spec_lookup(es, "headers"@),
            spec_lookup(es, "body"@),
        ) {
            (
                Some(JsonVal::Str(j)),
                Some(JsonVal::Str(t)),
                Some(JsonVal::Str(m)),
                Some(JsonVal::Str(r)),
                Some(JsonVal::Obj(hs)),
                Some(bv),
            ) => match json_body(bv) {
                Some(b) => Some(
                    RequestView {
                        jsontp: j,
                        type_of_request: t,
                        method: m,
                        resource: r,
                        headers: hs,
                        body: b,
                    },
                ),
                None => None,
            },
            _ => None,
        },
        _ => None,
    }
}

/// Reads a status triple back from its document form.
pub open spec fn json_status(v: JsonVal) -> Option<StatusView> {
    match v {
        JsonVal::Obj(es) => match (
            spec_lookup(es, "code"@),
            spec_lookup(es, "formal-message"@),
            spec_lookup(es, "human-message"@),
        ) {
            (Some(JsonVal::Int(c)), Some(JsonVal::Str(f)), Some(JsonVal::Str(h))) => if 0 <= c
                <= 0xffff {
                Some(StatusView { code: c as u16, formal_message: f, human_message: h })
            } else {
                None
            },
            _ => None,
        },
        _ => None,
    }
}

/// Reads a wire response back from its document form.
pub open spec fn json_response(v: JsonVal) -> Option<WireView> {
    match v {
        JsonVal::Obj(es) => match (
            spec_lookup(es, "jsontp"@),
            spec_lookup(es, "type"@),
            spec_lookup(es, "status"@),
            spec_lookup(es, "resource"@),
            spec_lookup(es, "headers"@),
            spec_lookup(es, "body"@),
        ) {
            (
                Some(JsonVal::Str(j)),
                Some(JsonVal::Str(t)),
                Some(sv),
                Some(JsonVal::Str(r)),
                Some(JsonVal::Obj(hs)),
                Some(bv),
            ) => match (json_status(sv), json_body(bv)) {
                (Some(st), Some(b)) => Some(
                    WireView {
                        jsontp: j,
                        type_of_response: t,
                        status: st,
                        resource: r,
                        headers: hs,
                        body: b,
                    },
                ),
                _ => None,
            },
            _ => None,
        },
        _ => None,
    }
}

/// The canonical text of a request.
pub open spec fn spec_encode_request(r: RequestView) -> Seq<char> {
    ser_val(request_json(r))
}

/// The canonical text of a wire response.
pub open spec fn spec_encode_response(w: WireView) -> Seq<char> {
    ser_val(response_json(w))
}

/// The request a payload text decodes to, if any.
pub open spec fn spec_decode_request(s: Seq<char>) -> Option<RequestView> {
    match spec_parse_text(s) {
        Some(v) => json_request(v),
        None => None,
    }
}

/// The wire response a payload text decodes to, if any.
pub open spec fn spec_decode_response(s: Seq<char>) -> Option<WireView> {
    match spec_parse_text(s) {
        Some(v) => json_response(v),
        None => None,
    }
}

/// Turns a body into its document form.
pub fn body_to_json(b: Body) -> (v: JsonValue)
    ensures
        v@ == body_json(b@),
{
    let ghost bv = b@;
    let mut es = b.other;
    let ghost es0 = es;
    let e1 = (String::from_str("encoding"), JsonValue::Str(b.encoding));
    let ghost ge1 = e1;
    es.insert(0, e1);
    proof {
        lemma_view_obj_insert0(es0, es, ge1);
    }
    let ghost es1 = es;
    let e2 = (String::from_str("content"), JsonValue::Str(b.content));
    let ghost ge2 = e2;
    es.insert(0, e2);
    proof {
        lemma_view_obj_insert0(es1, es, ge2);
        assert(view_obj_from(es, 0) =~= seq![
            ("content"@, JsonVal::Str(bv.content)),
            ("encoding"@, JsonVal::Str(bv.encoding)),
        ] + bv.other);
    }
    JsonValue::Obj(es)
}

/// Turns a request into its document form.
pub fn request_to_json(r: JsontpRequest) -> (v: JsonValue)
    ensures
        v@ == request_json(r@),
{
    let ghost rv = r@;
    let mut es: Vec<(String, JsonValue)> = Vec::new();
    es.push((String::from_str("jsontp"), JsonValue::Str(r.jsontp)));
    es.push((String::from_str("type"), JsonValue::Str(r.type_of_request)));
    es.push((String::from_str("method"), JsonValue::Str(r.method)));
    es.push((String::from_str("resource"), JsonValue::Str(r.resource)));
    es.push((String::from_str("headers"), JsonValue::Obj(r.headers)));
    es.push((String::from_str("body"), body_to_json(r.body)));
    proof {
        lemma_view_obj_from(es, 0);
        assert(view_obj_from(es, 0) =~= seq![
            ("jsontp"@, JsonVal::Str(rv.jsontp)),
            ("type"@, JsonVal::Str(rv.type_of_request)),
            ("method"@, JsonVal::Str(rv.method)),
            ("resource"@, JsonVal::Str(rv.resource)),
            ("headers"@, JsonVal::Obj(rv.headers)),
            ("body"@, body_json(rv.body)),
        ]);
    }
    JsonValue::Obj(es)
}

/// Turns a status triple into its document form.
pub fn status_to_json(s: Status) -> (v: JsonValue)
    ensures
        v@ == status_json(s@),
{
    let ghost sv = s@;
    let mut es: Vec<(String, JsonValue)> = Vec::new();
    es.push((String::from_str("code"), JsonValue::Int(s.code as i64)));
    es.push((String::from_str("formal-message"), JsonValue::Str(s.formal_message)));
    es.push((String::from_str("human-message"), JsonValue::Str(s.human_message)));
    proof {
        lemma_view_obj_from(es, 0);
        assert(view_obj_from(es, 0) =~= seq![
            ("code"@, JsonVal::Int(sv.code as int)),
            ("formal-message"@, JsonVal::Str(sv.formal_message)),
            ("human-message"@, JsonVal::Str(sv.human_message)),
        ]);
    }
    JsonValue::Obj(es)
}

/// Turns a wire response into its document form.
pub fn response_to_json(w: JsontpResponse) -> (v: JsonValue)
    ensures
        v@ == response_json(w@),
{
    let ghost wv = w@;
    let mut es: Vec<(String, JsonValue)> = Vec::new();
    es.push((String::from_str("jsontp"), JsonValue::Str(w.jsontp)));
    es.push((String::from_str("type"), JsonValue::Str(w.type_of_response)));
    es.push((String::from_str("status"), status_to_json(w.status)));
    es.push((String::from_str("resource"), JsonValue::Str(w.resource)));
    es.push((String::from_str("headers"), JsonValue::Obj(w.headers)));
    es.push((String::from_str("body"), body_to_json(w.body)));
    proof {
        lemma_view_obj_from(es, 0);
        assert(view_obj_from(es, 0) =~= seq![
            ("jsontp"@, JsonVal::Str(wv.jsontp)),
            ("type"@, JsonVal::Str(wv.type_of_response)),
            ("status"@, status_json(wv.status)),
            ("resource"@, JsonVal::Str(wv.resource)),
            ("headers"@, JsonVal::Obj(wv.headers)),
            ("body"@, body_json(wv.body)),
        ]);
    }
    JsonValue::Obj(es)
}

/// Reads a body back from a document value.
pub fn json_to_body(v: &JsonValue) -> (r: Option<Body>)
    ensures
        match r {
            Some(b) => json_body(v@) == Some(b@),
            None => json_body(v@) is None,
        },
{
    match v {
        JsonValue::Obj(es) => {
            let ghost esv = view_obj_from(*es, 0);
            proof {
                assert(v@ == JsonVal::Obj(esv));
            }
            let content = match lookup_header(es, "content") {
                Some(JsonValue::Str(s)) => s.clone(),
                Some(_) => {
                    return None;
                },
                None => {
                    return None;
                },
            };
            let encoding = match lookup_header(es, "encoding") {
                Some(JsonValue::Str(s)) => s.clone(),
                Some(_) => {
                    return None;
                },
                None => {
                    return None;
                },
            };
            proof {
                assert(spec_lookup(esv, "content"@) == Some(JsonVal::Str(content@)));
                assert(spec_lookup(esv, "encoding"@) == Some(JsonVal::Str(encoding@)));
            }
            let mut other: Vec<(String, JsonValue)> = Vec::new();
            proof {
                lemma_view_obj_from(*es, 0);
                lemma_without_reserved_concat(esv.subrange(0, 0), esv.subrange(0, esv.len() as int));
                assert(esv.subrange(0, 0) =~= Seq::<(Seq<char>, JsonVal)>::empty());
            }
            let mut i: usize = 0;
            while i < es.len()
                invariant
                    i <= es@.len(),
                    esv == view_obj_from(*es, 0),
                    esv.len() == es@.len(),
                    forall|j: int|
                        0 <= j < esv.len() ==> esv[j] == (es[j].0@, view_val(es[j].1)),
                    view_obj_from(other, 0) == without_reserved(esv.subrange(0, i as int)),
                decreases es@.len() - i,
            {
                let keep = !(str_eq(es[i].0.as_str(), "content") || str_eq(
                    es[i].0.as_str(),
                    "encoding",
                ));
                proof {
                    reveal_with_fuel(without_reserved, 2);
                    lemma_without_reserved_concat(
                        esv.subrange(0, i as int),
                        seq![esv[i as int]],
                    );
                    assert(esv.subrange(0, i as int) + seq![esv[i as int]] =~= esv.subrange(
                        0,
                        i + 1,
                    ));
                    assert(without_reserved(seq![esv[i as int]]) =~= if reserved_key(
                        esv[i as int].0,
                    ) {
                        Seq::<(Seq<char>, JsonVal)>::empty()
                    } else {
                        seq![esv[i as int]]
                    });
                }
                if keep {
                    let ghost pre = other;
                    let e = (es[i].0.clone(), es[i].1.clone());
                    let ghost ge = e;
                    other.push(e);
                    proof {
                        crate::json::lemma_view_obj_push(pre, other, ge);
                        assert(view_obj_from(other, 0) =~= without_reserved(
                            esv.subrange(0, i + 1),
                        ));
                    }
                } else {
                    proof {
                        assert(view_obj_from(other, 0) =~= without_reserved(
                            esv.subrange(0, i + 1),
                        ));
                    }
                }
                i += 1;
            }
            proof {
                assert(esv.subrange(0, esv.len() as int) =~= esv);
            }
            Some(Body { content, encoding, other })
        },
        _ => None,
    }
}

/// `without_reserved` distributes over concatenation.
pub proof fn lemma_without_reserved_concat(a: Seq<(Seq<char>, JsonVal)>, b: Seq<(Seq<char>, JsonVal)>)
    ensures
        without_reserved(a + b) == without_reserved(a) + without_reserved(b),
    decreases a.len(),
{
    if a.len() == 0 {
        assert(a + b =~= b);
        assert(without_reserved(a) + without_reserved(b) =~= without_reserved(b));
    } else {
        lemma_without_reserved_concat(a.drop_first(), b);
        assert((a + b).drop_first() =~= a.drop_first() + b);
        assert((a + b)[0] == a[0]);
        if reserved_key(a[0].0) {
        } else {
            assert(seq![a[0]] + (without_reserved(a.drop_first()) + without_reserved(b))
                =~= (seq![a[0]] + without_reserved(a.drop_first())) + without_reserved(b));
        }
    }
}

/// Reads a request back from a document value.
pub fn json_to_request(v: &JsonValue) -> (r: Option<JsontpRequest>)
    ensures
        match r {
            Some(req) => json_request(v@) == Some(req@),
            None => json_request(v@) is None,
        },
{
    match v {
        JsonValue::Obj(es) => {
            let ghost esv = view_obj_from(*es, 0);
            proof {
                assert(v@ == JsonVal::Obj(esv));
            }
            let jsontp = match lookup_header(es, "jsontp") {
                Some(JsonValue::Str(s)) => s.clone(),
                Some(_) => {
                    return None;
                },
                None => {
                    return None;
                },
            };
            let type_of_request = match lookup_header(es, "type") {
                Some(JsonValue::Str(s)) => s.clone(),
                Some(_) => {
                    return None;
                },
                None => {
                    return None;
                },
            };
            let method = match lookup_header(es, "method") {
                Some(JsonValue::Str(s)) => s.clone(),
                Some(_) => {
                    return None;
                },
                None => {
                    return None;
                },
            };
            let resource = match lookup_header(es, "resource") {
                Some(JsonValue::Str(s)) => s.clone(),
                Some(_) => {
                    return None;
                },
                None => {
                    return None;
                },
            };
            let headers = match lookup_header(es, "headers") {
                Some(JsonValue::Obj(hs)) => clone_entries(hs),
                Some(_) => {
                    return None;
                },
                None => {
                    return None;
                },
            };
            let body = match lookup_header(es, "body") {
                Some(bv) => match json_to_body(bv) {
                    Some(b) => b,
                    None => {
                        return None;
                    },
                },
                None => {
                    return None;
                },
            };
            Some(JsontpRequest { jsontp, type_of_request, method, resource, headers, body })
        },
        _ => None,
    }
}

/// Reads a status triple back from a document value.
pub fn json_to_status(v: &JsonValue) -> (r: Option<Status>)
    ensures
        match r {
            Some(s) => json_status(v@) == Some(s@),
            None => json_status(v@) is None,
        },
{
    match v {
        JsonValue::Obj(es) => {
            let ghost esv = view_obj_from(*es, 0);
            proof {
                assert(v@ == JsonVal::Obj(esv));
            }
            let code: u16 = match lookup_header(es, "code") {
                Some(JsonValue::Int(c)) => {
                    let c = *c;
                    if 0 <= c && c <= 0xffff {
                        c as u16
                    } else {
                        return None;
                    }
                },
                Some(_) => {
                    return None;
                },
                None => {
                    return None;
                },
            };
            let formal_message = match lookup_header(es, "formal-message") {
                Some(JsonValue::Str(s)) => s.clone(),
                Some(_) => {
                    return None;
                },
                None => {
                    return None;
                },
            };
            let human_message = match lookup_header(es, "human-message") {
                Some(JsonValue::Str(s)) => s.clone(),
                Some(_) => {
                    return None;
                },
                None => {
                    return None;
                },
            };
            Some(Status { code, formal_message, human_message })
        },
        _ => None,
    }
}

/// Reads a wire response back from a document value.
pub fn json_to_response(v: &JsonValue) -> (r: Option<JsontpResponse>)
    ensures
        match r {
            Some(w) => json_response(v@) == Some(w@),
            None => json_response(v@) is None,
        },
{
    match v {
        JsonValue::Obj(es) => {
            let ghost esv = view_obj_from(*es, 0);
            proof {
                assert(v@ == JsonVal::Obj(esv));
            }
            let jsontp = match lookup_header(es, "jsontp") {
                Some(JsonValue::Str(s)) => s.clone(),
                Some(_) => {
                    return None;
                },
                None => {
                    return None;
                },
            };
            let type_of_response = match lookup_header(es, "type") {
                Some(JsonValue::Str(s)) => s.clone(),
                Some(_) => {
                    return None;
                },
                None => {
                    return None;
                },
            };
            let status = match lookup_header(es, "status") {
                Some(sv) => match json_to_status(sv) {
                    Some(s) => s,
                    None => {
                        return None;
                    },
                },
                None => {
                    return None;
                },
            };
            let resource = match lookup_header(es, "resource") {
                Some(JsonValue::Str(s)) => s.clone(),
                Some(_) => {
                    return None;
                },
                None => {
                    return None;
                },
            };
            let headers = match lookup_header(es, "headers") {
                Some(JsonValue::Obj(hs)) => clone_entries(hs),
                Some(_) => {
                    return None;
                },
                None => {
                    return None;
                },
            };
            let body = match lookup_header(es, "body") {
                Some(bv) => match json_to_body(bv) {
                    Some(b) => b,
                    None => {
                        return None;
                    },
                },
                None => {
                    return None;
                },
            };
            Some(
                JsontpResponse { jsontp, type_of_response, status, resource, headers, body },
            )
        },
        _ => None,
    }
}

/// Extra fields of a body carry no reserved keys.
pub open spec fn wf_extra(other: Seq<(Seq<char>, JsonVal)>) -> bool {
    forall|j: int| 0 <= j < other.len() ==> !reserved_key(#[trigger] other[j].0)
}

/// Filtering entries without reserved keys keeps them all.
pub proof fn lemma_without_reserved_id(es: Seq<(Seq<char>, JsonVal)>)
    requires
        wf_extra(es),
    ensures
        without_reserved(es) == es,
    decreases es.len(),
{
    if es.len() > 0 {
        assert(!reserved_key(es[0].0));
        assert forall|j: int| 0 <= j < es.drop_first().len() implies !reserved_key(
            #[trigger] es.drop_first()[j].0,
        ) by {
            assert(es.drop_first()[j] == es[j + 1]);
        }
        lemma_without_reserved_id(es.drop_first());
        assert(seq![es[0]] + es.drop_first() =~= es);
    }
}

/// The document form of any request is a well-formed value.
pub proof fn lemma_request_json_wf(r: RequestView, req: JsontpRequest)
    requires
        r == req@,
    ensures
        wf_val(request_json(r)),
{
    let es = match request_json(r) {
        JsonVal::Obj(es) => es,
        _ => Seq::empty(),
    };
    lemma_view_wf(JsonValue::Obj(req.headers));
    lemma_body_json_wf(r.body, req.body);
    assert forall|j: int| 0 <= j < es.len() implies wf_val(#[trigger] es[j].1) by {
        if j == 4 {
            assert(es[j].1 == JsonVal::Obj(r.headers));
        } else if j == 5 {
            assert(es[j].1 == body_json(r.body));
        }
    }
    lemma_wf_entries_index(es, 0);
}

/// The document form of any body is a well-formed value.
pub proof fn lemma_body_json_wf(b: BodyView, body: Body)
    requires
        b == body@,
    ensures
        wf_val(body_json(b)),
{
    let es = seq![("content"@, JsonVal::Str(b.content)), ("encoding"@, JsonVal::Str(b.encoding))]
        + b.other;
    lemma_view_wf(JsonValue::Obj(body.other));
    lemma_wf_entries_index(b.other, 0);
    assert forall|j: int| 0 <= j < es.len() implies wf_val(#[trigger] es[j].1) by {
        if j >= 2 {
            assert(es[j] == b.other[j - 2]);
        }
    }
    lemma_wf_entries_index(es, 0);
}

/// The document form of any wire response is a well-formed value.
pub proof fn lemma_response_json_wf(w: WireView, resp: JsontpResponse)
    requires
        w == resp@,
    ensures
        wf_val(response_json(w)),
{
    let es = match response_json(w) {
        JsonVal::Obj(es) => es,
        _ => Seq::empty(),
    };
    lemma_view_wf(JsonValue::Obj(resp.headers));
    lemma_body_json_wf(w.body, resp.body);
    let ses = match status_json(w.status) {
        JsonVal::Obj(ses) => ses,
        _ => Seq::empty(),
    };
    assert forall|j: int| 0 <= j < ses.len() implies wf_val(#[trigger] ses[j].1) by {}
    lemma_wf_entries_index(ses, 0);
    assert forall|j: int| 0 <= j < es.len() implies wf_val(#[trigger] es[j].1) by {
        if j == 2 {
            assert(es[j].1 == status_json(w.status));
        } else if j == 4 {
            assert(es[j].1 == JsonVal::Obj(w.headers));
        } else if j == 5 {
            assert(es[j].1 == body_json(w.body));
        }
    }
    lemma_wf_entries_index(es, 0);
}

/// Reading a body's document form back yields the body.
pub proof fn lemma_body_json_round(b: BodyView)
    requires
        wf_extra(b.other),
    ensures
        json_body(body_json(b)) == Some(b),
{
    reveal_strlit("content");
    reveal_strlit("encoding");
    reveal_with_fuel(without_reserved, 3);
    reveal_with_fuel(crate::model::spec_lookup, 3);
    let ce = ("content"@, JsonVal::Str(b.content));
    let ee = ("encoding"@, JsonVal::Str(b.encoding));
    let es = seq![ce, ee] + b.other;
    assert(es[0] == ce);
    assert(es.len() >= 2);
    assert(es[0].0 == "content"@);
    assert(spec_lookup(es, "content"@) == Some(es[0].1));
    assert(spec_lookup(es, "content"@) == Some(JsonVal::Str(b.content)));
    assert("content"@.len() == 7 && "encoding"@.len() == 8);
    assert("content"@ != "encoding"@);
    let tail = es.drop_first();
    assert(tail =~= seq![ee] + b.other);
    assert(tail[0] == ee);
    assert(spec_lookup(es, "encoding"@) == Some(JsonVal::Str(b.encoding)));
    lemma_without_reserved_concat(seq![ce, ee], b.other);
    lemma_without_reserved_id(b.other);
    assert(seq![ce, ee].drop_first() =~= seq![ee]);
    assert(seq![ee].drop_first() =~= Seq::<(Seq<char>, JsonVal)>::empty());
    assert(without_reserved(seq![ce, ee]) =~= Seq::<(Seq<char>, JsonVal)>::empty());
    assert(without_reserved(es) =~= b.other);
    assert(json_body(body_json(b)) == Some(BodyView {
        content: b.content,
        encoding: b.encoding,
        other: without_reserved(es),
    }));
    assert(BodyView { content: b.content, encoding: b.encoding, other: without_reserved(es) }
        =~= b);
}

/// Reading a status triple's document form back yields the triple.
pub proof fn lemma_status_json_round(s: StatusView)
    ensures
        json_status(status_json(s)) == Some(s),
{
    reveal_strlit("code");
    reveal_strlit("formal-message");
    reveal_strlit("human-message");
    reveal_with_fuel(crate::model::spec_lookup, 4);
    let e0 = ("code"@, JsonVal::Int(s.code as int));
    let e1 = ("formal-message"@, JsonVal::Str(s.formal_message));
    let e2 = ("human-message"@, JsonVal::Str(s.human_message));
    let es = seq![e0, e1, e2];
    assert("code"@.len() == 4 && "formal-message"@.len() == 14 && "human-message"@.len() == 13);
    assert(es.drop_first() =~= seq![e1, e2]);
    assert(seq![e1, e2].drop_first() =~= seq![e2]);
    assert(spec_lookup(es, "code"@) == Some(JsonVal::Int(s.code as int)));
    assert(spec_lookup(es, "formal-message"@) == Some(JsonVal::Str(s.formal_message)));
    assert(spec_lookup(es, "human-message"@) == Some(JsonVal::Str(s.human_message)));
    assert(json_status(status_json(s)) == Some(StatusView {
        code: s.code,
        formal_message: s.formal_message,
        human_message: s.human_message,
    }));
    assert(StatusView { code: s.code, formal_message: s.formal_message, human_message: s.human_message }
        =~= s);
}

/// Reading a request's document form back yields the request.
pub proof fn lemma_request_json_round(r: RequestView)
    requires
        wf_extra(r.body.other),
    ensures
        json_request(request_json(r)) == Some(r),
{
    reveal_strlit("jsontp");
    reveal_strlit("type");
    reveal_strlit("method");
    reveal_strlit("resource");
    reveal_strlit("headers");
    reveal_strlit("body");
    reveal_with_fuel(crate::model::spec_lookup, 7);
    let e0 = ("jsontp"@, JsonVal::Str(r.jsontp));
    let e1 = ("type"@, JsonVal::Str(r.type_of_request));
    let e2 = ("method"@, JsonVal::Str(r.method));
    let e3 = ("resource"@, JsonVal::Str(r.resource));
    let e4 = ("headers"@, JsonVal::Obj(r.headers));
    let e5 = ("body"@, body_json(r.body));
    let es = seq![e0, e1, e2, e3, e4, e5];
    assert("jsontp"@.len() == 6 && "type"@.len() == 4 && "method"@.len() == 6 && "resource"@.len()
        == 8 && "headers"@.len() == 7 && "body"@.len() == 4);
    assert("jsontp"@[0] == 'j' && "method"@[0] == 'm' && "type"@[0] == 't' && "body"@[0] == 'b');
    assert(es.drop_first() =~= seq![e1, e2, e3, e4, e5]);
    assert(seq![e1, e2, e3, e4, e5].drop_first() =~= seq![e2, e3, e4, e5]);
    assert(seq![e2, e3, e4, e5].drop_first() =~= seq![e3, e4, e5]);
    assert(seq![e3, e4, e5].drop_first() =~= seq![e4, e5]);
    assert(seq![e4, e5].drop_first() =~= seq![e5]);
    assert(spec_lookup(es, "jsontp"@) == Some(JsonVal::Str(r.jsontp)));
    assert(spec_lookup(es, "type"@) == Some(JsonVal::Str(r.type_of_request)));
    assert(spec_lookup(es, "method"@) == Some(JsonVal::Str(r.method)));
    assert(spec_lookup(es, "resource"@) == Some(JsonVal::Str(r.resource)));
    assert(spec_lookup(es, "headers"@) == Some(JsonVal::Obj(r.headers)));
    assert(spec_lookup(es, "body"@) == Some(body_json(r.body)));
    lemma_body_json_round(r.body);
    assert(json_request(request_json(r)) == Some(RequestView {
        jsontp: r.jsontp,
        type_of_request: r.type_of_request,
        method: r.method,
        resource: r.resource,
        headers: r.headers,
        body: r.body,
    }));
    assert(RequestView {
        jsontp: r.jsontp,
        type_of_request: r.type_of_request,
        method: r.method,
        resource: r.resource,
        headers: r.headers,
        body: r.body,
    } =~= r);
}

/// Reading a wire response's document form back yields the response.
pub proof fn lemma_response_json_round(w: WireView)
    requires
        wf_extra(w.body.other),
    ensures
        json_response(response_json(w)) == Some(w),
{
    reveal_strlit("jsontp");
    reveal_strlit("type");
    reveal_strlit("status");
    reveal_strlit("resource");
    reveal_strlit("headers");
    reveal_strlit("body");
    reveal_with_fuel(crate::model::spec_lookup, 7);
    let e0 = ("jsontp"@, JsonVal::Str(w.jsontp));
    let e1 = ("type"@, JsonVal::Str(w.type_of_response));
    let e2 = ("status"@, status_json(w.status));
    let e3 = ("resource"@, JsonVal::Str(w.resource));
    let e4 = ("headers"@, JsonVal::Obj(w.headers));
    let e5 = ("body"@, body_json(w.body));
    let es = seq![e0, e1, e2, e3, e4, e5];
    assert("jsontp"@.len() == 6 && "type"@.len() == 4 && "status"@.len() == 6 && "resource"@.len()
        == 8 && "headers"@.len() == 7 && "body"@.len() == 4);
    assert("jsontp"@[0] == 'j' && "status"@[0] == 's' && "type"@[0] == 't' && "body"@[0] == 'b');
    assert(es.drop_first() =~= seq![e1, e2, e3, e4, e5]);
    assert(seq![e1, e2, e3, e4, e5].drop_first() =~= seq![e2, e3, e4, e5]);
    assert(seq![e2, e3, e4, e5].drop_first() =~= seq![e3, e4, e5]);
    assert(seq![e3, e4, e5].drop_first() =~= seq![e4, e5]);
    assert(seq![e4, e5].drop_first() =~= seq![e5]);
    assert(spec_lookup(es, "jsontp"@) == Some(JsonVal::Str(w.jsontp)));
    assert(spec_lookup(es, "type"@) == Some(JsonVal::Str(w.type_of_response)));
    assert(spec_lookup(es, "status"@) == Some(status_json(w.status)));
    assert(spec_lookup(es, "resource"@) == Some(JsonVal::Str(w.resource)));
    assert(spec_lookup(es, "headers"@) == Some(JsonVal::Obj(w.headers)));
    assert(spec_lookup(es, "body"@) == Some(body_json(w.body)));
    lemma_status_json_round(w.status);
    lemma_body_json_round(w.body);
    assert(json_response(response_json(w)) == Some(WireView {
        jsontp: w.jsontp,
        type_of_response: w.type_of_response,
        status: w.status,
        resource: w.resource,
        headers: w.headers,
        body: w.body,
    }));
    assert(WireView {
        jsontp: w.jsontp,
        type_of_response: w.type_of_response,
        status: w.status,
        resource: w.resource,
        headers: w.headers,
        body: w.body,
    } =~= w);
}

/// Round trip at the text level: decoding the canonical text of a
/// request yields the request, for any field contents.
pub proof fn lemma_request_text_round_trip(r: RequestView)
    requires
        wf_val(request_json(r)),
        wf_extra(r.body.other),
    ensures
        spec_decode_request(spec_encode_request(r)) == Some(r),
{
    lemma_text_round_trip(request_json(r));
    lemma_request_json_round(r);
}

/// Round trip at the text level for wire responses.
pub proof fn lemma_response_text_round_trip(w: WireView)
    requires
        wf_val(response_json(w)),
        wf_extra(w.body.other),
    ensures
        spec_decode_response(spec_encode_response(w)) == Some(w),
{
    lemma_text_round_trip(response_json(w));
    lemma_response_json_round(w);
}

/// Round trip at the byte level: the encoded payload bytes of a request
/// are valid UTF-8 and decode back to the request.
pub proof fn lemma_request_bytes_round_trip(r: RequestView)
    requires
        wf_val(request_json(r)),
        wf_extra(r.body.other),
    ensures
        valid_utf8(encode_utf8(spec_encode_request(r))),
        spec_decode_request(decode_utf8(encode_utf8(spec_encode_request(r)))) == Some(r),
{
    vstd::utf8::encode_utf8_valid_utf8(spec_encode_request(r));
    vstd::utf8::encode_utf8_decode_utf8(spec_encode_request(r));
    lemma_request_text_round_trip(r);
}

/// Round trip at the byte level for wire responses.
pub proof fn lemma_response_bytes_round_trip(w: WireView)
    requires
        wf_val(response_json(w)),
        wf_extra(w.body.other),
    ensures
        valid_utf8(encode_utf8(spec_encode_response(w))),
        spec_decode_response(decode_utf8(encode_utf8(spec_encode_response(w)))) == Some(w),
{
    vstd::utf8::encode_utf8_valid_utf8(spec_encode_response(w));
    vstd::utf8::encode_utf8_decode_utf8(spec_encode_response(w));
    lemma_response_text_round_trip(w);
}

// ---------------------------------------------------------------------
// Framing: a 4-byte big-endian length prefix before each payload.
// ---------------------------------------------------------------------
/// The big-endian bytes of a payload length.
pub open spec fn spec_prefix(n: u32) -> Seq<u8> {
    seq![(n >> 24) as u8, (n >> 16) as u8, (n >> 8) as u8, n as u8]
}

/// The payload length named by four prefix bytes.
pub open spec fn prefix_value(p: Seq<u8>) -> u32
    recommends
        p.len() == 4,
{
    ((p[0] as u32) << 24) | ((p[1] as u32) << 16) | ((p[2] as u32) << 8) | (p[3] as u32)
}

/// Reading a written prefix yields the length back.
pub proof fn lemma_prefix_round_trip(n: u32)
    ensures
        prefix_value(spec_prefix(n)) == n,
{
    let p = spec_prefix(n);
    assert(p[0] == (n >> 24) as u8 && p[1] == (n >> 16) as u8 && p[2] == (n >> 8) as u8 && p[3]
        == n as u8);
    assert(((((n >> 24) as u8) as u32) << 24) | ((((n >> 16) as u8) as u32) << 16) | ((((n >> 8)
        as u8) as u32) << 8) | ((n as u8) as u32) == n) by (bit_vector);
}

/// Writes the length prefix of a payload.
pub fn make_prefix(n: u32) -> (r: Vec<u8>)
    ensures
        r@ == spec_prefix(n),
{
    let mut r: Vec<u8> = Vec::new();
    r.push((n >> 24) as u8);
    r.push((n >> 16) as u8);
    r.push((n >> 8) as u8);
    r.push(n as u8);
    proof {
        assert(r@ =~= spec_prefix(n));
    }
    r
}

/// Reads the length prefix of a frame; four bytes are needed.
pub fn read_prefix(p: &Vec<u8>) -> (r: Option<u32>)
    ensures
        match r {
            Some(n) => p@.len() == 4 && n == prefix_value(p@),
            None => p@.len() != 4,
        },
{
    if p.len() != 4 {
        return None;
    }
    Some(((p[0] as u32) << 24) | ((p[1] as u32) << 16) | ((p[2] as u32) << 8) | (p[3] as u32))
}

/// Refuses a declared payload length above the configured maximum,
/// before any payload is read or held.
pub fn check_frame_size(len: u32, max: u32) -> (r: Result<(), CodecError>)
    ensures
        r is Ok <==> len <= max,
        r is Err ==> r == Err::<(), CodecError>(CodecError::FrameTooLarge),
{
    if len > max {
        Err(CodecError::FrameTooLarge)
    } else {
        Ok(())
    }
}

/// Encodes a request as one frame: length prefix, then the UTF-8 bytes
/// of its canonical text. Fails only when the payload cannot be named
/// by the prefix.
pub fn encode_request(r: JsontpRequest) -> (res: Result<Vec<u8>, CodecError>)
    ensures
        match res {
            Ok(f) => encode_utf8(spec_encode_request(r@)).len() <= u32::MAX && f@ == spec_prefix(
                encode_utf8(spec_encode_request(r@)).len() as u32,
            ) + encode_utf8(spec_encode_request(r@)),
            Err(e) => e == CodecError::FrameTooLarge && encode_utf8(
                spec_encode_request(r@),
            ).len() > u32::MAX,
        },
{
    let ghost rv = r@;
    let jv = request_to_json(r);
    let mut text = String::new();
    write_val(&mut text, &jv);
    proof {
        assert(text@ =~= spec_encode_request(rv));
    }
    let mut payload: Vec<u8> = text.as_str().as_bytes_vec();
    if payload.len() as u64 > 0xffff_ffff {
        return Err(CodecError::FrameTooLarge);
    }
    let mut f = make_prefix(payload.len() as u32);
    f.append(&mut payload);
    Ok(f)
}

/// Encodes a wire response as one frame.
pub fn encode_response(w: JsontpResponse) -> (res: Result<Vec<u8>, CodecError>)
    ensures
        match res {
            Ok(f) => encode_utf8(spec_encode_response(w@)).len() <= u32::MAX && f@ == spec_prefix(
                encode_utf8(spec_encode_response(w@)).len() as u32,
            ) + encode_utf8(spec_encode_response(w@)),
            Err(e) => e == CodecError::FrameTooLarge && encode_utf8(
                spec_encode_response(w@),
            ).len() > u32::MAX,
        },
{
    let ghost wv = w@;
    let jv = response_to_json(w);
    let mut text = String::new();
    write_val(&mut text, &jv);
    proof {
        assert(text@ =~= spec_encode_response(wv));
    }
    let mut payload: Vec<u8> = text.as_str().as_bytes_vec();
    if payload.len() as u64 > 0xffff_ffff {
        return Err(CodecError::FrameTooLarge);
    }
    let mut f = make_prefix(payload.len() as u32);
    f.append(&mut payload);
    Ok(f)
}

/// The request a payload's bytes decode to: the bytes must be UTF-8 and
/// the text must be one whole request document.
pub open spec fn spec_decode_request_bytes(payload: Seq<u8>) -> Option<RequestView> {
    if valid_utf8(payload) {
        spec_decode_request(decode_utf8(payload))
    } else {
        None
    }
}

/// The wire response a payload's bytes decode to.
pub open spec fn spec_decode_response_bytes(payload: Seq<u8>) -> Option<WireView> {
    if valid_utf8(payload) {
        spec_decode_response(decode_utf8(payload))
    } else {
        None
    }
}

/// Decodes a request from a frame's payload bytes.
pub fn decode_request(payload: Vec<u8>) -> (r: Result<JsontpRequest, CodecError>)
    ensures
        match r {
            Ok(req) => spec_decode_request_bytes(payload@) == Some(req@),
            Err(e) => e == CodecError::MalformedPayload && spec_decode_request_bytes(
                payload@,
            ) is None,
        },
{
    let ghost pv = payload@;
    let s = match string_from_utf8(payload) {
        Some(s) => s,
        None => {
            return Err(CodecError::MalformedPayload);
        },
    };
    proof {
        vstd::utf8::encode_utf8_valid_utf8(s@);
        vstd::utf8::encode_utf8_decode_utf8(s@);
    }
    let cs = chars_of(s.as_str());
    match parse_text(&cs) {
        Some(v) => match json_to_request(&v) {
            Some(req) => Ok(req),
            None => Err(CodecError::MalformedPayload),
        },
        None => Err(CodecError::MalformedPayload),
    }
}

/// Decodes a wire response from a frame's payload bytes.
pub fn decode_response(payload: Vec<u8>) -> (r: Result<JsontpResponse, CodecError>)
    ensures
        match r {
            Ok(w) => spec_decode_response_bytes(payload@) == Some(w@),
            Err(e) => e == CodecError::MalformedPayload && spec_decode_response_bytes(
                payload@,
            ) is None,
        },
{
    let ghost pv = payload@;
    let s = match string_from_utf8(payload) {
        Some(s) => s,
        None => {
            return Err(CodecError::MalformedPayload);
        },
    };
    proof {
        vstd::utf8::encode_utf8_valid_utf8(s@);
        vstd::utf8::encode_utf8_decode_utf8(s@);
    }
    let cs = chars_of(s.as_str());
    match parse_text(&cs) {
        Some(v) => match json_to_response(&v) {
            Some(w) => Ok(w),
            None => Err(CodecError::MalformedPayload),
        },
        None => Err(CodecError::MalformedPayload),
    }
}

/// What one whole buffered frame decodes to: too few bytes for the
/// prefix or a truncated payload mean the stream closed inside a frame;
/// an oversize declared length is refused before the payload is
/// considered.
pub open spec fn spec_decode_request_frame(b: Seq<u8>, max: u32) -> Result<
    RequestView,
    CodecError,
> {
    if b.len() < 4 {
        Err(CodecError::ConnectionClosed)
    } else {
        let n = prefix_value(b.subrange(0, 4));
        if n > max {
            Err(CodecError::FrameTooLarge)
        } else if b.len() != n + 4 {
            Err(CodecError::ConnectionClosed)
        } else {
            match spec_decode_request_bytes(b.skip(4)) {
                Some(r) => Ok(r),
                None => Err(CodecError::MalformedPayload),
            }
        }
    }
}

/// Decodes one whole buffered frame as a request.
pub fn decode_request_frame(buf: &Vec<u8>, max: u32) -> (r: Result<JsontpRequest, CodecError>)
    ensures
        match r {
            Ok(req) => spec_decode_request_frame(buf@, max) matches Ok(rv) && rv == req@,
            Err(e) => spec_decode_request_frame(buf@, max) == Err::<RequestView, CodecError>(e),
        },
{
    if buf.len() < 4 {
        return Err(CodecError::ConnectionClosed);
    }
    let mut prefix: Vec<u8> = Vec::new();
    prefix.push(buf[0]);
    prefix.push(buf[1]);
    prefix.push(buf[2]);
    prefix.push(buf[3]);
    proof {
        assert(prefix@ =~= buf@.subrange(0, 4));
    }
    let n = match read_prefix(&prefix) {
        Some(n) => n,
        None => {
            return Err(CodecError::ConnectionClosed);
        },
    };
    if n > max {
        return Err(CodecError::FrameTooLarge);
    }
    if buf.len() - 4 != n as usize {
        return Err(CodecError::ConnectionClosed);
    }
    let mut payload: Vec<u8> = Vec::new();
    let mut i: usize = 4;
    while i < buf.len()
        invariant
            4 <= i <= buf@.len(),
            payload@ == buf@.subrange(4, i as int),
        decreases buf@.len() - i,
    {
        payload.push(buf[i]);
        proof {
            assert(payload@ =~= buf@.subrange(4, i + 1));
        }
        i += 1;
    }
    proof {
        assert(payload@ =~= buf@.skip(4));
    }
    match decode_request(payload) {
        Ok(req) => Ok(req),
        Err(_) => Err(CodecError::MalformedPayload),
    }
}

/// Round trip at the frame level: one whole frame carrying the encoded
/// request decodes back to the request whenever its payload is within
/// the configured maximum.
pub proof fn lemma_frame_round_trip(r: RequestView, max: u32)
    requires
        wf_val(request_json(r)),
        wf_extra(r.body.other),
        encode_utf8(spec_encode_request(r)).len() <= max,
    ensures
        ({
            let payload = encode_utf8(spec_encode_request(r));
            let frame = spec_prefix(payload.len() as u32) + payload;
            spec_decode_request_frame(frame, max) == Ok::<RequestView, CodecError>(r)
        }),
{
    let payload = encode_utf8(spec_encode_request(r));
    let n = payload.len() as u32;
    let frame = spec_prefix(n) + payload;
    lemma_prefix_round_trip(n);
    assert(frame.subrange(0, 4) =~= spec_prefix(n));
    assert(frame.skip(4) =~= payload);
    lemma_request_bytes_round_trip(r);
}

} // verus!
