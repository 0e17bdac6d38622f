//! The protocol data model: requests, responses, bodies, languages and
//! statuses, with their validation rules and content negotiation.

use vstd::prelude::*;

use crate::json::{lemma_view_obj_from, set_entry, spec_set_entry, view_obj_from, view_val,
    JsonVal, JsonValue};
use crate::status::{categorise, spec_formal_message, spec_human_message};
use crate::text::{push_char, spec_upper, str_eq, upper_string, write_digits, spec_digits};
use crate::time::{date_wf, format_date, now_parts, spec_date_string, DateParts};

verus! {

use vstd::string::StringExecFns;

/// Language preference of a response: optional language tag (e.g. `en`)
/// and optional locale (e.g. `US`). Renders as `<lang>-<LOCALE>`,
/// defaulting to `en-US` when unset.
pub struct Language {
    pub lang: Option<String>,
    pub locale: Option<String>,
}

#[verifier::ext_equal]
pub struct LangView {
    pub lang: Option<Seq<char>>,
    pub locale: Option<Seq<char>>,
}

impl View for Language {
    type V = LangView;

    open spec fn view(&self) -> LangView {
        LangView {
            lang: match self.lang {
                Some(ref s) => Some(s@),
                None => None,
            },
            locale: match self.locale {
                Some(ref s) => Some(s@),
                None => None,
            },
        }
    }
}

/// The rendered form of a language: `lang-LOCALE`; with no locale, the
/// upper-cased language stands in for it; with no language, `en-US`.
pub open spec fn spec_render(l: LangView) -> Seq<char> {
    match l.lang {
        Some(lang) => match l.locale {
            Some(loc) => lang + "-"@ + loc,
            None => lang + "-"@ + spec_upper(lang),
        },
        None => "en-US"@,
    }
}

impl Language {
    /// The rendered `lang-LOCALE` form.
    pub fn render(&self) -> (r: String)
        ensures
            r@ == spec_render(self@),
    {
        match &self.lang {
            Some(lang) => {
                let mut r = String::from_str(lang.as_str());
                r.append("-");
                match &self.locale {
                    Some(loc) => {
                        r.append(loc.as_str());
                    },
                    None => {
                        let u = upper_string(lang.as_str());
                        r.append(u.as_str());
                    },
                }
                r
            },
            None => String::from_str("en-US"),
        }
    }
}

impl Default for Language {
    /// The default language is `en-US`.
    fn default() -> (r: Language)
        ensures
            r@ == (LangView { lang: Some("en"@), locale: Some("US"@) }),
    {
        Language { lang: Some(String::from_str("en")), locale: Some(String::from_str("US")) }
    }
}

impl Clone for Language {
    fn clone(&self) -> (r: Language)
        ensures
            r@ == self@,
    {
        Language {
            lang: match &self.lang {
                Some(s) => Some(s.clone()),
                None => None,
            },
            locale: match &self.locale {
                Some(s) => Some(s.clone()),
                None => None,
            },
        }
    }
}

/// The body of a request or response: the text payload, its encoding,
/// and application-defined extra fields. `content` and `encoding` are
/// reserved keys and never appear inside `other`.
pub struct Body {
    pub content: String,
    pub encoding: String,
    pub other: Vec<(String, JsonValue)>,
}

#[verifier::ext_equal]
pub struct BodyView {
    pub content: Seq<char>,
    pub encoding: Seq<char>,
    pub other: Seq<(Seq<char>, JsonVal)>,
}

impl View for Body {
    type V = BodyView;

    open spec fn view(&self) -> BodyView {
        BodyView {
            content: self.content@,
            encoding: self.encoding@,
            other: view_obj_from(self.other, 0),
        }
    }
}

impl Body {
    /// A body with the given content, encoding and extra fields.
    pub fn new(content: &str, encoding: &str, other: Option<Vec<(String, JsonValue)>>) -> (r: Body)
        ensures
            r@.content == content@,
            r@.encoding == encoding@,
            r@.other == match other {
                Some(o) => view_obj_from(o, 0),
                None => Seq::<(Seq<char>, JsonVal)>::empty(),
            },
    {
        Body {
            content: String::from_str(content),
            encoding: String::from_str(encoding),
            other: match other {
                Some(o) => o,
                None => Vec::new(),
            },
        }
    }
}

/// An inbound protocol request.
pub struct JsontpRequest {
    pub jsontp: String,
    pub type_of_request: String,
    pub method: String,
    pub resource: String,
    pub headers: Vec<(String, JsonValue)>,
    pub body: Body,
}

#[verifier::ext_equal]
pub struct RequestView {
    pub jsontp: Seq<char>,
    pub type_of_request: Seq<char>,
    pub method: Seq<char>,
    pub resource: Seq<char>,
    pub headers: Seq<(Seq<char>, JsonVal)>,
    pub body: BodyView,
}

impl View for JsontpRequest {
    type V = RequestView;

    open spec fn view(&self) -> RequestView {
        RequestView {
            jsontp: self.jsontp@,
            type_of_request: self.type_of_request@,
            method: self.method@,
            resource: self.resource@,
            headers: view_obj_from(self.headers, 0),
            body: self.body@,
        }
    }
}

/// The status of a response: numeric code, short formal name, and
/// descriptive human message.
pub struct Status {
    pub code: u16,
    pub formal_message: String,
    pub human_message: String,
}

#[verifier::ext_equal]
pub struct StatusView {
    pub code: u16,
    pub formal_message: Seq<char>,
    pub human_message: Seq<char>,
}

impl View for Status {
    type V = StatusView;

    open spec fn view(&self) -> StatusView {
        StatusView {
            code: self.code,
            formal_message: self.formal_message@,
            human_message: self.human_message@,
        }
    }
}

impl Status {
    /// The `<code> <formal message>` display form.
    pub fn render(&self) -> (r: String)
        ensures
            r@ == spec_digits(self.code as int) + " "@ + self.formal_message@,
    {
        let mut r = String::new();
        write_digits(&mut r, self.code as u64);
        push_char(&mut r, ' ');
        r.append(self.formal_message.as_str());
        proof {
            reveal_strlit(" ");
            assert(r@ =~= spec_digits(self.code as int) + " "@ + self.formal_message@);
        }
        r
    }
}

/// An outbound wire response: the only response shape ever serialized.
pub struct JsontpResponse {
    pub jsontp: String,
    pub type_of_response: String,
    pub status: Status,
    pub resource: String,
    pub headers: Vec<(String, JsonValue)>,
    pub body: Body,
}

#[verifier::ext_equal]
pub struct WireView {
    pub jsontp: Seq<char>,
    pub type_of_response: Seq<char>,
    pub status: StatusView,
    pub resource: Seq<char>,
    pub headers: Seq<(Seq<char>, JsonVal)>,
    pub body: BodyView,
}

impl View for JsontpResponse {
    type V = WireView;

    open spec fn view(&self) -> WireView {
        WireView {
            jsontp: self.jsontp@,
            type_of_response: self.type_of_response@,
            status: self.status@,
            resource: self.resource@,
            headers: view_obj_from(self.headers, 0),
            body: self.body@,
        }
    }
}

/// A handler's response, before conversion to the wire shape.
pub struct Response {
    pub body: Body,
    pub status: u16,
    pub cookies: Option<Vec<(String, String)>>,
    pub resource: String,
    pub language: Language,
    pub headers: Option<Vec<(String, JsonValue)>>,
}

#[verifier::ext_equal]
pub struct ResponseView {
    pub body: BodyView,
    pub status: u16,
    pub cookies: Option<Seq<(Seq<char>, Seq<char>)>>,
    pub resource: Seq<char>,
    pub language: LangView,
    pub headers: Option<Seq<(Seq<char>, JsonVal)>>,
}

/// The view of a cookie list.
pub open spec fn view_cookies(cs: Vec<(String, String)>) -> Seq<(Seq<char>, Seq<char>)> {
    Seq::new(cs@.len(), |i: int| (cs@[i].0@, cs@[i].1@))
}

impl View for Response {
    type V = ResponseView;

    open spec fn view(&self) -> ResponseView {
        ResponseView {
            body: self.body@,
            status: self.status,
            cookies: match self.cookies {
                Some(ref cs) => Some(view_cookies(*cs)),
                None => None,
            },
            resource: self.resource@,
            language: self.language@,
            headers: match self.headers {
                Some(ref hs) => Some(view_obj_from(*hs, 0)),
                None => None,
            },
        }
    }
}

/// The methods a request may carry.
pub open spec fn allowed_method(m: Seq<char>) -> bool {
    m == "GET"@ || m == "POST"@ || m == "PUT"@ || m == "DELETE"@
}

/// The encodings a body may carry.
pub open spec fn allowed_encoding(e: Seq<char>) -> bool {
    e == "gzip"@ || e == "deflate"@ || e == "br"@ || e == "identity"@
}

/// The validation verdict on a request: `Err` carries the description of
/// the first rule violated, in the order the rules are checked.
pub open spec fn spec_validate_request(r: RequestView) -> Result<(), Seq<char>> {
    if r.jsontp.len() == 0 {
        Err("Field jsontp is empty"@)
    } else if r.type_of_request.len() == 0 {
        Err("Field type is empty"@)
    } else if r.method.len() == 0 {
        Err("Field method is empty"@)
    } else if r.resource.len() == 0 {
        Err("Field resource is empty"@)
    } else if !allowed_method(r.method) {
        Err("Method "@ + r.method + " is not allowed"@)
    } else if r.type_of_request != "request"@ {
        Err("Type "@ + r.type_of_request + " is not allowed"@)
    } else if !allowed_encoding(r.body.encoding) {
        Err("Encoding "@ + r.body.encoding + " is not allowed"@)
    } else {
        Ok(())
    }
}

/// The validation verdict on a handler's response.
pub open spec fn spec_validate_response(r: ResponseView) -> Result<(), Seq<char>> {
    if r.body.content.len() == 0 {
        Err("Body is empty"@)
    } else if r.status < 100 || r.status > 599 {
        Err("Status code is not in the range 100-599"@)
    } else if r.body.encoding.len() == 0 {
        Err("Body encoding is empty"@)
    } else if !allowed_encoding(r.body.encoding) {
        Err("Body encoding is not allowed"@)
    } else {
        Ok(())
    }
}

/// Whether an executable verdict agrees with a specification verdict,
/// message for message.
pub open spec fn same_verdict(r: Result<(), String>, s: Result<(), Seq<char>>) -> bool {
    match r {
        Ok(()) => s is Ok,
        Err(m) => match s {
            Ok(()) => false,
            Err(e) => m@ == e,
        },
    }
}

impl JsontpRequest {
    /// Checks the request against the protocol's validity rules.
    pub fn validate(&self) -> (r: Result<(), String>)
        ensures
            same_verdict(r, spec_validate_request(self@)),
    {
        if self.jsontp.as_str().is_empty() {
            Err(String::from_str("Field jsontp is empty"))
        } else if self.type_of_request.as_str().is_empty() {
            Err(String::from_str("Field type is empty"))
        } else if self.method.as_str().is_empty() {
            Err(String::from_str("Field method is empty"))
        } else if self.resource.as_str().is_empty() {
            Err(String::from_str("Field resource is empty"))
        } else if !(str_eq(self.method.as_str(), "GET") || str_eq(self.method.as_str(), "POST")
            || str_eq(self.method.as_str(), "PUT") || str_eq(self.method.as_str(), "DELETE")) {
            let m = String::from_str("Method ").concat(self.method.as_str()).concat(
                " is not allowed",
            );
            proof {
                assert(m@ =~= "Method "@ + self.method@ + " is not allowed"@);
            }
            Err(m)
        } else if !str_eq(self.type_of_request.as_str(), "request") {
            let m = String::from_str("Type ").concat(self.type_of_request.as_str()).concat(
                " is not allowed",
            );
            proof {
                assert(m@ =~= "Type "@ + self.type_of_request@ + " is not allowed"@);
            }
            Err(m)
        } else if !(str_eq(self.body.encoding.as_str(), "gzip") || str_eq(
            self.body.encoding.as_str(),
            "deflate",
        ) || str_eq(self.body.encoding.as_str(), "br") || str_eq(
            self.body.encoding.as_str(),
            "identity",
        )) {
            let m = String::from_str("Encoding ").concat(self.body.encoding.as_str()).concat(
                " is not allowed",
            );
            proof {
                assert(m@ =~= "Encoding "@ + self.body.encoding@ + " is not allowed"@);
            }
            Err(m)
        } else {
            Ok(())
        }
    }
}

impl Response {
    /// A response assembled from its parts.
    pub fn new_manual(
        body: Body,
        status: u16,
        cookies: Option<Vec<(String, String)>>,
        resource: String,
        language: Language,
        headers: Option<Vec<(String, JsonValue)>>,
    ) -> (r: Response)
        ensures
            r.body == body,
            r.status == status,
            r.cookies == cookies,
            r.resource == resource,
            r.language == language,
            r.headers == headers,
    {
        Response { body, status, cookies, resource, language, headers }
    }

    /// Checks the response against the protocol's validity rules.
    pub fn validate(&self) -> (r: Result<(), String>)
        ensures
            same_verdict(r, spec_validate_response(self@)),
    {
        if self.body.content.as_str().is_empty() {
            Err(String::from_str("Body is empty"))
        } else if self.status < 100 || self.status > 599 {
            Err(String::from_str("Status code is not in the range 100-599"))
        } else if self.body.encoding.as_str().is_empty() {
            Err(String::from_str("Body encoding is empty"))
        } else if !(str_eq(self.body.encoding.as_str(), "gzip") || str_eq(
            self.body.encoding.as_str(),
            "deflate",
        ) || str_eq(self.body.encoding.as_str(), "br") || str_eq(
            self.body.encoding.as_str(),
            "identity",
        )) {
            Err(String::from_str("Body encoding is not allowed"))
        } else {
            Ok(())
        }
    }
}

/// The first value stored under `key`, if any: in a document that
/// binds a key more than once, the first binding is the one read.
/// Documents this library builds bind each key at most once, since
/// every producer replaces an entry its key already has.
pub open spec fn spec_lookup(entries: Seq<(Seq<char>, JsonVal)>, key: Seq<char>) -> Option<JsonVal>
    decreases entries.len(),
{
    if entries.len() == 0 {
        None
    } else if entries[0].0 == key {
        Some(entries[0].1)
    } else {
        spec_lookup(entries.drop_first(), key)
    }
}

/// Finds the first entry stored under `key`.
pub fn lookup_header<'a>(headers: &'a Vec<(String, JsonValue)>, key: &str) -> (r: Option<
    &'a JsonValue,
>)
    ensures
        match r {
            Some(v) => spec_lookup(view_obj_from(*headers, 0), key@) == Some(v@),
            None => spec_lookup(view_obj_from(*headers, 0), key@) is None,
        },
{
    proof {
        crate::json::lemma_view_obj_from(*headers, 0);
        assert(view_obj_from(*headers, 0).skip(0) =~= view_obj_from(*headers, 0));
    }
    let ghost entries = view_obj_from(*headers, 0);
    let mut i: usize = 0;
    while i < headers.len()
        invariant
            i <= headers@.len(),
            entries == view_obj_from(*headers, 0),
            entries.len() == headers@.len(),
            forall|j: int|
                0 <= j < entries.len() ==> entries[j] == (headers[j].0@, view_val(headers[j].1)),
            spec_lookup(entries, key@) == spec_lookup(entries.skip(i as int), key@),
        decreases headers@.len() - i,
    {
        if str_eq(headers[i].0.as_str(), key) {
            proof {
                assert(entries.skip(i as int)[0] == entries[i as int]);
            }
            return Some(&headers[i].1);
        }
        proof {
            assert(entries.skip(i as int).drop_first() =~= entries.skip(i as int + 1));
            assert(entries.skip(i as int)[0] == entries[i as int]);
        }
        i += 1;
    }
    proof {
        assert(entries.skip(i as int).len() == 0);
    }
    None
}

/// Whether one declared acceptable language admits the candidate: it
/// equals the rendered form, or the language component, or `*`.
pub open spec fn lang_match(s: Seq<char>, l: LangView) -> bool {
    ||| s == spec_render(l)
    ||| (l.lang matches Some(lg) && s == lg)
    ||| s == "*"@
}

/// Whether the `accept-language` header value (if any) admits the
/// candidate language: absent means no constraint; a string is checked
/// by `lang_match`; an array succeeds when any string entry matches; any
/// other shape is unacceptable.
pub open spec fn spec_acceptable(hv: Option<JsonVal>, l: LangView) -> bool {
    match hv {
        None => true,
        Some(JsonVal::Str(s)) => lang_match(s, l),
        Some(JsonVal::Arr(items)) => exists|i: int|
            0 <= i < items.len() && (#[trigger] items[i] matches JsonVal::Str(s) && lang_match(
                s,
                l,
            )),
        Some(_) => false,
    }
}

/// Whether `s` admits the candidate language `l`.
pub fn lang_match_exec(s: &str, l: &Language) -> (r: bool)
    ensures
        r == lang_match(s@, l@),
{
    let rendered = l.render();
    if str_eq(s, rendered.as_str()) {
        return true;
    }
    match &l.lang {
        Some(lg) => {
            if str_eq(s, lg.as_str()) {
                return true;
            }
        },
        None => {},
    }
    str_eq(s, "*")
}

/// Whether the request's `accept-language` header admits the candidate.
pub fn language_acceptable(headers: &Vec<(String, JsonValue)>, l: &Language) -> (r: bool)
    ensures
        r == spec_acceptable(spec_lookup(view_obj_from(*headers, 0), "accept-language"@), l@),
{
    match lookup_header(headers, "accept-language") {
        None => true,
        Some(v) => {
            let ghost looked = spec_lookup(view_obj_from(*headers, 0), "accept-language"@);
            proof {
                assert(looked == Some(v@));
            }
            match v {
                JsonValue::Str(s) => lang_match_exec(s.as_str(), l),
                JsonValue::Arr(items) => {
                    proof {
                        crate::json::lemma_view_arr_from(*items, 0);
                        assert(v@ == JsonVal::Arr(crate::json::view_arr_from(*items, 0)));
                    }
                    let ghost vals = crate::json::view_arr_from(*items, 0);
            let mut i: usize = 0;
            while i < items.len()
                invariant
                    i <= items@.len(),
                    looked == Some(JsonVal::Arr(vals)),
                    looked == spec_lookup(view_obj_from(*headers, 0), "accept-language"@),
                    vals == crate::json::view_arr_from(*items, 0),
                    vals.len() == items@.len(),
                    forall|j: int| 0 <= j < vals.len() ==> vals[j] == view_val(items[j]),
                    forall|j: int|
                        0 <= j < i ==> !(#[trigger] vals[j] matches JsonVal::Str(s) && lang_match(
                            s,
                            l@,
                        )),
                decreases items@.len() - i,
            {
                match &items[i] {
                    JsonValue::Str(s) => {
                        if lang_match_exec(s.as_str(), l) {
                            proof {
                                assert(vals[i as int] matches JsonVal::Str(t) && lang_match(
                                    t,
                                    l@,
                                ));
                                assert(spec_acceptable(looked, l@));
                            }
                            return true;
                        }
                    },
                    _ => {},
                }
                i += 1;
            }
            false
                },
                _ => false,
            }
        },
    }
}

/// The response `to_response` builds: the fixed `406` rejection when the
/// request does not accept the candidate language; otherwise the `400`
/// echo of the first validation failure; otherwise the response built
/// from the handler's parts, echoing the request's resource.
pub open spec fn spec_to_response(
    req: RequestView,
    body: BodyView,
    status: u16,
    cookies: Option<Seq<(Seq<char>, Seq<char>)>>,
    language: LangView,
    headers: Option<Seq<(Seq<char>, JsonVal)>>,
) -> ResponseView {
    if !spec_acceptable(spec_lookup(req.headers, "accept-language"@), language) {
        ResponseView {
            body: BodyView {
                content: "Language not supported"@,
                encoding: "identity"@,
                other: Seq::empty(),
            },
            status: 406,
            cookies: None,
            resource: req.resource,
            language,
            headers: None,
        }
    } else {
        match spec_validate_request(req) {
            Ok(()) => ResponseView { body, status, cookies, resource: req.resource, language, headers },
            Err(e) => ResponseView {
                body: BodyView { content: e, encoding: "identity"@, other: Seq::empty() },
                status: 400,
                cookies: None,
                resource: req.resource,
                language,
                headers: None,
            },
        }
    }
}

impl JsontpRequest {
    /// Builds a response to this request from the handler's parts,
    /// negotiating the language and validating the request first.
    pub fn to_response(
        &self,
        body: Body,
        status: u16,
        cookies: Option<Vec<(String, String)>>,
        language: Language,
        headers: Option<Vec<(String, JsonValue)>>,
    ) -> (r: Response)
        ensures
            r@ == spec_to_response(self@, body@, status, match cookies {
                Some(ref cs) => Some(view_cookies(*cs)),
                None => None,
            }, language@, match headers {
                Some(ref hs) => Some(view_obj_from(*hs, 0)),
                None => None,
            }),
    {
        if !language_acceptable(&self.headers, &language) {
            Response {
                body: Body::new("Language not supported", "identity", None),
                status: 406,
                cookies: None,
                resource: self.resource.clone(),
                language,
                headers: None,
            }
        } else {
            match self.validate() {
                Ok(()) => Response {
                    body,
                    status,
                    cookies,
                    resource: self.resource.clone(),
                    language,
                    headers,
                },
                Err(e) => Response {
                    body: Body { content: e, encoding: String::from_str("identity"), other: Vec::new() },
                    status: 400,
                    cookies: None,
                    resource: self.resource.clone(),
                    language,
                    headers: None,
                },
            }
        }
    }
}

/// Cookie entries bound into a header list, each replacing an entry
/// its key already has.
pub open spec fn spec_fold_cookies(
    es: Seq<(Seq<char>, JsonVal)>,
    cs: Seq<(Seq<char>, Seq<char>)>,
    i: int,
) -> Seq<(Seq<char>, JsonVal)>
    decreases cs.len() - i,
{
    if i < 0 || i >= cs.len() {
        es
    } else {
        spec_fold_cookies(spec_set_entry(es, cs[i].0, JsonVal::Str(cs[i].1)), cs, i + 1)
    }
}

/// The headers of the wire response: the response's declared headers
/// with the date header, the rendered language header, and the cookies
/// bound in, in that order. Each binding replaces an entry its key
/// already has, so the injected values win.
pub open spec fn spec_wire_headers(r: ResponseView, date: Seq<char>) -> Seq<(Seq<char>, JsonVal)> {
    let base = match r.headers {
        Some(hs) => hs,
        None => Seq::<(Seq<char>, JsonVal)>::empty(),
    };
    let with_date = spec_set_entry(base, "date"@, JsonVal::Str(date));
    let with_lang = spec_set_entry(with_date, "language"@, JsonVal::Str(spec_render(r.language)));
    match r.cookies {
        Some(cs) => spec_fold_cookies(with_lang, cs, 0),
        None => with_lang,
    }
}

/// The wire response built from a handler's response at a given moment:
/// a valid response keeps its numeric status with the catalog's
/// messages and its body content; an invalid one becomes a 400 carrying
/// the violation message as its body content.
pub open spec fn spec_wire_of(r: ResponseView, now: DateParts) -> WireView {
    let parts = match spec_validate_response(r) {
        Ok(()) => (
            StatusView {
                code: r.status,
                formal_message: spec_formal_message(r.status),
                human_message: spec_human_message(r.status),
            },
            BodyView { content: r.body.content, encoding: r.body.encoding, other: Seq::empty() },
        ),
        Err(m) => (
            StatusView { code: 400, formal_message: "Bad Request"@, human_message: m },
            BodyView { content: m, encoding: "identity"@, other: Seq::empty() },
        ),
    };
    WireView {
        jsontp: "1.0-rc1"@,
        type_of_response: "response"@,
        status: parts.0,
        resource: r.resource,
        headers: spec_wire_headers(r, spec_date_string(now)),
        body: parts.1,
    }
}

impl Response {
    /// Converts into the wire shape as of the given moment.
    #[verifier::loop_isolation(false)]
    pub fn to_jsontp_response_at(self, now: &DateParts) -> (r: JsontpResponse)
        ensures
            r@ == spec_wire_of(self@, *now),
    {
        let ghost rv = self@;
        let (status, wire_body): (Status, Body) = match self.validate() {
            Ok(()) => (
                categorise(self.status),
                Body {
                    content: self.body.content,
                    encoding: self.body.encoding,
                    other: Vec::new(),
                },
            ),
            Err(m) => {
                let content = m.clone();
                (
                    Status {
                        code: 400,
                        formal_message: String::from_str("Bad Request"),
                        human_message: m,
                    },
                    Body { content, encoding: String::from_str("identity"), other: Vec::new() },
                )
            },
        };
        proof {
            lemma_view_obj_from(wire_body.other, 0);
            assert(status@ =~= spec_wire_of(rv, *now).status);
            assert(wire_body@ =~= spec_wire_of(rv, *now).body);
        }
        let rendered = self.language.render();
        let mut headers: Vec<(String, JsonValue)> = match self.headers {
            Some(h) => h,
            None => Vec::new(),
        };
        let ghost hs0 = view_obj_from(headers, 0);
        proof {
            lemma_view_obj_from(headers, 0);
            assert(hs0 == match rv.headers {
                Some(hs) => hs,
                None => Seq::<(Seq<char>, JsonVal)>::empty(),
            });
        }
        set_entry(&mut headers, String::from_str("date"), JsonValue::Str(format_date(now)));
        set_entry(&mut headers, String::from_str("language"), JsonValue::Str(rendered));
        let ghost with_lang = view_obj_from(headers, 0);
        proof {
            assert(with_lang == spec_set_entry(
                spec_set_entry(hs0, "date"@, JsonVal::Str(spec_date_string(*now))),
                "language"@,
                JsonVal::Str(spec_render(rv.language)),
            ));
        }
        match self.cookies {
            Some(cs) => {
                let ghost ckv = view_cookies(cs);
                proof {
                    assert forall|j: int| 0 <= j < cs@.len() implies ckv[j] == (
                        cs@[j].0@,
                        cs@[j].1@,
                    ) by {}
                }
                let mut i: usize = 0;
                while i < cs.len()
                    invariant
                        i <= cs@.len(),
                        spec_fold_cookies(view_obj_from(headers, 0), ckv, i as int)
                            == spec_fold_cookies(with_lang, ckv, 0),
                    decreases cs@.len() - i,
                {
                    let ghost before = view_obj_from(headers, 0);
                    set_entry(&mut headers, cs[i].0.clone(), JsonValue::Str(cs[i].1.clone()));
                    proof {
                        assert(view_obj_from(headers, 0) == spec_set_entry(
                            before,
                            ckv[i as int].0,
                            JsonVal::Str(ckv[i as int].1),
                        ));
                    }
                    i += 1;
                }
            },
            None => {},
        }
        let r = JsontpResponse {
            jsontp: String::from_str("1.0-rc1"),
            type_of_response: String::from_str("response"),
            status,
            resource: self.resource,
            headers,
            body: wire_body,
        };
        proof {
            assert(r@ =~= spec_wire_of(rv, *now));
        }
        r
    }

    /// Converts into the wire shape as of the current moment.
    pub fn to_jsontp_response(self) -> (r: JsontpResponse)
        ensures
            exists|n: DateParts| #[trigger] date_wf(n) && r@ == spec_wire_of(self@, n),
    {
        let ghost sv = self@;
        let now = now_parts();
        let r = self.to_jsontp_response_at(&now);
        proof {
            assert(date_wf(now) && r@ == spec_wire_of(sv, now));
        }
        r
    }
}

/// Validation is repeatable: two verdicts on the same request agree, so
/// re-validating an already-valid request succeeds again.
pub proof fn lemma_revalidation_succeeds(a: Result<(), String>, b: Result<(), String>, r: RequestView)
    requires
        same_verdict(a, spec_validate_request(r)),
        same_verdict(b, spec_validate_request(r)),
        a is Ok,
    ensures
        b is Ok,
{
}

/// Negotiation is repeatable: two verdicts on the same header value and
/// candidate language agree.
pub proof fn lemma_negotiation_repeatable(a: bool, b: bool, hv: Option<JsonVal>, l: LangView)
    requires
        a == spec_acceptable(hv, l),
        b == spec_acceptable(hv, l),
    ensures
        a == b,
{
}

} // verus!
