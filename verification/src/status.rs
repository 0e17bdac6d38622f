//! The status catalog: a static mapping from numeric status code to a
//! formal short name and a human-readable description.

use vstd::prelude::*;

use crate::model::Status;

verus! {

use vstd::string::StringExecFns;

/// The formal short name for a status code; codes outside the catalog
/// get the generic server-error name.
pub open spec fn spec_formal_message(code: u16) -> Seq<char> {
    if code == 100 {
        "Continue"@
    } else if code == 101 {
        "Switching Protocols"@
    } else if code == 102 {
        "Processing"@
    } else if code == 103 {
        "Early Hints"@
    } else if code == 200 {
        "OK"@
    } else if code == 201 {
        "Created"@
    } else if code == 202 {
        "Accepted"@
    } else if code == 203 {
        "Non-Authoritative Information"@
    } else if code == 204 {
        "No Content"@
    } else if code == 205 {
        "Reset Content"@
    } else if code == 206 {
        "Partial Content"@
    } else if code == 207 {
        "Multi-Status"@
    } else if code == 208 {
        "Already Reported"@
    } else if code == 226 {
        "IM Used"@
    } else if code == 300 {
        "Multiple Choices"@
    } else if code == 301 {
        "Moved Permanently"@
    } else if code == 302 {
        "Found"@
    } else if code == 303 {
        "See Other"@
    } else if code == 304 {
        "Not Modified"@
    } else if code == 305 {
        "Use Proxy"@
    } else if code == 306 {
        "Switch Proxy"@
    } else if code == 307 {
        "Temporary Redirect"@
    } else if code == 308 {
        "Permanent Redirect"@
    } else if code == 400 {
        "Bad Request"@
    } else if code == 401 {
        "Unauthorized"@
    } else if code == 402 {
        "Payment Required"@
    } else if code == 403 {
        "Forbidden"@
    } else if code == 404 {
        "Not Found"@
    } else if code == 405 {
        "Method Not Allowed"@
    } else if code == 406 {
        "Not Acceptable"@
    } else if code == 407 {
        "Proxy Authentication Required"@
    } else if code == 408 {
        "Request Timeout"@
    } else if code == 409 {
        "Conflict"@
    } else if code == 410 {
        "Gone"@
    } else if code == 411 {
        "Length Required"@
    } else if code == 412 {
        "Precondition Failed"@
    } else if code == 413 {
        "Payload Too Large"@
    } else if code == 414 {
        "URI Too Long"@
    } else if code == 415 {
        "Unsupported Media Type"@
    } else if code == 416 {
        "Range Not Satisfiable"@
    } else if code == 417 {
        "Expectation Failed"@
    } else if code == 418 {
        "I'm a teapot"@
    } else if code == 421 {
        "Misdirected Request"@
    } else if code == 422 {
        "Unprocessable Entity"@
    } else if code == 423 {
        "Locked"@
    } else if code == 424 {
        "Failed Dependency"@
    } else if code == 425 {
        "Too Early"@
    } else if code == 426 {
        "Upgrade Required"@
    } else if code == 428 {
        "Precondition Required"@
    } else if code == 429 {
        "Too Many Requests"@
    } else if code == 431 {
        "Request Header Fields Too Large"@
    } else if code == 451 {
        "Unavailable For Legal Reasons"@
    } else if code == 500 {
        "Internal Server Error"@
    } else if code == 501 {
        "Not Implemented"@
    } else if code == 502 {
        "Bad Gateway"@
    } else if code == 503 {
        "Service Unavailable"@
    } else if code == 504 {
        "Gateway Timeout"@
    } else if code == 505 {
        "jsontp Version Not Supported"@
    } else if code == 506 {
        "Variant Also Negotiates"@
    } else if code == 507 {
        "Insufficient Storage"@
    } else if code == 508 {
        "Loop Detected"@
    } else if code == 510 {
        "Not Extended"@
    } else if code == 511 {
        "Network Authentication Required"@
    } else {
        "Internal Server Error"@
    }
}

/// The human-readable description for a status code; codes outside the
/// catalog get the generic description.
pub open spec fn spec_human_message(code: u16) -> Seq<char> {
    if code == 100 {
        "The server has received the request headers and the client should proceed to send the request again, but now in full."@
    } else if code == 101 {
        "The requester has asked the server to switch protocols and the server has agreed to do so"@
    } else if code == 102 {
        "The server has received and is processing the request, but no response is available yet"@
    } else if code == 103 {
        "Used to return some response headers before final jsontp message"@
    } else if code == 200 {
        "The request has succeeded"@
    } else if code == 201 {
        "The request has been fulfilled and has resulted in one or more new resources being created"@
    } else if code == 202 {
        "The request has been accepted for processing, but the processing has not been completed"@
    } else if code == 203 {
        "The server is a transforming proxy that received a 200 OK from its origin, but is returning a modified version of the origin's response"@
    } else if code == 204 {
        "The server successfully processed the request and is not returning any content"@
    } else if code == 205 {
        "The server successfully processed the request, but is not returning any content"@
    } else if code == 206 {
        "The server is delivering only part of the resource due to a range header sent by the client"@
    } else if code == 207 {
        "The message body that follows is by default an XML message and can contain a number of separate response codes, depending on how many sub-requests were made"@
    } else if code == 208 {
        "The members of a DAV binding have already been enumerated in a previous reply to this request, and are not being included again"@
    } else if code == 226 {
        "The server has fulfilled a GET request for the resource, and the response is a representation of the result of one or more instance-manipulations applied to the current instance"@
    } else if code == 300 {
        "Indicates multiple options for the resource from which the client may choose"@
    } else if code == 301 {
        "This and all future requests should be directed to the given URI"@
    } else if code == 302 {
        "Tells the client to look at (browse to) another URL"@
    } else if code == 303 {
        "The response to the request can be found under another URI using a GET method"@
    } else if code == 304 {
        "Indicates that the resource has not been modified since the version specified by the request headers If-Modified-Since or If-None-Match"@
    } else if code == 305 {
        "The requested resource is available only through a proxy, the address for which is provided in the response"@
    } else if code == 306 {
        "No longer used"@
    } else if code == 307 {
        "The request should be repeated with another URI; however, future requests should still use the original URI"@
    } else if code == 308 {
        "The request and all future requests should be repeated using another URI"@
    } else if code == 400 {
        "The server cannot or will not process the request due to an apparent client error"@
    } else if code == 401 {
        "Similar to 403 Forbidden, but specifically for use when authentication is required and has failed or has not yet been provided"@
    } else if code == 402 {
        "Reserved for future use"@
    } else if code == 403 {
        "The request contained valid data and was understood by the server, but the server is refusing action"@
    } else if code == 404 {
        "The requested resource could not be found but may be available in the future"@
    } else if code == 405 {
        "A request method is not supported for the requested resource"@
    } else if code == 406 {
        "The requested resource is capable of generating only content not acceptable according to the Accept headers sent in the request"@
    } else if code == 407 {
        "The client must first authenticate itself with the proxy"@
    } else if code == 408 {
        "The server timed out waiting for the request"@
    } else if code == 409 {
        "Indicates that the request could not be processed because of conflict in the request"@
    } else if code == 410 {
        "Indicates that the resource requested is no longer available and will not be available again"@
    } else if code == 411 {
        "The request did not specify the length of its content, which is required by the requested resource"@
    } else if code == 412 {
        "The server does not meet one of the preconditions that the requester put on the request"@
    } else if code == 413 {
        "The request is larger than the server is willing or able to process"@
    } else if code == 414 {
        "The URI provided was too long for the server to process"@
    } else if code == 415 {
        "The request entity has a media type which the server or resource does not support"@
    } else if code == 416 {
        "The client has asked for a portion of the file, but the server cannot supply that portion"@
    } else if code == 417 {
        "The server cannot meet the requirements of the Expect request-header field"@
    } else if code == 418 {
        "The server refuses the attempt to brew coffee with a teapot"@
    } else if code == 421 {
        "The request was directed at a server that is not able to produce a response"@
    } else if code == 422 {
        "The request was well-formed but was unable to be followed due to semantic errors"@
    } else if code == 423 {
        "The resource that is being accessed is locked"@
    } else if code == 424 {
        "The request failed due to failure of a previous request"@
    } else if code == 425 {
        "Indicates that the server is unwilling to risk processing a request that might be replayed"@
    } else if code == 426 {
        "The client should switch to a different protocol such as TLS/1.0"@
    } else if code == 428 {
        "The origin server requires the request to be conditional"@
    } else if code == 429 {
        "The user has sent too many requests in a given amount of time"@
    } else if code == 431 {
        "The server is unwilling to process the request because either an individual header field, or all the header fields collectively, are too large"@
    } else if code == 451 {
        "A server operator has received a legal demand to deny access to a resource or to a set of resources that includes the requested resource"@
    } else if code == 500 {
        "A generic error message, given when an unexpected condition was encountered and no more specific message is suitable"@
    } else if code == 501 {
        "The server either does not recognize the request method, or it lacks the ability to fulfill the request"@
    } else if code == 502 {
        "The server was acting as a gateway or proxy and received an invalid response from the upstream server"@
    } else if code == 503 {
        "The server is not ready to handle the request"@
    } else if code == 504 {
        "The server was acting as a gateway or proxy and did not receive a timely response from the upstream server"@
    } else if code == 505 {
        "The server does not support the jsontp protocol version used in the request"@
    } else if code == 506 {
        "Transparent content negotiation for the request results in a circular reference"@
    } else if code == 507 {
        "The server is unable to store the representation needed to complete the request"@
    } else if code == 508 {
        "The server detected an infinite loop while processing the request"@
    } else if code == 510 {
        "Further extensions to the request are required for the server to fulfill it"@
    } else if code == 511 {
        "The client needs to authenticate to gain network access"@
    } else {
        "The callback provided an incorrect error code."@
    }
}

/// Enriches a numeric status code into a displayable status. The
/// caller's numeric code is always preserved; codes outside the catalog
/// get the generic description.
pub fn categorise(code: u16) -> (r: Status)
    ensures
        r.code == code,
        r.formal_message@ == spec_formal_message(code),
        r.human_message@ == spec_human_message(code),
{
    let (f, h): (&str, &str) = if code == 100 {
        ("Continue", "The server has received the request headers and the client should proceed to send the request again, but now in full.")
    } else if code == 101 {
        ("Switching Protocols", "The requester has asked the server to switch protocols and the server has agreed to do so")
    } else if code == 102 {
        ("Processing", "The server has received and is processing the request, but no response is available yet")
    } else if code == 103 {
        ("Early Hints", "Used to return some response headers before final jsontp message")
    } else if code == 200 {
        ("OK", "The request has succeeded")
    } else if code == 201 {
        ("Created", "The request has been fulfilled and has resulted in one or more new resources being created")
    } else if code == 202 {
        ("Accepted", "The request has been accepted for processing, but the processing has not been completed")
    } else if code == 203 {
        ("Non-Authoritative Information", "The server is a transforming proxy that received a 200 OK from its origin, but is returning a modified version of the origin's response")
    } else if code == 204 {
        ("No Content", "The server successfully processed the request and is not returning any content")
    } else if code == 205 {
        ("Reset Content", "The server successfully processed the request, but is not returning any content")
    } else if code == 206 {
        ("Partial Content", "The server is delivering only part of the resource due to a range header sent by the client")
    } else if code == 207 {
        ("Multi-Status", "The message body that follows is by default an XML message and can contain a number of separate response codes, depending on how many sub-requests were made")
    } else if code == 208 {
        ("Already Reported", "The members of a DAV binding have already been enumerated in a previous reply to this request, and are not being included again")
    } else if code == 226 {
        ("IM Used", "The server has fulfilled a GET request for the resource, and the response is a representation of the result of one or more instance-manipulations applied to the current instance")
    } else if code == 300 {
        ("Multiple Choices", "Indicates multiple options for the resource from which the client may choose")
    } else if code == 301 {
        ("Moved Permanently", "This and all future requests should be directed to the given URI")
    } else if code == 302 {
        ("Found", "Tells the client to look at (browse to) another URL")
    } else if code == 303 {
        ("See Other", "The response to the request can be found under another URI using a GET method")
    } else if code == 304 {
        ("Not Modified", "Indicates that the resource has not been modified since the version specified by the request headers If-Modified-Since or If-None-Match")
    } else if code == 305 {
        ("Use Proxy", "The requested resource is available only through a proxy, the address for which is provided in the response")
    } else if code == 306 {
        ("Switch Proxy", "No longer used")
    } else if code == 307 {
        ("Temporary Redirect", "The request should be repeated with another URI; however, future requests should still use the original URI")
    } else if code == 308 {
        ("Permanent Redirect", "The request and all future requests should be repeated using another URI")
    } else if code == 400 {
        ("Bad Request", "The server cannot or will not process the request due to an apparent client error")
    } else if code == 401 {
        ("Unauthorized", "Similar to 403 Forbidden, but specifically for use when authentication is required and has failed or has not yet been provided")
    } else if code == 402 {
        ("Payment Required", "Reserved for future use")
    } else if code == 403 {
        ("Forbidden", "The request contained valid data and was understood by the server, but the server is refusing action")
    } else if code == 404 {
        ("Not Found", "The requested resource could not be found but may be available in the future")
    } else if code == 405 {
        ("Method Not Allowed", "A request method is not supported for the requested resource")
    } else if code == 406 {
        ("Not Acceptable", "The requested resource is capable of generating only content not acceptable according to the Accept headers sent in the request")
    } else if code == 407 {
        ("Proxy Authentication Required", "The client must first authenticate itself with the proxy")
    } else if code == 408 {
        ("Request Timeout", "The server timed out waiting for the request")
    } else if code == 409 {
        ("Conflict", "Indicates that the request could not be processed because of conflict in the request")
    } else if code == 410 {
        ("Gone", "Indicates that the resource requested is no longer available and will not be available again")
    } else if code == 411 {
        ("Length Required", "The request did not specify the length of its content, which is required by the requested resource")
    } else if code == 412 {
        ("Precondition Failed", "The server does not meet one of the preconditions that the requester put on the request")
    } else if code == 413 {
        ("Payload Too Large", "The request is larger than the server is willing or able to process")
    } else if code == 414 {
        ("URI Too Long", "The URI provided was too long for the server to process")
    } else if code == 415 {
        ("Unsupported Media Type", "The request entity has a media type which the server or resource does not support")
    } else if code == 416 {
        ("Range Not Satisfiable", "The client has asked for a portion of the file, but the server cannot supply that portion")
    } else if code == 417 {
        ("Expectation Failed", "The server cannot meet the requirements of the Expect request-header field")
    } else if code == 418 {
        ("I'm a teapot", "The server refuses the attempt to brew coffee with a teapot")
    } else if code == 421 {
        ("Misdirected Request", "The request was directed at a server that is not able to produce a response")
    } else if code == 422 {
        ("Unprocessable Entity", "The request was well-formed but was unable to be followed due to semantic errors")
    } else if code == 423 {
        ("Locked", "The resource that is being accessed is locked")
    } else if code == 424 {
        ("Failed Dependency", "The request failed due to failure of a previous request")
    } else if code == 425 {
        ("Too Early", "Indicates that the server is unwilling to risk processing a request that might be replayed")
    } else if code == 426 {
        ("Upgrade Required", "The client should switch to a different protocol such as TLS/1.0")
    } else if code == 428 {
        ("Precondition Required", "The origin server requires the request to be conditional")
    } else if code == 429 {
        ("Too Many Requests", "The user has sent too many requests in a given amount of time")
    } else if code == 431 {
        ("Request Header Fields Too Large", "The server is unwilling to process the request because either an individual header field, or all the header fields collectively, are too large")
    } else if code == 451 {
        ("Unavailable For Legal Reasons", "A server operator has received a legal demand to deny access to a resource or to a set of resources that includes the requested resource")
    } else if code == 500 {
        ("Internal Server Error", "A generic error message, given when an unexpected condition was encountered and no more specific message is suitable")
    } else if code == 501 {
        ("Not Implemented", "The server either does not recognize the request method, or it lacks the ability to fulfill the request")
    } else if code == 502 {
        ("Bad Gateway", "The server was acting as a gateway or proxy and received an invalid response from the upstream server")
    } else if code == 503 {
        ("Service Unavailable", "The server is not ready to handle the request")
    } else if code == 504 {
        ("Gateway Timeout", "The server was acting as a gateway or proxy and did not receive a timely response from the upstream server")
    } else if code == 505 {
        ("jsontp Version Not Supported", "The server does not support the jsontp protocol version used in the request")
    } else if code == 506 {
        ("Variant Also Negotiates", "Transparent content negotiation for the request results in a circular reference")
    } else if code == 507 {
        ("Insufficient Storage", "The server is unable to store the representation needed to complete the request")
    } else if code == 508 {
        ("Loop Detected", "The server detected an infinite loop while processing the request")
    } else if code == 510 {
        ("Not Extended", "Further extensions to the request are required for the server to fulfill it")
    } else if code == 511 {
        ("Network Authentication Required", "The client needs to authenticate to gain network access")
    } else {
        ("Internal Server Error", "The callback provided an incorrect error code.")
    };
    Status { code, formal_message: String::from_str(f), human_message: String::from_str(h) }
}

/// Every catalog lookup keeps the caller's numeric code, and the formal
/// name it attaches is never empty.
pub proof fn lemma_formal_message_nonempty(code: u16)
    ensures
        spec_formal_message(code).len() > 0,
{
    reveal_strlit("Continue");
    reveal_strlit("Switching Protocols");
    reveal_strlit("Processing");
    reveal_strlit("Early Hints");
    reveal_strlit("OK");
    reveal_strlit("Created");
    reveal_strlit("Accepted");
    reveal_strlit("Non-Authoritative Information");
    reveal_strlit("No Content");
    reveal_strlit("Reset Content");
    reveal_strlit("Partial Content");
    reveal_strlit("Multi-Status");
    reveal_strlit("Already Reported");
    reveal_strlit("IM Used");
    reveal_strlit("Multiple Choices");
    reveal_strlit("Moved Permanently");
    reveal_strlit("Found");
    reveal_strlit("See Other");
    reveal_strlit("Not Modified");
    reveal_strlit("Use Proxy");
    reveal_strlit("Switch Proxy");
    reveal_strlit("Temporary Redirect");
    reveal_strlit("Permanent Redirect");
    reveal_strlit("Bad Request");
    reveal_strlit("Unauthorized");
    reveal_strlit("Payment Required");
    reveal_strlit("Forbidden");
    reveal_strlit("Not Found");
    reveal_strlit("Method Not Allowed");
    reveal_strlit("Not Acceptable");
    reveal_strlit("Proxy Authentication Required");
    reveal_strlit("Request Timeout");
    reveal_strlit("Conflict");
    reveal_strlit("Gone");
    reveal_strlit("Length Required");
    reveal_strlit("Precondition Failed");
    reveal_strlit("Payload Too Large");
    reveal_strlit("URI Too Long");
    reveal_strlit("Unsupported Media Type");
    reveal_strlit("Range Not Satisfiable");
    reveal_strlit("Expectation Failed");
    reveal_strlit("I'm a teapot");
    reveal_strlit("Misdirected Request");
    reveal_strlit("Unprocessable Entity");
    reveal_strlit("Locked");
    reveal_strlit("Failed Dependency");
    reveal_strlit("Too Early");
    reveal_strlit("Upgrade Required");
    reveal_strlit("Precondition Required");
    reveal_strlit("Too Many Requests");
    reveal_strlit("Request Header Fields Too Large");
    reveal_strlit("Unavailable For Legal Reasons");
    reveal_strlit("Internal Server Error");
    reveal_strlit("Not Implemented");
    reveal_strlit("Bad Gateway");
    reveal_strlit("Service Unavailable");
    reveal_strlit("Gateway Timeout");
    reveal_strlit("jsontp Version Not Supported");
    reveal_strlit("Variant Also Negotiates");
    reveal_strlit("Insufficient Storage");
    reveal_strlit("Loop Detected");
    reveal_strlit("Not Extended");
    reveal_strlit("Network Authentication Required");
}

} // verus!
