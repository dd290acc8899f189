use vstd::prelude::*;
use vstd::string::*;

use crate::error::AttributeError;

verus! {

/// Whether a character is an ASCII decimal digit.
pub open spec fn spec_is_digit(c: char) -> bool {
    48 <= c as u32 <= 57
}

/// The numeric value of an ASCII decimal digit.
pub open spec fn spec_digit_val(c: char) -> int {
    c as u32 - 48
}

/// The ASCII decimal digit with the given value.
pub open spec fn spec_digit_char(d: int) -> char {
    if d == 0 {
        '0'
    } else if d == 1 {
        '1'
    } else if d == 2 {
        '2'
    } else if d == 3 {
        '3'
    } else if d == 4 {
        '4'
    } else if d == 5 {
        '5'
    } else if d == 6 {
        '6'
    } else if d == 7 {
        '7'
    } else if d == 8 {
        '8'
    } else {
        '9'
    }
}

/// Whether a status code is valid: within the inclusive range 100 to 599.
pub open spec fn spec_valid_status(code: int) -> bool {
    100 <= code <= 599
}

/// The status code denoted by a status-code text, if the text is exactly
/// three ASCII decimal digits denoting a valid status code.
pub open spec fn spec_parse_status(s: Seq<char>) -> Option<u16> {
    if s.len() == 3 && spec_is_digit(s[0]) && spec_is_digit(s[1]) && spec_is_digit(s[2]) {
        let v = 100 * spec_digit_val(s[0]) + 10 * spec_digit_val(s[1]) + spec_digit_val(s[2]);
        if spec_valid_status(v) {
            Some(v as u16)
        } else {
            None
        }
    } else {
        None
    }
}

/// The three-digit text of a status code.
pub open spec fn spec_status_text(code: u16) -> Seq<char> {
    seq![
        spec_digit_char(code as int / 100),
        spec_digit_char((code as int / 10) % 10),
        spec_digit_char(code as int % 10),
    ]
}

/// The canonical reason phrase of a status code, if the code has one. The
/// phrase is computed by an outside library; it is a function of the code
/// alone.
pub uninterp spec fn reason_of(code: int) -> Option<Seq<char>>;

/// The status code denoted by a status-code text, or zero where the text is
/// malformed.
pub open spec fn spec_code_of(k: Seq<char>) -> u16 {
    match spec_parse_status(k) {
        Some(c) => c,
        None => 0u16,
    }
}

/// The view of an optional owned text.
pub open spec fn view_opt_text(t: Option<String>) -> Option<Seq<char>> {
    match t {
        Some(s) => Some(s@),
        None => None,
    }
}

/// Relies on `http::StatusCode::from_u16` (documented to accept every code
/// from 100 to 999) and `http::StatusCode::canonical_reason` (a pure match
/// on the numeric code) for the canonical reason phrase of a status code.
#[verifier::external_body]
pub(crate) fn canonical_reason(code: u16) -> (r: Option<String>)
    requires
        spec_valid_status(code as int),
    ensures
        view_opt_text(r) == reason_of(code as int),
{
    match http::StatusCode::from_u16(code) {
        Ok(status) => status.canonical_reason().map(|reason| reason.to_owned()),
        Err(_) => None,
    }
}

/// The one-character text of an ASCII decimal digit.
fn digit_str(d: u16) -> (r: &'static str)
    requires
        d <= 9,
    ensures
        r@ =~= seq![spec_digit_char(d as int)],
{
    proof {
        reveal_strlit("0");
        reveal_strlit("1");
        reveal_strlit("2");
        reveal_strlit("3");
        reveal_strlit("4");
        reveal_strlit("5");
        reveal_strlit("6");
        reveal_strlit("7");
        reveal_strlit("8");
        reveal_strlit("9");
    }
    if d == 0 {
        "0"
    } else if d == 1 {
        "1"
    } else if d == 2 {
        "2"
    } else if d == 3 {
        "3"
    } else if d == 4 {
        "4"
    } else if d == 5 {
        "5"
    } else if d == 6 {
        "6"
    } else if d == 7 {
        "7"
    } else if d == 8 {
        "8"
    } else {
        "9"
    }
}

/// The three-digit text of a valid status code.
pub fn status_text(code: u16) -> (r: String)
    requires
        spec_valid_status(code as int),
    ensures
        r@ == spec_status_text(code),
{
    let mut s = String::new();
    s.append(digit_str(code / 100));
    s.append(digit_str((code / 10) % 10));
    s.append(digit_str(code % 10));
    proof {
        assert(s@ =~= spec_status_text(code));
    }
    s
}

/// The status code denoted by a status-code text, if any.
pub fn parse_status(s: &str) -> (r: Option<u16>)
    ensures
        r == spec_parse_status(s@),
{
    if s.unicode_len() != 3 {
        return None;
    }
    let c0 = s.get_char(0) as u32;
    let c1 = s.get_char(1) as u32;
    let c2 = s.get_char(2) as u32;
    if c0 < 48 || c0 > 57 || c1 < 48 || c1 > 57 || c2 < 48 || c2 > 57 {
        return None;
    }
    let v = 100 * (c0 - 48) + 10 * (c1 - 48) + (c2 - 48);
    if 100 <= v && v <= 599 {
        Some(v as u16)
    } else {
        None
    }
}

/// Parsing the text of a valid status code gives back the code.
pub proof fn lemma_status_text_round_trip(code: u16)
    requires
        spec_valid_status(code as int),
    ensures
        spec_parse_status(spec_status_text(code)) == Some(code),
{
    let c = code as int;
    let d0 = c / 100;
    let d1 = (c / 10) % 10;
    let d2 = c % 10;
    vstd::arithmetic::div_mod::lemma_fundamental_div_mod(c, 10);
    vstd::arithmetic::div_mod::lemma_fundamental_div_mod(c / 10, 10);
    vstd::arithmetic::div_mod::lemma_div_denominator(c, 10, 10);
    vstd::arithmetic::div_mod::lemma_fundamental_div_mod(c, 100);
    vstd::arithmetic::div_mod::lemma_mod_bound(c, 10);
    vstd::arithmetic::div_mod::lemma_mod_bound(c / 10, 10);
    vstd::arithmetic::div_mod::lemma_mod_bound(c, 100);
    assert(c == 100 * d0 + 10 * d1 + d2);
    assert(0 <= d0 <= 9 && 0 <= d1 <= 9 && 0 <= d2 <= 9);
}

/// The status code of a named HTTP status constant, if the name is known.
pub open spec fn spec_status_name_code(name: Seq<char>) -> Option<u16> {
    if name == "CONTINUE"@ {
        Some(100u16)
    } else if name == "SWITCHING_PROTOCOLS"@ {
        Some(101u16)
    } else if name == "PROCESSING"@ {
        Some(102u16)
    } else if name == "EARLY_HINTS"@ {
        Some(103u16)
    } else if name == "OK"@ {
        Some(200u16)
    } else if name == "CREATED"@ {
        Some(201u16)
    } else if name == "ACCEPTED"@ {
        Some(202u16)
    } else if name == "NON_AUTHORITATIVE_INFORMATION"@ {
        Some(203u16)
    } else if name == "NO_CONTENT"@ {
        Some(204u16)
    } else if name == "RESET_CONTENT"@ {
        Some(205u16)
    } else if name == "PARTIAL_CONTENT"@ {
        Some(206u16)
    } else if name == "MULTI_STATUS"@ {
        Some(207u16)
    } else if name == "ALREADY_REPORTED"@ {
        Some(208u16)
    } else if name == "IM_USED"@ {
        Some(226u16)
    } else if name == "MULTIPLE_CHOICES"@ {
        Some(300u16)
    } else if name == "MOVED_PERMANENTLY"@ {
        Some(301u16)
    } else if name == "FOUND"@ {
        Some(302u16)
    } else if name == "SEE_OTHER"@ {
        Some(303u16)
    } else if name == "NOT_MODIFIED"@ {
        Some(304u16)
    } else if name == "USE_PROXY"@ {
        Some(305u16)
    } else if name == "TEMPORARY_REDIRECT"@ {
        Some(307u16)
    } else if name == "PERMANENT_REDIRECT"@ {
        Some(308u16)
    } else if name == "BAD_REQUEST"@ {
        Some(400u16)
    } else if name == "UNAUTHORIZED"@ {
        Some(401u16)
    } else if name == "PAYMENT_REQUIRED"@ {
        Some(402u16)
    } else if name == "FORBIDDEN"@ {
        Some(403u16)
    } else if name == "NOT_FOUND"@ {
        Some(404u16)
    } else if name == "METHOD_NOT_ALLOWED"@ {
        Some(405u16)
    } else if name == "NOT_ACCEPTABLE"@ {
        Some(406u16)
    } else if name == "PROXY_AUTHENTICATION_REQUIRED"@ {
        Some(407u16)
    } else if name == "REQUEST_TIMEOUT"@ {
        Some(408u16)
    } else if name == "CONFLICT"@ {
        Some(409u16)
    } else if name == "GONE"@ {
        Some(410u16)
    } else if name == "LENGTH_REQUIRED"@ {
        Some(411u16)
    } else if name == "PRECONDITION_FAILED"@ {
        Some(412u16)
    } else if name == "PAYLOAD_TOO_LARGE"@ {
        Some(413u16)
    } else if name == "URI_TOO_LONG"@ {
        Some(414u16)
    } else if name == "UNSUPPORTED_MEDIA_TYPE"@ {
        Some(415u16)
    } else if name == "RANGE_NOT_SATISFIABLE"@ {
        Some(416u16)
    } else if name == "EXPECTATION_FAILED"@ {
        Some(417u16)
    } else if name == "IM_A_TEAPOT"@ {
        Some(418u16)
    } else if name == "MISDIRECTED_REQUEST"@ {
        Some(421u16)
    } else if name == "UNPROCESSABLE_ENTITY"@ {
        Some(422u16)
    } else if name == "LOCKED"@ {
        Some(423u16)
    } else if name == "FAILED_DEPENDENCY"@ {
        Some(424u16)
    } else if name == "TOO_EARLY"@ {
        Some(425u16)
    } else if name == "UPGRADE_REQUIRED"@ {
        Some(426u16)
    } else if name == "PRECONDITION_REQUIRED"@ {
        Some(428u16)
    } else if name == "TOO_MANY_REQUESTS"@ {
        Some(429u16)
    } else if name == "REQUEST_HEADER_FIELDS_TOO_LARGE"@ {
        Some(431u16)
    } else if name == "UNAVAILABLE_FOR_LEGAL_REASONS"@ {
        Some(451u16)
    } else if name == "INTERNAL_SERVER_ERROR"@ {
        Some(500u16)
    } else if name == "NOT_IMPLEMENTED"@ {
        Some(501u16)
    } else if name == "BAD_GATEWAY"@ {
        Some(502u16)
    } else if name == "SERVICE_UNAVAILABLE"@ {
        Some(503u16)
    } else if name == "GATEWAY_TIMEOUT"@ {
        Some(504u16)
    } else if name == "HTTP_VERSION_NOT_SUPPORTED"@ {
        Some(505u16)
    } else if name == "VARIANT_ALSO_NEGOTIATES"@ {
        Some(506u16)
    } else if name == "INSUFFICIENT_STORAGE"@ {
        Some(507u16)
    } else if name == "LOOP_DETECTED"@ {
        Some(508u16)
    } else if name == "NOT_EXTENDED"@ {
        Some(510u16)
    } else if name == "NETWORK_AUTHENTICATION_REQUIRED"@ {
        Some(511u16)
    } else {
        None
    }
}

/// The name of the HTTP status constant for a code, if the code has one.
pub open spec fn spec_status_name(code: u16) -> Option<Seq<char>> {
    if code == 100u16 {
        Some("CONTINUE"@)
    } else if code == 101u16 {
        Some("SWITCHING_PROTOCOLS"@)
    } else if code == 102u16 {
        Some("PROCESSING"@)
    } else if code == 103u16 {
        Some("EARLY_HINTS"@)
    } else if code == 200u16 {
        Some("OK"@)
    } else if code == 201u16 {
        Some("CREATED"@)
    } else if code == 202u16 {
        Some("ACCEPTED"@)
    } else if code == 203u16 {
        Some("NON_AUTHORITATIVE_INFORMATION"@)
    } else if code == 204u16 {
        Some("NO_CONTENT"@)
    } else if code == 205u16 {
        Some("RESET_CONTENT"@)
    } else if code == 206u16 {
        Some("PARTIAL_CONTENT"@)
    } else if code == 207u16 {
        Some("MULTI_STATUS"@)
    } else if code == 208u16 {
        Some("ALREADY_REPORTED"@)
    } else if code == 226u16 {
        Some("IM_USED"@)
    } else if code == 300u16 {
        Some("MULTIPLE_CHOICES"@)
    } else if code == 301u16 {
        Some("MOVED_PERMANENTLY"@)
    } else if code == 302u16 {
        Some("FOUND"@)
    } else if code == 303u16 {
        Some("SEE_OTHER"@)
    } else if code == 304u16 {
        Some("NOT_MODIFIED"@)
    } else if code == 305u16 {
        Some("USE_PROXY"@)
    } else if code == 307u16 {
        Some("TEMPORARY_REDIRECT"@)
    } else if code == 308u16 {
        Some("PERMANENT_REDIRECT"@)
    } else if code == 400u16 {
        Some("BAD_REQUEST"@)
    } else if code == 401u16 {
        Some("UNAUTHORIZED"@)
    } else if code == 402u16 {
        Some("PAYMENT_REQUIRED"@)
    } else if code == 403u16 {
        Some("FORBIDDEN"@)
    } else if code == 404u16 {
        Some("NOT_FOUND"@)
    } else if code == 405u16 {
        Some("METHOD_NOT_ALLOWED"@)
    } else if code == 406u16 {
        Some("NOT_ACCEPTABLE"@)
    } else if code == 407u16 {
        Some("PROXY_AUTHENTICATION_REQUIRED"@)
    } else if code == 408u16 {
        Some("REQUEST_TIMEOUT"@)
    } else if code == 409u16 {
        Some("CONFLICT"@)
    } else if code == 410u16 {
        Some("GONE"@)
    } else if code == 411u16 {
        Some("LENGTH_REQUIRED"@)
    } else if code == 412u16 {
        Some("PRECONDITION_FAILED"@)
    } else if code == 413u16 {
        Some("PAYLOAD_TOO_LARGE"@)
    } else if code == 414u16 {
        Some("URI_TOO_LONG"@)
    } else if code == 415u16 {
        Some("UNSUPPORTED_MEDIA_TYPE"@)
    } else if code == 416u16 {
        Some("RANGE_NOT_SATISFIABLE"@)
    } else if code == 417u16 {
        Some("EXPECTATION_FAILED"@)
    } else if code == 418u16 {
        Some("IM_A_TEAPOT"@)
    } else if code == 421u16 {
        Some("MISDIRECTED_REQUEST"@)
    } else if code == 422u16 {
        Some("UNPROCESSABLE_ENTITY"@)
    } else if code == 423u16 {
        Some("LOCKED"@)
    } else if code == 424u16 {
        Some("FAILED_DEPENDENCY"@)
    } else if code == 425u16 {
        Some("TOO_EARLY"@)
    } else if code == 426u16 {
        Some("UPGRADE_REQUIRED"@)
    } else if code == 428u16 {
        Some("PRECONDITION_REQUIRED"@)
    } else if code == 429u16 {
        Some("TOO_MANY_REQUESTS"@)
    } else if code == 431u16 {
        Some("REQUEST_HEADER_FIELDS_TOO_LARGE"@)
    } else if code == 451u16 {
        Some("UNAVAILABLE_FOR_LEGAL_REASONS"@)
    } else if code == 500u16 {
        Some("INTERNAL_SERVER_ERROR"@)
    } else if code == 501u16 {
        Some("NOT_IMPLEMENTED"@)
    } else if code == 502u16 {
        Some("BAD_GATEWAY"@)
    } else if code == 503u16 {
        Some("SERVICE_UNAVAILABLE"@)
    } else if code == 504u16 {
        Some("GATEWAY_TIMEOUT"@)
    } else if code == 505u16 {
        Some("HTTP_VERSION_NOT_SUPPORTED"@)
    } else if code == 506u16 {
        Some("VARIANT_ALSO_NEGOTIATES"@)
    } else if code == 507u16 {
        Some("INSUFFICIENT_STORAGE"@)
    } else if code == 508u16 {
        Some("LOOP_DETECTED"@)
    } else if code == 510u16 {
        Some("NOT_EXTENDED"@)
    } else if code == 511u16 {
        Some("NETWORK_AUTHENTICATION_REQUIRED"@)
    } else {
        None
    }
}

/// The status code of a named HTTP status constant, if the name is known.
#[verifier::rlimit(60)]
pub fn status_name_code(name: &String) -> (r: Option<u16>)
    ensures
        r == spec_status_name_code(name@),
{
    if *name == "CONTINUE".to_owned() {
        Some(100)
    } else if *name == "SWITCHING_PROTOCOLS".to_owned() {
        Some(101)
    } else if *name == "PROCESSING".to_owned() {
        Some(102)
    } else if *name == "EARLY_HINTS".to_owned() {
        Some(103)
    } else if *name == "OK".to_owned() {
        Some(200)
    } else if *name == "CREATED".to_owned() {
        Some(201)
    } else if *name == "ACCEPTED".to_owned() {
        Some(202)
    } else if *name == "NON_AUTHORITATIVE_INFORMATION".to_owned() {
        Some(203)
    } else if *name == "NO_CONTENT".to_owned() {
        Some(204)
    } else if *name == "RESET_CONTENT".to_owned() {
        Some(205)
    } else if *name == "PARTIAL_CONTENT".to_owned() {
        Some(206)
    } else if *name == "MULTI_STATUS".to_owned() {
        Some(207)
    } else if *name == "ALREADY_REPORTED".to_owned() {
        Some(208)
    } else if *name == "IM_USED".to_owned() {
        Some(226)
    } else if *name == "MULTIPLE_CHOICES".to_owned() {
        Some(300)
    } else if *name == "MOVED_PERMANENTLY".to_owned() {
        Some(301)
    } else if *name == "FOUND".to_owned() {
        Some(302)
    } else if *name == "SEE_OTHER".to_owned() {
        Some(303)
    } else if *name == "NOT_MODIFIED".to_owned() {
        Some(304)
    } else if *name == "USE_PROXY".to_owned() {
        Some(305)
    } else if *name == "TEMPORARY_REDIRECT".to_owned() {
        Some(307)
    } else if *name == "PERMANENT_REDIRECT".to_owned() {
        Some(308)
    } else if *name == "BAD_REQUEST".to_owned() {
        Some(400)
    } else if *name == "UNAUTHORIZED".to_owned() {
        Some(401)
    } else if *name == "PAYMENT_REQUIRED".to_owned() {
        Some(402)
    } else if *name == "FORBIDDEN".to_owned() {
        Some(403)
    } else if *name == "NOT_FOUND".to_owned() {
        Some(404)
    } else if *name == "METHOD_NOT_ALLOWED".to_owned() {
        Some(405)
    } else if *name == "NOT_ACCEPTABLE".to_owned() {
        Some(406)
    } else if *name == "PROXY_AUTHENTICATION_REQUIRED".to_owned() {
        Some(407)
    } else if *name == "REQUEST_TIMEOUT".to_owned() {
        Some(408)
    } else if *name == "CONFLICT".to_owned() {
        Some(409)
    } else if *name == "GONE".to_owned() {
        Some(410)
    } else if *name == "LENGTH_REQUIRED".to_owned() {
        Some(411)
    } else if *name == "PRECONDITION_FAILED".to_owned() {
        Some(412)
    } else if *name == "PAYLOAD_TOO_LARGE".to_owned() {
        Some(413)
    } else if *name == "URI_TOO_LONG".to_owned() {
        Some(414)
    } else if *name == "UNSUPPORTED_MEDIA_TYPE".to_owned() {
        Some(415)
    } else if *name == "RANGE_NOT_SATISFIABLE".to_owned() {
        Some(416)
    } else if *name == "EXPECTATION_FAILED".to_owned() {
        Some(417)
    } else if *name == "IM_A_TEAPOT".to_owned() {
        Some(418)
    } else if *name == "MISDIRECTED_REQUEST".to_owned() {
        Some(421)
    } else if *name == "UNPROCESSABLE_ENTITY".to_owned() {
        Some(422)
    } else if *name == "LOCKED".to_owned() {
        Some(423)
    } else if *name == "FAILED_DEPENDENCY".to_owned() {
        Some(424)
    } else if *name == "TOO_EARLY".to_owned() {
        Some(425)
    } else if *name == "UPGRADE_REQUIRED".to_owned() {
        Some(426)
    } else if *name == "PRECONDITION_REQUIRED".to_owned() {
        Some(428)
    } else if *name == "TOO_MANY_REQUESTS".to_owned() {
        Some(429)
    } else if *name == "REQUEST_HEADER_FIELDS_TOO_LARGE".to_owned() {
        Some(431)
    } else if *name == "UNAVAILABLE_FOR_LEGAL_REASONS".to_owned() {
        Some(451)
    } else if *name == "INTERNAL_SERVER_ERROR".to_owned() {
        Some(500)
    } else if *name == "NOT_IMPLEMENTED".to_owned() {
        Some(501)
    } else if *name == "BAD_GATEWAY".to_owned() {
        Some(502)
    } else if *name == "SERVICE_UNAVAILABLE".to_owned() {
        Some(503)
    } else if *name == "GATEWAY_TIMEOUT".to_owned() {
        Some(504)
    } else if *name == "HTTP_VERSION_NOT_SUPPORTED".to_owned() {
        Some(505)
    } else if *name == "VARIANT_ALSO_NEGOTIATES".to_owned() {
        Some(506)
    } else if *name == "INSUFFICIENT_STORAGE".to_owned() {
        Some(507)
    } else if *name == "LOOP_DETECTED".to_owned() {
        Some(508)
    } else if *name == "NOT_EXTENDED".to_owned() {
        Some(510)
    } else if *name == "NETWORK_AUTHENTICATION_REQUIRED".to_owned() {
        Some(511)
    } else {
        None
    }
}

/// The name of the HTTP status constant for a code, if the code has one.
#[verifier::rlimit(60)]
pub fn status_name(code: u16) -> (r: Option<&'static str>)
    ensures
        match r {
            Some(s) => spec_status_name(code) == Some(s@),
            None => spec_status_name(code) is None,
        },
{
    if code == 100 {
        Some("CONTINUE")
    } else if code == 101 {
        Some("SWITCHING_PROTOCOLS")
    } else if code == 102 {
        Some("PROCESSING")
    } else if code == 103 {
        Some("EARLY_HINTS")
    } else if code == 200 {
        Some("OK")
    } else if code == 201 {
        Some("CREATED")
    } else if code == 202 {
        Some("ACCEPTED")
    } else if code == 203 {
        Some("NON_AUTHORITATIVE_INFORMATION")
    } else if code == 204 {
        Some("NO_CONTENT")
    } else if code == 205 {
        Some("RESET_CONTENT")
    } else if code == 206 {
        Some("PARTIAL_CONTENT")
    } else if code == 207 {
        Some("MULTI_STATUS")
    } else if code == 208 {
        Some("ALREADY_REPORTED")
    } else if code == 226 {
        Some("IM_USED")
    } else if code == 300 {
        Some("MULTIPLE_CHOICES")
    } else if code == 301 {
        Some("MOVED_PERMANENTLY")
    } else if code == 302 {
        Some("FOUND")
    } else if code == 303 {
        Some("SEE_OTHER")
    } else if code == 304 {
        Some("NOT_MODIFIED")
    } else if code == 305 {
        Some("USE_PROXY")
    } else if code == 307 {
        Some("TEMPORARY_REDIRECT")
    } else if code == 308 {
        Some("PERMANENT_REDIRECT")
    } else if code == 400 {
        Some("BAD_REQUEST")
    } else if code == 401 {
        Some("UNAUTHORIZED")
    } else if code == 402 {
        Some("PAYMENT_REQUIRED")
    } else if code == 403 {
        Some("FORBIDDEN")
    } else if code == 404 {
        Some("NOT_FOUND")
    } else if code == 405 {
        Some("METHOD_NOT_ALLOWED")
    } else if code == 406 {
        Some("NOT_ACCEPTABLE")
    } else if code == 407 {
        Some("PROXY_AUTHENTICATION_REQUIRED")
    } else if code == 408 {
        Some("REQUEST_TIMEOUT")
    } else if code == 409 {
        Some("CONFLICT")
    } else if code == 410 {
        Some("GONE")
    } else if code == 411 {
        Some("LENGTH_REQUIRED")
    } else if code == 412 {
        Some("PRECONDITION_FAILED")
    } else if code == 413 {
        Some("PAYLOAD_TOO_LARGE")
    } else if code == 414 {
        Some("URI_TOO_LONG")
    } else if code == 415 {
        Some("UNSUPPORTED_MEDIA_TYPE")
    } else if code == 416 {
        Some("RANGE_NOT_SATISFIABLE")
    } else if code == 417 {
        Some("EXPECTATION_FAILED")
    } else if code == 418 {
        Some("IM_A_TEAPOT")
    } else if code == 421 {
        Some("MISDIRECTED_REQUEST")
    } else if code == 422 {
        Some("UNPROCESSABLE_ENTITY")
    } else if code == 423 {
        Some("LOCKED")
    } else if code == 424 {
        Some("FAILED_DEPENDENCY")
    } else if code == 425 {
        Some("TOO_EARLY")
    } else if code == 426 {
        Some("UPGRADE_REQUIRED")
    } else if code == 428 {
        Some("PRECONDITION_REQUIRED")
    } else if code == 429 {
        Some("TOO_MANY_REQUESTS")
    } else if code == 431 {
        Some("REQUEST_HEADER_FIELDS_TOO_LARGE")
    } else if code == 451 {
        Some("UNAVAILABLE_FOR_LEGAL_REASONS")
    } else if code == 500 {
        Some("INTERNAL_SERVER_ERROR")
    } else if code == 501 {
        Some("NOT_IMPLEMENTED")
    } else if code == 502 {
        Some("BAD_GATEWAY")
    } else if code == 503 {
        Some("SERVICE_UNAVAILABLE")
    } else if code == 504 {
        Some("GATEWAY_TIMEOUT")
    } else if code == 505 {
        Some("HTTP_VERSION_NOT_SUPPORTED")
    } else if code == 506 {
        Some("VARIANT_ALSO_NEGOTIATES")
    } else if code == 507 {
        Some("INSUFFICIENT_STORAGE")
    } else if code == 508 {
        Some("LOOP_DETECTED")
    } else if code == 510 {
        Some("NOT_EXTENDED")
    } else if code == 511 {
        Some("NETWORK_AUTHENTICATION_REQUIRED")
    } else {
        None
    }
}

/// Mathematical model of a raw status token.
pub enum SpecRawStatus {
    Ident(Seq<char>),
    Lit(u64),
}

/// A raw status token as written in a declaration's metadata: a named
/// constant or a numeric literal.
#[derive(Debug, Clone, PartialEq, Eq)]
pub enum RawStatusCode {
    Ident(String),
    Lit(u64),
}

impl RawStatusCode {
    /// The model of this token.
    pub open spec fn model(self) -> SpecRawStatus {
        match self {
            RawStatusCode::Ident(name) => SpecRawStatus::Ident(name@),
            RawStatusCode::Lit(n) => SpecRawStatus::Lit(n),
        }
    }
}

/// The status code a raw status token denotes, if it is valid: a known
/// constant name, or a literal within the valid range.
pub open spec fn spec_raw_status(raw: SpecRawStatus) -> Option<u16> {
    match raw {
        SpecRawStatus::Ident(name) => spec_status_name_code(name),
        SpecRawStatus::Lit(n) => if spec_valid_status(n as int) {
            Some(n as u16)
        } else {
            None
        },
    }
}

/// A resolved status: the code, and the raw token it was declared with.
#[derive(Debug, Clone, PartialEq, Eq)]
pub struct Status {
    pub code: u16,
    pub raw: RawStatusCode,
}

/// Mathematical model of a resolved status.
pub struct SpecStatus {
    pub code: u16,
    pub raw: SpecRawStatus,
}

impl Status {
    /// The model of this status.
    pub open spec fn model(self) -> SpecStatus {
        SpecStatus { code: self.code, raw: self.raw.model() }
    }

    /// Well-formed: the code is the one the raw token denotes.
    pub open spec fn wf(self) -> bool {
        spec_raw_status(self.raw.model()) == Some(self.code)
    }

    /// Resolves a raw status token, rejecting an unknown constant name and
    /// a literal outside the valid range.
    pub fn parse(raw: RawStatusCode) -> (r: Result<Status, AttributeError>)
        ensures
            match r {
                Ok(s) => spec_raw_status(raw.model()) == Some(s.code) && s.raw == raw && s.wf(),
                Err(e) => spec_raw_status(raw.model()) is None && e
                    == AttributeError::InvalidStatus,
            },
    {
        let code = match &raw {
            RawStatusCode::Ident(name) => status_name_code(name),
            RawStatusCode::Lit(n) => {
                if 100 <= *n && *n <= 599 {
                    Some(*n as u16)
                } else {
                    None
                }
            },
        };
        match code {
            Some(code) => Ok(Status { code, raw }),
            None => Err(AttributeError::InvalidStatus),
        }
    }

    /// The name this status is written with: the declared constant name, or
    /// for a literal the name of its constant, if the code has one.
    pub fn as_ident(&self) -> (r: Option<String>)
        ensures
            view_opt_text(r) == spec_status_ident(self.model()),
    {
        match &self.raw {
            RawStatusCode::Ident(name) => Some(name.clone()),
            RawStatusCode::Lit(_) => {
                match status_name(self.code) {
                    Some(name) => Some(name.to_owned()),
                    None => None,
                }
            },
        }
    }
}

/// The name a status is written with: the declared constant name, or for a
/// literal the name of its constant, if the code has one.
pub open spec fn spec_status_ident(s: SpecStatus) -> Option<Seq<char>> {
    match s.raw {
        SpecRawStatus::Ident(name) => Some(name),
        SpecRawStatus::Lit(_) => spec_status_name(s.code),
    }
}

} // verus!
