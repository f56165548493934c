//! The HTTP answers the server gives on its own account: the method rules
//! (preflight, 405, HEAD without a body), the CORS header every routed
//! response carries, the backpressure refusal, and the steps of an image
//! request from admission to the encoded bytes.

use vstd::prelude::*;
use vstd::utf8::encode_utf8;
use crate::grammar::{Format, format_media_type};
use crate::route::{CACHE_CONTROL_VALUE, error_body, if_none_match_hits, spec_none_match_hits};

verus! {

/// The request method, as far as the server's rules tell methods apart.
#[derive(Debug, Clone, Copy, PartialEq, Eq, Structural)]
pub enum HttpMethod {
    /// `GET`.
    Get,
    /// `HEAD`: answered as `GET`, without the body.
    Head,
    /// `OPTIONS`: the CORS preflight.
    Options,
    /// Any other method.
    Other,
}

/// A response to send: status, headers in order, body bytes.
#[derive(Debug, Clone, PartialEq, Eq)]
pub struct Reply {
    /// The status code.
    pub status: u16,
    /// Header names (lower case) and values, in order.
    pub headers: Vec<(String, String)>,
    /// The body.
    pub body: Vec<u8>,
}

/// Header pairs as text.
pub open spec fn header_view(h: Seq<(String, String)>) -> Seq<(Seq<char>, Seq<char>)> {
    h.map_values(|p: (String, String)| (p.0@, p.1@))
}

impl Reply {
    /// The headers as text.
    pub open spec fn spec_headers(self) -> Seq<(Seq<char>, Seq<char>)> {
        header_view(self.headers@)
    }
}

/// The methods the server answers, as `Allow` lists them.
pub const ALLOWED_METHODS: &'static str = "GET, HEAD, OPTIONS";

/// The headers of the `OPTIONS` preflight.
pub open spec fn preflight_headers() -> Seq<(Seq<char>, Seq<char>)> {
    seq![
        ("allow"@, ALLOWED_METHODS@),
        ("access-control-allow-methods"@, ALLOWED_METHODS@),
        ("access-control-allow-headers"@, "Accept"@),
        ("access-control-max-age"@, "86400"@),
        ("access-control-allow-origin"@, "*"@),
    ]
}

/// Whether `r` is the plain-text error response for `status` and
/// `message`: the message and a newline, as UTF-8.
pub open spec fn is_error_reply(r: Reply, status: u16, message: Seq<char>) -> bool {
    &&& r.status == status
    &&& r.spec_headers() == seq![("content-type"@, "text/plain; charset=utf-8"@)]
    &&& r.body@ == encode_utf8(message + seq!['\n'])
}

/// Whether `r` is the backpressure refusal: 503, `Retry-After: 2`.
pub open spec fn is_overloaded_reply(r: Reply) -> bool {
    &&& r.status == 503
    &&& r.spec_headers() == seq![
        ("content-type"@, "text/plain; charset=utf-8"@),
        ("retry-after"@, "2"@),
    ]
    &&& r.body@ == encode_utf8("decode pool saturated"@ + seq!['\n'])
}

/// Whether `r` is the bare 304 for a revalidation hit on `etag`.
pub open spec fn is_not_modified_reply(r: Reply, etag: Seq<char>) -> bool {
    &&& r.status == 304
    &&& r.spec_headers() == seq![("etag"@, etag), ("cache-control"@, CACHE_CONTROL_VALUE@)]
    &&& r.body@.len() == 0
}

/// Whether `r` is the 200 carrying an encoded image.
pub open spec fn is_image_reply(
    r: Reply,
    format: Format,
    link: Seq<char>,
    etag: Seq<char>,
    bytes: Seq<u8>,
) -> bool {
    &&& r.status == 200
    &&& r.spec_headers() == seq![
        ("content-type"@, format_media_type(format)),
        ("link"@, link),
        ("etag"@, etag),
        ("cache-control"@, CACHE_CONTROL_VALUE@),
    ]
    &&& r.body@ == bytes
}

/// One header pair.
fn header(name: &str, value: &str) -> (p: (String, String))
    ensures
        p.0@ == name@,
        p.1@ == value@,
{
    (name.to_string(), value.to_string())
}

/// The UTF-8 bytes of a text.
fn utf8_bytes(s: &String) -> (b: Vec<u8>)
    ensures
        b@ == encode_utf8(s@),
{
    vstd::slice::slice_to_vec(s.as_str().as_bytes())
}

/// A plain-text error response: the message and a newline.
pub fn error_reply(status: u16, message: &str) -> (r: Reply)
    ensures
        is_error_reply(r, status, message@),
{
    let text = error_body(message);
    let mut headers: Vec<(String, String)> = Vec::new();
    headers.push(header("content-type", "text/plain; charset=utf-8"));
    let r = Reply { status, headers, body: utf8_bytes(&text) };
    assert(r.spec_headers() =~= seq![("content-type"@, "text/plain; charset=utf-8"@)]);
    r
}

/// The answer the method alone decides: the preflight for `OPTIONS`
/// (204, `Allow` and the CORS headers), 405 for anything but `GET` and
/// `HEAD`, which go on to routing.
pub fn method_gate(m: HttpMethod) -> (r: Option<Reply>)
    ensures
        m is Options ==> (r matches Some(x) && x.status == 204 && x.spec_headers()
            == preflight_headers() && x.body@.len() == 0),
        m is Other ==> (r matches Some(x) && is_error_reply(x, 405, "only GET and HEAD"@)),
        m is Get || m is Head ==> r is None,
{
    match m {
        HttpMethod::Options => {
            let mut headers: Vec<(String, String)> = Vec::new();
            headers.push(header("allow", ALLOWED_METHODS));
            headers.push(header("access-control-allow-methods", ALLOWED_METHODS));
            headers.push(header("access-control-allow-headers", "Accept"));
            headers.push(header("access-control-max-age", "86400"));
            headers.push(header("access-control-allow-origin", "*"));
            let x = Reply { status: 204, headers, body: Vec::new() };
            assert(x.spec_headers() =~= preflight_headers());
            Some(x)
        },
        HttpMethod::Other => Some(error_reply(405, "only GET and HEAD")),
        _ => None,
    }
}

/// A routed response as sent: the CORS header added, and no body for
/// `HEAD`.
pub fn finish_reply(m: HttpMethod, r: Reply) -> (out: Reply)
    ensures
        out.status == r.status,
        out.spec_headers() == r.spec_headers().push(("access-control-allow-origin"@, "*"@)),
        m is Head ==> out.body@.len() == 0,
        !(m is Head) ==> out.body@ == r.body@,
{
    let Reply { status, headers, body } = r;
    let ghost before = headers@;
    let mut headers = headers;
    headers.push(header("access-control-allow-origin", "*"));
    assert(header_view(headers@) =~= header_view(before).push(
        ("access-control-allow-origin"@, "*"@),
    ));
    let body = if m == HttpMethod::Head {
        Vec::new()
    } else {
        body
    };
    Reply { status, headers, body }
}

/// The 503 the admission bound answers, with `Retry-After: 2`.
pub fn overloaded_reply() -> (r: Reply)
    ensures
        is_overloaded_reply(r),
{
    let r = error_reply(503, "decode pool saturated");
    let Reply { status, headers, body } = r;
    let ghost before = headers@;
    let mut headers = headers;
    headers.push(header("retry-after", "2"));
    assert(header_view(headers@) =~= header_view(before).push(("retry-after"@, "2"@)));
    assert(header_view(headers@) =~= seq![
        ("content-type"@, "text/plain; charset=utf-8"@),
        ("retry-after"@, "2"@),
    ]);
    Reply { status, headers, body }
}

/// The bare 304 carrying the `ETag` that matched.
pub fn not_modified_reply(etag: &str) -> (r: Reply)
    ensures
        is_not_modified_reply(r, etag@),
{
    let mut headers: Vec<(String, String)> = Vec::new();
    headers.push(header("etag", etag));
    headers.push(header("cache-control", CACHE_CONTROL_VALUE));
    let r = Reply { status: 304, headers, body: Vec::new() };
    assert(r.spec_headers() =~= seq![("etag"@, etag@), ("cache-control"@, CACHE_CONTROL_VALUE@)]);
    r
}

/// The 200 carrying an encoded image, its media type, canonical `Link`,
/// `ETag` and `Cache-Control`.
pub fn image_reply(format: Format, link: &str, etag: &str, bytes: Vec<u8>) -> (r: Reply)
    ensures
        is_image_reply(r, format, link@, etag@, bytes@),
{
    let mut headers: Vec<(String, String)> = Vec::new();
    headers.push(header("content-type", format.media_type()));
    headers.push(header("link", link));
    headers.push(header("etag", etag));
    headers.push(header("cache-control", CACHE_CONTROL_VALUE));
    let r = Reply { status: 200, headers, body: bytes };
    assert(r.spec_headers() =~= seq![
        ("content-type"@, format_media_type(format)),
        ("link"@, link@),
        ("etag"@, etag@),
        ("cache-control"@, CACHE_CONTROL_VALUE@),
    ]);
    r
}

/// The liveness answer: 200, `ok` and a newline.
pub fn health_reply() -> (r: Reply)
    ensures
        r.status == 200,
        r.spec_headers() == seq![("content-type"@, "text/plain"@)],
        r.body@ == encode_utf8("ok\n"@),
{
    let mut headers: Vec<(String, String)> = Vec::new();
    headers.push(header("content-type", "text/plain"));
    let r = Reply { status: 200, headers, body: utf8_bytes(&"ok\n".to_string()) };
    assert(r.spec_headers() =~= seq![("content-type"@, "text/plain"@)]);
    r
}

/// The metrics exposition: 200 in the Prometheus text format.
pub fn metrics_reply(text: String) -> (r: Reply)
    ensures
        r.status == 200,
        r.spec_headers() == seq![("content-type"@, "text/plain; version=0.0.4"@)],
        r.body@ == encode_utf8(text@),
{
    let mut headers: Vec<(String, String)> = Vec::new();
    headers.push(header("content-type", "text/plain; version=0.0.4"));
    let r = Reply { status: 200, headers, body: utf8_bytes(&text) };
    assert(r.spec_headers() =~= seq![("content-type"@, "text/plain; version=0.0.4"@)]);
    r
}

/// The 303 from a base URI to its info.json.
pub fn redirect_reply(location: &str) -> (r: Reply)
    ensures
        r.status == 303,
        r.spec_headers() == seq![("location"@, location@)],
        r.body@.len() == 0,
{
    let mut headers: Vec<(String, String)> = Vec::new();
    headers.push(header("location", location));
    let r = Reply { status: 303, headers, body: Vec::new() };
    assert(r.spec_headers() =~= seq![("location"@, location@)]);
    r
}

/// The 200 carrying an info.json: its negotiated content type, `Vary:
/// Accept`, the profile `Link`, `ETag` and `Cache-Control`.
pub fn info_reply(content_type: &str, link: &str, etag: &str, document: String) -> (r: Reply)
    ensures
        r.status == 200,
        r.spec_headers() == seq![
            ("content-type"@, content_type@),
            ("vary"@, "Accept"@),
            ("link"@, link@),
            ("etag"@, etag@),
            ("cache-control"@, CACHE_CONTROL_VALUE@),
        ],
        r.body@ == encode_utf8(document@),
{
    let mut headers: Vec<(String, String)> = Vec::new();
    headers.push(header("content-type", content_type));
    headers.push(header("vary", "Accept"));
    headers.push(header("link", link));
    headers.push(header("etag", etag));
    headers.push(header("cache-control", CACHE_CONTROL_VALUE));
    let r = Reply { status: 200, headers, body: utf8_bytes(&document) };
    assert(r.spec_headers() =~= seq![
        ("content-type"@, content_type@),
        ("vary"@, "Accept"@),
        ("link"@, link@),
        ("etag"@, etag@),
        ("cache-control"@, CACHE_CONTROL_VALUE@),
    ]);
    r
}

/// Where an image request stands once its source has resolved.
#[derive(Debug)]
pub enum ImageState {
    /// Waiting for an admission permit; carries the request's
    /// `If-None-Match`.
    Admitting {
        /// The `If-None-Match` header, when present.
        if_none_match: Option<String>,
    },
    /// Admitted; the master is being opened and the request planned.
    Planning {
        /// The `If-None-Match` header, when present.
        if_none_match: Option<String>,
    },
    /// Planned and not revalidated: the pixel work runs.
    Executing {
        /// The output format.
        format: Format,
        /// The canonical `Link` header value.
        link: String,
        /// The response's `ETag`.
        etag: String,
    },
    /// Answered.
    Done,
}

/// What the outside work of an image request reports.
#[derive(Debug)]
pub enum ImageEvent {
    /// Whether an admission permit was had.
    Admission(bool),
    /// The request was planned: its format, canonical `Link` and `ETag`.
    Planned {
        /// The output format.
        format: Format,
        /// The canonical `Link` header value.
        link: String,
        /// The `ETag` of the canonical request.
        etag: String,
    },
    /// The pixel work produced these bytes.
    Executed(Vec<u8>),
    /// A step failed with this status and message.
    Failed {
        /// The status code.
        status: u16,
        /// The message.
        message: String,
    },
}

/// What to do next for an image request.
#[derive(Debug)]
pub enum ImageAction {
    /// Send this response; the request is over.
    Respond(Reply),
    /// Open the master and plan the request (holding a decode permit).
    Plan,
    /// Run the pixel work and encode.
    Execute,
}

/// The step an image request takes from `state` on `event`: a refused
/// admission answers 503 before any decode; a revalidation hit answers 304
/// before any pixel work; the encoded bytes answer 200; a failure answers
/// its own status; an event out of order answers 500.
pub open spec fn image_transition(
    state: ImageState,
    event: ImageEvent,
    next: ImageState,
    action: ImageAction,
) -> bool {
    match event {
        ImageEvent::Failed { status, message } => {
            &&& next is Done
            &&& action matches ImageAction::Respond(x)
            &&& is_error_reply(x, status, message@)
        },
        ImageEvent::Admission(admitted) => match state {
            ImageState::Admitting { if_none_match } => if admitted {
                next == (ImageState::Planning { if_none_match }) && action is Plan
            } else {
                &&& next is Done
                &&& action matches ImageAction::Respond(x)
                &&& is_overloaded_reply(x)
            },
            _ => out_of_order(next, action),
        },
        ImageEvent::Planned { format, link, etag } => match state {
            ImageState::Planning { if_none_match } => if if_none_match matches Some(v)
                && spec_none_match_hits(v@, etag@) {
                &&& next is Done
                &&& action matches ImageAction::Respond(x)
                &&& is_not_modified_reply(x, etag@)
            } else {
                next == (ImageState::Executing { format, link, etag }) && action is Execute
            },
            _ => out_of_order(next, action),
        },
        ImageEvent::Executed(bytes) => match state {
            ImageState::Executing { format, link, etag } => {
                &&& next is Done
                &&& action matches ImageAction::Respond(x)
                &&& is_image_reply(x, format, link@, etag@, bytes@)
            },
            _ => out_of_order(next, action),
        },
    }
}

/// The answer to an event that does not follow from the state.
pub open spec fn out_of_order(next: ImageState, action: ImageAction) -> bool {
    &&& next is Done
    &&& action matches ImageAction::Respond(x)
    &&& is_error_reply(x, 500, "decode task failed"@)
}

/// The decision of an image request on one event: see
/// [`image_transition`].
pub fn image_step(state: ImageState, event: ImageEvent) -> (r: (ImageState, ImageAction))
    ensures
        image_transition(state, event, r.0, r.1),
{
    match event {
        ImageEvent::Failed { status, message } => {
            (ImageState::Done, ImageAction::Respond(error_reply(status, message.as_str())))
        },
        ImageEvent::Admission(admitted) => match state {
            ImageState::Admitting { if_none_match } => if admitted {
                (ImageState::Planning { if_none_match }, ImageAction::Plan)
            } else {
                (ImageState::Done, ImageAction::Respond(overloaded_reply()))
            },
            _ => (ImageState::Done, ImageAction::Respond(error_reply(500, "decode task failed"))),
        },
        ImageEvent::Planned { format, link, etag } => match state {
            ImageState::Planning { if_none_match } => {
                let hit = match &if_none_match {
                    Some(v) => if_none_match_hits(v.as_str(), etag.as_str()),
                    None => false,
                };
                if hit {
                    (ImageState::Done, ImageAction::Respond(not_modified_reply(etag.as_str())))
                } else {
                    (ImageState::Executing { format, link, etag }, ImageAction::Execute)
                }
            },
            _ => (ImageState::Done, ImageAction::Respond(error_reply(500, "decode task failed"))),
        },
        ImageEvent::Executed(bytes) => match state {
            ImageState::Executing { format, link, etag } => {
                (
                    ImageState::Done,
                    ImageAction::Respond(image_reply(format, link.as_str(), etag.as_str(), bytes)),
                )
            },
            _ => (ImageState::Done, ImageAction::Respond(error_reply(500, "decode task failed"))),
        },
    }
}

} // verus!
