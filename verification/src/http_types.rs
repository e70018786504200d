//! Requests and responses as the boundary sees them.
//!
//! A request is built up piece by piece through setters that validate
//! through the `http` crate's parsers; its header collection lives in an
//! extension slot until the request is finalized for sending, when the
//! collection's map and side tables move into their sending positions.  A
//! response arriving from the engine is wrapped the opposite way: its
//! header map and side tables are bundled into one collection that
//! iteration can reconstruct the original casing and order from.

use vstd::prelude::*;
use vstd::string::StrSliceExecFns;
use vstd::string::StringSliceAdditionalSpecFns;

verus! {

use crate::body::fluxio_body;
use crate::buf::fluxio_buf;
use crate::error::fluxio_code;
use crate::headers::HeaderCaseMap;
use crate::headers::OriginalHeaderOrder;
use crate::headers::fluxio_headers;
use crate::headers::hm_entries;
use crate::headers::valid_name_byte;

// ===== versions =====

/// The HTTP versions the boundary distinguishes.
#[derive(Clone, Copy, Debug, PartialEq, Eq, Structural)]
pub enum HttpVersion {
    /// HTTP/1.0.
    Http10,
    /// HTTP/1.1.
    Http11,
    /// HTTP/2.
    Http2,
}

/// The version a `FLUXIO_HTTP_VERSION_` code selects, if any.
pub open spec fn version_of_code(code: i32) -> Option<HttpVersion> {
    if code == crate::FLUXIO_HTTP_VERSION_NONE {
        Some(HttpVersion::Http11)
    } else if code == crate::FLUXIO_HTTP_VERSION_1_0 {
        Some(HttpVersion::Http10)
    } else if code == crate::FLUXIO_HTTP_VERSION_1_1 {
        Some(HttpVersion::Http11)
    } else if code == crate::FLUXIO_HTTP_VERSION_2 {
        Some(HttpVersion::Http2)
    } else {
        None
    }
}

/// The `FLUXIO_HTTP_VERSION_` code of a version.
pub open spec fn code_of_version(v: HttpVersion) -> i32 {
    match v {
        HttpVersion::Http10 => crate::FLUXIO_HTTP_VERSION_1_0,
        HttpVersion::Http11 => crate::FLUXIO_HTTP_VERSION_1_1,
        HttpVersion::Http2 => crate::FLUXIO_HTTP_VERSION_2,
    }
}

// ===== methods, URIs and status phrases, validated through `http` =====

/// A byte sequence that parses as a request method: a nonempty token.
pub open spec fn valid_method(s: Seq<u8>) -> bool {
    1 <= s.len() && forall|i: int| 0 <= i < s.len() ==> valid_name_byte(s[i])
}

/// Relies on http::Method::from_bytes: a method parses exactly when it is
/// a nonempty token, and is kept verbatim.
#[verifier::external_body]
fn check_method(method: &Vec<u8>) -> (r: bool)
    ensures
        r <==> valid_method(method@),
{
    http::Method::from_bytes(method.as_slice()).is_ok()
}

/// Whether a byte sequence parses as a URI.
pub uninterp spec fn is_uri(s: Seq<u8>) -> bool;

/// Relies on http::Uri::try_from on a byte slice: whether the bytes parse
/// as a URI, in any of its request-target forms.
#[verifier::external_body]
fn check_uri(uri: &Vec<u8>) -> (r: bool)
    ensures
        r <==> is_uri(uri@),
{
    http::Uri::try_from(uri.as_slice()).is_ok()
}

/// The view of an optional byte vector.
pub open spec fn opt_bytes_view(v: Option<&Vec<u8>>) -> Option<Seq<u8>> {
    match v {
        Some(b) => Some(b@),
        None => None,
    }
}

/// The URI that http's URI builder produces from explicit scheme,
/// authority and path/query parts, when they build.
pub uninterp spec fn uri_of_parts(
    scheme: Option<Seq<u8>>,
    authority: Option<Seq<u8>>,
    path_and_query: Option<Seq<u8>>,
) -> Option<Seq<u8>>;

/// Relies on http::Uri::builder with scheme / authority / path_and_query
/// and build: the parts build exactly when each given one is valid, and
/// the built URI's text is a function of the parts alone.
#[verifier::external_body]
fn build_uri_parts(
    scheme: Option<&Vec<u8>>,
    authority: Option<&Vec<u8>>,
    path_and_query: Option<&Vec<u8>>,
) -> (r: Option<Vec<u8>>)
    ensures
        r is Some <==> uri_of_parts(
            opt_bytes_view(scheme),
            opt_bytes_view(authority),
            opt_bytes_view(path_and_query),
        ) is Some,
        r is Some ==> r->Some_0@ == uri_of_parts(
            opt_bytes_view(scheme),
            opt_bytes_view(authority),
            opt_bytes_view(path_and_query),
        )->Some_0,
{
    let mut builder = http::Uri::builder();
    if let Some(s) = scheme {
        builder = builder.scheme(s.as_slice());
    }
    if let Some(a) = authority {
        builder = builder.authority(a.as_slice());
    }
    if let Some(p) = path_and_query {
        builder = builder.path_and_query(p.as_slice());
    }
    match builder.build() {
        Ok(u) => Some(format!("{}", u).into_bytes()),
        Err(_) => None,
    }
}

/// The canonical reason phrase of a status code, if the code has one.
pub uninterp spec fn canonical_reason_of(status: u16) -> Option<Seq<u8>>;

/// Relies on http::StatusCode::from_u16 (which accepts every code in the
/// admitted range) and StatusCode::canonical_reason: the phrase is a
/// fixed function of the code.
#[verifier::external_body]
fn status_canonical_reason(status: u16) -> (r: Option<Vec<u8>>)
    requires
        100 <= status < 1000,
    ensures
        r is Some <==> canonical_reason_of(status) is Some,
        r is Some ==> r->Some_0@ == canonical_reason_of(status)->Some_0,
{
    http::StatusCode::from_u16(status).unwrap().canonical_reason().map(|s| s.as_bytes().to_vec())
}

// ===== requests =====

/// A callback registration for informational (1xx) responses: the
/// responses handed to it are recorded, wrapped as any response is.
pub struct OnInformational {
    /// The opaque caller token handed to the callback.
    pub userdata: usize,
    /// The informational responses delivered so far.
    pub received: Vec<fluxio_response>,
}

impl OnInformational {
    /// Deliver one informational response to the registration: it is
    /// wrapped exactly as any received response is and appended to the
    /// record.
    pub fn call(&mut self, resp: ResponseParts)
        requires
            100 <= resp.status < 600,
        ensures
            final(self).userdata == old(self).userdata,
            final(self).received@.len() == old(self).received@.len() + 1,
            final(self).received@.take(old(self).received@.len() as int) == old(
                self,
            ).received@,
            wrap_rel(resp, final(self).received@.last()),
    {
        let wrapped = fluxio_response::wrap(resp);
        let ghost pre = self.received@;
        self.received.push(wrapped);
        proof {
            assert(self.received@.take(pre.len() as int) =~= pre);
        }
    }
}

/// An HTTP request being assembled for sending.
pub struct fluxio_request {
    /// The request method, a token kept verbatim.
    pub method: Vec<u8>,
    /// The request target.
    pub uri: Vec<u8>,
    /// The preferred HTTP version.
    pub version: HttpVersion,
    /// The header map in sending position.
    pub headers: http::HeaderMap,
    /// The original-casing side table in sending position.
    pub orig_casing: Option<HeaderCaseMap>,
    /// The original-order side table in sending position.
    pub orig_order: Option<OriginalHeaderOrder>,
    /// The header collection while the caller is still filling it.
    pub headers_ext: Option<fluxio_headers>,
    /// The request body.
    pub body: fluxio_body,
    /// An informational-response callback registration, if any.
    pub on_informational: Option<OnInformational>,
}

/// Construct a new HTTP request: a GET of "/" over HTTP/1.1 with an
/// empty body.
pub fn fluxio_request_new() -> (r: fluxio_request)
    ensures
        r.method@ == "GET".spec_bytes(),
        r.uri@ == "/".spec_bytes(),
        r.version == HttpVersion::Http11,
        hm_entries(r.headers) == crate::headers::hm_empty_model(),
        r.orig_casing is None,
        r.orig_order is None,
        r.headers_ext is None,
        r.body.replies_spec() == Seq::<crate::body::fluxio_body_data_reply>::empty(),
        r.on_informational is None,
{
    fluxio_request {
        method: "GET".as_bytes_vec(),
        uri: "/".as_bytes_vec(),
        version: HttpVersion::Http11,
        headers: crate::headers::new_header_map(),
        orig_casing: None,
        orig_order: None,
        headers_ext: None,
        body: fluxio_body::new(),
        on_informational: None,
    }
}

/// Free an HTTP request that is not going to be sent.
pub fn fluxio_request_free(req: fluxio_request) {
    let _ = req;
}

/// Set the HTTP method of the request.
pub fn fluxio_request_set_method(req: &mut fluxio_request, method: &Vec<u8>) -> (r: fluxio_code)
    ensures
        r == fluxio_code::FLUXIO_OK <==> valid_method(method@),
        r != fluxio_code::FLUXIO_OK ==> (r == fluxio_code::FLUXIO_INVALID_ARG && *final(req)
            == *old(req)),
        r == fluxio_code::FLUXIO_OK ==> final(req).method@ == method@,
        r == fluxio_code::FLUXIO_OK ==> unchanged_but_method(*old(req), *final(req)),
{
    if check_method(method) {
        req.method = crate::headers::copy_byte_vec(method);
        fluxio_code::FLUXIO_OK
    } else {
        fluxio_code::FLUXIO_INVALID_ARG
    }
}

/// All request fields but the method agree.
pub open spec fn unchanged_but_method(a: fluxio_request, b: fluxio_request) -> bool {
    a.uri == b.uri && a.version == b.version && a.headers == b.headers && a.orig_casing
        == b.orig_casing && a.orig_order == b.orig_order && a.headers_ext == b.headers_ext
        && a.body == b.body && a.on_informational == b.on_informational
}

/// All request fields but the URI agree.
pub open spec fn unchanged_but_uri(a: fluxio_request, b: fluxio_request) -> bool {
    a.method == b.method && a.version == b.version && a.headers == b.headers && a.orig_casing
        == b.orig_casing && a.orig_order == b.orig_order && a.headers_ext == b.headers_ext
        && a.body == b.body && a.on_informational == b.on_informational
}

/// Set the URI of the request: the request-target, in any of its forms.
pub fn fluxio_request_set_uri(req: &mut fluxio_request, uri: &Vec<u8>) -> (r: fluxio_code)
    ensures
        r == fluxio_code::FLUXIO_OK <==> is_uri(uri@),
        r != fluxio_code::FLUXIO_OK ==> (r == fluxio_code::FLUXIO_INVALID_ARG && *final(req)
            == *old(req)),
        r == fluxio_code::FLUXIO_OK ==> final(req).uri@ == uri@,
        r == fluxio_code::FLUXIO_OK ==> unchanged_but_uri(*old(req), *final(req)),
{
    if check_uri(uri) {
        req.uri = crate::headers::copy_byte_vec(uri);
        fluxio_code::FLUXIO_OK
    } else {
        fluxio_code::FLUXIO_INVALID_ARG
    }
}

/// Set the URI of the request from explicit scheme, authority and
/// path/query parts; a missing part is skipped.
pub fn fluxio_request_set_uri_parts(
    req: &mut fluxio_request,
    scheme: Option<&Vec<u8>>,
    authority: Option<&Vec<u8>>,
    path_and_query: Option<&Vec<u8>>,
) -> (r: fluxio_code)
    ensures
        r == fluxio_code::FLUXIO_OK <==> uri_of_parts(
            opt_bytes_view(scheme),
            opt_bytes_view(authority),
            opt_bytes_view(path_and_query),
        ) is Some,
        r != fluxio_code::FLUXIO_OK ==> (r == fluxio_code::FLUXIO_INVALID_ARG && *final(req)
            == *old(req)),
        r == fluxio_code::FLUXIO_OK ==> final(req).uri@ == uri_of_parts(
            opt_bytes_view(scheme),
            opt_bytes_view(authority),
            opt_bytes_view(path_and_query),
        )->Some_0,
        r == fluxio_code::FLUXIO_OK ==> unchanged_but_uri(*old(req), *final(req)),
{
    match build_uri_parts(scheme, authority, path_and_query) {
        Some(uri) => {
            req.uri = uri;
            fluxio_code::FLUXIO_OK
        },
        None => fluxio_code::FLUXIO_INVALID_ARG,
    }
}

/// All request fields but the version agree.
pub open spec fn unchanged_but_version(a: fluxio_request, b: fluxio_request) -> bool {
    a.method == b.method && a.uri == b.uri && a.headers == b.headers && a.orig_casing
        == b.orig_casing && a.orig_order == b.orig_order && a.headers_ext == b.headers_ext
        && a.body == b.body && a.on_informational == b.on_informational
}

/// Set the preferred HTTP version of the request from a
/// `FLUXIO_HTTP_VERSION_` code.
pub fn fluxio_request_set_version(req: &mut fluxio_request, version: i32) -> (r: fluxio_code)
    ensures
        r == fluxio_code::FLUXIO_OK <==> version_of_code(version) is Some,
        r != fluxio_code::FLUXIO_OK ==> (r == fluxio_code::FLUXIO_INVALID_ARG && *final(req)
            == *old(req)),
        r == fluxio_code::FLUXIO_OK ==> Some(final(req).version) == version_of_code(version),
        r == fluxio_code::FLUXIO_OK ==> unchanged_but_version(*old(req), *final(req)),
{
    if version == crate::FLUXIO_HTTP_VERSION_NONE {
        req.version = HttpVersion::Http11;
    } else if version == crate::FLUXIO_HTTP_VERSION_1_0 {
        req.version = HttpVersion::Http10;
    } else if version == crate::FLUXIO_HTTP_VERSION_1_1 {
        req.version = HttpVersion::Http11;
    } else if version == crate::FLUXIO_HTTP_VERSION_2 {
        req.version = HttpVersion::Http2;
    } else {
        return fluxio_code::FLUXIO_INVALID_ARG;
    }
    fluxio_code::FLUXIO_OK
}

/// The request's header collection, created empty on first use; it is
/// part of the request and moves into sending position when the request
/// is finalized.
pub fn fluxio_request_headers(req: &mut fluxio_request) -> (r: &mut fluxio_headers)
    ensures
        old(req).headers_ext is Some ==> *r == old(req).headers_ext->Some_0,
        old(req).headers_ext is None ==> (r.headers_model() == crate::headers::hm_empty_model()
            && r.casing_spec() == Seq::<(Seq<u8>, Seq<u8>)>::empty() && r.order_spec() == Seq::<
            (Seq<u8>, usize),
        >::empty() && r.wf() && r.consistent()),
        final(req).headers_ext == Some(*final(r)),
        final(req).method == old(req).method && final(req).uri == old(req).uri && final(req).version == old(req).version && final(req).headers == old(req).headers && final(req).orig_casing == old(req).orig_casing && final(req).orig_order == old(req).orig_order
            && final(req).body == old(req).body && final(req).on_informational == old(req).on_informational,
{
    fluxio_headers::get_or_default(&mut req.headers_ext)
}

/// Set the body of the request, taking ownership of it; the default is an
/// empty body.
pub fn fluxio_request_set_body(req: &mut fluxio_request, body: fluxio_body) -> (r: fluxio_code)
    ensures
        r == fluxio_code::FLUXIO_OK,
        final(req).body == body,
        unchanged_but_body(*old(req), *final(req)),
{
    req.body = body;
    fluxio_code::FLUXIO_OK
}

/// All request fields but the body agree.
pub open spec fn unchanged_but_body(a: fluxio_request, b: fluxio_request) -> bool {
    a.method == b.method && a.uri == b.uri && a.version == b.version && a.headers == b.headers
        && a.orig_casing == b.orig_casing && a.orig_order == b.orig_order && a.headers_ext
        == b.headers_ext && a.on_informational == b.on_informational
}

/// Register an informational (1xx) response callback with its opaque
/// caller token.
pub fn fluxio_request_on_informational(req: &mut fluxio_request, userdata: usize) -> (r:
    fluxio_code)
    ensures
        r == fluxio_code::FLUXIO_OK,
        ({
            &&& final(req).on_informational matches Some(oi)
            &&& oi.userdata == userdata
            &&& oi.received@.len() == 0
        }),
        final(req).method == old(req).method && final(req).uri == old(req).uri && final(req).version == old(req).version && final(req).headers == old(req).headers && final(req).orig_casing == old(req).orig_casing && final(req).orig_order == old(req).orig_order
            && final(req).headers_ext == old(req).headers_ext && final(req).body == old(req).body,
{
    req.on_informational = Some(OnInformational { userdata, received: Vec::new() });
    fluxio_code::FLUXIO_OK
}

impl fluxio_request {
    /// Move the caller-filled header collection into sending position:
    /// its map becomes the request's headers and its side tables ride
    /// along for the wire format to reproduce casing and order.
    pub fn finalize_request(&mut self)
        ensures
            old(self).headers_ext matches Some(h) ==> ({
                &&& hm_entries(final(self).headers) == h.headers_model()
                &&& final(self).orig_casing matches Some(c)
                &&& c.view_spec() == h.casing_spec()
                &&& final(self).orig_order matches Some(o)
                &&& o.view_spec() == h.order_spec()
                &&& final(self).headers_ext is None
            }),
            old(self).headers_ext is None ==> *final(self) == *old(self),
            final(self).method == old(self).method && final(self).uri == old(self).uri && final(self).version == old(self).version && final(self).body == old(self).body && final(self).on_informational == old(self).on_informational,
    {
        if self.headers_ext.is_some() {
            let ext = self.headers_ext.take();
            match ext {
                Some(h) => {
                    let (m, c, o) = h.into_parts();
                    self.headers = m;
                    self.orig_casing = Some(c);
                    self.orig_order = Some(o);
                },
                None => (),
            }
        }
    }
}

// ===== responses =====

/// What the engine hands over for one received response: the parsed
/// pieces, with the side tables the wire reader kept when it was asked
/// to.
pub struct ResponseParts {
    /// The status code, between 100 and 599.
    pub status: u16,
    /// The negotiated HTTP version.
    pub version: HttpVersion,
    /// The header map as received.
    pub headers: http::HeaderMap,
    /// The received spellings of the header names, when kept.
    pub orig_casing: Option<HeaderCaseMap>,
    /// The received order of the headers, when kept.
    pub orig_order: Option<OriginalHeaderOrder>,
    /// A non-canonical reason phrase, when the peer sent one.
    pub reason: Option<fluxio_buf>,
    /// A copy of the raw header bytes, when capture was enabled.
    pub raw_headers: Option<fluxio_buf>,
    /// The response body.
    pub body: fluxio_body,
}

/// How a wrapped response relates to the engine parts it came from: the
/// plain pieces carry over, and the header map and side tables (empty
/// ones standing in for tables the engine did not keep) become the
/// response's header collection.
pub open spec fn wrap_rel(parts: ResponseParts, r: fluxio_response) -> bool {
    &&& r.status_spec() == parts.status
    &&& r.version_spec() == parts.version
    &&& r.reason_spec() == parts.reason
    &&& r.raw_headers_spec() == parts.raw_headers
    &&& r.body_spec() == parts.body
    &&& r.wf()
    &&& r.headers_ext_spec() matches Some(h)
    &&& h.headers_model() == hm_entries(parts.headers)
    &&& h.casing_spec() == (match parts.orig_casing {
        Some(c) => c.view_spec(),
        None => Seq::<(Seq<u8>, Seq<u8>)>::empty(),
    })
    &&& h.order_spec() == (match parts.orig_order {
        Some(o) => o.view_spec(),
        None => Seq::<(Seq<u8>, usize)>::empty(),
    })
}

/// An HTTP response handed across the boundary.
pub struct fluxio_response {
    status: u16,
    version: HttpVersion,
    reason: Option<fluxio_buf>,
    raw_headers: Option<fluxio_buf>,
    headers_ext: Option<fluxio_headers>,
    body: fluxio_body,
}

impl fluxio_response {
    /// The status code.
    pub closed spec fn status_spec(&self) -> u16 {
        self.status
    }

    /// The negotiated version.
    pub closed spec fn version_spec(&self) -> HttpVersion {
        self.version
    }

    /// The peer's reason phrase, when one was kept.
    pub closed spec fn reason_spec(&self) -> Option<fluxio_buf> {
        self.reason
    }

    /// The raw header bytes, when capture was enabled.
    pub closed spec fn raw_headers_spec(&self) -> Option<fluxio_buf> {
        self.raw_headers
    }

    /// The header collection.
    pub closed spec fn headers_ext_spec(&self) -> Option<fluxio_headers> {
        self.headers_ext
    }

    /// The response body.
    pub closed spec fn body_spec(&self) -> fluxio_body {
        self.body
    }

    /// A response's status is always in the 100-599 range.
    pub open spec fn wf(&self) -> bool {
        100 <= self.status_spec() < 600
    }

    /// Bundle an engine response for the boundary: the header map and
    /// whatever side tables the engine kept become one header collection,
    /// with empty tables standing in for ones it did not keep.
    pub fn wrap(parts: ResponseParts) -> (r: fluxio_response)
        requires
            100 <= parts.status < 600,
        ensures
            r.status_spec() == parts.status,
            r.version_spec() == parts.version,
            r.reason_spec() == parts.reason,
            r.raw_headers_spec() == parts.raw_headers,
            r.body_spec() == parts.body,
            r.wf(),
            wrap_rel(parts, r),
            ({
                &&& r.headers_ext_spec() matches Some(h)
                &&& h.headers_model() == hm_entries(parts.headers)
                &&& h.casing_spec() == (match parts.orig_casing {
                    Some(c) => c.view_spec(),
                    None => Seq::<(Seq<u8>, Seq<u8>)>::empty(),
                })
                &&& h.order_spec() == (match parts.orig_order {
                    Some(o) => o.view_spec(),
                    None => Seq::<(Seq<u8>, usize)>::empty(),
                })
            }),
    {
        let ResponseParts { status, version, headers, orig_casing, orig_order, reason, raw_headers, body } =
            parts;
        let casing = match orig_casing {
            Some(c) => c,
            None => HeaderCaseMap::new(),
        };
        let order = match orig_order {
            Some(o) => o,
            None => OriginalHeaderOrder::new(),
        };
        fluxio_response {
            status,
            version,
            reason,
            raw_headers,
            headers_ext: Some(fluxio_headers::assemble(headers, casing, order)),
            body,
        }
    }

    /// The reason phrase: the peer's own when one was kept, else the
    /// status code's canonical phrase, else nothing.
    pub fn reason_phrase(&self) -> (r: Vec<u8>)
        requires
            self.wf(),
        ensures
            r@ == reason_phrase_view(self.reason_spec(), self.status_spec()),
    {
        match &self.reason {
            Some(b) => crate::buf::fluxio_buf_bytes(b),
            None => match status_canonical_reason(self.status) {
                Some(v) => v,
                None => Vec::new(),
            },
        }
    }
}

/// The reason phrase a response shows: a kept peer phrase wins, then the
/// canonical phrase, then nothing.
pub open spec fn reason_phrase_view(reason: Option<fluxio_buf>, status: u16) -> Seq<u8> {
    match reason {
        Some(b) => b.view_spec(),
        None => match canonical_reason_of(status) {
            Some(s) => s,
            None => Seq::empty(),
        },
    }
}

/// Free an HTTP response.
pub fn fluxio_response_free(resp: fluxio_response) {
    let _ = resp;
}

/// The HTTP status code of this response, always within 100-599.
pub fn fluxio_response_status(resp: &fluxio_response) -> (r: u16)
    requires
        resp.wf(),
    ensures
        r == resp.status_spec(),
        100 <= r < 600,
{
    resp.status
}

/// The reason phrase of this response, as bytes.
pub fn fluxio_response_reason_phrase(resp: &fluxio_response) -> (r: Vec<u8>)
    requires
        resp.wf(),
    ensures
        r@ == reason_phrase_view(resp.reason_spec(), resp.status_spec()),
{
    resp.reason_phrase()
}

/// The length of the reason phrase of this response.
pub fn fluxio_response_reason_phrase_len(resp: &fluxio_response) -> (r: usize)
    requires
        resp.wf(),
    ensures
        r == reason_phrase_view(resp.reason_spec(), resp.status_spec()).len(),
{
    resp.reason_phrase().len()
}

/// The full raw headers of this response, present only when capture was
/// enabled on the connection's options.
pub fn fluxio_response_headers_raw(resp: &fluxio_response) -> (r: Option<&fluxio_buf>)
    ensures
        r is Some <==> resp.raw_headers_spec() is Some,
        r is Some ==> *r->Some_0 == resp.raw_headers_spec()->Some_0,
{
    match &resp.raw_headers {
        Some(b) => Some(b),
        None => None,
    }
}

/// The HTTP version used by this response, as a `FLUXIO_HTTP_VERSION_`
/// code.
pub fn fluxio_response_version(resp: &fluxio_response) -> (r: i32)
    ensures
        r == code_of_version(resp.version_spec()),
{
    match resp.version {
        HttpVersion::Http10 => crate::FLUXIO_HTTP_VERSION_1_0,
        HttpVersion::Http11 => crate::FLUXIO_HTTP_VERSION_1_1,
        HttpVersion::Http2 => crate::FLUXIO_HTTP_VERSION_2,
    }
}

/// The response's header collection, created empty on first use.
pub fn fluxio_response_headers(resp: &mut fluxio_response) -> (r: &mut fluxio_headers)
    ensures
        old(resp).headers_ext_spec() is Some ==> *r == old(resp).headers_ext_spec()->Some_0,
        old(resp).headers_ext_spec() is None ==> (r.headers_model()
            == crate::headers::hm_empty_model() && r.casing_spec() == Seq::<
            (Seq<u8>, Seq<u8>),
        >::empty() && r.order_spec() == Seq::<(Seq<u8>, usize)>::empty() && r.wf()
            && r.consistent()),
        final(resp).headers_ext_spec() == Some(*final(r)),
        final(resp).status_spec() == old(resp).status_spec() && final(resp).version_spec()
            == old(resp).version_spec() && final(resp).reason_spec() == old(resp).reason_spec()
            && final(resp).raw_headers_spec() == old(resp).raw_headers_spec() && final(resp).body_spec() == old(resp).body_spec(),
{
    fluxio_headers::get_or_default(&mut resp.headers_ext)
}

/// Take ownership of the body of this response, leaving an empty one
/// behind, so the response can still be freed afterwards.
pub fn fluxio_response_body(resp: &mut fluxio_response) -> (r: fluxio_body)
    ensures
        r == old(resp).body_spec(),
        final(resp).body_spec().replies_spec() == Seq::<
            crate::body::fluxio_body_data_reply,
        >::empty(),
        final(resp).status_spec() == old(resp).status_spec() && final(resp).version_spec()
            == old(resp).version_spec() && final(resp).reason_spec() == old(resp).reason_spec()
            && final(resp).raw_headers_spec() == old(resp).raw_headers_spec() && final(resp).headers_ext_spec() == old(resp).headers_ext_spec(),
{
    let mut taken = fluxio_body::new();
    core::mem::swap(&mut resp.body, &mut taken);
    taken
}

} // verus!
