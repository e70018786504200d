//! Client connections and their options.
//!
//! A handshake consumes an IO transport and a set of options and yields a
//! task that resolves to a connection handle; on success the connection's
//! background driver is handed to the executor the options were attached
//! to, through a non-owning reference, so an executor that is already
//! gone simply never runs the driver.  Sending consumes a fully built
//! request and yields a task that resolves to the engine's response.  The
//! engine's side of a send appears as a queue of per-request reply
//! scripts that the connection hands to each send task in turn.

use vstd::prelude::*;

verus! {

use crate::error::fluxio_code;
use crate::error::fluxio_error;
use crate::http_types::ResponseParts;
use crate::http_types::fluxio_request;
use crate::headers::hm_entries;
use crate::task::WeakExec;
use crate::task::fluxio_task;
use crate::task::fluxio_executor;

/// One event of the engine's reply to a sent request.
pub enum fluxio_send_reply {
    /// The response is not ready yet; `wake` says whether its waker
    /// already fired during the poll.
    NotYet { wake: bool },
    /// The response arrived.
    Answer(ResponseParts),
    /// The request failed with this error.
    Failure(fluxio_error),
}

/// A reply script in which every answered response has a status in the
/// 100-599 range, as the engine guarantees.
pub open spec fn send_events_wf(events: Seq<fluxio_send_reply>) -> bool {
    forall|i: int|
        0 <= i < events.len() ==> (#[trigger] events[i] matches fluxio_send_reply::Answer(p)
            ==> 100 <= p.status < 600)
}

/// An HTTP client connection handle, used to send requests on a single
/// connection.
pub struct fluxio_clientconn {
    /// The engine's reply scripts for requests yet to be sent, front
    /// first: each send consumes one.
    pub replies: Vec<Vec<fluxio_send_reply>>,
    /// The finalized requests handed to the engine, oldest first.
    pub sent: Vec<fluxio_request>,
}

impl fluxio_clientconn {
    /// Every queued reply script is well formed.
    pub open spec fn wf(&self) -> bool {
        forall|i: int| 0 <= i < self.replies@.len() ==> send_events_wf(
            (#[trigger] self.replies@[i])@,
        )
    }

    /// A fresh connection with no queued engine replies and nothing sent.
    pub fn fresh() -> (r: fluxio_clientconn)
        ensures
            r.replies@.len() == 0,
            r.sent@.len() == 0,
            r.wf(),
    {
        fluxio_clientconn { replies: Vec::new(), sent: Vec::new() }
    }

    /// Queue the engine's reply script for the next request that will be
    /// sent on this connection.
    pub fn push_reply_script(&mut self, events: Vec<fluxio_send_reply>)
        requires
            send_events_wf(events@),
            old(self).wf(),
        ensures
            final(self).replies@ == old(self).replies@.push(events),
            final(self).sent == old(self).sent,
            final(self).wf(),
    {
        self.replies.push(events);
        proof {
            assert forall|i: int| 0 <= i < self.replies@.len() implies send_events_wf(
                (#[trigger] self.replies@[i])@,
            ) by {
                if i < old(self).replies@.len() {
                    assert(self.replies@[i] == old(self).replies@[i]);
                }
            }
        }
    }
}

/// An options builder to configure an HTTP client connection.
pub struct fluxio_clientconn_options {
    /// Whether received header casing is preserved in side tables.
    pub preserve_header_case: bool,
    /// Whether received header order is preserved in side tables.
    pub preserve_header_order: bool,
    /// Whether a copy of the raw response headers is kept.
    pub headers_raw: bool,
    /// The executor attachment for background work, a non-owning
    /// reference so the options never keep an executor alive.
    pub exec_ref: WeakExec,
}

/// Creates a new set of client connection options for a handshake.
pub fn fluxio_clientconn_options_new() -> (r: fluxio_clientconn_options)
    ensures
        !r.preserve_header_case,
        !r.preserve_header_order,
        !r.headers_raw,
        !r.exec_ref.attached,
{
    fluxio_clientconn_options {
        preserve_header_case: false,
        preserve_header_order: false,
        headers_raw: false,
        exec_ref: WeakExec::new(),
    }
}

/// Free a set of client connection options.
pub fn fluxio_clientconn_options_free(opts: fluxio_clientconn_options) {
    let _ = opts;
}

/// Set whether header case is preserved: `0` allows lowercase
/// normalization (the default), anything else retains the original case.
pub fn fluxio_clientconn_options_set_preserve_header_case(
    opts: &mut fluxio_clientconn_options,
    enabled: i32,
)
    ensures
        final(opts).preserve_header_case == (enabled != 0),
        final(opts).preserve_header_order == old(opts).preserve_header_order,
        final(opts).headers_raw == old(opts).headers_raw,
        final(opts).exec_ref == old(opts).exec_ref,
{
    opts.preserve_header_case = enabled != 0;
}

/// Set whether header order is preserved: `0` allows reordering (the
/// default), anything else retains the original ordering.
pub fn fluxio_clientconn_options_set_preserve_header_order(
    opts: &mut fluxio_clientconn_options,
    enabled: i32,
)
    ensures
        final(opts).preserve_header_order == (enabled != 0),
        final(opts).preserve_header_case == old(opts).preserve_header_case,
        final(opts).headers_raw == old(opts).headers_raw,
        final(opts).exec_ref == old(opts).exec_ref,
{
    opts.preserve_header_order = enabled != 0;
}

/// Set whether to keep a copy of the raw headers of responses received
/// on this connection: `0` disables, anything else enables.
pub fn fluxio_clientconn_options_headers_raw(
    opts: &mut fluxio_clientconn_options,
    enabled: i32,
) -> (r: fluxio_code)
    ensures
        r == fluxio_code::FLUXIO_OK,
        final(opts).headers_raw == (enabled != 0),
        final(opts).preserve_header_case == old(opts).preserve_header_case,
        final(opts).preserve_header_order == old(opts).preserve_header_order,
        final(opts).exec_ref == old(opts).exec_ref,
{
    opts.headers_raw = enabled != 0;
    fluxio_code::FLUXIO_OK
}

/// Ask for HTTP/2: this build does not carry the HTTP/2 engine, so the
/// request is refused as a feature that was not enabled.
pub fn fluxio_clientconn_options_http2(
    opts: &mut fluxio_clientconn_options,
    enabled: i32,
) -> (r: fluxio_code)
    ensures
        r == fluxio_code::FLUXIO_FEATURE_NOT_ENABLED,
        *final(opts) == *old(opts),
{
    let _ = enabled;
    fluxio_code::FLUXIO_FEATURE_NOT_ENABLED
}

/// Attach the client's background task executor to the options, through
/// a non-owning reference; this consumes neither the options nor the
/// executor.
pub fn fluxio_clientconn_options_exec(
    opts: &mut fluxio_clientconn_options,
    exec: &fluxio_executor,
)
    ensures
        final(opts).exec_ref.attached,
        final(opts).preserve_header_case == old(opts).preserve_header_case,
        final(opts).preserve_header_order == old(opts).preserve_header_order,
        final(opts).headers_raw == old(opts).headers_raw,
{
    opts.exec_ref = fluxio_executor::downgrade(exec);
}

/// Free a client connection handle.
pub fn fluxio_clientconn_free(conn: fluxio_clientconn) {
    let _ = conn;
}

/// Starts an HTTP client connection handshake using the provided IO
/// transport and options, consuming both.  The returned task must be
/// polled with an executor until the handshake completes, at which point
/// it resolves to a connection handle; the connection's background
/// driver is then handed to the executor attached to the options, and
/// silently dropped when none ever was.
pub fn fluxio_clientconn_handshake(
    io: crate::io::fluxio_io,
    options: fluxio_clientconn_options,
) -> (r: fluxio_task)
    ensures
        r.computation matches crate::task::Computation::Handshake(st) && st.io == io
            && st.options == options && st.fault is None,
        r.output is None,
        r.userdata == 0,
        crate::task::task_wf(r),
{
    fluxio_task::handshake(io, options)
}

/// Send a request on the client connection: the request is finalized (its
/// header collection moves into sending position) and handed to the
/// engine, and the returned task resolves to the engine's response or
/// error, following the next queued reply script.  A connection with no
/// queued script leaves the task waiting.
pub fn fluxio_clientconn_send(conn: &mut fluxio_clientconn, req: fluxio_request) -> (r:
    fluxio_task)
    requires
        old(conn).wf(),
    ensures
        final(conn).wf(),
        final(conn).sent@.len() == old(conn).sent@.len() + 1,
        sent_request_rel(req, final(conn).sent@.last()),
        final(conn).sent@.take(old(conn).sent@.len() as int) == old(conn).sent@,
        old(conn).replies@.len() > 0 ==> final(conn).replies@ == old(
            conn,
        ).replies@.drop_first(),
        old(conn).replies@.len() == 0 ==> final(conn).replies@ == old(conn).replies@,
        r.computation matches crate::task::Computation::SendRequest(st) && st.events@ == (if old(
            conn,
        ).replies@.len() > 0 {
            old(conn).replies@[0]@
        } else {
            Seq::<fluxio_send_reply>::empty()
        }),
        r.output is None,
        r.userdata == 0,
        crate::task::task_wf(r),
{
    let mut req = req;
    req.finalize_request();
    let events: Vec<fluxio_send_reply> = if conn.replies.len() > 0 {
        conn.replies.remove(0)
    } else {
        Vec::new()
    };
    proof {
        if old(conn).replies@.len() > 0 {
            assert(send_events_wf(events@));
        }
        assert forall|i: int| 0 <= i < conn.replies@.len() implies send_events_wf(
            (#[trigger] conn.replies@[i])@,
        ) by {
            if old(conn).replies@.len() > 0 {
                assert(conn.replies@[i] == old(conn).replies@[i + 1]);
            }
        }
    }
    let ghost sent_pre = conn.sent@;
    conn.sent.push(req);
    proof {
        assert(conn.sent@.take(sent_pre.len() as int) =~= sent_pre);
    }
    fluxio_task::send(events)
}

/// How a request looks after sending finalized it: the plain fields
/// carry over, and the header collection, if the caller filled one,
/// moved into sending position.
pub open spec fn sent_request_rel(req: fluxio_request, sent: fluxio_request) -> bool {
    &&& sent.method == req.method
    &&& sent.uri == req.uri
    &&& sent.version == req.version
    &&& sent.body == req.body
    &&& sent.on_informational == req.on_informational
    &&& sent.headers_ext is None
    &&& req.headers_ext matches Some(h) ==> ({
        &&& hm_entries(sent.headers) == h.headers_model()
        &&& sent.orig_casing matches Some(c)
        &&& c.view_spec() == h.casing_spec()
        &&& sent.orig_order matches Some(o)
        &&& o.view_spec() == h.order_spec()
    })
    &&& req.headers_ext is None ==> (sent.headers == req.headers && sent.orig_casing
        == req.orig_casing && sent.orig_order == req.orig_order)
}

} // verus!
