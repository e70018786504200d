//! Streaming HTTP bodies.
//!
//! A body is driven by a caller-supplied "data" callback that is invoked
//! once per poll and answers with a sentinel-coded reply.  Here the
//! callback appears as a queue of the replies it would have returned, in
//! order; polling consumes the queue's front and maps it through the
//! sentinel protocol: ready with a buffer yields the chunk, ready with
//! nothing ends the stream, pending suspends, an error code aborts, and
//! any other code is a protocol violation mapped to a descriptive error.
//! An exhausted queue behaves as the default callback does: it reports
//! end of stream.

use vstd::prelude::*;

verus! {

use crate::buf::fluxio_buf;
use crate::error::fluxio_error;
use crate::error::ErrorKind;

/// One return of the caller's body data callback.
pub enum fluxio_body_data_reply {
    /// `FLUXIO_POLL_READY`: a chunk, or end of stream when there is none.
    Ready(Option<fluxio_buf>),
    /// `FLUXIO_POLL_PENDING`; `wake` says whether the callback invoked a
    /// waker taken from the poll's context before returning.
    Pending { wake: bool },
    /// `FLUXIO_POLL_ERROR`.
    Fault,
    /// Any other return code: a protocol violation.
    Unexpected(i32),
}

/// What one poll of a body yields.
pub enum BodyPoll {
    /// A chunk of data.
    Chunk(fluxio_buf),
    /// The body has finished streaming data.
    Finished,
    /// Not ready; `woke` says whether the suspension's waker already
    /// fired during the poll.
    NotYet { woke: bool },
    /// The body failed.
    Failed(fluxio_error),
}

/// A streaming HTTP body.
pub struct fluxio_body {
    replies: Vec<fluxio_body_data_reply>,
    userdata: usize,
}

impl fluxio_body {
    /// The replies the data callback has yet to give, front first.
    pub closed spec fn replies_spec(&self) -> Seq<fluxio_body_data_reply> {
        self.replies@
    }

    /// The opaque caller token attached to this body.
    pub closed spec fn userdata_spec(&self) -> usize {
        self.userdata
    }

    /// A new "empty" body: with no configured data, it acts as an empty
    /// payload.
    pub fn new() -> (r: fluxio_body)
        ensures
            r.replies_spec() == Seq::<fluxio_body_data_reply>::empty(),
            r.userdata_spec() == 0,
    {
        fluxio_body { replies: Vec::new(), userdata: 0 }
    }

    /// Poll the body for its next chunk, consuming one callback reply.
    pub fn poll_data(&mut self) -> (r: BodyPoll)
        ensures
            old(self).replies_spec().len() == 0 ==> (r is Finished && final(self).replies_spec()
                == old(self).replies_spec()),
            old(self).replies_spec().len() > 0 ==> final(self).replies_spec() == old(self).replies_spec().drop_first(),
            old(self).replies_spec().len() > 0 ==> (match old(self).replies_spec()[0] {
                fluxio_body_data_reply::Ready(chunk) => match chunk {
                    Some(b) => r == BodyPoll::Chunk(b),
                    None => r is Finished,
                },
                fluxio_body_data_reply::Pending { wake } => r == (BodyPoll::NotYet {
                    woke: wake,
                }),
                fluxio_body_data_reply::Fault => (r matches BodyPoll::Failed(e)
                    && e.kind_spec() == ErrorKind::BodyWriteAborted),
                fluxio_body_data_reply::Unexpected(_) => (r matches BodyPoll::Failed(e)
                    && e.kind_spec() == ErrorKind::BodyWrite),
            }),
            final(self).userdata_spec() == old(self).userdata_spec(),
    {
        if self.replies.len() == 0 {
            return BodyPoll::Finished;
        }
        let reply = self.replies.remove(0);
        match reply {
            fluxio_body_data_reply::Ready(chunk) => match chunk {
                Some(b) => BodyPoll::Chunk(b),
                None => BodyPoll::Finished,
            },
            fluxio_body_data_reply::Pending { wake } => BodyPoll::NotYet { woke: wake },
            fluxio_body_data_reply::Fault => BodyPoll::Failed(fluxio_error::body_write_aborted()),
            fluxio_body_data_reply::Unexpected(_) => BodyPoll::Failed(
                fluxio_error::body_write_unexpected(),
            ),
        }
    }

    /// Poll for trailers: this boundary does not support them, so they
    /// always resolve empty at once.
    pub fn poll_trailers(&self) -> (r: Option<fluxio_error>)
        ensures
            r is None,
    {
        None
    }
}

/// Create a new "empty" body.
pub fn fluxio_body_new() -> (r: fluxio_body)
    ensures
        r.replies_spec() == Seq::<fluxio_body_data_reply>::empty(),
        r.userdata_spec() == 0,
{
    fluxio_body::new()
}

/// Free a body.
pub fn fluxio_body_free(body: fluxio_body) {
    let _ = body;
}

/// Set the opaque caller token on this body.
pub fn fluxio_body_set_userdata(body: &mut fluxio_body, userdata: usize)
    ensures
        final(body).userdata_spec() == userdata,
        final(body).replies_spec() == old(body).replies_spec(),
{
    body.userdata = userdata;
}

/// Queue one more reply of the body's data callback; the callback's
/// replies are consumed front first, one per poll.
pub fn fluxio_body_push_reply(body: &mut fluxio_body, reply: fluxio_body_data_reply)
    ensures
        final(body).replies_spec() == old(body).replies_spec().push(reply),
        final(body).userdata_spec() == old(body).userdata_spec(),
{
    body.replies.push(reply);
}

/// Return a task that will poll the body for the next buffer of data:
/// it resolves to a buffer on success, an error object on failure, or an
/// empty value once the body has finished streaming.  The body moves
/// into the task.
pub fn fluxio_body_data(body: fluxio_body) -> (r: crate::task::fluxio_task)
    ensures
        r.computation == crate::task::Computation::BodyData(body),
        r.output is None,
        r.userdata == 0,
        crate::task::task_wf(r),
{
    crate::task::fluxio_task::body_data(body)
}

/// Return a task that will drain the body, delivering each received
/// chunk to the iteration callback, whose per-chunk returns are played
/// by `decisions`; a decision other than `FLUXIO_ITER_CONTINUE` cancels
/// the iteration, which the task reports as an aborted-by-callback
/// error, distinct from a transport failure.  This consumes the body.
pub fn fluxio_body_foreach(body: fluxio_body, decisions: Vec<i32>) -> (r:
    crate::task::fluxio_task)
    ensures
        r.computation matches crate::task::Computation::BodyForeach(st) && st.body == body
            && st.decisions == decisions,
        r.output is None,
        r.userdata == 0,
        r.delivered@.len() == 0,
        crate::task::task_wf(r),
{
    crate::task::fluxio_task::body_foreach(body, decisions)
}

/// Classify a body data callback's raw return together with the chunk
/// slot it may have filled: ready yields the slot's content (a chunk, or
/// end of stream when empty), the pending and error sentinels suspend or
/// abort, and any other code is a protocol violation.
pub fn data_reply_from_code(code: i32, chunk: Option<fluxio_buf>) -> (r: fluxio_body_data_reply)
    ensures
        code == crate::FLUXIO_POLL_READY ==> r == fluxio_body_data_reply::Ready(chunk),
        code == crate::FLUXIO_POLL_PENDING ==> r == (fluxio_body_data_reply::Pending {
            wake: false,
        }),
        code == crate::FLUXIO_POLL_ERROR ==> r is Fault,
        (code != crate::FLUXIO_POLL_READY && code != crate::FLUXIO_POLL_PENDING && code
            != crate::FLUXIO_POLL_ERROR) ==> r == fluxio_body_data_reply::Unexpected(code),
{
    if code == crate::FLUXIO_POLL_READY {
        fluxio_body_data_reply::Ready(chunk)
    } else if code == crate::FLUXIO_POLL_PENDING {
        fluxio_body_data_reply::Pending { wake: false }
    } else if code == crate::FLUXIO_POLL_ERROR {
        fluxio_body_data_reply::Fault
    } else {
        fluxio_body_data_reply::Unexpected(code)
    }
}

} // verus!
