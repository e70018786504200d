//! The byte-stream transport a caller installs.
//!
//! The caller's read and write callbacks appear as queues of the replies
//! they would have returned, consumed front first, one per poll.  A read
//! reply carries the bytes the callback produced; a count reply of a
//! write carries the byte count the callback reported, which is trusted
//! verbatim as the original contract trusts it.  The pending sentinel
//! suspends the operation without consuming any queued data, and the
//! error sentinel surfaces as an I/O failure.  An exhausted queue behaves
//! as the default callbacks do: it reports a zero count.

use vstd::prelude::*;

verus! {

/// One return of the caller's read callback.
pub enum fluxio_io_read_reply {
    /// The bytes the callback wrote into the given buffer.
    Data(Vec<u8>),
    /// `FLUXIO_IO_PENDING`; `wake` says whether the callback invoked a
    /// waker taken from the poll's context before returning.
    Pending { wake: bool },
    /// `FLUXIO_IO_ERROR`.
    Fault,
}

/// One return of the caller's write callback.
pub enum fluxio_io_write_reply {
    /// The byte count the callback reported as written.
    Accepted(usize),
    /// `FLUXIO_IO_PENDING`.
    Pending { wake: bool },
    /// `FLUXIO_IO_ERROR`.
    Fault,
}

/// What one poll of a read yields.
pub enum IoReadPoll {
    /// The bytes read; none of them means a clean end of stream.
    Filled(Vec<u8>),
    /// Not ready; `woke` says whether the suspension's waker already
    /// fired during the poll.
    NotYet { woke: bool },
    /// An I/O failure.
    Fail,
}

/// What one poll of a write yields.
pub enum IoWritePoll {
    /// The byte count the transport reported as written.
    Wrote(usize),
    /// Not ready.
    NotYet { woke: bool },
    /// An I/O failure.
    Fail,
}

/// An IO transport used to represent a socket or similar concept.
pub struct fluxio_io {
    read_replies: Vec<fluxio_io_read_reply>,
    write_replies: Vec<fluxio_io_write_reply>,
    userdata: usize,
}

impl fluxio_io {
    /// The read-callback replies yet to be consumed, front first.
    pub closed spec fn read_replies_spec(&self) -> Seq<fluxio_io_read_reply> {
        self.read_replies@
    }

    /// The write-callback replies yet to be consumed, front first.
    pub closed spec fn write_replies_spec(&self) -> Seq<fluxio_io_write_reply> {
        self.write_replies@
    }

    /// The opaque caller token attached to this transport.
    pub closed spec fn userdata_spec(&self) -> usize {
        self.userdata
    }

    /// A new transport with no queued replies.
    pub fn new() -> (r: fluxio_io)
        ensures
            r.read_replies_spec() == Seq::<fluxio_io_read_reply>::empty(),
            r.write_replies_spec() == Seq::<fluxio_io_write_reply>::empty(),
            r.userdata_spec() == 0,
    {
        fluxio_io { read_replies: Vec::new(), write_replies: Vec::new(), userdata: 0 }
    }

    /// Poll the transport for up to `buf_len` bytes, consuming one read
    /// reply.  A pending reply suspends without consuming any queued
    /// data; the bytes of a data reply are delivered up to the buffer's
    /// length.
    pub fn poll_read(&mut self, buf_len: usize) -> (r: IoReadPoll)
        ensures
            final(self).write_replies_spec() == old(self).write_replies_spec(),
            final(self).userdata_spec() == old(self).userdata_spec(),
            old(self).read_replies_spec().len() == 0 ==> ((r matches IoReadPoll::Filled(b)
                && b@.len() == 0) && final(self).read_replies_spec() == old(self).read_replies_spec()),
            old(self).read_replies_spec().len() > 0 ==> final(self).read_replies_spec() == old(self).read_replies_spec().drop_first(),
            old(self).read_replies_spec().len() > 0 ==> (match old(self).read_replies_spec()[0] {
                fluxio_io_read_reply::Data(bytes) => (r matches IoReadPoll::Filled(b) && b@
                    == bytes@.take(if bytes@.len() <= buf_len {
                    bytes@.len() as int
                } else {
                    buf_len as int
                })),
                fluxio_io_read_reply::Pending { wake } => r == (IoReadPoll::NotYet {
                    woke: wake,
                }),
                fluxio_io_read_reply::Fault => r is Fail,
            }),
    {
        if self.read_replies.len() == 0 {
            return IoReadPoll::Filled(Vec::new());
        }
        let reply = self.read_replies.remove(0);
        match reply {
            fluxio_io_read_reply::Data(mut bytes) => {
                if bytes.len() > buf_len {
                    bytes.truncate(buf_len);
                }
                proof {
                    assert(bytes@ =~= old(self).read_replies_spec()[0]->Data_0@.take(
                        if old(self).read_replies_spec()[0]->Data_0@.len() <= buf_len {
                            old(self).read_replies_spec()[0]->Data_0@.len() as int
                        } else {
                            buf_len as int
                        },
                    ));
                }
                IoReadPoll::Filled(bytes)
            },
            fluxio_io_read_reply::Pending { wake } => IoReadPoll::NotYet { woke: wake },
            fluxio_io_read_reply::Fault => IoReadPoll::Fail,
        }
    }

    /// Poll the transport to write `buf`, consuming one write reply.  The
    /// count of an accepting reply is reported back verbatim, as the
    /// boundary trusts the callback's count.
    pub fn poll_write(&mut self, buf: &Vec<u8>) -> (r: IoWritePoll)
        ensures
            final(self).read_replies_spec() == old(self).read_replies_spec(),
            final(self).userdata_spec() == old(self).userdata_spec(),
            old(self).write_replies_spec().len() == 0 ==> (r == IoWritePoll::Wrote(0usize)
                && final(self).write_replies_spec() == old(self).write_replies_spec()),
            old(self).write_replies_spec().len() > 0 ==> final(self).write_replies_spec()
                == old(self).write_replies_spec().drop_first(),
            old(self).write_replies_spec().len() > 0 ==> (match old(self).write_replies_spec()[0] {
                fluxio_io_write_reply::Accepted(n) => r == IoWritePoll::Wrote(n),
                fluxio_io_write_reply::Pending { wake } => r == (IoWritePoll::NotYet {
                    woke: wake,
                }),
                fluxio_io_write_reply::Fault => r is Fail,
            }),
    {
        let _ = buf;
        if self.write_replies.len() == 0 {
            return IoWritePoll::Wrote(0);
        }
        let reply = self.write_replies.remove(0);
        match reply {
            fluxio_io_write_reply::Accepted(n) => IoWritePoll::Wrote(n),
            fluxio_io_write_reply::Pending { wake } => IoWritePoll::NotYet { woke: wake },
            fluxio_io_write_reply::Fault => IoWritePoll::Fail,
        }
    }

    /// Flush is a no-op: the model assumes the write callback already
    /// reflects durably sent bytes.
    pub fn poll_flush(&self) -> (r: Option<crate::error::fluxio_error>)
        ensures
            r is None,
    {
        None
    }

    /// Shutdown is a no-op, like flush.
    pub fn poll_shutdown(&self) -> (r: Option<crate::error::fluxio_error>)
        ensures
            r is None,
    {
        None
    }
}

/// Create a new IO transport.
pub fn fluxio_io_new() -> (r: fluxio_io)
    ensures
        r.read_replies_spec() == Seq::<fluxio_io_read_reply>::empty(),
        r.write_replies_spec() == Seq::<fluxio_io_write_reply>::empty(),
        r.userdata_spec() == 0,
{
    fluxio_io::new()
}

/// Free an unused IO transport, when not handing it to a handshake.
pub fn fluxio_io_free(io: fluxio_io) {
    let _ = io;
}

/// Set the opaque caller token passed to the transport's callbacks.
pub fn fluxio_io_set_userdata(io: &mut fluxio_io, data: usize)
    ensures
        final(io).userdata_spec() == data,
        final(io).read_replies_spec() == old(io).read_replies_spec(),
        final(io).write_replies_spec() == old(io).write_replies_spec(),
{
    io.userdata = data;
}

/// Queue one more reply of the transport's read callback.
pub fn fluxio_io_push_read_reply(io: &mut fluxio_io, reply: fluxio_io_read_reply)
    ensures
        final(io).read_replies_spec() == old(io).read_replies_spec().push(reply),
        final(io).write_replies_spec() == old(io).write_replies_spec(),
        final(io).userdata_spec() == old(io).userdata_spec(),
{
    io.read_replies.push(reply);
}

/// Queue one more reply of the transport's write callback.
pub fn fluxio_io_push_write_reply(io: &mut fluxio_io, reply: fluxio_io_write_reply)
    ensures
        final(io).write_replies_spec() == old(io).write_replies_spec().push(reply),
        final(io).read_replies_spec() == old(io).read_replies_spec(),
        final(io).userdata_spec() == old(io).userdata_spec(),
{
    io.write_replies.push(reply);
}

/// Classify a read callback's raw return: the reserved sentinels select
/// suspension or failure, and any other value is the byte count, whose
/// bytes the caller hands alongside.
pub fn read_reply_from_count(code: usize, bytes: Vec<u8>) -> (r: fluxio_io_read_reply)
    ensures
        code == crate::FLUXIO_IO_PENDING ==> r == (fluxio_io_read_reply::Pending {
            wake: false,
        }),
        code == crate::FLUXIO_IO_ERROR ==> r is Fault,
        (code != crate::FLUXIO_IO_PENDING && code != crate::FLUXIO_IO_ERROR) ==> r
            == fluxio_io_read_reply::Data(bytes),
{
    if code == crate::FLUXIO_IO_PENDING {
        fluxio_io_read_reply::Pending { wake: false }
    } else if code == crate::FLUXIO_IO_ERROR {
        fluxio_io_read_reply::Fault
    } else {
        fluxio_io_read_reply::Data(bytes)
    }
}

/// Classify a write callback's raw return: the reserved sentinels select
/// suspension or failure, and any other value is the accepted count.
pub fn write_reply_from_count(code: usize) -> (r: fluxio_io_write_reply)
    ensures
        code == crate::FLUXIO_IO_PENDING ==> r == (fluxio_io_write_reply::Pending {
            wake: false,
        }),
        code == crate::FLUXIO_IO_ERROR ==> r is Fault,
        (code != crate::FLUXIO_IO_PENDING && code != crate::FLUXIO_IO_ERROR) ==> r
            == fluxio_io_write_reply::Accepted(code),
{
    if code == crate::FLUXIO_IO_PENDING {
        fluxio_io_write_reply::Pending { wake: false }
    } else if code == crate::FLUXIO_IO_ERROR {
        fluxio_io_write_reply::Fault
    } else {
        fluxio_io_write_reply::Accepted(code)
    }
}

} // verus!
