//! Tasks, the executor that drives them, and the context/waker bridge.
//!
//! A task type-erases one of the boundary's asynchronous computations
//! behind a uniform pollable shape with a discoverable output kind; its
//! value, once finished, is readable exactly once.  The executor is a
//! pure step function over two containers — the driver set of admitted
//! tasks and an admission queue of not-yet-merged ones — plus one sticky
//! "woken" flag; it owns no thread and makes progress only inside the
//! caller's explicit poll calls.

use vstd::prelude::*;

verus! {

use crate::body::BodyPoll;
use crate::body::fluxio_body;
use crate::body::fluxio_body_data_reply;
use crate::buf::fluxio_buf;
use crate::client::fluxio_clientconn;
use crate::client::fluxio_clientconn_options;
use crate::client::fluxio_send_reply;
use crate::client::send_events_wf;
use crate::error::ErrorKind;
use crate::error::fluxio_error;
use crate::error::fluxio_code;
use crate::headers::decision_at;
use crate::http_types::fluxio_response;
use crate::http_types::wrap_rel;
use crate::io::IoReadPoll;
use crate::io::fluxio_io;
use crate::io::fluxio_io_read_reply;

/// How many bytes the background connection driver asks its transport
/// for at a time.
pub const DRIVER_READ_LEN: usize = 8192;

/// A descriptor for what type a task's value is.
#[derive(Clone, Copy, Debug, PartialEq, Eq, Structural)]
pub enum fluxio_task_return_type {
    /// No value (which by itself implies no error).
    FLUXIO_TASK_EMPTY,
    /// An error object.
    FLUXIO_TASK_ERROR,
    /// A client connection handle.
    FLUXIO_TASK_CLIENTCONN,
    /// A response.
    FLUXIO_TASK_RESPONSE,
    /// A buffer of bytes.
    FLUXIO_TASK_BUF,
}

/// The closed set of values a task can resolve to.
pub enum TaskValue {
    /// Nothing: successful completion without a value.
    Empty,
    /// An error object.
    Failed(fluxio_error),
    /// A client connection handle.
    Conn(fluxio_clientconn),
    /// A response.
    Resp(fluxio_response),
    /// A buffer of body data.
    Buf(fluxio_buf),
}

/// The kind tag of a task value.
pub open spec fn kind_of(v: TaskValue) -> fluxio_task_return_type {
    match v {
        TaskValue::Empty => fluxio_task_return_type::FLUXIO_TASK_EMPTY,
        TaskValue::Failed(_) => fluxio_task_return_type::FLUXIO_TASK_ERROR,
        TaskValue::Conn(_) => fluxio_task_return_type::FLUXIO_TASK_CLIENTCONN,
        TaskValue::Resp(_) => fluxio_task_return_type::FLUXIO_TASK_RESPONSE,
        TaskValue::Buf(_) => fluxio_task_return_type::FLUXIO_TASK_BUF,
    }
}

/// The paused state of a body-foreach computation: the body still being
/// drained and the per-chunk decisions of the iteration callback.
pub struct ForeachState {
    /// The body being drained.
    pub body: fluxio_body,
    /// The iteration callback's decisions, one per delivered chunk.
    pub decisions: Vec<i32>,
}

/// The paused state of a handshake computation.
pub struct HandshakeState {
    /// The transport the connection will own.
    pub io: fluxio_io,
    /// The options, including the executor attachment for the driver.
    pub options: fluxio_clientconn_options,
    /// The engine's scripted outcome: an error makes the handshake fail
    /// and the transport is dropped instead of a driver being spawned.
    pub fault: Option<fluxio_error>,
}

/// The paused state of a send computation: the engine's remaining reply
/// events for this request.
pub struct SendState {
    /// The engine's reply events, front first.
    pub events: Vec<fluxio_send_reply>,
}

/// The paused state of the background connection driver.
pub struct DriverState {
    /// The transport the driver keeps alive.
    pub io: fluxio_io,
}

/// The closed set of computations a task can erase.
pub enum Computation {
    /// Resolves at its first poll with this value.
    Immediate(TaskValue),
    /// Polls a body once for its next chunk.
    BodyData(fluxio_body),
    /// Drains a body, delivering each chunk to the iteration callback.
    BodyForeach(ForeachState),
    /// Performs a connection handshake.
    Handshake(HandshakeState),
    /// Waits for the engine's response to a sent request.
    SendRequest(SendState),
    /// Keeps a connection's transport alive in the background.
    ConnDriver(DriverState),
    /// Already resolved; the value sits in the task's output slot.
    Finished,
}

/// An async task.
pub struct fluxio_task {
    /// The computation still running, or `Finished`.
    pub computation: Computation,
    /// The resolved value, present once the task completed and until the
    /// caller takes it.
    pub output: Option<TaskValue>,
    /// An opaque caller token carried along, never dereferenced here.
    pub userdata: usize,
    /// The chunks a foreach computation has delivered to its callback.
    pub delivered: Vec<fluxio_buf>,
    /// The body a completed body-data task hands back, so the caller can
    /// keep reading it with another data task.
    pub leftover: Option<fluxio_body>,
}

// ===== step outcome specifications =====

/// What draining a body delivers before it next suspends or resolves:
/// the delivered chunks, how the run ends, and the replies left over.
/// `k` indexes the iteration callback's decision consumed by the first
/// delivery.
pub enum ForeachStep {
    /// The body ended cleanly.
    FEnd,
    /// The callback asked to stop.
    FAborted,
    /// The body failed with this error class.
    FFailed(ErrorKind),
    /// The body suspended.
    FPending { woke: bool },
}

pub open spec fn foreach_run(
    replies: Seq<fluxio_body_data_reply>,
    decisions: Seq<i32>,
    k: int,
) -> (Seq<fluxio_buf>, ForeachStep, Seq<fluxio_body_data_reply>)
    decreases replies.len(),
{
    if replies.len() == 0 {
        (Seq::empty(), ForeachStep::FEnd, replies)
    } else {
        match replies[0] {
            fluxio_body_data_reply::Ready(chunk) => match chunk {
                Some(b) => if decision_at(decisions, k) == crate::FLUXIO_ITER_CONTINUE {
                    let rest = foreach_run(replies.drop_first(), decisions, k + 1);
                    (seq![b] + rest.0, rest.1, rest.2)
                } else {
                    (seq![b], ForeachStep::FAborted, replies.drop_first())
                },
                None => (Seq::empty(), ForeachStep::FEnd, replies.drop_first()),
            },
            fluxio_body_data_reply::Pending { wake } => (
                Seq::empty(),
                ForeachStep::FPending { woke: wake },
                replies.drop_first(),
            ),
            fluxio_body_data_reply::Fault => (
                Seq::empty(),
                ForeachStep::FFailed(ErrorKind::BodyWriteAborted),
                replies.drop_first(),
            ),
            fluxio_body_data_reply::Unexpected(_) => (
                Seq::empty(),
                ForeachStep::FFailed(ErrorKind::BodyWrite),
                replies.drop_first(),
            ),
        }
    }
}

/// How one stretch of the background driver's reading ends.
pub enum DriverRes {
    /// The transport reached EOF or failed: the driver resolves.
    DDone,
    /// The transport suspended.
    DPending { woke: bool },
}

/// What the driver's next poll does to its transport: data keeps it
/// reading, EOF or an error resolves it, pending suspends it.
pub open spec fn driver_run(replies: Seq<fluxio_io_read_reply>) -> (
    DriverRes,
    Seq<fluxio_io_read_reply>,
)
    decreases replies.len(),
{
    if replies.len() == 0 {
        (DriverRes::DDone, replies)
    } else {
        match replies[0] {
            fluxio_io_read_reply::Data(bytes) => if bytes@.len() == 0 {
                (DriverRes::DDone, replies.drop_first())
            } else {
                driver_run(replies.drop_first())
            },
            fluxio_io_read_reply::Pending { wake } => (
                DriverRes::DPending { woke: wake },
                replies.drop_first(),
            ),
            fluxio_io_read_reply::Fault => (DriverRes::DDone, replies.drop_first()),
        }
    }
}

/// Whether polling the task now completes it.
pub open spec fn task_step_done(t: fluxio_task) -> bool {
    match t.computation {
        Computation::Immediate(_) => true,
        Computation::Finished => false,
        Computation::BodyData(b) => b.replies_spec().len() == 0 || !(b.replies_spec()[0]
            matches fluxio_body_data_reply::Pending { .. }),
        Computation::BodyForeach(st) => !(foreach_run(
            st.body.replies_spec(),
            st.decisions@,
            t.delivered@.len() as int,
        ).1 matches ForeachStep::FPending { .. }),
        Computation::Handshake(_) => true,
        Computation::SendRequest(st) => st.events@.len() > 0 && !(st.events@[0]
            matches fluxio_send_reply::NotYet { .. }),
        Computation::ConnDriver(st) => driver_run(st.io.read_replies_spec()).0 is DDone,
    }
}

/// Whether a poll that does not complete the task sees its waker fire
/// during the poll.
pub open spec fn task_step_woke(t: fluxio_task) -> bool {
    match t.computation {
        Computation::BodyData(b) => b.replies_spec().len() > 0 && (b.replies_spec()[0]
            matches fluxio_body_data_reply::Pending { wake } && wake),
        Computation::BodyForeach(st) => foreach_run(
            st.body.replies_spec(),
            st.decisions@,
            t.delivered@.len() as int,
        ).1 matches ForeachStep::FPending { woke } && woke,
        Computation::SendRequest(st) => st.events@.len() > 0 && (st.events@[0]
            matches fluxio_send_reply::NotYet { wake } && wake),
        Computation::ConnDriver(st) => driver_run(st.io.read_replies_spec()).0
            matches DriverRes::DPending { woke } && woke,
        _ => false,
    }
}

/// The value a completing poll stores, given the computation it
/// completes.
pub open spec fn done_output_rel(a: fluxio_task, out: Option<TaskValue>) -> bool {
    match a.computation {
        Computation::Immediate(v) => out == Some(v),
        Computation::Finished => false,
        Computation::BodyData(b) => {
            let rs = b.replies_spec();
            if rs.len() == 0 {
                out == Some(TaskValue::Empty)
            } else {
                match rs[0] {
                    fluxio_body_data_reply::Ready(chunk) => match chunk {
                        Some(buf) => out == Some(TaskValue::Buf(buf)),
                        None => out == Some(TaskValue::Empty),
                    },
                    fluxio_body_data_reply::Pending { .. } => false,
                    fluxio_body_data_reply::Fault => out matches Some(TaskValue::Failed(e))
                        && e.kind_spec() == ErrorKind::BodyWriteAborted,
                    fluxio_body_data_reply::Unexpected(_) => out matches Some(
                        TaskValue::Failed(e),
                    ) && e.kind_spec() == ErrorKind::BodyWrite,
                }
            }
        },
        Computation::BodyForeach(st) => {
            let run = foreach_run(
                st.body.replies_spec(),
                st.decisions@,
                a.delivered@.len() as int,
            );
            match run.1 {
                ForeachStep::FEnd => out == Some(TaskValue::Empty),
                ForeachStep::FAborted => out matches Some(TaskValue::Failed(e)) && e.kind_spec()
                    == ErrorKind::AbortedByCallback,
                ForeachStep::FFailed(k) => out matches Some(TaskValue::Failed(e))
                    && e.kind_spec() == k,
                ForeachStep::FPending { .. } => false,
            }
        },
        Computation::Handshake(st) => match st.fault {
            None => out matches Some(TaskValue::Conn(c)) && c.replies@.len() == 0
                && c.sent@.len() == 0,
            Some(e) => out == Some(TaskValue::Failed(e)),
        },
        Computation::SendRequest(st) => st.events@.len() > 0 && match st.events@[0] {
            fluxio_send_reply::NotYet { .. } => false,
            fluxio_send_reply::Answer(parts) => out matches Some(TaskValue::Resp(resp))
                && wrap_rel(parts, resp),
            fluxio_send_reply::Failure(e) => out == Some(TaskValue::Failed(e)),
        },
        Computation::ConnDriver(_) => out == Some(TaskValue::Empty),
    }
}

/// The chunk record a completing poll leaves behind.
pub open spec fn done_delivered_rel(a: fluxio_task, d: Seq<fluxio_buf>) -> bool {
    match a.computation {
        Computation::BodyForeach(st) => d == a.delivered@ + foreach_run(
            st.body.replies_spec(),
            st.decisions@,
            a.delivered@.len() as int,
        ).0,
        _ => d == a.delivered@,
    }
}

/// The body a completing poll hands back: a finished body-data task
/// returns its body, with the reply the poll consumed gone, so the
/// caller can keep reading it; every other completion leaves the slot as
/// it was.
pub open spec fn done_leftover_rel(a: fluxio_task, lo: Option<fluxio_body>) -> bool {
    match a.computation {
        Computation::BodyData(ab) => ({
            &&& lo matches Some(bb)
            &&& bb.userdata_spec() == ab.userdata_spec()
            &&& bb.replies_spec() == if ab.replies_spec().len() == 0 {
                ab.replies_spec()
            } else {
                ab.replies_spec().drop_first()
            }
        }),
        _ => lo == a.leftover,
    }
}

/// What a completing poll spawns: only a finished handshake spawns the
/// connection driver, handed to the options' executor reference.
pub open spec fn spawn_rel(a: fluxio_task, spawned: Option<(WeakExec, fluxio_task)>) -> bool {
    match a.computation {
        Computation::Handshake(st) => if st.fault is Some {
            spawned is None
        } else {
            &&& spawned matches Some((w, dt))
            &&& w == st.options.exec_ref
            &&& dt.computation matches Computation::ConnDriver(d)
            &&& d.io == st.io
            &&& dt.output is None
            &&& dt.userdata == 0
            &&& dt.delivered@.len() == 0
        },
        _ => spawned is None,
    }
}

/// How a poll that suspends advances the task.
pub open spec fn parked_rel(a: fluxio_task, b: fluxio_task) -> bool {
    &&& b.output == a.output
    &&& b.userdata == a.userdata
    &&& b.leftover == a.leftover
    &&& match a.computation {
        Computation::Finished => b.computation is Finished && b.delivered == a.delivered,
        Computation::BodyData(ab) => ({
            &&& b.computation matches Computation::BodyData(bb)
            &&& bb.replies_spec() == ab.replies_spec().drop_first()
            &&& bb.userdata_spec() == ab.userdata_spec()
            &&& b.delivered == a.delivered
        }),
        Computation::BodyForeach(ast) => ({
            let run = foreach_run(
                ast.body.replies_spec(),
                ast.decisions@,
                a.delivered@.len() as int,
            );
            &&& b.computation matches Computation::BodyForeach(bst)
            &&& bst.body.replies_spec() == run.2
            &&& bst.decisions@ == ast.decisions@
            &&& b.delivered@ == a.delivered@ + run.0
        }),
        Computation::SendRequest(ast) => ({
            &&& b.computation matches Computation::SendRequest(bst)
            &&& bst.events@ == if ast.events@.len() > 0 {
                ast.events@.drop_first()
            } else {
                ast.events@
            }
            &&& b.delivered == a.delivered
        }),
        Computation::ConnDriver(ast) => ({
            &&& b.computation matches Computation::ConnDriver(bst)
            &&& bst.io.read_replies_spec() == driver_run(ast.io.read_replies_spec()).1
            &&& bst.io.write_replies_spec() == ast.io.write_replies_spec()
            &&& b.delivered == a.delivered
        }),
        Computation::Immediate(_) => false,
        Computation::Handshake(_) => false,
    }
}

/// A task whose queued engine events are well formed.
pub open spec fn task_wf(t: fluxio_task) -> bool {
    match t.computation {
        Computation::SendRequest(st) => send_events_wf(st.events@),
        _ => true,
    }
}

/// What one poll of a task hands back to the executor.
pub enum StepResult {
    /// The task resolved; a finished handshake hands over the connection
    /// driver to spawn.
    Done { spawned: Option<(WeakExec, fluxio_task)> },
    /// The task suspended; `woke` says whether its waker already fired
    /// during the poll.
    NotReady { woke: bool },
}

/// A non-owning reference to an executor, as handed to background work:
/// it resolves against the executor driving the current poll, and one
/// that was never attached resolves to nothing, so the work is silently
/// dropped.
#[derive(Clone, Copy, Debug, PartialEq, Eq, Structural)]
pub struct WeakExec {
    /// Whether the reference was taken from a live executor.
    pub attached: bool,
}

impl WeakExec {
    /// A reference that never resolves.
    pub fn new() -> (r: WeakExec)
        ensures
            !r.attached,
    {
        WeakExec { attached: false }
    }

    /// Hand background work to the referenced executor: a queue push when
    /// the reference resolves, a silent no-op when it does not.
    pub fn execute(&self, task: fluxio_task, host: &mut fluxio_executor)
        requires
            task_wf(task),
            old(host).wf(),
        ensures
            final(host).wf(),
            self.attached ==> (final(host).spawn_queue@ == old(host).spawn_queue@.push(task)
                && final(host).driver@ == old(host).driver@ && final(host).is_woken == old(host).is_woken),
            !self.attached ==> *final(host) == *old(host),
    {
        if self.attached {
            host.spawn(task);
        }
    }
}

// ===== the task itself =====

impl fluxio_task {
    /// A task that resolves at its first poll with the given value.
    pub fn immediate(v: TaskValue) -> (r: fluxio_task)
        ensures
            r.computation == Computation::Immediate(v),
            r.output is None,
            r.userdata == 0,
            r.delivered@.len() == 0,
            task_wf(r),
    {
        fluxio_task {
            computation: Computation::Immediate(v),
            output: None,
            userdata: 0,
            delivered: Vec::new(),
            leftover: None,
        }
    }

    /// The background driver of a connection's transport.
    pub fn driver(io: fluxio_io) -> (r: fluxio_task)
        ensures
            r.computation matches Computation::ConnDriver(d) && d.io == io,
            r.output is None,
            r.userdata == 0,
            r.delivered@.len() == 0,
            task_wf(r),
    {
        fluxio_task {
            computation: Computation::ConnDriver(DriverState { io }),
            output: None,
            userdata: 0,
            delivered: Vec::new(),
            leftover: None,
        }
    }

    /// A task that polls the body once for its next chunk, resolving to
    /// the chunk, an error, or end of stream.
    pub fn body_data(body: fluxio_body) -> (r: fluxio_task)
        ensures
            r.computation == Computation::BodyData(body),
            r.output is None,
            r.userdata == 0,
            r.delivered@.len() == 0,
            task_wf(r),
    {
        fluxio_task {
            computation: Computation::BodyData(body),
            output: None,
            userdata: 0,
            delivered: Vec::new(),
            leftover: None,
        }
    }

    /// A task that drains the body, delivering each chunk to the
    /// iteration callback played by `decisions`.
    pub fn body_foreach(body: fluxio_body, decisions: Vec<i32>) -> (r: fluxio_task)
        ensures
            r.computation matches Computation::BodyForeach(st) && st.body == body
                && st.decisions == decisions,
            r.output is None,
            r.userdata == 0,
            r.delivered@.len() == 0,
            task_wf(r),
    {
        fluxio_task {
            computation: Computation::BodyForeach(ForeachState { body, decisions }),
            output: None,
            userdata: 0,
            delivered: Vec::new(),
            leftover: None,
        }
    }

    /// A task that performs a connection handshake over the transport.
    pub fn handshake(io: fluxio_io, options: fluxio_clientconn_options) -> (r: fluxio_task)
        ensures
            r.computation matches Computation::Handshake(st) && st.io == io && st.options
                == options && st.fault is None,
            r.output is None,
            r.userdata == 0,
            r.delivered@.len() == 0,
            task_wf(r),
    {
        fluxio_task {
            computation: Computation::Handshake(HandshakeState { io, options, fault: None }),
            output: None,
            userdata: 0,
            delivered: Vec::new(),
            leftover: None,
        }
    }

    /// A task that waits for the engine's reply events to a sent request.
    pub fn send(events: Vec<fluxio_send_reply>) -> (r: fluxio_task)
        requires
            send_events_wf(events@),
        ensures
            r.computation matches Computation::SendRequest(st) && st.events == events,
            r.output is None,
            r.userdata == 0,
            r.delivered@.len() == 0,
            task_wf(r),
    {
        fluxio_task {
            computation: Computation::SendRequest(SendState { events }),
            output: None,
            userdata: 0,
            delivered: Vec::new(),
            leftover: None,
        }
    }

    /// The kind tag of the stored value: the empty kind until the task
    /// completes, and readable without consuming anything.
    pub fn output_type(&self) -> (r: fluxio_task_return_type)
        ensures
            self.output is None ==> r == fluxio_task_return_type::FLUXIO_TASK_EMPTY,
            self.output matches Some(v) ==> r == kind_of(v),
    {
        match &self.output {
            None => fluxio_task_return_type::FLUXIO_TASK_EMPTY,
            Some(v) => match v {
                TaskValue::Empty => fluxio_task_return_type::FLUXIO_TASK_EMPTY,
                TaskValue::Failed(_) => fluxio_task_return_type::FLUXIO_TASK_ERROR,
                TaskValue::Conn(_) => fluxio_task_return_type::FLUXIO_TASK_CLIENTCONN,
                TaskValue::Resp(_) => fluxio_task_return_type::FLUXIO_TASK_RESPONSE,
                TaskValue::Buf(_) => fluxio_task_return_type::FLUXIO_TASK_BUF,
            },
        }
    }

    /// Drive the task one step, consuming at most one stretch of queued
    /// callback replies.
    #[verifier::loop_isolation(false)]
    pub fn poll_step(&mut self) -> (r: StepResult)
        requires
            task_wf(*old(self)),
        ensures
            task_wf(*final(self)),
            final(self).userdata == old(self).userdata,
            task_step_done(*old(self)) ==> ({
                &&& r matches StepResult::Done { spawned }
                &&& done_output_rel(*old(self), final(self).output)
                &&& final(self).computation is Finished
                &&& spawn_rel(*old(self), spawned)
                &&& done_delivered_rel(*old(self), final(self).delivered@)
                &&& done_leftover_rel(*old(self), final(self).leftover)
            }),
            !task_step_done(*old(self)) ==> ({
                &&& r matches StepResult::NotReady { woke }
                &&& woke == task_step_woke(*old(self))
                &&& parked_rel(*old(self), *final(self))
            }),
    {
        let mut c = Computation::Finished;
        core::mem::swap(&mut self.computation, &mut c);
        match c {
            Computation::Immediate(v) => {
                self.output = Some(v);
                StepResult::Done { spawned: None }
            },
            Computation::Finished => {
                StepResult::NotReady { woke: false }
            },
            Computation::BodyData(mut b) => {
                match b.poll_data() {
                    BodyPoll::Chunk(buf) => {
                        self.output = Some(TaskValue::Buf(buf));
                        self.leftover = Some(b);
                        StepResult::Done { spawned: None }
                    },
                    BodyPoll::Finished => {
                        self.output = Some(TaskValue::Empty);
                        self.leftover = Some(b);
                        StepResult::Done { spawned: None }
                    },
                    BodyPoll::Failed(e) => {
                        self.output = Some(TaskValue::Failed(e));
                        self.leftover = Some(b);
                        StepResult::Done { spawned: None }
                    },
                    BodyPoll::NotYet { woke } => {
                        self.computation = Computation::BodyData(b);
                        StepResult::NotReady { woke }
                    },
                }
            },
            Computation::BodyForeach(mut st) => {
                let ghost d0 = self.delivered@;
                let ghost dec0 = st.decisions@;
                let ghost run0 = foreach_run(st.body.replies_spec(), dec0, d0.len() as int);
                loop
                    invariant
                        self.delivered@.len() >= d0.len(),
                        self.output == old(self).output,
                        self.userdata == old(self).userdata,
                        self.leftover == old(self).leftover,
                        self.computation is Finished,
                        st.decisions@ == dec0,
                        self.delivered@.take(d0.len() as int) == d0,
                        run0 == ({
                            let cur = foreach_run(
                                st.body.replies_spec(),
                                dec0,
                                self.delivered@.len() as int,
                            );
                            (
                                self.delivered@.skip(d0.len() as int) + cur.0,
                                cur.1,
                                cur.2,
                            )
                        }),
                    decreases st.body.replies_spec().len(),
                {
                    let ghost replies_pre = st.body.replies_spec();
                    let ghost k_pre = self.delivered@.len() as int;
                    let ghost delta_pre = self.delivered@.skip(d0.len() as int);
                    match st.body.poll_data() {
                        BodyPoll::Chunk(buf) => {
                            let ghost chunk = replies_pre[0]->Ready_0->Some_0;
                            self.delivered.push(buf);
                            let t = self.delivered.len() - 1;
                            let d = if t < st.decisions.len() {
                                st.decisions[t]
                            } else {
                                crate::FLUXIO_ITER_CONTINUE
                            };
                            proof {
                                assert(decision_at(dec0, k_pre) == d);
                                assert(self.delivered@.take(d0.len() as int) =~= d0);
                                assert(self.delivered@.skip(d0.len() as int) =~= delta_pre.push(
                                    chunk,
                                ));
                            }
                            if d != crate::FLUXIO_ITER_CONTINUE {
                                self.output = Some(TaskValue::Failed(
                                    fluxio_error::aborted_by_callback(),
                                ));
                                proof {
                                    assert(run0.0 =~= delta_pre + seq![chunk]);
                                    assert(old(self).delivered@ + run0.0 =~= self.delivered@);
                                }
                                return StepResult::Done { spawned: None };
                            }
                            proof {
                                let cur_next = foreach_run(
                                    st.body.replies_spec(),
                                    dec0,
                                    k_pre + 1,
                                );
                                assert(delta_pre.push(chunk) + cur_next.0 =~= delta_pre + (
                                seq![chunk] + cur_next.0));
                            }
                        },
                        BodyPoll::Finished => {
                            self.output = Some(TaskValue::Empty);
                            proof {
                                assert(old(self).delivered@ + run0.0 =~= self.delivered@);
                            }
                            return StepResult::Done { spawned: None };
                        },
                        BodyPoll::Failed(e) => {
                            self.output = Some(TaskValue::Failed(e));
                            proof {
                                assert(old(self).delivered@ + run0.0 =~= self.delivered@);
                            }
                            return StepResult::Done { spawned: None };
                        },
                        BodyPoll::NotYet { woke } => {
                            self.computation = Computation::BodyForeach(st);
                            proof {
                                assert(old(self).delivered@ + run0.0 =~= self.delivered@);
                            }
                            return StepResult::NotReady { woke };
                        },
                    }
                }
            },
            Computation::Handshake(st) => {
                let HandshakeState { io, options, fault } = st;
                match fault {
                    Some(e) => {
                        self.output = Some(TaskValue::Failed(e));
                        let _ = io;
                        StepResult::Done { spawned: None }
                    },
                    None => {
                        self.output = Some(TaskValue::Conn(fluxio_clientconn::fresh()));
                        let driver_task = fluxio_task::driver(io);
                        StepResult::Done { spawned: Some((options.exec_ref, driver_task)) }
                    },
                }
            },
            Computation::SendRequest(mut st) => {
                if st.events.len() == 0 {
                    self.computation = Computation::SendRequest(st);
                    StepResult::NotReady { woke: false }
                } else {
                    let ev = st.events.remove(0);
                    match ev {
                        fluxio_send_reply::NotYet { wake } => {
                            self.computation = Computation::SendRequest(st);
                            StepResult::NotReady { woke: wake }
                        },
                        fluxio_send_reply::Answer(parts) => {
                            self.output = Some(
                                TaskValue::Resp(fluxio_response::wrap(parts)),
                            );
                            StepResult::Done { spawned: None }
                        },
                        fluxio_send_reply::Failure(e) => {
                            self.output = Some(TaskValue::Failed(e));
                            StepResult::Done { spawned: None }
                        },
                    }
                }
            },
            Computation::ConnDriver(mut st) => {
                let ghost run0 = driver_run(st.io.read_replies_spec());
                let ghost w0 = st.io.write_replies_spec();
                loop
                    invariant
                        self.output == old(self).output,
                        self.userdata == old(self).userdata,
                        self.delivered == old(self).delivered,
                        self.leftover == old(self).leftover,
                        self.computation is Finished,
                        run0 == driver_run(st.io.read_replies_spec()),
                        st.io.write_replies_spec() == w0,
                    decreases st.io.read_replies_spec().len(),
                {
                    let ghost replies_pre = st.io.read_replies_spec();
                    match st.io.poll_read(DRIVER_READ_LEN) {
                        IoReadPoll::Filled(b) => {
                            if b.len() == 0 {
                                self.output = Some(TaskValue::Empty);
                                return StepResult::Done { spawned: None };
                            }
                            proof {
                                assert(replies_pre.len() > 0);
                                assert(replies_pre[0]->Data_0@.len() > 0);
                            }
                        },
                        IoReadPoll::NotYet { woke } => {
                            self.computation = Computation::ConnDriver(st);
                            return StepResult::NotReady { woke };
                        },
                        IoReadPoll::Fail => {
                            self.output = Some(TaskValue::Empty);
                            return StepResult::Done { spawned: None };
                        },
                    }
                }
            },
        }
    }
}

// ===== the executor =====

/// Whether every task of a sequence is well formed.
pub open spec fn tasks_wf(ts: Seq<fluxio_task>) -> bool {
    forall|i: int| 0 <= i < ts.len() ==> task_wf(#[trigger] ts[i])
}

/// A task executor: a driver set of admitted tasks, an admission queue
/// of not-yet-merged ones, and the sticky flag recording wakes that fire
/// while a poll is in progress.
pub struct fluxio_executor {
    /// The in-flight tasks being driven.
    pub driver: Vec<fluxio_task>,
    /// Tasks pushed since the last merge; spawning only touches this
    /// queue, so a task may spawn from inside its own poll.
    pub spawn_queue: Vec<fluxio_task>,
    /// Set by any waker that fires, cleared when the executor decides
    /// whether to retry.
    pub is_woken: bool,
}

impl fluxio_executor {
    /// Every held task is well formed.
    pub open spec fn wf(&self) -> bool {
        tasks_wf(self.driver@) && tasks_wf(self.spawn_queue@)
    }

    /// A new executor with no tasks.
    pub fn new() -> (r: fluxio_executor)
        ensures
            r.driver@.len() == 0,
            r.spawn_queue@.len() == 0,
            !r.is_woken,
            r.wf(),
    {
        fluxio_executor { driver: Vec::new(), spawn_queue: Vec::new(), is_woken: false }
    }

    /// A non-owning reference to this executor for background work.
    pub fn downgrade(exec: &fluxio_executor) -> (r: WeakExec)
        ensures
            r.attached,
    {
        let _ = exec;
        WeakExec { attached: true }
    }

    /// Enqueue a task for admission; it joins the driver set at the next
    /// merge point.
    pub fn spawn(&mut self, task: fluxio_task)
        requires
            task_wf(task),
            old(self).wf(),
        ensures
            final(self).spawn_queue@ == old(self).spawn_queue@.push(task),
            final(self).driver@ == old(self).driver@,
            final(self).is_woken == old(self).is_woken,
            final(self).wf(),
    {
        self.spawn_queue.push(task);
        proof {
            assert forall|i: int| 0 <= i < self.spawn_queue@.len() implies task_wf(
                #[trigger] self.spawn_queue@[i],
            ) by {
                if i < old(self).spawn_queue@.len() {
                    assert(self.spawn_queue@[i] == old(self).spawn_queue@[i]);
                }
            }
        }
    }

    /// Merge the admission queue into the driver set; reports whether
    /// anything moved.
    pub fn drain_queue(&mut self) -> (r: bool)
        requires
            old(self).wf(),
        ensures
            r == (old(self).spawn_queue@.len() > 0),
            final(self).driver@ == old(self).driver@ + old(self).spawn_queue@,
            final(self).spawn_queue@.len() == 0,
            final(self).is_woken == old(self).is_woken,
            final(self).wf(),
    {
        if self.spawn_queue.len() == 0 {
            proof {
                assert(self.driver@ =~= old(self).driver@ + old(self).spawn_queue@);
            }
            return false;
        }
        let ghost q0 = old(self).spawn_queue@;
        let qlen = self.spawn_queue.len();
        let mut moved: usize = 0;
        while self.spawn_queue.len() > 0
            invariant
                moved <= q0.len(),
                q0.len() == qlen,
                self.spawn_queue@ == q0.skip(moved as int),
                self.driver@ == old(self).driver@ + q0.take(moved as int),
                self.is_woken == old(self).is_woken,
                tasks_wf(q0),
                tasks_wf(old(self).driver@),
                tasks_wf(self.driver@),
            decreases self.spawn_queue@.len(),
        {
            let t = self.spawn_queue.remove(0);
            let ghost dpre = self.driver@;
            self.driver.push(t);
            proof {
                assert(self.spawn_queue@ =~= q0.skip(moved + 1));
                assert(self.driver@ =~= old(self).driver@ + q0.take(moved + 1));
                assert forall|i: int| 0 <= i < self.driver@.len() implies task_wf(
                    #[trigger] self.driver@[i],
                ) by {
                    if i < dpre.len() {
                        assert(self.driver@[i] == dpre[i]);
                    } else {
                        assert(self.driver@[i] == q0[moved as int]);
                    }
                }
            }
            moved = moved + 1;
        }
        proof {
            assert(q0.take(q0.len() as int) =~= q0);
            assert(self.driver@ =~= old(self).driver@ + q0);
        }
        true
    }
}

// ===== measures: what bounds the executor's retries =====

/// How much queued work a computation can still consume.
pub open spec fn computation_measure(c: Computation) -> nat {
    match c {
        Computation::Immediate(_) => 1,
        Computation::BodyData(b) => b.replies_spec().len() + 1,
        Computation::BodyForeach(st) => st.body.replies_spec().len() + 1,
        Computation::Handshake(st) => st.io.read_replies_spec().len() + 2,
        Computation::SendRequest(st) => st.events@.len() + 1,
        Computation::ConnDriver(st) => st.io.read_replies_spec().len() + 1,
        Computation::Finished => 0,
    }
}

pub open spec fn task_measure(t: fluxio_task) -> nat {
    computation_measure(t.computation)
}

pub open spec fn tasks_measure(ts: Seq<fluxio_task>) -> nat
    decreases ts.len(),
{
    if ts.len() == 0 {
        0
    } else {
        task_measure(ts[0]) + tasks_measure(ts.drop_first())
    }
}

proof fn lemma_foreach_run_len(
    replies: Seq<fluxio_body_data_reply>,
    decisions: Seq<i32>,
    k: int,
)
    ensures
        foreach_run(replies, decisions, k).2.len() <= replies.len(),
        foreach_run(replies, decisions, k).1 matches ForeachStep::FPending { .. }
            ==> foreach_run(replies, decisions, k).2.len() < replies.len(),
    decreases replies.len(),
{
    if replies.len() > 0 {
        lemma_foreach_run_len(replies.drop_first(), decisions, k + 1);
    }
}

proof fn lemma_driver_run_len(replies: Seq<fluxio_io_read_reply>)
    ensures
        driver_run(replies).1.len() <= replies.len(),
        driver_run(replies).0 matches DriverRes::DPending { .. } ==> driver_run(
            replies,
        ).1.len() < replies.len(),
    decreases replies.len(),
{
    if replies.len() > 0 {
        lemma_driver_run_len(replies.drop_first());
    }
}

/// A suspending poll never grows a task's measure, and consumes at least
/// one queued reply whenever its waker fired during the poll.
proof fn lemma_parked_measure(a: fluxio_task, b: fluxio_task)
    requires
        !task_step_done(a),
        parked_rel(a, b),
    ensures
        task_measure(b) <= task_measure(a),
        task_step_woke(a) ==> task_measure(b) < task_measure(a),
{
    match a.computation {
        Computation::BodyForeach(st) => {
            lemma_foreach_run_len(
                st.body.replies_spec(),
                st.decisions@,
                a.delivered@.len() as int,
            );
        },
        Computation::ConnDriver(st) => {
            lemma_driver_run_len(st.io.read_replies_spec());
        },
        _ => (),
    }
}

proof fn lemma_tasks_measure_le(a: Seq<fluxio_task>, b: Seq<fluxio_task>)
    requires
        a.len() == b.len(),
        forall|i: int| 0 <= i < a.len() ==> task_measure(#[trigger] b[i]) <= task_measure(a[i]),
    ensures
        tasks_measure(b) <= tasks_measure(a),
    decreases a.len(),
{
    if a.len() > 0 {
        assert(forall|i: int|
            0 <= i < a.drop_first().len() ==> #[trigger] b.drop_first()[i] == b[i + 1]
                && a.drop_first()[i] == a[i + 1]);
        lemma_tasks_measure_le(a.drop_first(), b.drop_first());
    }
}

proof fn lemma_tasks_measure_lt(a: Seq<fluxio_task>, b: Seq<fluxio_task>, j: int)
    requires
        a.len() == b.len(),
        forall|i: int| 0 <= i < a.len() ==> task_measure(#[trigger] b[i]) <= task_measure(a[i]),
        0 <= j < a.len(),
        task_measure(b[j]) < task_measure(a[j]),
    ensures
        tasks_measure(b) < tasks_measure(a),
    decreases a.len(),
{
    assert(forall|i: int|
        0 <= i < a.drop_first().len() ==> #[trigger] b.drop_first()[i] == b[i + 1]
            && a.drop_first()[i] == a[i + 1]);
    if j == 0 {
        lemma_tasks_measure_le(a.drop_first(), b.drop_first());
    } else {
        lemma_tasks_measure_lt(a.drop_first(), b.drop_first(), j - 1);
    }
}

/// A completing poll's output is always present.
proof fn lemma_done_output_some(a: fluxio_task, out: Option<TaskValue>)
    requires
        task_step_done(a),
        done_output_rel(a, out),
    ensures
        out is Some,
{
}

/// A task the executor kept across one poll call: same slot meaning —
/// token, (absent) output and delivered record preserved, the same kind
/// of computation, and its reply queues only advanced (each now a
/// suffix of what it was), never replaced or grown.
pub open spec fn task_retained(a: fluxio_task, b: fluxio_task) -> bool {
    &&& b.userdata == a.userdata
    &&& b.output == a.output
    &&& b.leftover == a.leftover
    &&& a.delivered@.is_prefix_of(b.delivered@)
    &&& task_measure(b) <= task_measure(a)
    &&& match a.computation {
        Computation::Immediate(_) => b == a,
        Computation::Handshake(_) => b == a,
        Computation::Finished => b == a,
        Computation::BodyData(ab) => ({
            &&& b.computation matches Computation::BodyData(bb)
            &&& exists|k: int|
                #![auto]
                0 <= k <= ab.replies_spec().len() && bb.replies_spec()
                    == ab.replies_spec().skip(k)
        }),
        Computation::BodyForeach(ast) => ({
            &&& b.computation matches Computation::BodyForeach(bst)
            &&& bst.decisions@ == ast.decisions@
            &&& exists|k: int|
                #![auto]
                0 <= k <= ast.body.replies_spec().len() && bst.body.replies_spec()
                    == ast.body.replies_spec().skip(k)
        }),
        Computation::SendRequest(ast) => ({
            &&& b.computation matches Computation::SendRequest(bst)
            &&& exists|k: int|
                #![auto]
                0 <= k <= ast.events@.len() && bst.events@ == ast.events@.skip(k)
        }),
        Computation::ConnDriver(ast) => ({
            &&& b.computation matches Computation::ConnDriver(bst)
            &&& bst.io.write_replies_spec() == ast.io.write_replies_spec()
            &&& exists|k: int|
                #![auto]
                0 <= k <= ast.io.read_replies_spec().len() && bst.io.read_replies_spec()
                    == ast.io.read_replies_spec().skip(k)
        }),
    }
}

proof fn lemma_retained_refl(a: fluxio_task)
    ensures
        task_retained(a, a),
{
    assert(a.delivered@.is_prefix_of(a.delivered@)) by {
        assert(a.delivered@ =~= a.delivered@.subrange(0, a.delivered@.len() as int));
    }
    match a.computation {
        Computation::BodyData(ab) => {
            assert(ab.replies_spec() =~= ab.replies_spec().skip(0));
        },
        Computation::BodyForeach(ast) => {
            assert(ast.body.replies_spec() =~= ast.body.replies_spec().skip(0));
        },
        Computation::SendRequest(ast) => {
            assert(ast.events@ =~= ast.events@.skip(0));
        },
        Computation::ConnDriver(ast) => {
            assert(ast.io.read_replies_spec() =~= ast.io.read_replies_spec().skip(0));
        },
        _ => (),
    }
}

/// What a foreach drain leaves is a suffix of the replies it started on.
proof fn lemma_foreach_run_suffix(
    replies: Seq<fluxio_body_data_reply>,
    decisions: Seq<i32>,
    k: int,
)
    ensures
        exists|j: int|
            #![auto]
            0 <= j <= replies.len() && foreach_run(replies, decisions, k).2 == replies.skip(j),
    decreases replies.len(),
{
    if replies.len() == 0 {
        assert(foreach_run(replies, decisions, k).2 == replies.skip(0)) by {
            assert(replies.skip(0) =~= replies);
        }
    } else {
        lemma_foreach_run_suffix(replies.drop_first(), decisions, k + 1);
        let j0 = choose|j: int|
            #![auto]
            0 <= j <= replies.drop_first().len() && foreach_run(
                replies.drop_first(),
                decisions,
                k + 1,
            ).2 == replies.drop_first().skip(j);
        assert(replies.drop_first().skip(j0) =~= replies.skip(j0 + 1));
        assert(replies.drop_first() =~= replies.skip(1));
        assert(replies.skip(0) =~= replies);
    }
}

/// What the driver leaves is a suffix of the replies it started on.
proof fn lemma_driver_run_suffix(replies: Seq<fluxio_io_read_reply>)
    ensures
        exists|j: int|
            #![auto]
            0 <= j <= replies.len() && driver_run(replies).1 == replies.skip(j),
    decreases replies.len(),
{
    if replies.len() == 0 {
        assert(driver_run(replies).1 == replies.skip(0)) by {
            assert(replies.skip(0) =~= replies);
        }
    } else {
        lemma_driver_run_suffix(replies.drop_first());
        let j0 = choose|j: int|
            #![auto]
            0 <= j <= replies.drop_first().len() && driver_run(replies.drop_first()).1
                == replies.drop_first().skip(j);
        assert(replies.drop_first().skip(j0) =~= replies.skip(j0 + 1));
        assert(replies.drop_first() =~= replies.skip(1));
    }
}

/// Retention survives one more suspending poll.
proof fn lemma_retained_then_parked(a: fluxio_task, b: fluxio_task, c: fluxio_task)
    requires
        task_retained(a, b),
        !task_step_done(b),
        parked_rel(b, c),
    ensures
        task_retained(a, c),
{
    lemma_parked_measure(b, c);
    assert(a.delivered@.is_prefix_of(c.delivered@)) by {
        match b.computation {
            Computation::BodyForeach(bst) => {
                assert(b.delivered@.is_prefix_of(c.delivered@)) by {
                    assert(b.delivered@ =~= c.delivered@.subrange(
                        0,
                        b.delivered@.len() as int,
                    ));
                }
            },
            _ => {
                assert(c.delivered == b.delivered);
            },
        }
        assert(a.delivered@ =~= c.delivered@.subrange(0, a.delivered@.len() as int));
    }
    match a.computation {
        Computation::BodyData(ab) => {
            let bb = b.computation->BodyData_0;
            let k0 = choose|k: int|
                #![auto]
                0 <= k <= ab.replies_spec().len() && bb.replies_spec()
                    == ab.replies_spec().skip(k);
            assert(ab.replies_spec().skip(k0).drop_first() =~= ab.replies_spec().skip(k0 + 1));
        },
        Computation::BodyForeach(ast) => {
            let bst = b.computation->BodyForeach_0;
            let k0 = choose|k: int|
                #![auto]
                0 <= k <= ast.body.replies_spec().len() && bst.body.replies_spec()
                    == ast.body.replies_spec().skip(k);
            lemma_foreach_run_suffix(bst.body.replies_spec(), bst.decisions@, b.delivered@.len() as int);
            let j0 = choose|j: int|
                #![auto]
                0 <= j <= bst.body.replies_spec().len() && foreach_run(
                    bst.body.replies_spec(),
                    bst.decisions@,
                    b.delivered@.len() as int,
                ).2 == bst.body.replies_spec().skip(j);
            assert(ast.body.replies_spec().skip(k0).skip(j0) =~= ast.body.replies_spec().skip(
                k0 + j0,
            ));
        },
        Computation::SendRequest(ast) => {
            let bst = b.computation->SendRequest_0;
            let k0 = choose|k: int|
                #![auto]
                0 <= k <= ast.events@.len() && bst.events@ == ast.events@.skip(k);
            if bst.events@.len() > 0 {
                assert(ast.events@.skip(k0).drop_first() =~= ast.events@.skip(k0 + 1));
            }
        },
        Computation::ConnDriver(ast) => {
            let bst = b.computation->ConnDriver_0;
            let k0 = choose|k: int|
                #![auto]
                0 <= k <= ast.io.read_replies_spec().len() && bst.io.read_replies_spec()
                    == ast.io.read_replies_spec().skip(k);
            lemma_driver_run_suffix(bst.io.read_replies_spec());
            let j0 = choose|j: int|
                #![auto]
                0 <= j <= bst.io.read_replies_spec().len() && driver_run(
                    bst.io.read_replies_spec(),
                ).1 == bst.io.read_replies_spec().skip(j);
            assert(ast.io.read_replies_spec().skip(k0).skip(j0)
                =~= ast.io.read_replies_spec().skip(k0 + j0));
        },
        _ => (),
    }
}

// ===== the executor's poll =====

/// What a completed task's poll does to the admission queue: a finished
/// handshake with an attached executor reference pushes the connection
/// driver; everything else leaves the queue alone.
pub open spec fn spawn_effect_rel(
    a: fluxio_task,
    q0: Seq<fluxio_task>,
    q1: Seq<fluxio_task>,
) -> bool {
    match a.computation {
        Computation::Handshake(st) => if st.fault is None && st.options.exec_ref.attached {
            &&& q1.len() == q0.len() + 1
            &&& q1.take(q0.len() as int) == q0
            &&& q1.last().computation matches Computation::ConnDriver(d)
            &&& d.io == st.io
            &&& q1.last().output is None
            &&& q1.last().userdata == 0
        } else {
            q1 == q0
        },
        _ => q1 == q0,
    }
}

/// Every task of a sequence is an immediately resolving one.
pub open spec fn all_immediate(ts: Seq<fluxio_task>) -> bool {
    forall|i: int| 0 <= i < ts.len() ==> (#[trigger] ts[i]).computation matches
        Computation::Immediate(_)
}

/// What a body-data task resolves to.
pub enum BodyOut {
    /// The body ended: an empty value.
    OEmpty,
    /// A chunk arrived.
    OBuf(fluxio_buf),
    /// The body failed with this error class.
    OFail(ErrorKind),
}

/// Whether a task output matches a body-data resolution.
pub open spec fn body_out_rel(out: BodyOut, o: Option<TaskValue>) -> bool {
    match out {
        BodyOut::OEmpty => o == Some(TaskValue::Empty),
        BodyOut::OBuf(b) => o == Some(TaskValue::Buf(b)),
        BodyOut::OFail(k) => o matches Some(TaskValue::Failed(e)) && e.kind_spec() == k,
    }
}

/// How one externally driven poll treats a lone body-data task: replies
/// resolve or fail it at once; a pending reply whose waker already fired
/// — or a sticky woken flag from before the poll — makes the executor
/// retry within the same call, so no second external trigger is needed;
/// only a pending reply with no wake parks the task until the caller
/// polls again.
pub enum BodyRun {
    /// The task resolves within this poll.
    BDone(BodyOut),
    /// The task parks with these replies left.
    BPark(Seq<fluxio_body_data_reply>),
}

pub open spec fn body_task_run(replies: Seq<fluxio_body_data_reply>, woken: bool) -> BodyRun
    decreases replies.len(),
{
    if replies.len() == 0 {
        BodyRun::BDone(BodyOut::OEmpty)
    } else {
        match replies[0] {
            fluxio_body_data_reply::Ready(chunk) => match chunk {
                Some(b) => BodyRun::BDone(BodyOut::OBuf(b)),
                None => BodyRun::BDone(BodyOut::OEmpty),
            },
            fluxio_body_data_reply::Fault => BodyRun::BDone(
                BodyOut::OFail(ErrorKind::BodyWriteAborted),
            ),
            fluxio_body_data_reply::Unexpected(_) => BodyRun::BDone(
                BodyOut::OFail(ErrorKind::BodyWrite),
            ),
            fluxio_body_data_reply::Pending { wake } => if wake || woken {
                body_task_run(replies.drop_first(), false)
            } else {
                BodyRun::BPark(replies.drop_first())
            },
        }
    }
}


/// The law of a batch of immediately resolving tasks: while any remain,
/// one poll returns exactly one completed task, carrying its value, and
/// leaves the rest in order; once none remain a poll reports nothing
/// ready.
pub open spec fn immediate_batch_poll_ok(
    combined: Seq<fluxio_task>,
    r: Option<fluxio_task>,
    d1: Seq<fluxio_task>,
    q1: Seq<fluxio_task>,
) -> bool {
    all_immediate(combined) ==> ({
        &&& combined.len() > 0 ==> ({
            &&& r matches Some(t)
            &&& t.userdata == combined[0].userdata
            &&& done_output_rel(combined[0], t.output)
            &&& d1 == combined.drop_first()
            &&& q1.len() == 0
            &&& all_immediate(d1)
        })
        &&& combined.len() == 0 ==> (r is None && d1.len() == 0)
    })
}

/// The law of a lone streaming task: one poll runs it as
/// `body_task_run` says, so a pending reply whose waker fired during the
/// poll — or a wake left over from before — is retried within the same
/// call, and only an unwoken pending reply parks the task for an
/// external re-poll.
pub open spec fn lone_body_poll_ok(
    combined: Seq<fluxio_task>,
    w0: bool,
    r: Option<fluxio_task>,
    d1: Seq<fluxio_task>,
    q1: Seq<fluxio_task>,
    woken1: bool,
) -> bool {
    combined.len() == 1 ==> match combined[0].computation {
        Computation::BodyData(b) => match body_task_run(b.replies_spec(), w0) {
            BodyRun::BDone(out) => ({
                &&& r matches Some(t)
                &&& t.userdata == combined[0].userdata
                &&& body_out_rel(out, t.output)
                &&& d1.len() == 0
                &&& q1.len() == 0
            }),
            BodyRun::BPark(rem) => ({
                &&& r is None
                &&& d1.len() == 1
                &&& d1[0].computation matches Computation::BodyData(b2)
                &&& b2.replies_spec() == rem
                &&& d1[0].userdata == combined[0].userdata
                &&& d1[0].output == combined[0].output
                &&& !woken1
            }),
        },
        _ => true,
    }
}

/// One pass completed the task at driver index `i`: tasks before it were
/// polled and suspended, tasks after it were not touched, and the
/// completed one left the driver set carrying its value.
pub open spec fn pass_completion_at(
    i: int,
    d0: Seq<fluxio_task>,
    t: fluxio_task,
    d1: Seq<fluxio_task>,
) -> bool {
    &&& 0 <= i < d0.len()
    &&& task_step_done(d0[i])
    &&& t.userdata == d0[i].userdata
    &&& done_output_rel(d0[i], t.output)
    &&& done_delivered_rel(d0[i], t.delivered@)
    &&& done_leftover_rel(d0[i], t.leftover)
    &&& d1.len() == d0.len() - 1
    &&& forall|j: int|
        0 <= j < i ==> (!task_step_done(#[trigger] d0[j]) && parked_rel(d0[j], d1[j]))
    &&& forall|j: int| i < j < d0.len() ==> d1[j - 1] == #[trigger] d0[j]
}

/// A poll call completed exactly the task at batch index `i`: every
/// other task of the batch is retained, in order, in the driver set.
pub open spec fn poll_completion_at(
    i: int,
    c: Seq<fluxio_task>,
    t: fluxio_task,
    d1: Seq<fluxio_task>,
) -> bool {
    &&& 0 <= i < c.len()
    &&& t.userdata == c[i].userdata
    &&& d1.len() == c.len() - 1
    &&& forall|j: int| 0 <= j < i ==> task_retained(#[trigger] c[j], d1[j])
    &&& forall|j: int| i < j < c.len() ==> task_retained(#[trigger] c[j], d1[j - 1])
}

impl fluxio_executor {
    /// Poll every driven task once, in order, stopping at the first that
    /// completes.
    fn poll_pass(&mut self) -> (r: Option<fluxio_task>)
        requires
            old(self).wf(),
        ensures
            final(self).wf(),
            r matches Some(t) ==> t.output is Some,
            r is Some ==> exists|i: int|
                0 <= i < old(self).driver@.len() && task_step_done(#[trigger] old(self).driver@[i]),
            r matches Some(t) ==> (exists|i: int|
                pass_completion_at(i, old(self).driver@, t, final(self).driver@))
                && final(self).spawn_queue@.len() <= old(self).spawn_queue@.len() + 1,
            (old(self).driver@.len() > 0 && task_step_done(old(self).driver@[0])) ==> ({
                &&& r matches Some(t)
                &&& t.userdata == old(self).driver@[0].userdata
                &&& done_output_rel(old(self).driver@[0], t.output)
                &&& done_delivered_rel(old(self).driver@[0], t.delivered@)
                &&& final(self).driver@ == old(self).driver@.drop_first()
                &&& spawn_effect_rel(
                    old(self).driver@[0],
                    old(self).spawn_queue@,
                    final(self).spawn_queue@,
                )
                &&& final(self).is_woken == old(self).is_woken
            }),
            r is None ==> ({
                &&& final(self).driver@.len() == old(self).driver@.len()
                &&& forall|i: int|
                    0 <= i < old(self).driver@.len() ==> !task_step_done(
                        #[trigger] old(self).driver@[i],
                    )
                &&& forall|i: int|
                    0 <= i < old(self).driver@.len() ==> parked_rel(
                        #[trigger] old(self).driver@[i],
                        final(self).driver@[i],
                    )
                &&& final(self).spawn_queue@ == old(self).spawn_queue@
                &&& (final(self).is_woken <==> (old(self).is_woken || exists|i: int|
                    0 <= i < old(self).driver@.len() && task_step_woke(
                        #[trigger] old(self).driver@[i],
                    )))
            }),
    {
        let mut i: usize = 0;
        while i < self.driver.len()
            invariant
                old(self).wf(),
                self.wf(),
                i <= self.driver@.len(),
                self.driver@.len() == old(self).driver@.len(),
                forall|j: int|
                    0 <= j < i ==> !task_step_done(#[trigger] old(self).driver@[j]),
                forall|j: int|
                    0 <= j < i ==> parked_rel(
                        #[trigger] old(self).driver@[j],
                        self.driver@[j],
                    ),
                forall|j: int|
                    i <= j < self.driver@.len() ==> #[trigger] self.driver@[j] == old(self).driver@[j],
                self.spawn_queue@ == old(self).spawn_queue@,
                (self.is_woken <==> (old(self).is_woken || exists|j: int|
                    0 <= j < i && task_step_woke(#[trigger] old(self).driver@[j]))),
            decreases self.driver@.len() - i,
        {
            let ghost pre_driver = self.driver@;
            let mut t = self.driver.remove(i);
            proof {
                assert(t == old(self).driver@[i as int]);
                assert(task_wf(t));
            }
            let step = t.poll_step();
            match step {
                StepResult::Done { spawned } => {
                    proof {
                        lemma_done_output_some(old(self).driver@[i as int], t.output);
                        assert forall|j: int| 0 <= j < self.driver@.len() implies task_wf(
                            #[trigger] self.driver@[j],
                        ) by {
                            if j < i {
                                assert(self.driver@[j] == pre_driver[j]);
                            } else {
                                assert(self.driver@[j] == pre_driver[j + 1]);
                            }
                        }
                    }
                    let ghost q_pre = self.spawn_queue@;
                    match spawned {
                        Some(pair) => {
                            let (w, dt) = pair;
                            w.execute(dt, self);
                        },
                        None => (),
                    }
                    proof {
                        if i == 0 && task_step_done(old(self).driver@[0]) {
                            assert(self.driver@ =~= old(self).driver@.drop_first());
                            if self.spawn_queue@.len() == q_pre.len() + 1 {
                                assert(self.spawn_queue@.take(q_pre.len() as int) =~= q_pre);
                            }
                        }
                        assert(pass_completion_at(
                            i as int,
                            old(self).driver@,
                            t,
                            self.driver@,
                        )) by {
                            assert(forall|j: int|
                                0 <= j < i ==> self.driver@[j] == #[trigger] pre_driver[j]);
                            assert(forall|j: int|
                                i < j < pre_driver.len() ==> self.driver@[j - 1]
                                    == #[trigger] pre_driver[j]);
                        }
                    }
                    return Some(t);
                },
                StepResult::NotReady { woke } => {
                    self.driver.insert(i, t);
                    proof {
                        assert(self.driver@ =~= pre_driver.update(i as int, t));
                        assert forall|j: int| 0 <= j < self.driver@.len() implies task_wf(
                            #[trigger] self.driver@[j],
                        ) by {
                            if j != i {
                                assert(self.driver@[j] == pre_driver[j]);
                            }
                        }
                    }
                    if woke {
                        self.is_woken = true;
                    }
                    proof {
                        assert forall|j: int| 0 <= j < i + 1 implies parked_rel(
                            #[trigger] old(self).driver@[j],
                            self.driver@[j],
                        ) by {
                            if j < i {
                                assert(self.driver@[j] == pre_driver[j]);
                            }
                        }
                    }
                    i = i + 1;
                },
            }
        }
        None
    }

    /// Drive admitted tasks one step: merge the admission queue, poll
    /// the batch, and retry when new admissions arrived mid-poll or when
    /// a waker fired during polling; return the first completed task, or
    /// nothing when every task is waiting on an external wake.
    #[verifier::loop_isolation(false)]
    #[verifier::rlimit(60)]
    pub fn poll_next(&mut self) -> (r: Option<fluxio_task>)
        requires
            old(self).wf(),
        ensures
            final(self).wf(),
            r matches Some(t) ==> t.output is Some,
            r is None ==> (final(self).spawn_queue@.len() == 0 && !final(self).is_woken),
            r is None ==> final(self).driver@.len() == (old(self).driver@ + old(self).spawn_queue@).len(),
            r is None ==> forall|i: int|
                0 <= i < final(self).driver@.len() ==> task_retained(
                    #[trigger] (old(self).driver@ + old(self).spawn_queue@)[i],
                    final(self).driver@[i],
                ),
            r matches Some(t) ==> ((exists|i: int|
                poll_completion_at(
                    i,
                    old(self).driver@ + old(self).spawn_queue@,
                    t,
                    final(self).driver@,
                )) && final(self).spawn_queue@.len() <= 1),
            immediate_batch_poll_ok(
                old(self).driver@ + old(self).spawn_queue@,
                r,
                final(self).driver@,
                final(self).spawn_queue@,
            ),
            lone_body_poll_ok(
                old(self).driver@ + old(self).spawn_queue@,
                old(self).is_woken,
                r,
                final(self).driver@,
                final(self).spawn_queue@,
                final(self).is_woken,
            ),
    {
        let ghost combined = old(self).driver@ + old(self).spawn_queue@;
        let ghost w0 = old(self).is_woken;
        let ghost single_body = combined.len() == 1 && (combined[0].computation matches
            Computation::BodyData(_));
        self.drain_queue();
        proof {
            assert forall|i: int| 0 <= i < combined.len() implies task_retained(
                #[trigger] combined[i],
                self.driver@[i],
            ) by {
                lemma_retained_refl(combined[i]);
            }
        }
        loop
            invariant
                self.wf(),
                self.spawn_queue@.len() == 0,
                self.driver@.len() == combined.len(),
                forall|i: int|
                    0 <= i < combined.len() ==> task_retained(
                        #[trigger] combined[i],
                        self.driver@[i],
                    ),
                all_immediate(combined) ==> self.driver@ == combined,
                single_body ==> ({
                    let b0 = combined[0].computation->BodyData_0;
                    &&& self.driver@.len() == 1
                    &&& self.driver@[0].computation matches Computation::BodyData(bc)
                    &&& self.driver@[0].userdata == combined[0].userdata
                    &&& self.driver@[0].output == combined[0].output
                    &&& self.driver@[0].delivered == combined[0].delivered
                    &&& body_task_run(b0.replies_spec(), w0) == body_task_run(
                        bc.replies_spec(),
                        self.is_woken,
                    )
                }),
            decreases tasks_measure(self.driver@) + (if self.is_woken {
                1int
            } else {
                0int
            }),
        {
            let ghost driver_pre = self.driver@;
            let ghost woken_pre = self.is_woken;
            let pass = self.poll_pass();
            match pass {
                Some(task) => {
                    proof {
                        let done_at = choose|i: int|
                            0 <= i < driver_pre.len() && task_step_done(
                                #[trigger] driver_pre[i],
                            );
                        assert(0 <= done_at < driver_pre.len());
                        let pi = choose|i: int|
                            pass_completion_at(i, driver_pre, task, self.driver@);
                        assert(poll_completion_at(pi, combined, task, self.driver@)) by {
                            assert forall|j: int| 0 <= j < pi implies task_retained(
                                #[trigger] combined[j],
                                self.driver@[j],
                            ) by {
                                lemma_retained_then_parked(
                                    combined[j],
                                    driver_pre[j],
                                    self.driver@[j],
                                );
                            }
                            assert forall|j: int| pi < j < combined.len() implies task_retained(
                                #[trigger] combined[j],
                                self.driver@[j - 1],
                            ) by {
                                assert(self.driver@[j - 1] == driver_pre[j]);
                            }
                        }
                        if single_body {
                            assert(driver_pre.len() == 1);
                            assert(task_step_done(driver_pre[0]));
                            let b0 = combined[0].computation->BodyData_0;
                            let bc = driver_pre[0].computation->BodyData_0;
                            assert(driver_pre[0].computation matches Computation::BodyData(_));
                            assert(body_task_run(b0.replies_spec(), w0) == body_task_run(
                                bc.replies_spec(),
                                woken_pre,
                            ));
                            assert(body_task_run(bc.replies_spec(), woken_pre)
                                matches BodyRun::BDone(_));
                        }
                        if all_immediate(combined) {
                            if combined.len() > 0 {
                                assert(driver_pre == combined);
                                assert(combined[0].computation matches Computation::Immediate(
                                    _,
                                ));
                                assert(task_step_done(driver_pre[0]));
                                assert forall|j: int|
                                    0 <= j < combined.drop_first().len() implies (
                                #[trigger] combined.drop_first()[j]).computation matches
                                    Computation::Immediate(_) by {
                                    assert(combined.drop_first()[j] == combined[j + 1]);
                                }
                            } else {
                                assert(driver_pre.len() == 0);
                                assert(false);
                            }
                        }
                    }
                    return Some(task);
                },
                None => {
                    proof {
                        assert forall|i: int| 0 <= i < driver_pre.len() implies task_measure(
                            #[trigger] self.driver@[i],
                        ) <= task_measure(driver_pre[i]) by {
                            lemma_parked_measure(driver_pre[i], self.driver@[i]);
                        }
                        assert forall|i: int|
                            0 <= i < combined.len() implies task_retained(
                            #[trigger] combined[i],
                            self.driver@[i],
                        ) by {
                            lemma_retained_then_parked(
                                combined[i],
                                driver_pre[i],
                                self.driver@[i],
                            );
                        }
                        lemma_tasks_measure_le(driver_pre, self.driver@);
                        if self.is_woken && !woken_pre {
                            let j = choose|j: int|
                                0 <= j < driver_pre.len() && task_step_woke(
                                    #[trigger] driver_pre[j],
                                );
                            lemma_parked_measure(driver_pre[j], self.driver@[j]);
                            lemma_tasks_measure_lt(driver_pre, self.driver@, j);
                        }
                    }
                    let drained = self.drain_queue();
                    proof {
                        assert(self.driver@ =~= self.driver@ + Seq::<fluxio_task>::empty());
                    }
                    if drained {
                        continue;
                    }
                    proof {
                        if all_immediate(combined) && combined.len() > 0 {
                            assert(driver_pre == combined);
                            assert(combined[0].computation matches Computation::Immediate(_));
                            assert(task_step_done(driver_pre[0]));
                            assert(false);
                        }
                    }
                    if self.is_woken {
                        self.is_woken = false;
                        proof {
                            if single_body {
                                assert(driver_pre[0].computation matches Computation::BodyData(
                                    bpre,
                                ) && bpre.replies_spec().len() > 0);
                            }
                        }
                        continue;
                    }
                    return None;
                },
            }
        }
    }
}

// ===== the boundary functions of tasks and executors =====

/// Free a task, cancelling its computation if it has not completed.
pub fn fluxio_task_free(task: fluxio_task) {
    let _ = task;
}

/// Move the resolved value out of a completed task: it is yielded at
/// most once, and a later take observes that nothing is there.
pub fn fluxio_task_value(task: &mut fluxio_task) -> (r: Option<TaskValue>)
    ensures
        r == old(task).output,
        final(task).output is None,
        final(task).computation == old(task).computation,
        final(task).userdata == old(task).userdata,
        final(task).delivered == old(task).delivered,
        final(task).leftover == old(task).leftover,
{
    let mut out: Option<TaskValue> = None;
    core::mem::swap(&mut task.output, &mut out);
    out
}

/// The kind tag of a task's stored value, read without consuming it.
pub fn fluxio_task_type(task: &fluxio_task) -> (r: fluxio_task_return_type)
    ensures
        task.output is None ==> r == fluxio_task_return_type::FLUXIO_TASK_EMPTY,
        task.output matches Some(v) ==> r == kind_of(v),
{
    task.output_type()
}

/// Attach an opaque caller token to a task; the boundary only carries
/// it, to be read back later.
pub fn fluxio_task_set_userdata(task: &mut fluxio_task, userdata: usize)
    ensures
        final(task).userdata == userdata,
        final(task).computation == old(task).computation,
        final(task).output == old(task).output,
        final(task).delivered == old(task).delivered,
        final(task).leftover == old(task).leftover,
{
    task.userdata = userdata;
}

/// The opaque caller token a task carries.
pub fn fluxio_task_userdata(task: &fluxio_task) -> (r: usize)
    ensures
        r == task.userdata,
{
    task.userdata
}

/// Take back the body of a completed body-data task, with the replies
/// the poll did not consume still queued, so it may be read again; the
/// body is handed out at most once.
pub fn fluxio_task_take_body(task: &mut fluxio_task) -> (r: Option<fluxio_body>)
    ensures
        r == old(task).leftover,
        final(task).leftover is None,
        final(task).computation == old(task).computation,
        final(task).output == old(task).output,
        final(task).userdata == old(task).userdata,
        final(task).delivered == old(task).delivered,
{
    let mut out: Option<fluxio_body> = None;
    core::mem::swap(&mut task.leftover, &mut out);
    out
}

/// Script the engine's outcome for a handshake task: with a fault set,
/// the handshake resolves to that error and the transport is dropped
/// instead of a driver being spawned; on any other task this changes
/// nothing.
pub fn fluxio_task_set_handshake_fault(task: &mut fluxio_task, err: fluxio_error)
    ensures
        old(task).computation matches Computation::Handshake(st) ==> (final(task).computation
            matches Computation::Handshake(st2) && st2.io == st.io && st2.options == st.options
            && st2.fault == Some(err)),
        !(old(task).computation matches Computation::Handshake(_)) ==> final(task).computation
            == old(task).computation,
        final(task).output == old(task).output,
        final(task).userdata == old(task).userdata,
        final(task).delivered == old(task).delivered,
        final(task).leftover == old(task).leftover,
{
    let mut c = Computation::Finished;
    core::mem::swap(&mut task.computation, &mut c);
    match c {
        Computation::Handshake(st) => {
            let HandshakeState { io, options, fault } = st;
            let _ = fault;
            task.computation = Computation::Handshake(
                HandshakeState { io, options, fault: Some(err) },
            );
        },
        other => {
            let _ = err;
            task.computation = other;
        },
    }
}

/// The chunks a foreach task has delivered to its iteration callback so
/// far, in delivery order.
pub fn fluxio_task_foreach_delivered(task: &fluxio_task) -> (r: &Vec<fluxio_buf>)
    ensures
        r == task.delivered,
{
    &task.delivered
}

/// Creates a new task executor.
pub fn fluxio_executor_new() -> (r: fluxio_executor)
    ensures
        r.driver@.len() == 0,
        r.spawn_queue@.len() == 0,
        !r.is_woken,
        r.wf(),
{
    fluxio_executor::new()
}

/// Free an executor and any incomplete tasks still part of it: the tasks
/// are dropped, their computations cancelled, without any completion
/// taking place.
pub fn fluxio_executor_free(exec: fluxio_executor) {
    let _ = exec;
}

/// Push a task onto the executor, which takes ownership of it until it
/// is handed back, completed, by a poll.
pub fn fluxio_executor_push(exec: &mut fluxio_executor, task: fluxio_task) -> (r: fluxio_code)
    requires
        old(exec).wf(),
        task_wf(task),
    ensures
        r == fluxio_code::FLUXIO_OK,
        final(exec).spawn_queue@ == old(exec).spawn_queue@.push(task),
        final(exec).driver@ == old(exec).driver@,
        final(exec).is_woken == old(exec).is_woken,
        final(exec).wf(),
{
    exec.spawn(task);
    fluxio_code::FLUXIO_OK
}

/// Poll the executor, driving tasks that have work to do; returns a
/// completed task when one is ready, and nothing when every task waits
/// on an external wake.
pub fn fluxio_executor_poll(exec: &mut fluxio_executor) -> (r: Option<fluxio_task>)
    requires
        old(exec).wf(),
    ensures
        final(exec).wf(),
        r matches Some(t) ==> t.output is Some,
        r is None ==> (final(exec).spawn_queue@.len() == 0 && !final(exec).is_woken),
        r is None ==> final(exec).driver@.len() == (old(exec).driver@ + old(exec).spawn_queue@).len(),
        r is None ==> forall|i: int|
            0 <= i < final(exec).driver@.len() ==> task_retained(
                #[trigger] (old(exec).driver@ + old(exec).spawn_queue@)[i],
                final(exec).driver@[i],
            ),
        r matches Some(t) ==> ((exists|i: int|
            poll_completion_at(
                i,
                old(exec).driver@ + old(exec).spawn_queue@,
                t,
                final(exec).driver@,
            )) && final(exec).spawn_queue@.len() <= 1),
        immediate_batch_poll_ok(
            old(exec).driver@ + old(exec).spawn_queue@,
            r,
            final(exec).driver@,
            final(exec).spawn_queue@,
        ),
        lone_body_poll_ok(
            old(exec).driver@ + old(exec).spawn_queue@,
            old(exec).is_woken,
            r,
            final(exec).driver@,
            final(exec).spawn_queue@,
            final(exec).is_woken,
        ),
{
    exec.poll_next()
}

// ===== the context/waker bridge =====

/// An async context for a task: the capability bundle available to
/// callback code during one poll invocation, and only then — it must not
/// be retained past that call.  Its one capability is cloning a waker
/// that escapes freely.
pub struct fluxio_context {
    _scope: (),
}

impl fluxio_context {
    /// The context handed to callback code for the duration of one poll.
    pub fn wrap() -> (r: fluxio_context) {
        fluxio_context { _scope: () }
    }
}

/// A waker: an owned capture of the resumption callback, independent of
/// the poll it was cloned in.  It may be stored and invoked later, from
/// any execution context; invoking it consumes it, and freeing an
/// un-invoked waker is a distinct operation that wakes nothing.
pub struct fluxio_waker {
    _token: (),
}

/// Copy a waker out of the task context; the clone outlives the poll.
pub fn fluxio_context_waker(cx: &fluxio_context) -> (r: fluxio_waker) {
    let _ = cx;
    fluxio_waker { _token: () }
}

/// Free a waker that has not been woken: nothing is woken by this.
pub fn fluxio_waker_free(waker: fluxio_waker) {
    let _ = waker;
}

/// Wake up the task associated with a waker, consuming the waker: the
/// executor's sticky flag is set, so its next poll drives the tasks
/// again instead of reporting nothing ready.
pub fn fluxio_waker_wake(waker: fluxio_waker, exec: &mut fluxio_executor)
    ensures
        final(exec).is_woken,
        final(exec).driver@ == old(exec).driver@,
        final(exec).spawn_queue@ == old(exec).spawn_queue@,
{
    let _ = waker;
    exec.is_woken = true;
}

/// The law of iteration breaks: while a body keeps yielding chunks, a
/// callback that continues through the first `b` deliveries and then
/// declines stops the drain after exactly `b + 1` deliveries — the
/// chunks in order — and the run reports the caller's abort, a kind
/// distinct from any transport failure.
pub proof fn lemma_foreach_break(
    replies: Seq<fluxio_body_data_reply>,
    decisions: Seq<i32>,
    k: int,
    b: int,
)
    requires
        0 <= b < replies.len(),
        forall|j: int|
            0 <= j <= b ==> (#[trigger] replies[j] matches fluxio_body_data_reply::Ready(c)
                && c is Some),
        forall|j: int|
            0 <= j < b ==> #[trigger] decision_at(decisions, k + j)
                == crate::FLUXIO_ITER_CONTINUE,
        decision_at(decisions, k + b) != crate::FLUXIO_ITER_CONTINUE,
    ensures
        foreach_run(replies, decisions, k).1 == ForeachStep::FAborted,
        foreach_run(replies, decisions, k).0.len() == b + 1,
        forall|j: int|
            0 <= j <= b ==> foreach_run(replies, decisions, k).0[j] == (#[trigger] replies[j])->Ready_0->Some_0,
    decreases b,
{
    if b == 0 {
        assert(foreach_run(replies, decisions, k).0 =~= seq![replies[0]->Ready_0->Some_0]);
    } else {
        assert(forall|j: int|
            0 <= j <= b - 1 ==> #[trigger] replies.drop_first()[j] == replies[j + 1]);
        assert forall|j: int|
            0 <= j < b - 1 implies #[trigger] decision_at(decisions, (k + 1) + j)
                == crate::FLUXIO_ITER_CONTINUE by {
            assert(decision_at(decisions, k + (j + 1)) == crate::FLUXIO_ITER_CONTINUE);
        }
        assert(decision_at(decisions, (k + 1) + (b - 1)) == decision_at(decisions, k + b));
        lemma_foreach_break(replies.drop_first(), decisions, k + 1, b - 1);
        assert(decision_at(decisions, k + 0) == crate::FLUXIO_ITER_CONTINUE);
        assert(decision_at(decisions, k) == crate::FLUXIO_ITER_CONTINUE);
        let rest = foreach_run(replies.drop_first(), decisions, k + 1);
        assert(foreach_run(replies, decisions, k).0 =~= seq![replies[0]->Ready_0->Some_0]
            + rest.0);
        assert forall|j: int| 0 <= j <= b implies foreach_run(replies, decisions, k).0[j] == (
        #[trigger] replies[j])->Ready_0->Some_0 by {
            if j > 0 {
                assert(foreach_run(replies, decisions, k).0[j] == rest.0[j - 1]);
                assert(replies.drop_first()[j - 1] == replies[j]);
            }
        }
    }
}

} // verus!
