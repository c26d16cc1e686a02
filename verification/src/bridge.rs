//! The dual-channel call bridge.
//!
//! Two one-directional channels connect the host and the native side: the
//! native-call channel carries `(name, argument buffer)` pairs from the host
//! to the native worker, and the host-call channel carries
//! `(name, argument values)` pairs the other way. A single pending-result
//! slot holds the result of the one in-flight native-to-host call.
//!
//! This module holds the decisions of the two worker loops — dequeue,
//! dispatch, encode, and the `Idle → AwaitingHostResult → Idle` state
//! machine of a nested host call. The embedder supplies the loops
//! themselves, the threads, and the copies into externally owned memory,
//! and drives this state machine one step at a time.

use vstd::prelude::*;
use crate::buffer::{Buffer, BUFFER_SIZE, spec_serial, spec_splice, spec_zeros, spec_parse};
use crate::error::Error;
use crate::value::{Val, Value, val_of, vals_of};

verus! {

/// Signal byte raised when a host-call request is ready to be read.
pub const SIGNAL_GML_CALL: u8 = 1;

/// Signal byte raised when a native-call result is ready to be read.
pub const SIGNAL_RUST_RESULT: u8 = 2;

/// A native-to-host call: function name (one byte per character) and its
/// argument values.
pub type GmlCall = (Vec<u8>, Vec<Value>);

/// A host-to-native call: function name and the buffer holding its encoded
/// arguments.
pub type RustCall = (Vec<u8>, Buffer);

/// The shared bridge state: the two call queues and the pending-result slot.
pub struct Context {
    gml_calls: Vec<GmlCall>,
    rust_calls: Vec<RustCall>,
    gml_result: Option<Value>,
}

impl Context {
    /// The queued native-to-host calls, oldest first.
    pub closed spec fn gml_queue(&self) -> Seq<GmlCall> {
        self.gml_calls@
    }

    /// The queued host-to-native calls, oldest first.
    pub closed spec fn rust_queue(&self) -> Seq<RustCall> {
        self.rust_calls@
    }

    /// The pending-result slot of the one in-flight native-to-host call.
    pub closed spec fn pending_result(&self) -> Option<Value> {
        self.gml_result
    }

    /// A fresh bridge: both queues empty, no pending result.
    pub fn new() -> (r: Context)
        ensures
            r.gml_queue() == Seq::<GmlCall>::empty(),
            r.rust_queue() == Seq::<RustCall>::empty(),
            r.pending_result() is None,
    {
        Context { gml_calls: Vec::new(), rust_calls: Vec::new(), gml_result: None }
    }

    /// Enqueue a host-to-native call. Returns at once; the result arrives
    /// later through the native-call worker and the signal protocol.
    pub fn call_function(&mut self, function_name: Vec<u8>, arguments: Buffer)
        ensures
            final(self).rust_queue() == old(self).rust_queue().push((function_name, arguments)),
            final(self).gml_queue() == old(self).gml_queue(),
            final(self).pending_result() == old(self).pending_result(),
    {
        self.rust_calls.push((function_name, arguments));
    }

    /// Begin a native-to-host call: clear the pending-result slot and
    /// enqueue the call. The reference behaviour then busy-waits on the
    /// slot; here the embedder polls [`Context::poll_gml_result`] until the
    /// host has deposited a result through [`Context::receive_result`].
    pub fn call_gml(&mut self, function_name: Vec<u8>, arguments: Vec<Value>)
        ensures
            final(self).pending_result() is None,
            final(self).gml_queue() == old(self).gml_queue().push((function_name, arguments)),
            final(self).rust_queue() == old(self).rust_queue(),
    {
        self.gml_result = None;
        self.gml_calls.push((function_name, arguments));
    }

    /// One poll of the pending-result slot: the body of the reference
    /// busy-wait loop.
    pub fn poll_gml_result(&self) -> (r: Option<Value>)
        ensures
            match self.pending_result() {
                Some(v) => r matches Some(w) && w@ == v@,
                None => r is None,
            },
    {
        match &self.gml_result {
            Some(v) => Some(v.clone()),
            None => None,
        }
    }

    /// Deposit the host's answer to the in-flight native-to-host call,
    /// decoded from a result buffer.
    pub fn receive_result(&mut self, buffer: &mut Buffer) -> (r: Result<(), Error>)
        requires
            old(buffer).wf(),
        ensures
            final(buffer).wf(),
            final(buffer).data() == old(buffer).data(),
            final(self).gml_queue() == old(self).gml_queue(),
            final(self).rust_queue() == old(self).rust_queue(),
            match spec_parse(old(buffer).data(), old(buffer).pos()) {
                Some(pair) => r is Ok && (final(self).pending_result() matches Some(v) && v@
                    == pair.0),
                None => r == Err::<(), Error>(Error::MalformedPayload) && final(self).pending_result() == old(self).pending_result(),
            },
    {
        let value = match buffer.read() {
            Ok(v) => v,
            Err(e) => {
                return Err(e);
            },
        };
        self.gml_result = Some(value);
        Ok(())
    }

    /// Dequeue the oldest host-to-native call, if any.
    pub fn take_rust_call(&mut self) -> (r: Option<RustCall>)
        ensures
            final(self).gml_queue() == old(self).gml_queue(),
            final(self).pending_result() == old(self).pending_result(),
            old(self).rust_queue().len() == 0 ==> r is None && final(self).rust_queue() == old(self).rust_queue(),
            old(self).rust_queue().len() > 0 ==> r == Some(old(self).rust_queue()[0]) && final(self).rust_queue() == old(self).rust_queue().subrange(
                1,
                old(self).rust_queue().len() as int,
            ),
    {
        if self.rust_calls.len() == 0 {
            return None;
        }
        let call = self.rust_calls.remove(0);
        proof {
            assert(self.rust_calls@ =~= old(self).rust_calls@.subrange(
                1,
                old(self).rust_calls@.len() as int,
            ));
        }
        Some(call)
    }

    /// Dequeue the oldest native-to-host call, if any.
    pub fn take_gml_call(&mut self) -> (r: Option<GmlCall>)
        ensures
            final(self).rust_queue() == old(self).rust_queue(),
            final(self).pending_result() == old(self).pending_result(),
            old(self).gml_queue().len() == 0 ==> r is None && final(self).gml_queue() == old(self).gml_queue(),
            old(self).gml_queue().len() > 0 ==> r == Some(old(self).gml_queue()[0]) && final(self).gml_queue() == old(self).gml_queue().subrange(1, old(self).gml_queue().len() as int),
    {
        if self.gml_calls.len() == 0 {
            return None;
        }
        let call = self.gml_calls.remove(0);
        proof {
            assert(self.gml_calls@ =~= old(self).gml_calls@.subrange(
                1,
                old(self).gml_calls@.len() as int,
            ));
        }
        Some(call)
    }
}

/// One step of a native handler: finish with a result, ask the host to run
/// a function first and be resumed with its result, or fail with a typed
/// error.
pub enum Step {
    /// The handler is done; this value is the call's result.
    Return(Value),
    /// The handler needs the host: call this function with these arguments,
    /// then hand the result back through [`Module::resume`].
    CallHost(Vec<u8>, Vec<Value>),
    /// The handler cannot serve the call — a mistyped argument, a malformed
    /// payload. The bridge hands this error to the embedder instead of
    /// crashing.
    Fail(Error),
}

/// A module of native functions that the host can call by name.
///
/// Embedders implement this trait; the bridge dispatches to it. A handler
/// that needs a nested host call does not block: it returns
/// [`Step::CallHost`], and the bridge resumes it once the host's result has
/// arrived. Handlers keep whatever state they need between the two steps in
/// the module itself. A handler that cannot serve a call returns
/// [`Step::Fail`] with the typed error, so that one bad call cannot take
/// down the bridge.
pub trait Module: Sized {
    /// A fresh instance of the module.
    fn new() -> Self;

    /// Called once at startup, before any dispatch.
    fn init(&mut self, context: &mut Context);

    /// Begin handling the named call, reading its arguments from the
    /// buffer; `None` when this module does not export the name.
    fn exports(&mut self, function_name: &[u8], arguments: &mut Buffer) -> Option<Step>;

    /// Continue the in-flight call after the host returned `host_result`
    /// for the [`Step::CallHost`] this module issued last.
    fn resume(&mut self, host_result: Value) -> Step;
}

/// Outcome of dispatching one host-to-native call.
pub enum ExecutorStatus {
    /// The call completed; the buffer holds its encoded result. The
    /// embedder copies it out and raises [`SIGNAL_RUST_RESULT`].
    Completed(Buffer),
    /// The handler issued a host call and now awaits its result; feed it
    /// through [`Executor::handle_host_result`] once it arrives.
    AwaitingHostResult,
}

/// Encode a call result into a fresh buffer.
pub fn encode_result(value: &Value) -> (r: Result<Buffer, Error>)
    ensures
        r is Ok <==> spec_serial(val_of(*value)).len() <= BUFFER_SIZE,
        r matches Ok(b) ==> b.wf() && b.data() == spec_splice(
            spec_zeros(),
            0,
            spec_serial(val_of(*value)),
        ) && b.pos() == spec_serial(val_of(*value)).len(),
        r is Err ==> r == Err::<Buffer, Error>(Error::BufferCapacityExceeded),
{
    let mut buffer = Buffer::new();
    match buffer.write(value) {
        Ok(_) => Ok(buffer),
        Err(e) => Err(e),
    }
}

/// Map a module's lookup answer to a dispatch outcome: an exported name's
/// first step goes through; an unexported name is exactly an
/// `UnknownFunction` error — a typed result, never a crash.
pub fn step_or_unknown(found: Option<Step>) -> (r: Result<Step, Error>)
    ensures
        found is None <==> r == Err::<Step, Error>(Error::UnknownFunction),
        found matches Some(s) ==> r == Ok::<Step, Error>(s),
{
    match found {
        None => Err(Error::UnknownFunction),
        Some(step) => Ok(step),
    }
}

/// The native-call worker: a module of handlers plus the per-call state
/// machine. At most one native-to-host call is in flight at a time; while
/// it is, the executor is awaiting and must not dispatch another call.
pub struct Executor<M: Module> {
    module: M,
    awaiting: bool,
}

impl<M: Module> Executor<M> {
    /// Whether a native-to-host call is in flight.
    pub closed spec fn is_awaiting(&self) -> bool {
        self.awaiting
    }

    /// A fresh executor around a module, with no call in flight.
    pub fn new(module: M) -> (r: Executor<M>)
        ensures
            !r.is_awaiting(),
    {
        Executor { module, awaiting: false }
    }

    /// Called once at startup: let the module register itself.
    pub fn init(&mut self, context: &mut Context)
        requires
            !old(self).is_awaiting(),
        ensures
            final(self).is_awaiting() == old(self).is_awaiting(),
    {
        self.module.init(context);
    }

    /// Carry out what a handler decided: encode a finished result, or begin
    /// the nested host call it asked for.
    pub fn apply_step(&mut self, context: &mut Context, step: Step) -> (r: Result<
        ExecutorStatus,
        Error,
    >)
        ensures
            final(context).rust_queue() == old(context).rust_queue(),
            match step {
                Step::Return(v) => {
                    &&& !final(self).is_awaiting()
                    &&& final(context).gml_queue() == old(context).gml_queue()
                    &&& final(context).pending_result() == old(context).pending_result()
                    &&& (r is Ok <==> spec_serial(val_of(v)).len() <= BUFFER_SIZE)
                    &&& (r matches Ok(s) ==> s matches ExecutorStatus::Completed(b) && b.wf()
                        && b.data() == spec_splice(spec_zeros(), 0, spec_serial(val_of(v)))
                        && b.pos() == spec_serial(val_of(v)).len())
                    &&& (r is Err ==> r == Err::<ExecutorStatus, Error>(
                        Error::BufferCapacityExceeded,
                    ))
                },
                Step::CallHost(name, args) => {
                    &&& r matches Ok(s) && s is AwaitingHostResult
                    &&& final(self).is_awaiting()
                    &&& final(context).pending_result() is None
                    &&& final(context).gml_queue() == old(context).gml_queue().push((name, args))
                },
                Step::Fail(e) => {
                    &&& r == Err::<ExecutorStatus, Error>(e)
                    &&& !final(self).is_awaiting()
                    &&& final(context).gml_queue() == old(context).gml_queue()
                    &&& final(context).pending_result() == old(context).pending_result()
                },
            },
    {
        match step {
            Step::Return(value) => {
                self.awaiting = false;
                match encode_result(&value) {
                    Ok(buffer) => Ok(ExecutorStatus::Completed(buffer)),
                    Err(e) => Err(e),
                }
            },
            Step::CallHost(name, args) => {
                context.call_gml(name, args);
                self.awaiting = true;
                Ok(ExecutorStatus::AwaitingHostResult)
            },
            Step::Fail(error) => {
                self.awaiting = false;
                Err(error)
            },
        }
    }

    /// Dispatch one dequeued host-to-native call: look the name up in the
    /// module and carry out the handler's first step. An unexported name is
    /// mapped by [`step_or_unknown`] to `UnknownFunction` — a typed result,
    /// not a crash; a handler failure comes back as the handler's own
    /// error; an oversized result as `BufferCapacityExceeded`.
    pub fn handle_call(&mut self, context: &mut Context, call: RustCall) -> (r: Result<
        ExecutorStatus,
        Error,
    >)
        requires
            !old(self).is_awaiting(),
        ensures
            final(context).rust_queue() == old(context).rust_queue(),
            r matches Ok(s) ==> (s matches ExecutorStatus::Completed(b) && b.wf() && !final(self).is_awaiting()) || (s is AwaitingHostResult && final(self).is_awaiting() && final(context).pending_result() is None),
            r matches Ok(s) && s is Completed ==> final(context).gml_queue() == old(context).gml_queue() && final(context).pending_result() == old(context).pending_result(),
            r matches Ok(s) && s is AwaitingHostResult ==> final(context).gml_queue().len() == old(context).gml_queue().len() + 1 && final(context).gml_queue().subrange(
                0,
                old(context).gml_queue().len() as int,
            ) == old(context).gml_queue(),
            r is Err ==> !final(self).is_awaiting() && final(context).gml_queue() == old(context).gml_queue() && final(context).pending_result() == old(context).pending_result(),
    {
        let (name, mut arguments) = call;
        let found = self.module.exports(name.as_slice(), &mut arguments);
        match step_or_unknown(found) {
            Err(e) => Err(e),
            Ok(step) => {
                let ghost chosen = step;
                let r = self.apply_step(context, step);
                proof {
                    if chosen is CallHost {
                        assert(context.gml_queue().subrange(
                            0,
                            old(context).gml_queue().len() as int,
                        ) =~= old(context).gml_queue());
                    }
                }
                r
            },
        }
    }

    /// Feed the host's result to the handler that awaits it and carry out
    /// the handler's next step.
    pub fn handle_host_result(&mut self, context: &mut Context, host_result: Value) -> (r: Result<
        ExecutorStatus,
        Error,
    >)
        requires
            old(self).is_awaiting(),
        ensures
            final(context).rust_queue() == old(context).rust_queue(),
            r matches Ok(s) ==> (s matches ExecutorStatus::Completed(b) && b.wf() && !final(self).is_awaiting()) || (s is AwaitingHostResult && final(self).is_awaiting() && final(context).pending_result() is None),
            r matches Ok(s) && s is Completed ==> final(context).gml_queue() == old(context).gml_queue() && final(context).pending_result() == old(context).pending_result(),
            r matches Ok(s) && s is AwaitingHostResult ==> final(context).gml_queue().len() == old(context).gml_queue().len() + 1 && final(context).gml_queue().subrange(
                0,
                old(context).gml_queue().len() as int,
            ) == old(context).gml_queue(),
            r is Err ==> !final(self).is_awaiting() && final(context).gml_queue() == old(context).gml_queue() && final(context).pending_result() == old(context).pending_result(),
    {
        let step = self.module.resume(host_result);
        let ghost chosen = step;
        let r = self.apply_step(context, step);
        proof {
            if chosen is CallHost {
                assert(context.gml_queue().subrange(0, old(context).gml_queue().len() as int)
                    =~= old(context).gml_queue());
            }
        }
        r
    }

    /// One iteration of the native-call worker loop: dequeue the oldest
    /// host-to-native call and dispatch it. `None` exactly when the queue
    /// was empty; every dequeued call yields a status or a typed error.
    pub fn rust_executor_step(&mut self, context: &mut Context) -> (r: Result<
        Option<ExecutorStatus>,
        Error,
    >)
        requires
            !old(self).is_awaiting(),
        ensures
            old(context).rust_queue().len() == 0 ==> (r matches Ok(s) && s is None) && !final(self).is_awaiting() && final(context).rust_queue() == old(context).rust_queue() && final(context).gml_queue() == old(context).gml_queue() && final(context).pending_result() == old(context).pending_result(),
            old(context).rust_queue().len() > 0 ==> final(context).rust_queue() == old(context).rust_queue().subrange(1, old(context).rust_queue().len() as int) && !(r matches Ok(s)
                && s is None),
            r matches Ok(s) ==> (s matches Some(st) ==> (st matches ExecutorStatus::Completed(b)
                ==> b.wf() && !final(self).is_awaiting() && final(context).gml_queue() == old(context).gml_queue() && final(context).pending_result() == old(context).pending_result())),
            r matches Ok(s) ==> (s matches Some(st) ==> (st is AwaitingHostResult ==> final(self).is_awaiting() && final(context).pending_result() is None && final(context).gml_queue().len()
                == old(context).gml_queue().len() + 1 && final(context).gml_queue().subrange(
                0,
                old(context).gml_queue().len() as int,
            ) == old(context).gml_queue())),
            r is Err ==> !final(self).is_awaiting() && final(context).gml_queue() == old(context).gml_queue() && final(context).pending_result() == old(context).pending_result(),
    {
        match context.take_rust_call() {
            None => Ok(None),
            Some(call) => match self.handle_call(context, call) {
                Ok(status) => Ok(Some(status)),
                Err(e) => Err(e),
            },
        }
    }
}

/// One iteration of the host-call worker loop: dequeue the oldest
/// native-to-host call and encode its request payload — the name as a
/// string value, then the arguments as an array value — into a fresh
/// buffer. The embedder copies the buffer out and raises
/// [`SIGNAL_GML_CALL`]. `None` when the queue is empty.
pub fn gml_executor_step(context: &mut Context) -> (r: Result<Option<Buffer>, Error>)
    ensures
        final(context).rust_queue() == old(context).rust_queue(),
        final(context).pending_result() == old(context).pending_result(),
        old(context).gml_queue().len() == 0 ==> (r matches Ok(b) && b is None) && final(context).gml_queue() == old(context).gml_queue(),
        old(context).gml_queue().len() > 0 ==> final(context).gml_queue() == old(context).gml_queue().subrange(1, old(context).gml_queue().len() as int) && ({
            let name = old(context).gml_queue()[0].0;
            let args = old(context).gml_queue()[0].1;
            let payload = spec_serial(Val::String(name@)) + spec_serial(
                Val::Array(vals_of(args@)),
            );
            &&& (r is Err <==> payload.len() > BUFFER_SIZE)
            &&& (r matches Ok(b) ==> b matches Some(buffer) && buffer.wf() && buffer.data()
                == spec_splice(spec_zeros(), 0, payload) && buffer.pos() == payload.len())
            &&& (r is Err ==> r == Err::<Option<Buffer>, Error>(Error::BufferCapacityExceeded))
        }),
{
    let (name, args) = match context.take_gml_call() {
        None => {
            return Ok(None);
        },
        Some(call) => call,
    };
    let mut buffer = Buffer::new();
    let name_value = Value::String(name);
    match buffer.write(&name_value) {
        Ok(_) => {},
        Err(e) => {
            proof {
                crate::buffer::lemma_serial_len(Val::Array(vals_of(args@)));
            }
            return Err(e);
        },
    }
    let args_value = Value::Array(args);
    match buffer.write(&args_value) {
        Ok(_) => {},
        Err(e) => {
            return Err(e);
        },
    }
    proof {
        crate::buffer::lemma_splice_concat(
            spec_zeros(),
            0,
            spec_serial(val_of(name_value)),
            spec_serial(val_of(args_value)),
        );
    }
    Ok(Some(buffer))
}

/// Ordering law: two calls enqueued in order on the same channel are
/// dispatched in that order. [`Context::call_function`] appends to the
/// queue, and [`Context::take_rust_call`] takes the front and keeps the
/// rest in order, so the queue after `k` dequeues is the suffix from `k`.
/// In any queue reached by enqueuing `first` and then `second`, the
/// dequeue that follows the earlier entries dispatches `first`, and only
/// the one after it dispatches `second`.
pub proof fn lemma_fifo_order(queue: Seq<RustCall>, first: RustCall, second: RustCall, k: int)
    requires
        0 <= k <= queue.len() + 1,
    ensures
        ({
            let q = queue.push(first).push(second);
            &&& q.subrange(k, q.len() as int).subrange(1, q.len() - k) == q.subrange(
                k + 1,
                q.len() as int,
            )
            &&& q.subrange(queue.len() as int, q.len() as int)[0] == first
            &&& q.subrange(queue.len() as int + 1, q.len() as int)[0] == second
        }),
{
    let q = queue.push(first).push(second);
    assert(q.subrange(k, q.len() as int).subrange(1, q.len() - k) =~= q.subrange(
        k + 1,
        q.len() as int,
    ));
}

} // verus!

