//! The orchestration entry point: resolve the model, lease it, stream the
//! driver's chunks back, and give the lease back on every exit path.

use vstd::prelude::*;

use crate::drivers::AnyDriver;
use crate::drivers::ChatChunk;
use crate::drivers::ChatRequest;
use crate::drivers::ChunkModel;
use crate::drivers::chunks_terminated;
use crate::drivers::chunks_wf;
use crate::drivers::stub_chunks;
use crate::errors::RouterError;
use crate::lifecycle::AcquireAction;
use crate::lifecycle::LifecycleManager;
use crate::lifecycle::acquire_action;
use crate::lifecycle::mgr_wf;
use crate::lifecycle::step_acquire;
use crate::lifecycle::step_cancel_queued;
use crate::lifecycle::step_cancel_waiter;
use crate::lifecycle::step_load_resolved;
use crate::lifecycle::step_release;
use crate::registry::ModelRegistry;
use crate::registry::ModelSpec;
use crate::registry::reg_find;

verus! {

/// What the relay is fed while it consumes one driver stream.
#[derive(Debug)]
pub enum StreamEvent {
    /// The driver produced a chunk.
    Chunk(ChatChunk),
    /// The driver failed mid-stream.
    Failed,
    /// The consumer walked away; not a backend fault.
    Cancelled,
}

/// Mathematical image of a `StreamEvent`.
pub ghost enum EventModel {
    Chunk(ChunkModel),
    Failed,
    Cancelled,
}

impl View for StreamEvent {
    type V = EventModel;

    open spec fn view(&self) -> EventModel {
        match self {
            StreamEvent::Chunk(c) => EventModel::Chunk(c@),
            StreamEvent::Failed => EventModel::Failed,
            StreamEvent::Cancelled => EventModel::Cancelled,
        }
    }
}

/// What the relay forwards to the client for one event.
#[derive(Debug)]
pub enum RelayOutput {
    /// Pass this chunk on, in production order.
    Emit(ChatChunk),
    /// The one terminal error chunk that replaces further output.
    EmitError(RouterError),
    /// Nothing goes to the client.
    Nothing,
}

/// Mathematical image of a `RelayOutput`.
pub ghost enum OutputModel {
    Emit(ChunkModel),
    EmitError(RouterError),
    Nothing,
}

impl View for RelayOutput {
    type V = OutputModel;

    open spec fn view(&self) -> OutputModel {
        match self {
            RelayOutput::Emit(c) => OutputModel::Emit(c@),
            RelayOutput::EmitError(e) => OutputModel::EmitError(*e),
            RelayOutput::Nothing => OutputModel::Nothing,
        }
    }
}

/// Whether an output closes the stream for the client: a `done` chunk or
/// the terminal error.
pub open spec fn out_terminal(o: OutputModel) -> bool {
    match o {
        OutputModel::Emit(c) => c.done,
        OutputModel::EmitError(_) => true,
        OutputModel::Nothing => false,
    }
}

/// What a relay in state `finished` forwards for one event.
pub open spec fn relay_out(finished: bool, ev: EventModel) -> OutputModel {
    if finished {
        OutputModel::Nothing
    } else {
        match ev {
            EventModel::Chunk(c) => OutputModel::Emit(c),
            EventModel::Failed => OutputModel::EmitError(RouterError::StreamError),
            EventModel::Cancelled => OutputModel::Nothing,
        }
    }
}

/// Whether the relay is finished after one event.
pub open spec fn relay_done_after(finished: bool, ev: EventModel) -> bool {
    finished || match ev {
        EventModel::Chunk(c) => c.done,
        EventModel::Failed => true,
        EventModel::Cancelled => true,
    }
}

/// Everything the relay forwards for a whole event sequence.
pub open spec fn relay_outputs(finished: bool, evs: Seq<EventModel>) -> Seq<OutputModel>
    decreases evs.len(),
{
    if evs.len() == 0 {
        Seq::empty()
    } else {
        seq![relay_out(finished, evs[0])] + relay_outputs(
            relay_done_after(finished, evs[0]),
            evs.subrange(1, evs.len() as int),
        )
    }
}

/// The relay forwards exactly one output per event.
pub proof fn lemma_relay_outputs_len(f: bool, evs: Seq<EventModel>)
    ensures
        relay_outputs(f, evs).len() == evs.len(),
    decreases evs.len(),
{
    if evs.len() > 0 {
        lemma_relay_outputs_len(
            relay_done_after(f, evs[0]),
            evs.subrange(1, evs.len() as int),
        );
    }
}

/// A finished relay forwards nothing, whatever else arrives.
pub proof fn lemma_relay_finished_is_silent(evs: Seq<EventModel>, k: int)
    requires
        0 <= k < evs.len(),
    ensures
        relay_outputs(true, evs)[k] == OutputModel::Nothing,
    decreases k,
{
    let rest = evs.subrange(1, evs.len() as int);
    lemma_relay_outputs_len(true, evs);
    lemma_relay_outputs_len(true, rest);
    assert(relay_outputs(true, evs) == seq![relay_out(true, evs[0])] + relay_outputs(
        relay_done_after(true, evs[0]),
        rest,
    ));
    assert(relay_done_after(true, evs[0]));
    if k == 0 {
        assert(relay_outputs(true, evs)[0] == relay_out(true, evs[0]));
    } else {
        lemma_relay_finished_is_silent(rest, k - 1);
        assert(relay_outputs(true, evs)[k] == relay_outputs(true, rest)[k - 1]);
    }
}

/// A stream never carries anything after its terminal signal: once some
/// output is a `done` chunk or the terminal error, every later output is
/// `Nothing` — in particular no chunk follows `done = true` and no second
/// terminal ever appears.
pub proof fn lemma_relay_terminal_is_last(
    finished: bool,
    evs: Seq<EventModel>,
    i: int,
    j: int,
)
    requires
        0 <= i < j < evs.len(),
        out_terminal(relay_outputs(finished, evs)[i]),
    ensures
        relay_outputs(finished, evs)[j] == OutputModel::Nothing,
        !out_terminal(relay_outputs(finished, evs)[j]),
    decreases i,
{
    let outs = relay_outputs(finished, evs);
    let f1 = relay_done_after(finished, evs[0]);
    let rest = evs.subrange(1, evs.len() as int);
    lemma_relay_outputs_len(finished, evs);
    lemma_relay_outputs_len(f1, rest);
    assert(outs == seq![relay_out(finished, evs[0])] + relay_outputs(f1, rest));
    if i == 0 {
        assert(outs[0] == relay_out(finished, evs[0]));
        assert(f1);
        assert(outs[j] == relay_outputs(f1, rest)[j - 1]);
        lemma_relay_finished_is_silent_any(f1, rest, j - 1);
    } else {
        assert(outs[i] == relay_outputs(f1, rest)[i - 1]);
        lemma_relay_terminal_is_last(f1, rest, i - 1, j - 1);
        assert(outs[j] == relay_outputs(f1, rest)[j - 1]);
    }
}

/// A finished relay forwards nothing (stated for either flag value, with
/// the flag known true).
proof fn lemma_relay_finished_is_silent_any(f: bool, evs: Seq<EventModel>, k: int)
    requires
        f,
        0 <= k < evs.len(),
    ensures
        relay_outputs(f, evs)[k] == OutputModel::Nothing,
{
    lemma_relay_finished_is_silent(evs, k);
}

/// Relays one driver stream to one client, closing it exactly once.
///
/// `finished` flips when the terminal signal has gone out; after that the
/// relay forwards nothing. `released` records that the lease went back:
/// that happens exactly once, when the stream finishes.
pub struct StreamRelay {
    pub finished: bool,
    pub released: bool,
}

impl StreamRelay {
    /// A relay for a stream that has produced nothing yet.
    pub fn new() -> (r: StreamRelay)
        ensures
            !r.finished,
            !r.released,
    {
        StreamRelay { finished: false, released: false }
    }

    /// Feed one event; what comes back goes to the client, and when
    /// `release_now` is set the caller must give the lease back — the one
    /// time it will ever be asked to.
    pub fn step(&mut self, ev: StreamEvent) -> (r: (RelayOutput, bool))
        ensures
            r.0@ == relay_out(old(self).finished, ev@),
            final(self).finished == relay_done_after(old(self).finished, ev@),
            r.1 == (!old(self).released && final(self).finished && !old(self).finished),
            final(self).released == (old(self).released || r.1),
            old(self).finished ==> r.0@ == OutputModel::Nothing,
            out_terminal(r.0@) ==> final(self).finished,
    {
        if self.finished {
            return (RelayOutput::Nothing, false);
        }
        let out: RelayOutput;
        let done: bool;
        match ev {
            StreamEvent::Chunk(c) => {
                done = c.done;
                out = RelayOutput::Emit(c);
            },
            StreamEvent::Failed => {
                done = true;
                out = RelayOutput::EmitError(RouterError::StreamError);
            },
            StreamEvent::Cancelled => {
                done = true;
                out = RelayOutput::Nothing;
            },
        }
        if done {
            self.finished = true;
            if !self.released {
                self.released = true;
                return (out, true);
            }
        }
        (out, false)
    }
}

/// Map a request's model name to its spec, or the error every unknown name
/// gets. No driver is consulted for an unknown model.
pub fn resolve(reg: &ModelRegistry, name: &String) -> (r: Result<ModelSpec, RouterError>)
    ensures
        match r {
            Ok(m) => 0 <= reg_find(reg@, name@) < reg@.len() && m@ == reg@[reg_find(reg@, name@)]
                && m@.name == name@,
            Err(e) => e == RouterError::UnknownModel && reg_find(reg@, name@) == -1 && (forall|
                i: int,
            | 0 <= i < reg@.len() ==> (#[trigger] reg@[i]).name != name@),
        },
{
    match reg.get(name) {
        Some(m) => Ok(m),
        None => Err(RouterError::UnknownModel),
    }
}

/// The manager state `serve_once` leaves behind, as a function of the one
/// it found: the request's acquire, then — when a lease was obtained at
/// once or by loading — the load resolution and the unconditional release;
/// a caller that would have to wait withdraws instead.
pub open spec fn serve_once_step(
    m: crate::lifecycle::ManagerModel,
    name: Seq<char>,
    caller: u64,
) -> crate::lifecycle::ManagerModel {
    let m1 = step_acquire(m, name, caller);
    match acquire_action(m, name, caller) {
        AcquireAction::Granted => step_release(m1, name),
        AcquireAction::StartLoad => step_release(step_load_resolved(m1, name, true), name),
        AcquireAction::Wait => step_cancel_waiter(m1, name, caller),
        AcquireAction::Queued => step_cancel_queued(m1, name, caller),
        AcquireAction::Overloaded => m1,
    }
}

/// Serve one chat request synchronously: resolve the model, lease it (or
/// load it first as the sole loader), collect the driver's chunks, and
/// give the lease back. A caller that could only be served by waiting —
/// on another caller's load, in the queue, or not at all — withdraws and
/// is answered `Overloaded`; the asynchronous runtime is the place where
/// waiting happens.
pub fn serve_once(
    mgr: &mut LifecycleManager,
    reg: &ModelRegistry,
    caller: u64,
    model: &String,
    req: &ChatRequest,
) -> (r: Result<Vec<ChatChunk>, RouterError>)
    requires
        mgr_wf(old(mgr)@),
    ensures
        mgr_wf(final(mgr)@),
        reg_find(reg@, model@) == -1 ==> r == Err::<Vec<ChatChunk>, RouterError>(
            RouterError::UnknownModel,
        ) && final(mgr)@ == old(mgr)@,
        reg_find(reg@, model@) >= 0 ==> final(mgr)@ == serve_once_step(old(mgr)@, model@, caller)
            && (match acquire_action(old(mgr)@, model@, caller) {
            AcquireAction::Granted | AcquireAction::StartLoad => (match r {
                Ok(v) => {
                    let cs = v@.map_values(|c: ChatChunk| c@);
                    &&& cs == stub_chunks(reg@[reg_find(reg@, model@)].backend)
                    &&& chunks_wf(cs)
                    &&& chunks_terminated(cs)
                },
                Err(_) => false,
            }),
            _ => r == Err::<Vec<ChatChunk>, RouterError>(RouterError::Overloaded),
        }),
{
    let ms = match resolve(reg, model) {
        Ok(m) => m,
        Err(e) => {
            return Err(e);
        },
    };
    let action = mgr.acquire(model, caller);
    match action {
        AcquireAction::Granted => {
            let driver = AnyDriver::for_backend(ms.backend, ms.path.clone());
            let chunks = driver.chat_chunks(req);
            let _ = mgr.release(model);
            Ok(chunks)
        },
        AcquireAction::StartLoad => {
            let driver = AnyDriver::for_backend(ms.backend, ms.path.clone());
            let loaded = match driver.ensure_loaded(&ms) {
                Ok(_) => true,
                Err(_) => false,
            };
            let _ = mgr.load_resolved(model, loaded);
            let chunks = driver.chat_chunks(req);
            let _ = mgr.release(model);
            Ok(chunks)
        },
        AcquireAction::Wait => {
            let _ = mgr.cancel_waiter(model, caller);
            Err(RouterError::Overloaded)
        },
        AcquireAction::Queued => {
            let _ = mgr.cancel_queued(model, caller);
            Err(RouterError::Overloaded)
        },
        AcquireAction::Overloaded => Err(RouterError::Overloaded),
    }
}

} // verus!
