//! The worker job slot (at most one streaming job at a time) and the
//! line-delimited session protocol with a worker process.

use vstd::prelude::*;

verus! {

/// Why a streaming job could not start.
#[derive(Clone, Copy, Debug, PartialEq, Eq, Structural)]
pub enum JobConflict {
    /// The previous job's process has not exited, or another job is being
    /// started.
    AnotherJobRunning,
}

impl JobConflict {
    /// The text reported to the caller.
    pub fn message(&self) -> (r: String)
        ensures
            r@ == "another job is running"@,
    {
        String::from_str("another job is running")
    }
}

/// The slot that holds the handle of the current streaming job, if any. While a
/// job is being started the slot is reserved (`starting`), so that at most one
/// job is ever live or on its way.
pub struct JobSlot<H> {
    pub current: Option<H>,
    pub starting: bool,
}

/// A new job may start unless one is being started or a stored job is still
/// running.
pub open spec fn start_admitted<H>(slot: JobSlot<H>, previous_running: bool) -> bool {
    !slot.starting && !(slot.current.is_some() && previous_running)
}

impl<H> JobSlot<H> {
    /// An empty slot.
    pub fn new() -> (r: Self)
        ensures
            r.current.is_none(),
            !r.starting,
    {
        JobSlot { current: None, starting: false }
    }

    /// Whether a job handle is stored.
    pub fn is_occupied(&self) -> (r: bool)
        ensures
            r == self.current.is_some(),
    {
        self.current.is_some()
    }

    /// First step of starting a job, given whether the stored job (if any) is
    /// still running. A start is refused while another is being started or the
    /// stored job runs, and the slot stays as it was; otherwise the stale handle
    /// is dropped and the slot is reserved for the new job.
    pub fn begin_start(&mut self, previous_running: bool) -> (r: Result<(), JobConflict>)
        ensures
            r.is_ok() == start_admitted(*old(self), previous_running),
            r.is_err() ==> *final(self) == *old(self) && r == Err::<(), JobConflict>(
                JobConflict::AnotherJobRunning,
            ),
            r.is_ok() ==> final(self).current.is_none() && final(self).starting,
    {
        if self.starting || (self.current.is_some() && previous_running) {
            return Err(JobConflict::AnotherJobRunning);
        }
        self.current = None;
        self.starting = true;
        Ok(())
    }

    /// Stores the handle of the job just started and ends the reservation.
    pub fn install(&mut self, handle: H)
        ensures
            final(self).current == Some(handle),
            !final(self).starting,
    {
        self.current = Some(handle);
        self.starting = false;
    }

    /// Ends the reservation of a start that failed; the slot is left empty.
    pub fn abort_start(&mut self)
        ensures
            final(self).current == old(self).current,
            !final(self).starting,
    {
        self.starting = false;
    }

    /// Empties the slot and hands back what it held (to be terminated by the
    /// caller). Emptying an empty slot is allowed. A start under way still
    /// completes.
    pub fn release(&mut self) -> (r: Option<H>)
        ensures
            r == old(self).current,
            final(self).current.is_none(),
            final(self).starting == old(self).starting,
    {
        self.current.take()
    }
}

/// How a worker is driven.
#[derive(Clone, Copy, Debug, PartialEq, Eq, Structural)]
pub enum WorkerMode {
    /// One request, one response line, then wait for exit.
    Blocking,
    /// One request, then every output line is an event, until the output ends.
    Streaming,
}

/// Where a session with a worker stands.
#[derive(Clone, Copy, Debug, PartialEq, Eq, Structural)]
pub enum WorkerPhase {
    /// The request line has not been written yet.
    AwaitingInput,
    /// The request was written and the input closed; no output line yet.
    InputClosed,
    /// Output lines are being forwarded (streaming mode).
    Streaming,
    /// Nothing more is read.
    Terminated,
}

/// What happened on the worker's streams.
#[derive(Clone, Copy, Debug, PartialEq, Eq, Structural)]
pub enum WorkerEvent {
    /// The request line was written.
    RequestWritten,
    /// An output line parsed as a structured value.
    LineParsed,
    /// An output line did not parse.
    LineMalformed,
    /// Reading the output failed.
    ReadFailed,
    /// The output ended.
    EndOfOutput,
}

/// What the caller does next.
#[derive(Clone, Copy, Debug, PartialEq, Eq, Structural)]
pub enum WorkerAction {
    /// Close the worker's input, which ends its request loop.
    CloseInput,
    /// Forward the parsed line to the host unchanged.
    Forward,
    /// Forward a synthetic `error` event.
    ForwardError,
    /// Return the parsed line as the response, then wait for exit.
    Respond,
    /// Return an error to the caller.
    Fail,
    /// Stop reading.
    Finish,
    /// Nothing to do.
    Ignore,
}

/// The session protocol: the request is written and the input closed first; in
/// blocking mode the first output line decides the outcome; in streaming mode
/// every line is forwarded (a malformed one as an error event) until a read
/// failure (one error event) or the end of the output.
pub open spec fn session_step(mode: WorkerMode, phase: WorkerPhase, event: WorkerEvent) -> (
    WorkerPhase,
    WorkerAction,
) {
    match phase {
        WorkerPhase::AwaitingInput => match event {
            WorkerEvent::RequestWritten => (WorkerPhase::InputClosed, WorkerAction::CloseInput),
            _ => (WorkerPhase::AwaitingInput, WorkerAction::Ignore),
        },
        WorkerPhase::InputClosed => match mode {
            WorkerMode::Blocking => match event {
                WorkerEvent::RequestWritten => (WorkerPhase::InputClosed, WorkerAction::Ignore),
                WorkerEvent::LineParsed => (WorkerPhase::Terminated, WorkerAction::Respond),
                _ => (WorkerPhase::Terminated, WorkerAction::Fail),
            },
            WorkerMode::Streaming => streaming_step(WorkerPhase::InputClosed, event),
        },
        WorkerPhase::Streaming => streaming_step(WorkerPhase::Streaming, event),
        WorkerPhase::Terminated => (WorkerPhase::Terminated, WorkerAction::Ignore),
    }
}

/// One output event of a streaming job.
pub open spec fn streaming_step(phase: WorkerPhase, event: WorkerEvent) -> (WorkerPhase, WorkerAction) {
    match event {
        WorkerEvent::RequestWritten => (phase, WorkerAction::Ignore),
        WorkerEvent::LineParsed => (WorkerPhase::Streaming, WorkerAction::Forward),
        WorkerEvent::LineMalformed => (WorkerPhase::Streaming, WorkerAction::ForwardError),
        WorkerEvent::ReadFailed => (WorkerPhase::Terminated, WorkerAction::ForwardError),
        WorkerEvent::EndOfOutput => (WorkerPhase::Terminated, WorkerAction::Finish),
    }
}

/// The next phase and action of a worker session, as [`session_step`] says.
pub fn worker_session_step(mode: WorkerMode, phase: WorkerPhase, event: WorkerEvent) -> (r: (
    WorkerPhase,
    WorkerAction,
))
    ensures
        r == session_step(mode, phase, event),
{
    match phase {
        WorkerPhase::AwaitingInput => match event {
            WorkerEvent::RequestWritten => (WorkerPhase::InputClosed, WorkerAction::CloseInput),
            _ => (WorkerPhase::AwaitingInput, WorkerAction::Ignore),
        },
        WorkerPhase::InputClosed => match mode {
            WorkerMode::Blocking => match event {
                WorkerEvent::RequestWritten => (WorkerPhase::InputClosed, WorkerAction::Ignore),
                WorkerEvent::LineParsed => (WorkerPhase::Terminated, WorkerAction::Respond),
                _ => (WorkerPhase::Terminated, WorkerAction::Fail),
            },
            WorkerMode::Streaming => streaming_output_step(WorkerPhase::InputClosed, event),
        },
        WorkerPhase::Streaming => streaming_output_step(WorkerPhase::Streaming, event),
        WorkerPhase::Terminated => (WorkerPhase::Terminated, WorkerAction::Ignore),
    }
}

fn streaming_output_step(phase: WorkerPhase, event: WorkerEvent) -> (r: (WorkerPhase, WorkerAction))
    ensures
        r == streaming_step(phase, event),
{
    match event {
        WorkerEvent::RequestWritten => (phase, WorkerAction::Ignore),
        WorkerEvent::LineParsed => (WorkerPhase::Streaming, WorkerAction::Forward),
        WorkerEvent::LineMalformed => (WorkerPhase::Streaming, WorkerAction::ForwardError),
        WorkerEvent::ReadFailed => (WorkerPhase::Terminated, WorkerAction::ForwardError),
        WorkerEvent::EndOfOutput => (WorkerPhase::Terminated, WorkerAction::Finish),
    }
}

/// A terminated session stays terminated and does nothing more, and a blocking
/// session ends at its first output event.
pub proof fn lemma_session_termination(mode: WorkerMode, event: WorkerEvent)
    ensures
        session_step(mode, WorkerPhase::Terminated, event) == (
            WorkerPhase::Terminated,
            WorkerAction::Ignore,
        ),
        event != WorkerEvent::RequestWritten ==> session_step(
            WorkerMode::Blocking,
            WorkerPhase::InputClosed,
            event,
        ).0 == WorkerPhase::Terminated,
{
}

} // verus!
