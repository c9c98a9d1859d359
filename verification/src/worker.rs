//! The worker protocol: the command and message vocabulary between the
//! caller and the long-lived analysis worker, and the worker's own state
//! machine.
//!
//! The embedding program runs the loop — it owns the two FIFO channels and
//! the inference engine — but every decision is taken here: which state
//! follows which event, and which message is emitted for it. Because the
//! message channel is FIFO and the session only hands out `Progress` while
//! analyzing and exactly one terminal message per run, the caller observes
//! `Started`, then any progress reports, then exactly one of `Completed`
//! or `Error`.

use vstd::prelude::*;
use crate::result::AnalysisResult;

verus! {

/// A command the caller sends to the worker. Each is sent exactly once per
/// user action; commands are never batched or coalesced.
#[derive(Debug)]
pub enum WorkerCommand {
    Analyze(String),
    Tokenize(String),
    Shutdown,
}

/// A message the worker emits. The worker is the sole producer and the
/// caller the sole consumer, and messages are observed in emission order.
#[derive(Debug)]
pub enum WorkerMessage {
    ModelLoaded,
    Started,
    Progress { current: usize, total: usize },
    Completed(AnalysisResult),
    TokenCount(usize),
    Error(String),
}

/// The worker's lifecycle: `Loading` until the engine is constructed,
/// `Ready` when idle, `Analyzing` while a run is in flight, and the
/// terminal `Stopped` once shut down.
#[derive(Debug, Clone, Copy, PartialEq, Eq, Structural)]
pub enum WorkerState {
    Loading,
    Ready,
    Analyzing,
    Stopped,
}

/// What the embedding loop must do after a command was accepted: the
/// outside work the session itself cannot perform.
#[derive(Debug)]
pub enum Directive {
    RunAnalysis(String),
    CountTokens(String),
    Exit,
}

/// The worker's state machine. A disconnected command channel is handled
/// by the embedding loop exactly like `Shutdown`: it is observed only
/// between commands, never inside a run.
pub struct WorkerSession {
    state: WorkerState,
}

impl WorkerSession {
    pub closed spec fn state_spec(&self) -> WorkerState {
        self.state
    }

    /// A fresh worker is loading its engine and not yet ready.
    pub fn new() -> (s: WorkerSession)
        ensures
            s.state_spec() == WorkerState::Loading,
    {
        WorkerSession { state: WorkerState::Loading }
    }

    pub fn state(&self) -> (st: WorkerState)
        ensures
            st == self.state_spec(),
    {
        self.state
    }

    /// Outcome of constructing the inference engine. On success the worker
    /// announces the model and becomes ready; on failure it reports the
    /// error once and stops without ever reaching `Ready`.
    pub fn on_model_load(&mut self, outcome: Result<(), String>) -> (msg: WorkerMessage)
        requires
            old(self).state_spec() == WorkerState::Loading,
        ensures
            match outcome {
                Result::Ok(_) => {
                    &&& msg == WorkerMessage::ModelLoaded
                    &&& final(self).state_spec() == WorkerState::Ready
                },
                Result::Err(e) => {
                    &&& msg == WorkerMessage::Error(e)
                    &&& final(self).state_spec() == WorkerState::Stopped
                },
            },
    {
        match outcome {
            Result::Ok(_) => {
                self.state = WorkerState::Ready;
                WorkerMessage::ModelLoaded
            },
            Result::Err(e) => {
                self.state = WorkerState::Stopped;
                WorkerMessage::Error(e)
            },
        }
    }

    /// Accept the next command while idle. `Analyze` announces `Started`
    /// at once and moves to `Analyzing`; `Tokenize` stays ready and only
    /// asks for a count; `Shutdown` stops the worker, which emits nothing
    /// further.
    pub fn on_command(&mut self, cmd: WorkerCommand) -> (r: (Option<WorkerMessage>, Directive))
        requires
            old(self).state_spec() == WorkerState::Ready,
        ensures
            match cmd {
                WorkerCommand::Analyze(text) => {
                    &&& r.0 == Option::Some(WorkerMessage::Started)
                    &&& r.1 == Directive::RunAnalysis(text)
                    &&& final(self).state_spec() == WorkerState::Analyzing
                },
                WorkerCommand::Tokenize(text) => {
                    &&& r.0 is None
                    &&& r.1 == Directive::CountTokens(text)
                    &&& final(self).state_spec() == WorkerState::Ready
                },
                WorkerCommand::Shutdown => {
                    &&& r.0 is None
                    &&& r.1 == Directive::Exit
                    &&& final(self).state_spec() == WorkerState::Stopped
                },
            },
    {
        match cmd {
            WorkerCommand::Analyze(text) => {
                self.state = WorkerState::Analyzing;
                (Option::Some(WorkerMessage::Started), Directive::RunAnalysis(text))
            },
            WorkerCommand::Tokenize(text) => {
                (Option::None, Directive::CountTokens(text))
            },
            WorkerCommand::Shutdown => {
                self.state = WorkerState::Stopped;
                (Option::None, Directive::Exit)
            },
        }
    }

    /// A progress report for the run in flight. It can only be emitted
    /// while analyzing — after `Started`, before the terminal message — so
    /// FIFO delivery puts every `Progress` between the two.
    pub fn progress_message(&self, current: usize, total: usize) -> (msg: WorkerMessage)
        requires
            self.state_spec() == WorkerState::Analyzing,
        ensures
            msg == (WorkerMessage::Progress { current, total }),
    {
        WorkerMessage::Progress { current, total }
    }

    /// End the run in flight with its single terminal message: `Completed`
    /// with the whole result, or `Error` with the failure's description —
    /// never both, never partial results. The worker is ready again either
    /// way.
    pub fn finish_analysis(&mut self, outcome: Result<AnalysisResult, String>) -> (msg:
        WorkerMessage)
        requires
            old(self).state_spec() == WorkerState::Analyzing,
        ensures
            final(self).state_spec() == WorkerState::Ready,
            match outcome {
                Result::Ok(result) => msg == WorkerMessage::Completed(result),
                Result::Err(e) => msg == WorkerMessage::Error(e),
            },
    {
        self.state = WorkerState::Ready;
        match outcome {
            Result::Ok(result) => WorkerMessage::Completed(result),
            Result::Err(e) => WorkerMessage::Error(e),
        }
    }
}

/// The answer to a `Tokenize` command. Token counting is advisory
/// feedback, so a tokenizer failure is reported as a count of zero, never
/// as an error.
pub fn token_count_message(outcome: Result<usize, String>) -> (msg: WorkerMessage)
    ensures
        match outcome {
            Result::Ok(n) => msg == WorkerMessage::TokenCount(n),
            Result::Err(_) => msg == WorkerMessage::TokenCount(0),
        },
{
    match outcome {
        Result::Ok(n) => WorkerMessage::TokenCount(n),
        Result::Err(_) => WorkerMessage::TokenCount(0),
    }
}

} // verus!
