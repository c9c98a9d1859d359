//! The caller's side of the worker protocol: the state a front end keeps
//! about the worker, and how each received message updates it.
//!
//! The front end polls its message channel opportunistically and feeds
//! every message through `apply_message`; it never blocks on the worker.

use vstd::prelude::*;
use crate::result::AnalysisResult;
use crate::worker::WorkerMessage;

verus! {

/// What the caller knows about the worker. `progress` holds the last
/// reported `(current, total)` pair while an analysis is in flight.
pub struct CallerState {
    pub is_loading_model: bool,
    pub is_analyzing: bool,
    pub progress: Option<(usize, usize)>,
    pub token_count: Option<usize>,
    pub analysis_result: Option<AnalysisResult>,
    pub error_message: Option<String>,
}

impl CallerState {
    /// Before any worker exists: nothing loading, nothing known.
    pub fn new() -> (s: CallerState)
        ensures
            !s.is_loading_model,
            !s.is_analyzing,
            s.progress is None,
            s.token_count is None,
            s.analysis_result is None,
            s.error_message is None,
    {
        CallerState {
            is_loading_model: false,
            is_analyzing: false,
            progress: Option::None,
            token_count: Option::None,
            analysis_result: Option::None,
            error_message: Option::None,
        }
    }

    /// A new worker is being spawned for a freshly chosen model: stale
    /// errors and results are cleared while the model loads.
    pub fn on_model_load_requested(&mut self)
        ensures
            final(self).is_loading_model,
            final(self).error_message is None,
            final(self).analysis_result is None,
            final(self).is_analyzing == old(self).is_analyzing,
            final(self).progress == old(self).progress,
            final(self).token_count == old(self).token_count,
    {
        self.is_loading_model = true;
        self.error_message = Option::None;
        self.analysis_result = Option::None;
    }

    /// An `Analyze` command is about to be sent: any stale error is
    /// cleared and progress starts at nothing done.
    pub fn on_analysis_requested(&mut self)
        ensures
            final(self).is_analyzing,
            final(self).progress == Option::Some((0usize, 0usize)),
            final(self).error_message is None,
            final(self).is_loading_model == old(self).is_loading_model,
            final(self).token_count == old(self).token_count,
            final(self).analysis_result == old(self).analysis_result,
    {
        self.is_analyzing = true;
        self.progress = Option::Some((0, 0));
        self.error_message = Option::None;
    }

    /// Fold one worker message into the caller's state.
    pub fn apply_message(&mut self, msg: WorkerMessage)
        ensures
            match msg {
                WorkerMessage::ModelLoaded => {
                    &&& !final(self).is_loading_model
                    &&& final(self).is_analyzing == old(self).is_analyzing
                    &&& final(self).progress == old(self).progress
                    &&& final(self).token_count == old(self).token_count
                    &&& final(self).analysis_result == old(self).analysis_result
                    &&& final(self).error_message == old(self).error_message
                },
                WorkerMessage::Started => {
                    &&& final(self).is_analyzing
                    &&& final(self).progress == Option::Some((0usize, 0usize))
                    &&& final(self).is_loading_model == old(self).is_loading_model
                    &&& final(self).token_count == old(self).token_count
                    &&& final(self).analysis_result == old(self).analysis_result
                    &&& final(self).error_message == old(self).error_message
                },
                WorkerMessage::Progress { current, total } => {
                    &&& final(self).progress == Option::Some((current, total))
                    &&& final(self).is_loading_model == old(self).is_loading_model
                    &&& final(self).is_analyzing == old(self).is_analyzing
                    &&& final(self).token_count == old(self).token_count
                    &&& final(self).analysis_result == old(self).analysis_result
                    &&& final(self).error_message == old(self).error_message
                },
                WorkerMessage::TokenCount(n) => {
                    &&& final(self).token_count == Option::Some(n)
                    &&& final(self).is_loading_model == old(self).is_loading_model
                    &&& final(self).is_analyzing == old(self).is_analyzing
                    &&& final(self).progress == old(self).progress
                    &&& final(self).analysis_result == old(self).analysis_result
                    &&& final(self).error_message == old(self).error_message
                },
                WorkerMessage::Completed(result) => {
                    &&& final(self).analysis_result == Option::Some(result)
                    &&& !final(self).is_analyzing
                    &&& final(self).progress is None
                    &&& final(self).is_loading_model == old(self).is_loading_model
                    &&& final(self).token_count == old(self).token_count
                    &&& final(self).error_message == old(self).error_message
                },
                WorkerMessage::Error(e) => {
                    &&& final(self).error_message == Option::Some(e)
                    &&& !final(self).is_analyzing
                    &&& !final(self).is_loading_model
                    &&& final(self).progress is None
                    &&& final(self).token_count == old(self).token_count
                    &&& final(self).analysis_result == old(self).analysis_result
                },
            },
    {
        match msg {
            WorkerMessage::ModelLoaded => {
                self.is_loading_model = false;
            },
            WorkerMessage::Started => {
                self.is_analyzing = true;
                self.progress = Option::Some((0, 0));
            },
            WorkerMessage::Progress { current, total } => {
                self.progress = Option::Some((current, total));
            },
            WorkerMessage::TokenCount(n) => {
                self.token_count = Option::Some(n);
            },
            WorkerMessage::Completed(result) => {
                self.analysis_result = Option::Some(result);
                self.is_analyzing = false;
                self.progress = Option::None;
            },
            WorkerMessage::Error(e) => {
                self.error_message = Option::Some(e);
                self.is_analyzing = false;
                self.is_loading_model = false;
                self.progress = Option::None;
            },
        }
    }

    /// Whether a new analysis may start: a model is chosen, there is text
    /// to analyze, no model is still loading, and a worker is attached.
    pub fn can_analyze(&self, has_model: bool, input_empty: bool, has_worker: bool) -> (r: bool)
        ensures
            r == (has_model && !input_empty && !self.is_loading_model && has_worker),
    {
        has_model && !input_empty && !self.is_loading_model && has_worker
    }
}

} // verus!
