//! One turn of the main loop, step by step: what the app does, and what it wants to know next.

use vstd::prelude::*;
use vstd::string::*;

use crate::app;
use crate::app::backend;
use crate::app::tokens;
use crate::app::{App, AppView};
use crate::path::{FilePath, PathView};
use crate::token_totals;
use crate::types::{Backend, BackendResult};

verus! {

/// What has happened in a turn.
#[derive(Debug)]
pub enum TurnEvent {
    /// The input of the user has been handled; whether the app goes on
    InputHandled(bool),
    /// The repomix download has ended, with an error where there was one
    Downloaded(Option<String>),
    /// The counting results that have come in
    TokenResults(Vec<(FilePath, usize)>),
    /// The results of backend runs that have come in
    BackendResults(Vec<BackendResult>),
}

/// The mathematical value of a [`TurnEvent`].
pub enum TurnView {
    InputHandled(bool),
    Downloaded(Option<Seq<char>>),
    TokenResults(Seq<(PathView, usize)>),
    BackendResults(Seq<BackendResult>),
}

impl View for TurnEvent {
    type V = TurnView;

    open spec fn view(&self) -> TurnView {
        match self {
            TurnEvent::InputHandled(go_on) => TurnView::InputHandled(*go_on),
            TurnEvent::Downloaded(error) => TurnView::Downloaded(backend::error_view(*error)),
            TurnEvent::TokenResults(results) => TurnView::TokenResults(
                tokens::results_view(results@),
            ),
            TurnEvent::BackendResults(results) => TurnView::BackendResults(results@),
        }
    }
}

/// What is to be done next in a turn.
#[derive(Debug, Clone, Copy, PartialEq, Eq, Structural)]
pub enum TurnAction {
    /// Leave the loop
    Stop,
    /// Begin the next turn
    NextTurn,
    /// Carry the repomix download through
    Download,
    /// Look for counting results
    ReceiveTokenResults,
    /// Look for results of backend runs
    ReceiveBackendResults,
}

/// Whether the repomix download is to be carried through.
pub open spec fn wants_download(v: AppView) -> bool {
    v.state.options.backend is Repomix && v.repomix->0.status is Downloading
}

/// The app after a step of a turn, and what is to be done next. A step that changes what the
/// screen shows ends the turn.
pub open spec fn turn(v: AppView, event: TurnView, now: u64) -> (AppView, TurnAction) {
    match event {
        TurnView::InputHandled(go_on) => if !go_on {
            (v, TurnAction::Stop)
        } else {
            let w = app::periodically_updated(v, now);
            (
                w,
                if wants_download(w) {
                    TurnAction::Download
                } else {
                    TurnAction::ReceiveTokenResults
                },
            )
        },
        TurnView::Downloaded(error) => (
            backend::download_ended(v, error, now),
            if v.repomix->0.status is Downloading {
                TurnAction::NextTurn
            } else {
                TurnAction::ReceiveTokenResults
            },
        ),
        TurnView::TokenResults(results) => (
            tokens::results_processed(v, results, now),
            if results.len() > 0 {
                TurnAction::NextTurn
            } else {
                TurnAction::ReceiveBackendResults
            },
        ),
        TurnView::BackendResults(results) => if backend::counting_result(
            results,
            v.current_request_id,
        ) is Some {
            (backend::backend_results_processed(v, results, now), TurnAction::NextTurn)
        } else if v.should_quit {
            (v, TurnAction::Stop)
        } else {
            (AppView { last_update: now, ..v }, TurnAction::NextTurn)
        },
    }
}

/// What the results of a turn must meet: the sums stay within range, and a message that is to be
/// shortened can be cut.
pub open spec fn acceptable(v: AppView, event: TurnView) -> bool {
    match event {
        TurnView::InputHandled(_) => true,
        TurnView::Downloaded(_) => v.repomix is Some,
        TurnView::TokenResults(results) => token_totals::fits(
            v.state.tree,
            v.state.order,
            tokens::with_results(v.state.counts, results),
        ),
        TurnView::BackendResults(results) => backend::counting_result(
            results,
            v.current_request_id,
        ) matches Some(result) ==> result.success ==> backend::can_be_shortened(result.message@),
    }
}

impl App {
    /// Takes the next step of a turn of the main loop.
    pub fn turn_step(&mut self, event: TurnEvent, now: u64) -> (r: TurnAction)
        requires
            old(self).wf(),
            acceptable(old(self)@, event@),
        ensures
            final(self).wf(),
            (final(self)@, r) == turn(old(self)@, event@, now),
    {
        match event {
            TurnEvent::InputHandled(go_on) => {
                if !go_on {
                    return TurnAction::Stop;
                }
                self.periodic_update(now);
                if self.needs_download() {
                    TurnAction::Download
                } else {
                    TurnAction::ReceiveTokenResults
                }
            },
            TurnEvent::Downloaded(error) => {
                if self.update_repomix_download(error, now) {
                    TurnAction::NextTurn
                } else {
                    TurnAction::ReceiveTokenResults
                }
            },
            TurnEvent::TokenResults(results) => {
                assert(tokens::results_view(results@).len() == results@.len());
                if self.process_token_results(&results, now) {
                    TurnAction::NextTurn
                } else {
                    TurnAction::ReceiveBackendResults
                }
            },
            TurnEvent::BackendResults(results) => self.finish_turn(&results, now),
        }
    }

    /// Whether the repomix download is to be carried through.
    fn needs_download(&self) -> (r: bool)
        requires
            self.wf(),
        ensures
            r == wants_download(self@),
    {
        match self.state.repomix_options.backend {
            Backend::Yek => false,
            Backend::Repomix => match &self.repomix {
                Some(manager) => manager.is_downloading(),
                None => false,
            },
        }
    }

    /// Ends a turn with the results of backend runs that have come in.
    fn finish_turn(&mut self, results: &Vec<BackendResult>, now: u64) -> (r: TurnAction)
        requires
            old(self).wf(),
            acceptable(old(self)@, TurnView::BackendResults(results@)),
        ensures
            final(self).wf(),
            (final(self)@, r) == turn(old(self)@, TurnView::BackendResults(results@), now),
    {
        if self.process_backend_results(results, now) {
            return TurnAction::NextTurn;
        }
        if self.should_quit {
            return TurnAction::Stop;
        }
        self.last_update = now;
        TurnAction::NextTurn
    }
}

} // verus!
