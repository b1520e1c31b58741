//! Reflex evaluation and supervision engine: pluggable monitors that watch a
//! stream of structured events and turn anomalies into alert or halt
//! control messages.
use vstd::prelude::*;

pub mod agent;
pub mod bus;
pub mod content;
pub mod json;
pub mod monitor;
pub mod supervisor;
pub mod text;

use crate::json::JsonValue;

verus! {

/// An observed occurrence. Reflexes only ever borrow it immutably.
#[derive(Debug, Clone)]
pub struct Envelope {
    /// Unique identifier, assigned by the origin.
    pub id: String,
    /// Subject or topic the event was published under.
    pub subject: String,
    /// Origination time in epoch milliseconds.
    pub ts_ms: u64,
    /// Structured metadata.
    pub headers: JsonValue,
    /// Structured payload.
    pub body: JsonValue,
}

/// The subjects the supervisor observes and publishes control messages to.
#[derive(Debug, Clone)]
pub struct ReflexSubjects {
    /// Subject pattern that all reflexes observe.
    pub all_events_subject: String,
    /// Subject that alerts and halts are published to.
    pub control_subject: String,
}

impl Default for ReflexSubjects {
    /// `fabric.events.*` observed, `fabric.control` for control messages.
    fn default() -> (r: ReflexSubjects)
        ensures
            r.all_events_subject@ == "fabric.events.*"@,
            r.control_subject@ == "fabric.control"@,
    {
        ReflexSubjects {
            all_events_subject: String::from_str("fabric.events.*"),
            control_subject: String::from_str("fabric.control"),
        }
    }
}

/// The verdict of one evaluation, in increasing severity.
#[derive(Debug, Clone)]
pub enum ReflexAction {
    /// No action.
    Continue,
    /// A non-fatal anomaly.
    Alert(String),
    /// A fatal policy breach that needs outside intervention.
    Halt(String),
}

/// The mathematical form of a [`ReflexAction`].
pub ghost enum ActionView {
    Continue,
    Alert(Seq<char>),
    Halt(Seq<char>),
}

impl View for ReflexAction {
    type V = ActionView;

    open spec fn view(&self) -> ActionView {
        match self {
            ReflexAction::Continue => ActionView::Continue,
            ReflexAction::Alert(s) => ActionView::Alert(s@),
            ReflexAction::Halt(s) => ActionView::Halt(s@),
        }
    }
}

impl PartialEq for ReflexAction {
    fn eq(&self, other: &ReflexAction) -> (r: bool)
        ensures
            r == (self@ == other@),
    {
        match self {
            ReflexAction::Continue => match other {
                ReflexAction::Continue => true,
                _ => false,
            },
            ReflexAction::Alert(a) => match other {
                ReflexAction::Alert(b) => *a == *b,
                _ => false,
            },
            ReflexAction::Halt(a) => match other {
                ReflexAction::Halt(b) => *a == *b,
                _ => false,
            },
        }
    }
}

impl vstd::std_specs::cmp::PartialEqSpecImpl for ReflexAction {
    open spec fn obeys_eq_spec() -> bool {
        true
    }

    open spec fn eq_spec(&self, other: &ReflexAction) -> bool {
        self@ == other@
    }
}

impl Eq for ReflexAction {

}

/// Failures that a reflex or the supervisor's transport can report.
#[derive(Debug, Clone)]
pub enum ReflexError {
    /// The observation stream could not be established.
    Subscription(String),
    /// A control message could not be delivered.
    Bus(String),
    /// A monitor's own hook failed.
    Internal(String),
}

/// The mathematical form of a [`ReflexError`].
pub ghost enum ErrorView {
    Subscription(Seq<char>),
    Bus(Seq<char>),
    Internal(Seq<char>),
}

impl View for ReflexError {
    type V = ErrorView;

    open spec fn view(&self) -> ErrorView {
        match self {
            ReflexError::Subscription(s) => ErrorView::Subscription(s@),
            ReflexError::Bus(s) => ErrorView::Bus(s@),
            ReflexError::Internal(s) => ErrorView::Internal(s@),
        }
    }
}

impl ReflexError {
    /// A one-line description, such as `internal error: <detail>`.
    pub fn message(&self) -> (r: String)
        ensures
            r@ == error_text(self@),
    {
        let (mut out, detail) = match self {
            ReflexError::Subscription(s) => (String::from_str("subscription error: "), s),
            ReflexError::Bus(s) => (String::from_str("bus publish error: "), s),
            ReflexError::Internal(s) => (String::from_str("internal error: "), s),
        };
        out.append(detail.as_str());
        out
    }
}

/// The text of [`ReflexError::message`].
pub open spec fn error_text(e: ErrorView) -> Seq<char> {
    match e {
        ErrorView::Subscription(s) => "subscription error: "@ + s,
        ErrorView::Bus(s) => "bus publish error: "@ + s,
        ErrorView::Internal(s) => "internal error: "@ + s,
    }
}

/// What one hook call produced, in mathematical form.
pub open spec fn outcome_view(r: Result<ReflexAction, ReflexError>) -> Result<ActionView, ErrorView> {
    match r {
        Ok(a) => Ok(a@),
        Err(e) => Err(e@),
    }
}

/// A named, stateful monitor. Its behaviour is given by two step functions on
/// its abstract state, one per hook; each hook call follows its step function.
pub trait Reflex: View + Sized {
    /// The reflex's name, used to attribute its verdicts.
    spec fn spec_name(&self) -> Seq<char>;

    /// State after, and outcome of, observing `evt` at time `now_ms`.
    spec fn event_step(state: Self::V, evt: Envelope, now_ms: u64) -> (Self::V, Result<ActionView, ErrorView>);

    /// State after, and outcome of, a periodic tick at time `now_ms`.
    spec fn tick_step(state: Self::V, now_ms: u64) -> (Self::V, Result<ActionView, ErrorView>);

    /// The canonical name of the reflex.
    fn name(&self) -> (r: &'static str)
        ensures
            r@ == self.spec_name(),
    ;

    /// Evaluates an observed event at time `now_ms` (epoch milliseconds).
    fn on_event(&mut self, evt: &Envelope, now_ms: u64) -> (r: Result<ReflexAction, ReflexError>)
        ensures
            final(self)@ == Self::event_step(old(self)@, *evt, now_ms).0,
            outcome_view(r) == Self::event_step(old(self)@, *evt, now_ms).1,
            final(self).spec_name() == old(self).spec_name(),
    ;

    /// Periodic housekeeping at time `now_ms` (epoch milliseconds).
    fn on_tick(&mut self, now_ms: u64) -> (r: Result<ReflexAction, ReflexError>)
        ensures
            final(self)@ == Self::tick_step(old(self)@, now_ms).0,
            outcome_view(r) == Self::tick_step(old(self)@, now_ms).1,
            final(self).spec_name() == old(self).spec_name(),
    ;
}

} // verus!
