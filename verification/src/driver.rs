//! One turn of the watch loop: trim the new line, classify it, put any event
//! through the debouncer, and say what the caller has to do next. The caller
//! performs the action (send the command over the remote console, hand the
//! demo path to the post-processor) and comes back with the next line.

use vstd::prelude::*;

use crate::debounce::{spec_debounce, Throttler};
use crate::event::{
    classify,
    is_demo_line,
    is_record_line,
    is_stop_line,
    spec_demo_token,
    ConsoleEvent,
    LineClass,
};
use crate::text::{trim_line, trimmed};

verus! {

/// The event a trimmed line signals, if any; recording-start markers win
/// over recording-stop markers.
pub open spec fn spec_event_of(s: Seq<char>) -> Option<ConsoleEvent> {
    if is_record_line(s) {
        Some(ConsoleEvent::Record)
    } else if is_stop_line(s) {
        Some(ConsoleEvent::Stop)
    } else {
        None
    }
}

/// What the caller of `step` has to do with the line just consumed.
#[derive(Debug, PartialEq, Eq)]
pub enum Action {
    /// Deliver this event's command over the remote console.
    Dispatch(ConsoleEvent),
    /// Hand this demo file name to the artifact post-processor.
    Demo(String),
    /// Nothing: the line meant nothing, or its event was suppressed.
    Nothing,
}

/// Consume one log line at instant `now_ms`: classify its trimmed text and
/// debounce any event it signals. The throttler changes exactly when an
/// event is emitted.
pub fn step(throttler: &mut Throttler, line: &str, now_ms: u64) -> (a: Action)
    requires
        old(throttler).arrives_after_last(now_ms),
    ensures
        ({
            let t = trimmed(line@);
            match spec_event_of(t) {
                Some(e) => if old(throttler).spec_emits(e, now_ms) {
                    a == Action::Dispatch(e) && *final(throttler) == spec_debounce(
                        *old(throttler),
                        e,
                        now_ms,
                    ).0
                } else {
                    a == Action::Nothing && *final(throttler) == *old(throttler)
                },
                None => *final(throttler) == *old(throttler) && (if is_demo_line(t) {
                    match spec_demo_token(t) {
                        Some(tok) => a matches Action::Demo(p) && p@ == tok,
                        None => a == Action::Nothing,
                    }
                } else {
                    a == Action::Nothing
                }),
            }
        }),
{
    let clean = trim_line(line);
    match classify(clean) {
        LineClass::Event(e) => match throttler.debounce(e, now_ms) {
            Some(emitted) => Action::Dispatch(emitted),
            None => Action::Nothing,
        },
        LineClass::Demo(path) => Action::Demo(path),
        LineClass::Nothing => Action::Nothing,
    }
}

} // verus!
