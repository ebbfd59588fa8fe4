//! The closed set of console events and the classifier that recognizes them
//! in log lines. An ordered table of substring rules decides; the first
//! matching rule wins. One further rule recognizes the completion of a demo
//! recording and extracts the demo's file name; it yields no event, only a
//! path for the artifact post-processing collaborator.

use vstd::prelude::*;

use crate::text::{contains_seq, contains_str, split_spaces, split_spaces_str};

verus! {

/// A meaningful state transition read off the server's console log.
#[derive(Clone, Copy, Debug, PartialEq, Eq, Structural)]
pub enum ConsoleEvent {
    Record,
    Stop,
}

impl ConsoleEvent {
    /// The fixed remote-console command for this event.
    pub open spec fn spec_command(self) -> Seq<char> {
        match self {
            ConsoleEvent::Record => "ds_record"@,
            ConsoleEvent::Stop => "ds_stop"@,
        }
    }

    /// Map the event to its remote-console command string.
    pub fn command(&self) -> (r: &'static str)
        ensures
            r@ == self.spec_command(),
    {
        match self {
            ConsoleEvent::Record => "ds_record",
            ConsoleEvent::Stop => "ds_stop",
        }
    }
}

/// The event-to-command mapping is one-to-one: distinct events never share
/// a command string.
pub proof fn lemma_command_injective(a: ConsoleEvent, b: ConsoleEvent)
    ensures
        a.spec_command() == b.spec_command() ==> a == b,
{
    reveal_strlit("ds_record");
    reveal_strlit("ds_stop");
    assert("ds_record"@.len() == 9);
    assert("ds_stop"@.len() == 7);
}

/// A line signals the start of a recording.
pub open spec fn is_record_line(s: Seq<char>) -> bool {
    contains_seq(s, "[SOAP] Soap DM unloaded."@) || contains_seq(s, "[P-REC] Recording..."@)
}

/// A line signals the end of a recording.
pub open spec fn is_stop_line(s: Seq<char>) -> bool {
    contains_seq(s, "[LogsTF] Uploading logs..."@) || contains_seq(s, "[P-REC] Stop record."@)
}

/// A line signals that a demo file has been written out.
pub open spec fn is_demo_line(s: Seq<char>) -> bool {
    contains_seq(s, "(Demo Support) End recording"@)
}

/// The demo file name carried by a demo-completion line: the fifth
/// space-separated field, where the line has one.
pub open spec fn spec_demo_token(s: Seq<char>) -> Option<Seq<char>> {
    if split_spaces(s).len() > 4 {
        Some(split_spaces(s)[4])
    } else {
        None
    }
}

/// What the classifier says about one line.
#[derive(Debug, PartialEq, Eq)]
pub enum LineClass {
    /// The line signals a state transition.
    Event(ConsoleEvent),
    /// The line signals a finished demo; the payload is its file name.
    Demo(String),
    /// The line means nothing to the watcher.
    Nothing,
}

/// Classify one log line. The rules are ordered: a recording-start marker
/// wins over a recording-stop marker, which wins over the demo-completion
/// marker; a demo-completion line too short to carry a file name is treated
/// as meaningless rather than an error.
pub fn classify(line: &str) -> (r: LineClass)
    ensures
        is_record_line(line@) ==> r == LineClass::Event(ConsoleEvent::Record),
        !is_record_line(line@) && is_stop_line(line@) ==> r == LineClass::Event(
            ConsoleEvent::Stop,
        ),
        !is_record_line(line@) && !is_stop_line(line@) && is_demo_line(line@) ==> (match spec_demo_token(
            line@,
        ) {
            Some(t) => r matches LineClass::Demo(p) && p@ == t,
            None => r == LineClass::Nothing,
        }),
        !is_record_line(line@) && !is_stop_line(line@) && !is_demo_line(line@) ==> r
            == LineClass::Nothing,
{
    if contains_str(line, "[SOAP] Soap DM unloaded.") || contains_str(
        line,
        "[P-REC] Recording...",
    ) {
        LineClass::Event(ConsoleEvent::Record)
    } else if contains_str(line, "[LogsTF] Uploading logs...") || contains_str(
        line,
        "[P-REC] Stop record.",
    ) {
        LineClass::Event(ConsoleEvent::Stop)
    } else if contains_str(line, "(Demo Support) End recording") {
        let tokens = split_spaces_str(line);
        if tokens.len() > 4 {
            let tok = tokens[4];
            proof {
                assert(tokens.deep_view()[4] == tokens@[4]@);
            }
            LineClass::Demo(String::from_str(tok))
        } else {
            LineClass::Nothing
        }
    } else {
        LineClass::Nothing
    }
}

} // verus!
