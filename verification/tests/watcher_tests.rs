use prec::debounce::Throttler;
use prec::driver::{step, Action};
use prec::event::{classify, ConsoleEvent, LineClass};
use prec::tail::LogTail;
use prec::text::{contains_str, join_path, split_spaces_str, trim_line};

#[test]
fn unmatched_lines_yield_nothing() {
    assert_eq!(classify(""), LineClass::Nothing);
    assert_eq!(classify("hello world"), LineClass::Nothing);
    assert_eq!(classify("Connected to 192.0.2.1:27015"), LineClass::Nothing);
    assert_eq!(classify("[P-REC] something unrelated"), LineClass::Nothing);
}

#[test]
fn record_markers_yield_record() {
    assert_eq!(
        classify("[SOAP] Soap DM unloaded."),
        LineClass::Event(ConsoleEvent::Record)
    );
    assert_eq!(
        classify("[P-REC] Recording..."),
        LineClass::Event(ConsoleEvent::Record)
    );
    assert_eq!(
        classify("12:00 [P-REC] Recording... demoname"),
        LineClass::Event(ConsoleEvent::Record)
    );
}

#[test]
fn stop_markers_yield_stop() {
    assert_eq!(
        classify("[LogsTF] Uploading logs..."),
        LineClass::Event(ConsoleEvent::Stop)
    );
    assert_eq!(
        classify("[P-REC] Stop record."),
        LineClass::Event(ConsoleEvent::Stop)
    );
}

#[test]
fn record_rule_wins_over_stop_rule() {
    // The rule table is ordered; a line somehow matching both emits Record.
    assert_eq!(
        classify("[P-REC] Recording... [P-REC] Stop record."),
        LineClass::Event(ConsoleEvent::Record)
    );
}

#[test]
fn commands_are_fixed() {
    assert_eq!(ConsoleEvent::Record.command(), "ds_record");
    assert_eq!(ConsoleEvent::Stop.command(), "ds_stop");
}

#[test]
fn same_event_within_window_is_suppressed() {
    let mut t = Throttler::new(7500);
    assert_eq!(t.debounce(ConsoleEvent::Record, 0), Some(ConsoleEvent::Record));
    assert_eq!(t.debounce(ConsoleEvent::Record, 1000), None);
}

#[test]
fn same_event_after_window_is_emitted() {
    let mut t = Throttler::new(7500);
    assert_eq!(t.debounce(ConsoleEvent::Record, 0), Some(ConsoleEvent::Record));
    assert_eq!(
        t.debounce(ConsoleEvent::Record, 8000),
        Some(ConsoleEvent::Record)
    );
}

#[test]
fn direction_change_is_immediate() {
    let mut t = Throttler::new(7500);
    assert_eq!(t.debounce(ConsoleEvent::Record, 0), Some(ConsoleEvent::Record));
    assert_eq!(t.debounce(ConsoleEvent::Stop, 10), Some(ConsoleEvent::Stop));
    // And back again, still with no delay.
    assert_eq!(t.debounce(ConsoleEvent::Record, 20), Some(ConsoleEvent::Record));
}

#[test]
fn suppressed_occurrences_do_not_move_the_window() {
    let mut t = Throttler::new(7500);
    assert_eq!(t.debounce(ConsoleEvent::Record, 0), Some(ConsoleEvent::Record));
    // Suppressed: 1000 - 0 < 7500.
    assert_eq!(t.debounce(ConsoleEvent::Record, 1000), None);
    // Still judged against t=0, not t=1000: 7400 - 0 < 7500.
    assert_eq!(t.debounce(ConsoleEvent::Record, 7400), None);
    // 8000 - 0 >= 7500; had the occurrence at t=1000 reset the window,
    // 8000 - 1000 < 7500 would suppress this one.
    assert_eq!(
        t.debounce(ConsoleEvent::Record, 8000),
        Some(ConsoleEvent::Record)
    );
    assert_eq!(t.last, Some((ConsoleEvent::Record, 8000)));
}

#[test]
fn mixed_trace_never_repeats_a_tag_within_the_window() {
    let mut t = Throttler::new(7500);
    let trace = [
        (ConsoleEvent::Record, 0),
        (ConsoleEvent::Record, 100),
        (ConsoleEvent::Stop, 200),
        (ConsoleEvent::Stop, 300),
        (ConsoleEvent::Record, 400),
        (ConsoleEvent::Record, 8000),
    ];
    let mut emitted = Vec::new();
    for (event, at) in trace {
        if let Some(e) = t.debounce(event, at) {
            emitted.push((e, at));
        }
    }
    assert_eq!(
        emitted,
        vec![
            (ConsoleEvent::Record, 0),
            (ConsoleEvent::Stop, 200),
            (ConsoleEvent::Record, 400),
            (ConsoleEvent::Record, 8000),
        ]
    );
    // Consecutive same-tag emissions are at least the window apart.
    for pair in emitted.windows(2) {
        if pair[0].0 == pair[1].0 {
            assert!(pair[1].1 - pair[0].1 >= 7500);
        }
    }
}

#[test]
fn scenario_record_line_dispatches_record() {
    let mut t = Throttler::new(7500);
    let a = step(&mut t, "[P-REC] Recording...\n", 0);
    assert_eq!(a, Action::Dispatch(ConsoleEvent::Record));
    assert_eq!(ConsoleEvent::Record.command(), "ds_record");
}

#[test]
fn scenario_stop_right_after_record_dispatches_both() {
    let mut t = Throttler::new(7500);
    assert_eq!(
        step(&mut t, "[P-REC] Recording...", 0),
        Action::Dispatch(ConsoleEvent::Record)
    );
    let a = step(&mut t, "[LogsTF] Uploading logs...", 10);
    assert_eq!(a, Action::Dispatch(ConsoleEvent::Stop));
    assert_eq!(ConsoleEvent::Stop.command(), "ds_stop");
}

#[test]
fn scenario_demo_line_hands_out_joined_path() {
    let mut t = Throttler::new(7500);
    let a = step(&mut t, "(Demo Support) End recording match-01.dem", 0);
    let name = match a {
        Action::Demo(name) => name,
        other => panic!("expected a demo action, got {:?}", other),
    };
    assert_eq!(name, "match-01.dem");
    assert_eq!(
        join_path("/games/tf", &name),
        "/games/tf/match-01.dem"
    );
    // The throttler saw no event.
    assert_eq!(t.last, None);
}

#[test]
fn demo_line_without_a_file_name_is_ignored() {
    assert_eq!(classify("(Demo Support) End recording"), LineClass::Nothing);
}

#[test]
fn demo_path_field_position_is_fixed() {
    assert_eq!(
        classify("(Demo Support) End recording demos/am_42.dem extra words"),
        LineClass::Demo(String::from("demos/am_42.dem"))
    );
}

#[test]
fn absolute_demo_name_stands_on_its_own() {
    assert_eq!(join_path("/games/tf", "/tmp/x.dem"), "/tmp/x.dem");
}

#[test]
fn tail_yields_lines_in_file_order() {
    let mut tail = LogTail::new();
    assert!(!tail.observe_len(9));
    assert_eq!(tail.bytes_wanted(9), 9);
    tail.push_chunk(b"one\ntwo\n!");
    assert_eq!(tail.pop_line(), Some(b"one".to_vec()));
    assert_eq!(tail.pop_line(), Some(b"two".to_vec()));
    // The last byte is an incomplete line: nothing more yet.
    assert_eq!(tail.pop_line(), None);
    assert_eq!(tail.pos, 9);
    // The line arrives once its line feed does.
    tail.push_chunk(b"?\n");
    assert_eq!(tail.pop_line(), Some(b"!?".to_vec()));
}

#[test]
fn tail_restarts_after_truncation() {
    let mut tail = LogTail::new();
    tail.observe_len(11);
    tail.push_chunk(b"one\ntwo\npar");
    assert_eq!(tail.pop_line(), Some(b"one".to_vec()));
    assert_eq!(tail.pop_line(), Some(b"two".to_vec()));
    assert_eq!(tail.pop_line(), None);
    // The file was replaced by a shorter one: the cursor stands past its end.
    assert!(tail.observe_len(2));
    assert_eq!(tail.pos, 0);
    // Reading resumes from the start of the new content; the stale partial
    // line is gone.
    assert_eq!(tail.bytes_wanted(2), 2);
    tail.push_chunk(b"x\n");
    assert_eq!(tail.pop_line(), Some(b"x".to_vec()));
}

#[test]
fn trim_removes_leading_and_trailing_blanks() {
    assert_eq!(trim_line("  a b \r\n"), "a b");
    assert_eq!(trim_line("\t\t"), "");
    assert_eq!(trim_line("plain"), "plain");
    assert_eq!(trim_line(""), "");
}

#[test]
fn step_trims_before_classifying() {
    let mut t = Throttler::new(7500);
    let a = step(&mut t, "   (Demo Support) End recording match-01.dem\r\n", 0);
    assert_eq!(a, Action::Demo(String::from("match-01.dem")));
}

#[test]
fn contains_finds_substrings() {
    assert!(contains_str("abcdef", "cde"));
    assert!(contains_str("abcdef", ""));
    assert!(contains_str("abcdef", "abcdef"));
    assert!(!contains_str("abcdef", "cdf"));
    assert!(!contains_str("ab", "abc"));
}

#[test]
fn split_keeps_empty_fields() {
    assert_eq!(split_spaces_str("a  b c"), vec!["a", "", "b", "c"]);
    assert_eq!(split_spaces_str(""), vec![""]);
    assert_eq!(split_spaces_str(" x"), vec!["", "x"]);
}
