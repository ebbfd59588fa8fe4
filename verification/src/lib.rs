//! Core logic of a game-server log watcher: it tails a console log file,
//! classifies each new line into a small set of events, debounces bursts of
//! same-meaning events, and maps each emitted event to a fixed remote-console
//! command. All I/O (file reads, the network round trip, path discovery)
//! lives outside this crate; this crate holds the decisions.

pub mod debounce;
pub mod driver;
pub mod event;
pub mod tail;
pub mod text;
