//! Tracks which of a set of known game executables are currently running on a
//! Windows machine, and which one owns the foreground window.
//!
//! The crate holds the verified core of the monitor: the session tracker that
//! applies process start/stop events to its running table, the path-pattern
//! lookup, the foreground-attribution debouncer, the kernel-trace record
//! decoder, and the toast-notification builder.  The operating-system event
//! sources themselves (trace sessions, instrumentation subscriptions, window
//! hooks) live outside the library and hand it plain values.

pub mod digits;
pub mod text;
pub mod events;
pub mod paths;
pub mod registry;
pub mod tracker;
pub mod foreground;
pub mod etw;
pub mod ntpath;
pub mod notification;
pub mod backend;
