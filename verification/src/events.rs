//! Process lifecycle events: what the event sources produce and what the
//! tracker emits to its consumer.

use vstd::prelude::*;

verus! {

/// Lifecycle status carried by a low-level process notification.
#[derive(Clone, Copy, PartialEq, Eq, Structural, Debug)]
pub enum ProcessStatus {
    Started,
    Terminated,
}

/// One normalized low-level notification: a process with this pid and
/// absolute file path started or stopped.  Produced once per operating-system
/// notification and consumed once by the tracker.
pub struct ProcessMessage {
    pub pid: u32,
    pub status: ProcessStatus,
    pub path: String,
}

/// The kind of consumer-facing event the tracker emits.
#[derive(Clone, Copy, PartialEq, Eq, Structural, Debug)]
pub enum ProcessEventType {
    Creation,
    Termination,
}

/// A consumer-facing event: a tracked game process was created or terminated.
pub struct ProcessEvent {
    pub event_type: ProcessEventType,
    pub full_path: String,
    pub pid: u32,
    pub id: String,
}

/// Mathematical model of a consumer-facing event.
pub struct EventModel {
    pub event_type: ProcessEventType,
    pub full_path: Seq<char>,
    pub pid: u32,
    pub id: Seq<char>,
}

impl View for ProcessEvent {
    type V = EventModel;

    open spec fn view(&self) -> EventModel {
        EventModel {
            event_type: self.event_type,
            full_path: self.full_path@,
            pid: self.pid,
            id: self.id@,
        }
    }
}

/// The models of a sequence of emitted events.
pub open spec fn event_models(events: Seq<ProcessEvent>) -> Seq<EventModel> {
    events.map_values(|e: ProcessEvent| e@)
}

/// A pid plus full path, as reported by a one-time snapshot of all running
/// processes; fed to the tracker as synthetic start events at startup.
pub struct ProcessInfo {
    pub pid: u32,
    pub full_path: String,
}

} // verus!
