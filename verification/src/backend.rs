//! Choice of the low-level event source, and the instrumentation sink's
//! message rule.
//!
//! Two interchangeable backends observe process lifecycle events: a kernel
//! trace session, which needs elevated privilege, and a management
//! instrumentation subscription, which does not.  Exactly one is chosen at
//! startup from the current privilege level; there is no switching
//! mid-session.

use vstd::prelude::*;

use crate::events::{ProcessMessage, ProcessStatus};

verus! {

/// Which low-level event source drives the monitor.
#[derive(Clone, Copy, PartialEq, Eq, Structural, Debug)]
pub enum BackendKind {
    KernelTrace,
    Instrumentation,
}

/// Chooses the backend for the current privilege level: the kernel trace
/// when elevated, the instrumentation subscription otherwise.
pub fn select_backend(elevated: bool) -> (r: BackendKind)
    ensures
        r == (if elevated {
            BackendKind::KernelTrace
        } else {
            BackendKind::Instrumentation
        }),
{
    if elevated {
        BackendKind::KernelTrace
    } else {
        BackendKind::Instrumentation
    }
}

/// Builds the lifecycle message for one instrumentation notification: an
/// empty path (an access-denied case) yields no message at all.
pub fn make_instrumentation_message(path: String, pid: u32, started: bool) -> (r: Option<
    ProcessMessage,
>)
    ensures
        (match r {
            Some(msg) => {
                &&& path@.len() > 0
                &&& msg.path@ == path@
                &&& msg.pid == pid
                &&& msg.status == (if started {
                    ProcessStatus::Started
                } else {
                    ProcessStatus::Terminated
                })
            },
            None => path@.len() == 0,
        }),
{
    if path.as_str().unicode_len() == 0 {
        return None;
    }
    let status = if started {
        ProcessStatus::Started
    } else {
        ProcessStatus::Terminated
    };
    Some(ProcessMessage { pid: pid, status: status, path: path })
}

} // verus!
