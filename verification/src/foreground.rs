//! The foreground attribution debouncer.
//!
//! Raw foreground-window-change notifications (a pid, or 0 when the window
//! is inaccessible) are cross-referenced against the tracker's running
//! table.  The state is either idle or attributed to one tracked pid.  Each
//! state change cancels the outstanding delay timer and arms a fresh one;
//! only when a timer fires undisturbed is the consumer told, so rapid
//! alt-tab sequences collapse into a single callback reflecting the last
//! stable state.  The timer itself runs outside the library: a state change
//! hands the caller the payload to arm, and the caller reports back when an
//! uncancelled timer fires.

use vstd::prelude::*;

use crate::tracker::{live_game_for_pid, EntryModel, GameManager};

verus! {

/// Mathematical model of the debouncer state.
#[verifier::ext_equal]
pub struct ForegroundModel {
    pub attributed_pid: u32,
    pub attributed_id: Seq<char>,
    pub pending: Option<Seq<char>>,
    pub wait_time: u64,
    pub self_pid: u32,
}

/// The payload a fired timer must report for the current state: the
/// attributed game id, or the empty sentinel when idle.
pub open spec fn fg_payload(fg: ForegroundModel) -> Seq<char> {
    if fg.attributed_pid == 0 {
        Seq::empty()
    } else {
        fg.attributed_id
    }
}

/// Coherence: an armed timer always carries the payload of the current
/// state, so a callback that fires reflects the last stable state.
pub open spec fn fg_coherent(fg: ForegroundModel) -> bool {
    match fg.pending {
        Some(p) => p == fg_payload(fg),
        None => true,
    }
}

/// The state after one raw foreground notification, resolved against the
/// running table.
///
/// Notifications from the monitor's own helper process are ignored, and a
/// pid of 0 stands for an inaccessible window.  A pid with a live tracked
/// instance attributes the foreground to it, unless it already is; any
/// other notification moves to idle, unless already idle.  Every state
/// change arms a fresh timer carrying the new payload.
pub open spec fn fg_step(
    fg: ForegroundModel,
    running: Seq<EntryModel>,
    pid: u32,
) -> ForegroundModel {
    if fg.self_pid != 0 && pid == fg.self_pid {
        fg
    } else if pid != 0 && live_game_for_pid(running, pid) is Some {
        if fg.attributed_pid == pid {
            fg
        } else {
            ForegroundModel {
                attributed_pid: pid,
                attributed_id: live_game_for_pid(running, pid)->Some_0,
                pending: Some(live_game_for_pid(running, pid)->Some_0),
                ..fg
            }
        }
    } else {
        if fg.attributed_pid == 0 {
            fg
        } else {
            ForegroundModel {
                attributed_pid: 0,
                attributed_id: Seq::empty(),
                pending: Some(Seq::empty()),
                ..fg
            }
        }
    }
}

/// The timer payload a notification arms, if it changes the state.
pub open spec fn fg_arms(
    fg: ForegroundModel,
    running: Seq<EntryModel>,
    pid: u32,
) -> Option<Seq<char>> {
    if fg_step(fg, running, pid) == fg {
        None
    } else {
        fg_step(fg, running, pid).pending
    }
}

/// Law: one notification keeps the armed timer coherent with the state.
pub proof fn lemma_fg_step_coherent(fg: ForegroundModel, running: Seq<EntryModel>, pid: u32)
    requires
        fg_coherent(fg),
    ensures
        fg_coherent(fg_step(fg, running, pid)),
{
}

/// Law: rapid foreground switches debounce to a single callback that
/// reflects only the final state.  After any three notifications in a row
/// with no timer firing in between, at most one timer is armed, and the
/// payload it carries is exactly the payload of the state after the third
/// notification; firing it therefore reports the final state once, and the
/// two earlier switches report nothing.
pub proof fn lemma_debounce(
    fg: ForegroundModel,
    running: Seq<EntryModel>,
    pid1: u32,
    pid2: u32,
    pid3: u32,
)
    requires
        fg_coherent(fg),
    ensures
        ({
            let f1 = fg_step(fg, running, pid1);
            let f2 = fg_step(f1, running, pid2);
            let f3 = fg_step(f2, running, pid3);
            &&& fg_coherent(f3)
            &&& (f3.pending is Some ==> f3.pending->Some_0 == fg_payload(f3))
        }),
{
    let f1 = fg_step(fg, running, pid1);
    lemma_fg_step_coherent(fg, running, pid1);
    let f2 = fg_step(f1, running, pid2);
    lemma_fg_step_coherent(f1, running, pid2);
    lemma_fg_step_coherent(f2, running, pid3);
}

/// The foreground attribution state and its debounce timer bookkeeping.
///
/// `attributed_pid` is the pid of the tracked game owning the foreground,
/// 0 when none does.  `pending` is the payload of the outstanding delay
/// timer; at most one timer is ever outstanding, and arming a new one
/// always stands for cancelling the previous one.
pub struct ForegroundState {
    pub(crate) attributed_pid: u32,
    pub(crate) attributed_id: String,
    pub(crate) pending: Option<String>,
    pub(crate) wait_time: u64,
    pub(crate) self_pid: u32,
}

impl View for ForegroundState {
    type V = ForegroundModel;

    open(crate) spec fn view(&self) -> ForegroundModel {
        ForegroundModel {
            attributed_pid: self.attributed_pid,
            attributed_id: self.attributed_id@,
            pending: match self.pending {
                Some(p) => Some(p@),
                None => None,
            },
            wait_time: self.wait_time,
            self_pid: self.self_pid,
        }
    }
}

impl ForegroundState {
    /// A fresh idle debouncer with the default wait of 10 time units and no
    /// timer armed.
    pub fn new() -> (r: ForegroundState)
        ensures
            r@.attributed_pid == 0,
            r@.attributed_id == Seq::<char>::empty(),
            r@.pending == None::<Seq<char>>,
            r@.wait_time == 10u64,
            r@.self_pid == 0u32,
            fg_coherent(r@),
    {
        ForegroundState {
            attributed_pid: 0,
            attributed_id: String::new(),
            pending: None,
            wait_time: 10,
            self_pid: 0,
        }
    }

    /// How long a state must stay stable before the consumer hears of it.
    pub fn wait_time(&self) -> (r: u64)
        ensures
            r == self@.wait_time,
    {
        self.wait_time
    }

    /// Adjusts the debounce wait.
    pub fn set_foreground_wait_time(&mut self, wait_time: u64)
        ensures
            final(self)@ == (ForegroundModel { wait_time: wait_time, ..old(self)@ }),
    {
        self.wait_time = wait_time;
    }

    /// Names the monitor's own helper process, whose notifications are
    /// ignored.
    pub fn set_self_pid(&mut self, pid: u32)
        ensures
            final(self)@ == (ForegroundModel { self_pid: pid, ..old(self)@ }),
    {
        self.self_pid = pid;
    }

    /// Applies one raw foreground notification against the tracker's
    /// running table.  A returned payload means: cancel the outstanding
    /// delay timer and arm a fresh one that, if it fires uncancelled after
    /// `wait_time`, reports this payload to the consumer.
    pub fn handle_foreground_message(&mut self, pid: u32, gm: &GameManager) -> (armed: Option<
        String,
    >)
        ensures
            final(self)@ == fg_step(old(self)@, gm.running_models(), pid),
            match armed {
                Some(p) => fg_arms(old(self)@, gm.running_models(), pid) == Some(p@),
                None => fg_arms(old(self)@, gm.running_models(), pid) == None::<Seq<char>>,
            },
    {
        if self.self_pid != 0 && pid == self.self_pid {
            return None;
        }
        let live = if pid != 0 {
            gm.live_game_for_pid(pid)
        } else {
            None
        };
        match live {
            Some(id) => {
                if self.attributed_pid == pid {
                    proof {
                        assert(fg_step(self@, gm.running_models(), pid) =~= self@);
                    }
                    None
                } else {
                    let id_owned = id.clone();
                    self.attributed_pid = pid;
                    self.attributed_id = id_owned.clone();
                    self.pending = Some(id_owned.clone());
                    proof {
                        assert(fg_step(old(self)@, gm.running_models(), pid) != old(self)@);
                    }
                    Some(id_owned)
                }
            },
            None => {
                if self.attributed_pid == 0 {
                    proof {
                        assert(fg_step(self@, gm.running_models(), pid) =~= self@);
                    }
                    None
                } else {
                    self.attributed_pid = 0;
                    self.attributed_id = String::new();
                    self.pending = Some(String::new());
                    proof {
                        assert(fg_step(old(self)@, gm.running_models(), pid) != old(self)@);
                        assert(self@ =~= fg_step(old(self)@, gm.running_models(), pid));
                    }
                    Some(String::new())
                }
            },
        }
    }

    /// Reports that the armed delay timer fired uncancelled: the returned
    /// payload is what the consumer must now hear, and no timer stays
    /// outstanding.
    pub fn timer_fired(&mut self) -> (cb: Option<String>)
        ensures
            final(self)@ == (ForegroundModel { pending: None, ..old(self)@ }),
            (match cb {
                Some(p) => old(self)@.pending == Some(p@),
                None => old(self)@.pending == None::<Seq<char>>,
            }),
            fg_coherent(old(self)@) && (cb is Some) ==> cb->Some_0@ == fg_payload(final(self)@),
    {
        let cb = self.pending.take();
        cb
    }
}

} // verus!
