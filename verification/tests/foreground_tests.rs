use game_monitor::events::{ProcessMessage, ProcessStatus};
use game_monitor::foreground::ForegroundState;
use game_monitor::tracker::GameManager;

fn tracker_with_two_games() -> GameManager {
    let mut gm = GameManager::new();
    gm.add_known_game(r"c:\games\alpha.exe".to_string(), "alpha".to_string());
    gm.add_known_game(r"c:\games\beta.exe".to_string(), "beta".to_string());
    gm.handle_wmi_message(ProcessMessage {
        pid: 100,
        status: ProcessStatus::Started,
        path: r"C:\Games\Alpha.exe".to_string(),
    });
    gm.handle_wmi_message(ProcessMessage {
        pid: 200,
        status: ProcessStatus::Started,
        path: r"C:\Games\Beta.exe".to_string(),
    });
    gm
}

#[test]
fn debounce_collapses_rapid_switches() {
    let gm = tracker_with_two_games();
    let mut fg = ForegroundState::new();
    assert_eq!(fg.handle_foreground_message(100, &gm), Some("alpha".to_string()));
    assert_eq!(fg.handle_foreground_message(200, &gm), Some("beta".to_string()));
    assert_eq!(fg.handle_foreground_message(100, &gm), Some("alpha".to_string()));
    // only the last armed timer survives; it reports the final state once
    assert_eq!(fg.timer_fired(), Some("alpha".to_string()));
    assert_eq!(fg.timer_fired(), None);
}

#[test]
fn same_pid_switch_is_a_no_op() {
    let gm = tracker_with_two_games();
    let mut fg = ForegroundState::new();
    assert_eq!(fg.handle_foreground_message(100, &gm), Some("alpha".to_string()));
    assert_eq!(fg.timer_fired(), Some("alpha".to_string()));
    // another window of the same game: no new timer
    assert_eq!(fg.handle_foreground_message(100, &gm), None);
    assert_eq!(fg.timer_fired(), None);
}

#[test]
fn untracked_pid_moves_to_idle_with_empty_payload() {
    let gm = tracker_with_two_games();
    let mut fg = ForegroundState::new();
    // idle already, an untracked window changes nothing
    assert_eq!(fg.handle_foreground_message(999, &gm), None);
    assert_eq!(fg.handle_foreground_message(100, &gm), Some("alpha".to_string()));
    assert_eq!(fg.handle_foreground_message(999, &gm), Some("".to_string()));
    assert_eq!(fg.timer_fired(), Some("".to_string()));
}

#[test]
fn own_helper_process_is_ignored() {
    let gm = tracker_with_two_games();
    let mut fg = ForegroundState::new();
    fg.set_self_pid(100);
    assert_eq!(fg.handle_foreground_message(100, &gm), None);
    assert_eq!(fg.timer_fired(), None);
}

#[test]
fn wait_time_is_adjustable() {
    let mut fg = ForegroundState::new();
    assert_eq!(fg.wait_time(), 10);
    fg.set_foreground_wait_time(3);
    assert_eq!(fg.wait_time(), 3);
}

#[test]
fn terminated_game_no_longer_attracts_foreground() {
    let mut gm = tracker_with_two_games();
    gm.handle_wmi_message(ProcessMessage {
        pid: 100,
        status: ProcessStatus::Terminated,
        path: r"C:\Games\Alpha.exe".to_string(),
    });
    let mut fg = ForegroundState::new();
    assert_eq!(fg.handle_foreground_message(100, &gm), None);
}
