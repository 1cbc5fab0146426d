use game_monitor::events::{ProcessEventType, ProcessInfo, ProcessMessage, ProcessStatus};
use game_monitor::tracker::GameManager;

fn started(path: &str, pid: u32) -> ProcessMessage {
    ProcessMessage { pid, status: ProcessStatus::Started, path: path.to_string() }
}

fn terminated(path: &str, pid: u32) -> ProcessMessage {
    ProcessMessage { pid, status: ProcessStatus::Terminated, path: path.to_string() }
}

#[test]
fn test_monitor() {
    let mut gm = GameManager::new();
    gm.init_known_games(
        vec![r"c:\program files\cmake\bin\cmake-gui.exe".to_string()],
        vec!["123456-abcdef".to_string()],
    );
    let not_yet = gm.is_running("C:\\Program Files\\CMake\\bin", true);
    assert!(!not_yet);
    let events = gm.handle_wmi_message(started(r"C:\Program Files\CMake\bin\cmake-gui.exe", 41));
    assert_eq!(events.len(), 1);
    assert!(gm.is_running("C:\\Program Files\\CMake\\bin", true));
    println!("is running: {}", gm.is_running("C:\\Program Files\\CMake\\bin", true));
}

#[test]
fn lookup_prefers_directory_over_full_path_and_name() {
    let mut gm = GameManager::new();
    gm.add_known_game(r"c:\games\foo".to_string(), "by-dir".to_string());
    gm.add_known_game(r"c:\games\foo\bar.exe".to_string(), "by-path".to_string());
    gm.add_known_game("bar.exe".to_string(), "by-name".to_string());
    assert_eq!(gm.get_known_game_id(r"c:\games\foo\bar.exe").unwrap().as_str(), "by-dir");
    gm.remove_known_game("by-dir");
    assert_eq!(gm.get_known_game_id(r"c:\games\foo\bar.exe").unwrap().as_str(), "by-path");
    gm.remove_known_game("by-path");
    assert_eq!(gm.get_known_game_id(r"c:\games\foo\bar.exe").unwrap().as_str(), "by-name");
    gm.remove_known_game("by-name");
    assert!(gm.get_known_game_id(r"c:\games\foo\bar.exe").is_none());
}

#[test]
fn registration_is_case_insensitive() {
    let mut gm = GameManager::new();
    gm.add_known_game(r"C:\Games\Foo.EXE".to_string(), "abc".to_string());
    let events = gm.handle_wmi_message(started(r"c:\GAMES\foo.exe", 7));
    assert_eq!(events.len(), 1);
    assert_eq!(events[0].id, "abc");
    assert_eq!(events[0].full_path, r"c:\games\foo.exe");
}

#[test]
fn duplicate_start_yields_one_creation() {
    let mut gm = GameManager::new();
    gm.add_known_game(r"c:\games\foo.exe".to_string(), "abc".to_string());
    let first = gm.handle_wmi_message(started(r"C:\Games\Foo.exe", 100));
    assert_eq!(first.len(), 1);
    assert!(matches!(first[0].event_type, ProcessEventType::Creation));
    let second = gm.handle_wmi_message(started(r"C:\Games\Foo.exe", 100));
    assert_eq!(second.len(), 0);
}

#[test]
fn stop_racing_ahead_of_start_is_swallowed() {
    let mut gm = GameManager::new();
    gm.add_known_game(r"c:\games\foo.exe".to_string(), "abc".to_string());
    let stop = gm.handle_wmi_message(terminated(r"C:\Games\Foo.exe", 100));
    assert_eq!(stop.len(), 0);
    let start = gm.handle_wmi_message(started(r"C:\Games\Foo.exe", 100));
    assert_eq!(start.len(), 0);
    assert!(!gm.is_running(r"c:\games\foo.exe", false));
}

#[test]
fn termination_by_pid_removes_every_instance() {
    let mut gm = GameManager::new();
    gm.add_known_game(r"c:\games\foo.exe".to_string(), "abc".to_string());
    gm.add_known_game(r"c:\games\bar.exe".to_string(), "xyz".to_string());
    gm.handle_etw_message(started(r"C:\Games\Foo.exe", 100));
    gm.handle_etw_message(started(r"C:\Games\Bar.exe", 100));
    gm.handle_etw_message(started(r"C:\Games\Bar.exe", 200));
    let events = gm.handle_etw_message(terminated("", 100));
    assert_eq!(events.len(), 2);
    assert!(matches!(events[0].event_type, ProcessEventType::Termination));
    assert!(matches!(events[1].event_type, ProcessEventType::Termination));
    assert_eq!(events[0].pid, 100);
    assert_eq!(events[1].pid, 100);
    assert!(!gm.is_running(r"c:\games\foo.exe", false));
    assert!(gm.is_running(r"c:\games\bar.exe", false));
}

#[test]
fn folder_query_matches_single_segment_only() {
    let mut gm = GameManager::new();
    gm.add_known_game(r"c:\games\foo".to_string(), "direct".to_string());
    gm.handle_wmi_message(started(r"C:\Games\Foo\Bar.exe", 123));
    assert!(gm.is_running(r"C:\Games\Foo", true));
    assert!(gm.is_running(r"C:\Games\Foo\", true));
    assert!(gm.is_running("C:/Games/Foo", true));
    assert!(!gm.is_running(r"C:\Games", true));
    assert!(gm.is_running(r"C:\Games\Foo\Bar.exe", false));
    assert!(!gm.is_running(r"C:\Games\Foo", false));

    let mut nested = GameManager::new();
    nested.add_known_game(r"c:\games\foo\sub".to_string(), "nested".to_string());
    nested.handle_wmi_message(started(r"C:\Games\Foo\Sub\Baz.exe", 7));
    assert!(!nested.is_running(r"C:\Games\Foo", true));
    assert!(nested.is_running(r"C:\Games\Foo\Sub", true));
}

#[test]
fn scenario_register_start_terminate() {
    let mut gm = GameManager::new();
    gm.add_known_game(r"c:\games\foo.exe".to_string(), "abc".to_string());
    let created = gm.handle_etw_message(started(r"C:\Games\Foo.exe", 100));
    assert_eq!(created.len(), 1);
    assert!(matches!(created[0].event_type, ProcessEventType::Creation));
    assert_eq!(created[0].id, "abc");
    assert_eq!(created[0].pid, 100);
    let ended = gm.handle_etw_message(terminated("", 100));
    assert_eq!(ended.len(), 1);
    assert!(matches!(ended[0].event_type, ProcessEventType::Termination));
    assert_eq!(ended[0].id, "abc");
    assert_eq!(ended[0].pid, 100);
    assert!(!gm.is_running(r"c:\games\foo.exe", false));
}

#[test]
fn remove_by_id_purges_patterns_and_instances() {
    let mut gm = GameManager::new();
    gm.add_known_game(r"c:\games\foo.exe".to_string(), "g1".to_string());
    gm.add_known_game("foo.exe".to_string(), "g1".to_string());
    gm.add_known_game(r"c:\games\bar.exe".to_string(), "g2".to_string());
    gm.handle_wmi_message(started(r"C:\Games\Foo.exe", 100));
    gm.handle_wmi_message(started(r"C:\Games\Bar.exe", 200));
    gm.remove_known_game("g1");
    assert!(gm.get_known_game_id(r"c:\games\foo.exe").is_none());
    assert!(!gm.is_running(r"c:\games\foo.exe", false));
    assert_eq!(gm.get_known_game_id(r"c:\games\bar.exe").unwrap().as_str(), "g2");
    assert!(gm.is_running(r"c:\games\bar.exe", false));
}

#[test]
fn startup_snapshot_reports_known_games_only() {
    let mut gm = GameManager::new();
    gm.add_known_game(r"c:\games\foo.exe".to_string(), "abc".to_string());
    let snapshot = vec![
        ProcessInfo { pid: 4, full_path: r"C:\Windows\System32\svchost.exe".to_string() },
        ProcessInfo { pid: 100, full_path: r"C:\Games\Foo.exe".to_string() },
    ];
    let events = gm.startup_process_check(snapshot);
    assert_eq!(events.len(), 1);
    assert_eq!(events[0].id, "abc");
    assert_eq!(events[0].pid, 100);
    assert!(gm.is_running(r"c:\games\foo.exe", false));
}

#[test]
fn replace_known_games_drops_old_registry() {
    let mut gm = GameManager::new();
    gm.add_known_game(r"c:\old\game.exe".to_string(), "old".to_string());
    gm.init_known_games(
        vec![r"C:\New\Game.exe".to_string(), r"c:\other\thing.exe".to_string()],
        vec!["new".to_string(), "other".to_string()],
    );
    assert!(gm.get_known_game_id(r"c:\old\game.exe").is_none());
    assert_eq!(gm.get_known_game_id(r"c:\new\game.exe").unwrap().as_str(), "new");
    assert_eq!(gm.get_known_game_id(r"c:\other\thing.exe").unwrap().as_str(), "other");
}
