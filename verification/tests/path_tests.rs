use game_monitor::backend::{make_instrumentation_message, select_backend, BackendKind};
use game_monitor::events::ProcessStatus;
use game_monitor::ntpath::nt_to_dos_path;

#[test]
fn test_nt_path() {
    let mappings = vec![(r"\Device\HarddiskVolume3".to_string(), "C:".to_string())];
    let dos_path = nt_to_dos_path(&mappings, r"\Device\HarddiskVolume3\Program Files\rustup\rustc.exe");
    if let Some(path) = dos_path {
        println!("DOS path: {}", path)
    }
}

#[test]
fn device_prefix_is_rewritten_to_drive() {
    let mappings = vec![
        (r"\Device\HarddiskVolume1".to_string(), "D:".to_string()),
        (r"\Device\HarddiskVolume3".to_string(), "C:".to_string()),
    ];
    assert_eq!(
        nt_to_dos_path(&mappings, r"\Device\HarddiskVolume3\Games\foo.exe"),
        Some(r"C:\Games\foo.exe".to_string())
    );
    assert_eq!(nt_to_dos_path(&mappings, r"\Device\CdRom0\x.exe"), None);
    assert_eq!(nt_to_dos_path(&mappings, ""), None);
}

#[test]
fn first_matching_mapping_wins() {
    let mappings = vec![
        (r"\Device\Hdd".to_string(), "E:".to_string()),
        (r"\Device\Hdd1".to_string(), "F:".to_string()),
    ];
    assert_eq!(
        nt_to_dos_path(&mappings, r"\Device\Hdd1\a.exe"),
        Some(r"E:1\a.exe".to_string())
    );
}

#[test]
fn backend_follows_privilege_level() {
    assert_eq!(select_backend(true), BackendKind::KernelTrace);
    assert_eq!(select_backend(false), BackendKind::Instrumentation);
}

#[test]
fn empty_instrumentation_path_is_skipped() {
    assert!(make_instrumentation_message("".to_string(), 5, true).is_none());
    let msg = make_instrumentation_message(r"c:\a.exe".to_string(), 5, false).unwrap();
    assert_eq!(msg.pid, 5);
    assert!(matches!(msg.status, ProcessStatus::Terminated));
    assert_eq!(msg.path, r"c:\a.exe");
}
