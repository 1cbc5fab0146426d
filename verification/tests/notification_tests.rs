use game_monitor::notification::{send_notification, WinNotification};

#[test]
fn test_send_notification() {
    send_notification(
        "vnite".to_string(),
        Some("Notification Title".to_string()),
        Some("Line 1".to_string()),
        Some("Line 2".to_string()),
        None,
        Some(false),
    );

    send_notification(
        "vnite".to_string(),
        Some("Notification Title2".to_string()),
        Some("Line 1".to_string()),
        Some("Line 2".to_string()),
        Some(r"c:\\test.webp".to_string()),
        Some(false),
    );
}

#[test]
fn notification_fields_are_wrapped_and_escaped() {
    let n = send_notification(
        "vnite".to_string(),
        Some("A<B&C".to_string()),
        Some("quote \" here".to_string()),
        None,
        Some("hero.png".to_string()),
        Some(true),
    );
    assert_eq!(n.app_id, "vnite");
    assert_eq!(n.title, "<text id=\"1\">A&lt;B&amp;C</text>");
    assert_eq!(n.line1, "<text id=\"2\">quote &quot; here</text>");
    assert_eq!(n.line2, "");
    assert_eq!(n.image, "<image placement=\"hero\" src=\"file:///hero.png\" alt=\"image\" />");
    assert_eq!(n.silent, "true");
}

#[test]
fn toast_xml_assembles_the_whole_document() {
    let mut n = WinNotification::new("app".to_string());
    n.title("Hi".to_string());
    let xml = n.toast_xml();
    let expected = "\n      <toast duration=\"short\">\n        <visual>\n          <binding template=\"ToastGeneric\">\n            <text id=\"1\">Hi</text>\n          </binding>\n        </visual>\n        <audio src=\"ms-winsoundevent:Notification.Default\" silent=\"false\" />\n      </toast>\n    ";
    assert_eq!(xml, expected);
}

#[test]
fn is_silent_toggles_the_audio_flag() {
    let mut n = WinNotification::new("app".to_string());
    assert_eq!(n.silent, "false");
    n.is_silent(true);
    assert_eq!(n.silent, "true");
    n.is_silent(false);
    assert_eq!(n.silent, "false");
}
