use synthia_core::tray::{set_mode, status_label, tooltip_for, tray_step, TrayIcon};

#[test]
fn icon_follows_a_changed_flag() {
    let s = tray_step(false, true);
    assert!(s.last_recording);
    assert_eq!(s.switch_to, Some(TrayIcon::Recording));
    let s = tray_step(true, false);
    assert!(!s.last_recording);
    assert_eq!(s.switch_to, Some(TrayIcon::Normal));
}

#[test]
fn unchanged_flag_changes_nothing() {
    assert_eq!(tray_step(true, true).switch_to, None);
    assert_eq!(tray_step(false, false).switch_to, None);
}

#[test]
fn tooltips_and_labels() {
    assert_eq!(tooltip_for(TrayIcon::Recording), "Synthia - Recording...");
    assert_eq!(tooltip_for(TrayIcon::Normal), "Synthia - Voice Assistant");
    assert_eq!(status_label(true), "running");
    assert_eq!(status_label(false), "stopped");
}

#[test]
fn mode_reply_names_the_mode() {
    assert_eq!(set_mode("dictation"), Ok("Mode set to: dictation".to_string()));
    assert_eq!(set_mode(""), Ok("Mode set to: ".to_string()));
}
