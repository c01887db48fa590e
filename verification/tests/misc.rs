use pods::containers::NameOrder;
use pods::files::{copy_enabled, copy_path, health_run, newest_first, path_or_root, suggested_archive_name};
use pods::rename::{RenameAction, RenameDialog, RenameEvent};
use pods::stats::{known_cpus, throughput_dimmed, Throughput};
use pods::tty::{close_sequence, scroll_zoom, session_step, tty_command, SessionAction, SessionEvent, TtyCommand, TtyKey, TtyModifiers};

#[test]
fn throughput() {
    let mut t = Throughput::new();
    assert_eq!(t.next(1000), 0);
    assert_eq!(t.next(1500), 500);
    assert_eq!(t.next(1500), 0);
    assert_eq!(t.next(100), 0);
    assert_eq!(t.next(400), 300);
    assert!(throughput_dimmed(0));
    assert!(!throughput_dimmed(3));
    assert_eq!(known_cpus(8), Some(8));
    assert_eq!(known_cpus(0), None);
}

#[test]
fn key_bindings() {
    assert_eq!(tty_command(TtyKey::Minus, TtyModifiers::Control), Some(TtyCommand::ZoomOut));
    assert_eq!(tty_command(TtyKey::KeypadAdd, TtyModifiers::Control), Some(TtyCommand::ZoomIn));
    assert_eq!(tty_command(TtyKey::Equal, TtyModifiers::Control), Some(TtyCommand::ZoomIn));
    assert_eq!(tty_command(TtyKey::Zero, TtyModifiers::Control), Some(TtyCommand::ZoomNormal));
    assert_eq!(tty_command(TtyKey::UpperC, TtyModifiers::ControlShift), Some(TtyCommand::Copy));
    assert_eq!(tty_command(TtyKey::UpperV, TtyModifiers::ControlShift), Some(TtyCommand::Paste));
    assert_eq!(tty_command(TtyKey::UpperC, TtyModifiers::Control), None);
    assert_eq!(tty_command(TtyKey::Minus, TtyModifiers::Other), None);
}

#[test]
fn session_loop() {
    assert!(matches!(session_step(SessionEvent::Input(b"ls\n".to_vec())), SessionAction::Write(d) if d == b"ls\n"));
    assert!(matches!(
        session_step(SessionEvent::Resize { columns: 80, rows: 24 }),
        SessionAction::Resize { columns: 80, rows: 24 }
    ));
    assert!(matches!(session_step(SessionEvent::Output(b"$ ".to_vec())), SessionAction::Show(d) if d == b"$ "));
    assert!(matches!(session_step(SessionEvent::InputClosed), SessionAction::Stop));
    assert!(matches!(session_step(SessionEvent::OutputFailed), SessionAction::Stop));
    assert!(matches!(session_step(SessionEvent::OutputEnded), SessionAction::Stop));
    assert!(matches!(session_step(SessionEvent::RequestFailed), SessionAction::Stop));
    assert_eq!(close_sequence(), vec![3, 4]);
}

#[test]
fn rename_dialog_flow() {
    let mut dialog = RenameDialog::new();
    assert!(matches!(
        dialog.step(RenameEvent::EntryChanged(String::new())),
        RenameAction::EntryEdited { rename_enabled: false }
    ));
    assert!(matches!(
        dialog.step(RenameEvent::EntryChanged("new".to_string())),
        RenameAction::EntryEdited { rename_enabled: true }
    ));
    assert!(matches!(dialog.step(RenameEvent::CloseRequest), RenameAction::CloseLater));
    assert!(matches!(dialog.step(RenameEvent::Response("rename".to_string())), RenameAction::Nothing));
    assert!(matches!(dialog.step(RenameEvent::CloseRequest), RenameAction::StartRename));
    assert!(matches!(dialog.step(RenameEvent::RenameFailed("taken".to_string())), RenameAction::ShowError(m) if m == "taken"));
    assert!(matches!(dialog.step(RenameEvent::Escape), RenameAction::Close));
    assert!(matches!(dialog.step(RenameEvent::CloseRequest), RenameAction::AllowClose));
    let mut done = RenameDialog::new();
    assert!(matches!(done.step(RenameEvent::RenameSucceeded), RenameAction::Close));
    assert!(matches!(done.step(RenameEvent::CloseRequest), RenameAction::AllowClose));
    let mut deleted = RenameDialog::new();
    assert!(matches!(deleted.step(RenameEvent::ContainerDeleted), RenameAction::Close));
    assert!(matches!(deleted.step(RenameEvent::CloseRequest), RenameAction::AllowClose));
}

#[test]
fn copy_settings() {
    assert_eq!(suggested_archive_name(Some("web"), Some("2024-01-01T00:00:00Z")), "web-2024-01-01T00:00:00Z.tar");
    assert_eq!(suggested_archive_name(None, None), "container.tar");
    assert!(copy_enabled(Some("/tmp/x.tar")));
    assert!(!copy_enabled(Some("")));
    assert!(!copy_enabled(None));
    assert_eq!(path_or_root(""), "/");
    assert_eq!(path_or_root("/etc"), "/etc");
}

#[test]
fn health_runs() {
    let ok = health_run(0);
    assert!(ok.passed && ok.icon == "success-symbolic" && ok.css_class == "success");
    let failed = health_run(1);
    assert!(!failed.passed && failed.icon == "error-symbolic" && failed.css_class == "error");
}

#[test]
fn health_runs_newest_first() {
    assert_eq!(newest_first("2024-01-02T00:00:00Z", "2024-01-01T00:00:00Z"), NameOrder::Before);
    assert_eq!(newest_first("2024-01-01T00:00:00Z", "2024-01-02T00:00:00Z"), NameOrder::After);
}

#[test]
fn scroll_zooming() {
    assert_eq!(scroll_zoom(true, true), Some(TtyCommand::ZoomIn));
    assert_eq!(scroll_zoom(true, false), Some(TtyCommand::ZoomOut));
    assert_eq!(scroll_zoom(false, true), None);
}

#[test]
fn copy_paths_trim() {
    assert_eq!(copy_path("  "), "/");
    assert_eq!(copy_path(" /etc "), "/etc");
    assert_eq!(path_or_root("  "), "  ");
}
