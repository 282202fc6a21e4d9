use miawk::autodrive::AutoDriveClock;
use miawk::settings::default_workspace_under;
use std::path::PathBuf;

#[test]
fn a_stop_by_the_user_halts_auto_drive_once() {
    let mut clock = AutoDriveClock::new();
    clock.prompt_sent(true, true, 100);
    clock.user_stopped();
    assert_eq!(clock.turn_completed(), Some("Stopped by user.".to_string()));
    assert!(!clock.suppress_next);
    assert_eq!(clock.turn_completed(), None);
}

#[test]
fn a_user_prompt_starts_a_new_cycle() {
    let mut clock = AutoDriveClock { started_at: Some(5), completed_turns: 3, suppress_next: true };
    clock.prompt_sent(true, true, 100);
    assert_eq!(clock, AutoDriveClock { started_at: Some(100), completed_turns: 0, suppress_next: false });
    // An Auto Drive continuation keeps the cycle going.
    clock.completed_turns = 2;
    clock.prompt_sent(true, false, 200);
    assert_eq!(clock, AutoDriveClock { started_at: Some(100), completed_turns: 2, suppress_next: false });
    // With Auto Drive off the clock is cleared.
    clock.prompt_sent(false, true, 300);
    assert_eq!(clock, AutoDriveClock::new());
}

#[test]
fn new_workspaces_go_under_the_home_directory() {
    assert_eq!(default_workspace_under(&PathBuf::from("/home/u")), PathBuf::from("/home/u/MIAWK/General"));
}
