use shotr_core::daemon::{settle_first_run, turn};
use shotr_core::hotkey::{Action, Command, Hotkey, Prefs};
use shotr_core::i18n::Lang;
use shotr_core::ipc::Request;

fn lines(t: &[Vec<String>]) -> Vec<Vec<&str>> {
    t.iter().map(|l| l.iter().map(String::as_str).collect()).collect()
}

#[test]
fn quit_ends_the_loop_and_starts_nothing() {
    let t = turn(Some(Command::Quit), false, &[Action::Region], Some(Request::Capture));
    assert!(!t.keep_running);
    assert!(t.spawn.is_empty());
}

#[test]
fn preferences_open_once() {
    assert!(turn(Some(Command::Preferences), false, &[], None).open_preferences);
    assert!(!turn(Some(Command::Preferences), true, &[], None).open_preferences, "a second window would fight over the file");
}

#[test]
fn a_tray_entry_starts_its_own_process() {
    let t = turn(Some(Command::CaptureFullCopy), false, &[], None);
    assert_eq!(lines(&t.spawn), vec![vec!["--capture", "--full", "--copy"]]);
}

#[test]
fn hotkeys_and_requests_become_the_tray_command_lines() {
    let t = turn(None, false, &[Action::Region, Action::Hub], Some(Request::Show));
    assert_eq!(
        lines(&t.spawn),
        vec![vec!["--capture"], vec!["--history"], vec!["--capture"]],
        "a shown or captured request takes a region, after the hotkeys"
    );
    assert!(t.keep_running && !t.reload_hotkeys);
    let r = turn(None, false, &[], Some(Request::ReloadHotkeys));
    assert!(r.reload_hotkeys && r.spawn.is_empty());
    assert!(turn(None, false, &[], None).spawn.is_empty());
}

#[test]
fn a_fresh_install_gets_one_shortcut_and_is_told() {
    let r = settle_first_run(Prefs::default(), &[], true, Lang::En);
    assert!(r.save && r.prefs.hotkeys_initialised);
    assert_eq!(r.prefs.hotkeys, vec![(Action::Region, "Cmd+Shift+4".to_string())]);
    assert_eq!(r.notice.as_deref(), Some("Cmd+Shift+4 now captures a region. Change it in Preferences."));
}

#[test]
fn apples_own_shortcut_pushes_the_offer_along() {
    let system = vec![Hotkey::parse_text("Cmd+Shift+4").unwrap()];
    let r = settle_first_run(Prefs::default(), &system, true, Lang::En);
    let (action, keys) = &r.prefs.hotkeys[0];
    assert_eq!(*action, Action::Region);
    assert_ne!(keys, "Cmd+Shift+4", "the system already answers that one");
}

#[test]
fn a_settled_install_is_left_alone() {
    let prefs = Prefs { hotkeys: Vec::new(), hotkeys_initialised: true };
    let r = settle_first_run(prefs, &[], true, Lang::En);
    assert!(!r.save && r.notice.is_none() && r.prefs.hotkeys.is_empty());
}

#[test]
fn where_the_desktop_owns_bindings_the_question_is_still_settled() {
    let r = settle_first_run(Prefs::default(), &[], false, Lang::En);
    assert!(r.save && r.prefs.hotkeys_initialised && r.notice.is_none());
    assert!(r.prefs.hotkeys.is_empty());
}
