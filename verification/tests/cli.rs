use shotr_core::cli::{
    after_capture, arg_after, copy_flag, launch, monitor_arg, pin_flag, pin_path, Launch, Source,
    StartKind,
};

fn args(list: &[&str]) -> Vec<String> {
    list.iter().map(|s| s.to_string()).collect()
}

#[test]
fn a_flag_yields_the_value_after_it() {
    let a = args(&["--capture", "--window", "51695"]);
    assert_eq!(
        arg_after(&a, "--window").map(String::as_str),
        Some("51695"),
        "the tray passes the window identifier this way, so losing it captures nothing"
    );
}

#[test]
fn a_flag_with_nothing_after_it_is_not_a_value() {
    let a = args(&["--capture", "--window"]);
    assert_eq!(arg_after(&a, "--window"), None);
}

#[test]
fn an_absent_flag_yields_nothing() {
    let a = args(&["--capture", "--full"]);
    assert_eq!(arg_after(&a, "--window"), None);
    assert_eq!(monitor_arg(&a), None, "no --monitor means every monitor");
}

#[test]
fn copy_needs_something_to_copy() {
    assert_eq!(
        copy_flag(&args(&["--copy"])),
        Err(()),
        "`--copy` alone would exit having silently done nothing"
    );
    assert_eq!(
        copy_flag(&args(&["--open", "--copy"])),
        Err(()),
        "`--copy` is about a capture, not about a file already on disk"
    );
}

#[test]
fn copy_rides_along_with_a_capture() {
    assert_eq!(copy_flag(&args(&["--capture", "--copy"])), Ok(true));
    assert_eq!(
        copy_flag(&args(&["--capture", "--full", "--copy"])),
        Ok(true)
    );
    assert_eq!(
        copy_flag(&args(&["--capture", "--full"])),
        Ok(false),
        "a capture without --copy must still open the editor"
    );
}

#[test]
fn a_named_file_is_what_gets_pinned() {
    let a = args(&["--pin", "/tmp/shot.png"]);
    assert_eq!(
        pin_path(&a).map(String::as_str),
        Some("/tmp/shot.png"),
        "losing the path here pins nothing and the command looks dead"
    );
    assert_eq!(pin_flag(&a), Ok(true));
}

#[test]
fn a_flag_after_pin_is_not_a_filename() {
    let a = args(&["--pin", "--capture"]);
    assert_eq!(pin_path(&a), None);
    assert_eq!(pin_flag(&a), Ok(true));
}

#[test]
fn pin_needs_something_to_pin() {
    assert_eq!(
        pin_flag(&args(&["--pin"])),
        Err(()),
        "bare `--pin` would otherwise fall through to the daemon branch and \
         start the tray, which looks exactly like a dead shortcut"
    );
    assert_eq!(
        pin_flag(&args(&["--capture", "--pin"])),
        Ok(true),
        "this is the tray's own entry, and the flag order it uses"
    );
    assert_eq!(
        pin_flag(&args(&["--capture"])),
        Ok(false),
        "a capture without --pin must still open the editor"
    );
}

#[test]
fn pin_rides_along_with_copy() {
    let a = args(&["--capture", "--copy", "--pin"]);
    assert_eq!(copy_flag(&a), Ok(true));
    assert_eq!(pin_flag(&a), Ok(true));
}

#[test]
fn a_monitor_index_that_is_not_a_number_is_ignored() {
    let a = args(&["--capture", "--monitor", "left"]);
    assert_eq!(monitor_arg(&a), None);
    assert_eq!(monitor_arg(&args(&["--capture", "--monitor", "2"])), Some(2));
}

#[test]
fn a_source_round_trips_through_command_line_arguments() {
    assert_eq!(Source::All.args(), vec!["--capture"]);
    assert_eq!(
        Source::Monitor(1).args(),
        vec!["--capture", "--monitor", "1"]
    );
    assert_eq!(
        Source::Monitor(0).args(),
        vec!["--capture", "--monitor", "0"],
        "monitor 0 must still be explicit, not left to the default"
    );
}

#[test]
fn a_source_written_out_reads_back() {
    for i in [0usize, 7, 12345] {
        assert_eq!(monitor_arg(&Source::Monitor(i).args()), Some(i));
    }
    assert_eq!(monitor_arg(&Source::All.args()), None);
}

#[test]
fn the_first_occurrence_of_a_flag_wins() {
    let a = args(&["--monitor", "1", "--monitor", "2"]);
    assert_eq!(monitor_arg(&a), Some(1));
    assert_eq!(monitor_arg(&args(&["--monitor", "+3"])), Some(3));
    assert_eq!(monitor_arg(&args(&["--monitor", "-3"])), None);
}

#[test]
fn help_and_settings_come_before_anything_else() {
    assert_eq!(launch(&args(&["--capture", "-h"])), Launch::Help);
    assert_eq!(launch(&args(&["--settings", "--capture"])), Launch::Settings);
}

#[test]
fn a_named_file_is_pinned_and_a_bare_pin_is_refused() {
    assert_eq!(launch(&args(&["--pin", "/tmp/a.png"])), Launch::PinFile("/tmp/a.png".into()));
    assert_eq!(launch(&args(&["--pin"])), Launch::PinWithoutSource);
    assert_eq!(launch(&args(&["--copy"])), Launch::CopyWithoutCapture);
}

#[test]
fn no_window_flag_runs_in_the_tray() {
    assert_eq!(launch(&args(&[])), Launch::Daemon);
    assert_eq!(launch(&args(&["--full"])), Launch::Daemon, "--full alone opens nothing");
}

#[test]
fn each_way_in_opens_its_own_window() {
    let window = |list: &[&str]| match launch(&args(list)) {
        Launch::Window { start, source, pin, copy } => (start, source, pin, copy),
        other => panic!("{list:?} did not open a window: {other:?}"),
    };
    assert_eq!(window(&["--open", "x.png"]).0, StartKind::OpenPath("x.png".into()));
    assert_eq!(window(&["--open"]).0, StartKind::OpenDialog);
    assert_eq!(window(&["--clipboard"]).0, StartKind::Clipboard);
    assert_eq!(window(&["--history"]).0, StartKind::History);
    assert_eq!(window(&["--capture", "--window", "51695"]).0, StartKind::Window(Some("51695".into())));
    assert_eq!(
        window(&["--capture", "--full", "--monitor", "1", "--copy"]),
        (StartKind::Screen { full: true }, Source::Monitor(1), false, true)
    );
    assert_eq!(
        window(&["--capture", "--pin"]),
        (StartKind::Screen { full: false }, Source::All, true, false)
    );
}

#[test]
fn a_finished_shot_is_copied_at_once_and_a_picker_copies_later() {
    let now = after_capture(true, false, false, true);
    assert!(now.copy_now && now.done_after_copy && !now.copy_on_finish);
    let later = after_capture(true, false, false, false);
    assert!(!later.copy_now && later.copy_on_finish);
    let redacting = after_capture(true, false, true, true);
    assert!(!redacting.copy_now && !redacting.copy_on_finish, "redaction needs the editor");
    let both = after_capture(true, true, false, true);
    assert!(both.copy_now && !both.done_after_copy && both.pin_now);
    assert!(after_capture(false, true, false, false).pin_on_finish);
}
