//! The tray daemon's decisions. The daemon owns the tray icon and never
//! opens a window: every capture runs as a fresh short-lived process that
//! grabs the screen before it opens anything, so no shotr window can end up
//! in its own screenshot.
//!
//! The loop itself (the tray, the socket, the processes) is the caller's;
//! this module says what each turn of it does.

use vstd::prelude::*;

use crate::hotkey::{
    action_command, command_args, first_run_spec, hotkey_views, string_views, Action, Command,
    Hotkey, Prefs,
};
use crate::i18n::{fill, pair_views, t_spec, tf, Lang};
use crate::ipc::Request;

verus! {

/// What one turn of the daemon's loop does.
pub struct Turn {
    /// `false` once the tray asked to quit.
    pub keep_running: bool,
    /// The command lines of the shotr processes to start, in order.
    pub spawn: Vec<Vec<String>>,
    /// Start the Preferences window, which is kept to one.
    pub open_preferences: bool,
    /// Read the stored bindings again and register them afresh.
    pub reload_hotkeys: bool,
}

pub open spec fn lines_view(v: Seq<Vec<String>>) -> Seq<Seq<Seq<char>>> {
    v.map_values(|l: Vec<String>| string_views(l@))
}

/// The command lines the hotkeys that went down ask for, in order: a hotkey
/// and the tray entry for the same action run the same command line.
pub open spec fn hotkey_lines(pressed: Seq<Action>) -> Seq<Seq<Seq<char>>> {
    pressed.map_values(|a: Action| command_args(action_command(a)))
}

/// One turn: a tray entry if one was chosen, else the hotkeys that went down
/// and a request from a later launch.
///
/// Quit ends the loop. Preferences opens its window unless one is already
/// open, since two would write the same file. Any other entry starts one
/// process. Without a tray entry, each hotkey starts its action's process,
/// and a request to show or capture starts a region capture, while a request
/// to reload re-registers the hotkeys.
pub open spec fn turn_spec(
    command: Option<Command>,
    preferences_open: bool,
    pressed: Seq<Action>,
    request: Option<Request>,
) -> (bool, Seq<Seq<Seq<char>>>, bool, bool) {
    match command {
        Some(Command::Quit) => (false, Seq::empty(), false, false),
        Some(Command::Preferences) => (true, Seq::empty(), !preferences_open, false),
        Some(c) => (true, seq![command_args(c)], false, false),
        None => match request {
            Some(Request::ReloadHotkeys) => (true, hotkey_lines(pressed), false, true),
            Some(_) => (
                true,
                hotkey_lines(pressed).push(command_args(Command::CaptureRegion)),
                false,
                false,
            ),
            None => (true, hotkey_lines(pressed), false, false),
        },
    }
}

pub fn turn(
    command: Option<Command>,
    preferences_open: bool,
    pressed: &[Action],
    request: Option<Request>,
) -> (r: Turn)
    ensures
        (r.keep_running, lines_view(r.spawn@), r.open_preferences, r.reload_hotkeys) == turn_spec(
            command,
            preferences_open,
            pressed@,
            request,
        ),
{
    let mut spawn: Vec<Vec<String>> = Vec::new();
    match command {
        Some(Command::Quit) => {
            assert(lines_view(spawn@) =~= Seq::<Seq<Seq<char>>>::empty());
            return Turn {
                keep_running: false,
                spawn,
                open_preferences: false,
                reload_hotkeys: false,
            };
        },
        Some(Command::Preferences) => {
            assert(lines_view(spawn@) =~= Seq::<Seq<Seq<char>>>::empty());
            return Turn {
                keep_running: true,
                spawn,
                open_preferences: !preferences_open,
                reload_hotkeys: false,
            };
        },
        Some(c) => {
            spawn.push(c.args());
            assert(lines_view(spawn@) =~= seq![command_args(c)]);
            return Turn { keep_running: true, spawn, open_preferences: false, reload_hotkeys: false };
        },
        None => {},
    }
    let mut i: usize = 0;
    proof {
        assert(lines_view(spawn@) =~= hotkey_lines(pressed@.take(0)));
    }
    while i < pressed.len()
        invariant
            i <= pressed.len(),
            lines_view(spawn@) == hotkey_lines(pressed@.take(i as int)),
        decreases pressed.len() - i,
    {
        let line = pressed[i].command().args();
        let ghost before = spawn@;
        spawn.push(line);
        proof {
            assert(pressed@.take(i as int + 1) =~= pressed@.take(i as int).push(pressed@[i as int]));
            assert(lines_view(spawn@) =~= lines_view(before).push(string_views(line@)));
            assert(hotkey_lines(pressed@.take(i as int + 1)) =~= hotkey_lines(
                pressed@.take(i as int),
            ).push(command_args(action_command(pressed@[i as int]))));
        }
        i = i + 1;
    }
    proof {
        assert(pressed@.take(pressed.len() as int) =~= pressed@);
    }
    let mut reload = false;
    match request {
        Some(Request::ReloadHotkeys) => {
            reload = true;
        },
        Some(_) => {
            let ghost before = spawn@;
            spawn.push(Command::CaptureRegion.args());
            proof {
                assert(lines_view(spawn@) =~= lines_view(before).push(
                    command_args(Command::CaptureRegion),
                ));
            }
        },
        None => {},
    }
    Turn { keep_running: true, spawn, open_preferences: false, reload_hotkeys: reload }
}

/// How the first run is settled.
pub struct FirstRun {
    /// The settings to keep.
    pub prefs: Prefs,
    /// The settings changed and have to be written back.
    pub save: bool,
    /// What to tell the user, when a starting shortcut was bound for them.
    pub notice: Option<String>,
}

/// The notice for a starting shortcut, spelled `keys`.
pub open spec fn notice_spec(lang: Lang, keys: Seq<char>) -> Seq<char> {
    fill(t_spec(lang, "{keys} now captures a region. Change it in Preferences."@), seq![("keys"@, keys)])
}

/// A fresh install gets one working shortcut, and is told which: the
/// platform cannot say whether the combination was already spoken for. If
/// nothing is bound, because nothing was free or the desktop owns the
/// bindings, the question is settled all the same and never asked again.
pub fn settle_first_run(prefs: Prefs, system: &[Hotkey], editable: bool, lang: Lang) -> (r:
    FirstRun)
    ensures
        ({
            let offer = first_run_spec(
                prefs.hotkeys@.len(),
                prefs.hotkeys_initialised,
                hotkey_views(system@),
                editable,
            );
            match offer {
                Some((a, h)) => {
                    &&& r.save
                    &&& r.prefs.hotkeys_initialised
                    &&& r.prefs.hotkeys@.len() == prefs.hotkeys@.len() + 1
                    &&& r.prefs.hotkeys@.last().0 == a
                    &&& r.prefs.hotkeys@.last().1@ == crate::hotkey::text_spec(h.0, h.1)
                    &&& r.notice matches Some(n) && n@ == notice_spec(
                        lang,
                        crate::hotkey::text_spec(h.0, h.1),
                    )
                },
                None => {
                    &&& r.save == !prefs.hotkeys_initialised
                    &&& r.prefs.hotkeys_initialised
                    &&& r.prefs.hotkeys@ == prefs.hotkeys@
                    &&& r.notice is None
                },
            }
        }),
{
    let mut prefs = prefs;
    match crate::hotkey::first_run_binding(&prefs, system, editable) {
        Some((action, hotkey)) => {
            let keys = hotkey.to_string();
            prefs.hotkeys.push((action, keys.clone()));
            prefs.hotkeys_initialised = true;
            let args = [("keys", keys.as_str())];
            proof {
                assert(pair_views(args@) =~= seq![("keys"@, keys@)]);
            }
            let notice = tf(lang, "{keys} now captures a region. Change it in Preferences.", &args);
            FirstRun { prefs, save: true, notice: Some(notice) }
        },
        None => {
            let save = !prefs.hotkeys_initialised;
            prefs.hotkeys_initialised = true;
            FirstRun { prefs, save, notice: None }
        },
    }
}

/// A hotkey and the tray entry for the same action start the same command
/// line, so everything downstream of either is the one path.
pub proof fn law_a_hotkey_runs_what_its_tray_entry_runs(a: Action, preferences_open: bool)
    ensures
        turn_spec(None, preferences_open, seq![a], None).1 == turn_spec(
            Some(action_command(a)),
            preferences_open,
            Seq::empty(),
            None,
        ).1,
{
    assert(hotkey_lines(seq![a]) =~= seq![command_args(action_command(a))]);
}

/// Quitting starts nothing and opens nothing, whatever else arrived with it.
pub proof fn law_quit_does_nothing_else(
    preferences_open: bool,
    pressed: Seq<Action>,
    request: Option<Request>,
)
    ensures
        turn_spec(Some(Command::Quit), preferences_open, pressed, request) == (
            false,
            Seq::<Seq<Seq<char>>>::empty(),
            false,
            false,
        ),
{
}

/// A later `shotr` or `shotr --capture` launch reaching the daemon starts
/// exactly one region capture, `shotr --capture`, after whatever the hotkeys
/// asked for, and neither opens Preferences nor re-registers the hotkeys.
pub proof fn law_a_second_launch_captures_a_region(
    preferences_open: bool,
    pressed: Seq<Action>,
    request: Request,
)
    requires
        request == Request::Capture || request == Request::Show,
    ensures
        turn_spec(None, preferences_open, pressed, Some(request)) == (
            true,
            hotkey_lines(pressed).push(seq!["--capture"@]),
            false,
            false,
        ),
{
}

} // verus!
