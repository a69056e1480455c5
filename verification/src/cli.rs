//! Reading shotr's command line, and writing the command line that makes a
//! fresh capture process reproduce a choice.

use vstd::prelude::*;

use crate::text::{chars_of, dec, lemma_dec_shape, lemma_parse_dec, parse_unsigned, parse_unsigned_chars, push_decimal, string_of};

verus! {

pub open spec fn arg_views(args: Seq<String>) -> Seq<Seq<char>> {
    args.map_values(|a: String| a@)
}

/// Where `flag` first appears, if it does.
pub open spec fn first_index(args: Seq<Seq<char>>, flag: Seq<char>) -> Option<int>
    decreases args.len(),
{
    if args.len() == 0 {
        None
    } else if args[0] == flag {
        Some(0)
    } else {
        match first_index(args.drop_first(), flag) {
            Some(i) => Some(i + 1),
            None => None,
        }
    }
}

/// The argument right after the first `flag`, if there is one.
pub open spec fn arg_after_spec(args: Seq<Seq<char>>, flag: Seq<char>) -> Option<Seq<char>> {
    match first_index(args, flag) {
        Some(i) => if i + 1 < args.len() {
            Some(args[i + 1])
        } else {
            None
        },
        None => None,
    }
}

pub open spec fn has_flag(args: Seq<Seq<char>>, flag: Seq<char>) -> bool {
    args.contains(flag)
}

proof fn lemma_first_index(args: Seq<Seq<char>>, flag: Seq<char>)
    ensures
        match first_index(args, flag) {
            Some(i) => 0 <= i < args.len() && args[i] == flag && forall|j: int|
                0 <= j < i ==> args[j] != flag,
            None => !args.contains(flag),
        },
    decreases args.len(),
{
    if args.len() > 0 {
        lemma_first_index(args.drop_first(), flag);
        if args[0] != flag {
            match first_index(args.drop_first(), flag) {
                Some(i) => {
                    assert forall|j: int| 0 <= j < i + 1 implies args[j] != flag by {
                        if j > 0 {
                            assert(args[j] == args.drop_first()[j - 1]);
                        }
                    }
                },
                None => {
                    assert(!args.contains(flag)) by {
                        if args.contains(flag) {
                            let j = choose|j: int| 0 <= j < args.len() && args[j] == flag;
                            assert(args.drop_first()[j - 1] == flag);
                        }
                    }
                },
            }
        }
    }
}

fn find_flag(args: &[String], flag: &str) -> (r: Option<usize>)
    ensures
        match r {
            Some(i) => first_index(arg_views(args@), flag@) == Some(i as int) && i < args.len(),
            None => first_index(arg_views(args@), flag@) is None,
        },
{
    let ghost av = arg_views(args@);
    proof {
        lemma_first_index(av, flag@);
    }
    let f = chars_of(flag);
    let mut i: usize = 0;
    while i < args.len()
        invariant
            i <= args.len(),
            av == arg_views(args@),
            f@ == flag@,
            forall|j: int| 0 <= j < i ==> av[j] != flag@,
            match first_index(av, flag@) {
                Some(k) => 0 <= k < av.len() && av[k] == flag@ && forall|j: int|
                    0 <= j < k ==> av[j] != flag@,
                None => !av.contains(flag@),
            },
        decreases args.len() - i,
    {
        let a = chars_of(args[i].as_str());
        assert(av[i as int] == args@[i as int]@);
        if crate::text::same_chars(a.as_slice(), f.as_slice()) {
            proof {
                match first_index(av, flag@) {
                    Some(k) => {
                        if k < i {
                        } else if k > i {
                        }
                    },
                    None => {
                        assert(av.contains(flag@));
                    },
                }
            }
            return Some(i);
        }
        i = i + 1;
    }
    proof {
        match first_index(av, flag@) {
            Some(k) => {
                assert(av[k] == flag@);
            },
            None => {},
        }
    }
    None
}

/// The value after `flag`, if there is one.
pub fn arg_after<'a>(args: &'a [String], flag: &str) -> (r: Option<&'a String>)
    ensures
        match r {
            Some(s) => arg_after_spec(arg_views(args@), flag@) == Some(s@),
            None => arg_after_spec(arg_views(args@), flag@) is None,
        },
{
    match find_flag(args, flag) {
        Some(i) => {
            if i + 1 < args.len() {
                assert(arg_views(args@)[i + 1] == args@[i + 1]@);
                Some(&args[i + 1])
            } else {
                None
            }
        },
        None => None,
    }
}

/// Whether `flag` appears anywhere.
pub fn has_arg(args: &[String], flag: &str) -> (r: bool)
    ensures
        r == has_flag(arg_views(args@), flag@),
{
    proof {
        lemma_first_index(arg_views(args@), flag@);
    }
    find_flag(args, flag).is_some()
}

/// `--monitor N`, if given and a number.
pub open spec fn monitor_arg_spec(args: Seq<Seq<char>>) -> Option<nat> {
    match arg_after_spec(args, "--monitor"@) {
        Some(v) => parse_unsigned(v, usize::MAX as nat),
        None => None,
    }
}

pub fn monitor_arg(args: &[String]) -> (r: Option<usize>)
    ensures
        match r {
            Some(n) => monitor_arg_spec(arg_views(args@)) == Some(n as nat),
            None => monitor_arg_spec(arg_views(args@)) is None,
        },
{
    match arg_after(args, "--monitor") {
        Some(v) => {
            let cs = chars_of(v.as_str());
            match parse_unsigned_chars(cs.as_slice(), usize::MAX as u64) {
                Some(n) => Some(n as usize),
                None => None,
            }
        },
        None => None,
    }
}

pub open spec fn starts_with_dashes(v: Seq<char>) -> bool {
    v.len() >= 2 && v[0] == '-' && v[1] == '-'
}

/// The file to pin, if one was named. A flag is not a filename:
/// `shotr --pin --capture` means "capture, then pin".
pub open spec fn pin_path_spec(args: Seq<Seq<char>>) -> Option<Seq<char>> {
    match arg_after_spec(args, "--pin"@) {
        Some(v) => if starts_with_dashes(v) {
            None
        } else {
            Some(v)
        },
        None => None,
    }
}

pub fn pin_path<'a>(args: &'a [String]) -> (r: Option<&'a String>)
    ensures
        match r {
            Some(s) => pin_path_spec(arg_views(args@)) == Some(s@),
            None => pin_path_spec(arg_views(args@)) is None,
        },
{
    match arg_after(args, "--pin") {
        Some(v) => {
            let cs = chars_of(v.as_str());
            if cs.len() >= 2 && cs[0] == '-' && cs[1] == '-' {
                None
            } else {
                Some(v)
            }
        },
        None => None,
    }
}

/// `--pin` with no file named means something only beside `--capture`; on
/// its own there is nothing to pin, which is an error.
pub open spec fn pin_flag_spec(args: Seq<Seq<char>>) -> Result<bool, ()> {
    let pin = has_flag(args, "--pin"@);
    if pin && pin_path_spec(args) is None && !has_flag(args, "--capture"@) {
        Err(())
    } else {
        Ok(pin)
    }
}

pub fn pin_flag(args: &[String]) -> (r: Result<bool, ()>)
    ensures
        r == pin_flag_spec(arg_views(args@)),
{
    let pin = has_arg(args, "--pin");
    let named = pin_path(args).is_some();
    let capture = has_arg(args, "--capture");
    if pin && !named && !capture {
        Err(())
    } else {
        Ok(pin)
    }
}

/// `--copy` only means something alongside `--capture`: on its own there is
/// nothing to copy, which is an error.
pub open spec fn copy_flag_spec(args: Seq<Seq<char>>) -> Result<bool, ()> {
    let copy = has_flag(args, "--copy"@);
    if copy && !has_flag(args, "--capture"@) {
        Err(())
    } else {
        Ok(copy)
    }
}

pub fn copy_flag(args: &[String]) -> (r: Result<bool, ()>)
    ensures
        r == copy_flag_spec(arg_views(args@)),
{
    let copy = has_arg(args, "--copy");
    if copy && !has_arg(args, "--capture") {
        Err(())
    } else {
        Ok(copy)
    }
}

/// Where a screenshot comes from.
#[derive(Clone, Copy, PartialEq, Eq, Structural, Debug)]
pub enum Source {
    /// Every monitor stitched into one virtual desktop.
    All,
    /// One monitor, captured at 1:1.
    Monitor(usize),
}

pub open spec fn source_args(s: Source) -> Seq<Seq<char>> {
    match s {
        Source::All => seq!["--capture"@],
        Source::Monitor(i) => seq!["--capture"@, "--monitor"@, dec(i as nat)],
    }
}

impl Source {
    /// The arguments that reproduce this source in a fresh capture process.
    pub fn args(self) -> (r: Vec<String>)
        ensures
            arg_views(r@) == source_args(self),
    {
        let mut out: Vec<String> = Vec::new();
        out.push(string_of(chars_of("--capture").as_slice()));
        match self {
            Source::All => {},
            Source::Monitor(i) => {
                out.push(string_of(chars_of("--monitor").as_slice()));
                let mut digits: Vec<char> = Vec::new();
                push_decimal(&mut digits, i as u64);
                assert(digits@ =~= dec(i as nat));
                out.push(string_of(digits.as_slice()));
            },
        }
        assert(arg_views(out@) =~= source_args(self));
        out
    }
}

/// A source survives the trip through a command line: reading the arguments
/// it writes gives back the monitor it names, and no monitor for `All`.
pub proof fn law_source_round_trip(s: Source)
    ensures
        monitor_arg_spec(source_args(s)) == match s {
            Source::All => None::<nat>,
            Source::Monitor(i) => Some(i as nat),
        },
{
    reveal_strlit("--capture");
    reveal_strlit("--monitor");
    let a = source_args(s);
    assert("--capture"@ != "--monitor"@) by {
        assert("--capture"@[2] != "--monitor"@[2]);
    }
    assert(first_index(a.drop_first(), "--monitor"@) == match s {
        Source::All => None::<int>,
        Source::Monitor(_) => Some(0int),
    });
    if let Source::Monitor(i) = s {
        lemma_parse_dec(i as nat, usize::MAX as nat);
    }
}

/// What an editor window opens on.
#[derive(Clone, Debug, PartialEq, Eq)]
pub enum StartKind {
    /// A file named with `--open`.
    OpenPath(String),
    /// `--open` with nothing after it: ask which file.
    OpenDialog,
    /// Whatever picture is on the clipboard.
    Clipboard,
    /// The recent shots.
    History,
    /// One window, by the id after `--window`.
    Window(Option<String>),
    /// The screen: straight to the editor with `--full`, else the picker.
    Screen { full: bool },
}

/// What a launch of shotr does.
#[derive(Clone, Debug, PartialEq, Eq)]
pub enum Launch {
    Help,
    Settings,
    /// Pin an existing picture, at its own size.
    PinFile(String),
    /// `--pin` with neither a file nor `--capture`: nothing to pin.
    PinWithoutSource,
    /// `--copy` without `--capture`: nothing to copy.
    CopyWithoutCapture,
    /// No window asked for: run in the tray.
    Daemon,
    /// Open a window.
    Window { start: StartKind, source: Source, pin: bool, copy: bool },
}

/// A launch as plain values.
pub enum LaunchView {
    Help,
    Settings,
    PinFile(Seq<char>),
    PinWithoutSource,
    CopyWithoutCapture,
    Daemon,
    Window { start: StartView, source: Source, pin: bool, copy: bool },
}

pub enum StartView {
    OpenPath(Seq<char>),
    OpenDialog,
    Clipboard,
    History,
    Window(Option<Seq<char>>),
    Screen { full: bool },
}

pub open spec fn start_view(s: StartKind) -> StartView {
    match s {
        StartKind::OpenPath(p) => StartView::OpenPath(p@),
        StartKind::OpenDialog => StartView::OpenDialog,
        StartKind::Clipboard => StartView::Clipboard,
        StartKind::History => StartView::History,
        StartKind::Window(id) => StartView::Window(
            match id {
                Some(i) => Some(i@),
                None => None,
            },
        ),
        StartKind::Screen { full } => StartView::Screen { full },
    }
}

pub open spec fn launch_view(l: Launch) -> LaunchView {
    match l {
        Launch::Help => LaunchView::Help,
        Launch::Settings => LaunchView::Settings,
        Launch::PinFile(p) => LaunchView::PinFile(p@),
        Launch::PinWithoutSource => LaunchView::PinWithoutSource,
        Launch::CopyWithoutCapture => LaunchView::CopyWithoutCapture,
        Launch::Daemon => LaunchView::Daemon,
        Launch::Window { start, source, pin, copy } => LaunchView::Window {
            start: start_view(start),
            source,
            pin,
            copy,
        },
    }
}

/// What the arguments ask for: help and settings first; then a file to pin;
/// then the flag errors; the tray when no window is asked for; else the
/// window, opening on a file, the clipboard, the history, a window or the
/// screen, in that order of preference.
pub open spec fn launch_spec(a: Seq<Seq<char>>) -> LaunchView {
    if has_flag(a, "--help"@) || has_flag(a, "-h"@) {
        LaunchView::Help
    } else if has_flag(a, "--settings"@) {
        LaunchView::Settings
    } else {
        match pin_path_spec(a) {
            Some(p) => LaunchView::PinFile(p),
            None => launch_window_spec(a),
        }
    }
}

/// A launch that pins no file: the flag errors, the tray, or a window.
pub open spec fn launch_window_spec(a: Seq<Seq<char>>) -> LaunchView {
    if pin_flag_spec(a) is Err {
        LaunchView::PinWithoutSource
    } else if copy_flag_spec(a) is Err {
        LaunchView::CopyWithoutCapture
    } else if !(has_flag(a, "--capture"@) || has_flag(a, "--open"@) || has_flag(a, "--clipboard"@)
        || has_flag(a, "--history"@) || has_flag(a, "--pin"@)) {
        LaunchView::Daemon
    } else {
        let source = match monitor_arg_spec(a) {
            Some(i) => Source::Monitor(i as usize),
            None => Source::All,
        };
        let start = if has_flag(a, "--open"@) {
            match arg_after_spec(a, "--open"@) {
                Some(p) => StartView::OpenPath(p),
                None => StartView::OpenDialog,
            }
        } else if has_flag(a, "--clipboard"@) {
            StartView::Clipboard
        } else if has_flag(a, "--history"@) {
            StartView::History
        } else if has_flag(a, "--window"@) {
            StartView::Window(arg_after_spec(a, "--window"@))
        } else {
            StartView::Screen { full: has_flag(a, "--full"@) }
        };
        LaunchView::Window {
            start,
            source,
            pin: has_flag(a, "--pin"@),
            copy: has_flag(a, "--copy"@),
        }
    }
}

fn owned(s: &String) -> (r: String)
    ensures
        r@ == s@,
{
    s.clone()
}

/// What a launch with these arguments does.
pub fn launch(args: &[String]) -> (r: Launch)
    ensures
        launch_view(r) == launch_spec(arg_views(args@)),
{
    if has_arg(args, "--help") || has_arg(args, "-h") {
        return Launch::Help;
    }
    if has_arg(args, "--settings") {
        return Launch::Settings;
    }
    if let Some(path) = pin_path(args) {
        return Launch::PinFile(owned(path));
    }
    let pin = match pin_flag(args) {
        Ok(p) => p,
        Err(()) => return Launch::PinWithoutSource,
    };
    let copy = match copy_flag(args) {
        Ok(c) => c,
        Err(()) => return Launch::CopyWithoutCapture,
    };
    let opens_a_window = has_arg(args, "--capture") || has_arg(args, "--open") || has_arg(
        args,
        "--clipboard",
    ) || has_arg(args, "--history") || has_arg(args, "--pin");
    if !opens_a_window {
        return Launch::Daemon;
    }
    let source = match monitor_arg(args) {
        Some(i) => Source::Monitor(i),
        None => Source::All,
    };
    let start = if has_arg(args, "--open") {
        match arg_after(args, "--open") {
            Some(p) => StartKind::OpenPath(owned(p)),
            None => StartKind::OpenDialog,
        }
    } else if has_arg(args, "--clipboard") {
        StartKind::Clipboard
    } else if has_arg(args, "--history") {
        StartKind::History
    } else if has_arg(args, "--window") {
        match arg_after(args, "--window") {
            Some(id) => StartKind::Window(Some(owned(id))),
            None => StartKind::Window(None),
        }
    } else {
        StartKind::Screen { full: has_arg(args, "--full") }
    };
    Launch::Window { start, source, pin, copy }
}

/// What happens around a capture taken with `--copy` or `--pin`.
#[derive(Clone, Copy, PartialEq, Eq, Debug, Structural)]
pub struct AfterCapture {
    /// Beautify the shot and put it on the clipboard now, without a window.
    pub copy_now: bool,
    /// Then stop: nothing else was asked for.
    pub done_after_copy: bool,
    /// Copy when the editor finishes instead.
    pub copy_on_finish: bool,
    /// Pin the shot now instead of opening the editor.
    pub pin_now: bool,
    /// Pin when the editor finishes instead.
    pub pin_on_finish: bool,
}

/// `--copy` copies a finished shot at once, but not when redaction is on (a
/// windowless copy would not have recognised any text) and not before there
/// is a shot to copy; then the editor copies when it finishes. `--pin` pins
/// a finished shot at once, else when the editor finishes. `has_shot` says
/// whether the window would open on a finished capture (the whole screen or
/// one window) rather than on the picker or a file.
pub open spec fn after_capture_spec(copy: bool, pin: bool, redact: bool, has_shot: bool) -> AfterCapture {
    let copy_now = copy && !redact && has_shot;
    AfterCapture {
        copy_now,
        done_after_copy: copy_now && !pin,
        copy_on_finish: copy && !redact && !has_shot,
        pin_now: pin && has_shot,
        pin_on_finish: pin && !has_shot,
    }
}

pub fn after_capture(copy: bool, pin: bool, redact: bool, has_shot: bool) -> (r: AfterCapture)
    ensures
        r == after_capture_spec(copy, pin, redact, has_shot),
{
    let copy_now = copy && !redact && has_shot;
    AfterCapture {
        copy_now,
        done_after_copy: copy_now && !pin,
        copy_on_finish: copy && !redact && !has_shot,
        pin_now: pin && has_shot,
        pin_on_finish: pin && !has_shot,
    }
}

} // verus!
