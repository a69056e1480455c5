use shotr_core::hotkey::{
    bindings, candidates, first_run_binding, suggestion, Action, Command, Hotkey, Hotkeys, Mods,
    Prefs,
};

/// The platform in these tests binds hotkeys in-process, as macOS does.
const EDITABLE: bool = true;

#[test]
fn a_combination_survives_a_round_trip() {
    for text in [
        "Cmd+Shift+4",
        "Ctrl+Shift+4",
        "Cmd+Ctrl+Alt+Shift+A",
        "Cmd+F5",
        "Shift+9",
    ] {
        let parsed: Hotkey = text.parse().expect("should parse");
        assert_eq!(
            parsed.to_string(),
            text,
            "{text} did not survive parse then format, so a stored binding \
             would change meaning on the next load"
        );
    }
}

#[test]
fn modifier_order_is_normalised_not_preserved() {
    let parsed: Hotkey = "Shift+Cmd+4".parse().expect("should parse");
    assert_eq!(
        parsed.to_string(),
        "Cmd+Shift+4",
        "two spellings of one binding must store identically, or a settings \
         file and the interface disagree about what is bound"
    );
}

#[test]
fn spelling_variants_reach_the_same_combination() {
    let a: Hotkey = "Command+Option+5".parse().expect("should parse");
    let b: Hotkey = "cmd+alt+5".parse().expect("should parse");
    assert_eq!(a, b, "an alias must not produce a different binding");
}

#[test]
fn garbage_is_rejected_rather_than_guessed() {
    for text in [
        "",
        "Cmd+",
        "+4",
        "Nope+4",
        "Cmd+Shift",
        "Cmd+F21",
        "Cmd+F0",
        "Cmd+ab",
        "Cmd+4+5",
        // A repeated modifier, including through an alias.
        "Cmd+Cmd+4",
        "Cmd+super+4",
    ] {
        assert!(
            text.parse::<Hotkey>().is_err(),
            "{text:?} parsed, so a malformed settings row would bind \
             something the user never asked for"
        );
    }
}

#[test]
fn function_keys_normalise_to_one_spelling() {
    for text in ["Cmd+F07", "Cmd+F7"] {
        let parsed: Hotkey = text.parse().expect("should parse");
        assert_eq!(
            parsed.to_string(),
            "Cmd+F7",
            "{text} stored a spelling that is not the canonical one"
        );
    }
    assert!(
        Hotkey::new(Mods::default(), "F+7").is_none(),
        "a key built with a stray sign would render as Cmd+F+7 and never \
         parse back"
    );
}

#[test]
fn no_two_actions_mean_the_same_command() {
    let commands: Vec<_> = Action::ALL.iter().map(|a| a.command()).collect();
    for (i, a) in commands.iter().enumerate() {
        for b in &commands[i + 1..] {
            assert_ne!(
                a, b,
                "two actions map to {a:?}, so binding one silently rebinds \
                 the other"
            );
        }
    }
}

#[test]
fn a_key_with_no_modifier_is_not_bindable() {
    let bare = Hotkey::new(Mods::default(), "4").expect("valid key");
    assert!(
        !bare.is_bindable(),
        "binding a bare key globally takes it from every other application"
    );
}

#[test]
fn option_without_cmd_is_not_bindable() {
    let mods = Mods {
        alt: true,
        shift: true,
        ..Mods::default()
    };
    let hk = Hotkey::new(mods, "4").expect("valid key");
    assert!(
        !hk.is_bindable(),
        "Option composes text on macOS, so grabbing it without Cmd costs \
         the keyboard a character"
    );
}

#[test]
fn every_action_maps_to_a_real_invocation() {
    for action in Action::ALL {
        let args = action.command().args();
        assert!(
            !args.is_empty(),
            "{action:?} would launch the daemon instead of capturing"
        );
    }
}

#[test]
fn a_fresh_install_is_given_one_working_shortcut() {
    let fresh = Prefs::default();
    let (action, hotkey) = first_run_binding(&fresh, &[], EDITABLE)
        .expect("a fresh install got nothing at all");
    assert_eq!(
        action,
        Action::Region,
        "region capture is the one worth claiming unasked; the rest is a \
         land grab on someone who has not asked for anything"
    );
    assert_eq!(hotkey.to_string(), "Cmd+Shift+4");
}

#[test]
fn the_starting_shortcut_avoids_what_macos_holds() {
    let system = vec!["Cmd+Shift+4".parse().expect("valid")];
    let (_, hotkey) =
        first_run_binding(&Prefs::default(), &system, EDITABLE).expect("something is free");
    assert_ne!(
        hotkey.to_string(),
        "Cmd+Shift+4",
        "binding what macOS holds means one press runs two things, and \
         nothing anywhere reports it"
    );
}

#[test]
fn the_starting_shortcut_is_offered_once_and_never_again() {
    let settled = Prefs {
        hotkeys_initialised: true,
        ..Prefs::default()
    };
    assert_eq!(first_run_binding(&settled, &[], EDITABLE), None);

    let cleared = Prefs {
        hotkeys: Vec::new(),
        hotkeys_initialised: true,
        ..Prefs::default()
    };
    assert_eq!(
        first_run_binding(&cleared, &[], EDITABLE),
        None,
        "an empty list after the first run is a decision, not a fresh install"
    );
}

#[test]
fn an_existing_binding_settles_it_even_with_the_flag_unset() {
    let upgraded = Prefs {
        hotkeys: vec![(Action::Region, "Cmd+Shift+4".to_owned())],
        hotkeys_initialised: false,
        ..Prefs::default()
    };
    assert_eq!(
        first_run_binding(&upgraded, &[], EDITABLE),
        None,
        "a second combination was added for an action that already had one"
    );
}

#[test]
fn one_bad_row_does_not_cost_the_others() {
    let stored = vec![
        (Action::Region, "Cmd+Shift+4".to_owned()),
        (Action::Full, "not a hotkey".to_owned()),
        // Parses, but binding a bare key takes it from everything else.
        (Action::Hub, "9".to_owned()),
        (Action::FullCopy, "Cmd+Ctrl+Shift+3".to_owned()),
    ];
    let live = bindings(&stored);
    assert_eq!(
        live.len(),
        2,
        "a typo in one row must not lose the hotkeys that are fine"
    );
    assert!(
        live.iter().all(|(_, hotkey)| hotkey.is_bindable()),
        "an unbindable row survived, so the daemon would grab a bare key"
    );
}

#[test]
fn candidates_keep_the_key_and_avoid_the_input() {
    let taken: Hotkey = "Cmd+Shift+4".parse().expect("should parse");
    let offered = candidates(&taken);

    assert!(!offered.is_empty(), "a taken key must still offer neighbours");
    for candidate in &offered {
        assert_eq!(
            candidate.key(),
            taken.key(),
            "changing the key loses the muscle memory the ladder exists for"
        );
        assert_ne!(
            candidate, &taken,
            "offering the combination the user already has reads as broken"
        );
        assert!(
            candidate.is_bindable(),
            "{} was offered but cannot be bound",
            candidate.to_string()
        );
    }
}

#[test]
fn candidates_never_steal_a_typed_character() {
    for text in ["Cmd+Shift+4", "Ctrl+Shift+4", "Cmd+Alt+Shift+7"] {
        let taken: Hotkey = text.parse().expect("should parse");
        for candidate in candidates(&taken) {
            assert!(
                !candidate.mods.steals_typing(),
                "{} holds Option without Cmd and would swallow a \
                 character the keyboard can no longer type",
                candidate.to_string()
            );
        }
    }
}

// Scenarios beyond the original suite.

#[test]
fn whitespace_around_tokens_is_ignored() {
    let h: Hotkey = " cmd + shift + a ".parse().expect("should parse");
    assert_eq!(h.to_string(), "Cmd+Shift+A");
}

#[test]
fn a_suggestion_skips_what_is_taken() {
    let taken: Vec<Hotkey> = vec!["Cmd+Shift+4".parse().unwrap(), "Ctrl+Shift+4".parse().unwrap()];
    let s = suggestion(Action::Region, &taken, &[]).expect("a neighbour is free");
    assert_eq!(s.to_string(), "Cmd+Alt+Shift+4");
    assert_eq!(suggestion(Action::Full, &[], &[]).unwrap().to_string(), "Cmd+Shift+3");
}

#[test]
fn commands_carry_their_flags() {
    assert_eq!(Command::CaptureFullCopy.args(), vec!["--capture", "--full", "--copy"]);
    assert!(Command::Quit.args().is_empty());
}

#[test]
fn a_platform_that_leaves_hotkeys_to_the_desktop_gets_none() {
    assert_eq!(first_run_binding(&Prefs::default(), &[], false), None);
}

#[test]
fn only_key_presses_of_bound_registrations_fire() {
    let mut live = Hotkeys::new();
    assert!(live.pressed(&[(7, true)]).is_empty(), "nothing is bound yet");
    live.bind(7, Action::Region);
    live.bind(9, Action::Full);
    // A press and its release arrive together; only the press counts, and an
    // id nobody bound is ignored.
    let fired = live.pressed(&[(7, true), (7, false), (3, true), (9, true)]);
    assert_eq!(fired, vec![Action::Region, Action::Full]);
}

#[test]
fn rebinding_replaces_and_clearing_forgets() {
    let mut live = Hotkeys::new();
    live.bind(7, Action::Region);
    live.bind(7, Action::RegionCopy);
    assert_eq!(live.pressed(&[(7, true)]), vec![Action::RegionCopy]);
    live.clear();
    assert!(live.pressed(&[(7, true)]).is_empty());
}
