use global_hotkey::hotkey::{Code, HotKey, Modifiers};
use shotr_core::system_hotkeys::{
    code_for, code_name, from_parameters, native_id, parse_symbolic_hotkeys, system_bindings,
};
use shotr_core::hotkey::Hotkey;

/// What `defaults read com.apple.symbolichotkeys AppleSymbolicHotKeys`
/// prints, trimmed to a few entries: the five screenshot shortcuts (the first
/// switched off), two entries that are not screenshots, and two malformed
/// screenshot-shaped entries — one with too few parameters, one with none.
const FIXTURE: &str = "{
    10 =     {
        enabled = 1;
        value =         {
            parameters =             (
                65535,
                96,
                8650752
            );
            type = standard;
        };
    };
    28 =     {
        enabled = 0;
        value =         {
            parameters =             (
                51,
                20,
                1179648
            );
            type = standard;
        };
    };
    29 =     {
        enabled = 1;
        value =         {
            parameters =             (
                51,
                20,
                1441792
            );
            type = standard;
        };
    };
    30 =     {
        enabled = 1;
        value =         {
            parameters =             (
                52,
                21,
                1179648
            );
            type = standard;
        };
    };
    31 =     {
        enabled = 1;
        value =         {
            parameters =             (
                52,
                21,
                1441792
            );
            type = standard;
        };
    };
    32 =     {
        enabled = 1;
        value =         {
            parameters =             (
                21,
                1179648
            );
            type = standard;
        };
    };
    33 =     {
        enabled = 1;
    };
    184 =     {
        enabled = 1;
        value =         {
            parameters =             (
                53,
                23,
                1179648
            );
            type = standard;
        };
    };
    190 =     {
        enabled = 0;
        value =         {
            parameters =             (
                113,
                12,
                8388608
            );
            type = standard;
        };
    };
}
";

fn parsed() -> Vec<(Hotkey, bool)> {
    parse_symbolic_hotkeys(FIXTURE)
}

#[test]
fn the_five_screenshot_shortcuts_are_recognised() {
    let found: Vec<String> = parsed().iter().map(|(h, _)| h.to_string()).collect();
    for expected in [
        "Cmd+Shift+3",
        "Cmd+Ctrl+Shift+3",
        "Cmd+Shift+4",
        "Cmd+Ctrl+Shift+4",
        "Cmd+Shift+5",
    ] {
        assert!(
            found.iter().any(|f| f == expected),
            "{expected} was not read back, so the interface cannot warn that \
             macOS holds it. Found: {found:?}"
        );
    }
}

#[test]
fn a_disabled_shortcut_reads_as_disabled() {
    let by_name = |name: &str| {
        parsed()
            .into_iter()
            .find(|(h, _)| h.to_string() == name)
            .map(|(_, on)| on)
    };
    assert_eq!(
        by_name("Cmd+Shift+3"),
        Some(false),
        "a switched-off shortcut read as on would warn about a key that is free"
    );
    assert_eq!(
        by_name("Cmd+Shift+4"),
        Some(true),
        "a switched-on shortcut read as off would let a collision through silently"
    );
}

#[test]
fn nsevent_masks_decode_to_the_right_modifiers() {
    let hk = from_parameters(21, 1179648).expect("Cmd+Shift+4");
    assert_eq!(
        hk.to_string(),
        "Cmd+Shift+4",
        "1179648 is NSEvent's command|shift; reading it with Carbon's table \
         gives a plausible wrong answer instead of an error"
    );
    let hk = from_parameters(20, 1441792).expect("Cmd+Ctrl+Shift+3");
    assert_eq!(hk.to_string(), "Cmd+Ctrl+Shift+3");
}

#[test]
fn malformed_entries_are_skipped_not_fatal() {
    assert_eq!(
        parsed().len(),
        5,
        "an entry with too few parameters, or none at all, must not stop the \
         rest of the file from being read"
    );
}

#[test]
fn an_unknown_keycode_yields_nothing() {
    assert!(
        from_parameters(65535, 1179648).is_none(),
        "65535 is the placeholder Apple writes for 'no key', and must not \
         become a binding"
    );
}

#[test]
fn every_key_the_facade_admits_has_a_physical_code_name() {
    for (key, name) in [
        ("0", "Digit0"),
        ("4", "Digit4"),
        ("A", "KeyA"),
        ("Z", "KeyZ"),
        ("F1", "F1"),
        ("F20", "F20"),
    ] {
        assert_eq!(code_name(key).as_deref(), Some(name));
    }
    assert_eq!(code_name("Space").as_deref(), None);
}

#[test]
fn only_switched_on_shortcuts_are_held_by_the_system() {
    let held: Vec<String> = system_bindings(FIXTURE).iter().map(|h| h.to_string()).collect();
    assert_eq!(
        held,
        vec!["Cmd+Ctrl+Shift+3", "Cmd+Shift+4", "Cmd+Ctrl+Shift+4", "Cmd+Shift+5"]
    );
    assert!(system_bindings("").is_empty());
}

#[test]
fn every_key_the_facade_admits_maps_to_a_physical_code() {
    for key in ["0", "4", "9", "A", "M", "Z", "F1", "F9", "F12", "F20"] {
        assert!(code_for(key).is_some(), "{key} passes the façade's allowlist but cannot be registered");
    }
    assert!(code_for("Space").is_none(), "the allowlist does not admit it, so neither should the mapping");
}

#[test]
fn a_registration_id_is_the_one_the_hotkey_library_gives() {
    let h = Hotkey::parse_text("Cmd+Shift+4").unwrap();
    let native = HotKey::new(Some(Modifiers::META | Modifiers::SHIFT), Code::Digit4);
    assert_eq!(native_id(&h), Some(native.id()));
    let h = Hotkey::parse_text("Ctrl+Alt+F5").unwrap();
    let native = HotKey::new(Some(Modifiers::CONTROL | Modifiers::ALT), Code::F5);
    assert_eq!(native_id(&h), Some(native.id()));
}
