use shotr_core::i18n::{lookup, t, tf, Lang, VI};

#[test]
fn the_table_is_sorted_and_has_no_duplicates() {
    for pair in VI.windows(2) {
        assert!(
            pair[0].0 < pair[1].0,
            "out of order (or duplicated): {:?} then {:?}",
            pair[0].0,
            pair[1].0
        );
    }
}

#[test]
fn every_entry_is_translated_to_something() {
    for (en, vi) in VI {
        assert!(!en.trim().is_empty(), "empty key");
        assert!(!vi.trim().is_empty(), "{en:?} has an empty translation");
    }
}

#[test]
fn placeholders_are_filled_after_translation() {
    assert_eq!(
        tf(Lang::Vi, "Saved: {path}", &[("path", "/tmp/a.png")]),
        "Đã lưu: /tmp/a.png"
    );
    // An argument with no matching placeholder must not corrupt the string.
    assert_eq!(tf(Lang::Vi, "Copy", &[("nope", "x")]), "Copy");
}

#[test]
fn a_placeholder_can_move_within_the_sentence() {
    assert_eq!(tf(Lang::En, "{n} words copied", &[("n", "12")]), "12 words copied");
    assert_eq!(tf(Lang::Vi, "{n} words copied", &[("n", "12")]), "Đã copy 12 từ");
}

#[test]
fn english_returns_the_source_string_untouched() {
    assert_eq!(t(Lang::En, "Save"), "Save");
    assert_eq!(t(Lang::En, "something never translated"), "something never translated");
}

#[test]
fn vietnamese_translates_what_it_knows_and_falls_back_otherwise() {
    assert_eq!(t(Lang::Vi, "Save"), "Lưu");
    assert_eq!(
        t(Lang::Vi, "a string with no entry"),
        "a string with no entry",
        "a missing translation must show English, never a blank or a key"
    );
}

#[test]
fn each_language_names_itself() {
    assert_eq!(Lang::Vi.label(), "Tiếng Việt");
    assert_eq!(Lang::En.code(), "EN");
    assert_eq!(Lang::default(), Lang::En);
    assert_eq!(lookup("Undo"), Some("Hoàn tác"));
    assert_eq!(tf(Lang::En, "{a}{a}", &[("a", "x")]), "xx");
}

#[test]
fn strings_shown_outside_the_table_module_have_entries() {
    for en in [
        "Line",
        "Cover by hand",
        "Keep this shot floating above other windows",
    ] {
        assert!(lookup(en).is_some(), "{en:?} has no Vietnamese entry");
        assert_ne!(t(Lang::Vi, en), en, "{en:?} stays English");
    }
}
