use shotr_core::label::{apply_text_events, EditKey, TextAction, TextEvent};

fn text(s: &str) -> TextEvent {
    TextEvent::Text(s.to_owned())
}

fn key(k: EditKey) -> TextEvent {
    TextEvent::Key { key: k, pressed: true, command: false }
}

fn run(events: &[TextEvent]) -> (String, usize, String, TextAction) {
    let (mut t, mut c, mut p) = (String::new(), 0usize, String::new());
    let a = apply_text_events(&mut t, &mut c, &mut p, events);
    (t, c, p, a)
}

#[test]
fn plain_typing_lands_in_the_label() {
    let (t, c, _, a) = run(&[text("Hi"), text(" there")]);
    assert_eq!(t, "Hi there");
    assert_eq!(c, t.len(), "caret should trail the text");
    assert_eq!(a, TextAction::Continue);
}

#[test]
fn an_ime_composition_only_lands_on_commit() {
    let (mut t, mut c, mut p) = (String::new(), 0usize, String::new());

    apply_text_events(&mut t, &mut c, &mut p, &[TextEvent::ImeToggle]);
    apply_text_events(&mut t, &mut c, &mut p, &[TextEvent::Preedit("d".into())]);
    assert_eq!(t, "", "a composition in flight must not be in the label yet");
    assert_eq!(p, "d", "but it must be visible as preedit");

    apply_text_events(&mut t, &mut c, &mut p, &[TextEvent::Preedit("dd".into())]);
    assert_eq!(p, "dd");

    apply_text_events(&mut t, &mut c, &mut p, &[TextEvent::Commit("đ".into())]);
    assert_eq!(t, "đ", "commit is what actually writes the character");
    assert_eq!(p, "", "and it clears the composition");
    assert_eq!(c, "đ".len(), "caret moves past the multi-byte character");
}

#[test]
fn keys_are_ignored_while_a_composition_is_open() {
    let (mut t, mut c, mut p) = ("xin".to_owned(), 3usize, String::new());
    apply_text_events(&mut t, &mut c, &mut p, &[TextEvent::Preedit("ch".into())]);

    let a = apply_text_events(&mut t, &mut c, &mut p, &[key(EditKey::Enter)]);
    assert_eq!(a, TextAction::Continue, "Enter belongs to the IME here");

    apply_text_events(&mut t, &mut c, &mut p, &[key(EditKey::Backspace)]);
    assert_eq!(t, "xin", "backspace must not eat the committed text either");
}

#[test]
fn enter_finishes_and_escape_cancels() {
    assert_eq!(run(&[text("a"), key(EditKey::Enter)]).3, TextAction::Finish);
    assert_eq!(run(&[text("a"), key(EditKey::Escape)]).3, TextAction::Cancel);
    assert_eq!(run(&[text("a"), key(EditKey::Enter)]).0, "a");
}

#[test]
fn backspace_deletes_one_whole_vietnamese_character() {
    let (mut t, mut c, mut p) = ("Việt".to_owned(), "Việt".len(), String::new());
    apply_text_events(&mut t, &mut c, &mut p, &[key(EditKey::Backspace)]);
    assert_eq!(t, "Việ");
    apply_text_events(&mut t, &mut c, &mut p, &[key(EditKey::Backspace)]);
    assert_eq!(t, "Vi", "the multi-byte ệ goes in one press, not several");
    assert_eq!(c, 2);
}

#[test]
fn the_caret_can_walk_into_the_middle_and_insert_there() {
    let (mut t, mut c, mut p) = ("Chào".to_owned(), "Chào".len(), String::new());
    for _ in 0..2 {
        apply_text_events(&mut t, &mut c, &mut p, &[key(EditKey::ArrowLeft)]);
    }
    apply_text_events(&mut t, &mut c, &mut p, &[text("X")]);
    assert_eq!(t, "ChXào", "insert must happen at the caret, not the end");
}

#[test]
fn home_and_end_jump_without_splitting_characters() {
    let (mut t, mut c, mut p) = ("Việt".to_owned(), 0usize, String::new());
    apply_text_events(&mut t, &mut c, &mut p, &[key(EditKey::End)]);
    assert_eq!(c, t.len());
    apply_text_events(&mut t, &mut c, &mut p, &[key(EditKey::Home)]);
    assert_eq!(c, 0);
    apply_text_events(&mut t, &mut c, &mut p, &[text("A")]);
    assert_eq!(t, "AViệt");
}

#[test]
fn delete_removes_forward_and_stops_at_the_end() {
    let (mut t, mut c, mut p) = ("đá".to_owned(), 0usize, String::new());
    apply_text_events(&mut t, &mut c, &mut p, &[key(EditKey::Delete)]);
    assert_eq!(t, "á");
    apply_text_events(&mut t, &mut c, &mut p, &[key(EditKey::Delete)]);
    assert_eq!(t, "");
    apply_text_events(&mut t, &mut c, &mut p, &[key(EditKey::Delete)]);
    assert_eq!(t, "");
}

#[test]
fn a_pasted_block_becomes_one_line() {
    let (t, _, _, _) = run(&[TextEvent::Paste("hai\ndòng".into())]);
    assert_eq!(t, "hai dòng", "the renderer draws a single line");
}

#[test]
fn a_stale_caret_inside_a_character_does_not_panic() {
    let (mut t, mut c, mut p) = ("đ".to_owned(), 1usize, String::new());
    apply_text_events(&mut t, &mut c, &mut p, &[text("x")]);
    assert!(t == "xđ" || t == "đx", "got {t:?}");
    assert_eq!(t, "xđ", "the caret snaps back to the start of the character");
    assert_eq!(c, 1);
}

#[test]
fn a_caret_past_the_end_types_at_the_end() {
    let (mut t, mut c, mut p) = ("ab".to_owned(), 99usize, String::new());
    apply_text_events(&mut t, &mut c, &mut p, &[text("c")]);
    assert_eq!(t, "abc");
    assert_eq!(c, 3);
}

#[test]
fn typing_then_backspace_gives_back_the_label() {
    let (mut t, mut c, mut p) = ("Chào".to_owned(), 2usize, String::new());
    apply_text_events(&mut t, &mut c, &mut p, &[text("ệ")]);
    assert_eq!(t, "Chệào");
    apply_text_events(&mut t, &mut c, &mut p, &[key(EditKey::Backspace)]);
    assert_eq!(t, "Chào");
    assert_eq!(c, 2);
}

#[test]
fn the_command_arrows_jump_to_either_end() {
    let (mut t, mut c, mut p) = ("đá".to_owned(), 2usize, String::new());
    let right = TextEvent::Key { key: EditKey::ArrowRight, pressed: true, command: true };
    apply_text_events(&mut t, &mut c, &mut p, &[right]);
    assert_eq!(c, t.len());
    let left = TextEvent::Key { key: EditKey::ArrowLeft, pressed: true, command: true };
    apply_text_events(&mut t, &mut c, &mut p, &[left]);
    assert_eq!(c, 0);
}

#[test]
fn released_keys_and_other_events_change_nothing() {
    let (mut t, mut c, mut p) = ("ab".to_owned(), 2usize, String::new());
    let up = TextEvent::Key { key: EditKey::Backspace, pressed: false, command: false };
    let a = apply_text_events(&mut t, &mut c, &mut p, &[up, TextEvent::Other]);
    assert_eq!((t.as_str(), c, a), ("ab", 2, TextAction::Continue));
}

#[test]
fn events_after_enter_are_left_unread() {
    let (t, _, _, a) = run(&[text("a"), key(EditKey::Enter), text("b")]);
    assert_eq!(t, "a");
    assert_eq!(a, TextAction::Finish);
}

#[test]
fn a_mixed_batch_leaves_the_caret_on_a_character_boundary() {
    let (mut t, mut c, mut p) = ("héllo wörld".to_owned(), 3usize, String::new());
    let events = [
        text("ü"),
        key(EditKey::ArrowLeft),
        key(EditKey::Backspace),
        TextEvent::Paste("ñ\nx".into()),
        key(EditKey::ArrowRight),
        key(EditKey::Delete),
        text("ø"),
    ];
    let a = apply_text_events(&mut t, &mut c, &mut p, &events);
    assert_eq!(a, TextAction::Continue);
    assert!(c <= t.len() && t.is_char_boundary(c), "caret {c} inside a character of {t:?}");
}
