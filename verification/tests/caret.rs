use shotr_core::caret::{next_boundary, prev_boundary};

#[test]
fn the_caret_only_ever_lands_on_character_boundaries() {
    for text in ["Chào bạn", "Việt Nam vô địch", "a", "", "đđđ", "x 界 y"] {
        let mut i = 0;
        while i < text.len() {
            let next = next_boundary(text, i);
            assert!(next > i, "{text:?} stalled at {i}");
            assert!(text.is_char_boundary(next), "{text:?} split at {next}");
            let _ = &text[..next];
            i = next;
        }
        while i > 0 {
            let prev = prev_boundary(text, i);
            assert!(prev < i, "{text:?} stalled going back at {i}");
            assert!(text.is_char_boundary(prev), "{text:?} split at {prev}");
            let _ = &text[..prev];
            i = prev;
        }
    }
}

#[test]
fn boundaries_clamp_at_both_ends() {
    assert_eq!(prev_boundary("Chào", 0), 0, "must not run off the front");
    let end = "Chào".len();
    assert_eq!(next_boundary("Chào", end), end, "must not run off the back");
    assert!(prev_boundary("ab", 99) <= 2);
    assert_eq!(next_boundary("ab", 99), 2);
}

#[test]
fn one_step_back_removes_exactly_one_character() {
    let text = "Việt";
    let i = prev_boundary(text, text.len());
    assert_eq!(&text[..i], "Việ", "backspace should drop just the 't'");
    let j = prev_boundary(text, i);
    assert_eq!(&text[..j], "Vi", "and then just the 'ệ'");
}

#[test]
fn a_step_right_skips_a_whole_multibyte_character() {
    // "ệ" is three bytes; from its first byte the next stop is past all three.
    let text = "Việt";
    assert_eq!(next_boundary(text, 2), 5);
    assert_eq!(prev_boundary(text, 5), 2);
    assert_eq!(next_boundary(text, 3), 5, "a caret stuck mid-character moves on");
}
