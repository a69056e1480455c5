use shotr_core::ocr::{join_words, Word};

fn w(text: &str, x: i32, y: i32) -> Word {
    Word { text: text.into(), rect: [x, y, x + 40, y + 12] }
}

#[test]
fn words_join_in_reading_order_with_line_breaks() {
    let words = vec![
        w("world", 60, 10),
        w("second", 0, 100),
        w("Hello", 0, 10),
        w("line", 60, 100),
    ];
    let all: Vec<usize> = (0..words.len()).collect();
    assert_eq!(join_words(&words, &all), "Hello world\nsecond line");
}

#[test]
fn joining_a_subset_only_includes_that_subset() {
    let words = vec![w("a", 0, 0), w("b", 40, 0), w("c", 80, 0)];
    assert_eq!(join_words(&words, &[0, 2]), "a c");
}

#[test]
fn joining_nothing_is_empty_not_a_panic() {
    assert_eq!(join_words(&[], &[]), "");
    assert_eq!(join_words(&[w("x", 0, 0)], &[]), "");
    assert_eq!(join_words(&[w("x", 0, 0)], &[7]), "");
}

#[test]
fn a_small_drift_stays_on_the_line_and_a_large_one_breaks_it() {
    // Height 12: a drift of 7 is within 0.6 of a line, 8 is past it.
    let words = vec![w("a", 0, 0), w("b", 50, 7), w("c", 100, 15)];
    assert_eq!(join_words(&words, &[0, 1, 2]), "a b\nc");
}

#[test]
fn words_are_trimmed_and_same_spot_words_keep_their_order() {
    let words = vec![w("  one ", 0, 0), w("two", 0, 0)];
    assert_eq!(join_words(&words, &[1, 0]), "two one");
    assert_eq!(join_words(&words, &[0, 1]), "one two");
}
