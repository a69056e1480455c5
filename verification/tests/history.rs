use shotr_core::history::{
    entries, entry_ts, image_name, stale, thumb_name, thumb_size, Entry, MAX_ENTRIES, THUMB_W,
};

#[test]
fn thumbnails_keep_aspect_ratio_and_never_upscale() {
    let (w, h) = thumb_size(4000, 2000);
    assert_eq!(w, THUMB_W);
    assert_eq!(h, THUMB_W / 2);

    assert_eq!(thumb_size(120, 90), (120, 90));
}

#[test]
fn thumbnail_of_an_extreme_panorama_still_has_height() {
    let (_, h) = thumb_size(10000, 30);
    assert!(h >= 1, "height rounded away to zero");
}

#[test]
fn thumbnail_heights_round_to_the_nearest_pixel() {
    // 300 * 200 / 700 = 85.71...
    assert_eq!(thumb_size(700, 300), (200, 86));
    // 100 * 200 / 300 = 66.66...
    assert_eq!(thumb_size(300, 100), (200, 67));
    // Exactly half a pixel rounds up: 1 * 200 / 400 = 0.5.
    assert_eq!(thumb_size(400, 1), (200, 1));
    assert_eq!(thumb_size(0, 0), (1, 1));
}

#[test]
fn names_are_read_back_and_thumbnails_are_not_entries() {
    assert_eq!(image_name(1700000000123), "1700000000123.png");
    assert_eq!(thumb_name(1700000000123), "1700000000123.thumb.png");
    assert_eq!(entry_ts("1700000000123.png"), Some(1700000000123));
    assert_eq!(entry_ts("1700000000123.thumb.png"), None);
    assert_eq!(entry_ts("notes.png"), None);
    assert_eq!(entry_ts("12.jpg"), None);
    assert_eq!(entry_ts(".png"), None);
    assert_eq!(entry_ts("99999999999999999999.png"), None, "past u64 is not a timestamp");
}

#[test]
fn the_listing_is_newest_first_and_skips_other_files() {
    let names: Vec<String> = ["5.png", "5.thumb.png", "12.png", "readme.txt", "7.png", "12.thumb.png"]
        .iter()
        .map(|s| s.to_string())
        .collect();
    let list = entries("/home/u/.config/shotr/history", &names);
    let ts: Vec<u64> = list.iter().map(|e| e.ts).collect();
    assert_eq!(ts, vec![12, 7, 5]);
    assert_eq!(
        list[0],
        Entry {
            ts: 12,
            image: "/home/u/.config/shotr/history/12.png".into(),
            thumb: "/home/u/.config/shotr/history/12.thumb.png".into(),
        }
    );
}

#[test]
fn pruning_drops_everything_past_the_newest_entries() {
    let make = |n: u64| -> Vec<Entry> {
        (0..n)
            .rev()
            .map(|ts| Entry { ts, image: format!("{ts}.png"), thumb: format!("{ts}.thumb.png") })
            .collect()
    };
    assert!(stale(make(MAX_ENTRIES as u64)).is_empty());
    let old = stale(make(MAX_ENTRIES as u64 + 3));
    let ts: Vec<u64> = old.iter().map(|e| e.ts).collect();
    assert_eq!(ts, vec![2, 1, 0], "the three oldest go");
}
