use image::{RgbImage, RgbaImage};
use shotr_core::export::{encode, flatten_on_white, SaveOptions};
use shotr_core::picture::Picture;
use shotr_core::export::{
    chosen_format, civil_from_unix, default_path, expand_template, extension_of, ExportFormat,
};

#[test]
fn template_tokens_expand() {
    // 2023-11-14T22:13:20 UTC
    let out = expand_template("shotr-{date}-{time}", 1_700_000_000);
    assert_eq!(out, "shotr-2023-11-14-22-13-20");
}

#[test]
fn unix_token_expands() {
    assert_eq!(expand_template("shot{unix}", 42), "shot42");
}

#[test]
fn the_epoch_converts_correctly() {
    let (date, time) = civil_from_unix(0);
    assert_eq!(date, "1970-01-01");
    assert_eq!(time, "00-00-00");
}

#[test]
fn a_leap_day_converts_correctly() {
    // 2024-02-29T12:00:00 UTC
    let (date, time) = civil_from_unix(1_709_208_000);
    assert_eq!(date, "2024-02-29");
    assert_eq!(time, "12-00-00");
}

#[test]
fn an_empty_template_still_yields_a_name() {
    assert_eq!(expand_template("   ", 7), "shotr-7");
}

#[test]
fn path_separators_cannot_escape_the_directory() {
    let out = expand_template("../../etc/passwd", 1);
    assert!(!out.contains('/'), "got {out}");
    assert!(!out.contains('\\'));
}

#[test]
fn unknown_tokens_are_left_alone() {
    assert_eq!(expand_template("a{nope}b", 1), "a{nope}b");
}

#[test]
fn a_default_path_sits_in_the_shotr_folder() {
    assert_eq!(
        default_path("/home/u/Pictures", "shot{unix}", ExportFormat::Png, 5),
        "/home/u/Pictures/shotr/shot5.png"
    );
    assert_eq!(
        default_path("/p/", "x", ExportFormat::Jpeg, 0),
        "/p/shotr/x.jpg"
    );
}

#[test]
fn the_chosen_path_names_its_format_by_extension() {
    let ext = extension_of("/tmp/shotr-export2/forced.jpg");
    assert_eq!(ext.as_deref(), Some("jpg"));
    assert_eq!(chosen_format(ext.as_deref(), ExportFormat::Png), ExportFormat::Jpeg);
    assert_eq!(chosen_format(None, ExportFormat::Webp), ExportFormat::Webp);
    assert_eq!(extension_of("/tmp/.hidden"), None);
    assert_eq!(extension_of("/tmp/a.tar.gz/").as_deref(), Some("gz"));
}

#[test]
fn the_last_second_of_a_day_and_a_century_boundary() {
    assert_eq!(civil_from_unix(86_399).1, "23-59-59");
    // 2000-03-01 follows a leap day in a year divisible by 400.
    assert_eq!(civil_from_unix(951_868_800).0, "2000-03-01");
    assert_eq!(civil_from_unix(951_782_400).0, "2000-02-29");
}

fn flat_of(img: RgbaImage) -> RgbImage {
    let (w, h) = img.dimensions();
    let pic = Picture::from_rgba(w, h, img.into_raw()).unwrap();
    let flat = flatten_on_white(&pic);
    let (fw, fh) = flat.size();
    RgbImage::from_raw(fw, fh, flat.into_rgb()).unwrap()
}

#[test]
fn flattening_puts_transparency_on_white_not_black() {
    let mut img = RgbaImage::new(2, 1);
    img.put_pixel(0, 0, image::Rgba([0, 0, 0, 0]));
    img.put_pixel(1, 0, image::Rgba([10, 20, 30, 255]));
    let flat = flat_of(img);
    assert_eq!(flat.get_pixel(0, 0).0, [255, 255, 255]);
    assert_eq!(flat.get_pixel(1, 0).0, [10, 20, 30]);
}

#[test]
fn half_transparent_pixels_blend_toward_white() {
    let mut img = RgbaImage::new(1, 1);
    img.put_pixel(0, 0, image::Rgba([0, 0, 0, 128]));
    let flat = flat_of(img);
    let v = flat.get_pixel(0, 0).0[0];
    assert!((120..=136).contains(&v), "got {v}");
}

#[test]
fn flattening_rounds_each_channel_to_the_nearest_level() {
    let mut img = RgbaImage::new(1, 1);
    // 100 * 200/255 + 255 * 55/255 = 133.43...
    img.put_pixel(0, 0, image::Rgba([100, 0, 255, 200]));
    let flat = flat_of(img);
    assert_eq!(flat.get_pixel(0, 0).0, [133, 55, 255]);
}

fn options(format: ExportFormat) -> SaveOptions {
    SaveOptions { format, png_max_compression: false, jpeg_quality: 90 }
}

#[test]
fn every_format_writes_a_readable_file() {
    let img = RgbaImage::from_pixel(24, 16, image::Rgba([200, 60, 90, 255]));
    for format in [ExportFormat::Png, ExportFormat::Jpeg, ExportFormat::Webp] {
        let pic = Picture::from_rgba(24, 16, img.clone().into_raw()).unwrap();
        let path = format!("/tmp/shotr-export/t.{}", format.extension());
        let bytes = encode(&pic, &path, options(format)).expect("save");
        let back = image::load_from_memory(&bytes).expect("reopen").to_rgba8();
        assert_eq!((back.width(), back.height()), (24, 16), "{format:?} round trip");
    }
}

#[test]
fn the_extension_of_the_chosen_path_wins_over_the_setting() {
    let img = RgbaImage::from_pixel(8, 8, image::Rgba([1, 2, 3, 255]));
    let pic = Picture::from_rgba(8, 8, img.into_raw()).unwrap();
    let bytes = encode(&pic, "/tmp/shotr-export2/forced.jpg", options(ExportFormat::Png)).unwrap();
    assert_eq!(image::guess_format(&bytes).unwrap(), image::ImageFormat::Jpeg);
    let bytes = encode(&pic, "/tmp/shotr-export2/plain", options(ExportFormat::Webp)).unwrap();
    assert_eq!(image::guess_format(&bytes).unwrap(), image::ImageFormat::WebP);
}

#[test]
fn a_lossless_save_keeps_every_pixel() {
    let mut img = RgbaImage::new(3, 2);
    img.put_pixel(1, 1, image::Rgba([9, 8, 7, 128]));
    let pic = Picture::from_rgba(3, 2, img.clone().into_raw()).unwrap();
    for path in ["a.png", "a.webp"] {
        let bytes = encode(&pic, path, options(ExportFormat::Jpeg)).unwrap();
        let back = image::load_from_memory(&bytes).unwrap().to_rgba8();
        assert_eq!(back.as_raw(), img.as_raw(), "{path} changed the picture");
    }
}

#[test]
fn a_format_that_refuses_the_size_fails_and_another_still_saves() {
    let pic = Picture::from_rgba(20_000, 1, vec![0u8; 80_000]).unwrap();
    assert!(encode(&pic, "wide.webp", options(ExportFormat::Png)).is_err());
    let bytes = encode(&pic, "wide.png", options(ExportFormat::Webp)).unwrap();
    assert_eq!(image::guess_format(&bytes).unwrap(), image::ImageFormat::Png);
}
