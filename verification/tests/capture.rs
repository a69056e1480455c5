use image::{Rgba, RgbaImage};
use shotr_core::capture::{
    args, cut_monitor, fit_texture, frames_of, layout, make_preview, scaled_origin, stitch,
    views_for, MonitorShot, Shot,
};
use shotr_core::picture::Picture;

fn picture(img: RgbaImage) -> Picture {
    let (w, h) = img.dimensions();
    Picture::from_rgba(w, h, img.into_raw()).expect("a whole image")
}

fn image_of(p: Picture) -> RgbaImage {
    let (w, h) = p.size();
    RgbaImage::from_raw(w, h, p.into_rgba()).expect("a whole image")
}

/// A monitor that reports exactly what it captures: scale 1, the honest case.
fn shot(name: &str, x: i32, y: i32, w: u32, h: u32, fill: [u8; 4]) -> MonitorShot {
    reporting(name, (x, y, w, h), w, h, fill)
}

/// A monitor whose reported rectangle and captured frame disagree.
fn reporting(
    name: &str,
    reported: (i32, i32, u32, u32),
    cap_w: u32,
    cap_h: u32,
    fill: [u8; 4],
) -> MonitorShot {
    MonitorShot {
        name: name.into(),
        image: picture(RgbaImage::from_pixel(cap_w, cap_h, Rgba(fill))),
        reported,
    }
}

fn stitched(shots: &[MonitorShot]) -> Option<RgbaImage> {
    stitch(shots).map(image_of)
}

#[test]
fn a_reported_position_is_corrected_by_the_captured_size() {
    assert_eq!(scaled_origin(1299, 4320, 7680, 2560), (433, 1440));
    assert_eq!(scaled_origin(0, 0, 10320, 3440), (0, 0));
}

#[test]
fn capture_an_honest_compositor_needs_no_correction() {
    assert_eq!(scaled_origin(1920, 0, 2560, 2560), (1920, 0));
    assert_eq!(scaled_origin(7, 9, 0, 1000), (7, 9));
}

#[test]
fn a_reported_rectangle_is_corrected_by_the_captured_size() {
    let shots = vec![
        reporting("DP-3", (0, 0, 10320, 4320), 3440, 1440, [1, 1, 1, 255]),
        reporting("DP-2", (1299, 4320, 7680, 4320), 2560, 1440, [2, 2, 2, 255]),
    ];
    let plan = layout(&frames_of(&shots)).unwrap();
    assert_eq!(plan.rects[0], [0, 0, 3440, 1440], "DP-3 landed wrong");
    assert_eq!(plan.rects[1], [433, 1440, 2560, 1440], "DP-2 landed wrong");
}

#[test]
fn mod_an_honest_compositor_needs_no_correction() {
    let shots = vec![shot("only", 1920, 0, 2560, 1440, [1, 1, 1, 255])];
    assert_eq!(layout(&frames_of(&shots)).unwrap().rects[0], [0, 0, 2560, 1440]);
}

#[test]
fn a_monitor_reporting_no_width_does_not_divide_by_zero() {
    let shots = vec![reporting("broken", (7, 9, 0, 0), 100, 80, [1, 1, 1, 255])];
    let plan = layout(&frames_of(&shots)).unwrap();
    assert_eq!(plan.size, (1, 1), "a zero-sized report cannot claim a canvas");
}

#[test]
fn capture_the_real_two_monitor_layout_stitches_to_the_full_bounding_box() {
    let shots = vec![
        shot("DP-3", 0, 0, 3440, 1440, [255, 0, 0, 255]),
        shot("DP-2", 433, 1440, 2560, 1440, [0, 255, 0, 255]),
    ];
    let out = stitched(&shots).unwrap();
    assert_eq!((out.width(), out.height()), (3440, 2880));
    assert_eq!(out.get_pixel(10, 10).0, [255, 0, 0, 255], "top screen");
    assert_eq!(out.get_pixel(500, 2000).0, [0, 255, 0, 255], "bottom screen");
}

#[test]
fn mod_the_real_two_monitor_layout_stitches_to_the_full_bounding_box() {
    let shots = vec![
        shot("DP-3", 0, 0, 3440, 1440, [255, 0, 0, 255]),
        shot("DP-2", 433, 1440, 2560, 1440, [0, 255, 0, 255]),
    ];
    let out = stitched(&shots).unwrap();
    assert_eq!((out.width(), out.height()), (3440, 2880));
    assert_eq!(out.get_pixel(10, 10).0, [255, 0, 0, 255], "top screen");
    assert_eq!(out.get_pixel(500, 2000).0, [0, 255, 0, 255], "bottom screen");
}

#[test]
fn capture_gaps_between_monitors_are_opaque_black() {
    let shots = vec![
        shot("A", 0, 0, 3440, 1440, [255, 0, 0, 255]),
        shot("B", 433, 1440, 2560, 1440, [0, 255, 0, 255]),
    ];
    let out = stitched(&shots).unwrap();
    let gap = out.get_pixel(100, 2000).0;
    assert_eq!(gap, [0, 0, 0, 255], "gap must be opaque, got {gap:?}");
}

#[test]
fn mod_gaps_between_monitors_are_opaque_black() {
    let shots = vec![
        shot("A", 0, 0, 3440, 1440, [255, 0, 0, 255]),
        shot("B", 433, 1440, 2560, 1440, [0, 255, 0, 255]),
    ];
    let out = stitched(&shots).unwrap();
    let gap = out.get_pixel(100, 2000).0;
    assert_eq!(gap, [0, 0, 0, 255], "gap must be opaque, got {gap:?}");
}

#[test]
fn capture_a_monitor_left_of_the_origin_shifts_everything_into_frame() {
    let shots = vec![
        shot("main", 0, 0, 1920, 1080, [1, 1, 1, 255]),
        shot("left", -1280, 0, 1280, 1080, [2, 2, 2, 255]),
    ];
    let out = stitched(&shots).unwrap();
    assert_eq!((out.width(), out.height()), (3200, 1080));
    assert_eq!(out.get_pixel(10, 10).0, [2, 2, 2, 255], "left screen first");
    assert_eq!(out.get_pixel(2000, 10).0, [1, 1, 1, 255]);
}

#[test]
fn mod_a_monitor_left_of_the_origin_shifts_everything_into_frame() {
    let shots = vec![
        shot("main", 0, 0, 1920, 1080, [1, 1, 1, 255]),
        shot("left", -1280, 0, 1280, 1080, [2, 2, 2, 255]),
    ];
    let out = stitched(&shots).unwrap();
    assert_eq!((out.width(), out.height()), (3200, 1080));
    assert_eq!(out.get_pixel(10, 10).0, [2, 2, 2, 255], "left screen first");
    assert_eq!(out.get_pixel(2000, 10).0, [1, 1, 1, 255]);
}

#[test]
fn capture_one_monitor_stitches_to_itself_and_none_is_an_error() {
    let one = vec![shot("solo", 0, 0, 800, 600, [9, 9, 9, 255])];
    let out = stitched(&one).unwrap();
    assert_eq!((out.width(), out.height()), (800, 600));
    assert!(stitch(&[]).is_none(), "no monitors is not a 0x0 image");
}

#[test]
fn mod_one_monitor_stitches_to_itself_and_none_is_an_error() {
    let one = vec![shot("solo", 0, 0, 800, 600, [9, 9, 9, 255])];
    let out = stitched(&one).unwrap();
    assert_eq!((out.width(), out.height()), (800, 600));
    assert!(stitch(&[]).is_none(), "no monitors is not a 0x0 image");
}

fn each_view_cuts_its_own_monitor(shots: &[MonitorShot], fills: &[(u32, u32, [u8; 4])]) {
    let views = views_for(shots);
    let whole = stitched(shots).unwrap();
    for (view, (w0, h0, fill)) in views.iter().zip(fills) {
        let [x, y, w, h] = view.rect;
        let cut = image::imageops::crop_imm(&whole, x, y, w, h).to_image();
        assert_eq!((cut.width(), cut.height()), (*w0, *h0), "{} came back the wrong size", view.name);
        let original = RgbaImage::from_pixel(*w0, *h0, Rgba(*fill));
        assert_eq!(cut.as_raw(), original.as_raw(), "{} came back with different pixels", view.name);
    }
}

#[test]
fn capture_each_view_cuts_its_own_monitor_back_out_of_the_stitched_image() {
    let shots = vec![
        shot("DP-3", 0, 0, 344, 144, [255, 0, 0, 255]),
        shot("DP-2", 43, 144, 256, 144, [0, 255, 0, 255]),
    ];
    each_view_cuts_its_own_monitor(&shots, &[(344, 144, [255, 0, 0, 255]), (256, 144, [0, 255, 0, 255])]);
}

#[test]
fn mod_each_view_cuts_its_own_monitor_back_out_of_the_stitched_image() {
    let shots = vec![
        shot("DP-3", 0, 0, 344, 144, [255, 0, 0, 255]),
        shot("DP-2", 43, 144, 256, 144, [0, 255, 0, 255]),
    ];
    each_view_cuts_its_own_monitor(&shots, &[(344, 144, [255, 0, 0, 255]), (256, 144, [0, 255, 0, 255])]);
}

#[test]
fn capture_views_are_relative_to_the_stitched_image_not_the_desktop() {
    let shots = vec![
        shot("main", 0, 0, 100, 100, [1, 1, 1, 255]),
        shot("left", -80, 0, 80, 100, [2, 2, 2, 255]),
    ];
    let views = views_for(&shots);
    assert_eq!(views[0].rect, [80, 0, 100, 100], "main shifts right");
    assert_eq!(views[1].rect, [0, 0, 80, 100], "left screen starts at 0");
}

#[test]
fn mod_views_are_relative_to_the_stitched_image_not_the_desktop() {
    let shots = vec![
        shot("main", 0, 0, 100, 100, [1, 1, 1, 255]),
        shot("left", -80, 0, 80, 100, [2, 2, 2, 255]),
    ];
    let views = views_for(&shots);
    assert_eq!(views[0].rect, [80, 0, 100, 100], "main shifts right");
    assert_eq!(views[1].rect, [0, 0, 80, 100], "left screen starts at 0");
    assert_eq!(views[0].name, "main");
    assert_eq!(views[1].name, "left");
}

#[test]
fn mixed_dpi_monitors_keep_their_true_relative_size() {
    let shots = vec![
        reporting("laptop", (0, 0, 1800, 1169), 3600, 2338, [1, 1, 1, 255]),
        reporting("ultrawide", (-929, -1440, 3440, 1440), 3440, 1440, [2, 2, 2, 255]),
    ];
    let plan = layout(&frames_of(&shots)).unwrap();
    let laptop_w = plan.rects[0][2] as f64;
    let ultra_w = plan.rects[1][2] as f64;
    let ratio = ultra_w / laptop_w;
    assert!(
        (ratio - 1.91).abs() < 0.01,
        "the ultrawide is 1.91x the laptop's width in reality; the composite made it {ratio:.2}x"
    );
    assert_eq!(plan.size, (6880, 5218), "canvas must cover both at scale 2");
}

#[test]
fn mixed_dpi_monitors_side_by_side_do_not_overlap() {
    let shots = vec![
        reporting("laptop", (0, 0, 1800, 1169), 3600, 2338, [1, 1, 1, 255]),
        reporting("external", (1800, 0, 1920, 1080), 1920, 1080, [2, 2, 2, 255]),
    ];
    let plan = layout(&frames_of(&shots)).unwrap();
    let laptop_right = plan.rects[0][0] + plan.rects[0][2];
    assert_eq!(
        plan.rects[1][0], laptop_right,
        "the external panel must start where the laptop ends, not inside it"
    );

    let whole = stitched(&shots).unwrap();
    assert_eq!(
        whole.get_pixel(laptop_right + 10, 10).0,
        [2, 2, 2, 255],
        "the pixel past the laptop's edge belongs to the external panel"
    );
}

#[test]
fn a_uniform_scale_desktop_is_never_resampled() {
    let shots = vec![
        reporting("DP-3", (0, 0, 10320, 4320), 3440, 1440, [255, 0, 0, 255]),
        reporting("DP-2", (1299, 4320, 7680, 4320), 2560, 1440, [0, 255, 0, 255]),
    ];
    let whole = stitched(&shots).unwrap();
    let originals = [
        RgbaImage::from_pixel(3440, 1440, Rgba([255, 0, 0, 255])),
        RgbaImage::from_pixel(2560, 1440, Rgba([0, 255, 0, 255])),
    ];
    for (view, original) in views_for(&shots).iter().zip(&originals) {
        let [x, y, w, h] = view.rect;
        let cut = image::imageops::crop_imm(&whole, x, y, w, h).to_image();
        assert_eq!(cut.as_raw(), original.as_raw(), "{} was resampled on a uniform-scale desktop", view.name);
    }
}

#[test]
fn a_monitor_inside_the_snapshot_is_cut_out_of_it() {
    let desktop = picture(RgbaImage::new(8616, 4320));
    let one = cut_monitor(&desktop, Some([5160, 0, 3456, 2234]));
    assert_eq!(one.size(), (3456, 2234), "the picker would show the wrong screen");
}

#[test]
fn a_rectangle_that_misses_the_snapshot_yields_the_whole_desktop() {
    let placeholder = picture(RgbaImage::new(640, 360));
    let out = cut_monitor(&placeholder, Some([5160, 0, 3456, 2234]));
    assert_eq!(out.size(), (640, 360), "a zero-sized crop reached the GPU and killed the editor");
}

#[test]
fn a_rectangle_hanging_over_the_edge_yields_the_whole_desktop() {
    let desktop = picture(RgbaImage::new(1920, 1080));
    let out = cut_monitor(&desktop, Some([1600, 0, 1920, 1080]));
    assert_eq!(out.size(), (1920, 1080), "a clamped crop passes a rectangle the caller never asked for");
}

#[test]
fn no_rectangle_means_every_monitor() {
    let desktop = picture(RgbaImage::new(1920, 1080));
    let out = cut_monitor(&desktop, None);
    assert_eq!(out.size(), (1920, 1080), "'All monitors combined' must not crop");
}

#[test]
fn a_cut_monitor_keeps_its_own_pixels() {
    let mut img = RgbaImage::new(4, 2);
    img.put_pixel(2, 1, Rgba([7, 8, 9, 255]));
    let cut = image_of(cut_monitor(&picture(img), Some([2, 1, 2, 1])));
    assert_eq!(cut.get_pixel(0, 0).0, [7, 8, 9, 255]);
    assert_eq!(cut.get_pixel(1, 0).0, [0, 0, 0, 0]);
}

#[test]
fn an_image_within_the_limit_is_left_alone() {
    let img = picture(RgbaImage::new(1920, 1080));
    assert!(fit_texture(&img, 8192).is_none(), "copying an image that already fits would waste a frame's worth of work");
}

#[test]
fn the_three_monitor_desktop_that_crashed_now_fits() {
    let img = picture(RgbaImage::new(8616, 4320));
    let fitted = fit_texture(&img, 8192).expect("8616 is over the limit and must be shrunk");
    let (w, h) = fitted.size();
    assert!(w <= 8192 && h <= 8192, "still {w}x{h}, which is what took the process down");
    let before = 8616.0 / 4320.0;
    let after = w as f32 / h as f32;
    assert!((before - after).abs() < 0.01, "aspect drifted from {before} to {after}, so the picker would be stretched");
}

#[test]
fn a_tall_desktop_is_bounded_too() {
    let fitted = fit_texture(&picture(RgbaImage::new(2000, 9000)), 8192)
        .expect("9000 is over the limit and must be shrunk");
    let (_, h) = fitted.size();
    assert!(h <= 8192, "height {h} still exceeds the limit");
}

#[test]
fn a_fitted_texture_has_exactly_the_limit_on_its_long_side() {
    let fitted = fit_texture(&picture(RgbaImage::new(8616, 4320)), 8192).unwrap();
    // 4320 * 8192 / 8616 = 4107.4...
    assert_eq!(fitted.size(), (8192, 4107));
}

#[test]
fn a_preview_keeps_the_aspect_and_a_narrow_picture_is_left_alone() {
    let small = make_preview(&picture(RgbaImage::new(800, 600)), 1000);
    assert_eq!(small.size(), (800, 600));
    let wide = make_preview(&picture(RgbaImage::new(3000, 1000)), 1000);
    assert_eq!(wide.size(), (1000, 333));
}

#[test]
fn every_capture_is_audible() {
    for shot in [Shot::Region, Shot::Window, Shot::Display(0)] {
        assert!(
            !args(shot, "/tmp/x.png").iter().any(|a| a == "-x"),
            "{shot:?} captures silently, which reads as nothing having happened"
        );
    }
}

#[test]
fn each_source_builds_its_own_command_line() {
    assert_eq!(args(Shot::Region, "/tmp/x.png"), ["-i", "-o", "-a", "/tmp/x.png"]);
    assert_eq!(args(Shot::Window, "/tmp/x.png"), ["-i", "-W", "-o", "-a", "/tmp/x.png"]);
    assert!(
        !args(Shot::Region, "/tmp/x.png").contains(&"-r".to_string()),
        "-r only touches dpi metadata and export re-encodes; it must stay off"
    );
}

#[test]
fn every_interactive_source_drops_the_window_shadow() {
    for shot in [Shot::Region, Shot::Window] {
        assert!(
            args(shot, "/tmp/x.png").contains(&"-o".to_string()),
            "{shot:?} can end up a window capture, so it must pass -o"
        );
    }
}

#[test]
fn display_numbering_is_one_based() {
    assert_eq!(args(Shot::Display(0), "/tmp/x.png"), ["-D", "1", "/tmp/x.png"]);
    assert_eq!(args(Shot::Display(2), "/tmp/x.png"), ["-D", "3", "/tmp/x.png"]);
}
