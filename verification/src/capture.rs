//! Monitors: naming them, and laying several of them out as one virtual
//! desktop whose captured pixels are the ground truth.
//!
//! The platform's reported monitor rectangles are not trustworthy — one
//! compositor reports a 3440×1440 screen as 10320×4320 — so every rectangle is
//! rescaled by how far the reported width is from the captured one.

use vstd::prelude::*;

use crate::i18n::{fill, t_spec, tf, Lang};
use crate::picture::{
    area, composited, copied, cropped, cropped_spec, dims, filled, filled_spec, overlaid,
    pixels, raw_of, resampled, resize_fits, resized, within, channel, Filter, Picture,
};
use crate::text::dec;

verus! {

pub struct MonitorInfo {
    pub index: usize,
    pub name: String,
}

/// The name a monitor is listed under: its own when the platform gives one,
/// else `Monitor <n>` counted from one, in the interface language.
pub open spec fn monitor_name_spec(reported: Option<Seq<char>>, index: nat, lang: Lang) -> Seq<char> {
    match reported {
        Some(n) => n,
        None => fill(t_spec(lang, "Monitor {n}"@), seq![("n"@, dec(index + 1))]),
    }
}

pub open spec fn opt_string(o: Option<String>) -> Option<Seq<char>> {
    match o {
        Some(s) => Some(s@),
        None => None,
    }
}

/// Every monitor, in the platform's order, under the name it is listed by.
/// `names` holds what the platform reported for each, `None` where it could
/// not say.
pub fn list_monitors(names: &[Option<String>], lang: Lang) -> (r: Vec<MonitorInfo>)
    ensures
        r.len() == names.len(),
        forall|i: int|
            0 <= i < r.len() ==> (#[trigger] r@[i]).index == i && r@[i].name@ == monitor_name_spec(
                opt_string(names@[i]),
                i as nat,
                lang,
            ),
{
    let mut out: Vec<MonitorInfo> = Vec::new();
    let mut i: usize = 0;
    while i < names.len()
        invariant
            i <= names.len(),
            out.len() == i,
            forall|j: int|
                0 <= j < i ==> (#[trigger] out@[j]).index == j && out@[j].name@ == monitor_name_spec(
                    opt_string(names@[j]),
                    j as nat,
                    lang,
                ),
        decreases names.len() - i,
    {
        let name = match &names[i] {
            Some(n) => n.clone(),
            None => {
                let n = crate::text::decimal((i as u64) + 1);
                let args = [("n", n.as_str())];
                proof {
                    let pv = crate::i18n::pair_views(args@);
                    assert(pv =~= seq![("n"@, dec((i + 1) as nat))]);
                }
                tf(lang, "Monitor {n}", &args)
            },
        };
        out.push(MonitorInfo { index: i, name });
        i = i + 1;
    }
    out
}

/// One monitor as captured: its pixel size, and the rectangle `(x, y, w, h)`
/// the platform reported for it, in whatever units the platform uses.
#[derive(Debug)]
pub struct Frame {
    pub width: u32,
    pub height: u32,
    pub reported: (i32, i32, u32, u32),
}

/// Where one monitor sits inside a stitched desktop capture.
#[derive(Clone, Debug, PartialEq, Eq)]
pub struct MonitorView {
    pub name: String,
    /// `[x, y, w, h]` in pixels of the stitched image.
    pub rect: [u32; 4],
}

/// Every monitor's rectangle inside the stitched image, and that image's
/// size.
pub struct Layout {
    pub rects: Vec<[u32; 4]>,
    pub size: (u32, u32),
}

/// A division rounded to the nearest integer, halves away from zero, as
/// `f64::round` does.
pub open spec fn round_div(a: int, b: int) -> int
    recommends
        b > 0,
{
    if a >= 0 { (2 * a + b) / (2 * b) } else { -((2 * (-a) + b) / (2 * b)) }
}

/// A value saturated into `i32`, as `as i32` does from a float.
pub open spec fn sat_i32(v: int) -> int {
    if v < i32::MIN { i32::MIN as int } else if v > i32::MAX { i32::MAX as int } else { v }
}

/// How many captured pixels one reported unit buys on a monitor, as a
/// fraction: captured width over reported width, one when nothing was
/// reported.
pub open spec fn scale_spec(f: Frame) -> (nat, nat) {
    if f.reported.2 == 0 { (1, 1) } else { (f.width as nat, f.reported.2 as nat) }
}

/// The larger of two fractions.
pub open spec fn max_frac(a: (nat, nat), b: (nat, nat)) -> (nat, nat) {
    if b.0 * a.1 > a.0 * b.1 { b } else { a }
}

/// The one factor the whole composite is built at: the finest of all the
/// monitors, so nothing that exists is thrown away.
pub open spec fn shared_spec(fs: Seq<Frame>) -> (nat, nat)
    decreases fs.len(),
{
    if fs.len() == 0 { (0, 1) } else { max_frac(shared_spec(fs.drop_last()), scale_spec(fs.last())) }
}

/// Where one monitor lands on the composite at scale `s`, before the
/// arrangement is shifted to start at the origin.
pub open spec fn placement_spec(f: Frame, s: (nat, nat)) -> (int, int, int, int) {
    let (x, y, w, h) = f.reported;
    let px = sat_i32(round_div(x * s.0, s.1 as int));
    let py = sat_i32(round_div(y * s.0, s.1 as int));
    let pw = sat_i32(round_div(w * s.0, s.1 as int));
    let ph = sat_i32(round_div(h * s.0, s.1 as int));
    (px, py, if pw < 1 { 1 } else { pw }, if ph < 1 { 1 } else { ph })
}

pub open spec fn placements(fs: Seq<Frame>) -> Seq<(int, int, int, int)> {
    fs.map_values(|f: Frame| placement_spec(f, shared_spec(fs)))
}

pub open spec fn min_x(ps: Seq<(int, int, int, int)>) -> int
    decreases ps.len(),
{
    if ps.len() <= 1 {
        ps[0].0
    } else {
        let m = min_x(ps.drop_last());
        if ps.last().0 < m { ps.last().0 } else { m }
    }
}

pub open spec fn min_y(ps: Seq<(int, int, int, int)>) -> int
    decreases ps.len(),
{
    if ps.len() <= 1 {
        ps[0].1
    } else {
        let m = min_y(ps.drop_last());
        if ps.last().1 < m { ps.last().1 } else { m }
    }
}

pub open spec fn max_right(ps: Seq<(int, int, int, int)>) -> int
    decreases ps.len(),
{
    if ps.len() <= 1 {
        ps[0].0 + ps[0].2
    } else {
        let m = max_right(ps.drop_last());
        if ps.last().0 + ps.last().2 > m { ps.last().0 + ps.last().2 } else { m }
    }
}

pub open spec fn max_bottom(ps: Seq<(int, int, int, int)>) -> int
    decreases ps.len(),
{
    if ps.len() <= 1 {
        ps[0].1 + ps[0].3
    } else {
        let m = max_bottom(ps.drop_last());
        if ps.last().1 + ps.last().3 > m { ps.last().1 + ps.last().3 } else { m }
    }
}

/// A monitor's rectangle in the stitched image.
pub open spec fn rect_spec(fs: Seq<Frame>, i: int) -> [u32; 4] {
    let ps = placements(fs);
    let p = ps[i];
    [(p.0 - min_x(ps)) as u32, (p.1 - min_y(ps)) as u32, p.2 as u32, p.3 as u32]
}

/// The stitched image's size.
pub open spec fn size_spec(fs: Seq<Frame>) -> (u32, u32) {
    let ps = placements(fs);
    let w = max_right(ps) - min_x(ps);
    let h = max_bottom(ps) - min_y(ps);
    ((if w < 1 { 1 } else { w }) as u32, (if h < 1 { 1 } else { h }) as u32)
}

fn round_div_exec(a: i128, b: i128) -> (r: i128)
    requires
        b > 0,
        -0x1_0000_0000_0000_0000_0000 < a < 0x1_0000_0000_0000_0000_0000,
        b < 0x1_0000_0000_0000_0000_0000,
    ensures
        r == round_div(a as int, b as int),
{
    if a >= 0 {
        (2 * a + b) / (2 * b)
    } else {
        -((2 * (-a) + b) / (2 * b))
    }
}

fn sat_exec(v: i128) -> (r: i32)
    ensures
        r == sat_i32(v as int),
{
    if v < i32::MIN as i128 {
        i32::MIN
    } else if v > i32::MAX as i128 {
        i32::MAX
    } else {
        v as i32
    }
}

fn scale_of(f: &Frame) -> (r: (u64, u64))
    ensures
        r.0 as nat == scale_spec(*f).0,
        r.1 as nat == scale_spec(*f).1,
        r.1 > 0,
        r.0 <= u32::MAX,
        r.1 <= u32::MAX,
{
    if f.reported.2 == 0 {
        (1, 1)
    } else {
        (f.width as u64, f.reported.2 as u64)
    }
}

fn mul_small(a: u64, b: u64) -> (r: u128)
    requires
        a <= u32::MAX,
        b <= u32::MAX,
    ensures
        r == a * b,
{
    assert((a as int) * (b as int) <= 0xFFFF_FFFF * 0xFFFF_FFFF) by (nonlinear_arith)
        requires
            a <= 0xFFFF_FFFF,
            b <= 0xFFFF_FFFF,
    ;
    (a as u128) * (b as u128)
}

fn shared_scale(fs: &[Frame]) -> (r: (u64, u64))
    ensures
        r.0 as nat == shared_spec(fs@).0,
        r.1 as nat == shared_spec(fs@).1,
        r.1 > 0,
        r.0 <= u32::MAX,
        r.1 <= u32::MAX,
{
    let mut best: (u64, u64) = (0, 1);
    let mut i: usize = 0;
    assert(fs@.take(0) =~= Seq::<Frame>::empty());
    while i < fs.len()
        invariant
            i <= fs.len(),
            best.0 as nat == shared_spec(fs@.take(i as int)).0,
            best.1 as nat == shared_spec(fs@.take(i as int)).1,
            best.1 > 0,
            best.0 <= u32::MAX,
            best.1 <= u32::MAX,
        decreases fs.len() - i,
    {
        let s = scale_of(&fs[i]);
        assert(fs@.take(i + 1).drop_last() =~= fs@.take(i as int));
        assert(fs@.take(i + 1).last() == fs@[i as int]);
        if mul_small(s.0, best.1) > mul_small(best.0, s.1) {
            best = s;
        }
        i = i + 1;
    }
    assert(fs@.take(fs.len() as int) =~= fs@);
    best
}

fn placement(f: &Frame, s: (u64, u64)) -> (r: [i32; 4])
    requires
        s.1 > 0,
        s.0 <= u32::MAX,
        s.1 <= u32::MAX,
    ensures
        (r[0] as int, r[1] as int, r[2] as int, r[3] as int) == placement_spec(
            *f,
            (s.0 as nat, s.1 as nat),
        ),
{
    let n = s.0 as i128;
    let d = s.1 as i128;
    let (x, y, w, h) = f.reported;
    assert(-0x8000_0000 * 0x1_0000_0000 <= (x as int) * (n as int) <= 0x8000_0000 * 0x1_0000_0000) by (nonlinear_arith)
        requires
            -0x8000_0000 <= x <= 0x7FFF_FFFF,
            0 <= n <= 0xFFFF_FFFF,
    ;
    assert(-0x8000_0000 * 0x1_0000_0000 <= (y as int) * (n as int) <= 0x8000_0000 * 0x1_0000_0000) by (nonlinear_arith)
        requires
            -0x8000_0000 <= y <= 0x7FFF_FFFF,
            0 <= n <= 0xFFFF_FFFF,
    ;
    assert(0 <= (w as int) * (n as int) <= 0x1_0000_0000 * 0x1_0000_0000) by (nonlinear_arith)
        requires
            0 <= w <= 0xFFFF_FFFF,
            0 <= n <= 0xFFFF_FFFF,
    ;
    assert(0 <= (h as int) * (n as int) <= 0x1_0000_0000 * 0x1_0000_0000) by (nonlinear_arith)
        requires
            0 <= h <= 0xFFFF_FFFF,
            0 <= n <= 0xFFFF_FFFF,
    ;
    let px = sat_exec(round_div_exec((x as i128) * n, d));
    let py = sat_exec(round_div_exec((y as i128) * n, d));
    let pw = sat_exec(round_div_exec((w as i128) * n, d));
    let ph = sat_exec(round_div_exec((h as i128) * n, d));
    [px, py, if pw < 1 { 1 } else { pw }, if ph < 1 { 1 } else { ph }]
}


pub open spec fn rect_views(v: Seq<[i32; 4]>) -> Seq<(int, int, int, int)> {
    v.map_values(|r: [i32; 4]| (r[0] as int, r[1] as int, r[2] as int, r[3] as int))
}

fn placements_of(fs: &[Frame]) -> (r: Vec<[i32; 4]>)
    ensures
        rect_views(r@) == placements(fs@),
        r@.len() == fs@.len(),
{
    let s = shared_scale(fs);
    let mut out: Vec<[i32; 4]> = Vec::new();
    let mut i: usize = 0;
    while i < fs.len()
        invariant
            i <= fs.len(),
            s.0 as nat == shared_spec(fs@).0,
            s.1 as nat == shared_spec(fs@).1,
            s.1 > 0,
            s.0 <= u32::MAX,
            s.1 <= u32::MAX,
            rect_views(out@) == placements(fs@).take(i as int),
        decreases fs.len() - i,
    {
        let p = placement(&fs[i], s);
        let ghost before = rect_views(out@);
        out.push(p);
        assert(rect_views(out@) =~= before.push(placements(fs@)[i as int]));
        assert(placements(fs@).take(i + 1) =~= placements(fs@).take(i as int).push(
            placements(fs@)[i as int],
        ));
        i = i + 1;
    }
    assert(placements(fs@).take(fs.len() as int) =~= placements(fs@));
    assert(out@.len() == rect_views(out@).len());
    out
}

proof fn lemma_extremes_step(ps: Seq<(int, int, int, int)>, i: int)
    requires
        1 <= i < ps.len(),
    ensures
        ps.take(i + 1).drop_last() == ps.take(i),
        ps.take(i + 1).last() == ps[i],
        ps.take(i + 1).len() > 1,
{
    assert(ps.take(i + 1).drop_last() =~= ps.take(i));
}

/// Every monitor's rectangle inside the stitched image, and the image's
/// size; `None` without monitors.
pub fn layout(fs: &[Frame]) -> (r: Option<Layout>)
    ensures
        match r {
            Some(l) => fs@.len() > 0 && l.size == size_spec(fs@) && l.rects@.len() == fs@.len()
                && forall|i: int| 0 <= i < fs@.len() ==> #[trigger] l.rects@[i] == rect_spec(fs@, i),
            None => fs@.len() == 0,
        },
{
    if fs.len() == 0 {
        return None;
    }
    let placed = placements_of(fs);
    let ghost ps = placements(fs@);
    let mut mx: i64 = placed[0][0] as i64;
    let mut my: i64 = placed[0][1] as i64;
    let mut mr: i64 = placed[0][0] as i64 + placed[0][2] as i64;
    let mut mb: i64 = placed[0][1] as i64 + placed[0][3] as i64;
    assert(rect_views(placed@)[0] == ps[0]);
    assert(ps.take(1).len() == 1 && ps.take(1)[0] == ps[0]);
    let mut i: usize = 1;
    while i < placed.len()
        invariant
            1 <= i <= placed.len(),
            placed.len() == fs.len(),
            ps == placements(fs@),
            rect_views(placed@) == ps,
            mx == min_x(ps.take(i as int)),
            my == min_y(ps.take(i as int)),
            mr == max_right(ps.take(i as int)),
            mb == max_bottom(ps.take(i as int)),
            i32::MIN <= mx <= i32::MAX,
            i32::MIN <= my <= i32::MAX,
            i32::MIN <= mr <= 2 * (i32::MAX as int),
            i32::MIN <= mb <= 2 * (i32::MAX as int),
        decreases placed.len() - i,
    {
        let p = placed[i];
        proof {
            lemma_extremes_step(ps, i as int);
            assert(rect_views(placed@)[i as int] == ps[i as int]);
        }
        if (p[0] as i64) < mx {
            mx = p[0] as i64;
        }
        if (p[1] as i64) < my {
            my = p[1] as i64;
        }
        if (p[0] as i64) + (p[2] as i64) > mr {
            mr = (p[0] as i64) + (p[2] as i64);
        }
        if (p[1] as i64) + (p[3] as i64) > mb {
            mb = (p[1] as i64) + (p[3] as i64);
        }
        i = i + 1;
    }
    assert(ps.take(placed.len() as int) =~= ps);
    let mut rects: Vec<[u32; 4]> = Vec::new();
    let mut j: usize = 0;
    while j < placed.len()
        invariant
            j <= placed.len(),
            placed.len() == fs.len(),
            ps == placements(fs@),
            rect_views(placed@) == ps,
            mx == min_x(ps),
            my == min_y(ps),
            i32::MIN <= mx <= i32::MAX,
            i32::MIN <= my <= i32::MAX,
            rects.len() == j,
            forall|k: int| 0 <= k < j ==> #[trigger] rects@[k] == rect_spec(fs@, k),
        decreases placed.len() - j,
    {
        let p = placed[j];
        assert(rect_views(placed@)[j as int] == ps[j as int]);
        let r: [u32; 4] = [
            ((p[0] as i64) - mx) as u32,
            ((p[1] as i64) - my) as u32,
            p[2] as u32,
            p[3] as u32,
        ];
        assert(r == rect_spec(fs@, j as int));
        rects.push(r);
        j = j + 1;
    }
    let w: i64 = mr - mx;
    let h: i64 = mb - my;
    let size: (u32, u32) = ((if w < 1 { 1 } else { w }) as u32, (if h < 1 { 1 } else { h }) as u32);
    Some(Layout { rects, size })
}

/// One monitor's pixels plus the rectangle the platform reported for it,
/// `(x, y, w, h)` exactly as reported, in whatever units the platform uses.
/// Deliberately uncorrected: the factor that maps these onto the stitched
/// canvas depends on every monitor, so it cannot be known from one.
pub struct MonitorShot {
    pub name: String,
    pub image: Picture,
    pub reported: (i32, i32, u32, u32),
}

/// The geometry of one shot.
pub open spec fn frame_of(s: MonitorShot) -> Frame {
    Frame { width: dims(s.image).0, height: dims(s.image).1, reported: s.reported }
}

pub open spec fn frames_spec(shots: Seq<MonitorShot>) -> Seq<Frame> {
    shots.map_values(|s: MonitorShot| frame_of(s))
}

/// The geometry of every shot, in order.
pub fn frames_of(shots: &[MonitorShot]) -> (r: Vec<Frame>)
    ensures
        r@ == frames_spec(shots@),
{
    let mut out: Vec<Frame> = Vec::new();
    let mut i: usize = 0;
    while i < shots.len()
        invariant
            i <= shots.len(),
            out@ == frames_spec(shots@).take(i as int),
        decreases shots.len() - i,
    {
        let (w, h) = shots[i].image.size();
        let rep = shots[i].reported;
        out.push(Frame { width: w, height: h, reported: (rep.0, rep.1, rep.2, rep.3) });
        i = i + 1;
        assert(out@ =~= frames_spec(shots@).take(i as int));
    }
    assert(frames_spec(shots@).take(shots.len() as int) =~= frames_spec(shots@));
    out
}

/// Each monitor's rectangle inside the image [`stitch`] would produce, under
/// its own name.
pub fn views_for(shots: &[MonitorShot]) -> (r: Vec<MonitorView>)
    ensures
        r@.len() == shots@.len(),
        forall|i: int|
            0 <= i < r@.len() ==> (#[trigger] r@[i]).name@ == shots@[i].name@ && r@[i].rect
                == rect_spec(frames_spec(shots@), i),
{
    let fs = frames_of(shots);
    let plan = match layout(&fs) {
        Some(p) => p,
        None => return Vec::new(),
    };
    let mut out: Vec<MonitorView> = Vec::new();
    let mut i: usize = 0;
    while i < shots.len()
        invariant
            i <= shots.len(),
            fs@ == frames_spec(shots@),
            plan.rects@.len() == fs@.len(),
            forall|k: int| 0 <= k < fs@.len() ==> #[trigger] plan.rects@[k] == rect_spec(fs@, k),
            out.len() == i,
            forall|k: int|
                0 <= k < i ==> (#[trigger] out@[k]).name@ == shots@[k].name@ && out@[k].rect
                    == rect_spec(fs@, k),
        decreases shots.len() - i,
    {
        out.push(MonitorView { name: shots[i].name.clone(), rect: plan.rects[i] });
        i = i + 1;
    }
    out
}

/// A reported monitor position corrected by how far the reported width is
/// from the captured width; left alone when no width was reported.
pub open spec fn scaled_origin_spec(rx: i32, ry: i32, reported_w: u32, captured_w: u32) -> (int, int) {
    if reported_w == 0 {
        (rx as int, ry as int)
    } else {
        (
            sat_i32(round_div(rx * captured_w, reported_w as int)),
            sat_i32(round_div(ry * captured_w, reported_w as int)),
        )
    }
}

pub fn scaled_origin(rx: i32, ry: i32, reported_w: u32, captured_w: u32) -> (r: (i32, i32))
    ensures
        (r.0 as int, r.1 as int) == scaled_origin_spec(rx, ry, reported_w, captured_w),
{
    if reported_w == 0 {
        return (rx, ry);
    }
    let f = Frame { width: captured_w, height: 0, reported: (rx, ry, reported_w, 0) };
    let p = placement(&f, (captured_w as u64, reported_w as u64));
    (p[0], p[1])
}

proof fn lemma_extremes(ps: Seq<(int, int, int, int)>, i: int)
    requires
        0 <= i < ps.len(),
    ensures
        min_x(ps) <= ps[i].0,
        min_y(ps) <= ps[i].1,
        max_right(ps) >= ps[i].0 + ps[i].2,
        max_bottom(ps) >= ps[i].1 + ps[i].3,
    decreases ps.len(),
{
    if ps.len() > 1 && i < ps.len() - 1 {
        lemma_extremes(ps.drop_last(), i);
        assert(ps.drop_last()[i] == ps[i]);
    }
}

/// Every monitor lands wholly inside the stitched canvas, and the canvas
/// starts where the leftmost and topmost monitors do.
pub proof fn law_monitors_inside_canvas(fs: Seq<Frame>, i: int)
    requires
        0 <= i < fs.len(),
    ensures
        ({
            let ps = placements(fs);
            let p = ps[i];
            &&& 0 <= p.0 - min_x(ps)
            &&& p.0 - min_x(ps) + p.2 <= max_right(ps) - min_x(ps)
            &&& 0 <= p.1 - min_y(ps)
            &&& p.1 - min_y(ps) + p.3 <= max_bottom(ps) - min_y(ps)
        }),
{
    lemma_extremes(placements(fs), i);
}

/// A monitor whose own scale is the shared one keeps its captured width: on
/// a desktop where every monitor reports at the same ratio, nothing is
/// resampled.
pub proof fn law_finest_monitor_keeps_its_width(f: Frame, s: (nat, nat))
    requires
        f.reported.2 > 0,
        1 <= f.width <= i32::MAX,
        s.1 > 0,
        s.0 * (f.reported.2 as nat) == (f.width as nat) * s.1,
    ensures
        placement_spec(f, s).2 == f.width,
{
    let w = f.reported.2 as int;
    let cw = f.width as int;
    let n = s.0 as int;
    let d = s.1 as int;
    assert(w * n == cw * d) by (nonlinear_arith)
        requires
            n * w == cw * d,
    ;
    assert((2 * (cw * d) + d) / (2 * d) == cw) by (nonlinear_arith)
        requires
            d > 0,
            cw >= 0,
    ;
    assert(round_div(w * n, d) == cw);
}


/// What to point the macOS screenshot tool at.
#[derive(Clone, Copy, PartialEq, Eq, Structural, Debug)]
pub enum Shot {
    /// Drag a rectangle. Space switches to window mode inside Apple's overlay.
    Region,
    /// Click a window, shadow and attached panels left out.
    Window,
    /// One whole display, by index into the monitor list.
    Display(usize),
}

/// The command line for one source: `-o` drops the window shadow and `-a`
/// attached windows on anything that can become a window capture; displays
/// are numbered from one; never `-x`, which would silence the shutter.
pub open spec fn args_spec(shot: Shot, out: Seq<char>) -> Seq<Seq<char>> {
    match shot {
        Shot::Region => seq!["-i"@, "-o"@, "-a"@, out],
        Shot::Window => seq!["-i"@, "-W"@, "-o"@, "-a"@, out],
        Shot::Display(i) => seq!["-D"@, dec((i + 1) as nat), out],
    }
}

/// The arguments for `/usr/sbin/screencapture` that capture `shot` into
/// the file `out`.
pub fn args(shot: Shot, out: &str) -> (r: Vec<String>)
    requires
        shot matches Shot::Display(i) ==> i < usize::MAX,
    ensures
        crate::cli::arg_views(r@) == args_spec(shot, out@),
{
    let words: Vec<&str> = match shot {
        Shot::Region => vec!["-i", "-o", "-a"],
        Shot::Window => vec!["-i", "-W", "-o", "-a"],
        Shot::Display(_) => vec!["-D"],
    };
    let mut r = crate::text::strings_of(words.as_slice());
    proof {
        assert(crate::cli::arg_views(r@) == crate::text::owned_views(r@));
    }
    let ghost first = crate::text::owned_views(r@);
    assert(first =~= crate::text::str_views(words@));
    match shot {
        Shot::Region => {
            assert(first =~= seq!["-i"@, "-o"@, "-a"@]);
        },
        Shot::Window => {
            assert(first =~= seq!["-i"@, "-W"@, "-o"@, "-a"@]);
        },
        Shot::Display(i) => {
            assert(first =~= seq!["-D"@]);
            let d = crate::text::decimal((i + 1) as u64);
            r.push(d);
            assert(crate::text::owned_views(r@) =~= first.push(dec((i + 1) as nat)));
        },
    }
    let ghost second = crate::text::owned_views(r@);
    let o = crate::text::string_of(crate::text::chars_of(out).as_slice());
    r.push(o);
    assert(crate::text::owned_views(r@) =~= second.push(out@));
    assert(crate::cli::arg_views(r@) =~= args_spec(shot, out@));
    r
}

/// No capture is ever silent: nothing before the output path is `-x`. And
/// both interactive sources drop the window shadow with `-o`.
pub proof fn law_capture_flags(shot: Shot, out: Seq<char>)
    ensures
        forall|j: int|
            0 <= j < args_spec(shot, out).len() - 1 ==> #[trigger] args_spec(shot, out)[j] != "-x"@,
        !(shot is Display) ==> args_spec(shot, out).contains("-o"@),
{
    reveal_strlit("-x");
    reveal_strlit("-i");
    reveal_strlit("-o");
    reveal_strlit("-a");
    reveal_strlit("-W");
    reveal_strlit("-D");
    let a = args_spec(shot, out);
    assert forall|j: int| 0 <= j < a.len() - 1 implies #[trigger] a[j] != "-x"@ by {
        if let Shot::Display(i) = shot {
            if j == 1 {
                crate::text::lemma_dec_shape((i + 1) as nat);
                assert(dec((i + 1) as nat)[0] != '-');
            } else {
                assert(a[j][1] != "-x"@[1]);
            }
        } else {
            assert(a[j][1] != "-x"@[1]);
        }
    }
    if shot == Shot::Region {
        assert(a[1] == "-o"@);
    }
    if shot == Shot::Window {
        assert(a[2] == "-o"@);
    }
}

/// The canvas after the pictures `ps` are pasted in turn onto opaque black,
/// the `k`-th at the `k`-th monitor's rectangle.
pub open spec fn canvas_of(fs: Seq<Frame>, ps: Seq<Picture>) -> Seq<u8>
    decreases ps.len(),
{
    let size = size_spec(fs);
    if ps.len() == 0 {
        filled_spec(size.0, size.1, [0u8, 0u8, 0u8, 255u8])
    } else {
        let r = rect_spec(fs, ps.len() - 1);
        composited(
            canvas_of(fs, ps.drop_last()),
            size,
            pixels(ps.last()),
            dims(ps.last()),
            r[0] as i64,
            r[1] as i64,
        )
    }
}

/// `ps` are the pictures pasted for `shots`: one a monitor, each the size of
/// its rectangle, and the shot itself wherever it already has that size.
pub open spec fn pasted_for(shots: Seq<MonitorShot>, ps: Seq<Picture>) -> bool {
    let fs = frames_spec(shots);
    &&& ps.len() == shots.len()
    &&& forall|i: int|
        0 <= i < ps.len() ==> dims(#[trigger] ps[i]) == (rect_spec(fs, i)[2], rect_spec(fs, i)[3])
            && (dims(shots[i].image) == (rect_spec(fs, i)[2], rect_spec(fs, i)[3]) ==> ps[i]
            == shots[i].image)
}

/// No monitor's rectangle covers the pixel `(x, y)` of the canvas.
pub open spec fn uncovered(fs: Seq<Frame>, x: int, y: int) -> bool {
    forall|i: int|
        0 <= i < fs.len() ==> !within(
            x,
            y,
            #[trigger] rect_spec(fs, i)[0] as int,
            rect_spec(fs, i)[1] as int,
            rect_spec(fs, i)[2] as int,
            rect_spec(fs, i)[3] as int,
        )
}

/// The stitched canvas, and every resampling on the way, fit in memory.
pub open spec fn stitch_fits(shots: Seq<MonitorShot>) -> bool {
    let fs = frames_spec(shots);
    &&& area(size_spec(fs).0, 1, 4) <= usize::MAX
    &&& area(size_spec(fs).0, size_spec(fs).1, 4) <= isize::MAX
    &&& forall|i: int|
        0 <= i < shots.len() && dims(shots[i].image) != (rect_spec(fs, i)[2], rect_spec(fs, i)[3])
            ==> resize_fits(
            dims(shots[i].image),
            #[trigger] rect_spec(fs, i)[2],
            rect_spec(fs, i)[3],
        )
}

/// The arrangement's extent fits the `u32` sides of a picture, so the canvas
/// is as large as the monitors span.
pub open spec fn spans_fit(fs: Seq<Frame>) -> bool {
    let ps = placements(fs);
    &&& max_right(ps) - min_x(ps) <= u32::MAX
    &&& max_bottom(ps) - min_y(ps) <= u32::MAX
}

/// Two rectangles `[x, y, w, h]` share no pixel.
pub open spec fn apart(a: [u32; 4], b: [u32; 4]) -> bool {
    ||| a[0] + a[2] <= b[0]
    ||| b[0] + b[2] <= a[0]
    ||| a[1] + a[3] <= b[1]
    ||| b[1] + b[3] <= a[1]
}

/// Every pixel of a picture is fully opaque.
pub open spec fn opaque(p: Picture) -> bool {
    forall|x: int, y: int|
        0 <= x < dims(p).0 && 0 <= y < dims(p).1 ==> #[trigger] channel(pixels(p), dims(p).0, x, y, 3)
            == 255
}

/// A monitor that comes back out of the stitched picture exactly: it is not
/// resampled, every pixel of it is opaque, no other monitor overlaps it, and
/// the whole arrangement spans an extent a picture can have.
pub open spec fn kept_whole(shots: Seq<MonitorShot>, i: int) -> bool {
    let fs = frames_spec(shots);
    let r = rect_spec(fs, i);
    &&& spans_fit(fs)
    &&& dims(shots[i].image) == (r[2], r[3])
    &&& opaque(shots[i].image)
    &&& forall|j: int| 0 <= j < shots.len() && j != i ==> apart(r, #[trigger] rect_spec(fs, j))
}

/// A monitor's rectangle lies inside the canvas when the arrangement's
/// extent fits.
proof fn lemma_rect_inside(fs: Seq<Frame>, i: int)
    requires
        0 <= i < fs.len(),
        spans_fit(fs),
    ensures
        rect_spec(fs, i)[0] + rect_spec(fs, i)[2] <= size_spec(fs).0,
        rect_spec(fs, i)[1] + rect_spec(fs, i)[3] <= size_spec(fs).1,
{
    let ps = placements(fs);
    let p = ps[i];
    law_monitors_inside_canvas(fs, i);
    assert(p == placement_spec(fs[i], shared_spec(fs)));
    assert(1 <= p.2 <= i32::MAX && 1 <= p.3 <= i32::MAX);
}

/// Division of a pixel index into its row and column.
proof fn lemma_row_col(j: int, w: int, h: int)
    requires
        0 <= j < 4 * w * h,
        w > 0,
    ensures
        0 <= (j / 4) / w < h,
        0 <= (j / 4) % w < w,
        ((j / 4) / w * w + (j / 4) % w) * 4 + j % 4 == j,
{
    let q = j / 4;
    assert(q < w * h) by (nonlinear_arith)
        requires
            0 <= j < 4 * w * h,
            q == j / 4,
    ;
    assert(q / w < h) by (nonlinear_arith)
        requires
            0 <= q < w * h,
            w > 0,
    ;
    assert(q / w * w + q % w == q) by (nonlinear_arith)
        requires
            w > 0,
    ;
    assert(q / w >= 0) by (nonlinear_arith)
        requires
            q >= 0,
            w > 0,
    ;
}

/// A rectangle of `canvas` that holds `shot` pixel for pixel crops back to
/// `shot`.
proof fn lemma_crop_back(canvas: Seq<u8>, stride: u32, x: u32, y: u32, w: u32, h: u32, shot: Seq<u8>)
    requires
        shot.len() >= area(w, h, 4),
        forall|px: int, py: int, c: int|
            0 <= px < w && 0 <= py < h && 0 <= c < 4 ==> channel(canvas, stride, x + px, y + py, c)
                == #[trigger] channel(shot, w, px, py, c),
    ensures
        cropped_spec(canvas, stride, x, y, w, h) == shot.take(area(w, h, 4)),
{
    let cut = cropped_spec(canvas, stride, x, y, w, h);
    let want = shot.take(area(w, h, 4));
    assert forall|j: int| 0 <= j < cut.len() implies cut[j] == want[j] by {
        assert(w > 0) by (nonlinear_arith)
            requires
                0 <= j < 4 * (w as int) * (h as int),
                w >= 0,
                h >= 0,
        ;
        lemma_row_col(j, w as int, h as int);
        let q = j / 4;
        let (px, py, c) = (q % (w as int), q / (w as int), j % 4);
        assert(channel(canvas, stride, x + px, y + py, c) == channel(shot, w, px, py, c));
        assert(((y + py) * stride + (x + px)) * 4 + c == ((y + q / (w as int)) * stride + x + q % (
        w as int)) * 4 + j % 4);
    }
    assert(cut =~= want);
}

/// Every pixel of a one-colour picture is that colour.
proof fn lemma_filled_channel(w: u32, h: u32, px: [u8; 4], x: int, y: int, c: int)
    requires
        0 <= x < w,
        0 <= y < h,
        0 <= c < 4,
    ensures
        channel(filled_spec(w, h, px), w, x, y, c) == px@[c],
{
    let q = y * (w as int) + x;
    assert(0 <= q < (w as int) * (h as int)) by (nonlinear_arith)
        requires
            0 <= x < w,
            0 <= y < h,
            q == y * (w as int) + x,
    ;
    let i = q * 4 + c;
    assert(i % 4 == c) by (nonlinear_arith)
        requires
            i == q * 4 + c,
            0 <= c < 4,
            q >= 0,
    ;
    assert(i < area(w, h, 4)) by (nonlinear_arith)
        requires
            i == q * 4 + c,
            0 <= c < 4,
            0 <= q < (w as int) * (h as int),
    ;
}

/// Paste every monitor into one virtual-desktop picture, normalised so the
/// top-left of the whole arrangement is `(0, 0)`; `None` without monitors.
///
/// Monitors rarely tile perfectly, so the gaps are opaque black rather than
/// transparent, which would turn into a hole once a background is
/// composited behind the shot. Only a monitor coarser than the finest one is
/// resampled, with Lanczos because the result is what a region is then
/// selected on. The picture is the shots, each at its rectangle's size,
/// pasted in turn; every pixel no monitor covers is opaque black; and a
/// monitor that is not resampled, is opaque and overlaps no other crops back
/// out of its rectangle exactly, so the views and the picture agree.
pub fn stitch(shots: &[MonitorShot]) -> (r: Option<Picture>)
    requires
        stitch_fits(shots@),
    ensures
        r is Some <==> shots@.len() > 0,
        r matches Some(p) ==> {
            let fs = frames_spec(shots@);
            let size = size_spec(fs);
            &&& dims(p) == size
            &&& exists|ps: Seq<Picture>|
                #![trigger pasted_for(shots@, ps)]
                pasted_for(shots@, ps) && pixels(p) == canvas_of(fs, ps)
            &&& forall|x: int, y: int, c: int|
                0 <= x < size.0 && 0 <= y < size.1 && 0 <= c < 4 && uncovered(fs, x, y) ==> #[trigger] channel(
                    pixels(p),
                    size.0,
                    x,
                    y,
                    c,
                ) == [0u8, 0u8, 0u8, 255u8]@[c]
            &&& forall|i: int|
                0 <= i < shots@.len() && kept_whole(shots@, i) ==> {
                    let q = #[trigger] rect_spec(fs, i);
                    cropped_spec(pixels(p), size.0, q[0], q[1], q[2], q[3]) == pixels(
                        shots@[i].image,
                    ).take(area(q[2], q[3], 4))
                }
        },
{
    let fs = frames_of(shots);
    let plan = match layout(&fs) {
        Some(p) => p,
        None => return None,
    };
    let ghost size = size_spec(fs@);
    let ghost black = [0u8, 0u8, 0u8, 255u8];
    let mut canvas = filled(plan.size.0, plan.size.1, [0u8, 0u8, 0u8, 255u8]);
    let ghost mut ps: Seq<Picture> = Seq::empty();
    proof {
        assert forall|x: int, y: int, c: int|
            0 <= x < size.0 && 0 <= y < size.1 && 0 <= c < 4 implies #[trigger] channel(
            pixels(canvas),
            size.0,
            x,
            y,
            c,
        ) == black@[c] by {
            lemma_filled_channel(size.0, size.1, black, x, y, c);
        }
    }
    let mut i: usize = 0;
    while i < shots.len()
        invariant
            i <= shots.len(),
            fs@ == frames_spec(shots@),
            stitch_fits(shots@),
            plan.size == size,
            size == size_spec(fs@),
            black == [0u8, 0u8, 0u8, 255u8],
            plan.rects@.len() == fs@.len(),
            forall|k: int| 0 <= k < fs@.len() ==> #[trigger] plan.rects@[k] == rect_spec(fs@, k),
            dims(canvas) == size,
            pixels(canvas).len() == area(size.0, size.1, 4),
            ps.len() == i,
            forall|k: int|
                0 <= k < i ==> dims(#[trigger] ps[k]) == (rect_spec(fs@, k)[2], rect_spec(fs@, k)[3])
                    && (dims(shots@[k].image) == (rect_spec(fs@, k)[2], rect_spec(fs@, k)[3])
                    ==> ps[k] == shots@[k].image),
            pixels(canvas) == canvas_of(fs@, ps),
            forall|k: int|
                0 <= k < i ==> (#[trigger] pixels(shots@[k].image)).len() >= area(
                    dims(shots@[k].image).0,
                    dims(shots@[k].image).1,
                    4,
                ),
            forall|x: int, y: int, c: int|
                0 <= x < size.0 && 0 <= y < size.1 && 0 <= c < 4 && (forall|k: int|
                    0 <= k < i ==> !within(
                        x,
                        y,
                        #[trigger] rect_spec(fs@, k)[0] as int,
                        rect_spec(fs@, k)[1] as int,
                        rect_spec(fs@, k)[2] as int,
                        rect_spec(fs@, k)[3] as int,
                    )) ==> #[trigger] channel(pixels(canvas), size.0, x, y, c) == black@[c],
            forall|k: int, px: int, py: int, c: int|
                0 <= k < i && kept_whole(shots@, k) && 0 <= px < rect_spec(fs@, k)[2] && 0 <= py
                    < rect_spec(fs@, k)[3] && 0 <= c < 4 ==> channel(
                    pixels(canvas),
                    size.0,
                    rect_spec(fs@, k)[0] + px,
                    rect_spec(fs@, k)[1] + py,
                    c,
                ) == #[trigger] channel(pixels(shots@[k].image), rect_spec(fs@, k)[2], px, py, c),
        decreases shots.len() - i,
    {
        let rect = plan.rects[i];
        let (sw, sh) = shots[i].image.size();
        let shot_len = raw_of(&shots[i].image).len();
        proof {
            assert(rect == rect_spec(fs@, i as int));
        }
        let ghost before = pixels(canvas);
        let ghost ps0 = ps;
        let ghost mut top: Picture = shots@[i as int].image;
        if sw == rect[2] && sh == rect[3] {
            overlaid(&mut canvas, &shots[i].image, rect[0] as i64, rect[1] as i64);
        } else {
            let scaled = resized(&shots[i].image, rect[2], rect[3], Filter::Lanczos3);
            overlaid(&mut canvas, &scaled, rect[0] as i64, rect[1] as i64);
            proof {
                top = scaled;
            }
        }
        proof {
            let ii = i as int;
            let fsv = fs@;
            ps = ps0.push(top);
            assert(ps.drop_last() =~= ps0);
            assert(ps.last() == top);
            assert forall|k: int|
                0 <= k < i + 1 implies dims(#[trigger] ps[k]) == (
                rect_spec(fsv, k)[2],
                rect_spec(fsv, k)[3],
            ) && (dims(shots@[k].image) == (rect_spec(fsv, k)[2], rect_spec(fsv, k)[3]) ==> ps[k]
                == shots@[k].image) by {
                if k < ii {
                    assert(ps[k] == ps0[k]);
                }
            }
            assert forall|x: int, y: int, c: int|
                0 <= x < size.0 && 0 <= y < size.1 && 0 <= c < 4 && (forall|k: int|
                    0 <= k < i + 1 ==> !within(
                        x,
                        y,
                        #[trigger] rect_spec(fsv, k)[0] as int,
                        rect_spec(fsv, k)[1] as int,
                        rect_spec(fsv, k)[2] as int,
                        rect_spec(fsv, k)[3] as int,
                    )) implies #[trigger] channel(pixels(canvas), size.0, x, y, c) == black@[c] by {
                assert(!within(
                    x,
                    y,
                    rect_spec(fsv, ii)[0] as int,
                    rect_spec(fsv, ii)[1] as int,
                    rect_spec(fsv, ii)[2] as int,
                    rect_spec(fsv, ii)[3] as int,
                ));
                assert(channel(pixels(canvas), size.0, x, y, c) == channel(before, size.0, x, y, c));
            }
            assert forall|k: int, px: int, py: int, c: int|
                0 <= k < i + 1 && kept_whole(shots@, k) && 0 <= px < rect_spec(fsv, k)[2] && 0
                    <= py < rect_spec(fsv, k)[3] && 0 <= c < 4 implies channel(
                pixels(canvas),
                size.0,
                rect_spec(fsv, k)[0] + px,
                rect_spec(fsv, k)[1] + py,
                c,
            ) == #[trigger] channel(pixels(shots@[k].image), rect_spec(fsv, k)[2], px, py, c) by {
                lemma_rect_inside(fsv, k);
                let qx = rect_spec(fsv, k)[0] + px;
                let qy = rect_spec(fsv, k)[1] + py;
                assert(0 <= qx < size.0 && 0 <= qy < size.1);
                if k < ii {
                    assert(apart(rect_spec(fsv, k), rect_spec(fsv, ii)));
                    assert(!within(
                        qx,
                        qy,
                        rect[0] as int,
                        rect[1] as int,
                        rect[2] as int,
                        rect[3] as int,
                    ));
                    assert(channel(pixels(canvas), size.0, qx, qy, c) == channel(
                        before,
                        size.0,
                        qx,
                        qy,
                        c,
                    ));
                } else {
                    assert(dims(shots@[ii].image) == (rect[2], rect[3]));
                    assert(top == shots@[ii].image);
                    assert(channel(pixels(shots@[ii].image), rect[2], px, py, 3) == 255);
                    assert(channel(pixels(canvas), size.0, qx, qy, c) == channel(
                        pixels(shots@[ii].image),
                        rect[2],
                        px,
                        py,
                        c,
                    ));
                }
            }
        }
        i = i + 1;
    }
    proof {
        let fsv = fs@;
        assert(pasted_for(shots@, ps));
        assert forall|x: int, y: int, c: int|
            0 <= x < size.0 && 0 <= y < size.1 && 0 <= c < 4 && uncovered(fsv, x, y) implies #[trigger] channel(
            pixels(canvas),
            size.0,
            x,
            y,
            c,
        ) == [0u8, 0u8, 0u8, 255u8]@[c] by {
            assert forall|k: int| 0 <= k < shots@.len() implies !within(
                x,
                y,
                #[trigger] rect_spec(fsv, k)[0] as int,
                rect_spec(fsv, k)[1] as int,
                rect_spec(fsv, k)[2] as int,
                rect_spec(fsv, k)[3] as int,
            ) by {}
        }
        assert forall|ii: int| 0 <= ii < shots@.len() && kept_whole(shots@, ii) implies {
            let q = #[trigger] rect_spec(fsv, ii);
            cropped_spec(pixels(canvas), size.0, q[0], q[1], q[2], q[3]) == pixels(
                shots@[ii].image,
            ).take(area(q[2], q[3], 4))
        } by {
            let q = rect_spec(fsv, ii);
            assert(dims(shots@[ii].image) == (q[2], q[3]));
            assert(pixels(shots@[ii].image).len() >= area(q[2], q[3], 4));
            lemma_crop_back(pixels(canvas), size.0, q[0], q[1], q[2], q[3], pixels(shots@[ii].image));
        }
    }
    Some(canvas)
}

/// One monitor cut out of the desktop snapshot; `None` asks for all of it.
///
/// A rectangle that does not lie wholly inside the picture, or that is
/// empty, is ignored rather than clamped: a clamped crop can come out 0×0,
/// which cannot be shown at all. The whole desktop is shown instead.
pub fn cut_monitor(desktop: &Picture, rect: Option<[u32; 4]>) -> (r: Picture)
    ensures
        ({
            let (dw, dh) = dims(*desktop);
            match rect {
                Some(q) if q[2] > 0 && q[3] > 0 && q[0] + q[2] <= dw && q[1] + q[3] <= dh => {
                    &&& dims(r) == (q[2], q[3])
                    &&& pixels(r) == cropped_spec(pixels(*desktop), dw, q[0], q[1], q[2], q[3])
                },
                _ => dims(r) == dims(*desktop) && pixels(r) == pixels(*desktop),
            }
        }),
{
    let (dw, dh) = desktop.size();
    match rect {
        Some(q) => {
            if q[2] > 0 && q[3] > 0 && (q[0] as u64) + (q[2] as u64) <= dw as u64 && (q[1] as u64)
                + (q[3] as u64) <= dh as u64 {
                cropped(desktop, q[0], q[1], q[2], q[3])
            } else {
                copied(desktop)
            }
        },
        None => copied(desktop),
    }
}

/// `side` scaled by `num / den`, rounded to the nearest pixel (halves up),
/// at least one pixel and at most `cap`.
pub open spec fn fit_side(side: u32, num: u32, den: u32, cap: u32) -> u32 {
    let v = round_div(side * num, den as int);
    let m = if v < 1 {
        1
    } else {
        v
    };
    (if m > cap {
        cap as int
    } else {
        m
    }) as u32
}

/// The product of two `u32`s, which always fits in 64 bits.
fn wide_mul(a: u32, b: u32) -> (r: u128)
    ensures
        r == a * b,
        r < 0x1_0000_0000_0000_0000,
{
    assert((a as int) * (b as int) < 0x1_0000_0000_0000_0000) by (nonlinear_arith)
        requires
            a < 0x1_0000_0000,
            b < 0x1_0000_0000,
            a >= 0,
            b >= 0,
    ;
    (a as u128) * (b as u128)
}

/// `a / b` rounded to the nearest integer, halves up, for `a` below 2^64.
fn round_div_u(a: u128, b: u32) -> (r: u128)
    requires
        b > 0,
        a < 0x1_0000_0000_0000_0000,
    ensures
        r == round_div(a as int, b as int),
{
    (2 * a + b as u128) / (2 * b as u128)
}

fn fit_side_exec(side: u32, num: u32, den: u32, cap: u32) -> (r: u32)
    requires
        den > 0,
    ensures
        r == fit_side(side, num, den, cap),
{
    let v = round_div_u(wide_mul(side, num), den);
    let m: u128 = if v < 1 {
        1
    } else {
        v
    };
    if m > cap as u128 {
        cap
    } else {
        m as u32
    }
}

/// A fitted side is never longer than the side it came from.
proof fn lemma_fit_side_le(side: u32, limit: u32, longest: u32)
    requires
        1 <= side <= longest,
        limit < longest,
    ensures
        fit_side(side, limit, longest, limit) <= side,
{
    lemma_round_down(side as int, limit as int, longest as int);
}

/// Scaling by less than one never rounds up past the side itself.
proof fn lemma_round_down(side: int, num: int, den: int)
    requires
        side >= 1,
        0 <= num < den,
    ensures
        round_div(side * num, den) <= side,
{
    let n = 2 * (side * num) + den;
    let d = 2 * den;
    assert(side * num <= side * den) by (nonlinear_arith)
        requires
            side >= 1,
            num < den,
    ;
    assert(d * (side + 1) == 2 * (side * den) + 2 * den) by (nonlinear_arith)
        requires
            d == 2 * den,
    ;
    assert(n / d <= side) by (nonlinear_arith)
        requires
            n < d * (side + 1),
            d > 0,
            n >= 0,
    ;
    assert(side * num >= 0) by (nonlinear_arith)
        requires
            side >= 1,
            num >= 0,
    ;
}

/// The size a picture is shrunk to so its longest side is `limit`.
pub open spec fn fitted_size(w: u32, h: u32, limit: u32) -> (u32, u32) {
    let longest = if w >= h { w } else { h };
    (fit_side(w, limit, longest, limit), fit_side(h, limit, longest, limit))
}

/// Shrink `img` until neither side exceeds `limit`, keeping its aspect;
/// `None` when it already fits, so the ordinary case copies nothing.
///
/// The ceiling is the graphics card's: a picture past it cannot be shown.
pub fn fit_texture(img: &Picture, limit: u32) -> (r: Option<Picture>)
    requires
        ({
            let (w, h) = dims(*img);
            let longest = if w >= h { w } else { h };
            longest > limit ==> resize_fits((w, h), fitted_size(w, h, limit).0, fitted_size(w, h, limit).1)
        }),
    ensures
        ({
            let (w, h) = dims(*img);
            let longest = if w >= h { w } else { h };
            if longest <= limit {
                r is None
            } else {
                r matches Some(p) && {
                    let (nw, nh) = fitted_size(w, h, limit);
                    &&& dims(p) == (nw, nh)
                    &&& pixels(p) == resampled(pixels(*img), (w, h), nw, nh)
                }
            }
        }),
{
    let (w, h) = img.size();
    let longest = if w >= h {
        w
    } else {
        h
    };
    if longest <= limit {
        return None;
    }
    let nw = fit_side_exec(w, limit, longest, limit);
    let nh = fit_side_exec(h, limit, longest, limit);
    Some(resized(img, nw, nh, Filter::Triangle))
}

/// The height a preview `max_w` wide keeps the aspect of a `w` by `h`
/// picture with: rounded to the nearest pixel, and at least one.
pub open spec fn preview_height(w: u32, h: u32, max_w: u32) -> u32 {
    let v = round_div(h * max_w, w as int);
    (if v < 1 {
        1
    } else {
        v
    }) as u32
}

/// Downscale for a fast preview: no wider than `max_w`, aspect kept. A
/// picture that is narrow enough already is returned as it is.
pub fn make_preview(full: &Picture, max_w: u32) -> (r: Picture)
    requires
        ({
            let (w, h) = dims(*full);
            w > max_w ==> resize_fits((w, h), max_w, preview_height(w, h, max_w))
        }),
    ensures
        ({
            let (w, h) = dims(*full);
            if w <= max_w {
                dims(r) == dims(*full) && pixels(r) == pixels(*full)
            } else {
                let nh = preview_height(w, h, max_w);
                &&& dims(r) == (max_w, nh)
                &&& pixels(r) == resampled(pixels(*full), (w, h), max_w, nh)
            }
        }),
{
    let (w, h) = full.size();
    if w <= max_w {
        return copied(full);
    }
    let v = round_div_u(wide_mul(h, max_w), w);
    proof {
        if h > 0 {
            lemma_round_down(h as int, max_w as int, w as int);
        } else {
            assert((2 * 0 + w as int) / (2 * w as int) == 0) by (nonlinear_arith)
                requires
                    w > 0,
            ;
        }
    }
    let nh: u32 = if v < 1 {
        1
    } else {
        v as u32
    };
    resized(full, max_w, nh, Filter::Triangle)
}

/// A texture that is too big is shrunk to fit: neither fitted side exceeds
/// the limit, and a side that was not empty does not grow.
pub proof fn law_a_fitted_texture_fits(w: u32, h: u32, limit: u32)
    requires
        (if w >= h { w } else { h }) > limit,
    ensures
        fitted_size(w, h, limit).0 <= limit,
        fitted_size(w, h, limit).1 <= limit,
        w >= 1 ==> fitted_size(w, h, limit).0 <= w,
        h >= 1 ==> fitted_size(w, h, limit).1 <= h,
{
    let longest = if w >= h { w } else { h };
    if w >= 1 {
        lemma_fit_side_le(w, limit, longest);
    }
    if h >= 1 {
        lemma_fit_side_le(h, limit, longest);
    }
}

} // verus!
