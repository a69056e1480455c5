//! Saving shots: the filename template, the calendar date it needs, where a
//! file goes by default, which format a chosen path asks for, the flattening
//! that formats without an alpha channel need, and the encoded file itself.

use vstd::prelude::*;

use crate::text::{
    chars_of, dec, lower, lower_chars, padded, push_all, push_decimal, push_padded, push_str,
    replace, replace_chars, string_of, swap_chars, trim, trim_chars,
};

use crate::picture::{
    area, dims, pixels, raw_of, rgb_dims, rgb_from_bytes, rgb_pixels, Picture, RgbPicture,
};

use image::codecs::jpeg::JpegEncoder;
use image::codecs::png::{CompressionType, FilterType, PngEncoder};
use image::codecs::webp::WebPEncoder;
use image::{ExtendedColorType, ImageEncoder};

verus! {

/// Rust's integer division, which truncates toward zero.
pub open spec fn tdiv(a: int, b: int) -> int
    recommends
        b > 0,
{
    if a >= 0 { a / b } else { -((-a) / b) }
}

/// The proleptic Gregorian date `days` after 1970-01-01, by Howard
/// Hinnant's `civil_from_days`, with Rust's truncating division throughout.
pub open spec fn civil_spec(days: int) -> (int, int, int) {
    let z = days + 719_468;
    let era = z / 146_097;
    let doe = z % 146_097;
    let yoe = (doe - doe / 1460 + doe / 36_524 - doe / 146_096) / 365;
    let y = yoe + era * 400;
    let doy = doe - (365 * yoe + yoe / 4 - yoe / 100);
    let mp = tdiv(5 * doy + 2, 153);
    let d = doy - tdiv(153 * mp + 2, 5) + 1;
    let m = if mp < 10 { mp + 3 } else { mp - 9 };
    (if m <= 2 { y + 1 } else { y }, m, d)
}

/// A leap year of the Gregorian calendar.
pub open spec fn is_leap(y: int) -> bool {
    y % 4 == 0 && (y % 100 != 0 || y % 400 == 0)
}

/// The days of month `m` of year `y`.
pub open spec fn days_in_month(y: int, m: int) -> int {
    if m == 2 {
        if is_leap(y) { 29 } else { 28 }
    } else if m == 4 || m == 6 || m == 9 || m == 11 {
        30
    } else {
        31
    }
}

/// The leap years before year `y`, counted from year 0.
pub open spec fn leaps_before(y: int) -> int {
    (y - 1) / 4 - (y - 1) / 100 + (y - 1) / 400
}

/// The days of the months of a common year before month `m`.
pub open spec fn days_before_month(m: int) -> int
    decreases m,
{
    if m <= 1 {
        0
    } else {
        days_before_month(m - 1) + days_in_month(1970, m - 1)
    }
}

/// The days from 1970-01-01 to the date `y-m-d`: whole years, counting a day
/// for each leap year passed, then whole months of the year (with the leap
/// day once February is past), then days.
pub open spec fn days_from_civil(y: int, m: int, d: int) -> int {
    365 * (y - 1970) + leaps_before(y) - leaps_before(1970) + days_before_month(m) + (if m > 2
        && is_leap(y) { 1int } else { 0int }) + d - 1
}

/// An integer as `format!("{n:0width$}")` writes it: a sign when negative,
/// then the magnitude zero-padded so the whole is at least `width` wide.
pub open spec fn padded_int(n: int, width: nat) -> Seq<char> {
    if n < 0 {
        seq!['-'] + padded((-n) as nat, if width > 0 { (width - 1) as nat } else { 0 })
    } else {
        padded(n as nat, width)
    }
}

/// `YYYY-MM-DD` for the day holding `unix`, in UTC.
pub open spec fn date_spec(unix: nat) -> Seq<char> {
    let (y, m, d) = civil_spec((unix / 86_400) as int);
    padded_int(y, 4) + seq!['-'] + padded_int(m, 2) + seq!['-'] + padded_int(d, 2)
}

/// `HH-MM-SS` for the time of day of `unix`, in UTC.
pub open spec fn time_spec(unix: nat) -> Seq<char> {
    let secs = unix % 86_400;
    padded(secs / 3600, 2) + seq!['-'] + padded((secs / 60) % 60, 2) + seq!['-'] + padded(
        secs % 60,
        2,
    )
}

fn push_padded_int(v: &mut Vec<char>, n: i64, width: usize)
    requires
        n > i64::MIN,
        width >= 1,
    ensures
        final(v)@ == old(v)@ + padded_int(n as int, width as nat),
{
    if n < 0 {
        v.push('-');
        let m: i64 = -n;
        push_padded(v, m as u64, width - 1);
        assert(final(v)@ =~= old(v)@ + padded_int(n as int, width as nat));
    } else {
        push_padded(v, n as u64, width);
    }
}

/// The date and the time of day of a UNIX timestamp, in UTC, as
/// `YYYY-MM-DD` and `HH-MM-SS`.
pub fn civil_from_unix(unix: u64) -> (r: (String, String))
    ensures
        r.0@ == date_spec(unix as nat),
        r.1@ == time_spec(unix as nat),
{
    let days: u64 = unix / 86_400;
    let secs: u64 = unix % 86_400;
    assert(days <= 213_503_982_334_601);
    let z: u64 = days + 719_468;
    let era: u64 = z / 146_097;
    let doe: u64 = z % 146_097;
    let yoe: u64 = (doe - doe / 1460 + doe / 36_524 - doe / 146_096) / 365;
    assert(yoe <= 400);
    let y: i64 = (yoe as i64) + (era as i64) * 400;
    let doy: i64 = (doe as i64) - (365 * (yoe as i64) + (yoe as i64) / 4 - (yoe as i64) / 100);
    let mp: i64 = (5 * doy + 2) / 153;
    let d: i64 = doy - (153 * mp + 2) / 5 + 1;
    let m: i64 = if mp < 10 { mp + 3 } else { mp - 9 };
    let y: i64 = if m <= 2 { y + 1 } else { y };
    proof {
        let (sy, sm, sd) = civil_spec(days as int);
        assert(sy == y as int && sm == m as int && sd == d as int);
    }
    let mut date: Vec<char> = Vec::new();
    push_padded_int(&mut date, y, 4);
    date.push('-');
    push_padded_int(&mut date, m, 2);
    date.push('-');
    push_padded_int(&mut date, d, 2);
    let mut time: Vec<char> = Vec::new();
    push_padded(&mut time, secs / 3600, 2);
    time.push('-');
    push_padded(&mut time, (secs / 60) % 60, 2);
    time.push('-');
    push_padded(&mut time, secs % 60, 2);
    assert(date@ =~= date_spec(unix as nat));
    assert(time@ =~= time_spec(unix as nat));
    (string_of(date.as_slice()), string_of(time.as_slice()))
}


/// The filename a template gives at `unix`: `{unix}`, `{date}` and `{time}`
/// expanded in that order, surrounding whitespace dropped, an empty result
/// replaced by `shotr-<unix>`, and path separators turned into `-` so the
/// name cannot leave the directory it is saved in.
pub open spec fn expand_spec(template: Seq<char>, unix: nat) -> Seq<char> {
    let name = replace(
        replace(replace(template, "{unix}"@, dec(unix)), "{date}"@, date_spec(unix)),
        "{time}"@,
        time_spec(unix),
    );
    let name = trim(name);
    if name.len() == 0 {
        "shotr-"@ + dec(unix)
    } else {
        swap_chars(name, '/', '\\', '-')
    }
}

/// Expand the filename template. Supported tokens: `{unix}`, `{date}`,
/// `{time}`. Anything else is left alone so a stray brace is not fatal.
pub fn expand_template(template: &str, unix: u64) -> (r: String)
    ensures
        r@ == expand_spec(template@, unix as nat),
{
    let (date, time) = civil_from_unix(unix);
    let t = chars_of(template);
    let mut stamp: Vec<char> = Vec::new();
    push_decimal(&mut stamp, unix);
    let unix_tok = chars_of("{unix}");
    let date_tok = chars_of("{date}");
    let time_tok = chars_of("{time}");
    proof {
        reveal_strlit("{unix}");
        reveal_strlit("{date}");
        reveal_strlit("{time}");
    }
    let a = replace_chars(t.as_slice(), unix_tok.as_slice(), stamp.as_slice());
    let date_v = chars_of(date.as_str());
    let b = replace_chars(a.as_slice(), date_tok.as_slice(), date_v.as_slice());
    let time_v = chars_of(time.as_str());
    let c = replace_chars(b.as_slice(), time_tok.as_slice(), time_v.as_slice());
    let name = trim_chars(c.as_slice());
    let mut out: Vec<char> = Vec::new();
    if name.len() == 0 {
        push_str(&mut out, "shotr-");
        push_all(&mut out, stamp.as_slice());
    } else {
        let mut i: usize = 0;
        while i < name.len()
            invariant
                i <= name.len(),
                out@ == swap_chars(name@.take(i as int), '/', '\\', '-'),
            decreases name.len() - i,
        {
            let ch = name[i];
            if ch == '/' || ch == '\\' {
                out.push('-');
            } else {
                out.push(ch);
            }
            i = i + 1;
            assert(out@ =~= swap_chars(name@.take(i as int), '/', '\\', '-'));
        }
        assert(name@.take(name.len() as int) =~= name@);
    }
    string_of(out.as_slice())
}

/// However the template is written, the name never holds a path separator
/// and is never empty.
pub proof fn law_name_stays_in_its_directory(template: Seq<char>, unix: nat)
    ensures
        !expand_spec(template, unix).contains('/'),
        !expand_spec(template, unix).contains('\\'),
        expand_spec(template, unix).len() > 0,
{
    reveal_strlit("shotr-");
    crate::text::lemma_dec_shape(unix);
    let r = expand_spec(template, unix);
    assert(!r.contains('/')) by {
        if r.contains('/') {
            let i = choose|i: int| 0 <= i < r.len() && r[i] == '/';
            if i >= "shotr-"@.len() {
                assert(crate::text::is_digit(dec(unix)[i - "shotr-"@.len()]));
            }
        }
    }
    assert(!r.contains('\\')) by {
        if r.contains('\\') {
            let i = choose|i: int| 0 <= i < r.len() && r[i] == '\\';
            if i >= "shotr-"@.len() {
                assert(crate::text::is_digit(dec(unix)[i - "shotr-"@.len()]));
            }
        }
    }
}


/// The image formats a shot is saved in.
#[derive(Clone, Copy, PartialEq, Eq, Structural, Debug)]
pub enum ExportFormat {
    Png,
    Jpeg,
    Webp,
}

pub open spec fn extension_spec(f: ExportFormat) -> Seq<char> {
    match f {
        ExportFormat::Png => "png"@,
        ExportFormat::Jpeg => "jpg"@,
        ExportFormat::Webp => "webp"@,
    }
}

/// The format a file extension names, in any letter case.
pub open spec fn from_extension_spec(ext: Option<Seq<char>>) -> Option<ExportFormat> {
    match ext {
        Some(e) => {
            let l = lower(e);
            if l == "png"@ {
                Some(ExportFormat::Png)
            } else if l == "jpg"@ || l == "jpeg"@ {
                Some(ExportFormat::Jpeg)
            } else if l == "webp"@ {
                Some(ExportFormat::Webp)
            } else {
                None
            }
        },
        None => None,
    }
}

impl ExportFormat {
    pub fn extension(self) -> (r: &'static str)
        ensures
            r@ == extension_spec(self),
    {
        match self {
            ExportFormat::Png => "png",
            ExportFormat::Jpeg => "jpg",
            ExportFormat::Webp => "webp",
        }
    }

    pub fn from_extension(ext: Option<&str>) -> (r: Option<ExportFormat>)
        ensures
            r == from_extension_spec(crate::ipc::opt_str(ext)),
    {
        match ext {
            Some(e) => {
                let cs = chars_of(e);
                let l = lower_chars(cs.as_slice());
                if crate::text::is_text(l.as_slice(), "png") {
                    Some(ExportFormat::Png)
                } else if crate::text::is_text(l.as_slice(), "jpg") || crate::text::is_text(
                    l.as_slice(),
                    "jpeg",
                ) {
                    Some(ExportFormat::Jpeg)
                } else if crate::text::is_text(l.as_slice(), "webp") {
                    Some(ExportFormat::Webp)
                } else {
                    None
                }
            },
            None => None,
        }
    }
}

/// Every format reads back from the extension it writes.
pub proof fn law_extension_round_trip(f: ExportFormat)
    ensures
        from_extension_spec(Some(extension_spec(f))) == Some(f),
{
    reveal_strlit("png");
    reveal_strlit("jpg");
    reveal_strlit("jpeg");
    reveal_strlit("webp");
    crate::text::lemma_lower_plain(extension_spec(f));
    assert("jpg"@ != "png"@) by {
        assert("jpg"@[0] != "png"@[0]);
    }
    assert("webp"@ != "png"@) by {
        assert("webp"@[0] != "png"@[0]);
    }
    assert("webp"@ != "jpg"@) by {
        assert("webp"@[0] != "jpg"@[0]);
    }
    assert("webp"@ != "jpeg"@) by {
        assert("webp"@[0] != "jpeg"@[0]);
    }
}

/// The format a save uses: the one the chosen path's extension names, else
/// the configured one.
pub fn chosen_format(ext: Option<&str>, configured: ExportFormat) -> (r: ExportFormat)
    ensures
        r == match from_extension_spec(crate::ipc::opt_str(ext)) {
            Some(f) => f,
            None => configured,
        },
{
    match ExportFormat::from_extension(ext) {
        Some(f) => f,
        None => configured,
    }
}

/// `base` joined with a relative `part` that holds no separator, as
/// `Path::join` does it.
pub open spec fn join_spec(base: Seq<char>, part: Seq<char>) -> Seq<char> {
    if base.len() == 0 {
        part
    } else if base.last() == '/' {
        base + part
    } else {
        base.push('/') + part
    }
}

pub(crate) fn push_join(v: &mut Vec<char>, part: &[char])
    ensures
        final(v)@ == join_spec(old(v)@, part@),
{
    if v.len() > 0 && v[v.len() - 1] != '/' {
        v.push('/');
    }
    push_all(v, part);
}

/// `<dir>/shotr/<name>.<ext>`, the name expanded from `template` at `unix`.
pub open spec fn default_path_spec(
    dir: Seq<char>,
    template: Seq<char>,
    format: ExportFormat,
    unix: nat,
) -> Seq<char> {
    join_spec(
        join_spec(dir, "shotr"@),
        expand_spec(template, unix) + seq!['.'] + extension_spec(format),
    )
}

/// Where a shot is saved without asking: `shotr/` inside the pictures
/// directory, named by the template at the given time.
pub fn default_path(dir: &str, template: &str, format: ExportFormat, unix: u64) -> (r: String)
    ensures
        r@ == default_path_spec(dir@, template@, format, unix as nat),
{
    let mut v = chars_of(dir);
    let shotr = chars_of("shotr");
    push_join(&mut v, shotr.as_slice());
    let name = expand_template(template, unix);
    let mut file = chars_of(name.as_str());
    file.push('.');
    push_str(&mut file, format.extension());
    push_join(&mut v, file.as_slice());
    string_of(v.as_slice())
}

/// The extension of the last component of a path: what follows its last
/// dot, unless that dot opens the name.
pub open spec fn file_name_spec(path: Seq<char>) -> Seq<char>
    decreases path.len(),
{
    if path.len() == 0 {
        path
    } else if path.last() == '/' {
        file_name_spec(path.drop_last())
    } else {
        after_last(path, '/')
    }
}

/// What follows the last `c`, or everything when there is none.
pub open spec fn after_last(s: Seq<char>, c: char) -> Seq<char>
    decreases s.len(),
{
    if s.len() == 0 {
        s
    } else if s.last() == c {
        Seq::empty()
    } else {
        after_last(s.drop_last(), c).push(s.last())
    }
}

pub open spec fn extension_of_spec(path: Seq<char>) -> Option<Seq<char>> {
    let name = file_name_spec(path);
    let ext = after_last(name, '.');
    if name.len() == 0 || name == ".."@ || ext.len() == name.len() || ext.len() + 1 == name.len() {
        None
    } else {
        Some(ext)
    }
}

fn after_last_from(s: &[char], end: usize, c: char) -> (r: Vec<char>)
    requires
        end <= s.len(),
    ensures
        r@ == after_last(s@.take(end as int), c),
{
    let mut start = end;
    while start > 0 && s[start - 1] != c
        invariant
            start <= end <= s.len(),
            forall|q: int| start <= q < end ==> s@[q] != c,
            after_last(s@.take(end as int), c) == after_last(s@.take(start as int), c) + s@.subrange(
                start as int,
                end as int,
            ),
        decreases start,
    {
        proof {
            let t = s@.take(start as int);
            assert(t.drop_last() =~= s@.take(start - 1));
            assert(t.last() == s@[start - 1]);
            assert(after_last(s@.take(start - 1), c).push(s@[start - 1]) + s@.subrange(
                start as int,
                end as int,
            ) =~= after_last(s@.take(start - 1), c) + s@.subrange(start - 1, end as int));
        }
        start = start - 1;
    }
    proof {
        let t = s@.take(start as int);
        if start > 0 {
            assert(t.last() == s@[start - 1]);
        }
        assert(after_last(t, c) =~= Seq::<char>::empty());
        assert(Seq::<char>::empty() + s@.subrange(start as int, end as int) =~= s@.subrange(
            start as int,
            end as int,
        ));
    }
    crate::text::slice_of(s, start, end)
}

/// The extension of a path's file name, as `Path::extension` reads it.
pub fn extension_of(path: &str) -> (r: Option<String>)
    ensures
        match r {
            Some(e) => extension_of_spec(path@) == Some(e@),
            None => extension_of_spec(path@) is None,
        },
{
    let p = chars_of(path);
    let mut end = p.len();
    assert(p@.take(end as int) =~= p@);
    while end > 0 && p[end - 1] == '/'
        invariant
            end <= p.len(),
            file_name_spec(p@) == file_name_spec(p@.take(end as int)),
        decreases end,
    {
        assert(p@.take(end as int).drop_last() =~= p@.take(end - 1));
        end = end - 1;
    }
    let name = after_last_from(p.as_slice(), end, '/');
    assert(p@.take(end as int) =~= p@ || end < p.len());
    proof {
        let t = p@.take(end as int);
        if t.len() > 0 {
            assert(t.last() != '/');
        }
    }
    assert(name@ == file_name_spec(p@));
    let ext = after_last_from(name.as_slice(), name.len(), '.');
    assert(name@.take(name.len() as int) =~= name@);
    if name.len() == 0 || crate::text::is_text(name.as_slice(), "..") || ext.len() == name.len()
        || ext.len() == name.len() - 1 {
        None
    } else {
        Some(string_of(ext.as_slice()))
    }
}

/// One channel of a pixel composited over white at opacity `a`, rounded to
/// the nearest level: `c·a/255 + 255·(1 − a/255)`.
pub open spec fn on_white(c: u8, a: u8) -> u8 {
    ((c * a + 255 * (255 - a) + 127) / 255) as u8
}

/// The RGB bytes of `n` RGBA pixels composited over white.
pub open spec fn flattened(src: Seq<u8>, n: int) -> Seq<u8> {
    Seq::new((3 * n) as nat, |i: int| on_white(src[(i / 3) * 4 + i % 3], src[(i / 3) * 4 + 3]))
}

fn on_white_exec(c: u8, a: u8) -> (r: u8)
    ensures
        r == on_white(c, a),
{
    assert((c as int) * (a as int) <= 255 * (a as int)) by (nonlinear_arith)
        requires
            c <= 255,
            a >= 0,
    ;
    let v: u32 = (c as u32) * (a as u32) + 255 * (255 - a as u32) + 127;
    assert(v / 255 <= 255);
    (v / 255) as u8
}

/// Composite over white. Used for formats without an alpha channel: every
/// pixel keeps its colour in proportion to its opacity and takes white for
/// the rest, so transparency comes out white and never black.
pub fn flatten_on_white(img: &Picture) -> (r: RgbPicture)
    ensures
        rgb_dims(r) == dims(*img),
        rgb_pixels(r) == flattened(pixels(*img), dims(*img).0 * dims(*img).1),
{
    let (w, h) = img.size();
    let raw = raw_of(img);
    let ghost src = pixels(*img);
    assert(area(w, 1, 3) <= area(w, 1, 4));
    assert(isize::MAX < usize::MAX);
    assert(area(w, h, 4) <= isize::MAX);
    assert((w as int) * (h as int) <= usize::MAX && 4 * ((w as int) * (h as int)) == area(w, h, 4))
        by (nonlinear_arith)
        requires
            area(w, h, 4) <= usize::MAX,
    ;
    let n: usize = (w as usize) * (h as usize);
    let mut out: Vec<u8> = Vec::new();
    let mut i: usize = 0;
    while i < n
        invariant
            i <= n,
            n == w * h,
            4 * n <= usize::MAX,
            raw@ == src,
            src.len() >= 4 * n,
            out@.len() == 3 * i,
            forall|j: int| 0 <= j < 3 * i ==> #[trigger] out@[j] == on_white(
                src[(j / 3) * 4 + j % 3],
                src[(j / 3) * 4 + 3],
            ),
        decreases n - i,
    {
        let a = raw[4 * i + 3];
        out.push(on_white_exec(raw[4 * i], a));
        out.push(on_white_exec(raw[4 * i + 1], a));
        out.push(on_white_exec(raw[4 * i + 2], a));
        proof {
            let b = 3 * i as int;
            assert(b / 3 == i && b % 3 == 0);
            assert((b + 1) / 3 == i && (b + 1) % 3 == 1);
            assert((b + 2) / 3 == i && (b + 2) % 3 == 2);
            assert(out@[b] == on_white(src[(b / 3) * 4 + b % 3], src[(b / 3) * 4 + 3]));
            assert(out@[b + 1] == on_white(
                src[((b + 1) / 3) * 4 + (b + 1) % 3],
                src[((b + 1) / 3) * 4 + 3],
            ));
            assert(out@[b + 2] == on_white(
                src[((b + 2) / 3) * 4 + (b + 2) % 3],
                src[((b + 2) / 3) * 4 + 3],
            ));
        }
        i = i + 1;
    }
    let ghost f = flattened(src, n as int);
    assert(out@ =~= f);
    proof {
        assert(area(w, h, 3) == 3 * n) by (nonlinear_arith)
            requires
                n == w * h,
        ;
    }
    rgb_from_bytes(w, h, out)
}

/// The PNG file `image`'s encoder writes for RGBA pixels, adaptive filtering,
/// at its best compression or its default one; `None` where it refuses them.
pub uninterp spec fn png_encoded(rgba: Seq<u8>, w: u32, h: u32, best: bool) -> Option<Seq<u8>>;

/// The JPEG file `image`'s encoder writes for RGB pixels at a quality;
/// `None` where it refuses them.
pub uninterp spec fn jpeg_encoded(rgb: Seq<u8>, w: u32, h: u32, quality: u8) -> Option<Seq<u8>>;

/// The lossless WebP file `image`'s encoder writes for RGBA pixels; `None`
/// where it refuses them.
pub uninterp spec fn webp_encoded(rgba: Seq<u8>, w: u32, h: u32) -> Option<Seq<u8>>;

/// `PngEncoder::write_image` into memory. Encoding into a `Vec` is
/// deterministic, so both whether the encoder accepts the pixels and the bytes
/// it writes are named by `png_encoded`; the error's text is left unsaid.
#[verifier::external_body]
fn png_bytes(rgba: &[u8], w: u32, h: u32, best: bool) -> (r: Result<Vec<u8>, String>)
    requires
        rgba@.len() == area(w, h, 4),
    ensures
        match r {
            Ok(b) => png_encoded(rgba@, w, h, best) == Some(b@),
            Err(_) => png_encoded(rgba@, w, h, best) is None,
        },
{
    let mut out: Vec<u8> = Vec::new();
    let level = if best {
        CompressionType::Best
    } else {
        CompressionType::Default
    };
    let done = PngEncoder::new_with_quality(&mut out, level, FilterType::Adaptive).write_image(
        rgba,
        w,
        h,
        ExtendedColorType::Rgba8,
    );
    done.map(|()| out).map_err(|e| e.to_string())
}

/// `JpegEncoder::write_image` into memory; as for PNG, acceptance and bytes
/// are named by `jpeg_encoded`, the error's text is left unsaid. The encoder
/// wraps the bytes in an `ImageBuffer` first, which it sizes in steps (three
/// channels times the width, then times the height) and unwraps.
#[verifier::external_body]
fn jpeg_bytes(rgb: &[u8], w: u32, h: u32, quality: u8) -> (r: Result<Vec<u8>, String>)
    requires
        area(w, 1, 3) <= usize::MAX,
        rgb@.len() == area(w, h, 3),
    ensures
        match r {
            Ok(b) => jpeg_encoded(rgb@, w, h, quality) == Some(b@),
            Err(_) => jpeg_encoded(rgb@, w, h, quality) is None,
        },
{
    let mut out: Vec<u8> = Vec::new();
    let done = JpegEncoder::new_with_quality(&mut out, quality).write_image(
        rgb,
        w,
        h,
        ExtendedColorType::Rgb8,
    );
    done.map(|()| out).map_err(|e| e.to_string())
}

/// `WebPEncoder::write_image` (lossless) into memory; acceptance and bytes
/// are named by `webp_encoded`, the error's text is left unsaid.
#[verifier::external_body]
fn webp_bytes(rgba: &[u8], w: u32, h: u32) -> (r: Result<Vec<u8>, String>)
    requires
        rgba@.len() == area(w, h, 4),
    ensures
        match r {
            Ok(b) => webp_encoded(rgba@, w, h) == Some(b@),
            Err(_) => webp_encoded(rgba@, w, h) is None,
        },
{
    let mut out: Vec<u8> = Vec::new();
    let done = WebPEncoder::new_lossless(&mut out).write_image(rgba, w, h, ExtendedColorType::Rgba8);
    done.map(|()| out).map_err(|e| e.to_string())
}

/// The settings a save reads.
#[derive(Clone, Copy, PartialEq, Eq, Debug, Structural)]
pub struct SaveOptions {
    /// The format configured for saves whose path names none.
    pub format: ExportFormat,
    /// Compress PNG as hard as the encoder can.
    pub png_max_compression: bool,
    /// JPEG quality, held to 1..=100 when used.
    pub jpeg_quality: u8,
}

/// The bytes of the file a shot is saved as at `path`: in the format the
/// path's extension names, else the configured one. JPEG has no alpha
/// channel, so it is flattened onto white first, and its quality is held to
/// 1..=100. `None` where the chosen encoder refuses the pixels.
pub open spec fn saved_bytes(rgba: Seq<u8>, w: u32, h: u32, path: Seq<char>, o: SaveOptions) -> Option<
    Seq<u8>,
> {
    let format = match from_extension_spec(extension_of_spec(path)) {
        Some(f) => f,
        None => o.format,
    };
    match format {
        ExportFormat::Png => png_encoded(rgba, w, h, o.png_max_compression),
        ExportFormat::Jpeg => jpeg_encoded(
            flattened(rgba, w * h),
            w,
            h,
            if o.jpeg_quality < 1 {
                1
            } else if o.jpeg_quality > 100 {
                100
            } else {
                o.jpeg_quality
            },
        ),
        ExportFormat::Webp => webp_encoded(rgba, w, h),
    }
}

/// The file a shot is saved as at `path`. It fails exactly when the chosen
/// encoder refuses the pixels, with the encoder's error. Writing the file out
/// is the caller's.
pub fn encode(img: &Picture, path: &str, o: SaveOptions) -> (r: Result<Vec<u8>, String>)
    requires
        pixels(*img).len() == area(dims(*img).0, dims(*img).1, 4),
    ensures
        match r {
            Ok(b) => saved_bytes(pixels(*img), dims(*img).0, dims(*img).1, path@, o) == Some(b@),
            Err(_) => saved_bytes(pixels(*img), dims(*img).0, dims(*img).1, path@, o) is None,
        },
{
    let ext = extension_of(path);
    let format = match &ext {
        Some(e) => chosen_format(Some(e.as_str()), o.format),
        None => chosen_format(None, o.format),
    };
    let (w, h) = img.size();
    let raw = raw_of(img);
    let raw_len = raw.len();
    assert(area(w, h, 4) == raw_len);
    match format {
        ExportFormat::Png => png_bytes(raw, w, h, o.png_max_compression),
        ExportFormat::Jpeg => {
            let quality = if o.jpeg_quality < 1 {
                1
            } else if o.jpeg_quality > 100 {
                100
            } else {
                o.jpeg_quality
            };
            let flat = flatten_on_white(img);
            let bytes = flat.into_rgb();
            proof {
                assert(area(w, h, 3) == 3 * (w * h)) by (nonlinear_arith);
            }
            jpeg_bytes(&bytes, w, h, quality)
        },
        ExportFormat::Webp => webp_bytes(raw, w, h),
    }
}

/// One era of 400 years, day by day: the year of the era, the day of the
/// year counted from March, and the month and day that day falls on.
#[verifier::spinoff_prover]
#[verifier::rlimit(40)]
proof fn lemma_era_day(doe: int)
    requires
        0 <= doe < 146_097,
    ensures
        ({
            let yoe = (doe - doe / 1460 + doe / 36_524 - doe / 146_096) / 365;
            let doy = doe - (365 * yoe + yoe / 4 - yoe / 100);
            let mp = (5 * doy + 2) / 153;
            let d = doy - (153 * mp + 2) / 5 + 1;
            &&& 0 <= yoe < 400
            &&& 0 <= doy <= 365
            &&& 0 <= mp <= 11
            &&& 1 <= d
            &&& d <= (153 * (mp + 1) + 2) / 5 - (153 * mp + 2) / 5
            &&& doy == 365 ==> (yoe + 1) % 4 == 0 && ((yoe + 1) % 100 != 0 || yoe + 1 == 400)
        }),
{
}

/// Whole 400-year eras change neither the leap rule nor the leap years
/// counted within an era.
proof fn lemma_eras(e: int, r: int)
    requires
        e >= 0,
    ensures
        is_leap(400 * e + r) == is_leap(r),
        leaps_before(400 * e + r) == 97 * e + leaps_before(r),
{
    assert((400 * e + r) % 4 == r % 4 && (400 * e + r) % 100 == r % 100 && (400 * e + r) % 400
        == r % 400) by (nonlinear_arith)
        requires
            e >= 0,
    ;
    assert((400 * e + r - 1) / 4 == 100 * e + (r - 1) / 4 && (400 * e + r - 1) / 100 == 4 * e + (r
        - 1) / 100 && (400 * e + r - 1) / 400 == e + (r - 1) / 400) by (nonlinear_arith)
        requires
            e >= 0,
    ;
}

/// The leap years up to year `k` of an era, by the era's own count.
proof fn lemma_leaps_in_era(k: int)
    requires
        0 <= k < 400,
    ensures
        leaps_before(k) + (if is_leap(k) { 1int } else { 0int }) == k / 4 - k / 100,
        leaps_before(k + 1) == k / 4 - k / 100,
{
}

/// The date a day of an era falls on, from March to December.
#[verifier::spinoff_prover]
#[verifier::rlimit(40)]
proof fn lemma_spring(era: int, doe: int, days: int)
    requires
        era >= 0,
        0 <= doe < 146_097,
        days == era * 146_097 + doe - 719_468,
        ({
            let yoe = (doe - doe / 1460 + doe / 36_524 - doe / 146_096) / 365;
            let doy = doe - (365 * yoe + yoe / 4 - yoe / 100);
            (5 * doy + 2) / 153 < 10
        }),
    ensures
        ({
            let yoe = (doe - doe / 1460 + doe / 36_524 - doe / 146_096) / 365;
            let doy = doe - (365 * yoe + yoe / 4 - yoe / 100);
            let mp = (5 * doy + 2) / 153;
            let d = doy - (153 * mp + 2) / 5 + 1;
            let (y, m) = (400 * era + yoe, mp + 3);
            &&& 1 <= d <= days_in_month(y, m)
            &&& days_from_civil(y, m, d) == days
        }),
{
    lemma_era_day(doe);
    let yoe = (doe - doe / 1460 + doe / 36_524 - doe / 146_096) / 365;
    lemma_eras(era, yoe);
    lemma_leaps_in_era(yoe);
    reveal_with_fuel(days_before_month, 13);
}

/// The date a day of an era falls on, in January or February of the next
/// year.
#[verifier::spinoff_prover]
#[verifier::rlimit(40)]
proof fn lemma_winter(era: int, doe: int, days: int)
    requires
        era >= 0,
        0 <= doe < 146_097,
        days == era * 146_097 + doe - 719_468,
        ({
            let yoe = (doe - doe / 1460 + doe / 36_524 - doe / 146_096) / 365;
            let doy = doe - (365 * yoe + yoe / 4 - yoe / 100);
            (5 * doy + 2) / 153 >= 10
        }),
    ensures
        ({
            let yoe = (doe - doe / 1460 + doe / 36_524 - doe / 146_096) / 365;
            let doy = doe - (365 * yoe + yoe / 4 - yoe / 100);
            let mp = (5 * doy + 2) / 153;
            let d = doy - (153 * mp + 2) / 5 + 1;
            let (y, m) = (400 * era + yoe + 1, mp - 9);
            &&& 1 <= d <= days_in_month(y, m)
            &&& days_from_civil(y, m, d) == days
        }),
{
    lemma_era_day(doe);
    let yoe = (doe - doe / 1460 + doe / 36_524 - doe / 146_096) / 365;
    lemma_eras(era, yoe + 1);
    lemma_leaps_in_era(yoe);
    reveal_with_fuel(days_before_month, 3);
    if yoe + 1 == 400 {
        assert(is_leap(yoe + 1));
    }
}

/// The date every timestamp is named by is a real calendar day, and the
/// right one: its month is one of the twelve, its day lies within that
/// month, and counting the days from 1970-01-01 to it, year by year, month
/// by month, gives back the days the timestamp holds.
pub proof fn law_dates_are_real_days(unix: nat)
    ensures
        ({
            let days = (unix / 86_400) as int;
            let (y, m, d) = civil_spec(days);
            &&& 1 <= m <= 12
            &&& 1 <= d <= days_in_month(y, m)
            &&& days_from_civil(y, m, d) == days
        }),
{
    let days = (unix / 86_400) as int;
    let z = days + 719_468;
    let era = z / 146_097;
    let doe = z % 146_097;
    lemma_era_day(doe);
    let yoe = (doe - doe / 1460 + doe / 36_524 - doe / 146_096) / 365;
    let doy = doe - (365 * yoe + yoe / 4 - yoe / 100);
    let mp = (5 * doy + 2) / 153;
    assert(tdiv(5 * doy + 2, 153) == mp);
    assert(tdiv(153 * mp + 2, 5) == (153 * mp + 2) / 5);
    assert(z == era * 146_097 + doe);
    if mp < 10 {
        lemma_spring(era, doe, days);
    } else {
        lemma_winter(era, doe, days);
    }
}

} // verus!
