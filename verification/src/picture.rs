//! Pictures held in `image`'s buffers, and the few operations on them that
//! the rest of the library builds on: filling, cropping, resampling and
//! pasting one picture over another.
//!
//! A picture's contents are named by its raw RGBA bytes (row after row, four
//! bytes a pixel) and its size. Resampling and alpha compositing are the
//! `image` crate's own algorithms; their results are named rather than
//! restated.

use vstd::prelude::*;

use image::{RgbImage, Rgba, RgbaImage};

verus! {

/// An RGBA picture: an `image::RgbaImage`, which the library only reaches
/// through the operations below.
#[verifier::external_body]
pub struct Picture {
    img: RgbaImage,
}

/// An RGB picture, for formats without an alpha channel.
#[verifier::external_body]
pub struct RgbPicture {
    img: RgbImage,
}

/// The raw bytes an RGBA picture holds: four a pixel, row after row.
pub uninterp spec fn pixels(p: Picture) -> Seq<u8>;

/// An RGBA picture's width and height.
pub uninterp spec fn dims(p: Picture) -> (u32, u32);

/// The raw bytes an RGB picture holds: three a pixel, row after row.
pub uninterp spec fn rgb_pixels(p: RgbPicture) -> Seq<u8>;

/// An RGB picture's width and height.
pub uninterp spec fn rgb_dims(p: RgbPicture) -> (u32, u32);

/// What `imageops::resize` with the `Triangle` filter makes of a picture (its
/// bytes and size) at a new size. That filter is plain arithmetic, so its
/// result depends on its arguments alone; `Lanczos3` computes sines, whose
/// precision std leaves to the platform, and gets no name.
pub uninterp spec fn resampled(src: Seq<u8>, size: (u32, u32), width: u32, height: u32) -> Seq<u8>;

/// What `imageops::overlay` makes of a picture (its bytes and size) with
/// another one composited over it with its top-left corner at `(x, y)`.
pub uninterp spec fn composited(
    bottom: Seq<u8>,
    bottom_size: (u32, u32),
    top: Seq<u8>,
    top_size: (u32, u32),
    x: i64,
    y: i64,
) -> Seq<u8>;

/// The resampling filters the library uses.
#[derive(Clone, Copy, PartialEq, Eq, Debug, Structural)]
pub enum Filter {
    /// Linear: cheap, for previews and thumbnails.
    Triangle,
    /// Lanczos with window 3: for a picture the user then works on.
    Lanczos3,
}

/// The bytes of a `w` by `h` picture, `channels` a pixel.
pub open spec fn area(w: u32, h: u32, channels: int) -> int {
    channels * (w as int) * (h as int)
}

/// Every pixel of a `w` by `h` picture set to `px`.
pub open spec fn filled_spec(w: u32, h: u32, px: [u8; 4]) -> Seq<u8> {
    Seq::new(area(w, h, 4) as nat, |i: int| px@[i % 4])
}

/// What `imageops::resize` needs to size and allocate its buffers when it
/// takes a picture of size `src` to `w` by `h`: the new picture's, and, when
/// it really resamples, the float picture of the new height in between,
/// sixteen bytes a pixel.
pub open spec fn resize_fits(src: (u32, u32), w: u32, h: u32) -> bool {
    &&& area(w, 1, 4) <= usize::MAX
    &&& area(w, h, 4) <= isize::MAX
    &&& src.0 > 0 && src.1 > 0 && src != (w, h) ==> area(src.0, h, 16) <= isize::MAX
}

/// Channel `c` of the pixel at `(x, y)` of a picture whose rows are `stride`
/// pixels long.
pub open spec fn channel(src: Seq<u8>, stride: u32, x: int, y: int, c: int) -> u8 {
    src[(y * stride + x) * 4 + c]
}

/// Whether `(x, y)` lies in the `w` by `h` rectangle at `(left, top)`.
pub open spec fn within(x: int, y: int, left: int, top: int, w: int, h: int) -> bool {
    left <= x < left + w && top <= y < top + h
}

/// The pixels of the `w` by `h` rectangle at `(x, y)` of a picture whose
/// rows are `stride` pixels long.
pub open spec fn cropped_spec(src: Seq<u8>, stride: u32, x: u32, y: u32, w: u32, h: u32) -> Seq<
    u8,
> {
    Seq::new(
        area(w, h, 4) as nat,
        |i: int|
            src[((y + (i / 4) / (w as int)) * stride + x + (i / 4) % (w as int)) * 4 + i % 4],
    )
}

/// `ImageBuffer::from_raw` for bytes known to be enough. It sizes the
/// picture in two steps, four channels times the width and that times the
/// height, and refuses one that overflows a `usize`.
#[verifier::external_body]
fn picture_from_raw(w: u32, h: u32, bytes: Vec<u8>) -> (r: Picture)
    requires
        area(w, 1, 4) <= usize::MAX,
        area(w, h, 4) <= bytes@.len(),
    ensures
        dims(r) == (w, h),
        pixels(r) == bytes@,
{
    Picture { img: RgbaImage::from_raw(w, h, bytes).unwrap() }
}

/// `ImageBuffer::into_raw`.
#[verifier::external_body]
fn picture_into_raw(p: Picture) -> (r: Vec<u8>)
    ensures
        r@ == pixels(p),
{
    p.img.into_raw()
}

/// `ImageBuffer::dimensions`. Every buffer `image` builds was sized with
/// checked arithmetic (four channels times the width, then times the
/// height), and its bytes sit in a `Vec`, which never holds more than
/// `isize::MAX` of them.
#[verifier::external_body]
fn picture_size(p: &Picture) -> (r: (u32, u32))
    ensures
        r == dims(*p),
        area(r.0, 1, 4) <= usize::MAX,
        area(r.0, r.1, 4) <= isize::MAX,
{
    p.img.dimensions()
}

/// `ImageBuffer::as_raw`: the buffer behind a picture, which is never
/// shorter than its pixels need (every constructor checks that).
#[verifier::external_body]
pub(crate) fn raw_of(p: &Picture) -> (r: &[u8])
    ensures
        r@ == pixels(*p),
        r@.len() >= area(dims(*p).0, dims(*p).1, 4),
{
    p.img.as_raw()
}

/// `ImageBuffer::from_pixel`: a `w` by `h` picture of one colour. Its
/// buffer is sized as for `from_raw` and then allocated, which a `Vec` can
/// only do up to `isize::MAX` bytes.
#[verifier::external_body]
pub(crate) fn filled(w: u32, h: u32, px: [u8; 4]) -> (r: Picture)
    requires
        area(w, 1, 4) <= usize::MAX,
        area(w, h, 4) <= isize::MAX,
    ensures
        dims(r) == (w, h),
        pixels(r) == filled_spec(w, h, px),
{
    Picture { img: RgbaImage::from_pixel(w, h, Rgba(px)) }
}

/// `imageops::crop_imm` followed by `SubImage::to_image`, for a rectangle
/// inside the picture: a new picture holding just that rectangle.
#[verifier::external_body]
pub(crate) fn cropped(p: &Picture, x: u32, y: u32, w: u32, h: u32) -> (r: Picture)
    requires
        x + w <= dims(*p).0,
        y + h <= dims(*p).1,
    ensures
        dims(r) == (w, h),
        pixels(r) == cropped_spec(pixels(*p), dims(*p).0, x, y, w, h),
{
    Picture { img: image::imageops::crop_imm(&p.img, x, y, w, h).to_image() }
}

/// `imageops::resize`. At the picture's own size this is a plain copy of
/// its pixels. Otherwise a picture with pixels is first resampled to the
/// new height into a buffer of 32-bit floats, sixteen bytes a pixel, and
/// then to the new width; every buffer is sized and allocated as for
/// `from_pixel`. The `Triangle` result is named; of a `Lanczos3` one only
/// its size is stated.
#[verifier::external_body]
pub(crate) fn resized(p: &Picture, w: u32, h: u32, filter: Filter) -> (r: Picture)
    requires
        resize_fits(dims(*p), w, h),
    ensures
        dims(r) == (w, h),
        filter == Filter::Triangle ==> pixels(r) == resampled(pixels(*p), dims(*p), w, h),
        dims(*p) == (w, h) ==> pixels(r) == pixels(*p).take(area(w, h, 4)),
{
    let f = match filter {
        Filter::Triangle => image::imageops::FilterType::Triangle,
        Filter::Lanczos3 => image::imageops::FilterType::Lanczos3,
    };
    Picture { img: image::imageops::resize(&p.img, w, h, f) }
}

/// `imageops::overlay`: `top` composited over `bottom` with its top-left
/// corner at `(x, y)`, clipped to `bottom`, whose size does not change.
/// Pixel by pixel, over the part of `top`'s rectangle that lies on `bottom`,
/// it blends the top pixel over the bottom one in place, and `Rgba::blend`
/// hands back the top pixel itself when that is fully opaque. So every pixel
/// outside `top`'s rectangle is left alone, and every opaque pixel of `top`
/// that falls on `bottom` lands as it is.
#[verifier::external_body]
pub(crate) fn overlaid(bottom: &mut Picture, top: &Picture, x: i64, y: i64)
    ensures
        dims(*final(bottom)) == dims(*old(bottom)),
        pixels(*final(bottom)) == composited(
            pixels(*old(bottom)),
            dims(*old(bottom)),
            pixels(*top),
            dims(*top),
            x,
            y,
        ),
        pixels(*final(bottom)).len() == pixels(*old(bottom)).len(),
        ({
            let (bw, bh) = dims(*old(bottom));
            let (tw, th) = dims(*top);
            forall|px: int, py: int, c: int|
                0 <= px < bw && 0 <= py < bh && 0 <= c < 4 ==> {
                    let inside = within(px, py, x as int, y as int, tw as int, th as int);
                    &&& !inside ==> #[trigger] channel(pixels(*final(bottom)), bw, px, py, c)
                        == channel(pixels(*old(bottom)), bw, px, py, c)
                    &&& inside && channel(pixels(*top), tw, px - x, py - y, 3) == 255 ==> channel(
                        pixels(*final(bottom)),
                        bw,
                        px,
                        py,
                        c,
                    ) == channel(pixels(*top), tw, px - x, py - y, c)
                }
        }),
{
    image::imageops::overlay(&mut bottom.img, &top.img, x, y)
}

/// `Clone::clone` on a picture: the same size and bytes.
#[verifier::external_body]
pub(crate) fn copied(p: &Picture) -> (r: Picture)
    ensures
        dims(r) == dims(*p),
        pixels(r) == pixels(*p),
{
    Picture { img: p.img.clone() }
}

/// `ImageBuffer::from_raw` for an RGB picture whose bytes are exactly the
/// size it needs, sized in steps as for RGBA.
#[verifier::external_body]
pub(crate) fn rgb_from_bytes(w: u32, h: u32, bytes: Vec<u8>) -> (r: RgbPicture)
    requires
        area(w, 1, 3) <= usize::MAX,
        bytes@.len() == area(w, h, 3),
    ensures
        rgb_dims(r) == (w, h),
        rgb_pixels(r) == bytes@,
{
    RgbPicture { img: RgbImage::from_raw(w, h, bytes).unwrap() }
}

/// `ImageBuffer::into_raw` for an RGB picture.
#[verifier::external_body]
fn rgb_into_raw(p: RgbPicture) -> (r: Vec<u8>)
    ensures
        r@ == rgb_pixels(p),
{
    p.img.into_raw()
}

/// `ImageBuffer::dimensions` for an RGB picture.
#[verifier::external_body]
fn rgb_size(p: &RgbPicture) -> (r: (u32, u32))
    ensures
        r == rgb_dims(*p),
{
    p.img.dimensions()
}

impl Picture {
    /// A `w` by `h` picture from its raw RGBA bytes, row after row; `None`
    /// when there are too few bytes for that size, or a row's bytes overflow
    /// a `usize`.
    pub fn from_rgba(w: u32, h: u32, bytes: Vec<u8>) -> (r: Option<Picture>)
        ensures
            r is Some <==> area(w, 1, 4) <= usize::MAX && area(w, h, 4) <= bytes@.len(),
            r matches Some(p) ==> dims(p) == (w, h) && pixels(p) == bytes@,
    {
        let w2: u128 = w as u128;
        let h2: u128 = h as u128;
        assert(w2 * h2 <= 0x1_0000_0000_0000_0000int) by (nonlinear_arith)
            requires
                w2 < 0x1_0000_0000,
                h2 < 0x1_0000_0000,
        ;
        let need: u128 = 4 * (w2 * h2);
        assert(need == area(w, h, 4)) by (nonlinear_arith)
            requires
                need == 4 * (w2 * h2),
                w2 == w,
                h2 == h,
        ;
        if 4 * w2 > usize::MAX as u128 || need > bytes.len() as u128 {
            None
        } else {
            Some(picture_from_raw(w, h, bytes))
        }
    }

    /// Width and height. A row's bytes always fit a `usize`, and the whole
    /// picture's fit a `Vec`.
    pub fn size(&self) -> (r: (u32, u32))
        ensures
            r == dims(*self),
            area(r.0, 1, 4) <= usize::MAX,
            area(r.0, r.1, 4) <= isize::MAX,
    {
        picture_size(self)
    }

    /// The buffer holds exactly the picture's pixels, nothing after them;
    /// the encoders insist on that.
    pub fn exact(&self) -> (r: bool)
        ensures
            r == (pixels(*self).len() == area(dims(*self).0, dims(*self).1, 4)),
    {
        let (w, h) = picture_size(self);
        let len = raw_of(self).len();
        let w2: u128 = w as u128;
        let h2: u128 = h as u128;
        assert(w2 * h2 <= 0x1_0000_0000_0000_0000int) by (nonlinear_arith)
            requires
                w2 < 0x1_0000_0000,
                h2 < 0x1_0000_0000,
        ;
        let need: u128 = 4 * (w2 * h2);
        assert(need == area(w, h, 4)) by (nonlinear_arith)
            requires
                need == 4 * (w2 * h2),
                w2 == w,
                h2 == h,
        ;
        need == len as u128
    }

    /// The raw RGBA bytes, row after row.
    pub fn into_rgba(self) -> (r: Vec<u8>)
        ensures
            r@ == pixels(self),
    {
        picture_into_raw(self)
    }
}

impl RgbPicture {
    /// Width and height.
    pub fn size(&self) -> (r: (u32, u32))
        ensures
            r == rgb_dims(*self),
    {
        rgb_size(self)
    }

    /// The raw RGB bytes, row after row.
    pub fn into_rgb(self) -> (r: Vec<u8>)
        ensures
            r@ == rgb_pixels(self),
    {
        rgb_into_raw(self)
    }
}

} // verus!
