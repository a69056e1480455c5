//! Screenshot history: the last captures, kept on disk so they survive a
//! restart. Entries are named by their capture timestamp, which is also the
//! sort key, so there is no index file to get out of sync with the directory.
//!
//! Reading and writing the directory is the caller's; this module decides
//! the names, which files are entries, their order, what gets pruned and how
//! big a thumbnail is.

use vstd::prelude::*;

use crate::export::{join_spec, push_join};
use crate::picture::{dims, pixels, resampled, resize_fits, resized, Filter, Picture};
use crate::text::{
    all_digits, chars_of, dec, is_digit, lemma_dec_shape, lemma_parse_dec, parse_unsigned,
    parse_unsigned_chars, push_decimal, push_str, slice_of, string_of,
};

verus! {

/// How many captures are kept.
pub const MAX_ENTRIES: usize = 24;

/// The width of a thumbnail, in pixels.
pub const THUMB_W: u32 = 200;

/// One stored capture: its timestamp in milliseconds, the picture and its
/// thumbnail.
#[derive(Clone, Debug, PartialEq)]
pub struct Entry {
    pub ts: u64,
    pub image: String,
    pub thumb: String,
}

/// An entry as plain values: timestamp, picture path, thumbnail path.
pub open spec fn entry_view(e: Entry) -> (u64, Seq<char>, Seq<char>) {
    (e.ts, e.image@, e.thumb@)
}

pub open spec fn entry_views(es: Seq<Entry>) -> Seq<(u64, Seq<char>, Seq<char>)> {
    es.map_values(|e: Entry| entry_view(e))
}

/// The size a thumbnail is drawn at: [`THUMB_W`] wide with the aspect ratio
/// kept (the height rounded to the nearest pixel, halves up), never upscaled,
/// and never with a side of zero.
pub open spec fn thumb_size_spec(w: u32, h: u32) -> (u32, u32) {
    if w <= 200 {
        (if w < 1 { 1 } else { w }, if h < 1 { 1 } else { h })
    } else {
        let th = (400 * h + w) / (2 * w);
        (200, if th < 1 { 1 } else { th as u32 })
    }
}

pub fn thumb_size(w: u32, h: u32) -> (r: (u32, u32))
    ensures
        r == thumb_size_spec(w, h),
{
    if w <= THUMB_W {
        let tw = if w < 1 {
            1
        } else {
            w
        };
        let th = if h < 1 {
            1
        } else {
            h
        };
        return (tw, th);
    }
    let num: u64 = 400 * (h as u64) + (w as u64);
    let den: u64 = 2 * (w as u64);
    let q: u64 = num / den;
    proof {
        assert(q <= h) by (nonlinear_arith)
            requires
                q == num / den,
                num == 400 * h + w,
                den == 2 * w,
                w > 200,
        ;
    }
    let th: u32 = if q < 1 {
        1
    } else {
        q as u32
    };
    (THUMB_W, th)
}

/// The picture's file name for a capture taken at `ts`.
pub open spec fn image_name_spec(ts: nat) -> Seq<char> {
    dec(ts) + ".png"@
}

/// The thumbnail's file name for a capture taken at `ts`.
pub open spec fn thumb_name_spec(ts: nat) -> Seq<char> {
    dec(ts) + ".thumb.png"@
}

pub fn image_name(ts: u64) -> (r: String)
    ensures
        r@ == image_name_spec(ts as nat),
{
    let mut v: Vec<char> = Vec::new();
    push_decimal(&mut v, ts);
    push_str(&mut v, ".png");
    assert(v@ =~= image_name_spec(ts as nat));
    string_of(&v)
}

pub fn thumb_name(ts: u64) -> (r: String)
    ensures
        r@ == thumb_name_spec(ts as nat),
{
    let mut v: Vec<char> = Vec::new();
    push_decimal(&mut v, ts);
    push_str(&mut v, ".thumb.png");
    assert(v@ =~= thumb_name_spec(ts as nat));
    string_of(&v)
}

/// The timestamp a file name stands for: a number followed by `.png`.
/// Thumbnails (`<ts>.thumb.png`) and anything else are not entries.
pub open spec fn entry_ts_spec(name: Seq<char>) -> Option<u64> {
    if name.len() >= 4 && name.skip(name.len() - 4) == ".png"@ {
        match parse_unsigned(name.take(name.len() - 4), u64::MAX as nat) {
            Some(v) => Some(v as u64),
            None => None,
        }
    } else {
        None
    }
}

pub fn entry_ts(name: &str) -> (r: Option<u64>)
    ensures
        r == entry_ts_spec(name@),
{
    let v = chars_of(name);
    let n = v.len();
    proof {
        reveal_strlit(".png");
    }
    if n < 4 || v[n - 4] != '.' || v[n - 3] != 'p' || v[n - 2] != 'n' || v[n - 1] != 'g' {
        proof {
            if n >= 4 {
                assert(name@.skip(n - 4)[0] == v@[n - 4]);
                assert(name@.skip(n - 4)[1] == v@[n - 3]);
                assert(name@.skip(n - 4)[2] == v@[n - 2]);
                assert(name@.skip(n - 4)[3] == v@[n - 1]);
            }
        }
        return None;
    }
    assert(name@.skip(n - 4) =~= ".png"@);
    let stem = slice_of(&v, 0, n - 4);
    assert(stem@ =~= name@.take(n - 4));
    parse_unsigned_chars(&stem, u64::MAX)
}

/// The entries a directory listing holds, in listing order: every file
/// named `<ts>.png`, with its thumbnail `<ts>.thumb.png` beside it.
pub open spec fn listed(dir: Seq<char>, names: Seq<Seq<char>>) -> Seq<(u64, Seq<char>, Seq<char>)>
    decreases names.len(),
{
    if names.len() == 0 {
        Seq::empty()
    } else {
        let rest = listed(dir, names.drop_last());
        match entry_ts_spec(names.last()) {
            Some(ts) => rest.push(
                (ts, join_spec(dir, names.last()), join_spec(dir, thumb_name_spec(ts as nat))),
            ),
            None => rest,
        }
    }
}

/// Where entry `e` goes in a list already newest first: after every entry at
/// least as new, so entries of one instant keep their order.
pub open spec fn slot(sorted: Seq<(u64, Seq<char>, Seq<char>)>, e: (u64, Seq<char>, Seq<char>)) -> int
    decreases sorted.len(),
{
    if sorted.len() == 0 {
        0
    } else if sorted.last().0 >= e.0 {
        sorted.len() as int
    } else {
        slot(sorted.drop_last(), e)
    }
}

/// Newest first: a stable sort by timestamp, descending.
pub open spec fn newest_first(es: Seq<(u64, Seq<char>, Seq<char>)>) -> Seq<
    (u64, Seq<char>, Seq<char>),
>
    decreases es.len(),
{
    if es.len() == 0 {
        Seq::empty()
    } else {
        let sorted = newest_first(es.drop_last());
        sorted.insert(slot(sorted, es.last()), es.last())
    }
}

pub open spec fn string_views(v: Seq<String>) -> Seq<Seq<char>> {
    v.map_values(|s: String| s@)
}

/// Where entry `e` goes among `sorted`, found from the back.
fn find_slot(sorted: &Vec<Entry>, ts: u64) -> (r: usize)
    ensures
        forall|e: (u64, Seq<char>, Seq<char>)| e.0 == ts ==> r == slot(entry_views(sorted@), e),
        r <= sorted.len(),
{
    let ghost ws = entry_views(sorted@);
    let mut j: usize = sorted.len();
    assert(ws.take(j as int) =~= ws);
    while j > 0 && sorted[j - 1].ts < ts
        invariant
            j <= sorted.len(),
            ws == entry_views(sorted@),
            forall|e: (u64, Seq<char>, Seq<char>)| e.0 == ts ==> slot(ws, e) == slot(ws.take(j as int), e),
        decreases j,
    {
        proof {
            assert(ws.take(j as int).drop_last() =~= ws.take(j as int - 1));
        }
        j = j - 1;
    }
    proof {
        if j > 0 {
            assert(ws.take(j as int).last() == ws[j - 1]);
        } else {
            assert(ws.take(0) =~= Seq::<(u64, Seq<char>, Seq<char>)>::empty());
        }
    }
    j
}

/// The history held by a directory listing, newest first. `dir` is the
/// history directory and `names` the names of the files in it.
pub fn entries(dir: &str, names: &[String]) -> (r: Vec<Entry>)
    ensures
        entry_views(r@) == newest_first(listed(dir@, string_views(names@))),
{
    let mut sorted: Vec<Entry> = Vec::new();
    let mut i: usize = 0;
    proof {
        assert(string_views(names@).take(0) =~= Seq::<Seq<char>>::empty());
        assert(entry_views(sorted@) =~= Seq::<(u64, Seq<char>, Seq<char>)>::empty());
    }
    while i < names.len()
        invariant
            i <= names.len(),
            entry_views(sorted@) == newest_first(
                listed(dir@, string_views(names@).take(i as int)),
            ),
        decreases names.len() - i,
    {
        let ghost nv = string_views(names@);
        proof {
            assert(nv.take(i as int + 1).drop_last() =~= nv.take(i as int));
            assert(nv.take(i as int + 1).last() == names@[i as int]@);
        }
        let ghost before = listed(dir@, nv.take(i as int));
        match entry_ts(names[i].as_str()) {
            Some(ts) => {
                let mut image = chars_of(dir);
                push_join(&mut image, &chars_of(names[i].as_str()));
                let mut thumb = chars_of(dir);
                push_join(&mut thumb, &chars_of(thumb_name(ts).as_str()));
                let e = Entry { ts, image: string_of(&image), thumb: string_of(&thumb) };
                let ghost ev = entry_view(e);
                proof {
                    assert(before.push(ev).drop_last() =~= before);
                }
                let at = find_slot(&sorted, ts);
                let ghost old_sorted = sorted@;
                sorted.insert(at, e);
                proof {
                    assert(entry_views(sorted@) =~= entry_views(old_sorted).insert(at as int, ev));
                }
            },
            None => {},
        }
        i = i + 1;
    }
    proof {
        assert(string_views(names@).take(names.len() as int) =~= string_views(names@));
    }
    sorted
}

/// The entries past the first [`MAX_ENTRIES`] of a newest-first history: the
/// oldest, which pruning deletes.
pub fn stale(entries: Vec<Entry>) -> (r: Vec<Entry>)
    ensures
        r@ == (if entries@.len() > 24 {
            entries@.skip(24)
        } else {
            Seq::<Entry>::empty()
        }),
{
    let mut rest = entries;
    let ghost all = rest@;
    if rest.len() <= MAX_ENTRIES {
        return Vec::new();
    }
    let tail: Vec<Entry> = rest.split_off(MAX_ENTRIES);
    assert(tail@ =~= all.skip(24));
    tail
}

/// A capture's picture is read back as an entry with its own timestamp, and
/// its thumbnail is never taken for an entry of its own.
pub proof fn law_names_read_back(ts: u64)
    ensures
        entry_ts_spec(image_name_spec(ts as nat)) == Some(ts),
        entry_ts_spec(thumb_name_spec(ts as nat)) is None,
{
    reveal_strlit(".png");
    reveal_strlit(".thumb.png");
    let n = image_name_spec(ts as nat);
    let d = dec(ts as nat);
    assert(n.skip(n.len() - 4) =~= ".png"@);
    assert(n.take(n.len() - 4) =~= d);
    lemma_parse_dec(ts as nat, u64::MAX as nat);
    let t = thumb_name_spec(ts as nat);
    assert(t.skip(t.len() - 4) =~= ".png"@);
    let stem = t.take(t.len() - 4);
    lemma_dec_shape(ts as nat);
    assert(t[d.len() as int] == '.');
    assert(stem[d.len() as int] == '.');
    assert(!is_digit(stem[d.len() as int]));
    assert(!all_digits(stem));
    assert(stem.len() > 0 && stem[0] != '+');
}

/// `es` is newest first.
pub open spec fn is_newest_first(es: Seq<(u64, Seq<char>, Seq<char>)>) -> bool {
    forall|i: int, j: int| 0 <= i < j < es.len() ==> (#[trigger] es[i]).0 >= (#[trigger] es[j]).0
}

proof fn lemma_slot(sorted: Seq<(u64, Seq<char>, Seq<char>)>, e: (u64, Seq<char>, Seq<char>))
    requires
        is_newest_first(sorted),
    ensures
        0 <= slot(sorted, e) <= sorted.len(),
        forall|j: int| 0 <= j < slot(sorted, e) ==> (#[trigger] sorted[j]).0 >= e.0,
        forall|j: int| slot(sorted, e) <= j < sorted.len() ==> (#[trigger] sorted[j]).0 < e.0,
    decreases sorted.len(),
{
    if sorted.len() > 0 {
        let k = slot(sorted, e);
        if sorted.last().0 >= e.0 {
            assert forall|j: int| 0 <= j < k implies (#[trigger] sorted[j]).0 >= e.0 by {
                if j < sorted.len() - 1 {
                    assert(sorted[j].0 >= sorted[sorted.len() - 1].0);
                }
            }
        } else {
            let rest = sorted.drop_last();
            assert forall|i: int, j: int| 0 <= i < j < rest.len() implies (#[trigger] rest[i]).0
                >= (#[trigger] rest[j]).0 by {
                assert(rest[i] == sorted[i] && rest[j] == sorted[j]);
            }
            lemma_slot(rest, e);
            assert forall|j: int| k <= j < sorted.len() implies (#[trigger] sorted[j]).0 < e.0 by {
                if j < sorted.len() - 1 {
                    assert(sorted[j] == rest[j]);
                }
            }
            assert forall|j: int| 0 <= j < k implies (#[trigger] sorted[j]).0 >= e.0 by {
                assert(sorted[j] == rest[j]);
            }
        }
    }
}

/// The history is newest first, and ordering it neither loses nor invents
/// an entry.
pub proof fn law_newest_first_sorts(es: Seq<(u64, Seq<char>, Seq<char>)>)
    ensures
        is_newest_first(newest_first(es)),
        newest_first(es).to_multiset() == es.to_multiset(),
    decreases es.len(),
{
    broadcast use vstd::seq_lib::to_multiset_insert, vstd::seq_lib::to_multiset_build;

    if es.len() == 0 {
        assert(newest_first(es) =~= Seq::<(u64, Seq<char>, Seq<char>)>::empty());
        assert(es =~= Seq::<(u64, Seq<char>, Seq<char>)>::empty());
    } else {
        let rest = es.drop_last();
        let e = es.last();
        law_newest_first_sorts(rest);
        let sorted = newest_first(rest);
        lemma_slot(sorted, e);
        let k = slot(sorted, e);
        let r = sorted.insert(k, e);
        assert(r == newest_first(es));
        assert forall|i: int, j: int| 0 <= i < j < r.len() implies (#[trigger] r[i]).0 >= (
        #[trigger] r[j]).0 by {
            if j < k {
                assert(r[i] == sorted[i] && r[j] == sorted[j]);
            } else if j == k {
                assert(r[i] == sorted[i]);
            } else if i < k {
                assert(r[i] == sorted[i] && r[j] == sorted[j - 1]);
            } else if i == k {
                assert(r[j] == sorted[j - 1]);
            } else {
                assert(r[i] == sorted[i - 1] && r[j] == sorted[j - 1]);
            }
        }
        assert(es =~= rest.push(e));
    }
}

/// A capture shrunk to its thumbnail size, linearly filtered.
pub fn thumbnail(img: &Picture) -> (r: Picture)
    requires
        resize_fits(
            dims(*img),
            thumb_size_spec(dims(*img).0, dims(*img).1).0,
            thumb_size_spec(dims(*img).0, dims(*img).1).1,
        ),
    ensures
        ({
            let (tw, th) = thumb_size_spec(dims(*img).0, dims(*img).1);
            &&& dims(r) == (tw, th)
            &&& pixels(r) == resampled(pixels(*img), dims(*img), tw, th)
        }),
{
    let (w, h) = img.size();
    let (tw, th) = thumb_size(w, h);
    resized(img, tw, th, Filter::Triangle)
}

/// Thumbnails never upscale: a picture already narrow enough keeps its size,
/// and a wider one shrinks to [`THUMB_W`] with its height no taller than it
/// was.
pub proof fn law_thumbnails_never_upscale(w: u32, h: u32)
    requires
        w >= 1,
        h >= 1,
    ensures
        w <= 200 ==> thumb_size_spec(w, h) == (w, h),
        w > 200 ==> thumb_size_spec(w, h).0 == 200 && 1 <= thumb_size_spec(w, h).1 <= h,
{
    if w > 200 {
        let num = 400 * (h as int) + (w as int);
        let den = 2 * (w as int);
        assert((w as int) * (h as int) >= 200 * (h as int)) by (nonlinear_arith)
            requires
                w > 200,
                h >= 0,
        ;
        assert(den * (h + 1) == 2 * ((w as int) * (h as int)) + 2 * (w as int)) by (nonlinear_arith)
            requires
                den == 2 * w,
        ;
        assert(num / den <= h) by (nonlinear_arith)
            requires
                num < den * (h + 1),
                den > 0,
                num >= 0,
        ;
    }
}

} // verus!
