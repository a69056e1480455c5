//! Typing into a text label: one frame of keyboard and input-method events
//! applied to the label's text, its caret and the composition in flight.
//!
//! The caret is a UTF-8 byte offset, as `String` indexes it. Text is edited
//! by character, so a backspace removes all of `ệ` and never half of it, and
//! a stale caret that ended up inside a character is snapped back to the
//! character's start before anything is inserted.
//!
//! With an input method (Telex for Vietnamese, say) characters arrive as a
//! composition that is only written into the label when it is committed, and
//! while a composition is open the raw keys belong to the input method.

use vstd::prelude::*;
use vstd::string::StrSliceExecFns;
use vstd::utf8::*;

use crate::caret::{
    lemma_boundary_iff, lemma_encode_concat, lemma_ends_are_boundaries, lemma_scalar_len,
    lemma_utf8_len_full, lemma_utf8_len_mono, lemma_utf8_len_push, next_boundary, on_boundary,
    prev_boundary, utf8_len,
};
use crate::text::{chars_of, push_all, slice_of, string_of};

verus! {

/// The keys the label editor reacts to.
#[derive(Clone, Copy, PartialEq, Eq, Debug)]
pub enum EditKey {
    Enter,
    Escape,
    Backspace,
    Delete,
    ArrowLeft,
    ArrowRight,
    Home,
    End,
    /// Any other key: ignored by the editor.
    Other,
}

/// One input event, as far as a label cares.
#[derive(Clone, Debug)]
pub enum TextEvent {
    /// Typed text.
    Text(String),
    /// Text from the clipboard.
    Paste(String),
    /// The input method's composition so far; not yet part of the label.
    Preedit(String),
    /// The input method's finished text.
    Commit(String),
    /// The input method was switched on or off.
    ImeToggle,
    /// A key went down (`pressed`) or up; `command` is the platform's
    /// command modifier.
    Key { key: EditKey, pressed: bool, command: bool },
    /// Anything else.
    Other,
}

/// What a batch of events asked the label editor to do.
#[derive(Clone, Copy, PartialEq, Eq, Debug, Structural)]
pub enum TextAction {
    Continue,
    Finish,
    Cancel,
}

/// `b` is a character boundary of the UTF-8 encoding of `t`.
pub open spec fn bnd(t: Seq<char>, b: int) -> bool {
    is_char_boundary(encode_utf8(t), b)
}

/// A byte offset clamped to the end of the text.
pub open spec fn clamp_to(t: Seq<char>, c: int) -> int {
    if c <= utf8_len(t) {
        c
    } else {
        utf8_len(t) as int
    }
}

/// `r` is the last boundary before the (clamped) offset `c`, or the start.
pub open spec fn is_prev_stop(t: Seq<char>, c: int, r: int) -> bool {
    let m = clamp_to(t, c);
    &&& m <= 0 ==> r == 0
    &&& m > 0 ==> {
        &&& 0 <= r < m
        &&& bnd(t, r)
        &&& forall|k: int| r < k < m ==> !bnd(t, k)
    }
}

/// `r` is the first boundary after `c`, clamped to the end of the text.
pub open spec fn is_next_stop(t: Seq<char>, c: int, r: int) -> bool {
    let n = utf8_len(t) as int;
    let m = if c + 1 <= n {
        c + 1
    } else {
        n
    };
    &&& m <= r <= n
    &&& bnd(t, r)
    &&& forall|k: int| m <= k < r ==> !bnd(t, k)
}

/// Where a step left (or a backspace) lands from byte offset `c`.
pub open spec fn prev_stop(t: Seq<char>, c: int) -> int {
    choose|r: int| is_prev_stop(t, c, r)
}

/// Where a step right (or a forward delete) lands from byte offset `c`.
pub open spec fn next_stop(t: Seq<char>, c: int) -> int {
    choose|r: int| is_next_stop(t, c, r)
}

/// The number of characters before the boundary at byte offset `b`.
pub open spec fn char_at(t: Seq<char>, b: int) -> int {
    choose|k: int| 0 <= k <= t.len() && utf8_len(t.take(k)) == b
}

/// Where typed text goes: the caret, clamped to the text and, if it is stuck
/// inside a character, moved back to that character's start.
pub open spec fn insert_point(t: Seq<char>, c: int) -> int {
    let at = clamp_to(t, c);
    if bnd(t, at) {
        at
    } else {
        prev_stop(t, at)
    }
}

/// The text and caret after inserting `s` at the caret `c`.
pub open spec fn inserted(t: Seq<char>, c: int, s: Seq<char>) -> (Seq<char>, int) {
    let at = insert_point(t, c);
    let k = char_at(t, at);
    (t.take(k) + s + t.skip(k), at + utf8_len(s))
}

/// A pasted block on one line: every line break becomes a space, since a
/// label is drawn as a single line.
pub open spec fn one_line(s: Seq<char>) -> Seq<char> {
    s.map_values(|ch: char| if ch == '\n' || ch == '\r' { ' ' } else { ch })
}

/// The bytes from `a` to `b` taken out of `t`, both being boundaries.
pub open spec fn cut(t: Seq<char>, a: int, b: int) -> Seq<char> {
    t.take(char_at(t, a)) + t.skip(char_at(t, b))
}

/// One key press, with no composition open.
pub open spec fn key_step(t: Seq<char>, c: int, key: EditKey, command: bool) -> (
    Seq<char>,
    int,
    Option<TextAction>,
) {
    let n = utf8_len(t) as int;
    match key {
        EditKey::Enter => (t, c, Some(TextAction::Finish)),
        EditKey::Escape => (t, c, Some(TextAction::Cancel)),
        EditKey::Backspace => if c > 0 {
            (cut(t, prev_stop(t, c), c), prev_stop(t, c), None)
        } else {
            (t, c, None)
        },
        EditKey::Delete => if c < n {
            (cut(t, c, next_stop(t, c)), c, None)
        } else {
            (t, c, None)
        },
        EditKey::ArrowLeft => (t, if command { 0 } else { prev_stop(t, c) }, None),
        EditKey::ArrowRight => (t, if command { n } else { next_stop(t, c) }, None),
        EditKey::Home => (t, 0, None),
        EditKey::End => (t, n, None),
        EditKey::Other => (t, c, None),
    }
}

/// One event applied to text `t`, caret `c` and composition `p`; the action
/// is `Some` when the event ends the batch.
pub open spec fn step(t: Seq<char>, c: int, p: Seq<char>, e: TextEvent) -> (
    Seq<char>,
    int,
    Seq<char>,
    Option<TextAction>,
) {
    match e {
        TextEvent::Text(s) => (inserted(t, c, s@).0, inserted(t, c, s@).1, p, None),
        TextEvent::Paste(s) => (
            inserted(t, c, one_line(s@)).0,
            inserted(t, c, one_line(s@)).1,
            p,
            None,
        ),
        TextEvent::Preedit(s) => (t, c, s@, None),
        TextEvent::Commit(s) => (
            inserted(t, c, s@).0,
            inserted(t, c, s@).1,
            Seq::<char>::empty(),
            None,
        ),
        TextEvent::ImeToggle => (t, c, Seq::<char>::empty(), None),
        TextEvent::Key { key, pressed, command } => if pressed && p.len() == 0 {
            let (t2, c2, a) = key_step(t, c, key, command);
            (t2, c2, p, a)
        } else {
            (t, c, p, None)
        },
        TextEvent::Other => (t, c, p, None),
    }
}

/// A whole batch: events in order until one finishes or cancels the edit.
pub open spec fn run(t: Seq<char>, c: int, p: Seq<char>, es: Seq<TextEvent>) -> (
    Seq<char>,
    int,
    Seq<char>,
    TextAction,
)
    decreases es.len(),
{
    if es.len() == 0 {
        (t, c, p, TextAction::Continue)
    } else {
        let (t1, c1, p1, a) = step(t, c, p, es[0]);
        match a {
            Some(action) => (t1, c1, p1, action),
            None => run(t1, c1, p1, es.drop_first()),
        }
    }
}

/// The bytes an event inserts, if any.
pub open spec fn inserted_len(e: TextEvent) -> nat {
    match e {
        TextEvent::Text(s) => utf8_len(s@),
        TextEvent::Paste(s) => utf8_len(one_line(s@)),
        TextEvent::Commit(s) => utf8_len(s@),
        _ => 0,
    }
}

/// One event can be applied without the editor giving up: a deletion only
/// ever starts on a character boundary, and the text stays addressable.
pub open spec fn step_ok(t: Seq<char>, c: int, p: Seq<char>, e: TextEvent) -> bool {
    let n = utf8_len(t) as int;
    &&& 0 <= c <= usize::MAX
    &&& n + inserted_len(e) <= usize::MAX
    &&& match e {
        TextEvent::Key { key, pressed, command } => pressed && p.len() == 0 ==> key_ok(
            t,
            c,
            key,
            command,
        ),
        _ => true,
    }
}

/// A key press that can be applied: a deletion starts on a boundary, and a
/// step right has somewhere to count to.
pub open spec fn key_ok(t: Seq<char>, c: int, key: EditKey, command: bool) -> bool {
    let n = utf8_len(t) as int;
    match key {
        EditKey::Backspace => c > 0 ==> c <= n && bnd(t, c),
        EditKey::Delete => c < n ==> bnd(t, c),
        EditKey::ArrowRight => !command ==> c < usize::MAX,
        _ => true,
    }
}

/// Every event of a batch can be applied, each to the state the ones before
/// it left.
pub open spec fn run_ok(t: Seq<char>, c: int, p: Seq<char>, es: Seq<TextEvent>) -> bool
    decreases es.len(),
{
    if es.len() == 0 {
        true
    } else {
        let (t1, c1, p1, a) = step(t, c, p, es[0]);
        step_ok(t, c, p, es[0]) && (a is None ==> run_ok(t1, c1, p1, es.drop_first()))
    }
}

// ------------------------------------------------------------ facts

/// Prefix byte lengths are strictly increasing, so a boundary names one
/// character count.
pub proof fn lemma_char_at(t: Seq<char>, k: int)
    requires
        0 <= k <= t.len(),
    ensures
        char_at(t, utf8_len(t.take(k)) as int) == k,
{
    let b = utf8_len(t.take(k)) as int;
    assert(0 <= k <= t.len() && utf8_len(t.take(k)) == b);
    let j = char_at(t, b);
    if j < k {
        lemma_utf8_len_mono(t, j, k);
    } else if j > k {
        lemma_utf8_len_mono(t, k, j);
    }
}

/// The boundary a byte offset is on, as a character count.
pub proof fn lemma_bnd_char(t: Seq<char>, b: int)
    requires
        bnd(t, b),
    ensures
        0 <= char_at(t, b) <= t.len(),
        utf8_len(t.take(char_at(t, b))) == b,
{
    lemma_boundary_iff(t, b);
    let k = choose|k: int| 0 <= k <= t.len() && b == utf8_len(t.take(k));
    lemma_char_at(t, k);
}

/// A character count names a boundary.
pub proof fn lemma_char_bnd(t: Seq<char>, k: int)
    requires
        0 <= k <= t.len(),
    ensures
        bnd(t, utf8_len(t.take(k)) as int),
{
    lemma_boundary_iff(t, utf8_len(t.take(k)) as int);
}

/// Only one offset is the last boundary before `c`.
pub proof fn lemma_prev_stop_unique(t: Seq<char>, c: int, r: int)
    requires
        is_prev_stop(t, c, r),
    ensures
        prev_stop(t, c) == r,
{
    let q = prev_stop(t, c);
    assert(is_prev_stop(t, c, q));
    if clamp_to(t, c) > 0 {
        if q < r {
            assert(!bnd(t, r));
        }
        if r < q {
            assert(!bnd(t, q));
        }
    }
}

/// Only one offset is the first boundary after `c`.
pub proof fn lemma_next_stop_unique(t: Seq<char>, c: int, r: int)
    requires
        is_next_stop(t, c, r),
    ensures
        next_stop(t, c) == r,
{
    let q = next_stop(t, c);
    assert(is_next_stop(t, c, q));
    if q < r {
        assert(!bnd(t, q));
    }
    if r < q {
        assert(!bnd(t, r));
    }
}

/// The last boundary before the end of the `k`-th character is its start.
pub proof fn lemma_prev_of_char(t: Seq<char>, k: int)
    requires
        0 < k <= t.len(),
    ensures
        prev_stop(t, utf8_len(t.take(k)) as int) == utf8_len(t.take(k - 1)),
{
    let b = utf8_len(t.take(k)) as int;
    let a = utf8_len(t.take(k - 1)) as int;
    lemma_utf8_len_mono(t, k - 1, k);
    lemma_utf8_len_mono(t, k, t.len() as int);
    lemma_utf8_len_full(t);
    lemma_char_bnd(t, k - 1);
    assert forall|x: int| a < x < b implies !bnd(t, x) by {
        if bnd(t, x) {
            lemma_bnd_char(t, x);
            let j = char_at(t, x);
            if j <= k - 1 {
                lemma_utf8_len_mono(t, j, k - 1);
            } else {
                lemma_utf8_len_mono(t, k, j);
            }
        }
    }
    assert(is_prev_stop(t, b, a));
    lemma_prev_stop_unique(t, b, a);
}

/// The first boundary after the start of the `k`-th character is its end.
pub proof fn lemma_next_of_char(t: Seq<char>, k: int)
    requires
        0 <= k < t.len(),
    ensures
        next_stop(t, utf8_len(t.take(k)) as int) == utf8_len(t.take(k + 1)),
{
    let a = utf8_len(t.take(k)) as int;
    let b = utf8_len(t.take(k + 1)) as int;
    lemma_utf8_len_mono(t, k, k + 1);
    lemma_utf8_len_mono(t, k + 1, t.len() as int);
    lemma_utf8_len_full(t);
    lemma_char_bnd(t, k + 1);
    assert forall|x: int| a + 1 <= x < b implies !bnd(t, x) by {
        if bnd(t, x) {
            lemma_bnd_char(t, x);
            let j = char_at(t, x);
            if j <= k {
                lemma_utf8_len_mono(t, j, k);
            } else {
                lemma_utf8_len_mono(t, k + 1, j);
            }
        }
    }
    assert(is_next_stop(t, a, b));
    lemma_next_stop_unique(t, a, b);
}

// ------------------------------------------------------------ executable

/// The number of bytes `c` takes in UTF-8.
pub fn utf8_width(c: char) -> (r: usize)
    ensures
        r == encode_scalar(c as u32).len(),
        1 <= r <= 4,
{
    proof {
        char_is_scalar(c);
    }
    let u = c as u32;
    if u <= 0x7F {
        1
    } else if u <= 0x7FF {
        2
    } else if u <= 0xFFFF {
        3
    } else {
        4
    }
}

/// The number of characters before the boundary at byte offset `b`.
fn char_index(v: &[char], b: usize) -> (k: usize)
    requires
        on_boundary(v@, b as int),
    ensures
        k <= v.len(),
        utf8_len(v@.take(k as int)) == b,
{
    let ghost kb = choose|k: int| 0 <= k <= v@.len() && b == utf8_len(v@.take(k));
    proof {
        assert(v@.take(0) =~= Seq::<char>::empty());
    }
    let mut i: usize = 0;
    let mut sum: usize = 0;
    while sum < b
        invariant
            0 <= kb <= v@.len(),
            b == utf8_len(v@.take(kb)),
            i <= kb,
            sum == utf8_len(v@.take(i as int)),
        decreases b - sum,
    {
        proof {
            if kb == i {
                assert(false);
            }
            lemma_utf8_len_mono(v@, i as int, kb);
            lemma_utf8_len_mono(v@, i as int + 1, kb);
            assert(v@.take(i as int + 1) =~= v@.take(i as int).push(v@[i as int]));
            lemma_utf8_len_push(v@.take(i as int), v@[i as int]);
        }
        let w = utf8_width(v[i]);
        sum = sum + w;
        i = i + 1;
    }
    proof {
        lemma_utf8_len_mono(v@, i as int, kb);
    }
    i
}

/// The number of bytes `v` takes in UTF-8.
fn byte_len(v: &[char]) -> (r: usize)
    requires
        utf8_len(v@) <= usize::MAX,
    ensures
        r == utf8_len(v@),
{
    proof {
        assert(v@.take(0) =~= Seq::<char>::empty());
    }
    let mut i: usize = 0;
    let mut sum: usize = 0;
    while i < v.len()
        invariant
            i <= v.len(),
            utf8_len(v@) <= usize::MAX,
            sum == utf8_len(v@.take(i as int)),
        decreases v.len() - i,
    {
        proof {
            assert(v@.take(i as int + 1) =~= v@.take(i as int).push(v@[i as int]));
            lemma_utf8_len_push(v@.take(i as int), v@[i as int]);
            lemma_utf8_len_mono(v@, i as int + 1, v@.len() as int);
            lemma_utf8_len_full(v@);
        }
        let w = utf8_width(v[i]);
        sum = sum + w;
        i = i + 1;
    }
    proof {
        lemma_utf8_len_full(v@);
    }
    sum
}

/// The characters of `t` with the bytes from boundary `a` to boundary `b`
/// replaced by `s`.
fn splice(v: &[char], a: usize, b: usize, s: &[char]) -> (r: String)
    requires
        on_boundary(v@, a as int),
        on_boundary(v@, b as int),
        a <= b,
    ensures
        r@ == v@.take(char_at(v@, a as int)) + s@ + v@.skip(char_at(v@, b as int)),
{
    let ka = char_index(v, a);
    let kb = char_index(v, b);
    proof {
        lemma_char_at(v@, ka as int);
        lemma_char_at(v@, kb as int);
        if kb < ka {
            lemma_utf8_len_mono(v@, kb as int, ka as int);
        }
    }
    let mut w = slice_of(v, 0, ka);
    push_all(&mut w, s);
    let tail = slice_of(v, kb, v.len());
    push_all(&mut w, &tail);
    proof {
        assert(v@.subrange(0, ka as int) =~= v@.take(ka as int));
        assert(v@.subrange(kb as int, v@.len() as int) =~= v@.skip(kb as int));
    }
    string_of(&w)
}

/// Insert `s` at the caret, moving the caret past it.
fn insert_text(text: &mut String, caret: &mut usize, s: &[char])
    requires
        utf8_len(old(text)@) + utf8_len(s@) <= usize::MAX,
    ensures
        final(text)@ == inserted(old(text)@, *old(caret) as int, s@).0,
        *final(caret) == inserted(old(text)@, *old(caret) as int, s@).1,
{
    let ghost t = text@;
    proof {
        lemma_ends_are_boundaries(t);
    }
    let n = text.as_str().as_bytes().len();
    let at0 = if *caret <= n {
        *caret
    } else {
        n
    };
    let at = if text.as_str().is_char_boundary(at0) {
        at0
    } else {
        let r = prev_boundary(text.as_str(), at0);
        proof {
            lemma_prev_stop_unique(t, at0 as int, r as int);
        }
        r
    };
    proof {
        assert(at as int == insert_point(t, *caret as int));
        lemma_boundary_iff(t, at as int);
    }
    let v = chars_of(text.as_str());
    let len = byte_len(s);
    *text = splice(&v, at, at, s);
    *caret = at + len;
}

/// Take out the bytes from boundary `a` to boundary `b`.
fn cut_text(text: &mut String, a: usize, b: usize)
    requires
        bnd(old(text)@, a as int),
        bnd(old(text)@, b as int),
        a <= b,
    ensures
        final(text)@ == cut(old(text)@, a as int, b as int),
{
    proof {
        lemma_boundary_iff(text@, a as int);
        lemma_boundary_iff(text@, b as int);
    }
    let v = chars_of(text.as_str());
    let empty: Vec<char> = Vec::new();
    let r = splice(&v, a, b, &empty);
    proof {
        assert(v@.take(char_at(v@, a as int)) + empty@ =~= v@.take(char_at(v@, a as int)));
    }
    *text = r;
}

/// A pasted block with every line break turned into a space.
fn one_line_chars(s: &str) -> (r: Vec<char>)
    ensures
        r@ == one_line(s@),
{
    let v = chars_of(s);
    let mut r: Vec<char> = Vec::new();
    let mut i: usize = 0;
    while i < v.len()
        invariant
            i <= v.len(),
            v@ == s@,
            r@ == one_line(s@.take(i as int)),
        decreases v.len() - i,
    {
        let c = v[i];
        if c == '\n' || c == '\r' {
            r.push(' ');
        } else {
            r.push(c);
        }
        i = i + 1;
        assert(r@ =~= one_line(s@.take(i as int)));
    }
    assert(s@.take(v.len() as int) =~= s@);
    r
}

/// One key press with no composition open.
fn apply_key(text: &mut String, caret: &mut usize, key: EditKey, command: bool) -> (r: Option<
    TextAction,
>)
    requires
        key_ok(old(text)@, *old(caret) as int, key, command),
    ensures
        ({
            let (t, c, a) = key_step(old(text)@, *old(caret) as int, key, command);
            final(text)@ == t && *final(caret) == c && r == a
        }),
{
    let ghost t = text@;
    proof {
        lemma_ends_are_boundaries(t);
    }
    let n = text.as_str().as_bytes().len();
    match key {
        EditKey::Enter => Some(TextAction::Finish),
        EditKey::Escape => Some(TextAction::Cancel),
        EditKey::Backspace => {
            if *caret > 0 {
                let from = prev_boundary(text.as_str(), *caret);
                proof {
                    lemma_prev_stop_unique(t, *caret as int, from as int);
                }
                cut_text(text, from, *caret);
                *caret = from;
            }
            None
        },
        EditKey::Delete => {
            if *caret < n {
                let to = next_boundary(text.as_str(), *caret);
                proof {
                    lemma_next_stop_unique(t, *caret as int, to as int);
                }
                cut_text(text, *caret, to);
            }
            None
        },
        EditKey::ArrowLeft => {
            if command {
                *caret = 0;
            } else {
                let r = prev_boundary(text.as_str(), *caret);
                proof {
                    lemma_prev_stop_unique(t, *caret as int, r as int);
                }
                *caret = r;
            }
            None
        },
        EditKey::ArrowRight => {
            if command {
                *caret = n;
            } else {
                let r = next_boundary(text.as_str(), *caret);
                proof {
                    lemma_next_stop_unique(t, *caret as int, r as int);
                }
                *caret = r;
            }
            None
        },
        EditKey::Home => {
            *caret = 0;
            None
        },
        EditKey::End => {
            *caret = n;
            None
        },
        EditKey::Other => None,
    }
}

/// Apply one frame of input events to a label: its text, its caret (a byte
/// offset) and the input method's composition in flight.
///
/// Typed, pasted and committed text goes in at the caret; a paste is put on
/// one line. While a composition is open the keys belong to the input method
/// and are ignored here. Enter finishes the edit and Escape cancels it; the
/// events after either are left unread.
pub fn apply_text_events(
    text: &mut String,
    caret: &mut usize,
    preedit: &mut String,
    events: &[TextEvent],
) -> (r: TextAction)
    requires
        run_ok(old(text)@, *old(caret) as int, old(preedit)@, events@),
    ensures
        ({
            let (t, c, p, a) = run(old(text)@, *old(caret) as int, old(preedit)@, events@);
            &&& final(text)@ == t
            &&& *final(caret) == c
            &&& final(preedit)@ == p
            &&& r == a
        }),
{
    let ghost t0 = text@;
    let ghost c0 = *caret as int;
    let ghost p0 = preedit@;
    let mut i: usize = 0;
    let mut done: Option<TextAction> = None;
    assert(events@.skip(0) =~= events@);
    while i < events.len() && done.is_none()
        invariant
            i <= events.len(),
            done is None ==> run(t0, c0, p0, events@) == run(
                text@,
                *caret as int,
                preedit@,
                events@.skip(i as int),
            ),
            done is None ==> run_ok(text@, *caret as int, preedit@, events@.skip(i as int)),
            done matches Some(a) ==> run(t0, c0, p0, events@) == (
                text@,
                *caret as int,
                preedit@,
                a,
            ),
        decreases events.len() - i,
    {
        let ghost es = events@.skip(i as int);
        proof {
            assert(es[0] == events@[i as int]);
            assert(es.drop_first() =~= events@.skip(i as int + 1));
        }
        let ghost before = (text@, *caret as int, preedit@);
        let mut action: Option<TextAction> = None;
        match &events[i] {
            TextEvent::Text(s) => {
                let v = chars_of(s.as_str());
                insert_text(text, caret, &v);
            },
            TextEvent::Paste(s) => {
                let v = one_line_chars(s.as_str());
                insert_text(text, caret, &v);
            },
            TextEvent::Preedit(s) => {
                *preedit = s.clone();
            },
            TextEvent::Commit(s) => {
                *preedit = String::new();
                let v = chars_of(s.as_str());
                insert_text(text, caret, &v);
            },
            TextEvent::ImeToggle => {
                *preedit = String::new();
            },
            TextEvent::Key { key, pressed, command } => {
                if *pressed && preedit.as_str().unicode_len() == 0 {
                    action = apply_key(text, caret, *key, *command);
                }
            },
            TextEvent::Other => {},
        }
        proof {
            let (t1, c1, p1, a1) = step(before.0, before.1, before.2, es[0]);
            assert(text@ == t1 && *caret as int == c1 && preedit@ == p1 && action == a1);
            assert(es.len() > 0);
            match a1 {
                Some(x) => {
                    assert(run(before.0, before.1, before.2, es) == (t1, c1, p1, x));
                },
                None => {
                    assert(run(before.0, before.1, before.2, es) == run(t1, c1, p1, es.drop_first()));
                    assert(run_ok(t1, c1, p1, es.drop_first()));
                },
            }
        }
        done = action;
        i = i + 1;
    }
    match done {
        Some(a) => a,
        None => {
            proof {
                assert(events@.skip(i as int) =~= Seq::<TextEvent>::empty());
            }
            TextAction::Continue
        },
    }
}

// ------------------------------------------------------------ laws

/// A prefix of a spliced text is the prefix of the original.
proof fn lemma_splice_prefix(t: Seq<char>, k: int, s: Seq<char>, j: int)
    requires
        0 <= k <= j <= t.len(),
    ensures
        ({
            let t1 = t.take(k) + s + t.skip(j);
            &&& t1.take(k) == t.take(k)
            &&& utf8_len(t1.take(k + s.len())) == utf8_len(t.take(k)) + utf8_len(s)
            &&& 0 <= k + s.len() <= t1.len()
        }),
{
    let t1 = t.take(k) + s + t.skip(j);
    assert(t1.take(k) =~= t.take(k));
    assert(t1.take(k + s.len()) =~= t.take(k) + s);
    lemma_encode_concat(t.take(k), s);
}

/// Cutting whole characters from boundary to boundary.
proof fn lemma_cut_chars(t: Seq<char>, i: int, j: int)
    requires
        0 <= i <= j <= t.len(),
    ensures
        cut(t, utf8_len(t.take(i)) as int, utf8_len(t.take(j)) as int) == t.take(i) + t.skip(j),
{
    lemma_char_at(t, i);
    lemma_char_at(t, j);
}

/// From a caret on the boundary after `k` characters, every key moves the
/// caret, or edits the text, by whole characters: a backspace removes the
/// character before the caret, a delete the one after it, and the arrows
/// step over exactly one character.
pub proof fn law_keys_move_by_characters(t: Seq<char>, k: int, key: EditKey, command: bool)
    requires
        0 <= k <= t.len(),
    ensures
        ({
            let c = utf8_len(t.take(k)) as int;
            let n = utf8_len(t) as int;
            let (t2, c2, a) = key_step(t, c, key, command);
            match key {
                EditKey::Backspace => if k > 0 {
                    t2 == t.remove(k - 1) && c2 == utf8_len(t.take(k - 1))
                } else {
                    t2 == t && c2 == c
                },
                EditKey::Delete => if k < t.len() {
                    t2 == t.remove(k) && c2 == c
                } else {
                    t2 == t && c2 == c
                },
                EditKey::ArrowLeft => t2 == t && c2 == (if command || k == 0 {
                    0
                } else {
                    utf8_len(t.take(k - 1)) as int
                }),
                EditKey::ArrowRight => t2 == t && c2 == (if command || k == t.len() {
                    n
                } else {
                    utf8_len(t.take(k + 1)) as int
                }),
                EditKey::Home => t2 == t && c2 == 0,
                EditKey::End => t2 == t && c2 == n,
                _ => t2 == t && c2 == c,
            }
        }),
{
    let c = utf8_len(t.take(k)) as int;
    let n = utf8_len(t) as int;
    lemma_utf8_len_full(t);
    lemma_utf8_len_mono(t, k, t.len() as int);
    lemma_ends_are_boundaries(t);
    assert(t.take(0) =~= Seq::<char>::empty());
    assert(utf8_len(Seq::<char>::empty()) == 0);
    if k == 0 {
        assert(is_prev_stop(t, c, 0));
        lemma_prev_stop_unique(t, c, 0);
    }
    if k == t.len() {
        assert(is_next_stop(t, c, n));
        lemma_next_stop_unique(t, c, n);
    }
    if k > 0 {
        lemma_prev_of_char(t, k);
        lemma_cut_chars(t, k - 1, k);
        assert(t.take(k - 1) + t.skip(k) =~= t.remove(k - 1));
    }
    if k < t.len() {
        lemma_next_of_char(t, k);
        lemma_cut_chars(t, k, k + 1);
        assert(t.take(k) + t.skip(k + 1) =~= t.remove(k));
        lemma_utf8_len_mono(t, k, k + 1);
    }
}

/// Typed text goes in at a caret that is on a boundary, and the caret ends
/// up right after it.
pub proof fn law_typing_goes_in_at_the_caret(t: Seq<char>, k: int, s: Seq<char>)
    requires
        0 <= k <= t.len(),
    ensures
        inserted(t, utf8_len(t.take(k)) as int, s) == (
            t.take(k) + s + t.skip(k),
            utf8_len((t.take(k) + s)) as int,
        ),
{
    let c = utf8_len(t.take(k)) as int;
    lemma_utf8_len_full(t);
    lemma_utf8_len_mono(t, k, t.len() as int);
    lemma_char_bnd(t, k);
    lemma_char_at(t, k);
    lemma_encode_concat(t.take(k), s);
}

/// After typing at a boundary, the caret is on a boundary of the new text.
proof fn lemma_typed_caret_on_boundary(t: Seq<char>, k: int, s: Seq<char>)
    requires
        0 <= k <= t.len(),
    ensures
        bnd(
            inserted(t, utf8_len(t.take(k)) as int, s).0,
            inserted(t, utf8_len(t.take(k)) as int, s).1,
        ),
{
    law_typing_goes_in_at_the_caret(t, k, s);
    let t1 = t.take(k) + s + t.skip(k);
    assert(t1.take(k + s.len()) =~= t.take(k) + s);
    lemma_char_bnd(t1, k + s.len());
}

/// The caret only ever lands on character boundaries: from a caret on a
/// boundary, every event leaves the caret on a boundary of the new text.
pub proof fn law_caret_stays_on_boundary(t: Seq<char>, c: int, p: Seq<char>, e: TextEvent)
    requires
        bnd(t, c),
    ensures
        bnd(step(t, c, p, e).0, step(t, c, p, e).1),
{
    lemma_bnd_char(t, c);
    let k = char_at(t, c);
    match e {
        TextEvent::Text(s) => {
            lemma_typed_caret_on_boundary(t, k, s@);
        },
        TextEvent::Paste(s) => {
            lemma_typed_caret_on_boundary(t, k, one_line(s@));
        },
        TextEvent::Commit(s) => {
            lemma_typed_caret_on_boundary(t, k, s@);
        },
        TextEvent::Key { key, pressed, command } => {
            if pressed && p.len() == 0 {
                law_keys_move_by_characters(t, k, key, command);
                lemma_ends_are_boundaries(t);
                lemma_utf8_len_full(t);
                if k > 0 {
                    lemma_char_bnd(t, k - 1);
                    let t2 = t.remove(k - 1);
                    assert(t2.take(k - 1) =~= t.take(k - 1));
                    lemma_char_bnd(t2, k - 1);
                }
                if k < t.len() {
                    lemma_char_bnd(t, k + 1);
                    let t2 = t.remove(k);
                    assert(t2.take(k) =~= t.take(k));
                    lemma_char_bnd(t2, k);
                }
            }
        },
        _ => {},
    }
}

/// Typing one character and then pressing backspace gives back the text and
/// the caret as they were.
pub proof fn law_backspace_undoes_a_typed_character(t: Seq<char>, k: int, s: String)
    requires
        0 <= k <= t.len(),
        s@.len() == 1,
    ensures
        ({
            let c = utf8_len(t.take(k)) as int;
            let (t1, c1, p1, a1) = step(t, c, Seq::<char>::empty(), TextEvent::Text(s));
            &&& a1 is None
            &&& p1.len() == 0
            &&& key_step(t1, c1, EditKey::Backspace, false) == (t, c, None::<TextAction>)
        }),
{
    let c = utf8_len(t.take(k)) as int;
    law_typing_goes_in_at_the_caret(t, k, s@);
    let t1 = t.take(k) + s@ + t.skip(k);
    lemma_splice_prefix(t, k, s@, k);
    assert(t1.take(k + 1) =~= t.take(k) + s@);
    law_keys_move_by_characters(t1, k + 1, EditKey::Backspace, false);
    assert(t1.remove(k) =~= t);
}

/// The bytes a batch inserts, all told.
pub open spec fn total_inserted(es: Seq<TextEvent>) -> nat
    decreases es.len(),
{
    if es.len() == 0 {
        0
    } else {
        inserted_len(es[0]) + total_inserted(es.drop_first())
    }
}

/// Removing a character never lengthens the text.
proof fn lemma_remove_len(t: Seq<char>, j: int)
    requires
        0 <= j < t.len(),
    ensures
        utf8_len(t.remove(j)) <= utf8_len(t),
{
    assert(t =~= t.take(j) + (seq![t[j]] + t.skip(j + 1)));
    assert(t.remove(j) =~= t.take(j) + t.skip(j + 1));
    lemma_encode_concat(t.take(j), seq![t[j]] + t.skip(j + 1));
    lemma_encode_concat(seq![t[j]], t.skip(j + 1));
    lemma_encode_concat(t.take(j), t.skip(j + 1));
}

/// An event lengthens the text by at most what it inserts.
proof fn lemma_step_len(t: Seq<char>, c: int, p: Seq<char>, e: TextEvent)
    requires
        bnd(t, c),
    ensures
        utf8_len(step(t, c, p, e).0) <= utf8_len(t) + inserted_len(e),
{
    lemma_bnd_char(t, c);
    let k = char_at(t, c);
    let grow = |s: Seq<char>|
        inserted(t, c, s).0 == t.take(k) + s + t.skip(k) && utf8_len(t.take(k) + s + t.skip(k))
            == utf8_len(t) + utf8_len(s);
    assert forall|s: Seq<char>| #[trigger] grow(s) by {
        law_typing_goes_in_at_the_caret(t, k, s);
        lemma_encode_concat(t.take(k) + s, t.skip(k));
        lemma_encode_concat(t.take(k), s);
        lemma_encode_concat(t.take(k), t.skip(k));
        assert(t.take(k) + t.skip(k) =~= t);
    }
    match e {
        TextEvent::Text(s) => {
            assert(grow(s@));
        },
        TextEvent::Paste(s) => {
            assert(grow(one_line(s@)));
        },
        TextEvent::Commit(s) => {
            assert(grow(s@));
        },
        TextEvent::Key { key, pressed, command } => {
            if pressed && p.len() == 0 {
                law_keys_move_by_characters(t, k, key, command);
                if k > 0 {
                    lemma_remove_len(t, k - 1);
                }
                if k < t.len() {
                    lemma_remove_len(t, k);
                }
            }
        },
        _ => {},
    }
}

/// A caret on a boundary is never a reason to refuse an edit: from such a
/// caret every batch applies in full, as long as the text stays addressable.
pub proof fn law_edits_from_a_boundary_always_apply(
    t: Seq<char>,
    c: int,
    p: Seq<char>,
    es: Seq<TextEvent>,
)
    requires
        bnd(t, c),
        utf8_len(t) + total_inserted(es) < usize::MAX,
    ensures
        run_ok(t, c, p, es),
    decreases es.len(),
{
    if es.len() > 0 {
        let e = es[0];
        lemma_bnd_char(t, c);
        lemma_utf8_len_mono(t, char_at(t, c), t.len() as int);
        lemma_utf8_len_full(t);
        let (t1, c1, p1, a) = step(t, c, p, e);
        law_caret_stays_on_boundary(t, c, p, e);
        lemma_step_len(t, c, p, e);
        law_edits_from_a_boundary_always_apply(t1, c1, p1, es.drop_first());
    }
}

/// Whatever batch of events arrives, a caret that starts on a character
/// boundary ends on one of the final text; and while the text stays
/// addressable, the whole batch applies without the editor giving up.
pub proof fn law_caret_ends_on_boundary(t: Seq<char>, c: int, p: Seq<char>, es: Seq<TextEvent>)
    requires
        bnd(t, c),
    ensures
        bnd(run(t, c, p, es).0, run(t, c, p, es).1),
        utf8_len(t) + total_inserted(es) < usize::MAX ==> run_ok(t, c, p, es),
    decreases es.len(),
{
    if utf8_len(t) + total_inserted(es) < usize::MAX {
        law_edits_from_a_boundary_always_apply(t, c, p, es);
    }
    if es.len() > 0 {
        let (t1, c1, p1, a) = step(t, c, p, es[0]);
        law_caret_stays_on_boundary(t, c, p, es[0]);
        if a is None {
            law_caret_ends_on_boundary(t1, c1, p1, es.drop_first());
        }
    }
}

} // verus!
