//! Global capture hotkeys: what a combination is, how it reads and writes as
//! text, and which actions can carry one.
//!
//! A combination is stored in one canonical spelling — modifiers in a fixed
//! order, the key normalised — so two settings files describing one binding
//! cannot disagree about how to write it.

use std::collections::HashMap;

use vstd::prelude::*;

use crate::text::{
    chars_of, is_alnum_char, is_digit_char, is_text, lower_chars, parse_unsigned_chars, push_decimal,
    push_str, slice_of, split_chars, string_of, trim_chars, upper_chars, views,
    all_digits, dec, is_alnum, is_digit, is_lower, is_ws, lemma_dec_shape, lemma_parse_dec,
    lemma_split_join, lemma_split_plain, lemma_trim_plain, lemma_upper_plain, lower, parse_unsigned, split, trim, upper,
};

verus! {

/// The modifiers a hotkey can hold.
#[derive(Clone, Copy, PartialEq, Eq, Structural, Debug)]
pub struct Mods {
    pub cmd: bool,
    pub ctrl: bool,
    pub alt: bool,
    pub shift: bool,
}

pub open spec fn no_mods() -> Mods {
    Mods { cmd: false, ctrl: false, alt: false, shift: false }
}

impl Default for Mods {
    fn default() -> (m: Mods)
        ensures
            m == no_mods(),
    {
        Mods { cmd: false, ctrl: false, alt: false, shift: false }
    }
}

impl Mods {
    pub open spec fn any_spec(&self) -> bool {
        self.cmd || self.ctrl || self.alt || self.shift
    }

    pub open spec fn steals_typing_spec(&self) -> bool {
        self.alt && !self.cmd
    }

    pub fn any(&self) -> (r: bool)
        ensures
            r == self.any_spec(),
    {
        self.cmd || self.ctrl || self.alt || self.shift
    }

    /// Option composes text on macOS, so grabbing it without Cmd takes a
    /// character away from the whole keyboard.
    pub fn steals_typing(&self) -> (r: bool)
        ensures
            r == self.steals_typing_spec(),
    {
        self.alt && !self.cmd
    }
}

/// The key a hotkey can name, in its one spelling: a single ASCII letter or
/// digit, upper-cased, or a function key `F1` to `F20` written without
/// leading zeros. `None` for anything else.
pub open spec fn key_spec(key: Seq<char>) -> Option<Seq<char>> {
    let k = upper(trim(key));
    if k.len() == 1 && is_alnum(k[0]) {
        Some(k)
    } else if k.len() >= 2 && k[0] == 'F' && is_digit(k[1]) {
        match parse_unsigned(k.drop_first(), 255) {
            Some(n) => if 1 <= n && n <= 20 {
                Some(seq!['F'] + dec(n))
            } else {
                None
            },
            None => None,
        }
    } else {
        None
    }
}

/// The four modifier slots.
#[derive(Clone, Copy, PartialEq, Eq, Structural, Debug)]
pub enum Slot {
    Cmd,
    Ctrl,
    Alt,
    Shift,
}

/// Which modifier a lower-cased token names, under every spelling accepted.
pub open spec fn slot_of(low: Seq<char>) -> Option<Slot> {
    if low == "cmd"@ || low == "command"@ || low == "super"@ || low == "meta"@ {
        Some(Slot::Cmd)
    } else if low == "ctrl"@ || low == "control"@ {
        Some(Slot::Ctrl)
    } else if low == "alt"@ || low == "opt"@ || low == "option"@ {
        Some(Slot::Alt)
    } else if low == "shift"@ {
        Some(Slot::Shift)
    } else {
        None
    }
}

pub open spec fn has_slot(m: Mods, s: Slot) -> bool {
    match s {
        Slot::Cmd => m.cmd,
        Slot::Ctrl => m.ctrl,
        Slot::Alt => m.alt,
        Slot::Shift => m.shift,
    }
}

pub open spec fn with_slot(m: Mods, s: Slot) -> Mods {
    match s {
        Slot::Cmd => Mods { cmd: true, ..m },
        Slot::Ctrl => Mods { ctrl: true, ..m },
        Slot::Alt => Mods { alt: true, ..m },
        Slot::Shift => Mods { shift: true, ..m },
    }
}

/// Reading so far: the modifiers seen and the key, if one has been named.
/// `None` once the text has been found malformed.
pub type Reading = Option<(Mods, Option<Seq<char>>)>;

/// One `+`-separated token read into the state: a modifier may appear once,
/// and exactly one token may be something else, which must be a key.
pub open spec fn read_token(st: Reading, token: Seq<char>) -> Reading {
    match st {
        None => None,
        Some((m, key)) => {
            let t = trim(token);
            match slot_of(lower(t)) {
                Some(sl) => if has_slot(m, sl) {
                    None
                } else {
                    Some((with_slot(m, sl), key))
                },
                None => match key {
                    Some(_) => None,
                    None => match key_spec(t) {
                        Some(k) => Some((m, Some(k))),
                        None => None,
                    },
                },
            }
        },
    }
}

pub open spec fn read_tokens(st: Reading, ts: Seq<Seq<char>>) -> Reading
    decreases ts.len(),
{
    if ts.len() == 0 {
        st
    } else {
        read_token(read_tokens(st, ts.drop_last()), ts.last())
    }
}

/// What a hotkey's text means: `None` unless it names each modifier at most
/// once and exactly one key.
pub open spec fn parse_spec(s: Seq<char>) -> Option<(Mods, Seq<char>)> {
    match read_tokens(Some((no_mods(), None)), split(s, '+')) {
        Some((m, Some(k))) => Some((m, k)),
        _ => None,
    }
}

pub open spec fn part(on: bool, name: Seq<char>) -> Seq<char> {
    if on { name.push('+') } else { Seq::empty() }
}

/// The canonical spelling: `Cmd+Ctrl+Alt+Shift+` in that order, each only
/// when held, then the key.
pub open spec fn text_spec(m: Mods, k: Seq<char>) -> Seq<char> {
    part(m.cmd, "Cmd"@) + part(m.ctrl, "Ctrl"@) + part(m.alt, "Alt"@) + part(m.shift, "Shift"@) + k
}


/// What every canonical key looks like: a single upper-case letter or digit,
/// or `F` followed by digits.
pub open spec fn key_shape(k: Seq<char>) -> bool {
    ||| (k.len() == 1 && is_alnum(k[0]) && !is_lower(k[0]))
    ||| (k.len() >= 2 && k[0] == 'F' && all_digits(k.drop_first()))
}

pub proof fn lemma_shape_plain(k: Seq<char>)
    requires
        key_shape(k),
    ensures
        forall|i: int| 0 <= i < k.len() ==> !is_ws(#[trigger] k[i]) && !is_lower(k[i]) && k[i] != '+',
{
    assert forall|i: int| 0 <= i < k.len() implies !is_ws(#[trigger] k[i]) && !is_lower(k[i]) && k[i] != '+' by {
        if k.len() >= 2 && k[0] == 'F' && i > 0 {
            assert(is_digit(k.drop_first()[i - 1]));
        }
    }
}

/// A key that normalises is already in shape, and normalising it again
/// changes nothing.
pub proof fn lemma_key_canonical(key: Seq<char>)
    requires
        key_spec(key) is Some,
    ensures
        key_shape(key_spec(key)->0),
        key_spec(key_spec(key)->0) == key_spec(key),
{
    let k = upper(trim(key));
    let r = key_spec(key)->0;
    if k.len() == 1 && is_alnum(k[0]) {
        assert(r == k);
        assert(!is_lower(k[0]));
        lemma_shape_plain(r);
        lemma_trim_plain(r);
        lemma_upper_plain(r);
    } else {
        let n = parse_unsigned(k.drop_first(), 255)->0;
        assert(r == seq!['F'] + dec(n));
        lemma_dec_shape(n);
        assert(r.drop_first() =~= dec(n));
        assert(key_shape(r));
        lemma_shape_plain(r);
        lemma_trim_plain(r);
        lemma_upper_plain(r);
        assert(r[1] == dec(n)[0]);
        lemma_parse_dec(n, 255);
    }
}


pub proof fn lemma_read_concat(st: Reading, a: Seq<Seq<char>>, b: Seq<Seq<char>>)
    ensures
        read_tokens(st, a + b) == read_tokens(read_tokens(st, a), b),
    decreases b.len(),
{
    if b.len() == 0 {
        assert(a + b =~= a);
    } else {
        lemma_read_concat(st, a, b.drop_last());
        assert((a + b).drop_last() =~= a + b.drop_last());
        assert((a + b).last() == b.last());
    }
}

/// The first character and length of every modifier spelling, which is all
/// it takes to tell them apart.
proof fn lemma_spellings()
    ensures
        "cmd"@.len() == 3 && "cmd"@[0] == 'c',
        "command"@.len() == 7 && "command"@[0] == 'c',
        "super"@.len() == 5 && "super"@[0] == 's' && "super"@[1] == 'u',
        "meta"@.len() == 4 && "meta"@[0] == 'm',
        "ctrl"@.len() == 4 && "ctrl"@[0] == 'c',
        "control"@.len() == 7 && "control"@[0] == 'c',
        "alt"@.len() == 3 && "alt"@[0] == 'a',
        "opt"@.len() == 3 && "opt"@[0] == 'o',
        "option"@.len() == 6 && "option"@[0] == 'o',
        "shift"@.len() == 5 && "shift"@[0] == 's' && "shift"@[1] == 'h',
{
    reveal_strlit("cmd");
    reveal_strlit("ctrl");
    reveal_strlit("alt");
    reveal_strlit("shift");
    reveal_strlit("command");
    reveal_strlit("super");
    reveal_strlit("meta");
    reveal_strlit("control");
    reveal_strlit("opt");
    reveal_strlit("option");
}

/// The modifier names as written, and what each reads back as.
pub proof fn lemma_names()
    ensures
        trim("Cmd"@) == "Cmd"@,
        trim("Ctrl"@) == "Ctrl"@,
        trim("Alt"@) == "Alt"@,
        trim("Shift"@) == "Shift"@,
        slot_of(lower("Cmd"@)) == Some(Slot::Cmd),
        slot_of(lower("Ctrl"@)) == Some(Slot::Ctrl),
        slot_of(lower("Alt"@)) == Some(Slot::Alt),
        slot_of(lower("Shift"@)) == Some(Slot::Shift),
        !"Cmd"@.contains('+'),
        !"Ctrl"@.contains('+'),
        !"Alt"@.contains('+'),
        !"Shift"@.contains('+'),
{
    reveal_strlit("Cmd");
    reveal_strlit("Ctrl");
    reveal_strlit("Alt");
    reveal_strlit("Shift");
    reveal_strlit("cmd");
    reveal_strlit("ctrl");
    reveal_strlit("alt");
    reveal_strlit("shift");
    lemma_spellings();
    lemma_trim_plain("Cmd"@);
    lemma_trim_plain("Ctrl"@);
    lemma_trim_plain("Alt"@);
    lemma_trim_plain("Shift"@);
    assert(lower("Cmd"@) =~= "cmd"@);
    assert(lower("Ctrl"@) =~= "ctrl"@);
    assert(lower("Alt"@) =~= "alt"@);
    assert(lower("Shift"@) =~= "shift"@);
}

/// No key is mistaken for a modifier.
pub proof fn lemma_key_not_modifier(k: Seq<char>)
    requires
        key_shape(k),
    ensures
        slot_of(lower(k)) is None,
{
    lemma_spellings();
    let l = lower(k);
    assert(l.len() == k.len());
    if k.len() >= 2 {
        assert(l[0] == 'f');
    }
}

/// The tokens a canonical text splits into, one per modifier held.
pub open spec fn opt_token(on: bool, name: Seq<char>) -> Seq<Seq<char>> {
    if on { seq![name] } else { Seq::empty() }
}

proof fn lemma_split_part(on: bool, name: Seq<char>, rest: Seq<char>)
    requires
        !name.contains('+'),
    ensures
        split(part(on, name) + rest, '+') == opt_token(on, name) + split(rest, '+'),
{
    if on {
        lemma_split_join(name, rest, '+');
        lemma_split_plain(name, '+');
    } else {
        assert(part(on, name) + rest =~= rest);
        assert(opt_token(on, name) + split(rest, '+') =~= split(rest, '+'));
    }
}

proof fn lemma_read_part(m: Mods, on: bool, name: Seq<char>, sl: Slot)
    requires
        !has_slot(m, sl),
        trim(name) == name,
        slot_of(lower(name)) == Some(sl),
    ensures
        read_tokens(Some((m, None)), opt_token(on, name)) == Some(
            (if on { with_slot(m, sl) } else { m }, None::<Seq<char>>),
        ),
{
    let st = Some((m, None::<Seq<char>>));
    assert(read_tokens(st, Seq::<Seq<char>>::empty()) == st);
    if on {
        assert(opt_token(on, name).drop_last() =~= Seq::<Seq<char>>::empty());
        assert(opt_token(on, name).last() == name);
    } else {
        assert(opt_token(on, name) =~= Seq::<Seq<char>>::empty());
    }
}

pub open spec fn mod_tokens(m: Mods) -> Seq<Seq<char>> {
    opt_token(m.cmd, "Cmd"@) + opt_token(m.ctrl, "Ctrl"@) + opt_token(m.alt, "Alt"@) + opt_token(
        m.shift,
        "Shift"@,
    )
}

#[verifier::rlimit(40)]
proof fn lemma_text_tokens(m: Mods, k: Seq<char>)
    requires
        !k.contains('+'),
    ensures
        split(text_spec(m, k), '+') == mod_tokens(m) + seq![k],
{
    lemma_names();
    lemma_split_plain(k, '+');
    let p1 = part(m.cmd, "Cmd"@);
    let p2 = part(m.ctrl, "Ctrl"@);
    let p3 = part(m.alt, "Alt"@);
    let p4 = part(m.shift, "Shift"@);
    assert(text_spec(m, k) =~= p1 + (p2 + (p3 + (p4 + k))));
    lemma_split_part(m.shift, "Shift"@, k);
    lemma_split_part(m.alt, "Alt"@, p4 + k);
    lemma_split_part(m.ctrl, "Ctrl"@, p3 + (p4 + k));
    lemma_split_part(m.cmd, "Cmd"@, p2 + (p3 + (p4 + k)));
    let t1 = opt_token(m.cmd, "Cmd"@);
    let t2 = opt_token(m.ctrl, "Ctrl"@);
    let t3 = opt_token(m.alt, "Alt"@);
    let t4 = opt_token(m.shift, "Shift"@);
    assert(t1 + (t2 + (t3 + (t4 + seq![k]))) =~= mod_tokens(m) + seq![k]);
}

proof fn lemma_read_mods(m: Mods)
    ensures
        read_tokens(Some((no_mods(), None)), mod_tokens(m)) == Some((m, None::<Seq<char>>)),
{
    lemma_names();
    let s0 = Some((no_mods(), None::<Seq<char>>));
    let m1 = Mods { cmd: m.cmd, ctrl: false, alt: false, shift: false };
    let m2 = Mods { cmd: m.cmd, ctrl: m.ctrl, alt: false, shift: false };
    let m3 = Mods { cmd: m.cmd, ctrl: m.ctrl, alt: m.alt, shift: false };
    let t1 = opt_token(m.cmd, "Cmd"@);
    let t2 = opt_token(m.ctrl, "Ctrl"@);
    let t3 = opt_token(m.alt, "Alt"@);
    let t4 = opt_token(m.shift, "Shift"@);
    lemma_read_part(no_mods(), m.cmd, "Cmd"@, Slot::Cmd);
    lemma_read_part(m1, m.ctrl, "Ctrl"@, Slot::Ctrl);
    lemma_read_part(m2, m.alt, "Alt"@, Slot::Alt);
    lemma_read_part(m3, m.shift, "Shift"@, Slot::Shift);
    lemma_read_concat(s0, t1, t2);
    lemma_read_concat(s0, t1 + t2, t3);
    lemma_read_concat(s0, (t1 + t2) + t3, t4);
}

/// Writing a hotkey out and reading it back gives the same hotkey: the
/// canonical text always parses, to exactly what produced it.
pub proof fn lemma_text_round_trip(m: Mods, k: Seq<char>)
    requires
        key_spec(k) == Some(k),
    ensures
        parse_spec(text_spec(m, k)) == Some((m, k)),
{
    lemma_key_canonical(k);
    lemma_shape_plain(k);
    lemma_key_not_modifier(k);
    lemma_trim_plain(k);
    assert(!k.contains('+'));
    lemma_text_tokens(m, k);
    lemma_read_mods(m);
    let s0 = Some((no_mods(), None::<Seq<char>>));
    lemma_read_concat(s0, mod_tokens(m), seq![k]);
    let t = seq![k];
    assert(t.drop_last() =~= Seq::<Seq<char>>::empty());
    assert(read_tokens(Some((m, None::<Seq<char>>)), Seq::<Seq<char>>::empty()) == Some(
        (m, None::<Seq<char>>),
    ));
    assert(read_tokens(Some((m, None::<Seq<char>>)), t) == read_token(
        Some((m, None::<Seq<char>>)),
        k,
    ));
}


pub proof fn lemma_read_none(ts: Seq<Seq<char>>)
    ensures
        read_tokens(None, ts) is None,
    decreases ts.len(),
{
    if ts.len() > 0 {
        lemma_read_none(ts.drop_last());
    }
}

/// A combination, stored and compared in one canonical form.
#[derive(Clone, PartialEq, Eq, Debug)]
pub struct Hotkey {
    pub mods: Mods,
    /// Already normalised: `4`, `A`, `F5`.
    key: String,
}

impl View for Hotkey {
    type V = (Mods, Seq<char>);

    closed spec fn view(&self) -> (Mods, Seq<char>) {
        (self.mods, self.key@)
    }
}

/// The normalised key, if `key` is one a hotkey can name.
fn normalise_chars(key: &[char]) -> (r: Option<Vec<char>>)
    ensures
        match r {
            Some(v) => key_spec(key@) == Some(v@),
            None => key_spec(key@) is None,
        },
{
    let t = trim_chars(key);
    let k = upper_chars(t.as_slice());
    if k.len() == 1 && is_alnum_char(k[0]) {
        return Some(k);
    }
    if k.len() >= 2 && k[0] == 'F' && is_digit_char(k[1]) {
        let rest = slice_of(k.as_slice(), 1, k.len());
        assert(rest@ =~= k@.drop_first());
        match parse_unsigned_chars(rest.as_slice(), 255) {
            Some(n) => {
                if 1 <= n && n <= 20 {
                    let mut v: Vec<char> = Vec::new();
                    v.push('F');
                    push_decimal(&mut v, n);
                    assert(v@ =~= seq!['F'] + dec(n as nat));
                    return Some(v);
                }
            },
            None => {},
        }
    }
    None
}

/// Which modifier a lower-cased token names.
fn slot_for(low: &[char]) -> (r: Option<Slot>)
    ensures
        r == slot_of(low@),
{
    if is_text(low, "cmd") || is_text(low, "command") || is_text(low, "super") || is_text(
        low,
        "meta",
    ) {
        Some(Slot::Cmd)
    } else if is_text(low, "ctrl") || is_text(low, "control") {
        Some(Slot::Ctrl)
    } else if is_text(low, "alt") || is_text(low, "opt") || is_text(low, "option") {
        Some(Slot::Alt)
    } else if is_text(low, "shift") {
        Some(Slot::Shift)
    } else {
        None
    }
}

fn has(m: Mods, sl: Slot) -> (r: bool)
    ensures
        r == has_slot(m, sl),
{
    match sl {
        Slot::Cmd => m.cmd,
        Slot::Ctrl => m.ctrl,
        Slot::Alt => m.alt,
        Slot::Shift => m.shift,
    }
}

fn set(m: Mods, sl: Slot) -> (r: Mods)
    ensures
        r == with_slot(m, sl),
{
    match sl {
        Slot::Cmd => Mods { cmd: true, ..m },
        Slot::Ctrl => Mods { ctrl: true, ..m },
        Slot::Alt => Mods { alt: true, ..m },
        Slot::Shift => Mods { shift: true, ..m },
    }
}

/// The key of a parse in progress, as a sequence.
pub open spec fn key_view(k: Option<Vec<char>>) -> Option<Seq<char>> {
    match k {
        Some(v) => Some(v@),
        None => None,
    }
}

impl Hotkey {
    /// The canonical form of a key: one the key normalises to.
    pub open spec fn wf(&self) -> bool {
        key_spec(self@.1) == Some(self@.1)
    }

    /// `None` when the key is not one this can bind.
    pub fn new(mods: Mods, key: &str) -> (r: Option<Hotkey>)
        ensures
            match r {
                Some(h) => key_spec(key@) == Some(h@.1) && h@.0 == mods && h.wf(),
                None => key_spec(key@) is None,
            },
    {
        let chars = chars_of(key);
        match normalise_chars(chars.as_slice()) {
            Some(k) => {
                proof {
                    lemma_key_canonical(key@);
                }
                Some(Hotkey { mods, key: string_of(k.as_slice()) })
            },
            None => None,
        }
    }

    /// A copy of this hotkey.
    pub fn duplicate(&self) -> (r: Hotkey)
        ensures
            r@ == self@,
            r.wf() == self.wf(),
    {
        Hotkey { mods: self.mods, key: self.key.clone() }
    }

    /// The modifiers held.
    pub fn modifiers(&self) -> (m: Mods)
        ensures
            m == self@.0,
    {
        self.mods
    }

    pub fn key(&self) -> (r: &str)
        ensures
            r@ == self@.1,
    {
        self.key.as_str()
    }

    /// Binding a key with no modifier takes it from every other application,
    /// and Option without Cmd takes a character from the keyboard.
    pub open spec fn bindable_spec(&self) -> bool {
        self@.0.any_spec() && !self@.0.steals_typing_spec()
    }

    pub fn is_bindable(&self) -> (r: bool)
        ensures
            r == self.bindable_spec(),
    {
        self.mods.any() && !self.mods.steals_typing()
    }

    /// The canonical spelling, modifiers always in the same order.
    pub fn to_string(&self) -> (s: String)
        ensures
            s@ == text_spec(self@.0, self@.1),
    {
        let mut v: Vec<char> = Vec::new();
        if self.mods.cmd {
            push_str(&mut v, "Cmd+");
        }
        if self.mods.ctrl {
            push_str(&mut v, "Ctrl+");
        }
        if self.mods.alt {
            push_str(&mut v, "Alt+");
        }
        if self.mods.shift {
            push_str(&mut v, "Shift+");
        }
        let k = chars_of(self.key.as_str());
        crate::text::push_all(&mut v, k.as_slice());
        proof {
            reveal_strlit("Cmd+");
            reveal_strlit("Ctrl+");
            reveal_strlit("Alt+");
            reveal_strlit("Shift+");
            reveal_strlit("Cmd");
            reveal_strlit("Ctrl");
            reveal_strlit("Alt");
            reveal_strlit("Shift");
            assert("Cmd+"@ =~= "Cmd"@.push('+'));
            assert("Ctrl+"@ =~= "Ctrl"@.push('+'));
            assert("Alt+"@ =~= "Alt"@.push('+'));
            assert("Shift+"@ =~= "Shift"@.push('+'));
            assert(v@ =~= text_spec(self.mods, self.key@));
        }
        string_of(v.as_slice())
    }

    /// Read a combination: each modifier at most once, under any of its
    /// spellings and in any order, and exactly one key.
    pub fn parse_text(s: &str) -> (r: Option<Hotkey>)
        ensures
            match r {
                Some(h) => parse_spec(s@) == Some(h@) && h.wf(),
                None => parse_spec(s@) is None,
            },
    {
        let chars = chars_of(s);
        let toks = split_chars(chars.as_slice(), '+');
        let ghost all = views(toks@);
        let ghost s0 = Some((no_mods(), None::<Seq<char>>));
        let mut m = Mods { cmd: false, ctrl: false, alt: false, shift: false };
        let mut key: Option<Vec<char>> = None;
        let mut i: usize = 0;
        assert(all.take(0) =~= Seq::<Seq<char>>::empty());
        while i < toks.len()
            invariant
                i <= toks.len(),
                all == views(toks@),
                all == split(s@, '+'),
                s0 == Some((no_mods(), None::<Seq<char>>)),
                read_tokens(s0, all.take(i as int)) == Some((m, key_view(key))),
                match key {
                    Some(k) => key_spec(k@) == Some(k@),
                    None => true,
                },
            decreases toks.len() - i,
        {
            let ghost before = Some((m, key_view(key)));
            proof {
                assert(all.take(i + 1).drop_last() =~= all.take(i as int));
                assert(all.take(i + 1).last() == toks@[i as int]@);
                assert(read_tokens(s0, all.take(i + 1)) == read_token(
                    read_tokens(s0, all.take(i as int)),
                    toks@[i as int]@,
                ));
                lemma_read_concat(s0, all.take(i + 1), all.skip(i + 1));
                assert(all.take(i + 1) + all.skip(i + 1) =~= all);
            }
            let t = trim_chars(toks[i].as_slice());
            let low = lower_chars(t.as_slice());
            match slot_for(low.as_slice()) {
                Some(sl) => {
                    if has(m, sl) {
                        proof {
                            lemma_read_none(all.skip(i + 1));

                        }
                        return None;
                    }
                    m = set(m, sl);
                },
                None => {
                    if key.is_some() {
                        proof {
                            lemma_read_none(all.skip(i + 1));
                        }
                        return None;
                    }
                    match normalise_chars(t.as_slice()) {
                        Some(k) => {
                            proof {
                                lemma_key_canonical(t@);
                            }
                            key = Some(k);
                        },
                        None => {
                            proof {
                                lemma_read_none(all.skip(i + 1));
                            }
                            return None;
                        },
                    }
                },
            }
            i = i + 1;
        }
        assert(all.take(toks.len() as int) =~= all);
        match key {
            Some(k) => Some(Hotkey { mods: m, key: string_of(k.as_slice()) }),
            None => None,
        }
    }
}

impl core::str::FromStr for Hotkey {
    type Err = ();

    fn from_str(s: &str) -> (r: Result<Hotkey, ()>)
        ensures
            match r {
                Ok(h) => parse_spec(s@) == Some(h@) && h.wf(),
                Err(_) => parse_spec(s@) is None,
            },
    {
        match Hotkey::parse_text(s) {
            Some(h) => Ok(h),
            None => Err(()),
        }
    }
}


/// Whether two hotkeys are the same combination.
pub fn same_hotkey(a: &Hotkey, b: &Hotkey) -> (r: bool)
    ensures
        r == (a@ == b@),
{
    a.mods == b.mods && a.key == b.key
}

/// Whether `list` holds the combination `h`.
pub fn holds(list: &[Hotkey], h: &Hotkey) -> (r: bool)
    ensures
        r == hotkey_views(list@).contains(h@),
{
    let ghost vs = hotkey_views(list@);
    let mut i: usize = 0;
    while i < list.len()
        invariant
            i <= list.len(),
            vs == hotkey_views(list@),
            forall|j: int| 0 <= j < i ==> vs[j] != h@,
        decreases list.len() - i,
    {
        if same_hotkey(&list[i], h) {
            assert(vs[i as int] == h@);
            return true;
        }
        i = i + 1;
    }
    false
}

/// The three neighbours offered when a combination is taken: the number
/// stays, the modifier hand moves.
pub open spec fn ladder(i: int) -> Mods {
    if i == 0 {
        Mods { cmd: false, ctrl: true, alt: false, shift: true }
    } else if i == 1 {
        Mods { cmd: true, ctrl: false, alt: true, shift: true }
    } else {
        Mods { cmd: true, ctrl: true, alt: false, shift: true }
    }
}

pub open spec fn offered(l: Mods, taken: Mods) -> bool {
    l != taken && !l.steals_typing_spec()
}

pub open spec fn rung(i: int, taken: (Mods, Seq<char>)) -> Seq<(Mods, Seq<char>)> {
    if offered(ladder(i), taken.0) { seq![(ladder(i), taken.1)] } else { Seq::empty() }
}

/// Every rung of the ladder that is not the combination itself, with its key.
pub open spec fn candidates_spec(taken: (Mods, Seq<char>)) -> Seq<(Mods, Seq<char>)> {
    rung(0, taken) + rung(1, taken) + rung(2, taken)
}

pub open spec fn hotkey_views(v: Seq<Hotkey>) -> Seq<(Mods, Seq<char>)> {
    v.map_values(|x: Hotkey| x@)
}

/// Neighbours of a combination the user already knows: the number stays, the
/// modifier hand moves, so muscle memory survives.
///
/// A display order and nothing more: registering reports success for a
/// combination another application already holds, so no list can claim a key
/// is free.
pub fn candidates(taken: &Hotkey) -> (r: Vec<Hotkey>)
    ensures
        hotkey_views(r@) == candidates_spec(taken@),
        forall|i: int| 0 <= i < r.len() ==> (#[trigger] r@[i]).wf() == taken.wf(),
{
    let ladder_mods: [Mods; 3] = [
        Mods { cmd: false, ctrl: true, alt: false, shift: true },
        Mods { cmd: true, ctrl: false, alt: true, shift: true },
        Mods { cmd: true, ctrl: true, alt: false, shift: true },
    ];
    let mut out: Vec<Hotkey> = Vec::new();
    let mut i: usize = 0;
    while i < 3
        invariant
            i <= 3,
            ladder_mods@ == seq![ladder(0), ladder(1), ladder(2)],
            hotkey_views(out@) == (if i == 0 {
                Seq::empty()
            } else if i == 1 {
                rung(0, taken@)
            } else if i == 2 {
                rung(0, taken@) + rung(1, taken@)
            } else {
                candidates_spec(taken@)
            }),
            forall|j: int| 0 <= j < out.len() ==> (#[trigger] out@[j])@.1 == taken@.1,
        decreases 3 - i,
    {
        let mods = ladder_mods[i];
        let ghost before = hotkey_views(out@);
        if mods != taken.mods && !mods.steals_typing() {
            out.push(Hotkey { mods, key: taken.key.clone() });
            assert(hotkey_views(out@) =~= before + rung(i as int, taken@));
        } else {
            assert(hotkey_views(out@) =~= before + rung(i as int, taken@));
        }
        i = i + 1;
    }
    proof {
        assert forall|j: int| 0 <= j < out.len() implies (#[trigger] out@[j]).wf() == taken.wf() by {
            assert(out@[j]@.1 == taken@.1);
        }
    }
    out
}


/// What a launch of shotr is asked to do, as the tray and the daemon name it.
#[derive(Clone, Copy, PartialEq, Eq, Structural, Debug)]
pub enum Command {
    CaptureRegion,
    CaptureFull,
    CaptureRegionCopy,
    CaptureFullCopy,
    CaptureRegionPin,
    History,
    Preferences,
    Quit,
}

/// The command line that carries a command to a fresh process.
pub open spec fn command_args(c: Command) -> Seq<Seq<char>> {
    match c {
        Command::CaptureRegion => seq!["--capture"@],
        Command::CaptureFull => seq!["--capture"@, "--full"@],
        Command::CaptureRegionCopy => seq!["--capture"@, "--copy"@],
        Command::CaptureFullCopy => seq!["--capture"@, "--full"@, "--copy"@],
        Command::CaptureRegionPin => seq!["--capture"@, "--pin"@],
        Command::History => seq!["--history"@],
        Command::Preferences => seq!["--settings"@],
        Command::Quit => Seq::empty(),
    }
}

pub open spec fn string_views(v: Seq<String>) -> Seq<Seq<char>> {
    v.map_values(|x: String| x@)
}

impl Command {
    /// The arguments that make a fresh shotr process carry this out. `Quit`
    /// is answered by the daemon itself and has none.
    pub fn args(self) -> (r: Vec<String>)
        ensures
            string_views(r@) == command_args(self),
    {
        let words: Vec<&str> = match self {
            Command::CaptureRegion => vec!["--capture"],
            Command::CaptureFull => vec!["--capture", "--full"],
            Command::CaptureRegionCopy => vec!["--capture", "--copy"],
            Command::CaptureFullCopy => vec!["--capture", "--full", "--copy"],
            Command::CaptureRegionPin => vec!["--capture", "--pin"],
            Command::History => vec!["--history"],
            Command::Preferences => vec!["--settings"],
            Command::Quit => vec![],
        };
        let ghost want = command_args(self);
        assert(words@.map_values(|w: &str| w@) =~= want);
        let mut out: Vec<String> = Vec::new();
        let mut i: usize = 0;
        while i < words.len()
            invariant
                i <= words.len(),
                words@.map_values(|w: &str| w@) == want,
                string_views(out@) == want.take(i as int),
            decreases words.len() - i,
        {
            let ghost before = string_views(out@);
            let w: &str = words[i];
            let cs = chars_of(w);
            let st = crate::text::string_of(cs.as_slice());
            assert(st@ == w@);
            assert(words@.map_values(|w: &str| w@)[i as int] == w@);
            out.push(st);
            assert(string_views(out@) =~= before.push(w@));
            assert(want.take(i + 1) =~= want.take(i as int).push(want[i as int]));
            i = i + 1;
        }
        assert(want.take(words.len() as int) =~= want);
        out
    }
}

/// The six things that can carry a binding.
#[derive(Clone, Copy, PartialEq, Eq, Structural, Debug)]
pub enum Action {
    Region,
    Full,
    RegionCopy,
    FullCopy,
    RegionPin,
    Hub,
}

pub open spec fn action_command(a: Action) -> Command {
    match a {
        Action::Region => Command::CaptureRegion,
        Action::Full => Command::CaptureFull,
        Action::RegionCopy => Command::CaptureRegionCopy,
        Action::FullCopy => Command::CaptureFullCopy,
        Action::RegionPin => Command::CaptureRegionPin,
        Action::Hub => Command::History,
    }
}

impl Action {
    pub const ALL: [Action; 6] = [
        Action::Region,
        Action::Full,
        Action::RegionCopy,
        Action::FullCopy,
        Action::RegionPin,
        Action::Hub,
    ];

    pub fn command(self) -> (c: Command)
        ensures
            c == action_command(self),
    {
        match self {
            Action::Region => Command::CaptureRegion,
            Action::Full => Command::CaptureFull,
            Action::RegionCopy => Command::CaptureRegionCopy,
            Action::FullCopy => Command::CaptureFullCopy,
            Action::RegionPin => Command::CaptureRegionPin,
            Action::Hub => Command::History,
        }
    }
}


/// The settings that decide hotkeys: the stored bindings, as the user wrote
/// them, and whether the one-time starting shortcut has been dealt with.
#[derive(Clone, Debug, PartialEq)]
pub struct Prefs {
    pub hotkeys: Vec<(Action, String)>,
    pub hotkeys_initialised: bool,
}

impl Default for Prefs {
    fn default() -> (p: Prefs)
        ensures
            p.hotkeys@.len() == 0,
            !p.hotkeys_initialised,
    {
        Prefs { hotkeys: Vec::new(), hotkeys_initialised: false }
    }
}

/// The combination macOS uses for the same job, which is where an offer
/// starts.
pub open spec fn familiar_spec(a: Action) -> (Mods, Seq<char>) {
    let cs = Mods { cmd: true, ctrl: false, alt: false, shift: true };
    match a {
        Action::Region | Action::RegionCopy | Action::RegionPin => (cs, seq!['4']),
        Action::Full | Action::FullCopy => (cs, seq!['3']),
        Action::Hub => (cs, seq!['5']),
    }
}

fn familiar(action: Action) -> (r: &'static str)
    ensures
        r@ == text_spec(familiar_spec(action).0, familiar_spec(action).1),
        key_spec(familiar_spec(action).1) == Some(familiar_spec(action).1),
{
    proof {
        reveal_strlit("Cmd+Shift+4");
        reveal_strlit("Cmd+Shift+3");
        reveal_strlit("Cmd+Shift+5");
        reveal_strlit("Cmd");
        reveal_strlit("Shift");
        let k = familiar_spec(action).1;
        lemma_trim_plain(k);
        lemma_upper_plain(k);
        assert(upper(trim(k)) == k);
    }
    match action {
        Action::Region | Action::RegionCopy | Action::RegionPin => {
            assert("Cmd+Shift+4"@ =~= text_spec(familiar_spec(action).0, seq!['4']));
            "Cmd+Shift+4"
        },
        Action::Full | Action::FullCopy => {
            assert("Cmd+Shift+3"@ =~= text_spec(familiar_spec(action).0, seq!['3']));
            "Cmd+Shift+3"
        },
        Action::Hub => {
            assert("Cmd+Shift+5"@ =~= text_spec(familiar_spec(action).0, seq!['5']));
            "Cmd+Shift+5"
        },
    }
}

/// The first offer that is neither taken nor held by the system.
pub open spec fn first_free(
    offers: Seq<(Mods, Seq<char>)>,
    taken: Seq<(Mods, Seq<char>)>,
    system: Seq<(Mods, Seq<char>)>,
) -> Option<(Mods, Seq<char>)>
    decreases offers.len(),
{
    if offers.len() == 0 {
        None
    } else if !taken.contains(offers[0]) && !system.contains(offers[0]) {
        Some(offers[0])
    } else {
        first_free(offers.drop_first(), taken, system)
    }
}

/// What is offered for an action, best first: the familiar combination, then
/// its neighbours.
pub open spec fn offers_spec(a: Action) -> Seq<(Mods, Seq<char>)> {
    seq![familiar_spec(a)] + candidates_spec(familiar_spec(a))
}

pub open spec fn suggestion_spec(
    a: Action,
    taken: Seq<(Mods, Seq<char>)>,
    system: Seq<(Mods, Seq<char>)>,
) -> Option<(Mods, Seq<char>)> {
    first_free(offers_spec(a), taken, system)
}

pub open spec fn opt_hotkey(h: Option<Hotkey>) -> Option<(Mods, Seq<char>)> {
    match h {
        Some(x) => Some(x@),
        None => None,
    }
}

/// What to offer for an action nothing is bound to: the familiar combination
/// when it is free, else the first free neighbour. `taken` is everything
/// already spoken for; `system` is what macOS itself holds.
pub fn suggestion(action: Action, taken: &[Hotkey], system: &[Hotkey]) -> (r: Option<Hotkey>)
    ensures
        opt_hotkey(r) == suggestion_spec(action, hotkey_views(taken@), hotkey_views(system@)),
        match r {
            Some(h) => h.wf(),
            None => true,
        },
{
    let text = familiar(action);
    proof {
        lemma_text_round_trip(familiar_spec(action).0, familiar_spec(action).1);
    }
    let familiar = match Hotkey::parse_text(text) {
        Some(h) => h,
        None => return None,
    };
    let mut offers: Vec<Hotkey> = Vec::new();
    let first = Hotkey { mods: familiar.mods, key: familiar.key.clone() };
    assert(first@ == familiar@);
    offers.push(first);
    assert(hotkey_views(offers@) =~= seq![familiar@]);
    let rest = candidates(&familiar);
    assert(hotkey_views(rest@).take(0) =~= Seq::<(Mods, Seq<char>)>::empty());
    let mut j: usize = 0;
    while j < rest.len()
        invariant
            j <= rest.len(),
            hotkey_views(offers@) == seq![familiar@] + hotkey_views(rest@).take(j as int),
            forall|q: int| 0 <= q < offers.len() ==> (#[trigger] offers@[q]).wf(),
            forall|q: int| 0 <= q < rest.len() ==> (#[trigger] rest@[q]).wf(),
        decreases rest.len() - j,
    {
        let h = &rest[j];
        let ghost before = hotkey_views(offers@);
        let nh = Hotkey { mods: h.mods, key: h.key.clone() };
        assert(nh@ == h@);
        offers.push(nh);
        assert(hotkey_views(offers@) =~= before.push(h@));
        assert(hotkey_views(rest@).take(j + 1) =~= hotkey_views(rest@).take(j as int).push(h@));
        assert(hotkey_views(offers@) =~= seq![familiar@] + hotkey_views(rest@).take(j + 1));
        j = j + 1;
    }
    let ghost all = hotkey_views(offers@);
    assert(all =~= offers_spec(action));
    let ghost tv = hotkey_views(taken@);
    let ghost sv = hotkey_views(system@);
    assert(all.skip(0) =~= all);
    let mut i: usize = 0;
    while i < offers.len()
        invariant
            i <= offers.len(),
            all == hotkey_views(offers@),
            all == offers_spec(action),
            tv == hotkey_views(taken@),
            sv == hotkey_views(system@),
            first_free(all, tv, sv) == first_free(all.skip(i as int), tv, sv),
            forall|q: int| 0 <= q < offers.len() ==> (#[trigger] offers@[q]).wf(),
        decreases offers.len() - i,
    {
        let c = &offers[i];
        assert(all.skip(i as int)[0] == c@);
        if !holds(taken, c) && !holds(system, c) {
            let found = Hotkey { mods: c.mods, key: c.key.clone() };
            assert(found@ == c@);
            assert(all.skip(i as int).len() > 0);
            assert(!tv.contains(c@) && !sv.contains(c@));
            assert(first_free(all.skip(i as int), tv, sv) == Some(c@));
            return Some(found);
        }
        assert(all.skip(i as int).drop_first() =~= all.skip(i + 1));
        i = i + 1;
    }
    None
}

/// The one starting shortcut a fresh install is given, or `None` when there
/// is nothing to do: the platform does not bind hotkeys itself (`editable`
/// false), the question was settled on an earlier run, or the settings already
/// name bindings. Only region capture is ever claimed unasked.
pub open spec fn first_run_spec(
    hotkeys_len: nat,
    initialised: bool,
    system: Seq<(Mods, Seq<char>)>,
    editable: bool,
) -> Option<(Action, (Mods, Seq<char>))> {
    if !editable || initialised || hotkeys_len != 0 {
        None
    } else {
        match suggestion_spec(Action::Region, Seq::empty(), system) {
            Some(h) => Some((Action::Region, h)),
            None => None,
        }
    }
}

pub fn first_run_binding(prefs: &Prefs, system: &[Hotkey], editable: bool) -> (r: Option<(Action, Hotkey)>)
    ensures
        match r {
            Some((a, h)) => first_run_spec(
                prefs.hotkeys@.len(),
                prefs.hotkeys_initialised,
                hotkey_views(system@),
                editable,
            ) == Some((a, h@)) && h.wf(),
            None => first_run_spec(
                prefs.hotkeys@.len(),
                prefs.hotkeys_initialised,
                hotkey_views(system@),
                editable,
            ) is None,
        },
{
    if !editable || prefs.hotkeys_initialised || prefs.hotkeys.len() != 0 {
        return None;
    }
    let none: Vec<Hotkey> = Vec::new();
    assert(hotkey_views(none@) =~= Seq::<(Mods, Seq<char>)>::empty());
    match suggestion(Action::Region, none.as_slice(), system) {
        Some(h) => Some((Action::Region, h)),
        None => None,
    }
}

/// The stored bindings that can be used, in order: the row's text must read
/// as a hotkey and that hotkey must be bindable.
pub open spec fn bindings_spec(stored: Seq<(Action, Seq<char>)>) -> Seq<(Action, (Mods, Seq<char>))>
    decreases stored.len(),
{
    if stored.len() == 0 {
        Seq::empty()
    } else {
        let init = bindings_spec(stored.drop_last());
        let (a, text) = stored.last();
        match parse_spec(text) {
            Some(h) => if h.0.any_spec() && !h.0.steals_typing_spec() {
                init.push((a, h))
            } else {
                init
            },
            None => init,
        }
    }
}

pub open spec fn stored_views(v: Seq<(Action, String)>) -> Seq<(Action, Seq<char>)> {
    v.map_values(|x: (Action, String)| (x.0, x.1@))
}

pub open spec fn bound_views(v: Seq<(Action, Hotkey)>) -> Seq<(Action, (Mods, Seq<char>))> {
    v.map_values(|x: (Action, Hotkey)| (x.0, x.1@))
}

/// The bindings held in the settings, with anything unusable dropped: one bad
/// row must not cost the user the rest of their hotkeys.
pub fn bindings(stored: &[(Action, String)]) -> (r: Vec<(Action, Hotkey)>)
    ensures
        bound_views(r@) == bindings_spec(stored_views(stored@)),
{
    let ghost sv = stored_views(stored@);
    let mut out: Vec<(Action, Hotkey)> = Vec::new();
    let mut i: usize = 0;
    while i < stored.len()
        invariant
            i <= stored.len(),
            sv == stored_views(stored@),
            bound_views(out@) == bindings_spec(sv.take(i as int)),
        decreases stored.len() - i,
    {
        let (action, text) = &stored[i];
        let ghost before = bound_views(out@);
        assert(sv.take(i + 1).drop_last() =~= sv.take(i as int));
        assert(sv.take(i + 1).last() == (*action, text@));
        match Hotkey::parse_text(text.as_str()) {
            Some(h) => {
                if h.is_bindable() {
                    out.push((*action, h));
                    assert(bound_views(out@) =~= before.push((*action, h@)));
                }
            },
            None => {},
        }
        i = i + 1;
    }
    assert(sv.take(stored.len() as int) =~= sv);
    out
}


proof fn lemma_read_keys_canonical(st: Reading, ts: Seq<Seq<char>>)
    requires
        match st {
            Some((_, Some(k))) => key_spec(k) == Some(k),
            _ => true,
        },
    ensures
        match read_tokens(st, ts) {
            Some((_, Some(k))) => key_spec(k) == Some(k),
            _ => true,
        },
    decreases ts.len(),
{
    if ts.len() > 0 {
        lemma_read_keys_canonical(st, ts.drop_last());
        let t = trim(ts.last());
        if key_spec(t) is Some {
            lemma_key_canonical(t);
        }
    }
}

/// Whatever text a hotkey was read from, it is stored in canonical form:
/// writing it out and reading that back gives the same hotkey. Two spellings
/// of one binding therefore store identically.
pub proof fn law_parse_is_canonical(s: Seq<char>)
    requires
        parse_spec(s) is Some,
    ensures
        match parse_spec(s) {
            Some((m, k)) => key_spec(k) == Some(k) && parse_spec(text_spec(m, k)) == Some((m, k)),
            None => true,
        },
{
    lemma_read_keys_canonical(Some((no_mods(), None)), split(s, '+'));
    let (m, k) = parse_spec(s)->0;
    lemma_text_round_trip(m, k);
}

/// Every neighbour offered keeps the key, is not the combination it stands in
/// for, never holds Option without Cmd, and can be bound.
pub proof fn law_candidates(taken: (Mods, Seq<char>))
    ensures
        forall|i: int|
            0 <= i < candidates_spec(taken).len() ==> {
                let c = #[trigger] candidates_spec(taken)[i];
                &&& c.1 == taken.1
                &&& c.0 != taken.0
                &&& !c.0.steals_typing_spec()
                &&& c.0.any_spec()
            },
{
}

proof fn lemma_first_free(
    offers: Seq<(Mods, Seq<char>)>,
    taken: Seq<(Mods, Seq<char>)>,
    system: Seq<(Mods, Seq<char>)>,
)
    ensures
        match first_free(offers, taken, system) {
            Some(h) => offers.contains(h) && !taken.contains(h) && !system.contains(h),
            None => forall|i: int|
                0 <= i < offers.len() ==> taken.contains(#[trigger] offers[i]) || system.contains(
                    offers[i],
                ),
        },
    decreases offers.len(),
{
    if offers.len() > 0 {
        lemma_first_free(offers.drop_first(), taken, system);
        if !taken.contains(offers[0]) && !system.contains(offers[0]) {
            assert(offers.contains(offers[0]));
        } else {
            match first_free(offers.drop_first(), taken, system) {
                Some(h) => {
                    let j = choose|j: int| 0 <= j < offers.drop_first().len() && offers.drop_first()[j] == h;
                    assert(offers[j + 1] == h);
                },
                None => {
                    assert forall|i: int| 0 <= i < offers.len() implies taken.contains(
                        #[trigger] offers[i],
                    ) || system.contains(offers[i]) by {
                        if i > 0 {
                            assert(offers[i] == offers.drop_first()[i - 1]);
                        }
                    }
                },
            }
        }
    }
}

/// A suggestion is never something already spoken for or held by the system,
/// always keeps the key of the familiar combination, and is bindable. When
/// nothing is suggested, every offer was spoken for.
pub proof fn law_suggestion(
    a: Action,
    taken: Seq<(Mods, Seq<char>)>,
    system: Seq<(Mods, Seq<char>)>,
)
    ensures
        match suggestion_spec(a, taken, system) {
            Some(h) => {
                &&& !taken.contains(h)
                &&& !system.contains(h)
                &&& h.1 == familiar_spec(a).1
                &&& h.0.any_spec() && !h.0.steals_typing_spec()
            },
            None => forall|i: int|
                0 <= i < offers_spec(a).len() ==> taken.contains(#[trigger] offers_spec(a)[i])
                    || system.contains(offers_spec(a)[i]),
        },
{
    lemma_first_free(offers_spec(a), taken, system);
    law_candidates(familiar_spec(a));
    let o = offers_spec(a);
    if let Some(h) = suggestion_spec(a, taken, system) {
        let j = choose|j: int| 0 <= j < o.len() && o[j] == h;
        if j > 0 {
            assert(o[j] == candidates_spec(familiar_spec(a))[j - 1]);
        }
    }
}

/// No two actions mean the same command, and every action's command is a
/// real invocation rather than a bare launch of the daemon.
pub proof fn law_actions(a: Action, b: Action)
    ensures
        a != b ==> action_command(a) != action_command(b),
        command_args(action_command(a)).len() > 0,
{
}

/// Every binding that survives reading the settings can be bound.
pub proof fn law_bindings_bindable(stored: Seq<(Action, Seq<char>)>)
    ensures
        forall|i: int|
            0 <= i < bindings_spec(stored).len() ==> {
                let h = (#[trigger] bindings_spec(stored)[i]).1;
                h.0.any_spec() && !h.0.steals_typing_spec()
            },
    decreases stored.len(),
{
    if stored.len() > 0 {
        law_bindings_bindable(stored.drop_last());
        let init = bindings_spec(stored.drop_last());
        let b = bindings_spec(stored);
        assert forall|i: int| 0 <= i < b.len() implies {
            let h = (#[trigger] b[i]).1;
            h.0.any_spec() && !h.0.steals_typing_spec()
        } by {
            if i < init.len() {
                assert(b[i] == init[i]);
            }
        }
    }
}

/// The starting shortcut is offered at most once: after the first run, or
/// when settings already name a binding, nothing is offered.
pub proof fn law_first_run_once(
    hotkeys_len: nat,
    system: Seq<(Mods, Seq<char>)>,
    editable: bool,
)
    ensures
        first_run_spec(hotkeys_len, true, system, editable) is None,
        hotkeys_len > 0 ==> first_run_spec(hotkeys_len, false, system, editable) is None,
{
}

/// Live registrations: the id the desktop's events carry for each one, and
/// the action it stands for. The daemon holds one of these and never asks
/// which platform it is on; where the desktop owns the bindings it stays
/// empty.
pub struct Hotkeys {
    bound: HashMap<u32, Action>,
}

/// The actions a batch of hotkey events asks for, in order: a key going down
/// fires, its release does not, and an id nobody bound fires nothing.
pub open spec fn pressed_spec(bound: Map<u32, Action>, events: Seq<(u32, bool)>) -> Seq<Action>
    decreases events.len(),
{
    if events.len() == 0 {
        Seq::empty()
    } else {
        let rest = pressed_spec(bound, events.drop_last());
        let (id, down) = events.last();
        if down && bound.contains_key(id) {
            rest.push(bound[id])
        } else {
            rest
        }
    }
}

impl View for Hotkeys {
    type V = Map<u32, Action>;

    closed spec fn view(&self) -> Map<u32, Action> {
        self.bound@
    }
}

impl Hotkeys {
    /// Nothing bound.
    pub fn new() -> (r: Hotkeys)
        ensures
            r@ == Map::<u32, Action>::empty(),
    {
        Hotkeys { bound: HashMap::new() }
    }

    /// Events carrying `id` now stand for `action`; a later registration
    /// under one id replaces the earlier.
    pub fn bind(&mut self, id: u32, action: Action)
        ensures
            final(self)@ == old(self)@.insert(id, action),
    {
        broadcast use vstd::std_specs::hash::group_hash_axioms;

        self.bound.insert(id, action);
    }

    /// Forget every registration: the reload path rebinds from scratch
    /// rather than diffing, since a binding left live keeps firing.
    pub fn clear(&mut self)
        ensures
            final(self)@ == Map::<u32, Action>::empty(),
    {
        self.bound.clear();
    }

    /// Every action whose key went down in `events` (the id each event
    /// carries, and whether the key went down or came up), in order. A
    /// release is dropped here so no caller can act twice on one press.
    pub fn pressed(&self, events: &[(u32, bool)]) -> (r: Vec<Action>)
        ensures
            r@ == pressed_spec(self@, events@),
    {
        broadcast use vstd::std_specs::hash::group_hash_axioms;

        let mut out: Vec<Action> = Vec::new();
        let mut i: usize = 0;
        proof {
            assert(events@.take(0) =~= Seq::<(u32, bool)>::empty());
        }
        while i < events.len()
            invariant
                i <= events.len(),
                out@ == pressed_spec(self@, events@.take(i as int)),
            decreases events.len() - i,
        {
            let (id, down) = events[i];
            proof {
                assert(events@.take(i as int + 1).drop_last() =~= events@.take(i as int));
                assert(events@.take(i as int + 1).last() == events@[i as int]);
            }
            if down {
                match self.bound.get(&id) {
                    Some(action) => out.push(*action),
                    None => {},
                }
            }
            i = i + 1;
        }
        proof {
            assert(events@.take(events.len() as int) =~= events@);
        }
        out
    }
}

/// Reading the stored bindings goes row by row: the bindings of two stores
/// one after the other are those of the first followed by those of the
/// second.
pub proof fn law_bindings_row_by_row(a: Seq<(Action, Seq<char>)>, b: Seq<(Action, Seq<char>)>)
    ensures
        bindings_spec(a + b) == bindings_spec(a) + bindings_spec(b),
    decreases b.len(),
{
    if b.len() == 0 {
        assert(a + b =~= a);
        assert(bindings_spec(a) + bindings_spec(b) =~= bindings_spec(a));
    } else {
        law_bindings_row_by_row(a, b.drop_last());
        assert((a + b).drop_last() =~= a + b.drop_last());
        assert((a + b).last() == b.last());
        let x = bindings_spec(a);
        let y = bindings_spec(b.drop_last());
        assert((x + y).push((b.last().0, parse_spec(b.last().1)->0)) =~= x + y.push(
            (b.last().0, parse_spec(b.last().1)->0),
        ));
    }
}

/// One stored row keeps its own action: it binds exactly the hotkey its text
/// reads as, to the action it was stored under, when that hotkey can be
/// bound, and otherwise binds nothing.
pub proof fn law_a_row_keeps_its_action(a: Action, text: Seq<char>)
    ensures
        bindings_spec(seq![(a, text)]) == match parse_spec(text) {
            Some(h) => if h.0.any_spec() && !h.0.steals_typing_spec() {
                seq![(a, h)]
            } else {
                Seq::empty()
            },
            None => Seq::empty(),
        },
{
    let s = seq![(a, text)];
    assert(s.drop_last() =~= Seq::<(Action, Seq<char>)>::empty());
    assert(bindings_spec(s.drop_last()) == Seq::<(Action, (Mods, Seq<char>))>::empty());
    assert(s.last() == (a, text));
    assert(Seq::<(Action, (Mods, Seq<char>))>::empty().push((a, parse_spec(text)->0)) =~= seq![
        (a, parse_spec(text)->0),
    ]);
}

} // verus!
