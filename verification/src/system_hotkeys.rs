//! The screenshot shortcuts macOS itself holds, read from the text that
//! `defaults read com.apple.symbolichotkeys AppleSymbolicHotKeys` prints.
//!
//! These are the only conflicts that can be detected: an application holding
//! the same keys is invisible, and pressing them runs both.
//!
//! Also here: how a hotkey maps onto the physical key code and registration
//! id the macOS hotkey registration works in.

use vstd::prelude::*;

use global_hotkey::hotkey::Code;

use crate::hotkey::{key_spec, Hotkey, Mods};
use crate::text::{
    chars_of, lines_of, lines_spec, parse_i64_chars, parse_signed, parse_unsigned,
    parse_unsigned_chars, split, split_chars, starts_with, starts_with_text, trim, trim_chars,
    trim_end_char, trim_end_chars, views,
};

verus! {

/// Apple's screenshot shortcuts, by the id they carry in the preference file.
pub const SCREENSHOT_IDS: [u32; 5] = [28, 29, 30, 31, 184];

/// `NSEvent.ModifierFlags` bits, which is what the file stores.
pub const NS_SHIFT: i64 = 0x2_0000;
pub const NS_CONTROL: i64 = 0x4_0000;
pub const NS_OPTION: i64 = 0x8_0000;
pub const NS_COMMAND: i64 = 0x10_0000;

/// Carbon virtual keycodes for every key a hotkey can name.
pub const KEYCODES: [(i64, &'static str); 48] = [
    (0, "A"), (1, "S"), (2, "D"), (3, "F"), (4, "H"), (5, "G"), (6, "Z"), (7, "X"),
    (8, "C"), (9, "V"), (11, "B"), (12, "Q"), (13, "W"), (14, "E"), (15, "R"),
    (16, "Y"), (17, "T"), (18, "1"), (19, "2"), (20, "3"), (21, "4"), (22, "6"),
    (23, "5"), (25, "9"), (26, "7"), (28, "8"), (29, "0"), (31, "O"), (32, "U"),
    (34, "I"), (35, "P"), (37, "L"), (38, "J"), (40, "K"), (45, "N"), (46, "M"),
    (96, "F5"), (97, "F6"), (98, "F7"), (99, "F3"), (100, "F8"), (101, "F9"),
    (103, "F11"), (109, "F10"), (111, "F12"), (118, "F4"), (120, "F2"), (122, "F1"),
];

/// The key a keycode stands for: the first entry of the table with it.
pub open spec fn keycode_key(table: Seq<(i64, &str)>, code: int) -> Option<Seq<char>>
    decreases table.len(),
{
    if table.len() == 0 {
        None
    } else if table[0].0 == code {
        Some(table[0].1@)
    } else {
        keycode_key(table.drop_first(), code)
    }
}

pub open spec fn mask_mods(mask: i64) -> Mods {
    Mods {
        cmd: mask & NS_COMMAND != 0,
        ctrl: mask & NS_CONTROL != 0,
        alt: mask & NS_OPTION != 0,
        shift: mask & NS_SHIFT != 0,
    }
}

/// The hotkey an entry's keycode and modifier mask describe.
pub open spec fn from_parameters_spec(keycode: int, mask: i64) -> Option<(Mods, Seq<char>)> {
    match keycode_key(KEYCODES@, keycode) {
        Some(key) => match key_spec(key) {
            Some(k) => Some((mask_mods(mask), k)),
            None => None,
        },
        None => None,
    }
}

pub open spec fn opt_view(h: Option<Hotkey>) -> Option<(Mods, Seq<char>)> {
    match h {
        Some(x) => Some(x@),
        None => None,
    }
}

pub fn from_parameters(keycode: i64, mask: i64) -> (r: Option<Hotkey>)
    ensures
        opt_view(r) == from_parameters_spec(keycode as int, mask),
{
    let mut i: usize = 0;
    assert(KEYCODES@.skip(0) =~= KEYCODES@);
    while i < KEYCODES.len()
        invariant
            i <= 48,
            keycode_key(KEYCODES@, keycode as int) == keycode_key(KEYCODES@.skip(i as int), keycode as int),
        decreases 48 - i,
    {
        let (code, key) = KEYCODES[i];
        assert(KEYCODES@.skip(i as int)[0] == KEYCODES@[i as int]);
        if code == keycode {
            let mods = Mods {
                cmd: mask & NS_COMMAND != 0,
                ctrl: mask & NS_CONTROL != 0,
                alt: mask & NS_OPTION != 0,
                shift: mask & NS_SHIFT != 0,
            };
            return Hotkey::new(mods, key);
        }
        assert(KEYCODES@.skip(i as int).drop_first() =~= KEYCODES@.skip(i + 1));
        i = i + 1;
    }
    None
}

/// What has been read of the file so far.
pub struct Reading {
    pub out: Seq<((Mods, Seq<char>), bool)>,
    /// Inside one of the screenshot entries.
    pub wanted: bool,
    pub enabled: Option<int>,
    pub params: Seq<int>,
    pub in_params: bool,
}

/// The identifier a line opens an entry with, as in `28 =     {`.
pub open spec fn entry_id(line: Seq<char>) -> Option<nat> {
    if line.len() > 0 && line.last() == '{' {
        parse_unsigned(trim(split(line, '=')[0]), u32::MAX as nat)
    } else {
        None
    }
}

pub open spec fn i64_value(s: Seq<char>) -> Option<int> {
    parse_signed(s, 0x8000_0000_0000_0000nat)
}

/// One line of the file read into the state. Anything unrecognised or short
/// is skipped rather than fatal.
pub open spec fn read_line(st: Reading, raw: Seq<char>) -> Reading {
    let line = trim(raw);
    match entry_id(line) {
        Some(id) => Reading {
            wanted: SCREENSHOT_IDS@.contains(id as u32),
            enabled: None,
            params: Seq::empty(),
            in_params: false,
            ..st
        },
        None => if !st.wanted {
            st
        } else if starts_with(line, "enabled = "@) {
            Reading { enabled: i64_value(trim(trim_end_char(line.skip(10), ';'))), ..st }
        } else if starts_with(line, "parameters"@) {
            Reading { in_params: true, params: Seq::empty(), ..st }
        } else if st.in_params && starts_with(line, ")"@) {
            let closed = Reading { in_params: false, ..st };
            match st.enabled {
                Some(on) => if st.params.len() == 3 {
                    match from_parameters_spec(st.params[1], st.params[2] as i64) {
                        Some(h) => Reading { out: st.out.push((h, on != 0)), ..closed },
                        None => closed,
                    }
                } else {
                    closed
                },
                None => closed,
            }
        } else if st.in_params {
            match i64_value(trim(trim_end_char(line, ','))) {
                Some(n) => Reading { params: st.params.push(n), ..st },
                None => st,
            }
        } else {
            st
        },
    }
}

pub open spec fn read_lines(ls: Seq<Seq<char>>) -> Reading
    decreases ls.len(),
{
    if ls.len() == 0 {
        Reading { out: Seq::empty(), wanted: false, enabled: None, params: Seq::empty(), in_params: false }
    } else {
        read_line(read_lines(ls.drop_last()), ls.last())
    }
}

/// The screenshot entries of the file, each with whether it is switched on.
pub open spec fn parse_symbolic_spec(text: Seq<char>) -> Seq<((Mods, Seq<char>), bool)> {
    read_lines(lines_spec(text)).out
}

pub open spec fn entry_views(v: Seq<(Hotkey, bool)>) -> Seq<((Mods, Seq<char>), bool)> {
    v.map_values(|e: (Hotkey, bool)| (e.0@, e.1))
}

pub open spec fn i64_views(v: Seq<i64>) -> Seq<int> {
    v.map_values(|x: i64| x as int)
}

fn entry_id_exec(line: &[char]) -> (r: Option<u32>)
    ensures
        match r {
            Some(id) => entry_id(line@) == Some(id as nat),
            None => entry_id(line@) is None,
        },
{
    if line.len() == 0 || line[line.len() - 1] != '{' {
        return None;
    }
    let pieces = split_chars(line, '=');
    proof {
        crate::text::lemma_split_nonempty(line@, '=');
    }
    assert(pieces@[0]@ == split(line@, '=')[0]);
    let head = trim_chars(pieces[0].as_slice());
    match parse_unsigned_chars(head.as_slice(), u32::MAX as u64) {
        Some(v) => Some(v as u32),
        None => None,
    }
}

fn is_screenshot_id(id: u32) -> (r: bool)
    ensures
        r == SCREENSHOT_IDS@.contains(id),
{
    let mut i: usize = 0;
    while i < 5
        invariant
            i <= 5,
            forall|j: int| 0 <= j < i ==> SCREENSHOT_IDS@[j] != id,
        decreases 5 - i,
    {
        if SCREENSHOT_IDS[i] == id {
            return true;
        }
        i = i + 1;
    }
    false
}

/// The screenshot entries of the file, paired with whether they are on.
pub fn parse_symbolic_hotkeys(text: &str) -> (r: Vec<(Hotkey, bool)>)
    ensures
        entry_views(r@) == parse_symbolic_spec(text@),
{
    let lines = lines_of(text);
    let ghost ls = lines_spec(text@);
    let mut out: Vec<(Hotkey, bool)> = Vec::new();
    let mut wanted = false;
    let mut enabled: Option<i64> = None;
    let mut params: Vec<i64> = Vec::new();
    let mut in_params = false;
    let mut i: usize = 0;
    assert(ls.take(0) =~= Seq::<Seq<char>>::empty());
    while i < lines.len()
        invariant
            i <= lines.len(),
            views(lines@) == ls,
            ({
                let st = read_lines(ls.take(i as int));
                &&& st.out == entry_views(out@)
                &&& st.wanted == wanted
                &&& st.enabled == (match enabled {
                    Some(e) => Some(e as int),
                    None => None::<int>,
                })
                &&& st.params == i64_views(params@)
                &&& st.in_params == in_params
            }),
        decreases lines.len() - i,
    {
        proof {
            assert(ls.take(i + 1).drop_last() =~= ls.take(i as int));
            assert(ls.take(i + 1).last() == lines@[i as int]@);
        }
        let ghost st = read_lines(ls.take(i as int));
        let line = trim_chars(lines[i].as_slice());
        match entry_id_exec(line.as_slice()) {
            Some(id) => {
                wanted = is_screenshot_id(id);
                enabled = None;
                params = Vec::new();
                in_params = false;
                assert(i64_views(params@) =~= Seq::<int>::empty());
            },
            None => {
                if !wanted {
                } else if starts_with_text(line.as_slice(), "enabled = ") {
                    proof {
                        reveal_strlit("enabled = ");
                    }
                    let rest = crate::text::slice_of(line.as_slice(), 10, line.len());
                    assert(rest@ =~= line@.skip(10));
                    let value = trim_chars(trim_end_chars(rest.as_slice(), ';').as_slice());
                    enabled = parse_i64_chars(value.as_slice());
                } else if starts_with_text(line.as_slice(), "parameters") {
                    in_params = true;
                    params = Vec::new();
                    assert(i64_views(params@) =~= Seq::<int>::empty());
                } else if in_params && starts_with_text(line.as_slice(), ")") {
                    in_params = false;
                    match enabled {
                        Some(on) => {
                            if params.len() == 3 {
                                assert(i64_views(params@)[1] == params@[1] as int);
                                assert(i64_views(params@)[2] == params@[2] as int);
                                match from_parameters(params[1], params[2]) {
                                    Some(h) => {
                                        let ghost before = entry_views(out@);
                                        let ghost hv = h@;
                                        out.push((h, on != 0));
                                        assert(entry_views(out@) =~= before.push((hv, on != 0)));
                                    },
                                    None => {},
                                }
                            }
                        },
                        None => {},
                    }
                } else if in_params {
                    let value = trim_chars(trim_end_chars(line.as_slice(), ',').as_slice());
                    match parse_i64_chars(value.as_slice()) {
                        Some(n) => {
                            let ghost before = i64_views(params@);
                            params.push(n);
                            assert(i64_views(params@) =~= before.push(n as int));
                        },
                        None => {},
                    }
                }
            },
        }
        i = i + 1;
    }
    assert(ls.take(lines.len() as int) =~= ls);
    out
}

/// The switched-on entries only.
pub open spec fn enabled_only(es: Seq<((Mods, Seq<char>), bool)>) -> Seq<(Mods, Seq<char>)>
    decreases es.len(),
{
    if es.len() == 0 {
        Seq::empty()
    } else {
        let init = enabled_only(es.drop_last());
        if es.last().1 { init.push(es.last().0) } else { init }
    }
}

/// Apple's screenshot shortcuts that are switched on, read from the text of
/// the preference file.
pub fn system_bindings(text: &str) -> (r: Vec<Hotkey>)
    ensures
        crate::hotkey::hotkey_views(r@) == enabled_only(parse_symbolic_spec(text@)),
{
    let all = parse_symbolic_hotkeys(text);
    let ghost es = entry_views(all@);
    let mut out: Vec<Hotkey> = Vec::new();
    let mut i: usize = 0;
    assert(es.take(0) =~= Seq::<((Mods, Seq<char>), bool)>::empty());
    while i < all.len()
        invariant
            i <= all.len(),
            es == entry_views(all@),
            crate::hotkey::hotkey_views(out@) == enabled_only(es.take(i as int)),
        decreases all.len() - i,
    {
        let (h, on) = &all[i];
        assert(es[i as int] == (h@, *on));
        assert(es.take(i + 1).drop_last() =~= es.take(i as int));
        assert(es.take(i + 1).last() == es[i as int]);
        if *on {
            let ghost before = crate::hotkey::hotkey_views(out@);
            let d = h.duplicate();
            out.push(d);
            assert(crate::hotkey::hotkey_views(out@) =~= before.push(h@));
        }
        i = i + 1;
    }
    assert(es.take(all.len() as int) =~= es);
    out
}


/// The name of the physical key a hotkey's key stands for, as the hotkey
/// registration library spells key codes: `Digit4`, `KeyA`, `F5`.
pub open spec fn code_name_spec(key: Seq<char>) -> Option<Seq<char>> {
    if key.len() == 1 && crate::text::is_digit(key[0]) {
        Some("Digit"@ + key)
    } else if key.len() == 1 && crate::text::is_upper(key[0]) {
        Some("Key"@ + key)
    } else if key.len() > 0 && key[0] == 'F' {
        Some(key)
    } else {
        None
    }
}

pub fn code_name(key: &str) -> (r: Option<String>)
    ensures
        crate::capture::opt_string(r) == code_name_spec(key@),
{
    let k = chars_of(key);
    let mut v: Vec<char> = Vec::new();
    if k.len() == 1 && '0' <= k[0] && k[0] <= '9' {
        crate::text::push_str(&mut v, "Digit");
    } else if k.len() == 1 && 'A' <= k[0] && k[0] <= 'Z' {
        crate::text::push_str(&mut v, "Key");
    } else if k.len() > 0 && k[0] == 'F' {
    } else {
        return None;
    }
    crate::text::push_all(&mut v, k.as_slice());
    Some(crate::text::string_of(v.as_slice()))
}

/// What `Code::from_str` makes of a key code's name: the physical key it
/// names, by its number in `keyboard_types::Code`, or nothing.
pub uninterp spec fn code_number(name: Seq<char>) -> Option<u32>;

/// `Code::from_str`, the key's number taken from the code it parses to.
#[verifier::external_body]
fn parse_code(name: &str) -> (r: Option<u32>)
    ensures
        r == code_number(name@),
{
    match name.parse::<Code>() {
        Ok(code) => Some(code as u32),
        Err(_) => None,
    }
}

/// The physical key a hotkey's key names, by its number. A code names a
/// **physical position**, not the character printed on the cap: `Cmd+Shift+4`
/// means the key where a US keyboard has `4`, which is what every screenshot
/// tool on the platform means by it.
pub open spec fn code_for_spec(key: Seq<char>) -> Option<u32> {
    match code_name_spec(key) {
        Some(n) => code_number(n),
        None => None,
    }
}

pub fn code_for(key: &str) -> (r: Option<u32>)
    ensures
        r == code_for_spec(key@),
{
    match code_name(key) {
        Some(n) => parse_code(n.as_str()),
        None => None,
    }
}

/// The modifier bits `global_hotkey` registers a combination with: ⌘ as
/// META, Control, Option as ALT, and Shift.
pub open spec fn modifier_bits(m: Mods) -> u32 {
    ((if m.cmd { 0x40int } else { 0 }) + (if m.ctrl { 0x8int } else { 0 }) + (if m.alt {
        0x1int
    } else {
        0
    }) + (if m.shift { 0x200int } else { 0 })) as u32
}

/// The id the registration of a hotkey carries in its events: its modifier
/// bits above its key's number, as `HotKey::new` makes it.
pub open spec fn native_id_spec(h: (Mods, Seq<char>)) -> Option<u32> {
    match code_for_spec(h.1) {
        Some(k) => Some((modifier_bits(h.0) << 16u32) | k),
        None => None,
    }
}

/// The id a registration of `h` will carry, or `None` when its key has no
/// physical code to register.
pub fn native_id(h: &Hotkey) -> (r: Option<u32>)
    ensures
        r == native_id_spec(h@),
{
    let m = h.modifiers();
    let mut bits: u32 = 0;
    if m.cmd {
        bits = bits + 0x40;
    }
    if m.ctrl {
        bits = bits + 0x8;
    }
    if m.alt {
        bits = bits + 0x1;
    }
    if m.shift {
        bits = bits + 0x200;
    }
    match code_for(h.key()) {
        Some(k) => Some((bits << 16u32) | k),
        None => None,
    }
}

} // verus!
