//! The editor's keyboard shortcuts: which key events make a shortcut, and
//! what one frame of them does to the editor.
//!
//! Modifiers are read off each key event, never off the frame's final state:
//! a quick tap delivers the press and the release in one frame, and by the
//! end of it the modifier has already been let go.

use vstd::prelude::*;

use crate::annotate::{Tool, TOOLS};
use crate::zoom::{clamp_spec, first_above, last_below, ladder, Zoom};

verus! {

/// The keys the shortcuts are on.
#[derive(Clone, Copy, PartialEq, Eq, Debug, Structural)]
pub enum Key {
    C,
    S,
    Z,
    Plus,
    Equals,
    Minus,
    Num0,
    Num1,
    Num2,
    Num3,
    Num4,
    Num5,
    Num6,
    Backtick,
    Escape,
    Enter,
    Space,
    Delete,
    Backspace,
    /// Any other key.
    Other,
}

/// The modifiers held with a key; `command` is the platform's command key
/// (⌘ on macOS, Ctrl elsewhere), `mac_cmd` the ⌘ key itself.
#[derive(Clone, Copy, PartialEq, Eq, Debug, Structural)]
pub struct KeyMods {
    pub alt: bool,
    pub ctrl: bool,
    pub shift: bool,
    pub mac_cmd: bool,
    pub command: bool,
}

/// One input event, as far as the shortcuts care.
#[derive(Clone, Copy, PartialEq, Eq, Debug, Structural)]
pub enum InputEvent {
    /// A key went down (`pressed`) or up, with the modifiers it was read with.
    Key { key: Key, pressed: bool, mods: KeyMods },
    /// The platform's own copy chord, which on macOS arrives as this alone.
    Copy,
    Other,
}

/// Both the command key and control work as the editor's modifier, on every
/// platform, so printed labels are true without taking a key away.
pub fn editor_modifier(m: &KeyMods) -> (r: bool)
    ensures
        r == (m.command || m.ctrl),
{
    m.command || m.ctrl
}

/// What to call the editor's modifier on a label: the key a person on the
/// platform reaches for, spelled out rather than drawn.
pub fn mod_label(mac: bool) -> (r: &'static str)
    ensures
        mac ==> r@ == "Cmd"@,
        !mac ==> r@ == "Ctrl"@,
{
    if mac {
        "Cmd"
    } else {
        "Ctrl"
    }
}

/// `e` is `key` going down with the editor's modifier held, and with shift
/// as asked (`None`: either way).
pub open spec fn is_shortcut(e: InputEvent, key: Key, shift: Option<bool>) -> bool {
    match e {
        InputEvent::Key { key: k, pressed, mods } => pressed && k == key && (mods.command
            || mods.ctrl) && match shift {
            Some(want) => mods.shift == want,
            None => true,
        },
        _ => false,
    }
}

/// `e` is `key` going down with no modifier at all.
pub open spec fn is_plain(e: InputEvent, key: Key) -> bool {
    match e {
        InputEvent::Key { key: k, pressed, mods } => pressed && k == key && !mods.alt && !mods.ctrl
            && !mods.shift && !mods.mac_cmd && !mods.command,
        _ => false,
    }
}

pub open spec fn shortcut_spec(events: Seq<InputEvent>, key: Key, shift: Option<bool>) -> bool {
    exists|i: int| 0 <= i < events.len() && is_shortcut(#[trigger] events[i], key, shift)
}

pub open spec fn plain_spec(events: Seq<InputEvent>, key: Key) -> bool {
    exists|i: int| 0 <= i < events.len() && is_plain(#[trigger] events[i], key)
}

pub open spec fn copy_spec(events: Seq<InputEvent>) -> bool {
    shortcut_spec(events, Key::C, None) || exists|i: int|
        0 <= i < events.len() && #[trigger] events[i] == InputEvent::Copy
}

/// True if `key` went down this frame with the editor's modifier held, and
/// with shift in the state asked for (`None` when shift does not matter).
pub fn shortcut(events: &[InputEvent], key: Key, shift: Option<bool>) -> (r: bool)
    ensures
        r == shortcut_spec(events@, key, shift),
{
    let mut i: usize = 0;
    while i < events.len()
        invariant
            i <= events.len(),
            forall|j: int| 0 <= j < i ==> !is_shortcut(#[trigger] events@[j], key, shift),
        decreases events.len() - i,
    {
        if let InputEvent::Key { key: k, pressed, mods } = events[i] {
            let shift_ok = match shift {
                Some(want) => mods.shift == want,
                None => true,
            };
            if pressed && k == key && (mods.command || mods.ctrl) && shift_ok {
                assert(is_shortcut(events@[i as int], key, shift));
                return true;
            }
        }
        i = i + 1;
    }
    false
}

/// True if `key` went down this frame with no modifier held. Tool keys
/// insist on that: the command key with a digit is a zoom shortcut.
pub fn plain_key(events: &[InputEvent], key: Key) -> (r: bool)
    ensures
        r == plain_spec(events@, key),
{
    let mut i: usize = 0;
    while i < events.len()
        invariant
            i <= events.len(),
            forall|j: int| 0 <= j < i ==> !is_plain(#[trigger] events@[j], key),
        decreases events.len() - i,
    {
        if let InputEvent::Key { key: k, pressed, mods } = events[i] {
            if pressed && k == key && !mods.alt && !mods.ctrl && !mods.shift && !mods.mac_cmd
                && !mods.command {
                assert(is_plain(events@[i as int], key));
                return true;
            }
        }
        i = i + 1;
    }
    false
}

/// True if the frame asked for a copy, however the platform spelled it.
pub fn copy_requested(events: &[InputEvent]) -> (r: bool)
    ensures
        r == copy_spec(events@),
{
    if shortcut(events, Key::C, None) {
        return true;
    }
    let mut i: usize = 0;
    while i < events.len()
        invariant
            i <= events.len(),
            forall|j: int| 0 <= j < i ==> #[trigger] events@[j] != InputEvent::Copy,
        decreases events.len() - i,
    {
        if let InputEvent::Copy = events[i] {
            return true;
        }
        i = i + 1;
    }
    false
}

/// The key that types a tool's label.
pub open spec fn tool_key_spec(label: char) -> Option<Key> {
    if label == '1' {
        Some(Key::Num1)
    } else if label == '2' {
        Some(Key::Num2)
    } else if label == '3' {
        Some(Key::Num3)
    } else if label == '4' {
        Some(Key::Num4)
    } else if label == '5' {
        Some(Key::Num5)
    } else if label == '6' {
        Some(Key::Num6)
    } else if label == '`' {
        Some(Key::Backtick)
    } else {
        None
    }
}

/// The key that types `label`: the tool buttons print these, so the two
/// must agree.
pub fn tool_key(label: char) -> (r: Option<Key>)
    ensures
        r == tool_key_spec(label),
{
    match label {
        '1' => Some(Key::Num1),
        '2' => Some(Key::Num2),
        '3' => Some(Key::Num3),
        '4' => Some(Key::Num4),
        '5' => Some(Key::Num5),
        '6' => Some(Key::Num6),
        '`' => Some(Key::Backtick),
        _ => None,
    }
}

/// The tools in the order the pill offers them, with their keys.
pub open spec fn tool_row() -> Seq<(Tool, char)> {
    seq![
        (Tool::Arrow, '1'),
        (Tool::Text, '2'),
        (Tool::Rect, '3'),
        (Tool::Ellipse, '4'),
        (Tool::Blur, '5'),
        (Tool::Highlight, '6'),
        (Tool::Select, '`'),
    ]
}

/// The first tool in `row` whose key went down with no modifier.
pub open spec fn picked_from(row: Seq<(Tool, char)>, events: Seq<InputEvent>) -> Option<Tool>
    decreases row.len(),
{
    if row.len() == 0 {
        None
    } else if tool_key_spec(row[0].1) matches Some(k) && plain_spec(events, k) {
        Some(row[0].0)
    } else {
        picked_from(row.drop_first(), events)
    }
}

/// The tool a tool key picked this frame, if any; the first in the pill's
/// order wins.
pub fn picked_tool(events: &[InputEvent]) -> (r: Option<Tool>)
    ensures
        r == picked_from(tool_row(), events@),
{
    let row = TOOLS;
    proof {
        assert(row@ =~= tool_row());
        assert(tool_row().skip(0) =~= tool_row());
    }
    let mut i: usize = 0;
    while i < 7
        invariant
            i <= 7,
            row@ == tool_row(),
            picked_from(tool_row(), events@) == picked_from(tool_row().skip(i as int), events@),
        decreases 7 - i,
    {
        proof {
            assert(tool_row().skip(i as int).drop_first() =~= tool_row().skip(i as int + 1));
            assert(tool_row().skip(i as int)[0] == row@[i as int]);
        }
        let (tool, label) = row[i];
        if let Some(k) = tool_key(label) {
            if plain_key(events, k) {
                return Some(tool);
            }
        }
        i = i + 1;
    }
    proof {
        assert(tool_row().skip(7) =~= Seq::<(Tool, char)>::empty());
    }
    None
}

/// Every label the pill prints maps to a real key, each to its own: a button
/// that says `3` is a promise that pressing 3 picks its tool, and exactly
/// that one.
pub proof fn law_every_pill_label_has_its_own_key()
    ensures
        forall|i: int| 0 <= i < 7 ==> #[trigger] tool_key_spec(tool_row()[i].1) is Some,
        forall|i: int, j: int|
            0 <= i < j < 7 ==> #[trigger] tool_key_spec(tool_row()[i].1) != #[trigger] tool_key_spec(
                tool_row()[j].1,
            ),
        tool_row() == TOOLS@,
{
    assert(tool_row() =~= TOOLS@);
}

/// Which screen the editor is on.
#[derive(Clone, Copy, PartialEq, Eq, Debug, Structural)]
pub enum Mode {
    Select,
    Edit,
}

/// How the selection screen reads the pointer.
#[derive(Clone, Copy, PartialEq, Eq, Debug, Structural)]
pub enum PickMode {
    Region,
    Window,
}

/// What the frame's plain key presses were, as the toolkit reports them.
#[derive(Clone, Copy, PartialEq, Eq, Debug, Structural)]
pub struct Pressed {
    pub space: bool,
    /// Delete or Backspace.
    pub delete: bool,
    pub escape: bool,
    pub enter: bool,
}

/// The part of the editor the shortcuts read.
#[derive(Clone, Copy, PartialEq, Eq, Debug, Structural)]
pub struct EditorState {
    pub mode: Mode,
    /// A label is being typed.
    pub typing: bool,
    pub tool: Tool,
    /// An annotation is selected.
    pub selected_layer: bool,
    /// The fullscreen region picker is up.
    pub picking_fullscreen: bool,
    /// Windows could be listed, so there is a window mode to switch to.
    pub have_windows: bool,
    pub pick_mode: PickMode,
    pub zoom: Zoom,
    /// The zoom the last frame was actually drawn at, in percent.
    pub shown_zoom: u32,
}

/// What one frame of shortcuts does.
#[derive(Clone, Copy, PartialEq, Eq, Debug, Structural)]
pub struct Reaction {
    pub zoom: Zoom,
    /// The zoom was set outright, so the picture goes back to the centre.
    pub recentre: bool,
    pub tool: Tool,
    pub pick_mode: PickMode,
    /// The pick mode changed, so the selection so far is dropped.
    pub clear_selection: bool,
    pub copy_and_close: bool,
    pub save: bool,
    pub undo: bool,
    pub redo: bool,
    pub delete_layer: bool,
    /// Close the picker window.
    pub close: bool,
    /// Take the selection as it is.
    pub finish_selection: bool,
}

/// One step along the zoom ladder from `z`, as `Zoom::stepped` takes it.
pub open spec fn step_spec(z: Zoom, shown: u32, up: bool) -> Zoom {
    let base = z.base_spec(shown);
    let next = if up {
        first_above(ladder(), base)
    } else {
        last_below(ladder(), base)
    };
    Zoom::Percent(
        clamp_spec(
            match next {
                Some(s) => s,
                None => base,
            },
            10,
            1600,
        ),
    )
}

/// The zoom keys, only while the editor is up and nothing is being typed:
/// in, out, fit and actual size, in that order.
pub open spec fn zoomed(ed: EditorState, events: Seq<InputEvent>) -> (Zoom, bool) {
    if ed.mode == Mode::Edit && !ed.typing {
        let z1 = if shortcut_spec(events, Key::Plus, None) || shortcut_spec(events, Key::Equals, None) {
            step_spec(ed.zoom, ed.shown_zoom, true)
        } else {
            ed.zoom
        };
        let z2 = if shortcut_spec(events, Key::Minus, None) {
            step_spec(z1, ed.shown_zoom, false)
        } else {
            z1
        };
        let fit = shortcut_spec(events, Key::Num0, None);
        let actual = shortcut_spec(events, Key::Num1, None);
        let z3 = if fit { Zoom::Fit } else { z2 };
        let z4 = if actual { Zoom::Percent(100) } else { z3 };
        (z4, fit || actual)
    } else {
        (ed.zoom, false)
    }
}

/// The tool keys, only while the editor is up and nothing is being typed; a
/// plain Escape goes back to Select.
pub open spec fn tooled(ed: EditorState, events: Seq<InputEvent>) -> Tool {
    if ed.mode == Mode::Edit && !ed.typing {
        let t1 = match picked_from(tool_row(), events) {
            Some(t) => t,
            None => ed.tool,
        };
        if plain_spec(events, Key::Escape) {
            Tool::Select
        } else {
            t1
        }
    } else {
        ed.tool
    }
}

/// What one frame of input does to the editor.
pub open spec fn react_spec(ed: EditorState, events: Seq<InputEvent>, p: Pressed) -> Reaction {
    let (zoom, recentre) = zoomed(ed, events);
    let tool = tooled(ed, events);
    let edit = ed.mode == Mode::Edit;
    let picking = !edit && ed.picking_fullscreen;
    let toggle = !edit && p.space && ed.have_windows;
    Reaction {
        zoom,
        recentre,
        tool,
        pick_mode: if toggle {
            match ed.pick_mode {
                PickMode::Region => PickMode::Window,
                PickMode::Window => PickMode::Region,
            }
        } else {
            ed.pick_mode
        },
        clear_selection: toggle,
        copy_and_close: edit && copy_spec(events) && !ed.typing,
        save: edit && shortcut_spec(events, Key::S, None),
        undo: edit && shortcut_spec(events, Key::Z, Some(false)) && !ed.typing,
        redo: edit && shortcut_spec(events, Key::Z, Some(true)) && !ed.typing,
        delete_layer: edit && p.delete && ed.selected_layer && tool == Tool::Select,
        close: picking && p.escape,
        finish_selection: picking && p.enter,
    }
}

/// What one frame of keys does to the editor: zooming and picking tools
/// while the editor is up and no label is being typed, copying, saving,
/// undoing and deleting in the editor, and on the selection screen closing,
/// finishing, or switching between region and window picking.
pub fn react(ed: EditorState, events: &[InputEvent], p: Pressed) -> (r: Reaction)
    ensures
        r == react_spec(ed, events@, p),
{
    let edit = ed.mode == Mode::Edit;
    let mut zoom = ed.zoom;
    let mut recentre = false;
    let mut tool = ed.tool;
    if edit && !ed.typing {
        if shortcut(events, Key::Plus, None) || shortcut(events, Key::Equals, None) {
            zoom = zoom.stepped(ed.shown_zoom, true);
        }
        if shortcut(events, Key::Minus, None) {
            zoom = zoom.stepped(ed.shown_zoom, false);
        }
        if shortcut(events, Key::Num0, None) {
            zoom = Zoom::Fit;
            recentre = true;
        }
        if shortcut(events, Key::Num1, None) {
            zoom = Zoom::Percent(100);
            recentre = true;
        }
        if let Some(t) = picked_tool(events) {
            tool = t;
        }
        if plain_key(events, Key::Escape) {
            tool = Tool::Select;
        }
    }
    let picking = !edit && ed.picking_fullscreen;
    let toggle = !edit && p.space && ed.have_windows;
    let pick_mode = if toggle {
        match ed.pick_mode {
            PickMode::Region => PickMode::Window,
            PickMode::Window => PickMode::Region,
        }
    } else {
        ed.pick_mode
    };
    let copy = copy_requested(events);
    let save = shortcut(events, Key::S, None);
    let undo = shortcut(events, Key::Z, Some(false));
    let redo = shortcut(events, Key::Z, Some(true));
    let is_select = match tool {
        Tool::Select => true,
        _ => false,
    };
    Reaction {
        zoom,
        recentre,
        tool,
        pick_mode,
        clear_selection: toggle,
        copy_and_close: edit && copy && !ed.typing,
        save: edit && save,
        undo: edit && undo && !ed.typing,
        redo: edit && redo && !ed.typing,
        delete_layer: edit && p.delete && ed.selected_layer && is_select,
        close: picking && p.escape,
        finish_selection: picking && p.enter,
    }
}

/// A key pressed without the editor's modifier is never a shortcut, so a
/// bare C typed anywhere neither copies nor closes anything.
pub proof fn law_a_bare_key_is_no_shortcut(events: Seq<InputEvent>, key: Key, shift: Option<bool>)
    requires
        forall|i: int|
            0 <= i < events.len() ==> (#[trigger] events[i] matches InputEvent::Key { mods, .. }
                ==> !mods.command && !mods.ctrl),
    ensures
        !shortcut_spec(events, key, shift),
{
    if shortcut_spec(events, key, shift) {
        let i = choose|i: int| 0 <= i < events.len() && is_shortcut(#[trigger] events[i], key, shift);
        assert(events[i] matches InputEvent::Key { mods, .. } ==> !mods.command && !mods.ctrl);
    }
}

/// While a label is being typed the keys belong to it: nothing zooms,
/// changes tool, copies and closes, undoes or redoes.
pub proof fn law_typing_is_never_interrupted(ed: EditorState, events: Seq<InputEvent>, p: Pressed)
    requires
        ed.typing,
    ensures
        ({
            let r = react_spec(ed, events, p);
            &&& r.zoom == ed.zoom
            &&& !r.recentre
            &&& r.tool == ed.tool
            &&& !r.copy_and_close
            &&& !r.undo
            &&& !r.redo
        }),
{
}

/// One key event never both undoes and redoes: shift tells them apart.
pub proof fn law_undo_and_redo_exclude_each_other(e: InputEvent)
    ensures
        !(is_shortcut(e, Key::Z, Some(false)) && is_shortcut(e, Key::Z, Some(true))),
{
}

/// On a rising ladder, the first rung above `base` is a rung, lies above
/// `base`, and no rung lies between them; there is none when no rung lies
/// above `base`.
proof fn lemma_first_above(s: Seq<u32>, base: u32)
    requires
        forall|i: int, j: int| 0 <= i < j < s.len() ==> s[i] < s[j],
    ensures
        match first_above(s, base) {
            Some(x) => s.contains(x) && x > base && forall|k: int|
                0 <= k < s.len() && s[k] > base ==> x <= #[trigger] s[k],
            None => forall|k: int| 0 <= k < s.len() ==> #[trigger] s[k] <= base,
        },
    decreases s.len(),
{
    if s.len() > 0 {
        let t = s.drop_first();
        lemma_first_above(t, base);
        if s[0] > base {
            assert(s.contains(s[0])) by {
                assert(s[0] == s[0]);
            }
            assert forall|k: int| 0 <= k < s.len() && s[k] > base implies s[0] <= #[trigger] s[k] by {
                if k > 0 {
                    assert(s[0] < s[k]);
                }
            }
        } else {
            assert forall|k: int| 1 <= k < s.len() implies #[trigger] s[k] == t[k - 1] by {}
            match first_above(t, base) {
                Some(x) => {
                    let j = choose|j: int| 0 <= j < t.len() && t[j] == x;
                    assert(s[j + 1] == x);
                    assert forall|k: int| 0 <= k < s.len() && s[k] > base implies x <= #[trigger] s[k] by {
                        if k > 0 {
                            assert(s[k] == t[k - 1]);
                        }
                    }
                },
                None => {
                    assert forall|k: int| 0 <= k < s.len() implies #[trigger] s[k] <= base by {
                        if k > 0 {
                            assert(s[k] == t[k - 1]);
                        }
                    }
                },
            }
        }
    }
}

/// The editor's modifier with `=` zooms in exactly as with `+`, since `+`
/// shares its key with `=` on most keyboards: in the editor, with no label
/// being typed, either goes one rung up the zoom ladder from the current
/// zoom (the rung just above it; past the top rung it stays where it is),
/// and leaves the picture where it was.
pub proof fn law_equals_zooms_in_like_plus(ed: EditorState, m: KeyMods, p: Pressed)
    requires
        ed.mode == Mode::Edit,
        !ed.typing,
        m.command || m.ctrl,
    ensures
        ({
            let eq = react_spec(ed, seq![InputEvent::Key { key: Key::Equals, pressed: true, mods: m }], p);
            let plus = react_spec(ed, seq![InputEvent::Key { key: Key::Plus, pressed: true, mods: m }], p);
            let base = ed.zoom.base_spec(ed.shown_zoom);
            &&& eq.zoom == plus.zoom
            &&& !eq.recentre
            &&& eq.zoom matches Zoom::Percent(z) && {
                if base < 800 {
                    &&& ladder().contains(z)
                    &&& z > base
                    &&& forall|k: int| 0 <= k < ladder().len() && ladder()[k] > base ==> z <= #[trigger] ladder()[k]
                } else {
                    z == clamp_spec(base, 10, 1600)
                }
            }
        }),
{
    let eqe = InputEvent::Key { key: Key::Equals, pressed: true, mods: m };
    let ple = InputEvent::Key { key: Key::Plus, pressed: true, mods: m };
    let es = seq![eqe];
    let ps = seq![ple];
    assert(is_shortcut(es[0], Key::Equals, None));
    assert(is_shortcut(ps[0], Key::Plus, None));
    assert(!shortcut_spec(es, Key::Minus, None)) by {
        if shortcut_spec(es, Key::Minus, None) {
            let i = choose|i: int| 0 <= i < es.len() && is_shortcut(#[trigger] es[i], Key::Minus, None);
            assert(i == 0);
        }
    }
    assert(!shortcut_spec(ps, Key::Minus, None)) by {
        if shortcut_spec(ps, Key::Minus, None) {
            let i = choose|i: int| 0 <= i < ps.len() && is_shortcut(#[trigger] ps[i], Key::Minus, None);
            assert(i == 0);
        }
    }
    assert(!shortcut_spec(es, Key::Num0, None)) by {
        if shortcut_spec(es, Key::Num0, None) {
            let i = choose|i: int| 0 <= i < es.len() && is_shortcut(#[trigger] es[i], Key::Num0, None);
            assert(i == 0);
        }
    }
    assert(!shortcut_spec(ps, Key::Num0, None)) by {
        if shortcut_spec(ps, Key::Num0, None) {
            let i = choose|i: int| 0 <= i < ps.len() && is_shortcut(#[trigger] ps[i], Key::Num0, None);
            assert(i == 0);
        }
    }
    assert(!shortcut_spec(es, Key::Num1, None)) by {
        if shortcut_spec(es, Key::Num1, None) {
            let i = choose|i: int| 0 <= i < es.len() && is_shortcut(#[trigger] es[i], Key::Num1, None);
            assert(i == 0);
        }
    }
    assert(!shortcut_spec(ps, Key::Num1, None)) by {
        if shortcut_spec(ps, Key::Num1, None) {
            let i = choose|i: int| 0 <= i < ps.len() && is_shortcut(#[trigger] ps[i], Key::Num1, None);
            assert(i == 0);
        }
    }
    let base = ed.zoom.base_spec(ed.shown_zoom);
    let l = ladder();
    assert forall|i: int, j: int| 0 <= i < j < l.len() implies l[i] < l[j] by {}
    lemma_first_above(l, base);
    if base < 800 {
        assert(l[9] == 800u32);
    } else {
        assert forall|k: int| 0 <= k < l.len() implies #[trigger] l[k] <= base by {}
    }
}

} // verus!
