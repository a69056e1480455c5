use shotr_core::annotate::{Tool, TOOLS};
use shotr_core::shortcuts::{
    copy_requested, editor_modifier, mod_label, picked_tool, plain_key, react, shortcut,
    tool_key, EditorState, InputEvent, Key, KeyMods, Mode, PickMode, Pressed,
};
use shotr_core::zoom::Zoom;

const NONE: KeyMods = KeyMods { alt: false, ctrl: false, shift: false, mac_cmd: false, command: false };
const CTRL: KeyMods = KeyMods { alt: false, ctrl: true, shift: false, mac_cmd: false, command: false };

fn press(key: Key, mods: KeyMods) -> InputEvent {
    InputEvent::Key { key, pressed: true, mods }
}

#[test]
fn the_ctrl_key_works_where_command_means_cmd() {
    let ctrl = KeyMods { ctrl: true, ..NONE };
    assert!(editor_modifier(&ctrl), "Ctrl+C would copy nothing on macOS, though every label promises it");
}

#[test]
fn the_command_key_still_works() {
    let cmd = KeyMods { command: true, mac_cmd: true, ..NONE };
    assert!(editor_modifier(&cmd), "Cmd+C stopped copying");
}

#[test]
fn the_label_names_this_platforms_modifier() {
    assert_eq!(mod_label(false), "Ctrl", "the buttons would tell a user to press the wrong key");
    assert_eq!(mod_label(true), "Cmd");
}

#[test]
fn no_modifier_is_not_a_shortcut() {
    assert!(!editor_modifier(&NONE), "an unmodified keypress triggered a shortcut");
}

#[test]
fn a_press_and_release_in_one_frame_still_fires() {
    let events = vec![press(Key::C, CTRL), InputEvent::Key { key: Key::C, pressed: false, mods: CTRL }];
    assert!(shortcut(&events, Key::C, None), "Ctrl+C copied nothing whenever the tap was quick enough");
}

#[test]
fn a_key_without_the_modifier_is_not_a_shortcut() {
    let events = vec![press(Key::C, NONE)];
    assert!(!shortcut(&events, Key::C, None), "typing a bare C would copy and close the editor");
}

#[test]
fn shift_tells_undo_and_redo_apart() {
    let shifted = KeyMods { shift: true, ..CTRL };
    let events = vec![press(Key::Z, shifted)];
    assert!(shortcut(&events, Key::Z, Some(true)), "Ctrl+Shift+Z stopped redoing");
    assert!(!shortcut(&events, Key::Z, Some(false)), "Ctrl+Shift+Z undid instead of redoing");
}

#[test]
fn another_key_does_not_match() {
    let events = vec![press(Key::S, CTRL)];
    assert!(!shortcut(&events, Key::C, None), "Ctrl+S triggered the copy");
}

#[test]
fn the_platform_copy_event_counts_as_the_shortcut() {
    assert!(copy_requested(&[InputEvent::Copy]), "Cmd+C did nothing on macOS, where it arrives as no key press at all");
}

#[test]
fn an_ordinary_frame_asks_for_no_copy() {
    assert!(!copy_requested(&[press(Key::S, CTRL)]), "Ctrl+S copied and closed the editor");
}

#[test]
fn every_label_printed_on_the_pill_maps_to_a_real_key() {
    for (tool, label) in TOOLS {
        assert!(tool_key(label).is_some(), "{tool:?} prints {label:?} on its button but no key produces it");
    }
}

#[test]
fn a_modified_key_does_not_pick_a_tool() {
    let key = tool_key('1').expect("1 is the Arrow tool's key");
    assert!(!plain_key(&[press(key, CTRL)], key), "Ctrl+1 would switch tool while zooming back to 100%");
    assert!(plain_key(&[press(key, NONE)], key), "a bare 1 stopped picking the Arrow tool");
}

fn editor() -> EditorState {
    EditorState {
        mode: Mode::Edit,
        typing: false,
        tool: Tool::Rect,
        selected_layer: false,
        picking_fullscreen: false,
        have_windows: true,
        pick_mode: PickMode::Region,
        zoom: Zoom::Percent(100),
        shown_zoom: 100,
    }
}

const QUIET: Pressed = Pressed { space: false, delete: false, escape: false, enter: false };

#[test]
fn a_tool_key_picks_its_tool_and_escape_goes_back_to_select() {
    assert_eq!(picked_tool(&[press(Key::Num3, NONE)]), Some(Tool::Rect));
    assert_eq!(react(editor(), &[press(Key::Num1, NONE)], QUIET).tool, Tool::Arrow);
    assert_eq!(react(editor(), &[press(Key::Escape, NONE)], QUIET).tool, Tool::Select);
}

#[test]
fn the_zoom_keys_step_fit_and_reset() {
    let r = react(editor(), &[press(Key::Plus, CTRL)], QUIET);
    assert_eq!((r.zoom, r.recentre), (Zoom::Percent(150), false));
    let r = react(editor(), &[press(Key::Minus, CTRL)], QUIET);
    assert_eq!(r.zoom, Zoom::Percent(75));
    let r = react(editor(), &[press(Key::Num0, CTRL)], QUIET);
    assert_eq!((r.zoom, r.recentre), (Zoom::Fit, true));
    // Ctrl+1 is "actual size", not the Arrow tool.
    let r = react(editor(), &[press(Key::Num1, CTRL)], QUIET);
    assert_eq!((r.zoom, r.tool), (Zoom::Percent(100), Tool::Rect));
}

#[test]
fn typing_a_label_keeps_the_keys_for_the_label() {
    let ed = EditorState { typing: true, tool: Tool::Text, ..editor() };
    let r = react(ed, &[press(Key::C, CTRL), press(Key::Z, CTRL), press(Key::Num1, NONE)], QUIET);
    assert!(!r.copy_and_close && !r.undo);
    assert_eq!(r.tool, Tool::Text);
    assert_eq!(r.zoom, Zoom::Percent(100));
}

#[test]
fn copy_save_undo_and_delete_in_the_editor() {
    let r = react(editor(), &[InputEvent::Copy, press(Key::S, CTRL)], QUIET);
    assert!(r.copy_and_close && r.save);
    let r = react(editor(), &[press(Key::Z, CTRL)], QUIET);
    assert!(r.undo && !r.redo);
    let selected = EditorState { selected_layer: true, tool: Tool::Select, ..editor() };
    let delete = Pressed { delete: true, ..QUIET };
    assert!(react(selected, &[], delete).delete_layer);
    assert!(!react(editor(), &[], delete).delete_layer, "only a selected shape is deleted");
}

#[test]
fn the_picker_closes_finishes_and_switches_modes() {
    let picker = EditorState { mode: Mode::Select, picking_fullscreen: true, ..editor() };
    assert!(react(picker, &[], Pressed { escape: true, ..QUIET }).close);
    assert!(react(picker, &[], Pressed { enter: true, ..QUIET }).finish_selection);
    let r = react(picker, &[], Pressed { space: true, ..QUIET });
    assert_eq!((r.pick_mode, r.clear_selection), (PickMode::Window, true));
    let no_windows = EditorState { have_windows: false, ..picker };
    assert_eq!(react(no_windows, &[], Pressed { space: true, ..QUIET }).pick_mode, PickMode::Region);
}
