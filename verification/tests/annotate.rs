use shotr_core::annotate::{History, Tool, MAX_UNDO, TOOLS};
use shotr_core::i18n::{lookup, Lang};

/// A layer as the history sees it: something cloned into a snapshot.
#[derive(Clone, Debug, PartialEq)]
struct Layer {
    kind: Tool,
    a: [f32; 2],
    b: [f32; 2],
}

fn layer(kind: Tool, a: [f32; 2], b: [f32; 2]) -> Layer {
    Layer { kind, a, b }
}

#[test]
fn only_line_tools_offer_a_stroke_width() {
    for t in [Tool::Line, Tool::Rect, Tool::Ellipse] {
        assert!(t.uses_stroke(), "{t:?} draws lines");
    }
    assert!(
        !Tool::Arrow.uses_stroke(),
        "the arrow's proportions are locked, so a stroke slider would be a \
         control that does nothing"
    );
    for t in [Tool::Text, Tool::Blur, Tool::Highlight, Tool::Fill] {
        assert!(!t.uses_stroke(), "{t:?} has no line to thicken");
    }
}

#[test]
fn undo_and_redo_walk_the_stack_both_ways() {
    let mut history = History::default();
    let mut layers: Vec<Layer> = Vec::new();
    assert!(!history.can_undo());

    history.push(&layers);
    layers.push(layer(Tool::Rect, [0.0, 0.0], [10.0, 10.0]));
    history.push(&layers);
    layers.push(layer(Tool::Arrow, [0.0, 0.0], [10.0, 10.0]));
    assert_eq!(layers.len(), 2);

    history.undo(&mut layers);
    assert_eq!(layers.len(), 1);
    history.undo(&mut layers);
    assert_eq!(layers.len(), 0);
    assert!(!history.can_undo());

    history.redo(&mut layers);
    assert_eq!(layers.len(), 1);
    history.redo(&mut layers);
    assert_eq!(layers.len(), 2);
    assert!(!history.can_redo());
}

#[test]
fn a_new_edit_discards_the_redo_branch() {
    let mut history = History::default();
    let mut layers = vec![layer(Tool::Rect, [0.0, 0.0], [10.0, 10.0])];
    history.push(&layers);
    layers.clear();
    history.undo(&mut layers);
    assert!(history.can_redo());

    history.push(&layers);
    assert!(!history.can_redo(), "redo must not survive a fresh edit");
}

#[test]
fn the_undo_stack_is_bounded() {
    let mut history = History::default();
    let layers = vec![layer(Tool::Rect, [0.0, 0.0], [10.0, 10.0])];
    for _ in 0..(MAX_UNDO + 20) {
        history.push(&layers);
    }
    assert_eq!(history.undo_len(), MAX_UNDO);
}

#[test]
fn undo_then_redo_restores_the_same_layers() {
    let mut history = History::new();
    let mut layers = vec![layer(Tool::Text, [1.0, 2.0], [3.0, 4.0])];
    history.push(&layers);
    layers.push(layer(Tool::Blur, [0.0, 0.0], [5.0, 5.0]));
    let before = layers.clone();
    history.undo(&mut layers);
    assert_eq!(layers, vec![layer(Tool::Text, [1.0, 2.0], [3.0, 4.0])]);
    history.redo(&mut layers);
    assert_eq!(layers, before);
    history.clear();
    assert!(!history.can_undo() && !history.can_redo());
}

#[test]
fn every_tool_has_its_own_key() {
    let mut keys: Vec<char> = TOOLS.iter().map(|(_, k)| *k).collect();
    keys.sort_unstable();
    keys.dedup();
    assert_eq!(keys.len(), TOOLS.len(), "two tools share a key");
}

#[test]
fn the_drawing_tools_run_1_to_6_and_select_sits_next_to_them() {
    let drawing: Vec<char> = TOOLS[..6].iter().map(|(_, k)| *k).collect();
    assert_eq!(drawing, vec!['1', '2', '3', '4', '5', '6']);
    assert_eq!(
        TOOLS[6],
        (Tool::Select, '`'),
        "Select must stay on the key left of 1 — it is reached far more \
         often than any one drawing tool"
    );
}

#[test]
fn select_is_the_last_tool_in_the_pill() {
    assert_eq!(TOOLS[6].0, Tool::Select, "Select moved out of last place");
    assert!(
        TOOLS[..6].iter().all(|(t, _)| *t != Tool::Select),
        "Select appears twice"
    );
}

#[test]
fn tool_names_follow_the_language() {
    assert_eq!(Tool::Highlight.label(Lang::En), "Paint");
    assert_eq!(Tool::Arrow.label(Lang::Vi), "Mũi tên");
    assert!(Tool::Text.is_point_tool());
    assert!(!Tool::Rect.is_point_tool());
}

#[test]
fn every_tool_label_has_a_vietnamese_entry() {
    let expected = [
        (Tool::Select, "Chọn"),
        (Tool::Arrow, "Mũi tên"),
        (Tool::Rect, "Khung"),
        (Tool::Ellipse, "Elip"),
        (Tool::Line, "Đường thẳng"),
        (Tool::Text, "Chữ"),
        (Tool::Blur, "Làm mờ"),
        (Tool::Highlight, "Tô màu"),
        (Tool::Fill, "Tô đặc"),
    ];
    for (tool, vi) in expected {
        let en = tool.label(Lang::En);
        assert!(lookup(en).is_some(), "{en:?} has no Vietnamese entry");
        assert_eq!(tool.label(Lang::Vi), vi);
        assert_ne!(tool.label(Lang::Vi), en, "{en:?} stays English");
    }
}
