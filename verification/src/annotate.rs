//! Annotation tools and their options, the tool pill's keys, and the
//! editor's undo history.

use vstd::prelude::*;

use crate::i18n::{t, t_spec, Lang};

verus! {

#[derive(Clone, Copy, PartialEq, Eq, Structural, Debug)]
pub enum Tool {
    Select,
    Arrow,
    Rect,
    Ellipse,
    /// A stroked line, with or without a head.
    Line,
    Text,
    Blur,
    Highlight,
    /// Flat, fully opaque rectangle. Not offered as a tool; redaction builds
    /// these from recognised text, where "covered" is not negotiable.
    Fill,
}

/// The English name of each tool.
pub open spec fn tool_name(tool: Tool) -> Seq<char> {
    match tool {
        Tool::Select => "Select"@,
        Tool::Arrow => "Arrow"@,
        Tool::Rect => "Rectangle"@,
        Tool::Ellipse => "Ellipse"@,
        Tool::Line => "Line"@,
        Tool::Text => "Text"@,
        Tool::Blur => "Blur"@,
        Tool::Highlight => "Paint"@,
        Tool::Fill => "Fill"@,
    }
}

impl Tool {
    pub const DRAWABLE: [Tool; 7] = [
        Tool::Arrow,
        Tool::Rect,
        Tool::Ellipse,
        Tool::Line,
        Tool::Text,
        Tool::Blur,
        Tool::Highlight,
    ];

    /// The tool's name in the interface language.
    pub fn label(self, lang: Lang) -> (r: &'static str)
        ensures
            r@ == t_spec(lang, tool_name(self)),
    {
        match self {
            Tool::Select => t(lang, "Select"),
            Tool::Arrow => t(lang, "Arrow"),
            Tool::Rect => t(lang, "Rectangle"),
            Tool::Ellipse => t(lang, "Ellipse"),
            Tool::Line => t(lang, "Line"),
            Tool::Text => t(lang, "Text"),
            Tool::Blur => t(lang, "Blur"),
            Tool::Highlight => t(lang, "Paint"),
            Tool::Fill => t(lang, "Fill"),
        }
    }

    /// Text is placed with a click; the rest are dragged out.
    pub fn is_point_tool(self) -> (r: bool)
        ensures
            r == (self == Tool::Text),
    {
        self == Tool::Text
    }

    /// Whether line thickness means anything for this tool: paint and blur
    /// cover whole regions, text has its own size, and the arrow's thickness
    /// comes from its own proportions.
    pub fn uses_stroke(self) -> (r: bool)
        ensures
            r == (self == Tool::Line || self == Tool::Rect || self == Tool::Ellipse),
    {
        match self {
            Tool::Line | Tool::Rect | Tool::Ellipse => true,
            _ => false,
        }
    }
}

/// Which of the three arrows this is.
#[derive(Clone, Copy, PartialEq, Eq, Structural, Debug)]
pub enum ArrowForm {
    Straight,
    /// Bending to the left of the way it points.
    BendLeft,
    BendRight,
}

/// What sits at the far end of an arrow.
#[derive(Clone, Copy, PartialEq, Eq, Structural, Debug)]
pub enum Head {
    /// A filled triangle, wider than the shaft.
    Solid,
    /// Two barbs swept back from the tip, the width of the shaft.
    Open,
    /// A dashed shaft under a solid head.
    Dashed,
}

/// How a redaction hides what is under it.
#[derive(Clone, Copy, PartialEq, Eq, Structural, Debug)]
pub enum Cover {
    Blur,
    /// Block averaging, which throws the detail away outright.
    Pixelate,
}

/// Which way a label grows from the point it was placed at.
#[derive(Clone, Copy, PartialEq, Eq, Structural, Debug)]
pub enum TextAlign {
    Left,
    Centre,
    Right,
}

impl ArrowForm {
    pub const ALL: [ArrowForm; 3] = [ArrowForm::Straight, ArrowForm::BendLeft, ArrowForm::BendRight];
}

impl Default for ArrowForm {
    fn default() -> (r: ArrowForm)
        ensures
            r == ArrowForm::Straight,
    {
        ArrowForm::Straight
    }
}

impl Default for Head {
    fn default() -> (r: Head)
        ensures
            r == Head::Solid,
    {
        Head::Solid
    }
}

impl Default for Cover {
    fn default() -> (r: Cover)
        ensures
            r == Cover::Blur,
    {
        Cover::Blur
    }
}

impl Default for TextAlign {
    fn default() -> (r: TextAlign)
        ensures
            r == TextAlign::Left,
    {
        TextAlign::Left
    }
}

/// The tools the floating pill offers, in order, each with the key that
/// selects it: the six drawing tools on `1`–`6`, then Select, behind a
/// separator, on the key left of `1`.
pub const TOOLS: [(Tool, char); 7] = [
    (Tool::Arrow, '1'),
    (Tool::Text, '2'),
    (Tool::Rect, '3'),
    (Tool::Ellipse, '4'),
    (Tool::Blur, '5'),
    (Tool::Highlight, '6'),
    (Tool::Select, '`'),
];

/// Every tool in the pill has its own key, no key picks two tools, and
/// Select is last.
pub proof fn law_tool_keys()
    ensures
        forall|i: int, j: int| 0 <= i < j < 7 ==> TOOLS@[i].1 != TOOLS@[j].1 && TOOLS@[i].0 != TOOLS@[j].0,
        TOOLS@[6].0 == Tool::Select,
{
}

/// Undo can reach this many edits back.
pub const MAX_UNDO: usize = 64;

/// Whether `b` is an element-by-element clone of `a`.
pub open spec fn clones_of<T: Clone>(a: Seq<T>, b: Seq<T>) -> bool {
    a.len() == b.len() && forall|i: int| 0 <= i < a.len() ==> cloned(a[i], b[i])
}

/// Undo/redo over whole-layer-stack snapshots. The stacks are small, so
/// copying beats tracking deltas.
pub struct History<T> {
    past: Vec<Vec<T>>,
    future: Vec<Vec<T>>,
}

/// The history and current state after an undo: the latest recorded state
/// becomes current and the current one is kept for redo; nothing changes
/// with nothing to undo.
pub open spec fn undo_spec<T>(h: (Seq<Seq<T>>, Seq<Seq<T>>), current: Seq<T>) -> (
    (Seq<Seq<T>>, Seq<Seq<T>>),
    Seq<T>,
) {
    if h.0.len() > 0 {
        ((h.0.drop_last(), h.1.push(current)), h.0.last())
    } else {
        (h, current)
    }
}

/// The mirror image of [`undo_spec`].
pub open spec fn redo_spec<T>(h: (Seq<Seq<T>>, Seq<Seq<T>>), current: Seq<T>) -> (
    (Seq<Seq<T>>, Seq<Seq<T>>),
    Seq<T>,
) {
    if h.1.len() > 0 {
        ((h.0.push(current), h.1.drop_last()), h.1.last())
    } else {
        (h, current)
    }
}

pub open spec fn stack_views<T>(v: Seq<Vec<T>>) -> Seq<Seq<T>> {
    v.map_values(|x: Vec<T>| x@)
}

impl<T> View for History<T> {
    /// The states undo walks back through, oldest first, and the states
    /// redo walks forward through, nearest last.
    type V = (Seq<Seq<T>>, Seq<Seq<T>>);

    closed spec fn view(&self) -> (Seq<Seq<T>>, Seq<Seq<T>>) {
        (stack_views(self.past@), stack_views(self.future@))
    }
}

impl<T> History<T> {
    /// Undo and redo together hold at most [`MAX_UNDO`] states.
    pub closed spec fn wf(&self) -> bool {
        self.past@.len() + self.future@.len() <= MAX_UNDO
    }

    pub fn new() -> (h: Self)
        ensures
            h.wf(),
            h@.0.len() == 0,
            h@.1.len() == 0,
    {
        let h = History { past: Vec::new(), future: Vec::new() };
        assert(h@.0 =~= Seq::<Seq<T>>::empty());
        assert(h@.1 =~= Seq::<Seq<T>>::empty());
        h
    }

    pub fn can_undo(&self) -> (r: bool)
        ensures
            r == (self@.0.len() > 0),
    {
        self.past.len() != 0
    }

    pub fn can_redo(&self) -> (r: bool)
        ensures
            r == (self@.1.len() > 0),
    {
        self.future.len() != 0
    }

    /// How many edits undo can walk back.
    pub fn undo_len(&self) -> (r: usize)
        ensures
            r == self@.0.len(),
    {
        self.past.len()
    }

    /// Step back: the latest recorded state becomes current, and the
    /// current one is kept for redo. Nothing happens with nothing to undo.
    pub fn undo(&mut self, current: &mut Vec<T>)
        requires
            old(self).wf(),
        ensures
            final(self).wf(),
            (final(self)@, final(current)@) == undo_spec(old(self)@, old(current)@),
            final(self)@.0.len() + final(self)@.1.len() <= MAX_UNDO,
    {
        if self.past.len() == 0 {
            return;
        }
        let mut prev = self.past.pop().unwrap();
        std::mem::swap(current, &mut prev);
        self.future.push(prev);
        proof {
            assert(stack_views(self.past@) =~= old(self)@.0.drop_last());
            assert(stack_views(self.future@) =~= old(self)@.1.push(old(current)@));
        }
    }

    /// Step forward again: the inverse of [`History::undo`].
    pub fn redo(&mut self, current: &mut Vec<T>)
        requires
            old(self).wf(),
        ensures
            final(self).wf(),
            (final(self)@, final(current)@) == redo_spec(old(self)@, old(current)@),
            final(self)@.0.len() + final(self)@.1.len() <= MAX_UNDO,
    {
        if self.future.len() == 0 {
            return;
        }
        let mut next = self.future.pop().unwrap();
        std::mem::swap(current, &mut next);
        self.past.push(next);
        proof {
            assert(stack_views(self.future@) =~= old(self)@.1.drop_last());
            assert(stack_views(self.past@) =~= old(self)@.0.push(old(current)@));
        }
    }

    pub fn clear(&mut self)
        ensures
            final(self).wf(),
            final(self)@.0.len() == 0,
            final(self)@.1.len() == 0,
    {
        self.past.clear();
        self.future.clear();
        assert(stack_views(self.past@) =~= Seq::<Seq<T>>::empty());
        assert(stack_views(self.future@) =~= Seq::<Seq<T>>::empty());
    }
}

impl<T: Clone> History<T> {
    /// Record the state *before* a change is applied. The redo branch is
    /// gone once something new is done, and the oldest state is dropped
    /// when undo already reaches [`MAX_UNDO`] edits back.
    pub fn push(&mut self, current: &[T])
        requires
            old(self).wf(),
        ensures
            final(self).wf(),
            final(self)@.1.len() == 0,
            final(self)@.0.len() <= MAX_UNDO,
            clones_of(current@, final(self)@.0.last()),
            final(self)@.0.len() >= 1,
            final(self)@.0.drop_last() == (if old(self)@.0.len() == MAX_UNDO {
                old(self)@.0.drop_first()
            } else {
                old(self)@.0
            }),
    {
        let mut snap: Vec<T> = Vec::new();
        let mut i: usize = 0;
        while i < current.len()
            invariant
                i <= current.len(),
                clones_of(current@.take(i as int), snap@),
            decreases current.len() - i,
        {
            let c = current[i].clone();
            snap.push(c);
            i = i + 1;
            assert(current@.take(i as int)[i - 1] == current@[i - 1]);
            assert forall|j: int| 0 <= j < i implies cloned(current@.take(i as int)[j], snap@[j]) by {
                if j < i - 1 {
                    assert(current@.take(i as int)[j] == current@.take(i - 1)[j]);
                }
            }
        }
        assert(current@.take(current.len() as int) =~= current@);
        self.future.clear();
        let ghost before = stack_views(self.past@);
        if self.past.len() == MAX_UNDO {
            self.past.remove(0);
            assert(stack_views(self.past@) =~= before.drop_first());
        }
        let ghost kept = stack_views(self.past@);
        self.past.push(snap);
        proof {
            assert(stack_views(self.past@) =~= kept.push(snap@));
            assert(stack_views(self.future@) =~= Seq::<Seq<T>>::empty());
        }
    }
}

impl<T> Default for History<T> {
    fn default() -> (h: Self)
        ensures
            h.wf(),
            h@.0.len() == 0,
            h@.1.len() == 0,
    {
        History::new()
    }
}

/// Undoing and then redoing puts everything back as it was, the history and
/// the current state alike; so does redoing and then undoing.
pub proof fn law_undo_redo_inverse<T>(h: (Seq<Seq<T>>, Seq<Seq<T>>), current: Seq<T>)
    ensures
        h.0.len() > 0 ==> {
            let (h1, c1) = undo_spec(h, current);
            redo_spec(h1, c1) == (h, current)
        },
        h.1.len() > 0 ==> {
            let (h1, c1) = redo_spec(h, current);
            undo_spec(h1, c1) == (h, current)
        },
{
    if h.0.len() > 0 {
        let (h1, c1) = undo_spec(h, current);
        assert(h1.0.push(c1) =~= h.0);
        assert(h1.1.drop_last() =~= h.1);
    }
    if h.1.len() > 0 {
        let (h1, c1) = redo_spec(h, current);
        assert(h1.1.push(c1) =~= h.1);
        assert(h1.0.drop_last() =~= h.0);
    }
}

} // verus!
