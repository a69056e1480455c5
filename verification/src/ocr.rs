//! Recognised words put back into reading order, for copying as text.

use vstd::prelude::*;

use crate::text::{chars_of, push_all, string_of, trim, trim_chars};

verus! {

/// One recognised word and its box `[x0, y0, x1, y1]`, in pixels of the shot.
#[derive(Clone, Debug)]
pub struct Word {
    pub text: String,
    pub rect: [i32; 4],
}

/// The height of a word's box.
pub open spec fn height_of(w: Word) -> int {
    w.rect[3] - w.rect[1]
}

/// The line height a word sets: its own height, but never below one pixel.
pub open spec fn line_height(w: Word) -> int {
    if height_of(w) < 1 {
        1
    } else {
        height_of(w)
    }
}

/// `a` comes no later than `b` in reading order: by line, then along it.
pub open spec fn reads_before(a: Word, b: Word) -> bool {
    a.rect[1] < b.rect[1] || (a.rect[1] == b.rect[1] && a.rect[0] <= b.rect[0])
}

/// The words that `indices` name, in the order named; an index past the end
/// names nothing.
pub open spec fn picked(words: Seq<Word>, indices: Seq<usize>) -> Seq<Word>
    decreases indices.len(),
{
    if indices.len() == 0 {
        Seq::empty()
    } else {
        let rest = picked(words, indices.drop_last());
        if (indices.last() as int) < words.len() {
            rest.push(words[indices.last() as int])
        } else {
            rest
        }
    }
}

/// Where `w` goes in a list already in reading order: after every word that
/// reads no later than it, so words on the same spot keep their order.
pub open spec fn slot(sorted: Seq<Word>, w: Word) -> int
    decreases sorted.len(),
{
    if sorted.len() == 0 {
        0
    } else if reads_before(sorted.last(), w) {
        sorted.len() as int
    } else {
        slot(sorted.drop_last(), w)
    }
}

/// The words in reading order: a stable sort by line, then along the line.
pub open spec fn reading_order(ws: Seq<Word>) -> Seq<Word>
    decreases ws.len(),
{
    if ws.len() == 0 {
        Seq::empty()
    } else {
        let sorted = reading_order(ws.drop_last());
        sorted.insert(slot(sorted, ws.last()), ws.last())
    }
}

/// A word starts a new line when it has drifted from the line's top by more
/// than 0.6 of the line's height.
pub open spec fn breaks_line(w: Word, top: int, height: int) -> bool {
    let dy = if w.rect[1] - top < 0 {
        top - w.rect[1]
    } else {
        w.rect[1] - top
    };
    dy * 5 > height * 3
}

/// The words from `i` on, each after a space or, on a new line, a line break.
pub open spec fn join_from(ws: Seq<Word>, i: int, top: int, height: int) -> Seq<char>
    decreases ws.len() - i,
{
    if i < 0 || i >= ws.len() {
        Seq::empty()
    } else {
        let w = ws[i];
        if breaks_line(w, top, height) {
            seq!['\n'] + trim(w.text@) + join_from(ws, i + 1, w.rect[1] as int, line_height(w))
        } else {
            seq![' '] + trim(w.text@) + join_from(ws, i + 1, top, height)
        }
    }
}

/// Words already in reading order, joined into text that keeps its lines.
pub open spec fn joined(ws: Seq<Word>) -> Seq<char> {
    if ws.len() == 0 {
        Seq::empty()
    } else {
        trim(ws[0].text@) + join_from(ws, 1, ws[0].rect[1] as int, line_height(ws[0]))
    }
}

/// The words that a list of indices into `words` names.
pub open spec fn named(words: Seq<Word>, idx: Seq<usize>) -> Seq<Word> {
    idx.map_values(|i: usize| words[i as int])
}

/// Where word `at` goes among the words `sorted` names, found from the back.
fn find_slot(words: &[Word], sorted: &Vec<usize>, at: usize) -> (r: usize)
    requires
        at < words.len(),
        forall|j: int| 0 <= j < sorted.len() ==> (#[trigger] sorted@[j] as int) < words.len(),
    ensures
        r == slot(named(words@, sorted@), words@[at as int]),
        r <= sorted.len(),
{
    let ghost w = words@[at as int];
    let ghost ws = named(words@, sorted@);
    let y = words[at].rect[1];
    let x = words[at].rect[0];
    let mut j: usize = sorted.len();
    assert(ws.take(j as int) =~= ws);
    while j > 0 && !(words[sorted[j - 1]].rect[1] < y || (words[sorted[j - 1]].rect[1] == y
        && words[sorted[j - 1]].rect[0] <= x))
        invariant
            j <= sorted.len(),
            ws == named(words@, sorted@),
            w == words@[at as int],
            y == w.rect[1],
            x == w.rect[0],
            forall|j: int| 0 <= j < sorted.len() ==> (#[trigger] sorted@[j] as int) < words.len(),
            slot(ws, w) == slot(ws.take(j as int), w),
        decreases j,
    {
        proof {
            assert(ws.take(j as int).drop_last() =~= ws.take(j as int - 1));
        }
        j = j - 1;
    }
    proof {
        if j > 0 {
            assert(ws.take(j as int).last() == ws[j - 1]);
        } else {
            assert(ws.take(0) =~= Seq::<Word>::empty());
        }
    }
    j
}

/// Rebuild reading order: sort by line, then by x, putting a line break
/// between lines so pasted text keeps its shape. Indices past the end of
/// `words` are ignored.
pub fn join_words(words: &[Word], indices: &[usize]) -> (r: String)
    ensures
        r@ == joined(reading_order(picked(words@, indices@))),
{
    let mut sorted: Vec<usize> = Vec::new();
    let mut i: usize = 0;
    proof {
        assert(indices@.take(0) =~= Seq::<usize>::empty());
        assert(named(words@, sorted@) =~= Seq::<Word>::empty());
    }
    while i < indices.len()
        invariant
            i <= indices.len(),
            forall|j: int| 0 <= j < sorted.len() ==> (#[trigger] sorted@[j] as int) < words.len(),
            named(words@, sorted@) == reading_order(picked(words@, indices@.take(i as int))),
        decreases indices.len() - i,
    {
        proof {
            assert(indices@.take(i as int + 1).drop_last() =~= indices@.take(i as int));
            assert(indices@.take(i as int + 1).last() == indices@[i as int]);
        }
        let at = indices[i];
        let ghost pk = picked(words@, indices@.take(i as int));
        if at < words.len() {
            proof {
                assert(pk.push(words@[at as int]).drop_last() =~= pk);
            }
            let slot_at = find_slot(words, &sorted, at);
            let ghost before = sorted@;
            sorted.insert(slot_at, at);
            proof {
                assert(named(words@, sorted@) =~= named(words@, before).insert(
                    slot_at as int,
                    words@[at as int],
                ));
            }
        }
        i = i + 1;
    }
    proof {
        assert(indices@.take(indices.len() as int) =~= indices@);
    }
    let ghost ws = named(words@, sorted@);
    if sorted.len() == 0 {
        return String::new();
    }
    let first = &words[sorted[0]];
    let mut out = trim_chars(&chars_of(first.text.as_str()));
    let mut top: i64 = first.rect[1] as i64;
    let h0: i64 = first.rect[3] as i64 - first.rect[1] as i64;
    let mut height: i64 = if h0 < 1 {
        1
    } else {
        h0
    };
    let mut k: usize = 1;
    while k < sorted.len()
        invariant
            ws == named(words@, sorted@),
            forall|j: int| 0 <= j < sorted.len() ==> (#[trigger] sorted@[j] as int) < words.len(),
            1 <= k <= sorted.len(),
            joined(ws) == out@ + join_from(ws, k as int, top as int, height as int),
            i32::MIN <= top <= i32::MAX,
            1 <= height <= 2 * (i32::MAX as int) + 1,
        decreases sorted.len() - k,
    {
        let w = &words[sorted[k]];
        proof {
            assert(ws[k as int] == *w);
            assert(ws.len() == sorted.len());
        }
        let y = w.rect[1] as i64;
        let dy = if y - top < 0 {
            top - y
        } else {
            y - top
        };
        let word = trim_chars(&chars_of(w.text.as_str()));
        if dy * 5 > height * 3 {
            out.push('\n');
            push_all(&mut out, &word);
            top = y;
            let h: i64 = w.rect[3] as i64 - w.rect[1] as i64;
            height = if h < 1 {
                1
            } else {
                h
            };
        } else {
            out.push(' ');
            push_all(&mut out, &word);
        }
        k = k + 1;
    }
    proof {
        assert(out@ + Seq::<char>::empty() =~= out@);
    }
    string_of(&out)
}

/// `ws` is in reading order.
pub open spec fn in_reading_order(ws: Seq<Word>) -> bool {
    forall|i: int, j: int| 0 <= i < j < ws.len() ==> reads_before(#[trigger] ws[i], #[trigger] ws[j])
}

/// Everything before the slot reads before `w`, and `w` reads before
/// everything from the slot on.
proof fn lemma_slot(sorted: Seq<Word>, w: Word)
    requires
        in_reading_order(sorted),
    ensures
        0 <= slot(sorted, w) <= sorted.len(),
        forall|j: int| 0 <= j < slot(sorted, w) ==> reads_before(#[trigger] sorted[j], w),
        forall|j: int| slot(sorted, w) <= j < sorted.len() ==> reads_before(w, #[trigger] sorted[j]),
    decreases sorted.len(),
{
    if sorted.len() > 0 {
        let k = slot(sorted, w);
        if reads_before(sorted.last(), w) {
            assert forall|j: int| 0 <= j < k implies reads_before(#[trigger] sorted[j], w) by {
                if j < sorted.len() - 1 {
                    assert(reads_before(sorted[j], sorted[sorted.len() - 1]));
                }
            }
        } else {
            let rest = sorted.drop_last();
            assert forall|i: int, j: int| 0 <= i < j < rest.len() implies reads_before(
                #[trigger] rest[i],
                #[trigger] rest[j],
            ) by {
                assert(rest[i] == sorted[i] && rest[j] == sorted[j]);
            }
            lemma_slot(rest, w);
            assert forall|j: int| k <= j < sorted.len() implies reads_before(w, #[trigger] sorted[j]) by {
                if j < sorted.len() - 1 {
                    assert(sorted[j] == rest[j]);
                }
            }
            assert forall|j: int| 0 <= j < k implies reads_before(#[trigger] sorted[j], w) by {
                assert(sorted[j] == rest[j]);
            }
        }
    }
}

/// Reading order is what its name says: the words sorted by line and then
/// along the line, every word kept and none added.
pub proof fn law_reading_order_sorts(ws: Seq<Word>)
    ensures
        in_reading_order(reading_order(ws)),
        reading_order(ws).to_multiset() == ws.to_multiset(),
    decreases ws.len(),
{
    broadcast use vstd::seq_lib::to_multiset_insert, vstd::seq_lib::to_multiset_build;

    if ws.len() == 0 {
        assert(reading_order(ws) =~= Seq::<Word>::empty());
        assert(ws =~= Seq::<Word>::empty());
    } else {
        let rest = ws.drop_last();
        let w = ws.last();
        law_reading_order_sorts(rest);
        let sorted = reading_order(rest);
        lemma_slot(sorted, w);
        let k = slot(sorted, w);
        let r = sorted.insert(k, w);
        assert(r == reading_order(ws));
        assert forall|i: int, j: int| 0 <= i < j < r.len() implies reads_before(
            #[trigger] r[i],
            #[trigger] r[j],
        ) by {
            if j < k {
                assert(r[i] == sorted[i] && r[j] == sorted[j]);
            } else if j == k {
                assert(r[i] == sorted[i]);
            } else if i < k {
                assert(r[i] == sorted[i] && r[j] == sorted[j - 1]);
                assert(reads_before(sorted[i], w));
                assert(reads_before(w, sorted[j - 1]));
            } else if i == k {
                assert(r[j] == sorted[j - 1]);
            } else {
                assert(r[i] == sorted[i - 1] && r[j] == sorted[j - 1]);
            }
        }
        assert(ws =~= rest.push(w));
    }
}

/// The joined text of the words from `k` on does not depend on the words
/// before them.
proof fn lemma_join_from_skip(ws: Seq<Word>, i: int, k: int, top: int, height: int)
    requires
        0 <= i <= ws.len(),
        0 <= k,
    ensures
        join_from(ws, i + k, top, height) == join_from(ws.skip(i), k, top, height),
    decreases ws.len() - i - k,
{
    if i + k < ws.len() {
        assert(ws.skip(i)[k] == ws[i + k]);
        let w = ws[i + k];
        lemma_join_from_skip(ws, i, k + 1, w.rect[1] as int, line_height(w));
        lemma_join_from_skip(ws, i, k + 1, top, height);
    }
}

/// A line break starts afresh: once a word opens a new line, what follows
/// is those words joined as if they came first, so the line they form is
/// measured by the word that opened it, whatever lines came before. In
/// particular the next word opens a line of its own exactly when it sits
/// more than 0.6 of that opener's height above or below it.
pub proof fn law_a_new_line_starts_afresh(ws: Seq<Word>, i: int, top: int, height: int)
    requires
        0 <= i < ws.len(),
        breaks_line(ws[i], top, height),
    ensures
        join_from(ws, i, top, height) == seq!['\n'] + joined(ws.skip(i)),
        i + 1 < ws.len() ==> (join_from(ws, i, top, height)[trim(ws[i].text@).len() as int + 1] == '\n'
            <==> breaks_line(ws[i + 1], ws[i].rect[1] as int, line_height(ws[i]))),
{
    let w = ws[i];
    lemma_join_from_skip(ws, i, 1, w.rect[1] as int, line_height(w));
    assert(ws.skip(i)[0] == w);
    assert(seq!['\n'] + trim(w.text@) + join_from(ws, i + 1, w.rect[1] as int, line_height(w))
        =~= seq!['\n'] + (trim(w.text@) + join_from(ws.skip(i), 1, w.rect[1] as int, line_height(w))));
    if i + 1 < ws.len() {
        let rest = join_from(ws, i + 1, w.rect[1] as int, line_height(w));
        let whole = seq!['\n'] + trim(w.text@) + rest;
        let n = trim(w.text@).len() as int;
        assert(whole[n + 1] == rest[0]);
        if breaks_line(ws[i + 1], w.rect[1] as int, line_height(w)) {
            assert(rest[0] == '\n');
        } else {
            assert(rest[0] == ' ');
        }
    }
}

} // verus!
