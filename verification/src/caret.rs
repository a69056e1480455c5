//! Caret movement inside a label, in UTF-8 byte offsets.
//!
//! A label is edited in place by byte position, as `String` indexes it. A
//! caret that stops inside a multi-byte character (Vietnamese is full of
//! them) would make the next slice panic, so every move goes from one
//! character boundary to the next.

use vstd::prelude::*;
use vstd::string::StringSliceAdditionalSpecFns;
use vstd::utf8::*;

verus! {

/// The number of bytes `s` takes in UTF-8.
pub open spec fn utf8_len(s: Seq<char>) -> nat {
    encode_utf8(s).len()
}

/// `b` is the byte offset of the start of some character of `s`, or of its end.
pub open spec fn on_boundary(s: Seq<char>, b: int) -> bool {
    exists|k: int| 0 <= k <= s.len() && b == utf8_len(s.take(k))
}

/// Encoding a concatenation encodes each part in turn.
pub proof fn lemma_encode_concat(a: Seq<char>, b: Seq<char>)
    ensures
        encode_utf8(a + b) == encode_utf8(a) + encode_utf8(b),
    decreases a.len(),
{
    if a.len() == 0 {
        assert(a + b =~= b);
        assert(encode_utf8(a) =~= Seq::<u8>::empty());
        assert(encode_utf8(a) + encode_utf8(b) =~= encode_utf8(b));
    } else {
        assert((a + b).drop_first() =~= a.drop_first() + b);
        assert((a + b)[0] == a[0]);
        lemma_encode_concat(a.drop_first(), b);
        assert(encode_utf8(a + b) =~= encode_scalar(a[0] as u32) + (encode_utf8(a.drop_first())
            + encode_utf8(b)));
    }
}

/// The byte length of one more character.
pub proof fn lemma_utf8_len_push(s: Seq<char>, c: char)
    ensures
        utf8_len(s.push(c)) == utf8_len(s) + encode_scalar(c as u32).len(),
{
    lemma_encode_concat(s, seq![c]);
    assert(s.push(c) =~= s + seq![c]);
    assert(seq![c].drop_first() =~= Seq::<char>::empty());
    assert(encode_utf8(seq![c]) =~= encode_scalar(c as u32) + encode_utf8(
        Seq::<char>::empty(),
    ));
}

/// Every character takes at least one byte.
pub proof fn lemma_scalar_len(c: char)
    ensures
        1 <= encode_scalar(c as u32).len() <= 4,
{
}

/// Prefix byte lengths grow with the prefix.
pub proof fn lemma_utf8_len_mono(s: Seq<char>, j: int, k: int)
    requires
        0 <= j <= k <= s.len(),
    ensures
        utf8_len(s.take(j)) + (k - j) <= utf8_len(s.take(k)),
    decreases k - j,
{
    if j < k {
        lemma_utf8_len_mono(s, j, k - 1);
        assert(s.take(k) =~= s.take(k - 1).push(s[k - 1]));
        lemma_utf8_len_push(s.take(k - 1), s[k - 1]);
        lemma_scalar_len(s[k - 1]);
    }
}

/// The whole text is its own longest prefix.
pub proof fn lemma_utf8_len_full(s: Seq<char>)
    ensures
        utf8_len(s.take(s.len() as int)) == utf8_len(s),
{
    assert(s.take(s.len() as int) =~= s);
}

/// `str::is_char_boundary`, read over the characters: a byte offset is a
/// boundary exactly when it ends some prefix of the text.
pub proof fn lemma_boundary_iff(s: Seq<char>, b: int)
    ensures
        is_char_boundary(encode_utf8(s), b) <==> on_boundary(s, b),
    decreases s.len(),
{
    encode_utf8_valid_utf8(s);
    let bytes = encode_utf8(s);
    assert(s.take(0) =~= Seq::<char>::empty());
    assert(utf8_len(Seq::<char>::empty()) == 0);
    if b == 0 {
        assert(0 == utf8_len(s.take(0)));
    } else if s.len() == 0 {
        assert(bytes.len() == 0);
        if on_boundary(s, b) {
            let k = choose|k: int| 0 <= k <= s.len() && b == utf8_len(s.take(k));
            assert(k == 0);
        }
    } else {
        let rest = s.drop_first();
        encode_utf8_first_scalar(s);
        let l = encode_scalar(s[0] as u32).len() as int;
        assert(pop_first_scalar(bytes) =~= encode_utf8(rest));
        lemma_boundary_iff(rest, b - l);
        lemma_scalar_len(s[0]);
        // Every prefix past the first character is that character plus a
        // prefix of the rest.
        assert forall|k: int| 1 <= k <= s.len() implies utf8_len(s.take(k)) == l + utf8_len(
            rest.take(k - 1),
        ) by {
            assert(s.take(k) =~= seq![s[0]] + rest.take(k - 1));
            lemma_encode_concat(seq![s[0]], rest.take(k - 1));
            assert(seq![s[0]].drop_first() =~= Seq::<char>::empty());
            assert(encode_utf8(seq![s[0]]) =~= encode_scalar(s[0] as u32) + encode_utf8(
                Seq::<char>::empty(),
            ));
        }
        if b < 0 || bytes.len() < b {
            if on_boundary(s, b) {
                let k = choose|k: int| 0 <= k <= s.len() && b == utf8_len(s.take(k));
                lemma_utf8_len_mono(s, k, s.len() as int);
                lemma_utf8_len_full(s);
            }
        } else {
            assert(is_char_boundary(bytes, b) == is_char_boundary(encode_utf8(rest), b - l));
            if on_boundary(rest, b - l) {
                let k = choose|k: int| 0 <= k <= rest.len() && b - l == utf8_len(rest.take(k));
                assert(b == utf8_len(s.take(k + 1)));
            }
            if on_boundary(s, b) {
                let k = choose|k: int| 0 <= k <= s.len() && b == utf8_len(s.take(k));
                assert(k != 0);
                assert(b - l == utf8_len(rest.take(k - 1)));
            }
        }
    }
}

/// The ends of a text are always boundaries.
pub proof fn lemma_ends_are_boundaries(s: Seq<char>)
    ensures
        is_char_boundary(encode_utf8(s), 0),
        is_char_boundary(encode_utf8(s), encode_utf8(s).len() as int),
{
    encode_utf8_valid_utf8(s);
    is_char_boundary_start_end_of_seq(encode_utf8(s));
}

/// Previous UTF-8 character boundary before `i`, clamped to the text: the
/// boundary a backspace or a step left lands on.
pub fn prev_boundary(s: &str, i: usize) -> (r: usize)
    ensures
        ({
            let m = if i <= s.spec_bytes().len() { i as int } else { s.spec_bytes().len() as int };
            &&& m == 0 ==> r == 0
            &&& m > 0 ==> {
                &&& r < m
                &&& is_char_boundary(s.spec_bytes(), r as int)
                &&& forall|k: int| r < k < m ==> !is_char_boundary(s.spec_bytes(), k)
            }
        }),
{
    proof {
        lemma_ends_are_boundaries(s@);
    }
    let n = s.as_bytes().len();
    let m = if i <= n {
        i
    } else {
        n
    };
    if m == 0 {
        return 0;
    }
    let mut j = m - 1;
    while j > 0 && !s.is_char_boundary(j)
        invariant
            j < m,
            m <= n,
            n == s.spec_bytes().len(),
            is_char_boundary(s.spec_bytes(), 0),
            forall|k: int| j < k < m ==> !is_char_boundary(s.spec_bytes(), k),
        decreases j,
    {
        j = j - 1;
    }
    j
}

/// Next UTF-8 character boundary after `i`, clamped to the text: the boundary
/// a forward delete or a step right lands on.
pub fn next_boundary(s: &str, i: usize) -> (r: usize)
    requires
        i < usize::MAX,
    ensures
        ({
            let n = s.spec_bytes().len() as int;
            let m = if i + 1 <= n { i + 1 } else { n };
            &&& m <= r <= n
            &&& is_char_boundary(s.spec_bytes(), r as int)
            &&& forall|k: int| m <= k < r ==> !is_char_boundary(s.spec_bytes(), k)
        }),
{
    proof {
        lemma_ends_are_boundaries(s@);
    }
    let n = s.as_bytes().len();
    let mut j = if i + 1 <= n {
        i + 1
    } else {
        n
    };
    let ghost m = j as int;
    while j < n && !s.is_char_boundary(j)
        invariant
            m <= j <= n,
            n == s.spec_bytes().len(),
            is_char_boundary(s.spec_bytes(), n as int),
            forall|k: int| m <= k < j ==> !is_char_boundary(s.spec_bytes(), k),
        decreases n - j,
    {
        j = j + 1;
    }
    j
}

} // verus!
