//! Placeholders: `{{name}}` markers in an expansion, where the cursor goes.
//!
//! A placeholder starts at the first `{{` found from a given position and ends
//! after the first `}}` that follows that `{{`.

use crate::text::{byte_len, chars_of, push_chars, utf8_len};
use vstd::prelude::*;

verus! {

/// The characters `a` and `b` stand at positions `i` and `i + 1` of `s`.
pub open spec fn pair_at(s: Seq<char>, i: int, a: char, b: char) -> bool {
    0 <= i && i + 1 < s.len() && s[i] == a && s[i + 1] == b
}

/// `i` is the first position at or after `from` where the pair `a b` stands.
pub open spec fn is_first_pair_from(s: Seq<char>, a: char, b: char, from: int, i: int) -> bool {
    &&& from <= i
    &&& pair_at(s, i, a, b)
    &&& forall|j: int| from <= j < i ==> !#[trigger] pair_at(s, j, a, b)
}

/// The first position at or after `from` where the pair `a b` stands.
pub open spec fn first_pair_from(s: Seq<char>, a: char, b: char, from: int) -> Option<int> {
    if exists|i: int| is_first_pair_from(s, a, b, from, i) {
        Some(choose|i: int| is_first_pair_from(s, a, b, from, i))
    } else {
        None
    }
}

/// The bounds `(start, end)` of the first placeholder that starts at or after
/// `from`: `start` is the first `{{` from `from`, and `end` is just past the
/// first `}}` after that `{{`.
pub open spec fn next_placeholder(s: Seq<char>, from: int) -> Option<(int, int)> {
    match first_pair_from(s, '{', '{', from) {
        None => None,
        Some(start) => match first_pair_from(s, '}', '}', start + 2) {
            None => None,
            Some(close) => Some((start, close + 2)),
        },
    }
}

/// `s` with the characters in `start..end` removed.
pub open spec fn cut(s: Seq<char>, start: int, end: int) -> Seq<char> {
    s.take(start) + s.skip(end)
}

/// The outcome of removing the first placeholder from a text.
pub struct PlaceholderResult {
    /// The text with the placeholder removed.
    pub text: String,
    /// The byte offset where the placeholder stood, or the cursor given.
    pub cursor: usize,
}

/// The first position `i >= from` where `v[i] == a` and `v[i + 1] == b`.
fn find_pair(v: &[char], from: usize, a: char, b: char) -> (r: Option<usize>)
    requires
        from <= v@.len(),
    ensures
        r == (match first_pair_from(v@, a, b, from as int) {
            Some(i) => Some(i as usize),
            None => None::<usize>,
        }),
        match r {
            Some(i) => is_first_pair_from(v@, a, b, from as int, i as int),
            None => forall|k: int| !#[trigger] is_first_pair_from(v@, a, b, from as int, k),
        },
{
    let ghost s = v@;
    let mut i = from;
    while v.len() - i >= 2
        invariant
            from <= i <= v@.len(),
            s == v@,
            forall|j: int| from <= j < i ==> !#[trigger] pair_at(s, j, a, b),
        decreases v@.len() - i,
    {
        if v[i] == a && v[i + 1] == b {
            assert(is_first_pair_from(s, a, b, from as int, i as int));
            assert forall|k: int| is_first_pair_from(s, a, b, from as int, k) implies k == i by {
                if k < i {
                    assert(!pair_at(s, k, a, b));
                } else if k > i {
                    assert(pair_at(s, i as int, a, b));
                }
            }
            return Some(i);
        }
        assert(!pair_at(s, i as int, a, b));
        i = i + 1;
    }
    assert forall|k: int| !is_first_pair_from(s, a, b, from as int, k) by {
        if from <= k < i {
            assert(!pair_at(s, k, a, b));
        }
    }
    None
}

/// The bounds of the first placeholder of `v` starting at or after `from`.
fn placeholder_in(v: &[char], from: usize) -> (r: Option<(usize, usize)>)
    requires
        from <= v@.len(),
    ensures
        r == (match next_placeholder(v@, from as int) {
            Some((s, e)) => Some((s as usize, e as usize)),
            None => None::<(usize, usize)>,
        }),
        r matches Some((s, e)) ==> from <= s && s + 4 <= e <= v@.len(),
{
    let n = v.len();
    match find_pair(v, from, '{', '{') {
        None => None,
        Some(start) => {
            match find_pair(v, start + 2, '}', '}') {
                None => None,
                Some(close) => {
                    Some((start, close + 2))
                },
            }
        },
    }
}

/// The bounds `(start, end)`, counted in characters, of the first placeholder
/// of `text` that starts at or after the character position `from`.
pub fn find_next_placeholder(text: &str, from: usize) -> (r: Option<(usize, usize)>)
    ensures
        from <= text@.len() ==> r == (match next_placeholder(text@, from as int) {
            Some((s, e)) => Some((s as usize, e as usize)),
            None => None::<(usize, usize)>,
        }),
        from > text@.len() ==> r is None,
{
    let v = chars_of(text);
    if from > v.len() {
        return None;
    }
    placeholder_in(v.as_slice(), from)
}

/// Removes the first placeholder of `text`. The cursor becomes the byte offset
/// where the placeholder stood; without a placeholder the text is unchanged and
/// the cursor is `cursor`.
pub fn apply_first_placeholder(text: &str, cursor: usize) -> (r: PlaceholderResult)
    ensures
        match next_placeholder(text@, 0) {
            Some((s, e)) => {
                &&& r.text@ == cut(text@, s, e)
                &&& r.cursor == utf8_len(text@.take(s))
            },
            None => {
                &&& r.text@ == text@
                &&& r.cursor == cursor
            },
        },
{
    let v = chars_of(text);
    match placeholder_in(v.as_slice(), 0) {
        None => {
            let mut t = String::new();
            push_chars(&mut t, v.as_slice(), 0, v.len());
            assert(v@.subrange(0, v@.len() as int) == v@);
            PlaceholderResult { text: t, cursor }
        },
        Some((s, e)) => {
            let mut t = String::new();
            push_chars(&mut t, v.as_slice(), 0, s);
            let c = byte_len(&t);
            push_chars(&mut t, v.as_slice(), e, v.len());
            assert(v@.subrange(0, s as int) == v@.take(s as int));
            assert(v@.subrange(e as int, v@.len() as int) == v@.skip(e as int));
            PlaceholderResult { text: t, cursor: c }
        },
    }
}

/// `s` from position `from` on, with every placeholder removed: each
/// placeholder is found from where the previous one ended.
pub open spec fn strip_placeholders_from(s: Seq<char>, from: int) -> Seq<char>
    decreases s.len() - from,
{
    if 0 <= from <= s.len() {
        match next_placeholder(s, from) {
            Some((start, end)) => if from <= start && start + 4 <= end <= s.len() {
                s.subrange(from, start) + strip_placeholders_from(s, end)
            } else {
                s.skip(from)
            },
            None => s.skip(from),
        }
    } else {
        Seq::empty()
    }
}

/// Removes every placeholder of `text`.
pub fn remove_all_placeholders(text: &str) -> (r: String)
    ensures
        r@ == strip_placeholders_from(text@, 0),
{
    let v = chars_of(text);
    let vs = v.as_slice();
    let n = vs.len();
    let ghost s = v@;
    let mut out = String::new();
    let mut from: usize = 0;
    loop
        invariant
            from <= n == s.len(),
            s == vs@,
            s == text@,
            out@ + strip_placeholders_from(s, from as int) == strip_placeholders_from(s, 0),
        decreases n - from,
    {
        match placeholder_in(vs, from) {
            Some((start, end)) => {
                push_chars(&mut out, vs, from, start);
                assert(out@ + strip_placeholders_from(s, end as int) =~= strip_placeholders_from(
                    s,
                    0,
                ));
                from = end;
            },
            None => {
                push_chars(&mut out, vs, from, n);
                assert(s.subrange(from as int, n as int) == s.skip(from as int));
                return out;
            },
        }
    }
}

/// A pair that stands at or after `from` means a first one does, no later
/// than it.
proof fn lemma_first_pair_exists(s: Seq<char>, a: char, b: char, from: int, i: int)
    requires
        from <= i,
        pair_at(s, i, a, b),
    ensures
        first_pair_from(s, a, b, from) matches Some(k) && from <= k <= i && is_first_pair_from(
            s,
            a,
            b,
            from,
            k,
        ),
    decreases i - from,
{
    if exists|j: int| from <= j < i && #[trigger] pair_at(s, j, a, b) {
        let j = choose|j: int| from <= j < i && #[trigger] pair_at(s, j, a, b);
        lemma_first_pair_exists(s, a, b, from, j);
    } else {
        assert(is_first_pair_from(s, a, b, from, i));
    }
    let k = choose|k: int| is_first_pair_from(s, a, b, from, k);
    assert(is_first_pair_from(s, a, b, from, k));
    if k > i {
        assert(!pair_at(s, i, a, b));
    }
}

/// No `{{` in `r` is followed, two or more positions later, by a `}}`.
pub open spec fn no_open_before_close(r: Seq<char>) -> bool {
    forall|i: int, j: int|
        #[trigger] pair_at(r, i, '{', '{') && i + 2 <= j ==> !#[trigger] pair_at(r, j, '}', '}')
}

proof fn lemma_strip_leaves_no_pair(s: Seq<char>, from: int)
    requires
        0 <= from <= s.len(),
    ensures
        no_open_before_close(strip_placeholders_from(s, from)),
    decreases s.len() - from,
{
    lemma_placeholder_removal(s, from);
    let r = strip_placeholders_from(s, from);
    match next_placeholder(s, from) {
        Some((start, end)) => {
            lemma_strip_leaves_no_pair(s, end);
            let a = s.subrange(from, start);
            let rest = strip_placeholders_from(s, end);
            assert(r == a + rest);
            let o = choose|k: int| #[trigger] is_first_pair_from(s, '{', '{', from, k);
            assert(is_first_pair_from(s, '{', '{', from, o));
            assert forall|i: int, j: int|
                #[trigger] pair_at(r, i, '{', '{') && i + 2 <= j implies !#[trigger] pair_at(
                r,
                j,
                '}',
                '}',
            ) by {
                if i + 1 < a.len() {
                    assert(r[i] == s[from + i] && r[i + 1] == s[from + i + 1]);
                    assert(pair_at(s, from + i, '{', '{'));
                } else if i + 1 == a.len() {
                    assert(r[i] == s[start - 1]);
                    assert(s[start] == '{');
                    assert(!pair_at(s, start - 1, '{', '{'));
                } else {
                    let i2 = i - a.len();
                    let j2 = j - a.len();
                    assert(rest[i2] == r[i] && rest[i2 + 1] == r[i + 1]);
                    assert(pair_at(rest, i2, '{', '{'));
                    if pair_at(r, j, '}', '}') {
                        assert(rest[j2] == r[j] && rest[j2 + 1] == r[j + 1]);
                        assert(pair_at(rest, j2, '}', '}'));
                    }
                }
            }
        },
        None => {
            assert(r == s.skip(from));
            assert forall|i: int, j: int|
                #[trigger] pair_at(r, i, '{', '{') && i + 2 <= j implies !#[trigger] pair_at(
                r,
                j,
                '}',
                '}',
            ) by {
                assert(r[i] == s[from + i] && r[i + 1] == s[from + i + 1]);
                assert(pair_at(s, from + i, '{', '{'));
                lemma_first_pair_exists(s, '{', '{', from, from + i);
                let st = first_pair_from(s, '{', '{', from)->0;
                if pair_at(r, j, '}', '}') {
                    assert(r[j] == s[from + j] && r[j + 1] == s[from + j + 1]);
                    assert(pair_at(s, from + j, '}', '}'));
                    lemma_first_pair_exists(s, '}', '}', st + 2, from + j);
                }
            }
        },
    }
}

/// Once every placeholder is removed, none is left.
pub proof fn lemma_no_placeholder_left(s: Seq<char>)
    ensures
        next_placeholder(strip_placeholders_from(s, 0), 0) is None,
{
    let r = strip_placeholders_from(s, 0);
    lemma_strip_leaves_no_pair(s, 0);
    if let Some((st, e)) = next_placeholder(r, 0) {
        let o = choose|k: int| #[trigger] is_first_pair_from(r, '{', '{', 0, k);
        assert(is_first_pair_from(r, '{', '{', 0, o));
        let c = choose|k: int| #[trigger] is_first_pair_from(r, '}', '}', o + 2, k);
        assert(is_first_pair_from(r, '}', '}', o + 2, c));
        assert(pair_at(r, o, '{', '{') && o + 2 <= c);
        assert(!pair_at(r, c, '}', '}'));
    }
}

/// A placeholder found from `from` lies at or after `from`, opens with `{{`,
/// closes with `}}`, and no `{{` starts between `from` and it; putting its text
/// back where it was removed restores the text it was removed from.
pub proof fn lemma_placeholder_removal(s: Seq<char>, from: int)
    requires
        0 <= from,
    ensures
        next_placeholder(s, from) matches Some((start, end)) ==> {
            &&& from <= start
            &&& start + 4 <= end <= s.len()
            &&& s.subrange(start, start + 2) == seq!['{', '{']
            &&& s.subrange(end - 2, end) == seq!['}', '}']
            &&& forall|j: int| from <= j < start ==> !#[trigger] pair_at(s, j, '{', '{')
            &&& cut(s, start, end).take(start) + s.subrange(start, end) + cut(s, start, end).skip(
                start,
            ) == s
        },
{
    if let Some((start, end)) = next_placeholder(s, from) {
        let o = choose|i: int| #[trigger] is_first_pair_from(s, '{', '{', from, i);
        assert(is_first_pair_from(s, '{', '{', from, o));
        let c = choose|i: int| #[trigger] is_first_pair_from(s, '}', '}', o + 2, i);
        assert(is_first_pair_from(s, '}', '}', o + 2, c));
        assert(s.subrange(start, start + 2) =~= seq!['{', '{']);
        assert(s.subrange(end - 2, end) =~= seq!['}', '}']);
        let t = cut(s, start, end);
        assert(t.take(start) + s.subrange(start, end) + t.skip(start) =~= s);
    }
}

} // verus!
