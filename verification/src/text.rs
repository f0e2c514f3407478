//! Character-level helpers shared by the report readers.

use vstd::prelude::*;

verus! {

broadcast use vstd::string::group_string_axioms;

/// The characters of `s`, in order.
pub fn chars_of(s: &str) -> (chars: Vec<char>)
    ensures
        chars@ == s@,
{
    let mut out: Vec<char> = Vec::new();
    for c in it: s.chars()
        invariant
            out@ == it.seq().take(it.index() as int),
            it.seq() == s@,
    {
        out.push(c);
    }
    out
}

} // verus!

verus! {

/// Whether `c` ends a line: a line feed always, a carriage return when `cut_cr`.
pub open spec fn is_line_break(c: char, cut_cr: bool) -> bool {
    c == '\n' || (cut_cr && c == '\r')
}

/// The pieces of `text` between its line breaks, in order, empty pieces
/// included (a text with `n` breaks has `n + 1` pieces).
pub open spec fn pieces(text: Seq<char>, cut_cr: bool) -> Seq<Seq<char>>
    decreases text.len(),
{
    if text.len() == 0 {
        seq![Seq::<char>::empty()]
    } else {
        let before = pieces(text.drop_last(), cut_cr);
        if is_line_break(text.last(), cut_cr) {
            before.push(Seq::<char>::empty())
        } else {
            before.update(before.len() - 1, before.last().push(text.last()))
        }
    }
}

pub proof fn lemma_pieces_len(text: Seq<char>, cut_cr: bool)
    ensures
        pieces(text, cut_cr).len() >= 1,
    decreases text.len(),
{
    if text.len() > 0 {
        lemma_pieces_len(text.drop_last(), cut_cr);
    }
}

/// The bounds `(start, end)` of each piece of `chars` (see `pieces`).
pub fn piece_bounds(chars: &Vec<char>, cut_cr: bool) -> (bounds: Vec<(usize, usize)>)
    ensures
        bounds@.len() == pieces(chars@, cut_cr).len(),
        forall|k: int|
            0 <= k < bounds@.len() ==> {
                &&& (#[trigger] bounds@[k]).0 <= bounds@[k].1 <= chars@.len()
                &&& chars@.subrange(bounds@[k].0 as int, bounds@[k].1 as int) == pieces(
                    chars@,
                    cut_cr,
                )[k]
            },
{
    let n = chars.len();
    let mut bounds: Vec<(usize, usize)> = Vec::new();
    let mut start: usize = 0;
    let mut i: usize = 0;
    assert(chars@.take(0) =~= Seq::<char>::empty());
    while i < n
        invariant
            n == chars@.len(),
            start <= i <= n,
            bounds@.len() + 1 == pieces(chars@.take(i as int), cut_cr).len(),
            forall|k: int|
                0 <= k < bounds@.len() ==> {
                    &&& (#[trigger] bounds@[k]).0 <= bounds@[k].1 <= i
                    &&& chars@.subrange(bounds@[k].0 as int, bounds@[k].1 as int) == pieces(
                        chars@.take(i as int),
                        cut_cr,
                    )[k]
                },
            chars@.subrange(start as int, i as int) == pieces(chars@.take(i as int), cut_cr).last(),
        decreases n - i,
    {
        let ghost before = pieces(chars@.take(i as int), cut_cr);
        let c = chars[i];
        assert(chars@.take(i + 1).drop_last() =~= chars@.take(i as int));
        assert(chars@.take(i + 1).last() == c);
        proof {
            lemma_pieces_len(chars@.take(i as int), cut_cr);
        }
        if c == '\n' || (cut_cr && c == '\r') {
            bounds.push((start, i));
            start = i + 1;
            assert(chars@.subrange(start as int, i + 1) =~= Seq::<char>::empty());
        } else {
            assert(chars@.subrange(start as int, i + 1) =~= chars@.subrange(
                start as int,
                i as int,
            ).push(c));
        }
        i = i + 1;
    }
    bounds.push((start, n));
    assert(chars@.take(n as int) =~= chars@);
    bounds
}

} // verus!

verus! {

/// The characters with the Unicode `White_Space` property: what
/// `char::is_whitespace`, `str::trim_start` and the regular-expression class
/// `\s` treat as white space.
pub open spec fn is_unicode_whitespace(c: char) -> bool {
    ||| ('\u{9}' <= c && c <= '\u{d}')
    ||| c == ' '
    ||| c == '\u{85}'
    ||| c == '\u{a0}'
    ||| c == '\u{1680}'
    ||| ('\u{2000}' <= c && c <= '\u{200a}')
    ||| c == '\u{2028}'
    ||| c == '\u{2029}'
    ||| c == '\u{202f}'
    ||| c == '\u{205f}'
    ||| c == '\u{3000}'
}

pub fn is_whitespace(c: char) -> (r: bool)
    ensures
        r == is_unicode_whitespace(c),
{
    ('\u{9}' <= c && c <= '\u{d}') || c == ' ' || c == '\u{85}' || c == '\u{a0}' || c == '\u{1680}'
        || ('\u{2000}' <= c && c <= '\u{200a}') || c == '\u{2028}' || c == '\u{2029}' || c
        == '\u{202f}' || c == '\u{205f}' || c == '\u{3000}'
}

/// `s` without its leading white space (what `str::trim_start` returns).
pub open spec fn trim_start(s: Seq<char>) -> Seq<char>
    decreases s.len(),
{
    if s.len() > 0 && is_unicode_whitespace(s[0]) {
        trim_start(s.drop_first())
    } else {
        s
    }
}

/// The index of the first `c` in `s`, or `s.len()` where there is none.
pub open spec fn first_index(s: Seq<char>, c: char) -> int
    decreases s.len(),
{
    if s.len() == 0 {
        0
    } else if s[0] == c {
        0
    } else {
        1 + first_index(s.drop_first(), c)
    }
}

/// The index of the last `c` in `s`, or `-1` where there is none.
pub open spec fn last_index(s: Seq<char>, c: char) -> int
    decreases s.len(),
{
    if s.len() == 0 {
        -1
    } else if s.last() == c {
        s.len() - 1
    } else {
        last_index(s.drop_last(), c)
    }
}

/// `first_index` is the position of the first occurrence.
pub proof fn lemma_first_index(s: Seq<char>, c: char, k: int)
    requires
        0 <= k <= s.len(),
        k < s.len() ==> s[k] == c,
        forall|j: int| 0 <= j < k ==> s[j] != c,
    ensures
        first_index(s, c) == k,
    decreases s.len(),
{
    if s.len() > 0 && s[0] != c {
        lemma_first_index(s.drop_first(), c, k - 1);
    }
}

/// `last_index` is the position of the last occurrence.
pub proof fn lemma_last_index(s: Seq<char>, c: char, k: int)
    requires
        -1 <= k < s.len(),
        k >= 0 ==> s[k] == c,
        forall|j: int| k < j < s.len() ==> s[j] != c,
    ensures
        last_index(s, c) == k,
    decreases s.len(),
{
    if s.len() > 0 && s.last() != c {
        lemma_last_index(s.drop_last(), c, k);
    }
}

/// The position of the first `c` in `v[from..to]`, or `to` where there is none.
pub fn find_first(v: &Vec<char>, from: usize, to: usize, c: char) -> (r: usize)
    requires
        from <= to <= v@.len(),
    ensures
        from <= r <= to,
        r - from == first_index(v@.subrange(from as int, to as int), c),
        r < to ==> v@[r as int] == c,
        forall|j: int| from <= j < r ==> v@[j] != c,
{
    let mut i = from;
    while i < to && v[i] != c
        invariant
            from <= i <= to <= v@.len(),
            forall|j: int| from <= j < i ==> v@[j] != c,
        decreases to - i,
    {
        i = i + 1;
    }
    proof {
        lemma_first_index(v@.subrange(from as int, to as int), c, i - from);
    }
    i
}

/// The position of the last `c` in `v[from..to]`, if there is one.
pub fn find_last(v: &Vec<char>, from: usize, to: usize, c: char) -> (r: Option<usize>)
    requires
        from <= to <= v@.len(),
    ensures
        match r {
            Some(k) => from <= k < to && k - from == last_index(
                v@.subrange(from as int, to as int),
                c,
            ),
            None => last_index(v@.subrange(from as int, to as int), c) == -1,
        },
{
    let mut i = to;
    while i > from
        invariant
            from <= i <= to <= v@.len(),
            forall|j: int| i <= j < to ==> v@[j] != c,
        decreases i - from,
    {
        if v[i - 1] == c {
            proof {
                lemma_last_index(v@.subrange(from as int, to as int), c, i - 1 - from);
            }
            return Some(i - 1);
        }
        i = i - 1;
    }
    proof {
        lemma_last_index(v@.subrange(from as int, to as int), c, -1);
    }
    None
}

/// The position where `v[from..to]` stops once its leading white space is skipped.
pub fn skip_whitespace(v: &Vec<char>, from: usize, to: usize) -> (r: usize)
    requires
        from <= to <= v@.len(),
    ensures
        from <= r <= to,
        v@.subrange(r as int, to as int) == trim_start(v@.subrange(from as int, to as int)),
{
    let mut i = from;
    while i < to && is_whitespace(v[i])
        invariant
            from <= i <= to <= v@.len(),
            trim_start(v@.subrange(i as int, to as int)) == trim_start(
                v@.subrange(from as int, to as int),
            ),
        decreases to - i,
    {
        assert(v@.subrange(i as int, to as int).drop_first() =~= v@.subrange(i + 1, to as int));
        i = i + 1;
    }
    i
}

/// Whether `v[from..to]` is `pattern`.
pub fn range_is(v: &Vec<char>, from: usize, to: usize, pattern: &Vec<char>) -> (r: bool)
    requires
        from <= to <= v@.len(),
    ensures
        r == (v@.subrange(from as int, to as int) == pattern@),
{
    if to - from != pattern.len() {
        return false;
    }
    let mut i: usize = 0;
    while i < pattern.len()
        invariant
            from <= to <= v@.len(),
            to - from == pattern@.len(),
            i <= pattern@.len(),
            forall|j: int| 0 <= j < i ==> v@[from + j] == pattern@[j],
        decreases pattern@.len() - i,
    {
        if v[from + i] != pattern[i] {
            assert(v@.subrange(from as int, to as int)[i as int] != pattern@[i as int]);
            return false;
        }
        i = i + 1;
    }
    assert(v@.subrange(from as int, to as int) =~= pattern@);
    true
}

/// A copy of `v[from..to]`.
pub fn copy_range(v: &Vec<char>, from: usize, to: usize) -> (r: Vec<char>)
    requires
        from <= to <= v@.len(),
    ensures
        r@ == v@.subrange(from as int, to as int),
{
    let mut out: Vec<char> = Vec::new();
    let mut i = from;
    while i < to
        invariant
            from <= i <= to <= v@.len(),
            out@ == v@.subrange(from as int, i as int),
        decreases to - i,
    {
        out.push(v[i]);
        i = i + 1;
        assert(out@ =~= v@.subrange(from as int, i as int));
    }
    out
}

} // verus!

verus! {

/// Whether `needle` occurs in `hay`.
pub open spec fn has_substring(hay: Seq<char>, needle: Seq<char>) -> bool {
    exists|i: int|
        0 <= i && i + needle.len() <= hay.len() && #[trigger] hay.subrange(i, i + needle.len())
            == needle
}

/// Whether `needle` occurs in `hay` (what `str::contains` answers).
pub fn contains_text(hay: &Vec<char>, needle: &Vec<char>) -> (r: bool)
    ensures
        r == has_substring(hay@, needle@),
{
    if needle.len() > hay.len() {
        return false;
    }
    if needle.len() == 0 {
        assert(hay@.subrange(0, 0 + needle@.len() as int) =~= needle@);
        return true;
    }
    let last = hay.len() - needle.len();
    let mut i: usize = 0;
    while i <= last
        invariant
            last + needle@.len() == hay@.len(),
            hay@.len() <= usize::MAX,
            needle@.len() > 0,
            i <= last + 1,
            forall|j: int|
                0 <= j < i ==> #[trigger] hay@.subrange(j, j + needle@.len()) != needle@,
        decreases last + 1 - i,
    {
        if range_is(hay, i, i + needle.len(), needle) {
            return true;
        }
        i = i + 1;
    }
    false
}

} // verus!

verus! {

/// Splitting at a line break: the pieces of `first`, the break and `second`
/// are the pieces of `first` followed by those of `second`.
pub proof fn lemma_pieces_concat(first: Seq<char>, sep: char, second: Seq<char>, cut_cr: bool)
    requires
        is_line_break(sep, cut_cr),
    ensures
        pieces(first + seq![sep] + second, cut_cr) == pieces(first, cut_cr) + pieces(second, cut_cr),
    decreases second.len(),
{
    let t = first + seq![sep] + second;
    if second.len() == 0 {
        assert(t.drop_last() =~= first);
        assert(pieces(second, cut_cr) =~= seq![Seq::<char>::empty()]);
        assert(pieces(t, cut_cr) =~= pieces(first, cut_cr) + pieces(second, cut_cr));
    } else {
        let rest = second.drop_last();
        assert(t.drop_last() =~= first + seq![sep] + rest);
        lemma_pieces_concat(first, sep, rest, cut_cr);
        lemma_pieces_len(rest, cut_cr);
        assert(t.last() == second.last());
        assert(second.drop_last() == rest);
        assert(pieces(t, cut_cr) =~= pieces(first, cut_cr) + pieces(second, cut_cr));
    }
}

/// Carriage returns turned into line feeds.
pub open spec fn cr_to_lf(text: Seq<char>) -> Seq<char> {
    text.map_values(|c: char| if c == '\r' { '\n' } else { c })
}

/// Where carriage returns end lines, turning them into line feeds changes no piece.
pub proof fn lemma_pieces_cr_to_lf(text: Seq<char>)
    ensures
        pieces(cr_to_lf(text), true) == pieces(text, true),
    decreases text.len(),
{
    if text.len() > 0 {
        assert(cr_to_lf(text).drop_last() =~= cr_to_lf(text.drop_last()));
        lemma_pieces_cr_to_lf(text.drop_last());
    }
}

/// Leading white space is what `trim_start` removes.
pub proof fn lemma_trim_start_after_whitespace(space: Seq<char>, s: Seq<char>)
    requires
        forall|i: int| 0 <= i < space.len() ==> is_unicode_whitespace(#[trigger] space[i]),
    ensures
        trim_start(space + s) == trim_start(s),
    decreases space.len(),
{
    if space.len() > 0 {
        assert((space + s).drop_first() =~= space.drop_first() + s);
        lemma_trim_start_after_whitespace(space.drop_first(), s);
    } else {
        assert(space + s =~= s);
    }
}

} // verus!

verus! {

pub proof fn lemma_last_index_bounds(s: Seq<char>, c: char)
    ensures
        -1 <= last_index(s, c) < s.len(),
        last_index(s, c) >= 0 ==> s[last_index(s, c)] == c,
    decreases s.len(),
{
    if s.len() > 0 && s.last() != c {
        lemma_last_index_bounds(s.drop_last(), c);
    }
}

} // verus!

verus! {

/// A text holds `needle` wherever `needle` stands in it: at any position,
/// after any characters (line breaks too).
pub proof fn law_substring_anywhere(before: Seq<char>, needle: Seq<char>, after: Seq<char>)
    ensures
        has_substring(before + needle + after, needle),
{
    let hay = before + needle + after;
    let i = before.len() as int;
    assert(hay.subrange(i, i + needle.len()) =~= needle);
}

/// A text without line breaks is a single piece.
pub proof fn law_pieces_one_line(text: Seq<char>, cut_cr: bool)
    requires
        forall|i: int| 0 <= i < text.len() ==> text[i] != '\n' && (cut_cr ==> text[i] != '\r'),
    ensures
        pieces(text, cut_cr) == seq![text],
    decreases text.len(),
{
    if text.len() > 0 {
        law_pieces_one_line(text.drop_last(), cut_cr);
        assert(text.drop_last().push(text.last()) =~= text);
        assert(seq![text.drop_last()].update(0, text) =~= seq![text]);
    } else {
        assert(text =~= Seq::<char>::empty());
    }
}

/// `first_index` lies within `s`, points at `c` when it is not `s.len()`, and
/// no `c` stands before it.
pub proof fn lemma_first_index_props(s: Seq<char>, c: char)
    ensures
        0 <= first_index(s, c) <= s.len(),
        first_index(s, c) < s.len() ==> s[first_index(s, c)] == c,
        forall|j: int| 0 <= j < first_index(s, c) ==> s[j] != c,
    decreases s.len(),
{
    if s.len() > 0 && s[0] != c {
        lemma_first_index_props(s.drop_first(), c);
        assert forall|j: int| 0 <= j < first_index(s, c) implies s[j] != c by {
            if j > 0 {
                assert(s[j] == s.drop_first()[j - 1]);
            }
        }
    }
}

} // verus!

verus! {

/// `trim_start` drops a run of white space from the front of `s`, and no more.
pub proof fn lemma_trim_start_index(s: Seq<char>) -> (k: int)
    ensures
        0 <= k <= s.len(),
        trim_start(s) == s.skip(k),
        forall|j: int| 0 <= j < k ==> is_unicode_whitespace(#[trigger] s[j]),
        k < s.len() ==> !is_unicode_whitespace(s[k]),
    decreases s.len(),
{
    if s.len() > 0 && is_unicode_whitespace(s[0]) {
        let k1 = lemma_trim_start_index(s.drop_first());
        assert(s.drop_first().skip(k1) =~= s.skip(k1 + 1));
        assert forall|j: int| 0 <= j < k1 + 1 implies is_unicode_whitespace(#[trigger] s[j]) by {
            if j > 0 {
                assert(s[j] == s.drop_first()[j - 1]);
            }
        }
        k1 + 1
    } else {
        assert(s.skip(0) =~= s);
        0
    }
}

/// `first_index` lies within `s` and, when it is not `s.len()`, points at `c`.
pub proof fn lemma_first_index_hit(s: Seq<char>, c: char)
    ensures
        0 <= first_index(s, c) <= s.len(),
        first_index(s, c) < s.len() ==> s[first_index(s, c)] == c,
    decreases s.len(),
{
    if s.len() > 0 && s[0] != c {
        lemma_first_index_hit(s.drop_first(), c);
    }
}

/// A text cut around position `i` is the part before it, its character, and
/// the part after it.
pub proof fn lemma_split_at(s: Seq<char>, i: int)
    requires
        0 <= i < s.len(),
    ensures
        s == s.take(i) + seq![s[i]] + s.skip(i + 1),
{
    assert(s =~= s.take(i) + seq![s[i]] + s.skip(i + 1));
}

} // verus!
