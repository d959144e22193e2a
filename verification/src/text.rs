//! Small tools for reading configuration text: characters in and out of
//! strings, splitting at a separator, and trimming white space.

use vstd::prelude::*;

verus! {

/// `String::push` appends one character.
pub assume_specification[ String::push ](s: &mut String, ch: char)
    ensures
        final(s)@ == old(s)@.push(ch),
;

/// What `char::is_whitespace` answers for `c`: whether Unicode counts the
/// character as white space.
pub uninterp spec fn is_white_space(c: char) -> bool;

/// Calls `char::is_whitespace`.
#[verifier::external_body]
pub(crate) fn char_is_whitespace(c: char) -> (white: bool)
    ensures
        white == is_white_space(c),
{
    c.is_whitespace()
}

/// What `str::to_lowercase` makes of `s`: its lowercase equivalent by the
/// Unicode case mapping.
pub uninterp spec fn lowercase(s: Seq<char>) -> Seq<char>;

/// Calls `str::to_lowercase`.
#[verifier::external_body]
pub(crate) fn to_lowercase(s: &str) -> (lower: String)
    ensures
        lower@ == lowercase(s@),
{
    s.to_lowercase()
}

/// What `str::parse::<u8>` reads from `s`: the number that `s` writes in
/// decimal, or `None` where `s` is no such number or the number does not fit.
pub uninterp spec fn decimal_u8(s: Seq<char>) -> Option<u8>;

/// Calls `str::parse::<u8>` and drops the reason of a failure.
#[verifier::external_body]
pub(crate) fn parse_u8(s: &str) -> (number: Option<u8>)
    ensures
        number == decimal_u8(s@),
{
    s.parse::<u8>().ok()
}

/// What `str::parse::<i8>` reads from `s`: the number that `s` writes in
/// decimal, or `None` where `s` is no such number or the number does not fit.
pub uninterp spec fn decimal_i8(s: Seq<char>) -> Option<i8>;

/// Calls `str::parse::<i8>` and drops the reason of a failure.
#[verifier::external_body]
pub(crate) fn parse_i8(s: &str) -> (number: Option<i8>)
    ensures
        number == decimal_i8(s@),
{
    s.parse::<i8>().ok()
}

/// What `str::lines` makes of `s`: its lines in order, each without its line
/// ending.
pub uninterp spec fn lines_of(s: Seq<char>) -> Seq<Seq<char>>;

/// Calls `str::lines` and collects the lines as strings of their own.
#[verifier::external_body]
pub(crate) fn lines(s: &str) -> (list: Vec<String>)
    ensures
        strings(list@) == lines_of(s@),
{
    s.lines().map(String::from).collect()
}

/// The mathematical content of a list of strings.
pub open spec fn strings(list: Seq<String>) -> Seq<Seq<char>> {
    Seq::new(list.len(), |i: int| list[i]@)
}

/// The pieces of `s` between the occurrences of `sep`, in order. A text with
/// `n` separators has `n + 1` pieces, some of them possibly empty.
pub open spec fn split_on(s: Seq<char>, sep: char) -> Seq<Seq<char>>
    decreases s.len(),
{
    if s.len() == 0 {
        seq![Seq::<char>::empty()]
    } else {
        let before = split_on(s.drop_last(), sep);
        if s.last() == sep {
            before.push(Seq::<char>::empty())
        } else {
            before.drop_last().push(before.last().push(s.last()))
        }
    }
}

/// `s` without the white space at its start.
pub open spec fn trimmed_start(s: Seq<char>) -> Seq<char>
    decreases s.len(),
{
    if s.len() > 0 && is_white_space(s.first()) {
        trimmed_start(s.drop_first())
    } else {
        s
    }
}

/// `s` without the white space at its end.
pub open spec fn trimmed_end(s: Seq<char>) -> Seq<char>
    decreases s.len(),
{
    if s.len() > 0 && is_white_space(s.last()) {
        trimmed_end(s.drop_last())
    } else {
        s
    }
}

/// `s` without the white space at its start and at its end.
pub open spec fn trimmed(s: Seq<char>) -> Seq<char> {
    trimmed_end(trimmed_start(s))
}

/// A text always splits into at least one piece.
pub proof fn lemma_split_on_nonempty(s: Seq<char>, sep: char)
    ensures
        split_on(s, sep).len() >= 1,
    decreases s.len(),
{
    if s.len() > 0 {
        lemma_split_on_nonempty(s.drop_last(), sep);
    }
}

/// The characters of a string.
pub fn chars_of(s: &str) -> (chars: Vec<char>)
    ensures
        chars@ == s@,
{
    let mut chars: Vec<char> = Vec::new();
    for c in it: s.chars()
        invariant
            it.seq() == s@,
            chars@ == s@.take(it.index() as int),
    {
        chars.push(c);
        assert(s@.take(it.index() + 1) =~= s@.take(it.index() as int).push(c));
    }
    assert(s@.take(s@.len() as int) =~= s@);
    chars
}

/// Tells whether a text is the given word.
pub fn text_is(chars: &Vec<char>, word: &str) -> (same: bool)
    ensures
        same == (chars@ == word@),
{
    let mut i: usize = 0;
    let mut same = true;
    for c in it: word.chars()
        invariant
            it.seq() == word@,
            same ==> i == it.index() && i <= chars.len() && chars@.take(i as int) == word@.take(
                i as int,
            ),
            !same ==> chars@ != word@,
    {
        if same {
            if i < chars.len() && chars[i] == c {
                assert(chars@.take(i + 1) =~= chars@.take(i as int).push(chars@[i as int]));
                assert(word@.take(i + 1) =~= word@.take(i as int).push(word@[i as int]));
                i += 1;
            } else {
                assert(chars@ != word@) by {
                    if chars@ == word@ {
                        assert(chars@[i as int] == word@[i as int]);
                    }
                }
                same = false;
            }
        }
    }
    if same {
        assert(word@.take(word@.len() as int) =~= word@);
        assert(chars@.take(chars@.len() as int) =~= chars@);
        if i != chars.len() {
            assert(chars@.len() != word@.len());
        }
    }
    same && i == chars.len()
}

/// Tells whether two strings consist of the same characters.
pub fn str_eq(a: &str, b: &str) -> (same: bool)
    ensures
        same == (a@ == b@),
{
    let chars = chars_of(a);
    text_is(&chars, b)
}

/// Tells whether a text starts with the given prefix.
pub fn starts_with(chars: &Vec<char>, prefix: &str) -> (starts: bool)
    ensures
        starts == prefix@.is_prefix_of(chars@),
{
    let head = chars_of(prefix);
    if head.len() > chars.len() {
        return false;
    }
    let mut i: usize = 0;
    while i < head.len()
        invariant
            i <= head.len() <= chars.len(),
            head@ == prefix@,
            forall|k: int| 0 <= k < i ==> head@[k] == chars@[k],
        decreases head.len() - i,
    {
        if head[i] != chars[i] {
            assert(chars@.subrange(0, head@.len() as int)[i as int] != head@[i as int]);
            return false;
        }
        i += 1;
    }
    assert(chars@.subrange(0, head@.len() as int) =~= head@);
    true
}

/// The string made of the given characters.
pub fn string_of(chars: &Vec<char>) -> (s: String)
    ensures
        s@ == chars@,
{
    let mut s = String::new();
    let mut i: usize = 0;
    while i < chars.len()
        invariant
            i <= chars.len(),
            s@ == chars@.take(i as int),
        decreases chars.len() - i,
    {
        s.push(chars[i]);
        assert(chars@.take(i + 1) =~= chars@.take(i as int).push(chars@[i as int]));
        i += 1;
    }
    assert(chars@.take(chars.len() as int) =~= chars@);
    s
}

/// The mathematical content of a list of texts.
pub open spec fn texts(list: Seq<Vec<char>>) -> Seq<Seq<char>> {
    Seq::new(list.len(), |i: int| list[i]@)
}

/// Splits a text at every occurrence of `sep`.
pub fn split(chars: &Vec<char>, sep: char) -> (pieces: Vec<Vec<char>>)
    ensures
        texts(pieces@) == split_on(chars@, sep),
{
    let mut pieces: Vec<Vec<char>> = Vec::new();
    let mut piece: Vec<char> = Vec::new();
    let mut i: usize = 0;
    assert(chars@.take(0) =~= Seq::<char>::empty());
    assert(texts(pieces@).push(piece@) =~= seq![Seq::<char>::empty()]);
    while i < chars.len()
        invariant
            i <= chars.len(),
            texts(pieces@).push(piece@) == split_on(chars@.take(i as int), sep),
        decreases chars.len() - i,
    {
        let ghost before = split_on(chars@.take(i as int), sep);
        let ghost upto = chars@.take(i + 1);
        assert(upto.drop_last() =~= chars@.take(i as int));
        assert(upto.last() == chars@[i as int]);
        let c = chars[i];
        if c == sep {
            let ghost old_pieces = texts(pieces@);
            pieces.push(piece);
            piece = Vec::new();
            assert(texts(pieces@) =~= before);
            assert(texts(pieces@).push(piece@) =~= before.push(Seq::<char>::empty()));
        } else {
            let ghost old_piece = piece@;
            piece.push(c);
            assert(before.drop_last() =~= texts(pieces@));
            assert(before.last() == old_piece);
        }
        i += 1;
    }
    assert(chars@.take(chars.len() as int) =~= chars@);
    let ghost all = texts(pieces@).push(piece@);
    pieces.push(piece);
    assert(texts(pieces@) =~= all);
    pieces
}

/// Removes the white space at both ends of a text.
pub fn trim(chars: &Vec<char>) -> (inner: Vec<char>)
    ensures
        inner@ == trimmed(chars@),
{
    let n = chars.len();
    let mut start: usize = 0;
    assert(chars@.skip(0) =~= chars@);
    while start < n && char_is_whitespace(chars[start])
        invariant
            start <= n,
            n == chars.len(),
            trimmed_start(chars@) == trimmed_start(chars@.skip(start as int)),
        decreases n - start,
    {
        assert(chars@.skip(start as int).drop_first() =~= chars@.skip(start + 1));
        start += 1;
    }
    assert(trimmed_start(chars@) == chars@.skip(start as int));
    let mut end: usize = n;
    assert(chars@.subrange(start as int, n as int) =~= chars@.skip(start as int));
    while end > start && char_is_whitespace(chars[end - 1])
        invariant
            start <= end <= n,
            n == chars.len(),
            trimmed(chars@) == trimmed_end(chars@.subrange(start as int, end as int)),
        decreases end - start,
    {
        assert(chars@.subrange(start as int, end as int).drop_last() =~= chars@.subrange(
            start as int,
            end - 1,
        ));
        end -= 1;
    }
    assert(trimmed(chars@) == chars@.subrange(start as int, end as int));
    let mut inner: Vec<char> = Vec::new();
    let mut i: usize = start;
    while i < end
        invariant
            start <= i <= end <= chars.len(),
            inner@ == chars@.subrange(start as int, i as int),
        decreases end - i,
    {
        inner.push(chars[i]);
        assert(chars@.subrange(start as int, i + 1) =~= chars@.subrange(start as int, i as int).push(
            chars@[i as int],
        ));
        i += 1;
    }
    inner
}

} // verus!
