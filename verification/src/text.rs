//! Splitting, trimming and reading of text.

use vstd::prelude::*;

verus! {

/// Whether `c` is white space: a character with the Unicode property of
/// that name.
pub open spec fn is_space(c: char) -> bool {
    let n = c as u32;
    n == 0x20 || (0x09 <= n && n <= 0x0d) || n == 0x85 || n == 0xa0 || n == 0x1680 || (0x2000
        <= n && n <= 0x200a) || n == 0x2028 || n == 0x2029 || n == 0x202f || n == 0x205f || n
        == 0x3000
}

/// Whether `c` is white space of ASCII: a blank, a tab, a line feed, a form
/// feed or a carriage return.
pub open spec fn is_ascii_space(c: char) -> bool {
    let n = c as u32;
    n == 0x20 || n == 0x09 || n == 0x0a || n == 0x0c || n == 0x0d
}

/// Whether `c` is white space.
pub fn space(c: char) -> (r: bool)
    ensures
        r == is_space(c),
{
    let n = c as u32;
    n == 0x20 || (0x09 <= n && n <= 0x0d) || n == 0x85 || n == 0xa0 || n == 0x1680 || (0x2000
        <= n && n <= 0x200a) || n == 0x2028 || n == 0x2029 || n == 0x202f || n == 0x205f || n
        == 0x3000
}

/// Whether `c` is white space of ASCII.
pub fn ascii_space(c: char) -> (r: bool)
    ensures
        r == is_ascii_space(c),
{
    let n = c as u32;
    n == 0x20 || n == 0x09 || n == 0x0a || n == 0x0c || n == 0x0d
}

/// What parts a text.
#[derive(Clone, Copy, Debug, PartialEq, Eq, Structural)]
pub enum Sep {
    /// This character.
    Char(char),
    /// Any white space.
    Space,
    /// Any white space of ASCII.
    AsciiSpace,
}

impl Sep {
    /// Whether `c` parts a text.
    pub open spec fn cuts(self, c: char) -> bool {
        match self {
            Sep::Char(sep) => c == sep,
            Sep::Space => is_space(c),
            Sep::AsciiSpace => is_ascii_space(c),
        }
    }

    /// Whether `c` parts a text.
    pub fn parts(&self, c: char) -> (r: bool)
        ensures
            r == self.cuts(c),
    {
        match self {
            Sep::Char(sep) => c == *sep,
            Sep::Space => space(c),
            Sep::AsciiSpace => ascii_space(c),
        }
    }
}

/// The pieces into which the separators part `s`, the empty ones too: one
/// more than there are separators.
pub open spec fn split(s: Seq<char>, sep: Sep) -> Seq<Seq<char>>
    decreases s.len(),
{
    if s.len() == 0 {
        seq![Seq::empty()]
    } else {
        let head = split(s.drop_last(), sep);
        if sep.cuts(s.last()) {
            head.push(Seq::empty())
        } else {
            head.drop_last().push(head.last().push(s.last()))
        }
    }
}

/// The condition of not being empty.
pub open spec fn filled() -> spec_fn(Seq<char>) -> bool {
    |piece: Seq<char>| piece.len() > 0
}

/// The pieces of `s` between separators that are not empty.
pub open spec fn words(s: Seq<char>, sep: Sep) -> Seq<Seq<char>> {
    split(s, sep).filter(filled())
}

/// The number of characters of white space with which `s` begins.
pub open spec fn lead(s: Seq<char>) -> int
    decreases s.len(),
{
    if s.len() == 0 {
        0
    } else {
        let before = lead(s.drop_last());
        if before == s.len() - 1 && is_space(s.last()) {
            s.len() as int
        } else {
            before
        }
    }
}

/// The place behind the last character of `s` that is not white space; 0 if
/// there is none.
pub open spec fn keep(s: Seq<char>) -> int
    decreases s.len(),
{
    if s.len() == 0 {
        0
    } else if is_space(s.last()) {
        keep(s.drop_last())
    } else {
        s.len() as int
    }
}

/// `s` without the white space at its two ends.
pub open spec fn trimmed(s: Seq<char>) -> Seq<char> {
    if lead(s) >= keep(s) {
        Seq::empty()
    } else {
        s.subrange(lead(s), keep(s))
    }
}

/// The place of the first line feed in `s`; its length if it has none.
pub open spec fn line_end(s: Seq<char>) -> int
    decreases s.len(),
{
    if s.len() == 0 {
        0
    } else {
        let before = line_end(s.drop_last());
        if before == s.len() - 1 && s.last() != '\n' {
            s.len() as int
        } else {
            before
        }
    }
}

/// The first line of `s`, without the line feed that ends it.
pub open spec fn first_line(s: Seq<char>) -> Seq<char> {
    s.subrange(0, line_end(s))
}

/// The trimming of a piece.
pub open spec fn trim_each() -> spec_fn(Seq<char>) -> Seq<char> {
    |piece: Seq<char>| trimmed(piece)
}

/// The trimmed pieces of `s` between separators that are not empty.
pub open spec fn entries(s: Seq<char>, sep: Sep) -> Seq<Seq<char>> {
    split(s, sep).map_values(trim_each()).filter(filled())
}

/// Why a text is not a number.
#[derive(Clone, Copy, Debug, PartialEq, Eq, Structural)]
pub enum IntErrorKind {
    /// The text is empty.
    Empty,
    /// A character is not a digit: a sign without digits, a minus, white
    /// space, or anything else.
    InvalidDigit,
    /// The number is too large.
    PosOverflow,
}

/// Whether `c` is one of the ten digits.
pub open spec fn is_digit(c: char) -> bool {
    '0' as u32 <= c as u32 && c as u32 <= '9' as u32
}

/// The value of the digit `c`.
pub open spec fn digit_value(c: char) -> int {
    c as u32 - '0' as u32
}

/// The number below 256 that the digits `digits` write when `so_far` is
/// what the digits before them have written, or what is wrong with the
/// first character that spoils it.
pub open spec fn digits_from(digits: Seq<char>, so_far: int) -> Result<u8, IntErrorKind>
    decreases digits.len(),
{
    if digits.len() == 0 {
        Ok(so_far as u8)
    } else if !is_digit(digits[0]) {
        Err(IntErrorKind::InvalidDigit)
    } else if so_far * 10 + digit_value(digits[0]) > 255 {
        Err(IntErrorKind::PosOverflow)
    } else {
        digits_from(digits.drop_first(), so_far * 10 + digit_value(digits[0]))
    }
}

/// The number below 256 that `s` writes in decimal digits, with or without
/// a plus before them, or why it writes none. The text is read from the
/// left, and the first character that spoils it decides.
pub open spec fn number(s: Seq<char>) -> Result<u8, IntErrorKind> {
    if s.len() == 0 {
        Err(IntErrorKind::Empty)
    } else if s.len() == 1 && (s[0] == '+' || s[0] == '-') {
        Err(IntErrorKind::InvalidDigit)
    } else if s[0] == '+' {
        digits_from(s.drop_first(), 0)
    } else {
        digits_from(s, 0)
    }
}

/// The characters of `s`.
pub fn to_chars(s: &str) -> (chars: Vec<char>)
    ensures
        chars@ == s@,
{
    let mut chars: Vec<char> = Vec::new();
    for c in it: s.chars()
        invariant
            chars@ == it.history(),
    {
        chars.push(c);
    }
    chars
}

/// `s` without the white space at its two ends.
pub fn trim(s: &str) -> (r: &str)
    ensures
        r@ == trimmed(s@),
{
    let chars = to_chars(s);
    let mut from: usize = 0;
    let mut to: usize = 0;
    let mut i: usize = 0;
    while i < chars.len()
        invariant
            i <= chars.len(),
            chars@ == s@,
            from == lead(s@.take(i as int)),
            to == keep(s@.take(i as int)),
            from <= i,
            to <= i,
        decreases chars.len() - i,
    {
        let c = chars[i];
        proof {
            assert(s@.take(i + 1).drop_last() =~= s@.take(i as int));
        }
        if space(c) {
            if from == i {
                from = i + 1;
            }
        } else {
            to = i + 1;
        }
        i += 1;
    }
    assert(s@.take(s@.len() as int) =~= s@);
    if from >= to {
        let r = s.substring_char(0, 0);
        assert(r@ =~= Seq::<char>::empty());
        r
    } else {
        s.substring_char(from, to)
    }
}

/// The first line of `s`, without the line feed that ends it.
pub fn first_line_of(s: &str) -> (r: &str)
    ensures
        r@ == first_line(s@),
{
    let chars = to_chars(s);
    let mut end: usize = 0;
    let mut i: usize = 0;
    while i < chars.len()
        invariant
            i <= chars.len(),
            chars@ == s@,
            end == line_end(s@.take(i as int)),
            end <= i,
        decreases chars.len() - i,
    {
        let c = chars[i];
        proof {
            assert(s@.take(i + 1).drop_last() =~= s@.take(i as int));
        }
        if end == i && c != '\n' {
            end = i + 1;
        }
        i += 1;
    }
    assert(s@.take(s@.len() as int) =~= s@);
    s.substring_char(0, end)
}

/// The pieces into which the separators part `s`, the empty ones too.
pub fn split_str(s: &str, sep: Sep) -> (pieces: Vec<String>)
    ensures
        pieces.deep_view() == split(s@, sep),
{
    let chars = to_chars(s);
    let mut pieces: Vec<String> = Vec::new();
    let mut start: usize = 0;
    let mut i: usize = 0;
    proof {
        assert(s@.subrange(0, 0) =~= Seq::<char>::empty());
        assert(pieces.deep_view().push(s@.subrange(0, 0)) =~= split(s@.take(0), sep));
    }
    while i < chars.len()
        invariant
            i <= chars.len(),
            start <= i,
            chars@ == s@,
            split(s@.take(i as int), sep) == pieces.deep_view().push(
                s@.subrange(start as int, i as int),
            ),
        decreases chars.len() - i,
    {
        let c = chars[i];
        let ghost done = pieces.deep_view();
        let ghost open = s@.subrange(start as int, i as int);
        proof {
            assert(s@.take(i + 1).drop_last() =~= s@.take(i as int));
            assert(done.push(open).drop_last() =~= done);
        }
        if sep.parts(c) {
            let piece = s.substring_char(start, i).to_owned();
            pieces.push(piece);
            start = i + 1;
            proof {
                assert(pieces.deep_view() =~= done.push(open));
                assert(s@.subrange(i + 1, i + 1) =~= Seq::<char>::empty());
            }
        } else {
            proof {
                assert(s@.subrange(start as int, i + 1) =~= open.push(c));
            }
        }
        i += 1;
    }
    let ghost done = pieces.deep_view();
    let piece = s.substring_char(start, chars.len()).to_owned();
    pieces.push(piece);
    proof {
        assert(s@.take(s@.len() as int) =~= s@);
        assert(pieces.deep_view() =~= done.push(s@.subrange(start as int, s@.len() as int)));
    }
    pieces
}

/// The pieces of `s` between separators that are not empty.
pub fn words_of(s: &str, sep: Sep) -> (found: Vec<String>)
    ensures
        found.deep_view() == words(s@, sep),
{
    let pieces = split_str(s, sep);
    let ghost all = pieces.deep_view();
    let mut found: Vec<String> = Vec::new();
    let mut i: usize = 0;
    proof {
        reveal(Seq::filter);
        assert(all.take(0).filter(filled()) =~= Seq::<Seq<char>>::empty());
    }
    while i < pieces.len()
        invariant
            i <= pieces.len(),
            all == pieces.deep_view(),
            found.deep_view() =~= all.take(i as int).filter(filled()),
        decreases pieces.len() - i,
    {
        let ghost before = found.deep_view();
        proof {
            assert(all.take(i + 1) =~= all.take(i as int).push(all[i as int]));
            all.take(i as int).lemma_filter_push(all[i as int], filled());
        }
        if !pieces[i].as_str().is_empty() {
            let piece = pieces[i].clone();
            found.push(piece);
            assert(found.deep_view() =~= before.push(all[i as int]));
        }
        i += 1;
    }
    assert(all.take(all.len() as int) =~= all);
    found
}

/// The trimmed pieces of `s` between separators that are not empty.
pub fn entries_of(s: &str, sep: Sep) -> (found: Vec<String>)
    ensures
        found.deep_view() == entries(s@, sep),
{
    let pieces = split_str(s, sep);
    let ghost all = pieces.deep_view().map_values(trim_each());
    let mut found: Vec<String> = Vec::new();
    let mut i: usize = 0;
    proof {
        reveal(Seq::filter);
        assert(all.take(0).filter(filled()) =~= Seq::<Seq<char>>::empty());
    }
    while i < pieces.len()
        invariant
            i <= pieces.len(),
            all == pieces.deep_view().map_values(trim_each()),
            found.deep_view() =~= all.take(i as int).filter(filled()),
        decreases pieces.len() - i,
    {
        let ghost before = found.deep_view();
        proof {
            assert(all.take(i + 1) =~= all.take(i as int).push(all[i as int]));
            all.take(i as int).lemma_filter_push(all[i as int], filled());
        }
        let piece = trim(pieces[i].as_str());
        assert(piece@ == all[i as int]);
        if !piece.is_empty() {
            found.push(piece.to_owned());
            assert(found.deep_view() =~= before.push(all[i as int]));
        }
        i += 1;
    }
    assert(all.take(all.len() as int) =~= all);
    found
}

/// Reads `s` as a number below 256.
pub fn parse_u8(s: &str) -> (r: Result<u8, IntErrorKind>)
    ensures
        r == number(s@),
{
    let chars = to_chars(s);
    if chars.len() == 0 {
        return Err(IntErrorKind::Empty);
    }
    if chars.len() == 1 && (chars[0] == '+' || chars[0] == '-') {
        return Err(IntErrorKind::InvalidDigit);
    }
    let mut i: usize = if chars[0] == '+' {
        1
    } else {
        0
    };
    let mut value: u32 = 0;
    proof {
        assert(s@.skip(0) =~= s@);
        assert(s@.skip(1) =~= s@.drop_first());
    }
    while i < chars.len()
        invariant
            i <= chars.len(),
            chars@ == s@,
            value <= 255,
            number(s@) == digits_from(s@.skip(i as int), value as int),
        decreases chars.len() - i,
    {
        let c = chars[i];
        let n = c as u32;
        proof {
            assert(s@.skip(i as int)[0] == c);
            assert(s@.skip(i as int).drop_first() =~= s@.skip(i + 1));
        }
        if n < 48 || n > 57 {
            return Err(IntErrorKind::InvalidDigit);
        }
        let next = value * 10 + (n - 48);
        if next > 255 {
            return Err(IntErrorKind::PosOverflow);
        }
        value = next;
        i += 1;
    }
    Ok(value as u8)
}

} // verus!
