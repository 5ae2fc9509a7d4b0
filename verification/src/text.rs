//! Characters and runs of characters: the vocabulary in which the lexical
//! rules are stated, and the few string operations the scanner needs.

use vstd::prelude::*;

verus! {

/// An ASCII decimal digit.
pub open spec fn is_digit(c: char) -> bool {
    '0' <= c && c <= '9'
}

/// An ASCII letter.
pub open spec fn is_alphabetic(c: char) -> bool {
    ('a' <= c && c <= 'z') || ('A' <= c && c <= 'Z')
}

/// A set of characters that a lexical rule may test the input against.
#[derive(Clone, Copy, Debug, PartialEq, Eq, Structural)]
pub enum CharClass {
    /// `0` to `9`.
    Digit,
    /// An ASCII letter, an ASCII digit or `_`: what an identifier is made of.
    Word,
    /// Exactly the given character.
    Is(char),
    /// Every character but the given one.
    Not(char),
}

impl CharClass {
    /// Whether `c` belongs to the class.
    pub open spec fn holds(self, c: char) -> bool {
        match self {
            CharClass::Digit => is_digit(c),
            CharClass::Word => is_alphabetic(c) || is_digit(c) || c == '_',
            CharClass::Is(d) => c == d,
            CharClass::Not(d) => c != d,
        }
    }

    /// Tests a character against the class.
    pub fn test(self, c: char) -> (r: bool)
        ensures
            r == self.holds(c),
    {
        match self {
            CharClass::Digit => c >= '0' && c <= '9',
            CharClass::Word => {
                (c >= 'a' && c <= 'z') || (c >= 'A' && c <= 'Z') || (c >= '0' && c <= '9')
                    || c == '_'
            },
            CharClass::Is(d) => c == d,
            CharClass::Not(d) => c != d,
        }
    }
}

/// The number of items from index `pos` to the end of a sequence of `len`
/// items; none where `pos` is no index of it.
pub open spec fn remaining(len: nat, pos: int) -> nat {
    if 0 <= pos < len {
        (len - pos) as nat
    } else {
        0
    }
}

/// The length of the longest run of characters of `class` that starts at
/// index `from` of `src`.
pub open spec fn run_len(src: Seq<char>, from: int, class: CharClass) -> nat
    decreases src.len() - from,
{
    if 0 <= from < src.len() && class.holds(src[from]) {
        1 + run_len(src, from + 1, class)
    } else {
        0
    }
}

/// A run is maximal: it stays inside the text, every character of it is in
/// the class, and the character after it, if there is one, is not.
pub proof fn lemma_run_is_maximal(src: Seq<char>, from: int, class: CharClass)
    requires
        0 <= from <= src.len(),
    ensures
        from + run_len(src, from, class) <= src.len(),
        forall|i: int|
            from <= i < from + run_len(src, from, class) ==> class.holds(#[trigger] src[i]),
        from + run_len(src, from, class) < src.len() ==> !class.holds(
            src[from + run_len(src, from, class)],
        ),
    decreases src.len() - from,
{
    if from < src.len() && class.holds(src[from]) {
        lemma_run_is_maximal(src, from + 1, class);
    }
}

/// A stretch of characters of the class, bounded by the end of the text or
/// by a character outside the class, is the run that starts there.
pub proof fn lemma_run_is_unique(src: Seq<char>, from: int, len: nat, class: CharClass)
    requires
        0 <= from,
        from + len <= src.len(),
        forall|i: int| from <= i < from + len ==> class.holds(#[trigger] src[i]),
        from + len < src.len() ==> !class.holds(src[from + len]),
    ensures
        run_len(src, from, class) == len,
    decreases len,
{
    if len > 0 {
        lemma_run_is_unique(src, from + 1, (len - 1) as nat, class);
    }
}

/// The run that starts at index `from` of a slice of `src` is the run that
/// starts at the same character of `src`, cut off where the slice ends.
pub proof fn lemma_run_in_slice(src: Seq<char>, start: int, end: int, from: int, class: CharClass)
    requires
        0 <= start <= end <= src.len(),
        0 <= from <= end - start,
    ensures
        run_len(src.subrange(start, end), from, class) == vstd::math::min(
            run_len(src, start + from, class) as int,
            end - start - from,
        ),
    decreases end - start - from,
{
    if from < end - start && class.holds(src[start + from]) {
        lemma_run_in_slice(src, start, end, from + 1, class);
    }
}

/// The number of line feeds among the characters of `src` at the indices
/// from `from` up to, not including, `to`.
pub open spec fn count_newlines(src: Seq<char>, from: int, to: int) -> nat
    decreases to - from,
{
    if from < to {
        count_newlines(src, from, to - 1) + if src[to - 1] == '\n' {
            1nat
        } else {
            0nat
        }
    } else {
        0
    }
}

/// Line feeds are counted piece by piece.
pub proof fn lemma_count_newlines_split(src: Seq<char>, from: int, mid: int, to: int)
    requires
        from <= mid <= to,
    ensures
        count_newlines(src, from, to) == count_newlines(src, from, mid)
            + count_newlines(src, mid, to),
    decreases to - mid,
{
    if mid < to {
        lemma_count_newlines_split(src, from, mid, to - 1);
    }
}

/// A stretch without a line feed counts none, and no stretch counts more
/// line feeds than it has characters.
pub proof fn lemma_count_newlines_bounds(src: Seq<char>, from: int, to: int)
    requires
        from <= to,
    ensures
        count_newlines(src, from, to) <= to - from,
        (forall|i: int| from <= i < to ==> #[trigger] src[i] != '\n')
            ==> count_newlines(src, from, to) == 0,
    decreases to - from,
{
    if from < to {
        lemma_count_newlines_bounds(src, from, to - 1);
    }
}

/// Appends one character to a string. The body calls `String::push`; that
/// the string afterwards holds its former characters followed by `c` is
/// taken from the documentation of that function, not proved.
#[verifier::external_body]
pub(crate) fn push_char(text: &mut String, c: char)
    ensures
        final(text)@ == old(text)@.push(c),
{
    text.push(c)
}

/// The characters of a string slice, in order.
pub fn chars_of(source: &str) -> (chars: Vec<char>)
    ensures
        chars@ == source@,
{
    let mut chars: Vec<char> = Vec::new();
    for c in it: source.chars()
        invariant
            it.seq() == source@,
            chars@ == it.seq().take(it.index()),
    {
        chars.push(c);
    }
    chars
}

/// The string made of the characters of `chars` from index `start` up to,
/// not including, `end`.
pub fn string_of(chars: &Vec<char>, start: usize, end: usize) -> (text: String)
    requires
        start <= end <= chars.len(),
    ensures
        text@ == chars@.subrange(start as int, end as int),
{
    let mut text = String::new();
    let mut i: usize = start;
    while i < end
        invariant
            start <= i <= end <= chars.len(),
            text@ == chars@.subrange(start as int, i as int),
        decreases end - i,
    {
        push_char(&mut text, chars[i]);
        i += 1;
    }
    text
}

/// Whether the characters of `chars` from `start` up to `end` spell `word`.
pub fn spells(chars: &Vec<char>, start: usize, end: usize, word: &str) -> (r: bool)
    requires
        start <= end <= chars.len(),
    ensures
        r == (chars@.subrange(start as int, end as int) == word@),
{
    let ghost stretch = chars@.subrange(start as int, end as int);
    let mut i: usize = start;
    for c in it: word.chars()
        invariant
            start <= i <= end <= chars.len(),
            stretch == chars@.subrange(start as int, end as int),
            it.seq() == word@,
            i == start + it.index(),
            forall|j: int| 0 <= j < it.index() ==> stretch[j] == word@[j],
    {
        if i >= end || chars[i] != c {
            return false;
        }
        i += 1;
    }
    assert(i == end ==> stretch =~= word@);
    i == end
}

/// The index at which the run of characters of `class` that starts at
/// `from` ends.
pub fn run_end(chars: &Vec<char>, from: usize, class: CharClass) -> (end: usize)
    requires
        from <= chars.len(),
    ensures
        end == from + run_len(chars@, from as int, class),
        end <= chars.len(),
{
    let mut end: usize = from;
    while end < chars.len() && class.test(chars[end])
        invariant
            from <= end <= chars.len(),
            end + run_len(chars@, end as int, class)
                == from + run_len(chars@, from as int, class),
        decreases chars.len() - end,
    {
        end += 1;
    }
    end
}

} // verus!
