//! Characters and strings: the few operations the rest of the crate builds on.

use vstd::prelude::*;

verus! {

/// `String::push` of the standard library: the string holds what it held, and
/// `ch` after it.
pub assume_specification[ String::push ](s: &mut String, ch: char)
    ensures
        final(s)@ == old(s)@.push(ch),
;

/// The characters of `s`, in order.
pub fn chars_of(s: &str) -> (v: Vec<char>)
    ensures
        v@ == s@,
{
    let mut v: Vec<char> = Vec::new();
    for c in it: s.chars()
        invariant
            it.seq() == s@,
            v@ == s@.take(it.index() as int),
    {
        v.push(c);
    }
    v
}

/// Pushing onto a vector pushes onto its deep view.
pub proof fn lemma_deep_push<T: DeepView>(before: Vec<T>, after: Vec<T>, last: T)
    requires
        after@ == before@.push(last),
    ensures
        after.deep_view() == before.deep_view().push(last.deep_view()),
{
    assert(after.deep_view() =~= before.deep_view().push(last.deep_view()));
}

/// Whether `ch` is white space: a character with the Unicode property
/// `White_Space`.
pub open spec fn is_whitespace(ch: char) -> bool {
    ||| '\u{9}' <= ch <= '\u{D}'
    ||| ch == ' '
    ||| ch == '\u{85}'
    ||| ch == '\u{A0}'
    ||| ch == '\u{1680}'
    ||| '\u{2000}' <= ch <= '\u{200A}'
    ||| ch == '\u{2028}'
    ||| ch == '\u{2029}'
    ||| ch == '\u{202F}'
    ||| ch == '\u{205F}'
    ||| ch == '\u{3000}'
}

/// Whether `ch` is white space.
pub fn whitespace(ch: char) -> (yes: bool)
    ensures
        yes == is_whitespace(ch),
{
    (ch >= '\u{9}' && ch <= '\u{D}') || ch == ' ' || ch == '\u{85}' || ch == '\u{A0}' || ch
        == '\u{1680}' || (ch >= '\u{2000}' && ch <= '\u{200A}') || ch == '\u{2028}' || ch
        == '\u{2029}' || ch == '\u{202F}' || ch == '\u{205F}' || ch == '\u{3000}'
}

/// How many characters of white space `line` begins with, counted from
/// position `from`.
pub open spec fn leading_whitespace(line: Seq<char>, from: int) -> int
    decreases line.len() - from,
{
    if 0 <= from < line.len() && is_whitespace(line[from]) {
        1 + leading_whitespace(line, from + 1)
    } else {
        0
    }
}

/// `line` without the white space that it begins with.
pub open spec fn trim_start(line: Seq<char>) -> Seq<char> {
    line.skip(leading_whitespace(line, 0))
}

/// The number of characters of white space that `line` begins with.
pub fn count_leading_whitespace(line: &Vec<char>) -> (n: usize)
    ensures
        n == leading_whitespace(line@, 0),
        n <= line.len(),
{
    let mut n: usize = 0;
    while n < line.len() && whitespace(line[n])
        invariant
            n <= line.len(),
            leading_whitespace(line@, 0) == n + leading_whitespace(line@, n as int),
        decreases line.len() - n,
    {
        n += 1;
    }
    n
}

/// The position of the first line feed at or after `from`, or the length of
/// the text if there is none.
pub open spec fn line_end(text: Seq<char>, from: int) -> int
    decreases text.len() - from,
{
    if from < 0 || from >= text.len() {
        text.len() as int
    } else if text[from] == '\n' {
        from
    } else {
        line_end(text, from + 1)
    }
}

/// A line as it stood before its line feed, without the carriage return that
/// it may end with.
pub open spec fn without_carriage_return(line: Seq<char>) -> Seq<char> {
    if line.len() > 0 && line.last() == '\r' {
        line.drop_last()
    } else {
        line
    }
}

/// The lines of the text from position `from` on.
///
/// A line ends with a line feed or with the text. The line feed is not part
/// of the line, nor is a carriage return just before it. Text that ends with
/// a line feed has no further, empty line after it.
pub open spec fn lines_from(text: Seq<char>, from: int) -> Seq<Seq<char>>
    decreases text.len() - from,
    via lines_from_decreases
{
    if from < 0 || from >= text.len() {
        Seq::empty()
    } else {
        let end = line_end(text, from);
        if end < text.len() {
            seq![without_carriage_return(text.subrange(from, end))] + lines_from(text, end + 1)
        } else {
            seq![text.subrange(from, end)]
        }
    }
}

#[via_fn]
proof fn lines_from_decreases(text: Seq<char>, from: int) {
    if 0 <= from < text.len() {
        lemma_line_end_bounds(text, from);
    }
}

/// The deep view of a vector of characters is its view.
pub proof fn lemma_chars_deep(chars: Vec<char>)
    ensures
        chars.deep_view() == chars@,
{
    assert(chars.deep_view() =~= chars@);
}

/// The lines of a text.
pub open spec fn lines_of(text: Seq<char>) -> Seq<Seq<char>> {
    lines_from(text, 0)
}

/// The end of a line lies between its start and the end of the text.
pub proof fn lemma_line_end_bounds(text: Seq<char>, from: int)
    requires
        0 <= from <= text.len(),
    ensures
        from <= line_end(text, from) <= text.len(),
        line_end(text, from) < text.len() ==> text[line_end(text, from)] == '\n',
    decreases text.len() - from,
{
    if from < text.len() && text[from] != '\n' {
        lemma_line_end_bounds(text, from + 1);
    }
}

/// The lines of `text`.
pub fn split_lines(text: &Vec<char>) -> (lines: Vec<Vec<char>>)
    ensures
        lines.deep_view() == lines_of(text@),
{
    let mut lines: Vec<Vec<char>> = Vec::new();
    let mut from: usize = 0;
    assert(lines.deep_view() =~= Seq::<Seq<char>>::empty());
    while from < text.len()
        invariant
            from <= text.len(),
            lines.deep_view() + lines_from(text@, from as int) == lines_of(text@),
        decreases text.len() - from,
    {
        let mut line: Vec<char> = Vec::new();
        let mut end: usize = from;
        while end < text.len() && text[end] != '\n'
            invariant
                from <= end <= text.len(),
                line_end(text@, end as int) == line_end(text@, from as int),
                line@ == text@.subrange(from as int, end as int),
            decreases text.len() - end,
        {
            line.push(text[end]);
            end += 1;
        }
        let ghost rest = lines_from(text@, from as int);
        let ghost before = lines;
        if end < text.len() {
            if line.len() > 0 && line[line.len() - 1] == '\r' {
                line.pop();
            }
            assert(line@ == without_carriage_return(text@.subrange(from as int, end as int)));
            lines.push(line);
            proof {
                lemma_line_end_bounds(text@, from as int);
                lemma_chars_deep(line);
                lemma_deep_push(before, lines, line);
            }
            assert(before.deep_view() + rest =~= lines.deep_view() + lines_from(
                text@,
                end + 1,
            ));
            from = end + 1;
        } else {
            lines.push(line);
            proof {
                lemma_line_end_bounds(text@, from as int);
                lemma_chars_deep(line);
                lemma_deep_push(before, lines, line);
            }
            assert(before.deep_view() + rest =~= lines.deep_view() + lines_from(
                text@,
                end as int,
            ));
            from = end;
        }
    }
    assert(lines.deep_view() + lines_from(text@, from as int) =~= lines.deep_view());
    lines
}

/// How many characters of white space end the first `upto` characters of
/// `line`.
pub open spec fn trailing_whitespace(line: Seq<char>, upto: int) -> int
    decreases upto,
{
    if 0 < upto <= line.len() && is_whitespace(line[upto - 1]) {
        1 + trailing_whitespace(line, upto - 1)
    } else {
        0
    }
}

/// `line` without the white space that it begins and ends with.
pub open spec fn trim(line: Seq<char>) -> Seq<char> {
    let rest = trim_start(line);
    rest.take(rest.len() - trailing_whitespace(rest, rest.len() as int))
}

/// The number of characters of white space that end the characters of `line`
/// from position `from` on.
pub fn count_trailing_whitespace(line: &Vec<char>, from: usize) -> (n: usize)
    requires
        from <= line.len(),
    ensures
        n == trailing_whitespace(line@.skip(from as int), line.len() - from),
        n <= line.len() - from,
{
    let ghost rest = line@.skip(from as int);
    let mut upto: usize = line.len();
    while upto > from && whitespace(line[upto - 1])
        invariant
            from <= upto <= line.len(),
            rest == line@.skip(from as int),
            trailing_whitespace(rest, line.len() - from) == (line.len() - upto)
                + trailing_whitespace(rest, upto - from),
        decreases upto,
    {
        assert(rest[upto - 1 - from] == line[upto - 1]);
        upto -= 1;
    }
    proof {
        if upto > from {
            assert(rest[upto - 1 - from] == line[upto - 1]);
        }
    }
    line.len() - upto
}

/// The characters of `chars` from position `from` up to position `to`, as a
/// string.
pub fn string_of(chars: &Vec<char>, from: usize, to: usize) -> (text: String)
    requires
        from <= to <= chars.len(),
    ensures
        text@ == chars@.subrange(from as int, to as int),
{
    let mut text = String::new();
    let mut i: usize = from;
    while i < to
        invariant
            from <= i <= to <= chars.len(),
            text@ == chars@.subrange(from as int, i as int),
        decreases to - i,
    {
        text.push(chars[i]);
        i += 1;
    }
    text
}

/// Whether `text` begins with `prefix`.
pub open spec fn has_prefix(text: Seq<char>, prefix: Seq<char>) -> bool {
    text.len() >= prefix.len() && text.take(prefix.len() as int) == prefix
}

/// Whether the characters of `chars` from position `from` on begin with
/// `prefix`.
pub fn starts_with(chars: &Vec<char>, from: usize, prefix: &str) -> (yes: bool)
    requires
        from <= chars.len(),
    ensures
        yes == has_prefix(chars@.skip(from as int), prefix@),
{
    let wanted = chars_of(prefix);
    let ghost rest = chars@.skip(from as int);
    if chars.len() - from < wanted.len() {
        return false;
    }
    let mut i: usize = 0;
    while i < wanted.len()
        invariant
            i <= wanted.len(),
            wanted@ == prefix@,
            from + wanted.len() <= chars.len(),
            rest == chars@.skip(from as int),
            rest.take(i as int) == wanted@.take(i as int),
        decreases wanted.len() - i,
    {
        if chars[from + i] != wanted[i] {
            assert(rest.take(wanted.len() as int)[i as int] != wanted@[i as int]);
            return false;
        }
        assert(rest.take(i + 1) =~= rest.take(i as int).push(rest[i as int]));
        assert(wanted@.take(i + 1) =~= wanted@.take(i as int).push(wanted[i as int]));
        i += 1;
    }
    assert(wanted@.take(i as int) =~= wanted@);
    true
}

/// The position of the first `mark` at or after `from`, if there is one.
pub open spec fn first_of(text: Seq<char>, mark: char, from: int) -> Option<int>
    decreases text.len() - from,
{
    if from < 0 || from >= text.len() {
        None
    } else if text[from] == mark {
        Some(from)
    } else {
        first_of(text, mark, from + 1)
    }
}

/// The position of the first `mark` at or after `from`.
pub fn find_char(chars: &Vec<char>, mark: char, from: usize) -> (position: Option<usize>)
    requires
        from <= chars.len(),
    ensures
        match position {
            Some(at) => first_of(chars@, mark, from as int) == Some(at as int) && from <= at
                < chars.len(),
            None => first_of(chars@, mark, from as int) is None,
        },
{
    let mut i: usize = from;
    while i < chars.len()
        invariant
            from <= i <= chars.len(),
            first_of(chars@, mark, i as int) == first_of(chars@, mark, from as int),
        decreases chars.len() - i,
    {
        if chars[i] == mark {
            return Some(i);
        }
        i += 1;
    }
    None
}

/// Searching a text from position `from` on is searching what is left of it
/// after `from` characters.
pub proof fn lemma_first_of_skip(text: Seq<char>, mark: char, from: int, i: int)
    requires
        0 <= from <= text.len(),
        0 <= i,
    ensures
        first_of(text.skip(from), mark, i) == match first_of(text, mark, from + i) {
            Some(at) => Some(at - from),
            None => None,
        },
    decreases text.len() - from - i,
{
    let rest = text.skip(from);
    if i < rest.len() {
        assert(rest[i] == text[from + i]);
        if rest[i] != mark {
            lemma_first_of_skip(text, mark, from, i + 1);
        }
    }
}

/// The character of a decimal digit.
pub open spec fn digit_char(digit: int) -> char {
    if digit == 0 {
        '0'
    } else if digit == 1 {
        '1'
    } else if digit == 2 {
        '2'
    } else if digit == 3 {
        '3'
    } else if digit == 4 {
        '4'
    } else if digit == 5 {
        '5'
    } else if digit == 6 {
        '6'
    } else if digit == 7 {
        '7'
    } else if digit == 8 {
        '8'
    } else {
        '9'
    }
}

/// A number in decimal digits, without leading zeros.
pub open spec fn decimal(n: nat) -> Seq<char>
    decreases n,
{
    if n < 10 {
        seq![digit_char(n as int)]
    } else {
        decimal(n / 10).push(digit_char((n % 10) as int))
    }
}

/// Adds `n` in decimal digits to `text`.
pub fn push_decimal(n: u64, text: &mut String)
    ensures
        final(text)@ == old(text)@ + decimal(n as nat),
    decreases n,
{
    if n >= 10 {
        push_decimal(n / 10, text);
    }
    let digit: u64 = n % 10;
    let ch = if digit == 0 {
        '0'
    } else if digit == 1 {
        '1'
    } else if digit == 2 {
        '2'
    } else if digit == 3 {
        '3'
    } else if digit == 4 {
        '4'
    } else if digit == 5 {
        '5'
    } else if digit == 6 {
        '6'
    } else if digit == 7 {
        '7'
    } else if digit == 8 {
        '8'
    } else {
        '9'
    };
    text.push(ch);
    assert(final(text)@ =~= old(text)@ + decimal(n as nat));
}

} // verus!
