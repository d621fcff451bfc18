//! Character and line primitives shared by the path resolver and the secret
//! scanner: ASCII case folding, locating the first occurrence of a character,
//! and splitting text into newline-delimited lines.

use vstd::prelude::*;
use vstd::string::*;

verus! {

/// Case folding of a single character, as far as the keyword vocabulary
/// can see it: the ASCII letters, plus the two characters whose Unicode
/// simple case folding reaches an ASCII letter — the Kelvin sign (to 'k')
/// and the long s (to 's'). Everything else is unchanged.
pub open spec fn lower_char(c: char) -> char {
    match c {
        'A' => 'a',
        'B' => 'b',
        'C' => 'c',
        'D' => 'd',
        'E' => 'e',
        'F' => 'f',
        'G' => 'g',
        'H' => 'h',
        'I' => 'i',
        'J' => 'j',
        'K' => 'k',
        'L' => 'l',
        'M' => 'm',
        'N' => 'n',
        'O' => 'o',
        'P' => 'p',
        'Q' => 'q',
        'R' => 'r',
        'S' => 's',
        'T' => 't',
        'U' => 'u',
        'V' => 'v',
        'W' => 'w',
        'X' => 'x',
        'Y' => 'y',
        'Z' => 'z',
        '\u{212a}' => 'k',
        '\u{17f}' => 's',
        _ => c,
    }
}

/// Executable twin of `lower_char`.
pub fn to_lower_char(c: char) -> (r: char)
    ensures
        r == lower_char(c),
{
    match c {
        'A' => 'a',
        'B' => 'b',
        'C' => 'c',
        'D' => 'd',
        'E' => 'e',
        'F' => 'f',
        'G' => 'g',
        'H' => 'h',
        'I' => 'i',
        'J' => 'j',
        'K' => 'k',
        'L' => 'l',
        'M' => 'm',
        'N' => 'n',
        'O' => 'o',
        'P' => 'p',
        'Q' => 'q',
        'R' => 'r',
        'S' => 's',
        'T' => 't',
        'U' => 'u',
        'V' => 'v',
        'W' => 'w',
        'X' => 'x',
        'Y' => 'y',
        'Z' => 'z',
        '\u{212a}' => 'k',
        '\u{17f}' => 's',
        _ => c,
    }
}

/// Index of the first occurrence of `c` in `s`, or `s.len()` when `c` does
/// not occur.
pub open spec fn first_occurrence(s: Seq<char>, c: char) -> int
    decreases s.len(),
{
    if s.len() == 0 {
        0
    } else if s[0] == c {
        0
    } else {
        1 + first_occurrence(s.drop_first(), c)
    }
}

pub proof fn lemma_first_occurrence(s: Seq<char>, c: char)
    ensures
        0 <= first_occurrence(s, c) <= s.len(),
        first_occurrence(s, c) < s.len() ==> s[first_occurrence(s, c)] == c,
        forall|j: int| 0 <= j < first_occurrence(s, c) ==> s[j] != c,
    decreases s.len(),
{
    if s.len() == 0 {
    } else if s[0] == c {
    } else {
        lemma_first_occurrence(s.drop_first(), c);
        assert forall|j: int| 0 <= j < first_occurrence(s, c) implies s[j] != c by {
            if j > 0 {
                assert(s.drop_first()[j - 1] == s[j]);
            }
        }
    }
}

/// A position holding `c`, with no occurrence of `c` before it, is the first
/// occurrence.
pub proof fn lemma_first_occurrence_is(s: Seq<char>, c: char, i: int)
    requires
        0 <= i < s.len(),
        s[i] == c,
        forall|j: int| 0 <= j < i ==> s[j] != c,
    ensures
        first_occurrence(s, c) == i,
    decreases s.len(),
{
    if i == 0 {
    } else {
        assert(s[0] != c);
        assert(s.drop_first()[i - 1] == s[i]);
        assert forall|j: int| 0 <= j < i - 1 implies s.drop_first()[j] != c by {
            assert(s.drop_first()[j] == s[j + 1]);
        }
        lemma_first_occurrence_is(s.drop_first(), c, i - 1);
    }
}

/// When `c` does not occur in `s`, the first occurrence is `s.len()`.
pub proof fn lemma_first_occurrence_none(s: Seq<char>, c: char)
    requires
        forall|j: int| 0 <= j < s.len() ==> s[j] != c,
    ensures
        first_occurrence(s, c) == s.len(),
    decreases s.len(),
{
    if s.len() == 0 {
    } else {
        assert forall|j: int| 0 <= j < s.drop_first().len() implies s.drop_first()[j] != c by {
            assert(s.drop_first()[j] == s[j + 1]);
        }
        lemma_first_occurrence_none(s.drop_first(), c);
    }
}

/// Drops one trailing carriage return, as a line terminated by "\r\n" keeps
/// no trace of its terminator.
pub open spec fn strip_cr(s: Seq<char>) -> Seq<char> {
    if s.len() > 0 && s[s.len() - 1] == '\r' {
        s.drop_last()
    } else {
        s
    }
}

/// The lines of `s`: newline-delimited, a terminating "\r\n" or "\n" left
/// out, and no empty artifact after a trailing newline.
pub open spec fn line_seq(s: Seq<char>) -> Seq<Seq<char>>
    decreases s.len(),
    via line_seq_decreases
{
    if s.len() == 0 {
        Seq::empty()
    } else {
        let i = first_occurrence(s, '\n');
        if i >= s.len() {
            seq![s]
        } else {
            seq![strip_cr(s.subrange(0, i))] + line_seq(s.subrange(i + 1, s.len() as int))
        }
    }
}

#[via_fn]
proof fn line_seq_decreases(s: Seq<char>) {
    lemma_first_occurrence(s, '\n');
}

/// When position `i` holds the first newline of `s`, `line_seq` splits there.
pub proof fn lemma_line_seq_split(s: Seq<char>, i: int)
    requires
        0 <= i < s.len(),
        s[i] == '\n',
        forall|j: int| 0 <= j < i ==> s[j] != '\n',
    ensures
        line_seq(s) == seq![strip_cr(s.subrange(0, i))] + line_seq(
            s.subrange(i + 1, s.len() as int),
        ),
{
    lemma_first_occurrence_is(s, '\n', i);
}

/// A nonempty text without newlines is a single line.
pub proof fn lemma_line_seq_whole(s: Seq<char>)
    requires
        s.len() > 0,
        forall|j: int| 0 <= j < s.len() ==> s[j] != '\n',
    ensures
        line_seq(s) == seq![s],
{
    lemma_first_occurrence_none(s, '\n');
}

/// The views of a vector of owned lines.
pub open spec fn views_of(lines: Seq<String>) -> Seq<Seq<char>> {
    lines.map_values(|l: String| l@)
}

/// Splits `content` into its lines, exactly as `line_seq` describes them.
pub fn split_lines(content: &str) -> (lines: Vec<String>)
    ensures
        views_of(lines@) == line_seq(content@),
        lines@.len() <= content@.len(),
{
    let n = content.unicode_len();
    let mut lines: Vec<String> = Vec::new();
    let mut start: usize = 0;
    let mut i: usize = 0;
    proof {
        assert(content@.subrange(0, n as int) =~= content@);
        assert(views_of(lines@) + line_seq(content@) =~= line_seq(content@));
    }
    while i < n
        invariant
            n == content@.len(),
            start <= i <= n,
            lines@.len() <= start,
            forall|j: int| start <= j < i ==> content@[j] != '\n',
            line_seq(content@) == views_of(lines@) + line_seq(
                content@.subrange(start as int, n as int),
            ),
        decreases n - i,
    {
        let c = content.get_char(i);
        if c == '\n' {
            let end = if i > start && content.get_char(i - 1) == '\r' {
                i - 1
            } else {
                i
            };
            let line = content.substring_char(start, end).to_owned();
            proof {
                let tail = content@.subrange(start as int, n as int);
                assert(tail[i - start] == content@[i as int]);
                assert forall|j: int| 0 <= j < i - start implies tail[j] != '\n' by {
                    assert(tail[j] == content@[start + j]);
                }
                lemma_line_seq_split(tail, i - start);
                assert(tail.subrange(0, i - start) =~= content@.subrange(start as int, i as int));
                assert(strip_cr(content@.subrange(start as int, i as int)) =~= content@.subrange(
                    start as int,
                    end as int,
                ));
                assert(tail.subrange(i - start + 1, tail.len() as int) =~= content@.subrange(
                    i + 1,
                    n as int,
                ));
                assert(views_of(lines@.push(line)) =~= views_of(lines@) + seq![line@]);
                assert(views_of(lines@) + seq![line@] + line_seq(
                    content@.subrange(i + 1, n as int),
                ) =~= views_of(lines@) + (seq![line@] + line_seq(content@.subrange(i + 1, n as int))));
            }
            lines.push(line);
            start = i + 1;
        }
        i = i + 1;
    }
    if start < n {
        let line = content.substring_char(start, n).to_owned();
        proof {
            let tail = content@.subrange(start as int, n as int);
            assert forall|j: int| 0 <= j < tail.len() implies tail[j] != '\n' by {
                assert(tail[j] == content@[start + j]);
            }
            lemma_line_seq_whole(tail);
            assert(views_of(lines@.push(line)) =~= views_of(lines@) + seq![line@]);
            assert(views_of(lines@) + seq![tail] =~= views_of(lines@.push(line)));
        }
        lines.push(line);
    } else {
        proof {
            assert(content@.subrange(start as int, n as int).len() == 0);
            assert(views_of(lines@) + line_seq(content@.subrange(start as int, n as int))
                =~= views_of(lines@));
        }
    }
    lines
}

} // verus!
