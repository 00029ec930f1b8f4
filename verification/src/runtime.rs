//! The primitives that every matcher rests on: the match of an exact text at
//! a position, the consumption of one character, and the line of a position.
//! Positions count characters.

use vstd::prelude::*;
use crate::value::{Outcome, OutcomeView, Value, ValueView};

verus! {

/// The outcome of matching the text `m` at `pos`: success after the text
/// where the input holds it there, whole and within bounds; failure at `pos`
/// otherwise.
pub open spec fn slice_eq_outcome(input: Seq<char>, pos: nat, m: Seq<char>) -> OutcomeView {
    if pos + m.len() <= input.len() && input.subrange(pos as int, (pos + m.len()) as int) == m {
        OutcomeView::Success(pos + m.len(), ValueView::Unit)
    } else {
        OutcomeView::Failure(pos)
    }
}

/// The outcome of consuming one character at `pos`: success after it where
/// `pos` lies before the end of the input; failure at `pos` otherwise.
pub open spec fn any_char_outcome(input: Seq<char>, pos: nat) -> OutcomeView {
    if pos < input.len() {
        OutcomeView::Success(pos + 1, ValueView::Unit)
    } else {
        OutcomeView::Failure(pos)
    }
}

/// The number of line breaks in a text.
pub open spec fn newlines(text: Seq<char>) -> nat
    decreases text.len(),
{
    if text.len() == 0 {
        0
    } else {
        newlines(text.drop_last()) + if text.last() == '\n' {
            1nat
        } else {
            0nat
        }
    }
}

/// The number of lines of a text. A line ends with a line break or with the
/// text; the empty text has no line.
pub open spec fn line_count(text: Seq<char>) -> nat {
    newlines(text) + if text.len() > 0 && text.last() != '\n' {
        1nat
    } else {
        0nat
    }
}

/// The number, counted from one, of the line that holds `pos`; a line break
/// belongs to the line it ends. For a position at or past the end of the
/// input that no line holds, it is the number of the last line, and one for
/// the empty input.
pub open spec fn line_of(input: Seq<char>, pos: nat) -> nat {
    if pos < input.len() {
        newlines(input.take(pos as int)) + 1
    } else if line_count(input) == 0 {
        1
    } else {
        line_count(input)
    }
}

/// A text has no more line breaks than characters.
pub proof fn lemma_newlines_bound(text: Seq<char>)
    ensures
        newlines(text) <= text.len(),
        line_count(text) <= text.len(),
    decreases text.len(),
{
    if text.len() > 0 {
        lemma_newlines_bound(text.drop_last());
    }
}

/// Matches the text `m` at `pos`.
pub fn slice_eq(input: &[char], pos: usize, m: &[char]) -> (out: Outcome)
    ensures
        out@ == slice_eq_outcome(input@, pos as nat, m@),
{
    let l = m.len();
    if pos > input.len() || l > input.len() - pos {
        return Outcome::Failure(pos);
    }
    let mut i: usize = 0;
    while i < l
        invariant
            i <= l,
            l == m.len(),
            pos + l <= input.len(),
            input@.subrange(pos as int, pos + i) == m@.take(i as int),
        decreases l - i,
    {
        if input[pos + i] != m[i] {
            assert(input@.subrange(pos as int, pos + l)[i as int] != m@[i as int]);
            return Outcome::Failure(pos);
        }
        assert(input@.subrange(pos as int, pos + i + 1) =~= input@.subrange(
            pos as int,
            pos + i,
        ).push(input[pos + i]));
        assert(m@.take(i + 1) =~= m@.take(i as int).push(m[i as int]));
        i += 1;
    }
    assert(m@.take(l as int) =~= m@);
    Outcome::Success(pos + l, Value::Unit)
}

/// Consumes one character at `pos`.
pub fn any_char(input: &[char], pos: usize) -> (out: Outcome)
    ensures
        out@ == any_char_outcome(input@, pos as nat),
{
    if input.len() > pos {
        Outcome::Success(pos + 1, Value::Unit)
    } else {
        Outcome::Failure(pos)
    }
}

/// The number of line breaks among the first `end` characters.
fn count_newlines(input: &[char], end: usize) -> (count: usize)
    requires
        end <= input.len(),
    ensures
        count == newlines(input@.take(end as int)),
{
    let mut count: usize = 0;
    let mut i: usize = 0;
    while i < end
        invariant
            i <= end <= input.len(),
            count == newlines(input@.take(i as int)),
            count <= i,
        decreases end - i,
    {
        proof {
            let next = input@.take(i + 1);
            assert(next.drop_last() =~= input@.take(i as int));
            assert(next.last() == input[i as int]);
        }
        if input[i] == '\n' {
            count += 1;
        }
        i += 1;
    }
    count
}

/// The line of a position, for messages.
pub fn pos_to_line(input: &[char], pos: usize) -> (line: usize)
    ensures
        line == line_of(input@, pos as nat),
{
    let len = input.len();
    if pos < len {
        proof {
            lemma_newlines_bound(input@.take(pos as int));
        }
        count_newlines(input, pos) + 1
    } else {
        proof {
            lemma_newlines_bound(input@);
            assert(input@.take(len as int) =~= input@);
        }
        let breaks = count_newlines(input, len);
        if len > 0 && input[len - 1] != '\n' {
            breaks + 1
        } else if breaks == 0 {
            1
        } else {
            breaks
        }
    }
}

} // verus!
