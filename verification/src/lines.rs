//! Splitting the text of a file into numbered lines.

use crate::text::texts;
use vstd::prelude::*;
use vstd::std_specs::iter::IteratorSpec;

verus! {

/// Index of the first line feed in `s`, or `s.len()` if it holds none.
pub open spec fn first_newline(s: Seq<char>) -> nat
    decreases s.len(),
{
    if s.len() == 0 || s[0] == '\n' {
        0
    } else {
        1 + first_newline(s.drop_first())
    }
}

/// `line` without the carriage return that ends it, if one does.
pub open spec fn strip_cr(line: Seq<char>) -> Seq<char> {
    if line.len() > 0 && line.last() == '\r' {
        line.drop_last()
    } else {
        line
    }
}

/// The lines of `s`. A line ends at a line feed; the line feed, and a carriage
/// return directly before it, are not part of the line. What follows the last
/// line feed is a line of its own unless it is empty, and keeps a carriage
/// return at its end.
pub open spec fn lines_of(s: Seq<char>) -> Seq<Seq<char>>
    decreases s.len(),
{
    if s.len() == 0 {
        seq![]
    } else {
        let n = first_newline(s) as int;
        if n >= s.len() {
            seq![s]
        } else {
            seq![strip_cr(s.subrange(0, n))] + lines_of(s.subrange(n + 1, s.len() as int))
        }
    }
}

/// Whether `s` holds no line feed.
pub open spec fn no_newline(s: Seq<char>) -> bool {
    forall|i: int| 0 <= i < s.len() ==> s[i] != '\n'
}

/// The first line feed lies within the sequence or at its end, and nothing
/// before it is a line feed.
pub proof fn lemma_first_newline_bounds(s: Seq<char>)
    ensures
        first_newline(s) <= s.len(),
        first_newline(s) < s.len() ==> s[first_newline(s) as int] == '\n',
        no_newline(s.subrange(0, first_newline(s) as int)),
    decreases s.len(),
{
    if s.len() == 0 || s[0] == '\n' {
    } else {
        let t = s.drop_first();
        lemma_first_newline_bounds(t);
        let n = first_newline(t) as int;
        let head = s.subrange(0, n + 1);
        assert forall|i: int| 0 <= i < head.len() implies head[i] != '\n' by {
            if i > 0 {
                assert(t.subrange(0, n)[i - 1] == s[i]);
            }
        }
    }
}

/// In `head + tail`, where `head` holds no line feed, the first line feed is
/// the first one of `tail`.
pub proof fn lemma_first_newline_after(head: Seq<char>, tail: Seq<char>)
    requires
        no_newline(head),
    ensures
        first_newline(head + tail) == head.len() + first_newline(tail),
    decreases head.len(),
{
    if head.len() == 0 {
    } else {
        assert((head + tail).drop_first() =~= head.drop_first() + tail);
        lemma_first_newline_after(head.drop_first(), tail);
    }
}

/// A text that ends its first line with a line feed splits into that line
/// and the lines of the rest.
pub proof fn lemma_lines_of_terminated(head: Seq<char>, rest: Seq<char>)
    requires
        no_newline(head),
    ensures
        lines_of(head + seq!['\n'] + rest) == seq![strip_cr(head)] + lines_of(rest),
{
    let s = head + seq!['\n'] + rest;
    let tail = seq!['\n'] + rest;
    assert(s =~= head + tail);
    lemma_first_newline_after(head, tail);
    assert(s.subrange(0, head.len() as int) =~= head);
    assert(s.subrange(head.len() as int + 1, s.len() as int) =~= rest);
}

/// A text without a line feed is one line, or none if it is empty.
pub proof fn lemma_lines_of_unterminated(s: Seq<char>)
    requires
        no_newline(s),
    ensures
        lines_of(s) == if s.len() == 0 { Seq::<Seq<char>>::empty() } else { seq![s] },
{
    lemma_first_newline_after(s, Seq::<char>::empty());
}

/// No line holds a line feed.
pub proof fn lemma_lines_hold_no_newline(s: Seq<char>, i: int)
    requires
        0 <= i < lines_of(s).len(),
    ensures
        no_newline(lines_of(s)[i]),
    decreases s.len(),
{
    let n = first_newline(s) as int;
    lemma_first_newline_bounds(s);
    if n >= s.len() {
        assert(s.subrange(0, n) =~= s);
    } else if i > 0 {
        lemma_lines_hold_no_newline(s.subrange(n + 1, s.len() as int), i - 1);
    }
}

/// The line being read: what was written to `current`, and the carriage
/// return that is held back, if one is.
pub open spec fn pending(current: Seq<char>, held_cr: bool) -> Seq<char> {
    if held_cr {
        current.push('\r')
    } else {
        current
    }
}

/// Splits `text` into its lines, in order.
pub fn split_lines(text: &str) -> (lines: Vec<String>)
    ensures
        texts(lines@) == lines_of(text@),
{
    let mut lines: Vec<String> = Vec::new();
    let mut current = String::new();
    // A carriage return that was read but not yet written to `current`: it is
    // dropped if a line feed follows, and written otherwise.
    let mut held_cr = false;
    let mut chars = text.chars();
    proof {
        vstd::string::axiom_spec_iter(text);
    }
    loop
        invariant_except_break
            chars.decrease() is Some,
            no_newline(pending(current@, held_cr)),
            !held_cr ==> strip_cr(current@) == current@,
            lines_of(text@) == texts(lines@) + lines_of(
                pending(current@, held_cr) + chars.remaining(),
            ),
        ensures
            texts(lines@) == lines_of(text@),
        decreases chars.decrease()->0,
    {
        let ghost before = chars;
        let ghost line = pending(current@, held_cr);
        let next = chars.next();
        proof {
            vstd::string::next_postcondition(&before, &chars, next);
        }
        match next {
            None => {
                proof {
                    lemma_lines_of_unterminated(line);
                }
                if held_cr {
                    current.push('\r');
                }
                if !current.as_str().is_empty() {
                    lines.push(current);
                }
                break ;
            },
            Some(c) => {
                let ghost rest = chars.remaining();
                if c == '\n' {
                    proof {
                        assert(line + before.remaining() =~= line + seq!['\n'] + rest);
                        lemma_lines_of_terminated(line, rest);
                        assert(strip_cr(line) == current@);
                    }
                    lines.push(current);
                    current = String::new();
                    held_cr = false;
                } else {
                    if held_cr {
                        current.push('\r');
                    }
                    if c == '\r' {
                        held_cr = true;
                    } else {
                        current.push(c);
                        held_cr = false;
                    }
                    proof {
                        assert(line.push(c) + rest =~= line + before.remaining());
                    }
                }
            },
        }
    }
    lines
}

} // verus!
