//! Lines of a text, and slices of them.
//!
//! A line ends at a line feed. The line feed is not part of the line, nor is
//! a carriage return directly before it. The last line needs no line feed, and
//! a text that ends with a line feed has no empty line after it.

use crate::text::{append_range, chars_of, join, string_of};
use vstd::prelude::*;

verus! {

/// Number of characters before the first line feed of `s`, or the length of
/// `s` when it holds none.
pub open spec fn line_len(s: Seq<char>) -> nat
    decreases s.len(),
{
    if s.len() > 0 && s[0] != '\n' {
        1 + line_len(s.skip(1))
    } else {
        0
    }
}

/// `line_len` stays within the text, passes no line feed and stops at one.
pub proof fn lemma_line_len(s: Seq<char>)
    ensures
        line_len(s) <= s.len(),
        forall|i: int| 0 <= i < line_len(s) ==> #[trigger] s[i] != '\n',
        line_len(s) < s.len() ==> s[line_len(s) as int] == '\n',
    decreases s.len(),
{
    if s.len() > 0 && s[0] != '\n' {
        let t = s.skip(1);
        lemma_line_len(t);
        assert forall|i: int| 0 <= i < line_len(s) implies #[trigger] s[i] != '\n' by {
            if i > 0 {
                assert(s[i] == t[i - 1]);
            }
        }
        if line_len(s) < s.len() {
            assert(s[line_len(s) as int] == t[line_len(t) as int]);
        }
    }
}

/// `line` without the carriage return at its end, if it has one.
pub open spec fn strip_cr(line: Seq<char>) -> Seq<char> {
    if line.len() > 0 && line.last() == '\r' {
        line.drop_last()
    } else {
        line
    }
}

/// The lines of `s`, in order.
pub open spec fn lines(s: Seq<char>) -> Seq<Seq<char>>
    decreases s.len(),
    via lines_decreases
{
    let n = line_len(s) as int;
    if s.len() == 0 {
        Seq::empty()
    } else if n >= s.len() {
        seq![s]
    } else {
        seq![strip_cr(s.take(n))] + lines(s.skip(n + 1))
    }
}

#[via_fn]
proof fn lines_decreases(s: Seq<char>) {
    lemma_line_len(s);
}

/// The separator between the lines of an extracted text.
pub open spec fn newline() -> Seq<char> {
    seq!['\n']
}

/// The lines of `all` with index at least `start` and below `end`; none when
/// `end <= start`, fewer where `all` ends before `end`.
pub open spec fn line_slice(all: Seq<Seq<char>>, start: nat, end: nat) -> Seq<Seq<char>> {
    let lo = if start <= all.len() { start } else { all.len() };
    let hi = if end <= lo { lo } else if end <= all.len() { end } else { all.len() };
    all.subrange(lo as int, hi as int)
}

/// The text made of the lines of `content` from `start` up to `end`, joined
/// by line feeds.
pub open spec fn joined_lines(content: Seq<char>, start: nat, end: nat) -> Seq<char> {
    join(line_slice(lines(content), start, end), newline())
}

/// Reads the line that starts at `from`. Returns the position where its text
/// ends and the position where the next line starts.
pub fn next_line(chars: &Vec<char>, from: usize) -> (bounds: (usize, usize))
    requires
        from < chars.len(),
    ensures
        from <= bounds.0 <= bounds.1 <= chars.len(),
        from < bounds.1,
        lines(chars@.skip(from as int)) == seq![chars@.subrange(from as int, bounds.0 as int)]
            + lines(chars@.skip(bounds.1 as int)),
{
    let len = chars.len();
    let mut j: usize = from;
    while j < len && chars[j] != '\n'
        invariant
            from <= j <= len,
            len == chars.len(),
            line_len(chars@.skip(from as int)) == (j - from) + line_len(chars@.skip(j as int)),
        decreases len - j,
    {
        assert(chars@.skip(j as int).skip(1) =~= chars@.skip(j + 1));
        j += 1;
    }
    let ghost t = chars@.skip(from as int);
    if j == len {
        proof {
            assert(t =~= chars@.subrange(from as int, len as int));
            assert(chars@.skip(len as int).len() == 0);
            assert(lines(t) =~= seq![t] + lines(chars@.skip(len as int)));
        }
        (len, len)
    } else {
        let text_end = if j > from && chars[j - 1] == '\r' {
            j - 1
        } else {
            j
        };
        proof {
            let n = j - from;
            assert(chars@.skip(j as int)[0] == '\n');
            assert(line_len(t) == n);
            assert(t.take(n) =~= chars@.subrange(from as int, j as int));
            assert(strip_cr(t.take(n)) =~= chars@.subrange(from as int, text_end as int));
            assert(t.skip(n + 1) =~= chars@.skip(j + 1));
        }
        (text_end, j + 1)
    }
}

/// Collects the lines of `chars` from `start_line` up to `end_line` and joins
/// them by line feeds.
pub fn join_lines(chars: &Vec<char>, start_line: u64, end_line: u64) -> (text: Vec<char>)
    ensures
        text@ == joined_lines(chars@, start_line as nat, end_line as nat),
{
    let len = chars.len();
    let mut text: Vec<char> = Vec::new();
    let mut pos: usize = 0;
    let mut line: usize = 0;
    let ghost all = lines(chars@);
    proof {
        assert(chars@.skip(0) =~= chars@);
        assert(all.skip(0) =~= all);
        assert(line_slice(all.take(0), start_line as nat, end_line as nat) =~= Seq::empty());
    }
    while pos < len && (line as u64) < end_line
        invariant
            len == chars.len(),
            all == lines(chars@),
            pos <= len,
            line <= pos,
            line <= all.len(),
            all.skip(line as int) == lines(chars@.skip(pos as int)),
            text@ == join(
                line_slice(all.take(line as int), start_line as nat, end_line as nat),
                newline(),
            ),
        decreases len - pos,
    {
        let (text_end, next) = next_line(chars, pos);
        let ghost before = line_slice(all.take(line as int), start_line as nat, end_line as nat);
        let ghost after = line_slice(all.take(line + 1), start_line as nat, end_line as nat);
        proof {
            let rest = lines(chars@.skip(next as int));
            let cur = chars@.subrange(pos as int, text_end as int);
            assert(all.skip(line as int).len() == 1 + rest.len());
            assert(all[line as int] == all.skip(line as int)[0]);
            assert(all[line as int] == cur);
            assert(all.skip(line + 1) =~= all.skip(line as int).skip(1));
            assert((seq![cur] + rest).skip(1) =~= rest);
        }
        if (line as u64) >= start_line {
            if (line as u64) > start_line {
                text.push('\n');
            }
            append_range(&mut text, chars, pos, text_end);
            proof {
                assert(after =~= before.push(all[line as int]));
                assert(after.drop_last() =~= before);
                if line as u64 > start_line {
                    assert(before.len() > 0);
                    assert(text@ =~= join(before, newline()) + newline() + all[line as int]);
                } else {
                    assert(before.len() == 0);
                    assert(text@ =~= all[line as int]);
                }
            }
        } else {
            proof {
                assert(after =~= before);
            }
        }
        pos = next;
        line += 1;
    }
    proof {
        let seen = all.take(line as int);
        if pos >= len {
            assert(chars@.skip(pos as int).len() == 0);
            assert(all.skip(line as int).len() == 0);
            assert(seen =~= all);
        } else {
            assert(line_slice(seen, start_line as nat, end_line as nat) =~= line_slice(
                all,
                start_line as nat,
                end_line as nat,
            ));
        }
    }
    text
}

/// The lines of `content` from `start_line` up to `end_line`, joined by line
/// feeds: the text of a document that a line span refers to.
pub fn extract_lines(content: &str, start_line: u64, end_line: u64) -> (text: String)
    ensures
        text@ == joined_lines(content@, start_line as nat, end_line as nat),
{
    let chars = chars_of(content);
    let text = join_lines(&chars, start_line, end_line);
    string_of(&text)
}

} // verus!
