//! Characters, whitespace and words.
//!
//! Text is modelled as `Seq<char>`. A word is a maximal run of characters that
//! are not whitespace; `words` lists the words of a text in order.

use vstd::prelude::*;

verus! {

/// The characters that separate words: the code points with the Unicode
/// property `White_Space`.
pub open spec fn is_whitespace(c: char) -> bool {
    let u = c as u32;
    ||| 0x09 <= u <= 0x0D
    ||| u == 0x20
    ||| u == 0x85
    ||| u == 0xA0
    ||| u == 0x1680
    ||| 0x2000 <= u <= 0x200A
    ||| u == 0x2028
    ||| u == 0x2029
    ||| u == 0x202F
    ||| u == 0x205F
    ||| u == 0x3000
}

/// Tells whether `c` separates words.
pub fn char_is_whitespace(c: char) -> (b: bool)
    ensures
        b == is_whitespace(c),
{
    let u: u32 = c as u32;
    (0x09 <= u && u <= 0x0D) || u == 0x20 || u == 0x85 || u == 0xA0 || u == 0x1680 || (0x2000 <= u
        && u <= 0x200A) || u == 0x2028 || u == 0x2029 || u == 0x202F || u == 0x205F || u == 0x3000
}

/// Length of the longest prefix of `s` whose characters are all whitespace
/// (`space == true`) or all not whitespace (`space == false`).
pub open spec fn run_len(s: Seq<char>, space: bool) -> nat
    decreases s.len(),
{
    if s.len() > 0 && is_whitespace(s[0]) == space {
        1 + run_len(s.skip(1), space)
    } else {
        0
    }
}

/// A run is a prefix: it is no longer than the text, every character in it
/// has the class asked for, and the character after it, if any, has not.
pub proof fn lemma_run_len(s: Seq<char>, space: bool)
    ensures
        run_len(s, space) <= s.len(),
        forall|i: int| 0 <= i < run_len(s, space) ==> is_whitespace(#[trigger] s[i]) == space,
        run_len(s, space) < s.len() ==> is_whitespace(s[run_len(s, space) as int]) != space,
    decreases s.len(),
{
    if s.len() > 0 && is_whitespace(s[0]) == space {
        let t = s.skip(1);
        lemma_run_len(t, space);
        assert forall|i: int| 0 <= i < run_len(s, space) implies is_whitespace(#[trigger] s[i])
            == space by {
            if i > 0 {
                assert(s[i] == t[i - 1]);
            }
        }
        if run_len(s, space) < s.len() {
            assert(s[run_len(s, space) as int] == t[run_len(t, space) as int]);
        }
    }
}

/// The words of `s`: skip the leading whitespace, take the run of other
/// characters that follows as one word, and go on behind it.
pub open spec fn words(s: Seq<char>) -> Seq<Seq<char>>
    decreases s.len(),
    via words_decreases
{
    let start = run_len(s, true) as int;
    let n = run_len(s.skip(start), false) as int;
    if n == 0 {
        Seq::empty()
    } else {
        seq![s.subrange(start, start + n)] + words(s.skip(start + n))
    }
}

#[via_fn]
proof fn words_decreases(s: Seq<char>) {
    let start = run_len(s, true) as int;
    lemma_run_len(s, true);
    lemma_run_len(s.skip(start), false);
}

/// Whether `w` can be a word: not empty and free of whitespace.
pub open spec fn is_word(w: Seq<char>) -> bool {
    &&& w.len() > 0
    &&& forall|i: int| 0 <= i < w.len() ==> !is_whitespace(#[trigger] w[i])
}

/// Every element of `words(s)` is a word, and there are no more words than
/// characters.
pub proof fn lemma_words_are_words(s: Seq<char>)
    ensures
        words(s).len() <= s.len(),
        forall|k: int| 0 <= k < words(s).len() ==> is_word(#[trigger] words(s)[k]),
    decreases s.len(),
{
    let start = run_len(s, true) as int;
    let rest = s.skip(start);
    let n = run_len(rest, false) as int;
    lemma_run_len(s, true);
    lemma_run_len(rest, false);
    if n > 0 {
        let first = s.subrange(start, start + n);
        let tail = s.skip(start + n);
        lemma_words_are_words(tail);
        assert forall|i: int| 0 <= i < first.len() implies !is_whitespace(#[trigger] first[i]) by {
            assert(first[i] == rest[i]);
        }
        assert(is_word(first));
        assert forall|k: int| 0 <= k < words(s).len() implies is_word(#[trigger] words(s)[k]) by {
            if k > 0 {
                assert(words(s)[k] == words(tail)[k - 1]);
            }
        }
    }
}

/// The characters of `s`, in order.
pub fn chars_of(s: &str) -> (chars: Vec<char>)
    ensures
        chars@ == s@,
{
    let mut chars: Vec<char> = Vec::new();
    for c in it: s.chars()
        invariant
            it.seq() == s@,
            chars@ == it.seq().take(it.index()),
    {
        chars.push(c);
        assert(it.seq().take(it.index() + 1) =~= it.seq().take(it.index()).push(c));
    }
    assert(chars@ =~= s@);
    chars
}

/// Walks from `from` over the characters before `to` whose class is `space`,
/// and returns the position of the first one that differs, or `to`.
pub fn scan_run(chars: &Vec<char>, from: usize, to: usize, space: bool) -> (end: usize)
    requires
        from <= to <= chars.len(),
    ensures
        from <= end <= to,
        end - from == run_len(chars@.subrange(from as int, to as int), space),
{
    let mut i: usize = from;
    while i < to && char_is_whitespace(chars[i]) == space
        invariant
            from <= i <= to <= chars.len(),
            run_len(chars@.subrange(from as int, to as int), space) == (i - from) + run_len(
                chars@.subrange(i as int, to as int),
                space,
            ),
        decreases to - i,
    {
        assert(chars@.subrange(i as int, to as int).skip(1) =~= chars@.subrange(
            i + 1,
            to as int,
        ));
        i += 1;
    }
    i
}

/// Finds the first word among the characters from `from` up to `to`: `None`
/// when there is none, else the positions where it starts and ends.
pub fn next_word(chars: &Vec<char>, from: usize, to: usize) -> (found: Option<(usize, usize)>)
    requires
        from <= to <= chars.len(),
    ensures
        match found {
            None => words(chars@.subrange(from as int, to as int)).len() == 0,
            Some((start, end)) => {
                &&& from <= start < end <= to
                &&& words(chars@.subrange(from as int, to as int)) == seq![
                    chars@.subrange(start as int, end as int),
                ] + words(chars@.subrange(end as int, to as int))
            },
        },
{
    let start = scan_run(chars, from, to, true);
    let end = scan_run(chars, start, to, false);
    proof {
        let t = chars@.subrange(from as int, to as int);
        assert(t.skip(start - from) =~= chars@.subrange(start as int, to as int));
        assert(t.subrange(start - from, end - from) =~= chars@.subrange(start as int, end as int));
        assert(t.skip(end - from) =~= chars@.subrange(end as int, to as int));
    }
    if end == start {
        None
    } else {
        Some((start, end))
    }
}

/// Counts the words among the characters from `from` up to `to`.
pub fn count_words(chars: &Vec<char>, from: usize, to: usize) -> (count: usize)
    requires
        from <= to <= chars.len(),
    ensures
        count == words(chars@.subrange(from as int, to as int)).len(),
        count <= to - from,
{
    let mut count: usize = 0;
    let mut pos: usize = from;
    loop
        invariant
            from <= pos <= to <= chars.len(),
            count <= pos - from,
            words(chars@.subrange(from as int, to as int)).len() == count + words(
                chars@.subrange(pos as int, to as int),
            ).len(),
        decreases to - pos,
    {
        match next_word(chars, pos, to) {
            None => {
                return count;
            },
            Some((_, end)) => {
                count += 1;
                pos = end;
            },
        }
    }
}

/// `String::push` of the standard library appends `ch` to the end of the
/// string and changes nothing else.
pub assume_specification[ String::push ](s: &mut String, ch: char)
    ensures
        final(s)@ == old(s)@.push(ch),
;

/// Appends the characters from `from` up to `to` to `out`.
pub fn append_range(out: &mut Vec<char>, chars: &Vec<char>, from: usize, to: usize)
    requires
        from <= to <= chars.len(),
    ensures
        final(out)@ == old(out)@ + chars@.subrange(from as int, to as int),
{
    let mut i: usize = from;
    while i < to
        invariant
            from <= i <= to <= chars.len(),
            out@ == old(out)@ + chars@.subrange(from as int, i as int),
        decreases to - i,
    {
        out.push(chars[i]);
        assert(chars@.subrange(from as int, i + 1) =~= chars@.subrange(from as int, i as int).push(
            chars@[i as int],
        ));
        i += 1;
    }
}

/// Builds the string that holds `chars`.
pub fn string_of(chars: &Vec<char>) -> (s: String)
    ensures
        s@ == chars@,
{
    let mut s = String::new();
    let mut i: usize = 0;
    while i < chars.len()
        invariant
            i <= chars.len(),
            s@ == chars@.take(i as int),
        decreases chars.len() - i,
    {
        s.push(chars[i]);
        assert(chars@.take(i + 1) =~= chars@.take(i as int).push(chars@[i as int]));
        i += 1;
    }
    assert(chars@.take(chars.len() as int) =~= chars@);
    s
}

/// `parts` written one after the other with `sep` between neighbours.
pub open spec fn join(parts: Seq<Seq<char>>, sep: Seq<char>) -> Seq<char>
    decreases parts.len(),
{
    if parts.len() == 0 {
        Seq::empty()
    } else if parts.len() == 1 {
        parts[0]
    } else {
        join(parts.drop_last(), sep) + sep + parts.last()
    }
}

/// A joined text of two or more parts starts with the first part and the
/// separator, followed by the other parts joined.
pub proof fn lemma_join_first(parts: Seq<Seq<char>>, sep: Seq<char>)
    requires
        parts.len() >= 2,
    ensures
        join(parts, sep) == parts[0] + sep + join(parts.skip(1), sep),
    decreases parts.len(),
{
    let rest = parts.skip(1);
    let front = parts.drop_last();
    assert(join(parts, sep) == join(front, sep) + sep + parts.last());
    assert(rest.last() == parts.last());
    if parts.len() == 2 {
        assert(join(front, sep) == front[0]);
        assert(join(rest, sep) == rest[0]);
    } else {
        lemma_join_first(front, sep);
        assert(front.skip(1) =~= rest.drop_last());
        assert(join(rest, sep) == join(rest.drop_last(), sep) + sep + rest.last());
        assert(join(parts, sep) =~= parts[0] + sep + join(rest, sep));
    }
}

/// When `w` is a run of one class and `rest` does not go on with that class,
/// the run at the start of `w + rest` is `w`.
pub proof fn lemma_run_len_prefix(w: Seq<char>, rest: Seq<char>, space: bool)
    requires
        forall|i: int| 0 <= i < w.len() ==> is_whitespace(#[trigger] w[i]) == space,
        rest.len() > 0 ==> is_whitespace(rest[0]) != space,
    ensures
        run_len(w + rest, space) == w.len(),
    decreases w.len(),
{
    if w.len() > 0 {
        assert((w + rest).skip(1) =~= w.skip(1) + rest);
        assert forall|i: int| 0 <= i < w.skip(1).len() implies is_whitespace(
            #[trigger] w.skip(1)[i],
        ) == space by {
            assert(w.skip(1)[i] == w[i + 1]);
        }
        lemma_run_len_prefix(w.skip(1), rest, space);
    } else {
        assert(w + rest =~= rest);
    }
}

/// Whitespace in front of a text does not change its words.
pub proof fn lemma_words_skip_space(c: char, s: Seq<char>)
    requires
        is_whitespace(c),
    ensures
        words(seq![c] + s) == words(s),
{
    let t = seq![c] + s;
    assert(t.skip(1) =~= s);
    let a = run_len(s, true) as int;
    lemma_run_len(s, true);
    assert(t.skip(1 + a) =~= s.skip(a));
    let n = run_len(s.skip(a), false) as int;
    lemma_run_len(s.skip(a), false);
    assert(t.subrange(1 + a, 1 + a + n) =~= s.subrange(a, a + n));
    assert(t.skip(1 + a + n) =~= s.skip(a + n));
}

/// The separator that `split_into_chunks` writes between two words.
pub open spec fn space() -> Seq<char> {
    seq![' ']
}

/// Joining words with single spaces and splitting the result again gives the
/// same words.
pub proof fn lemma_words_of_joined(ws: Seq<Seq<char>>)
    requires
        forall|k: int| 0 <= k < ws.len() ==> is_word(#[trigger] ws[k]),
    ensures
        words(join(ws, space())) == ws,
    decreases ws.len(),
{
    let s = join(ws, space());
    if ws.len() == 0 {
        assert(run_len(s.skip(0), false) == 0);
        assert(words(s) =~= ws);
    } else {
        let w = ws[0];
        assert(is_word(w));
        let rest = if ws.len() == 1 {
            Seq::<char>::empty()
        } else {
            space() + join(ws.skip(1), space())
        };
        if ws.len() >= 2 {
            lemma_join_first(ws, space());
            assert(s =~= w + rest);
        } else {
            assert(s =~= w + rest);
        }
        assert(is_whitespace(' '));
        assert(rest.len() > 0 ==> rest[0] == ' ');
        assert(!is_whitespace(s[0])) by {
            assert(s[0] == w[0]);
        }
        assert(run_len(s, true) == 0);
        assert(s.skip(0) =~= s);
        lemma_run_len_prefix(w, rest, false);
        assert(s.subrange(0, w.len() as int) =~= w);
        assert(s.skip(w.len() as int) =~= rest);
        assert(words(s) == seq![w] + words(rest));
        if ws.len() == 1 {
            assert(run_len(rest.skip(0), false) == 0);
            assert(words(rest) =~= Seq::<Seq<char>>::empty());
        } else {
            let tail = ws.skip(1);
            lemma_words_skip_space(' ', join(tail, space()));
            assert forall|k: int| 0 <= k < tail.len() implies is_word(#[trigger] tail[k]) by {
                assert(tail[k] == ws[k + 1]);
            }
            lemma_words_of_joined(tail);
        }
        assert(words(s) =~= ws);
    }
}

/// The characters of `chars` that `span` covers.
pub open spec fn span_text(chars: Seq<char>, span: (usize, usize)) -> Seq<char> {
    chars.subrange(span.0 as int, span.1 as int)
}

/// The texts that `spans` cover, in order.
pub open spec fn span_texts(chars: Seq<char>, spans: Seq<(usize, usize)>) -> Seq<Seq<char>> {
    Seq::new(spans.len(), |k: int| span_text(chars, spans[k]))
}

/// Whether `spans` are the places of the words of `chars`: one span for each
/// word, in order, each inside `chars` and covering its word.
pub open spec fn is_word_spans(chars: Seq<char>, spans: Seq<(usize, usize)>) -> bool {
    &&& span_texts(chars, spans) == words(chars)
    &&& forall|k: int|
        0 <= k < spans.len() ==> (#[trigger] spans[k]).0 <= spans[k].1 <= chars.len()
}

/// Finds where each word of `chars` starts and ends.
pub fn word_spans(chars: &Vec<char>) -> (spans: Vec<(usize, usize)>)
    ensures
        is_word_spans(chars@, spans@),
{
    let len = chars.len();
    let mut spans: Vec<(usize, usize)> = Vec::new();
    let mut pos: usize = 0;
    proof {
        assert(chars@.subrange(0, len as int) =~= chars@);
        assert(span_texts(chars@, spans@) + words(chars@) =~= words(chars@));
    }
    loop
        invariant
            len == chars.len(),
            pos <= len,
            words(chars@) == span_texts(chars@, spans@) + words(
                chars@.subrange(pos as int, len as int),
            ),
            forall|k: int|
                0 <= k < spans@.len() ==> (#[trigger] spans@[k]).0 <= spans@[k].1 <= len,
        decreases len - pos,
    {
        match next_word(chars, pos, len) {
            None => {
                assert(span_texts(chars@, spans@) + words(chars@.subrange(pos as int, len as int))
                    =~= span_texts(chars@, spans@));
                return spans;
            },
            Some((start, end)) => {
                let ghost before = spans@;
                spans.push((start, end));
                proof {
                    let word = chars@.subrange(start as int, end as int);
                    assert(span_texts(chars@, spans@) =~= span_texts(chars@, before).push(word));
                    assert(span_texts(chars@, before) + (seq![word] + words(
                        chars@.subrange(end as int, len as int),
                    )) =~= span_texts(chars@, spans@) + words(
                        chars@.subrange(end as int, len as int),
                    ));
                }
                pos = end;
            },
        }
    }
}

/// Writes the words with index from `first` up to `last` one after the other,
/// with one space between neighbours.
pub fn join_words(chars: &Vec<char>, spans: &Vec<(usize, usize)>, first: usize, last: usize) -> (text:
    Vec<char>)
    requires
        is_word_spans(chars@, spans@),
        first <= last <= spans.len(),
    ensures
        text@ == join(words(chars@).subrange(first as int, last as int), space()),
{
    let ghost ws = words(chars@);
    let mut text: Vec<char> = Vec::new();
    let mut j: usize = first;
    while j < last
        invariant
            is_word_spans(chars@, spans@),
            ws == words(chars@),
            first <= j <= last <= spans.len(),
            text@ == join(ws.subrange(first as int, j as int), space()),
        decreases last - j,
    {
        let (start, end) = spans[j];
        let ghost before = ws.subrange(first as int, j as int);
        let ghost after = ws.subrange(first as int, j + 1);
        proof {
            assert(span_texts(chars@, spans@)[j as int] == span_text(chars@, spans@[j as int]));
            assert(after =~= before.push(ws[j as int]));
            assert(after.drop_last() =~= before);
        }
        if j > first {
            text.push(' ');
        }
        append_range(&mut text, chars, start, end);
        proof {
            if j > first {
                assert(text@ =~= join(before, space()) + space() + ws[j as int]);
            } else {
                assert(text@ =~= ws[j as int]);
            }
        }
        j += 1;
    }
    text
}

} // verus!
