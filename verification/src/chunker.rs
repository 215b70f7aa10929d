//! Splitting a text into chunks of words, and mapping a chunk back to lines.

use crate::lines::{lines, next_line};
use crate::text::{
    chars_of, count_words, is_word, is_word_spans, join, join_words, lemma_words_are_words,
    lemma_words_of_joined, space, string_of, word_spans, words,
};
use vstd::arithmetic::div_mod::lemma_fundamental_div_mod_converse;
use vstd::arithmetic::mul::{lemma_mul_inequality, lemma_mul_is_distributive_add_other_way};
use vstd::prelude::*;
use vstd::seq_lib::lemma_flatten_concat;

verus! {

/// Number of words in a chunk of the text pipeline.
pub const CHUNK_SIZE: usize = 256;

/// Number of chunks that `word_count` words fill when a chunk holds
/// `chunk_size` words: `word_count / chunk_size`, rounded up.
pub open spec fn chunk_count(word_count: nat, chunk_size: nat) -> nat
    recommends
        chunk_size > 0,
{
    ((word_count + chunk_size - 1) / (chunk_size as int)) as nat
}

/// The words of chunk `k`: those with index from `k * chunk_size` up to
/// `(k + 1) * chunk_size`, as far as `ws` has them.
pub open spec fn chunk_words(ws: Seq<Seq<char>>, chunk_size: nat, k: nat) -> Seq<Seq<char>> {
    let lo = if k * chunk_size <= ws.len() { k * chunk_size } else { ws.len() };
    let hi = if (k + 1) * chunk_size <= ws.len() { (k + 1) * chunk_size } else { ws.len() };
    ws.subrange(lo as int, hi as int)
}

/// The chunks of `text`: its words in groups of `chunk_size`, each group
/// joined by single spaces.
pub open spec fn chunk_texts(text: Seq<char>, chunk_size: nat) -> Seq<Seq<char>> {
    let ws = words(text);
    Seq::new(
        chunk_count(ws.len(), chunk_size),
        |k: int| join(chunk_words(ws, chunk_size, k as nat), space()),
    )
}

/// `chunk_count` is the one number `n` with `(n - 1) * c < w <= n * c`.
pub proof fn lemma_chunk_count(w: nat, c: nat, n: nat)
    requires
        c > 0,
        w <= n * c,
        n > 0 ==> (n - 1) * c < w,
    ensures
        chunk_count(w, c) == n,
{
    if n == 0 {
        assert(w == 0) by (nonlinear_arith)
            requires
                w <= n * c,
                n == 0,
        ;
        lemma_fundamental_div_mod_converse(c - 1, c as int, 0, c - 1);
    } else {
        lemma_mul_is_distributive_add_other_way(c as int, n - 1, 1);
        let r = (w + c - 1) - n * c;
        lemma_fundamental_div_mod_converse(w + c - 1, c as int, n as int, r);
    }
}

/// Splits `text` into its words and groups them, `chunk_size` words to a
/// chunk; each chunk is the text of its words with single spaces between.
pub fn split_into_chunks(text: &str, chunk_size: usize) -> (chunks: Vec<String>)
    requires
        chunk_size > 0,
    ensures
        chunks.deep_view() == chunk_texts(text@, chunk_size as nat),
{
    let chars = chars_of(text);
    let spans = word_spans(&chars);
    let total = spans.len();
    let ghost ws = words(text@);
    let ghost c = chunk_size as nat;
    let mut chunks: Vec<String> = Vec::new();
    let mut first: usize = 0;
    proof {
        assert(spans@.len() == ws.len());
        if total == 0 {
            lemma_chunk_count(0, c, 0);
        }
    }
    while first < total
        invariant
            chars@ == text@,
            ws == words(text@),
            c == chunk_size,
            c > 0,
            is_word_spans(chars@, spans@),
            total == spans.len(),
            total == ws.len(),
            first <= total,
            first < total ==> first == chunks.len() * c,
            first == total ==> chunks.len() == chunk_count(ws.len(), c),
            forall|k: int|
                0 <= k < chunks.len() ==> (#[trigger] chunks@[k])@ == join(
                    chunk_words(ws, c, k as nat),
                    space(),
                ),
        decreases total - first,
    {
        let last = if total - first <= chunk_size {
            total
        } else {
            first + chunk_size
        };
        let ghost k = chunks.len() as nat;
        proof {
            lemma_mul_is_distributive_add_other_way(c as int, k as int, 1);
            assert((k + 1) * c == first + c);
            assert(chunk_words(ws, c, k) == ws.subrange(first as int, last as int));
            if last == total {
                lemma_chunk_count(ws.len(), c, k + 1);
            }
        }
        let words_text = join_words(&chars, &spans, first, last);
        let chunk = string_of(&words_text);
        chunks.push(chunk);
        first = last;
    }
    proof {
        assert(chunks.deep_view() =~= chunk_texts(text@, c));
    }
    chunks
}

/// The words of the chunks, chunk by chunk.
pub open spec fn chunked_words(text: Seq<char>, chunk_size: nat) -> Seq<Seq<Seq<char>>> {
    Seq::new(
        chunk_texts(text, chunk_size).len(),
        |k: int| words(chunk_texts(text, chunk_size)[k]),
    )
}

/// The first `m` groups of `ws`.
pub open spec fn word_groups(ws: Seq<Seq<char>>, chunk_size: nat, m: nat) -> Seq<Seq<Seq<char>>> {
    Seq::new(m, |k: int| chunk_words(ws, chunk_size, k as nat))
}

/// The first `m` groups, one after the other, are the first `m * chunk_size`
/// words.
pub proof fn lemma_word_groups_flatten(ws: Seq<Seq<char>>, chunk_size: nat, m: nat)
    requires
        chunk_size > 0,
    ensures
        word_groups(ws, chunk_size, m).flatten() == ws.take(
            if m * chunk_size <= ws.len() {
                (m * chunk_size) as int
            } else {
                ws.len() as int
            },
        ),
    decreases m,
{
    let groups = word_groups(ws, chunk_size, m);
    if m == 0 {
        assert(groups.flatten() =~= ws.take(0));
    } else {
        let k = (m - 1) as nat;
        let front = word_groups(ws, chunk_size, k);
        let last = seq![chunk_words(ws, chunk_size, k)];
        lemma_word_groups_flatten(ws, chunk_size, k);
        assert(groups =~= front + last);
        lemma_flatten_concat(front, last);
        last.lemma_flatten_one_element();
        lemma_mul_is_distributive_add_other_way(chunk_size as int, k as int, 1);
        assert(groups.flatten() =~= front.flatten() + chunk_words(ws, chunk_size, k));
    }
}

/// The chunks partition the words of the text: there are
/// `words / chunk_size` of them, rounded up; the words of chunk `k` are the
/// words of the text from `k * chunk_size` on; and the words of all chunks,
/// one after the other, are the words of the text.
pub proof fn lemma_chunks_partition_words(text: Seq<char>, chunk_size: nat)
    requires
        chunk_size > 0,
    ensures
        chunk_texts(text, chunk_size).len() == chunk_count(words(text).len(), chunk_size),
        chunk_count(words(text).len(), chunk_size) * chunk_size >= words(text).len(),
        chunk_count(words(text).len(), chunk_size) > 0 ==> (chunk_count(
            words(text).len(),
            chunk_size,
        ) - 1) * chunk_size < words(text).len(),
        forall|k: int|
            0 <= k < chunk_texts(text, chunk_size).len() ==> words(
                #[trigger] chunk_texts(text, chunk_size)[k],
            ) == chunk_words(words(text), chunk_size, k as nat),
        chunked_words(text, chunk_size).flatten() == words(text),
{
    let ws = words(text);
    let w = ws.len();
    let c = chunk_size;
    let n = chunk_count(w, c);
    lemma_words_are_words(text);
    assert(n * c >= w && (n > 0 ==> (n - 1) * c < w)) by (nonlinear_arith)
        requires
            c > 0,
            n == (w + c - 1) / (c as int),
    ;
    assert forall|k: int| 0 <= k < chunk_texts(text, c).len() implies words(
        #[trigger] chunk_texts(text, c)[k],
    ) == chunk_words(ws, c, k as nat) by {
        let kn = k as nat;
        let group = chunk_words(ws, c, kn);
        let lo = if kn * c <= w { kn * c } else { w };
        let hi = if (kn + 1) * c <= w { (kn + 1) * c } else { w };
        lemma_mul_is_distributive_add_other_way(c as int, kn as int, 1);
        assert(lo <= hi);
        assert(group == ws.subrange(lo as int, hi as int));
        assert forall|i: int| 0 <= i < group.len() implies is_word(#[trigger] group[i]) by {
            assert(group[i] == ws[lo + i]);
        }
        lemma_words_of_joined(group);
    }
    assert(chunked_words(text, c) =~= word_groups(ws, c, n));
    lemma_word_groups_flatten(ws, c, n);
    assert(ws.take(w as int) =~= ws);
}

/// Number of words on each line of `content`.
pub open spec fn line_word_counts(content: Seq<char>) -> Seq<nat> {
    Seq::new(lines(content).len(), |i: int| words(lines(content)[i]).len())
}

/// Number of words on the lines before line `line`.
pub open spec fn words_before(counts: Seq<nat>, line: nat) -> nat
    decreases line,
{
    if line == 0 {
        0
    } else {
        words_before(counts, (line - 1) as nat) + counts[line - 1]
    }
}

/// Among the first `upto` lines, the last one that has fewer than `target`
/// words before it; line 0 when there is none.
pub open spec fn last_line_below(counts: Seq<nat>, target: nat, upto: nat) -> nat
    decreases upto,
{
    if upto == 0 {
        0
    } else if words_before(counts, (upto - 1) as nat) < target {
        (upto - 1) as nat
    } else {
        last_line_below(counts, target, (upto - 1) as nat)
    }
}

/// The line range of chunk `chunk_index`: it starts at the last line with
/// fewer than `chunk_index * chunk_size` words before it, and ends behind the
/// last line with fewer than `(chunk_index + 1) * chunk_size` words before it.
pub open spec fn line_range(content: Seq<char>, chunk_index: nat, chunk_size: nat) -> (nat, nat) {
    let counts = line_word_counts(content);
    (
        last_line_below(counts, chunk_index * chunk_size, counts.len()),
        last_line_below(counts, (chunk_index + 1) * chunk_size, counts.len()) + 1,
    )
}

/// The running word total does not fall from line to line.
pub proof fn lemma_words_before_monotonic(counts: Seq<nat>, i: nat, j: nat)
    requires
        i <= j,
    ensures
        words_before(counts, i) <= words_before(counts, j),
    decreases j,
{
    if i < j {
        lemma_words_before_monotonic(counts, i, (j - 1) as nat);
    }
}

/// What `last_line_below` picks: a line among the first `upto` with fewer
/// than `target` words before it, or line 0; and every later line among them
/// has `target` words or more before it.
pub proof fn lemma_last_line_below(counts: Seq<nat>, target: nat, upto: nat)
    ensures
        ({
            let line = last_line_below(counts, target, upto);
            &&& line == 0 || (line < upto && words_before(counts, line) < target)
            &&& upto > 0 ==> line < upto
            &&& forall|i: nat| line < i < upto ==> words_before(counts, i) >= target
        }),
    decreases upto,
{
    if upto > 0 && words_before(counts, (upto - 1) as nat) >= target {
        lemma_last_line_below(counts, target, (upto - 1) as nat);
    }
}

/// Once the running total has reached `target`, later lines do not change
/// the line picked.
pub proof fn lemma_last_line_below_stable(counts: Seq<nat>, target: nat, reached: nat, upto: nat)
    requires
        reached <= upto,
        words_before(counts, reached) >= target,
    ensures
        last_line_below(counts, target, upto) == last_line_below(counts, target, reached),
    decreases upto,
{
    if reached < upto {
        lemma_words_before_monotonic(counts, reached, (upto - 1) as nat);
        lemma_last_line_below_stable(counts, target, reached, (upto - 1) as nat);
    }
}

/// A larger target picks the same line or a later one.
pub proof fn lemma_last_line_below_monotonic(counts: Seq<nat>, low: nat, high: nat, upto: nat)
    requires
        low <= high,
    ensures
        last_line_below(counts, low, upto) <= last_line_below(counts, high, upto),
    decreases upto,
{
    if upto > 0 {
        lemma_last_line_below(counts, low, (upto - 1) as nat);
        lemma_last_line_below_monotonic(counts, low, high, (upto - 1) as nat);
    }
}

/// Line ranges follow the chunks: a later chunk starts and ends no earlier
/// than an earlier one.
pub proof fn lemma_line_range_monotonic(
    content: Seq<char>,
    chunk_size: nat,
    earlier: nat,
    later: nat,
)
    requires
        earlier <= later,
    ensures
        line_range(content, earlier, chunk_size).0 <= line_range(content, later, chunk_size).0,
        line_range(content, earlier, chunk_size).1 <= line_range(content, later, chunk_size).1,
{
    let counts = line_word_counts(content);
    lemma_mul_inequality(earlier as int, later as int, chunk_size as int);
    lemma_mul_inequality((earlier + 1) as int, (later + 1) as int, chunk_size as int);
    lemma_last_line_below_monotonic(
        counts,
        earlier * chunk_size,
        later * chunk_size,
        counts.len(),
    );
    lemma_last_line_below_monotonic(
        counts,
        (earlier + 1) * chunk_size,
        (later + 1) * chunk_size,
        counts.len(),
    );
}

/// A line range is never empty, and it starts within the lines of the
/// content unless the content has no line.
pub proof fn lemma_line_range_bounds(content: Seq<char>, chunk_index: nat, chunk_size: nat)
    ensures
        line_range(content, chunk_index, chunk_size).0 < line_range(
            content,
            chunk_index,
            chunk_size,
        ).1,
        lines(content).len() > 0 ==> line_range(content, chunk_index, chunk_size).1 <= lines(
            content,
        ).len(),
        lines(content).len() == 0 ==> line_range(content, chunk_index, chunk_size) == (0nat, 1nat),
{
    let counts = line_word_counts(content);
    lemma_mul_inequality(chunk_index as int, (chunk_index + 1) as int, chunk_size as int);
    lemma_last_line_below_monotonic(
        counts,
        chunk_index * chunk_size,
        (chunk_index + 1) * chunk_size,
        counts.len(),
    );
    lemma_last_line_below(counts, (chunk_index + 1) * chunk_size, counts.len());
}

/// Maps chunk `chunk_index` of `content` back to lines: walks the lines and
/// counts their words, and returns the line reached before the chunk's first
/// word and, exclusive, the line reached before its end.
pub fn get_line_range(content: &str, chunk_index: usize, chunk_size: usize) -> (range: (
    usize,
    usize,
))
    ensures
        range.0 == line_range(content@, chunk_index as nat, chunk_size as nat).0,
        range.1 == line_range(content@, chunk_index as nat, chunk_size as nat).1,
{
    let chars = chars_of(content);
    let len = chars.len();
    assert(chunk_index * chunk_size <= (chunk_index + 1) * chunk_size <= u128::MAX)
        by (nonlinear_arith)
        requires
            chunk_index <= 0xffff_ffff_ffff_ffff,
            chunk_size <= 0xffff_ffff_ffff_ffff,
    ;
    let start_word: u128 = (chunk_index as u128) * (chunk_size as u128);
    let end_word: u128 = (chunk_index as u128 + 1) * (chunk_size as u128);
    let ghost all = lines(content@);
    let ghost counts = line_word_counts(content@);
    let mut pos: usize = 0;
    let mut line_count: usize = 0;
    let mut word_count: usize = 0;
    let mut start_line: usize = 0;
    let mut end_line: usize = 0;
    proof {
        assert(chars@.skip(0) =~= chars@);
        assert(all.skip(0) =~= all);
    }
    while pos < len && (word_count as u128) < end_word
        invariant
            chars@ == content@,
            len == chars.len(),
            all == lines(content@),
            counts == line_word_counts(content@),
            start_word <= end_word,
            pos <= len,
            line_count <= pos,
            word_count <= pos,
            line_count <= all.len(),
            all.skip(line_count as int) == lines(chars@.skip(pos as int)),
            word_count == words_before(counts, line_count as nat),
            start_line == last_line_below(counts, start_word as nat, line_count as nat),
            end_line == last_line_below(counts, end_word as nat, line_count as nat),
            end_line <= line_count,
            line_count > 0 ==> end_line < line_count,
        decreases len - pos,
    {
        let (text_end, next) = next_line(&chars, pos);
        let words_in_line = count_words(&chars, pos, text_end);
        proof {
            let rest = lines(chars@.skip(next as int));
            let cur = chars@.subrange(pos as int, text_end as int);
            assert(all.skip(line_count as int).len() == 1 + rest.len());
            assert(all[line_count as int] == all.skip(line_count as int)[0]);
            assert(all[line_count as int] == cur);
            assert(all.skip(line_count + 1) =~= all.skip(line_count as int).skip(1));
            assert((seq![cur] + rest).skip(1) =~= rest);
            assert(counts[line_count as int] == words_in_line);
        }
        if (word_count as u128) < start_word {
            start_line = line_count;
        }
        end_line = line_count;
        word_count += words_in_line;
        line_count += 1;
        pos = next;
    }
    proof {
        if pos >= len {
            assert(chars@.skip(pos as int).len() == 0);
            assert(all.skip(line_count as int).len() == 0);
        } else {
            lemma_last_line_below_stable(
                counts,
                start_word as nat,
                line_count as nat,
                counts.len(),
            );
            lemma_last_line_below_stable(counts, end_word as nat, line_count as nat, counts.len());
        }
    }
    (start_line, end_line + 1)
}

} // verus!
