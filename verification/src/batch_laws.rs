//! What a batch keeps of its words, its segments and its texts.

use crate::batch::{
    batch_fault, fault_in, lines_of, paragraphs, paragraphs_are_not_empty, sample_at, shifted_segments,
    text_fault, threshold, words_within, BatchRequest, Gaps, Timed,
};
use crate::space::{collapsed, only_space};
use crate::text::strings;
use vstd::prelude::*;

verus! {

proof fn last_segment_is_last(v: Seq<Timed>, limit: int)
    ensures
        v.len() > 0 ==> paragraphs(v, limit).len() > 0 && paragraphs(v, limit).last().last()
            == v.last(),
{
    paragraphs_are_not_empty(v, limit);
}

/// The words of two lists in a row are those of the first and those of the second: each word is
/// judged on its own, and the order stays.
pub proof fn words_are_taken_one_by_one(a: Seq<Timed>, b: Seq<Timed>, start: int, end: int)
    ensures
        words_within(a + b, start, end) == words_within(a, start, end) + words_within(b, start, end),
    decreases b.len(),
{
    if b.len() == 0 {
        assert(a + b =~= a);
        assert(words_within(a, start, end) + words_within(b, start, end) =~= words_within(
            a,
            start,
            end,
        ));
    } else {
        words_are_taken_one_by_one(a, b.drop_last(), start, end);
        assert((a + b).drop_last() =~= a + b.drop_last());
        assert((a + b).last() == b.last());
        assert(words_within(a + b, start, end) =~= words_within(a, start, end) + words_within(
            b,
            start,
            end,
        ));
    }
}

/// A word belongs to a part exactly where it begins at most a microsecond before the part and
/// before its end. It keeps its text and its distance from the start of the part. One that ends
/// with the part or sooner keeps its length, and one that would end later ends with the part.
pub proof fn a_word_within_keeps_its_length(w: Timed, start: int, end: int)
    ensures
        ({
            let r = words_within(seq![w], start, end);
            &&& (r.len() == 1 <==> start - 1 <= w.start < end)
            &&& (r.len() == 0 <==> w.start < start - 1 || w.start >= end)
            &&& r.len() == 1 ==> {
                &&& r[0].text == w.text
                &&& r[0].start == w.start - start
                &&& w.end <= end ==> r[0].end - r[0].start == w.end - w.start
                &&& w.end >= end ==> r[0].end == end - start
                &&& r[0].end == end - start ==> w.end >= end
            }
        }),
{
    let v = seq![w];
    let none = Seq::<Timed>::empty();
    assert(v.drop_last() =~= none);
    assert(words_within(none, start, end) =~= none);
    assert(v.last() == w);
}

/// Every entry of a part is made from one of the words: with its text, its length where the word
/// ends within the part, and cut at the end of the part where it does not.
pub proof fn entries_come_from_words(words: Seq<Timed>, start: int, end: int, i: int)
    requires
        0 <= i < words_within(words, start, end).len(),
    ensures
        exists|k: int|
            0 <= k < words.len() && {
                let w = #[trigger] words[k];
                let e = words_within(words, start, end)[i];
                &&& start - 1 <= w.start < end
                &&& e.text == w.text
                &&& e.start == w.start - start
                &&& w.end <= end ==> e.end - e.start == w.end - w.start
                &&& w.end >= end ==> e.end == end - start
            },
    decreases words.len(),
{
    let t = words.drop_last();
    let before = words_within(t, start, end);
    let now = words_within(words, start, end);
    if i < before.len() {
        entries_come_from_words(t, start, end, i);
        assert(now[i] == before[i]);
        let k = choose|k: int|
            0 <= k < t.len() && {
                let w = #[trigger] t[k];
                let e = before[i];
                &&& start - 1 <= w.start < end
                &&& e.text == w.text
                &&& e.start == w.start - start
                &&& w.end <= end ==> e.end - e.start == w.end - w.start
                &&& w.end >= end ==> e.end == end - start
            };
        assert(words[k] == t[k]);
    } else {
        assert(words[words.len() - 1] == words.last());
    }
}

/// No word that begins within a part is missing from it.
pub proof fn words_within_are_there(words: Seq<Timed>, start: int, end: int, k: int)
    requires
        0 <= k < words.len(),
        start - 1 <= words[k].start < end,
    ensures
        exists|i: int|
            0 <= i < words_within(words, start, end).len() && {
                let e = #[trigger] words_within(words, start, end)[i];
                e.text == words[k].text && e.start == words[k].start - start
            },
    decreases words.len(),
{
    let t = words.drop_last();
    let before = words_within(t, start, end);
    let now = words_within(words, start, end);
    if k < t.len() {
        assert(t[k] == words[k]);
        words_within_are_there(t, start, end, k);
        let i = choose|i: int|
            0 <= i < before.len() && {
                let e = #[trigger] before[i];
                e.text == t[k].text && e.start == t[k].start - start
            };
        assert(now[i] == before[i]);
    } else {
        assert(now[before.len() as int].text == words[k].text);
    }
}

/// A time falls on the nearest sample, a half upward, but never behind the last.
pub proof fn times_fall_on_the_nearest_sample(t: int, rate: int, samples: int)
    ensures
        ({
            let at = sample_at(t, rate, samples);
            &&& at <= samples
            &&& at < samples ==> at * 1_000_000 - 500_000 <= t * rate < at * 1_000_000 + 500_000
            &&& at == samples ==> t * rate >= samples * 1_000_000 - 500_000
        }),
{
}

/// Within a paragraph no silence is longer than the limit, and between one and the next it is.
pub proof fn silences_make_the_paragraphs(v: Seq<Timed>, limit: int)
    ensures
        ({
            let g = paragraphs(v, limit);
            &&& forall|i: int, k: int|
                0 <= i < g.len() && 0 <= k < g[i].len() - 1 ==> (#[trigger] g[i][k + 1]).start
                    - g[i][k].end <= limit
            &&& forall|i: int|
                0 <= i < g.len() - 1 ==> (#[trigger] g[i + 1])[0].start - g[i].last().end > limit
        }),
    decreases v.len(),
{
    if v.len() > 0 {
        let t = v.drop_last();
        silences_make_the_paragraphs(t, limit);
        paragraphs_are_not_empty(t, limit);
        last_segment_is_last(t, limit);
        let before = paragraphs(t, limit);
        let g = paragraphs(v, limit);
        let begins = v.len() == 1 || v.last().start - v[v.len() - 2].end > limit;
        if v.len() > 1 {
            assert(t.last() == v[v.len() - 2]);
        }
        assert forall|i: int, k: int| 0 <= i < g.len() && 0 <= k < g[i].len() - 1 implies (
        #[trigger] g[i][k + 1]).start - g[i][k].end <= limit by {
            if i < before.len() {
                if g[i] == before[i] {
                    assert(before[i][k + 1].start - before[i][k].end <= limit);
                } else {
                    assert(g[i] == before[i].push(v.last()));
                    if k + 1 < before[i].len() {
                        assert(before[i][k + 1].start - before[i][k].end <= limit);
                    } else {
                        assert(before[i][k] == before.last().last());
                    }
                }
            }
        }
        assert forall|i: int| 0 <= i < g.len() - 1 implies (#[trigger] g[i + 1])[0].start
            - g[i].last().end > limit by {
            if i + 1 < before.len() {
                assert(before[i + 1][0].start - before[i].last().end > limit);
                assert(g[i] == before[i]);
                assert(g[i + 1][0] == before[i + 1][0]);
            } else {
                assert(begins);
                assert(g[i] == before.last());
            }
        }
    }
}

/// The limit lies half way between the two gaps.
pub proof fn the_limit_is_half_way(gaps: Gaps)
    ensures
        threshold(gaps) - gaps.segment_ms * 1000 == gaps.paragraph_ms * 1000 - threshold(gaps),
{
}

/// The segments of a part begin at zero and keep their texts, their lengths and their distances.
pub proof fn shifting_keeps_lengths(g: Seq<Timed>, i: int, j: int)
    requires
        0 <= i < g.len(),
        0 <= j < g.len(),
    ensures
        ({
            let r = shifted_segments(g);
            &&& r.len() == g.len()
            &&& r[0].start == 0
            &&& r[i].text == g[i].text
            &&& r[i].end - r[i].start == g[i].end - g[i].start
            &&& r[j].start - r[i].start == g[j].start - g[i].start
        }),
{
}

proof fn first_fault(lines: Seq<Seq<char>>, i: int, max_chars: nat)
    requires
        0 <= i,
    ensures
        fault_in(lines, i, max_chars) is None <==> forall|k: int|
            i <= k < lines.len() ==> !only_space(#[trigger] lines[k])
                && lines[k].len() <= max_chars,
    decreases lines.len() - i,
{
    if i < lines.len() {
        first_fault(lines, i + 1, max_chars);
        if text_fault(lines[i], max_chars) is None {
            assert forall|k: int|
                i <= k < lines.len() && fault_in(lines, i + 1, max_chars) is None implies
                !only_space(#[trigger] lines[k]) && lines[k].len() <= max_chars by {}
        }
    }
}

/// A batch is spoken exactly where it holds from one to sixteen texts, none of them blank and
/// none, put on one line, longer than the limit.
pub proof fn batches_are_accepted(req: BatchRequest, max_chars: nat)
    ensures
        batch_fault(req, max_chars) is None <==> {
            &&& 1 <= req.texts@.len() <= 16
            &&& forall|k: int|
                0 <= k < req.texts@.len() ==> !only_space(
                    collapsed((#[trigger] req.texts@[k])@),
                ) && collapsed(req.texts@[k]@).len() <= max_chars
        },
{
    let lines = lines_of(strings(req.texts@));
    assert(forall|k: int|
        0 <= k < lines.len() ==> #[trigger] lines[k] == collapsed(req.texts@[k]@));
    first_fault(lines, 0, max_chars);
    if 1 <= req.texts@.len() <= 16 {
        if batch_fault(req, max_chars) is None {
            assert forall|k: int| 0 <= k < req.texts@.len() implies !only_space(
                collapsed((#[trigger] req.texts@[k])@),
            ) && collapsed(req.texts@[k]@).len() <= max_chars by {
                assert(lines[k] == collapsed(req.texts@[k]@));
            }
        }
    }
}

/// The first text at fault decides: a blank one is answered 400, one that is too long 413, and a
/// wrong number of texts 400.
pub proof fn batch_faults_have_a_status(req: BatchRequest, max_chars: nat, k: int)
    requires
        0 <= k < req.texts@.len() <= 16,
        forall|j: int|
            0 <= j < k ==> !only_space(collapsed((#[trigger] req.texts@[j])@))
                && collapsed(req.texts@[j]@).len() <= max_chars,
    ensures
        only_space(collapsed(req.texts@[k]@)) ==> batch_fault(req, max_chars) == Some(
            (400u16, "text is empty"@),
        ),
        !only_space(collapsed(req.texts@[k]@)) && collapsed(req.texts@[k]@).len()
            > max_chars ==> batch_fault(req, max_chars) is Some && batch_fault(
            req,
            max_chars,
        ).unwrap().0 == 413,
{
    let lines = lines_of(strings(req.texts@));
    assert(forall|j: int|
        0 <= j < lines.len() ==> #[trigger] lines[j] == collapsed(req.texts@[j]@));
    skip_good_lines(lines, 0, k, max_chars);
}

proof fn skip_good_lines(lines: Seq<Seq<char>>, i: int, k: int, max_chars: nat)
    requires
        0 <= i <= k < lines.len(),
        forall|j: int|
            i <= j < k ==> !only_space(#[trigger] lines[j]) && lines[j].len()
                <= max_chars,
    ensures
        fault_in(lines, i, max_chars) == fault_in(lines, k, max_chars),
    decreases k - i,
{
    if i < k {
        skip_good_lines(lines, i + 1, k, max_chars);
        assert(!only_space(lines[i]));
    }
}

} // verus!
