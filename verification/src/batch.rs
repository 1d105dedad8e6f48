//! Several texts in one engine run, answered as one recording per text.
//!
//! The join knows where every segment landed, so the split is exact. Times are whole
//! microseconds.

use crate::api::{
    decimal_text, is_simple, number_text, simple_request, validate, ApiError, TtsRequest,
};
use crate::lexicon::opt_chars;
use crate::mtoken::copy_opt;
use crate::space::{collapse, collapsed, one_line_is_one_line};
use crate::text::{cat, first_index, first_index_bounds, split_on, strings};
use crate::unicode::white_space;
use vstd::prelude::*;
use vstd::string::*;

verus! {

/// The most texts that one request may hold.
pub const MAX_TEXTS: usize = 16;

/// A request for several texts.
pub struct BatchRequest {
    pub texts: Vec<String>,
    pub voice: Option<String>,
    pub seed: Option<u64>,
}

/// The silences of a join, in milliseconds.
#[derive(Clone, Copy, Debug)]
pub struct Gaps {
    /// Between two segments of a paragraph.
    pub segment_ms: u32,
    /// Between two paragraphs.
    pub paragraph_ms: u32,
}

impl Default for Gaps {
    fn default() -> (r: Gaps)
        ensures
            r == (Gaps { segment_ms: 90, paragraph_ms: 320 }),
    {
        Gaps { segment_ms: 90, paragraph_ms: 320 }
    }
}

/// A text and when it is spoken.
pub struct TimedText {
    pub text: String,
    pub start: u64,
    pub end: u64,
}

/// A text and when it is spoken, counted from the start of its part.
pub struct ShiftedText {
    pub text: String,
    pub start: i128,
    pub end: i128,
}

/// One part of a recording: its samples, and what is spoken in them.
pub struct Part {
    pub from: usize,
    pub to: usize,
    pub words: Option<Vec<ShiftedText>>,
    pub segments: Vec<ShiftedText>,
}

/// The meaning of a text and its time.
#[verifier::ext_equal]
pub struct Timed {
    pub text: Seq<char>,
    pub start: int,
    pub end: int,
}

/// The meaning of a list of texts and times.
pub open spec fn timed(v: Seq<TimedText>) -> Seq<Timed> {
    v.map_values(|t: TimedText| Timed { text: t.text@, start: t.start as int, end: t.end as int })
}

/// The meaning of a list of shifted texts.
pub open spec fn shifted(v: Seq<ShiftedText>) -> Seq<Timed> {
    v.map_values(
        |t: ShiftedText| Timed { text: t.text@, start: t.start as int, end: t.end as int },
    )
}

/// The silence above which a paragraph begins: half way between the two gaps.
pub open spec fn threshold(gaps: Gaps) -> int {
    (gaps.segment_ms + gaps.paragraph_ms) * 500
}

/// The segments of each paragraph. One begins wherever the silence before a segment is the
/// paragraph gap rather than the segment gap.
pub open spec fn paragraphs(v: Seq<Timed>, limit: int) -> Seq<Seq<Timed>>
    decreases v.len(),
{
    if v.len() == 0 {
        Seq::empty()
    } else {
        let before = paragraphs(v.drop_last(), limit);
        if v.len() == 1 || v.last().start - v[v.len() - 2].end > limit {
            before.push(seq![v.last()])
        } else {
            before.drop_last().push(before.last().push(v.last()))
        }
    }
}

/// The sample at a time, rounded to the nearest and no further than the end.
pub open spec fn sample_at(t: int, rate: int, samples: int) -> int {
    let at = (t * rate + 500_000) / 1_000_000;
    if at < samples {
        at
    } else {
        samples
    }
}

/// The earlier of two times.
pub open spec fn earlier(a: int, b: int) -> int {
    if a < b {
        a
    } else {
        b
    }
}

/// The segments of a paragraph, counted from its start.
pub open spec fn shifted_segments(g: Seq<Timed>) -> Seq<Timed> {
    g.map_values(
        |s: Timed| Timed { text: s.text, start: s.start - g[0].start, end: s.end - g[0].start },
    )
}

/// The words that begin within a paragraph, counted from its start and cut at its end. A word
/// may begin one microsecond early.
pub open spec fn words_within(words: Seq<Timed>, start: int, end: int) -> Seq<Timed>
    decreases words.len(),
{
    if words.len() == 0 {
        Seq::empty()
    } else {
        let before = words_within(words.drop_last(), start, end);
        let w = words.last();
        if w.start >= start - 1 && w.start < end {
            before.push(
                Timed { text: w.text, start: w.start - start, end: earlier(w.end, end) - start },
            )
        } else {
            before
        }
    }
}

/// Whether a part is that of a paragraph.
pub open spec fn is_part(
    p: Part,
    g: Seq<Timed>,
    words: Option<Seq<Timed>>,
    rate: int,
    samples: int,
) -> bool {
    &&& p.from == sample_at(g[0].start, rate, samples)
    &&& p.to == sample_at(g.last().end, rate, samples)
    &&& shifted(p.segments@) == shifted_segments(g)
    &&& match (p.words, words) {
        (Some(v), Some(w)) => shifted(v@) == words_within(w, g[0].start, g.last().end),
        (None, None) => true,
        _ => false,
    }
}

/// Whether every paragraph ends at or behind the sample where it begins.
pub open spec fn forward(groups: Seq<Seq<Timed>>, rate: int, samples: int) -> bool {
    forall|i: int|
        0 <= i < groups.len() ==> sample_at((#[trigger] groups[i])[0].start, rate, samples)
            <= sample_at(groups[i].last().end, rate, samples)
}

/// No paragraph is empty.
pub proof fn paragraphs_are_not_empty(v: Seq<Timed>, limit: int)
    ensures
        v.len() > 0 ==> paragraphs(v, limit).len() > 0,
        forall|i: int|
            0 <= i < paragraphs(v, limit).len() ==> (#[trigger] paragraphs(v, limit)[i]).len() > 0,
        paragraphs(v, limit).len() <= v.len(),
    decreases v.len(),
{
    if v.len() > 0 {
        paragraphs_are_not_empty(v.drop_last(), limit);
    }
}

/// The number of the first segment of each paragraph.
fn find_starts(segments: &Vec<TimedText>, limit: u64) -> (r: Vec<usize>)
    requires
        limit <= 0xffff_ffff_ffff,
    ensures
        r@.len() == paragraphs(timed(segments@), limit as int).len(),
        forall|i: int|
            0 <= i < r@.len() ==> {
                let end = if i + 1 < r@.len() {
                    r@[i + 1] as int
                } else {
                    segments@.len() as int
                };
                (#[trigger] r@[i]) < end <= segments@.len() && paragraphs(
                    timed(segments@),
                    limit as int,
                )[i] == timed(segments@).subrange(r@[i] as int, end)
            },
{
    let ghost all = timed(segments@);
    let mut starts: Vec<usize> = Vec::new();
    let mut i: usize = 0;
    while i < segments.len()
        invariant
            i <= segments@.len(),
            all == timed(segments@),
            limit <= 0xffff_ffff_ffff,
            i > 0 ==> starts@.len() > 0,
            starts@.len() == paragraphs(all.take(i as int), limit as int).len(),
            forall|k: int|
                0 <= k < starts@.len() ==> {
                    let end = if k + 1 < starts@.len() {
                        starts@[k + 1] as int
                    } else {
                        i as int
                    };
                    (#[trigger] starts@[k]) < end <= i && paragraphs(
                        all.take(i as int),
                        limit as int,
                    )[k] == all.subrange(starts@[k] as int, end)
                },
        decreases segments.len() - i,
    {
        let ghost next = all.take(i + 1);
        let ghost before = paragraphs(all.take(i as int), limit as int);
        let ghost starts0 = starts@;
        assert(next.drop_last() =~= all.take(i as int));
        assert(next.last() == all[i as int]);
        if i > 0 {
            assert(next[next.len() - 2] == all[i - 1]);
        }
        let begins = i == 0 || (segments[i].start as i128) - (segments[i - 1].end as i128)
            > limit as i128;
        if begins {
            starts.push(i);
        }
        proof {
            let now = paragraphs(next, limit as int);
            assert forall|k: int| 0 <= k < starts@.len() implies {
                let end = if k + 1 < starts@.len() {
                    starts@[k + 1] as int
                } else {
                    i + 1
                };
                (#[trigger] starts@[k]) < end <= i + 1 && now[k] == all.subrange(
                    starts@[k] as int,
                    end,
                )
            } by {
                if k < starts0.len() {
                    assert(starts@[k] == starts0[k]);
                    if begins {
                        assert(now[k] == before[k]);
                    } else if k == starts0.len() - 1 {
                        assert(now[k] == before[k].push(all[i as int]));
                        assert(all.subrange(starts0[k] as int, i as int).push(all[i as int])
                            =~= all.subrange(starts0[k] as int, i + 1));
                    } else {
                        assert(now[k] == before[k]);
                    }
                } else {
                    assert(seq![all[i as int]] =~= all.subrange(i as int, i + 1));
                }
            }
        }
        i = i + 1;
    }
    assert(all.take(i as int) =~= all);
    starts
}

fn find_sample(t: u64, rate: u32, samples: usize) -> (r: usize)
    ensures
        r == sample_at(t as int, rate as int, samples as int),
{
    assert(t * rate <= 0xffff_ffff_ffff_ffff * 0xffff_ffff) by (nonlinear_arith)
        requires
            t <= 0xffff_ffff_ffff_ffff,
            rate <= 0xffff_ffff,
    ;
    assert(t * rate >= 0) by (nonlinear_arith)
        requires
            t >= 0,
            rate >= 0,
    ;
    let at: u128 = ((t as u128) * (rate as u128) + 500_000) / 1_000_000;
    if at < samples as u128 {
        at as usize
    } else {
        samples
    }
}

fn shift_segments(segments: &Vec<TimedText>, from: usize, to: usize) -> (r: Vec<ShiftedText>)
    requires
        from < to <= segments@.len(),
    ensures
        shifted(r@) == shifted_segments(timed(segments@).subrange(from as int, to as int)),
{
    let ghost g = timed(segments@).subrange(from as int, to as int);
    let start: u64 = segments[from].start;
    let ghost goal = shifted_segments(g);
    let mut out: Vec<ShiftedText> = Vec::new();
    let mut i: usize = from;
    assert(shifted(out@) =~= goal.take(0));
    while i < to
        invariant
            from <= i <= to <= segments@.len(),
            from < to,
            g == timed(segments@).subrange(from as int, to as int),
            g[0].start == start,
            goal == shifted_segments(g),
            shifted(out@) == goal.take(i - from),
        decreases to - i,
    {
        let ghost before = shifted(out@);
        let s = ShiftedText {
            text: segments[i].text.clone(),
            start: (segments[i].start as i128) - (start as i128),
            end: (segments[i].end as i128) - (start as i128),
        };
        let ghost v = Timed { text: s.text@, start: s.start as int, end: s.end as int };
        out.push(s);
        assert(shifted(out@) =~= before.push(v));
        assert(g[i - from] == timed(segments@)[i as int]);
        assert(v == goal[i - from]);
        assert(shifted(out@) =~= goal.take(i + 1 - from));
        i = i + 1;
    }
    assert(goal.take(to - from) =~= goal);
    out
}

fn take_words(words: &Vec<TimedText>, start: u64, end: u64) -> (r: Vec<ShiftedText>)
    ensures
        shifted(r@) == words_within(timed(words@), start as int, end as int),
{
    let ghost all = timed(words@);
    let mut out: Vec<ShiftedText> = Vec::new();
    let mut i: usize = 0;
    assert(shifted(out@) =~= Seq::<Timed>::empty());
    while i < words.len()
        invariant
            i <= words@.len(),
            all == timed(words@),
            shifted(out@) == words_within(all.take(i as int), start as int, end as int),
        decreases words.len() - i,
    {
        assert(all.take(i + 1).drop_last() =~= all.take(i as int));
        assert(all.take(i + 1).last() == all[i as int]);
        let from: u64 = words[i].start;
        let to: u64 = words[i].end;
        if (from as i128) >= (start as i128) - 1 && from < end {
            let last: u64 = if to < end {
                to
            } else {
                end
            };
            let ghost before = shifted(out@);
            let w = ShiftedText {
                text: words[i].text.clone(),
                start: (from as i128) - (start as i128),
                end: (last as i128) - (start as i128),
            };
            let ghost v = Timed { text: w.text@, start: w.start as int, end: w.end as int };
            out.push(w);
            assert(shifted(out@) =~= before.push(v));
        }
        i = i + 1;
    }
    assert(all.take(i as int) =~= all);
    out
}

/// The meaning of optional words.
pub open spec fn opt_timed(words: Option<&Vec<TimedText>>) -> Option<Seq<Timed>> {
    match words {
        Some(w) => Some(timed(w@)),
        None => None,
    }
}

/// Whether a recording can be cut: no paragraph ends before it begins, unless there are not as
/// many as expected and nothing is cut at all.
#[verifier::rlimit(60)]
pub fn can_split(
    samples: usize,
    rate: u32,
    gaps: Gaps,
    segments: &Vec<TimedText>,
    expected: usize,
) -> (r: bool)
    ensures
        r == ({
            let groups = paragraphs(timed(segments@), threshold(gaps));
            groups.len() == expected ==> forward(groups, rate as int, samples as int)
        }),
{
    let limit: u64 = ((gaps.segment_ms as u64) + (gaps.paragraph_ms as u64)) * 500;
    let starts = find_starts(segments, limit);
    if starts.len() != expected {
        return true;
    }
    let ghost groups = paragraphs(timed(segments@), threshold(gaps));
    let ghost all = timed(segments@);
    let mut i: usize = 0;
    while i < starts.len()
        invariant
            i <= starts@.len() == groups.len(),
            groups.len() == expected,
            all == timed(segments@),
            groups == paragraphs(all, threshold(gaps)),
            forall|k: int|
                0 <= k < starts@.len() ==> {
                    let end = if k + 1 < starts@.len() {
                        starts@[k + 1] as int
                    } else {
                        segments@.len() as int
                    };
                    (#[trigger] starts@[k]) < end <= segments@.len() && groups[k] == all.subrange(
                        starts@[k] as int,
                        end,
                    )
                },
            forall|k: int|
                0 <= k < i ==> sample_at(
                    (#[trigger] groups[k])[0].start,
                    rate as int,
                    samples as int,
                ) <= sample_at(groups[k].last().end, rate as int, samples as int),
        decreases starts.len() - i,
    {
        let from: usize = starts[i];
        let to: usize = if i + 1 < starts.len() {
            starts[i + 1]
        } else {
            segments.len()
        };
        let ghost g = groups[i as int];
        assert(starts@[i as int] == from);
        assert(g[0] == all[from as int] && g.last() == all[to - 1]);
        let a: usize = find_sample(segments[from].start, rate, samples);
        let b: usize = find_sample(segments[to - 1].end, rate, samples);
        if a > b {
            return false;
        }
        i = i + 1;
    }
    true
}

/// Cuts a joined recording of `samples` samples back into one part per paragraph, or nothing
/// where there are not as many paragraphs as expected.
#[verifier::rlimit(60)]
pub fn split(
    samples: usize,
    rate: u32,
    gaps: Gaps,
    segments: &Vec<TimedText>,
    words: Option<&Vec<TimedText>>,
    expected: usize,
) -> (r: Option<Vec<Part>>)
    requires
        ({
            let groups = paragraphs(timed(segments@), threshold(gaps));
            groups.len() == expected ==> forward(groups, rate as int, samples as int)
        }),
    ensures
        ({
            let groups = paragraphs(timed(segments@), threshold(gaps));
            match r {
                Some(parts) => groups.len() == expected && parts@.len() == expected && forall|
                    i: int,
                |
                    0 <= i < parts@.len() ==> is_part(
                        #[trigger] parts@[i],
                        groups[i],
                        opt_timed(words),
                        rate as int,
                        samples as int,
                    ) && parts@[i].from <= parts@[i].to <= samples,
                None => groups.len() != expected,
            }
        }),
{
    let limit: u64 = ((gaps.segment_ms as u64) + (gaps.paragraph_ms as u64)) * 500;
    let starts = find_starts(segments, limit);
    if starts.len() != expected {
        return None;
    }
    let ghost groups = paragraphs(timed(segments@), threshold(gaps));
    let ghost all = timed(segments@);
    let mut parts: Vec<Part> = Vec::new();
    let mut i: usize = 0;
    while i < starts.len()
        invariant
            i <= starts@.len() == groups.len(),
            parts@.len() == i,
            all == timed(segments@),
            groups == paragraphs(all, threshold(gaps)),
            forward(groups, rate as int, samples as int),
            forall|k: int|
                0 <= k < starts@.len() ==> {
                    let end = if k + 1 < starts@.len() {
                        starts@[k + 1] as int
                    } else {
                        segments@.len() as int
                    };
                    (#[trigger] starts@[k]) < end <= segments@.len() && groups[k] == all.subrange(
                        starts@[k] as int,
                        end,
                    )
                },
            forall|k: int|
                0 <= k < parts@.len() ==> is_part(
                    #[trigger] parts@[k],
                    groups[k],
                    opt_timed(words),
                    rate as int,
                    samples as int,
                ) && parts@[k].from <= parts@[k].to <= samples,
        decreases starts.len() - i,
    {
        let from: usize = starts[i];
        let to: usize = if i + 1 < starts.len() {
            starts[i + 1]
        } else {
            segments.len()
        };
        let ghost g = groups[i as int];
        assert(starts@[i as int] == from);
        assert(g[0] == all[from as int] && g.last() == all[to - 1]);
        let start: u64 = segments[from].start;
        let end: u64 = segments[to - 1].end;
        let part = Part {
            from: find_sample(start, rate, samples),
            to: find_sample(end, rate, samples),
            words: match words {
                Some(w) => Some(take_words(w, start, end)),
                None => None,
            },
            segments: shift_segments(segments, from, to),
        };
        assert(is_part(part, g, opt_timed(words), rate as int, samples as int));
        parts.push(part);
        i = i + 1;
    }
    Some(parts)
}

// ---------------------------------------------------------------- the request

/// The texts of a batch, each on one line.
pub open spec fn lines_of(texts: Seq<Seq<char>>) -> Seq<Seq<char>> {
    texts.map_values(|t: Seq<char>| collapsed(t))
}

/// Lines one below the other.
pub open spec fn stacked(lines: Seq<Seq<char>>) -> Seq<char>
    decreases lines.len(),
{
    if lines.len() == 0 {
        Seq::empty()
    } else if lines.len() == 1 {
        lines[0]
    } else {
        stacked(lines.drop_last()) + "\n"@ + lines.last()
    }
}

/// The detail for a wrong number of texts.
pub open spec fn wrong_count(n: nat) -> Seq<char> {
    "between 1 and "@ + decimal_text(MAX_TEXTS as nat) + " texts, got "@ + decimal_text(n)
}

/// What is wrong with the first text, from number `i` on, that cannot be spoken.
pub open spec fn fault_in(lines: Seq<Seq<char>>, i: int, max_chars: nat) -> Option<
    (u16, Seq<char>),
>
    decreases lines.len() - i,
{
    if i < 0 || i >= lines.len() {
        None
    } else if text_fault(lines[i], max_chars) is Some {
        text_fault(lines[i], max_chars)
    } else {
        fault_in(lines, i + 1, max_chars)
    }
}

/// What is wrong with a text of a batch.
pub open spec fn text_fault(text: Seq<char>, max_chars: nat) -> Option<(u16, Seq<char>)> {
    if crate::space::only_space(text) {
        Some((400u16, "text is empty"@))
    } else if text.len() > max_chars {
        Some((413u16, crate::api::too_long(text.len(), max_chars)))
    } else {
        None
    }
}

/// What is wrong with a batch, if anything.
pub open spec fn batch_fault(req: BatchRequest, max_chars: nat) -> Option<(u16, Seq<char>)> {
    if req.texts@.len() == 0 || req.texts@.len() > MAX_TEXTS {
        Some((400u16, wrong_count(req.texts@.len())))
    } else {
        fault_in(lines_of(strings(req.texts@)), 0, max_chars)
    }
}

/// The one request that speaks a whole batch: every text on a line of its own, because the
/// segmenter begins a paragraph on every line. Each text is held to the limits of a single
/// request.
pub fn plan_batch(max_chars: usize, req: &BatchRequest) -> (r: Result<TtsRequest, ApiError>)
    ensures
        match r {
            Ok(q) => batch_fault(*req, max_chars as nat) is None && is_simple(
                q,
                stacked(lines_of(strings(req.texts@))),
                opt_chars(req.voice),
                req.seed,
            ),
            Err(e) => batch_fault(*req, max_chars as nat) == Some((e.status, e.detail@)),
        },
{
    let n: usize = req.texts.len();
    if n == 0 || n > MAX_TEXTS {
        let mut detail = cat("between 1 and ", number_text(MAX_TEXTS).as_str());
        detail.append(" texts, got ");
        detail.append(number_text(n).as_str());
        return Err(ApiError { status: 400, detail });
    }
    let ghost lines = lines_of(strings(req.texts@));
    let mut text = String::new();
    let mut i: usize = 0;
    while i < n
        invariant
            i <= n == req.texts@.len() == lines.len(),
            lines == lines_of(strings(req.texts@)),
            text@ == stacked(lines.take(i as int)),
            batch_fault(*req, max_chars as nat) == fault_in(lines, i as int, max_chars as nat),
        decreases n - i,
    {
        let line = collapse(req.texts[i].as_str());
        assert(strings(req.texts@)[i as int] == req.texts@[i as int]@);
        assert(lines[i as int] == line@);
        assert(lines.take(i + 1).drop_last() =~= lines.take(i as int));
        if i > 0 {
            text.append("\n");
        }
        text.append(line.as_str());
        assert(text@ =~= stacked(lines.take(i + 1)));
        let single = simple_request(line, copy_opt(&req.voice), req.seed);
        proof {
            zero_shot_is_its_own();
        }
        match validate(max_chars, &single) {
            Ok(_) => {},
            Err(e) => {
                return Err(e);
            },
        }
        i = i + 1;
    }
    assert(lines.take(n as int) =~= lines);
    Ok(simple_request(text, copy_opt(&req.voice), req.seed))
}

proof fn zero_shot_is_its_own()
    ensures
        "zero_shot"@ != "instruct"@,
        "zero_shot"@ != "cross_lingual"@,
{
    reveal_strlit("zero_shot");
    reveal_strlit("instruct");
    reveal_strlit("cross_lingual");
    assert("zero_shot"@.len() != "instruct"@.len());
    assert("zero_shot"@.len() != "cross_lingual"@.len());
}

/// The detail for a run that came back with another number of paragraphs.
pub fn miscounted(texts: usize) -> (r: ApiError)
    ensures
        crate::api::is_error(
            r,
            500,
            decimal_text(texts as nat)
                + " texts came back as a different number of paragraphs; send them singly"@,
        ),
{
    let n = number_text(texts);
    let detail = cat(
        n.as_str(),
        " texts came back as a different number of paragraphs; send them singly",
    );
    ApiError { status: 500, detail }
}

// ---------------------------------------------------------------- laws

/// All lists one after the other.
pub open spec fn flattened(v: Seq<Seq<Timed>>) -> Seq<Timed>
    decreases v.len(),
{
    if v.len() == 0 {
        Seq::empty()
    } else {
        flattened(v.drop_last()) + v.last()
    }
}

/// No segment is lost, doubled or moved by the split into paragraphs.
pub proof fn paragraphs_keep_every_segment(v: Seq<Timed>, limit: int)
    ensures
        flattened(paragraphs(v, limit)) == v,
    decreases v.len(),
{
    if v.len() > 0 {
        let t = v.drop_last();
        paragraphs_keep_every_segment(t, limit);
        paragraphs_are_not_empty(t, limit);
        let before = paragraphs(t, limit);
        let now = paragraphs(v, limit);
        assert(v =~= t.push(v.last()));
        if v.len() == 1 || v.last().start - v[v.len() - 2].end > limit {
            assert(now.drop_last() =~= before);
            assert(flattened(now) =~= v);
        } else {
            assert(t.len() > 0);
            assert(now.drop_last() =~= before.drop_last());
            assert(flattened(now) =~= flattened(before).push(v.last()));
        }
    }
}

/// Segments that follow one another.
pub open spec fn in_order(v: Seq<Timed>) -> bool {
    &&& forall|i: int| 0 <= i < v.len() ==> (#[trigger] v[i]).start <= v[i].end
    &&& forall|i: int, j: int| 0 <= i < j < v.len() ==> (#[trigger] v[i]).end <= (#[trigger] v[j]).start
}

/// Between two paragraphs of segments in order lies more silence than the limit.
pub proof fn paragraphs_lie_apart(v: Seq<Timed>, limit: int, i: int, j: int)
    requires
        in_order(v),
        limit >= 0,
        0 <= i < j < paragraphs(v, limit).len(),
    ensures
        paragraphs(v, limit)[i].last().end + limit < paragraphs(v, limit)[j][0].start,
    decreases v.len(),
{
    let t = v.drop_last();
    let before = paragraphs(t, limit);
    let now = paragraphs(v, limit);
    order_of_head(v);
    paragraphs_are_not_empty(t, limit);
    last_ends(t, limit);
    if v.len() == 1 || v.last().start - v[v.len() - 2].end > limit {
        if j < before.len() {
            paragraphs_lie_apart(t, limit, i, j);
        } else {
            assert(now[j][0] == v.last());
            assert(now[i] == before[i]);
            if i < before.len() - 1 {
                paragraphs_lie_apart(t, limit, i, before.len() - 1);
                begins_before_it_ends(t, limit, before.len() - 1);
            }
            assert(before.last().last() == t.last());
            assert(t.last() == v[v.len() - 2]);
        }
    } else {
        paragraphs_lie_apart(t, limit, i, j);
        assert(now[i] == before[i]);
        assert(now[j][0] == before[j][0]);
    }
}

proof fn order_of_head(v: Seq<Timed>)
    requires
        in_order(v),
        v.len() > 0,
    ensures
        in_order(v.drop_last()),
{
    let t = v.drop_last();
    assert forall|i: int| 0 <= i < t.len() implies (#[trigger] t[i]).start <= t[i].end by {
        assert(t[i] == v[i]);
    }
    assert forall|i: int, j: int| 0 <= i < j < t.len() implies (#[trigger] t[i]).end <= (
    #[trigger] t[j]).start by {
        assert(t[i] == v[i] && t[j] == v[j]);
    }
}

proof fn last_ends(v: Seq<Timed>, limit: int)
    ensures
        v.len() > 0 ==> paragraphs(v, limit).len() > 0 && paragraphs(v, limit).last().last()
            == v.last(),
{
    paragraphs_are_not_empty(v, limit);
}

proof fn begins_before_it_ends(v: Seq<Timed>, limit: int, i: int)
    requires
        in_order(v),
        0 <= i < paragraphs(v, limit).len(),
    ensures
        paragraphs(v, limit)[i][0].start <= paragraphs(v, limit)[i].last().end,
    decreases v.len(),
{
    let t = v.drop_last();
    order_of_head(v);
    paragraphs_are_not_empty(t, limit);
    let before = paragraphs(t, limit);
    let now = paragraphs(v, limit);
    assert(v[v.len() - 1].start <= v[v.len() - 1].end);
    if i < before.len() {
        begins_before_it_ends(t, limit, i);
        if now[i] != before[i] {
            last_ends(t, limit);
            assert(now[i] == before[i].push(v.last()));
            assert(now[i][0] == before[i][0]);
            assert(v[v.len() - 2].end <= v[v.len() - 1].start);
        }
    }
}

/// Segments in order can always be cut: every paragraph ends at or behind the sample where it
/// begins.
pub proof fn segments_in_order_can_be_cut(v: Seq<Timed>, gaps: Gaps, rate: u32, samples: usize)
    requires
        in_order(v),
    ensures
        forward(paragraphs(v, threshold(gaps)), rate as int, samples as int),
{
    let groups = paragraphs(v, threshold(gaps));
    assert forall|i: int| 0 <= i < groups.len() implies sample_at(
        (#[trigger] groups[i])[0].start,
        rate as int,
        samples as int,
    ) <= sample_at(groups[i].last().end, rate as int, samples as int) by {
        begins_before_it_ends(v, threshold(gaps), i);
        let a = groups[i][0].start;
        let b = groups[i].last().end;
        assert(a * rate <= b * rate) by (nonlinear_arith)
            requires
                a <= b,
                rate >= 0,
        ;
    }
}

/// No word is given to two parts: where segments are in order and the gaps are not both zero,
/// a moment lies within at most one paragraph.
pub proof fn no_word_in_two_parts(v: Seq<Timed>, gaps: Gaps, i: int, j: int, t: int)
    requires
        in_order(v),
        gaps.segment_ms + gaps.paragraph_ms > 0,
        0 <= i < j < paragraphs(v, threshold(gaps)).len(),
    ensures
        ({
            let g = paragraphs(v, threshold(gaps));
            !(g[i][0].start - 1 <= t < g[i].last().end && g[j][0].start - 1 <= t
                < g[j].last().end)
        }),
{
    paragraphs_lie_apart(v, threshold(gaps), i, j);
}

/// The silence between paragraphs begins one, and the silence between segments does not, as
/// long as it is the shorter.
pub proof fn gaps_are_told_apart(gaps: Gaps)
    requires
        gaps.segment_ms < gaps.paragraph_ms,
    ensures
        gaps.segment_ms * 1000 <= threshold(gaps) < gaps.paragraph_ms * 1000,
{
}

/// A line holds no line break.
proof fn lines_have_no_breaks(s: Seq<char>)
    ensures
        !collapsed(s).contains('\n'),
{
    let v = collapsed(s);
    if v.contains('\n') {
        let i = choose|i: int| 0 <= i < v.len() && v[i] == '\n';
        assert(white_space('\n'));
        one_line_is_one_line(s, i);
    }
}

/// Every text of a batch is one line of what is spoken: splitting on line breaks gives the
/// texts back.
pub proof fn every_text_is_one_line(texts: Seq<Seq<char>>)
    requires
        texts.len() > 0,
    ensures
        split_on(stacked(lines_of(texts)), '\n') == lines_of(texts),
{
    let lines = lines_of(texts);
    assert forall|i: int| 0 <= i < lines.len() implies !(#[trigger] lines[i]).contains('\n') by {
        lines_have_no_breaks(texts[i]);
    }
    stacked_lines_split(lines);
}

proof fn stacked_lines_split(lines: Seq<Seq<char>>)
    requires
        lines.len() > 0,
        forall|i: int| 0 <= i < lines.len() ==> !(#[trigger] lines[i]).contains('\n'),
    ensures
        split_on(stacked(lines), '\n') == lines,
    decreases lines.len(),
{
    if lines.len() == 1 {
        no_break_no_split(lines[0]);
        assert(seq![lines[0]] =~= lines);
    } else {
        let head = lines.drop_last();
        assert forall|i: int| 0 <= i < head.len() implies !(#[trigger] head[i]).contains('\n') by {
            assert(head[i] == lines[i]);
        }
        stacked_lines_split(head);
        reveal_strlit("\n");
        assert("\n"@ =~= seq!['\n']);
        assert(!lines[lines.len() - 1].contains('\n'));
        split_behind(stacked(head), lines.last());
        assert(split_on(stacked(head), '\n').push(lines.last()) =~= lines);
    }
}

proof fn no_break_no_split(s: Seq<char>)
    requires
        !s.contains('\n'),
    ensures
        split_on(s, '\n') == seq![s],
{
    first_index_bounds(s, '\n');
    if first_index(s, '\n') < s.len() {
        assert(s[first_index(s, '\n')] == '\n');
    }
}

proof fn split_behind(a: Seq<char>, b: Seq<char>)
    requires
        !b.contains('\n'),
    ensures
        split_on(a + seq!['\n'] + b, '\n') == split_on(a, '\n').push(b),
    decreases a.len(),
{
    let s = a + seq!['\n'] + b;
    let n = first_index(a, '\n');
    first_index_bounds(a, '\n');
    first_index_bounds(s, '\n');
    let m = first_index(s, '\n');
    assert(s[a.len() as int] == '\n');
    assert(m <= a.len());
    if n < a.len() {
        assert(s[n] == '\n');
        assert(m == n) by {
            if m < n {
                assert(s[m] == a[m]);
            }
        }
        split_behind(a.skip(n + 1), b);
        assert(s.take(n) =~= a.take(n));
        assert(s.skip(n + 1) =~= a.skip(n + 1) + seq!['\n'] + b);
        assert(split_on(s, '\n') =~= split_on(a, '\n').push(b));
    } else {
        assert(m == n) by {
            if m < n {
                assert(s[m] == a[m]);
            }
        }
        no_break_no_split(b);
        assert(s.take(n) =~= a);
        assert(s.skip(n + 1) =~= b);
        assert(split_on(s, '\n') =~= split_on(a, '\n').push(b));
    }
}

} // verus!
