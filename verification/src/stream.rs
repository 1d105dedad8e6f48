//! Speech sent while the rest is still being made: one segment at a time, with the silences
//! that a joined recording has between them.
//!
//! Without the silences, streamed speech would run its sentences together where a joined
//! recording does not: the same text in two renders, depending on which route was called.

use crate::api::{bad, is_error, ApiError};
use crate::batch::Gaps;
use vstd::prelude::*;
use vstd::string::*;

verus! {

/// A segment to be spoken, and the silence before it.
pub struct StreamPart {
    pub gap_ms: u32,
    pub text: String,
}

/// The meaning of a segment and its silence.
#[verifier::ext_equal]
pub struct StreamView {
    pub gap_ms: u32,
    pub text: Seq<char>,
}

/// The meaning of a list of segments.
pub open spec fn stream_view(v: Seq<StreamPart>) -> Seq<StreamView> {
    v.map_values(|p: StreamPart| StreamView { gap_ms: p.gap_ms, text: p.text@ })
}

/// The silence before sentence `j` of a paragraph, behind the parts of `before`: none before
/// the very first, that of a paragraph before the first of another, that of a segment else.
pub open spec fn gap_before(before: Seq<StreamView>, j: int, gaps: Gaps) -> u32 {
    if before.len() == 0 {
        0
    } else if j == 0 {
        gaps.paragraph_ms
    } else {
        gaps.segment_ms
    }
}

/// The parts after the first `j` sentences of a paragraph.
pub open spec fn with_sentences(
    before: Seq<StreamView>,
    sentences: Seq<String>,
    j: int,
    gaps: Gaps,
) -> Seq<StreamView>
    decreases j,
{
    if j <= 0 {
        before
    } else {
        let v = with_sentences(before, sentences, j - 1, gaps);
        v.push(StreamView { gap_ms: gap_before(v, j - 1, gaps), text: sentences[j - 1]@ })
    }
}

/// The parts of the first `n` paragraphs.
pub open spec fn stream_parts(paragraphs: Seq<Vec<String>>, n: int, gaps: Gaps) -> Seq<StreamView>
    decreases n,
{
    if n <= 0 {
        Seq::empty()
    } else {
        let s = paragraphs[n - 1]@;
        with_sentences(stream_parts(paragraphs, n - 1, gaps), s, s.len() as int, gaps)
    }
}

/// The segments of a text in the order in which they are sent, each with the silence before
/// it. A text without segments is refused.
pub fn plan_stream(paragraphs: &Vec<Vec<String>>, gaps: Gaps) -> (r: Result<
    Vec<StreamPart>,
    ApiError,
>)
    ensures
        ({
            let all = stream_parts(paragraphs@, paragraphs@.len() as int, gaps);
            match r {
                Ok(v) => all.len() > 0 && stream_view(v@) == all,
                Err(e) => all.len() == 0 && is_error(e, 400, "no text to speak"@),
            }
        }),
{
    let mut out: Vec<StreamPart> = Vec::new();
    let mut i: usize = 0;
    assert(stream_view(out@) =~= Seq::<StreamView>::empty());
    while i < paragraphs.len()
        invariant
            i <= paragraphs@.len(),
            stream_view(out@) == stream_parts(paragraphs@, i as int, gaps),
        decreases paragraphs.len() - i,
    {
        let sentences = &paragraphs[i];
        let ghost before = stream_view(out@);
        let mut j: usize = 0;
        while j < sentences.len()
            invariant
                j <= sentences@.len(),
                stream_view(out@) == with_sentences(before, sentences@, j as int, gaps),
            decreases sentences.len() - j,
        {
            let ghost v = stream_view(out@);
            let gap_ms: u32 = if out.len() == 0 {
                0
            } else if j == 0 {
                gaps.paragraph_ms
            } else {
                gaps.segment_ms
            };
            let part = StreamPart { gap_ms, text: sentences[j].clone() };
            let ghost p = StreamView { gap_ms: part.gap_ms, text: part.text@ };
            out.push(part);
            assert(stream_view(out@) =~= v.push(p));
            j = j + 1;
        }
        i = i + 1;
    }
    if out.len() == 0 {
        assert(stream_view(out@).len() == 0);
        return Err(bad(400, "no text to speak"));
    }
    assert(stream_view(out@).len() == out@.len());
    Ok(out)
}

/// All sentences of the first `n` paragraphs.
pub open spec fn sentences_of(paragraphs: Seq<Vec<String>>, n: int) -> Seq<Seq<char>>
    decreases n,
{
    if n <= 0 {
        Seq::empty()
    } else {
        sentences_of(paragraphs, n - 1) + paragraphs[n - 1]@.map_values(|s: String| s@)
    }
}

/// The texts of a list of parts.
pub open spec fn part_texts(v: Seq<StreamView>) -> Seq<Seq<char>> {
    v.map_values(|p: StreamView| p.text)
}

proof fn sentences_are_added(before: Seq<StreamView>, sentences: Seq<String>, j: int, gaps: Gaps)
    requires
        0 <= j <= sentences.len(),
    ensures
        part_texts(with_sentences(before, sentences, j, gaps)) == part_texts(before)
            + sentences.map_values(|s: String| s@).take(j),
    decreases j,
{
    let all = sentences.map_values(|s: String| s@);
    if j > 0 {
        sentences_are_added(before, sentences, j - 1, gaps);
        assert(part_texts(with_sentences(before, sentences, j, gaps)) =~= part_texts(
            with_sentences(before, sentences, j - 1, gaps),
        ).push(all[j - 1]));
        assert(all.take(j - 1).push(all[j - 1]) =~= all.take(j));
        assert(part_texts(with_sentences(before, sentences, j, gaps)) =~= part_texts(before)
            + all.take(j));
    } else {
        assert(part_texts(before) + all.take(0) =~= part_texts(before));
    }
}

/// Every sentence is sent, once and in order.
pub proof fn every_sentence_is_sent(paragraphs: Seq<Vec<String>>, n: int, gaps: Gaps)
    requires
        0 <= n <= paragraphs.len(),
    ensures
        part_texts(stream_parts(paragraphs, n, gaps)) == sentences_of(paragraphs, n),
    decreases n,
{
    if n > 0 {
        every_sentence_is_sent(paragraphs, n - 1, gaps);
        let s = paragraphs[n - 1]@;
        sentences_are_added(stream_parts(paragraphs, n - 1, gaps), s, s.len() as int, gaps);
        let all = s.map_values(|s: String| s@);
        assert(all.take(all.len() as int) =~= all);
    } else {
        assert(part_texts(Seq::<StreamView>::empty()) =~= Seq::<Seq<char>>::empty());
    }
}

} // verus!
