//! What holds of every phoneme string and its words.

use crate::g2p::{
    byte_len, final_sound, noted, phoneme_string, spans_of_words, SpanView,
};
use crate::lexicon::{LexiconView, TokenContext};
use crate::mtoken::MTokenView;
use crate::retokenize::WordView;
use crate::tokenize_laws::joined;
use vstd::prelude::*;
use vstd::utf8::*;

verus! {

/// The bytes of two texts in a row are the bytes of both.
pub proof fn encode_concat(a: Seq<char>, b: Seq<char>)
    ensures
        encode_utf8(a + b) == encode_utf8(a) + encode_utf8(b),
    decreases a.len(),
{
    if a.len() == 0 {
        assert(a + b =~= b);
        assert(encode_utf8(a) + encode_utf8(b) =~= encode_utf8(b));
    } else {
        encode_concat(a.drop_first(), b);
        assert((a + b).drop_first() =~= a.drop_first() + b);
        assert((a + b)[0] == a[0]);
        assert(encode_utf8(a + b) =~= encode_utf8(a) + encode_utf8(b));
    }
}

/// The texts of tokens.
pub open spec fn token_texts(v: Seq<MTokenView>) -> Seq<Seq<char>> {
    v.map_values(|t: MTokenView| t.text)
}

/// The texts of spans.
pub open spec fn span_texts(v: Seq<SpanView>) -> Seq<Seq<char>> {
    v.map_values(|s: SpanView| s.text)
}

/// The spans follow one another: each ends where it begins or behind it, none begins before
/// the one ahead of it ends, and none ends behind the phoneme string.
pub proof fn spans_follow_one_another(v: Seq<MTokenView>)
    ensures
        ({
            let s = spans_of_words(v);
            &&& forall|i: int|
                0 <= i < s.len() ==> (#[trigger] s[i]).start <= s[i].end <= byte_len(
                    phoneme_string(v),
                )
            &&& forall|i: int, j: int|
                0 <= i < j < s.len() ==> (#[trigger] s[i]).end <= (#[trigger] s[j]).start
        }),
    decreases v.len(),
{
    if v.len() > 0 {
        let t = v.drop_last();
        spans_follow_one_another(t);
        let out = phoneme_string(t);
        let sound = final_sound(v.last());
        encode_concat(out, sound);
        encode_concat(out + sound, v.last().whitespace);
        let before = spans_of_words(t);
        let s = spans_of_words(v);
        assert forall|i: int| 0 <= i < s.len() implies (#[trigger] s[i]).start <= s[i].end
            <= byte_len(phoneme_string(v)) by {
            if i < before.len() {
                assert(s[i].start == before[i].start && s[i].end == before[i].end);
            }
        }
        assert forall|i: int, j: int| 0 <= i < j < s.len() implies (#[trigger] s[i]).end <= (
        #[trigger] s[j]).start by {
            assert(s[i].end == before[i].end);
            if j < before.len() {
                assert(s[j].start == before[j].start);
            }
        }
    }
}

/// The bytes of a span are the sound of one token.
pub proof fn spans_hold_sounds(v: Seq<MTokenView>, i: int)
    requires
        0 <= i < spans_of_words(v).len(),
    ensures
        ({
            let s = spans_of_words(v)[i];
            exists|m: int|
                0 <= m < v.len() && encode_utf8(phoneme_string(v)).subrange(
                    s.start as int,
                    s.end as int,
                ) == encode_utf8(final_sound(#[trigger] v[m]))
        }),
    decreases v.len(),
{
    let t = v.drop_last();
    let out = phoneme_string(t);
    let sound = final_sound(v.last());
    encode_concat(out, sound);
    encode_concat(out + sound, v.last().whitespace);
    let s = spans_of_words(v)[i];
    let before = spans_of_words(t);
    let bytes = encode_utf8(phoneme_string(v));
    if i < before.len() {
        spans_hold_sounds(t, i);
        spans_follow_one_another(t);
        let m = choose|m: int|
            0 <= m < t.len() && encode_utf8(out).subrange(
                before[i].start as int,
                before[i].end as int,
            ) == encode_utf8(final_sound(#[trigger] t[m]));
        assert(s.start == before[i].start && s.end == before[i].end);
        assert(bytes.subrange(s.start as int, s.end as int) =~= encode_utf8(out).subrange(
            s.start as int,
            s.end as int,
        ));
        assert(v[m] == t[m]);
    } else {
        assert(bytes.subrange(s.start as int, s.end as int) =~= encode_utf8(sound));
        assert(v[v.len() - 1] == v.last());
    }
}

/// The spans lose no text: their texts are those of the tokens.
pub proof fn spans_keep_the_text(v: Seq<MTokenView>)
    ensures
        joined(span_texts(spans_of_words(v))) == joined(token_texts(v)),
    decreases v.len(),
{
    if v.len() > 0 {
        let t = v.drop_last();
        spans_keep_the_text(t);
        let before = spans_of_words(t);
        let s = spans_of_words(v);
        let x = span_texts(s);
        let y = span_texts(before);
        assert(token_texts(v).drop_last() =~= token_texts(t));
        if final_sound(v.last()).len() == 0 && before.len() > 0 {
            assert(x.drop_last() =~= y.drop_last());
            assert(x.last() == y.last() + v.last().text);
            assert(joined(x) =~= joined(y) + v.last().text);
        } else {
            assert(x.drop_last() =~= y);
        }
    }
}

/// No word is listed twice.
pub open spec fn listed_once(v: Seq<Seq<char>>) -> bool {
    forall|i: int, j: int| 0 <= i < j < v.len() ==> #[trigger] v[i] != #[trigger] v[j]
}

proof fn noted_once(unknown: Seq<Seq<char>>, text: Seq<char>)
    requires
        listed_once(unknown),
    ensures
        listed_once(noted(unknown, text)),
{
    let v = noted(unknown, text);
    assert forall|i: int, j: int| 0 <= i < j < v.len() implies #[trigger] v[i] != #[trigger] v[j] by {
        if j == unknown.len() && v[i] == v[j] {
            assert(unknown.contains(unknown[i]));
        }
    }
}

impl LexiconView {
    proof fn parts_note_once(
        self,
        group: Seq<MTokenView>,
        left: int,
        right: int,
        derive_unknown: bool,
        ctx: TokenContext,
        unknown: Seq<Seq<char>>,
    )
        requires
            listed_once(unknown),
        ensures
            listed_once(
                self.resolved_parts(group, left, right, derive_unknown, ctx, unknown).2,
            ),
        decreases right, right - left,
    {
        if 0 <= left < right <= group.len() {
            let candidate = crate::mtoken::merged(group.subrange(left, right), None);
            let hit = if crate::g2p::blocked(group, left, right) {
                None
            } else {
                self.token_hit(candidate, ctx)
            };
            if hit is Some {
                self.parts_note_once(
                    crate::g2p::sounded_range(group, left, right, hit.unwrap()),
                    0,
                    left,
                    derive_unknown,
                    crate::g2p::next_context(
                        ctx,
                        Some(hit.unwrap().0),
                        candidate.text,
                        candidate.tag,
                    ),
                    unknown,
                );
            } else if left + 1 < right {
                self.parts_note_once(group, left + 1, right, derive_unknown, ctx, unknown);
            } else {
                let t = group[right - 1];
                let (guess, noticed) = self.derivation(t.text, derive_unknown, unknown);
                noted_once(unknown, t.text);
                let (t2, unknown2) = if t.phonemes is Some {
                    (t, unknown)
                } else if crate::resolve::junk_text(t.text) {
                    (crate::g2p::sounded(t, Some((Seq::empty(), 3u8))), unknown)
                } else {
                    (crate::g2p::sounded(t, guess), noticed)
                };
                self.parts_note_once(
                    group.update(right - 1, t2),
                    0,
                    right - 1,
                    derive_unknown,
                    ctx,
                    unknown2,
                );
            }
        }
    }

    /// The report names no unknown word twice.
    pub proof fn unknown_words_are_named_once(
        self,
        words: Seq<WordView>,
        derive_unknown: bool,
        ctx: TokenContext,
        unknown: Seq<Seq<char>>,
    )
        requires
            listed_once(unknown),
        ensures
            listed_once(self.resolved_words(words, derive_unknown, ctx, unknown).1),
        decreases words.len(),
    {
        if words.len() > 0 {
            let (w, c, u) = self.resolved_word(words.last(), derive_unknown, ctx, unknown);
            match words.last() {
                WordView::One(t) => {
                    noted_once(unknown, t.text);
                },
                WordView::Many(g) => {
                    self.parts_note_once(g, 0, g.len() as int, derive_unknown, ctx, unknown);
                },
            }
            self.unknown_words_are_named_once(words.drop_last(), derive_unknown, c, u);
        }
    }
}

/// A token without a sound joins the word before it: there is one span for each token with a sound,
/// and none but perhaps the first is empty.
pub proof fn silent_tokens_join_the_word_before(v: Seq<MTokenView>, i: int)
    requires
        1 <= i < spans_of_words(v).len(),
    ensures
        spans_of_words(v)[i].start < spans_of_words(v)[i].end,
    decreases v.len(),
{
    let t = v.drop_last();
    let before = spans_of_words(t);
    let out = phoneme_string(t);
    let sound = final_sound(v.last());
    if i < before.len() {
        silent_tokens_join_the_word_before(t, i);
    } else {
        encode_concat(out, sound);
        assert(sound.len() > 0);
        sounds_have_bytes(sound);
    }
}

proof fn sounds_have_bytes(s: Seq<char>)
    requires
        s.len() > 0,
    ensures
        encode_utf8(s).len() > 0,
{
    let rest = s.drop_first();
    assert(s =~= seq![s[0]] + rest);
    encode_concat(seq![s[0]], rest);
    assert(encode_utf8(s) == encode_scalar(s[0] as u32) + encode_utf8(rest));
}

/// A silent token behind a word adds its text to the word's span and nothing else; a sounding token
/// begins a span of its own where the phoneme string stood.
pub proof fn spans_go_by_tokens(v: Seq<MTokenView>, t: MTokenView)
    requires
        spans_of_words(v).len() > 0,
    ensures
        ({
            let before = spans_of_words(v);
            let after = spans_of_words(v.push(t));
            let silent = t.phonemes == Some(Seq::<char>::empty());
            &&& silent ==> after.len() == before.len() && after.last().text == before.last().text
                + t.text && after.last().start == before.last().start && after.last().end
                == before.last().end
            &&& t.phonemes is None || (t.phonemes is Some && t.phonemes.unwrap().len() > 0)
                ==> after.len() == before.len() + 1 && after.drop_last() == before
                && after.last().text == t.text && after.last().start == byte_len(
                phoneme_string(v),
            )
        }),
{
    let w = v.push(t);
    assert(w.drop_last() =~= v);
    assert(w.last() == t);
    reveal_strlit("❓");
    let after = spans_of_words(w);
    if t.phonemes is None || t.phonemes.unwrap().len() > 0 {
        assert(after.drop_last() =~= spans_of_words(v));
    }
}

} // verus!
