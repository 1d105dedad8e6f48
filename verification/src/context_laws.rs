//! What a word takes from the word behind it, and what the voice is given in the end.

use crate::digits::ascii_stays;
use crate::g2p::{
    blocked, final_sound, first_telling, flat_word, next_context, noted, phoneme_string, reading_of,
    sounded, voice_letters,
};
use crate::lexicon::{LexiconView, TokenContext};
use crate::mtoken::{merged, MTokenView};
use crate::retokenize::WordView;
use crate::stress::{vowel, CONSONANTS};
use vstd::prelude::*;
use vstd::string::*;
use vstd::utf8::is_ascii_chars;

verus! {

/// One of the twenty vowels of the phoneme alphabet.
pub open spec fn sung(c: char) -> bool {
    c == 'A' || c == 'I' || c == 'O' || c == 'Q' || c == 'W' || c == 'Y' || c == 'a' || c == 'i' || c
        == 'u' || c == 'æ' || c == 'ɑ' || c == 'ɒ' || c == 'ɔ' || c == 'ə' || c == 'ɛ' || c == 'ɜ'
        || c == 'ɪ' || c == 'ʊ' || c == 'ʌ' || c == 'ᵻ'
}

/// One of the consonants of the phoneme alphabet.
pub open spec fn shaped(c: char) -> bool {
    c == 'b' || c == 'd' || c == 'f' || c == 'h' || c == 'j' || c == 'k' || c == 'l' || c == 'm' || c
        == 'n' || c == 'p' || c == 's' || c == 't' || c == 'v' || c == 'w' || c == 'z' || c == 'ð' || c
        == 'ŋ' || c == 'ɡ' || c == 'ɹ' || c == 'ɾ' || c == 'ʃ' || c == 'ʒ' || c == 'ʤ' || c == 'ʧ' || c
        == 'θ'
}

/// One of the signs that end or divide a clause.
pub open spec fn divides(c: char) -> bool {
    c == ';' || c == ':' || c == ',' || c == '.' || c == '!' || c == '?' || c == '—' || c == '…'
}

/// The alphabet: which characters are vowels, which consonants and which divide clauses.
pub proof fn the_alphabet(c: char)
    ensures
        vowel(c) <==> sung(c),
        CONSONANTS@.contains(c) <==> shaped(c),
        crate::g2p::plain_punct(c) <==> divides(c),
        !(sung(c) && shaped(c)),
        !(divides(c) && (sung(c) || shaped(c))),
{
    reveal_strlit("AIOQWYaiuæɑɒɔəɛɜɪʊʌᵻ");
    let v = "AIOQWYaiuæɑɒɔəɛɜɪʊʌᵻ"@;
    assert(v.len() == 20);
    assert(v[0] == 'A' && v[1] == 'I' && v[2] == 'O' && v[3] == 'Q' && v[4] == 'W' && v[5] == 'Y'
        && v[6] == 'a' && v[7] == 'i' && v[8] == 'u' && v[9] == 'æ' && v[10] == 'ɑ' && v[11] == 'ɒ'
        && v[12] == 'ɔ' && v[13] == 'ə' && v[14] == 'ɛ' && v[15] == 'ɜ' && v[16] == 'ɪ' && v[17]
        == 'ʊ' && v[18] == 'ʌ' && v[19] == 'ᵻ');
    reveal_strlit("bdfhjklmnpstvwzðŋɡɹɾʃʒʤʧθ");
    let k = "bdfhjklmnpstvwzðŋɡɹɾʃʒʤʧθ"@;
    assert(k.len() == 25);
    assert(k[0] == 'b' && k[1] == 'd' && k[2] == 'f' && k[3] == 'h' && k[4] == 'j' && k[5] == 'k'
        && k[6] == 'l' && k[7] == 'm' && k[8] == 'n' && k[9] == 'p' && k[10] == 's' && k[11] == 't'
        && k[12] == 'v' && k[13] == 'w' && k[14] == 'z' && k[15] == 'ð' && k[16] == 'ŋ' && k[17]
        == 'ɡ' && k[18] == 'ɹ' && k[19] == 'ɾ' && k[20] == 'ʃ' && k[21] == 'ʒ' && k[22] == 'ʤ'
        && k[23] == 'ʧ' && k[24] == 'θ');
    reveal_strlit(";:,.!?—…\"“”");
    reveal_strlit("\"“”");
    let p = ";:,.!?—…\"“”"@;
    assert(p[0] == ';' && p[1] == ':' && p[2] == ',' && p[3] == '.' && p[4] == '!' && p[5] == '?'
        && p[6] == '—' && p[7] == '…' && p[8] == '"' && p[9] == '“' && p[10] == '”');
    assert(p.len() == 11);
    let q = "\"“”"@;
    assert(q[0] == '"' && q[1] == '“' && q[2] == '”');
    assert(q.len() == 3);
}

proof fn first_telling_at(p: Seq<char>, k: int)
    requires
        0 <= k < p.len(),
        forall|i: int|
            0 <= i < k ==> !sung(#[trigger] p[i]) && !shaped(p[i]) && !divides(p[i]),
        sung(p[k]) || shaped(p[k]) || divides(p[k]),
    ensures
        first_telling(p) == Some(p[k]),
    decreases k,
{
    the_alphabet(p[0]);
    if k > 0 {
        assert(!sung(p[0]) && !shaped(p[0]) && !divides(p[0]));
        let rest = p.skip(1);
        assert forall|i: int| 0 <= i < k - 1 implies !sung(#[trigger] rest[i]) && !shaped(rest[i])
            && !divides(rest[i]) by {
            assert(rest[i] == p[i + 1]);
        }
        assert(rest[k - 1] == p[k]);
        first_telling_at(rest, k - 1);
    }
}

proof fn nothing_telling(p: Seq<char>)
    requires
        forall|i: int|
            0 <= i < p.len() ==> !sung(#[trigger] p[i]) && !shaped(p[i]) && !divides(p[i]),
    ensures
        first_telling(p) is None,
    decreases p.len(),
{
    if p.len() > 0 {
        the_alphabet(p[0]);
        assert(!sung(p[0]));
        let rest = p.skip(1);
        assert forall|i: int| 0 <= i < rest.len() implies !sung(#[trigger] rest[i]) && !shaped(
            rest[i],
        ) && !divides(rest[i]) by {
            assert(rest[i] == p[i + 1]);
        }
        nothing_telling(rest);
    }
}

/// The word to the left learns the first sound of a word that tells: a vowel or a consonant, or the
/// end of a clause. Stress marks, quotation marks and spaces before it do not count.
pub proof fn the_first_sound_is_told(
    ctx: TokenContext,
    p: Seq<char>,
    k: int,
    text: Seq<char>,
    tag: Seq<char>,
)
    requires
        0 <= k < p.len(),
        forall|i: int|
            0 <= i < k ==> !sung(#[trigger] p[i]) && !shaped(p[i]) && !divides(p[i]),
    ensures
        sung(p[k]) ==> next_context(ctx, Some(p), text, tag).future_vowel == Some(true),
        shaped(p[k]) ==> next_context(ctx, Some(p), text, tag).future_vowel == Some(false),
        divides(p[k]) ==> next_context(ctx, Some(p), text, tag).future_vowel is None,
{
    the_alphabet(p[k]);
    if sung(p[k]) || shaped(p[k]) || divides(p[k]) {
        first_telling_at(p, k);
    }
}

/// A word without a sound, or with none that tells, hands on what it was told itself.
pub proof fn silence_hands_on(
    ctx: TokenContext,
    p: Option<Seq<char>>,
    text: Seq<char>,
    tag: Seq<char>,
)
    requires
        p is Some ==> forall|i: int|
            0 <= i < p.unwrap().len() ==> !sung(#[trigger] p.unwrap()[i]) && !shaped(p.unwrap()[i])
                && !divides(p.unwrap()[i]),
    ensures
        next_context(ctx, p, text, tag).future_vowel == ctx.future_vowel,
{
    if p is Some {
        nothing_telling(p.unwrap());
    }
}

/// The word to the left learns of "to" in small letters and capitalised; in capitals only of the
/// particle and the preposition.
pub proof fn a_to_is_told(
    ctx: TokenContext,
    p: Option<Seq<char>>,
    text: Seq<char>,
    tag: Seq<char>,
)
    ensures
        text == "to"@ || text == "To"@ ==> next_context(ctx, p, text, tag).future_to,
        text == "TO"@ ==> next_context(ctx, p, text, tag).future_to == (tag == "TO"@ || tag
            == "IN"@),
        text != "to"@ && text != "To"@ && text != "TO"@ ==> !next_context(
            ctx,
            p,
            text,
            tag,
        ).future_to,
{
    reveal_strlit("to");
    reveal_strlit("To");
    reveal_strlit("TO");
    assert("to"@[0] == 't' && "To"@[0] == 'T' && "TO"@[1] == 'O' && "To"@[1] == 'o' && "TO"@[0]
        == 'T');
}

/// A text of plain ASCII is looked up as it stands.
pub proof fn ascii_is_read_as_it_stands(s: Seq<char>)
    requires
        is_ascii_chars(s),
    ensures
        reading_of(s) == s,
{
    assert forall|i: int| 0 <= i < s.len() implies (#[trigger] s[i] as u32) < 128 by {}
    assert(crate::g2p::straightened(s) =~= s);
    assert forall|i: int| 0 <= i < s.len() implies #[trigger] crate::digits::ascii_digit(s[i])
        == s[i] by {
        ascii_stays(s[i]);
    }
    assert(crate::g2p::ascii_digits(s) =~= s);
}

/// A curly apostrophe is read as a straight one, wherever it stands.
pub proof fn apostrophes_are_straight(a: Seq<char>, b: Seq<char>)
    ensures
        reading_of(a + seq!['’'] + b) == reading_of(a + seq!['\''] + b),
        reading_of(a + seq!['‘'] + b) == reading_of(a + seq!['\''] + b),
{
    assert(crate::g2p::straightened(a + seq!['’'] + b) =~= crate::g2p::straightened(
        a + seq!['\''] + b,
    ));
    assert(crate::g2p::straightened(a + seq!['‘'] + b) =~= crate::g2p::straightened(
        a + seq!['\''] + b,
    ));
}

/// The voice is given every sound as it is, but a flap as "T" and a glottal stop as "t".
pub proof fn the_voice_knows_no_flap(ps: Seq<char>, i: int)
    requires
        0 <= i < ps.len(),
    ensures
        voice_letters(ps).len() == ps.len(),
        ps[i] == 'ɾ' ==> voice_letters(ps)[i] == 'T',
        ps[i] == 'ʔ' ==> voice_letters(ps)[i] == 't',
        ps[i] != 'ɾ' && ps[i] != 'ʔ' ==> voice_letters(ps)[i] == ps[i],
{
}

/// The phoneme string of two lists of tokens is that of the first and then that of the second; one
/// token gives its sound and the white space behind it, or the unknown mark for want of a sound.
pub proof fn the_string_is_put_together(a: Seq<MTokenView>, b: Seq<MTokenView>, t: MTokenView)
    ensures
        phoneme_string(a + b) == phoneme_string(a) + phoneme_string(b),
        t.phonemes is None ==> phoneme_string(seq![t]) == "❓"@ + t.whitespace,
        t.phonemes is Some ==> phoneme_string(seq![t]) == voice_letters(t.phonemes.unwrap())
            + t.whitespace,
    decreases b.len(),
{
    let one = seq![t];
    assert(one.drop_last() =~= Seq::<MTokenView>::empty());
    assert(phoneme_string(Seq::<MTokenView>::empty()) =~= Seq::<char>::empty());
    assert(phoneme_string(one) =~= final_sound(t) + t.whitespace);
    if b.len() == 0 {
        assert(a + b =~= a);
        assert(phoneme_string(a) + phoneme_string(b) =~= phoneme_string(a));
    } else {
        the_string_is_put_together(a, b.drop_last(), t);
        assert((a + b).drop_last() =~= a + b.drop_last());
        assert((a + b).last() == b.last());
        assert(phoneme_string(a + b) =~= phoneme_string(a) + phoneme_string(b));
    }
}

/// An unknown word is noted behind the others, and only once.
pub proof fn unknown_words_are_noted(unknown: Seq<Seq<char>>, text: Seq<char>)
    ensures
        noted(unknown, text).contains(text),
        unknown.contains(text) ==> noted(unknown, text) == unknown,
        !unknown.contains(text) ==> noted(unknown, text) == unknown + seq![text],
{
    let v = unknown.push(text);
    assert(v[unknown.len() as int] == text);
    assert(v =~= unknown + seq![text]);
}

impl LexiconView {
    /// What the lexicon gives up on is derived where that is asked for, from its small letters; what
    /// cannot be derived, or may not be, is noted as unknown. A text without a letter is neither
    /// derived nor, where words are derived, noted.
    pub proof fn words_without_a_sound(
        self,
        t: MTokenView,
        ctx: TokenContext,
        unknown: Seq<Seq<char>>,
        h: (Seq<char>, u8),
    )
        requires
            t.phonemes is None,
            self.token_hit(t, ctx) is None,
            t.text.len() > 0,
        ensures
            ({
                let loose = self.resolved_one(t, true, ctx, unknown);
                let strict = self.resolved_one(t, false, ctx, unknown);
                let letter = exists|i: int|
                    0 <= i < t.text.len() && crate::unicode::alphabetic(#[trigger] t.text[i]);
                &&& strict.0 == t
                &&& strict.2 == noted(unknown, t.text)
                &&& !letter ==> loose.0 == t && loose.2 == unknown
                &&& letter && self.derived(crate::unicode::lowercase(t.text)) == Some(h)
                    ==> loose.0.phonemes == Some(h.0) && loose.0.rating == Some(h.1) && loose.2
                    == unknown
                &&& letter && self.derived(crate::unicode::lowercase(t.text)) is None ==> loose.0
                    == t && loose.2 == noted(unknown, t.text)
            }),
    {
    }

    /// A word that has a sound already keeps it, and the lexicon is not asked.
    pub proof fn settled_words_keep_their_sound(
        self,
        t: MTokenView,
        derive_unknown: bool,
        ctx: TokenContext,
        unknown: Seq<Seq<char>>,
    )
        requires
            t.phonemes is Some,
        ensures
            self.resolved_one(t, derive_unknown, ctx, unknown).0 == t,
            self.resolved_one(t, derive_unknown, ctx, unknown).2 == unknown,
    {
    }

    /// An alias is read in place of the text.
    pub proof fn aliases_are_read(self, t: MTokenView, a: Seq<char>, ctx: TokenContext)
        requires
            t.alias == Some(a),
        ensures
            self.token_hit(t, ctx) == self.token_hit(
                (MTokenView { text: a, alias: None, ..t }),
                ctx,
            ),
    {
        reveal(LexiconView::hit_for);
    }

    /// The parts of a word that the lexicon has as a whole are read as a whole: the first part has
    /// the sound and the others are silent.
    pub proof fn whole_words_come_first(
        self,
        group: Seq<MTokenView>,
        derive_unknown: bool,
        ctx: TokenContext,
        unknown: Seq<Seq<char>>,
        h: (Seq<char>, u8),
    )
        requires
            group.len() > 0,
            forall|i: int|
                0 <= i < group.len() ==> (#[trigger] group[i]).alias is None && group[i].phonemes
                    is None,
            self.token_hit(merged(group, None), ctx) == Some(h),
        ensures
            ({
                let (r, _, u) = self.resolved_parts(
                    group,
                    0,
                    group.len() as int,
                    derive_unknown,
                    ctx,
                    unknown,
                );
                &&& r.len() == group.len()
                &&& r[0].phonemes == Some(h.0)
                &&& r[0].rating == Some(h.1)
                &&& forall|i: int|
                    1 <= i < r.len() ==> (#[trigger] r[i]).phonemes == Some(Seq::<char>::empty())
                &&& forall|i: int|
                    0 <= i < r.len() ==> (#[trigger] r[i]).text == group[i].text
                &&& forall|i: int|
                    1 <= i < r.len() ==> (#[trigger] r[i]).rating == group[i].rating
                &&& u == unknown
            }),
    {
        let n = group.len() as int;
        assert(group.subrange(0, n) =~= group);
        assert(!blocked(group, 0, n));
        let r = crate::g2p::sounded_range(group, 0, n, h);
        let c = merged(group, None);
        let told = next_context(ctx, Some(h.0), c.text, c.tag);
        assert(self.resolved_parts(r, 0, 0, derive_unknown, told, unknown) == (r, told, unknown));
    }

    proof fn one_more_word(
        self,
        words: Seq<WordView>,
        w: WordView,
        derive_unknown: bool,
        ctx: TokenContext,
        unknown: Seq<Seq<char>>,
    )
        ensures
            self.resolved_words(words.push(w), derive_unknown, ctx, unknown).0
                == self.resolved_words(
                words,
                derive_unknown,
                self.resolved_word(w, derive_unknown, ctx, unknown).1,
                self.resolved_word(w, derive_unknown, ctx, unknown).2,
            ).0.push(self.resolved_word(w, derive_unknown, ctx, unknown).0),
            self.resolved_words(words.push(w), derive_unknown, ctx, unknown).1
                == self.resolved_words(
                words,
                derive_unknown,
                self.resolved_word(w, derive_unknown, ctx, unknown).1,
                self.resolved_word(w, derive_unknown, ctx, unknown).2,
            ).1,
    {
        assert(words.push(w).drop_last() =~= words);
        assert(words.push(w).last() == w);
    }

    /// Words are resolved from the last to the first, so that each is told of those behind it: a list
    /// of words in front of another is resolved in the context, and with the unknown words, that the
    /// other leaves, and comes out before it.
    pub proof fn words_are_told_of_the_next(
        self,
        a: WordView,
        b: WordView,
        derive_unknown: bool,
        ctx: TokenContext,
        unknown: Seq<Seq<char>>,
    )
        ensures
            ({
                let r = self.resolved_words(seq![a, b], derive_unknown, ctx, unknown).0;
                let last = self.resolved_word(b, derive_unknown, ctx, unknown);
                &&& r.len() == 2
                &&& r[1] == last.0
                &&& r[0] == self.resolved_word(a, derive_unknown, last.1, last.2).0
            }),
            self.resolved_words(seq![a, b], derive_unknown, ctx, unknown).1 == self.resolved_word(
                a,
                derive_unknown,
                self.resolved_word(b, derive_unknown, ctx, unknown).1,
                self.resolved_word(b, derive_unknown, ctx, unknown).2,
            ).2,
    {
        let none = Seq::<WordView>::empty();
        let last = self.resolved_word(b, derive_unknown, ctx, unknown);
        self.one_more_word(none.push(a), b, derive_unknown, ctx, unknown);
        self.one_more_word(none, a, derive_unknown, last.1, last.2);
        assert(none.push(a).push(b) =~= seq![a, b]);
        let first = self.resolved_word(a, derive_unknown, last.1, last.2);
        assert(self.resolved_words(none, derive_unknown, first.1, first.2) == (none, first.2));
    }

    /// "the" in front of a word with a sound ends in a full vowel exactly where that sound begins
    /// with a vowel, whatever marks stand before it.
    pub proof fn the_before_a_vowel(
        self,
        the: MTokenView,
        next: MTokenView,
        p: Seq<char>,
        k: int,
        derive_unknown: bool,
        ctx: TokenContext,
        unknown: Seq<Seq<char>>,
    )
        requires
            the.text == "the"@,
            crate::reading_laws::unadorned(the),
            the.phonemes is None,
            next.phonemes == Some(p),
            0 <= k < p.len(),
            forall|i: int|
                0 <= i < k ==> !sung(#[trigger] p[i]) && !shaped(p[i]) && !divides(p[i]),
        ensures
            ({
                let v = seq![WordView::One(the), WordView::One(next)];
                let r = self.resolved_words(v, derive_unknown, ctx, unknown).0;
                &&& r.len() == 2
                &&& r[1] == WordView::One(next)
                &&& sung(p[k]) ==> flat_word(r[0]).phonemes == Some("ði"@)
                &&& shaped(p[k]) || divides(p[k]) ==> flat_word(r[0]).phonemes == Some("ðə"@)
            }),
    {
        self.words_are_told_of_the_next(
            WordView::One(the),
            WordView::One(next),
            derive_unknown,
            ctx,
            unknown,
        );
        the_first_sound_is_told(ctx, p, k, next.text, next.tag);
        let told = next_context(ctx, Some(p), next.text, next.tag);
        reveal_strlit("the");
        assert(is_ascii_chars("the"@));
        ascii_is_read_as_it_stands("the"@);
        reveal(LexiconView::hit_for);
        self.the_article_the(
            "the"@,
            the.tag,
            crate::g2p::case_stress("the"@),
            told,
        );
        let hit = self.token_hit(the, told);
        assert(hit is Some);
        assert(self.resolved_one(the, derive_unknown, told, unknown).0 == sounded(the, hit));
    }
}

/// Two texts with one compatible form, once their apostrophes are straight, are read alike.
pub proof fn compatible_texts_are_read_alike(a: Seq<char>, b: Seq<char>)
    requires
        crate::unicode::compatible_form(crate::g2p::straightened(a))
            == crate::unicode::compatible_form(crate::g2p::straightened(b)),
    ensures
        reading_of(a) == reading_of(b),
{
}

/// A text that is its own compatible form, apostrophes aside, is read character by character, each
/// digit of any script as the ASCII digit of its value.
pub proof fn digits_are_read_by_value(s: Seq<char>, i: int)
    requires
        crate::unicode::compatible_form(crate::g2p::straightened(s)) == crate::g2p::straightened(s),
        0 <= i < s.len(),
        s[i] != '‘',
        s[i] != '’',
    ensures
        reading_of(s).len() == s.len(),
        reading_of(s)[i] == crate::digits::ascii_digit(s[i]),
{
}

impl LexiconView {
    /// A stress that a token asks for is laid on the sound that it has without it.
    pub proof fn stress_is_laid_on_top(self, t: MTokenView, h: i32, ctx: TokenContext)
        requires
            t.stress is None,
        ensures
            ({
                let plain = self.token_hit(t, ctx);
                let stressed_hit = self.token_hit((MTokenView { stress: Some(h), ..t }), ctx);
                match plain {
                    None => stressed_hit is None,
                    Some(p) => stressed_hit == Some(
                        (crate::stress::stressed(p.0, Some(h)), p.1),
                    ),
                }
            }),
    {
        reveal(LexiconView::hit_for);
    }

    /// The currency of a word is named behind the sound that the word has without it, and does not
    /// change its rating.
    pub proof fn currency_is_named_behind(self, t: MTokenView, c: Seq<char>, ctx: TokenContext)
        requires
            crate::reading_laws::unadorned(t),
            self.word(
                reading_of(t.text),
                t.tag,
                crate::g2p::case_stress(reading_of(t.text)),
                ctx,
            ) is Some,
        ensures
            self.token_hit(t, ctx) is Some,
            self.token_hit((MTokenView { currency: Some(c), ..t }), ctx) == Some(
                (
                    self.with_currency(self.token_hit(t, ctx).unwrap().0, Some(c)),
                    self.token_hit(t, ctx).unwrap().1,
                ),
            ),
    {
        reveal(LexiconView::hit_for);
    }

    /// What the lexicon has no word for is read as a number where it looks like one, and not at all
    /// otherwise.
    pub proof fn numbers_come_after_words(self, t: MTokenView, ctx: TokenContext)
        requires
            t.alias is None,
            t.stress is None,
            self.word(
                reading_of(t.text),
                t.tag,
                crate::g2p::case_stress(reading_of(t.text)),
                ctx,
            ) is None,
        ensures
            crate::numbers::numeric(reading_of(t.text), t.is_head) ==> self.token_hit(t, ctx)
                == self.number(reading_of(t.text), t.currency, t.is_head, t.num_flags),
            !crate::numbers::numeric(reading_of(t.text), t.is_head) ==> self.token_hit(t, ctx)
                is None,
    {
        reveal(LexiconView::hit_for);
    }

    /// Two parts that the lexicon has apart but not together are read apart: the second first, in the
    /// context of the word, and the first in the context that the second leaves.
    pub proof fn parts_are_read_apart(
        self,
        a: MTokenView,
        b: MTokenView,
        derive_unknown: bool,
        ctx: TokenContext,
        unknown: Seq<Seq<char>>,
        x: (Seq<char>, u8),
        y: (Seq<char>, u8),
    )
        requires
            a.alias is None,
            a.phonemes is None,
            b.alias is None,
            b.phonemes is None,
            self.token_hit(merged(seq![a, b], None), ctx) is None,
            self.token_hit(merged(seq![b], None), ctx) == Some(y),
            self.token_hit(
                merged(seq![a], None),
                next_context(
                    ctx,
                    Some(y.0),
                    merged(seq![b], None).text,
                    merged(seq![b], None).tag,
                ),
            ) == Some(x),
        ensures
            ({
                let (r, _, u) = self.resolved_parts(
                    seq![a, b],
                    0,
                    2,
                    derive_unknown,
                    ctx,
                    unknown,
                );
                &&& r.len() == 2
                &&& r[0].phonemes == Some(x.0)
                &&& r[0].rating == Some(x.1)
                &&& r[1].phonemes == Some(y.0)
                &&& r[1].rating == Some(y.1)
                &&& u == unknown
            }),
    {
        let g = seq![a, b];
        assert(g[0] == a && g[1] == b);
        assert(g.subrange(0, 2) =~= g);
        assert(g.subrange(1, 2) =~= seq![b]);
        assert(!blocked(g, 0, 2));
        assert(!blocked(g, 1, 2));
        let c2 = merged(seq![b], None);
        let told = next_context(ctx, Some(y.0), c2.text, c2.tag);
        let g2 = crate::g2p::sounded_range(g, 1, 2, y);
        assert(self.resolved_parts(g, 0, 2, derive_unknown, ctx, unknown) == self.resolved_parts(
            g,
            1,
            2,
            derive_unknown,
            ctx,
            unknown,
        ));
        assert(self.resolved_parts(g, 1, 2, derive_unknown, ctx, unknown) == self.resolved_parts(
            g2,
            0,
            1,
            derive_unknown,
            told,
            unknown,
        ));
        assert(g2[0] == a);
        assert(g2.subrange(0, 1) =~= seq![a]);
        assert(!blocked(g2, 0, 1));
        let c1 = merged(seq![a], None);
        let told2 = next_context(told, Some(x.0), c1.text, c1.tag);
        let g3 = crate::g2p::sounded_range(g2, 0, 1, x);
        assert(self.resolved_parts(g2, 0, 1, derive_unknown, told, unknown)
            == self.resolved_parts(g3, 0, 0, derive_unknown, told2, unknown));
        assert(self.resolved_parts(g3, 0, 0, derive_unknown, told2, unknown) == (
            g3,
            told2,
            unknown,
        ));
    }

    /// A part on its own that the lexicon gives up on is silent where it is junk; otherwise it is
    /// derived where that is asked for, or noted as unknown. The context stays as it was.
    pub proof fn parts_without_a_sound(
        self,
        a: MTokenView,
        derive_unknown: bool,
        ctx: TokenContext,
        unknown: Seq<Seq<char>>,
    )
        requires
            a.alias is None,
            a.phonemes is None,
            a.text.len() > 0,
            self.token_hit(merged(seq![a], None), ctx) is None,
        ensures
            ({
                let (r, c, u) = self.resolved_parts(seq![a], 0, 1, derive_unknown, ctx, unknown);
                let junk = crate::resolve::junk_text(a.text);
                &&& r.len() == 1
                &&& c == ctx
                &&& junk ==> r[0].phonemes == Some(Seq::<char>::empty()) && r[0].rating == Some(3u8)
                    && u == unknown
                &&& !junk && !derive_unknown ==> r[0] == a && u == noted(unknown, a.text)
            }),
    {
        let g = seq![a];
        assert(g[0] == a);
        assert(g.subrange(0, 1) =~= g);
        assert(!blocked(g, 0, 1));
        let (guess, noticed) = self.derivation(a.text, derive_unknown, unknown);
        let (t2, u2) = if crate::resolve::junk_text(a.text) {
            (sounded(a, Some((Seq::empty(), 3u8))), unknown)
        } else {
            (sounded(a, guess), noticed)
        };
        let g2 = g.update(0, t2);
        assert(self.resolved_parts(g, 0, 1, derive_unknown, ctx, unknown) == self.resolved_parts(
            g2,
            0,
            0,
            derive_unknown,
            ctx,
            u2,
        ));
        assert(self.resolved_parts(g2, 0, 0, derive_unknown, ctx, u2) == (g2, ctx, u2));
    }
}

/// Tokens and tags go together one by one, and nothing else is known of a token at first.
pub proof fn tags_go_with_tokens(
    tokens: Seq<crate::tokenize::TokenView>,
    tags: Seq<Seq<char>>,
    i: int,
)
    requires
        tokens.len() == tags.len(),
        0 <= i < tokens.len(),
    ensures
        ({
            let v = crate::g2p::tagged_tokens(tokens, tags);
            &&& v.len() == tokens.len()
            &&& v[i].text == tokens[i].text
            &&& v[i].tag == tags[i]
            &&& v[i].whitespace == tokens[i].whitespace
            &&& v[i].phonemes is None
            &&& v[i].alias is None
            &&& v[i].stress is None
            &&& v[i].currency is None
            &&& v[i].rating is None
            &&& v[i].num_flags.len() == 0
            &&& v[i].is_head
            &&& !v[i].prespace
        }),
{
}

/// The decimal digits of a few other scripts, each by its value.
pub proof fn other_scripts_have_digits(d: u32)
    requires
        d < 10,
    ensures
        crate::digits::ascii_digit((0x660 + d) as char) == (48 + d) as char,
        crate::digits::ascii_digit((0x6f0 + d) as char) == (48 + d) as char,
        crate::digits::ascii_digit((0x966 + d) as char) == (48 + d) as char,
{
    reveal_with_fuel(crate::digits::digit_value_from, 8);
}

} // verus!
