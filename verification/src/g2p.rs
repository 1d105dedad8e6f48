//! From tokens to one phoneme string.
//!
//! A sentence is walked from right to left, because several rules of the lexicon depend on
//! what comes next: "the" before a vowel, "to" before a consonant, "used to". The parts of a
//! hyphenated or apostrophised word are resolved by trying the longest merge first and
//! backing off, which is why they travel as a group.

use crate::digits::{ascii_digit, numeric_if_needed};
use crate::lexicon::{hit_view, opt_chars, opt_str, Hit, Lexicon, LexiconView, TokenContext};
use crate::mtoken::{fresh, merge_tokens, merged, mtokens, MToken, MTokenView};
use crate::numbers::{numeric, numeric_words_are_readable};
use crate::pattern::{compile, compiled};
use crate::resolve::{junk_text, only_junk, resolve_tokens, resolved_stress};
use crate::retokenize::{
    no_empty_group, retokenize, words_of, words_view, Word, WordView,
};
use crate::space::{leading_space, trim_start};
use crate::stress::{
    apply_stress, is_vowel, non_quote_punct, stressed, vowel, CONSONANTS, LIFT, PUNCTS, QUOTES, RAISE,
};
use crate::text::{cat, chars_of, contains_char, str_eq, strings};
use crate::tokenize::{tokens_view, Token, TokenView, Tokenizer, TokenizerView};
use crate::unicode::{
    alphabetic, compatible_form, is_alphabetic, lower, lowercase, nfkc, upper, uppercase,
};
use crate::vocab::Vocab;
use fancy_regex::Regex;
use vstd::prelude::*;
use vstd::string::*;
use vstd::utf8::*;

verus! {

/// Punctuation other than the quotation marks.
pub open spec fn plain_punct(c: char) -> bool {
    PUNCTS@.contains(c) && !QUOTES@.contains(c)
}

/// A character that says what the next sound is: a vowel, a consonant, or punctuation.
pub open spec fn telling(c: char) -> bool {
    vowel(c) || CONSONANTS@.contains(c) || plain_punct(c)
}

/// The first telling character of a phoneme string.
pub open spec fn first_telling(ps: Seq<char>) -> Option<char>
    decreases ps.len(),
{
    if ps.len() == 0 {
        None
    } else if telling(ps[0]) {
        Some(ps[0])
    } else {
        first_telling(ps.skip(1))
    }
}

/// What the token to the left needs to know: whether the next spoken sound is a vowel, and
/// whether the next word is "to".
pub open spec fn next_context(
    ctx: TokenContext,
    ps: Option<Seq<char>>,
    text: Seq<char>,
    tag: Seq<char>,
) -> TokenContext {
    let sound = match ps {
        Some(p) => first_telling(p),
        None => None,
    };
    TokenContext {
        future_vowel: match sound {
            None => ctx.future_vowel,
            Some(c) => if plain_punct(c) {
                None
            } else {
                Some(vowel(c))
            },
        },
        future_to: text == "to"@ || text == "To"@ || (text == "TO"@ && (tag == "TO"@ || tag
            == "IN"@)),
    }
}

/// A text with curly apostrophes made straight.
pub open spec fn straightened(s: Seq<char>) -> Seq<char> {
    s.map_values(
        |c: char|
            if c == '\u{2018}' || c == '\u{2019}' {
                '\''
            } else {
                c
            },
    )
}

/// Every digit of a text as an ASCII digit.
pub open spec fn ascii_digits(s: Seq<char>) -> Seq<char> {
    s.map_values(|c: char| ascii_digit(c))
}

/// The word under which a text is looked up.
pub open spec fn reading_of(s: Seq<char>) -> Seq<char> {
    ascii_digits(compatible_form(straightened(s)))
}

/// The stress that the case of a word asks for.
pub open spec fn case_stress(word: Seq<char>) -> Option<i32> {
    if word == lowercase(word) {
        None
    } else if word == uppercase(word) {
        Some(RAISE)
    } else {
        Some(LIFT)
    }
}

/// A list of words with one more, unless it is there.
pub open spec fn noted(unknown: Seq<Seq<char>>, text: Seq<char>) -> Seq<Seq<char>> {
    if unknown.contains(text) {
        unknown
    } else {
        unknown.push(text)
    }
}

/// A token with the sound of a hit, where there is one.
pub open spec fn sounded(t: MTokenView, hit: Option<(Seq<char>, u8)>) -> MTokenView {
    match hit {
        Some(h) => MTokenView { phonemes: Some(h.0), rating: Some(h.1), ..t },
        None => t,
    }
}

/// A group whose parts from `left` up to `right` take the sound of one hit: the first part
/// has all of it, the others none.
pub open spec fn sounded_range(
    group: Seq<MTokenView>,
    left: int,
    right: int,
    hit: (Seq<char>, u8),
) -> Seq<MTokenView> {
    Seq::new(
        group.len(),
        |i: int|
            if i == left {
                sounded(group[i], Some(hit))
            } else if left < i < right {
                MTokenView { phonemes: Some(Seq::empty()), ..group[i] }
            } else {
                group[i]
            },
    )
}

/// Whether a part of the range has a sound or an alias already.
pub open spec fn blocked(group: Seq<MTokenView>, left: int, right: int) -> bool {
    exists|i: int|
        left <= i < right && ((#[trigger] group[i]).alias is Some || group[i].phonemes is Some)
}

/// Whether any character is a letter.
pub open spec fn has_letter(s: Seq<char>) -> bool {
    exists|i: int| 0 <= i < s.len() && alphabetic(#[trigger] s[i])
}

impl LexiconView {
    /// The sound of a token read as `word`.
    #[verifier::opaque]
    pub open spec fn hit_for(self, word: Seq<char>, t: MTokenView, ctx: TokenContext) -> Option<
        (Seq<char>, u8),
    > {
        match self.word(word, t.tag, case_stress(word), ctx) {
            Some(h) => Some((stressed(self.with_currency(h.0, t.currency), t.stress), h.1)),
            None => if numeric(word, t.is_head) {
                match self.number(word, t.currency, t.is_head, t.num_flags) {
                    Some(h) => Some((stressed(h.0, t.stress), h.1)),
                    None => None,
                }
            } else {
                None
            },
        }
    }

    /// The sound of a token: that of its alias, or of its text.
    pub open spec fn token_hit(self, t: MTokenView, ctx: TokenContext) -> Option<(Seq<char>, u8)> {
        match t.alias {
            Some(a) => self.hit_for(reading_of(a), t, ctx),
            None => self.hit_for(reading_of(t.text), t, ctx),
        }
    }

    /// The derivation of a text, and the words that nothing could pronounce. Where nothing is
    /// to be derived, every text is such a word; a text without letters never is.
    pub open spec fn derivation(
        self,
        text: Seq<char>,
        derive_unknown: bool,
        unknown: Seq<Seq<char>>,
    ) -> (Option<(Seq<char>, u8)>, Seq<Seq<char>>) {
        if text.len() == 0 {
            (None, unknown)
        } else if !derive_unknown {
            (None, noted(unknown, text))
        } else if !has_letter(text) {
            (None, unknown)
        } else {
            match self.derived(lowercase(text)) {
                Some(h) => (Some(h), unknown),
                None => (None, noted(unknown, text)),
            }
        }
    }

    /// A token on its own with its sound, the context that it leaves, and the unknown words.
    pub open spec fn resolved_one(
        self,
        t: MTokenView,
        derive_unknown: bool,
        ctx: TokenContext,
        unknown: Seq<Seq<char>>,
    ) -> (MTokenView, TokenContext, Seq<Seq<char>>) {
        let hit = self.token_hit(t, ctx);
        let (guess, noticed) = self.derivation(t.text, derive_unknown, unknown);
        let (t2, unknown2) = if t.phonemes is Some {
            (t, unknown)
        } else if hit is Some {
            (sounded(t, hit), unknown)
        } else {
            (sounded(t, guess), noticed)
        };
        (t2, next_context(ctx, t2.phonemes, t2.text, t2.tag), unknown2)
    }

    /// The parts of a word with their sounds: the longest merge first, backing off from the
    /// left, then dropping the rightmost part.
    pub open spec fn resolved_parts(
        self,
        group: Seq<MTokenView>,
        left: int,
        right: int,
        derive_unknown: bool,
        ctx: TokenContext,
        unknown: Seq<Seq<char>>,
    ) -> (Seq<MTokenView>, TokenContext, Seq<Seq<char>>)
        decreases right, right - left,
    {
        if left < 0 || left >= right || right > group.len() {
            (group, ctx, unknown)
        } else {
            let candidate = merged(group.subrange(left, right), None);
            let hit = if blocked(group, left, right) {
                None
            } else {
                self.token_hit(candidate, ctx)
            };
            if hit is Some {
                self.resolved_parts(
                    sounded_range(group, left, right, hit.unwrap()),
                    0,
                    left,
                    derive_unknown,
                    next_context(ctx, Some(hit.unwrap().0), candidate.text, candidate.tag),
                    unknown,
                )
            } else if left + 1 < right {
                self.resolved_parts(group, left + 1, right, derive_unknown, ctx, unknown)
            } else {
                let t = group[right - 1];
                let (guess, noticed) = self.derivation(t.text, derive_unknown, unknown);
                let (t2, unknown2) = if t.phonemes is Some {
                    (t, unknown)
                } else if junk_text(t.text) {
                    (sounded(t, Some((Seq::empty(), 3u8))), unknown)
                } else {
                    (sounded(t, guess), noticed)
                };
                self.resolved_parts(
                    group.update(right - 1, t2),
                    0,
                    right - 1,
                    derive_unknown,
                    ctx,
                    unknown2,
                )
            }
        }
    }

    /// A word with its sounds, the context that it leaves, and the unknown words.
    pub open spec fn resolved_word(
        self,
        w: WordView,
        derive_unknown: bool,
        ctx: TokenContext,
        unknown: Seq<Seq<char>>,
    ) -> (WordView, TokenContext, Seq<Seq<char>>) {
        match w {
            WordView::One(t) => {
                let (t2, c, u) = self.resolved_one(t, derive_unknown, ctx, unknown);
                (WordView::One(t2), c, u)
            },
            WordView::Many(g) => {
                let (g2, c, u) = self.resolved_parts(
                    g,
                    0,
                    g.len() as int,
                    derive_unknown,
                    ctx,
                    unknown,
                );
                (WordView::Many(resolved_stress(g2)), c, u)
            },
        }
    }

    /// Words with their sounds, resolved from the last to the first, and the unknown words in
    /// that order.
    pub open spec fn resolved_words(
        self,
        words: Seq<WordView>,
        derive_unknown: bool,
        ctx: TokenContext,
        unknown: Seq<Seq<char>>,
    ) -> (Seq<WordView>, Seq<Seq<char>>)
        decreases words.len(),
    {
        if words.len() == 0 {
            (words, unknown)
        } else {
            let (w, c, u) = self.resolved_word(words.last(), derive_unknown, ctx, unknown);
            let (before, u2) = self.resolved_words(words.drop_last(), derive_unknown, c, u);
            (before.push(w), u2)
        }
    }
}

fn token_context(ctx: TokenContext, ps: &Option<String>, text: &str, tag: &str) -> (r: TokenContext)
    ensures
        r == next_context(ctx, opt_chars(*ps), text@, tag@),
{
    let mut future_vowel = ctx.future_vowel;
    match ps {
        Some(p) => {
            let c = chars_of(p.as_str());
            let mut i: usize = 0;
            assert(c@.skip(0) =~= c@);
            while i < c.len()
                invariant_except_break
                    i <= c@.len(),
                    c@ == p@,
                    future_vowel == ctx.future_vowel,
                    first_telling(p@) == first_telling(c@.skip(i as int)),
                ensures
                    future_vowel == (match first_telling(p@) {
                        None => ctx.future_vowel,
                        Some(c) => if plain_punct(c) {
                            None
                        } else {
                            Some(vowel(c))
                        },
                    }),
                decreases c.len() - i,
            {
                assert(c@.skip(i as int).skip(1) =~= c@.skip(i + 1));
                let vowel_here = is_vowel(c[i]);
                let punct = non_quote_punct(c[i]);
                if vowel_here || contains_char(CONSONANTS, c[i]) || punct {
                    future_vowel = if punct {
                        None
                    } else {
                        Some(vowel_here)
                    };
                    break;
                }
                i = i + 1;
            }
        },
        None => {},
    }
    let future_to = str_eq(text, "to") || str_eq(text, "To") || (str_eq(text, "TO") && (str_eq(
        tag,
        "TO",
    ) || str_eq(tag, "IN")));
    TokenContext { future_vowel, future_to }
}

fn straighten(s: &str) -> (r: String)
    ensures
        r@ == straightened(s@),
{
    let c = chars_of(s);
    let mut out = String::new();
    let mut i: usize = 0;
    while i < c.len()
        invariant
            i <= c@.len(),
            out@ == straightened(c@.take(i as int)),
        decreases c.len() - i,
    {
        if c[i] == '\u{2018}' || c[i] == '\u{2019}' {
            out.push('\'');
        } else {
            out.push(c[i]);
        }
        i = i + 1;
        assert(out@ =~= straightened(c@.take(i as int)));
    }
    assert(c@.take(i as int) =~= c@);
    out
}

fn fold_digits(s: &str) -> (r: String)
    ensures
        r@ == ascii_digits(s@),
{
    let c = chars_of(s);
    let mut out = String::new();
    let mut i: usize = 0;
    while i < c.len()
        invariant
            i <= c@.len(),
            out@ == ascii_digits(c@.take(i as int)),
        decreases c.len() - i,
    {
        out.push(numeric_if_needed(c[i]));
        i = i + 1;
        assert(out@ =~= ascii_digits(c@.take(i as int)));
    }
    assert(c@.take(i as int) =~= c@);
    out
}

/// The word under which a text is looked up.
pub fn reading(s: &str) -> (r: String)
    ensures
        r@ == reading_of(s@),
{
    let straight = straighten(s);
    let folded = nfkc(straight.as_str());
    fold_digits(folded.as_str())
}

fn any_letter(s: &str) -> (r: bool)
    ensures
        r == has_letter(s@),
{
    let c = chars_of(s);
    let mut i: usize = 0;
    while i < c.len()
        invariant
            i <= c@.len(),
            c@ == s@,
            forall|k: int| 0 <= k < i ==> !alphabetic(#[trigger] c@[k]),
        decreases c.len() - i,
    {
        if is_alphabetic(c[i]) {
            assert(alphabetic(c@[i as int]));
            return true;
        }
        i = i + 1;
    }
    false
}

fn note(unknown: &mut Vec<String>, text: &str)
    ensures
        strings(final(unknown)@) == noted(strings(old(unknown)@), text@),
{
    let ghost all = strings(unknown@);
    let mut i: usize = 0;
    while i < unknown.len()
        invariant
            i <= unknown@.len(),
            unknown@ == old(unknown)@,
            all == strings(unknown@),
            forall|k: int| 0 <= k < i ==> all[k] != text@,
        decreases unknown.len() - i,
    {
        assert(all[i as int] == unknown@[i as int]@);
        if str_eq(unknown[i].as_str(), text) {
            assert(all.contains(all[i as int]));
            return;
        }
        i = i + 1;
    }
    let t = text.to_owned();
    unknown.push(t);
    assert(strings(unknown@) =~= all.push(t@));
}

/// Puts the sound of a hit on a token.
fn put_sound(t: &MToken, ps: String, rating: u8) -> (r: MToken)
    ensures
        r@ == sounded(t@, Some((ps@, rating))),
{
    let mut t = t.copy();
    t.phonemes = Some(ps);
    t.rating = Some(rating);
    t
}

impl Lexicon {
    /// The sound of a token read as `word`, which is already in its compatible form.
    pub fn lookup_reading(&self, word: &str, t: &MToken, ctx: TokenContext) -> (r: Option<Hit>)
        ensures
            hit_view(r) == self@.hit_for(word@, t@, ctx),
    {
        proof {
            reveal(LexiconView::hit_for);
        }
        let small = lower(word);
        let stress: Option<i32> = if str_eq(word, small.as_str()) {
            None
        } else {
            let big = upper(word);
            if str_eq(word, big.as_str()) {
                Some(RAISE)
            } else {
                Some(LIFT)
            }
        };
        let currency = match &t.currency {
            Some(c) => Some(c.as_str()),
            None => None,
        };
        match self.get_word(word, t.tag.as_str(), stress, ctx) {
            Some(hit) => {
                let ps = self.with_currency(hit.0.as_str(), currency);
                return Some((apply_stress(ps.as_str(), t.stress), hit.1));
            },
            None => {},
        }
        if Lexicon::is_number(word, t.is_head) {
            proof {
                numeric_words_are_readable(word@, opt_str(currency), t.is_head);
            }
            match self.get_number(word, currency, t.is_head, t.num_flags.as_str()) {
                Some(hit) => {
                    return Some((apply_stress(hit.0.as_str(), t.stress), hit.1));
                },
                None => {},
            }
        }
        None
    }

    /// The sound of a token: that of its alias, or of its text.
    pub fn lexicon_lookup(&self, t: &MToken, ctx: TokenContext) -> (r: Option<Hit>)
        ensures
            hit_view(r) == self@.token_hit(t@, ctx),
    {
        let word = match &t.alias {
            Some(a) => reading(a.as_str()),
            None => reading(t.text.as_str()),
        };
        self.lookup_reading(word.as_str(), t, ctx)
    }

    /// The derivation stage, plus the lint. A word noted here is one that the voice cannot
    /// say; naming it beats inventing a pronunciation for it.
    pub fn derive_or_note(
        &self,
        text: &str,
        derive_unknown: bool,
        unknown: &mut Vec<String>,
    ) -> (r: Option<Hit>)
        ensures
            (hit_view(r), strings(final(unknown)@)) == self@.derivation(
                text@,
                derive_unknown,
                strings(old(unknown)@),
            ),
    {
        if text.is_empty() {
            return None;
        }
        if !derive_unknown {
            note(unknown, text);
            return None;
        }
        if !any_letter(text) {
            return None;
        }
        match self.derive(text) {
            Some(hit) => Some(hit),
            None => {
                note(unknown, text);
                None
            },
        }
    }

    fn resolve_one(
        &self,
        t: MToken,
        derive_unknown: bool,
        ctx: TokenContext,
        unknown: &mut Vec<String>,
    ) -> (r: (MToken, TokenContext))
        ensures
            (r.0@, r.1, strings(final(unknown)@)) == self@.resolved_one(
                t@,
                derive_unknown,
                ctx,
                strings(old(unknown)@),
            ),
    {
        let out = if t.phonemes.is_some() {
            t
        } else {
            match self.lexicon_lookup(&t, ctx) {
                Some(hit) => put_sound(&t, hit.0, hit.1),
                None => match self.derive_or_note(t.text.as_str(), derive_unknown, unknown) {
                    Some(hit) => put_sound(&t, hit.0, hit.1),
                    None => t,
                },
            }
        };
        let next = token_context(ctx, &out.phonemes, out.text.as_str(), out.tag.as_str());
        (out, next)
    }

    /// Puts the sound of one hit on a range of parts.
    fn sound_range(group: &mut Vec<MToken>, left: usize, right: usize, ps: &str, rating: u8)
        requires
            left < right <= old(group)@.len(),
        ensures
            mtokens(final(group)@) == sounded_range(
                mtokens(old(group)@),
                left as int,
                right as int,
                (ps@, rating),
            ),
    {
        let ghost all = mtokens(group@);
        let ghost goal = sounded_range(all, left as int, right as int, (ps@, rating));
        let first = put_sound(&group[left], ps.to_owned(), rating);
        let ghost f = first@;
        assert(all[left as int] == group@[left as int]@);
        group.set(left, first);
        assert(mtokens(group@) =~= all.update(left as int, f));
        let mut i: usize = left + 1;
        while i < right
            invariant
                left < i <= right <= group@.len() == all.len(),
                goal == sounded_range(all, left as int, right as int, (ps@, rating)),
                forall|k: int|
                    0 <= k < all.len() ==> #[trigger] mtokens(group@)[k] == (if k < i {
                        goal[k]
                    } else {
                        all[k]
                    }),
            decreases right - i,
        {
            assert(mtokens(group@)[i as int] == group@[i as int]@);
            let mut t = group[i].copy();
            t.phonemes = Some(String::new());
            let ghost before = mtokens(group@);
            let ghost v = t@;
            group.set(i, t);
            assert(mtokens(group@) =~= before.update(i as int, v));
            assert(v =~= goal[i as int]);
            i = i + 1;
        }
        assert(mtokens(group@) =~= goal);
    }

    fn is_blocked(group: &Vec<MToken>, left: usize, right: usize) -> (r: bool)
        requires
            left <= right <= group@.len(),
        ensures
            r == blocked(mtokens(group@), left as int, right as int),
    {
        let ghost all = mtokens(group@);
        let mut i: usize = left;
        while i < right
            invariant
                left <= i <= right <= group@.len(),
                all == mtokens(group@),
                forall|k: int|
                    left <= k < i ==> (#[trigger] all[k]).alias is None && all[k].phonemes is None,
            decreases right - i,
        {
            assert(all[i as int] == group@[i as int]@);
            if group[i].alias.is_some() || group[i].phonemes.is_some() {
                return true;
            }
            i = i + 1;
        }
        false
    }

    fn resolve_parts(
        &self,
        group: &mut Vec<MToken>,
        derive_unknown: bool,
        ctx0: TokenContext,
        unknown: &mut Vec<String>,
    ) -> (r: TokenContext)
        ensures
            (mtokens(final(group)@), r, strings(final(unknown)@)) == self@.resolved_parts(
                mtokens(old(group)@),
                0,
                old(group)@.len() as int,
                derive_unknown,
                ctx0,
                strings(old(unknown)@),
            ),
            final(group)@.len() == old(group)@.len(),
    {
        let mut ctx = ctx0;
        let n: usize = group.len();
        let mut left: usize = 0;
        let mut right: usize = n;
        let ghost goal = self@.resolved_parts(
            mtokens(group@),
            0,
            n as int,
            derive_unknown,
            ctx0,
            strings(unknown@),
        );
        while left < right
            invariant
                left <= right <= n == group@.len(),
                goal == self@.resolved_parts(
                    mtokens(group@),
                    left as int,
                    right as int,
                    derive_unknown,
                    ctx,
                    strings(unknown@),
                ),
            decreases right, right - left,
        {
            let ghost all = mtokens(group@);
            let candidate = merge_tokens(group, left, right, None);
            let hit = if Self::is_blocked(group, left, right) {
                None
            } else {
                self.lexicon_lookup(&candidate, ctx)
            };
            match hit {
                Some(h) => {
                    Self::sound_range(group, left, right, h.0.as_str(), h.1);
                    assert(mtokens(group@).len() == all.len());
                    ctx = token_context(
                        ctx,
                        &Some(h.0),
                        candidate.text.as_str(),
                        candidate.tag.as_str(),
                    );
                    right = left;
                    left = 0;
                },
                None => {
                    if left + 1 < right {
                        left = left + 1;
                    } else {
                        right = right - 1;
                        assert(all[right as int] == group@[right as int]@);
                        if group[right].phonemes.is_none() {
                            let t = if only_junk(group[right].text.as_str()) {
                                put_sound(&group[right], String::new(), 3)
                            } else {
                                match self.derive_or_note(
                                    group[right].text.as_str(),
                                    derive_unknown,
                                    unknown,
                                ) {
                                    Some(h) => put_sound(&group[right], h.0, h.1),
                                    None => group[right].copy(),
                                }
                            };
                            let ghost v = t@;
                            group.set(right, t);
                            assert(mtokens(group@) =~= all.update(right as int, v));
                        } else {
                            assert(all.update(right as int, all[right as int]) =~= all);
                        }
                        left = 0;
                    }
                },
            }
        }
        ctx
    }
}

/// The sound of a word that nothing could pronounce.
pub const UNK: &'static str = "❓";

/// What a sub-token is.
pub const SUBTOKEN: &'static str =
    "^['\\u{2018}\\u{2019}]+|\\p{Lu}(?=\\p{Lu}\\p{Ll})|(?:^-)?(?:\\d?[,.]?\\d)+|[-_]+|['\\u{2018}\\u{2019}]{2,}|\\p{L}*?(?:['\\u{2018}\\u{2019}]\\p{L})*?\\p{Ll}(?=\\p{Lu})|\\p{L}+(?:['\\u{2018}\\u{2019}]\\p{L})*|[^-_\\p{L}'\\u{2018}\\u{2019}\\d]|['\\u{2018}\\u{2019}]+$";

/// One source word, and the bytes of the phoneme string that it produced.
#[derive(Debug, PartialEq, Eq)]
pub struct WordSpan {
    pub text: String,
    pub phonemes: core::ops::Range<usize>,
}

/// The meaning of a word span.
#[verifier::ext_equal]
pub struct SpanView {
    pub text: Seq<char>,
    pub start: nat,
    pub end: nat,
}

impl View for WordSpan {
    type V = SpanView;

    open spec fn view(&self) -> SpanView {
        SpanView {
            text: self.text@,
            start: self.phonemes.start as nat,
            end: self.phonemes.end as nat,
        }
    }
}

/// The meaning of a list of word spans.
pub open spec fn word_spans(v: Seq<WordSpan>) -> Seq<SpanView> {
    v.map_values(|s: WordSpan| s@)
}

/// The number of bytes of a text.
pub open spec fn byte_len(s: Seq<char>) -> nat {
    encode_utf8(s).len()
}

/// The voice has no flap and no glottal stop: both are spelt with the letters that it knows.
pub open spec fn voice_letters(ps: Seq<char>) -> Seq<char> {
    ps.map_values(
        |c: char|
            if c == 'ɾ' {
                'T'
            } else if c == 'ʔ' {
                't'
            } else {
                c
            },
    )
}

/// The sound of a token in the letters of the voice.
pub open spec fn final_sound(t: MTokenView) -> Seq<char> {
    match t.phonemes {
        Some(p) => voice_letters(p),
        None => UNK@,
    }
}

/// A word as one token.
pub open spec fn flat_word(w: WordView) -> MTokenView {
    match w {
        WordView::One(t) => t,
        WordView::Many(g) => merged(g, Some(UNK@)),
    }
}

/// Words as one token each.
pub open spec fn flat_words(words: Seq<WordView>) -> Seq<MTokenView> {
    words.map_values(|w: WordView| flat_word(w))
}

/// The phoneme string of tokens, each with the white space behind it.
pub open spec fn phoneme_string(v: Seq<MTokenView>) -> Seq<char>
    decreases v.len(),
{
    if v.len() == 0 {
        Seq::empty()
    } else {
        phoneme_string(v.drop_last()) + final_sound(v.last()) + v.last().whitespace
    }
}

/// The bytes that each source word has in the phoneme string. A token without a sound joins
/// the word before it.
pub open spec fn spans_of_words(v: Seq<MTokenView>) -> Seq<SpanView>
    decreases v.len(),
{
    if v.len() == 0 {
        Seq::empty()
    } else {
        let before = spans_of_words(v.drop_last());
        let out = phoneme_string(v.drop_last());
        let sound = final_sound(v.last());
        if sound.len() == 0 && before.len() > 0 {
            before.drop_last().push(
                SpanView { text: before.last().text + v.last().text, ..before.last() },
            )
        } else {
            before.push(
                SpanView {
                    text: v.last().text,
                    start: byte_len(out),
                    end: byte_len(out + sound),
                },
            )
        }
    }
}

/// Tokens of which only text, tag and white space are known. A token without a tag is left
/// out.
pub open spec fn tagged_tokens(tokens: Seq<TokenView>, tags: Seq<Seq<char>>) -> Seq<MTokenView> {
    Seq::new(
        if tokens.len() < tags.len() {
            tokens.len()
        } else {
            tags.len()
        },
        |i: int| fresh(tokens[i].text, tags[i], tokens[i].whitespace),
    )
}

/// A tokenizer and a lexicon, with the pattern of sub-tokens.
pub struct G2P {
    tokenizer: Tokenizer,
    lexicon: Lexicon,
    subtoken: Regex,
}

/// The meaning of both.
pub struct G2PView {
    pub tokenizer: TokenizerView,
    pub lexicon: LexiconView,
    pub subtoken: Regex,
}

impl View for G2P {
    type V = G2PView;

    closed spec fn view(&self) -> G2PView {
        G2PView {
            tokenizer: self.tokenizer@,
            lexicon: self.lexicon@,
            subtoken: self.subtoken,
        }
    }
}

impl G2PView {
    /// The words of tagged tokens with their sounds, each as one token, and the words that
    /// nothing could pronounce. Nothing where the sub-tokens of one cannot be cut out.
    pub open spec fn sounds(self, tokens: Seq<MTokenView>, derive_unknown: bool) -> Option<
        (Seq<MTokenView>, Seq<Seq<char>>),
    > {
        match words_of(self.subtoken, tokens) {
            None => None,
            Some(words) => {
                let (resolved, unknown) = self.lexicon.resolved_words(
                    words,
                    derive_unknown,
                    TokenContext { future_vowel: None, future_to: false },
                    Seq::empty(),
                );
                Some((flat_words(resolved), unknown))
            },
        }
    }
}

/// The sound of a token in the letters of the voice.
fn sound_of(t: &MToken) -> (r: String)
    ensures
        r@ == final_sound(t@),
{
    match &t.phonemes {
        None => UNK.to_owned(),
        Some(p) => {
            let c = chars_of(p.as_str());
            let mut out = String::new();
            let mut i: usize = 0;
            while i < c.len()
                invariant
                    i <= c@.len(),
                    out@ == voice_letters(c@.take(i as int)),
                decreases c.len() - i,
            {
                if c[i] == 'ɾ' {
                    out.push('T');
                } else if c[i] == 'ʔ' {
                    out.push('t');
                } else {
                    out.push(c[i]);
                }
                i = i + 1;
                assert(out@ =~= voice_letters(c@.take(i as int)));
            }
            assert(c@.take(i as int) =~= c@);
            out
        },
    }
}

/// The phoneme string of tokens, and the bytes of it that each source word has.
pub fn assemble(tokens: &Vec<MToken>) -> (r: (String, Vec<WordSpan>))
    ensures
        r.0@ == phoneme_string(mtokens(tokens@)),
        word_spans(r.1@) == spans_of_words(mtokens(tokens@)),
{
    let ghost all = mtokens(tokens@);
    let mut out = String::new();
    let mut spans: Vec<WordSpan> = Vec::new();
    let mut i: usize = 0;
    assert(word_spans(spans@) =~= Seq::<SpanView>::empty());
    while i < tokens.len()
        invariant
            i <= tokens@.len(),
            all == mtokens(tokens@),
            out@ == phoneme_string(all.take(i as int)),
            word_spans(spans@) == spans_of_words(all.take(i as int)),
        decreases tokens.len() - i,
    {
        let ghost next = all.take(i + 1);
        assert(next.drop_last() =~= all.take(i as int));
        assert(next.last() == tokens@[i as int]@);
        let start: usize = out.as_str().as_bytes().len();
        let sound = sound_of(&tokens[i]);
        out.append(sound.as_str());
        let end: usize = out.as_str().as_bytes().len();
        let ghost before = word_spans(spans@);
        if sound.as_str().is_empty() && spans.len() > 0 {
            match spans.pop() {
                Some(last) => {
                    let ghost o = word_spans(spans@);
                    assert(o =~= before.drop_last());
                    assert(before.last() == last@);
                    let joined = WordSpan {
                        text: cat(last.text.as_str(), tokens[i].text.as_str()),
                        phonemes: last.phonemes,
                    };
                    let ghost v = joined@;
                    spans.push(joined);
                    assert(word_spans(spans@) =~= o.push(v));
                },
                None => {},
            }
        } else {
            let span = WordSpan { text: tokens[i].text.clone(), phonemes: start..end };
            let ghost v = span@;
            spans.push(span);
            assert(word_spans(spans@) =~= before.push(v));
        }
        out.append(tokens[i].whitespace.as_str());
        i = i + 1;
    }
    assert(all.take(i as int) =~= all);
    (out, spans)
}

fn tag_tokens(tokens: &Vec<Token>, tags: &Vec<String>) -> (r: Vec<MToken>)
    ensures
        mtokens(r@) == tagged_tokens(tokens_view(tokens@), strings(tags@)),
{
    let ghost goal = tagged_tokens(tokens_view(tokens@), strings(tags@));
    let mut out: Vec<MToken> = Vec::new();
    let mut i: usize = 0;
    assert(mtokens(out@) =~= goal.take(0));
    while i < tokens.len() && i < tags.len()
        invariant
            i <= goal.len(),
            goal == tagged_tokens(tokens_view(tokens@), strings(tags@)),
            mtokens(out@) == goal.take(i as int),
        decreases tokens.len() - i,
    {
        let t = MToken::new(
            tokens[i].text.clone(),
            tags[i].clone(),
            tokens[i].whitespace.to_owned(),
        );
        let ghost before = mtokens(out@);
        let ghost v = t@;
        out.push(t);
        assert(mtokens(out@) =~= before.push(v));
        assert(tokens_view(tokens@)[i as int] == tokens@[i as int]@);
        assert(strings(tags@)[i as int] == tags@[i as int]@);
        assert(v == goal[i as int]);
        assert(mtokens(out@) =~= goal.take(i + 1));
        i = i + 1;
    }
    assert(goal.take(i as int) =~= goal);
    out
}

impl Lexicon {
    /// A word with its sounds as one token, and the context that it leaves.
    fn resolve_word(
        &self,
        w: Word,
        derive_unknown: bool,
        ctx: TokenContext,
        unknown: &mut Vec<String>,
    ) -> (r: (MToken, TokenContext))
        requires
            match w@ {
                WordView::One(_) => true,
                WordView::Many(g) => g.len() > 0,
            },
        ensures
            ({
                let (w2, c, u) = self@.resolved_word(
                    w@,
                    derive_unknown,
                    ctx,
                    strings(old(unknown)@),
                );
                r.0@ == flat_word(w2) && r.1 == c && strings(final(unknown)@) == u
            }),
    {
        match w {
            Word::One(t) => self.resolve_one(t, derive_unknown, ctx, unknown),
            Word::Many(group) => {
                let mut group = group;
                assert(mtokens(group@).len() == group@.len());
                let next = self.resolve_parts(&mut group, derive_unknown, ctx, unknown);
                resolve_tokens(&mut group);
                let n: usize = group.len();
                assert(mtokens(group@).subrange(0, n as int) =~= mtokens(group@));
                (merge_tokens(&group, 0, n, Some(UNK)), next)
            },
        }
    }
}

impl G2P {
    /// A tokenizer and a lexicon together, or nothing where the pattern of sub-tokens does not
    /// compile.
    pub fn new(tokenizer: Tokenizer, lexicon: Lexicon) -> (r: Option<G2P>)
        ensures
            match r {
                Some(g) => compiled(SUBTOKEN@) == Some(g@.subtoken) && g@.tokenizer == tokenizer@
                    && g@.lexicon == lexicon@,
                None => compiled(SUBTOKEN@) is None,
            },
    {
        match compile(SUBTOKEN) {
            Ok(subtoken) => Some(G2P { tokenizer, lexicon, subtoken }),
            Err(_) => None,
        }
    }

    /// The tokenizer.
    pub fn tokenizer(&self) -> (r: &Tokenizer)
        ensures
            r@ == self@.tokenizer,
    {
        &self.tokenizer
    }

    /// The string tables of the tokenizer, which the tagger needs.
    pub fn vocab(&self) -> (r: &Vocab)
        ensures
            r@ == self@.tokenizer.vocab,
    {
        self.tokenizer.vocab()
    }

    /// The tokens of a text without the white space at its start, to be tagged. Nothing where
    /// the infixes of a word are out of order or have no end.
    pub fn tokenize(&self, text: &str) -> (r: Option<Vec<Token>>)
        ensures
            match r {
                Some(v) => self@.tokenizer.tokens(text@.skip(leading_space(text@) as int)) == Some(
                    tokens_view(v@),
                ),
                None => self@.tokenizer.tokens(text@.skip(leading_space(text@) as int)) is None,
            },
    {
        self.tokenizer.tokenize(trim_start(text))
    }

    /// The words of tagged tokens with their sounds, each as one token, and the words that
    /// nothing could pronounce.
    fn resolve_words(&self, tokens: &Vec<MToken>, derive_unknown: bool) -> (r: Option<
        (Vec<MToken>, Vec<String>),
    >)
        ensures
            match r {
                Some(p) => self@.sounds(mtokens(tokens@), derive_unknown) == Some(
                    (mtokens(p.0@), strings(p.1@)),
                ),
                None => self@.sounds(mtokens(tokens@), derive_unknown) is None,
            },
    {
        let mut words = match retokenize(&self.subtoken, tokens) {
            Some(w) => w,
            None => {
                return None;
            },
        };
        let ghost all = words_view(words@);
        let mut ctx = TokenContext { future_vowel: None, future_to: false };
        let mut unknown: Vec<String> = Vec::new();
        let mut back: Vec<MToken> = Vec::new();
        let ghost goal = self@.lexicon.resolved_words(all, derive_unknown, ctx, Seq::empty());
        assert(strings(unknown@) =~= Seq::<Seq<char>>::empty());
        assert(all.take(all.len() as int) =~= all);
        assert(flat_words(goal.0) =~= flat_words(goal.0) + mtokens(back@).reverse());
        while words.len() > 0
            invariant
                words@.len() <= all.len(),
                words_view(words@) == all.take(words@.len() as int),
                no_empty_group(all),
                ({
                    let (rest, u) = self@.lexicon.resolved_words(
                        all.take(words@.len() as int),
                        derive_unknown,
                        ctx,
                        strings(unknown@),
                    );
                    u == goal.1 && flat_words(goal.0) == flat_words(rest) + mtokens(
                        back@,
                    ).reverse()
                }),
            decreases words.len(),
        {
            let ghost k = words@.len() - 1;
            let ghost ctx0 = ctx;
            let ghost unknown0 = strings(unknown@);
            let ghost back0 = mtokens(back@);
            let ghost before = all.take(k + 1);
            assert(before.drop_last() =~= all.take(k));
            assert(words_view(words@)[k] == words@[k]@);
            assert(before.last() == words@[k]@);
            match words.pop() {
                Some(w) => {
                    let ghost wv = w@;
                    assert(words_view(words@) =~= all.take(k));
                    assert(all[k] == wv);
                    let (t, c) = self.lexicon.resolve_word(w, derive_unknown, ctx, &mut unknown);
                    ctx = c;
                    let ghost v = t@;
                    back.push(t);
                    assert(mtokens(back@) =~= back0.push(v));
                    proof {
                        let (w2, c2, u2) = self@.lexicon.resolved_word(
                            wv,
                            derive_unknown,
                            ctx0,
                            unknown0,
                        );
                        assert(c2 == ctx && u2 == strings(unknown@));
                        let (rest, u) = self@.lexicon.resolved_words(
                            all.take(k),
                            derive_unknown,
                            ctx,
                            strings(unknown@),
                        );
                        assert(flat_words(rest.push(w2)) =~= flat_words(rest).push(v));
                        assert(back0.push(v).reverse() =~= seq![v] + back0.reverse());
                        assert(flat_words(rest).push(v) + back0.reverse() =~= flat_words(rest)
                            + back0.push(v).reverse());
                    }
                },
                None => {},
            }
        }
        proof {
            let (rest, u) = self@.lexicon.resolved_words(
                all.take(0),
                derive_unknown,
                ctx,
                strings(unknown@),
            );
            assert(flat_words(rest) =~= Seq::<MTokenView>::empty());
            assert(flat_words(goal.0) =~= mtokens(back@).reverse());
        }
        let out = turned(back);
        Some((out, unknown))
    }

    /// The phonemes of tagged tokens, the words that nothing could pronounce, and the bytes of
    /// each source word.
    fn run(&self, tokens: &Vec<Token>, tags: &Vec<String>, derive_unknown: bool) -> (r: Option<
        (String, Vec<String>, Vec<WordSpan>),
    >)
        ensures
            match r {
                Some(p) => {
                    let s = self@.sounds(
                        tagged_tokens(tokens_view(tokens@), strings(tags@)),
                        derive_unknown,
                    );
                    s is Some && p.0@ == phoneme_string(s.unwrap().0) && strings(p.1@)
                        == s.unwrap().1 && word_spans(p.2@) == spans_of_words(s.unwrap().0)
                },
                None => self@.sounds(
                    tagged_tokens(tokens_view(tokens@), strings(tags@)),
                    derive_unknown,
                ) is None,
            },
    {
        let tagged = tag_tokens(tokens, tags);
        match self.resolve_words(&tagged, derive_unknown) {
            None => None,
            Some(p) => {
                let (out, spans) = assemble(&p.0);
                Some((out, p.1, spans))
            },
        }
    }

    /// The phonemes of tagged tokens.
    pub fn phonemize(&self, tokens: &Vec<Token>, tags: &Vec<String>) -> (r: Option<String>)
        ensures
            ({
                let s = self@.sounds(tagged_tokens(tokens_view(tokens@), strings(tags@)), true);
                match r {
                    Some(ps) => s is Some && ps@ == phoneme_string(s.unwrap().0),
                    None => s is None,
                }
            }),
    {
        match self.run(tokens, tags, true) {
            Some(p) => Some(p.0),
            None => None,
        }
    }

    /// The phonemes, and which bytes of them each source word produced.
    ///
    /// The spans are what makes alignment free: a model that predicts a length for every
    /// phoneme then has a clock of words without a second model or a second pass.
    pub fn phonemize_spans(&self, tokens: &Vec<Token>, tags: &Vec<String>) -> (r: Option<
        (String, Vec<WordSpan>),
    >)
        ensures
            ({
                let s = self@.sounds(tagged_tokens(tokens_view(tokens@), strings(tags@)), true);
                match r {
                    Some(p) => s is Some && p.0@ == phoneme_string(s.unwrap().0) && word_spans(
                        p.1@,
                    ) == spans_of_words(s.unwrap().0),
                    None => s is None,
                }
            }),
    {
        match self.run(tokens, tags, true) {
            Some(p) => Some((p.0, p.2)),
            None => None,
        }
    }

    /// The phonemes with nothing derived.
    pub fn phonemize_strict(&self, tokens: &Vec<Token>, tags: &Vec<String>) -> (r: Option<String>)
        ensures
            ({
                let s = self@.sounds(tagged_tokens(tokens_view(tokens@), strings(tags@)), false);
                match r {
                    Some(ps) => s is Some && ps@ == phoneme_string(s.unwrap().0),
                    None => s is None,
                }
            }),
    {
        match self.run(tokens, tags, false) {
            Some(p) => Some(p.0),
            None => None,
        }
    }

    /// The phonemes, and the words that nothing could pronounce: a lint rather than a guess.
    pub fn phonemize_report(&self, tokens: &Vec<Token>, tags: &Vec<String>) -> (r: Option<
        (String, Vec<String>),
    >)
        ensures
            ({
                let s = self@.sounds(tagged_tokens(tokens_view(tokens@), strings(tags@)), true);
                match r {
                    Some(p) => s is Some && p.0@ == phoneme_string(s.unwrap().0) && strings(p.1@)
                        == s.unwrap().1,
                    None => s is None,
                }
            }),
    {
        match self.run(tokens, tags, true) {
            Some(p) => Some((p.0, p.1)),
            None => None,
        }
    }
}

/// A list turned round.
fn turned(v: Vec<MToken>) -> (r: Vec<MToken>)
    ensures
        mtokens(r@) == mtokens(v@).reverse(),
{
    let ghost all = mtokens(v@);
    let mut v = v;
    let mut out: Vec<MToken> = Vec::new();
    assert(mtokens(out@) =~= all.skip(all.len() as int).reverse());
    while v.len() > 0
        invariant
            v@.len() <= all.len(),
            mtokens(v@) == all.take(v@.len() as int),
            mtokens(out@) == all.skip(v@.len() as int).reverse(),
        decreases v.len(),
    {
        let ghost k = v@.len() - 1;
        let ghost o = mtokens(out@);
        assert(mtokens(v@)[k] == all[k]);
        assert(mtokens(v@)[k] == v@[k]@);
        match v.pop() {
            Some(t) => {
                assert(mtokens(v@) =~= all.take(k));
                let ghost tv = t@;
                out.push(t);
                assert(mtokens(out@) =~= o.push(tv));
                assert(all.skip(k).reverse() =~= all.skip(k + 1).reverse().push(all[k]));
            },
            None => {},
        }
    }
    assert(all.skip(0) =~= all);
    out
}

} // verus!
