//! What holds of every lexicon.

use crate::g2p::sounded;
use crate::lexicon::{
    address_symbol_word, grown, listed, other_spelling, other_spellings, symbol_word, EntryView,
    LexiconView, TokenContext,
};
use crate::mtoken::MTokenView;
use crate::number_laws::thousands;
use crate::num2words::{
    cardinal_words, words_of_groups, words_of_natural, words_under_100, words_under_1000, ONES, SCALES,
    TENS,
};
use crate::resolve::{first_voiced, resolved_stress, tidy, voiced_found};
use crate::stress::{without_marks, LIFT, SOFTEN};
use crate::stress_laws::stress_keeps_phonemes;
use crate::text::is_small;
use crate::unicode::lowercase;
use vstd::prelude::*;

verus! {

/// A word that a raw list names keeps the entry that the list gives it last.
pub proof fn listed_words_win(d: Seq<(Seq<char>, EntryView)>, k: Seq<char>)
    requires
        listed(d).contains_key(k),
    ensures
        grown(d).contains_key(k),
        grown(d)[k] == listed(d)[k],
{
}

/// The second spelling of every listed word is in the grown list.
pub proof fn second_spellings_are_there(d: Seq<(Seq<char>, EntryView)>, i: int)
    requires
        0 <= i < d.len(),
        other_spelling(d[i].0) is Some,
    ensures
        grown(d).contains_key(other_spelling(d[i].0).unwrap()),
    decreases d.len(),
{
    second_spelling_found(d, i);
}

proof fn second_spelling_found(d: Seq<(Seq<char>, EntryView)>, i: int)
    requires
        0 <= i < d.len(),
        other_spelling(d[i].0) is Some,
    ensures
        other_spellings(d).contains_key(other_spelling(d[i].0).unwrap()),
    decreases d.len(),
{
    if i < d.len() - 1 {
        assert(d.drop_last()[i] == d[i]);
        second_spelling_found(d.drop_last(), i);
    }
}

impl LexiconView {
    /// A listed word can be looked up.
    pub proof fn listed_words_are_known(self, word: Seq<char>)
        requires
            self.listed_word(word),
        ensures
            self.known(word),
    {
    }

    /// Derivation runs only where the lexicon gave up: a token that has a sound, or that the
    /// lexicon has one for, comes out the same whether or not words are derived.
    pub proof fn derivation_is_a_last_resort(
        self,
        t: MTokenView,
        ctx: TokenContext,
        unknown: Seq<Seq<char>>,
    )
        requires
            t.phonemes is Some || self.token_hit(t, ctx) is Some,
        ensures
            self.resolved_one(t, true, ctx, unknown) == self.resolved_one(t, false, ctx, unknown),
            self.resolved_one(t, true, ctx, unknown).2 == unknown,
    {
    }

    /// Where nothing is derived, a token keeps no sound that the lexicon did not give it.
    pub proof fn strict_means_nothing_derived(
        self,
        t: MTokenView,
        ctx: TokenContext,
        unknown: Seq<Seq<char>>,
    )
        requires
            t.phonemes is None,
        ensures
            self.resolved_one(t, false, ctx, unknown).0 == sounded(t, self.token_hit(t, ctx)),
    {
    }
}

/// A rating of the lexicon itself.
pub open spec fn rated_by_lexicon(h: Option<(Seq<char>, u8)>) -> bool {
    h is Some ==> h.unwrap().1 == 3 || h.unwrap().1 == 4
}

impl LexiconView {
    proof fn lookups_are_rated(
        self,
        word: Seq<char>,
        tag: Seq<char>,
        stress: Option<i32>,
        ctx: Option<TokenContext>,
    )
        ensures
            rated_by_lexicon(self.lookup(word, tag, stress, ctx)),
            rated_by_lexicon(self.stem_s(word, tag, stress, ctx)),
            rated_by_lexicon(self.stem_ed(word, tag, stress, ctx)),
            rated_by_lexicon(self.stem_ing(word, tag, stress, ctx)),
    {
    }

    proof fn special_cases_are_rated(
        self,
        word: Seq<char>,
        tag: Seq<char>,
        stress: Option<i32>,
        ctx: TokenContext,
    )
        ensures
            rated_by_lexicon(self.special_case(word, tag, stress, ctx)),
    {
        if tag == "ADD"@ && address_symbol_word(word) is Some {
            self.lookups_are_rated(
                address_symbol_word(word).unwrap(),
                ""@,
                Some(SOFTEN),
                Some(ctx),
            );
        } else if symbol_word(word) is Some {
            self.lookups_are_rated(symbol_word(word).unwrap(), ""@, None, Some(ctx));
        } else {
            self.lookups_are_rated("versus"@, ""@, None, Some(ctx));
        }
    }

    /// A hit of the lexicon is listed or spelt out, and rated so; a derivation is rated below
    /// both.
    pub proof fn ratings_tell_the_source(
        self,
        word: Seq<char>,
        tag: Seq<char>,
        stress: Option<i32>,
        ctx: TokenContext,
    )
        ensures
            rated_by_lexicon(self.word(word, tag, stress, ctx)),
            self.derived(word) is Some ==> self.derived(word).unwrap().1 == 2,
    {
        self.special_cases_are_rated(word, tag, stress, ctx);
        let w = if self.better_small(word, tag, stress, ctx) {
            lowercase(word)
        } else {
            word
        };
        match self.known_spelling(w) {
            Some(k) => {
                self.lookups_are_rated(k, tag, stress, Some(ctx));
            },
            None => {
                self.lookups_are_rated(w, tag, stress, Some(ctx));
                self.lookups_are_rated(w, tag, Some(LIFT), Some(ctx));
            },
        }
    }
}

/// Letters, spaces, hyphens and commas.
pub open spec fn number_text(s: Seq<char>) -> bool {
    forall|i: int|
        0 <= i < s.len() ==> is_small(#[trigger] s[i]) || s[i] == ' ' || s[i] == '-' || s[i] == ','
}

proof fn number_text_sum(a: Seq<char>, b: Seq<char>)
    requires
        number_text(a),
        number_text(b),
    ensures
        number_text(a + b),
{
    let s = a + b;
    assert forall|i: int| 0 <= i < s.len() implies is_small(#[trigger] s[i]) || s[i] == ' ' || s[i]
        == '-' || s[i] == ',' by {
        if i < a.len() {
            assert(s[i] == a[i]);
        } else {
            assert(s[i] == b[i - a.len()]);
        }
    }
}

proof fn ones_text(v: int)
    requires
        0 <= v < 20,
    ensures
        number_text(ONES@[v]@),
        ONES@[v]@.len() > 0,
{
    reveal_strlit("zero");
    reveal_strlit("one");
    reveal_strlit("two");
    reveal_strlit("three");
    reveal_strlit("four");
    reveal_strlit("five");
    reveal_strlit("six");
    reveal_strlit("seven");
    reveal_strlit("eight");
    reveal_strlit("nine");
    reveal_strlit("ten");
    reveal_strlit("eleven");
    reveal_strlit("twelve");
    reveal_strlit("thirteen");
    reveal_strlit("fourteen");
    reveal_strlit("fifteen");
    reveal_strlit("sixteen");
    reveal_strlit("seventeen");
    reveal_strlit("eighteen");
    reveal_strlit("nineteen");
}

proof fn tens_text(v: int)
    requires
        2 <= v < 10,
    ensures
        number_text(TENS@[v]@),
{
    reveal_strlit("twenty");
    reveal_strlit("thirty");
    reveal_strlit("forty");
    reveal_strlit("fifty");
    reveal_strlit("sixty");
    reveal_strlit("seventy");
    reveal_strlit("eighty");
    reveal_strlit("ninety");
}

proof fn scales_text(v: int)
    requires
        1 <= v < 7,
    ensures
        number_text(SCALES@[v]@),
{
    reveal_strlit("thousand");
    reveal_strlit("million");
    reveal_strlit("billion");
    reveal_strlit("trillion");
    reveal_strlit("quadrillion");
    reveal_strlit("quintillion");
}

proof fn joints_text()
    ensures
        number_text("-"@),
        number_text(" "@),
        number_text(", "@),
        number_text(" and "@),
        number_text(" hundred"@),
        number_text("minus "@),
{
    reveal_strlit("-");
    reveal_strlit(" ");
    reveal_strlit(", ");
    reveal_strlit(" and ");
    reveal_strlit(" hundred");
    reveal_strlit("minus ");
}

proof fn under_100_text(v: int)
    requires
        0 <= v < 100,
    ensures
        number_text(words_under_100(v)),
{
    joints_text();
    ones_text(v % 10);
    if v < 20 {
        ones_text(v);
    } else {
        tens_text(v / 10);
        number_text_sum(TENS@[v / 10]@, "-"@);
        number_text_sum(TENS@[v / 10]@ + "-"@, ONES@[v % 10]@);
    }
}

proof fn under_1000_text(v: int)
    requires
        0 <= v < 1000,
    ensures
        number_text(words_under_1000(v)),
{
    joints_text();
    under_100_text(v % 100);
    ones_text(v / 100);
    let hundred = ONES@[v / 100]@ + " hundred"@;
    number_text_sum(ONES@[v / 100]@, " hundred"@);
    number_text_sum(hundred, " and "@);
    number_text_sum(hundred + " and "@, words_under_100(v % 100));
}

proof fn groups_text(v: int, scale: int)
    requires
        1 <= scale < 7,
        0 <= v < thousands((7 - scale) as nat),
    ensures
        number_text(words_of_groups(v, scale)),
    decreases v,
{
    joints_text();
    under_1000_text(v % 1000);
    scales_text(scale);
    let part = words_under_1000(v % 1000) + " "@ + SCALES@[scale]@;
    number_text_sum(words_under_1000(v % 1000), " "@);
    number_text_sum(words_under_1000(v % 1000) + " "@, SCALES@[scale]@);
    if v >= 1000 {
        assert(thousands((7 - scale) as nat) == 1000 * thousands((6 - scale) as nat));
        assert(thousands(0) == 1);
        groups_text(v / 1000, scale + 1);
        let head = words_of_groups(v / 1000, scale + 1);
        number_text_sum(head, ", "@);
        number_text_sum(head + ", "@, part);
    }
}

/// The words of a number are made of small letters, spaces, hyphens and commas, so that
/// splitting them on everything outside `a` to `z` leaves words.
pub proof fn cardinals_are_words(n: i64)
    requires
        n != i64::MIN,
    ensures
        number_text(cardinal_words(n as int)),
{
    let v = if n < 0 {
        -n
    } else {
        n as int
    };
    joints_text();
    under_1000_text(v % 1000);
    if v >= 1000 {
        reveal_with_fuel(thousands, 7);
        groups_text(v / 1000, 1);
        let head = words_of_groups(v / 1000, 1);
        number_text_sum(head, " and "@);
        number_text_sum(head, ", "@);
        number_text_sum(head + " and "@, words_under_1000(v % 1000));
        number_text_sum(head + ", "@, words_under_1000(v % 1000));
    }
    number_text_sum("minus "@, words_of_natural(v));
}

/// A negative number is "minus" and the words of its opposite.
pub proof fn negatives_begin_with_minus(n: i64)
    requires
        i64::MIN < n < 0,
    ensures
        cardinal_words(n as int) == "minus "@ + cardinal_words(-n),
{
}

/// The phonemes of a part, where it has any, without its stress marks.
pub open spec fn bare_sound(t: MTokenView) -> Option<Seq<char>> {
    match t.phonemes {
        Some(p) => Some(without_marks(p)),
        None => None,
    }
}

/// Settling the stress of a word moves no phoneme: a part that has a sound keeps it but for
/// the stress marks, and every part keeps its text.
pub proof fn settling_stress_keeps_phonemes(group: Seq<MTokenView>, i: int)
    requires
        0 <= i < group.len(),
    ensures
        resolved_stress(group).len() == group.len(),
        resolved_stress(group)[i].text == group[i].text,
        group[i].phonemes is Some ==> bare_sound(resolved_stress(group)[i]) == bare_sound(group[i]),
{
    reveal(resolved_stress);
    let apart = crate::resolve::spoken_apart(crate::mtoken::spanned(group));
    let neat = tidy(group, apart);
    assert(neat[i] == crate::resolve::tidied(group, i, apart));
    voiced_found(neat, 0);
    if first_voiced(neat, 0) < neat.len() {
        voiced_found(neat, first_voiced(neat, 0) + 1);
    }
    if neat[i].phonemes is Some {
        stress_keeps_phonemes(
            neat[i].phonemes.unwrap(),
            Some(crate::stress::SOFTEN),
        );
    }
}

} // verus!
