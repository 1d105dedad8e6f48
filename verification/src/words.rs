//! The phonemes of a word in its place: hand-written exceptions first, then the lexicon,
//! then the endings.

use crate::lexicon::{
    add_symbol, address_symbol_word, coarse_tag, hit_view, opt_chars, symbol, symbol_word, Entry,
    EntryView, Hit, Lexicon, LexiconView, TokenContext,
};
use crate::stress::{LIFT, SOFTEN};
use crate::text::{
    cat, chars_of, ends_with, ends_with_char, head_of, starts_with, str_eq, tail_of,
};
use crate::unicode::{alphabetic, is_alphabetic, lower, lowercase, upper, uppercase};
use vstd::prelude::*;
use vstd::string::*;

verus! {

/// Letters set apart by dots, like "U.S.": a dot with letters on both sides, and never
/// three letters in a row.
pub open spec fn initials(word: Seq<char>) -> bool {
    &&& exists|a: int, b: int, c: int|
        0 <= a < b < c < word.len() && #[trigger] word[a] != '.' && #[trigger] word[b] == '.'
            && #[trigger] word[c] != '.'
    &&& forall|i: int| 0 <= i < word.len() ==> #[trigger] word[i] == '.' || alphabetic(word[i])
    &&& forall|i: int|
        0 <= i < word.len() - 2 ==> #[trigger] word[i] == '.' || word[i + 1] == '.' || word[i + 2]
            == '.'
}

/// Letters and apostrophes, with at least one letter.
pub open spec fn letters_and_apostrophes(word: Seq<char>) -> bool {
    &&& forall|i: int| 0 <= i < word.len() ==> #[trigger] word[i] == '\'' || alphabetic(word[i])
    &&& exists|i: int| 0 <= i < word.len() && #[trigger] word[i] != '\''
}

/// One of the three spellings of a word: small, capitalised, in capitals.
pub open spec fn one_of(word: Seq<char>, a: Seq<char>, b: Seq<char>, c: Seq<char>) -> bool {
    word == a || word == b || word == c
}

/// A trusted hit.
pub open spec fn sure(ps: Seq<char>) -> Option<(Seq<char>, u8)> {
    Some((ps, 4u8))
}

/// A trusted hit, where there are phonemes.
pub open spec fn surely(ps: Option<Seq<char>>) -> Option<(Seq<char>, u8)> {
    match ps {
        Some(p) => Some((p, 4u8)),
        None => None,
    }
}

/// "the" before a vowel and before anything else.
pub open spec fn the_phonemes(ctx: TokenContext) -> Seq<char> {
    if ctx.future_vowel == Some(true) {
        "ði"@
    } else {
        "ðə"@
    }
}

/// "in", stressed at the end of a clause and where it is no preposition.
pub open spec fn in_phonemes(tag: Seq<char>, ctx: TokenContext) -> Seq<char> {
    if ctx.future_vowel is None || tag != "IN"@ {
        "ˈɪn"@
    } else {
        "ɪn"@
    }
}

impl LexiconView {
    /// "to" at the end of a clause, before a consonant and before a vowel.
    pub open spec fn to_phonemes(self, ctx: TokenContext) -> Option<Seq<char>> {
        match ctx.future_vowel {
            None => self.gold_word("to"@),
            Some(false) => Some("tə"@),
            Some(true) => Some("tʊ"@),
        }
    }

    /// "used" as in "used to", and as in "used up".
    pub open spec fn used_phonemes(self, tag: Seq<char>, ctx: TokenContext) -> Option<Seq<char>> {
        let key = if (tag == "VBD"@ || tag == "JJ"@) && ctx.future_to {
            "VBD"@
        } else {
            "DEFAULT"@
        };
        if self.golds.contains_key("used"@) {
            match self.golds["used"@] {
                EntryView::Word(_) => None,
                EntryView::Tagged(m) => if m.contains_key(key) {
                    m[key]
                } else {
                    None
                },
            }
        } else {
            None
        }
    }

    /// The hand-written exceptions, in their order.
    pub open spec fn special_case(
        self,
        word: Seq<char>,
        tag: Seq<char>,
        stress: Option<i32>,
        ctx: TokenContext,
    ) -> Option<(Seq<char>, u8)> {
        let noun = "NN"@.is_prefix_of(tag);
        if tag == "ADD"@ && address_symbol_word(word) is Some {
            self.lookup(address_symbol_word(word).unwrap(), ""@, Some(SOFTEN), Some(ctx))
        } else if symbol_word(word) is Some {
            self.lookup(symbol_word(word).unwrap(), ""@, None, Some(ctx))
        } else if initials(word) {
            self.spelt(word)
        } else if word == "a"@ || word == "A"@ {
            if tag == "DT"@ {
                sure("ɐ"@)
            } else {
                sure("ˈA"@)
            }
        } else if one_of(word, "am"@, "Am"@, "AM"@) {
            if noun {
                self.spelt(word)
            } else if ctx.future_vowel is None || word != "am"@ || (stress is Some
                && stress.unwrap() > 0) {
                surely(self.gold_word("am"@))
            } else {
                sure("ɐm"@)
            }
        } else if one_of(word, "an"@, "An"@, "AN"@) {
            if word == "AN"@ && noun {
                self.spelt(word)
            } else {
                sure("ɐn"@)
            }
        } else if word == "I"@ && tag == "PRP"@ {
            sure("ˌI"@)
        } else if one_of(word, "by"@, "By"@, "BY"@) && coarse_tag(tag) == "ADV"@ {
            sure("bˈI"@)
        } else if word == "to"@ || word == "To"@ || (word == "TO"@ && (tag == "TO"@ || tag
            == "IN"@)) {
            surely(self.to_phonemes(ctx))
        } else if word == "in"@ || word == "In"@ || (word == "IN"@ && tag != "NNP"@) {
            sure(in_phonemes(tag, ctx))
        } else if word == "the"@ || word == "The"@ || (word == "THE"@ && tag == "DT"@) {
            sure(the_phonemes(ctx))
        } else if one_of(word, "used"@, "Used"@, "USED"@) {
            surely(self.used_phonemes(tag, ctx))
        } else if tag == "IN"@ && (lowercase(word) == "vs"@ || lowercase(word) == "vs."@) {
            self.lookup("versus"@, ""@, None, Some(ctx))
        } else {
            None
        }
    }

    /// Whether a capitalised or shouted word that is not listed is better read in small
    /// letters.
    pub open spec fn better_small(
        self,
        word: Seq<char>,
        tag: Seq<char>,
        stress: Option<i32>,
        ctx: TokenContext,
    ) -> bool {
        let small = lowercase(word);
        &&& word.len() > 1
        &&& letters_and_apostrophes(word)
        &&& word != small
        &&& tag != "NNP"@ || word.len() > 7
        &&& !self.golds.contains_key(word)
        &&& !self.silvers.contains_key(word)
        &&& word == uppercase(word) || word.skip(1) == lowercase(word.skip(1))
        &&& self.golds.contains_key(small) || self.silvers.contains_key(small) || self.stem_s(
            small,
            tag,
            stress,
            Some(ctx),
        ) is Some || self.stem_ed(small, tag, stress, Some(ctx)) is Some || self.stem_ing(
            small,
            tag,
            stress,
            Some(ctx),
        ) is Some
    }

    /// A word under its known spelling: as it is, with "s'" read as "'s", or without the
    /// apostrophe at its end.
    pub open spec fn known_spelling(self, word: Seq<char>) -> Option<Seq<char>> {
        if self.known(word) {
            Some(word)
        } else if "s'"@.is_suffix_of(word) && self.known(word.take(word.len() - 2) + "'s"@) {
            Some(word.take(word.len() - 2) + "'s"@)
        } else if word.len() > 0 && word.last() == '\'' && self.known(word.drop_last()) {
            Some(word.drop_last())
        } else {
            None
        }
    }

    /// The phonemes of a word with a tag, under a stress, in its context.
    pub open spec fn word(
        self,
        word: Seq<char>,
        tag: Seq<char>,
        stress: Option<i32>,
        ctx: TokenContext,
    ) -> Option<(Seq<char>, u8)> {
        let special = self.special_case(word, tag, stress, ctx);
        let w = if self.better_small(word, tag, stress, ctx) {
            lowercase(word)
        } else {
            word
        };
        if special is Some {
            special
        } else {
            match self.known_spelling(w) {
                Some(k) => self.lookup(k, tag, stress, Some(ctx)),
                None => {
                    let s = self.stem_s(w, tag, stress, Some(ctx));
                    let ed = self.stem_ed(w, tag, stress, Some(ctx));
                    if s is Some {
                        s
                    } else if ed is Some {
                        ed
                    } else if stress is Some {
                        self.stem_ing(w, tag, stress, Some(ctx))
                    } else {
                        self.stem_ing(w, tag, Some(LIFT), Some(ctx))
                    }
                },
            }
        }
    }
}

fn are_initials(word: &str) -> (r: bool)
    ensures
        r == initials(word@),
{
    let c = chars_of(word);
    let n: usize = c.len();
    let mut i: usize = 0;
    // 0: no letter yet, 1: a letter, 2: a dot behind a letter, 3: a letter behind that.
    let mut stage: u8 = 0;
    let ghost mut a: int = 0;
    let ghost mut b: int = 0;
    let ghost mut d: int = 0;
    let mut run: usize = 0;
    while i < n
        invariant
            i <= n == c@.len(),
            c@ == word@,
            stage <= 3,
            run <= i,
            forall|k: int| 0 <= k < i ==> #[trigger] c@[k] == '.' || alphabetic(c@[k]),
            forall|k: int|
                0 <= k < i - 2 ==> #[trigger] c@[k] == '.' || c@[k + 1] == '.' || c@[k + 2] == '.',
            run <= 2,
            forall|k: int| i - run <= k < i ==> c@[k] != '.',
            run < i ==> c@[i - run - 1] == '.',
            stage == 0 ==> forall|k: int| 0 <= k < i ==> c@[k] == '.',
            stage >= 1 ==> 0 <= a < i && c@[a] != '.',
            stage == 1 ==> forall|k: int| a <= k < i ==> c@[k] != '.',
            stage == 1 ==> forall|k: int| 0 <= k < a ==> c@[k] == '.',
            stage >= 2 ==> a < b < i && c@[b] == '.',
            stage == 2 ==> forall|k: int| b <= k < i ==> c@[k] == '.',
            stage == 2 ==> forall|k: int| a <= k < b ==> c@[k] != '.',
            stage == 2 ==> forall|k: int| 0 <= k < a ==> c@[k] == '.',
            stage == 3 ==> b < d < i && c@[d] != '.',
        decreases n - i,
    {
        if c[i] == '.' {
            run = 0;
            if stage == 1 {
                stage = 2;
                proof {
                    b = i as int;
                }
            }
        } else {
            if !is_alphabetic(c[i]) {
                assert(c@[i as int] != '.' && !alphabetic(c@[i as int]));
                return false;
            }
            if run == 2 {
                assert(c@[i - 2] != '.' && c@[i - 2 + 1] != '.' && c@[i - 2 + 2] != '.');
                return false;
            }
            run = run + 1;
            if stage == 0 {
                stage = 1;
                proof {
                    a = i as int;
                }
            } else if stage == 2 {
                stage = 3;
                proof {
                    d = i as int;
                }
            }
        }
        i = i + 1;
    }
    if stage == 3 {
        assert(c@[a] != '.' && c@[b] == '.' && c@[d] != '.');
    }
    stage == 3
}

fn are_letters_and_apostrophes(word: &str) -> (r: bool)
    ensures
        r == letters_and_apostrophes(word@),
{
    let c = chars_of(word);
    let mut letter = false;
    let mut i: usize = 0;
    while i < c.len()
        invariant
            i <= c@.len(),
            c@ == word@,
            forall|k: int| 0 <= k < i ==> #[trigger] c@[k] == '\'' || alphabetic(c@[k]),
            letter == exists|k: int| 0 <= k < i && #[trigger] c@[k] != '\'',
        decreases c.len() - i,
    {
        if c[i] != '\'' {
            if !is_alphabetic(c[i]) {
                assert(c@[i as int] != '\'' && !alphabetic(c@[i as int]));
                return false;
            }
            letter = true;
            assert(c@[i as int] != '\'');
        }
        i = i + 1;
    }
    letter
}

fn is_one_of(word: &str, a: &str, b: &str, c: &str) -> (r: bool)
    ensures
        r == one_of(word@, a@, b@, c@),
{
    str_eq(word, a) || str_eq(word, b) || str_eq(word, c)
}

fn trusted(ps: &str) -> (r: Option<Hit>)
    ensures
        hit_view(r) == sure(ps@),
{
    Some((ps.to_owned(), 4))
}

fn trusted_if(ps: Option<String>) -> (r: Option<Hit>)
    ensures
        hit_view(r) == surely(opt_chars(ps)),
{
    match ps {
        Some(p) => Some((p, 4)),
        None => None,
    }
}

impl Lexicon {
    /// The phonemes of the verb and the adjective "used".
    fn used(&self, tag: &str, ctx: TokenContext) -> (r: Option<String>)
        ensures
            opt_chars(r) == self@.used_phonemes(tag@, ctx),
    {
        let key = if (str_eq(tag, "VBD") || str_eq(tag, "JJ")) && ctx.future_to {
            "VBD"
        } else {
            "DEFAULT"
        };
        match self.gold("used") {
            Some(Entry::Tagged(v)) => match Entry::tagged(v, key) {
                Some(p) => p,
                None => None,
            },
            _ => None,
        }
    }

    fn to_phonemes(&self, ctx: TokenContext) -> (r: Option<String>)
        ensures
            opt_chars(r) == self@.to_phonemes(ctx),
    {
        match ctx.future_vowel {
            None => self.gold_str("to"),
            Some(vowel) => if vowel {
                Some("tʊ".to_owned())
            } else {
                Some("tə".to_owned())
            },
        }
    }

    /// The hand-written exceptions, in their order. Several depend on the token to the
    /// right, which is why a sentence is walked backwards.
    pub(crate) fn get_special_case(
        &self,
        word: &str,
        tag: &str,
        stress: Option<i32>,
        ctx: TokenContext,
    ) -> (r: Option<Hit>)
        ensures
            hit_view(r) == self@.special_case(word@, tag@, stress, ctx),
    {
        if str_eq(tag, "ADD") {
            match add_symbol(word) {
                Some(name) => {
                    return self.lookup(name, "", Some(SOFTEN), Some(ctx));
                },
                None => {},
            }
        }
        match symbol(word) {
            Some(name) => {
                return self.lookup(name, "", None, Some(ctx));
            },
            None => {},
        }
        if are_initials(word) {
            return self.get_nnp(word);
        }
        let noun = starts_with(tag, "NN");
        if str_eq(word, "a") || str_eq(word, "A") {
            if str_eq(tag, "DT") {
                return trusted("ɐ");
            }
            return trusted("ˈA");
        }
        if is_one_of(word, "am", "Am", "AM") {
            if noun {
                return self.get_nnp(word);
            }
            let raised = match stress {
                Some(h) => h > 0,
                None => false,
            };
            if ctx.future_vowel.is_none() || !str_eq(word, "am") || raised {
                return trusted_if(self.gold_str("am"));
            }
            return trusted("ɐm");
        }
        if is_one_of(word, "an", "An", "AN") {
            if str_eq(word, "AN") && noun {
                return self.get_nnp(word);
            }
            return trusted("ɐn");
        }
        if str_eq(word, "I") && str_eq(tag, "PRP") {
            return trusted("ˌI");
        }
        if is_one_of(word, "by", "By", "BY") && str_eq(Self::parent_tag(tag), "ADV") {
            return trusted("bˈI");
        }
        if str_eq(word, "to") || str_eq(word, "To") || (str_eq(word, "TO") && (str_eq(tag, "TO")
            || str_eq(tag, "IN"))) {
            return trusted_if(self.to_phonemes(ctx));
        }
        if str_eq(word, "in") || str_eq(word, "In") || (str_eq(word, "IN") && !str_eq(tag, "NNP")) {
            if ctx.future_vowel.is_none() || !str_eq(tag, "IN") {
                return trusted("ˈɪn");
            }
            return trusted("ɪn");
        }
        if str_eq(word, "the") || str_eq(word, "The") || (str_eq(word, "THE") && str_eq(
            tag,
            "DT",
        )) {
            let vowel = match ctx.future_vowel {
                Some(v) => v,
                None => false,
            };
            if vowel {
                return trusted("ði");
            }
            return trusted("ðə");
        }
        if is_one_of(word, "used", "Used", "USED") {
            return trusted_if(self.used(tag, ctx));
        }
        if str_eq(tag, "IN") {
            let small = lower(word);
            if str_eq(small.as_str(), "vs") || str_eq(small.as_str(), "vs.") {
                return self.lookup("versus", "", None, Some(ctx));
            }
        }
        None
    }

    /// Whether a word is better read in small letters.
    fn reads_better_small(
        &self,
        word: &str,
        small: &str,
        tag: &str,
        stress: Option<i32>,
        ctx: TokenContext,
    ) -> (r: bool)
        requires
            small@ == lowercase(word@),
        ensures
            r == self@.better_small(word@, tag@, stress, ctx),
    {
        let n: usize = word.unicode_len();
        if n <= 1 || !are_letters_and_apostrophes(word) || str_eq(word, small) {
            return false;
        }
        if str_eq(tag, "NNP") && n <= 7 {
            return false;
        }
        if self.has_gold(word) || self.has_silver(word) {
            return false;
        }
        let big = upper(word);
        if !str_eq(word, big.as_str()) {
            let tail = tail_of(word, 1);
            let small_tail = lower(tail);
            if !str_eq(tail, small_tail.as_str()) {
                return false;
            }
        }
        self.has_gold(small) || self.has_silver(small) || self.stem_s(
            small,
            tag,
            stress,
            Some(ctx),
        ).is_some() || self.stem_ed(small, tag, stress, Some(ctx)).is_some() || self.stem_ing(
            small,
            tag,
            stress,
            Some(ctx),
        ).is_some()
    }

    /// A word under its known spelling.
    fn find_spelling(&self, word: &str) -> (r: Option<String>)
        ensures
            opt_chars(r) == self@.known_spelling(word@),
    {
        if self.is_known(word) {
            return Some(word.to_owned());
        }
        let n: usize = word.unicode_len();
        if ends_with(word, "s'") {
            proof {
                reveal_strlit("s'");
            }
            let alt = cat(head_of(word, n - 2), "'s");
            if self.is_known(alt.as_str()) {
                return Some(alt);
            }
        }
        if ends_with_char(word, '\'') {
            let alt = head_of(word, n - 1);
            assert(alt@ =~= word@.drop_last());
            if self.is_known(alt) {
                return Some(alt.to_owned());
            }
        }
        None
    }

    /// The phonemes of a word with a tag, under a stress, in its context.
    pub fn get_word(
        &self,
        word: &str,
        tag: &str,
        stress: Option<i32>,
        ctx: TokenContext,
    ) -> (r: Option<Hit>)
        ensures
            hit_view(r) == self@.word(word@, tag@, stress, ctx),
    {
        match self.get_special_case(word, tag, stress, ctx) {
            Some(hit) => {
                return Some(hit);
            },
            None => {},
        }
        let small = lower(word);
        let w = if self.reads_better_small(word, small.as_str(), tag, stress, ctx) {
            small
        } else {
            word.to_owned()
        };
        match self.find_spelling(w.as_str()) {
            Some(k) => {
                return self.lookup(k.as_str(), tag, stress, Some(ctx));
            },
            None => {},
        }
        match self.stem_s(w.as_str(), tag, stress, Some(ctx)) {
            Some(hit) => {
                return Some(hit);
            },
            None => {},
        }
        match self.stem_ed(w.as_str(), tag, stress, Some(ctx)) {
            Some(hit) => {
                return Some(hit);
            },
            None => {},
        }
        if stress.is_some() {
            self.stem_ing(w.as_str(), tag, stress, Some(ctx))
        } else {
            self.stem_ing(w.as_str(), tag, Some(LIFT), Some(ctx))
        }
    }
}

} // verus!
