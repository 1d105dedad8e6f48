//! Inflected words: the endings -s, -ed and -ing on a word that the lexicon knows.

use crate::lexicon::{hit_view, opt_chars, Hit, Lexicon, LexiconView, TokenContext};
use crate::stress::US_TAUS;
use crate::text::{
    cat, chars_of, contains_char, ends_with, ends_with_char, head_of, last_char, string_of,
};
use vstd::prelude::*;
use vstd::string::*;

verus! {

/// The plural or third person of a phoneme string: https://en.wiktionary.org/wiki/-s
pub open spec fn with_s(british: bool, stem: Seq<char>) -> Option<Seq<char>> {
    if stem.len() == 0 {
        None
    } else if "ptkfθ"@.contains(stem.last()) {
        Some(stem + "s"@)
    } else if "szʃʒʧʤ"@.contains(stem.last()) {
        if british {
            Some(stem + "ɪz"@)
        } else {
            Some(stem + "ᵻz"@)
        }
    } else {
        Some(stem + "z"@)
    }
}

/// The past tense of a phoneme string: https://en.wiktionary.org/wiki/-ed
pub open spec fn with_ed(british: bool, stem: Seq<char>) -> Option<Seq<char>> {
    if stem.len() == 0 {
        None
    } else if "pkfθʃsʧ"@.contains(stem.last()) {
        Some(stem + "t"@)
    } else if stem.last() == 'd' {
        if british {
            Some(stem + "ɪd"@)
        } else {
            Some(stem + "ᵻd"@)
        }
    } else if stem.last() != 't' {
        Some(stem + "d"@)
    } else if british || stem.len() < 2 {
        Some(stem + "ɪd"@)
    } else if US_TAUS@.contains(stem[stem.len() - 2]) {
        Some(stem.drop_last() + "ɾᵻd"@)
    } else {
        Some(stem + "ᵻd"@)
    }
}

/// The participle of a phoneme string: https://en.wiktionary.org/wiki/-ing
pub open spec fn with_ing(british: bool, stem: Seq<char>) -> Option<Seq<char>> {
    if stem.len() == 0 || (british && (stem.last() == 'ə' || stem.last() == 'ː')) {
        None
    } else if !british && stem.len() > 1 && stem.last() == 't' && US_TAUS@.contains(
        stem[stem.len() - 2],
    ) {
        Some(stem.drop_last() + "ɾɪŋ"@)
    } else {
        Some(stem + "ɪŋ"@)
    }
}

/// `word` without its last `n` characters.
pub open spec fn cut(word: Seq<char>, n: int) -> Seq<char> {
    word.take(word.len() - n)
}

/// A consonant doubled before -ing, or -cking.
pub open spec fn doubled(word: Seq<char>) -> bool {
    "cking"@.is_suffix_of(word) || ("ing"@.is_suffix_of(word) && word.len() >= 5
        && word[word.len() - 4] == word[word.len() - 5] && "bcdgklmnprstvxz"@.contains(
        word[word.len() - 5],
    ))
}

impl LexiconView {
    /// The known word that an -s is set on.
    pub open spec fn stem_of_s(self, word: Seq<char>) -> Option<Seq<char>> {
        if word.len() < 3 || word.last() != 's' {
            None
        } else if !"ss"@.is_suffix_of(word) && self.known(cut(word, 1)) {
            Some(cut(word, 1))
        } else if ("'s"@.is_suffix_of(word) || (word.len() > 4 && "es"@.is_suffix_of(word)
            && !"ies"@.is_suffix_of(word))) && self.known(cut(word, 2)) {
            Some(cut(word, 2))
        } else if word.len() > 4 && "ies"@.is_suffix_of(word) && self.known(cut(word, 3) + "y"@) {
            Some(cut(word, 3) + "y"@)
        } else {
            None
        }
    }

    /// The known word that an -ed is set on.
    pub open spec fn stem_of_ed(self, word: Seq<char>) -> Option<Seq<char>> {
        if word.len() < 4 || word.last() != 'd' {
            None
        } else if !"dd"@.is_suffix_of(word) && self.known(cut(word, 1)) {
            Some(cut(word, 1))
        } else if word.len() > 4 && "ed"@.is_suffix_of(word) && !"eed"@.is_suffix_of(word)
            && self.known(cut(word, 2)) {
            Some(cut(word, 2))
        } else {
            None
        }
    }

    /// The known word that an -ing is set on.
    pub open spec fn stem_of_ing(self, word: Seq<char>) -> Option<Seq<char>> {
        if word.len() < 5 || !"ing"@.is_suffix_of(word) {
            None
        } else if word.len() > 5 && self.known(cut(word, 3)) {
            Some(cut(word, 3))
        } else if self.known(cut(word, 3) + "e"@) {
            Some(cut(word, 3) + "e"@)
        } else if word.len() > 5 && doubled(word) && self.known(cut(word, 4)) {
            Some(cut(word, 4))
        } else {
            None
        }
    }

    /// The phonemes of a word in -s.
    pub open spec fn stem_s(
        self,
        word: Seq<char>,
        tag: Seq<char>,
        stress: Option<i32>,
        ctx: Option<TokenContext>,
    ) -> Option<(Seq<char>, u8)> {
        match self.stem_of_s(word) {
            None => None,
            Some(stem) => match self.lookup(stem, tag, stress, ctx) {
                None => None,
                Some(hit) => rated(with_s(self.british, hit.0), hit.1),
            },
        }
    }

    /// The phonemes of a word in -ed.
    pub open spec fn stem_ed(
        self,
        word: Seq<char>,
        tag: Seq<char>,
        stress: Option<i32>,
        ctx: Option<TokenContext>,
    ) -> Option<(Seq<char>, u8)> {
        match self.stem_of_ed(word) {
            None => None,
            Some(stem) => match self.lookup(stem, tag, stress, ctx) {
                None => None,
                Some(hit) => rated(with_ed(self.british, hit.0), hit.1),
            },
        }
    }

    /// The phonemes of a word in -ing.
    pub open spec fn stem_ing(
        self,
        word: Seq<char>,
        tag: Seq<char>,
        stress: Option<i32>,
        ctx: Option<TokenContext>,
    ) -> Option<(Seq<char>, u8)> {
        match self.stem_of_ing(word) {
            None => None,
            Some(stem) => match self.lookup(stem, tag, stress, ctx) {
                None => None,
                Some(hit) => rated(with_ing(self.british, hit.0), hit.1),
            },
        }
    }
}

/// Phonemes with a rating.
pub open spec fn rated(ps: Option<Seq<char>>, rating: u8) -> Option<(Seq<char>, u8)> {
    match ps {
        None => None,
        Some(p) => Some((p, rating)),
    }
}

fn with_rating(ps: Option<String>, rating: u8) -> (r: Option<Hit>)
    ensures
        hit_view(r) == rated(opt_chars(ps), rating),
{
    match ps {
        None => None,
        Some(p) => Some((p, rating)),
    }
}

/// A consonant doubled before -ing, or -cking.
pub fn doubled_before_ing(word: &str) -> (r: bool)
    ensures
        r == doubled(word@),
{
    if ends_with(word, "cking") {
        return true;
    }
    if !ends_with(word, "ing") {
        return false;
    }
    let c = chars_of(word);
    let n: usize = c.len();
    n >= 5 && c[n - 4] == c[n - 5] && contains_char("bcdgklmnprstvxz", c[n - 5])
}

impl Lexicon {
    pub(crate) fn suffix_s(&self, stem: &str) -> (r: Option<String>)
        ensures
            opt_chars(r) == with_s(self@.british, stem@),
    {
        let last: char = match last_char(stem) {
            None => {
                return None;
            },
            Some(c) => c,
        };
        if contains_char("ptkfθ", last) {
            Some(cat(stem, "s"))
        } else if contains_char("szʃʒʧʤ", last) {
            if self.is_british() {
                Some(cat(stem, "ɪz"))
            } else {
                Some(cat(stem, "ᵻz"))
            }
        } else {
            Some(cat(stem, "z"))
        }
    }

    pub(crate) fn suffix_ed(&self, stem: &str) -> (r: Option<String>)
        ensures
            opt_chars(r) == with_ed(self@.british, stem@),
    {
        let chars = chars_of(stem);
        let n: usize = chars.len();
        if n == 0 {
            return None;
        }
        let last: char = chars[n - 1];
        if contains_char("pkfθʃsʧ", last) {
            Some(cat(stem, "t"))
        } else if last == 'd' {
            if self.is_british() {
                Some(cat(stem, "ɪd"))
            } else {
                Some(cat(stem, "ᵻd"))
            }
        } else if last != 't' {
            Some(cat(stem, "d"))
        } else if self.is_british() || n < 2 {
            Some(cat(stem, "ɪd"))
        } else if contains_char(US_TAUS, chars[n - 2]) {
            let head = string_of(&chars, 0, n - 1);
            assert(head@ =~= stem@.drop_last());
            Some(cat(head.as_str(), "ɾᵻd"))
        } else {
            Some(cat(stem, "ᵻd"))
        }
    }

    pub(crate) fn suffix_ing(&self, stem: &str) -> (r: Option<String>)
        ensures
            opt_chars(r) == with_ing(self@.british, stem@),
    {
        let chars = chars_of(stem);
        let n: usize = chars.len();
        if n == 0 {
            return None;
        }
        let last: char = chars[n - 1];
        if self.is_british() {
            if last == 'ə' || last == 'ː' {
                return None;
            }
        } else if n > 1 && last == 't' && contains_char(US_TAUS, chars[n - 2]) {
            let head = string_of(&chars, 0, n - 1);
            assert(head@ =~= stem@.drop_last());
            return Some(cat(head.as_str(), "ɾɪŋ"));
        }
        Some(cat(stem, "ɪŋ"))
    }

    fn find_stem_s(&self, word: &str) -> (r: Option<String>)
        ensures
            opt_chars(r) == self@.stem_of_s(word@),
    {
        let n: usize = word.unicode_len();
        if n < 3 || !ends_with_char(word, 's') {
            return None;
        }
        let one = head_of(word, n - 1);
        let two = head_of(word, n - 2);
        let three = cat(head_of(word, n - 3), "y");
        if !ends_with(word, "ss") && self.is_known(one) {
            Some(one.to_owned())
        } else if (ends_with(word, "'s") || (n > 4 && ends_with(word, "es") && !ends_with(
            word,
            "ies",
        ))) && self.is_known(two) {
            Some(two.to_owned())
        } else if n > 4 && ends_with(word, "ies") && self.is_known(three.as_str()) {
            Some(three)
        } else {
            None
        }
    }

    fn find_stem_ed(&self, word: &str) -> (r: Option<String>)
        ensures
            opt_chars(r) == self@.stem_of_ed(word@),
    {
        let n: usize = word.unicode_len();
        if n < 4 || !ends_with_char(word, 'd') {
            return None;
        }
        let one = head_of(word, n - 1);
        let two = head_of(word, n - 2);
        if !ends_with(word, "dd") && self.is_known(one) {
            Some(one.to_owned())
        } else if n > 4 && ends_with(word, "ed") && !ends_with(word, "eed") && self.is_known(two) {
            Some(two.to_owned())
        } else {
            None
        }
    }

    fn find_stem_ing(&self, word: &str) -> (r: Option<String>)
        ensures
            opt_chars(r) == self@.stem_of_ing(word@),
    {
        let n: usize = word.unicode_len();
        if n < 5 || !ends_with(word, "ing") {
            return None;
        }
        let three = head_of(word, n - 3);
        let with_e = cat(three, "e");
        let four = head_of(word, n - 4);
        if n > 5 && self.is_known(three) {
            Some(three.to_owned())
        } else if self.is_known(with_e.as_str()) {
            Some(with_e)
        } else if n > 5 && doubled_before_ing(word) && self.is_known(four) {
            Some(four.to_owned())
        } else {
            None
        }
    }

    /// The phonemes of a word in -s.
    pub(crate) fn stem_s(
        &self,
        word: &str,
        tag: &str,
        stress: Option<i32>,
        ctx: Option<TokenContext>,
    ) -> (r: Option<Hit>)
        ensures
            hit_view(r) == self@.stem_s(word@, tag@, stress, ctx),
    {
        match self.find_stem_s(word) {
            None => None,
            Some(stem) => match self.lookup(stem.as_str(), tag, stress, ctx) {
                None => None,
                Some(hit) => with_rating(self.suffix_s(hit.0.as_str()), hit.1),
            },
        }
    }

    /// The phonemes of a word in -ed.
    pub(crate) fn stem_ed(
        &self,
        word: &str,
        tag: &str,
        stress: Option<i32>,
        ctx: Option<TokenContext>,
    ) -> (r: Option<Hit>)
        ensures
            hit_view(r) == self@.stem_ed(word@, tag@, stress, ctx),
    {
        match self.find_stem_ed(word) {
            None => None,
            Some(stem) => match self.lookup(stem.as_str(), tag, stress, ctx) {
                None => None,
                Some(hit) => with_rating(self.suffix_ed(hit.0.as_str()), hit.1),
            },
        }
    }

    /// The phonemes of a word in -ing.
    pub(crate) fn stem_ing(
        &self,
        word: &str,
        tag: &str,
        stress: Option<i32>,
        ctx: Option<TokenContext>,
    ) -> (r: Option<Hit>)
        ensures
            hit_view(r) == self@.stem_ing(word@, tag@, stress, ctx),
    {
        match self.find_stem_ing(word) {
            None => None,
            Some(stem) => match self.lookup(stem.as_str(), tag, stress, ctx) {
                None => None,
                Some(hit) => with_rating(self.suffix_ing(hit.0.as_str()), hit.1),
            },
        }
    }
}

} // verus!
