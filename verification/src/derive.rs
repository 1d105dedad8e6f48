//! Derivations for words that the lexicon has nothing for: productive prefixes,
//! comparatives, inflections of derived words, and compounds.
//!
//! A stage of its own, which runs only where the lexicon gave up. What it cannot derive is
//! reported rather than guessed.

use crate::affix::{with_ed, with_ing, with_s};
use crate::lexicon::{hit_view, opt_chars, opt_str, Hit, Lexicon, LexiconView};
use crate::stress::{apply_stress, stressed, RAISE, SOFTEN};
use crate::text::{
    cat, ends_with, ends_with_char, head_of, str_eq, strip_prefix, strip_suffix, tail_of,
};
use crate::unicode::{ascii_lower, lower, lowercase};
use vstd::prelude::*;
use vstd::string::*;
use vstd::utf8::*;

verus! {

/// The prefixes that are sought at the start of a word, in order.
pub const PREFIXES: [&'static str; 16] = [
    "un",
    "re",
    "non",
    "multi",
    "over",
    "under",
    "pre",
    "de",
    "mis",
    "sub",
    "inter",
    "anti",
    "auto",
    "co",
    "micro",
    "mono",
];

/// The endings that are set outside a derived word, in order.
pub const INFLECTIONS: [&'static str; 4] = ["s", "es", "ed", "ing"];

/// Productive prefixes with the secondary stress that they take in a derivative. They are
/// spelt out rather than looked up: the word "re" is a musical note and the word "inter" a
/// verb.
pub open spec fn prefix_sound(word: Seq<char>) -> Option<Seq<char>> {
    if word == "un"@ {
        Some("ˌʌn"@)
    } else if word == "re"@ {
        Some("ɹˌi"@)
    } else if word == "non"@ {
        Some("nˌɑn"@)
    } else if word == "multi"@ {
        Some("mˌʌlti"@)
    } else if word == "over"@ {
        Some("ˌOvəɹ"@)
    } else if word == "under"@ {
        Some("ˌʌndəɹ"@)
    } else if word == "pre"@ {
        Some("pɹˌi"@)
    } else if word == "de"@ {
        Some("dˌi"@)
    } else if word == "mis"@ {
        Some("mˌɪs"@)
    } else if word == "sub"@ {
        Some("sˌʌb"@)
    } else if word == "inter"@ {
        Some("ˌɪntəɹ"@)
    } else if word == "anti"@ {
        Some("ˌæntI"@)
    } else if word == "auto"@ {
        Some("ˌɔɾO"@)
    } else if word == "co"@ {
        Some("kˌO"@)
    } else if word == "micro"@ {
        Some("mˌIkɹO"@)
    } else if word == "mono"@ {
        Some("mˌɑnO"@)
    } else if word == "semi"@ {
        Some("sˌɛmI"@)
    } else if word == "pseudo"@ {
        Some("sˌudO"@)
    } else if word == "quasi"@ {
        Some("kwˌAzI"@)
    } else if word == "intra"@ {
        Some("ˌɪntɹə"@)
    } else {
        None
    }
}

/// The prefixes that stand alone where a hyphen sets them apart, as in "non-trivial".
pub open spec fn particle_sound(word: Seq<char>) -> Option<Seq<char>> {
    if word == "non"@ || word == "multi"@ || word == "quasi"@ || word == "pseudo"@ || word
        == "semi"@ || word == "intra"@ {
        match prefix_sound(word) {
            Some(p) => Some(stressed(p, Some(RAISE))),
            None => None,
        }
    } else {
        None
    }
}

/// Whether a candidate is nearer to its stem than the word it was found in: shorter, or of
/// the same length and closed by an "e" that the word has not.
pub open spec fn nearer(c: Seq<char>, l: Seq<char>) -> bool {
    c.len() < l.len() || (c.len() == l.len() && closed_by_e(c) && !closed_by_e(l))
}

/// Whether a word ends in "e".
pub open spec fn closed_by_e(l: Seq<char>) -> bool {
    l.len() > 0 && l.last() == 'e'
}

/// A measure that falls from a word to each nearer one.
pub open spec fn distance(l: Seq<char>) -> nat {
    if closed_by_e(l) {
        2 * l.len()
    } else {
        2 * l.len() + 1
    }
}

/// The stem under the inflection number `k`, where the word has it and is long enough.
pub open spec fn inflection_stem(l: Seq<char>, k: int) -> Option<Seq<char>> {
    let e = INFLECTIONS@[k]@;
    if e.is_suffix_of(l) && l.len() - e.len() >= 4 && !"ss"@.is_suffix_of(l) {
        Some(l.take(l.len() - e.len()))
    } else {
        None
    }
}

/// The candidates for the inner word of an inflected one: for each ending, the stem and the
/// stem with an "e". An even number is a stem, the odd number behind it the stem with "e".
pub open spec fn candidate(l: Seq<char>, n: int) -> Option<Seq<char>> {
    match inflection_stem(l, n / 2) {
        None => None,
        Some(stem) => {
            let c = if n % 2 == 0 {
                stem
            } else {
                stem + "e"@
            };
            if c == l {
                None
            } else {
                Some(c)
            }
        },
    }
}

/// The phonemes of a derived word under the inflection number `k`.
pub open spec fn inflect(british: bool, ps: Seq<char>, k: int) -> Option<Seq<char>> {
    if k <= 1 {
        with_s(british, ps)
    } else if k == 2 {
        with_ed(british, ps)
    } else {
        with_ing(british, ps)
    }
}

/// A guess: phonemes with the rating of a derivation.
pub open spec fn guess(ps: Option<Seq<char>>) -> Option<(Seq<char>, u8)> {
    match ps {
        Some(p) => Some((p, 2u8)),
        None => None,
    }
}

/// Phonemes with a tail behind them.
pub open spec fn tailed(ps: Option<Seq<char>>, tail: Seq<char>) -> Option<Seq<char>> {
    match ps {
        Some(p) => Some(p + tail),
        None => None,
    }
}

/// Whether the split at `a` is at least as good as that at `b`: more balanced, or as
/// balanced with no longer head.
pub open spec fn as_good(len: int, a: int, b: int) -> bool {
    let x = if a < len - a {
        a
    } else {
        len - a
    };
    let y = if b < len - b {
        b
    } else {
        len - b
    };
    x > y || (x == y && len - a >= len - b)
}

impl LexiconView {
    /// Whether a word is listed.
    pub open spec fn listed_word(self, word: Seq<char>) -> bool {
        self.golds.contains_key(word) || self.silvers.contains_key(word)
    }

    /// The phonemes of a word on its own, where it has any.
    pub open spec fn plain_phonemes(self, word: Seq<char>) -> Option<Seq<char>> {
        match self.lookup(word, ""@, None, None) {
            Some(hit) => if hit.0.len() == 0 {
                None
            } else {
                Some(hit.0)
            },
            None => None,
        }
    }

    /// Whether the prefix number `i` stands before a listed word of three letters or more.
    pub open spec fn has_prefix(self, l: Seq<char>, i: int) -> bool {
        let p = PREFIXES@[i]@;
        p.is_prefix_of(l) && l.len() - p.len() >= 3 && self.listed_word(l.skip(p.len() as int))
    }

    /// The first prefix, from number `i` on, that stands before a listed word.
    pub open spec fn prefix_from(self, l: Seq<char>, i: int) -> Option<int>
        decreases 16 - i,
    {
        if i >= 16 {
            None
        } else if self.has_prefix(l, i) {
            Some(i)
        } else {
            self.prefix_from(l, i + 1)
        }
    }

    /// Whether both parts of a split are listed words.
    pub open spec fn splits(self, l: Seq<char>, k: int) -> bool {
        self.listed_word(l.take(k)) && self.listed_word(l.skip(k))
    }

    /// The best split up to `k` into a head of at least three letters and a tail.
    pub open spec fn best_split(self, l: Seq<char>, k: int) -> Option<int>
        decreases k,
    {
        if k < 3 {
            None
        } else {
            let best = self.best_split(l, k - 1);
            if self.splits(l, k) && (best is None || as_good(l.len() as int, k, best.unwrap())) {
                Some(k)
            } else {
                best
            }
        }
    }

    /// Two listed words written as one. The head keeps its stress and the tail gives way.
    pub open spec fn compound(self, l: Seq<char>) -> Option<Seq<char>> {
        match self.best_split(l, l.len() - 2) {
            None => None,
            Some(k) => match self.plain_phonemes(l.take(k)) {
                None => None,
                Some(head) => match self.plain_phonemes(l.skip(k)) {
                    None => None,
                    Some(tail) => Some(head + stressed(tail, Some(SOFTEN))),
                },
            },
        }
    }

    /// "-ied", "-ier" and "-iest" on a listed word in "-y", and "-er" and "-est" on a
    /// listed word of three letters or more. `None` where no such ending applies.
    pub open spec fn compared(self, l: Seq<char>) -> Option<Option<Seq<char>>> {
        let ied = l.take(l.len() - "ied"@.len()) + "y"@;
        let ier = l.take(l.len() - "ier"@.len()) + "y"@;
        let iest = l.take(l.len() - "iest"@.len()) + "y"@;
        let est = l.take(l.len() - "est"@.len());
        let er = l.take(l.len() - "er"@.len());
        if "ied"@.is_suffix_of(l) && self.listed_word(ied) {
            Some(
                match self.plain_phonemes(ied) {
                    Some(ps) => with_ed(self.british, ps),
                    None => None,
                },
            )
        } else if "ier"@.is_suffix_of(l) && self.listed_word(ier) {
            Some(tailed(self.plain_phonemes(ier), "əɹ"@))
        } else if "iest"@.is_suffix_of(l) && self.listed_word(iest) {
            Some(tailed(self.plain_phonemes(iest), "ᵻst"@))
        } else if "est"@.is_suffix_of(l) && est.len() >= 3 && self.listed_word(est) {
            Some(tailed(self.plain_phonemes(est), "ᵻst"@))
        } else if "er"@.is_suffix_of(l) && er.len() >= 3 && self.listed_word(er) {
            Some(tailed(self.plain_phonemes(er), "əɹ"@))
        } else {
            None
        }
    }

    /// A prefix before a listed word, which keeps its stress. `None` where no prefix
    /// applies.
    pub open spec fn prefixed(self, l: Seq<char>) -> Option<Option<Seq<char>>> {
        match self.prefix_from(l, 0) {
            None => None,
            Some(i) => Some(
                match prefix_sound(PREFIXES@[i]@) {
                    None => None,
                    Some(head) => match self.plain_phonemes(l.skip(PREFIXES@[i]@.len() as int)) {
                        None => None,
                        Some(ps) => Some(head + ps),
                    },
                },
            ),
        }
    }

    /// The phonemes under an inflection of the first candidate, from number `n` on, that
    /// can itself be derived.
    pub open spec fn inflected(self, l: Seq<char>, n: int) -> Option<Seq<char>>
        decreases distance(l), 8 - n,
    {
        if n < 0 || n >= 8 {
            None
        } else {
            let here = match candidate(l, n) {
                None => None,
                Some(c) => if nearer(lowercase(c), l) {
                    match self.derived(lowercase(c)) {
                        None => None,
                        Some(hit) => inflect(self.british, hit.0, n / 2),
                    }
                } else {
                    None
                },
            };
            if here is Some {
                here
            } else {
                self.inflected(l, n + 1)
            }
        }
    }

    /// The phonemes derived for a word in small letters. Inflection sits outside the
    /// compound: "namespaces" is name, space and s.
    pub open spec fn derived(self, l: Seq<char>) -> Option<(Seq<char>, u8)>
        decreases distance(l), 9int,
    {
        if particle_sound(l) is Some {
            guess(particle_sound(l))
        } else if self.compared(l) is Some {
            guess(self.compared(l).unwrap())
        } else if self.prefixed(l) is Some {
            guess(self.prefixed(l).unwrap())
        } else if self.inflected(l, 0) is Some {
            guess(self.inflected(l, 0))
        } else {
            guess(self.compound(l))
        }
    }
}

impl Lexicon {
    fn prefix_phonemes(word: &str) -> (r: Option<&'static str>)
        ensures
            opt_str(r) == prefix_sound(word@),
    {
        if str_eq(word, "un") {
            Some("ˌʌn")
        } else if str_eq(word, "re") {
            Some("ɹˌi")
        } else if str_eq(word, "non") {
            Some("nˌɑn")
        } else if str_eq(word, "multi") {
            Some("mˌʌlti")
        } else if str_eq(word, "over") {
            Some("ˌOvəɹ")
        } else if str_eq(word, "under") {
            Some("ˌʌndəɹ")
        } else if str_eq(word, "pre") {
            Some("pɹˌi")
        } else if str_eq(word, "de") {
            Some("dˌi")
        } else if str_eq(word, "mis") {
            Some("mˌɪs")
        } else if str_eq(word, "sub") {
            Some("sˌʌb")
        } else if str_eq(word, "inter") {
            Some("ˌɪntəɹ")
        } else if str_eq(word, "anti") {
            Some("ˌæntI")
        } else if str_eq(word, "auto") {
            Some("ˌɔɾO")
        } else if str_eq(word, "co") {
            Some("kˌO")
        } else if str_eq(word, "micro") {
            Some("mˌIkɹO")
        } else if str_eq(word, "mono") {
            Some("mˌɑnO")
        } else if str_eq(word, "semi") {
            Some("sˌɛmI")
        } else if str_eq(word, "pseudo") {
            Some("sˌudO")
        } else if str_eq(word, "quasi") {
            Some("kwˌAzI")
        } else if str_eq(word, "intra") {
            Some("ˌɪntɹə")
        } else {
            None
        }
    }

    fn particle(word: &str) -> (r: Option<String>)
        ensures
            opt_chars(r) == particle_sound(word@),
    {
        if str_eq(word, "non") || str_eq(word, "multi") || str_eq(word, "quasi") || str_eq(
            word,
            "pseudo",
        ) || str_eq(word, "semi") || str_eq(word, "intra") {
            match Self::prefix_phonemes(word) {
                Some(p) => Some(apply_stress(p, Some(RAISE))),
                None => None,
            }
        } else {
            None
        }
    }

    fn known_phonemes(&self, word: &str) -> (r: Option<String>)
        ensures
            opt_chars(r) == self@.plain_phonemes(word@),
    {
        match self.lookup(word, "", None, None) {
            Some(hit) => if hit.0.as_str().is_empty() {
                None
            } else {
                Some(hit.0)
            },
            None => None,
        }
    }

    fn known_word(&self, word: &str) -> (r: bool)
        ensures
            r == self@.listed_word(word@),
    {
        self.has_gold(word) || self.has_silver(word)
    }

    fn known_with_tail(&self, word: &str, tail: &str) -> (r: Option<String>)
        ensures
            opt_chars(r) == tailed(self@.plain_phonemes(word@), tail@),
    {
        match self.known_phonemes(word) {
            Some(ps) => Some(cat(ps.as_str(), tail)),
            None => None,
        }
    }

    fn derive_compared(&self, l: &str) -> (r: Option<Option<String>>)
        ensures
            match r {
                Some(ps) => self@.compared(l@) == Some(opt_chars(ps)),
                None => self@.compared(l@) is None,
            },
    {
        if let Some(stem) = strip_suffix(l, "ied") {
            let y = cat(stem, "y");
            if self.known_word(y.as_str()) {
                return Some(
                    match self.known_phonemes(y.as_str()) {
                        Some(ps) => self.suffix_ed(ps.as_str()),
                        None => None,
                    },
                );
            }
        }
        if let Some(stem) = strip_suffix(l, "ier") {
            let y = cat(stem, "y");
            if self.known_word(y.as_str()) {
                return Some(self.known_with_tail(y.as_str(), "əɹ"));
            }
        }
        if let Some(stem) = strip_suffix(l, "iest") {
            let y = cat(stem, "y");
            if self.known_word(y.as_str()) {
                return Some(self.known_with_tail(y.as_str(), "ᵻst"));
            }
        }
        if let Some(stem) = strip_suffix(l, "est") {
            if stem.unicode_len() >= 3 && self.known_word(stem) {
                return Some(self.known_with_tail(stem, "ᵻst"));
            }
        }
        if let Some(stem) = strip_suffix(l, "er") {
            if stem.unicode_len() >= 3 && self.known_word(stem) {
                return Some(self.known_with_tail(stem, "əɹ"));
            }
        }
        None
    }

    fn derive_prefixed(&self, l: &str) -> (r: Option<Option<String>>)
        ensures
            match r {
                Some(ps) => self@.prefixed(l@) == Some(opt_chars(ps)),
                None => self@.prefixed(l@) is None,
            },
    {
        let mut i: usize = 0;
        while i < 16
            invariant
                i <= 16,
                self@.prefix_from(l@, 0) == self@.prefix_from(l@, i as int),
            decreases 16 - i,
        {
            let p = PREFIXES[i];
            match strip_prefix(l, p) {
                Some(rest) => {
                    if rest.unicode_len() >= 3 && self.known_word(rest) {
                        assert(self@.has_prefix(l@, i as int));
                        return Some(
                            match Self::prefix_phonemes(p) {
                                None => None,
                                Some(head) => match self.known_phonemes(rest) {
                                    None => None,
                                    Some(ps) => Some(cat(head, ps.as_str())),
                                },
                            },
                        );
                    }
                },
                None => {},
            }
            i = i + 1;
        }
        None
    }

    /// Joins two halves of a compound: the head keeps primary stress, the tail is demoted.
    fn join_compound(head: &str, tail: &str) -> (r: String)
        ensures
            r@ == head@ + stressed(tail@, Some(SOFTEN)),
    {
        let soft = apply_stress(tail, Some(SOFTEN));
        cat(head, soft.as_str())
    }

    fn derive_compound(&self, l: &str) -> (r: Option<String>)
        ensures
            opt_chars(r) == self@.compound(l@),
    {
        let n: usize = l.unicode_len();
        if n < 5 {
            return None;
        }
        let mut best: Option<usize> = None;
        let mut k: usize = 3;
        while k <= n - 2
            invariant
                3 <= k <= n - 1,
                n == l@.len(),
                match best {
                    Some(b) => self@.best_split(l@, k - 1) == Some(b as int) && 3 <= b < k,
                    None => self@.best_split(l@, k - 1) is None,
                },
            decreases n - k,
        {
            if self.known_word(head_of(l, k)) && self.known_word(tail_of(l, k)) {
                match best {
                    None => {
                        best = Some(k);
                    },
                    Some(b) => {
                        let x: usize = if k < n - k {
                            k
                        } else {
                            n - k
                        };
                        let y: usize = if b < n - b {
                            b
                        } else {
                            n - b
                        };
                        if x > y || (x == y && n - k >= n - b) {
                            best = Some(k);
                        }
                    },
                }
            }
            k = k + 1;
        }
        match best {
            None => None,
            Some(b) => match self.known_phonemes(head_of(l, b)) {
                None => None,
                Some(head) => match self.known_phonemes(tail_of(l, b)) {
                    None => None,
                    Some(tail) => Some(Self::join_compound(head.as_str(), tail.as_str())),
                },
            },
        }
    }

    fn find_candidate(l: &str, n: usize) -> (r: Option<String>)
        requires
            n < 8,
        ensures
            opt_chars(r) == candidate(l@, n as int),
    {
        match strip_suffix(l, INFLECTIONS[n / 2]) {
            None => None,
            Some(stem) => {
                if stem.unicode_len() < 4 || ends_with(l, "ss") {
                    return None;
                }
                let c = if n % 2 == 0 {
                    stem.to_owned()
                } else {
                    cat(stem, "e")
                };
                if str_eq(c.as_str(), l) {
                    None
                } else {
                    Some(c)
                }
            },
        }
    }

    fn is_nearer(c: &str, l: &str) -> (r: bool)
        ensures
            r == nearer(c@, l@),
    {
        let n: usize = c.unicode_len();
        let m: usize = l.unicode_len();
        n < m || (n == m && ends_with_char(c, 'e') && !ends_with_char(l, 'e'))
    }

    fn derive_inflected(&self, l: &str) -> (r: Option<String>)
        ensures
            opt_chars(r) == self@.inflected(l@, 0),
        decreases distance(l@), 8int,
    {
        let mut n: usize = 0;
        while n < 8
            invariant
                n <= 8,
                self@.inflected(l@, 0) == self@.inflected(l@, n as int),
            decreases 8 - n,
        {
            match Self::find_candidate(l, n) {
                Some(c) => {
                    let small = lower(c.as_str());
                    if Self::is_nearer(small.as_str(), l) {
                        match self.derive_small(small.as_str()) {
                            Some(hit) => {
                                let out = if n / 2 <= 1 {
                                    self.suffix_s(hit.0.as_str())
                                } else if n / 2 == 2 {
                                    self.suffix_ed(hit.0.as_str())
                                } else {
                                    self.suffix_ing(hit.0.as_str())
                                };
                                if out.is_some() {
                                    return out;
                                }
                            },
                            None => {},
                        }
                    }
                },
                None => {},
            }
            n = n + 1;
        }
        None
    }

    fn derive_small(&self, l: &str) -> (r: Option<Hit>)
        ensures
            hit_view(r) == self@.derived(l@),
        decreases distance(l@), 9int,
    {
        if let Some(ps) = Self::particle(l) {
            return Some((ps, 2));
        }
        if let Some(answer) = self.derive_compared(l) {
            return match answer {
                Some(ps) => Some((ps, 2)),
                None => None,
            };
        }
        if let Some(answer) = self.derive_prefixed(l) {
            return match answer {
                Some(ps) => Some((ps, 2)),
                None => None,
            };
        }
        if let Some(ps) = self.derive_inflected(l) {
            return Some((ps, 2));
        }
        match self.derive_compound(l) {
            Some(ps) => Some((ps, 2)),
            None => None,
        }
    }

    /// The phonemes of a word that the lexicon has nothing for, derived from words that it
    /// has.
    pub fn derive(&self, word: &str) -> (r: Option<Hit>)
        ensures
            hit_view(r) == self@.derived(lowercase(word@)),
    {
        let l = lower(word);
        self.derive_small(l.as_str())
    }
}

impl LexiconView {
    /// The split that a compound takes is a split into two listed words, with a head of at
    /// least three letters and a tail of at least two, and no other such split is more
    /// balanced, or as balanced with a shorter head.
    pub proof fn compound_split_is_best(self, l: Seq<char>, k: int, other: int)
        requires
            self.best_split(l, l.len() - 2) == Some(k),
            3 <= other <= l.len() - 2,
            self.splits(l, other),
        ensures
            3 <= k <= l.len() - 2,
            self.splits(l, k),
            as_good(l.len() as int, k, other),
    {
        self.best_split_up_to(l, l.len() - 2, other);
    }

    proof fn best_split_up_to(self, l: Seq<char>, upto: int, other: int)
        requires
            3 <= other <= upto,
            self.splits(l, other),
        ensures
            self.best_split(l, upto) is Some,
            3 <= self.best_split(l, upto).unwrap() <= upto,
            self.splits(l, self.best_split(l, upto).unwrap()),
            as_good(l.len() as int, self.best_split(l, upto).unwrap(), other),
        decreases upto,
    {
        if other < upto {
            self.best_split_up_to(l, upto - 1, other);
        } else {
            self.best_split_is_split(l, upto - 1);
        }
    }

    proof fn best_split_is_split(self, l: Seq<char>, upto: int)
        ensures
            self.best_split(l, upto) is Some ==> {
                &&& 3 <= self.best_split(l, upto).unwrap() <= upto
                &&& self.splits(l, self.best_split(l, upto).unwrap())
            },
        decreases upto,
    {
        if upto >= 3 {
            self.best_split_is_split(l, upto - 1);
        }
    }
}

/// In ASCII every candidate for an inner word is nearer to the stem, so none is passed
/// over.
pub proof fn ascii_candidates_are_nearer(l: Seq<char>, n: int)
    requires
        is_ascii_chars(l),
        0 <= n < 8,
        candidate(l, n) is Some,
    ensures
        nearer(lowercase(candidate(l, n).unwrap()), l),
{
    reveal_strlit("s");
    reveal_strlit("es");
    reveal_strlit("ed");
    reveal_strlit("ing");
    reveal_strlit("e");
    let e = INFLECTIONS@[n / 2]@;
    let c = candidate(l, n).unwrap();
    assert(e == "s"@ || e == "es"@ || e == "ed"@ || e == "ing"@);
    assert(l.last() == e.last());
    assert forall|i: int| 0 <= i < c.len() implies 0 <= #[trigger] c[i] as u32 <= 127 by {
        if i < l.len() - e.len() {
            assert(c[i] == l[i]);
        }
    }
    assert(is_ascii_chars(c));
    assert(lowercase(c).len() == c.len());
    if n % 2 == 1 {
        assert(c.last() == 'e');
        assert(lowercase(c).last() == ascii_lower('e'));
    }
}

} // verus!
