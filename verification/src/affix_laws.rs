//! How endings are set on words and on sounds, for every word and every sound.

use crate::affix::{doubled, with_ed, with_ing, with_s};
use crate::lexicon::{LexiconView, TokenContext};
use vstd::prelude::*;

verus! {

/// One of the sounds behind which -s is voiceless.
pub open spec fn hushed(c: char) -> bool {
    c == 'p' || c == 't' || c == 'k' || c == 'f' || c == 'θ'
}

/// One of the sounds behind which -s needs a vowel.
pub open spec fn hissing(c: char) -> bool {
    c == 's' || c == 'z' || c == 'ʃ' || c == 'ʒ' || c == 'ʧ' || c == 'ʤ'
}

/// One of the sounds behind which -ed is a "t".
pub open spec fn hushed_before_d(c: char) -> bool {
    c == 'p' || c == 'k' || c == 'f' || c == 'θ' || c == 'ʃ' || c == 's' || c == 'ʧ'
}

/// One of the sounds behind which an American "t" is tapped.
pub open spec fn tapping(c: char) -> bool {
    c == 'A' || c == 'I' || c == 'O' || c == 'W' || c == 'Y' || c == 'i' || c == 'u' || c == 'æ' || c
        == 'ɑ' || c == 'ə' || c == 'ɛ' || c == 'ɪ' || c == 'ɹ' || c == 'ʊ' || c == 'ʌ'
}

proof fn sounds_are_listed(c: char)
    ensures
        "ptkfθ"@.contains(c) <==> hushed(c),
        "szʃʒʧʤ"@.contains(c) <==> hissing(c),
        "pkfθʃsʧ"@.contains(c) <==> hushed_before_d(c),
        crate::stress::US_TAUS@.contains(c) <==> tapping(c),
{
    reveal_strlit("ptkfθ");
    reveal_strlit("szʃʒʧʤ");
    reveal_strlit("pkfθʃsʧ");
    reveal_strlit("AIOWYiuæɑəɛɪɹʊʌ");
    let a = "ptkfθ"@;
    assert(a[0] == 'p' && a[1] == 't' && a[2] == 'k' && a[3] == 'f' && a[4] == 'θ');
    let b = "szʃʒʧʤ"@;
    assert(b[0] == 's' && b[1] == 'z' && b[2] == 'ʃ' && b[3] == 'ʒ' && b[4] == 'ʧ' && b[5] == 'ʤ');
    let d = "pkfθʃsʧ"@;
    assert(d[0] == 'p' && d[1] == 'k' && d[2] == 'f' && d[3] == 'θ' && d[4] == 'ʃ' && d[5] == 's'
        && d[6] == 'ʧ');
    let t = "AIOWYiuæɑəɛɪɹʊʌ"@;
    assert(t[0] == 'A' && t[1] == 'I' && t[2] == 'O' && t[3] == 'W' && t[4] == 'Y' && t[5] == 'i'
        && t[6] == 'u' && t[7] == 'æ' && t[8] == 'ɑ' && t[9] == 'ə' && t[10] == 'ɛ' && t[11] == 'ɪ'
        && t[12] == 'ɹ' && t[13] == 'ʊ' && t[14] == 'ʌ');
}

/// Behind a voiceless sound -s is "s", behind a hissing one it has a vowel of the dialect, and
/// behind any other sound it is "z". The sound that it is set on stays whole.
pub proof fn plurals_go_by_the_last_sound(british: bool, stem: Seq<char>, c: char)
    ensures
        ({
            let r = with_s(british, stem.push(c));
            &&& hushed(c) ==> r == Some(stem.push(c).push('s'))
            &&& hissing(c) && british ==> r == Some(stem.push(c).push('ɪ').push('z'))
            &&& hissing(c) && !british ==> r == Some(stem.push(c).push('ᵻ').push('z'))
            &&& !hushed(c) && !hissing(c) ==> r == Some(stem.push(c).push('z'))
        }),
{
    sounds_are_listed(c);
    let s = stem.push(c);
    assert(s.last() == c);
    reveal_strlit("s");
    reveal_strlit("z");
    reveal_strlit("ɪz");
    reveal_strlit("ᵻz");
    assert(s + "s"@ =~= s.push('s'));
    assert(s + "z"@ =~= s.push('z'));
    assert(s + "ɪz"@ =~= s.push('ɪ').push('z'));
    assert(s + "ᵻz"@ =~= s.push('ᵻ').push('z'));
}

/// Behind a voiceless sound other than "t", -ed is "t"; behind "d" and "t" it has a vowel of its
/// own; behind any other sound it is "d". An American "t" behind a vowel or "ɹ" is tapped.
pub proof fn past_tenses_go_by_the_last_sound(british: bool, stem: Seq<char>, c: char)
    ensures
        ({
            let r = with_ed(british, stem.push(c));
            let tapped = stem.len() > 0 && tapping(stem.last());
            &&& hushed_before_d(c) ==> r == Some(stem.push(c).push('t'))
            &&& !hushed_before_d(c) && c != 'd' && c != 't' ==> r == Some(stem.push(c).push('d'))
            &&& c == 'd' && british ==> r == Some(stem.push(c).push('ɪ').push('d'))
            &&& c == 'd' && !british ==> r == Some(stem.push(c).push('ᵻ').push('d'))
            &&& c == 't' && (british || stem.len() == 0) ==> r == Some(
                stem.push(c).push('ɪ').push('d'),
            )
            &&& c == 't' && !british && tapped ==> r == Some(stem.push('ɾ').push('ᵻ').push('d'))
            &&& c == 't' && !british && stem.len() > 0 && !tapped ==> r == Some(
                stem.push(c).push('ᵻ').push('d'),
            )
        }),
{
    sounds_are_listed(c);
    let s = stem.push(c);
    assert(s.last() == c);
    if stem.len() > 0 {
        sounds_are_listed(stem.last());
        assert(s[s.len() - 2] == stem.last());
    }
    reveal_strlit("t");
    reveal_strlit("d");
    reveal_strlit("ɪd");
    reveal_strlit("ᵻd");
    reveal_strlit("ɾᵻd");
    assert(s.drop_last() =~= stem);
    assert(s + "t"@ =~= s.push('t'));
    assert(s + "d"@ =~= s.push('d'));
    assert(s + "ɪd"@ =~= s.push('ɪ').push('d'));
    assert(s + "ᵻd"@ =~= s.push('ᵻ').push('d'));
    assert(stem + "ɾᵻd"@ =~= stem.push('ɾ').push('ᵻ').push('d'));
}

/// -ing is set behind every sound, but in British English not behind a schwa or a long vowel. An
/// American "t" behind a vowel or "ɹ" is tapped.
pub proof fn participles_go_by_the_last_sound(british: bool, stem: Seq<char>, c: char)
    ensures
        ({
            let r = with_ing(british, stem.push(c));
            let tapped = !british && c == 't' && stem.len() > 0 && tapping(stem.last());
            let linked = british && (c == 'ə' || c == 'ː');
            &&& linked ==> r is None
            &&& tapped ==> r == Some(stem.push('ɾ').push('ɪ').push('ŋ'))
            &&& !linked && !tapped ==> r == Some(stem.push(c).push('ɪ').push('ŋ'))
        }),
{
    let s = stem.push(c);
    assert(s.last() == c);
    if stem.len() > 0 {
        sounds_are_listed(stem.last());
        assert(s[s.len() - 2] == stem.last());
    }
    reveal_strlit("ɪŋ");
    reveal_strlit("ɾɪŋ");
    assert(s.drop_last() =~= stem);
    assert(s + "ɪŋ"@ =~= s.push('ɪ').push('ŋ'));
    assert(stem + "ɾɪŋ"@ =~= stem.push('ɾ').push('ɪ').push('ŋ'));
}

/// Nothing can be set on no sound at all.
pub proof fn no_ending_on_silence(british: bool)
    ensures
        with_s(british, Seq::empty()) is None,
        with_ed(british, Seq::empty()) is None,
        with_ing(british, Seq::empty()) is None,
{
}

proof fn endings_are_spelt()
    ensures
        "ss"@ == seq!['s', 's'],
        "'s"@ == seq!['\'', 's'],
        "es"@ == seq!['e', 's'],
        "ies"@ == seq!['i', 'e', 's'],
        "y"@ == seq!['y'],
        "dd"@ == seq!['d', 'd'],
        "ed"@ == seq!['e', 'd'],
        "eed"@ == seq!['e', 'e', 'd'],
        "ing"@ == seq!['i', 'n', 'g'],
        "e"@ == seq!['e'],
        "cking"@ == seq!['c', 'k', 'i', 'n', 'g'],
{
    reveal_strlit("ss");
    reveal_strlit("'s");
    reveal_strlit("es");
    reveal_strlit("ies");
    reveal_strlit("y");
    reveal_strlit("dd");
    reveal_strlit("ed");
    reveal_strlit("eed");
    reveal_strlit("ing");
    reveal_strlit("e");
    reveal_strlit("cking");
}

/// A hit with its sound inflected.
pub open spec fn inflected_hit(
    hit: Option<(Seq<char>, u8)>,
    how: spec_fn(Seq<char>) -> Option<Seq<char>>,
) -> Option<(Seq<char>, u8)> {
    match hit {
        None => None,
        Some(h) => match how(h.0) {
            Some(p) => Some((p, h.1)),
            None => None,
        },
    }
}

/// How -s is set on a sound.
pub open spec fn plural(british: bool) -> spec_fn(Seq<char>) -> Option<Seq<char>> {
    |p: Seq<char>| with_s(british, p)
}

/// How -ed is set on a sound.
pub open spec fn past(british: bool) -> spec_fn(Seq<char>) -> Option<Seq<char>> {
    |p: Seq<char>| with_ed(british, p)
}

/// How -ing is set on a sound.
pub open spec fn participle(british: bool) -> spec_fn(Seq<char>) -> Option<Seq<char>> {
    |p: Seq<char>| with_ing(british, p)
}

proof fn suffix_two(w: Seq<char>, a: char, b: char)
    ensures
        seq![a, b].is_suffix_of(w) <==> (w.len() >= 2 && w[w.len() - 2] == a && w[w.len() - 1]
            == b),
{
    if w.len() >= 2 {
        let t = w.subrange(w.len() - 2, w.len() as int);
        if seq![a, b].is_suffix_of(w) {
            assert(t[0] == a && t[1] == b);
        }
        if w[w.len() - 2] == a && w[w.len() - 1] == b {
            assert(t =~= seq![a, b]);
        }
    }
}

proof fn suffix_three(w: Seq<char>, a: char, b: char, c: char)
    ensures
        seq![a, b, c].is_suffix_of(w) <==> (w.len() >= 3 && w[w.len() - 3] == a && w[w.len() - 2]
            == b && w[w.len() - 1] == c),
{
    if w.len() >= 3 {
        let t = w.subrange(w.len() - 3, w.len() as int);
        if seq![a, b, c].is_suffix_of(w) {
            assert(t[0] == a && t[1] == b && t[2] == c);
        }
        if w[w.len() - 3] == a && w[w.len() - 2] == b && w[w.len() - 1] == c {
            assert(t =~= seq![a, b, c]);
        }
    }
}

impl LexiconView {
    /// A known word of two letters or more that does not end in "s" takes an -s: the longer word
    /// sounds as the word with its plural.
    pub proof fn an_s_is_set_on_known_words(
        self,
        w: Seq<char>,
        tag: Seq<char>,
        stress: Option<i32>,
        ctx: Option<TokenContext>,
    )
        requires
            w.len() >= 2,
            w.last() != 's',
            self.known(w),
        ensures
            self.stem_s(w.push('s'), tag, stress, ctx) == inflected_hit(
                self.lookup(w, tag, stress, ctx),
                plural(self.british),
            ),
    {
        endings_are_spelt();
        let l = w.push('s');
        suffix_two(l, 's', 's');
        assert(l.take(l.len() - 1) =~= w);
    }

    /// The possessive of a known word sounds as its plural, where the apostrophe alone makes no
    /// word.
    pub proof fn possessives_sound_as_plurals(
        self,
        w: Seq<char>,
        tag: Seq<char>,
        stress: Option<i32>,
        ctx: Option<TokenContext>,
    )
        requires
            w.len() >= 1,
            self.known(w),
            !self.known(w.push('\'')),
        ensures
            self.stem_s(w.push('\'').push('s'), tag, stress, ctx) == inflected_hit(
                self.lookup(w, tag, stress, ctx),
                plural(self.british),
            ),
    {
        endings_are_spelt();
        let l = w.push('\'').push('s');
        suffix_two(l, 's', 's');
        suffix_two(l, '\'', 's');
        assert(l.take(l.len() - 1) =~= w.push('\''));
        assert(l.take(l.len() - 2) =~= w);
    }

    /// A known word of three letters or more takes -es, where it is no word with the "e" alone.
    pub proof fn an_es_is_set_on_known_words(
        self,
        w: Seq<char>,
        tag: Seq<char>,
        stress: Option<i32>,
        ctx: Option<TokenContext>,
    )
        requires
            w.len() >= 3,
            w.last() != 'i',
            self.known(w),
            !self.known(w.push('e')),
        ensures
            self.stem_s(w.push('e').push('s'), tag, stress, ctx) == inflected_hit(
                self.lookup(w, tag, stress, ctx),
                plural(self.british),
            ),
    {
        endings_are_spelt();
        let l = w.push('e').push('s');
        suffix_two(l, 's', 's');
        suffix_two(l, 'e', 's');
        suffix_two(l, '\'', 's');
        suffix_three(l, 'i', 'e', 's');
        assert(l[l.len() - 3] == w.last());
        assert(l.take(l.len() - 1) =~= w.push('e'));
        assert(l.take(l.len() - 2) =~= w);
    }

    /// A word in -ies sounds as the plural of the word in -y.
    pub proof fn an_ies_is_set_on_known_words(
        self,
        v: Seq<char>,
        tag: Seq<char>,
        stress: Option<i32>,
        ctx: Option<TokenContext>,
    )
        requires
            v.len() >= 2,
            self.known(v.push('y')),
            !self.known(v.push('i').push('e')),
        ensures
            self.stem_s(v.push('i').push('e').push('s'), tag, stress, ctx) == inflected_hit(
                self.lookup(v.push('y'), tag, stress, ctx),
                plural(self.british),
            ),
    {
        endings_are_spelt();
        let l = v.push('i').push('e').push('s');
        suffix_two(l, 's', 's');
        suffix_two(l, 'e', 's');
        suffix_two(l, '\'', 's');
        suffix_three(l, 'i', 'e', 's');
        assert(l.take(l.len() - 1) =~= v.push('i').push('e'));
        assert(l.take(l.len() - 3) + "y"@ =~= v.push('y'));
    }

    /// A word without a final "s", or of fewer than three letters, is no word with an -s.
    pub proof fn no_s_no_plural(
        self,
        w: Seq<char>,
        tag: Seq<char>,
        stress: Option<i32>,
        ctx: Option<TokenContext>,
    )
        requires
            w.len() < 3 || w.last() != 's',
        ensures
            self.stem_s(w, tag, stress, ctx) is None,
    {
    }

    /// A known word of three letters or more that does not end in "d" takes a -d.
    pub proof fn a_d_is_set_on_known_words(
        self,
        w: Seq<char>,
        tag: Seq<char>,
        stress: Option<i32>,
        ctx: Option<TokenContext>,
    )
        requires
            w.len() >= 3,
            w.last() != 'd',
            self.known(w),
        ensures
            self.stem_ed(w.push('d'), tag, stress, ctx) == inflected_hit(
                self.lookup(w, tag, stress, ctx),
                past(self.british),
            ),
    {
        endings_are_spelt();
        let l = w.push('d');
        suffix_two(l, 'd', 'd');
        assert(l.take(l.len() - 1) =~= w);
    }

    /// A known word of three letters or more that does not end in "e" takes an -ed, where it is no
    /// word with the "e" alone.
    pub proof fn an_ed_is_set_on_known_words(
        self,
        w: Seq<char>,
        tag: Seq<char>,
        stress: Option<i32>,
        ctx: Option<TokenContext>,
    )
        requires
            w.len() >= 3,
            w.last() != 'e',
            self.known(w),
            !self.known(w.push('e')),
        ensures
            self.stem_ed(w.push('e').push('d'), tag, stress, ctx) == inflected_hit(
                self.lookup(w, tag, stress, ctx),
                past(self.british),
            ),
    {
        endings_are_spelt();
        let l = w.push('e').push('d');
        suffix_two(l, 'd', 'd');
        suffix_two(l, 'e', 'd');
        suffix_three(l, 'e', 'e', 'd');
        assert(l[l.len() - 3] == w.last());
        assert(l.take(l.len() - 1) =~= w.push('e'));
        assert(l.take(l.len() - 2) =~= w);
    }

    /// A word without a final "d", or of fewer than four letters, is no word with an -ed.
    pub proof fn no_d_no_past(
        self,
        w: Seq<char>,
        tag: Seq<char>,
        stress: Option<i32>,
        ctx: Option<TokenContext>,
    )
        requires
            w.len() < 4 || w.last() != 'd',
        ensures
            self.stem_ed(w, tag, stress, ctx) is None,
    {
    }

    /// A known word of three letters or more takes -ing.
    pub proof fn an_ing_is_set_on_known_words(
        self,
        w: Seq<char>,
        tag: Seq<char>,
        stress: Option<i32>,
        ctx: Option<TokenContext>,
    )
        requires
            w.len() >= 3,
            self.known(w),
        ensures
            self.stem_ing(w + "ing"@, tag, stress, ctx) == inflected_hit(
                self.lookup(w, tag, stress, ctx),
                participle(self.british),
            ),
    {
        endings_are_spelt();
        let l = w + "ing"@;
        suffix_three(l, 'i', 'n', 'g');
        assert(l.take(l.len() - 3) =~= w);
    }

    /// A known word in "e" drops it before -ing, where it is no word without it.
    pub proof fn an_e_goes_before_ing(
        self,
        v: Seq<char>,
        tag: Seq<char>,
        stress: Option<i32>,
        ctx: Option<TokenContext>,
    )
        requires
            v.len() >= 2,
            self.known(v.push('e')),
            v.len() == 2 || !self.known(v),
        ensures
            self.stem_ing(v + "ing"@, tag, stress, ctx) == inflected_hit(
                self.lookup(v.push('e'), tag, stress, ctx),
                participle(self.british),
            ),
    {
        endings_are_spelt();
        let l = v + "ing"@;
        suffix_three(l, 'i', 'n', 'g');
        assert(l.take(l.len() - 3) =~= v);
        assert(v + "e"@ =~= v.push('e'));
    }

    /// A known word doubles its last consonant before -ing, where neither the doubled form nor that
    /// with an "e" is a word.
    pub proof fn a_consonant_is_doubled_before_ing(
        self,
        v: Seq<char>,
        c: char,
        tag: Seq<char>,
        stress: Option<i32>,
        ctx: Option<TokenContext>,
    )
        requires
            v.len() >= 1,
            c == 'b' || c == 'c' || c == 'd' || c == 'g' || c == 'k' || c == 'l' || c == 'm' || c
                == 'n' || c == 'p' || c == 'r' || c == 's' || c == 't' || c == 'v' || c == 'x' || c
                == 'z',
            self.known(v.push(c)),
            !self.known(v.push(c).push(c)),
            !self.known(v.push(c).push(c).push('e')),
        ensures
            self.stem_ing(v.push(c).push(c) + "ing"@, tag, stress, ctx) == inflected_hit(
                self.lookup(v.push(c), tag, stress, ctx),
                participle(self.british),
            ),
    {
        endings_are_spelt();
        let w = v.push(c).push(c);
        let l = w + "ing"@;
        suffix_three(l, 'i', 'n', 'g');
        assert(l.take(l.len() - 3) =~= w);
        assert(w + "e"@ =~= w.push('e'));
        assert(l.take(l.len() - 4) =~= v.push(c));
        assert(l[l.len() - 4] == c && l[l.len() - 5] == c);
        reveal_strlit("bcdgklmnprstvxz");
        let s = "bcdgklmnprstvxz"@;
        assert(s[0] == 'b' && s[1] == 'c' && s[2] == 'd' && s[3] == 'g' && s[4] == 'k' && s[5] == 'l'
            && s[6] == 'm' && s[7] == 'n' && s[8] == 'p' && s[9] == 'r' && s[10] == 's' && s[11]
            == 't' && s[12] == 'v' && s[13] == 'x' && s[14] == 'z');
        assert(s.contains(c));
        assert(doubled(l));
    }

    /// A word that does not end in "ing", or of fewer than five letters, is no word with an -ing.
    pub proof fn no_ing_no_participle(
        self,
        w: Seq<char>,
        tag: Seq<char>,
        stress: Option<i32>,
        ctx: Option<TokenContext>,
    )
        requires
            w.len() < 5 || !"ing"@.is_suffix_of(w),
        ensures
            self.stem_ing(w, tag, stress, ctx) is None,
    {
    }
}

impl LexiconView {
    /// A known word in "c" takes a "k" before -ing, where neither the form in "ck" nor that with an "e"
    /// is a word.
    pub proof fn a_k_goes_before_ing(
        self,
        v: Seq<char>,
        tag: Seq<char>,
        stress: Option<i32>,
        ctx: Option<TokenContext>,
    )
        requires
            v.len() >= 1,
            self.known(v.push('c')),
            !self.known(v.push('c').push('k')),
            !self.known(v.push('c').push('k').push('e')),
        ensures
            self.stem_ing(v.push('c').push('k') + "ing"@, tag, stress, ctx) == inflected_hit(
                self.lookup(v.push('c'), tag, stress, ctx),
                participle(self.british),
            ),
    {
        endings_are_spelt();
        let w = v.push('c').push('k');
        let l = w + "ing"@;
        suffix_three(l, 'i', 'n', 'g');
        assert(l.take(l.len() - 3) =~= w);
        assert(w + "e"@ =~= w.push('e'));
        assert(l.take(l.len() - 4) =~= v.push('c'));
        assert("cking"@.is_suffix_of(l)) by {
            assert(l.subrange(l.len() - 5, l.len() as int) =~= "cking"@);
        }
        assert(doubled(l));
    }

    /// A consonant that is not doubled so, or a vowel, is not taken off before -ing.
    pub proof fn other_letters_are_not_doubled(
        self,
        v: Seq<char>,
        c: char,
        tag: Seq<char>,
        stress: Option<i32>,
        ctx: Option<TokenContext>,
    )
        requires
            v.len() >= 1,
            c == 'a' || c == 'e' || c == 'f' || c == 'h' || c == 'i' || c == 'j' || c == 'o' || c
                == 'q' || c == 'u' || c == 'w' || c == 'y',
            !self.known(v.push(c).push(c)),
            !self.known(v.push(c).push(c).push('e')),
        ensures
            self.stem_ing(v.push(c).push(c) + "ing"@, tag, stress, ctx) is None,
    {
        endings_are_spelt();
        let w = v.push(c).push(c);
        let l = w + "ing"@;
        suffix_three(l, 'i', 'n', 'g');
        assert(l.take(l.len() - 3) =~= w);
        assert(w + "e"@ =~= w.push('e'));
        assert(l[l.len() - 4] == c && l[l.len() - 5] == c);
        reveal_strlit("bcdgklmnprstvxz");
        let s = "bcdgklmnprstvxz"@;
        assert(!s.contains(c)) by {
            assert(s.len() == 15);
            assert(s[0] == 'b' && s[1] == 'c' && s[2] == 'd' && s[3] == 'g' && s[4] == 'k' && s[5]
                == 'l' && s[6] == 'm' && s[7] == 'n' && s[8] == 'p' && s[9] == 'r' && s[10] == 's'
                && s[11] == 't' && s[12] == 'v' && s[13] == 'x' && s[14] == 'z');
        }
        if "cking"@.is_suffix_of(l) {
            let t = l.subrange(l.len() - 5, l.len() as int);
            assert(t[0] == c && "cking"@[0] == 'c');
        }
        assert(!doubled(l));
    }
}

impl LexiconView {
    /// A double "s" is no ending: what is left of such a word is not looked up.
    pub proof fn a_double_s_is_no_ending(
        self,
        stem: Seq<char>,
        tag: Seq<char>,
        stress: Option<i32>,
        ctx: Option<TokenContext>,
    )
        ensures
            self.stem_s(stem + seq!['s', 's'], tag, stress, ctx) is None,
    {
        let l = stem + seq!['s', 's'];
        assert(self.stem_of_s(l) is None) by {
            endings_are_spelt();
            suffix_two(l, 's', 's');
            suffix_two(l, '\'', 's');
            suffix_two(l, 'e', 's');
            suffix_three(l, 'i', 'e', 's');
        }
    }

    /// A double "d" is no ending.
    pub proof fn a_double_d_is_no_ending(
        self,
        stem: Seq<char>,
        tag: Seq<char>,
        stress: Option<i32>,
        ctx: Option<TokenContext>,
    )
        ensures
            self.stem_ed(stem + seq!['d', 'd'], tag, stress, ctx) is None,
    {
        let l = stem + seq!['d', 'd'];
        assert(self.stem_of_ed(l) is None) by {
            endings_are_spelt();
            suffix_two(l, 'd', 'd');
            suffix_two(l, 'e', 'd');
        }
    }

    /// The "ed" of "eed" is no ending: only its "d" can be one.
    pub proof fn the_ed_of_eed_is_no_ending(
        self,
        stem: Seq<char>,
        tag: Seq<char>,
        stress: Option<i32>,
        ctx: Option<TokenContext>,
    )
        requires
            !self.known(stem + seq!['e', 'e']),
        ensures
            self.stem_ed(stem + seq!['e', 'e', 'd'], tag, stress, ctx) is None,
    {
        let l = stem + seq!['e', 'e', 'd'];
        assert(self.stem_of_ed(l) is None) by {
            endings_are_spelt();
            suffix_two(l, 'd', 'd');
            suffix_two(l, 'e', 'd');
            suffix_three(l, 'e', 'e', 'd');
            assert(l.take(l.len() - 1) =~= stem + seq!['e', 'e']);
        }
    }

    /// The "es" of "ies" is no ending: either its "s" is one, or all of it stands for a "y".
    pub proof fn the_es_of_ies_is_no_ending(
        self,
        stem: Seq<char>,
        tag: Seq<char>,
        stress: Option<i32>,
        ctx: Option<TokenContext>,
    )
        requires
            !self.known(stem + seq!['i', 'e']),
            !self.known(stem + seq!['y']),
        ensures
            self.stem_s(stem + seq!['i', 'e', 's'], tag, stress, ctx) is None,
    {
        let l = stem + seq!['i', 'e', 's'];
        assert(self.stem_of_s(l) is None) by {
            endings_are_spelt();
            suffix_two(l, 's', 's');
            suffix_two(l, '\'', 's');
            suffix_two(l, 'e', 's');
            suffix_three(l, 'i', 'e', 's');
            assert(l.take(l.len() - 1) =~= stem + seq!['i', 'e']);
            assert(l.take(l.len() - 3) =~= stem);
            reveal_strlit("y");
            assert(stem + "y"@ =~= stem + seq!['y']);
        }
    }
}

} // verus!
