//! How a word is read: what its case, its tag and its place change, for every lexicon.

use crate::g2p::{case_stress, reading_of};
use crate::lexicon::{entry_phonemes, EntryView, LexiconView, TokenContext};
use crate::mtoken::MTokenView;
use crate::stress_laws::{
    bare_words_gain_one_mark, first_vowel_at, primary_stress_is_kept, secondary_stress_is_raised, unmarked,
};
use crate::unicode::{lowercase, uppercase};
use vstd::prelude::*;

verus! {

/// A token that asks for nothing beyond its text: no alias, no currency, no stress of its own.
pub open spec fn unadorned(t: MTokenView) -> bool {
    t.alias is None && t.currency is None && t.stress is None
}

impl LexiconView {
    /// A word that no hand-written exception speaks for, whatever the stress.
    pub open spec fn no_exception(self, w: Seq<char>, tag: Seq<char>, ctx: TokenContext) -> bool {
        forall|s: Option<i32>| (#[trigger] self.special_case(w, tag, s, ctx)) is None
    }

    /// A trusted word listed under exactly this spelling, with one pronunciation.
    pub open spec fn plainly_listed(self, w: Seq<char>, p: Seq<char>) -> bool {
        self.golds.contains_key(w) && self.golds[w] == EntryView::Word(p)
    }

    proof fn plain_reading(self, t: MTokenView, ctx: TokenContext, p: Seq<char>)
        requires
            unadorned(t),
            self.plainly_listed(reading_of(t.text), p),
            self.no_exception(reading_of(t.text), t.tag, ctx),
        ensures
            self.token_hit(t, ctx) == Some(
                (crate::stress::stressed(p, case_stress(reading_of(t.text))), 4u8),
            ),
    {
        reveal(LexiconView::hit_for);
        let w = reading_of(t.text);
        assert(self.special_case(w, t.tag, case_stress(w), ctx) is None);
        assert(self.known(w));
    }

    /// Capitals never weaken a word: a listed word with a primary stress sounds the same in
    /// every case.
    pub proof fn case_keeps_a_stressed_word(self, t: MTokenView, ctx: TokenContext, p: Seq<char>)
        requires
            unadorned(t),
            self.plainly_listed(reading_of(t.text), p),
            self.no_exception(reading_of(t.text), t.tag, ctx),
            p.contains('ˈ'),
        ensures
            self.token_hit(t, ctx) == Some((p, 4u8)),
    {
        self.plain_reading(t, ctx, p);
        let w = reading_of(t.text);
        match case_stress(w) {
            Some(h) => {
                primary_stress_is_kept(p, h);
            },
            None => {},
        }
    }

    /// A listed word without a stress mark gains one right before its first vowel where it is
    /// capitalised: a secondary mark, and a primary one where the whole word is in capitals. In
    /// small letters it stays as it is.
    pub proof fn case_stresses_a_bare_word(
        self,
        t: MTokenView,
        ctx: TokenContext,
        p: Seq<char>,
        k: int,
    )
        requires
            unadorned(t),
            self.plainly_listed(reading_of(t.text), p),
            self.no_exception(reading_of(t.text), t.tag, ctx),
            unmarked(p),
            first_vowel_at(p, k),
        ensures
            ({
                let w = reading_of(t.text);
                let hit = self.token_hit(t, ctx);
                &&& w == lowercase(w) ==> hit == Some((p, 4u8))
                &&& w != lowercase(w) && w == uppercase(w) ==> hit == Some((p.insert(k, 'ˈ'), 4u8))
                &&& w != lowercase(w) && w != uppercase(w) ==> hit == Some((p.insert(k, 'ˌ'), 4u8))
            }),
    {
        self.plain_reading(t, ctx, p);
        let w = reading_of(t.text);
        match case_stress(w) {
            Some(h) => {
                bare_words_gain_one_mark(p, h, k);
            },
            None => {},
        }
    }

    /// A listed word with secondary marks alone keeps them where it is capitalised, and has them
    /// all made primary where it is in capitals.
    pub proof fn case_raises_a_secondary_stress(
        self,
        t: MTokenView,
        ctx: TokenContext,
        p: Seq<char>,
    )
        requires
            unadorned(t),
            self.plainly_listed(reading_of(t.text), p),
            self.no_exception(reading_of(t.text), t.tag, ctx),
            !p.contains('ˈ'),
            p.contains('ˌ'),
        ensures
            ({
                let w = reading_of(t.text);
                let hit = self.token_hit(t, ctx);
                &&& w == lowercase(w) || w != uppercase(w) ==> hit == Some((p, 4u8))
                &&& w != lowercase(w) && w == uppercase(w) ==> {
                    &&& hit is Some
                    &&& hit.unwrap().1 == 4
                    &&& hit.unwrap().0.len() == p.len()
                    &&& forall|i: int|
                        0 <= i < p.len() ==> #[trigger] hit.unwrap().0[i] == (if p[i] == 'ˌ' {
                            'ˈ'
                        } else {
                            p[i]
                        })
                }
            }),
    {
        self.plain_reading(t, ctx, p);
        let w = reading_of(t.text);
        match case_stress(w) {
            Some(h) => {
                secondary_stress_is_raised(p, h);
            },
            None => {},
        }
    }
}

/// What a homograph lists under a name, or for want of it as its default.
pub open spec fn listed_as(m: Map<Seq<char>, Option<Seq<char>>>, name: Seq<char>) -> Option<
    Seq<char>,
> {
    if m.contains_key(name) {
        m[name]
    } else if m.contains_key("DEFAULT"@) {
        m["DEFAULT"@]
    } else {
        None
    }
}

/// Whether a homograph's reading for the end of a clause is the one to use.
pub open spec fn ends_a_clause(
    m: Map<Seq<char>, Option<Seq<char>>>,
    ctx: Option<TokenContext>,
) -> bool {
    ctx is Some && ctx.unwrap().future_vowel is None && m.contains_key("None"@)
}

proof fn tags_are_apart(tag: Seq<char>)
    ensures
        "VB"@.is_prefix_of(tag) ==> !"NN"@.is_prefix_of(tag) && !"RB"@.is_prefix_of(tag)
            && !"ADV"@.is_prefix_of(tag) && !"JJ"@.is_prefix_of(tag) && !"ADJ"@.is_prefix_of(tag),
        "NN"@.is_prefix_of(tag) ==> !"RB"@.is_prefix_of(tag) && !"ADV"@.is_prefix_of(tag)
            && !"JJ"@.is_prefix_of(tag) && !"ADJ"@.is_prefix_of(tag),
        "RB"@.is_prefix_of(tag) || "ADV"@.is_prefix_of(tag) ==> !"JJ"@.is_prefix_of(tag)
            && !"ADJ"@.is_prefix_of(tag),
{
    reveal_strlit("VB");
    reveal_strlit("NN");
    reveal_strlit("RB");
    reveal_strlit("ADV");
    reveal_strlit("JJ");
    reveal_strlit("ADJ");
    let first = tag.subrange(0, 2);
    let longer = tag.subrange(0, 3);
    if "VB"@.is_prefix_of(tag) {
        assert("VB"@[0] == 'V' && first[0] == tag[0]);
    }
    if "NN"@.is_prefix_of(tag) {
        assert("NN"@[0] == 'N' && first[0] == tag[0]);
    }
    if "RB"@.is_prefix_of(tag) {
        assert("RB"@[0] == 'R' && first[0] == tag[0]);
    }
    if "JJ"@.is_prefix_of(tag) {
        assert("JJ"@[0] == 'J' && first[0] == tag[0]);
    }
    if "ADV"@.is_prefix_of(tag) {
        assert("ADV"@[0] == 'A' && longer[0] == tag[0]);
        assert("ADV"@[2] == 'V' && longer[2] == tag[2]);
    }
    if "ADJ"@.is_prefix_of(tag) {
        assert("ADJ"@[0] == 'A' && longer[0] == tag[0]);
        assert("ADJ"@[2] == 'J' && longer[2] == tag[2]);
    }
}

/// A homograph that does not list the tag itself goes by the part of speech: what it lists as
/// "VERB" for every tag that begins with VB, as "NOUN" for NN, as "ADV" for RB and ADV, as "ADJ"
/// for JJ and ADJ, and its default where it does not list that, or for any other tag.
pub proof fn homographs_go_by_the_part_of_speech(
    m: Map<Seq<char>, Option<Seq<char>>>,
    tag: Seq<char>,
    ctx: Option<TokenContext>,
)
    requires
        !m.contains_key(tag),
        !ends_a_clause(m, ctx),
    ensures
        ({
            let r = entry_phonemes(EntryView::Tagged(m), tag, ctx);
            let verb = "VB"@.is_prefix_of(tag);
            let noun = "NN"@.is_prefix_of(tag);
            let adverb = "RB"@.is_prefix_of(tag) || "ADV"@.is_prefix_of(tag);
            let adjective = "JJ"@.is_prefix_of(tag) || "ADJ"@.is_prefix_of(tag);
            &&& verb ==> r == listed_as(m, "VERB"@)
            &&& noun ==> r == listed_as(m, "NOUN"@)
            &&& adverb ==> r == listed_as(m, "ADV"@)
            &&& adjective ==> r == listed_as(m, "ADJ"@)
            &&& !verb && !noun && !adverb && !adjective ==> r == listed_as(m, tag)
        }),
{
    tags_are_apart(tag);
}

/// A homograph that lists the tag itself is read as listed there, whatever else it lists; but at
/// the end of a clause the reading for that comes before every other.
pub proof fn listed_tags_win(
    m: Map<Seq<char>, Option<Seq<char>>>,
    tag: Seq<char>,
    ctx: Option<TokenContext>,
)
    ensures
        ends_a_clause(m, ctx) ==> entry_phonemes(EntryView::Tagged(m), tag, ctx) == m["None"@],
        !ends_a_clause(m, ctx) && m.contains_key(tag) ==> entry_phonemes(
            EntryView::Tagged(m),
            tag,
            ctx,
        ) == m[tag],
{
}

/// The reading of a verb never depends on what is listed for the other parts of speech, nor that
/// of a noun, an adverb or an adjective.
pub proof fn other_parts_of_speech_do_not_matter(
    m: Map<Seq<char>, Option<Seq<char>>>,
    tag: Seq<char>,
    ctx: Option<TokenContext>,
    other: Seq<char>,
    reading: Option<Seq<char>>,
)
    requires
        other != tag,
        other == "VERB"@ || other == "NOUN"@ || other == "ADV"@ || other == "ADJ"@,
        "VB"@.is_prefix_of(tag) ==> other != "VERB"@,
        "NN"@.is_prefix_of(tag) ==> other != "NOUN"@,
        "RB"@.is_prefix_of(tag) || "ADV"@.is_prefix_of(tag) ==> other != "ADV"@,
        "JJ"@.is_prefix_of(tag) || "ADJ"@.is_prefix_of(tag) ==> other != "ADJ"@,
    ensures
        entry_phonemes(EntryView::Tagged(m.insert(other, reading)), tag, ctx) == entry_phonemes(
            EntryView::Tagged(m),
            tag,
            ctx,
        ),
{
    tags_are_apart(tag);
    reveal_strlit("VERB");
    reveal_strlit("NOUN");
    reveal_strlit("ADV");
    reveal_strlit("ADJ");
    reveal_strlit("DEFAULT");
    reveal_strlit("None");
    assert("VERB"@[0] == 'V');
    assert("NOUN"@[1] == 'O' && "None"@[1] == 'o');
    assert("ADV"@[2] == 'V' && "ADJ"@[2] == 'J');
    assert("DEFAULT"@.len() == 7);
    assert("VERB"@[0] != "NOUN"@[0] && "None"@[0] != "VERB"@[0]);
    assert("ADV"@.len() == 3 && "ADJ"@.len() == 3 && "None"@.len() == 4);
    assert("VERB"@.len() == 4 && "NOUN"@.len() == 4);
}

impl LexiconView {
    /// Looked up without a stress, a trusted homograph sounds as it is listed, and is trusted: by
    /// its tag, by its part of speech, or by default.
    pub proof fn homographs_are_looked_up(
        self,
        word: Seq<char>,
        m: Map<Seq<char>, Option<Seq<char>>>,
        tag: Seq<char>,
        ctx: Option<TokenContext>,
        p: Seq<char>,
    )
        requires
            self.golds.contains_key(word),
            self.golds[word] == EntryView::Tagged(m),
            !m.contains_key(tag),
            !ends_a_clause(m, ctx),
        ensures
            "VB"@.is_prefix_of(tag) && listed_as(m, "VERB"@) == Some(p) ==> self.lookup(
                word,
                tag,
                None,
                ctx,
            ) == Some((p, 4u8)),
            "NN"@.is_prefix_of(tag) && listed_as(m, "NOUN"@) == Some(p) ==> self.lookup(
                word,
                tag,
                None,
                ctx,
            ) == Some((p, 4u8)),
            "RB"@.is_prefix_of(tag) && listed_as(m, "ADV"@) == Some(p) ==> self.lookup(
                word,
                tag,
                None,
                ctx,
            ) == Some((p, 4u8)),
            "JJ"@.is_prefix_of(tag) && listed_as(m, "ADJ"@) == Some(p) ==> self.lookup(
                word,
                tag,
                None,
                ctx,
            ) == Some((p, 4u8)),
    {
        homographs_go_by_the_part_of_speech(m, tag, ctx);
    }
}

impl LexiconView {
    /// A trusted entry comes before any other and is rated four; a word listed only among the
    /// others is rated three. Neither looks at the other list.
    pub proof fn trusted_words_come_first(
        self,
        word: Seq<char>,
        tag: Seq<char>,
        ctx: Option<TokenContext>,
        p: Seq<char>,
    )
        ensures
            self.golds.contains_key(word) && self.golds[word] == EntryView::Word(p) ==> self.lookup(
                word,
                tag,
                None,
                ctx,
            ) == Some((p, 4u8)),
            !self.golds.contains_key(word) && word != uppercase(word) && self.silvers.contains_key(
                word,
            ) && self.silvers[word] == EntryView::Word(p) ==> self.lookup(word, tag, None, ctx)
                == Some((p, 3u8)),
    {
    }

    /// A word in capitals that is not listed so is looked up in small letters. One that is no name
    /// sounds as it is listed there; a name keeps a trusted sound with a primary stress, and is spelt
    /// out for want of one.
    pub proof fn capitals_are_looked_up_in_small_letters(
        self,
        word: Seq<char>,
        tag: Seq<char>,
        ctx: Option<TokenContext>,
        p: Seq<char>,
    )
        requires
            word == uppercase(word),
            !self.golds.contains_key(word),
            self.golds.contains_key(lowercase(word)),
            self.golds[lowercase(word)] == EntryView::Word(p),
        ensures
            tag != "NNP"@ || p.contains('ˈ') ==> self.lookup(word, tag, None, ctx) == Some((p, 4u8)),
            tag == "NNP"@ && !p.contains('ˈ') && self.spelt(lowercase(word)) is Some ==> self.lookup(
                word,
                tag,
                None,
                ctx,
            ) == self.spelt(lowercase(word)),
    {
    }

    /// A name in capitals is not sought among the words that are not trusted: it is spelt out.
    pub proof fn names_in_capitals_are_spelt(
        self,
        word: Seq<char>,
        stress: Option<i32>,
        ctx: Option<TokenContext>,
    )
        requires
            word == uppercase(word),
            !self.golds.contains_key(word),
            !self.golds.contains_key(lowercase(word)),
        ensures
            self.lookup(word, "NNP"@, stress, ctx) == self.spelt(lowercase(word)),
    {
    }

    /// A word that is listed nowhere is spelt out, whatever the stress.
    pub proof fn unlisted_words_are_spelt(
        self,
        word: Seq<char>,
        tag: Seq<char>,
        stress: Option<i32>,
        ctx: Option<TokenContext>,
    )
        requires
            word != uppercase(word),
            !self.golds.contains_key(word),
            !self.silvers.contains_key(word),
        ensures
            self.lookup(word, tag, stress, ctx) == self.spelt(word),
    {
    }

    /// Letters are named one after the other: the names of two words in a row are those of both.
    /// What is no letter has no name, and a letter has that of its capital.
    pub proof fn letters_are_named_in_order(self, a: Seq<char>, b: Seq<char>, c: char, p: Seq<char>)
        ensures
            self.letter_names(a) is Some && self.letter_names(b) is Some ==> self.letter_names(a + b)
                == Some(self.letter_names(a).unwrap() + self.letter_names(b).unwrap()),
            self.letter_names(a) is None || self.letter_names(b) is None ==> self.letter_names(a + b)
                is None,
            !crate::unicode::alphabetic(c) ==> self.letter_names(seq![c]) == Some(
                Seq::<char>::empty(),
            ),
            crate::unicode::alphabetic(c) && self.plainly_listed(
                crate::unicode::char_uppercase(c),
                p,
            ) ==> self.letter_names(seq![c]) == Some(p),
        decreases b.len(),
    {
        let one = seq![c];
        assert(one.drop_last() =~= Seq::<char>::empty());
        assert(one.last() == c);
        assert(self.letter_names(Seq::<char>::empty()) == Some(Seq::<char>::empty()));
        assert(Seq::<char>::empty() + p =~= p);
        if b.len() == 0 {
            assert(a + b =~= a);
            if self.letter_names(a) is Some {
                assert(self.letter_names(a).unwrap() + Seq::<char>::empty()
                    =~= self.letter_names(a).unwrap());
            }
        } else {
            self.letters_are_named_in_order(a, b.drop_last(), c, p);
            assert((a + b).drop_last() =~= a + b.drop_last());
            assert((a + b).last() == b.last());
            if self.letter_names(a) is Some && self.letter_names(b) is Some {
                assert(self.letter_names(a + b).unwrap() =~= self.letter_names(a).unwrap()
                    + self.letter_names(b).unwrap());
            }
        }
    }

    /// A word spelt out has its only primary stress on its last mark, and is rated three. It has one
    /// wherever the names of its letters have a mark or a vowel.
    pub proof fn spelling_stresses_the_last_letter(self, word: Seq<char>)
        requires
            self.spelt(word) is Some,
        ensures
            ({
                let r = self.spelt(word).unwrap();
                let names = self.letter_names(word).unwrap();
                &&& r.1 == 3
                &&& self.letter_names(word) is Some
                &&& crate::stress::without_marks(r.0) == crate::stress::without_marks(names)
                &&& forall|i: int, j: int|
                    0 <= i < j < r.0.len() && #[trigger] r.0[i] == 'ˈ' ==> #[trigger] r.0[j] != 'ˈ'
                        && r.0[j] != 'ˌ'
                &&& names.contains('ˈ') || names.contains('ˌ') || crate::stress::has_vowel(names)
                    ==> r.0.contains('ˈ')
            }),
    {
        let names = self.letter_names(word).unwrap();
        let flat = crate::stress::stressed(names, Some(crate::stress::LEVEL));
        crate::stress_laws::demotion_leaves_no_primary(names, crate::stress::LEVEL);
        crate::stress_laws::stress_keeps_phonemes(names, Some(crate::stress::LEVEL));
        if names.contains('ˈ') || names.contains('ˌ') || crate::stress::has_vowel(names) {
            crate::stress_laws::levelling_leaves_secondary(names);
        }
        let p = crate::text::last_piece(flat, 'ˌ');
        crate::text::last_piece_bounds(flat, 'ˌ');
        let r = self.spelt(word).unwrap().0;
        assert(forall|k: int| 0 <= k < flat.len() ==> flat.contains(#[trigger] flat[k]));
        if p > 0 {
            assert(r == flat.update(p - 1, 'ˈ'));
            assert(r[p - 1] == 'ˈ');
            mark_changes_keep_phonemes(flat, p - 1, 'ˈ');
        } else {
            if flat.contains('ˌ') {
                let k = choose|k: int| 0 <= k < flat.len() && flat[k] == 'ˌ';
                assert(flat[k] != 'ˌ');
            }
        }
    }
}

proof fn mark_changes_keep_phonemes(s: Seq<char>, k: int, m: char)
    requires
        0 <= k < s.len(),
        crate::stress::mark(s[k]),
        crate::stress::mark(m),
    ensures
        crate::stress::without_marks(s.update(k, m)) == crate::stress::without_marks(s),
    decreases s.len(),
{
    let t = s.drop_last();
    let u = s.update(k, m);
    if k == s.len() - 1 {
        assert(u.drop_last() =~= t);
    } else {
        mark_changes_keep_phonemes(t, k, m);
        assert(u.drop_last() =~= t.update(k, m));
        assert(u.last() == s.last());
    }
}

impl LexiconView {
    /// A word that no exception speaks for and that can be looked up is looked up as it stands,
    /// unless it is better read in small letters.
    pub proof fn known_words_are_looked_up(
        self,
        word: Seq<char>,
        tag: Seq<char>,
        stress: Option<i32>,
        ctx: TokenContext,
    )
        requires
            self.no_exception(word, tag, ctx),
            self.golds.contains_key(word) || self.silvers.contains_key(word),
        ensures
            self.word(word, tag, stress, ctx) == self.lookup(word, tag, stress, Some(ctx)),
    {
        assert(self.special_case(word, tag, stress, ctx) is None);
    }

    /// A capitalised word that is not listed so, and is no short name, sounds as its listed form in
    /// small letters under the same stress.
    pub proof fn capitalised_words_sound_as_small_ones(
        self,
        word: Seq<char>,
        tag: Seq<char>,
        stress: Option<i32>,
        ctx: TokenContext,
    )
        requires
            self.no_exception(word, tag, ctx),
            word.len() > 1,
            crate::words::letters_and_apostrophes(word),
            word != lowercase(word),
            word == uppercase(word) || word.skip(1) == lowercase(word.skip(1)),
            tag != "NNP"@ || word.len() > 7,
            !self.golds.contains_key(word),
            !self.silvers.contains_key(word),
            self.golds.contains_key(lowercase(word)) || self.silvers.contains_key(lowercase(word)),
        ensures
            self.word(word, tag, stress, ctx) == self.lookup(
                lowercase(word),
                tag,
                stress,
                Some(ctx),
            ),
    {
        assert(self.special_case(word, tag, stress, ctx) is None);
    }

    /// A short name that is listed nowhere is not read in small letters: where it is itself known it
    /// is looked up as it stands.
    pub proof fn short_names_stay_capitalised(
        self,
        word: Seq<char>,
        stress: Option<i32>,
        ctx: TokenContext,
    )
        requires
            self.no_exception(word, "NNP"@, ctx),
            word.len() <= 7,
            self.known(word),
        ensures
            self.word(word, "NNP"@, stress, ctx) == self.lookup(word, "NNP"@, stress, Some(ctx)),
    {
        assert(self.special_case(word, "NNP"@, stress, ctx) is None);
    }

    /// A plural possessive in "s'" is read as the possessive in "'s", and a word with a single
    /// apostrophe behind it as the word, where the form as it stands is unknown.
    pub proof fn trailing_apostrophes(
        self,
        w: Seq<char>,
        tag: Seq<char>,
        stress: Option<i32>,
        ctx: TokenContext,
    )
        requires
            w.len() > 0,
            self.no_exception(w.push('\''), tag, ctx),
            !self.better_small(w.push('\''), tag, stress, ctx),
            !self.known(w.push('\'')),
        ensures
            w.last() == 's' && self.known(w.drop_last() + "'s"@) ==> self.word(
                w.push('\''),
                tag,
                stress,
                ctx,
            ) == self.lookup(w.drop_last() + "'s"@, tag, stress, Some(ctx)),
            self.known(w) && (w.last() != 's' || !self.known(w.drop_last() + "'s"@)) ==> self.word(
                w.push('\''),
                tag,
                stress,
                ctx,
            ) == self.lookup(w, tag, stress, Some(ctx)),
    {
        let l = w.push('\'');
        assert(self.special_case(l, tag, stress, ctx) is None);
        reveal_strlit("s'");
        assert(l.drop_last() =~= w);
        assert(l.take(l.len() - 2) =~= w.drop_last());
        let tail = l.subrange(l.len() - 2, l.len() as int);
        assert(tail[0] == w.last() && tail[1] == '\'');
        if w.last() == 's' {
            assert(tail =~= "s'"@);
        } else {
            if "s'"@.is_suffix_of(l) {
                assert("s'"@[0] == tail[0]);
            }
        }
    }
}

impl LexiconView {
    /// A capitalised or shouted word that is not listed so sounds as its small letters do, also where
    /// only an ending makes those readable.
    pub proof fn capitalised_inflections_sound_as_small_ones(
        self,
        word: Seq<char>,
        tag: Seq<char>,
        stress: Option<i32>,
        ctx: TokenContext,
    )
        requires
            self.no_exception(word, tag, ctx),
            self.no_exception(lowercase(word), tag, ctx),
            lowercase(lowercase(word)) == lowercase(word),
            word.len() > 1,
            crate::words::letters_and_apostrophes(word),
            word != lowercase(word),
            word == uppercase(word) || word.skip(1) == lowercase(word.skip(1)),
            tag != "NNP"@ || word.len() > 7,
            !self.golds.contains_key(word),
            !self.silvers.contains_key(word),
            self.stem_s(lowercase(word), tag, stress, Some(ctx)) is Some || self.stem_ed(
                lowercase(word),
                tag,
                stress,
                Some(ctx),
            ) is Some || self.stem_ing(lowercase(word), tag, stress, Some(ctx)) is Some,
        ensures
            self.word(word, tag, stress, ctx) == self.word(lowercase(word), tag, stress, ctx),
    {
        let small = lowercase(word);
        assert(self.special_case(word, tag, stress, ctx) is None);
        assert(self.special_case(small, tag, stress, ctx) is None);
        assert(self.better_small(word, tag, stress, ctx));
        assert(!self.better_small(small, tag, stress, ctx));
    }
}

} // verus!
