//! How the words with rules of their own are read, for every lexicon and every place.

use crate::lexicon::{EntryView, LexiconView, TokenContext};
use crate::words::initials;
use vstd::prelude::*;

verus! {

/// A word without a full stop is no row of initials.
proof fn no_stop_no_initials(w: Seq<char>)
    requires
        !w.contains('.'),
    ensures
        !initials(w),
{
    if initials(w) {
        let (a, b, c) = choose|a: int, b: int, c: int|
            0 <= a < b < c < w.len() && #[trigger] w[a] != '.' && #[trigger] w[b] == '.'
                && #[trigger] w[c] != '.';
        assert(w.contains(w[b]));
    }
}

/// The literals that the exceptions are told apart by.
proof fn exceptions_are_spelt()
    ensures
        "a"@ == seq!['a'],
        "A"@ == seq!['A'],
        "am"@ == seq!['a', 'm'],
        "Am"@ == seq!['A', 'm'],
        "AM"@ == seq!['A', 'M'],
        "an"@ == seq!['a', 'n'],
        "An"@ == seq!['A', 'n'],
        "AN"@ == seq!['A', 'N'],
        "I"@ == seq!['I'],
        "by"@ == seq!['b', 'y'],
        "By"@ == seq!['B', 'y'],
        "BY"@ == seq!['B', 'Y'],
        "to"@ == seq!['t', 'o'],
        "To"@ == seq!['T', 'o'],
        "TO"@ == seq!['T', 'O'],
        "in"@ == seq!['i', 'n'],
        "In"@ == seq!['I', 'n'],
        "IN"@ == seq!['I', 'N'],
        "the"@ == seq!['t', 'h', 'e'],
        "The"@ == seq!['T', 'h', 'e'],
        "THE"@ == seq!['T', 'H', 'E'],
        "used"@ == seq!['u', 's', 'e', 'd'],
        "Used"@ == seq!['U', 's', 'e', 'd'],
        "USED"@ == seq!['U', 'S', 'E', 'D'],
        "."@ == seq!['.'],
        "/"@ == seq!['/'],
        "%"@ == seq!['%'],
        "&"@ == seq!['&'],
        "+"@ == seq!['+'],
        "@"@ == seq!['@'],
{
    reveal_strlit("a");
    reveal_strlit("A");
    reveal_strlit("am");
    reveal_strlit("Am");
    reveal_strlit("AM");
    reveal_strlit("an");
    reveal_strlit("An");
    reveal_strlit("AN");
    reveal_strlit("I");
    reveal_strlit("by");
    reveal_strlit("By");
    reveal_strlit("BY");
    reveal_strlit("to");
    reveal_strlit("To");
    reveal_strlit("TO");
    reveal_strlit("in");
    reveal_strlit("In");
    reveal_strlit("IN");
    reveal_strlit("the");
    reveal_strlit("The");
    reveal_strlit("THE");
    reveal_strlit("used");
    reveal_strlit("Used");
    reveal_strlit("USED");
    reveal_strlit(".");
    reveal_strlit("/");
    reveal_strlit("%");
    reveal_strlit("&");
    reveal_strlit("+");
    reveal_strlit("@");
}

/// Two words that differ in length, or in a letter, are two words.
proof fn apart(a: Seq<char>, b: Seq<char>)
    requires
        a.len() != b.len() || (a.len() > 0 && a[0] != b[0]) || (a.len() > 1 && a[1] != b[1]),
    ensures
        a != b,
{
}

impl LexiconView {
    /// The article "a" is a schwa where it is a determiner and the name of the letter elsewhere,
    /// in both cases and in every context.
    pub proof fn the_article_a(
        self,
        word: Seq<char>,
        tag: Seq<char>,
        stress: Option<i32>,
        ctx: TokenContext,
    )
        requires
            word == "a"@ || word == "A"@,
        ensures
            tag == "DT"@ ==> self.word(word, tag, stress, ctx) == Some(("ɐ"@, 4u8)),
            tag != "DT"@ ==> self.word(word, tag, stress, ctx) == Some(("ˈA"@, 4u8)),
    {
        exceptions_are_spelt();
        no_stop_no_initials(word);
        apart(word, "%"@);
        apart(word, "&"@);
        apart(word, "+"@);
        apart(word, "@"@);
        apart(word, "."@);
        apart(word, "/"@);
    }

    proof fn a_word_of_letters(self, word: Seq<char>)
        requires
            word.len() >= 2,
            !word.contains('.'),
        ensures
            !initials(word),
            crate::lexicon::symbol_word(word) is None,
            crate::lexicon::address_symbol_word(word) is None,
            word != "a"@,
            word != "A"@,
            word != "I"@,
    {
        exceptions_are_spelt();
        no_stop_no_initials(word);
        apart(word, "%"@);
        apart(word, "&"@);
        apart(word, "+"@);
        apart(word, "@"@);
        apart(word, "."@);
        apart(word, "/"@);
        apart(word, "a"@);
        apart(word, "A"@);
        apart(word, "I"@);
    }

    /// "the" ends in a full vowel before a vowel, and in a schwa before a consonant and at the end
    /// of a clause. In capitals that holds of the determiner alone.
    pub proof fn the_article_the(
        self,
        word: Seq<char>,
        tag: Seq<char>,
        stress: Option<i32>,
        ctx: TokenContext,
    )
        requires
            word == "the"@ || word == "The"@ || (word == "THE"@ && tag == "DT"@),
        ensures
            ctx.future_vowel == Some(true) ==> self.word(word, tag, stress, ctx) == Some(
                ("ði"@, 4u8),
            ),
            ctx.future_vowel != Some(true) ==> self.word(word, tag, stress, ctx) == Some(
                ("ðə"@, 4u8),
            ),
    {
        exceptions_are_spelt();
        self.a_word_of_letters(word);
    }

    /// "to" has its listed sound at the end of a clause, a schwa before a consonant and a rounded
    /// vowel before a vowel.
    pub proof fn the_particle_to(
        self,
        word: Seq<char>,
        tag: Seq<char>,
        stress: Option<i32>,
        ctx: TokenContext,
    )
        requires
            word == "to"@ || word == "To"@ || (word == "TO"@ && (tag == "TO"@ || tag == "IN"@)),
        ensures
            ctx.future_vowel == Some(false) ==> self.word(word, tag, stress, ctx) == Some(
                ("tə"@, 4u8),
            ),
            ctx.future_vowel == Some(true) ==> self.word(word, tag, stress, ctx) == Some(
                ("tʊ"@, 4u8),
            ),
            ctx.future_vowel is None && self.golds.contains_key("to"@) && self.golds["to"@] is Word
                ==> self.word(word, tag, stress, ctx) == Some((self.golds["to"@]->Word_0, 4u8)),
    {
        exceptions_are_spelt();
        self.a_word_of_letters(word);
    }

    /// "in" is stressed at the end of a clause, and wherever it is no preposition.
    pub proof fn the_preposition_in(
        self,
        word: Seq<char>,
        tag: Seq<char>,
        stress: Option<i32>,
        ctx: TokenContext,
    )
        requires
            word == "in"@ || word == "In"@ || (word == "IN"@ && tag != "NNP"@),
        ensures
            ctx.future_vowel is Some && tag == "IN"@ ==> self.word(word, tag, stress, ctx) == Some(
                ("ɪn"@, 4u8),
            ),
            ctx.future_vowel is None || tag != "IN"@ ==> self.word(word, tag, stress, ctx) == Some(
                ("ˈɪn"@, 4u8),
            ),
    {
        exceptions_are_spelt();
        self.a_word_of_letters(word);
    }

    /// "an" has a reduced vowel in every context, unless it is a noun in capitals.
    pub proof fn the_article_an(
        self,
        word: Seq<char>,
        tag: Seq<char>,
        stress: Option<i32>,
        ctx: TokenContext,
    )
        requires
            word == "an"@ || word == "An"@ || (word == "AN"@ && !"NN"@.is_prefix_of(tag)),
        ensures
            self.word(word, tag, stress, ctx) == Some(("ɐn"@, 4u8)),
    {
        exceptions_are_spelt();
        self.a_word_of_letters(word);
    }

    /// "am" is reduced only in small letters, with something behind it and no stress laid on it;
    /// anywhere else it has its listed sound.
    pub proof fn the_verb_am(
        self,
        word: Seq<char>,
        tag: Seq<char>,
        stress: Option<i32>,
        ctx: TokenContext,
    )
        requires
            word == "am"@ || word == "Am"@ || word == "AM"@,
            !"NN"@.is_prefix_of(tag),
            self.golds.contains_key("am"@),
            self.golds["am"@] is Word,
        ensures
            word == "am"@ && ctx.future_vowel is Some && (stress is None || stress.unwrap() <= 0)
                ==> self.word(word, tag, stress, ctx) == Some(("ɐm"@, 4u8)),
            word != "am"@ || ctx.future_vowel is None || (stress is Some && stress.unwrap() > 0)
                ==> self.word(word, tag, stress, ctx) == Some((self.golds["am"@]->Word_0, 4u8)),
    {
        exceptions_are_spelt();
        self.a_word_of_letters(word);
    }

    /// The pronoun "I" has a secondary stress.
    pub proof fn the_pronoun_i(self, stress: Option<i32>, ctx: TokenContext)
        ensures
            self.word("I"@, "PRP"@, stress, ctx) == Some(("ˌI"@, 4u8)),
    {
        exceptions_are_spelt();
        no_stop_no_initials("I"@);
        let word = "I"@;
        apart(word, "%"@);
        apart(word, "&"@);
        apart(word, "+"@);
        apart(word, "@"@);
        apart(word, "."@);
        apart(word, "/"@);
    }

    /// "by" as an adverb carries a primary stress, whatever the case.
    pub proof fn the_adverb_by(
        self,
        word: Seq<char>,
        tag: Seq<char>,
        stress: Option<i32>,
        ctx: TokenContext,
    )
        requires
            word == "by"@ || word == "By"@ || word == "BY"@,
            "RB"@.is_prefix_of(tag) || "ADV"@.is_prefix_of(tag),
        ensures
            self.word(word, tag, stress, ctx) == Some(("bˈI"@, 4u8)),
    {
        exceptions_are_spelt();
        self.a_word_of_letters(word);
        reveal_strlit("VB");
        reveal_strlit("NN");
        reveal_strlit("RB");
        reveal_strlit("ADV");
        if "RB"@.is_prefix_of(tag) {
            assert("RB"@[0] == tag.subrange(0, 2)[0]);
        } else {
            assert("ADV"@[0] == tag.subrange(0, 3)[0]);
        }
        if "VB"@.is_prefix_of(tag) {
            assert("VB"@[0] == tag.subrange(0, 2)[0]);
        }
        if "NN"@.is_prefix_of(tag) {
            assert("NN"@[0] == tag.subrange(0, 2)[0]);
        }
    }

    /// "used" before "to", as a past tense or an adjective, has the sound listed for that; any
    /// other "used" has the default.
    pub proof fn the_word_used(
        self,
        word: Seq<char>,
        tag: Seq<char>,
        stress: Option<i32>,
        ctx: TokenContext,
        m: Map<Seq<char>, Option<Seq<char>>>,
        p: Seq<char>,
    )
        requires
            word == "used"@ || word == "Used"@ || word == "USED"@,
            self.golds.contains_key("used"@),
            self.golds["used"@] == EntryView::Tagged(m),
        ensures
            ctx.future_to && (tag == "VBD"@ || tag == "JJ"@) && m.contains_key("VBD"@) && m["VBD"@]
                == Some(p) ==> self.word(word, tag, stress, ctx) == Some((p, 4u8)),
            !(ctx.future_to && (tag == "VBD"@ || tag == "JJ"@)) && m.contains_key("DEFAULT"@)
                && m["DEFAULT"@] == Some(p) ==> self.word(word, tag, stress, ctx) == Some(
                (p, 4u8),
            ),
    {
        exceptions_are_spelt();
        self.a_word_of_letters(word);
    }

    /// A sign is read as the word for it.
    pub proof fn signs_are_words(self, tag: Seq<char>, stress: Option<i32>, ctx: TokenContext)
        ensures
            self.special_case("%"@, tag, stress, ctx) == self.lookup(
                "percent"@,
                ""@,
                None,
                Some(ctx),
            ),
            self.special_case("&"@, tag, stress, ctx) == self.lookup("and"@, ""@, None, Some(ctx)),
            self.special_case("+"@, tag, stress, ctx) == self.lookup("plus"@, ""@, None, Some(ctx)),
            self.special_case("@"@, tag, stress, ctx) == self.lookup("at"@, ""@, None, Some(ctx)),
            self.special_case("."@, "ADD"@, stress, ctx) == self.lookup(
                "dot"@,
                ""@,
                Some((-1) as i32),
                Some(ctx),
            ),
            self.special_case("/"@, "ADD"@, stress, ctx) == self.lookup(
                "slash"@,
                ""@,
                Some((-1) as i32),
                Some(ctx),
            ),
    {
        exceptions_are_spelt();
        assert(seq!['%'][0] != seq!['&'][0] && seq!['%'][0] != seq!['.'][0]);
        apart("%"@, "."@);
        apart("%"@, "/"@);
        apart("&"@, "."@);
        apart("&"@, "/"@);
        apart("&"@, "%"@);
        apart("+"@, "."@);
        apart("+"@, "/"@);
        apart("+"@, "%"@);
        apart("+"@, "&"@);
        apart("@"@, "."@);
        apart("@"@, "/"@);
        apart("@"@, "%"@);
        apart("@"@, "&"@);
        apart("@"@, "+"@);
        apart("/"@, "."@);
    }
}

/// Initials are letters set apart by full stops: one or two letters between stops, at least one stop
/// with letters on both sides.
pub proof fn initials_are_set_apart(a: char, b: char, c: char, d: char)
    requires
        crate::unicode::alphabetic(a),
        crate::unicode::alphabetic(b),
        crate::unicode::alphabetic(c),
        crate::unicode::alphabetic(d),
        a != '.',
        b != '.',
        c != '.',
        d != '.',
    ensures
        initials(seq![a, '.', b]),
        initials(seq![a, '.', b, '.']),
        initials(seq![a, b, '.', c]),
        !initials(seq![a, '.']),
        !initials(seq![a, b]),
        !initials(seq![a, b, c, '.', d]),
        !initials(seq![a, '.', '1']),
{
    let x = seq![a, '.', b];
    assert(x[0] != '.' && x[1] == '.' && x[2] != '.');
    let y = seq![a, '.', b, '.'];
    assert(y[0] != '.' && y[1] == '.' && y[2] != '.');
    let z = seq![a, b, '.', c];
    assert(z[0] != '.' && z[2] == '.' && z[3] != '.');
    let u = seq![a, b, c, '.', d];
    if initials(u) {
        let n: int = 0;
        assert(u[n] == '.' || u[n + 1] == '.' || u[n + 2] == '.');
    }
    let v = seq![a, '.', '1'];
    if initials(v) {
        assert(v[2] == '.' || crate::unicode::alphabetic(v[2]));
    }
    let w = seq![a, '.'];
    if initials(w) {
        let (i, j, k) = choose|i: int, j: int, k: int|
            0 <= i < j < k < w.len() && #[trigger] w[i] != '.' && #[trigger] w[j] == '.'
                && #[trigger] w[k] != '.';
    }
    let t = seq![a, b];
    if initials(t) {
        let (i, j, k) = choose|i: int, j: int, k: int|
            0 <= i < j < k < t.len() && #[trigger] t[i] != '.' && #[trigger] t[j] == '.'
                && #[trigger] t[k] != '.';
    }
}

impl LexiconView {
    /// Initials are spelt out, whatever their tag, their stress and their place.
    pub proof fn initials_are_spelt_out(
        self,
        word: Seq<char>,
        tag: Seq<char>,
        stress: Option<i32>,
        ctx: TokenContext,
    )
        requires
            initials(word),
            self.spelt(word) is Some,
        ensures
            self.word(word, tag, stress, ctx) == self.spelt(word),
    {
        exceptions_are_spelt();
        let (i, j, k) = choose|i: int, j: int, k: int|
            0 <= i < j < k < word.len() && #[trigger] word[i] != '.' && #[trigger] word[j] == '.'
                && #[trigger] word[k] != '.';
        assert(word.len() >= 3);
        assert("."@.len() == 1 && "/"@.len() == 1 && "%"@.len() == 1 && "&"@.len() == 1 && "+"@.len()
            == 1 && "@"@.len() == 1);
    }

    /// The preposition "vs", with or without its stop and in any case, is read as "versus".
    pub proof fn the_preposition_versus(
        self,
        word: Seq<char>,
        stress: Option<i32>,
        ctx: TokenContext,
    )
        requires
            word == "vs"@ || word == "vs."@ || word == "VS"@ || word == "Vs."@,
        ensures
            self.special_case(word, "IN"@, stress, ctx) == self.lookup(
                "versus"@,
                ""@,
                None,
                Some(ctx),
            ),
    {
        exceptions_are_spelt();
        reveal_strlit("vs");
        reveal_strlit("vs.");
        reveal_strlit("VS");
        reveal_strlit("Vs.");
        reveal_strlit("IN");
        reveal_strlit("ADD");
        reveal_strlit("PRP");
        assert("IN"@.len() == 2 && "ADD"@.len() == 3);
        assert(word.len() == 2 || word.len() == 3);
        assert(word[0] == 'v' || word[0] == 'V');
        if initials(word) {
            let (i, j, k) = choose|i: int, j: int, k: int|
                0 <= i < j < k < word.len() && #[trigger] word[i] != '.' && #[trigger] word[j] == '.'
                    && #[trigger] word[k] != '.';
        }
        assert(vstd::utf8::is_ascii_chars(word));
        assert(('V' as u32 + 32) as u8 as char == 'v');
        assert(('S' as u32 + 32) as u8 as char == 's');
        if word.len() == 2 {
            assert(crate::unicode::lowercase(word) =~= "vs"@);
        } else {
            assert(crate::unicode::lowercase(word) =~= "vs."@);
        }
        self.long_enough(word);
    }

    proof fn long_enough(self, word: Seq<char>)
        requires
            word.len() >= 2,
            word[0] == 'v' || word[0] == 'V',
        ensures
            crate::lexicon::symbol_word(word) is None,
            word != "a"@ && word != "A"@ && word != "am"@ && word != "Am"@ && word != "AM"@ && word
                != "an"@ && word != "An"@ && word != "AN"@ && word != "I"@ && word != "by"@ && word
                != "By"@ && word != "BY"@ && word != "to"@ && word != "To"@ && word != "TO"@ && word
                != "in"@ && word != "In"@ && word != "IN"@ && word != "the"@ && word != "The"@ && word
                != "THE"@ && word != "used"@ && word != "Used"@ && word != "USED"@,
    {
        exceptions_are_spelt();
        apart(word, "%"@);
        apart(word, "&"@);
        apart(word, "+"@);
        apart(word, "@"@);
    }

    /// A word under no known spelling is tried with its endings: -s first, then -ed, then -ing. On a
    /// word without a stress -ing asks for half a step.
    pub proof fn endings_are_tried_in_order(
        self,
        w: Seq<char>,
        tag: Seq<char>,
        stress: Option<i32>,
        ctx: TokenContext,
        h: (Seq<char>, u8),
    )
        requires
            self.special_case(w, tag, stress, ctx) is None,
            !self.better_small(w, tag, stress, ctx),
            self.known_spelling(w) is None,
        ensures
            self.stem_s(w, tag, stress, Some(ctx)) == Some(h) ==> self.word(w, tag, stress, ctx)
                == Some(h),
            self.stem_s(w, tag, stress, Some(ctx)) is None && self.stem_ed(
                w,
                tag,
                stress,
                Some(ctx),
            ) == Some(h) ==> self.word(w, tag, stress, ctx) == Some(h),
            self.stem_s(w, tag, stress, Some(ctx)) is None && self.stem_ed(
                w,
                tag,
                stress,
                Some(ctx),
            ) is None && stress is Some ==> self.word(w, tag, stress, ctx) == self.stem_ing(
                w,
                tag,
                stress,
                Some(ctx),
            ),
            self.stem_s(w, tag, stress, Some(ctx)) is None && self.stem_ed(
                w,
                tag,
                stress,
                Some(ctx),
            ) is None && stress is None ==> self.word(w, tag, stress, ctx) == self.stem_ing(
                w,
                tag,
                Some(1i32),
                Some(ctx),
            ),
    {
    }

    /// An ASCII letter on its own can always be looked up. A longer word of small letters can be only
    /// where it is listed, and so can any word with a character that is no ASCII letter, signs aside.
    pub proof fn what_can_be_looked_up(self, c: char, w: Seq<char>, i: int)
        requires
            97 <= c as u32 <= 122 || 65 <= c as u32 <= 90,
            !self.golds.contains_key(w),
            !self.silvers.contains_key(w),
            crate::lexicon::symbol_word(w) is None,
            0 <= i < w.len(),
        ensures
            self.known(seq![c]),
            !(97 <= w[i] as u32 <= 122) && !(65 <= w[i] as u32 <= 90) ==> !self.known(w),
            i > 0 && 97 <= w[i] as u32 <= 122 && vstd::utf8::is_ascii_chars(w) ==> !self.known(w),
    {
        let one = seq![c];
        assert(crate::lexicon::ascii_letters(one));
        if i > 0 && 97 <= w[i] as u32 <= 122 && vstd::utf8::is_ascii_chars(w) {
            let up = crate::unicode::uppercase(w);
            assert(up[i] == crate::unicode::ascii_upper(w[i]));
            assert(up[i] != w[i]);
            let tail = w.skip(1);
            assert forall|k: int| 0 <= k < tail.len() implies (#[trigger] tail[k] as u32) < 128 by {
                assert(tail[k] == w[k + 1]);
            }
            assert(vstd::utf8::is_ascii_chars(tail));
            let up2 = crate::unicode::uppercase(tail);
            assert(tail[i - 1] == w[i]);
            assert(up2[i - 1] == crate::unicode::ascii_upper(w[i]));
        }
    }
}

impl LexiconView {
    /// In capitals "to", "in" and "the" are exceptions under some tags alone, and so are "I" and "by"
    /// anywhere; under any other tag each is a word like others.
    pub proof fn exceptions_under_some_tags_alone(
        self,
        tag: Seq<char>,
        stress: Option<i32>,
        ctx: TokenContext,
    )
        requires
            tag != "ADD"@,
        ensures
            tag != "TO"@ && tag != "IN"@ ==> self.special_case("TO"@, tag, stress, ctx) is None,
            tag == "NNP"@ ==> self.special_case("IN"@, tag, stress, ctx) is None,
            tag != "DT"@ ==> self.special_case("THE"@, tag, stress, ctx) is None || tag == "IN"@,
            tag != "PRP"@ && tag != "IN"@ ==> self.special_case("I"@, tag, stress, ctx) is None,
            crate::lexicon::coarse_tag(tag) != "ADV"@ && tag != "IN"@ ==> self.special_case(
                "by"@,
                tag,
                stress,
                ctx,
            ) is None,
    {
        exceptions_are_spelt();
        self.a_word_of_letters("TO"@);
        self.a_word_of_letters("IN"@);
        self.a_word_of_letters("THE"@);
        self.a_word_of_letters("by"@);
        no_stop_no_initials("I"@);
        let word = "I"@;
        apart(word, "%"@);
        apart(word, "&"@);
        apart(word, "+"@);
        apart(word, "@"@);
        reveal_strlit("NNP");
        assert("NNP"@.len() == 3);
    }

    /// No other word of letters is an exception.
    pub proof fn no_other_word_is_an_exception(
        self,
        word: Seq<char>,
        tag: Seq<char>,
        stress: Option<i32>,
        ctx: TokenContext,
    )
        requires
            word.len() >= 5,
            !word.contains('.'),
            crate::unicode::lowercase(word).len() >= 5,
        ensures
            self.special_case(word, tag, stress, ctx) is None,
    {
        exceptions_are_spelt();
        self.a_word_of_letters(word);
        reveal_strlit("vs");
        reveal_strlit("vs.");
        assert("vs"@.len() == 2 && "vs."@.len() == 3);
        assert("used"@.len() == 4 && "Used"@.len() == 4 && "USED"@.len() == 4);
    }
}

/// A row of initials has at most two letters in a row, nothing but letters and full stops, and a
/// full stop between two letters.
pub proof fn what_initials_are(a: Seq<char>, x: char, y: char, z: char, b: Seq<char>)
    ensures
        x != '.' && y != '.' && z != '.' ==> !initials(a + seq![x, y, z] + b),
        x != '.' && !crate::unicode::alphabetic(x) ==> !initials(a + seq![x] + b),
        !a.contains('.') ==> !initials(a) && !initials(a.push('.')),
        crate::unicode::alphabetic(x) && crate::unicode::alphabetic(y) && x != '.' && y != '.'
            ==> initials(seq![x, '.', y]) && initials(seq![x, '.', y, '.']),
{
    let w = a + seq![x, y, z] + b;
    let n = a.len() as int;
    assert(w[n] == x && w[n + 1] == y && w[n + 2] == z);
    let v = a + seq![x] + b;
    assert(v[n] == x);
    if !a.contains('.') {
        no_stop_no_initials(a);
        let p = a.push('.');
        if initials(p) {
            let (i, j, k) = choose|i: int, j: int, k: int|
                0 <= i < j < k < p.len() && #[trigger] p[i] != '.' && #[trigger] p[j] == '.'
                    && #[trigger] p[k] != '.';
            assert(a.contains(a[j]));
        }
    }
    let s = seq![x, '.', y];
    assert(s[0] == x && s[1] == '.' && s[2] == y);
    let t = seq![x, '.', y, '.'];
    assert(t[0] == x && t[1] == '.' && t[2] == y && t[3] == '.');
}

} // verus!
