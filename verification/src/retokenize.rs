//! Tokens into words: each token is split into sub-tokens, punctuation and currency are
//! marked, and the pieces that belong to one written word are grouped, so that merges over
//! them can be tried.

use crate::lexicon::{currency_symbol, opt_chars, opt_str, units_of};
use crate::mtoken::{copy_opt, mtokens, MToken, MTokenView};
use crate::pattern::{all_matches, find_all};
use crate::stress::PUNCTS;
use crate::text::{chars_of, contains_char, first_char, is_capital, is_small, last_char, str_eq, string_of};
use crate::tokenize::found;
use crate::unicode::{alphabetic, is_alphabetic};
use fancy_regex::Regex;
use vstd::prelude::*;
use vstd::string::*;

verus! {

/// A written word: one token, or the parts of one.
pub enum Word {
    One(MToken),
    Many(Vec<MToken>),
}

/// The meaning of a written word.
#[verifier::ext_equal]
pub enum WordView {
    One(MTokenView),
    Many(Seq<MTokenView>),
}

impl View for Word {
    type V = WordView;

    open spec fn view(&self) -> WordView {
        match *self {
            Word::One(t) => WordView::One(t@),
            Word::Many(g) => WordView::Many(mtokens(g@)),
        }
    }
}

/// The meaning of a list of words.
pub open spec fn words_view(v: Seq<Word>) -> Seq<WordView> {
    v.map_values(|w: Word| w@)
}

/// The texts of the matches of a pattern. Nothing where a match ends before it begins.
pub open spec fn cut_texts(s: Seq<char>, ms: Seq<(nat, nat)>) -> Option<Seq<Seq<char>>>
    decreases ms.len(),
{
    if ms.len() == 0 {
        Some(Seq::empty())
    } else {
        match cut_texts(s, ms.drop_last()) {
            None => None,
            Some(v) => if ms.last().0 <= ms.last().1 <= s.len() {
                Some(v.push(s.subrange(ms.last().0 as int, ms.last().1 as int)))
            } else {
                None
            },
        }
    }
}

/// The sub-tokens of a text. Nothing where they cannot be cut out, or have no end.
pub open spec fn subtexts(re: Regex, s: Seq<char>) -> Option<Seq<Seq<char>>> {
    match all_matches(re, s) {
        Some(ms) => cut_texts(s, found(ms)),
        None => None,
    }
}

/// A sub-token of a token.
pub open spec fn part_of(token: MTokenView, text: Seq<char>) -> MTokenView {
    MTokenView {
        text,
        tag: token.tag,
        whitespace: Seq::empty(),
        phonemes: None,
        is_head: true,
        alias: None,
        stress: token.stress,
        currency: None,
        num_flags: token.num_flags,
        prespace: false,
        rating: None,
    }
}

/// A list of tokens with the white space behind the last one replaced.
pub open spec fn with_space_behind(v: Seq<MTokenView>, whitespace: Seq<char>) -> Seq<MTokenView> {
    if v.len() == 0 {
        v
    } else {
        v.drop_last().push(MTokenView { whitespace, ..v.last() })
    }
}

/// The parts of a token: its sub-tokens, or the token itself where its sound is settled. The
/// last part has the white space of the token.
pub open spec fn parts_of(re: Regex, token: MTokenView) -> Option<Seq<MTokenView>> {
    if token.alias is Some || token.phonemes is Some {
        Some(seq![token])
    } else {
        match subtexts(re, token.text) {
            None => None,
            Some(v) => Some(
                with_space_behind(
                    v.map_values(|t: Seq<char>| part_of(token, t)),
                    token.whitespace,
                ),
            ),
        }
    }
}

/// One of the tags of punctuation.
pub open spec fn punct_tag(tag: Seq<char>) -> bool {
    tag == "."@ || tag == ","@ || tag == "-LRB-"@ || tag == "-RRB-"@ || tag == "``"@ || tag
        == "\"\""@ || tag == "''"@ || tag == ":"@ || tag == "$"@ || tag == "#"@ || tag == "NFP"@
}

/// The sound that a tag of punctuation stands for, where it has one of its own.
pub open spec fn punct_sound(tag: Seq<char>) -> Option<Seq<char>> {
    if tag == "-LRB-"@ {
        Some("("@)
    } else if tag == "-RRB-"@ {
        Some(")"@)
    } else if tag == "``"@ {
        Some("\u{201c}"@)
    } else if tag == "\"\""@ || tag == "''"@ {
        Some("\u{201d}"@)
    } else {
        None
    }
}

/// The characters of a text that are punctuation to the voice.
pub open spec fn puncts_in(s: Seq<char>) -> Seq<char>
    decreases s.len(),
{
    if s.len() == 0 {
        s
    } else if PUNCTS@.contains(s.last()) {
        puncts_in(s.drop_last()).push(s.last())
    } else {
        puncts_in(s.drop_last())
    }
}

/// Only ASCII letters.
pub open spec fn letters_only(s: Seq<char>) -> bool {
    forall|i: int| 0 <= i < s.len() ==> is_small(#[trigger] s[i]) || is_capital(s[i])
}

/// Whether the text of a part is a "2" between two letters, as in "b2b".
pub open spec fn two_between_letters(parts: Seq<MTokenView>, j: int) -> bool {
    &&& 0 < j < parts.len() - 1
    &&& parts[j].text == "2"@
    &&& parts[j - 1].text.len() > 0
    &&& alphabetic(parts[j - 1].text.last())
    &&& parts[j + 1].text.len() > 0
    &&& alphabetic(parts[j + 1].text[0])
}

/// A token with settled phonemes.
pub open spec fn settled(t: MTokenView, ps: Seq<char>, rating: u8) -> MTokenView {
    MTokenView { phonemes: Some(ps), rating: Some(rating), ..t }
}

/// Part number `j` with its punctuation, currency or alias marked, and the currency that is
/// open behind it. `number_next` says whether the next token is a number too.
pub open spec fn marked(
    parts: Seq<MTokenView>,
    j: int,
    currency: Option<Seq<char>>,
    number_next: bool,
) -> (MTokenView, Option<Seq<char>>) {
    let t = parts[j];
    if t.alias is Some || t.phonemes is Some {
        (t, currency)
    } else if t.tag == "$"@ && units_of(t.text) is Some {
        (settled(t, Seq::empty(), 4), Some(t.text))
    } else if t.tag == ":"@ && (t.text == "-"@ || t.text == "–"@) {
        (settled(t, "—"@, 3), currency)
    } else if punct_tag(t.tag) && !letters_only(t.text) {
        match punct_sound(t.tag) {
            Some(p) => (settled(t, p, 4), currency),
            None => (settled(t, puncts_in(t.text), 4), currency),
        }
    } else if currency is Some {
        if t.tag != "CD"@ {
            (t, None)
        } else if j == parts.len() - 1 && !number_next {
            (MTokenView { currency, ..t }, currency)
        } else {
            (t, currency)
        }
    } else if two_between_letters(parts, j) {
        (MTokenView { alias: Some("to"@), ..t }, currency)
    } else {
        (t, currency)
    }
}

/// Words with one more token: on its own where its sound is settled, in the open group where
/// no space goes before it, and else at the head of a group or on its own.
pub open spec fn with_token(words: Seq<WordView>, t: MTokenView) -> Seq<WordView> {
    if t.alias is Some || t.phonemes is Some {
        words.push(WordView::One(t))
    } else if words.len() > 0 && is_open(words.last()) {
        words.drop_last().push(
            WordView::Many(words.last()->Many_0.push(MTokenView { is_head: false, ..t })),
        )
    } else if t.whitespace.len() == 0 {
        words.push(WordView::Many(seq![t]))
    } else {
        words.push(WordView::One(t))
    }
}

/// A group that no space closes.
pub open spec fn is_open(w: WordView) -> bool {
    match w {
        WordView::One(_) => false,
        WordView::Many(g) => g.len() > 0 && g.last().whitespace.len() == 0,
    }
}

/// The words and the open currency after the first `j` parts of a token.
pub open spec fn take_parts(
    words: Seq<WordView>,
    currency: Option<Seq<char>>,
    parts: Seq<MTokenView>,
    j: int,
    number_next: bool,
) -> (Seq<WordView>, Option<Seq<char>>)
    decreases j,
{
    if j <= 0 {
        (words, currency)
    } else {
        let (w, c) = take_parts(words, currency, parts, j - 1, number_next);
        let (t, c2) = marked(parts, j - 1, c, number_next);
        (with_token(w, t), c2)
    }
}

/// Whether the token behind number `i` is a number.
pub open spec fn number_follows(tokens: Seq<MTokenView>, i: int) -> bool {
    i + 1 < tokens.len() && tokens[i + 1].tag == "CD"@
}

/// The words and the open currency after the first `n` tokens. Nothing where the sub-tokens of
/// one cannot be cut out.
pub open spec fn take_tokens(re: Regex, tokens: Seq<MTokenView>, n: int) -> Option<
    (Seq<WordView>, Option<Seq<char>>),
>
    decreases n,
{
    if n <= 0 {
        Some((Seq::empty(), None))
    } else {
        match take_tokens(re, tokens, n - 1) {
            None => None,
            Some((words, currency)) => match parts_of(re, tokens[n - 1]) {
                None => None,
                Some(parts) => Some(
                    take_parts(
                        words,
                        currency,
                        parts,
                        parts.len() as int,
                        number_follows(tokens, n - 1),
                    ),
                ),
            },
        }
    }
}

/// A group of one is a token on its own.
pub open spec fn ungrouped(w: WordView) -> WordView {
    match w {
        WordView::One(t) => WordView::One(t),
        WordView::Many(g) => if g.len() == 1 {
            WordView::One(g[0])
        } else {
            WordView::Many(g)
        },
    }
}

/// The words of a list of tokens. Nothing where the sub-tokens of one cannot be cut out.
pub open spec fn words_of(re: Regex, tokens: Seq<MTokenView>) -> Option<Seq<WordView>> {
    match take_tokens(re, tokens, tokens.len() as int) {
        None => None,
        Some((words, _)) => Some(words.map_values(|w: WordView| ungrouped(w))),
    }
}

/// Every group has a part.
pub open spec fn no_empty_group(words: Seq<WordView>) -> bool {
    forall|i: int|
        0 <= i < words.len() ==> match #[trigger] words[i] {
            WordView::One(_) => true,
            WordView::Many(g) => g.len() > 0,
        }
}

fn is_punct_tag(tag: &str) -> (r: bool)
    ensures
        r == punct_tag(tag@),
{
    str_eq(tag, ".") || str_eq(tag, ",") || str_eq(tag, "-LRB-") || str_eq(tag, "-RRB-") || str_eq(
        tag,
        "``",
    ) || str_eq(tag, "\"\"") || str_eq(tag, "''") || str_eq(tag, ":") || str_eq(tag, "$") || str_eq(
        tag,
        "#",
    ) || str_eq(tag, "NFP")
}

fn punct_tag_phoneme(tag: &str) -> (r: Option<&'static str>)
    ensures
        opt_str(r) == punct_sound(tag@),
{
    if str_eq(tag, "-LRB-") {
        Some("(")
    } else if str_eq(tag, "-RRB-") {
        Some(")")
    } else if str_eq(tag, "``") {
        Some("\u{201c}")
    } else if str_eq(tag, "\"\"") || str_eq(tag, "''") {
        Some("\u{201d}")
    } else {
        None
    }
}

fn keep_puncts(text: &str) -> (r: String)
    ensures
        r@ == puncts_in(text@),
{
    let c = chars_of(text);
    let mut out = String::new();
    let mut i: usize = 0;
    while i < c.len()
        invariant
            i <= c@.len(),
            out@ == puncts_in(c@.take(i as int)),
        decreases c.len() - i,
    {
        assert(c@.take(i + 1).drop_last() =~= c@.take(i as int));
        if contains_char(PUNCTS, c[i]) {
            out.push(c[i]);
        }
        i = i + 1;
    }
    assert(c@.take(i as int) =~= c@);
    out
}

fn has_only_letters(text: &str) -> (r: bool)
    ensures
        r == letters_only(text@),
{
    let s = chars_of(text);
    let mut i: usize = 0;
    while i < s.len()
        invariant
            i <= s@.len(),
            s@ == text@,
            forall|k: int| 0 <= k < i ==> is_small(#[trigger] s@[k]) || is_capital(s@[k]),
        decreases s.len() - i,
    {
        let c: u32 = s[i] as u32;
        if !(('a' as u32 <= c && c <= 'z' as u32) || ('A' as u32 <= c && c <= 'Z' as u32)) {
            assert(!is_small(s@[i as int]) && !is_capital(s@[i as int]));
            return false;
        }
        i = i + 1;
    }
    true
}

/// A letter gone out of order stops every longer list.
proof fn cut_texts_stop(s: Seq<char>, ms: Seq<(nat, nat)>, n: int)
    requires
        0 <= n <= ms.len(),
        cut_texts(s, ms.take(n)) is None,
    ensures
        cut_texts(s, ms) is None,
    decreases ms.len() - n,
{
    if n < ms.len() {
        assert(ms.take(n + 1).drop_last() =~= ms.take(n));
        cut_texts_stop(s, ms, n + 1);
    } else {
        assert(ms.take(n) =~= ms);
    }
}

proof fn found_grows(v: Seq<Option<(nat, nat)>>, n: int)
    requires
        0 <= n <= v.len(),
    ensures
        found(v.take(n)).len() <= found(v).len(),
        found(v.take(n)) == found(v).take(found(v.take(n)).len() as int),
    decreases v.len() - n,
{
    if n < v.len() {
        found_grows(v, n + 1);
        assert(v.take(n + 1).drop_last() =~= v.take(n));
        assert(found(v.take(n)) =~= found(v).take(found(v.take(n)).len() as int));
    } else {
        assert(v.take(n) =~= v);
        assert(found(v).take(found(v).len() as int) =~= found(v));
    }
}

/// The sub-tokens of a text. Nothing where a match ends before it begins, or the matches have
/// no end.
pub fn subtokenize(re: &Regex, word: &str) -> (r: Option<Vec<String>>)
    ensures
        match r {
            Some(v) => subtexts(*re, word@) == Some(crate::text::strings(v@)),
            None => subtexts(*re, word@) is None,
        },
{
    let c = chars_of(word);
    let items = match find_all(re, word) {
        Some(items) => items,
        None => {
            return None;
        },
    };
    let ghost named = all_matches(*re, word@).unwrap();
    let mut out: Vec<String> = Vec::new();
    let mut i: usize = 0;
    assert(found(named.take(0)) =~= Seq::<(nat, nat)>::empty());
    assert(crate::text::strings(out@) =~= Seq::<Seq<char>>::empty());
    while i < items.len()
        invariant
            i <= items@.len(),
            c@ == word@,
            all_matches(*re, word@) == Some(named),
            items@.len() == named.len(),
            forall|k: int|
                0 <= k < items@.len() ==> match #[trigger] items@[k] {
                    Err(_) => named[k] is None,
                    Ok(m) => named[k] == Some((m.0@.len(), m.1@.len())) && m.0@.is_prefix_of(word@)
                        && m.1@.is_prefix_of(word@),
                },
            cut_texts(word@, found(named.take(i as int))) == Some(crate::text::strings(out@)),
        decreases items.len() - i,
    {
        assert(named.take(i + 1).drop_last() =~= named.take(i as int));
        match &items[i] {
            Ok(m) => {
                let a: usize = m.0.as_str().unicode_len();
                let b: usize = m.1.as_str().unicode_len();
                let ghost before = found(named.take(i as int));
                let ghost now = found(named.take(i + 1));
                assert(now == before.push((a as nat, b as nat)));
                assert(now.drop_last() =~= before);
                if a > b {
                    proof {
                        found_grows(named, i + 1);
                        assert(found(named).take(now.len() as int) =~= now);
                        cut_texts_stop(word@, found(named), now.len() as int);
                    }
                    return None;
                }
                let text = string_of(&c, a, b);
                let ghost o = out@;
                out.push(text);
                assert(crate::text::strings(out@) =~= crate::text::strings(o).push(text@));
            },
            Err(_) => {},
        }
        i = i + 1;
    }
    assert(named.take(i as int) =~= named);
    Some(out)
}

fn cut_parts(re: &Regex, token: &MToken) -> (r: Option<Vec<MToken>>)
    ensures
        match r {
            Some(v) => parts_of(*re, token@) == Some(mtokens(v@)),
            None => parts_of(*re, token@) is None,
        },
{
    if token.alias.is_some() || token.phonemes.is_some() {
        let mut one: Vec<MToken> = Vec::new();
        one.push(token.copy());
        assert(mtokens(one@) =~= seq![token@]);
        return Some(one);
    }
    let texts = match subtokenize(re, token.text.as_str()) {
        Some(v) => v,
        None => {
            return None;
        },
    };
    let ghost named = crate::text::strings(texts@);
    let ghost whole = named.map_values(|t: Seq<char>| part_of(token@, t));
    let mut out: Vec<MToken> = Vec::new();
    let n: usize = texts.len();
    let mut i: usize = 0;
    assert(mtokens(out@) =~= whole.take(0));
    while i < n
        invariant
            i <= n == texts@.len(),
            named == crate::text::strings(texts@),
            whole == named.map_values(|t: Seq<char>| part_of(token@, t)),
            i < n ==> mtokens(out@) == whole.take(i as int),
            i == n ==> mtokens(out@) == with_space_behind(whole, token@.whitespace),
        decreases n - i,
    {
        let part = MToken {
            text: texts[i].clone(),
            tag: token.tag.clone(),
            whitespace: if i + 1 == n {
                token.whitespace.clone()
            } else {
                String::new()
            },
            phonemes: None,
            is_head: true,
            alias: None,
            stress: token.stress,
            currency: None,
            num_flags: token.num_flags.clone(),
            prespace: false,
            rating: None,
        };
        let ghost o = out@;
        let ghost p = part@;
        assert(whole[i as int] == part_of(token@, texts@[i as int]@));
        out.push(part);
        assert(mtokens(out@) =~= mtokens(o).push(p));
        proof {
            if i + 1 == n {
                assert(whole.take(i as int) =~= whole.drop_last());
                assert(mtokens(out@) =~= with_space_behind(whole, token@.whitespace));
            } else {
                assert(p == whole[i as int]);
                assert(mtokens(out@) =~= whole.take(i + 1));
            }
        }
        i = i + 1;
    }
    Some(out)
}

fn is_two_between_letters(parts: &Vec<MToken>, j: usize) -> (r: bool)
    requires
        j < parts@.len(),
    ensures
        r == two_between_letters(mtokens(parts@), j as int),
{
    let n: usize = parts.len();
    let ghost all = mtokens(parts@);
    assert(all[j as int] == parts@[j as int]@);
    if j == 0 || j >= n - 1 || !str_eq(parts[j].text.as_str(), "2") {
        return false;
    }
    assert(all[j - 1] == parts@[j - 1]@ && all[j + 1] == parts@[j + 1]@);
    let before = match last_char(parts[j - 1].text.as_str()) {
        Some(c) => is_alphabetic(c),
        None => false,
    };
    let behind = match first_char(parts[j + 1].text.as_str()) {
        Some(c) => is_alphabetic(c),
        None => false,
    };
    before && behind
}

/// Marks one part. The currency that is open behind it is left in `currency`.
fn mark_part(
    parts: &Vec<MToken>,
    j: usize,
    currency: &mut Option<String>,
    number_next: bool,
) -> (r: MToken)
    requires
        j < parts@.len(),
    ensures
        (r@, opt_chars(*final(currency))) == marked(
            mtokens(parts@),
            j as int,
            opt_chars(*old(currency)),
            number_next,
        ),
{
    let mut t = parts[j].copy();
    assert(mtokens(parts@)[j as int] == t@);
    if t.alias.is_some() || t.phonemes.is_some() {
        return t;
    }
    if str_eq(t.tag.as_str(), "$") && currency_symbol(t.text.as_str()) {
        *currency = Some(t.text.clone());
        t.phonemes = Some(String::new());
        t.rating = Some(4);
        return t;
    }
    if str_eq(t.tag.as_str(), ":") && (str_eq(t.text.as_str(), "-") || str_eq(t.text.as_str(), "–")) {
        t.phonemes = Some("—".to_owned());
        t.rating = Some(3);
        return t;
    }
    if is_punct_tag(t.tag.as_str()) && !has_only_letters(t.text.as_str()) {
        let sound = match punct_tag_phoneme(t.tag.as_str()) {
            Some(p) => p.to_owned(),
            None => keep_puncts(t.text.as_str()),
        };
        t.phonemes = Some(sound);
        t.rating = Some(4);
        return t;
    }
    if currency.is_some() {
        if !str_eq(t.tag.as_str(), "CD") {
            *currency = None;
        } else if j == parts.len() - 1 && !number_next {
            t.currency = copy_opt(currency);
        }
        return t;
    }
    if is_two_between_letters(parts, j) {
        t.alias = Some("to".to_owned());
    }
    t
}

/// Adds a token to the words.
fn push_token(words: &mut Vec<Word>, t: MToken)
    requires
        no_empty_group(words_view(old(words)@)),
    ensures
        words_view(final(words)@) == with_token(words_view(old(words)@), t@),
        no_empty_group(words_view(final(words)@)),
{
    let ghost before = words_view(words@);
    if t.alias.is_some() || t.phonemes.is_some() {
        words.push(Word::One(t));
        assert(words_view(words@) =~= before.push(WordView::One(t@)));
        return;
    }
    let n: usize = words.len();
    let open = if n > 0 {
        assert(before[n - 1] == words@[n - 1]@);
        match &words[n - 1] {
            Word::One(_) => false,
            Word::Many(g) => {
                let m: usize = g.len();
                m > 0 && g[m - 1].whitespace.as_str().is_empty()
            },
        }
    } else {
        false
    };
    assert(open == (before.len() > 0 && is_open(before.last()))) by {
        if n > 0 {
            match words@[n - 1] {
                Word::One(_) => {},
                Word::Many(g) => {
                    if g@.len() > 0 {
                        assert(mtokens(g@).last() == g@[g@.len() - 1]@);
                    }
                },
            }
        }
    }
    if open {
        match words.pop() {
            Some(Word::Many(group)) => {
                let mut group = group;
                let ghost g = mtokens(group@);
                let ghost o = words@;
                let mut part = t;
                part.is_head = false;
                let ghost p = part@;
                group.push(part);
                assert(mtokens(group@) =~= g.push(p));
                words.push(Word::Many(group));
                assert(words_view(o) =~= before.drop_last());
                assert(words_view(words@) =~= words_view(o).push(WordView::Many(g.push(p))));
                assert forall|i: int| 0 <= i < words_view(words@).len() implies match
                    #[trigger] words_view(words@)[i] {
                    WordView::One(_) => true,
                    WordView::Many(g) => g.len() > 0,
                } by {
                    if i < before.len() - 1 {
                        assert(words_view(words@)[i] == before[i]);
                    }
                }
            },
            _ => {
                assert(false);
            },
        }
        return;
    }
    if t.whitespace.as_str().is_empty() {
        let mut group: Vec<MToken> = Vec::new();
        let ghost p = t@;
        group.push(t);
        assert(mtokens(group@) =~= seq![p]);
        words.push(Word::Many(group));
        assert(words_view(words@) =~= before.push(WordView::Many(seq![p])));
    } else {
        words.push(Word::One(t));
        assert(words_view(words@) =~= before.push(WordView::One(t@)));
    }
}

/// One missing piece leaves nothing of a longer list.
proof fn take_tokens_stop(re: Regex, tokens: Seq<MTokenView>, n: int, m: int)
    requires
        n <= m,
        take_tokens(re, tokens, n) is None,
    ensures
        take_tokens(re, tokens, m) is None,
    decreases m - n,
{
    if n < m {
        take_tokens_stop(re, tokens, n, m - 1);
    }
}

/// Splits tokens into sub-tokens, marks punctuation and currency, and groups the pieces that
/// belong to one written word. Nothing where the sub-tokens of one cannot be cut out.
pub fn retokenize(re: &Regex, tokens: &Vec<MToken>) -> (r: Option<Vec<Word>>)
    ensures
        match r {
            Some(v) => words_of(*re, mtokens(tokens@)) == Some(words_view(v@)) && no_empty_group(
                words_view(v@),
            ),
            None => words_of(*re, mtokens(tokens@)) is None,
        },
{
    let ghost all = mtokens(tokens@);
    let mut words: Vec<Word> = Vec::new();
    let mut currency: Option<String> = None;
    let n: usize = tokens.len();
    let mut i: usize = 0;
    assert(words_view(words@) =~= Seq::<WordView>::empty());
    while i < n
        invariant
            i <= n == tokens@.len(),
            all == mtokens(tokens@),
            take_tokens(*re, all, i as int) == Some((words_view(words@), opt_chars(currency))),
            no_empty_group(words_view(words@)),
        decreases n - i,
    {
        assert(all[i as int] == tokens@[i as int]@);
        let parts = match cut_parts(re, &tokens[i]) {
            Some(v) => v,
            None => {
                proof {
                    take_tokens_stop(*re, all, i + 1, n as int);
                }
                return None;
            },
        };
        let number_next = i + 1 < n && str_eq(tokens[i + 1].tag.as_str(), "CD");
        assert(number_next == number_follows(all, i as int)) by {
            if i + 1 < n {
                assert(all[i + 1] == tokens@[i + 1]@);
            }
        }
        let ghost words0 = words_view(words@);
        let ghost currency0 = opt_chars(currency);
        let ghost named = mtokens(parts@);
        let mut j: usize = 0;
        while j < parts.len()
            invariant
                j <= parts@.len(),
                named == mtokens(parts@),
                (words_view(words@), opt_chars(currency)) == take_parts(
                    words0,
                    currency0,
                    named,
                    j as int,
                    number_next,
                ),
                no_empty_group(words_view(words@)),
            decreases parts.len() - j,
        {
            let t = mark_part(&parts, j, &mut currency, number_next);
            push_token(&mut words, t);
            j = j + 1;
        }
        i = i + 1;
    }
    let ghost grouped = words_view(words@);
    let ghost goal = grouped.map_values(|w: WordView| ungrouped(w));
    let mut out: Vec<Word> = Vec::new();
    assert(words_view(out@) =~= goal.skip(goal.len() as int));
    while words.len() > 0
        invariant
            goal == grouped.map_values(|w: WordView| ungrouped(w)),
            words@.len() <= goal.len(),
            words_view(words@) == grouped.take(words@.len() as int),
            words_view(out@) == goal.skip(words@.len() as int).reverse(),
            no_empty_group(grouped),
        decreases words.len(),
    {
        let ghost k = words@.len() - 1;
        let ghost w0 = words_view(words@);
        let ghost o = words_view(out@);
        assert(w0[k] == words@[k]@);
        assert(w0[k] == grouped[k]);
        match words.pop() {
            Some(w) => {
                assert(words_view(words@) =~= grouped.take(k));
                let single = match &w {
                    Word::One(_) => false,
                    Word::Many(g) => g.len() == 1,
                };
                let word = if single {
                    match w {
                        Word::Many(group) => {
                            let mut group = group;
                            let ghost g = mtokens(group@);
                            match group.pop() {
                                Some(t) => {
                                    assert(g[0] == t@);
                                    Word::One(t)
                                },
                                None => Word::Many(group),
                            }
                        },
                        Word::One(t) => Word::One(t),
                    }
                } else {
                    w
                };
                assert(word@ == ungrouped(grouped[k]));
                assert(goal[k] == word@);
                let ghost wv = word@;
                out.push(word);
                assert(words_view(out@) =~= o.push(wv));
                assert(goal.skip(k).reverse() =~= goal.skip(k + 1).reverse().push(goal[k]));
            },
            None => {},
        }
    }
    assert(goal.skip(0) =~= goal);
    let back = reversed(out);
    assert(words_view(back@) =~= goal);
    assert forall|i: int| 0 <= i < goal.len() implies match #[trigger] goal[i] {
        WordView::One(_) => true,
        WordView::Many(g) => g.len() > 0,
    } by {
        assert(goal[i] == ungrouped(grouped[i]));
    }
    Some(back)
}

/// A list turned round.
fn reversed(v: Vec<Word>) -> (r: Vec<Word>)
    ensures
        words_view(r@) == words_view(v@).reverse(),
{
    let ghost all = words_view(v@);
    let mut v = v;
    let mut out: Vec<Word> = Vec::new();
    assert(words_view(out@) =~= all.skip(all.len() as int).reverse());
    while v.len() > 0
        invariant
            v@.len() <= all.len(),
            words_view(v@) == all.take(v@.len() as int),
            words_view(out@) == all.skip(v@.len() as int).reverse(),
        decreases v.len(),
    {
        let ghost k = v@.len() - 1;
        let ghost o = words_view(out@);
        assert(words_view(v@)[k] == all[k]);
        assert(words_view(v@)[k] == v@[k]@);
        match v.pop() {
            Some(w) => {
                assert(words_view(v@) =~= all.take(k));
                let ghost wv = w@;
                out.push(w);
                assert(words_view(out@) =~= o.push(wv));
                assert(all.skip(k).reverse() =~= all.skip(k + 1).reverse().push(all[k]));
            },
            None => {},
        }
    }
    assert(all.skip(0) =~= all);
    out
}

} // verus!
