//! The English lexicon: words and their phonemes, and the rules that look a word up.
//!
//! A phoneme that is merely plausible is a fluent mispronunciation, and nothing downstream
//! can hear the difference. So each rule has a meaning of its own, and the lookup is proved
//! to follow it.

use crate::stress::{apply_stress, stressed, LEVEL, PRIMARY_STRESS, SECONDARY_STRESS};
use crate::text::{
    chars_of, contains_char, is_capital, is_small, last_piece, last_piece_bounds, last_piece_start,
    starts_with, str_eq, string_of, tail_of,
};
use crate::unicode::{
    alphabetic, capitalized, char_to_lowercase, char_to_uppercase, char_uppercase,
    is_alphabetic, lower, lowercase, small_letters, upper, uppercase,
};
use vstd::hash_map::StringHashMap;
use vstd::prelude::*;
use vstd::string::*;

verus! {

/// A phoneme string and how much it is trusted: 4 listed, 3 derived, 2 guessed from parts.
pub type Hit = (String, u8);

/// A lexicon entry.
pub enum Entry {
    Word(String),
    /// A homograph: phonemes per part of speech, with DEFAULT as the fallback.
    Tagged(Vec<(String, Option<String>)>),
}

/// The meaning of a lexicon entry.
#[verifier::ext_equal]
pub enum EntryView {
    Word(Seq<char>),
    Tagged(Map<Seq<char>, Option<Seq<char>>>),
}

/// The characters of an optional string.
pub open spec fn opt_chars(s: Option<String>) -> Option<Seq<char>> {
    match s {
        Some(t) => Some(t@),
        None => None,
    }
}

/// A hit as plain characters.
pub open spec fn hit_view(h: Option<Hit>) -> Option<(Seq<char>, u8)> {
    match h {
        Some(p) => Some((p.0@, p.1)),
        None => None,
    }
}

/// The map that a list of tagged pronunciations writes. The first of two equal tags counts.
pub open spec fn tags_view(v: Seq<(String, Option<String>)>) -> Map<Seq<char>, Option<Seq<char>>>
    decreases v.len(),
{
    if v.len() == 0 {
        Map::empty()
    } else {
        tags_view(v.skip(1)).insert(v[0].0@, opt_chars(v[0].1))
    }
}

impl View for Entry {
    type V = EntryView;

    open spec fn view(&self) -> EntryView {
        match *self {
            Entry::Word(w) => EntryView::Word(w@),
            Entry::Tagged(v) => EntryView::Tagged(tags_view(v@)),
        }
    }
}

impl Entry {
    /// The pronunciation listed for a tag: `None` where the tag is not listed.
    pub(crate) fn tagged(v: &Vec<(String, Option<String>)>, tag: &str) -> (r: Option<Option<String>>)
        ensures
            match r {
                Some(p) => tags_view(v@).contains_key(tag@) && opt_chars(p) == tags_view(
                    v@,
                )[tag@],
                None => !tags_view(v@).contains_key(tag@),
            },
    {
        let mut i: usize = 0;
        assert(v@.skip(0) =~= v@);
        while i < v.len()
            invariant
                i <= v@.len(),
                tags_view(v@).contains_key(tag@) == tags_view(v@.skip(i as int)).contains_key(
                    tag@,
                ),
                tags_view(v@)[tag@] == tags_view(v@.skip(i as int))[tag@],
            decreases v.len() - i,
        {
            assert(v@.skip(i as int).skip(1) =~= v@.skip(i + 1));
            if str_eq(v[i].0.as_str(), tag) {
                return Some(
                    match &v[i].1 {
                        Some(p) => Some(p.clone()),
                        None => None,
                    },
                );
            }
            i = i + 1;
        }
        None
    }

    /// A copy with the same meaning.
    fn copy(&self) -> (r: Entry)
        ensures
            r@ == self@,
    {
        match self {
            Entry::Word(w) => Entry::Word(w.clone()),
            Entry::Tagged(v) => {
                let mut out: Vec<(String, Option<String>)> = Vec::new();
                let mut i: usize = 0;
                while i < v.len()
                    invariant
                        i <= v@.len(),
                        out@ == v@.take(i as int),
                    decreases v.len() - i,
                {
                    let value = match &v[i].1 {
                        Some(p) => Some(p.clone()),
                        None => None,
                    };
                    out.push((v[i].0.clone(), value));
                    i = i + 1;
                    assert(out@ =~= v@.take(i as int));
                }
                assert(v@.take(i as int) =~= v@);
                Entry::Tagged(out)
            },
        }
    }
}

/// What the caller knows about the token to the right, which several rules depend on.
#[derive(Clone, Copy, Debug)]
pub struct TokenContext {
    pub future_vowel: Option<bool>,
    pub future_to: bool,
}

impl Default for TokenContext {
    fn default() -> (r: TokenContext)
        ensures
            r == (TokenContext { future_vowel: None, future_to: false }),
    {
        TokenContext { future_vowel: None, future_to: false }
    }
}

/// A lexicon of trusted words and a second, less trusted one.
pub struct Lexicon {
    british: bool,
    golds: StringHashMap<Entry>,
    silvers: StringHashMap<Entry>,
}

/// The meaning of a lexicon: what each word is listed as.
pub struct LexiconView {
    pub british: bool,
    pub golds: Map<Seq<char>, EntryView>,
    pub silvers: Map<Seq<char>, EntryView>,
}

/// The entries of a word list by their meaning.
pub open spec fn entries_view(m: Map<Seq<char>, Entry>) -> Map<Seq<char>, EntryView> {
    m.map_values(|e: Entry| e@)
}

impl View for Lexicon {
    type V = LexiconView;

    closed spec fn view(&self) -> LexiconView {
        LexiconView {
            british: self.british,
            golds: entries_view(self.golds@),
            silvers: entries_view(self.silvers@),
        }
    }
}

/// The raw list of a lexicon file.
pub open spec fn listing(d: Seq<(String, Entry)>) -> Seq<(Seq<char>, EntryView)> {
    d.map_values(|p: (String, Entry)| (p.0@, p.1@))
}

/// The map that a raw list writes. The last of two equal words counts.
pub open spec fn listed(d: Seq<(Seq<char>, EntryView)>) -> Map<Seq<char>, EntryView>
    decreases d.len(),
{
    if d.len() == 0 {
        Map::empty()
    } else {
        listed(d.drop_last()).insert(d.last().0, d.last().1)
    }
}

/// The second spelling that a listed word of two or more letters stands for: capitalised
/// for a word in small letters, in small letters for a capitalised one.
pub open spec fn other_spelling(k: Seq<char>) -> Option<Seq<char>> {
    if k.len() < 2 {
        None
    } else if k == lowercase(k) {
        if k == capitalized(k) {
            None
        } else {
            Some(capitalized(k))
        }
    } else if k == capitalized(lowercase(k)) {
        Some(lowercase(k))
    } else {
        None
    }
}

/// The entries of the second spellings, in the order of the list.
pub open spec fn other_spellings(d: Seq<(Seq<char>, EntryView)>) -> Map<Seq<char>, EntryView>
    decreases d.len(),
{
    if d.len() == 0 {
        Map::empty()
    } else {
        match other_spelling(d.last().0) {
            Some(k) => other_spellings(d.drop_last()).insert(k, d.last().1),
            None => other_spellings(d.drop_last()),
        }
    }
}

/// A raw list with its second spellings, where a listed word wins over a derived one.
pub open spec fn grown(d: Seq<(Seq<char>, EntryView)>) -> Map<Seq<char>, EntryView> {
    other_spellings(d).union_prefer_right(listed(d))
}

fn capitalize(s: &str) -> (r: String)
    ensures
        r@ == capitalized(s@),
{
    let chars = chars_of(s);
    if chars.len() == 0 {
        return String::new();
    }
    let mut out = char_to_uppercase(chars[0]);
    let ghost rest = chars@.skip(1);
    let mut i: usize = 1;
    assert(rest.take(0) =~= Seq::<char>::empty());
    assert(out@ + small_letters(rest.take(0)) =~= out@);
    while i < chars.len()
        invariant
            1 <= i <= chars@.len(),
            rest == chars@.skip(1),
            out@ == char_uppercase(chars@[0]) + small_letters(rest.take(i - 1)),
        decreases chars.len() - i,
    {
        let small = char_to_lowercase(chars[i]);
        out.append(small.as_str());
        assert(rest.take(i as int).drop_last() =~= rest.take(i - 1));
        assert(rest.take(i as int).last() == chars@[i as int]);
        assert(out@ =~= char_uppercase(chars@[0]) + small_letters(rest.take(i as int)));
        i = i + 1;
    }
    assert(rest.take(i - 1) =~= rest);
    out
}

/// The second spelling of a listed word.
fn second_spelling(k: &str) -> (r: Option<String>)
    ensures
        opt_chars(r) == other_spelling(k@),
{
    if k.unicode_len() < 2 {
        return None;
    }
    let small = lower(k);
    if str_eq(k, small.as_str()) {
        let cap = capitalize(k);
        if str_eq(k, cap.as_str()) {
            None
        } else {
            Some(cap)
        }
    } else {
        let cap = capitalize(small.as_str());
        if str_eq(k, cap.as_str()) {
            Some(small)
        } else {
            None
        }
    }
}

/// Adds the capitalised and lowercased spellings that a word list leaves out. The list
/// comes in the order in which its map was walked: it decides which of two words gives its
/// entry to a spelling that both derive.
fn grow(d: &Vec<(String, Entry)>) -> (r: StringHashMap<Entry>)
    ensures
        entries_view(r@) == grown(listing(d@)),
{
    let mut out: StringHashMap<Entry> = StringHashMap::new();
    let mut own: StringHashMap<Entry> = StringHashMap::new();
    let ghost all = listing(d@);
    let mut i: usize = 0;
    assert(all.take(0) =~= Seq::<(Seq<char>, EntryView)>::empty());
    assert(entries_view(out@) =~= other_spellings(all.take(0)));
    assert(entries_view(own@) =~= listed(all.take(0)));
    while i < d.len()
        invariant
            i <= d@.len(),
            all == listing(d@),
            entries_view(out@) == other_spellings(all.take(i as int)),
            entries_view(own@) == listed(all.take(i as int)),
        decreases d.len() - i,
    {
        let ghost out0 = out@;
        let ghost own0 = own@;
        assert(all.take(i + 1).drop_last() =~= all.take(i as int));
        assert(all.take(i + 1).last() == (d@[i as int].0@, d@[i as int].1@));
        match second_spelling(d[i].0.as_str()) {
            Some(k) => {
                let e = d[i].1.copy();
                out.insert(k, e);
                assert(entries_view(out@) =~= entries_view(out0).insert(k@, e@));
            },
            None => {},
        }
        let e = d[i].1.copy();
        own.insert(d[i].0.clone(), e);
        assert(entries_view(own@) =~= entries_view(own0).insert(d@[i as int].0@, e@));
        i = i + 1;
    }
    assert(all.take(i as int) =~= all);
    let ghost out0 = out@;
    out.union_prefer_right(own);
    assert(entries_view(out@) =~= entries_view(out0).union_prefer_right(entries_view(own@)));
    out
}

impl Lexicon {
    /// A lexicon of two raw word lists.
    pub fn new(british: bool, gold: Vec<(String, Entry)>, silver: Vec<(String, Entry)>) -> (r:
        Lexicon)
        ensures
            r@ == (LexiconView {
                british,
                golds: grown(listing(gold@)),
                silvers: grown(listing(silver@)),
            }),
    {
        let golds = grow(&gold);
        let silvers = grow(&silver);
        Lexicon { british, golds, silvers }
    }

    /// Whether the lexicon is British.
    pub fn is_british(&self) -> (r: bool)
        ensures
            r == self@.british,
    {
        self.british
    }

    /// Whether a word is among the trusted ones.
    pub fn has_gold(&self, word: &str) -> (r: bool)
        ensures
            r == self@.golds.contains_key(word@),
    {
        self.golds.contains_key(word)
    }

    /// Whether a word is among the less trusted ones.
    pub fn has_silver(&self, word: &str) -> (r: bool)
        ensures
            r == self@.silvers.contains_key(word@),
    {
        self.silvers.contains_key(word)
    }

    /// The entry of a trusted word.
    pub(crate) fn gold(&self, word: &str) -> (r: Option<&Entry>)
        ensures
            match r {
                Some(e) => self@.golds.contains_key(word@) && e@ == self@.golds[word@],
                None => !self@.golds.contains_key(word@),
            },
    {
        self.golds.get(word)
    }

    /// The entry of a less trusted word.
    pub(crate) fn silver(&self, word: &str) -> (r: Option<&Entry>)
        ensures
            match r {
                Some(e) => self@.silvers.contains_key(word@) && e@ == self@.silvers[word@],
                None => !self@.silvers.contains_key(word@),
            },
    {
        self.silvers.get(word)
    }
}

/// The word that a currency sign is read as, and that of its hundredth.
pub open spec fn units_of(c: Seq<char>) -> Option<(Seq<char>, Seq<char>)> {
    if c == "$"@ {
        Some(("dollar"@, "cent"@))
    } else if c == "£"@ {
        Some(("pound"@, "pence"@))
    } else if c == "€"@ {
        Some(("euro"@, "cent"@))
    } else {
        None
    }
}

/// The word of a sign inside an address.
pub open spec fn address_symbol_word(w: Seq<char>) -> Option<Seq<char>> {
    if w == "."@ {
        Some("dot"@)
    } else if w == "/"@ {
        Some("slash"@)
    } else {
        None
    }
}

/// The word of a sign.
pub open spec fn symbol_word(w: Seq<char>) -> Option<Seq<char>> {
    if w == "%"@ {
        Some("percent"@)
    } else if w == "&"@ {
        Some("and"@)
    } else if w == "+"@ {
        Some("plus"@)
    } else if w == "@"@ {
        Some("at"@)
    } else {
        None
    }
}

/// The characters of an optional static string.
pub open spec fn opt_str(s: Option<&str>) -> Option<Seq<char>> {
    match s {
        Some(t) => Some(t@),
        None => None,
    }
}

pub(crate) fn currency_units(c: &str) -> (r: Option<(&'static str, &'static str)>)
    ensures
        match r {
            Some(p) => units_of(c@) == Some((p.0@, p.1@)),
            None => units_of(c@) is None,
        },
{
    if str_eq(c, "$") {
        Some(("dollar", "cent"))
    } else if str_eq(c, "£") {
        Some(("pound", "pence"))
    } else if str_eq(c, "€") {
        Some(("euro", "cent"))
    } else {
        None
    }
}

/// Whether a string is a currency sign.
pub fn currency_symbol(c: &str) -> (r: bool)
    ensures
        r == units_of(c@) is Some,
{
    currency_units(c).is_some()
}

pub(crate) fn add_symbol(w: &str) -> (r: Option<&'static str>)
    ensures
        opt_str(r) == address_symbol_word(w@),
{
    if str_eq(w, ".") {
        Some("dot")
    } else if str_eq(w, "/") {
        Some("slash")
    } else {
        None
    }
}

/// The word of a sign.
pub fn symbol(w: &str) -> (r: Option<&'static str>)
    ensures
        opt_str(r) == symbol_word(w@),
{
    if str_eq(w, "%") {
        Some("percent")
    } else if str_eq(w, "&") {
        Some("and")
    } else if str_eq(w, "+") {
        Some("plus")
    } else if str_eq(w, "@") {
        Some("at")
    } else {
        None
    }
}

/// The part of speech that a fine tag belongs to; other tags stand for themselves.
pub open spec fn coarse_tag(tag: Seq<char>) -> Seq<char> {
    if "VB"@.is_prefix_of(tag) {
        "VERB"@
    } else if "NN"@.is_prefix_of(tag) {
        "NOUN"@
    } else if "ADV"@.is_prefix_of(tag) || "RB"@.is_prefix_of(tag) {
        "ADV"@
    } else if "ADJ"@.is_prefix_of(tag) || "JJ"@.is_prefix_of(tag) {
        "ADJ"@
    } else {
        tag
    }
}

/// The phonemes of an entry for a tag. Where nothing follows the word, a homograph may list
/// a pronunciation of its own for that. One that lists no fallback has none for a tag that it
/// does not list.
pub open spec fn entry_phonemes(
    e: EntryView,
    tag: Seq<char>,
    ctx: Option<TokenContext>,
) -> Option<Seq<char>> {
    match e {
        EntryView::Word(w) => Some(w),
        EntryView::Tagged(m) => {
            let key = if ctx is Some && ctx.unwrap().future_vowel is None && m.contains_key(
                "None"@,
            ) {
                "None"@
            } else if m.contains_key(tag) {
                tag
            } else {
                coarse_tag(tag)
            };
            if m.contains_key(key) {
                m[key]
            } else if m.contains_key("DEFAULT"@) {
                m["DEFAULT"@]
            } else {
                None
            }
        },
    }
}

/// Only ASCII letters.
pub open spec fn ascii_letters(s: Seq<char>) -> bool {
    forall|i: int| 0 <= i < s.len() ==> is_small(#[trigger] s[i]) || is_capital(s[i])
}

/// The last secondary stress made primary.
pub open spec fn last_stress_raised(ps: Seq<char>) -> Seq<char> {
    let p = last_piece(ps, SECONDARY_STRESS);
    if p == 0 {
        ps
    } else {
        ps.update(p - 1, PRIMARY_STRESS)
    }
}

impl LexiconView {
    /// The phonemes of a trusted word that is no homograph.
    pub open spec fn gold_word(self, word: Seq<char>) -> Option<Seq<char>> {
        if self.golds.contains_key(word) {
            match self.golds[word] {
                EntryView::Word(w) => Some(w),
                EntryView::Tagged(_) => None,
            }
        } else {
            None
        }
    }

    /// The names of the letters of a word, one after the other; nothing where a letter has
    /// no name.
    pub open spec fn letter_names(self, word: Seq<char>) -> Option<Seq<char>>
        decreases word.len(),
    {
        if word.len() == 0 {
            Some(Seq::empty())
        } else {
            match self.letter_names(word.drop_last()) {
                None => None,
                Some(ps) => if !alphabetic(word.last()) {
                    Some(ps)
                } else {
                    match self.gold_word(char_uppercase(word.last())) {
                        None => None,
                        Some(name) => Some(ps + name),
                    }
                },
            }
        }
    }

    /// A word spelt out letter by letter, with the primary stress on the last.
    pub open spec fn spelt(self, word: Seq<char>) -> Option<(Seq<char>, u8)> {
        match self.letter_names(word) {
            None => None,
            Some(ps) => Some((last_stress_raised(stressed(ps, Some(LEVEL))), 3u8)),
        }
    }

    /// Whether a word can be looked up: it is listed, or a sign, or a single letter, or
    /// written in capitals.
    pub open spec fn known(self, word: Seq<char>) -> bool {
        self.golds.contains_key(word) || symbol_word(word) is Some || self.silvers.contains_key(
            word,
        ) || (ascii_letters(word) && (word.len() <= 1 || (word == uppercase(word)
            && self.golds.contains_key(lowercase(word))) || word.skip(1) == uppercase(
            word.skip(1),
        )))
    }

    /// The word under which a lookup searches: in small letters for a word in capitals that
    /// is not itself listed.
    pub open spec fn searched(self, word: Seq<char>) -> Seq<char> {
        if self.shouted(word) {
            lowercase(word)
        } else {
            word
        }
    }

    /// A word in capitals that is not listed as such.
    pub open spec fn shouted(self, word: Seq<char>) -> bool {
        word == uppercase(word) && !self.golds.contains_key(word)
    }

    /// What a word is listed as, before stress. A name in capitals is sought among the
    /// trusted words only.
    pub open spec fn listed_phonemes(
        self,
        word: Seq<char>,
        tag: Seq<char>,
        ctx: Option<TokenContext>,
    ) -> Option<(Seq<char>, u8)> {
        let w = self.searched(word);
        let name = self.shouted(word) && tag == "NNP"@;
        let (ps, rating) = if self.golds.contains_key(w) {
            (entry_phonemes(self.golds[w], tag, ctx), 4u8)
        } else if !name && self.silvers.contains_key(w) {
            (entry_phonemes(self.silvers[w], tag, ctx), 3u8)
        } else {
            (None, 4u8)
        };
        match ps {
            None => None,
            Some(p) => Some((p, rating)),
        }
    }

    /// The phonemes of a word. A word that is not listed is spelt out if it can be, and so
    /// is a name in capitals whose listed phonemes have no primary stress.
    pub open spec fn lookup(
        self,
        word: Seq<char>,
        tag: Seq<char>,
        stress: Option<i32>,
        ctx: Option<TokenContext>,
    ) -> Option<(Seq<char>, u8)> {
        let hit = self.listed_phonemes(word, tag, ctx);
        let name = self.shouted(word) && tag == "NNP"@;
        let spelt = self.spelt(self.searched(word));
        if spelt is Some && (hit is None || (name && !hit.unwrap().0.contains(PRIMARY_STRESS))) {
            spelt
        } else {
            match hit {
                None => None,
                Some(h) => Some((stressed(h.0, stress), h.1)),
            }
        }
    }
}

/// Whether every character is an ASCII letter.
fn only_ascii_letters(s: &Vec<char>) -> (r: bool)
    ensures
        r == ascii_letters(s@),
{
    let mut i: usize = 0;
    while i < s.len()
        invariant
            i <= s@.len(),
            forall|k: int| 0 <= k < i ==> is_small(#[trigger] s@[k]) || is_capital(s@[k]),
        decreases s.len() - i,
    {
        let c: u32 = s[i] as u32;
        if !(('a' as u32 <= c && c <= 'z' as u32) || ('A' as u32 <= c && c <= 'Z' as u32)) {
            assert(!is_small(s@[i as int]) && !is_capital(s@[i as int]));
            return false;
        }
        i = i + 1;
    }
    true
}

impl Lexicon {
    pub(crate) fn parent_tag(tag: &str) -> (r: &str)
        ensures
            r@ == coarse_tag(tag@),
    {
        if starts_with(tag, "VB") {
            "VERB"
        } else if starts_with(tag, "NN") {
            "NOUN"
        } else if starts_with(tag, "ADV") || starts_with(tag, "RB") {
            "ADV"
        } else if starts_with(tag, "ADJ") || starts_with(tag, "JJ") {
            "ADJ"
        } else {
            tag
        }
    }

    pub(crate) fn gold_str(&self, word: &str) -> (r: Option<String>)
        ensures
            opt_chars(r) == self@.gold_word(word@),
    {
        match self.gold(word) {
            Some(Entry::Word(w)) => Some(w.clone()),
            _ => None,
        }
    }

    /// Spells a word out letter by letter, primary stress on the last.
    pub(crate) fn get_nnp(&self, word: &str) -> (r: Option<Hit>)
        ensures
            hit_view(r) == self@.spelt(word@),
    {
        let chars = chars_of(word);
        let mut ps = String::new();
        let mut i: usize = 0;
        while i < chars.len()
            invariant
                i <= chars@.len(),
                chars@ == word@,
                self@.letter_names(chars@.take(i as int)) == Some(ps@),
            decreases chars.len() - i,
        {
            assert(chars@.take(i + 1).drop_last() =~= chars@.take(i as int));
            if is_alphabetic(chars[i]) {
                let up = char_to_uppercase(chars[i]);
                assert(up@ == char_uppercase(chars@[i as int]));
                match self.gold_str(up.as_str()) {
                    Some(name) => ps.append(name.as_str()),
                    None => {
                        proof {
                            self@.letter_names_stop(chars@, i + 1);
                        }
                        return None;
                    },
                }
            }
            i = i + 1;
        }
        assert(chars@.take(i as int) =~= word@);
        let flat = apply_stress(ps.as_str(), Some(LEVEL));
        let mut marked = chars_of(flat.as_str());
        let p: usize = last_piece_start(&marked, SECONDARY_STRESS);
        proof {
            last_piece_bounds(flat@, SECONDARY_STRESS);
        }
        if p > 0 {
            marked.set(p - 1, PRIMARY_STRESS);
        }
        let n: usize = marked.len();
        let out = string_of(&marked, 0, n);
        assert(out@ =~= last_stress_raised(flat@));
        Some((out, 3))
    }

    /// Whether a word can be looked up.
    pub(crate) fn is_known(&self, word: &str) -> (r: bool)
        ensures
            r == self@.known(word@),
    {
        if self.has_gold(word) || symbol(word).is_some() || self.has_silver(word) {
            return true;
        }
        let chars = chars_of(word);
        if !only_ascii_letters(&chars) {
            return false;
        }
        if chars.len() <= 1 {
            return true;
        }
        let big = upper(word);
        if str_eq(word, big.as_str()) {
            let small = lower(word);
            if self.has_gold(small.as_str()) {
                return true;
            }
        }
        let tail = tail_of(word, 1);
        let big_tail = upper(tail);
        str_eq(tail, big_tail.as_str())
    }

    /// The phonemes of an entry for a tag.
    fn phonemes_of(e: &Entry, tag: &str, ctx: Option<TokenContext>) -> (r: Option<String>)
        ensures
            opt_chars(r) == entry_phonemes(e@, tag@, ctx),
    {
        match e {
            Entry::Word(w) => Some(w.clone()),
            Entry::Tagged(v) => {
                let at_end = match ctx {
                    Some(c) => c.future_vowel.is_none(),
                    None => false,
                };
                let key = if at_end && Entry::tagged(v, "None").is_some() {
                    "None"
                } else if Entry::tagged(v, tag).is_some() {
                    tag
                } else {
                    Self::parent_tag(tag)
                };
                match Entry::tagged(v, key) {
                    Some(p) => p,
                    None => match Entry::tagged(v, "DEFAULT") {
                        Some(p) => p,
                        None => None,
                    },
                }
            },
        }
    }

    /// The phonemes of a word with a tag, under a stress, before what the context says
    /// follows.
    pub fn lookup(
        &self,
        word: &str,
        tag: &str,
        stress: Option<i32>,
        ctx: Option<TokenContext>,
    ) -> (r: Option<Hit>)
        ensures
            hit_view(r) == self@.lookup(word@, tag@, stress, ctx),
    {
        let big = upper(word);
        let shouted = str_eq(word, big.as_str()) && !self.has_gold(word);
        let name = shouted && str_eq(tag, "NNP");
        let searched = if shouted {
            lower(word)
        } else {
            word.to_owned()
        };
        let mut rating: u8 = 4;
        let ps: Option<String> = match self.gold(searched.as_str()) {
            Some(e) => Self::phonemes_of(e, tag, ctx),
            None => if name {
                None
            } else {
                match self.silver(searched.as_str()) {
                    Some(e) => {
                        rating = 3;
                        Self::phonemes_of(e, tag, ctx)
                    },
                    None => None,
                }
            },
        };
        let needs_spelling = match &ps {
            None => true,
            Some(p) => name && !contains_char(p.as_str(), PRIMARY_STRESS),
        };
        if needs_spelling {
            match self.get_nnp(searched.as_str()) {
                Some(hit) => {
                    return Some(hit);
                },
                None => {},
            }
        }
        match ps {
            Some(p) => Some((apply_stress(p.as_str(), stress), rating)),
            None => None,
        }
    }
}

impl LexiconView {
    /// A letter without a name stops the spelling of every longer word.
    proof fn letter_names_stop(self, word: Seq<char>, n: int)
        requires
            0 <= n <= word.len(),
            self.letter_names(word.take(n)) is None,
        ensures
            self.letter_names(word) is None,
        decreases word.len() - n,
    {
        if n < word.len() {
            assert(word.take(n + 1).drop_last() =~= word.take(n));
            self.letter_names_stop(word, n + 1);
        } else {
            assert(word.take(n) =~= word);
        }
    }
}

} // verus!
