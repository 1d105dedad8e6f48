//! Strings to keys, by symbol names and hashes, and the normal form of a token.

use crate::murmur::{murmur, murmur64a};
use crate::unicode::{lower, lowercase};
use std::collections::HashMap;
use vstd::hash_map::StringHashMap;
use vstd::prelude::*;
use vstd::string::*;
use vstd::utf8::*;

verus! {

/// The string tables of the tagger.
pub struct Vocab {
    /// Symbol names stand for small numbers, not for hashes. Every empty string and shapes
    /// like "X" land here; without the table those tokens embed from the wrong row and
    /// nothing reports it.
    pub symbols: StringHashMap<u64>,
    /// Currency symbols and smart quotes folded onto one representative.
    pub base_norms: StringHashMap<String>,
    /// Keyed by the hash of the text, not by the text: a table keyed by string would never
    /// hit.
    pub lexeme_norm: HashMap<u64, String>,
}

/// The meaning of the string tables.
#[verifier::ext_equal]
pub struct VocabView {
    pub symbols: Map<Seq<char>, u64>,
    pub base_norms: Map<Seq<char>, Seq<char>>,
    pub lexeme_norm: Map<u64, Seq<char>>,
}

/// A map to strings, as plain characters.
pub open spec fn values_view<K>(m: Map<K, String>) -> Map<K, Seq<char>> {
    m.map_values(|s: String| s@)
}

impl View for Vocab {
    type V = VocabView;

    open spec fn view(&self) -> VocabView {
        VocabView {
            symbols: self.symbols@,
            base_norms: values_view(self.base_norms@),
            lexeme_norm: values_view(self.lexeme_norm@),
        }
    }
}

/// The hash of a text, with the seed that the string store uses.
pub open spec fn text_hash(s: Seq<char>) -> u64 {
    murmur(encode_utf8(s), 1)
}

/// The map that a list of pairs writes. The last of two equal keys counts.
pub open spec fn pairs_map(v: Seq<(String, u64)>) -> Map<Seq<char>, u64>
    decreases v.len(),
{
    if v.len() == 0 {
        Map::empty()
    } else {
        pairs_map(v.drop_last()).insert(v.last().0@, v.last().1)
    }
}

/// The map that a list of string pairs writes. The last of two equal keys counts.
pub open spec fn strings_map(v: Seq<(String, String)>) -> Map<Seq<char>, Seq<char>>
    decreases v.len(),
{
    if v.len() == 0 {
        Map::empty()
    } else {
        strings_map(v.drop_last()).insert(v.last().0@, v.last().1@)
    }
}

/// The map that a list of keyed strings writes. The last of two equal keys counts.
pub open spec fn keyed_map(v: Seq<(u64, String)>) -> Map<u64, Seq<char>>
    decreases v.len(),
{
    if v.len() == 0 {
        Map::empty()
    } else {
        keyed_map(v.drop_last()).insert(v.last().0, v.last().1@)
    }
}

impl VocabView {
    /// The id of a string: that of its symbol name, or else its hash.
    pub open spec fn id_of(self, s: Seq<char>) -> u64 {
        if self.symbols.contains_key(s) {
            self.symbols[s]
        } else {
            text_hash(s)
        }
    }

    /// The normal form of a text: that of its own, or that listed under its hash, or small
    /// letters.
    pub open spec fn norm_of(self, text: Seq<char>) -> Seq<char> {
        if self.base_norms.contains_key(text) {
            self.base_norms[text]
        } else if self.lexeme_norm.contains_key(text_hash(text)) {
            self.lexeme_norm[text_hash(text)]
        } else {
            lowercase(text)
        }
    }
}

/// The string tables of three lists.
pub open spec fn vocab_of(
    symbols: Seq<(String, u64)>,
    base_norms: Seq<(String, String)>,
    lexeme_norm: Seq<(u64, String)>,
) -> VocabView {
    VocabView {
        symbols: pairs_map(symbols),
        base_norms: strings_map(base_norms),
        lexeme_norm: keyed_map(lexeme_norm),
    }
}

impl Vocab {
    /// A vocabulary of three lists.
    pub fn new(
        symbols: &Vec<(String, u64)>,
        base_norms: &Vec<(String, String)>,
        lexeme_norm: &Vec<(u64, String)>,
    ) -> (r: Vocab)
        ensures
            r@ == vocab_of(symbols@, base_norms@, lexeme_norm@),
    {
        broadcast use vstd::std_specs::hash::group_hash_axioms;

        let mut ids: StringHashMap<u64> = StringHashMap::new();
        let mut i: usize = 0;
        while i < symbols.len()
            invariant
                i <= symbols@.len(),
                ids@ == pairs_map(symbols@.take(i as int)),
            decreases symbols.len() - i,
        {
            assert(symbols@.take(i + 1).drop_last() =~= symbols@.take(i as int));
            ids.insert(symbols[i].0.clone(), symbols[i].1);
            i = i + 1;
        }
        assert(symbols@.take(i as int) =~= symbols@);
        let mut norms: StringHashMap<String> = StringHashMap::new();
        assert(values_view(norms@) =~= Map::empty());
        i = 0;
        while i < base_norms.len()
            invariant
                i <= base_norms@.len(),
                values_view(norms@) == strings_map(base_norms@.take(i as int)),
            decreases base_norms.len() - i,
        {
            assert(base_norms@.take(i + 1).drop_last() =~= base_norms@.take(i as int));
            let ghost before = norms@;
            norms.insert(base_norms[i].0.clone(), base_norms[i].1.clone());
            assert(values_view(norms@) =~= values_view(before).insert(
                base_norms@[i as int].0@,
                base_norms@[i as int].1@,
            ));
            i = i + 1;
        }
        assert(base_norms@.take(i as int) =~= base_norms@);
        let mut keyed: HashMap<u64, String> = HashMap::new();
        assert(values_view(keyed@) =~= Map::empty());
        i = 0;
        while i < lexeme_norm.len()
            invariant
                i <= lexeme_norm@.len(),
                values_view(keyed@) == keyed_map(lexeme_norm@.take(i as int)),
            decreases lexeme_norm.len() - i,
        {
            broadcast use vstd::std_specs::hash::group_hash_axioms;

            assert(lexeme_norm@.take(i + 1).drop_last() =~= lexeme_norm@.take(i as int));
            let ghost before = keyed@;
            keyed.insert(lexeme_norm[i].0, lexeme_norm[i].1.clone());
            assert(values_view(keyed@) =~= values_view(before).insert(
                lexeme_norm@[i as int].0,
                lexeme_norm@[i as int].1@,
            ));
            i = i + 1;
        }
        assert(lexeme_norm@.take(i as int) =~= lexeme_norm@);
        Vocab { symbols: ids, base_norms: norms, lexeme_norm: keyed }
    }

    /// The id of a string: that of its symbol name, or else its hash.
    pub fn string_id(&self, s: &str) -> (r: u64)
        ensures
            r == self@.id_of(s@),
    {
        match self.symbols.get(s) {
            Some(id) => *id,
            None => murmur64a(s.as_bytes(), 1),
        }
    }

    /// The normal form of a text.
    pub fn norm(&self, text: &str) -> (r: String)
        ensures
            r@ == self@.norm_of(text@),
    {
        broadcast use vstd::std_specs::hash::group_hash_axioms;

        if let Some(n) = self.base_norms.get(text) {
            return n.clone();
        }
        let key: u64 = murmur64a(text.as_bytes(), 1);
        if let Some(n) = self.lexeme_norm.get(&key) {
            return n.clone();
        }
        lower(text)
    }
}

} // verus!
