//! How a word that the lexicon lacks is made up from words that it has.

use crate::affix::{with_ed, with_ing, with_s};
use crate::derive::{candidate, inflection_stem, nearer, particle_sound, prefix_sound, INFLECTIONS, PREFIXES};
use crate::lexicon::LexiconView;
use crate::stress::stressed;
use crate::unicode::lowercase;
use vstd::prelude::*;

verus! {

proof fn prefixes_are_apart()
    ensures
        "un"@ == seq!['u', 'n'],
        "re"@ == seq!['r', 'e'],
        "non"@ == seq!['n', 'o', 'n'],
        "multi"@ == seq!['m', 'u', 'l', 't', 'i'],
        "over"@ == seq!['o', 'v', 'e', 'r'],
        "under"@ == seq!['u', 'n', 'd', 'e', 'r'],
        "pre"@ == seq!['p', 'r', 'e'],
        "de"@ == seq!['d', 'e'],
        "mis"@ == seq!['m', 'i', 's'],
        "sub"@ == seq!['s', 'u', 'b'],
        "inter"@ == seq!['i', 'n', 't', 'e', 'r'],
        "anti"@ == seq!['a', 'n', 't', 'i'],
        "auto"@ == seq!['a', 'u', 't', 'o'],
        "co"@ == seq!['c', 'o'],
        "micro"@ == seq!['m', 'i', 'c', 'r', 'o'],
        "mono"@ == seq!['m', 'o', 'n', 'o'],
        "semi"@ == seq!['s', 'e', 'm', 'i'],
        "pseudo"@ == seq!['p', 's', 'e', 'u', 'd', 'o'],
        "quasi"@ == seq!['q', 'u', 'a', 's', 'i'],
        "intra"@ == seq!['i', 'n', 't', 'r', 'a'],
{
    reveal_strlit("un");
    reveal_strlit("re");
    reveal_strlit("non");
    reveal_strlit("multi");
    reveal_strlit("over");
    reveal_strlit("under");
    reveal_strlit("pre");
    reveal_strlit("de");
    reveal_strlit("mis");
    reveal_strlit("sub");
    reveal_strlit("inter");
    reveal_strlit("anti");
    reveal_strlit("auto");
    reveal_strlit("co");
    reveal_strlit("micro");
    reveal_strlit("mono");
    reveal_strlit("semi");
    reveal_strlit("pseudo");
    reveal_strlit("quasi");
    reveal_strlit("intra");
}

proof fn differ(a: Seq<char>, b: Seq<char>, k: int)
    requires
        a.len() != b.len() || (0 <= k < a.len() && a[k] != b[k]),
    ensures
        a != b,
{
}

/// The sound of every prefix, with the secondary stress that it takes.
pub proof fn prefixes_have_sounds()
    ensures
        prefix_sound("un"@) == Some("ˌʌn"@),
        prefix_sound("re"@) == Some("ɹˌi"@),
        prefix_sound("non"@) == Some("nˌɑn"@),
        prefix_sound("multi"@) == Some("mˌʌlti"@),
        prefix_sound("over"@) == Some("ˌOvəɹ"@),
        prefix_sound("under"@) == Some("ˌʌndəɹ"@),
        prefix_sound("pre"@) == Some("pɹˌi"@),
        prefix_sound("de"@) == Some("dˌi"@),
        prefix_sound("mis"@) == Some("mˌɪs"@),
        prefix_sound("sub"@) == Some("sˌʌb"@),
        prefix_sound("inter"@) == Some("ˌɪntəɹ"@),
        prefix_sound("anti"@) == Some("ˌæntI"@),
        prefix_sound("auto"@) == Some("ˌɔɾO"@),
        prefix_sound("co"@) == Some("kˌO"@),
        prefix_sound("micro"@) == Some("mˌIkɹO"@),
        prefix_sound("mono"@) == Some("mˌɑnO"@),
        prefix_sound("semi"@) == Some("sˌɛmI"@),
        prefix_sound("pseudo"@) == Some("sˌudO"@),
        prefix_sound("quasi"@) == Some("kwˌAzI"@),
        prefix_sound("intra"@) == Some("ˌɪntɹə"@),
{
    prefixes_are_apart();
    differ("re"@, "un"@, 0);
    differ("pre"@, "non"@, 0);
    differ("under"@, "multi"@, 0);
    differ("under"@, "un"@, 0);
    differ("under"@, "re"@, 0);
    differ("under"@, "non"@, 0);
    differ("under"@, "over"@, 0);
    differ("de"@, "un"@, 0);
    differ("de"@, "re"@, 0);
    differ("mis"@, "non"@, 0);
    differ("mis"@, "pre"@, 0);
    differ("sub"@, "non"@, 0);
    differ("sub"@, "pre"@, 0);
    differ("sub"@, "mis"@, 0);
    differ("inter"@, "multi"@, 0);
    differ("inter"@, "under"@, 0);
    differ("anti"@, "over"@, 0);
    differ("auto"@, "over"@, 0);
    differ("auto"@, "anti"@, 1);
    differ("co"@, "un"@, 0);
    differ("co"@, "re"@, 0);
    differ("co"@, "de"@, 0);
    differ("micro"@, "multi"@, 1);
    differ("micro"@, "under"@, 0);
    differ("micro"@, "inter"@, 0);
    differ("mono"@, "over"@, 0);
    differ("mono"@, "anti"@, 0);
    differ("mono"@, "auto"@, 0);
    differ("semi"@, "over"@, 0);
    differ("semi"@, "anti"@, 0);
    differ("semi"@, "auto"@, 0);
    differ("semi"@, "mono"@, 0);
    differ("quasi"@, "multi"@, 0);
    differ("quasi"@, "under"@, 0);
    differ("quasi"@, "inter"@, 0);
    differ("quasi"@, "micro"@, 0);
    differ("intra"@, "multi"@, 0);
    differ("intra"@, "under"@, 0);
    differ("intra"@, "inter"@, 3);
    differ("intra"@, "micro"@, 0);
    differ("intra"@, "quasi"@, 0);
}

/// Only six prefixes stand alone where a hyphen sets them apart, and there the secondary stress of
/// the prefix is primary: each of its marks is raised, and nothing else changes.
pub proof fn particles_are_stressed(w: Seq<char>)
    ensures
        particle_sound(w) is Some <==> (w == "non"@ || w == "multi"@ || w == "quasi"@ || w
            == "pseudo"@ || w == "semi"@ || w == "intra"@),
        particle_sound(w) is Some ==> prefix_sound(w) is Some && particle_sound(w).unwrap().len()
            == prefix_sound(w).unwrap().len(),
        particle_sound(w) is Some ==> forall|i: int|
            0 <= i < prefix_sound(w).unwrap().len() ==> #[trigger] particle_sound(w).unwrap()[i] == (
            if prefix_sound(w).unwrap()[i] == 'ˌ' {
                'ˈ'
            } else {
                prefix_sound(w).unwrap()[i]
            }),
{
    prefixes_have_sounds();
    if particle_sound(w) is Some {
        let p = prefix_sound(w).unwrap();
        reveal_strlit("nˌɑn");
        reveal_strlit("mˌʌlti");
        reveal_strlit("kwˌAzI");
        reveal_strlit("sˌudO");
        reveal_strlit("sˌɛmI");
        reveal_strlit("ˌɪntɹə");
        assert("nˌɑn"@[1] == 'ˌ' && "mˌʌlti"@[1] == 'ˌ' && "kwˌAzI"@[2] == 'ˌ' && "sˌudO"@[1] == 'ˌ'
            && "sˌɛmI"@[1] == 'ˌ' && "ˌɪntɹə"@[0] == 'ˌ');
        assert(p.contains('ˌ'));
        assert(!p.contains('ˈ'));
        crate::stress_laws::secondary_stress_is_raised(p, crate::stress::RAISE);
    }
}

impl LexiconView {
    /// A word with one of the sixteen prefixes before a listed word of three letters or more is read
    /// as the prefix and the word, each with its own stress, where no comparison applies. Nothing
    /// else counts as a prefix.
    pub proof fn prefixed_words(self, l: Seq<char>)
        ensures
            self.prefixed(l) is Some ==> exists|i: int|
                0 <= i < 16 && {
                    let p = #[trigger] PREFIXES@[i]@;
                    let rest = l.skip(p.len() as int);
                    &&& p.len() + 3 <= l.len()
                    &&& l == p + rest
                    &&& self.golds.contains_key(rest) || self.silvers.contains_key(rest)
                    &&& match (prefix_sound(p), self.plain_phonemes(rest)) {
                        (Some(a), Some(b)) => self.prefixed(l).unwrap() == Some(a + b),
                        _ => self.prefixed(l).unwrap() is None,
                    }
                },
            self.prefixed(l) is None ==> forall|i: int|
                0 <= i < 16 && (#[trigger] PREFIXES@[i]@).is_prefix_of(l) && PREFIXES@[i]@.len() + 3
                    <= l.len() ==> !self.golds.contains_key(l.skip(PREFIXES@[i]@.len() as int))
                    && !self.silvers.contains_key(l.skip(PREFIXES@[i]@.len() as int)),
    {
        self.prefix_found(l, 0);
        if self.prefixed(l) is Some {
            let i = self.prefix_from(l, 0).unwrap();
            let p = PREFIXES@[i]@;
            assert(l =~= p + l.skip(p.len() as int));
            assert(self.has_prefix(l, i));
        } else {
            assert forall|i: int|
                0 <= i < 16 && (#[trigger] PREFIXES@[i]@).is_prefix_of(l) && PREFIXES@[i]@.len() + 3
                    <= l.len() implies !self.golds.contains_key(
                l.skip(PREFIXES@[i]@.len() as int),
            ) && !self.silvers.contains_key(l.skip(PREFIXES@[i]@.len() as int)) by {
                assert(!self.has_prefix(l, i));
            }
        }
    }

    proof fn prefix_found(self, l: Seq<char>, i: int)
        requires
            0 <= i <= 16,
        ensures
            self.prefix_from(l, i) is Some ==> {
                let k = self.prefix_from(l, i).unwrap();
                i <= k < 16 && self.has_prefix(l, k)
            },
            self.prefix_from(l, i) is None ==> forall|k: int|
                i <= k < 16 ==> !#[trigger] self.has_prefix(l, k),
        decreases 16 - i,
    {
        if i < 16 && !self.has_prefix(l, i) {
            self.prefix_found(l, i + 1);
        }
    }

    /// A listed adjective or verb in -y compares and ends on its own sound: with "əɹ" in -ier, with
    /// "ᵻst" in -iest, and with its past tense in -ied.
    pub proof fn words_in_y_are_compared(self, v: Seq<char>, p: Seq<char>)
        requires
            self.golds.contains_key(v.push('y')) || self.silvers.contains_key(v.push('y')),
            self.plain_phonemes(v.push('y')) == Some(p),
        ensures
            self.derived(v + "ier"@) == Some((p + "əɹ"@, 2u8)),
            self.derived(v + "iest"@) == Some((p + "ᵻst"@, 2u8)),
            with_ed(self.british, p) is Some ==> self.derived(v + "ied"@) == Some(
                (with_ed(self.british, p).unwrap(), 2u8),
            ),
    {
        comparisons_are_spelt();
        let y = v.push('y');
        assert(v + "y"@ =~= y);
        let a = v + "ier"@;
        assert(a.take(a.len() - 3) =~= v);
        assert("ier"@.is_suffix_of(a)) by {
            assert(a.subrange(a.len() - 3, a.len() as int) =~= "ier"@);
        }
        ends_otherwise(a, "ied"@);
        not_a_particle(a);
        let b = v + "iest"@;
        assert(b.take(b.len() - 4) =~= v);
        assert("iest"@.is_suffix_of(b)) by {
            assert(b.subrange(b.len() - 4, b.len() as int) =~= "iest"@);
        }
        ends_otherwise(b, "ied"@);
        ends_otherwise(b, "ier"@);
        not_a_particle(b);
        let c = v + "ied"@;
        assert(c.take(c.len() - 3) =~= v);
        assert("ied"@.is_suffix_of(c)) by {
            assert(c.subrange(c.len() - 3, c.len() as int) =~= "ied"@);
        }
        not_a_particle(c);
    }

    /// A listed word of three letters or more compares on its own sound: with "əɹ" in -er and with
    /// "ᵻst" in -est, unless a word in -y does first.
    pub proof fn words_are_compared(self, w: Seq<char>, p: Seq<char>)
        requires
            w.len() >= 3,
            w.last() != 'i',
            self.golds.contains_key(w) || self.silvers.contains_key(w),
            self.plain_phonemes(w) == Some(p),
        ensures
            self.derived(w + "er"@) == Some((p + "əɹ"@, 2u8)),
            self.derived(w + "est"@) == Some((p + "ᵻst"@, 2u8)),
    {
        comparisons_are_spelt();
        let a = w + "er"@;
        assert(a.take(a.len() - 2) =~= w);
        assert("er"@.is_suffix_of(a)) by {
            assert(a.subrange(a.len() - 2, a.len() as int) =~= "er"@);
        }
        ends_otherwise(a, "ied"@);
        ends_otherwise(a, "iest"@);
        ends_otherwise(a, "est"@);
        assert(!"ier"@.is_suffix_of(a)) by {
            if "ier"@.is_suffix_of(a) {
                let t = a.subrange(a.len() - 3, a.len() as int);
                assert(t[0] == w.last());
            }
        }
        not_a_particle(a);
        let b = w + "est"@;
        assert(b.take(b.len() - 3) =~= w);
        assert("est"@.is_suffix_of(b)) by {
            assert(b.subrange(b.len() - 3, b.len() as int) =~= "est"@);
        }
        ends_otherwise(b, "ied"@);
        ends_otherwise(b, "ier"@);
        assert(!"iest"@.is_suffix_of(b)) by {
            if "iest"@.is_suffix_of(b) {
                let t = b.subrange(b.len() - 4, b.len() as int);
                assert(t[0] == w.last());
            }
        }
        not_a_particle(b);
    }

    /// A compound keeps the sound of its head as it is; the tail gives way and has no primary stress.
    /// Both are listed words, a head of at least three letters and a tail of at least two, and no
    /// other such split is more even, nor as even with a shorter head.
    pub proof fn compounds_are_even(self, l: Seq<char>, other: int)
        requires
            self.compound(l) is Some,
            3 <= other <= l.len() - 2,
            self.golds.contains_key(l.take(other)) || self.silvers.contains_key(l.take(other)),
            self.golds.contains_key(l.skip(other)) || self.silvers.contains_key(l.skip(other)),
        ensures
            exists|k: int|
                3 <= k <= l.len() - 2 && {
                    let head = self.plain_phonemes(#[trigger] l.take(k));
                    let tail = self.plain_phonemes(l.skip(k));
                    let n = l.len() as int;
                    let mine = if k < n - k {
                        k
                    } else {
                        n - k
                    };
                    let theirs = if other < n - other {
                        other
                    } else {
                        n - other
                    };
                    &&& head is Some
                    &&& tail is Some
                    &&& self.compound(l) == Some(
                        head.unwrap() + stressed(tail.unwrap(), Some((-1) as i32)),
                    )
                    &&& !stressed(tail.unwrap(), Some((-1) as i32)).contains('ˈ')
                    &&& mine > theirs || (mine == theirs && k <= other)
                },
    {
        let k = self.best_split(l, l.len() - 2).unwrap();
        self.compound_split_is_best(l, k, other);
        let tail = self.plain_phonemes(l.skip(k)).unwrap();
        crate::stress_laws::demotion_leaves_no_primary(tail, (-1) as i32);
        assert(self.plain_phonemes(l.take(k)) is Some);
    }

    /// A word that ends as an inflection of a derivable word is read as that word with the ending set
    /// on its sound: the plural for -s and -es, the past tense for -ed, the participle for -ing. The
    /// candidates are tried in that order, each stem before the stem with an "e".
    pub proof fn inflections_are_set_on_derivations(self, l: Seq<char>, n: int, h: (Seq<char>, u8))
        requires
            0 <= n < 8,
            candidate(l, n) is Some,
            nearer(lowercase(candidate(l, n).unwrap()), l),
            self.derived(lowercase(candidate(l, n).unwrap())) == Some(h),
        ensures
            n < 4 && with_s(self.british, h.0) is Some ==> self.inflected(l, n) == with_s(
                self.british,
                h.0,
            ),
            4 <= n < 6 && with_ed(self.british, h.0) is Some ==> self.inflected(l, n) == with_ed(
                self.british,
                h.0,
            ),
            n >= 6 && with_ing(self.british, h.0) is Some ==> self.inflected(l, n) == with_ing(
                self.british,
                h.0,
            ),
    {
    }

    /// A derivation is sought in a fixed order: a particle, a comparison, a prefix, an inflection, a
    /// compound. What comes first is the derivation, and it is rated two.
    pub proof fn derivations_are_tried_in_order(self, l: Seq<char>, p: Seq<char>)
        ensures
            particle_sound(l) == Some(p) ==> self.derived(l) == Some((p, 2u8)),
            particle_sound(l) is None && self.compared(l) == Some(Some(p)) ==> self.derived(l) == Some(
                (p, 2u8),
            ),
            particle_sound(l) is None && self.compared(l) is None && self.prefixed(l) == Some(Some(p))
                ==> self.derived(l) == Some((p, 2u8)),
            particle_sound(l) is None && self.compared(l) is None && self.prefixed(l) is None
                && self.inflected(l, 0) == Some(p) ==> self.derived(l) == Some((p, 2u8)),
            particle_sound(l) is None && self.compared(l) is None && self.prefixed(l) is None
                && self.inflected(l, 0) is None && self.compound(l) == Some(p) ==> self.derived(l)
                == Some((p, 2u8)),
    {
    }
}

proof fn comparisons_are_spelt()
    ensures
        "ied"@ == seq!['i', 'e', 'd'],
        "ier"@ == seq!['i', 'e', 'r'],
        "iest"@ == seq!['i', 'e', 's', 't'],
        "est"@ == seq!['e', 's', 't'],
        "er"@ == seq!['e', 'r'],
        "y"@ == seq!['y'],
{
    reveal_strlit("ied");
    reveal_strlit("ier");
    reveal_strlit("iest");
    reveal_strlit("est");
    reveal_strlit("er");
    reveal_strlit("y");
}

proof fn ends_otherwise(w: Seq<char>, e: Seq<char>)
    requires
        w.len() > 0,
        e.len() > 0,
        w.last() != e.last(),
    ensures
        !e.is_suffix_of(w),
{
    if e.is_suffix_of(w) {
        let t = w.subrange(w.len() - e.len(), w.len() as int);
        assert(t.last() == w.last());
    }
}

proof fn not_a_particle(w: Seq<char>)
    requires
        w.len() > 0,
        w.last() == 'r' || w.last() == 't' || w.last() == 'd',
    ensures
        particle_sound(w) is None,
{
    prefixes_are_apart();
    assert("non"@.last() == 'n' && "multi"@.last() == 'i' && "quasi"@.last() == 'i'
        && "pseudo"@.last() == 'o' && "semi"@.last() == 'i' && "intra"@.last() == 'a');
}

/// The inner word of an inflected one has at least four letters, and a word in "ss" is not inflected.
pub proof fn stems_are_long_enough(l: Seq<char>, n: int)
    requires
        0 <= n < 8,
        candidate(l, n) is Some,
    ensures
        ({
            let c = candidate(l, n).unwrap();
            let e = if n < 2 {
                "s"@
            } else if n < 4 {
                "es"@
            } else if n < 6 {
                "ed"@
            } else {
                "ing"@
            };
            &&& c.len() >= 4
            &&& c != l
            &&& !"ss"@.is_suffix_of(l)
            &&& n % 2 == 0 ==> l == c + e
            &&& n % 2 == 1 ==> c.last() == 'e' && l == c.drop_last() + e
        }),
{
    reveal_strlit("e");
    let e = INFLECTIONS@[n / 2]@;
    let stem = inflection_stem(l, n / 2).unwrap();
    let c = candidate(l, n).unwrap();
    assert(l =~= stem + e) by {
        assert(l.subrange(l.len() - e.len(), l.len() as int) == e);
    }
    if n % 2 == 1 {
        assert(c.drop_last() =~= stem);
    }
}

/// A word of four letters or more with one of the four endings behind it has that word as a
/// candidate, and the word with an "e" as the next, unless it ends in "ss".
pub proof fn stems_are_candidates(c: Seq<char>, k: int)
    requires
        0 <= k < 4,
        c.len() >= 4,
        c.last() != 's',
    ensures
        ({
            let e = if k == 0 {
                "s"@
            } else if k == 1 {
                "es"@
            } else if k == 2 {
                "ed"@
            } else {
                "ing"@
            };
            &&& candidate(c + e, 2 * k) == Some(c)
            &&& candidate(c + e, 2 * k + 1) == Some(c.push('e'))
        }),
{
    reveal_strlit("s");
    reveal_strlit("es");
    reveal_strlit("ed");
    reveal_strlit("ing");
    reveal_strlit("e");
    reveal_strlit("ss");
    let e = INFLECTIONS@[k]@;
    let l = c + e;
    let n = l.len() as int;
    assert(e.is_suffix_of(l)) by {
        assert(l.subrange(c.len() as int, n) =~= e);
    }
    assert(!"ss"@.is_suffix_of(l)) by {
        if "ss"@.is_suffix_of(l) {
            let t = l.subrange(n - 2, n);
            assert(t[0] == l[n - 2] && t[1] == l[n - 1]);
            assert("ss"@[0] == 's' && "ss"@[1] == 's');
            if k == 0 {
                assert(l[n - 2] == c.last());
            }
        }
    }
    assert(l.take(c.len() as int) =~= c);
    assert((2 * k) / 2 == k && (2 * k + 1) / 2 == k);
    assert(c + "e"@ =~= c.push('e'));
    assert(c.len() != l.len());
    if c.push('e') == l {
        assert(l.last() == 'e');
        assert(l.last() == e.last());
    }
}

/// From "xs" the word "xe" is nearer to a stem, and "x" is; a word of the same length that ends
/// in anything else is not, and none is to a word that ends in "e" itself.
pub proof fn an_e_is_nearer(stem: Seq<char>, c: Seq<char>, l: Seq<char>)
    ensures
        nearer(stem.push('e'), stem.push('s')),
        nearer(stem, stem.push('s')),
        c.len() == l.len() && 0 < c.len() && c.last() != 'e' ==> !nearer(c, l),
        c.len() == l.len() && 0 < c.len() && l.last() == 'e' ==> !nearer(c, l),
        c.len() > l.len() ==> !nearer(c, l),
{
}

} // verus!
