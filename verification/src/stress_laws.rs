//! What the stress rules keep, for every phoneme string.

use crate::stress::{
    demoted, first_vowel, first_vowel_bounds, has_vowel, mark, marks, promoted, restressed, stressed,
    vowel, without_marks, LEVEL, PRIMARY_STRESS, SECONDARY_STRESS, SOFTEN, VOWELS,
};
use vstd::prelude::*;

verus! {

broadcast use vstd::multiset::group_multiset_axioms;

/// A vowel is never a stress mark.
pub proof fn vowels_are_not_marks(c: char)
    requires
        vowel(c),
    ensures
        !mark(c),
{
    reveal_strlit("AIOQWYaiuæɑɒɔəɛɜɪʊʌᵻ");
    if mark(c) {
        let i = choose|i: int| 0 <= i < VOWELS@.len() && VOWELS@[i] == c;
        assert(VOWELS@.len() == 20);
        assert(VOWELS@[i] != PRIMARY_STRESS && VOWELS@[i] != SECONDARY_STRESS);
    }
}

proof fn marks_of_sum(a: Seq<char>, b: Seq<char>)
    ensures
        marks(a + b) == marks(a) + marks(b),
        without_marks(a + b) == without_marks(a) + without_marks(b),
    decreases b.len(),
{
    if b.len() == 0 {
        assert(a + b =~= a);
        assert(marks(a) + marks(b) =~= marks(a));
        assert(without_marks(a) + without_marks(b) =~= without_marks(a));
    } else {
        marks_of_sum(a, b.drop_last());
        assert((a + b).drop_last() =~= a + b.drop_last());
        assert(marks(a + b) =~= marks(a) + marks(b));
        assert(without_marks(a + b) =~= without_marks(a) + without_marks(b));
    }
}

/// Both parts of a split by marks are pure.
proof fn marks_are_pure(s: Seq<char>)
    ensures
        marks(marks(s)) == marks(s),
        without_marks(marks(s)) == Seq::<char>::empty(),
        marks(without_marks(s)) == Seq::<char>::empty(),
        without_marks(without_marks(s)) == without_marks(s),
        forall|i: int| 0 <= i < marks(s).len() ==> mark(#[trigger] marks(s)[i]),
        forall|i: int|
            0 <= i < without_marks(s).len() ==> !mark(#[trigger] without_marks(s)[i]),
        forall|i: int|
            0 <= i < without_marks(s).len() ==> s.contains(#[trigger] without_marks(s)[i]),
        marks(s).len() + without_marks(s).len() == s.len(),
    decreases s.len(),
{
    if s.len() > 0 {
        let t = s.drop_last();
        marks_are_pure(t);
        assert forall|i: int| 0 <= i < without_marks(s).len() implies s.contains(
            #[trigger] without_marks(s)[i],
        ) by {
            if i < without_marks(t).len() {
                assert(without_marks(s)[i] == without_marks(t)[i]);
                let k = choose|k: int| 0 <= k < t.len() && t[k] == without_marks(t)[i];
                assert(s[k] == t[k]);
            } else {
                assert(s[s.len() - 1] == s.last());
            }
        }
        if mark(s.last()) {
            assert(marks(s).drop_last() =~= marks(t));
        } else {
            assert(without_marks(s).drop_last() =~= without_marks(t));
        }
    }
}

proof fn cut_at_vowel(s: Seq<char>)
    requires
        first_vowel(s) < s.len(),
    ensures
        ({
            let v = first_vowel(s) as int;
            s == s.take(v) + seq![s[v]] + s.skip(v + 1)
        }),
{
    let v = first_vowel(s) as int;
    assert(s =~= s.take(v) + seq![s[v]] + s.skip(v + 1));
}

proof fn one_vowel(c: char)
    requires
        vowel(c),
    ensures
        marks(seq![c]) == Seq::<char>::empty(),
        without_marks(seq![c]) == seq![c],
{
    vowels_are_not_marks(c);
    assert(seq![c].drop_last() =~= Seq::<char>::empty());
    assert(marks(Seq::<char>::empty()) =~= Seq::<char>::empty());
    assert(without_marks(Seq::<char>::empty()) =~= Seq::<char>::empty());
    assert(without_marks(seq![c]) =~= seq![c]);
}

/// Moving the marks changes no phoneme and no order of phonemes, and keeps the marks in
/// their order.
pub proof fn restress_keeps_phonemes(s: Seq<char>)
    ensures
        without_marks(restressed(s)) == without_marks(s),
        marks(restressed(s)) == marks(s),
        restressed(s).len() == s.len(),
    decreases s.len(),
{
    first_vowel_bounds(s);
    let v = first_vowel(s) as int;
    if v < s.len() {
        let t = s.take(v);
        let c = seq![s[v]];
        let rest = s.skip(v + 1);
        restress_keeps_phonemes(rest);
        cut_at_vowel(s);
        one_vowel(s[v]);
        marks_are_pure(t);
        marks_of_sum(t, c);
        marks_of_sum(t + c, rest);
        let a = without_marks(t) + marks(t);
        marks_of_sum(without_marks(t), marks(t));
        marks_of_sum(a, c);
        marks_of_sum(a + c, restressed(rest));
        assert(without_marks(restressed(s)) =~= without_marks(s));
        assert(marks(restressed(s)) =~= marks(s));
    }
}

/// Moving the marks keeps every character: the result is a rearrangement.
pub proof fn restress_rearranges(s: Seq<char>)
    ensures
        restressed(s).to_multiset() == s.to_multiset(),
    decreases s.len(),
{
    broadcast use vstd::seq_lib::group_to_multiset_ensures;

    first_vowel_bounds(s);
    let v = first_vowel(s) as int;
    if v < s.len() {
        let t = s.take(v);
        let c = seq![s[v]];
        let rest = s.skip(v + 1);
        restress_rearranges(rest);
        cut_at_vowel(s);
        split_rearranges(t);
        let a = without_marks(t) + marks(t);
        vstd::seq_lib::lemma_multiset_commutative(without_marks(t), marks(t));
        vstd::seq_lib::lemma_multiset_commutative(a, c);
        vstd::seq_lib::lemma_multiset_commutative(a + c, restressed(rest));
        vstd::seq_lib::lemma_multiset_commutative(t, c);
        vstd::seq_lib::lemma_multiset_commutative(t + c, rest);
    }
}

proof fn split_rearranges(s: Seq<char>)
    ensures
        (without_marks(s) + marks(s)).to_multiset() == s.to_multiset(),
    decreases s.len(),
{
    broadcast use vstd::seq_lib::group_to_multiset_ensures;

    if s.len() == 0 {
        assert(without_marks(s) + marks(s) =~= s);
    } else {
        let t = s.drop_last();
        split_rearranges(t);
        vstd::seq_lib::lemma_multiset_commutative(without_marks(t), marks(t));
        vstd::seq_lib::lemma_multiset_commutative(without_marks(s), marks(s));
        assert(s =~= t.push(s.last()));
        assert((without_marks(s) + marks(s)).to_multiset() =~= s.to_multiset());
    }
}

proof fn first_vowel_behind(a: Seq<char>, c: char, rest: Seq<char>)
    requires
        forall|i: int| 0 <= i < a.len() ==> !vowel(#[trigger] a[i]),
        vowel(c),
    ensures
        first_vowel(a + seq![c] + rest) == a.len(),
    decreases a.len(),
{
    let s = a + seq![c] + rest;
    if a.len() > 0 {
        assert(s[0] == a[0]);
        assert forall|i: int| 0 <= i < a.skip(1).len() implies !vowel(#[trigger] a.skip(1)[i]) by {
            assert(a.skip(1)[i] == a[i + 1]);
        }
        first_vowel_behind(a.skip(1), c, rest);
        assert(s.skip(1) =~= a.skip(1) + seq![c] + rest);
    } else {
        assert(s[0] == c);
    }
}

/// Once the marks have moved they stay: a second pass changes nothing.
pub proof fn restress_settles(s: Seq<char>)
    ensures
        restressed(restressed(s)) == restressed(s),
    decreases s.len(),
{
    first_vowel_bounds(s);
    let v = first_vowel(s) as int;
    if v < s.len() {
        let t = s.take(v);
        let rest = s.skip(v + 1);
        restress_settles(rest);
        marks_are_pure(t);
        let a = without_marks(t) + marks(t);
        assert forall|i: int| 0 <= i < a.len() implies !vowel(#[trigger] a[i]) by {
            if i < without_marks(t).len() {
                assert(t.contains(without_marks(t)[i]));
                let k = choose|k: int| 0 <= k < t.len() && t[k] == without_marks(t)[i];
                assert(t[k] == s[k]);
            } else {
                assert(mark(marks(t)[i - without_marks(t).len()]));
                if vowel(a[i]) {
                    vowels_are_not_marks(a[i]);
                }
            }
        }
        let r = restressed(s);
        assert(r =~= a + seq![s[v]] + restressed(rest));
        first_vowel_behind(a, s[v], restressed(rest));
        assert(r.take(v) =~= a);
        assert(r.skip(v + 1) =~= restressed(rest));
        marks_of_sum(without_marks(t), marks(t));
        assert(without_marks(a) =~= without_marks(t));
        assert(marks(a) =~= marks(t));
        assert(r[v] == s[v]);
        assert(restressed(r) =~= r);
    }
}

/// After the marks have moved, a mark with a vowel anywhere behind it stands right before
/// a vowel, or before another such mark.
pub proof fn restressed_marks_precede_vowels(s: Seq<char>, i: int, j: int)
    requires
        0 <= i < j < s.len(),
        mark(restressed(s)[i]),
        vowel(restressed(s)[j]),
    ensures
        mark(restressed(s)[i + 1]) || vowel(restressed(s)[i + 1]),
    decreases s.len(),
{
    restress_keeps_phonemes(s);
    first_vowel_bounds(s);
    let v = first_vowel(s) as int;
    let r = restressed(s);
    if v < s.len() {
        let t = s.take(v);
        let rest = s.skip(v + 1);
        marks_are_pure(t);
        restress_keeps_phonemes(rest);
        let n = without_marks(t).len() as int;
        if i < n {
            assert(r[i] == without_marks(t)[i]);
        } else if i < v {
            if i + 1 < v {
                assert(r[i + 1] == marks(t)[i + 1 - n]);
            } else {
                assert(r[i + 1] == s[v]);
            }
        } else if i == v {
            vowels_are_not_marks(s[v]);
        } else {
            assert(r[i] == restressed(rest)[i - v - 1]);
            assert(r[j] == restressed(rest)[j - v - 1]);
            restressed_marks_precede_vowels(rest, i - v - 1, j - v - 1);
            assert(r[i + 1] == restressed(rest)[i + 1 - v - 1]);
        }
    } else {
        assert(vowel(s[j]));
    }
}

proof fn demote_keeps_phonemes(s: Seq<char>)
    ensures
        without_marks(demoted(s)) == without_marks(s),
        !demoted(s).contains(PRIMARY_STRESS),
    decreases s.len(),
{
    if s.len() > 0 {
        demote_keeps_phonemes(s.drop_last());
        let d = demoted(s.drop_last());
        if s.last() != SECONDARY_STRESS {
            assert(demoted(s).drop_last() =~= d);
            assert forall|i: int| 0 <= i < demoted(s).len() implies demoted(s)[i]
                != PRIMARY_STRESS by {
                if i < d.len() {
                    assert(demoted(s)[i] == d[i]);
                }
            }
        }
    }
}

proof fn promote_keeps_phonemes(s: Seq<char>)
    ensures
        without_marks(promoted(s)) == without_marks(s),
    decreases s.len(),
{
    if s.len() > 0 {
        promote_keeps_phonemes(s.drop_last());
        assert(promoted(s).drop_last() =~= promoted(s.drop_last()));
    }
}

/// A stress moves, adds, changes or removes marks. It never touches a phoneme.
pub proof fn stress_keeps_phonemes(ps: Seq<char>, stress: Option<i32>)
    ensures
        without_marks(stressed(ps, stress)) == without_marks(ps),
{
    demote_keeps_phonemes(ps);
    promote_keeps_phonemes(ps);
    marks_are_pure(ps);
    let one = seq![SECONDARY_STRESS];
    let two = seq![PRIMARY_STRESS];
    restress_keeps_phonemes(one + ps);
    restress_keeps_phonemes(two + ps);
    marks_of_sum(one, ps);
    marks_of_sum(two, ps);
    assert(one.drop_last() =~= Seq::<char>::empty());
    assert(two.drop_last() =~= Seq::<char>::empty());
    assert(without_marks(Seq::<char>::empty()) =~= Seq::<char>::empty());
    assert(mark(one.last()) && mark(two.last()));
    assert(without_marks(one) =~= Seq::<char>::empty());
    assert(without_marks(two) =~= Seq::<char>::empty());
    assert(without_marks(one + ps) =~= without_marks(ps));
    assert(without_marks(two + ps) =~= without_marks(ps));
}

/// A stress below -1.0 leaves no mark at all.
pub proof fn strong_demotion_leaves_no_mark(ps: Seq<char>, h: i32, i: int)
    requires
        h < -2,
        0 <= i < stressed(ps, Some(h)).len(),
    ensures
        !mark(stressed(ps, Some(h))[i]),
{
    marks_are_pure(ps);
}

proof fn marks_are_found(s: Seq<char>, c: char)
    requires
        mark(c),
    ensures
        marks(s).contains(c) == s.contains(c),
    decreases s.len(),
{
    if s.len() > 0 {
        let t = s.drop_last();
        marks_are_found(t, c);
        if s.contains(c) {
            let k = choose|k: int| 0 <= k < s.len() && s[k] == c;
            if k < t.len() {
                assert(t[k] == c);
                let j = choose|j: int| 0 <= j < marks(t).len() && marks(t)[j] == c;
                assert(marks(s)[j] == c);
            } else {
                assert(marks(s)[marks(s).len() - 1] == c);
            }
        }
        if marks(s).contains(c) {
            let j = choose|j: int| 0 <= j < marks(s).len() && marks(s)[j] == c;
            if j < marks(t).len() {
                assert(marks(t)[j] == c);
                let k = choose|k: int| 0 <= k < t.len() && t[k] == c;
                assert(s[k] == c);
            } else {
                assert(s[s.len() - 1] == c);
            }
        }
    }
}

proof fn demotion_leaves_secondary(s: Seq<char>)
    requires
        s.contains(PRIMARY_STRESS),
    ensures
        demoted(s).contains(SECONDARY_STRESS),
    decreases s.len(),
{
    let t = s.drop_last();
    let d = demoted(s);
    if s.last() == PRIMARY_STRESS {
        assert(d[d.len() - 1] == SECONDARY_STRESS);
    } else {
        let k = choose|k: int| 0 <= k < s.len() && s[k] == PRIMARY_STRESS;
        assert(t[k] == PRIMARY_STRESS);
        demotion_leaves_secondary(t);
        let j = choose|j: int| 0 <= j < demoted(t).len() && demoted(t)[j] == SECONDARY_STRESS;
        assert(d[j] == SECONDARY_STRESS);
    }
}

proof fn one_more_mark(ps: Seq<char>)
    requires
        !ps.contains(PRIMARY_STRESS),
    ensures
        !restressed(seq![SECONDARY_STRESS] + ps).contains(PRIMARY_STRESS),
        restressed(seq![SECONDARY_STRESS] + ps).contains(SECONDARY_STRESS),
{
    let s = seq![SECONDARY_STRESS] + ps;
    restress_keeps_phonemes(s);
    marks_are_found(s, PRIMARY_STRESS);
    marks_are_found(s, SECONDARY_STRESS);
    marks_are_found(restressed(s), PRIMARY_STRESS);
    marks_are_found(restressed(s), SECONDARY_STRESS);
    assert(s[0] == SECONDARY_STRESS);
    if s.contains(PRIMARY_STRESS) {
        let k = choose|k: int| 0 <= k < s.len() && s[k] == PRIMARY_STRESS;
        assert(ps[k - 1] == PRIMARY_STRESS);
    }
}

/// A stress of 0.0 or below leaves no primary stress, whatever was there: stripping, demoting,
/// softening and levelling all do.
pub proof fn demotion_leaves_no_primary(ps: Seq<char>, h: i32)
    requires
        h <= 0,
    ensures
        !stressed(ps, Some(h)).contains(PRIMARY_STRESS),
{
    demote_keeps_phonemes(ps);
    marks_are_pure(ps);
    if !ps.contains(PRIMARY_STRESS) {
        one_more_mark(ps);
    }
    if h < -2 && without_marks(ps).contains(PRIMARY_STRESS) {
        let k = choose|k: int|
            0 <= k < without_marks(ps).len() && without_marks(ps)[k] == PRIMARY_STRESS;
        assert(!mark(without_marks(ps)[k]));
    }
}

/// Softening changes nothing where there is no primary stress.
pub proof fn softening_spares_the_rest(ps: Seq<char>)
    requires
        !ps.contains(PRIMARY_STRESS),
    ensures
        stressed(ps, Some(SOFTEN)) == ps,
{
}

/// Levelling leaves a secondary stress wherever a stress was, or a vowel could carry one.
pub proof fn levelling_leaves_secondary(ps: Seq<char>)
    requires
        ps.contains(PRIMARY_STRESS) || ps.contains(SECONDARY_STRESS) || has_vowel(ps),
    ensures
        stressed(ps, Some(LEVEL)).contains(SECONDARY_STRESS),
{
    if ps.contains(PRIMARY_STRESS) {
        demotion_leaves_secondary(ps);
    } else {
        one_more_mark(ps);
    }
}

/// A text without marks has nothing to move.
proof fn unmarked_stays(s: Seq<char>)
    requires
        forall|i: int| 0 <= i < s.len() ==> !mark(#[trigger] s[i]),
    ensures
        marks(s) == Seq::<char>::empty(),
        without_marks(s) == s,
    decreases s.len(),
{
    if s.len() > 0 {
        let t = s.drop_last();
        assert forall|i: int| 0 <= i < t.len() implies !mark(#[trigger] t[i]) by {
            assert(t[i] == s[i]);
        }
        unmarked_stays(t);
        assert(!mark(s[s.len() - 1]));
        assert(without_marks(s) =~= s);
    } else {
        assert(marks(s) =~= Seq::<char>::empty());
    }
}

proof fn unmarked_is_not_moved(s: Seq<char>)
    requires
        forall|i: int| 0 <= i < s.len() ==> !mark(#[trigger] s[i]),
    ensures
        restressed(s) == s,
    decreases s.len(),
{
    first_vowel_bounds(s);
    let v = first_vowel(s) as int;
    if v < s.len() {
        let t = s.take(v);
        let rest = s.skip(v + 1);
        assert forall|i: int| 0 <= i < t.len() implies !mark(#[trigger] t[i]) by {
            assert(t[i] == s[i]);
        }
        assert forall|i: int| 0 <= i < rest.len() implies !mark(#[trigger] rest[i]) by {
            assert(rest[i] == s[i + v + 1]);
        }
        unmarked_stays(t);
        unmarked_is_not_moved(rest);
        cut_at_vowel(s);
        assert(restressed(s) =~= s);
    }
}

/// The first vowel is at `k`: a vowel, with none before it.
pub open spec fn first_vowel_at(ps: Seq<char>, k: int) -> bool {
    0 <= k < ps.len() && vowel(ps[k]) && forall|j: int| 0 <= j < k ==> !vowel(#[trigger] ps[j])
}

proof fn first_vowel_is(s: Seq<char>, k: int)
    requires
        first_vowel_at(s, k),
    ensures
        first_vowel(s) == k,
{
    first_vowel_bounds(s);
    if first_vowel(s) < k {
        assert(!vowel(s[first_vowel(s) as int]));
    }
    if first_vowel(s) > k {
        assert(vowel(s[k]));
    }
}

/// One mark in front of a text without marks goes to its first vowel.
proof fn mark_goes_to_the_vowel(m: char, ps: Seq<char>, k: int)
    requires
        mark(m),
        forall|i: int| 0 <= i < ps.len() ==> !mark(#[trigger] ps[i]),
        first_vowel_at(ps, k),
    ensures
        restressed(seq![m] + ps) == ps.insert(k, m),
{
    let s = seq![m] + ps;
    let v = k + 1;
    assert(s[v] == ps[k]);
    if vowel(m) {
        vowels_are_not_marks(m);
    }
    assert forall|j: int| 0 <= j < v implies !vowel(#[trigger] s[j]) by {
        if j > 0 {
            assert(s[j] == ps[j - 1]);
        } else {
            assert(s[j] == m);
        }
    }
    first_vowel_is(s, v);
    let t = ps.take(k);
    assert forall|i: int| 0 <= i < t.len() implies !mark(#[trigger] t[i]) by {
        assert(t[i] == ps[i]);
    }
    unmarked_stays(t);
    assert(s.take(v) =~= seq![m] + t);
    marks_of_sum(seq![m], t);
    assert(seq![m].drop_last() =~= Seq::<char>::empty());
    assert(marks(Seq::<char>::empty()) =~= Seq::<char>::empty());
    assert(without_marks(Seq::<char>::empty()) =~= Seq::<char>::empty());
    assert(marks(seq![m]) =~= seq![m]);
    assert(without_marks(seq![m]) =~= Seq::<char>::empty());
    assert(marks(s.take(v)) =~= seq![m]);
    assert(without_marks(s.take(v)) =~= t);
    let rest = ps.skip(k + 1);
    assert(s.skip(v + 1) =~= rest);
    assert forall|i: int| 0 <= i < rest.len() implies !mark(#[trigger] rest[i]) by {
        assert(rest[i] == ps[i + k + 1]);
    }
    unmarked_is_not_moved(rest);
    assert(restressed(s) =~= ps.insert(k, m));
}

/// Neither stress mark occurs.
pub open spec fn unmarked(ps: Seq<char>) -> bool {
    !ps.contains('ˈ') && !ps.contains('ˌ')
}

proof fn unmarked_has_no_mark(ps: Seq<char>)
    requires
        unmarked(ps),
    ensures
        forall|i: int| 0 <= i < ps.len() ==> !mark(#[trigger] ps[i]),
{
    assert forall|i: int| 0 <= i < ps.len() implies !mark(#[trigger] ps[i]) by {
        assert(ps.contains(ps[i]));
    }
}

/// A word without a mark gains exactly one, right before its first vowel: the secondary from
/// 0.0 to 1.0, the primary above. Below 0.0 it stays as it is.
pub proof fn bare_words_gain_one_mark(ps: Seq<char>, h: i32, k: int)
    requires
        unmarked(ps),
        first_vowel_at(ps, k),
    ensures
        0 <= h <= 2 ==> stressed(ps, Some(h)) == ps.insert(k, 'ˌ'),
        h > 2 ==> stressed(ps, Some(h)) == ps.insert(k, 'ˈ'),
        h < 0 ==> stressed(ps, Some(h)) == ps,
{
    unmarked_has_no_mark(ps);
    unmarked_stays(ps);
    assert(has_vowel(ps)) by {
        assert(vowel(ps[k]));
    }
    mark_goes_to_the_vowel('ˌ', ps, k);
    mark_goes_to_the_vowel('ˈ', ps, k);
    if h == -2 {
        nothing_to_demote(ps);
    }
}

proof fn nothing_to_demote(ps: Seq<char>)
    requires
        unmarked(ps),
    ensures
        demoted(ps) == ps,
    decreases ps.len(),
{
    if ps.len() > 0 {
        let t = ps.drop_last();
        assert(ps.contains(ps[ps.len() - 1]));
        if t.contains('ˈ') {
            let i = choose|i: int| 0 <= i < t.len() && t[i] == 'ˈ';
            assert(ps[i] == 'ˈ');
        }
        if t.contains('ˌ') {
            let i = choose|i: int| 0 <= i < t.len() && t[i] == 'ˌ';
            assert(ps[i] == 'ˌ');
        }
        nothing_to_demote(t);
        assert(demoted(ps) =~= ps);
    }
}

/// A word with neither mark nor vowel has nothing to carry a stress, and no stress changes it.
pub proof fn words_without_vowels_stay(ps: Seq<char>, stress: Option<i32>)
    requires
        unmarked(ps),
        forall|i: int| 0 <= i < ps.len() ==> !vowel(#[trigger] ps[i]),
    ensures
        stressed(ps, stress) == ps,
{
    unmarked_has_no_mark(ps);
    unmarked_stays(ps);
    nothing_to_demote(ps);
}

/// A stress above 0.0 never weakens a word: one with a primary stress stays as it is.
pub proof fn primary_stress_is_kept(ps: Seq<char>, h: i32)
    requires
        ps.contains('ˈ'),
        h > 0,
    ensures
        stressed(ps, Some(h)) == ps,
{
}

/// A word with secondary marks alone stays as it is from -0.5 to 0.5; from 1.0 on each of them
/// becomes primary where it stands, and nothing else changes.
pub proof fn secondary_stress_is_raised(ps: Seq<char>, h: i32)
    requires
        !ps.contains('ˈ'),
        ps.contains('ˌ'),
    ensures
        -1 <= h <= 1 ==> stressed(ps, Some(h)) == ps,
        h >= 2 ==> stressed(ps, Some(h)).len() == ps.len(),
        h >= 2 ==> forall|i: int|
            0 <= i < ps.len() ==> #[trigger] stressed(ps, Some(h))[i] == (if ps[i] == 'ˌ' {
                'ˈ'
            } else {
                ps[i]
            }),
{
}

proof fn demoted_is_filtered(ps: Seq<char>)
    ensures
        demoted(ps).map_values(
            |c: char|
                if c == 'ˌ' {
                    'ˈ'
                } else {
                    c
                },
        ) == ps.filter(|c: char| c != 'ˌ'),
    decreases ps.len(),
{
    reveal(Seq::filter);
    let back = |c: char|
        if c == 'ˌ' {
            'ˈ'
        } else {
            c
        };
    if ps.len() > 0 {
        let t = ps.drop_last();
        demoted_is_filtered(t);
        if ps.last() == 'ˌ' {
            assert(demoted(ps) == demoted(t));
        } else if ps.last() == 'ˈ' {
            assert(demoted(ps).map_values(back) =~= demoted(t).map_values(back).push('ˈ'));
        } else {
            assert(demoted(ps).map_values(back) =~= demoted(t).map_values(back).push(ps.last()));
        }
    } else {
        assert(demoted(ps).map_values(back) =~= ps.filter(|c: char| c != 'ˌ'));
    }
}

proof fn without_marks_is_filtered(ps: Seq<char>)
    ensures
        without_marks(ps) == ps.filter(|c: char| c != 'ˈ' && c != 'ˌ'),
    decreases ps.len(),
{
    reveal(Seq::filter);
    if ps.len() > 0 {
        without_marks_is_filtered(ps.drop_last());
    }
}

/// Demoting takes the secondary marks away and makes the primary ones secondary: raised again,
/// what is left is the word without its secondary marks. It happens at -1.0, and at -0.5 and 0.0
/// where there is a primary stress.
pub proof fn demotion_is_one_step_down(ps: Seq<char>, h: i32)
    requires
        h == -2 || (-1 <= h <= 0 && ps.contains('ˈ')),
    ensures
        !stressed(ps, Some(h)).contains('ˈ'),
        stressed(ps, Some(h)).map_values(
            |c: char|
                if c == 'ˌ' {
                    'ˈ'
                } else {
                    c
                },
        ) == ps.filter(|c: char| c != 'ˌ'),
{
    demote_keeps_phonemes(ps);
    demoted_is_filtered(ps);
}

/// Below -1.0 the marks go and nothing else does.
pub proof fn stripping_takes_the_marks_alone(ps: Seq<char>, h: i32)
    requires
        h < -2,
    ensures
        stressed(ps, Some(h)) == ps.filter(|c: char| c != 'ˈ' && c != 'ˌ'),
{
    without_marks_is_filtered(ps);
}

} // verus!
