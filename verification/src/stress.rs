//! The phoneme alphabet and the rules that place stress marks.
//!
//! A stress is counted in half steps: 1 stands for 0.5, 2 for 1.0, -4 for -2.0.

use crate::text::{chars_of, contains_char};
use vstd::prelude::*;
use vstd::string::*;

verus! {

pub const PRIMARY_STRESS: char = 'ˈ';

pub const SECONDARY_STRESS: char = 'ˌ';

/// -2.0: every mark goes.
pub const STRIP: i32 = -4;

/// -1.0: the primary stress becomes secondary and the secondary goes.
pub const DEMOTE: i32 = -2;

/// -0.5: as -1.0, where there is a primary stress.
pub const SOFTEN: i32 = -1;

/// 0.0: as -1.0 where there is a primary stress, and a secondary stress where there is
/// none at all.
pub const LEVEL: i32 = 0;

/// 0.5: a secondary stress where there is none at all.
pub const LIFT: i32 = 1;

/// 2.0: a primary stress.
pub const RAISE: i32 = 4;

pub const DIPHTHONGS: &'static str = "AIOQWYʤʧ";

pub const VOWELS: &'static str = "AIOQWYaiuæɑɒɔəɛɜɪʊʌᵻ";

pub const CONSONANTS: &'static str = "bdfhjklmnpstvwzðŋɡɹɾʃʒʤʧθ";

pub const US_TAUS: &'static str = "AIOWYiuæɑəɛɪɹʊʌ";

pub const SUBTOKEN_JUNKS: &'static str = "',-._‘’/";

pub const PUNCTS: &'static str = ";:,.!?—…\"“”";

pub const QUOTES: &'static str = "\"“”";

/// A vowel of the phoneme alphabet.
pub open spec fn vowel(c: char) -> bool {
    VOWELS@.contains(c)
}

/// One of the two stress marks.
pub open spec fn mark(c: char) -> bool {
    c == PRIMARY_STRESS || c == SECONDARY_STRESS
}

/// Whether any character is a vowel.
pub open spec fn has_vowel(s: Seq<char>) -> bool {
    exists|i: int| 0 <= i < s.len() && vowel(#[trigger] s[i])
}

/// The index of the first vowel, or the length.
pub open spec fn first_vowel(s: Seq<char>) -> nat
    decreases s.len(),
{
    if s.len() == 0 || vowel(s[0]) {
        0
    } else {
        1 + first_vowel(s.skip(1))
    }
}

/// The stress marks of `s`, in order.
pub open spec fn marks(s: Seq<char>) -> Seq<char>
    decreases s.len(),
{
    if s.len() == 0 {
        s
    } else if mark(s.last()) {
        marks(s.drop_last()).push(s.last())
    } else {
        marks(s.drop_last())
    }
}

/// `s` without its stress marks.
pub open spec fn without_marks(s: Seq<char>) -> Seq<char>
    decreases s.len(),
{
    if s.len() == 0 {
        s
    } else if mark(s.last()) {
        without_marks(s.drop_last())
    } else {
        without_marks(s.drop_last()).push(s.last())
    }
}

/// Each stress mark moved to just before the next vowel. Marks with no vowel behind them
/// stay where they are.
pub open spec fn restressed(s: Seq<char>) -> Seq<char>
    decreases s.len(),
{
    let v = first_vowel(s) as int;
    if v >= s.len() {
        s
    } else {
        without_marks(s.take(v)) + marks(s.take(v)) + seq![s[v]] + restressed(s.skip(v + 1))
    }
}

/// One stress mark fewer in strength: the primary becomes secondary, the secondary goes.
pub open spec fn demoted(s: Seq<char>) -> Seq<char>
    decreases s.len(),
{
    if s.len() == 0 {
        s
    } else if s.last() == SECONDARY_STRESS {
        demoted(s.drop_last())
    } else if s.last() == PRIMARY_STRESS {
        demoted(s.drop_last()).push(SECONDARY_STRESS)
    } else {
        demoted(s.drop_last()).push(s.last())
    }
}

/// Every secondary stress made primary.
pub open spec fn promoted(s: Seq<char>) -> Seq<char> {
    s.map_values(
        |c: char|
            if c == SECONDARY_STRESS {
                PRIMARY_STRESS
            } else {
                c
            },
    )
}

/// The phonemes `ps` under a stress.
pub open spec fn stressed(ps: Seq<char>, stress: Option<i32>) -> Seq<char> {
    let primary = ps.contains(PRIMARY_STRESS);
    let secondary = ps.contains(SECONDARY_STRESS);
    match stress {
        None => ps,
        Some(h) => if h < -2 {
            without_marks(ps)
        } else if h == -2 || (-1 <= h <= 0 && primary) {
            demoted(ps)
        } else if 0 <= h <= 2 && !primary && !secondary {
            if has_vowel(ps) {
                restressed(seq![SECONDARY_STRESS] + ps)
            } else {
                ps
            }
        } else if h >= 2 && !primary && secondary {
            promoted(ps)
        } else if h > 2 && !primary && !secondary {
            if has_vowel(ps) {
                restressed(seq![PRIMARY_STRESS] + ps)
            } else {
                ps
            }
        } else {
            ps
        },
    }
}

/// The weight of a phoneme string: two for a diphthong, one for anything else.
pub open spec fn weight(s: Seq<char>) -> nat
    decreases s.len(),
{
    if s.len() == 0 {
        0
    } else {
        weight(s.drop_last()) + (if DIPHTHONGS@.contains(s.last()) {
            2nat
        } else {
            1nat
        })
    }
}

pub fn is_vowel(c: char) -> (r: bool)
    ensures
        r == vowel(c),
{
    contains_char(VOWELS, c)
}

/// Punctuation other than the quotation marks.
pub fn non_quote_punct(c: char) -> (r: bool)
    ensures
        r == (PUNCTS@.contains(c) && !QUOTES@.contains(c)),
{
    contains_char(PUNCTS, c) && !contains_char(QUOTES, c)
}

fn is_mark(c: char) -> (r: bool)
    ensures
        r == mark(c),
{
    c == PRIMARY_STRESS || c == SECONDARY_STRESS
}

/// The first vowel is a vowel, with none before it.
pub proof fn first_vowel_bounds(s: Seq<char>)
    ensures
        0 <= first_vowel(s) <= s.len(),
        first_vowel(s) < s.len() ==> vowel(s[first_vowel(s) as int]),
        forall|k: int| 0 <= k < first_vowel(s) ==> !vowel(#[trigger] s[k]),
        has_vowel(s) <==> first_vowel(s) < s.len(),
    decreases s.len(),
{
    if s.len() > 0 && !vowel(s[0]) {
        first_vowel_bounds(s.skip(1));
        assert forall|k: int| 0 <= k < first_vowel(s) implies !vowel(#[trigger] s[k]) by {
            if k > 0 {
                assert(s[k] == s.skip(1)[k - 1]);
            }
        }
        if has_vowel(s) {
            let i = choose|i: int| 0 <= i < s.len() && vowel(#[trigger] s[i]);
            assert(s.skip(1)[i - 1] == s[i]);
        }
    }
    if first_vowel(s) < s.len() {
        assert(vowel(s[first_vowel(s) as int]));
    }
}

fn any_vowel(s: &Vec<char>) -> (r: bool)
    ensures
        r == has_vowel(s@),
{
    let mut i: usize = 0;
    while i < s.len()
        invariant
            i <= s@.len(),
            forall|k: int| 0 <= k < i ==> !vowel(#[trigger] s@[k]),
        decreases s.len() - i,
    {
        if is_vowel(s[i]) {
            assert(vowel(s@[i as int]));
            return true;
        }
        i = i + 1;
    }
    false
}

fn any_char(s: &Vec<char>, c: char) -> (r: bool)
    ensures
        r == s@.contains(c),
{
    let mut i: usize = 0;
    while i < s.len()
        invariant
            i <= s@.len(),
            forall|k: int| 0 <= k < i ==> s@[k] != c,
        decreases s.len() - i,
    {
        if s[i] == c {
            assert(s@.contains(s@[i as int]));
            return true;
        }
        i = i + 1;
    }
    false
}

/// Moves each stress mark to just before the vowel it belongs to.
fn restress(s: &Vec<char>) -> (r: String)
    ensures
        r@ == restressed(s@),
{
    let mut out = String::new();
    let mut start: usize = 0;
    assert(s@.skip(0) =~= s@);
    assert(Seq::<char>::empty() + restressed(s@) =~= restressed(s@));
    loop
        invariant_except_break
            start <= s@.len(),
            restressed(s@) == out@ + restressed(s@.skip(start as int)),
        ensures
            out@ == restressed(s@),
        decreases s.len() - start,
    {
        let ghost rest = s@.skip(start as int);
        let ghost before = out@;
        proof {
            first_vowel_bounds(rest);
        }
        let mut v: usize = start;
        while v < s.len() && !is_vowel(s[v])
            invariant
                start <= v <= s@.len(),
                rest == s@.skip(start as int),
                first_vowel(rest) == (v - start) + first_vowel(s@.skip(v as int)),
            decreases s.len() - v,
        {
            assert(s@.skip(v as int).skip(1) =~= s@.skip(v + 1));
            v = v + 1;
        }
        let last = v == s.len();
        let ghost piece = s@.subrange(start as int, v as int);
        assert(piece =~= rest.take(v - start));
        let mut i: usize = start;
        while i < v
            invariant
                start <= i <= v <= s@.len(),
                last ==> out@ == before + s@.subrange(start as int, i as int),
                !last ==> out@ == before + without_marks(s@.subrange(start as int, i as int)),
            decreases v - i,
        {
            assert(s@.subrange(start as int, i + 1).drop_last() =~= s@.subrange(
                start as int,
                i as int,
            ));
            if last || !is_mark(s[i]) {
                out.push(s[i]);
                assert(out@ =~= before + (if last {
                    s@.subrange(start as int, i as int).push(s@[i as int])
                } else {
                    without_marks(s@.subrange(start as int, i as int)).push(s@[i as int])
                }));
                assert(s@.subrange(start as int, i as int).push(s@[i as int]) =~= s@.subrange(
                    start as int,
                    i + 1,
                ));
            }
            i = i + 1;
        }
        if last {
            assert(piece =~= rest);
            break;
        }
        let ghost plain = out@;
        i = start;
        while i < v
            invariant
                start <= i <= v <= s@.len(),
                out@ == plain + marks(s@.subrange(start as int, i as int)),
            decreases v - i,
        {
            assert(s@.subrange(start as int, i + 1).drop_last() =~= s@.subrange(
                start as int,
                i as int,
            ));
            if is_mark(s[i]) {
                out.push(s[i]);
                assert(out@ =~= plain + marks(s@.subrange(start as int, i as int)).push(
                    s@[i as int],
                ));
            }
            i = i + 1;
        }
        out.push(s[v]);
        assert(rest.skip(v + 1 - start) =~= s@.skip(v + 1));
        assert(rest[v - start] == s@[v as int]);
        assert(out@ + restressed(s@.skip(v + 1)) =~= before + restressed(rest));
        start = v + 1;
    }
    out
}

/// The phonemes under a stress.
pub fn apply_stress(ps: &str, stress: Option<i32>) -> (r: String)
    ensures
        r@ == stressed(ps@, stress),
{
    let h: i32 = match stress {
        None => {
            return ps.to_owned();
        },
        Some(h) => h,
    };
    let mut chars = chars_of(ps);
    let primary = any_char(&chars, PRIMARY_STRESS);
    let secondary = any_char(&chars, SECONDARY_STRESS);
    if h < -2 {
        return unmarked(&chars);
    }
    if h == -2 || (-1 <= h && h <= 0 && primary) {
        return demote(&chars);
    }
    if 0 <= h && h <= 2 && !primary && !secondary {
        if !any_vowel(&chars) {
            return ps.to_owned();
        }
        chars.insert(0, SECONDARY_STRESS);
        assert(chars@ =~= seq![SECONDARY_STRESS] + ps@);
        return restress(&chars);
    }
    if h >= 2 && !primary && secondary {
        return promote(&chars);
    }
    if h > 2 && !primary && !secondary {
        if !any_vowel(&chars) {
            return ps.to_owned();
        }
        chars.insert(0, PRIMARY_STRESS);
        assert(chars@ =~= seq![PRIMARY_STRESS] + ps@);
        return restress(&chars);
    }
    ps.to_owned()
}

fn unmarked(s: &Vec<char>) -> (r: String)
    ensures
        r@ == without_marks(s@),
{
    let mut out = String::new();
    let mut i: usize = 0;
    while i < s.len()
        invariant
            i <= s@.len(),
            out@ == without_marks(s@.take(i as int)),
        decreases s.len() - i,
    {
        assert(s@.take(i + 1).drop_last() =~= s@.take(i as int));
        if !is_mark(s[i]) {
            out.push(s[i]);
        }
        i = i + 1;
    }
    assert(s@.take(i as int) =~= s@);
    out
}

fn demote(s: &Vec<char>) -> (r: String)
    ensures
        r@ == demoted(s@),
{
    let mut out = String::new();
    let mut i: usize = 0;
    while i < s.len()
        invariant
            i <= s@.len(),
            out@ == demoted(s@.take(i as int)),
        decreases s.len() - i,
    {
        assert(s@.take(i + 1).drop_last() =~= s@.take(i as int));
        let c: char = s[i];
        if c == PRIMARY_STRESS {
            out.push(SECONDARY_STRESS);
        } else if c != SECONDARY_STRESS {
            out.push(c);
        }
        i = i + 1;
    }
    assert(s@.take(i as int) =~= s@);
    out
}

fn promote(s: &Vec<char>) -> (r: String)
    ensures
        r@ == promoted(s@),
{
    let mut out = String::new();
    let mut i: usize = 0;
    while i < s.len()
        invariant
            i <= s@.len(),
            out@ == promoted(s@.take(i as int)),
        decreases s.len() - i,
    {
        let c: char = s[i];
        if c == SECONDARY_STRESS {
            out.push(PRIMARY_STRESS);
        } else {
            out.push(c);
        }
        i = i + 1;
        assert(out@ =~= promoted(s@.take(i as int)));
    }
    assert(s@.take(i as int) =~= s@);
    out
}

/// The weight of a phoneme string.
pub fn stress_weight(ps: &str) -> (r: usize)
    requires
        weight(ps@) <= usize::MAX,
    ensures
        r == weight(ps@),
{
    let s = chars_of(ps);
    let mut w: usize = 0;
    let mut i: usize = 0;
    while i < s.len()
        invariant
            i <= s@.len(),
            w == weight(s@.take(i as int)),
            weight(s@) <= usize::MAX,
        decreases s.len() - i,
    {
        proof {
            weight_grows(s@, i + 1);
            assert(s@.take(i + 1).drop_last() =~= s@.take(i as int));
        }
        if contains_char(DIPHTHONGS, s[i]) {
            w = w + 2;
        } else {
            w = w + 1;
        }
        i = i + 1;
    }
    assert(s@.take(i as int) =~= s@);
    w
}

proof fn weight_grows(s: Seq<char>, n: int)
    requires
        0 <= n <= s.len(),
    ensures
        weight(s.take(n)) <= weight(s),
    decreases s.len() - n,
{
    if n < s.len() {
        weight_grows(s, n + 1);
        assert(s.take(n + 1).drop_last() =~= s.take(n));
    } else {
        assert(s.take(n) =~= s);
    }
}

} // verus!
