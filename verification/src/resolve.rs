//! Stress within one written word: when several parts carry primary stress, the lighter half
//! is demoted, so that "co-worker" is not two stressed words.

use crate::g2p::plain_punct;
use crate::mtoken::{mtokens, span_text, spanned, MToken, MTokenView};
use crate::stress::{
    apply_stress, non_quote_punct, stressed, weight, DIPHTHONGS, PRIMARY_STRESS, SOFTEN,
    SUBTOKEN_JUNKS,
};
use crate::text::{chars_of, contains_char, is_digit};
use crate::unicode::{alphabetic, is_alphabetic};
use vstd::prelude::*;
use vstd::string::*;

verus! {

/// A character between sub-tokens that has no sound.
pub open spec fn junk(c: char) -> bool {
    SUBTOKEN_JUNKS@.contains(c)
}

/// A text of junk, with at least one character.
pub open spec fn junk_text(s: Seq<char>) -> bool {
    s.len() > 0 && forall|i: int| 0 <= i < s.len() ==> junk(#[trigger] s[i])
}

/// A letter, a digit, or anything else.
pub open spec fn char_class(c: char) -> int {
    if alphabetic(c) {
        0
    } else if is_digit(c) {
        1
    } else {
        2
    }
}

/// Whether two characters that are no junk are of different classes.
pub open spec fn mixed(s: Seq<char>) -> bool {
    exists|i: int, j: int|
        0 <= i < s.len() && 0 <= j < s.len() && !junk(#[trigger] s[i]) && !junk(#[trigger] s[j])
            && char_class(s[i]) != char_class(s[j])
}

/// Whether the parts of a text are spoken with spaces between them.
pub open spec fn spoken_apart(s: Seq<char>) -> bool {
    s.contains(' ') || s.contains('/') || mixed(s)
}

/// A part of a word with silent junk and closing punctuation settled, and the space before a
/// part with a sound.
pub open spec fn tidied(group: Seq<MTokenView>, i: int, apart: bool) -> MTokenView {
    let t = group[i];
    if t.phonemes is None {
        if i == group.len() - 1 && t.text.len() == 1 && plain_punct(t.text[0]) {
            MTokenView { phonemes: Some(t.text), rating: Some(3u8), ..t }
        } else if junk_text(t.text) {
            MTokenView { phonemes: Some(Seq::empty()), rating: Some(3u8), ..t }
        } else {
            t
        }
    } else if i > 0 {
        MTokenView { prespace: apart, ..t }
    } else {
        t
    }
}

/// All parts of a word so settled.
pub open spec fn tidy(group: Seq<MTokenView>, apart: bool) -> Seq<MTokenView> {
    Seq::new(group.len(), |i: int| tidied(group, i, apart))
}

/// A part with a sound.
pub open spec fn voiced(t: MTokenView) -> bool {
    t.phonemes is Some && t.phonemes.unwrap().len() > 0
}

/// A part with primary stress.
pub open spec fn accented(t: MTokenView) -> bool {
    voiced(t) && t.phonemes.unwrap().contains(PRIMARY_STRESS)
}

/// How many of the first `n` parts have a sound.
pub open spec fn voiced_count(group: Seq<MTokenView>, n: int) -> nat
    decreases n,
{
    if n <= 0 {
        0
    } else {
        voiced_count(group, n - 1) + (if voiced(group[n - 1]) {
            1nat
        } else {
            0nat
        })
    }
}

/// How many of the first `n` parts have primary stress.
pub open spec fn accented_count(group: Seq<MTokenView>, n: int) -> nat
    decreases n,
{
    if n <= 0 {
        0
    } else {
        accented_count(group, n - 1) + (if accented(group[n - 1]) {
            1nat
        } else {
            0nat
        })
    }
}

/// The first part with a sound, from number `i` on, or the number of parts.
pub open spec fn first_voiced(group: Seq<MTokenView>, i: int) -> int
    decreases group.len() - i,
{
    if i >= group.len() {
        group.len() as int
    } else if voiced(group[i]) {
        i
    } else {
        first_voiced(group, i + 1)
    }
}

/// Whether part `a` is lighter than part `b`: unstressed before stressed, then by weight, then
/// from left to right.
pub open spec fn lighter(group: Seq<MTokenView>, a: int, b: int) -> bool {
    let x = weight(group[a].phonemes.unwrap());
    let y = weight(group[b].phonemes.unwrap());
    if accented(group[a]) != accented(group[b]) {
        accented(group[b])
    } else if x != y {
        x < y
    } else {
        a < b
    }
}

/// How many of the first `n` parts have a sound and are lighter than part `b`.
pub open spec fn lighter_count(group: Seq<MTokenView>, b: int, n: int) -> nat
    decreases n,
{
    if n <= 0 {
        0
    } else {
        lighter_count(group, b, n - 1) + (if voiced(group[n - 1]) && lighter(group, n - 1, b) {
            1nat
        } else {
            0nat
        })
    }
}

/// A part with its stress softened.
pub open spec fn softened(t: MTokenView) -> MTokenView {
    MTokenView { phonemes: Some(stressed(t.phonemes.unwrap(), Some(SOFTEN))), ..t }
}

/// The parts of a word with the stress of the lighter half softened.
pub open spec fn balanced(group: Seq<MTokenView>) -> Seq<MTokenView> {
    let n = group.len() as int;
    let sounds = voiced_count(group, n) as int;
    let first = first_voiced(group, 0);
    let second = first_voiced(group, first + 1);
    if sounds == 2 && group[first].text.len() == 1 {
        group.update(second, softened(group[second]))
    } else if sounds < 2 || accented_count(group, n) <= sounds - sounds / 2 {
        group
    } else {
        Seq::new(
            group.len(),
            |i: int|
                if voiced(group[i]) && lighter_count(group, i, n) < sounds / 2 {
                    softened(group[i])
                } else {
                    group[i]
                },
        )
    }
}

/// The parts of a word with their stress settled.
#[verifier::opaque]
pub open spec fn resolved_stress(group: Seq<MTokenView>) -> Seq<MTokenView> {
    let apart = spoken_apart(spanned(group));
    if apart {
        tidy(group, apart)
    } else {
        balanced(tidy(group, apart))
    }
}

/// Whether a text consists of junk, with at least one character.
pub fn only_junk(text: &str) -> (r: bool)
    ensures
        r == junk_text(text@),
{
    let c = chars_of(text);
    let mut i: usize = 0;
    while i < c.len()
        invariant
            i <= c@.len(),
            c@ == text@,
            forall|k: int| 0 <= k < i ==> junk(#[trigger] text@[k]),
        decreases c.len() - i,
    {
        if !contains_char(SUBTOKEN_JUNKS, c[i]) {
            assert(!junk(text@[i as int]));
            return false;
        }
        i = i + 1;
    }
    c.len() > 0
}

fn class_of(c: char) -> (r: u8)
    ensures
        r == char_class(c),
{
    if is_alphabetic(c) {
        0
    } else if '0' as u32 <= c as u32 && c as u32 <= '9' as u32 {
        1
    } else {
        2
    }
}

fn is_mixed(text: &str) -> (r: bool)
    ensures
        r == mixed(text@),
{
    let c = chars_of(text);
    let mut seen: Option<u8> = None;
    let ghost mut at: int = 0;
    let mut i: usize = 0;
    while i < c.len()
        invariant
            i <= c@.len(),
            c@ == text@,
            match seen {
                None => forall|k: int| 0 <= k < i ==> junk(#[trigger] c@[k]),
                Some(v) => 0 <= at < i && !junk(c@[at]) && char_class(c@[at]) == v && forall|
                    k: int,
                |
                    0 <= k < i && !junk(#[trigger] c@[k]) ==> char_class(c@[k]) == v,
            },
        decreases c.len() - i,
    {
        if !contains_char(SUBTOKEN_JUNKS, c[i]) {
            assert(!junk(c@[i as int]));
            let here: u8 = class_of(c[i]);
            match seen {
                None => {
                    seen = Some(here);
                    proof {
                        at = i as int;
                    }
                },
                Some(v) => {
                    if v != here {
                        assert(!junk(c@[at]) && !junk(c@[i as int]));
                        return true;
                    }
                },
            }
        }
        i = i + 1;
    }
    false
}

/// The weight of a phoneme string, in a number that never overflows.
fn wide_weight(ps: &str) -> (r: u128)
    ensures
        r == weight(ps@),
{
    let s = chars_of(ps);
    let n: usize = s.len();
    let mut w: u128 = 0;
    let mut i: usize = 0;
    while i < n
        invariant
            i <= n == s@.len(),
            w <= 2 * i,
            w == weight(s@.take(i as int)),
        decreases n - i,
    {
        assert(s@.take(i + 1).drop_last() =~= s@.take(i as int));
        if contains_char(DIPHTHONGS, s[i]) {
            w = w + 2;
        } else {
            w = w + 1;
        }
        i = i + 1;
    }
    assert(s@.take(i as int) =~= s@);
    w
}

fn tidy_part(group: &Vec<MToken>, i: usize, apart: bool) -> (r: MToken)
    requires
        i < group@.len(),
    ensures
        r@ == tidied(mtokens(group@), i as int, apart),
{
    let n: usize = group.len();
    let mut t = group[i].copy();
    assert(mtokens(group@)[i as int] == t@);
    if t.phonemes.is_none() {
        let c = chars_of(t.text.as_str());
        if i == n - 1 && c.len() == 1 && non_quote_punct(c[0]) {
            t.phonemes = Some(t.text.clone());
            t.rating = Some(3);
        } else if only_junk(t.text.as_str()) {
            t.phonemes = Some(String::new());
            t.rating = Some(3);
        }
    } else if i > 0 {
        t.prespace = apart;
    }
    t
}

fn is_voiced(t: &MToken) -> (r: bool)
    ensures
        r == voiced(t@),
{
    match &t.phonemes {
        Some(p) => !p.as_str().is_empty(),
        None => false,
    }
}

fn is_accented(t: &MToken) -> (r: bool)
    ensures
        r == accented(t@),
{
    match &t.phonemes {
        Some(p) => !p.as_str().is_empty() && contains_char(p.as_str(), PRIMARY_STRESS),
        None => false,
    }
}

fn weight_of(t: &MToken) -> (r: u128)
    ensures
        t.phonemes is Some ==> r == weight(t@.phonemes.unwrap()),
{
    match &t.phonemes {
        Some(p) => wide_weight(p.as_str()),
        None => 0,
    }
}

fn soften(t: &MToken) -> (r: MToken)
    requires
        t.phonemes is Some,
    ensures
        r@ == softened(t@),
{
    let mut out = t.copy();
    match &t.phonemes {
        Some(p) => {
            out.phonemes = Some(apply_stress(p.as_str(), Some(SOFTEN)));
        },
        None => {},
    }
    out
}

fn find_voiced(group: &Vec<MToken>, from: usize) -> (r: usize)
    requires
        from <= group@.len(),
    ensures
        r == first_voiced(mtokens(group@), from as int),
        from <= r <= group@.len(),
        r < group@.len() ==> voiced(mtokens(group@)[r as int]),
{
    let ghost all = mtokens(group@);
    let mut i: usize = from;
    while i < group.len()
        invariant
            from <= i <= group@.len(),
            all == mtokens(group@),
            first_voiced(all, from as int) == first_voiced(all, i as int),
        decreases group.len() - i,
    {
        assert(all[i as int] == group@[i as int]@);
        if is_voiced(&group[i]) {
            return i;
        }
        i = i + 1;
    }
    i
}

/// Counting to the end finds a sound exactly where there is one.
pub proof fn voiced_found(group: Seq<MTokenView>, i: int)
    requires
        0 <= i <= group.len(),
    ensures
        voiced_count(group, i) <= voiced_count(group, group.len() as int),
        first_voiced(group, i) >= group.len() ==> voiced_count(group, i) == voiced_count(
            group,
            group.len() as int,
        ),
        first_voiced(group, i) < group.len() ==> {
            &&& i <= first_voiced(group, i)
            &&& voiced(group[first_voiced(group, i)])
            &&& voiced_count(group, first_voiced(group, i) + 1) == voiced_count(group, i) + 1
        },
    decreases group.len() - i,
{
    if i < group.len() {
        voiced_found(group, i + 1);
    }
}

/// Whether each part is softened, by its rank among the others.
fn soften_lighter(group: &Vec<MToken>, half: usize) -> (r: Vec<MToken>)
    ensures
        mtokens(r@) == Seq::new(
            group@.len(),
            |i: int|
                if voiced(mtokens(group@)[i]) && lighter_count(
                    mtokens(group@),
                    i,
                    group@.len() as int,
                ) < half {
                    softened(mtokens(group@)[i])
                } else {
                    mtokens(group@)[i]
                },
        ),
{
    let ghost all = mtokens(group@);
    let n: usize = group.len();
    let ghost goal = Seq::new(
        n as nat,
        |i: int|
            if voiced(all[i]) && lighter_count(all, i, n as int) < half {
                softened(all[i])
            } else {
                all[i]
            },
    );
    let mut out: Vec<MToken> = Vec::new();
    let mut i: usize = 0;
    assert(mtokens(out@) =~= goal.take(0));
    while i < n
        invariant
            i <= n == group@.len(),
            all == mtokens(group@),
            goal == Seq::new(
                n as nat,
                |i: int|
                    if voiced(all[i]) && lighter_count(all, i, n as int) < half {
                        softened(all[i])
                    } else {
                        all[i]
                    },
            ),
            mtokens(out@) == goal.take(i as int),
        decreases n - i,
    {
        assert(all[i as int] == group@[i as int]@);
        let mut rank: usize = 0;
        if is_voiced(&group[i]) {
            let stressed_here = is_accented(&group[i]);
            let weight_here: u128 = weight_of(&group[i]);
            let mut j: usize = 0;
            while j < n
                invariant
                    j <= n == group@.len(),
                    i < n,
                    all == mtokens(group@),
                    rank <= j,
                    stressed_here == accented(all[i as int]),
                    weight_here == weight(all[i as int].phonemes.unwrap()),
                    rank == lighter_count(all, i as int, j as int),
                decreases n - j,
            {
                assert(all[j as int] == group@[j as int]@);
                if is_voiced(&group[j]) {
                    let stressed_there = is_accented(&group[j]);
                    let weight_there: u128 = weight_of(&group[j]);
                    let less = if stressed_there != stressed_here {
                        stressed_here
                    } else if weight_there != weight_here {
                        weight_there < weight_here
                    } else {
                        j < i
                    };
                    if less {
                        rank = rank + 1;
                    }
                }
                j = j + 1;
            }
        }
        let t = if is_voiced(&group[i]) && rank < half {
            soften(&group[i])
        } else {
            group[i].copy()
        };
        let ghost before = mtokens(out@);
        let ghost v = t@;
        out.push(t);
        assert(mtokens(out@) =~= before.push(v));
        assert(v == goal[i as int]);
        assert(mtokens(out@) =~= goal.take(i + 1));
        i = i + 1;
    }
    assert(goal.take(i as int) =~= goal);
    out
}

/// Settles the stress of the parts of one written word.
pub fn resolve_tokens(group: &mut Vec<MToken>)
    ensures
        mtokens(final(group)@) == resolved_stress(mtokens(old(group)@)),
        final(group)@.len() == old(group)@.len(),
{
    proof {
        reveal(resolved_stress);
    }
    let n: usize = group.len();
    let ghost all = mtokens(group@);
    let text = span_text(group, 0, n);
    assert(all.subrange(0, n as int) =~= all);
    let apart = contains_char(text.as_str(), ' ') || contains_char(text.as_str(), '/') || is_mixed(
        text.as_str(),
    );
    let ghost neat = tidy(all, apart);
    let mut tokens: Vec<MToken> = Vec::new();
    let mut i: usize = 0;
    assert(mtokens(tokens@) =~= neat.take(0));
    while i < n
        invariant
            i <= n == group@.len(),
            all == mtokens(group@),
            group@ == old(group)@,
            neat == tidy(all, apart),
            mtokens(tokens@) == neat.take(i as int),
        decreases n - i,
    {
        let t = tidy_part(group, i, apart);
        let ghost before = mtokens(tokens@);
        let ghost v = t@;
        tokens.push(t);
        assert(mtokens(tokens@) =~= before.push(v));
        assert(v == neat[i as int]);
        assert(mtokens(tokens@) =~= neat.take(i + 1));
        i = i + 1;
    }
    assert(neat.take(i as int) =~= neat);
    if apart {
        *group = tokens;
        return;
    }
    let mut sounds: usize = 0;
    let mut accents: usize = 0;
    i = 0;
    while i < n
        invariant
            i <= n == tokens@.len(),
            neat == mtokens(tokens@),
            sounds <= i,
            accents <= i,
            sounds == voiced_count(neat, i as int),
            accents == accented_count(neat, i as int),
        decreases n - i,
    {
        assert(neat[i as int] == tokens@[i as int]@);
        if is_voiced(&tokens[i]) {
            sounds = sounds + 1;
        }
        if is_accented(&tokens[i]) {
            accents = accents + 1;
        }
        i = i + 1;
    }
    if sounds == 2 {
        proof {
            voiced_found(neat, 0);
        }
        let first: usize = find_voiced(&tokens, 0);
        assert(neat[first as int] == tokens@[first as int]@);
        if tokens[first].text.as_str().unicode_len() == 1 {
            proof {
                voiced_found(neat, first + 1);
            }
            let second: usize = find_voiced(&tokens, first + 1);
            assert(neat[second as int] == tokens@[second as int]@);
            let t = soften(&tokens[second]);
            let ghost v = t@;
            tokens.set(second, t);
            assert(mtokens(tokens@) =~= neat.update(second as int, v));
            *group = tokens;
            return;
        }
    }
    if sounds < 2 || accents <= sounds - sounds / 2 {
        *group = tokens;
        return;
    }
    let out = soften_lighter(&tokens, sounds / 2);
    assert(mtokens(out@).len() == out@.len());
    assert(mtokens(out@) =~= balanced(neat));
    *group = out;
}

} // verus!
