//! How the stress of a word in parts is settled.

use crate::mtoken::{spanned, MTokenView};
use crate::resolve::{
    accented, accented_count, balanced, first_voiced, junk, junk_text, lighter, lighter_count, mixed,
    resolved_stress, softened, spoken_apart, tidied, tidy, voiced, voiced_count, voiced_found,
};
use crate::stress::{stressed, weight};
use vstd::prelude::*;

verus! {

/// The characters between the parts of a word that have no sound of their own.
pub open spec fn between_parts(c: char) -> bool {
    c == '\'' || c == ',' || c == '-' || c == '.' || c == '_' || c == '‘' || c == '’' || c == '/'
}

/// A character is silent junk exactly where it is one of eight signs.
pub proof fn junk_is_listed(c: char)
    ensures
        junk(c) <==> between_parts(c),
{
    reveal_strlit("',-._‘’/");
    let p = "',-._‘’/"@;
    assert(p[0] == '\'' && p[1] == ',' && p[2] == '-' && p[3] == '.' && p[4] == '_' && p[5] == '‘'
        && p[6] == '’' && p[7] == '/');
    assert(p.len() == 8);
}

/// A sound weighs two for each diphthong or affricate and one for every other character, stress
/// marks among them.
pub proof fn weights_add_up(a: Seq<char>, b: Seq<char>, c: char)
    ensures
        weight(a + b) == weight(a) + weight(b),
        weight(seq![c]) == (if c == 'A' || c == 'I' || c == 'O' || c == 'Q' || c == 'W' || c == 'Y'
            || c == 'ʤ' || c == 'ʧ' {
            2nat
        } else {
            1nat
        }),
    decreases b.len(),
{
    reveal_strlit("AIOQWYʤʧ");
    let p = "AIOQWYʤʧ"@;
    assert(p[0] == 'A' && p[1] == 'I' && p[2] == 'O' && p[3] == 'Q' && p[4] == 'W' && p[5] == 'Y'
        && p[6] == 'ʤ' && p[7] == 'ʧ');
    assert(p.len() == 8);
    assert(seq![c].drop_last() =~= Seq::<char>::empty());
    assert(seq![c].last() == c);
    assert(weight(Seq::<char>::empty()) == 0);
    if b.len() == 0 {
        assert(a + b =~= a);
    } else {
        weights_add_up(a, b.drop_last(), c);
        assert((a + b).drop_last() =~= a + b.drop_last());
        assert((a + b).last() == b.last());
    }
}

/// The parts of a text are spoken apart where it has a space, a slash, or characters of two kinds
/// that count: letters, digits and signs.
pub proof fn mixed_words_are_spoken_apart(group: Seq<MTokenView>, i: int)
    requires
        0 < i < group.len(),
        group[i].phonemes is Some,
        spanned(group).contains(' ') || spanned(group).contains('/') || mixed(spanned(group)),
    ensures
        resolved_stress(group)[i] == (MTokenView { prespace: true, ..group[i] }),
{
    reveal(resolved_stress);
    assert(spoken_apart(spanned(group)));
    assert(tidy(group, true)[i] == tidied(group, i, true));
}

/// A part without a sound that closes the word as punctuation sounds as it is written, and junk is
/// silent; both are rated three. Any other part without a sound is left without.
pub proof fn leftovers_are_settled(group: Seq<MTokenView>, i: int)
    requires
        0 <= i < group.len(),
        group[i].phonemes is None,
    ensures
        ({
            let r = resolved_stress(group)[i];
            let c = group[i].text[0];
            let closes = i == group.len() - 1 && group[i].text.len() == 1 && (c == ';' || c == ':' || c
                == ',' || c == '.' || c == '!' || c == '?' || c == '—' || c == '…');
            let silent = group[i].text.len() > 0 && forall|k: int|
                0 <= k < group[i].text.len() ==> between_parts(#[trigger] group[i].text[k]);
            &&& resolved_stress(group).len() == group.len()
            &&& closes ==> r.rating == Some(3u8) && (r.phonemes == Some(group[i].text))
            &&& !closes && silent ==> r.rating == Some(3u8) && r.phonemes == Some(
                Seq::<char>::empty(),
            )
            &&& !closes && !silent ==> r == group[i]
        }),
{
    reveal(resolved_stress);
    let apart = spoken_apart(spanned(group));
    let neat = tidy(group, apart);
    assert(neat[i] == tidied(group, i, apart));
    let text = group[i].text;
    if text.len() > 0 {
        plain_puncts_are_listed(text[0]);
    }
    assert(junk_text(text) <==> (text.len() > 0 && forall|k: int|
        0 <= k < text.len() ==> between_parts(#[trigger] text[k]))) by {
        assert forall|k: int| 0 <= k < text.len() implies junk(#[trigger] text[k]) == between_parts(
            text[k],
        ) by {
            junk_is_listed(text[k]);
        }
    }
    if !apart {
        voiced_found(neat, 0);
        if first_voiced(neat, 0) < neat.len() {
            voiced_found(neat, first_voiced(neat, 0) + 1);
        }
        let n = neat.len() as int;
        if i == n - 1 && text.len() == 1 && crate::g2p::plain_punct(text[0]) {
            closing_marks_stay(neat, i);
        } else {
            assert(!voiced(neat[i]));
            silent_parts_stay(neat, i);
        }
    }
}

proof fn plain_puncts_are_listed(c: char)
    ensures
        crate::g2p::plain_punct(c) <==> (c == ';' || c == ':' || c == ',' || c == '.' || c == '!' || c
            == '?' || c == '—' || c == '…'),
{
    reveal_strlit(";:,.!?—…\"“”");
    reveal_strlit("\"“”");
    let p = ";:,.!?—…\"“”"@;
    assert(p[0] == ';' && p[1] == ':' && p[2] == ',' && p[3] == '.' && p[4] == '!' && p[5] == '?'
        && p[6] == '—' && p[7] == '…' && p[8] == '"' && p[9] == '“' && p[10] == '”');
    assert(p.len() == 11);
    let q = "\"“”"@;
    assert(q[0] == '"' && q[1] == '“' && q[2] == '”');
    assert(q.len() == 3);
}

proof fn none_voiced_before(group: Seq<MTokenView>, i: int)
    requires
        0 <= i <= group.len(),
    ensures
        i <= first_voiced(group, i) <= group.len(),
        forall|k: int| i <= k < first_voiced(group, i) ==> !voiced(#[trigger] group[k]),
        first_voiced(group, i) < group.len() ==> voiced(group[first_voiced(group, i)]),
    decreases group.len() - i,
{
    if i < group.len() && !voiced(group[i]) {
        none_voiced_before(group, i + 1);
    }
}

proof fn voiced_stay_in_bounds(group: Seq<MTokenView>)
    ensures
        voiced_count(group, group.len() as int) >= 2 ==> ({
            let a = first_voiced(group, 0);
            let b = first_voiced(group, a + 1);
            0 <= a < b < group.len() && voiced(group[a]) && voiced(group[b])
        }),
{
    let n = group.len() as int;
    let a = first_voiced(group, 0);
    none_voiced_before(group, 0);
    none_voiced(group, a);
    if a < n {
        none_voiced_before(group, a + 1);
        let b = first_voiced(group, a + 1);
        if b >= n {
            count_up(group, a, n);
        }
    } else {
        assert(voiced_count(group, n) == 0);
    }
}

proof fn none_voiced(group: Seq<MTokenView>, k: int)
    requires
        0 <= k <= group.len(),
        forall|i: int| 0 <= i < k ==> !voiced(#[trigger] group[i]),
    ensures
        voiced_count(group, k) == 0,
    decreases k,
{
    if k > 0 {
        none_voiced(group, k - 1);
    }
}

proof fn count_up(group: Seq<MTokenView>, a: int, k: int)
    requires
        0 <= a < k <= group.len(),
        forall|i: int| 0 <= i < a ==> !voiced(#[trigger] group[i]),
        forall|i: int| a < i < k ==> !voiced(#[trigger] group[i]),
    ensures
        voiced_count(group, k) <= 1,
    decreases k,
{
    if k == a + 1 {
        none_voiced(group, a);
    } else {
        count_up(group, a, k - 1);
        assert(!voiced(group[k - 1]));
    }
}

/// Balancing touches no part without a sound.
proof fn silent_parts_stay(group: Seq<MTokenView>, i: int)
    requires
        0 <= i < group.len(),
        !voiced(group[i]),
    ensures
        balanced(group)[i] == group[i],
        balanced(group).len() == group.len(),
{
    voiced_stay_in_bounds(group);
}

/// Balancing changes nothing about a part that carries no stress mark.
proof fn closing_marks_stay(group: Seq<MTokenView>, i: int)
    requires
        0 <= i < group.len(),
        group[i].phonemes is Some,
        !group[i].phonemes.unwrap().contains('ˈ') || group[i].phonemes.unwrap().len() == 1,
        group[i].phonemes.unwrap().len() == 1 ==> group[i].phonemes.unwrap()[0] != 'ˈ',
    ensures
        balanced(group)[i].phonemes == group[i].phonemes,
        balanced(group)[i].rating == group[i].rating,
        balanced(group).len() == group.len(),
{
    voiced_stay_in_bounds(group);
    let p = group[i].phonemes.unwrap();
    assert(!p.contains('ˈ'));
    assert(stressed(p, Some(crate::stress::SOFTEN)) == p);
}

/// The second of two sounds gives way to a first that is a single letter: it loses its primary
/// stress, and the first stays as it is.
pub proof fn a_letter_takes_the_stress(group: Seq<MTokenView>, a: int, b: int)
    requires
        !spoken_apart(spanned(group)),
        0 <= a < b < group.len(),
        group[a].text.len() == 1,
        voiced(group[a]),
        voiced(group[b]),
        forall|i: int|
            0 <= i < group.len() && i != a && i != b ==> (#[trigger] group[i]).phonemes == Some(
                Seq::<char>::empty(),
            ),
    ensures
        ({
            let r = resolved_stress(group);
            &&& r.len() == group.len()
            &&& r[a].phonemes == group[a].phonemes
            &&& r[b].phonemes == Some(stressed(group[b].phonemes.unwrap(), Some((-1) as i32)))
            &&& !r[b].phonemes.unwrap().contains('ˈ')
        }),
{
    reveal(resolved_stress);
    let neat = tidy(group, false);
    assert(neat[a] == tidied(group, a, false));
    assert(neat[b] == tidied(group, b, false));
    assert forall|i: int| 0 <= i < neat.len() && i != a && i != b implies !voiced(
        #[trigger] neat[i],
    ) by {
        assert(neat[i] == tidied(group, i, false));
        assert(group[i].phonemes == Some(Seq::<char>::empty()));
    }
    two_voiced(neat, a, b);
    crate::stress_laws::demotion_leaves_no_primary(group[b].phonemes.unwrap(), (-1) as i32);
}

proof fn two_voiced(group: Seq<MTokenView>, a: int, b: int)
    requires
        0 <= a < b < group.len(),
        voiced(group[a]),
        voiced(group[b]),
        forall|i: int| 0 <= i < group.len() && i != a && i != b ==> !voiced(#[trigger] group[i]),
    ensures
        voiced_count(group, group.len() as int) == 2,
        first_voiced(group, 0) == a,
        first_voiced(group, a + 1) == b,
{
    none_voiced_before(group, 0);
    none_voiced_before(group, a + 1);
    counted(group, a, b, group.len() as int);
    let f = first_voiced(group, 0);
    if f < a {
        assert(!voiced(group[f]));
    }
    if f > a {
        assert(voiced(group[a]));
    }
    let g = first_voiced(group, a + 1);
    if g < b {
        assert(!voiced(group[g]));
    }
    if g > b {
        assert(voiced(group[b]));
    }
}

proof fn counted(group: Seq<MTokenView>, a: int, b: int, k: int)
    requires
        0 <= a < b < group.len(),
        0 <= k <= group.len(),
        voiced(group[a]),
        voiced(group[b]),
        forall|i: int| 0 <= i < group.len() && i != a && i != b ==> !voiced(#[trigger] group[i]),
    ensures
        voiced_count(group, k) == (if k <= a {
            0nat
        } else if k <= b {
            1nat
        } else {
            2nat
        }),
    decreases k,
{
    if k > 0 {
        counted(group, a, b, k - 1);
        assert(voiced(group[k - 1]) == (k - 1 == a || k - 1 == b));
    }
}

/// Lighter is: without a primary stress before with one, then of less weight, then further left.
pub proof fn lightness_is_an_order(group: Seq<MTokenView>, a: int, b: int, c: int)
    requires
        voiced(group[a]),
        voiced(group[b]),
        voiced(group[c]),
    ensures
        a != b ==> (lighter(group, a, b) <==> !lighter(group, b, a)),
        !lighter(group, a, a),
        lighter(group, a, b) && lighter(group, b, c) ==> lighter(group, a, c),
        !group[a].phonemes.unwrap().contains('ˈ') && group[b].phonemes.unwrap().contains('ˈ')
            ==> lighter(group, a, b),
        group[a].phonemes.unwrap().contains('ˈ') == group[b].phonemes.unwrap().contains('ˈ')
            && weight(group[a].phonemes.unwrap()) < weight(group[b].phonemes.unwrap()) ==> lighter(
            group,
            a,
            b,
        ),
{
}

proof fn fewer_are_lighter(group: Seq<MTokenView>, a: int, b: int, n: int)
    requires
        0 <= a < group.len(),
        0 <= b < group.len(),
        0 <= n <= group.len(),
        voiced(group[a]),
        voiced(group[b]),
        lighter(group, a, b),
    ensures
        lighter_count(group, a, n) + (if a < n {
            1nat
        } else {
            0nat
        }) <= lighter_count(group, b, n),
    decreases n,
{
    if n > 0 {
        fewer_are_lighter(group, a, b, n - 1);
        let k = n - 1;
        if voiced(group[k]) {
            lightness_is_an_order(group, k, a, b);
            lightness_is_an_order(group, a, k, b);
        }
    }
}

/// Where the stress of a word is balanced, it gives way from the lightest part up: a part keeps its
/// stress only if every heavier part does.
pub proof fn lighter_parts_give_way_first(group: Seq<MTokenView>, a: int, b: int)
    requires
        0 <= a < group.len(),
        0 <= b < group.len(),
        voiced(group[a]),
        voiced(group[b]),
        lighter(group, a, b),
        !(voiced_count(group, group.len() as int) == 2 && group[first_voiced(group, 0)].text.len()
            == 1),
        balanced(group)[b] != group[b],
    ensures
        balanced(group)[a] == softened(group[a]),
{
    fewer_are_lighter(group, a, b, group.len() as int);
}

/// A word in which no more than the larger half of the sounding parts has a primary stress is left
/// as it is.
pub proof fn few_stresses_are_left_alone(group: Seq<MTokenView>)
    requires
        ({
            let n = group.len() as int;
            let sounds = voiced_count(group, n) as int;
            &&& accented_count(group, n) <= sounds - sounds / 2
            &&& !(sounds == 2 && group[first_voiced(group, 0)].text.len() == 1)
        }),
    ensures
        balanced(group) == group,
{
}

/// A letter and a digit in one word are spoken apart, and so are either and a sign that is no junk.
pub proof fn kinds_are_told_apart(s: Seq<char>, i: int, j: int)
    requires
        0 <= i < s.len(),
        0 <= j < s.len(),
        !between_parts(s[i]),
        !between_parts(s[j]),
        crate::unicode::alphabetic(s[i]),
        !crate::unicode::alphabetic(s[j]),
    ensures
        spoken_apart(s),
{
    junk_is_listed(s[i]);
    junk_is_listed(s[j]);
    assert(crate::resolve::char_class(s[i]) != crate::resolve::char_class(s[j]));
    assert(mixed(s));
}

/// A digit and a sign that is neither junk nor a letter are spoken apart.
pub proof fn digits_and_signs_are_told_apart(s: Seq<char>, i: int, j: int)
    requires
        0 <= i < s.len(),
        0 <= j < s.len(),
        48 <= s[i] as u32 <= 57,
        !between_parts(s[j]),
        !crate::unicode::alphabetic(s[j]),
        !(48 <= s[j] as u32 <= 57),
    ensures
        spoken_apart(s),
{
    junk_is_listed(s[i]);
    junk_is_listed(s[j]);
    assert(crate::resolve::char_class(s[i]) != crate::resolve::char_class(s[j]));
    assert(mixed(s));
}

/// A word of letters and junk alone, without a slash, is spoken in one.
pub proof fn letters_are_spoken_in_one(s: Seq<char>)
    requires
        forall|i: int|
            0 <= i < s.len() ==> (crate::unicode::alphabetic(#[trigger] s[i]) || between_parts(s[i]))
                && s[i] != '/' && s[i] != ' ',
    ensures
        !spoken_apart(s),
{
    if s.contains(' ') {
        let i = choose|i: int| 0 <= i < s.len() && s[i] == ' ';
        assert(s[i] != ' ');
    }
    if s.contains('/') {
        let i = choose|i: int| 0 <= i < s.len() && s[i] == '/';
        assert(s[i] != '/');
    }
    if mixed(s) {
        let (i, j) = choose|i: int, j: int|
            0 <= i < s.len() && 0 <= j < s.len() && !junk(#[trigger] s[i]) && !junk(#[trigger] s[j])
                && crate::resolve::char_class(s[i]) != crate::resolve::char_class(s[j]);
        junk_is_listed(s[i]);
        junk_is_listed(s[j]);
        assert(crate::unicode::alphabetic(s[i]) && crate::unicode::alphabetic(s[j]));
    }
}

/// A word that is spoken in one has no space before any of its sounding parts; its first part is left
/// as it is.
pub proof fn parts_touch_when_spoken_in_one(group: Seq<MTokenView>, i: int)
    requires
        0 <= i < group.len(),
        group[i].phonemes is Some,
        !spoken_apart(spanned(group)),
    ensures
        resolved_stress(group).len() == group.len(),
        i > 0 ==> !resolved_stress(group)[i].prespace,
        i == 0 ==> resolved_stress(group)[i].prespace == group[i].prespace,
        resolved_stress(group)[i].rating == group[i].rating,
{
    reveal(resolved_stress);
    let neat = tidy(group, false);
    assert(neat[i] == tidied(group, i, false));
    voiced_stay_in_bounds(neat);
}

/// Where more than the larger half of the sounding parts has a primary stress, a part gives way
/// exactly where it and those lighter than it make up no more than half of them; any other part keeps
/// its stress.
pub proof fn the_lighter_half_gives_way(group: Seq<MTokenView>, b: int)
    requires
        0 <= b < group.len(),
        voiced(group[b]),
        ({
            let n = group.len() as int;
            let sounds = voiced_count(group, n) as int;
            &&& sounds >= 2
            &&& 2 * accented_count(group, n) > sounds + 1
            &&& !(sounds == 2 && group[first_voiced(group, 0)].text.len() == 1)
        }),
    ensures
        ({
            let n = group.len() as int;
            let sounds = voiced_count(group, n) as int;
            let through = lighter_count(group, b, n) + 1;
            &&& 2 * through <= sounds ==> balanced(group)[b] == softened(group[b])
            &&& 2 * through > sounds ==> balanced(group)[b] == group[b]
        }),
{
}

/// The heaviest sounding part of a word keeps its stress.
pub proof fn the_heaviest_part_keeps_its_stress(group: Seq<MTokenView>, b: int)
    requires
        0 <= b < group.len(),
        voiced(group[b]),
        forall|a: int|
            0 <= a < group.len() && a != b && voiced(#[trigger] group[a]) ==> lighter(group, a, b),
        !(voiced_count(group, group.len() as int) == 2 && group[first_voiced(group, 0)].text.len()
            == 1),
    ensures
        balanced(group)[b] == group[b],
{
    all_others_counted(group, b, group.len() as int);
}

proof fn all_others_counted(group: Seq<MTokenView>, b: int, n: int)
    requires
        0 <= b < group.len(),
        0 <= n <= group.len(),
        voiced(group[b]),
        forall|a: int|
            0 <= a < group.len() && a != b && voiced(#[trigger] group[a]) ==> lighter(group, a, b),
    ensures
        lighter_count(group, b, n) + (if b < n {
            1nat
        } else {
            0nat
        }) == voiced_count(group, n),
    decreases n,
{
    if n > 0 {
        all_others_counted(group, b, n - 1);
        lightness_is_an_order(group, b, b, b);
        if n - 1 != b && voiced(group[n - 1]) {
            assert(lighter(group, n - 1, b));
        }
    }
}

/// Parts are counted by whether they sound, and sounding parts by whether they have a primary stress.
pub proof fn parts_are_counted(group: Seq<MTokenView>, n: int)
    requires
        0 <= n < group.len(),
    ensures
        ({
            let p = group[n].phonemes;
            let sounds = p is Some && p.unwrap().len() > 0;
            &&& voiced_count(group, 0) == 0
            &&& accented_count(group, 0) == 0
            &&& voiced_count(group, n + 1) - voiced_count(group, n) == (if sounds {
                1int
            } else {
                0int
            })
            &&& accented_count(group, n + 1) - accented_count(group, n) == (if sounds
                && p.unwrap().contains('ˈ') {
                1int
            } else {
                0int
            })
        }),
{
}

} // verus!
