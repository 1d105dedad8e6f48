//! What reading and writing text keeps, for every text.

use crate::base64::{encoded, letter, quad};
use crate::lexicon::{grown, listed, other_spelling, other_spellings, EntryView};
use crate::space::{collapsed, leading_space, only_space, trimmed, trimmed_end};
use crate::text::{
    all_digits, count_of, digits_value, is_digit, natural_number, split_on, whole_number, without,
};
use crate::unicode::{capitalized, lowercase, white_space};
use vstd::prelude::*;

verus! {

/// Trimming takes white space off both ends and nothing else: the text is white space, the trimmed
/// text and white space, and the trimmed text neither begins nor ends with any.
pub proof fn trimming_takes_the_ends(s: Seq<char>)
    ensures
        exists|a: int, b: int|
            0 <= a <= b <= s.len() && #[trigger] s.subrange(a, b) == trimmed(s) && only_space(
                s.take(a),
            ) && only_space(s.skip(b)),
        trimmed(s).len() > 0 ==> !white_space(trimmed(s)[0]) && !white_space(trimmed(s).last()),
{
    let a = leading_space(s) as int;
    leading_is(s);
    let t = s.skip(a);
    trailing_is(t);
    let b = a + trimmed_end(t) as int;
    assert(s.subrange(a, b) =~= trimmed(s));
    assert forall|i: int| 0 <= i < s.take(a).len() implies white_space(#[trigger] s.take(a)[i]) by {
        assert(s.take(a)[i] == s[i]);
    }
    assert forall|i: int| 0 <= i < s.skip(b).len() implies white_space(#[trigger] s.skip(b)[i]) by {
        assert(s.skip(b)[i] == t[i + trimmed_end(t)]);
    }
    if trimmed(s).len() > 0 {
        assert(trimmed(s)[0] == s[a]);
        assert(trimmed(s).last() == t[trimmed_end(t) - 1]);
    }
}

proof fn leading_is(s: Seq<char>)
    ensures
        leading_space(s) <= s.len(),
        leading_space(s) < s.len() ==> !white_space(s[leading_space(s) as int]),
        forall|i: int| 0 <= i < leading_space(s) ==> white_space(#[trigger] s[i]),
    decreases s.len(),
{
    if s.len() > 0 && white_space(s[0]) {
        leading_is(s.skip(1));
        assert forall|i: int| 0 <= i < leading_space(s) implies white_space(#[trigger] s[i]) by {
            if i > 0 {
                assert(s[i] == s.skip(1)[i - 1]);
            }
        }
    }
}

proof fn trailing_is(s: Seq<char>)
    ensures
        trimmed_end(s) <= s.len(),
        trimmed_end(s) > 0 ==> !white_space(s[trimmed_end(s) - 1]),
        forall|i: int| trimmed_end(s) <= i < s.len() ==> white_space(#[trigger] s[i]),
    decreases s.len(),
{
    if s.len() > 0 && white_space(s.last()) {
        let t = s.drop_last();
        trailing_is(t);
        assert forall|i: int| trimmed_end(s) <= i < s.len() implies white_space(#[trigger] s[i]) by {
            if i < t.len() {
                assert(s[i] == t[i]);
            }
        }
    }
}

/// Putting a text on one line loses nothing but white space, and keeps the order of the rest.
pub proof fn collapsing_keeps_the_rest(s: Seq<char>)
    ensures
        collapsed(s).filter(|c: char| !white_space(c)) == s.filter(|c: char| !white_space(c)),
    decreases s.len(),
{
    reveal(Seq::filter);
    let keep = |c: char| !white_space(c);
    if s.len() > 0 {
        let t = s.drop_last();
        collapsing_keeps_the_rest(t);
        let before = collapsed(t);
        let c = s.last();
        if !white_space(c) {
            assert(white_space(' '));
            let spaced = before.push(' ');
            assert(spaced.drop_last() =~= before);
            assert(spaced.filter(keep) == before.filter(keep));
            assert(spaced.push(c).drop_last() =~= spaced);
            assert(before.push(c).drop_last() =~= before);
            assert(spaced.push(c).filter(keep) == before.filter(keep).push(c));
            assert(before.push(c).filter(keep) == before.filter(keep).push(c));
        }
    }
}

/// White space between two words becomes one space, however much there is.
pub proof fn gaps_become_one_space(a: Seq<char>, gap: Seq<char>, b: Seq<char>)
    requires
        a.len() > 0,
        !white_space(a.last()),
        gap.len() > 0,
        only_space(gap),
        b.len() > 0,
        forall|i: int| 0 <= i < b.len() ==> !white_space(#[trigger] b[i]),
    ensures
        collapsed(a + gap + b) == collapsed(a) + seq![' '] + b,
        collapsed(b) == b,
        collapsed(a + b) == collapsed(a) + b,
        collapsed(a + gap) == collapsed(a),
    decreases b.len(),
{
    spaces_are_dropped(a, gap);
    solid_ends(a);
    let s = a + gap + b;
    let u = a + b;
    assert(!white_space(b[b.len() - 1]));
    if b.len() == 1 {
        let none = Seq::<char>::empty();
        assert(s.drop_last() =~= a + gap);
        assert(s.last() == b[0]);
        assert(s[s.len() - 2] == gap[gap.len() - 1]);
        assert(white_space(gap[gap.len() - 1]));
        assert(b.drop_last() =~= none);
        assert(collapsed(none) =~= none);
        assert(collapsed(s) =~= collapsed(a) + seq![' '] + b);
        assert(collapsed(b) =~= b);
        assert(u.drop_last() =~= a);
        assert(u.last() == b[0]);
        assert(u[u.len() - 2] == a.last());
        assert(collapsed(u) =~= collapsed(a) + b);
    } else {
        let t = b.drop_last();
        assert forall|i: int| 0 <= i < t.len() implies !white_space(#[trigger] t[i]) by {
            assert(t[i] == b[i]);
        }
        gaps_become_one_space(a, gap, t);
        assert(s.drop_last() =~= a + gap + t);
        assert(u.drop_last() =~= a + t);
        assert(s[s.len() - 2] == b[b.len() - 2]);
        assert(u[u.len() - 2] == b[b.len() - 2]);
        assert(!white_space(b[b.len() - 2]));
        assert(s.last() == b.last() && u.last() == b.last());
        assert(collapsed(s) =~= collapsed(a) + seq![' '] + b);
        assert(collapsed(b) =~= b);
        assert(collapsed(u) =~= collapsed(a) + b);
    }
}

proof fn spaces_are_dropped(a: Seq<char>, gap: Seq<char>)
    requires
        only_space(gap),
    ensures
        collapsed(a + gap) == collapsed(a),
    decreases gap.len(),
{
    if gap.len() == 0 {
        assert(a + gap =~= a);
    } else {
        let t = gap.drop_last();
        assert forall|i: int| 0 <= i < t.len() implies white_space(#[trigger] t[i]) by {
            assert(t[i] == gap[i]);
        }
        spaces_are_dropped(a, t);
        assert((a + gap).drop_last() =~= a + t);
        assert((a + gap).last() == gap[gap.len() - 1]);
        assert(white_space(gap[gap.len() - 1]));
    }
}

proof fn solid_ends(a: Seq<char>)
    requires
        a.len() > 0,
        !white_space(a.last()),
    ensures
        collapsed(a).len() > 0,
{
}

/// The base64 alphabet, in order.
pub proof fn the_base64_alphabet(v: int)
    requires
        0 <= v < 64,
    ensures
        letter(v) == "ABCDEFGHIJKLMNOPQRSTUVWXYZabcdefghijklmnopqrstuvwxyz0123456789+/"@[v],
{
    reveal_strlit("ABCDEFGHIJKLMNOPQRSTUVWXYZabcdefghijklmnopqrstuvwxyz0123456789+/");
}

/// Three bytes are the four digits of one number in base sixty-four, the first byte highest; the
/// bytes that are missing count as zero and the digits that would hold none of them are signs.
pub proof fn three_bytes_are_four_digits(a: u8, b: u8, c: u8)
    ensures
        ({
            let x = a * 65536 + b * 256 + c;
            let y = a * 65536 + b * 256;
            let z = a * 65536;
            &&& encoded(seq![a, b, c]) == seq![
                letter(x / 262144),
                letter(x / 4096 % 64),
                letter(x / 64 % 64),
                letter(x % 64),
            ]
            &&& encoded(seq![a, b]) == seq![
                letter(y / 262144),
                letter(y / 4096 % 64),
                letter(y / 64 % 64),
                '=',
            ]
            &&& encoded(seq![a]) == seq![letter(z / 262144), letter(z / 4096 % 64), '=', '=']
        }),
{
    sixes(a as int, b as int, c as int);
    sixes(a as int, b as int, 0);
    sixes(a as int, 0, 0);
    assert(quad(seq![a, b, c]) =~= encoded(seq![a, b, c]));
}

proof fn parts(x: int, d: int, q: int, r: int)
    requires
        d > 0,
        x == q * d + r,
        0 <= r < d,
    ensures
        x / d == q,
        x % d == r,
{
    vstd::arithmetic::div_mod::lemma_fundamental_div_mod_converse(x, d, q, r);
}

proof fn sixes(a: int, b: int, c: int)
    requires
        0 <= a < 256,
        0 <= b < 256,
        0 <= c < 256,
    ensures
        ({
            let x = a * 65536 + b * 256 + c;
            &&& x / 262144 == a / 4
            &&& x / 4096 % 64 == (a % 4) * 16 + b / 16
            &&& x / 64 % 64 == (b % 16) * 4 + c / 64
            &&& x % 64 == c % 64
        }),
{
    let x = a * 65536 + b * 256 + c;
    parts(x, 262144, a / 4, (a % 4) * 65536 + b * 256 + c);
    parts(x, 4096, a * 16 + b / 16, (b % 16) * 256 + c);
    parts(a * 16 + b / 16, 64, a / 4, (a % 4) * 16 + b / 16);
    parts(x, 64, a * 1024 + b * 4 + c / 64, c % 64);
    parts(a * 1024 + b * 4 + c / 64, 64, a * 16 + b / 16, (b % 16) * 4 + c / 64);
}

/// Three bytes at a time: what follows the first three is encoded on its own.
pub proof fn base64_goes_by_threes(a: Seq<u8>, b: Seq<u8>)
    requires
        a.len() == 3,
    ensures
        encoded(a + b) == encoded(a) + encoded(b),
{
    if b.len() == 0 {
        assert(a + b =~= a);
        assert(encoded(a) + encoded(b) =~= encoded(a));
    } else {
        assert((a + b).take(3) =~= a);
        assert((a + b).skip(3) =~= b);
    }
}

/// The value of digits: each digit more is ten times what stands before it and its own value.
pub proof fn values_of_digits(a: Seq<char>, d: char)
    requires
        is_digit(d),
    ensures
        digits_value(a.push(d)) == digits_value(a) * 10 + (d as u32 - 48),
        digits_value(Seq::<char>::empty()) == 0,
        is_digit(d) <==> 48 <= d as u32 <= 57,
{
    assert(a.push(d).drop_last() =~= a);
}

/// A whole number is digits with at most one sign in front: a minus makes it negative, a plus
/// changes nothing. A natural number takes no minus.
pub proof fn signs_of_numbers(d: Seq<char>)
    requires
        d.len() > 0,
        all_digits(d),
    ensures
        digits_value(d) <= i64::MAX ==> whole_number(d) == Some(digits_value(d) as int),
        digits_value(d) <= i64::MAX ==> whole_number(seq!['+'] + d) == Some(digits_value(d) as int),
        digits_value(d) <= i64::MAX + 1 ==> whole_number(seq!['-'] + d) == Some(-digits_value(d)),
        digits_value(d) > i64::MAX ==> whole_number(d) is None,
        natural_number(seq!['-'] + d) is None,
        digits_value(d) <= u64::MAX ==> natural_number(d) == Some(digits_value(d) as u64),
        digits_value(d) <= u64::MAX ==> natural_number(seq!['+'] + d) == Some(digits_value(d) as u64),
{
    assert(is_digit(d[0]));
    let p = seq!['+'] + d;
    let m = seq!['-'] + d;
    assert(p[0] == '+' && m[0] == '-');
    assert(p.skip(1) =~= d);
    assert(m.skip(1) =~= d);
    assert(!is_digit(m[0]));
}

/// Splitting on a sign gives what stands before the first and then what follows it, split on.
pub proof fn splitting_goes_on(a: Seq<char>, c: char, b: Seq<char>)
    requires
        !a.contains(c),
    ensures
        split_on(a + seq![c] + b, c) == seq![a] + split_on(b, c),
        split_on(a, c) == seq![a],
{
    let s = a + seq![c] + b;
    let n = a.len() as int;
    crate::text::first_index_bounds(s, c);
    crate::text::first_index_bounds(a, c);
    let m = crate::text::first_index(s, c);
    assert(s[n] == c);
    assert forall|i: int| 0 <= i < n implies #[trigger] s[i] != c by {
        assert(s[i] == a[i]);
        assert(a.contains(a[i]));
    }
    assert(m == n);
    assert(s.take(n) =~= a);
    assert(s.skip(n + 1) =~= b);
    if crate::text::first_index(a, c) < n {
        assert(a.contains(a[crate::text::first_index(a, c)]));
    }
}

/// Taking a character out takes all of it and nothing else, and counting it counts what is taken.
pub proof fn taking_out(s: Seq<char>, c: char)
    ensures
        without(s, c) == s.filter(|d: char| d != c),
        count_of(s, c) + without(s, c).len() == s.len(),
    decreases s.len(),
{
    reveal(Seq::filter);
    if s.len() > 0 {
        taking_out(s.drop_last(), c);
    } else {
        assert(without(s, c) =~= s.filter(|d: char| d != c));
    }
}

/// A word of one letter has no second spelling. One in small letters has its capitalised form, a
/// capitalised one has its small letters, and any other has none.
pub proof fn second_spellings(k: Seq<char>)
    ensures
        k.len() < 2 ==> other_spelling(k) is None,
        k.len() >= 2 && k == lowercase(k) && k != capitalized(k) ==> other_spelling(k) == Some(
            capitalized(k),
        ),
        k.len() >= 2 && k != lowercase(k) && k == capitalized(lowercase(k)) ==> other_spelling(k)
            == Some(lowercase(k)),
        k.len() >= 2 && k != lowercase(k) && k != capitalized(lowercase(k)) ==> other_spelling(k)
            is None,
{
}

/// A second spelling that no list names has the entry of the last word that it is the second
/// spelling of.
pub proof fn second_spellings_have_the_entry(d: Seq<(Seq<char>, EntryView)>, i: int)
    requires
        0 <= i < d.len(),
        other_spelling(d[i].0) is Some,
        !listed(d).contains_key(other_spelling(d[i].0).unwrap()),
        forall|j: int|
            i < j < d.len() ==> other_spelling((#[trigger] d[j]).0) != other_spelling(d[i].0),
    ensures
        grown(d).contains_key(other_spelling(d[i].0).unwrap()),
        grown(d)[other_spelling(d[i].0).unwrap()] == d[i].1,
{
    second_entry(d, i);
}

proof fn second_entry(d: Seq<(Seq<char>, EntryView)>, i: int)
    requires
        0 <= i < d.len(),
        other_spelling(d[i].0) is Some,
        forall|j: int|
            i < j < d.len() ==> other_spelling((#[trigger] d[j]).0) != other_spelling(d[i].0),
    ensures
        other_spellings(d).contains_key(other_spelling(d[i].0).unwrap()),
        other_spellings(d)[other_spelling(d[i].0).unwrap()] == d[i].1,
    decreases d.len(),
{
    if i < d.len() - 1 {
        let t = d.drop_last();
        assert(t[i] == d[i]);
        assert forall|j: int| i < j < t.len() implies other_spelling((#[trigger] t[j]).0)
            != other_spelling(t[i].0) by {
            assert(t[j] == d[j]);
        }
        second_entry(t, i);
        assert(other_spelling(d[d.len() - 1].0) != other_spelling(d[i].0));
    }
}

/// A word has the entry that a list gives it last.
pub proof fn the_last_entry_counts(d: Seq<(Seq<char>, EntryView)>, i: int)
    requires
        0 <= i < d.len(),
        forall|j: int| i < j < d.len() ==> (#[trigger] d[j]).0 != d[i].0,
    ensures
        listed(d).contains_key(d[i].0),
        listed(d)[d[i].0] == d[i].1,
        grown(d)[d[i].0] == d[i].1,
    decreases d.len(),
{
    if i < d.len() - 1 {
        let t = d.drop_last();
        assert(t[i] == d[i]);
        assert forall|j: int| i < j < t.len() implies (#[trigger] t[j]).0 != t[i].0 by {
            assert(t[j] == d[j]);
        }
        the_last_entry_counts(t, i);
        assert(d[d.len() - 1].0 != d[i].0);
    }
}

} // verus!
