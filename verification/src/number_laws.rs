//! How the words of numbers are put together, for every number.

use crate::num2words::{
    cardinal_words, decimal_words, last_word_start, ordinal_word, ordinal_words, words_of_groups,
    words_of_natural, words_under_1000, year_words, SCALES,
};
use crate::text::{
    all_digits, digits_value, first_index, first_index_bounds, is_digit, last_piece, last_piece_bounds,
    trimmed_len,
};
use vstd::prelude::*;

verus! {

/// A power of one thousand.
pub open spec fn thousands(n: nat) -> int
    decreases n,
{
    if n == 0 {
        1
    } else {
        1000 * thousands((n - 1) as nat)
    }
}

proof fn thousands_are_positive(n: nat)
    ensures
        thousands(n) > 0,
    decreases n,
{
    if n > 0 {
        thousands_are_positive((n - 1) as nat);
    }
}

/// Empty groups at the end of a number only raise the scale of those before them.
proof fn empty_groups_are_skipped(v: int, scale: int, n: nat)
    requires
        v > 0,
    ensures
        words_of_groups(v * thousands(n), scale) == words_of_groups(v, scale + n),
    decreases n,
{
    if n == 0 {
        assert(v * thousands(0) == v);
    } else {
        let m = (n - 1) as nat;
        thousands_are_positive(m);
        let w = v * thousands(m);
        assert(w > 0) by (nonlinear_arith)
            requires
                w == v * thousands(m),
                v > 0,
                thousands(m) > 0,
        ;
        assert(v * thousands(n) == w * 1000) by (nonlinear_arith)
            requires
                w == v * thousands(m),
                thousands(n) == 1000 * thousands(m),
        ;
        assert((w * 1000) % 1000 == 0 && (w * 1000) / 1000 == w);
        empty_groups_are_skipped(v, scale + 1, m);
    }
}

proof fn whole_groups(v: int, scale: nat)
    requires
        v > 0,
        scale >= 1,
    ensures
        words_of_natural(v * thousands(scale)) == words_of_groups(v, scale as int),
        v * thousands(scale) >= 1000,
{
    let m = (scale - 1) as nat;
    thousands_are_positive(m);
    let w = v * thousands(m);
    assert(w > 0) by (nonlinear_arith)
        requires
            w == v * thousands(m),
            v > 0,
            thousands(m) > 0,
    ;
    assert(v * thousands(scale) == w * 1000) by (nonlinear_arith)
        requires
            w == v * thousands(m),
            thousands(scale) == 1000 * thousands(m),
    ;
    assert((w * 1000) % 1000 == 0 && (w * 1000) / 1000 == w);
    empty_groups_are_skipped(v, 1, m);
}

/// Behind the thousands of a number its last group follows "and" where it is below one hundred,
/// and a comma from there on.
pub proof fn last_groups_are_joined(high: int, low: int)
    requires
        high > 0,
        0 < low < 1000,
        high * 1000 + low <= i64::MAX,
    ensures
        cardinal_words(high * 1000 + low) == cardinal_words(high * 1000) + (if low < 100 {
            " and "@
        } else {
            ", "@
        }) + cardinal_words(low),
{
    assert((high * 1000 + low) / 1000 == high && (high * 1000 + low) % 1000 == low);
    assert((high * 1000) / 1000 == high && (high * 1000) % 1000 == 0);
}

/// Groups that carry a scale are joined by a comma, the larger before the smaller.
pub proof fn larger_groups_are_joined(high: int, group: int, scale: nat)
    requires
        high > 0,
        0 < group < 1000,
        1 <= scale <= 5,
        (high * 1000 + group) * thousands(scale) <= i64::MAX,
    ensures
        cardinal_words((high * 1000 + group) * thousands(scale)) == cardinal_words(
            high * thousands(scale + 1),
        ) + ", "@ + (cardinal_words(group) + " "@ + SCALES@[scale as int]@),
{
    let v = high * 1000 + group;
    whole_groups(v, scale);
    whole_groups(high, scale + 1);
    assert(v / 1000 == high && v % 1000 == group);
}

/// An ordinal differs from its cardinal in the last word alone: what stands before it stays, to
/// the space or the hyphen, and the word itself holds neither.
pub proof fn ordinals_change_the_last_word(n: i64)
    requires
        n != i64::MIN,
    ensures
        ({
            let words = cardinal_words(n as int);
            let p = last_word_start(words);
            &&& 0 <= p <= words.len()
            &&& p == 0 || words[p - 1] == ' ' || words[p - 1] == '-'
            &&& forall|k: int| p <= k < words.len() ==> words[k] != ' ' && words[k] != '-'
            &&& ordinal_words(n as int) == words.take(p) + ordinal_word(words.skip(p))
        }),
{
    let words = cardinal_words(n as int);
    let s = last_piece(words, ' ');
    last_piece_bounds(words, ' ');
    let tail = words.skip(s);
    let h = last_piece(tail, '-');
    last_piece_bounds(tail, '-');
    let p = s + h;
    if h > 0 {
        assert(words[p - 1] == tail[h - 1]);
    }
    assert forall|k: int| p <= k < words.len() implies words[k] != ' ' && words[k] != '-' by {
        assert(words[k] == tail[k - s]);
    }
}

proof fn first_index_stays(s: Seq<char>, c: char, d: char)
    requires
        first_index(s, c) < s.len(),
    ensures
        first_index(s.push(d), c) == first_index(s, c),
    decreases s.len(),
{
    assert(s.push(d)[0] == s[0]);
    if s[0] != c {
        assert(s.push(d).skip(1) =~= s.skip(1).push(d));
        first_index_stays(s.skip(1), c, d);
    }
}

/// A zero at the end of a fraction is not spoken.
pub proof fn trailing_zeros_are_silent(s: Seq<char>)
    requires
        s.contains('.'),
    ensures
        decimal_words(s.push('0')) == decimal_words(s),
{
    let dot = first_index(s, '.');
    first_index_bounds(s, '.');
    let at = choose|k: int| 0 <= k < s.len() && s[k] == '.';
    assert(s[at] == '.');
    first_index_stays(s, '.', '0');
    let longer = s.push('0');
    assert(longer.take(dot) =~= s.take(dot));
    let after = s.skip(dot + 1);
    assert(longer.skip(dot + 1) =~= after.push('0'));
    assert(after.push('0').drop_last() =~= after);
    trimmed_fits(after);
    assert(after.push('0').take(trimmed_len(after, '0')) =~= after.take(trimmed_len(after, '0')));
}

proof fn trimmed_fits(s: Seq<char>)
    ensures
        0 <= trimmed_len(s, '0') <= s.len(),
    decreases s.len(),
{
    if s.len() > 0 && s.last() == '0' {
        trimmed_fits(s.drop_last());
    }
}

/// The names that every other number is made of: one word for each number below twenty, and one
/// for each of the tens.
pub proof fn small_numbers_have_names()
    ensures
        cardinal_words(0) == "zero"@,
        cardinal_words(1) == "one"@,
        cardinal_words(2) == "two"@,
        cardinal_words(3) == "three"@,
        cardinal_words(4) == "four"@,
        cardinal_words(5) == "five"@,
        cardinal_words(6) == "six"@,
        cardinal_words(7) == "seven"@,
        cardinal_words(8) == "eight"@,
        cardinal_words(9) == "nine"@,
        cardinal_words(10) == "ten"@,
        cardinal_words(11) == "eleven"@,
        cardinal_words(12) == "twelve"@,
        cardinal_words(13) == "thirteen"@,
        cardinal_words(14) == "fourteen"@,
        cardinal_words(15) == "fifteen"@,
        cardinal_words(16) == "sixteen"@,
        cardinal_words(17) == "seventeen"@,
        cardinal_words(18) == "eighteen"@,
        cardinal_words(19) == "nineteen"@,
        cardinal_words(20) == "twenty"@,
        cardinal_words(30) == "thirty"@,
        cardinal_words(40) == "forty"@,
        cardinal_words(50) == "fifty"@,
        cardinal_words(60) == "sixty"@,
        cardinal_words(70) == "seventy"@,
        cardinal_words(80) == "eighty"@,
        cardinal_words(90) == "ninety"@,
{
}

/// Between the tens a number is read as the ten below it, a hyphen and the unit.
pub proof fn tens_and_units_are_hyphenated(v: int)
    requires
        20 < v < 100,
        v % 10 != 0,
    ensures
        cardinal_words(v) == cardinal_words(v - v % 10) + "-"@ + cardinal_words(v % 10),
{
    let t = v - v % 10;
    assert(t / 10 == v / 10 && t % 10 == 0 && t >= 20 && t < 100);
}

/// A number of hundreds is read as its hundreds, and what is below one hundred follows "and".
pub proof fn hundreds_come_first(h: int, low: int)
    requires
        1 <= h <= 9,
        0 <= low < 100,
    ensures
        low == 0 ==> cardinal_words(h * 100 + low) == cardinal_words(h) + " hundred"@,
        low > 0 ==> cardinal_words(h * 100 + low) == cardinal_words(h) + " hundred and "@
            + cardinal_words(low),
{
    let v = h * 100 + low;
    assert(v / 100 == h && v % 100 == low);
    reveal_strlit(" hundred");
    reveal_strlit(" and ");
    reveal_strlit(" hundred and ");
    assert(" hundred"@ + " and "@ =~= " hundred and "@);
    assert(cardinal_words(h) + " hundred"@ + " and "@ + cardinal_words(low) =~= cardinal_words(h)
        + " hundred and "@ + cardinal_words(low));
}

/// Round thousands, millions and so on are read as how many there are and the name of the scale.
pub proof fn scales_have_names(h: int)
    requires
        1 <= h < 1000,
    ensures
        cardinal_words(h * 1_000) == cardinal_words(h) + " thousand"@,
        cardinal_words(h * 1_000_000) == cardinal_words(h) + " million"@,
        cardinal_words(h * 1_000_000_000) == cardinal_words(h) + " billion"@,
        cardinal_words(h * 1_000_000_000_000) == cardinal_words(h) + " trillion"@,
        cardinal_words(h * 1_000_000_000_000_000) == cardinal_words(h) + " quadrillion"@,
        cardinal_words(h * 1_000_000_000_000_000_000) == cardinal_words(h) + " quintillion"@,
{
    reveal_with_fuel(thousands, 7);
    reveal_strlit(" ");
    reveal_strlit("thousand");
    reveal_strlit(" thousand");
    reveal_strlit("million");
    reveal_strlit(" million");
    reveal_strlit("billion");
    reveal_strlit(" billion");
    reveal_strlit("trillion");
    reveal_strlit(" trillion");
    reveal_strlit("quadrillion");
    reveal_strlit(" quadrillion");
    reveal_strlit("quintillion");
    reveal_strlit(" quintillion");
    whole_groups(h, 1);
    whole_groups(h, 2);
    whole_groups(h, 3);
    whole_groups(h, 4);
    whole_groups(h, 5);
    whole_groups(h, 6);
    assert(cardinal_words(h * 1_000) =~= cardinal_words(h) + " thousand"@);
    assert(cardinal_words(h * 1_000_000) =~= cardinal_words(h) + " million"@);
    assert(cardinal_words(h * 1_000_000_000) =~= cardinal_words(h) + " billion"@);
    assert(cardinal_words(h * 1_000_000_000_000) =~= cardinal_words(h) + " trillion"@);
    assert(cardinal_words(h * 1_000_000_000_000_000) =~= cardinal_words(h) + " quadrillion"@);
    assert(cardinal_words(h * 1_000_000_000_000_000_000) =~= cardinal_words(h) + " quintillion"@);
}

/// A year of four figures or three is read in two halves. The lower half follows as it is from
/// ten on; one of a single figure follows an "oh", and an empty one is a "hundred", unless the
/// upper half is round: then, as for a year without an upper half, the year is a plain number.
pub proof fn years_are_read_in_halves(h: int, l: int)
    requires
        0 <= h < 100,
        0 <= l < 100,
    ensures
        h > 0 && l >= 10 ==> year_words(h * 100 + l) == cardinal_words(h) + " "@ + cardinal_words(l),
        h % 10 != 0 && 1 <= l <= 9 ==> year_words(h * 100 + l) == cardinal_words(h) + " oh-"@
            + cardinal_words(l),
        h % 10 != 0 && l == 0 ==> year_words(h * 100 + l) == cardinal_words(h) + " hundred"@,
        h == 0 || (h % 10 == 0 && l <= 9) ==> year_words(h * 100 + l) == cardinal_words(
            h * 100 + l,
        ),
{
    let n = h * 100 + l;
    assert(n / 100 == h && n % 100 == l);
    reveal_strlit(" ");
    reveal_strlit("oh-");
    reveal_strlit(" oh-");
    reveal_strlit("hundred");
    reveal_strlit(" hundred");
    if h % 10 != 0 && 1 <= l <= 9 {
        assert(year_words(n) =~= cardinal_words(h) + " oh-"@ + cardinal_words(l));
    }
    if h % 10 != 0 && l == 0 {
        assert(year_words(n) =~= cardinal_words(h) + " hundred"@);
    }
}

/// Past 9999 a year is a plain number. A year before the first is read as the same year after it,
/// but for a plain number, which keeps its "minus".
pub proof fn far_and_early_years(n: int)
    requires
        n > 0,
    ensures
        n > 9999 ==> year_words(n) == cardinal_words(n),
        n > 9999 ==> year_words(-n) == "minus "@ + cardinal_words(n),
        year_words(-n) == year_words(n) || year_words(-n) == "minus "@ + year_words(n),
        100 <= n <= 9999 && n % 100 >= 10 ==> year_words(-n) == year_words(n),
{
}

/// The last word of an ordinal: seven are irregular, a final "y" becomes "ieth", and every other
/// word takes "th".
pub proof fn ordinals_are_formed(w: Seq<char>)
    ensures
        ordinal_word("one"@) == "first"@,
        ordinal_word("two"@) == "second"@,
        ordinal_word("three"@) == "third"@,
        ordinal_word("five"@) == "fifth"@,
        ordinal_word("eight"@) == "eighth"@,
        ordinal_word("nine"@) == "ninth"@,
        ordinal_word("twelve"@) == "twelfth"@,
        ordinal_word(w.push('y')) == w + "ieth"@,
        w != "one"@ && w != "two"@ && w != "three"@ && w != "five"@ && w != "eight"@ && w
            != "nine"@ && w != "twelve"@ && (w.len() == 0 || w.last() != 'y') ==> ordinal_word(w)
            == w + "th"@,
{
    reveal_strlit("one");
    reveal_strlit("two");
    reveal_strlit("three");
    reveal_strlit("five");
    reveal_strlit("eight");
    reveal_strlit("nine");
    reveal_strlit("twelve");
    assert("one"@[0] == 'o' && "one"@.last() == 'e');
    assert("two"@[0] == 't' && "two"@.last() == 'o' && "two"@.len() == 3);
    assert("three"@.last() == 'e' && "three"@.len() == 5 && "three"@[0] == 't');
    assert("five"@.last() == 'e' && "five"@.len() == 4 && "five"@[0] == 'f');
    assert("eight"@.last() == 't' && "eight"@.len() == 5);
    assert("nine"@.last() == 'e' && "nine"@.len() == 4 && "nine"@[0] == 'n');
    assert("twelve"@.last() == 'e' && "twelve"@.len() == 6);
    assert(w.push('y').last() == 'y');
    assert(w.push('y').drop_last() =~= w);
}

/// A whole number of digits alone is read as the number that they write.
pub proof fn digits_are_a_number(s: Seq<char>)
    requires
        s.len() > 0,
        all_digits(s),
    ensures
        digits_value(s) <= i64::MAX ==> decimal_words(s) == Some(cardinal_words(digits_value(s) as int)),
        digits_value(s) > i64::MAX ==> decimal_words(s) is None,
{
    first_index_bounds(s, '.');
    let dot = first_index(s, '.');
    if dot < s.len() {
        assert(is_digit(s[dot]));
    }
    assert(s.take(dot) =~= s);
    assert(is_digit(s[0]));
    assert(s.skip(0) =~= s);
    let none = Seq::<char>::empty();
    assert(none.take(0) =~= none);
}

/// One more digit behind a fraction is one more word behind its words: the name of the digit.
pub proof fn fractions_are_read_digit_by_digit(s: Seq<char>, d: char)
    requires
        s.contains('.'),
        s.last() != '0',
        s.last() != '.',
        decimal_words(s) is Some,
        '1' as u32 <= d as u32 <= '9' as u32,
    ensures
        decimal_words(s.push(d)) == Some(
            decimal_words(s).unwrap() + " "@ + cardinal_words(d as u32 - '0' as u32),
        ),
{
    let dot = first_index(s, '.');
    first_index_bounds(s, '.');
    let at = choose|k: int| 0 <= k < s.len() && s[k] == '.';
    assert(s[at] == '.');
    first_index_stays(s, '.', d);
    let longer = s.push(d);
    assert(longer.take(dot) =~= s.take(dot));
    let after = s.skip(dot + 1);
    assert(s[dot] == '.');
    assert(dot + 1 < s.len());
    assert(after.last() == s.last());
    assert(longer.skip(dot + 1) =~= after.push(d));
    assert(after.take(after.len() as int) =~= after);
    assert(after.push(d).take(after.push(d).len() as int) =~= after.push(d));
    assert(after.push(d).drop_last() =~= after);
    assert(all_digits(after));
    assert forall|i: int| 0 <= i < after.push(d).len() implies is_digit(
        #[trigger] after.push(d)[i],
    ) by {
        if i < after.len() {
            assert(is_digit(after[i]));
        }
    }
    let head = decimal_words(s).unwrap();
    assert(decimal_words(longer).unwrap() =~= head + " "@ + cardinal_words(
        d as u32 - '0' as u32,
    ));
}

} // verus!
