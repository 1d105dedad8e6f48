//! English number words.
//!
//! The words are an intermediate: the lexicon splits them on everything outside `a` to `z`
//! and looks each up, so hyphens and commas do not matter but "and" does. It is spoken
//! only where the token asks for it.

use crate::text::{
    all_digits, cat, cat3, chars_of, ends_with_char, first_index, index_of_char, is_digit, last_piece,
    last_piece_start, leading_run, leading_run_len, leading_run_stops, parse_whole, slice_of, str_eq,
    string_of, trim_end_len, trimmed_len, whole_number,
};
use vstd::prelude::*;
use vstd::string::*;

verus! {

pub const ONES: [&'static str; 20] = [
    "zero",
    "one",
    "two",
    "three",
    "four",
    "five",
    "six",
    "seven",
    "eight",
    "nine",
    "ten",
    "eleven",
    "twelve",
    "thirteen",
    "fourteen",
    "fifteen",
    "sixteen",
    "seventeen",
    "eighteen",
    "nineteen",
];

pub const TENS: [&'static str; 10] = [
    "",
    "",
    "twenty",
    "thirty",
    "forty",
    "fifty",
    "sixty",
    "seventy",
    "eighty",
    "ninety",
];

pub const SCALES: [&'static str; 7] = [
    "",
    "thousand",
    "million",
    "billion",
    "trillion",
    "quadrillion",
    "quintillion",
];

/// The words of a number below one hundred.
pub open spec fn words_under_100(v: int) -> Seq<char> {
    if v < 20 {
        ONES@[v]@
    } else if v % 10 == 0 {
        TENS@[v / 10]@
    } else {
        TENS@[v / 10]@ + "-"@ + ONES@[v % 10]@
    }
}

/// The words of a number below one thousand.
pub open spec fn words_under_1000(v: int) -> Seq<char> {
    let hundred = ONES@[v / 100]@ + " hundred"@;
    if v / 100 == 0 {
        words_under_100(v % 100)
    } else if v % 100 == 0 {
        hundred
    } else {
        hundred + " and "@ + words_under_100(v % 100)
    }
}

/// The words of `v` groups of a thousand to the power `scale`, largest group first, joined
/// by commas, with the empty groups left out.
pub open spec fn words_of_groups(v: int, scale: int) -> Seq<char>
    decreases v,
{
    let part = words_under_1000(v % 1000) + " "@ + SCALES@[scale]@;
    if v < 1000 {
        part
    } else if v % 1000 == 0 {
        words_of_groups(v / 1000, scale + 1)
    } else {
        words_of_groups(v / 1000, scale + 1) + ", "@ + part
    }
}

/// The words of a number that is not negative. The last group joins with "and" when it is
/// a bare tens-or-units, and with a comma once it reaches a hundred.
pub open spec fn words_of_natural(v: int) -> Seq<char> {
    if v < 1000 {
        words_under_1000(v)
    } else if v % 1000 == 0 {
        words_of_groups(v / 1000, 1)
    } else {
        words_of_groups(v / 1000, 1) + (if v % 1000 < 100 {
            " and "@
        } else {
            ", "@
        }) + words_under_1000(v % 1000)
    }
}

/// The words of a whole number.
pub open spec fn cardinal_words(n: int) -> Seq<char> {
    if n < 0 {
        "minus "@ + words_of_natural(-n)
    } else {
        words_of_natural(n)
    }
}

fn under_100(v: u64) -> (r: String)
    requires
        v < 100,
    ensures
        r@ == words_under_100(v as int),
{
    if v < 20 {
        return ONES[v as usize].to_owned();
    }
    let t: u64 = v / 10;
    let o: u64 = v % 10;
    if o == 0 {
        TENS[t as usize].to_owned()
    } else {
        cat3(TENS[t as usize], "-", ONES[o as usize])
    }
}

fn under_1000(v: u64) -> (r: String)
    requires
        v < 1000,
    ensures
        r@ == words_under_1000(v as int),
{
    let h: u64 = v / 100;
    let rest: u64 = v % 100;
    if h == 0 {
        return under_100(rest);
    }
    let head = cat(ONES[h as usize], " hundred");
    if rest == 0 {
        head
    } else {
        let tail = under_100(rest);
        cat3(head.as_str(), " and ", tail.as_str())
    }
}

/// A bound on the groups that remain at a scale.
spec fn group_limit(scale: int) -> int {
    if scale == 1 {
        1_000_000_000_000_000_000
    } else if scale == 2 {
        1_000_000_000_000_000
    } else if scale == 3 {
        1_000_000_000_000
    } else if scale == 4 {
        1_000_000_000
    } else if scale == 5 {
        1_000_000
    } else {
        1000
    }
}

fn groups(v: u64, scale: usize) -> (r: String)
    requires
        1 <= scale <= 6,
        v < group_limit(scale as int),
    ensures
        r@ == words_of_groups(v as int, scale as int),
    decreases v,
{
    if v < 1000 {
        let words = under_1000(v);
        return cat3(words.as_str(), " ", SCALES[scale]);
    }
    let head = groups(v / 1000, scale + 1);
    if v % 1000 == 0 {
        head
    } else {
        let words = under_1000(v % 1000);
        let part = cat3(words.as_str(), " ", SCALES[scale]);
        cat3(head.as_str(), ", ", part.as_str())
    }
}

/// The words of a whole number: 1234 is "one thousand, two hundred and thirty-four".
pub fn cardinal(n: i64) -> (r: String)
    requires
        n != i64::MIN,
    ensures
        r@ == cardinal_words(n as int),
{
    if n < 0 {
        let words = natural((-n) as u64);
        return cat("minus ", words.as_str());
    }
    natural(n as u64)
}

fn natural(v: u64) -> (r: String)
    requires
        v <= i64::MAX,
    ensures
        r@ == words_of_natural(v as int),
{
    if v < 1000 {
        return under_1000(v);
    }
    let head = groups(v / 1000, 1);
    let low: u64 = v % 1000;
    if low == 0 {
        return head;
    }
    let tail = under_1000(low);
    if low < 100 {
        cat3(head.as_str(), " and ", tail.as_str())
    } else {
        cat3(head.as_str(), ", ", tail.as_str())
    }
}

/// The ordinal of a single number word.
pub open spec fn ordinal_word(w: Seq<char>) -> Seq<char> {
    if w == "one"@ {
        "first"@
    } else if w == "two"@ {
        "second"@
    } else if w == "three"@ {
        "third"@
    } else if w == "five"@ {
        "fifth"@
    } else if w == "eight"@ {
        "eighth"@
    } else if w == "nine"@ {
        "ninth"@
    } else if w == "twelve"@ {
        "twelfth"@
    } else if w.len() > 0 && w.last() == 'y' {
        w.drop_last() + "ieth"@
    } else {
        w + "th"@
    }
}

/// Where the last word of a number begins: behind the last space, and behind the last
/// hyphen after that.
pub open spec fn last_word_start(words: Seq<char>) -> int {
    let p = last_piece(words, ' ');
    p + last_piece(words.skip(p), '-')
}

/// The words of an ordinal: those of the number, with the last word made ordinal.
pub open spec fn ordinal_words(n: int) -> Seq<char> {
    let words = cardinal_words(n);
    let p = last_word_start(words);
    words.take(p) + ordinal_word(words.skip(p))
}

fn ordinal_of_word(w: &str) -> (r: String)
    ensures
        r@ == ordinal_word(w@),
{
    if str_eq(w, "one") {
        return "first".to_owned();
    }
    if str_eq(w, "two") {
        return "second".to_owned();
    }
    if str_eq(w, "three") {
        return "third".to_owned();
    }
    if str_eq(w, "five") {
        return "fifth".to_owned();
    }
    if str_eq(w, "eight") {
        return "eighth".to_owned();
    }
    if str_eq(w, "nine") {
        return "ninth".to_owned();
    }
    if str_eq(w, "twelve") {
        return "twelfth".to_owned();
    }
    if ends_with_char(w, 'y') {
        let n: usize = w.unicode_len();
        return cat(w.substring_char(0, n - 1), "ieth");
    }
    cat(w, "th")
}

/// The words of an ordinal: 40 is "fortieth".
pub fn ordinal(n: i64) -> (r: String)
    requires
        n != i64::MIN,
    ensures
        r@ == ordinal_words(n as int),
{
    let words = cardinal(n);
    let chars = chars_of(words.as_str());
    let p: usize = last_piece_start(&chars, ' ');
    let tail = string_of(&chars, p, chars.len());
    let tail_chars = chars_of(tail.as_str());
    assert(tail_chars@ =~= chars@.skip(p as int));
    let q: usize = last_piece_start(&tail_chars, '-');
    let head = string_of(&chars, 0, p + q);
    let word = string_of(&chars, p + q, chars.len());
    assert(word@ =~= words@.skip(p + q));
    let last = ordinal_of_word(word.as_str());
    cat(head.as_str(), last.as_str())
}

/// The words of a year. 00XX, X00X and anything past 9999 are read as plain numbers.
pub open spec fn year_words(n: int) -> Seq<char> {
    let v = if n < 0 {
        -n
    } else {
        n
    };
    let high = v / 100;
    let low = v % 100;
    if high == 0 || (high % 10 == 0 && low < 10) || high >= 100 {
        cardinal_words(n)
    } else {
        cardinal_words(high) + " "@ + (if low == 0 {
            "hundred"@
        } else if low < 10 {
            "oh-"@ + cardinal_words(low)
        } else {
            cardinal_words(low)
        })
    }
}

/// The words of a year: 905 is "nine oh-five".
pub fn year(n: i64) -> (r: String)
    requires
        n != i64::MIN,
    ensures
        r@ == year_words(n as int),
{
    let v: i64 = if n < 0 {
        -n
    } else {
        n
    };
    let high: i64 = v / 100;
    let low: i64 = v % 100;
    if high == 0 || (high % 10 == 0 && low < 10) || high >= 100 {
        return cardinal(n);
    }
    let head = cardinal(high);
    let tail = if low == 0 {
        "hundred".to_owned()
    } else if low < 10 {
        let words = cardinal(low);
        cat("oh-", words.as_str())
    } else {
        cardinal(low)
    };
    cat3(head.as_str(), " ", tail.as_str())
}

/// The words of the digits of a fraction, a space before each.
pub open spec fn digit_words(s: Seq<char>) -> Seq<char>
    decreases s.len(),
{
    if s.len() == 0 {
        Seq::empty()
    } else {
        digit_words(s.drop_last()) + " "@ + ONES@[s.last() as u32 - '0' as u32]@
    }
}

/// The words of a number written with or without a fraction. The sign is a run of hyphens,
/// no digits before the point are a zero, and zeros at the end of the fraction are not
/// spoken.
pub open spec fn decimal_words(s: Seq<char>) -> Option<Seq<char>> {
    let dot = first_index(s, '.');
    let before = s.take(dot);
    let after = if dot < s.len() {
        s.skip(dot + 1)
    } else {
        Seq::empty()
    };
    let fraction = after.take(trimmed_len(after, '0'));
    let digits = before.skip(leading_run(before, '-'));
    let whole = if digits.len() == 0 {
        Some(0int)
    } else {
        whole_number(digits)
    };
    if whole is None || !all_digits(fraction) {
        None
    } else {
        let head = cardinal_words(
            if before.len() > 0 && before[0] == '-' {
                -whole.unwrap()
            } else {
                whole.unwrap()
            },
        );
        if fraction.len() == 0 {
            Some(head)
        } else {
            Some(head + " point"@ + digit_words(fraction))
        }
    }
}

/// The words of a decimal string, not of a float: "12.30" is "twelve point three", and the
/// fraction is read digit by digit.
pub fn decimal(s: &str) -> (r: Option<String>)
    ensures
        match r {
            Some(words) => decimal_words(s@) == Some(words@),
            None => decimal_words(s@) is None,
        },
{
    let chars = chars_of(s);
    let dot: usize = index_of_char(&chars, '.');
    let before = slice_of(&chars, 0, dot);
    let after = if dot < chars.len() {
        slice_of(&chars, dot + 1, chars.len())
    } else {
        Vec::new()
    };
    let end: usize = trim_end_len(&after, after.len(), '0');
    assert(after@.take(after@.len() as int) =~= after@);
    let ghost fraction = after@.take(end as int);
    let negative = before.len() > 0 && before[0] == '-';
    let sign: usize = leading_run_len(&before, '-');
    let digits = slice_of(&before, sign, before.len());
    proof {
        leading_run_stops(before@, '-');
        assert(digits@ =~= before@.skip(leading_run(before@, '-')));
    }
    let whole: i64 = if digits.len() == 0 {
        0
    } else {
        match parse_whole(&digits) {
            Some(v) => v,
            None => {
                return None;
            },
        }
    };
    let head = cardinal(
        if negative {
            -whole
        } else {
            whole
        },
    );
    if end == 0 {
        return Some(head);
    }
    let mut out = cat(head.as_str(), " point");
    let mut i: usize = 0;
    while i < end
        invariant
            i <= end <= after@.len(),
            fraction == after@.take(end as int),
            !all_digits(fraction) ==> decimal_words(s@) is None,
            all_digits(fraction.take(i as int)),
            out@ == head@ + " point"@ + digit_words(fraction.take(i as int)),
        decreases end - i,
    {
        let c: u32 = after[i] as u32;
        assert(fraction[i as int] == after@[i as int]);
        if c < '0' as u32 || c > '9' as u32 {
            assert(!all_digits(fraction));
            return None;
        }
        out.append(" ");
        out.append(ONES[(c - '0' as u32) as usize]);
        proof {
            let next = fraction.take(i + 1);
            assert(next.drop_last() =~= fraction.take(i as int));
            assert forall|k: int| 0 <= k < next.len() implies is_digit(#[trigger] next[k]) by {
                if k < i {
                    assert(fraction.take(i as int)[k] == fraction[k]);
                }
            }
            assert(out@ =~= head@ + " point"@ + digit_words(next));
        }
        i = i + 1;
    }
    assert(fraction.take(end as int) =~= fraction);
    Some(out)
}

} // verus!
