//! Numbers, years, ordinals, telephone digits and amounts of money, as phonemes.

use crate::affix::{rated, with_ed, with_ing, with_s};
use crate::lexicon::{
    currency_units, hit_view, opt_chars, opt_str, units_of, Hit, Lexicon, LexiconView,
};
use crate::num2words::{
    cardinal, cardinal_words, decimal, decimal_words, digit_words, ordinal, ordinal_words, year,
    year_words, ONES,
};
use crate::stress::STRIP;
use crate::text::{
    all_digits, cat, cat3, chars_of, contains_char, count_char, count_of, ends_with, first_index,
    first_index_bounds, index_of_char, is_digit, is_digits, is_small, parse_whole, piece_members, remove_char,
    slice_of, split_at_char, split_on, str_eq, string_of, strings, strip_suffix, whole_number,
    without, without_members,
};
use vstd::prelude::*;
use vstd::string::*;

verus! {

/// A list of hits as plain characters.
pub open spec fn hits_view(v: Seq<Hit>) -> Seq<(Seq<char>, u8)> {
    v.map_values(|h: Hit| (h.0@, h.1))
}

/// The length of the run of small letters at the start.
pub open spec fn small_run(s: Seq<char>) -> nat
    decreases s.len(),
{
    if s.len() > 0 && is_small(s[0]) {
        1 + small_run(s.skip(1))
    } else {
        0
    }
}

/// The length of the run at the start that has no small letter.
pub open spec fn other_run(s: Seq<char>) -> nat
    decreases s.len(),
{
    if s.len() > 0 && !is_small(s[0]) {
        1 + other_run(s.skip(1))
    } else {
        0
    }
}

/// The words of a text, split on everything outside `a` to `z`. Empty edges count.
pub open spec fn lower_pieces(s: Seq<char>) -> Seq<Seq<char>>
    decreases s.len(),
    via lower_pieces_shrink
{
    let n = small_run(s) as int;
    if n >= s.len() {
        seq![s]
    } else {
        seq![s.take(n)] + lower_pieces(s.skip(n + other_run(s.skip(n)) as int))
    }
}

#[via_fn]
proof fn lower_pieces_shrink(s: Seq<char>) {
    let n = small_run(s) as int;
    small_run_stops(s);
    if n < s.len() {
        other_run_fits(s.skip(n));
    }
}

proof fn small_run_stops(s: Seq<char>)
    ensures
        small_run(s) <= s.len(),
        small_run(s) < s.len() ==> !is_small(s[small_run(s) as int]),
    decreases s.len(),
{
    if s.len() > 0 && is_small(s[0]) {
        small_run_stops(s.skip(1));
    }
}

proof fn other_run_fits(s: Seq<char>)
    ensures
        other_run(s) <= s.len(),
    decreases s.len(),
{
    if s.len() > 0 && !is_small(s[0]) {
        other_run_fits(s.skip(1));
    }
}

/// Where the run of small letters and apostrophes at the end begins.
pub open spec fn ending_start(word: Seq<char>) -> int
    decreases word.len(),
{
    if word.len() > 0 && (is_small(word.last()) || word.last() == '\'') {
        ending_start(word.drop_last())
    } else {
        word.len() as int
    }
}

/// The letters behind a number, as the "th" of "4th".
pub open spec fn ending(word: Seq<char>) -> Seq<char> {
    word.skip(ending_start(word))
}

/// Whether a number begins with a minus sign.
pub open spec fn is_negative(word: Seq<char>) -> bool {
    ending_start(word) > 0 && word[0] == '-'
}

/// A number without its ending and its minus sign.
pub open spec fn body(word: Seq<char>) -> Seq<char> {
    if is_negative(word) {
        word.subrange(1, ending_start(word))
    } else {
        word.take(ending_start(word))
    }
}

/// One of "st", "nd", "rd" and "th".
pub open spec fn ordinal_ending(s: Seq<char>) -> bool {
    s == "st"@ || s == "nd"@ || s == "rd"@ || s == "th"@
}

/// At least one character, and only digits.
pub open spec fn digits_only(s: Seq<char>) -> bool {
    s.len() > 0 && all_digits(s)
}

/// Only zeros.
pub open spec fn all_zeros(s: Seq<char>) -> bool {
    forall|i: int| 0 <= i < s.len() ==> #[trigger] s[i] == '0'
}

/// An amount of money: a whole number, or one with at most two decimals that count.
pub open spec fn currency_amount(b: Seq<char>) -> bool {
    let cents = b.skip(first_index(b, '.') + 1);
    count_of(b, '.') == 0 || (count_of(b, '.') == 1 && (cents.len() < 3 || all_zeros(cents)))
}

/// The units of an optional currency sign.
pub open spec fn units_in(currency: Option<Seq<char>>) -> Option<(Seq<char>, Seq<char>)> {
    match currency {
        Some(c) => units_of(c),
        None => None,
    }
}

/// A group of digits that is read digit by digit.
pub open spec fn read_by_digit(group: Seq<char>) -> bool {
    group[0] == '0' || (group.len() != 2 && !all_zeros(group.skip(1)))
}

/// The lowest rating of a list of hits.
pub open spec fn lowest(hits: Seq<(Seq<char>, u8)>) -> u8
    decreases hits.len(),
{
    if hits.len() <= 1 {
        hits[0].1
    } else {
        let low = lowest(hits.drop_last());
        if hits.last().1 < low {
            hits.last().1
        } else {
            low
        }
    }
}

/// The phonemes of a list of hits, a space between each two.
pub open spec fn spaced(hits: Seq<(Seq<char>, u8)>) -> Seq<char>
    decreases hits.len(),
{
    if hits.len() == 0 {
        Seq::empty()
    } else if hits.len() == 1 {
        hits[0].0
    } else {
        spaced(hits.drop_last()) + " "@ + hits.last().0
    }
}

/// A list of hits and perhaps one more.
pub open spec fn and_then(
    hits: Seq<(Seq<char>, u8)>,
    hit: Option<(Seq<char>, u8)>,
) -> Seq<(Seq<char>, u8)> {
    match hit {
        Some(h) => hits.push(h),
        None => hits,
    }
}

/// Whether a number can be read: reading it by groups never cuts inside a character, and no
/// part of it is the smallest 64-bit number, whose opposite has no such form.
pub open spec fn readable(word: Seq<char>, currency: Option<Seq<char>>, is_head: bool) -> bool {
    let b = body(word);
    let plain = without(b, ',');
    let pieces = split_on(plain, '.');
    &&& (!is_head && !b.contains('.') && plain.len() == 3 && !"00"@.is_suffix_of(plain)
        && plain[1] != '0') ==> (plain[0] as u32) < 128
    &&& (is_head && count_of(b, '.') <= 1 && (!b.contains('.') || (units_in(currency) is Some
        && currency_amount(b)))) ==> forall|i: int|
        0 <= i < pieces.len() ==> whole_number(#[trigger] pieces[i]) != Some(i64::MIN as int)
}

impl LexiconView {
    /// The hits after the first `n` words of a number. "and" is left out unless the flags
    /// ask for it, or for its short form on the word before.
    pub open spec fn say_pieces(
        self,
        hits: Seq<(Seq<char>, u8)>,
        pieces: Seq<Seq<char>>,
        n: int,
        first: bool,
        flags: Seq<char>,
    ) -> Seq<(Seq<char>, u8)>
        decreases n,
    {
        if n <= 0 {
            hits
        } else {
            let r = self.say_pieces(hits, pieces, n - 1, first, flags);
            let w = pieces[n - 1];
            if w == "and"@ && !flags.contains('&') {
                if flags.contains('n') && r.len() > 0 {
                    r.drop_last().push((r.last().0 + "ən"@, r.last().1))
                } else {
                    r
                }
            } else if first && n == 1 && pieces.len() > 1 && w == "one"@ && flags.contains('a') {
                r.push(("ə"@, 4u8))
            } else if w == "point"@ {
                and_then(r, self.lookup(w, ""@, Some(STRIP), None))
            } else {
                and_then(r, self.lookup(w, ""@, None, None))
            }
        }
    }

    /// The hits after a number's words.
    pub open spec fn say(
        self,
        hits: Seq<(Seq<char>, u8)>,
        words: Seq<char>,
        first: bool,
        flags: Seq<char>,
    ) -> Seq<(Seq<char>, u8)> {
        let pieces = lower_pieces(words);
        self.say_pieces(hits, pieces, pieces.len() as int, first, flags)
    }

    /// The hits after a whole number, where the text is one.
    pub open spec fn say_int(
        self,
        hits: Seq<(Seq<char>, u8)>,
        num: Seq<char>,
        first: bool,
        flags: Seq<char>,
    ) -> Seq<(Seq<char>, u8)> {
        match whole_number(num) {
            Some(v) => self.say(hits, cardinal_words(v), first, flags),
            None => hits,
        }
    }

    /// The hits after each character of a number on its own.
    pub open spec fn say_digits(
        self,
        hits: Seq<(Seq<char>, u8)>,
        num: Seq<char>,
        flags: Seq<char>,
    ) -> Seq<(Seq<char>, u8)>
        decreases num.len(),
    {
        if num.len() == 0 {
            hits
        } else {
            self.say_int(
                self.say_digits(hits, num.drop_last(), flags),
                seq![num.last()],
                false,
                flags,
            )
        }
    }

    /// The hits after a number inside a sentence without a point: a long one digit by
    /// digit, one of three digits as "one twenty-three" or "one oh three".
    pub open spec fn say_inner(
        self,
        hits: Seq<(Seq<char>, u8)>,
        num: Seq<char>,
        flags: Seq<char>,
    ) -> Seq<(Seq<char>, u8)> {
        if (num.len() > 0 && num[0] == '0') || num.len() > 3 {
            self.say_digits(hits, num, flags)
        } else if num.len() == 3 && !"00"@.is_suffix_of(num) {
            let head = self.say_int(hits, seq![num[0]], true, flags);
            if num[1] == '0' {
                self.say_int(
                    and_then(head, self.lookup("O"@, ""@, Some(STRIP), None)),
                    seq![num[2]],
                    false,
                    flags,
                )
            } else {
                self.say_int(head, num.skip(1), false, flags)
            }
        } else {
            self.say_int(hits, num, true, flags)
        }
    }

    /// The hits after the first `n` groups of a dotted number, as a version or an address.
    pub open spec fn say_groups(
        self,
        hits: Seq<(Seq<char>, u8)>,
        groups: Seq<Seq<char>>,
        n: int,
        flags: Seq<char>,
    ) -> Seq<(Seq<char>, u8)>
        decreases n,
    {
        if n <= 0 {
            hits
        } else {
            let r = self.say_groups(hits, groups, n - 1, flags);
            let group = groups[n - 1];
            if group.len() == 0 {
                r
            } else if read_by_digit(group) {
                self.say_digits(r, group, flags)
            } else {
                self.say_int(r, group, n == 1, flags)
            }
        }
    }

    /// The hits after an amount and its unit, which takes the plural unless the amount is
    /// one or the unit is its own plural.
    pub open spec fn say_amount(
        self,
        hits: Seq<(Seq<char>, u8)>,
        amount: int,
        unit: Seq<char>,
        first: bool,
        flags: Seq<char>,
    ) -> Seq<(Seq<char>, u8)> {
        let said = self.say(hits, cardinal_words(amount), first, flags);
        if amount != 1 && amount != -1 && unit != "pence"@ {
            and_then(said, self.stem_s(unit + "s"@, ""@, None, None))
        } else {
            and_then(said, self.lookup(unit, ""@, None, None))
        }
    }

    /// The hits after an amount of money. Nothing is said of a part that is zero, unless
    /// both are.
    pub open spec fn say_money(
        self,
        hits: Seq<(Seq<char>, u8)>,
        parts: Seq<Seq<char>>,
        units: (Seq<char>, Seq<char>),
        flags: Seq<char>,
    ) -> Seq<(Seq<char>, u8)> {
        let big = or_zero(whole_number(parts[0]));
        let small = if parts.len() > 1 {
            or_zero(whole_number(parts[1]))
        } else {
            0
        };
        if small == 0 {
            self.say_amount(hits, big, units.0, true, flags)
        } else if big == 0 {
            self.say_amount(hits, small, units.1, true, flags)
        } else {
            self.say_amount(
                and_then(
                    self.say_amount(hits, big, units.0, true, flags),
                    self.lookup("and"@, ""@, None, None),
                ),
                small,
                units.1,
                false,
                flags,
            )
        }
    }

    /// What stands before the number itself: "minus", for a negative one.
    pub open spec fn say_sign(self, word: Seq<char>) -> Seq<(Seq<char>, u8)> {
        if is_negative(word) {
            and_then(Seq::empty(), self.lookup("minus"@, ""@, None, None))
        } else {
            Seq::empty()
        }
    }

    /// All hits of a number without its ending, or nothing where it cannot be read.
    pub open spec fn number_hits(
        self,
        word: Seq<char>,
        currency: Option<Seq<char>>,
        is_head: bool,
        flags: Seq<char>,
    ) -> Option<Seq<(Seq<char>, u8)>> {
        let b = body(word);
        let plain = without(b, ',');
        let sign = self.say_sign(word);
        if digits_only(b) && ordinal_ending(ending(word)) {
            match whole_number(b) {
                Some(v) => Some(self.say(sign, ordinal_words(v), true, flags)),
                None => None,
            }
        } else if sign.len() == 0 && b.len() == 4 && units_in(currency) is None && digits_only(b) {
            match whole_number(b) {
                Some(v) => Some(self.say(sign, year_words(v), true, flags)),
                None => None,
            }
        } else if !is_head && !b.contains('.') {
            Some(self.say_inner(sign, plain, flags))
        } else if count_of(b, '.') > 1 || !is_head {
            let groups = split_on(plain, '.');
            Some(self.say_groups(sign, groups, groups.len() as int, flags))
        } else if units_in(currency) is Some && currency_amount(b) {
            Some(
                self.say_money(sign, split_on(plain, '.'), units_in(currency).unwrap(), flags),
            )
        } else {
            match number_words(b, ordinal_ending(ending(word))) {
                Some(words) => Some(self.say(sign, words, true, flags)),
                None => None,
            }
        }
    }

    /// The phonemes of a number with its ending.
    pub open spec fn number(
        self,
        word: Seq<char>,
        currency: Option<Seq<char>>,
        is_head: bool,
        flags: Seq<char>,
    ) -> Option<(Seq<char>, u8)> {
        match self.number_hits(word, currency, is_head, flags) {
            None => None,
            Some(hits) => if hits.len() == 0 {
                None
            } else {
                let ps = spaced(hits);
                let e = ending(word);
                let spoken = if e == "s"@ || e == "'s"@ {
                    with_s(self.british, ps)
                } else if e == "ed"@ || e == "'d"@ {
                    with_ed(self.british, ps)
                } else if e == "ing"@ {
                    with_ing(self.british, ps)
                } else {
                    Some(ps)
                };
                match spoken {
                    Some(p) => Some((p, lowest(hits))),
                    None => None,
                }
            },
        }
    }

    /// Phonemes with the plural of a currency behind them, where it is known.
    pub open spec fn with_currency(
        self,
        ps: Seq<char>,
        currency: Option<Seq<char>>,
    ) -> Seq<char> {
        match units_in(currency) {
            None => ps,
            Some(units) => match self.stem_s(units.0 + "s"@, ""@, None, None) {
                None => ps,
                Some(hit) => ps + " "@ + hit.0,
            },
        }
    }
}

/// A number, or zero where there is none.
pub open spec fn or_zero(v: Option<int>) -> int {
    match v {
        Some(n) => n,
        None => 0,
    }
}

/// The words of a plain number with or without a point.
pub open spec fn number_words(b: Seq<char>, is_ordinal: bool) -> Option<Seq<char>> {
    let plain = without(b, ',');
    if digits_only(b) {
        match whole_number(b) {
            Some(v) => Some(cardinal_words(v)),
            None => None,
        }
    } else if !b.contains('.') {
        match whole_number(plain) {
            Some(v) => Some(
                if is_ordinal {
                    ordinal_words(v)
                } else {
                    cardinal_words(v)
                },
            ),
            None => None,
        }
    } else if plain.len() > 0 && plain[0] == '.' {
        if all_digits(plain.skip(1)) {
            Some("point"@ + digit_words(plain.skip(1)))
        } else {
            None
        }
    } else {
        decimal_words(plain)
    }
}

/// Whether a string is one of the four ordinal endings.
pub fn is_ordinal_suffix(s: &str) -> (r: bool)
    ensures
        r == ordinal_ending(s@),
{
    str_eq(s, "st") || str_eq(s, "nd") || str_eq(s, "rd") || str_eq(s, "th")
}

fn small_letter(c: char) -> (r: bool)
    ensures
        r == is_small(c),
{
    'a' as u32 <= c as u32 && c as u32 <= 'z' as u32
}

/// The words of a text, split on everything outside `a` to `z`. Empty edges count.
fn split_non_lower(words: &str) -> (r: Vec<String>)
    ensures
        strings(r@) == lower_pieces(words@),
{
    let s = chars_of(words);
    let mut out: Vec<String> = Vec::new();
    let mut start: usize = 0;
    assert(s@.skip(0) =~= s@);
    assert(strings(out@) + lower_pieces(s@) =~= lower_pieces(s@));
    loop
        invariant
            start <= s@.len(),
            s@ == words@,
            lower_pieces(s@) == strings(out@) + lower_pieces(s@.skip(start as int)),
        decreases s.len() - start,
    {
        let ghost rest = s@.skip(start as int);
        let ghost before = out@;
        let mut i: usize = start;
        while i < s.len() && small_letter(s[i])
            invariant
                start <= i <= s@.len(),
                rest == s@.skip(start as int),
                small_run(rest) == (i - start) + small_run(s@.skip(i as int)),
            decreases s.len() - i,
        {
            assert(s@.skip(i as int).skip(1) =~= s@.skip(i + 1));
            i = i + 1;
        }
        let piece = string_of(&s, start, i);
        out.push(piece);
        assert(strings(out@) =~= strings(before).push(piece@));
        if i == s.len() {
            assert(rest =~= piece@);
            assert(strings(out@) =~= strings(before) + seq![rest]);
            return out;
        }
        let mut j: usize = i;
        assert(rest.skip(i - start) =~= s@.skip(i as int));
        while j < s.len() && !small_letter(s[j])
            invariant
                i <= j <= s@.len(),
                other_run(s@.skip(i as int)) == (j - i) + other_run(s@.skip(j as int)),
            decreases s.len() - j,
        {
            assert(s@.skip(j as int).skip(1) =~= s@.skip(j + 1));
            j = j + 1;
        }
        assert(rest.take(i - start) =~= piece@);
        assert(rest.skip(j - start) =~= s@.skip(j as int));
        assert(strings(out@) + lower_pieces(s@.skip(j as int)) =~= strings(before) + lower_pieces(
            rest,
        ));
        start = j;
    }
}

fn push_hit(hits: &mut Vec<Hit>, hit: Option<Hit>)
    ensures
        hits_view(final(hits)@) == and_then(hits_view(old(hits)@), hit_view(hit)),
{
    match hit {
        Some(h) => {
            hits.push(h);
            assert(hits_view(hits@) =~= hits_view(old(hits)@).push((h.0@, h.1)));
        },
        None => {},
    }
}

impl Lexicon {
    fn extend_num(&self, hits: &mut Vec<Hit>, words: &str, first: bool, flags: &str)
        ensures
            hits_view(final(hits)@) == self@.say(hits_view(old(hits)@), words@, first, flags@),
    {
        let pieces = split_non_lower(words);
        let spoken_and = contains_char(flags, '&');
        let short_and = contains_char(flags, 'n');
        let article = contains_char(flags, 'a');
        let mut i: usize = 0;
        while i < pieces.len()
            invariant
                i <= pieces@.len(),
                strings(pieces@) == lower_pieces(words@),
                spoken_and == flags@.contains('&'),
                short_and == flags@.contains('n'),
                article == flags@.contains('a'),
                hits_view(hits@) == self@.say_pieces(
                    hits_view(old(hits)@),
                    strings(pieces@),
                    i as int,
                    first,
                    flags@,
                ),
            decreases pieces.len() - i,
        {
            let w = pieces[i].as_str();
            assert(strings(pieces@)[i as int] == w@);
            let ghost r = hits_view(hits@);
            if str_eq(w, "and") && !spoken_and {
                if short_and && hits.len() > 0 {
                    match hits.pop() {
                        Some(last) => {
                            assert(hits_view(hits@) =~= r.drop_last());
                            let longer = cat(last.0.as_str(), "ən");
                            let ghost h = hits@;
                            hits.push((longer, last.1));
                            assert(hits_view(hits@) =~= hits_view(h).push((longer@, last.1)));
                        },
                        None => {},
                    }
                }
            } else if first && i == 0 && pieces.len() > 1 && str_eq(w, "one") && article {
                push_hit(hits, Some(("ə".to_owned(), 4)));
            } else if str_eq(w, "point") {
                push_hit(hits, self.lookup(w, "", Some(STRIP), None));
            } else {
                push_hit(hits, self.lookup(w, "", None, None));
            }
            i = i + 1;
        }
    }

    fn extend_value(&self, hits: &mut Vec<Hit>, v: i64, first: bool, flags: &str)
        requires
            v != i64::MIN,
        ensures
            hits_view(final(hits)@) == self@.say(
                hits_view(old(hits)@),
                cardinal_words(v as int),
                first,
                flags@,
            ),
    {
        let words = cardinal(v);
        self.extend_num(hits, words.as_str(), first, flags);
    }

    fn extend_int(&self, hits: &mut Vec<Hit>, num: &Vec<char>, first: bool, flags: &str)
        requires
            whole_number(num@) != Some(i64::MIN as int),
        ensures
            hits_view(final(hits)@) == self@.say_int(hits_view(old(hits)@), num@, first, flags@),
    {
        match parse_whole(num) {
            Some(v) => self.extend_value(hits, v, first, flags),
            None => {},
        }
    }

    fn extend_digits(&self, hits: &mut Vec<Hit>, num: &Vec<char>, flags: &str)
        ensures
            hits_view(final(hits)@) == self@.say_digits(hits_view(old(hits)@), num@, flags@),
    {
        let mut i: usize = 0;
        while i < num.len()
            invariant
                i <= num@.len(),
                hits_view(hits@) == self@.say_digits(
                    hits_view(old(hits)@),
                    num@.take(i as int),
                    flags@,
                ),
            decreases num.len() - i,
        {
            assert(num@.take(i + 1).drop_last() =~= num@.take(i as int));
            let one = slice_of(num, i, i + 1);
            assert(one@ =~= seq![num@[i as int]]);
            proof {
                short_numbers_are_small(one@);
            }
            self.extend_int(hits, &one, false, flags);
            i = i + 1;
        }
        assert(num@.take(i as int) =~= num@);
    }

    fn extend_inner(&self, hits: &mut Vec<Hit>, num: &Vec<char>, flags: &str)
        ensures
            hits_view(final(hits)@) == self@.say_inner(hits_view(old(hits)@), num@, flags@),
    {
        let n: usize = num.len();
        if (n > 0 && num[0] == '0') || n > 3 {
            self.extend_digits(hits, num, flags);
            return;
        }
        proof {
            short_numbers_are_small(num@);
        }
        let text = string_of(num, 0, n);
        assert(text@ =~= num@);
        if n == 3 && !ends_with(text.as_str(), "00") {
            let one = slice_of(num, 0, 1);
            assert(one@ =~= seq![num@[0]]);
            proof {
                short_numbers_are_small(one@);
            }
            self.extend_int(hits, &one, true, flags);
            if num[1] == '0' {
                push_hit(hits, self.lookup("O", "", Some(STRIP), None));
                let last = slice_of(num, 2, 3);
                assert(last@ =~= seq![num@[2]]);
                proof {
                    short_numbers_are_small(last@);
                }
                self.extend_int(hits, &last, false, flags);
            } else {
                let rest = slice_of(num, 1, 3);
                assert(rest@ =~= num@.skip(1));
                proof {
                    short_numbers_are_small(rest@);
                }
                self.extend_int(hits, &rest, false, flags);
            }
        } else {
            self.extend_int(hits, num, true, flags);
        }
    }

    fn extend_groups(&self, hits: &mut Vec<Hit>, plain: &Vec<char>, flags: &str)
        ensures
            ({
                let groups = split_on(plain@, '.');
                hits_view(final(hits)@) == self@.say_groups(
                    hits_view(old(hits)@),
                    groups,
                    groups.len() as int,
                    flags@,
                )
            }),
    {
        let groups = split_at_char(plain, '.');
        let mut i: usize = 0;
        while i < groups.len()
            invariant
                i <= groups@.len(),
                strings(groups@) == split_on(plain@, '.'),
                hits_view(hits@) == self@.say_groups(
                    hits_view(old(hits)@),
                    strings(groups@),
                    i as int,
                    flags@,
                ),
            decreases groups.len() - i,
        {
            let group = chars_of(groups[i].as_str());
            assert(strings(groups@)[i as int] == group@);
            if group.len() > 0 {
                let tail = slice_of(&group, 1, group.len());
                assert(tail@ =~= group@.skip(1));
                if group[0] == '0' || (group.len() != 2 && !is_zeros(&tail)) {
                    self.extend_digits(hits, &group, flags);
                } else {
                    proof {
                        if group.len() == 2 {
                            short_numbers_are_small(group@);
                        } else {
                            round_numbers_are_not_smallest(group@);
                        }
                    }
                    self.extend_int(hits, &group, i == 0, flags);
                }
            }
            i = i + 1;
        }
    }

    fn extend_amount(&self, hits: &mut Vec<Hit>, amount: i64, unit: &str, first: bool, flags: &str)
        requires
            amount != i64::MIN,
        ensures
            hits_view(final(hits)@) == self@.say_amount(
                hits_view(old(hits)@),
                amount as int,
                unit@,
                first,
                flags@,
            ),
    {
        self.extend_value(hits, amount, first, flags);
        if amount != 1 && amount != -1 && !str_eq(unit, "pence") {
            let plural = cat(unit, "s");
            push_hit(hits, self.stem_s(plural.as_str(), "", None, None));
        } else {
            push_hit(hits, self.lookup(unit, "", None, None));
        }
    }

    fn extend_money(
        &self,
        hits: &mut Vec<Hit>,
        plain: &Vec<char>,
        units: (&'static str, &'static str),
        flags: &str,
    )
        requires
            forall|i: int|
                0 <= i < split_on(plain@, '.').len() ==> whole_number(
                    #[trigger] split_on(plain@, '.')[i],
                ) != Some(i64::MIN as int),
        ensures
            hits_view(final(hits)@) == self@.say_money(
                hits_view(old(hits)@),
                split_on(plain@, '.'),
                (units.0@, units.1@),
                flags@,
            ),
    {
        let parts = split_at_char(plain, '.');
        assert(strings(parts@)[0] == parts@[0]@);
        let big: i64 = match parse_whole(&chars_of(parts[0].as_str())) {
            Some(v) => v,
            None => 0,
        };
        let small: i64 = if parts.len() > 1 {
            assert(strings(parts@)[1] == parts@[1]@);
            match parse_whole(&chars_of(parts[1].as_str())) {
                Some(v) => v,
                None => 0,
            }
        } else {
            0
        };
        if small == 0 {
            self.extend_amount(hits, big, units.0, true, flags);
        } else if big == 0 {
            self.extend_amount(hits, small, units.1, true, flags);
        } else {
            self.extend_amount(hits, big, units.0, true, flags);
            push_hit(hits, self.lookup("and", "", None, None));
            self.extend_amount(hits, small, units.1, false, flags);
        }
    }
}

/// A number of at most three characters is far from the smallest one.
proof fn short_numbers_are_small(s: Seq<char>)
    requires
        s.len() <= 3,
    ensures
        whole_number(s) != Some(i64::MIN as int),
{
    if whole_number(s) is Some {
        let d = if s[0] == '-' || s[0] == '+' {
            s.skip(1)
        } else {
            s
        };
        short_digits_are_small(d);
    }
}

proof fn short_digits_are_small(d: Seq<char>)
    requires
        d.len() <= 3,
        all_digits(d),
    ensures
        crate::text::digits_value(d) < 1000,
{
    reveal_with_fuel(crate::text::digits_value, 4);
    assert(forall|i: int| 0 <= i < d.len() ==> is_digit(#[trigger] d[i]));
    if d.len() > 0 {
        let e = d.drop_last();
        assert(is_digit(d[d.len() - 1]));
        if e.len() > 0 {
            assert(is_digit(d[e.len() - 1]));
            assert(e.last() == d[e.len() - 1]);
            let f = e.drop_last();
            if f.len() > 0 {
                assert(f.last() == d[f.len() - 1]);
                assert(is_digit(d[f.len() - 1]));
                assert(f.drop_last().len() == 0);
            }
        }
    }
}

/// A number that continues with zeros only is not the smallest one.
proof fn round_numbers_are_not_smallest(s: Seq<char>)
    requires
        s.len() > 0,
        all_zeros(s.skip(1)),
    ensures
        whole_number(s) != Some(i64::MIN as int),
{
    if s[0] == '-' {
        zeros_are_zero(s.skip(1));
    }
}

proof fn zeros_are_zero(s: Seq<char>)
    requires
        all_zeros(s),
    ensures
        crate::text::digits_value(s) == 0,
    decreases s.len(),
{
    if s.len() > 0 {
        let t = s.drop_last();
        assert(forall|i: int| 0 <= i < t.len() ==> #[trigger] t[i] == s[i]);
        zeros_are_zero(t);
        assert(s[s.len() - 1] == '0');
    }
}

fn is_zeros(s: &Vec<char>) -> (r: bool)
    ensures
        r == all_zeros(s@),
{
    let mut i: usize = 0;
    while i < s.len()
        invariant
            i <= s@.len(),
            forall|k: int| 0 <= k < i ==> #[trigger] s@[k] == '0',
        decreases s.len() - i,
    {
        if s[i] != '0' {
            assert(s@[i as int] != '0');
            return false;
        }
        i = i + 1;
    }
    true
}

fn is_currency_amount(b: &Vec<char>) -> (r: bool)
    ensures
        r == currency_amount(b@),
{
    let dots: usize = count_char(b, '.');
    if dots == 0 {
        return true;
    }
    if dots > 1 {
        return false;
    }
    let n: usize = b.len();
    let dot: usize = index_of_char(b, '.');
    proof {
        first_index_bounds(b@, '.');
        none_counted(b@, '.');
        let k = choose|k: int| 0 <= k < b@.len() && b@[k] == '.';
        assert(b@[k] == '.');
    }
    let cents = slice_of(b, dot + 1, n);
    assert(cents@ =~= b@.skip(dot + 1));
    cents.len() < 3 || is_zeros(&cents)
}

/// What does not occur is counted zero times.
pub proof fn none_counted(s: Seq<char>, c: char)
    ensures
        count_of(s, c) == 0 <==> !s.contains(c),
    decreases s.len(),
{
    if s.len() > 0 {
        let t = s.drop_last();
        none_counted(t, c);
        if s.contains(c) && s.last() != c {
            let k = choose|k: int| 0 <= k < s.len() && s[k] == c;
            assert(t[k] == c);
        }
        if t.contains(c) {
            let k = choose|k: int| 0 <= k < t.len() && t[k] == c;
            assert(s[k] == c);
        }
        if s.last() == c {
            assert(s[s.len() - 1] == c);
        }
    }
}

/// Where the run of small letters and apostrophes at the end begins.
fn find_ending(word: &Vec<char>) -> (r: usize)
    ensures
        r == ending_start(word@),
        r <= word@.len(),
{
    let mut i: usize = word.len();
    assert(word@.take(i as int) =~= word@);
    while i > 0 && (small_letter(word[i - 1]) || word[i - 1] == '\'')
        invariant
            i <= word@.len(),
            ending_start(word@) == ending_start(word@.take(i as int)),
        decreases i,
    {
        assert(word@.take(i as int).drop_last() =~= word@.take(i - 1));
        i = i - 1;
    }
    i
}

/// The words of the digits behind a point, or nothing where one is no digit.
fn point_words(digits: &Vec<char>) -> (r: Option<String>)
    ensures
        match r {
            Some(w) => all_digits(digits@) && w@ == "point"@ + digit_words(digits@),
            None => !all_digits(digits@),
        },
{
    let mut out = "point".to_owned();
    let mut i: usize = 0;
    assert(digit_words(digits@.take(0)) =~= Seq::<char>::empty());
    assert("point"@ + Seq::<char>::empty() =~= "point"@);
    while i < digits.len()
        invariant
            i <= digits@.len(),
            forall|k: int| 0 <= k < i ==> is_digit(#[trigger] digits@[k]),
            out@ == "point"@ + digit_words(digits@.take(i as int)),
        decreases digits.len() - i,
    {
        let c: u32 = digits[i] as u32;
        if c < '0' as u32 || c > '9' as u32 {
            assert(!is_digit(digits@[i as int]));
            return None;
        }
        out.append(" ");
        out.append(ONES[(c - '0' as u32) as usize]);
        proof {
            let next = digits@.take(i + 1);
            assert(next.drop_last() =~= digits@.take(i as int));
            assert(out@ =~= "point"@ + digit_words(next));
        }
        i = i + 1;
    }
    assert(digits@.take(i as int) =~= digits@);
    Some(out)
}

/// The words of a plain number with or without a point.
fn words_of_number(b: &Vec<char>, plain: &Vec<char>, is_ordinal: bool) -> (r: Option<String>)
    requires
        plain@ == without(b@, ','),
        !b@.contains('.') ==> whole_number(plain@) != Some(i64::MIN as int),
    ensures
        opt_chars(r) == number_words(b@, is_ordinal),
{
    if is_digits(b) {
        return match parse_whole(b) {
            Some(v) => {
                assert(v >= 0) by {
                    assert(is_digit(b@[0]));
                }
                Some(cardinal(v))
            },
            None => None,
        };
    }
    if count_char(b, '.') == 0 {
        proof {
            none_counted(b@, '.');
        }
        return match parse_whole(plain) {
            Some(v) => if is_ordinal {
                Some(ordinal(v))
            } else {
                Some(cardinal(v))
            },
            None => None,
        };
    }
    proof {
        none_counted(b@, '.');
    }
    if plain.len() > 0 && plain[0] == '.' {
        let digits = slice_of(plain, 1, plain.len());
        assert(digits@ =~= plain@.skip(1));
        return point_words(&digits);
    }
    let text = string_of(plain, 0, plain.len());
    assert(text@ =~= plain@);
    decimal(text.as_str())
}

/// Digits alone never write a negative number.
proof fn digits_are_not_negative(s: Seq<char>)
    requires
        digits_only(s),
        whole_number(s) is Some,
    ensures
        whole_number(s).unwrap() >= 0,
{
    assert(is_digit(s[0]));
}

/// The pieces of a text without the separator are the text alone.
pub proof fn one_piece(s: Seq<char>, c: char)
    requires
        !s.contains(c),
    ensures
        split_on(s, c) == seq![s],
{
    first_index_bounds(s, c);
    if first_index(s, c) < s.len() {
        assert(s[first_index(s, c)] == c);
    }
}

/// Commas taken out bring no point in.
proof fn no_point_appears(b: Seq<char>)
    requires
        !b.contains('.'),
    ensures
        !without(b, ',').contains('.'),
{
    without_members(b, ',');
    let plain = without(b, ',');
    if plain.contains('.') {
        let k = choose|k: int| 0 <= k < plain.len() && plain[k] == '.';
        assert(b.contains(plain[k]));
    }
}

fn lowest_rating(hits: &Vec<Hit>) -> (r: u8)
    requires
        hits@.len() > 0,
    ensures
        r == lowest(hits_view(hits@)),
{
    let ghost all = hits_view(hits@);
    let mut low: u8 = hits[0].1;
    let mut i: usize = 1;
    assert(all.take(1)[0] == all[0]);
    while i < hits.len()
        invariant
            1 <= i <= hits@.len(),
            all == hits_view(hits@),
            low == lowest(all.take(i as int)),
        decreases hits.len() - i,
    {
        assert(all.take(i + 1).drop_last() =~= all.take(i as int));
        if hits[i].1 < low {
            low = hits[i].1;
        }
        i = i + 1;
    }
    assert(all.take(i as int) =~= all);
    low
}

fn join_hits(hits: &Vec<Hit>) -> (r: String)
    ensures
        r@ == spaced(hits_view(hits@)),
{
    let ghost all = hits_view(hits@);
    let mut out = String::new();
    let mut i: usize = 0;
    while i < hits.len()
        invariant
            i <= hits@.len(),
            all == hits_view(hits@),
            out@ == spaced(all.take(i as int)),
        decreases hits.len() - i,
    {
        assert(all.take(i + 1).drop_last() =~= all.take(i as int));
        assert(all.take(i + 1).last() == (hits@[i as int].0@, hits@[i as int].1));
        if i > 0 {
            out.append(" ");
        }
        out.append(hits[i].0.as_str());
        assert(out@ =~= spaced(all.take(i + 1)));
        i = i + 1;
    }
    assert(all.take(i as int) =~= all);
    out
}

/// The units of an optional currency sign.
fn units_for(currency: Option<&str>) -> (r: Option<(&'static str, &'static str)>)
    ensures
        match r {
            Some(p) => units_in(opt_str(currency)) == Some((p.0@, p.1@)),
            None => units_in(opt_str(currency)) is None,
        },
{
    match currency {
        Some(c) => currency_units(c),
        None => None,
    }
}

impl Lexicon {
    /// All hits of a number without its ending.
    fn collect_number(
        &self,
        word: &Vec<char>,
        end: usize,
        currency: Option<&str>,
        is_head: bool,
        flags: &str,
    ) -> (r: Option<Vec<Hit>>)
        requires
            end == ending_start(word@),
            end <= word@.len(),
            readable(word@, opt_str(currency), is_head),
        ensures
            match r {
                Some(hits) => self@.number_hits(word@, opt_str(currency), is_head, flags@) == Some(
                    hits_view(hits@),
                ),
                None => self@.number_hits(word@, opt_str(currency), is_head, flags@) is None,
            },
    {
        let ghost model = self@;
        let suffix = string_of(word, end, word.len());
        assert(suffix@ =~= ending(word@));
        let is_ordinal = is_ordinal_suffix(suffix.as_str());
        let negative = end > 0 && word[0] == '-';
        let b = if negative {
            slice_of(word, 1, end)
        } else {
            slice_of(word, 0, end)
        };
        assert(b@ =~= body(word@));
        let plain = remove_char(&b, ',');
        let mut hits: Vec<Hit> = Vec::new();
        assert(hits_view(hits@) =~= Seq::<(Seq<char>, u8)>::empty());
        if negative {
            push_hit(&mut hits, self.lookup("minus", "", None, None));
        }
        assert(hits_view(hits@) == model.say_sign(word@));
        let units = units_for(currency);
        let digits = is_digits(&b);
        let dots: usize = count_char(&b, '.');
        proof {
            none_counted(b@, '.');
            if digits_only(b@) && whole_number(b@) is Some {
                digits_are_not_negative(b@);
            }
            if !b@.contains('.') {
                no_point_appears(b@);
                one_piece(plain@, '.');
                assert(split_on(plain@, '.')[0] == plain@);
            }
        }
        if digits && is_ordinal {
            match parse_whole(&b) {
                Some(v) => {
                    let words = ordinal(v);
                    self.extend_num(&mut hits, words.as_str(), true, flags);
                },
                None => {
                    return None;
                },
            }
        } else if hits.len() == 0 && b.len() == 4 && units.is_none() && digits {
            match parse_whole(&b) {
                Some(v) => {
                    let words = year(v);
                    self.extend_num(&mut hits, words.as_str(), true, flags);
                },
                None => {
                    return None;
                },
            }
        } else if !is_head && dots == 0 {
            self.extend_inner(&mut hits, &plain, flags);
        } else if dots > 1 || !is_head {
            self.extend_groups(&mut hits, &plain, flags);
        } else {
            match units {
                Some(pair) => {
                    if is_currency_amount(&b) {
                        self.extend_money(&mut hits, &plain, pair, flags);
                        return Some(hits);
                    }
                },
                None => {},
            }
            match words_of_number(&b, &plain, is_ordinal) {
                Some(words) => {
                    self.extend_num(&mut hits, words.as_str(), true, flags);
                },
                None => {
                    return None;
                },
            }
        }
        Some(hits)
    }

    /// The phonemes of a number with its ending, as money where a currency is given. Inside
    /// a sentence it is read as digits rather than as an amount.
    pub fn get_number(
        &self,
        word: &str,
        currency: Option<&str>,
        is_head: bool,
        num_flags: &str,
    ) -> (r: Option<Hit>)
        requires
            readable(word@, opt_str(currency), is_head),
        ensures
            hit_view(r) == self@.number(word@, opt_str(currency), is_head, num_flags@),
    {
        let chars = chars_of(word);
        let end: usize = find_ending(&chars);
        let suffix = string_of(&chars, end, chars.len());
        assert(suffix@ =~= ending(word@));
        let hits = match self.collect_number(&chars, end, currency, is_head, num_flags) {
            Some(hits) => hits,
            None => {
                return None;
            },
        };
        if hits.len() == 0 {
            return None;
        }
        let rating: u8 = lowest_rating(&hits);
        let joined = join_hits(&hits);
        let spoken = if str_eq(suffix.as_str(), "s") || str_eq(suffix.as_str(), "'s") {
            self.suffix_s(joined.as_str())
        } else if str_eq(suffix.as_str(), "ed") || str_eq(suffix.as_str(), "'d") {
            self.suffix_ed(joined.as_str())
        } else if str_eq(suffix.as_str(), "ing") {
            self.suffix_ing(joined.as_str())
        } else {
            Some(joined)
        };
        match spoken {
            Some(ps) => Some((ps, rating)),
            None => None,
        }
    }

    /// Phonemes with the plural of a currency behind them, where it is known.
    pub fn with_currency(&self, ps: &str, currency: Option<&str>) -> (r: String)
        ensures
            r@ == self@.with_currency(ps@, opt_str(currency)),
    {
        match units_for(currency) {
            None => ps.to_owned(),
            Some(units) => {
                let plural = cat(units.0, "s");
                match self.stem_s(plural.as_str(), "", None, None) {
                    None => ps.to_owned(),
                    Some(hit) => cat3(ps, " ", hit.0.as_str()),
                }
            },
        }
    }

    /// Whether a word looks like a number. One ending is taken off first, so "1980s" and
    /// "42nd" both do.
    pub fn is_number(word: &str, is_head: bool) -> (r: bool)
        ensures
            r == numeric(word@, is_head),
    {
        let chars = chars_of(word);
        if !any_digit(&chars) {
            return false;
        }
        let w = chars_of(take_off_ending(word));
        let mut i: usize = 0;
        while i < w.len()
            invariant
                i <= w@.len(),
                w@ == without_ending(word@),
                forall|k: int| 0 <= k < i ==> #[trigger] number_char(w@, k, is_head),
            decreases w.len() - i,
        {
            let c: char = w[i];
            let digit = '0' as u32 <= c as u32 && c as u32 <= '9' as u32;
            if !(digit || c == ',' || c == '.' || (is_head && i == 0 && c == '-')) {
                assert(!number_char(w@, i as int, is_head));
                return false;
            }
            i = i + 1;
        }
        true
    }
}

/// A word without the first of the endings that a number can have.
pub open spec fn without_ending(word: Seq<char>) -> Seq<char> {
    if "ing"@.is_suffix_of(word) {
        word.take(word.len() - "ing"@.len())
    } else if "'d"@.is_suffix_of(word) {
        word.take(word.len() - "'d"@.len())
    } else if "ed"@.is_suffix_of(word) {
        word.take(word.len() - "ed"@.len())
    } else if "'s"@.is_suffix_of(word) {
        word.take(word.len() - "'s"@.len())
    } else if "st"@.is_suffix_of(word) {
        word.take(word.len() - "st"@.len())
    } else if "nd"@.is_suffix_of(word) {
        word.take(word.len() - "nd"@.len())
    } else if "rd"@.is_suffix_of(word) {
        word.take(word.len() - "rd"@.len())
    } else if "th"@.is_suffix_of(word) {
        word.take(word.len() - "th"@.len())
    } else if "s"@.is_suffix_of(word) {
        word.take(word.len() - "s"@.len())
    } else {
        word
    }
}

/// Whether the character at `i` can stand in a number: a digit, a comma, a point, or a
/// hyphen at the head of a sentence's number.
pub open spec fn number_char(w: Seq<char>, i: int, is_head: bool) -> bool {
    is_digit(w[i]) || w[i] == ',' || w[i] == '.' || (is_head && i == 0 && w[i] == '-')
}

/// A word that looks like a number.
pub open spec fn numeric(word: Seq<char>, is_head: bool) -> bool {
    let w = without_ending(word);
    &&& exists|i: int| 0 <= i < word.len() && is_digit(#[trigger] word[i])
    &&& forall|i: int| 0 <= i < w.len() ==> #[trigger] number_char(w, i, is_head)
}

fn any_digit(s: &Vec<char>) -> (r: bool)
    ensures
        r == exists|i: int| 0 <= i < s@.len() && is_digit(#[trigger] s@[i]),
{
    let mut i: usize = 0;
    while i < s.len()
        invariant
            i <= s@.len(),
            forall|k: int| 0 <= k < i ==> !is_digit(#[trigger] s@[k]),
        decreases s.len() - i,
    {
        let c: u32 = s[i] as u32;
        if '0' as u32 <= c && c <= '9' as u32 {
            assert(is_digit(s@[i as int]));
            return true;
        }
        i = i + 1;
    }
    false
}

fn take_off_ending(word: &str) -> (r: &str)
    ensures
        r@ == without_ending(word@),
{
    if let Some(w) = strip_suffix(word, "ing") {
        w
    } else if let Some(w) = strip_suffix(word, "'d") {
        w
    } else if let Some(w) = strip_suffix(word, "ed") {
        w
    } else if let Some(w) = strip_suffix(word, "'s") {
        w
    } else if let Some(w) = strip_suffix(word, "st") {
        w
    } else if let Some(w) = strip_suffix(word, "nd") {
        w
    } else if let Some(w) = strip_suffix(word, "rd") {
        w
    } else if let Some(w) = strip_suffix(word, "th") {
        w
    } else if let Some(w) = strip_suffix(word, "s") {
        w
    } else {
        word
    }
}

/// A small letter or an apostrophe.
pub open spec fn ending_char(c: char) -> bool {
    is_small(c) || c == '\''
}

/// The ending of a word begins behind its last other character.
pub proof fn ending_begins(word: Seq<char>, n: int)
    requires
        0 <= n <= word.len(),
        n > 0 ==> !ending_char(word[n - 1]),
        forall|i: int| n <= i < word.len() ==> ending_char(#[trigger] word[i]),
    ensures
        ending_start(word) == n,
    decreases word.len(),
{
    if n < word.len() {
        assert(ending_char(word[word.len() - 1]));
        let t = word.drop_last();
        assert forall|i: int| n <= i < t.len() implies ending_char(#[trigger] t[i]) by {
            assert(t[i] == word[i]);
        }
        ending_begins(t, n);
    }
}

/// Each ending of a number consists of small letters and apostrophes.
proof fn endings_are_letters(word: Seq<char>)
    ensures
        ({
            let w = without_ending(word);
            &&& w.len() <= word.len()
            &&& w == word.take(w.len() as int)
            &&& forall|i: int| w.len() <= i < word.len() ==> ending_char(#[trigger] word[i])
        }),
{
    reveal_strlit("ing");
    reveal_strlit("'d");
    reveal_strlit("ed");
    reveal_strlit("'s");
    reveal_strlit("st");
    reveal_strlit("nd");
    reveal_strlit("rd");
    reveal_strlit("th");
    reveal_strlit("s");
    let w = without_ending(word);
    let n = w.len() as int;
    assert(w =~= word.take(n));
    let e = word.skip(n);
    assert(e.len() <= 3);
    assert forall|i: int| n <= i < word.len() implies ending_char(#[trigger] word[i]) by {
        assert(word[i] == e[i - n]);
        assert(e =~= "ing"@ || e =~= "'d"@ || e =~= "ed"@ || e =~= "'s"@ || e =~= "st"@ || e
            =~= "nd"@ || e =~= "rd"@ || e =~= "th"@ || e =~= "s"@);
    }
}

/// Whatever looks like a number can be read, in every currency.
pub proof fn numeric_words_are_readable(
    word: Seq<char>,
    currency: Option<Seq<char>>,
    is_head: bool,
)
    requires
        numeric(word, is_head),
    ensures
        readable(word, currency, is_head),
{
    let w = without_ending(word);
    let n = w.len() as int;
    endings_are_letters(word);
    if n > 0 {
        assert(number_char(w, n - 1, is_head));
        assert(w[n - 1] == word[n - 1]);
    }
    ending_begins(word, n);
    let b = body(word);
    let plain = without(b, ',');
    let pieces = split_on(plain, '.');
    without_members(b, ',');
    assert forall|i: int| 0 <= i < b.len() implies #[trigger] b[i] != '-' && (b[i] as u32)
        < 128 by {
        let k = if is_negative(word) {
            i + 1
        } else {
            i
        };
        assert(b[i] == word[k] && word[k] == w[k]);
        assert(number_char(w, k, is_head));
    }
    assert forall|i: int| 0 <= i < plain.len() implies #[trigger] plain[i] != '-' && (
    plain[i] as u32) < 128 by {
        assert(b.contains(plain[i]));
        let k = choose|k: int| 0 <= k < b.len() && b[k] == plain[i];
        assert(b[k] != '-');
    }
    assert forall|i: int| 0 <= i < pieces.len() implies whole_number(#[trigger] pieces[i]) != Some(
        i64::MIN as int,
    ) by {
        if pieces[i].len() > 0 {
            piece_members(plain, '.', i, 0);
            let k = choose|k: int| 0 <= k < plain.len() && plain[k] == pieces[i][0];
            assert(plain[k] != '-');
        }
    }
}

/// What stands before an ending is read as it is without one.
proof fn endings_are_apart(w: Seq<char>, e: Seq<char>)
    requires
        w.len() > 0,
        !ending_char(w.last()),
        forall|i: int| 0 <= i < e.len() ==> ending_char(#[trigger] e[i]),
    ensures
        ending(w + e) == e,
        body(w + e) == body(w),
        is_negative(w + e) == is_negative(w),
        ending(w) == Seq::<char>::empty(),
{
    let n = w.len() as int;
    assert forall|i: int| n <= i < (w + e).len() implies ending_char(#[trigger] (w + e)[i]) by {
        assert((w + e)[i] == e[i - n]);
    }
    ending_begins(w + e, n);
    ending_begins(w, n);
    assert(ending(w + e) =~= e);
    assert(ending(w) =~= Seq::<char>::empty());
    assert(body(w + e) =~= body(w));
}

/// A number that no letter and no apostrophe ends is inflected by the ending set on it: it is
/// readable with the ending as without it, and its phonemes take the plural, the past tense or
/// the -ing of their own last sound.
pub proof fn endings_inflect_the_number(
    lex: LexiconView,
    w: Seq<char>,
    currency: Option<Seq<char>>,
    is_head: bool,
    flags: Seq<char>,
    e: Seq<char>,
)
    requires
        w.len() > 0,
        !ending_char(w.last()),
        e == "s"@ || e == "'s"@ || e == "ed"@ || e == "'d"@ || e == "ing"@,
    ensures
        readable(w + e, currency, is_head) == readable(w, currency, is_head),
        lex.number(w + e, currency, is_head, flags) == match lex.number(
            w,
            currency,
            is_head,
            flags,
        ) {
            None => None,
            Some(hit) => rated(
                if e == "s"@ || e == "'s"@ {
                    with_s(lex.british, hit.0)
                } else if e == "ed"@ || e == "'d"@ {
                    with_ed(lex.british, hit.0)
                } else {
                    with_ing(lex.british, hit.0)
                },
                hit.1,
            ),
        },
{
    reveal_strlit("s");
    reveal_strlit("'s");
    reveal_strlit("ed");
    reveal_strlit("'d");
    reveal_strlit("ing");
    reveal_strlit("st");
    reveal_strlit("nd");
    reveal_strlit("rd");
    reveal_strlit("th");
    endings_are_apart(w, e);
    assert(e.len() == 2 ==> e[1] != 't' && (e[0] == '\'' || e[0] == 'e'));
    assert(!ordinal_ending(e));
    assert(!ordinal_ending(Seq::<char>::empty()));
    assert(lex.number_hits(w + e, currency, is_head, flags) == lex.number_hits(
        w,
        currency,
        is_head,
        flags,
    ));
}

} // verus!
