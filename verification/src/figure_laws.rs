//! How figures are read, for every number and every lexicon.

use crate::affix_laws::{inflected_hit, plural};
use crate::lexicon::{units_of, LexiconView};
use crate::num2words::{cardinal_words, ordinal_words, year_words};
use crate::numbers::{
    body, ending, ending_begins, ending_char, is_negative, lowest, numeric,
    number_char, one_piece, ordinal_ending, spaced, without_ending,
};
use crate::text::{all_digits, count_of, digits_value, is_digit, split_on, whole_number, without};
use vstd::prelude::*;

verus! {

/// A run of figures that fits a machine number.
pub open spec fn figures(d: Seq<char>) -> bool {
    d.len() > 0 && all_digits(d) && digits_value(d) <= i64::MAX
}

proof fn figures_with_an_ending(d: Seq<char>, e: Seq<char>)
    requires
        figures(d),
        forall|i: int| 0 <= i < e.len() ==> ending_char(#[trigger] e[i]),
    ensures
        body(d + e) == d,
        ending(d + e) == e,
        !is_negative(d + e),
        without(d, ',') == d,
        !d.contains('.'),
        count_of(d, '.') == 0,
        split_on(d, '.') == seq![d],
        whole_number(d) == Some(digits_value(d) as int),
{
    let w = d + e;
    let n = d.len() as int;
    assert(is_digit(d[n - 1]));
    assert(w[n - 1] == d[n - 1]);
    assert forall|i: int| n <= i < w.len() implies ending_char(#[trigger] w[i]) by {
        assert(w[i] == e[i - n]);
    }
    ending_begins(w, n);
    assert(is_digit(d[0]));
    assert(w[0] == d[0]);
    assert(w.take(n) =~= d);
    assert(w.skip(n) =~= e);
    no_comma_no_change(d);
    if d.contains('.') {
        let i = choose|i: int| 0 <= i < d.len() && d[i] == '.';
        assert(is_digit(d[i]));
    }
    crate::numbers::none_counted(d, '.');
    one_piece(d, '.');
}

proof fn no_comma_no_change(d: Seq<char>)
    requires
        all_digits(d),
    ensures
        without(d, ',') == d,
    decreases d.len(),
{
    if d.len() > 0 {
        let t = d.drop_last();
        assert forall|i: int| 0 <= i < t.len() implies is_digit(#[trigger] t[i]) by {
            assert(t[i] == d[i]);
        }
        no_comma_no_change(t);
        assert(is_digit(d[d.len() - 1]));
        assert(without(d, ',') =~= d);
    }
}

proof fn bare_figures(d: Seq<char>)
    requires
        figures(d),
    ensures
        body(d) == d,
        ending(d) == Seq::<char>::empty(),
        !is_negative(d),
        without(d, ',') == d,
        !d.contains('.'),
        count_of(d, '.') == 0,
        split_on(d, '.') == seq![d],
        whole_number(d) == Some(digits_value(d) as int),
        !ordinal_ending(ending(d)),
{
    let none = Seq::<char>::empty();
    figures_with_an_ending(d, none);
    assert(d + none =~= d);
    reveal_strlit("st");
    reveal_strlit("nd");
    reveal_strlit("rd");
    reveal_strlit("th");
    assert("st"@.len() == 2 && "nd"@.len() == 2 && "rd"@.len() == 2 && "th"@.len() == 2);
}

impl LexiconView {
    /// Four figures without a currency are read as a year, at the head of a token and inside one.
    pub proof fn four_figures_are_a_year(self, d: Seq<char>, is_head: bool, flags: Seq<char>)
        requires
            figures(d),
            d.len() == 4,
        ensures
            self.number_hits(d, None, is_head, flags) == Some(
                self.say(Seq::empty(), year_words(digits_value(d) as int), true, flags),
            ),
    {
        bare_figures(d);
    }

    /// Any other number of figures at the head of a token, without a currency, is read as a plain
    /// number.
    pub proof fn figures_are_a_number(self, d: Seq<char>, flags: Seq<char>)
        requires
            figures(d),
            d.len() != 4,
        ensures
            self.number_hits(d, None, true, flags) == Some(
                self.say(Seq::empty(), cardinal_words(digits_value(d) as int), true, flags),
            ),
    {
        bare_figures(d);
    }

    /// Inside a token, more than four figures are read one by one, and so are fewer that begin with
    /// a zero.
    pub proof fn long_figures_are_read_one_by_one(self, d: Seq<char>, flags: Seq<char>)
        requires
            figures(d),
            d.len() > 4 || (d.len() < 4 && d[0] == '0'),
        ensures
            self.number_hits(d, None, false, flags) == Some(
                self.say_digits(Seq::empty(), d, flags),
            ),
    {
        bare_figures(d);
    }

    /// Figures one by one are read in order, each as the number that it is.
    pub proof fn figures_are_read_in_order(
        self,
        hits: Seq<(Seq<char>, u8)>,
        a: Seq<char>,
        b: Seq<char>,
        c: char,
        flags: Seq<char>,
    )
        requires
            is_digit(c),
        ensures
            self.say_digits(hits, a + b, flags) == self.say_digits(
                self.say_digits(hits, a, flags),
                b,
                flags,
            ),
            self.say_digits(hits, seq![c], flags) == self.say(
                hits,
                cardinal_words(c as u32 - '0' as u32),
                false,
                flags,
            ),
        decreases b.len(),
    {
        let one = seq![c];
        assert(one.drop_last() =~= Seq::<char>::empty());
        assert(one.last() == c);
        assert(digits_value(Seq::<char>::empty()) == 0);
        assert(digits_value(one) == (c as u32 - '0' as u32));
        assert(self.say_digits(hits, Seq::<char>::empty(), flags) == hits);
        if b.len() == 0 {
            assert(a + b =~= a);
        } else {
            self.figures_are_read_in_order(hits, a, b.drop_last(), c, flags);
            assert((a + b).drop_last() =~= a + b.drop_last());
            assert((a + b).last() == b.last());
        }
    }

    /// Inside a token, three figures that are not round hundreds are read as the first and then the
    /// other two, or "oh" and the last where the middle one is a zero.
    pub proof fn three_figures_are_read_apart(
        self,
        a: char,
        b: char,
        c: char,
        flags: Seq<char>,
        oh: (Seq<char>, u8),
    )
        requires
            is_digit(a),
            is_digit(b),
            is_digit(c),
            a != '0',
            !(b == '0' && c == '0'),
            self.lookup("O"@, ""@, Some((-4) as i32), None) == Some(oh),
        ensures
            ({
                let head = self.say(
                    Seq::empty(),
                    cardinal_words(a as u32 - '0' as u32),
                    true,
                    flags,
                );
                let r = self.number_hits(seq![a, b, c], None, false, flags);
                &&& b != '0' ==> r == Some(
                    self.say(
                        head,
                        cardinal_words((b as u32 - '0' as u32) * 10 + (c as u32 - '0' as u32)),
                        false,
                        flags,
                    ),
                )
                &&& b == '0' ==> r == Some(
                    self.say(
                        head.push(oh),
                        cardinal_words(c as u32 - '0' as u32),
                        false,
                        flags,
                    ),
                )
            }),
    {
        let d = seq![a, b, c];
        value_of_three(a, b, c);
        bare_figures(d);
        reveal_strlit("00");
        let tail = d.subrange(1, 3);
        assert(tail[0] == b && tail[1] == c);
        if "00"@.is_suffix_of(d) {
            assert("00"@[0] == '0' && "00"@[1] == '0');
        }
        assert(d.skip(1) =~= seq![b, c]);
        assert(d[0] == a && d[1] == b && d[2] == c);
        one_digit(a);
        one_digit(c);
        two_digits(b, c);
    }

    /// A round hundred inside a token, or one or two figures without a zero in front, is read as a
    /// plain number.
    pub proof fn short_figures_are_a_number(self, d: Seq<char>, flags: Seq<char>)
        requires
            figures(d),
            d[0] != '0',
            d.len() <= 2 || (d.len() == 3 && d[1] == '0' && d[2] == '0'),
        ensures
            self.number_hits(d, None, false, flags) == Some(
                self.say(Seq::empty(), cardinal_words(digits_value(d) as int), true, flags),
            ),
    {
        bare_figures(d);
        reveal_strlit("00");
        if d.len() == 3 {
            assert(d.subrange(1, 3) =~= "00"@);
        }
    }

    /// Figures with "st", "nd", "rd" or "th" behind them are an ordinal, everywhere.
    pub proof fn endings_make_ordinals(
        self,
        d: Seq<char>,
        e: Seq<char>,
        currency: Option<Seq<char>>,
        is_head: bool,
        flags: Seq<char>,
    )
        requires
            figures(d),
            e == "st"@ || e == "nd"@ || e == "rd"@ || e == "th"@,
        ensures
            self.number_hits(d + e, currency, is_head, flags) == Some(
                self.say(Seq::empty(), ordinal_words(digits_value(d) as int), true, flags),
            ),
    {
        reveal_strlit("st");
        reveal_strlit("nd");
        reveal_strlit("rd");
        reveal_strlit("th");
        figures_with_an_ending(d, e);
    }

    /// A minus in front of figures at the head of a token is read as the word, and then the number.
    pub proof fn a_minus_is_read(self, d: Seq<char>, flags: Seq<char>, minus: (Seq<char>, u8))
        requires
            figures(d),
            self.lookup("minus"@, ""@, None, None) == Some(minus),
        ensures
            self.number_hits(seq!['-'] + d, None, true, flags) == Some(
                self.say(seq![minus], cardinal_words(digits_value(d) as int), true, flags),
            ),
    {
        bare_figures(d);
        let w = seq!['-'] + d;
        let n = w.len() as int;
        assert(w[n - 1] == d[d.len() - 1]);
        assert(is_digit(d[d.len() - 1]));
        ending_begins(w, n);
        assert(w.subrange(1, n) =~= d);
        assert(w.skip(n) =~= Seq::<char>::empty());
        assert(ending(w) == ending(d)) by {
            assert(ending(w) =~= Seq::<char>::empty());
        }
        assert(self.say_sign(w) =~= seq![minus]);
    }
}

proof fn one_digit(a: char)
    requires
        is_digit(a),
    ensures
        whole_number(seq![a]) == Some(a as u32 - '0' as u32),
{
    let s = seq![a];
    assert(s.drop_last() =~= Seq::<char>::empty());
    assert(digits_value(Seq::<char>::empty()) == 0);
    assert(s.last() == a);
    assert(s[0] == a);
}

proof fn two_digits(a: char, b: char)
    requires
        is_digit(a),
        is_digit(b),
    ensures
        digits_value(seq![a, b]) == (a as u32 - '0' as u32) * 10 + (b as u32 - '0' as u32),
        whole_number(seq![a, b]) == Some(
            (a as u32 - '0' as u32) * 10 + (b as u32 - '0' as u32),
        ),
{
    let s = seq![a, b];
    one_digit(a);
    assert(s.drop_last() =~= seq![a]);
    assert(seq![a].drop_last() =~= Seq::<char>::empty());
    assert(digits_value(Seq::<char>::empty()) == 0);
    assert(seq![a].last() == a);
    assert(s.last() == b);
    assert(s[0] == a);
}

proof fn value_of_three(a: char, b: char, c: char)
    requires
        is_digit(a),
        is_digit(b),
        is_digit(c),
    ensures
        figures(seq![a, b, c]),
{
    let s = seq![a, b, c];
    two_digits(a, b);
    assert(s.drop_last() =~= seq![a, b]);
    assert(s.last() == c);
}

/// The words of each currency sign: a unit and its hundredth.
pub proof fn signs_have_units(c: Seq<char>)
    ensures
        units_of("$"@) == Some(("dollar"@, "cent"@)),
        units_of("£"@) == Some(("pound"@, "pence"@)),
        units_of("€"@) == Some(("euro"@, "cent"@)),
        c != "$"@ && c != "£"@ && c != "€"@ ==> units_of(c) is None,
{
    reveal_strlit("$");
    reveal_strlit("£");
    reveal_strlit("€");
    assert("$"@[0] == '$' && "£"@[0] == '£' && "€"@[0] == '€');
}

impl LexiconView {
    /// An amount names its unit last: in the singular for one and minus one, in the plural of its own
    /// last sound for any other amount. "pence" has no other plural.
    pub proof fn amounts_name_their_unit(
        self,
        hits: Seq<(Seq<char>, u8)>,
        amount: int,
        unit: Seq<char>,
        first: bool,
        flags: Seq<char>,
        p: Seq<char>,
        q: Seq<char>,
        r: u8,
    )
        requires
            self.known(unit),
            unit.len() >= 2,
            unit.last() != 's',
            self.lookup(unit, ""@, None, None) == Some((p, r)),
            crate::affix::with_s(self.british, p) == Some(q),
        ensures
            ({
                let said = self.say(hits, cardinal_words(amount), first, flags);
                let all = self.say_amount(hits, amount, unit, first, flags);
                &&& (amount == 1 || amount == -1 || unit == "pence"@) ==> all == said.push((p, r))
                &&& amount != 1 && amount != -1 && unit != "pence"@ ==> all == said.push((q, r))
            }),
    {
        self.an_s_is_set_on_known_words(unit, ""@, None, None);
        reveal_strlit("s");
        assert(unit + "s"@ =~= unit.push('s'));
        assert(plural(self.british)(p) == Some(q));
        assert(inflected_hit(self.lookup(unit, ""@, None, None), plural(self.british)) == Some(
            (q, r),
        ));
    }

    /// Of an amount of money each part that is not zero is read, the large before the small with
    /// "and" between them; of nothing at all the large unit.
    pub proof fn money_is_read_in_two_parts(
        self,
        hits: Seq<(Seq<char>, u8)>,
        big: Seq<char>,
        small: Seq<char>,
        units: (Seq<char>, Seq<char>),
        flags: Seq<char>,
        and: (Seq<char>, u8),
    )
        requires
            figures(big),
            figures(small),
            self.lookup("and"@, ""@, None, None) == Some(and),
        ensures
            ({
                let x = digits_value(big) as int;
                let y = digits_value(small) as int;
                let r = self.say_money(hits, seq![big, small], units, flags);
                &&& self.say_money(hits, seq![big], units, flags) == self.say_amount(
                    hits,
                    x,
                    units.0,
                    true,
                    flags,
                )
                &&& y == 0 ==> r == self.say_amount(hits, x, units.0, true, flags)
                &&& x == 0 && y > 0 ==> r == self.say_amount(hits, y, units.1, true, flags)
                &&& x > 0 && y > 0 ==> r == self.say_amount(
                    self.say_amount(hits, x, units.0, true, flags).push(and),
                    y,
                    units.1,
                    false,
                    flags,
                )
            }),
    {
        bare_figures(big);
        bare_figures(small);
        let v = seq![big, small];
        assert(v[0] == big && v[1] == small && v.len() == 2);
    }

    /// Figures behind a currency sign, at the head of a token, are an amount of its large unit,
    /// whatever their number.
    pub proof fn figures_behind_a_sign_are_money(self, d: Seq<char>, flags: Seq<char>)
        requires
            figures(d),
        ensures
            self.number_hits(d, Some("$"@), true, flags) == Some(
                self.say_amount(
                    Seq::empty(),
                    digits_value(d) as int,
                    "dollar"@,
                    true,
                    flags,
                ),
            ),
            self.number_hits(d, Some("£"@), true, flags) == Some(
                self.say_amount(Seq::empty(), digits_value(d) as int, "pound"@, true, flags),
            ),
            self.number_hits(d, Some("€"@), true, flags) == Some(
                self.say_amount(Seq::empty(), digits_value(d) as int, "euro"@, true, flags),
            ),
    {
        bare_figures(d);
        signs_have_units("$"@);
        assert(seq![d][0] == d);
    }

    /// A word with a currency names it behind its own sound, in the plural.
    pub proof fn words_name_their_currency(self, ps: Seq<char>, p: Seq<char>, q: Seq<char>, r: u8)
        requires
            self.known("dollar"@),
            self.lookup("dollar"@, ""@, None, None) == Some((p, r)),
            crate::affix::with_s(self.british, p) == Some(q),
        ensures
            self.with_currency(ps, Some("$"@)) == ps + " "@ + q,
            self.with_currency(ps, None) == ps,
    {
        signs_have_units("$"@);
        reveal_strlit("dollar");
        assert("dollar"@.last() == 'r' && "dollar"@.len() == 6);
        self.an_s_is_set_on_known_words("dollar"@, ""@, None, None);
        reveal_strlit("s");
        assert("dollar"@ + "s"@ =~= "dollar"@.push('s'));
        assert(plural(self.british)(p) == Some(q));
        assert(inflected_hit(self.lookup("dollar"@, ""@, None, None), plural(self.british)) == Some(
            (q, r),
        ));
    }

    /// The words of a number are looked up one after the other. "and" is left out unless the flags
    /// ask for it, or for its short form, which is set on the word before.
    pub proof fn words_of_numbers_are_looked_up(
        self,
        hits: Seq<(Seq<char>, u8)>,
        pieces: Seq<Seq<char>>,
        w: Seq<char>,
        first: bool,
        flags: Seq<char>,
        h: (Seq<char>, u8),
    )
        requires
            pieces.len() > 0,
        ensures
            ({
                let n = pieces.len() as int;
                let more = pieces.push(w);
                let before = self.say_pieces(hits, more, n, first, flags);
                let after = self.say_pieces(hits, more, n + 1, first, flags);
                &&& w == "and"@ && !flags.contains('&') && !flags.contains('n') ==> after == before
                &&& w == "and"@ && !flags.contains('&') && flags.contains('n') && before.len() > 0
                    ==> after == before.drop_last().push(
                    (before.last().0 + "ən"@, before.last().1),
                )
                &&& w == "and"@ && flags.contains('&') && self.lookup("and"@, ""@, None, None)
                    == Some(h) ==> after == before.push(h)
                &&& w == "point"@ && self.lookup("point"@, ""@, Some((-4) as i32), None) == Some(h)
                    ==> after == before.push(h)
                &&& w != "and"@ && w != "point"@ && self.lookup(w, ""@, None, None) == Some(h)
                    ==> after == before.push(h)
                &&& w != "and"@ && w != "point"@ && self.lookup(w, ""@, None, None) is None
                    ==> after == before
            }),
    {
        let n = pieces.len() as int;
        let more = pieces.push(w);
        assert(more[n] == w);
        reveal_strlit("and");
        reveal_strlit("point");
        assert("and"@.len() == 3 && "point"@.len() == 5);
    }

    /// The "one" that begins a number of more words is a schwa where the flags ask for it.
    pub proof fn a_hundred(
        self,
        hits: Seq<(Seq<char>, u8)>,
        pieces: Seq<Seq<char>>,
        flags: Seq<char>,
    )
        requires
            pieces.len() > 1,
            pieces[0] == "one"@,
            flags.contains('a'),
        ensures
            self.say_pieces(hits, pieces, 1, true, flags) == hits.push(("ə"@, 4u8)),
    {
        reveal_strlit("one");
        reveal_strlit("and");
        assert("one"@[0] == 'o' && "and"@[0] == 'a');
        assert(self.say_pieces(hits, pieces, 0, true, flags) == hits);
    }
}

/// The words of a number are its runs of small letters: a run, something else, and what follows.
pub proof fn words_are_split_on_the_rest(a: Seq<char>, c: char, b: Seq<char>)
    requires
        forall|i: int| 0 <= i < a.len() ==> crate::text::is_small(#[trigger] a[i]),
        !crate::text::is_small(c),
        b.len() > 0,
        crate::text::is_small(b[0]),
    ensures
        crate::numbers::lower_pieces(a + seq![c] + b) == seq![a] + crate::numbers::lower_pieces(b),
        crate::numbers::lower_pieces(a) == seq![a],
{
    let s = a + seq![c] + b;
    run_is(s, a.len() as int);
    run_is(a, a.len() as int);
    let n = a.len() as int;
    let rest = s.skip(n);
    assert(rest[0] == c);
    assert(rest.skip(1) =~= b);
    assert(crate::numbers::other_run(b) == 0);
    assert(crate::numbers::other_run(rest) == 1);
    assert(s.take(n) =~= a);
    assert(s.skip(n + 1) =~= b);
}

proof fn run_is(s: Seq<char>, n: int)
    requires
        0 <= n <= s.len(),
        forall|i: int| 0 <= i < n ==> crate::text::is_small(#[trigger] s[i]),
        n < s.len() ==> !crate::text::is_small(s[n]),
    ensures
        crate::numbers::small_run(s) == n,
    decreases n,
{
    if n > 0 {
        assert(crate::text::is_small(s[0]));
        let t = s.skip(1);
        assert forall|i: int| 0 <= i < n - 1 implies crate::text::is_small(#[trigger] t[i]) by {
            assert(t[i] == s[i + 1]);
        }
        run_is(t, n - 1);
    }
}

/// The sounds of a number stand with a space between each two, and the worst of them rates it.
pub proof fn sounds_of_numbers_are_spaced(hits: Seq<(Seq<char>, u8)>, h: (Seq<char>, u8))
    requires
        hits.len() > 0,
    ensures
        spaced(hits.push(h)) == spaced(hits) + seq![' '] + h.0,
        spaced(seq![h]) == h.0,
        lowest(hits.push(h)) <= h.1,
        lowest(hits.push(h)) <= lowest(hits),
        lowest(hits.push(h)) == h.1 || lowest(hits.push(h)) == lowest(hits),
        lowest(seq![h]) == h.1,
{
    assert(hits.push(h).drop_last() =~= hits);
    assert(hits.push(h).last() == h);
    reveal_strlit(" ");
    assert(" "@ =~= seq![' ']);
}

proof fn endings_are_spelt()
    ensures
        "ing"@ == seq!['i', 'n', 'g'],
        "'d"@ == seq!['\'', 'd'],
        "ed"@ == seq!['e', 'd'],
        "'s"@ == seq!['\'', 's'],
        "st"@ == seq!['s', 't'],
        "nd"@ == seq!['n', 'd'],
        "rd"@ == seq!['r', 'd'],
        "th"@ == seq!['t', 'h'],
        "s"@ == seq!['s'],
{
    reveal_strlit("ing");
    reveal_strlit("'d");
    reveal_strlit("ed");
    reveal_strlit("'s");
    reveal_strlit("st");
    reveal_strlit("nd");
    reveal_strlit("rd");
    reveal_strlit("th");
    reveal_strlit("s");
}

/// A word that a figure ends looks like a number exactly where it holds nothing but figures, commas
/// and points, and at the head of a token perhaps a minus in front.
pub proof fn what_looks_like_a_number(w: Seq<char>, is_head: bool)
    requires
        w.len() > 0,
        is_digit(w.last()),
    ensures
        numeric(w, is_head) <==> forall|i: int|
            0 <= i < w.len() ==> is_digit(#[trigger] w[i]) || w[i] == ',' || w[i] == '.' || (is_head
                && i == 0 && w[i] == '-'),
{
    endings_are_spelt();
    assert(is_digit(w[w.len() - 1]));
    no_such_ending(w, "ing"@);
    no_such_ending(w, "'d"@);
    no_such_ending(w, "ed"@);
    no_such_ending(w, "'s"@);
    no_such_ending(w, "st"@);
    no_such_ending(w, "nd"@);
    no_such_ending(w, "rd"@);
    no_such_ending(w, "th"@);
    no_such_ending(w, "s"@);
    assert(without_ending(w) == w);
    if numeric(w, is_head) {
        assert forall|i: int| 0 <= i < w.len() implies is_digit(#[trigger] w[i]) || w[i] == ',' || w[i]
            == '.' || (is_head && i == 0 && w[i] == '-') by {
            assert(number_char(w, i, is_head));
        }
    }
}

proof fn no_such_ending(w: Seq<char>, e: Seq<char>)
    requires
        w.len() > 0,
        e.len() > 0,
        w.last() != e.last(),
    ensures
        !e.is_suffix_of(w),
{
    if e.is_suffix_of(w) {
        let t = w.subrange(w.len() - e.len(), w.len() as int);
        assert(t.last() == w.last());
    }
}

/// Two runs of figures with a point between them.
pub open spec fn pointed(a: Seq<char>, b: Seq<char>) -> Seq<char> {
    a + seq!['.'] + b
}

proof fn pointed_figures(a: Seq<char>, b: Seq<char>)
    requires
        figures(a),
        figures(b),
    ensures
        body(pointed(a, b)) == pointed(a, b),
        ending(pointed(a, b)) == Seq::<char>::empty(),
        !is_negative(pointed(a, b)),
        without(pointed(a, b), ',') == pointed(a, b),
        pointed(a, b).contains('.'),
        count_of(pointed(a, b), '.') == 1,
        split_on(pointed(a, b), '.') == seq![a, b],
        !all_digits(pointed(a, b)),
        !ordinal_ending(ending(pointed(a, b))),
        pointed(a, b)[0] != '.',
        crate::text::first_index(pointed(a, b), '.') == a.len(),
{
    let w = pointed(a, b);
    let n = w.len() as int;
    bare_figures(a);
    bare_figures(b);
    assert(is_digit(a[0]) && is_digit(b[b.len() - 1]));
    assert(w[0] == a[0]);
    assert(w[n - 1] == b[b.len() - 1]);
    ending_begins(w, n);
    assert(w.take(n) =~= w);
    assert(w.skip(n) =~= Seq::<char>::empty());
    assert(ending(w) == ending(a)) by {
        assert(ending(w) =~= Seq::<char>::empty());
    }
    assert(w[a.len() as int] == '.');
    without_sum(a, seq!['.'], ',');
    without_sum(a + seq!['.'], b, ',');
    assert(without(seq!['.'], ',') =~= seq!['.']) by {
        assert(seq!['.'].drop_last() =~= Seq::<char>::empty());
        assert(without(Seq::<char>::empty(), ',') =~= Seq::<char>::empty());
    }
    assert(without(w, ',') =~= w);
    count_sum(a, seq!['.'], '.');
    count_sum(a + seq!['.'], b, '.');
    assert(count_of(seq!['.'], '.') == 1) by {
        assert(seq!['.'].drop_last() =~= Seq::<char>::empty());
        assert(count_of(Seq::<char>::empty(), '.') == 0);
    }
    crate::text_laws::splitting_goes_on(a, '.', b);
    assert(split_on(w, '.') =~= seq![a, b]);
    assert(!is_digit(w[a.len() as int]));
    crate::text::first_index_bounds(w, '.');
    let m = crate::text::first_index(w, '.');
    if m < a.len() {
        assert(w[m] == a[m]);
        assert(a.contains(a[m]));
    }
}

proof fn without_sum(a: Seq<char>, b: Seq<char>, c: char)
    ensures
        without(a + b, c) == without(a, c) + without(b, c),
    decreases b.len(),
{
    if b.len() == 0 {
        assert(a + b =~= a);
        assert(without(a, c) + without(b, c) =~= without(a, c));
    } else {
        without_sum(a, b.drop_last(), c);
        assert((a + b).drop_last() =~= a + b.drop_last());
        assert((a + b).last() == b.last());
        assert(without(a + b, c) =~= without(a, c) + without(b, c));
    }
}

proof fn count_sum(a: Seq<char>, b: Seq<char>, c: char)
    ensures
        count_of(a + b, c) == count_of(a, c) + count_of(b, c),
    decreases b.len(),
{
    if b.len() == 0 {
        assert(a + b =~= a);
    } else {
        count_sum(a, b.drop_last(), c);
        assert((a + b).drop_last() =~= a + b.drop_last());
        assert((a + b).last() == b.last());
    }
}

impl LexiconView {
    /// Figures with one point at the head of a token, without a currency, are a decimal number.
    pub proof fn one_point_makes_a_decimal(
        self,
        a: Seq<char>,
        b: Seq<char>,
        flags: Seq<char>,
        words: Seq<char>,
    )
        requires
            figures(a),
            figures(b),
            crate::num2words::decimal_words(pointed(a, b)) == Some(words),
        ensures
            self.number_hits(pointed(a, b), None, true, flags) == Some(
                self.say(Seq::empty(), words, true, flags),
            ),
    {
        pointed_figures(a, b);
    }

    /// Behind a currency sign figures with one point are an amount in two parts, as long as there are
    /// at most two decimals or all of them are zeros; any other is a decimal number.
    pub proof fn one_point_divides_money(
        self,
        a: Seq<char>,
        b: Seq<char>,
        flags: Seq<char>,
        words: Seq<char>,
    )
        requires
            figures(a),
            figures(b),
            crate::num2words::decimal_words(pointed(a, b)) == Some(words),
        ensures
            b.len() <= 2 || (forall|i: int| 0 <= i < b.len() ==> #[trigger] b[i] == '0')
                ==> self.number_hits(pointed(a, b), Some("$"@), true, flags) == Some(
                self.say_money(Seq::empty(), seq![a, b], ("dollar"@, "cent"@), flags),
            ),
            b.len() > 2 && (exists|i: int| 0 <= i < b.len() && #[trigger] b[i] != '0')
                ==> self.number_hits(pointed(a, b), Some("$"@), true, flags) == Some(
                self.say(Seq::empty(), words, true, flags),
            ),
    {
        pointed_figures(a, b);
        signs_have_units("$"@);
        let w = pointed(a, b);
        assert(w.skip((a.len() + 1) as int) =~= b);
    }

    /// Inside a token figures with a point are read group by group.
    pub proof fn points_inside_divide_groups(self, a: Seq<char>, b: Seq<char>, flags: Seq<char>)
        requires
            figures(a),
            figures(b),
            a.len() + 1 + b.len() != 4,
        ensures
            self.number_hits(pointed(a, b), None, false, flags) == Some(
                self.say_groups(Seq::empty(), seq![a, b], 2, flags),
            ),
    {
        pointed_figures(a, b);
    }

    /// A group of figures is read as a number where it has one figure, or two without a zero in front,
    /// or is round; any other is read figure by figure.
    pub proof fn groups_of_figures(
        self,
        hits: Seq<(Seq<char>, u8)>,
        groups: Seq<Seq<char>>,
        g: Seq<char>,
        flags: Seq<char>,
    )
        requires
            figures(g),
        ensures
            ({
                let n = groups.len() as int;
                let more = groups.push(g);
                let before = self.say_groups(hits, more, n, flags);
                let after = self.say_groups(hits, more, n + 1, flags);
                let round = forall|i: int| 1 <= i < g.len() ==> #[trigger] g[i] == '0';
                let number = g[0] != '0' && (g.len() == 2 || round);
                &&& number ==> after == self.say(
                    before,
                    cardinal_words(digits_value(g) as int),
                    n == 0,
                    flags,
                )
                &&& !number ==> after == self.say_digits(before, g, flags)
            }),
    {
        bare_figures(g);
        let n = groups.len() as int;
        let more = groups.push(g);
        assert(more[n] == g);
        let tail = g.skip(1);
        let round = forall|i: int| 1 <= i < g.len() ==> #[trigger] g[i] == '0';
        if round {
            assert forall|i: int| 0 <= i < tail.len() implies #[trigger] tail[i] == '0' by {
                assert(tail[i] == g[i + 1]);
            }
        }
        if crate::numbers::all_zeros(tail) {
            assert forall|i: int| 1 <= i < g.len() implies #[trigger] g[i] == '0' by {
                assert(tail[i - 1] == g[i]);
            }
        }
        assert(crate::numbers::all_zeros(tail) == round);
    }

    /// Commas in a number at the head of a token do not count: it is read as the number without them.
    pub proof fn commas_do_not_count(self, w: Seq<char>, flags: Seq<char>)
        requires
            w.len() > 0,
            forall|i: int| 0 <= i < w.len() ==> is_digit(#[trigger] w[i]) || w[i] == ',',
            w.contains(','),
            figures(without(w, ',')),
        ensures
            self.number_hits(w, None, true, flags) == Some(
                self.say(
                    Seq::empty(),
                    cardinal_words(digits_value(without(w, ',')) as int),
                    true,
                    flags,
                ),
            ),
    {
        let n = w.len() as int;
        let k = choose|k: int| 0 <= k < w.len() && w[k] == ',';
        assert(!is_digit(w[k]));
        assert(is_digit(w[n - 1]) || w[n - 1] == ',');
        assert(is_digit(w[0]) || w[0] == ',');
        ending_begins(w, n);
        assert(w.take(n) =~= w);
        assert(ending(w) =~= Seq::<char>::empty());
        reveal_strlit("st");
        reveal_strlit("nd");
        reveal_strlit("rd");
        reveal_strlit("th");
        assert("st"@.len() == 2 && "nd"@.len() == 2 && "rd"@.len() == 2 && "th"@.len() == 2);
        if w.contains('.') {
            let i = choose|i: int| 0 <= i < w.len() && w[i] == '.';
            assert(is_digit(w[i]) || w[i] == ',');
        }
        crate::numbers::none_counted(w, '.');
        bare_figures(without(w, ','));
    }
}

/// One of the nine endings that a number can have does not change whether it looks like one.
pub proof fn endings_do_not_count(w: Seq<char>, e: Seq<char>, is_head: bool)
    requires
        w.len() > 0,
        is_digit(w.last()),
        e == "ing"@ || e == "'d"@ || e == "ed"@ || e == "'s"@ || e == "st"@ || e == "nd"@ || e
            == "rd"@ || e == "th"@ || e == "s"@,
    ensures
        without_ending(w + e) == w,
        numeric(w + e, is_head) == numeric(w, is_head),
{
    endings_are_spelt();
    let l = w + e;
    let n = w.len() as int;
    assert(l.take(n) =~= w);
    assert(l[n - 1] == w.last());
    assert(e.is_suffix_of(l)) by {
        assert(l.subrange(n, l.len() as int) =~= e);
    }
    only_that_ending(w, e, "ing"@);
    only_that_ending(w, e, "'d"@);
    only_that_ending(w, e, "ed"@);
    only_that_ending(w, e, "'s"@);
    only_that_ending(w, e, "st"@);
    only_that_ending(w, e, "nd"@);
    only_that_ending(w, e, "rd"@);
    only_that_ending(w, e, "th"@);
    assert(without_ending(l) == w) by {
        if "ing"@.is_suffix_of(l) {
            assert(e == "ing"@);
        } else if "'d"@.is_suffix_of(l) {
            assert(e == "'d"@);
        } else if "ed"@.is_suffix_of(l) {
            assert(e == "ed"@);
        } else if "'s"@.is_suffix_of(l) {
            assert(e == "'s"@);
        } else if "st"@.is_suffix_of(l) {
            assert(e == "st"@);
        } else if "nd"@.is_suffix_of(l) {
            assert(e == "nd"@);
        } else if "rd"@.is_suffix_of(l) {
            assert(e == "rd"@);
        } else if "th"@.is_suffix_of(l) {
            assert(e == "th"@);
        }
    }
    no_such_ending(w, "ing"@);
    no_such_ending(w, "'d"@);
    no_such_ending(w, "ed"@);
    no_such_ending(w, "'s"@);
    no_such_ending(w, "st"@);
    no_such_ending(w, "nd"@);
    no_such_ending(w, "rd"@);
    no_such_ending(w, "th"@);
    no_such_ending(w, "s"@);
    assert(without_ending(w) == w);
    assert(is_digit(l[n - 1]));
    assert(is_digit(w[n - 1]));
}

/// A number has no other ending than the one set on it.
proof fn only_that_ending(w: Seq<char>, e: Seq<char>, f: Seq<char>)
    requires
        w.len() > 0,
        is_digit(w.last()),
        1 <= e.len() <= 3,
        2 <= f.len() <= 3,
        forall|i: int| 0 <= i < e.len() ==> !is_digit(#[trigger] e[i]),
        forall|i: int| 0 <= i < f.len() ==> !is_digit(#[trigger] f[i]),
        f.len() < e.len() ==> f.last() != e.last(),
    ensures
        f.is_suffix_of(w + e) ==> f == e,
{
    let l = w + e;
    let n = w.len() as int;
    if f.is_suffix_of(l) {
        let t = l.subrange(l.len() - f.len(), l.len() as int);
        assert(t == f);
        if f.len() > e.len() {
            let k = f.len() - e.len() - 1;
            assert(t[k] == l[n - 1]);
            assert(l[n - 1] == w.last());
            assert(!is_digit(f[k]));
        } else if f.len() == e.len() {
            assert(t =~= e);
        } else {
            assert(t.last() == e.last());
        }
    }
}

impl LexiconView {
    /// Commas in a number inside a token do not count either: with more than three figures, or a zero
    /// in front, it is read figure by figure.
    pub proof fn commas_inside_do_not_count(self, w: Seq<char>, flags: Seq<char>)
        requires
            w.len() > 0,
            forall|i: int| 0 <= i < w.len() ==> is_digit(#[trigger] w[i]) || w[i] == ',',
            w.contains(','),
            figures(without(w, ',')),
            without(w, ',').len() > 3 || without(w, ',')[0] == '0',
        ensures
            self.number_hits(w, None, false, flags) == Some(
                self.say_digits(Seq::empty(), without(w, ','), flags),
            ),
    {
        let n = w.len() as int;
        let k = choose|k: int| 0 <= k < w.len() && w[k] == ',';
        assert(!is_digit(w[k]));
        assert(is_digit(w[n - 1]) || w[n - 1] == ',');
        assert(is_digit(w[0]) || w[0] == ',');
        ending_begins(w, n);
        assert(w.take(n) =~= w);
        if w.contains('.') {
            let i = choose|i: int| 0 <= i < w.len() && w[i] == '.';
            assert(is_digit(w[i]) || w[i] == ',');
        }
    }

    /// The first word of a number is looked up as it is, unless it is the "one" of a longer number that
    /// stands first and is to be reduced.
    pub proof fn the_first_word_of_a_number(
        self,
        hits: Seq<(Seq<char>, u8)>,
        pieces: Seq<Seq<char>>,
        first: bool,
        flags: Seq<char>,
        h: (Seq<char>, u8),
    )
        requires
            pieces.len() > 0,
            pieces[0] != "and"@,
            pieces[0] != "point"@,
            !first || pieces.len() == 1 || pieces[0] != "one"@ || !flags.contains('a'),
            self.lookup(pieces[0], ""@, None, None) == Some(h),
        ensures
            self.say_pieces(hits, pieces, 1, first, flags) == hits.push(h),
    {
        assert(self.say_pieces(hits, pieces, 0, first, flags) == hits);
    }
}

} // verus!
