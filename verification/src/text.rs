//! Strings as sequences of characters: the small operations that the rest of the library
//! is written in, each with an exact contract over `Seq<char>`.

use vstd::prelude::*;
use vstd::string::*;
use vstd::utf8::*;

verus! {

broadcast use vstd::seq::group_seq_axioms;

/// `String::push` appends one character.
pub assume_specification [String::push] (s: &mut String, c: char)
    ensures
        final(s)@ == old(s)@.push(c),
;

/// Where the last piece of `s` begins when `s` is cut behind every `c`.
pub open spec fn last_piece(s: Seq<char>, c: char) -> int
    decreases s.len(),
{
    if s.len() == 0 || s.last() == c {
        s.len() as int
    } else {
        last_piece(s.drop_last(), c)
    }
}

/// The index of the first `c` in `s`, or the length of `s`.
pub open spec fn first_index(s: Seq<char>, c: char) -> int
    decreases s.len(),
{
    if s.len() == 0 {
        0
    } else if s[0] == c {
        0
    } else {
        1 + first_index(s.skip(1), c)
    }
}

/// An ASCII digit.
pub open spec fn is_digit(c: char) -> bool {
    '0' as u32 <= c as u32 <= '9' as u32
}

/// A small letter of the ASCII alphabet.
pub open spec fn is_small(c: char) -> bool {
    'a' as u32 <= c as u32 <= 'z' as u32
}

/// A capital letter of the ASCII alphabet.
pub open spec fn is_capital(c: char) -> bool {
    'A' as u32 <= c as u32 <= 'Z' as u32
}

/// Every character of `s` is an ASCII digit.
pub open spec fn all_digits(s: Seq<char>) -> bool {
    forall|i: int| 0 <= i < s.len() ==> is_digit(#[trigger] s[i])
}

/// The number that a run of ASCII digits writes.
pub open spec fn digits_value(s: Seq<char>) -> nat
    decreases s.len(),
{
    if s.len() == 0 {
        0
    } else {
        digits_value(s.drop_last()) * 10 + ((s.last() as u32 - '0' as u32) as nat)
    }
}

/// The characters of a string.
pub fn chars_of(s: &str) -> (r: Vec<char>)
    ensures
        r@ == s@,
{
    let mut r: Vec<char> = Vec::new();
    for c in it: s.chars()
        invariant
            it.seq() == s@,
            r@ == s@.take(it.index() as int),
    {
        r.push(c);
        assert(s@.take(it.index() as int).push(c) =~= s@.take(it.index() + 1));
    }
    assert(s@.take(s@.len() as int) =~= s@);
    r
}

/// The string made of the characters from `from` up to `to`.
pub fn string_of(v: &Vec<char>, from: usize, to: usize) -> (r: String)
    requires
        from <= to <= v@.len(),
    ensures
        r@ == v@.subrange(from as int, to as int),
{
    let mut r = String::new();
    let mut i: usize = from;
    while i < to
        invariant
            from <= i <= to <= v@.len(),
            r@ == v@.subrange(from as int, i as int),
        decreases to - i,
    {
        r.push(v[i]);
        i = i + 1;
        assert(v@.subrange(from as int, i - 1).push(v@[i - 1]) =~= v@.subrange(
            from as int,
            i as int,
        ));
    }
    r
}

/// Whether two strings hold the same characters.
pub fn str_eq(a: &str, b: &str) -> (r: bool)
    ensures
        r == (a@ == b@),
{
    let x = a.as_bytes();
    let y = b.as_bytes();
    proof {
        encode_utf8_decode_utf8(a@);
        encode_utf8_decode_utf8(b@);
    }
    if x.len() != y.len() {
        return false;
    }
    let mut i: usize = 0;
    while i < x.len()
        invariant
            i <= x@.len() == y@.len(),
            x@ == encode_utf8(a@),
            y@ == encode_utf8(b@),
            x@.take(i as int) == y@.take(i as int),
        decreases x.len() - i,
    {
        if x[i] != y[i] {
            return false;
        }
        i = i + 1;
        assert(x@.take(i as int) =~= x@.take(i - 1).push(x@[i - 1]));
        assert(y@.take(i as int) =~= y@.take(i - 1).push(y@[i - 1]));
    }
    assert(x@ =~= x@.take(i as int));
    assert(y@ =~= y@.take(i as int));
    true
}

/// `a` followed by `b`.
pub fn cat(a: &str, b: &str) -> (r: String)
    ensures
        r@ == a@ + b@,
{
    let mut r = a.to_owned();
    r.append(b);
    r
}

/// `a` followed by `b` and `c`.
pub fn cat3(a: &str, b: &str, c: &str) -> (r: String)
    ensures
        r@ == a@ + b@ + c@,
{
    let mut r = a.to_owned();
    r.append(b);
    r.append(c);
    r
}

/// The first `n` characters.
pub fn head_of(s: &str, n: usize) -> (r: &str)
    requires
        n <= s@.len(),
    ensures
        r@ == s@.take(n as int),
{
    s.substring_char(0, n)
}

/// What follows the first `n` characters.
pub fn tail_of(s: &str, n: usize) -> (r: &str)
    requires
        n <= s@.len(),
    ensures
        r@ == s@.skip(n as int),
{
    s.substring_char(n, s.unicode_len())
}

/// The first character.
pub fn first_char(s: &str) -> (r: Option<char>)
    ensures
        r == (if s@.len() == 0 { None } else { Some(s@[0]) }),
{
    if s.is_empty() {
        None
    } else {
        Some(s.get_char(0))
    }
}

/// The last character.
pub fn last_char(s: &str) -> (r: Option<char>)
    ensures
        r == (if s@.len() == 0 { None } else { Some(s@.last()) }),
{
    if s.is_empty() {
        None
    } else {
        Some(s.get_char(s.unicode_len() - 1))
    }
}

/// Whether `s` begins with `p`.
pub fn starts_with(s: &str, p: &str) -> (r: bool)
    ensures
        r == p@.is_prefix_of(s@),
{
    let n: usize = p.unicode_len();
    if s.unicode_len() < n {
        return false;
    }
    str_eq(s.substring_char(0, n), p)
}

/// Whether `s` ends with `p`.
pub fn ends_with(s: &str, p: &str) -> (r: bool)
    ensures
        r == p@.is_suffix_of(s@),
{
    let n: usize = p.unicode_len();
    let m: usize = s.unicode_len();
    if m < n {
        return false;
    }
    str_eq(s.substring_char(m - n, m), p)
}

/// Whether `c` occurs in `s`.
pub fn contains_char(s: &str, c: char) -> (r: bool)
    ensures
        r == s@.contains(c),
{
    for d in it: s.chars()
        invariant
            it.seq() == s@,
            forall|k: int| 0 <= k < it.index() ==> s@[k] != c,
    {
        if d == c {
            assert(s@[it.index() as int] == c);
            return true;
        }
    }
    false
}

/// Whether the last character of `s` is `c`.
pub fn ends_with_char(s: &str, c: char) -> (r: bool)
    ensures
        r == (s@.len() > 0 && s@.last() == c),
{
    match last_char(s) {
        Some(d) => d == c,
        None => false,
    }
}

/// The last piece begins inside the sequence.
pub proof fn last_piece_bounds(s: Seq<char>, c: char)
    ensures
        0 <= last_piece(s, c) <= s.len(),
        last_piece(s, c) > 0 ==> s[last_piece(s, c) - 1] == c,
        forall|k: int| last_piece(s, c) <= k < s.len() ==> s[k] != c,
    decreases s.len(),
{
    if s.len() > 0 && s.last() != c {
        last_piece_bounds(s.drop_last(), c);
        assert forall|k: int| last_piece(s, c) <= k < s.len() implies s[k] != c by {
            if k < s.len() - 1 {
                assert(s[k] == s.drop_last()[k]);
            }
        }
    }
}

/// Where the last piece of `s` begins when `s` is cut behind every `c`.
pub fn last_piece_start(s: &Vec<char>, c: char) -> (r: usize)
    ensures
        r == last_piece(s@, c),
        r <= s@.len(),
{
    let mut i: usize = s.len();
    assert(s@.take(i as int) =~= s@);
    while i > 0 && s[i - 1] != c
        invariant
            i <= s@.len(),
            last_piece(s@, c) == last_piece(s@.take(i as int), c),
        decreases i,
    {
        assert(s@.take(i as int).drop_last() =~= s@.take(i - 1));
        i = i - 1;
    }
    i
}

/// The index of the first `c`, or the length.
pub fn index_of_char(s: &Vec<char>, c: char) -> (r: usize)
    ensures
        r == first_index(s@, c),
        r <= s@.len(),
{
    let mut i: usize = 0;
    assert(s@.skip(0) =~= s@);
    while i < s.len() && s[i] != c
        invariant
            i <= s@.len(),
            first_index(s@, c) == i + first_index(s@.skip(i as int), c),
        decreases s.len() - i,
    {
        assert(s@.skip(i as int).skip(1) =~= s@.skip(i + 1));
        i = i + 1;
    }
    i
}

/// The first index of `c` is the place of a `c` with none before it.
pub proof fn first_index_bounds(s: Seq<char>, c: char)
    ensures
        0 <= first_index(s, c) <= s.len(),
        first_index(s, c) < s.len() ==> s[first_index(s, c)] == c,
        forall|k: int| 0 <= k < first_index(s, c) ==> s[k] != c,
    decreases s.len(),
{
    if s.len() > 0 && s[0] != c {
        first_index_bounds(s.skip(1), c);
        assert forall|k: int| 0 <= k < first_index(s, c) implies s[k] != c by {
            if k > 0 {
                assert(s[k] == s.skip(1)[k - 1]);
            }
        }
    }
}

/// The whole number that `s` writes: an optional sign, then digits only, within the range
/// of `i64`.
pub open spec fn whole_number(s: Seq<char>) -> Option<int> {
    let negative = s.len() > 0 && s[0] == '-';
    let digits = if s.len() > 0 && (s[0] == '-' || s[0] == '+') {
        s.skip(1)
    } else {
        s
    };
    let v = if negative {
        -digits_value(digits)
    } else {
        digits_value(digits) as int
    };
    if digits.len() > 0 && all_digits(digits) && i64::MIN <= v <= i64::MAX {
        Some(v)
    } else {
        None
    }
}

/// More digits never write a smaller number.
proof fn digits_value_grows(s: Seq<char>, n: int)
    requires
        0 <= n <= s.len(),
    ensures
        digits_value(s.take(n)) <= digits_value(s),
    decreases s.len() - n,
{
    if n < s.len() {
        digits_value_grows(s, n + 1);
        assert(s.take(n + 1).drop_last() =~= s.take(n));
    } else {
        assert(s.take(n) =~= s);
    }
}

/// The value of the digits from `from` on, if all are digits and the value is at most
/// `limit`.
fn parse_digits(s: &Vec<char>, from: usize, limit: u64) -> (r: Option<u64>)
    requires
        from <= s@.len(),
        limit >= 9,
    ensures
        r == (if all_digits(s@.skip(from as int)) && digits_value(s@.skip(from as int)) <= limit {
            Some(digits_value(s@.skip(from as int)) as u64)
        } else {
            None
        }),
{
    let ghost d = s@.skip(from as int);
    let mut v: u64 = 0;
    let mut i: usize = from;
    while i < s.len()
        invariant
            from <= i <= s@.len(),
            d == s@.skip(from as int),
            all_digits(d.take(i - from)),
            v == digits_value(d.take(i - from)),
            v <= limit,
            limit >= 9,
        decreases s.len() - i,
    {
        let c: u32 = s[i] as u32;
        assert(d[i - from] == s@[i as int]);
        assert(d.take(i + 1 - from).drop_last() =~= d.take(i - from));
        if c < '0' as u32 || c > '9' as u32 {
            assert(!all_digits(d));
            return None;
        }
        let digit: u64 = (c - '0' as u32) as u64;
        if v > (limit - digit) / 10 {
            proof {
                digits_value_grows(d, i + 1 - from);
            }
            return None;
        }
        v = v * 10 + digit;
        assert forall|k: int| 0 <= k < i + 1 - from implies is_digit(
            #[trigger] d.take(i + 1 - from)[k],
        ) by {
            if k < i - from {
                assert(d.take(i - from)[k] == d[k]);
            }
        }
        i = i + 1;
    }
    assert(d.take(i - from) =~= d);
    Some(v)
}

/// Reads a whole number.
pub fn parse_whole(s: &Vec<char>) -> (r: Option<i64>)
    ensures
        r == (match whole_number(s@) {
            Some(v) => Some(v as i64),
            None => None,
        }),
{
    let n: usize = s.len();
    let negative = n > 0 && s[0] == '-';
    let from: usize = if n > 0 && (s[0] == '-' || s[0] == '+') {
        1
    } else {
        0
    };
    assert(s@.skip(0) =~= s@);
    if n == from {
        return None;
    }
    let limit: u64 = 0x8000_0000_0000_0000;
    match parse_digits(s, from, limit) {
        None => None,
        Some(v) => {
            if negative {
                if v == limit {
                    Some(i64::MIN)
                } else {
                    Some(-(v as i64))
                }
            } else if v == limit {
                None
            } else {
                Some(v as i64)
            }
        },
    }
}

/// The number of characters before the run of `c` at the end of `s`.
pub open spec fn trimmed_len(s: Seq<char>, c: char) -> int
    decreases s.len(),
{
    if s.len() > 0 && s.last() == c {
        trimmed_len(s.drop_last(), c)
    } else {
        s.len() as int
    }
}

/// The number of characters before the run of `c` at the end of the first `to` characters.
pub fn trim_end_len(s: &Vec<char>, to: usize, c: char) -> (r: usize)
    requires
        to <= s@.len(),
    ensures
        r == trimmed_len(s@.take(to as int), c),
        r <= to,
{
    let mut i: usize = to;
    while i > 0 && s[i - 1] == c
        invariant
            i <= to <= s@.len(),
            trimmed_len(s@.take(to as int), c) == trimmed_len(s@.take(i as int), c),
        decreases i,
    {
        assert(s@.take(i as int).drop_last() =~= s@.take(i - 1));
        i = i - 1;
    }
    i
}

/// The length of the run of `c` at the start of `s`.
pub open spec fn leading_run(s: Seq<char>, c: char) -> int
    decreases s.len(),
{
    if s.len() > 0 && s[0] == c {
        1 + leading_run(s.skip(1), c)
    } else {
        0
    }
}

/// The length of the run of `c` at the start of `s`.
pub fn leading_run_len(s: &Vec<char>, c: char) -> (r: usize)
    ensures
        r == leading_run(s@, c),
        r <= s@.len(),
{
    let mut i: usize = 0;
    assert(s@.skip(0) =~= s@);
    while i < s.len() && s[i] == c
        invariant
            i <= s@.len(),
            leading_run(s@, c) == i + leading_run(s@.skip(i as int), c),
        decreases s.len() - i,
    {
        assert(s@.skip(i as int).skip(1) =~= s@.skip(i + 1));
        i = i + 1;
    }
    i
}

/// The characters from `from` up to `to`.
pub fn slice_of(v: &Vec<char>, from: usize, to: usize) -> (r: Vec<char>)
    requires
        from <= to <= v@.len(),
    ensures
        r@ == v@.subrange(from as int, to as int),
{
    let mut r: Vec<char> = Vec::new();
    let mut i: usize = from;
    while i < to
        invariant
            from <= i <= to <= v@.len(),
            r@ == v@.subrange(from as int, i as int),
        decreases to - i,
    {
        r.push(v[i]);
        i = i + 1;
        assert(v@.subrange(from as int, i - 1).push(v@[i - 1]) =~= v@.subrange(
            from as int,
            i as int,
        ));
    }
    r
}

/// A run of `c` ends before another character or at the end.
pub proof fn leading_run_stops(s: Seq<char>, c: char)
    ensures
        0 <= leading_run(s, c) <= s.len(),
        leading_run(s, c) < s.len() ==> s[leading_run(s, c)] != c,
    decreases s.len(),
{
    if s.len() > 0 && s[0] == c {
        leading_run_stops(s.skip(1), c);
    }
}

/// The characters of each string of a list.
pub open spec fn strings(v: Seq<String>) -> Seq<Seq<char>> {
    v.map_values(|s: String| s@)
}

/// The pieces of `s` between the characters `c`.
pub open spec fn split_on(s: Seq<char>, c: char) -> Seq<Seq<char>>
    decreases s.len(),
{
    let i = first_index(s, c);
    if 0 <= i < s.len() {
        seq![s.take(i)] + split_on(s.skip(i + 1), c)
    } else {
        seq![s]
    }
}

/// `s` without the characters `c`.
pub open spec fn without(s: Seq<char>, c: char) -> Seq<char>
    decreases s.len(),
{
    if s.len() == 0 {
        s
    } else if s.last() == c {
        without(s.drop_last(), c)
    } else {
        without(s.drop_last(), c).push(s.last())
    }
}

/// How often `c` occurs in `s`.
pub open spec fn count_of(s: Seq<char>, c: char) -> nat
    decreases s.len(),
{
    if s.len() == 0 {
        0
    } else {
        count_of(s.drop_last(), c) + (if s.last() == c {
            1nat
        } else {
            0nat
        })
    }
}

/// The pieces of `s` between the characters `c`.
pub fn split_at_char(s: &Vec<char>, c: char) -> (r: Vec<String>)
    ensures
        strings(r@) == split_on(s@, c),
        r@.len() > 0,
{
    let mut out: Vec<String> = Vec::new();
    let mut start: usize = 0;
    let mut i: usize = 0;
    assert(s@.skip(0) =~= s@);
    assert(strings(out@) + split_on(s@, c) =~= split_on(s@, c));
    assert(first_index(s@, c) == 0 + first_index(s@.skip(0), c));
    while i < s.len()
        invariant
            start <= i <= s@.len(),
            split_on(s@, c) == strings(out@) + split_on(s@.skip(start as int), c),
            first_index(s@.skip(start as int), c) == (i - start) + first_index(
                s@.skip(i as int),
                c,
            ),
        decreases s.len() - i,
    {
        assert(s@.skip(i as int).skip(1) =~= s@.skip(i + 1));
        if s[i] == c {
            let piece = string_of(s, start, i);
            let ghost before = out@;
            out.push(piece);
            proof {
                let rest = s@.skip(start as int);
                assert(rest.take(i - start) =~= piece@);
                assert(rest.skip(i + 1 - start) =~= s@.skip(i + 1));
                assert(strings(out@) =~= strings(before).push(piece@));
                assert(strings(out@) + split_on(s@.skip(i + 1), c) =~= strings(before) + split_on(
                    rest,
                    c,
                ));
            }
            start = i + 1;
        }
        i = i + 1;
    }
    let piece = string_of(s, start, s.len());
    let ghost before = out@;
    out.push(piece);
    proof {
        let rest = s@.skip(start as int);
        assert(rest =~= piece@);
        assert(strings(out@) =~= strings(before) + split_on(rest, c));
    }
    out
}

/// `s` without the characters `c`.
pub fn remove_char(s: &Vec<char>, c: char) -> (r: Vec<char>)
    ensures
        r@ == without(s@, c),
{
    let mut out: Vec<char> = Vec::new();
    let mut i: usize = 0;
    while i < s.len()
        invariant
            i <= s@.len(),
            out@ == without(s@.take(i as int), c),
        decreases s.len() - i,
    {
        assert(s@.take(i + 1).drop_last() =~= s@.take(i as int));
        if s[i] != c {
            out.push(s[i]);
        }
        i = i + 1;
    }
    assert(s@.take(i as int) =~= s@);
    out
}

/// How often `c` occurs in `s`.
pub fn count_char(s: &Vec<char>, c: char) -> (r: usize)
    ensures
        r == count_of(s@, c),
{
    let mut n: usize = 0;
    let mut i: usize = 0;
    while i < s.len()
        invariant
            n <= i <= s@.len(),
            n == count_of(s@.take(i as int), c),
        decreases s.len() - i,
    {
        assert(s@.take(i + 1).drop_last() =~= s@.take(i as int));
        if s[i] == c {
            n = n + 1;
        }
        i = i + 1;
    }
    assert(s@.take(i as int) =~= s@);
    n
}

/// Whether `s` is a run of ASCII digits with at least one.
pub fn is_digits(s: &Vec<char>) -> (r: bool)
    ensures
        r == (s@.len() > 0 && all_digits(s@)),
{
    let mut i: usize = 0;
    while i < s.len()
        invariant
            i <= s@.len(),
            forall|k: int| 0 <= k < i ==> is_digit(#[trigger] s@[k]),
        decreases s.len() - i,
    {
        let c: u32 = s[i] as u32;
        if c < '0' as u32 || c > '9' as u32 {
            assert(!is_digit(s@[i as int]));
            return false;
        }
        i = i + 1;
    }
    s.len() > 0
}

/// Nothing is in the text without `c` that was not in it before, and no `c`.
pub proof fn without_members(s: Seq<char>, c: char)
    ensures
        forall|i: int| 0 <= i < without(s, c).len() ==> s.contains(#[trigger] without(s, c)[i]),
        !without(s, c).contains(c),
        without(s, c).len() <= s.len(),
    decreases s.len(),
{
    if s.len() > 0 {
        let t = s.drop_last();
        without_members(t, c);
        assert forall|i: int| 0 <= i < without(s, c).len() implies s.contains(
            #[trigger] without(s, c)[i],
        ) by {
            if i < without(t, c).len() {
                assert(without(s, c)[i] == without(t, c)[i]);
                let k = choose|k: int| 0 <= k < t.len() && t[k] == without(t, c)[i];
                assert(s[k] == t[k]);
            } else {
                assert(s[s.len() - 1] == s.last());
            }
        }
        assert forall|i: int| 0 <= i < without(s, c).len() implies without(s, c)[i] != c by {
            if i < without(t, c).len() {
                assert(without(s, c)[i] == without(t, c)[i]);
            }
        }
    }
}

/// `s` without `p` at its end.
pub fn strip_suffix<'a>(s: &'a str, p: &str) -> (r: Option<&'a str>)
    ensures
        match r {
            Some(t) => p@.is_suffix_of(s@) && t@ == s@.take(s@.len() - p@.len()),
            None => !p@.is_suffix_of(s@),
        },
{
    if ends_with(s, p) {
        Some(head_of(s, s.unicode_len() - p.unicode_len()))
    } else {
        None
    }
}

/// `s` without `p` at its start.
pub fn strip_prefix<'a>(s: &'a str, p: &str) -> (r: Option<&'a str>)
    ensures
        match r {
            Some(t) => p@.is_prefix_of(s@) && t@ == s@.skip(p@.len() as int),
            None => !p@.is_prefix_of(s@),
        },
{
    if starts_with(s, p) {
        Some(tail_of(s, p.unicode_len()))
    } else {
        None
    }
}

/// What stands in a piece stood in the whole, and is not the separator.
pub proof fn piece_members(s: Seq<char>, c: char, i: int, j: int)
    requires
        0 <= i < split_on(s, c).len(),
        0 <= j < split_on(s, c)[i].len(),
    ensures
        s.contains(split_on(s, c)[i][j]),
        split_on(s, c)[i][j] != c,
    decreases s.len(),
{
    first_index_bounds(s, c);
    let n = first_index(s, c);
    if n < s.len() {
        if i == 0 {
            assert(split_on(s, c)[0] == s.take(n));
            assert(s[j] == s.take(n)[j]);
        } else {
            let rest = s.skip(n + 1);
            assert(split_on(s, c)[i] == split_on(rest, c)[i - 1]);
            piece_members(rest, c, i - 1, j);
            let k = choose|k: int| 0 <= k < rest.len() && rest[k] == split_on(rest, c)[i - 1][j];
            assert(s[n + 1 + k] == rest[k]);
        }
    } else {
        assert(split_on(s, c)[0] == s);
        assert(s[j] == split_on(s, c)[i][j]);
    }
}

/// The natural number that `s` writes: an optional plus sign, then digits only, within the
/// range of `u64`.
pub open spec fn natural_number(s: Seq<char>) -> Option<u64> {
    let digits = if s.len() > 0 && s[0] == '+' {
        s.skip(1)
    } else {
        s
    };
    if digits.len() > 0 && all_digits(digits) && digits_value(digits) <= u64::MAX {
        Some(digits_value(digits) as u64)
    } else {
        None
    }
}

/// Reads a natural number.
pub fn parse_natural(s: &Vec<char>) -> (r: Option<u64>)
    ensures
        r == natural_number(s@),
{
    let n: usize = s.len();
    let from: usize = if n > 0 && s[0] == '+' {
        1
    } else {
        0
    };
    assert(s@.skip(0) =~= s@);
    if n == from {
        return None;
    }
    parse_digits(s, from, u64::MAX)
}

} // verus!
