//! Regular expressions. The engine is that of `fancy_regex`; what a pattern matches carries
//! a name, and everything that follows from a match is proved.

use crate::text::{chars_of, string_of};
use fancy_regex::Regex;
use vstd::prelude::*;
use vstd::string::*;

verus! {

/// The compiled pattern of `fancy_regex`.
#[verifier::external_type_specification]
#[verifier::external_body]
pub struct ExRegex(fancy_regex::Regex);

/// The error of `fancy_regex`: a pattern that does not compile, or a search that gave up.
#[verifier::external_type_specification]
#[verifier::external_body]
pub struct ExRegexError(fancy_regex::Error);

/// What `Regex::new` gives for a pattern: the compiled form, or nothing.
pub uninterp spec fn compiled(pattern: Seq<char>) -> Option<Regex>;

/// What `Regex::find` gives: nothing where the search gave up, else the first match, if any,
/// as the numbers of characters before its start and before its end.
pub uninterp spec fn first_match(re: Regex, text: Seq<char>) -> Option<Option<(nat, nat)>>;

/// What item number `i` of `Regex::find_iter` is: nothing where there are not so many, and a
/// `Some(None)` where the search gave up.
pub uninterp spec fn match_at(re: Regex, text: Seq<char>, i: nat) -> Option<Option<(nat, nat)>>;

/// What `Regex::is_match` gives: nothing where the search gave up.
pub uninterp spec fn is_matched(re: Regex, text: Seq<char>) -> Option<bool>;

/// `Regex::new`: the result is named. Which patterns compile is not stated.
#[verifier::external_body]
pub(crate) fn compile(pattern: &str) -> (r: Result<Regex, fancy_regex::Error>)
    ensures
        match r {
            Ok(re) => compiled(pattern@) == Some(re),
            Err(_) => compiled(pattern@) is None,
        },
{
    Regex::new(pattern)
}

/// `Regex::find`, with the match given as the text before its start and the text before its
/// end. Which text matches is named; both texts are beginnings of the one that was searched.
#[verifier::external_body]
pub(crate) fn find_first(re: &Regex, s: &str) -> (r: Result<
    Option<(String, String)>,
    fancy_regex::Error,
>)
    ensures
        match r {
            Err(_) => first_match(*re, s@) is None,
            Ok(None) => first_match(*re, s@) == Some(None::<(nat, nat)>),
            Ok(Some(m)) => first_match(*re, s@) == Some(Some((m.0@.len(), m.1@.len())))
                && m.0@.is_prefix_of(s@) && m.1@.is_prefix_of(s@),
        },
{
    let found = re.find(s)?;
    Ok(found.map(|m| (s[..m.start()].to_string(), s[..m.end()].to_string())))
}

/// The first items of `Regex::find_iter`, at most `limit` of them, each match given as in
/// `find_first`. Nothing is claimed of the order of the matches, nor that they have an end: a
/// pattern that keeps what it looked behind at out of its match gives that match for ever.
#[verifier::external_body]
pub(crate) fn find_some(re: &Regex, s: &str, limit: usize) -> (r: Vec<
    Result<(String, String), fancy_regex::Error>,
>)
    ensures
        r@.len() <= limit,
        r@.len() < limit ==> match_at(*re, s@, r@.len()) is None,
        forall|i: int|
            0 <= i < r@.len() ==> match #[trigger] r@[i] {
                Err(_) => match_at(*re, s@, i as nat) == Some(None::<(nat, nat)>),
                Ok(m) => match_at(*re, s@, i as nat) == Some(Some((m.0@.len(), m.1@.len())))
                    && m.0@.is_prefix_of(s@) && m.1@.is_prefix_of(s@),
            },
{
    re.find_iter(s)
        .take(limit)
        .map(|m| m.map(|m| (s[..m.start()].to_string(), s[..m.end()].to_string())))
        .collect()
}

/// `Regex::is_match`: the result is named.
#[verifier::external_body]
pub(crate) fn is_match(re: &Regex, s: &str) -> (r: Result<bool, fancy_regex::Error>)
    ensures
        match r {
            Err(_) => is_matched(*re, s@) is None,
            Ok(b) => is_matched(*re, s@) == Some(b),
        },
{
    re.is_match(s)
}

/// More items than matches that do not overlap can leave in a text of `n` characters.
pub open spec fn too_many(n: nat) -> nat {
    if n + 3 <= usize::MAX {
        n + 3
    } else {
        usize::MAX as nat
    }
}

/// The matches from number `i` on, or nothing where there are `limit` or more.
pub open spec fn matches_from(re: Regex, text: Seq<char>, i: nat, limit: nat) -> Option<
    Seq<Option<(nat, nat)>>,
>
    decreases limit - i,
{
    if i >= limit {
        None
    } else {
        match match_at(re, text, i) {
            None => Some(Seq::empty()),
            Some(m) => match matches_from(re, text, i + 1, limit) {
                None => None,
                Some(rest) => Some(seq![m] + rest),
            },
        }
    }
}

/// All matches of a pattern: one item per match, and a `None` where the search gave up.
/// Nothing where they have no end.
pub open spec fn all_matches(re: Regex, text: Seq<char>) -> Option<Seq<Option<(nat, nat)>>> {
    matches_from(re, text, 0, too_many(text.len()))
}

proof fn matches_are(
    re: Regex,
    text: Seq<char>,
    items: Seq<Option<(nat, nat)>>,
    i: int,
    limit: nat,
)
    requires
        0 <= i <= items.len() <= limit,
        items.len() < limit ==> match_at(re, text, items.len()) is None,
        forall|k: int|
            0 <= k < items.len() ==> match_at(re, text, k as nat) == Some(#[trigger] items[k]),
    ensures
        matches_from(re, text, i as nat, limit) == (if items.len() < limit {
            Some(items.skip(i))
        } else {
            None
        }),
    decreases items.len() - i,
{
    if i < items.len() {
        matches_are(re, text, items, i + 1, limit);
        assert(match_at(re, text, i as nat) == Some(items[i]));
        assert(seq![items[i]] + items.skip(i + 1) =~= items.skip(i));
    } else {
        assert(items.skip(i) =~= Seq::<Option<(nat, nat)>>::empty());
    }
}

/// All matches of a pattern, or nothing where they have no end.
pub(crate) fn find_all(re: &Regex, s: &str) -> (r: Option<
    Vec<Result<(String, String), fancy_regex::Error>>,
>)
    ensures
        match r {
            None => all_matches(*re, s@) is None,
            Some(v) => all_matches(*re, s@) is Some && v@.len() == all_matches(
                *re,
                s@,
            ).unwrap().len() && forall|i: int|
                0 <= i < v@.len() ==> match #[trigger] v@[i] {
                    Err(_) => all_matches(*re, s@).unwrap()[i] is None,
                    Ok(m) => all_matches(*re, s@).unwrap()[i] == Some((m.0@.len(), m.1@.len()))
                        && m.0@.is_prefix_of(s@) && m.1@.is_prefix_of(s@),
                },
        },
{
    let limit: usize = s.unicode_len().saturating_add(3);
    let v = find_some(re, s, limit);
    proof {
        let items = Seq::new(v@.len(), |k: int| match_at(*re, s@, k as nat).unwrap());
        assert forall|k: int| 0 <= k < items.len() implies match_at(*re, s@, k as nat) == Some(
            #[trigger] items[k],
        ) by {
            assert(v@[k] is Ok || v@[k] is Err);
        }
        matches_are(*re, s@, items, 0, limit as nat);
        assert(items.skip(0) =~= items);
    }
    if v.len() < limit {
        Some(v)
    } else {
        None
    }
}

/// A hexadecimal digit.
pub open spec fn hex_digit(c: char) -> bool {
    '0' as u32 <= c as u32 <= '9' as u32 || 'a' as u32 <= c as u32 <= 'f' as u32 || 'A' as u32
        <= c as u32 <= 'F' as u32
}

/// Whether a pattern begins with a code point written as `\uXXXX`.
pub open spec fn begins_with_code_point(p: Seq<char>) -> bool {
    p.len() >= 6 && p[0] == '\\' && p[1] == 'u' && hex_digit(p[2]) && hex_digit(p[3]) && hex_digit(
        p[4],
    ) && hex_digit(p[5])
}

/// A pattern with each code point `\uXXXX` written as `\x{XXXX}`.
pub open spec fn translated(p: Seq<char>) -> Seq<char>
    decreases p.len(),
{
    if p.len() == 0 {
        p
    } else if begins_with_code_point(p) {
        "\\x{"@ + p.subrange(2, 6) + "}"@ + translated(p.skip(6))
    } else {
        seq![p[0]] + translated(p.skip(1))
    }
}

fn is_hex_digit(c: char) -> (r: bool)
    ensures
        r == hex_digit(c),
{
    let v: u32 = c as u32;
    ('0' as u32 <= v && v <= '9' as u32) || ('a' as u32 <= v && v <= 'f' as u32) || ('A' as u32
        <= v && v <= 'F' as u32)
}

/// Writes each code point `\uXXXX` of a pattern as `\x{XXXX}`, which is how the engine spells
/// it. An untranslated one would compile to a literal `u`: a pattern that still matches
/// things, just the wrong things.
pub fn translate(pattern: &str) -> (r: String)
    ensures
        r@ == translated(pattern@),
{
    let p = chars_of(pattern);
    let mut out = String::new();
    let mut i: usize = 0;
    assert(p@.skip(0) =~= p@);
    assert(out@ + translated(p@) =~= translated(p@));
    while i < p.len()
        invariant
            i <= p@.len(),
            p@ == pattern@,
            translated(p@) == out@ + translated(p@.skip(i as int)),
        decreases p.len() - i,
    {
        let ghost rest = p@.skip(i as int);
        let ghost before = out@;
        if p.len() - i >= 6 && p[i] == '\\' && p[i + 1] == 'u' && is_hex_digit(p[i + 2])
            && is_hex_digit(p[i + 3]) && is_hex_digit(p[i + 4]) && is_hex_digit(p[i + 5]) {
            assert(begins_with_code_point(rest));
            let digits = string_of(&p, i + 2, i + 6);
            assert(digits@ =~= rest.subrange(2, 6));
            out.append("\\x{");
            out.append(digits.as_str());
            out.append("}");
            assert(rest.skip(6) =~= p@.skip(i + 6));
            assert(out@ + translated(p@.skip(i + 6)) =~= before + translated(rest));
            i = i + 6;
        } else {
            out.push(p[i]);
            assert(rest.skip(1) =~= p@.skip(i + 1));
            assert(out@ + translated(p@.skip(i + 1)) =~= before + translated(rest));
            i = i + 1;
        }
    }
    assert(p@.skip(i as int) =~= Seq::<char>::empty());
    assert(out@ =~= out@ + translated(p@.skip(i as int)));
    out
}

/// A pattern without an escaped `u` is left as it is.
pub proof fn plain_patterns_stay(p: Seq<char>)
    requires
        forall|i: int| 0 <= i < p.len() - 1 ==> !(#[trigger] p[i] == '\\' && p[i + 1] == 'u'),
    ensures
        translated(p) == p,
    decreases p.len(),
{
    if p.len() > 0 {
        let rest = p.skip(1);
        assert(!begins_with_code_point(p)) by {
            if p.len() >= 6 {
                assert(!(p[0] == '\\' && p[0int + 1] == 'u'));
            }
        }
        assert forall|i: int| 0 <= i < rest.len() - 1 implies !(#[trigger] rest[i] == '\\'
            && rest[i + 1] == 'u') by {
            assert(rest[i] == p[i + 1] && rest[i + 1] == p[i + 2]);
            assert(!(p[i + 1] == '\\' && p[i + 1 + 1] == 'u'));
        }
        plain_patterns_stay(rest);
        assert(seq![p[0]] + rest =~= p);
    }
}

} // verus!
