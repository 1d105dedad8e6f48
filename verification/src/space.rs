//! White space: trimming, and texts brought onto one line.

use crate::text::{chars_of, head_of, string_of, tail_of};
use crate::unicode::{is_whitespace, white_space};
use vstd::prelude::*;
use vstd::string::*;

verus! {

/// The number of white space characters at the start.
pub open spec fn leading_space(s: Seq<char>) -> nat
    decreases s.len(),
{
    if s.len() > 0 && white_space(s[0]) {
        1 + leading_space(s.skip(1))
    } else {
        0
    }
}

/// The number of characters before the white space at the end.
pub open spec fn trimmed_end(s: Seq<char>) -> nat
    decreases s.len(),
{
    if s.len() > 0 && white_space(s.last()) {
        trimmed_end(s.drop_last())
    } else {
        s.len()
    }
}

/// A text without the white space at both ends.
pub open spec fn trimmed(s: Seq<char>) -> Seq<char> {
    let t = s.skip(leading_space(s) as int);
    t.take(trimmed_end(t) as int)
}

/// Only white space, or nothing.
pub open spec fn only_space(s: Seq<char>) -> bool {
    forall|i: int| 0 <= i < s.len() ==> white_space(#[trigger] s[i])
}

/// A text with each run of white space between words made one space, and none at its ends.
pub open spec fn collapsed(s: Seq<char>) -> Seq<char>
    decreases s.len(),
{
    if s.len() == 0 {
        s
    } else {
        let before = collapsed(s.drop_last());
        let c = s.last();
        if white_space(c) {
            before
        } else if before.len() > 0 && white_space(s[s.len() - 2]) {
            before.push(' ').push(c)
        } else {
            before.push(c)
        }
    }
}

/// A text without the white space at its start.
pub fn trim_start(text: &str) -> (r: &str)
    ensures
        r@ == text@.skip(leading_space(text@) as int),
{
    let c = chars_of(text);
    let mut i: usize = 0;
    assert(c@.skip(0) =~= c@);
    while i < c.len() && is_whitespace(c[i])
        invariant
            i <= c@.len(),
            c@ == text@,
            leading_space(text@) == i + leading_space(c@.skip(i as int)),
        decreases c.len() - i,
    {
        assert(c@.skip(i as int).skip(1) =~= c@.skip(i + 1));
        i = i + 1;
    }
    tail_of(text, i)
}

/// A text without the white space at both ends.
pub fn trim(text: &str) -> (r: &str)
    ensures
        r@ == trimmed(text@),
{
    let t = trim_start(text);
    let c = chars_of(t);
    let mut i: usize = c.len();
    assert(c@.take(i as int) =~= c@);
    while i > 0 && is_whitespace(c[i - 1])
        invariant
            i <= c@.len(),
            c@ == t@,
            trimmed_end(t@) == trimmed_end(c@.take(i as int)),
        decreases i,
    {
        assert(c@.take(i as int).drop_last() =~= c@.take(i - 1));
        i = i - 1;
    }
    head_of(t, i)
}

/// Whether a text is only white space, or nothing.
pub fn is_only_space(text: &str) -> (r: bool)
    ensures
        r == only_space(text@),
{
    let c = chars_of(text);
    let mut i: usize = 0;
    while i < c.len()
        invariant
            i <= c@.len(),
            c@ == text@,
            forall|k: int| 0 <= k < i ==> white_space(#[trigger] text@[k]),
        decreases c.len() - i,
    {
        if !is_whitespace(c[i]) {
            assert(!white_space(text@[i as int]));
            return false;
        }
        i = i + 1;
    }
    true
}

/// A text with each run of white space between words made one space, and none at its ends.
pub fn collapse(text: &str) -> (r: String)
    ensures
        r@ == collapsed(text@),
{
    let c = chars_of(text);
    let mut out: Vec<char> = Vec::new();
    let mut i: usize = 0;
    while i < c.len()
        invariant
            i <= c@.len(),
            out@ == collapsed(c@.take(i as int)),
        decreases c.len() - i,
    {
        let ghost next = c@.take(i + 1);
        assert(next.drop_last() =~= c@.take(i as int));
        assert(next.last() == c@[i as int]);
        if !is_whitespace(c[i]) {
            proof {
                if i > 0 {
                    assert(next[next.len() - 2] == c@[i - 1]);
                }
            }
            if i > 0 && out.len() > 0 && is_whitespace(c[i - 1]) {
                out.push(' ');
            }
            out.push(c[i]);
        }
        i = i + 1;
    }
    assert(c@.take(i as int) =~= c@);
    let n: usize = out.len();
    let r = string_of(&out, 0, n);
    assert(r@ =~= out@);
    r
}

/// Trimming leaves nothing exactly where there is only white space.
pub proof fn blank_texts_trim_to_nothing(s: Seq<char>)
    ensures
        trimmed(s).len() == 0 <==> only_space(s),
{
    leading_space_stops(s);
    let n = leading_space(s) as int;
    let t = s.skip(n);
    trimmed_end_stops(t);
    if only_space(s) {
        if n < s.len() {
            assert(white_space(s[n]));
        }
    } else if trimmed(s).len() == 0 {
        if t.len() > 0 {
            assert(t[0] == s[n]);
            assert(white_space(t[0]));
        }
        assert forall|i: int| 0 <= i < s.len() implies white_space(#[trigger] s[i]) by {}
    }
}

proof fn leading_space_stops(s: Seq<char>)
    ensures
        leading_space(s) <= s.len(),
        leading_space(s) < s.len() ==> !white_space(s[leading_space(s) as int]),
        forall|i: int| 0 <= i < leading_space(s) ==> white_space(#[trigger] s[i]),
    decreases s.len(),
{
    if s.len() > 0 && white_space(s[0]) {
        leading_space_stops(s.skip(1));
        assert forall|i: int| 0 <= i < leading_space(s) implies white_space(#[trigger] s[i]) by {
            if i > 0 {
                assert(s[i] == s.skip(1)[i - 1]);
            }
        }
    }
}

proof fn trimmed_end_stops(s: Seq<char>)
    ensures
        trimmed_end(s) <= s.len(),
        trimmed_end(s) > 0 ==> !white_space(s[trimmed_end(s) - 1]),
        forall|i: int| trimmed_end(s) <= i < s.len() ==> white_space(#[trigger] s[i]),
    decreases s.len(),
{
    if s.len() > 0 && white_space(s.last()) {
        let t = s.drop_last();
        trimmed_end_stops(t);
        assert forall|i: int| trimmed_end(s) <= i < s.len() implies white_space(
            #[trigger] s[i],
        ) by {
            if i < t.len() {
                assert(s[i] == t[i]);
            }
        }
    }
}

/// On one line no white space is left but single spaces between other characters.
pub proof fn one_line_is_one_line(s: Seq<char>, i: int)
    requires
        0 <= i < collapsed(s).len(),
        white_space(collapsed(s)[i]),
    ensures
        collapsed(s)[i] == ' ',
        0 < i < collapsed(s).len() - 1,
        !white_space(collapsed(s)[i - 1]),
        !white_space(collapsed(s)[i + 1]),
    decreases s.len(),
{
    ends_are_words(s);
    let t = s.drop_last();
    let before = collapsed(t);
    ends_are_words(t);
    if i < before.len() {
        one_line_is_one_line(t, i);
        assert(collapsed(s)[i] == before[i]);
        assert(collapsed(s)[i - 1] == before[i - 1]);
        assert(collapsed(s)[i + 1] == before[i + 1]);
    }
}

proof fn ends_are_words(s: Seq<char>)
    ensures
        collapsed(s).len() > 0 ==> !white_space(collapsed(s)[0]) && !white_space(
            collapsed(s).last(),
        ),
    decreases s.len(),
{
    if s.len() > 0 {
        ends_are_words(s.drop_last());
        let before = collapsed(s.drop_last());
        if before.len() > 0 {
            assert(collapsed(s)[0] == before[0]);
        }
    }
}

} // verus!
