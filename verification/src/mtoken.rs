//! A token on its way to phonemes, and the merge of several into one.

use crate::lexicon::{opt_chars, opt_str};
use crate::text::{chars_of, string_of};
use crate::unicode::{alphabetic, is_alphabetic, is_lowercase, is_whitespace, lower_case, white_space};
use vstd::prelude::*;
use vstd::string::*;

verus! {

/// A token with what is known of its pronunciation.
pub struct MToken {
    pub text: String,
    pub tag: String,
    pub whitespace: String,
    pub phonemes: Option<String>,
    /// Whether the token begins a written word.
    pub is_head: bool,
    /// Another word to read in place of the text.
    pub alias: Option<String>,
    /// In half steps.
    pub stress: Option<i32>,
    pub currency: Option<String>,
    pub num_flags: String,
    /// Whether a space goes before the phonemes.
    pub prespace: bool,
    pub rating: Option<u8>,
}

/// The meaning of such a token.
#[verifier::ext_equal]
pub struct MTokenView {
    pub text: Seq<char>,
    pub tag: Seq<char>,
    pub whitespace: Seq<char>,
    pub phonemes: Option<Seq<char>>,
    pub is_head: bool,
    pub alias: Option<Seq<char>>,
    pub stress: Option<i32>,
    pub currency: Option<Seq<char>>,
    pub num_flags: Seq<char>,
    pub prespace: bool,
    pub rating: Option<u8>,
}

impl View for MToken {
    type V = MTokenView;

    open spec fn view(&self) -> MTokenView {
        MTokenView {
            text: self.text@,
            tag: self.tag@,
            whitespace: self.whitespace@,
            phonemes: opt_chars(self.phonemes),
            is_head: self.is_head,
            alias: opt_chars(self.alias),
            stress: self.stress,
            currency: opt_chars(self.currency),
            num_flags: self.num_flags@,
            prespace: self.prespace,
            rating: self.rating,
        }
    }
}

/// The meaning of a list of tokens.
pub open spec fn mtokens(v: Seq<MToken>) -> Seq<MTokenView> {
    v.map_values(|t: MToken| t@)
}

/// A token of which nothing but text, tag and white space is known.
pub open spec fn fresh(text: Seq<char>, tag: Seq<char>, whitespace: Seq<char>) -> MTokenView {
    MTokenView {
        text,
        tag,
        whitespace,
        phonemes: None,
        is_head: true,
        alias: None,
        stress: None,
        currency: None,
        num_flags: Seq::empty(),
        prespace: false,
        rating: None,
    }
}

/// The text that tokens span, with the white space between them.
pub open spec fn spanned(v: Seq<MTokenView>) -> Seq<char>
    decreases v.len(),
{
    if v.len() == 0 {
        Seq::empty()
    } else if v.len() == 1 {
        v[0].text
    } else {
        spanned(v.drop_last()) + v[v.len() - 2].whitespace + v.last().text
    }
}

/// The phonemes of tokens one after the other, with `unk` for a token that has none, and a
/// space before a token that asks for it where one is missing.
pub open spec fn spoken(v: Seq<MTokenView>, unk: Seq<char>) -> Seq<char>
    decreases v.len(),
{
    if v.len() == 0 {
        Seq::empty()
    } else {
        let out = spoken(v.drop_last(), unk);
        let t = v.last();
        let gap = t.prespace && out.len() > 0 && !white_space(out.last()) && t.phonemes is Some
            && t.phonemes.unwrap().len() > 0;
        (if gap {
            out.push(' ')
        } else {
            out
        }) + (match t.phonemes {
            Some(p) => p,
            None => unk,
        })
    }
}

/// How many capital letters a text has: letters that are not small.
pub open spec fn capital_count(s: Seq<char>) -> nat
    decreases s.len(),
{
    if s.len() == 0 {
        0
    } else {
        capital_count(s.drop_last()) + (if alphabetic(s.last()) && !lower_case(s.last()) {
            1nat
        } else {
            0nat
        })
    }
}

/// The number of the token with the most capital letters, the first of equals.
pub open spec fn most_capitals(v: Seq<MTokenView>) -> int
    decreases v.len(),
{
    if v.len() <= 1 {
        0
    } else {
        let best = most_capitals(v.drop_last());
        if capital_count(v.last().text) > capital_count(v[best].text) {
            v.len() - 1
        } else {
            best
        }
    }
}

/// Whether one text goes before another in the order of code points.
pub open spec fn text_before(a: Seq<char>, b: Seq<char>) -> bool
    decreases a.len(),
{
    if b.len() == 0 {
        false
    } else if a.len() == 0 {
        true
    } else if a[0] != b[0] {
        (a[0] as u32) < (b[0] as u32)
    } else {
        text_before(a.skip(1), b.skip(1))
    }
}

/// The last currency in the order of code points, where there is one.
pub open spec fn last_currency(v: Seq<MTokenView>) -> Option<Seq<char>>
    decreases v.len(),
{
    if v.len() == 0 {
        None
    } else {
        let before = last_currency(v.drop_last());
        match (before, v.last().currency) {
            (None, c) => c,
            (b, None) => b,
            (Some(b), Some(c)) => if text_before(c, b) {
                Some(b)
            } else {
                Some(c)
            },
        }
    }
}

/// The different stresses of tokens, in order.
pub open spec fn stresses(v: Seq<MTokenView>) -> Seq<i32>
    decreases v.len(),
{
    if v.len() == 0 {
        Seq::empty()
    } else {
        let before = stresses(v.drop_last());
        match v.last().stress {
            Some(h) => if before.contains(h) {
                before
            } else {
                before.push(h)
            },
            None => before,
        }
    }
}

/// The lowest rating, where every token has one.
pub open spec fn shared_rating(v: Seq<MTokenView>) -> Option<u8>
    decreases v.len(),
{
    if v.len() == 0 {
        None
    } else if v.len() == 1 {
        v[0].rating
    } else {
        match (shared_rating(v.drop_last()), v.last().rating) {
            (Some(a), Some(b)) => if b < a {
                Some(b)
            } else {
                Some(a)
            },
            _ => None,
        }
    }
}

/// A sorted list of characters with one more, unless it is there.
pub open spec fn with_flag(s: Seq<char>, c: char) -> Seq<char>
    decreases s.len(),
{
    if s.len() == 0 {
        seq![c]
    } else if s.last() == c {
        s
    } else if (s.last() as u32) < (c as u32) {
        s.push(c)
    } else {
        with_flag(s.drop_last(), c).push(s.last())
    }
}

/// The characters of `more` taken into a sorted list.
pub open spec fn with_flags(s: Seq<char>, more: Seq<char>) -> Seq<char>
    decreases more.len(),
{
    if more.len() == 0 {
        s
    } else {
        with_flag(with_flags(s, more.drop_last()), more.last())
    }
}

/// All number flags of tokens, sorted, each once.
pub open spec fn all_flags(v: Seq<MTokenView>) -> Seq<char>
    decreases v.len(),
{
    if v.len() == 0 {
        Seq::empty()
    } else {
        with_flags(all_flags(v.drop_last()), v.last().num_flags)
    }
}

/// Several tokens as one. With an `unk` its phonemes are those of the parts.
#[verifier::opaque]
pub open spec fn merged(v: Seq<MTokenView>, unk: Option<Seq<char>>) -> MTokenView {
    MTokenView {
        text: spanned(v),
        tag: v[most_capitals(v)].tag,
        whitespace: v.last().whitespace,
        phonemes: match unk {
            Some(u) => Some(spoken(v, u)),
            None => None,
        },
        is_head: v[0].is_head,
        alias: None,
        stress: if stresses(v).len() == 1 {
            Some(stresses(v)[0])
        } else {
            None
        },
        currency: last_currency(v),
        num_flags: all_flags(v),
        prespace: v[0].prespace,
        rating: shared_rating(v),
    }
}

/// A copy of an optional string.
pub fn copy_opt(s: &Option<String>) -> (r: Option<String>)
    ensures
        opt_chars(r) == opt_chars(*s),
{
    match s {
        Some(t) => Some(t.clone()),
        None => None,
    }
}

impl MToken {
    /// A token of which nothing but text, tag and white space is known.
    pub fn new(text: String, tag: String, whitespace: String) -> (r: MToken)
        ensures
            r@ == fresh(text@, tag@, whitespace@),
    {
        MToken {
            text,
            tag,
            whitespace,
            phonemes: None,
            is_head: true,
            alias: None,
            stress: None,
            currency: None,
            num_flags: String::new(),
            prespace: false,
            rating: None,
        }
    }

    /// A copy with the same meaning.
    pub fn copy(&self) -> (r: MToken)
        ensures
            r@ == self@,
    {
        MToken {
            text: self.text.clone(),
            tag: self.tag.clone(),
            whitespace: self.whitespace.clone(),
            phonemes: copy_opt(&self.phonemes),
            is_head: self.is_head,
            alias: copy_opt(&self.alias),
            stress: self.stress,
            currency: copy_opt(&self.currency),
            num_flags: self.num_flags.clone(),
            prespace: self.prespace,
            rating: self.rating,
        }
    }
}

/// The text that the tokens from `from` up to `to` span, with the white space between them.
pub fn span_text(tokens: &Vec<MToken>, from: usize, to: usize) -> (r: String)
    requires
        from <= to <= tokens@.len(),
    ensures
        r@ == spanned(mtokens(tokens@).subrange(from as int, to as int)),
{
    let ghost all = mtokens(tokens@).subrange(from as int, to as int);
    let mut out = String::new();
    let mut i: usize = from;
    while i < to
        invariant
            from <= i <= to <= tokens@.len(),
            all == mtokens(tokens@).subrange(from as int, to as int),
            out@ == spanned(all.take(i - from)),
        decreases to - i,
    {
        let ghost next = all.take(i + 1 - from);
        assert(next.drop_last() =~= all.take(i - from));
        assert(next.last() == tokens@[i as int]@);
        if i > from {
            assert(next[next.len() - 2] == tokens@[i - 1]@);
            out.append(tokens[i - 1].whitespace.as_str());
        }
        out.append(tokens[i].text.as_str());
        assert(out@ =~= spanned(next));
        i = i + 1;
    }
    assert(all.take(to - from) =~= all);
    out
}

fn speak(tokens: &Vec<MToken>, from: usize, to: usize, unk: &str) -> (r: String)
    requires
        from <= to <= tokens@.len(),
    ensures
        r@ == spoken(mtokens(tokens@).subrange(from as int, to as int), unk@),
{
    let ghost all = mtokens(tokens@).subrange(from as int, to as int);
    let mut out: Vec<char> = Vec::new();
    let mut i: usize = from;
    while i < to
        invariant
            from <= i <= to <= tokens@.len(),
            all == mtokens(tokens@).subrange(from as int, to as int),
            out@ == spoken(all.take(i - from), unk@),
        decreases to - i,
    {
        let ghost next = all.take(i + 1 - from);
        assert(next.drop_last() =~= all.take(i - from));
        assert(next.last() == tokens@[i as int]@);
        let has_sound = match &tokens[i].phonemes {
            Some(p) => !p.as_str().is_empty(),
            None => false,
        };
        if tokens[i].prespace && out.len() > 0 && !is_whitespace(out[out.len() - 1]) && has_sound {
            out.push(' ');
        }
        let mut part = match &tokens[i].phonemes {
            Some(p) => chars_of(p.as_str()),
            None => chars_of(unk),
        };
        let ghost before = out@;
        let ghost added = part@;
        out.append(&mut part);
        assert(out@ =~= before + added);
        assert(out@ == spoken(next, unk@));
        i = i + 1;
    }
    assert(all.take(to - from) =~= all);
    let n: usize = out.len();
    let text = string_of(&out, 0, n);
    assert(text@ =~= out@);
    text
}

/// How many capital letters a text has.
fn count_capitals(text: &str) -> (r: usize)
    ensures
        r == capital_count(text@),
{
    let c = chars_of(text);
    let n: usize = c.len();
    let mut sum: usize = 0;
    let mut i: usize = 0;
    while i < n
        invariant
            i <= n == c@.len(),
            sum <= i,
            sum == capital_count(c@.take(i as int)),
        decreases n - i,
    {
        assert(c@.take(i + 1).drop_last() =~= c@.take(i as int));
        if is_alphabetic(c[i]) && !is_lowercase(c[i]) {
            sum = sum + 1;
        }
        i = i + 1;
    }
    assert(c@.take(i as int) =~= c@);
    sum
}

fn find_most_capitals(tokens: &Vec<MToken>, from: usize, to: usize) -> (r: usize)
    requires
        from < to <= tokens@.len(),
    ensures
        from <= r < to,
        r - from == most_capitals(mtokens(tokens@).subrange(from as int, to as int)),
{
    let ghost all = mtokens(tokens@).subrange(from as int, to as int);
    let mut best: usize = from;
    let mut i: usize = from + 1;
    while i < to
        invariant
            from < i <= to <= tokens@.len(),
            from <= best < i,
            all == mtokens(tokens@).subrange(from as int, to as int),
            best - from == most_capitals(all.take(i - from)),
        decreases to - i,
    {
        let ghost next = all.take(i + 1 - from);
        assert(next.drop_last() =~= all.take(i - from));
        assert(next.last() == tokens@[i as int]@);
        assert(next[best - from] == tokens@[best as int]@);
        if count_capitals(tokens[i].text.as_str()) > count_capitals(
            tokens[best].text.as_str(),
        ) {
            best = i;
        }
        i = i + 1;
    }
    assert(all.take(to - from) =~= all);
    best
}

fn is_text_before(a: &str, b: &str) -> (r: bool)
    ensures
        r == text_before(a@, b@),
{
    let x = chars_of(a);
    let y = chars_of(b);
    let mut i: usize = 0;
    assert(x@.skip(0) =~= x@ && y@.skip(0) =~= y@);
    while i < x.len() && i < y.len() && x[i] == y[i]
        invariant
            i <= x@.len(),
            i <= y@.len(),
            x@ == a@,
            y@ == b@,
            text_before(a@, b@) == text_before(x@.skip(i as int), y@.skip(i as int)),
        decreases x.len() - i,
    {
        assert(x@.skip(i as int).skip(1) =~= x@.skip(i + 1));
        assert(y@.skip(i as int).skip(1) =~= y@.skip(i + 1));
        i = i + 1;
    }
    if i >= y.len() {
        false
    } else if i >= x.len() {
        true
    } else {
        (x[i] as u32) < (y[i] as u32)
    }
}

fn find_currency(tokens: &Vec<MToken>, from: usize, to: usize) -> (r: Option<String>)
    requires
        from <= to <= tokens@.len(),
    ensures
        opt_chars(r) == last_currency(mtokens(tokens@).subrange(from as int, to as int)),
{
    let ghost all = mtokens(tokens@).subrange(from as int, to as int);
    let mut best: Option<String> = None;
    let mut i: usize = from;
    while i < to
        invariant
            from <= i <= to <= tokens@.len(),
            all == mtokens(tokens@).subrange(from as int, to as int),
            opt_chars(best) == last_currency(all.take(i - from)),
        decreases to - i,
    {
        let ghost next = all.take(i + 1 - from);
        assert(next.drop_last() =~= all.take(i - from));
        assert(next.last() == tokens@[i as int]@);
        match &tokens[i].currency {
            Some(c) => {
                let keep = match &best {
                    Some(b) => is_text_before(c.as_str(), b.as_str()),
                    None => false,
                };
                if !keep {
                    best = Some(c.clone());
                }
            },
            None => {},
        }
        i = i + 1;
    }
    assert(all.take(to - from) =~= all);
    best
}

fn find_stresses(tokens: &Vec<MToken>, from: usize, to: usize) -> (r: Vec<i32>)
    requires
        from <= to <= tokens@.len(),
    ensures
        r@ == stresses(mtokens(tokens@).subrange(from as int, to as int)),
{
    let ghost all = mtokens(tokens@).subrange(from as int, to as int);
    let mut out: Vec<i32> = Vec::new();
    let mut i: usize = from;
    while i < to
        invariant
            from <= i <= to <= tokens@.len(),
            all == mtokens(tokens@).subrange(from as int, to as int),
            out@ == stresses(all.take(i - from)),
        decreases to - i,
    {
        let ghost next = all.take(i + 1 - from);
        assert(next.drop_last() =~= all.take(i - from));
        assert(next.last() == tokens@[i as int]@);
        match tokens[i].stress {
            Some(h) => {
                let mut known = false;
                let mut k: usize = 0;
                while k < out.len()
                    invariant
                        k <= out@.len(),
                        known == out@.take(k as int).contains(h),
                    decreases out.len() - k,
                {
                    let ghost seen = out@.take(k + 1);
                    assert(seen =~= out@.take(k as int).push(out@[k as int]));
                    proof {
                        if known {
                            let j = choose|j: int| 0 <= j < k && out@.take(k as int)[j] == h;
                            assert(seen[j] == h);
                        }
                    }
                    if out[k] == h {
                        known = true;
                        assert(seen[k as int] == h);
                    }
                    k = k + 1;
                }
                assert(out@.take(k as int) =~= out@);
                if !known {
                    out.push(h);
                }
            },
            None => {},
        }
        i = i + 1;
    }
    assert(all.take(to - from) =~= all);
    out
}

fn find_rating(tokens: &Vec<MToken>, from: usize, to: usize) -> (r: Option<u8>)
    requires
        from < to <= tokens@.len(),
    ensures
        r == shared_rating(mtokens(tokens@).subrange(from as int, to as int)),
{
    let ghost all = mtokens(tokens@).subrange(from as int, to as int);
    let mut low: Option<u8> = tokens[from].rating;
    let mut i: usize = from + 1;
    assert(all.take(1)[0] == tokens@[from as int]@);
    while i < to
        invariant
            from < i <= to <= tokens@.len(),
            all == mtokens(tokens@).subrange(from as int, to as int),
            low == shared_rating(all.take(i - from)),
        decreases to - i,
    {
        let ghost next = all.take(i + 1 - from);
        assert(next.drop_last() =~= all.take(i - from));
        assert(next.last() == tokens@[i as int]@);
        low = match (low, tokens[i].rating) {
            (Some(a), Some(b)) => if b < a {
                Some(b)
            } else {
                Some(a)
            },
            _ => None,
        };
        i = i + 1;
    }
    assert(all.take(to - from) =~= all);
    low
}

/// A character is its code point.
proof fn one_code_point(a: char, b: char)
    ensures
        a as u32 == b as u32 ==> a == b,
{
}

/// What stands behind the place of a new flag moves back by one.
proof fn flag_placed(s: Seq<char>, c: char, p: int)
    requires
        0 <= p <= s.len(),
        forall|k: int| p <= k < s.len() ==> (#[trigger] s[k] as u32) > (c as u32),
        p > 0 ==> (s[p - 1] as u32) <= (c as u32),
    ensures
        with_flag(s, c) == (if p > 0 && s[p - 1] == c {
            s
        } else {
            s.insert(p, c)
        }),
    decreases s.len(),
{
    if p < s.len() {
        let t = s.drop_last();
        assert((s[s.len() - 1] as u32) > (c as u32));
        assert forall|k: int| p <= k < t.len() implies (#[trigger] t[k] as u32) > (c as u32) by {
            assert(t[k] == s[k]);
        }
        flag_placed(t, c, p);
        assert(t.push(s.last()) =~= s);
        assert(t.insert(p, c).push(s.last()) =~= s.insert(p, c));
    } else {
        if s.len() > 0 {
            one_code_point(s[p - 1], c);
        }
        assert(s.push(c) =~= s.insert(p, c));
        assert(s.len() == 0 ==> seq![c] =~= s.insert(p, c));
    }
}

fn put_flag(s: &mut Vec<char>, c: char)
    ensures
        final(s)@ == with_flag(old(s)@, c),
{
    let mut p: usize = s.len();
    while p > 0 && (s[p - 1] as u32) > (c as u32)
        invariant
            p <= s@.len(),
            s@ == old(s)@,
            forall|k: int| p <= k < s@.len() ==> (#[trigger] s@[k] as u32) > (c as u32),
        decreases p,
    {
        p = p - 1;
    }
    proof {
        flag_placed(s@, c, p as int);
    }
    if p > 0 && s[p - 1] == c {
        return;
    }
    s.insert(p, c);
}

fn find_flags(tokens: &Vec<MToken>, from: usize, to: usize) -> (r: String)
    requires
        from <= to <= tokens@.len(),
    ensures
        r@ == all_flags(mtokens(tokens@).subrange(from as int, to as int)),
{
    let ghost all = mtokens(tokens@).subrange(from as int, to as int);
    let mut out: Vec<char> = Vec::new();
    let mut i: usize = from;
    while i < to
        invariant
            from <= i <= to <= tokens@.len(),
            all == mtokens(tokens@).subrange(from as int, to as int),
            out@ == all_flags(all.take(i - from)),
        decreases to - i,
    {
        let ghost next = all.take(i + 1 - from);
        assert(next.drop_last() =~= all.take(i - from));
        assert(next.last() == tokens@[i as int]@);
        let more = chars_of(tokens[i].num_flags.as_str());
        let ghost before = out@;
        let mut k: usize = 0;
        while k < more.len()
            invariant
                k <= more@.len(),
                out@ == with_flags(before, more@.take(k as int)),
            decreases more.len() - k,
        {
            assert(more@.take(k + 1).drop_last() =~= more@.take(k as int));
            put_flag(&mut out, more[k]);
            k = k + 1;
        }
        assert(more@.take(k as int) =~= more@);
        i = i + 1;
    }
    assert(all.take(to - from) =~= all);
    let n: usize = out.len();
    let text = string_of(&out, 0, n);
    assert(text@ =~= out@);
    text
}

/// The tokens from `from` up to `to` as one. With an `unk` the merge also joins the phonemes,
/// which is the final assembly; without, it is a candidate for the lexicon.
pub fn merge_tokens(tokens: &Vec<MToken>, from: usize, to: usize, unk: Option<&str>) -> (r: MToken)
    requires
        from < to <= tokens@.len(),
    ensures
        r@ == merged(mtokens(tokens@).subrange(from as int, to as int), opt_str(unk)),
{
    proof {
        reveal(merged);
    }
    let ghost all = mtokens(tokens@).subrange(from as int, to as int);
    let best: usize = find_most_capitals(tokens, from, to);
    let all_stresses = find_stresses(tokens, from, to);
    let phonemes = match unk {
        Some(u) => Some(speak(tokens, from, to, u)),
        None => None,
    };
    assert(all[best - from] == tokens@[best as int]@);
    assert(all[0] == tokens@[from as int]@);
    assert(all.last() == tokens@[to - 1]@);
    MToken {
        text: span_text(tokens, from, to),
        tag: tokens[best].tag.clone(),
        whitespace: tokens[to - 1].whitespace.clone(),
        phonemes,
        is_head: tokens[from].is_head,
        alias: None,
        stress: if all_stresses.len() == 1 {
            Some(all_stresses[0])
        } else {
            None
        },
        currency: find_currency(tokens, from, to),
        num_flags: find_flags(tokens, from, to),
        prespace: tokens[from].prespace,
        rating: find_rating(tokens, from, to),
    }
}

} // verus!
