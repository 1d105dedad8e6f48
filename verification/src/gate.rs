//! The tally of a comparison with reference tokens, tags and phonemes.
//!
//! Staged on purpose: a comparison of phonemes alone says that a line is wrong, but never
//! whether it was split, tagged or pronounced otherwise.

use crate::text::str_eq;
use crate::tokenize::{tokens_view, Token, TokenView};
use vstd::prelude::*;
use vstd::string::*;

verus! {

/// A token of a reference.
pub struct Expected {
    pub text: String,
    pub tag: String,
    pub whitespace: String,
}

/// Whether a token is the one expected.
pub open spec fn is_expected(t: TokenView, e: Expected) -> bool {
    t.text == e.text@ && t.whitespace == e.whitespace@
}

/// How many of the first `n` tokens are those expected.
pub open spec fn right_tokens(v: Seq<TokenView>, e: Seq<Expected>, n: int) -> nat
    decreases n,
{
    if n <= 0 {
        0
    } else {
        right_tokens(v, e, n - 1) + (if is_expected(v[n - 1], e[n - 1]) {
            1nat
        } else {
            0nat
        })
    }
}

/// How many of the first `n` tags are those expected.
pub open spec fn right_tags(v: Seq<String>, e: Seq<Expected>, n: int) -> nat
    decreases n,
{
    if n <= 0 {
        0
    } else {
        right_tags(v, e, n - 1) + (if v[n - 1]@ == e[n - 1].tag@ {
            1nat
        } else {
            0nat
        })
    }
}

/// The length of the shorter of two lists.
pub open spec fn shorter(a: nat, b: nat) -> nat {
    if a < b {
        a
    } else {
        b
    }
}

/// What a line adds to a tally.
pub struct Line {
    pub tokens: usize,
    pub token_ok: usize,
    pub tag_ok: usize,
    pub split_ok: bool,
    pub phoneme_ok: bool,
}

/// Compares a line with its reference. Tags are compared only where the split agrees, so that
/// no line counts twice against the tagger.
pub fn compare_line(
    tokens: &Vec<Token>,
    tags: &Vec<String>,
    expected: &Vec<Expected>,
    phonemes: &str,
    expected_phonemes: &str,
) -> (r: Line)
    requires
        tags@.len() == tokens@.len(),
    ensures
        ({
            let v = tokens_view(tokens@);
            let n = shorter(v.len(), expected@.len());
            &&& r.tokens == n
            &&& r.token_ok == right_tokens(v, expected@, n as int)
            &&& r.split_ok == (v.len() == expected@.len() && r.token_ok == n)
            &&& r.tag_ok == (if r.split_ok {
                right_tags(tags@, expected@, n as int)
            } else {
                0
            })
            &&& r.phoneme_ok == (phonemes@ == expected_phonemes@)
        }),
{
    let n: usize = if tokens.len() < expected.len() {
        tokens.len()
    } else {
        expected.len()
    };
    let ghost v = tokens_view(tokens@);
    let mut token_ok: usize = 0;
    let mut tag_ok: usize = 0;
    let mut i: usize = 0;
    while i < n
        invariant
            i <= n <= tokens@.len(),
            n <= expected@.len(),
            tags@.len() == tokens@.len(),
            v == tokens_view(tokens@),
            token_ok <= i,
            tag_ok <= i,
            token_ok == right_tokens(v, expected@, i as int),
            tag_ok == right_tags(tags@, expected@, i as int),
        decreases n - i,
    {
        assert(v[i as int] == tokens@[i as int]@);
        if str_eq(tokens[i].text.as_str(), expected[i].text.as_str()) && str_eq(
            tokens[i].whitespace,
            expected[i].whitespace.as_str(),
        ) {
            token_ok = token_ok + 1;
        }
        if str_eq(tags[i].as_str(), expected[i].tag.as_str()) {
            tag_ok = tag_ok + 1;
        }
        i = i + 1;
    }
    let split_ok = tokens.len() == expected.len() && token_ok == n;
    Line {
        tokens: n,
        token_ok,
        tag_ok: if split_ok {
            tag_ok
        } else {
            0
        },
        split_ok,
        phoneme_ok: str_eq(phonemes, expected_phonemes),
    }
}

/// Totals over lines.
pub struct Counts {
    pub lines: usize,
    pub tokens: usize,
    pub token_ok: usize,
    pub tag_ok: usize,
    pub line_token_ok: usize,
    pub phoneme_ok: usize,
}

impl Default for Counts {
    fn default() -> (r: Counts)
        ensures
            r == (Counts {
                lines: 0,
                tokens: 0,
                token_ok: 0,
                tag_ok: 0,
                line_token_ok: 0,
                phoneme_ok: 0,
            }),
    {
        Counts { lines: 0, tokens: 0, token_ok: 0, tag_ok: 0, line_token_ok: 0, phoneme_ok: 0 }
    }
}

/// One or zero.
pub open spec fn one_if(b: bool) -> int {
    if b {
        1
    } else {
        0
    }
}

impl Counts {
    /// Adds a line.
    pub fn add_line(&mut self, line: &Line)
        requires
            old(self).lines < usize::MAX,
            old(self).line_token_ok <= old(self).lines,
            old(self).phoneme_ok <= old(self).lines,
            old(self).tokens + line.tokens <= usize::MAX,
            old(self).token_ok + line.token_ok <= usize::MAX,
            old(self).tag_ok + line.tag_ok <= usize::MAX,
        ensures
            final(self).lines == old(self).lines + 1,
            final(self).tokens == old(self).tokens + line.tokens,
            final(self).token_ok == old(self).token_ok + line.token_ok,
            final(self).tag_ok == old(self).tag_ok + line.tag_ok,
            final(self).line_token_ok == old(self).line_token_ok + one_if(line.split_ok),
            final(self).phoneme_ok == old(self).phoneme_ok + one_if(line.phoneme_ok),
    {
        self.lines = self.lines + 1;
        self.tokens = self.tokens + line.tokens;
        self.token_ok = self.token_ok + line.token_ok;
        self.tag_ok = self.tag_ok + line.tag_ok;
        if line.split_ok {
            self.line_token_ok = self.line_token_ok + 1;
        }
        if line.phoneme_ok {
            self.phoneme_ok = self.phoneme_ok + 1;
        }
    }

    /// Whether everything agreed: every split, every tag, every line of phonemes.
    pub fn passed(&self) -> (r: bool)
        ensures
            r == (self.line_token_ok == self.lines && self.tag_ok == self.tokens
                && self.phoneme_ok == self.lines),
    {
        self.line_token_ok == self.lines && self.tag_ok == self.tokens && self.phoneme_ok
            == self.lines
    }
}

} // verus!
