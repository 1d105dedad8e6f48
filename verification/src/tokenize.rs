//! A tokenizer driven by rules that are data: patterns for prefixes, suffixes and infixes,
//! and a table of exceptions. Only the affix loop is code.

use crate::lexicon::opt_chars;
use crate::pattern::{
    all_matches, compile, compiled, find_all, find_first, first_match, is_match, is_matched,
    translate, translated,
};
use crate::text::{
    chars_of, contains_char, head_of, natural_number, parse_natural, str_eq, string_of, strings,
    tail_of,
};
use crate::unicode::{is_whitespace, white_space};
use crate::vocab::{vocab_of, Vocab, VocabView};
use fancy_regex::Regex;
use vstd::hash_map::StringHashMap;
use vstd::prelude::*;
use vstd::string::*;

verus! {

/// One token of an exception: its text, and its normal form where it has its own.
pub struct Special {
    pub orth: String,
    pub norm: Option<String>,
}

/// A token of a text.
pub struct Token {
    pub text: String,
    /// " " when the token is followed by a single space, "" otherwise.
    pub whitespace: &'static str,
    /// Carried from the exception table; `None` means that it is derived from the text.
    pub norm: Option<String>,
}

/// The meaning of a token.
#[verifier::ext_equal]
pub struct TokenView {
    pub text: Seq<char>,
    pub whitespace: Seq<char>,
    pub norm: Option<Seq<char>>,
}

impl View for Token {
    type V = TokenView;

    open spec fn view(&self) -> TokenView {
        TokenView { text: self.text@, whitespace: self.whitespace@, norm: opt_chars(self.norm) }
    }
}

/// The meaning of a list of tokens.
pub open spec fn tokens_view(v: Seq<Token>) -> Seq<TokenView> {
    v.map_values(|t: Token| t@)
}

/// The texts of a list of tokens.
pub open spec fn texts(v: Seq<TokenView>) -> Seq<Seq<char>> {
    v.map_values(|t: TokenView| t.text)
}

/// The tokens of an exception.
pub open spec fn special_tokens(v: Seq<Special>) -> Seq<TokenView> {
    v.map_values(
        |s: Special| TokenView { text: s.orth@, whitespace: ""@, norm: opt_chars(s.norm) },
    )
}

/// A token of a text alone, with no space behind it and no normal form of its own.
pub open spec fn plain_token(text: Seq<char>) -> TokenView {
    TokenView { text, whitespace: ""@, norm: None }
}

/// One plain token per text.
pub open spec fn plain_tokens(v: Seq<Seq<char>>) -> Seq<TokenView> {
    v.map_values(|t: Seq<char>| plain_token(t))
}

/// Tokens before and behind others, where there are others.
pub open spec fn around(
    before: Seq<TokenView>,
    inner: Option<Seq<TokenView>>,
    behind: Seq<TokenView>,
) -> Option<Seq<TokenView>> {
    match inner {
        Some(v) => Some(before + v + behind),
        None => None,
    }
}

/// The matches of an infix pattern, without the places where the search gave up.
pub open spec fn found(v: Seq<Option<(nat, nat)>>) -> Seq<(nat, nat)>
    decreases v.len(),
{
    if v.len() == 0 {
        Seq::empty()
    } else {
        match v.last() {
            Some(m) => found(v.drop_last()).push(m),
            None => found(v.drop_last()),
        }
    }
}

/// The pieces of `s` from `start` on, cut before and behind each match from number `i` on.
/// A match at the very start is passed over. Nothing where a match begins before the one
/// ahead of it ends, or ends before it begins.
pub open spec fn infix_pieces(s: Seq<char>, ms: Seq<(nat, nat)>, i: int, start: int) -> Option<
    Seq<Seq<char>>,
>
    decreases ms.len() - i,
{
    if i < 0 || i >= ms.len() {
        if start < s.len() {
            Some(seq![s.skip(start)])
        } else {
            Some(Seq::empty())
        }
    } else {
        let a = ms[i].0 as int;
        let b = ms[i].1 as int;
        if a == 0 {
            infix_pieces(s, ms, i + 1, start)
        } else if start > a || a > b || b > s.len() {
            None
        } else {
            let gap = if start < a {
                seq![s.subrange(start, a)]
            } else {
                Seq::empty()
            };
            let mid = if a < b {
                seq![s.subrange(a, b)]
            } else {
                Seq::empty()
            };
            match infix_pieces(s, ms, i + 1, b) {
                Some(rest) => Some(gap + mid + rest),
                None => None,
            }
        }
    }
}

/// A tokenizer: compiled patterns, exceptions, and the sequences of tokens that the second
/// pass puts back together.
pub struct Tokenizer {
    prefix: Regex,
    suffix: Regex,
    infix: Regex,
    url: Option<Regex>,
    specials: StringHashMap<Vec<Special>>,
    rematch: Vec<(Vec<String>, String)>,
    vocab: Vocab,
}

/// The meaning of a tokenizer.
pub struct TokenizerView {
    pub prefix: Regex,
    pub suffix: Regex,
    pub infix: Regex,
    pub url: Option<Regex>,
    pub specials: Map<Seq<char>, Seq<TokenView>>,
    /// The exceptions that affix splitting takes apart, each as the texts that it leaves.
    pub rematch: Seq<(Seq<Seq<char>>, Seq<char>)>,
    pub vocab: VocabView,
}

/// The meaning of the exception table.
pub open spec fn specials_view(m: Map<Seq<char>, Vec<Special>>) -> Map<
    Seq<char>,
    Seq<TokenView>,
> {
    m.map_values(|v: Vec<Special>| special_tokens(v@))
}

/// The meaning of the sequences of the second pass.
pub open spec fn rematch_view(v: Seq<(Vec<String>, String)>) -> Seq<(Seq<Seq<char>>, Seq<char>)> {
    v.map_values(|p: (Vec<String>, String)| (strings(p.0@), p.1@))
}

impl View for Tokenizer {
    type V = TokenizerView;

    closed spec fn view(&self) -> TokenizerView {
        TokenizerView {
            prefix: self.prefix,
            suffix: self.suffix,
            infix: self.infix,
            url: self.url,
            specials: specials_view(self.specials@),
            rematch: rematch_view(self.rematch@),
            vocab: self.vocab@,
        }
    }
}

impl TokenizerView {
    /// The length of the prefix: up to the end of the first match.
    pub open spec fn prefix_len(self, s: Seq<char>) -> int {
        match first_match(self.prefix, s) {
            Some(Some(m)) => if m.1 <= s.len() {
                m.1 as int
            } else {
                0
            },
            _ => 0,
        }
    }

    /// The length of the suffix: from the start of the first match.
    pub open spec fn suffix_len(self, s: Seq<char>) -> int {
        match first_match(self.suffix, s) {
            Some(Some(m)) => if m.0 <= s.len() {
                s.len() - m.0
            } else {
                0
            },
            _ => 0,
        }
    }

    /// Whether a text is an address that is left whole.
    pub open spec fn is_url(self, s: Seq<char>) -> bool {
        match self.url {
            Some(re) => is_matched(re, s) == Some(true),
            None => false,
        }
    }

    /// The tokens of a text that has lost its affixes: those of an exception, the text as
    /// it is, or its pieces between and on the infixes.
    pub open spec fn core_tokens(self, s: Seq<char>, with_specials: bool) -> Option<
        Seq<TokenView>,
    > {
        if s.len() == 0 {
            Some(Seq::empty())
        } else if with_specials && self.specials.contains_key(s) {
            Some(self.specials[s])
        } else if self.is_url(s) {
            Some(seq![plain_token(s)])
        } else {
            match all_matches(self.infix, s) {
                Some(ms) => match infix_pieces(s, found(ms), 0, 0) {
                    Some(pieces) => Some(plain_tokens(pieces)),
                    None => None,
                },
                None => None,
            }
        }
    }

    /// The tokens of a span without white space: prefixes and suffixes are taken off, one of
    /// each at a time, until an exception or a text without affixes is left.
    pub open spec fn span_tokens(self, s: Seq<char>, with_specials: bool) -> Option<
        Seq<TokenView>,
    >
        decreases s.len(),
    {
        let n = s.len() as int;
        let pre = self.prefix_len(s);
        let suf = self.suffix_len(s.skip(pre));
        let first = seq![plain_token(s.take(pre))];
        let last = seq![plain_token(s.skip(n - suf))];
        let none = Seq::<TokenView>::empty();
        if n == 0 || (with_specials && self.specials.contains_key(s)) {
            self.core_tokens(s, with_specials)
        } else if pre != 0 && with_specials && pre < n && self.specials.contains_key(s.skip(pre)) {
            around(first, self.core_tokens(s.skip(pre), with_specials), none)
        } else if suf != 0 && with_specials && suf < n && self.specials.contains_key(
            s.take(n - suf),
        ) {
            around(none, self.core_tokens(s.take(n - suf), with_specials), last)
        } else if pre != 0 && suf != 0 {
            around(first, self.span_tokens(s.subrange(pre, n - suf), with_specials), last)
        } else if pre != 0 {
            around(first, self.span_tokens(s.skip(pre), with_specials), none)
        } else if suf != 0 {
            around(none, self.span_tokens(s.take(n - suf), with_specials), last)
        } else {
            self.core_tokens(s, with_specials)
        }
    }
}

fn plain(text: &str) -> (r: Token)
    ensures
        r@ == plain_token(text@),
{
    Token { text: text.to_owned(), whitespace: "", norm: None }
}

fn push_plain(out: &mut Vec<Token>, text: &str)
    ensures
        tokens_view(final(out)@) == tokens_view(old(out)@).push(plain_token(text@)),
{
    let t = plain(text);
    out.push(t);
    assert(tokens_view(out@) =~= tokens_view(old(out)@).push(plain_token(text@)));
}

fn copy_norm(norm: &Option<String>) -> (r: Option<String>)
    ensures
        opt_chars(r) == opt_chars(*norm),
{
    match norm {
        Some(n) => Some(n.clone()),
        None => None,
    }
}

fn push_special(out: &mut Vec<Token>, entries: &Vec<Special>)
    ensures
        tokens_view(final(out)@) == tokens_view(old(out)@) + special_tokens(entries@),
{
    let mut i: usize = 0;
    let ghost all = special_tokens(entries@);
    assert(tokens_view(out@) =~= tokens_view(old(out)@) + all.take(0));
    while i < entries.len()
        invariant
            i <= entries@.len(),
            all == special_tokens(entries@),
            tokens_view(out@) == tokens_view(old(out)@) + all.take(i as int),
        decreases entries.len() - i,
    {
        let ghost before = out@;
        let t = Token {
            text: entries[i].orth.clone(),
            whitespace: "",
            norm: copy_norm(&entries[i].norm),
        };
        out.push(t);
        assert(t@ == all[i as int]);
        assert(tokens_view(out@) =~= tokens_view(before).push(t@));
        assert(tokens_view(out@) =~= tokens_view(old(out)@) + all.take(i + 1));
        i = i + 1;
    }
    assert(all.take(i as int) =~= all);
}

impl Tokenizer {
    /// The sequences of the second pass have two texts or more: one alone would only find
    /// what the first pass gave.
    #[verifier::type_invariant]
    spec fn long_sequences(self) -> bool {
        forall|i: int| 0 <= i < self.rematch@.len() ==> (#[trigger] self.rematch@[i]).0@.len() >= 2
    }

    /// The string tables.
    pub fn vocab(&self) -> (r: &Vocab)
        ensures
            r@ == self@.vocab,
    {
        &self.vocab
    }

    fn find_prefix(&self, s: &str) -> (r: usize)
        ensures
            r == self@.prefix_len(s@),
            r <= s@.len(),
    {
        match find_first(&self.prefix, s) {
            Ok(Some(m)) => m.1.as_str().unicode_len(),
            _ => 0,
        }
    }

    fn find_suffix(&self, s: &str) -> (r: usize)
        ensures
            r == self@.suffix_len(s@),
            r <= s@.len(),
    {
        match find_first(&self.suffix, s) {
            Ok(Some(m)) => s.unicode_len() - m.0.as_str().unicode_len(),
            _ => 0,
        }
    }

    fn is_url(&self, s: &str) -> (r: bool)
        ensures
            r == self@.is_url(s@),
    {
        match &self.url {
            Some(re) => match is_match(re, s) {
                Ok(b) => b,
                Err(_) => false,
            },
            None => false,
        }
    }

    fn has_special(&self, s: &str) -> (r: bool)
        ensures
            r == self@.specials.contains_key(s@),
    {
        self.specials.contains_key(s)
    }

    /// Cuts a text before and behind each match. False where the matches are out of order.
    fn push_pieces(out: &mut Vec<Token>, s: &str, ms: &Vec<(usize, usize)>) -> (ok: bool)
        requires
            forall|k: int|
                0 <= k < ms@.len() ==> (#[trigger] ms@[k]).0 <= s@.len() && ms@[k].1 <= s@.len(),
        ensures
            match infix_pieces(s@, spans_of(ms@), 0, 0) {
                Some(pieces) => ok && tokens_view(final(out)@) == tokens_view(old(out)@)
                    + plain_tokens(pieces),
                None => !ok,
            },
    {
        let c = chars_of(s);
        let ghost all = spans_of(ms@);
        let ghost whole = infix_pieces(s@, all, 0, 0);
        let ghost out0 = tokens_view(out@);
        let mut start: usize = 0;
        let mut i: usize = 0;
        assert(out0 + plain_tokens(Seq::empty()) =~= out0);
        while i < ms.len()
            invariant
                i <= ms@.len(),
                c@ == s@,
                all == spans_of(ms@),
                start <= s@.len(),
                whole == infix_pieces(s@, all, 0, 0),
                forall|k: int|
                    0 <= k < ms@.len() ==> (#[trigger] ms@[k]).0 <= s@.len() && ms@[k].1
                        <= s@.len(),
                match infix_pieces(s@, all, i as int, start as int) {
                    Some(rest) => whole is Some && out0 + plain_tokens(whole.unwrap())
                        == tokens_view(out@) + plain_tokens(rest),
                    None => whole is None,
                },
            decreases ms.len() - i,
        {
            let a: usize = ms[i].0;
            let b: usize = ms[i].1;
            assert(all[i as int] == (a as nat, b as nat));
            let ghost before = tokens_view(out@);
            let ghost rest0 = infix_pieces(s@, all, i as int, start as int);
            if a != 0 {
                if start > a || a > b {
                    return false;
                }
                if start < a {
                    let gap = string_of(&c, start, a);
                    push_plain(out, gap.as_str());
                }
                if a < b {
                    let mid = string_of(&c, a, b);
                    push_plain(out, mid.as_str());
                }
                proof {
                    let gap = if start < a {
                        seq![s@.subrange(start as int, a as int)]
                    } else {
                        Seq::empty()
                    };
                    let mid = if a < b {
                        seq![s@.subrange(a as int, b as int)]
                    } else {
                        Seq::empty()
                    };
                    let rest = infix_pieces(s@, all, i + 1, b as int);
                    if rest is Some {
                        assert(tokens_view(out@) + plain_tokens(rest.unwrap()) =~= before
                            + plain_tokens(gap + mid + rest.unwrap()));
                    }
                }
                start = b;
            }
            i = i + 1;
        }
        let n: usize = c.len();
        let ghost before = tokens_view(out@);
        if start < n {
            let tail = string_of(&c, start, n);
            push_plain(out, tail.as_str());
            assert(tail@ =~= s@.skip(start as int));
            assert(tokens_view(out@) =~= before + plain_tokens(seq![s@.skip(start as int)]));
        } else {
            assert(before =~= before + plain_tokens(Seq::empty()));
        }
        true
    }

    /// The tokens of a text that has lost its affixes. False where infixes are out of order or
    /// have no end.
    fn push_core(&self, out: &mut Vec<Token>, s: &str, with_specials: bool) -> (ok: bool)
        ensures
            match self@.core_tokens(s@, with_specials) {
                Some(v) => ok && tokens_view(final(out)@) == tokens_view(old(out)@) + v,
                None => !ok,
            },
    {
        let ghost out0 = tokens_view(out@);
        if s.is_empty() {
            assert(out0 + Seq::<TokenView>::empty() =~= out0);
            return true;
        }
        if with_specials {
            match self.specials.get(s) {
                Some(entries) => {
                    push_special(out, entries);
                    return true;
                },
                None => {},
            }
        }
        if self.is_url(s) {
            push_plain(out, s);
            assert(out0 + seq![plain_token(s@)] =~= out0.push(plain_token(s@)));
            return true;
        }
        let items = match find_all(&self.infix, s) {
            Some(items) => items,
            None => {
                return false;
            },
        };
        let mut ms: Vec<(usize, usize)> = Vec::new();
        let ghost named = all_matches(self.infix, s@).unwrap();
        let mut i: usize = 0;
        assert(spans_of(ms@) =~= found(named.take(0)));
        while i < items.len()
            invariant
                i <= items@.len(),
                all_matches(self.infix, s@) == Some(named),
                items@.len() == named.len(),
                forall|k: int|
                    0 <= k < items@.len() ==> match #[trigger] items@[k] {
                        Err(_) => named[k] is None,
                        Ok(m) => named[k] == Some((m.0@.len(), m.1@.len())) && m.0@.is_prefix_of(
                            s@,
                        ) && m.1@.is_prefix_of(s@),
                    },
                forall|k: int|
                    0 <= k < ms@.len() ==> (#[trigger] ms@[k]).0 <= s@.len() && ms@[k].1
                        <= s@.len(),
                spans_of(ms@) == found(named.take(i as int)),
            decreases items.len() - i,
        {
            assert(named.take(i + 1).drop_last() =~= named.take(i as int));
            let ghost before = ms@;
            match &items[i] {
                Ok(m) => {
                    let a: usize = m.0.as_str().unicode_len();
                    let b: usize = m.1.as_str().unicode_len();
                    ms.push((a, b));
                    assert(spans_of(ms@) =~= spans_of(before).push((a as nat, b as nat)));
                },
                Err(_) => {},
            }
            i = i + 1;
        }
        assert(named.take(i as int) =~= named);
        Self::push_pieces(out, s, &ms)
    }

    /// The tokens of a span without white space. False where infixes are out of order or have
    /// no end.
    fn tokenize_span(&self, out: &mut Vec<Token>, span: &str, with_specials: bool) -> (ok: bool)
        ensures
            match self@.span_tokens(span@, with_specials) {
                Some(v) => ok && tokens_view(final(out)@) == tokens_view(old(out)@) + v,
                None => !ok,
            },
    {
        let ghost goal = self@.span_tokens(span@, with_specials);
        let ghost out0 = tokens_view(out@);
        let mut suffixes: Vec<String> = Vec::new();
        let mut s = span.to_owned();
        let mut settled = false;
        assert(back_to_front(strings(suffixes@)) =~= Seq::<TokenView>::empty());
        assert(goal is Some ==> out0 + goal.unwrap() =~= out0 + goal.unwrap()
            + Seq::<TokenView>::empty());
        while !settled
            invariant
                goal == self@.span_tokens(span@, with_specials),
                !settled ==> extends(
                    goal,
                    out0,
                    tokens_view(out@),
                    self@.span_tokens(s@, with_specials),
                    back_to_front(strings(suffixes@)),
                ),
                settled ==> extends(
                    goal,
                    out0,
                    tokens_view(out@),
                    self@.core_tokens(s@, with_specials),
                    back_to_front(strings(suffixes@)),
                ),
            decreases s@.len() + (if settled {
                0int
            } else {
                1int
            }),
        {
            let n: usize = s.as_str().unicode_len();
            if n == 0 || (with_specials && self.has_special(s.as_str())) {
                settled = true;
            } else {
                let pre: usize = self.find_prefix(s.as_str());
                let minus_pre = tail_of(s.as_str(), pre).to_owned();
                let head = head_of(s.as_str(), pre).to_owned();
                if pre != 0 && with_specials && pre < n && self.has_special(minus_pre.as_str()) {
                    let ghost before = tokens_view(out@);
                    push_plain(out, head.as_str());
                    proof {
                        step_front(
                            goal,
                            out0,
                            before,
                            plain_token(head@),
                            self@.core_tokens(minus_pre@, with_specials),
                            back_to_front(strings(suffixes@)),
                        );
                    }
                    s = minus_pre;
                    settled = true;
                } else {
                    let suf: usize = self.find_suffix(minus_pre.as_str());
                    let minus_suf = head_of(s.as_str(), n - suf).to_owned();
                    let tail = tail_of(s.as_str(), n - suf).to_owned();
                    let ghost tails = strings(suffixes@);
                    let ghost before = tokens_view(out@);
                    if suf != 0 && with_specials && suf < n && self.has_special(
                        minus_suf.as_str(),
                    ) {
                        suffixes.push(tail);
                        proof {
                            assert(strings(suffixes@) =~= tails.push(tail@));
                            step_back(
                                goal,
                                out0,
                                before,
                                plain_token(tail@),
                                self@.core_tokens(minus_suf@, with_specials),
                                back_to_front(tails),
                            );
                            assert(back_to_front(strings(suffixes@)) =~= seq![plain_token(tail@)]
                                + back_to_front(tails));
                        }
                        s = minus_suf;
                        settled = true;
                    } else if pre != 0 && suf != 0 {
                        push_plain(out, head.as_str());
                        suffixes.push(tail);
                        let mid = head_of(minus_pre.as_str(), n - suf - pre).to_owned();
                        proof {
                            assert(mid@ =~= s@.subrange(pre as int, n - suf));
                            assert(strings(suffixes@) =~= tails.push(tail@));
                            step_both(
                                goal,
                                out0,
                                before,
                                plain_token(head@),
                                self@.span_tokens(mid@, with_specials),
                                plain_token(tail@),
                                back_to_front(tails),
                            );
                            assert(back_to_front(strings(suffixes@)) =~= seq![plain_token(tail@)]
                                + back_to_front(tails));
                        }
                        s = mid;
                    } else if pre != 0 {
                        push_plain(out, head.as_str());
                        proof {
                            step_front(
                                goal,
                                out0,
                                before,
                                plain_token(head@),
                                self@.span_tokens(minus_pre@, with_specials),
                                back_to_front(tails),
                            );
                        }
                        s = minus_pre;
                    } else if suf != 0 {
                        suffixes.push(tail);
                        proof {
                            assert(strings(suffixes@) =~= tails.push(tail@));
                            step_back(
                                goal,
                                out0,
                                before,
                                plain_token(tail@),
                                self@.span_tokens(minus_suf@, with_specials),
                                back_to_front(tails),
                            );
                            assert(back_to_front(strings(suffixes@)) =~= seq![plain_token(tail@)]
                                + back_to_front(tails));
                        }
                        s = minus_suf;
                    } else {
                        settled = true;
                    }
                }
            }
        }
        if !self.push_core(out, s.as_str(), with_specials) {
            return false;
        }
        let ghost before = tokens_view(out@);
        let ghost tails = back_to_front(strings(suffixes@));
        let mut i: usize = suffixes.len();
        assert(before + tails.take(0) =~= before);
        while i > 0
            invariant
                i <= suffixes@.len(),
                tails == back_to_front(strings(suffixes@)),
                tokens_view(out@) == before + tails.take(suffixes@.len() - i),
            decreases i,
        {
            i = i - 1;
            let ghost done = tokens_view(out@);
            push_plain(out, suffixes[i].as_str());
            assert(tails[suffixes@.len() - i - 1] == plain_token(suffixes@[i as int]@));
            assert(tokens_view(out@) =~= before + tails.take(suffixes@.len() - i));
        }
        assert(tails.take(suffixes@.len() as int) =~= tails);
        true
    }
}

/// Matches as pairs of natural numbers.
pub open spec fn spans_of(v: Seq<(usize, usize)>) -> Seq<(nat, nat)> {
    v.map_values(|p: (usize, usize)| (p.0 as nat, p.1 as nat))
}

/// One plain token per text, the last text first.
pub open spec fn back_to_front(v: Seq<Seq<char>>) -> Seq<TokenView> {
    Seq::new(v.len(), |i: int| plain_token(v[v.len() - 1 - i]))
}

/// What is already out, what is still to come and what is set aside make up the goal.
spec fn extends(
    goal: Option<Seq<TokenView>>,
    out0: Seq<TokenView>,
    out: Seq<TokenView>,
    inner: Option<Seq<TokenView>>,
    aside: Seq<TokenView>,
) -> bool {
    match inner {
        Some(v) => goal is Some && out0 + goal.unwrap() == out + v + aside,
        None => goal is None,
    }
}

proof fn step_front(
    goal: Option<Seq<TokenView>>,
    out0: Seq<TokenView>,
    out: Seq<TokenView>,
    first: TokenView,
    inner: Option<Seq<TokenView>>,
    aside: Seq<TokenView>,
)
    requires
        extends(goal, out0, out, around(seq![first], inner, Seq::empty()), aside),
    ensures
        extends(goal, out0, out.push(first), inner, aside),
{
    if inner is Some {
        assert(out + (seq![first] + inner.unwrap() + Seq::empty()) + aside =~= out.push(first)
            + inner.unwrap() + aside);
    }
}

proof fn step_back(
    goal: Option<Seq<TokenView>>,
    out0: Seq<TokenView>,
    out: Seq<TokenView>,
    last: TokenView,
    inner: Option<Seq<TokenView>>,
    aside: Seq<TokenView>,
)
    requires
        extends(goal, out0, out, around(Seq::empty(), inner, seq![last]), aside),
    ensures
        extends(goal, out0, out, inner, seq![last] + aside),
{
    if inner is Some {
        assert(out + (Seq::empty() + inner.unwrap() + seq![last]) + aside =~= out + inner.unwrap()
            + (seq![last] + aside));
    }
}

proof fn step_both(
    goal: Option<Seq<TokenView>>,
    out0: Seq<TokenView>,
    out: Seq<TokenView>,
    first: TokenView,
    inner: Option<Seq<TokenView>>,
    last: TokenView,
    aside: Seq<TokenView>,
)
    requires
        extends(goal, out0, out, around(seq![first], inner, seq![last]), aside),
    ensures
        extends(goal, out0, out.push(first), inner, seq![last] + aside),
{
    if inner is Some {
        assert(out + (seq![first] + inner.unwrap() + seq![last]) + aside =~= out.push(first)
            + inner.unwrap() + (seq![last] + aside));
    }
}

/// A span of tokens that an exception matches: where it begins, where it ends, and the number
/// of the sequence.
pub type Span = (int, int, int);

/// Tokens with the white space behind the last one replaced.
pub open spec fn with_last_space(out: Seq<TokenView>, whitespace: Seq<char>) -> Seq<TokenView> {
    if out.len() == 0 {
        out
    } else {
        out.drop_last().push(
            TokenView { text: out.last().text, whitespace, norm: out.last().norm },
        )
    }
}

/// Whether a sequence of texts stands at position `i`.
pub open spec fn stands_at(all: Seq<Seq<char>>, i: int, seq: Seq<Seq<char>>) -> bool {
    i + seq.len() <= all.len() && all.subrange(i, i + seq.len()) == seq
}

/// Whether one span goes before another: the longer first, then the one further left.
pub open spec fn ranks_before(x: Span, y: Span) -> bool {
    x.1 - x.0 > y.1 - y.0 || (x.1 - x.0 == y.1 - y.0 && x.0 < y.0)
}

/// A ranked list with one more span, behind those that it does not go before.
pub open spec fn placed(v: Seq<Span>, x: Span) -> Seq<Span>
    decreases v.len(),
{
    if v.len() > 0 && ranks_before(x, v.last()) {
        placed(v.drop_last(), x).push(v.last())
    } else {
        v.push(x)
    }
}

/// Spans in their rank: the longest first, then leftmost.
pub open spec fn ranked(v: Seq<Span>) -> Seq<Span>
    decreases v.len(),
{
    if v.len() == 0 {
        v
    } else {
        placed(ranked(v.drop_last()), v.last())
    }
}

/// Whether a position lies inside one of the spans.
pub open spec fn inside(v: Seq<Span>, p: int) -> bool {
    exists|k: int| 0 <= k < v.len() && (#[trigger] v[k]).0 <= p < v[k].1
}

/// The spans that are kept, in rank: a span is dropped if either end is already inside a kept
/// one.
pub open spec fn kept(v: Seq<Span>) -> Seq<Span>
    decreases v.len(),
{
    if v.len() == 0 {
        v
    } else {
        let before = kept(v.drop_last());
        if inside(before, v.last().0) || inside(before, v.last().1 - 1) {
            before
        } else {
            before.push(v.last())
        }
    }
}

/// The first span of a list that begins at `i`, from number `k` on.
pub open spec fn span_from(v: Seq<Span>, i: int, k: int) -> Option<Span>
    decreases v.len() - k,
{
    if k < 0 || k >= v.len() {
        None
    } else if v[k].0 == i {
        Some(v[k])
    } else {
        span_from(v, i, k + 1)
    }
}

/// Where the run of white space or of other characters that holds `k` ends.
pub open spec fn run_end(text: Seq<char>, k: int) -> int
    decreases text.len() - k,
{
    if k + 1 >= text.len() {
        text.len() as int
    } else if white_space(text[k + 1]) != white_space(text[k]) {
        k + 1
    } else {
        run_end(text, k + 1)
    }
}

impl TokenizerView {
    /// The spans that begin at `i`, among the first `n` sequences.
    pub open spec fn spans_at(self, all: Seq<Seq<char>>, i: int, n: int) -> Seq<Span>
        decreases n,
    {
        if n <= 0 {
            Seq::empty()
        } else {
            let before = self.spans_at(all, i, n - 1);
            let seq = self.rematch[n - 1].0;
            if stands_at(all, i, seq) {
                before.push((i, i + seq.len(), n - 1))
            } else {
                before
            }
        }
    }

    /// The spans that begin before `i`.
    pub open spec fn spans_before(self, all: Seq<Seq<char>>, i: int) -> Seq<Span>
        decreases i,
    {
        if i <= 0 {
            Seq::empty()
        } else {
            self.spans_before(all, i - 1) + self.spans_at(all, i - 1, self.rematch.len() as int)
        }
    }

    /// The spans that the second pass replaces: longest first, then leftmost, none with an
    /// end inside another.
    pub open spec fn replaced_spans(self, all: Seq<Seq<char>>) -> Seq<Span> {
        kept(ranked(self.spans_before(all, all.len() as int)))
    }

    /// The tokens from `i` on behind those of `out`, each span of `spans` replaced by the
    /// tokens of its exception. The white space behind the span stays behind it.
    pub open spec fn replaced(
        self,
        tokens: Seq<TokenView>,
        spans: Seq<Span>,
        i: int,
        out: Seq<TokenView>,
    ) -> Seq<TokenView>
        decreases tokens.len() - i,
    {
        if i < 0 || i >= tokens.len() {
            out
        } else {
            match span_from(spans, i, 0) {
                Some(sp) => if i < sp.1 <= tokens.len() {
                    let key = self.rematch[sp.2].1;
                    let next = if self.specials.contains_key(key) {
                        with_last_space(out + self.specials[key], tokens[sp.1 - 1].whitespace)
                    } else {
                        out + tokens.subrange(i, sp.1)
                    };
                    self.replaced(tokens, spans, sp.1, next)
                } else {
                    self.replaced(tokens, spans, i + 1, out.push(tokens[i]))
                },
                None => self.replaced(tokens, spans, i + 1, out.push(tokens[i])),
            }
        }
    }

    /// The second pass: exceptions that affix splitting took apart are put back.
    pub open spec fn rejoined(self, tokens: Seq<TokenView>) -> Seq<TokenView> {
        self.replaced(tokens, self.replaced_spans(texts(tokens)), 0, Seq::empty())
    }

    /// The tokens of `text` behind those of `out`, from the run at `run` on, of which the
    /// part from `start` on is still to be split. A single space behind a word goes into the
    /// flag of the token before it; any further white space is a token of its own.
    pub open spec fn first_pass(
        self,
        text: Seq<char>,
        run: int,
        start: int,
        out: Seq<TokenView>,
    ) -> Option<Seq<TokenView>>
        decreases text.len() - run,
    {
        let end = run_end(text, run);
        if run < 0 || run >= text.len() || end <= run {
            Some(out)
        } else if end >= text.len() {
            if start < text.len() {
                match self.span_tokens(text.skip(start), true) {
                    Some(v) => Some(with_last_space(out + v, ""@)),
                    None => None,
                }
            } else {
                Some(out)
            }
        } else {
            let split = if start < end {
                around(out, self.span_tokens(text.subrange(start, end), true), Seq::empty())
            } else {
                Some(out)
            };
            match split {
                Some(v) => if text[end] == ' ' {
                    self.first_pass(text, end, end + 1, with_last_space(v, " "@))
                } else {
                    self.first_pass(text, end, end, v)
                },
                None => None,
            }
        }
    }

    /// The tokens of a text, or nothing where the infixes of a word are out of order
    /// or have no end.
    pub open spec fn tokens(self, text: Seq<char>) -> Option<Seq<TokenView>> {
        match self.first_pass(text, 0, 0, Seq::empty()) {
            Some(v) => Some(self.rejoined(v)),
            None => None,
        }
    }
}

fn set_last_space(out: &mut Vec<Token>, whitespace: &'static str)
    ensures
        tokens_view(final(out)@) == with_last_space(tokens_view(old(out)@), whitespace@),
{
    match out.pop() {
        Some(t) => {
            let ghost before = out@;
            let last = Token { text: t.text, whitespace, norm: t.norm };
            out.push(last);
            assert(tokens_view(before) =~= tokens_view(old(out)@).drop_last());
            assert(tokens_view(out@) =~= tokens_view(before).push(last@));
        },
        None => {},
    }
}

/// A span with machine numbers.
spec fn span_view(s: (usize, usize, usize)) -> Span {
    (s.0 as int, s.1 as int, s.2 as int)
}

spec fn spans_view(v: Seq<(usize, usize, usize)>) -> Seq<Span> {
    v.map_values(|s: (usize, usize, usize)| span_view(s))
}

/// Where a span is placed, those behind it move back by one.
proof fn placed_between(v: Seq<Span>, x: Span, p: int)
    requires
        0 <= p <= v.len(),
        forall|k: int| p <= k < v.len() ==> ranks_before(x, #[trigger] v[k]),
        p > 0 ==> !ranks_before(x, v[p - 1]),
    ensures
        placed(v, x) == v.insert(p, x),
    decreases v.len(),
{
    if p < v.len() {
        assert(ranks_before(x, v[v.len() - 1]));
        let t = v.drop_last();
        assert forall|k: int| p <= k < t.len() implies ranks_before(x, #[trigger] t[k]) by {
            assert(t[k] == v[k]);
        }
        placed_between(t, x, p);
        assert(t.insert(p, x).push(v.last()) =~= v.insert(p, x));
    } else {
        assert(v.push(x) =~= v.insert(p, x));
    }
}

fn place(v: &mut Vec<(usize, usize, usize)>, x: (usize, usize, usize))
    requires
        x.0 <= x.1,
        forall|k: int| 0 <= k < old(v)@.len() ==> (#[trigger] old(v)@[k]).0 <= old(v)@[k].1,
    ensures
        spans_view(final(v)@) == placed(spans_view(old(v)@), span_view(x)),
        exists|p: int| 0 <= p <= old(v)@.len() && final(v)@ == old(v)@.insert(p, x),
{
    let mut p: usize = v.len();
    while p > 0 && ((x.1 - x.0) > (v[p - 1].1 - v[p - 1].0) || ((x.1 - x.0) == (v[p - 1].1 - v[p
        - 1].0) && x.0 < v[p - 1].0))
        invariant
            p <= v@.len(),
            v@ == old(v)@,
            x.0 <= x.1,
            forall|k: int| 0 <= k < v@.len() ==> (#[trigger] v@[k]).0 <= v@[k].1,
            forall|k: int|
                p <= k < v@.len() ==> ranks_before(span_view(x), span_view(#[trigger] v@[k])),
        decreases p,
    {
        p = p - 1;
    }
    proof {
        let all = spans_view(v@);
        assert forall|k: int| p <= k < all.len() implies ranks_before(
            span_view(x),
            #[trigger] all[k],
        ) by {
            assert(all[k] == span_view(v@[k]));
        }
        placed_between(all, span_view(x), p as int);
    }
    v.insert(p, x);
    assert(spans_view(v@) =~= spans_view(old(v)@).insert(p as int, span_view(x)));
}

fn is_inside(v: &Vec<(usize, usize, usize)>, p: usize) -> (r: bool)
    ensures
        r == inside(spans_view(v@), p as int),
{
    let ghost all = spans_view(v@);
    let mut k: usize = 0;
    while k < v.len()
        invariant
            k <= v@.len(),
            all == spans_view(v@),
            forall|j: int| 0 <= j < k ==> !((#[trigger] all[j]).0 <= p < all[j].1),
        decreases v.len() - k,
    {
        assert(all[k as int] == span_view(v@[k as int]));
        if v[k].0 <= p && p < v[k].1 {
            return true;
        }
        k = k + 1;
    }
    false
}

fn find_span(v: &Vec<(usize, usize, usize)>, i: usize) -> (r: Option<(usize, usize, usize)>)
    ensures
        match r {
            Some(s) => span_from(spans_view(v@), i as int, 0) == Some(span_view(s)) && v@.contains(
                s,
            ),
            None => span_from(spans_view(v@), i as int, 0) is None,
        },
{
    let ghost all = spans_view(v@);
    let mut k: usize = 0;
    while k < v.len()
        invariant
            k <= v@.len(),
            all == spans_view(v@),
            span_from(all, i as int, 0) == span_from(all, i as int, k as int),
        decreases v.len() - k,
    {
        assert(all[k as int] == span_view(v@[k as int]));
        if v[k].0 == i {
            return Some(v[k]);
        }
        k = k + 1;
    }
    None
}

/// A span within `n` tokens and `m` sequences, with at least one token.
spec fn good_span(s: (usize, usize, usize), n: int, m: int) -> bool {
    s.0 < s.1 <= n && s.2 < m
}

fn texts_match(tokens: &Vec<Token>, i: usize, seq: &Vec<String>) -> (r: bool)
    requires
        i < tokens@.len(),
    ensures
        r == stands_at(texts(tokens_view(tokens@)), i as int, strings(seq@)),
{
    let n: usize = tokens.len();
    let ghost all = texts(tokens_view(tokens@));
    if seq.len() > n - i {
        return false;
    }
    let ghost part = all.subrange(i as int, i + seq@.len());
    let mut k: usize = 0;
    while k < seq.len()
        invariant
            k <= seq@.len(),
            i + seq@.len() <= tokens@.len() <= usize::MAX,
            all == texts(tokens_view(tokens@)),
            part == all.subrange(i as int, i + seq@.len()),
            forall|j: int| 0 <= j < k ==> part[j] == strings(seq@)[j],
        decreases seq.len() - k,
    {
        assert(part[k as int] == tokens@[i + k].text@);
        if !str_eq(seq[k].as_str(), tokens[i + k].text.as_str()) {
            assert(part[k as int] != strings(seq@)[k as int]);
            return false;
        }
        k = k + 1;
    }
    assert(part =~= strings(seq@));
    true
}

fn copy_token(t: &Token) -> (r: Token)
    ensures
        r@ == t@,
{
    Token { text: t.text.clone(), whitespace: t.whitespace, norm: copy_norm(&t.norm) }
}

impl Tokenizer {
    /// All spans of tokens that an exception matches.
    fn find_spans(&self, tokens: &Vec<Token>) -> (r: Vec<(usize, usize, usize)>)
        ensures
            spans_view(r@) == self@.spans_before(
                texts(tokens_view(tokens@)),
                tokens@.len() as int,
            ),
            forall|k: int|
                0 <= k < r@.len() ==> good_span(
                    #[trigger] r@[k],
                    tokens@.len() as int,
                    self@.rematch.len() as int,
                ),
    {
        proof {
            use_type_invariant(self);
        }
        let ghost all = texts(tokens_view(tokens@));
        let total: usize = tokens.len();
        let mut spans: Vec<(usize, usize, usize)> = Vec::new();
        let mut i: usize = 0;
        assert(spans_view(spans@) =~= Seq::<Span>::empty());
        while i < total
            invariant
                i <= tokens@.len() == total,
                all == texts(tokens_view(tokens@)),
                self@.rematch == rematch_view(self.rematch@),
                forall|j: int|
                    0 <= j < self.rematch@.len() ==> (#[trigger] self.rematch@[j]).0@.len() >= 2,
                spans_view(spans@) == self@.spans_before(all, i as int),
                forall|k: int|
                    0 <= k < spans@.len() ==> good_span(
                        #[trigger] spans@[k],
                        tokens@.len() as int,
                        self@.rematch.len() as int,
                    ),
            decreases total - i,
        {
            let ghost earlier = spans_view(spans@);
            let mut n: usize = 0;
            assert(earlier + self@.spans_at(all, i as int, 0) =~= earlier);
            while n < self.rematch.len()
                invariant
                    i < tokens@.len() == total,
                    n <= self.rematch@.len(),
                    all == texts(tokens_view(tokens@)),
                    self@.rematch == rematch_view(self.rematch@),
                    forall|j: int|
                        0 <= j < self.rematch@.len() ==> (#[trigger] self.rematch@[j]).0@.len()
                            >= 2,
                    spans_view(spans@) == earlier + self@.spans_at(all, i as int, n as int),
                    forall|k: int|
                        0 <= k < spans@.len() ==> good_span(
                            #[trigger] spans@[k],
                            tokens@.len() as int,
                            self@.rematch.len() as int,
                        ),
                decreases self.rematch.len() - n,
            {
                let seq = &self.rematch[n].0;
                assert(self@.rematch[n as int].0 == strings(seq@));
                if texts_match(tokens, i, seq) {
                    let ghost before = spans@;
                    let span = (i, i + seq.len(), n);
                    spans.push(span);
                    assert(spans_view(spans@) =~= spans_view(before).push(span_view(span)));
                    assert(spans_view(spans@) =~= earlier + self@.spans_at(
                        all,
                        i as int,
                        n + 1,
                    ));
                }
                n = n + 1;
            }
            i = i + 1;
        }
        spans
    }

    /// Finds exceptions in the already split tokens and puts them back. The longest match
    /// wins, then the leftmost, and a span is dropped if either end is already inside a kept
    /// one.
    fn apply_special_cases(&self, tokens: Vec<Token>) -> (r: Vec<Token>)
        ensures
            tokens_view(r@) == self@.rejoined(tokens_view(tokens@)),
    {
        let ghost view = tokens_view(tokens@);
        let ghost m = self@.rematch.len() as int;
        let spans = self.find_spans(&tokens);
        let ghost named = spans_view(spans@);
        let n: usize = tokens.len();
        let mut order: Vec<(usize, usize, usize)> = Vec::new();
        let mut k: usize = 0;
        assert(spans_view(order@) =~= ranked(named.take(0)));
        while k < spans.len()
            invariant
                k <= spans@.len(),
                named == spans_view(spans@),
                forall|j: int| 0 <= j < spans@.len() ==> good_span(#[trigger] spans@[j], n as int, m),
                forall|j: int| 0 <= j < order@.len() ==> good_span(#[trigger] order@[j], n as int, m),
                spans_view(order@) == ranked(named.take(k as int)),
            decreases spans.len() - k,
        {
            assert(named.take(k + 1).drop_last() =~= named.take(k as int));
            assert(named.take(k + 1).last() == span_view(spans@[k as int]));
            let ghost before = order@;
            assert(good_span(spans@[k as int], n as int, m));
            place(&mut order, spans[k]);
            proof {
                let p = choose|p: int|
                    0 <= p <= before.len() && order@ == before.insert(p, spans@[k as int]);
                assert forall|j: int| 0 <= j < order@.len() implies good_span(
                    #[trigger] order@[j],
                    n as int,
                    m,
                ) by {
                    if j < p {
                        assert(order@[j] == before[j]);
                    } else if j > p {
                        assert(order@[j] == before[j - 1]);
                    } else {
                        assert(order@[j] == spans@[k as int]);
                    }
                }
            }
            k = k + 1;
        }
        assert(named.take(k as int) =~= named);
        let ghost rank = spans_view(order@);
        let mut keep: Vec<(usize, usize, usize)> = Vec::new();
        k = 0;
        assert(spans_view(keep@) =~= kept(rank.take(0)));
        while k < order.len()
            invariant
                k <= order@.len(),
                rank == spans_view(order@),
                forall|j: int| 0 <= j < order@.len() ==> good_span(#[trigger] order@[j], n as int, m),
                forall|j: int| 0 <= j < keep@.len() ==> good_span(#[trigger] keep@[j], n as int, m),
                spans_view(keep@) == kept(rank.take(k as int)),
            decreases order.len() - k,
        {
            assert(rank.take(k + 1).drop_last() =~= rank.take(k as int));
            assert(rank.take(k + 1).last() == span_view(order@[k as int]));
            let x = order[k];
            assert(good_span(order@[k as int], n as int, m));
            if !is_inside(&keep, x.0) && !is_inside(&keep, x.1 - 1) {
                let ghost before = keep@;
                keep.push(x);
                assert(spans_view(keep@) =~= spans_view(before).push(span_view(x)));
            }
            k = k + 1;
        }
        assert(rank.take(k as int) =~= rank);
        let ghost chosen = spans_view(keep@);
        assert(chosen == self@.replaced_spans(texts(view)));
        let mut out: Vec<Token> = Vec::new();
        let mut i: usize = 0;
        assert(tokens_view(out@) =~= Seq::<TokenView>::empty());
        while i < n
            invariant
                i <= n == tokens@.len(),
                view == tokens_view(tokens@),
                m == self@.rematch.len(),
                self@.rematch == rematch_view(self.rematch@),
                self@.specials == specials_view(self.specials@),
                chosen == spans_view(keep@),
                forall|j: int| 0 <= j < keep@.len() ==> good_span(#[trigger] keep@[j], n as int, m),
                self@.replaced(view, chosen, 0, Seq::empty()) == self@.replaced(
                    view,
                    chosen,
                    i as int,
                    tokens_view(out@),
                ),
            decreases n - i,
        {
            match find_span(&keep, i) {
                Some(sp) => {
                    proof {
                        let j = choose|j: int| 0 <= j < keep@.len() && keep@[j] == sp;
                        assert(good_span(keep@[j], n as int, m));
                        assert(sp.0 == i) by {
                            span_from_begins(chosen, i as int, 0);
                        }
                    }
                    let key = self.rematch[sp.2].1.as_str();
                    assert(self@.rematch[sp.2 as int].1 == key@);
                    match self.specials.get(key) {
                        Some(entries) => {
                            push_special(&mut out, entries);
                            set_last_space(&mut out, tokens[sp.1 - 1].whitespace);
                            assert(view[sp.1 - 1] == tokens@[sp.1 - 1]@);
                        },
                        None => {
                            let ghost before = tokens_view(out@);
                            let mut k: usize = i;
                            assert(before + view.subrange(i as int, i as int) =~= before);
                            while k < sp.1
                                invariant
                                    i <= k <= sp.1 <= tokens@.len(),
                                    view == tokens_view(tokens@),
                                    tokens_view(out@) == before + view.subrange(
                                        i as int,
                                        k as int,
                                    ),
                                decreases sp.1 - k,
                            {
                                let ghost o = out@;
                                let t = copy_token(&tokens[k]);
                                out.push(t);
                                assert(tokens_view(out@) =~= tokens_view(o).push(view[k as int]));
                                assert(tokens_view(out@) =~= before + view.subrange(
                                    i as int,
                                    k + 1,
                                ));
                                k = k + 1;
                            }
                        },
                    }
                    i = sp.1;
                },
                None => {
                    let ghost o = out@;
                    let t = copy_token(&tokens[i]);
                    out.push(t);
                    assert(tokens_view(out@) =~= tokens_view(o).push(view[i as int]));
                    i = i + 1;
                },
            }
        }
        out
    }

    /// The tokens of a text, or nothing where the infixes of a word are out of order
    /// or have no end.
    pub fn tokenize(&self, text: &str) -> (r: Option<Vec<Token>>)
        ensures
            match r {
                Some(v) => self@.tokens(text@) == Some(tokens_view(v@)),
                None => self@.tokens(text@) is None,
            },
    {
        let c = chars_of(text);
        let n: usize = c.len();
        let mut out: Vec<Token> = Vec::new();
        let mut run: usize = 0;
        let mut start: usize = 0;
        let ghost goal = self@.first_pass(text@, 0, 0, Seq::empty());
        assert(tokens_view(out@) =~= Seq::<TokenView>::empty());
        while run < n
            invariant
                run <= n == c@.len(),
                c@ == text@,
                run < n ==> run <= start <= run + 1,
                run == n ==> goal == Some(tokens_view(out@)),
                run < n ==> goal == self@.first_pass(
                    text@,
                    run as int,
                    start as int,
                    tokens_view(out@),
                ),
                goal == self@.first_pass(text@, 0, 0, Seq::empty()),
            decreases n - run,
        {
            let in_space = is_whitespace(c[run]);
            let mut end: usize = run + 1;
            while end < n && is_whitespace(c[end]) == in_space
                invariant
                    run < end <= n == c@.len(),
                    c@ == text@,
                    in_space == white_space(c@[run as int]),
                    white_space(c@[end - 1]) == in_space,
                    run_end(text@, run as int) == run_end(text@, end - 1),
                decreases n - end,
            {
                end = end + 1;
            }
            let ghost before = tokens_view(out@);
            if start < end {
                let span = string_of(&c, start, end);
                assert(end == n ==> span@ =~= text@.skip(start as int));
                if !self.tokenize_span(&mut out, span.as_str(), true) {
                    return None;
                }
                assert(tokens_view(out@) + Seq::<TokenView>::empty() =~= tokens_view(out@));
                if end == n {
                    set_last_space(&mut out, "");
                }
            }
            if end < n {
                if c[end] == ' ' {
                    set_last_space(&mut out, " ");
                    start = end + 1;
                } else {
                    start = end;
                }
            }
            run = end;
        }
        Some(self.apply_special_cases(out))
    }
}

proof fn span_from_begins(v: Seq<Span>, i: int, k: int)
    requires
        0 <= k,
    ensures
        span_from(v, i, k) is Some ==> span_from(v, i, k).unwrap().0 == i,
    decreases v.len() - k,
{
    if k < v.len() && v[k].0 != i {
        span_from_begins(v, i, k + 1);
    }
}

/// The rules of a tokenizer, as a rules file holds them.
pub struct Rules {
    pub prefix_search: String,
    pub suffix_search: String,
    pub infix_finditer: String,
    pub url_match: Option<String>,
    /// In the order in which the table was walked.
    pub exceptions: Vec<(String, Vec<Special>)>,
    /// Keyed by a hash in decimal digits.
    pub lexeme_norm: Vec<(String, String)>,
    pub symbols: Vec<(String, u64)>,
    pub base_norms: Vec<(String, String)>,
}

/// What can be wrong with the rules of a tokenizer, in the order in which it is found.
#[derive(Clone, Copy, Debug, PartialEq, Eq, Structural)]
pub enum RulesError {
    /// The prefix pattern does not compile.
    Prefix,
    /// The suffix pattern does not compile.
    Suffix,
    /// The infix pattern does not compile.
    Infix,
    /// The address pattern does not compile.
    Url,
    /// A normal form is keyed by something other than a 64-bit number.
    NormKey,
    /// The infixes of an exception are out of order or have no end.
    Disorder,
}

/// The exception table that a list writes. The last of two equal keys counts.
pub open spec fn exception_map(v: Seq<(String, Vec<Special>)>) -> Map<Seq<char>, Seq<TokenView>>
    decreases v.len(),
{
    if v.len() == 0 {
        Map::empty()
    } else {
        exception_map(v.drop_last()).insert(v.last().0@, special_tokens(v.last().1@))
    }
}

/// The keys of a list of exceptions.
pub open spec fn exception_keys(v: Seq<(String, Vec<Special>)>) -> Seq<Seq<char>> {
    v.map_values(|p: (String, Vec<Special>)| p.0@)
}

/// A list of normal forms with its keys read as numbers, or nothing where one is none.
pub open spec fn numbered(v: Seq<(String, String)>) -> Option<Seq<(u64, String)>>
    decreases v.len(),
{
    if v.len() == 0 {
        Some(Seq::empty())
    } else {
        match numbered(v.drop_last()) {
            None => None,
            Some(before) => match natural_number(v.last().0@) {
                None => None,
                Some(k) => Some(before.push((k, v.last().1))),
            },
        }
    }
}

impl TokenizerView {
    /// Whether affix splitting can take a text apart.
    pub open spec fn takes_apart(self, key: Seq<char>) -> bool {
        self.prefix_len(key) != 0 || self.suffix_len(key) != 0 || (first_match(self.infix, key)
            matches Some(Some(_))) || key.contains(' ')
    }

    /// The sequences of the second pass: each exception that affix splitting takes apart,
    /// with the two or more texts that it leaves. Those that it leaves whole could only be
    /// found where they were found already.
    pub open spec fn sequences(self, keys: Seq<Seq<char>>) -> Option<
        Seq<(Seq<Seq<char>>, Seq<char>)>,
    >
        decreases keys.len(),
    {
        if keys.len() == 0 {
            Some(Seq::empty())
        } else {
            match self.sequences(keys.drop_last()) {
                None => None,
                Some(before) => if !self.takes_apart(keys.last()) {
                    Some(before)
                } else {
                    match self.span_tokens(keys.last(), false) {
                        None => None,
                        Some(v) => if v.len() < 2 {
                            Some(before)
                        } else {
                            Some(before.push((texts(v), keys.last())))
                        },
                    }
                },
            }
        }
    }
}

/// The tokenizer of a set of rules, without the sequences of its second pass.
pub open spec fn bare_tokenizer(rules: Rules) -> TokenizerView {
    TokenizerView {
        prefix: compiled(translated(rules.prefix_search@)).unwrap(),
        suffix: compiled(translated(rules.suffix_search@)).unwrap(),
        infix: compiled(translated(rules.infix_finditer@)).unwrap(),
        url: match rules.url_match {
            Some(p) => compiled(translated(p@)),
            None => None,
        },
        specials: exception_map(rules.exceptions@),
        rematch: Seq::empty(),
        vocab: vocab_of(
            rules.symbols@,
            rules.base_norms@,
            numbered(rules.lexeme_norm@).unwrap(),
        ),
    }
}

/// The tokenizer that a set of rules makes, or what is wrong with them.
pub open spec fn tokenizer_of(rules: Rules) -> Result<TokenizerView, RulesError> {
    if compiled(translated(rules.prefix_search@)) is None {
        Err(RulesError::Prefix)
    } else if compiled(translated(rules.suffix_search@)) is None {
        Err(RulesError::Suffix)
    } else if compiled(translated(rules.infix_finditer@)) is None {
        Err(RulesError::Infix)
    } else if rules.url_match is Some && compiled(translated(rules.url_match.unwrap()@)) is None {
        Err(RulesError::Url)
    } else if numbered(rules.lexeme_norm@) is None {
        Err(RulesError::NormKey)
    } else {
        let bare = bare_tokenizer(rules);
        match bare.sequences(exception_keys(rules.exceptions@)) {
            None => Err(RulesError::Disorder),
            Some(rematch) => Ok(TokenizerView { rematch, ..bare }),
        }
    }
}

fn compile_rule(pattern: &str) -> (r: Option<Regex>)
    ensures
        r == compiled(translated(pattern@)),
{
    let p = translate(pattern);
    match compile(p.as_str()) {
        Ok(re) => Some(re),
        Err(_) => None,
    }
}

fn number_keys(v: &Vec<(String, String)>) -> (r: Option<Vec<(u64, String)>>)
    ensures
        match r {
            Some(out) => numbered(v@) == Some(out@),
            None => numbered(v@) is None,
        },
{
    let mut out: Vec<(u64, String)> = Vec::new();
    let mut i: usize = 0;
    while i < v.len()
        invariant
            i <= v@.len(),
            numbered(v@.take(i as int)) == Some(out@),
        decreases v.len() - i,
    {
        assert(v@.take(i + 1).drop_last() =~= v@.take(i as int));
        match parse_natural(&chars_of(v[i].0.as_str())) {
            Some(k) => out.push((k, v[i].1.clone())),
            None => {
                proof {
                    numbered_stops(v@, i + 1);
                }
                return None;
            },
        }
        i = i + 1;
    }
    assert(v@.take(i as int) =~= v@);
    Some(out)
}

proof fn numbered_stops(v: Seq<(String, String)>, n: int)
    requires
        0 <= n <= v.len(),
        numbered(v.take(n)) is None,
    ensures
        numbered(v) is None,
    decreases v.len() - n,
{
    if n < v.len() {
        assert(v.take(n + 1).drop_last() =~= v.take(n));
        numbered_stops(v, n + 1);
    } else {
        assert(v.take(n) =~= v);
    }
}

fn copy_specials(v: &Vec<Special>) -> (r: Vec<Special>)
    ensures
        special_tokens(r@) == special_tokens(v@),
{
    let mut out: Vec<Special> = Vec::new();
    let mut i: usize = 0;
    assert(special_tokens(out@) =~= special_tokens(v@).take(0));
    while i < v.len()
        invariant
            i <= v@.len(),
            special_tokens(out@) == special_tokens(v@).take(i as int),
        decreases v.len() - i,
    {
        let ghost before = out@;
        let s = Special { orth: v[i].orth.clone(), norm: copy_norm(&v[i].norm) };
        out.push(s);
        assert(special_tokens(out@) =~= special_tokens(before).push(special_tokens(v@)[i as int]));
        assert(special_tokens(out@) =~= special_tokens(v@).take(i + 1));
        i = i + 1;
    }
    assert(special_tokens(v@).take(i as int) =~= special_tokens(v@));
    out
}

fn collect_exceptions(v: &Vec<(String, Vec<Special>)>) -> (r: StringHashMap<Vec<Special>>)
    ensures
        specials_view(r@) == exception_map(v@),
{
    let mut out: StringHashMap<Vec<Special>> = StringHashMap::new();
    let mut i: usize = 0;
    assert(specials_view(out@) =~= exception_map(v@.take(0)));
    while i < v.len()
        invariant
            i <= v@.len(),
            specials_view(out@) == exception_map(v@.take(i as int)),
        decreases v.len() - i,
    {
        assert(v@.take(i + 1).drop_last() =~= v@.take(i as int));
        let ghost before = out@;
        let entries = copy_specials(&v[i].1);
        out.insert(v[i].0.clone(), entries);
        assert(specials_view(out@) =~= specials_view(before).insert(
            v@[i as int].0@,
            special_tokens(entries@),
        ));
        i = i + 1;
    }
    assert(v@.take(i as int) =~= v@);
    out
}

fn take_texts(v: &Vec<Token>) -> (r: Vec<String>)
    ensures
        strings(r@) == texts(tokens_view(v@)),
{
    let mut out: Vec<String> = Vec::new();
    let ghost all = texts(tokens_view(v@));
    let mut i: usize = 0;
    assert(strings(out@) =~= all.take(0));
    while i < v.len()
        invariant
            i <= v@.len(),
            all == texts(tokens_view(v@)),
            strings(out@) == all.take(i as int),
        decreases v.len() - i,
    {
        let ghost before = out@;
        let t = v[i].text.clone();
        out.push(t);
        assert(strings(out@) =~= strings(before).push(t@));
        assert(strings(out@) =~= all.take(i + 1));
        i = i + 1;
    }
    assert(all.take(i as int) =~= all);
    out
}

impl Tokenizer {
    /// Whether affix splitting can take a text apart.
    fn can_take_apart(&self, key: &str) -> (r: bool)
        ensures
            r == self@.takes_apart(key@),
    {
        if self.find_prefix(key) != 0 || self.find_suffix(key) != 0 {
            return true;
        }
        match find_first(&self.infix, key) {
            Ok(Some(_)) => {
                return true;
            },
            _ => {},
        }
        contains_char(key, ' ')
    }

    /// The sequences of the second pass, in the order of the exceptions.
    fn build_rematch(&self, exceptions: &Vec<(String, Vec<Special>)>) -> (r: Option<
        Vec<(Vec<String>, String)>,
    >)
        ensures
            match r {
                Some(v) => self@.sequences(exception_keys(exceptions@)) == Some(rematch_view(v@))
                    && forall|k: int| 0 <= k < v@.len() ==> (#[trigger] v@[k]).0@.len() >= 2,
                None => self@.sequences(exception_keys(exceptions@)) is None,
            },
    {
        let ghost keys = exception_keys(exceptions@);
        let mut out: Vec<(Vec<String>, String)> = Vec::new();
        let mut i: usize = 0;
        assert(rematch_view(out@) =~= Seq::<(Seq<Seq<char>>, Seq<char>)>::empty());
        while i < exceptions.len()
            invariant
                i <= exceptions@.len(),
                keys == exception_keys(exceptions@),
                self@.sequences(keys.take(i as int)) == Some(rematch_view(out@)),
                forall|k: int| 0 <= k < out@.len() ==> (#[trigger] out@[k]).0@.len() >= 2,
            decreases exceptions.len() - i,
        {
            assert(keys.take(i + 1).drop_last() =~= keys.take(i as int));
            let key = exceptions[i].0.as_str();
            assert(keys.take(i + 1).last() == key@);
            if self.can_take_apart(key) {
                let mut seq: Vec<Token> = Vec::new();
                if !self.tokenize_span(&mut seq, key, false) {
                    proof {
                        self@.sequences_stop(keys, i + 1);
                    }
                    return None;
                }
                proof {
                    let v = self@.span_tokens(key@, false).unwrap();
                    assert(tokens_view(seq@) =~= v);
                }
                if seq.len() >= 2 {
                    let ghost before = out@;
                    let orths = take_texts(&seq);
                    assert(strings(orths@).len() == seq@.len());
                    let entry = (orths, exceptions[i].0.clone());
                    out.push(entry);
                    assert(rematch_view(out@) =~= rematch_view(before).push(
                        (strings(orths@), key@),
                    ));
                }
            }
            i = i + 1;
        }
        assert(keys.take(i as int) =~= keys);
        Some(out)
    }

    /// The tokenizer that a set of rules makes, or what is wrong with them.
    pub fn new(rules: Rules) -> (r: Result<Tokenizer, RulesError>)
        ensures
            match r {
                Ok(t) => tokenizer_of(rules) == Ok::<TokenizerView, RulesError>(t@),
                Err(e) => tokenizer_of(rules) == Err::<TokenizerView, RulesError>(e),
            },
    {
        let prefix = match compile_rule(rules.prefix_search.as_str()) {
            Some(re) => re,
            None => {
                return Err(RulesError::Prefix);
            },
        };
        let suffix = match compile_rule(rules.suffix_search.as_str()) {
            Some(re) => re,
            None => {
                return Err(RulesError::Suffix);
            },
        };
        let infix = match compile_rule(rules.infix_finditer.as_str()) {
            Some(re) => re,
            None => {
                return Err(RulesError::Infix);
            },
        };
        let url = match &rules.url_match {
            Some(p) => match compile_rule(p.as_str()) {
                Some(re) => Some(re),
                None => {
                    return Err(RulesError::Url);
                },
            },
            None => None,
        };
        let norms = match number_keys(&rules.lexeme_norm) {
            Some(v) => v,
            None => {
                return Err(RulesError::NormKey);
            },
        };
        let vocab = Vocab::new(&rules.symbols, &rules.base_norms, &norms);
        let specials = collect_exceptions(&rules.exceptions);
        let bare = Tokenizer { prefix, suffix, infix, url, specials, rematch: Vec::new(), vocab };
        assert(bare@.rematch =~= Seq::<(Seq<Seq<char>>, Seq<char>)>::empty());
        assert(bare@ == bare_tokenizer(rules));
        match bare.build_rematch(&rules.exceptions) {
            Some(rematch) => {
                let t = Tokenizer {
                    prefix: bare.prefix,
                    suffix: bare.suffix,
                    infix: bare.infix,
                    url: bare.url,
                    specials: bare.specials,
                    rematch,
                    vocab: bare.vocab,
                };
                Ok(t)
            },
            None => Err(RulesError::Disorder),
        }
    }
}

impl TokenizerView {
    /// An exception out of order stops every longer list.
    proof fn sequences_stop(self, keys: Seq<Seq<char>>, n: int)
        requires
            0 <= n <= keys.len(),
            self.sequences(keys.take(n)) is None,
        ensures
            self.sequences(keys) is None,
        decreases keys.len() - n,
    {
        if n < keys.len() {
            assert(keys.take(n + 1).drop_last() =~= keys.take(n));
            self.sequences_stop(keys, n + 1);
        } else {
            assert(keys.take(n) =~= keys);
        }
    }
}

} // verus!
