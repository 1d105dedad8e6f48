//! What the tokenizer keeps of a text, for every set of rules.

use crate::pattern::all_matches;
use crate::tokenize::{
    around, bare_tokenizer, exception_keys, found, infix_pieces, kept, placed, plain_token,
    plain_tokens, ranked, ranks_before, run_end, span_from, stands_at, texts, tokenizer_of,
    with_last_space, Rules, RulesError, Span, TokenView, TokenizerView,
};
use crate::unicode::white_space;
use vstd::prelude::*;

verus! {

/// Texts one after the other.
pub open spec fn joined(v: Seq<Seq<char>>) -> Seq<char>
    decreases v.len(),
{
    if v.len() == 0 {
        Seq::empty()
    } else {
        joined(v.drop_last()) + v.last()
    }
}

/// The texts of tokens one after the other, each with the white space behind it.
pub open spec fn written(v: Seq<TokenView>) -> Seq<char>
    decreases v.len(),
{
    if v.len() == 0 {
        Seq::empty()
    } else {
        written(v.drop_last()) + v.last().text + v.last().whitespace
    }
}

/// No token has white space behind it.
pub open spec fn close_set(v: Seq<TokenView>) -> bool {
    forall|i: int| 0 <= i < v.len() ==> (#[trigger] v[i]).whitespace == Seq::<char>::empty()
}

impl TokenizerView {
    /// The tokens of every exception spell its key, with no white space behind any.
    pub open spec fn spells(self) -> bool {
        forall|k: Seq<char>| #[trigger]
            self.specials.contains_key(k) ==> joined(texts(self.specials[k])) == k && close_set(
                self.specials[k],
            )
    }

    /// The texts of every sequence of the second pass spell its key.
    pub open spec fn rejoins(self) -> bool {
        forall|i: int|
            0 <= i < self.rematch.len() ==> joined((#[trigger] self.rematch[i]).0)
                == self.rematch[i].1 && self.rematch[i].0.len() >= 2
    }
}

proof fn joined_sum(a: Seq<Seq<char>>, b: Seq<Seq<char>>)
    ensures
        joined(a + b) == joined(a) + joined(b),
    decreases b.len(),
{
    if b.len() == 0 {
        assert(a + b =~= a);
        assert(joined(a) + joined(b) =~= joined(a));
    } else {
        joined_sum(a, b.drop_last());
        assert((a + b).drop_last() =~= a + b.drop_last());
        assert(joined(a + b) =~= joined(a) + joined(b));
    }
}

proof fn joined_one(s: Seq<char>)
    ensures
        joined(seq![s]) == s,
{
    let v = seq![s];
    assert(v.drop_last() =~= Seq::<Seq<char>>::empty());
    assert(joined(Seq::<Seq<char>>::empty()) =~= Seq::<char>::empty());
    assert(joined(v) =~= s);
}

proof fn written_sum(a: Seq<TokenView>, b: Seq<TokenView>)
    ensures
        written(a + b) == written(a) + written(b),
    decreases b.len(),
{
    if b.len() == 0 {
        assert(a + b =~= a);
        assert(written(a) + written(b) =~= written(a));
    } else {
        written_sum(a, b.drop_last());
        assert((a + b).drop_last() =~= a + b.drop_last());
        assert(written(a + b) =~= written(a) + written(b));
    }
}

proof fn close_set_written(v: Seq<TokenView>)
    requires
        close_set(v),
    ensures
        written(v) == joined(texts(v)),
    decreases v.len(),
{
    if v.len() > 0 {
        let t = v.drop_last();
        assert forall|i: int| 0 <= i < t.len() implies (#[trigger] t[i]).whitespace == Seq::<
            char,
        >::empty() by {
            assert(t[i] == v[i]);
        }
        close_set_written(t);
        assert(texts(v).drop_last() =~= texts(t));
        assert(v[v.len() - 1].whitespace == Seq::<char>::empty());
        assert(written(v) =~= joined(texts(v)));
    }
}

proof fn plain_texts(v: Seq<Seq<char>>)
    ensures
        texts(plain_tokens(v)) == v,
        close_set(plain_tokens(v)),
{
    reveal_strlit("");
    assert(texts(plain_tokens(v)) =~= v);
    assert(""@ =~= Seq::<char>::empty());
}

/// The pieces between and on the infixes make up the text.
pub proof fn pieces_make_up_the_text(s: Seq<char>, ms: Seq<(nat, nat)>, i: int, start: int)
    requires
        0 <= i,
        0 <= start <= s.len(),
        infix_pieces(s, ms, i, start) is Some,
    ensures
        joined(infix_pieces(s, ms, i, start).unwrap()) == s.skip(start),
    decreases ms.len() - i,
{
    if i >= ms.len() {
        if start < s.len() {
            joined_one(s.skip(start));
        } else {
            assert(joined(Seq::<Seq<char>>::empty()) =~= s.skip(start));
        }
    } else {
        let a = ms[i].0 as int;
        let b = ms[i].1 as int;
        if a == 0 {
            pieces_make_up_the_text(s, ms, i + 1, start);
        } else {
            pieces_make_up_the_text(s, ms, i + 1, b);
            let gap = if start < a {
                seq![s.subrange(start, a)]
            } else {
                Seq::empty()
            };
            let mid = if a < b {
                seq![s.subrange(a, b)]
            } else {
                Seq::empty()
            };
            let rest = infix_pieces(s, ms, i + 1, b).unwrap();
            joined_one(s.subrange(start, a));
            joined_one(s.subrange(a, b));
            assert(joined(Seq::<Seq<char>>::empty()) =~= Seq::<char>::empty());
            assert(joined(gap) =~= s.subrange(start, a));
            assert(joined(mid) =~= s.subrange(a, b));
            joined_sum(gap, mid);
            joined_sum(gap + mid, rest);
            assert(s.subrange(start, a) + s.subrange(a, b) + s.skip(b) =~= s.skip(start));
        }
    }
}

proof fn around_spells(
    before: Seq<TokenView>,
    inner: Option<Seq<TokenView>>,
    behind: Seq<TokenView>,
    x: Seq<char>,
    y: Seq<char>,
    z: Seq<char>,
)
    requires
        inner is Some,
        joined(texts(before)) == x,
        joined(texts(inner.unwrap())) == y,
        joined(texts(behind)) == z,
        close_set(before),
        close_set(inner.unwrap()),
        close_set(behind),
    ensures
        joined(texts(around(before, inner, behind).unwrap())) == x + y + z,
        close_set(around(before, inner, behind).unwrap()),
{
    let v = inner.unwrap();
    joined_sum(texts(before), texts(v));
    joined_sum(texts(before) + texts(v), texts(behind));
    assert(texts(before + v + behind) =~= texts(before) + texts(v) + texts(behind));
}

impl TokenizerView {
    proof fn core_keeps(self, s: Seq<char>, with_specials: bool)
        requires
            with_specials ==> self.spells(),
            self.core_tokens(s, with_specials) is Some,
        ensures
            joined(texts(self.core_tokens(s, with_specials).unwrap())) == s,
            close_set(self.core_tokens(s, with_specials).unwrap()),
    {
        let v = self.core_tokens(s, with_specials).unwrap();
        if s.len() == 0 {
            assert(texts(v) =~= Seq::<Seq<char>>::empty());
            assert(joined(texts(v)) =~= s);
        } else if with_specials && self.specials.contains_key(s) {
        } else if self.is_url(s) {
            plain_texts(seq![s]);
            assert(v =~= plain_tokens(seq![s]));
            joined_one(s);
        } else {
            let ms = found(all_matches(self.infix, s).unwrap());
            pieces_make_up_the_text(s, ms, 0, 0);
            plain_texts(infix_pieces(s, ms, 0, 0).unwrap());
            assert(s.skip(0) =~= s);
        }
    }

    /// The tokens of a span spell the span. Where exceptions count, theirs must spell their
    /// keys.
    #[verifier::rlimit(40)]
    #[verifier::spinoff_prover]
    pub proof fn spans_are_spelt(self, s: Seq<char>, with_specials: bool)
        requires
            with_specials ==> self.spells(),
            self.span_tokens(s, with_specials) is Some,
        ensures
            joined(texts(self.span_tokens(s, with_specials).unwrap())) == s,
            close_set(self.span_tokens(s, with_specials).unwrap()),
        decreases s.len(),
    {
        let n = s.len() as int;
        let pre = self.prefix_len(s);
        let suf = self.suffix_len(s.skip(pre));
        let x = s.take(pre);
        let z = s.skip(n - suf);
        let first = seq![plain_token(x)];
        let last = seq![plain_token(z)];
        let none = Seq::<TokenView>::empty();
        plain_texts(seq![x]);
        plain_texts(seq![z]);
        assert(first =~= plain_tokens(seq![x]));
        assert(last =~= plain_tokens(seq![z]));
        joined_one(x);
        joined_one(z);
        assert(texts(none) =~= Seq::<Seq<char>>::empty());
        assert(joined(texts(none)) =~= Seq::<char>::empty());
        let e = Seq::<char>::empty();
        if n == 0 || (with_specials && self.specials.contains_key(s)) {
            self.core_keeps(s, with_specials);
        } else if pre != 0 && with_specials && pre < n && self.specials.contains_key(s.skip(pre)) {
            let y = s.skip(pre);
            self.core_keeps(y, with_specials);
            around_spells(first, self.core_tokens(y, with_specials), none, x, y, e);
            assert(x + y + e =~= s);
        } else if suf != 0 && with_specials && suf < n && self.specials.contains_key(
            s.take(n - suf),
        ) {
            let y = s.take(n - suf);
            self.core_keeps(y, with_specials);
            around_spells(none, self.core_tokens(y, with_specials), last, e, y, z);
            assert(e + y + z =~= s);
        } else if pre != 0 && suf != 0 {
            let y = s.subrange(pre, n - suf);
            self.spans_are_spelt(y, with_specials);
            around_spells(first, self.span_tokens(y, with_specials), last, x, y, z);
            assert(x + y + z =~= s);
        } else if pre != 0 {
            let y = s.skip(pre);
            self.spans_are_spelt(y, with_specials);
            around_spells(first, self.span_tokens(y, with_specials), none, x, y, e);
            assert(x + y + e =~= s);
        } else if suf != 0 {
            let y = s.take(n - suf);
            self.spans_are_spelt(y, with_specials);
            around_spells(none, self.span_tokens(y, with_specials), last, e, y, z);
            assert(e + y + z =~= s);
        } else {
            self.core_keeps(s, with_specials);
        }
    }

    #[verifier::rlimit(40)]
    #[verifier::spinoff_prover]
    proof fn first_pass_keeps(self, text: Seq<char>, run: int, start: int, out: Seq<TokenView>)
        requires
            self.spells(),
            0 <= run < text.len(),
            run <= start <= run + 1,
            !white_space(text[run]) ==> start == run,
            written(out) == text.take(start),
            self.first_pass(text, run, start, out) is Some,
        ensures
            written(self.first_pass(text, run, start, out).unwrap()) == text,
        decreases text.len() - run,
    {
        let end = run_end(text, run);
        run_ends(text, run);
        if end >= text.len() {
            if start < text.len() {
                let span = text.skip(start);
                self.spans_are_spelt(span, true);
                let v = self.span_tokens(span, true).unwrap();
                close_set_written(v);
                nonempty_tokens(v);
                written_sum(out, v);
                reveal_strlit("");
                assert(""@ =~= Seq::<char>::empty());
                assert(v[v.len() - 1].whitespace == Seq::<char>::empty());
                assert((out + v).last() == v.last());
                assert(with_last_space(out + v, ""@) =~= out + v);
                assert(text.take(start) + span =~= text);
            } else {
                assert(text.take(start) =~= text);
            }
        } else {
            let span = text.subrange(start, end);
            let next = if start < end {
                self.spans_are_spelt(span, true);
                let v = self.span_tokens(span, true).unwrap();
                close_set_written(v);
                nonempty_tokens(v);
                written_sum(out, v);
                assert(out + v + Seq::<TokenView>::empty() =~= out + v);
                assert(text.take(start) + span =~= text.take(end));
                assert(v[v.len() - 1].whitespace == Seq::<char>::empty());
                out + v
            } else {
                out
            };
            assert(written(next) == text.take(end));
            if text[end] == ' ' {
                assert(white_space(text[end]));
                assert(start < end);
                let marked = with_last_space(next, " "@);
                reveal_strlit(" ");
                assert(marked.drop_last() =~= next.drop_last());
                assert(written(marked) =~= text.take(end + 1)) by {
                    assert(written(next) =~= written(next.drop_last()) + next.last().text);
                    assert(" "@ =~= seq![' ']);
                    assert(text.take(end + 1) =~= text.take(end) + seq![' ']);
                }
                self.first_pass_keeps(text, end, end + 1, marked);
            } else {
                self.first_pass_keeps(text, end, end, next);
            }
        }
    }

    /// The first pass loses nothing: the tokens with the white space behind them are the
    /// text, as long as every exception spells its key.
    pub proof fn first_pass_loses_nothing(self, text: Seq<char>)
        requires
            self.spells(),
            self.first_pass(text, 0, 0, Seq::empty()) is Some,
        ensures
            written(self.first_pass(text, 0, 0, Seq::empty()).unwrap()) == text,
    {
        if text.len() > 0 {
            assert(text.take(0) =~= Seq::<char>::empty());
            self.first_pass_keeps(text, 0, 0, Seq::empty());
        } else {
            assert(written(Seq::<TokenView>::empty()) =~= text);
        }
    }

    proof fn replaced_keeps(
        self,
        tokens: Seq<TokenView>,
        spans: Seq<Span>,
        i: int,
        out: Seq<TokenView>,
    )
        requires
            self.spells(),
            self.rejoins(),
            0 <= i <= tokens.len(),
            forall|k: int| 0 <= k < spans.len() ==> self.matching(tokens, #[trigger] spans[k]),
        ensures
            joined(texts(self.replaced(tokens, spans, i, out))) == joined(texts(out)) + joined(
                texts(tokens.skip(i)),
            ),
        decreases tokens.len() - i,
    {
        if i >= tokens.len() {
            assert(texts(tokens.skip(i)) =~= Seq::<Seq<char>>::empty());
            assert(joined(texts(out)) + joined(texts(tokens.skip(i))) =~= joined(texts(out)));
        } else {
            let hit = span_from(spans, i, 0);
            span_from_member(spans, i, 0);
            if hit is Some && i < hit.unwrap().1 <= tokens.len() {
                let sp = hit.unwrap();
                assert(self.matching(tokens, sp));
                let key = self.rematch[sp.2].1;
                let part = tokens.subrange(i, sp.1);
                assert(texts(part) =~= texts(tokens).subrange(sp.0, sp.1));
                assert(joined(texts(part)) == key);
                let next = if self.specials.contains_key(key) {
                    let v = self.specials[key];
                    let w = tokens[sp.1 - 1].whitespace;
                    assert(texts(with_last_space(out + v, w)) =~= texts(out) + texts(v));
                    joined_sum(texts(out), texts(v));
                    with_last_space(out + v, w)
                } else {
                    assert(texts(out + part) =~= texts(out) + texts(part));
                    joined_sum(texts(out), texts(part));
                    out + part
                };
                self.replaced_keeps(tokens, spans, sp.1, next);
                assert(texts(tokens.skip(i)) =~= texts(part) + texts(tokens.skip(sp.1)));
                joined_sum(texts(part), texts(tokens.skip(sp.1)));
                assert(joined(texts(out)) + key + joined(texts(tokens.skip(sp.1))) =~= joined(
                    texts(out),
                ) + (key + joined(texts(tokens.skip(sp.1)))));
            } else {
                let t = tokens[i];
                self.replaced_keeps(tokens, spans, i + 1, out.push(t));
                assert(texts(out.push(t)) =~= texts(out) + seq![t.text]);
                joined_sum(texts(out), seq![t.text]);
                assert(texts(tokens.skip(i)) =~= seq![t.text] + texts(tokens.skip(i + 1)));
                joined_sum(seq![t.text], texts(tokens.skip(i + 1)));
                joined_one(t.text);
                assert(joined(texts(out)) + t.text + joined(texts(tokens.skip(i + 1))) =~= joined(
                    texts(out),
                ) + (t.text + joined(texts(tokens.skip(i + 1)))));
            }
        }
    }

    /// A span whose sequence stands where the span says.
    pub open spec fn matching(self, tokens: Seq<TokenView>, s: Span) -> bool {
        &&& 0 <= s.2 < self.rematch.len()
        &&& 0 <= s.0
        &&& s.1 == s.0 + self.rematch[s.2].0.len()
        &&& stands_at(texts(tokens), s.0, self.rematch[s.2].0)
    }

    proof fn spans_at_match(self, tokens: Seq<TokenView>, i: int, n: int)
        requires
            0 <= i < tokens.len(),
            n <= self.rematch.len(),
        ensures
            forall|k: int|
                0 <= k < self.spans_at(texts(tokens), i, n).len() ==> self.matching(
                    tokens,
                    #[trigger] self.spans_at(texts(tokens), i, n)[k],
                ),
        decreases n,
    {
        if n > 0 {
            self.spans_at_match(tokens, i, n - 1);
            let before = self.spans_at(texts(tokens), i, n - 1);
            let v = self.spans_at(texts(tokens), i, n);
            assert forall|k: int| 0 <= k < v.len() implies self.matching(
                tokens,
                #[trigger] v[k],
            ) by {
                if k < before.len() {
                    assert(v[k] == before[k]);
                }
            }
        }
    }

    proof fn spans_before_match(self, tokens: Seq<TokenView>, i: int)
        requires
            i <= tokens.len(),
        ensures
            forall|k: int|
                0 <= k < self.spans_before(texts(tokens), i).len() ==> self.matching(
                    tokens,
                    #[trigger] self.spans_before(texts(tokens), i)[k],
                ),
        decreases i,
    {
        if i > 0 {
            self.spans_before_match(tokens, i - 1);
            self.spans_at_match(tokens, i - 1, self.rematch.len() as int);
            let before = self.spans_before(texts(tokens), i - 1);
            let here = self.spans_at(texts(tokens), i - 1, self.rematch.len() as int);
            let v = self.spans_before(texts(tokens), i);
            assert forall|k: int| 0 <= k < v.len() implies self.matching(
                tokens,
                #[trigger] v[k],
            ) by {
                if k < before.len() {
                    assert(v[k] == before[k]);
                } else {
                    assert(v[k] == here[k - before.len()]);
                }
            }
        }
    }

    proof fn replaced_spans_match(self, tokens: Seq<TokenView>)
        ensures
            forall|k: int|
                0 <= k < self.replaced_spans(texts(tokens)).len() ==> self.matching(
                    tokens,
                    #[trigger] self.replaced_spans(texts(tokens))[k],
                ),
    {
        let all = self.spans_before(texts(tokens), texts(tokens).len() as int);
        self.spans_before_match(tokens, tokens.len() as int);
        let r = ranked(all);
        assert forall|k: int| 0 <= k < kept(r).len() implies self.matching(
            tokens,
            #[trigger] kept(r)[k],
        ) by {
            kept_members(r);
            assert(r.contains(kept(r)[k]));
            let j = choose|j: int| 0 <= j < r.len() && r[j] == kept(r)[k];
            ranked_members(all);
            assert(all.contains(r[j]));
            let m = choose|m: int| 0 <= m < all.len() && all[m] == r[j];
            assert(self.matching(tokens, all[m]));
        }
    }

    /// The second pass changes no letter: it only moves the bounds of tokens, as long as
    /// every exception and every sequence spells its key.
    pub proof fn second_pass_keeps_letters(self, tokens: Seq<TokenView>)
        requires
            self.spells(),
            self.rejoins(),
        ensures
            joined(texts(self.rejoined(tokens))) == joined(texts(tokens)),
    {
        let spans = self.replaced_spans(texts(tokens));
        self.replaced_spans_match(tokens);
        self.replaced_keeps(tokens, spans, 0, Seq::empty());
        assert(texts(Seq::<TokenView>::empty()) =~= Seq::<Seq<char>>::empty());
        assert(joined(Seq::<Seq<char>>::empty()) =~= Seq::<char>::empty());
        assert(tokens.skip(0) =~= tokens);
        assert(Seq::<char>::empty() + joined(texts(tokens)) =~= joined(texts(tokens)));
    }

    /// No two spans that the second pass replaces share a token.
    pub proof fn replaced_spans_are_disjoint(self, tokens: Seq<TokenView>, j: int, k: int, p: int)
        requires
            0 <= j < k < self.replaced_spans(texts(tokens)).len(),
        ensures
            ({
                let v = self.replaced_spans(texts(tokens));
                !(v[j].0 <= p < v[j].1 && v[k].0 <= p < v[k].1)
            }),
    {
        let all = self.spans_before(texts(tokens), texts(tokens).len() as int);
        ranked_by_length(all);
        kept_apart(ranked(all), j, k);
    }

    proof fn sequences_spell(self, keys: Seq<Seq<char>>)
        requires
            self.sequences(keys) is Some,
        ensures
            forall|i: int|
                0 <= i < self.sequences(keys).unwrap().len() ==> {
                    let p = #[trigger] self.sequences(keys).unwrap()[i];
                    joined(p.0) == p.1 && p.0.len() >= 2
                },
        decreases keys.len(),
    {
        if keys.len() > 0 {
            self.sequences_spell(keys.drop_last());
            let key = keys.last();
            if self.takes_apart(key) {
                self.spans_are_spelt(key, false);
            }
        }
    }
}

/// Every sequence of a tokenizer made from rules spells its key.
pub proof fn made_tokenizers_rejoin(rules: Rules, t: TokenizerView)
    requires
        tokenizer_of(rules) == Ok::<TokenizerView, RulesError>(t),
    ensures
        t.rejoins(),
{
    bare_tokenizer(rules).sequences_spell(exception_keys(rules.exceptions@));
}

proof fn nonempty_tokens(v: Seq<TokenView>)
    requires
        joined(texts(v)).len() > 0,
    ensures
        v.len() > 0,
{
}

proof fn run_ends(text: Seq<char>, k: int)
    requires
        0 <= k < text.len(),
    ensures
        k < run_end(text, k) <= text.len(),
        run_end(text, k) < text.len() ==> white_space(text[run_end(text, k)]) != white_space(
            text[k],
        ),
    decreases text.len() - k,
{
    if k + 1 < text.len() && white_space(text[k + 1]) == white_space(text[k]) {
        run_ends(text, k + 1);
    }
}

proof fn span_from_member(v: Seq<Span>, i: int, k: int)
    requires
        0 <= k,
    ensures
        span_from(v, i, k) is Some ==> v.contains(span_from(v, i, k).unwrap()) && span_from(
            v,
            i,
            k,
        ).unwrap().0 == i,
    decreases v.len() - k,
{
    if k < v.len() && v[k].0 != i {
        span_from_member(v, i, k + 1);
    }
}

proof fn placed_members(v: Seq<Span>, x: Span)
    ensures
        forall|s: Span| #[trigger] placed(v, x).contains(s) ==> s == x || v.contains(s),
    decreases v.len(),
{
    assert forall|s: Span| #[trigger] placed(v, x).contains(s) implies s == x || v.contains(s) by {
        let r = placed(v, x);
        let j = choose|j: int| 0 <= j < r.len() && r[j] == s;
        if v.len() > 0 && ranks_before(x, v.last()) {
            let t = v.drop_last();
            placed_members(t, x);
            if j < placed(t, x).len() {
                assert(placed(t, x)[j] == s);
                assert(placed(t, x).contains(s));
                if s != x {
                    let m = choose|m: int| 0 <= m < t.len() && t[m] == s;
                    assert(v[m] == s);
                }
            } else {
                assert(v[v.len() - 1] == s);
            }
        } else if j < v.len() {
            assert(v[j] == s);
        }
    }
}

proof fn ranked_members(v: Seq<Span>)
    ensures
        forall|k: int| 0 <= k < ranked(v).len() ==> v.contains(#[trigger] ranked(v)[k]),
    decreases v.len(),
{
    if v.len() > 0 {
        let t = v.drop_last();
        ranked_members(t);
        placed_members(ranked(t), v.last());
        assert forall|k: int| 0 <= k < ranked(v).len() implies v.contains(
            #[trigger] ranked(v)[k],
        ) by {
            let s = ranked(v)[k];
            assert(placed(ranked(t), v.last()).contains(s));
            if s == v.last() {
                assert(v[v.len() - 1] == s);
            } else {
                let j = choose|j: int| 0 <= j < ranked(t).len() && ranked(t)[j] == s;
                assert(t.contains(ranked(t)[j]));
                let m = choose|m: int| 0 <= m < t.len() && t[m] == s;
                assert(v[m] == s);
            }
        }
    }
}

proof fn kept_members(v: Seq<Span>)
    ensures
        forall|k: int| 0 <= k < kept(v).len() ==> v.contains(#[trigger] kept(v)[k]),
        kept(v).len() <= v.len(),
    decreases v.len(),
{
    if v.len() > 0 {
        let t = v.drop_last();
        kept_members(t);
        assert forall|k: int| 0 <= k < kept(v).len() implies v.contains(#[trigger] kept(v)[k]) by {
            if k < kept(t).len() {
                assert(kept(v)[k] == kept(t)[k]);
                let m = choose|m: int| 0 <= m < t.len() && t[m] == kept(t)[k];
                assert(v[m] == t[m]);
            } else {
                assert(v[v.len() - 1] == v.last());
            }
        }
    }
}

/// No span is longer than one ranked before it.
spec fn by_length(v: Seq<Span>) -> bool {
    forall|i: int, j: int|
        0 <= i < j < v.len() ==> (#[trigger] v[i]).1 - v[i].0 >= (#[trigger] v[j]).1 - v[j].0
}

proof fn placed_by_length(v: Seq<Span>, x: Span)
    requires
        by_length(v),
    ensures
        by_length(placed(v, x)),
    decreases v.len(),
{
    if v.len() > 0 && ranks_before(x, v.last()) {
        let t = v.drop_last();
        assert(by_length(t)) by {
            assert forall|i: int, j: int| 0 <= i < j < t.len() implies (#[trigger] t[i]).1 - t[i].0
                >= (#[trigger] t[j]).1 - t[j].0 by {
                assert(t[i] == v[i] && t[j] == v[j]);
            }
        }
        placed_by_length(t, x);
        placed_members(t, x);
        let r = placed(v, x);
        let p = placed(t, x);
        assert forall|i: int, j: int| 0 <= i < j < r.len() implies (#[trigger] r[i]).1 - r[i].0
            >= (#[trigger] r[j]).1 - r[j].0 by {
            if j < p.len() {
                assert(r[i] == p[i] && r[j] == p[j]);
            } else {
                assert(r[i] == p[i] && p.contains(p[i]));
                if p[i] != x {
                    let m = choose|m: int| 0 <= m < t.len() && t[m] == p[i];
                    assert(v[m] == p[i] && v[v.len() - 1] == r[j]);
                }
            }
        }
    } else {
        let r = v.push(x);
        assert forall|i: int, j: int| 0 <= i < j < r.len() implies (#[trigger] r[i]).1 - r[i].0
            >= (#[trigger] r[j]).1 - r[j].0 by {
            if j < v.len() {
                assert(r[i] == v[i] && r[j] == v[j]);
            } else {
                assert(v[i].1 - v[i].0 >= v[v.len() - 1].1 - v[v.len() - 1].0);
            }
        }
    }
}

proof fn ranked_by_length(v: Seq<Span>)
    ensures
        by_length(ranked(v)),
    decreases v.len(),
{
    if v.len() > 0 {
        ranked_by_length(v.drop_last());
        placed_by_length(ranked(v.drop_last()), v.last());
    }
}

proof fn kept_apart(v: Seq<Span>, j: int, k: int)
    requires
        by_length(v),
        0 <= j < k < kept(v).len(),
    ensures
        kept(v)[j].1 <= kept(v)[k].0 || kept(v)[k].1 <= kept(v)[j].0 || kept(v)[j].1
            <= kept(v)[j].0 || kept(v)[k].1 <= kept(v)[k].0,
    decreases v.len(),
{
    let t = v.drop_last();
    assert(by_length(t)) by {
        assert forall|a: int, b: int| 0 <= a < b < t.len() implies (#[trigger] t[a]).1 - t[a].0
            >= (#[trigger] t[b]).1 - t[b].0 by {
            assert(t[a] == v[a] && t[b] == v[b]);
        }
    }
    if k < kept(t).len() {
        kept_apart(t, j, k);
    } else {
        let before = kept(t);
        kept_members(t);
        assert(t.contains(before[j]));
        let m = choose|m: int| 0 <= m < t.len() && t[m] == before[j];
        assert(v[m] == before[j] && v[v.len() - 1] == v.last());
        assert(!(before[j].0 <= v.last().0 < before[j].1));
        assert(!(before[j].0 <= v.last().1 - 1 < before[j].1));
    }
}

} // verus!
