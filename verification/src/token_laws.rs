//! Where a text is cut into tokens, and which exceptions are put back, for every set of rules.

use crate::pattern::{compiled, translated};
use crate::text::natural_number;
use crate::tokenize::{
    inside, kept, numbered, placed, plain_token, ranked, ranks_before, run_end, span_from, stands_at,
    texts, tokenizer_of, with_last_space, Rules, RulesError, Span, TokenView, TokenizerView,
};
use crate::unicode::white_space;
use vstd::prelude::*;

verus! {

/// No character is white space.
pub open spec fn solid(s: Seq<char>) -> bool {
    s.len() > 0 && forall|i: int| 0 <= i < s.len() ==> !white_space(#[trigger] s[i])
}

impl TokenizerView {
    /// An exception is looked up before anything is cut off: it has exactly its own tokens.
    pub proof fn exceptions_come_first(self, s: Seq<char>)
        requires
            s.len() > 0,
            self.specials.contains_key(s),
        ensures
            self.span_tokens(s, true) == Some(self.specials[s]),
    {
    }

    /// A prefix in front of an exception, and a suffix behind one, is a token of its own, and the
    /// exception has its own tokens beside it.
    pub proof fn exceptions_beside_an_affix(self, s: Seq<char>, with_prefix: bool)
        requires
            s.len() > 0,
            !self.specials.contains_key(s),
            with_prefix ==> 0 < self.prefix_len(s) < s.len() && self.specials.contains_key(
                s.skip(self.prefix_len(s)),
            ),
            !with_prefix ==> {
                let p = self.prefix_len(s);
                let n = self.suffix_len(s.skip(p));
                &&& p == 0
                &&& 0 < n < s.len()
                &&& self.specials.contains_key(s.take(s.len() - n))
            },
        ensures
            with_prefix ==> self.span_tokens(s, true) == Some(
                seq![plain_token(s.take(self.prefix_len(s)))] + self.specials[s.skip(
                    self.prefix_len(s),
                )],
            ),
            !with_prefix ==> self.span_tokens(s, true) == Some(
                self.specials[s.take(s.len() - self.suffix_len(s))].push(
                    plain_token(s.skip(s.len() - self.suffix_len(s))),
                ),
            ),
    {
        let p = self.prefix_len(s);
        if with_prefix {
            let y = s.skip(p);
            let first = seq![plain_token(s.take(p))];
            assert(first + self.specials[y] + Seq::<TokenView>::empty() =~= first
                + self.specials[y]);
        } else {
            assert(s.skip(0) =~= s);
            let n = self.suffix_len(s);
            let y = s.take(s.len() - n);
            let last = seq![plain_token(s.skip(s.len() - n))];
            assert(Seq::<TokenView>::empty() + self.specials[y] + last =~= self.specials[y].push(
                plain_token(s.skip(s.len() - n)),
            ));
        }
    }

    /// Where no exceptions count, one prefix and one suffix come off at a time: each is a token of
    /// its own, and what is left is cut in the same way.
    pub proof fn affixes_come_off(self, s: Seq<char>)
        requires
            s.len() > 0,
        ensures
            ({
                let n = s.len() as int;
                let p = self.prefix_len(s);
                let f = self.suffix_len(s.skip(p));
                let r = self.span_tokens(s, false);
                let rest = self.span_tokens(s.subrange(p, n - f), false);
                &&& p == 0 && f == 0 ==> r == self.core_tokens(s, false)
                &&& 0 < p <= n - f && f > 0 && rest is Some ==> r == Some(
                    seq![plain_token(s.take(p))] + rest.unwrap() + seq![
                        plain_token(s.skip(n - f)),
                    ],
                )
                &&& 0 < p <= n && f == 0 && rest is Some ==> r == Some(
                    seq![plain_token(s.take(p))] + rest.unwrap(),
                )
                &&& p == 0 && 0 < f <= n && rest is Some ==> r == Some(
                    rest.unwrap().push(plain_token(s.skip(n - f))),
                )
            }),
    {
        let n = s.len() as int;
        let p = self.prefix_len(s);
        let f = self.suffix_len(s.skip(p));
        let none = Seq::<TokenView>::empty();
        if f == 0 && 0 <= p <= n {
            assert(s.subrange(p, n - f) =~= s.skip(p));
        }
        if p == 0 && 0 <= f <= n {
            assert(s.subrange(p, n - f) =~= s.take(n - f));
        }
        let rest = self.span_tokens(s.subrange(p, n - f), false);
        if rest is Some {
            let v = rest.unwrap();
            let first = seq![plain_token(s.take(p))];
            let last = seq![plain_token(s.skip(n - f))];
            assert(first + v + none =~= first + v);
            assert(none + v + last =~= v.push(plain_token(s.skip(n - f))));
        }
    }

    /// A word that nothing cuts is one token.
    pub proof fn plain_words_are_one_token(self, s: Seq<char>)
        requires
            s.len() > 0,
            !self.specials.contains_key(s),
            self.prefix_len(s) == 0,
            self.suffix_len(s) == 0,
            self.is_url(s) || crate::pattern::all_matches(self.infix, s) == Some(
                Seq::<Option<(nat, nat)>>::empty(),
            ),
        ensures
            self.span_tokens(s, true) == Some(seq![plain_token(s)]),
    {
        assert(s.skip(0) =~= s);
        let none = Seq::<Option<(nat, nat)>>::empty();
        assert(crate::tokenize::found(none) =~= Seq::<(nat, nat)>::empty());
        assert(crate::tokenize::plain_tokens(seq![s]) =~= seq![plain_token(s)]);
    }
}

proof fn run_of(text: Seq<char>, k: int, end: int)
    requires
        0 <= k < end <= text.len(),
        forall|i: int| k <= i < end ==> white_space(#[trigger] text[i]) == white_space(text[k]),
        end < text.len() ==> white_space(text[end]) != white_space(text[k]),
    ensures
        run_end(text, k) == end,
    decreases end - k,
{
    if k + 1 < end {
        assert(white_space(text[k + 1]) == white_space(text[k]));
        assert forall|i: int| k + 1 <= i < end implies white_space(#[trigger] text[i])
            == white_space(text[k + 1]) by {}
        run_of(text, k + 1, end);
    }
}

impl TokenizerView {
    /// A text without white space is one word.
    pub proof fn one_word(self, a: Seq<char>, v: Seq<TokenView>)
        requires
            solid(a),
            self.span_tokens(a, true) == Some(v),
        ensures
            self.first_pass(a, 0, 0, Seq::empty()) == Some(with_last_space(v, ""@)),
    {
        run_of(a, 0, a.len() as int);
        assert(a.skip(0) =~= a);
        assert(Seq::<TokenView>::empty() + v =~= v);
    }

    /// Two words with a single space between them are cut each on its own, and the space goes into
    /// the flag of the last token of the first.
    pub proof fn two_words(
        self,
        a: Seq<char>,
        b: Seq<char>,
        v: Seq<TokenView>,
        w: Seq<TokenView>,
    )
        requires
            solid(a),
            solid(b),
            self.span_tokens(a, true) == Some(v),
            self.span_tokens(b, true) == Some(w),
            w.len() > 0,
        ensures
            self.first_pass(a + seq![' '] + b, 0, 0, Seq::empty()) == Some(
                with_last_space(v, " "@) + with_last_space(w, ""@),
            ),
    {
        let text = a + seq![' '] + b;
        let n = a.len() as int;
        let m = text.len() as int;
        assert(text[n] == ' ' && white_space(' '));
        assert forall|i: int| 0 <= i < n implies white_space(#[trigger] text[i]) == white_space(
            text[0],
        ) by {
            assert(text[i] == a[i] && text[0] == a[0]);
            assert(!white_space(a[i]) && !white_space(a[0]));
        }
        assert(text[0] == a[0] && !white_space(a[0]));
        run_of(text, 0, n);
        assert(text[n + 1] == b[0] && !white_space(b[0]));
        run_of(text, n, n + 1);
        assert forall|i: int| n + 1 <= i < m implies white_space(#[trigger] text[i]) == white_space(
            text[n + 1],
        ) by {
            assert(text[i] == b[i - n - 1]);
            assert(!white_space(b[i - n - 1]));
        }
        run_of(text, n + 1, m);
        let none = Seq::<TokenView>::empty();
        assert(text.subrange(0, n) =~= a);
        assert(none + v + none =~= v);
        let marked = with_last_space(v, " "@);
        assert(text.skip(n + 1) =~= b);
        assert(self.first_pass(text, n + 1, n + 1, marked) == Some(
            with_last_space(marked + w, ""@),
        ));
        assert(self.first_pass(text, n, n + 1, marked) == self.first_pass(
            text,
            n + 1,
            n + 1,
            marked,
        ));
        assert(with_last_space(marked + w, ""@) =~= marked + with_last_space(w, ""@));
    }

    /// Of two spaces between words the first goes into the flag and the second is cut on its own.
    pub proof fn two_words_apart(
        self,
        a: Seq<char>,
        b: Seq<char>,
        v: Seq<TokenView>,
        gap: Seq<TokenView>,
        w: Seq<TokenView>,
    )
        requires
            solid(a),
            solid(b),
            self.span_tokens(a, true) == Some(v),
            self.span_tokens(seq![' '], true) == Some(gap),
            self.span_tokens(b, true) == Some(w),
            w.len() > 0,
        ensures
            self.first_pass(a + seq![' ', ' '] + b, 0, 0, Seq::empty()) == Some(
                with_last_space(v, " "@) + gap + with_last_space(w, ""@),
            ),
    {
        let text = a + seq![' ', ' '] + b;
        let n = a.len() as int;
        let m = text.len() as int;
        assert(text[n] == ' ' && text[n + 1] == ' ' && white_space(' '));
        assert forall|i: int| 0 <= i < n implies white_space(#[trigger] text[i]) == white_space(
            text[0],
        ) by {
            assert(text[i] == a[i] && text[0] == a[0]);
            assert(!white_space(a[i]) && !white_space(a[0]));
        }
        assert(text[0] == a[0] && !white_space(a[0]));
        run_of(text, 0, n);
        assert(text[n + 2] == b[0] && !white_space(b[0]));
        run_of(text, n, n + 2);
        assert forall|i: int| n + 2 <= i < m implies white_space(#[trigger] text[i]) == white_space(
            text[n + 2],
        ) by {
            assert(text[i] == b[i - n - 2]);
            assert(!white_space(b[i - n - 2]));
        }
        run_of(text, n + 2, m);
        let none = Seq::<TokenView>::empty();
        assert(text.subrange(0, n) =~= a);
        assert(none + v + none =~= v);
        let marked = with_last_space(v, " "@);
        assert(text.subrange(n + 1, n + 2) =~= seq![' ']);
        assert(marked + gap + none =~= marked + gap);
        assert(text[n + 2] != ' ');
        assert(text.skip(n + 2) =~= b);
        assert(self.first_pass(text, n + 2, n + 2, marked + gap) == Some(
            with_last_space(marked + gap + w, ""@),
        ));
        assert(self.first_pass(text, n, n + 1, marked) == self.first_pass(
            text,
            n + 2,
            n + 2,
            marked + gap,
        ));
        assert(with_last_space(marked + gap + w, ""@) =~= marked + gap + with_last_space(w, ""@));
    }

    proof fn spans_at_complete(self, all: Seq<Seq<char>>, i: int, n: int, r: int)
        requires
            0 <= r < n <= self.rematch.len(),
            stands_at(all, i, self.rematch[r].0),
        ensures
            self.spans_at(all, i, n).contains((i, i + self.rematch[r].0.len() as int, r)),
        decreases n,
    {
        let s = (i, i + self.rematch[r].0.len() as int, r);
        let v = self.spans_at(all, i, n);
        if r == n - 1 {
            assert(v[v.len() - 1] == s);
        } else {
            self.spans_at_complete(all, i, n - 1, r);
            let u = self.spans_at(all, i, n - 1);
            let k = choose|k: int| 0 <= k < u.len() && u[k] == s;
            assert(v[k] == s);
        }
    }

    proof fn spans_before_complete(self, all: Seq<Seq<char>>, n: int, i: int, r: int)
        requires
            0 <= i < n,
            0 <= r < self.rematch.len(),
            stands_at(all, i, self.rematch[r].0),
        ensures
            self.spans_before(all, n).contains((i, i + self.rematch[r].0.len() as int, r)),
        decreases n,
    {
        let s = (i, i + self.rematch[r].0.len() as int, r);
        let a = self.spans_before(all, n - 1);
        let b = self.spans_at(all, n - 1, self.rematch.len() as int);
        if i == n - 1 {
            self.spans_at_complete(all, i, self.rematch.len() as int, r);
            let k = choose|k: int| 0 <= k < b.len() && b[k] == s;
            assert((a + b)[a.len() + k] == s);
        } else {
            self.spans_before_complete(all, n - 1, i, r);
            let k = choose|k: int| 0 <= k < a.len() && a[k] == s;
            assert((a + b)[k] == s);
        }
    }

    /// Every place where the texts of an exception stand one after the other is put back together,
    /// unless an end of it lies inside another such place that is longer, or as long and further left.
    pub proof fn the_longest_exception_wins(self, all: Seq<Seq<char>>, i: int, r: int)
        requires
            0 <= i < all.len(),
            0 <= r < self.rematch.len(),
            stands_at(all, i, self.rematch[r].0),
            self.rematch[r].0.len() > 0,
        ensures
            ({
                let s = (i, i + self.rematch[r].0.len() as int, r);
                let v = self.replaced_spans(all);
                ||| v.contains(s)
                ||| exists|k: int|
                    0 <= k < v.len() && outranks(#[trigger] v[k], s) && (v[k].0 <= s.0 < v[k].1
                        || v[k].0 <= s.1 - 1 < v[k].1)
            }),
    {
        let s = (i, i + self.rematch[r].0.len() as int, r);
        let found = self.spans_before(all, all.len() as int);
        self.spans_before_complete(all, all.len() as int, i, r);
        let v = ranked(found);
        ranked_keeps(found, s);
        let m = choose|m: int| 0 <= m < v.len() && v[m] == s;
        ranked_in_order(found);
        dropped_for_a_longer(v, m);
    }
}

proof fn placed_keeps(v: Seq<Span>, x: Span, s: Span)
    requires
        s == x || v.contains(s),
    ensures
        placed(v, x).contains(s),
    decreases v.len(),
{
    let r = placed(v, x);
    if v.len() > 0 && ranks_before(x, v.last()) {
        let t = v.drop_last();
        let p = placed(t, x);
        if s != x && !t.contains(s) {
            let k = choose|k: int| 0 <= k < v.len() && v[k] == s;
            if k < t.len() {
                assert(t[k] == s);
            }
            assert(r[r.len() - 1] == s);
        } else {
            placed_keeps(t, x, s);
            let k = choose|k: int| 0 <= k < p.len() && p[k] == s;
            assert(r[k] == s);
        }
    } else if s == x {
        assert(r[v.len() as int] == x);
    } else {
        let k = choose|k: int| 0 <= k < v.len() && v[k] == s;
        assert(r[k] == s);
    }
}

proof fn ranked_keeps(v: Seq<Span>, s: Span)
    requires
        v.contains(s),
    ensures
        ranked(v).contains(s),
    decreases v.len(),
{
    let t = v.drop_last();
    if s != v.last() {
        let k = choose|k: int| 0 <= k < v.len() && v[k] == s;
        assert(t[k] == s);
        ranked_keeps(t, s);
    }
    placed_keeps(ranked(t), v.last(), s);
}

/// Whether one span is longer than another, or as long and no further right.
pub open spec fn outranks(x: Span, y: Span) -> bool {
    x.1 - x.0 > y.1 - y.0 || (x.1 - x.0 == y.1 - y.0 && x.0 <= y.0)
}

/// Every span outranks those behind it.
spec fn falling(v: Seq<Span>) -> bool {
    forall|i: int, j: int| 0 <= i < j < v.len() ==> outranks(#[trigger] v[i], #[trigger] v[j])
}

proof fn placed_from(v: Seq<Span>, x: Span, k: int)
    requires
        0 <= k < placed(v, x).len(),
    ensures
        placed(v, x)[k] == x || v.contains(placed(v, x)[k]),
    decreases v.len(),
{
    let r = placed(v, x);
    if v.len() > 0 && ranks_before(x, v.last()) {
        let t = v.drop_last();
        if k < placed(t, x).len() {
            placed_from(t, x, k);
            if r[k] != x {
                let m = choose|m: int| 0 <= m < t.len() && t[m] == r[k];
                assert(v[m] == r[k]);
            }
        } else {
            assert(v[v.len() - 1] == r[k]);
        }
    } else if k < v.len() {
        assert(v[k] == r[k]);
    }
}

proof fn placed_in_order(v: Seq<Span>, x: Span)
    requires
        falling(v),
    ensures
        falling(placed(v, x)),
    decreases v.len(),
{
    let r = placed(v, x);
    if v.len() > 0 && ranks_before(x, v.last()) {
        let t = v.drop_last();
        assert(falling(t)) by {
            assert forall|i: int, j: int| 0 <= i < j < t.len() implies outranks(
                #[trigger] t[i],
                #[trigger] t[j],
            ) by {
                assert(t[i] == v[i] && t[j] == v[j]);
            }
        }
        placed_in_order(t, x);
        let p = placed(t, x);
        assert forall|i: int, j: int| 0 <= i < j < r.len() implies outranks(
            #[trigger] r[i],
            #[trigger] r[j],
        ) by {
            if j < p.len() {
                assert(r[i] == p[i] && r[j] == p[j]);
            } else {
                placed_from(t, x, i);
                if p[i] != x {
                    let m = choose|m: int| 0 <= m < t.len() && t[m] == p[i];
                    assert(v[m] == p[i] && v[v.len() - 1] == r[j]);
                }
            }
        }
    } else {
        assert forall|i: int, j: int| 0 <= i < j < r.len() implies outranks(
            #[trigger] r[i],
            #[trigger] r[j],
        ) by {
            if j < v.len() {
                assert(r[i] == v[i] && r[j] == v[j]);
            } else {
                assert(i < v.len() - 1 ==> outranks(v[i], v[v.len() - 1]));
            }
        }
    }
}

proof fn ranked_in_order(v: Seq<Span>)
    ensures
        falling(ranked(v)),
    decreases v.len(),
{
    if v.len() > 0 {
        ranked_in_order(v.drop_last());
        placed_in_order(ranked(v.drop_last()), v.last());
    }
}

proof fn kept_from(v: Seq<Span>, k: int)
    requires
        0 <= k < kept(v).len(),
    ensures
        v.contains(kept(v)[k]),
    decreases v.len(),
{
    let t = v.drop_last();
    if k < kept(t).len() {
        kept_from(t, k);
        let m = choose|m: int| 0 <= m < t.len() && t[m] == kept(t)[k];
        assert(v[m] == kept(v)[k]);
    } else {
        assert(v[v.len() - 1] == v.last());
    }
}

proof fn dropped_for_a_longer(v: Seq<Span>, m: int)
    requires
        falling(v),
        0 <= m < v.len(),
    ensures
        ({
            let s = v[m];
            let w = kept(v);
            ||| w.contains(s)
            ||| exists|k: int|
                0 <= k < w.len() && outranks(#[trigger] w[k], s) && (w[k].0 <= s.0 < w[k].1
                    || w[k].0 <= s.1 - 1 < w[k].1)
        }),
    decreases v.len(),
{
    let s = v[m];
    let t = v.drop_last();
    let before = kept(t);
    let w = kept(v);
    if m < t.len() {
        assert(falling(t)) by {
            assert forall|i: int, j: int| 0 <= i < j < t.len() implies outranks(
                #[trigger] t[i],
                #[trigger] t[j],
            ) by {
                assert(t[i] == v[i] && t[j] == v[j]);
            }
        }
        assert(t[m] == s);
        dropped_for_a_longer(t, m);
        if before.contains(s) {
            let k = choose|k: int| 0 <= k < before.len() && before[k] == s;
            assert(w[k] == s);
        } else {
            let k = choose|k: int|
                0 <= k < before.len() && outranks(#[trigger] before[k], s) && (before[k].0 <= s.0
                    < before[k].1 || before[k].0 <= s.1 - 1 < before[k].1);
            assert(w[k] == before[k]);
        }
    } else if inside(before, s.0) || inside(before, s.1 - 1) {
        let p = if inside(before, s.0) {
            s.0
        } else {
            s.1 - 1
        };
        let k = choose|k: int| 0 <= k < before.len() && (#[trigger] before[k]).0 <= p < before[k].1;
        kept_from(t, k);
        let q = choose|q: int| 0 <= q < t.len() && t[q] == before[k];
        assert(v[q] == before[k]);
        assert(outranks(v[q], v[m]));
        assert(w[k] == before[k]);
    } else {
        assert(w[w.len() - 1] == s);
    }
}

impl TokenizerView {
    proof fn copied(
        self,
        tokens: Seq<TokenView>,
        spans: Seq<Span>,
        i: int,
        end: int,
        out: Seq<TokenView>,
    )
        requires
            0 <= i <= end <= tokens.len(),
            forall|k: int| 0 <= k < spans.len() ==> !(i <= (#[trigger] spans[k]).0 < end),
        ensures
            self.replaced(tokens, spans, i, out) == self.replaced(
                tokens,
                spans,
                end,
                out + tokens.subrange(i, end),
            ),
        decreases end - i,
    {
        if i < end {
            no_span_begins(spans, i, 0);
            self.copied(tokens, spans, i + 1, end, out.push(tokens[i]));
            assert(out.push(tokens[i]) + tokens.subrange(i + 1, end) =~= out + tokens.subrange(
                i,
                end,
            ));
        } else {
            assert(out + tokens.subrange(i, end) =~= out);
        }
    }

    /// A place that is put back together gives way to the tokens of its exception, the last of them
    /// with the white space that stood behind the place; every other token stays as it is.
    pub proof fn a_place_is_put_back(self, tokens: Seq<TokenView>, s: Span)
        requires
            0 <= s.0 < s.1 <= tokens.len(),
            0 <= s.2 < self.rematch.len(),
            self.specials.contains_key(self.rematch[s.2].1),
            self.specials[self.rematch[s.2].1].len() > 0,
        ensures
            self.replaced(tokens, seq![s], 0, Seq::empty()) == tokens.take(s.0) + with_last_space(
                self.specials[self.rematch[s.2].1],
                tokens[s.1 - 1].whitespace,
            ) + tokens.skip(s.1),
    {
        let spans = seq![s];
        let none = Seq::<TokenView>::empty();
        let v = self.specials[self.rematch[s.2].1];
        let w = tokens[s.1 - 1].whitespace;
        self.copied(tokens, spans, 0, s.0, none);
        let head = none + tokens.subrange(0, s.0);
        assert(head =~= tokens.take(s.0));
        assert(span_from(spans, s.0, 0) == Some(s));
        let mid = with_last_space(head + v, w);
        assert(mid =~= head + with_last_space(v, w));
        self.copied(tokens, spans, s.1, tokens.len() as int, mid);
        assert(tokens.subrange(s.1, tokens.len() as int) =~= tokens.skip(s.1));
    }

    /// Where nothing is put back, every token stays as it is.
    pub proof fn nothing_is_put_back(self, tokens: Seq<TokenView>)
        ensures
            self.replaced(tokens, Seq::empty(), 0, Seq::empty()) == tokens,
    {
        let none = Seq::<TokenView>::empty();
        self.copied(tokens, Seq::empty(), 0, tokens.len() as int, none);
        assert(none + tokens.subrange(0, tokens.len() as int) =~= tokens);
    }
}

proof fn no_span_begins(spans: Seq<Span>, i: int, k: int)
    requires
        0 <= k,
        forall|m: int| 0 <= m < spans.len() ==> (#[trigger] spans[m]).0 != i,
    ensures
        span_from(spans, i, k) is None,
    decreases spans.len() - k,
{
    if k < spans.len() {
        assert(spans[k].0 != i);
        no_span_begins(spans, i, k + 1);
    }
}

/// The tokens of an exception have its texts and normal forms, one by one, and no white space.
pub proof fn exceptions_have_tokens(v: Seq<crate::tokenize::Special>, i: int)
    requires
        0 <= i < v.len(),
    ensures
        ({
            let r = crate::tokenize::special_tokens(v);
            &&& r.len() == v.len()
            &&& r[i].text == v[i].orth@
            &&& r[i].whitespace.len() == 0
            &&& v[i].norm is Some ==> r[i].norm == Some(v[i].norm.unwrap()@)
            &&& v[i].norm is None ==> r[i].norm is None
        }),
{
    reveal_strlit("");
}

/// Of two exceptions with one key the last counts.
pub proof fn the_last_exception_counts(
    v: Seq<(String, Vec<crate::tokenize::Special>)>,
    i: int,
)
    requires
        0 <= i < v.len(),
        forall|j: int| i < j < v.len() ==> (#[trigger] v[j]).0@ != v[i].0@,
    ensures
        crate::tokenize::exception_map(v).contains_key(v[i].0@),
        crate::tokenize::exception_map(v)[v[i].0@] == crate::tokenize::special_tokens(v[i].1@),
    decreases v.len(),
{
    if i < v.len() - 1 {
        let t = v.drop_last();
        assert(t[i] == v[i]);
        assert forall|j: int| i < j < t.len() implies (#[trigger] t[j]).0@ != t[i].0@ by {
            assert(t[j] == v[j]);
        }
        the_last_exception_counts(t, i);
        assert(v[v.len() - 1].0@ != v[i].0@);
    }
}

impl TokenizerView {
    /// The second pass looks for an exception exactly where affix splitting takes it apart into two or
    /// more texts: a prefix, a suffix, an infix or a space in it is enough to try.
    pub proof fn exceptions_that_are_taken_apart(self, keys: Seq<Seq<char>>, i: int)
        requires
            self.sequences(keys) is Some,
            0 <= i < keys.len(),
            self.prefix_len(keys[i]) != 0 || self.suffix_len(keys[i]) != 0 || keys[i].contains(' ')
                || (crate::pattern::first_match(self.infix, keys[i]) matches Some(Some(_))),
            self.span_tokens(keys[i], false) is Some,
            self.span_tokens(keys[i], false).unwrap().len() >= 2,
        ensures
            self.sequences(keys).unwrap().contains(
                (texts(self.span_tokens(keys[i], false).unwrap()), keys[i]),
            ),
        decreases keys.len(),
    {
        let s = (texts(self.span_tokens(keys[i], false).unwrap()), keys[i]);
        let t = keys.drop_last();
        let r = self.sequences(keys).unwrap();
        if i < t.len() {
            assert(t[i] == keys[i]);
            self.exceptions_that_are_taken_apart(t, i);
            let before = self.sequences(t).unwrap();
            let k = choose|k: int| 0 <= k < before.len() && before[k] == s;
            assert(r[k] == s);
        } else {
            assert(r[r.len() - 1] == s);
        }
    }

    /// An exception that nothing takes apart is not looked for again.
    pub proof fn exceptions_that_stay_whole(self, keys: Seq<Seq<char>>, i: int)
        requires
            self.sequences(keys) is Some,
            0 <= i < self.sequences(keys).unwrap().len(),
        ensures
            ({
                let p = self.sequences(keys).unwrap()[i];
                &&& keys.contains(p.1)
                &&& self.takes_apart(p.1)
                &&& self.span_tokens(p.1, false) is Some
                &&& p.0 == texts(self.span_tokens(p.1, false).unwrap())
                &&& p.0.len() >= 2
            }),
        decreases keys.len(),
    {
        let t = keys.drop_last();
        let before = self.sequences(t).unwrap();
        let r = self.sequences(keys).unwrap();
        if i < before.len() {
            self.exceptions_that_stay_whole(t, i);
            assert(r[i] == before[i]);
            let k = choose|k: int| 0 <= k < t.len() && t[k] == before[i].1;
            assert(keys[k] == r[i].1);
        } else {
            assert(keys[keys.len() - 1] == r[i].1);
        }
    }
}

impl TokenizerView {
    /// A prefix reaches from the start of the text to the end of what its pattern finds first, a suffix
    /// from where its pattern finds something first to the end; a text in which nothing is found, or
    /// the search gave up, has none.
    pub proof fn affixes_are_what_is_found(self, s: Seq<char>, a: nat, b: nat)
        ensures
            crate::pattern::first_match(self.prefix, s) == Some(Some((a, b))) && b <= s.len()
                ==> self.prefix_len(s) == b,
            crate::pattern::first_match(self.suffix, s) == Some(Some((a, b))) && a <= s.len()
                ==> self.suffix_len(s) == s.len() - a,
            !(crate::pattern::first_match(self.prefix, s) matches Some(Some(_))) ==> self.prefix_len(
                s,
            ) == 0,
            !(crate::pattern::first_match(self.suffix, s) matches Some(Some(_))) ==> self.suffix_len(
                s,
            ) == 0,
    {
    }

    /// A word that its pattern knows for an address stays whole, and no infix cuts it.
    pub proof fn addresses_stay_whole(self, s: Seq<char>, re: fancy_regex::Regex)
        requires
            s.len() > 0,
            !self.specials.contains_key(s),
            self.prefix_len(s) == 0,
            self.suffix_len(s) == 0,
            self.url == Some(re),
            crate::pattern::is_matched(re, s) == Some(true),
        ensures
            self.span_tokens(s, true) == Some(seq![plain_token(s)]),
    {
        assert(s.skip(0) =~= s);
    }
}

/// A code point of four digits to the base 16 is written in braces, and what stands before and
/// behind it is written as if it stood alone.
pub proof fn code_points_are_put_in_braces(a: Seq<char>, d: Seq<char>, b: Seq<char>)
    requires
        forall|i: int| 0 <= i < a.len() ==> #[trigger] a[i] != '\\',
        d.len() == 4,
        forall|i: int|
            0 <= i < 4 ==> ('0' <= #[trigger] d[i] <= '9' || 'a' <= d[i] <= 'f' || 'A' <= d[i] <= 'F'),
    ensures
        translated(a + seq!['\\', 'u'] + d + b) == a + seq!['\\', 'x', '{'] + d + seq!['}']
            + translated(b),
    decreases a.len(),
{
    let p = a + seq!['\\', 'u'] + d + b;
    if a.len() == 0 {
        assert(d[0] == p[2] && d[1] == p[3] && d[2] == p[4] && d[3] == p[5]);
        assert(p[0] == '\\' && p[1] == 'u');
        assert(p.subrange(2, 6) =~= d);
        assert(p.skip(6) =~= b);
        reveal_strlit("\\x{");
        reveal_strlit("}");
        assert("\\x{"@ =~= seq!['\\', 'x', '{']);
        assert("}"@ =~= seq!['}']);
        assert(translated(p) =~= a + seq!['\\', 'x', '{'] + d + seq!['}'] + translated(b));
    } else {
        let rest = a.skip(1);
        assert(p[0] == a[0]);
        assert forall|i: int| 0 <= i < rest.len() implies #[trigger] rest[i] != '\\' by {
            assert(rest[i] == a[i + 1]);
        }
        code_points_are_put_in_braces(rest, d, b);
        assert(p.skip(1) =~= rest + seq!['\\', 'u'] + d + b);
        assert(translated(p) =~= a + seq!['\\', 'x', '{'] + d + seq!['}'] + translated(b));
    }
}

/// A backslash that no code point follows stays as it is.
pub proof fn other_backslashes_stay(c: char, b: Seq<char>)
    requires
        c != 'u',
    ensures
        translated(seq!['\\', c] + b) == seq!['\\'] + translated(seq![c] + b),
{
    let p = seq!['\\', c] + b;
    assert(p[0] == '\\' && p[1] == c);
    assert(p.skip(1) =~= seq![c] + b);
}

/// The keys of the second list of normal forms are numbers, each of which keeps its form and its
/// place.
pub proof fn norm_keys_are_numbers(v: Seq<(String, String)>, n: int)
    requires
        0 <= n < v.len(),
    ensures
        numbered(v) matches Some(w) ==> w.len() == v.len() && Some(w[n].0) == natural_number(
            v[n].0@,
        ) && w[n].1 == v[n].1,
        natural_number(v[n].0@) is None ==> numbered(v) is None,
    decreases v.len(),
{
    if n < v.len() - 1 {
        norm_keys_are_numbers(v.drop_last(), n);
    }
    numbered_keeps_count(v);
    numbered_keeps_count(v.drop_last());
}

proof fn numbered_keeps_count(v: Seq<(String, String)>)
    ensures
        numbered(v) matches Some(w) ==> w.len() == v.len(),
    decreases v.len(),
{
    if v.len() > 0 {
        numbered_keeps_count(v.drop_last());
    }
}

/// Each pattern of a set of rules goes where its name says, and the first one that cannot be
/// compiled is the one that is named.
pub proof fn rules_go_where_their_name_says(rules: Rules)
    ensures
        ({
            let prefix = compiled(translated(rules.prefix_search@));
            let suffix = compiled(translated(rules.suffix_search@));
            let infix = compiled(translated(rules.infix_finditer@));
            &&& prefix is None ==> tokenizer_of(rules) == Err::<TokenizerView, RulesError>(
                RulesError::Prefix,
            )
            &&& prefix is Some && suffix is None ==> tokenizer_of(rules) == Err::<
                TokenizerView,
                RulesError,
            >(RulesError::Suffix)
            &&& prefix is Some && suffix is Some && infix is None ==> tokenizer_of(rules) == Err::<
                TokenizerView,
                RulesError,
            >(RulesError::Infix)
            &&& tokenizer_of(rules) matches Ok(t) ==> Some(t.prefix) == prefix && Some(t.suffix)
                == suffix && Some(t.infix) == infix && (t.url is Some <==> rules.url_match is Some)
            &&& tokenizer_of(rules) matches Ok(t) ==> rules.url_match matches Some(u) ==> t.url
                == compiled(translated(u@))
        }),
{
}

} // verus!
