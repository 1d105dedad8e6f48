//! What several tokens have in common once they are one.

use crate::mtoken::{
    all_flags, capital_count, last_currency, merged, most_capitals, shared_rating, spanned, spoken,
    stresses, text_before, with_flag, with_flags, MTokenView,
};
use crate::unicode::white_space;
use vstd::prelude::*;

verus! {

proof fn capitals_are_most(v: Seq<MTokenView>)
    requires
        v.len() > 0,
    ensures
        0 <= most_capitals(v) < v.len(),
        forall|i: int|
            0 <= i < v.len() ==> capital_count((#[trigger] v[i]).text) <= capital_count(
                v[most_capitals(v)].text,
            ),
        forall|i: int|
            0 <= i < most_capitals(v) ==> capital_count((#[trigger] v[i]).text) < capital_count(
                v[most_capitals(v)].text,
            ),
    decreases v.len(),
{
    if v.len() > 1 {
        let t = v.drop_last();
        capitals_are_most(t);
        let best = most_capitals(t);
        assert(t[best] == v[best]);
        assert forall|i: int| 0 <= i < v.len() implies capital_count((#[trigger] v[i]).text)
            <= capital_count(v[most_capitals(v)].text) by {
            if i < t.len() {
                assert(t[i] == v[i]);
            }
        }
        assert forall|i: int| 0 <= i < most_capitals(v) implies capital_count(
            (#[trigger] v[i]).text,
        ) < capital_count(v[most_capitals(v)].text) by {
            assert(t[i] == v[i]);
        }
    }
}

/// The tag of a merged token is that of the part with the most capital letters, the first of
/// equals.
pub proof fn tags_go_by_capitals(v: Seq<MTokenView>, unk: Option<Seq<char>>)
    requires
        v.len() > 0,
    ensures
        exists|k: int|
            0 <= k < v.len() && merged(v, unk).tag == (#[trigger] v[k]).tag && (forall|i: int|
                0 <= i < v.len() ==> capital_count((#[trigger] v[i]).text) <= capital_count(
                    v[k].text,
                )) && (forall|i: int|
                0 <= i < k ==> capital_count((#[trigger] v[i]).text) < capital_count(v[k].text)),
{
    reveal(merged);
    capitals_are_most(v);
    let k = most_capitals(v);
    assert(merged(v, unk).tag == v[k].tag);
}

/// A merged token takes its place from its ends: whether it heads a word and wants a space before
/// it from the first part, the white space behind it from the last. It has no alias.
pub proof fn ends_give_the_place(v: Seq<MTokenView>, unk: Option<Seq<char>>)
    requires
        v.len() > 0,
    ensures
        merged(v, unk).is_head == v[0].is_head,
        merged(v, unk).prespace == v[0].prespace,
        merged(v, unk).whitespace == v.last().whitespace,
        merged(v, unk).alias is None,
        merged(v, None).phonemes is None,
{
    reveal(merged);
}

/// The text of a merged token is that of its parts with the white space between them, but not
/// behind the last.
pub proof fn texts_are_joined(a: Seq<MTokenView>, b: Seq<MTokenView>, t: MTokenView)
    requires
        a.len() > 0,
        b.len() > 0,
    ensures
        merged(a + b, None).text == merged(a, None).text + a.last().whitespace + merged(b, None).text,
        merged(seq![t], None).text == t.text,
    decreases b.len(),
{
    reveal(merged);
    if b.len() == 1 {
        let v = a + b;
        assert(v.drop_last() =~= a);
        assert(v.last() == b[0]);
        assert(v[v.len() - 2] == a.last());
        assert(spanned(b) == b[0].text);
        assert(spanned(v) =~= spanned(a) + a.last().whitespace + spanned(b));
    } else {
        let c = b.drop_last();
        texts_are_joined(a, c, t);
        let v = a + b;
        assert(v.drop_last() =~= a + c);
        assert(v.last() == b.last());
        assert(v[v.len() - 2] == c.last());
        assert(b[b.len() - 2] == c.last());
        assert(spanned(v) =~= spanned(a) + a.last().whitespace + spanned(b));
    }
}

proof fn rating_is_shared(v: Seq<MTokenView>)
    requires
        v.len() > 0,
    ensures
        shared_rating(v) is Some <==> forall|i: int|
            0 <= i < v.len() ==> (#[trigger] v[i]).rating is Some,
        shared_rating(v) is Some ==> exists|i: int|
            0 <= i < v.len() && (#[trigger] v[i]).rating == shared_rating(v),
        shared_rating(v) is Some ==> forall|i: int|
            0 <= i < v.len() ==> shared_rating(v).unwrap() <= (#[trigger] v[i]).rating.unwrap(),
    decreases v.len(),
{
    if v.len() == 1 {
        assert(v[0].rating == shared_rating(v));
    } else {
        let t = v.drop_last();
        rating_is_shared(t);
        assert(forall|i: int| 0 <= i < t.len() ==> #[trigger] t[i] == v[i]);
        if shared_rating(v) is Some {
            let k = choose|i: int| 0 <= i < t.len() && (#[trigger] t[i]).rating == shared_rating(t);
            assert(v[k].rating == shared_rating(t));
            assert(v[v.len() - 1] == v.last());
            assert forall|i: int| 0 <= i < v.len() implies (#[trigger] v[i]).rating is Some
                && shared_rating(v).unwrap() <= v[i].rating.unwrap() by {
                if i < t.len() {
                    assert(t[i] == v[i]);
                }
            }
        } else {
            if forall|i: int| 0 <= i < v.len() ==> (#[trigger] v[i]).rating is Some {
                assert forall|i: int| 0 <= i < t.len() implies (#[trigger] t[i]).rating is Some by {
                    assert(t[i] == v[i]);
                }
                assert(v[v.len() - 1].rating is Some);
            }
        }
    }
}

/// A merged token is rated as the worst of its parts, and not at all where one part is not rated.
pub proof fn the_worst_rating_counts(v: Seq<MTokenView>, unk: Option<Seq<char>>, k: int)
    requires
        0 <= k < v.len(),
    ensures
        v[k].rating is None ==> merged(v, unk).rating is None,
        merged(v, unk).rating is Some ==> merged(v, unk).rating.unwrap() <= v[k].rating.unwrap(),
        (forall|i: int| 0 <= i < v.len() ==> (#[trigger] v[i]).rating is Some) ==> exists|i: int|
            0 <= i < v.len() && (#[trigger] v[i]).rating == merged(v, unk).rating,
{
    reveal(merged);
    rating_is_shared(v);
}

proof fn stresses_are(v: Seq<MTokenView>, h: i32)
    ensures
        stresses(v).contains(h) <==> exists|i: int|
            0 <= i < v.len() && (#[trigger] v[i]).stress == Some(h),
        forall|i: int, j: int|
            0 <= i < j < stresses(v).len() ==> #[trigger] stresses(v)[i] != #[trigger] stresses(v)[j],
    decreases v.len(),
{
    if v.len() > 0 {
        let t = v.drop_last();
        stresses_are(t, h);
        let s = stresses(t);
        let r = stresses(v);
        assert(forall|i: int| 0 <= i < t.len() ==> #[trigger] t[i] == v[i]);
        if r.contains(h) {
            if s.contains(h) {
                let i = choose|i: int| 0 <= i < t.len() && (#[trigger] t[i]).stress == Some(h);
                assert(v[i].stress == Some(h));
            } else {
                let k = choose|k: int| 0 <= k < r.len() && r[k] == h;
                assert(k == s.len());
                assert(v[v.len() - 1].stress == Some(h));
            }
        }
        if exists|i: int| 0 <= i < v.len() && (#[trigger] v[i]).stress == Some(h) {
            let i = choose|i: int| 0 <= i < v.len() && (#[trigger] v[i]).stress == Some(h);
            if i < t.len() {
                assert(t[i].stress == Some(h));
                let k = choose|k: int| 0 <= k < s.len() && s[k] == h;
                assert(r[k] == h);
            } else if !s.contains(h) {
                assert(r[s.len() as int] == h);
            }
        }
        assert forall|i: int, j: int| 0 <= i < j < r.len() implies #[trigger] r[i] != #[trigger] r[j] by {
            if j == s.len() {
                assert(s.contains(s[i]));
            }
        }
    }
}

/// A merged token has a stress exactly where its parts name one stress and no other.
pub proof fn one_stress_is_kept(v: Seq<MTokenView>, unk: Option<Seq<char>>, h: i32, k: int)
    requires
        0 <= k < v.len(),
        v[k].stress == Some(h),
    ensures
        (forall|i: int|
            0 <= i < v.len() ==> (#[trigger] v[i]).stress is None || v[i].stress == Some(h))
            ==> merged(v, unk).stress == Some(h),
        (exists|i: int|
            0 <= i < v.len() && (#[trigger] v[i]).stress is Some && v[i].stress != Some(h))
            ==> merged(v, unk).stress is None,
{
    reveal(merged);
    stresses_are(v, h);
    let s = stresses(v);
    assert(s.contains(h));
    let a = choose|a: int| 0 <= a < s.len() && s[a] == h;
    if forall|i: int|
        0 <= i < v.len() ==> (#[trigger] v[i]).stress is None || v[i].stress == Some(h) {
        if s.len() > 1 {
            let b: int = if a == 0 {
                1
            } else {
                0
            };
            stresses_are(v, s[b]);
            assert(s.contains(s[b]));
            let i = choose|i: int| 0 <= i < v.len() && (#[trigger] v[i]).stress == Some(s[b]);
            assert(s[b] == h);
        }
    }
    if exists|i: int|
        0 <= i < v.len() && (#[trigger] v[i]).stress is Some && v[i].stress != Some(h) {
        let i = choose|i: int|
            0 <= i < v.len() && (#[trigger] v[i]).stress is Some && v[i].stress != Some(h);
        let g = v[i].stress.unwrap();
        stresses_are(v, g);
        let b = choose|b: int| 0 <= b < s.len() && s[b] == g;
        assert(a != b);
    }
}

/// Where no part names a stress, the merged token has none.
pub proof fn no_stress_is_made_up(v: Seq<MTokenView>, unk: Option<Seq<char>>)
    requires
        forall|i: int| 0 <= i < v.len() ==> (#[trigger] v[i]).stress is None,
    ensures
        merged(v, unk).stress is None,
{
    reveal(merged);
    if stresses(v).len() == 1 {
        let h = stresses(v)[0];
        stresses_are(v, h);
        assert(stresses(v).contains(h));
        let i = choose|i: int| 0 <= i < v.len() && (#[trigger] v[i]).stress == Some(h);
    }
}

proof fn one_point_one_char(a: char, b: char)
    ensures
        a as u32 == b as u32 ==> a == b,
{
}

proof fn order_is_total(a: Seq<char>, b: Seq<char>)
    ensures
        text_before(a, b) || text_before(b, a) || a == b,
        !text_before(a, a),
        text_before(a, b) ==> !text_before(b, a),
    decreases a.len(),
{
    if a.len() > 0 {
        order_is_total(a.skip(1), a.skip(1));
        if b.len() > 0 {
            order_is_total(a.skip(1), b.skip(1));
            one_point_one_char(a[0], b[0]);
            if a[0] == b[0] && a.skip(1) == b.skip(1) {
                assert(a =~= seq![a[0]] + a.skip(1));
                assert(b =~= seq![b[0]] + b.skip(1));
                assert(a == b);
            }
        }
    } else if b.len() == 0 {
        assert(a =~= b);
    }
}

proof fn order_is_transitive(a: Seq<char>, b: Seq<char>, c: Seq<char>)
    requires
        text_before(a, b),
        text_before(b, c),
    ensures
        text_before(a, c),
    decreases a.len(),
{
    if a.len() > 0 && b.len() > 0 && c.len() > 0 && a[0] == b[0] && b[0] == c[0] {
        order_is_transitive(a.skip(1), b.skip(1), c.skip(1));
    }
}

proof fn currency_is_last(v: Seq<MTokenView>, k: int)
    requires
        0 <= k < v.len(),
        v[k].currency is Some,
    ensures
        last_currency(v) is Some,
        !text_before(last_currency(v).unwrap(), v[k].currency.unwrap()),
        exists|i: int| 0 <= i < v.len() && (#[trigger] v[i]).currency == last_currency(v),
    decreases v.len(),
{
    let t = v.drop_last();
    let c = v[k].currency.unwrap();
    order_is_total(c, c);
    assert(v[v.len() - 1] == v.last());
    if k < t.len() {
        assert(t[k] == v[k]);
        currency_is_last(t, k);
        let b = last_currency(t).unwrap();
        let i = choose|i: int| 0 <= i < t.len() && (#[trigger] t[i]).currency == last_currency(t);
        assert(v[i].currency == last_currency(t));
        match v.last().currency {
            Some(d) => {
                order_is_total(d, b);
                order_is_total(b, d);
                order_is_total(c, b);
                order_is_total(c, d);
                if !text_before(d, b) && text_before(d, c) {
                    if text_before(b, d) {
                        order_is_transitive(b, d, c);
                    }
                }
            },
            None => {},
        }
    } else {
        match last_currency(t) {
            Some(b) => {
                order_is_total(c, b);
                order_is_total(b, c);
                if text_before(c, b) {
                    currency_member(t);
                    let i = choose|i: int|
                        0 <= i < t.len() && (#[trigger] t[i]).currency == last_currency(t);
                    assert(v[i].currency == last_currency(t));
                }
            },
            None => {},
        }
    }
}

proof fn currency_member(v: Seq<MTokenView>)
    requires
        last_currency(v) is Some,
    ensures
        exists|i: int| 0 <= i < v.len() && (#[trigger] v[i]).currency == last_currency(v),
    decreases v.len(),
{
    let t = v.drop_last();
    assert(v[v.len() - 1] == v.last());
    if last_currency(v) != v.last().currency {
        currency_member(t);
        let i = choose|i: int| 0 <= i < t.len() && (#[trigger] t[i]).currency == last_currency(t);
        assert(v[i].currency == last_currency(t));
    }
}

/// A merged token has a currency exactly where a part has one: the last of them in the order of
/// code points.
pub proof fn the_last_currency_counts(v: Seq<MTokenView>, unk: Option<Seq<char>>, k: int)
    requires
        0 <= k < v.len(),
    ensures
        v[k].currency is Some ==> merged(v, unk).currency is Some && !text_before(
            merged(v, unk).currency.unwrap(),
            v[k].currency.unwrap(),
        ),
        merged(v, unk).currency is Some ==> exists|i: int|
            0 <= i < v.len() && (#[trigger] v[i]).currency == merged(v, unk).currency,
{
    reveal(merged);
    if v[k].currency is Some {
        currency_is_last(v, k);
    }
    if last_currency(v) is Some {
        currency_member(v);
    }
}

proof fn flag_is_added(s: Seq<char>, c: char, d: char)
    ensures
        with_flag(s, c).contains(d) <==> s.contains(d) || d == c,
    decreases s.len(),
{
    let r = with_flag(s, c);
    if s.len() == 0 {
        assert(r[0] == c);
    } else if s.last() == c {
        assert(s.contains(s[s.len() - 1]));
    } else if (s.last() as u32) < (c as u32) {
        assert(r[s.len() as int] == c);
        if s.contains(d) {
            let i = choose|i: int| 0 <= i < s.len() && s[i] == d;
            assert(r[i] == d);
        }
        if r.contains(d) && d != c {
            let i = choose|i: int| 0 <= i < r.len() && r[i] == d;
            assert(s[i] == d);
        }
    } else {
        let t = s.drop_last();
        flag_is_added(t, c, d);
        let q = with_flag(t, c);
        if r.contains(d) {
            let i = choose|i: int| 0 <= i < r.len() && r[i] == d;
            if i < q.len() {
                assert(q[i] == d);
                if t.contains(d) {
                    let j = choose|j: int| 0 <= j < t.len() && t[j] == d;
                    assert(s[j] == d);
                }
            } else {
                assert(s[s.len() - 1] == d);
            }
        }
        if s.contains(d) || d == c {
            if d == c || t.contains(d) {
                let i = choose|i: int| 0 <= i < q.len() && q[i] == d;
                assert(r[i] == d);
            } else {
                let i = choose|i: int| 0 <= i < s.len() && s[i] == d;
                if i < t.len() {
                    assert(t[i] == d);
                }
                assert(r[r.len() - 1] == d);
            }
        }
    }
}

proof fn flags_are_added(s: Seq<char>, more: Seq<char>, d: char)
    ensures
        with_flags(s, more).contains(d) <==> s.contains(d) || more.contains(d),
    decreases more.len(),
{
    if more.len() > 0 {
        let t = more.drop_last();
        flags_are_added(s, t, d);
        flag_is_added(with_flags(s, t), more.last(), d);
        if t.contains(d) {
            let i = choose|i: int| 0 <= i < t.len() && t[i] == d;
            assert(more[i] == d);
        }
        if more.contains(d) {
            let i = choose|i: int| 0 <= i < more.len() && more[i] == d;
            if i < t.len() {
                assert(t[i] == d);
            }
        }
        if d == more.last() {
            assert(more[more.len() - 1] == d);
        }
    }
}

/// A merged token has the number flags of all its parts, and no others.
pub proof fn flags_are_gathered(v: Seq<MTokenView>, unk: Option<Seq<char>>, d: char)
    ensures
        merged(v, unk).num_flags.contains(d) <==> exists|i: int|
            0 <= i < v.len() && (#[trigger] v[i]).num_flags.contains(d),
    decreases v.len(),
{
    reveal(merged);
    if v.len() > 0 {
        let t = v.drop_last();
        flags_are_gathered(t, unk, d);
        flags_are_added(all_flags(t), v.last().num_flags, d);
        if exists|i: int| 0 <= i < t.len() && (#[trigger] t[i]).num_flags.contains(d) {
            let i = choose|i: int| 0 <= i < t.len() && (#[trigger] t[i]).num_flags.contains(d);
            assert(v[i].num_flags.contains(d));
        }
        if v.last().num_flags.contains(d) {
            assert(v[v.len() - 1].num_flags.contains(d));
        }
        if exists|i: int| 0 <= i < v.len() && (#[trigger] v[i]).num_flags.contains(d) {
            let i = choose|i: int| 0 <= i < v.len() && (#[trigger] v[i]).num_flags.contains(d);
            if i < t.len() {
                assert(t[i].num_flags.contains(d));
            }
        }
    }
}

/// The sound of a merged token grows part by part: a part without a sound is the unknown mark, and
/// a space goes before a part that asks for one, has a sound, and would otherwise touch another.
pub proof fn sounds_are_joined(v: Seq<MTokenView>, t: MTokenView, unk: Seq<char>)
    requires
        v.len() > 0,
    ensures
        ({
            let before = merged(v, Some(unk)).phonemes.unwrap();
            let after = merged(v.push(t), Some(unk)).phonemes.unwrap();
            &&& t.phonemes is None ==> after == before + unk
            &&& t.phonemes is Some && !t.prespace ==> after == before + t.phonemes.unwrap()
            &&& t.phonemes == Some(Seq::<char>::empty()) ==> after == before
            &&& t.phonemes is Some && t.phonemes.unwrap().len() > 0 && t.prespace && before.len()
                > 0 && !white_space(before.last()) ==> after == before + seq![' ']
                + t.phonemes.unwrap()
            &&& t.phonemes is Some && (before.len() == 0 || white_space(before.last())) ==> after
                == before + t.phonemes.unwrap()
        }),
{
    reveal(merged);
    let w = v.push(t);
    assert(w.drop_last() =~= v);
    assert(w.last() == t);
    let before = spoken(v, unk);
    assert(before + Seq::<char>::empty() =~= before);
    if t.phonemes is Some {
        assert(before.push(' ') + t.phonemes.unwrap() =~= before + seq![' '] + t.phonemes.unwrap());
    }
}

/// Each character once, in the order of code points.
pub open spec fn rising(s: Seq<char>) -> bool {
    forall|i: int, j: int| 0 <= i < j < s.len() ==> (#[trigger] s[i] as u32) < (#[trigger] s[j] as u32)
}

proof fn flag_keeps_order(s: Seq<char>, c: char)
    requires
        rising(s),
    ensures
        rising(with_flag(s, c)),
    decreases s.len(),
{
    let r = with_flag(s, c);
    if s.len() > 0 && s.last() != c {
        if (s.last() as u32) < (c as u32) {
            assert forall|i: int, j: int| 0 <= i < j < r.len() implies (#[trigger] r[i] as u32) < (
            #[trigger] r[j] as u32) by {
                if j == s.len() && i < s.len() - 1 {
                    assert((s[i] as u32) < (s[s.len() - 1] as u32));
                }
            }
        } else {
            let t = s.drop_last();
            assert(rising(t)) by {
                assert forall|i: int, j: int| 0 <= i < j < t.len() implies (#[trigger] t[i] as u32)
                    < (#[trigger] t[j] as u32) by {
                    assert(t[i] == s[i] && t[j] == s[j]);
                }
            }
            flag_keeps_order(t, c);
            let q = with_flag(t, c);
            one_point_one_char(s.last(), c);
            assert forall|i: int, j: int| 0 <= i < j < r.len() implies (#[trigger] r[i] as u32) < (
            #[trigger] r[j] as u32) by {
                if j == q.len() {
                    flag_is_added(t, c, q[i]);
                    assert(q.contains(q[i]));
                    if q[i] != c {
                        let k = choose|k: int| 0 <= k < t.len() && t[k] == q[i];
                        assert((s[k] as u32) < (s[s.len() - 1] as u32));
                    }
                } else {
                    assert(r[i] == q[i] && r[j] == q[j]);
                }
            }
        }
    }
}

proof fn flags_keep_order(s: Seq<char>, more: Seq<char>)
    requires
        rising(s),
    ensures
        rising(with_flags(s, more)),
    decreases more.len(),
{
    if more.len() > 0 {
        flags_keep_order(s, more.drop_last());
        flag_keeps_order(with_flags(s, more.drop_last()), more.last());
    }
}

/// The number flags of a merged token are sorted, and none occurs twice.
pub proof fn flags_are_sorted(v: Seq<MTokenView>, unk: Option<Seq<char>>)
    ensures
        rising(merged(v, unk).num_flags),
    decreases v.len(),
{
    reveal(merged);
    if v.len() > 0 {
        flags_are_sorted(v.drop_last(), unk);
        flags_keep_order(all_flags(v.drop_last()), v.last().num_flags);
    }
}

/// Capital letters are counted one by one: a letter that is not small counts, and nothing else does.
pub proof fn capitals_are_counted(a: Seq<char>, b: Seq<char>, c: char)
    ensures
        capital_count(a + b) == capital_count(a) + capital_count(b),
        crate::unicode::alphabetic(c) && !crate::unicode::lower_case(c) ==> capital_count(seq![c])
            == 1,
        !crate::unicode::alphabetic(c) || crate::unicode::lower_case(c) ==> capital_count(seq![c])
            == 0,
    decreases b.len(),
{
    assert(seq![c].drop_last() =~= Seq::<char>::empty());
    assert(seq![c].last() == c);
    assert(capital_count(Seq::<char>::empty()) == 0);
    if b.len() == 0 {
        assert(a + b =~= a);
    } else {
        capitals_are_counted(a, b.drop_last(), c);
        assert((a + b).drop_last() =~= a + b.drop_last());
        assert((a + b).last() == b.last());
    }
}

/// Texts are ordered by their first difference, and a beginning goes before what it begins.
pub proof fn texts_are_ordered(p: Seq<char>, a: char, x: Seq<char>, b: char, y: Seq<char>)
    ensures
        (a as u32) < (b as u32) ==> text_before(p + seq![a] + x, p + seq![b] + y),
        text_before(p, p + seq![a] + x),
        !text_before(p, p),
    decreases p.len(),
{
    let u = p + seq![a] + x;
    let v = p + seq![b] + y;
    if p.len() == 0 {
        assert(u[0] == a && v[0] == b);
    } else {
        texts_are_ordered(p.skip(1), a, x, b, y);
        assert(u[0] == p[0] && v[0] == p[0]);
        assert(u.skip(1) =~= p.skip(1) + seq![a] + x);
        assert(v.skip(1) =~= p.skip(1) + seq![b] + y);
    }
}

} // verus!
