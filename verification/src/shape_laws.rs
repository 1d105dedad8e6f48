//! What the tagger sees of a word, for every word and every vocabulary.

use crate::tagger::{attribute_keys, capped_classes, fifth_in_row, row_or_zeros, shape_class, shape_of};
use crate::unicode::{alphabetic, upper_case, white_space};
use crate::vocab::{keyed_map, pairs_map, strings_map, text_hash, vocab_of, VocabView};
use vstd::prelude::*;

verus! {

/// A capital is an "X", any other letter an "x", an ASCII digit a "d"; any other character stands
/// for itself.
pub proof fn classes_of_characters(c: char)
    ensures
        alphabetic(c) && upper_case(c) ==> shape_class(c) == 'X',
        alphabetic(c) && !upper_case(c) ==> shape_class(c) == 'x',
        !alphabetic(c) && 48 <= c as u32 <= 57 ==> shape_class(c) == 'd',
        !alphabetic(c) && !(48 <= c as u32 <= 57) ==> shape_class(c) == c,
{
}

proof fn capped_run(s: Seq<char>, k: char)
    requires
        forall|i: int| 0 <= i < s.len() ==> shape_class(#[trigger] s[i]) == k,
    ensures
        capped_classes(s) == Seq::new(
            if s.len() < 4 {
                s.len()
            } else {
                4
            },
            |i: int| k,
        ),
    decreases s.len(),
{
    let n: nat = if s.len() < 4 {
        s.len()
    } else {
        4
    };
    if s.len() > 0 {
        let t = s.drop_last();
        assert forall|i: int| 0 <= i < t.len() implies shape_class(#[trigger] t[i]) == k by {
            assert(t[i] == s[i]);
        }
        capped_run(t, k);
        assert(shape_class(s[s.len() - 1]) == k);
        if s.len() > 4 {
            assert forall|i: int| s.len() - 5 <= i < s.len() implies shape_class(#[trigger] s[i])
                == shape_class(s.last()) by {
                assert(shape_class(s[i]) == k);
            }
            assert(fifth_in_row(s));
        } else {
            assert(!fifth_in_row(s));
        }
        assert(capped_classes(s) =~= Seq::new(n, |i: int| k));
    } else {
        assert(capped_classes(s) =~= Seq::new(n, |i: int| k));
    }
}

proof fn classes_split(a: Seq<char>, b: Seq<char>)
    requires
        a.len() > 0,
        b.len() > 0,
        shape_class(a.last()) != shape_class(b[0]),
    ensures
        capped_classes(a + b) == capped_classes(a) + capped_classes(b),
    decreases b.len(),
{
    let s = a + b;
    assert(s.last() == b.last());
    if b.len() == 1 {
        assert(s.drop_last() =~= a);
        assert(b.drop_last() =~= Seq::<char>::empty());
        assert(capped_classes(Seq::<char>::empty()) =~= Seq::<char>::empty());
        assert(s[s.len() - 2] == a.last());
        if fifth_in_row(s) {
            assert(shape_class(s[s.len() - 2]) == shape_class(s.last()));
        }
        assert(!fifth_in_row(b));
        assert(capped_classes(s) =~= capped_classes(a) + capped_classes(b));
    } else {
        let t = b.drop_last();
        assert(t[0] == b[0]);
        classes_split(a, t);
        assert(s.drop_last() =~= a + t);
        let n = a.len() as int;
        if fifth_in_row(s) {
            if b.len() <= 4 {
                assert(shape_class(s[n - 1]) == shape_class(s.last()));
                assert(shape_class(s[n]) == shape_class(s.last()));
                assert(s[n - 1] == a.last() && s[n] == b[0]);
            } else {
                assert forall|i: int| b.len() - 5 <= i < b.len() implies shape_class(#[trigger] b[i])
                    == shape_class(b.last()) by {
                    assert(s[n + i] == b[i]);
                    assert(shape_class(s[n + i]) == shape_class(s.last()));
                }
            }
            assert(fifth_in_row(b));
        }
        if fifth_in_row(b) {
            assert forall|i: int| s.len() - 5 <= i < s.len() implies shape_class(#[trigger] s[i])
                == shape_class(s.last()) by {
                assert(s[i] == b[i - n]);
                assert(shape_class(b[i - n]) == shape_class(b.last()));
            }
            assert(fifth_in_row(s));
        }
        assert(capped_classes(s) =~= capped_classes(a) + capped_classes(b));
    }
}

/// The shape of a word below a hundred characters has one class per character, but no more than four
/// for a run of one class, and each run is capped on its own. Any longer word has the same shape.
pub proof fn shapes_cap_their_runs(run: Seq<char>, k: char, a: Seq<char>, b: Seq<char>)
    requires
        forall|i: int| 0 <= i < run.len() ==> shape_class(#[trigger] run[i]) == k,
    ensures
        run.len() < 100 ==> shape_of(run).len() == (if run.len() < 4 {
            run.len()
        } else {
            4
        }),
        run.len() < 100 ==> forall|i: int|
            0 <= i < shape_of(run).len() ==> #[trigger] shape_of(run)[i] == k,
        a.len() + b.len() < 100 && a.len() > 0 && b.len() > 0 && shape_class(a.last())
            != shape_class(b[0]) ==> shape_of(a + b) == shape_of(a) + shape_of(b),
        a.len() >= 100 ==> shape_of(a) == "LONG"@,
{
    capped_run(run, k);
    if a.len() > 0 && b.len() > 0 && shape_class(a.last()) != shape_class(b[0]) {
        classes_split(a, b);
    }
}

/// The six keys of a token: the normal form that it has or that the vocabulary gives it, its first
/// character, its last three, its shape, and two flags: whether a space follows it, and whether it
/// is blank.
pub proof fn keys_of_a_token(
    text: Seq<char>,
    has_space: bool,
    norm: Option<Seq<char>>,
    vocab: VocabView,
)
    requires
        text.len() >= 3,
    ensures
        ({
            let k = attribute_keys(text, has_space, norm, vocab);
            &&& k.len() == 6
            &&& norm is Some ==> k[0] == vocab.id_of(norm.unwrap())
            &&& norm is None ==> k[0] == vocab.id_of(vocab.norm_of(text))
            &&& k[1] == vocab.id_of(seq![text[0]])
            &&& k[2] == vocab.id_of(
                seq![text[text.len() - 3], text[text.len() - 2], text[text.len() - 1]],
            )
            &&& k[3] == vocab.id_of(shape_of(text))
            &&& (k[4] == 1 <==> has_space)
            &&& (k[4] == 0 <==> !has_space)
            &&& (k[5] == 1 <==> forall|i: int|
                0 <= i < text.len() ==> white_space(#[trigger] text[i]))
            &&& k[5] == 0 || k[5] == 1
        }),
{
    assert(text.take(1) =~= seq![text[0]]);
    let n = text.len() as int;
    assert(crate::tagger::last_three(text) =~= seq![text[n - 3], text[n - 2], text[n - 1]]);
}

/// The name of a symbol has the symbol's number, whatever its hash; any other text has its hash.
pub proof fn symbols_have_numbers(vocab: VocabView, s: Seq<char>, n: u64)
    ensures
        vocab.symbols.contains_key(s) && vocab.symbols[s] == n ==> vocab.id_of(s) == n,
        !vocab.symbols.contains_key(s) ==> vocab.id_of(s) == text_hash(s),
        text_hash(s) == crate::murmur::murmur(vstd::utf8::encode_utf8(s), 1u64),
{
}

/// The normal form that is listed for a text comes before the one listed under its hash, and that
/// before its small letters.
pub proof fn normal_forms_have_an_order(vocab: VocabView, s: Seq<char>, a: Seq<char>)
    ensures
        vocab.base_norms.contains_key(s) && vocab.base_norms[s] == a ==> vocab.norm_of(s) == a,
        !vocab.base_norms.contains_key(s) && vocab.lexeme_norm.contains_key(text_hash(s))
            && vocab.lexeme_norm[text_hash(s)] == a ==> vocab.norm_of(s) == a,
        !vocab.base_norms.contains_key(s) && !vocab.lexeme_norm.contains_key(text_hash(s))
            ==> vocab.norm_of(s) == crate::unicode::lowercase(s),
{
}

/// A row of a table is its own stretch of it, and every row outside is zeros.
pub proof fn rows_of_a_table<T>(x: Seq<T>, k: int, rows: int, width: int, zero: T, j: int)
    requires
        0 <= j < width,
        x.len() == rows * width,
        rows >= 0,
    ensures
        ({
            let r = row_or_zeros(x, k, rows, width, zero);
            &&& r.len() == width
            &&& 0 <= k < rows ==> r[j] == x[k * width + j]
            &&& k < 0 || k >= rows ==> r[j] == zero
        }),
{
    if 0 <= k < rows {
        assert(k * width + width <= rows * width) by (nonlinear_arith)
            requires
                0 <= k < rows,
                width > 0,
        ;
        assert(k * width >= 0) by (nonlinear_arith)
            requires
                k >= 0,
                width > 0,
        ;
    }
}

/// Of two entries of a table with the same key the later one counts, and an entry touches no
/// other key.
pub proof fn later_pairs_count(
    s: Seq<(String, u64)>,
    b: Seq<(String, String)>,
    l: Seq<(u64, String)>,
    p: (String, u64),
    q: (String, String),
    r: (u64, String),
    k: Seq<char>,
    n: u64,
)
    ensures
        pairs_map(s.push(p)).contains_key(p.0@) && pairs_map(s.push(p))[p.0@] == p.1,
        strings_map(b.push(q)).contains_key(q.0@) && strings_map(b.push(q))[q.0@] == q.1@,
        keyed_map(l.push(r)).contains_key(r.0) && keyed_map(l.push(r))[r.0] == r.1@,
        k != p.0@ ==> pairs_map(s.push(p)).contains_key(k) == pairs_map(s).contains_key(k)
            && pairs_map(s.push(p))[k] == pairs_map(s)[k],
        k != q.0@ ==> strings_map(b.push(q)).contains_key(k) == strings_map(b).contains_key(k)
            && strings_map(b.push(q))[k] == strings_map(b)[k],
        n != r.0 ==> keyed_map(l.push(r)).contains_key(n) == keyed_map(l).contains_key(n)
            && keyed_map(l.push(r))[n] == keyed_map(l)[n],
        !pairs_map(Seq::empty()).contains_key(k),
        !strings_map(Seq::empty()).contains_key(k),
        !keyed_map(Seq::empty()).contains_key(n),
{
    assert(s.push(p).drop_last() =~= s);
    assert(b.push(q).drop_last() =~= b);
    assert(l.push(r).drop_last() =~= l);
}

/// The tables of a vocabulary are each made of the pairs under their own name.
pub proof fn tables_of_a_vocabulary(
    s: Seq<(String, u64)>,
    b: Seq<(String, String)>,
    l: Seq<(u64, String)>,
)
    ensures
        vocab_of(s, b, l).symbols == pairs_map(s),
        vocab_of(s, b, l).base_norms == strings_map(b),
        vocab_of(s, b, l).lexeme_norm == keyed_map(l),
{
}

} // verus!
