//! What the part-of-speech tagger reads off a token: six attribute keys and the rows of the
//! hashed embedding tables that they select.

use crate::lexicon::opt_str;
use crate::murmur::{thinc_buckets, thinc_hash};
use crate::text::{chars_of, is_digit, string_of};
use crate::unicode::{alphabetic, is_alphabetic, is_uppercase, is_whitespace, upper_case, white_space};
use crate::vocab::{Vocab, VocabView};
use vstd::prelude::*;
use vstd::string::*;

verus! {

/// What the tagger reads off a token. `norm` is there only when the tokenizer produced the
/// token from a special case that carries its own ("ca" for "can").
pub struct Tagged<'a> {
    pub text: &'a str,
    pub has_space: bool,
    pub norm: Option<&'a str>,
}

/// The class of a character: a capital, another letter, a digit, or the character itself.
pub open spec fn shape_class(c: char) -> char {
    if alphabetic(c) {
        if upper_case(c) {
            'X'
        } else {
            'x'
        }
    } else if is_digit(c) {
        'd'
    } else {
        c
    }
}

/// Whether the last character is at least the fifth in a row of one class.
pub open spec fn fifth_in_row(s: Seq<char>) -> bool {
    s.len() > 4 && forall|i: int|
        s.len() - 5 <= i < s.len() ==> shape_class(#[trigger] s[i]) == shape_class(s.last())
}

/// One class per character, with runs of one class capped at four.
pub open spec fn capped_classes(s: Seq<char>) -> Seq<char>
    decreases s.len(),
{
    if s.len() == 0 {
        s
    } else if fifth_in_row(s) {
        capped_classes(s.drop_last())
    } else {
        capped_classes(s.drop_last()).push(shape_class(s.last()))
    }
}

/// The shape of a word. Very long words share one shape.
pub open spec fn shape_of(text: Seq<char>) -> Seq<char> {
    if text.len() >= 100 {
        "LONG"@
    } else {
        capped_classes(text)
    }
}

/// Whether a text is white space and not empty.
pub open spec fn blank(text: Seq<char>) -> bool {
    text.len() > 0 && forall|i: int| 0 <= i < text.len() ==> white_space(#[trigger] text[i])
}

/// The last three characters, or all where there are fewer.
pub open spec fn last_three(text: Seq<char>) -> Seq<char> {
    if text.len() <= 3 {
        text
    } else {
        text.skip(text.len() - 3)
    }
}

/// The first character, where there is one.
pub open spec fn first_one(text: Seq<char>) -> Seq<char> {
    if text.len() == 0 {
        text
    } else {
        text.take(1)
    }
}

/// One or zero.
pub open spec fn flag(b: bool) -> u64 {
    if b {
        1
    } else {
        0
    }
}

/// The six attribute keys of a token. The last two are raw flags, not hashes.
pub open spec fn attribute_keys(
    text: Seq<char>,
    has_space: bool,
    norm: Option<Seq<char>>,
    vocab: VocabView,
) -> Seq<u64> {
    seq![
        vocab.id_of(
            match norm {
                Some(n) => n,
                None => vocab.norm_of(text),
            },
        ),
        vocab.id_of(first_one(text)),
        vocab.id_of(last_three(text)),
        vocab.id_of(shape_of(text)),
        flag(has_space),
        flag(blank(text)),
    ]
}

/// The shape of a word: one class per character, runs capped at four.
pub fn word_shape(text: &str) -> (r: String)
    ensures
        r@ == shape_of(text@),
{
    let chars = chars_of(text);
    let n: usize = chars.len();
    if n >= 100 {
        return "LONG".to_owned();
    }
    let mut out = String::new();
    let mut last: char = ' ';
    let mut run: usize = 0;
    let mut i: usize = 0;
    while i < n
        invariant
            i <= n == chars@.len(),
            n < 100,
            run <= i,
            i > 0 ==> run > 0 && last == shape_class(chars@[i - 1]),
            forall|k: int| i - run <= k < i ==> shape_class(#[trigger] chars@[k]) == last,
            run < i ==> shape_class(chars@[i - run - 1]) != last,
            out@ == capped_classes(chars@.take(i as int)),
        decreases n - i,
    {
        let c: char = chars[i];
        let s: char = if is_alphabetic(c) {
            if is_uppercase(c) {
                'X'
            } else {
                'x'
            }
        } else if '0' as u32 <= c as u32 && c as u32 <= '9' as u32 {
            'd'
        } else {
            c
        };
        assert(s == shape_class(c));
        if i > 0 && s == last {
            run = run + 1;
        } else {
            run = 1;
            last = s;
        }
        let ghost t = chars@.take(i + 1);
        assert(t.drop_last() =~= chars@.take(i as int));
        assert(t.last() == c);
        if run <= 4 {
            assert(!fifth_in_row(t)) by {
                if t.len() > 4 {
                    assert(t[i - run] == chars@[i - run]);
                    assert(shape_class(t[i - run]) != s);
                }
            }
            out.push(s);
        } else {
            assert forall|k: int| t.len() - 5 <= k < t.len() implies shape_class(#[trigger] t[k])
                == shape_class(t.last()) by {
                assert(t[k] == chars@[k]);
            }
        }
        i = i + 1;
    }
    assert(chars@.take(i as int) =~= chars@);
    out
}

/// Whether a text is white space and not empty.
pub fn is_blank(text: &str) -> (r: bool)
    ensures
        r == blank(text@),
{
    let chars = chars_of(text);
    let mut i: usize = 0;
    while i < chars.len()
        invariant
            i <= chars@.len(),
            chars@ == text@,
            forall|k: int| 0 <= k < i ==> white_space(#[trigger] text@[k]),
        decreases chars.len() - i,
    {
        if !is_whitespace(chars[i]) {
            assert(!white_space(text@[i as int]));
            return false;
        }
        i = i + 1;
    }
    chars.len() > 0
}

/// The six attribute keys that a token feeds to the embedding tables. The flag of the
/// space behind it and that of white space are raw: hashing them would give a model that
/// runs and is wrong on every token.
pub fn keys(tk: &Tagged, vocab: &Vocab) -> (r: [u64; 6])
    ensures
        r@ == attribute_keys(tk.text@, tk.has_space, opt_str(tk.norm), vocab@),
{
    let norm = match tk.norm {
        Some(n) => n.to_owned(),
        None => vocab.norm(tk.text),
    };
    let chars = chars_of(tk.text);
    let n: usize = chars.len();
    let prefix = string_of(
        &chars,
        0,
        if n == 0 {
            0
        } else {
            1
        },
    );
    let suffix = string_of(
        &chars,
        if n <= 3 {
            0
        } else {
            n - 3
        },
        n,
    );
    assert(prefix@ =~= first_one(tk.text@));
    assert(suffix@ =~= last_three(tk.text@));
    let shape = word_shape(tk.text);
    let has_space: u64 = if tk.has_space {
        1
    } else {
        0
    };
    let space: u64 = if is_blank(tk.text) {
        1
    } else {
        0
    };
    let r: [u64; 6] = [
        vocab.string_id(norm.as_str()),
        vocab.string_id(prefix.as_str()),
        vocab.string_id(suffix.as_str()),
        vocab.string_id(shape.as_str()),
        has_space,
        space,
    ];
    assert(r@ =~= attribute_keys(tk.text@, tk.has_space, opt_str(tk.norm), vocab@));
    r
}

/// The four rows of a hashed embedding table that a key sums.
pub fn embedding_rows(key: u64, seed: u32, rows: usize) -> (r: [usize; 4])
    requires
        rows > 0,
    ensures
        forall|i: int|
            0 <= i < 4 ==> #[trigger] r@[i] == thinc_buckets(key, seed)[i] as int % rows as int
                && r@[i] < rows,
{
    let h = thinc_hash(key, seed);
    [
        h[0] as usize % rows,
        h[1] as usize % rows,
        h[2] as usize % rows,
        h[3] as usize % rows,
    ]
}

/// Row number `k` of a table of rows, or a row of zeros outside it.
pub open spec fn row_or_zeros<T>(x: Seq<T>, k: int, rows: int, width: int, zero: T) -> Seq<T> {
    if 0 <= k < rows {
        x.subrange(k * width, k * width + width)
    } else {
        Seq::new(width as nat, |j: int| zero)
    }
}

/// Whether row `k` of a table lies inside it.
proof fn row_lies_inside(k: int, rows: int, width: int)
    requires
        0 <= k < rows,
        0 <= width,
    ensures
        0 <= k * width <= k * width + width <= rows * width,
{
    assert(0 <= k * width && k * width + width <= rows * width) by (nonlinear_arith)
        requires
            0 <= k < rows,
            0 <= width,
    ;
}

/// Appends the row that begins at `from`.
fn push_row<T: Copy>(out: &mut Vec<T>, x: &Vec<T>, from: usize, width: usize)
    requires
        from + width <= x@.len(),
    ensures
        final(out)@ == old(out)@ + x@.subrange(from as int, from + width),
{
    let ghost out0 = out@;
    let n: usize = x.len();
    let mut j: usize = 0;
    assert(out@ =~= out0 + x@.subrange(from as int, from as int));
    while j < width
        invariant
            j <= width,
            from + width <= n == x@.len(),
            out@ == out0 + x@.subrange(from as int, from + j),
        decreases width - j,
    {
        out.push(x[from + j]);
        assert(out@ =~= out0 + x@.subrange(from as int, from + j + 1));
        j = j + 1;
    }
}

/// Appends a row of zeros.
fn push_zeros<T: Copy>(out: &mut Vec<T>, width: usize, zero: T)
    ensures
        final(out)@ == old(out)@ + Seq::new(width as nat, |j: int| zero),
{
    let ghost out0 = out@;
    let mut j: usize = 0;
    assert(out@ =~= out0 + Seq::new(0, |k: int| zero));
    while j < width
        invariant
            j <= width,
            out@ == out0 + Seq::new(j as nat, |k: int| zero),
        decreases width - j,
    {
        out.push(zero);
        j = j + 1;
        assert(out@ =~= out0 + Seq::new(j as nat, |k: int| zero));
    }
}

/// What an encoder layer reads for row `i`: the row before it, the row and the row behind it,
/// with zeros beyond the ends.
pub fn window<T: Copy>(x: &Vec<T>, i: usize, rows: usize, width: usize, zero: T) -> (r: Vec<T>)
    requires
        i < rows,
        x@.len() == rows * width,
    ensures
        r@ == row_or_zeros(x@, i - 1, rows as int, width as int, zero) + row_or_zeros(
            x@,
            i as int,
            rows as int,
            width as int,
            zero,
        ) + row_or_zeros(x@, i + 1, rows as int, width as int, zero),
{
    let mut out: Vec<T> = Vec::new();
    let n: usize = x.len();
    assert(n == rows * width);
    proof {
        row_lies_inside(i as int, rows as int, width as int);
        if i > 0 {
            row_lies_inside(i - 1, rows as int, width as int);
        }
        if i + 1 < rows {
            row_lies_inside(i + 1, rows as int, width as int);
        }
    }
    if i > 0 {
        push_row(&mut out, x, (i - 1) * width, width);
    } else {
        push_zeros(&mut out, width, zero);
    }
    assert(out@ =~= row_or_zeros(x@, i - 1, rows as int, width as int, zero));
    push_row(&mut out, x, i * width, width);
    if i + 1 < rows {
        push_row(&mut out, x, (i + 1) * width, width);
    } else {
        push_zeros(&mut out, width, zero);
    }
    out
}

} // verus!
