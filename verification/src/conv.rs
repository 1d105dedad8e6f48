//! One-dimensional convolutions as matrix products over chunks of the signal.
//!
//! The matrix that gathers the taps is `k` times as large as the signal, so a long signal is
//! cut into chunks of one size, each with the context that its taps reach. The cut is exact:
//! every tap of every column sees the sample that it would see in the whole signal.

use vstd::arithmetic::div_mod::*;
use vstd::arithmetic::mul::*;
use vstd::prelude::*;

verus! {

/// The number of pieces of size `b` that cover `a`.
pub open spec fn pieces(a: int, b: int) -> int {
    (a + b - 1) / b
}

fn div_ceil(a: usize, b: usize) -> (r: usize)
    requires
        b > 0,
    ensures
        r == pieces(a as int, b as int),
        r <= a,
{
    let q: usize = a / b;
    let rem: usize = a % b;
    proof {
        lemma_fundamental_div_mod(a as int, b as int);
        pieces_bounds(a as int, b as int);
        if a >= 1 {
            assert(b * (pieces(a as int, b as int) - 1) >= pieces(a as int, b as int) - 1) by (nonlinear_arith)
                requires
                    b >= 1,
                    pieces(a as int, b as int) >= 1,
            ;
        }
    }
    if rem == 0 {
        assert(b * (q - 1) == b * q - b) by (nonlinear_arith);
        assert(pieces(a as int, b as int) == q) by {
            pieces_are(a as int, b as int, q as int);
        }
        q
    } else {
        assert(b * (q + 1) == b * q + b) by (nonlinear_arith);
        assert(pieces(a as int, b as int) == q + 1) by {
            pieces_are(a as int, b as int, q + 1);
        }
        assert(q < a) by (nonlinear_arith)
            requires
                a == b * q + rem,
                rem >= 1,
                b >= 1,
                q >= 0,
        ;
        q + 1
    }
}

/// Pieces cover, and one fewer would not.
proof fn pieces_bounds(a: int, b: int)
    requires
        a >= 0,
        b > 0,
    ensures
        a <= b * pieces(a, b),
        b * (pieces(a, b) - 1) < a || a == 0,
        pieces(a, b) >= 0,
        a == 0 ==> pieces(a, b) == 0,
        a > 0 ==> pieces(a, b) >= 1,
{
    lemma_fundamental_div_mod(a + b - 1, b);
    let p = pieces(a, b);
    assert(b * (p - 1) == b * p - b) by (nonlinear_arith);
    if a == 0 {
        assert(p == 0) by {
            lemma_basic_div(b - 1, b);
        }
    } else {
        assert(p >= 1) by (nonlinear_arith)
            requires
                a <= b * p,
                a >= 1,
                b > 0,
        ;
    }
}

/// The number of pieces is the one that covers and is not one too many.
proof fn pieces_are(a: int, b: int, n: int)
    requires
        a >= 0,
        b > 0,
        a <= b * n,
        b * (n - 1) < a || (a == 0 && n == 0),
    ensures
        pieces(a, b) == n,
{
    pieces_bounds(a, b);
    let p = pieces(a, b);
    if a == 0 {
        assert(n == 0) by (nonlinear_arith)
            requires
                0 <= b * n,
                b * (n - 1) < 0 || n == 0,
                b > 0,
        ;
    } else {
        assert(p == n) by (nonlinear_arith)
            requires
                a <= b * n,
                b * (n - 1) < a,
                a <= b * p,
                b * (p - 1) < a,
                b > 0,
        ;
    }
}

/// A budget, of at least one column.
pub open spec fn granted(budget: int) -> int {
    if budget < 1 {
        1
    } else {
        budget
    }
}

/// The width of a chunk: the whole length where the budget allows it, and else the length
/// spread evenly over as few chunks as the budget allows.
pub open spec fn width_of(budget: int, len: int) -> int {
    let b = granted(budget);
    if b >= len {
        len
    } else {
        pieces(len, pieces(len, b))
    }
}

/// Spreads `len` over as few chunks as the budget allows, evenly. A greedy split would leave a
/// remainder too narrow to be worth its own product.
pub fn chunk_width(budget: usize, len: usize) -> (r: usize)
    ensures
        r == width_of(budget as int, len as int),
        r <= len,
        len > 0 ==> r > 0,
{
    let b: usize = if budget < 1 {
        1
    } else {
        budget
    };
    if b >= len {
        return len;
    }
    proof {
        pieces_bounds(len as int, b as int);
        pieces_bounds(len as int, pieces(len as int, b as int));
    }
    let n: usize = div_ceil(len, b);
    div_ceil(len, n)
}

/// No chunk exceeds the budget, where a budget of nothing counts as one column, and there are no
/// more chunks than a greedy split would have.
pub proof fn chunks_fit_the_budget(budget: int, len: int)
    requires
        len > 0,
    ensures
        0 < width_of(budget, len) <= granted(budget),
        width_of(budget, len) <= len,
        pieces(len, width_of(budget, len)) == pieces(len, granted(budget)),
{
    let w = width_of(budget, len);
    let b = granted(budget);
    pieces_bounds(len, b);
    let n = pieces(len, b);
    if b >= len {
        pieces_are(len, b, 1);
        pieces_are(len, len, 1);
    } else {
        pieces_bounds(len, n);
        assert(w <= b) by (nonlinear_arith)
            requires
                len <= b * n,
                n * (w - 1) < len,
                n >= 1,
        ;
        assert(len <= w * n) by (nonlinear_arith)
            requires
                len <= n * w,
        ;
        assert(w * (n - 1) < len) by (nonlinear_arith)
            requires
                b * (n - 1) < len,
                w <= b,
                n >= 1,
        ;
        pieces_are(len, w, n);
    }
}

/// No narrower chunks would do: whatever width needs no more chunks than the budget asks for is
/// at least as wide.
pub proof fn chunks_are_narrowest(budget: int, len: int, width: int)
    requires
        len > 0,
        width > 0,
        pieces(len, width) <= pieces(len, granted(budget)),
    ensures
        width_of(budget, len) <= width,
{
    let b = granted(budget);
    let n = pieces(len, b);
    let m = pieces(len, width);
    pieces_bounds(len, b);
    pieces_bounds(len, width);
    assert(len <= width * n) by (nonlinear_arith)
        requires
            len <= width * m,
            m <= n,
            width > 0,
    ;
    if b >= len {
        pieces_are(len, b, 1);
        assert(len <= width) by (nonlinear_arith)
            requires
                len <= width * n,
                n == 1,
        ;
    } else {
        let w = pieces(len, n);
        pieces_bounds(len, n);
        assert(w <= width) by (nonlinear_arith)
            requires
                n * (w - 1) < len,
                len <= width * n,
                n >= 1,
        ;
    }
}

/// A chunk of a signal: `width` columns from `start` on, computed from a piece that reaches
/// `left` columns further back and `right` columns further on.
#[derive(Clone, Copy, Debug)]
pub struct Chunk {
    pub start: usize,
    pub width: usize,
    pub left: usize,
    pub right: usize,
}

/// The lesser of two numbers.
pub open spec fn lesser(a: int, b: int) -> int {
    if a < b {
        a
    } else {
        b
    }
}

/// A chunk with machine numbers replaced by whole ones.
pub struct ChunkView {
    pub start: int,
    pub width: int,
    pub left: int,
    pub right: int,
}

impl View for Chunk {
    type V = ChunkView;

    open spec fn view(&self) -> ChunkView {
        ChunkView {
            start: self.start as int,
            width: self.width as int,
            left: self.left as int,
            right: self.right as int,
        }
    }
}

/// The meaning of a list of chunks.
pub open spec fn chunks_view(v: Seq<Chunk>) -> Seq<ChunkView> {
    v.map_values(|c: Chunk| c@)
}

/// The chunk at `start`: as much context as the taps reach and the signal has.
pub open spec fn chunk_at(len: int, width: int, pad_left: int, pad_right: int, start: int) -> ChunkView {
    let w = lesser(width, len - start);
    ChunkView {
        start,
        width: w,
        left: lesser(pad_left, start),
        right: lesser(pad_right, len - (start + w)),
    }
}

/// The chunks before `start`, each `width` wide but perhaps the last.
pub open spec fn chunks_before(
    len: int,
    width: int,
    pad_left: int,
    pad_right: int,
    n: int,
) -> Seq<ChunkView>
    decreases n,
{
    if n <= 0 {
        Seq::empty()
    } else {
        chunks_before(len, width, pad_left, pad_right, n - 1).push(
            chunk_at(len, width, pad_left, pad_right, (n - 1) * width),
        )
    }
}

/// The chunks of a signal: the whole of it where the budget allows, and else chunks with
/// context.
pub open spec fn chunks_of(
    len: int,
    budget: int,
    pad_left: int,
    pad_right: int,
) -> Seq<ChunkView> {
    let width = width_of(budget, len);
    if width < len {
        chunks_before(len, width, pad_left, pad_right, pieces(len, width))
    } else {
        seq![ChunkView { start: 0, width: len, left: 0, right: 0 }]
    }
}

fn plan_chunks(len: usize, budget: usize, pad_left: usize, pad_right: usize) -> (r: Vec<Chunk>)
    ensures
        chunks_view(r@) == chunks_of(len as int, budget as int, pad_left as int, pad_right as int),
{
    let width: usize = chunk_width(budget, len);
    let mut out: Vec<Chunk> = Vec::new();
    if width >= len {
        out.push(Chunk { start: 0, width: len, left: 0, right: 0 });
        assert(chunks_view(out@) =~= seq![
            ChunkView { start: 0, width: len as int, left: 0, right: 0 },
        ]);
        return out;
    }
    let mut start: usize = 0;
    let ghost mut n: int = 0;
    assert(chunks_view(out@) =~= Seq::<ChunkView>::empty());
    while start < len
        invariant
            0 < width < len,
            start <= len,
            n >= 0,
            start < len ==> start == n * width,
            start == len ==> len <= width * n && width * (n - 1) < len,
            chunks_view(out@) == chunks_before(
                len as int,
                width as int,
                pad_left as int,
                pad_right as int,
                n,
            ),
        decreases len - start,
    {
        let w: usize = if width < len - start {
            width
        } else {
            len - start
        };
        let rest: usize = len - start - w;
        let c = Chunk {
            start,
            width: w,
            left: if pad_left < start {
                pad_left
            } else {
                start
            },
            right: if pad_right < rest {
                pad_right
            } else {
                rest
            },
        };
        let ghost before = chunks_view(out@);
        out.push(c);
        proof {
            assert(chunks_view(out@) =~= before.push(c@));
            assert(n * width == width * n) by (nonlinear_arith);
            assert((n + 1) * width == n * width + width) by (nonlinear_arith);
            assert(width * (n + 1) == (n + 1) * width) by (nonlinear_arith);
            n = n + 1;
        }
        start = start + w;
    }
    proof {
        pieces_are(len as int, width as int, n);
    }
    out
}

/// The reach of a kernel of `k` taps.
pub open spec fn reach(k: int, dilation: int) -> int {
    (k - 1) * dilation
}

/// The chunks of a convolution that looks back only.
pub fn causal_chunks(len: usize, cin: usize, k: usize, dilation: usize, budget: usize) -> (r: Vec<
    Chunk,
>)
    requires
        k > 0,
        cin > 0,
        k * cin <= usize::MAX,
        reach(k as int, dilation as int) <= usize::MAX,
    ensures
        chunks_view(r@) == chunks_of(
            len as int,
            budget as int / (k * cin),
            reach(k as int, dilation as int),
            0,
        ),
{
    assert(k * cin > 0) by (nonlinear_arith)
        requires
            k > 0,
            cin > 0,
    ;
    assert((k - 1) * dilation >= 0) by (nonlinear_arith)
        requires
            k >= 1,
            dilation >= 0,
    ;
    plan_chunks(len, budget / (k * cin), (k - 1) * dilation, 0)
}

/// The chunks of a convolution that looks `pad_left` samples back and the rest of its reach
/// on.
pub fn centered_chunks(
    len: usize,
    cin: usize,
    k: usize,
    dilation: usize,
    pad_left: usize,
    budget: usize,
) -> (r: Vec<Chunk>)
    requires
        k > 0,
        cin > 0,
        k * cin <= usize::MAX,
        pad_left <= reach(k as int, dilation as int) <= usize::MAX,
    ensures
        chunks_view(r@) == chunks_of(
            len as int,
            budget as int / (k * cin),
            pad_left as int,
            reach(k as int, dilation as int) - pad_left,
        ),
{
    assert(k * cin > 0) by (nonlinear_arith)
        requires
            k > 0,
            cin > 0,
    ;
    plan_chunks(len, budget / (k * cin), pad_left, (k - 1) * dilation - pad_left)
}

/// The sample that tap `j` of column `t` sees, or one outside the signal, where it sees zero.
pub open spec fn tap_sample(t: int, j: int, dilation: int, pad_left: int) -> int {
    t + j * dilation - pad_left
}

/// Whether a sample lies in a signal.
pub open spec fn in_signal(s: int, len: int) -> bool {
    0 <= s < len
}

/// Cutting is exact: in the piece of a chunk, every tap of every column sees the sample that
/// it sees in the whole signal, and lies outside the piece exactly where it lies outside the
/// signal.
pub proof fn chunks_are_exact(
    len: int,
    width: int,
    k: int,
    dilation: int,
    pad_left: int,
    start: int,
    t: int,
    j: int,
)
    requires
        0 < width,
        k > 0,
        dilation >= 0,
        0 <= pad_left <= reach(k, dilation),
        0 <= start < len,
        ({
            let c = chunk_at(len, width, pad_left, reach(k, dilation) - pad_left, start);
            c.start <= t < c.start + c.width
        }),
        0 <= j < k,
    ensures
        ({
            let c = chunk_at(len, width, pad_left, reach(k, dilation) - pad_left, start);
            let first = c.start - c.left;
            let local = tap_sample(t - first, j, dilation, pad_left);
            let s = tap_sample(t, j, dilation, pad_left);
            &&& s == local + first
            &&& in_signal(local, c.left + c.width + c.right) <==> in_signal(s, len)
        }),
{
    assert(0 <= j * dilation <= (k - 1) * dilation) by (nonlinear_arith)
        requires
            0 <= j < k,
            dilation >= 0,
    ;
}

/// The chunks lie one behind the other and cover the signal.
pub proof fn chunks_cover_the_signal(len: int, budget: int, pad_left: int, pad_right: int, t: int)
    requires
        0 <= t < len,
    ensures
        exists|i: int|
            0 <= i < chunks_of(len, budget, pad_left, pad_right).len() && {
                let c = #[trigger] chunks_of(len, budget, pad_left, pad_right)[i];
                c.start <= t < c.start + c.width
            },
{
    let width = width_of(budget, len);
    chunks_fit_the_budget(budget, len);
    let all = chunks_of(len, budget, pad_left, pad_right);
    if width < len {
        let n = pieces(len, width);
        pieces_bounds(len, width);
        let i = t / width;
        lemma_fundamental_div_mod(t, width);
        assert(width * i == i * width) by (nonlinear_arith);
        assert(i < n) by (nonlinear_arith)
            requires
                width * i <= t,
                t < len,
                len <= width * n,
                width > 0,
        ;
        assert(i >= 0) by {
            lemma_div_pos_is_pos(t, width);
        }
        chunks_listed(len, width, pad_left, pad_right, n, i);
        assert(all[i].start <= t < all[i].start + all[i].width);
    } else {
        assert(all[0].start <= t < all[0].start + all[0].width);
    }
}

proof fn chunks_listed(len: int, width: int, pad_left: int, pad_right: int, n: int, i: int)
    requires
        0 <= i < n,
    ensures
        chunks_before(len, width, pad_left, pad_right, n).len() == n,
        chunks_before(len, width, pad_left, pad_right, n)[i] == chunk_at(
            len,
            width,
            pad_left,
            pad_right,
            i * width,
        ),
    decreases n,
{
    if n > 1 {
        chunks_listed(
            len,
            width,
            pad_left,
            pad_right,
            n - 1,
            if i < n - 1 {
                i
            } else {
                0
            },
        );
    } else {
        assert(chunks_before(len, width, pad_left, pad_right, 0).len() == 0);
    }
}

/// The budget of a matrix in elements: what the setting, or else the default, says in units of
/// 2^20 elements. What does not fit in a `usize` is cut off, as a shift does.
pub fn col_budget(setting: Option<usize>, default: usize) -> (r: usize)
    ensures
        r == (match setting {
            Some(m) => m,
            None => default,
        } * 1_048_576) % (usize::MAX + 1),
{
    let m: usize = match setting {
        Some(m) => m,
        None => default,
    };
    m.wrapping_mul(1_048_576)
}

} // verus!
