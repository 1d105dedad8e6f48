//! Tensors as flat arrays: the movements of data that need no arithmetic on the elements.

use vstd::arithmetic::div_mod::*;
use vstd::prelude::*;

verus! {

/// The element of an index in two dimensions.
pub open spec fn at2(i: int, j: int, n: int) -> int {
    i * n + j
}

/// An index in two dimensions is taken apart again.
pub proof fn at2_parts(i: int, j: int, n: int)
    requires
        0 <= j < n,
    ensures
        at2(i, j, n) / n == i,
        at2(i, j, n) % n == j,
{
    lemma_fundamental_div_mod_converse(at2(i, j, n), n, i, j);
}

/// An index in two dimensions stays inside.
pub proof fn at2_inside(i: int, j: int, m: int, n: int)
    requires
        0 <= i < m,
        0 <= j < n,
    ensures
        0 <= at2(i, j, n) < m * n,
{
    assert(0 <= i * n + j < m * n) by (nonlinear_arith)
        requires
            0 <= i < m,
            0 <= j < n,
    ;
}

/// A flat index taken apart lies inside.
proof fn parts_inside(x: int, m: int, n: int)
    requires
        0 <= x < m * n,
        n > 0,
    ensures
        0 <= x / n < m,
        0 <= x % n < n,
        x == at2(x / n, x % n, n),
{
    lemma_fundamental_div_mod(x, n);
    lemma_mod_bound(x, n);
    let q = x / n;
    assert(n * q == q * n) by (nonlinear_arith);
    assert(q < m) by (nonlinear_arith)
        requires
            n * q <= x,
            x < m * n,
            n > 0,
    ;
    lemma_div_pos_is_pos(x, n);
}

/// `[rows, cols]` as `[cols, rows]`.
pub fn transpose<T: Copy>(src: &Vec<T>, rows: usize, cols: usize) -> (r: Vec<T>)
    requires
        src@.len() == rows * cols,
    ensures
        r@.len() == src@.len(),
        forall|i: int, j: int|
            0 <= i < rows && 0 <= j < cols ==> r@[#[trigger] at2(j, i, rows as int)]
                == src@[#[trigger] at2(i, j, cols as int)],
{
    let n: usize = src.len();
    let mut out: Vec<T> = Vec::new();
    let mut x: usize = 0;
    while x < n
        invariant
            x <= n == src@.len(),
            n == rows * cols,
            out@.len() == x,
            forall|k: int|
                0 <= k < x ==> out@[k] == src@[#[trigger] at2(k % rows as int, k / rows as int, cols as int)],
        decreases n - x,
    {
        assert(rows > 0) by (nonlinear_arith)
            requires
                rows * cols > 0,
                rows >= 0,
        ;
        assert(rows * cols == cols * rows) by (nonlinear_arith);
        proof {
            parts_inside(x as int, cols as int, rows as int);
            at2_inside(x as int % rows as int, x as int / rows as int, rows as int, cols as int);
            let i = x as int % rows as int;
            assert(0 <= i * cols <= rows * cols) by (nonlinear_arith)
                requires
                    0 <= i < rows,
                    cols >= 0,
            ;
        }
        let from: usize = (x % rows) * cols + x / rows;
        assert(from == at2(x as int % rows as int, x as int / rows as int, cols as int));
        out.push(src[from]);
        x = x + 1;
    }
    proof {
        assert forall|i: int, j: int| 0 <= i < rows && 0 <= j < cols implies out@[#[trigger] at2(
            j,
            i,
            rows as int,
        )] == src@[#[trigger] at2(i, j, cols as int)] by {
            at2_parts(j, i, rows as int);
            at2_inside(j, i, cols as int, rows as int);
            assert(rows * cols == cols * rows) by (nonlinear_arith);
            let k = at2(j, i, rows as int);
            assert(out@[k] == src@[at2(k % rows as int, k / rows as int, cols as int)]);
        }
    }
    out
}

/// What `transpose` states of its result.
pub open spec fn is_transpose<T>(a: Seq<T>, b: Seq<T>, rows: int, cols: int) -> bool {
    b.len() == a.len() && forall|i: int, j: int|
        0 <= i < rows && 0 <= j < cols ==> b[#[trigger] at2(j, i, rows)] == a[#[trigger] at2(
            i,
            j,
            cols,
        )]
}

/// Transposing twice gives the first tensor back.
pub proof fn transposing_twice_changes_nothing<T>(
    a: Seq<T>,
    b: Seq<T>,
    c: Seq<T>,
    rows: int,
    cols: int,
)
    requires
        rows >= 0,
        cols >= 0,
        a.len() == rows * cols,
        is_transpose(a, b, rows, cols),
        is_transpose(b, c, cols, rows),
    ensures
        c == a,
{
    assert forall|x: int| 0 <= x < a.len() implies c[x] == a[x] by {
        assert(cols > 0) by (nonlinear_arith)
            requires
                rows * cols > 0,
                cols >= 0,
        ;
        parts_inside(x, rows, cols);
        let i = x / cols;
        let j = x % cols;
        assert(c[at2(i, j, cols)] == b[at2(j, i, rows)]);
        assert(b[at2(j, i, rows)] == a[at2(i, j, cols)]);
    }
    assert(c =~= a);
}

/// The element of an index in four dimensions.
pub open spec fn at4(i: int, j: int, k: int, l: int, n: int, o: int, p: int) -> int {
    at2(at2(at2(i, j, n), k, o), l, p)
}

/// `[b, n, h, d]` as `[b, h, n, d]`: the layout of attention heads.
pub fn head_transpose<T: Copy>(src: &Vec<T>, b: usize, n: usize, heads: usize, dim: usize) -> (r:
    Vec<T>)
    requires
        src@.len() == b * n * heads * dim,
    ensures
        r@.len() == src@.len(),
        forall|i: int, p: int, h: int, e: int|
            0 <= i < b && 0 <= p < n && 0 <= h < heads && 0 <= e < dim ==> r@[#[trigger] at4(
                i,
                h,
                p,
                e,
                heads as int,
                n as int,
                dim as int,
            )] == src@[at4(i, p, h, e, n as int, heads as int, dim as int)],
{
    let total: usize = src.len();
    let mut out: Vec<T> = Vec::new();
    let mut x: usize = 0;
    while x < total
        invariant
            x <= total == src@.len(),
            total == b * n * heads * dim,
            out@.len() == x,
            forall|k: int|
                0 <= k < x ==> out@[k] == src@[#[trigger] head_source(
                    k,
                    n as int,
                    heads as int,
                    dim as int,
                )],
        decreases total - x,
    {
        proof {
            factors_are_positive(b as int, n as int, heads as int, dim as int);
            head_source_inside(x as int, b as int, n as int, heads as int, dim as int);
        }
        let e: usize = x % dim;
        let rest: usize = x / dim;
        let p: usize = rest % n;
        let outer: usize = rest / n;
        let h: usize = outer % heads;
        let i: usize = outer / heads;
        let from: usize = ((i * n + p) * heads + h) * dim + e;
        out.push(src[from]);
        x = x + 1;
    }
    proof {
        assert forall|i: int, p: int, h: int, e: int|
            0 <= i < b && 0 <= p < n && 0 <= h < heads && 0 <= e < dim implies out@[#[trigger] at4(
            i,
            h,
            p,
            e,
            heads as int,
            n as int,
            dim as int,
        )] == src@[at4(i, p, h, e, n as int, heads as int, dim as int)] by {
            let x = at4(i, h, p, e, heads as int, n as int, dim as int);
            at2_parts(i, h, heads as int);
            at2_parts(at2(i, h, heads as int), p, n as int);
            at2_parts(at2(at2(i, h, heads as int), p, n as int), e, dim as int);
            at2_inside(i, h, b as int, heads as int);
            at2_inside(at2(i, h, heads as int), p, b * heads, n as int);
            at2_inside(at2(at2(i, h, heads as int), p, n as int), e, b * heads * n, dim as int);
            assert(b * heads * n * dim == b * n * heads * dim) by (nonlinear_arith);
            assert(x < total);
            assert(out@[x] == src@[head_source(x, n as int, heads as int, dim as int)]);
        }
    }
    out
}

/// Where element `x` of the transposed tensor comes from.
spec fn head_source(x: int, n: int, heads: int, dim: int) -> int {
    let rest = x / dim;
    let outer = rest / n;
    at4(outer / heads, rest % n, outer % heads, x % dim, n, heads, dim)
}

proof fn factors_are_positive(b: int, n: int, heads: int, dim: int)
    requires
        b >= 0,
        n >= 0,
        heads >= 0,
        dim >= 0,
        b * n * heads * dim > 0,
    ensures
        b > 0,
        n > 0,
        heads > 0,
        dim > 0,
{
    assert(b > 0 && n > 0 && heads > 0 && dim > 0) by (nonlinear_arith)
        requires
            b >= 0,
            n >= 0,
            heads >= 0,
            dim >= 0,
            b * n * heads * dim > 0,
    ;
}

proof fn head_source_inside(x: int, b: int, n: int, heads: int, dim: int)
    requires
        b > 0,
        n > 0,
        heads > 0,
        dim > 0,
        0 <= x < b * n * heads * dim,
    ensures
        0 <= head_source(x, n, heads, dim) < b * n * heads * dim,
        ({
            let rest = x / dim;
            let outer = rest / n;
            let i = outer / heads;
            let p = rest % n;
            let h = outer % heads;
            &&& 0 <= i * n
            &&& 0 <= i * n + p < b * n
            &&& 0 <= (i * n + p) * heads
            &&& 0 <= (i * n + p) * heads + h < b * n * heads
            &&& 0 <= ((i * n + p) * heads + h) * dim
            &&& i * n <= b * n * heads * dim
            &&& (i * n + p) * heads <= b * n * heads * dim
            &&& ((i * n + p) * heads + h) * dim <= b * n * heads * dim
            &&& b * n <= b * n * heads * dim
            &&& b * n * heads <= b * n * heads * dim
        }),
{
    assert(b * n * heads * dim == b * heads * n * dim) by (nonlinear_arith);
    parts_inside(x, b * heads * n, dim);
    let rest = x / dim;
    parts_inside(rest, b * heads, n);
    let outer = rest / n;
    parts_inside(outer, b, heads);
    let i = outer / heads;
    let p = rest % n;
    let h = outer % heads;
    at2_inside(i, p, b, n);
    at2_inside(at2(i, p, n), h, b * n, heads);
    at2_inside(at2(at2(i, p, n), h, heads), x % dim, b * n * heads, dim);
    assert(b * n <= b * n * heads && b * n * heads <= b * n * heads * dim && b * n > 0) by (nonlinear_arith)
        requires
            b > 0,
            n > 0,
            heads > 0,
            dim > 0,
    ;
    assert(0 <= i * n) by (nonlinear_arith)
        requires
            i >= 0,
            n > 0,
    ;
    let y = i * n + p;
    assert(0 <= y * heads) by (nonlinear_arith)
        requires
            y >= 0,
            heads > 0,
    ;
    let z = y * heads + h;
    assert(0 <= z * dim) by (nonlinear_arith)
        requires
            z >= 0,
            dim > 0,
    ;
}

/// Every element repeated `factor` times: nearest-neighbour upsampling of the last dimension.
pub fn upsample_nearest<T: Copy>(src: &Vec<T>, factor: usize) -> (r: Vec<T>)
    requires
        src@.len() * factor <= usize::MAX,
    ensures
        r@.len() == src@.len() * factor,
        forall|i: int, j: int|
            0 <= i < src@.len() && 0 <= j < factor ==> r@[#[trigger] at2(i, j, factor as int)]
                == src@[i],
{
    let n: usize = src.len();
    let mut out: Vec<T> = Vec::new();
    let mut i: usize = 0;
    assert(0 * factor == 0);
    while i < n
        invariant
            i <= n == src@.len(),
            src@.len() * factor <= usize::MAX,
            out@.len() == i * factor,
            forall|a: int, j: int|
                0 <= a < i && 0 <= j < factor ==> out@[#[trigger] at2(a, j, factor as int)] == src@[a],
        decreases n - i,
    {
        let ghost before = out@;
        let mut j: usize = 0;
        while j < factor
            invariant
                i < n == src@.len(),
                j <= factor,
                before.len() == i * factor,
                out@.len() == i * factor + j,
                forall|x: int| 0 <= x < before.len() ==> out@[x] == before[x],
                forall|b: int|
                    0 <= b < j ==> out@[#[trigger] at2(i as int, b, factor as int)] == src@[i as int],
            decreases factor - j,
        {
            let ghost o = out@;
            out.push(src[i]);
            assert forall|b: int| 0 <= b < j + 1 implies out@[#[trigger] at2(
                i as int,
                b,
                factor as int,
            )] == src@[i as int] by {
                if b < j {
                    assert(out@[at2(i as int, b, factor as int)] == o[at2(
                        i as int,
                        b,
                        factor as int,
                    )]);
                }
            }
            j = j + 1;
        }
        proof {
            assert((i + 1) * factor == i * factor + factor) by (nonlinear_arith);
            assert forall|a: int, j: int| 0 <= a < i + 1 && 0 <= j < factor implies out@[
                #[trigger] at2(a, j, factor as int)] == src@[a] by {
                if a < i {
                    at2_inside(a, j, i as int, factor as int);
                    assert(before[at2(a, j, factor as int)] == src@[a]);
                }
            }
        }
        i = i + 1;
    }
    out
}

/// The rows `ids` of a table, one after the other.
pub open spec fn rows_of(data: Seq<u8>, row: int, ids: Seq<u32>) -> Seq<u8>
    decreases ids.len(),
{
    if ids.len() == 0 {
        Seq::empty()
    } else {
        rows_of(data, row, ids.drop_last()) + data.subrange(
            ids.last() * row,
            ids.last() * row + row,
        )
    }
}

/// Whether a row lies within a table.
pub open spec fn has_row(data: Seq<u8>, row: int, id: u32) -> bool {
    id * row + row <= data.len()
}

/// The rows `ids` of a table of bytes, or the first that is past its end.
pub fn gather_rows(data: &[u8], row: usize, ids: &Vec<u32>) -> (r: Result<Vec<u8>, u32>)
    ensures
        match r {
            Ok(v) => v@ == rows_of(data@, row as int, ids@) && forall|i: int|
                0 <= i < ids@.len() ==> has_row(data@, row as int, #[trigger] ids@[i]),
            Err(id) => exists|i: int|
                0 <= i < ids@.len() && #[trigger] ids@[i] == id && !has_row(
                    data@,
                    row as int,
                    id,
                ) && forall|k: int| 0 <= k < i ==> has_row(data@, row as int, #[trigger] ids@[k]),
        },
{
    let size: usize = data.len();
    let mut out: Vec<u8> = Vec::new();
    let mut i: usize = 0;
    while i < ids.len()
        invariant
            i <= ids@.len(),
            size == data@.len(),
            out@ == rows_of(data@, row as int, ids@.take(i as int)),
            forall|k: int| 0 <= k < i ==> has_row(data@, row as int, #[trigger] ids@[k]),
        decreases ids.len() - i,
    {
        let id: u32 = ids[i];
        assert(0 <= id * row <= 0xffff_ffff * 0xffff_ffff_ffff_ffff) by (nonlinear_arith)
            requires
                0 <= id <= 0xffff_ffff,
                0 <= row <= 0xffff_ffff_ffff_ffff,
        ;
        let wide: u128 = (id as u128) * (row as u128);
        if wide + row as u128 > size as u128 {
            assert(ids@[i as int] == id);
            return Err(id);
        }
        let at: usize = wide as usize;
        let ghost before = out@;
        let mut k: usize = 0;
        assert(out@ =~= before + data@.subrange(at as int, at as int));
        while k < row
            invariant
                k <= row,
                size == data@.len(),
                at + row <= size,
                out@ == before + data@.subrange(at as int, at + k),
            decreases row - k,
        {
            out.push(data[at + k]);
            assert(out@ =~= before + data@.subrange(at as int, at + k + 1));
            k = k + 1;
        }
        assert(ids@.take(i + 1).drop_last() =~= ids@.take(i as int));
        i = i + 1;
    }
    assert(ids@.take(i as int) =~= ids@);
    Ok(out)
}

/// The taps of every column of a signal, tap by tap: row `t * cin + c`, column `l` is sample
/// `l + t * dilation - pad_left` of channel `c`, or `zero` outside the signal.
pub open spec fn tap_value<T>(
    x: Seq<T>,
    len: int,
    dilation: int,
    pad_left: int,
    t: int,
    c: int,
    l: int,
    zero: T,
) -> T {
    let s = crate::conv::tap_sample(l, t, dilation, pad_left);
    if crate::conv::in_signal(s, len) {
        x[at2(c, s, len)]
    } else {
        zero
    }
}

/// Gathers the taps of every column of a `[cin, len]` signal into `[k * cin, len]`.
pub fn gather_taps<T: Copy>(
    x: &Vec<T>,
    cin: usize,
    len: usize,
    k: usize,
    dilation: usize,
    pad_left: usize,
    zero: T,
) -> (r: Vec<T>)
    requires
        x@.len() == cin * len,
        k * cin * len <= usize::MAX,
        len + k * dilation <= usize::MAX,
    ensures
        r@.len() == k * cin * len,
        forall|t: int, c: int, l: int|
            0 <= t < k && 0 <= c < cin && 0 <= l < len ==> r@[#[trigger] at2(
                at2(t, c, cin as int),
                l,
                len as int,
            )] == tap_value(x@, len as int, dilation as int, pad_left as int, t, c, l, zero),
{
    let mut out: Vec<T> = Vec::new();
    assert(k * cin * len >= 0) by (nonlinear_arith)
        requires
            k >= 0,
            cin >= 0,
            len >= 0,
    ;
    if k == 0 || cin == 0 || len == 0 {
        assert(k * cin * len == 0) by (nonlinear_arith)
            requires
                k == 0 || cin == 0 || len == 0,
        ;
        return out;
    }
    assert(k * cin <= k * cin * len && k * cin > 0) by (nonlinear_arith)
        requires
            k > 0,
            cin > 0,
            len > 0,
    ;
    let total: usize = k * cin * len;
    let size: usize = x.len();
    let mut y: usize = 0;
    while y < total
        invariant
            y <= total == k * cin * len,
            k > 0,
            cin > 0,
            len > 0,
            x@.len() == cin * len,
            size == x@.len(),
            len + k * dilation <= usize::MAX,
            out@.len() == y,
            forall|z: int|
                0 <= z < y ==> out@[z] == #[trigger] tap_at(
                    x@,
                    cin as int,
                    len as int,
                    dilation as int,
                    pad_left as int,
                    zero,
                    z,
                ),
        decreases total - y,
    {
        let l: usize = y % len;
        let row: usize = y / len;
        let c: usize = row % cin;
        let t: usize = row / cin;
        proof {
            parts_inside(y as int, k * cin, len as int);
            parts_inside(row as int, k as int, cin as int);
            assert(0 <= t * dilation <= k * dilation) by (nonlinear_arith)
                requires
                    0 <= t < k,
                    dilation >= 0,
            ;
        }
        let s: usize = l + t * dilation;
        let v: T = if s >= pad_left && s - pad_left < len {
            proof {
                at2_inside(c as int, s - pad_left, cin as int, len as int);
                assert(0 <= c * len <= cin * len) by (nonlinear_arith)
                    requires
                        0 <= c < cin,
                        len > 0,
                ;
            }
            x[c * len + (s - pad_left)]
        } else {
            zero
        };
        out.push(v);
        y = y + 1;
    }
    proof {
        assert forall|t: int, c: int, l: int| 0 <= t < k && 0 <= c < cin && 0 <= l < len implies out@[
            #[trigger] at2(at2(t, c, cin as int), l, len as int)] == tap_value(
            x@,
            len as int,
            dilation as int,
            pad_left as int,
            t,
            c,
            l,
            zero,
        ) by {
            at2_parts(t, c, cin as int);
            at2_parts(at2(t, c, cin as int), l, len as int);
            at2_inside(t, c, k as int, cin as int);
            at2_inside(at2(t, c, cin as int), l, k * cin, len as int);
            let z = at2(at2(t, c, cin as int), l, len as int);
            assert(out@[z] == tap_at(
                x@,
                cin as int,
                len as int,
                dilation as int,
                pad_left as int,
                zero,
                z,
            ));
        }
    }
    out
}

spec fn tap_at<T>(
    x: Seq<T>,
    cin: int,
    len: int,
    dilation: int,
    pad_left: int,
    zero: T,
    z: int,
) -> T {
    tap_value(x, len, dilation, pad_left, z / len / cin, (z / len) % cin, z % len, zero)
}

/// `[out, in, k]` as `[out, k * in]`, tap by tap, to match gathered taps.
pub fn tap_major<T: Copy>(w: &Vec<T>, cout: usize, cin: usize, k: usize) -> (r: Vec<T>)
    requires
        w@.len() == cout * cin * k,
    ensures
        r@.len() == w@.len(),
        forall|o: int, t: int, c: int|
            0 <= o < cout && 0 <= t < k && 0 <= c < cin ==> r@[#[trigger] at2(
                at2(o, t, k as int),
                c,
                cin as int,
            )] == w@[at2(at2(o, c, cin as int), t, k as int)],
{
    let mut out: Vec<T> = Vec::new();
    let total: usize = w.len();
    let mut x: usize = 0;
    while x < total
        invariant
            x <= total == w@.len(),
            total == cout * cin * k,
            out@.len() == x,
            forall|z: int|
                0 <= z < x ==> out@[z] == w@[#[trigger] tap_source(z, cin as int, k as int)],
        decreases total - x,
    {
        proof {
            factors_are_positive(cout as int, cin as int, k as int, 1);
            tap_source_inside(x as int, cout as int, cin as int, k as int);
        }
        let c: usize = x % cin;
        let rest: usize = x / cin;
        let t: usize = rest % k;
        let o: usize = rest / k;
        let from: usize = (o * cin + c) * k + t;
        out.push(w[from]);
        x = x + 1;
    }
    proof {
        assert forall|o: int, t: int, c: int| 0 <= o < cout && 0 <= t < k && 0 <= c < cin implies out@[
            #[trigger] at2(at2(o, t, k as int), c, cin as int)] == w@[at2(
            at2(o, c, cin as int),
            t,
            k as int,
        )] by {
            at2_parts(o, t, k as int);
            at2_parts(at2(o, t, k as int), c, cin as int);
            at2_inside(o, t, cout as int, k as int);
            at2_inside(at2(o, t, k as int), c, cout * k, cin as int);
            assert(cout * k * cin == cout * cin * k) by (nonlinear_arith);
            let z = at2(at2(o, t, k as int), c, cin as int);
            assert(out@[z] == w@[tap_source(z, cin as int, k as int)]);
        }
    }
    out
}

spec fn tap_source(x: int, cin: int, k: int) -> int {
    let rest = x / cin;
    at2(at2(rest / k, x % cin, cin), rest % k, k)
}

proof fn tap_source_inside(x: int, cout: int, cin: int, k: int)
    requires
        cout > 0,
        cin > 0,
        k > 0,
        0 <= x < cout * cin * k,
    ensures
        0 <= tap_source(x, cin, k) < cout * cin * k,
        ({
            let o = x / cin / k;
            let c = x % cin;
            &&& 0 <= o * cin <= cout * cin * k
            &&& 0 <= o * cin + c < cout * cin <= cout * cin * k
            &&& 0 <= (o * cin + c) * k <= cout * cin * k
        }),
{
    assert(cout * cin * k == cout * k * cin) by (nonlinear_arith);
    parts_inside(x, cout * k, cin);
    let rest = x / cin;
    parts_inside(rest, cout, k);
    let o = rest / k;
    let c = x % cin;
    at2_inside(o, c, cout, cin);
    at2_inside(at2(o, c, cin), rest % k, cout * cin, k);
    assert(cout * cin <= cout * cin * k) by (nonlinear_arith)
        requires
            cout > 0,
            cin > 0,
            k > 0,
    ;
    assert(0 <= o * cin) by (nonlinear_arith)
        requires
            o >= 0,
            cin > 0,
    ;
    let y = o * cin + c;
    assert(0 <= y * k) by (nonlinear_arith)
        requires
            y >= 0,
            k > 0,
    ;
}

/// Whether the query of `row` may attend to `col`: no further than itself, and no further back
/// than the window.
pub open spec fn attends(row: int, col: int, window: Option<usize>) -> bool {
    col <= row && match window {
        Some(w) => row - col < w,
        None => true,
    }
}

/// The attention mask of `n` positions: true where a query may attend. A window bounds how far
/// back it can look.
pub fn causal_window_mask(n: usize, window: Option<usize>) -> (r: Vec<bool>)
    requires
        n * n <= usize::MAX,
    ensures
        r@.len() == n * n,
        forall|i: int, j: int|
            0 <= i < n && 0 <= j < n ==> r@[#[trigger] at2(i, j, n as int)] == attends(i, j, window),
{
    let mut out: Vec<bool> = Vec::new();
    let mut row: usize = 0;
    assert(0 * n == 0);
    while row < n
        invariant
            row <= n,
            n * n <= usize::MAX,
            out@.len() == row * n,
            forall|i: int, j: int|
                0 <= i < row && 0 <= j < n ==> out@[#[trigger] at2(i, j, n as int)] == attends(
                    i,
                    j,
                    window,
                ),
        decreases n - row,
    {
        let ghost before = out@;
        let mut col: usize = 0;
        while col < n
            invariant
                row < n,
                col <= n,
                before.len() == row * n,
                out@.len() == row * n + col,
                forall|x: int| 0 <= x < before.len() ==> out@[x] == before[x],
                forall|j: int|
                    0 <= j < col ==> out@[#[trigger] at2(row as int, j, n as int)] == attends(
                        row as int,
                        j,
                        window,
                    ),
            decreases n - col,
        {
            let near = match window {
                Some(w) => col > row || row - col < w,
                None => true,
            };
            let ghost o = out@;
            out.push(col <= row && near);
            assert forall|j: int| 0 <= j < col + 1 implies out@[#[trigger] at2(
                row as int,
                j,
                n as int,
            )] == attends(row as int, j, window) by {
                if j < col {
                    assert(out@[at2(row as int, j, n as int)] == o[at2(row as int, j, n as int)]);
                }
            }
            col = col + 1;
        }
        proof {
            assert((row + 1) * n == row * n + n) by (nonlinear_arith);
            assert forall|i: int, j: int| 0 <= i < row + 1 && 0 <= j < n implies out@[
                #[trigger] at2(i, j, n as int)] == attends(i, j, window) by {
                if i < row {
                    at2_inside(i, j, row as int, n as int);
                    assert(before[at2(i, j, n as int)] == attends(i, j, window));
                }
            }
        }
        row = row + 1;
    }
    out
}

} // verus!
