//! Where elements lie and what is refused, for every shape.

use crate::attention::{span_fault, Decode};
use crate::block::{left_pad, operand_dims, ConvShape, Expr};
use crate::block_cache::{block_fault, run_fault, with_room, KeyView};
use crate::conv::{reach, tap_sample};
use crate::elementwise::{folded_fault, heads_fault, nlc_snake_fault};
use crate::gate::{is_expected, right_tags, right_tokens, Expected};
use crate::launch::{
    byte_offset, cache_fault, causal_fault, conv_fault, draws_fault, gather_gain, graph_gain,
    graph_takes, low32, nlc_fault, operand_fault, rope_fits, sample_fault, size_of_dtype, tap_columns, tap_fault, width_for, word_offset, Dtype, Operand, TapKernel,
};
use crate::skinny::few_rows;
use crate::stats::{bytes_of_product, capped_sum};
use crate::stft::mirrored;
use crate::tensor::{attends, tap_value};
use crate::tokenize::TokenView;
use crate::upconv::out_len;
use vstd::prelude::*;

verus! {

/// Tap `t` of column `l` sees the sample `t` dilations behind the first one that the column sees,
/// and that lies the left padding before the column itself; outside the signal it sees the zero.
pub proof fn taps_see_samples<T>(
    x: Seq<T>,
    len: int,
    dilation: int,
    pad_left: int,
    t: int,
    c: int,
    l: int,
    zero: T,
)
    ensures
        ({
            let s = l - pad_left + t * dilation;
            let v = tap_value(x, len, dilation, pad_left, t, c, l, zero);
            &&& 0 <= s < len ==> v == x[c * len + s]
            &&& s < 0 || s >= len ==> v == zero
        }),
{
}

/// A causal column sees nothing behind itself: its last tap sees its own sample, and its first the
/// one that lies the whole reach before.
pub proof fn causal_taps_look_back(t: int, j: int, k: int, dilation: int)
    requires
        0 <= j < k,
        dilation >= 0,
    ensures
        reach(k, dilation) == (k - 1) * dilation,
        tap_sample(t, k - 1, dilation, reach(k, dilation)) == t,
        tap_sample(t, 0, dilation, reach(k, dilation)) == t - (k - 1) * dilation,
        tap_sample(t, j, dilation, reach(k, dilation)) <= t,
        tap_sample(t, j + 1, dilation, reach(k, dilation)) - tap_sample(
            t,
            j,
            dilation,
            reach(k, dilation),
        ) == dilation,
{
    assert(j * dilation <= (k - 1) * dilation) by (nonlinear_arith)
        requires
            j <= k - 1,
            dilation >= 0,
    ;
    assert((j + 1) * dilation == j * dilation + dilation) by (nonlinear_arith);
}

/// A query attends to itself and to what came before it, never to what comes; with a window only to
/// the last so many.
pub proof fn queries_look_back(row: int, col: int, w: usize)
    ensures
        col > row ==> !attends(row, col, None) && !attends(row, col, Some(w)),
        col <= row ==> attends(row, col, None),
        w > 0 ==> attends(row, row, Some(w)),
        attends(row, col, Some(w)) <==> row - w < col <= row,
        attends(row + 1, col + 1, Some(w)) == attends(row, col, Some(w)),
{
}

/// A position outside a signal is mirrored at its first or last sample, which are not repeated.
pub proof fn signals_are_mirrored(d: int, len: int)
    requires
        0 < d < len,
    ensures
        mirrored(-d, len) == d,
        mirrored(len - 1 + d, len) == len - 1 - d,
        mirrored(d, len) == d,
        mirrored(0, len) == 0,
        mirrored(len - 1, len) == len - 1,
{
}

/// Every input sample adds one stride to the output of a transposed convolution, and a single one
/// gives the kernel without the padding on both sides, with the padding of the output.
pub proof fn outputs_grow_by_the_stride(l_in: int, stride: int, padding: int, k: int, extra: int)
    ensures
        out_len(l_in + 1, stride, padding, k, extra) - out_len(l_in, stride, padding, k, extra)
            == stride,
        out_len(1, stride, padding, k, extra) == k - 2 * padding + extra,
{
    assert((l_in + 1 - 1) * stride == (l_in - 1) * stride + stride) by (nonlinear_arith);
}

impl Decode {
    /// The queries, the cached positions and the scores lie one after the other: groups within a
    /// head, positions within a head, and heads one whole block apart.
    pub proof fn rows_lie_in_order(self, bh: int, g: int, p: int)
        ensures
            self.query_at(0, 0) == 0,
            self.query_at(bh, g + 1) - self.query_at(bh, g) == self.head_dim,
            self.query_at(bh + 1, g) - self.query_at(bh, g) == self.gqa * self.head_dim,
            self.cache_at(0, 0) == 0,
            self.cache_at(bh, p + 1) - self.cache_at(bh, p) == self.head_dim,
            self.cache_at(bh + 1, p) - self.cache_at(bh, p) == self.capacity * self.head_dim,
            self.score_at(0, 0, 0) == 0,
            self.score_at(bh, g, p + 1) - self.score_at(bh, g, p) == 1,
            self.score_at(bh, g + 1, p) - self.score_at(bh, g, p) == self.span,
            self.score_at(bh + 1, g, p) - self.score_at(bh, g, p) == self.gqa * self.span,
    {
        let d = self.head_dim as int;
        let n = self.gqa as int;
        let c = self.capacity as int;
        let s = self.span as int;
        assert((bh * n + (g + 1)) * d - (bh * n + g) * d == d) by (nonlinear_arith);
        assert(((bh + 1) * n + g) * d - (bh * n + g) * d == n * d) by (nonlinear_arith);
        assert((bh * c + (p + 1)) * d - (bh * c + p) * d == d) by (nonlinear_arith);
        assert(((bh + 1) * c + p) * d - (bh * c + p) * d == c * d) by (nonlinear_arith);
        assert((bh * n + (g + 1)) * s - (bh * n + g) * s == s) by (nonlinear_arith);
        assert(((bh + 1) * n + g) * s - (bh * n + g) * s == n * s) by (nonlinear_arith);
        assert((0 * n + 0) * d == 0) by (nonlinear_arith);
        assert((0 * c + 0) * d == 0) by (nonlinear_arith);
        assert((0 * n + 0) * s + 0 == 0) by (nonlinear_arith);
    }
}

/// A step that reaches further than the cache is refused, and no other.
pub proof fn spans_fit_the_cache(span: nat, capacity: nat)
    ensures
        span_fault(span, capacity) is None <==> span <= capacity,
{
}

/// A group is as wide as it may be: no wider than the kernel permits, than 256 and than the axis, at
/// least one, and always one of these.
pub proof fn groups_are_as_wide_as_they_may_be(permitted: usize, axis: usize)
    ensures
        ({
            let w = width_for(permitted, axis);
            &&& 1 <= w <= 256
            &&& permitted >= 1 ==> w <= permitted
            &&& axis >= 1 ==> w <= axis
            &&& w == 1 || w == 256 || w == permitted || w == axis
            &&& permitted >= 256 && axis >= 256 ==> w == 256
            &&& 1 <= permitted <= 256 && axis >= permitted ==> w == permitted
            &&& 1 <= axis <= 256 && permitted >= axis ==> w == axis
        }),
{
}

/// The bytes of an element, and with them the byte at which an operand begins.
pub proof fn elements_have_sizes(start: usize)
    requires
        start * 8 <= usize::MAX,
    ensures
        size_of_dtype(Dtype::U8) == 1,
        size_of_dtype(Dtype::I16) == 2,
        size_of_dtype(Dtype::F16) == 2,
        size_of_dtype(Dtype::BF16) == 2,
        size_of_dtype(Dtype::U32) == 4,
        size_of_dtype(Dtype::I32) == 4,
        size_of_dtype(Dtype::F32) == 4,
        size_of_dtype(Dtype::I64) == 8,
        size_of_dtype(Dtype::F64) == 8,
        size_of_dtype(Dtype::F8E4M3) == 1,
        size_of_dtype(Dtype::F8E8M0) == 1,
        size_of_dtype(Dtype::F4) == 0,
        forall|o: Operand|
            o.start == start && o.dtype == Dtype::F32 ==> #[trigger] byte_offset(o) == 4 * start,
        forall|o: Operand|
            o.start == start && o.dtype == Dtype::F16 ==> #[trigger] byte_offset(o) == 2 * start,
        forall|o: Operand| o.start == start ==> #[trigger] word_offset(o) == 4 * start,
{
}

/// A kernel is given the low 32 bits of a number, which is the number itself where it fits.
pub proof fn small_numbers_are_given_as_they_are(v: usize)
    ensures
        v <= u32::MAX ==> low32(v) == v,
        (v - low32(v)) % 0x1_0000_0000 == 0,
{
}

/// Operands are taken exactly where each is contiguous and of the type that is wanted. A scattered
/// one is the fault that is named, whatever the types are.
pub proof fn operands_are_taken(op: Seq<char>, v: Seq<Operand>, wanted: Dtype)
    ensures
        operand_fault(op, v, wanted) is None <==> forall|i: int|
            0 <= i < v.len() ==> (#[trigger] v[i]).contiguous && v[i].dtype == wanted,
        (exists|i: int| 0 <= i < v.len() && !(#[trigger] v[i]).contiguous) && v.len() == 1
            ==> operand_fault(op, v, wanted) == Some(op + ": input must be contiguous"@),
        (exists|i: int| 0 <= i < v.len() && !(#[trigger] v[i]).contiguous) && v.len() != 1
            ==> operand_fault(op, v, wanted) == Some(op + ": inputs must be contiguous"@),
{
    if operand_fault(op, v, wanted) is None {
        assert forall|i: int| 0 <= i < v.len() implies (#[trigger] v[i]).contiguous && v[i].dtype
            == wanted by {
            if !v[i].contiguous {
                assert(exists|j: int| 0 <= j < v.len() && !(#[trigger] v[j]).contiguous);
            }
            if v[i].dtype != wanted {
                assert(exists|j: int| 0 <= j < v.len() && (#[trigger] v[j]).dtype != wanted);
            }
        }
    }
}

/// What the other kernels take: each is refused exactly where one of its conditions fails.
pub proof fn other_operands_are_taken(
    x: Operand,
    w: Operand,
    bias: Operand,
    a: Operand,
    b: Operand,
    k: nat,
    n: nat,
    start: nat,
    t: nat,
    capacity: nat,
)
    ensures
        nlc_fault(x, w, bias, Some((a, b)), None) is None <==> x.contiguous && w.contiguous
            && bias.contiguous && x.dtype == Dtype::F32 && w.dtype == Dtype::F32 && bias.dtype
            == Dtype::F32 && a.on_device && b.on_device,
        nlc_fault(x, w, bias, None, Some(a)) is None <==> x.contiguous && w.contiguous
            && bias.contiguous && x.dtype == Dtype::F32 && w.dtype == Dtype::F32 && bias.dtype
            == Dtype::F32 && a.on_device,
        tap_fault(x, w, Some(bias)) is None <==> x.contiguous && w.contiguous && bias.on_device,
        tap_fault(x, w, None) is None <==> x.contiguous && w.contiguous,
        conv_fault(x, w, Some(bias)) is None <==> x.contiguous && w.contiguous && x.start == 0
            && w.start == 0 && bias.on_device && bias.start == 0,
        conv_fault(x, w, None) is None <==> x.contiguous && w.contiguous && x.start == 0 && w.start
            == 0,
        folded_fault(x) is None <==> x.contiguous && x.dtype == Dtype::F32,
        nlc_snake_fault(x, a, b) is None <==> a.dtype == Dtype::F32 && b.dtype == Dtype::F32 && (
        x.dtype == Dtype::F32 || x.dtype == Dtype::F16),
        sample_fault(k, n) is None <==> 1 <= k <= 64 && k <= n <= 4096,
        draws_fault(k, n) is None <==> k == n,
        cache_fault(start, t, capacity, true) is None <==> start + t <= capacity,
        cache_fault(start, t, capacity, false) is Some,
        heads_fault(k, n, t) is None <==> k == n * t,
        tap_columns(TapKernel::Shared) == 64,
        tap_columns(TapKernel::Registers) == 128,
{
    let three = seq![x, w, bias];
    operands_are_taken("nlc_conv"@, three, Dtype::F32);
    assert(three[0] == x && three[1] == w && three[2] == bias);
    if x.contiguous && w.contiguous && bias.contiguous && x.dtype == Dtype::F32 && w.dtype
        == Dtype::F32 && bias.dtype == Dtype::F32 {
        assert forall|i: int| 0 <= i < three.len() implies (#[trigger] three[i]).contiguous
            && three[i].dtype == Dtype::F32 by {}
    }
    let two = seq![x, w];
    assert(two[0] == x && two[1] == w);
}

/// A causal convolution through a graph takes operands of one type, f32 or f16, from the start of
/// their buffers.
pub proof fn causal_operands_are_taken(v: Seq<Operand>)
    requires
        v.len() > 0,
    ensures
        causal_fault(v) is None <==> {
            &&& v[0].dtype == Dtype::F32 || v[0].dtype == Dtype::F16
            &&& forall|i: int|
                0 <= i < v.len() ==> (#[trigger] v[i]).contiguous && v[i].start == 0 && v[i].dtype
                    == v[0].dtype
        },
{
    if causal_fault(v) is None {
        assert forall|i: int| 0 <= i < v.len() implies (#[trigger] v[i]).contiguous && v[i].start
            == 0 && v[i].dtype == v[0].dtype by {
            if !(v[i].contiguous && v[i].start == 0) {
                assert(exists|j: int|
                    0 <= j < v.len() && !((#[trigger] v[j]).contiguous && v[j].start == 0));
            }
            if v[i].dtype != v[0].dtype {
                assert(exists|j: int|
                    0 <= j < v.len() && (#[trigger] v[j]).dtype != v[0].dtype);
            }
        }
    }
}

/// A block runs on at least one and at most all of its samples, with two convolutions for each pair,
/// and on operands that lie whole on the device.
pub proof fn blocks_run(valid: nat, len: nat, convs: nat, pairs: nat, x: Operand, rest: Seq<Operand>)
    ensures
        run_fault(valid, len, convs, pairs) is None <==> 1 <= valid <= len && convs == 2 * pairs,
        block_fault(x, rest) is None <==> {
            &&& x.contiguous && x.start == 0
            &&& forall|i: int|
                0 <= i < rest.len() ==> (#[trigger] rest[i]).contiguous && rest[i].start == 0
                    && rest[i].on_device
        },
{
    all_are_fed(rest, 0);
}

proof fn all_are_fed(v: Seq<Operand>, i: int)
    requires
        0 <= i,
    ensures
        crate::block_cache::feed_fault(v, i) is None <==> forall|k: int|
            i <= k < v.len() ==> (#[trigger] v[k]).contiguous && v[k].start == 0 && v[k].on_device,
    decreases v.len() - i,
{
    if i < v.len() {
        all_are_fed(v, i + 1);
        if v[i].contiguous && v[i].start == 0 && v[i].on_device {
            if crate::block_cache::feed_fault(v, i + 1) is None {
                assert forall|k: int| i <= k < v.len() implies (#[trigger] v[k]).contiguous
                    && v[k].start == 0 && v[k].on_device by {}
            }
        }
    }
}

/// A full cache makes room by letting its oldest entries go: at most five stay, the latest, in their
/// order.
pub proof fn the_oldest_entries_go<V>(v: Seq<((KeyView, usize), V)>)
    ensures
        v.len() <= 5 ==> with_room(v) == v,
        v.len() > 5 ==> with_room(v).len() == 5 && with_room(v) == v.skip(v.len() - 5),
{
}

/// A convolution is centred: the zeros on both sides make up its reach, and the right side has the
/// odd one.
pub proof fn convolutions_are_centred(s: ConvShape)
    requires
        s.k >= 1,
    ensures
        ({
            let whole = (s.k - 1) * s.dilation;
            let right = whole - left_pad(s);
            &&& left_pad(s) + right == whole
            &&& 0 <= right - left_pad(s) <= 1
        }),
{
    let whole = (s.k - 1) * s.dilation;
    assert(whole >= 0) by (nonlinear_arith)
        requires
            whole == (s.k - 1) * s.dilation,
            s.k >= 1,
            s.dilation >= 0,
    ;
}

/// The operands of a block: the signal, four parameters per channel for each normalisation, the
/// mask, one over the number of samples, and then for each convolution its weights, tap by tap, and
/// its bias.
pub proof fn operands_of_a_block(
    i: int,
    channels: int,
    pairs: Seq<(ConvShape, ConvShape)>,
    len: i64,
)
    requires
        0 <= i < pairs.len(),
    ensures
        ({
            let c = channels as i64;
            &&& operand_dims(0, channels, pairs, len) == seq![1i64, c, 1i64, len]
            &&& operand_dims(1, channels, pairs, len) == seq![
                (2 * pairs.len()) as i64,
                4i64,
                c,
            ]
            &&& operand_dims(2, channels, pairs, len) == seq![1i64, 1i64, 1i64, len]
            &&& operand_dims(3, channels, pairs, len) == seq![1i64, 1i64, 1i64, 1i64]
            &&& operand_dims(4 + 4 * i, channels, pairs, len) == seq![
                1i64,
                pairs[i].0.k as i64,
                c,
                c,
            ]
            &&& operand_dims(5 + 4 * i, channels, pairs, len) == seq![1i64, c, 1i64, 1i64]
            &&& operand_dims(6 + 4 * i, channels, pairs, len) == seq![
                1i64,
                pairs[i].1.k as i64,
                c,
                c,
            ]
            &&& operand_dims(7 + 4 * i, channels, pairs, len) == seq![1i64, c, 1i64, 1i64]
        }),
{
    assert((4 + 4 * i - 4) / 2 == 2 * i && (2 * i) % 2 == 0 && (2 * i) / 2 == i);
    assert((6 + 4 * i - 4) / 2 == 2 * i + 1 && (2 * i + 1) % 2 == 1 && (2 * i + 1) / 2 == i);
}

/// Counters stop at the top and never turn over, and a product moves its operands and its result.
pub proof fn counters_stop_at_the_top(a: u64, b: u64, m: int, k: int, n: int, x: int, w: int, y: int)
    ensures
        capped_sum(a as int, b as int) <= u64::MAX,
        capped_sum(a as int, b as int) >= a,
        a + b <= u64::MAX ==> capped_sum(a as int, b as int) == a + b,
        a + b > u64::MAX ==> capped_sum(a as int, b as int) == u64::MAX,
        bytes_of_product(m, k, n, x, 0, 0) == m * k * x,
        bytes_of_product(m, k, n, 0, w, 0) == k * n * w,
        bytes_of_product(m, k, n, 0, 0, y) == m * n * y,
        bytes_of_product(m, k, n, x, w, y) == m * k * x + k * n * w + m * n * y,
{
    assert(m * k * 0 == 0 && k * n * 0 == 0 && m * n * 0 == 0);
}

/// All tokens of a line are right exactly where each has the text and the white space expected of
/// it.
pub proof fn right_lines(v: Seq<TokenView>, e: Seq<Expected>, n: int)
    requires
        0 <= n <= v.len(),
        n <= e.len(),
    ensures
        right_tokens(v, e, n) <= n,
        right_tokens(v, e, n) == n <==> forall|i: int|
            0 <= i < n ==> (#[trigger] v[i]).text == e[i].text@ && v[i].whitespace
                == e[i].whitespace@,
    decreases n,
{
    if n > 0 {
        right_lines(v, e, n - 1);
        if right_tokens(v, e, n) == n {
            assert(is_expected(v[n - 1], e[n - 1]));
            assert forall|i: int| 0 <= i < n implies (#[trigger] v[i]).text == e[i].text@
                && v[i].whitespace == e[i].whitespace@ by {}
        }
    }
}

/// All tags of a line are right exactly where each is the one expected.
pub proof fn right_tag_lines(v: Seq<String>, e: Seq<Expected>, n: int)
    requires
        0 <= n <= v.len(),
        n <= e.len(),
    ensures
        right_tags(v, e, n) <= n,
        right_tags(v, e, n) == n <==> forall|i: int|
            0 <= i < n ==> (#[trigger] v[i])@ == e[i].tag@,
    decreases n,
{
    if n > 0 {
        right_tag_lines(v, e, n - 1);
        if right_tags(v, e, n) == n {
            assert(v[n - 1]@ == e[n - 1].tag@);
            assert forall|i: int| 0 <= i < n implies (#[trigger] v[i])@ == e[i].tag@ by {}
        }
    }
}

/// A frame covers exactly the positions of its window: as many as the transform is long, from where
/// the frame begins, and the next frame covers the same ones a hop later.
pub proof fn frames_cover_their_window(f: int, g: int, n_fft: int, hop: int)
    ensures
        crate::stft::covers(f, g, n_fft, hop) <==> 0 <= g - f * hop < n_fft,
        crate::stft::covers(f + 1, g + hop, n_fft, hop) == crate::stft::covers(f, g, n_fft, hop),
{
    assert((f + 1) * hop == f * hop + hop) by (nonlinear_arith);
}

impl crate::stft::Geometry {
    /// A transform of an even length has half as many bins as samples and one more, and the signal is
    /// padded by half its length.
    pub proof fn bins_and_padding(self)
        requires
            self.n_fft % 2 == 0,
        ensures
            2 * (self.bin_count() - 1) == self.n_fft,
            2 * self.padding() == self.n_fft,
    {
    }
}

/// The volume of a shape is the product of its dimensions, however it is divided.
pub proof fn volumes_multiply(a: Seq<usize>, b: Seq<usize>, d: usize)
    ensures
        crate::matmul::volume(a + b) == crate::matmul::volume(a) * crate::matmul::volume(b),
        crate::matmul::volume(seq![d]) == d,
        crate::matmul::volume(Seq::<usize>::empty()) == 1,
    decreases b.len(),
{
    assert(seq![d].drop_last() =~= Seq::<usize>::empty());
    assert(seq![d].last() == d);
    assert(crate::matmul::volume(Seq::<usize>::empty()) == 1);
    assert(1 * (d as int) == d as int);
    assert(crate::matmul::volume(seq![d]) == crate::matmul::volume(Seq::<usize>::empty()) * d);
    let va = crate::matmul::volume(a);
    if b.len() == 0 {
        assert(a + b =~= a);
        assert(va * 1 == va);
    } else {
        let t = b.drop_last();
        volumes_multiply(a, t, d);
        assert((a + b).drop_last() =~= a + t);
        assert((a + b).last() == b.last());
        let vt = crate::matmul::volume(t);
        let l = b.last() as int;
        assert((va * vt) * l == va * (vt * l)) by (nonlinear_arith);
    }
}

/// The rows of a table are laid out in the order in which they are asked for, each as it stands.
pub proof fn rows_are_gathered_in_order(data: Seq<u8>, row: int, a: Seq<u32>, b: Seq<u32>, id: u32)
    ensures
        crate::tensor::rows_of(data, row, a + b) == crate::tensor::rows_of(data, row, a)
            + crate::tensor::rows_of(data, row, b),
        crate::tensor::rows_of(data, row, seq![id]) == data.subrange(id * row, (id + 1) * row),
        crate::tensor::has_row(data, row, id) <==> (id + 1) * row <= data.len(),
    decreases b.len(),
{
    assert((id + 1) * row == id * row + row) by (nonlinear_arith);
    let one = seq![id];
    assert(one.drop_last() =~= Seq::<u32>::empty());
    assert(one.last() == id);
    assert(crate::tensor::rows_of(data, row, Seq::<u32>::empty()) =~= Seq::<u8>::empty());
    assert(crate::tensor::rows_of(data, row, one) =~= data.subrange(id * row, (id + 1) * row));
    if b.len() == 0 {
        assert(a + b =~= a);
        assert(crate::tensor::rows_of(data, row, a) + crate::tensor::rows_of(data, row, b)
            =~= crate::tensor::rows_of(data, row, a));
    } else {
        rows_are_gathered_in_order(data, row, a, b.drop_last(), id);
        assert((a + b).drop_last() =~= a + b.drop_last());
        assert((a + b).last() == b.last());
        assert(crate::tensor::rows_of(data, row, a + b) =~= crate::tensor::rows_of(data, row, a)
            + crate::tensor::rows_of(data, row, b));
    }
}

/// The buffers of a convolution with the channels last: three that it always has, in the first
/// slots, and three more from the tenth on, for which the signal stands in where they are missing.
pub proof fn slots_of_a_convolution(
    x: Operand,
    w: Operand,
    bias: Operand,
    snake: Option<(Operand, Operand)>,
    residual: Option<Operand>,
)
    requires
        x.start * 4 <= usize::MAX,
        w.start * 4 <= usize::MAX,
        bias.start * 4 <= usize::MAX,
        snake is Some ==> snake.unwrap().0.start * 4 <= usize::MAX && snake.unwrap().1.start * 4
            <= usize::MAX,
        residual is Some ==> residual.unwrap().start * 4 <= usize::MAX,
    ensures
        ({
            let v = crate::launch::nlc_buffers(x, w, bias, snake, residual);
            &&& v.len() == 6
            &&& v[0].slot == 0 && v[0].operand == 0 && v[0].offset == 4 * x.start
            &&& v[1].slot == 1 && v[1].operand == 1 && v[1].offset == 4 * w.start
            &&& v[2].slot == 2 && v[2].operand == 2 && v[2].offset == 4 * bias.start
            &&& v[3].slot == 10 && v[4].slot == 11 && v[5].slot == 12
            &&& snake is Some ==> v[3].operand == 3 && v[3].offset == 4 * snake.unwrap().0.start
                && v[4].operand == 4 && v[4].offset == 4 * snake.unwrap().1.start
            &&& snake is None ==> v[3].operand == 0 && v[3].offset == 0 && v[4].operand == 0
                && v[4].offset == 0
            &&& residual is Some ==> v[5].operand == 5 && v[5].offset == 4 * residual.unwrap().start
            &&& residual is None ==> v[5].operand == 0 && v[5].offset == 0
        }),
{
}

/// Operands that take the first slots take them in their order, each at its own byte; numbers take
/// the slots behind.
pub proof fn slots_are_taken_in_order(v: Seq<Operand>, values: Seq<usize>, first: usize, i: int)
    requires
        v.len() <= usize::MAX,
        first + values.len() <= usize::MAX,
    ensures
        0 <= i < v.len() ==> {
            let b = crate::launch::bound_in_order(v)[i];
            b.slot == i && b.operand == i && b.offset == byte_offset(v[i])
        },
        0 <= i < values.len() ==> {
            let n = crate::launch::given_from(first as int, values)[i];
            n.slot == first + i && n.value == low32(values[i])
        },
{
}

/// The value of an expression for a signal of a single valid sample: input `n` is `inputs(n)`, entry
/// `j` of normalisation `k` is `params(k, j)`, a sum is its one term, and a convolution, a sine and a
/// root are whatever they are.
pub open spec fn single_value(
    e: Expr,
    inputs: spec_fn(int) -> int,
    params: spec_fn(int, int) -> int,
    eps: int,
    root: spec_fn(int) -> int,
    sine: spec_fn(int) -> int,
    conv: spec_fn(int, int) -> int,
) -> int
    decreases e,
{
    match e {
        Expr::Input(n) => inputs(n),
        Expr::One => 1,
        Expr::Eps => eps,
        Expr::Mul(a, b) => single_value(*a, inputs, params, eps, root, sine, conv) * single_value(
            *b,
            inputs,
            params,
            eps,
            root,
            sine,
            conv,
        ),
        Expr::Add(a, b) => single_value(*a, inputs, params, eps, root, sine, conv) + single_value(
            *b,
            inputs,
            params,
            eps,
            root,
            sine,
            conv,
        ),
        Expr::Sub(a, b) => single_value(*a, inputs, params, eps, root, sine, conv) - single_value(
            *b,
            inputs,
            params,
            eps,
            root,
            sine,
            conv,
        ),
        Expr::Param(_, k, j) => params(k, j),
        Expr::Sum(a) => single_value(*a, inputs, params, eps, root, sine, conv),
        Expr::ReciprocalSqrt(a) => root(single_value(*a, inputs, params, eps, root, sine, conv)),
        Expr::Sin(a) => sine(single_value(*a, inputs, params, eps, root, sine, conv)),
        Expr::Conv(a, b, _, _, _) => conv(
            single_value(*a, inputs, params, eps, root, sine, conv),
            single_value(*b, inputs, params, eps, root, sine, conv),
        ),
    }
}

/// A single valid sample is its own mean: normalised, it is the shift of the normalisation, and the
/// snake of that is the shift and the squared sine of alpha times it, over beta.
pub proof fn a_single_sample_is_normalised_to_the_shift(
    x: Expr,
    k: int,
    inputs: spec_fn(int) -> int,
    params: spec_fn(int, int) -> int,
    eps: int,
    root: spec_fn(int) -> int,
    sine: spec_fn(int) -> int,
    conv: spec_fn(int, int) -> int,
)
    requires
        inputs(2) == 1,
        inputs(3) == 1,
    ensures
        single_value(crate::block::deviation(x), inputs, params, eps, root, sine, conv) == 0,
        single_value(crate::block::adain(x, k), inputs, params, eps, root, sine, conv) == params(k, 1),
        single_value(crate::block::adain_snake(x, k), inputs, params, eps, root, sine, conv)
            == params(k, 1) + params(k, 3) * (sine(params(k, 1) * params(k, 2)) * sine(
            params(k, 1) * params(k, 2),
        )),
{
    reveal_with_fuel(single_value, 8);
    let v = single_value(x, inputs, params, eps, root, sine, conv);
    assert((v - v * 1 * 1) * 1 == 0);
    let d = crate::block::deviation(x);
    let dv = single_value(d, inputs, params, eps, root, sine, conv);
    assert(dv == 0);
    let a = crate::block::adain(x, k);
    let av = single_value(a, inputs, params, eps, root, sine, conv);
    let scale = root(dv * dv * 1 + eps) * (params(k, 0) + 1);
    assert(av == dv * scale + params(k, 1));
    assert(dv * scale == 0) by (nonlinear_arith)
        requires
            dv == 0,
    ;
    assert(av == params(k, 1));
    let s = Expr::Sin(Box::new(crate::block::times(a, crate::block::param(k, 2))));
    let sv = single_value(s, inputs, params, eps, root, sine, conv);
    assert(sv == sine(av * params(k, 2)));
    let square = crate::block::times(crate::block::param(k, 3), crate::block::times(s, s));
    assert(single_value(square, inputs, params, eps, root, sine, conv) == params(k, 3) * (sv * sv));
    let sum = crate::block::plus(a, square);
    let total = single_value(sum, inputs, params, eps, root, sine, conv);
    assert(total == av + params(k, 3) * (sv * sv));
    assert(single_value(crate::block::mask(), inputs, params, eps, root, sine, conv) == 1);
    assert(total * 1 == total);
    assert(crate::block::adain_snake(x, k) == crate::block::times(sum, crate::block::mask()));
}

/// Past the valid samples, where the mask is zero, a deviation and a snake are zero whatever the
/// signal is.
pub proof fn nothing_lies_past_the_valid_samples(
    x: Expr,
    k: int,
    inputs: spec_fn(int) -> int,
    params: spec_fn(int, int) -> int,
    eps: int,
    root: spec_fn(int) -> int,
    sine: spec_fn(int) -> int,
    conv: spec_fn(int, int) -> int,
)
    requires
        inputs(2) == 0,
    ensures
        single_value(crate::block::deviation(x), inputs, params, eps, root, sine, conv) == 0,
        single_value(crate::block::adain_snake(x, k), inputs, params, eps, root, sine, conv) == 0,
{
    reveal_with_fuel(single_value, 3);
    let m = single_value(crate::block::mask(), inputs, params, eps, root, sine, conv);
    assert(m == 0);
    let a = crate::block::minus(
        x,
        crate::block::times(
            crate::block::total(crate::block::times(x, crate::block::mask())),
            crate::block::inv_n(),
        ),
    );
    let av = single_value(a, inputs, params, eps, root, sine, conv);
    assert(av * m == 0) by (nonlinear_arith)
        requires
            m == 0,
    ;
    let y = crate::block::adain(x, k);
    let s = Expr::Sin(Box::new(crate::block::times(y, crate::block::param(k, 2))));
    let sum = crate::block::plus(
        y,
        crate::block::times(crate::block::param(k, 3), crate::block::times(s, s)),
    );
    let total = single_value(sum, inputs, params, eps, root, sine, conv);
    assert(crate::block::adain_snake(x, k) == crate::block::times(sum, crate::block::mask()));
    assert(total * m == 0) by (nonlinear_arith)
        requires
            m == 0,
    ;
}

/// Normalisation scales the deviation by one over its standard deviation and by gamma and one, and
/// shifts it by beta: for a single sample under any mask and any count.
pub proof fn normalisation_scales_and_shifts(
    x: Expr,
    k: int,
    inputs: spec_fn(int) -> int,
    params: spec_fn(int, int) -> int,
    eps: int,
    root: spec_fn(int) -> int,
    sine: spec_fn(int) -> int,
    conv: spec_fn(int, int) -> int,
)
    ensures
        ({
            let v = single_value(x, inputs, params, eps, root, sine, conv);
            let d = (v - v * inputs(2) * inputs(3)) * inputs(2);
            &&& single_value(crate::block::deviation(x), inputs, params, eps, root, sine, conv) == d
            &&& single_value(crate::block::adain(x, k), inputs, params, eps, root, sine, conv) == d * (
            root(d * d * inputs(3) + eps) * (params(k, 0) + 1)) + params(k, 1)
        }),
{
    reveal_with_fuel(single_value, 8);
}

/// A convolution of a block has its own weights and its own bias, and each pair adds what it makes of
/// the signal to the signal: the second convolution behind the first, each behind its own snake.
pub proof fn pairs_add_to_the_signal(
    pairs: Seq<(ConvShape, ConvShape)>,
    i: int,
    inputs: spec_fn(int) -> int,
    params: spec_fn(int, int) -> int,
    eps: int,
    root: spec_fn(int) -> int,
    sine: spec_fn(int) -> int,
    conv: spec_fn(int, int) -> int,
)
    requires
        0 <= i < pairs.len(),
        inputs(2) == 1,
        inputs(3) == 1,
    ensures
        ({
            let x = single_value(
                crate::block::block(pairs, i),
                inputs,
                params,
                eps,
                root,
                sine,
                conv,
            );
            let y = single_value(
                crate::block::block(pairs, i + 1),
                inputs,
                params,
                eps,
                root,
                sine,
                conv,
            );
            let b = params(2 * i + 1, 1);
            let s = sine(b * params(2 * i + 1, 2));
            y == conv(b + params(2 * i + 1, 3) * (s * s), inputs(6 + 4 * i)) + inputs(7 + 4 * i) + x
        }),
        single_value(crate::block::block(pairs, 0), inputs, params, eps, root, sine, conv) == inputs(
            0,
        ),
{
    let x = crate::block::block(pairs, i);
    let t = crate::block::convolved(
        crate::block::adain_snake(x, 2 * i),
        2 * i,
        pairs[i].0,
    );
    let u = crate::block::adain_snake(t, 2 * i + 1);
    a_single_sample_is_normalised_to_the_shift(
        t,
        2 * i + 1,
        inputs,
        params,
        eps,
        root,
        sine,
        conv,
    );
    let y = crate::block::convolved(u, 2 * i + 1, pairs[i].1);
    assert(crate::block::block(pairs, i + 1) == crate::block::plus(y, x));
    reveal_with_fuel(single_value, 4);
    assert(4 + 2 * (2 * i + 1) == 6 + 4 * i && 5 + 2 * (2 * i + 1) == 7 + 4 * i);
}

/// A convolution of a block sees its input padded to its reach, and takes weights and bias by its
/// number.
pub proof fn convolutions_are_numbered(x: Expr, n: int, s: ConvShape)
    ensures
        crate::block::convolved(x, n, s) matches Expr::Add(a, b) && *b == Expr::Input(5 + 2 * n) && (
        *a matches Expr::Conv(y, w, d, l, r) && *y == x && *w == Expr::Input(4 + 2 * n) && d
            == s.dilation && l + r == (s.k - 1) * s.dilation && l == left_pad(s)),
{
}

/// A node computes its own operation on what its operands compute, in their order.
pub proof fn nodes_compute_their_operation(
    nodes: Seq<crate::block::Op>,
    a: usize,
    b: usize,
    k: usize,
    j: usize,
    d: usize,
    l: usize,
    r: usize,
)
    requires
        crate::block::well_formed(nodes),
        a < nodes.len(),
        b < nodes.len(),
    ensures
        ({
            let n = nodes.len() as int;
            let x = Box::new(crate::block::meaning(nodes, a as int));
            let y = Box::new(crate::block::meaning(nodes, b as int));
            &&& crate::block::meaning(nodes.push(crate::block::Op::Mul(a, b)), n) == Expr::Mul(x, y)
            &&& crate::block::meaning(nodes.push(crate::block::Op::Add(a, b)), n) == Expr::Add(x, y)
            &&& crate::block::meaning(nodes.push(crate::block::Op::Sub(a, b)), n) == Expr::Sub(x, y)
            &&& crate::block::meaning(nodes.push(crate::block::Op::Sum(a)), n) == Expr::Sum(x)
            &&& crate::block::meaning(nodes.push(crate::block::Op::Sin(a)), n) == Expr::Sin(x)
            &&& crate::block::meaning(nodes.push(crate::block::Op::ReciprocalSqrt(a)), n)
                == Expr::ReciprocalSqrt(x)
            &&& crate::block::meaning(nodes.push(crate::block::Op::Param(a, k, j)), n) == Expr::Param(
                x,
                k as int,
                j as int,
            )
            &&& crate::block::meaning(nodes.push(crate::block::Op::Conv(a, b, d, l, r)), n)
                == Expr::Conv(x, y, d as int, l as int, r as int)
            &&& crate::block::meaning(nodes.push(crate::block::Op::One), n) == Expr::One
            &&& crate::block::meaning(nodes.push(crate::block::Op::Eps), n) == Expr::Eps
        }),
{
    crate::block::new_node_means(nodes, crate::block::Op::Mul(a, b));
    crate::block::new_node_means(nodes, crate::block::Op::Add(a, b));
    crate::block::new_node_means(nodes, crate::block::Op::Sub(a, b));
    crate::block::new_node_means(nodes, crate::block::Op::Sum(a));
    crate::block::new_node_means(nodes, crate::block::Op::Sin(a));
    crate::block::new_node_means(nodes, crate::block::Op::ReciprocalSqrt(a));
    crate::block::new_node_means(nodes, crate::block::Op::Param(a, k, j));
    crate::block::new_node_means(nodes, crate::block::Op::Conv(a, b, d, l, r));
    crate::block::new_node_means(nodes, crate::block::Op::One);
    crate::block::new_node_means(nodes, crate::block::Op::Eps);
}

/// A bin of an even transform stands for two where the bin of the opposite frequency is another
/// one, and for itself alone where it is not.
pub proof fn bins_stand_for_their_mirrors(g: crate::stft::Geometry, k: int)
    requires
        g.n_fft % 2 == 0,
        g.n_fft >= 2,
        0 <= k < g.bin_count(),
    ensures
        g.pair_count(k) == (if (g.n_fft - k) % g.n_fft as int == k {
            1int
        } else {
            2
        }),
{
    let n = g.n_fft as int;
    if k == 0 {
        assert(n % n == 0);
    } else {
        vstd::arithmetic::div_mod::lemma_small_mod((n - k) as nat, n as nat);
    }
}

/// A graph that wins a convolution wins it over every longer signal and over every shorter
/// reduction. It wins from 4096 samples on, up to 384 channels and up to 2048 terms in a sum,
/// one signal at a time and never where there is one tap alone.
pub proof fn graphs_win_long_signals(b: int, len: int, cin: int, k: int, more: int, fewer: int)
    requires
        0 <= len,
        0 <= cin,
        0 <= k,
        0 <= more,
        0 <= fewer <= cin,
    ensures
        graph_gain(b, len, cin, k) ==> graph_gain(b, len + more, cin, k) && graph_gain(
            b,
            len,
            fewer,
            k,
        ),
        graph_gain(b, len, cin, k) ==> graph_gain(b, 4096, cin, k) && !graph_gain(b, 4095, cin, k),
        graph_gain(b, len, cin, k) ==> b == 1 && k >= 2,
        !graph_gain(b, len, 385, k),
        cin * k == 2049 ==> !graph_gain(b, len, cin, k),
        cin * k == 2048 && 2 <= k && cin <= 384 ==> graph_gain(1, 4096, cin, k),
        graph_gain(1, 4096, 384, 2),
        graph_gain(1, 4096, 1, 2),
{
    assert(fewer * k <= cin * k) by (nonlinear_arith)
        requires
            fewer <= cin,
            0 <= k,
    ;
}

/// The kernel that gathers its taps wins whole tiles of 32 channels alone, on either side, and
/// one signal of at least 4096 samples.
pub proof fn gathering_wins_whole_tiles(b: int, i: int, o: int, cin: int, cout: int, len: int)
    requires
        0 <= len,
    ensures
        gather_gain(1, 32 * i, 32 * o, 4096),
        gather_gain(b, cin, cout, len) ==> gather_gain(b, cin + 32 * i, cout + 32 * o, len + 1),
        gather_gain(b, cin, cout, len) ==> b == 1 && !gather_gain(b, cin, cout, 4095),
        0 < cin - 32 * i < 32 || 0 < cout - 32 * o < 32 ==> !gather_gain(b, cin, cout, len),
{
}

/// A graph takes one signal of channels by samples, of its least length or more, and weights of
/// three dimensions.
pub proof fn graphs_take_one_signal(b: usize, c: usize, n: usize, v: Seq<usize>, rank: int, least: int)
    ensures
        graph_takes(seq![1, c, n], 3, least) == (least <= n),
        b != 1 ==> !graph_takes(seq![b, c, n], 3, least),
        v.len() != 3 || rank != 3 ==> !graph_takes(v, rank, least),
{
}

/// The kernel for few rows takes 8, 16 and so on up to 48 of them, and columns and terms in
/// whole tiles of 64 and 32.
pub proof fn few_rows_come_in_tiles(m: int, k: int, n: int, i: int, j: int, t: int)
    ensures
        few_rows(8 * i, 32 * j, 64 * t) == (i <= 6),
        0 < m - 8 * i < 8 || 0 < k - 32 * j < 32 || 0 < n - 64 * t < 64 ==> !few_rows(m, k, n),
{
}

/// The fused kernel and the one that rotates both want f32 beside an f16 cache, and heads of 128
/// elements; the fused one serves one query per key or two.
pub proof fn fused_kernels_want_heads_of_128(d: Decode, query: Dtype, cache: Dtype, dim: int)
    ensures
        d.fuses(query, cache) ==> rope_fits(query, cache, d.head_dim as int),
        rope_fits(query, cache, dim) ==> query == Dtype::F32 && cache == Dtype::F16 && dim == 128,
        rope_fits(Dtype::F32, Dtype::F16, 128),
        d.head_dim == 128 ==> d.fuses(Dtype::F32, Dtype::F16) == (d.gqa == 1 || d.gqa == 2),
{
}

/// A chunk brings along no more of its neighbours than the padding on that side, and no less
/// where the signal has it. Chunk `i` begins where chunk `i - 1` ends, the first at the start of
/// the signal.
pub proof fn chunks_bring_their_surroundings(
    len: int,
    width: int,
    pad_left: int,
    pad_right: int,
    start: int,
)
    requires
        0 < width,
        0 <= pad_left,
        0 <= pad_right,
        0 <= start < len,
    ensures
        ({
            let c = crate::conv::chunk_at(len, width, pad_left, pad_right, start);
            &&& c.start == start && 0 < c.width <= width && c.start + c.width <= len
            &&& c.width < width ==> c.start + c.width == len
            &&& 0 <= c.left <= pad_left && c.left <= start
            &&& c.left < pad_left ==> c.left == start
            &&& 0 <= c.right <= pad_right && start + c.width + c.right <= len
            &&& c.right < pad_right ==> start + c.width + c.right == len
        }),
{
}

/// A signal within the budget is one chunk, with nothing around it. A budget below one counts as
/// one sample.
pub proof fn short_signals_stay_whole(len: int, budget: int, pad_left: int, pad_right: int)
    requires
        0 < len,
    ensures
        len <= budget ==> crate::conv::chunks_of(len, budget, pad_left, pad_right).len() == 1,
        len <= budget ==> ({
            let c = crate::conv::chunks_of(len, budget, pad_left, pad_right)[0];
            c.start == 0 && c.width == len && c.left == 0 && c.right == 0
        }),
        budget <= 1 ==> crate::conv::width_of(budget, len) == 1,
{
    if budget <= 1 {
        crate::conv::chunks_fit_the_budget(budget, len);
    }
}

/// A phase pads no more than its windows need: where it pads at the left, its last window begins
/// with the padding, and where it pads at the right, its first window ends with it.
pub proof fn phases_pad_no_more_than_needed(
    r: int,
    stride: int,
    padding: int,
    k_size: int,
    l_in: int,
    len_p: int,
)
    requires
        0 <= r < stride,
        0 <= padding,
        0 < crate::upconv::phase_of(r, stride, padding, k_size).taps.len(),
    ensures
        ({
            let plan = crate::upconv::plan_of(
                crate::upconv::phase_of(r, stride, padding, k_size),
                l_in,
                len_p,
            );
            let n = plan.windows.len() as int;
            &&& n == crate::upconv::phase_of(r, stride, padding, k_size).taps.len()
            &&& plan.pad_left >= 0 && plan.pad_right >= 0
            &&& plan.pad_left > 0 ==> plan.windows[n - 1].from == 0
            &&& plan.pad_right > 0 ==> plan.windows[0].from + len_p == plan.pad_left + l_in
                + plan.pad_right
        }),
{
}

/// The phases serve one group alone, one signal at a time, and a result in whole strides.
pub proof fn phases_serve_whole_strides(u: crate::upconv::UpConvView, batch: int, l_in: int, groups: int)
    requires
        0 < u.stride,
        u.phases == crate::upconv::all_phases(u.stride, u.padding, u.k_size, groups),
    ensures
        u.covers(batch, l_in) ==> groups == 1 && batch == 1 && u.phases.len() == u.stride,
        u.covers(batch, l_in) ==> 0 < u.l_out(l_in) && u.l_out(l_in) % u.stride == 0,
        groups == 1 && 0 < u.l_out(l_in) && u.l_out(l_in) % u.stride == 0 ==> u.covers(1, l_in),
{
}

} // verus!
