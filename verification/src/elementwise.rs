//! The launches of the kernels that go over a tensor element by element, in one pass.

use crate::api::{decimal_text, number_text};
use crate::launch::{
    addressable, bind_in_order, bound_in_order, check_operands, dtype_name, give_from, given_from,
    group_width, operand_fault, size3, width_for, Counts, Dtype, Launch, LaunchView, Operand, Size3,
};
use crate::text::{cat, cat3};
use vstd::prelude::*;
use vstd::string::*;

verus! {

/// A launch over f32 operands that take the first slots, before the result and the numbers.
pub open spec fn element_view(
    kernel: Seq<char>,
    operands: Seq<Operand>,
    out: int,
    values: Seq<usize>,
    grid: Size3,
    group: Size3,
) -> LaunchView {
    LaunchView {
        kernel,
        buffers: bound_in_order(operands),
        result: operands.len() as int,
        out,
        out_type: Dtype::F32,
        numbers: given_from(operands.len() as int + 1, values),
        counts: Counts::Threads,
        grid,
        group,
    }
}

fn element_launch(
    op: &str,
    kernel: &'static str,
    operands: &Vec<Operand>,
    out: usize,
    values: &Vec<usize>,
    grid: Size3,
    group: Size3,
) -> (r: Result<Launch, String>)
    requires
        addressable(operands@),
        operands@.len() + values@.len() <= 16,
    ensures
        match r {
            Ok(l) => operand_fault(op@, operands@, Dtype::F32) is None && l@ == element_view(
                kernel@,
                operands@,
                out as int,
                values@,
                grid,
                group,
            ),
            Err(e) => operand_fault(op@, operands@, Dtype::F32) == Some(e@),
        },
{
    match check_operands(op, operands, Dtype::F32) {
        Err(e) => Err(e),
        Ok(_) => {
            let n: usize = operands.len();
            Ok(
                Launch {
                    kernel,
                    buffers: bind_in_order(operands),
                    result: n,
                    out,
                    out_type: Dtype::F32,
                    numbers: give_from(n + 1, values),
                    counts: Counts::Threads,
                    grid,
                    group,
                },
            )
        },
    }
}

/// What is wrong with the operand of the folded snake, if anything.
pub open spec fn folded_fault(x: Operand) -> Option<Seq<char>> {
    if !x.contiguous {
        Some("snake_folded: input must be contiguous"@)
    } else if x.dtype != Dtype::F32 {
        Some("snake_folded: only f32, got "@ + dtype_name(x.dtype))
    } else {
        None
    }
}

/// The launch of the folded snake: one thread per element.
pub fn snake_folded_launch(x: Operand, n: usize, permitted: usize) -> (r: Result<Launch, String>)
    requires
        addressable(seq![x]),
    ensures
        match r {
            Ok(l) => folded_fault(x) is None && l@ == element_view(
                "snake_folded_f32"@,
                seq![x],
                n as int,
                seq![n],
                size3(n as int, 1, 1),
                size3(width_for(permitted, n) as int, 1, 1),
            ),
            Err(e) => folded_fault(x) == Some(e@),
        },
        r matches Ok(l) ==> l@.threads_run() == l@.out,
{
    if x.contiguous && x.dtype != Dtype::F32 {
        return Err(cat("snake_folded: only f32, got ", x.dtype.name()));
    }
    assert(n * 1 * 1 == n) by (nonlinear_arith);
    let operands: Vec<Operand> = vec![x];
    assert(operands@ =~= seq![x]);
    let values: Vec<usize> = vec![n];
    assert(values@ =~= seq![n]);
    let r = element_launch(
        "snake_folded",
        "snake_folded_f32",
        &operands,
        n,
        &values,
        Size3 { width: n, height: 1, depth: 1 },
        Size3 { width: group_width(permitted, n), height: 1, depth: 1 },
    );
    proof {
        let v = seq![x];
        assert(v[0] == x);
        assert("snake_folded"@ + ": input must be contiguous"@
            =~= "snake_folded: input must be contiguous"@) by {
            reveal_strlit("snake_folded");
            reveal_strlit(": input must be contiguous");
            reveal_strlit("snake_folded: input must be contiguous");
        }
    }
    r
}

/// The launch of the snake with one parameter per channel.
pub fn snake_alpha_launch(
    x: Operand,
    alpha: Operand,
    channels: usize,
    len: usize,
    permitted: usize,
) -> (r: Result<Launch, String>)
    requires
        addressable(seq![x, alpha]),
        channels * len <= usize::MAX,
    ensures
        match r {
            Ok(l) => operand_fault("snake_alpha"@, seq![x, alpha], Dtype::F32) is None && l@ == element_view(
                "snake_alpha_f32"@,
                seq![x, alpha],
                channels * len,
                seq![len],
                size3(len as int, channels as int, 1),
                size3(width_for(permitted, len) as int, 1, 1),
            ),
            Err(e) => operand_fault("snake_alpha"@, seq![x, alpha], Dtype::F32) == Some(e@),
        },
        r matches Ok(l) ==> l@.threads_run() == l@.out,
{
    assert(channels * len >= 0) by (nonlinear_arith)
        requires
            channels >= 0,
            len >= 0,
    ;
    assert(len * channels * 1 == channels * len) by (nonlinear_arith);
    let operands: Vec<Operand> = vec![x, alpha];
    assert(operands@ =~= seq![x, alpha]);
    let values: Vec<usize> = vec![len];
    assert(values@ =~= seq![len]);
    element_launch(
        "snake_alpha",
        "snake_alpha_f32",
        &operands,
        channels * len,
        &values,
        Size3 { width: len, height: channels, depth: 1 },
        Size3 { width: group_width(permitted, len), height: 1, depth: 1 },
    )
}

/// The launch of the snake with two parameters per channel.
pub fn snake_beta_launch(
    x: Operand,
    alpha: Operand,
    beta_recip: Operand,
    channels: usize,
    len: usize,
    permitted: usize,
) -> (r: Result<Launch, String>)
    requires
        addressable(seq![x, alpha, beta_recip]),
        channels * len <= usize::MAX,
    ensures
        match r {
            Ok(l) => operand_fault("snake_beta"@, seq![x, alpha, beta_recip], Dtype::F32) is None && l@ == element_view(
                "snake_beta_f32"@,
                seq![x, alpha, beta_recip],
                channels * len,
                seq![len],
                size3(len as int, channels as int, 1),
                size3(width_for(permitted, len) as int, 1, 1),
            ),
            Err(e) => operand_fault("snake_beta"@, seq![x, alpha, beta_recip], Dtype::F32) == Some(e@),
        },
        r matches Ok(l) ==> l@.threads_run() == l@.out,
{
    assert(channels * len >= 0) by (nonlinear_arith)
        requires
            channels >= 0,
            len >= 0,
    ;
    assert(len * channels * 1 == channels * len) by (nonlinear_arith);
    let operands: Vec<Operand> = vec![x, alpha, beta_recip];
    assert(operands@ =~= seq![x, alpha, beta_recip]);
    let values: Vec<usize> = vec![len];
    assert(values@ =~= seq![len]);
    element_launch(
        "snake_beta",
        "snake_beta_f32",
        &operands,
        channels * len,
        &values,
        Size3 { width: len, height: channels, depth: 1 },
        Size3 { width: group_width(permitted, len), height: 1, depth: 1 },
    )
}

/// The launch of the gated product: one thread per element.
pub fn swiglu_launch(
    gate: Operand,
    up: Operand,
    n: usize,
    permitted: usize,
) -> (r: Result<Launch, String>)
    requires
        addressable(seq![gate, up]),
    ensures
        match r {
            Ok(l) => operand_fault("swiglu_mul"@, seq![gate, up], Dtype::F32) is None && l@ == element_view(
                "swiglu_mul_f32"@,
                seq![gate, up],
                n as int,
                seq![n],
                size3(n as int, 1, 1),
                size3(width_for(permitted, n) as int, 1, 1),
            ),
            Err(e) => operand_fault("swiglu_mul"@, seq![gate, up], Dtype::F32) == Some(e@),
        },
        r matches Ok(l) ==> l@.threads_run() == l@.out,
{
    assert(n * 1 * 1 == n) by (nonlinear_arith);
    let operands: Vec<Operand> = vec![gate, up];
    assert(operands@ =~= seq![gate, up]);
    let values: Vec<usize> = vec![n];
    assert(values@ =~= seq![n]);
    element_launch(
        "swiglu_mul",
        "swiglu_mul_f32",
        &operands,
        n,
        &values,
        Size3 { width: n, height: 1, depth: 1 },
        Size3 { width: group_width(permitted, n), height: 1, depth: 1 },
    )
}

/// What is wrong with the shape of the transposition of attention heads, if anything.
pub open spec fn heads_fault(hd: nat, heads: nat, dim: nat) -> Option<Seq<char>> {
    if hd != heads * dim {
        Some(
            "head_transpose: "@ + decimal_text(hd) + " != "@ + decimal_text(heads) + " * "@
                + decimal_text(dim),
        )
    } else {
        None
    }
}

/// Checks that rows of `hd` elements are `heads` heads of `dim`.
pub fn check_heads(hd: usize, heads: usize, dim: usize) -> (r: Result<(), String>)
    requires
        heads * dim <= usize::MAX,
    ensures
        match r {
            Ok(_) => heads_fault(hd as nat, heads as nat, dim as nat) is None,
            Err(e) => heads_fault(hd as nat, heads as nat, dim as nat) == Some(e@),
        },
{
    assert(heads * dim >= 0) by (nonlinear_arith)
        requires
            heads >= 0,
            dim >= 0,
    ;
    if hd != heads * dim {
        let mut detail = cat3("head_transpose: ", number_text(hd).as_str(), " != ");
        detail.append(number_text(heads).as_str());
        detail.append(" * ");
        detail.append(number_text(dim).as_str());
        return Err(detail);
    }
    Ok(())
}

/// The launch of the transposition of attention heads: several positions share a group where
/// one is narrow.
pub fn head_transpose_launch(
    x: Operand,
    b: usize,
    n: usize,
    heads: usize,
    dim: usize,
    permitted: usize,
) -> (r: Result<Launch, String>)
    requires
        addressable(seq![x]),
        b * heads <= usize::MAX,
        n * (b * heads) <= usize::MAX,
        n * (b * heads) * dim <= usize::MAX,
    ensures
        match r {
            Ok(l) => operand_fault("head_transpose"@, seq![x], Dtype::F32) is None && l@ == element_view(
                "head_transpose_f32"@,
                seq![x],
                n * (b * heads) * dim,
                seq![n, heads, dim],
                size3(dim as int, n as int, b * heads),
                size3(
                    width_for(permitted, dim) as int,
                    256int / width_for(permitted, dim) as int,
                    1,
                ),
            ),
            Err(e) => operand_fault("head_transpose"@, seq![x], Dtype::F32) == Some(e@),
        },
        r matches Ok(l) ==> l@.threads_run() == l@.out,
{
    assert(b * heads >= 0 && n * (b * heads) >= 0) by (nonlinear_arith)
        requires
            b >= 0,
            heads >= 0,
            n >= 0,
    ;
    let w: usize = group_width(permitted, dim);
    let layers: usize = b * heads;
    assert(dim * n * (b * heads) == n * (b * heads) * dim) by (nonlinear_arith);
    let operands: Vec<Operand> = vec![x];
    assert(operands@ =~= seq![x]);
    let values: Vec<usize> = vec![n, heads, dim];
    assert(values@ =~= seq![n, heads, dim]);
    element_launch(
        "head_transpose",
        "head_transpose_f32",
        &operands,
        n * layers * dim,
        &values,
        Size3 { width: dim, height: n, depth: layers },
        Size3 { width: w, height: 256 / w, depth: 1 },
    )
}

/// What is wrong with the operands of the snake with the channels last, if anything: its
/// parameters are f32, its signal may be f16 too.
pub open spec fn nlc_snake_fault(x: Operand, alpha: Operand, beta_recip: Operand) -> Option<
    Seq<char>,
> {
    if alpha.dtype != Dtype::F32 || beta_recip.dtype != Dtype::F32 {
        Some("snake_beta_nlc: parameters must be f32"@)
    } else if x.dtype != Dtype::F32 && x.dtype != Dtype::F16 {
        Some("snake_beta_nlc: activations f32 or f16, got "@ + dtype_name(x.dtype))
    } else {
        None
    }
}

/// The launch of the snake with the channels last. Its result has the type of the signal.
pub fn snake_beta_nlc_launch(
    x: Operand,
    alpha: Operand,
    beta_recip: Operand,
    rows: usize,
    channels: usize,
    permitted: usize,
) -> (r: Result<Launch, String>)
    requires
        addressable(seq![x, alpha, beta_recip]),
        rows * channels <= usize::MAX,
    ensures
        match r {
            Ok(l) => nlc_snake_fault(x, alpha, beta_recip) is None && l@ == (LaunchView {
                kernel: if x.dtype == Dtype::F32 {
                    "snake_beta_nlc_f32"@
                } else {
                    "snake_beta_nlc_f16"@
                },
                buffers: bound_in_order(seq![x, alpha, beta_recip]),
                result: 3,
                out: rows * channels,
                out_type: x.dtype,
                numbers: given_from(4, seq![channels]),
                counts: Counts::Threads,
                grid: size3(channels as int, rows as int, 1),
                group: size3(width_for(permitted, channels) as int, 1, 1),
            }),
            Err(e) => nlc_snake_fault(x, alpha, beta_recip) == Some(e@),
        },
        r matches Ok(l) ==> l@.threads_run() == l@.out,
{
    if alpha.dtype != Dtype::F32 || beta_recip.dtype != Dtype::F32 {
        return Err("snake_beta_nlc: parameters must be f32".to_owned());
    }
    let kernel: &'static str = match x.dtype {
        Dtype::F32 => "snake_beta_nlc_f32",
        Dtype::F16 => "snake_beta_nlc_f16",
        other => {
            return Err(cat("snake_beta_nlc: activations f32 or f16, got ", other.name()));
        },
    };
    assert(rows * channels >= 0) by (nonlinear_arith)
        requires
            channels >= 0,
            rows >= 0,
    ;
    assert(channels * rows * 1 == rows * channels) by (nonlinear_arith);
    let operands: Vec<Operand> = vec![x, alpha, beta_recip];
    assert(operands@ =~= seq![x, alpha, beta_recip]);
    let values: Vec<usize> = vec![channels];
    assert(values@ =~= seq![channels]);
    Ok(
        Launch {
            kernel,
            buffers: bind_in_order(&operands),
            result: 3,
            out: rows * channels,
            out_type: x.dtype,
            numbers: give_from(4, &values),
            counts: Counts::Threads,
            grid: Size3 { width: channels, height: rows, depth: 1 },
            group: Size3 { width: group_width(permitted, channels), height: 1, depth: 1 },
        },
    )
}

/// The launch of a scale and a shift per row, the same over all positions.
pub fn modulate_launch(
    x: Operand,
    scale: Operand,
    shift: Operand,
    batch: usize,
    n: usize,
    dim: usize,
    permitted: usize,
) -> (r: Result<Launch, String>)
    requires
        addressable(seq![x, scale, shift]),
        batch * n <= usize::MAX,
        batch * n * dim <= usize::MAX,
    ensures
        match r {
            Ok(l) => operand_fault("tts_nn::modulate_affine"@, seq![x, scale, shift], Dtype::F32) is None && l@ == element_view(
                "modulate_affine_f32"@,
                seq![x, scale, shift],
                batch * n * dim,
                seq![n, dim],
                size3(dim as int, n as int, batch as int),
                size3(width_for(permitted, dim) as int, 1, 1),
            ),
            Err(e) => operand_fault("tts_nn::modulate_affine"@, seq![x, scale, shift], Dtype::F32) == Some(e@),
        },
        r matches Ok(l) ==> l@.threads_run() == l@.out,
{
    assert(batch * n >= 0 && batch * n * dim >= 0) by (nonlinear_arith)
        requires
            batch >= 0,
            dim >= 0,
            n >= 0,
    ;
    assert(dim * n * batch == batch * n * dim) by (nonlinear_arith);
    let operands: Vec<Operand> = vec![x, scale, shift];
    assert(operands@ =~= seq![x, scale, shift]);
    let values: Vec<usize> = vec![n, dim];
    assert(values@ =~= seq![n, dim]);
    element_launch(
        "tts_nn::modulate_affine",
        "modulate_affine_f32",
        &operands,
        batch * n * dim,
        &values,
        Size3 { width: dim, height: n, depth: batch },
        Size3 { width: group_width(permitted, dim), height: 1, depth: 1 },
    )
}

/// The launch of a sum with a weighted tensor, its weights the same over all positions.
pub fn gate_residual_launch(
    residual: Operand,
    y: Operand,
    gate: Operand,
    batch: usize,
    n: usize,
    dim: usize,
    permitted: usize,
) -> (r: Result<Launch, String>)
    requires
        addressable(seq![residual, y, gate]),
        batch * n <= usize::MAX,
        batch * n * dim <= usize::MAX,
    ensures
        match r {
            Ok(l) => operand_fault("tts_nn::gate_residual"@, seq![residual, y, gate], Dtype::F32) is None && l@ == element_view(
                "gate_residual_f32"@,
                seq![residual, y, gate],
                batch * n * dim,
                seq![n, dim],
                size3(dim as int, n as int, batch as int),
                size3(width_for(permitted, dim) as int, 1, 1),
            ),
            Err(e) => operand_fault("tts_nn::gate_residual"@, seq![residual, y, gate], Dtype::F32) == Some(e@),
        },
        r matches Ok(l) ==> l@.threads_run() == l@.out,
{
    assert(batch * n >= 0 && batch * n * dim >= 0) by (nonlinear_arith)
        requires
            batch >= 0,
            dim >= 0,
            n >= 0,
    ;
    assert(dim * n * batch == batch * n * dim) by (nonlinear_arith);
    let operands: Vec<Operand> = vec![residual, y, gate];
    assert(operands@ =~= seq![residual, y, gate]);
    let values: Vec<usize> = vec![n, dim];
    assert(values@ =~= seq![n, dim]);
    element_launch(
        "tts_nn::gate_residual",
        "gate_residual_f32",
        &operands,
        batch * n * dim,
        &values,
        Size3 { width: dim, height: n, depth: batch },
        Size3 { width: group_width(permitted, dim), height: 1, depth: 1 },
    )
}

/// The launch of the squared distance from one value per channel.
pub fn sub_sqr_launch(
    x: Operand,
    m: Operand,
    channels: usize,
    len: usize,
    permitted: usize,
) -> (r: Result<Launch, String>)
    requires
        addressable(seq![x, m]),
        channels * len <= usize::MAX,
    ensures
        match r {
            Ok(l) => operand_fault("sub_sqr"@, seq![x, m], Dtype::F32) is None && l@ == element_view(
                "sub_sqr_f32"@,
                seq![x, m],
                channels * len,
                seq![len],
                size3(len as int, channels as int, 1),
                size3(width_for(permitted, len) as int, 1, 1),
            ),
            Err(e) => operand_fault("sub_sqr"@, seq![x, m], Dtype::F32) == Some(e@),
        },
        r matches Ok(l) ==> l@.threads_run() == l@.out,
{
    assert(channels * len >= 0) by (nonlinear_arith)
        requires
            channels >= 0,
            len >= 0,
    ;
    assert(len * channels * 1 == channels * len) by (nonlinear_arith);
    let operands: Vec<Operand> = vec![x, m];
    assert(operands@ =~= seq![x, m]);
    let values: Vec<usize> = vec![len];
    assert(values@ =~= seq![len]);
    element_launch(
        "sub_sqr",
        "sub_sqr_f32",
        &operands,
        channels * len,
        &values,
        Size3 { width: len, height: channels, depth: 1 },
        Size3 { width: group_width(permitted, len), height: 1, depth: 1 },
    )
}

/// The launch of the normalisation with a style. The parameters lie packed, one row each.
pub fn adain_apply_launch(
    x: Operand,
    packed: Operand,
    channels: usize,
    len: usize,
    permitted: usize,
) -> (r: Result<Launch, String>)
    requires
        addressable(seq![x, packed]),
        channels * len <= usize::MAX,
    ensures
        match r {
            Ok(l) => operand_fault("adain_apply"@, seq![x, packed], Dtype::F32) is None && l@ == element_view(
                "adain_apply_f32"@,
                seq![x, packed],
                channels * len,
                seq![len, channels],
                size3(len as int, channels as int, 1),
                size3(width_for(permitted, len) as int, 1, 1),
            ),
            Err(e) => operand_fault("adain_apply"@, seq![x, packed], Dtype::F32) == Some(e@),
        },
        r matches Ok(l) ==> l@.threads_run() == l@.out,
{
    assert(channels * len >= 0) by (nonlinear_arith)
        requires
            channels >= 0,
            len >= 0,
    ;
    assert(len * channels * 1 == channels * len) by (nonlinear_arith);
    let operands: Vec<Operand> = vec![x, packed];
    assert(operands@ =~= seq![x, packed]);
    let values: Vec<usize> = vec![len, channels];
    assert(values@ =~= seq![len, channels]);
    element_launch(
        "adain_apply",
        "adain_apply_f32",
        &operands,
        channels * len,
        &values,
        Size3 { width: len, height: channels, depth: 1 },
        Size3 { width: group_width(permitted, len), height: 1, depth: 1 },
    )
}

/// The launch of the normalisation with a style and the snake behind it.
pub fn adain_snake_launch(
    x: Operand,
    packed: Operand,
    channels: usize,
    len: usize,
    permitted: usize,
) -> (r: Result<Launch, String>)
    requires
        addressable(seq![x, packed]),
        channels * len <= usize::MAX,
    ensures
        match r {
            Ok(l) => operand_fault("adain_snake"@, seq![x, packed], Dtype::F32) is None && l@ == element_view(
                "adain_snake_f32"@,
                seq![x, packed],
                channels * len,
                seq![len, channels],
                size3(len as int, channels as int, 1),
                size3(width_for(permitted, len) as int, 1, 1),
            ),
            Err(e) => operand_fault("adain_snake"@, seq![x, packed], Dtype::F32) == Some(e@),
        },
        r matches Ok(l) ==> l@.threads_run() == l@.out,
{
    assert(channels * len >= 0) by (nonlinear_arith)
        requires
            channels >= 0,
            len >= 0,
    ;
    assert(len * channels * 1 == channels * len) by (nonlinear_arith);
    let operands: Vec<Operand> = vec![x, packed];
    assert(operands@ =~= seq![x, packed]);
    let values: Vec<usize> = vec![len, channels];
    assert(values@ =~= seq![len, channels]);
    element_launch(
        "adain_snake",
        "adain_snake_f32",
        &operands,
        channels * len,
        &values,
        Size3 { width: len, height: channels, depth: 1 },
        Size3 { width: group_width(permitted, len), height: 1, depth: 1 },
    )
}

/// Checks that the moments of channels are asked of one signal.
pub fn check_one_batch(b: usize) -> (r: Result<(), String>)
    ensures
        match r {
            Ok(_) => b == 1,
            Err(e) => b != 1 && e@ == "channel_moments: batch must be 1, got "@ + decimal_text(
                b as nat,
            ),
        },
{
    if b != 1 {
        return Err(cat("channel_moments: batch must be 1, got ", number_text(b).as_str()));
    }
    Ok(())
}

/// The launch of the mean and the variance of each channel: one group per channel.
pub fn moments_launch(
    x: Operand,
    channels: usize,
    len: usize,
    permitted: usize,
) -> (r: Result<Launch, String>)
    requires
        addressable(seq![x]),
        2 * channels <= usize::MAX,
    ensures
        match r {
            Ok(l) => operand_fault("channel_moments"@, seq![x], Dtype::F32) is None && l@ == element_view(
                "channel_moments_f32"@,
                seq![x],
                2 * channels,
                seq![len, channels],
                size3(width_for(permitted, len) as int, channels as int, 1),
                size3(width_for(permitted, len) as int, 1, 1),
            ),
            Err(e) => operand_fault("channel_moments"@, seq![x], Dtype::F32) == Some(e@),
        },
        r matches Ok(l) ==> l@.grid.width == l@.group.width && 2 * l@.grid.height == l@.out,
{
    let w: usize = group_width(permitted, len);
    let operands: Vec<Operand> = vec![x];
    assert(operands@ =~= seq![x]);
    let values: Vec<usize> = vec![len, channels];
    assert(values@ =~= seq![len, channels]);
    element_launch(
        "channel_moments",
        "channel_moments_f32",
        &operands,
        2 * channels,
        &values,
        Size3 { width: w, height: channels, depth: 1 },
        Size3 { width: w, height: 1, depth: 1 },
    )
}

/// Checks that both gate vectors of a step hold four gates.
pub fn check_gates(gates: usize, pre: usize, hidden: usize) -> (r: Result<(), String>)
    requires
        4 * hidden <= usize::MAX,
    ensures
        match r {
            Ok(_) => gates == 4 * hidden && pre == 4 * hidden,
            Err(e) => !(gates == 4 * hidden && pre == 4 * hidden) && e@
                == "lstm_gates: gate vectors must be 4 x hidden"@,
        },
{
    if gates != 4 * hidden || pre != 4 * hidden {
        return Err("lstm_gates: gate vectors must be 4 x hidden".to_owned());
    }
    Ok(())
}

/// The launch of a step of a recurrent layer behind its products. The result is the new output
/// and the new cell.
pub fn lstm_gates_launch(
    gates: Operand,
    pre: Operand,
    cell: Operand,
    hidden: usize,
    permitted: usize,
) -> (r: Result<Launch, String>)
    requires
        addressable(seq![gates, pre, cell]),
        2 * hidden <= usize::MAX,
    ensures
        match r {
            Ok(l) => operand_fault("lstm_gates"@, seq![gates, pre, cell], Dtype::F32) is None && l@ == element_view(
                "lstm_gates_f32"@,
                seq![gates, pre, cell],
                2 * hidden,
                seq![hidden],
                size3(hidden as int, 1, 1),
                size3(width_for(permitted, hidden) as int, 1, 1),
            ),
            Err(e) => operand_fault("lstm_gates"@, seq![gates, pre, cell], Dtype::F32) == Some(e@),
        },
        r matches Ok(l) ==> 2 * l@.threads_run() == l@.out,
{
    assert(hidden * 1 * 1 == hidden) by (nonlinear_arith);
    let operands: Vec<Operand> = vec![gates, pre, cell];
    assert(operands@ =~= seq![gates, pre, cell]);
    let values: Vec<usize> = vec![hidden];
    assert(values@ =~= seq![hidden]);
    element_launch(
        "lstm_gates",
        "lstm_gates_f32",
        &operands,
        2 * hidden,
        &values,
        Size3 { width: hidden, height: 1, depth: 1 },
        Size3 { width: group_width(permitted, hidden), height: 1, depth: 1 },
    )
}

} // verus!
