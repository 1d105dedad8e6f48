//! Attention of a decoding step that reads the cache of keys and values in place.

use crate::api::{decimal_text, number_text};
use crate::launch::{
    addressable, bind_in_order, bound_in_order, dtype_name, give_from, given_from, group_width, size3,
    width_for, Counts, Dtype, Launch, LaunchView, Operand, Size3,
};
use crate::tensor::{at2, at2_inside};
use crate::text::cat;
use vstd::prelude::*;
use vstd::string::*;

verus! {

/// The shape of a decoding step: queries `[b, n_kv, gqa, head_dim]`, a cache
/// `[b, n_kv, capacity, head_dim]`, of which positions from `window_start` up to `span` count.
#[derive(Clone, Copy, Debug)]
pub struct Decode {
    pub b: usize,
    pub n_kv: usize,
    pub gqa: usize,
    pub head_dim: usize,
    pub capacity: usize,
    pub span: usize,
    pub window_start: usize,
}

/// What is wrong with a decoding step, if anything.
pub open spec fn span_fault(span: nat, capacity: nat) -> Option<Seq<char>> {
    if span > capacity {
        Some("span "@ + decimal_text(span) + " exceeds capacity "@ + decimal_text(capacity))
    } else {
        None
    }
}

/// Whether a cache may hold elements of a type.
pub open spec fn cached_type(d: Dtype) -> bool {
    d == Dtype::F32 || d == Dtype::F16
}

impl Decode {
    /// Checks that the span lies within the cache.
    pub fn check(&self) -> (r: Result<(), String>)
        ensures
            match r {
                Ok(_) => span_fault(self.span as nat, self.capacity as nat) is None,
                Err(e) => span_fault(self.span as nat, self.capacity as nat) == Some(e@),
            },
    {
        if self.span > self.capacity {
            let mut detail = cat("span ", number_text(self.span).as_str());
            detail.append(" exceeds capacity ");
            detail.append(number_text(self.capacity).as_str());
            return Err(detail);
        }
        Ok(())
    }

    /// The first element of the query of head `bh` and group `g`.
    pub open spec fn query_at(self, bh: int, g: int) -> int {
        at2(bh, g, self.gqa as int) * self.head_dim
    }

    /// The first element of position `p` of the cache of head `bh`.
    pub open spec fn cache_at(self, bh: int, p: int) -> int {
        at2(bh, p, self.capacity as int) * self.head_dim
    }

    /// The score of position `p` for head `bh` and group `g`.
    pub open spec fn score_at(self, bh: int, g: int, p: int) -> int {
        at2(at2(bh, g, self.gqa as int), p, self.span as int)
    }

    /// Every row that a step reads or writes lies within its tensor.
    pub proof fn rows_lie_inside(self, bh: int, g: int, p: int)
        requires
            self.span <= self.capacity,
            0 <= bh < self.b * self.n_kv,
            0 <= g < self.gqa,
            0 <= p < self.span,
        ensures
            0 <= self.query_at(bh, g),
            self.query_at(bh, g) + self.head_dim <= self.b * self.n_kv * self.gqa * self.head_dim,
            0 <= self.cache_at(bh, p),
            self.cache_at(bh, p) + self.head_dim <= self.b * self.n_kv * self.capacity
                * self.head_dim,
            0 <= self.score_at(bh, g, p) < self.b * self.n_kv * self.gqa * self.span,
    {
        let heads = self.b * self.n_kv;
        at2_inside(bh, g, heads, self.gqa as int);
        at2_inside(bh, p, heads, self.capacity as int);
        at2_inside(at2(bh, g, self.gqa as int), p, heads * self.gqa, self.span as int);
        rows_fit(at2(bh, g, self.gqa as int), heads * self.gqa, self.head_dim as int);
        rows_fit(at2(bh, p, self.capacity as int), heads * self.capacity, self.head_dim as int);
    }

    /// Whether the fused kernel fits a step over tensors of two types: an f16 cache, heads of
    /// 128, and at most two queries per key.
    pub open spec fn fuses(self, query: Dtype, cache: Dtype) -> bool {
        query == Dtype::F32 && cache == Dtype::F16 && self.head_dim == 128 && 1 <= self.gqa <= 2
    }

    /// Whether a step takes the fused kernel: an f16 cache on the device, heads of 128, and at
    /// most two queries per key.
    pub fn fused_eligible(&self, enabled: bool, on_device: bool, query: Dtype, cache: Dtype) -> (r:
        bool)
        ensures
            r == (enabled && on_device && self.fuses(query, cache)),
    {
        enabled && on_device && query == Dtype::F32 && cache == Dtype::F16 && self.head_dim == 128
            && 1 <= self.gqa && self.gqa <= 2
    }

    /// Whether the results of a step are machine numbers.
    pub open spec fn countable(self) -> bool {
        &&& self.b * self.n_kv <= usize::MAX
        &&& self.b * self.n_kv * self.gqa <= usize::MAX
        &&& self.b * self.n_kv * self.gqa * self.span <= usize::MAX
        &&& self.b * self.n_kv * self.gqa * self.head_dim <= usize::MAX
    }

    /// The launch of the scores: one thread per position, group and head.
    pub fn scores_launch(&self, q: Operand, k: Operand, permitted: usize) -> (r: Result<
        Launch,
        String,
    >)
        requires
            addressable(seq![q, k]),
            self.countable(),
        ensures
            match r {
                Ok(l) => q.dtype == Dtype::F32 && cached_type(k.dtype) && l@ == (LaunchView {
                    kernel: if k.dtype == Dtype::F32 {
                        "decode_scores_f32"@
                    } else {
                        "decode_scores_f16"@
                    },
                    buffers: bound_in_order(seq![q, k]),
                    result: 2,
                    out: self.b * self.n_kv * self.gqa * self.span,
                    out_type: Dtype::F32,
                    numbers: given_from(
                        3,
                        seq![self.span, self.capacity, self.head_dim, self.gqa, self.window_start],
                    ),
                    counts: Counts::Threads,
                    grid: size3(self.span as int, self.gqa as int, self.b * self.n_kv),
                    group: size3(width_for(permitted, self.span) as int, 1, 1),
                }),
                Err(e) => if q.dtype != Dtype::F32 {
                    e@ == "decode_scores: query must be f32"@
                } else {
                    !cached_type(k.dtype) && e@ == "decode_scores: cache must be f32 or f16, got "@
                        + dtype_name(k.dtype)
                },
            },
            r matches Ok(l) ==> l@.threads_run() == l@.out,
    {
        if q.dtype != Dtype::F32 {
            return Err("decode_scores: query must be f32".to_owned());
        }
        let kernel: &'static str = match k.dtype {
            Dtype::F32 => "decode_scores_f32",
            Dtype::F16 => "decode_scores_f16",
            other => {
                return Err(cat("decode_scores: cache must be f32 or f16, got ", other.name()));
            },
        };
        proof {
            self.counts_are_natural();
            let v = seq![q, k];
            assert(v[0] == q && v[1] == k);
        }
        let heads: usize = self.b * self.n_kv;
        assert(self.span * self.gqa * heads == heads * self.gqa * self.span) by (nonlinear_arith);
        let operands: Vec<Operand> = vec![q, k];
        assert(operands@ =~= seq![q, k]);
        let values: Vec<usize> = vec![self.span, self.capacity, self.head_dim, self.gqa, self.window_start];
        assert(values@ =~= seq![self.span, self.capacity, self.head_dim, self.gqa, self.window_start]);
        Ok(
            Launch {
                kernel,
                buffers: bind_in_order(&operands),
                result: 2,
                out: heads * self.gqa * self.span,
                out_type: Dtype::F32,
                numbers: give_from(3, &values),
                counts: Counts::Threads,
                grid: Size3 { width: self.span, height: self.gqa, depth: heads },
                group: Size3 { width: group_width(permitted, self.span), height: 1, depth: 1 },
            },
        )
    }

    /// The launch of the weighted values: one thread per element of a head, group and head.
    pub fn weighted_launch(&self, probs: Operand, v: Operand, permitted: usize) -> (r: Result<
        Launch,
        String,
    >)
        requires
            addressable(seq![probs, v]),
            self.countable(),
        ensures
            match r {
                Ok(l) => probs.dtype == Dtype::F32 && cached_type(v.dtype) && l@ == (LaunchView {
                    kernel: if v.dtype == Dtype::F32 {
                        "decode_weighted_f32"@
                    } else {
                        "decode_weighted_f16"@
                    },
                    buffers: bound_in_order(seq![probs, v]),
                    result: 2,
                    out: self.b * self.n_kv * self.gqa * self.head_dim,
                    out_type: Dtype::F32,
                    numbers: given_from(
                        3,
                        seq![self.span, self.capacity, self.head_dim, self.gqa],
                    ),
                    counts: Counts::Threads,
                    grid: size3(self.head_dim as int, self.gqa as int, self.b * self.n_kv),
                    group: size3(width_for(permitted, self.head_dim) as int, 1, 1),
                }),
                Err(e) => if probs.dtype != Dtype::F32 {
                    e@ == "decode_weighted: probs must be f32"@
                } else {
                    !cached_type(v.dtype) && e@ == "decode_weighted: cache must be f32 or f16, got "@
                        + dtype_name(v.dtype)
                },
            },
            r matches Ok(l) ==> l@.threads_run() == l@.out,
    {
        if probs.dtype != Dtype::F32 {
            return Err("decode_weighted: probs must be f32".to_owned());
        }
        let kernel: &'static str = match v.dtype {
            Dtype::F32 => "decode_weighted_f32",
            Dtype::F16 => "decode_weighted_f16",
            other => {
                return Err(cat("decode_weighted: cache must be f32 or f16, got ", other.name()));
            },
        };
        proof {
            self.counts_are_natural();
            let s = seq![probs, v];
            assert(s[0] == probs && s[1] == v);
        }
        let heads: usize = self.b * self.n_kv;
        assert(self.head_dim * self.gqa * heads == heads * self.gqa * self.head_dim)
            by (nonlinear_arith);
        let operands: Vec<Operand> = vec![probs, v];
        assert(operands@ =~= seq![probs, v]);
        let values: Vec<usize> = vec![self.span, self.capacity, self.head_dim, self.gqa];
        assert(values@ =~= seq![self.span, self.capacity, self.head_dim, self.gqa]);
        Ok(
            Launch {
                kernel,
                buffers: bind_in_order(&operands),
                result: 2,
                out: heads * self.gqa * self.head_dim,
                out_type: Dtype::F32,
                numbers: give_from(3, &values),
                counts: Counts::Threads,
                grid: Size3 { width: self.head_dim, height: self.gqa, depth: heads },
                group: Size3 { width: group_width(permitted, self.head_dim), height: 1, depth: 1 },
            },
        )
    }

    /// The launch of the fused kernel: one group of 128 threads per head of the cache.
    pub fn fused_launch(&self, q: Operand, k: Operand, v: Operand) -> (r: Launch)
        requires
            addressable(seq![q, k, v]),
            self.countable(),
            self.head_dim == 128,
        ensures
            r@ == (LaunchView {
                kernel: "decode_attn_f16"@,
                buffers: bound_in_order(seq![q, k, v]),
                result: 3,
                out: self.b * self.n_kv * self.gqa * 128,
                out_type: Dtype::F32,
                numbers: given_from(
                    4,
                    seq![self.span, self.capacity, self.gqa, self.window_start],
                ),
                counts: Counts::Groups,
                grid: size3(self.b * self.n_kv, 1, 1),
                group: size3(128, 1, 1),
            }),
            r@.threads_run() * self.gqa == r@.out,
    {
        proof {
            self.counts_are_natural();
            let s = seq![q, k, v];
            assert(s[0] == q && s[1] == k && s[2] == v);
        }
        let heads: usize = self.b * self.n_kv;
        assert((heads * 1 * 1) * (128int * 1 * 1) * self.gqa == heads * self.gqa * 128)
            by (nonlinear_arith);
        let operands: Vec<Operand> = vec![q, k, v];
        assert(operands@ =~= seq![q, k, v]);
        let values: Vec<usize> = vec![self.span, self.capacity, self.gqa, self.window_start];
        assert(values@ =~= seq![self.span, self.capacity, self.gqa, self.window_start]);
        Launch {
            kernel: "decode_attn_f16",
            buffers: bind_in_order(&operands),
            result: 3,
            out: heads * self.gqa * 128,
            out_type: Dtype::F32,
            numbers: give_from(4, &values),
            counts: Counts::Groups,
            grid: Size3 { width: heads, height: 1, depth: 1 },
            group: Size3 { width: 128, height: 1, depth: 1 },
        }
    }

    proof fn counts_are_natural(self)
        ensures
            self.b * self.n_kv >= 0,
            self.b * self.n_kv * self.gqa >= 0,
            self.b * self.n_kv * self.gqa * self.span >= 0,
            self.b * self.n_kv * self.gqa * self.head_dim >= 0,
    {
        let heads = self.b * self.n_kv;
        assert(heads >= 0) by (nonlinear_arith)
            requires
                heads == self.b * self.n_kv,
                self.b >= 0,
                self.n_kv >= 0,
        ;
        let groups = heads * self.gqa;
        assert(groups >= 0) by (nonlinear_arith)
            requires
                groups == heads * self.gqa,
                heads >= 0,
                self.gqa >= 0,
        ;
        assert(groups * self.span >= 0) by (nonlinear_arith)
            requires
                groups >= 0,
                self.span >= 0,
        ;
        assert(groups * self.head_dim >= 0) by (nonlinear_arith)
            requires
                groups >= 0,
                self.head_dim >= 0,
        ;
    }
}

proof fn rows_fit(row: int, rows: int, width: int)
    requires
        0 <= row < rows,
        width >= 0,
    ensures
        0 <= row * width,
        row * width + width <= rows * width,
{
    assert(0 <= row * width && row * width + width <= rows * width) by (nonlinear_arith)
        requires
            0 <= row < rows,
            width >= 0,
    ;
}

} // verus!
