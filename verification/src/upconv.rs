//! A transposed convolution with a stride, as ordinary convolutions of its phases.
//!
//! Output `t = q * s + r` only ever meets the taps `k` of the kernel that leave the remainder
//! `(r + p) mod s`. So each of the `s` phases is a convolution of stride one with every `s`-th
//! tap, and the phases interleave into the output.

use vstd::arithmetic::div_mod::*;
use vstd::prelude::*;

verus! {

/// One phase: the taps of the kernel that it meets, the zeros before the input, and how far
/// its first tap reaches on.
pub struct Phase {
    pub taps: Vec<usize>,
    pub pad_left: usize,
    pub shift: usize,
}

/// The meaning of a phase.
#[verifier::ext_equal]
pub struct PhaseView {
    pub taps: Seq<int>,
    pub pad_left: int,
    pub shift: int,
}

/// Machine numbers as whole numbers.
pub open spec fn ints(v: Seq<usize>) -> Seq<int> {
    v.map_values(|x: usize| x as int)
}

impl View for Phase {
    type V = PhaseView;

    open spec fn view(&self) -> PhaseView {
        PhaseView {
            taps: ints(self.taps@),
            pad_left: self.pad_left as int,
            shift: self.shift as int,
        }
    }
}

/// The meaning of a list of phases.
pub open spec fn phases_view(v: Seq<Phase>) -> Seq<PhaseView> {
    v.map_values(|p: Phase| p@)
}

/// Every `stride`-th tap from `first` on.
pub open spec fn taps_from(first: int, stride: int, k_size: int) -> Seq<int>
    decreases
            if first < k_size {
                k_size - first
            } else {
                0
            },
{
    if stride <= 0 || first >= k_size {
        Seq::empty()
    } else {
        seq![first] + taps_from(first + stride, stride, k_size)
    }
}

/// Phase `r` of a transposed convolution.
pub open spec fn phase_of(r: int, stride: int, padding: int, k_size: int) -> PhaseView {
    let taps = taps_from((r + padding) % stride, stride, k_size);
    let shift = (r + padding) / stride;
    PhaseView {
        taps,
        pad_left: if taps.len() == 0 || taps.len() - 1 < shift {
            0
        } else {
            taps.len() - 1 - shift
        },
        shift,
    }
}

/// The geometry of a transposed convolution.
pub struct UpConv {
    stride: usize,
    padding: usize,
    output_padding: usize,
    k_size: usize,
    phases: Vec<Phase>,
}

/// The meaning of a geometry.
pub struct UpConvView {
    pub stride: int,
    pub padding: int,
    pub output_padding: int,
    pub k_size: int,
    pub phases: Seq<PhaseView>,
}

impl View for UpConv {
    type V = UpConvView;

    closed spec fn view(&self) -> UpConvView {
        UpConvView {
            stride: self.stride as int,
            padding: self.padding as int,
            output_padding: self.output_padding as int,
            k_size: self.k_size as int,
            phases: phases_view(self.phases@),
        }
    }
}

/// All phases of a geometry. Only an ungrouped convolution decomposes.
pub open spec fn all_phases(stride: int, padding: int, k_size: int, groups: int) -> Seq<PhaseView> {
    if groups == 1 {
        Seq::new(stride as nat, |r: int| phase_of(r, stride, padding, k_size))
    } else {
        Seq::empty()
    }
}

/// A window of the padded input that one tap of the kernel meets.
pub struct Window {
    pub tap: usize,
    pub from: usize,
}

/// What to do for one phase: zeros to put on both sides of the input, and the windows whose
/// products are summed. A phase without windows is all zeros.
pub struct PhasePlan {
    pub pad_left: usize,
    pub pad_right: usize,
    pub windows: Vec<Window>,
}

/// The meaning of a window.
#[verifier::ext_equal]
pub struct WindowView {
    pub tap: int,
    pub from: int,
}

/// The meaning of a plan.
#[verifier::ext_equal]
pub struct PlanView {
    pub pad_left: int,
    pub pad_right: int,
    pub windows: Seq<WindowView>,
}

/// The meaning of a list of windows.
pub open spec fn windows_view(v: Seq<Window>) -> Seq<WindowView> {
    v.map_values(|w: Window| WindowView { tap: w.tap as int, from: w.from as int })
}

impl View for PhasePlan {
    type V = PlanView;

    open spec fn view(&self) -> PlanView {
        PlanView {
            pad_left: self.pad_left as int,
            pad_right: self.pad_right as int,
            windows: windows_view(self.windows@),
        }
    }
}

/// The meaning of a list of plans.
pub open spec fn plans_view(v: Seq<PhasePlan>) -> Seq<PlanView> {
    v.map_values(|p: PhasePlan| p@)
}

/// The plan of a phase for an input of `l_in` and `len_p` outputs. Zeros go behind the input
/// only where the last window overhangs it.
pub open spec fn plan_of(p: PhaseView, l_in: int, len_p: int) -> PlanView {
    PlanView {
        pad_left: p.pad_left,
        pad_right: if p.taps.len() == 0 || len_p + p.shift <= l_in {
            0
        } else {
            len_p + p.shift - l_in
        },
        windows: Seq::new(
            p.taps.len(),
            |m: int| WindowView { tap: p.taps[m], from: p.pad_left + p.shift - m },
        ),
    }
}

/// The length of the output.
pub open spec fn out_len(
    l_in: int,
    stride: int,
    padding: int,
    k_size: int,
    output_padding: int,
) -> int {
    (l_in - 1) * stride - 2 * padding + (k_size - 1) + output_padding + 1
}

impl UpConvView {
    /// The length of the output for an input of `l_in`.
    pub open spec fn l_out(self, l_in: int) -> int {
        out_len(l_in, self.stride, self.padding, self.k_size, self.output_padding)
    }

    /// Whether the phases cover an input: one batch, and phases of equal length.
    pub open spec fn covers(self, batch: int, l_in: int) -> bool {
        self.phases.len() > 0 && batch == 1 && self.l_out(l_in) > 0 && self.l_out(l_in)
            % self.stride == 0
    }
}

fn collect_taps(first: usize, stride: usize, k_size: usize) -> (r: Vec<usize>)
    requires
        stride > 0,
    ensures
        ints(r@) == taps_from(first as int, stride as int, k_size as int),
        r@.len() <= k_size,
{
    let mut out: Vec<usize> = Vec::new();
    let mut at: usize = first;
    let ghost goal = taps_from(first as int, stride as int, k_size as int);
    assert(ints(out@) + goal =~= goal);
    while at < k_size
        invariant
            stride > 0,
            out@.len() <= at || at >= k_size,
            out@.len() <= k_size,
            goal == ints(out@) + taps_from(at as int, stride as int, k_size as int),
        decreases k_size - at,
    {
        let ghost before = ints(out@);
        let ghost rest = taps_from(at as int, stride as int, k_size as int);
        out.push(at);
        proof {
            assert(ints(out@) =~= before.push(at as int));
            let next = taps_from(at + stride, stride as int, k_size as int);
            assert(rest =~= seq![at as int] + next);
            assert(ints(out@) + next =~= before + rest);
        }
        if stride >= k_size - at {
            proof {
                assert(taps_from(at + stride, stride as int, k_size as int) =~= Seq::<int>::empty());
                assert(ints(out@) + Seq::<int>::empty() =~= ints(out@));
            }
            at = k_size;
        } else {
            at = at + stride;
        }
        assert(taps_from(k_size as int, stride as int, k_size as int) =~= Seq::<int>::empty());
    }
    assert(taps_from(at as int, stride as int, k_size as int) =~= Seq::<int>::empty());
    assert(ints(out@) + Seq::<int>::empty() =~= ints(out@));
    out
}

/// Whether every window of a phase begins within the padded input.
spec fn in_bounds(p: Phase, stride: int, padding: int) -> bool {
    &&& p.pad_left + p.shift >= p.taps@.len() - 1
    &&& p.pad_left + p.shift <= usize::MAX
    &&& p.shift <= stride + padding
}

impl UpConv {
    /// There are phases only for a stride, and every window begins within the padded input.
    #[verifier::type_invariant]
    spec fn windows_begin_inside(self) -> bool {
        &&& self.phases@.len() > 0 ==> self.stride > 0
        &&& forall|i: int|
            0 <= i < self.phases@.len() ==> in_bounds(
                #[trigger] self.phases@[i],
                self.stride as int,
                self.padding as int,
            )
    }

    /// The phases of a transposed convolution.
    pub fn new(
        stride: usize,
        padding: usize,
        output_padding: usize,
        k_size: usize,
        groups: usize,
    ) -> (r: UpConv)
        requires
            stride + padding <= usize::MAX,
        ensures
            r@.stride == stride,
            r@.padding == padding,
            r@.output_padding == output_padding,
            r@.k_size == k_size,
            r@.phases == all_phases(stride as int, padding as int, k_size as int, groups as int),
    {
        let mut phases: Vec<Phase> = Vec::new();
        let ghost goal = all_phases(stride as int, padding as int, k_size as int, groups as int);
        if groups == 1 {
            let mut r: usize = 0;
            assert(phases_view(phases@) =~= goal.take(0));
            while r < stride
                invariant
                    r <= stride,
                    stride + padding <= usize::MAX,
                    goal == Seq::new(
                        stride as nat,
                        |r: int| phase_of(r, stride as int, padding as int, k_size as int),
                    ),
                    phases_view(phases@) == goal.take(r as int),
                    phases@.len() == r,
                    forall|i: int|
                        0 <= i < phases@.len() ==> in_bounds(
                            #[trigger] phases@[i],
                            stride as int,
                            padding as int,
                        ),
                decreases stride - r,
            {
                let first: usize = (r + padding) % stride;
                let shift: usize = (r + padding) / stride;
                proof {
                    lemma_div_is_ordered_by_denominator(r + padding, 1, stride as int);
                }
                let taps = collect_taps(first, stride, k_size);
                let n: usize = taps.len();
                let pad_left: usize = if n == 0 || n - 1 < shift {
                    0
                } else {
                    n - 1 - shift
                };
                let ghost before = phases_view(phases@);
                assert(ints(taps@).len() == n);
                let p = Phase { taps, pad_left, shift };
                let ghost v = p@;
                phases.push(p);
                assert(phases_view(phases@) =~= before.push(v));
                assert(v == goal[r as int]);
                assert(phases_view(phases@) =~= goal.take(r + 1));
                r = r + 1;
            }
            assert(goal.take(r as int) =~= goal);
        } else {
            assert(phases_view(phases@) =~= goal);
        }
        UpConv { stride, padding, output_padding, k_size, phases }
    }

    /// The length of the output for an input of `l_in`.
    pub fn l_out(&self, l_in: usize) -> (r: usize)
        requires
            l_in >= 1,
            self@.k_size >= 1,
            0 <= self@.l_out(l_in as int),
            (l_in - 1) * self@.stride + self@.k_size + self@.output_padding <= usize::MAX,
            2 * self@.padding <= usize::MAX,
        ensures
            r == self@.l_out(l_in as int),
    {
        assert((l_in - 1) * self.stride >= 0) by (nonlinear_arith)
            requires
                l_in >= 1,
                self.stride >= 0,
        ;
        (l_in - 1) * self.stride + self.k_size + self.output_padding - 2 * self.padding
    }

    /// Whether the convolution has phases.
    pub fn decomposes(&self) -> (r: bool)
        ensures
            r == (self@.phases.len() > 0),
    {
        self.phases.len() > 0
    }

    /// What to do for each phase, and how many outputs each has. Nothing where the phases do
    /// not cover the input, which then goes another way.
    pub fn plan(&self, batch: usize, l_in: usize) -> (r: Option<(usize, Vec<PhasePlan>)>)
        requires
            l_in >= 1,
            self@.k_size >= 1,
            0 <= self@.l_out(l_in as int),
            (l_in - 1) * self@.stride + self@.k_size + self@.output_padding <= usize::MAX,
            2 * self@.padding <= usize::MAX,
            self@.l_out(l_in as int) + self@.stride + self@.padding <= usize::MAX,
        ensures
            match r {
                Some(p) => {
                    let len_p = self@.l_out(l_in as int) / self@.stride;
                    &&& self@.covers(batch as int, l_in as int)
                    &&& p.0 == len_p
                    &&& plans_view(p.1@) == self@.phases.map_values(
                        |q: PhaseView| plan_of(q, l_in as int, len_p),
                    )
                },
                None => !self@.covers(batch as int, l_in as int),
            },
    {
        if !self.decomposes() || batch != 1 {
            return None;
        }
        proof {
            use_type_invariant(self);
        }
        let l_out: usize = self.l_out(l_in);
        if l_out == 0 || l_out % self.stride != 0 {
            return None;
        }
        let len_p: usize = l_out / self.stride;
        proof {
            lemma_div_is_ordered_by_denominator(l_out as int, 1, self.stride as int);
        }
        let ghost goal = self@.phases.map_values(|q: PhaseView| plan_of(q, l_in as int, len_p as int));
        let mut out: Vec<PhasePlan> = Vec::new();
        let mut i: usize = 0;
        assert(plans_view(out@) =~= goal.take(0));
        while i < self.phases.len()
            invariant
                i <= self.phases@.len(),
                l_out == self@.l_out(l_in as int),
                len_p <= l_out,
                self@.phases == phases_view(self.phases@),
                goal == self@.phases.map_values(
                    |q: PhaseView| plan_of(q, l_in as int, len_p as int),
                ),
                plans_view(out@) == goal.take(i as int),
                l_out + self.stride + self.padding <= usize::MAX,
                forall|i: int|
                    0 <= i < self.phases@.len() ==> in_bounds(
                        #[trigger] self.phases@[i],
                        self.stride as int,
                        self.padding as int,
                    ),
            decreases self.phases.len() - i,
        {
            let p = &self.phases[i];
            let ghost pv = self@.phases[i as int];
            assert(pv == p@);
            assert(in_bounds(self.phases@[i as int], self.stride as int, self.padding as int));
            let n: usize = p.taps.len();
            assert(pv.taps.len() == n);
            let pad_right: usize = if n == 0 || len_p + p.shift <= l_in {
                0
            } else {
                len_p + p.shift - l_in
            };
            let ghost wanted = plan_of(pv, l_in as int, len_p as int).windows;
            let mut windows: Vec<Window> = Vec::new();
            let mut m: usize = 0;
            assert(windows_view(windows@) =~= wanted.take(0));
            while m < n
                invariant
                    m <= n == p.taps@.len(),
                    pv == p@,
                    pv.taps.len() == n,
                    pv.pad_left + pv.shift >= n - 1,
                    pv.pad_left + pv.shift <= usize::MAX,
                    wanted == plan_of(pv, l_in as int, len_p as int).windows,
                    windows_view(windows@) == wanted.take(m as int),
                decreases n - m,
            {
                let ghost before = windows_view(windows@);
                let w = Window { tap: p.taps[m], from: p.pad_left + p.shift - m };
                windows.push(w);
                assert(pv.taps[m as int] == p.taps@[m as int]);
                assert(windows_view(windows@) =~= before.push(wanted[m as int]));
                assert(windows_view(windows@) =~= wanted.take(m + 1));
                m = m + 1;
            }
            assert(wanted.take(n as int) =~= wanted);
            let plan = PhasePlan { pad_left: p.pad_left, pad_right, windows };
            let ghost before = plans_view(out@);
            let ghost v = plan@;
            out.push(plan);
            assert(plans_view(out@) =~= before.push(v));
            assert(v == goal[i as int]);
            assert(plans_view(out@) =~= goal.take(i + 1));
            i = i + 1;
        }
        assert(goal.take(i as int) =~= goal);
        Some((len_p, out))
    }
}

// ---------------------------------------------------------------- laws

/// The taps of a phase are the numbers that leave its remainder.
proof fn taps_are(first: int, stride: int, k_size: int, m: int)
    requires
        stride > 0,
        0 <= first,
        m >= 0,
    ensures
        m < taps_from(first, stride, k_size).len() <==> first + m * stride < k_size,
        m < taps_from(first, stride, k_size).len() ==> taps_from(first, stride, k_size)[m] == first
            + m * stride,
    decreases m,
{
    if first < k_size {
        let rest = taps_from(first + stride, stride, k_size);
        assert(taps_from(first, stride, k_size) =~= seq![first] + rest);
        if m == 0 {
            assert(0 * stride == 0);
        } else {
            taps_are(first + stride, stride, k_size, m - 1);
            assert(first + stride + (m - 1) * stride == first + m * stride) by (nonlinear_arith);
        }
    } else {
        assert(m * stride >= 0) by (nonlinear_arith)
            requires
                m >= 0,
                stride > 0,
        ;
    }
}

/// A window lies within the padded input.
pub proof fn windows_fit(r: int, stride: int, padding: int, k_size: int, l_in: int, len_p: int, m: int)
    requires
        0 <= r < stride,
        padding >= 0,
        l_in >= 1,
        len_p >= 1,
        0 <= m < phase_of(r, stride, padding, k_size).taps.len(),
    ensures
        ({
            let plan = plan_of(phase_of(r, stride, padding, k_size), l_in, len_p);
            0 <= plan.windows[m].from && plan.windows[m].from + len_p <= plan.pad_left + l_in
                + plan.pad_right
        }),
{
    lemma_div_pos_is_pos(r + padding, stride);
}

/// What a phase sums is what a transposed convolution sums: output `t` of the phase meets tap
/// `k` at input `i` exactly where `i * stride + k == t + padding`.
pub proof fn phases_sum_the_right_products(
    t: int,
    stride: int,
    padding: int,
    k_size: int,
    l_in: int,
    len_p: int,
    m: int,
)
    requires
        stride > 0,
        padding >= 0,
        t >= 0,
        0 <= m < phase_of(t % stride, stride, padding, k_size).taps.len(),
    ensures
        ({
            let plan = plan_of(phase_of(t % stride, stride, padding, k_size), l_in, len_p);
            let w = plan.windows[m];
            let i = w.from - plan.pad_left + t / stride;
            0 <= w.tap < k_size && i * stride + w.tap == t + padding
        }),
{
    let r = t % stride;
    let q = t / stride;
    lemma_fundamental_div_mod(t, stride);
    lemma_mod_bound(t, stride);
    let first = (r + padding) % stride;
    let shift = (r + padding) / stride;
    lemma_fundamental_div_mod(r + padding, stride);
    lemma_mod_bound(r + padding, stride);
    taps_are(first, stride, k_size, m);
    let p = phase_of(r, stride, padding, k_size);
    let plan = plan_of(p, l_in, len_p);
    let w = plan.windows[m];
    assert(w.tap == first + m * stride);
    assert(m * stride >= 0) by (nonlinear_arith)
        requires
            m >= 0,
            stride > 0,
    ;
    let i = shift - m + q;
    assert(i * stride + first + m * stride == stride * shift + first + stride * q) by (nonlinear_arith)
        requires
            i == shift - m + q,
    ;
}

/// And it misses none: every product of a transposed convolution for output `t` is one of the
/// windows of its phase.
pub proof fn phases_miss_no_product(
    t: int,
    stride: int,
    padding: int,
    k_size: int,
    l_in: int,
    len_p: int,
    i: int,
    k: int,
)
    requires
        stride > 0,
        padding >= 0,
        t >= 0,
        0 <= i,
        0 <= k < k_size,
        i * stride + k == t + padding,
    ensures
        ({
            let plan = plan_of(phase_of(t % stride, stride, padding, k_size), l_in, len_p);
            exists|m: int|
                0 <= m < plan.windows.len() && (#[trigger] plan.windows[m]).tap == k
                    && plan.windows[m].from - plan.pad_left + t / stride == i
        }),
{
    let r = t % stride;
    let q = t / stride;
    lemma_fundamental_div_mod(t, stride);
    lemma_mod_bound(t, stride);
    let first = (r + padding) % stride;
    let shift = (r + padding) / stride;
    lemma_fundamental_div_mod(r + padding, stride);
    lemma_mod_bound(r + padding, stride);
    let m = shift + q - i;
    assert(k == first + m * stride) by (nonlinear_arith)
        requires
            i * stride + k == t + padding,
            t == stride * q + r,
            r + padding == stride * shift + first,
            m == shift + q - i,
    ;
    assert(m >= 0) by (nonlinear_arith)
        requires
            k == first + m * stride,
            k >= 0,
            first < stride,
            stride > 0,
    ;
    taps_are(first, stride, k_size, m);
    let plan = plan_of(phase_of(r, stride, padding, k_size), l_in, len_p);
    assert(plan.windows[m].tap == k);
}

/// The phases interleave into the whole output: `stride` phases of `len_p` outputs each.
pub proof fn phases_fill_the_output(l_out: int, stride: int)
    requires
        stride > 0,
        l_out > 0,
        l_out % stride == 0,
    ensures
        stride * (l_out / stride) == l_out,
{
    lemma_fundamental_div_mod(l_out, stride);
}

} // verus!
