//! A residual block of a vocoder as one graph: every normalisation, snake, convolution and
//! residual of the block, and the operands that the graph is fed.
//!
//! For each pair of convolutions, `t = conv1(snake(adain(x)))` and
//! `x = conv2(snake(adain(t))) + x`. Moments are taken over the valid samples and snakes are
//! zero past them, so that a padded signal stays exact.

use vstd::prelude::*;

verus! {

/// One convolution of a block: kernel size and dilation. Padding is centred.
#[derive(Clone, Copy, PartialEq, Eq, Hash, Debug, Structural)]
pub struct ConvShape {
    pub k: usize,
    pub dilation: usize,
}

/// The length axis of a graph that serves every length.
pub const DYNAMIC: i64 = -1;

/// A node of a graph. Operands are the numbers of earlier nodes.
pub enum Op {
    /// Operand number `input`, of these dimensions.
    Placeholder(usize, Vec<i64>),
    /// The number one.
    One,
    /// The constant that keeps a variance from zero.
    Eps,
    Mul(usize, usize),
    Add(usize, usize),
    Sub(usize, usize),
    /// Entry `.2` of row `.1` of the parameters in node `.0`, one value per channel.
    Param(usize, usize, usize),
    /// The sum over the length axis.
    Sum(usize),
    ReciprocalSqrt(usize),
    Sin(usize),
    /// The convolution of node `.0` with the weights in node `.1`: dilation, zeros on the left
    /// and zeros on the right.
    Conv(usize, usize, usize, usize, usize),
}

/// What a node computes.
pub enum Expr {
    Input(int),
    One,
    Eps,
    Mul(Box<Expr>, Box<Expr>),
    Add(Box<Expr>, Box<Expr>),
    Sub(Box<Expr>, Box<Expr>),
    Param(Box<Expr>, int, int),
    Sum(Box<Expr>),
    ReciprocalSqrt(Box<Expr>),
    Sin(Box<Expr>),
    Conv(Box<Expr>, Box<Expr>, int, int, int),
}

/// Whether the operands of a node come before it.
pub open spec fn earlier_operands(op: Op, i: int) -> bool {
    match op {
        Op::Placeholder(_, _) => true,
        Op::One => true,
        Op::Eps => true,
        Op::Mul(a, b) => a < i && b < i,
        Op::Add(a, b) => a < i && b < i,
        Op::Sub(a, b) => a < i && b < i,
        Op::Param(a, _, _) => a < i,
        Op::Sum(a) => a < i,
        Op::ReciprocalSqrt(a) => a < i,
        Op::Sin(a) => a < i,
        Op::Conv(a, b, _, _, _) => a < i && b < i,
    }
}

/// A graph without cycles.
pub open spec fn well_formed(nodes: Seq<Op>) -> bool {
    forall|i: int| 0 <= i < nodes.len() ==> earlier_operands(#[trigger] nodes[i], i)
}

/// What node `i` computes.
#[verifier::opaque]
pub open spec fn meaning(nodes: Seq<Op>, i: int) -> Expr
    decreases i,
{
    if i < 0 || i >= nodes.len() || !earlier_operands(nodes[i], i) {
        Expr::One
    } else {
        match nodes[i] {
            Op::Placeholder(n, _) => Expr::Input(n as int),
            Op::One => Expr::One,
            Op::Eps => Expr::Eps,
            Op::Mul(a, b) => Expr::Mul(
                Box::new(meaning(nodes, a as int)),
                Box::new(meaning(nodes, b as int)),
            ),
            Op::Add(a, b) => Expr::Add(
                Box::new(meaning(nodes, a as int)),
                Box::new(meaning(nodes, b as int)),
            ),
            Op::Sub(a, b) => Expr::Sub(
                Box::new(meaning(nodes, a as int)),
                Box::new(meaning(nodes, b as int)),
            ),
            Op::Param(a, k, j) => Expr::Param(
                Box::new(meaning(nodes, a as int)),
                k as int,
                j as int,
            ),
            Op::Sum(a) => Expr::Sum(Box::new(meaning(nodes, a as int))),
            Op::ReciprocalSqrt(a) => Expr::ReciprocalSqrt(Box::new(meaning(nodes, a as int))),
            Op::Sin(a) => Expr::Sin(Box::new(meaning(nodes, a as int))),
            Op::Conv(a, b, d, l, r) => Expr::Conv(
                Box::new(meaning(nodes, a as int)),
                Box::new(meaning(nodes, b as int)),
                d as int,
                l as int,
                r as int,
            ),
        }
    }
}

/// What a node would compute behind the nodes of a graph.
pub open spec fn op_expr(op: Op, nodes: Seq<Op>) -> Expr {
    match op {
        Op::Placeholder(n, _) => Expr::Input(n as int),
        Op::One => Expr::One,
        Op::Eps => Expr::Eps,
        Op::Mul(a, b) => times(meaning(nodes, a as int), meaning(nodes, b as int)),
        Op::Add(a, b) => plus(meaning(nodes, a as int), meaning(nodes, b as int)),
        Op::Sub(a, b) => minus(meaning(nodes, a as int), meaning(nodes, b as int)),
        Op::Param(a, k, j) => Expr::Param(
            Box::new(meaning(nodes, a as int)),
            k as int,
            j as int,
        ),
        Op::Sum(a) => total(meaning(nodes, a as int)),
        Op::ReciprocalSqrt(a) => Expr::ReciprocalSqrt(Box::new(meaning(nodes, a as int))),
        Op::Sin(a) => Expr::Sin(Box::new(meaning(nodes, a as int))),
        Op::Conv(a, b, d, l, r) => Expr::Conv(
            Box::new(meaning(nodes, a as int)),
            Box::new(meaning(nodes, b as int)),
            d as int,
            l as int,
            r as int,
        ),
    }
}

pub open spec fn times(a: Expr, b: Expr) -> Expr {
    Expr::Mul(Box::new(a), Box::new(b))
}

pub open spec fn plus(a: Expr, b: Expr) -> Expr {
    Expr::Add(Box::new(a), Box::new(b))
}

pub open spec fn minus(a: Expr, b: Expr) -> Expr {
    Expr::Sub(Box::new(a), Box::new(b))
}

pub open spec fn total(a: Expr) -> Expr {
    Expr::Sum(Box::new(a))
}

/// The signal.
pub open spec fn signal() -> Expr {
    Expr::Input(0)
}

/// One where a sample is valid, and zero past the valid ones.
pub open spec fn mask() -> Expr {
    Expr::Input(2)
}

/// One over the number of valid samples.
pub open spec fn inv_n() -> Expr {
    Expr::Input(3)
}

/// Entry `j` of normalisation `k`: gamma, beta, alpha and one over beta, per channel.
pub open spec fn param(k: int, j: int) -> Expr {
    Expr::Param(Box::new(Expr::Input(1)), k, j)
}

/// The deviation from the mean of the valid samples, zero past them.
pub open spec fn deviation(x: Expr) -> Expr {
    times(minus(x, times(total(times(x, mask())), inv_n())), mask())
}

/// Normalisation `k`: the deviation over its standard deviation, scaled and shifted.
pub open spec fn adain(x: Expr, k: int) -> Expr {
    let d = deviation(x);
    let var = times(total(times(d, d)), inv_n());
    let scale = times(
        Expr::ReciprocalSqrt(Box::new(plus(var, Expr::Eps))),
        plus(param(k, 0), Expr::One),
    );
    plus(times(d, scale), param(k, 1))
}

/// The snake `y + sin(alpha y)^2 / beta` of normalisation `k`, zero past the valid samples.
pub open spec fn adain_snake(x: Expr, k: int) -> Expr {
    let y = adain(x, k);
    let s = Expr::Sin(Box::new(times(y, param(k, 2))));
    times(plus(y, times(param(k, 3), times(s, s))), mask())
}

/// The zeros on the left of a centred convolution.
pub open spec fn left_pad(s: ConvShape) -> int {
    (s.k - 1) * s.dilation / 2
}

/// Convolution `n`, centred, with its bias.
pub open spec fn convolved(x: Expr, n: int, s: ConvShape) -> Expr {
    plus(
        Expr::Conv(
            Box::new(x),
            Box::new(Expr::Input(4 + 2 * n)),
            s.dilation as int,
            left_pad(s),
            (s.k - 1) * s.dilation - left_pad(s),
        ),
        Expr::Input(5 + 2 * n),
    )
}

/// The block after its first `i` pairs.
pub open spec fn block(pairs: Seq<(ConvShape, ConvShape)>, i: int) -> Expr
    decreases i,
{
    if i <= 0 {
        signal()
    } else {
        let x = block(pairs, i - 1);
        let t = convolved(adain_snake(x, 2 * (i - 1)), 2 * (i - 1), pairs[i - 1].0);
        let y = convolved(adain_snake(t, 2 * (i - 1) + 1), 2 * (i - 1) + 1, pairs[i - 1].1);
        plus(y, x)
    }
}

/// The dimensions of operand `n`, for a signal of length `len`: the signal, the parameters, the
/// mask, one over the number of valid samples, then the weights and the bias of each
/// convolution.
pub open spec fn operand_dims(
    n: int,
    channels: int,
    pairs: Seq<(ConvShape, ConvShape)>,
    len: i64,
) -> Seq<i64> {
    let c = channels as i64;
    if n == 0 {
        seq![1, c, 1, len]
    } else if n == 1 {
        seq![(2 * pairs.len()) as i64, 4, c]
    } else if n == 2 {
        seq![1, 1, 1, len]
    } else if n == 3 {
        seq![1, 1, 1, 1]
    } else if n % 2 == 0 {
        let conv = (n - 4) / 2;
        let s = if conv % 2 == 0 {
            pairs[conv / 2].0
        } else {
            pairs[conv / 2].1
        };
        seq![1, s.k as i64, c, c]
    } else {
        seq![1, c, 1, 1]
    }
}

/// Whether the shapes of a block can be built: every kernel has a tap, and its reach is a
/// machine number.
pub open spec fn buildable(channels: usize, pairs: Seq<(ConvShape, ConvShape)>) -> bool {
    &&& channels <= i64::MAX
    &&& 4 * pairs.len() + 4 <= i64::MAX
    &&& forall|i: int|
        0 <= i < pairs.len() ==> fits((#[trigger] pairs[i]).0) && fits(pairs[i].1)
}

/// Whether a kernel has a tap and a reach within machine numbers.
pub open spec fn fits(s: ConvShape) -> bool {
    1 <= s.k <= i64::MAX && (s.k - 1) * s.dilation <= usize::MAX
}

/// A graph: its nodes, the nodes that are its operands in order, and the node of its result.
pub struct Graph {
    pub nodes: Vec<Op>,
    pub inputs: Vec<usize>,
    pub out: usize,
}

/// The dimensions of operand `n`.
pub fn dims_of(n: usize, channels: usize, pairs: &Vec<(ConvShape, ConvShape)>, len: i64) -> (r: Vec<
    i64,
>)
    requires
        buildable(channels, pairs@),
        n < 4 + 4 * pairs@.len(),
    ensures
        r@ == operand_dims(n as int, channels as int, pairs@, len),
{
    let c: i64 = channels as i64;
    if n == 0 {
        vec![1, c, 1, len]
    } else if n == 1 {
        let rows: i64 = 2 * (pairs.len() as i64);
        vec![rows, 4, c]
    } else if n == 2 {
        vec![1, 1, 1, len]
    } else if n == 3 {
        vec![1, 1, 1, 1]
    } else if n % 2 == 0 {
        let conv: usize = (n - 4) / 2;
        assert(fits(pairs@[conv as int / 2].0) && fits(pairs@[conv as int / 2].1));
        let k: usize = if conv % 2 == 0 {
            pairs[conv / 2].0.k
        } else {
            pairs[conv / 2].1.k
        };
        vec![1, k as i64, c, c]
    } else {
        vec![1, c, 1, 1]
    }
}

/// The dimensions of all operands for a signal of length `len`.
pub fn feeds(channels: usize, pairs: &Vec<(ConvShape, ConvShape)>, len: usize) -> (r: Vec<Vec<i64>>)
    requires
        buildable(channels, pairs@),
        len <= i64::MAX,
        4 + 4 * pairs@.len() <= usize::MAX,
    ensures
        r@.len() == 4 + 4 * pairs@.len(),
        forall|n: int|
            0 <= n < r@.len() ==> (#[trigger] r@[n])@ == operand_dims(
                n,
                channels as int,
                pairs@,
                len as i64,
            ),
{
    let mut out: Vec<Vec<i64>> = Vec::new();
    let count: usize = 4 + 4 * pairs.len();
    let mut n: usize = 0;
    while n < count
        invariant
            n <= count == 4 + 4 * pairs@.len(),
            buildable(channels, pairs@),
            out@.len() == n,
            forall|i: int|
                0 <= i < out@.len() ==> (#[trigger] out@[i])@ == operand_dims(
                    i,
                    channels as int,
                    pairs@,
                    len as i64,
                ),
        decreases count - n,
    {
        let dims = dims_of(n, channels, pairs, len as i64);
        out.push(dims);
        n = n + 1;
    }
    out
}

/// Whether a graph grew without changing what its nodes compute.
pub open spec fn grew(before: Seq<Op>, after: Seq<Op>) -> bool {
    &&& before.len() <= after.len()
    &&& after.take(before.len() as int) == before
    &&& well_formed(after)
    &&& forall|i: int| 0 <= i < before.len() ==> #[trigger] meaning(after, i) == meaning(before, i)
}

proof fn longer_graphs_mean_the_same(before: Seq<Op>, after: Seq<Op>, i: int)
    requires
        before.len() <= after.len(),
        after.take(before.len() as int) == before,
        well_formed(before),
        0 <= i < before.len(),
    ensures
        meaning(after, i) == meaning(before, i),
    decreases i,
{
    reveal_with_fuel(meaning, 2);
    assert(after[i] == before[i]) by {
        assert(after.take(before.len() as int)[i] == after[i]);
    }
    assert(earlier_operands(before[i], i));
    match before[i] {
        Op::Mul(a, b) | Op::Add(a, b) | Op::Sub(a, b) => {
            longer_graphs_mean_the_same(before, after, a as int);
            longer_graphs_mean_the_same(before, after, b as int);
        },
        Op::Conv(a, b, _, _, _) => {
            longer_graphs_mean_the_same(before, after, a as int);
            longer_graphs_mean_the_same(before, after, b as int);
        },
        Op::Param(a, _, _) | Op::Sum(a) | Op::ReciprocalSqrt(a) | Op::Sin(a) => {
            longer_graphs_mean_the_same(before, after, a as int);
        },
        _ => {},
    }
}

/// A node set behind a graph computes what its operation makes of its operands.
pub proof fn new_node_means(before: Seq<Op>, op: Op)
    requires
        well_formed(before),
        earlier_operands(op, before.len() as int),
    ensures
        meaning(before.push(op), before.len() as int) == op_expr(op, before),
{
    let after = before.push(op);
    assert(after.take(before.len() as int) =~= before);
    reveal_with_fuel(meaning, 2);
    match op {
        Op::Mul(a, b) | Op::Add(a, b) | Op::Sub(a, b) => {
            longer_graphs_mean_the_same(before, after, a as int);
            longer_graphs_mean_the_same(before, after, b as int);
        },
        Op::Conv(a, b, _, _, _) => {
            longer_graphs_mean_the_same(before, after, a as int);
            longer_graphs_mean_the_same(before, after, b as int);
        },
        Op::Param(a, _, _) | Op::Sum(a) | Op::ReciprocalSqrt(a) | Op::Sin(a) => {
            longer_graphs_mean_the_same(before, after, a as int);
        },
        _ => {},
    }
}

fn emit(nodes: &mut Vec<Op>, op: Op) -> (id: usize)
    requires
        well_formed(old(nodes)@),
        earlier_operands(op, old(nodes)@.len() as int),
    ensures
        final(nodes)@ == old(nodes)@.push(op),
        id == old(nodes)@.len(),
        grew(old(nodes)@, final(nodes)@),
        meaning(final(nodes)@, id as int) == op_expr(op, old(nodes)@),
{
    let id: usize = nodes.len();
    let ghost last = op;
    nodes.push(op);
    proof {
        let before = old(nodes)@;
        let after = nodes@;
        assert(after.take(before.len() as int) =~= before);
        assert forall|i: int| 0 <= i < before.len() implies #[trigger] meaning(after, i) == meaning(
            before,
            i,
        ) by {
            longer_graphs_mean_the_same(before, after, i);
        }
        assert forall|i: int| 0 <= i < after.len() implies earlier_operands(
            #[trigger] after[i],
            i,
        ) by {
            if i < before.len() {
                assert(after[i] == before[i]);
            }
        }
        new_node_means(before, last);
    }
    id
}

fn emit_mul(nodes: &mut Vec<Op>, a: usize, b: usize) -> (id: usize)
    requires
        well_formed(old(nodes)@),
        a < old(nodes)@.len(),
        b < old(nodes)@.len(),
    ensures
        id < final(nodes)@.len(),
        grew(old(nodes)@, final(nodes)@),
        meaning(final(nodes)@, id as int) == times(
            meaning(old(nodes)@, a as int),
            meaning(old(nodes)@, b as int),
        ),
{
    emit(nodes, Op::Mul(a, b))
}

fn emit_add(nodes: &mut Vec<Op>, a: usize, b: usize) -> (id: usize)
    requires
        well_formed(old(nodes)@),
        a < old(nodes)@.len(),
        b < old(nodes)@.len(),
    ensures
        id < final(nodes)@.len(),
        grew(old(nodes)@, final(nodes)@),
        meaning(final(nodes)@, id as int) == plus(
            meaning(old(nodes)@, a as int),
            meaning(old(nodes)@, b as int),
        ),
{
    emit(nodes, Op::Add(a, b))
}

fn emit_sub(nodes: &mut Vec<Op>, a: usize, b: usize) -> (id: usize)
    requires
        well_formed(old(nodes)@),
        a < old(nodes)@.len(),
        b < old(nodes)@.len(),
    ensures
        id < final(nodes)@.len(),
        grew(old(nodes)@, final(nodes)@),
        meaning(final(nodes)@, id as int) == minus(
            meaning(old(nodes)@, a as int),
            meaning(old(nodes)@, b as int),
        ),
{
    emit(nodes, Op::Sub(a, b))
}

fn emit_sum(nodes: &mut Vec<Op>, a: usize) -> (id: usize)
    requires
        well_formed(old(nodes)@),
        a < old(nodes)@.len(),
    ensures
        id < final(nodes)@.len(),
        grew(old(nodes)@, final(nodes)@),
        meaning(final(nodes)@, id as int) == total(meaning(old(nodes)@, a as int)),
{
    emit(nodes, Op::Sum(a))
}

fn emit_param(nodes: &mut Vec<Op>, params: usize, k: usize, j: usize) -> (id: usize)
    requires
        well_formed(old(nodes)@),
        params < old(nodes)@.len(),
        meaning(old(nodes)@, params as int) == Expr::Input(1),
    ensures
        id < final(nodes)@.len(),
        grew(old(nodes)@, final(nodes)@),
        meaning(final(nodes)@, id as int) == param(k as int, j as int),
{
    emit(nodes, Op::Param(params, k, j))
}

/// The nodes that every part of a block uses.
#[derive(Clone, Copy)]
struct Shared {
    params: usize,
    mask: usize,
    inv_n: usize,
    one: usize,
    eps: usize,
}

/// Whether the shared nodes compute what they stand for.
spec fn shared_ok(s: Shared, nodes: Seq<Op>) -> bool {
    &&& s.params < nodes.len() && meaning(nodes, s.params as int) == Expr::Input(1)
    &&& s.mask < nodes.len() && meaning(nodes, s.mask as int) == mask()
    &&& s.inv_n < nodes.len() && meaning(nodes, s.inv_n as int) == inv_n()
    &&& s.one < nodes.len() && meaning(nodes, s.one as int) == Expr::One
    &&& s.eps < nodes.len() && meaning(nodes, s.eps as int) == Expr::Eps
}

proof fn growth_adds_up(a: Seq<Op>, b: Seq<Op>, c: Seq<Op>)
    requires
        grew(a, b),
        grew(b, c),
    ensures
        grew(a, c),
{
    assert(c.take(a.len() as int) =~= b.take(a.len() as int)) by {
        assert forall|i: int| 0 <= i < a.len() implies c[i] == b[i] by {
            assert(c.take(b.len() as int)[i] == c[i]);
        }
    }
    assert forall|i: int| 0 <= i < a.len() implies #[trigger] meaning(c, i) == meaning(a, i) by {
        assert(meaning(c, i) == meaning(b, i));
        assert(meaning(b, i) == meaning(a, i));
    }
}

fn emit_deviation(nodes: &mut Vec<Op>, s: Shared, x: usize) -> (id: usize)
    requires
        well_formed(old(nodes)@),
        shared_ok(s, old(nodes)@),
        x < old(nodes)@.len(),
    ensures
        id < final(nodes)@.len(),
        grew(old(nodes)@, final(nodes)@),
        meaning(final(nodes)@, id as int) == deviation(meaning(old(nodes)@, x as int)),
{
    let ghost n0 = nodes@;
    let masked: usize = emit_mul(nodes, x, s.mask);
    let ghost n1 = nodes@;
    let sum: usize = emit_sum(nodes, masked);
    let ghost n2 = nodes@;
    proof {
        growth_adds_up(n0, n1, n2);
    }
    let mean: usize = emit_mul(nodes, sum, s.inv_n);
    let ghost n3 = nodes@;
    proof {
        growth_adds_up(n0, n2, n3);
        assert(meaning(n2, s.inv_n as int) == meaning(n0, s.inv_n as int));
    }
    let off: usize = emit_sub(nodes, x, mean);
    let ghost n4 = nodes@;
    proof {
        growth_adds_up(n0, n3, n4);
        assert(meaning(n3, x as int) == meaning(n0, x as int));
    }
    let id: usize = emit_mul(nodes, off, s.mask);
    proof {
        growth_adds_up(n0, n4, nodes@);
        assert(meaning(n4, s.mask as int) == meaning(n0, s.mask as int));
    }
    id
}

/// One over the standard deviation of the deviation in node `d`.
fn emit_inverse(nodes: &mut Vec<Op>, s: Shared, d: usize) -> (id: usize)
    requires
        well_formed(old(nodes)@),
        shared_ok(s, old(nodes)@),
        d < old(nodes)@.len(),
    ensures
        id < final(nodes)@.len(),
        grew(old(nodes)@, final(nodes)@),
        ({
            let x = meaning(old(nodes)@, d as int);
            meaning(final(nodes)@, id as int) == Expr::ReciprocalSqrt(
                Box::new(plus(times(total(times(x, x)), inv_n()), Expr::Eps)),
            )
        }),
{
    let ghost n0 = nodes@;
    let squared: usize = emit_mul(nodes, d, d);
    let ghost n1 = nodes@;
    let sum: usize = emit_sum(nodes, squared);
    let ghost n2 = nodes@;
    proof {
        growth_adds_up(n0, n1, n2);
        assert(meaning(n2, s.inv_n as int) == meaning(n0, s.inv_n as int));
    }
    let var: usize = emit_mul(nodes, sum, s.inv_n);
    let ghost n3 = nodes@;
    proof {
        growth_adds_up(n0, n2, n3);
        assert(meaning(n3, s.eps as int) == meaning(n0, s.eps as int));
    }
    let safe: usize = emit_add(nodes, var, s.eps);
    let ghost n4 = nodes@;
    proof {
        growth_adds_up(n0, n3, n4);
    }
    let id: usize = emit(nodes, Op::ReciprocalSqrt(safe));
    proof {
        growth_adds_up(n0, n4, nodes@);
    }
    id
}

fn emit_adain(nodes: &mut Vec<Op>, s: Shared, x: usize, k: usize) -> (id: usize)
    requires
        well_formed(old(nodes)@),
        shared_ok(s, old(nodes)@),
        x < old(nodes)@.len(),
    ensures
        id < final(nodes)@.len(),
        grew(old(nodes)@, final(nodes)@),
        meaning(final(nodes)@, id as int) == adain(meaning(old(nodes)@, x as int), k as int),
{
    let ghost n0 = nodes@;
    let d: usize = emit_deviation(nodes, s, x);
    let ghost n1 = nodes@;
    proof {
        shared_stays(s, n0, n1);
    }
    let inverse: usize = emit_inverse(nodes, s, d);
    let ghost n2 = nodes@;
    proof {
        growth_adds_up(n0, n1, n2);
        assert(meaning(n2, s.params as int) == meaning(n0, s.params as int));
    }
    let gamma: usize = emit_param(nodes, s.params, k, 0);
    let ghost n3 = nodes@;
    proof {
        growth_adds_up(n0, n2, n3);
        assert(meaning(n3, s.one as int) == meaning(n0, s.one as int));
    }
    let gain: usize = emit_add(nodes, gamma, s.one);
    let ghost n4 = nodes@;
    proof {
        growth_adds_up(n0, n3, n4);
        growth_adds_up(n2, n3, n4);
        growth_adds_up(n1, n2, n4);
        assert(meaning(n4, inverse as int) == meaning(n2, inverse as int));
    }
    let scale: usize = emit_mul(nodes, inverse, gain);
    let ghost n5 = nodes@;
    proof {
        growth_adds_up(n0, n4, n5);
        growth_adds_up(n1, n4, n5);
        assert(meaning(n5, d as int) == meaning(n1, d as int));
    }
    let scaled: usize = emit_mul(nodes, d, scale);
    let ghost n6 = nodes@;
    proof {
        growth_adds_up(n0, n5, n6);
        assert(meaning(n6, s.params as int) == meaning(n0, s.params as int));
    }
    let beta: usize = emit_param(nodes, s.params, k, 1);
    let ghost n7 = nodes@;
    proof {
        growth_adds_up(n0, n6, n7);
        assert(meaning(n7, scaled as int) == meaning(n6, scaled as int));
    }
    let id: usize = emit_add(nodes, scaled, beta);
    proof {
        growth_adds_up(n0, n7, nodes@);
    }
    id
}

fn emit_adain_snake(nodes: &mut Vec<Op>, s: Shared, x: usize, k: usize) -> (id: usize)
    requires
        well_formed(old(nodes)@),
        shared_ok(s, old(nodes)@),
        x < old(nodes)@.len(),
    ensures
        id < final(nodes)@.len(),
        grew(old(nodes)@, final(nodes)@),
        meaning(final(nodes)@, id as int) == adain_snake(meaning(old(nodes)@, x as int), k as int),
{
    let ghost n0 = nodes@;
    let y: usize = emit_adain(nodes, s, x, k);
    let ghost n1 = nodes@;
    assert(meaning(n1, s.params as int) == meaning(n0, s.params as int));
    let alpha: usize = emit_param(nodes, s.params, k, 2);
    let ghost n2 = nodes@;
    proof {
        growth_adds_up(n0, n1, n2);
        assert(meaning(n2, y as int) == meaning(n1, y as int));
    }
    let phase: usize = emit_mul(nodes, y, alpha);
    let ghost n3 = nodes@;
    proof {
        growth_adds_up(n0, n2, n3);
        growth_adds_up(n1, n2, n3);
    }
    let sine: usize = emit(nodes, Op::Sin(phase));
    let ghost n4 = nodes@;
    proof {
        growth_adds_up(n0, n3, n4);
        growth_adds_up(n1, n3, n4);
    }
    let squared: usize = emit_mul(nodes, sine, sine);
    let ghost n5 = nodes@;
    proof {
        growth_adds_up(n0, n4, n5);
        growth_adds_up(n1, n4, n5);
        assert(meaning(n5, s.params as int) == meaning(n0, s.params as int));
    }
    let recip: usize = emit_param(nodes, s.params, k, 3);
    let ghost n6 = nodes@;
    proof {
        growth_adds_up(n0, n5, n6);
        growth_adds_up(n1, n5, n6);
        assert(meaning(n6, squared as int) == meaning(n5, squared as int));
    }
    let bend: usize = emit_mul(nodes, recip, squared);
    let ghost n7 = nodes@;
    proof {
        growth_adds_up(n0, n6, n7);
        growth_adds_up(n1, n6, n7);
        assert(meaning(n7, y as int) == meaning(n1, y as int));
    }
    let bent: usize = emit_add(nodes, y, bend);
    let ghost n8 = nodes@;
    proof {
        growth_adds_up(n0, n7, n8);
        assert(meaning(n8, s.mask as int) == meaning(n0, s.mask as int));
    }
    let id: usize = emit_mul(nodes, bent, s.mask);
    proof {
        growth_adds_up(n0, n8, nodes@);
    }
    id
}

/// Whether the operands so far stand where they should.
spec fn operands_ok(
    inputs: Seq<usize>,
    nodes: Seq<Op>,
    channels: int,
    pairs: Seq<(ConvShape, ConvShape)>,
) -> bool {
    forall|n: int|
        0 <= n < inputs.len() ==> (#[trigger] inputs[n]) < nodes.len() && is_operand(
            nodes[inputs[n] as int],
            n,
            channels,
            pairs,
        )
}

/// Whether a node is operand `n`, with its dimensions and a length axis that serves every
/// length.
pub open spec fn is_operand(
    op: Op,
    n: int,
    channels: int,
    pairs: Seq<(ConvShape, ConvShape)>,
) -> bool {
    match op {
        Op::Placeholder(i, dims) => i == n && dims@ == operand_dims(n, channels, pairs, DYNAMIC),
        _ => false,
    }
}

proof fn operands_stay(
    inputs: Seq<usize>,
    before: Seq<Op>,
    after: Seq<Op>,
    channels: int,
    pairs: Seq<(ConvShape, ConvShape)>,
)
    requires
        operands_ok(inputs, before, channels, pairs),
        grew(before, after),
    ensures
        operands_ok(inputs, after, channels, pairs),
{
    assert forall|n: int| 0 <= n < inputs.len() implies (#[trigger] inputs[n]) < after.len()
        && is_operand(after[inputs[n] as int], n, channels, pairs) by {
        assert(after.take(before.len() as int)[inputs[n] as int] == after[inputs[n] as int]);
    }
}

fn emit_operand(
    nodes: &mut Vec<Op>,
    inputs: &mut Vec<usize>,
    channels: usize,
    pairs: &Vec<(ConvShape, ConvShape)>,
) -> (id: usize)
    requires
        well_formed(old(nodes)@),
        buildable(channels, pairs@),
        operands_ok(old(inputs)@, old(nodes)@, channels as int, pairs@),
        old(inputs)@.len() < 4 + 4 * pairs@.len(),
    ensures
        id < final(nodes)@.len(),
        grew(old(nodes)@, final(nodes)@),
        final(inputs)@ == old(inputs)@.push(id),
        operands_ok(final(inputs)@, final(nodes)@, channels as int, pairs@),
        meaning(final(nodes)@, id as int) == Expr::Input(old(inputs)@.len() as int),
{
    let n: usize = inputs.len();
    let dims = dims_of(n, channels, pairs, DYNAMIC);
    let id: usize = emit(nodes, Op::Placeholder(n, dims));
    proof {
        operands_stay(inputs@, old(nodes)@, nodes@, channels as int, pairs@);
    }
    inputs.push(id);
    id
}

fn emit_conv(
    nodes: &mut Vec<Op>,
    inputs: &mut Vec<usize>,
    channels: usize,
    pairs: &Vec<(ConvShape, ConvShape)>,
    x: usize,
    s: ConvShape,
) -> (id: usize)
    requires
        well_formed(old(nodes)@),
        buildable(channels, pairs@),
        fits(s),
        x < old(nodes)@.len(),
        operands_ok(old(inputs)@, old(nodes)@, channels as int, pairs@),
        old(inputs)@.len() + 1 < 4 + 4 * pairs@.len(),
        old(inputs)@.len() >= 4,
        old(inputs)@.len() % 2 == 0,
    ensures
        id < final(nodes)@.len(),
        grew(old(nodes)@, final(nodes)@),
        final(inputs)@.len() == old(inputs)@.len() + 2,
        operands_ok(final(inputs)@, final(nodes)@, channels as int, pairs@),
        meaning(final(nodes)@, id as int) == convolved(
            meaning(old(nodes)@, x as int),
            (old(inputs)@.len() - 4) / 2,
            s,
        ),
{
    let ghost n0 = nodes@;
    let w: usize = emit_operand(nodes, inputs, channels, pairs);
    let ghost n1 = nodes@;
    let b: usize = emit_operand(nodes, inputs, channels, pairs);
    let ghost n2 = nodes@;
    proof {
        growth_adds_up(n0, n1, n2);
        assert(meaning(n2, w as int) == meaning(n1, w as int));
        assert(meaning(n2, x as int) == meaning(n0, x as int));
    }
    assert((s.k - 1) * s.dilation >= 0) by (nonlinear_arith)
        requires
            s.k >= 1,
            s.dilation >= 0,
    ;
    let reach: usize = (s.k - 1) * s.dilation;
    let left: usize = reach / 2;
    let y: usize = emit(nodes, Op::Conv(x, w, s.dilation, left, reach - left));
    let ghost n3 = nodes@;
    proof {
        growth_adds_up(n0, n2, n3);
        operands_stay(inputs@, n2, n3, channels as int, pairs@);
        assert(meaning(n3, b as int) == meaning(n2, b as int));
    }
    let id: usize = emit_add(nodes, y, b);
    proof {
        growth_adds_up(n0, n3, nodes@);
        operands_stay(inputs@, n3, nodes@, channels as int, pairs@);
    }
    id
}

impl Graph {
    /// The graph of a block: its operands in order, and a result that computes the block.
    pub fn build(channels: usize, pairs: &Vec<(ConvShape, ConvShape)>) -> (r: Graph)
        requires
            buildable(channels, pairs@),
            4 * pairs@.len() + 4 <= usize::MAX,
        ensures
            well_formed(r.nodes@),
            r.out < r.nodes@.len(),
            meaning(r.nodes@, r.out as int) == block(pairs@, pairs@.len() as int),
            r.inputs@.len() == 4 + 4 * pairs@.len(),
            forall|n: int|
                0 <= n < r.inputs@.len() ==> (#[trigger] r.inputs@[n]) < r.nodes@.len()
                    && is_operand(r.nodes@[r.inputs@[n] as int], n, channels as int, pairs@),
    {
        let mut nodes: Vec<Op> = Vec::new();
        let mut inputs: Vec<usize> = Vec::new();
        let x_in: usize = emit_operand(&mut nodes, &mut inputs, channels, pairs);
        let ghost n1 = nodes@;
        let params: usize = emit_operand(&mut nodes, &mut inputs, channels, pairs);
        let ghost n2 = nodes@;
        let mask_in: usize = emit_operand(&mut nodes, &mut inputs, channels, pairs);
        let ghost n3 = nodes@;
        let inv_n_in: usize = emit_operand(&mut nodes, &mut inputs, channels, pairs);
        let ghost n4 = nodes@;
        let one: usize = emit(&mut nodes, Op::One);
        let ghost n5 = nodes@;
        let eps: usize = emit(&mut nodes, Op::Eps);
        let s = Shared { params, mask: mask_in, inv_n: inv_n_in, one, eps };
        proof {
            growth_adds_up(n4, n5, nodes@);
            growth_adds_up(n3, n4, nodes@);
            growth_adds_up(n2, n3, nodes@);
            growth_adds_up(n1, n2, nodes@);
            operands_stay(inputs@, n4, nodes@, channels as int, pairs@);
            assert(meaning(nodes@, x_in as int) == meaning(n1, x_in as int));
            assert(meaning(nodes@, params as int) == meaning(n2, params as int));
            assert(meaning(nodes@, mask_in as int) == meaning(n3, mask_in as int));
            assert(meaning(nodes@, inv_n_in as int) == meaning(n4, inv_n_in as int));
            assert(meaning(nodes@, one as int) == meaning(n5, one as int));
            assert(shared_ok(s, nodes@));
        }
        let mut x: usize = x_in;
        let mut i: usize = 0;
        while i < pairs.len()
            invariant
                i <= pairs@.len(),
                4 * pairs@.len() + 4 <= usize::MAX,
                buildable(channels, pairs@),
                well_formed(nodes@),
                shared_ok(s, nodes@),
                x < nodes@.len(),
                meaning(nodes@, x as int) == block(pairs@, i as int),
                inputs@.len() == 4 + 4 * i,
                operands_ok(inputs@, nodes@, channels as int, pairs@),
            decreases pairs.len() - i,
        {
            let ghost m0 = nodes@;
            let (c1, c2) = pairs[i];
            assert(fits(pairs@[i as int].0) && fits(pairs@[i as int].1));
            let a1: usize = emit_adain_snake(&mut nodes, s, x, 2 * i);
            let ghost m1 = nodes@;
            proof {
                operands_stay(inputs@, m0, m1, channels as int, pairs@);
            }
            let t: usize = emit_conv(&mut nodes, &mut inputs, channels, pairs, a1, c1);
            let ghost m2 = nodes@;
            proof {
                growth_adds_up(m0, m1, m2);
                shared_stays(s, m0, m2);
            }
            let a2: usize = emit_adain_snake(&mut nodes, s, t, 2 * i + 1);
            let ghost m3 = nodes@;
            proof {
                growth_adds_up(m0, m2, m3);
                operands_stay(inputs@, m2, m3, channels as int, pairs@);
            }
            let y: usize = emit_conv(&mut nodes, &mut inputs, channels, pairs, a2, c2);
            let ghost m4 = nodes@;
            proof {
                growth_adds_up(m0, m3, m4);
                assert(meaning(m4, x as int) == meaning(m0, x as int));
            }
            x = emit_add(&mut nodes, y, x);
            proof {
                growth_adds_up(m0, m4, nodes@);
                shared_stays(s, m0, nodes@);
                operands_stay(inputs@, m4, nodes@, channels as int, pairs@);
            }
            i = i + 1;
        }
        Graph { nodes, inputs, out: x }
    }
}

proof fn shared_stays(s: Shared, before: Seq<Op>, after: Seq<Op>)
    requires
        shared_ok(s, before),
        grew(before, after),
    ensures
        shared_ok(s, after),
{
    assert(meaning(after, s.params as int) == meaning(before, s.params as int));
    assert(meaning(after, s.mask as int) == meaning(before, s.mask as int));
    assert(meaning(after, s.inv_n as int) == meaning(before, s.inv_n as int));
    assert(meaning(after, s.one as int) == meaning(before, s.one as int));
    assert(meaning(after, s.eps as int) == meaning(before, s.eps as int));
}

} // verus!
