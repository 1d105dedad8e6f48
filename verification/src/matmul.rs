//! Matrix products of tensors with any leading shape, as one product of two dimensions.

use vstd::prelude::*;

verus! {

/// The product of a shape.
pub open spec fn volume(dims: Seq<usize>) -> int
    decreases dims.len(),
{
    if dims.len() == 0 {
        1
    } else {
        volume(dims.drop_last()) * dims.last()
    }
}

/// A product `[rows, k] x [k, n]`, and the shape of its result.
pub struct Flat {
    pub rows: usize,
    pub k: usize,
    pub n: usize,
    pub shape: Vec<usize>,
}

/// The leading dimensions are collapsed into rows: a product that kept them would spread the
/// weight over the batch and take a slower kernel.
pub fn flatten(dims: &Vec<usize>, n: usize) -> (r: Flat)
    requires
        dims@.len() > 0,
        volumes_fit(dims@.drop_last()),
    ensures
        r.rows == volume(dims@.drop_last()),
        r.k == dims@.last(),
        r.n == n,
        r.shape@ == dims@.drop_last().push(n),
{
    let last: usize = dims.len() - 1;
    let ghost lead = dims@.drop_last();
    let mut rows: usize = 1;
    let mut shape: Vec<usize> = Vec::new();
    let mut i: usize = 0;
    while i < last
        invariant
            i <= last == dims@.len() - 1,
            lead == dims@.drop_last(),
            volumes_fit(lead),
            rows == volume(lead.take(i as int)),
            shape@ == lead.take(i as int),
        decreases last - i,
    {
        proof {
            assert(lead.take(i + 1).drop_last() =~= lead.take(i as int));
            assert(volume(lead.take(i + 1)) <= usize::MAX);
            volume_is_natural(lead.take(i + 1));
            assert(lead[i as int] == dims@[i as int]);
        }
        rows = rows * dims[i];
        shape.push(dims[i]);
        assert(shape@ =~= lead.take(i + 1));
        i = i + 1;
    }
    assert(lead.take(last as int) =~= lead);
    shape.push(n);
    Flat { rows, k: dims[last], n, shape }
}

/// Whether the product of every beginning of a shape is a machine number.
pub open spec fn volumes_fit(dims: Seq<usize>) -> bool {
    forall|i: int| 0 <= i <= dims.len() ==> #[trigger] volume(dims.take(i)) <= usize::MAX
}

proof fn volume_is_natural(dims: Seq<usize>)
    ensures
        volume(dims) >= 0,
    decreases dims.len(),
{
    if dims.len() > 0 {
        volume_is_natural(dims.drop_last());
        assert(volume(dims.drop_last()) * dims.last() >= 0) by (nonlinear_arith)
            requires
                volume(dims.drop_last()) >= 0,
                dims.last() >= 0,
        ;
    }
}

/// The channels of one group of a grouped convolution: where its inputs and its outputs begin,
/// and how many there are.
#[derive(Clone, Copy, Debug)]
pub struct Group {
    pub in_start: usize,
    pub in_len: usize,
    pub out_start: usize,
    pub out_len: usize,
}

/// The channels of every group of a grouped convolution.
pub fn groups_of(c_in: usize, c_out: usize, groups: usize) -> (r: Vec<Group>)
    requires
        groups > 0,
    ensures
        r@.len() == groups,
        forall|g: int|
            0 <= g < groups ==> #[trigger] r@[g] == (Group {
                in_start: (g * (c_in as int / groups as int)) as usize,
                in_len: (c_in as int / groups as int) as usize,
                out_start: (g * (c_out as int / groups as int)) as usize,
                out_len: (c_out as int / groups as int) as usize,
            }),
{
    let in_per: usize = c_in / groups;
    let out_per: usize = c_out / groups;
    let mut out: Vec<Group> = Vec::new();
    let mut g: usize = 0;
    while g < groups
        invariant
            g <= groups,
            in_per == c_in as int / groups as int,
            out_per == c_out as int / groups as int,
            groups > 0,
            out@.len() == g,
            forall|i: int|
                0 <= i < g ==> #[trigger] out@[i] == (Group {
                    in_start: (i * in_per) as usize,
                    in_len: in_per,
                    out_start: (i * out_per) as usize,
                    out_len: out_per,
                }),
        decreases groups - g,
    {
        proof {
            share_fits(c_in as int, groups as int, g as int);
            share_fits(c_out as int, groups as int, g as int);
        }
        out.push(
            Group {
                in_start: g * in_per,
                in_len: in_per,
                out_start: g * out_per,
                out_len: out_per,
            },
        );
        g = g + 1;
    }
    out
}

proof fn share_fits(c: int, groups: int, g: int)
    requires
        c >= 0,
        0 <= g < groups,
    ensures
        0 <= g * (c / groups),
        g * (c / groups) + c / groups <= c,
{
    vstd::arithmetic::div_mod::lemma_fundamental_div_mod(c, groups);
    vstd::arithmetic::div_mod::lemma_div_pos_is_pos(c, groups);
    let p = c / groups;
    assert(0 <= g * p && g * p + p <= groups * p) by (nonlinear_arith)
        requires
            0 <= g < groups,
            p >= 0,
    ;
}

/// The groups of a convolution do not overlap and stay within its channels; they cover all of
/// them where their number divides the channels.
pub proof fn groups_share_the_channels(c: int, groups: int, g: int)
    requires
        c >= 0,
        0 <= g < groups,
    ensures
        0 <= g * (c / groups),
        g * (c / groups) + c / groups <= c,
        g * (c / groups) + c / groups == (g + 1) * (c / groups),
        c % groups == 0 ==> groups * (c / groups) == c,
{
    share_fits(c, groups, g);
    vstd::arithmetic::div_mod::lemma_fundamental_div_mod(c, groups);
    assert(g * (c / groups) + c / groups == (g + 1) * (c / groups)) by (nonlinear_arith);
}

} // verus!
