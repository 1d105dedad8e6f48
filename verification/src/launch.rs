//! What a kernel of the device is launched with: which operands it may take, where they begin,
//! and how many threads run.

use crate::api::{decimal_text, number_text};
use crate::text::{cat, cat3};
use vstd::arithmetic::div_mod::*;
use vstd::prelude::*;
use vstd::string::*;

verus! {

/// The element type of a tensor.
#[derive(Clone, Copy, Debug, PartialEq, Eq, Structural)]
pub enum Dtype {
    U8,
    U32,
    I16,
    I32,
    I64,
    BF16,
    F16,
    F32,
    F64,
    F8E4M3,
    F6E2M3,
    F6E3M2,
    F4,
    F8E8M0,
}

/// The bytes of one element, none where several share a byte.
pub open spec fn size_of_dtype(d: Dtype) -> int {
    match d {
        Dtype::U8 | Dtype::F8E4M3 | Dtype::F8E8M0 => 1,
        Dtype::I16 | Dtype::BF16 | Dtype::F16 => 2,
        Dtype::U32 | Dtype::I32 | Dtype::F32 => 4,
        Dtype::I64 | Dtype::F64 => 8,
        Dtype::F6E2M3 | Dtype::F6E3M2 | Dtype::F4 => 0,
    }
}

/// The name of an element type.
pub open spec fn dtype_name(d: Dtype) -> Seq<char> {
    match d {
        Dtype::U8 => "U8"@,
        Dtype::U32 => "U32"@,
        Dtype::I16 => "I16"@,
        Dtype::I32 => "I32"@,
        Dtype::I64 => "I64"@,
        Dtype::BF16 => "BF16"@,
        Dtype::F16 => "F16"@,
        Dtype::F32 => "F32"@,
        Dtype::F64 => "F64"@,
        Dtype::F8E4M3 => "F8E4M3"@,
        Dtype::F6E2M3 => "F6E2M3"@,
        Dtype::F6E3M2 => "F6E3M2"@,
        Dtype::F4 => "F4"@,
        Dtype::F8E8M0 => "F8E8M0"@,
    }
}

impl Dtype {
    /// The bytes of one element.
    pub fn size_in_bytes(self) -> (r: usize)
        ensures
            r == size_of_dtype(self),
    {
        match self {
            Dtype::U8 | Dtype::F8E4M3 | Dtype::F8E8M0 => 1,
            Dtype::I16 | Dtype::BF16 | Dtype::F16 => 2,
            Dtype::U32 | Dtype::I32 | Dtype::F32 => 4,
            Dtype::I64 | Dtype::F64 => 8,
            Dtype::F6E2M3 | Dtype::F6E3M2 | Dtype::F4 => 0,
        }
    }

    /// The name of the element type.
    pub fn name(self) -> (r: &'static str)
        ensures
            r@ == dtype_name(self),
    {
        match self {
            Dtype::U8 => "U8",
            Dtype::U32 => "U32",
            Dtype::I16 => "I16",
            Dtype::I32 => "I32",
            Dtype::I64 => "I64",
            Dtype::BF16 => "BF16",
            Dtype::F16 => "F16",
            Dtype::F32 => "F32",
            Dtype::F64 => "F64",
            Dtype::F8E4M3 => "F8E4M3",
            Dtype::F6E2M3 => "F6E2M3",
            Dtype::F6E3M2 => "F6E3M2",
            Dtype::F4 => "F4",
            Dtype::F8E8M0 => "F8E8M0",
        }
    }
}

/// What is known of an operand: whether its elements lie one after the other, the element at
/// which it begins in its buffer, its element type, and whether the buffer is the device's.
#[derive(Clone, Copy, Debug)]
pub struct Operand {
    pub contiguous: bool,
    pub start: usize,
    pub dtype: Dtype,
    pub on_device: bool,
}

/// A number of threads, or of groups of them, in three dimensions.
#[derive(Clone, Copy, Debug, PartialEq, Eq, Structural)]
pub struct Size3 {
    pub width: usize,
    pub height: usize,
    pub depth: usize,
}

/// A buffer that a kernel is given: the slot that it takes, the operand whose buffer it is, by
/// its number among the operands of the launch, and the byte at which it begins.
#[derive(Clone, Copy, Debug, PartialEq, Eq, Structural)]
pub struct Binding {
    pub slot: usize,
    pub operand: usize,
    pub offset: usize,
}

/// A number that a kernel is given, and the slot that it takes.
#[derive(Clone, Copy, Debug, PartialEq, Eq, Structural)]
pub struct Number {
    pub slot: usize,
    pub value: u32,
}

/// What the grid of a launch counts.
#[derive(Clone, Copy, Debug, PartialEq, Eq, Structural)]
pub enum Counts {
    /// The threads in all.
    Threads,
    /// The groups of threads.
    Groups,
}

/// A launch: the kernel, the buffers of the operands, the slot of the result with its elements
/// and their type, the whole numbers that the kernel is given, what the grid counts, the grid,
/// and the threads of one group. The fractions that some kernels take go into the slot behind
/// the numbers.
pub struct Launch {
    pub kernel: &'static str,
    pub buffers: Vec<Binding>,
    pub result: usize,
    pub out: usize,
    pub out_type: Dtype,
    pub numbers: Vec<Number>,
    pub counts: Counts,
    pub grid: Size3,
    pub group: Size3,
}

/// The meaning of a launch.
#[verifier::ext_equal]
pub struct LaunchView {
    pub kernel: Seq<char>,
    pub buffers: Seq<Binding>,
    pub result: int,
    pub out: int,
    pub out_type: Dtype,
    pub numbers: Seq<Number>,
    pub counts: Counts,
    pub grid: Size3,
    pub group: Size3,
}

impl View for Launch {
    type V = LaunchView;

    open spec fn view(&self) -> LaunchView {
        LaunchView {
            kernel: self.kernel@,
            buffers: self.buffers@,
            result: self.result as int,
            out: self.out as int,
            out_type: self.out_type,
            numbers: self.numbers@,
            counts: self.counts,
            grid: self.grid,
            group: self.group,
        }
    }
}

/// How many cells a size has.
pub open spec fn volume(s: Size3) -> int {
    s.width * s.height * s.depth
}

impl LaunchView {
    /// How many threads a launch runs.
    pub open spec fn threads_run(self) -> int {
        match self.counts {
            Counts::Threads => volume(self.grid),
            Counts::Groups => volume(self.grid) * volume(self.group),
        }
    }
}

/// A launch that counts groups in a row runs every thread of each of them.
pub proof fn rows_of_groups_run_full(l: LaunchView, rows: usize, width: usize)
    requires
        l.counts == Counts::Groups,
        l.grid == size3(rows as int, 1, 1),
        l.group == size3(width as int, 1, 1),
    ensures
        l.threads_run() == rows * width,
{
    assert(rows * 1 * 1 == rows && width * 1 * 1 == width);
    assert(volume(l.grid) == rows) by (nonlinear_arith)
        requires
            volume(l.grid) == rows * 1 * 1,
    ;
    assert(volume(l.group) == width) by (nonlinear_arith)
        requires
            volume(l.group) == width * 1 * 1,
    ;
}

/// The byte at which an operand begins.
pub open spec fn byte_offset(o: Operand) -> usize {
    (o.start * size_of_dtype(o.dtype)) as usize
}

/// The byte at which an operand of words of four bytes begins.
pub open spec fn word_offset(o: Operand) -> usize {
    (o.start * 4) as usize
}

/// Whether every operand begins at a byte that is a machine number.
pub open spec fn addressable(v: Seq<Operand>) -> bool {
    forall|i: int|
        0 <= i < v.len() ==> (#[trigger] v[i]).start * size_of_dtype(v[i].dtype) <= usize::MAX
            && v[i].start * 4 <= usize::MAX
}

/// A buffer of a launch.
pub open spec fn bound(slot: int, operand: int, offset: usize) -> Binding {
    Binding { slot: slot as usize, operand: operand as usize, offset }
}

/// A number of a launch.
pub open spec fn given(slot: int, value: usize) -> Number {
    Number { slot: slot as usize, value: low32(value) }
}

/// The buffers of operands that take the first slots, in their order.
pub open spec fn bound_in_order(v: Seq<Operand>) -> Seq<Binding> {
    Seq::new(v.len(), |i: int| bound(i, i, byte_offset(v[i])))
}

/// Numbers that take the slots from `first` on.
pub open spec fn given_from(first: int, values: Seq<usize>) -> Seq<Number> {
    Seq::new(values.len(), |i: int| given(first + i, values[i]))
}

/// What is wrong with the operands of a kernel, if anything. Layout comes before type.
pub open spec fn operand_fault(
    op: Seq<char>,
    v: Seq<Operand>,
    wanted: Dtype,
) -> Option<Seq<char>> {
    if exists|i: int| 0 <= i < v.len() && !(#[trigger] v[i]).contiguous {
        Some(
            op + if v.len() == 1 {
                ": input must be contiguous"@
            } else {
                ": inputs must be contiguous"@
            },
        )
    } else if exists|i: int| 0 <= i < v.len() && (#[trigger] v[i]).dtype != wanted {
        Some(
            op + if wanted == Dtype::F16 {
                ": only f16"@
            } else {
                ": only f32"@
            },
        )
    } else {
        None
    }
}

pub(crate) fn any_scattered(v: &Vec<Operand>) -> (r: bool)
    ensures
        r == exists|i: int| 0 <= i < v@.len() && !(#[trigger] v@[i]).contiguous,
{
    let mut i: usize = 0;
    while i < v.len()
        invariant
            i <= v@.len(),
            forall|k: int| 0 <= k < i ==> (#[trigger] v@[k]).contiguous,
        decreases v.len() - i,
    {
        if !v[i].contiguous {
            assert(!v@[i as int].contiguous);
            return true;
        }
        i = i + 1;
    }
    false
}

fn any_other_type(v: &Vec<Operand>, wanted: Dtype) -> (r: bool)
    ensures
        r == exists|i: int| 0 <= i < v@.len() && (#[trigger] v@[i]).dtype != wanted,
{
    let mut i: usize = 0;
    while i < v.len()
        invariant
            i <= v@.len(),
            forall|k: int| 0 <= k < i ==> (#[trigger] v@[k]).dtype == wanted,
        decreases v.len() - i,
    {
        if v[i].dtype != wanted {
            assert(v@[i as int].dtype != wanted);
            return true;
        }
        i = i + 1;
    }
    false
}

/// Checks the operands of a kernel that takes one element type, f32 or f16.
pub fn check_operands(op: &str, v: &Vec<Operand>, wanted: Dtype) -> (r: Result<(), String>)
    ensures
        match r {
            Ok(_) => operand_fault(op@, v@, wanted) is None,
            Err(e) => operand_fault(op@, v@, wanted) == Some(e@),
        },
{
    if any_scattered(v) {
        return Err(
            if v.len() == 1 {
                cat(op, ": input must be contiguous")
            } else {
                cat(op, ": inputs must be contiguous")
            },
        );
    }
    if any_other_type(v, wanted) {
        return Err(
            if wanted == Dtype::F16 {
                cat(op, ": only f16")
            } else {
                cat(op, ": only f32")
            },
        );
    }
    Ok(())
}

pub(crate) fn bind(slot: usize, operand: usize, offset: usize) -> (r: Binding)
    ensures
        r == bound(slot as int, operand as int, offset),
{
    Binding { slot, operand, offset }
}

pub(crate) fn give(slot: usize, value: usize) -> (r: Number)
    ensures
        r == given(slot as int, value),
{
    Number { slot, value: low(value) }
}

/// The buffers of operands that take the first slots, in their order.
pub(crate) fn bind_in_order(v: &Vec<Operand>) -> (r: Vec<Binding>)
    requires
        addressable(v@),
    ensures
        r@ == bound_in_order(v@),
{
    let mut out: Vec<Binding> = Vec::new();
    let mut i: usize = 0;
    while i < v.len()
        invariant
            i <= v@.len(),
            addressable(v@),
            out@ == bound_in_order(v@).take(i as int),
        decreases v.len() - i,
    {
        assert(v@[i as int].start * size_of_dtype(v@[i as int].dtype) <= usize::MAX);
        out.push(bind(i, i, v[i].start * v[i].dtype.size_in_bytes()));
        assert(out@ =~= bound_in_order(v@).take(i + 1));
        i = i + 1;
    }
    assert(bound_in_order(v@).take(i as int) =~= bound_in_order(v@));
    out
}

/// Numbers that take the slots from `first` on.
pub(crate) fn give_from(first: usize, values: &Vec<usize>) -> (r: Vec<Number>)
    requires
        first + values@.len() <= usize::MAX,
    ensures
        r@ == given_from(first as int, values@),
{
    let mut out: Vec<Number> = Vec::new();
    let mut i: usize = 0;
    while i < values.len()
        invariant
            i <= values@.len(),
            first + values@.len() <= usize::MAX,
            out@ == given_from(first as int, values@).take(i as int),
        decreases values.len() - i,
    {
        out.push(give(first + i, values[i]));
        assert(out@ =~= given_from(first as int, values@).take(i + 1));
        i = i + 1;
    }
    assert(given_from(first as int, values@).take(i as int) =~= given_from(
        first as int,
        values@,
    ));
    out
}

/// The width of a thread group along a fast axis: no more than the kernel permits, than 256,
/// and than the axis is wide, and at least one.
pub open spec fn width_for(permitted: usize, fast_axis: usize) -> usize {
    let p: usize = if permitted < 1 {
        1
    } else if permitted > 256 {
        256
    } else {
        permitted
    };
    let f: usize = if fast_axis < 1 {
        1
    } else {
        fast_axis
    };
    if p < f {
        p
    } else {
        f
    }
}

/// The width of a thread group along a fast axis.
pub fn group_width(permitted: usize, fast_axis: usize) -> (r: usize)
    ensures
        r == width_for(permitted, fast_axis),
        1 <= r <= 256,
{
    let p: usize = if permitted < 1 {
        1
    } else if permitted > 256 {
        256
    } else {
        permitted
    };
    let f: usize = if fast_axis < 1 {
        1
    } else {
        fast_axis
    };
    if p < f {
        p
    } else {
        f
    }
}

/// The low 32 bits of a number, which is what a kernel is given.
pub open spec fn low32(v: usize) -> u32 {
    (v as int % 0x1_0000_0000) as u32
}

fn low(v: usize) -> (r: u32)
    ensures
        r == low32(v),
{
    ((v as u64) % 0x1_0000_0000u64) as u32
}

/// A size in three dimensions.
pub open spec fn size3(width: int, height: int, depth: int) -> Size3 {
    Size3 { width: width as usize, height: height as usize, depth: depth as usize }
}

/// The launch of the product for few rows: 256 threads for every 64 columns. The operands are
/// the two matrices.
pub fn skinny_launch(a: Operand, b: Operand, m: usize, k: usize, n: usize) -> (r: Result<
    Launch,
    String,
>)
    requires
        addressable(seq![a, b]),
        m * n <= usize::MAX,
        n <= usize::MAX / 4,
    ensures
        match r {
            Ok(l) => operand_fault("gemm_skinny"@, seq![a, b], Dtype::F16) is None && l@ == (
            LaunchView {
                kernel: "gemm_skinny_f16"@,
                buffers: bound_in_order(seq![a, b]),
                result: 2,
                out: m * n,
                out_type: Dtype::F32,
                numbers: given_from(3, seq![m, k, n]),
                counts: Counts::Threads,
                grid: size3((n / 64) * 256, 1, 1),
                group: size3(256, 1, 1),
            }),
            Err(e) => operand_fault("gemm_skinny"@, seq![a, b], Dtype::F16) == Some(e@),
        },
        r matches Ok(l) ==> n % 64 == 0 ==> l@.threads_run() == 4 * n,
{
    let operands: Vec<Operand> = vec![a, b];
    assert(operands@ =~= seq![a, b]);
    match check_operands("gemm_skinny", &operands, Dtype::F16) {
        Err(e) => Err(e),
        Ok(_) => {
            assert(m * n >= 0) by (nonlinear_arith)
                requires
                    m >= 0,
                    n >= 0,
            ;
            assert((n / 64) * 256 * 1 * 1 == (n / 64) * 256) by (nonlinear_arith);
            let values: Vec<usize> = vec![m, k, n];
            assert(values@ =~= seq![m, k, n]);
            Ok(
                Launch {
                    kernel: "gemm_skinny_f16",
                    buffers: bind_in_order(&operands),
                    result: 2,
                    out: m * n,
                    out_type: Dtype::F32,
                    numbers: give_from(3, &values),
                    counts: Counts::Threads,
                    grid: Size3 { width: (n / 64) * 256, height: 1, depth: 1 },
                    group: Size3 { width: 256, height: 1, depth: 1 },
                },
            )
        },
    }
}

/// One or zero.
pub open spec fn bit(b: bool) -> usize {
    if b {
        1
    } else {
        0
    }
}

fn flag(b: bool) -> (r: usize)
    ensures
        r == bit(b),
{
    if b {
        1
    } else {
        0
    }
}

/// What is wrong with the operands of a convolution with the channels last, if anything: those
/// that it always has, then the place of those that it may have.
pub open spec fn nlc_fault(
    x: Operand,
    w: Operand,
    bias: Operand,
    snake: Option<(Operand, Operand)>,
    residual: Option<Operand>,
) -> Option<Seq<char>> {
    if operand_fault("nlc_conv"@, seq![x, w, bias], Dtype::F32) is Some {
        operand_fault("nlc_conv"@, seq![x, w, bias], Dtype::F32)
    } else if (snake is Some && !(snake.unwrap().0.on_device && snake.unwrap().1.on_device)) || (
    residual is Some && !residual.unwrap().on_device) {
        Some("nlc_conv: operand must be on the device"@)
    } else {
        None
    }
}

/// The buffers of a convolution with the channels last. The operands are the signal, the
/// weights, the bias, the two parameters of the snake and the residual. The signal, from its
/// buffer's first byte, stands in for those that are missing.
pub open spec fn nlc_buffers(
    x: Operand,
    w: Operand,
    bias: Operand,
    snake: Option<(Operand, Operand)>,
    residual: Option<Operand>,
) -> Seq<Binding> {
    seq![
        bound(0, 0, word_offset(x)),
        bound(1, 1, word_offset(w)),
        bound(2, 2, word_offset(bias)),
        match snake {
            Some(p) => bound(10, 3, word_offset(p.0)),
            None => bound(10, 0, 0),
        },
        match snake {
            Some(p) => bound(11, 4, word_offset(p.1)),
            None => bound(11, 0, 0),
        },
        match residual {
            Some(o) => bound(12, 5, word_offset(o)),
            None => bound(12, 0, 0),
        },
    ]
}

/// The launch of a convolution with the channels last. One tile of 64 positions and 32
/// channels per group, in whole tiles: a group that came up short would wait for ever on its
/// own barrier.
pub fn nlc_conv_launch(
    x: Operand,
    w: Operand,
    bias: Operand,
    snake: Option<(Operand, Operand)>,
    residual: Option<Operand>,
    len: usize,
    cin: usize,
    cout: usize,
    k: usize,
    dilation: usize,
    has_bias: bool,
) -> (r: Result<Launch, String>)
    requires
        addressable(seq![x, w, bias]),
        snake is Some ==> addressable(seq![snake.unwrap().0, snake.unwrap().1]),
        residual is Some ==> addressable(seq![residual.unwrap()]),
        len * cout <= usize::MAX,
        len <= usize::MAX - 64,
    ensures
        match r {
            Ok(l) => nlc_fault(x, w, bias, snake, residual) is None && l@ == (LaunchView {
                kernel: "nlc_conv_f32"@,
                buffers: nlc_buffers(x, w, bias, snake, residual),
                result: 3,
                out: len * cout,
                out_type: Dtype::F32,
                numbers: given_from(4, seq![len, cin, cout, k, dilation, bit(has_bias)])
                    + given_from(13, seq![bit(snake is Some), bit(residual is Some)]),
                counts: Counts::Threads,
                grid: size3((cout / 32) * 16, ((len + 63) / 64) * 8, 1),
                group: size3(16, 8, 1),
            }),
            Err(e) => nlc_fault(x, w, bias, snake, residual) == Some(e@),
        },
        r matches Ok(l) ==> {
            &&& l@.grid.width % l@.group.width == 0 && l@.grid.height % l@.group.height == 0
            &&& cout % 32 == 0 ==> 2 * l@.grid.width == cout
            &&& len <= 8 * l@.grid.height < len + 64
        },
{
    let operands: Vec<Operand> = vec![x, w, bias];
    assert(operands@ =~= seq![x, w, bias]);
    match check_operands("nlc_conv", &operands, Dtype::F32) {
        Err(e) => {
            return Err(e);
        },
        Ok(_) => {},
    }
    proof {
        let v = seq![x, w, bias];
        assert(v[0] == x && v[1] == w && v[2] == bias);
    }
    let mut buffers: Vec<Binding> = vec![
        bind(0, 0, x.start * 4),
        bind(1, 1, w.start * 4),
        bind(2, 2, bias.start * 4),
    ];
    match snake {
        Some(p) => {
            if !p.0.on_device || !p.1.on_device {
                return Err("nlc_conv: operand must be on the device".to_owned());
            }
            proof {
                let v = seq![p.0, p.1];
                assert(v[0] == p.0 && v[1] == p.1);
            }
            buffers.push(bind(10, 3, p.0.start * 4));
            buffers.push(bind(11, 4, p.1.start * 4));
        },
        None => {
            buffers.push(bind(10, 0, 0));
            buffers.push(bind(11, 0, 0));
        },
    }
    match residual {
        Some(o) => {
            if !o.on_device {
                return Err("nlc_conv: operand must be on the device".to_owned());
            }
            proof {
                let v = seq![o];
                assert(v[0] == o);
            }
            buffers.push(bind(12, 5, o.start * 4));
        },
        None => {
            buffers.push(bind(12, 0, 0));
        },
    }
    assert(buffers@ =~= nlc_buffers(x, w, bias, snake, residual));
    assert(len * cout >= 0) by (nonlinear_arith)
        requires
            len >= 0,
            cout >= 0,
    ;
    let numbers: Vec<Number> = vec![
        give(4, len),
        give(5, cin),
        give(6, cout),
        give(7, k),
        give(8, dilation),
        give(9, flag(has_bias)),
        give(13, flag(snake.is_some())),
        give(14, flag(residual.is_some())),
    ];
    assert(numbers@ =~= given_from(4, seq![len, cin, cout, k, dilation, bit(has_bias)])
        + given_from(13, seq![bit(snake is Some), bit(residual is Some)]));
    assert(((cout / 32) * 16) % 16 == 0 && (((len + 63) / 64) * 8) % 8 == 0);
    Ok(
        Launch {
            kernel: "nlc_conv_f32",
            buffers,
            result: 3,
            out: len * cout,
            out_type: Dtype::F32,
            numbers,
            counts: Counts::Threads,
            grid: Size3 { width: (cout / 32) * 16, height: ((len + 63) / 64) * 8, depth: 1 },
            group: Size3 { width: 16, height: 8, depth: 1 },
        },
    )
}

/// Every position of a convolution with the channels last lies in a tile, every channel too
/// where their number is a multiple of 32, and every group is full.
pub proof fn tiles_cover_the_output(len: int, cout: int)
    requires
        len >= 0,
        cout >= 0,
        cout % 32 == 0,
    ensures
        ((len + 63) / 64) * 64 >= len,
        (cout / 32) * 32 == cout,
        ((cout / 32) * 16) % 16 == 0,
        (((len + 63) / 64) * 8) % 8 == 0,
{
}

/// What is wrong with a write to a cache, if anything.
pub open spec fn cache_fault(start: nat, t: nat, capacity: nat, contiguous: bool) -> Option<
    Seq<char>,
> {
    if start + t > capacity {
        Some(decimal_text(start + t) + " positions exceed "@ + decimal_text(capacity))
    } else if !contiguous {
        Some("qk_rope: cache must be contiguous"@)
    } else {
        None
    }
}

/// Checks a write of `t` positions from `start` on to a cache.
pub fn check_cache(start: usize, t: usize, capacity: usize, contiguous: bool) -> (r: Result<
    (),
    String,
>)
    requires
        start + t <= usize::MAX,
    ensures
        match r {
            Ok(_) => cache_fault(start as nat, t as nat, capacity as nat, contiguous) is None,
            Err(e) => cache_fault(start as nat, t as nat, capacity as nat, contiguous) == Some(e@),
        },
{
    if start + t > capacity {
        let a = number_text(start + t);
        let b = number_text(capacity);
        return Err(cat3(a.as_str(), " positions exceed ", b.as_str()));
    }
    if !contiguous {
        return Err("qk_rope: cache must be contiguous".to_owned());
    }
    Ok(())
}

/// What the rotation of queries and keys reads and writes beside its input.
#[derive(Clone, Copy, Debug)]
pub struct RopeOperands {
    pub norms: Operand,
    pub cos: Operand,
    pub sin: Operand,
    pub k_cache: Operand,
    pub v_cache: Operand,
    /// Where keys and values also go in f32.
    pub side: Option<(Operand, Operand)>,
}

impl RopeOperands {
    /// Whether each of them is the device's.
    pub open spec fn on_device(self) -> bool {
        &&& self.norms.on_device && self.cos.on_device && self.sin.on_device
        &&& self.k_cache.on_device && self.v_cache.on_device
        &&& self.side is Some ==> self.side.unwrap().0.on_device && self.side.unwrap().1.on_device
    }

    /// Whether each of them begins at a byte that is a machine number.
    pub open spec fn reachable(self) -> bool {
        &&& addressable(seq![self.norms, self.cos, self.sin, self.k_cache, self.v_cache])
        &&& self.side is Some ==> addressable(seq![self.side.unwrap().0, self.side.unwrap().1])
    }

    /// The buffers of the rotation of `qkv`, which is operand 0; the others follow in the order
    /// of the fields. A cache stands in for each side that is missing.
    pub open spec fn buffers(self, qkv: Operand) -> Seq<Binding> {
        seq![
            bound(0, 0, word_offset(qkv)),
            bound(1, 1, byte_offset(self.norms)),
            bound(2, 2, byte_offset(self.cos)),
            bound(3, 3, byte_offset(self.sin)),
            bound(5, 4, byte_offset(self.k_cache)),
            bound(6, 5, byte_offset(self.v_cache)),
            match self.side {
                Some(p) => bound(7, 6, byte_offset(p.0)),
                None => bound(7, 4, byte_offset(self.k_cache)),
            },
            match self.side {
                Some(p) => bound(8, 7, byte_offset(p.1)),
                None => bound(8, 5, byte_offset(self.v_cache)),
            },
        ]
    }
}

fn begin(o: Operand) -> (r: usize)
    requires
        o.start * size_of_dtype(o.dtype) <= usize::MAX,
    ensures
        r == byte_offset(o),
{
    o.start * o.dtype.size_in_bytes()
}

/// The launch of the normalisation and rotation of queries and keys: one group per position,
/// and 32 threads per head in it.
pub fn qk_rope_launch(
    qkv: Operand,
    beside: RopeOperands,
    b: usize,
    t: usize,
    heads: usize,
    n_kv: usize,
    start: usize,
    capacity: usize,
) -> (r: Result<Launch, String>)
    requires
        addressable(seq![qkv]),
        beside.reachable(),
        b * heads <= usize::MAX,
        b * heads * t <= usize::MAX,
        b * heads * t * 128 <= usize::MAX,
        b * t <= usize::MAX,
        (heads + n_kv) * 32 <= usize::MAX,
    ensures
        match r {
            Ok(l) => beside.on_device() && l@ == (LaunchView {
                kernel: "qk_rope_f32"@,
                buffers: beside.buffers(qkv),
                result: 4,
                out: b * heads * t * 128,
                out_type: Dtype::F32,
                numbers: given_from(
                    9,
                    seq![t, heads, n_kv, start, capacity, bit(beside.side is Some)],
                ),
                counts: Counts::Groups,
                grid: size3(b * t, 1, 1),
                group: size3((heads + n_kv) * 32, 1, 1),
            }),
            Err(e) => !beside.on_device() && e@ == "qk_rope: operand must be on the device"@,
        },
        r matches Ok(l) ==> l@.threads_run() * heads * 4 == l@.out * (heads + n_kv),
{
    let RopeOperands { norms, cos, sin, k_cache, v_cache, side } = beside;
    proof {
        let v = seq![qkv];
        assert(v[0] == qkv);
        let s = seq![norms, cos, sin, k_cache, v_cache];
        assert(s[0] == norms && s[1] == cos && s[2] == sin && s[3] == k_cache && s[4] == v_cache);
    }
    if !norms.on_device || !cos.on_device || !sin.on_device || !k_cache.on_device
        || !v_cache.on_device {
        return Err("qk_rope: operand must be on the device".to_owned());
    }
    let mut buffers: Vec<Binding> = vec![
        bind(0, 0, qkv.start * 4),
        bind(1, 1, begin(norms)),
        bind(2, 2, begin(cos)),
        bind(3, 3, begin(sin)),
        bind(5, 4, begin(k_cache)),
        bind(6, 5, begin(v_cache)),
    ];
    match side {
        Some(p) => {
            if !p.0.on_device || !p.1.on_device {
                return Err("qk_rope: operand must be on the device".to_owned());
            }
            proof {
                let v = seq![p.0, p.1];
                assert(v[0] == p.0 && v[1] == p.1);
            }
            buffers.push(bind(7, 6, begin(p.0)));
            buffers.push(bind(8, 7, begin(p.1)));
        },
        None => {
            buffers.push(bind(7, 4, begin(k_cache)));
            buffers.push(bind(8, 5, begin(v_cache)));
        },
    }
    assert(buffers@ =~= beside.buffers(qkv));
    assert(b * heads >= 0 && b * heads * t >= 0 && b * t >= 0) by (nonlinear_arith)
        requires
            b >= 0,
            heads >= 0,
            t >= 0,
    ;
    assert((b * t * 1 * 1) * ((heads + n_kv) * 32 * 1 * 1) * heads * 4 == (b * heads * t * 128) * (
    heads + n_kv)) by (nonlinear_arith);
    let values: Vec<usize> = vec![t, heads, n_kv, start, capacity, flag(side.is_some())];
    assert(values@ =~= seq![t, heads, n_kv, start, capacity, bit(beside.side is Some)]);
    Ok(
        Launch {
            kernel: "qk_rope_f32",
            buffers,
            result: 4,
            out: b * heads * t * 128,
            out_type: Dtype::F32,
            numbers: give_from(9, &values),
            counts: Counts::Groups,
            grid: Size3 { width: b * t, height: 1, depth: 1 },
            group: Size3 { width: (heads + n_kv) * 32, height: 1, depth: 1 },
        },
    )
}

/// The two kernels of a centred convolution that gathers its taps itself.
#[derive(Clone, Copy, Debug, PartialEq, Eq, Structural)]
pub enum TapKernel {
    /// Tiles of 64 columns in matrices that a group shares.
    Shared,
    /// Tiles of 128 columns in the registers of a thread.
    Registers,
}

/// The name of a kernel that gathers its taps.
pub open spec fn tap_kernel_name(kernel: TapKernel) -> Seq<char> {
    match kernel {
        TapKernel::Shared => "conv1d_tap_gemm_f32"@,
        TapKernel::Registers => "conv1d_tap_reg_f32"@,
    }
}

/// The columns of one tile.
pub open spec fn tap_columns(kernel: TapKernel) -> int {
    match kernel {
        TapKernel::Shared => 64,
        TapKernel::Registers => 128,
    }
}

/// What is wrong with the operands of a convolution that gathers its taps, if anything.
pub open spec fn tap_fault(x: Operand, w: Operand, bias: Option<Operand>) -> Option<Seq<char>> {
    if !x.contiguous || !w.contiguous {
        Some("conv1d_tap_gemm: inputs must be contiguous"@)
    } else if bias is Some && !bias.unwrap().on_device {
        Some("conv1d_tap_gemm: bias must be on the same device"@)
    } else {
        None
    }
}

/// The launch of a centred convolution that gathers its taps itself: one group for every tile
/// of columns and 128 channels. The operands are the signal, the weights and the bias; the
/// weights, from their buffer's first byte, stand in for a missing bias.
pub fn tap_conv_launch(
    kernel: TapKernel,
    x: Operand,
    w: Operand,
    bias: Option<Operand>,
    len: usize,
    cin: usize,
    cout: usize,
    k: usize,
    dilation: usize,
    pad_left: usize,
) -> (r: Result<Launch, String>)
    requires
        addressable(seq![x, w]),
        bias is Some ==> addressable(seq![bias.unwrap()]),
        cout * len <= usize::MAX,
        len <= usize::MAX - 128,
    ensures
        match r {
            Ok(l) => tap_fault(x, w, bias) is None && l@ == (LaunchView {
                kernel: tap_kernel_name(kernel),
                buffers: seq![
                    bound(0, 0, word_offset(x)),
                    bound(1, 1, word_offset(w)),
                    match bias {
                        Some(o) => bound(2, 2, word_offset(o)),
                        None => bound(2, 1, 0),
                    },
                ],
                result: 3,
                out: cout * len,
                out_type: Dtype::F32,
                numbers: given_from(
                    4,
                    seq![len, cin, cout, k, dilation, pad_left, bit(bias is Some)],
                ),
                counts: Counts::Groups,
                grid: size3(
                    (len + tap_columns(kernel) - 1) / tap_columns(kernel),
                    cout as int / 128,
                    1,
                ),
                group: size3(256, 1, 1),
            }),
            Err(e) => tap_fault(x, w, bias) == Some(e@),
        },
        r matches Ok(l) ==> {
            &&& kernel == TapKernel::Shared ==> len <= 64 * l@.grid.width < len + 64
            &&& kernel == TapKernel::Registers ==> len <= 128 * l@.grid.width < len + 128
            &&& cout % 128 == 0 ==> 128 * l@.grid.height == cout
        },
{
    if !x.contiguous || !w.contiguous {
        return Err("conv1d_tap_gemm: inputs must be contiguous".to_owned());
    }
    proof {
        let v = seq![x, w];
        assert(v[0] == x && v[1] == w);
    }
    let third: Binding = match bias {
        Some(o) => {
            if !o.on_device {
                return Err("conv1d_tap_gemm: bias must be on the same device".to_owned());
            }
            proof {
                let v = seq![o];
                assert(v[0] == o);
            }
            bind(2, 2, o.start * 4)
        },
        None => bind(2, 1, 0),
    };
    let buffers: Vec<Binding> = vec![bind(0, 0, x.start * 4), bind(1, 1, w.start * 4), third];
    assert(buffers@ =~= seq![
        bound(0, 0, word_offset(x)),
        bound(1, 1, word_offset(w)),
        match bias {
            Some(o) => bound(2, 2, word_offset(o)),
            None => bound(2, 1, 0),
        },
    ]);
    assert(cout * len >= 0) by (nonlinear_arith)
        requires
            cout >= 0,
            len >= 0,
    ;
    let values: Vec<usize> = vec![len, cin, cout, k, dilation, pad_left, flag(bias.is_some())];
    assert(values@ =~= seq![len, cin, cout, k, dilation, pad_left, bit(bias is Some)]);
    let (name, tiles): (&'static str, usize) = match kernel {
        TapKernel::Shared => ("conv1d_tap_gemm_f32", (len + 63) / 64),
        TapKernel::Registers => ("conv1d_tap_reg_f32", (len + 127) / 128),
    };
    Ok(
        Launch {
            kernel: name,
            buffers,
            result: 3,
            out: cout * len,
            out_type: Dtype::F32,
            numbers: give_from(4, &values),
            counts: Counts::Groups,
            grid: Size3 { width: tiles, height: cout / 128, depth: 1 },
            group: Size3 { width: 256, height: 1, depth: 1 },
        },
    )
}

/// What is wrong with a sampling from the `k` best, if anything.
pub open spec fn sample_fault(k: nat, n: nat) -> Option<Seq<char>> {
    if k == 0 || k > 64 || k > n || n > 4096 {
        Some(
            "topk_sample: k="@ + decimal_text(k) + " n="@ + decimal_text(n)
                + " outside the kernel's limits"@,
        )
    } else {
        None
    }
}

/// The largest row that a kernel can sample from.
pub const MAX_N: usize = 4096;

/// The most candidates that a kernel can sample from.
pub const MAX_K: usize = 64;

/// Checks a sampling from the `k` best of `n`.
pub fn check_sample(k: usize, n: usize) -> (r: Result<(), String>)
    ensures
        match r {
            Ok(_) => sample_fault(k as nat, n as nat) is None,
            Err(e) => sample_fault(k as nat, n as nat) == Some(e@),
        },
{
    if k == 0 || k > MAX_K || k > n || n > MAX_N {
        let mut detail = cat("topk_sample: k=", number_text(k).as_str());
        detail.append(" n=");
        detail.append(number_text(n).as_str());
        detail.append(" outside the kernel's limits");
        return Err(detail);
    }
    Ok(())
}

/// What is wrong with the draws of a sampling, if anything.
pub open spec fn draws_fault(draws: nat, rows: nat) -> Option<Seq<char>> {
    if draws != rows {
        Some(
            "topk_sample: "@ + decimal_text(draws) + " draws for "@ + decimal_text(rows) + " rows"@,
        )
    } else {
        None
    }
}

/// The launch of a sampling: one group of 256 threads per row. The operands are the rows and
/// the draws.
pub fn topk_launch(
    logits: Operand,
    draws: Operand,
    n_draws: usize,
    rows: usize,
    n: usize,
    k: usize,
) -> (r: Result<Launch, String>)
    requires
        addressable(seq![logits, draws]),
    ensures
        match r {
            Ok(l) => operand_fault("topk_sample"@, seq![logits, draws], Dtype::F32) is None
                && draws_fault(n_draws as nat, rows as nat) is None && l@ == (LaunchView {
                kernel: "topk_sample_f32"@,
                buffers: bound_in_order(seq![logits, draws]),
                result: 2,
                out: rows as int,
                out_type: Dtype::U32,
                numbers: given_from(3, seq![n, k]),
                counts: Counts::Groups,
                grid: size3(rows as int, 1, 1),
                group: size3(256, 1, 1),
            }),
            Err(e) => if operand_fault("topk_sample"@, seq![logits, draws], Dtype::F32) is Some {
                operand_fault("topk_sample"@, seq![logits, draws], Dtype::F32) == Some(e@)
            } else {
                draws_fault(n_draws as nat, rows as nat) == Some(e@)
            },
        },
        r matches Ok(l) ==> l@.threads_run() == 256 * l@.out,
{
    let operands: Vec<Operand> = vec![logits, draws];
    assert(operands@ =~= seq![logits, draws]);
    match check_operands("topk_sample", &operands, Dtype::F32) {
        Err(e) => Err(e),
        Ok(_) => {
            if n_draws != rows {
                let mut detail = cat("topk_sample: ", number_text(n_draws).as_str());
                detail.append(" draws for ");
                detail.append(number_text(rows).as_str());
                detail.append(" rows");
                return Err(detail);
            }
            assert((rows * 1 * 1) * (256int * 1 * 1) == 256 * rows) by (nonlinear_arith);
            let values: Vec<usize> = vec![n, k];
            assert(values@ =~= seq![n, k]);
            Ok(
                Launch {
                    kernel: "topk_sample_f32",
                    buffers: bind_in_order(&operands),
                    result: 2,
                    out: rows,
                    out_type: Dtype::U32,
                    numbers: give_from(3, &values),
                    counts: Counts::Groups,
                    grid: Size3 { width: rows, height: 1, depth: 1 },
                    group: Size3 { width: 256, height: 1, depth: 1 },
                },
            )
        },
    }
}

/// The dimensions that a graph of one convolution is fed with: the signal, the weights, the
/// bias where there is one, and the result.
pub struct ConvFeeds {
    pub source: [i64; 4],
    pub weights: [i64; 4],
    pub bias: Option<[i64; 4]>,
    pub result: [i64; 4],
    pub pad_right: usize,
}

/// What is wrong with the operands of a graph of one convolution, if anything: it has no way
/// to begin inside a buffer.
pub open spec fn graph_fault(op: Seq<char>, v: Seq<Operand>) -> Option<Seq<char>> {
    if exists|i: int| 0 <= i < v.len() && !((#[trigger] v[i]).contiguous && v[i].start == 0) {
        Some(op + ": inputs must be contiguous and unoffset"@)
    } else {
        None
    }
}

fn any_offset(v: &Vec<Operand>) -> (r: bool)
    ensures
        r == exists|i: int|
            0 <= i < v@.len() && !((#[trigger] v@[i]).contiguous && v@[i].start == 0),
{
    let mut i: usize = 0;
    while i < v.len()
        invariant
            i <= v@.len(),
            forall|k: int| 0 <= k < i ==> (#[trigger] v@[k]).contiguous && v@[k].start == 0,
        decreases v.len() - i,
    {
        if !v[i].contiguous || v[i].start != 0 {
            assert(!(v@[i as int].contiguous && v@[i as int].start == 0));
            return true;
        }
        i = i + 1;
    }
    false
}

/// What is wrong with the operands of a centred convolution through a graph, if anything: the
/// signal and the weights, then the place of the bias.
pub open spec fn conv_fault(x: Operand, w: Operand, bias: Option<Operand>) -> Option<Seq<char>> {
    if graph_fault("mps_conv1d"@, seq![x, w]) is Some {
        graph_fault("mps_conv1d"@, seq![x, w])
    } else if bias is Some && !bias.unwrap().on_device {
        Some("mps_conv1d: bias must be on the device"@)
    } else if bias is Some && bias.unwrap().start != 0 {
        Some("mps_conv1d: bias must be unoffset"@)
    } else {
        None
    }
}

/// What a centred convolution through a graph is fed with. A convolution in one dimension is
/// one in two with a height of one.
pub fn conv_feeds(
    x: Operand,
    w: Operand,
    bias: Option<Operand>,
    cin: usize,
    cout: usize,
    len: usize,
    k: usize,
    dilation: usize,
    pad_left: usize,
) -> (r: Result<ConvFeeds, String>)
    requires
        cin <= i64::MAX,
        cout <= i64::MAX,
        len <= i64::MAX,
        1 <= k <= i64::MAX,
        pad_left <= (k - 1) * dilation <= usize::MAX,
    ensures
        match r {
            Ok(f) => conv_fault(x, w, bias) is None && f.source@ == seq![
                1i64,
                cin as i64,
                1,
                len as i64,
            ] && f.weights@ == seq![cout as i64, cin as i64, 1, k as i64] && f.result@ == seq![
                1i64,
                cout as i64,
                1,
                len as i64,
            ] && f.pad_right == (k - 1) * dilation - pad_left && (f.bias is Some <==> bias is Some) && (
            f.bias is Some ==> f.bias.unwrap()@ == seq![1i64, cout as i64, 1, 1]),
            Err(e) => conv_fault(x, w, bias) == Some(e@),
        },
{
    let operands: Vec<Operand> = vec![x, w];
    assert(operands@ =~= seq![x, w]);
    if any_offset(&operands) {
        return Err(cat("mps_conv1d", ": inputs must be contiguous and unoffset"));
    }
    match bias {
        Some(o) => {
            if !o.on_device {
                return Err("mps_conv1d: bias must be on the device".to_owned());
            }
            if o.start != 0 {
                return Err("mps_conv1d: bias must be unoffset".to_owned());
            }
        },
        None => {},
    }
    let (ci, co, l): (i64, i64, i64) = (cin as i64, cout as i64, len as i64);
    let source: [i64; 4] = [1, ci, 1, l];
    let weights: [i64; 4] = [co, ci, 1, k as i64];
    let result: [i64; 4] = [1, co, 1, l];
    let b: [i64; 4] = [1, co, 1, 1];
    assert(source@ =~= seq![1i64, ci, 1, l]);
    assert(weights@ =~= seq![co, ci, 1, k as i64]);
    assert(result@ =~= seq![1i64, co, 1, l]);
    assert(b@ =~= seq![1i64, co, 1, 1]);
    Ok(
        ConvFeeds {
            source,
            weights,
            bias: if bias.is_some() {
                Some(b)
            } else {
                None
            },
            result,
            pad_right: (k - 1) * dilation - pad_left,
        },
    )
}

/// What is wrong with the operands of a causal convolution through a graph, if anything.
pub open spec fn causal_fault(v: Seq<Operand>) -> Option<Seq<char>> {
    if graph_fault("mps_nlc_conv"@, v) is Some {
        graph_fault("mps_nlc_conv"@, v)
    } else if exists|i: int| 0 <= i < v.len() && (#[trigger] v[i]).dtype != v[0].dtype {
        Some("mps_nlc_conv: mixed dtypes"@)
    } else if v[0].dtype != Dtype::F32 && v[0].dtype != Dtype::F16 {
        Some("mps_nlc_conv: "@ + dtype_name(v[0].dtype) + " unsupported"@)
    } else {
        None
    }
}

/// What a causal convolution with the channels last is fed with. All of its reach is on the
/// left.
pub struct CausalFeeds {
    pub source: [i64; 4],
    pub weights: [i64; 4],
    pub bias: [i64; 4],
    pub result: [i64; 4],
    pub pad_left: usize,
}

/// What a causal convolution through a graph is fed with.
pub fn causal_feeds(
    x: Operand,
    w: Operand,
    bias: Operand,
    cin: usize,
    cout: usize,
    len: usize,
    k: usize,
    dilation: usize,
) -> (r: Result<CausalFeeds, String>)
    requires
        cin <= i64::MAX,
        cout <= i64::MAX,
        len <= i64::MAX,
        1 <= k <= i64::MAX,
        (k - 1) * dilation <= usize::MAX,
    ensures
        match r {
            Ok(f) => causal_fault(seq![x, w, bias]) is None && f.source@ == seq![
                1i64,
                1,
                len as i64,
                cin as i64,
            ] && f.weights@ == seq![1i64, k as i64, cin as i64, cout as i64] && f.bias@ == seq![
                1i64,
                1,
                1,
                cout as i64,
            ] && f.result@ == seq![1i64, 1, len as i64, cout as i64] && f.pad_left == (k - 1)
                * dilation,
            Err(e) => causal_fault(seq![x, w, bias]) == Some(e@),
        },
{
    let operands: Vec<Operand> = vec![x, w, bias];
    assert(operands@ =~= seq![x, w, bias]);
    if any_offset(&operands) {
        return Err(cat("mps_nlc_conv", ": inputs must be contiguous and unoffset"));
    }
    let kind: Dtype = x.dtype;
    if any_other_type(&operands, kind) {
        return Err("mps_nlc_conv: mixed dtypes".to_owned());
    }
    if kind != Dtype::F32 && kind != Dtype::F16 {
        return Err(cat3("mps_nlc_conv: ", kind.name(), " unsupported"));
    }
    let (ci, co, l): (i64, i64, i64) = (cin as i64, cout as i64, len as i64);
    let source: [i64; 4] = [1, 1, l, ci];
    let weights: [i64; 4] = [1, k as i64, ci, co];
    let last: [i64; 4] = [1, 1, 1, co];
    let result: [i64; 4] = [1, 1, l, co];
    assert(source@ =~= seq![1i64, 1, l, ci]);
    assert(weights@ =~= seq![1i64, k as i64, ci, co]);
    assert(last@ =~= seq![1i64, 1, 1, co]);
    assert(result@ =~= seq![1i64, 1, l, co]);
    assert((k - 1) * dilation >= 0) by (nonlinear_arith)
        requires
            k >= 1,
            dilation >= 0,
    ;
    Ok(CausalFeeds { source, weights, bias: last, result, pad_left: (k - 1) * dilation })
}

/// Whether the kernel that rotates, normalises and writes to the cache fits heads of a size, of
/// tensors of two types.
pub open spec fn rope_fits(qkv: Dtype, cache: Dtype, head_dim: int) -> bool {
    qkv == Dtype::F32 && cache == Dtype::F16 && head_dim == 128
}

/// Whether rotation, norms and the write to the cache take the kernel that does all three.
pub fn rope_eligible(
    enabled: bool,
    on_device: bool,
    qkv: Dtype,
    cache: Dtype,
    head_dim: usize,
) -> (r: bool)
    ensures
        r == (enabled && on_device && rope_fits(qkv, cache, head_dim as int)),
{
    enabled && on_device && qkv == Dtype::F32 && cache == Dtype::F16 && head_dim == 128
}

/// Whether a graph wins a causal convolution of `b` signals: a long signal and a short reduction.
pub open spec fn graph_gain(b: int, len: int, cin: int, k: int) -> bool {
    b == 1 && k > 1 && len >= 4096 && cin <= 384 && cin * k <= 2048
}

/// Whether a causal convolution with the channels last is one that a graph wins, as well as one
/// that it can run: a long signal and a short reduction.
pub fn graph_wins(
    on_device: bool,
    supported: bool,
    same_type: bool,
    b: usize,
    len: usize,
    cin: usize,
    k: usize,
) -> (r: bool)
    ensures
        r == (on_device && supported && same_type && graph_gain(
            b as int,
            len as int,
            cin as int,
            k as int,
        )),
{
    if !(on_device && supported && same_type && b == 1 && k > 1 && len >= 4096 && cin <= 384) {
        return false;
    }
    if cin > 0 && k > 2048 {
        assert(cin * k > 2048) by (nonlinear_arith)
            requires
                cin >= 1,
                k > 2048,
        ;
        return false;
    }
    if cin == 0 {
        assert(cin * k == 0) by (nonlinear_arith)
            requires
                cin == 0,
        ;
        return true;
    }
    assert(cin * k <= 384 * 2048) by (nonlinear_arith)
        requires
            cin <= 384,
            k <= 2048,
    ;
    cin * k <= 2048
}

/// Whether the kernel that gathers its taps wins a causal convolution of `b` signals: a long
/// signal, and channels in whole tiles.
pub open spec fn gather_gain(b: int, cin: int, cout: int, len: int) -> bool {
    b == 1 && len >= 4096 && cin % 32 == 0 && cout % 32 == 0
}

/// Whether a causal convolution with the channels last takes the kernel that gathers its taps:
/// a long signal, and channels in whole tiles.
pub fn gather_wins(
    enabled: bool,
    on_device: bool,
    f32_input: bool,
    b: usize,
    cin: usize,
    cout: usize,
    len: usize,
) -> (r: bool)
    ensures
        r == (enabled && on_device && f32_input && gather_gain(
            b as int,
            cin as int,
            cout as int,
            len as int,
        )),
{
    enabled && b == 1 && len >= 4096 && cin % 32 == 0 && cout % 32 == 0 && f32_input && on_device
}

/// Whether a graph takes a centred convolution of a signal with weights of `w_rank` dimensions.
pub open spec fn graph_takes(x_dims: Seq<usize>, w_rank: int, min_len: int) -> bool {
    w_rank == 3 && x_dims.len() == 3 && x_dims[0] == 1 && x_dims[2] >= min_len
}

/// Whether a centred convolution can go through a graph: below `min_len` samples the fixed cost
/// of a graph is the larger part.
pub fn graph_eligible(
    on_device: bool,
    both_f32: bool,
    x_dims: &Vec<usize>,
    w_rank: usize,
    min_len: usize,
) -> (r: bool)
    ensures
        r == (on_device && both_f32 && graph_takes(x_dims@, w_rank as int, min_len as int)),
{
    on_device && both_f32 && w_rank == 3 && x_dims.len() == 3 && x_dims[0] == 1 && x_dims[2]
        >= min_len
}

} // verus!
