//! The geometry of a short-time Fourier pair: frames, the mirrored ends of the signal, and the
//! frames that overlap at a sample.

use crate::launch::{
    bind, bound, check_operands, give_from, given_from, group_width, operand_fault, size3, width_for,
    Binding, Counts, Dtype, Launch, LaunchView, Operand, Size3,
};
use vstd::arithmetic::div_mod::*;
use vstd::prelude::*;

verus! {

/// The number of frames of a signal.
pub fn frame_count(len: usize, hop: usize) -> (r: usize)
    requires
        hop > 0,
        len < usize::MAX,
    ensures
        r == len as int / hop as int + 1,
{
    proof {
        lemma_div_is_ordered_by_denominator(len as int, 1, hop as int);
    }
    len / hop + 1
}

/// The length of the signal that frames give back.
pub fn signal_len(frames: usize, hop: usize) -> (r: usize)
    requires
        frames >= 1,
        (frames - 1) * hop <= usize::MAX,
    ensures
        r == (frames - 1) * hop,
{
    assert((frames - 1) * hop >= 0) by (nonlinear_arith)
        requires
            frames >= 1,
            hop >= 0,
    ;
    (frames - 1) * hop
}

/// A position before or behind a signal, mirrored into it at its first or last sample.
pub open spec fn mirrored(s: int, len: int) -> int {
    if s < 0 {
        -s
    } else if s < len {
        s
    } else {
        2 * (len - 1) - s
    }
}

/// The sample that stands at position `j` of the padded signal.
pub fn sample_index(j: usize, pad: usize, len: usize) -> (r: usize)
    requires
        pad < len,
        2 * len + pad <= usize::MAX,
        j <= 2 * len + pad - 2,
    ensures
        r == mirrored(j - pad, len as int),
        r < len,
{
    if j < pad {
        pad - j
    } else if j < pad + len {
        j - pad
    } else {
        2 * len + pad - 2 - j
    }
}

/// Every position that a frame reaches is mirrored onto a sample of the signal, as long as the
/// signal is longer than the padding: by one sample for a window of an even length, by two for
/// one of an odd length.
pub proof fn frames_stay_in_the_signal(f: int, nn: int, n_fft: int, hop: int, len: int)
    requires
        hop > 0,
        n_fft > 0,
        (n_fft + 1) / 2 < len,
        0 <= f <= len / hop,
        0 <= nn < n_fft,
    ensures
        f * hop + nn <= 2 * len + n_fft / 2 - 2,
        0 <= mirrored(f * hop + nn - n_fft / 2, len) < len,
{
    lemma_fundamental_div_mod(len, hop);
    assert(f * hop <= len) by (nonlinear_arith)
        requires
            f <= len / hop,
            len == hop * (len / hop) + len % hop,
            len % hop >= 0,
            hop > 0,
    ;
    assert(f * hop >= 0) by (nonlinear_arith)
        requires
            f >= 0,
            hop > 0,
    ;
}

/// The frames whose window covers position `g` of the padded signal, from the first to the
/// last, or nothing where none does.
pub fn covering_frames(g: usize, n_fft: usize, hop: usize, frames: usize) -> (r: Option<
    (usize, usize),
>)
    requires
        hop > 0,
        frames >= 1,
        n_fft >= 1,
        g + hop <= usize::MAX,
    ensures
        match r {
            Some(p) => p.0 <= p.1 < frames && forall|f: int|
                0 <= f < frames ==> (p.0 <= f <= p.1 <==> #[trigger] covers(
                    f,
                    g as int,
                    n_fft as int,
                    hop as int,
                )),
            None => forall|f: int|
                0 <= f < frames ==> !#[trigger] covers(f, g as int, n_fft as int, hop as int),
        },
{
    let lo: usize = if g < n_fft {
        0
    } else {
        (g - n_fft + hop) / hop
    };
    let last: usize = g / hop;
    let hi: usize = if last < frames - 1 {
        last
    } else {
        frames - 1
    };
    proof {
        assert forall|f: int| 0 <= f < frames implies (lo <= f <= hi <==> #[trigger] covers(
            f,
            g as int,
            n_fft as int,
            hop as int,
        )) by {
            lemma_fundamental_div_mod(g as int, hop as int);
            lemma_mod_bound(g as int, hop as int);
            let q = g as int / hop as int;
            let a = g as int % hop as int;
            assert(f <= q <==> f * hop <= g) by (nonlinear_arith)
                requires
                    g == hop * q + a,
                    0 <= a < hop,
                    hop > 0,
            ;
            assert(f * hop >= 0) by (nonlinear_arith)
                requires
                    f >= 0,
                    hop > 0,
            ;
            if g >= n_fft {
                let d = g - n_fft + hop;
                lemma_fundamental_div_mod(d, hop as int);
                lemma_mod_bound(d, hop as int);
                let b = d % (hop as int);
                let l = d / (hop as int);
                assert(l <= f <==> g < f * hop + n_fft) by (nonlinear_arith)
                    requires
                        d == g - n_fft + hop,
                        d == hop * l + b,
                        0 <= b < hop,
                        hop > 0,
                ;
            }
        }
    }
    if lo <= hi {
        Some((lo, hi))
    } else {
        None
    }
}

/// Whether the window of frame `f` covers position `g`.
pub open spec fn covers(f: int, g: int, n_fft: int, hop: int) -> bool {
    f * hop <= g < f * hop + n_fft
}

/// The geometry of a transform.
#[derive(Clone, Copy, Debug)]
pub struct Geometry {
    pub n_fft: usize,
    pub hop: usize,
}

impl Geometry {
    /// The number of frequency bins.
    pub open spec fn bin_count(self) -> int {
        self.n_fft as int / 2 + 1
    }

    /// The samples of the padding on each side, mirrored from the signal.
    pub open spec fn padding(self) -> int {
        self.n_fft as int / 2
    }

    /// The number of frequency bins.
    pub fn bins(&self) -> (r: usize)
        ensures
            r == self.bin_count(),
    {
        self.n_fft / 2 + 1
    }

    /// The padding on each side.
    pub fn pad(&self) -> (r: usize)
        ensures
            r == self.padding(),
    {
        self.n_fft / 2
    }

    /// How many bins of the full spectrum bin `k` stands for.
    pub open spec fn pair_count(self, k: int) -> u8 {
        if k == 0 || k == self.bin_count() - 1 {
            1
        } else {
            2
        }
    }

    /// How many bins of the full spectrum a bin stands for: a conjugate pair, but for the first
    /// and the last.
    pub fn pair_weight(&self, k: usize) -> (r: u8)
        requires
            k < self.bin_count(),
        ensures
            r == self.pair_count(k as int),
    {
        if k == 0 || k == self.bins() - 1 {
            1
        } else {
            2
        }
    }

    /// Whether the buffers of a transform of `frames` frames are machine numbers.
    pub open spec fn countable(self, frames: usize, a: Operand, tables: Operand) -> bool {
        &&& 0 <= self.bin_count() * frames
        &&& 2 * (self.bin_count() * frames) <= usize::MAX
        &&& 0 <= self.bin_count() * self.n_fft
        &&& (a.start + self.bin_count() * frames) * 4 <= usize::MAX
        &&& (tables.start + 2 * (self.bin_count() * self.n_fft)) * 4 <= usize::MAX
    }

    /// The launch of the forward transform: one thread per frame and bin. The tables lie one
    /// after the other: the cosines, the sines, the window. The operands are the signal and the
    /// tables.
    pub fn forward_launch(
        &self,
        x: Operand,
        tables: Operand,
        len: usize,
        frames: usize,
        permitted: usize,
    ) -> (r: Result<Launch, String>)
        requires
            self.countable(frames, x, tables),
        ensures
            match r {
                Ok(l) => operand_fault("stft_forward"@, seq![x, tables], Dtype::F32) is None && {
                    let bn = self.bin_count() * self.n_fft;
                    l@ == (LaunchView {
                        kernel: "stft_forward_f32"@,
                        buffers: seq![
                            bound(0, 0, (x.start * 4) as usize),
                            bound(1, 1, (tables.start * 4) as usize),
                            bound(2, 1, ((tables.start + bn) * 4) as usize),
                            bound(3, 1, ((tables.start + 2 * bn) * 4) as usize),
                        ],
                        result: 4,
                        out: 2 * (self.bin_count() * frames),
                        out_type: Dtype::F32,
                        numbers: given_from(
                            5,
                            seq![
                                len,
                                frames,
                                self.n_fft,
                                self.hop,
                                self.padding() as usize,
                                self.bin_count() as usize,
                            ],
                        ),
                        counts: Counts::Threads,
                        grid: size3(frames as int, self.bin_count(), 1),
                        group: size3(width_for(permitted, frames) as int, 1, 1),
                    })
                },
                Err(e) => operand_fault("stft_forward"@, seq![x, tables], Dtype::F32) == Some(e@),
            },
            r matches Ok(l) ==> 2 * l@.threads_run() == l@.out,
    {
        let operands: Vec<Operand> = vec![x, tables];
        assert(operands@ =~= seq![x, tables]);
        match check_operands("stft_forward", &operands, Dtype::F32) {
            Err(e) => Err(e),
            Ok(_) => {
                let bins: usize = self.bins();
                let pad: usize = self.pad();
                let bn: usize = bins * self.n_fft;
                assert(frames * bins * 1 == bins * frames) by (nonlinear_arith);
                let buffers: Vec<Binding> = vec![
                    bind(0, 0, x.start * 4),
                    bind(1, 1, tables.start * 4),
                    bind(2, 1, (tables.start + bn) * 4),
                    bind(3, 1, (tables.start + 2 * bn) * 4),
                ];
                assert(buffers@ =~= seq![
                    bound(0, 0, (x.start * 4) as usize),
                    bound(1, 1, (tables.start * 4) as usize),
                    bound(2, 1, ((tables.start + bn) * 4) as usize),
                    bound(3, 1, ((tables.start + 2 * bn) * 4) as usize),
                ]);
                let values: Vec<usize> = vec![len, frames, self.n_fft, self.hop, pad, bins];
                assert(values@ =~= seq![len, frames, self.n_fft, self.hop, pad, bins]);
                Ok(
                    Launch {
                        kernel: "stft_forward_f32",
                        buffers,
                        result: 4,
                        out: 2 * (bins * frames),
                        out_type: Dtype::F32,
                        numbers: give_from(5, &values),
                        counts: Counts::Threads,
                        grid: Size3 { width: frames, height: bins, depth: 1 },
                        group: Size3 { width: group_width(permitted, frames), height: 1, depth: 1 },
                    },
                )
            },
        }
    }

    /// The launch of the inverse transform: one thread per sample. The magnitudes lie before
    /// the phases. The operands are the spectrum and the tables.
    pub fn inverse_launch(
        &self,
        stacked: Operand,
        tables: Operand,
        out_len: usize,
        frames: usize,
        permitted: usize,
    ) -> (r: Result<Launch, String>)
        requires
            self.countable(frames, stacked, tables),
        ensures
            match r {
                Ok(l) => operand_fault("stft_inverse"@, seq![stacked, tables], Dtype::F32) is None
                    && {
                    let bn = self.bin_count() * self.n_fft;
                    let bf = self.bin_count() * frames;
                    l@ == (LaunchView {
                        kernel: "stft_inverse_f32"@,
                        buffers: seq![
                            bound(0, 0, (stacked.start * 4) as usize),
                            bound(1, 0, ((stacked.start + bf) * 4) as usize),
                            bound(2, 1, (tables.start * 4) as usize),
                            bound(3, 1, ((tables.start + bn) * 4) as usize),
                            bound(4, 1, ((tables.start + 2 * bn) * 4) as usize),
                        ],
                        result: 5,
                        out: out_len as int,
                        out_type: Dtype::F32,
                        numbers: given_from(
                            6,
                            seq![
                                out_len,
                                frames,
                                self.bin_count() as usize,
                                self.n_fft,
                                self.hop,
                                self.padding() as usize,
                            ],
                        ),
                        counts: Counts::Threads,
                        grid: size3(out_len as int, 1, 1),
                        group: size3(width_for(permitted, out_len) as int, 1, 1),
                    })
                },
                Err(e) => operand_fault("stft_inverse"@, seq![stacked, tables], Dtype::F32) == Some(
                    e@,
                ),
            },
            r matches Ok(l) ==> l@.threads_run() == l@.out,
    {
        let operands: Vec<Operand> = vec![stacked, tables];
        assert(operands@ =~= seq![stacked, tables]);
        match check_operands("stft_inverse", &operands, Dtype::F32) {
            Err(e) => Err(e),
            Ok(_) => {
                let bins: usize = self.bins();
                let pad: usize = self.pad();
                let bn: usize = bins * self.n_fft;
                let bf: usize = bins * frames;
                assert(out_len * 1 * 1 == out_len) by (nonlinear_arith);
                let buffers: Vec<Binding> = vec![
                    bind(0, 0, stacked.start * 4),
                    bind(1, 0, (stacked.start + bf) * 4),
                    bind(2, 1, tables.start * 4),
                    bind(3, 1, (tables.start + bn) * 4),
                    bind(4, 1, (tables.start + 2 * bn) * 4),
                ];
                assert(buffers@ =~= seq![
                    bound(0, 0, (stacked.start * 4) as usize),
                    bound(1, 0, ((stacked.start + bf) * 4) as usize),
                    bound(2, 1, (tables.start * 4) as usize),
                    bound(3, 1, ((tables.start + bn) * 4) as usize),
                    bound(4, 1, ((tables.start + 2 * bn) * 4) as usize),
                ]);
                let values: Vec<usize> = vec![out_len, frames, bins, self.n_fft, self.hop, pad];
                assert(values@ =~= seq![out_len, frames, bins, self.n_fft, self.hop, pad]);
                Ok(
                    Launch {
                        kernel: "stft_inverse_f32",
                        buffers,
                        result: 5,
                        out: out_len,
                        out_type: Dtype::F32,
                        numbers: give_from(6, &values),
                        counts: Counts::Threads,
                        grid: Size3 { width: out_len, height: 1, depth: 1 },
                        group: Size3 { width: group_width(permitted, out_len), height: 1, depth: 1 },
                    },
                )
            },
        }
    }
}

} // verus!
