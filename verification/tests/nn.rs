use candle_core::{DType, Device, Tensor};
use dream_tts::attention::Decode;
use dream_tts::block::{feeds, ConvShape, Graph, Op};
use dream_tts::block_cache::{check_feeds, check_run, valid_mask, BlockKey, Cache, KEEP};
use dream_tts::conv::{causal_chunks, centered_chunks, chunk_width, col_budget};
use dream_tts::elementwise::{
    adain_apply_launch, adain_snake_launch, check_gates, check_heads, check_one_batch,
    gate_residual_launch, head_transpose_launch, lstm_gates_launch, modulate_launch, moments_launch,
    snake_alpha_launch, snake_beta_launch, snake_beta_nlc_launch, snake_folded_launch, sub_sqr_launch,
    swiglu_launch,
};
use dream_tts::launch::{
    causal_feeds, check_cache, check_sample, conv_feeds, gather_wins, graph_eligible, graph_wins,
    group_width, nlc_conv_launch, qk_rope_launch, rope_eligible, skinny_launch, tap_conv_launch,
    topk_launch, Counts, Dtype, Launch, Operand, RopeOperands, Size3, TapKernel,
};
use dream_tts::matmul::{flatten, groups_of};
use dream_tts::skinny::{check_inner, eligible};
use dream_tts::stats::{product_bytes, record, take, Stats};
use dream_tts::stft::{covering_frames, frame_count, sample_index, signal_len, Geometry};
use dream_tts::tensor::{
    causal_window_mask, gather_rows, gather_taps, head_transpose, tap_major, transpose,
    upsample_nearest,
};
use dream_tts::upconv::UpConv;

#[test]
fn declines_shapes_it_cannot_tile() {
    assert!(!eligible(1, 1024, 4096));
    assert!(!eligible(56, 1024, 4096));
    assert!(!eligible(48, 1000, 4096));
    assert!(!eligible(48, 1024, 96));
}

#[test]
fn takes_the_shapes_of_a_decoder() {
    for (m, k, n) in [
        (48, 2048, 4096),
        (48, 2048, 6144),
        (48, 6144, 2048),
        (48, 1024, 3072),
        (40, 3072, 1024),
        (32, 1024, 2048),
        (8, 1024, 4096),
    ] {
        assert!(eligible(m, k, n), "{m}x{k}x{n} should be eligible");
    }
}

#[test]
fn arithmetic_and_reset() {
    let mut s = Stats::default();
    take(&mut s);
    record(&mut s, 48, 2048, 4096, 100);
    record(&mut s, 48, 2048, 4096, 100);
    let (flops, bytes) = take(&mut s);
    assert_eq!(flops, 2 * 2 * 48 * 2048 * 4096);
    assert_eq!(bytes, 200);
    assert_eq!(take(&mut s), (0, 0));
}

#[test]
fn products_move_their_operands_and_results() {
    assert_eq!(product_bytes(2, 3, 5, 4, 2, 4), Some(2 * 3 * 4 + 3 * 5 * 2 + 2 * 5 * 4));
    assert_eq!(product_bytes(0, 3, 5, 4, 4, 4), Some(60));
    assert_eq!(product_bytes(usize::MAX, 2, 1, 4, 4, 4), None);
}

#[test]
fn totals_stop_at_the_largest_number() {
    let mut s = Stats { flops: u64::MAX - 1, bytes: u64::MAX };
    record(&mut s, 1, 1, 1, 5);
    assert_eq!(take(&mut s), (u64::MAX, u64::MAX));
}

/// The transpose against candle's own, at shapes that are not multiples of a tile.
#[test]
fn host_transpose_matches_candle() {
    for (r, c) in [(1usize, 1usize), (3, 130), (257, 65), (1024, 640)] {
        let t = Tensor::randn(0f32, 1., (r, c), &Device::Cpu).unwrap();
        let want = t.t().unwrap().contiguous().unwrap().flatten_all().unwrap().to_vec1::<f32>().unwrap();
        let got = transpose(&t.flatten_all().unwrap().to_vec1::<f32>().unwrap(), r, c);
        assert_eq!(got, want, "{r}x{c}");
    }
}

#[test]
fn upsample_nearest_repeats_each_frame() {
    let y = upsample_nearest(&vec![1f32, 2.0, 3.0], 2);
    assert_eq!(y.len(), 6);
    assert_eq!(y, vec![1.0, 1.0, 2.0, 2.0, 3.0, 3.0]);
    assert_eq!(upsample_nearest(&vec![1u8, 2], 1), vec![1, 2]);
}

/// The centred product over gathered taps against candle's same-padded convolution.
#[test]
fn centered_conv_matches_candle() {
    let d = Device::Cpu;
    for (cout, cin, len, k, dil) in [
        (8usize, 4usize, 15usize, 3usize, 1usize),
        (8, 8, 64, 7, 3),
        (4, 4, 65, 11, 5),
        (128, 128, 444, 3, 1),
    ] {
        let pad = (k - 1) * dil / 2;
        let x = Tensor::randn(0f32, 1., (1, cin, len), &d).unwrap();
        let w = Tensor::randn(0f32, 0.1, (cout, cin, k), &d).unwrap();
        let b = Tensor::randn(0f32, 1., cout, &d).unwrap();
        let want = x.conv1d(&w, pad, 1, dil, 1).unwrap();
        let want = want.broadcast_add(&b.reshape((1, cout, 1)).unwrap()).unwrap();
        let bias: Vec<f32> = b.to_vec1().unwrap();
        let want: Vec<f32> = want.flatten_all().unwrap().to_vec1().unwrap();
        let xv: Vec<f32> = x.flatten_all().unwrap().to_vec1().unwrap();
        let wv: Vec<f32> = w.flatten_all().unwrap().to_vec1().unwrap();
        let w_tap = Tensor::from_vec(tap_major(&wv, cout, cin, k), (cout, k * cin), &d).unwrap();
        // A budget that forces chunks, and one that does not.
        for budget in [usize::MAX, 5 * k * cin] {
            let mut got = vec![0f32; cout * len];
            for c in centered_chunks(len, cin, k, dil, pad, budget) {
                let first = c.start - c.left;
                let size = c.left + c.width + c.right;
                let mut piece = Vec::new();
                for ch in 0..cin {
                    piece.extend_from_slice(&xv[ch * len + first..ch * len + first + size]);
                }
                let cols = gather_taps(&piece, cin, size, k, dil, pad, 0f32);
                let cols = Tensor::from_vec(cols, (k * cin, size), &d).unwrap();
                let y: Vec<f32> = w_tap.matmul(&cols).unwrap().flatten_all().unwrap().to_vec1().unwrap();
                for o in 0..cout {
                    for t in 0..c.width {
                        got[o * len + c.start + t] = y[o * size + c.left + t] + bias[o];
                    }
                }
            }
            let scale = want.iter().fold(0f32, |a, b| a.max(b.abs()));
            let worst = want.iter().zip(&got).fold(0f32, |a, (x, y)| a.max((x - y).abs()));
            assert!(worst / scale < 1e-5, "{cout}x{cin} l={len} k={k} d={dil}: {worst:.3e}");
        }
    }
}

#[test]
fn chunks_are_even_and_few() {
    assert_eq!(chunk_width(100, 50), 50);
    assert_eq!(chunk_width(0, 3), 1);
    assert_eq!(chunk_width(47_662, 48_240), 24_120);
    assert_eq!(chunk_width(10, 25), 9);
    // One narrower would take a fourth chunk.
    assert!(25usize.div_ceil(8) > 25usize.div_ceil(9));
    let v = causal_chunks(25, 1, 3, 2, 30);
    let got: Vec<(usize, usize, usize, usize)> = v.iter().map(|c| (c.start, c.width, c.left, c.right)).collect();
    assert_eq!(got, [(0, 9, 0, 0), (9, 9, 4, 0), (18, 7, 4, 0)]);
    let v = centered_chunks(25, 1, 3, 2, 2, 30);
    let got: Vec<(usize, usize, usize, usize)> = v.iter().map(|c| (c.start, c.width, c.left, c.right)).collect();
    assert_eq!(got, [(0, 9, 0, 2), (9, 9, 2, 2), (18, 7, 2, 0)]);
    assert_eq!(causal_chunks(5, 1, 3, 2, 1000).len(), 1);
    // A budget of nothing still takes a column at a time.
    let v = causal_chunks(3, 1, 2, 1, 0);
    let got: Vec<(usize, usize, usize, usize)> = v.iter().map(|c| (c.start, c.width, c.left, c.right)).collect();
    assert_eq!(got, [(0, 1, 0, 0), (1, 1, 1, 0), (2, 1, 1, 0)]);
    assert_eq!(col_budget(None, 64), 64 << 20);
    assert_eq!(col_budget(Some(2), 64), 2 << 20);
    assert_eq!(col_budget(Some(usize::MAX), 64), usize::MAX << 20);
}

/// The phases of a plan, each a sum of products of one tap's weights with one window.
fn upconv(w: &Tensor, b: &Tensor, x: &Tensor, up: &UpConv) -> Option<Tensor> {
    let (_, cin, l_in) = x.dims3().unwrap();
    let cout = w.dims()[1];
    let (len_p, plan) = up.plan(1, l_in)?;
    let mut columns = Vec::new();
    for p in &plan {
        let padded = x.squeeze(0).unwrap().pad_with_zeros(1, p.pad_left, p.pad_right).unwrap();
        let mut sum = Tensor::zeros((cout, len_p), x.dtype(), x.device()).unwrap();
        for win in &p.windows {
            let tap = w.narrow(2, win.tap, 1).unwrap().reshape((cin, cout)).unwrap();
            let tap = tap.t().unwrap().contiguous().unwrap();
            let window = padded.narrow(1, win.from, len_p).unwrap().contiguous().unwrap();
            sum = (sum + tap.matmul(&window).unwrap()).unwrap();
        }
        columns.push(sum.unsqueeze(2).unwrap());
    }
    let out = Tensor::cat(&columns, 2).unwrap();
    let out = out.reshape((1, cout, len_p * plan.len())).unwrap();
    Some(out.broadcast_add(&b.reshape((1, cout, 1)).unwrap()).unwrap())
}

fn floats(t: &Tensor) -> Vec<f32> {
    t.flatten_all().unwrap().to_vec1().unwrap()
}

/// A transposed convolution by its definition: each input adds its kernel to the outputs of
/// its group.
fn scattered(w: &Tensor, x: &Tensor, stride: usize, padding: usize, groups: usize, l_out: usize) -> Vec<f32> {
    let (cin, per_group, k) = w.dims3().unwrap();
    let l_in = x.dims()[2];
    let (wv, xv) = (floats(w), floats(x));
    let mut out = vec![0f32; groups * per_group * l_out];
    for c in 0..cin {
        let first = c / (cin / groups) * per_group;
        for i in 0..l_in {
            for o in 0..per_group {
                for t in 0..k {
                    let at = i * stride + t;
                    if at >= padding && at - padding < l_out {
                        out[(first + o) * l_out + at - padding] += wv[(c * per_group + o) * k + t] * xv[c * l_in + i];
                    }
                }
            }
        }
    }
    out
}

fn check(cout: usize, cin: usize, k: usize, stride: usize, padding: usize, out_pad: usize, lengths: &[usize]) {
    let dev = Device::Cpu;
    let w = Tensor::randn(0f32, 0.1, (cin, cout, k), &dev).unwrap();
    for &l_in in lengths {
        check_length(&w, stride, padding, out_pad, l_in);
    }
}

fn check_length(w: &Tensor, stride: usize, padding: usize, out_pad: usize, l_in: usize) {
    let dev = Device::Cpu;
    let (cin, cout, k) = w.dims3().unwrap();
    let x = Tensor::randn(0f32, 1.0, (1, cin, l_in), &dev).unwrap();
    let b = Tensor::randn(0f32, 1.0, cout, &dev).unwrap();
    let up = UpConv::new(stride, padding, out_pad, k, 1);
    assert!(up.decomposes(), "test shape should take the fast path");
    // candle's own output length underflows where one step is shorter than the padding.
    let mut want = if (l_in - 1) * stride >= 2 * padding {
        let want = x.conv_transpose1d(w, padding, out_pad, stride, 1, 1).unwrap();
        assert_eq!(up.l_out(l_in), want.dims()[2]);
        floats(&want)
    } else {
        scattered(w, &x, stride, padding, 1, up.l_out(l_in))
    };
    let l_out = up.l_out(l_in);
    for (o, v) in b.to_vec1::<f32>().unwrap().iter().enumerate() {
        for t in 0..l_out {
            want[o * l_out + t] += v;
        }
    }
    match upconv(w, &b, &x, &up) {
        Some(got) => {
            let got = floats(&got);
            assert_eq!(got.len(), want.len());
            let scale = want.iter().fold(0f32, |a, b| a.max(b.abs()));
            let worst = want.iter().zip(&got).fold(0f32, |a, (x, y)| a.max((x - y).abs()));
            assert!(worst <= scale * 1e-5, "k={k} s={stride} p={padding} op={out_pad} l={l_in}: {worst:.2e}");
        }
        None => assert!(l_out % stride != 0),
    }
}

#[test]
fn matches_candle_on_cpu() {
    // Two upsamples of a vocoder at real lengths, plus edges.
    let lengths = [1usize, 7, 138, 444];
    check(256, 512, 20, 10, 5, 0, &lengths);
    check(128, 256, 12, 6, 3, 0, &lengths);
    // Kernel not a multiple of stride, padding extremes, output padding.
    check(32, 16, 7, 4, 2, 0, &[53]);
    check(32, 16, 5, 3, 0, 0, &[53]);
    check(16, 8, 4, 2, 1, 1, &[53]);
    check(8, 8, 1, 2, 0, 0, &[53]);
}

#[test]
fn grouped_falls_back() {
    let dev = Device::Cpu;
    let x = Tensor::randn(0f32, 1.0, (1, 8, 32), &dev).unwrap();
    let w = Tensor::randn(0f32, 0.1, (8, 1, 3), &dev).unwrap();
    let up = UpConv::new(2, 1, 1, 3, 8);
    assert!(!up.decomposes());
    assert!(up.plan(1, 32).is_none());
    // What it falls back to.
    let want = x.conv_transpose1d(&w, 1, 1, 2, 1, 8).unwrap();
    assert_eq!(want.dims(), [1, 8, up.l_out(32)]);
    let (want, got) = (floats(&want), scattered(&w, &x, 2, 1, 8, up.l_out(32)));
    let scale = want.iter().fold(0f32, |a, b| a.max(b.abs()));
    let worst = want.iter().zip(&got).fold(0f32, |a, (x, y)| a.max((x - y).abs()));
    assert!(worst <= scale * 1e-6, "fallback differs: {worst:.2e}");
    assert!(UpConv::new(2, 1, 1, 3, 1).plan(2, 32).is_none());
    assert!(UpConv::new(2, 1, 1, 3, 1).plan(1, 32).is_some());
}

#[test]
fn rotation_needs_one_shape_of_operands() {
    assert!(rope_eligible(true, true, Dtype::F32, Dtype::F16, 128));
    assert!(!rope_eligible(false, true, Dtype::F32, Dtype::F16, 128));
    assert!(!rope_eligible(true, false, Dtype::F32, Dtype::F16, 128));
    assert!(!rope_eligible(true, true, Dtype::F16, Dtype::F16, 128));
    assert!(!rope_eligible(true, true, Dtype::F32, Dtype::F32, 128));
    assert!(!rope_eligible(true, true, Dtype::F32, Dtype::F16, 64));
}

#[test]
fn heads_change_places() {
    // [1, 2, 3, 2]: positions, heads, elements.
    let src: Vec<u8> = (0..12).collect();
    let got = head_transpose(&src, 1, 2, 3, 2);
    assert_eq!(got, vec![0, 1, 6, 7, 2, 3, 8, 9, 4, 5, 10, 11]);
    assert_eq!(head_transpose(&got, 1, 3, 2, 2), src);
    assert_eq!(transpose(&transpose(&src, 3, 4), 4, 3), src);
}

#[test]
fn rows_are_gathered_or_refused() {
    let data: Vec<u8> = (0..12).collect();
    assert_eq!(gather_rows(&data, 4, &vec![2, 0]), Ok(vec![8, 9, 10, 11, 0, 1, 2, 3]));
    assert_eq!(gather_rows(&data, 4, &vec![0, 3, 9]), Err(3));
    assert_eq!(gather_rows(&data, usize::MAX, &vec![u32::MAX]), Err(u32::MAX));
}

#[test]
fn masks_bound_attention() {
    assert_eq!(causal_window_mask(3, None), [true, false, false, true, true, false, true, true, true]);
    assert_eq!(causal_window_mask(3, Some(1)), [true, false, false, false, true, false, false, false, true]);
    assert_eq!(causal_window_mask(3, Some(2)), [true, false, false, true, true, false, false, true, true]);
    assert_eq!(causal_window_mask(2, Some(0)), [false; 4]);
    assert_eq!(valid_mask(2, 4), [true, true, false, false]);
}

#[test]
fn frames_mirror_and_overlap() {
    assert_eq!(frame_count(2400, 5), 481);
    assert_eq!(signal_len(481, 5), 2400);
    assert_eq!(sample_index(0, 10, 100), 10);
    assert_eq!(sample_index(10, 10, 100), 0);
    assert_eq!(sample_index(109, 10, 100), 99);
    assert_eq!(sample_index(110, 10, 100), 98);
    // The shortest signal that a window of 20 fits: its last position mirrors onto the first sample.
    assert_eq!(sample_index(11 + 19, 10, 11), 0);
    assert_eq!(covering_frames(10, 20, 5, 100), Some((0, 2)));
    assert_eq!(covering_frames(40, 20, 5, 100), Some((5, 8)));
    assert_eq!(covering_frames(20, 20, 5, 3), Some((1, 2)));
    assert_eq!(covering_frames(99, 20, 5, 3), None);
    let g = Geometry { n_fft: 20, hop: 5 };
    assert_eq!((g.bins(), g.pad()), (11, 10));
    assert_eq!((g.pair_weight(0), g.pair_weight(5), g.pair_weight(10)), (1, 2, 1));
    let l = g.forward_launch(op(3), op(1), 50, 11, 64).unwrap();
    assert_eq!((l.kernel, l.result, l.counts), ("stft_forward_f32", 4, Counts::Threads));
    assert_eq!(buffers(&l), [(0, 0, 12), (1, 1, 4), (2, 1, (1 + 220) * 4), (3, 1, (1 + 440) * 4)]);
    assert_eq!(numbers(&l), [(5, 50), (6, 11), (7, 20), (8, 5), (9, 10), (10, 11)]);
    assert_eq!((l.out, l.grid.width, l.grid.height, l.group.width), (242, 11, 11, 11));
    let l = g.inverse_launch(op(0), op(0), 50, 11, 64).unwrap();
    assert_eq!((l.kernel, l.result, l.counts), ("stft_inverse_f32", 5, Counts::Threads));
    assert_eq!(buffers(&l), [(0, 0, 0), (1, 0, 484), (2, 1, 0), (3, 1, 880), (4, 1, 1760)]);
    assert_eq!(numbers(&l), [(6, 50), (7, 11), (8, 11), (9, 20), (10, 5), (11, 10)]);
    assert_eq!((l.grid.width, l.group.width), (50, 50));
    let bad = Operand { dtype: Dtype::F16, ..op(0) };
    assert_eq!(g.forward_launch(bad, op(0), 50, 11, 64).err().unwrap(), "stft_forward: only f32");
}

/// A Hann window with a hop of 5 is invertible up to the mirrored edges, so interior samples
/// come back from the frames that the geometry lays out.
#[test]
fn roundtrip_is_near_identity() {
    let x: Vec<f32> = (0..2400)
        .map(|i| (i as f32 * 0.11).sin() + 0.5 * (i as f32 * 0.031).cos())
        .collect();
    let g = Geometry { n_fft: 20, hop: 5 };
    let (n_fft, hop, bins, pad) = (g.n_fft, g.hop, g.bins(), g.pad());
    let turn = 2.0 * std::f32::consts::PI / n_fft as f32;
    let window: Vec<f32> = (0..n_fft).map(|i| 0.5 - 0.5 * (turn * i as f32).cos()).collect();
    let frames = frame_count(x.len(), hop);
    let mut spectrum = vec![(0f32, 0f32); bins * frames];
    for f in 0..frames {
        for k in 0..bins {
            let (mut re, mut im) = (0f32, 0f32);
            for n in 0..n_fft {
                let v = x[sample_index(f * hop + n, pad, x.len())] * window[n];
                let a = turn * (k * n) as f32;
                re += v * (-a).cos();
                im += v * (-a).sin();
            }
            spectrum[k * frames + f] = ((re * re + im * im).sqrt(), im.atan2(re));
        }
    }
    let out_len = signal_len(frames, hop);
    assert_eq!(out_len, 2400);
    let mut worst = 0f32;
    for i in pad + 1..2400 - pad - 1 {
        let (lo, hi) = covering_frames(pad + i, n_fft, hop, frames).unwrap();
        let (mut acc, mut env) = (0f32, 0f32);
        for f in lo..=hi {
            let n = pad + i - f * hop;
            let mut v = 0f32;
            for k in 0..bins {
                let (m, p) = spectrum[k * frames + f];
                let a = turn * (k * n) as f32;
                let pair = g.pair_weight(k) as f32 / n_fft as f32;
                v += m * pair * (p.cos() * a.cos() - p.sin() * a.sin());
            }
            acc += v * window[n];
            env += window[n] * window[n];
        }
        worst = worst.max((acc / env - x[i]).abs());
    }
    assert!(worst < 1e-3, "roundtrip drifted {worst:.3e} in the interior");
}

fn op(start: usize) -> Operand {
    Operand { contiguous: true, start, dtype: Dtype::F32, on_device: true }
}

fn half(start: usize) -> Operand {
    Operand { dtype: Dtype::F16, ..op(start) }
}

fn strided() -> Operand {
    Operand { contiguous: false, ..op(0) }
}

fn elsewhere() -> Operand {
    Operand { on_device: false, ..op(0) }
}

/// Slot, operand and byte of each buffer.
fn buffers(l: &Launch) -> Vec<(usize, usize, usize)> {
    l.buffers.iter().map(|b| (b.slot, b.operand, b.offset)).collect()
}

/// Slot and value of each number.
fn numbers(l: &Launch) -> Vec<(usize, u32)> {
    l.numbers.iter().map(|n| (n.slot, n.value)).collect()
}

fn size(s: Size3) -> (usize, usize, usize) {
    (s.width, s.height, s.depth)
}

/// The threads that a launch runs.
fn threads(l: &Launch) -> usize {
    let volume = |s: Size3| s.width * s.height * s.depth;
    match l.counts {
        Counts::Threads => volume(l.grid),
        Counts::Groups => volume(l.grid) * volume(l.group),
    }
}

#[test]
fn element_types_have_sizes_and_names() {
    assert_eq!((Dtype::F16.size_in_bytes(), Dtype::F32.size_in_bytes(), Dtype::F64.size_in_bytes()), (2, 4, 8));
    assert_eq!((Dtype::U8.size_in_bytes(), Dtype::F4.size_in_bytes(), Dtype::I64.size_in_bytes()), (1, 0, 8));
    assert_eq!((Dtype::BF16.name(), Dtype::F8E4M3.name()), ("BF16", "F8E4M3"));
}

#[test]
fn elements_are_launched_one_thread_each() {
    assert_eq!((group_width(0, 0), group_width(1000, 300), group_width(64, 300), group_width(64, 3)), (1, 256, 64, 3));
    let l = snake_folded_launch(op(2), 600, 1024).unwrap();
    assert_eq!((l.kernel, l.result, l.out, l.out_type), ("snake_folded_f32", 1, 600, Dtype::F32));
    assert_eq!((buffers(&l), numbers(&l)), (vec![(0, 0, 8)], vec![(2, 600)]));
    assert_eq!((size(l.grid), size(l.group), threads(&l)), ((600, 1, 1), (256, 1, 1), 600));
    assert_eq!(snake_folded_launch(strided(), 1, 1).err().unwrap(), "snake_folded: input must be contiguous");
    assert_eq!(snake_folded_launch(half(0), 1, 1).err().unwrap(), "snake_folded: only f32, got F16");

    let l = snake_alpha_launch(op(2), op(0), 10, 60, 1024).unwrap();
    assert_eq!((l.kernel, l.out, numbers(&l)), ("snake_alpha_f32", 600, vec![(3, 60)]));
    assert_eq!((size(l.grid), size(l.group)), ((60, 10, 1), (60, 1, 1)));
    let e = snake_alpha_launch(half(0), strided(), 1, 1, 1).err().unwrap();
    assert_eq!(e, "snake_alpha: inputs must be contiguous");

    let l = snake_beta_launch(op(2), op(0), op(1), 10, 60, 1024).unwrap();
    assert_eq!((l.kernel, l.result, numbers(&l)), ("snake_beta_f32", 3, vec![(4, 60)]));
    assert_eq!(buffers(&l), [(0, 0, 8), (1, 1, 0), (2, 2, 4)]);
    assert_eq!(snake_beta_launch(op(0), half(0), op(0), 1, 1, 1).err().unwrap(), "snake_beta: only f32");

    let l = swiglu_launch(op(0), op(0), 70, 64).unwrap();
    assert_eq!((l.kernel, l.out, numbers(&l), size(l.group)), ("swiglu_mul_f32", 70, vec![(3, 70)], (64, 1, 1)));

    let l = head_transpose_launch(op(0), 2, 7, 4, 64, 1024).unwrap();
    assert_eq!((l.kernel, l.out, numbers(&l)), ("head_transpose_f32", 2 * 7 * 4 * 64, vec![(2, 7), (3, 4), (4, 64)]));
    assert_eq!((size(l.grid), size(l.group)), ((64, 7, 8), (64, 4, 1)));
    let e = head_transpose_launch(strided(), 2, 7, 4, 64, 1024).err().unwrap();
    assert_eq!(e, "head_transpose: input must be contiguous");
    assert_eq!(head_transpose_launch(half(0), 2, 7, 4, 64, 1024).err().unwrap(), "head_transpose: only f32");
    assert!(check_heads(256, 4, 64).is_ok());
    assert_eq!(check_heads(255, 4, 64).err().unwrap(), "head_transpose: 255 != 4 * 64");

    let l = snake_beta_nlc_launch(half(3), op(1), op(0), 5, 96, 64).unwrap();
    assert_eq!((l.kernel, l.out, l.out_type), ("snake_beta_nlc_f16", 480, Dtype::F16));
    assert_eq!((buffers(&l), numbers(&l)), (vec![(0, 0, 6), (1, 1, 4), (2, 2, 0)], vec![(4, 96)]));
    assert_eq!((size(l.grid), size(l.group)), ((96, 5, 1), (64, 1, 1)));
    assert_eq!(snake_beta_nlc_launch(op(0), op(0), op(0), 5, 96, 64).unwrap().kernel, "snake_beta_nlc_f32");
    let e = snake_beta_nlc_launch(op(0), half(0), op(0), 5, 96, 64).err().unwrap();
    assert_eq!(e, "snake_beta_nlc: parameters must be f32");
    let brain = Operand { dtype: Dtype::BF16, ..op(0) };
    let e = snake_beta_nlc_launch(brain, op(0), op(0), 5, 96, 64).err().unwrap();
    assert_eq!(e, "snake_beta_nlc: activations f32 or f16, got BF16");

    let l = modulate_launch(op(0), op(0), op(0), 2, 7, 64, 1024).unwrap();
    assert_eq!((l.kernel, l.out, size(l.grid)), ("modulate_affine_f32", 896, (64, 7, 2)));
    let e = modulate_launch(op(0), op(0), half(0), 2, 7, 64, 1024).err().unwrap();
    assert_eq!(e, "tts_nn::modulate_affine: only f32");
    let l = gate_residual_launch(op(0), op(0), op(0), 2, 7, 64, 1024).unwrap();
    assert_eq!((l.kernel, numbers(&l)), ("gate_residual_f32", vec![(4, 7), (5, 64)]));

    assert_eq!(sub_sqr_launch(op(0), op(0), 3, 4, 8).unwrap().kernel, "sub_sqr_f32");
    let l = adain_apply_launch(op(0), op(0), 3, 4, 8).unwrap();
    assert_eq!((l.kernel, numbers(&l)), ("adain_apply_f32", vec![(3, 4), (4, 3)]));
    assert_eq!(adain_snake_launch(op(0), op(0), 3, 4, 8).unwrap().kernel, "adain_snake_f32");
    let l = moments_launch(op(0), 3, 400, 1024).unwrap();
    assert_eq!((l.kernel, l.out, size(l.grid), size(l.group)), ("channel_moments_f32", 6, (256, 3, 1), (256, 1, 1)));
    assert_eq!(moments_launch(strided(), 3, 4, 8).err().unwrap(), "channel_moments: input must be contiguous");
    assert!(check_one_batch(1).is_ok());
    assert_eq!(check_one_batch(2).err().unwrap(), "channel_moments: batch must be 1, got 2");
    let l = lstm_gates_launch(op(0), op(0), op(0), 512, 1024).unwrap();
    assert_eq!((l.kernel, l.out, numbers(&l), size(l.grid)), ("lstm_gates_f32", 1024, vec![(4, 512)], (512, 1, 1)));
    assert!(check_gates(8, 8, 2).is_ok());
    assert_eq!(check_gates(8, 7, 2).err().unwrap(), "lstm_gates: gate vectors must be 4 x hidden");
}

#[test]
fn launches_check_their_operands() {
    let l = skinny_launch(half(1), half(0), 48, 32, 128).unwrap();
    assert_eq!((l.kernel, l.result, l.out, l.out_type), ("gemm_skinny_f16", 2, 48 * 128, Dtype::F32));
    assert_eq!((buffers(&l), numbers(&l)), (vec![(0, 0, 2), (1, 1, 0)], vec![(3, 48), (4, 32), (5, 128)]));
    assert_eq!((l.counts, size(l.grid), size(l.group)), (Counts::Threads, (512, 1, 1), (256, 1, 1)));
    assert_eq!(check_inner(32, 32), Ok(()));
    assert_eq!(check_inner(32, 64).err().unwrap(), "gemm_skinny: 32 != 64");
    assert_eq!(skinny_launch(op(0), half(0), 48, 32, 128).err().unwrap(), "gemm_skinny: only f16");

    // The signal stands in for what a convolution lacks.
    let l = nlc_conv_launch(op(5), op(1), op(2), None, Some(op(3)), 65, 32, 64, 7, 9, true).unwrap();
    assert_eq!((l.kernel, l.result, l.counts), ("nlc_conv_f32", 3, Counts::Threads));
    assert_eq!(buffers(&l), [(0, 0, 20), (1, 1, 4), (2, 2, 8), (10, 0, 0), (11, 0, 0), (12, 5, 12)]);
    assert_eq!(numbers(&l), [(4, 65), (5, 32), (6, 64), (7, 7), (8, 9), (9, 1), (13, 0), (14, 1)]);
    assert_eq!((size(l.grid), size(l.group)), ((32, 16, 1), (16, 8, 1)));
    let l = nlc_conv_launch(op(5), op(1), op(2), Some((op(6), op(7))), None, 65, 32, 64, 7, 9, false).unwrap();
    assert_eq!(buffers(&l)[3..], [(10, 3, 24), (11, 4, 28), (12, 0, 0)]);
    assert_eq!(numbers(&l)[5..], [(9, 0), (13, 1), (14, 0)]);
    let refused = |snake, res| nlc_conv_launch(op(0), op(0), op(0), snake, res, 65, 32, 64, 7, 9, true).err().unwrap();
    assert_eq!(refused(Some((op(0), elsewhere())), None), "nlc_conv: operand must be on the device");
    assert_eq!(refused(None, Some(elsewhere())), "nlc_conv: operand must be on the device");
    let e = nlc_conv_launch(op(0), half(0), op(0), None, Some(elsewhere()), 65, 32, 64, 7, 9, true).err().unwrap();
    assert_eq!(e, "nlc_conv: only f32");

    // The caches stand in for the copies in f32.
    let beside = RopeOperands { norms: op(1), cos: op(2), sin: op(3), k_cache: half(4), v_cache: half(5), side: None };
    let l = qk_rope_launch(op(7), beside, 2, 3, 16, 8, 5, 64).unwrap();
    assert_eq!((l.kernel, l.result, l.out), ("qk_rope_f32", 4, 2 * 16 * 3 * 128));
    assert_eq!(
        buffers(&l),
        [(0, 0, 28), (1, 1, 4), (2, 2, 8), (3, 3, 12), (5, 4, 8), (6, 5, 10), (7, 4, 8), (8, 5, 10)]
    );
    assert_eq!(numbers(&l), [(9, 3), (10, 16), (11, 8), (12, 5), (13, 64), (14, 0)]);
    assert_eq!((l.counts, size(l.grid), size(l.group)), (Counts::Groups, (6, 1, 1), (768, 1, 1)));
    let sides = RopeOperands { side: Some((op(6), op(7))), ..beside };
    let l = qk_rope_launch(op(7), sides, 2, 3, 16, 8, 5, 64).unwrap();
    assert_eq!((buffers(&l)[6..].to_vec(), numbers(&l)[5]), (vec![(7, 6, 24), (8, 7, 28)], (14, 1)));
    let off = RopeOperands { sin: elsewhere(), ..beside };
    assert_eq!(qk_rope_launch(op(7), off, 2, 3, 16, 8, 5, 64).err().unwrap(), "qk_rope: operand must be on the device");

    // The weights stand in for the bias.
    let l = tap_conv_launch(TapKernel::Registers, op(3), op(2), None, 129, 8, 256, 3, 1, 1).unwrap();
    assert_eq!((l.kernel, l.result, l.counts), ("conv1d_tap_reg_f32", 3, Counts::Groups));
    assert_eq!((buffers(&l), size(l.grid)), (vec![(0, 0, 12), (1, 1, 8), (2, 1, 0)], (2, 2, 1)));
    assert_eq!(threads(&l), 4 * 256);
    let l = tap_conv_launch(TapKernel::Shared, op(3), op(2), Some(op(1)), 129, 8, 256, 3, 1, 1).unwrap();
    assert_eq!((l.kernel, size(l.grid), buffers(&l)[2]), ("conv1d_tap_gemm_f32", (3, 2, 1), (2, 2, 4)));
    assert_eq!(numbers(&l), [(4, 129), (5, 8), (6, 256), (7, 3), (8, 1), (9, 1), (10, 1)]);
    let e = tap_conv_launch(TapKernel::Shared, strided(), op(0), None, 1, 8, 256, 3, 1, 1).err().unwrap();
    assert_eq!(e, "conv1d_tap_gemm: inputs must be contiguous");
    let e = tap_conv_launch(TapKernel::Shared, op(0), op(0), Some(elsewhere()), 1, 8, 256, 3, 1, 1).err().unwrap();
    assert_eq!(e, "conv1d_tap_gemm: bias must be on the same device");

    let l = topk_launch(op(0), op(0), 5, 5, 100, 7).unwrap();
    assert_eq!((l.kernel, l.result, l.out, l.out_type), ("topk_sample_f32", 2, 5, Dtype::U32));
    assert_eq!((l.counts, size(l.grid), size(l.group), threads(&l)), (Counts::Groups, (5, 1, 1), (256, 1, 1), 1280));
    assert_eq!(numbers(&l), [(3, 100), (4, 7)]);
    assert_eq!(topk_launch(op(0), op(0), 4, 5, 100, 7).err().unwrap(), "topk_sample: 4 draws for 5 rows");
}

#[test]
fn blocks_check_what_they_are_fed() {
    assert!(check_feeds(op(0), &vec![op(0), op(0)]).is_ok());
    let e = check_feeds(op(1), &vec![op(1)]).err().unwrap();
    assert_eq!(e, "mps_snake_block: input must be contiguous and unoffset");
    let e = check_feeds(op(0), &vec![op(0), strided(), elsewhere()]).err().unwrap();
    assert_eq!(e, "mps_snake_block: operands must be contiguous and unoffset");
    let e = check_feeds(op(0), &vec![elsewhere(), strided()]).err().unwrap();
    assert_eq!(e, "mps_snake_block: operands must be on the device");
}

#[test]
fn limits_are_checked() {
    assert!(check_sample(64, 4096).is_ok());
    assert_eq!(check_sample(65, 4096).err().unwrap(), "topk_sample: k=65 n=4096 outside the kernel's limits");
    assert!(check_sample(0, 5).is_err() && check_sample(6, 5).is_err() && check_sample(1, 4097).is_err());
    assert!(check_cache(60, 4, 64, true).is_ok());
    assert_eq!(check_cache(61, 4, 64, true).err().unwrap(), "65 positions exceed 64");
    assert_eq!(check_cache(0, 4, 64, false).err().unwrap(), "qk_rope: cache must be contiguous");
    assert_eq!(check_run(0, 5, 2, 1).err().unwrap(), "0 valid of 5");
    assert_eq!(check_run(6, 5, 2, 1).err().unwrap(), "6 valid of 5");
    assert_eq!(check_run(5, 5, 3, 1).err().unwrap(), "two convs per pair");
    assert!(check_run(5, 5, 2, 1).is_ok());
    assert!(graph_wins(true, true, true, 1, 4096, 96, 7));
    assert!(!graph_wins(true, true, true, 1, 4096, 384, 7));
    assert!(!graph_wins(true, true, true, 1, 4096, 96, 1));
    assert!(gather_wins(true, true, true, 1, 32, 64, 4096));
    assert!(!gather_wins(true, true, true, 1, 33, 64, 4096));
    assert!(graph_eligible(true, true, &vec![1, 8, 4096], 3, 4096));
    assert!(!graph_eligible(true, true, &vec![1, 8, 4095], 3, 4096));
    assert!(!graph_eligible(true, true, &vec![8, 4096], 3, 4096));
}

#[test]
fn attention_stays_in_its_cache() {
    let d = Decode { b: 2, n_kv: 3, gqa: 2, head_dim: 128, capacity: 64, span: 40, window_start: 8 };
    assert!(d.check().is_ok());
    let over = Decode { span: 65, ..d };
    assert_eq!(over.check().err().unwrap(), "span 65 exceeds capacity 64");
    assert!(d.fused_eligible(true, true, Dtype::F32, Dtype::F16));
    assert!(!d.fused_eligible(true, true, Dtype::F32, Dtype::F32));
    assert!(!Decode { gqa: 3, ..d }.fused_eligible(true, true, Dtype::F32, Dtype::F16));
    let l = d.scores_launch(op(1), half(3), 64).unwrap();
    assert_eq!((l.kernel, l.result, l.out), ("decode_scores_f16", 2, 2 * 3 * 2 * 40));
    assert_eq!(buffers(&l), [(0, 0, 4), (1, 1, 6)]);
    assert_eq!(numbers(&l), [(3, 40), (4, 64), (5, 128), (6, 2), (7, 8)]);
    assert_eq!((l.counts, size(l.grid), size(l.group)), (Counts::Threads, (40, 2, 6), (40, 1, 1)));
    assert_eq!(d.scores_launch(op(1), op(3), 64).unwrap().kernel, "decode_scores_f32");
    assert_eq!(d.scores_launch(half(0), half(0), 64).err().unwrap(), "decode_scores: query must be f32");
    let brain = Operand { dtype: Dtype::BF16, ..op(0) };
    let e = d.scores_launch(op(0), brain, 64).err().unwrap();
    assert_eq!(e, "decode_scores: cache must be f32 or f16, got BF16");
    let l = d.weighted_launch(op(1), half(3), 64).unwrap();
    assert_eq!((l.kernel, l.out, size(l.group)), ("decode_weighted_f16", 2 * 3 * 2 * 128, (64, 1, 1)));
    assert_eq!(numbers(&l), [(3, 40), (4, 64), (5, 128), (6, 2)]);
    assert_eq!(d.weighted_launch(op(1), op(3), 64).unwrap().kernel, "decode_weighted_f32");
    let ints = Operand { dtype: Dtype::U32, ..op(0) };
    assert_eq!(d.weighted_launch(op(0), ints, 64).err().unwrap(), "decode_weighted: cache must be f32 or f16, got U32");
    let l = d.fused_launch(op(0), half(3), half(3));
    assert_eq!((l.kernel, l.result, buffers(&l)), ("decode_attn_f16", 3, vec![(0, 0, 0), (1, 1, 6), (2, 2, 6)]));
    assert_eq!(numbers(&l), [(4, 40), (5, 64), (6, 2), (7, 8)]);
    assert_eq!((l.counts, size(l.grid), threads(&l)), (Counts::Groups, (6, 1, 1), 768));
}

/// A grouped convolution equals a dense one whose blocks across groups are zero.
#[test]
fn grouped_conv_agrees_with_the_dense_equivalent() {
    let d = Device::Cpu;
    let x = Tensor::rand(0f32, 1.0, (1, 4, 6), &d).unwrap();
    let wg = Tensor::rand(0f32, 1.0, (4, 2, 3), &d).unwrap();
    let padded = x.pad_with_zeros(2, 2, 0).unwrap();
    let mut parts = Vec::new();
    for g in groups_of(4, 4, 2) {
        let part = padded.narrow(1, g.in_start, g.in_len).unwrap().contiguous().unwrap();
        let kernel = wg.narrow(0, g.out_start, g.out_len).unwrap().contiguous().unwrap();
        parts.push(part.conv1d(&kernel, 0, 1, 1, 1).unwrap());
    }
    let got = floats(&Tensor::cat(&parts, 1).unwrap());
    let zero = Tensor::zeros((2, 2, 3), DType::F32, &d).unwrap();
    let top = Tensor::cat(&[wg.narrow(0, 0, 2).unwrap(), zero.clone()], 1).unwrap();
    let bottom = Tensor::cat(&[zero, wg.narrow(0, 2, 2).unwrap()], 1).unwrap();
    let dense = Tensor::cat(&[top, bottom], 0).unwrap();
    let want = floats(&padded.conv1d(&dense, 0, 1, 1, 1).unwrap());
    assert_eq!(got.len(), want.len());
    assert!(got.iter().zip(&want).all(|(a, b)| (a - b).abs() < 1e-5));
}

#[test]
fn products_are_flattened() {
    let f = flatten(&vec![2, 798, 1024], 512);
    assert_eq!((f.rows, f.k, f.n, f.shape.as_slice()), (1596, 1024, 512, [2, 798, 512].as_slice()));
    let f = flatten(&vec![7], 3);
    assert_eq!((f.rows, f.k, f.shape.as_slice()), (1, 7, [3].as_slice()));
    let g = groups_of(4, 8, 2);
    assert_eq!((g[1].in_start, g[1].in_len, g[1].out_start, g[1].out_len), (2, 2, 4, 4));
}

fn shape(k: usize, dilation: usize) -> ConvShape {
    ConvShape { k, dilation }
}

#[test]
fn a_block_is_one_graph() {
    let pairs = vec![(shape(3, 1), shape(3, 1)), (shape(7, 5), shape(7, 1))];
    let g = Graph::build(128, &pairs);
    assert_eq!(g.inputs.len(), 12);
    let dims = |n: usize| match &g.nodes[g.inputs[n]] {
        Op::Placeholder(i, d) => {
            assert_eq!(*i, n);
            d.clone()
        }
        _ => panic!("an operand"),
    };
    assert_eq!(dims(0), [1, 128, 1, -1]);
    assert_eq!(dims(1), [4, 4, 128]);
    assert_eq!(dims(8), [1, 7, 128, 128]);
    assert_eq!(dims(9), [1, 128, 1, 1]);
    let convs: Vec<(usize, usize, usize)> = g
        .nodes
        .iter()
        .filter_map(|n| match n {
            Op::Conv(_, _, d, l, r) => Some((*d, *l, *r)),
            _ => None,
        })
        .collect();
    assert_eq!(convs, [(1, 1, 1), (1, 1, 1), (5, 15, 15), (1, 3, 3)]);
    assert!(matches!(g.nodes[g.out], Op::Add(_, _)));
    let f = feeds(128, &pairs, 8192);
    assert_eq!(f[0], [1, 128, 1, 8192]);
    assert_eq!(f[2], [1, 1, 1, 8192]);
    assert_eq!(f[3], [1, 1, 1, 1]);
    assert_eq!(f[4], [1, 3, 128, 128]);
}

fn key(channels: usize) -> BlockKey {
    BlockKey { device: 1, channels, pairs: vec![(shape(3, 1), shape(3, 1))], eps_bits: 0 }
}

#[test]
fn the_cache_keeps_the_latest() {
    let mut c: Cache<usize> = Cache::new();
    for i in 0..KEEP {
        let (next, hit) = c.touch(&key(i), 10);
        assert!(!hit);
        c = next.insert(key(i), 10, i);
    }
    assert_eq!(c.len(), KEEP);
    let (next, hit) = c.touch(&key(0), 10);
    assert!(hit);
    assert_eq!(next.latest(), Some(&0));
    let (next, hit) = next.touch(&key(0), 11);
    assert!(!hit);
    // The graph that was not used for longest goes.
    c = next.insert(key(0), 11, 99);
    assert_eq!((c.len(), c.latest()), (KEEP, Some(&99)));
    let (next, hit) = c.touch(&key(1), 10);
    assert!(!hit);
    assert!(next.touch(&key(0), 10).1);
    assert!(!key(1).same(&key(2)));
}

#[test]
fn graphs_of_one_convolution() {
    let f = conv_feeds(op(0), op(0), Some(op(0)), 3, 4, 50, 5, 2, 4).ok().unwrap();
    assert_eq!((f.source, f.weights, f.result), ([1, 3, 1, 50], [4, 3, 1, 5], [1, 4, 1, 50]));
    assert_eq!((f.bias, f.pad_right), (Some([1, 4, 1, 1]), 4));
    let e = conv_feeds(op(0), op(1), Some(op(1)), 3, 4, 50, 5, 2, 4).err().unwrap();
    assert_eq!(e, "mps_conv1d: inputs must be contiguous and unoffset");
    let e = conv_feeds(op(0), op(0), Some(op(1)), 3, 4, 50, 5, 2, 4).err().unwrap();
    assert_eq!(e, "mps_conv1d: bias must be unoffset");
    let e = conv_feeds(op(0), op(0), Some(Operand { start: 1, ..elsewhere() }), 3, 4, 50, 5, 2, 4).err().unwrap();
    assert_eq!(e, "mps_conv1d: bias must be on the device");
    assert!(conv_feeds(op(0), op(0), None, 3, 4, 50, 5, 2, 4).ok().unwrap().bias.is_none());
    let f = causal_feeds(half(0), half(0), half(0), 3, 4, 50, 5, 2).ok().unwrap();
    assert_eq!((f.source, f.weights, f.pad_left), ([1, 1, 50, 3], [1, 5, 3, 4], 8));
    let e = causal_feeds(half(0), op(0), half(0), 3, 4, 50, 5, 2).err().unwrap();
    assert_eq!(e, "mps_nlc_conv: mixed dtypes");
    let ints = Operand { dtype: Dtype::U32, ..op(0) };
    let e = causal_feeds(ints, ints, ints, 3, 4, 50, 5, 2).err().unwrap();
    assert_eq!(e, "mps_nlc_conv: U32 unsupported");
    let e = causal_feeds(op(1), op(0), op(0), 3, 4, 50, 5, 2).err().unwrap();
    assert_eq!(e, "mps_nlc_conv: inputs must be contiguous and unoffset");
}
