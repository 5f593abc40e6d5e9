//! Convolutions, on floats and on whole numbers.

use candle::conv::{depthwise_1d_applicable, ParamsConv1D, ParamsConvTranspose1D};
use candle::conv2d::ParamsConv2D;
use candle::conv_transpose::ParamsConvTranspose2D;
use candle::error::Error;
use candle::tensor::{Backend, Element, Op, Tensor};

/// A single-precision float.
#[derive(Debug, Clone, Copy, PartialEq)]
struct F(f32);

impl Element for F {
    fn spec_zero() -> F {
        unreachable!()
    }

    fn spec_plus(self, _other: F) -> F {
        unreachable!()
    }

    fn spec_times(self, _other: F) -> F {
        unreachable!()
    }

    fn zero_laws(self) {}

    fn zero() -> F {
        F(0.0)
    }

    fn plus(self, other: F) -> F {
        F(self.0 + other.0)
    }

    fn times(self, other: F) -> F {
        F(self.0 * other.0)
    }
}

/// Deterministic test data.
struct Lcg(u64);

impl Lcg {
    fn new(seed: u64) -> Self {
        Self(seed)
    }

    fn next_f32(&mut self) -> f32 {
        self.0 = self
            .0
            .wrapping_mul(6364136223846793005)
            .wrapping_add(1442695040888963407);
        (self.0 >> 40) as f32 / (1u64 << 23) as f32 - 1.0
    }

    fn tensor(&mut self, dims: &[usize]) -> Tensor<F> {
        let n: usize = dims.iter().product();
        let v: Vec<F> = (0..n).map(|_| F(self.next_f32())).collect();
        Tensor::from_vec(v, dims, Backend::Split).unwrap()
    }
}

fn ints(data: Vec<i64>, dims: &[usize]) -> Tensor<i64> {
    Tensor::from_vec(data, dims, Backend::Split).unwrap()
}

fn max_abs_diff(a: &Tensor<F>, b: &Tensor<F>) -> f32 {
    assert_eq!(a.dims, b.dims);
    a.data
        .iter()
        .zip(b.data.iter())
        .map(|(x, y)| (x.0 - y.0).abs())
        .fold(0.0f32, f32::max)
}

/// A depthwise convolution in double precision.
fn brute_force_1d(x: &Tensor<F>, w: &Tensor<F>, params: &ParamsConv1D) -> Tensor<F> {
    let (b, c, l_in) = (x.dims[0], x.dims[1], x.dims[2]);
    let l_out = params.l_out();
    let mut out = vec![F(0.0); b * c * l_out];
    for bi in 0..b {
        for ci in 0..c {
            for o in 0..l_out {
                let mut acc = 0f64;
                for j in 0..params.k_size {
                    let pos =
                        (o * params.stride + j * params.dilation) as i64 - params.padding as i64;
                    if pos >= 0 && (pos as usize) < l_in {
                        acc += x.data[(bi * c + ci) * l_in + pos as usize].0 as f64
                            * w.data[ci * params.k_size + j].0 as f64;
                    }
                }
                out[(bi * c + ci) * l_out + o] = F(acc as f32);
            }
        }
    }
    Tensor::from_vec(out, &[b, c, l_out], Backend::Split).unwrap()
}

/// A depthwise two-dimensional convolution in double precision.
fn brute_force_2d(x: &Tensor<F>, w: &Tensor<F>, params: &ParamsConv2D) -> Tensor<F> {
    let (b, c, i_h, i_w) = (params.b_size, x.dims[1], params.i_h, params.i_w);
    let (k_h, k_w) = (params.k_h, params.k_w);
    let (o_h, o_w) = (params.out_h(), params.out_w());
    let mut out = vec![F(0.0); b * c * o_h * o_w];
    for bi in 0..b {
        for ci in 0..c {
            for oh in 0..o_h {
                for ow in 0..o_w {
                    let mut acc = 0f64;
                    for jh in 0..k_h {
                        for jw in 0..k_w {
                            let ph = (oh * params.stride + jh * params.dilation) as i64
                                - params.padding as i64;
                            let pw = (ow * params.stride + jw * params.dilation) as i64
                                - params.padding as i64;
                            if ph >= 0 && (ph as usize) < i_h && pw >= 0 && (pw as usize) < i_w {
                                let xi = ((bi * c + ci) * i_h + ph as usize) * i_w + pw as usize;
                                let wi = (ci * k_h + jh) * k_w + jw;
                                acc += x.data[xi].0 as f64 * w.data[wi].0 as f64;
                            }
                        }
                    }
                    out[((bi * c + ci) * o_h + oh) * o_w + ow] = F(acc as f32);
                }
            }
        }
    }
    Tensor::from_vec(out, &[b, c, o_h, o_w], Backend::Split).unwrap()
}

/// Name, batch, channels, length, taps, padding and dilation.
const CASES_1D: &[(&str, usize, usize, usize, usize, usize, usize)] = &[
    ("model-decode", 1, 6144, 4, 4, 0, 1),
    ("model-prefill", 1, 6144, 29, 4, 0, 1),
    ("small-odd", 2, 5, 7, 3, 0, 1),
    ("k1", 1, 3, 6, 1, 0, 1),
    ("pad1", 1, 3, 9, 2, 1, 1),
    ("pad2", 2, 4, 11, 3, 2, 1),
    ("dilation2", 1, 6, 13, 3, 0, 2),
    ("pad-dilation", 2, 7, 15, 4, 2, 3),
    ("big-dilation", 1, 8, 20, 3, 0, 5),
    ("l_out-1", 1, 4, 4, 4, 0, 1),
];

fn params_1d(
    b_size: usize,
    l_in: usize,
    k: usize,
    padding: usize,
    stride: usize,
    dilation: usize,
) -> ParamsConv1D {
    ParamsConv1D {
        b_size,
        l_in,
        c_out: 1,
        c_in: 1,
        k_size: k,
        padding,
        stride,
        dilation,
        cudnn_fwd_algo: None,
    }
}

#[test]
fn depthwise_conv1d_matches_grouped_loop_cpu() {
    let mut rng = Lcg::new(11);
    for &(name, b, c, l_in, k, padding, dilation) in CASES_1D {
        let x = rng.tensor(&[b, c, l_in]);
        let w = rng.tensor(&[c, 1, k]);
        let params = params_1d(b, l_in, k, padding, 1, dilation);
        assert!(
            depthwise_1d_applicable(&params, c),
            "{name}: expected the fast path to be applicable"
        );
        let want = x.conv1d_grouped_loop(&w, &params, c).unwrap();
        let got = x.conv1d_depthwise(&w, &params).unwrap();
        assert_eq!(got.dims, want.dims, "{name}: shape");
        let diff = max_abs_diff(&got, &want);
        assert!(diff <= 1e-5, "{name}: max abs diff {diff}");
        let public = x.conv1d(&w, padding, 1, dilation, c).unwrap();
        let diff = max_abs_diff(&public, &want);
        assert!(diff <= 1e-5, "{name}: public max abs diff {diff}");
        let brute = brute_force_1d(&x, &w, &params);
        let diff = max_abs_diff(&got, &brute);
        assert!(diff <= 1e-4, "{name}: brute force max abs diff {diff}");
    }
}

#[test]
fn depthwise_conv1d_matches_per_channel_reference_cpu() {
    let mut rng = Lcg::new(22);
    for &(name, b, c, l_in, k, padding, dilation) in CASES_1D {
        if c > 64 {
            continue;
        }
        let x = rng.tensor(&[b, c, l_in]);
        let w = rng.tensor(&[c, 1, k]);
        let mut chans = Vec::with_capacity(c);
        for i in 0..c {
            let xi = x.narrow(1, i, 1);
            let wi = w.narrow(0, i, 1);
            chans.push(xi.conv1d(&wi, padding, 1, dilation, 1).unwrap());
        }
        let want = Tensor::cat(&chans, 1).unwrap();
        let got = x.conv1d(&w, padding, 1, dilation, c).unwrap();
        assert_eq!(got.dims, want.dims, "{name}: shape");
        let diff = max_abs_diff(&got, &want);
        assert!(diff <= 1e-5, "{name}: max abs diff {diff}");
    }
}

#[test]
fn depthwise_conv1d_hand_computed_cpu() {
    let x = ints(vec![1, 2, 3, 4, 5, 10, 20, 30, 40, 50], &[1, 2, 5]);
    let w = ints(vec![1, 2, 3, -1], &[2, 1, 2]);
    let got = x.conv1d(&w, 1, 1, 1, 2).unwrap();
    assert_eq!(got.dims, vec![1, 2, 6]);
    assert_eq!(
        got.data,
        vec![2, 5, 8, 11, 14, 5, -10, 10, 30, 50, 70, 150]
    );
}

#[test]
fn depthwise_dispatch_boundary_cpu() {
    assert!(depthwise_1d_applicable(&params_1d(1, 20, 4, 0, 1, 1), 4));
    assert!(depthwise_1d_applicable(&params_1d(1, 20, 3, 2, 1, 3), 8));
    assert!(depthwise_1d_applicable(&params_1d(1, 8, 4, 0, 1, 1), 6144));

    assert!(depthwise_1d_applicable(&params_1d(1, 20, 4, 0, 1, 1), 1));
    assert!(!depthwise_1d_applicable(&params_1d(1, 20, 5, 0, 1, 1), 1));

    assert!(depthwise_1d_applicable(&params_1d(1, 20, 7, 0, 1, 1), 6144));
    assert!(!depthwise_1d_applicable(&params_1d(1, 20, 8, 0, 1, 1), 6144));

    assert!(!depthwise_1d_applicable(&params_1d(1, 40, 16, 0, 1, 1), 4));
    assert!(!depthwise_1d_applicable(&params_1d(1, 40, 17, 0, 1, 1), 4));

    assert!(!depthwise_1d_applicable(&params_1d(1, 20, 3, 0, 2, 1), 8));
    assert!(!depthwise_1d_applicable(&params_1d(1, 20, 3, 1, 3, 1), 8));

    assert!(!depthwise_1d_applicable(&params_1d(1, 3, 4, 0, 1, 4), 8));

    let not_depthwise = ParamsConv1D {
        b_size: 1,
        l_in: 10,
        c_out: 2,
        c_in: 2,
        k_size: 3,
        padding: 0,
        stride: 1,
        dilation: 1,
        cudnn_fwd_algo: None,
    };
    assert!(!depthwise_1d_applicable(&not_depthwise, 4));

    let mut rng = Lcg::new(55);
    let x = rng.tensor(&[1, 8, 10]);
    let w = rng.tensor(&[8, 2, 3]);
    let want = x.conv1d_grouped_loop(&w, &not_depthwise, 4).unwrap();
    let got = x.conv1d(&w, 0, 1, 1, 4).unwrap();
    assert!(
        max_abs_diff(&got, &want) <= 1e-5,
        "not-depthwise fall back"
    );

    let params = params_1d(1, 21, 3, 1, 2, 1);
    let x = rng.tensor(&[1, 8, 21]);
    let w = rng.tensor(&[8, 1, 3]);
    let brute = brute_force_1d(&x, &w, &params);
    let got = x.conv1d(&w, 1, 2, 1, 8).unwrap();
    assert!(
        max_abs_diff(&got, &brute) <= 1e-4,
        "stride-2 fall back must still be correct"
    );

    let params = params_1d(1, 40, 17, 0, 1, 1);
    let x = rng.tensor(&[1, 4, 40]);
    let w = rng.tensor(&[4, 1, 17]);
    let brute = brute_force_1d(&x, &w, &params);
    let got = x.conv1d(&w, 0, 1, 1, 4).unwrap();
    assert!(
        max_abs_diff(&got, &brute) <= 1e-4,
        "large-kernel fall back must still be correct"
    );
}

#[test]
fn depthwise_accuracy_above_bitexact_bound_cpu() {
    let mut rng = Lcg::new(88);
    for &k in &[8usize, 9, 11, 31, 59] {
        let c = 16;
        let l_in = k + 23;
        let params = params_1d(1, l_in, k, 0, 1, 1);
        assert!(
            !depthwise_1d_applicable(&params, c),
            "k={k}: fast path must not be applicable above the bit-identical bound"
        );
        let x = rng.tensor(&[1, c, l_in]);
        let w = rng.tensor(&[c, 1, k]);
        let brute = brute_force_1d(&x, &w, &params);
        let got = x.conv1d(&w, 0, 1, 1, c).unwrap();
        assert!(
            max_abs_diff(&got, &brute) <= 1e-4,
            "k={k}: fall back above the bound must still be numerically correct"
        );
    }
}

#[test]
fn depthwise_conv2d_uses_unchanged_lowering_cpu() {
    let mut rng = Lcg::new(77);
    let cases: [(&str, usize, usize, usize, usize, usize, usize, usize, usize, usize); 4] = [
        ("mobilenet-3x3", 2, 32, 14, 14, 3, 3, 1, 1, 1),
        ("mobilenet-3x3-s2", 1, 16, 15, 15, 3, 3, 1, 2, 1),
        ("small-odd", 1, 8, 7, 6, 2, 3, 0, 1, 1),
        ("dilation", 1, 9, 12, 11, 3, 3, 2, 1, 2),
    ];
    for (name, b, c, i_h, i_w, k_h, k_w, padding, stride, dilation) in cases {
        let x = rng.tensor(&[b, c, i_h, i_w]);
        let k = rng.tensor(&[c, 1, k_h, k_w]);
        let params = ParamsConv2D {
            b_size: b,
            i_h,
            i_w,
            k_h,
            k_w,
            c_out: 1,
            c_in: 1,
            padding,
            stride,
            dilation,
            groups: 1,
            cudnn_fwd_algo: None,
        };
        let got = x.conv2d(&k, padding, stride, dilation, c).unwrap();
        let brute = brute_force_2d(&x, &k, &params);
        assert_eq!(got.dims, brute.dims, "{name}: shape");
        let diff = max_abs_diff(&got, &brute);
        assert!(diff <= 1e-4, "{name}: max abs diff {diff}");
    }
}

#[test]
fn probe_accuracy_by_k() {
    let mut rng = Lcg::new(12345);
    let c = 64;
    println!("\nk | applicable | fast_vs_ref | fast_vs_f64 | ref_vs_f64 | public_vs_f64");
    for k in [3usize, 4, 5, 6, 7, 8, 9, 11] {
        let l_in = k + 37;
        let x = rng.tensor(&[1, c, l_in]);
        let w = rng.tensor(&[c, 1, k]);
        let params = params_1d(1, l_in, k, 0, 1, 1);
        let applicable = depthwise_1d_applicable(&params, c);
        let fast = x.conv1d_depthwise(&w, &params).unwrap();
        let refr = x.conv1d_grouped_loop(&w, &params, c).unwrap();
        let brute = brute_force_1d(&x, &w, &params);
        let public = x.conv1d(&w, 0, 1, 1, c).unwrap();
        let d_fast_ref = max_abs_diff(&fast, &refr);
        let d_fast_f64 = max_abs_diff(&fast, &brute);
        let d_ref_f64 = max_abs_diff(&refr, &brute);
        let d_public_f64 = max_abs_diff(&public, &brute);
        println!(
            "k={k}: applicable={applicable} fast_vs_ref={d_fast_ref:e} fast_vs_f64={d_fast_f64:e} ref_vs_f64={d_ref_f64:e} public_vs_f64={d_public_f64:e}"
        );
        assert_eq!(applicable, k <= 7);
        assert_eq!(d_fast_ref, 0.0);
        assert!(d_public_f64 <= 1e-4);
    }
}

#[test]
fn both_lowerings_agree_on_whole_numbers() {
    let x = ints((0..24).map(|i| i * 7 % 11 - 5).collect(), &[2, 3, 4]);
    let w = ints((0..9).map(|i| i * 5 % 7 - 3).collect(), &[3, 1, 3]);
    let params = params_1d(2, 4, 3, 2, 1, 1);
    let fast = x.conv1d_depthwise(&w, &params).unwrap();
    let slow = x.conv1d_grouped_loop(&w, &params, 3).unwrap();
    assert_eq!(fast.dims, vec![2, 3, 6]);
    assert_eq!(fast.dims, slow.dims);
    assert_eq!(fast.data, slow.data);
}

#[test]
fn conv1d_extents() {
    assert_eq!(params_1d(3, 20, 4, 1, 2, 3).l_out(), 7);
    assert_eq!(params_1d(3, 20, 4, 1, 2, 3).out_dims(), vec![3, 1, 7]);
    let p = ParamsConvTranspose1D {
        b_size: 2,
        l_in: 5,
        c_out: 6,
        c_in: 3,
        k_size: 4,
        padding: 1,
        output_padding: 1,
        stride: 2,
        dilation: 1,
    };
    assert_eq!(p.l_out(), 11);
    assert_eq!(p.out_dims(), vec![2, 6, 11]);
}

#[test]
fn conv2d_extents() {
    let p = ParamsConv2D {
        b_size: 2,
        i_h: 9,
        i_w: 8,
        k_h: 3,
        k_w: 2,
        c_out: 5,
        c_in: 4,
        padding: 1,
        stride: 2,
        dilation: 1,
        groups: 1,
        cudnn_fwd_algo: None,
    };
    assert_eq!(p.out_h(), 5);
    assert_eq!(p.out_w(), 5);
    assert_eq!(p.out_dims(), vec![2, 5, 5, 5]);
    let p = ParamsConvTranspose2D {
        b_size: 1,
        i_h: 3,
        i_w: 4,
        k_h: 3,
        k_w: 3,
        c_out: 2,
        c_in: 2,
        padding: 1,
        output_padding: 1,
        stride: 2,
        dilation: 1,
    };
    assert_eq!(p.out_h(), 6);
    assert_eq!(p.out_w(), 8);
    assert_eq!(p.out_dims(), vec![1, 2, 6, 8]);
}

#[test]
fn conv1d_refuses_what_does_not_fit() {
    let x = ints(vec![0; 12], &[1, 4, 3]);
    let flat = ints(vec![0; 12], &[12]);
    let w = ints(vec![0; 6], &[2, 3, 1]);
    assert_eq!(
        x.conv1d(&flat, 0, 1, 1, 1).unwrap_err(),
        Error::UnexpectedNumberOfDims {
            expected: 3,
            got: 1
        }
    );
    assert_eq!(
        flat.conv1d(&w, 0, 1, 1, 1).unwrap_err(),
        Error::UnexpectedNumberOfDims {
            expected: 3,
            got: 1
        }
    );
    assert!(matches!(
        x.conv1d(&w, 2, 1, 1, 1).unwrap_err(),
        Error::Conv1dInvalidArgs { inp_shape, k_shape, padding: 2, stride: 1, msg }
            if inp_shape == vec![1, 4, 3]
                && k_shape == vec![2, 3, 1]
                && msg == "the number of in-channels on the input doesn't match the kernel size"
    ));
    let none = ints(vec![], &[0, 2, 1]);
    assert_eq!(
        x.conv1d(&none, 0, 1, 1, 2).unwrap_err(),
        Error::OpRequiresAtLeastOneTensor { op: "cat" }
    );
}

#[test]
fn gradients_flow_through_every_lowering() {
    let mut x = ints((0..18).collect(), &[2, 3, 3]);
    let w = ints((0..6).collect(), &[3, 1, 2]);
    assert!(x.conv1d(&w, 0, 1, 1, 3).unwrap().op.is_none());
    x.is_variable = true;
    let fast = x.conv1d(&w, 0, 1, 1, 3).unwrap();
    assert!(fast.track_op());
    assert_eq!(fast.op, Some(Op::Binary));
    let slow = x.conv1d(&w, 0, 2, 1, 3).unwrap();
    assert_eq!(slow.op, Some(Op::Cat { dim: 1 }));
    let dense = ints((0..18).collect(), &[3, 3, 2]);
    let whole = x.conv1d(&dense, 0, 1, 1, 1).unwrap();
    assert_eq!(
        whole.op,
        Some(Op::Conv1D {
            padding: 0,
            stride: 1,
            dilation: 1
        })
    );
}

#[test]
fn fused_and_split_backends_agree() {
    let data: Vec<i64> = (0..4 * 5 * 5).map(|i| i * 13 % 17 - 8).collect();
    let taps: Vec<i64> = (0..8 * 2 * 4).map(|i| i * 11 % 7 - 3).collect();
    let split = Tensor::from_vec(data.clone(), &[1, 4, 5, 5], Backend::Split).unwrap();
    let fused = Tensor::from_vec(data, &[1, 4, 5, 5], Backend::Fused).unwrap();
    let w = ints(taps, &[8, 2, 2, 2]);
    let a = split.conv2d(&w, 1, 2, 1, 2).unwrap();
    let b = fused.conv2d(&w, 1, 2, 1, 2).unwrap();
    assert_eq!(a.dims, vec![1, 8, 3, 3]);
    assert_eq!(a.dims, b.dims);
    assert_eq!(a.data, b.data);
}

#[test]
fn conv_transpose1d_scatters() {
    let x = ints(vec![1, 2, 3], &[1, 1, 3]);
    let w = ints(vec![10, 1], &[1, 1, 2]);
    let y = x.conv_transpose1d(&w, 0, 0, 2, 1, 1).unwrap();
    assert_eq!(y.dims, vec![1, 1, 6]);
    assert_eq!(y.data, vec![10, 1, 20, 2, 30, 3]);
    let y = x.conv_transpose1d(&w, 0, 0, 1, 1, 1).unwrap();
    assert_eq!(y.data, vec![10, 21, 32, 3]);
}

#[test]
fn groups_do_not_mix_and_come_out_in_order() {
    let x = ints((0..60).map(|i| i * 7 % 13 - 6).collect(), &[2, 6, 5]);
    let w = ints((0..36).map(|i| i * 5 % 11 - 4).collect(), &[6, 2, 3]);
    let y = x.conv1d(&w, 1, 2, 1, 3).unwrap();
    assert_eq!(y.dims, vec![2, 6, 3]);
    for g in 0..3 {
        let alone = x
            .narrow(1, g * 2, 2)
            .conv1d(&w.narrow(0, g * 2, 2), 1, 2, 1, 1)
            .unwrap();
        let part = y.narrow(1, g * 2, 2);
        assert_eq!(part.dims, alone.dims);
        assert_eq!(part.data, alone.data);
    }
}

#[test]
fn transposed_convolution_is_the_adjoint() {
    let dot = |a: &Tensor<i64>, b: &Tensor<i64>| -> i64 {
        a.data.iter().zip(&b.data).map(|(x, y)| x * y).sum()
    };
    // Length, padding, stride, dilation.
    for (l, p, s, d) in [(11, 1, 2, 1), (12, 1, 2, 1), (10, 0, 3, 2), (9, 2, 1, 2)] {
        let (b, ci, co, k) = (2, 3, 2, 3);
        let x = ints((0..b * ci * l).map(|i| (i * 7 % 13) as i64 - 6).collect(), &[b, ci, l]);
        let w = ints((0..co * ci * k).map(|i| (i * 5 % 11) as i64 - 4).collect(), &[co, ci, k]);
        let z = x.conv1d(&w, p, s, d, 1).unwrap();
        let left = (l + 2 * p - d * (k - 1) - 1) % s;
        let n = z.data.len();
        let y = ints((0..n).map(|i| (i * 3 % 7) as i64 - 2).collect(), &z.dims);
        let t = y.conv_transpose1d(&w, p, left, s, d, 1).unwrap();
        assert_eq!(t.dims, x.dims);
        assert_eq!(dot(&x, &t), dot(&z, &y));
        assert_ne!(dot(&x, &t), 0);
    }
}

#[test]
fn conv_transpose2d_scatters() {
    let x = ints(vec![1, 2, 3, 4], &[1, 1, 2, 2]);
    let w = ints(vec![1, 10, 100, 1000], &[1, 1, 2, 2]);
    let y = x.conv_transpose2d(&w, 0, 0, 1, 1).unwrap();
    assert_eq!(y.dims, vec![1, 1, 3, 3]);
    assert_eq!(
        y.data,
        vec![1, 12, 20, 103, 1234, 2040, 300, 3400, 4000]
    );
}
