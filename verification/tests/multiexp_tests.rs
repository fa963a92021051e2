use gpu_multiexp::error::GPUError;
use gpu_multiexp::group::Point;
use gpu_multiexp::group::Scalar;
use gpu_multiexp::multiexp::CurveGroup;
use gpu_multiexp::multiexp::DeviceConfig;
use gpu_multiexp::multiexp::MultiexpKernel;
use gpu_multiexp::multiexp::SingleMultiexpKernel;
use gpu_multiexp::multiexp::Worker;
use gpu_multiexp::split::ceil_div;
use gpu_multiexp::split::compute_cpu_n;
use gpu_multiexp::split::device_chunk;

fn device(max_batch: usize, window_size: usize) -> DeviceConfig {
    DeviceConfig {
        max_batch,
        window_size,
        num_groups: 3,
        has_primary: true,
        has_secondary: true,
        faulty: false,
    }
}

fn points(vs: &[u64]) -> Vec<Point> {
    vs.iter().map(|&v| Point { v }).collect()
}

fn scalars(vs: &[u64]) -> Vec<Scalar> {
    vs.iter().map(|&v| Scalar { v }).collect()
}

fn sample_pairs(n: usize) -> (Vec<u64>, Vec<u64>) {
    // A fixed, spread-out sample: large values exercise the wraparound.
    let mut bs = Vec::new();
    let mut es = Vec::new();
    let mut x: u64 = 0x9e37_79b9_7f4a_7c15;
    for i in 0..n {
        x = x.wrapping_mul(6364136223846793005).wrapping_add(1442695040888963407);
        bs.push(x ^ (i as u64));
        x = x.wrapping_mul(6364136223846793005).wrapping_add(1442695040888963407);
        es.push(x);
    }
    (bs, es)
}

/// The naive, loop-summed reference multiexp in the model group.
fn reference_multiexp(bs: &[u64], es: &[u64]) -> u64 {
    let mut acc: u64 = 0;
    for i in 0..bs.len() {
        acc = acc.wrapping_add(es[i].wrapping_mul(bs[i]));
    }
    acc
}

#[test]
fn split_conservation_values() {
    // cpu_n = ceil(n / (d * 3.1 + 1)), here as the ratio 31/10.
    assert_eq!(compute_cpu_n(100, 1, 31, 10), 25);
    assert_eq!(compute_cpu_n(100, 3, 31, 10), 10);
    assert_eq!(compute_cpu_n(0, 3, 31, 10), 0);
    assert_eq!(compute_cpu_n(0, 0, 31, 10), 0);
    // With no devices the CPU takes everything.
    assert_eq!(compute_cpu_n(7, 0, 31, 10), 7);
    // A non-empty request always leaves the CPU at least one pair.
    assert_eq!(compute_cpu_n(1, 100, 31, 10), 1);
    for n in 0..50usize {
        for d in 0..5usize {
            let cpu = compute_cpu_n(n, d, 31, 10);
            let gpu = n - cpu;
            assert_eq!(cpu + gpu, n);
            assert!(cpu <= n);
            if n >= 1 {
                assert!(cpu >= 1);
            }
            if d == 0 {
                assert_eq!(cpu, n);
            }
        }
    }
}

#[test]
fn ceil_div_and_chunks() {
    assert_eq!(ceil_div(0, 3), 0);
    assert_eq!(ceil_div(1, 3), 1);
    assert_eq!(ceil_div(9, 3), 3);
    assert_eq!(ceil_div(10, 3), 4);
    // 10 pairs over 3 devices: chunks of 4, the last one short.
    assert_eq!(device_chunk(10, 3, 0), (0, 4));
    assert_eq!(device_chunk(10, 3, 1), (4, 8));
    assert_eq!(device_chunk(10, 3, 2), (8, 10));
    // A small segment leaves later devices empty.
    assert_eq!(device_chunk(2, 3, 0), (0, 1));
    assert_eq!(device_chunk(2, 3, 1), (1, 2));
    assert_eq!(device_chunk(2, 3, 2), (2, 2));
}

#[test]
fn worker_multiexp_exact_value() {
    let bases = points(&[2, 3, 5]);
    let exps = scalars(&[7, 11, 13]);
    let pool = Worker::new();
    let r = pool.multiexp(&bases, 0, &exps, 0, 3);
    // 7*2 + 11*3 + 13*5 = 112
    assert_eq!(r, Point { v: 112 });
}

#[test]
fn worker_multiexp_wraps_like_reference() {
    let (bs, es) = sample_pairs(40);
    let pool = Worker::new();
    let r = pool.multiexp(&points(&bs), 0, &scalars(&es), 0, 40);
    assert_eq!(r.v, reference_multiexp(&bs, &es));
}

#[test]
fn single_kernel_matches_reference() {
    let (bs, es) = sample_pairs(25);
    let kern = SingleMultiexpKernel::create(device(32, 16)).unwrap();
    let r = kern.multiexp(&points(&bs), 0, &scalars(&es), 0, 25, CurveGroup::Primary).unwrap();
    assert_eq!(r.v, reference_multiexp(&bs, &es));
}

#[test]
fn windowed_reconstruction_uneven_width() {
    // 64 % 10 != 0: the final (most-significant) window carries 4 bits.
    let bs = vec![u64::MAX, 0x8000_0000_0000_0001, 3, 0xdead_beef_cafe_f00d];
    let es = vec![u64::MAX, 0xf000_0000_0000_0003, u64::MAX - 1, 0x0123_4567_89ab_cdef];
    let kern = SingleMultiexpKernel::create(device(8, 10)).unwrap();
    let r = kern.multiexp(&points(&bs), 0, &scalars(&es), 0, 4, CurveGroup::Primary).unwrap();
    assert_eq!(r.v, reference_multiexp(&bs, &es));
    // 64 % 7 = 1: the final window carries a single bit.
    let kern7 = SingleMultiexpKernel::create(device(8, 7)).unwrap();
    let r7 = kern7.multiexp(&points(&bs), 0, &scalars(&es), 0, 4, CurveGroup::Primary).unwrap();
    assert_eq!(r7.v, reference_multiexp(&bs, &es));
}

#[test]
fn scheduler_matches_reference_one_device() {
    let (bs, es) = sample_pairs(30);
    // max_batch 5 is smaller than the device's chunk: forces looping.
    let k = MultiexpKernel::create(&vec![device(5, 10)]).unwrap();
    let pool = Worker::new();
    let r = k.multiexp(&pool, &points(&bs), &scalars(&es), CurveGroup::Primary, 0, 30).unwrap();
    assert_eq!(r.v, reference_multiexp(&bs, &es));
}

#[test]
fn scheduler_matches_reference_three_devices() {
    let (bs, es) = sample_pairs(30);
    let configs = vec![device(4, 10), device(7, 13), device(9, 8)];
    let k = MultiexpKernel::create(&configs).unwrap();
    let pool = Worker::new();
    let r = k.multiexp(&pool, &points(&bs), &scalars(&es), CurveGroup::Primary, 0, 30).unwrap();
    assert_eq!(r.v, reference_multiexp(&bs, &es));
}

#[test]
fn scheduler_cpu_only_path_matches_reference() {
    // No device present: the whole request runs on the worker pool.
    let (bs, es) = sample_pairs(20);
    let pool = Worker::new();
    let r = pool.multiexp(&points(&bs), 0, &scalars(&es), 0, 20);
    assert_eq!(r.v, reference_multiexp(&bs, &es));
}

#[test]
fn scheduler_applies_skip() {
    let (mut bs, es) = sample_pairs(12);
    // Three leading bases that the request must skip over.
    bs.insert(0, 111);
    bs.insert(0, 222);
    bs.insert(0, 333);
    let k = MultiexpKernel::create(&vec![device(4, 10)]).unwrap();
    let pool = Worker::new();
    let r = k.multiexp(&pool, &points(&bs), &scalars(&es), CurveGroup::Primary, 3, 12).unwrap();
    assert_eq!(r.v, reference_multiexp(&bs[3..], &es));
}

#[test]
fn scheduler_empty_request() {
    let k = MultiexpKernel::create(&vec![device(4, 10)]).unwrap();
    let pool = Worker::new();
    let r = k.multiexp(&pool, &points(&[]), &scalars(&[]), CurveGroup::Primary, 0, 0).unwrap();
    assert_eq!(r, Point { v: 0 });
}

#[test]
fn commutativity_under_reordering() {
    // Shuffling which contiguous chunks go to which device must not
    // change the final sum.
    let (bs, es) = sample_pairs(33);
    let pool = Worker::new();
    let orders: [[usize; 3]; 3] = [[0, 1, 2], [2, 0, 1], [1, 2, 0]];
    let base_cfgs = [device(4, 10), device(7, 13), device(9, 8)];
    let mut results = Vec::new();
    for order in orders.iter() {
        let cfgs: Vec<DeviceConfig> = order.iter().map(|&i| base_cfgs[i]).collect();
        let k = MultiexpKernel::create(&cfgs).unwrap();
        let r =
            k.multiexp(&pool, &points(&bs), &scalars(&es), CurveGroup::Primary, 0, 33).unwrap();
        results.push(r.v);
    }
    assert_eq!(results[0], reference_multiexp(&bs, &es));
    assert_eq!(results[0], results[1]);
    assert_eq!(results[0], results[2]);
}

#[test]
fn fatal_propagation_one_faulty_device() {
    let (bs, es) = sample_pairs(30);
    let mut bad = device(7, 10);
    bad.faulty = true;
    // The middle device's chunk is non-empty, so its failure is fatal for
    // the whole request even though the CPU and the other devices work.
    let configs = vec![device(4, 10), bad, device(9, 8)];
    let k = MultiexpKernel::create(&configs).unwrap();
    let pool = Worker::new();
    let r = k.multiexp(&pool, &points(&bs), &scalars(&es), CurveGroup::Primary, 0, 30);
    assert!(r.is_err());
    match r {
        Err(GPUError::Msg(m)) => assert_eq!(m, "Device dispatch failed!"),
        _ => panic!("expected a dispatch failure"),
    }
}

#[test]
fn faulty_device_with_empty_chunk_is_harmless() {
    // The request is so small that only the first device gets work; a
    // faulty second device is never dispatched to.
    let (bs, es) = sample_pairs(4);
    let mut bad = device(7, 10);
    bad.faulty = true;
    let configs = vec![device(8, 10), bad];
    let k = MultiexpKernel::create(&configs).unwrap();
    let pool = Worker::new();
    // cpu_n = ceil(4*10/72) = 1, gpu_n = 3, chunk = ceil(3/2) = 2: the
    // first device takes [0,2), the second [2,3) — still non-empty, so
    // shrink further: n = 2 gives gpu_n = 1, chunk = 1, second empty.
    let r2 = k.multiexp(&pool, &points(&bs), &scalars(&es), CurveGroup::Primary, 0, 2);
    assert!(r2.is_ok());
    assert_eq!(r2.unwrap().v, reference_multiexp(&bs[..2], &es[..2]));
}

#[test]
fn group_mismatch_is_an_error() {
    let mut cfg = device(8, 10);
    cfg.has_secondary = false;
    let kern = SingleMultiexpKernel::create(cfg).unwrap();
    let bs = points(&[1, 2]);
    let es = scalars(&[3, 4]);
    assert!(kern.multiexp(&bs, 0, &es, 0, 2, CurveGroup::Primary).is_ok());
    let r = kern.multiexp(&bs, 0, &es, 0, 2, CurveGroup::Secondary);
    match r {
        Err(GPUError::Msg(m)) => {
            assert_eq!(m, "Requested curve group has no buffer set on this device!")
        },
        _ => panic!("expected a group mismatch error"),
    }
}

#[test]
fn create_rejects_empty_and_invalid_configs() {
    let none: Vec<DeviceConfig> = Vec::new();
    match MultiexpKernel::create(&none) {
        Err(GPUError::Msg(m)) => assert_eq!(m, "No working GPUs found!"),
        _ => panic!("expected a failure with no devices"),
    }
    let mut bad = device(8, 10);
    bad.max_batch = 0;
    match MultiexpKernel::create(&vec![device(4, 10), bad]) {
        Err(GPUError::Msg(m)) => assert_eq!(m, "Could not build device buffers!"),
        _ => panic!("expected a build failure"),
    }
    let mut wide = device(8, 64);
    wide.window_size = 64;
    assert!(SingleMultiexpKernel::create(wide).is_err());
}

#[test]
fn device_count_reports_devices() {
    let k = MultiexpKernel::create(&vec![device(4, 10), device(5, 11)]).unwrap();
    assert_eq!(k.device_count(), 2);
}

#[test]
fn point_group_operations() {
    let p = Point { v: u64::MAX };
    let q = Point { v: 2 };
    assert_eq!(p.add(&q), Point { v: 1 });
    assert_eq!(p.double(), Point { v: u64::MAX - 1 });
    assert_eq!(Point::zero().add(&q), q);
    let mut r = Point { v: 40 };
    r.add_assign(&Point { v: 2 });
    assert_eq!(r, Point { v: 42 });
    assert_eq!(q.scale(&Scalar { v: 1 << 63 }), Point { v: 0 });
    assert_eq!(q.scale(&Scalar { v: 21 }), Point { v: 42 });
}

#[test]
fn gpu_taken_error_message() {
    let e = GPUError::GPUTaken;
    assert_eq!(e.message(), "GPU taken by a high priority process!");
    let m = GPUError::Msg(String::from("boom"));
    assert_eq!(m.message(), "boom");
}
