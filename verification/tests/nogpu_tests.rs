use gpu_multiexp::group::Point;
use gpu_multiexp::group::Scalar;
use gpu_multiexp::multiexp::Worker;
use gpu_multiexp::nogpu::FFTKernel;
use gpu_multiexp::nogpu::LockedFFTKernel;
use gpu_multiexp::nogpu::LockedMultiexpKernel;
use gpu_multiexp::nogpu::MultiexpKernel;

#[test]
fn nogpu_kernels_never_build() {
    assert!(FFTKernel::create(10, false).is_err());
    assert!(FFTKernel::create(4, true).is_err());
    assert!(MultiexpKernel::create(false).is_err());
    assert!(MultiexpKernel::create(true).is_err());
}

#[test]
fn nogpu_fft_fails_and_leaves_coefficients_untouched() {
    let mut kern = FFTKernel {};
    let mut a = vec![Scalar { v: 1 }, Scalar { v: 2 }, Scalar { v: 3 }];
    let omega = Scalar { v: 7 };
    assert!(kern.radix_fft(&mut a, &omega, 2).is_err());
    assert_eq!(a, vec![Scalar { v: 1 }, Scalar { v: 2 }, Scalar { v: 3 }]);
}

#[test]
fn nogpu_locked_slots_stay_empty() {
    let mut fft_cache = LockedFFTKernel::new(false, 10);
    assert!(!fft_cache.get());
    assert!(fft_cache.kernel.is_none());
    let mut cache = LockedMultiexpKernel::new(true);
    assert!(!cache.get());
    assert!(cache.kernel.is_none());
    assert!(!cache.get());
    assert!(cache.kernel.is_none());
}

#[test]
fn nogpu_multiexp_always_fails() {
    let mut k = MultiexpKernel {};
    let pool = Worker::new();
    let bases = vec![Point { v: 1 }];
    let exps = vec![Scalar { v: 2 }];
    assert!(k.multiexp(&pool, &bases, &exps, 0, 1).is_err());
}
