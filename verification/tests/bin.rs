use dsp::bin::Bin;
use dsp::polar::Polar;
use dsp::rectangular::Rectangular;

#[test]
fn test_multiply_rectangular() {
    let a = Bin(Rectangular { cosine: 1, sine: 2 });
    let b = Bin(Rectangular { cosine: 3, sine: 4 });
    assert_eq!(a.mul(b), Bin(Rectangular { cosine: -5, sine: 10 }));
}

#[test]
fn test_divide_rectangular() {
    let a = Bin(Rectangular { cosine: 1, sine: 2 });
    let b = Bin(Rectangular { cosine: 3, sine: 4 });
    let c = a.mul(b);
    assert_eq!(c.div(a), b);
    assert_eq!(c.div(b), a);
}

#[test]
fn test_divide_polar() {
    let a = Bin(Polar { magnitude: 1, phase: 2 });
    let b = Bin(Polar { magnitude: 3, phase: 4 });
    let c = a.mul(b);
    assert_eq!(c.div(a), b);
    assert_eq!(c.div(b), a);
}

#[test]
fn test_multiply_polar_direct() {
    let a = Bin(Polar { magnitude: 1, phase: 2 });
    let b = Bin(Polar { magnitude: 3, phase: 4 });
    assert_eq!(a.mul(b), Bin(Polar { magnitude: 3, phase: 6 }));
}

#[test]
fn test_multiply_rectangular_negative_parts() {
    let a = Bin(Rectangular { cosine: -2, sine: 7 });
    let b = Bin(Rectangular { cosine: 5, sine: -3 });
    assert_eq!(a.mul(b), Bin(Rectangular { cosine: 11, sine: 41 }));
}

#[test]
fn test_divide_rectangular_cancels_for_larger_values() {
    let a = Bin(Rectangular { cosine: -12345, sine: 678 });
    let b = Bin(Rectangular { cosine: 910, sine: -11213 });
    let c = a.mul(b);
    assert_eq!(c.div(a), b);
    assert_eq!(c.div(b), a);
}

#[test]
fn test_divide_rectangular_truncates_towards_zero() {
    let a = Bin(Rectangular { cosine: 5, sine: 0 });
    let b = Bin(Rectangular { cosine: 2, sine: 0 });
    assert_eq!(a.div(b), Bin(Rectangular { cosine: 2, sine: 0 }));
    let negative = Bin(Rectangular { cosine: -5, sine: 0 });
    assert_eq!(negative.div(b), Bin(Rectangular { cosine: -2, sine: 0 }));
}

#[test]
fn test_divide_polar_truncates_towards_zero() {
    let a = Bin(Polar { magnitude: 7, phase: 10 });
    let b = Bin(Polar { magnitude: 2, phase: 3 });
    assert_eq!(a.div(b), Bin(Polar { magnitude: 3, phase: 7 }));
    let negative = Bin(Polar { magnitude: -7, phase: 10 });
    assert_eq!(negative.div(b), Bin(Polar { magnitude: -3, phase: 7 }));
}

#[test]
fn test_divide_polar_negative_divisor_magnitude() {
    let a = Bin(Polar { magnitude: 6, phase: 1 });
    let b = Bin(Polar { magnitude: -3, phase: 5 });
    let c = a.mul(b);
    assert_eq!(c, Bin(Polar { magnitude: -18, phase: 6 }));
    assert_eq!(c.div(b), a);
    assert_eq!(c.div(a), b);
}
