use dsp::convolution::convolve_signal;
use dsp::convolution::convolve_single;

#[test]
fn test_convolve_signal() {
    let signal = [0, 1, 2, 3, 2, 0];
    let impulse_response = [1, 2];
    let convolution = convolve_signal(&signal, &impulse_response);
    assert_eq!(convolution, vec![0, 1, 2 + 2, 4 + 3, 6 + 2, 4, 0])
}

#[test]
fn test_convolve_single() {
    let signal = [0, 1, 2, 3, 2, 0];
    let impulse_response = [1, 2];
    assert_eq!(convolve_single(&signal, &impulse_response, 4), 8);
    assert_eq!(convolve_single(&signal, &impulse_response, 1), 1);
    assert_eq!(convolve_single(&signal, &impulse_response, 6), 0);
}

#[test]
fn test_convolve_signal_output_length() {
    let signal = [1, 2, 3];
    let impulse_response = [4, 5, 6, 7];
    let convolution = convolve_signal(&signal, &impulse_response);
    assert_eq!(convolution.len(), signal.len() + impulse_response.len() - 1);
}

#[test]
fn test_convolve_signal_single_elements() {
    let convolution = convolve_signal(&[5], &[7]);
    assert_eq!(convolution, vec![35]);
    assert_eq!(convolve_single(&[5], &[7], 0), 35);
}

#[test]
fn test_convolve_signal_negative_samples() {
    let signal = [-1, 2];
    let impulse_response = [3, -4];
    let convolution = convolve_signal(&signal, &impulse_response);
    assert_eq!(convolution, vec![-3, 10, -8]);
}

#[test]
fn test_convolve_signal_impulse_longer_than_signal() {
    let signal = [1, 2];
    let impulse_response = [1, 0, 0, 2];
    let convolution = convolve_signal(&signal, &impulse_response);
    assert_eq!(convolution, vec![1, 2, 0, 2, 4]);
}

#[test]
fn test_convolve_signal_near_sample_limit() {
    // a single-sample signal overlaps each impulse sample once, so values
    // near the square root of the sample limit stay representable
    let signal = [3_037_000_499];
    let impulse_response = [3_037_000_499, -3_037_000_499];
    let convolution = convolve_signal(&signal, &impulse_response);
    assert_eq!(convolution, vec![9_223_372_030_926_249_001, -9_223_372_030_926_249_001]);
    assert_eq!(
        convolve_single(&signal, &impulse_response, 1),
        -9_223_372_030_926_249_001
    );
}

#[test]
fn test_convolve_single_agrees_with_signal_everywhere() {
    let signal = [3, -1, 4, 1, -5, 9, 2, -6];
    let impulse_response = [-2, 7, 0, 1];
    let convolution = convolve_signal(&signal, &impulse_response);
    for index in 0..convolution.len() {
        assert_eq!(convolve_single(&signal, &impulse_response, index), convolution[index]);
    }
}
