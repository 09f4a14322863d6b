use vstd::prelude::*;

use crate::Sample;

verus! {

/// The term of the convolution sum at output index `k` contributed by
/// impulse index `j`: zero whenever either index falls outside its
/// sequence.
pub open spec fn conv_term(s: Seq<Sample>, h: Seq<Sample>, k: int, j: int) -> int {
    if 0 <= j < h.len() && 0 <= k - j < s.len() {
        s[k - j] * h[j]
    } else {
        0
    }
}

/// The convolution sum at output index `k`, restricted to impulse
/// indices below `j0`.
pub open spec fn conv_partial(s: Seq<Sample>, h: Seq<Sample>, k: int, j0: int) -> int
    decreases j0,
{
    if j0 <= 0 {
        0
    } else {
        conv_partial(s, h, k, j0 - 1) + conv_term(s, h, k, j0 - 1)
    }
}

/// The convolution of `s` with `h` at output index `k`: the sum of
/// `s[k - j] * h[j]` over every impulse index `j` for which both
/// indices are in range.
pub open spec fn conv_at(s: Seq<Sample>, h: Seq<Sample>, k: int) -> int {
    conv_partial(s, h, k, h.len() as int)
}

/// The largest absolute value among the elements of `s`; zero for the
/// empty sequence.
pub open spec fn max_abs(s: Seq<Sample>) -> int
    decreases s.len(),
{
    if s.len() == 0 {
        0
    } else {
        let rest = max_abs(s.drop_last());
        let last = if s.last() >= 0 {
            s.last() as int
        } else {
            -(s.last() as int)
        };
        if last > rest {
            last
        } else {
            rest
        }
    }
}

/// `max_abs` is never negative and bounds every element from both
/// sides.
pub proof fn lemma_max_abs(s: Seq<Sample>)
    ensures
        max_abs(s) >= 0,
        forall|i: int| 0 <= i < s.len() ==> -max_abs(s) <= #[trigger] s[i] <= max_abs(s),
    decreases s.len(),
{
    if s.len() > 0 {
        lemma_max_abs(s.drop_last());
        assert forall|i: int| 0 <= i < s.len() implies -max_abs(s) <= #[trigger] s[i] <= max_abs(
            s,
        ) by {
            if i < s.len() - 1 {
                assert(s.drop_last()[i] == s[i]);
            } else {
                assert(s[i] == s.last());
            }
        }
    }
}

/// The shorter of the two lengths: the most terms any one output
/// sample of the convolution can sum.
pub open spec fn overlap_bound(s: Seq<Sample>, h: Seq<Sample>) -> int {
    if s.len() <= h.len() {
        s.len() as int
    } else {
        h.len() as int
    }
}

/// One when both indices of the term at `(k, j)` fall inside their
/// sequences, zero otherwise.
spec fn term_live(s: Seq<Sample>, h: Seq<Sample>, k: int, j: int) -> int {
    if 0 <= j < h.len() && 0 <= k - j < s.len() {
        1
    } else {
        0
    }
}

/// How many of the terms below `j0` are live.
spec fn live_count(s: Seq<Sample>, h: Seq<Sample>, k: int, j0: int) -> int
    decreases j0,
{
    if j0 <= 0 {
        0
    } else {
        live_count(s, h, k, j0 - 1) + term_live(s, h, k, j0 - 1)
    }
}

/// The live count climbs by at most one per term.
proof fn lemma_live_count_monotone(s: Seq<Sample>, h: Seq<Sample>, k: int, j0: int, j1: int)
    requires
        0 <= j0 <= j1,
    ensures
        0 <= live_count(s, h, k, j1) - live_count(s, h, k, j0) <= j1 - j0,
    decreases j1 - j0,
{
    if j1 > j0 {
        lemma_live_count_monotone(s, h, k, j0, j1 - 1);
    }
}

/// Live terms need a signal index in range, so at most `s.len()` of
/// them exist, however long the impulse response is.
proof fn lemma_live_count_window(s: Seq<Sample>, h: Seq<Sample>, k: int, j0: int)
    requires
        0 <= j0,
        0 <= k,
    ensures
        live_count(s, h, k, j0) <= ({
            let hi: int = if j0 <= k + 1 {
                j0
            } else {
                k + 1
            };
            let lo: int = if k - s.len() + 1 >= 0 {
                k - s.len() + 1
            } else {
                0
            };
            if hi - lo >= 0 {
                hi - lo
            } else {
                0
            }
        }),
        live_count(s, h, k, j0) <= s.len(),
    decreases j0,
{
    if j0 > 0 {
        lemma_live_count_window(s, h, k, j0 - 1);
    }
}

/// One term of the sum stays within the product of the element bounds,
/// and a dead term contributes nothing.
proof fn lemma_term_bound(s: Seq<Sample>, h: Seq<Sample>, k: int, j: int)
    ensures
        -(term_live(s, h, k, j) * (max_abs(s) * max_abs(h))) <= conv_term(s, h, k, j)
            <= term_live(s, h, k, j) * (max_abs(s) * max_abs(h)),
{
    lemma_max_abs(s);
    lemma_max_abs(h);
    let b1 = max_abs(s);
    let b2 = max_abs(h);
    if 0 <= j < h.len() && 0 <= k - j < s.len() {
        let x = s[k - j];
        let y = h[j];
        assert(-(b1 * b2) <= x * y <= b1 * b2) by (nonlinear_arith)
            requires
                -b1 <= x <= b1,
                -b2 <= y <= b2,
                b1 >= 0,
                b2 >= 0,
        ;
    }
}

/// A partial sum stays within its live count times the term bound.
proof fn lemma_conv_partial_bound(s: Seq<Sample>, h: Seq<Sample>, k: int, j0: int)
    requires
        0 <= j0,
    ensures
        -(live_count(s, h, k, j0) * (max_abs(s) * max_abs(h))) <= conv_partial(s, h, k, j0)
            <= live_count(s, h, k, j0) * (max_abs(s) * max_abs(h)),
    decreases j0,
{
    let p = max_abs(s) * max_abs(h);
    if j0 > 0 {
        lemma_conv_partial_bound(s, h, k, j0 - 1);
        lemma_term_bound(s, h, k, j0 - 1);
        let c = live_count(s, h, k, j0 - 1);
        let t = term_live(s, h, k, j0 - 1);
        assert((c + t) * p == c * p + t * p) by (nonlinear_arith);
    }
}

/// What a partial sum still misses of the full sum stays within the
/// number of missing live terms times the term bound.
proof fn lemma_conv_tail_bound(s: Seq<Sample>, h: Seq<Sample>, k: int, j0: int)
    requires
        0 <= j0 <= h.len(),
    ensures
        -((live_count(s, h, k, h.len() as int) - live_count(s, h, k, j0)) * (max_abs(s) * max_abs(
            h,
        ))) <= conv_at(s, h, k) - conv_partial(s, h, k, j0) <= (live_count(s, h, k, h.len() as int)
            - live_count(s, h, k, j0)) * (max_abs(s) * max_abs(h)),
    decreases h.len() - j0,
{
    let p = max_abs(s) * max_abs(h);
    if j0 < h.len() {
        lemma_conv_tail_bound(s, h, k, j0 + 1);
        lemma_term_bound(s, h, k, j0);
        let m = h.len() as int;
        let d = live_count(s, h, k, m) - live_count(s, h, k, j0 + 1);
        let t = term_live(s, h, k, j0);
        assert((d + t) * p == d * p + t * p) by (nonlinear_arith);
    }
}

/// Partial sums do not change across a run of zero terms.
proof fn lemma_conv_partial_eq(s: Seq<Sample>, h: Seq<Sample>, k: int, j0: int, j1: int)
    requires
        0 <= j0 <= j1,
        forall|j: int| j0 <= j < j1 ==> conv_term(s, h, k, j) == 0,
    ensures
        conv_partial(s, h, k, j1) == conv_partial(s, h, k, j0),
    decreases j1 - j0,
{
    if j1 > j0 {
        lemma_conv_partial_eq(s, h, k, j0, j1 - 1);
    }
}

/// Beyond the output index `k`, every further term is zero, so the
/// partial sum already equals the full sum.
proof fn lemma_conv_partial_past_k(s: Seq<Sample>, h: Seq<Sample>, k: int, j0: int)
    requires
        j0 >= k + 1,
        j0 >= 0,
    ensures
        conv_partial(s, h, k, j0) == conv_at(s, h, k),
{
    let m = h.len() as int;
    if j0 <= m {
        assert forall|j: int| j0 <= j < m implies conv_term(s, h, k, j) == 0 by {
            assert(k - j < 0);
        }
        lemma_conv_partial_eq(s, h, k, j0, m);
    } else {
        assert forall|j: int| m <= j < j0 implies conv_term(s, h, k, j) == 0 by {
            assert(j >= h.len());
        }
        lemma_conv_partial_eq(s, h, k, m, j0);
    }
}

/// Below `k - s.len() + 1`, every term is zero, so such a partial sum
/// is zero.
proof fn lemma_conv_partial_zero_low(s: Seq<Sample>, h: Seq<Sample>, k: int, j0: int)
    requires
        j0 <= k - s.len() + 1,
    ensures
        conv_partial(s, h, k, j0) == 0,
{
    if j0 > 0 {
        assert forall|j: int| 0 <= j < j0 implies conv_term(s, h, k, j) == 0 by {
            assert(k - j >= s.len());
        }
        lemma_conv_partial_eq(s, h, k, 0, j0);
    }
}

/// Any two strategies that meet their contracts agree: a full
/// convolution output and a single requested sample coincide at every
/// valid index.
pub proof fn lemma_strategy_agreement(
    s: Seq<Sample>,
    h: Seq<Sample>,
    full: Seq<Sample>,
    sample: Sample,
    k: int,
)
    requires
        full.len() == s.len() + h.len() - 1,
        forall|j: int| 0 <= j < full.len() ==> full[j] == conv_at(s, h, j),
        sample == conv_at(s, h, k),
        0 <= k < full.len(),
    ensures
        sample == full[k],
{
}

/// Calculates a convolution of a signal.
pub fn convolve_signal(signal: &[Sample], impulse_response: &[Sample]) -> (convolution: Vec<
    Sample,
>)
    requires
        signal.len() >= 1,
        impulse_response.len() >= 1,
        signal.len() + impulse_response.len() - 1 <= usize::MAX,
        overlap_bound(signal@, impulse_response@) * (max_abs(signal@) * max_abs(impulse_response@))
            <= i64::MAX,
    ensures
        convolution.len() == signal.len() + impulse_response.len() - 1,
        forall|k: int|
            0 <= k < convolution.len() ==> convolution[k] == conv_at(
                signal@,
                impulse_response@,
                k,
            ),
{
    let ghost s: Seq<Sample> = signal@;
    let ghost h: Seq<Sample> = impulse_response@;
    let n = signal.len();
    let m = impulse_response.len();
    let length = n + (m - 1);
    let mut convolution: Vec<Sample> = Vec::new();
    while convolution.len() < length
        invariant
            convolution.len() <= length,
            forall|k: int| 0 <= k < convolution.len() ==> convolution[k] == 0,
        decreases length - convolution.len(),
    {
        convolution.push(0);
    }
    proof {
        assert forall|k: int| 0 <= k < length implies convolution[k] == conv_at(s, h, k)
            - conv_partial(s, h, k, k + 1) by {
            lemma_conv_partial_past_k(s, h, k, k + 1);
        }
    }
    let mut sample_index: usize = 0;
    while sample_index < n
        invariant
            n == signal.len(),
            m == impulse_response.len(),
            n >= 1,
            m >= 1,
            length == n + m - 1,
            overlap_bound(s, h) * (max_abs(s) * max_abs(h)) <= i64::MAX,
            s == signal@,
            h == impulse_response@,
            convolution.len() == length,
            sample_index <= n,
            forall|k: int|
                0 <= k < length ==> convolution[k] == conv_at(s, h, k) - conv_partial(
                    s,
                    h,
                    k,
                    k - sample_index + 1,
                ),
        decreases n - sample_index,
    {
        let mut impulse_index: usize = 0;
        while impulse_index < m
            invariant
                n == signal.len(),
                m == impulse_response.len(),
                n >= 1,
                m >= 1,
                length == n + m - 1,
                overlap_bound(s, h) * (max_abs(s) * max_abs(h)) <= i64::MAX,
                s == signal@,
                h == impulse_response@,
                convolution.len() == length,
                sample_index < n,
                impulse_index <= m,
                forall|k: int|
                    0 <= k < length ==> convolution[k] == conv_at(s, h, k) - conv_partial(
                        s,
                        h,
                        k,
                        if k < sample_index + impulse_index {
                            k - sample_index
                        } else {
                            k - sample_index + 1
                        },
                    ),
            decreases m - impulse_index,
        {
            let output_index = sample_index + impulse_index;
            proof {
                lemma_max_abs(s);
                lemma_max_abs(h);
                let b1 = max_abs(s);
                let b2 = max_abs(h);
                assert(-(b1 * b2) <= s[sample_index as int] * h[impulse_index as int] <= b1 * b2)
                    by (nonlinear_arith)
                    requires
                        -b1 <= s[sample_index as int] <= b1,
                        -b2 <= h[impulse_index as int] <= b2,
                        b1 >= 0,
                        b2 >= 0,
                ;
                assert(b1 * b2 >= 0) by (nonlinear_arith)
                    requires
                        b1 >= 0,
                        b2 >= 0,
                ;
                assert(b1 * b2 <= overlap_bound(s, h) * (b1 * b2)) by (nonlinear_arith)
                    requires
                        overlap_bound(s, h) >= 1,
                        b1 >= 0,
                        b2 >= 0,
                ;
            }
            let product = signal[sample_index] * impulse_response[impulse_index];
            let old_value = convolution[output_index];
            proof {
                let k0 = output_index as int;
                let j = impulse_index as int;
                assert(conv_term(s, h, k0, j) == product);
                assert(old_value + product == conv_at(s, h, k0) - conv_partial(s, h, k0, j));
                lemma_conv_tail_bound(s, h, k0, j);
                lemma_live_count_monotone(s, h, k0, 0, j);
                lemma_live_count_monotone(s, h, k0, 0, m as int);
                lemma_live_count_window(s, h, k0, m as int);
                let p = max_abs(s) * max_abs(h);
                let missing = live_count(s, h, k0, m as int) - live_count(s, h, k0, j);
                assert(missing * p <= live_count(s, h, k0, m as int) * p) by (nonlinear_arith)
                    requires
                        missing <= live_count(s, h, k0, m as int),
                        live_count(s, h, k0, j) >= 0,
                        p >= 0,
                ;
                assert(live_count(s, h, k0, m as int) * p <= overlap_bound(s, h) * p)
                    by (nonlinear_arith)
                    requires
                        live_count(s, h, k0, m as int) <= overlap_bound(s, h),
                        p >= 0,
                ;
            }
            let updated = old_value + product;
            convolution[output_index] = updated;
            proof {
                let k0 = output_index as int;
                let i = sample_index as int;
                let j = impulse_index as int;
                assert forall|k: int| 0 <= k < length implies convolution[k] == conv_at(s, h, k)
                    - conv_partial(
                    s,
                    h,
                    k,
                    if k < i + j + 1 {
                        k - i
                    } else {
                        k - i + 1
                    },
                ) by {
                    if k != k0 {
                        assert(convolution[k] == conv_at(s, h, k) - conv_partial(
                            s,
                            h,
                            k,
                            if k < i + j {
                                k - i
                            } else {
                                k - i + 1
                            },
                        ));
                    }
                }
            }
            impulse_index += 1;
        }
        proof {
            let i = sample_index as int;
            assert forall|k: int| 0 <= k < length implies convolution[k] == conv_at(s, h, k)
                - conv_partial(s, h, k, k - (i + 1) + 1) by {
                if k >= i + m {
                    assert(conv_term(s, h, k, k - i) == 0);
                    assert(conv_partial(s, h, k, k - i + 1) == conv_partial(s, h, k, k - i)
                        + conv_term(s, h, k, k - i));
                }
            }
        }
        sample_index += 1;
    }
    proof {
        assert forall|k: int| 0 <= k < length implies convolution[k] == conv_at(s, h, k) by {
            lemma_conv_partial_zero_low(s, h, k, k - n + 1);
        }
    }
    convolution
}

/// Calculates a single sample of the output convolution.
pub fn convolve_single(signal: &[Sample], impulse_response: &[Sample], index: usize) -> (
    output_sample: Sample)
    requires
        signal.len() >= 1,
        impulse_response.len() >= 1,
        index < signal.len() + impulse_response.len() - 1,
        overlap_bound(signal@, impulse_response@) * (max_abs(signal@) * max_abs(impulse_response@))
            <= i64::MAX,
    ensures
        output_sample == conv_at(signal@, impulse_response@, index as int),
{
    let ghost s: Seq<Sample> = signal@;
    let ghost h: Seq<Sample> = impulse_response@;
    let m = impulse_response.len();
    let mut output_sample: Sample = 0;
    let mut impulse_index: usize = 0;
    while impulse_index < m
        invariant
            m == impulse_response.len(),
            m >= 1,
            signal.len() >= 1,
            index < signal.len() + m - 1,
            overlap_bound(s, h) * (max_abs(s) * max_abs(h)) <= i64::MAX,
            s == signal@,
            h == impulse_response@,
            impulse_index <= m,
            output_sample == conv_partial(s, h, index as int, impulse_index as int),
        decreases m - impulse_index,
    {
        let ghost j = impulse_index as int;
        if impulse_index <= index && (index - impulse_index) < signal.len() {
            proof {
                lemma_max_abs(s);
                lemma_max_abs(h);
                let b1 = max_abs(s);
                let b2 = max_abs(h);
                let x = s[index - j];
                let y = h[j];
                assert(-(b1 * b2) <= x * y <= b1 * b2) by (nonlinear_arith)
                    requires
                        -b1 <= x <= b1,
                        -b2 <= y <= b2,
                        b1 >= 0,
                        b2 >= 0,
                ;
                assert(b1 * b2 >= 0) by (nonlinear_arith)
                    requires
                        b1 >= 0,
                        b2 >= 0,
                ;
                lemma_conv_partial_bound(s, h, index as int, j + 1);
                lemma_live_count_monotone(s, h, index as int, 0, j + 1);
                lemma_live_count_window(s, h, index as int, j + 1);
                let p = max_abs(s) * max_abs(h);
                let c = live_count(s, h, index as int, j + 1);
                assert(c * p <= overlap_bound(s, h) * p) by (nonlinear_arith)
                    requires
                        c <= overlap_bound(s, h),
                        p >= 0,
                ;
                assert(p <= overlap_bound(s, h) * p) by (nonlinear_arith)
                    requires
                        overlap_bound(s, h) >= 1,
                        p >= 0,
                ;
                assert(conv_term(s, h, index as int, j) == x * y);
            }
            output_sample = output_sample + signal[index - impulse_index]
                * impulse_response[impulse_index];
        } else {
            proof {
                assert(conv_term(s, h, index as int, j) == 0);
            }
        }
        impulse_index += 1;
    }
    output_sample
}

} // verus!
