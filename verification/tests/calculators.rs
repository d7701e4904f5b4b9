use moving_averages::Ema;
use moving_averages::Fixed;
use moving_averages::Rma;
use moving_averages::Sma;
use moving_averages::fixed::SCALE;

/// Mean of the raw values in `window`, truncated toward zero as the
/// calculators truncate, for checking against a naive recomputation.
fn naive_mean(window: &[Fixed]) -> Fixed {
    let mut sum: i128 = 0;
    for f in window {
        sum += f.raw as i128;
    }
    Fixed::from_raw((sum / window.len() as i128) as i64)
}

#[test]
fn fixed_constructors() {
    assert_eq!(Fixed::zero().raw, 0);
    assert_eq!(Fixed::from_int(2).raw, 2 * SCALE);
    assert_eq!(Fixed::from_int(-3).raw, -3 * SCALE);
    assert_eq!(Fixed::from_raw(42).raw, 42);
}

#[test]
fn sma_concrete_scenario() {
    let mut sma = Sma::new(2);
    assert_eq!(sma.next(Fixed::from_int(1)), Fixed::from_int(1));
    assert_eq!(sma.next(Fixed::from_int(2)), Fixed::from_raw(1_500_000_000));
    assert_eq!(sma.next(Fixed::from_int(3)), Fixed::from_raw(2_500_000_000));
}

#[test]
fn ema_concrete_scenario() {
    let mut ema = Ema::new(Fixed::from_raw(300_000_000));
    assert_eq!(ema.next(Fixed::from_int(1)), Fixed::from_int(1));
    assert_eq!(ema.next(Fixed::from_int(2)), Fixed::from_raw(1_300_000_000));
}

#[test]
fn rma_concrete_scenario() {
    let mut rma = Rma::new(3);
    assert_eq!(rma.next(Fixed::from_int(1)), Fixed::from_int(1));
    assert_eq!(rma.next(Fixed::from_int(4)), Fixed::from_int(2));
    assert_eq!(rma.next(Fixed::from_int(4)), Fixed::from_int(3));
}

#[test]
fn sma_identical_samples_return_the_value() {
    let mut sma = Sma::new(4);
    for _ in 0..4 {
        assert_eq!(sma.next(Fixed::from_int(7)), Fixed::from_int(7));
    }
}

#[test]
fn rma_identical_samples_return_the_value() {
    let mut rma = Rma::new(3);
    for _ in 0..3 {
        assert_eq!(rma.next(Fixed::from_int(-5)), Fixed::from_int(-5));
    }
}

#[test]
fn identical_samples_after_history_return_the_value() {
    let mut sma = Sma::new(3);
    sma.next(Fixed::from_int(10));
    sma.next(Fixed::from_int(-20));
    sma.next(Fixed::from_int(7));
    sma.next(Fixed::from_int(7));
    assert_eq!(sma.next(Fixed::from_int(7)), Fixed::from_int(7));

    let mut rma = Rma::new(3);
    rma.next(Fixed::from_int(10));
    rma.next(Fixed::from_int(-20));
    rma.next(Fixed::from_int(7));
    rma.next(Fixed::from_int(7));
    assert_eq!(rma.next(Fixed::from_int(7)), Fixed::from_int(7));
}

#[test]
fn sma_warmup_divides_by_count() {
    let mut sma = Sma::new(5);
    assert_eq!(sma.next(Fixed::from_int(1)), Fixed::from_int(1));
    assert_eq!(sma.next(Fixed::from_int(2)), Fixed::from_raw(1_500_000_000));
    // (1 + 2 + 4) / 3 truncates toward zero in raw units.
    assert_eq!(sma.next(Fixed::from_int(4)), Fixed::from_raw(2_333_333_333));
}

#[test]
fn sma_steady_state_matches_naive_window_mean() {
    let mut sma = Sma::new(3);
    let samples = [
        Fixed::from_int(1),
        Fixed::from_int(2),
        Fixed::from_int(3),
        Fixed::from_int(10),
        Fixed::from_int(-4),
        Fixed::from_int(6),
    ];
    for (i, &s) in samples.iter().enumerate() {
        let got = sma.next(s);
        if i + 1 >= 3 {
            assert_eq!(got, naive_mean(&samples[i + 1 - 3..i + 1]));
        }
    }
}

#[test]
fn ema_alpha_one_returns_the_input() {
    let mut ema = Ema::new(Fixed::from_raw(SCALE));
    for v in [5i64, -3, 0, 1_000_000] {
        assert_eq!(ema.next(Fixed::from_int(v)), Fixed::from_int(v));
    }
}

#[test]
fn ema_first_call_returns_the_input() {
    for alpha in [1, 300_000_000, SCALE] {
        let mut ema = Ema::new(Fixed::from_raw(alpha));
        assert_eq!(ema.next(Fixed::from_int(-9)), Fixed::from_int(-9));
    }
}

#[test]
fn rma_first_call_returns_the_input() {
    let mut rma = Rma::new(7);
    assert_eq!(rma.next(Fixed::from_raw(123_456_789)), Fixed::from_raw(123_456_789));
}

#[test]
fn sma_reset_replays_like_fresh() {
    let samples = [3i64, -1, 4, 1, 5, 9];
    let mut first = Sma::new(3);
    let before: Vec<Fixed> = samples.iter().map(|&v| first.next(Fixed::from_int(v))).collect();
    first.reset();
    let after: Vec<Fixed> = samples.iter().map(|&v| first.next(Fixed::from_int(v))).collect();
    let mut fresh = Sma::new(3);
    let from_fresh: Vec<Fixed> =
        samples.iter().map(|&v| fresh.next(Fixed::from_int(v))).collect();
    assert_eq!(before, after);
    assert_eq!(before, from_fresh);
}

#[test]
fn ema_reset_replays_like_fresh() {
    let samples = [3i64, -1, 4, 1, 5, 9];
    let mut first = Ema::new(Fixed::from_raw(250_000_000));
    let before: Vec<Fixed> = samples.iter().map(|&v| first.next(Fixed::from_int(v))).collect();
    first.reset();
    let after: Vec<Fixed> = samples.iter().map(|&v| first.next(Fixed::from_int(v))).collect();
    assert_eq!(before, after);
}

#[test]
fn rma_reset_replays_like_fresh() {
    let samples = [3i64, -1, 4, 1, 5, 9];
    let mut first = Rma::new(3);
    let before: Vec<Fixed> = samples.iter().map(|&v| first.next(Fixed::from_int(v))).collect();
    first.reset();
    let after: Vec<Fixed> = samples.iter().map(|&v| first.next(Fixed::from_int(v))).collect();
    assert_eq!(before, after);
}

#[test]
fn ema_alpha_getter_and_setter() {
    let mut ema = Ema::new(Fixed::from_raw(500_000_000));
    assert_eq!(ema.alpha(), Fixed::from_raw(500_000_000));
    let seeded = ema.next(Fixed::from_int(1));
    assert_eq!(seeded, Fixed::from_int(1));
    // Changing the coefficient leaves the held average alone; with the
    // coefficient at one the next sample comes back unchanged.
    ema.set_alpha(Fixed::from_raw(SCALE));
    assert_eq!(ema.alpha(), Fixed::from_raw(SCALE));
    assert_eq!(ema.next(Fixed::from_int(5)), Fixed::from_int(5));
}

#[test]
fn sma_negative_mean_truncates_toward_zero() {
    let mut sma = Sma::new(2);
    assert_eq!(sma.next(Fixed::from_raw(-1)), Fixed::from_raw(-1));
    // (-1 + -2) / 2 is -1.5 raw units: truncation toward zero gives -1.
    assert_eq!(sma.next(Fixed::from_raw(-2)), Fixed::from_raw(-1));
    let mut neg = Sma::new(2);
    assert_eq!(neg.next(Fixed::from_int(-1)), Fixed::from_int(-1));
    assert_eq!(neg.next(Fixed::from_int(-2)), Fixed::from_raw(-1_500_000_000));
}
