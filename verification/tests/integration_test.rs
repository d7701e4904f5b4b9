use moving_averages::Ema;
use moving_averages::Fixed;
use moving_averages::MovingAverage;
use moving_averages::Rma;
use moving_averages::Sma;

/// Drives any calculator through the shared trait interface.
fn feed_and_reset<M: MovingAverage>(calc: &mut M) {
    assert!(calc.next(Fixed::from_int(1)) == Fixed::from_int(1));
    calc.reset();
}

#[test]
fn test_trait_implementation() {
    feed_and_reset(&mut Sma::new(3));
    feed_and_reset(&mut Ema::new(Fixed::from_raw(500_000_000)));
    feed_and_reset(&mut Rma::new(3));
}

#[test]
fn test_mixed_usage() {
    let mut sma = Sma::new(2);
    let mut ema = Ema::new(Fixed::from_raw(300_000_000));

    assert!(sma.next(Fixed::from_int(1)) == Fixed::from_int(1));
    assert!(ema.next(Fixed::from_int(1)) == Fixed::from_int(1));

    assert!(sma.next(Fixed::from_int(2)) == Fixed::from_raw(1_500_000_000));
    assert!(ema.next(Fixed::from_int(2)) == Fixed::from_raw(1_300_000_000));
}
