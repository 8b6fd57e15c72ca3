use caemu::delay::Delay;

#[test]
fn delays_test() {
    assert_eq!(Delay::from_picos(1000), Delay::from_nanos(1));
    assert_eq!(Delay::from_nanos(1000), Delay::from_micros(1));
    assert_eq!(Delay::from_micros(1000), Delay::from_millis(1));
    assert_eq!(Delay::from_millis(1000), Delay::from_seconds(1));
}

#[test]
fn delay_plus_and_zero() {
    let a = Delay::from_nanos(3);
    let b = Delay::from_picos(7);
    assert_eq!(a.plus(&b).picoseconds, 3007);
    assert_eq!(Delay::no_delay().picoseconds, 0);
    assert_eq!(Delay::from_seconds(2).picoseconds, 2_000_000_000_000);
}
