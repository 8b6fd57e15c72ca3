use caemu::board::AnyComponent;
use caemu::bus::Signal;
use caemu::latches::SN74LS77;
use caemu::tester::Tester;

#[test]
fn latch_test() {
    // wrap a latch
    let (tester, mut board) =
        Tester::from(&[12, 1], &[14], AnyComponent::Latch(SN74LS77::new()), 14);

    // test few cases
    assert!(tester.test(&mut board, &vec![Signal::ONE, Signal::ZERO], &vec![Signal::ZERO]).is_ok());
    assert!(
        tester.test(&mut board, &vec![Signal::ZERO, Signal::ZERO], &vec![Signal::ZERO]).is_ok()
    );
    assert!(tester.test(&mut board, &vec![Signal::ONE, Signal::ONE], &vec![Signal::ONE]).is_ok());
    assert!(tester.test(&mut board, &vec![Signal::ZERO, Signal::ONE], &vec![Signal::ONE]).is_ok());
    assert!(tester.test(&mut board, &vec![Signal::ZERO, Signal::ZERO], &vec![Signal::ONE]).is_ok());
}

#[test]
fn level_triggered_latch() {
    // clock on pin 12, data on pin 1, output on pin 14: transparent while
    // the clock is high, holding while it is low
    let (tester, mut board) =
        Tester::from(&[12, 1], &[14], AnyComponent::Latch(SN74LS77::new()), 14);
    let z = Signal::ZERO;
    let o = Signal::ONE;
    let steps = [
        (z, z, z),  // holding the initial ZERO
        (z, o, z),  // still holding ZERO despite the input
        (o, z, z),  // transparent: passes ZERO
        (o, o, o),  // transparent: passes and memorizes ONE
        (z, z, o),  // holds ONE despite the input dropping
    ];
    for (clock, d, q) in steps {
        assert!(tester.test(&mut board, &vec![clock, d], &vec![q]).is_ok());
    }
}

#[test]
fn quad_latch_independent_controls() {
    // data pins 1, 2, 5, 6; control pin 12 gates the first pair and pin 3
    // the second; outputs on pins 14, 13, 9, 8
    let (tester, mut board) = Tester::from(
        &[1, 2, 5, 6, 12, 3],
        &[14, 13, 9, 8],
        AnyComponent::Latch(SN74LS77::new()),
        14,
    );
    let z = Signal::ZERO;
    let o = Signal::ONE;
    // drive d = 1010 and pulse the first control: q0, q1 latch 1, 0 while
    // the second pair still holds its initial zeros
    assert!(tester.test(&mut board, &vec![o, z, o, z, o, z], &vec![o, z, z, z]).is_ok());
    // drop the control and invert the data: the first pair stays frozen
    assert!(tester.test(&mut board, &vec![z, o, z, o, z, z], &vec![o, z, z, z]).is_ok());
    // pulse the second control alone: its pair latches the current data
    assert!(tester.test(&mut board, &vec![z, o, z, o, z, o], &vec![o, z, z, o]).is_ok());
    // release everything: both pairs hold what they memorized
    assert!(tester.test(&mut board, &vec![o, o, o, o, z, z], &vec![o, z, z, o]).is_ok());
}
