use caemu::board::{AnyComponent, Board};
use caemu::bus::Signal;
use caemu::logics::{HC138, SN74LS00N, SN74LS04N};
use caemu::tester::{ProbeInput, ProbeOutput, Tester};

#[test]
fn nand_test() {
    // wrap a nand
    let (tester, mut board) = Tester::from(&[1, 2], &[3], AnyComponent::Nand(SN74LS00N::new()), 14);

    // test few cases
    assert!(tester.test(&mut board, &vec![Signal::ZERO, Signal::ZERO], &vec![Signal::ONE]).is_ok());
    assert!(tester.test(&mut board, &vec![Signal::ZERO, Signal::ONE], &vec![Signal::ONE]).is_ok());
    assert!(tester.test(&mut board, &vec![Signal::ONE, Signal::ZERO], &vec![Signal::ONE]).is_ok());
    assert!(tester.test(&mut board, &vec![Signal::ONE, Signal::ONE], &vec![Signal::ZERO]).is_ok());
}

#[test]
fn not_test() {
    // wrap a nand
    let (tester, mut board) =
        Tester::from(&[1], &[2], AnyComponent::Inverter(SN74LS04N::new()), 14);

    // test few cases
    assert!(tester.test(&mut board, &vec![Signal::ZERO], &vec![Signal::ONE]).is_ok());
    assert!(tester.test(&mut board, &vec![Signal::ONE], &vec![Signal::ZERO]).is_ok());
}

#[test]
fn test_failure_is_reported() {
    let (tester, mut board) = Tester::from(&[1], &[2], AnyComponent::Inverter(SN74LS04N::new()), 14);
    let r = tester.test(&mut board, &vec![Signal::ZERO], &vec![Signal::ZERO]);
    match r {
        Err(f) => {
            assert_eq!(f.index, 0);
            assert_eq!(f.expected, Signal::ZERO);
            assert_eq!(f.actual, Signal::ONE);
        },
        Ok(()) => panic!("an inverter fed ZERO must drive ONE"),
    }
}

#[test]
fn demux_one_of_eight() {
    // enable pins 4, 5, 6; address pins 1, 2, 3; outputs y0..y7
    let (tester, mut board) = Tester::from(
        &[1, 2, 3, 4, 5, 6],
        &[15, 14, 13, 12, 11, 10, 9, 7],
        AnyComponent::Demux(HC138::new()),
        16,
    );
    let z = Signal::ZERO;
    let o = Signal::ONE;
    // enable pattern 0b100, address 0b010: output 2 rises, the rest stay low
    assert!(tester.test(
        &mut board,
        &vec![z, o, z, z, z, o],
        &vec![z, z, o, z, z, z, z, z],
    ).is_ok());
    // any other enable pattern drives every output low
    assert!(tester.test(
        &mut board,
        &vec![z, o, z, o, z, o],
        &vec![z, z, z, z, z, z, z, z],
    ).is_ok());
    assert!(tester.test(
        &mut board,
        &vec![z, o, z, z, z, z],
        &vec![z, z, z, z, z, z, z, z],
    ).is_ok());
}

#[test]
fn nand_through_two_inverters() {
    // A NAND gate feeding two inverter stages: the end of the chain shows
    // the NAND of the inputs again, after three propagation delays.
    let mut board = Board::new();
    let in_a = board.socket(1);
    let in_b = board.socket(1);
    let out_y = board.socket(1);
    let nand = board.socket(14);
    let not = board.socket(14);

    in_a.pin(1).connect(&nand.pin(1), &mut board);
    in_b.pin(1).connect(&nand.pin(2), &mut board);
    // nand gate 1 output -> inverter gate 1 input
    nand.pin(3).connect(&not.pin(1), &mut board);
    // inverter gate 1 output -> inverter gate 2 input
    not.pin(2).connect(&not.pin(3), &mut board);
    // inverter gate 2 output -> probe
    not.pin(4).connect(&out_y.pin(1), &mut board);

    let mut wired = board.wire();
    wired.plug(AnyComponent::Nand(SN74LS00N::new()), nand);
    wired.plug(AnyComponent::Inverter(SN74LS04N::new()), not);
    wired.plug(AnyComponent::ProbeIn(ProbeInput::new()), in_a);
    wired.plug(AnyComponent::ProbeIn(ProbeInput::new()), in_b);
    wired.plug(AnyComponent::ProbeOut(ProbeOutput::new()), out_y);
    let mut board = wired.complete();

    let cases = [
        (Signal::ZERO, Signal::ZERO, Signal::ONE),
        (Signal::ZERO, Signal::ONE, Signal::ONE),
        (Signal::ONE, Signal::ZERO, Signal::ONE),
        (Signal::ONE, Signal::ONE, Signal::ZERO),
    ];
    for (a, b, y) in cases {
        board.set_input(2, a);
        board.set_input(3, b);
        board.eval();
        assert_eq!(board.get_output(4), y);
    }
}
