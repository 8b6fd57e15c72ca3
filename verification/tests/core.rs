use caemu::board::{AnyComponent, Board};
use caemu::bus::{Bus, IOAction, NetStore, Signal};
use caemu::component::OutBus;
use caemu::cpu6502::CPU6502;
use caemu::delay::Delay;
use caemu::logics::SN74LS00N;
use caemu::tester::Tester;

#[test]
fn wiring_partitions_pins_into_nets() {
    let mut board = Board::new();
    let s1 = board.socket(2);
    let s2 = board.socket(2);
    let _s3 = board.socket(1);
    s1.pin(1).connect(&s2.pin(1), &mut board);
    s2.pin(1).connect(&s2.pin(2), &mut board);
    let wired = board.wire();
    // pins joined directly or through another pin share a net
    assert_eq!(wired.pin_to_net[0], wired.pin_to_net[2]);
    assert_eq!(wired.pin_to_net[2], wired.pin_to_net[3]);
    // unconnected pins sit in nets of their own
    assert_ne!(wired.pin_to_net[0], wired.pin_to_net[1]);
    assert_ne!(wired.pin_to_net[1], wired.pin_to_net[4]);
    // five pins collapse into three nets, numbered densely
    assert_eq!(wired.net_count, 3);
    for p in 0..5 {
        assert!(wired.pin_to_net[p] < 3);
    }
}

#[test]
fn bus_staged_reads_and_writes() {
    let mut nets = NetStore::new_high(2);
    let mut bus = Bus::new(vec![0, 1, 0]);
    // an undriven net reads HIGH, and the read is recorded
    assert_eq!(bus.get(&nets, 0), Signal::HIGH);
    assert_eq!(bus.read[0], IOAction::IO(Signal::HIGH));
    // a staged write does not touch the net until it is applied
    bus.set(0, Signal::ZERO);
    assert_eq!(nets.signals[0], Signal::HIGH);
    assert!(!bus.is_dirty(&nets));
    bus.apply(&mut nets);
    assert_eq!(nets.signals[0], Signal::ZERO);
    // the observed HIGH no longer matches the net: the bus is dirty
    assert!(bus.is_dirty(&nets));
    // a later write to the same net wins within one commit
    bus.clear();
    bus.set(0, Signal::ONE);
    bus.set(2, Signal::ZERO);
    bus.apply(&mut nets);
    assert_eq!(nets.signals[0], Signal::ZERO);
    assert!(!bus.is_dirty(&nets));
}

#[test]
fn raised_marks_a_rising_edge() {
    let mut nets = NetStore::new_high(1);
    let mut bus = Bus::new(vec![0]);
    bus.set(0, Signal::ZERO);
    bus.apply(&mut nets);
    assert!(!nets.raised[0]);
    bus.clear();
    bus.set(0, Signal::ONE);
    bus.apply(&mut nets);
    // the net went ZERO -> ONE: its raised flag pulses
    assert!(nets.raised[0]);
    assert!(bus.raised(&nets, 0));
    nets.reset_raised();
    assert!(!nets.raised[0]);
    // driving ONE onto a net already at ONE raises nothing
    bus.clear();
    bus.set(0, Signal::ONE);
    bus.apply(&mut nets);
    assert!(!nets.raised[0]);
}

#[test]
fn trace_monotonic_over_fifty_microseconds() {
    let (tester, mut board) =
        Tester::from(&[1, 2], &[3], AnyComponent::Nand(SN74LS00N::new()), 14);
    let mut time = Delay::no_delay();
    for step in 0..50u64 {
        let a = if step % 2 == 0 { Signal::ZERO } else { Signal::ONE };
        let b = if step % 3 == 0 { Signal::ZERO } else { Signal::ONE };
        board.move_time(time);
        board.set_input(tester.input(0), a);
        board.set_input(tester.input(1), b);
        let settled = board.eval();
        assert!(settled);
        time = time.plus(&Delay::from_micros(1));
    }
    // the emitted trace is legal: timestamps never decrease and every
    // referenced net was declared in the header
    let steps = &board.logger.steps;
    assert!(steps.len() > 0);
    let mut last = 0u64;
    for s in steps.iter() {
        assert!(s.time >= last);
        last = s.time;
        assert!(s.changes.len() > 0);
        for (net, _) in s.changes.iter() {
            assert!(*net < board.logger.vars);
        }
    }
}

#[test]
fn eval_leaves_no_bus_dirty() {
    let (tester, mut board) =
        Tester::from(&[1, 2], &[3], AnyComponent::Nand(SN74LS00N::new()), 14);
    board.set_input(tester.input(0), Signal::ONE);
    board.set_input(tester.input(1), Signal::ONE);
    let settled = board.eval();
    assert!(settled);
    for pc in board.components.iter() {
        assert!(!pc.bus.is_dirty(&board.nets));
    }
}

#[test]
fn eval_time_is_monotone() {
    let (_tester, mut board) =
        Tester::from(&[1, 2], &[3], AnyComponent::Nand(SN74LS00N::new()), 14);
    let before = board.time.picoseconds;
    board.eval();
    let after = board.time.picoseconds;
    assert!(after >= before);
    board.move_time(Delay::from_micros(5));
    board.eval();
    assert!(board.time.picoseconds >= 5_000_000);
}

#[test]
fn out_bus_drives_sixteen_bits() {
    let mut nets = NetStore::new_high(16);
    let ids: Vec<usize> = (0..16).collect();
    let mut bus = Bus::new(ids);
    let pins: Vec<usize> = (1..=16).collect();
    let mut group = OutBus::new(&pins);
    group.connect(&bus);
    group.set_u16(&mut bus, 0xBEEF);
    bus.apply(&mut nets);
    for i in 0..16 {
        let expect = if (0xBEEFu16 >> i) & 1 == 1 { Signal::ONE } else { Signal::ZERO };
        assert_eq!(nets.signals[i], expect);
    }
}

#[test]
fn cpu_stubs_settle() {
    let mut board = Board::new();
    let socket = board.socket(40);
    let mut wired = board.wire();
    wired.plug(AnyComponent::Cpu6502(CPU6502::new()), socket);
    let mut board = wired.complete();
    assert!(board.eval());
    assert!(board.eval());
    match &board.components[0].part {
        AnyComponent::Cpu6502(c) => {
            assert_eq!(c.state.acc, 2);
            assert_eq!(c.state.pc, 2);
        },
        _ => panic!("the only component is the processor"),
    }
}
