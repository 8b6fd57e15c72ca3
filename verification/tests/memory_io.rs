use caemu::board::AnyComponent;
use caemu::bus::Signal;
use caemu::io::Terminal;
use caemu::memory::{StateRom, AS6C62256, AT28C256};
use caemu::tester::Tester;

fn bit(v: u32, i: usize) -> Signal {
    if (v >> i) & 1 == 1 {
        Signal::ONE
    } else {
        Signal::ZERO
    }
}

fn byte_sigs(v: u8) -> Vec<Signal> {
    let mut r = Vec::new();
    for i in 0..8 {
        r.push(bit(v as u32, i));
    }
    r
}

fn addr_sigs(v: u16) -> Vec<Signal> {
    let mut r = Vec::new();
    for i in 0..15 {
        r.push(bit(v as u32, i));
    }
    r
}

fn high_sigs(n: usize) -> Vec<Signal> {
    let mut r = Vec::new();
    for _ in 0..n {
        r.push(Signal::HIGH);
    }
    r
}

#[test]
fn sram_round_trip() {
    // data pins, then address pins, then chip / write / output enables
    let mut inputs: Vec<usize> = vec![11, 12, 13, 15, 16, 17, 18, 19];
    inputs.extend_from_slice(&[10, 9, 8, 7, 6, 5, 4, 3, 25, 24, 21, 23, 2, 26, 1]);
    inputs.extend_from_slice(&[20, 27, 22]);
    let outputs: Vec<usize> = vec![11, 12, 13, 15, 16, 17, 18, 19];
    let (tester, mut board) =
        Tester::from(&inputs, &outputs, AnyComponent::Sram(AS6C62256::new()), 28);

    // write 0x5A at 0x1234: chip enabled, write enabled, outputs enabled
    let mut ins = byte_sigs(0x5A);
    ins.extend(addr_sigs(0x1234));
    ins.push(Signal::ZERO);  // ce
    ins.push(Signal::ZERO);  // we
    ins.push(Signal::ZERO);  // oe
    assert!(tester.test(&mut board, &ins, &byte_sigs(0x5A)).is_ok());

    // read back: release the data probes, disable writes, enable outputs
    let mut ins = high_sigs(8);
    ins.extend(addr_sigs(0x1234));
    ins.push(Signal::ZERO);  // ce
    ins.push(Signal::ONE);  // we
    ins.push(Signal::ZERO);  // oe
    assert!(tester.test(&mut board, &ins, &byte_sigs(0x5A)).is_ok());

    // with the chip disabled the data bus floats
    let mut ins = high_sigs(8);
    ins.extend(addr_sigs(0x1234));
    ins.push(Signal::ONE);  // ce
    ins.push(Signal::ONE);  // we
    ins.push(Signal::ZERO);  // oe
    assert!(tester.test(&mut board, &ins, &high_sigs(8)).is_ok());
}

#[test]
fn rom_fill() {
    let mut rom = StateRom::new();
    rom.fill(&[1, 2, 3, 4]);
    assert_eq!(rom.mem[0], 1);
    assert_eq!(rom.mem[3], 4);
    assert_eq!(rom.mem[4], 0);
    assert_eq!(rom.mem.len(), 32768);
}

#[test]
fn terminal_captures_strobed_byte() {
    // data pins 1..=8, write strobe pin 9, chip enable pin 10
    let inputs: Vec<usize> = vec![1, 2, 3, 4, 5, 6, 7, 8, 9, 10];
    let outputs: Vec<usize> = vec![];
    let (tester, mut board) =
        Tester::from(&inputs, &outputs, AnyComponent::Terminal(Terminal::new()), 10);

    // chip enabled, strobe low, the byte on the data pins
    let mut ins = byte_sigs(0x41);
    ins.push(Signal::ZERO);  // we low
    ins.push(Signal::ZERO);  // ce
    assert!(tester.test(&mut board, &ins, &vec![]).is_ok());

    // raise the strobe: the byte is captured on the rising edge
    let mut ins = byte_sigs(0x41);
    ins.push(Signal::ONE);  // we rises
    ins.push(Signal::ZERO);  // ce
    assert!(tester.test(&mut board, &ins, &vec![]).is_ok());

    match &board.components[0].part {
        AnyComponent::Terminal(t) => {
            assert_eq!(t.received.len(), 1);
            assert_eq!(t.received[0], 0x41);
        },
        _ => panic!("the device under test is the terminal"),
    }
}

#[test]
fn eeprom_read_back() {
    // address pins, then chip enable and output enable
    let mut inputs: Vec<usize> = vec![10, 9, 8, 7, 6, 5, 4, 3, 25, 24, 21, 23, 2, 26, 1];
    inputs.extend_from_slice(&[20, 22]);
    let outputs: Vec<usize> = vec![11, 12, 13, 15, 16, 17, 18, 19];
    let mut rom = AT28C256::new();
    rom.state.fill(&[9, 8, 7]);
    let (tester, mut board) = Tester::from(&inputs, &outputs, AnyComponent::Eeprom(rom), 28);

    // enabled, reading address 2: the filled byte 7 comes out
    let mut ins = addr_sigs(2);
    ins.push(Signal::ZERO);  // ce
    ins.push(Signal::ZERO);  // oe
    assert!(tester.test(&mut board, &ins, &byte_sigs(7)).is_ok());

    // disabled: the outputs float
    let mut ins = addr_sigs(2);
    ins.push(Signal::ONE);  // ce
    ins.push(Signal::ZERO);  // oe
    assert!(tester.test(&mut board, &ins, &high_sigs(8)).is_ok());
}
