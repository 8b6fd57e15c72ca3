//! Memory chips: a 32K×8 EEPROM and a 32K×8 static RAM, each behind the
//! usual chip-enable / output-enable / write-enable control pins.

use vstd::prelude::*;

use crate::bits::{bit_signal, u16_bit, u8_bit};
use crate::bus::{Bus, IOAction, NetStore, Signal};
use crate::component::{
    io_span, lemma_staged_high_io_at, lemma_staged_high_out_at, lemma_staged_u8_io_at,
    lemma_staged_u8_out_at, out_span, read_span_in, read_span_io, Component, In, InBus, InOutBus,
    OutBus,
};
use crate::delay::Delay;
use crate::logics::{in_pins_at, out_pins_at};

verus! {

/// The size of both memory arrays, in bytes.
pub const MEM_SIZE: usize = 32768;

/// A preloadable 32K byte array, used as the EEPROM's contents.
pub struct StateRom {
    pub mem: Vec<u8>,
}

impl StateRom {
    pub fn new() -> (r: Self)
        ensures
            r.mem@.len() == MEM_SIZE,
            forall|j: int| 0 <= j < MEM_SIZE ==> r.mem@[j] == 0,
    {
        let mut mem: Vec<u8> = Vec::new();
        let mut i: usize = 0;
        while i < MEM_SIZE
            invariant
                i <= MEM_SIZE,
                mem@.len() == i,
                forall|j: int| 0 <= j < i ==> mem@[j] == 0,
            decreases MEM_SIZE - i,
        {
            mem.push(0);
            i = i + 1;
        }
        StateRom { mem }
    }

    /// Copies `content` over the front of the array; bytes past the
    /// array's end are dropped, and the rest of the array is kept.
    pub fn fill(&mut self, content: &[u8])
        requires
            old(self).mem@.len() == MEM_SIZE,
        ensures
            final(self).mem@.len() == MEM_SIZE,
            forall|j: int|
                0 <= j < MEM_SIZE ==> final(self).mem@[j] == (if j < content@.len() {
                    content@[j]
                } else {
                    old(self).mem@[j]
                }),
    {
        let n = if content.len() < MEM_SIZE {
            content.len()
        } else {
            MEM_SIZE
        };
        let mut i: usize = 0;
        while i < n
            invariant
                i <= n,
                n <= content@.len(),
                n <= MEM_SIZE,
                n == (if content@.len() < MEM_SIZE {
                    content@.len() as int
                } else {
                    MEM_SIZE as int
                }),
                self.mem@.len() == MEM_SIZE,
                forall|j: int| 0 <= j < i ==> self.mem@[j] == content@[j],
                forall|j: int| i <= j < MEM_SIZE ==> self.mem@[j] == old(self).mem@[j],
            decreases n - i,
        {
            self.mem.set(i, content[i]);
            i = i + 1;
        }
    }
}

/// A 32K×8 EEPROM: with chip enable and output enable both active (low),
/// the byte at the 15-bit address is driven onto the data outputs;
/// otherwise the outputs are released to `HIGH`.
pub struct AT28C256 {
    pub a: InBus,
    pub o: OutBus,
    pub gnd: In,
    pub ce: In,
    pub oe: In,
    pub we: In,
    pub vcc: In,
    pub state: StateRom,
}

impl AT28C256 {
    pub fn new() -> (r: Self)
        ensures
            r.pins_fit(28),
            in_pins_at(r.a.inputs@, seq![10, 9, 8, 7, 6, 5, 4, 3, 25, 24, 21, 23, 2, 26, 1]),
            out_pins_at(r.o.outputs@, seq![11, 12, 13, 15, 16, 17, 18, 19]),
            r.ce.id == 19,
            r.oe.id == 21,
            r.we.id == 26,
            forall|j: int| 0 <= j < MEM_SIZE ==> r.state.mem@[j] == 0,
    {
        AT28C256 {
            a: InBus::new(
                [10usize, 9, 8, 7, 6, 5, 4, 3, 25, 24, 21, 23, 2, 26, 1].as_slice(),
            ),
            o: OutBus::new([11usize, 12, 13, 15, 16, 17, 18, 19].as_slice()),
            gnd: In::new(14),
            ce: In::new(20),
            oe: In::new(22),
            we: In::new(27),
            vcc: In::new(28),
            state: StateRom::new(),
        }
    }
}

impl Component for AT28C256 {
    open spec fn size(&self) -> nat {
        28
    }

    open spec fn pins_fit(&self, n: nat) -> bool {
        &&& self.a.fits(n)
        &&& self.o.fits(n)
        &&& (self.gnd.id as int) < n
        &&& (self.ce.id as int) < n
        &&& (self.oe.id as int) < n
        &&& (self.we.id as int) < n
        &&& (self.vcc.id as int) < n
        &&& self.a.inputs@.len() == 15
        &&& self.o.outputs@.len() == 8
        &&& self.state.mem@.len() == MEM_SIZE
        &&& forall|i1: int, i2: int|
            0 <= i1 < i2 < 8 ==> (#[trigger] self.o.outputs@[i1]).id
                != (#[trigger] self.o.outputs@[i2]).id
    }

    open spec fn ready(&self, n: nat) -> bool {
        &&& self.pins_fit(n)
        &&& self.a.all_linked()
        &&& self.o.all_linked()
        &&& self.ce.linked
        &&& self.oe.linked
    }

    fn connect(&mut self, bus: &Bus)
        ensures
            final(self).state.mem@ == old(self).state.mem@,
            forall|k: int|
                0 <= k < final(self).a.inputs@.len() ==> (#[trigger] final(self).a.inputs@[k]).id
                    == old(self).a.inputs@[k].id,
            forall|k: int|
                0 <= k < final(self).o.outputs@.len() ==> (#[trigger] final(self).o.outputs@[k]).id
                    == old(self).o.outputs@[k].id,
            final(self).ce.id == old(self).ce.id,
            final(self).oe.id == old(self).oe.id,
    {
        self.a.connect(bus);
        self.o.connect(bus);
        self.ce.connect(bus);
        self.oe.connect(bus);
        self.we.connect(bus);
    }

    /// Reads chip enable; if it is `ONE` the outputs are released to
    /// `HIGH`. Otherwise reads output enable; `ONE` likewise releases the
    /// outputs. With both low the address group is read and the stored
    /// byte at that address is driven onto the outputs. The stored
    /// contents never change.
    fn eval(&mut self, bus: &mut Bus, nets: &NetStore) -> (d: Delay)
        ensures
            *final(self) == *old(self),
            final(bus).read@.len() == old(bus).read@.len(),
            final(bus).output@.len() == old(bus).output@.len(),
            forall|t: int|
                0 <= t < old(bus).output@.len() && !out_span(old(self).o.outputs@, 8, t)
                    ==> final(bus).output@[t] == old(bus).output@[t],
            ({
                let ids = old(bus).ids@;
                let sigs = nets.signals@;
                let ce = old(self).ce.sig(ids, sigs);
                let oe = old(self).oe.sig(ids, sigs);
                if ce == Signal::ONE {
                    &&& d.picoseconds == 20000
                    &&& (forall|g: int|
                        0 <= g < 8 ==> final(bus).output@[(#[trigger] old(
                            self,
                        ).o.outputs@[g]).id as int] == IOAction::IO(Signal::HIGH))
                    &&& (forall|t: int|
                        0 <= t < old(bus).read@.len() ==> final(bus).read@[t] == (if t == old(
                            self,
                        ).ce.id {
                            IOAction::IO(sigs[ids[t] as int])
                        } else {
                            old(bus).read@[t]
                        }))
                } else if oe == Signal::ONE {
                    &&& d.picoseconds == 20000
                    &&& (forall|g: int|
                        0 <= g < 8 ==> final(bus).output@[(#[trigger] old(
                            self,
                        ).o.outputs@[g]).id as int] == IOAction::IO(Signal::HIGH))
                    &&& (forall|t: int|
                        0 <= t < old(bus).read@.len() ==> final(bus).read@[t] == (if t == old(
                            self,
                        ).ce.id || t == old(self).oe.id {
                            IOAction::IO(sigs[ids[t] as int])
                        } else {
                            old(bus).read@[t]
                        }))
                } else {
                    &&& d.picoseconds == 150000
                    &&& (exists|addr: u16|
                        #[trigger] crate::component::word15_of(
                            old(self).a.inputs@,
                            ids,
                            sigs,
                            addr,
                        ) && addr < 32768 && (forall|g: int|
                            0 <= g < 8 ==> final(bus).output@[(#[trigger] old(
                                self,
                            ).o.outputs@[g]).id as int] == IOAction::IO(
                                bit_signal(u8_bit(old(self).state.mem@[addr as int], g as u8)),
                            )))
                    &&& (forall|t: int|
                        0 <= t < old(bus).read@.len() ==> final(bus).read@[t] == (if t == old(
                            self,
                        ).ce.id || t == old(self).oe.id || read_span_in(
                            old(self).a.inputs@,
                            15,
                            t,
                        ) {
                            IOAction::IO(sigs[ids[t] as int])
                        } else {
                            old(bus).read@[t]
                        }))
                }
            }),
    {
        let ce = self.ce.get(bus, nets);
        if crate::bus::signal_eq(ce, Signal::ONE) {
            let ghost out0 = bus.output@;
            self.o.set_high(bus);
            proof {
                lemma_staged_high_out_at(self.o.outputs@, out0, 8);
            }
            return Delay::from_nanos(20);
        }
        let oe = self.oe.get(bus, nets);
        if crate::bus::signal_eq(oe, Signal::ONE) {
            let ghost out0 = bus.output@;
            self.o.set_high(bus);
            proof {
                lemma_staged_high_out_at(self.o.outputs@, out0, 8);
            }
            return Delay::from_nanos(20);
        }
        let addr = self.a.get_u16(bus, nets);
        proof {
            assert(addr < 32768) by {
                crate::bits::lemma_u16_low15(addr);
            }
        }
        let data = self.state.mem[addr as usize];
        let ghost out0 = bus.output@;
        self.o.set_u8(bus, data);
        proof {
            lemma_staged_u8_out_at(self.o.outputs@, data, out0, 8);
            assert(crate::component::word15_of(
                self.a.inputs@,
                old(bus).ids@,
                nets.signals@,
                addr,
            ));
            assert forall|g: int|
                0 <= g < 8 implies bus.output@[(#[trigger] self.o.outputs@[g]).id as int]
                == IOAction::IO(bit_signal(u8_bit(self.state.mem@[addr as int], g as u8))) by {}
        }
        Delay::from_nanos(150)
    }
}

/// The static RAM's writable 32K byte array.
pub struct State {
    pub mem: Vec<u8>,
}

impl State {
    pub fn new() -> (r: Self)
        ensures
            r.mem@.len() == MEM_SIZE,
            forall|j: int| 0 <= j < MEM_SIZE ==> r.mem@[j] == 0,
    {
        let rom = StateRom::new();
        State { mem: rom.mem }
    }
}

/// A 32K×8 static RAM behind a shared bidirectional data bus: with the
/// chip enabled (low), a low write enable stores the byte on the data
/// pins at the 15-bit address, and a low output enable drives the stored
/// byte back out; a disabled chip or output releases the data pins.
pub struct AS6C62256 {
    pub a: InBus,
    pub d: InOutBus,
    pub ce: In,
    pub oe: In,
    pub we: In,
    pub vss: In,
    pub vcc: In,
    pub state: State,
}

/// Each of `pins` sits on its 1-based pin number minus one.
pub open spec fn io_pins_at(pins: Seq<crate::component::InOut>, ids: Seq<int>) -> bool {
    pins.len() == ids.len() && forall|k: int|
        0 <= k < pins.len() ==> (#[trigger] pins[k]).id == ids[k] - 1
}

impl AS6C62256 {
    pub fn new() -> (r: Self)
        ensures
            r.pins_fit(28),
            in_pins_at(r.a.inputs@, seq![10, 9, 8, 7, 6, 5, 4, 3, 25, 24, 21, 23, 2, 26, 1]),
            io_pins_at(r.d.ios@, seq![11, 12, 13, 15, 16, 17, 18, 19]),
            r.ce.id == 19,
            r.oe.id == 21,
            r.we.id == 26,
            forall|j: int| 0 <= j < MEM_SIZE ==> r.state.mem@[j] == 0,
    {
        AS6C62256 {
            a: InBus::new(
                [10usize, 9, 8, 7, 6, 5, 4, 3, 25, 24, 21, 23, 2, 26, 1].as_slice(),
            ),
            d: InOutBus::new([11usize, 12, 13, 15, 16, 17, 18, 19].as_slice()),
            ce: In::new(20),
            oe: In::new(22),
            we: In::new(27),
            vss: In::new(14),
            vcc: In::new(28),
            state: State::new(),
        }
    }
}

impl Component for AS6C62256 {
    open spec fn size(&self) -> nat {
        28
    }

    open spec fn pins_fit(&self, n: nat) -> bool {
        &&& self.a.fits(n)
        &&& self.d.fits(n)
        &&& (self.ce.id as int) < n
        &&& (self.oe.id as int) < n
        &&& (self.we.id as int) < n
        &&& (self.vss.id as int) < n
        &&& (self.vcc.id as int) < n
        &&& self.a.inputs@.len() == 15
        &&& self.d.ios@.len() == 8
        &&& self.state.mem@.len() == MEM_SIZE
        &&& forall|i1: int, i2: int|
            0 <= i1 < i2 < 8 ==> (#[trigger] self.d.ios@[i1]).id
                != (#[trigger] self.d.ios@[i2]).id
    }

    open spec fn ready(&self, n: nat) -> bool {
        &&& self.pins_fit(n)
        &&& self.a.all_linked()
        &&& self.d.all_linked()
        &&& self.ce.linked
        &&& self.oe.linked
        &&& self.we.linked
    }

    fn connect(&mut self, bus: &Bus)
        ensures
            final(self).state.mem@ == old(self).state.mem@,
            forall|k: int|
                0 <= k < final(self).a.inputs@.len() ==> (#[trigger] final(self).a.inputs@[k]).id
                    == old(self).a.inputs@[k].id,
            forall|k: int|
                0 <= k < final(self).d.ios@.len() ==> (#[trigger] final(self).d.ios@[k]).id
                    == old(self).d.ios@[k].id,
            final(self).ce.id == old(self).ce.id,
            final(self).oe.id == old(self).oe.id,
            final(self).we.id == old(self).we.id,
    {
        self.a.connect(bus);
        self.d.connect(bus);
        self.ce.connect(bus);
        self.oe.connect(bus);
        self.we.connect(bus);
    }

    /// Reads chip enable; `ONE` releases the data pins and changes
    /// nothing. Otherwise reads write enable; `ZERO` reads the address
    /// and data groups and stores the byte they carry. Then reads output
    /// enable; `ONE` releases the data pins, anything else reads the
    /// address group and drives the stored byte — as updated by a write
    /// in the same evaluation — onto them.
    #[verifier::rlimit(100)]
    #[verifier::spinoff_prover]
    fn eval(&mut self, bus: &mut Bus, nets: &NetStore) -> (d: Delay)
        ensures
            final(self).a == old(self).a,
            final(self).d == old(self).d,
            final(self).ce == old(self).ce,
            final(self).oe == old(self).oe,
            final(self).we == old(self).we,
            final(self).state.mem@.len() == MEM_SIZE,
            final(bus).read@.len() == old(bus).read@.len(),
            final(bus).output@.len() == old(bus).output@.len(),
            forall|t: int|
                0 <= t < old(bus).output@.len() && !io_span(old(self).d.ios@, 8, t)
                    ==> final(bus).output@[t] == old(bus).output@[t],
            ({
                let ids = old(bus).ids@;
                let sigs = nets.signals@;
                let ce = old(self).ce.sig(ids, sigs);
                let we = old(self).we.sig(ids, sigs);
                let oe = old(self).oe.sig(ids, sigs);
                if ce == Signal::ONE {
                    &&& d.picoseconds == 20000
                    &&& final(self).state.mem@ == old(self).state.mem@
                    &&& (forall|g: int|
                        0 <= g < 8 ==> final(bus).output@[(#[trigger] old(self).d.ios@[g]).id
                            as int] == IOAction::IO(Signal::HIGH))
                    &&& (forall|t: int|
                        0 <= t < old(bus).read@.len() ==> final(bus).read@[t] == (if t == old(
                            self,
                        ).ce.id {
                            IOAction::IO(sigs[ids[t] as int])
                        } else {
                            old(bus).read@[t]
                        }))
                } else {
                    &&& (we == Signal::ZERO ==> exists|addr: u16|
                        #[trigger] crate::component::word15_of(old(self).a.inputs@, ids, sigs, addr)
                            && addr < 32768 && (exists|v: u8|
                            #[trigger] crate::component::byte_of_io(old(self).d.ios@, ids, sigs, v)
                                && final(self).state.mem@ == old(self).state.mem@.update(
                                addr as int,
                                v,
                            )) && (oe != Signal::ONE ==> forall|g: int|
                            0 <= g < 8 ==> final(bus).output@[(#[trigger] old(self).d.ios@[g]).id
                                as int] == IOAction::IO(
                                bit_signal(u8_bit(final(self).state.mem@[addr as int], g as u8)),
                            )))
                    &&& (we != Signal::ZERO ==> final(self).state.mem@ == old(self).state.mem@
                        && (oe != Signal::ONE ==> exists|addr: u16|
                        #[trigger] crate::component::word15_of(old(self).a.inputs@, ids, sigs, addr)
                            && addr < 32768 && (forall|g: int|
                            0 <= g < 8 ==> final(bus).output@[(#[trigger] old(self).d.ios@[g]).id
                                as int] == IOAction::IO(
                                bit_signal(u8_bit(old(self).state.mem@[addr as int], g as u8)),
                            ))))
                    &&& (oe == Signal::ONE ==> forall|g: int|
                        0 <= g < 8 ==> final(bus).output@[(#[trigger] old(self).d.ios@[g]).id
                            as int] == IOAction::IO(Signal::HIGH))
                    &&& d.picoseconds == (if oe == Signal::ONE {
                        20000int
                    } else {
                        55000int
                    })
                    &&& (forall|t: int|
                        0 <= t < old(bus).read@.len() ==> final(bus).read@[t] == (if t == old(
                            self,
                        ).ce.id || t == old(self).we.id || t == old(self).oe.id || ((we
                            == Signal::ZERO || oe != Signal::ONE) && read_span_in(
                            old(self).a.inputs@,
                            15,
                            t,
                        )) || (we == Signal::ZERO && read_span_io(old(self).d.ios@, 8, t)) {
                            IOAction::IO(sigs[ids[t] as int])
                        } else {
                            old(bus).read@[t]
                        }))
                }
            }),
    {
        let ce = self.ce.get(bus, nets);
        if crate::bus::signal_eq(ce, Signal::ONE) {
            let ghost out0 = bus.output@;
            self.d.set_high(bus);
            proof {
                lemma_staged_high_io_at(self.d.ios@, out0, 8);
            }
            return Delay::from_nanos(20);
        }
        let we = self.we.get(bus, nets);
        let wrote = crate::bus::signal_eq(we, Signal::ZERO);
        let ghost mut waddr: u16 = 0;
        if wrote {
            let addr = self.a.get_u16(bus, nets);
            proof {
                assert(addr < 32768) by {
                    crate::bits::lemma_u16_low15(addr);
                }
            }
            let v = self.d.get_u8(bus, nets);
            self.state.mem.set(addr as usize, v);
            proof {
                waddr = addr;
                assert(crate::component::word15_of(
                    self.a.inputs@,
                    old(bus).ids@,
                    nets.signals@,
                    addr,
                ));
                assert(crate::component::byte_of_io(
                    self.d.ios@,
                    old(bus).ids@,
                    nets.signals@,
                    v,
                ));
            }
        }
        let oe = self.oe.get(bus, nets);
        if crate::bus::signal_eq(oe, Signal::ONE) {
            let ghost out0 = bus.output@;
            self.d.set_high(bus);
            proof {
                lemma_staged_high_io_at(self.d.ios@, out0, 8);
            }
            return Delay::from_nanos(20);
        }
        let addr2 = self.a.get_u16(bus, nets);
        proof {
            assert(addr2 < 32768) by {
                crate::bits::lemma_u16_low15(addr2);
            }
            assert(crate::component::word15_of(
                self.a.inputs@,
                old(bus).ids@,
                nets.signals@,
                addr2,
            ));
            if wrote {
                assert forall|i: u16| i < 16 implies crate::bits::u16_bit(waddr, i)
                    == crate::bits::u16_bit(addr2, i) by {}
                crate::bits::lemma_u16_bit_ext(waddr, addr2);
            }
        }
        let data = self.state.mem[addr2 as usize];
        let ghost out0 = bus.output@;
        self.d.set_u8(bus, data);
        proof {
            lemma_staged_u8_io_at(self.d.ios@, data, out0, 8);
        }
        Delay::from_nanos(55)
    }
}

} // verus!
