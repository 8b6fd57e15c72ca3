//! Combinational logic chips: a quad NAND gate, a hex inverter, and a
//! 1-of-8 decoder/demultiplexer.

use vstd::prelude::*;

use crate::bits::{bit_signal, u8_bit};
use crate::bus::{Bus, IOAction, NetStore, Signal};
use crate::component::{
    lemma_staged_u8_out_at, out_span, read_span_in, Component, In, InBus, OutBus,
};
use crate::delay::Delay;

verus! {

/// A quad two-input NAND gate: `y[g] = !(a[g] & b[g])` for each of the
/// four gates.
pub struct SN74LS00N {
    pub a: InBus,
    pub b: InBus,
    pub y: OutBus,
    pub gnd: In,
    pub vcc: In,
}

/// Each of `pins` sits on its 1-based pin number minus one.
pub open spec fn in_pins_at(pins: Seq<In>, ids: Seq<int>) -> bool {
    pins.len() == ids.len() && forall|k: int|
        0 <= k < pins.len() ==> (#[trigger] pins[k]).id == ids[k] - 1
}

/// Each of `pins` sits on its 1-based pin number minus one.
pub open spec fn out_pins_at(pins: Seq<crate::component::Out>, ids: Seq<int>) -> bool {
    pins.len() == ids.len() && forall|k: int|
        0 <= k < pins.len() ==> (#[trigger] pins[k]).id == ids[k] - 1
}

impl SN74LS00N {
    pub fn new() -> (r: Self)
        ensures
            r.pins_fit(14),
            in_pins_at(r.a.inputs@, seq![1, 4, 10, 13]),
            in_pins_at(r.b.inputs@, seq![2, 5, 9, 12]),
            out_pins_at(r.y.outputs@, seq![3, 6, 8, 11]),
    {
        let r = SN74LS00N {
            a: InBus::new([1usize, 4, 10, 13].as_slice()),
            b: InBus::new([2usize, 5, 9, 12].as_slice()),
            y: OutBus::new([3usize, 6, 8, 11].as_slice()),
            gnd: In::new(7),
            vcc: In::new(14),
        };
        r
    }
}

impl Component for SN74LS00N {
    open spec fn size(&self) -> nat {
        14
    }

    open spec fn pins_fit(&self, n: nat) -> bool {
        &&& self.a.fits(n)
        &&& self.b.fits(n)
        &&& self.y.fits(n)
        &&& (self.gnd.id as int) < n
        &&& (self.vcc.id as int) < n
        &&& self.a.inputs@.len() == 4
        &&& self.b.inputs@.len() == 4
        &&& self.y.outputs@.len() == 4
        &&& forall|i1: int, i2: int|
            0 <= i1 < i2 < 4 ==> (#[trigger] self.y.outputs@[i1]).id
                != (#[trigger] self.y.outputs@[i2]).id
    }

    open spec fn ready(&self, n: nat) -> bool {
        &&& self.pins_fit(n)
        &&& self.a.all_linked()
        &&& self.b.all_linked()
        &&& self.y.all_linked()
    }

    fn connect(&mut self, bus: &Bus)
        ensures
            final(self).a.inputs@.len() == old(self).a.inputs@.len(),
            forall|k: int|
                0 <= k < final(self).a.inputs@.len() ==> (#[trigger] final(self).a.inputs@[k]).id
                    == old(self).a.inputs@[k].id,
            forall|k: int|
                0 <= k < final(self).b.inputs@.len() ==> (#[trigger] final(self).b.inputs@[k]).id
                    == old(self).b.inputs@[k].id,
            forall|k: int|
                0 <= k < final(self).y.outputs@.len() ==> (#[trigger] final(self).y.outputs@[k]).id
                    == old(self).y.outputs@[k].id,
    {
        self.a.connect(bus);
        self.b.connect(bus);
        self.y.connect(bus);
    }

    /// Reads both operand groups and stages, on each gate's output pin,
    /// the NAND of the two signals it read; a `HIGH` input counts as a
    /// clear bit. Nothing else on the bus is touched.
    fn eval(&mut self, bus: &mut Bus, nets: &NetStore) -> (d: Delay)
        ensures
            *final(self) == *old(self),
            d.picoseconds == 15000,
            final(bus).read@.len() == old(bus).read@.len(),
            final(bus).output@.len() == old(bus).output@.len(),
            forall|g: int|
                0 <= g < 4 ==> final(bus).output@[(#[trigger] old(self).y.outputs@[g]).id as int]
                    == IOAction::IO(
                    bit_signal(
                        !(old(self).a.inputs@[g].sig(old(bus).ids@, nets.signals@) == Signal::ONE
                            && old(self).b.inputs@[g].sig(old(bus).ids@, nets.signals@)
                            == Signal::ONE),
                    ),
                ),
            forall|t: int|
                0 <= t < old(bus).output@.len() && !out_span(old(self).y.outputs@, 4, t)
                    ==> final(bus).output@[t] == old(bus).output@[t],
            forall|t: int|
                0 <= t < old(bus).read@.len() ==> final(bus).read@[t] == (if read_span_in(
                    old(self).a.inputs@,
                    4,
                    t,
                ) || read_span_in(old(self).b.inputs@, 4, t) {
                    IOAction::IO(nets.signals@[old(bus).ids@[t] as int])
                } else {
                    old(bus).read@[t]
                }),
    {
        let a = self.a.get_u8(bus, nets);
        let b = self.b.get_u8(bus, nets);
        let v = !(a & b);
        let ghost out0 = bus.output@;
        self.y.set_u8(bus, v);
        proof {
            lemma_staged_u8_out_at(self.y.outputs@, v, out0, 4);
            assert forall|g: int|
                0 <= g < 4 implies bus.output@[(#[trigger] self.y.outputs@[g]).id as int]
                == IOAction::IO(
                bit_signal(
                    !(self.a.inputs@[g].sig(old(bus).ids@, nets.signals@) == Signal::ONE
                        && self.b.inputs@[g].sig(old(bus).ids@, nets.signals@) == Signal::ONE),
                ),
            ) by {
                crate::bits::lemma_u8_nand_bit(a, b, g as u8);
            }
        }
        Delay::from_nanos(15)
    }
}

/// A hex inverter: `y[g] = !a[g]` for each of the six gates.
pub struct SN74LS04N {
    pub a: InBus,
    pub y: OutBus,
    pub gnd: In,
    pub vcc: In,
}

impl SN74LS04N {
    pub fn new() -> (r: Self)
        ensures
            r.pins_fit(14),
            in_pins_at(r.a.inputs@, seq![1, 3, 5, 9, 11, 13]),
            out_pins_at(r.y.outputs@, seq![2, 4, 6, 8, 10, 12]),
    {
        SN74LS04N {
            a: InBus::new([1usize, 3, 5, 9, 11, 13].as_slice()),
            y: OutBus::new([2usize, 4, 6, 8, 10, 12].as_slice()),
            gnd: In::new(7),
            vcc: In::new(14),
        }
    }
}

impl Component for SN74LS04N {
    open spec fn size(&self) -> nat {
        14
    }

    open spec fn pins_fit(&self, n: nat) -> bool {
        &&& self.a.fits(n)
        &&& self.y.fits(n)
        &&& (self.gnd.id as int) < n
        &&& (self.vcc.id as int) < n
        &&& self.a.inputs@.len() == 6
        &&& self.y.outputs@.len() == 6
        &&& forall|i1: int, i2: int|
            0 <= i1 < i2 < 6 ==> (#[trigger] self.y.outputs@[i1]).id
                != (#[trigger] self.y.outputs@[i2]).id
    }

    open spec fn ready(&self, n: nat) -> bool {
        &&& self.pins_fit(n)
        &&& self.a.all_linked()
        &&& self.y.all_linked()
    }

    fn connect(&mut self, bus: &Bus)
        ensures
            forall|k: int|
                0 <= k < final(self).a.inputs@.len() ==> (#[trigger] final(self).a.inputs@[k]).id
                    == old(self).a.inputs@[k].id,
            forall|k: int|
                0 <= k < final(self).y.outputs@.len() ==> (#[trigger] final(self).y.outputs@[k]).id
                    == old(self).y.outputs@[k].id,
    {
        self.a.connect(bus);
        self.y.connect(bus);
    }

    /// Reads the six inputs and stages, on each gate's output pin, the
    /// inverse of the signal it read; a `HIGH` input counts as a clear
    /// bit, so its gate drives `ONE`. Nothing else on the bus is touched.
    fn eval(&mut self, bus: &mut Bus, nets: &NetStore) -> (d: Delay)
        ensures
            *final(self) == *old(self),
            d.picoseconds == 22000,
            final(bus).read@.len() == old(bus).read@.len(),
            final(bus).output@.len() == old(bus).output@.len(),
            forall|g: int|
                0 <= g < 6 ==> final(bus).output@[(#[trigger] old(self).y.outputs@[g]).id as int]
                    == IOAction::IO(
                    bit_signal(
                        !(old(self).a.inputs@[g].sig(old(bus).ids@, nets.signals@)
                            == Signal::ONE),
                    ),
                ),
            forall|t: int|
                0 <= t < old(bus).output@.len() && !out_span(old(self).y.outputs@, 6, t)
                    ==> final(bus).output@[t] == old(bus).output@[t],
            forall|t: int|
                0 <= t < old(bus).read@.len() ==> final(bus).read@[t] == (if read_span_in(
                    old(self).a.inputs@,
                    6,
                    t,
                ) {
                    IOAction::IO(nets.signals@[old(bus).ids@[t] as int])
                } else {
                    old(bus).read@[t]
                }),
    {
        let a = self.a.get_u8(bus, nets);
        let v = !a;
        let ghost out0 = bus.output@;
        self.y.set_u8(bus, v);
        proof {
            lemma_staged_u8_out_at(self.y.outputs@, v, out0, 6);
            assert forall|g: int|
                0 <= g < 6 implies bus.output@[(#[trigger] self.y.outputs@[g]).id as int]
                == IOAction::IO(
                bit_signal(!(self.a.inputs@[g].sig(old(bus).ids@, nets.signals@) == Signal::ONE)),
            ) by {
                crate::bits::lemma_u8_not_bit(a, g as u8);
            }
        }
        Delay::from_nanos(22)
    }
}

/// A 1-of-8 decoder/demultiplexer: with the enable pattern `ONE` on the
/// third enable pin and neither of the first two, the output whose index
/// matches the three address bits goes `ONE` and the rest go `ZERO`; any
/// other enable pattern drives all outputs `ZERO`.
pub struct HC138 {
    pub a: InBus,
    pub e: InBus,
    pub y: OutBus,
    pub gnd: In,
    pub vcc: In,
}

impl HC138 {
    pub fn new() -> (r: Self)
        ensures
            r.pins_fit(16),
            in_pins_at(r.a.inputs@, seq![1, 2, 3]),
            in_pins_at(r.e.inputs@, seq![4, 5, 6]),
            out_pins_at(r.y.outputs@, seq![15, 14, 13, 12, 11, 10, 9, 7]),
    {
        HC138 {
            a: InBus::new([1usize, 2, 3].as_slice()),
            e: InBus::new([4usize, 5, 6].as_slice()),
            y: OutBus::new([15usize, 14, 13, 12, 11, 10, 9, 7].as_slice()),
            gnd: In::new(8),
            vcc: In::new(16),
        }
    }
}

impl Component for HC138 {
    open spec fn size(&self) -> nat {
        16
    }

    open spec fn pins_fit(&self, n: nat) -> bool {
        &&& self.a.fits(n)
        &&& self.e.fits(n)
        &&& self.y.fits(n)
        &&& (self.gnd.id as int) < n
        &&& (self.vcc.id as int) < n
        &&& self.a.inputs@.len() == 3
        &&& self.e.inputs@.len() == 3
        &&& self.y.outputs@.len() == 8
        &&& forall|i1: int, i2: int|
            0 <= i1 < i2 < 8 ==> (#[trigger] self.y.outputs@[i1]).id
                != (#[trigger] self.y.outputs@[i2]).id
    }

    open spec fn ready(&self, n: nat) -> bool {
        &&& self.pins_fit(n)
        &&& self.a.all_linked()
        &&& self.e.all_linked()
        &&& self.y.all_linked()
    }

    fn connect(&mut self, bus: &Bus)
        ensures
            forall|k: int|
                0 <= k < final(self).a.inputs@.len() ==> (#[trigger] final(self).a.inputs@[k]).id
                    == old(self).a.inputs@[k].id,
            forall|k: int|
                0 <= k < final(self).e.inputs@.len() ==> (#[trigger] final(self).e.inputs@[k]).id
                    == old(self).e.inputs@[k].id,
            forall|k: int|
                0 <= k < final(self).y.outputs@.len() ==> (#[trigger] final(self).y.outputs@[k]).id
                    == old(self).y.outputs@[k].id,
    {
        self.a.connect(bus);
        self.e.connect(bus);
        self.y.connect(bus);
    }

    /// Reads the enable group; when it carries exactly the pattern that
    /// enables the chip, reads the address group and stages `ONE` on the
    /// output whose index has the address's three bits and `ZERO` on the
    /// other seven; otherwise stages `ZERO` everywhere and leaves the
    /// address unread.
    fn eval(&mut self, bus: &mut Bus, nets: &NetStore) -> (d: Delay)
        ensures
            *final(self) == *old(self),
            d.picoseconds == 53000,
            final(bus).read@.len() == old(bus).read@.len(),
            final(bus).output@.len() == old(bus).output@.len(),
            ({
                let enabled = old(self).e.inputs@[2].sig(old(bus).ids@, nets.signals@)
                    == Signal::ONE && old(self).e.inputs@[0].sig(old(bus).ids@, nets.signals@)
                    != Signal::ONE && old(self).e.inputs@[1].sig(old(bus).ids@, nets.signals@)
                    != Signal::ONE;
                &&& (enabled ==> forall|g: int|
                    0 <= g < 8 ==> final(bus).output@[(#[trigger] old(self).y.outputs@[g]).id
                        as int] == IOAction::IO(
                        bit_signal(
                            crate::bits::u8_bit(g as u8, 0) == (old(self).a.inputs@[0].sig(
                                old(bus).ids@,
                                nets.signals@,
                            ) == Signal::ONE) && crate::bits::u8_bit(g as u8, 1) == (old(
                                self,
                            ).a.inputs@[1].sig(old(bus).ids@, nets.signals@) == Signal::ONE)
                                && crate::bits::u8_bit(g as u8, 2) == (old(self).a.inputs@[2].sig(
                                old(bus).ids@,
                                nets.signals@,
                            ) == Signal::ONE),
                        ),
                    ))
                &&& (!enabled ==> forall|g: int|
                    0 <= g < 8 ==> final(bus).output@[(#[trigger] old(self).y.outputs@[g]).id
                        as int] == IOAction::IO(Signal::ZERO))
                &&& forall|t: int|
                    0 <= t < old(bus).read@.len() ==> final(bus).read@[t] == (if read_span_in(
                        old(self).e.inputs@,
                        3,
                        t,
                    ) || (enabled && read_span_in(old(self).a.inputs@, 3, t)) {
                        IOAction::IO(nets.signals@[old(bus).ids@[t] as int])
                    } else {
                        old(bus).read@[t]
                    })
            }),
            forall|t: int|
                0 <= t < old(bus).output@.len() && !out_span(old(self).y.outputs@, 8, t)
                    ==> final(bus).output@[t] == old(bus).output@[t],
    {
        let enable = self.e.get_u8(bus, nets);
        let ghost out0 = bus.output@;
        if enable != 4 {
            self.y.set_u8(bus, 0);
            proof {
                lemma_staged_u8_out_at(self.y.outputs@, 0u8, out0, 8);
                assert forall|g: int|
                    0 <= g < 8 implies bus.output@[(#[trigger] self.y.outputs@[g]).id as int]
                    == IOAction::IO(Signal::ZERO) by {
                    crate::bits::lemma_u8_zero_bit(g as u8);
                }
                let e0 = self.e.inputs@[0].sig(old(bus).ids@, nets.signals@) == Signal::ONE;
                let e1 = self.e.inputs@[1].sig(old(bus).ids@, nets.signals@) == Signal::ONE;
                let e2 = self.e.inputs@[2].sig(old(bus).ids@, nets.signals@) == Signal::ONE;
                assert(!(e2 && !e0 && !e1)) by {
                    crate::bits::lemma_u8_low3(enable);
                    crate::bits::lemma_u8_eq3(enable, 4u8);
                    assert(crate::bits::u8_bit(4u8, 0) == false && crate::bits::u8_bit(4u8, 1)
                        == false && crate::bits::u8_bit(4u8, 2) == true) by (bit_vector);
                }
            }
            Delay::from_nanos(53)
        } else {
            let addr = self.a.get_u8(bus, nets);
            proof {
                assert(addr < 8) by {
                    crate::bits::lemma_u8_low3(addr);
                }
            }
            let v = 1u8 << addr;
            self.y.set_u8(bus, v);
            proof {
                lemma_staged_u8_out_at(self.y.outputs@, v, out0, 8);
                let e0 = self.e.inputs@[0].sig(old(bus).ids@, nets.signals@) == Signal::ONE;
                let e1 = self.e.inputs@[1].sig(old(bus).ids@, nets.signals@) == Signal::ONE;
                let e2 = self.e.inputs@[2].sig(old(bus).ids@, nets.signals@) == Signal::ONE;
                assert(e2 && !e0 && !e1) by {
                    crate::bits::lemma_u8_eq3(enable, 4u8);
                    assert(crate::bits::u8_bit(4u8, 0) == false && crate::bits::u8_bit(4u8, 1)
                        == false && crate::bits::u8_bit(4u8, 2) == true) by (bit_vector);
                }
                assert forall|g: int|
                    0 <= g < 8 implies bus.output@[(#[trigger] self.y.outputs@[g]).id as int]
                    == IOAction::IO(
                    bit_signal(
                        crate::bits::u8_bit(g as u8, 0) == (self.a.inputs@[0].sig(
                            old(bus).ids@,
                            nets.signals@,
                        ) == Signal::ONE) && crate::bits::u8_bit(g as u8, 1) == (
                        self.a.inputs@[1].sig(old(bus).ids@, nets.signals@) == Signal::ONE)
                            && crate::bits::u8_bit(g as u8, 2) == (self.a.inputs@[2].sig(
                            old(bus).ids@,
                            nets.signals@,
                        ) == Signal::ONE),
                    ),
                ) by {
                    crate::bits::lemma_u8_onehot_bit(addr, g as u8);
                    crate::bits::lemma_u8_eq3(g as u8, addr);
                }
            }
            Delay::from_nanos(53)
        }
    }
}

} // verus!
