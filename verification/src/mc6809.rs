//! An alternative placeholder 6809 processor, wired pin by pin, with a stub
//! core that does nothing yet; its evaluation costs a bare 100 picoseconds.

use vstd::prelude::*;

use crate::bus::{Bus, NetStore};
use crate::component::{Component, In, InOutBus, Out, OutBus};
use crate::delay::Delay;

verus! {

/// A 6809 in a 40-pin package: the full pinout, with a stub core.
pub struct CPU6809 {
    pub vss: In,
    pub nmi: In,
    pub irq: In,
    pub firq: In,
    pub bs: In,
    pub ba: In,
    pub vcc: In,
    pub a: OutBus,
    pub d: InOutBus,
    pub rw: Out,
    pub dma: Out,
    pub e: Out,
    pub q: Out,
    pub mrdy: Out,
    pub reset: In,
    pub extal: In,
    pub xtal: In,
    pub halt: In,
}

impl CPU6809 {
    pub fn new() -> (r: Self)
        ensures
            r.pins_fit(40),
    {
        CPU6809 {
            vss: In::new(1),
            nmi: In::new(2),
            irq: In::new(3),
            firq: In::new(4),
            bs: In::new(5),
            ba: In::new(6),
            vcc: In::new(7),
            a: OutBus::new(
                [8usize, 9, 10, 11, 12, 13, 14, 15, 16, 17, 18, 19, 20, 21, 22, 23].as_slice(),
            ),
            d: InOutBus::new([31usize, 30, 29, 28, 27, 26, 25, 24].as_slice()),
            rw: Out::new(32),
            dma: Out::new(33),
            e: Out::new(34),
            q: Out::new(35),
            mrdy: Out::new(36),
            reset: In::new(37),
            extal: In::new(38),
            xtal: In::new(39),
            halt: In::new(40),
        }
    }
}

impl Component for CPU6809 {
    open spec fn size(&self) -> nat {
        40
    }

    open spec fn pins_fit(&self, n: nat) -> bool {
        &&& (self.vss.id as int) < n
        &&& (self.nmi.id as int) < n
        &&& (self.irq.id as int) < n
        &&& (self.firq.id as int) < n
        &&& (self.bs.id as int) < n
        &&& (self.ba.id as int) < n
        &&& (self.vcc.id as int) < n
        &&& self.a.fits(n)
        &&& self.d.fits(n)
        &&& (self.rw.id as int) < n
        &&& (self.dma.id as int) < n
        &&& (self.e.id as int) < n
        &&& (self.q.id as int) < n
        &&& (self.mrdy.id as int) < n
        &&& (self.reset.id as int) < n
        &&& (self.extal.id as int) < n
        &&& (self.xtal.id as int) < n
        &&& (self.halt.id as int) < n
    }

    open spec fn ready(&self, n: nat) -> bool {
        self.pins_fit(n)
    }

    fn connect(&mut self, bus: &Bus) {
        self.vss.connect(bus);
        self.nmi.connect(bus);
        self.irq.connect(bus);
        self.firq.connect(bus);
        self.bs.connect(bus);
        self.ba.connect(bus);
        self.vcc.connect(bus);
        self.a.connect(bus);
        self.d.connect(bus);
        self.rw.connect(bus);
        self.dma.connect(bus);
        self.e.connect(bus);
        self.q.connect(bus);
        self.mrdy.connect(bus);
        self.reset.connect(bus);
        self.extal.connect(bus);
        self.xtal.connect(bus);
        self.halt.connect(bus);
    }

    /// The stub core: touches neither the bus nor the nets.
    fn eval(&mut self, bus: &mut Bus, nets: &NetStore) -> (d: Delay)
        ensures
            d.picoseconds == 100,
            *final(bus) == *old(bus),
            *final(self) == *old(self),
    {
        Delay::from_picos(100)
    }
}

} // verus!
