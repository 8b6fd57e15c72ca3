//! A placeholder 6502 processor: the pinout of the real part with a stub
//! core that only steps its registers.

use vstd::prelude::*;

use crate::bus::{Bus, NetStore};
use crate::component::{Component, In, InBus, InOut, InOutBus, Out, OutBus};
use crate::delay::Delay;

verus! {

/// The stub core's register file.
pub struct State {
    pub pc: u16,
    pub sp: u8,
    pub acc: u8,
    pub x: u8,
    pub y: u8,
    pub ps: u8,
}

impl State {
    pub fn new() -> (r: Self)
        ensures
            r.pc == 0,
            r.sp == 0,
            r.acc == 0,
            r.x == 0,
            r.y == 0,
            r.ps == 0,
    {
        State { pc: 0, sp: 0, acc: 0, x: 0, y: 0, ps: 0 }
    }
}

/// The byte after `v`, wrapping at the top of the range.
pub open spec fn next_u8(v: u8) -> u8 {
    if v == 255 {
        0
    } else {
        (v + 1) as u8
    }
}

/// The word after `v`, wrapping at the top of the range.
pub open spec fn next_u16(v: u16) -> u16 {
    if v == 65535 {
        0
    } else {
        (v + 1) as u16
    }
}

/// A 6502 in a 40-pin package. The bus pins are laid out as on the real
/// part; the core is a stub that advances its registers each evaluation.
pub struct CPU6502 {
    pub vss: InBus,
    pub rdy: In,
    pub phy: InBus,
    pub irq: In,
    pub nc: InBus,
    pub nmi: In,
    pub sync: In,
    pub vcc: In,
    pub a: OutBus,
    pub d: InOutBus,
    pub halt: In,
    pub rw: Out,
    pub s0: In,
    pub rst: In,
    pub state: State,
}

impl CPU6502 {
    pub fn new() -> (r: Self)
        ensures
            r.pins_fit(40),
            r.state.pc == 0,
    {
        CPU6502 {
            vss: InBus::new([1usize, 21].as_slice()),
            rdy: In::new(2),
            phy: InBus::new([37usize, 3, 39].as_slice()),
            irq: In::new(4),
            nc: InBus::new([5usize, 34].as_slice()),
            nmi: In::new(6),
            sync: In::new(7),
            vcc: In::new(8),
            a: OutBus::new(
                [9usize, 10, 11, 12, 13, 14, 15, 16, 17, 18, 19, 20, 22, 23, 24, 25].as_slice(),
            ),
            d: InOutBus::new([33usize, 32, 31, 30, 29, 28, 27, 26].as_slice()),
            halt: In::new(35),
            rw: Out::new(36),
            s0: In::new(38),
            rst: In::new(40),
            state: State::new(),
        }
    }
}

impl Component for CPU6502 {
    open spec fn size(&self) -> nat {
        40
    }

    open spec fn pins_fit(&self, n: nat) -> bool {
        &&& self.vss.fits(n)
        &&& (self.rdy.id as int) < n
        &&& self.phy.fits(n)
        &&& (self.irq.id as int) < n
        &&& self.nc.fits(n)
        &&& (self.nmi.id as int) < n
        &&& (self.sync.id as int) < n
        &&& (self.vcc.id as int) < n
        &&& self.a.fits(n)
        &&& self.d.fits(n)
        &&& (self.halt.id as int) < n
        &&& (self.rw.id as int) < n
        &&& (self.s0.id as int) < n
        &&& (self.rst.id as int) < n
    }

    open spec fn ready(&self, n: nat) -> bool {
        self.pins_fit(n)
    }

    fn connect(&mut self, bus: &Bus)
        ensures
            final(self).state == old(self).state,
    {
        self.vss.connect(bus);
        self.rdy.connect(bus);
        self.phy.connect(bus);
        self.irq.connect(bus);
        self.nc.connect(bus);
        self.nmi.connect(bus);
        self.sync.connect(bus);
        self.vcc.connect(bus);
        self.a.connect(bus);
        self.d.connect(bus);
        self.halt.connect(bus);
        self.rw.connect(bus);
        self.s0.connect(bus);
        self.rst.connect(bus);
    }

    /// The stub core: advances every register by one, wrapping, and
    /// touches neither the bus nor the nets.
    fn eval(&mut self, bus: &mut Bus, nets: &NetStore) -> (d: Delay)
        ensures
            d.picoseconds == 1_000_000,
            *final(bus) == *old(bus),
            final(self).state.pc == next_u16(old(self).state.pc),
            final(self).state.sp == next_u8(old(self).state.sp),
            final(self).state.acc == next_u8(old(self).state.acc),
            final(self).state.x == next_u8(old(self).state.x),
            final(self).state.y == next_u8(old(self).state.y),
            final(self).state.ps == next_u8(old(self).state.ps),
    {
        self.state.acc = if self.state.acc == 255 {
            0
        } else {
            self.state.acc + 1
        };
        self.state.pc = if self.state.pc == 65535 {
            0
        } else {
            self.state.pc + 1
        };
        self.state.x = if self.state.x == 255 {
            0
        } else {
            self.state.x + 1
        };
        self.state.y = if self.state.y == 255 {
            0
        } else {
            self.state.y + 1
        };
        self.state.sp = if self.state.sp == 255 {
            0
        } else {
            self.state.sp + 1
        };
        self.state.ps = if self.state.ps == 255 {
            0
        } else {
            self.state.ps + 1
        };
        Delay::from_micros(1)
    }
}

} // verus!
