//! A quad level-triggered latch: two control lines each gate a pair of
//! data lines. While a control line is `ONE` its pair is transparent and
//! memorized; while it is not, the pair holds the memorized values.

use vstd::prelude::*;

use crate::bus::{Bus, IOAction, NetStore, Signal};
use crate::component::{Component, In, InBus, OutBus};
use crate::delay::Delay;
use crate::logics::{in_pins_at, out_pins_at};

verus! {

/// The latch's memory: one remembered signal per data line.
pub struct State {
    pub mem: Vec<Signal>,
}

impl State {
    pub fn new() -> (r: Self)
        ensures
            r.mem@.len() == 4,
            forall|k: int| 0 <= k < 4 ==> r.mem@[k] == Signal::ZERO,
    {
        let mut mem: Vec<Signal> = Vec::new();
        mem.push(Signal::ZERO);
        mem.push(Signal::ZERO);
        mem.push(Signal::ZERO);
        mem.push(Signal::ZERO);
        State { mem }
    }
}

/// A quad bistable latch. Control line 0 gates data lines 0 and 1;
/// control line 1 gates data lines 2 and 3.
pub struct SN74LS77 {
    pub d: InBus,
    pub c: InBus,
    pub q: OutBus,
    pub vcc: In,
    pub gnd: In,
    pub nc: InBus,
    pub state: State,
}

impl SN74LS77 {
    pub fn new() -> (r: Self)
        ensures
            r.pins_fit(14),
            in_pins_at(r.d.inputs@, seq![1, 2, 5, 6]),
            in_pins_at(r.c.inputs@, seq![12, 3]),
            out_pins_at(r.q.outputs@, seq![14, 13, 9, 8]),
            forall|k: int| 0 <= k < 4 ==> r.state.mem@[k] == Signal::ZERO,
    {
        SN74LS77 {
            d: InBus::new([1usize, 2, 5, 6].as_slice()),
            c: InBus::new([12usize, 3].as_slice()),
            q: OutBus::new([14usize, 13, 9, 8].as_slice()),
            vcc: In::new(4),
            gnd: In::new(11),
            nc: InBus::new([7usize, 10].as_slice()),
            state: State::new(),
        }
    }
}

impl Component for SN74LS77 {
    open spec fn size(&self) -> nat {
        14
    }

    open spec fn pins_fit(&self, n: nat) -> bool {
        &&& self.d.fits(n)
        &&& self.c.fits(n)
        &&& self.q.fits(n)
        &&& (self.vcc.id as int) < n
        &&& (self.gnd.id as int) < n
        &&& self.nc.fits(n)
        &&& self.d.inputs@.len() == 4
        &&& self.c.inputs@.len() == 2
        &&& self.q.outputs@.len() == 4
        &&& self.state.mem@.len() == 4
        &&& forall|i1: int, i2: int|
            0 <= i1 < i2 < 4 ==> (#[trigger] self.q.outputs@[i1]).id
                != (#[trigger] self.q.outputs@[i2]).id
    }

    open spec fn ready(&self, n: nat) -> bool {
        &&& self.pins_fit(n)
        &&& self.d.all_linked()
        &&& self.c.all_linked()
        &&& self.q.all_linked()
    }

    fn connect(&mut self, bus: &Bus)
        ensures
            final(self).state.mem@ == old(self).state.mem@,
            forall|k: int|
                0 <= k < final(self).d.inputs@.len() ==> (#[trigger] final(self).d.inputs@[k]).id
                    == old(self).d.inputs@[k].id,
            forall|k: int|
                0 <= k < final(self).c.inputs@.len() ==> (#[trigger] final(self).c.inputs@[k]).id
                    == old(self).c.inputs@[k].id,
            forall|k: int|
                0 <= k < final(self).q.outputs@.len() ==> (#[trigger] final(self).q.outputs@[k]).id
                    == old(self).q.outputs@[k].id,
    {
        self.d.connect(bus);
        self.c.connect(bus);
        self.q.connect(bus);
    }

    /// Reads both control lines. For a pair whose control reads `ONE`, the
    /// pair's data lines are read, driven through to the pair's outputs,
    /// and memorized; for a pair whose control does not, the remembered
    /// values are driven and the data lines stay unread.
    fn eval(&mut self, bus: &mut Bus, nets: &NetStore) -> (d: Delay)
        ensures
            d.picoseconds == 40000,
            final(self).d == old(self).d,
            final(self).c == old(self).c,
            final(self).q == old(self).q,
            final(self).state.mem@.len() == 4,
            final(bus).read@.len() == old(bus).read@.len(),
            final(bus).output@.len() == old(bus).output@.len(),
            ({
                let ids = old(bus).ids@;
                let sigs = nets.signals@;
                let c0 = old(self).c.inputs@[0].sig(ids, sigs) == Signal::ONE;
                let c1 = old(self).c.inputs@[1].sig(ids, sigs) == Signal::ONE;
                let d0 = old(self).d.inputs@[0].sig(ids, sigs);
                let d1 = old(self).d.inputs@[1].sig(ids, sigs);
                let d2 = old(self).d.inputs@[2].sig(ids, sigs);
                let d3 = old(self).d.inputs@[3].sig(ids, sigs);
                let m = old(self).state.mem@;
                &&& final(self).state.mem@[0] == (if c0 {
                    d0
                } else {
                    m[0]
                })
                &&& final(self).state.mem@[1] == (if c0 {
                    d1
                } else {
                    m[1]
                })
                &&& final(self).state.mem@[2] == (if c1 {
                    d2
                } else {
                    m[2]
                })
                &&& final(self).state.mem@[3] == (if c1 {
                    d3
                } else {
                    m[3]
                })
                &&& forall|g: int|
                    0 <= g < 4 ==> final(bus).output@[(#[trigger] old(self).q.outputs@[g]).id
                        as int] == IOAction::IO(final(self).state.mem@[g])
                &&& forall|t: int|
                    0 <= t < old(bus).read@.len() ==> final(bus).read@[t] == (if (t == old(
                        self,
                    ).c.inputs@[0].id || t == old(self).c.inputs@[1].id || (c0 && (t == old(
                        self,
                    ).d.inputs@[0].id || t == old(self).d.inputs@[1].id)) || (c1 && (t == old(
                        self,
                    ).d.inputs@[2].id || t == old(self).d.inputs@[3].id))) {
                        IOAction::IO(sigs[ids[t] as int])
                    } else {
                        old(bus).read@[t]
                    })
            }),
            forall|t: int|
                0 <= t < old(bus).output@.len() && !crate::component::out_span(
                    old(self).q.outputs@,
                    4,
                    t,
                ) ==> final(bus).output@[t] == old(bus).output@[t],
    {
        let c0 = self.c.get(bus, nets, 0);
        if crate::bus::signal_eq(c0, Signal::ONE) {
            let d0 = self.d.get(bus, nets, 0);
            let d1 = self.d.get(bus, nets, 1);
            self.q.set(bus, 0, d0);
            self.q.set(bus, 1, d1);
            self.state.mem.set(0, d0);
            self.state.mem.set(1, d1);
        } else {
            let m0 = self.state.mem[0];
            let m1 = self.state.mem[1];
            self.q.set(bus, 0, m0);
            self.q.set(bus, 1, m1);
        }
        let c1 = self.c.get(bus, nets, 1);
        if crate::bus::signal_eq(c1, Signal::ONE) {
            let d2 = self.d.get(bus, nets, 2);
            let d3 = self.d.get(bus, nets, 3);
            self.q.set(bus, 2, d2);
            self.q.set(bus, 3, d3);
            self.state.mem.set(2, d2);
            self.state.mem.set(3, d3);
        } else {
            let m2 = self.state.mem[2];
            let m3 = self.state.mem[3];
            self.q.set(bus, 2, m2);
            self.q.set(bus, 3, m3);
        }
        Delay::from_nanos(40)
    }
}

} // verus!
