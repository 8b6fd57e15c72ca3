//! An output terminal: a write-enabled byte sink that collects every byte
//! strobed into it, for a host to display.

use vstd::prelude::*;

use crate::bus::{Bus, IOAction, NetStore, Signal};
use crate::component::{byte_of_in, read_span_in, Component, In, InBus};
use crate::delay::Delay;
use crate::logics::in_pins_at;

verus! {

/// A byte-wide terminal: when chip enable reads `ZERO` and the write
/// strobe just rose, the byte on the data pins is appended to `received`.
pub struct Terminal {
    pub d: InBus,
    pub we: In,
    pub ce: In,
    pub received: Vec<u8>,
}

impl Terminal {
    pub fn new() -> (r: Self)
        ensures
            r.pins_fit(10),
            in_pins_at(r.d.inputs@, seq![1, 2, 3, 4, 5, 6, 7, 8]),
            r.we.id == 8,
            r.ce.id == 9,
            r.received@.len() == 0,
    {
        Terminal {
            d: InBus::new([1usize, 2, 3, 4, 5, 6, 7, 8].as_slice()),
            we: In::new(9),
            ce: In::new(10),
            received: Vec::new(),
        }
    }
}

impl Component for Terminal {
    open spec fn size(&self) -> nat {
        10
    }

    open spec fn pins_fit(&self, n: nat) -> bool {
        &&& self.d.fits(n)
        &&& (self.we.id as int) < n
        &&& (self.ce.id as int) < n
        &&& self.d.inputs@.len() == 8
    }

    open spec fn ready(&self, n: nat) -> bool {
        &&& self.pins_fit(n)
        &&& self.d.all_linked()
        &&& self.we.linked
        &&& self.ce.linked
    }

    fn connect(&mut self, bus: &Bus)
        ensures
            final(self).received@ == old(self).received@,
            forall|k: int|
                0 <= k < final(self).d.inputs@.len() ==> (#[trigger] final(self).d.inputs@[k]).id
                    == old(self).d.inputs@[k].id,
            final(self).we.id == old(self).we.id,
            final(self).ce.id == old(self).ce.id,
    {
        self.d.connect(bus);
        self.we.connect(bus);
        self.ce.connect(bus);
    }

    /// Reads chip enable; when it is `ZERO`, queries the write strobe's
    /// raised-edge flag, and on a strobe reads the data pins and appends
    /// the byte they carry. Drives nothing.
    fn eval(&mut self, bus: &mut Bus, nets: &NetStore) -> (d: Delay)
        ensures
            d.picoseconds == 40000,
            final(self).d == old(self).d,
            final(self).we == old(self).we,
            final(self).ce == old(self).ce,
            final(bus).output@ == old(bus).output@,
            final(bus).read@.len() == old(bus).read@.len(),
            ({
                let ids = old(bus).ids@;
                let sigs = nets.signals@;
                let ce = old(self).ce.sig(ids, sigs);
                let strobe = nets.raised@[ids[old(self).we.id as int] as int];
                if ce == Signal::ZERO {
                    &&& (strobe ==> exists|v: u8|
                        #[trigger] byte_of_in(old(self).d.inputs@, ids, sigs, v)
                            && final(self).received@ == old(self).received@.push(v))
                    &&& (!strobe ==> final(self).received@ == old(self).received@)
                    &&& (forall|t: int|
                        0 <= t < old(bus).read@.len() ==> final(bus).read@[t]
                            == (if t == old(self).ce.id || t == old(self).we.id || (strobe
                            && read_span_in(
                            old(self).d.inputs@,
                            8,
                            t,
                        )) {
                            IOAction::IO(sigs[ids[t] as int])
                        } else {
                            old(bus).read@[t]
                        }))
                } else {
                    &&& final(self).received@ == old(self).received@
                    &&& (forall|t: int|
                        0 <= t < old(bus).read@.len() ==> final(bus).read@[t]
                            == (if t == old(self).ce.id {
                            IOAction::IO(sigs[ids[t] as int])
                        } else {
                            old(bus).read@[t]
                        }))
                }
            }),
    {
        let ce = self.ce.get(bus, nets);
        if crate::bus::signal_eq(ce, Signal::ZERO) {
            let strobe = self.we.raised(bus, nets);
            if strobe {
                let data = self.d.get_u8(bus, nets);
                self.received.push(data);
                proof {
                    assert(byte_of_in(self.d.inputs@, old(bus).ids@, nets.signals@, data));
                }
            }
        }
        Delay::from_nanos(40)
    }
}

} // verus!
