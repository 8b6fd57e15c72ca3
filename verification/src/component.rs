//! The uniform component contract and the typed pin wrappers through which
//! a chip model reads and drives its bus.
//!
//! Pin identifiers handed to wrapper constructors are 1-based, matching
//! datasheet pinouts; the offset to the 0-based bus index is applied exactly
//! once, at wrapper construction.

use vstd::prelude::*;

use crate::bus::{Bus, IOAction, NetStore, Signal};
use crate::delay::Delay;

verus! {

/// The contract every pluggable component implements: a one-time hookup to
/// its bus, and an evaluation that reads inputs, stages outputs and returns
/// the component's propagation delay.
pub trait Component: Sized {
    /// The pin count of the socket this component expects.
    spec fn size(&self) -> nat;

    /// Every pin wrapper points inside a bus of `n` pins.
    spec fn pins_fit(&self, n: nat) -> bool;

    /// The component is hooked up: its pins fit the bus and are connected.
    spec fn ready(&self, n: nat) -> bool;

    /// Called once at plug time, with the bus the component will keep using.
    fn connect(&mut self, bus: &Bus)
        requires
            old(self).pins_fit(bus.pin_count()),
        ensures
            final(self).size() == old(self).size(),
            final(self).ready(bus.pin_count()),
    ;

    /// One evaluation. Must interact with the nets only through `bus`.
    fn eval(&mut self, bus: &mut Bus, nets: &NetStore) -> (d: Delay)
        requires
            old(self).ready(old(bus).pin_count()),
            old(bus).wf(),
            old(bus).nets_compat(nets),
            nets.wf(),
        ensures
            final(self).size() == old(self).size(),
            final(self).ready(old(bus).pin_count()),
            final(bus).wf(),
            final(bus).ids@ == old(bus).ids@,
    ;
}

/// A single input pin.
#[derive(PartialEq, Eq, Structural, Debug, Copy, Clone)]
pub struct In {
    pub id: usize,
    pub linked: bool,
}

/// A single output pin.
#[derive(PartialEq, Eq, Structural, Debug, Copy, Clone)]
pub struct Out {
    pub id: usize,
    pub linked: bool,
}

/// A single bidirectional pin.
#[derive(PartialEq, Eq, Structural, Debug, Copy, Clone)]
pub struct InOut {
    pub id: usize,
    pub linked: bool,
}

impl In {
    /// The value this pin reads from `signals`: its net's value once
    /// connected, `HIGH` before.
    pub open spec fn sig(&self, ids: Seq<usize>, signals: Seq<Signal>) -> Signal {
        if self.linked {
            signals[ids[self.id as int] as int]
        } else {
            Signal::HIGH
        }
    }

    pub fn new(id: usize) -> (r: Self)
        requires
            id >= 1,
        ensures
            r.id == id - 1,
            !r.linked,
    {
        Self { id: id - 1, linked: false }
    }

    /// Reads the pin's net, recording the observation; an unconnected pin
    /// reads `HIGH` and records nothing.
    pub fn get(&self, bus: &mut Bus, nets: &NetStore) -> (r: Signal)
        requires
            old(bus).wf(),
            old(bus).nets_compat(nets),
            self.linked ==> (self.id as int) < old(bus).pin_count(),
        ensures
            final(bus).wf(),
            final(bus).ids@ == old(bus).ids@,
            final(bus).output@ == old(bus).output@,
            r == self.sig(old(bus).ids@, nets.signals@),
            self.linked ==> final(bus).read@ == old(bus).read@.update(
                self.id as int,
                IOAction::IO(r),
            ),
            !self.linked ==> final(bus).read@ == old(bus).read@,
    {
        if self.linked {
            bus.get(nets, self.id)
        } else {
            Signal::HIGH
        }
    }

    /// Queries the raised-edge flag of the pin's net; the query counts as a
    /// read of the net's current value.
    pub fn raised(&self, bus: &mut Bus, nets: &NetStore) -> (r: bool)
        requires
            old(bus).wf(),
            old(bus).nets_compat(nets),
            nets.wf(),
            self.linked ==> (self.id as int) < old(bus).pin_count(),
        ensures
            final(bus).wf(),
            final(bus).ids@ == old(bus).ids@,
            final(bus).output@ == old(bus).output@,
            r == (self.linked && nets.raised@[old(bus).ids@[self.id as int] as int]),
            self.linked ==> final(bus).read@ == old(bus).read@.update(
                self.id as int,
                IOAction::IO(self.sig(old(bus).ids@, nets.signals@)),
            ),
            !self.linked ==> final(bus).read@ == old(bus).read@,
    {
        if self.linked {
            bus.raised(nets, self.id)
        } else {
            false
        }
    }

    /// One-time hookup to the component's bus.
    pub fn connect(&mut self, bus: &Bus)
        requires
            (old(self).id as int) < bus.pin_count(),
        ensures
            final(self).id == old(self).id,
            final(self).linked,
    {
        self.linked = true;
    }
}

impl Out {
    pub fn new(id: usize) -> (r: Self)
        requires
            id >= 1,
        ensures
            r.id == id - 1,
            !r.linked,
    {
        Self { id: id - 1, linked: false }
    }

    /// Stages a write of `signal` to this pin; an unconnected pin stages
    /// nothing.
    pub fn set(&mut self, bus: &mut Bus, signal: Signal)
        requires
            old(bus).wf(),
            old(self).linked ==> (old(self).id as int) < old(bus).pin_count(),
        ensures
            *final(self) == *old(self),
            final(bus).wf(),
            final(bus).ids@ == old(bus).ids@,
            final(bus).read@ == old(bus).read@,
            old(self).linked ==> final(bus).output@ == old(bus).output@.update(
                old(self).id as int,
                IOAction::IO(signal),
            ),
            !old(self).linked ==> final(bus).output@ == old(bus).output@,
    {
        if self.linked {
            bus.set(self.id, signal);
        }
    }

    /// One-time hookup to the component's bus.
    pub fn connect(&mut self, bus: &Bus)
        requires
            (old(self).id as int) < bus.pin_count(),
        ensures
            final(self).id == old(self).id,
            final(self).linked,
    {
        self.linked = true;
    }
}

impl InOut {
    /// The value this pin reads from `signals`: its net's value once
    /// connected, `HIGH` before.
    pub open spec fn sig(&self, ids: Seq<usize>, signals: Seq<Signal>) -> Signal {
        if self.linked {
            signals[ids[self.id as int] as int]
        } else {
            Signal::HIGH
        }
    }

    pub fn new(id: usize) -> (r: Self)
        requires
            id >= 1,
        ensures
            r.id == id - 1,
            !r.linked,
    {
        Self { id: id - 1, linked: false }
    }

    /// Reads the pin's net, recording the observation; an unconnected pin
    /// reads `HIGH` and records nothing.
    pub fn get(&self, bus: &mut Bus, nets: &NetStore) -> (r: Signal)
        requires
            old(bus).wf(),
            old(bus).nets_compat(nets),
            self.linked ==> (self.id as int) < old(bus).pin_count(),
        ensures
            final(bus).wf(),
            final(bus).ids@ == old(bus).ids@,
            final(bus).output@ == old(bus).output@,
            r == self.sig(old(bus).ids@, nets.signals@),
            self.linked ==> final(bus).read@ == old(bus).read@.update(
                self.id as int,
                IOAction::IO(r),
            ),
            !self.linked ==> final(bus).read@ == old(bus).read@,
    {
        if self.linked {
            bus.get(nets, self.id)
        } else {
            Signal::HIGH
        }
    }

    /// Queries the raised-edge flag of the pin's net; the query counts as a
    /// read of the net's current value.
    pub fn raised(&self, bus: &mut Bus, nets: &NetStore) -> (r: bool)
        requires
            old(bus).wf(),
            old(bus).nets_compat(nets),
            nets.wf(),
            self.linked ==> (self.id as int) < old(bus).pin_count(),
        ensures
            final(bus).wf(),
            final(bus).ids@ == old(bus).ids@,
            final(bus).output@ == old(bus).output@,
            r == (self.linked && nets.raised@[old(bus).ids@[self.id as int] as int]),
            self.linked ==> final(bus).read@ == old(bus).read@.update(
                self.id as int,
                IOAction::IO(self.sig(old(bus).ids@, nets.signals@)),
            ),
            !self.linked ==> final(bus).read@ == old(bus).read@,
    {
        if self.linked {
            bus.raised(nets, self.id)
        } else {
            false
        }
    }

    /// Stages a write of `signal` to this pin; an unconnected pin stages
    /// nothing.
    pub fn set(&mut self, bus: &mut Bus, signal: Signal)
        requires
            old(bus).wf(),
            old(self).linked ==> (old(self).id as int) < old(bus).pin_count(),
        ensures
            *final(self) == *old(self),
            final(bus).wf(),
            final(bus).ids@ == old(bus).ids@,
            final(bus).read@ == old(bus).read@,
            old(self).linked ==> final(bus).output@ == old(bus).output@.update(
                old(self).id as int,
                IOAction::IO(signal),
            ),
            !old(self).linked ==> final(bus).output@ == old(bus).output@,
    {
        if self.linked {
            bus.set(self.id, signal);
        }
    }

    /// One-time hookup to the component's bus.
    pub fn connect(&mut self, bus: &Bus)
        requires
            (old(self).id as int) < bus.pin_count(),
        ensures
            final(self).id == old(self).id,
            final(self).linked,
    {
        self.linked = true;
    }
}

/// A little-endian group of input pins.
pub struct InBus {
    pub inputs: Vec<In>,
}

/// A little-endian group of output pins.
pub struct OutBus {
    pub outputs: Vec<Out>,
}

/// A little-endian group of bidirectional pins.
pub struct InOutBus {
    pub ios: Vec<InOut>,
}

/// Some pin among the first `k` is connected and bound to bus slot `t`.
pub open spec fn read_span_in(pins: Seq<In>, k: int, t: int) -> bool {
    exists|i: int| 0 <= i < k && (#[trigger] pins[i]).linked && pins[i].id == t
}

/// Some pin among the first `k` is connected and bound to bus slot `t`.
pub open spec fn read_span_io(pins: Seq<InOut>, k: int, t: int) -> bool {
    exists|i: int| 0 <= i < k && (#[trigger] pins[i]).linked && pins[i].id == t
}

proof fn lemma_read_span_in_step(pins: Seq<In>, k: int, t: int)
    requires
        0 <= k < pins.len(),
    ensures
        read_span_in(pins, k + 1, t) == (read_span_in(pins, k, t) || (pins[k].linked && pins[k].id
            == t)),
{
    if read_span_in(pins, k + 1, t) {
        let i = choose|i: int| 0 <= i < k + 1 && (#[trigger] pins[i]).linked && pins[i].id == t;
        if i < k {
            assert(read_span_in(pins, k, t));
        }
    }
    if read_span_in(pins, k, t) {
        let i = choose|i: int| 0 <= i < k && (#[trigger] pins[i]).linked && pins[i].id == t;
        assert(0 <= i < k + 1 && pins[i].linked && pins[i].id == t);
    }
    if pins[k].linked && pins[k].id == t {
        assert(0 <= k < k + 1 && pins[k].linked && pins[k].id == t);
    }
}

proof fn lemma_read_span_io_step(pins: Seq<InOut>, k: int, t: int)
    requires
        0 <= k < pins.len(),
    ensures
        read_span_io(pins, k + 1, t) == (read_span_io(pins, k, t) || (pins[k].linked && pins[k].id
            == t)),
{
    if read_span_io(pins, k + 1, t) {
        let i = choose|i: int| 0 <= i < k + 1 && (#[trigger] pins[i]).linked && pins[i].id == t;
        if i < k {
            assert(read_span_io(pins, k, t));
        }
    }
    if read_span_io(pins, k, t) {
        let i = choose|i: int| 0 <= i < k && (#[trigger] pins[i]).linked && pins[i].id == t;
        assert(0 <= i < k + 1 && pins[i].linked && pins[i].id == t);
    }
    if pins[k].linked && pins[k].id == t {
        assert(0 <= k < k + 1 && pins[k].linked && pins[k].id == t);
    }
}

/// The staged outputs after the first `k` output pins each drive the
/// matching bit of `data`, in pin order.
pub open spec fn staged_u8_out(pins: Seq<Out>, data: u8, out0: Seq<IOAction>, k: int) -> Seq<
    IOAction,
>
    decreases k,
{
    if k <= 0 {
        out0
    } else {
        let prev = staged_u8_out(pins, data, out0, k - 1);
        if pins[k - 1].linked {
            prev.update(
                pins[k - 1].id as int,
                IOAction::IO(crate::bits::bit_signal(crate::bits::u8_bit(data, (k - 1) as u8))),
            )
        } else {
            prev
        }
    }
}

/// The staged outputs after the first `k` output pins each drive the
/// matching bit of `data`, in pin order.
pub open spec fn staged_u16_out(pins: Seq<Out>, data: u16, out0: Seq<IOAction>, k: int) -> Seq<
    IOAction,
>
    decreases k,
{
    if k <= 0 {
        out0
    } else {
        let prev = staged_u16_out(pins, data, out0, k - 1);
        if pins[k - 1].linked {
            prev.update(
                pins[k - 1].id as int,
                IOAction::IO(crate::bits::bit_signal(crate::bits::u16_bit(data, (k - 1) as u16))),
            )
        } else {
            prev
        }
    }
}

/// The staged outputs after the first `k` output pins each drive `HIGH`.
pub open spec fn staged_high_out(pins: Seq<Out>, out0: Seq<IOAction>, k: int) -> Seq<IOAction>
    decreases k,
{
    if k <= 0 {
        out0
    } else {
        let prev = staged_high_out(pins, out0, k - 1);
        if pins[k - 1].linked {
            prev.update(pins[k - 1].id as int, IOAction::IO(Signal::HIGH))
        } else {
            prev
        }
    }
}

/// The staged outputs after the first `k` bidirectional pins each drive the
/// matching bit of `data`, in pin order.
pub open spec fn staged_u8_io(pins: Seq<InOut>, data: u8, out0: Seq<IOAction>, k: int) -> Seq<
    IOAction,
>
    decreases k,
{
    if k <= 0 {
        out0
    } else {
        let prev = staged_u8_io(pins, data, out0, k - 1);
        if pins[k - 1].linked {
            prev.update(
                pins[k - 1].id as int,
                IOAction::IO(crate::bits::bit_signal(crate::bits::u8_bit(data, (k - 1) as u8))),
            )
        } else {
            prev
        }
    }
}

/// The staged outputs after the first `k` bidirectional pins each drive
/// `HIGH`.
pub open spec fn staged_high_io(pins: Seq<InOut>, out0: Seq<IOAction>, k: int) -> Seq<IOAction>
    decreases k,
{
    if k <= 0 {
        out0
    } else {
        let prev = staged_high_io(pins, out0, k - 1);
        if pins[k - 1].linked {
            prev.update(pins[k - 1].id as int, IOAction::IO(Signal::HIGH))
        } else {
            prev
        }
    }
}

impl InBus {
    /// Every pin points inside a bus of `n` pins.
    pub open spec fn fits(&self, n: nat) -> bool {
        forall|i: int|
            0 <= i < self.inputs@.len() ==> ((#[trigger] self.inputs@[i]).id as int) < n
    }

    /// Every pin has been connected.
    pub open spec fn all_linked(&self) -> bool {
        forall|i: int| 0 <= i < self.inputs@.len() ==> (#[trigger] self.inputs@[i]).linked
    }

    pub fn new(ids: &[usize]) -> (r: Self)
        requires
            forall|k: int| 0 <= k < ids@.len() ==> #[trigger] ids@[k] >= 1,
        ensures
            r.inputs@.len() == ids@.len(),
            forall|k: int|
                0 <= k < ids@.len() ==> (#[trigger] r.inputs@[k]).id == ids@[k] - 1
                    && !r.inputs@[k].linked,
    {
        let n = ids.len();
        let mut inputs: Vec<In> = Vec::new();
        let mut i: usize = 0;
        while i < n
            invariant
                i <= n,
                n == ids@.len(),
                inputs@.len() == i,
                forall|k: int| 0 <= k < ids@.len() ==> #[trigger] ids@[k] >= 1,
                forall|k: int|
                    0 <= k < i ==> (#[trigger] inputs@[k]).id == ids@[k] - 1
                        && !inputs@[k].linked,
            decreases n - i,
        {
            inputs.push(In::new(ids[i]));
            i = i + 1;
        }
        Self { inputs }
    }

    /// Reads pin `id` of the group.
    pub fn get(&self, bus: &mut Bus, nets: &NetStore, id: usize) -> (r: Signal)
        requires
            old(bus).wf(),
            old(bus).nets_compat(nets),
            id < self.inputs@.len(),
            self.fits(old(bus).pin_count()),
        ensures
            final(bus).wf(),
            final(bus).ids@ == old(bus).ids@,
            final(bus).output@ == old(bus).output@,
            r == self.inputs@[id as int].sig(old(bus).ids@, nets.signals@),
            self.inputs@[id as int].linked ==> final(bus).read@ == old(bus).read@.update(
                self.inputs@[id as int].id as int,
                IOAction::IO(r),
            ),
            !self.inputs@[id as int].linked ==> final(bus).read@ == old(bus).read@,
    {
        let pin = self.inputs[id];
        pin.get(bus, nets)
    }

    /// Decodes the group as a little-endian unsigned byte: bit `j` of the
    /// result is set exactly when the `j`-th pin reads `ONE`. Pins beyond
    /// the eighth, and bits beyond the group's width, are zero. Every pin
    /// read is recorded.
    pub fn get_u8(&self, bus: &mut Bus, nets: &NetStore) -> (r: u8)
        requires
            old(bus).wf(),
            old(bus).nets_compat(nets),
            self.fits(old(bus).pin_count()),
        ensures
            final(bus).wf(),
            final(bus).ids@ == old(bus).ids@,
            final(bus).output@ == old(bus).output@,
            final(bus).read@.len() == old(bus).read@.len(),
            forall|j: u8|
                j < 8 ==> crate::bits::u8_bit(r, j) == ((j as int) < self.inputs@.len()
                    && self.inputs@[j as int].sig(old(bus).ids@, nets.signals@) == Signal::ONE),
            forall|t: int|
                0 <= t < old(bus).read@.len() ==> final(bus).read@[t] == (if read_span_in(
                    self.inputs@,
                    if self.inputs@.len() < 8 {
                        self.inputs@.len() as int
                    } else {
                        8
                    },
                    t,
                ) {
                    IOAction::IO(nets.signals@[old(bus).ids@[t] as int])
                } else {
                    old(bus).read@[t]
                }),
    {
        let ghost ids0 = bus.ids@;
        let ghost read0 = bus.read@;
        let ghost out0 = bus.output@;
        let len = self.inputs.len();
        let mut res: u8 = 0;
        let mut i: usize = 0;
        proof {
            assert forall|j: u8| j < 8 implies !crate::bits::u8_bit(0u8, j) by {
                crate::bits::lemma_u8_zero_bit(j);
            }
        }
        while i < 8 && i < len
            invariant
                i <= 8,
                i <= len,
                len == self.inputs@.len(),
                bus.wf(),
                bus.nets_compat(nets),
                self.fits(bus.pin_count()),
                bus.ids@ == ids0,
                bus.output@ == out0,
                bus.read@.len() == read0.len(),
                forall|j: u8|
                    j < 8 ==> crate::bits::u8_bit(res, j) == ((j as int) < i
                        && self.inputs@[j as int].sig(ids0, nets.signals@) == Signal::ONE),
                forall|t: int|
                    0 <= t < read0.len() ==> bus.read@[t] == (if read_span_in(
                        self.inputs@,
                        i as int,
                        t,
                    ) {
                        IOAction::IO(nets.signals@[ids0[t] as int])
                    } else {
                        read0[t]
                    }),
            decreases 8 - i,
        {
            let ghost pre_read = bus.read@;
            let ghost pre_res = res;
            let pin = self.inputs[i];
            let s = pin.get(bus, nets);
            if signal_one(s) {
                res = res | (1u8 << (i as u8));
            }
            proof {
                assert forall|j: u8| j < 8 implies crate::bits::u8_bit(res, j) == ((j as int) < i
                    + 1 && self.inputs@[j as int].sig(ids0, nets.signals@) == Signal::ONE) by {
                    if s == Signal::ONE {
                        crate::bits::lemma_u8_or_bit(pre_res, i as u8, j);
                    }
                }
                assert forall|t: int| 0 <= t < read0.len() implies bus.read@[t] == (
                if read_span_in(self.inputs@, i as int + 1, t) {
                    IOAction::IO(nets.signals@[ids0[t] as int])
                } else {
                    read0[t]
                }) by {
                    lemma_read_span_in_step(self.inputs@, i as int, t);
                    if pin.linked && pin.id == t {
                        assert(bus.read@[t] == IOAction::IO(s));
                    } else {
                        assert(bus.read@[t] == pre_read[t]);
                    }
                }
            }
            i = i + 1;
        }
        proof {
            if i < 8 {
                assert(i == len);
            }
        }
        res
    }

    /// Decodes the group as a little-endian unsigned 16-bit word, in the
    /// manner of `get_u8` but over up to sixteen pins.
    pub fn get_u16(&self, bus: &mut Bus, nets: &NetStore) -> (r: u16)
        requires
            old(bus).wf(),
            old(bus).nets_compat(nets),
            self.fits(old(bus).pin_count()),
        ensures
            final(bus).wf(),
            final(bus).ids@ == old(bus).ids@,
            final(bus).output@ == old(bus).output@,
            final(bus).read@.len() == old(bus).read@.len(),
            forall|j: u16|
                j < 16 ==> crate::bits::u16_bit(r, j) == ((j as int) < self.inputs@.len()
                    && self.inputs@[j as int].sig(old(bus).ids@, nets.signals@) == Signal::ONE),
            forall|t: int|
                0 <= t < old(bus).read@.len() ==> final(bus).read@[t] == (if read_span_in(
                    self.inputs@,
                    if self.inputs@.len() < 16 {
                        self.inputs@.len() as int
                    } else {
                        16
                    },
                    t,
                ) {
                    IOAction::IO(nets.signals@[old(bus).ids@[t] as int])
                } else {
                    old(bus).read@[t]
                }),
    {
        let ghost ids0 = bus.ids@;
        let ghost read0 = bus.read@;
        let ghost out0 = bus.output@;
        let len = self.inputs.len();
        let mut res: u16 = 0;
        let mut i: usize = 0;
        proof {
            assert forall|j: u16| j < 16 implies !crate::bits::u16_bit(0u16, j) by {
                crate::bits::lemma_u16_zero_bit(j);
            }
        }
        while i < 16 && i < len
            invariant
                i <= 16,
                i <= len,
                len == self.inputs@.len(),
                bus.wf(),
                bus.nets_compat(nets),
                self.fits(bus.pin_count()),
                bus.ids@ == ids0,
                bus.output@ == out0,
                bus.read@.len() == read0.len(),
                forall|j: u16|
                    j < 16 ==> crate::bits::u16_bit(res, j) == ((j as int) < i
                        && self.inputs@[j as int].sig(ids0, nets.signals@) == Signal::ONE),
                forall|t: int|
                    0 <= t < read0.len() ==> bus.read@[t] == (if read_span_in(
                        self.inputs@,
                        i as int,
                        t,
                    ) {
                        IOAction::IO(nets.signals@[ids0[t] as int])
                    } else {
                        read0[t]
                    }),
            decreases 16 - i,
        {
            let ghost pre_read = bus.read@;
            let ghost pre_res = res;
            let pin = self.inputs[i];
            let s = pin.get(bus, nets);
            if signal_one(s) {
                res = res | (1u16 << (i as u16));
            }
            proof {
                assert forall|j: u16| j < 16 implies crate::bits::u16_bit(res, j) == ((j as int)
                    < i + 1 && self.inputs@[j as int].sig(ids0, nets.signals@) == Signal::ONE) by {
                    if s == Signal::ONE {
                        crate::bits::lemma_u16_or_bit(pre_res, i as u16, j);
                    }
                }
                assert forall|t: int| 0 <= t < read0.len() implies bus.read@[t] == (
                if read_span_in(self.inputs@, i as int + 1, t) {
                    IOAction::IO(nets.signals@[ids0[t] as int])
                } else {
                    read0[t]
                }) by {
                    lemma_read_span_in_step(self.inputs@, i as int, t);
                    if pin.linked && pin.id == t {
                        assert(bus.read@[t] == IOAction::IO(s));
                    } else {
                        assert(bus.read@[t] == pre_read[t]);
                    }
                }
            }
            i = i + 1;
        }
        proof {
            if i < 16 {
                assert(i == len);
            }
        }
        res
    }

    /// One-time hookup of every pin of the group.
    pub fn connect(&mut self, bus: &Bus)
        requires
            old(self).fits(bus.pin_count()),
        ensures
            final(self).inputs@.len() == old(self).inputs@.len(),
            forall|k: int|
                0 <= k < final(self).inputs@.len() ==> (#[trigger] final(self).inputs@[k]).id
                    == old(self).inputs@[k].id && final(self).inputs@[k].linked,
    {
        let n = self.inputs.len();
        let mut i: usize = 0;
        while i < n
            invariant
                i <= n,
                n == self.inputs@.len(),
                n == old(self).inputs@.len(),
                old(self).fits(bus.pin_count()),
                forall|k: int|
                    0 <= k < n ==> (#[trigger] self.inputs@[k]).id == old(self).inputs@[k].id,
                forall|k: int| 0 <= k < i ==> (#[trigger] self.inputs@[k]).linked,
            decreases n - i,
        {
            let mut pin = self.inputs[i];
            proof {
                assert((old(self).inputs@[i as int].id as int) < bus.pin_count());
            }
            pin.connect(bus);
            self.inputs.set(i, pin);
            i = i + 1;
        }
    }
}

impl OutBus {
    /// Every pin points inside a bus of `n` pins.
    pub open spec fn fits(&self, n: nat) -> bool {
        forall|i: int|
            0 <= i < self.outputs@.len() ==> ((#[trigger] self.outputs@[i]).id as int) < n
    }

    /// Every pin has been connected.
    pub open spec fn all_linked(&self) -> bool {
        forall|i: int| 0 <= i < self.outputs@.len() ==> (#[trigger] self.outputs@[i]).linked
    }

    pub fn new(ids: &[usize]) -> (r: Self)
        requires
            forall|k: int| 0 <= k < ids@.len() ==> #[trigger] ids@[k] >= 1,
        ensures
            r.outputs@.len() == ids@.len(),
            forall|k: int|
                0 <= k < ids@.len() ==> (#[trigger] r.outputs@[k]).id == ids@[k] - 1
                    && !r.outputs@[k].linked,
    {
        let n = ids.len();
        let mut outputs: Vec<Out> = Vec::new();
        let mut i: usize = 0;
        while i < n
            invariant
                i <= n,
                n == ids@.len(),
                outputs@.len() == i,
                forall|k: int| 0 <= k < ids@.len() ==> #[trigger] ids@[k] >= 1,
                forall|k: int|
                    0 <= k < i ==> (#[trigger] outputs@[k]).id == ids@[k] - 1
                        && !outputs@[k].linked,
            decreases n - i,
        {
            outputs.push(Out::new(ids[i]));
            i = i + 1;
        }
        Self { outputs }
    }

    /// Stages a write of `signal` to pin `id` of the group.
    pub fn set(&mut self, bus: &mut Bus, id: usize, signal: Signal)
        requires
            old(bus).wf(),
            id < old(self).outputs@.len(),
            old(self).fits(old(bus).pin_count()),
        ensures
            *final(self) == *old(self),
            final(bus).wf(),
            final(bus).ids@ == old(bus).ids@,
            final(bus).read@ == old(bus).read@,
            old(self).outputs@[id as int].linked ==> final(bus).output@
                == old(bus).output@.update(
                old(self).outputs@[id as int].id as int,
                IOAction::IO(signal),
            ),
            !old(self).outputs@[id as int].linked ==> final(bus).output@ == old(bus).output@,
    {
        let mut pin = self.outputs[id];
        pin.set(bus, signal);
    }

    /// Drives every pin of the group to `HIGH`, in pin order.
    pub fn set_high(&mut self, bus: &mut Bus)
        requires
            old(bus).wf(),
            old(self).fits(old(bus).pin_count()),
        ensures
            *final(self) == *old(self),
            final(bus).wf(),
            final(bus).ids@ == old(bus).ids@,
            final(bus).read@ == old(bus).read@,
            final(bus).output@ == staged_high_out(
                old(self).outputs@,
                old(bus).output@,
                old(self).outputs@.len() as int,
            ),
    {
        let ghost out0 = bus.output@;
        let n = self.outputs.len();
        let mut i: usize = 0;
        while i < n
            invariant
                i <= n,
                n == self.outputs@.len(),
                *self == *old(self),
                bus.wf(),
                self.fits(bus.pin_count()),
                bus.ids@ == old(bus).ids@,
                bus.read@ == old(bus).read@,
                bus.output@ == staged_high_out(self.outputs@, out0, i as int),
            decreases n - i,
        {
            let mut pin = self.outputs[i];
            pin.set(bus, Signal::HIGH);
            i = i + 1;
        }
    }

    /// Drives the group with the little-endian bits of `data`: the `i`-th
    /// pin is staged `ONE` where bit `i` is set and `ZERO` where it is
    /// clear. Pins beyond the eighth are untouched.
    pub fn set_u8(&mut self, bus: &mut Bus, data: u8)
        requires
            old(bus).wf(),
            old(self).fits(old(bus).pin_count()),
        ensures
            *final(self) == *old(self),
            final(bus).wf(),
            final(bus).ids@ == old(bus).ids@,
            final(bus).read@ == old(bus).read@,
            final(bus).output@ == staged_u8_out(
                old(self).outputs@,
                data,
                old(bus).output@,
                if old(self).outputs@.len() < 8 {
                    old(self).outputs@.len() as int
                } else {
                    8
                },
            ),
    {
        let ghost out0 = bus.output@;
        let len = self.outputs.len();
        let mut i: usize = 0;
        while i < 8 && i < len
            invariant
                i <= 8,
                i <= len,
                len == self.outputs@.len(),
                *self == *old(self),
                bus.wf(),
                self.fits(bus.pin_count()),
                bus.ids@ == old(bus).ids@,
                bus.read@ == old(bus).read@,
                bus.output@ == staged_u8_out(self.outputs@, data, out0, i as int),
            decreases 8 - i,
        {
            let mut pin = self.outputs[i];
            if (data & (1u8 << (i as u8))) != 0 {
                pin.set(bus, Signal::ONE);
            } else {
                pin.set(bus, Signal::ZERO);
            }
            proof {
                crate::bits::lemma_u8_test_bit(data, i as u8);
            }
            i = i + 1;
        }
        proof {
            if i < 8 {
                assert(i == len);
            }
        }
    }

    /// Drives the group with the little-endian bits of `data`, in the
    /// manner of `set_u8` but over up to sixteen pins.
    pub fn set_u16(&mut self, bus: &mut Bus, data: u16)
        requires
            old(bus).wf(),
            old(self).fits(old(bus).pin_count()),
        ensures
            *final(self) == *old(self),
            final(bus).wf(),
            final(bus).ids@ == old(bus).ids@,
            final(bus).read@ == old(bus).read@,
            final(bus).output@ == staged_u16_out(
                old(self).outputs@,
                data,
                old(bus).output@,
                if old(self).outputs@.len() < 16 {
                    old(self).outputs@.len() as int
                } else {
                    16
                },
            ),
    {
        let ghost out0 = bus.output@;
        let len = self.outputs.len();
        let mut i: usize = 0;
        while i < 16 && i < len
            invariant
                i <= 16,
                i <= len,
                len == self.outputs@.len(),
                *self == *old(self),
                bus.wf(),
                self.fits(bus.pin_count()),
                bus.ids@ == old(bus).ids@,
                bus.read@ == old(bus).read@,
                bus.output@ == staged_u16_out(self.outputs@, data, out0, i as int),
            decreases 16 - i,
        {
            let mut pin = self.outputs[i];
            if (data & (1u16 << (i as u16))) != 0 {
                pin.set(bus, Signal::ONE);
            } else {
                pin.set(bus, Signal::ZERO);
            }
            proof {
                crate::bits::lemma_u16_test_bit(data, i as u16);
            }
            i = i + 1;
        }
        proof {
            if i < 16 {
                assert(i == len);
            }
        }
    }

    /// One-time hookup of every pin of the group.
    pub fn connect(&mut self, bus: &Bus)
        requires
            old(self).fits(bus.pin_count()),
        ensures
            final(self).outputs@.len() == old(self).outputs@.len(),
            forall|k: int|
                0 <= k < final(self).outputs@.len() ==> (#[trigger] final(self).outputs@[k]).id
                    == old(self).outputs@[k].id && final(self).outputs@[k].linked,
    {
        let n = self.outputs.len();
        let mut i: usize = 0;
        while i < n
            invariant
                i <= n,
                n == self.outputs@.len(),
                n == old(self).outputs@.len(),
                old(self).fits(bus.pin_count()),
                forall|k: int|
                    0 <= k < n ==> (#[trigger] self.outputs@[k]).id == old(self).outputs@[k].id,
                forall|k: int| 0 <= k < i ==> (#[trigger] self.outputs@[k]).linked,
            decreases n - i,
        {
            let mut pin = self.outputs[i];
            proof {
                assert((old(self).outputs@[i as int].id as int) < bus.pin_count());
            }
            pin.connect(bus);
            self.outputs.set(i, pin);
            i = i + 1;
        }
    }
}

impl InOutBus {
    /// Every pin points inside a bus of `n` pins.
    pub open spec fn fits(&self, n: nat) -> bool {
        forall|i: int| 0 <= i < self.ios@.len() ==> ((#[trigger] self.ios@[i]).id as int) < n
    }

    /// Every pin has been connected.
    pub open spec fn all_linked(&self) -> bool {
        forall|i: int| 0 <= i < self.ios@.len() ==> (#[trigger] self.ios@[i]).linked
    }

    pub fn new(ids: &[usize]) -> (r: Self)
        requires
            forall|k: int| 0 <= k < ids@.len() ==> #[trigger] ids@[k] >= 1,
        ensures
            r.ios@.len() == ids@.len(),
            forall|k: int|
                0 <= k < ids@.len() ==> (#[trigger] r.ios@[k]).id == ids@[k] - 1
                    && !r.ios@[k].linked,
    {
        let n = ids.len();
        let mut ios: Vec<InOut> = Vec::new();
        let mut i: usize = 0;
        while i < n
            invariant
                i <= n,
                n == ids@.len(),
                ios@.len() == i,
                forall|k: int| 0 <= k < ids@.len() ==> #[trigger] ids@[k] >= 1,
                forall|k: int|
                    0 <= k < i ==> (#[trigger] ios@[k]).id == ids@[k] - 1 && !ios@[k].linked,
            decreases n - i,
        {
            ios.push(InOut::new(ids[i]));
            i = i + 1;
        }
        Self { ios }
    }

    /// Reads pin `id` of the group.
    pub fn get(&self, bus: &mut Bus, nets: &NetStore, id: usize) -> (r: Signal)
        requires
            old(bus).wf(),
            old(bus).nets_compat(nets),
            id < self.ios@.len(),
            self.fits(old(bus).pin_count()),
        ensures
            final(bus).wf(),
            final(bus).ids@ == old(bus).ids@,
            final(bus).output@ == old(bus).output@,
            r == self.ios@[id as int].sig(old(bus).ids@, nets.signals@),
            self.ios@[id as int].linked ==> final(bus).read@ == old(bus).read@.update(
                self.ios@[id as int].id as int,
                IOAction::IO(r),
            ),
            !self.ios@[id as int].linked ==> final(bus).read@ == old(bus).read@,
    {
        let pin = self.ios[id];
        pin.get(bus, nets)
    }

    /// Stages a write of `signal` to pin `id` of the group.
    pub fn set(&mut self, bus: &mut Bus, id: usize, signal: Signal)
        requires
            old(bus).wf(),
            id < old(self).ios@.len(),
            old(self).fits(old(bus).pin_count()),
        ensures
            *final(self) == *old(self),
            final(bus).wf(),
            final(bus).ids@ == old(bus).ids@,
            final(bus).read@ == old(bus).read@,
            old(self).ios@[id as int].linked ==> final(bus).output@ == old(bus).output@.update(
                old(self).ios@[id as int].id as int,
                IOAction::IO(signal),
            ),
            !old(self).ios@[id as int].linked ==> final(bus).output@ == old(bus).output@,
    {
        let mut pin = self.ios[id];
        pin.set(bus, signal);
    }

    /// Drives every pin of the group to `HIGH`, in pin order.
    pub fn set_high(&mut self, bus: &mut Bus)
        requires
            old(bus).wf(),
            old(self).fits(old(bus).pin_count()),
        ensures
            *final(self) == *old(self),
            final(bus).wf(),
            final(bus).ids@ == old(bus).ids@,
            final(bus).read@ == old(bus).read@,
            final(bus).output@ == staged_high_io(
                old(self).ios@,
                old(bus).output@,
                old(self).ios@.len() as int,
            ),
    {
        let ghost out0 = bus.output@;
        let n = self.ios.len();
        let mut i: usize = 0;
        while i < n
            invariant
                i <= n,
                n == self.ios@.len(),
                *self == *old(self),
                bus.wf(),
                self.fits(bus.pin_count()),
                bus.ids@ == old(bus).ids@,
                bus.read@ == old(bus).read@,
                bus.output@ == staged_high_io(self.ios@, out0, i as int),
            decreases n - i,
        {
            let mut pin = self.ios[i];
            pin.set(bus, Signal::HIGH);
            i = i + 1;
        }
    }

    /// Drives the group with the little-endian bits of `data`: the `i`-th
    /// pin is staged `ONE` where bit `i` is set and `ZERO` where it is
    /// clear. Pins beyond the eighth are untouched.
    pub fn set_u8(&mut self, bus: &mut Bus, data: u8)
        requires
            old(bus).wf(),
            old(self).fits(old(bus).pin_count()),
        ensures
            *final(self) == *old(self),
            final(bus).wf(),
            final(bus).ids@ == old(bus).ids@,
            final(bus).read@ == old(bus).read@,
            final(bus).output@ == staged_u8_io(
                old(self).ios@,
                data,
                old(bus).output@,
                if old(self).ios@.len() < 8 {
                    old(self).ios@.len() as int
                } else {
                    8
                },
            ),
    {
        let ghost out0 = bus.output@;
        let len = self.ios.len();
        let mut i: usize = 0;
        while i < 8 && i < len
            invariant
                i <= 8,
                i <= len,
                len == self.ios@.len(),
                *self == *old(self),
                bus.wf(),
                self.fits(bus.pin_count()),
                bus.ids@ == old(bus).ids@,
                bus.read@ == old(bus).read@,
                bus.output@ == staged_u8_io(self.ios@, data, out0, i as int),
            decreases 8 - i,
        {
            let mut pin = self.ios[i];
            if (data & (1u8 << (i as u8))) != 0 {
                pin.set(bus, Signal::ONE);
            } else {
                pin.set(bus, Signal::ZERO);
            }
            proof {
                crate::bits::lemma_u8_test_bit(data, i as u8);
            }
            i = i + 1;
        }
        proof {
            if i < 8 {
                assert(i == len);
            }
        }
    }

    /// Decodes the group as a little-endian unsigned byte: bit `j` of the
    /// result is set exactly when the `j`-th pin reads `ONE`. Pins beyond
    /// the eighth, and bits beyond the group's width, are zero. Every pin
    /// read is recorded.
    pub fn get_u8(&self, bus: &mut Bus, nets: &NetStore) -> (r: u8)
        requires
            old(bus).wf(),
            old(bus).nets_compat(nets),
            self.fits(old(bus).pin_count()),
        ensures
            final(bus).wf(),
            final(bus).ids@ == old(bus).ids@,
            final(bus).output@ == old(bus).output@,
            final(bus).read@.len() == old(bus).read@.len(),
            forall|j: u8|
                j < 8 ==> crate::bits::u8_bit(r, j) == ((j as int) < self.ios@.len()
                    && self.ios@[j as int].sig(old(bus).ids@, nets.signals@) == Signal::ONE),
            forall|t: int|
                0 <= t < old(bus).read@.len() ==> final(bus).read@[t] == (if read_span_io(
                    self.ios@,
                    if self.ios@.len() < 8 {
                        self.ios@.len() as int
                    } else {
                        8
                    },
                    t,
                ) {
                    IOAction::IO(nets.signals@[old(bus).ids@[t] as int])
                } else {
                    old(bus).read@[t]
                }),
    {
        let ghost ids0 = bus.ids@;
        let ghost read0 = bus.read@;
        let ghost out0 = bus.output@;
        let len = self.ios.len();
        let mut res: u8 = 0;
        let mut i: usize = 0;
        proof {
            assert forall|j: u8| j < 8 implies !crate::bits::u8_bit(0u8, j) by {
                crate::bits::lemma_u8_zero_bit(j);
            }
        }
        while i < 8 && i < len
            invariant
                i <= 8,
                i <= len,
                len == self.ios@.len(),
                bus.wf(),
                bus.nets_compat(nets),
                self.fits(bus.pin_count()),
                bus.ids@ == ids0,
                bus.output@ == out0,
                bus.read@.len() == read0.len(),
                forall|j: u8|
                    j < 8 ==> crate::bits::u8_bit(res, j) == ((j as int) < i
                        && self.ios@[j as int].sig(ids0, nets.signals@) == Signal::ONE),
                forall|t: int|
                    0 <= t < read0.len() ==> bus.read@[t] == (if read_span_io(
                        self.ios@,
                        i as int,
                        t,
                    ) {
                        IOAction::IO(nets.signals@[ids0[t] as int])
                    } else {
                        read0[t]
                    }),
            decreases 8 - i,
        {
            let ghost pre_read = bus.read@;
            let ghost pre_res = res;
            let pin = self.ios[i];
            let s = pin.get(bus, nets);
            if signal_one(s) {
                res = res | (1u8 << (i as u8));
            }
            proof {
                assert forall|j: u8| j < 8 implies crate::bits::u8_bit(res, j) == ((j as int) < i
                    + 1 && self.ios@[j as int].sig(ids0, nets.signals@) == Signal::ONE) by {
                    if s == Signal::ONE {
                        crate::bits::lemma_u8_or_bit(pre_res, i as u8, j);
                    }
                }
                assert forall|t: int| 0 <= t < read0.len() implies bus.read@[t] == (
                if read_span_io(self.ios@, i as int + 1, t) {
                    IOAction::IO(nets.signals@[ids0[t] as int])
                } else {
                    read0[t]
                }) by {
                    lemma_read_span_io_step(self.ios@, i as int, t);
                    if pin.linked && pin.id == t {
                        assert(bus.read@[t] == IOAction::IO(s));
                    } else {
                        assert(bus.read@[t] == pre_read[t]);
                    }
                }
            }
            i = i + 1;
        }
        proof {
            if i < 8 {
                assert(i == len);
            }
        }
        res
    }

    /// One-time hookup of every pin of the group.
    pub fn connect(&mut self, bus: &Bus)
        requires
            old(self).fits(bus.pin_count()),
        ensures
            final(self).ios@.len() == old(self).ios@.len(),
            forall|k: int|
                0 <= k < final(self).ios@.len() ==> (#[trigger] final(self).ios@[k]).id
                    == old(self).ios@[k].id && final(self).ios@[k].linked,
    {
        let n = self.ios.len();
        let mut i: usize = 0;
        while i < n
            invariant
                i <= n,
                n == self.ios@.len(),
                n == old(self).ios@.len(),
                old(self).fits(bus.pin_count()),
                forall|k: int|
                    0 <= k < n ==> (#[trigger] self.ios@[k]).id == old(self).ios@[k].id,
                forall|k: int| 0 <= k < i ==> (#[trigger] self.ios@[k]).linked,
            decreases n - i,
        {
            let mut pin = self.ios[i];
            proof {
                assert((old(self).ios@[i as int].id as int) < bus.pin_count());
            }
            pin.connect(bus);
            self.ios.set(i, pin);
            i = i + 1;
        }
    }
}

/// Some output pin among the first `k` is connected and bound to bus slot
/// `t`.
pub open spec fn out_span(pins: Seq<Out>, k: int, t: int) -> bool {
    exists|i: int| 0 <= i < k && (#[trigger] pins[i]).linked && pins[i].id == t
}

/// Some bidirectional pin among the first `k` is connected and bound to
/// bus slot `t`.
pub open spec fn io_span(pins: Seq<InOut>, k: int, t: int) -> bool {
    exists|i: int| 0 <= i < k && (#[trigger] pins[i]).linked && pins[i].id == t
}

/// With connected pins on pairwise distinct slots, a bit-staging pass
/// drives each listed pin with its own bit of `data` and leaves every
/// other slot alone.
pub proof fn lemma_staged_u8_out_at(pins: Seq<Out>, data: u8, out0: Seq<IOAction>, k: int)
    requires
        0 <= k <= pins.len(),
        k <= 8,
        forall|i: int| 0 <= i < pins.len() ==> (#[trigger] pins[i]).linked,
        forall|i: int| 0 <= i < pins.len() ==> ((#[trigger] pins[i]).id as int) < out0.len(),
        forall|i1: int, i2: int|
            0 <= i1 < i2 < pins.len() ==> (#[trigger] pins[i1]).id != (#[trigger] pins[i2]).id,
    ensures
        staged_u8_out(pins, data, out0, k).len() == out0.len(),
        forall|i: int|
            0 <= i < k ==> staged_u8_out(pins, data, out0, k)[(#[trigger] pins[i]).id as int]
                == IOAction::IO(crate::bits::bit_signal(crate::bits::u8_bit(data, i as u8))),
        forall|t: int|
            0 <= t < out0.len() && !out_span(pins, k, t) ==> staged_u8_out(pins, data, out0, k)[t]
                == out0[t],
    decreases k,
{
    if k > 0 {
        lemma_staged_u8_out_at(pins, data, out0, k - 1);
        let prev = staged_u8_out(pins, data, out0, k - 1);
        let cur = staged_u8_out(pins, data, out0, k);
        assert forall|i: int| 0 <= i < k implies cur[(#[trigger] pins[i]).id as int]
            == IOAction::IO(crate::bits::bit_signal(crate::bits::u8_bit(data, i as u8))) by {
            if i < k - 1 {
                assert(pins[i].id != pins[k - 1].id);
                assert(!out_span(pins, k - 1, pins[k - 1].id as int)) by {
                    if out_span(pins, k - 1, pins[k - 1].id as int) {
                        let j = choose|j: int|
                            0 <= j < k - 1 && (#[trigger] pins[j]).linked && pins[j].id == pins[k
                                - 1].id;
                        assert(false);
                    }
                }
            }
        }
        assert forall|t: int| 0 <= t < out0.len() && !out_span(pins, k, t) implies cur[t]
            == out0[t] by {
            assert(!out_span(pins, k - 1, t)) by {
                if out_span(pins, k - 1, t) {
                    let j = choose|j: int|
                        0 <= j < k - 1 && (#[trigger] pins[j]).linked && pins[j].id == t;
                    assert(out_span(pins, k, t));
                }
            }
            assert(pins[k - 1].id != t) by {
                if pins[k - 1].id == t {
                    assert(out_span(pins, k, t));
                }
            }
        }
    }
}

/// With connected pins on pairwise distinct slots, a release pass drives
/// each listed pin to `HIGH` and leaves every other slot alone.
pub proof fn lemma_staged_high_out_at(pins: Seq<Out>, out0: Seq<IOAction>, k: int)
    requires
        0 <= k <= pins.len(),
        forall|i: int| 0 <= i < pins.len() ==> (#[trigger] pins[i]).linked,
        forall|i: int| 0 <= i < pins.len() ==> ((#[trigger] pins[i]).id as int) < out0.len(),
        forall|i1: int, i2: int|
            0 <= i1 < i2 < pins.len() ==> (#[trigger] pins[i1]).id != (#[trigger] pins[i2]).id,
    ensures
        staged_high_out(pins, out0, k).len() == out0.len(),
        forall|i: int|
            0 <= i < k ==> staged_high_out(pins, out0, k)[(#[trigger] pins[i]).id as int]
                == IOAction::IO(Signal::HIGH),
        forall|t: int|
            0 <= t < out0.len() && !out_span(pins, k, t) ==> staged_high_out(pins, out0, k)[t]
                == out0[t],
    decreases k,
{
    if k > 0 {
        lemma_staged_high_out_at(pins, out0, k - 1);
        let cur = staged_high_out(pins, out0, k);
        assert forall|i: int| 0 <= i < k implies cur[(#[trigger] pins[i]).id as int]
            == IOAction::IO(Signal::HIGH) by {
            if i < k - 1 {
                assert(pins[i].id != pins[k - 1].id);
            }
        }
        assert forall|t: int| 0 <= t < out0.len() && !out_span(pins, k, t) implies cur[t]
            == out0[t] by {
            assert(!out_span(pins, k - 1, t)) by {
                if out_span(pins, k - 1, t) {
                    let j = choose|j: int|
                        0 <= j < k - 1 && (#[trigger] pins[j]).linked && pins[j].id == t;
                    assert(out_span(pins, k, t));
                }
            }
            assert(pins[k - 1].id != t) by {
                if pins[k - 1].id == t {
                    assert(out_span(pins, k, t));
                }
            }
        }
    }
}

/// With connected pins on pairwise distinct slots, a bit-staging pass
/// drives each listed pin with its own bit of `data` and leaves every
/// other slot alone.
pub proof fn lemma_staged_u8_io_at(pins: Seq<InOut>, data: u8, out0: Seq<IOAction>, k: int)
    requires
        0 <= k <= pins.len(),
        k <= 8,
        forall|i: int| 0 <= i < pins.len() ==> (#[trigger] pins[i]).linked,
        forall|i: int| 0 <= i < pins.len() ==> ((#[trigger] pins[i]).id as int) < out0.len(),
        forall|i1: int, i2: int|
            0 <= i1 < i2 < pins.len() ==> (#[trigger] pins[i1]).id != (#[trigger] pins[i2]).id,
    ensures
        staged_u8_io(pins, data, out0, k).len() == out0.len(),
        forall|i: int|
            0 <= i < k ==> staged_u8_io(pins, data, out0, k)[(#[trigger] pins[i]).id as int]
                == IOAction::IO(crate::bits::bit_signal(crate::bits::u8_bit(data, i as u8))),
        forall|t: int|
            0 <= t < out0.len() && !io_span(pins, k, t) ==> staged_u8_io(pins, data, out0, k)[t]
                == out0[t],
    decreases k,
{
    if k > 0 {
        lemma_staged_u8_io_at(pins, data, out0, k - 1);
        let cur = staged_u8_io(pins, data, out0, k);
        assert forall|i: int| 0 <= i < k implies cur[(#[trigger] pins[i]).id as int]
            == IOAction::IO(crate::bits::bit_signal(crate::bits::u8_bit(data, i as u8))) by {
            if i < k - 1 {
                assert(pins[i].id != pins[k - 1].id);
            }
        }
        assert forall|t: int| 0 <= t < out0.len() && !io_span(pins, k, t) implies cur[t]
            == out0[t] by {
            assert(!io_span(pins, k - 1, t)) by {
                if io_span(pins, k - 1, t) {
                    let j = choose|j: int|
                        0 <= j < k - 1 && (#[trigger] pins[j]).linked && pins[j].id == t;
                    assert(io_span(pins, k, t));
                }
            }
            assert(pins[k - 1].id != t) by {
                if pins[k - 1].id == t {
                    assert(io_span(pins, k, t));
                }
            }
        }
    }
}

/// With connected pins on pairwise distinct slots, a release pass drives
/// each listed pin to `HIGH` and leaves every other slot alone.
pub proof fn lemma_staged_high_io_at(pins: Seq<InOut>, out0: Seq<IOAction>, k: int)
    requires
        0 <= k <= pins.len(),
        forall|i: int| 0 <= i < pins.len() ==> (#[trigger] pins[i]).linked,
        forall|i: int| 0 <= i < pins.len() ==> ((#[trigger] pins[i]).id as int) < out0.len(),
        forall|i1: int, i2: int|
            0 <= i1 < i2 < pins.len() ==> (#[trigger] pins[i1]).id != (#[trigger] pins[i2]).id,
    ensures
        staged_high_io(pins, out0, k).len() == out0.len(),
        forall|i: int|
            0 <= i < k ==> staged_high_io(pins, out0, k)[(#[trigger] pins[i]).id as int]
                == IOAction::IO(Signal::HIGH),
        forall|t: int|
            0 <= t < out0.len() && !io_span(pins, k, t) ==> staged_high_io(pins, out0, k)[t]
                == out0[t],
    decreases k,
{
    if k > 0 {
        lemma_staged_high_io_at(pins, out0, k - 1);
        let cur = staged_high_io(pins, out0, k);
        assert forall|i: int| 0 <= i < k implies cur[(#[trigger] pins[i]).id as int]
            == IOAction::IO(Signal::HIGH) by {
            if i < k - 1 {
                assert(pins[i].id != pins[k - 1].id);
            }
        }
        assert forall|t: int| 0 <= t < out0.len() && !io_span(pins, k, t) implies cur[t]
            == out0[t] by {
            assert(!io_span(pins, k - 1, t)) by {
                if io_span(pins, k - 1, t) {
                    let j = choose|j: int|
                        0 <= j < k - 1 && (#[trigger] pins[j]).linked && pins[j].id == t;
                    assert(io_span(pins, k, t));
                }
            }
            assert(pins[k - 1].id != t) by {
                if pins[k - 1].id == t {
                    assert(io_span(pins, k, t));
                }
            }
        }
    }
}

/// `addr` is exactly the little-endian word read off a 15-pin address
/// group: each of its low fifteen bits is set when the matching pin reads
/// `ONE`, and its top bit is clear.
pub open spec fn word15_of(pins: Seq<In>, ids: Seq<usize>, sigs: Seq<Signal>, addr: u16) -> bool {
    forall|j: u16|
        j < 16 ==> #[trigger] crate::bits::u16_bit(addr, j) == ((j as int) < 15 && (j as int)
            < pins.len() && pins[j as int].sig(ids, sigs) == Signal::ONE)
}

/// `v` is exactly the little-endian byte read off a group of input pins.
pub open spec fn byte_of_in(pins: Seq<In>, ids: Seq<usize>, sigs: Seq<Signal>, v: u8) -> bool {
    forall|g: u8|
        g < 8 ==> #[trigger] crate::bits::u8_bit(v, g) == ((g as int) < pins.len()
            && pins[g as int].sig(ids, sigs) == Signal::ONE)
}

/// `v` is exactly the little-endian byte read off a group of
/// bidirectional pins.
pub open spec fn byte_of_io(pins: Seq<InOut>, ids: Seq<usize>, sigs: Seq<Signal>, v: u8) -> bool {
    forall|g: u8|
        g < 8 ==> #[trigger] crate::bits::u8_bit(v, g) == ((g as int) < pins.len()
            && pins[g as int].sig(ids, sigs) == Signal::ONE)
}

/// Executable test against `ONE`.
fn signal_one(s: Signal) -> (r: bool)
    ensures
        r == (s == Signal::ONE),
{
    match s {
        Signal::ONE => true,
        _ => false,
    }
}

} // verus!
