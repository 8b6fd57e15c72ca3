//! The board lifecycle: an open board accumulates sockets, connections and
//! pin names; wiring collapses the connections into nets; components are
//! then plugged, and the complete board advances simulated time through an
//! event-driven scheduler.

use vstd::prelude::*;

use crate::bus::{Bus, NetStore, Signal};
use crate::component::Component;
use crate::delay::Delay;
use crate::logger::Logger;
use crate::tester::{ProbeInput, ProbeOutput};
use crate::wires::{connected, net_partition};

verus! {

/// Any component the runtime can own, one variant per model.
pub enum AnyComponent {
    ProbeIn(ProbeInput),
    ProbeOut(ProbeOutput),
    Nand(crate::logics::SN74LS00N),
    Inverter(crate::logics::SN74LS04N),
    Demux(crate::logics::HC138),
    Latch(crate::latches::SN74LS77),
    Eeprom(crate::memory::AT28C256),
    Sram(crate::memory::AS6C62256),
    Terminal(crate::io::Terminal),
    Cpu6502(crate::cpu6502::CPU6502),
    Cpu6809(crate::cpu6809::CPU6809),
    Mc6809(crate::mc6809::CPU6809),
}

/// Both values are the same kind of component.
pub open spec fn same_kind(a: AnyComponent, b: AnyComponent) -> bool {
    match (a, b) {
        (AnyComponent::ProbeIn(_), AnyComponent::ProbeIn(_)) => true,
        (AnyComponent::ProbeOut(_), AnyComponent::ProbeOut(_)) => true,
        (AnyComponent::Nand(_), AnyComponent::Nand(_)) => true,
        (AnyComponent::Inverter(_), AnyComponent::Inverter(_)) => true,
        (AnyComponent::Demux(_), AnyComponent::Demux(_)) => true,
        (AnyComponent::Latch(_), AnyComponent::Latch(_)) => true,
        (AnyComponent::Eeprom(_), AnyComponent::Eeprom(_)) => true,
        (AnyComponent::Sram(_), AnyComponent::Sram(_)) => true,
        (AnyComponent::Terminal(_), AnyComponent::Terminal(_)) => true,
        (AnyComponent::Cpu6502(_), AnyComponent::Cpu6502(_)) => true,
        (AnyComponent::Cpu6809(_), AnyComponent::Cpu6809(_)) => true,
        (AnyComponent::Mc6809(_), AnyComponent::Mc6809(_)) => true,
        _ => false,
    }
}

impl Component for AnyComponent {
    open spec fn size(&self) -> nat {
        match self {
            AnyComponent::ProbeIn(c) => c.size(),
            AnyComponent::ProbeOut(c) => c.size(),
            AnyComponent::Nand(c) => c.size(),
            AnyComponent::Inverter(c) => c.size(),
            AnyComponent::Demux(c) => c.size(),
            AnyComponent::Latch(c) => c.size(),
            AnyComponent::Eeprom(c) => c.size(),
            AnyComponent::Sram(c) => c.size(),
            AnyComponent::Terminal(c) => c.size(),
            AnyComponent::Cpu6502(c) => c.size(),
            AnyComponent::Cpu6809(c) => c.size(),
            AnyComponent::Mc6809(c) => c.size(),
        }
    }

    open spec fn pins_fit(&self, n: nat) -> bool {
        match self {
            AnyComponent::ProbeIn(c) => c.pins_fit(n),
            AnyComponent::ProbeOut(c) => c.pins_fit(n),
            AnyComponent::Nand(c) => c.pins_fit(n),
            AnyComponent::Inverter(c) => c.pins_fit(n),
            AnyComponent::Demux(c) => c.pins_fit(n),
            AnyComponent::Latch(c) => c.pins_fit(n),
            AnyComponent::Eeprom(c) => c.pins_fit(n),
            AnyComponent::Sram(c) => c.pins_fit(n),
            AnyComponent::Terminal(c) => c.pins_fit(n),
            AnyComponent::Cpu6502(c) => c.pins_fit(n),
            AnyComponent::Cpu6809(c) => c.pins_fit(n),
            AnyComponent::Mc6809(c) => c.pins_fit(n),
        }
    }

    open spec fn ready(&self, n: nat) -> bool {
        match self {
            AnyComponent::ProbeIn(c) => c.ready(n),
            AnyComponent::ProbeOut(c) => c.ready(n),
            AnyComponent::Nand(c) => c.ready(n),
            AnyComponent::Inverter(c) => c.ready(n),
            AnyComponent::Demux(c) => c.ready(n),
            AnyComponent::Latch(c) => c.ready(n),
            AnyComponent::Eeprom(c) => c.ready(n),
            AnyComponent::Sram(c) => c.ready(n),
            AnyComponent::Terminal(c) => c.ready(n),
            AnyComponent::Cpu6502(c) => c.ready(n),
            AnyComponent::Cpu6809(c) => c.ready(n),
            AnyComponent::Mc6809(c) => c.ready(n),
        }
    }

    fn connect(&mut self, bus: &Bus)
        ensures
            same_kind(*final(self), *old(self)),
    {
        match self {
            AnyComponent::ProbeIn(c) => c.connect(bus),
            AnyComponent::ProbeOut(c) => c.connect(bus),
            AnyComponent::Nand(c) => c.connect(bus),
            AnyComponent::Inverter(c) => c.connect(bus),
            AnyComponent::Demux(c) => c.connect(bus),
            AnyComponent::Latch(c) => c.connect(bus),
            AnyComponent::Eeprom(c) => c.connect(bus),
            AnyComponent::Sram(c) => c.connect(bus),
            AnyComponent::Terminal(c) => c.connect(bus),
            AnyComponent::Cpu6502(c) => c.connect(bus),
            AnyComponent::Cpu6809(c) => c.connect(bus),
            AnyComponent::Mc6809(c) => c.connect(bus),
        }
    }

    fn eval(&mut self, bus: &mut Bus, nets: &NetStore) -> (d: Delay)
        ensures
            same_kind(*final(self), *old(self)),
    {
        match self {
            AnyComponent::ProbeIn(c) => c.eval(bus, nets),
            AnyComponent::ProbeOut(c) => c.eval(bus, nets),
            AnyComponent::Nand(c) => c.eval(bus, nets),
            AnyComponent::Inverter(c) => c.eval(bus, nets),
            AnyComponent::Demux(c) => c.eval(bus, nets),
            AnyComponent::Latch(c) => c.eval(bus, nets),
            AnyComponent::Eeprom(c) => c.eval(bus, nets),
            AnyComponent::Sram(c) => c.eval(bus, nets),
            AnyComponent::Terminal(c) => c.eval(bus, nets),
            AnyComponent::Cpu6502(c) => c.eval(bus, nets),
            AnyComponent::Cpu6809(c) => c.eval(bus, nets),
            AnyComponent::Mc6809(c) => c.eval(bus, nets),
        }
    }
}

/// A board being described: sockets reserve consecutive pin identifiers,
/// connections join pins, and pins may be given display names.
pub struct Board {
    pub pin_count: usize,
    pub connections: Vec<(usize, usize)>,
    pub names: Vec<Option<String>>,
}

/// A reservation of `size` consecutive pins starting at `location`.
#[derive(PartialEq, Eq, Structural, Debug, Copy, Clone)]
pub struct Socket {
    pub location: usize,
    pub size: usize,
}

/// A board-scoped pin identifier.
#[derive(PartialEq, Eq, Structural, Debug, Copy, Clone)]
pub struct Pin {
    pub id: usize,
}

/// A group connector: an ordered list of board-scoped pin identifiers.
pub struct Pins {
    pub ids: Vec<usize>,
}

impl Board {
    /// Every recorded connection joins pins the board has handed out, and
    /// every pin has a name slot.
    pub open spec fn wf(&self) -> bool {
        &&& self.names@.len() == self.pin_count
        &&& forall|k: int|
            0 <= k < self.connections@.len() ==> (#[trigger] self.connections@[k]).0
                < self.pin_count && self.connections@[k].1 < self.pin_count
    }

    pub fn new() -> (r: Self)
        ensures
            r.wf(),
            r.pin_count == 0,
            r.connections@.len() == 0,
    {
        Board { pin_count: 0, connections: Vec::new(), names: Vec::new() }
    }

    /// Reserves a socket of `size` pins; its pins are the next `size`
    /// consecutive identifiers.
    pub fn socket(&mut self, size: usize) -> (r: Socket)
        requires
            old(self).wf(),
            old(self).pin_count + size <= usize::MAX,
        ensures
            final(self).wf(),
            r.location == old(self).pin_count,
            r.size == size,
            final(self).pin_count == old(self).pin_count + size,
            final(self).connections@ == old(self).connections@,
            final(self).names@ == old(self).names@ + Seq::new(size as nat, |i: int| None::<String>),
    {
        let location = self.pin_count;
        let mut i: usize = 0;
        while i < size
            invariant
                i <= size,
                self.pin_count == old(self).pin_count,
                self.connections@ == old(self).connections@,
                self.names@ == old(self).names@ + Seq::new(i as nat, |k: int| None::<String>),
            decreases size - i,
        {
            self.names.push(None);
            proof {
                assert(self.names@ =~= old(self).names@ + Seq::new(
                    (i + 1) as nat,
                    |k: int| None::<String>,
                ));
            }
            i = i + 1;
        }
        self.pin_count = self.pin_count + size;
        Socket { location, size }
    }
}

impl Socket {
    /// The `pin`-th pin of this socket, counted from 1 as datasheets do.
    pub fn pin(&self, pin: usize) -> (r: Pin)
        requires
            1 <= pin <= self.size,
            self.location + self.size <= usize::MAX,
        ensures
            r.id == self.location + pin - 1,
    {
        Pin { id: self.location + pin - 1 }
    }

    /// The listed pins of this socket as a group connector, each counted
    /// from 1.
    pub fn pins(&self, pins: &[usize]) -> (r: Pins)
        requires
            forall|k: int| 0 <= k < pins@.len() ==> 1 <= #[trigger] pins@[k] <= self.size,
            self.location + self.size <= usize::MAX,
        ensures
            r.ids@.len() == pins@.len(),
            forall|k: int|
                0 <= k < pins@.len() ==> #[trigger] r.ids@[k] == self.location + pins@[k] - 1,
    {
        let n = pins.len();
        let mut ids: Vec<usize> = Vec::new();
        let mut i: usize = 0;
        while i < n
            invariant
                i <= n,
                n == pins@.len(),
                ids@.len() == i,
                forall|k: int| 0 <= k < pins@.len() ==> 1 <= #[trigger] pins@[k] <= self.size,
                self.location + self.size <= usize::MAX,
                forall|k: int|
                    0 <= k < i ==> #[trigger] ids@[k] == self.location + pins@[k] - 1,
            decreases n - i,
        {
            ids.push(self.location + pins[i] - 1);
            i = i + 1;
        }
        Pins { ids }
    }
}

impl Pin {
    /// Records a connection between two pins on the open board. Returns
    /// whether the edge was accepted: an edge naming a pin the board never
    /// handed out is refused.
    pub fn connect(&self, other: &Pin, board: &mut Board) -> (r: bool)
        requires
            old(board).wf(),
        ensures
            final(board).wf(),
            final(board).pin_count == old(board).pin_count,
            final(board).names@ == old(board).names@,
            r == (self.id < old(board).pin_count && other.id < old(board).pin_count),
            r ==> final(board).connections@ == old(board).connections@.push((self.id, other.id)),
            !r ==> final(board).connections@ == old(board).connections@,
    {
        if self.id < board.pin_count && other.id < board.pin_count {
            board.connections.push((self.id, other.id));
            true
        } else {
            false
        }
    }

    /// Gives the pin a display name, used by the trace header. A name for
    /// a pin the board never handed out is ignored.
    pub fn name(&self, board: &mut Board, name: String)
        requires
            old(board).wf(),
        ensures
            final(board).wf(),
            final(board).pin_count == old(board).pin_count,
            final(board).connections@ == old(board).connections@,
            self.id < old(board).pin_count ==> final(board).names@ == old(board).names@.update(
                self.id as int,
                Some(name),
            ),
            self.id >= old(board).pin_count ==> final(board).names@ == old(board).names@,
    {
        if self.id < board.pin_count {
            self.names_set(board, name);
        }
    }

    fn names_set(&self, board: &mut Board, name: String)
        requires
            self.id < old(board).names@.len(),
        ensures
            final(board).pin_count == old(board).pin_count,
            final(board).connections@ == old(board).connections@,
            final(board).names@ == old(board).names@.update(self.id as int, Some(name)),
    {
        board.names.set(self.id, Some(name));
    }
}

/// The connections recorded after the first `k` pin pairs of two groups are
/// joined in order; pairs naming a pin outside the board are refused.
pub open spec fn paired(
    a: Seq<usize>,
    b: Seq<usize>,
    base: Seq<(usize, usize)>,
    limit: nat,
    k: int,
) -> Seq<(usize, usize)>
    decreases k,
{
    if k <= 0 {
        base
    } else {
        let prev = paired(a, b, base, limit, k - 1);
        if a[k - 1] < limit && b[k - 1] < limit {
            prev.push((a[k - 1], b[k - 1]))
        } else {
            prev
        }
    }
}

impl Pins {
    /// Connects two groups pin by pin, in order, up to the shorter length.
    pub fn connect(&self, other: &Pins, board: &mut Board)
        requires
            old(board).wf(),
        ensures
            final(board).wf(),
            final(board).pin_count == old(board).pin_count,
            final(board).names@ == old(board).names@,
            final(board).connections@ == paired(
                self.ids@,
                other.ids@,
                old(board).connections@,
                old(board).pin_count as nat,
                if self.ids@.len() < other.ids@.len() {
                    self.ids@.len() as int
                } else {
                    other.ids@.len() as int
                },
            ),
    {
        let n = if self.ids.len() < other.ids.len() {
            self.ids.len()
        } else {
            other.ids.len()
        };
        let mut i: usize = 0;
        while i < n
            invariant
                i <= n,
                n <= self.ids@.len(),
                n <= other.ids@.len(),
                board.wf(),
                board.pin_count == old(board).pin_count,
                board.names@ == old(board).names@,
                board.connections@ == paired(
                    self.ids@,
                    other.ids@,
                    old(board).connections@,
                    old(board).pin_count as nat,
                    i as int,
                ),
            decreases n - i,
        {
            let a = Pin { id: self.ids[i] };
            let b = Pin { id: other.ids[i] };
            a.connect(&b, board);
            i = i + 1;
        }
    }
}

/// The display name a net inherits: the name of the highest-numbered named
/// pin at or above `p` that belongs to net `w`.
pub open spec fn net_name_from(
    names: Seq<Option<String>>,
    ptn: Seq<usize>,
    w: int,
    p: int,
) -> Option<String>
    decreases names.len() - p,
{
    if p < 0 || p >= names.len() {
        None
    } else if ptn[p] == w && names[p] is Some {
        match net_name_from(names, ptn, w, p + 1) {
            Some(s) => Some(s),
            None => names[p],
        }
    } else {
        net_name_from(names, ptn, w, p + 1)
    }
}

/// A component plugged into its socket: the component and the bus binding
/// its local pins to their nets.
pub struct Plugged {
    pub part: AnyComponent,
    pub bus: Bus,
}

/// Every plugged component's bus is internally consistent, points at real
/// nets, and the component is hooked to it.
pub open spec fn parts_wf(cs: Seq<Plugged>, nets: NetStore) -> bool {
    forall|i: int|
        0 <= i < cs.len() ==> ((#[trigger] cs[i]).bus.wf() && cs[i].bus.nets_compat(&nets)
            && cs[i].part.ready(cs[i].bus.pin_count()))
}

/// The components are the same kinds, bound to the same nets.
pub open spec fn same_shape(cs: Seq<Plugged>, os: Seq<Plugged>) -> bool {
    &&& cs.len() == os.len()
    &&& forall|i: int|
        0 <= i < cs.len() ==> (same_kind((#[trigger] cs[i]).part, os[i].part) && cs[i].bus.ids@
            == os[i].bus.ids@)
}

/// No component's bus observes a value that disagrees with its net.
pub open spec fn all_clean(cs: Seq<Plugged>, signals: Seq<Signal>) -> bool {
    forall|i: int| 0 <= i < cs.len() ==> !(#[trigger] cs[i]).bus.dirty_spec(signals)
}

/// A snapshot of everything one evaluation changes: the components, the
/// two net arrays, the trace fields, the pending schedule and the clock.
pub struct EvalFrame {
    pub components: Seq<Plugged>,
    pub signals: Seq<Signal>,
    pub raised: Seq<bool>,
    pub steps: Seq<crate::logger::TraceStep>,
    pub previous: Seq<Signal>,
    pub last_time: u64,
    pub schedule: Seq<(u64, usize)>,
    pub now: u64,
}

/// One component fired by the scheduler: its bus keeps its net binding and
/// the component its kind and readiness. What a fired component computes —
/// its recorded reads, staged outputs, state change and delay — is fixed
/// by that component's own `eval` contract.
pub open spec fn fired(pre: Plugged, post: Plugged) -> bool {
    &&& post.bus.ids@ == pre.bus.ids@
    &&& post.bus.wf()
    &&& post.part.ready(post.bus.pin_count())
    &&& same_kind(post.part, pre.part)
}

/// The first frame of an evaluation of board `b`: every component has been
/// fired once, in plug order, and schedule entry `i` is component `i`'s
/// pending commit, due no earlier than the clock. Nets and trace are still
/// untouched.
#[verifier::opaque]
pub open spec fn fanned_out(b: CompleteBoard, f: EvalFrame) -> bool {
    &&& f.components.len() == b.components@.len()
    &&& forall|i: int|
        0 <= i < f.components.len() ==> fired(b.components@[i], #[trigger] f.components[i])
    &&& f.schedule.len() == b.components@.len()
    &&& forall|i: int|
        0 <= i < f.schedule.len() ==> ((#[trigger] f.schedule[i]).1 == i && f.schedule[i].0
            >= b.time.picoseconds)
    &&& f.signals == b.nets.signals@
    &&& f.raised == b.nets.raised@
    &&& f.steps == b.logger.steps@
    &&& f.previous == b.logger.previous@
    &&& f.last_time == b.logger.last_time
    &&& f.now == b.time.picoseconds
}

/// The board state a frame describes, once an evaluation has returned and
/// its schedule has been discharged or abandoned.
pub open spec fn frame_matches(f: EvalFrame, b: CompleteBoard) -> bool {
    &&& b.components@ == f.components
    &&& b.nets.signals@ == f.signals
    &&& b.nets.raised@ == f.raised
    &&& b.logger.steps@ == f.steps
    &&& b.logger.previous@ == f.previous
    &&& b.logger.last_time == f.last_time
    &&& b.time.picoseconds == f.now
}

/// The commits due at time `t` among the first `k` schedule entries, in
/// schedule order.
#[verifier::opaque]
pub open spec fn due_at(sched: Seq<(u64, usize)>, t: u64, k: int) -> Seq<usize>
    decreases k,
{
    if k <= 0 {
        Seq::empty()
    } else {
        let prev = due_at(sched, t, k - 1);
        if sched[k - 1].0 == t {
            prev.push(sched[k - 1].1)
        } else {
            prev
        }
    }
}

/// The schedule entries not due at `t`, among the first `k`, in order.
#[verifier::opaque]
pub open spec fn left_after(sched: Seq<(u64, usize)>, t: u64, k: int) -> Seq<(u64, usize)>
    decreases k,
{
    if k <= 0 {
        Seq::empty()
    } else {
        let prev = left_after(sched, t, k - 1);
        if sched[k - 1].0 == t {
            prev
        } else {
            prev.push(sched[k - 1])
        }
    }
}

/// The two net arrays after the buses of the first `k` listed components
/// commit their staged writes, in batch order.
#[verifier::opaque]
pub open spec fn batch_applied(
    cs: Seq<Plugged>,
    batch: Seq<usize>,
    sigs: Seq<Signal>,
    rsd: Seq<bool>,
    k: int,
) -> (Seq<Signal>, Seq<bool>)
    decreases k,
{
    if k <= 0 {
        (sigs, rsd)
    } else {
        let p = batch_applied(cs, batch, sigs, rsd, k - 1);
        let b = cs[batch[k - 1] as int].bus;
        (
            crate::bus::committed_signals(b.ids@, b.output@, p.0, b.ids@.len() as int),
            crate::bus::committed_raised(b.ids@, b.output@, p.0, p.1, b.ids@.len() as int),
        )
    }
}

/// The trace fields of frame `b` result from logging the post-commit
/// snapshot `signals` at time `t` on top of frame `a`: exactly the nets
/// whose value differs from the last emitted one are appended as one
/// batch, or nothing when none differs.
#[verifier::opaque]
pub open spec fn logged(a: EvalFrame, b: EvalFrame, signals: Seq<Signal>, t: u64, vars: nat) -> bool {
    let ds = crate::logger::diffs(a.previous, signals, vars as int);
    &&& b.previous == signals
    &&& if ds.len() == 0 {
        b.steps == a.steps && b.last_time == a.last_time
    } else {
        &&& b.steps.len() == a.steps.len() + 1
        &&& b.steps.last().time == t
        &&& b.steps.last().changes@ == ds
        &&& b.steps.take(a.steps.len() as int) == a.steps
        &&& b.last_time == t
    }
}

/// How many of the first `k` components observe a value that no longer
/// matches the nets.
pub open spec fn dirty_count(mid: Seq<Plugged>, signals: Seq<Signal>, k: int) -> int
    decreases k,
{
    if k <= 0 {
        0
    } else {
        dirty_count(mid, signals, k - 1) + (if mid[k - 1].bus.dirty_spec(signals) {
            1int
        } else {
            0int
        })
    }
}

/// Every component among the first `k` whose observed inputs no longer
/// match `signals` has been re-fired, its new commit appended to the
/// schedule no earlier than `t`, in plug order; the rest are untouched,
/// and the schedule keeps its earlier entries.
pub open spec fn refired(
    mid: Seq<Plugged>,
    post: Seq<Plugged>,
    signals: Seq<Signal>,
    base: Seq<(u64, usize)>,
    out: Seq<(u64, usize)>,
    t: u64,
    k: int,
) -> bool {
    &&& post.len() == mid.len()
    &&& out.len() == base.len() + dirty_count(mid, signals, k)
    &&& out.take(base.len() as int) == base
    &&& (forall|j: int|
        0 <= j < k && !(#[trigger] mid[j]).bus.dirty_spec(signals) ==> post[j] == mid[j])
    &&& (forall|j: int|
        0 <= j < k && (#[trigger] mid[j]).bus.dirty_spec(signals) ==> (fired(mid[j], post[j])
            && out[base.len() + dirty_count(mid, signals, j)].1 == j && out[base.len()
            + dirty_count(mid, signals, j)].0 >= t))
}

/// The dirty count never drops as more components are considered.
proof fn lemma_dirty_count_mono(mid: Seq<Plugged>, signals: Seq<Signal>, j: int, k: int)
    requires
        j <= k,
    ensures
        dirty_count(mid, signals, j) <= dirty_count(mid, signals, k),
    decreases k - j,
{
    if j < k {
        lemma_dirty_count_mono(mid, signals, j, k - 1);
    }
}

/// Packages the pieces of one sub-step into the sub-step relation.
proof fn lemma_substep_intro(a: EvalFrame, b: EvalFrame, vars: nat)
    requires
        a.schedule.len() > 0,
        exists|k: int| 0 <= k < a.schedule.len() && (#[trigger] a.schedule[k]).0 == b.now,
        forall|k: int| 0 <= k < a.schedule.len() ==> b.now <= (#[trigger] a.schedule[k]).0,
        b.signals == batch_applied(
            a.components,
            due_at(a.schedule, b.now, a.schedule.len() as int),
            a.signals,
            a.raised,
            due_at(a.schedule, b.now, a.schedule.len() as int).len() as int,
        ).0,
        logged(a, b, b.signals, b.now, vars),
        refired(
            a.components,
            b.components,
            b.signals,
            left_after(a.schedule, b.now, a.schedule.len() as int),
            b.schedule,
            b.now,
            a.components.len() as int,
        ),
        b.components.len() == a.components.len(),
        b.raised.len() == batch_applied(
            a.components,
            due_at(a.schedule, b.now, a.schedule.len() as int),
            a.signals,
            a.raised,
            due_at(a.schedule, b.now, a.schedule.len() as int).len() as int,
        ).1.len(),
        forall|j: int| 0 <= j < b.raised.len() ==> !b.raised[j],
    ensures
        substep(a, b, vars),
{
    reveal(substep);
}

/// Appending one more sub-step keeps a chain of sub-steps a chain.
proof fn lemma_chain_push(chain: Seq<EvalFrame>, f2: EvalFrame, vars: nat)
    requires
        chain.len() >= 1,
        drain_chain(chain, vars),
        substep(chain.last(), f2, vars),
    ensures
        drain_chain(chain.push(f2), vars),
        chain.push(f2).first() == chain.first(),
        chain.push(f2).last() == f2,
{
    let c2 = chain.push(f2);
    assert forall|k: int| 0 <= k < c2.len() - 1 implies substep(
        #[trigger] c2[k],
        c2[k + 1],
        vars,
    ) by {
        if k < chain.len() - 1 {
            assert(c2[k] == chain[k] && c2[k + 1] == chain[k + 1]);
            assert(substep(chain[k], chain[k + 1], vars));
        } else {
            assert(c2[k] == chain.last() && c2[k + 1] == f2);
        }
    }
}

/// One scheduler sub-step: the clock advances to the earliest scheduled
/// commit; the commits due then are applied, in order; the post-commit
/// snapshot is logged at that time; every component whose observed inputs
/// changed is re-fired and rescheduled; and the raised flags are lowered
/// again before the next sub-step.
#[verifier::opaque]
pub open spec fn substep(a: EvalFrame, b: EvalFrame, vars: nat) -> bool {
    &&& a.schedule.len() > 0
    &&& (exists|k: int| 0 <= k < a.schedule.len() && (#[trigger] a.schedule[k]).0 == b.now)
    &&& (forall|k: int| 0 <= k < a.schedule.len() ==> b.now <= (#[trigger] a.schedule[k]).0)
    &&& ({
        let batch = due_at(a.schedule, b.now, a.schedule.len() as int);
        let rest = left_after(a.schedule, b.now, a.schedule.len() as int);
        let applied = batch_applied(a.components, batch, a.signals, a.raised, batch.len() as int);
        &&& b.signals == applied.0
        &&& logged(a, b, applied.0, b.now, vars)
        &&& refired(
            a.components,
            b.components,
            applied.0,
            rest,
            b.schedule,
            b.now,
            a.components.len() as int,
        )
        &&& b.components.len() == a.components.len()
        &&& b.raised.len() == applied.1.len()
        &&& (forall|j: int| 0 <= j < b.raised.len() ==> !b.raised[j])
    })
}

/// A fan-out frame followed by scheduler sub-steps.
pub open spec fn drain_chain(chain: Seq<EvalFrame>, vars: nat) -> bool {
    forall|k: int| 0 <= k < chain.len() - 1 ==> substep(#[trigger] chain[k], chain[k + 1], vars)
}

/// A wired board: pins are resolved to nets, and components can be plugged.
pub struct WiredBoard {
    pub pin_to_net: Vec<usize>,
    pub net_count: usize,
    pub nets: NetStore,
    pub net_names: Vec<Option<String>>,
    pub components: Vec<Plugged>,
}

impl Board {
    /// Collapses the recorded connections into electrical nets: two pins
    /// share a net exactly when they are connected, directly or through
    /// other pins. All nets start undriven. Consumes the open board: no
    /// further connections can be recorded.
    pub fn wire(self) -> (r: WiredBoard)
        requires
            self.wf(),
        ensures
            r.wf(),
            r.pin_to_net@.len() == self.pin_count,
            r.net_count <= self.pin_count,
            forall|p: int, q: int|
                0 <= p < self.pin_count && 0 <= q < self.pin_count ==> (#[trigger] r.pin_to_net@[p]
                    == #[trigger] r.pin_to_net@[q] <==> connected(
                    self.connections@,
                    self.pin_count as int,
                    p,
                    q,
                )),
            forall|w: int|
                0 <= w < r.net_count ==> #[trigger] r.net_names@[w] == net_name_from(
                    self.names@,
                    r.pin_to_net@,
                    w,
                    0,
                ),
            forall|w: int|
                0 <= w < r.net_count ==> #[trigger] crate::wires::net_inhabited(
                    r.pin_to_net@,
                    self.pin_count as int,
                    w,
                ),
            r.nets.net_count() == r.net_count,
            forall|j: int| 0 <= j < r.net_count ==> r.nets.signals@[j] == Signal::HIGH,
            forall|j: int| 0 <= j < r.nets.raised@.len() ==> !r.nets.raised@[j],
            r.components@.len() == 0,
    {
        let n = self.pin_count;
        let (pin_to_net, net_count) = net_partition(n, &self.connections);
        let nets = NetStore::new_high(net_count);
        let mut net_names: Vec<Option<String>> = Vec::new();
        let mut w: usize = 0;
        while w < net_count
            invariant
                w <= net_count,
                net_names@.len() == w,
                forall|j: int| 0 <= j < w ==> #[trigger] net_names@[j] is None,
            decreases net_count - w,
        {
            net_names.push(None);
            w = w + 1;
        }
        let mut names = self.names;
        let mut p: usize = n;
        while p > 0
            invariant
                p <= n,
                names@ == self.names@.take(p as int),
                self.names@.len() == n,
                pin_to_net@.len() == n,
                net_names@.len() == net_count,
                forall|q: int| 0 <= q < n ==> (#[trigger] pin_to_net@[q] as int) < net_count,
                forall|j: int|
                    0 <= j < net_count ==> #[trigger] net_names@[j] == net_name_from(
                        self.names@,
                        pin_to_net@,
                        j,
                        p as int,
                    ),
            decreases p,
        {
            let nm = names.pop();
            p = p - 1;
            proof {
                assert(names@ =~= self.names@.take(p as int));
            }
            let ghost pre_names = net_names@;
            match nm {
                Some(entry) => {
                    match entry {
                        Some(s) => {
                            let wdx = pin_to_net[p];
                            let cur_is_none = net_names[wdx].is_none();
                            if cur_is_none {
                                net_names.set(wdx, Some(s));
                            }
                        },
                        None => {},
                    }
                },
                None => {},
            }
            proof {
                assert forall|j: int| 0 <= j < net_count implies #[trigger] net_names@[j]
                    == net_name_from(self.names@, pin_to_net@, j, p as int) by {
                    if pin_to_net@[p as int] == j && self.names@[p as int] is Some {
                        if pre_names[j] is None {
                            assert(net_names@[j] == self.names@[p as int]);
                        } else {
                            assert(net_names@[j] == pre_names[j]);
                        }
                    } else {
                        assert(net_names@[j] == pre_names[j]);
                    }
                }
            }
        }
        WiredBoard { pin_to_net, net_count, nets, net_names, components: Vec::new() }
    }
}

impl WiredBoard {
    /// Every pin maps to a real net, the net store covers exactly the nets,
    /// and every plugged component is consistently hooked up.
    pub open spec fn wf(&self) -> bool {
        &&& self.nets.wf()
        &&& self.nets.net_count() == self.net_count
        &&& self.net_names@.len() == self.net_count
        &&& forall|p: int|
            0 <= p < self.pin_to_net@.len() ==> (#[trigger] self.pin_to_net@[p] as int)
                < self.net_count
        &&& parts_wf(self.components@, self.nets)
    }

    /// Plugs a component into a socket: binds the component's local pins to
    /// the socket's nets, builds its bus, and hooks the component up.
    pub fn plug(&mut self, component: AnyComponent, socket: Socket)
        requires
            old(self).wf(),
            component.pins_fit(socket.size as nat),
            socket.location + socket.size <= old(self).pin_to_net@.len(),
        ensures
            final(self).wf(),
            final(self).pin_to_net@ == old(self).pin_to_net@,
            final(self).net_count == old(self).net_count,
            final(self).nets == old(self).nets,
            final(self).net_names@ == old(self).net_names@,
            final(self).components@.len() == old(self).components@.len() + 1,
            final(self).components@.take(old(self).components@.len() as int) == old(
                self,
            ).components@,
            final(self).components@.last().bus.ids@ == old(self).pin_to_net@.subrange(
                socket.location as int,
                socket.location + socket.size,
            ),
            forall|i: int|
                0 <= i < final(self).components@.last().bus.read@.len()
                    ==> final(self).components@.last().bus.read@[i] == crate::bus::IOAction::Idle,
            forall|i: int|
                0 <= i < final(self).components@.last().bus.output@.len()
                    ==> final(self).components@.last().bus.output@[i]
                    == crate::bus::IOAction::Idle,
            same_kind(final(self).components@.last().part, component),
    {
        let mut ids: Vec<usize> = Vec::new();
        let total = self.pin_to_net.len();
        let mut i: usize = 0;
        while i < socket.size
            invariant
                i <= socket.size,
                total == self.pin_to_net@.len(),
                socket.location + socket.size <= self.pin_to_net@.len(),
                ids@.len() == i,
                forall|k: int|
                    0 <= k < i ==> #[trigger] ids@[k] == self.pin_to_net@[socket.location + k],
                self == old(self),
            decreases socket.size - i,
        {
            ids.push(self.pin_to_net[socket.location + i]);
            i = i + 1;
        }
        proof {
            assert(ids@ =~= self.pin_to_net@.subrange(
                socket.location as int,
                socket.location + socket.size,
            ));
        }
        let bus = Bus::new(ids);
        let mut part = component;
        part.connect(&bus);
        self.components.push(Plugged { part, bus });
        proof {
            assert(final(self).components@.take(old(self).components@.len() as int) =~= old(
                self,
            ).components@);
        }
    }

    /// Seals the board: initializes the trace over the wired nets. No
    /// further component can be plugged.
    pub fn complete(self) -> (r: CompleteBoard)
        requires
            self.wf(),
            forall|j: int| 0 <= j < self.nets.raised@.len() ==> !self.nets.raised@[j],
        ensures
            r.wf(),
            r.components@ == self.components@,
            r.nets == self.nets,
            r.time.picoseconds == 0,
            r.logger.vars == self.net_count,
            r.logger.names@ == self.net_names@,
            r.logger.steps@.len() == 0,
    {
        let len = self.nets.signals.len();
        let logger = Logger::new(len, self.net_names);
        CompleteBoard {
            components: self.components,
            nets: self.nets,
            time: Delay::no_delay(),
            logger,
        }
    }
}

/// A sealed board that can advance simulated time.
pub struct CompleteBoard {
    pub components: Vec<Plugged>,
    pub nets: NetStore,
    pub time: Delay,
    pub logger: Logger,
}

/// Every scheduled commit lies in the future and names a real component.
pub open spec fn sched_ok(sched: Seq<(u64, usize)>, now: u64, n: int) -> bool {
    forall|k: int|
        0 <= k < sched.len() ==> ((#[trigger] sched[k]).0 >= now && (sched[k].1 as int) < n)
}

/// Addition capped at the top of the time scale.
fn sat_add(a: u64, b: u64) -> (r: u64)
    ensures
        r as int == if a + b <= u64::MAX {
            a + b
        } else {
            u64::MAX as int
        },
        r >= a,
{
    if b <= u64::MAX - a {
        a + b
    } else {
        u64::MAX
    }
}

/// Clears a component's bus and evaluates it once.
fn fire(pc: &mut Plugged, nets: &NetStore) -> (d: Delay)
    requires
        old(pc).bus.wf(),
        old(pc).bus.nets_compat(nets),
        nets.wf(),
        old(pc).part.ready(old(pc).bus.pin_count()),
    ensures
        final(pc).bus.wf(),
        final(pc).bus.ids@ == old(pc).bus.ids@,
        final(pc).bus.nets_compat(nets),
        final(pc).part.ready(final(pc).bus.pin_count()),
        same_kind(final(pc).part, old(pc).part),
{
    pc.bus.clear();
    pc.part.eval(&mut pc.bus, nets)
}

/// The earliest scheduled time.
fn min_time(sched: &Vec<(u64, usize)>) -> (r: u64)
    requires
        sched@.len() > 0,
    ensures
        forall|k: int| 0 <= k < sched@.len() ==> r <= (#[trigger] sched@[k]).0,
        exists|k: int| 0 <= k < sched@.len() && r == (#[trigger] sched@[k]).0,
{
    let n = sched.len();
    let mut best: u64 = sched[0].0;
    let mut i: usize = 1;
    while i < n
        invariant
            1 <= i <= n,
            n == sched@.len(),
            forall|k: int| 0 <= k < i ==> best <= (#[trigger] sched@[k]).0,
            exists|k: int| 0 <= k < i && best == (#[trigger] sched@[k]).0,
        decreases n - i,
    {
        if sched[i].0 < best {
            best = sched[i].0;
        }
        i = i + 1;
    }
    best
}

/// Splits the schedule into the commits due at `t`, in insertion order, and
/// the rest.
fn split_batch(sched: Vec<(u64, usize)>, t: u64, Ghost(n): Ghost<int>) -> (r: (
    Vec<usize>,
    Vec<(u64, usize)>,
))
    requires
        sched_ok(sched@, t, n),
    ensures
        forall|j: int| 0 <= j < r.0@.len() ==> ((#[trigger] r.0@[j]) as int) < n,
        sched_ok(r.1@, t, n),
        r.0@ == due_at(sched@, t, sched@.len() as int),
        r.1@ == left_after(sched@, t, sched@.len() as int),
{
    let m = sched.len();
    let mut batch: Vec<usize> = Vec::new();
    let mut rest: Vec<(u64, usize)> = Vec::new();
    proof {
        reveal(due_at);
        reveal(left_after);
    }
    let mut k: usize = 0;
    while k < m
        invariant
            k <= m,
            m == sched@.len(),
            sched_ok(sched@, t, n),
            forall|j: int| 0 <= j < batch@.len() ==> ((#[trigger] batch@[j]) as int) < n,
            sched_ok(rest@, t, n),
            batch@ == due_at(sched@, t, k as int),
            rest@ == left_after(sched@, t, k as int),
        decreases m - k,
    {
        let (et, ec) = sched[k];
        if et == t {
            batch.push(ec);
        } else {
            rest.push((et, ec));
        }
        proof {
            reveal(due_at);
            reveal(left_after);
        }
        k = k + 1;
    }
    (batch, rest)
}

proof fn lemma_prefix_trans<T>(a: Seq<T>, b: Seq<T>, c: Seq<T>)
    requires
        a.is_prefix_of(b),
        b.is_prefix_of(c),
    ensures
        a.is_prefix_of(c),
{
    assert(c.take(a.len() as int) =~= a);
}

impl CompleteBoard {
    /// Everything is sized consistently, the trace is faithful and behind
    /// the clock, and no raised flag survives between evaluations.
    pub open spec fn wf(&self) -> bool {
        &&& self.nets.wf()
        &&& parts_wf(self.components@, self.nets)
        &&& self.logger.wf()
        &&& self.logger.vars == self.nets.signals@.len()
        &&& self.logger.last_time <= self.time.picoseconds
        &&& forall|j: int| 0 <= j < self.nets.raised@.len() ==> !self.nets.raised@[j]
    }

    /// Moves the clock; the trace never runs backwards, so the new time
    /// cannot precede what has already been logged.
    pub fn move_time(&mut self, time: Delay)
        requires
            old(self).wf(),
            time.picoseconds >= old(self).logger.last_time,
        ensures
            final(self).wf(),
            final(self).time == time,
            final(self).components@ == old(self).components@,
            final(self).nets == old(self).nets,
            final(self).logger == old(self).logger,
    {
        self.time = time;
    }

    /// The re-fire pass of one sub-step: every component whose observed
    /// inputs no longer match the nets is fired again, its new commit
    /// scheduled no earlier than `t`; the rest are untouched. Returns the
    /// grown schedule, which is empty only if it came in empty and no
    /// component was dirty.
    #[verifier::rlimit(100)]
    #[verifier::spinoff_prover]
    fn refire_all(&mut self, schedule: Vec<(u64, usize)>, t: u64) -> (r: Vec<(u64, usize)>)
        requires
            old(self).nets.wf(),
            parts_wf(old(self).components@, old(self).nets),
            sched_ok(schedule@, t, old(self).components@.len() as int),
        ensures
            final(self).nets == old(self).nets,
            final(self).logger == old(self).logger,
            final(self).time == old(self).time,
            final(self).components@.len() == old(self).components@.len(),
            parts_wf(final(self).components@, final(self).nets),
            same_shape(final(self).components@, old(self).components@),
            sched_ok(r@, t, final(self).components@.len() as int),
            refired(
                old(self).components@,
                final(self).components@,
                old(self).nets.signals@,
                schedule@,
                r@,
                t,
                old(self).components@.len() as int,
            ),
            r@.len() == 0 ==> all_clean(final(self).components@, final(self).nets.signals@),
    {
        let ghost n_int = self.components@.len() as int;
        let n = self.components.len();
        let mut schedule = schedule;
        let ghost cs_pre = self.components@;
        let ghost sched_len_pre = schedule@.len();
        let ghost sched_base = schedule@;
            proof {
                assert(schedule@.take(sched_base.len() as int) =~= sched_base);
            }
            let mut i2: usize = 0;
            while i2 < n
                invariant
                    i2 <= n,
                    n == self.components@.len(),
                    n_int == n as int,
                    cs_pre.len() == n,
                    self.nets.wf(),
                    self.nets == old(self).nets,
                    self.logger == old(self).logger,
                    self.time == old(self).time,
                    parts_wf(self.components@, self.nets),
                    same_shape(self.components@, cs_pre),
                    sched_ok(schedule@, t, n_int),
                    sched_len_pre == sched_base.len(),
                    schedule@.len() == sched_base.len() + dirty_count(
                        cs_pre,
                        self.nets.signals@,
                        i2 as int,
                    ),
                    forall|j: int| i2 <= j < n ==> self.components@[j] == cs_pre[j],
                    refired(
                        cs_pre,
                        self.components@,
                        self.nets.signals@,
                        sched_base,
                        schedule@,
                        t,
                        i2 as int,
                    ),
                    schedule@.len() == sched_len_pre ==> (self.components@ =~= cs_pre
                        && forall|j: int|
                        0 <= j < i2 ==> !(#[trigger] cs_pre[j]).bus.dirty_spec(
                            self.nets.signals@,
                        )),
                decreases n - i2,
            {
                let ghost comps_pre_step = self.components@;
                let ghost sched_pre_step = schedule@;
                let dirty = self.components[i2].bus.is_dirty(&self.nets);
                if dirty {
                    let d = fire(&mut self.components[i2], &self.nets);
                    let key = sat_add(t, d.picoseconds);
                    schedule.push((key, i2));
                    proof {
                        assert(refired(
                            cs_pre,
                            comps_pre_step,
                            self.nets.signals@,
                            sched_base,
                            sched_pre_step,
                            t,
                            i2 as int,
                        ));
                        lemma_dirty_count_mono(cs_pre, self.nets.signals@, 0, i2 as int);
                        assert(fired(cs_pre[i2 as int], self.components@[i2 as int]));
                        assert(schedule@ == sched_pre_step.push((key, i2)));
                        assert(sched_pre_step.take(sched_base.len() as int) == sched_base);
                        assert forall|q: int| 0 <= q < sched_base.len() implies schedule@.take(
                            sched_base.len() as int,
                        )[q] == sched_base[q] by {
                            assert(schedule@[q] == sched_pre_step[q]);
                            assert(sched_pre_step.take(sched_base.len() as int)[q]
                                == sched_pre_step[q]);
                        }
                        assert(schedule@.take(sched_base.len() as int) =~= sched_base);
                        assert(schedule@[sched_base.len() + dirty_count(
                            cs_pre,
                            self.nets.signals@,
                            i2 as int,
                        )] == (key, i2));
                        assert forall|j: int|
                            0 <= j < i2 + 1 && (#[trigger] cs_pre[j]).bus.dirty_spec(
                                self.nets.signals@,
                            ) implies (fired(cs_pre[j], self.components@[j])
                            && schedule@[sched_base.len() + dirty_count(
                            cs_pre,
                            self.nets.signals@,
                            j,
                        )].1 == j && schedule@[sched_base.len() + dirty_count(
                            cs_pre,
                            self.nets.signals@,
                            j,
                        )].0 >= t) by {
                            if j < i2 {
                                lemma_dirty_count_mono(cs_pre, self.nets.signals@, 0, j);
                                lemma_dirty_count_mono(
                                    cs_pre,
                                    self.nets.signals@,
                                    j + 1,
                                    i2 as int,
                                );
                                assert(fired(cs_pre[j], comps_pre_step[j]));
                                assert(self.components@[j] == comps_pre_step[j]);
                                let pos = sched_base.len() + dirty_count(
                                    cs_pre,
                                    self.nets.signals@,
                                    j,
                                );
                                assert(pos < sched_pre_step.len());
                                assert(sched_pre_step[pos].1 == j && sched_pre_step[pos].0 >= t);
                                assert(schedule@[pos] == sched_pre_step[pos]);
                            }
                        }
                    }
                } else {
                    proof {
                        assert(refired(
                            cs_pre,
                            comps_pre_step,
                            self.nets.signals@,
                            sched_base,
                            sched_pre_step,
                            t,
                            i2 as int,
                        ));
                        assert forall|j: int|
                            0 <= j < i2 + 1 && (#[trigger] cs_pre[j]).bus.dirty_spec(
                                self.nets.signals@,
                            ) implies (fired(cs_pre[j], self.components@[j])
                            && schedule@[sched_base.len() + dirty_count(
                            cs_pre,
                            self.nets.signals@,
                            j,
                        )].1 == j && schedule@[sched_base.len() + dirty_count(
                            cs_pre,
                            self.nets.signals@,
                            j,
                        )].0 >= t) by {
                            assert(j < i2);
                        }
                    }
                }
                i2 = i2 + 1;
            }
        proof {
            if schedule@.len() == 0 {
                lemma_dirty_count_mono(cs_pre, self.nets.signals@, 0, n_int);
                assert(schedule@.len() == sched_len_pre);
                assert(self.components@ =~= cs_pre);
                assert forall|i: int|
                    0 <= i < self.components@.len() implies !(
                #[trigger] self.components@[i]).bus.dirty_spec(self.nets.signals@) by {
                    assert(self.components@[i] == cs_pre[i]);
                    assert(!cs_pre[i].bus.dirty_spec(self.nets.signals@));
                }
            }
        }
        schedule
    }

    /// Applies the staged writes of the listed components to the nets, in
    /// batch order.
    #[verifier::rlimit(100)]
    fn apply_due(
        &mut self,
        batch: &Vec<usize>,
        Ghost(cs_b): Ghost<Seq<Plugged>>,
        Ghost(sigs0): Ghost<Seq<Signal>>,
        Ghost(raised0): Ghost<Seq<bool>>,
    )
        requires
            old(self).nets.wf(),
            parts_wf(old(self).components@, old(self).nets),
            forall|j: int|
                0 <= j < batch@.len() ==> ((#[trigger] batch@[j]) as int)
                    < old(self).components@.len(),
            cs_b == old(self).components@,
            sigs0 == old(self).nets.signals@,
            raised0 == old(self).nets.raised@,
        ensures
            final(self).components@ == old(self).components@,
            final(self).logger == old(self).logger,
            final(self).time == old(self).time,
            final(self).nets.wf(),
            final(self).nets.signals@.len() == old(self).nets.signals@.len(),
            parts_wf(final(self).components@, final(self).nets),
            final(self).nets.signals@ == batch_applied(
                cs_b,
                batch@,
                sigs0,
                raised0,
                batch@.len() as int,
            ).0,
            final(self).nets.raised@ == batch_applied(
                cs_b,
                batch@,
                sigs0,
                raised0,
                batch@.len() as int,
            ).1,
    {
        let ghost n_int = self.components@.len() as int;
        proof {
            reveal(batch_applied);
        }
        let bn = batch.len();
        let mut b: usize = 0;
        while b < bn
            invariant
                b <= bn,
                bn == batch@.len(),
                n_int == self.components@.len() as int,
                forall|j: int| 0 <= j < batch@.len() ==> ((#[trigger] batch@[j]) as int) < n_int,
                self.nets.wf(),
                self.nets.signals@.len() == old(self).nets.signals@.len(),
                parts_wf(self.components@, self.nets),
                self.logger == old(self).logger,
                self.time == old(self).time,
                self.components@ == cs_b,
                self.nets.signals@ == batch_applied(cs_b, batch@, sigs0, raised0, b as int).0,
                self.nets.raised@ == batch_applied(cs_b, batch@, sigs0, raised0, b as int).1,
            decreases bn - b,
        {
            let idx = batch[b];
            let pc = &self.components[idx];
            pc.bus.apply(&mut self.nets);
            proof {
                reveal(batch_applied);
            }
            b = b + 1;
        }
    }

    /// The commit phase of one sub-step: advances the clock to the
    /// earliest scheduled time, applies the commits due then in order, and
    /// logs the post-commit snapshot at that time. Returns the remaining
    /// schedule and the new clock.
    #[verifier::rlimit(100)]
    #[verifier::spinoff_prover]
    fn commit_due(
        &mut self,
        schedule: Vec<(u64, usize)>,
        prev_now: u64,
        Ghost(vars): Ghost<nat>,
    ) -> (r: (Vec<(u64, usize)>, u64))
        requires
            old(self).nets.wf(),
            parts_wf(old(self).components@, old(self).nets),
            old(self).logger.wf(),
            old(self).logger.vars as nat == vars,
            old(self).logger.vars == old(self).nets.signals@.len(),
            old(self).logger.last_time <= prev_now,
            schedule@.len() > 0,
            sched_ok(schedule@, prev_now, old(self).components@.len() as int),
        ensures
            final(self).components@ == old(self).components@,
            final(self).time == old(self).time,
            final(self).nets.wf(),
            final(self).nets.signals@.len() == old(self).nets.signals@.len(),
            final(self).logger.wf(),
            final(self).logger.vars == old(self).logger.vars,
            final(self).logger.names@ == old(self).logger.names@,
            final(self).logger.last_time <= r.1,
            old(self).logger.steps@.is_prefix_of(final(self).logger.steps@),
            forall|k: int|
                old(self).logger.steps@.len() <= k < final(self).logger.steps@.len() ==> (
                #[trigger] final(self).logger.steps@[k]).time == r.1,
            r.1 >= prev_now,
            exists|k: int| 0 <= k < schedule@.len() && (#[trigger] schedule@[k]).0 == r.1,
            forall|k: int| 0 <= k < schedule@.len() ==> r.1 <= (#[trigger] schedule@[k]).0,
            r.0@ == left_after(schedule@, r.1, schedule@.len() as int),
            sched_ok(r.0@, r.1, old(self).components@.len() as int),
            ({
                let batch = due_at(schedule@, r.1, schedule@.len() as int);
                let applied = batch_applied(
                    old(self).components@,
                    batch,
                    old(self).nets.signals@,
                    old(self).nets.raised@,
                    batch.len() as int,
                );
                final(self).nets.signals@ == applied.0 && final(self).nets.raised@ == applied.1
            }),
            final(self).logger.previous@ == final(self).nets.signals@,
            ({
                let ds = crate::logger::diffs(
                    old(self).logger.previous@,
                    final(self).nets.signals@,
                    old(self).logger.vars as int,
                );
                if ds.len() == 0 {
                    final(self).logger.steps@ == old(self).logger.steps@
                        && final(self).logger.last_time == old(self).logger.last_time
                } else {
                    final(self).logger.steps@.len() == old(self).logger.steps@.len() + 1
                        && final(self).logger.steps@.last().time == r.1
                        && final(self).logger.steps@.last().changes@ == ds
                        && final(self).logger.steps@.take(old(self).logger.steps@.len() as int)
                            == old(self).logger.steps@
                        && final(self).logger.last_time == r.1
                }
            }),
    {
        let ghost n_int = self.components@.len() as int;
        let t = min_time(&schedule);
        proof {
            let k = choose|k: int| 0 <= k < schedule@.len() && t == (#[trigger] schedule@[k]).0;
            assert(t >= prev_now);
        }
        let ghost sched_pre = schedule@;
        let (batch, rest) = split_batch(schedule, t, Ghost(n_int));
        let ghost cs_b = self.components@;
        let ghost sigs0 = self.nets.signals@;
        let ghost raised0 = self.nets.raised@;
        self.apply_due(&batch, Ghost(cs_b), Ghost(sigs0), Ghost(raised0));
        self.logger.log(&self.nets.signals, &Delay { picoseconds: t });
        proof {
            if self.logger.steps@.len() == old(self).logger.steps@.len() {
                assert(old(self).logger.steps@.is_prefix_of(self.logger.steps@)) by {
                    assert(self.logger.steps@.take(old(self).logger.steps@.len() as int)
                        =~= old(self).logger.steps@);
                }
            }
        }
        (rest, t)
    }

    /// One scheduler sub-step, taken out of the drain loop: advances the
    /// clock to the earliest scheduled commit, applies the commits due
    /// then in order, logs the post-commit snapshot, re-fires every
    /// component whose observed inputs changed, lowers the raised flags,
    /// and hands back the remaining schedule and the new clock.
    #[verifier::rlimit(100)]
    #[verifier::spinoff_prover]
    fn drain_step(
        &mut self,
        schedule: Vec<(u64, usize)>,
        prev_now: u64,
        Ghost(a): Ghost<EvalFrame>,
        Ghost(vars): Ghost<nat>,
    ) -> (r: (Vec<(u64, usize)>, u64))
        requires
            old(self).nets.wf(),
            parts_wf(old(self).components@, old(self).nets),
            old(self).logger.wf(),
            old(self).logger.vars as nat == vars,
            old(self).logger.vars == old(self).nets.signals@.len(),
            old(self).logger.last_time <= prev_now,
            schedule@.len() > 0,
            sched_ok(schedule@, prev_now, old(self).components@.len() as int),
            a == (EvalFrame {
                components: old(self).components@,
                signals: old(self).nets.signals@,
                raised: old(self).nets.raised@,
                steps: old(self).logger.steps@,
                previous: old(self).logger.previous@,
                last_time: old(self).logger.last_time,
                schedule: schedule@,
                now: prev_now,
            }),
        ensures
            final(self).nets.wf(),
            final(self).nets.signals@.len() == old(self).nets.signals@.len(),
            parts_wf(final(self).components@, final(self).nets),
            same_shape(final(self).components@, old(self).components@),
            final(self).logger.wf(),
            final(self).logger.vars == old(self).logger.vars,
            final(self).logger.names@ == old(self).logger.names@,
            old(self).logger.steps@.is_prefix_of(final(self).logger.steps@),
            final(self).logger.last_time <= r.1,
            final(self).time == old(self).time,
            r.1 >= prev_now,
            sched_ok(r.0@, r.1, final(self).components@.len() as int),
            forall|j: int|
                0 <= j < final(self).nets.raised@.len() ==> !final(self).nets.raised@[j],
            forall|k: int|
                old(self).logger.steps@.len() <= k < final(self).logger.steps@.len() ==> (
                #[trigger] final(self).logger.steps@[k]).time >= prev_now,
            r.0@.len() == 0 ==> all_clean(final(self).components@, final(self).nets.signals@),
            substep(
                a,
                (EvalFrame {
                    components: final(self).components@,
                    signals: final(self).nets.signals@,
                    raised: final(self).nets.raised@,
                    steps: final(self).logger.steps@,
                    previous: final(self).logger.previous@,
                    last_time: final(self).logger.last_time,
                    schedule: r.0@,
                    now: r.1,
                }),
                vars,
            ),
    {
        let ghost n_int = self.components@.len() as int;
        let ghost sched_pre = schedule@;
        let ghost cs_b = self.components@;
        let ghost sigs0 = self.nets.signals@;
        let ghost raised0 = self.nets.raised@;
        let ghost logger0 = self.logger;
        let (rest, t) = self.commit_due(schedule, prev_now, Ghost(vars));
        let ghost batch = due_at(sched_pre, t, sched_pre.len() as int);
        let ghost applied = batch_applied(cs_b, batch, sigs0, raised0, batch.len() as int);
        let ghost cs_pre = self.components@;
        let ghost sched_base = rest@;
        let ghost logger_mid = self.logger;
        let schedule = self.refire_all(rest, t);
        self.nets.reset_raised();
        proof {
            let f2 = EvalFrame {
                components: self.components@,
                signals: self.nets.signals@,
                raised: self.nets.raised@,
                steps: self.logger.steps@,
                previous: self.logger.previous@,
                last_time: self.logger.last_time,
                schedule: schedule@,
                now: t,
            };
            assert(f2.signals == applied.0);
            assert(a.schedule == sched_pre);
            let kw = choose|k: int| 0 <= k < sched_pre.len() && (#[trigger] sched_pre[k]).0 == t;
            assert(0 <= kw < a.schedule.len() && a.schedule[kw].0 == f2.now);
            assert(logged(a, f2, applied.0, t, vars)) by {
                reveal(logged);
            }
            assert(refired(cs_pre, f2.components, applied.0, sched_base, f2.schedule, t, n_int));
            lemma_substep_intro(a, f2, vars);
        }
        (schedule, t)
    }

    /// Runs the scheduler to quiescence: evaluates every component, commits
    /// scheduled outputs in time order, logs every transition, and re-fires
    /// any component whose observed inputs changed. Returns whether the
    /// board settled; it does unless the circuit oscillates past the time
    /// horizon. The whole behaviour is `eval_rel`: a fan-out of every
    /// component followed by scheduler sub-steps, with the schedule drained
    /// exactly when the call reports settling.
    #[verifier::rlimit(100)]
    #[verifier::spinoff_prover]
    pub fn eval(&mut self) -> (settled: bool)
        requires
            old(self).wf(),
        ensures
            eval_rel(*old(self), *final(self), settled),
    {
        let ghost n_int = self.components@.len() as int;
        let ghost vars_g = old(self).logger.vars as nat;
        let mut now: u64 = self.time.picoseconds;
        let mut schedule: Vec<(u64, usize)> = Vec::new();
        let n = self.components.len();
        let mut i: usize = 0;
        while i < n
            invariant
                i <= n,
                n == self.components@.len(),
                n_int == n as int,
                self.nets == old(self).nets,
                self.logger == old(self).logger,
                self.time == old(self).time,
                now == old(self).time.picoseconds,
                old(self).wf(),
                self.nets.wf(),
                parts_wf(self.components@, self.nets),
                same_shape(self.components@, old(self).components@),
                sched_ok(schedule@, now, n_int),
                schedule@.len() == i,
                forall|j: int|
                    0 <= j < i ==> fired(old(self).components@[j], #[trigger] self.components@[j]),
                forall|j: int| i <= j < n ==> self.components@[j] == old(self).components@[j],
                forall|j: int|
                    0 <= j < i ==> ((#[trigger] schedule@[j]).1 == j && schedule@[j].0 >= now),
            decreases n - i,
        {
            let d = fire(&mut self.components[i], &self.nets);
            schedule.push((sat_add(now, d.picoseconds), i));
            i = i + 1;
        }
        let ghost frame0 = (EvalFrame {
            components: self.components@,
            signals: self.nets.signals@,
            raised: self.nets.raised@,
            steps: self.logger.steps@,
            previous: self.logger.previous@,
            last_time: self.logger.last_time,
            schedule: schedule@,
            now,
        });
        let ghost mut chain: Seq<EvalFrame> = seq![frame0];
        proof {
            reveal(fanned_out);
            assert(fanned_out(*old(self), frame0));
            assert(old(self).logger.steps@.is_prefix_of(self.logger.steps@)) by {
                assert(self.logger.steps@.take(old(self).logger.steps@.len() as int)
                    =~= old(self).logger.steps@);
            }
        }
        let mut budget: u64 = u64::MAX;
        while schedule.len() > 0 && budget > 0
            invariant
                n == self.components@.len(),
                n_int == n as int,
                vars_g == old(self).logger.vars as nat,
                old(self).wf(),
                self.time == old(self).time,
                now >= old(self).time.picoseconds,
                self.nets.wf(),
                self.nets.signals@.len() == old(self).nets.signals@.len(),
                parts_wf(self.components@, self.nets),
                same_shape(self.components@, old(self).components@),
                self.logger.wf(),
                self.logger.vars == old(self).logger.vars,
                self.logger.names@ == old(self).logger.names@,
                old(self).logger.steps@.is_prefix_of(self.logger.steps@),
                self.logger.last_time <= now,
                sched_ok(schedule@, now, n_int),
                schedule@.len() == 0 ==> all_clean(self.components@, self.nets.signals@),
                forall|j: int| 0 <= j < self.nets.raised@.len() ==> !self.nets.raised@[j],
                forall|k: int|
                    old(self).logger.steps@.len() <= k < self.logger.steps@.len() ==> (
                    #[trigger] self.logger.steps@[k]).time >= old(self).time.picoseconds,
                n == 0 ==> (self.nets == old(self).nets && self.logger == old(self).logger
                    && self.components@ =~= old(self).components@ && now
                    == old(self).time.picoseconds),
                chain.len() >= 1,
                chain.len() == 1 + (u64::MAX - budget),
                fanned_out(*old(self), chain.first()),
                drain_chain(chain, vars_g),
                chain.last().components == self.components@,
                chain.last().signals == self.nets.signals@,
                chain.last().raised == self.nets.raised@,
                chain.last().steps == self.logger.steps@,
                chain.last().previous == self.logger.previous@,
                chain.last().last_time == self.logger.last_time,
                chain.last().schedule == schedule@,
                chain.last().now == now,
            decreases budget,
        {
            budget = budget - 1;
            proof {
                if n == 0 {
                    assert((schedule@[0].1 as int) < n_int);
                }
            }
            let ghost a_frame = chain.last();
            let ghost steps_mid = self.logger.steps@;
            let (sched2, t) = self.drain_step(schedule, now, Ghost(a_frame), Ghost(vars_g));
            schedule = sched2;
            now = t;
            proof {
                let f2 = EvalFrame {
                    components: self.components@,
                    signals: self.nets.signals@,
                    raised: self.nets.raised@,
                    steps: self.logger.steps@,
                    previous: self.logger.previous@,
                    last_time: self.logger.last_time,
                    schedule: schedule@,
                    now,
                };
                assert(substep(a_frame, f2, vars_g));
                let old_chain = chain;
                lemma_chain_push(old_chain, f2, vars_g);
                chain = chain.push(f2);
                assert(chain.first() == old_chain.first());
                lemma_prefix_trans(old(self).logger.steps@, steps_mid, self.logger.steps@);
                assert forall|k: int|
                    old(self).logger.steps@.len() <= k < self.logger.steps@.len() implies (
                #[trigger] self.logger.steps@[k]).time >= old(self).time.picoseconds by {
                    if k < steps_mid.len() {
                        assert(self.logger.steps@.take(steps_mid.len() as int)[k]
                            == self.logger.steps@[k]);
                        assert(self.logger.steps@[k] == steps_mid[k]);
                    }
                }
            }
        }
        let settled = schedule.len() == 0;
        self.time = Delay { picoseconds: now };
        proof {
            if n == 0 {
                assert(self.components@ == old(self).components@);
                assert(self.time == old(self).time);
            }
            assert(fanned_out(*old(self), chain.first()));
            assert(frame_matches(chain.last(), *self));
            if !settled {
                assert(chain.len() > u64::MAX);
            }
        }
        settled
    }

    /// Chooses the value an input probe will drive from its next
    /// evaluation on.
    pub fn set_input(&mut self, idx: usize, value: Signal)
        requires
            old(self).wf(),
            idx < old(self).components@.len(),
            old(self).components@[idx as int].part is ProbeIn,
        ensures
            final(self).wf(),
            final(self).nets == old(self).nets,
            final(self).logger == old(self).logger,
            final(self).time == old(self).time,
            same_shape(final(self).components@, old(self).components@),
            forall|i: int|
                0 <= i < old(self).components@.len() && i != idx ==> final(self).components@[i]
                    == old(self).components@[i],
            final(self).components@[idx as int].bus == old(self).components@[idx as int].bus,
            (final(self).components@[idx as int].part matches AnyComponent::ProbeIn(pr)
                && pr.value == value),
    {
        let pc = &mut self.components[idx];
        match &mut pc.part {
            AnyComponent::ProbeIn(p) => p.set(value),
            _ => {},
        }
    }

    /// The value an output probe latched at its last evaluation.
    pub fn get_output(&self, idx: usize) -> (r: Signal)
        requires
            idx < self.components@.len(),
            self.components@[idx as int].part is ProbeOut,
        ensures
            r == probe_out_value(self, idx as int),
    {
        match &self.components[idx].part {
            AnyComponent::ProbeOut(p) => p.get(),
            _ => Signal::HIGH,
        }
    }
}

/// Everything one evaluation promises, as a relation from the board
/// before the call to the board after it: well-formedness and shape are
/// kept, time and the trace only move forward, the raised flags end
/// lowered, and the new state is reached by a fan-out of every component
/// followed by scheduler sub-steps, the schedule drained exactly when the
/// call reports settling. A not-settled report comes only after a time
/// horizon's worth of sub-steps.
pub open spec fn eval_rel(pre: CompleteBoard, post: CompleteBoard, settled: bool) -> bool {
    &&& post.wf()
    &&& post.time.picoseconds >= pre.time.picoseconds
    &&& same_shape(post.components@, pre.components@)
    &&& post.nets.signals@.len() == pre.nets.signals@.len()
    &&& post.logger.vars == pre.logger.vars
    &&& post.logger.names@ == pre.logger.names@
    &&& pre.logger.steps@.is_prefix_of(post.logger.steps@)
    &&& (settled ==> all_clean(post.components@, post.nets.signals@))
    &&& (forall|j: int| 0 <= j < post.nets.raised@.len() ==> !post.nets.raised@[j])
    &&& (forall|k: int|
        pre.logger.steps@.len() <= k < post.logger.steps@.len() ==> (
        #[trigger] post.logger.steps@[k]).time >= pre.time.picoseconds)
    &&& (pre.components@.len() == 0 ==> (post.nets == pre.nets && post.logger == pre.logger
        && post.components@ == pre.components@ && post.time == pre.time))
    &&& (exists|chain: Seq<EvalFrame>|
        {
            &&& chain.len() >= 1
            &&& #[trigger] fanned_out(pre, chain.first())
            &&& drain_chain(chain, pre.logger.vars as nat)
            &&& frame_matches(chain.last(), post)
            &&& (settled <==> chain.last().schedule.len() == 0)
            &&& (!settled ==> chain.len() > u64::MAX)
        })
}

/// The value last latched by the output probe plugged at `idx`.
pub open spec fn probe_out_value(board: &CompleteBoard, idx: int) -> Signal {
    match board.components@[idx].part {
        AnyComponent::ProbeOut(p) => p.value,
        _ => Signal::HIGH,
    }
}

} // verus!
