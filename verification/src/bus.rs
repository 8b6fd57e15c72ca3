//! Three-valued signals, the global net store, and the per-component bus
//! through which a component reads and drives its nets.

use vstd::prelude::*;

verus! {

/// A three-valued logic level. `HIGH` is high-impedance: undriven or unknown.
#[derive(PartialEq, Eq, Structural, Debug, Copy, Clone)]
pub enum Signal {
    ZERO,
    ONE,
    HIGH,
}

/// A staged pin interaction: either nothing happened, or a signal was
/// observed (for reads) or driven (for writes).
#[derive(PartialEq, Eq, Structural, Debug, Copy, Clone)]
pub enum IOAction {
    Idle,
    IO(Signal),
}

/// The global per-net state: the current value of every net and, for the
/// current sub-step only, whether the net just rose `ZERO -> ONE`.
pub struct NetStore {
    pub signals: Vec<Signal>,
    pub raised: Vec<bool>,
}

impl NetStore {
    /// Both per-net arrays cover the same nets.
    pub open spec fn wf(&self) -> bool {
        self.signals@.len() == self.raised@.len()
    }

    pub open spec fn net_count(&self) -> nat {
        self.signals@.len()
    }

    /// A store over `count` nets, all initially undriven and unraised.
    pub fn new_high(count: usize) -> (r: Self)
        ensures
            r.wf(),
            r.net_count() == count,
            forall|j: int| 0 <= j < count ==> r.signals@[j] == Signal::HIGH,
            forall|j: int| 0 <= j < count ==> !r.raised@[j],
    {
        let mut signals: Vec<Signal> = Vec::new();
        let mut raised: Vec<bool> = Vec::new();
        let mut i: usize = 0;
        while i < count
            invariant
                i <= count,
                signals@.len() == i,
                raised@.len() == i,
                forall|j: int| 0 <= j < i ==> signals@[j] == Signal::HIGH,
                forall|j: int| 0 <= j < i ==> !raised@[j],
            decreases count - i,
        {
            signals.push(Signal::HIGH);
            raised.push(false);
            i = i + 1;
        }
        NetStore { signals, raised }
    }

    /// Ends the current sub-step: every raised flag is lowered again.
    pub fn reset_raised(&mut self)
        ensures
            final(self).signals@ == old(self).signals@,
            final(self).raised@.len() == old(self).raised@.len(),
            forall|j: int| 0 <= j < final(self).raised@.len() ==> !final(self).raised@[j],
    {
        let n = self.raised.len();
        let mut i: usize = 0;
        while i < n
            invariant
                i <= n,
                self.signals@ == old(self).signals@,
                self.raised@.len() == n,
                forall|j: int| 0 <= j < i ==> !self.raised@[j],
            decreases n - i,
        {
            self.raised.set(i, false);
            i = i + 1;
        }
    }
}

/// A component's private view of its pins' nets. `ids[i]` is the net of
/// local pin `i`; `read[i]` records the value observed for pin `i` in the
/// current evaluation; `output[i]` holds the pending write for pin `i`.
pub struct Bus {
    pub ids: Vec<usize>,
    pub read: Vec<IOAction>,
    pub output: Vec<IOAction>,
}

/// The signal array after the staged writes of the first `k` pins are
/// committed in pin order (so a later write to the same net wins).
pub open spec fn committed_signals(
    ids: Seq<usize>,
    output: Seq<IOAction>,
    sigs: Seq<Signal>,
    k: int,
) -> Seq<Signal>
    decreases k,
{
    if k <= 0 {
        sigs
    } else {
        let prev = committed_signals(ids, output, sigs, k - 1);
        match output[k - 1] {
            IOAction::IO(s) => prev.update(ids[k - 1] as int, s),
            IOAction::Idle => prev,
        }
    }
}

/// The raised flags after the staged writes of the first `k` pins are
/// committed in pin order: a flag is set when a write turns its net
/// `ZERO -> ONE`, and no write lowers a flag.
pub open spec fn committed_raised(
    ids: Seq<usize>,
    output: Seq<IOAction>,
    sigs: Seq<Signal>,
    raised: Seq<bool>,
    k: int,
) -> Seq<bool>
    decreases k,
{
    if k <= 0 {
        raised
    } else {
        let prev_sigs = committed_signals(ids, output, sigs, k - 1);
        let prev = committed_raised(ids, output, sigs, raised, k - 1);
        match output[k - 1] {
            IOAction::IO(s) => if prev_sigs[ids[k - 1] as int] == Signal::ZERO && s == Signal::ONE {
                prev.update(ids[k - 1] as int, true)
            } else {
                prev
            },
            IOAction::Idle => prev,
        }
    }
}

impl Bus {
    /// The three per-pin arrays cover the same pins.
    pub open spec fn wf(&self) -> bool {
        &&& self.read@.len() == self.ids@.len()
        &&& self.output@.len() == self.ids@.len()
    }

    pub open spec fn pin_count(&self) -> nat {
        self.ids@.len()
    }

    /// Every pin of this bus is bound to a net of `nets`.
    pub open spec fn nets_compat(&self, nets: &NetStore) -> bool {
        forall|i: int| 0 <= i < self.ids@.len() ==> (self.ids@[i] as int) < nets.signals@.len()
    }

    /// Some pin observed a value that no longer matches its net.
    pub open spec fn dirty_spec(&self, signals: Seq<Signal>) -> bool {
        exists|i: int|
            0 <= i < self.read@.len() && ((#[trigger] self.read@[i]) matches IOAction::IO(s)
                && signals[self.ids@[i] as int] != s)
    }

    /// A bus over the given nets, with nothing read and nothing staged.
    pub fn new(ids: Vec<usize>) -> (r: Self)
        ensures
            r.wf(),
            r.ids@ == ids@,
            forall|i: int| 0 <= i < r.read@.len() ==> r.read@[i] == IOAction::Idle,
            forall|i: int| 0 <= i < r.output@.len() ==> r.output@[i] == IOAction::Idle,
    {
        let n = ids.len();
        let mut read: Vec<IOAction> = Vec::new();
        let mut output: Vec<IOAction> = Vec::new();
        let mut i: usize = 0;
        while i < n
            invariant
                i <= n,
                read@.len() == i,
                output@.len() == i,
                forall|j: int| 0 <= j < i ==> read@[j] == IOAction::Idle,
                forall|j: int| 0 <= j < i ==> output@[j] == IOAction::Idle,
            decreases n - i,
        {
            read.push(IOAction::Idle);
            output.push(IOAction::Idle);
            i = i + 1;
        }
        Bus { ids, read, output }
    }

    /// Returns the current value of pin `index`'s net and records the
    /// observation for later dirty detection.
    pub fn get(&mut self, nets: &NetStore, index: usize) -> (r: Signal)
        requires
            old(self).wf(),
            old(self).nets_compat(nets),
            index < old(self).pin_count(),
        ensures
            final(self).wf(),
            r == nets.signals@[old(self).ids@[index as int] as int],
            final(self).ids@ == old(self).ids@,
            final(self).output@ == old(self).output@,
            final(self).read@ == old(self).read@.update(index as int, IOAction::IO(r)),
    {
        let net = self.ids[index];
        let res = self.signals_at(nets, net);
        self.read.set(index, IOAction::IO(res));
        res
    }

    /// Returns whether pin `index`'s net rose `ZERO -> ONE` in this
    /// sub-step; the query counts as a read of the net's current value.
    pub fn raised(&mut self, nets: &NetStore, index: usize) -> (r: bool)
        requires
            old(self).wf(),
            old(self).nets_compat(nets),
            nets.wf(),
            index < old(self).pin_count(),
        ensures
            final(self).wf(),
            r == nets.raised@[old(self).ids@[index as int] as int],
            final(self).ids@ == old(self).ids@,
            final(self).output@ == old(self).output@,
            final(self).read@ == old(self).read@.update(
                index as int,
                IOAction::IO(nets.signals@[old(self).ids@[index as int] as int]),
            ),
    {
        let net = self.ids[index];
        let cur = self.signals_at(nets, net);
        self.read.set(index, IOAction::IO(cur));
        nets.raised[net]
    }

    /// Stages a write of `signal` to pin `index`; the net itself does not
    /// change until `apply`.
    pub fn set(&mut self, index: usize, signal: Signal)
        requires
            old(self).wf(),
            index < old(self).pin_count(),
        ensures
            final(self).wf(),
            final(self).ids@ == old(self).ids@,
            final(self).read@ == old(self).read@,
            final(self).output@ == old(self).output@.update(index as int, IOAction::IO(signal)),
    {
        self.output.set(index, IOAction::IO(signal));
    }

    /// True iff some previously observed pin value disagrees with the
    /// current value of its net.
    pub fn is_dirty(&self, nets: &NetStore) -> (r: bool)
        requires
            self.wf(),
            self.nets_compat(nets),
        ensures
            r == self.dirty_spec(nets.signals@),
    {
        let n = self.read.len();
        let mut i: usize = 0;
        while i < n
            invariant
                i <= n,
                n == self.read@.len(),
                self.wf(),
                self.nets_compat(nets),
                forall|j: int| 0 <= j < i ==> ((#[trigger] self.read@[j]) matches IOAction::IO(s)
                    ==> nets.signals@[self.ids@[j] as int] == s),
            decreases n - i,
        {
            match self.read[i] {
                IOAction::IO(s) => {
                    let net = self.ids[i];
                    if !signal_eq(nets.signals[net], s) {
                        return true;
                    }
                },
                IOAction::Idle => {},
            }
            i = i + 1;
        }
        false
    }

    /// Resets every pin to unread and undriven; the scheduler calls this
    /// before each evaluation of the owning component.
    pub fn clear(&mut self)
        ensures
            final(self).wf() == old(self).wf(),
            final(self).ids@ == old(self).ids@,
            final(self).read@.len() == old(self).read@.len(),
            final(self).output@.len() == old(self).output@.len(),
            forall|i: int| 0 <= i < final(self).read@.len() ==> final(self).read@[i]
                == IOAction::Idle,
            forall|i: int| 0 <= i < final(self).output@.len() ==> final(self).output@[i]
                == IOAction::Idle,
    {
        let nr = self.read.len();
        let mut i: usize = 0;
        while i < nr
            invariant
                i <= nr,
                self.ids@ == old(self).ids@,
                self.read@.len() == nr,
                self.output@ == old(self).output@,
                forall|j: int| 0 <= j < i ==> self.read@[j] == IOAction::Idle,
            decreases nr - i,
        {
            self.read.set(i, IOAction::Idle);
            i = i + 1;
        }
        let no = self.output.len();
        let mut k: usize = 0;
        while k < no
            invariant
                k <= no,
                self.ids@ == old(self).ids@,
                self.read@.len() == nr,
                self.output@.len() == no,
                forall|j: int| 0 <= j < nr ==> self.read@[j] == IOAction::Idle,
                forall|j: int| 0 <= j < k ==> self.output@[j] == IOAction::Idle,
            decreases no - k,
        {
            self.output.set(k, IOAction::Idle);
            k = k + 1;
        }
    }

    /// Commits every staged write to the net store, in pin order, setting
    /// the raised flag of each net that turns `ZERO -> ONE`.
    pub fn apply(&self, nets: &mut NetStore)
        requires
            self.wf(),
            self.nets_compat(old(nets)),
            old(nets).wf(),
        ensures
            final(nets).wf(),
            final(nets).signals@.len() == old(nets).signals@.len(),
            final(nets).signals@ == committed_signals(
                self.ids@,
                self.output@,
                old(nets).signals@,
                self.ids@.len() as int,
            ),
            final(nets).raised@ == committed_raised(
                self.ids@,
                self.output@,
                old(nets).signals@,
                old(nets).raised@,
                self.ids@.len() as int,
            ),
    {
        let n = self.ids.len();
        let mut i: usize = 0;
        while i < n
            invariant
                i <= n,
                n == self.ids@.len(),
                self.wf(),
                self.nets_compat(old(nets)),
                old(nets).wf(),
                nets.signals@.len() == old(nets).signals@.len(),
                nets.raised@.len() == old(nets).raised@.len(),
                nets.signals@ == committed_signals(
                    self.ids@,
                    self.output@,
                    old(nets).signals@,
                    i as int,
                ),
                nets.raised@ == committed_raised(
                    self.ids@,
                    self.output@,
                    old(nets).signals@,
                    old(nets).raised@,
                    i as int,
                ),
            decreases n - i,
        {
            match self.output[i] {
                IOAction::IO(s) => {
                    let net = self.ids[i];
                    let prior = self.signals_at(nets, net);
                    if signal_eq(prior, Signal::ZERO) && signal_eq(s, Signal::ONE) {
                        self.raised_set(nets, net);
                    }
                    nets.signals.set(net, s);
                },
                IOAction::Idle => {},
            }
            i = i + 1;
        }
    }

    fn signals_at(&self, nets: &NetStore, net: usize) -> (r: Signal)
        requires
            net < nets.signals@.len(),
        ensures
            r == nets.signals@[net as int],
    {
        nets.signals[net]
    }

    fn raised_set(&self, nets: &mut NetStore, net: usize)
        requires
            net < old(nets).raised@.len(),
        ensures
            final(nets).signals@ == old(nets).signals@,
            final(nets).raised@ == old(nets).raised@.update(net as int, true),
    {
        nets.raised.set(net, true);
    }
}

proof fn lemma_committed_signals_len(
    ids: Seq<usize>,
    output: Seq<IOAction>,
    sigs: Seq<Signal>,
    k: int,
)
    requires
        k <= ids.len(),
        forall|i: int| 0 <= i < ids.len() ==> ((#[trigger] ids[i]) as int) < sigs.len(),
    ensures
        committed_signals(ids, output, sigs, k).len() == sigs.len(),
    decreases k,
{
    if k > 0 {
        lemma_committed_signals_len(ids, output, sigs, k - 1);
    }
}

proof fn lemma_committed_raised_len(
    ids: Seq<usize>,
    output: Seq<IOAction>,
    sigs: Seq<Signal>,
    raised: Seq<bool>,
    k: int,
)
    requires
        k <= ids.len(),
        sigs.len() == raised.len(),
        forall|i: int| 0 <= i < ids.len() ==> ((#[trigger] ids[i]) as int) < sigs.len(),
    ensures
        committed_raised(ids, output, sigs, raised, k).len() == raised.len(),
    decreases k,
{
    if k > 0 {
        lemma_committed_raised_len(ids, output, sigs, raised, k - 1);
    }
}

/// The raised-edge pulse law for one commit: a net's raised flag is up
/// after the first `k` staged writes exactly when it was already up when
/// the commit began, or some one of those writes drove `ONE` onto the net
/// while it held `ZERO`. The scheduler lowers every flag at the end of
/// each sub-step, so across a sub-step that starts clean the flag marks
/// precisely the nets that rose `ZERO -> ONE` in that sub-step.
pub proof fn lemma_raised_pulse(
    ids: Seq<usize>,
    output: Seq<IOAction>,
    sigs: Seq<Signal>,
    raised: Seq<bool>,
    k: int,
    j: int,
)
    requires
        0 <= j < raised.len(),
        sigs.len() == raised.len(),
        k <= ids.len(),
        forall|i: int| 0 <= i < ids.len() ==> ((#[trigger] ids[i]) as int) < sigs.len(),
    ensures
        committed_raised(ids, output, sigs, raised, k)[j] == (raised[j] || exists|i: int|
            0 <= i < k && ids[i] == j && (#[trigger] output[i]) == IOAction::IO(Signal::ONE)
                && committed_signals(ids, output, sigs, i)[j] == Signal::ZERO),
    decreases k,
{
    if k > 0 {
        lemma_raised_pulse(ids, output, sigs, raised, k - 1, j);
        lemma_committed_signals_len(ids, output, sigs, k - 1);
        let prev_s = committed_signals(ids, output, sigs, k - 1);
        let prev_r = committed_raised(ids, output, sigs, raised, k - 1);
        let cur = committed_raised(ids, output, sigs, raised, k);
        let rose = output[k - 1] == IOAction::IO(Signal::ONE) && ids[k - 1] == j && prev_s[j]
            == Signal::ZERO;
        lemma_committed_raised_len(ids, output, sigs, raised, k - 1);
        if rose {
            assert(cur[j]);
            assert(0 <= k - 1 < k && ids[k - 1] == j && output[k - 1] == IOAction::IO(Signal::ONE)
                && committed_signals(ids, output, sigs, k - 1)[j] == Signal::ZERO);
        } else {
            assert(cur[j] == prev_r[j]);
            if exists|i: int|
                0 <= i < k && ids[i] == j && (#[trigger] output[i]) == IOAction::IO(Signal::ONE)
                    && committed_signals(ids, output, sigs, i)[j] == Signal::ZERO {
                let i = choose|i: int|
                    0 <= i < k && ids[i] == j && (#[trigger] output[i]) == IOAction::IO(
                        Signal::ONE,
                    ) && committed_signals(ids, output, sigs, i)[j] == Signal::ZERO;
                assert(i < k - 1);
            }
            if exists|i: int|
                0 <= i < k - 1 && ids[i] == j && (#[trigger] output[i]) == IOAction::IO(
                    Signal::ONE,
                ) && committed_signals(ids, output, sigs, i)[j] == Signal::ZERO {
                let i = choose|i: int|
                    0 <= i < k - 1 && ids[i] == j && (#[trigger] output[i]) == IOAction::IO(
                        Signal::ONE,
                    ) && committed_signals(ids, output, sigs, i)[j] == Signal::ZERO;
                assert(0 <= i < k && ids[i] == j && output[i] == IOAction::IO(Signal::ONE)
                    && committed_signals(ids, output, sigs, i)[j] == Signal::ZERO);
            }
        }
    }
}

/// Signal equality as an executable test.
pub fn signal_eq(a: Signal, b: Signal) -> (r: bool)
    ensures
        r == (a == b),
{
    match (a, b) {
        (Signal::ZERO, Signal::ZERO) => true,
        (Signal::ONE, Signal::ONE) => true,
        (Signal::HIGH, Signal::HIGH) => true,
        _ => false,
    }
}

} // verus!
