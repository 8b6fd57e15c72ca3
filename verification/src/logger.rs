//! The trace logger: a self-describing, monotonic record of all signal
//! transitions, in the shape of a value-change dump. The logger keeps the
//! trace as data — declared variables and a list of timestamped transition
//! batches — which a host renders to text.

use vstd::prelude::*;

use crate::bus::Signal;
use crate::delay::Delay;

verus! {

/// One batch of transitions, all emitted at one timestamp.
pub struct TraceStep {
    pub time: u64,
    pub changes: Vec<(usize, Signal)>,
}

/// The transition log. `vars` nets were declared up front; `previous` holds
/// the last emitted value of every net; `steps` is the body of the trace.
pub struct Logger {
    pub vars: usize,
    pub names: Vec<Option<String>>,
    pub previous: Vec<Signal>,
    pub steps: Vec<TraceStep>,
    pub last_time: u64,
}

/// `prev` with the changes of one batch applied, in batch order.
pub open spec fn apply_changes(prev: Seq<Signal>, changes: Seq<(usize, Signal)>, k: int) -> Seq<
    Signal,
>
    decreases k,
{
    if k <= 0 {
        prev
    } else {
        apply_changes(prev, changes, k - 1).update(changes[k - 1].0 as int, changes[k - 1].1)
    }
}

/// The values the trace has emitted for every net after its first `k`
/// batches, starting from the all-undriven initial state.
pub open spec fn replay(vars: nat, steps: Seq<TraceStep>, k: int) -> Seq<Signal>
    decreases k,
{
    if k <= 0 {
        Seq::new(vars, |i: int| Signal::HIGH)
    } else {
        let prev = replay(vars, steps, k - 1);
        apply_changes(prev, steps[k - 1].changes@, steps[k - 1].changes@.len() as int)
    }
}

/// A legal batch against the values emitted so far: it is non-empty, walks
/// nets in strictly increasing order, and every transition names a declared
/// net and differs from that net's previously emitted value.
pub open spec fn step_wf(prev: Seq<Signal>, step: TraceStep) -> bool {
    &&& step.changes@.len() >= 1
    &&& forall|c: int|
        0 <= c < step.changes@.len() ==> ((#[trigger] step.changes@[c]).0 as int) < prev.len()
            && step.changes@[c].1 != prev[step.changes@[c].0 as int]
    &&& forall|c1: int, c2: int|
        0 <= c1 < c2 < step.changes@.len() ==> (#[trigger] step.changes@[c1]).0
            < (#[trigger] step.changes@[c2]).0
}

/// What it means for a trace body to be a legal value-change record over
/// `vars` declared nets: every referenced net was declared, timestamps are
/// non-decreasing, and no transition repeats the previously emitted value
/// of its net.
pub open spec fn vcd_legal(vars: nat, steps: Seq<TraceStep>) -> bool {
    &&& forall|k: int, c: int|
        0 <= k < steps.len() && 0 <= c < (#[trigger] steps[k]).changes@.len() ==> ((
        #[trigger] steps[k].changes@[c]).0 as int) < vars
    &&& forall|k1: int, k2: int|
        0 <= k1 <= k2 < steps.len() ==> (#[trigger] steps[k1]).time <= (#[trigger] steps[k2]).time
    &&& forall|k: int, c: int|
        0 <= k < steps.len() && 0 <= c < (#[trigger] steps[k]).changes@.len() ==> (
        #[trigger] steps[k].changes@[c]).1 != replay(vars, steps, k)[steps[k].changes@[c].0 as int]
}

/// The transitions between two snapshots, walking nets `0..k` in order.
pub open spec fn diffs(prev: Seq<Signal>, cur: Seq<Signal>, k: int) -> Seq<(usize, Signal)>
    decreases k,
{
    if k <= 0 {
        Seq::empty()
    } else if cur[k - 1] != prev[k - 1] {
        diffs(prev, cur, k - 1).push(((k - 1) as usize, cur[k - 1]))
    } else {
        diffs(prev, cur, k - 1)
    }
}

/// Every entry of `diffs` names a net below `k`, carries that net's new
/// value, differs from its old value, and the nets walked are strictly
/// increasing.
pub proof fn lemma_diffs_wf(prev: Seq<Signal>, cur: Seq<Signal>, k: int)
    requires
        k <= usize::MAX,
    ensures
        forall|c: int|
            0 <= c < diffs(prev, cur, k).len() ==> {
                let ch = #[trigger] diffs(prev, cur, k)[c];
                (ch.0 as int) < k && ch.1 == cur[ch.0 as int] && ch.1 != prev[ch.0 as int]
            },
        forall|c1: int, c2: int|
            0 <= c1 < c2 < diffs(prev, cur, k).len() ==> (#[trigger] diffs(prev, cur, k)[c1]).0 < (
            #[trigger] diffs(prev, cur, k)[c2]).0,
    decreases k,
{
    if k > 0 {
        lemma_diffs_wf(prev, cur, k - 1);
        let d0 = diffs(prev, cur, k - 1);
        let d = diffs(prev, cur, k);
        assert forall|c: int| 0 <= c < d.len() implies {
            let ch = #[trigger] d[c];
            (ch.0 as int) < k && ch.1 == cur[ch.0 as int] && ch.1 != prev[ch.0 as int]
        } by {
            if c < d0.len() {
                assert(d[c] == d0[c]);
            }
        }
        assert forall|c1: int, c2: int| 0 <= c1 < c2 < d.len() implies (#[trigger] d[c1]).0 < (
        #[trigger] d[c2]).0 by {
            if c2 < d0.len() {
                assert(d[c1] == d0[c1] && d[c2] == d0[c2]);
            } else if c1 < d0.len() {
                assert(d[c1] == d0[c1]);
            }
        }
    }
}

/// Applying the transitions between two snapshots to the first snapshot
/// reproduces the second on the nets walked and leaves the rest alone.
pub proof fn lemma_diffs_apply(prev: Seq<Signal>, cur: Seq<Signal>, k: int)
    requires
        prev.len() == cur.len(),
        prev.len() <= usize::MAX,
        0 <= k <= prev.len(),
    ensures
        forall|t: int|
            0 <= t < prev.len() ==> #[trigger] apply_changes(
                prev,
                diffs(prev, cur, k),
                diffs(prev, cur, k).len() as int,
            )[t] == (if t < k {
                cur[t]
            } else {
                prev[t]
            }),
        apply_changes(prev, diffs(prev, cur, k), diffs(prev, cur, k).len() as int).len()
            == prev.len(),
    decreases k,
{
    if k > 0 {
        lemma_diffs_apply(prev, cur, k - 1);
        lemma_diffs_wf(prev, cur, k - 1);
        let d0 = diffs(prev, cur, k - 1);
        let d = diffs(prev, cur, k);
        if cur[k - 1] != prev[k - 1] {
            assert(d == d0.push(((k - 1) as usize, cur[k - 1])));
            assert(apply_changes(prev, d, d.len() as int) == apply_changes(
                prev,
                d,
                d.len() as int - 1,
            ).update(k - 1, cur[k - 1]));
            assert(apply_changes(prev, d, d.len() as int - 1) == apply_changes(
                prev,
                d0,
                d0.len() as int,
            )) by {
                lemma_apply_changes_prefix(prev, d0, d, d0.len() as int);
            }
        } else {
            assert(d == d0);
        }
    }
}

/// Applying a prefix of a batch only looks at that prefix.
proof fn lemma_apply_changes_prefix(
    prev: Seq<Signal>,
    c1: Seq<(usize, Signal)>,
    c2: Seq<(usize, Signal)>,
    k: int,
)
    requires
        0 <= k <= c1.len(),
        k <= c2.len(),
        forall|c: int| 0 <= c < k ==> c1[c] == c2[c],
    ensures
        apply_changes(prev, c1, k) == apply_changes(prev, c2, k),
    decreases k,
{
    if k > 0 {
        lemma_apply_changes_prefix(prev, c1, c2, k - 1);
    }
}

impl Logger {
    /// The trace is a faithful, legal record: `previous` is exactly what
    /// replaying the body yields, every batch was legal when emitted, and
    /// timestamps never decrease.
    #[verifier::opaque]
    pub open spec fn wf(&self) -> bool {
        &&& self.names@.len() == self.vars
        &&& self.previous@.len() == self.vars
        &&& self.previous@ == replay(self.vars as nat, self.steps@, self.steps@.len() as int)
        &&& forall|k: int|
            0 <= k < self.steps@.len() ==> step_wf(
                replay(self.vars as nat, self.steps@, k),
                #[trigger] self.steps@[k],
            )
        &&& forall|k: int|
            0 <= k < self.steps@.len() - 1 ==> (#[trigger] self.steps@[k]).time <= self.steps@[k
                + 1].time
        &&& self.steps@.len() > 0 ==> self.steps@.last().time <= self.last_time
    }

    /// A fresh trace over `len` declared nets, named by `names`.
    pub fn new(len: usize, names: Vec<Option<String>>) -> (r: Self)
        requires
            names@.len() == len,
        ensures
            r.wf(),
            r.vars == len,
            r.names@ == names@,
            r.steps@.len() == 0,
            r.last_time == 0,
    {
        proof {
            reveal(Logger::wf);
        }
        let mut previous: Vec<Signal> = Vec::new();
        let mut i: usize = 0;
        while i < len
            invariant
                i <= len,
                previous@.len() == i,
                forall|j: int| 0 <= j < i ==> previous@[j] == Signal::HIGH,
            decreases len - i,
        {
            previous.push(Signal::HIGH);
            i = i + 1;
        }
        proof {
            assert(previous@ =~= Seq::new(len as nat, |i: int| Signal::HIGH));
        }
        Logger { vars: len, names, previous, steps: Vec::new(), last_time: 0 }
    }

    /// Records one post-commit snapshot at `current_time`: appends a batch
    /// holding exactly the nets whose value differs from the last emitted
    /// one, or nothing when none differs.
    #[verifier::rlimit(60)]
    pub fn log(&mut self, signals: &Vec<Signal>, current_time: &Delay)
        requires
            old(self).wf(),
            signals@.len() == old(self).vars,
            current_time.picoseconds >= old(self).last_time,
        ensures
            final(self).wf(),
            final(self).vars == old(self).vars,
            final(self).names@ == old(self).names@,
            final(self).previous@ == signals@,
            ({
                let ds = diffs(old(self).previous@, signals@, old(self).vars as int);
                if ds.len() == 0 {
                    final(self).steps@ == old(self).steps@
                        && final(self).last_time == old(self).last_time
                } else {
                    final(self).steps@.len() == old(self).steps@.len() + 1
                        && final(self).steps@.last().time == current_time.picoseconds
                        && final(self).steps@.last().changes@ == ds
                        && final(self).steps@.take(old(self).steps@.len() as int)
                            == old(self).steps@
                        && final(self).last_time == current_time.picoseconds
                }
            }),
    {
        proof {
            reveal(Logger::wf);
        }
        let vars = self.vars;
        let ghost prev0 = self.previous@;
        let mut changes: Vec<(usize, Signal)> = Vec::new();
        let mut i: usize = 0;
        while i < vars
            invariant
                i <= vars,
                vars == self.vars,
                self.previous@.len() == vars,
                signals@.len() == vars,
                self.previous@ == prev0,
                changes@ == diffs(prev0, signals@, i as int),
            decreases vars - i,
        {
            let s = signals[i];
            if !crate::bus::signal_eq(s, self.previous[i]) {
                changes.push((i, s));
            }
            i = i + 1;
        }
        proof {
            lemma_diffs_wf(prev0, signals@, vars as int);
            lemma_diffs_apply(prev0, signals@, vars as int);
        }
        if changes.len() > 0 {
            let ghost steps0 = self.steps@;
            let t = current_time.picoseconds;
            let step = TraceStep { time: t, changes };
            self.steps.push(step);
            self.last_time = t;
            let mut j: usize = 0;
            while j < vars
                invariant
                    j <= vars,
                    vars == self.vars,
                    self.previous@.len() == vars,
                    signals@.len() == vars,
                    forall|q: int| 0 <= q < j ==> self.previous@[q] == signals@[q],
                    forall|q: int| j <= q < vars ==> self.previous@[q] == prev0[q],
                    self.steps@ == steps0.push(step),
                    self.vars == old(self).vars,
                    self.names@ == old(self).names@,
                    self.last_time == t,
                decreases vars - j,
            {
                let s = signals[j];
                self.previous.set(j, s);
                j = j + 1;
            }
            proof {
                assert(self.previous@ =~= signals@);
                let steps1 = self.steps@;
                let ds = diffs(prev0, signals@, vars as int);
                assert(steps1.take(steps0.len() as int) =~= steps0);
                assert(steps1.last() == step);
                assert forall|k: int| 0 <= k < steps1.len() implies step_wf(
                    replay(vars as nat, steps1, k),
                    #[trigger] steps1[k],
                ) by {
                    lemma_replay_push(vars as nat, steps0, step, k);
                    if k < steps0.len() {
                        assert(steps1[k] == steps0[k]);
                        assert(step_wf(replay(vars as nat, steps0, k), steps0[k]));
                    } else {
                        assert(steps1[k] == step);
                        assert(replay(vars as nat, steps1, k) == replay(
                            vars as nat,
                            steps0,
                            steps0.len() as int,
                        ));
                        assert(replay(vars as nat, steps1, k) == prev0);
                    }
                }
                assert(self.previous@ == replay(vars as nat, steps1, steps1.len() as int)) by {
                    lemma_replay_push(vars as nat, steps0, step, steps1.len() as int);
                    assert(replay(vars as nat, steps1, steps1.len() as int) == apply_changes(
                        replay(vars as nat, steps1, steps0.len() as int),
                        ds,
                        ds.len() as int,
                    ));
                    lemma_replay_push(vars as nat, steps0, step, steps0.len() as int);
                    assert(replay(vars as nat, steps1, steps0.len() as int) == prev0);
                    assert(apply_changes(prev0, ds, ds.len() as int) =~= signals@);
                }
            }
        } else {
            proof {
                assert(self.previous@ =~= signals@);
            }
        }
    }
}

/// Replay ignores batches past its cut-off, so pushing one more batch
/// leaves every earlier replay point unchanged.
proof fn lemma_replay_push(vars: nat, steps: Seq<TraceStep>, step: TraceStep, upto: int)
    ensures
        upto <= steps.len() ==> replay(vars, steps.push(step), upto) == replay(vars, steps, upto),
    decreases upto,
{
    if upto > 0 && upto <= steps.len() {
        lemma_replay_push(vars, steps, step, upto - 1);
        assert(steps.push(step)[upto - 1] == steps[upto - 1]);
    }
}

/// A faithfully kept trace is a legal value-change record: every referenced
/// net was declared in the header, timestamps never decrease, and no
/// transition repeats the previously emitted value of its net.
pub proof fn lemma_trace_legal(l: &Logger)
    requires
        l.wf(),
    ensures
        vcd_legal(l.vars as nat, l.steps@),
{
    reveal(Logger::wf);
    let vars = l.vars as nat;
    let steps = l.steps@;
    assert forall|k: int, c: int|
        0 <= k < steps.len() && 0 <= c < (#[trigger] steps[k]).changes@.len() implies ((
    #[trigger] steps[k].changes@[c]).0 as int) < vars by {
        lemma_replay_len(vars, steps, k);
        assert(step_wf(replay(vars, steps, k), steps[k]));
    }
    assert forall|k1: int, k2: int| 0 <= k1 <= k2 < steps.len() implies (
    #[trigger] steps[k1]).time <= (#[trigger] steps[k2]).time by {
        lemma_times_mono(steps, k1, k2);
    }
    assert forall|k: int, c: int|
        0 <= k < steps.len() && 0 <= c < (#[trigger] steps[k]).changes@.len() implies (
    #[trigger] steps[k].changes@[c]).1 != replay(vars, steps, k)[steps[k].changes@[c].0 as int] by {
        assert(step_wf(replay(vars, steps, k), steps[k]));
    }
}

/// The replayed snapshot always covers exactly the declared nets.
pub proof fn lemma_replay_len(vars: nat, steps: Seq<TraceStep>, k: int)
    requires
        k <= steps.len(),
        forall|k2: int|
            0 <= k2 < steps.len() ==> step_wf(replay(vars, steps, k2), #[trigger] steps[k2]),
    ensures
        replay(vars, steps, k).len() == vars,
    decreases k,
{
    if k > 0 {
        lemma_replay_len(vars, steps, k - 1);
        assert(step_wf(replay(vars, steps, k - 1), steps[k - 1]));
        lemma_apply_changes_len(
            replay(vars, steps, k - 1),
            steps[k - 1].changes@,
            steps[k - 1].changes@.len() as int,
        );
    }
}

proof fn lemma_apply_changes_len(prev: Seq<Signal>, changes: Seq<(usize, Signal)>, k: int)
    requires
        k <= changes.len(),
        forall|c: int| 0 <= c < k ==> ((#[trigger] changes[c]).0 as int) < prev.len(),
    ensures
        apply_changes(prev, changes, k).len() == prev.len(),
    decreases k,
{
    if k > 0 {
        lemma_apply_changes_len(prev, changes, k - 1);
    }
}

/// Pairwise timestamp monotonicity follows from the adjacent one.
proof fn lemma_times_mono(steps: Seq<TraceStep>, k1: int, k2: int)
    requires
        0 <= k1 <= k2 < steps.len(),
        forall|k: int|
            0 <= k < steps.len() - 1 ==> (#[trigger] steps[k]).time <= steps[k + 1].time,
    ensures
        steps[k1].time <= steps[k2].time,
    decreases k2 - k1,
{
    if k1 < k2 {
        lemma_times_mono(steps, k1 + 1, k2);
        assert(steps[k1].time <= steps[k1 + 1].time);
    }
}

} // verus!
