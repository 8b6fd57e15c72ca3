//! Test probes and the test harness: single-pin pseudo-components that
//! drive or sample one net, and a helper that wires a device under test to
//! a row of probes and checks its responses.

use vstd::prelude::*;

use crate::bus::{Bus, IOAction, NetStore, Signal};
use crate::component::{Component, In, Out};
use crate::delay::Delay;

verus! {

/// A single-pin output driver: whatever was `set` on it is driven onto its
/// net at every evaluation, with no delay.
pub struct ProbeInput {
    pub value: Signal,
    pub out: Out,
}

/// A single-pin input sampler: every evaluation latches the net's value
/// into `value`, with no delay.
pub struct ProbeOutput {
    pub value: Signal,
    pub input: In,
}

impl ProbeInput {
    pub fn new() -> (r: Self)
        ensures
            r.value == Signal::HIGH,
            r.out.id == 0,
            !r.out.linked,
    {
        ProbeInput { value: Signal::HIGH, out: Out::new(1) }
    }

    /// Chooses the value the probe will drive from its next evaluation on.
    pub fn set(&mut self, value: Signal)
        ensures
            final(self).value == value,
            final(self).out == old(self).out,
    {
        self.value = value;
    }
}

impl Component for ProbeInput {
    open spec fn size(&self) -> nat {
        1
    }

    open spec fn pins_fit(&self, n: nat) -> bool {
        (self.out.id as int) < n
    }

    open spec fn ready(&self, n: nat) -> bool {
        self.pins_fit(n) && self.out.linked
    }

    fn connect(&mut self, bus: &Bus)
        ensures
            final(self).value == old(self).value,
            final(self).out.id == old(self).out.id,
    {
        self.out.connect(bus);
    }

    fn eval(&mut self, bus: &mut Bus, nets: &NetStore) -> (d: Delay)
        ensures
            *final(self) == *old(self),
            final(bus).read@ == old(bus).read@,
            final(bus).output@ == old(bus).output@.update(
                old(self).out.id as int,
                IOAction::IO(old(self).value),
            ),
            d.picoseconds == 0,
    {
        let v = self.value;
        self.out.set(bus, v);
        Delay::no_delay()
    }
}

impl ProbeOutput {
    pub fn new() -> (r: Self)
        ensures
            r.value == Signal::HIGH,
            r.input.id == 0,
            !r.input.linked,
    {
        ProbeOutput { value: Signal::HIGH, input: In::new(1) }
    }

    /// The value latched by the probe's last evaluation.
    pub fn get(&self) -> (r: Signal)
        ensures
            r == self.value,
    {
        self.value
    }
}

impl Component for ProbeOutput {
    open spec fn size(&self) -> nat {
        1
    }

    open spec fn pins_fit(&self, n: nat) -> bool {
        (self.input.id as int) < n
    }

    open spec fn ready(&self, n: nat) -> bool {
        self.pins_fit(n) && self.input.linked
    }

    fn connect(&mut self, bus: &Bus)
        ensures
            final(self).value == old(self).value,
            final(self).input.id == old(self).input.id,
    {
        self.input.connect(bus);
    }

    fn eval(&mut self, bus: &mut Bus, nets: &NetStore) -> (d: Delay)
        ensures
            final(self).input == old(self).input,
            final(self).value == nets.signals@[old(bus).ids@[old(self).input.id as int] as int],
            final(bus).output@ == old(bus).output@,
            final(bus).read@ == old(bus).read@.update(
                old(self).input.id as int,
                IOAction::IO(final(self).value),
            ),
            d.picoseconds == 0,
    {
        let pin = self.input;
        self.value = pin.get(bus, nets);
        Delay::no_delay()
    }
}

/// Keeping a prefix under `take` keeps every element of it.
proof fn lemma_prefix_unchanged<T>(a: Seq<T>, b: Seq<T>)
    requires
        a.len() <= b.len(),
        b.take(a.len() as int) == a,
    ensures
        forall|j: int| 0 <= j < a.len() ==> a[j] == #[trigger] b[j],
{
    assert forall|j: int| 0 <= j < a.len() implies a[j] == #[trigger] b[j] by {
        assert(b.take(a.len() as int)[j] == b[j]);
    }
}

/// A reported probe mismatch: which output probe disagreed, what was
/// expected, and what the probe latched.
#[derive(PartialEq, Eq, Structural, Debug, Copy, Clone)]
pub struct TestFailure {
    pub index: usize,
    pub expected: Signal,
    pub actual: Signal,
}

/// A harness around a device under test: the board component indices of
/// its input and output probes.
pub struct Tester {
    pub inputs: Vec<usize>,
    pub outputs: Vec<usize>,
}

impl Tester {
    /// Every recorded index points at a probe of the right kind on the
    /// board.
    pub open spec fn wf(&self, board: &crate::board::CompleteBoard) -> bool {
        &&& forall|i: int|
            0 <= i < self.inputs@.len() ==> (((#[trigger] self.inputs@[i]) as int)
                < board.components@.len() && board.components@[self.inputs@[i] as int].part
                is ProbeIn)
        &&& forall|i: int|
            0 <= i < self.outputs@.len() ==> (((#[trigger] self.outputs@[i]) as int)
                < board.components@.len() && board.components@[self.outputs@[i] as int].part
                is ProbeOut)
    }

    /// A harness over the plug order `Tester::from` uses: the device under
    /// test first, then its input probes, then its output probes.
    pub fn new(inputs_count: usize, outputs_count: usize) -> (r: Self)
        requires
            1 + inputs_count + outputs_count <= usize::MAX,
        ensures
            r.inputs@.len() == inputs_count,
            r.outputs@.len() == outputs_count,
            forall|i: int| 0 <= i < inputs_count ==> #[trigger] r.inputs@[i] == 1 + i,
            forall|i: int|
                0 <= i < outputs_count ==> #[trigger] r.outputs@[i] == 1 + inputs_count + i,
    {
        let mut inputs: Vec<usize> = Vec::new();
        let mut i: usize = 0;
        while i < inputs_count
            invariant
                i <= inputs_count,
                1 + inputs_count + outputs_count <= usize::MAX,
                inputs@.len() == i,
                forall|k: int| 0 <= k < i ==> #[trigger] inputs@[k] == 1 + k,
            decreases inputs_count - i,
        {
            inputs.push(1 + i);
            i = i + 1;
        }
        let mut outputs: Vec<usize> = Vec::new();
        let mut k: usize = 0;
        while k < outputs_count
            invariant
                k <= outputs_count,
                1 + inputs_count + outputs_count <= usize::MAX,
                outputs@.len() == k,
                forall|j: int| 0 <= j < k ==> #[trigger] outputs@[j] == 1 + inputs_count + j,
            decreases outputs_count - k,
        {
            outputs.push(1 + inputs_count + k);
            k = k + 1;
        }
        Tester { inputs, outputs }
    }

    /// Builds a board around one device under test: a single-pin socket
    /// and probe for each listed input and output pin of the device, wired
    /// to that pin. The device is plugged first, then the input probes,
    /// then the output probes, and each probe ends up on the same net as
    /// the device pin it watches.
    pub fn from(
        inputs: &[usize],
        outputs: &[usize],
        component: crate::board::AnyComponent,
        component_size: usize,
    ) -> (r: (Tester, crate::board::CompleteBoard))
        requires
            component.pins_fit(component_size as nat),
            forall|k: int| 0 <= k < inputs@.len() ==> 1 <= #[trigger] inputs@[k] <= component_size,
            forall|k: int|
                0 <= k < outputs@.len() ==> 1 <= #[trigger] outputs@[k] <= component_size,
            inputs@.len() + outputs@.len() + component_size <= usize::MAX,
        ensures
            r.1.wf(),
            r.0.wf(&r.1),
            r.0.inputs@.len() == inputs@.len(),
            r.0.outputs@.len() == outputs@.len(),
            r.1.components@.len() == 1 + inputs@.len() + outputs@.len(),
            crate::board::same_kind(r.1.components@[0].part, component),
            r.1.components@[0].bus.ids@.len() == component_size,
            forall|k: int|
                0 <= k < inputs@.len() ==> #[trigger] r.1.components@[1 + k].bus.ids@[0]
                    == r.1.components@[0].bus.ids@[inputs@[k] - 1],
            forall|k: int|
                0 <= k < outputs@.len() ==> #[trigger] r.1.components@[1 + inputs@.len()
                    + k].bus.ids@[0] == r.1.components@[0].bus.ids@[outputs@[k] - 1],
    {
        let ic = inputs.len();
        let oc = outputs.len();
        let mut board = crate::board::Board::new();
        let mut in_sockets: Vec<crate::board::Socket> = Vec::new();
        let mut i: usize = 0;
        while i < ic
            invariant
                i <= ic,
                ic == inputs@.len(),
                ic + oc + component_size <= usize::MAX,
                oc == outputs@.len(),
                board.wf(),
                board.pin_count == i,
                board.connections@.len() == 0,
                in_sockets@.len() == i,
                forall|j: int|
                    0 <= j < i ==> (#[trigger] in_sockets@[j]).location == j
                        && in_sockets@[j].size == 1,
            decreases ic - i,
        {
            in_sockets.push(board.socket(1));
            i = i + 1;
        }
        let mut out_sockets: Vec<crate::board::Socket> = Vec::new();
        let mut o: usize = 0;
        while o < oc
            invariant
                o <= oc,
                ic == inputs@.len(),
                oc == outputs@.len(),
                ic + oc + component_size <= usize::MAX,
                board.wf(),
                board.pin_count == ic + o,
                board.connections@.len() == 0,
                in_sockets@.len() == ic,
                forall|j: int|
                    0 <= j < ic ==> (#[trigger] in_sockets@[j]).location == j
                        && in_sockets@[j].size == 1,
                out_sockets@.len() == o,
                forall|j: int|
                    0 <= j < o ==> (#[trigger] out_sockets@[j]).location == ic + j
                        && out_sockets@[j].size == 1,
            decreases oc - o,
        {
            out_sockets.push(board.socket(1));
            o = o + 1;
        }
        let comp_socket = board.socket(component_size);
        let ghost dut_base = (ic + oc) as int;
        let mut c: usize = 0;
        while c < ic
            invariant
                c <= ic,
                ic == inputs@.len(),
                oc == outputs@.len(),
                ic + oc + component_size <= usize::MAX,
                forall|k: int|
                    0 <= k < inputs@.len() ==> 1 <= #[trigger] inputs@[k] <= component_size,
                board.wf(),
                board.pin_count == ic + oc + component_size,
                dut_base == ic + oc,
                comp_socket.location == ic + oc,
                comp_socket.size == component_size,
                in_sockets@.len() == ic,
                forall|j: int|
                    0 <= j < ic ==> (#[trigger] in_sockets@[j]).location == j
                        && in_sockets@[j].size == 1,
                board.connections@.len() == c,
                forall|j: int|
                    0 <= j < c ==> #[trigger] board.connections@[j] == (
                        j as usize,
                        (dut_base + inputs@[j] - 1) as usize,
                    ),
            decreases ic - c,
        {
            let probe_pin = in_sockets[c].pin(1);
            let dut_pin = comp_socket.pin(inputs[c]);
            probe_pin.connect(&dut_pin, &mut board);
            c = c + 1;
        }
        let mut c2: usize = 0;
        while c2 < oc
            invariant
                c2 <= oc,
                ic == inputs@.len(),
                oc == outputs@.len(),
                ic + oc + component_size <= usize::MAX,
                forall|k: int|
                    0 <= k < inputs@.len() ==> 1 <= #[trigger] inputs@[k] <= component_size,
                forall|k: int|
                    0 <= k < outputs@.len() ==> 1 <= #[trigger] outputs@[k] <= component_size,
                board.wf(),
                board.pin_count == ic + oc + component_size,
                dut_base == ic + oc,
                comp_socket.location == ic + oc,
                comp_socket.size == component_size,
                out_sockets@.len() == oc,
                forall|j: int|
                    0 <= j < oc ==> (#[trigger] out_sockets@[j]).location == ic + j
                        && out_sockets@[j].size == 1,
                board.connections@.len() == ic + c2,
                forall|j: int|
                    0 <= j < ic ==> #[trigger] board.connections@[j] == (
                        j as usize,
                        (dut_base + inputs@[j] - 1) as usize,
                    ),
                forall|j: int|
                    0 <= j < c2 ==> #[trigger] board.connections@[ic + j] == (
                        (ic + j) as usize,
                        (dut_base + outputs@[j] - 1) as usize,
                    ),
            decreases oc - c2,
        {
            let probe_pin = out_sockets[c2].pin(1);
            let dut_pin = comp_socket.pin(outputs[c2]);
            probe_pin.connect(&dut_pin, &mut board);
            c2 = c2 + 1;
        }
        let ghost edges = board.connections@;
        let ghost total = board.pin_count as int;
        let mut wb = board.wire();
        proof {
            assert forall|k: int| 0 <= k < ic implies #[trigger] wb.pin_to_net@[k]
                == wb.pin_to_net@[dut_base + inputs@[k] - 1] by {
                let d = dut_base + inputs@[k] - 1;
                assert(edges[k] == (k as usize, d as usize));
                assert(crate::wires::edge_links(edges[k], k, d));
                assert(crate::wires::adjacent(edges, k, d));
                crate::wires::lemma_connected_step(edges, total, k, d);
            }
            assert forall|k: int| 0 <= k < oc implies #[trigger] wb.pin_to_net@[ic + k]
                == wb.pin_to_net@[dut_base + outputs@[k] - 1] by {
                let d = dut_base + outputs@[k] - 1;
                assert(edges[ic + k] == ((ic + k) as usize, d as usize));
                assert(crate::wires::edge_links(edges[ic + k], ic + k, d));
                assert(crate::wires::adjacent(edges, ic + k, d));
                crate::wires::lemma_connected_step(edges, total, ic + k, d);
            }
        }
        let ghost ptn = wb.pin_to_net@;
        wb.plug(component, comp_socket);
        proof {
            assert(wb.components@[0].bus.ids@ == ptn.subrange(
                dut_base,
                dut_base + component_size,
            ));
        }
        let ghost dut_entry = wb.components@[0];
        let mut p: usize = 0;
        while p < ic
            invariant
                p <= ic,
                ic == inputs@.len(),
                oc == outputs@.len(),
                ic + oc + component_size <= usize::MAX,
                wb.wf(),
                forall|j: int| 0 <= j < wb.nets.raised@.len() ==> !wb.nets.raised@[j],
                wb.pin_to_net@ == ptn,
                ptn.len() == ic + oc + component_size,
                in_sockets@.len() == ic,
                forall|j: int|
                    0 <= j < ic ==> (#[trigger] in_sockets@[j]).location == j
                        && in_sockets@[j].size == 1,
                wb.components@.len() == 1 + p,
                wb.components@[0] == dut_entry,
                forall|j: int|
                    0 <= j < p ==> ((#[trigger] wb.components@[1 + j]).part is ProbeIn
                        && wb.components@[1 + j].bus.ids@ == ptn.subrange(j, j + 1)),
            decreases ic - p,
        {
            let ghost pre = wb.components@;
            let probe = crate::board::AnyComponent::ProbeIn(ProbeInput::new());
            wb.plug(probe, in_sockets[p]);
            proof {
                lemma_prefix_unchanged(pre, wb.components@);
            }
            p = p + 1;
        }
        let mut q: usize = 0;
        while q < oc
            invariant
                q <= oc,
                ic == inputs@.len(),
                oc == outputs@.len(),
                ic + oc + component_size <= usize::MAX,
                wb.wf(),
                forall|j: int| 0 <= j < wb.nets.raised@.len() ==> !wb.nets.raised@[j],
                wb.pin_to_net@ == ptn,
                ptn.len() == ic + oc + component_size,
                out_sockets@.len() == oc,
                forall|j: int|
                    0 <= j < oc ==> (#[trigger] out_sockets@[j]).location == ic + j
                        && out_sockets@[j].size == 1,
                wb.components@.len() == 1 + ic + q,
                wb.components@[0] == dut_entry,
                forall|j: int|
                    0 <= j < ic ==> ((#[trigger] wb.components@[1 + j]).part is ProbeIn
                        && wb.components@[1 + j].bus.ids@ == ptn.subrange(j, j + 1)),
                forall|j: int|
                    0 <= j < q ==> ((#[trigger] wb.components@[1 + ic + j]).part is ProbeOut
                        && wb.components@[1 + ic + j].bus.ids@ == ptn.subrange(
                            ic + j,
                            ic + j + 1,
                        )),
            decreases oc - q,
        {
            let ghost pre = wb.components@;
            let probe = crate::board::AnyComponent::ProbeOut(ProbeOutput::new());
            wb.plug(probe, out_sockets[q]);
            proof {
                lemma_prefix_unchanged(pre, wb.components@);
            }
            q = q + 1;
        }
        let tester = Tester::new(ic, oc);
        let cb = wb.complete();
        proof {
            assert forall|k: int| 0 <= k < ic implies #[trigger] cb.components@[1 + k].bus.ids@[0]
                == cb.components@[0].bus.ids@[inputs@[k] - 1] by {
                assert(cb.components@[1 + k].bus.ids@[0] == ptn[k]);
                assert(cb.components@[0].bus.ids@[inputs@[k] - 1] == ptn[dut_base + inputs@[k]
                    - 1]);
            }
            assert forall|k: int| 0 <= k < oc implies #[trigger] cb.components@[1 + ic
                + k].bus.ids@[0] == cb.components@[0].bus.ids@[outputs@[k] - 1] by {
                assert(cb.components@[1 + ic + k].bus.ids@[0] == ptn[ic + k]);
                assert(cb.components@[0].bus.ids@[outputs@[k] - 1] == ptn[dut_base + outputs@[k]
                    - 1]);
            }
        }
        (tester, cb)
    }

    /// The board component index of input probe `input_id`.
    pub fn input(&self, input_id: usize) -> (r: usize)
        requires
            input_id < self.inputs@.len(),
        ensures
            r == self.inputs@[input_id as int],
    {
        self.inputs[input_id]
    }

    /// The board component index of output probe `output_id`.
    pub fn output(&self, output_id: usize) -> (r: usize)
        requires
            output_id < self.outputs@.len(),
        ensures
            r == self.outputs@[output_id as int],
    {
        self.outputs[output_id]
    }

    /// Drives every input probe with the given signal, runs the board to
    /// quiescence, and compares every output probe against its expected
    /// value. Returns the first mismatch, with its index and both values.
    pub fn test(
        &self,
        board: &mut crate::board::CompleteBoard,
        inputs: &Vec<Signal>,
        expected: &Vec<Signal>,
    ) -> (r: Result<(), TestFailure>)
        requires
            old(board).wf(),
            self.wf(old(board)),
            inputs@.len() == self.inputs@.len(),
            expected@.len() == self.outputs@.len(),
        ensures
            final(board).wf(),
            self.wf(final(board)),
            crate::board::same_shape(final(board).components@, old(board).components@),
            r is Ok ==> forall|i: int|
                0 <= i < self.outputs@.len() ==> crate::board::probe_out_value(
                    final(board),
                    #[trigger] self.outputs@[i] as int,
                ) == expected@[i],
            (r matches Err(m) ==> ((m.index as int) < self.outputs@.len() && m.expected
                == expected@[m.index as int] && m.actual == crate::board::probe_out_value(
                final(board),
                self.outputs@[m.index as int] as int,
            ) && m.actual != m.expected)),
    {
        let ic = self.inputs.len();
        let mut i: usize = 0;
        while i < ic
            invariant
                i <= ic,
                ic == self.inputs@.len(),
                inputs@.len() == ic,
                board.wf(),
                self.wf(board),
                crate::board::same_shape(board.components@, old(board).components@),
            decreases ic - i,
        {
            board.set_input(self.inputs[i], inputs[i]);
            i = i + 1;
        }
        let ghost pre_eval = *board;
        board.eval();
        proof {
            assert forall|k: int| 0 <= k < self.inputs@.len() implies (((
            #[trigger] self.inputs@[k]) as int) < board.components@.len()
                && board.components@[self.inputs@[k] as int].part is ProbeIn) by {
                assert(crate::board::same_kind(
                    board.components@[self.inputs@[k] as int].part,
                    pre_eval.components@[self.inputs@[k] as int].part,
                ));
            }
            assert forall|k: int| 0 <= k < self.outputs@.len() implies (((
            #[trigger] self.outputs@[k]) as int) < board.components@.len()
                && board.components@[self.outputs@[k] as int].part is ProbeOut) by {
                assert(crate::board::same_kind(
                    board.components@[self.outputs@[k] as int].part,
                    pre_eval.components@[self.outputs@[k] as int].part,
                ));
            }
        }
        let oc = self.outputs.len();
        let mut k: usize = 0;
        while k < oc
            invariant
                k <= oc,
                oc == self.outputs@.len(),
                expected@.len() == oc,
                board.wf(),
                self.wf(board),
                crate::board::same_shape(board.components@, old(board).components@),
                forall|j: int|
                    0 <= j < k ==> crate::board::probe_out_value(
                        board,
                        #[trigger] self.outputs@[j] as int,
                    ) == expected@[j],
            decreases oc - k,
        {
            let actual = board.get_output(self.outputs[k]);
            let want = expected[k];
            if !crate::bus::signal_eq(actual, want) {
                return Err(TestFailure { index: k, expected: want, actual });
            }
            k = k + 1;
        }
        Ok(())
    }
}

} // verus!
