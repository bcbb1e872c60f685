//! The engine: it owns the sample ring and the rack, and once per hardware
//! period applies the pending commands, pulls samples into the output
//! (silence on underflow) and runs every node of the rack over the output.

use vstd::prelude::*;
use crate::{Sample, SILENCE};
use crate::dspapi::{Command, NodeId, ParamId, OP_ADD_NODE, OP_SET_PARAM, sent};
use crate::mrbr::{MagicRingBuffer, is_pow2, lemma_ring_capacity};

verus! {

pub const DSPENGINE_VERSION: &'static str = "0.1.0";

/// A processing unit of the rack. Internal nodes and plugin wrappers alike
/// implement it; every method runs on the audio side and must not block.
pub trait AudioNode: Sized {
    /// The node's identity, fixed for its lifetime. Each node type states
    /// its own; proofs over an arbitrary node never see this default.
    closed spec fn id(&self) -> NodeId {
        0
    }

    /// What `process` makes of a buffer holding `input`.
    closed spec fn processed(&self, input: Seq<Sample>) -> Seq<Sample> {
        input
    }

    /// The node after it took parameter `param_id` with `payload`.
    closed spec fn with_param(&self, param_id: ParamId, payload: Seq<u8>) -> Self {
        *self
    }

    /// Transforms `buffer` in place.
    fn process(&mut self, buffer: &mut Vec<Sample>)
        ensures
            final(buffer)@ == old(self).processed(old(buffer)@),
            final(buffer)@.len() == old(buffer)@.len(),
            final(self).id() == old(self).id(),
    ;

    /// Takes a parameter value; the payload's layout is the node's own.
    fn set_param(&mut self, param_id: ParamId, payload: &[u8])
        ensures
            *final(self) == old(self).with_param(param_id, payload@),
    ;

    fn get_id(&self) -> (r: NodeId)
        ensures
            r == self.id(),
    ;

    fn get_name(&self) -> &str;
}

/// Supplies fully built nodes by name.
pub trait NodeFactory<N> {
    /// Can a node named `name` be built?
    /// Each factory type states its own; proofs over an arbitrary factory
    /// never see this default.
    closed spec fn provides(&self, name: Seq<char>) -> bool {
        false
    }

    /// Is `n` a node that the name `name` stands for?
    closed spec fn makes(&self, name: Seq<char>, n: N) -> bool {
        false
    }

    /// A node for `name`, exactly when one can be built; what can be built
    /// stays as it was.
    fn create_node(&mut self, name: &str) -> (r: Option<N>)
        ensures
            r is Some <==> old(self).provides(name@),
            r matches Some(n) ==> old(self).makes(name@, n),
            forall|m: Seq<char>| #[trigger] final(self).provides(m) == old(self).provides(m),
            forall|m: Seq<char>, n: N| #[trigger] final(self).makes(m, n) == old(self).makes(m, n),
    ;
}

/// A node in the rack, with the identity it reported when it was attached.
pub struct RackSlot<N> {
    pub id: NodeId,
    pub node: N,
}

/// What applying one command did.
#[derive(Debug, Clone, Copy, PartialEq, Eq)]
pub enum Applied {
    /// A node with this identity was appended to the rack.
    Attached(NodeId),
    /// The factory had no node of the requested name.
    Unavailable,
    /// The parameter went to the rack node at this position.
    ParamForwarded(usize),
    /// No rack node has the target identity.
    NoTarget,
    /// The opcode has no behaviour on the audio side.
    Unhandled(u32),
}

/// The identities of a rack, in order.
pub open spec fn ids_of<N>(rack: Seq<RackSlot<N>>) -> Seq<NodeId> {
    rack.map_values(|s: RackSlot<N>| s.id)
}

/// `i` is the first position of `id` in `ids`.
pub open spec fn first_match(ids: Seq<NodeId>, id: NodeId, i: int) -> bool {
    &&& 0 <= i < ids.len()
    &&& ids[i] == id
    &&& forall|j: int| 0 <= j < i ==> ids[j] != id
}

/// Applying `cmd` to the rack `before`, with the factory `f`, gives outcome
/// `a` and the rack `after`.
pub open spec fn step_ok<N: AudioNode, F: NodeFactory<N>>(
    f: F,
    before: Seq<RackSlot<N>>,
    cmd: Command,
    a: Applied,
    after: Seq<RackSlot<N>>,
) -> bool {
    if cmd.command_id == OP_ADD_NODE {
        if f.provides(cmd.description@) {
            &&& after.len() == before.len() + 1
            &&& after.drop_last() == before
            &&& f.makes(cmd.description@, after.last().node)
            &&& after.last().id == after.last().node.id()
            &&& a == Applied::Attached(after.last().id)
        } else {
            a == Applied::Unavailable && after == before
        }
    } else if cmd.command_id == OP_SET_PARAM {
        match a {
            Applied::ParamForwarded(i) => {
                &&& first_match(ids_of(before), cmd.node_id, i as int)
                &&& after.len() == before.len()
                &&& after[i as int].id == before[i as int].id
                &&& after[i as int].node == before[i as int].node.with_param(cmd.param_id, cmd.payload@)
                &&& forall|j: int| 0 <= j < before.len() && j != i ==> after[j] == before[j]
            },
            Applied::NoTarget => {
                &&& forall|j: int| 0 <= j < ids_of(before).len() ==> ids_of(before)[j] != cmd.node_id
                &&& after == before
            },
            _ => false,
        }
    } else {
        a == Applied::Unhandled(cmd.command_id) && after == before
    }
}

/// `trace` lists the racks between the steps of `log`, which applies `cmds`
/// in order.
pub open spec fn trace_ok<N: AudioNode, F: NodeFactory<N>>(
    f: F,
    trace: Seq<Seq<RackSlot<N>>>,
    cmds: Seq<Command>,
    log: Seq<Applied>,
) -> bool {
    &&& log.len() == cmds.len()
    &&& trace.len() == log.len() + 1
    &&& forall|i: int|
        0 <= i < log.len() ==> step_ok(f, trace[i], cmds[i], #[trigger] log[i], trace[i + 1])
}

/// `log` applies `cmds` one by one, in order, taking the rack from `before`
/// to `after`.
pub open spec fn batch_ok<N: AudioNode, F: NodeFactory<N>>(
    f: F,
    before: Seq<RackSlot<N>>,
    cmds: Seq<Command>,
    log: Seq<Applied>,
    after: Seq<RackSlot<N>>,
) -> bool {
    exists|trace: Seq<Seq<RackSlot<N>>>|
        #[trigger] trace_ok(f, trace, cmds, log) && trace[0] == before && trace.last() == after
}

/// The output after every node of `rack` processed it, first node first.
pub open spec fn chain<N: AudioNode>(rack: Seq<RackSlot<N>>, input: Seq<Sample>) -> Seq<Sample>
    decreases rack.len(),
{
    if rack.len() == 0 {
        input
    } else {
        rack.last().node.processed(chain(rack.drop_last(), input))
    }
}

/// The pending queue and the batch taken from it by one drain attempt.
pub open spec fn drained(queue: Seq<Command>, acquired: bool) -> (Seq<Command>, Seq<Command>) {
    if acquired {
        (Seq::empty(), queue)
    } else {
        (queue, Seq::empty())
    }
}

/// The hardware buffer of `len` samples filled from `avail`: the available
/// samples first, silence for the shortfall.
pub open spec fn pulled(avail: Seq<Sample>, len: nat) -> Seq<Sample> {
    Seq::new(len, |k: int| if k < avail.len() { avail[k] } else { SILENCE })
}

pub open spec fn min_nat(a: nat, b: nat) -> nat {
    if a <= b {
        a
    } else {
        b
    }
}

pub struct DspEngine<N> {
    pub engine_id: u32,
    pub description: &'static str,
    pub is_running: bool,
    pub sample_rate: u32,
    pub buffer_size: usize,
    pub buffer: MagicRingBuffer,
    /// The rack, in processing order.
    pub nodes: Vec<RackSlot<N>>,
}

impl<N: AudioNode> DspEngine<N> {
    pub open spec fn rack_ids(&self) -> Seq<NodeId> {
        ids_of(self.nodes@)
    }

    pub open spec fn wf(&self) -> bool {
        self.buffer.wf()
    }

    /// The same engine settings and running state.
    pub open spec fn same_settings(&self, other: &Self) -> bool {
        &&& self.engine_id == other.engine_id
        &&& self.description == other.description
        &&& self.is_running == other.is_running
        &&& self.sample_rate == other.sample_rate
        &&& self.buffer_size == other.buffer_size
    }

    /// A stopped engine with an empty rack and an empty ring of
    /// `buffer_size` samples.
    pub fn new(engine_id: u32, description: &'static str, sample_rate: u32, buffer_size: usize) -> (r: Self)
        requires
            is_pow2(buffer_size),
            buffer_size <= usize::MAX / 2,
        ensures
            r.wf(),
            r.engine_id == engine_id,
            r.description == description,
            !r.is_running,
            r.sample_rate == sample_rate,
            r.buffer_size == buffer_size,
            r.buffer.cap() == buffer_size,
            r.buffer.read_pos() == 0,
            r.buffer.write_pos() == 0,
            r.buffer.unread() == Seq::<Sample>::empty(),
            r.nodes@.len() == 0,
    {
        let buffer = MagicRingBuffer::new(buffer_size).unwrap();
        DspEngine {
            engine_id,
            description,
            is_running: false,
            sample_rate,
            buffer_size,
            buffer,
            nodes: Vec::new(),
        }
    }

    /// The position of the first rack node with identity `id`.
    fn find_node(&self, id: NodeId) -> (r: Option<usize>)
        ensures
            r matches Some(i) ==> first_match(self.rack_ids(), id, i as int),
            r is None ==> forall|j: int| 0 <= j < self.rack_ids().len() ==> self.rack_ids()[j] != id,
    {
        let mut i: usize = 0;
        while i < self.nodes.len()
            invariant
                i <= self.nodes@.len(),
                forall|j: int| 0 <= j < i ==> self.rack_ids()[j] != id,
            decreases self.nodes@.len() - i,
        {
            if self.nodes[i].id == id {
                return Some(i);
            }
            i = i + 1;
        }
        None
    }

    /// Appends a node that was built for an add-node command, under the
    /// identity it reports; `Unavailable`, with the rack unchanged, when no
    /// node could be built.
    pub fn attach_node(&mut self, created: Option<N>) -> (a: Applied)
        ensures
            created is None ==> a == Applied::Unavailable && final(self).nodes == old(self).nodes,
            created matches Some(n) ==> {
                &&& final(self).nodes@.len() == old(self).nodes@.len() + 1
                &&& final(self).nodes@.drop_last() == old(self).nodes@
                &&& final(self).nodes@.last().node == n
                &&& final(self).nodes@.last().id == n.id()
                &&& a == Applied::Attached(n.id())
            },
            final(self).buffer == old(self).buffer,
            final(self).same_settings(old(self)),
    {
        match created {
            Some(node) => {
                let id = node.get_id();
                self.nodes.push(RackSlot { id, node });
                proof {
                    assert(self.nodes@.drop_last() =~= old(self).nodes@);
                }
                Applied::Attached(id)
            },
            None => Applied::Unavailable,
        }
    }

    /// Applies one command to the rack.
    fn apply_one<F: NodeFactory<N>>(&mut self, cmd: &Command, factory: &mut F) -> (a: Applied)
        ensures
            step_ok(*old(factory), old(self).nodes@, *cmd, a, final(self).nodes@),
            forall|m: Seq<char>| #[trigger] final(factory).provides(m) == old(factory).provides(m),
            forall|m: Seq<char>, n: N| #[trigger] final(factory).makes(m, n) == old(factory).makes(m, n),
            final(self).buffer == old(self).buffer,
            final(self).same_settings(old(self)),
    {
        if cmd.command_id == OP_ADD_NODE {
            let created = factory.create_node(cmd.description);
            let a = self.attach_node(created);
            proof {
                if created is Some {
                    assert(old(factory).makes(cmd.description@, self.nodes@.last().node));
                }
                assert(step_ok(*old(factory), old(self).nodes@, *cmd, a, self.nodes@));
            }
            a
        } else if cmd.command_id == OP_SET_PARAM {
            match self.find_node(cmd.node_id) {
                Some(i) => {
                    let mut slot = self.nodes.remove(i);
                    slot.node.set_param(cmd.param_id, cmd.payload.as_slice());
                    let ghost updated = slot;
                    self.nodes.insert(i, slot);
                    proof {
                        assert(self.nodes@ =~= old(self).nodes@.update(i as int, updated));
                        assert(step_ok(
                            *old(factory),
                            old(self).nodes@,
                            *cmd,
                            Applied::ParamForwarded(i),
                            self.nodes@,
                        ));
                    }
                    Applied::ParamForwarded(i)
                },
                None => {
                    proof {
                        assert forall|j: int| 0 <= j < ids_of(old(self).nodes@).len() implies ids_of(
                            old(self).nodes@,
                        )[j] != cmd.node_id by {
                            assert(self.rack_ids()[j] != cmd.node_id);
                        }
                    }
                    Applied::NoTarget
                },
            }
        } else {
            Applied::Unhandled(cmd.command_id)
        }
    }

    /// Takes every pending command out of `inbound`, when the queue could be
    /// acquired, and applies them to the rack in the order they were sent.
    /// When it could not, nothing is taken and nothing changes: the commands
    /// wait, in order, for the next cycle.
    pub fn drain_and_apply<F: NodeFactory<N>>(
        &mut self,
        inbound: &mut Vec<Command>,
        acquired: bool,
        factory: &mut F,
    ) -> (log: Vec<Applied>)
        ensures
            final(inbound)@ == drained(old(inbound)@, acquired).0,
            batch_ok(
                *old(factory),
                old(self).nodes@,
                drained(old(inbound)@, acquired).1,
                log@,
                final(self).nodes@,
            ),
            !acquired ==> final(self).nodes == old(self).nodes,
            forall|m: Seq<char>| #[trigger] final(factory).provides(m) == old(factory).provides(m),
            forall|m: Seq<char>, n: N| #[trigger] final(factory).makes(m, n) == old(factory).makes(m, n),
            final(self).buffer == old(self).buffer,
            final(self).same_settings(old(self)),
    {
        let mut log: Vec<Applied> = Vec::new();
        let ghost f0 = *factory;
        let ghost trace: Seq<Seq<RackSlot<N>>> = seq![self.nodes@];
        if !acquired {
            proof {
                assert(trace_ok(f0, trace, Seq::<Command>::empty(), log@));
            }
            return log;
        }
        let cmds = Command::receive_all(inbound);
        let mut i: usize = 0;
        while i < cmds.len()
            invariant
                i <= cmds@.len(),
                cmds@ == old(inbound)@,
                f0 == *old(factory),
                forall|m: Seq<char>| #[trigger] factory.provides(m) == f0.provides(m),
                forall|m: Seq<char>, n: N| #[trigger] factory.makes(m, n) == f0.makes(m, n),
                trace_ok(f0, trace, cmds@.subrange(0, i as int), log@),
                trace[0] == old(self).nodes@,
                trace.last() == self.nodes@,
                self.buffer == old(self).buffer,
                self.same_settings(old(self)),
            decreases cmds@.len() - i,
        {
            let ghost fi = *factory;
            let ghost before = self.nodes@;
            let a = self.apply_one(&cmds[i], factory);
            proof {
                assert(step_ok(fi, before, cmds@[i as int], a, self.nodes@));
                assert(step_ok(f0, before, cmds@[i as int], a, self.nodes@));
            }
            let ghost old_log = log@;
            let ghost old_trace = trace;
            log.push(a);
            proof {
                trace = trace.push(self.nodes@);
                assert forall|j: int| 0 <= j < log@.len() implies step_ok(
                    f0,
                    trace[j],
                    cmds@.subrange(0, i + 1)[j],
                    #[trigger] log@[j],
                    trace[j + 1],
                ) by {
                    if j < i {
                        assert(log@[j] == old_log[j]);
                        assert(cmds@.subrange(0, i + 1)[j] == cmds@.subrange(0, i as int)[j]);
                        assert(trace[j] == old_trace[j]);
                        assert(trace[j + 1] == old_trace[j + 1]);
                    }
                }
            }
            i = i + 1;
        }
        proof {
            assert(cmds@.subrange(0, i as int) =~= cmds@);
        }
        log
    }

    /// Fills `output` from the ring: as many unread samples as fit, then
    /// silence for the shortfall; exactly the samples copied are consumed.
    pub fn pull_samples(&mut self, output: &mut Vec<Sample>)
        requires
            old(self).wf(),
        ensures
            final(self).wf(),
            final(output)@ == pulled(old(self).buffer.unread(), old(output)@.len()),
            final(self).buffer.read_pos() == old(self).buffer.read_pos() + min_nat(
                old(output)@.len(),
                old(self).buffer.unread().len(),
            ),
            final(self).buffer.write_pos() == old(self).buffer.write_pos(),
            final(self).buffer.cap() == old(self).buffer.cap(),
            final(self).buffer.unread() == old(self).buffer.unread().subrange(
                min_nat(old(output)@.len(), old(self).buffer.unread().len()) as int,
                old(self).buffer.unread().len() as int,
            ),
            final(self).nodes == old(self).nodes,
            final(self).same_settings(old(self)),
    {
        let available = self.buffer.read_slice();
        let total = output.len();
        let len: usize = if total < available.len() {
            total
        } else {
            available.len()
        };
        let ghost target = pulled(self.buffer.unread(), total as nat);
        let mut k: usize = 0;
        while k < total
            invariant
                k <= total,
                len <= total,
                len <= available@.len(),
                len == total || len == available@.len(),
                output@.len() == total,
                available@ == old(self).buffer.unread(),
                self.buffer.wf(),
                *self == *old(self),
                target == pulled(available@, total as nat),
                forall|j: int| 0 <= j < k ==> output@[j] == target[j],
            decreases total - k,
        {
            if k < len {
                output.set(k, available[k]);
            } else {
                output.set(k, SILENCE);
            }
            k = k + 1;
        }
        proof {
            lemma_ring_capacity(self.buffer);
        }
        self.buffer.consume(len);
        proof {
            assert(output@ =~= target);
        }
    }

    /// Runs every rack node over `output`, in rack order, each node taking
    /// what the one before it produced.
    pub fn run_rack(&mut self, output: &mut Vec<Sample>)
        ensures
            final(output)@ == chain(old(self).nodes@, old(output)@),
            final(output)@.len() == old(output)@.len(),
            final(self).rack_ids() == old(self).rack_ids(),
            final(self).buffer == old(self).buffer,
            final(self).same_settings(old(self)),
    {
        let n = self.nodes.len();
        let mut i: usize = 0;
        while i < n
            invariant
                i <= n,
                n == self.nodes@.len(),
                n == old(self).nodes@.len(),
                output@ == chain(old(self).nodes@.subrange(0, i as int), old(output)@),
                output@.len() == old(output)@.len(),
                forall|j: int| i <= j < n ==> self.nodes@[j] == old(self).nodes@[j],
                self.rack_ids() == old(self).rack_ids(),
                self.buffer == old(self).buffer,
                self.same_settings(old(self)),
            decreases n - i,
        {
            let mut slot = self.nodes.remove(i);
            slot.node.process(output);
            self.nodes.insert(i, slot);
            proof {
                assert(self.rack_ids() =~= old(self).rack_ids());
                assert(old(self).nodes@.subrange(0, i + 1).drop_last() =~= old(self).nodes@.subrange(0, i as int));
            }
            i = i + 1;
        }
        proof {
            assert(old(self).nodes@.subrange(0, n as int) =~= old(self).nodes@);
        }
    }

    /// One hardware period: apply the pending commands, pull samples into
    /// `output` with silence on underflow, then run the rack, as the
    /// commands left it, over `output`.
    pub fn process_cycle<F: NodeFactory<N>>(
        &mut self,
        output: &mut Vec<Sample>,
        inbound: &mut Vec<Command>,
        acquired: bool,
        factory: &mut F,
    ) -> (log: Vec<Applied>)
        requires
            old(self).wf(),
        ensures
            final(self).wf(),
            final(inbound)@ == drained(old(inbound)@, acquired).0,
            exists|rack: Seq<RackSlot<N>>|
                {
                    &&& #[trigger] batch_ok(
                        *old(factory),
                        old(self).nodes@,
                        drained(old(inbound)@, acquired).1,
                        log@,
                        rack,
                    )
                    &&& !acquired ==> rack == old(self).nodes@
                    &&& ids_of(rack) == final(self).rack_ids()
                    &&& final(output)@ == chain(
                        rack,
                        pulled(old(self).buffer.unread(), old(output)@.len()),
                    )
                },
            final(output)@.len() == old(output)@.len(),
            final(self).buffer.read_pos() == old(self).buffer.read_pos() + min_nat(
                old(output)@.len(),
                old(self).buffer.unread().len(),
            ),
            final(self).buffer.write_pos() == old(self).buffer.write_pos(),
            final(self).buffer.unread() == old(self).buffer.unread().subrange(
                min_nat(old(output)@.len(), old(self).buffer.unread().len()) as int,
                old(self).buffer.unread().len() as int,
            ),
            final(self).same_settings(old(self)),
    {
        let log = self.drain_and_apply(inbound, acquired, factory);
        let ghost rack = self.nodes@;
        self.pull_samples(output);
        self.run_rack(output);
        proof {
            assert(batch_ok(
                *old(factory),
                old(self).nodes@,
                drained(old(inbound)@, acquired).1,
                log@,
                rack,
            ));
        }
        log
    }

    /// Producer side: copies `samples` into the ring and publishes them, all
    /// or nothing. Returns how many were accepted: all of them, or 0 when the
    /// room left is too small.
    pub fn push_samples(&mut self, samples: &[Sample]) -> (r: usize)
        requires
            old(self).wf(),
            old(self).buffer.write_pos() + samples@.len() <= usize::MAX,
        ensures
            final(self).wf(),
            r == if samples@.len() <= old(self).buffer.room() {
                samples@.len()
            } else {
                0
            },
            final(self).buffer.unread() == if r > 0 || samples@.len() == 0 {
                old(self).buffer.unread() + samples@
            } else {
                old(self).buffer.unread()
            },
            final(self).buffer.read_pos() == old(self).buffer.read_pos(),
            final(self).buffer.write_pos() == old(self).buffer.write_pos() + r,
            final(self).buffer.cap() == old(self).buffer.cap(),
            final(self).nodes == old(self).nodes,
            final(self).same_settings(old(self)),
    {
        if self.buffer.write_slice(samples) {
            let ghost mid = self.buffer;
            self.buffer.commit_write(samples.len());
            proof {
                assert(Seq::new(samples@.len(), |k: int| mid.slot(mid.write_pos() + k)) =~= samples@);
            }
            samples.len()
        } else {
            0
        }
    }

    /// Records the outcome of opening the output stream. Already running:
    /// nothing changes and the result is `Ok`. Otherwise the engine runs
    /// exactly when the stream opened, and the outcome is returned.
    pub fn start(&mut self, stream: Result<(), String>) -> (r: Result<(), String>)
        ensures
            old(self).is_running ==> r is Ok && final(self).is_running,
            !old(self).is_running ==> r == stream && final(self).is_running == stream is Ok,
            final(self).engine_id == old(self).engine_id,
            final(self).description == old(self).description,
            final(self).sample_rate == old(self).sample_rate,
            final(self).buffer_size == old(self).buffer_size,
            final(self).buffer == old(self).buffer,
            final(self).nodes == old(self).nodes,
    {
        if self.is_running {
            return Ok(());
        }
        if stream.is_ok() {
            self.is_running = true;
        }
        stream
    }

    /// Leaves the running state; the rack and the ring are kept.
    pub fn stop(&mut self)
        ensures
            !final(self).is_running,
            final(self).engine_id == old(self).engine_id,
            final(self).description == old(self).description,
            final(self).sample_rate == old(self).sample_rate,
            final(self).buffer_size == old(self).buffer_size,
            final(self).buffer == old(self).buffer,
            final(self).nodes == old(self).nodes,
    {
        self.is_running = false;
    }
}

/// The queue after each command of `cmds` is sent into it, in order.
pub open spec fn send_all(queue: Seq<Command>, cmds: Seq<Command>) -> Seq<Command>
    decreases cmds.len(),
{
    if cmds.len() == 0 {
        queue
    } else {
        sent(send_all(queue, cmds.drop_last()), cmds.last())
    }
}

/// The queue after `rounds` cycles in which the queue could not be
/// acquired, each cycle preceded by the sends of its round.
pub open spec fn pending_after(queue: Seq<Command>, rounds: Seq<Seq<Command>>) -> Seq<Command>
    decreases rounds.len(),
{
    if rounds.len() == 0 {
        queue
    } else {
        drained(send_all(pending_after(queue, rounds.drop_last()), rounds.last()), false).0
    }
}

/// All the rounds' commands, in the order sent.
pub open spec fn concat_rounds(rounds: Seq<Seq<Command>>) -> Seq<Command>
    decreases rounds.len(),
{
    if rounds.len() == 0 {
        Seq::empty()
    } else {
        concat_rounds(rounds.drop_last()) + rounds.last()
    }
}

/// Sending appends at the back: the queue keeps the order of sending.
pub proof fn lemma_send_all(queue: Seq<Command>, cmds: Seq<Command>)
    ensures
        send_all(queue, cmds) == queue + cmds,
    decreases cmds.len(),
{
    if cmds.len() > 0 {
        lemma_send_all(queue, cmds.drop_last());
        assert(queue + cmds =~= (queue + cmds.drop_last()).push(cmds.last()));
    } else {
        assert(queue + cmds =~= queue);
    }
}

/// Commands sent one after another and then drained once form one batch
/// in the order sent, which `drain_and_apply` applies position by position.
pub proof fn lemma_command_order(queue: Seq<Command>, cmds: Seq<Command>)
    ensures
        drained(send_all(queue, cmds), true).1 == queue + cmds,
        drained(send_all(queue, cmds), true).0 == Seq::<Command>::empty(),
{
    lemma_send_all(queue, cmds);
}

/// Contention defers and never drops: after any number of cycles that could
/// not acquire the queue, with commands sent before each, the first cycle
/// that acquires it takes every command sent, in the order sent.
pub proof fn lemma_deferred_not_lost(queue: Seq<Command>, rounds: Seq<Seq<Command>>)
    ensures
        pending_after(queue, rounds) == queue + concat_rounds(rounds),
        drained(pending_after(queue, rounds), true).1 == queue + concat_rounds(rounds),
        drained(pending_after(queue, rounds), true).0 == Seq::<Command>::empty(),
    decreases rounds.len(),
{
    if rounds.len() > 0 {
        lemma_deferred_not_lost(queue, rounds.drop_last());
        lemma_send_all(pending_after(queue, rounds.drop_last()), rounds.last());
        assert(queue + concat_rounds(rounds) =~= (queue + concat_rounds(rounds.drop_last()))
            + rounds.last());
    } else {
        assert(queue + concat_rounds(rounds) =~= queue);
    }
}

} // verus!
