//! The command channel: typed operations sent from the control side to the
//! audio side, and telemetry handed back the other way.

use vstd::prelude::*;

verus! {

pub const DSPAPI_VERSION: &'static str = "0.0.1";

pub type NodeId = u32;

pub type ParamId = u32;

pub type PortId = u32;

/// Opcode: attach a node to the rack.
pub const OP_ADD_NODE: u32 = 0;

/// Opcode: detach a node (reserved).
pub const OP_REMOVE_NODE: u32 = 1;

/// Opcode: forward a parameter payload to a node.
pub const OP_SET_PARAM: u32 = 2;

/// Opcode: connect routing (reserved).
pub const OP_CONNECT: u32 = 3;

#[derive(Debug, Clone, Copy, PartialEq, Eq)]
pub enum StatState {
    ACTIVE,
    INACTIVE,
    PAUSED,
}

/// One operation for the audio side. `command_id` is the opcode:
/// 0 add node, 1 remove node, 2 set parameter, 3 connect routing.
pub struct Command {
    pub command_id: u32,
    pub description: &'static str,
    pub payload_size: usize,
    pub payload: Vec<u8>,
    pub node_id: NodeId,
    pub param_id: ParamId,
    pub port_id: PortId,
    pub stat: StatState,
}

/// The queue after `cmd` is sent into it.
pub open spec fn sent(queue: Seq<Command>, cmd: Command) -> Seq<Command> {
    queue.push(cmd)
}

impl Command {
    pub fn new(
        command_id: u32,
        description: &'static str,
        payload: Vec<u8>,
        node_id: NodeId,
        param_id: ParamId,
        port_id: PortId,
        stat: StatState,
    ) -> (r: Self)
        ensures
            r.command_id == command_id,
            r.description == description,
            r.payload_size == payload@.len(),
            r.payload@ == payload@,
            r.node_id == node_id,
            r.param_id == param_id,
            r.port_id == port_id,
            r.stat == stat,
    {
        Command {
            command_id,
            description,
            payload_size: payload.len(),
            payload,
            node_id,
            param_id,
            port_id,
            stat,
        }
    }

    /// Hands the command over to `queue`, behind every command already there.
    pub fn send(self, queue: &mut Vec<Command>)
        ensures
            final(queue)@ == sent(old(queue)@, self),
    {
        queue.push(self);
    }

    /// Takes every command out of `queue`, oldest first.
    pub fn receive_all(queue: &mut Vec<Command>) -> (r: Vec<Command>)
        ensures
            r@ == old(queue)@,
            final(queue)@ == Seq::<Command>::empty(),
    {
        let mut out: Vec<Command> = Vec::new();
        std::mem::swap(&mut out, queue);
        out
    }
}

} // verus!
