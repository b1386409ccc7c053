//! Which agent to ask for an on-demand replay of kernels.
//!
//! An agent may advertise an address for callbacks when it registers. Without
//! one a replay request is refused, and host-sampling cards have to do.

use crate::model::AgentHello;
use crate::table::Table;
use crate::text::{append_decimal, decimal};
use vstd::prelude::*;
use vstd::string::StringExecFns;

verus! {

#[derive(Debug, Clone)]
pub struct AgentEntry {
    pub node_id: u32,
    pub hostname: String,
    pub rpc_addr: Option<String>,
}

/// What is remembered of an agent: an empty callback address is none.
pub open spec fn entry_of(node_id: u32, hello: AgentHello) -> AgentEntry {
    AgentEntry {
        node_id,
        hostname: hello.hostname,
        rpc_addr: if hello.agent_rpc_addr@.len() == 0 {
            None
        } else {
            Some(hello.agent_rpc_addr)
        },
    }
}

/// Why a replay request is refused.
#[derive(Copy, Clone, Debug, PartialEq, Eq, Structural)]
pub enum ReplayError {
    /// No agent has registered for the node.
    NotRegistered { node_id: u32 },
    /// The node's agent takes no callbacks.
    NoRpcAddress { node_id: u32 },
}

impl ReplayError {
    /// The message for the user.
    pub open spec fn text(self) -> Seq<char> {
        match self {
            ReplayError::NotRegistered { node_id } => "node "@ + decimal(node_id as nat)
                + " not registered"@,
            ReplayError::NoRpcAddress { node_id } => "agent on node "@ + decimal(node_id as nat)
                + " did not advertise an RPC address; build with --features cupti-replay"@,
        }
    }

    pub fn message(&self) -> (m: String)
        ensures
            m@ == self.text(),
    {
        match self {
            ReplayError::NotRegistered { node_id } => {
                let mut m = "node ".to_string();
                append_decimal(&mut m, *node_id as u64);
                m.append(" not registered");
                m
            },
            ReplayError::NoRpcAddress { node_id } => {
                let mut m = "agent on node ".to_string();
                append_decimal(&mut m, *node_id as u64);
                m.append(" did not advertise an RPC address; build with --features cupti-replay");
                m
            },
        }
    }
}

/// The agents that have registered, by node.
pub struct AgentRegistry {
    inner: Table<AgentEntry>,
}

impl View for AgentRegistry {
    type V = Map<u128, AgentEntry>;

    closed spec fn view(&self) -> Map<u128, AgentEntry> {
        self.inner@
    }
}

impl AgentRegistry {
    pub closed spec fn wf(self) -> bool {
        self.inner.wf()
    }

    pub fn new() -> (r: Self)
        ensures
            r.wf(),
            r@ == Map::<u128, AgentEntry>::empty(),
    {
        AgentRegistry { inner: Table::new() }
    }

    /// Remembers an agent; one that registers again replaces its entry.
    pub fn register(&mut self, node_id: u32, hello: &AgentHello)
        requires
            old(self).wf(),
        ensures
            final(self).wf(),
            final(self)@ == old(self)@.insert(node_id as u128, entry_of(node_id, *hello)),
    {
        let rpc_addr = if hello.agent_rpc_addr.as_str().is_empty() {
            None
        } else {
            Some(hello.agent_rpc_addr.clone())
        };
        let entry = AgentEntry { node_id, hostname: hello.hostname.clone(), rpc_addr };
        self.inner.put(node_id as u128, entry);
    }

    pub fn get(&self, node_id: u32) -> (entry: Option<&AgentEntry>)
        requires
            self.wf(),
        ensures
            match entry {
                Some(e) => self@.contains_key(node_id as u128) && *e == self@[node_id as u128],
                None => !self@.contains_key(node_id as u128),
            },
    {
        self.inner.get(node_id as u128)
    }

    /// The address to call for a replay on a node.
    pub fn replay_target(&self, node_id: u32) -> (addr: Result<String, ReplayError>)
        requires
            self.wf(),
        ensures
            addr == replay_target_of(self@, node_id),
    {
        match self.get(node_id) {
            None => Err(ReplayError::NotRegistered { node_id }),
            Some(entry) => match &entry.rpc_addr {
                None => Err(ReplayError::NoRpcAddress { node_id }),
                Some(addr) => Ok(addr.clone()),
            },
        }
    }
}

/// The address to call for a replay on a node, or why there is none.
pub open spec fn replay_target_of(
    agents: Map<u128, AgentEntry>,
    node_id: u32,
) -> Result<String, ReplayError> {
    if !agents.contains_key(node_id as u128) {
        Err(ReplayError::NotRegistered { node_id })
    } else {
        match agents[node_id as u128].rpc_addr {
            None => Err(ReplayError::NoRpcAddress { node_id }),
            Some(addr) => Ok(addr),
        }
    }
}

/// A replay on a node goes to the address its agent registered last, and is
/// refused if that agent advertised none.
pub proof fn replay_goes_to_the_last_registration(
    agents: Map<u128, AgentEntry>,
    node_id: u32,
    hello: AgentHello,
)
    ensures
        replay_target_of(agents.insert(node_id as u128, entry_of(node_id, hello)), node_id)
            == if hello.agent_rpc_addr@.len() == 0 {
            Err::<String, ReplayError>(ReplayError::NoRpcAddress { node_id })
        } else {
            Ok(hello.agent_rpc_addr)
        },
{
}

} // verus!
