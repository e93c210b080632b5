//! The registry of virtual agents on this node: their keys, their status
//! (master, replica of a peer, or piped to peers) and the sealing of channel
//! identifiers under their keys.
use vstd::prelude::*;
use crate::channel_id::{u128_bytes, u128_from_be_bytes, u128_to_be_bytes, ChannelShortId};
use crate::crypto::{
    aes_gcm_open, aes_gcm_seal, aes_gcm_sealed, b64url, b64url_decode, b64url_encode, is_b64url_char,
};
use crate::error::MegaphoneError;
use crate::pipe::{Pipe, SyncEvent};
use crate::random::{is_alphanumeric, random_index, random_key, random_nonce};

verus! {

/// How long, by default, a new master stays out of channel placement.
pub const WARMUP_MILLIS: u64 = 60_000;

pub open spec fn is_name_char(c: char) -> bool {
    is_alphanumeric(c) || c == '_' || c == '-'
}

/// Agent names match `[A-Za-z0-9_-]+`.
pub open spec fn is_valid_agent_name(s: Seq<char>) -> bool {
    s.len() > 0 && forall|i: int| 0 <= i < s.len() ==> is_name_char(#[trigger] s[i])
}

pub enum VirtualAgentStatus {
    Master,
    Replica { pipe_sessions_count: usize },
    Piped { pipes: Vec<Pipe> },
}

/// The mode of an agent as configured at start-up.
#[derive(Clone, Copy, Debug, PartialEq, Eq, Structural)]
pub enum VirtualAgentMode {
    Master,
    Replica,
}

/// The mode of an agent as reported to clients.
#[derive(Clone, Copy, Debug, PartialEq, Eq, Structural)]
pub enum VirtualAgentModeDto {
    Master,
    Replica,
    Piped,
}

pub struct VirtualAgentProps {
    pub key: Vec<u8>,
    pub change_ts: u64,
    pub status: VirtualAgentStatus,
}

pub struct AgentEntry {
    pub name: String,
    pub props: VirtualAgentProps,
}

/// What a listing reports of one agent.
pub struct AgentInfo {
    pub name: String,
    pub mode: VirtualAgentModeDto,
    pub change_ts: u64,
    pub warming_up: bool,
}

/// The start-up configuration of the agents of a node.
pub struct AgentConfig {
    pub virtual_agents: Vec<(String, VirtualAgentMode)>,
}

impl AgentConfig {
    /// The configuration given as a single name: one master.
    pub fn from_name(name: String) -> (r: Self)
        ensures
            r.virtual_agents@.len() == 1,
            r.virtual_agents@[0].0@ == name@,
            r.virtual_agents@[0].1 == VirtualAgentMode::Master,
    {
        let mut v: Vec<(String, VirtualAgentMode)> = Vec::new();
        v.push((name, VirtualAgentMode::Master));
        AgentConfig { virtual_agents: v }
    }
}

pub open spec fn is_distributed(s: VirtualAgentStatus) -> bool {
    match s {
        VirtualAgentStatus::Master => false,
        VirtualAgentStatus::Replica { pipe_sessions_count } => pipe_sessions_count > 0,
        VirtualAgentStatus::Piped { .. } => true,
    }
}

/// A master is warming up until `warmup` milliseconds after it became one.
pub open spec fn is_warming_up(p: VirtualAgentProps, now: u64, warmup: u64) -> bool {
    p.status is Master && now < p.change_ts + warmup
}

pub open spec fn mode_of(s: VirtualAgentStatus) -> VirtualAgentModeDto {
    match s {
        VirtualAgentStatus::Master => VirtualAgentModeDto::Master,
        VirtualAgentStatus::Replica { .. } => VirtualAgentModeDto::Replica,
        VirtualAgentStatus::Piped { .. } => VirtualAgentModeDto::Piped,
    }
}

pub open spec fn pipes_of(s: VirtualAgentStatus) -> Seq<Pipe> {
    match s {
        VirtualAgentStatus::Piped { pipes } => pipes@,
        _ => Seq::empty(),
    }
}

/// The sealed form of a short identifier under a key and nonce: the nonce
/// followed by the sealed bytes, as URL-safe base64.
pub open spec fn sealed_token(key: Seq<u8>, nonce: Seq<u8>, id: u128) -> Seq<char> {
    b64url(nonce + aes_gcm_sealed(key, nonce, u128_bytes(id)))
}

/// Whether the given text is a valid agent name.
pub fn validate_agent_name(name: &str) -> (r: Result<(), MegaphoneError>)
    ensures
        r is Ok <==> is_valid_agent_name(name@),
        r matches Err(e) ==> e is BadRequest,
{
    let n = name.unicode_len();
    if n == 0 {
        return Err(MegaphoneError::BadRequest(String::from_str("Empty agent name")));
    }
    let mut i: usize = 0;
    while i < n
        invariant
            i <= n,
            n == name@.len(),
            forall|j: int| 0 <= j < i ==> is_name_char(#[trigger] name@[j]),
        decreases n - i,
    {
        let c = name.get_char(i);
        if !(('0' <= c && c <= '9') || ('a' <= c && c <= 'z') || ('A' <= c && c <= 'Z') || c == '_'
            || c == '-') {
            return Err(
                MegaphoneError::BadRequest(String::from_str("Unsupported format for agent name")),
            );
        }
        i = i + 1;
    }
    Ok(())
}

fn copy_bytes(b: &[u8]) -> (r: Vec<u8>)
    ensures
        r@ == b@,
{
    let mut out: Vec<u8> = Vec::new();
    let mut i: usize = 0;
    while i < b.len()
        invariant
            i <= b@.len(),
            out@ == b@.subrange(0, i as int),
        decreases b@.len() - i,
    {
        out.push(b[i]);
        assert(out@ =~= b@.subrange(0, i + 1));
        i = i + 1;
    }
    assert(b@.subrange(0, b@.len() as int) =~= b@);
    out
}


/// The registry of the virtual agents of this node.
pub struct AgentsManagerService {
    pub agents: Vec<AgentEntry>,
    pub warmup_ms: u64,
}

impl AgentsManagerService {
    /// Names are unique, keys are 256-bit, and a piped agent has a pipe.
    pub open spec fn wf(&self) -> bool {
        &&& forall|i: int, j: int|
            0 <= i < j < self.agents@.len() ==> #[trigger] self.agents@[i].name@
                != #[trigger] self.agents@[j].name@
        &&& forall|i: int|
            0 <= i < self.agents@.len() ==> is_valid_agent_name((#[trigger] self.agents@[i]).name@)
        &&& forall|i: int|
            0 <= i < self.agents@.len() ==> (#[trigger] self.agents@[i]).props.key@.len() == 32
        &&& forall|i: int|
            0 <= i < self.agents@.len() ==> pipes_of((#[trigger] self.agents@[i]).props.status).len()
                >= 1 || !(self.agents@[i].props.status is Piped)
    }

    pub open spec fn has(&self, name: Seq<char>) -> bool {
        exists|i: int| 0 <= i < self.agents@.len() && #[trigger] self.agents@[i].name@ == name
    }

    pub open spec fn slot(&self, name: Seq<char>) -> int {
        choose|i: int| 0 <= i < self.agents@.len() && #[trigger] self.agents@[i].name@ == name
    }

    /// The state of a registered agent.
    pub open spec fn props(&self, name: Seq<char>) -> VirtualAgentProps {
        self.agents@[self.slot(name)].props
    }

    /// Whether `token` is a short identifier sealed under the key of `agent`.
    pub open spec fn seals(&self, agent: Seq<char>, token: Seq<char>, id: u128) -> bool {
        exists|nonce: Seq<u8>|
            nonce.len() == 12 && token == #[trigger] sealed_token(self.props(agent).key@, nonce, id)
    }

    /// The agents eligible for new channels at `now`: masters past warm-up.
    pub open spec fn placeable(&self, name: Seq<char>, now: u64) -> bool {
        self.has(name) && self.props(name).status is Master && !is_warming_up(
            self.props(name),
            now,
            self.warmup_ms,
        )
    }

    /// Every agent but `name` is as it was.
    pub open spec fn others_unchanged(&self, other: &Self, name: Seq<char>) -> bool {
        &&& self.warmup_ms == other.warmup_ms
        &&& forall|n: Seq<char>|
            n != name ==> (#[trigger] self.has(n) == other.has(n) && (self.has(n) ==> self.props(n)
                == other.props(n)))
    }

    pub proof fn lemma_slot(&self, i: int)
        requires
            self.wf(),
            0 <= i < self.agents@.len(),
        ensures
            self.has(self.agents@[i].name@),
            self.slot(self.agents@[i].name@) == i,
    {
        let n = self.agents@[i].name@;
        assert(self.agents@[i].name@ == n);
        let j = self.slot(n);
        if j != i {
            if j < i {
                assert(self.agents@[j].name@ != self.agents@[i].name@);
            } else {
                assert(self.agents@[i].name@ != self.agents@[j].name@);
            }
        }
    }

    pub fn new_empty(warmup_ms: u64) -> (r: Self)
        ensures
            r.wf(),
            r.warmup_ms == warmup_ms,
            forall|n: Seq<char>| !(#[trigger] r.has(n)),
    {
        AgentsManagerService { agents: Vec::new(), warmup_ms }
    }

    /// The position of an agent, none when it is not registered.
    pub fn find(&self, name: &str) -> (r: Option<usize>)
        requires
            self.wf(),
        ensures
            r is Some <==> self.has(name@),
            r matches Some(i) ==> i == self.slot(name@) && i < self.agents@.len()
                && self.agents@[i as int].name@ == name@,
    {
        let mut i: usize = 0;
        while i < self.agents.len()
            invariant
                self.wf(),
                i <= self.agents@.len(),
                forall|j: int| 0 <= j < i ==> #[trigger] self.agents@[j].name@ != name@,
            decreases self.agents@.len() - i,
        {
            if text_equal(self.agents[i].name.as_str(), name) {
                proof {
                    self.lemma_slot(i as int);
                }
                return Some(i);
            }
            i = i + 1;
        }
        None
    }

    /// After position `i` was given an entry with the same name, that name
    /// leads to it and every other agent is as it was.
    proof fn lemma_replaced(pre: Self, post: Self, i: int)
        requires
            pre.wf(),
            0 <= i < pre.agents@.len(),
            post.warmup_ms == pre.warmup_ms,
            post.agents@ == pre.agents@.update(i, post.agents@[i]),
            post.agents@[i].name@ == pre.agents@[i].name@,
            post.agents@[i].props.key@.len() == 32,
            post.agents@[i].props.status is Piped ==> pipes_of(post.agents@[i].props.status).len() >= 1,
        ensures
            post.wf(),
            post.has(pre.agents@[i].name@),
            post.props(pre.agents@[i].name@) == post.agents@[i].props,
            post.others_unchanged(&pre, pre.agents@[i].name@),
    {
        assert forall|a: int, b: int|
            0 <= a < b < post.agents@.len() implies #[trigger] post.agents@[a].name@
            != #[trigger] post.agents@[b].name@ by {
            assert(pre.agents@[a].name@ != pre.agents@[b].name@);
        }
        assert forall|a: int| 0 <= a < post.agents@.len() implies is_valid_agent_name(
            (#[trigger] post.agents@[a]).name@,
        ) by {
            assert(is_valid_agent_name(pre.agents@[a].name@));
        }
        assert forall|a: int| 0 <= a < post.agents@.len() implies (
        #[trigger] post.agents@[a]).props.key@.len() == 32 by {
            assert(pre.agents@[a].props.key@.len() == 32);
        }
        assert forall|a: int|
            0 <= a < post.agents@.len() implies pipes_of(
            (#[trigger] post.agents@[a]).props.status,
        ).len() >= 1 || !(post.agents@[a].props.status is Piped) by {
            assert(pipes_of(pre.agents@[a].props.status).len() >= 1
                || !(pre.agents@[a].props.status is Piped));
        }
        post.lemma_slot(i);
        let nm = pre.agents@[i].name@;
        assert forall|n: Seq<char>| n != nm implies (#[trigger] post.has(n) == pre.has(n) && (
        post.has(n) ==> post.props(n) == pre.props(n))) by {
            if pre.has(n) {
                let j = pre.slot(n);
                pre.lemma_slot(j);
                assert(post.agents@[j].name@ == n);
                post.lemma_slot(j);
            }
            if post.has(n) {
                let j = post.slot(n);
                post.lemma_slot(j);
                assert(pre.agents@[j].name@ == n);
            }
        }
    }

    /// Puts `props` at position `i`, whose name it keeps.
    fn replace_props(&mut self, i: usize, props: VirtualAgentProps)
        requires
            old(self).wf(),
            i < old(self).agents@.len(),
            props.key@.len() == 32,
            props.status is Piped ==> pipes_of(props.status).len() >= 1,
        ensures
            final(self).wf(),
            final(self).agents@.len() == old(self).agents@.len(),
            final(self).agents@[i as int].name@ == old(self).agents@[i as int].name@,
            final(self).agents@[i as int].props == props,
            final(self).has(old(self).agents@[i as int].name@),
            final(self).props(old(self).agents@[i as int].name@) == props,
            final(self).others_unchanged(old(self), old(self).agents@[i as int].name@),
    {
        let ghost pre = *old(self);
        let entry = self.agents.remove(i);
        let AgentEntry { name, props: _ } = entry;
        self.agents.insert(i, AgentEntry { name, props });
        proof {
            assert(self.agents@ =~= pre.agents@.update(i as int, self.agents@[i as int]));
            Self::lemma_replaced(pre, *self, i as int);
        }
    }

    /// Adds an agent that is not registered yet.
    fn push_agent(&mut self, name: String, props: VirtualAgentProps)
        requires
            old(self).wf(),
            !old(self).has(name@),
            is_valid_agent_name(name@),
            props.key@.len() == 32,
            props.status is Piped ==> pipes_of(props.status).len() >= 1,
        ensures
            final(self).wf(),
            final(self).has(name@),
            final(self).props(name@) == props,
            final(self).others_unchanged(old(self), name@),
    {
        let ghost pre = *old(self);
        let ghost nm = name@;
        self.agents.push(AgentEntry { name, props });
        proof {
            let post = *self;
            let last = pre.agents@.len() as int;
            assert forall|a: int, b: int|
                0 <= a < b < post.agents@.len() implies #[trigger] post.agents@[a].name@
                != #[trigger] post.agents@[b].name@ by {
                if b == last {
                    assert(pre.agents@[a].name@ == post.agents@[a].name@);
                } else {
                    assert(pre.agents@[a].name@ != pre.agents@[b].name@);
                }
            }
            assert forall|a: int| 0 <= a < post.agents@.len() implies (
            #[trigger] post.agents@[a]).props.key@.len() == 32 by {
                if a < last {
                    assert(pre.agents@[a].props.key@.len() == 32);
                }
            }
            assert forall|a: int| 0 <= a < post.agents@.len() implies is_valid_agent_name(
                (#[trigger] post.agents@[a]).name@,
            ) by {
                if a < last {
                    assert(is_valid_agent_name(pre.agents@[a].name@));
                }
            }
            assert forall|a: int|
                0 <= a < post.agents@.len() implies pipes_of(
                (#[trigger] post.agents@[a]).props.status,
            ).len() >= 1 || !(post.agents@[a].props.status is Piped) by {
                if a < last {
                    assert(pipes_of(pre.agents@[a].props.status).len() >= 1
                        || !(pre.agents@[a].props.status is Piped));
                }
            }
            post.lemma_slot(last);
            assert forall|n: Seq<char>| n != nm implies (#[trigger] post.has(n) == pre.has(n) && (
            post.has(n) ==> post.props(n) == pre.props(n))) by {
                if pre.has(n) {
                    let j = pre.slot(n);
                    pre.lemma_slot(j);
                    assert(post.agents@[j].name@ == n);
                    post.lemma_slot(j);
                }
                if post.has(n) {
                    let j = post.slot(n);
                    post.lemma_slot(j);
                    assert(j != last);
                    assert(pre.agents@[j].name@ == n);
                }
            }
        }
    }

    /// Registers `name` with `props`, replacing what was there.
    fn put_agent(&mut self, name: String, props: VirtualAgentProps)
        requires
            old(self).wf(),
            is_valid_agent_name(name@),
            props.key@.len() == 32,
            props.status is Piped ==> pipes_of(props.status).len() >= 1,
        ensures
            final(self).wf(),
            final(self).has(name@),
            final(self).props(name@) == props,
            final(self).others_unchanged(old(self), name@),
    {
        match self.find(name.as_str()) {
            Some(i) => self.replace_props(i, props),
            None => self.push_agent(name, props),
        }
    }

    /// Builds the registry of a node from its configuration; a bad name is
    /// refused.
    pub fn new(conf: AgentConfig, now: u64, warmup_ms: u64) -> (r: Result<Self, MegaphoneError>)
        ensures
            r is Ok <==> forall|i: int|
                0 <= i < conf.virtual_agents@.len() ==> is_valid_agent_name(
                    #[trigger] conf.virtual_agents@[i].0@,
                ),
            r matches Ok(s) ==> s.wf() && s.warmup_ms == warmup_ms && forall|i: int|
                0 <= i < conf.virtual_agents@.len() ==> s.has(
                    #[trigger] conf.virtual_agents@[i].0@,
                ),
            r matches Err(e) ==> e is BadRequest,
    {
        let mut reg = AgentsManagerService::new_empty(warmup_ms);
        let ghost cfg = conf.virtual_agents@;
        let mut i: usize = 0;
        let n = conf.virtual_agents.len();
        while i < n
            invariant
                reg.wf(),
                reg.warmup_ms == warmup_ms,
                i <= n,
                n == cfg.len(),
                cfg == conf.virtual_agents@,
                forall|j: int| 0 <= j < i ==> is_valid_agent_name(#[trigger] cfg[j].0@),
                forall|j: int| 0 <= j < i ==> reg.has(#[trigger] cfg[j].0@),
            decreases n - i,
        {
            let name = conf.virtual_agents[i].0.clone();
            let mode = conf.virtual_agents[i].1;
            if let Err(e) = validate_agent_name(name.as_str()) {
                assert(!is_valid_agent_name(cfg[i as int].0@));
                return Err(e);
            }
            let status = match mode {
                VirtualAgentMode::Master => VirtualAgentStatus::Master,
                VirtualAgentMode::Replica => VirtualAgentStatus::Replica { pipe_sessions_count: 0 },
            };
            let ghost before = reg;
            let ghost nm = name@;
            reg.put_agent(name, VirtualAgentProps { key: random_key(), change_ts: now, status });
            assert forall|j: int| 0 <= j < i + 1 implies reg.has(#[trigger] cfg[j].0@) by {
                if cfg[j].0@ != nm {
                    assert(before.has(cfg[j].0@));
                }
            }
            i = i + 1;
        }
        Ok(reg)
    }

    /// Adds (or replaces) a master with a fresh key.
    pub fn add_master(&mut self, name: &str, now: u64) -> (r: Result<(), MegaphoneError>)
        requires
            old(self).wf(),
        ensures
            final(self).wf(),
            r is Ok <==> is_valid_agent_name(name@),
            r is Ok ==> final(self).has(name@) && final(self).props(name@).status is Master
                && final(self).props(name@).change_ts == now,
            r is Ok ==> final(self).others_unchanged(old(self), name@),
            r is Err ==> *final(self) == *old(self),
            r matches Err(e) ==> e is BadRequest,
    {
        if let Err(e) = validate_agent_name(name) {
            return Err(e);
        }
        let props = VirtualAgentProps {
            key: random_key(),
            change_ts: now,
            status: VirtualAgentStatus::Master,
        };
        self.put_agent(String::from_str(name), props);
        Ok(())
    }

    pub fn is_warming_up(&self, i: usize, now: u64) -> (r: bool)
        requires
            i < self.agents@.len(),
        ensures
            r == is_warming_up(self.agents@[i as int].props, now, self.warmup_ms),
    {
        let p = &self.agents[i].props;
        match p.status {
            VirtualAgentStatus::Master => (now as u128) < (p.change_ts as u128) + (
            self.warmup_ms as u128),
            _ => false,
        }
    }

    /// The names of the agents eligible for new channels at `now`.
    pub fn active_masters(&self, now: u64) -> (r: Vec<String>)
        requires
            self.wf(),
        ensures
            forall|n: Seq<char>|
                #![trigger self.placeable(n, now)]
                self.placeable(n, now) <==> exists|k: int|
                    0 <= k < r@.len() && #[trigger] r@[k]@ == n,
    {
        let mut out: Vec<String> = Vec::new();
        let mut i: usize = 0;
        while i < self.agents.len()
            invariant
                self.wf(),
                i <= self.agents@.len(),
                forall|k: int|
                    0 <= k < out@.len() ==> #[trigger] self.placeable(out@[k]@, now),
                forall|j: int|
                    0 <= j < i && self.placeable(#[trigger] self.agents@[j].name@, now) ==> exists|
                        k: int,
                    | 0 <= k < out@.len() && #[trigger] out@[k]@ == self.agents@[j].name@,
            decreases self.agents@.len() - i,
        {
            proof {
                self.lemma_slot(i as int);
            }
            let is_master = match self.agents[i].props.status {
                VirtualAgentStatus::Master => true,
                _ => false,
            };
            if is_master && !self.is_warming_up(i, now) {
                let ghost before = out@;
                out.push(self.agents[i].name.clone());
                assert(out@[before.len() as int]@ == self.agents@[i as int].name@);
                assert forall|j: int|
                    0 <= j < i + 1 && self.placeable(
                        #[trigger] self.agents@[j].name@,
                        now,
                    ) implies exists|k: int|
                    0 <= k < out@.len() && #[trigger] out@[k]@ == self.agents@[j].name@ by {
                    if j < i {
                        let k = choose|k: int|
                            0 <= k < before.len() && #[trigger] before[k]@
                                == self.agents@[j].name@;
                        assert(out@[k] == before[k]);
                    } else {
                        assert(out@[before.len() as int]@ == self.agents@[j].name@);
                    }
                }
            } else {
                assert(!self.placeable(self.agents@[i as int].name@, now));
            }
            i = i + 1;
        }
        proof {
            assert forall|n: Seq<char>| #[trigger] self.placeable(n, now) implies exists|k: int|
                0 <= k < out@.len() && #[trigger] out@[k]@ == n by {
                let j = self.slot(n);
                assert(self.agents@[j].name@ == n);
            }
        }
        out
    }

    /// One master eligible for new channels at `now`, chosen at random; an
    /// error when there is none.
    pub fn random_master_id(&self, now: u64) -> (r: Result<String, MegaphoneError>)
        requires
            self.wf(),
        ensures
            r matches Ok(n) ==> self.placeable(n@, now),
            r is Err <==> forall|n: Seq<char>| !#[trigger] self.placeable(n, now),
            r matches Err(e) ==> e is InternalError,
    {
        let masters = self.active_masters(now);
        match random_index(masters.len()) {
            Some(k) => {
                assert(self.placeable(masters@[k as int]@, now));
                Ok(masters[k].clone())
            },
            None => {
                assert forall|n: Seq<char>| !#[trigger] self.placeable(n, now) by {
                    if self.placeable(n, now) {
                        let k = choose|k: int| 0 <= k < masters@.len() && #[trigger] masters@[k]@ == n;
                    }
                }
                Err(
                    MegaphoneError::InternalError(
                        String::from_str("No virtual agent with master status was found"),
                    ),
                )
            },
        }
    }

    /// Whether the agent is a replica with open sessions or is piped.
    pub fn is_agent_distributed(&self, name: &str) -> (r: Result<bool, MegaphoneError>)
        requires
            self.wf(),
        ensures
            r is Ok <==> self.has(name@),
            r matches Ok(b) ==> b == is_distributed(self.props(name@).status),
            r matches Err(e) ==> e is InternalError,
    {
        match self.find(name) {
            None => Err(MegaphoneError::InternalError(String::from_str("Agent is not registered"))),
            Some(i) => match self.agents[i].props.status {
                VirtualAgentStatus::Master => Ok(false),
                VirtualAgentStatus::Replica { pipe_sessions_count } => Ok(pipe_sessions_count > 0),
                VirtualAgentStatus::Piped { .. } => Ok(true),
            },
        }
    }

    /// The pipes of a piped agent; none for any other.
    pub fn get_pipes(&self, name: &str) -> (r: &[Pipe])
        requires
            self.wf(),
        ensures
            self.has(name@) ==> r@ == pipes_of(self.props(name@).status),
            !self.has(name@) ==> r@.len() == 0,
    {
        match self.find(name) {
            None => &[],
            Some(i) => match &self.agents[i].props.status {
                VirtualAgentStatus::Piped { pipes } => pipes.as_slice(),
                _ => &[],
            },
        }
    }

    /// Opens a session of a peer that forwards the agent `name` here. An
    /// absent agent is registered as a replica with the peer's key; a replica
    /// with that same key counts one more session; anything else is refused.
    pub fn open_replica_session(&mut self, name: &str, key: &[u8], now: u64) -> (r: Result<
        (),
        MegaphoneError,
    >)
        requires
            old(self).wf(),
            key@.len() == 32,
        ensures
            final(self).wf(),
            r is Ok <==> ((!old(self).has(name@) && is_valid_agent_name(name@)) || (old(self).has(name@) && old(self).props(name@).status is Replica
                && old(self).props(name@).key@ == key@
                && old(self).props(name@).status->pipe_sessions_count < usize::MAX)),
            r is Ok ==> final(self).has(name@) && final(self).props(name@).status is Replica
                && final(self).props(name@).key@ == key@,
            r is Ok && !old(self).has(name@) ==> final(self).props(
                name@,
            ).status->pipe_sessions_count == 1 && final(self).props(name@).change_ts == now,
            r is Ok && old(self).has(name@) ==> final(self).props(name@).status->pipe_sessions_count
                == old(self).props(name@).status->pipe_sessions_count + 1
                && final(self).props(name@).change_ts == old(self).props(name@).change_ts,
            r is Ok ==> final(self).others_unchanged(old(self), name@),
            r is Err ==> *final(self) == *old(self),
            !old(self).has(name@) && !is_valid_agent_name(name@) ==> (r matches Err(e) && e is BadRequest),
            old(self).has(name@) && r is Err ==> (r matches Err(e) && e is InternalError),
    {
        match self.find(name) {
            None => {
                if let Err(e) = validate_agent_name(name) {
                    return Err(e);
                }
                let props = VirtualAgentProps {
                    key: copy_bytes(key),
                    change_ts: now,
                    status: VirtualAgentStatus::Replica { pipe_sessions_count: 1 },
                };
                self.push_agent(String::from_str(name), props);
                Ok(())
            },
            Some(i) => {
                let count = match self.agents[i].props.status {
                    VirtualAgentStatus::Replica { pipe_sessions_count } => pipe_sessions_count,
                    _ => {
                        return Err(
                            MegaphoneError::InternalError(
                                String::from_str("Agent is already registered but is not a replica"),
                            ),
                        );
                    },
                };
                if !bytes_equal(self.agents[i].props.key.as_slice(), key) {
                    return Err(
                        MegaphoneError::InternalError(
                            String::from_str("Agent is already registered with another key"),
                        ),
                    );
                }
                if count == usize::MAX {
                    return Err(
                        MegaphoneError::InternalError(String::from_str("Too many replica sessions")),
                    );
                }
                let props = VirtualAgentProps {
                    key: copy_bytes(key),
                    change_ts: self.agents[i].props.change_ts,
                    status: VirtualAgentStatus::Replica { pipe_sessions_count: count + 1 },
                };
                self.replace_props(i, props);
                Ok(())
            },
        }
    }

    /// Closes one session of a replica.
    pub fn close_replica_session(&mut self, name: &str) -> (r: Result<(), MegaphoneError>)
        requires
            old(self).wf(),
        ensures
            final(self).wf(),
            r is Ok <==> (old(self).has(name@) && old(self).props(name@).status is Replica
                && old(self).props(name@).status->pipe_sessions_count > 0),
            r is Ok ==> final(self).has(name@) && final(self).props(name@).status is Replica
                && final(self).props(name@).status->pipe_sessions_count == old(self).props(
                name@,
            ).status->pipe_sessions_count - 1 && final(self).props(name@).key@ == old(self).props(
                name@,
            ).key@ && final(self).props(name@).change_ts == old(self).props(name@).change_ts,
            r is Ok ==> final(self).others_unchanged(old(self), name@),
            r is Err ==> *final(self) == *old(self),
            r matches Err(e) ==> e is InternalError,
    {
        match self.find(name) {
            None => Err(MegaphoneError::InternalError(String::from_str("Agent is not registered"))),
            Some(i) => {
                let count = match self.agents[i].props.status {
                    VirtualAgentStatus::Replica { pipe_sessions_count } => pipe_sessions_count,
                    _ => {
                        return Err(
                            MegaphoneError::InternalError(
                                String::from_str("Agent is already registered but is not a replica"),
                            ),
                        );
                    },
                };
                if count == 0 {
                    return Err(
                        MegaphoneError::InternalError(String::from_str("No replica session is open")),
                    );
                }
                let props = VirtualAgentProps {
                    key: copy_bytes(self.agents[i].props.key.as_slice()),
                    change_ts: self.agents[i].props.change_ts,
                    status: VirtualAgentStatus::Replica { pipe_sessions_count: count - 1 },
                };
                self.replace_props(i, props);
                Ok(())
            },
        }
    }

    /// Adds a pipe to an agent, which becomes piped, keeping the pipes it had
    /// and appending the new one. The peer is first told of the agent and
    /// its key through the pipe, without waiting; when that fails the agent
    /// is left as it was. An unregistered agent, or a replica with open
    /// sessions, is refused.
    pub fn register_pipe(&mut self, name: &str, pipe: Pipe, now: u64) -> (r: Result<
        (),
        MegaphoneError,
    >)
        requires
            old(self).wf(),
        ensures
            final(self).wf(),
            (r matches Err(e) && e is BadRequest) <==> (!old(self).has(name@) || (old(self).props(
                name@,
            ).status is Replica && old(self).props(name@).status->pipe_sessions_count > 0)),
            r is Ok ==> old(self).has(name@) && final(self).has(name@) && final(self).props(
                name@,
            ).status is Piped && pipes_of(final(self).props(name@).status) == pipes_of(
                old(self).props(name@).status,
            ).push(pipe) && final(self).props(name@).change_ts == now && final(self).props(
                name@,
            ).key@ == old(self).props(name@).key@,
            r is Ok ==> final(self).others_unchanged(old(self), name@),
            r is Err ==> *final(self) == *old(self),
            r matches Err(e) ==> e is BadRequest || e is InternalError,
    {
        let i = match self.find(name) {
            None => {
                return Err(MegaphoneError::BadRequest(String::from_str("Agent is not registered")));
            },
            Some(i) => i,
        };
        proof {
            self.lemma_slot(i as int);
        }
        match &self.agents[i].props.status {
            VirtualAgentStatus::Replica { pipe_sessions_count } => {
                if *pipe_sessions_count > 0 {
                    return Err(
                        MegaphoneError::BadRequest(
                            String::from_str("Cannot pipe agent because it is already a replica"),
                        ),
                    );
                }
            },
            _ => {},
        }
        let start = pipe_start_frame(name, self.agents[i].props.key.as_slice());
        let sent = pipe.try_send(start);
        self.finish_registration(i, pipe, sent, now)
    }

    /// Completes the registration of `pipe` on the agent at position `i`
    /// once the start frame was offered to it: when the frame was taken the
    /// agent becomes piped, keeping its pipes and appending this one; when
    /// it was not, nothing changes and the registration fails.
    pub fn finish_registration(&mut self, i: usize, pipe: Pipe, sent: bool, now: u64) -> (r: Result<
        (),
        MegaphoneError,
    >)
        requires
            old(self).wf(),
            i < old(self).agents@.len(),
            !(old(self).agents@[i as int].props.status is Replica
                && old(self).agents@[i as int].props.status->pipe_sessions_count > 0),
        ensures
            final(self).wf(),
            sent ==> r is Ok && final(self).has(old(self).agents@[i as int].name@) && final(self).props(
                old(self).agents@[i as int].name@,
            ) == (VirtualAgentProps {
                key: old(self).agents@[i as int].props.key,
                change_ts: now,
                status: VirtualAgentStatus::Piped { pipes: final(self).props(old(self).agents@[i as int].name@).status->pipes },
            }) && pipes_of(final(self).props(old(self).agents@[i as int].name@).status) == pipes_of(
                old(self).agents@[i as int].props.status,
            ).push(pipe) && final(self).others_unchanged(old(self), old(self).agents@[i as int].name@),
            !sent ==> (r matches Err(e) && e is InternalError) && *final(self) == *old(self),
    {
        if !sent {
            return Err(
                MegaphoneError::InternalError(
                    String::from_str("Error sending pipe registration event"),
                ),
            );
        }
        let ghost pre = *self;
        let entry = self.agents.remove(i);
        let AgentEntry { name: entry_name, props } = entry;
        let VirtualAgentProps { key, change_ts: _, status } = props;
        let mut pipes: Vec<Pipe> = match status {
            VirtualAgentStatus::Piped { pipes } => pipes,
            _ => Vec::new(),
        };
        assert(pipes@ == pipes_of(pre.agents@[i as int].props.status));
        pipes.push(pipe);
        self.agents.insert(
            i,
            AgentEntry {
                name: entry_name,
                props: VirtualAgentProps { key, change_ts: now, status: VirtualAgentStatus::Piped { pipes } },
            },
        );
        proof {
            assert(self.agents@ =~= pre.agents@.update(i as int, self.agents@[i as int]));
            Self::lemma_replaced(pre, *self, i as int);
        }
        Ok(())
    }

    /// What a listing reports of every agent at `now`.
    pub fn list_agents(&self, now: u64) -> (r: Vec<AgentInfo>)
        requires
            self.wf(),
        ensures
            r@.len() == self.agents@.len(),
            forall|i: int|
                0 <= i < r@.len() ==> (#[trigger] r@[i]).name@ == self.agents@[i].name@
                    && r@[i].mode == mode_of(self.agents@[i].props.status) && r@[i].change_ts
                    == self.agents@[i].props.change_ts && r@[i].warming_up == is_warming_up(
                    self.agents@[i].props,
                    now,
                    self.warmup_ms,
                ),
    {
        let mut out: Vec<AgentInfo> = Vec::new();
        let mut i: usize = 0;
        while i < self.agents.len()
            invariant
                i <= self.agents@.len(),
                out@.len() == i,
                forall|k: int|
                    0 <= k < i ==> (#[trigger] out@[k]).name@ == self.agents@[k].name@
                        && out@[k].mode == mode_of(self.agents@[k].props.status)
                        && out@[k].change_ts == self.agents@[k].props.change_ts
                        && out@[k].warming_up == is_warming_up(
                        self.agents@[k].props,
                        now,
                        self.warmup_ms,
                    ),
            decreases self.agents@.len() - i,
        {
            let mode = match self.agents[i].props.status {
                VirtualAgentStatus::Master => VirtualAgentModeDto::Master,
                VirtualAgentStatus::Replica { .. } => VirtualAgentModeDto::Replica,
                VirtualAgentStatus::Piped { .. } => VirtualAgentModeDto::Piped,
            };
            let info = AgentInfo {
                name: self.agents[i].name.clone(),
                mode,
                change_ts: self.agents[i].props.change_ts,
                warming_up: self.is_warming_up(i, now),
            };
            out.push(info);
            i = i + 1;
        }
        out
    }

    /// Seals a short identifier under the key of `agent_id` with the given
    /// nonce: the URL-safe base64 of the nonce and the sealed bytes.
    pub fn encrypt_channel_id_with_nonce(&self, agent_id: &str, id: ChannelShortId, nonce: &[u8]) -> (r: Result<
        String,
        MegaphoneError,
    >)
        requires
            self.wf(),
            nonce@.len() == 12,
        ensures
            r is Ok <==> self.has(agent_id@),
            r matches Ok(t) ==> t@ == sealed_token(self.props(agent_id@).key@, nonce@, id.0),
            r matches Ok(t) ==> t@.len() == 59,
            r matches Ok(t) ==> forall|i: int| 0 <= i < t@.len() ==> is_b64url_char(#[trigger] t@[i]),
            r matches Err(e) ==> e is InternalError,
    {
        let i = match self.find(agent_id) {
            None => {
                return Err(MegaphoneError::InternalError(String::from_str("Agent is not registered")));
            },
            Some(i) => i,
        };
        proof {
            self.lemma_slot(i as int);
        }
        let key = self.agents[i].props.key.as_slice();
        let data = u128_to_be_bytes(id.0);
        let sealed = match aes_gcm_seal(key, nonce, data.as_slice()) {
            None => {
                return Err(MegaphoneError::InternalError(String::from_str("Cannot cipher key")));
            },
            Some(c) => c,
        };
        let mut full = copy_bytes(nonce);
        let mut k: usize = 0;
        while k < sealed.len()
            invariant
                k <= sealed@.len(),
                full@ == nonce@ + sealed@.subrange(0, k as int),
            decreases sealed@.len() - k,
        {
            full.push(sealed[k]);
            assert(full@ =~= nonce@ + sealed@.subrange(0, k + 1));
            k = k + 1;
        }
        assert(sealed@.subrange(0, sealed@.len() as int) =~= sealed@);
        let t = b64url_encode(full.as_slice());
        Ok(t)
    }

    /// Seals a short identifier under the key of `agent_id`, with a fresh
    /// random nonce; see `encrypt_channel_id_with_nonce`.
    pub fn encrypt_channel_id(&self, agent_id: &str, id: ChannelShortId) -> (r: Result<
        String,
        MegaphoneError,
    >)
        requires
            self.wf(),
        ensures
            r is Ok <==> self.has(agent_id@),
            r matches Ok(t) ==> exists|nonce: Seq<u8>|
                nonce.len() == 12 && #[trigger] sealed_token(self.props(agent_id@).key@, nonce, id.0)
                    == t@,
            r matches Ok(t) ==> t@.len() == 59,
            r matches Ok(t) ==> forall|i: int| 0 <= i < t@.len() ==> is_b64url_char(#[trigger] t@[i]),
            r matches Err(e) ==> e is InternalError,
    {
        let nonce = random_nonce();
        let r = self.encrypt_channel_id_with_nonce(agent_id, id, nonce.as_slice());
        proof {
            if r is Ok {
                assert(sealed_token(self.props(agent_id@).key@, nonce@, id.0) == r->Ok_0@);
            }
        }
        r
    }

    /// Opens a sealed short identifier under the key of `agent_id`. A token
    /// that sealing under that key gave opens to the sealed identifier; one
    /// that is not base64, too short, or fails authentication is refused.
    pub fn decrypt_channel_id(&self, agent_id: &str, input: &str) -> (r: Result<
        ChannelShortId,
        MegaphoneError,
    >)
        requires
            self.wf(),
        ensures
            !self.has(agent_id@) ==> (r matches Err(e) && e is InternalError),
            forall|nonce: Seq<u8>, id: u128|
                nonce.len() == 12 && self.has(agent_id@) && input@ == #[trigger] sealed_token(
                    self.props(agent_id@).key@,
                    nonce,
                    id,
                ) ==> (r matches Ok(v) && v.0 == id),
            self.has(agent_id@) && (forall|d: Seq<u8>| #[trigger] b64url(d) != input@) ==> (r matches Err(
                e,
            ) && e is BadRequest),
            forall|d: Seq<u8>|
                self.has(agent_id@) && #[trigger] b64url(d) == input@ && d.len() != 44 ==> (r matches Err(
                    e,
                ) && e is BadRequest),
            r is Ok ==> self.has(agent_id@) && exists|d: Seq<u8>| #[trigger] b64url(d) == input@ && d.len() == 44,
            r matches Ok(v) ==> self.seals(agent_id@, input@, v.0),
            r matches Err(e) ==> e is InternalError || e is BadRequest,
    {
        let i = match self.find(agent_id) {
            None => {
                return Err(MegaphoneError::InternalError(String::from_str("Agent is not registered")));
            },
            Some(i) => i,
        };
        proof {
            self.lemma_slot(i as int);
        }
        let data = match b64url_decode(input) {
            None => {
                return Err(MegaphoneError::BadRequest(String::from_str("Cannot deserialize token")));
            },
            Some(d) => d,
        };
        if data.len() < 12 {
            proof {
                assert forall|nonce: Seq<u8>, id: u128|
                    nonce.len() == 12 && input@ == #[trigger] sealed_token(
                        self.props(agent_id@).key@,
                        nonce,
                        id,
                    ) implies false by {
                    assert(data@ == nonce + aes_gcm_sealed(self.props(agent_id@).key@, nonce, u128_bytes(id)));
                }
            }
            return Err(MegaphoneError::BadRequest(String::from_str("Wrong nonce size")));
        }
        let nonce = copy_range(data.as_slice(), 0, 12);
        let rest = copy_range(data.as_slice(), 12, data.len());
        let key = self.agents[i].props.key.as_slice();
        let plain = match aes_gcm_open(key, nonce.as_slice(), rest.as_slice()) {
            None => {
                proof { self.lemma_token_parts(agent_id@, input@, data@); }
                return Err(MegaphoneError::BadRequest(String::from_str("Cannot deserialize data")));
            },
            Some(p) => p,
        };
        proof {
            assert(b64url(data@) == input@);
            assert(data@.len() == 12 + rest@.len());
        }
        if plain.len() != 16 {
            proof { self.lemma_token_parts(agent_id@, input@, data@); }
            return Err(MegaphoneError::BadRequest(String::from_str("Wrong identifier size")));
        }
        proof {
            self.lemma_token_parts(agent_id@, input@, data@);
        }
        let v = u128_from_be_bytes(plain.as_slice());
        proof {
            crate::channel_id::lemma_u128_be_round_trip(plain@);
            assert(rest@ == aes_gcm_sealed(self.props(agent_id@).key@, nonce@, u128_bytes(v)));
            assert(data@ =~= nonce@ + rest@);
            assert(input@ == sealed_token(self.props(agent_id@).key@, nonce@, v));
            assert(nonce@.len() == 12);
            assert(self.seals(agent_id@, input@, v));
        }
        proof {
            assert forall|nonce2: Seq<u8>, id: u128|
                nonce2.len() == 12 && self.has(agent_id@) && input@ == #[trigger] sealed_token(
                    self.props(agent_id@).key@,
                    nonce2,
                    id,
                ) implies v == id by {
                assert(nonce@ == nonce2);
                assert(plain@ == u128_bytes(id));
                crate::channel_id::lemma_u128_bytes_round_trip(id);
            }
        }
        Ok(ChannelShortId(v))
    }

    proof fn lemma_token_parts(&self, agent: Seq<char>, input: Seq<char>, data: Seq<u8>)
        requires
            self.has(agent),
            forall|b: Seq<u8>| input == b64url(b) ==> data == b,
        ensures
            forall|nonce: Seq<u8>, id: u128|
                nonce.len() == 12 && input == #[trigger] sealed_token(self.props(agent).key@, nonce, id)
                    ==> data.subrange(0, 12) == nonce && data.subrange(12, data.len() as int)
                    == aes_gcm_sealed(self.props(agent).key@, nonce, u128_bytes(id)),
    {
        assert forall|nonce: Seq<u8>, id: u128|
            nonce.len() == 12 && input == #[trigger] sealed_token(self.props(agent).key@, nonce, id)
            implies data.subrange(0, 12) == nonce && data.subrange(12, data.len() as int)
            == aes_gcm_sealed(self.props(agent).key@, nonce, u128_bytes(id)) by {
            let c = aes_gcm_sealed(self.props(agent).key@, nonce, u128_bytes(id));
            assert(data == nonce + c);
            assert(data.subrange(0, 12) =~= nonce);
            assert(data.subrange(12, data.len() as int) =~= c);
        }
    }
}

/// The frame that tells a peer of an agent and its key.
pub fn pipe_start_frame(name: &str, key: &[u8]) -> (r: SyncEvent)
    ensures
        r matches SyncEvent::PipeAgentStart { name: n, key: k } && n@ == name@ && k@ == key@,
{
    SyncEvent::PipeAgentStart { name: String::from_str(name), key: copy_bytes(key) }
}

/// The bytes of `b` from `from` up to `to`.
pub fn copy_range(b: &[u8], from: usize, to: usize) -> (r: Vec<u8>)
    requires
        from <= to <= b@.len(),
    ensures
        r@ == b@.subrange(from as int, to as int),
{
    let mut out: Vec<u8> = Vec::new();
    let mut i: usize = from;
    while i < to
        invariant
            from <= i <= to <= b@.len(),
            out@ == b@.subrange(from as int, i as int),
        decreases to - i,
    {
        out.push(b[i]);
        assert(out@ =~= b@.subrange(from as int, i + 1));
        i = i + 1;
    }
    out
}

/// Whether two texts are equal.
pub fn text_equal(a: &str, b: &str) -> (r: bool)
    ensures
        r == (a@ == b@),
{
    let n = a.unicode_len();
    if n != b.unicode_len() {
        return false;
    }
    let mut i: usize = 0;
    while i < n
        invariant
            i <= n,
            n == a@.len() == b@.len(),
            forall|j: int| 0 <= j < i ==> a@[j] == b@[j],
        decreases n - i,
    {
        if a.get_char(i) != b.get_char(i) {
            return false;
        }
        i = i + 1;
    }
    assert(a@ =~= b@);
    true
}

/// Whether two byte sequences are equal.
pub fn bytes_equal(a: &[u8], b: &[u8]) -> (r: bool)
    ensures
        r == (a@ == b@),
{
    if a.len() != b.len() {
        return false;
    }
    let mut i: usize = 0;
    while i < a.len()
        invariant
            i <= a@.len() == b@.len(),
            forall|j: int| 0 <= j < i ==> a@[j] == b@[j],
        decreases a@.len() - i,
    {
        if a[i] != b[i] {
            return false;
        }
        i = i + 1;
    }
    assert(a@ =~= b@);
    true
}

} // verus!
