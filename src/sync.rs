//! The receiving end of a pipe: frames from a peer node that forwards some
//! of its agents here, applied to this node's broker.
use vstd::prelude::*;
use crate::channel_id::{has_second_segment, second_segment, short_of_segment};
use crate::channel::{keep_fresh, EVT_BUFFER_SIZE};
use crate::agents::is_valid_agent_name;
use crate::error::MegaphoneError;
use crate::pipe::SyncEvent;
use crate::service::MegaphoneService;

verus! {

/// The agents that one inbound stream has opened replica sessions for.
pub struct SyncSession {
    pub piped: Vec<String>,
}

pub open spec fn in_session(s: Seq<String>, name: Seq<char>) -> bool {
    exists|i: int| 0 <= i < s.len() && #[trigger] s[i]@ == name
}

/// No agent is listed twice.
pub open spec fn unique_names(s: Seq<String>) -> bool {
    forall|a: int, b: int| 0 <= a < b < s.len() ==> #[trigger] s[a]@ != #[trigger] s[b]@
}

/// The position of `name` in the session, if it is there.
fn session_index(s: &SyncSession, name: &str) -> (r: Option<usize>)
    ensures
        r is Some <==> in_session(s.piped@, name@),
        r matches Some(i) ==> i < s.piped@.len() && s.piped@[i as int]@ == name@,
{
    let mut i: usize = 0;
    while i < s.piped.len()
        invariant
            i <= s.piped@.len(),
            forall|j: int| 0 <= j < i ==> #[trigger] s.piped@[j]@ != name@,
        decreases s.piped@.len() - i,
    {
        if crate::agents::text_equal(s.piped[i].as_str(), name) {
            return Some(i);
        }
        i = i + 1;
    }
    None
}

impl SyncSession {
    pub fn new() -> (r: Self)
        ensures
            r.piped@.len() == 0,
            unique_names(r.piped@),
    {
        SyncSession { piped: Vec::new() }
    }

    /// Applies one frame from the peer. An agent announced twice in the
    /// session, or already known on this node, is left alone; a new one is
    /// opened as a replica with the peer's key. The end of an agent closes
    /// its session. A created channel is materialised under its exact
    /// address; an event is queued without waiting.
    pub fn apply(&mut self, service: &mut MegaphoneService, frame: SyncEvent, now: u64) -> (r: Result<
        (),
        MegaphoneError,
    >)
        requires
            old(service).wf(),
        ensures
            final(service).wf(),
            unique_names(old(self).piped@) ==> unique_names(final(self).piped@),
            frame matches SyncEvent::PipeAgentStart { name, key } ==> {
                &&& (in_session(old(self).piped@, name@) || old(service).agents.has(name@)) ==> r is Err
                    && final(service).agents == old(service).agents
                &&& !in_session(old(self).piped@, name@) && !old(service).agents.has(name@)
                    && is_valid_agent_name(name@) && key@.len() == 32 ==> r is Ok && final(service).agents.has(name@)
                    && final(service).agents.props(name@).status is Replica && final(service).agents.props(name@).key@ == key@ && in_session(final(self).piped@, name@)
            },
            frame matches SyncEvent::PipeAgentEnd { name } ==> (!in_session(old(self).piped@, name@)
                ==> r is Err && final(service).agents == old(service).agents),
            frame matches SyncEvent::PipeAgentEnd { name } ==> (in_session(old(self).piped@, name@)
                && unique_names(old(self).piped@) ==> {
                let a = old(service).agents;
                &&& !in_session(final(self).piped@, name@)
                &&& final(service).channels == old(service).channels
                &&& (a.has(name@) && a.props(name@).status is Replica
                    && a.props(name@).status->pipe_sessions_count > 0) ==> r is Ok && final(service).agents.props(
                    name@,
                ).status is Replica && final(service).agents.props(name@).status->pipe_sessions_count
                    == a.props(name@).status->pipe_sessions_count - 1 && final(service).agents.others_unchanged(
                    &a,
                    name@,
                )
                &&& !(a.has(name@) && a.props(name@).status is Replica
                    && a.props(name@).status->pipe_sessions_count > 0) ==> r is Err && final(service).agents
                    == a
            }),
            frame matches SyncEvent::ChannelCreated { id } ==> (r is Ok <==> has_second_segment(id@))
                && (r is Ok ==> final(service).has_channel(short_of_segment(second_segment(id@)))
                && final(service).channel(short_of_segment(second_segment(id@))).full_id@ == id@),
            frame is ChannelDisposed ==> r is Ok && *final(service) == *old(service),
            frame is EventReceived ==> final(service).agents == old(service).agents,
            frame matches SyncEvent::EventReceived { channel, event } ==> {
                let k = short_of_segment(second_segment(channel@));
                &&& !has_second_segment(channel@) ==> r is Err
                &&& has_second_segment(channel@) && !old(service).has_channel(k) ==> r is Err
                &&& has_second_segment(channel@) && old(service).has_channel(k) && old(
                    service,
                ).channel(k).queue@.len() < EVT_BUFFER_SIZE ==> r is Ok && final(service).channel(
                    k,
                ).queue@ == old(service).channel(k).queue@.push(event)
                &&& has_second_segment(channel@) && old(service).has_channel(k) && old(service).channel(
                    k,
                ).queue@.len() >= EVT_BUFFER_SIZE && !old(service).channel(k).rx_locked ==> r is Ok
                    && final(service).channel(k).queue@ == keep_fresh(
                    old(service).channel(k).queue@.drop_first(),
                    now,
                ).push(event)
                &&& has_second_segment(channel@) && old(service).has_channel(k) && old(service).channel(
                    k,
                ).queue@.len() >= EVT_BUFFER_SIZE && old(service).channel(k).rx_locked ==> r is Err
                    && final(service).channel(k) == old(service).channel(k)
            },
    {
        match frame {
            SyncEvent::PipeAgentStart { name, key } => {
                if session_index(self, name.as_str()).is_some() {
                    return Err(
                        MegaphoneError::BadRequest(
                            String::from_str("Agent is already piped by this session"),
                        ),
                    );
                }
                if service.agents.find(name.as_str()).is_some() {
                    return Err(
                        MegaphoneError::BadRequest(String::from_str("Agent is already registered")),
                    );
                }
                if key.len() != 32 {
                    return Err(MegaphoneError::BadRequest(String::from_str("Wrong key size")));
                }
                let opened = service.agents.open_replica_session(name.as_str(), key.as_slice(), now);
                match opened {
                    Ok(()) => {
                        let ghost before = self.piped@;
                        let ghost nm = name@;
                        self.piped.push(name);
                        assert(self.piped@[before.len() as int]@ == nm);
                        assert forall|a: int, b: int|
                            0 <= a < b < self.piped@.len() && unique_names(before) implies #[trigger] self.piped@[a]@
                            != #[trigger] self.piped@[b]@ by {
                            assert(self.piped@[a] == before[a]);
                            if b < before.len() {
                                assert(self.piped@[b] == before[b]);
                            }
                        }
                        Ok(())
                    },
                    Err(e) => Err(e),
                }
            },
            SyncEvent::PipeAgentEnd { name } => {
                match session_index(self, name.as_str()) {
                    None => Err(
                        MegaphoneError::BadRequest(
                            String::from_str("Agent was not piped by this session"),
                        ),
                    ),
                    Some(i) => {
                        let ghost before = self.piped@;
                        let _gone = self.piped.remove(i);
                        proof {
                            if unique_names(before) && in_session(self.piped@, name@) {
                                let j = choose|j: int| 0 <= j < self.piped@.len() && #[trigger] self.piped@[j]@ == name@;
                                let pj = if j < i { j } else { j + 1 };
                                assert(before[pj]@ == name@);
                                assert(before[i as int]@ == name@);
                                if pj < i { assert(before[pj]@ != before[i as int]@); } else { assert(before[i as int]@ != before[pj]@); }
                            }
                        }
                        assert forall|a: int, b: int|
                            0 <= a < b < self.piped@.len() && unique_names(before) implies #[trigger] self.piped@[a]@
                            != #[trigger] self.piped@[b]@ by {
                            let pa = if a < i { a } else { a + 1 };
                            let pb = if b < i { b } else { b + 1 };
                            assert(self.piped@[a] == before[pa] && self.piped@[b] == before[pb]);
                        }
                        service.agents.close_replica_session(name.as_str())
                    },
                }
            },
            SyncEvent::ChannelCreated { id } => service.create_channel_with_id(id.as_str(), now),
            SyncEvent::ChannelDisposed { id: _ } => Ok(()),
            SyncEvent::EventReceived { channel, event } => {
                match service.inject_into_channel(channel.as_str(), event, now) {
                    Ok(()) => Ok(()),
                    Err(e) => Err(e),
                }
            },
        }
    }

    /// Ends the inbound stream: closes one replica session of every agent
    /// that it opened and did not end; other agents and the channels are
    /// left as they were.
    pub fn close(self, service: &mut MegaphoneService)
        requires
            old(service).wf(),
            unique_names(self.piped@),
        ensures
            final(service).wf(),
            final(service).channels == old(service).channels,
            forall|n: Seq<char>|
                #[trigger] in_session(self.piped@, n) && old(service).agents.has(n) && old(service).agents.props(n).status is Replica
                    && old(service).agents.props(n).status->pipe_sessions_count > 0 ==> final(service).agents.has(n)
                    && final(service).agents.props(n).status is Replica && final(service).agents.props(n).status->pipe_sessions_count
                    == old(service).agents.props(n).status->pipe_sessions_count - 1,
            forall|n: Seq<char>|
                !#[trigger] in_session(self.piped@, n) ==> (final(service).agents.has(n) == old(service).agents.has(n)
                    && (old(service).agents.has(n) ==> final(service).agents.props(n) == old(service).agents.props(n))),
    {
        let ghost pre = old(service).agents;
        let mut i: usize = 0;
        while i < self.piped.len()
            invariant
                service.wf(),
                service.channels == old(service).channels,
                service.agents.warmup_ms == pre.warmup_ms,
                pre == old(service).agents,
                unique_names(self.piped@),
                i <= self.piped@.len(),
                forall|n: Seq<char>|
                    #[trigger] in_session(self.piped@.subrange(0, i as int), n) && pre.has(n) && pre.props(n).status is Replica
                        && pre.props(n).status->pipe_sessions_count > 0 ==> service.agents.has(n)
                        && service.agents.props(n).status is Replica && service.agents.props(n).status->pipe_sessions_count
                        == pre.props(n).status->pipe_sessions_count - 1,
                forall|n: Seq<char>|
                    !#[trigger] in_session(self.piped@.subrange(0, i as int), n) ==> (service.agents.has(n) == pre.has(n)
                        && (pre.has(n) ==> service.agents.props(n) == pre.props(n))),
            decreases self.piped@.len() - i,
        {
            let ghost before = service.agents;
            let ghost nm = self.piped@[i as int]@;
            proof {
                assert(!in_session(self.piped@.subrange(0, i as int), nm)) by {
                    if in_session(self.piped@.subrange(0, i as int), nm) {
                        let j = choose|j: int| 0 <= j < i && #[trigger] self.piped@.subrange(0, i as int)[j]@ == nm;
                        assert(self.piped@[j]@ == nm);
                    }
                }
                assert(before.has(nm) == pre.has(nm) && (pre.has(nm) ==> before.props(nm) == pre.props(nm)));
                assert(forall|n: Seq<char>|
                    #[trigger] in_session(self.piped@.subrange(0, i as int), n) && pre.has(n) && pre.props(n).status is Replica
                        && pre.props(n).status->pipe_sessions_count > 0 ==> before.has(n)
                        && before.props(n).status is Replica && before.props(n).status->pipe_sessions_count
                        == pre.props(n).status->pipe_sessions_count - 1);
            }
            let _closed = service.agents.close_replica_session(self.piped[i].as_str());
            proof {
                assert forall|n: Seq<char>|
                    #[trigger] in_session(self.piped@.subrange(0, i + 1), n) && pre.has(n) && pre.props(n).status is Replica
                        && pre.props(n).status->pipe_sessions_count > 0 implies service.agents.has(n)
                        && service.agents.props(n).status is Replica && service.agents.props(n).status->pipe_sessions_count
                        == pre.props(n).status->pipe_sessions_count - 1 by {
                    if n != nm {
                        let j = choose|j: int| 0 <= j < i + 1 && #[trigger] self.piped@.subrange(0, i + 1)[j]@ == n;
                        assert(self.piped@.subrange(0, i + 1)[i as int]@ == nm);
                        assert(j < i);
                        assert(self.piped@.subrange(0, i as int)[j]@ == n);
                        assert(in_session(self.piped@.subrange(0, i as int), n));
                        assert(before.has(n));
                        assert(service.agents.has(n) == before.has(n));
                        assert(service.agents.props(n) == before.props(n));
                    }
                }
                assert forall|n: Seq<char>|
                    !#[trigger] in_session(self.piped@.subrange(0, i + 1), n) implies (service.agents.has(n) == pre.has(n)
                        && (pre.has(n) ==> service.agents.props(n) == pre.props(n))) by {
                    assert(self.piped@.subrange(0, i + 1)[i as int]@ == nm);
                    if in_session(self.piped@.subrange(0, i as int), n) {
                        let j = choose|j: int| 0 <= j < i && #[trigger] self.piped@.subrange(0, i as int)[j]@ == n;
                        assert(self.piped@.subrange(0, i + 1)[j]@ == n);
                    }
                }
            }
            i = i + 1;
        }
        proof {
            assert(self.piped@.subrange(0, self.piped@.len() as int) =~= self.piped@);
        }
    }
}

} // verus!
