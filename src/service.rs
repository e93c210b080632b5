//! The broker: the channels of this node, routed writes, long-poll reads,
//! batch writes and the sweeper of idle channels.
use vstd::prelude::*;
use crate::agents::{is_distributed, pipes_of, sealed_token, AgentsManagerService};
use crate::channel::{keep_fresh, not_expired, BufferedChannel, EVT_BUFFER_SIZE};
use crate::channel_id::{
    first_segment, first_segment_of, has_second_segment, second_segment,
    second_segment_of, short_of_segment, ChannelShortId, SEGMENT_LEN,
};
use crate::error::{code_of, MegaphoneError};
use crate::feature::{serialized, Feature, CHAN_CHUNKED_STREAM};
use crate::pipe::{event_frame, Event};
use crate::random::{is_alphanumeric, random_nonce, random_segment};

verus! {

/// The one streaming protocol that channels speak.
pub const HTTP_STREAM_NDJSON_V1: &'static str = "http-stream-ndjson-v1";

/// How long, in seconds, a producer waits for room in a channel whose agent
/// has no pipe.
pub const WRITE_TIMEOUT_SECS: usize = 10;

/// How many fresh segments channel creation draws before it gives up.
pub const SEGMENT_ATTEMPTS: usize = 16;

#[derive(Clone, Copy, Debug, PartialEq, Eq, Structural)]
pub enum WebHookType {
    OnChannelDeleted,
}

/// An endpoint told of events of the broker.
pub struct WebHook {
    pub name: String,
    pub hook: WebHookType,
    pub endpoint: String,
}

/// One message of a batch that did not reach a channel.
pub struct MessageDeliveryFailure {
    pub channel: String,
    pub index: usize,
    pub reason: String,
}

/// Counters of the broker, saturating at their maximum.
pub struct Metrics {
    pub channel_created: u64,
    pub channel_disposed: u64,
    pub messages_received: u64,
    pub messages_sent: u64,
    pub messages_unroutable: u64,
    pub messages_lost: u64,
}

pub open spec fn bumped(x: u64, n: u64) -> u64 {
    if x + n > u64::MAX {
        u64::MAX
    } else {
        (x + n) as u64
    }
}

pub fn bump(x: u64, n: u64) -> (r: u64)
    ensures
        r == bumped(x, n),
{
    if x > u64::MAX - n {
        u64::MAX
    } else {
        x + n
    }
}

/// A text is `prefix` followed by a dot and something more.
pub open spec fn has_agent_prefix(full: Seq<char>, name: Seq<char>) -> bool {
    full.len() > name.len() && full.subrange(0, name.len() as int) == name && full[name.len() as int]
        == '.'
}

/// The full identifiers, in order, of the channels of agent `name`.
pub open spec fn ids_of_agent(chs: Seq<BufferedChannel>, name: Seq<char>) -> Seq<Seq<char>>
    decreases chs.len(),
{
    if chs.len() == 0 {
        Seq::empty()
    } else if has_agent_prefix(chs.last().full_id@, name) {
        ids_of_agent(chs.drop_last(), name).push(chs.last().full_id@)
    } else {
        ids_of_agent(chs.drop_last(), name)
    }
}

/// The consumer address of a channel.
pub open spec fn consumer_address(agent: Seq<char>, seg: Seq<char>) -> Seq<char> {
    agent + seq!['.'] + seg + seq!['.'] + serialized(CHAN_CHUNKED_STREAM)
}

/// A producer address: the agent and a token, separated by a dot.
pub open spec fn producer_address(agent: Seq<char>, token: Seq<char>) -> Seq<char> {
    agent + seq!['.'] + token
}

pub open spec fn no_dot(s: Seq<char>) -> bool {
    forall|i: int| 0 <= i < s.len() ==> #[trigger] s[i] != '.'
}

pub open spec fn is_segment(seg: Seq<char>) -> bool {
    seg.len() == SEGMENT_LEN && forall|i: int| 0 <= i < seg.len() ==> is_alphanumeric(#[trigger] seg[i])
}

/// Whether the sweeper keeps a channel at `now`: while a reader holds its
/// timestamp, when it was read within the idle period, or when its agent is
/// distributed.
pub open spec fn keeps_with(agents: AgentsManagerService, c: BufferedChannel, now: u64) -> bool {
    let a = first_segment(c.full_id@);
    c.ts_locked || not_expired(c.last_read, now) || (agents.has(a) && is_distributed(
        agents.props(a).status,
    ))
}

/// Whether the sweeper keeps channel `c` at `now`.
pub fn keep_channel(agents: &AgentsManagerService, c: &BufferedChannel, now: u64) -> (r: bool)
    requires
        agents.wf(),
    ensures
        r == keeps_with(*agents, *c, now),
{
    let agent = first_segment_of(c.full_id.as_str());
    let distributed = match agents.is_agent_distributed(agent) {
        Ok(b) => b,
        Err(_) => false,
    };
    c.keep_at(now, distributed)
}

/// Once a write has timed out, every later write of the batch is skipped.
pub open spec fn skipped_after_timeout(r: Seq<Result<(), MegaphoneError>>) -> bool {
    forall|i: int, j: int|
        0 <= i < j < r.len() && (#[trigger] r[i] matches Err(e) && e is Timeout) ==> (
        #[trigger] r[j] matches Err(f) && f is Skipped)
}

/// What writing `event` into the channel keyed by `id` does: see
/// `MegaphoneService::write_to`.
pub open spec fn written(
    pre: MegaphoneService,
    post: MegaphoneService,
    id: u128,
    event: Event,
    now: u64,
    r: Result<bool, MegaphoneError>,
) -> bool {
    &&& !pre.has_channel(id) ==> (r matches Err(e) && e is NotFound) && post.channels@ == pre.channels@
        && post.metrics.messages_unroutable == bumped(pre.metrics.messages_unroutable, 1)
    &&& pre.has_channel(id) ==> post.has_channel(id) && post.other_channels_unchanged(&pre, id)
    &&& pre.has_channel(id) && pre.channel(id).queue@.len() < EVT_BUFFER_SIZE ==> r == Ok::<
        bool,
        MegaphoneError,
    >(true) && post.channel(id).queue@ == pre.channel(id).queue@.push(event)
    &&& pre.has_channel(id) && pre.channel(id).queue@.len() >= EVT_BUFFER_SIZE && pre.owner_piped(
        pre.channel(id),
    ) && !pre.channel(id).rx_locked ==> r == Ok::<bool, MegaphoneError>(true) && post.channel(
        id,
    ).queue@ == keep_fresh(pre.channel(id).queue@.drop_first(), now).push(event)
        && post.metrics.messages_lost == bumped(
        pre.metrics.messages_lost,
        (pre.channel(id).queue@.len() - keep_fresh(pre.channel(id).queue@.drop_first(), now).len()) as u64,
    )
    &&& pre.has_channel(id) && pre.channel(id).queue@.len() >= EVT_BUFFER_SIZE && pre.owner_piped(
        pre.channel(id),
    ) && pre.channel(id).rx_locked ==> (r matches Err(e) && e is InternalError) && post.channel(id)
        == pre.channel(id)
    &&& pre.has_channel(id) && pre.channel(id).queue@.len() >= EVT_BUFFER_SIZE && !pre.owner_piped(
        pre.channel(id),
    ) ==> r == Ok::<bool, MegaphoneError>(false) && post.channel(id) == pre.channel(id)
}

/// Whether an address, in either form, leads to the key `id`: a consumer
/// address through the digest of its segment, a producer address through a
/// token sealed under its agent's key.
pub open spec fn parses_to(svc: MegaphoneService, full: Seq<char>, id: u128) -> bool {
    has_second_segment(full) && ((second_segment(full).len() == SEGMENT_LEN && id == short_of_segment(
        second_segment(full),
    )) || (second_segment(full).len() != SEGMENT_LEN && svc.agents.has(first_segment(full))
        && svc.agents.seals(first_segment(full), second_segment(full), id)))
}

/// What writing `event` at address `full` does: see
/// `MegaphoneService::write_into_channel`.
pub open spec fn written_at(
    pre: MegaphoneService,
    post: MegaphoneService,
    full: Seq<char>,
    event: Event,
    now: u64,
    r: Result<bool, MegaphoneError>,
) -> bool {
    &&& post.wf()
    &&& post.agents == pre.agents
    &&& !has_second_segment(full) ==> (r matches Err(e) && e is BadRequest) && post == pre
    &&& forall|id: u128| #[trigger] parses_to(pre, full, id) ==> written(pre, post, id, event, now, r)
    &&& (forall|id: u128| !#[trigger] parses_to(pre, full, id)) ==> r is Err && post == pre
}

/// How a delivery failure is reported: channel, position and code.
pub open spec fn failure_view(f: MessageDeliveryFailure) -> (Seq<char>, int, Seq<char>) {
    (f.channel@, f.index as int, f.reason@)
}

/// The failures among the results of one channel, in order.
pub open spec fn failures_of(ch: Seq<char>, res: Seq<Result<(), MegaphoneError>>) -> Seq<(Seq<char>, int, Seq<char>)>
    decreases res.len(),
{
    if res.len() == 0 {
        Seq::empty()
    } else {
        failures_of(ch, res.drop_last()) + match res.last() {
            Err(e) => seq![(ch, res.len() - 1, code_of(&e))],
            Ok(_) => Seq::empty(),
        }
    }
}

/// The node's broker.
pub struct MegaphoneService {
    pub webhooks: Vec<WebHook>,
    pub agents: AgentsManagerService,
    pub channels: Vec<BufferedChannel>,
    pub metrics: Metrics,
}

impl MegaphoneService {
    pub open spec fn wf(&self) -> bool {
        &&& self.agents.wf()
        &&& forall|i: int| 0 <= i < self.channels@.len() ==> (#[trigger] self.channels@[i]).wf()
        &&& forall|i: int, j: int|
            0 <= i < j < self.channels@.len() ==> #[trigger] self.channels@[i].short_id
                != #[trigger] self.channels@[j].short_id
    }

    pub open spec fn has_channel(&self, id: u128) -> bool {
        exists|i: int| 0 <= i < self.channels@.len() && #[trigger] self.channels@[i].short_id == id
    }

    pub open spec fn chan_slot(&self, id: u128) -> int {
        choose|i: int| 0 <= i < self.channels@.len() && #[trigger] self.channels@[i].short_id == id
    }

    /// The channel keyed by `id`.
    pub open spec fn channel(&self, id: u128) -> BufferedChannel {
        self.channels@[self.chan_slot(id)]
    }

    /// Whether the agent that owns a channel forwards to peers.
    pub open spec fn owner_piped(&self, c: BufferedChannel) -> bool {
        let a = first_segment(c.full_id@);
        self.agents.has(a) && pipes_of(self.agents.props(a).status).len() > 0
    }

    /// Whether the sweeper keeps a channel at `now`.
    pub open spec fn sweeper_keeps(&self, c: BufferedChannel, now: u64) -> bool {
        keeps_with(self.agents, c, now)
    }

    /// The addresses, in order and each once, of the channels that the
    /// sweeper does not keep at `now`.
    pub open spec fn swept_exactly(&self, r: Seq<String>, now: u64) -> bool {
        exists|gone: Seq<int>|
            #![trigger gone.len()]
            gone.len() == r.len() && (forall|a: int, b: int|
                0 <= a < b < gone.len() ==> #[trigger] gone[a] < #[trigger] gone[b]) && (forall|m: int|
                0 <= m < gone.len() ==> 0 <= #[trigger] gone[m] < self.channels@.len() && !self.sweeper_keeps(
                    self.channels@[gone[m]],
                    now,
                ) && r[m]@ == self.channels@[gone[m]].full_id@) && (forall|j: int|
                0 <= j < self.channels@.len() && !self.sweeper_keeps(#[trigger] self.channels@[j], now)
                    ==> exists|m: int| 0 <= m < gone.len() && gone[m] == j)
    }

    /// Every channel but `id` is as it was.
    pub open spec fn other_channels_unchanged(&self, other: &Self, id: u128) -> bool {
        forall|k: u128|
            k != id ==> (#[trigger] self.has_channel(k) == other.has_channel(k) && (self.has_channel(
                k,
            ) ==> self.channel(k) == other.channel(k)))
    }

    pub proof fn lemma_chan_slot(&self, i: int)
        requires
            self.wf(),
            0 <= i < self.channels@.len(),
        ensures
            self.has_channel(self.channels@[i].short_id),
            self.chan_slot(self.channels@[i].short_id) == i,
    {
        let k = self.channels@[i].short_id;
        assert(self.channels@[i].short_id == k);
        let j = self.chan_slot(k);
        if j != i {
            if j < i {
                assert(self.channels@[j].short_id != self.channels@[i].short_id);
            } else {
                assert(self.channels@[i].short_id != self.channels@[j].short_id);
            }
        }
    }

    /// After position `i` was given a channel with the same key, the key
    /// leads to it and every other channel is as it was.
    proof fn lemma_replaced(pre: &Self, post: &Self, i: int)
        requires
            pre.wf(),
            0 <= i < pre.channels@.len(),
            post.agents.wf(),
            post.channels@ == pre.channels@.update(i, post.channels@[i]),
            post.channels@[i].short_id == pre.channels@[i].short_id,
            post.channels@[i].wf(),
        ensures
            post.wf(),
            post.has_channel(pre.channels@[i].short_id),
            post.channel(pre.channels@[i].short_id) == post.channels@[i],
            post.other_channels_unchanged(pre, pre.channels@[i].short_id),
    {
        assert forall|a: int, b: int|
            0 <= a < b < post.channels@.len() implies #[trigger] post.channels@[a].short_id
            != #[trigger] post.channels@[b].short_id by {
            assert(pre.channels@[a].short_id != pre.channels@[b].short_id);
        }
        assert forall|a: int| 0 <= a < post.channels@.len() implies (
        #[trigger] post.channels@[a]).wf() by {
            assert(pre.channels@[a].wf());
        }
        post.lemma_chan_slot(i);
        let id = pre.channels@[i].short_id;
        assert forall|k: u128| k != id implies (#[trigger] post.has_channel(k) == pre.has_channel(k)
            && (post.has_channel(k) ==> post.channel(k) == pre.channel(k))) by {
            if pre.has_channel(k) {
                let j = pre.chan_slot(k);
                pre.lemma_chan_slot(j);
                assert(post.channels@[j].short_id == k);
                post.lemma_chan_slot(j);
            }
            if post.has_channel(k) {
                let j = post.chan_slot(k);
                post.lemma_chan_slot(j);
                assert(pre.channels@[j].short_id == k);
            }
        }
    }

    pub fn new(webhooks: Vec<WebHook>, agents: AgentsManagerService) -> (r: Self)
        requires
            agents.wf(),
        ensures
            r.wf(),
            r.channels@.len() == 0,
            r.agents == agents,
    {
        MegaphoneService {
            webhooks,
            agents,
            channels: Vec::new(),
            metrics: Metrics {
                channel_created: 0,
                channel_disposed: 0,
                messages_received: 0,
                messages_sent: 0,
                messages_unroutable: 0,
                messages_lost: 0,
            },
        }
    }

    /// The position of the channel keyed by `id`.
    pub fn find_channel(&self, id: u128) -> (r: Option<usize>)
        requires
            self.wf(),
        ensures
            r is Some <==> self.has_channel(id),
            r matches Some(i) ==> i < self.channels@.len() && i == self.chan_slot(id)
                && self.channels@[i as int].short_id == id,
    {
        let mut i: usize = 0;
        while i < self.channels.len()
            invariant
                self.wf(),
                i <= self.channels@.len(),
                forall|j: int| 0 <= j < i ==> #[trigger] self.channels@[j].short_id != id,
            decreases self.channels@.len() - i,
        {
            if self.channels[i].short_id == id {
                proof {
                    self.lemma_chan_slot(i as int);
                }
                return Some(i);
            }
            i = i + 1;
        }
        None
    }

    /// Puts `ch` at position `i`, whose key it keeps.
    fn put_channel_at(&mut self, i: usize, ch: BufferedChannel)
        requires
            old(self).wf(),
            i < old(self).channels@.len(),
            ch.short_id == old(self).channels@[i as int].short_id,
            ch.wf(),
        ensures
            final(self).wf(),
            final(self).agents == old(self).agents,
            final(self).channels@ == old(self).channels@.update(i as int, ch),
            final(self).has_channel(ch.short_id),
            final(self).channel(ch.short_id) == ch,
            final(self).other_channels_unchanged(old(self), ch.short_id),
    {
        let ghost pre = *old(self);
        let _previous = self.channels.remove(i);
        self.channels.insert(i, ch);
        proof {
            assert(self.channels@ =~= pre.channels@.update(i as int, ch));
            Self::lemma_replaced(&pre, self, i as int);
        }
    }

    /// Adds a channel whose key is new.
    fn push_channel(&mut self, ch: BufferedChannel)
        requires
            old(self).wf(),
            !old(self).has_channel(ch.short_id),
            ch.wf(),
        ensures
            final(self).wf(),
            final(self).agents == old(self).agents,
            final(self).has_channel(ch.short_id),
            final(self).channel(ch.short_id) == ch,
            final(self).other_channels_unchanged(old(self), ch.short_id),
    {
        let ghost pre = *old(self);
        let ghost id = ch.short_id;
        self.channels.push(ch);
        proof {
            let post = *self;
            let last = pre.channels@.len() as int;
            assert forall|a: int, b: int|
                0 <= a < b < post.channels@.len() implies #[trigger] post.channels@[a].short_id
                != #[trigger] post.channels@[b].short_id by {
                if b == last {
                    assert(pre.channels@[a].short_id == post.channels@[a].short_id);
                } else {
                    assert(pre.channels@[a].short_id != pre.channels@[b].short_id);
                }
            }
            assert forall|a: int| 0 <= a < post.channels@.len() implies (
            #[trigger] post.channels@[a]).wf() by {
                if a < last {
                    assert(pre.channels@[a].wf());
                }
            }
            post.lemma_chan_slot(last);
            assert forall|k: u128| k != id implies (#[trigger] post.has_channel(k)
                == pre.has_channel(k) && (post.has_channel(k) ==> post.channel(k) == pre.channel(
                k,
            ))) by {
                if pre.has_channel(k) {
                    let j = pre.chan_slot(k);
                    pre.lemma_chan_slot(j);
                    assert(post.channels@[j].short_id == k);
                    post.lemma_chan_slot(j);
                }
                if post.has_channel(k) {
                    let j = post.chan_slot(k);
                    post.lemma_chan_slot(j);
                    assert(j != last);
                    assert(pre.channels@[j].short_id == k);
                }
            }
        }
    }

    /// Adds a channel, or replaces the one with the same key.
    fn put_channel(&mut self, ch: BufferedChannel)
        requires
            old(self).wf(),
            ch.wf(),
        ensures
            final(self).wf(),
            final(self).agents == old(self).agents,
            final(self).has_channel(ch.short_id),
            final(self).channel(ch.short_id) == ch,
            final(self).other_channels_unchanged(old(self), ch.short_id),
    {
        match self.find_channel(ch.short_id) {
            Some(i) => self.put_channel_at(i, ch),
            None => self.push_channel(ch),
        }
    }

    /// The short form of a channel address. A second segment of fifty
    /// characters is a consumer address, hashed; any other is a producer
    /// token, opened under the key of the agent named first.
    pub fn parse_full_id(&self, full_id: &str) -> (r: Result<ChannelShortId, MegaphoneError>)
        requires
            self.wf(),
        ensures
            r matches Ok(v) ==> parses_to(*self, full_id@, v.0),
            !has_second_segment(full_id@) ==> (r matches Err(e) && e is BadRequest),
            has_second_segment(full_id@) && second_segment(full_id@).len() == SEGMENT_LEN ==> r
                == Ok::<ChannelShortId, MegaphoneError>(
                ChannelShortId(short_of_segment(second_segment(full_id@))),
            ),
            has_second_segment(full_id@) && second_segment(full_id@).len() != SEGMENT_LEN
                && !self.agents.has(first_segment(full_id@)) ==> (r matches Err(e)
                && e is InternalError),
            forall|nonce: Seq<u8>, id: u128|
                has_second_segment(full_id@) && second_segment(full_id@).len() != SEGMENT_LEN
                    && nonce.len() == 12 && self.agents.has(first_segment(full_id@))
                    && second_segment(full_id@) == #[trigger] sealed_token(
                    self.agents.props(first_segment(full_id@)).key@,
                    nonce,
                    id,
                ) ==> (r matches Ok(v) && v.0 == id),
    {
        match second_segment_of(full_id) {
            Some(seg) => {
                if seg.unicode_len() != SEGMENT_LEN {
                    let agent = first_segment_of(full_id);
                    self.agents.decrypt_channel_id(agent, seg)
                } else {
                    ChannelShortId::from_full_id(full_id)
                }
            },
            None => ChannelShortId::from_full_id(full_id),
        }
    }

    /// Creates the channel of segment `seg` on agent `agent`, sealing its
    /// short form with `nonce`. Refused when a channel already has that key.
    pub fn create_channel_with_segment(&mut self, agent: &str, seg: &str, nonce: &[u8], now: u64) -> (r: Result<
        (String, String, String, Vec<String>),
        MegaphoneError,
    >)
        requires
            old(self).wf(),
            old(self).agents.has(agent@),
            nonce@.len() == 12,
        ensures
            final(self).wf(),
            final(self).agents == old(self).agents,
            r is Ok <==> !old(self).has_channel(short_of_segment(seg@)),
            r is Err ==> final(self).channels@ == old(self).channels@ && (r matches Err(e)
                && e is InternalError),
            r matches Ok(res) ==> {
                let (a, consumer, producer, protocols) = res;
                let token = sealed_token(old(self).agents.props(agent@).key@, nonce@, short_of_segment(seg@));
                &&& a@ == agent@
                &&& protocols@.len() == 1 && protocols@[0]@ == HTTP_STREAM_NDJSON_V1@
                &&& token.len() == 59 && no_dot(token)
                &&& consumer@ == consumer_address(agent@, seg@)
                &&& producer@ == producer_address(agent@, token)
                &&& final(self).has_channel(short_of_segment(seg@))
                &&& final(self).channel(short_of_segment(seg@)).full_id@ == consumer@
                &&& final(self).channel(short_of_segment(seg@)).queue@.len() == 0
                &&& final(self).other_channels_unchanged(old(self), short_of_segment(seg@))
            },
    {
        let short = ChannelShortId::from_id_segment(seg);
        if self.find_channel(short.0).is_some() {
            return Err(MegaphoneError::InternalError(String::from_str("Channel id already in use")));
        }
        let token = match self.agents.encrypt_channel_id_with_nonce(agent, short, nonce) {
            Ok(t) => t,
            Err(e) => {
                return Err(e);
            },
        };
        proof {
            assert forall|i: int| 0 <= i < token@.len() implies token@[i] != '.' by {
                assert(crate::crypto::is_b64url_char(token@[i]));
            }
        }
        let features = Feature::new(CHAN_CHUNKED_STREAM).serialize();
        proof {
            reveal_strlit(".");
        }
        let mut consumer = String::from_str(agent);
        consumer.append(".");
        consumer.append(seg);
        consumer.append(".");
        consumer.append(features.as_str());
        let mut producer = String::from_str(agent);
        producer.append(".");
        producer.append(token.as_str());
        let ghost pre = *self;
        let ch = BufferedChannel::new(consumer.clone(), short.0, now);
        self.push_channel(ch);
        let ghost mid = *self;
        self.metrics.channel_created = bump(self.metrics.channel_created, 1);
        proof {
            Self::lemma_same_channels(self, &mid, &pre, short.0);
        }
        let mut protocols: Vec<String> = Vec::new();
        protocols.push(String::from_str(HTTP_STREAM_NDJSON_V1));
        proof {
            assert(consumer@ =~= consumer_address(agent@, seg@));
            assert(producer@ =~= producer_address(agent@, token@));
        }
        Ok((String::from_str(agent), consumer, producer, protocols))
    }

    /// Creates a channel on a master past its warm-up, chosen at random,
    /// under a fresh random segment; see `create_channel_with_segment`.
    /// Refuses a list of protocols that is not empty and lacks ours. Gives up
    /// after `SEGMENT_ATTEMPTS` segments that are all in use.
    pub fn create_channel(&mut self, supported_protocols: &[String], now: u64) -> (r: Result<
        (String, String, String, Vec<String>),
        MegaphoneError,
    >)
        requires
            old(self).wf(),
        ensures
            final(self).wf(),
            final(self).agents == old(self).agents,
            !(supported_protocols@.len() == 0 || exists|i: int|
                0 <= i < supported_protocols@.len() && #[trigger] supported_protocols@[i]@
                    == HTTP_STREAM_NDJSON_V1@) ==> (r matches Err(e) && e is BadRequest),
            (supported_protocols@.len() == 0 || exists|i: int|
                0 <= i < supported_protocols@.len() && #[trigger] supported_protocols@[i]@
                    == HTTP_STREAM_NDJSON_V1@) && (forall|n: Seq<char>|
                !#[trigger] old(self).agents.placeable(n, now)) ==> (r matches Err(e)
                && e is InternalError),
            (supported_protocols@.len() == 0 || exists|i: int|
                0 <= i < supported_protocols@.len() && #[trigger] supported_protocols@[i]@
                    == HTTP_STREAM_NDJSON_V1@) && (exists|n: Seq<char>|
                #[trigger] old(self).agents.placeable(n, now)) && old(self).channels@.len() == 0 ==> r is Ok,
            r is Err ==> final(self).channels@ == old(self).channels@,
            r matches Ok(res) ==> {
                let (agent, consumer, producer, protocols) = res;
                &&& old(self).agents.placeable(agent@, now)
                &&& protocols@.len() == 1 && protocols@[0]@ == HTTP_STREAM_NDJSON_V1@
                &&& exists|seg: Seq<char>, token: Seq<char>, nonce: Seq<u8>|
                    is_segment(seg) && nonce.len() == 12 && token.len() == 59 && no_dot(token)
                        && token == #[trigger] sealed_token(
                        old(self).agents.props(agent@).key@,
                        nonce,
                        short_of_segment(seg),
                    ) && consumer@ == consumer_address(agent@, seg) && producer@
                        == #[trigger] producer_address(agent@, token) && !old(self).has_channel(
                        short_of_segment(seg),
                    ) && final(self).has_channel(short_of_segment(seg)) && final(self).channel(
                        short_of_segment(seg),
                    ).full_id@ == consumer@ && final(self).channel(
                        short_of_segment(seg),
                    ).queue@.len() == 0 && final(self).other_channels_unchanged(
                        old(self),
                        short_of_segment(seg),
                    )
            },
    {
        if supported_protocols.len() != 0 {
            let mut found = false;
            let mut i: usize = 0;
            while i < supported_protocols.len()
                invariant
                    i <= supported_protocols@.len(),
                    found == exists|j: int|
                        0 <= j < i && #[trigger] supported_protocols@[j]@ == HTTP_STREAM_NDJSON_V1@,
                decreases supported_protocols@.len() - i,
            {
                if crate::agents::text_equal(supported_protocols[i].as_str(), HTTP_STREAM_NDJSON_V1) {
                    found = true;
                }
                i = i + 1;
            }
            if !found {
                return Err(MegaphoneError::BadRequest(String::from_str("Unsupported protocols")));
            }
        }
        let agent = match self.agents.random_master_id(now) {
            Ok(a) => a,
            Err(e) => {
                return Err(e);
            },
        };
        let mut attempt: usize = 0;
        let mut chosen: Option<String> = None;
        while attempt < SEGMENT_ATTEMPTS && chosen.is_none()
            invariant
                self.wf(),
                self.channels@.len() == 0 && attempt > 0 ==> chosen is Some,
                chosen matches Some(c) ==> is_segment(c@) && !self.has_channel(short_of_segment(c@)),
            decreases SEGMENT_ATTEMPTS - attempt,
        {
            let seg = random_segment();
            let short = ChannelShortId::from_id_segment(seg.as_str());
            if self.find_channel(short.0).is_none() {
                chosen = Some(seg);
            }
            attempt = attempt + 1;
        }
        let seg = match chosen {
            Some(c) => c,
            None => {
                return Err(
                    MegaphoneError::InternalError(String::from_str("Cannot allocate a channel id")),
                );
            },
        };
        let nonce = random_nonce();
        let ghost pre = *self;
        proof {
            pre.agents.lemma_slot(pre.agents.slot(agent@));
        }
        let r = self.create_channel_with_segment(agent.as_str(), seg.as_str(), nonce.as_slice(), now);
        proof {
            if r is Ok {
                let token = sealed_token(pre.agents.props(agent@).key@, nonce@, short_of_segment(seg@));
                assert(producer_address(agent@, token) == r->Ok_0.2@);
            }
        }
        r
    }

    proof fn lemma_same_channels(a: &Self, b: &Self, pre: &Self, id: u128)
        requires
            a.channels@ == b.channels@,
            b.other_channels_unchanged(pre, id),
        ensures
            a.other_channels_unchanged(pre, id),
            forall|k: u128| #[trigger] a.has_channel(k) == b.has_channel(k),
            forall|k: u128| #[trigger] a.channel(k) == b.channel(k),
    {
        assert forall|k: u128| k != id implies (#[trigger] a.has_channel(k) == pre.has_channel(k)
            && (a.has_channel(k) ==> a.channel(k) == pre.channel(k))) by {
            assert(a.has_channel(k) == b.has_channel(k));
            assert(a.chan_slot(k) == b.chan_slot(k));
        }
        assert forall|k: u128| #[trigger] a.has_channel(k) == b.has_channel(k) by {}
        assert forall|k: u128| #[trigger] a.channel(k) == b.channel(k) by {
            assert(a.chan_slot(k) == b.chan_slot(k));
        }
    }

    /// Writes an event into the channel keyed by `id`. When the owning agent
    /// has pipes, the event is first handed to each of them, then queued
    /// without waiting, evicting by force-write when the channel is full.
    /// Without pipes, a full channel is left as it is and `Ok(false)` tells
    /// the caller to wait for room; `Ok(true)` means the event was queued.
    pub fn write_to(&mut self, id: u128, address: &str, event: Event, now: u64) -> (r: Result<
        bool,
        MegaphoneError,
    >)
        requires
            old(self).wf(),
        ensures
            final(self).wf(),
            final(self).agents == old(self).agents,
            written(*old(self), *final(self), id, event, now, r),
    {
        let i = match self.find_channel(id) {
            None => {
                self.metrics.messages_unroutable = bump(self.metrics.messages_unroutable, 1);
                return Err(MegaphoneError::NotFound);
            },
            Some(i) => i,
        };
        let ghost pre = *self;
        self.metrics.messages_received = bump(self.metrics.messages_received, 1);
        let agent = first_segment_of(self.channels[i].full_id.as_str());
        let pipes = self.agents.get_pipes(agent);
        let mut k: usize = 0;
        while k < pipes.len()
            invariant
                k <= pipes@.len(),
            decreases pipes@.len() - k,
        {
            let _queued = pipes[k].try_send(event_frame(address, &event));
            k = k + 1;
        }
        let piped = pipes.len() > 0;
        let mut ch = self.channels.remove(i);
        proof {
            pre.lemma_chan_slot(i as int);
        }
        let mut outcome: Result<bool, MegaphoneError> = Ok(true);
        if !ch.is_full() {
            ch.push(event);
        } else if piped {
            match ch.force_write(event, now) {
                Ok(lost) => {
                    self.metrics.messages_lost = bump(self.metrics.messages_lost, lost as u64);
                },
                Err(e) => {
                    outcome = Err(e);
                },
            }
        } else {
            outcome = Ok(false);
        }
        self.channels.insert(i, ch);
        proof {
            assert(self.channels@ =~= pre.channels@.update(i as int, ch));
            Self::lemma_replaced(&pre, self, i as int);
        }
        outcome
    }

    /// Writes an event into the channel at `full_id`, in either address
    /// form; see `write_to`. Fails with `NotFound` when no channel has that
    /// key.
    pub fn write_into_channel(&mut self, full_id: &str, event: Event, now: u64) -> (r: Result<
        bool,
        MegaphoneError,
    >)
        requires
            old(self).wf(),
        ensures
            final(self).wf(),
            final(self).agents == old(self).agents,
            written_at(*old(self), *final(self), full_id@, event, now, r),
    {
        let ghost pre = *self;
        let id = match self.parse_full_id(full_id) {
            Ok(id) => id,
            Err(e) => {
                proof {
                    assert forall|k: u128| !#[trigger] parses_to(pre, full_id@, k) by {
                        if parses_to(pre, full_id@, k) && second_segment(full_id@).len() != SEGMENT_LEN {
                            let nonce = choose|nonce: Seq<u8>|
                                nonce.len() == 12 && second_segment(full_id@) == #[trigger] sealed_token(
                                    pre.agents.props(first_segment(full_id@)).key@,
                                    nonce,
                                    k,
                                );
                        }
                    }
                }
                return Err(e);
            },
        };
        let r = self.write_to(id.0, full_id, event, now);
        proof {
            assert forall|k: u128| #[trigger] parses_to(pre, full_id@, k) implies k == id.0 by {
                if second_segment(full_id@).len() != SEGMENT_LEN {
                    let nonce = choose|nonce: Seq<u8>|
                        nonce.len() == 12 && second_segment(full_id@) == #[trigger] sealed_token(
                            pre.agents.props(first_segment(full_id@)).key@,
                            nonce,
                            k,
                        );
                }
            }
        }
        r
    }

    /// Queues an event arriving through a pipe from a peer: never waits,
    /// evicting by force-write when the channel is full.
    pub fn inject_into_channel(&mut self, id: &str, event: Event, now: u64) -> (r: Result<
        (),
        MegaphoneError,
    >)
        requires
            old(self).wf(),
        ensures
            final(self).wf(),
            final(self).agents == old(self).agents,
            !has_second_segment(id@) ==> (r matches Err(e) && e is BadRequest),
            has_second_segment(id@) && !old(self).has_channel(
                short_of_segment(second_segment(id@)),
            ) ==> (r matches Err(e) && e is NotFound) && final(self).channels@ == old(self).channels@
                && final(self).metrics.messages_unroutable == bumped(
                old(self).metrics.messages_unroutable,
                1,
            ),
            has_second_segment(id@) && old(self).has_channel(short_of_segment(second_segment(id@)))
                ==> {
                let k = short_of_segment(second_segment(id@));
                let c = old(self).channel(k);
                &&& final(self).has_channel(k)
                &&& final(self).other_channels_unchanged(old(self), k)
                &&& c.queue@.len() < EVT_BUFFER_SIZE ==> r is Ok && final(self).channel(k).queue@
                    == c.queue@.push(event)
                &&& c.queue@.len() >= EVT_BUFFER_SIZE && !c.rx_locked ==> r is Ok && final(self).channel(k).queue@ == keep_fresh(c.queue@.drop_first(), now).push(event)
                &&& c.queue@.len() >= EVT_BUFFER_SIZE && c.rx_locked ==> (r matches Err(e)
                    && e is InternalError) && final(self).channel(k) == c
            },
    {
        let sid = match ChannelShortId::from_full_id(id) {
            Ok(s) => s,
            Err(e) => {
                return Err(e);
            },
        };
        let i = match self.find_channel(sid.0) {
            None => {
                self.metrics.messages_unroutable = bump(self.metrics.messages_unroutable, 1);
                return Err(MegaphoneError::NotFound);
            },
            Some(i) => i,
        };
        let ghost pre = *self;
        proof {
            pre.lemma_chan_slot(i as int);
        }
        let mut ch = self.channels.remove(i);
        let mut outcome: Result<(), MegaphoneError> = Ok(());
        let mut lost_count: usize = 0;
        if !ch.is_full() {
            ch.push(event);
        } else {
            match ch.force_write(event, now) {
                Ok(lost) => {
                    lost_count = lost;
                },
                Err(e) => {
                    outcome = Err(e);
                },
            }
        }
        self.channels.insert(i, ch);
        proof {
            assert(self.channels@ =~= pre.channels@.update(i as int, ch));
            Self::lemma_replaced(&pre, self, i as int);
        }
        let ghost mid = *self;
        self.metrics.messages_received = bump(self.metrics.messages_received, 1);
        self.metrics.messages_lost = bump(self.metrics.messages_lost, lost_count as u64);
        proof {
            Self::lemma_same_channels(self, &mid, &pre, sid.0);
        }
        outcome
    }

    /// Materialises a channel announced by a peer, under that exact address.
    pub fn create_channel_with_id(&mut self, id: &str, now: u64) -> (r: Result<(), MegaphoneError>)
        requires
            old(self).wf(),
        ensures
            final(self).wf(),
            final(self).agents == old(self).agents,
            r is Ok <==> has_second_segment(id@),
            r is Err ==> final(self).channels@ == old(self).channels@,
            r is Ok ==> final(self).has_channel(short_of_segment(second_segment(id@)))
                && final(self).channel(short_of_segment(second_segment(id@))).full_id@ == id@
                && final(self).channel(short_of_segment(second_segment(id@))).queue@.len() == 0
                && final(self).other_channels_unchanged(
                old(self),
                short_of_segment(second_segment(id@)),
            ),
    {
        let sid = match ChannelShortId::from_full_id(id) {
            Ok(s) => s,
            Err(e) => {
                return Err(e);
            },
        };
        let ghost pre = *self;
        self.put_channel(BufferedChannel::new(String::from_str(id), sid.0, now));
        let ghost mid = *self;
        self.metrics.channel_created = bump(self.metrics.channel_created, 1);
        proof {
            Self::lemma_same_channels(self, &mid, &pre, sid.0);
        }
        Ok(())
    }

    /// Starts a read of the channel at the consumer address `id`: the reader
    /// gets the drain lease, or `Busy` while another holds it. A producer
    /// address, or one whose channel stores another address, is not found.
    pub fn read_channel(&mut self, id: &str) -> (r: Result<ChannelShortId, MegaphoneError>)
        requires
            old(self).wf(),
        ensures
            final(self).wf(),
            final(self).agents == old(self).agents,
            !has_second_segment(id@) ==> (r matches Err(e) && e is BadRequest),
            has_second_segment(id@) ==> {
                let k = short_of_segment(second_segment(id@));
                &&& !old(self).has_channel(k) ==> (r matches Err(e) && e is NotFound)
                &&& old(self).has_channel(k) && old(self).channel(k).full_id@ != id@ ==> (r matches Err(
                    e,
                ) && e is NotFound)
                &&& old(self).has_channel(k) && old(self).channel(k).full_id@ == id@ && !old(self).channel(k).lease_free() ==> (r matches Err(e) && e is Busy)
                &&& old(self).has_channel(k) && old(self).channel(k).full_id@ == id@ && old(self).channel(k).lease_free() ==> r == Ok::<ChannelShortId, MegaphoneError>(
                    ChannelShortId(k),
                ) && final(self).has_channel(k) && final(self).channel(k) == (BufferedChannel {
                    rx_locked: true,
                    ts_locked: true,
                    ..old(self).channel(k)
                })
            },
            r is Err ==> final(self).channels@ == old(self).channels@,
            r matches Ok(k) ==> final(self).other_channels_unchanged(old(self), k.0),
    {
        let sid = match ChannelShortId::from_full_id(id) {
            Ok(s) => s,
            Err(e) => {
                return Err(e);
            },
        };
        let i = match self.find_channel(sid.0) {
            None => {
                return Err(MegaphoneError::NotFound);
            },
            Some(i) => i,
        };
        if !crate::agents::text_equal(self.channels[i].full_id.as_str(), id) {
            return Err(MegaphoneError::NotFound);
        }
        let ghost pre = *self;
        proof {
            pre.lemma_chan_slot(i as int);
        }
        let mut ch = self.channels.remove(i);
        let lease = ch.try_acquire_lease();
        self.channels.insert(i, ch);
        proof {
            assert(self.channels@ =~= pre.channels@.update(i as int, ch));
            Self::lemma_replaced(&pre, self, i as int);
            if lease is Err {
                assert(self.channels@ =~= pre.channels@);
            }
        }
        match lease {
            Ok(()) => Ok(sid),
            Err(e) => Err(e),
        }
    }

    /// The next event of a read in progress, taken out of the channel.
    pub fn read_next(&mut self, id: ChannelShortId) -> (r: Option<Event>)
        requires
            old(self).wf(),
        ensures
            final(self).wf(),
            final(self).agents == old(self).agents,
            !old(self).has_channel(id.0) ==> r is None && final(self).channels@ == old(self).channels@,
            old(self).has_channel(id.0) ==> {
                let c = old(self).channel(id.0);
                &&& final(self).has_channel(id.0)
                &&& final(self).other_channels_unchanged(old(self), id.0)
                &&& c.queue@.len() == 0 ==> r is None && final(self).channel(id.0) == c
                &&& c.queue@.len() > 0 ==> r == Some(c.queue@[0]) && final(self).channel(
                    id.0,
                ).queue@ == c.queue@.drop_first()
                &&& final(self).channel(id.0).full_id == c.full_id
                &&& final(self).channel(id.0).short_id == c.short_id
                &&& final(self).channel(id.0).last_read == c.last_read
                &&& final(self).channel(id.0).created_ts == c.created_ts
                &&& final(self).channel(id.0).rx_locked == c.rx_locked
                &&& final(self).channel(id.0).ts_locked == c.ts_locked
            },
    {
        let i = match self.find_channel(id.0) {
            None => {
                return None;
            },
            Some(i) => i,
        };
        let ghost pre = *self;
        proof {
            pre.lemma_chan_slot(i as int);
        }
        let mut ch = self.channels.remove(i);
        let ghost before = ch;
        let next = ch.next_event();
        proof {
            if before.queue@.len() == 0 {
                assert(ch == before);
            }
        }
        self.channels.insert(i, ch);
        proof {
            assert(self.channels@ =~= pre.channels@.update(i as int, ch));
            Self::lemma_replaced(&pre, self, i as int);
        }
        if next.is_some() {
            let ghost mid = *self;
            self.metrics.messages_sent = bump(self.metrics.messages_sent, 1);
            proof {
                Self::lemma_same_channels(self, &mid, &pre, id.0);
            }
        }
        next
    }

    /// Ends a read at `now`: the channel records the time and its lease is free.
    pub fn end_read(&mut self, id: ChannelShortId, now: u64)
        requires
            old(self).wf(),
        ensures
            final(self).wf(),
            final(self).agents == old(self).agents,
            !old(self).has_channel(id.0) ==> final(self).channels@ == old(self).channels@,
            old(self).has_channel(id.0) ==> final(self).has_channel(id.0) && final(self).channel(id.0)
                == (BufferedChannel {
                last_read: now,
                rx_locked: false,
                ts_locked: false,
                ..old(self).channel(id.0)
            }) && final(self).other_channels_unchanged(old(self), id.0),
    {
        let i = match self.find_channel(id.0) {
            None => {
                return;
            },
            Some(i) => i,
        };
        let ghost pre = *self;
        proof {
            pre.lemma_chan_slot(i as int);
        }
        let mut ch = self.channels.remove(i);
        ch.release_lease(now);
        self.channels.insert(i, ch);
        proof {
            assert(self.channels@ =~= pre.channels@.update(i as int, ch));
            Self::lemma_replaced(&pre, self, i as int);
        }
    }

    /// Whether a channel has the key that `id` parses to.
    pub fn channel_exists(&self, id: &str) -> (r: bool)
        requires
            self.wf(),
        ensures
            !has_second_segment(id@) ==> !r,
            has_second_segment(id@) && second_segment(id@).len() == SEGMENT_LEN ==> r
                == self.has_channel(short_of_segment(second_segment(id@))),
    {
        match self.parse_full_id(id) {
            Ok(sid) => self.find_channel(sid.0).is_some(),
            Err(_) => false,
        }
    }

    /// Removes the channel at `id`, in either address form, and reports how
    /// many queued events were lost with it.
    pub fn drop_channel(&mut self, id: &str, now: u64) -> (r: Result<(), MegaphoneError>)
        requires
            old(self).wf(),
        ensures
            final(self).wf(),
            final(self).agents == old(self).agents,
            !has_second_segment(id@) ==> (r matches Err(e) && e is BadRequest),
            forall|k: u128| #[trigger] parses_to(*old(self), id@, k) ==> {
                &&& !old(self).has_channel(k) ==> (r matches Err(e) && e is InternalError)
                &&& old(self).has_channel(k) ==> r is Ok && !final(self).has_channel(k)
                    && final(self).other_channels_unchanged(old(self), k)
                    && final(self).metrics.channel_disposed == bumped(old(self).metrics.channel_disposed, 1)
                    && final(self).metrics.messages_lost == bumped(
                    old(self).metrics.messages_lost,
                    old(self).channel(k).queue@.len() as u64,
                )
            },
            (forall|k: u128| !#[trigger] parses_to(*old(self), id@, k)) ==> (r matches Err(e)
                && e is BadRequest),
            r is Err ==> *final(self) == *old(self),
    {
        let ghost pre0 = *self;
        let sid = match self.parse_full_id(id) {
            Ok(s) => s,
            Err(_) => {
                proof {
                    assert forall|k: u128| !#[trigger] parses_to(pre0, id@, k) by {
                        if parses_to(pre0, id@, k) && second_segment(id@).len() != SEGMENT_LEN {
                            assert(pre0.agents.seals(first_segment(id@), second_segment(id@), k));
                        }
                    }
                }
                return Err(MegaphoneError::BadRequest(String::from_str("Malformed channel id")));
            },
        };
        proof {
            assert forall|k: u128| #[trigger] parses_to(pre0, id@, k) implies k == sid.0 by {
                if second_segment(id@).len() != SEGMENT_LEN {
                    assert(pre0.agents.seals(first_segment(id@), second_segment(id@), k));
                }
            }
        }
        let i = match self.find_channel(sid.0) {
            None => {
                return Err(MegaphoneError::InternalError(String::from_str("Could not find channel")));
            },
            Some(i) => i,
        };
        let ghost pre = *self;
        proof {
            pre.lemma_chan_slot(i as int);
        }
        let removed = self.channels.remove(i);
        proof {
            self.lemma_removed(&pre, i as int);
        }
        let (lost, _lifetime) = removed.dispose(now);
        let ghost mid = *self;
        self.metrics.channel_disposed = bump(self.metrics.channel_disposed, 1);
        self.metrics.messages_lost = bump(self.metrics.messages_lost, lost as u64);
        proof {
            Self::lemma_same_channels(self, &mid, &pre, sid.0);
        }
        Ok(())
    }

    proof fn lemma_removed(&self, pre: &Self, i: int)
        requires
            pre.wf(),
            0 <= i < pre.channels@.len(),
            self.agents == pre.agents,
            self.channels@ == pre.channels@.remove(i),
        ensures
            self.wf(),
            !self.has_channel(pre.channels@[i].short_id),
            self.other_channels_unchanged(pre, pre.channels@[i].short_id),
    {
        let id = pre.channels@[i].short_id;
        assert forall|a: int, b: int|
            0 <= a < b < self.channels@.len() implies #[trigger] self.channels@[a].short_id
            != #[trigger] self.channels@[b].short_id by {
            let pa = if a < i { a } else { a + 1 };
            let pb = if b < i { b } else { b + 1 };
            assert(pre.channels@[pa].short_id != pre.channels@[pb].short_id);
        }
        assert forall|a: int| 0 <= a < self.channels@.len() implies (
        #[trigger] self.channels@[a]).wf() by {
            let pa = if a < i { a } else { a + 1 };
            assert(pre.channels@[pa].wf());
        }
        if self.has_channel(id) {
            let j = self.chan_slot(id);
            let pj = if j < i { j } else { j + 1 };
            assert(pre.channels@[pj].short_id == id);
            if pj < i {
                assert(pre.channels@[pj].short_id != pre.channels@[i].short_id);
            } else {
                assert(pre.channels@[i].short_id != pre.channels@[pj].short_id);
            }
        }
        assert forall|k: u128| k != id implies (#[trigger] self.has_channel(k) == pre.has_channel(k)
            && (self.has_channel(k) ==> self.channel(k) == pre.channel(k))) by {
            if pre.has_channel(k) {
                let j = pre.chan_slot(k);
                pre.lemma_chan_slot(j);
                assert(j != i);
                let sj = if j < i { j } else { j - 1 };
                assert(self.channels@[sj].short_id == k);
                self.lemma_chan_slot(sj);
            }
            if self.has_channel(k) {
                let j = self.chan_slot(k);
                self.lemma_chan_slot(j);
                let pj = if j < i { j } else { j + 1 };
                assert(pre.channels@[pj].short_id == k);
            }
        }
    }

    /// The addresses of the channels of agent `name`.
    pub fn channel_ids_by_agent(&self, name: &str) -> (r: Vec<String>)
        ensures
            r@.len() == ids_of_agent(self.channels@, name@).len(),
            forall|k: int| 0 <= k < r@.len() ==> #[trigger] r@[k]@ == ids_of_agent(self.channels@, name@)[k],
    {
        let mut out: Vec<String> = Vec::new();
        let mut i: usize = 0;
        let nlen = name.unicode_len();
        while i < self.channels.len()
            invariant
                i <= self.channels@.len(),
                nlen == name@.len(),
                out@.len() == ids_of_agent(self.channels@.subrange(0, i as int), name@).len(),
                forall|k: int|
                    0 <= k < out@.len() ==> #[trigger] out@[k]@ == ids_of_agent(
                        self.channels@.subrange(0, i as int),
                        name@,
                    )[k],
            decreases self.channels@.len() - i,
        {
            let full = self.channels[i].full_id.as_str();
            assert(self.channels@.subrange(0, i + 1).drop_last() =~= self.channels@.subrange(0, i as int));
            let flen = full.unicode_len();
            if flen > nlen && crate::agents::text_equal(full.substring_char(0, nlen), name)
                && full.get_char(nlen) == '.' {
                out.push(self.channels[i].full_id.clone());
            }
            i = i + 1;
        }
        assert(self.channels@.subrange(0, self.channels@.len() as int) =~= self.channels@);
        out
    }

    /// How many channels agent `name` has.
    pub fn count_by_agent(&self, name: &str) -> (r: usize)
        ensures
            r == ids_of_agent(self.channels@, name@).len(),
    {
        self.channel_ids_by_agent(name).len()
    }

    /// The addresses of the channels, skipping `skip` and taking at most `limit`.
    pub fn list_channels(&self, skip: usize, limit: usize) -> (r: Vec<String>)
        ensures
            skip >= self.channels@.len() ==> r@.len() == 0,
            skip < self.channels@.len() ==> r@.len() == (if limit < self.channels@.len() - skip {
                limit as int
            } else {
                self.channels@.len() - skip
            }),
            forall|k: int| 0 <= k < r@.len() ==> #[trigger] r@[k]@ == self.channels@[skip + k].full_id@,
    {
        let mut out: Vec<String> = Vec::new();
        let n = self.channels.len();
        if skip >= n {
            return out;
        }
        let end: usize = if limit < n - skip { skip + limit } else { n };
        let mut i: usize = skip;
        while i < end
            invariant
                skip <= i <= end <= n,
                n == self.channels@.len(),
                out@.len() == i - skip,
                forall|k: int| 0 <= k < out@.len() ==> #[trigger] out@[k]@ == self.channels@[skip + k].full_id@,
            decreases end - i,
        {
            out.push(self.channels[i].full_id.clone());
            i = i + 1;
        }
        out
    }

    /// Removes every channel that the sweeper does not keep at `now` and
    /// returns their addresses.
    pub fn drop_expired(&mut self, now: u64) -> (r: Vec<String>)
        requires
            old(self).wf(),
        ensures
            final(self).wf(),
            final(self).agents == old(self).agents,
            forall|k: u128|
                #[trigger] final(self).has_channel(k) <==> (old(self).has_channel(k) && old(self).sweeper_keeps(
                    old(self).channel(k),
                    now,
                )),
            forall|k: u128| #[trigger] final(self).has_channel(k) ==> final(self).channel(k) == old(self).channel(k),
            r@.len() + final(self).channels@.len() == old(self).channels@.len(),
            old(self).swept_exactly(r@, now),
    {
        let ghost pre = *self;
        let mut pending: Vec<BufferedChannel> = Vec::new();
        std::mem::swap(&mut pending, &mut self.channels);
        let n = pending.len();
        let mut kept: Vec<BufferedChannel> = Vec::new();
        let mut removed: Vec<String> = Vec::new();
        let ghost mut idx: Seq<int> = Seq::empty();
        let ghost mut gone: Seq<int> = Seq::empty();
        let mut lost_total: u64 = 0;
        let mut k: usize = 0;
        while k < n
            invariant
                pre.wf(),
                self.agents == pre.agents,
                k <= n,
                n == pre.channels@.len(),
                pending@ == pre.channels@.subrange(k as int, n as int),
                idx.len() == kept@.len(),
                forall|m: int| 0 <= m < idx.len() ==> 0 <= #[trigger] idx[m] < k,
                forall|a: int, b: int| 0 <= a < b < idx.len() ==> #[trigger] idx[a] < #[trigger] idx[b],
                forall|m: int|
                    0 <= m < idx.len() ==> #[trigger] kept@[m] == pre.channels@[idx[m]]
                        && pre.sweeper_keeps(pre.channels@[idx[m]], now),
                forall|j: int|
                    0 <= j < k && pre.sweeper_keeps(#[trigger] pre.channels@[j], now) ==> exists|
                        m: int,
                    | 0 <= m < idx.len() && idx[m] == j,
                removed@.len() + kept@.len() == k,
                gone.len() == removed@.len(),
                forall|m: int|
                    0 <= m < removed@.len() ==> 0 <= #[trigger] gone[m] < k && !pre.sweeper_keeps(
                        pre.channels@[gone[m]],
                        now,
                    ) && removed@[m]@ == pre.channels@[gone[m]].full_id@,
                forall|a: int, b: int| 0 <= a < b < gone.len() ==> #[trigger] gone[a] < #[trigger] gone[b],
                forall|j: int|
                    0 <= j < k && !pre.sweeper_keeps(#[trigger] pre.channels@[j], now) ==> exists|m: int|
                        0 <= m < gone.len() && gone[m] == j,
            decreases n - k,
        {
            let ch = pending.remove(0);
            assert(ch == pre.channels@[k as int]);
            assert(pending@ =~= pre.channels@.subrange(k + 1, n as int));
            let ghost old_idx = idx;
            let ghost old_kept = kept@;
            let ghost old_removed = removed@;
            if keep_channel(&self.agents, &ch, now) {
                proof {
                    idx = idx.push(k as int);
                }
                kept.push(ch);
                proof {
                    assert forall|m: int| 0 <= m < idx.len() implies #[trigger] kept@[m]
                        == pre.channels@[idx[m]] && pre.sweeper_keeps(pre.channels@[idx[m]], now) by {
                        if m < old_idx.len() {
                            assert(kept@[m] == old_kept[m]);
                            assert(idx[m] == old_idx[m]);
                        }
                    }
                    assert forall|j: int|
                        0 <= j < k + 1 && pre.sweeper_keeps(#[trigger] pre.channels@[j], now) implies exists|
                            m: int,
                        | 0 <= m < idx.len() && idx[m] == j by {
                        if j < k {
                            let m = choose|m: int| 0 <= m < old_idx.len() && old_idx[m] == j;
                            assert(idx[m] == j);
                        } else {
                            assert(idx[old_idx.len() as int] == j);
                        }
                    }
                    assert forall|j: int|
                        0 <= j < k + 1 && !pre.sweeper_keeps(#[trigger] pre.channels@[j], now) implies exists|m: int|
                            0 <= m < gone.len() && gone[m] == j by {
                        if j < k {
                            let m = choose|m: int| 0 <= m < gone.len() && gone[m] == j;
                        }
                    }
                }
            } else {
                removed.push(ch.full_id.clone());
                proof {
                    let old_gone = gone;
                    gone = gone.push(k as int);
                    assert forall|m: int|
                        0 <= m < removed@.len() implies 0 <= #[trigger] gone[m] < k + 1
                            && !pre.sweeper_keeps(pre.channels@[gone[m]], now) && removed@[m]@
                            == pre.channels@[gone[m]].full_id@ by {
                        if m < old_removed.len() {
                            assert(removed@[m] == old_removed[m]);
                            assert(gone[m] == old_gone[m]);
                        }
                    }
                    assert forall|j: int|
                        0 <= j < k + 1 && pre.sweeper_keeps(#[trigger] pre.channels@[j], now) implies exists|
                            m: int,
                        | 0 <= m < idx.len() && idx[m] == j by {
                        if j < k {
                            let m = choose|m: int| 0 <= m < old_idx.len() && old_idx[m] == j;
                        }
                    }
                    assert forall|a: int, b: int| 0 <= a < b < gone.len() implies #[trigger] gone[a] < #[trigger] gone[b] by {
                        if b < old_gone.len() {
                            assert(gone[a] == old_gone[a] && gone[b] == old_gone[b]);
                        } else {
                            assert(gone[a] == old_gone[a]);
                        }
                    }
                    assert forall|j: int|
                        0 <= j < k + 1 && !pre.sweeper_keeps(#[trigger] pre.channels@[j], now) implies exists|m: int|
                            0 <= m < gone.len() && gone[m] == j by {
                        if j < k {
                            let m = choose|m: int| 0 <= m < old_gone.len() && old_gone[m] == j;
                            assert(gone[m] == j);
                        } else {
                            assert(gone[old_gone.len() as int] == j);
                        }
                    }
                }
                let (lost, _lifetime) = ch.dispose(now);
                lost_total = bump(lost_total, lost as u64);
            }
            k = k + 1;
        }
        self.channels = kept;
        proof {
            let post = *self;
            assert forall|a: int, b: int|
                0 <= a < b < post.channels@.len() implies #[trigger] post.channels@[a].short_id
                != #[trigger] post.channels@[b].short_id by {
                assert(pre.channels@[idx[a]].short_id != pre.channels@[idx[b]].short_id);
            }
            assert forall|a: int| 0 <= a < post.channels@.len() implies (
            #[trigger] post.channels@[a]).wf() by {
                assert(pre.channels@[idx[a]].wf());
            }
            assert forall|key: u128| #[trigger] post.has_channel(key) <==> (pre.has_channel(key)
                && pre.sweeper_keeps(pre.channel(key), now)) by {
                if post.has_channel(key) {
                    let m = post.chan_slot(key);
                    pre.lemma_chan_slot(idx[m]);
                }
                if pre.has_channel(key) && pre.sweeper_keeps(pre.channel(key), now) {
                    let j = pre.chan_slot(key);
                    let m = choose|m: int| 0 <= m < idx.len() && idx[m] == j;
                    assert(post.channels@[m].short_id == key);
                }
            }
            assert forall|key: u128| #[trigger] post.has_channel(key) implies post.channel(key)
                == pre.channel(key) by {
                let m = post.chan_slot(key);
                post.lemma_chan_slot(m);
                pre.lemma_chan_slot(idx[m]);
            }
        }
        let ghost mid = *self;
        self.metrics.channel_disposed = bump(self.metrics.channel_disposed, removed.len() as u64);
        self.metrics.messages_lost = bump(self.metrics.messages_lost, lost_total);
        proof {
            assert(self.channels@ == mid.channels@);
            assert forall|key: u128| #[trigger] self.has_channel(key) == mid.has_channel(key) by {}
            assert forall|key: u128| #[trigger] self.channel(key) == mid.channel(key) by {
                assert(self.chan_slot(key) == mid.chan_slot(key));
            }
            assert(pre == *old(self));
            assert(gone.len() == removed@.len());
            assert(pre.swept_exactly(removed@, now));
        }
        removed
    }

    /// The endpoints to tell when channels are deleted, in order.
    pub fn deletion_hooks(&self) -> (r: Vec<String>)
        ensures
            r@.len() == self.webhooks@.len(),
            forall|k: int| 0 <= k < r@.len() ==> #[trigger] r@[k]@ == self.webhooks@[k].endpoint@,
    {
        let mut out: Vec<String> = Vec::new();
        let mut i: usize = 0;
        while i < self.webhooks.len()
            invariant
                i <= self.webhooks@.len(),
                out@.len() == i,
                forall|k: int| 0 <= k < i ==> #[trigger] out@[k]@ == self.webhooks@[k].endpoint@,
            decreases self.webhooks@.len() - i,
        {
            match self.webhooks[i].hook {
                WebHookType::OnChannelDeleted => out.push(self.webhooks[i].endpoint.clone()),
            }
            i = i + 1;
        }
        out
    }

}

} // verus!
