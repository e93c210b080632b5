//! Properties that hold across the operations of the library.
use vstd::prelude::*;
use crate::agents::{is_distributed, is_valid_agent_name, pipes_of, sealed_token, AgentsManagerService};
use crate::channel::{is_fresh, keep_fresh, lemma_keep_fresh, not_expired, BufferedChannel, EVT_BUFFER_SIZE};
use crate::channel_id::{find_char, first_segment, has_second_segment, second_segment, short_of_segment};
use crate::controller::{classify, named_in, text_in, MegaphonePodStatus, ServicePlan};
use crate::pipe::Event;
use crate::service::{is_segment, no_dot, producer_address, MegaphoneService};

verus! {

/// Once a reader holds the drain lease of a channel, the lease is not free:
/// every further attempt to take it is refused as busy until it is given back.
pub proof fn lemma_lease_is_exclusive(c: BufferedChannel)
    requires
        c.rx_locked && c.ts_locked,
    ensures
        !c.lease_free(),
{
}

/// A master inside its warm-up is never eligible for new channels.
pub proof fn lemma_warming_master_not_placeable(reg: AgentsManagerService, name: Seq<char>, now: u64)
    requires
        reg.has(name),
        reg.props(name).status is Master,
        now < reg.props(name).change_ts + reg.warmup_ms,
    ensures
        !reg.placeable(name, now),
{
}

/// A piped agent always has at least one pipe.
pub proof fn lemma_piped_has_pipe(reg: AgentsManagerService, name: Seq<char>)
    requires
        reg.wf(),
        reg.has(name),
        reg.props(name).status is Piped,
    ensures
        pipes_of(reg.props(name).status).len() >= 1,
{
    let i = reg.slot(name);
    assert(pipes_of(reg.agents@[i].props.status).len() >= 1 || !(reg.agents@[i].props.status is Piped));
}

/// After a force-write the queue stays within its capacity, holds only
/// fresh events besides the new one, and ends with the new one.
pub proof fn lemma_force_write_result(queue: Seq<Event>, event: Event, now: u64)
    requires
        0 < queue.len() <= EVT_BUFFER_SIZE,
    ensures
        keep_fresh(queue.drop_first(), now).push(event).len() <= EVT_BUFFER_SIZE,
        keep_fresh(queue.drop_first(), now).push(event).last() == event,
        forall|i: int|
            0 <= i < keep_fresh(queue.drop_first(), now).len() ==> is_fresh(
                #[trigger] keep_fresh(queue.drop_first(), now)[i].timestamp,
                now,
            ),
{
    lemma_keep_fresh(queue.drop_first(), now);
}

proof fn lemma_find_dot(s: Seq<char>, from: int, k: int)
    requires
        0 <= from <= k <= s.len(),
        k == s.len() || s[k] == '.',
        forall|j: int| from <= j < k ==> s[j] != '.',
    ensures
        find_char(s, '.', from) == k,
    decreases k - from,
{
    if from < k {
        lemma_find_dot(s, from + 1, k);
    }
}

/// The consumer address of a created channel and a producer address sealed
/// by its agent both lead to the channel's short form: the first through the
/// digest of its segment of fifty characters, the second through a token of
/// another length that opens under the agent's key.
pub proof fn lemma_addresses_agree(
    agent: Seq<char>,
    seg: Seq<char>,
    token: Seq<char>,
    features: Seq<char>,
    key: Seq<u8>,
    nonce: Seq<u8>,
)
    requires
        is_valid_agent_name(agent),
        is_segment(seg),
        token.len() == 59,
        no_dot(token),
        token == sealed_token(key, nonce, short_of_segment(seg)),
    ensures
        ({
            let consumer = agent + seq!['.'] + seg + seq!['.'] + features;
            has_second_segment(consumer) && second_segment(consumer) == seg && second_segment(
                consumer,
            ).len() == 50
        }),
        ({
            let producer = producer_address(agent, token);
            &&& has_second_segment(producer)
            &&& first_segment(producer) == agent
            &&& second_segment(producer) == token
            &&& second_segment(producer).len() != 50
            &&& second_segment(producer) == sealed_token(key, nonce, short_of_segment(seg))
        }),
{
    let consumer = agent + seq!['.'] + seg + seq!['.'] + features;
    let n = agent.len() as int;
    assert forall|j: int| 0 <= j < n implies consumer[j] != '.' by {
        assert(consumer[j] == agent[j]);
        assert(crate::agents::is_name_char(agent[j]));
    }
    lemma_find_dot(consumer, 0, n);
    assert forall|j: int| n + 1 <= j < n + 1 + 50 implies consumer[j] != '.' by {
        assert(consumer[j] == seg[j - n - 1]);
        assert(crate::random::is_alphanumeric(seg[j - n - 1]));
    }
    assert(consumer[n + 1 + 50] == '.');
    lemma_find_dot(consumer, n + 1, n + 1 + 50);
    assert(consumer.subrange(n + 1, n + 51) =~= seg);
    let producer = producer_address(agent, token);
    assert forall|j: int| 0 <= j < n implies producer[j] != '.' by {
        assert(producer[j] == agent[j]);
        assert(crate::agents::is_name_char(agent[j]));
    }
    lemma_find_dot(producer, 0, n);
    assert forall|j: int| n + 1 <= j < producer.len() implies producer[j] != '.' by {
        assert(producer[j] == token[j - n - 1]);
    }
    lemma_find_dot(producer, n + 1, producer.len() as int);
    assert(producer.subrange(0, n) =~= agent);
    assert(producer.subrange(n + 1, producer.len() as int) =~= token);
}

/// Classification is defined on every pair of facts, and each of its four
/// outcomes occurs.
pub proof fn lemma_classification_total(accepts: bool, satisfies: bool)
    ensures
        classify(accepts, satisfies) == MegaphonePodStatus::Active || classify(accepts, satisfies)
            == MegaphonePodStatus::QueuedForTearDown || classify(accepts, satisfies)
            == MegaphonePodStatus::WarmingUp || classify(accepts, satisfies)
            == MegaphonePodStatus::TearingDown,
        classify(true, true) == MegaphonePodStatus::Active,
        classify(true, false) == MegaphonePodStatus::QueuedForTearDown,
        classify(false, true) == MegaphonePodStatus::WarmingUp,
        classify(false, false) == MegaphonePodStatus::TearingDown,
{
}

/// The services of a cluster after a pass: those that existed or were
/// applied, less those deleted.
pub open spec fn after_pass(existing: Seq<String>, required: Seq<ServicePlan>, deleted: Seq<String>, n: Seq<char>) -> bool {
    (text_in(existing, n) || named_in(required, n)) && !text_in(deleted, n)
}

/// When the deleted services are exactly the existing ones that are not
/// required, every required service exists after the pass and no other
/// labelled service does.
pub proof fn lemma_service_gc(existing: Seq<String>, required: Seq<ServicePlan>, deleted: Seq<String>)
    requires
        forall|k: int| 0 <= k < deleted.len() ==> text_in(existing, #[trigger] deleted[k]@) && !named_in(required, deleted[k]@),
        forall|n: Seq<char>| text_in(existing, n) && !named_in(required, n) ==> #[trigger] text_in(deleted, n),
    ensures
        forall|n: Seq<char>| #[trigger] named_in(required, n) ==> after_pass(existing, required, deleted, n),
        forall|n: Seq<char>| text_in(existing, n) && !named_in(required, n) ==> !#[trigger] after_pass(existing, required, deleted, n),
{
    assert forall|n: Seq<char>| #[trigger] named_in(required, n) implies after_pass(existing, required, deleted, n) by {
        if text_in(deleted, n) {
            let k = choose|k: int| 0 <= k < deleted.len() && #[trigger] deleted[k]@ == n;
        }
    }
}

/// A channel that no reader is recording is kept by the sweeper exactly
/// when it was read within the idle period or its agent is distributed.
pub proof fn lemma_sweeper_rule(svc: MegaphoneService, c: BufferedChannel, now: u64)
    requires
        !c.ts_locked,
    ensures
        svc.sweeper_keeps(c, now) == (not_expired(c.last_read, now) || (svc.agents.has(
            first_segment(c.full_id@),
        ) && is_distributed(svc.agents.props(first_segment(c.full_id@)).status))),
{
}

} // verus!
