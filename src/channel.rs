//! A channel: a bounded FIFO of events with an idle timestamp and a drain
//! lease that at most one reader holds at a time.
use vstd::prelude::*;
use crate::error::MegaphoneError;
use crate::pipe::Event;

verus! {

/// How many events a channel buffers.
pub const EVT_BUFFER_SIZE: usize = 100;

/// How long, in milliseconds, an event or an unread channel stays alive.
pub const MAX_IDLE_MILLIS: u64 = 60_000;

/// An event written at `ts` is still fresh at `now`.
pub open spec fn is_fresh(ts: u64, now: u64) -> bool {
    ts + MAX_IDLE_MILLIS > now
}

/// The fresh events of a sequence, in order.
pub open spec fn keep_fresh(s: Seq<Event>, now: u64) -> Seq<Event>
    decreases s.len(),
{
    if s.len() == 0 {
        Seq::empty()
    } else if is_fresh(s.last().timestamp, now) {
        keep_fresh(s.drop_last(), now).push(s.last())
    } else {
        keep_fresh(s.drop_last(), now)
    }
}

/// A channel read at `last_read` has not expired at `now`.
pub open spec fn not_expired(last_read: u64, now: u64) -> bool {
    last_read + MAX_IDLE_MILLIS >= now
}

pub proof fn lemma_keep_fresh(s: Seq<Event>, now: u64)
    ensures
        keep_fresh(s, now).len() <= s.len(),
        forall|i: int|
            0 <= i < keep_fresh(s, now).len() ==> is_fresh(
                #[trigger] keep_fresh(s, now)[i].timestamp,
                now,
            ),
    decreases s.len(),
{
    if s.len() > 0 {
        lemma_keep_fresh(s.drop_last(), now);
    }
}

pub struct BufferedChannel {
    pub full_id: String,
    pub short_id: u128,
    pub queue: Vec<Event>,
    pub last_read: u64,
    pub created_ts: u64,
    /// Held by the reader that drains the queue.
    pub rx_locked: bool,
    /// Held by the reader until it records the time of its read.
    pub ts_locked: bool,
}

impl BufferedChannel {
    pub open spec fn wf(&self) -> bool {
        self.queue@.len() <= EVT_BUFFER_SIZE
    }

    pub open spec fn lease_free(&self) -> bool {
        !self.rx_locked && !self.ts_locked
    }

    pub fn new(full_id: String, short_id: u128, now: u64) -> (r: Self)
        ensures
            r.wf(),
            r.full_id@ == full_id@,
            r.short_id == short_id,
            r.queue@.len() == 0,
            r.last_read == now,
            r.created_ts == now,
            r.lease_free(),
    {
        BufferedChannel {
            full_id,
            short_id,
            queue: Vec::new(),
            last_read: now,
            created_ts: now,
            rx_locked: false,
            ts_locked: false,
        }
    }

    pub fn is_full(&self) -> (r: bool)
        ensures
            r == (self.queue@.len() >= EVT_BUFFER_SIZE),
    {
        self.queue.len() >= EVT_BUFFER_SIZE
    }

    /// Queues an event into a channel that has room.
    pub fn push(&mut self, event: Event)
        requires
            old(self).queue@.len() < EVT_BUFFER_SIZE,
        ensures
            final(self).wf(),
            final(self).queue@ == old(self).queue@.push(event),
            final(self).full_id == old(self).full_id,
            final(self).short_id == old(self).short_id,
            final(self).last_read == old(self).last_read,
            final(self).created_ts == old(self).created_ts,
            final(self).rx_locked == old(self).rx_locked,
            final(self).ts_locked == old(self).ts_locked,
    {
        self.queue.push(event);
    }

    /// Admits `event` into a channel that has no room: the oldest event is
    /// discarded, then every event no longer fresh at `now`, and `event` is
    /// queued after the survivors. Returns how many events were lost. Fails,
    /// changing nothing, while a reader drains the channel.
    pub fn force_write(&mut self, event: Event, now: u64) -> (r: Result<usize, MegaphoneError>)
        requires
            old(self).wf(),
            old(self).queue@.len() > 0,
        ensures
            final(self).wf(),
            old(self).rx_locked ==> (r matches Err(e) && e is InternalError) && *final(self) == *old(self),
            !old(self).rx_locked ==> r is Ok,
            r matches Ok(lost) ==> final(self).queue@ == keep_fresh(old(self).queue@.drop_first(), now).push(event)
                && lost == 1 + (old(self).queue@.len() - 1 - keep_fresh(
                old(self).queue@.drop_first(),
                now,
            ).len()),
            final(self).full_id == old(self).full_id,
            final(self).short_id == old(self).short_id,
            final(self).last_read == old(self).last_read,
            final(self).created_ts == old(self).created_ts,
            final(self).rx_locked == old(self).rx_locked,
            final(self).ts_locked == old(self).ts_locked,
    {
        if self.rx_locked {
            return Err(MegaphoneError::InternalError(String::from_str("Cannot lock channel rx")));
        }
        let ghost rest = old(self).queue@.drop_first();
        let mut pending: Vec<Event> = Vec::new();
        std::mem::swap(&mut pending, &mut self.queue);
        let _oldest = pending.remove(0);
        assert(pending@ == rest);
        let n = pending.len();
        let mut kept: Vec<Event> = Vec::new();
        let mut lost: usize = 1;
        let mut k: usize = 0;
        proof {
            lemma_keep_fresh(rest, now);
        }
        while k < n
            invariant
                k <= n,
                n == rest.len(),
                n < EVT_BUFFER_SIZE,
                pending@ == rest.subrange(k as int, n as int),
                kept@ == keep_fresh(rest.subrange(0, k as int), now),
                kept@.len() <= k,
                lost == 1 + (k - kept@.len()),
            decreases n - k,
        {
            let e = pending.remove(0);
            assert(e == rest[k as int]);
            assert(rest.subrange(0, k + 1).last() == rest[k as int]);
            assert(rest.subrange(0, k + 1).drop_last() =~= rest.subrange(0, k as int));
            assert(pending@ =~= rest.subrange(k + 1, n as int));
            if now < MAX_IDLE_MILLIS || e.timestamp > now - MAX_IDLE_MILLIS {
                kept.push(e);
            } else {
                lost = lost + 1;
            }
            k = k + 1;
        }
        assert(rest.subrange(0, n as int) =~= rest);
        kept.push(event);
        self.queue = kept;
        Ok(lost)
    }

    /// Takes the drain lease: both locks, or `Busy` when either is held.
    pub fn try_acquire_lease(&mut self) -> (r: Result<(), MegaphoneError>)
        ensures
            !old(self).lease_free() ==> (r matches Err(e) && e is Busy) && *final(self) == *old(self),
            old(self).lease_free() ==> r is Ok && final(self).rx_locked && final(self).ts_locked,
            final(self).queue == old(self).queue,
            final(self).full_id == old(self).full_id,
            final(self).short_id == old(self).short_id,
            final(self).last_read == old(self).last_read,
            final(self).created_ts == old(self).created_ts,
    {
        if self.rx_locked {
            return Err(MegaphoneError::Busy);
        }
        if self.ts_locked {
            return Err(MegaphoneError::Busy);
        }
        self.rx_locked = true;
        self.ts_locked = true;
        Ok(())
    }

    /// The oldest queued event, taken out of the queue.
    pub fn next_event(&mut self) -> (r: Option<Event>)
        requires
            old(self).wf(),
        ensures
            final(self).wf(),
            old(self).queue@.len() == 0 ==> r is None && *final(self) == *old(self),
            old(self).queue@.len() > 0 ==> r == Some(old(self).queue@[0]) && final(self).queue@
                == old(self).queue@.drop_first(),
            final(self).full_id == old(self).full_id,
            final(self).short_id == old(self).short_id,
            final(self).last_read == old(self).last_read,
            final(self).created_ts == old(self).created_ts,
            final(self).rx_locked == old(self).rx_locked,
            final(self).ts_locked == old(self).ts_locked,
    {
        if self.queue.len() == 0 {
            None
        } else {
            Some(self.queue.remove(0))
        }
    }

    /// Ends a read at `now`: records the time and gives the lease back.
    pub fn release_lease(&mut self, now: u64)
        ensures
            final(self).last_read == now,
            final(self).lease_free(),
            final(self).queue == old(self).queue,
            final(self).full_id == old(self).full_id,
            final(self).short_id == old(self).short_id,
            final(self).created_ts == old(self).created_ts,
    {
        self.last_read = now;
        self.rx_locked = false;
        self.ts_locked = false;
    }

    /// Whether the sweeper keeps the channel at `now`: while a reader holds
    /// the timestamp the channel is kept; otherwise it is kept when read
    /// within the idle period or when its agent is distributed.
    pub fn keep_at(&self, now: u64, distributed: bool) -> (r: bool)
        ensures
            r == (self.ts_locked || not_expired(self.last_read, now) || distributed),
    {
        self.ts_locked || (self.last_read as u128) + (MAX_IDLE_MILLIS as u128) >= (now as u128)
            || distributed
    }

    /// The events lost when the channel is disposed of, and how long it lived.
    pub fn dispose(&self, now: u64) -> (r: (usize, u64))
        ensures
            r.0 == self.queue@.len(),
            r.1 == (if now >= self.created_ts {
                now - self.created_ts
            } else {
                0
            }),
    {
        let lifetime = if now >= self.created_ts {
            now - self.created_ts
        } else {
            0
        };
        (self.queue.len(), lifetime)
    }
}

} // verus!
