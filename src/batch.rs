//! Batch writes: which message of a batch to write next, and the failures to
//! report once the batch is done. Writing, and waiting for room up to the
//! write deadline, is left to the caller.
use vstd::prelude::*;
use crate::error::{code_of, MegaphoneError};
use crate::service::{failure_view, failures_of, skipped_after_timeout, MessageDeliveryFailure};

verus! {

pub open spec fn is_timeout(r: Result<(), MegaphoneError>) -> bool {
    r matches Err(e) && e is Timeout
}

/// The progress of a batch through one channel: the outcomes of the
/// messages written so far.
pub struct BatchCursor {
    pub results: Vec<Result<(), MegaphoneError>>,
    pub total: usize,
    pub timed_out: bool,
}

impl BatchCursor {
    /// At most `total` outcomes; only the last may be a timeout, and
    /// `timed_out` says whether it is one.
    pub open spec fn wf(&self) -> bool {
        &&& self.results@.len() <= self.total
        &&& forall|k: int| 0 <= k < self.results@.len() - 1 ==> !is_timeout(#[trigger] self.results@[k])
        &&& self.timed_out == (self.results@.len() > 0 && is_timeout(self.results@.last()))
    }

    /// The outcomes of the whole batch: those recorded, then `Skipped` for
    /// every message not written.
    pub open spec fn outcomes(&self) -> Seq<Result<(), MegaphoneError>> {
        self.results@ + Seq::new(
            (self.total - self.results@.len()) as nat,
            |i: int| Err::<(), MegaphoneError>(MegaphoneError::Skipped),
        )
    }

    /// A batch of `total` messages, none written yet.
    pub fn new(total: usize) -> (r: Self)
        ensures
            r.wf(),
            r.results@.len() == 0,
            r.total == total,
    {
        BatchCursor { results: Vec::new(), total, timed_out: false }
    }

    /// The position of the message to write next: none once every message
    /// was written or one timed out.
    pub fn next_to_write(&self) -> (r: Option<usize>)
        requires
            self.wf(),
        ensures
            r == (if self.results@.len() < self.total && !self.timed_out {
                Some(self.results@.len() as usize)
            } else {
                None::<usize>
            }),
    {
        if self.results.len() < self.total && !self.timed_out {
            Some(self.results.len())
        } else {
            None
        }
    }

    /// Records the outcome of writing the next message.
    pub fn record(&mut self, outcome: Result<(), MegaphoneError>)
        requires
            old(self).wf(),
            old(self).results@.len() < old(self).total,
            !old(self).timed_out,
        ensures
            final(self).wf(),
            final(self).total == old(self).total,
            final(self).results@ == old(self).results@.push(outcome),
            final(self).timed_out == is_timeout(outcome),
    {
        let t = match &outcome {
            Err(MegaphoneError::Timeout { .. }) => true,
            _ => false,
        };
        let ghost before = self.results@;
        self.results.push(outcome);
        self.timed_out = t;
        proof {
            assert forall|k: int| 0 <= k < self.results@.len() - 1 implies !is_timeout(#[trigger] self.results@[k]) by {
                assert(self.results@[k] == before[k]);
                if k == before.len() - 1 {
                    assert(!is_timeout(before.last()));
                }
            }
        }
    }

    /// The failures of the batch through `channel`: every message whose
    /// outcome is an error, with its position and code, the messages never
    /// written being skipped.
    pub fn finish(&self, channel: &str) -> (r: Vec<MessageDeliveryFailure>)
        requires
            self.wf(),
        ensures
            skipped_after_timeout(self.outcomes()),
            r@.map_values(|f: MessageDeliveryFailure| failure_view(f)) == failures_of(channel@, self.outcomes()),
    {
        let ghost out = self.outcomes();
        let n = self.results.len();
        let mut failures: Vec<MessageDeliveryFailure> = Vec::new();
        let mut i: usize = 0;
        while i < self.total
            invariant
                self.wf(),
                n == self.results@.len(),
                out == self.outcomes(),
                i <= self.total,
                failures@.map_values(|f: MessageDeliveryFailure| failure_view(f)) == failures_of(
                    channel@,
                    out.subrange(0, i as int),
                ),
            decreases self.total - i,
        {
            assert(out.subrange(0, i + 1).drop_last() =~= out.subrange(0, i as int));
            assert(out.subrange(0, i + 1).last() == out[i as int]);
            let ghost fm = failures@;
            let skipped = MegaphoneError::Skipped;
            let err: Option<&MegaphoneError> = if i < n {
                match &self.results[i] {
                    Err(e) => Some(e),
                    Ok(()) => None,
                }
            } else {
                Some(&skipped)
            };
            if let Some(e) = err {
                assert(out[i as int] == Err::<(), MegaphoneError>(*e));
                let failure = MessageDeliveryFailure {
                    channel: String::from_str(channel),
                    index: i,
                    reason: String::from_str(e.code()),
                };
                failures.push(failure);
                assert(failures@.map_values(|f: MessageDeliveryFailure| failure_view(f)) =~= fm.map_values(
                    |f: MessageDeliveryFailure| failure_view(f),
                ).push(failure_view(failure)));
            }
            i = i + 1;
        }
        proof {
            assert(out.subrange(0, self.total as int) =~= out);
            assert forall|a: int, b: int|
                0 <= a < b < out.len() && (#[trigger] out[a] matches Err(e) && e is Timeout) implies (
                #[trigger] out[b] matches Err(f) && f is Skipped) by {
                assert(a < n);
                assert(out[a] == self.results@[a]);
                assert(a == n - 1);
            }
        }
        failures
    }
}

} // verus!
