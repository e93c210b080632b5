//! A fixed-capacity ring of recently seen event identifiers, used by readers
//! to drop events they were already given.
use vstd::prelude::*;
use crate::agents::text_equal;

verus! {

pub struct CircularBuffer {
    pub buffer: Vec<String>,
    pub capacity: usize,
    pub idx: usize,
}

impl CircularBuffer {
    /// The identifiers held, oldest slot first.
    pub open spec fn items(&self) -> Seq<String> {
        self.buffer@
    }

    pub open spec fn size(&self) -> nat {
        self.capacity as nat
    }

    pub open spec fn wf(&self) -> bool {
        &&& self.capacity > 0
        &&& self.buffer@.len() <= self.capacity
        &&& self.idx < self.capacity
        &&& self.buffer@.len() < self.capacity ==> self.idx == self.buffer@.len()
    }

    /// The identifiers held, oldest first: the last ones pushed, at most
    /// `capacity` of them.
    pub open spec fn recent(&self) -> Seq<String> {
        if self.buffer@.len() < self.capacity {
            self.buffer@
        } else {
            self.buffer@.subrange(self.idx as int, self.buffer@.len() as int) + self.buffer@.subrange(
                0,
                self.idx as int,
            )
        }
    }

    /// Whether a text is among the last ones pushed.
    pub open spec fn recently_seen(&self, elem: Seq<char>) -> bool {
        exists|i: int| 0 <= i < self.recent().len() && #[trigger] self.recent()[i]@ == elem
    }

    /// Whether the ring holds a text.
    pub open spec fn holds(&self, elem: Seq<char>) -> bool {
        exists|i: int| 0 <= i < self.items().len() && #[trigger] self.items()[i]@ == elem
    }

    pub fn new(size: usize) -> (r: Self)
        requires
            size > 0,
        ensures
            r.wf(),
            r.items().len() == 0,
            r.size() == size,
    {
        CircularBuffer { buffer: Vec::new(), capacity: size, idx: 0 }
    }

    /// Records an identifier, overwriting the oldest one once the ring is full.
    pub fn push(&mut self, elem: String)
        requires
            old(self).wf(),
        ensures
            final(self).wf(),
            final(self).size() == old(self).size(),
            final(self).holds(elem@),
            final(self).items().len() == (if old(self).items().len() < old(self).size() {
                old(self).items().len() + 1
            } else {
                old(self).size()
            }),
            old(self).items().len() < old(self).size() ==> final(self).items() == old(self).items().push(elem),
            old(self).items().len() >= old(self).size() ==> final(self).items() == old(self).items().update(
                old(self).idx as int,
                elem,
            ),
            final(self).idx as int == (old(self).idx + 1) % (old(self).capacity as int),
            old(self).items().len() < old(self).size() ==> final(self).recent() == old(self).recent().push(elem),
            old(self).items().len() >= old(self).size() ==> final(self).recent() == old(self).recent().drop_first().push(elem),
    {
        let ghost e = elem@;
        if self.buffer.len() < self.capacity {
            self.buffer.push(elem);
            assert(self.items()[self.buffer@.len() - 1]@ == e);
        } else {
            let _oldest = self.buffer.remove(self.idx);
            self.buffer.insert(self.idx, elem);
            assert(self.buffer@ =~= old(self).buffer@.update(old(self).idx as int, elem));
            assert(self.items()[self.idx as int]@ == e);
        }
        self.idx = if self.idx + 1 == self.capacity {
            0
        } else {
            self.idx + 1
        };
        proof {
            let ob = old(self).buffer@;
            let oi = old(self).idx as int;
            let c = old(self).capacity as int;
            let x = oi + 1;
            if x == c {
                assert(x % c == 0) by (nonlinear_arith)
                    requires
                        x == c,
                        c > 0,
                ;
            } else {
                assert(x % c == x) by (nonlinear_arith)
                    requires
                        0 <= x < c,
                ;
            }
            if ob.len() < c {
                if ob.len() + 1 == c {
                    assert(self.idx == 0);
                    assert(self.buffer@.subrange(0, self.buffer@.len() as int) =~= self.buffer@);
                    assert(self.recent() =~= self.buffer@);
                }
                assert(self.recent() =~= old(self).recent().push(elem));
            } else {
                let nb = self.buffer@;
                let ni = self.idx as int;
                if oi + 1 == c {
                    assert(ni == 0);
                    assert(nb.subrange(0, c) =~= nb);
                    assert(old(self).recent() =~= ob.subrange(oi, c) + ob.subrange(0, oi));
                    assert(self.recent() =~= old(self).recent().drop_first().push(elem));
                } else {
                    assert(ni == oi + 1);
                    assert(self.recent() =~= old(self).recent().drop_first().push(elem));
                }
            }
        }
        assert(self.items()[if old(self).buffer@.len() < old(self).capacity {
            old(self).buffer@.len() as int
        } else {
            old(self).idx as int
        }]@ == e);
    }

    /// Whether the ring holds `elem`.
    pub fn contains(&self, elem: &String) -> (r: bool)
        requires
            self.wf(),
        ensures
            r == self.holds(elem@),
            r == self.recently_seen(elem@),
    {
        proof {
            let b = self.buffer@;
            let i0 = self.idx as int;
            if b.len() >= self.capacity {
                let rc = self.recent();
                assert(rc.len() == b.len());
                assert forall|k: int| 0 <= k < b.len() implies #[trigger] b[k] == rc[if k >= i0 { k - i0 } else { k + b.len() - i0 }] by {}
                assert forall|k: int| 0 <= k < rc.len() implies #[trigger] rc[k] == b[if k < b.len() - i0 { k + i0 } else { k - (b.len() - i0) }] by {}
                if self.holds(elem@) {
                    let k = choose|k: int| 0 <= k < b.len() && #[trigger] self.items()[k]@ == elem@;
                    let j = if k >= i0 { k - i0 } else { k + b.len() - i0 };
                    assert(self.recent()[j]@ == elem@);
                }
                if self.recently_seen(elem@) {
                    let k = choose|k: int| 0 <= k < rc.len() && #[trigger] rc[k]@ == elem@;
                    let j = if k < b.len() - i0 { k + i0 } else { k - (b.len() - i0) };
                    assert(self.items()[j]@ == elem@);
                }
            } else {
                assert(self.recent() == b);
                if self.holds(elem@) {
                    let k = choose|k: int| 0 <= k < b.len() && #[trigger] self.items()[k]@ == elem@;
                    assert(self.recent()[k]@ == elem@);
                }
                if self.recently_seen(elem@) {
                    let k = choose|k: int| 0 <= k < b.len() && #[trigger] self.recent()[k]@ == elem@;
                    assert(self.items()[k]@ == elem@);
                }
            }
            assert(self.holds(elem@) == self.recently_seen(elem@));
        }
        let mut i: usize = 0;
        while i < self.buffer.len()
            invariant
                i <= self.buffer@.len(),
                self.holds(elem@) == self.recently_seen(elem@),
                forall|j: int| 0 <= j < i ==> #[trigger] self.buffer@[j]@ != elem@,
            decreases self.buffer@.len() - i,
        {
            if text_equal(self.buffer[i].as_str(), elem.as_str()) {
                assert(self.items()[i as int]@ == elem@);
                assert(self.holds(elem@));
                return true;
            }
            i = i + 1;
        }
        false
    }

    /// Lets an event through the first time its identifier is seen: false
    /// for a repeat, which leaves the ring as it was.
    pub fn accept_once(&mut self, id: String) -> (r: bool)
        requires
            old(self).wf(),
        ensures
            final(self).wf(),
            r == !old(self).holds(id@),
            !r ==> *final(self) == *old(self),
            final(self).holds(id@),
    {
        if self.contains(&id) {
            false
        } else {
            self.push(id);
            true
        }
    }
}

} // verus!
