use vstd::prelude::*;

use crate::common::types::Key;

verus! {

/// A key and the instant (milliseconds since the epoch) it was set to expire at.
#[derive(Debug, Clone)]
pub struct Expiry {
    pub expiry_time: u128,
    pub key: Key,
}

impl Expiry {
    pub open spec fn view(self) -> (u128, Seq<u8>) {
        (self.expiry_time, self.key@)
    }
}

/// Latest first, so that the earliest is last.
pub open spec fn sorted_latest_first(q: Seq<(u128, Seq<u8>)>) -> bool {
    forall|i: int, j: int| 0 <= i < j < q.len() ==> q[i].0 >= q[j].0
}

/// A queue with one more element, kept latest first; the new element comes out
/// before those it ties with.
pub open spec fn queue_insert(q: Seq<(u128, Seq<u8>)>, e: (u128, Seq<u8>)) -> Seq<(u128, Seq<u8>)>
    decreases q.len(),
{
    if q.len() == 0 || q.last().0 >= e.0 {
        q.push(e)
    } else {
        queue_insert(q.drop_last(), e).push(q.last())
    }
}

/// Inserting places the element where the earlier ones begin.
pub proof fn lemma_queue_insert_at(q: Seq<(u128, Seq<u8>)>, e: (u128, Seq<u8>), p: int)
    requires
        0 <= p <= q.len(),
        p == 0 || q[p - 1].0 >= e.0,
        forall|j: int| p <= j < q.len() ==> #[trigger] q[j].0 < e.0,
    ensures
        queue_insert(q, e) == q.take(p).push(e) + q.skip(p),
    decreases q.len(),
{
    if q.len() == 0 {
        assert(q.take(p).push(e) + q.skip(p) =~= q.push(e));
    } else if q.last().0 >= e.0 {
        assert(p == q.len());
        assert(q.take(p).push(e) + q.skip(p) =~= q.push(e));
    } else {
        let d = q.drop_last();
        assert(p < q.len());
        lemma_queue_insert_at(d, e, p);
        assert(d.take(p).push(e) + d.skip(p) + seq![q.last()] =~= q.take(p).push(e) + q.skip(p));
    }
}

/// Inserting keeps the order, and adds just the element.
pub proof fn lemma_queue_insert(q: Seq<(u128, Seq<u8>)>, e: (u128, Seq<u8>))
    requires
        sorted_latest_first(q),
    ensures
        sorted_latest_first(queue_insert(q, e)),
        queue_insert(q, e).len() == q.len() + 1,
        forall|x: (u128, Seq<u8>)| #[trigger] queue_insert(q, e).contains(x) <==> (x == e || q.contains(x)),
    decreases q.len(),
{
    if q.len() == 0 {
        assert(queue_insert(q, e) =~= seq![e]);
        assert forall|x: (u128, Seq<u8>)| #[trigger] queue_insert(q, e).contains(x) <==> (x == e || q.contains(x)) by {
            if queue_insert(q, e).contains(x) {
                assert(queue_insert(q, e)[0] == e);
            }
            if x == e {
                assert(queue_insert(q, e)[0] == x);
            }
        }
    } else {
        let r = queue_insert(q, e);
        if q.last().0 >= e.0 {
            assert(r == q.push(e));
            assert forall|x: (u128, Seq<u8>)| #[trigger] r.contains(x) <==> (x == e || q.contains(x)) by {
                if r.contains(x) {
                    let i = choose|i: int| 0 <= i < r.len() && r[i] == x;
                    if i < q.len() {
                        assert(q[i] == x);
                    }
                }
                if x == e {
                    assert(r[q.len() as int] == x);
                }
                if q.contains(x) {
                    let i = choose|i: int| 0 <= i < q.len() && q[i] == x;
                    assert(r[i] == x);
                }
            }
        } else {
            let d = q.drop_last();
            assert(sorted_latest_first(d));
            lemma_queue_insert(d, e);
            let rd = queue_insert(d, e);
            assert(r == rd.push(q.last()));
            assert forall|i: int, j: int| 0 <= i < j < r.len() implies r[i].0 >= r[j].0 by {
                if j == r.len() - 1 {
                    assert(rd.contains(r[i]));
                    if r[i] != e {
                        assert(d.contains(r[i]));
                        let a = choose|a: int| 0 <= a < d.len() && d[a] == r[i];
                        assert(q[a] == r[i]);
                    }
                }
            }
            assert forall|x: (u128, Seq<u8>)| #[trigger] r.contains(x) <==> (x == e || q.contains(x)) by {
                if r.contains(x) {
                    let i = choose|i: int| 0 <= i < r.len() && r[i] == x;
                    if i < rd.len() {
                        assert(rd.contains(x));
                        if x != e {
                            let a = choose|a: int| 0 <= a < d.len() && d[a] == x;
                            assert(q[a] == x);
                        }
                    } else {
                        assert(q[q.len() - 1] == x);
                    }
                }
                if x == e {
                    assert(rd.contains(x));
                    let i = choose|i: int| 0 <= i < rd.len() && rd[i] == x;
                    assert(r[i] == x);
                }
                if q.contains(x) {
                    let a = choose|a: int| 0 <= a < q.len() && q[a] == x;
                    if a == q.len() - 1 {
                        assert(r[r.len() - 1] == x);
                    } else {
                        assert(d[a] == x);
                        assert(rd.contains(x));
                        let i = choose|i: int| 0 <= i < rd.len() && rd[i] == x;
                        assert(r[i] == x);
                    }
                }
            }
        }
    }
}

/// Keys waiting to expire, the earliest first out.
pub struct ExpiryQueue {
    items: Vec<Expiry>,
}

impl ExpiryQueue {
    /// The waiting keys, latest first.
    pub closed spec fn view(self) -> Seq<(u128, Seq<u8>)> {
        Seq::new(self.items@.len(), |i: int| self.items@[i].view())
    }

    pub open spec fn wf(self) -> bool {
        sorted_latest_first(self@)
    }

    pub fn new() -> (r: Self)
        ensures
            r.wf(),
            r@ == Seq::<(u128, Seq<u8>)>::empty(),
    {
        let r = ExpiryQueue { items: Vec::new() };
        assert(r@ =~= Seq::<(u128, Seq<u8>)>::empty());
        r
    }

    pub fn len(&self) -> (r: usize)
        ensures
            r == self@.len(),
    {
        self.items.len()
    }

    /// Adds a key to wait.
    pub fn push(&mut self, e: Expiry)
        requires
            old(self).wf(),
        ensures
            final(self).wf(),
            final(self)@ == queue_insert(old(self)@, e.view()),
    {
        let ghost q = self@;
        let ghost ev = e.view();
        let t = e.expiry_time;
        let mut p: usize = self.items.len();
        while p > 0 && self.items[p - 1].expiry_time < t
            invariant
                p <= self.items@.len(),
                self@ == q,
                forall|j: int| p <= j < q.len() ==> #[trigger] q[j].0 < t,
            decreases p,
        {
            p = p - 1;
        }
        proof {
            lemma_queue_insert_at(q, ev, p as int);
            lemma_queue_insert(q, ev);
        }
        self.items.insert(p, e);
        assert(self@ =~= q.take(p as int).push(ev) + q.skip(p as int));
    }

    /// When the earliest key expires, if any waits.
    pub fn peek_time(&self) -> (r: Option<u128>)
        ensures
            match r {
                Some(t) => self@.len() > 0 && t == self@.last().0,
                None => self@.len() == 0,
            },
    {
        if self.items.len() == 0 {
            None
        } else {
            Some(self.items[self.items.len() - 1].expiry_time)
        }
    }

    /// Takes out the earliest key.
    pub fn pop(&mut self) -> (r: Option<Expiry>)
        requires
            old(self).wf(),
        ensures
            final(self).wf(),
            match r {
                Some(e) => old(self)@.len() > 0 && e.view() == old(self)@.last() && final(self)@ == old(self)@.drop_last(),
                None => old(self)@.len() == 0 && final(self)@ == old(self)@,
            },
    {
        let r = self.items.pop();
        assert(self@ =~= if old(self)@.len() > 0 { old(self)@.drop_last() } else { old(self)@ });
        r
    }
}

} // verus!
