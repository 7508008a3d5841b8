//! A singly-linked FIFO queue that keeps, beside the exclusively owned
//! head-to-tail chain, a non-owning tail position for constant-time append.
//! The chain lives in a single owning arena (a vector of slots) and links are
//! plain slot indices, so the tail position is an index that is only ever
//! read, never used to release anything. The operation that empties the
//! queue also invalidates the tail position in the same step — left stale,
//! it would corrupt the next push — and well-formedness ties the position
//! to the live chain at all times, so a stale one cannot arise.

use vstd::prelude::*;

verus! {

struct Node<T> {
    val: T,
    next: Option<usize>,
}

/// A FIFO queue. Its abstract value is the sequence of stored elements from
/// the front (next to be popped) to the back (most recently pushed).
pub struct List<T> {
    slots: Vec<Option<Node<T>>>,
    head: Option<usize>,
    tail: Option<usize>,
    free: Vec<usize>,
    order: Ghost<Seq<usize>>,
}

/// Moves the node out of slot `i`, leaving the slot empty.
fn take_slot<T>(slots: &mut Vec<Option<Node<T>>>, i: usize) -> (r: Option<Node<T>>)
    requires
        i < old(slots)@.len(),
    ensures
        r == old(slots)@[i as int],
        final(slots)@ == old(slots)@.update(i as int, None::<Node<T>>),
{
    let p = &mut slots[i];
    p.take()
}

/// Stores `v` in slot `i`.
fn set_slot<T>(slots: &mut Vec<Option<Node<T>>>, i: usize, v: Option<Node<T>>)
    requires
        i < old(slots)@.len(),
    ensures
        final(slots)@ == old(slots)@.update(i as int, v),
{
    let p = &mut slots[i];
    *p = v;
}

impl<T> List<T> {
    /// The slot indices of the live chain, in queue order.
    spec fn chain(&self) -> Seq<usize> {
        self.order@
    }

    /// Well-formedness of the arena: the chain indices are in range,
    /// distinct, and point at occupied slots linked front to back; the head
    /// and tail positions exist exactly when the queue is non-empty and then
    /// name the first and last chain slot; the free indices are in range,
    /// distinct, and point at empty slots; and every slot is either on the
    /// chain or free.
    pub closed spec fn wf(&self) -> bool {
        &&& forall|k: int|
            0 <= k < self.chain().len() ==> (#[trigger] self.chain()[k]) < self.slots@.len()
        &&& forall|k: int|
            0 <= k < self.chain().len() ==> (#[trigger] self.slots@[self.chain()[k] as int]) is Some
        &&& self.chain().no_duplicates()
        &&& self.head == (if self.chain().len() == 0 {
            Option::<usize>::None
        } else {
            Some(self.chain()[0])
        })
        &&& self.tail == (if self.chain().len() == 0 {
            Option::<usize>::None
        } else {
            Some(self.chain().last())
        })
        &&& forall|k: int|
            0 <= k < self.chain().len() - 1 ==> (#[trigger] self.slots@[self.chain()[k] as int])->0.next
                == Some(self.chain()[k + 1])
        &&& self.chain().len() > 0 ==> self.slots@[self.chain().last() as int]->0.next is None
        &&& forall|k: int|
            0 <= k < self.free@.len() ==> (#[trigger] self.free@[k]) < self.slots@.len()
        &&& forall|k: int|
            0 <= k < self.free@.len() ==> (#[trigger] self.slots@[self.free@[k] as int]) is None
        &&& self.free@.no_duplicates()
        &&& self.slots@.len() == self.chain().len() + self.free@.len()
    }
}

impl<T> View for List<T> {
    type V = Seq<T>;

    closed spec fn view(&self) -> Seq<T> {
        Seq::new(self.chain().len(), |k: int| self.slots@[self.chain()[k] as int]->0.val)
    }
}

impl<T> List<T> {
    /// Creates an empty queue.
    pub fn new() -> (r: Self)
        ensures
            r.wf(),
            r@ == Seq::<T>::empty(),
    {
        let r = List {
            slots: Vec::new(),
            head: None,
            tail: None,
            free: Vec::new(),
            order: Ghost(Seq::empty()),
        };
        proof {
            assert(r@ =~= Seq::<T>::empty());
        }
        r
    }

    /// Appends `val` at the back in constant time, using the retained tail
    /// position: when the queue was empty the new node becomes both front
    /// and back, otherwise the current back node is linked to the new one.
    /// The tail position is updated in the same operation.
    pub fn push(&mut self, val: T)
        requires
            old(self).wf(),
        ensures
            final(self).wf(),
            final(self)@ == old(self)@.push(val),
    {
        let node = Node { val, next: None };
        let idx: usize;
        match self.free.pop() {
            Some(i) => {
                idx = i;
                set_slot(&mut self.slots, i, Some(node));
            }
            None => {
                idx = self.slots.len();
                self.slots.push(Some(node));
            }
        }
        proof {
            assert forall|k: int| 0 <= k < old(self).chain().len() implies #[trigger] old(
                self,
            ).chain()[k] != idx by {
                assert(old(self).slots@[old(self).chain()[k] as int] is Some);
            }
        }
        match self.tail {
            None => {
                self.head = Some(idx);
            }
            Some(t) => {
                proof {
                    assert(old(self).chain().len() > 0);
                    assert(t == old(self).chain().last());
                }
                let mut tail_node = take_slot(&mut self.slots, t).unwrap();
                tail_node.next = Some(idx);
                set_slot(&mut self.slots, t, Some(tail_node));
            }
        }
        self.tail = Some(idx);
        proof {
            self.order@ = self.order@.push(idx);
            let ch0 = old(self).chain();
            let ch1 = self.chain();
            let s1 = self.slots@;
            assert(ch1 == ch0.push(idx));
            assert forall|k: int| 0 <= k < ch1.len() implies (#[trigger] ch1[k]) < s1.len() by {
                if k < ch0.len() {
                    assert(ch0[k] < old(self).slots@.len());
                }
            }
            assert forall|k: int| 0 <= k < ch1.len() implies (#[trigger] s1[ch1[k] as int])
                is Some by {
                if k < ch0.len() {
                    assert(old(self).slots@[ch0[k] as int] is Some);
                }
            }
            assert(ch1.no_duplicates()) by {
                assert forall|k1: int, k2: int|
                    0 <= k1 < ch1.len() && 0 <= k2 < ch1.len() && k1 != k2 implies ch1[k1]
                    != ch1[k2] by {
                    if k1 < ch0.len() && k2 < ch0.len() {
                        assert(ch0[k1] != ch0[k2]);
                    }
                }
            }
            assert forall|k: int|
                0 <= k < ch1.len() - 1 implies (#[trigger] s1[ch1[k] as int])->0.next == Some(
                ch1[k + 1],
            ) by {
                if k < ch0.len() - 1 {
                    assert(old(self).slots@[ch0[k] as int]->0.next == Some(ch0[k + 1]));
                    assert(ch0[k] != ch0.last());
                }
            }
            assert forall|k: int| 0 <= k < self.free@.len() implies (#[trigger] s1[self.free@[k] as int])
                is None by {
                assert(old(self).slots@[self.free@[k] as int] is None);
            }
            assert(final(self).wf());
            assert(final(self)@ =~= old(self)@.push(val));
        }
    }

    /// Removes and returns the front element in constant time; `None` on an
    /// empty queue, which is left unchanged. When the last element leaves,
    /// the tail position is invalidated in the same operation, so a later
    /// push starts from a state identical to a freshly constructed queue.
    pub fn pop(&mut self) -> (r: Option<T>)
        requires
            old(self).wf(),
        ensures
            final(self).wf(),
            old(self)@.len() == 0 ==> r is None && final(self)@ == old(self)@,
            old(self)@.len() > 0 ==> r == Some(old(self)@[0])
                && final(self)@ == old(self)@.drop_first(),
    {
        match self.head {
            None => None,
            Some(h) => {
                let node = take_slot(&mut self.slots, h).unwrap();
                self.head = node.next;
                if node.next.is_none() {
                    self.tail = None;
                }
                self.free.push(h);
                proof {
                    self.order@ = self.order@.drop_first();
                    assert(final(self)@ =~= old(self)@.drop_first());
                }
                Some(node.val)
            }
        }
    }
}

/// The view a queue with view `s` has after the values of `vs` have been
/// pushed onto it one by one, in order.
pub open spec fn push_all<T>(s: Seq<T>, vs: Seq<T>) -> Seq<T>
    decreases vs.len(),
{
    if vs.len() == 0 {
        s
    } else {
        push_all(s.push(vs[0]), vs.drop_first())
    }
}

/// The view a queue with view `s` has after `n` pops: each pop removes the
/// front element of a non-empty queue and leaves an empty queue unchanged.
pub open spec fn pop_n<T>(s: Seq<T>, n: nat) -> Seq<T>
    decreases n,
{
    if n == 0 || s.len() == 0 {
        s
    } else {
        pop_n(s.drop_first(), (n - 1) as nat)
    }
}

/// Law: pushing the values of `vs` in order onto a queue holding `s` leaves
/// the queue holding `s` followed by `vs`. Since `pop` returns the elements
/// of the view front to back, a drained queue yields its elements in exactly
/// the order they were pushed: first in, first out.
pub proof fn lemma_push_all_appends<T>(s: Seq<T>, vs: Seq<T>)
    ensures
        push_all(s, vs) == s + vs,
    decreases vs.len(),
{
    if vs.len() == 0 {
        assert(s + vs =~= s);
    } else {
        lemma_push_all_appends(s.push(vs[0]), vs.drop_first());
        assert(s.push(vs[0]) + vs.drop_first() =~= s + vs);
    }
}

/// Law: popping as many times as a queue holds elements drains it, and the
/// resulting view is the empty one a freshly constructed queue has.
pub proof fn lemma_pop_all_drains<T>(s: Seq<T>)
    ensures
        pop_n(s, s.len()) == Seq::<T>::empty(),
    decreases s.len(),
{
    if s.len() > 0 {
        lemma_pop_all_drains(s.drop_first());
    } else {
        assert(s =~= Seq::<T>::empty());
    }
}

/// Law: a queue drained to the empty view behaves exactly like a freshly
/// constructed queue: pushing any values into it yields the same view, so no
/// stale tail state can show through.
pub proof fn lemma_drained_is_fresh<T>(s: Seq<T>, vs: Seq<T>)
    requires
        s.len() == 0,
    ensures
        push_all(s, vs) == push_all(Seq::<T>::empty(), vs),
{
    assert(s =~= Seq::<T>::empty());
}

/// Law: starting from an empty queue, pushing the values of `vs` and then
/// popping the same number of times leaves the queue empty again.
pub proof fn lemma_round_trip<T>(vs: Seq<T>)
    ensures
        pop_n(push_all(Seq::<T>::empty(), vs), vs.len()) == Seq::<T>::empty(),
{
    lemma_push_all_appends(Seq::<T>::empty(), vs);
    assert(push_all(Seq::<T>::empty(), vs) =~= vs);
    lemma_pop_all_drains(vs);
}

} // verus!
