//! A doubly-linked deque. Every interior node is reachable from two
//! directions, so instead of reference-counted handles with run-time borrow
//! checking, the nodes live in a single owning arena (a vector of slots) and
//! both links are plain slot indices. That keeps each node's forward link in
//! agreement with its successor's backward link under verification, and it
//! sidesteps reference-counting cycles entirely: tearing the arena down
//! frees the slots one by one, never through a recursive chain of owners.

use vstd::prelude::*;

verus! {

struct Node<T> {
    val: T,
    prev: Option<usize>,
    next: Option<usize>,
}

/// A deque. Its abstract value is the sequence of stored elements from the
/// front to the back.
pub struct List<T> {
    slots: Vec<Option<Node<T>>>,
    head: Option<usize>,
    tail: Option<usize>,
    free: Vec<usize>,
    order: Ghost<Seq<usize>>,
}

/// Moves the node out of slot `i`, leaving the slot empty.
fn take_slot<T>(slots: &mut Vec<Option<Node<T>>>, i: usize) -> (r: Option<Node<T>>)
    requires
        i < old(slots)@.len(),
    ensures
        r == old(slots)@[i as int],
        final(slots)@ == old(slots)@.update(i as int, None::<Node<T>>),
{
    let p = &mut slots[i];
    p.take()
}

/// Stores `v` in slot `i`.
fn set_slot<T>(slots: &mut Vec<Option<Node<T>>>, i: usize, v: Option<Node<T>>)
    requires
        i < old(slots)@.len(),
    ensures
        final(slots)@ == old(slots)@.update(i as int, v),
{
    let p = &mut slots[i];
    *p = v;
}

impl<T> List<T> {
    /// The slot indices of the live chain, in front-to-back order.
    spec fn chain(&self) -> Seq<usize> {
        self.order@
    }

    /// Well-formedness of the arena: the chain indices are in range,
    /// distinct, and point at occupied slots; each node's forward link
    /// agrees with its successor's backward link (the front node has no
    /// backward link and the back node no forward link); the head and tail
    /// positions exist exactly when the deque is non-empty and then name the
    /// first and last chain slot; the free indices are in range, distinct,
    /// and point at empty slots; and every slot is either on the chain or
    /// free.
    pub closed spec fn wf(&self) -> bool {
        &&& forall|k: int|
            0 <= k < self.chain().len() ==> (#[trigger] self.chain()[k]) < self.slots@.len()
        &&& forall|k: int|
            0 <= k < self.chain().len() ==> (#[trigger] self.slots@[self.chain()[k] as int]) is Some
        &&& self.chain().no_duplicates()
        &&& self.head == (if self.chain().len() == 0 {
            Option::<usize>::None
        } else {
            Some(self.chain()[0])
        })
        &&& self.tail == (if self.chain().len() == 0 {
            Option::<usize>::None
        } else {
            Some(self.chain().last())
        })
        &&& forall|k: int|
            0 <= k < self.chain().len() - 1 ==> (#[trigger] self.slots@[self.chain()[k] as int])->0.next
                == Some(self.chain()[k + 1])
        &&& self.chain().len() > 0 ==> self.slots@[self.chain().last() as int]->0.next is None
        &&& forall|k: int|
            1 <= k < self.chain().len() ==> (#[trigger] self.slots@[self.chain()[k] as int])->0.prev
                == Some(self.chain()[k - 1])
        &&& self.chain().len() > 0 ==> self.slots@[self.chain()[0] as int]->0.prev is None
        &&& forall|k: int|
            0 <= k < self.free@.len() ==> (#[trigger] self.free@[k]) < self.slots@.len()
        &&& forall|k: int|
            0 <= k < self.free@.len() ==> (#[trigger] self.slots@[self.free@[k] as int]) is None
        &&& self.free@.no_duplicates()
        &&& self.slots@.len() == self.chain().len() + self.free@.len()
    }
}

impl<T> View for List<T> {
    type V = Seq<T>;

    closed spec fn view(&self) -> Seq<T> {
        Seq::new(self.chain().len(), |k: int| self.slots@[self.chain()[k] as int]->0.val)
    }
}

impl<T> List<T> {
    /// Creates an empty deque.
    pub fn new() -> (r: Self)
        ensures
            r.wf(),
            r@ == Seq::<T>::empty(),
    {
        let r = List {
            slots: Vec::new(),
            head: None,
            tail: None,
            free: Vec::new(),
            order: Ghost(Seq::empty()),
        };
        proof {
            assert(r@ =~= Seq::<T>::empty());
        }
        r
    }

    /// Links a new node holding `val` in at the front in constant time,
    /// fixing up the old front node's backward link, or both end positions
    /// when the deque was empty.
    pub fn push_front(&mut self, val: T)
        requires
            old(self).wf(),
        ensures
            final(self).wf(),
            final(self)@ == seq![val] + old(self)@,
    {
        let old_head = self.head;
        let node = Node { val, prev: None, next: old_head };
        let idx: usize;
        match self.free.pop() {
            Some(i) => {
                idx = i;
                set_slot(&mut self.slots, i, Some(node));
            }
            None => {
                idx = self.slots.len();
                self.slots.push(Some(node));
            }
        }
        proof {
            assert forall|k: int| 0 <= k < old(self).chain().len() implies #[trigger] old(
                self,
            ).chain()[k] != idx by {
                assert(old(self).slots@[old(self).chain()[k] as int] is Some);
            }
        }
        match old_head {
            None => {
                self.tail = Some(idx);
            }
            Some(h) => {
                proof {
                    assert(old(self).chain().len() > 0);
                    assert(h == old(self).chain()[0]);
                }
                let mut head_node = take_slot(&mut self.slots, h).unwrap();
                head_node.prev = Some(idx);
                set_slot(&mut self.slots, h, Some(head_node));
            }
        }
        self.head = Some(idx);
        proof {
            self.order@ = seq![idx] + self.order@;
            let ch0 = old(self).chain();
            let ch1 = self.chain();
            let s1 = self.slots@;
            assert(ch1 == seq![idx] + ch0);
            assert forall|k: int| 0 <= k < ch1.len() implies (#[trigger] ch1[k]) < s1.len() by {
                if k >= 1 {
                    assert(ch0[k - 1] < old(self).slots@.len());
                }
            }
            assert forall|k: int| 0 <= k < ch1.len() implies (#[trigger] s1[ch1[k] as int])
                is Some by {
                if k >= 1 {
                    assert(old(self).slots@[ch0[k - 1] as int] is Some);
                }
            }
            assert(ch1.no_duplicates()) by {
                assert forall|k1: int, k2: int|
                    0 <= k1 < ch1.len() && 0 <= k2 < ch1.len() && k1 != k2 implies ch1[k1]
                    != ch1[k2] by {
                    if k1 >= 1 && k2 >= 1 {
                        assert(ch0[k1 - 1] != ch0[k2 - 1]);
                    }
                }
            }
            assert forall|k: int|
                0 <= k < ch1.len() - 1 implies (#[trigger] s1[ch1[k] as int])->0.next == Some(
                ch1[k + 1],
            ) by {
                if 1 <= k < ch0.len() {
                    assert(old(self).slots@[ch0[k - 1] as int]->0.next == Some(ch0[k]));
                }
            }
            assert forall|k: int|
                1 <= k < ch1.len() implies (#[trigger] s1[ch1[k] as int])->0.prev == Some(
                ch1[k - 1],
            ) by {
                if k >= 2 {
                    assert(old(self).slots@[ch0[k - 1] as int]->0.prev == Some(ch0[k - 2]));
                    assert(ch0[k - 1] != ch0[0]);
                }
            }
            assert forall|k: int| 0 <= k < self.free@.len() implies (#[trigger] s1[self.free@[k] as int])
                is None by {
                assert(old(self).slots@[self.free@[k] as int] is None);
            }
            assert(final(self).wf());
            assert(final(self)@ =~= seq![val] + old(self)@);
        }
    }

    /// Links a new node holding `val` in at the back in constant time,
    /// fixing up the old back node's forward link, or both end positions
    /// when the deque was empty.
    pub fn push_back(&mut self, val: T)
        requires
            old(self).wf(),
        ensures
            final(self).wf(),
            final(self)@ == old(self)@.push(val),
    {
        let old_tail = self.tail;
        let node = Node { val, prev: old_tail, next: None };
        let idx: usize;
        match self.free.pop() {
            Some(i) => {
                idx = i;
                set_slot(&mut self.slots, i, Some(node));
            }
            None => {
                idx = self.slots.len();
                self.slots.push(Some(node));
            }
        }
        proof {
            assert forall|k: int| 0 <= k < old(self).chain().len() implies #[trigger] old(
                self,
            ).chain()[k] != idx by {
                assert(old(self).slots@[old(self).chain()[k] as int] is Some);
            }
        }
        match old_tail {
            None => {
                self.head = Some(idx);
            }
            Some(t) => {
                proof {
                    assert(old(self).chain().len() > 0);
                    assert(t == old(self).chain().last());
                }
                let mut tail_node = take_slot(&mut self.slots, t).unwrap();
                tail_node.next = Some(idx);
                set_slot(&mut self.slots, t, Some(tail_node));
            }
        }
        self.tail = Some(idx);
        proof {
            self.order@ = self.order@.push(idx);
            let ch0 = old(self).chain();
            let ch1 = self.chain();
            let s1 = self.slots@;
            assert(ch1 == ch0.push(idx));
            assert forall|k: int| 0 <= k < ch1.len() implies (#[trigger] ch1[k]) < s1.len() by {
                if k < ch0.len() {
                    assert(ch0[k] < old(self).slots@.len());
                }
            }
            assert forall|k: int| 0 <= k < ch1.len() implies (#[trigger] s1[ch1[k] as int])
                is Some by {
                if k < ch0.len() {
                    assert(old(self).slots@[ch0[k] as int] is Some);
                }
            }
            assert(ch1.no_duplicates()) by {
                assert forall|k1: int, k2: int|
                    0 <= k1 < ch1.len() && 0 <= k2 < ch1.len() && k1 != k2 implies ch1[k1]
                    != ch1[k2] by {
                    if k1 < ch0.len() && k2 < ch0.len() {
                        assert(ch0[k1] != ch0[k2]);
                    }
                }
            }
            assert forall|k: int|
                0 <= k < ch1.len() - 1 implies (#[trigger] s1[ch1[k] as int])->0.next == Some(
                ch1[k + 1],
            ) by {
                if k < ch0.len() - 1 {
                    assert(old(self).slots@[ch0[k] as int]->0.next == Some(ch0[k + 1]));
                    assert(ch0[k] != ch0.last());
                }
            }
            assert forall|k: int|
                1 <= k < ch1.len() implies (#[trigger] s1[ch1[k] as int])->0.prev == Some(
                ch1[k - 1],
            ) by {
                if 1 <= k < ch0.len() {
                    assert(old(self).slots@[ch0[k] as int]->0.prev == Some(ch0[k - 1]));
                }
            }
            assert forall|k: int| 0 <= k < self.free@.len() implies (#[trigger] s1[self.free@[k] as int])
                is None by {
                assert(old(self).slots@[self.free@[k] as int] is None);
            }
            assert(final(self).wf());
            assert(final(self)@ =~= old(self)@.push(val));
        }
    }

    /// Detaches and returns the front element in constant time; `None` on an
    /// empty deque. Both of the detached node's links are severed before the
    /// slot is reclaimed, the new front node's backward link is cleared, and
    /// when the deque becomes empty the back position is reset as well.
    pub fn pop_front(&mut self) -> (r: Option<T>)
        requires
            old(self).wf(),
        ensures
            final(self).wf(),
            old(self)@.len() == 0 ==> r is None && final(self)@ == old(self)@,
            old(self)@.len() > 0 ==> r == Some(old(self)@[0])
                && final(self)@ == old(self)@.drop_first(),
    {
        match self.head {
            None => None,
            Some(h) => {
                let node = take_slot(&mut self.slots, h).unwrap();
                match node.next {
                    None => {
                        self.tail = None;
                        self.head = None;
                    }
                    Some(nh) => {
                        proof {
                            assert(old(self).chain().len() > 1);
                            assert(nh == old(self).chain()[1]);
                            assert(old(self).chain()[1] != old(self).chain()[0]);
                        }
                        let mut next_node = take_slot(&mut self.slots, nh).unwrap();
                        next_node.prev = None;
                        set_slot(&mut self.slots, nh, Some(next_node));
                        self.head = Some(nh);
                    }
                }
                self.free.push(h);
                proof {
                    self.order@ = self.order@.drop_first();
                    let ch0 = old(self).chain();
                    let ch1 = self.chain();
                    let s1 = self.slots@;
                    assert forall|k: int|
                        0 <= k < ch1.len() implies (#[trigger] s1[ch1[k] as int]) == old(
                        self,
                    ).slots@[ch1[k] as int] || (k == 0 && s1[ch1[k] as int] is Some) by {
                        assert(ch1[k] == ch0[k + 1]);
                        assert(ch0[k + 1] != ch0[0]);
                    }
                    assert(final(self).wf());
                    assert(final(self)@ =~= old(self)@.drop_first());
                }
                Some(node.val)
            }
        }
    }

    /// Detaches and returns the back element in constant time; `None` on an
    /// empty deque. Both of the detached node's links are severed before the
    /// slot is reclaimed, the new back node's forward link is cleared, and
    /// when the deque becomes empty the front position is reset as well.
    pub fn pop_back(&mut self) -> (r: Option<T>)
        requires
            old(self).wf(),
        ensures
            final(self).wf(),
            old(self)@.len() == 0 ==> r is None && final(self)@ == old(self)@,
            old(self)@.len() > 0 ==> r == Some(old(self)@.last())
                && final(self)@ == old(self)@.drop_last(),
    {
        match self.tail {
            None => None,
            Some(t) => {
                let node = take_slot(&mut self.slots, t).unwrap();
                match node.prev {
                    None => {
                        self.head = None;
                        self.tail = None;
                    }
                    Some(nt) => {
                        proof {
                            assert(old(self).chain().len() > 1);
                            assert(nt == old(self).chain()[old(self).chain().len() - 2]);
                            assert(nt != old(self).chain().last());
                        }
                        let mut prev_node = take_slot(&mut self.slots, nt).unwrap();
                        prev_node.next = None;
                        set_slot(&mut self.slots, nt, Some(prev_node));
                        self.tail = Some(nt);
                    }
                }
                self.free.push(t);
                proof {
                    self.order@ = self.order@.drop_last();
                    let ch0 = old(self).chain();
                    let ch1 = self.chain();
                    let s1 = self.slots@;
                    assert forall|k: int|
                        0 <= k < ch1.len() implies ch1[k] != ch0.last() by {
                        assert(ch0[k] != ch0[ch0.len() - 1]);
                    }
                    assert(final(self).wf());
                    assert(final(self)@ =~= old(self)@.drop_last());
                }
                Some(node.val)
            }
        }
    }

    /// Returns a shared reference to the front element without removing it;
    /// `None` on an empty deque.
    pub fn peek_front(&self) -> (r: Option<&T>)
        requires
            self.wf(),
        ensures
            self@.len() == 0 ==> r is None,
            self@.len() > 0 ==> (r matches Some(p) && *p == self@[0]),
    {
        match self.head {
            None => None,
            Some(h) => {
                match &self.slots[h] {
                    None => None,
                    Some(node) => Some(&node.val),
                }
            }
        }
    }

    /// Returns a shared reference to the back element without removing it;
    /// `None` on an empty deque.
    pub fn peek_back(&self) -> (r: Option<&T>)
        requires
            self.wf(),
        ensures
            self@.len() == 0 ==> r is None,
            self@.len() > 0 ==> (r matches Some(p) && *p == self@.last()),
    {
        match self.tail {
            None => None,
            Some(t) => {
                match &self.slots[t] {
                    None => None,
                    Some(node) => Some(&node.val),
                }
            }
        }
    }
}

/// The view a deque with view `s` has after one pop from the chosen end:
/// `true` pops the front, `false` the back, and an empty deque is left
/// unchanged.
pub open spec fn pop_either<T>(s: Seq<T>, from_front: bool) -> Seq<T> {
    if s.len() == 0 {
        s
    } else if from_front {
        s.drop_first()
    } else {
        s.drop_last()
    }
}

/// The view a deque with view `s` has after a pop per entry of `ends`, each
/// from the end that entry chooses.
pub open spec fn pop_seq<T>(s: Seq<T>, ends: Seq<bool>) -> Seq<T>
    decreases ends.len(),
{
    if ends.len() == 0 {
        s
    } else {
        pop_seq(pop_either(s, ends[0]), ends.drop_first())
    }
}

/// Law: popping at least as many times as a deque holds elements drains it,
/// whatever mix of ends the pops come from, and the resulting view is the
/// empty one a freshly constructed deque has.
pub proof fn lemma_pop_all_drains<T>(s: Seq<T>, ends: Seq<bool>)
    requires
        ends.len() >= s.len(),
    ensures
        pop_seq(s, ends) == Seq::<T>::empty(),
    decreases ends.len(),
{
    if ends.len() == 0 {
        assert(s =~= Seq::<T>::empty());
    } else {
        lemma_pop_all_drains(pop_either(s, ends[0]), ends.drop_first());
    }
}

/// The view a deque with view `s` has after one push at the chosen end:
/// `true` pushes `v` at the front, `false` at the back.
pub open spec fn push_either<T>(s: Seq<T>, v: T, at_front: bool) -> Seq<T> {
    if at_front {
        seq![v] + s
    } else {
        s.push(v)
    }
}

/// The view a deque with view `s` has after pushing each value of `vs` in
/// order, each at the end the matching entry of `ends` chooses.
pub open spec fn push_seq<T>(s: Seq<T>, vs: Seq<T>, ends: Seq<bool>) -> Seq<T>
    decreases vs.len(),
{
    if vs.len() == 0 || ends.len() == 0 {
        s
    } else {
        push_seq(push_either(s, vs[0], ends[0]), vs.drop_first(), ends.drop_first())
    }
}

/// Law: each push grows the view by exactly its value, so a run of pushes
/// grows the length by the number of values pushed, whatever mix of ends
/// they go to.
pub proof fn lemma_push_seq_len<T>(s: Seq<T>, vs: Seq<T>, ends: Seq<bool>)
    requires
        ends.len() >= vs.len(),
    ensures
        push_seq(s, vs, ends).len() == s.len() + vs.len(),
    decreases vs.len(),
{
    if vs.len() > 0 {
        lemma_push_seq_len(push_either(s, vs[0], ends[0]), vs.drop_first(), ends.drop_first());
    }
}

/// Law: starting from an empty deque, pushing the values of `vs` — each at
/// either end — and then popping the same number of times — again each from
/// either end — leaves the deque empty again.
pub proof fn lemma_round_trip<T>(vs: Seq<T>, push_ends: Seq<bool>, pop_ends: Seq<bool>)
    requires
        push_ends.len() >= vs.len(),
        pop_ends.len() >= vs.len(),
    ensures
        pop_seq(push_seq(Seq::<T>::empty(), vs, push_ends), pop_ends) == Seq::<T>::empty(),
{
    lemma_push_seq_len(Seq::<T>::empty(), vs, push_ends);
    lemma_pop_all_drains(push_seq(Seq::<T>::empty(), vs, push_ends), pop_ends);
}

} // verus!
