//! A singly-linked stack with the same exclusive head-to-tail ownership as
//! the plain stack, plus a complete iteration story: peeking at the head,
//! consuming iteration, shared-reference iteration, and mutable-reference
//! iteration that hands out exactly one live mutable reference at a time.

use vstd::prelude::*;

verus! {

type Link<T> = Option<Box<Node<T>>>;

struct Node<T> {
    val: T,
    next: Link<T>,
}

/// A stack of exclusively owned nodes whose abstract value is the sequence
/// of stored elements from the head (top) to the tail.
pub struct List<T> {
    head: Link<T>,
}

spec fn link_seq<T>(link: Link<T>) -> Seq<T>
    decreases link,
{
    match link {
        None => Seq::empty(),
        Some(node) => seq![node.val] + link_seq(node.next),
    }
}

impl<T> View for List<T> {
    type V = Seq<T>;

    closed spec fn view(&self) -> Seq<T> {
        link_seq(self.head)
    }
}

impl<T> List<T> {
    /// Creates an empty stack.
    pub fn new() -> (r: Self)
        ensures
            r@ == Seq::<T>::empty(),
    {
        List { head: None }
    }

    /// Inserts `elem` at the head in constant time.
    pub fn push(&mut self, elem: T)
        ensures
            final(self)@ == seq![elem] + old(self)@,
    {
        let taken = self.head.take();
        self.head = Some(Box::new(Node { val: elem, next: taken }));
    }

    /// Removes and returns the head element; `None` on an empty stack,
    /// which is left unchanged.
    pub fn pop(&mut self) -> (r: Option<T>)
        ensures
            old(self)@.len() == 0 ==> r is None && final(self)@ == old(self)@,
            old(self)@.len() > 0 ==> r == Some(old(self)@[0])
                && final(self)@ == old(self)@.drop_first(),
    {
        match self.head.take() {
            None => None,
            Some(node) => {
                let inner = *node;
                self.head = inner.next;
                Some(inner.val)
            }
        }
    }

    /// Returns a shared reference to the head element without removing it;
    /// `None` on an empty stack.
    pub fn peek(&self) -> (r: Option<&T>)
        ensures
            self@.len() == 0 ==> r is None,
            self@.len() > 0 ==> (r matches Some(p) && *p == self@[0]),
    {
        match &self.head {
            None => None,
            Some(node) => Some(&node.val),
        }
    }

    /// Returns a mutable reference to the head element without removing it;
    /// `None` on an empty stack. Whatever the caller finally stores through
    /// the reference becomes the new head element.
    pub fn peek_mut(&mut self) -> (r: Option<&mut T>)
        ensures
            old(self)@.len() == 0 ==> r is None && final(self)@ == old(self)@,
            old(self)@.len() > 0 ==> (r matches Some(p) && *p == old(self)@[0]
                && final(self)@ == seq![*final(p)] + old(self)@.drop_first()),
    {
        match &mut self.head {
            None => None,
            Some(node) => Some(&mut node.val),
        }
    }

    /// Consumes the stack and returns an iterator over its elements in
    /// head-to-tail order; draining the iterator drains the stack.
    pub fn into_iter(self) -> (r: IntoIter<T>)
        ensures
            r@ == self@,
    {
        IntoIter(self)
    }

    /// Returns a shared-reference iterator over the elements in head-to-tail
    /// order, leaving the stack untouched; it can be re-created at will.
    pub fn iter(&self) -> (r: Iter<'_, T>)
        ensures
            r@ == self@,
    {
        Iter {
            next: match &self.head {
                None => None,
                Some(node) => Some(&**node),
            },
        }
    }

    /// Returns a mutable-reference iterator over the elements in head-to-tail
    /// order. The iterator owns the unvisited rest of the chain and hands out
    /// exactly one live mutable reference per step; values stored through
    /// those references land in the corresponding elements of the stack.
    pub fn iter_mut(&mut self) -> (r: IterMut<'_, T>)
        ensures
            r.remaining() == old(self)@,
    {
        IterMut {
            next: match &mut self.head {
                None => None,
                Some(node) => Some(&mut **node),
            },
        }
    }
}

/// A consuming iterator: it owns what is left of the stack and pops one
/// element per step.
pub struct IntoIter<T>(List<T>);

impl<T> View for IntoIter<T> {
    type V = Seq<T>;

    closed spec fn view(&self) -> Seq<T> {
        self.0@
    }
}

impl<T> IntoIter<T> {
    /// Removes and returns the next element, in head-to-tail order of the
    /// consumed stack; `None` once the elements are exhausted.
    pub fn next(&mut self) -> (r: Option<T>)
        ensures
            old(self)@.len() == 0 ==> r is None && final(self)@ == old(self)@,
            old(self)@.len() > 0 ==> r == Some(old(self)@[0])
                && final(self)@ == old(self)@.drop_first(),
    {
        self.0.pop()
    }
}

/// A shared-reference iterator: it holds a reference to the first unvisited
/// node, and each step advances to the next node.
pub struct Iter<'a, T> {
    next: Option<&'a Node<T>>,
}

impl<'a, T> View for Iter<'a, T> {
    type V = Seq<T>;

    closed spec fn view(&self) -> Seq<T> {
        match self.next {
            None => Seq::empty(),
            Some(node) => seq![node.val] + link_seq(node.next),
        }
    }
}

impl<'a, T> Iter<'a, T> {
    /// Returns a shared reference to the next unvisited element, in
    /// head-to-tail order; `None` once the elements are exhausted.
    pub fn next(&mut self) -> (r: Option<&'a T>)
        ensures
            old(self)@.len() == 0 ==> r is None && final(self)@ == old(self)@,
            old(self)@.len() > 0 ==> (r matches Some(p) && *p == old(self)@[0]
                && final(self)@ == old(self)@.drop_first()),
    {
        match self.next {
            None => None,
            Some(node) => {
                self.next = match &node.next {
                    None => None,
                    Some(next_node) => Some(&**next_node),
                };
                Some(&node.val)
            }
        }
    }
}

/// A mutable-reference iterator: it owns a mutable borrow of the unvisited
/// rest of the chain, and each step splits off one exclusive reference to
/// the front element together with the borrow of the new rest.
pub struct IterMut<'a, T> {
    next: Option<&'a mut Node<T>>,
}

impl<'a, T> IterMut<'a, T> {
    /// The unvisited elements, at the values they hold right now.
    pub closed spec fn remaining(&self) -> Seq<T> {
        match self.next {
            None => Seq::empty(),
            Some(node) => seq![node.val] + link_seq(node.next),
        }
    }

    /// Returns a mutable reference to the next unvisited element, in
    /// head-to-tail order; `None` once the elements are exhausted. Each step
    /// gives up the iterator's hold on the element it yields, so only one
    /// live mutable reference exists at a time.
    pub fn next(&mut self) -> (r: Option<&'a mut T>)
        ensures
            old(self).remaining().len() == 0 ==> r is None
                && final(self).remaining() == old(self).remaining(),
            old(self).remaining().len() > 0 ==> (r matches Some(p)
                && *p == old(self).remaining()[0]
                && final(self).remaining() == old(self).remaining().drop_first()),
    {
        match self.next.take() {
            None => None,
            Some(node) => {
                self.next = match &mut node.next {
                    None => None,
                    Some(next_node) => Some(&mut **next_node),
                };
                Some(&mut node.val)
            }
        }
    }
}

/// The view a stack with view `s` has after the values of `vs` have been
/// pushed onto it one by one, in order.
pub open spec fn push_all<T>(s: Seq<T>, vs: Seq<T>) -> Seq<T>
    decreases vs.len(),
{
    if vs.len() == 0 {
        s
    } else {
        push_all(seq![vs[0]] + s, vs.drop_first())
    }
}

/// The view a stack with view `s` has after `n` pops: each pop removes the
/// head element of a non-empty stack and leaves an empty stack unchanged.
pub open spec fn pop_n<T>(s: Seq<T>, n: nat) -> Seq<T>
    decreases n,
{
    if n == 0 || s.len() == 0 {
        s
    } else {
        pop_n(s.drop_first(), (n - 1) as nat)
    }
}

/// Law: pushing the values of `vs` in order onto a stack holding `s` leaves
/// the stack holding `vs` reversed, followed by `s`. Both kinds of iteration
/// and repeated popping walk the view front to back, so all of them meet the
/// pushed values in exactly the reverse of push order.
pub proof fn lemma_push_all_reverses<T>(s: Seq<T>, vs: Seq<T>)
    ensures
        push_all(s, vs) == vs.reverse() + s,
    decreases vs.len(),
{
    if vs.len() == 0 {
        assert(vs.reverse() + s =~= s);
    } else {
        lemma_push_all_reverses(seq![vs[0]] + s, vs.drop_first());
        assert(vs.drop_first().reverse() + (seq![vs[0]] + s) =~= vs.reverse() + s);
    }
}

/// Law: popping as many times as a stack holds elements drains it, and the
/// resulting view is the empty one a freshly constructed stack has.
pub proof fn lemma_pop_all_drains<T>(s: Seq<T>)
    ensures
        pop_n(s, s.len()) == Seq::<T>::empty(),
    decreases s.len(),
{
    if s.len() > 0 {
        lemma_pop_all_drains(s.drop_first());
    } else {
        assert(s =~= Seq::<T>::empty());
    }
}

/// Law: starting from an empty stack, pushing the values of `vs` and then
/// popping the same number of times leaves the stack empty again.
pub proof fn lemma_round_trip<T>(vs: Seq<T>)
    ensures
        pop_n(push_all(Seq::<T>::empty(), vs), vs.len()) == Seq::<T>::empty(),
{
    lemma_push_all_reverses(Seq::<T>::empty(), vs);
    assert(push_all(Seq::<T>::empty(), vs) =~= vs.reverse());
    lemma_pop_all_drains(vs.reverse());
}

impl<T> Drop for List<T> {
    /// Tears the chain down one node at a time, so that dropping a long
    /// stack never builds a recursive chain of destructor calls.
    fn drop(&mut self)
        opens_invariants none
        no_unwind
    {
        let mut cur = None;
        core::mem::swap(&mut cur, &mut self.head);
        loop
            decreases link_seq(cur).len(),
        {
            match cur {
                None => {
                    break;
                }
                Some(node) => {
                    let inner = *node;
                    cur = inner.next;
                }
            }
        }
    }
}

} // verus!
