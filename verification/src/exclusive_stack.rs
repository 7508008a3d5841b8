//! A singly-linked stack in which every node is exclusively owned by its
//! predecessor (or by the list head itself), so push and pop happen at the
//! head only and run in constant time.

use vstd::prelude::*;

verus! {

enum Link<T> {
    Empty,
    More(Box<Node<T>>),
}

struct Node<T> {
    val: T,
    next: Link<T>,
}

/// A stack of exclusively owned, heap-allocated nodes. Its abstract value
/// is the sequence of stored elements from the head (top) to the tail.
pub struct List<T> {
    head: Link<T>,
}

spec fn link_seq<T>(link: Link<T>) -> Seq<T>
    decreases link,
{
    match link {
        Link::Empty => Seq::empty(),
        Link::More(node) => seq![node.val] + link_seq(node.next),
    }
}

impl<T> View for List<T> {
    type V = Seq<T>;

    closed spec fn view(&self) -> Seq<T> {
        link_seq(self.head)
    }
}

impl<T> List<T> {
    /// Creates an empty stack.
    pub fn new() -> (r: Self)
        ensures
            r@ == Seq::<T>::empty(),
    {
        List { head: Link::Empty }
    }

    /// Inserts `elem` at the head in constant time; the previous chain
    /// becomes the new node's suffix.
    pub fn push(&mut self, elem: T)
        ensures
            final(self)@ == seq![elem] + old(self)@,
    {
        let mut taken = Link::Empty;
        core::mem::swap(&mut taken, &mut self.head);
        let new_node = Box::new(Node { val: elem, next: taken });
        self.head = Link::More(new_node);
    }

    /// Removes and returns the head element; on an empty stack it returns
    /// `None` and leaves the stack unchanged.
    pub fn pop(&mut self) -> (r: Option<T>)
        ensures
            old(self)@.len() == 0 ==> r is None && final(self)@ == old(self)@,
            old(self)@.len() > 0 ==> r == Some(old(self)@[0])
                && final(self)@ == old(self)@.drop_first(),
    {
        let mut taken = Link::Empty;
        core::mem::swap(&mut taken, &mut self.head);
        match taken {
            Link::Empty => None,
            Link::More(node) => {
                let inner = *node;
                self.head = inner.next;
                Some(inner.val)
            }
        }
    }
}

/// The view a stack with view `s` has after the values of `vs` have been
/// pushed onto it one by one, in order.
pub open spec fn push_all<T>(s: Seq<T>, vs: Seq<T>) -> Seq<T>
    decreases vs.len(),
{
    if vs.len() == 0 {
        s
    } else {
        push_all(seq![vs[0]] + s, vs.drop_first())
    }
}

/// The view a stack with view `s` has after `n` pops: each pop removes the
/// head element of a non-empty stack and leaves an empty stack unchanged.
pub open spec fn pop_n<T>(s: Seq<T>, n: nat) -> Seq<T>
    decreases n,
{
    if n == 0 || s.len() == 0 {
        s
    } else {
        pop_n(s.drop_first(), (n - 1) as nat)
    }
}

/// Law: pushing the values of `vs` in order onto a stack holding `s` leaves
/// the stack holding `vs` reversed, followed by `s`. Since `pop` returns the
/// elements of the view front to back, an equal count of pops afterwards
/// returns the pushed values in exactly the reverse of push order.
pub proof fn lemma_push_all_reverses<T>(s: Seq<T>, vs: Seq<T>)
    ensures
        push_all(s, vs) == vs.reverse() + s,
    decreases vs.len(),
{
    if vs.len() == 0 {
        assert(vs.reverse() + s =~= s);
    } else {
        lemma_push_all_reverses(seq![vs[0]] + s, vs.drop_first());
        assert(vs.drop_first().reverse() + (seq![vs[0]] + s) =~= vs.reverse() + s);
    }
}

/// Law: popping as many times as a stack holds elements drains it, and the
/// resulting view is the empty one a freshly constructed stack has.
pub proof fn lemma_pop_all_drains<T>(s: Seq<T>)
    ensures
        pop_n(s, s.len()) == Seq::<T>::empty(),
    decreases s.len(),
{
    if s.len() > 0 {
        lemma_pop_all_drains(s.drop_first());
    } else {
        assert(s =~= Seq::<T>::empty());
    }
}

/// Law: starting from an empty stack, pushing the values of `vs` and then
/// popping the same number of times leaves the stack empty again.
pub proof fn lemma_round_trip<T>(vs: Seq<T>)
    ensures
        pop_n(push_all(Seq::<T>::empty(), vs), vs.len()) == Seq::<T>::empty(),
{
    lemma_push_all_reverses(Seq::<T>::empty(), vs);
    assert(push_all(Seq::<T>::empty(), vs) =~= vs.reverse());
    lemma_pop_all_drains(vs.reverse());
}

impl<T> Drop for List<T> {
    /// Tears the chain down one node at a time, so that dropping a long
    /// stack never builds a recursive chain of destructor calls.
    fn drop(&mut self)
        opens_invariants none
        no_unwind
    {
        let mut cur = Link::Empty;
        core::mem::swap(&mut cur, &mut self.head);
        loop
            decreases link_seq(cur).len(),
        {
            match cur {
                Link::Empty => {
                    break;
                }
                Link::More(node) => {
                    let inner = *node;
                    cur = inner.next;
                }
            }
        }
    }
}

} // verus!
