//! An immutable, structurally shared singly-linked list. `prepend` returns a
//! new list whose head node points at the receiver's chain, so any number of
//! lists may share a suffix; a node is freed exactly when the last handle
//! whose chain passes through it is gone. No mutation API exists, which is
//! what makes the sharing safe.

use std::rc::Rc;
use vstd::prelude::*;

verus! {

type Link<T> = Option<Rc<Node<T>>>;

struct Node<T> {
    val: T,
    next: Link<T>,
}

/// A persistent list handle. Its abstract value is the sequence of stored
/// elements from the head onwards; handles that share a suffix have views
/// that share a suffix.
pub struct List<T> {
    head: Link<T>,
}

spec fn link_seq<T>(link: Link<T>) -> Seq<T>
    decreases link,
{
    match link {
        None => Seq::empty(),
        Some(node) => seq![node.val] + link_seq(node.next),
    }
}

impl<T> View for List<T> {
    type V = Seq<T>;

    closed spec fn view(&self) -> Seq<T> {
        link_seq(self.head)
    }
}

/// Relies on `Rc::clone`: the returned handle points at the same allocation,
/// so it equals the original (two `Rc`s are equal when the pointed-to values
/// are) and only the reference count changes.
#[verifier::external_body]
fn rc_clone<T>(rc: &Rc<T>) -> (r: Rc<T>)
    ensures
        r == *rc,
{
    Rc::clone(rc)
}

impl<T> List<T> {
    /// Creates an empty list.
    pub fn new() -> (r: Self)
        ensures
            r@ == Seq::<T>::empty(),
    {
        List { head: None }
    }

    /// Returns a new list holding `val` followed by this list's elements, in
    /// constant time: the new head node shares the receiver's chain rather
    /// than copying it, and the receiver itself is untouched and still usable.
    pub fn prepend(&self, val: T) -> (r: List<T>)
        ensures
            r@ == seq![val] + self@,
    {
        List {
            head: Some(Rc::new(Node {
                val,
                next: match &self.head {
                    None => None,
                    Some(rc) => Some(rc_clone(rc)),
                },
            })),
        }
    }

    /// Returns the suffix after the head element, in constant time, by
    /// sharing the existing chain; the receiver is untouched. The tail of an
    /// empty list is another empty list, so taking the tail is idempotent
    /// once the list is empty.
    pub fn tail(&self) -> (r: List<T>)
        ensures
            self@.len() == 0 ==> r@ == Seq::<T>::empty(),
            self@.len() > 0 ==> r@ == self@.drop_first(),
    {
        List {
            head: match &self.head {
                None => None,
                Some(rc) => match &rc.next {
                    None => None,
                    Some(next_rc) => Some(rc_clone(next_rc)),
                },
            },
        }
    }

    /// Returns a shared reference to the first element; `None` on an empty
    /// list.
    pub fn head(&self) -> (r: Option<&T>)
        ensures
            self@.len() == 0 ==> r is None,
            self@.len() > 0 ==> (r matches Some(p) && *p == self@[0]),
    {
        match &self.head {
            None => None,
            Some(rc) => Some(&rc.val),
        }
    }
}

/// The view a list with view `s` turns into after the values of `vs` have
/// been prepended to it one by one, in order.
pub open spec fn prepend_all<T>(s: Seq<T>, vs: Seq<T>) -> Seq<T>
    decreases vs.len(),
{
    if vs.len() == 0 {
        s
    } else {
        prepend_all(seq![vs[0]] + s, vs.drop_first())
    }
}

/// The view reached from `s` after taking the tail `n` times: each step
/// drops the head element of a non-empty list and keeps an empty list empty.
pub open spec fn tail_n<T>(s: Seq<T>, n: nat) -> Seq<T>
    decreases n,
{
    if n == 0 || s.len() == 0 {
        s
    } else {
        tail_n(s.drop_first(), (n - 1) as nat)
    }
}

/// Law: prepending the values of `vs` in order onto a list holding `s`
/// yields `vs` reversed, followed by `s`, so the heads met when walking back
/// down by `tail` come in the reverse of prepend order.
pub proof fn lemma_prepend_all_reverses<T>(s: Seq<T>, vs: Seq<T>)
    ensures
        prepend_all(s, vs) == vs.reverse() + s,
    decreases vs.len(),
{
    if vs.len() == 0 {
        assert(vs.reverse() + s =~= s);
    } else {
        lemma_prepend_all_reverses(seq![vs[0]] + s, vs.drop_first());
        assert(vs.drop_first().reverse() + (seq![vs[0]] + s) =~= vs.reverse() + s);
    }
}

/// Law: taking the tail as many times as a list holds elements reaches the
/// empty view, the one a freshly constructed list has; further tails keep
/// it empty.
pub proof fn lemma_tail_all_drains<T>(s: Seq<T>, extra: nat)
    ensures
        tail_n(s, s.len() + extra) == Seq::<T>::empty(),
    decreases s.len(),
{
    if s.len() > 0 {
        lemma_tail_all_drains(s.drop_first(), extra);
    } else {
        assert(s =~= Seq::<T>::empty());
    }
}

/// Law: starting from an empty list, prepending the values of `vs` and then
/// taking the tail the same number of times leaves the view empty again.
pub proof fn lemma_round_trip<T>(vs: Seq<T>)
    ensures
        tail_n(prepend_all(Seq::<T>::empty(), vs), vs.len()) == Seq::<T>::empty(),
{
    lemma_prepend_all_reverses(Seq::<T>::empty(), vs);
    assert(prepend_all(Seq::<T>::empty(), vs) =~= vs.reverse());
    lemma_tail_all_drains(vs.reverse(), 0);
}

} // verus!
