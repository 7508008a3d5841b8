//! A family of singly- and doubly-linked containers, each exploring one
//! ownership strategy for a chain of heap-allocated nodes: an exclusively
//! owned stack, a queue with a non-owning tail position, a stack with a
//! full iteration story, a persistent structurally-shared list, and a
//! doubly-linked deque backed by a single owning arena.

pub mod exclusive_queue;
pub mod exclusive_stack;
pub mod iterable_stack;
pub mod persistent_list;
pub mod shared_deque;
