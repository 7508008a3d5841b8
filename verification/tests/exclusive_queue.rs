use linked_lists::exclusive_queue::List;

#[test]
fn fifth_basics() {
    let mut list = List::new();

    // Check empty list behaves right
    assert_eq!(list.pop(), None);

    // Populate list
    list.push(1);
    list.push(2);
    list.push(3);

    // Check normal removal
    assert_eq!(list.pop(), Some(1));
    assert_eq!(list.pop(), Some(2));

    // Push some more just to make sure nothing's corrupted
    list.push(4);
    list.push(5);

    // Check normal removal
    assert_eq!(list.pop(), Some(3));
    assert_eq!(list.pop(), Some(4));

    // Check exhaustion
    assert_eq!(list.pop(), Some(5));
    assert_eq!(list.pop(), None);
}

#[test]
fn fifth_fifo_order() {
    let mut list = List::new();
    let values = [10, 20, 30, 40, 50];
    for v in values {
        list.push(v);
    }
    for v in values {
        assert_eq!(Some(v), list.pop());
    }
    assert_eq!(None, list.pop());
}

#[test]
fn fifth_drain_then_reuse() {
    let mut list = List::new();
    list.push(1);
    list.push(2);
    assert_eq!(list.pop(), Some(1));
    assert_eq!(list.pop(), Some(2));
    assert_eq!(list.pop(), None);

    // after draining, the tail position was invalidated: pushing again
    // behaves exactly like pushing into a freshly constructed queue
    list.push(3);
    list.push(4);
    assert_eq!(list.pop(), Some(3));
    assert_eq!(list.pop(), Some(4));
    assert_eq!(list.pop(), None);
}

#[test]
fn fifth_round_trip_to_empty() {
    let mut list = List::new();
    for round in 0..3 {
        for i in 0..100 {
            list.push(round * 1000 + i);
        }
        for i in 0..100 {
            assert_eq!(list.pop(), Some(round * 1000 + i));
        }
        assert_eq!(list.pop(), None);
    }
}

#[test]
fn fifth_long_chain_teardown() {
    let mut list = List::new();
    for i in 0..200_000 {
        list.push(i);
    }
    // the nodes live in one owning arena, so this drop frees the slots
    // one by one instead of recursing through a chain of owners
    drop(list);
}
