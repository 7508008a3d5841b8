use linked_lists::exclusive_stack::List;

#[test]
fn first_basics() {
    let mut list = List::new();

    list.push(1);
    list.push(2);
    list.push(3);
    list.push(4);

    assert_eq!(Some(4), list.pop());
    assert_eq!(Some(3), list.pop());
    assert_eq!(Some(2), list.pop());

    list.push(2);
    assert_eq!(Some(2), list.pop());
    assert_eq!(Some(1), list.pop());
    assert_eq!(None, list.pop());
    assert_eq!(None, list.pop());
}

#[test]
fn first_lifo_order() {
    let mut list = List::new();
    let values = [10, 20, 30, 40, 50];
    for v in values {
        list.push(v);
    }
    for v in values.iter().rev() {
        assert_eq!(Some(*v), list.pop());
    }
    assert_eq!(None, list.pop());
}

#[test]
fn first_round_trip_to_empty() {
    let mut list = List::new();
    for i in 0..100 {
        list.push(i);
    }
    for _ in 0..100 {
        assert!(list.pop().is_some());
    }
    // indistinguishable from a fresh stack: empty pops, then normal reuse
    assert_eq!(None, list.pop());
    list.push(7);
    assert_eq!(Some(7), list.pop());
    assert_eq!(None, list.pop());
}

#[test]
fn first_long_chain_teardown() {
    let mut list = List::new();
    for i in 0..200_000 {
        list.push(i);
    }
    // dropping the stack here must not recurse through 200_000 destructors
    drop(list);
}
