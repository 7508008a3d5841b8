use linked_lists::shared_deque::List;

#[test]
fn fourth_basic_test() {
    let mut list = List::<i32>::new();
    // 3 -> 1 -> 2 -> 4
    list.push_front(1);
    list.push_back(2);
    list.push_front(3);
    list.push_back(4);

    assert_eq!(list.pop_front(), Some(3));
    assert_eq!(list.pop_back(), Some(4));
    assert_eq!(list.pop_front(), Some(1));
    assert_eq!(list.pop_back(), Some(2));

    assert_eq!(list.pop_front(), None);
    assert_eq!(list.pop_back(), None);
}

#[test]
fn peek_test() {
    let mut list = List::<i32>::new();
    // 2 -> 1
    list.push_front(1);
    list.push_front(2);
    assert_eq!(&*list.peek_front().unwrap(), &2);
    assert_eq!(&*list.peek_back().unwrap(), &1);
}

#[test]
fn fourth_front_order() {
    let mut list = List::<i32>::new();
    list.push_front(1);
    list.push_back(2);
    list.push_front(3);
    list.push_back(4);

    // front-to-back order is 3, 1, 2, 4
    assert_eq!(list.pop_front(), Some(3));
    assert_eq!(list.pop_front(), Some(1));
    assert_eq!(list.pop_front(), Some(2));
    assert_eq!(list.pop_front(), Some(4));
    assert_eq!(list.pop_front(), None);
}

#[test]
fn fourth_round_trip_to_empty() {
    let mut list = List::<i32>::new();
    for i in 0..100 {
        if i % 2 == 0 {
            list.push_front(i);
        } else {
            list.push_back(i);
        }
    }
    for i in 0..100 {
        let popped = if i % 3 == 0 { list.pop_back() } else { list.pop_front() };
        assert!(popped.is_some());
    }
    // indistinguishable from a fresh deque
    assert_eq!(list.pop_front(), None);
    assert_eq!(list.pop_back(), None);
    assert!(list.peek_front().is_none());
    assert!(list.peek_back().is_none());
    list.push_back(5);
    list.push_front(4);
    assert_eq!(list.pop_back(), Some(5));
    assert_eq!(list.pop_front(), Some(4));
    assert_eq!(list.pop_front(), None);
}

#[test]
fn fourth_peek_matches_ends() {
    let mut list = List::<i32>::new();
    assert!(list.peek_front().is_none());
    assert!(list.peek_back().is_none());
    list.push_back(1);
    assert_eq!(list.peek_front(), Some(&1));
    assert_eq!(list.peek_back(), Some(&1));
    list.push_back(2);
    assert_eq!(list.peek_front(), Some(&1));
    assert_eq!(list.peek_back(), Some(&2));
    list.push_front(0);
    assert_eq!(list.peek_front(), Some(&0));
    assert_eq!(list.peek_back(), Some(&2));
}

#[test]
fn fourth_long_chain_teardown() {
    let mut list = List::<i32>::new();
    for i in 0..200_000 {
        list.push_back(i);
    }
    // the nodes live in one owning arena, so this drop frees the slots
    // one by one instead of recursing through a chain of owners
    drop(list);
}
