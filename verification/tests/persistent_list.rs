use linked_lists::persistent_list::List;
use std::rc::Rc;

#[test]
fn option_clone_test() {
    let a = Some(Rc::new(1));
    let copied_a = a.clone();
    assert_eq!(a.unwrap(), copied_a.unwrap());

    let b = Some(Box::new(1));
    let copied_b = b.clone();
    assert_eq!(b.unwrap(), copied_b.unwrap());
}

#[test]
fn third_basic_test() {
    let list = List::<i32>::new();
    assert_eq!(list.head(), None);

    // 3 -> 2 -> 1
    let list = list.prepend(1).prepend(2).prepend(3);
    assert_eq!(list.head(), Some(&3));

    // 3
    // |
    // v
    // 2 -> 1
    let list = list.tail();
    assert_eq!(list.head(), Some(&2));

    //      3
    //      |
    //      v
    // 4 -> 2 -> 1
    let list = list.prepend(4);
    assert_eq!(list.head(), Some(&4));

    // 3
    // |
    // v
    // 2 -> 1
    let list = list.tail();
    assert_eq!(list.head(), Some(&2));

    // 1
    let list = list.tail();
    assert_eq!(list.head(), Some(&1));

    // []
    let list = list.tail();
    assert_eq!(list.head(), None);

    // []
    let list = list.tail();
    assert_eq!(list.head(), None);
}

#[test]
fn third_sharing_leaves_other_lists_alone() {
    let l0 = List::<i32>::new();
    let l3 = l0.prepend(1).prepend(2).prepend(3);
    assert_eq!(l3.head(), Some(&3));

    let l2 = l3.tail();
    assert_eq!(l2.head(), Some(&2));
    // the longer list is unaffected by taking its tail
    assert_eq!(l3.head(), Some(&3));

    // prepending onto the shared suffix does not alter the longer list
    let l4 = l2.prepend(4);
    assert_eq!(l4.head(), Some(&4));
    assert_eq!(l3.head(), Some(&3));
    assert_eq!(l2.head(), Some(&2));

    // the tail of an empty list is empty, again and again
    assert_eq!(l0.tail().head(), None);
    assert_eq!(l0.tail().tail().head(), None);
}

#[test]
fn third_round_trip_to_empty() {
    let mut list = List::<i32>::new();
    for i in 0..100 {
        list = list.prepend(i);
    }
    for _ in 0..100 {
        assert!(list.head().is_some());
        list = list.tail();
    }
    assert_eq!(list.head(), None);
    assert_eq!(list.tail().head(), None);
}

#[test]
fn third_long_chain() {
    let mut list = List::<i32>::new();
    for i in 0..4_000 {
        list = list.prepend(i);
    }
    assert_eq!(list.head(), Some(&3_999));
    drop(list);
}
