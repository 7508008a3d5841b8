use linked_lists::iterable_stack::List;

fn plus_one(i: i32) -> i32 {
    i + 1
}

#[test]
fn option_take_test() {
    let mut x1 = Some(1);
    let mut x2 = Some(2);
    let x3 = x1.take();
    assert_eq!(x1, None);
    assert_eq!(x3.unwrap(), 1);
    assert_eq!(x1.take().map(plus_one), None);
    assert_eq!(x2.take().map(plus_one), Some(3));
}

#[test]
fn second_basic_test() {
    let mut list = List::new();
    assert_eq!(None, list.peek());
    assert_eq!(None, list.peek_mut());

    list.push('a');
    list.push('b');
    list.push('c');
    list.push('d');
    assert_eq!(Some(&'d'), list.peek());
    assert_eq!(Some(&mut 'd'), list.peek_mut());

    list.peek_mut().map(|val| {
        *val = 'e';
    });

    assert_eq!(Some('e'), list.pop());
    assert_eq!(Some('c'), list.pop());
    assert_eq!(Some('b'), list.pop());

    list.push('b');
    assert_eq!(Some('b'), list.pop());
    assert_eq!(Some('a'), list.pop());
    assert_eq!(None, list.pop());
    assert_eq!(None, list.pop());
}

#[test]
fn into_iter_test() {
    let mut list = List::new();

    list.push('a');
    list.push('b');
    list.push('c');
    list.push('d');

    let mut v = vec!['a', 'b', 'c', 'd'];
    v.reverse();

    let mut into_iter = list.into_iter();
    let mut result = Vec::new();
    while let Some(val) = into_iter.next() {
        result.push(val);
    }
    assert_eq!(v, result);
}

#[test]
fn iter_test() {
    let mut list = List::new();

    list.push('a');
    list.push('b');
    list.push('c');
    list.push('d');

    let mut v = vec!['a', 'b', 'c', 'd'];
    v.reverse();

    let mut result = Vec::new();
    let mut iter = list.iter();
    while let Some(val) = iter.next() {
        result.push(*val);
    }
    assert_eq!(v, result);
}

#[test]
fn iter_mut_test() {
    let mut list = List::new();

    list.push('a');
    list.push('b');
    list.push('c');
    list.push('d');

    let mut iter_mut = list.iter_mut();
    assert_eq!(iter_mut.next(), Some(&mut 'd'));
    assert_eq!(iter_mut.next(), Some(&mut 'c'));
    assert_eq!(iter_mut.next(), Some(&mut 'b'));
    assert_eq!(iter_mut.next(), Some(&mut 'a'));
    assert_eq!(iter_mut.next(), None);
    assert_eq!(iter_mut.next(), None);
    assert_eq!(iter_mut.next(), None);
}

#[test]
fn iter_mut_write_then_peek() {
    let mut list = List::new();
    list.push(1);
    list.push(2);

    // writing through the mutable iterator is observable on a later peek
    {
        let mut iter_mut = list.iter_mut();
        if let Some(head) = iter_mut.next() {
            *head = 9;
        }
    }
    assert_eq!(Some(&9), list.peek());
    assert_eq!(Some(9), list.pop());
    assert_eq!(Some(1), list.pop());
    assert_eq!(None, list.pop());
}

#[test]
fn iter_restartable() {
    let mut list = List::new();
    list.push(1);
    list.push(2);
    list.push(3);

    for _ in 0..2 {
        let mut iter = list.iter();
        assert_eq!(iter.next(), Some(&3));
        assert_eq!(iter.next(), Some(&2));
        assert_eq!(iter.next(), Some(&1));
        assert_eq!(iter.next(), None);
    }
    assert_eq!(Some(3), list.pop());
}

#[test]
fn second_consuming_iteration_drains() {
    let mut list = List::new();
    for i in 0..50 {
        list.push(i);
    }
    let mut into_iter = list.into_iter();
    let mut count: usize = 0;
    while let Some(_) = into_iter.next() {
        count += 1;
    }
    assert_eq!(count, 50);
    assert_eq!(into_iter.next(), None);
}

#[test]
fn second_long_chain_teardown() {
    let mut list = List::new();
    for i in 0..200_000 {
        list.push(i);
    }
    drop(list);
}
