use lists::persistent_list::{Node, PersistentList};

#[test]
fn basics() {
    let node1 = Node { elm: 1, next: None };
    let node2 = Node::new(1);
    assert_eq!(node1, node2);

    let list = PersistentList::new();
    assert_eq!(list.is_empty(), true);
    assert_eq!(list.head(), None);

    let list = list.prepend(1).prepend(2).prepend(3);
    assert_eq!(list.is_empty(), false);
    assert_eq!(list.head(), Some(&3));

    let list = list.tail();
    assert_eq!(list.head(), Some(&2));

    let list = list.tail();
    assert_eq!(list.head(), Some(&1));

    let list = list.tail();
    assert_eq!(list.is_empty(), true);
    assert_eq!(list.head(), None);

    let list = list.tail();
    assert_eq!(list.head(), None);
    assert_eq!(list.is_empty(), true);
}

#[test]
fn persistent_list_iter() {
    let list = PersistentList::new().prepend(1).prepend(2).prepend(3);
    let mut iter = list.iter();
    assert_eq!(iter.next(), Some(&3));
    assert_eq!(iter.next(), Some(&2));
    assert_eq!(iter.next(), Some(&1));
    assert_eq!(iter.next(), None);
    assert_eq!(iter.next(), None);
}

fn collect(list: &PersistentList<i32>) -> Vec<i32> {
    let mut out = Vec::new();
    let mut iter = list.iter();
    while let Some(v) = iter.next() {
        out.push(*v);
    }
    out
}

#[test]
fn prepend_leaves_receiver_unchanged() {
    let list = PersistentList::new().prepend(1).prepend(2);
    let longer = list.prepend(3);
    assert_eq!(collect(&list), vec![2, 1]);
    assert_eq!(collect(&longer), vec![3, 2, 1]);
}

#[test]
fn prepends_share_suffix() {
    let list = PersistentList::new().prepend(1).prepend(2);
    let a = list.prepend(10);
    let b = list.prepend(20);
    assert_eq!(collect(&a.tail()), collect(&list));
    assert_eq!(collect(&b.tail()), collect(&list));
    assert_eq!(a.head(), Some(&10));
    assert_eq!(b.head(), Some(&20));
    assert_eq!(collect(&b), vec![20, 2, 1]);
}

#[test]
fn dropping_one_sharer_keeps_other() {
    let base = PersistentList::new().prepend(1).prepend(2).prepend(3);
    let a = base.prepend(4);
    let b = base.prepend(5);
    drop(base);
    drop(a);
    assert_eq!(collect(&b), vec![5, 3, 2, 1]);
    let t = b.tail();
    drop(b);
    assert_eq!(collect(&t), vec![3, 2, 1]);
}

#[test]
fn tail_of_empty_stays_empty() {
    let list: PersistentList<i32> = PersistentList::new();
    let t = list.tail().tail();
    assert!(t.is_empty());
    assert_eq!(t.head(), None);
    let mut iter = t.iter();
    assert_eq!(iter.next(), None);
}

#[test]
fn long_persistent_teardown() {
    let mut list = PersistentList::new();
    for i in 0..200_000u32 {
        list = list.prepend(i);
    }
    assert_eq!(list.head(), Some(&199_999));
    drop(list);
}

#[test]
fn long_shared_teardown() {
    let mut list = PersistentList::new();
    for i in 0..150_000u32 {
        list = list.prepend(i);
    }
    let other = list.prepend(7);
    drop(list);
    assert_eq!(other.head(), Some(&7));
    assert_eq!(other.tail().head(), Some(&149_999));
    drop(other);
}

#[test]
fn node_clone_keeps_element_and_link() {
    let node = Node::new(String::from("x"));
    let copy = node.clone();
    assert_eq!(copy, node);
    assert_eq!(copy.elm, "x");
    assert!(copy.next.is_none());
}
