use linked_list::list::{LinkedList, LinkedListNode};

#[test]
fn node_new_holds_value_and_link() {
    let node = LinkedListNode::new(7u64, None);
    assert_eq!(node.value, 7);
    assert!(node.next.is_none());
    let node = LinkedListNode::new(8u64, Some(3));
    assert_eq!(node.value, 8);
    assert_eq!(node.next, Some(3));
}

#[test]
fn prepend_reverses_call_order() {
    let mut list = LinkedList::new();
    list.prepend(1u64);
    list.prepend(2u64);
    list.prepend(3u64);
    assert_eq!(list.render(), "3 -> 2 -> 1 -> None");
}

#[test]
fn append_preserves_call_order() {
    let mut list = LinkedList::new();
    list.append(1u64);
    list.append(2u64);
    list.append(3u64);
    assert_eq!(list.render(), "1 -> 2 -> 3 -> None");
}

#[test]
fn mixed_prepend_append() {
    let mut list = LinkedList::new();
    list.prepend(2u64);
    list.append(3u64);
    list.prepend(1u64);
    list.append(4u64);
    assert_eq!(list.render(), "1 -> 2 -> 3 -> 4 -> None");
    assert!(list.tail_consistent());
}

#[test]
fn insert_at_zero_matches_prepend() {
    let mut by_insert = LinkedList::new();
    by_insert.append(1u64);
    by_insert.append(2u64);
    let mut by_prepend = LinkedList::new();
    by_prepend.append(1u64);
    by_prepend.append(2u64);
    by_insert.insert(9, 0);
    by_prepend.prepend(9);
    assert_eq!(by_insert.render(), by_prepend.render());
    assert_eq!(by_insert.render(), "9 -> 1 -> 2 -> None");
}

#[test]
fn insert_at_length_matches_append() {
    let mut by_insert = LinkedList::new();
    by_insert.append(1u64);
    by_insert.append(2u64);
    let mut by_append = LinkedList::new();
    by_append.append(1u64);
    by_append.append(2u64);
    by_insert.insert(9, 2);
    by_append.append(9);
    assert_eq!(by_insert.render(), by_append.render());
    assert_eq!(by_insert.render(), "1 -> 2 -> 9 -> None");
    assert!(by_insert.tail_consistent());
}

#[test]
fn insert_past_length_matches_append() {
    let mut list = LinkedList::new();
    list.append(1u64);
    list.insert(9, 100);
    assert_eq!(list.render(), "1 -> 9 -> None");
    assert!(list.tail_consistent());
}

#[test]
fn insert_in_the_middle() {
    let mut list = LinkedList::new();
    list.append(1u64);
    list.append(2u64);
    list.append(3u64);
    list.insert(9, 1);
    assert_eq!(list.render(), "1 -> 9 -> 2 -> 3 -> None");
}

#[test]
fn insert_at_end_keeps_tail_usable() {
    // The freshly spliced node becomes the last one; a later append must
    // land after it.
    let mut list = LinkedList::new();
    list.append(1u64);
    list.insert(2, 1);
    assert!(list.tail_consistent());
    list.append(3);
    assert_eq!(list.render(), "1 -> 2 -> 3 -> None");
}

#[test]
fn find_returns_first_match() {
    let mut list = LinkedList::new();
    list.append(1u64);
    list.append(2u64);
    list.append(2u64);
    let found = list.find(&2);
    assert!(found.is_some());
    assert_eq!(found.unwrap().value, 2);
}

#[test]
fn find_absent_returns_none() {
    let mut list = LinkedList::new();
    list.append(1u64);
    list.append(2u64);
    assert!(list.find(&9).is_none());
}

#[test]
fn find_on_empty_returns_none() {
    let list: LinkedList<u64> = LinkedList::new();
    assert!(list.find(&1).is_none());
}

#[test]
fn delete_removes_leading_run_and_first_later_match() {
    let mut list = LinkedList::new();
    for v in [5u64, 5, 2, 5, 3, 5] {
        list.append(v);
    }
    list.delete(5);
    assert_eq!(list.render(), "2 -> 3 -> 5 -> None");
    assert!(list.tail_consistent());
}

#[test]
fn delete_removes_whole_leading_run() {
    let mut list = LinkedList::new();
    for v in [7u64, 7, 7, 1] {
        list.append(v);
    }
    list.delete(7);
    assert_eq!(list.render(), "1 -> None");
    assert!(list.tail_consistent());
}

#[test]
fn delete_single_middle_match() {
    let mut list = LinkedList::new();
    for v in [1u64, 2, 3] {
        list.append(v);
    }
    list.delete(2);
    assert_eq!(list.render(), "1 -> 3 -> None");
}

#[test]
fn delete_absent_value_has_no_effect() {
    let mut list = LinkedList::new();
    list.append(1u64);
    list.append(2u64);
    list.delete(9);
    assert_eq!(list.render(), "1 -> 2 -> None");
}

#[test]
fn delete_on_empty_is_a_noop() {
    let mut list: LinkedList<u64> = LinkedList::new();
    list.delete(4);
    assert_eq!(list.render(), "None");
    assert!(list.tail_consistent());
}

#[test]
fn delete_tail_then_append() {
    // Deleting the last node moves the tail shortcut back; a later
    // append must still land at the true end.
    let mut list = LinkedList::new();
    list.append(1u64);
    list.append(2u64);
    list.delete(2);
    assert!(list.tail_consistent());
    list.append(3);
    assert_eq!(list.render(), "1 -> 3 -> None");
}

#[test]
fn delete_to_empty_then_refill() {
    let mut list = LinkedList::new();
    list.append(4u64);
    list.delete(4);
    assert_eq!(list.render(), "None");
    assert!(list.tail_consistent());
    list.append(6);
    assert_eq!(list.render(), "6 -> None");
}

#[test]
fn tail_consistent_after_every_mutation() {
    let mut list = LinkedList::new();
    list.prepend(10u64);
    assert!(list.tail_consistent());
    list.append(20);
    assert!(list.tail_consistent());
    list.insert(30, 1);
    assert!(list.tail_consistent());
    list.insert(40, 0);
    assert!(list.tail_consistent());
    list.insert(50, 99);
    assert!(list.tail_consistent());
    list.delete(50);
    assert!(list.tail_consistent());
    list.delete(40);
    assert!(list.tail_consistent());
    list.delete(7);
    assert!(list.tail_consistent());
    assert_eq!(list.render(), "10 -> 30 -> 20 -> None");
}

#[test]
fn works_with_string_values() {
    let mut list = LinkedList::new();
    list.append(String::from("ada"));
    list.append(String::from("grace"));
    list.prepend(String::from("alan"));
    assert!(list.tail_consistent());
    let found = list.find(&String::from("grace"));
    assert_eq!(found.unwrap().value, "grace");
    list.delete(String::from("alan"));
    assert!(list.tail_consistent());
    assert!(list.find(&String::from("alan")).is_none());
}
