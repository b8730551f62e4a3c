use linked_list::list::LinkedList;

#[test]
fn demo_scenario() {
    let mut list = LinkedList::new();
    list.prepend(10u64);
    list.prepend(20);
    list.prepend(30);
    assert_eq!(list.render(), "30 -> 20 -> 10 -> None");
    list.append(1);
    assert_eq!(list.render(), "30 -> 20 -> 10 -> 1 -> None");
    list.insert(3000, 2);
    assert_eq!(list.render(), "30 -> 20 -> 3000 -> 10 -> 1 -> None");
    list.delete(20);
    assert_eq!(list.render(), "30 -> 3000 -> 10 -> 1 -> None");
    assert!(list.find(&20).is_none());
}

#[test]
fn render_empty_list() {
    let list: LinkedList<u64> = LinkedList::new();
    assert_eq!(list.render(), "None");
}

#[test]
fn render_zero() {
    let mut list = LinkedList::new();
    list.append(0u64);
    assert_eq!(list.render(), "0 -> None");
}

#[test]
fn render_single_value() {
    let mut list = LinkedList::new();
    list.prepend(42u64);
    assert_eq!(list.render(), "42 -> None");
}

#[test]
fn render_round_numbers() {
    let mut list = LinkedList::new();
    list.append(100u64);
    list.append(3000u64);
    list.append(10u64);
    assert_eq!(list.render(), "100 -> 3000 -> 10 -> None");
}

#[test]
fn render_largest_value() {
    let mut list = LinkedList::new();
    list.append(u64::MAX);
    assert_eq!(list.render(), "18446744073709551615 -> None");
}
