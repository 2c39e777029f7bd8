use linked_list::LinkedList;

fn values(list: &LinkedList) -> Vec<i32> {
    let mut result = Vec::new();
    let mut it = list.iter();
    while let Some(x) = it.next() {
        result.push(x);
    }
    result
}

fn from_back(vs: &[i32]) -> LinkedList {
    let mut list = LinkedList::new();
    for &v in vs {
        list.push_back(v);
    }
    list
}

#[test]
fn push_back_sequence_keeps_order() {
    let list = from_back(&[5, -3, 8, 0]);
    assert_eq!(4, list.size());
    assert_eq!(vec![5, -3, 8, 0], values(&list));
    assert_eq!(Some(5), list.front());
    assert_eq!(Some(0), list.back());
}

#[test]
fn push_front_sequence_reverses_order() {
    let mut list = LinkedList::new();
    for v in [4, 5, 6, 7] {
        list.push_front(v);
    }
    assert_eq!(vec![7, 6, 5, 4], values(&list));
    assert_eq!(Some(4), list.back());
}

#[test]
fn push_front_then_back_keeps_last() {
    let mut list = LinkedList::new();
    list.push_front(2);
    list.push_back(3);
    list.push_front(1);
    assert_eq!(vec![1, 2, 3], values(&list));
    assert_eq!(Some(3), list.back());
}

#[test]
fn new_list_is_empty() {
    let list = LinkedList::new();
    assert_eq!(0, list.size());
    let mut it = list.iter();
    assert_eq!(None, it.next());
    assert_eq!(None, it.next());
    assert_eq!(None, list.front());
    assert_eq!(None, list.back());
}

#[test]
fn insert_after_size_appends() {
    let mut a = from_back(&[1, 2, 3]);
    let mut b = from_back(&[1, 2, 3]);
    assert!(a.insert_after_n(9, 3).is_ok());
    b.push_back(9);
    assert_eq!(values(&b), values(&a));
    assert_eq!(Some(9), a.back());
}

#[test]
fn insert_after_past_size_leaves_list() {
    let mut list = from_back(&[1, 2]);
    let result = list.insert_after_n(9, 3);
    assert_eq!(Err("no item with index 3".to_string()), result);
    assert_eq!(2, list.size());
    assert_eq!(vec![1, 2], values(&list));
}

#[test]
fn insert_after_middle_splices() {
    let mut list = from_back(&[1, 2, 4]);
    assert!(list.insert_after_n(3, 1).is_ok());
    assert_eq!(vec![1, 2, 3, 4], values(&list));
    assert_eq!(Some(4), list.back());
}

#[test]
fn insert_after_final_node_moves_last() {
    let mut list = from_back(&[1, 2]);
    assert!(list.insert_after_n(3, 1).is_ok());
    assert_eq!(Some(3), list.back());
    list.push_back(4);
    assert_eq!(vec![1, 2, 3, 4], values(&list));
}

#[test]
fn insert_after_negative_index() {
    let mut list = from_back(&[1, 2]);
    assert!(list.insert_after_n(9, -4).is_ok());
    assert_eq!(vec![1, 9, 2], values(&list));

    let mut empty = LinkedList::new();
    let result = empty.insert_after_n(9, -12);
    assert_eq!(Err("can't insert after item with index -12".to_string()), result);
    assert_eq!(0, empty.size());
}

#[test]
fn insert_after_large_index_message() {
    let mut list = LinkedList::new();
    let result = list.insert_after_n(1, i32::MAX);
    assert_eq!(Err("no item with index 2147483647".to_string()), result);
    let result = list.insert_after_n(1, i32::MIN);
    assert_eq!(Err("can't insert after item with index -2147483648".to_string()), result);
}

#[test]
fn split_scenario() {
    let list = from_back(&[10, 11, 12, 13, 14, 15]);
    let (first, second) = list.split_at_index(2);
    assert_eq!(vec![10, 11], values(&first));
    assert_eq!(vec![12, 13, 14, 15], values(&second));
}

#[test]
fn split_clamps_index() {
    let (first, second) = from_back(&[1, 2, 3]).split_at_index(-1);
    assert_eq!(Vec::<i32>::new(), values(&first));
    assert_eq!(vec![1, 2, 3], values(&second));

    let (first, second) = from_back(&[1, 2, 3]).split_at_index(7);
    assert_eq!(vec![1, 2, 3], values(&first));
    assert_eq!(Vec::<i32>::new(), values(&second));
    assert_eq!(3, first.size() + second.size());
    assert_eq!(Some(3), first.back());
    assert_eq!(None, second.back());
}

#[test]
fn split_results_accept_appends() {
    let (mut first, mut second) = from_back(&[1, 2, 3, 4]).split_at_index(3);
    first.push_back(9);
    second.push_back(8);
    assert_eq!(vec![1, 2, 3, 9], values(&first));
    assert_eq!(vec![4, 8], values(&second));
}

#[test]
fn replace_changes_one_value_only() {
    let mut list = from_back(&[1, 2, 3]);
    list.replace_n_item_with_value(1, 20);
    assert_eq!(vec![1, 20, 3], values(&list));
    list.replace_n_item_with_value(2, 30);
    assert_eq!(Some(30), list.back());
    list.replace_n_item_with_value(3, 99);
    list.replace_n_item_with_value(-1, 99);
    assert_eq!(vec![1, 20, 30], values(&list));
}

#[test]
fn iterator_is_single_pass() {
    let list = from_back(&[1, 2]);
    let mut it = list.iter();
    assert_eq!(Some(1), it.next());
    assert_eq!(Some(2), it.next());
    assert_eq!(None, it.next());
    let mut again = list.iter();
    assert_eq!(Some(1), again.next());
}
