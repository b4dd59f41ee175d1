use s_expressions_interpreter::bst::BinarySearchTree;
use s_expressions_interpreter::linked_list::LinkedList;
use s_expressions_interpreter::mystring::MyString;
use s_expressions_interpreter::repl::{History, is_exit_command};
use s_expressions_interpreter::todo::Todo;
use s_expressions_interpreter::vector::{DEFAULT_CAPACITY, Vector};

#[test]
fn new_vector_is_empty() {
    let vector: Vector<i32> = Vector::new();
    assert_eq!(vector.length(), 0);
    assert_eq!(vector.capacity(), DEFAULT_CAPACITY);
}

#[test]
fn push_increases_length() {
    let mut vector = Vector::new();
    vector.push(1);
    assert_eq!(vector.length(), 1);
    vector.push(2);
    assert_eq!(vector.length(), 2);
}

#[test]
fn push_increases_capacity() {
    let mut vector = Vector::new();
    for i in 0..DEFAULT_CAPACITY {
        vector.push(i);
    }
    assert_eq!(vector.capacity(), DEFAULT_CAPACITY);
    vector.push(1);
    assert_eq!(vector.capacity(), DEFAULT_CAPACITY * 2);
}

#[test]
fn pop_decreases_length() {
    let mut vector = Vector::new();
    vector.push(1);
    vector.push(2);
    vector.pop();
    assert_eq!(vector.length(), 1);
    vector.pop();
    assert_eq!(vector.length(), 0);
}

#[test]
fn pop_decreases_capacity() {
    let mut vector = Vector::new();
    for i in 0..DEFAULT_CAPACITY * 2 {
        vector.push(i);
    }
    assert_eq!(vector.capacity(), DEFAULT_CAPACITY * 2);
    for _ in 0..DEFAULT_CAPACITY * 3 / 2 {
        vector.pop();
    }
    assert_eq!(vector.capacity(), DEFAULT_CAPACITY);
}

#[test]
fn get_returns_value_at_index() {
    let mut vector = Vector::new();
    vector.push(1);
    vector.push(2);
    assert_eq!(vector.get(0), Some(&1));
    assert_eq!(vector.get(1), Some(&2));
}

#[test]
fn get_returns_none_if_index_out_of_bounds() {
    let mut vector = Vector::new();
    vector.push(1);
    vector.push(2);
    assert_eq!(vector.get(2), None);
}

#[test]
fn get_mut_returns_value_at_index() {
    let mut vector = Vector::new();
    vector.push(1);
    vector.push(2);
    assert_eq!(vector.get_mut(0), Some(&mut 1));
    assert_eq!(vector.get_mut(1), Some(&mut 2));
}

#[test]
fn get_mut_returns_none_if_index_out_of_bounds() {
    let mut vector = Vector::new();
    vector.push(1);
    vector.push(2);
    assert_eq!(vector.get_mut(2), None);
}

#[test]
fn set_replaces_value_at_index() {
    let mut vector = Vector::new();
    vector.push(1);
    vector.push(2);
    assert_eq!(vector.set(0, 3), Some(1));
    assert_eq!(vector.set(1, 4), Some(2));
    assert_eq!(vector.get(0), Some(&3));
    assert_eq!(vector.get(1), Some(&4));
}

#[test]
fn set_returns_none_if_index_out_of_bounds() {
    let mut vector = Vector::new();
    vector.push(1);
    vector.push(2);
    assert_eq!(vector.set(2, 3), None);
}

#[test]
fn vector_insert_shifts_the_tail() {
    let mut vector = Vector::new();
    vector.push(1);
    vector.push(3);
    vector.insert(1, 2);
    assert_eq!(vector.get(0), Some(&1));
    assert_eq!(vector.get(1), Some(&2));
    assert_eq!(vector.get(2), Some(&3));
    assert_eq!(vector.length(), 3);
}

#[test]
fn vector_iter_walks_front_to_back() {
    let mut vector = Vector::new();
    vector.push(10);
    vector.push(20);
    let mut iter = vector.iter();
    assert_eq!(iter.next(), Some(&10));
    assert_eq!(iter.next(), Some(&20));
    assert_eq!(iter.next(), None);
}

#[test]
fn test_new() {
    let list: LinkedList<i32> = LinkedList::new();
    assert_eq!(list.length(), 0);
}

#[test]
fn test_push() {
    let mut list = LinkedList::new();
    list.push(1);
    list.push(2);
    list.push(3);
    assert_eq!(list.length(), 3);
}

#[test]
fn test_pop() {
    let mut list = LinkedList::new();
    list.push(1);
    list.push(2);
    list.push(3);
    assert_eq!(list.pop(), Some(3));
    assert_eq!(list.pop(), Some(2));
    assert_eq!(list.pop(), Some(1));
    assert_eq!(list.pop(), None);
    assert_eq!(list.length(), 0);
}

#[test]
fn test_get() {
    let mut list = LinkedList::new();
    list.push(1);
    list.push(2);
    list.push(3);
    assert_eq!(list.get(0), Some(&1));
    assert_eq!(list.get(1), Some(&2));
    assert_eq!(list.get(2), Some(&3));
    assert_eq!(list.get(3), None);
}

#[test]
fn test_get_mut() {
    let mut list = LinkedList::new();
    list.push(1);
    list.push(2);
    list.push(3);
    assert_eq!(list.get_mut(0), Some(&mut 1));
    assert_eq!(list.get_mut(1), Some(&mut 2));
    assert_eq!(list.get_mut(2), Some(&mut 3));
    assert_eq!(list.get_mut(3), None);
}

#[test]
fn test_set() {
    let mut list = LinkedList::new();
    list.push(1);
    list.push(2);
    list.push(3);
    assert_eq!(list.set(0, 4), Some(1));
    assert_eq!(list.set(1, 5), Some(2));
    assert_eq!(list.set(2, 6), Some(3));
    assert_eq!(list.set(3, 7), None);
    assert_eq!(list.get(0), Some(&4));
    assert_eq!(list.get(1), Some(&5));
    assert_eq!(list.get(2), Some(&6));
}

#[test]
fn linked_list_iter_walks_front_to_back() {
    let mut list = LinkedList::new();
    list.push(1);
    list.push(2);
    let mut iter = list.iter();
    assert_eq!(iter.next(), Some(&1));
    assert_eq!(iter.next(), Some(&2));
    assert_eq!(iter.next(), None);
}

#[test]
fn insert() {
    let mut bst = BinarySearchTree::new();

    bst.insert(5);
    bst.insert(3);
    bst.insert(7);
    bst.insert(2);
    bst.insert(4);
    bst.insert(6);
    bst.insert(8);

    assert_eq!(bst.contains(5), true);
    assert_eq!(bst.contains(3), true);
    assert_eq!(bst.contains(7), true);
    assert_eq!(bst.contains(2), true);
    assert_eq!(bst.contains(4), true);
    assert_eq!(bst.contains(6), true);
    assert_eq!(bst.contains(8), true);
    assert_eq!(bst.contains(9), false);
}

#[test]
fn iter() {
    let mut bst = BinarySearchTree::new();

    bst.insert(5);
    bst.insert(3);
    bst.insert(7);
    bst.insert(2);
    bst.insert(4);
    bst.insert(6);
    bst.insert(8);

    let mut iter = bst.iter();

    assert_eq!(iter.next(), Some(&2));
    assert_eq!(iter.next(), Some(&3));
    assert_eq!(iter.next(), Some(&4));
    assert_eq!(iter.next(), Some(&5));
    assert_eq!(iter.next(), Some(&6));
    assert_eq!(iter.next(), Some(&7));
    assert_eq!(iter.next(), Some(&8));
    assert_eq!(iter.next(), None);
}

#[test]
fn test_name() {
    let s: MyString = MyString::from("sfldsf");

    println!("s = {:#?}", s);
    assert_eq!(s.len(), 6);
}

#[test]
fn todo_entries_toggle_and_retitle() {
    let mut todo = Todo::new("Buy milk".to_string());
    assert_eq!(todo.text(), "Buy milk");
    assert!(!todo.is_completed());
    todo.toggle();
    assert!(todo.is_completed());
    todo.toggle();
    assert!(!todo.is_completed());
    todo.set_text("Buy eggs".to_string());
    assert_eq!(todo.text(), "Buy eggs");
}

#[test]
fn history_recall_moves_up_and_down() {
    let mut history = History::new();
    assert_eq!(history.up(), None);
    history.add("first".to_string());
    history.add("second".to_string());
    assert_eq!(history.down(), None);
    assert_eq!(history.up(), Some("second".to_string()));
    assert_eq!(history.up(), Some("first".to_string()));
    assert_eq!(history.up(), Some("first".to_string()));
    assert_eq!(history.down(), Some("second".to_string()));
    assert_eq!(history.down(), None);
}

#[test]
fn the_exit_command_ignores_surrounding_layout() {
    assert!(is_exit_command("exit"));
    assert!(is_exit_command("  exit\n"));
    assert!(is_exit_command("\texit \r\n"));
    assert!(!is_exit_command("exit now"));
    assert!(!is_exit_command("quit"));
    assert!(!is_exit_command(""));
    assert!(!is_exit_command("   \n"));
}
