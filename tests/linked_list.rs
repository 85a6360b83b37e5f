use rust_data_structures::linked_list::LinkedList;
use std::cell::Cell;
use std::collections::VecDeque;
use std::rc::Rc;

#[test]
fn test_push_pop_front() {
    let mut list = LinkedList::new();

    list.push_front(3);
    list.push_front(2);
    list.push_front(1);

    assert_eq!(list.len(), 3);

    assert_eq!(list.pop_front(), Some(1));
    assert_eq!(list.pop_front(), Some(2));
    assert_eq!(list.pop_front(), Some(3));
    assert_eq!(list.pop_front(), None);

    assert_eq!(list.len(), 0);
}

#[test]
fn test_push_pop_back() {
    let mut list = LinkedList::new();

    list.push_back(1);
    list.push_back(2);
    list.push_back(3);

    assert_eq!(list.len(), 3);

    assert_eq!(list.pop_back(), Some(3));
    assert_eq!(list.pop_back(), Some(2));
    assert_eq!(list.pop_back(), Some(1));
    assert_eq!(list.pop_back(), None);

    assert_eq!(list.len(), 0);
}

#[test]
fn test_push_front_pop_back() {
    let mut list = LinkedList::new();

    list.push_front(3);
    list.push_front(2);
    list.push_front(1);

    assert_eq!(list.pop_back(), Some(3));
    assert_eq!(list.pop_back(), Some(2));
    assert_eq!(list.pop_back(), Some(1));
    assert_eq!(list.pop_back(), None);
}

#[test]
fn test_iter() {
    let mut list = LinkedList::new();
    list.push_back(1);
    list.push_back(2);
    list.push_back(3);

    let mut iter = list.iter();
    assert_eq!(iter.next(), Some(&1));
    assert_eq!(iter.next(), Some(&2));
    assert_eq!(iter.next(), Some(&3));
    assert_eq!(iter.next(), None);
}

#[test]
fn test_iter_mut() {
    let mut list = LinkedList::new();
    list.push_back(1);
    list.push_back(2);
    list.push_back(3);

    let mut items = list.iter_mut();
    while let Some(item) = items.next() {
        *item *= 2;
    }

    let mut iter = list.iter();
    assert_eq!(iter.next(), Some(&2));
    assert_eq!(iter.next(), Some(&4));
    assert_eq!(iter.next(), Some(&6));
    assert_eq!(iter.next(), None);
}

fn forward(list: &LinkedList<i64>) -> Vec<i64> {
    let mut out = Vec::new();
    let mut it = list.iter();
    while let Some(x) = it.next() {
        out.push(*x);
    }
    out
}

fn backward(list: &LinkedList<i64>) -> Vec<i64> {
    let mut out = Vec::new();
    let mut it = list.iter();
    while let Some(x) = it.next_back() {
        out.push(*x);
    }
    out
}

#[test]
fn interleaved_ops_match_a_deque() {
    let mut list = LinkedList::new();
    let mut model = VecDeque::new();
    let mut seed: u64 = 12345;
    for step in 0..2000i64 {
        seed = seed.wrapping_mul(6364136223846793005).wrapping_add(1442695040888963407);
        match (seed >> 33) % 4 {
            0 => {
                list.push_front(step);
                model.push_front(step);
            }
            1 => {
                list.push_back(step);
                model.push_back(step);
            }
            2 => assert_eq!(list.pop_front(), model.pop_front()),
            _ => assert_eq!(list.pop_back(), model.pop_back()),
        }
        assert_eq!(list.len(), model.len());
        assert_eq!(list.front(), model.front());
        assert_eq!(list.back(), model.back());
    }
    let expected: Vec<i64> = model.iter().copied().collect();
    assert_eq!(forward(&list), expected);
    let reversed: Vec<i64> = model.iter().rev().copied().collect();
    assert_eq!(backward(&list), reversed);
}

#[test]
fn scenario_mixed_pushes() {
    let mut l = LinkedList::new();
    l.push_front(2);
    l.push_front(1);
    l.push_back(3);
    l.push_front(0);
    assert_eq!(forward(&l), vec![0, 1, 2, 3]);
    assert_eq!(l.pop_back(), Some(3));
    assert_eq!(l.pop_front(), Some(0));
    assert_eq!(l.len(), 2);
}

#[test]
fn scenario_iterator_meets_in_middle() {
    let mut l = LinkedList::new();
    l.push_back(1);
    l.push_back(2);
    l.push_back(3);
    let mut it = l.iter();
    assert_eq!(it.next(), Some(&1));
    assert_eq!(it.next_back(), Some(&3));
    assert_eq!(it.next_back(), Some(&2));
    assert_eq!(it.next(), None);
    assert_eq!(it.next_back(), None);
}

#[test]
fn iterator_yields_each_element_once() {
    let list = LinkedList::from_iter(vec![1i64, 2, 3, 4, 5, 6, 7]);
    let mut it = list.iter();
    let mut seen = Vec::new();
    let mut front = true;
    assert_eq!(it.size_hint(), (7, Some(7)));
    loop {
        let next = if front { it.next() } else { it.next_back() };
        match next {
            Some(x) => seen.push(*x),
            None => break,
        }
        front = !front;
    }
    assert_eq!(seen, vec![1, 7, 2, 6, 3, 5, 4]);
    assert_eq!(it.size_hint(), (0, Some(0)));
}

#[test]
fn iter_mut_from_both_ends() {
    let mut list = LinkedList::from_iter(vec![1i64, 2, 3]);
    {
        let mut it = list.iter_mut();
        *it.next_back().unwrap() = 30;
        *it.next().unwrap() = 10;
        assert_eq!(it.size_hint(), (1, Some(1)));
        *it.next().unwrap() = 20;
        assert!(it.next().is_none());
        assert!(it.next_back().is_none());
    }
    assert_eq!(forward(&list), vec![10, 20, 30]);
}

#[test]
fn empty_list_accessors() {
    let mut list: LinkedList<i64> = LinkedList::new();
    assert!(list.is_empty());
    assert_eq!(list.front(), None);
    assert_eq!(list.back(), None);
    assert!(list.front_mut().is_none());
    assert!(list.back_mut().is_none());
    assert_eq!(list.pop_front(), None);
    assert_eq!(list.pop_back(), None);
    assert_eq!(list.iter().next(), None);
}

#[test]
fn front_and_back_mut() {
    let mut list = LinkedList::from_iter(vec![1i64, 2, 3]);
    *list.front_mut().unwrap() = 100;
    *list.back_mut().unwrap() = 300;
    assert_eq!(list.front(), Some(&100));
    assert_eq!(list.back(), Some(&300));
    assert_eq!(forward(&list), vec![100, 2, 300]);
}

#[test]
fn extend_appends_in_order() {
    let mut list = LinkedList::new();
    list.push_back(1i64);
    list.extend(vec![2, 3, 4]);
    assert_eq!(forward(&list), vec![1, 2, 3, 4]);
    list.extend(Vec::new());
    assert_eq!(list.len(), 4);
}

#[test]
fn push_then_pop_same_end() {
    let mut list = LinkedList::from_iter(vec![5i64, 6]);
    list.push_back(9);
    assert_eq!(list.pop_back(), Some(9));
    list.push_front(8);
    assert_eq!(list.pop_front(), Some(8));
    assert_eq!(forward(&list), vec![5, 6]);
}

#[test]
fn clone_is_independent_list() {
    let mut a = LinkedList::from_iter(vec![1i64, 2, 3]);
    let mut b = a.clone();
    assert_eq!(forward(&b), vec![1, 2, 3]);
    b.push_back(4);
    *b.front_mut().unwrap() = 10;
    assert_eq!(forward(&a), vec![1, 2, 3]);
    a.pop_back();
    assert_eq!(forward(&b), vec![10, 2, 3, 4]);
    assert_eq!(forward(&a), vec![1, 2]);
}

#[test]
fn clone_after_removals() {
    let mut a = LinkedList::new();
    for i in 0..10i64 {
        a.push_front(i);
        a.push_back(-i);
    }
    a.pop_front();
    a.pop_back();
    a.pop_front();
    let b = a.clone();
    assert_eq!(forward(&a), forward(&b));
    assert_eq!(backward(&a), backward(&b));
}

#[test]
fn default_list_is_empty() {
    let list: LinkedList<u8> = Default::default();
    assert_eq!(list.len(), 0);
}

struct Counted(Rc<Cell<usize>>);

impl Drop for Counted {
    fn drop(&mut self) {
        self.0.set(self.0.get() + 1);
    }
}

fn list_teardown(n: usize) {
    let drops = Rc::new(Cell::new(0));
    let mut list = LinkedList::new();
    for _ in 0..n {
        list.push_back(Counted(drops.clone()));
    }
    list.clear();
    assert_eq!(drops.get(), n);
    assert!(list.is_empty());

    let drops = Rc::new(Cell::new(0));
    let mut list = LinkedList::new();
    for _ in 0..n {
        list.push_front(Counted(drops.clone()));
    }
    drop(list);
    assert_eq!(drops.get(), n);
}

#[test]
fn clear_and_drop_release_each_element_once() {
    for n in [0usize, 1, 1000, 100000] {
        list_teardown(n);
    }
}
