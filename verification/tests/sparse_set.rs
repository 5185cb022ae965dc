use view_engine::common::SparseSet;

#[test]
fn add_appends_new_keys_in_order() {
    let mut set: SparseSet<u16> = SparseSet::new();
    set.add(7);
    set.add(3);
    set.add(900);
    assert_eq!(set.to_vec(), vec![7, 3, 900]);
    assert_eq!(set.len(), 3);
    assert!(set.contains(900));
    assert!(!set.contains(4));
}

#[test]
fn add_is_idempotent() {
    let mut set: SparseSet<u16> = SparseSet::new();
    set.add(5);
    set.add(5);
    assert_eq!(set.to_vec(), vec![5]);
}

#[test]
fn remove_moves_the_last_key_into_the_gap() {
    let mut set: SparseSet<u16> = SparseSet::from_iter(vec![10, 20, 30, 40]);
    set.remove(20);
    assert_eq!(set.to_vec(), vec![10, 40, 30]);
    assert!(!set.contains(20));
    assert!(set.contains(40));
    set.remove(30);
    assert_eq!(set.to_vec(), vec![10, 40]);
}

#[test]
fn remove_of_an_absent_key_changes_nothing() {
    let mut set: SparseSet<u16> = SparseSet::from_iter(vec![1, 2]);
    set.remove(9);
    set.remove(60000);
    assert_eq!(set.to_vec(), vec![1, 2]);
}

#[test]
fn remove_at_returns_the_key_at_that_place() {
    let mut set: SparseSet<u8> = SparseSet::from_iter(vec![4, 5, 6]);
    assert_eq!(set.remove_at(0), 4);
    assert_eq!(set.to_vec(), vec![6, 5]);
    assert_eq!(set.remove_at(1), 5);
    assert_eq!(set.to_vec(), vec![6]);
}

#[test]
fn add_then_remove_gives_back_the_size() {
    let mut set: SparseSet<u16> = SparseSet::from_iter(vec![1, 2, 3]);
    let before = set.len();
    set.add(77);
    assert_eq!(set.len(), before + 1);
    set.remove(77);
    assert_eq!(set.len(), before);
    assert_eq!(set.to_vec(), vec![1, 2, 3]);
}

#[test]
fn members_are_the_keys_added_last_without_a_later_remove() {
    let mut set: SparseSet<u16> = SparseSet::new();
    set.add(1);
    set.add(2);
    set.remove(1);
    set.add(3);
    set.add(1);
    set.remove(2);
    set.remove(2);
    let mut keys = set.to_vec();
    keys.sort();
    assert_eq!(keys, vec![1, 3]);
}

#[test]
fn from_iter_keeps_each_key_once() {
    let set: SparseSet<u16> = SparseSet::from_iter(vec![3, 1, 3, 2, 1]);
    assert_eq!(set.to_vec(), vec![3, 1, 2]);
}

#[test]
fn remove_random_key_returns_a_member_and_takes_it_out() {
    let mut set: SparseSet<u16> = SparseSet::from_iter(vec![11, 22, 33, 44, 55]);
    let mut seen = Vec::new();
    while !set.is_empty() {
        let before = set.len();
        let key = set.remove_random_key();
        assert!(vec![11, 22, 33, 44, 55].contains(&key));
        assert!(!set.contains(key));
        assert_eq!(set.len(), before - 1);
        seen.push(key);
    }
    seen.sort();
    assert_eq!(seen, vec![11, 22, 33, 44, 55]);
}

#[test]
fn remove_random_key_of_a_single_member() {
    let mut set: SparseSet<u16> = SparseSet::new();
    set.add(480);
    assert_eq!(set.remove_random_key(), 480);
    assert!(set.is_empty());
}

#[test]
fn default_is_empty() {
    let set: SparseSet<u8> = SparseSet::default();
    assert!(set.is_empty());
    assert_eq!(set.len(), 0);
}
