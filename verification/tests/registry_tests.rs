use console_mux::registry::{ActiveConnection, ActiveConnectionList};

fn ids(entries: &Vec<ActiveConnection<&'static str, u32>>) -> Vec<u64> {
    entries.iter().map(|e| e.id).collect()
}

fn three() -> ActiveConnectionList<&'static str, u32> {
    let mut list = ActiveConnectionList::new();
    assert_eq!(list.add("a", 10), Ok(0));
    assert_eq!(list.add("b", 11), Ok(1));
    assert_eq!(list.add("c", 12), Ok(2));
    list
}

#[test]
fn new_registry_is_empty() {
    let mut list: ActiveConnectionList<&'static str, u32> = ActiveConnectionList::new();
    assert_eq!(list.len(), 0);
    assert_eq!(list.next_id(), 0);
    assert!(!list.contains(0));
    assert!(list.drain().is_empty());
}

#[test]
fn add_gives_rising_identifiers() {
    let list = three();
    assert_eq!(list.len(), 3);
    assert_eq!(list.next_id(), 3);
}

#[test]
fn next_id_is_the_identifier_that_add_gives() {
    let mut list = three();
    let announced = list.next_id();
    assert!(!list.contains(announced));
    assert_eq!(list.add("d", 13), Ok(announced));
    assert!(list.contains(announced));
}

#[test]
fn contains_finds_what_was_added() {
    let list = three();
    assert!(list.contains(0));
    assert!(list.contains(1));
    assert!(list.contains(2));
    assert!(!list.contains(3));
}

#[test]
fn remove_hands_out_the_entry() {
    let mut list = three();
    let entry = list.remove(1).expect("entry 1 is live");
    assert_eq!(entry.id, 1);
    assert_eq!(entry.stream, "b");
    assert_eq!(entry.thread, 11);
    assert_eq!(list.len(), 2);
    assert!(!list.contains(1));
    assert!(list.contains(0));
    assert!(list.contains(2));
}

#[test]
fn remove_twice_finds_nothing_the_second_time() {
    let mut list = three();
    assert!(list.remove(1).is_some());
    assert!(list.remove(1).is_none());
    assert_eq!(list.len(), 2);
}

#[test]
fn remove_of_an_unknown_identifier_changes_nothing() {
    let mut list = three();
    assert!(list.remove(7).is_none());
    assert_eq!(list.len(), 3);
    assert_eq!(ids(&list.drain()), vec![0, 1, 2]);
}

#[test]
fn remove_keeps_the_order_of_the_others() {
    let mut list = three();
    list.remove(0);
    assert_eq!(list.add("d", 13), Ok(3));
    list.remove(2);
    assert_eq!(ids(&list.drain()), vec![1, 3]);
}

#[test]
fn identifiers_are_not_given_out_again() {
    let mut list = three();
    list.remove(2);
    list.remove(0);
    assert_eq!(list.add("d", 13), Ok(3));
    list.drain();
    assert_eq!(list.add("e", 14), Ok(4));
}

#[test]
fn drain_takes_all_oldest_first() {
    let mut list = three();
    let taken = list.drain();
    assert_eq!(ids(&taken), vec![0, 1, 2]);
    assert_eq!(taken[0].stream, "a");
    assert_eq!(taken[2].thread, 12);
    assert_eq!(list.len(), 0);
}

#[test]
fn drain_twice_takes_nothing_the_second_time() {
    let mut list = three();
    assert_eq!(list.drain().len(), 3);
    assert!(list.drain().is_empty());
    assert_eq!(list.len(), 0);
}

#[test]
fn worker_that_finishes_before_the_drain_is_not_drained() {
    let mut list = three();
    let own = list.remove(1);
    let drained = list.drain();
    assert_eq!(own.map(|e| e.id), Some(1));
    assert_eq!(ids(&drained), vec![0, 2]);
}

#[test]
fn worker_that_finishes_after_the_drain_finds_nothing() {
    let mut list = three();
    let drained = list.drain();
    let own = list.remove(1);
    assert!(own.is_none());
    assert_eq!(ids(&drained), vec![0, 1, 2]);
    assert_eq!(list.len(), 0);
}

#[test]
fn every_entry_leaves_exactly_once_in_either_order() {
    for id in 0..3u64 {
        let mut first = three();
        let mut handed_out: Vec<u64> = first.remove(id).into_iter().map(|e| e.id).collect();
        handed_out.extend(first.drain().into_iter().map(|e| e.id));
        handed_out.sort();
        assert_eq!(handed_out, vec![0, 1, 2]);

        let mut second = three();
        let mut handed_out: Vec<u64> = second.drain().into_iter().map(|e| e.id).collect();
        handed_out.extend(second.remove(id).into_iter().map(|e| e.id));
        handed_out.sort();
        assert_eq!(handed_out, vec![0, 1, 2]);
    }
}

#[test]
fn registry_works_again_after_a_drain() {
    let mut list = three();
    list.drain();
    assert_eq!(list.add("d", 13), Ok(3));
    assert_eq!(list.len(), 1);
    assert!(list.contains(3));
}

#[test]
fn starting_at_gives_the_first_identifier() {
    let mut list: ActiveConnectionList<&'static str, u32> = ActiveConnectionList::starting_at(40);
    assert_eq!(list.len(), 0);
    assert_eq!(list.next_id(), 40);
    assert_eq!(list.add("a", 10), Ok(40));
    assert_eq!(list.add("b", 11), Ok(41));
    assert!(!list.contains(0));
    assert!(list.contains(41));
}

#[test]
fn add_gives_the_pair_back_when_no_identifier_is_left() {
    let mut list: ActiveConnectionList<&'static str, u32> =
        ActiveConnectionList::starting_at(u64::MAX - 1);
    assert_eq!(list.add("a", 10), Ok(u64::MAX - 1));
    assert_eq!(list.next_id(), u64::MAX);
    assert_eq!(list.add("b", 11), Err(("b", 11)));
    assert_eq!(list.add("c", 12), Err(("c", 12)));
    assert_eq!(list.len(), 1);
    assert_eq!(ids(&list.drain()), vec![u64::MAX - 1]);
}
