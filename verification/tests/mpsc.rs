use fumio::mpsc::{Head, Link};

#[test]
fn twoitems() {
    let mut list = Head::new();
    list.push(&Link::new(1));
    list.push(&Link::new(2));
    let mut counter: usize = 1;
    let mut d = list.start_pop();
    while let Some(item) = list.pop_next(&mut d) {
        assert_eq!(counter, item);
        counter += 1;
    }
    assert_eq!(counter, 3);
}

#[test]
fn empty_queue_drains_nothing() {
    let mut list = Head::new();
    let mut d = list.start_pop();
    assert_eq!(list.pop_next(&mut d), None);
}

#[test]
fn drain_meets_stub_at_most_twice() {
    // A producer keeps pushing while the consumer drains: the second
    // meeting with the stub ends the drain, so it stays bounded; the
    // leftover node is seen by the next drain.
    let mut list = Head::new();
    list.push(&Link::new(1));
    let mut d = list.start_pop();
    assert_eq!(list.pop_next(&mut d), Some(1)); // first stub visit, re-pushed
    list.push(&Link::new(2));
    assert_eq!(list.pop_next(&mut d), None); // second stub visit: stop
    let mut d2 = list.start_pop();
    assert_eq!(list.pop_next(&mut d2), Some(2)); // the next drain sees it
    assert_eq!(list.pop_next(&mut d2), None);
}

#[test]
fn nodes_come_out_in_push_order() {
    let mut list = Head::new();
    for id in 10..15usize {
        list.push(&Link::new(id));
    }
    let mut d = list.start_pop();
    for id in 10..15usize {
        assert_eq!(list.pop_next(&mut d), Some(id));
    }
    assert_eq!(list.pop_next(&mut d), None);
}
