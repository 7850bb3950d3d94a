use fumio::local_dl_list::LocalDLHead;

#[test]
fn run() {
    let mut head = LocalDLHead::new();
    head.append(1);
    head.append(2);
    assert_eq!(head.pop_front().unwrap(), 1);
    assert_eq!(head.pop_front().unwrap(), 2);
}

#[test]
fn fresh_head_is_unlinked() {
    let head = LocalDLHead::new();
    assert!(head.is_unlinked());
    assert_eq!(head.len(), 0);
}

#[test]
fn init_keeps_contents() {
    let mut head = LocalDLHead::new();
    head.append(7);
    head.init();
    assert_eq!(head.len(), 1);
    assert!(head.contains(7));
}

#[test]
fn prepend_goes_to_front() {
    let mut head = LocalDLHead::new();
    head.append(1);
    head.prepend(2);
    assert_eq!(head.pop_front(), Some(2));
    assert_eq!(head.pop_front(), Some(1));
    assert_eq!(head.pop_front(), None);
}

#[test]
fn insert_after_and_before() {
    let mut head = LocalDLHead::new();
    head.append(1);
    head.append(3);
    head.insert_after(1, 2);
    head.insert_before(1, 0);
    assert_eq!(head.pop_front(), Some(0));
    assert_eq!(head.pop_front(), Some(1));
    assert_eq!(head.pop_front(), Some(2));
    assert_eq!(head.pop_front(), Some(3));
}

#[test]
fn unlink_removes_wherever_linked() {
    let mut head = LocalDLHead::new();
    head.append(1);
    head.append(2);
    head.append(3);
    head.unlink(2);
    assert!(!head.contains(2));
    head.unlink(9); // unlinked node: no-op
    assert_eq!(head.pop_front(), Some(1));
    assert_eq!(head.pop_front(), Some(3));
    assert_eq!(head.pop_front(), None);
}

#[test]
fn pop_back_takes_the_tail() {
    let mut head = LocalDLHead::new();
    head.append(1);
    head.append(2);
    assert_eq!(head.pop_back(), Some(2));
    assert_eq!(head.pop_back(), Some(1));
    assert_eq!(head.pop_back(), None);
}

#[test]
fn take_from_splices_and_empties() {
    let mut a = LocalDLHead::new();
    let mut b = LocalDLHead::new();
    b.append(1);
    b.append(2);
    a.take_from(&mut b);
    assert!(b.is_unlinked());
    assert_eq!(a.pop_front(), Some(1));
    assert_eq!(a.pop_front(), Some(2));
}
