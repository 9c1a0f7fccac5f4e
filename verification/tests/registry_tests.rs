use relay::registry::Connections;

#[test]
fn ids_are_strictly_increasing_and_unique() {
    let mut reg = Connections::new();
    let a = reg.store(10);
    let b = reg.store(20);
    let c = reg.store(30);
    assert_eq!(a, 1);
    assert_eq!(b, 2);
    assert_eq!(c, 3);
    let snapshot = reg.broadcast();
    assert_eq!(snapshot, vec![(1, 10), (2, 20), (3, 30)]);
}

#[test]
fn remove_drops_exactly_the_one_entry() {
    let mut reg = Connections::new();
    reg.store(10);
    reg.store(20);
    reg.store(30);
    reg.remove(2);
    let snapshot = reg.broadcast();
    assert_eq!(snapshot, vec![(1, 10), (3, 30)]);
}

#[test]
fn remove_absent_id_is_a_no_op() {
    let mut reg = Connections::new();
    reg.store(10);
    reg.store(20);
    reg.remove(9);
    assert_eq!(reg.broadcast(), vec![(1, 10), (2, 20)]);
}

#[test]
fn remove_is_idempotent() {
    let mut reg = Connections::new();
    reg.store(10);
    reg.store(20);
    reg.remove(1);
    assert_eq!(reg.broadcast(), vec![(2, 20)]);
    reg.remove(1);
    assert_eq!(reg.broadcast(), vec![(2, 20)]);
}

#[test]
fn ids_are_never_reused() {
    let mut reg = Connections::new();
    let a = reg.store(10);
    reg.remove(a);
    let b = reg.store(11);
    assert_eq!(b, 2);
    assert_eq!(reg.broadcast(), vec![(2, 11)]);
}

#[test]
fn empty_registry_broadcasts_to_nobody() {
    let reg = Connections::new();
    assert_eq!(reg.broadcast(), vec![]);
}
