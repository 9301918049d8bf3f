use network_time_simulator::TimestampActions;

#[test]
fn ta_test() {
    let mut ta_n = TimestampActions::new();
    assert!(!ta_n.contain_process(1));
    assert_eq!(ta_n.nb_process(), 0);
    assert_eq!(ta_n.nb_pkt(), 0);

    let mut ta_pc = TimestampActions::new_process(1);
    assert!(ta_pc.contain_process(1));
    assert_eq!(ta_pc.nb_process(), 1);
    assert_eq!(ta_pc.nb_pkt(), 0);

    let ta_pk = TimestampActions::new_pkt_id(2, 2);
    assert!(!ta_pk.contain_process(1));
    assert_eq!(ta_pk.nb_process(), 0);
    assert_eq!(ta_pk.nb_pkt(), 1);

    assert_eq!(ta_n.add_process(1), 1);
    assert_eq!(ta_n.nb_process(), 1);
    assert!(ta_n.contain_process(1));
    assert_eq!(ta_n, ta_pc);

    assert_eq!(ta_n.add_process(1), 2);
    assert_eq!(ta_n.nb_process(), 2);
    assert!(ta_n.contain_process(1));

    assert_eq!(ta_n.add_process(1), 3);
    assert_eq!(ta_n.nb_process(), 3);
    assert!(ta_n.contain_process(1));

    assert_eq!(ta_n.del_process(1), 2);
    assert_eq!(ta_n.nb_process(), 2);
    assert!(ta_n.contain_process(1));

    assert_eq!(ta_n.del_process(1), 1);
    assert_eq!(ta_n.nb_process(), 1);
    assert!(ta_n.contain_process(1));
    assert_eq!(ta_n, ta_pc);

    assert_eq!(ta_n.del_process(1), 0);
    assert_eq!(ta_n.nb_process(), 0);
    assert!(!ta_n.contain_process(1));

    ta_n.add_packet(2, 2);
    assert_eq!(ta_n, ta_pk);

    ta_pc.add_packet(3, 2);
    assert_ne!(ta_n, ta_pc);

    let ta_pc2 = TimestampActions::new_pkt_id(2, 3);
    assert_ne!(ta_n, ta_pc2);

    ta_pc.add_packet(2, 4);
    ta_pc.add_packet(2, 5);
    ta_pc.add_packet(3, 4);
    assert_eq!(ta_pc.nb_pkt(), 2);

    let mut ta_vec = ta_pc.flatten();

    assert!(ta_vec.contains(&(3, 2)));
    let index = ta_vec.iter().position(|x| *x == (3, 2)).unwrap();
    ta_vec.swap_remove(index);

    assert!(ta_vec.contains(&(2, 4)));
    let index = ta_vec.iter().position(|x| *x == (2, 4)).unwrap();
    ta_vec.swap_remove(index);

    assert!(ta_vec.contains(&(2, 5)));
    let index = ta_vec.iter().position(|x| *x == (2, 5)).unwrap();
    ta_vec.swap_remove(index);

    assert!(ta_vec.contains(&(3, 4)));
    let index = ta_vec.iter().position(|x| *x == (3, 4)).unwrap();
    ta_vec.swap_remove(index);
    assert_eq!(ta_vec.len(), 0);
}

#[test]
fn flatten_orders_by_process_then_by_arrival() {
    let mut ta = TimestampActions::new();
    ta.add_packet(200, 7);
    ta.add_packet(3, 2);
    ta.add_packet(200, 1);
    ta.add_packet(0, 9);
    ta.add_packet(3, 5);
    assert_eq!(ta.nb_pkt(), 3);
    assert_eq!(ta.flatten(), vec![(0, 9), (3, 2), (3, 5), (200, 7), (200, 1)]);
}

#[test]
fn flatten_of_a_single_packet() {
    assert_eq!(TimestampActions::new_pkt_id(4, 11).flatten(), vec![(4, 11)]);
    assert_eq!(TimestampActions::new_process(4).flatten(), vec![]);
}

#[test]
fn del_process_removes_the_first_occurrence() {
    let mut a = TimestampActions::new();
    a.add_process(1);
    a.add_process(2);
    a.add_process(1);
    assert_eq!(a.del_process(1), 2);
    let mut b = TimestampActions::new();
    b.add_process(2);
    b.add_process(1);
    assert_eq!(a, b);
}

#[test]
fn add_then_del_restores_the_wake_ups() {
    let mut a = TimestampActions::new_process(5);
    a.add_process(6);
    let before = a.clone();
    a.add_process(7);
    a.del_process(7);
    assert_eq!(a, before);
    assert_eq!(a.nb_process(), 2);
}

#[test]
fn packets_do_not_count_as_wake_ups() {
    let mut a = TimestampActions::new();
    a.add_packet(1, 1);
    a.add_packet(1, 2);
    assert_eq!(a.nb_process(), 0);
    assert!(!a.contain_process(1));
    assert_eq!(a.nb_pkt(), 1);
}

#[test]
fn nb_pkt_counts_the_processes_in_flatten() {
    let mut t = TimestampActions::new();
    assert_eq!(t.nb_pkt(), 0);
    assert!(t.clone().flatten().is_empty());
    t.add_packet(3, 2);
    t.add_packet(2, 4);
    t.add_packet(2, 5);
    t.add_packet(3, 4);
    t.add_packet(3, 4);
    let flat = t.clone().flatten();
    let mut ids: Vec<u8> = flat.iter().map(|x| x.0).collect();
    ids.dedup();
    assert_eq!(t.nb_pkt(), ids.len());
    assert!(t.nb_pkt() <= flat.len());
    assert_eq!(flat, vec![(2, 4), (2, 5), (3, 2), (3, 4), (3, 4)]);
}
