use network_time_simulator::{
    deserialize_rust, sent_matches, serialize_rust, Ipv4AddrC, Leader, Message, NetworkTopology, Reply, Scheduler, State,
};
use std::collections::VecDeque;

fn star(nb: u32) -> NetworkTopology {
    let mut nodes = format!(
        "  node [
    id {}
    interface [
      id 0
      ip [
        type \"v4\"
        ip \"10.0.0.{}\"
      ]
    ]
  ]
",
        nb + 1,
        nb + 1
    );
    let mut edges = String::new();
    for i in 1..nb + 1 {
        nodes.push_str(&format!(
            "  node [
    id {}
    interface [
      id 0
      ip [
        type \"v4\"
        ip \"10.0.0.{}\"
      ]
    ]
  ]
",
            i, i
        ));
        edges.push_str(&format!(
            "  edge [
    source {}
    source_if 0
    target {}
    target_if 0
    metric 20
    type \"symmetric\"
  ]
",
            i,
            nb + 1
        ));
    }
    NetworkTopology::load(&format!("graph [\n  id 4\n{}{}]", nodes, edges)).unwrap()
}

#[test]
fn test_messages_handler() {
    const SIZE_TEST: usize = 4;
    let topo = NetworkTopology::new().unwrap();
    let mut sim = Scheduler::new(SIZE_TEST);

    //test with one timestamp
    sim.handle_message(deserialize_rust(serialize_rust(Message::AddStep(1, 1))), 0, &topo, 0);
    if let Some((1, v2)) = sim.first_timespot() {
        assert!(v2.contain_process(1));
        assert_eq!(v2.nb_process(), 1);
    } else {
        assert!(false);
    }

    let _ = sim.handle_message(deserialize_rust(serialize_rust(Message::AddStep(2, 1))), 0, &topo, 0);
    if let Some((1, v2)) = sim.first_timespot() {
        assert!(v2.contain_process(1));
        assert!(v2.contain_process(2));
        assert_eq!(v2.nb_process(), 2);
    } else {
        assert!(false);
    }

    let _ = sim.handle_message(deserialize_rust(serialize_rust(Message::AddStep(2, 1))), 0, &topo, 0);
    if let Some((1, v2)) = sim.first_timespot() {
        let mut ta = v2.clone();
        assert!(v2.contain_process(1));
        assert!(v2.contain_process(2));
        assert_eq!(v2.nb_process(), 3);
        ta.del_process(2);
        assert!(ta.contain_process(2));
    } else {
        assert!(false);
    }

    let _ = sim.handle_message(deserialize_rust(serialize_rust(Message::DelStep(1, 1))), 0, &topo, 0);
    if let Some((1, v2)) = sim.first_timespot() {
        assert!(!v2.contain_process(1));
        assert!(v2.contain_process(2));
        assert_eq!(v2.nb_process(), 2);
    } else {
        assert!(false);
    }
}

#[test]
fn get_time_answers_the_current_time() {
    let topo = NetworkTopology::new().unwrap();
    let mut sim = Scheduler::new(2);
    assert_eq!(sim.handle_message(Message::GetTime(2), 17, &topo, 0), Some((2, Reply::Time(17))));
    assert_eq!(Reply::Time(17).to_message(), Message::WakeUp(17));
    assert_eq!(sim.handle_message(Message::AddStep(1, 3), 17, &topo, 0), None);
}

#[test]
fn progress_after_stuck_and_finished() {
    let topo = NetworkTopology::new().unwrap();
    let mut sim = Scheduler::new(2);
    assert_eq!(sim.progress(), None);
    sim.handle_message(Message::Stuck(1), 0, &topo, 0);
    assert_eq!(sim.state_of(1), State::Blocked);
    assert_eq!(sim.state_of(2), State::Running);
    assert_eq!(sim.progress(), None);
    sim.handle_message(Message::Finished(2), 0, &topo, 0);
    assert_eq!(sim.progress(), Some(State::Blocked));
    sim.handle_message(Message::Finished(1), 0, &topo, 0);
    assert_eq!(sim.progress(), Some(State::Finished));
}

#[test]
fn no_followers_means_finished() {
    let sim = Scheduler::new(0);
    assert_eq!(sim.progress(), Some(State::Finished));
}

#[test]
fn timespots_come_in_time_order() {
    let topo = NetworkTopology::new().unwrap();
    let mut sim = Scheduler::new(2);
    sim.handle_message(Message::AddStep(1, 30), 0, &topo, 0);
    sim.handle_message(Message::AddStep(2, 10), 0, &topo, 0);
    sim.handle_message(Message::AddStep(1, 20), 0, &topo, 0);
    let (t1, a1) = sim.next_timespot().unwrap();
    assert_eq!(t1, 10);
    assert!(a1.contain_process(2));
    assert_eq!(sim.next_timespot().unwrap().0, 20);
    assert_eq!(sim.next_timespot().unwrap().0, 30);
    assert!(sim.next_timespot().is_none());
}

#[test]
fn waking_skips_finished_followers() {
    let topo = NetworkTopology::new().unwrap();
    let mut sim = Scheduler::new(3);
    sim.handle_message(Message::Finished(2), 0, &topo, 0);
    sim.handle_message(Message::Stuck(3), 0, &topo, 0);
    assert_eq!(sim.wake_unfinished(), vec![1, 3]);
    assert_eq!(sim.state_of(3), State::Running);
    assert_eq!(sim.state_of(2), State::Finished);
    assert_eq!(sim.wake_all(), vec![1, 2, 3]);
    assert_eq!(sim.state_of(2), State::Running);
}

#[test]
fn packets_are_scheduled_after_the_link_delay() {
    let topo = star(2);
    let mut sim = Scheduler::new(2);
    let m = Message::HasToSend4(1, 0, Ipv4AddrC::new(10, 0, 0, 3), 8);
    assert!(sim.can_handle(&m, 5, &topo, 0));
    sim.handle_message(m, 5, &topo, 0);
    let m2 = Message::HasToSend4(2, 0, Ipv4AddrC::new(10, 0, 0, 3), 9);
    sim.handle_message(m2, 5, &topo, 3);
    let ta = sim.actions_at(25).expect("packet scheduled at 5 + 20");
    assert_eq!(ta.nb_pkt(), 1);
    assert_eq!(ta.clone().flatten(), vec![(1, 8)]);
    assert_eq!(sim.actions_at(28).unwrap().clone().flatten(), vec![(2, 9)]);
    let (t, ta) = sim.next_timespot().unwrap();
    assert_eq!(t, 25);
    assert_eq!(ta.flatten(), vec![(1, 8)]);
}

#[test]
fn messages_that_cannot_be_handled() {
    let topo = star(2);
    let sim = Scheduler::new(2);
    // no link leads from node 1 to node 2
    assert!(!sim.can_handle(&Message::HasToSend4(1, 0, Ipv4AddrC::new(10, 0, 0, 2), 1), 0, &topo, 0));
    assert!(!sim.can_handle(&Message::HasToSend4(3, 0, Ipv4AddrC::new(10, 0, 0, 3), 1), 0, &topo, 0));
    assert!(!sim.can_handle(&Message::Stuck(0), 0, &topo, 0));
    assert!(!sim.can_handle(&Message::Finished(3), 0, &topo, 0));
    assert!(sim.can_handle(&Message::DelStep(1, 4), 0, &topo, 0));
    assert!(!sim.can_handle(&Message::GetTime(3), 0, &topo, 0));
    assert!(sim.can_handle(&Message::GetTime(2), 0, &topo, 0));
    assert!(!sim.can_handle(&Message::HasToSend4(1, 0, Ipv4AddrC::new(10, 0, 0, 3), 1), u64::MAX - 5, &topo, 0));
}

#[test]
fn del_step_of_an_absent_process_cannot_be_handled() {
    let topo = NetworkTopology::new().unwrap();
    let mut sim = Scheduler::new(2);
    sim.handle_message(Message::AddStep(1, 4), 0, &topo, 0);
    assert!(!sim.can_handle(&Message::DelStep(2, 4), 0, &topo, 0));
    assert!(sim.can_handle(&Message::DelStep(1, 4), 0, &topo, 0));
    assert!(sim.can_handle(&Message::DelStep(2, 5), 0, &topo, 0));
}

#[test]
fn random_seeds_count_repeated_requests() {
    let topo = NetworkTopology::new().unwrap();
    let mut sim = Scheduler::new(2);
    assert_eq!(sim.rand_seed(1, 34), 34);
    assert_eq!(sim.rand_seed(1, 34), 68);
    assert_eq!(sim.rand_seed(2, 34), 34);
    assert_eq!(sim.rand_seed(1, 52), 52);
    assert_eq!(sim.rand_seed(1, 34), 34);
    assert_eq!(sim.rand_seed(1, 34), 68);
    assert_eq!(sim.handle_message(Message::GetRand(2, 7), 0, &topo, 0), Some((2, Reply::Random(7))));
    assert_eq!(sim.handle_message(Message::GetRand(2, 7), 0, &topo, 0), Some((2, Reply::Random(14))));
    assert_eq!(sim.handle_message(Message::GetRand(1, 34), 0, &topo, 0), Some((1, Reply::Random(102))));
}

#[test]
fn random_numbers_follow_the_seed() {
    let topo = NetworkTopology::new().unwrap();
    let mut a = Scheduler::new(2);
    let mut b = Scheduler::new(2);
    let x1 = a.handle_message(Message::GetRand(1, 34), 0, &topo, 0).unwrap().1.to_message();
    let x2 = a.handle_message(Message::GetRand(1, 34), 0, &topo, 0).unwrap().1.to_message();
    let y1 = b.handle_message(Message::GetRand(2, 34), 0, &topo, 0).unwrap().1.to_message();
    assert_ne!(x1, x2);
    assert_eq!(x1, y1);
    assert_eq!(Reply::Random(34).to_message(), x1);
}

#[test]
fn sent_acknowledgements() {
    assert!(sent_matches(1, 42, &Message::Sent(1, 42)));
    assert!(!sent_matches(1, 42, &Message::Sent(2, 42)));
    assert!(!sent_matches(1, 42, &Message::Sent(1, 43)));
    assert!(!sent_matches(1, 42, &Message::Send(42)));
}

#[test]
fn first_timespot_is_left_in_place() {
    let topo = NetworkTopology::new().unwrap();
    let mut sim = Scheduler::new(2);
    assert!(sim.first_timespot().is_none());
    sim.handle_message(Message::AddStep(1, 30), 0, &topo, 0);
    sim.handle_message(Message::AddStep(2, 10), 0, &topo, 0);
    assert_eq!(sim.first_timespot().map(|(t, _)| t), Some(10));
    assert_eq!(sim.first_timespot().map(|(t, _)| t), Some(10));
    assert_eq!(sim.next_timespot().map(|(t, _)| t), Some(10));
    assert_eq!(sim.first_timespot().map(|(t, _)| t), Some(30));
}

/// Runs the library's leader on the messages of the followers, read in
/// order from `inbox` (as the leader's queue would deliver them); a follower
/// told to send a packet acknowledges it at once. Returns the result of the
/// simulation and the messages sent to each follower, in order.
fn run_leader(nb: usize, topo: &NetworkTopology, inbox: Vec<Message>) -> (u8, Vec<(u8, Message)>) {
    let mut leader = Leader::new(nb);
    let mut inbox: VecDeque<Message> = inbox.into();
    let mut sent: Vec<(u8, Message)> = leader.start();
    loop {
        let m = deserialize_rust(serialize_rust(inbox.pop_front().expect("a follower message")));
        let step = leader.on_message(m, topo, 0).expect("the message is taken");
        if let Some((id, reply)) = step.answer {
            sent.push((id, reply.to_message()));
        }
        for (id, m) in step.send {
            if let Message::Send(pkt_id) = m {
                let ack = Message::Sent(id, pkt_id);
                assert!(sent_matches(id, pkt_id, &ack));
                inbox.push_front(ack);
            }
            sent.push((id, m));
        }
        if let Some(code) = step.stop {
            return (code, sent);
        }
    }
}

fn mini_setup(nb_add_step: u64, nb_stuck: u64, nb_recv: u64, return_value: u8) {
    let mut inbox = Vec::new();
    for i in 1..nb_add_step + 1 {
        inbox.push(Message::AddStep(1, i));
    }
    for _i in 1..nb_stuck + 1 {
        inbox.push(Message::Stuck(1));
        inbox.push(Message::Stuck(2));
    }
    inbox.push(Message::Finished(1));
    inbox.push(Message::Finished(2));
    let (ret, sent) = run_leader(2, &NetworkTopology::new().unwrap(), inbox);
    let mut expected = vec![(1, Message::WakeUp(0)), (2, Message::WakeUp(0))];
    for i in 1..nb_recv + 1 {
        expected.push((1, Message::WakeUp(i)));
        expected.push((2, Message::WakeUp(i)));
    }
    assert_eq!(sent, expected);
    assert_eq!(ret, return_value);
}

#[test]
fn leader_direct_finished() {
    mini_setup(0, 0, 0, 0);
}

#[test]
fn leader_direct_blocked() {
    mini_setup(0, 1, 0, 1);
}

#[test]
fn leader_one_step() {
    mini_setup(1, 1, 1, 0);
}

#[test]
fn leader_too_much_steps() {
    mini_setup(2, 1, 1, 0);
}

#[test]
fn test_random() {
    let topo = NetworkTopology::new().unwrap();
    let mut sim = Scheduler::new(2);
    let mut ask = |id: u8, seed: u64| -> Message {
        let m = deserialize_rust(serialize_rust(Message::GetRand(id, seed)));
        let (to, reply) = sim.handle_message(m, 0, &topo, 0).expect("an answer");
        let answer = reply.to_message();
        assert_eq!(to, id);
        deserialize_rust(serialize_rust(answer))
    };
    let a = ask(1, 34);
    let b = ask(1, 34);
    assert_ne!(a, b);
    let c = ask(2, 34);
    assert_eq!(a, c);
    let d = ask(1, 52);
    assert_ne!(a, d);
    let e = ask(1, 34);
    let f = ask(1, 34);
    assert_eq!(a, e);
    assert_eq!(b, f);
}

/// Nine of ten followers send a packet to the centre of a star: the packets
/// are all due at time 20 and are sent one follower at a time, by
/// increasing id, the same way on every run.
#[test]
fn test_determinism() {
    const NB: u8 = 10;
    let topo = star(NB as u32);
    let mut inbox = Vec::new();
    for i in 1..NB {
        inbox.push(Message::HasToSend4(i, 0, Ipv4AddrC::new(10, 0, 0, NB + 1), 1));
    }
    for i in 1..NB + 1 {
        inbox.push(Message::Stuck(i));
    }
    for i in 1..NB + 1 {
        inbox.push(Message::Finished(i));
    }
    let first = run_leader(NB as usize, &topo, inbox.clone());
    let second = run_leader(NB as usize, &topo, inbox);
    assert_eq!(first, second);
    let mut expected: Vec<(u8, Message)> = (1..NB + 1).map(|i| (i, Message::WakeUp(0))).collect();
    expected.extend((1..NB).map(|i| (i, Message::Send(1))));
    expected.extend((1..NB + 1).map(|i| (i, Message::WakeUp(20))));
    assert_eq!(first, (0, expected));
}
