use network_time_simulator::{Ipv4AddrC, Leader, LeaderError, Message, NetworkTopology, Reply};

fn star3() -> NetworkTopology {
    let node = |id: u32| {
        format!(
            "  node [\n    id {}\n    interface [\n      id 0\n      ip [\n        type \"v4\"\n        ip \"10.0.0.{}\"\n      ]\n    ]\n  ]\n",
            id, id
        )
    };
    let edge = |s: u32, t: u32| {
        format!(
            "  edge [\n    source {}\n    source_if 0\n    target {}\n    target_if 0\n    metric 20\n    type \"symmetric\"\n  ]\n",
            s, t
        )
    };
    let text = format!("graph [\n  id 4\n{}{}{}{}{}]", node(3), node(1), node(2), edge(1, 3), edge(2, 3));
    NetworkTopology::load(&text).unwrap()
}

#[test]
fn start_wakes_every_follower_at_time_zero() {
    let mut l = Leader::new(3);
    assert_eq!(
        l.start(),
        vec![(1, Message::WakeUp(0)), (2, Message::WakeUp(0)), (3, Message::WakeUp(0))]
    );
}

#[test]
fn answers_and_running_followers() {
    let topo = NetworkTopology::new().unwrap();
    let mut l = Leader::new(2);
    l.start();
    let step = l.on_message(Message::GetTime(1), &topo, 0).unwrap();
    assert_eq!(step.answer, Some((1, Reply::Time(0))));
    assert!(step.send.is_empty());
    assert_eq!(step.stop, None);
    let step = l.on_message(Message::GetRand(2, 9), &topo, 0).unwrap();
    assert_eq!(step.answer, Some((2, Reply::Random(9))));
    let step = l.on_message(Message::GetRand(2, 9), &topo, 0).unwrap();
    assert_eq!(step.answer, Some((2, Reply::Random(18))));
    let step = l.on_message(Message::AddStep(2, 7), &topo, 0).unwrap();
    assert_eq!(step.answer, None);
    assert_eq!(step.stop, None);
}

#[test]
fn blocked_with_nothing_scheduled_ends_with_one() {
    let topo = NetworkTopology::new().unwrap();
    let mut l = Leader::new(2);
    l.start();
    assert_eq!(l.on_message(Message::Stuck(1), &topo, 0).unwrap().stop, None);
    let step = l.on_message(Message::Stuck(2), &topo, 0).unwrap();
    assert_eq!(step.stop, Some(1));
    assert!(step.send.is_empty());
    assert_eq!(l.on_message(Message::Finished(1), &topo, 0).err(), Some(LeaderError::Over));
}

#[test]
fn blocked_followers_are_woken_at_the_next_timespot() {
    let topo = NetworkTopology::new().unwrap();
    let mut l = Leader::new(3);
    l.start();
    l.on_message(Message::AddStep(1, 5), &topo, 0).unwrap();
    l.on_message(Message::Finished(2), &topo, 0).unwrap();
    l.on_message(Message::Stuck(1), &topo, 0).unwrap();
    let step = l.on_message(Message::Stuck(3), &topo, 0).unwrap();
    assert_eq!(step.send, vec![(1, Message::WakeUp(5)), (3, Message::WakeUp(5))]);
    assert_eq!(step.stop, None);
    // the time is now 5
    let step = l.on_message(Message::GetTime(3), &topo, 0).unwrap();
    assert_eq!(step.answer, Some((3, Reply::Time(5))));
    l.on_message(Message::Finished(1), &topo, 0).unwrap();
    let step = l.on_message(Message::Finished(3), &topo, 0).unwrap();
    assert_eq!(step.stop, Some(0));
}

#[test]
fn packets_are_sent_one_at_a_time_then_followers_wake() {
    let topo = star3();
    let mut l = Leader::new(3);
    l.start();
    l.on_message(Message::HasToSend4(2, 0, Ipv4AddrC::new(10, 0, 0, 3), 8), &topo, 0).unwrap();
    l.on_message(Message::HasToSend4(1, 0, Ipv4AddrC::new(10, 0, 0, 3), 9), &topo, 0).unwrap();
    l.on_message(Message::Stuck(1), &topo, 0).unwrap();
    l.on_message(Message::Stuck(2), &topo, 0).unwrap();
    let step = l.on_message(Message::Stuck(3), &topo, 0).unwrap();
    assert_eq!(step.send, vec![(1, Message::Send(9))]);
    // a wrong acknowledgement is refused and changes nothing
    assert_eq!(
        l.on_message(Message::Sent(2, 8), &topo, 0).err(),
        Some(LeaderError::BadAcknowledgement)
    );
    let step = l.on_message(Message::Sent(1, 9), &topo, 0).unwrap();
    assert_eq!(step.send, vec![(2, Message::Send(8))]);
    let step = l.on_message(Message::Sent(2, 8), &topo, 0).unwrap();
    assert_eq!(
        step.send,
        vec![(1, Message::WakeUp(20)), (2, Message::WakeUp(20)), (3, Message::WakeUp(20))]
    );
}

#[test]
fn messages_that_cannot_be_handled_are_refused() {
    let topo = NetworkTopology::new().unwrap();
    let mut l = Leader::new(2);
    l.start();
    assert_eq!(l.on_message(Message::Stuck(3), &topo, 0).err(), Some(LeaderError::Unhandled));
    assert_eq!(l.on_message(Message::DelStep(1, 4), &topo, 0).unwrap().stop, None);
    l.on_message(Message::AddStep(1, 4), &topo, 0).unwrap();
    assert_eq!(l.on_message(Message::DelStep(2, 4), &topo, 0).err(), Some(LeaderError::Unhandled));
}
