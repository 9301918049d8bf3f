use network_time_simulator::{deserialize_rust, serialize_rust, Buffer, Ipv4AddrC, Ipv6AddrC, Message, SIZE_BUFFER};

#[test]
fn leader_test_serialize_deserialize() {
    assert_eq!(deserialize_rust(serialize_rust(Message::Stuck(42))), Message::Stuck(42));
    assert_ne!(deserialize_rust(serialize_rust(Message::Stuck(42))), Message::Stuck(43));

    assert_eq!(
        deserialize_rust(serialize_rust(Message::AddStep(42, 43))),
        Message::AddStep(42, 43)
    );
    assert_ne!(
        deserialize_rust(serialize_rust(Message::AddStep(42, 43))),
        Message::AddStep(42, 44)
    );
    assert_ne!(
        deserialize_rust(serialize_rust(Message::AddStep(42, 43))),
        Message::AddStep(43, 43)
    );

    assert_eq!(
        deserialize_rust(serialize_rust(Message::DelStep(42, 42))),
        Message::DelStep(42, 42)
    );
    assert_ne!(
        deserialize_rust(serialize_rust(Message::DelStep(42, 42))),
        Message::DelStep(42, 43)
    );
    assert_ne!(
        deserialize_rust(serialize_rust(Message::DelStep(42, 42))),
        Message::DelStep(43, 42)
    );

    assert_eq!(
        deserialize_rust(serialize_rust(Message::HasToSend4(
            42,
            0,
            Ipv4AddrC::new(42, 43, 44, 45),
            42
        ))),
        Message::HasToSend4(42, 0, Ipv4AddrC::new(42, 43, 44, 45), 42)
    );
    assert_ne!(
        deserialize_rust(serialize_rust(Message::HasToSend4(
            42,
            0,
            Ipv4AddrC::new(42, 43, 44, 45),
            42
        ))),
        Message::HasToSend4(43, 0, Ipv4AddrC::new(42, 43, 44, 45), 42)
    );
    assert_ne!(
        deserialize_rust(serialize_rust(Message::HasToSend4(
            42,
            0,
            Ipv4AddrC::new(42, 43, 44, 45),
            42
        ))),
        Message::HasToSend4(42, 0, Ipv4AddrC::new(43, 43, 44, 45), 42)
    );
    assert_ne!(
        deserialize_rust(serialize_rust(Message::HasToSend4(
            42,
            0,
            Ipv4AddrC::new(42, 43, 44, 45),
            42
        ))),
        Message::HasToSend4(42, 0, Ipv4AddrC::new(42, 44, 44, 45), 42)
    );
    assert_ne!(
        deserialize_rust(serialize_rust(Message::HasToSend4(
            42,
            0,
            Ipv4AddrC::new(42, 43, 44, 45),
            42
        ))),
        Message::HasToSend4(42, 0, Ipv4AddrC::new(42, 43, 45, 45), 42)
    );
    assert_ne!(
        deserialize_rust(serialize_rust(Message::HasToSend4(
            42,
            0,
            Ipv4AddrC::new(42, 43, 44, 45),
            42
        ))),
        Message::HasToSend4(42, 0, Ipv4AddrC::new(42, 43, 44, 46), 42)
    );
    assert_ne!(
        deserialize_rust(serialize_rust(Message::HasToSend4(
            42,
            0,
            Ipv4AddrC::new(42, 43, 44, 45),
            42
        ))),
        Message::HasToSend4(42, 0, Ipv4AddrC::new(42, 43, 44, 45), 43)
    );

    assert_eq!(
        deserialize_rust(serialize_rust(Message::HasToSend6(
            42,
            0,
            Ipv6AddrC::new(42, 43, 43, 44, 46, 47, 48, 49),
            42
        ))),
        Message::HasToSend6(42, 0, Ipv6AddrC::new(42, 43, 43, 44, 46, 47, 48, 49), 42)
    );

    assert_ne!(
        deserialize_rust(serialize_rust(Message::HasToSend6(
            42,
            0,
            Ipv6AddrC::new(42, 43, 44, 45, 46, 47, 48, 49),
            42
        ))),
        Message::HasToSend6(43, 0, Ipv6AddrC::new(42, 43, 44, 45, 46, 47, 48, 49), 42)
    );

    assert_ne!(
        deserialize_rust(serialize_rust(Message::HasToSend6(
            42,
            0,
            Ipv6AddrC::new(42, 43, 44, 45, 46, 47, 48, 49),
            42
        ))),
        Message::HasToSend6(42, 0, Ipv6AddrC::new(43, 43, 44, 45, 46, 47, 48, 49), 42)
    );
    assert_ne!(
        deserialize_rust(serialize_rust(Message::HasToSend6(
            42,
            0,
            Ipv6AddrC::new(42, 43, 44, 45, 46, 47, 48, 49),
            42
        ))),
        Message::HasToSend6(42, 0, Ipv6AddrC::new(42, 44, 44, 45, 46, 47, 48, 49), 42)
    );
    assert_ne!(
        deserialize_rust(serialize_rust(Message::HasToSend6(
            42,
            0,
            Ipv6AddrC::new(42, 43, 44, 45, 46, 47, 48, 49),
            42
        ))),
        Message::HasToSend6(42, 0, Ipv6AddrC::new(42, 43, 45, 45, 46, 47, 48, 49), 42)
    );
    assert_ne!(
        deserialize_rust(serialize_rust(Message::HasToSend6(
            42,
            0,
            Ipv6AddrC::new(42, 43, 44, 45, 46, 47, 48, 49),
            42
        ))),
        Message::HasToSend6(42, 0, Ipv6AddrC::new(42, 43, 44, 46, 46, 47, 48, 49), 42)
    );
    assert_ne!(
        deserialize_rust(serialize_rust(Message::HasToSend6(
            42,
            0,
            Ipv6AddrC::new(42, 43, 44, 45, 46, 47, 48, 49),
            42
        ))),
        Message::HasToSend6(42, 0, Ipv6AddrC::new(42, 43, 44, 45, 47, 47, 48, 49), 42)
    );
    assert_ne!(
        deserialize_rust(serialize_rust(Message::HasToSend6(
            42,
            0,
            Ipv6AddrC::new(42, 43, 44, 45, 46, 47, 48, 49),
            42
        ))),
        Message::HasToSend6(42, 0, Ipv6AddrC::new(42, 43, 44, 45, 46, 48, 48, 49), 42)
    );
    assert_ne!(
        deserialize_rust(serialize_rust(Message::HasToSend6(
            42,
            0,
            Ipv6AddrC::new(42, 43, 44, 45, 46, 47, 48, 49),
            42
        ))),
        Message::HasToSend6(42, 0, Ipv6AddrC::new(42, 43, 44, 45, 46, 47, 49, 49), 42)
    );
    assert_ne!(
        deserialize_rust(serialize_rust(Message::HasToSend6(
            42,
            0,
            Ipv6AddrC::new(42, 43, 44, 45, 46, 47, 48, 49),
            42
        ))),
        Message::HasToSend6(42, 0, Ipv6AddrC::new(42, 43, 44, 45, 46, 47, 48, 50), 42)
    );

    assert_ne!(
        deserialize_rust(serialize_rust(Message::HasToSend6(
            42,
            0,
            Ipv6AddrC::new(42, 43, 44, 45, 46, 47, 48, 49),
            42
        ))),
        Message::HasToSend6(42, 0, Ipv6AddrC::new(42, 43, 44, 45, 46, 47, 48, 49), 43)
    );

    assert_eq!(deserialize_rust(serialize_rust(Message::Send(42))), Message::Send(42));
    assert_ne!(deserialize_rust(serialize_rust(Message::Send(42))), Message::Send(43));

    assert_eq!(deserialize_rust(serialize_rust(Message::Sent(1, 42))), Message::Sent(1, 42));
    assert_ne!(deserialize_rust(serialize_rust(Message::Sent(1, 42))), Message::Sent(1, 43));
    assert_ne!(deserialize_rust(serialize_rust(Message::Sent(1, 42))), Message::Sent(2, 42));

    assert_eq!(deserialize_rust(serialize_rust(Message::GetTime(42))), Message::GetTime(42));
    assert_ne!(deserialize_rust(serialize_rust(Message::GetTime(42))), Message::GetTime(43));

    assert_eq!(
        deserialize_rust(serialize_rust(Message::GetRand(42, 0))),
        Message::GetRand(42, 0)
    );
    assert_ne!(
        deserialize_rust(serialize_rust(Message::GetRand(42, 0))),
        Message::GetRand(43, 0)
    );
    assert_ne!(
        deserialize_rust(serialize_rust(Message::GetRand(42, 0))),
        Message::GetRand(42, 1)
    );

    assert_eq!(deserialize_rust(serialize_rust(Message::WakeUp(42))), Message::WakeUp(42));
    assert_ne!(deserialize_rust(serialize_rust(Message::WakeUp(42))), Message::WakeUp(43));

    assert_eq!(deserialize_rust(serialize_rust(Message::Finished(42))), Message::Finished(42));
    assert_ne!(deserialize_rust(serialize_rust(Message::Finished(42))), Message::Finished(43));
}

#[test]
fn every_variant_has_its_tag() {
    let cases: Vec<(Message, u8)> = vec![
        (Message::Stuck(1), 1),
        (Message::AddStep(1, 2), 2),
        (Message::DelStep(1, 2), 3),
        (Message::HasToSend4(1, 2, Ipv4AddrC::new(1, 2, 3, 4), 5), 4),
        (Message::HasToSend6(1, 2, Ipv6AddrC::new(1, 2, 3, 4, 5, 6, 7, 8), 5), 5),
        (Message::Send(1), 6),
        (Message::Sent(1, 2), 7),
        (Message::GetTime(1), 8),
        (Message::GetRand(1, 2), 9),
        (Message::WakeUp(1), 10),
        (Message::Finished(1), 11),
    ];
    for (m, tag) in cases {
        let b = serialize_rust(m);
        assert_eq!(b.buffer[0], tag);
    }
}

#[test]
fn add_step_layout() {
    let b = serialize_rust(Message::AddStep(42, 0x0102030405060708));
    assert_eq!(b.buffer[0], 2);
    assert_eq!(b.buffer[1], 42);
    assert_eq!(&b.buffer[2..10], &0x0102030405060708u64.to_ne_bytes());
    assert!(b.buffer[10..].iter().all(|x| *x == 0));
    assert_eq!(b.buffer.len(), SIZE_BUFFER);
}

#[test]
fn has_to_send6_layout() {
    let b = serialize_rust(Message::HasToSend6(7, 3, Ipv6AddrC::new(0x2001, 0xdb8, 0, 0, 0, 0, 0, 1), 99));
    assert_eq!(b.buffer[0], 5);
    assert_eq!(b.buffer[1], 7);
    assert_eq!(b.buffer[2], 3);
    assert_eq!(&b.buffer[3..5], &0x2001u16.to_ne_bytes());
    assert_eq!(&b.buffer[5..7], &0xdb8u16.to_ne_bytes());
    assert_eq!(&b.buffer[17..19], &1u16.to_ne_bytes());
    assert_eq!(&b.buffer[19..27], &99u64.to_ne_bytes());
}

#[test]
fn has_to_send4_layout() {
    let b = serialize_rust(Message::HasToSend4(1, 2, Ipv4AddrC::new(10, 0, 0, 3), 0xdeadbeef));
    assert_eq!(&b.buffer[0..7], &[4, 1, 2, 10, 0, 0, 3]);
    assert_eq!(&b.buffer[7..15], &0xdeadbeefu64.to_ne_bytes());
    assert!(b.buffer[15..].iter().all(|x| *x == 0));
}

#[test]
fn send_and_wake_up_leave_the_id_byte_zero() {
    assert_eq!(serialize_rust(Message::Send(5)).buffer[1], 0);
    assert_eq!(serialize_rust(Message::WakeUp(5)).buffer[1], 0);
}

#[test]
fn unknown_tags_read_as_finished() {
    let mut b = Buffer::new();
    assert_eq!(deserialize_rust(b), Message::Finished(0));
    b.buffer[0] = 200;
    b.buffer[1] = 9;
    assert_eq!(deserialize_rust(b), Message::Finished(9));
    b.buffer[0] = 0;
    assert_eq!(deserialize_rust(b), Message::Finished(9));
}

#[test]
fn new_buffer_is_zero() {
    assert!(Buffer::new().buffer.iter().all(|x| *x == 0));
}

#[test]
fn from_and_into_agree_with_serialize() {
    let m = Message::Sent(3, 77);
    let b: Buffer = Buffer::from(m.clone());
    assert!(b == serialize_rust(m.clone()));
    let back: Message = b.into();
    assert_eq!(back, m);
}

#[test]
fn extreme_values_round_trip() {
    let ms = vec![
        Message::AddStep(255, u64::MAX),
        Message::WakeUp(0),
        Message::GetRand(0, u64::MAX - 1),
        Message::HasToSend6(255, 255, Ipv6AddrC::new(u16::MAX, 0, 1, 2, 3, 4, 5, u16::MAX), u64::MAX),
    ];
    for m in ms {
        assert_eq!(deserialize_rust(serialize_rust(m.clone())), m);
    }
}

#[test]
fn address_accessors() {
    assert_eq!(Ipv4AddrC::new(1, 2, 3, 4).octets(), [1, 2, 3, 4]);
    assert_eq!(Ipv6AddrC::new(1, 2, 3, 4, 5, 6, 7, 8).segments(), [1, 2, 3, 4, 5, 6, 7, 8]);
}

#[test]
fn well_formed_buffers_survive_reading_and_writing() {
    let mut b = Buffer::new();
    b.buffer[0] = 5;
    for k in 1..SIZE_BUFFER {
        b.buffer[k] = (k * 7 + 1) as u8;
    }
    let again = serialize_rust(deserialize_rust(b));
    assert!(again.buffer == b.buffer);
    let mut c = Buffer::new();
    c.buffer[0] = 9;
    c.buffer[1] = 3;
    for k in 2..10 {
        c.buffer[k] = 200 + k as u8;
    }
    assert!(serialize_rust(deserialize_rust(c)).buffer == c.buffer);
    // a byte outside the layout of the tag is not written back
    let mut d = c;
    d.buffer[20] = 1;
    assert!(serialize_rust(deserialize_rust(d)).buffer == c.buffer);
}
