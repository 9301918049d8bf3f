//! The messages exchanged between the simulator (leader) and the intercepted
//! applications (followers), and their fixed-size wire format.
//!
//! A message is written into a buffer of `SIZE_BUFFER` bytes: a tag byte that
//! names the variant, then the fields in order (process id, interface id,
//! address bytes, 64-bit values in the machine's byte order), the rest of the
//! buffer left at zero. Reading a buffer back gives the message that was
//! written.

use vstd::prelude::*;

use crate::addr::{Ipv4AddrC, Ipv6AddrC};
use crate::bytes::{
    lemma_u16_ne_bytes_of, lemma_u64_ne_bytes_of, lemma_u16_ne_roundtrip, lemma_u64_ne_roundtrip, u16_from_ne, u16_from_ne_bytes, u16_ne_bytes,
    u16_to_ne_bytes, u64_from_ne, u64_from_ne_bytes, u64_ne_bytes,
    u64_to_ne_bytes,
};
use crate::SIZE_BUFFER;

verus! {

broadcast use vstd::array::group_array_axioms;

/// A fixed-size buffer for IPC messages.
#[derive(Copy, Clone, PartialEq)]
pub struct Buffer {
    pub buffer: [u8; SIZE_BUFFER],
}

impl Buffer {
    /// Creates a new empty `Buffer`: every byte is zero.
    pub fn new() -> (r: Buffer)
        ensures
            r.buffer@ == zeros(SIZE_BUFFER as nat),
    {
        let r = Buffer { buffer: [0u8; SIZE_BUFFER] };
        assert(r.buffer@ =~= zeros(SIZE_BUFFER as nat));
        r
    }
}

/// Messages exchanged between the simulator (leader) and the intercepted apps (followers).
#[derive(Debug, PartialEq, Eq, Clone)]
pub enum Message {
    /// App is blocked on an operation.
    Stuck(u8),
    /// App is requesting to advance time or perform a step.
    AddStep(u8, u64),
    /// App is cancelling a previously requested step.
    DelStep(u8, u64),
    /// App has an IPv4 packet to send.
    HasToSend4(u8, u8, Ipv4AddrC, u64),
    /// App has an IPv6 packet to send.
    HasToSend6(u8, u8, Ipv6AddrC, u64),
    /// Simulator authorizing an app to send a packet.
    Send(u64),
    /// App confirming a packet has been sent.
    Sent(u8, u64),
    /// App requesting the current simulation time.
    GetTime(u8),
    /// App requesting a random seed from the simulator.
    GetRand(u8, u64),
    /// Simulator waking up an app at a specific time.
    WakeUp(u64),
    /// App has finished its execution.
    Finished(u8),
}

/// `n` zero bytes.
pub open spec fn zeros(n: nat) -> Seq<u8> {
    Seq::new(n, |i: int| 0u8)
}

/// The native-endian bytes of a sequence of `u16`, one after the other.
pub open spec fn u16s_ne_bytes(s: Seq<u16>) -> Seq<u8>
    decreases s.len(),
{
    if s.len() == 0 {
        Seq::empty()
    } else {
        u16s_ne_bytes(s.drop_last()) + u16_ne_bytes(s.last())
    }
}

/// The bytes that encode a message in a buffer.
pub open spec fn encode(m: Message) -> Seq<u8> {
    match m {
        Message::Stuck(id) => seq![1u8, id] + zeros(25),
        Message::AddStep(id, t) => seq![2u8, id] + u64_ne_bytes(t) + zeros(17),
        Message::DelStep(id, t) => seq![3u8, id] + u64_ne_bytes(t) + zeros(17),
        Message::HasToSend4(id, if_id, addr, pkt_id) => seq![4u8, id, if_id] + addr.segments@
            + u64_ne_bytes(pkt_id) + zeros(12),
        Message::HasToSend6(id, if_id, addr, pkt_id) => seq![5u8, id, if_id] + u16s_ne_bytes(
            addr.segments@,
        ) + u64_ne_bytes(pkt_id),
        Message::Send(pkt_id) => seq![6u8, 0u8] + u64_ne_bytes(pkt_id) + zeros(17),
        Message::Sent(id, pkt_id) => seq![7u8, id] + u64_ne_bytes(pkt_id) + zeros(17),
        Message::GetTime(id) => seq![8u8, id] + zeros(25),
        Message::GetRand(id, seed) => seq![9u8, id] + u64_ne_bytes(seed) + zeros(17),
        Message::WakeUp(t) => seq![10u8, 0u8] + u64_ne_bytes(t) + zeros(17),
        Message::Finished(id) => seq![11u8, id] + zeros(25),
    }
}

/// The IPv4 address whose octets are `b[off..off + 4]`.
pub open spec fn ipv4_at(b: Seq<u8>, off: int) -> Ipv4AddrC {
    Ipv4AddrC { segments: [b[off], b[off + 1], b[off + 2], b[off + 3]] }
}

/// The native-endian `u16` at `b[off..off + 2]`.
pub open spec fn u16_at(b: Seq<u8>, off: int) -> u16 {
    u16_from_ne(b.subrange(off, off + 2))
}

/// The IPv6 address whose segments are the native-endian `u16`s at `b[off..off + 16]`.
pub open spec fn ipv6_at(b: Seq<u8>, off: int) -> Ipv6AddrC {
    Ipv6AddrC {
        segments: [
            u16_at(b, off),
            u16_at(b, off + 2),
            u16_at(b, off + 4),
            u16_at(b, off + 6),
            u16_at(b, off + 8),
            u16_at(b, off + 10),
            u16_at(b, off + 12),
            u16_at(b, off + 14),
        ],
    }
}

/// The native-endian `u64` at `b[off..off + 8]`.
pub open spec fn u64_at(b: Seq<u8>, off: int) -> u64 {
    u64_from_ne(b.subrange(off, off + 8))
}

/// The message that a buffer holds: the first byte names the variant; a tag
/// that names none is read as `Finished`.
pub open spec fn decode(b: Seq<u8>) -> Message {
    if b[0] == 1 {
        Message::Stuck(b[1])
    } else if b[0] == 2 {
        Message::AddStep(b[1], u64_at(b, 2))
    } else if b[0] == 3 {
        Message::DelStep(b[1], u64_at(b, 2))
    } else if b[0] == 4 {
        Message::HasToSend4(b[1], b[2], ipv4_at(b, 3), u64_at(b, 7))
    } else if b[0] == 5 {
        Message::HasToSend6(b[1], b[2], ipv6_at(b, 3), u64_at(b, 19))
    } else if b[0] == 6 {
        Message::Send(u64_at(b, 2))
    } else if b[0] == 7 {
        Message::Sent(b[1], u64_at(b, 2))
    } else if b[0] == 8 {
        Message::GetTime(b[1])
    } else if b[0] == 9 {
        Message::GetRand(b[1], u64_at(b, 2))
    } else if b[0] == 10 {
        Message::WakeUp(u64_at(b, 2))
    } else {
        Message::Finished(b[1])
    }
}

/// The buffer whose bytes are the first `SIZE_BUFFER` bytes of `s`.
pub open spec fn buffer_of(s: Seq<u8>) -> Buffer {
    Buffer {
        buffer: [
            s[0],
            s[1],
            s[2],
            s[3],
            s[4],
            s[5],
            s[6],
            s[7],
            s[8],
            s[9],
            s[10],
            s[11],
            s[12],
            s[13],
            s[14],
            s[15],
            s[16],
            s[17],
            s[18],
            s[19],
            s[20],
            s[21],
            s[22],
            s[23],
            s[24],
            s[25],
            s[26],
        ],
    }
}

/// A buffer built from `SIZE_BUFFER` bytes holds exactly these bytes.
pub proof fn lemma_buffer_of(s: Seq<u8>)
    requires
        s.len() == SIZE_BUFFER,
    ensures
        buffer_of(s).buffer@ == s,
{
    assert(buffer_of(s).buffer@ =~= s);
}

impl From<Message> for Buffer {
    /// Writes the encoding of `msg` into a new buffer.
    fn from(msg: Message) -> (b: Buffer) {
        let b = encode_message(msg);
        proof {
            lemma_decode_encode(msg);
            lemma_buffer_of(encode(msg));
        }
        assert(buffer_of(encode(msg)).buffer =~= b.buffer);
        b
    }
}

impl vstd::std_specs::convert::FromSpecImpl<Message> for Buffer {
    open spec fn obeys_from_spec() -> bool {
        true
    }

    open spec fn from_spec(msg: Message) -> Buffer {
        buffer_of(encode(msg))
    }
}

impl From<Buffer> for Message {
    /// Reads the message that `msg` holds.
    fn from(msg: Buffer) -> (m: Message) {
        decode_message(&msg)
    }
}

impl vstd::std_specs::convert::FromSpecImpl<Buffer> for Message {
    open spec fn obeys_from_spec() -> bool {
        true
    }

    open spec fn from_spec(msg: Buffer) -> Message {
        decode(msg.buffer@)
    }
}

/// Serializes a `Message` into a `Buffer` for Rust usage.
pub fn serialize_rust(msg: Message) -> (b: Buffer)
    ensures
        b.buffer@ == encode(msg),
{
    encode_message(msg)
}

/// Deserializes a `Buffer` into a `Message` for Rust usage.
pub fn deserialize_rust(msg: Buffer) -> (m: Message)
    ensures
        m == decode(msg.buffer@),
{
    decode_message(&msg)
}

/// Writes `src` into `tab` from position `off` on, leaving the other bytes.
fn write_bytes<const N: usize>(tab: &mut [u8; SIZE_BUFFER], off: usize, src: &[u8; N])
    requires
        off + N <= SIZE_BUFFER,
    ensures
        final(tab)@ == old(tab)@.subrange(0, off as int) + src@ + old(tab)@.subrange(
            off + N,
            SIZE_BUFFER as int,
        ),
{
    let mut i: usize = 0;
    while i < N
        invariant
            0 <= i <= N,
            off + N <= SIZE_BUFFER,
            tab@ == old(tab)@.subrange(0, off as int) + src@.subrange(0, i as int) + old(
                tab,
            )@.subrange(off + i, SIZE_BUFFER as int),
        decreases N - i,
    {
        tab[off + i] = src[i];
        i = i + 1;
        assert(tab@ =~= old(tab)@.subrange(0, off as int) + src@.subrange(0, i as int) + old(
            tab,
        )@.subrange(off + i, SIZE_BUFFER as int));
    }
    assert(src@.subrange(0, N as int) =~= src@);
}

/// Writes the encoding of `msg` into a zeroed buffer.
fn encode_message(msg: Message) -> (b: Buffer)
    ensures
        b.buffer@ == encode(msg),
{
    let mut tab: [u8; SIZE_BUFFER] = [0u8; SIZE_BUFFER];
    let ghost z = tab@;
    assert(z =~= zeros(27));
    match msg {
        Message::Stuck(id) => {
            tab[0] = 1;
            tab[1] = id;
        },
        Message::AddStep(id, t) => {
            tab[0] = 2;
            tab[1] = id;
            write_bytes(&mut tab, 2, &u64_to_ne_bytes(t));
        },
        Message::DelStep(id, t) => {
            tab[0] = 3;
            tab[1] = id;
            write_bytes(&mut tab, 2, &u64_to_ne_bytes(t));
        },
        Message::HasToSend4(id, if_id, addr, pkt_id) => {
            tab[0] = 4;
            tab[1] = id;
            tab[2] = if_id;
            write_bytes(&mut tab, 3, &addr.octets());
            write_bytes(&mut tab, 7, &u64_to_ne_bytes(pkt_id));
        },
        Message::HasToSend6(id, if_id, addr, pkt_id) => {
            tab[0] = 5;
            tab[1] = id;
            tab[2] = if_id;
            let t = addr.segments();
            let mut i: usize = 0;
            while i < 8
                invariant
                    0 <= i <= 8,
                    t == addr.segments,
                    tab@ == seq![5u8, id, if_id] + u16s_ne_bytes(t@.subrange(0, i as int))
                        + zeros((24 - 2 * i) as nat),
                decreases 8 - i,
            {
                let ghost before = tab@;
                proof {
                    lemma_u16_ne_roundtrip(t[i as int]);
                    lemma_u16s_ne_bytes_len(t@.subrange(0, i as int));
                }
                write_bytes(&mut tab, 2 * i + 3, &u16_to_ne_bytes(t[i]));
                i = i + 1;
                assert(t@.subrange(0, i as int).drop_last() =~= t@.subrange(0, i - 1));
                assert(tab@ =~= seq![5u8, id, if_id] + u16s_ne_bytes(t@.subrange(0, i as int))
                    + zeros((24 - 2 * i) as nat));
            }
            assert(t@.subrange(0, 8) =~= t@);
            write_bytes(&mut tab, 19, &u64_to_ne_bytes(pkt_id));
        },
        Message::Send(pkt_id) => {
            tab[0] = 6;
            write_bytes(&mut tab, 2, &u64_to_ne_bytes(pkt_id));
        },
        Message::Sent(id, pkt_id) => {
            tab[0] = 7;
            tab[1] = id;
            write_bytes(&mut tab, 2, &u64_to_ne_bytes(pkt_id));
        },
        Message::GetTime(id) => {
            tab[0] = 8;
            tab[1] = id;
        },
        Message::GetRand(id, seed) => {
            tab[0] = 9;
            tab[1] = id;
            write_bytes(&mut tab, 2, &u64_to_ne_bytes(seed));
        },
        Message::WakeUp(t) => {
            tab[0] = 10;
            write_bytes(&mut tab, 2, &u64_to_ne_bytes(t));
        },
        Message::Finished(id) => {
            tab[0] = 11;
            tab[1] = id;
        },
    }
    assert(tab@ =~= encode(msg));
    Buffer { buffer: tab }
}

/// Reads the native-endian `u64` at `b[off..off + 8]`.
fn read_u64(b: &[u8; SIZE_BUFFER], off: usize) -> (r: u64)
    requires
        off + 8 <= SIZE_BUFFER,
    ensures
        r == u64_at(b@, off as int),
{
    let a: [u8; 8] = [
        b[off],
        b[off + 1],
        b[off + 2],
        b[off + 3],
        b[off + 4],
        b[off + 5],
        b[off + 6],
        b[off + 7],
    ];
    assert(a@ =~= b@.subrange(off as int, off + 8));
    u64_from_ne_bytes(a)
}

/// Reads the native-endian `u16` at `b[off..off + 2]`.
fn read_u16(b: &[u8; SIZE_BUFFER], off: usize) -> (r: u16)
    requires
        off + 2 <= SIZE_BUFFER,
    ensures
        r == u16_at(b@, off as int),
{
    let a: [u8; 2] = [b[off], b[off + 1]];
    assert(a@ =~= b@.subrange(off as int, off + 2));
    u16_from_ne_bytes(a)
}

/// Reads the message that a buffer holds.
fn decode_message(msg: &Buffer) -> (m: Message)
    ensures
        m == decode(msg.buffer@),
{
    let b = &msg.buffer;
    match b[0] {
        1 => Message::Stuck(b[1]),
        2 => Message::AddStep(b[1], read_u64(b, 2)),
        3 => Message::DelStep(b[1], read_u64(b, 2)),
        4 => {
            let addr = Ipv4AddrC::new(b[3], b[4], b[5], b[6]);
            assert(addr.segments =~= ipv4_at(b@, 3).segments);
            Message::HasToSend4(b[1], b[2], addr, read_u64(b, 7))
        },
        5 => {
            let addr = Ipv6AddrC::new(
                read_u16(b, 3),
                read_u16(b, 5),
                read_u16(b, 7),
                read_u16(b, 9),
                read_u16(b, 11),
                read_u16(b, 13),
                read_u16(b, 15),
                read_u16(b, 17),
            );
            assert(addr.segments =~= ipv6_at(b@, 3).segments);
            Message::HasToSend6(b[1], b[2], addr, read_u64(b, 19))
        },
        6 => Message::Send(read_u64(b, 2)),
        7 => Message::Sent(b[1], read_u64(b, 2)),
        8 => Message::GetTime(b[1]),
        9 => Message::GetRand(b[1], read_u64(b, 2)),
        10 => Message::WakeUp(read_u64(b, 2)),
        _ => Message::Finished(b[1]),
    }
}

/// The two bytes of the `i`-th value in the native-endian representation of a
/// sequence of `u16`.
proof fn lemma_u16s_ne_bytes_at(s: Seq<u16>, i: int)
    requires
        0 <= i < s.len(),
    ensures
        u16s_ne_bytes(s).len() == 2 * s.len(),
        u16s_ne_bytes(s).subrange(2 * i, 2 * i + 2) == u16_ne_bytes(s[i]),
    decreases s.len(),
{
    lemma_u16s_ne_bytes_len(s);
    lemma_u16s_ne_bytes_len(s.drop_last());
    lemma_u16_ne_roundtrip(s.last());
    if i < s.len() - 1 {
        lemma_u16s_ne_bytes_at(s.drop_last(), i);
        assert(u16s_ne_bytes(s).subrange(2 * i, 2 * i + 2) =~= u16s_ne_bytes(
            s.drop_last(),
        ).subrange(2 * i, 2 * i + 2));
    } else {
        assert(u16s_ne_bytes(s).subrange(2 * i, 2 * i + 2) =~= u16_ne_bytes(s.last()));
    }
}

/// Reading back the buffer that a message was written into gives the message:
/// the wire format loses nothing.
pub proof fn lemma_decode_encode(m: Message)
    ensures
        encode(m).len() == SIZE_BUFFER,
        decode(encode(m)) == m,
{
    let s = encode(m);
    match m {
        Message::AddStep(id, t) => {
            lemma_u64_ne_roundtrip(t);
            assert(s.subrange(2, 10) =~= u64_ne_bytes(t));
        },
        Message::DelStep(id, t) => {
            lemma_u64_ne_roundtrip(t);
            assert(s.subrange(2, 10) =~= u64_ne_bytes(t));
        },
        Message::HasToSend4(id, if_id, addr, pkt_id) => {
            lemma_u64_ne_roundtrip(pkt_id);
            assert(s.subrange(7, 15) =~= u64_ne_bytes(pkt_id));
            assert(ipv4_at(s, 3).segments =~= addr.segments);
        },
        Message::HasToSend6(id, if_id, addr, pkt_id) => {
            let q = addr.segments@;
            lemma_u64_ne_roundtrip(pkt_id);
            lemma_u16s_ne_bytes_len(q);
            assert(s.subrange(19, 27) =~= u64_ne_bytes(pkt_id));
            assert forall|i: int| 0 <= i < 8 implies #[trigger] u16_at(s, 3 + 2 * i) == q[i] by {
                lemma_u16s_ne_bytes_at(q, i);
                lemma_u16_ne_roundtrip(q[i]);
                assert(s.subrange(3 + 2 * i, 5 + 2 * i) =~= u16s_ne_bytes(q).subrange(
                    2 * i,
                    2 * i + 2,
                ));
            }
            assert(u16_at(s, 3 + 2 * 0int) == q[0]);
            assert(u16_at(s, 3 + 2 * 1int) == q[1]);
            assert(u16_at(s, 3 + 2 * 2int) == q[2]);
            assert(u16_at(s, 3 + 2 * 3int) == q[3]);
            assert(u16_at(s, 3 + 2 * 4int) == q[4]);
            assert(u16_at(s, 3 + 2 * 5int) == q[5]);
            assert(u16_at(s, 3 + 2 * 6int) == q[6]);
            assert(u16_at(s, 3 + 2 * 7int) == q[7]);
            assert(ipv6_at(s, 3).segments =~= addr.segments);
        },
        Message::Send(pkt_id) => {
            lemma_u64_ne_roundtrip(pkt_id);
            assert(s.subrange(2, 10) =~= u64_ne_bytes(pkt_id));
        },
        Message::Sent(id, pkt_id) => {
            lemma_u64_ne_roundtrip(pkt_id);
            assert(s.subrange(2, 10) =~= u64_ne_bytes(pkt_id));
        },
        Message::GetRand(id, seed) => {
            lemma_u64_ne_roundtrip(seed);
            assert(s.subrange(2, 10) =~= u64_ne_bytes(seed));
        },
        Message::WakeUp(t) => {
            lemma_u64_ne_roundtrip(t);
            assert(s.subrange(2, 10) =~= u64_ne_bytes(t));
        },
        _ => {},
    }
}

/// Whether every byte of `b` from position `lo` on is zero.
pub open spec fn zero_from(b: Seq<u8>, lo: int) -> bool {
    forall|k: int| lo <= k < b.len() ==> b[k] == 0u8
}

/// Whether a buffer is laid out as a message is written: a tag from 1 to 11,
/// and zero in every byte that the tag's fields leave unused.
pub open spec fn well_formed(b: Seq<u8>) -> bool {
    &&& b.len() == SIZE_BUFFER
    &&& 1 <= b[0] <= 11
    &&& if b[0] == 1 || b[0] == 8 || b[0] == 11 {
        zero_from(b, 2)
    } else if b[0] == 2 || b[0] == 3 || b[0] == 7 || b[0] == 9 {
        zero_from(b, 10)
    } else if b[0] == 6 || b[0] == 10 {
        b[1] == 0 && zero_from(b, 10)
    } else if b[0] == 4 {
        zero_from(b, 15)
    } else {
        true
    }
}

/// Writing back the message that a well-formed buffer holds gives the
/// buffer: on well-formed buffers, reading loses nothing either.
pub proof fn lemma_encode_decode(b: Seq<u8>)
    requires
        well_formed(b),
    ensures
        encode(decode(b)) == b,
{
    let m = decode(b);
    let s = encode(m);
    if b[0] == 4 {
        lemma_u64_ne_bytes_of(b.subrange(7, 15));
        assert(s =~= b);
    } else if b[0] == 5 {
        let q = ipv6_at(b, 3).segments@;
        lemma_u64_ne_bytes_of(b.subrange(19, 27));
        lemma_u16s_ne_bytes_len(q);
        assert forall|k: int| 3 <= k < 19 implies s[k] == b[k] by {
            let i = (k - 3) / 2;
            lemma_u16s_ne_bytes_at(q, i);
            lemma_u16_ne_bytes_of(b.subrange(3 + 2 * i, 5 + 2 * i));
            assert(q[i] == u16_at(b, 3 + 2 * i));
            assert(u16s_ne_bytes(q)[k - 3] == u16s_ne_bytes(q).subrange(2 * i, 2 * i + 2)[k - 3 - 2 * i]);
        }
        assert(s =~= b);
    } else if b[0] == 1 || b[0] == 8 || b[0] == 11 {
        assert(s =~= b);
    } else {
        lemma_u64_ne_bytes_of(b.subrange(2, 10));
        assert(s =~= b);
    }
}

/// Two messages written into equal buffers are equal.
pub proof fn lemma_encode_injective(m1: Message, m2: Message)
    ensures
        encode(m1) == encode(m2) ==> m1 == m2,
{
    lemma_decode_encode(m1);
    lemma_decode_encode(m2);
}

/// The native-endian byte representation of a sequence of `u16` takes two bytes per value.
proof fn lemma_u16s_ne_bytes_len(s: Seq<u16>)
    ensures
        u16s_ne_bytes(s).len() == 2 * s.len(),
    decreases s.len(),
{
    if s.len() > 0 {
        lemma_u16s_ne_bytes_len(s.drop_last());
        lemma_u16_ne_roundtrip(s.last());
    }
}

} // verus!
