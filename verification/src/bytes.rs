//! Native-endian byte representations of `u16` and `u64`, as the message
//! buffers carry them.

use vstd::prelude::*;
use vstd::endian::{endianness, Endian};

verus! {

/// The little-endian bytes of `x`.
pub open spec fn u64_le_bytes(x: u64) -> Seq<u8> {
    seq![
        x as u8,
        (x >> 8u64) as u8,
        (x >> 16u64) as u8,
        (x >> 24u64) as u8,
        (x >> 32u64) as u8,
        (x >> 40u64) as u8,
        (x >> 48u64) as u8,
        (x >> 56u64) as u8,
    ]
}

/// The big-endian bytes of `x`.
pub open spec fn u64_be_bytes(x: u64) -> Seq<u8> {
    seq![
        (x >> 56u64) as u8,
        (x >> 48u64) as u8,
        (x >> 40u64) as u8,
        (x >> 32u64) as u8,
        (x >> 24u64) as u8,
        (x >> 16u64) as u8,
        (x >> 8u64) as u8,
        x as u8,
    ]
}

/// The value of eight bytes, the first one the least significant.
pub open spec fn u64_of_le_bytes(b0: u8, b1: u8, b2: u8, b3: u8, b4: u8, b5: u8, b6: u8, b7: u8) -> u64 {
    (b0 as u64) | ((b1 as u64) << 8u64) | ((b2 as u64) << 16u64) | ((b3 as u64) << 24u64) | ((
    b4 as u64) << 32u64) | ((b5 as u64) << 40u64) | ((b6 as u64) << 48u64) | ((b7 as u64)
        << 56u64)
}

/// The value of the first eight bytes of `b` read in little-endian order.
pub open spec fn u64_from_le(b: Seq<u8>) -> u64 {
    u64_of_le_bytes(b[0], b[1], b[2], b[3], b[4], b[5], b[6], b[7])
}

/// The value of the first eight bytes of `b` read in big-endian order.
pub open spec fn u64_from_be(b: Seq<u8>) -> u64 {
    u64_of_le_bytes(b[7], b[6], b[5], b[4], b[3], b[2], b[1], b[0])
}

/// The bytes of `x` in the byte order of the machine that runs the code.
pub open spec fn u64_ne_bytes(x: u64) -> Seq<u8> {
    match endianness() {
        Endian::Little => u64_le_bytes(x),
        Endian::Big => u64_be_bytes(x),
    }
}

/// The value of eight bytes read in the byte order of the machine that runs the code.
pub open spec fn u64_from_ne(b: Seq<u8>) -> u64 {
    match endianness() {
        Endian::Little => u64_from_le(b),
        Endian::Big => u64_from_be(b),
    }
}

/// The little-endian bytes of `x`.
pub open spec fn u16_le_bytes(x: u16) -> Seq<u8> {
    seq![x as u8, (x >> 8u16) as u8]
}

/// The big-endian bytes of `x`.
pub open spec fn u16_be_bytes(x: u16) -> Seq<u8> {
    seq![(x >> 8u16) as u8, x as u8]
}

/// The value of two bytes, the first one the least significant.
pub open spec fn u16_of_le_bytes(b0: u8, b1: u8) -> u16 {
    (b0 as u16) | ((b1 as u16) << 8u16)
}

/// The bytes of `x` in the byte order of the machine that runs the code.
pub open spec fn u16_ne_bytes(x: u16) -> Seq<u8> {
    match endianness() {
        Endian::Little => u16_le_bytes(x),
        Endian::Big => u16_be_bytes(x),
    }
}

/// The value of two bytes read in the byte order of the machine that runs the code.
pub open spec fn u16_from_ne(b: Seq<u8>) -> u16 {
    match endianness() {
        Endian::Little => u16_of_le_bytes(b[0], b[1]),
        Endian::Big => u16_of_le_bytes(b[1], b[0]),
    }
}

/// Reading back the native-endian bytes of a `u64` gives the `u64`.
pub proof fn lemma_u64_ne_roundtrip(x: u64)
    ensures
        u64_ne_bytes(x).len() == 8,
        u64_from_ne(u64_ne_bytes(x)) == x,
{
    assert(u64_of_le_bytes(
        x as u8,
        (x >> 8u64) as u8,
        (x >> 16u64) as u8,
        (x >> 24u64) as u8,
        (x >> 32u64) as u8,
        (x >> 40u64) as u8,
        (x >> 48u64) as u8,
        (x >> 56u64) as u8,
    ) == x) by (bit_vector);
    let le = u64_le_bytes(x);
    let be = u64_be_bytes(x);
    assert(u64_from_le(le) == x);
    assert(u64_from_be(be) == x);
}

/// Reading back the native-endian bytes of a `u16` gives the `u16`.
pub proof fn lemma_u16_ne_roundtrip(x: u16)
    ensures
        u16_ne_bytes(x).len() == 2,
        u16_from_ne(u16_ne_bytes(x)) == x,
{
    assert(u16_of_le_bytes(x as u8, (x >> 8u16) as u8) == x) by (bit_vector);
}

/// Writing back the value of eight native-endian bytes gives the bytes.
pub proof fn lemma_u64_ne_bytes_of(b: Seq<u8>)
    requires
        b.len() == 8,
    ensures
        u64_ne_bytes(u64_from_ne(b)) == b,
{
    let (b0, b1, b2, b3, b4, b5, b6, b7) = (b[0], b[1], b[2], b[3], b[4], b[5], b[6], b[7]);
    let x = u64_of_le_bytes(b0, b1, b2, b3, b4, b5, b6, b7);
    assert(x as u8 == b0 && (x >> 8u64) as u8 == b1 && (x >> 16u64) as u8 == b2 && (x >> 24u64) as u8
        == b3 && (x >> 32u64) as u8 == b4 && (x >> 40u64) as u8 == b5 && (x >> 48u64) as u8 == b6 && (x
        >> 56u64) as u8 == b7) by (bit_vector)
        requires
            x == u64_of_le_bytes(b0, b1, b2, b3, b4, b5, b6, b7),
    ;
    let y = u64_of_le_bytes(b7, b6, b5, b4, b3, b2, b1, b0);
    assert(y as u8 == b7 && (y >> 8u64) as u8 == b6 && (y >> 16u64) as u8 == b5 && (y >> 24u64) as u8
        == b4 && (y >> 32u64) as u8 == b3 && (y >> 40u64) as u8 == b2 && (y >> 48u64) as u8 == b1 && (y
        >> 56u64) as u8 == b0) by (bit_vector)
        requires
            y == u64_of_le_bytes(b7, b6, b5, b4, b3, b2, b1, b0),
    ;
    assert(u64_le_bytes(x) =~= b);
    assert(u64_be_bytes(y) =~= b);
}

/// Writing back the value of two native-endian bytes gives the bytes.
pub proof fn lemma_u16_ne_bytes_of(b: Seq<u8>)
    requires
        b.len() == 2,
    ensures
        u16_ne_bytes(u16_from_ne(b)) == b,
{
    let (b0, b1) = (b[0], b[1]);
    let x = u16_of_le_bytes(b0, b1);
    assert(x as u8 == b0 && (x >> 8u16) as u8 == b1) by (bit_vector)
        requires
            x == u16_of_le_bytes(b0, b1),
    ;
    let y = u16_of_le_bytes(b1, b0);
    assert(y as u8 == b1 && (y >> 8u16) as u8 == b0) by (bit_vector)
        requires
            y == u16_of_le_bytes(b1, b0),
    ;
    assert(u16_le_bytes(x) =~= b);
    assert(u16_be_bytes(y) =~= b);
}

/// `u64::to_ne_bytes`: the memory representation of `x` in the machine's
/// byte order, which its documentation gives as the little-endian bytes on a
/// little-endian target and the big-endian bytes on a big-endian one.
#[verifier::external_body]
pub(crate) fn u64_to_ne_bytes(x: u64) -> (r: [u8; 8])
    ensures
        r@ == u64_ne_bytes(x),
{
    x.to_ne_bytes()
}

/// `u64::from_ne_bytes`: the value of eight bytes in the machine's byte order.
#[verifier::external_body]
pub(crate) fn u64_from_ne_bytes(b: [u8; 8]) -> (r: u64)
    ensures
        r == u64_from_ne(b@),
{
    u64::from_ne_bytes(b)
}

/// `u16::to_ne_bytes`: the memory representation of `x` in the machine's byte order.
#[verifier::external_body]
pub(crate) fn u16_to_ne_bytes(x: u16) -> (r: [u8; 2])
    ensures
        r@ == u16_ne_bytes(x),
{
    x.to_ne_bytes()
}

/// `u16::from_ne_bytes`: the value of two bytes in the machine's byte order.
#[verifier::external_body]
pub(crate) fn u16_from_ne_bytes(b: [u8; 2]) -> (r: u16)
    ensures
        r == u16_from_ne(b@),
{
    u16::from_ne_bytes(b)
}

} // verus!
