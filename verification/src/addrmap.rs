//! A map from network addresses to (node id, interface id) pairs.
//!
//! The addresses are kept in a hash map under an integer code: the address's
//! bits read as one number.

use std::collections::HashMap;
use std::marker::PhantomData;
use vstd::prelude::*;
use vstd::std_specs::iter::IteratorSpec;

use crate::addr::{Ipv4AddrC, Ipv6AddrC};

verus! {

broadcast use vstd::std_specs::hash::group_hash_axioms;

/// An address type that is coded as an integer, one code per address.
pub trait AddressKey: Sized + Copy {
    /// The code of an address.
    spec fn code(self) -> u128;

    /// The address of a code.
    spec fn decode(c: u128) -> Self;

    /// Decoding the code of an address gives the address back; so two
    /// addresses with the same code are the same.
    proof fn lemma_code(a: Self, b: Self)
        ensures
            Self::decode(a.code()) == a,
            a.code() == b.code() ==> a == b,
    ;

    /// The code of an address.
    fn code_of(&self) -> (r: u128)
        ensures
            r == self.code(),
    ;

    /// The address of a code.
    fn decode_code(c: u128) -> (r: Self)
        ensures
            r == Self::decode(c),
    ;
}

impl AddressKey for Ipv4AddrC {
    open spec fn code(self) -> u128 {
        ((self.segments[0] as u128) << 24u128) | ((self.segments[1] as u128) << 16u128) | ((
        self.segments[2] as u128) << 8u128) | (self.segments[3] as u128)
    }

    open spec fn decode(c: u128) -> Self {
        Ipv4AddrC { segments: [(c >> 24u128) as u8, (c >> 16u128) as u8, (c >> 8u128) as u8, c as u8] }
    }

    proof fn lemma_code(a: Self, b: Self) {
        let (a0, a1, a2, a3) = (a.segments[0], a.segments[1], a.segments[2], a.segments[3]);
        let c = a.code();
        assert((c >> 24u128) as u8 == a0 && (c >> 16u128) as u8 == a1 && (c >> 8u128) as u8 == a2 && c as u8
            == a3) by (bit_vector)
            requires
                c == ((a0 as u128) << 24u128) | ((a1 as u128) << 16u128) | ((a2 as u128) << 8u128) | (a3 as u128),
        ;
        assert(Self::decode(c).segments =~= a.segments);
        let (b0, b1, b2, b3) = (b.segments[0], b.segments[1], b.segments[2], b.segments[3]);
        let d = b.code();
        assert((d >> 24u128) as u8 == b0 && (d >> 16u128) as u8 == b1 && (d >> 8u128) as u8 == b2 && d as u8
            == b3) by (bit_vector)
            requires
                d == ((b0 as u128) << 24u128) | ((b1 as u128) << 16u128) | ((b2 as u128) << 8u128) | (b3 as u128),
        ;
        assert(Self::decode(d).segments =~= b.segments);
    }

    fn code_of(&self) -> (r: u128) {
        ((self.segments[0] as u128) << 24u128) | ((self.segments[1] as u128) << 16u128) | ((
        self.segments[2] as u128) << 8u128) | (self.segments[3] as u128)
    }

    fn decode_code(c: u128) -> (r: Self) {
        let r = Ipv4AddrC { segments: [(c >> 24u128) as u8, (c >> 16u128) as u8, (c >> 8u128) as u8, c as u8] };
        assert(r.segments =~= Self::decode(c).segments);
        r
    }
}

impl AddressKey for Ipv6AddrC {
    open spec fn code(self) -> u128 {
        ((self.segments[0] as u128) << 112u128) | ((self.segments[1] as u128) << 96u128) | ((
        self.segments[2] as u128) << 80u128) | ((self.segments[3] as u128) << 64u128) | ((
        self.segments[4] as u128) << 48u128) | ((self.segments[5] as u128) << 32u128) | ((
        self.segments[6] as u128) << 16u128) | (self.segments[7] as u128)
    }

    open spec fn decode(c: u128) -> Self {
        Ipv6AddrC {
            segments: [
                (c >> 112u128) as u16,
                (c >> 96u128) as u16,
                (c >> 80u128) as u16,
                (c >> 64u128) as u16,
                (c >> 48u128) as u16,
                (c >> 32u128) as u16,
                (c >> 16u128) as u16,
                c as u16,
            ],
        }
    }

    proof fn lemma_code(a: Self, b: Self) {
        lemma_code6(a);
        lemma_code6(b);
    }

    fn code_of(&self) -> (r: u128) {
        ((self.segments[0] as u128) << 112u128) | ((self.segments[1] as u128) << 96u128) | ((
        self.segments[2] as u128) << 80u128) | ((self.segments[3] as u128) << 64u128) | ((
        self.segments[4] as u128) << 48u128) | ((self.segments[5] as u128) << 32u128) | ((
        self.segments[6] as u128) << 16u128) | (self.segments[7] as u128)
    }

    fn decode_code(c: u128) -> (r: Self) {
        let r = Ipv6AddrC {
            segments: [
                (c >> 112u128) as u16,
                (c >> 96u128) as u16,
                (c >> 80u128) as u16,
                (c >> 64u128) as u16,
                (c >> 48u128) as u16,
                (c >> 32u128) as u16,
                (c >> 16u128) as u16,
                c as u16,
            ],
        };
        assert(r.segments =~= Self::decode(c).segments);
        r
    }
}

/// Decoding the code of an IPv6 address gives the address back.
proof fn lemma_code6(a: Ipv6AddrC)
    ensures
        Ipv6AddrC::decode(a.code()) == a,
{
    let s = a.segments;
    let (a0, a1, a2, a3, a4, a5, a6, a7) = (s[0], s[1], s[2], s[3], s[4], s[5], s[6], s[7]);
    let c = a.code();
    assert((c >> 112u128) as u16 == a0 && (c >> 96u128) as u16 == a1 && (c >> 80u128) as u16 == a2 && (c
        >> 64u128) as u16 == a3 && (c >> 48u128) as u16 == a4 && (c >> 32u128) as u16 == a5 && (c
        >> 16u128) as u16 == a6 && c as u16 == a7) by (bit_vector)
        requires
            c == ((a0 as u128) << 112u128) | ((a1 as u128) << 96u128) | ((a2 as u128) << 80u128) | ((
            a3 as u128) << 64u128) | ((a4 as u128) << 48u128) | ((a5 as u128) << 32u128) | ((
            a6 as u128) << 16u128) | (a7 as u128),
    ;
    assert(Ipv6AddrC::decode(c).segments =~= a.segments);
}

/// Addresses mapped to the (node id, interface id) pair that holds them.
#[derive(Debug)]
pub struct AddressMap<K> {
    entries: HashMap<u128, (u8, u8)>,
    key: PhantomData<K>,
}

impl<K: AddressKey> View for AddressMap<K> {
    type V = Map<K, (u8, u8)>;

    closed spec fn view(&self) -> Map<K, (u8, u8)> {
        Map::new(|k: K| self.entries@.contains_key(k.code()), |k: K| self.entries@[k.code()])
    }
}

impl<K: AddressKey> AddressMap<K> {
    /// Every code kept is that of an address.
    pub closed spec fn wf(&self) -> bool {
        forall|c: u128| #[trigger] self.entries@.contains_key(c) ==> K::decode(c).code() == c
    }

    /// An empty map.
    pub fn new() -> (r: Self)
        ensures
            r.wf(),
            r@ == Map::<K, (u8, u8)>::empty(),
    {
        let r = AddressMap { entries: HashMap::new(), key: PhantomData };
        assert(r@ =~= Map::<K, (u8, u8)>::empty());
        r
    }

    /// Maps `k` to `v`, replacing what `k` was mapped to.
    pub fn insert(&mut self, k: K, v: (u8, u8))
        requires
            old(self).wf(),
        ensures
            final(self).wf(),
            final(self)@ == old(self)@.insert(k, v),
    {
        let ghost before = self@;
        let c = k.code_of();
        self.entries.insert(c, v);
        proof {
            K::lemma_code(k, k);
        }
        assert forall|j: K| #[trigger] self@.contains_key(j) == before.insert(k, v).contains_key(j) by {
            K::lemma_code(j, k);
        }
        assert forall|j: K| #[trigger] self@.contains_key(j) implies self@[j] == before.insert(k, v)[j] by {
            K::lemma_code(j, k);
        }
        assert(self@ =~= before.insert(k, v));
    }

    /// What `k` is mapped to, if anything.
    pub fn get(&self, k: &K) -> (r: Option<(u8, u8)>)
        requires
            self.wf(),
        ensures
            r == (if self@.contains_key(*k) {
                Some(self@[*k])
            } else {
                None
            }),
    {
        let c = k.code_of();
        match self.entries.get(&c) {
            Some(v) => Some(*v),
            None => None,
        }
    }

    /// An address held by node `node`, if there is one (which one, where
    /// there are several, depends on the order in which the hash map is
    /// walked).
    pub fn key_of_node(&self, node: u8) -> (r: Option<K>)
        requires
            self.wf(),
        ensures
            match r {
                Some(k) => self@.contains_key(k) && self@[k].0 == node,
                None => forall|k: K| #[trigger] self@.contains_key(k) ==> self@[k].0 != node,
            },
    {
        let m = &self.entries;
        for x in it: m.iter()
            invariant
                m@ == self.entries@,
                forall|c: u128| #[trigger] m@.contains_key(c) ==> K::decode(c).code() == c,
                it.seq() == vstd::std_specs::hash::spec_hash_map_iter(m).remaining(),
                forall|j: int| 0 <= j < it.index() ==> (#[trigger] it.seq()[j]).1.0 != node,
        {
            let (c, val) = x;
            if val.0 == node {
                let k = K::decode_code(*c);
                assert(m@.contains_key(*c));
                assert(m@[*c] == *val);
                assert(k.code() == *c);
                assert(self.entries@.contains_key(k.code()));
                assert(self@.contains_key(k));
                assert(self@[k] == *val);
                return Some(k);
            }
        }
        assert forall|k: K| #[trigger] self@.contains_key(k) implies self@[k].0 != node by {
            let c = k.code();
            let v = vstd::std_specs::hash::spec_hash_map_iter(m).remaining();
            assert(v.contains((&c, &m@[c])));
            let j = choose|j: int| 0 <= j < v.len() && v[j] == (&c, &m@[c]);
            assert(v[j].1.0 != node);
        }
        None
    }

    /// Whether no address is mapped.
    pub fn is_empty(&self) -> (r: bool)
        requires
            self.wf(),
        ensures
            r == (self@.dom() == Set::<K>::empty()),
    {
        let r = self.entries.len() == 0;
        if r {
            assert(self.entries@.dom().len() == 0);
            assert forall|k: K| !#[trigger] self@.contains_key(k) by {
                if self.entries@.contains_key(k.code()) {
                    assert(self.entries@.dom().contains(k.code()));
                }
            }
            assert(self@.dom() =~= Set::<K>::empty());
        } else {
            assert(self.entries@.dom().len() != 0);
            assert(exists|c: u128| self.entries@.contains_key(c)) by {
                if !(exists|c: u128| self.entries@.contains_key(c)) {
                    assert(self.entries@.dom() =~= Set::<u128>::empty());
                }
            }
            let ghost c = choose|c: u128| self.entries@.contains_key(c);
            assert(self@.dom().contains(K::decode(c)));
        }
        r
    }
}

} // verus!
