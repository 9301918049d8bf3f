//! The actions to perform at one point of simulated time.

use std::collections::BTreeMap;
use vstd::prelude::*;

verus! {

broadcast use vstd::std_specs::btree::group_btree_axioms;

/// A `TimestampActions` gathers all the actions to perform at a specific timespot:
/// the processes that have a known reason to be woken up at that timestamp
/// (one entry per occurrence), and for each process the packets it has to send.
#[derive(Debug, Eq, PartialEq, Clone)]
pub struct TimestampActions {
    to_wake_up: Vec<u8>,
    has_to_send: BTreeMap<u8, Vec<u64>>,
}

/// The index of the first occurrence of `x` in `s`.
pub open spec fn first_index(s: Seq<u8>, x: u8) -> int {
    choose|i: int| 0 <= i < s.len() && s[i] == x && forall|j: int| 0 <= j < i ==> s[j] != x
}

/// The pairs (process, packet) of process `k`, in the order its packets were added.
pub open spec fn entries_of(m: Map<u8, Seq<u64>>, k: u8) -> Seq<(u8, u64)> {
    if m.contains_key(k) {
        m[k].map_values(|p: u64| (k, p))
    } else {
        Seq::empty()
    }
}

/// The pairs (process, packet) of the processes whose id is below `k`, by
/// increasing process id.
pub open spec fn flat_below(m: Map<u8, Seq<u64>>, k: nat) -> Seq<(u8, u64)>
    decreases k,
{
    if k == 0 {
        Seq::empty()
    } else {
        flat_below(m, (k - 1) as nat) + entries_of(m, (k - 1) as u8)
    }
}

/// All pairs (process, packet), by increasing process id and, for one process,
/// in the order its packets were added.
pub open spec fn flat_all(m: Map<u8, Seq<u64>>) -> Seq<(u8, u64)> {
    flat_below(m, 256)
}

impl TimestampActions {
    /// The processes to wake up, one entry per occurrence, in the order they were added.
    pub closed spec fn wake_ups(&self) -> Seq<u8> {
        self.to_wake_up@
    }

    /// For each process that has packets to send, its packets in the order they were added.
    pub closed spec fn sends(&self) -> Map<u8, Seq<u64>> {
        Map::new(
            |k: u8| self.has_to_send@.contains_key(k),
            |k: u8| self.has_to_send@[k]@,
        )
    }

    /// A process appears in `sends` only with at least one packet.
    pub closed spec fn wf(&self) -> bool {
        forall|k: u8| #[trigger] self.has_to_send@.contains_key(k) ==> self.has_to_send@[k]@.len() > 0
    }

    /// Create a new empty TimestampActions
    pub fn new() -> (r: Self)
        ensures
            r.wf(),
            r.wake_ups() == Seq::<u8>::empty(),
            r.sends() == Map::<u8, Seq<u64>>::empty(),
    {
        let r = TimestampActions { to_wake_up: Vec::new(), has_to_send: BTreeMap::new() };
        assert(r.sends() =~= Map::<u8, Seq<u64>>::empty());
        r
    }

    /// Create a new TimestampActions with one process to wake up
    pub fn new_process(id: u8) -> (r: Self)
        ensures
            r.wf(),
            r.wake_ups() == seq![id],
            r.sends() == Map::<u8, Seq<u64>>::empty(),
    {
        let mut v = Vec::new();
        v.push(id);
        let r = TimestampActions { to_wake_up: v, has_to_send: BTreeMap::new() };
        assert(r.wake_ups() =~= seq![id]);
        assert(r.sends() =~= Map::<u8, Seq<u64>>::empty());
        r
    }

    /// Create a new TimestampActions with one packet to send
    pub fn new_pkt_id(id: u8, pkt_id: u64) -> (r: Self)
        ensures
            r.wf(),
            r.wake_ups() == Seq::<u8>::empty(),
            r.sends() == Map::<u8, Seq<u64>>::empty().insert(id, seq![pkt_id]),
    {
        let mut t = TimestampActions::new();
        t.add_packet(id, pkt_id);
        assert(t.sends() =~= Map::<u8, Seq<u64>>::empty().insert(id, seq![pkt_id]));
        t
    }

    /// Adds a process occurence to wake up
    /// Returns the number of process occurences
    pub fn add_process(&mut self, id: u8) -> (n: usize)
        requires
            old(self).wf(),
        ensures
            final(self).wf(),
            final(self).wake_ups() == old(self).wake_ups().push(id),
            final(self).sends() == old(self).sends(),
            n == final(self).wake_ups().len(),
    {
        self.to_wake_up.push(id);
        self.to_wake_up.len()
    }

    /// Deletes a process occurence to wake up: the first one
    /// Returns the number of process occurences
    pub fn del_process(&mut self, id: u8) -> (n: usize)
        requires
            old(self).wf(),
            old(self).wake_ups().contains(id),
        ensures
            final(self).wf(),
            final(self).wake_ups() == old(self).wake_ups().remove(
                first_index(old(self).wake_ups(), id),
            ),
            final(self).sends() == old(self).sends(),
            n == final(self).wake_ups().len(),
    {
        let ghost s = self.to_wake_up@;
        let mut i: usize = 0;
        while i < self.to_wake_up.len() && self.to_wake_up[i] != id
            invariant
                self.to_wake_up@ == s,
                s.contains(id),
                0 <= i <= s.len(),
                forall|j: int| 0 <= j < i ==> s[j] != id,
            decreases s.len() - i,
        {
            i = i + 1;
        }
        assert(i < s.len()) by {
            let w = choose|w: int| 0 <= w < s.len() && s[w] == id;
            assert(w < i ==> s[w] != id);
        }
        assert(first_index(s, id) == i as int);
        self.to_wake_up.remove(i);
        self.to_wake_up.len()
    }

    /// Check if the process is contained in the TimestampActions
    pub fn contain_process(&self, id: u8) -> (r: bool)
        ensures
            r == self.wake_ups().contains(id),
    {
        let mut i: usize = 0;
        while i < self.to_wake_up.len()
            invariant
                0 <= i <= self.to_wake_up@.len(),
                forall|j: int| 0 <= j < i ==> self.to_wake_up@[j] != id,
            decreases self.to_wake_up@.len() - i,
        {
            if self.to_wake_up[i] == id {
                return true;
            }
            i = i + 1;
        }
        false
    }

    /// Returns the number of occurences of processes that have to be woken up
    pub fn nb_process(&self) -> (n: usize)
        ensures
            n == self.wake_ups().len(),
    {
        self.to_wake_up.len()
    }

    /// Adds a packet to send
    pub fn add_packet(&mut self, id: u8, pkt_id: u64)
        requires
            old(self).wf(),
        ensures
            final(self).wf(),
            final(self).wake_ups() == old(self).wake_ups(),
            final(self).sends() == old(self).sends().insert(
                id,
                if old(self).sends().contains_key(id) {
                    old(self).sends()[id].push(pkt_id)
                } else {
                    seq![pkt_id]
                },
            ),
    {
        let ghost before = self.sends();
        match self.has_to_send.remove(&id) {
            Some(mut x) => {
                x.push(pkt_id);
                self.has_to_send.insert(id, x);
            },
            None => {
                let mut x = Vec::new();
                x.push(pkt_id);
                self.has_to_send.insert(id, x);
            },
        }
        assert(self.sends() =~= before.insert(
            id,
            if before.contains_key(id) {
                before[id].push(pkt_id)
            } else {
                seq![pkt_id]
            },
        ));
    }

    /// Returns the number of *processes* that have packets to send
    pub fn nb_pkt(&self) -> (n: usize)
        ensures
            n == self.sends().dom().len(),
    {
        assert(self.sends().dom() =~= self.has_to_send@.dom());
        self.has_to_send.len()
    }

    /// Returns a Vec of pairs (process_id, pkt_id): by increasing process id and,
    /// for one process, in the order its packets were added
    pub fn flatten(self) -> (r: Vec<(u8, u64)>)
        ensures
            r@ == flat_all(self.sends()),
    {
        let ghost m = self.sends();
        let mut ret: Vec<(u8, u64)> = Vec::new();
        let mut k: u16 = 0;
        while k < 256
            invariant
                0 <= k <= 256,
                m == self.sends(),
                ret@ == flat_below(m, k as nat),
            decreases 256 - k,
        {
            let key = k as u8;
            match self.has_to_send.get(&key) {
                Some(pkts) => {
                    let ghost start = ret@;
                    let mut j: usize = 0;
                    while j < pkts.len()
                        invariant
                            0 <= j <= pkts@.len(),
                            m.contains_key(key),
                            m[key] == pkts@,
                            ret@ == start + pkts@.subrange(0, j as int).map_values(
                                |p: u64| (key, p),
                            ),
                        decreases pkts@.len() - j,
                    {
                        ret.push((key, pkts[j]));
                        j = j + 1;
                        assert(ret@ =~= start + pkts@.subrange(0, j as int).map_values(
                            |p: u64| (key, p),
                        ));
                    }
                    assert(pkts@.subrange(0, pkts@.len() as int) =~= pkts@);
                },
                None => {},
            }
            assert(key as nat == k as nat);
            assert(ret@ =~= flat_below(m, (k + 1) as nat));
            k = k + 1;
        }
        ret
    }
}

/// Where `s` holds `x` (at `w`, say), `first_index(s, x)` is the first
/// position that holds it.
pub proof fn lemma_first_index(s: Seq<u8>, x: u8, w: int)
    requires
        0 <= w < s.len(),
        s[w] == x,
    ensures
        0 <= first_index(s, x) <= w,
        s[first_index(s, x)] == x,
        forall|j: int| 0 <= j < first_index(s, x) ==> s[j] != x,
    decreases w,
{
    if exists|j: int| 0 <= j < w && s[j] == x {
        let j = choose|j: int| 0 <= j < w && s[j] == x;
        lemma_first_index(s, x, j);
    } else {
        assert(0 <= w < s.len() && s[w] == x && forall|j: int| 0 <= j < w ==> s[j] != x);
    }
}

/// Adding an occurrence of a process to wake up, then deleting one, leaves
/// the occurrences as they were (the same multiset); where the process had
/// none, the list itself is as it was.
pub proof fn lemma_del_undoes_add(s: Seq<u8>, id: u8)
    ensures
        s.push(id).remove(first_index(s.push(id), id)).to_multiset() == s.to_multiset(),
        !s.contains(id) ==> s.push(id).remove(first_index(s.push(id), id)) == s,
{
    let t = s.push(id);
    lemma_first_index(t, id, s.len() as int);
    let i = first_index(t, id);
    vstd::seq_lib::to_multiset_remove(t, i);
    vstd::seq_lib::to_multiset_build(s, id);
    assert(s.to_multiset().insert(id).remove(id) =~= s.to_multiset());
    if !s.contains(id) {
        if i < s.len() {
            assert(s[i] == id);
        }
        assert(t.remove(i) =~= s);
    }
}

/// The pairs of the processes below `k` hold `(a, p)` exactly when `a` is
/// below `k` and `p` is a packet of `a`.
proof fn lemma_flat_below_contains(m: Map<u8, Seq<u64>>, k: nat, a: u8, p: u64)
    requires
        k <= 256,
    ensures
        flat_below(m, k).contains((a, p)) <==> (a < k && m.contains_key(a) && m[a].contains(p)),
    decreases k,
{
    if k > 0 {
        let prev = flat_below(m, (k - 1) as nat);
        let e = entries_of(m, (k - 1) as u8);
        lemma_flat_below_contains(m, (k - 1) as nat, a, p);
        assert(flat_below(m, k) == prev + e);
        if (prev + e).contains((a, p)) {
            let i = choose|i: int| 0 <= i < (prev + e).len() && (prev + e)[i] == (a, p);
            if i >= prev.len() {
                assert(e[i - prev.len()] == (a, p));
                assert(m[(k - 1) as u8][i - prev.len()] == p);
            } else {
                assert(prev[i] == (a, p));
            }
        }
        if a < k && m.contains_key(a) && m[a].contains(p) {
            if a < k - 1 {
                let i = choose|i: int| 0 <= i < prev.len() && prev[i] == (a, p);
                assert((prev + e)[i] == (a, p));
            } else {
                let j = choose|j: int| 0 <= j < m[a].len() && m[a][j] == p;
                assert(e[j] == (a, p));
                assert((prev + e)[prev.len() + j] == (a, p));
            }
        }
    }
}

/// The flattened actions hold `(a, p)` exactly when `p` is a packet of process `a`.
pub proof fn lemma_flat_all_contains(m: Map<u8, Seq<u64>>, a: u8, p: u64)
    ensures
        flat_all(m).contains((a, p)) <==> (m.contains_key(a) && m[a].contains(p)),
{
    lemma_flat_below_contains(m, 256, a, p);
}


/// The packets of process `a` among pairs (process, packet), in order.
pub open spec fn packets_of(s: Seq<(u8, u64)>, a: u8) -> Seq<u64>
    decreases s.len(),
{
    if s.len() == 0 {
        Seq::empty()
    } else if s.last().0 == a {
        packets_of(s.drop_last(), a).push(s.last().1)
    } else {
        packets_of(s.drop_last(), a)
    }
}

/// The packets of `a` in two lists one after the other.
proof fn lemma_packets_of_add(s1: Seq<(u8, u64)>, s2: Seq<(u8, u64)>, a: u8)
    ensures
        packets_of(s1 + s2, a) == packets_of(s1, a) + packets_of(s2, a),
    decreases s2.len(),
{
    if s2.len() == 0 {
        assert(s1 + s2 =~= s1);
        assert(packets_of(s1, a) + packets_of(s2, a) =~= packets_of(s1, a));
    } else {
        let t = s1 + s2;
        assert(t.drop_last() =~= s1 + s2.drop_last());
        assert(t.last() == s2.last());
        lemma_packets_of_add(s1, s2.drop_last(), a);
        if s2.last().0 == a {
            assert(packets_of(t, a) =~= packets_of(s1, a) + packets_of(s2, a));
        }
    }
}

/// The packets of `a` among the pairs of process `k`.
proof fn lemma_packets_of_block(q: Seq<u64>, k: u8, a: u8)
    ensures
        packets_of(q.map_values(|p: u64| (k, p)), a) == if k == a {
            q
        } else {
            Seq::<u64>::empty()
        },
    decreases q.len(),
{
    let s = q.map_values(|p: u64| (k, p));
    if q.len() == 0 {
        assert(s.len() == 0);
        if k == a {
            assert(q =~= Seq::<u64>::empty());
        }
    } else {
        assert(s.drop_last() =~= q.drop_last().map_values(|p: u64| (k, p)));
        lemma_packets_of_block(q.drop_last(), k, a);
        if k == a {
            assert(q.drop_last().push(q.last()) =~= q);
        }
    }
}

/// The pairs of the processes below `k` come by increasing process id, each
/// below `k`, and the packets of each such process are those it added.
proof fn lemma_flat_below_order(m: Map<u8, Seq<u64>>, k: nat)
    requires
        k <= 256,
    ensures
        forall|i: int| 0 <= i < flat_below(m, k).len() ==> (#[trigger] flat_below(m, k)[i]).0 < k,
        forall|i: int, j: int|
            0 <= i <= j < flat_below(m, k).len() ==> (#[trigger] flat_below(m, k)[i]).0 <= (
            #[trigger] flat_below(m, k)[j]).0,
        forall|a: u8| #[trigger] packets_of(flat_below(m, k), a) == if a < k && m.contains_key(a) {
            m[a]
        } else {
            Seq::<u64>::empty()
        },
    decreases k,
{
    if k > 0 {
        let c = (k - 1) as u8;
        let prev = flat_below(m, (k - 1) as nat);
        let e = entries_of(m, c);
        lemma_flat_below_order(m, (k - 1) as nat);
        assert(flat_below(m, k) == prev + e);
        assert forall|i: int| 0 <= i < e.len() implies (#[trigger] e[i]).0 == c by {}
        assert forall|a: u8| #[trigger] packets_of(flat_below(m, k), a) == if a < k && m.contains_key(a) {
            m[a]
        } else {
            Seq::<u64>::empty()
        } by {
            lemma_packets_of_add(prev, e, a);
            if m.contains_key(c) {
                lemma_packets_of_block(m[c], c, a);
            } else {
                assert(e.len() == 0);
                assert(packets_of(e, a) =~= Seq::<u64>::empty());
            }
            if a == c {
                assert(packets_of(prev, a) =~= Seq::<u64>::empty());
                assert(packets_of(prev, a) + packets_of(e, a) =~= packets_of(e, a));
            } else {
                assert(packets_of(prev, a) + packets_of(e, a) =~= packets_of(prev, a));
            }
        }
        let f = flat_below(m, k);
        assert forall|i: int| 0 <= i < f.len() implies (#[trigger] f[i]).0 < k by {
            if i >= prev.len() {
                assert(f[i] == e[i - prev.len()]);
            } else {
                assert(f[i] == prev[i]);
            }
        }
        assert forall|i: int, j: int| 0 <= i <= j < f.len() implies (#[trigger] f[i]).0 <= (#[trigger] f[j]).0 by {
            if j < prev.len() {
                assert(f[i] == prev[i] && f[j] == prev[j]);
            } else if i < prev.len() {
                assert(f[i] == prev[i]);
                assert(f[j] == e[j - prev.len()]);
            } else {
                assert(f[i] == e[i - prev.len()]);
                assert(f[j] == e[j - prev.len()]);
            }
        }
    }
}

/// `flatten` lists the pairs by increasing process id, and the packets of
/// each process exactly as it added them: each once, in the order added.
pub proof fn lemma_flatten_order(m: Map<u8, Seq<u64>>)
    ensures
        forall|i: int, j: int|
            0 <= i <= j < flat_all(m).len() ==> (#[trigger] flat_all(m)[i]).0 <= (#[trigger] flat_all(m)[j]).0,
        forall|a: u8| #[trigger] packets_of(flat_all(m), a) == if m.contains_key(a) {
            m[a]
        } else {
            Seq::<u64>::empty()
        },
{
    lemma_flat_below_order(m, 256);
}

/// The processes below `k` that have packets.
pub open spec fn keys_below(m: Map<u8, Seq<u64>>, k: nat) -> Set<u8> {
    Set::new(|a: u8| a < k && m.contains_key(a))
}

/// Where each process listed has a packet, the processes below `k` are
/// finitely many, at most the pairs below `k`, and none exactly when there
/// is no such pair.
proof fn lemma_keys_below(m: Map<u8, Seq<u64>>, k: nat)
    requires
        k <= 256,
        forall|a: u8| #[trigger] m.contains_key(a) ==> m[a].len() > 0,
    ensures
        keys_below(m, k).finite(),
        keys_below(m, k).len() <= flat_below(m, k).len(),
        keys_below(m, k).len() == 0 <==> flat_below(m, k).len() == 0,
    decreases k,
{
    if k == 0 {
        assert(keys_below(m, k) =~= Set::<u8>::empty());
    } else {
        let c = (k - 1) as u8;
        lemma_keys_below(m, (k - 1) as nat);
        let prev = keys_below(m, (k - 1) as nat);
        assert(flat_below(m, k).len() == flat_below(m, (k - 1) as nat).len() + entries_of(m, c).len());
        if m.contains_key(c) {
            assert(keys_below(m, k) =~= prev.insert(c));
            assert(!prev.contains(c));
            assert(keys_below(m, k).len() == prev.len() + 1);
        } else {
            assert(keys_below(m, k) =~= prev);
        }
    }
}

impl TimestampActions {
    /// `nb_pkt` counts the processes that appear in `flatten`: a process
    /// has packets exactly when some pair of it is listed; they are at most
    /// as many as the pairs, and none exactly when there is no pair.
    pub proof fn lemma_nb_pkt_counts_processes(&self)
        requires
            self.wf(),
        ensures
            self.sends().dom().finite(),
            forall|a: u8| #[trigger] self.sends().contains_key(a) <==> exists|p: u64| flat_all(self.sends()).contains((a, p)),
            self.sends().dom().len() <= flat_all(self.sends()).len(),
            self.sends().dom().len() == 0 <==> flat_all(self.sends()).len() == 0,
    {
        let m = self.sends();
        assert forall|a: u8| #[trigger] m.contains_key(a) implies m[a].len() > 0 by {}
        lemma_keys_below(m, 256);
        assert(keys_below(m, 256) =~= m.dom());
        assert forall|a: u8| #[trigger] m.contains_key(a) <==> exists|p: u64| flat_all(m).contains((a, p)) by {
            if m.contains_key(a) {
                lemma_flat_all_contains(m, a, m[a][0]);
                assert(m[a].contains(m[a][0]));
            }
            if exists|p: u64| flat_all(m).contains((a, p)) {
                let p = choose|p: u64| flat_all(m).contains((a, p));
                lemma_flat_all_contains(m, a, p);
            }
        }
    }
}

} // verus!
