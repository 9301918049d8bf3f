//! The decisions of the simulator (the leader): what each message of a
//! follower changes, when every follower is blocked or finished, which
//! timespot comes next and whom to wake up.
//!
//! The simulated clock advances only from one scheduled event to the next.
//! At a timespot, the packets due are sent first (one follower at a time),
//! then every follower that has not finished runs until all of them are
//! blocked or finished.

use std::collections::{BTreeMap, HashMap};
use vstd::multiset::Multiset;
use vstd::prelude::*;

use rand::rngs::SmallRng;

use crate::message::Message;
use crate::timestamp::{first_index, flat_all, lemma_del_undoes_add, lemma_first_index, lemma_flat_all_contains, TimestampActions};
use crate::topology::NetworkTopology;

verus! {

broadcast use {vstd::std_specs::btree::group_btree_axioms, vstd::std_specs::hash::group_hash_axioms};

/// Represents the current state of a follower process.
#[derive(Copy, Clone, PartialEq, Eq, Debug, Structural)]
pub enum State {
    /// The process is running or scheduled to run.
    Running,
    /// The process is blocked on a syscall (e.g., waiting for time or packet).
    Blocked,
    /// The process has terminated.
    Finished,
}

/// An answer to a follower's request.
#[derive(Debug, PartialEq, Eq, Clone, Copy, Structural)]
pub enum Reply {
    /// The current time.
    Time(u64),
    /// A random number, drawn from a generator seeded with the given seed.
    Random(u64),
}

/// The actions of one timespot seen as values: the processes to wake up and
/// the packets of each process.
pub type ActionsView = (Seq<u8>, Map<u8, Seq<u64>>);

/// The scheduled events seen as values.
pub type EventsView = Map<u64, ActionsView>;

/// The decision state of a simulation with a fixed number of followers;
/// follower `id` (from 1) is at position `id - 1`.
#[derive(Debug)]
pub struct Scheduler {
    states: Vec<State>,
    events: BTreeMap<u64, TimestampActions>,
    counters: HashMap<usize, (u64, u64)>,
    n_use_random_number: Vec<u64>,
}

/// The number of entries of `s` that are `st`.
pub open spec fn count_state(s: Seq<State>, st: State) -> nat
    decreases s.len(),
{
    if s.len() == 0 {
        0
    } else {
        count_state(s.drop_last(), st) + if s.last() == st {
            1nat
        } else {
            0nat
        }
    }
}

/// The ids (from 1) of the followers among the first `n` that have not finished, in order.
pub open spec fn unfinished_ids(s: Seq<State>, n: nat) -> Seq<u8>
    decreases n,
{
    if n == 0 {
        Seq::empty()
    } else if s[n - 1] == State::Finished {
        unfinished_ids(s, (n - 1) as nat)
    } else {
        unfinished_ids(s, (n - 1) as nat).push(n as u8)
    }
}

/// Where the followers stand after a message: all finished, all blocked or
/// finished (time must advance), or some still running (`None`).
pub open spec fn progress_of(s: Seq<State>) -> Option<State> {
    if count_state(s, State::Finished) == s.len() {
        Some(State::Finished)
    } else if count_state(s, State::Blocked) + count_state(s, State::Finished) == s.len() {
        Some(State::Blocked)
    } else {
        None
    }
}

/// `ev` with one more occurrence of process `id` to wake up at time `t`.
pub open spec fn wake_added(ev: EventsView, t: u64, id: u8) -> EventsView {
    if ev.contains_key(t) {
        ev.insert(t, (ev[t].0.push(id), ev[t].1))
    } else {
        ev.insert(t, (seq![id], Map::empty()))
    }
}

/// `ev` with the first occurrence of process `id` to wake up at time `t`
/// removed, where `t` is scheduled.
pub open spec fn wake_removed(ev: EventsView, t: u64, id: u8) -> EventsView {
    if ev.contains_key(t) {
        ev.insert(t, (ev[t].0.remove(first_index(ev[t].0, id)), ev[t].1))
    } else {
        ev
    }
}

/// The packets of one timespot with packet `pkt` of process `id` added.
pub open spec fn sends_with(m: Map<u8, Seq<u64>>, id: u8, pkt: u64) -> Map<u8, Seq<u64>> {
    m.insert(
        id,
        if m.contains_key(id) {
            m[id].push(pkt)
        } else {
            seq![pkt]
        },
    )
}

/// `ev` with packet `pkt` of process `id` to send at time `t`.
pub open spec fn packet_added(ev: EventsView, t: u64, id: u8, pkt: u64) -> EventsView {
    if ev.contains_key(t) {
        ev.insert(t, (ev[t].0, sends_with(ev[t].1, id, pkt)))
    } else {
        ev.insert(t, (Seq::empty(), sends_with(Map::empty(), id, pkt)))
    }
}

/// The time at which a packet is delivered: now, plus the delay of the
/// link, plus the jitter.
pub open spec fn delivery_time(now: u64, delay: Option<u64>, jitter: u64) -> u64 {
    (now + delay.unwrap() + jitter) as u64
}

/// The scheduled events after a message.
pub open spec fn next_events(ev: EventsView, msg: Message, now: u64, topo: NetworkTopology, jitter: u64) -> EventsView {
    match msg {
        Message::AddStep(id, t) => wake_added(ev, t, id),
        Message::DelStep(id, t) => wake_removed(ev, t, id),
        Message::HasToSend4(id, if_id, ip, pkt_id) => packet_added(
            ev,
            delivery_time(now, topo.delay_v4(id, if_id, ip), jitter),
            id,
            pkt_id,
        ),
        Message::HasToSend6(id, if_id, ip, pkt_id) => packet_added(
            ev,
            delivery_time(now, topo.delay_v6(id, if_id, ip), jitter),
            id,
            pkt_id,
        ),
        _ => ev,
    }
}

/// The states of the followers after a message.
pub open spec fn next_states(s: Seq<State>, msg: Message) -> Seq<State> {
    match msg {
        Message::Finished(id) => s.update(id - 1, State::Finished),
        Message::Stuck(id) => s.update(id - 1, State::Blocked),
        _ => s,
    }
}

/// The random-seed counter of a follower after a request with `seed`: the
/// count of consecutive requests with that seed, and the seed.
pub open spec fn next_counter(c: (u64, u64), seed: u64) -> (u64, u64) {
    if seed == c.1 {
        ((c.0 + 1) as u64, c.1)
    } else {
        (1u64, seed)
    }
}

/// The random-seed counters after a message.
pub open spec fn next_counters(c: Map<usize, (u64, u64)>, msg: Message) -> Map<usize, (u64, u64)> {
    match msg {
        Message::GetRand(id, seed) => c.insert(id as usize, next_counter(c[id as usize], seed)),
        _ => c,
    }
}

/// The number of jitter draws of each follower after a message.
pub open spec fn next_draws(d: Seq<u64>, msg: Message) -> Seq<u64> {
    match msg {
        Message::HasToSend4(id, _, _, _) => d.update(id - 1, (d[id - 1] + 1) as u64),
        Message::HasToSend6(id, _, _, _) => d.update(id as int, (d[id as int] + 1) as u64),
        _ => d,
    }
}

/// The answer to a message handled at time `now`, with the random-seed
/// counters `c`: the time, to a follower that asks for it; for a random
/// number, the seed of its generator: the request's seed times the count of
/// consecutive requests with that seed (see `next_counter`); nothing to
/// other messages.
pub open spec fn answer_of(msg: Message, now: u64, c: Map<usize, (u64, u64)>) -> Option<(u8, Reply)> {
    match msg {
        Message::GetTime(id) => Some((id, Reply::Time(now))),
        Message::GetRand(id, seed) => Some((id, Reply::Random((seed * next_counter(c[id as usize], seed).0) as u64))),
        _ => None,
    }
}

/// Whether a message can be handled by followers in states `s`, with the
/// events `ev`, the random-seed counters `c` and the jitter draws `d` (see
/// `Scheduler::accepts`).
pub open spec fn accepts_at(
    s: Seq<State>,
    ev: EventsView,
    c: Map<usize, (u64, u64)>,
    d: Seq<u64>,
    msg: Message,
    now: u64,
    topo: NetworkTopology,
    jitter: u64,
) -> bool {
    let n = s.len();
    match msg {
        Message::DelStep(id, t) => ev.contains_key(t) ==> ev[t].0.contains(id),
        Message::GetTime(id) => id <= n,
        Message::GetRand(id, seed) => 1 <= id <= n && c[id as usize].0 < u64::MAX && seed * next_counter(
            c[id as usize],
            seed,
        ).0 <= u64::MAX,
        Message::Finished(id) => 1 <= id <= n,
        Message::Stuck(id) => 1 <= id <= n,
        Message::HasToSend4(id, if_id, ip, _) => {
            &&& 1 <= id <= n
            &&& d[id - 1] < u64::MAX
            &&& topo.delay_v4_ok(id, if_id, ip)
            &&& topo.delay_v4(id, if_id, ip) is Some
            &&& now + topo.delay_v4(id, if_id, ip).unwrap() + jitter <= u64::MAX
        },
        Message::HasToSend6(id, if_id, ip, _) => {
            &&& id < n
            &&& d[id as int] < u64::MAX
            &&& topo.delay_v6_ok(id, if_id, ip)
            &&& topo.delay_v6(id, if_id, ip) is Some
            &&& now + topo.delay_v6(id, if_id, ip).unwrap() + jitter <= u64::MAX
        },
        _ => true,
    }
}

/// The smallest scheduled time.
pub open spec fn is_first_time(ev: EventsView, t: u64) -> bool {
    ev.contains_key(t) && forall|u: u64| #[trigger] ev.contains_key(u) ==> t <= u
}

/// `SmallRng::seed_from_u64`: a generator seeded with `seed`. Nothing is
/// stated of it: its output is not portable across platforms or versions.
#[verifier::external_body]
fn small_rng_from_seed(seed: u64) -> SmallRng {
    <SmallRng as rand::SeedableRng>::seed_from_u64(seed)
}

/// `Rng::gen::<u64>`: the next value of a generator. Nothing is stated of it.
#[verifier::external_body]
fn next_random_u64(rng: &mut SmallRng) -> u64 {
    rand::Rng::gen::<u64>(rng)
}

/// `BTreeMap::pop_first`: removes and returns the entry with the smallest
/// key, as its documentation states; nothing where the map is empty.
#[verifier::external_body]
fn pop_first_event(m: &mut BTreeMap<u64, TimestampActions>) -> (r: Option<(u64, TimestampActions)>)
    ensures
        match r {
            Some((k, v)) => {
                &&& old(m)@.contains_key(k)
                &&& old(m)@[k] == v
                &&& forall|u: u64| #[trigger] old(m)@.contains_key(u) ==> k <= u
                &&& final(m)@ == old(m)@.remove(k)
            },
            None => old(m)@.dom() == Set::<u64>::empty() && final(m)@ == old(m)@,
        },
{
    m.pop_first()
}

/// `BTreeMap::first_key_value`: the entry with the smallest key, as its
/// documentation states; nothing where the map is empty.
#[verifier::external_body]
fn first_event(m: &BTreeMap<u64, TimestampActions>) -> (r: Option<(&u64, &TimestampActions)>)
    ensures
        match r {
            Some((k, v)) => {
                &&& m@.contains_key(*k)
                &&& m@[*k] == *v
                &&& forall|u: u64| #[trigger] m@.contains_key(u) ==> *k <= u
            },
            None => m@.dom() == Set::<u64>::empty(),
        },
{
    m.first_key_value()
}

#[verifier::external_type_specification]
#[verifier::external_body]
pub struct ExSmallRng(SmallRng);

impl Reply {
    /// The message that carries the answer: a wake-up with the time, or with
    /// a number drawn from `SmallRng` seeded with the seed (that number is
    /// not stated: it depends on the platform).
    pub fn to_message(&self) -> (m: Message)
        ensures
            match *self {
                Reply::Time(t) => m == Message::WakeUp(t),
                Reply::Random(_) => m is WakeUp,
            },
    {
        match self {
            Reply::Time(t) => Message::WakeUp(*t),
            Reply::Random(seed) => {
                let mut rng = small_rng_from_seed(*seed);
                Message::WakeUp(next_random_u64(&mut rng))
            },
        }
    }
}

impl Scheduler {
    /// The state of each follower.
    pub closed spec fn states(&self) -> Seq<State> {
        self.states@
    }

    /// The scheduled events.
    pub closed spec fn events(&self) -> Map<u64, TimestampActions> {
        self.events@
    }

    /// The scheduled events seen as values.
    pub open spec fn event_view(&self) -> EventsView {
        Map::new(
            |t: u64| self.events().contains_key(t),
            |t: u64| (self.events()[t].wake_ups(), self.events()[t].sends()),
        )
    }

    /// For each follower, the count of consecutive random-seed requests with
    /// the same seed, and that seed.
    pub closed spec fn counters(&self) -> Map<usize, (u64, u64)> {
        self.counters@
    }

    /// For each follower, the number of jitter draws made for its packets.
    pub closed spec fn jitter_draws(&self) -> Seq<u64> {
        self.n_use_random_number@
    }

    /// One entry per follower in each table, and every timespot well formed.
    pub closed spec fn wf(&self) -> bool {
        &&& forall|k: usize| #[trigger] self.counters@.contains_key(k) <==> 1 <= k <= self.states@.len()
        &&& self.n_use_random_number@.len() == self.states@.len()
        &&& forall|t: u64| #[trigger] self.events@.contains_key(t) ==> self.events@[t].wf()
    }

    /// A well-formed scheduler has one random-seed counter and one count of
    /// jitter draws per follower: the counters are those of the ids from 1
    /// to the number of followers.
    pub proof fn lemma_wf_tables(&self)
        requires
            self.wf(),
        ensures
            forall|k: usize| #[trigger] self.counters().contains_key(k) <==> 1 <= k <= self.states().len(),
            self.jitter_draws().len() == self.states().len(),
    {
    }

    /// Whether a message can be handled: the ids it names are those of
    /// followers, what it removes is there, and no count or time overflows.
    /// An IPv6 packet counts its jitter draw at position `id` (not `id - 1`
    /// as an IPv4 packet does), so it is accepted from the ids below the
    /// number of followers.
    pub open spec fn accepts(&self, msg: Message, now: u64, topo: NetworkTopology, jitter: u64) -> bool {
        accepts_at(self.states(), self.event_view(), self.counters(), self.jitter_draws(), msg, now, topo, jitter)
    }

    /// A simulation of `nb` followers: all running, nothing scheduled, every
    /// random-seed counter at (1, 0), no jitter drawn.
    pub fn new(nb: usize) -> (r: Self)
        ensures
            r.wf(),
            r.states() == Seq::new(nb as nat, |i: int| State::Running),
            r.event_view() == Map::<u64, ActionsView>::empty(),
            r.counters() == Map::new(|k: usize| 1 <= k <= nb, |k: usize| (1u64, 0u64)),
            r.jitter_draws() == Seq::new(nb as nat, |i: int| 0u64),
    {
        let mut states: Vec<State> = Vec::new();
        let mut counters: HashMap<usize, (u64, u64)> = HashMap::new();
        let mut draws: Vec<u64> = Vec::new();
        let mut i: usize = 0;
        while i < nb
            invariant
                0 <= i <= nb,
                states@ == Seq::new(i as nat, |k: int| State::Running),
                counters@ == Map::new(|k: usize| 1 <= k <= i, |k: usize| (1u64, 0u64)),
                draws@ == Seq::new(i as nat, |k: int| 0u64),
            decreases nb - i,
        {
            states.push(State::Running);
            counters.insert(i + 1, (1, 0));
            draws.push(0);
            i = i + 1;
            assert(states@ =~= Seq::new(i as nat, |k: int| State::Running));
            assert(counters@ =~= Map::new(|k: usize| 1 <= k <= i, |k: usize| (1u64, 0u64)));
            assert(draws@ =~= Seq::new(i as nat, |k: int| 0u64));
        }
        let r = Scheduler {
            states,
            events: BTreeMap::new(),
            counters,
            n_use_random_number: draws,
        };
        assert(r.event_view() =~= Map::<u64, ActionsView>::empty());
        r
    }

    /// The number of followers.
    pub fn nb_follower(&self) -> (n: usize)
        ensures
            n == self.states().len(),
    {
        self.states.len()
    }

    /// The state of follower `id` (from 1).
    pub fn state_of(&self, id: u8) -> (r: State)
        requires
            1 <= id <= self.states().len(),
        ensures
            r == self.states()[id - 1],
    {
        self.states[(id - 1) as usize]
    }

    /// The actions scheduled at time `t`, if any.
    pub fn actions_at(&self, t: u64) -> (r: Option<&TimestampActions>)
        ensures
            match r {
                Some(ta) => self.event_view().contains_key(t) && (ta.wake_ups(), ta.sends()) == self.event_view()[t],
                None => !self.event_view().contains_key(t),
            },
    {
        self.events.get(&t)
    }

    /// Whether a message can be handled (see `accepts`).
    pub fn can_handle(&self, msg: &Message, now: u64, topo: &NetworkTopology, jitter: u64) -> (r: bool)
        requires
            self.wf(),
            topo.wf(),
        ensures
            r == self.accepts(*msg, now, *topo, jitter),
    {
        let n = self.states.len();
        match msg {
            Message::DelStep(id, t) => match self.events.get(t) {
                Some(ta) => ta.contain_process(*id),
                None => true,
            },
            Message::GetTime(id) => (*id as usize) <= n,
            Message::GetRand(id, seed) => {
                if *id < 1 || (*id as usize) > n {
                    return false;
                }
                let c = match self.counters.get(&(*id as usize)) {
                    Some(c) => *c,
                    None => return false,
                };
                if c.0 == u64::MAX {
                    return false;
                }
                let next = if *seed == c.1 {
                    c.0 + 1
                } else {
                    1
                };
                seed.checked_mul(next).is_some()
            },
            Message::Finished(id) => 1 <= *id && (*id as usize) <= n,
            Message::Stuck(id) => 1 <= *id && (*id as usize) <= n,
            Message::HasToSend4(id, if_id, ip, _) => {
                if *id < 1 || (*id as usize) > n {
                    return false;
                }
                if self.n_use_random_number[(*id - 1) as usize] == u64::MAX {
                    return false;
                }
                match topo.checked_delay_v4(*id, *if_id, ip) {
                    Ok(Some(d)) => match now.checked_add(d) {
                        Some(x) => x.checked_add(jitter).is_some(),
                        None => false,
                    },
                    _ => false,
                }
            },
            Message::HasToSend6(id, if_id, ip, _) => {
                if (*id as usize) >= n {
                    return false;
                }
                if self.n_use_random_number[*id as usize] == u64::MAX {
                    return false;
                }
                match topo.checked_delay_v6(*id, *if_id, ip) {
                    Ok(Some(d)) => match now.checked_add(d) {
                        Some(x) => x.checked_add(jitter).is_some(),
                        None => false,
                    },
                    _ => false,
                }
            },
            _ => true,
        }
    }

    /// Schedules one more occurrence of process `id` to wake up at time `t`.
    fn add_wake(&mut self, t: u64, id: u8)
        requires
            old(self).wf(),
        ensures
            final(self).wf(),
            final(self).event_view() == wake_added(old(self).event_view(), t, id),
            final(self).states() == old(self).states(),
            final(self).counters() == old(self).counters(),
            final(self).jitter_draws() == old(self).jitter_draws(),
    {
        let ghost before = self.event_view();
        match self.events.remove(&t) {
            Some(mut x) => {
                x.add_process(id);
                self.events.insert(t, x);
            },
            None => {
                self.events.insert(t, TimestampActions::new_process(id));
            },
        }
        assert(self.event_view() =~= wake_added(before, t, id));
    }

    /// Removes the first occurrence of process `id` to wake up at time `t`,
    /// where `t` is scheduled.
    fn remove_wake(&mut self, t: u64, id: u8)
        requires
            old(self).wf(),
            old(self).event_view().contains_key(t) ==> old(self).event_view()[t].0.contains(id),
        ensures
            final(self).wf(),
            final(self).event_view() == wake_removed(old(self).event_view(), t, id),
            final(self).states() == old(self).states(),
            final(self).counters() == old(self).counters(),
            final(self).jitter_draws() == old(self).jitter_draws(),
    {
        let ghost before = self.event_view();
        match self.events.remove(&t) {
            Some(mut x) => {
                x.del_process(id);
                self.events.insert(t, x);
            },
            None => {},
        }
        assert(self.event_view() =~= wake_removed(before, t, id));
    }

    /// Schedules packet `pkt_id` of process `id` to be sent at time `t`.
    fn add_send(&mut self, t: u64, id: u8, pkt_id: u64)
        requires
            old(self).wf(),
        ensures
            final(self).wf(),
            final(self).event_view() == packet_added(old(self).event_view(), t, id, pkt_id),
            final(self).states() == old(self).states(),
            final(self).counters() == old(self).counters(),
            final(self).jitter_draws() == old(self).jitter_draws(),
    {
        let ghost before = self.event_view();
        match self.events.remove(&t) {
            Some(mut x) => {
                x.add_packet(id, pkt_id);
                self.events.insert(t, x);
            },
            None => {
                self.events.insert(t, TimestampActions::new_pkt_id(id, pkt_id));
            },
        }
        assert(self.event_view() =~= packet_added(before, t, id, pkt_id));
    }

    /// The seed of the next random number of follower `id` for a request
    /// with `seed`: `seed` times the count of consecutive requests with that
    /// seed, this one included.
    pub fn rand_seed(&mut self, id: u8, seed: u64) -> (r: u64)
        requires
            old(self).wf(),
            1 <= id <= old(self).states().len(),
            old(self).counters()[id as usize].0 < u64::MAX,
            seed * next_counter(old(self).counters()[id as usize], seed).0 <= u64::MAX,
        ensures
            final(self).wf(),
            final(self).counters() == next_counters(old(self).counters(), Message::GetRand(id, seed)),
            final(self).states() == old(self).states(),
            final(self).event_view() == old(self).event_view(),
            final(self).jitter_draws() == old(self).jitter_draws(),
            r == seed * next_counter(old(self).counters()[id as usize], seed).0,
    {
        let k = id as usize;
        assert(self.counters@.contains_key(k));
        let c = match self.counters.get(&k) {
            Some(c) => *c,
            None => {
                assert(false);
                (1, 0)
            },
        };
        let next = if seed == c.1 {
            (c.0 + 1, c.1)
        } else {
            (1, seed)
        };
        self.counters.insert(k, next);
        assert forall|j: usize| #[trigger] self.counters@.contains_key(j) <==> 1 <= j <= self.states@.len() by {
            if j == k {
            }
        }
        seed * next.0
    }

    /// Handles a message of a follower at time `now`: schedules the steps
    /// and packets it announces, records that it is blocked or finished,
    /// and answers a request for the time or for a random number. The
    /// answer, if any, goes with the follower (queue) to send it to.
    /// `jitter` is the extra delay of a packet announced by the message.
    pub fn handle_message(&mut self, msg: Message, now: u64, topo: &NetworkTopology, jitter: u64) -> (r: Option<(u8, Reply)>)
        requires
            old(self).wf(),
            topo.wf(),
            old(self).accepts(msg, now, *topo, jitter),
        ensures
            final(self).wf(),
            final(self).states() == next_states(old(self).states(), msg),
            final(self).event_view() == next_events(old(self).event_view(), msg, now, *topo, jitter),
            final(self).counters() == next_counters(old(self).counters(), msg),
            final(self).jitter_draws() == next_draws(old(self).jitter_draws(), msg),
            r == answer_of(msg, now, old(self).counters()),
    {
        match msg {
            Message::AddStep(id, t) => {
                self.add_wake(t, id);
                None
            },
            Message::DelStep(id, t) => {
                self.remove_wake(t, id);
                None
            },
            Message::GetTime(id) => Some((id, Reply::Time(now))),
            Message::GetRand(id, seed) => {
                let computed_seed = self.rand_seed(id, seed);
                Some((id, Reply::Random(computed_seed)))
            },
            Message::Finished(id) => {
                self.states.set((id - 1) as usize, State::Finished);
                None
            },
            Message::Stuck(id) => {
                self.states.set((id - 1) as usize, State::Blocked);
                None
            },
            Message::HasToSend4(id, if_id, ip, pkt_id) => {
                let i = (id - 1) as usize;
                let delay = match topo.get_delay_v4(id, if_id, &ip) {
                    Some(d) => d,
                    None => 0,
                };
                let timestamp = now + delay + jitter;
                let draws = self.n_use_random_number[i];
                self.n_use_random_number.set(i, draws + 1);
                self.add_send(timestamp, id, pkt_id);
                None
            },
            Message::HasToSend6(id, if_id, ip, pkt_id) => {
                let i = id as usize;
                let delay = match topo.get_delay_v6(id, if_id, &ip) {
                    Some(d) => d,
                    None => 0,
                };
                let timestamp = now + delay + jitter;
                let draws = self.n_use_random_number[i];
                self.n_use_random_number.set(i, draws + 1);
                self.add_send(timestamp, id, pkt_id);
                None
            },
            _ => None,
        }
    }

    /// Where the followers stand: all finished, all blocked or finished
    /// (time must advance), or some still running (`None`).
    pub fn progress(&self) -> (r: Option<State>)
        ensures
            r == progress_of(self.states()),
    {
        let mut nb_blocked: usize = 0;
        let mut nb_finished: usize = 0;
        let mut i: usize = 0;
        while i < self.states.len()
            invariant
                0 <= i <= self.states@.len(),
                nb_blocked == count_state(self.states@.subrange(0, i as int), State::Blocked),
                nb_finished == count_state(self.states@.subrange(0, i as int), State::Finished),
                nb_blocked + nb_finished <= i,
            decreases self.states@.len() - i,
        {
            assert(self.states@.subrange(0, i + 1).drop_last() =~= self.states@.subrange(0, i as int));
            match self.states[i] {
                State::Blocked => nb_blocked = nb_blocked + 1,
                State::Finished => nb_finished = nb_finished + 1,
                _ => {},
            }
            i = i + 1;
        }
        assert(self.states@.subrange(0, i as int) =~= self.states@);
        if nb_finished == self.states.len() {
            Some(State::Finished)
        } else if nb_blocked + nb_finished == self.states.len() {
            Some(State::Blocked)
        } else {
            None
        }
    }

    /// Sets every follower running, before the first timespot; returns the
    /// ids of the followers to wake up: all of them, in order.
    pub fn wake_all(&mut self) -> (r: Vec<u8>)
        requires
            old(self).wf(),
            old(self).states().len() <= 255,
        ensures
            final(self).wf(),
            final(self).states() == Seq::new(old(self).states().len(), |i: int| State::Running),
            r@ == Seq::new(old(self).states().len(), |i: int| (i + 1) as u8),
            final(self).event_view() == old(self).event_view(),
            final(self).counters() == old(self).counters(),
            final(self).jitter_draws() == old(self).jitter_draws(),
    {
        let n = self.states.len();
        let mut woken: Vec<u8> = Vec::new();
        let mut i: usize = 0;
        while i < n
            invariant
                0 <= i <= n,
                n == old(self).states().len(),
                n <= 255,
                self.wf(),
                self.states@.len() == n,
                forall|k: int| 0 <= k < i ==> self.states@[k] == State::Running,
                woken@ == Seq::new(i as nat, |k: int| (k + 1) as u8),
                self.event_view() == old(self).event_view(),
                self.counters() == old(self).counters(),
                self.jitter_draws() == old(self).jitter_draws(),
            decreases n - i,
        {
            self.states.set(i, State::Running);
            woken.push((i + 1) as u8);
            i = i + 1;
            assert(woken@ =~= Seq::new(i as nat, |k: int| (k + 1) as u8));
        }
        assert(self.states@ =~= Seq::new(n as nat, |k: int| State::Running));
        woken
    }

    /// Sets every follower that has not finished running, at a new timespot;
    /// returns the ids of these followers, in order.
    pub fn wake_unfinished(&mut self) -> (r: Vec<u8>)
        requires
            old(self).wf(),
            old(self).states().len() <= 255,
        ensures
            final(self).wf(),
            final(self).states() == Seq::new(
                old(self).states().len(),
                |i: int|
                    if old(self).states()[i] == State::Finished {
                        State::Finished
                    } else {
                        State::Running
                    },
            ),
            r@ == unfinished_ids(old(self).states(), old(self).states().len()),
            final(self).event_view() == old(self).event_view(),
            final(self).counters() == old(self).counters(),
            final(self).jitter_draws() == old(self).jitter_draws(),
    {
        let n = self.states.len();
        let ghost s0 = self.states@;
        let mut woken: Vec<u8> = Vec::new();
        let mut i: usize = 0;
        while i < n
            invariant
                0 <= i <= n,
                n == s0.len(),
                s0 == old(self).states(),
                n <= 255,
                self.wf(),
                self.states@.len() == n,
                forall|k: int|
                    0 <= k < i ==> self.states@[k] == if s0[k] == State::Finished {
                        State::Finished
                    } else {
                        State::Running
                    },
                forall|k: int| i <= k < n ==> self.states@[k] == s0[k],
                woken@ == unfinished_ids(s0, i as nat),
                self.event_view() == old(self).event_view(),
                self.counters() == old(self).counters(),
                self.jitter_draws() == old(self).jitter_draws(),
            decreases n - i,
        {
            if self.states[i] != State::Finished {
                self.states.set(i, State::Running);
                woken.push((i + 1) as u8);
            }
            i = i + 1;
        }
        assert(self.states@ =~= Seq::new(
            n as nat,
            |k: int|
                if s0[k] == State::Finished {
                    State::Finished
                } else {
                    State::Running
                },
        ));
        woken
    }

    /// The first timespot, left in place: its time and its actions; nothing
    /// where no event is scheduled.
    pub fn first_timespot(&self) -> (r: Option<(u64, &TimestampActions)>)
        ensures
            match r {
                Some((t, ta)) => {
                    &&& is_first_time(self.event_view(), t)
                    &&& (ta.wake_ups(), ta.sends()) == self.event_view()[t]
                },
                None => self.event_view() == Map::<u64, ActionsView>::empty(),
            },
    {
        match first_event(&self.events) {
            Some((t, ta)) => Some((*t, ta)),
            None => {
                assert(self.event_view() =~= Map::<u64, ActionsView>::empty());
                None
            },
        }
    }

    /// Removes and returns the first timespot: its time and its actions;
    /// nothing where no event is scheduled.
    pub fn next_timespot(&mut self) -> (r: Option<(u64, TimestampActions)>)
        requires
            old(self).wf(),
        ensures
            final(self).wf(),
            match r {
                Some((t, ta)) => {
                    &&& is_first_time(old(self).event_view(), t)
                    &&& ta.wf()
                    &&& (ta.wake_ups(), ta.sends()) == old(self).event_view()[t]
                    &&& final(self).event_view() == old(self).event_view().remove(t)
                },
                None => old(self).event_view() == Map::<u64, ActionsView>::empty()
                    && final(self).event_view() == old(self).event_view(),
            },
            final(self).states() == old(self).states(),
            final(self).counters() == old(self).counters(),
            final(self).jitter_draws() == old(self).jitter_draws(),
    {
        let ghost before = self.event_view();
        let r = pop_first_event(&mut self.events);
        match r {
            Some((t, _)) => {
                assert(self.event_view() =~= before.remove(t));
            },
            None => {
                assert(before =~= Map::<u64, ActionsView>::empty());
            },
        }
        r
    }
}

/// Whether `m` acknowledges the sending of packet `pkt_id` by process `process`.
pub fn sent_matches(process: u8, pkt_id: u64, m: &Message) -> (r: bool)
    ensures
        r == (*m == Message::Sent(process, pkt_id)),
{
    match m {
        Message::Sent(p, p_id) => *p == process && *p_id == pkt_id,
        _ => false,
    }
}

/// Announcing a step of process `id` at time `t`, then cancelling it,
/// leaves the processes to wake up at `t` as they were (the same multiset;
/// none where `t` was not scheduled), the packets of `t` as they were, and
/// every other timespot untouched.
pub proof fn lemma_add_then_del_step(ev: EventsView, t: u64, id: u8)
    ensures
        ({
            let ev2 = wake_removed(wake_added(ev, t, id), t, id);
            &&& ev2.dom() == ev.dom().insert(t)
            &&& forall|u: u64| #[trigger] ev.contains_key(u) && u != t ==> ev2[u] == ev[u]
            &&& ev2[t].0.to_multiset() == if ev.contains_key(t) {
                ev[t].0.to_multiset()
            } else {
                Multiset::<u8>::empty()
            }
            &&& ev2[t].1 == if ev.contains_key(t) {
                ev[t].1
            } else {
                Map::<u8, Seq<u64>>::empty()
            }
        }),
{
    let ev2 = wake_removed(wake_added(ev, t, id), t, id);
    let s = if ev.contains_key(t) {
        ev[t].0
    } else {
        Seq::<u8>::empty()
    };
    assert(wake_added(ev, t, id)[t].0 == s.push(id)) by {
        if !ev.contains_key(t) {
            assert(seq![id] =~= Seq::<u8>::empty().push(id));
        }
    }
    lemma_del_undoes_add(s, id);
    assert(ev2.dom() =~= ev.dom().insert(t));
    if !ev.contains_key(t) {
        assert(Seq::<u8>::empty().to_multiset() =~= Multiset::<u8>::empty()) by {
            broadcast use vstd::seq_lib::group_to_multiset_ensures;
            broadcast use vstd::multiset::group_multiset_axioms;

        }
    }
}

/// Once announced, a packet is among those that its timespot sends.
pub proof fn lemma_announced_packet_is_sent(ev: EventsView, t: u64, id: u8, pkt: u64)
    ensures
        packet_added(ev, t, id, pkt).contains_key(t),
        flat_all(packet_added(ev, t, id, pkt)[t].1).contains((id, pkt)),
{
    let m = packet_added(ev, t, id, pkt)[t].1;
    let q = m[id];
    assert(q.last() == pkt);
    assert(q.contains(pkt));
    lemma_flat_all_contains(m, id, pkt);
}

/// Repeating a random-number request with the same seed advances the count
/// by one, so that the generator of the second request is seeded with
/// another value (where the seed is not zero).
pub proof fn lemma_repeated_seed(c: (u64, u64), seed: u64)
    requires
        next_counter(c, seed).0 < u64::MAX,
    ensures
        next_counter(next_counter(c, seed), seed).0 == next_counter(c, seed).0 + 1,
        seed != 0 ==> seed * next_counter(next_counter(c, seed), seed).0 != seed * next_counter(c, seed).0,
{
    let k = next_counter(c, seed).0;
    assert(seed != 0 ==> seed * (k + 1) != seed * k) by (nonlinear_arith);
}

/// A packet announced at time `now` is delivered after the delay of its link
/// and the jitter, never before `now`.
pub proof fn lemma_delivery_not_before_now(now: u64, delay: u64, jitter: u64)
    requires
        now + delay + jitter <= u64::MAX,
    ensures
        delivery_time(now, Some(delay), jitter) == now + delay + jitter,
        now <= delivery_time(now, Some(delay), jitter),
{
}

/// Waking the followers that have not finished wakes exactly them, each
/// once, by increasing id: among the first `n` followers, `id` is woken
/// exactly when follower `id` has not finished.
pub proof fn lemma_unfinished_ids(s: Seq<State>, n: nat)
    requires
        n <= s.len(),
        n <= 255,
    ensures
        forall|id: u8| #[trigger] unfinished_ids(s, n).contains(id) <==> (1 <= id <= n && s[id - 1] != State::Finished),
        forall|i: int, j: int|
            0 <= i < j < unfinished_ids(s, n).len() ==> #[trigger] unfinished_ids(s, n)[i] < #[trigger] unfinished_ids(s, n)[j],
    decreases n,
{
    if n > 0 {
        lemma_unfinished_ids(s, (n - 1) as nat);
        let p = unfinished_ids(s, (n - 1) as nat);
        let q = unfinished_ids(s, n);
        assert forall|k: int| 0 <= k < p.len() implies 1 <= #[trigger] p[k] <= n - 1 by {
            assert(p.contains(p[k]));
        }
        if s[n - 1] != State::Finished {
            assert(q == p.push(n as u8));
            assert forall|id: u8| #[trigger] q.contains(id) <==> (1 <= id <= n && s[id - 1] != State::Finished) by {
                if q.contains(id) {
                    let k = choose|k: int| 0 <= k < q.len() && q[k] == id;
                    if k < p.len() {
                        assert(p[k] == id);
                        assert(p.contains(id));
                    }
                }
                if 1 <= id <= n && s[id - 1] != State::Finished {
                    if id == n {
                        assert(q[p.len() as int] == id);
                    } else {
                        assert(p.contains(id));
                        let k = choose|k: int| 0 <= k < p.len() && p[k] == id;
                        assert(q[k] == id);
                    }
                }
            }
        } else {
            assert(q == p);
        }
    }
}

/// Where every scheduled time is at least `now` and a step is announced for
/// `now` or later, every time scheduled after a message is at least `now`.
pub proof fn lemma_events_not_before_now(ev: EventsView, msg: Message, now: u64, topo: NetworkTopology, jitter: u64)
    requires
        forall|u: u64| #[trigger] ev.contains_key(u) ==> now <= u,
        msg matches Message::AddStep(_, s) ==> now <= s,
        msg matches Message::HasToSend4(id, if_id, ip, _) ==> topo.delay_v4(id, if_id, ip) is Some && now
            + topo.delay_v4(id, if_id, ip).unwrap() + jitter <= u64::MAX,
        msg matches Message::HasToSend6(id, if_id, ip, _) ==> topo.delay_v6(id, if_id, ip) is Some && now
            + topo.delay_v6(id, if_id, ip).unwrap() + jitter <= u64::MAX,
    ensures
        forall|u: u64| #[trigger] next_events(ev, msg, now, topo, jitter).contains_key(u) ==> now <= u,
{
    let ev1 = next_events(ev, msg, now, topo, jitter);
    assert forall|u: u64| #[trigger] ev1.contains_key(u) implies now <= u by {
        if !ev.contains_key(u) {
            match msg {
                Message::HasToSend4(id, if_id, ip, _) => {
                    lemma_delivery_not_before_now(now, topo.delay_v4(id, if_id, ip).unwrap(), jitter);
                },
                Message::HasToSend6(id, if_id, ip, _) => {
                    lemma_delivery_not_before_now(now, topo.delay_v6(id, if_id, ip).unwrap(), jitter);
                },
                _ => {},
            }
        }
    }
}

/// A time is scheduled: then some time is the first one.
pub proof fn lemma_first_time_exists(ev: EventsView, w: u64)
    requires
        ev.contains_key(w),
    ensures
        exists|t: u64| is_first_time(ev, t),
    decreases w,
{
    if exists|u: u64| ev.contains_key(u) && u < w {
        let u = choose|u: u64| ev.contains_key(u) && u < w;
        lemma_first_time_exists(ev, u);
    } else {
        assert(is_first_time(ev, w));
    }
}

/// The clock never goes back: where every scheduled time is at least `now`
/// and a step is announced for `now` or later, every time scheduled after a
/// message is at least `now`; so the next timespot `t` is at `now` or later,
/// and every time left scheduled after it is at least `t`.
pub proof fn lemma_clock_never_goes_back(ev: EventsView, msg: Message, now: u64, topo: NetworkTopology, jitter: u64, t: u64)
    requires
        forall|u: u64| #[trigger] ev.contains_key(u) ==> now <= u,
        msg matches Message::AddStep(_, s) ==> now <= s,
        msg matches Message::HasToSend4(id, if_id, ip, _) ==> topo.delay_v4(id, if_id, ip) is Some && now
            + topo.delay_v4(id, if_id, ip).unwrap() + jitter <= u64::MAX,
        msg matches Message::HasToSend6(id, if_id, ip, _) ==> topo.delay_v6(id, if_id, ip) is Some && now
            + topo.delay_v6(id, if_id, ip).unwrap() + jitter <= u64::MAX,
        is_first_time(next_events(ev, msg, now, topo, jitter), t),
    ensures
        forall|u: u64| #[trigger] next_events(ev, msg, now, topo, jitter).contains_key(u) ==> now <= u,
        now <= t,
        forall|u: u64| #[trigger] next_events(ev, msg, now, topo, jitter).remove(t).contains_key(u) ==> t <= u,
{
    lemma_events_not_before_now(ev, msg, now, topo, jitter);
    assert(next_events(ev, msg, now, topo, jitter).contains_key(t));
}

/// A packet announced by a follower is scheduled for that follower: after
/// a message `HasToSend4` or `HasToSend6` from `id`, the timespot at now plus
/// the link's delay plus the jitter lists the packet last among the packets
/// of process `id`, whatever the interface; every other process keeps its
/// packets there, the processes to wake up there are kept, and every other
/// timespot is unchanged.
pub proof fn lemma_packet_scheduled_for_sender(ev: EventsView, msg: Message, now: u64, topo: NetworkTopology, jitter: u64)
    requires
        msg is HasToSend4 || msg is HasToSend6,
    ensures
        ({
            let (id, pkt, d) = match msg {
                Message::HasToSend4(id, if_id, ip, pkt) => (id, pkt, topo.delay_v4(id, if_id, ip)),
                Message::HasToSend6(id, if_id, ip, pkt) => (id, pkt, topo.delay_v6(id, if_id, ip)),
                _ => (0u8, 0u64, None),
            };
            let t = (now + d.unwrap() + jitter) as u64;
            let ev1 = next_events(ev, msg, now, topo, jitter);
            let before = if ev.contains_key(t) {
                ev[t]
            } else {
                (Seq::<u8>::empty(), Map::<u8, Seq<u64>>::empty())
            };
            &&& ev1.contains_key(t)
            &&& ev1[t].1.contains_key(id)
            &&& ev1[t].1[id].len() > 0
            &&& ev1[t].1[id].last() == pkt
            &&& ev1[t].1[id] == (if before.1.contains_key(id) {
                before.1[id]
            } else {
                Seq::<u64>::empty()
            }).push(pkt)
            &&& flat_all(ev1[t].1).contains((id, pkt))
            &&& forall|p: u8| p != id ==> #[trigger] ev1[t].1.contains_key(p) == before.1.contains_key(p)
            &&& forall|p: u8| p != id && #[trigger] ev1[t].1.contains_key(p) ==> ev1[t].1[p] == before.1[p]
            &&& ev1[t].0 == before.0
            &&& forall|u: u64| u != t ==> #[trigger] ev1.contains_key(u) == ev.contains_key(u)
            &&& forall|u: u64| u != t && #[trigger] ev1.contains_key(u) ==> ev1[u] == ev[u]
        }),
{
    let (id, pkt) = match msg {
        Message::HasToSend4(id, _, _, pkt) => (id, pkt),
        Message::HasToSend6(id, _, _, pkt) => (id, pkt),
        _ => (0u8, 0u64),
    };
    let t = match msg {
        Message::HasToSend4(id, if_id, ip, _) => delivery_time(now, topo.delay_v4(id, if_id, ip), jitter),
        Message::HasToSend6(id, if_id, ip, _) => delivery_time(now, topo.delay_v6(id, if_id, ip), jitter),
        _ => 0u64,
    };
    let ev1 = next_events(ev, msg, now, topo, jitter);
    assert(ev1 == packet_added(ev, t, id, pkt));
    lemma_announced_packet_is_sent(ev, t, id, pkt);
}

/// A step announced by a follower is scheduled for that follower: after
/// `AddStep(id, t)`, process `id` is the last to wake up at `t`, the earlier
/// ones are kept, and so are the packets of `t` and every other timespot.
pub proof fn lemma_step_scheduled_for_sender(ev: EventsView, id: u8, t: u64, now: u64, topo: NetworkTopology, jitter: u64)
    ensures
        ({
            let ev1 = next_events(ev, Message::AddStep(id, t), now, topo, jitter);
            let before = if ev.contains_key(t) {
                ev[t]
            } else {
                (Seq::<u8>::empty(), Map::<u8, Seq<u64>>::empty())
            };
            &&& ev1.contains_key(t)
            &&& ev1[t].0 == before.0.push(id)
            &&& ev1[t].0.contains(id)
            &&& ev1[t].1 == before.1
            &&& forall|u: u64| u != t ==> #[trigger] ev1.contains_key(u) == ev.contains_key(u)
            &&& forall|u: u64| u != t && #[trigger] ev1.contains_key(u) ==> ev1[u] == ev[u]
        }),
{
    let ev1 = next_events(ev, Message::AddStep(id, t), now, topo, jitter);
    assert(ev1[t].0[ev1[t].0.len() - 1] == id);
    if !ev.contains_key(t) {
        assert(seq![id] =~= Seq::<u8>::empty().push(id));
    }
}

/// Cancelling a step removes one occurrence of the follower that cancels it,
/// at that time only: after `DelStep(id, t)` where `id` is to wake up at
/// `t`, the processes to wake up at `t` are those before with one
/// occurrence of `id` fewer (as a multiset), the packets are kept, and every
/// other timespot is unchanged.
pub proof fn lemma_step_cancelled_for_sender(ev: EventsView, id: u8, t: u64, now: u64, topo: NetworkTopology, jitter: u64)
    requires
        ev.contains_key(t),
        ev[t].0.contains(id),
    ensures
        ({
            let ev1 = next_events(ev, Message::DelStep(id, t), now, topo, jitter);
            &&& ev1.contains_key(t)
            &&& ev1[t].0.len() + 1 == ev[t].0.len()
            &&& ev1[t].0.to_multiset().insert(id) == ev[t].0.to_multiset()
            &&& ev1[t].1 == ev[t].1
            &&& ev1.dom() == ev.dom()
            &&& forall|u: u64| u != t && #[trigger] ev1.contains_key(u) ==> ev1[u] == ev[u]
        }),
{
    let s = ev[t].0;
    let w = choose|w: int| 0 <= w < s.len() && s[w] == id;
    lemma_first_index(s, id, w);
    let i = first_index(s, id);
    vstd::seq_lib::to_multiset_remove(s, i);
    let ev1 = next_events(ev, Message::DelStep(id, t), now, topo, jitter);
    assert(ev1.dom() =~= ev.dom());
    assert(s.to_multiset().remove(id).insert(id) =~= s.to_multiset()) by {
        broadcast use vstd::multiset::group_multiset_axioms;
        broadcast use vstd::seq_lib::group_to_multiset_ensures;

        assert(s.to_multiset().count(id) > 0);
    }
}

/// A follower's report changes its own state only: after `Finished(id)`
/// (`Stuck(id)`), follower `id` is finished (blocked) and every other
/// follower keeps its state; other messages change no state.
pub proof fn lemma_state_of_sender(s: Seq<State>, msg: Message)
    requires
        msg matches Message::Finished(id) ==> 1 <= id <= s.len(),
        msg matches Message::Stuck(id) ==> 1 <= id <= s.len(),
    ensures
        next_states(s, msg).len() == s.len(),
        msg matches Message::Finished(id) ==> next_states(s, msg)[id - 1] == State::Finished,
        msg matches Message::Stuck(id) ==> next_states(s, msg)[id - 1] == State::Blocked,
        forall|k: int|
            0 <= k < s.len() && !(msg matches Message::Finished(id) && k == id - 1) && !(msg matches Message::Stuck(
                id,
            ) && k == id - 1) ==> #[trigger] next_states(s, msg)[k] == s[k],
{
}

/// A request is answered to the follower that made it: the time asked for
/// is the current time; the seed of a random number is the request's seed
/// times the number of consecutive requests of that follower with that seed
/// (one for a new seed); other messages get no answer.
pub proof fn lemma_answer_to_sender(msg: Message, now: u64, c: Map<usize, (u64, u64)>)
    requires
        msg matches Message::GetRand(id, _) ==> c[id as usize].0 < u64::MAX,
        msg matches Message::GetRand(id, seed) ==> seed * (if c[id as usize].1 == seed {
            c[id as usize].0 + 1
        } else {
            1
        }) <= u64::MAX,
    ensures
        msg matches Message::GetTime(id) ==> answer_of(msg, now, c) == Some((id, Reply::Time(now))),
        msg matches Message::GetRand(id, seed) ==> answer_of(msg, now, c) == Some(
            (
                id,
                Reply::Random(
                    (seed * (if c[id as usize].1 == seed {
                        c[id as usize].0 + 1
                    } else {
                        1
                    })) as u64,
                ),
            ),
        ),
        msg matches Message::GetRand(id, seed) ==> next_counters(c, msg)[id as usize] == (if c[id as usize].1
            == seed {
            ((c[id as usize].0 + 1) as u64, seed)
        } else {
            (1u64, seed)
        }),
        !(msg is GetTime || msg is GetRand) ==> answer_of(msg, now, c) is None && next_counters(c, msg) == c,
{
}

/// Announcing a packet counts one jitter draw for the follower that sends
/// it (at position `id - 1` for IPv4, `id` for IPv6), and for no other;
/// other messages count none.
pub proof fn lemma_draw_of_sender(d: Seq<u64>, msg: Message)
    requires
        msg matches Message::HasToSend4(id, _, _, _) ==> 1 <= id <= d.len() && d[id - 1] < u64::MAX,
        msg matches Message::HasToSend6(id, _, _, _) ==> id < d.len() && d[id as int] < u64::MAX,
    ensures
        next_draws(d, msg).len() == d.len(),
        msg matches Message::HasToSend4(id, _, _, _) ==> next_draws(d, msg)[id - 1] == d[id - 1] + 1,
        msg matches Message::HasToSend6(id, _, _, _) ==> next_draws(d, msg)[id as int] == d[id as int] + 1,
        forall|k: int|
            0 <= k < d.len() && !(msg matches Message::HasToSend4(id, _, _, _) && k == id - 1) && !(
            msg matches Message::HasToSend6(id, _, _, _) && k == id) ==> #[trigger] next_draws(d, msg)[k] == d[k],
{
}

/// The entries of `s` that are `st` or not, counted.
proof fn lemma_count_state(s: Seq<State>)
    ensures
        count_state(s, State::Running) + count_state(s, State::Blocked) + count_state(s, State::Finished) == s.len(),
        count_state(s, State::Finished) == s.len() <==> forall|i: int| 0 <= i < s.len() ==> s[i] == State::Finished,
        count_state(s, State::Running) == 0 <==> forall|i: int| 0 <= i < s.len() ==> s[i] != State::Running,
        count_state(s, State::Blocked) == 0 <==> forall|i: int| 0 <= i < s.len() ==> s[i] != State::Blocked,
    decreases s.len(),
{
    if s.len() > 0 {
        let p = s.drop_last();
        lemma_count_state(p);
        assert forall|i: int| 0 <= i < p.len() implies p[i] == s[i] by {}
        if count_state(s, State::Finished) == s.len() {
            assert forall|i: int| 0 <= i < s.len() implies s[i] == State::Finished by {
                if i < p.len() {
                    assert(p[i] == s[i]);
                }
            }
        }
        if count_state(s, State::Running) == 0 {
            assert forall|i: int| 0 <= i < s.len() implies s[i] != State::Running by {
                if i < p.len() {
                    assert(p[i] == s[i]);
                }
            }
        }
        if count_state(s, State::Blocked) == 0 {
            assert forall|i: int| 0 <= i < s.len() implies s[i] != State::Blocked by {
                if i < p.len() {
                    assert(p[i] == s[i]);
                }
            }
        }
    }
}

/// The simulation is over (`Finished`) exactly when every follower has
/// finished; time must advance (`Blocked`) exactly when no follower is
/// running and some follower is blocked.
pub proof fn lemma_progress(s: Seq<State>)
    ensures
        progress_of(s) == Some(State::Finished) <==> forall|i: int| 0 <= i < s.len() ==> s[i] == State::Finished,
        progress_of(s) == Some(State::Blocked) <==> ((forall|i: int| 0 <= i < s.len() ==> s[i] != State::Running)
            && exists|i: int| 0 <= i < s.len() && s[i] == State::Blocked),
        progress_of(s) is None <==> exists|i: int| 0 <= i < s.len() && s[i] == State::Running,
{
    lemma_count_state(s);
}

} // verus!
