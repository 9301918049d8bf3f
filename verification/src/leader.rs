//! The simulator's (the leader's) loop as a state machine: from its state
//! and the next message of a follower to its next state and what it sends.
//!
//! The followers first run at time 0. While they run, the leader handles
//! their messages; once every follower is blocked or finished, it takes the
//! next timespot: it has the packets due sent one at a time (each followed
//! by its acknowledgement), then wakes every follower that has not finished.
//! The simulation is over when every follower has finished (result 0) or
//! when all are blocked and nothing is scheduled (result 1).

use vstd::prelude::*;

use crate::message::Message;
use crate::scheduler::{
    accepts_at, answer_of, is_first_time, lemma_events_not_before_now, lemma_first_time_exists, lemma_unfinished_ids, next_counters, next_draws, next_events, next_states, progress_of, sent_matches,
    unfinished_ids, ActionsView, EventsView, Reply, Scheduler, State,
};
use crate::timestamp::flat_all;
use crate::topology::NetworkTopology;

verus! {

/// What the leader is doing.
#[derive(Debug)]
pub enum Phase {
    /// The followers run at the given time; the leader handles their messages.
    Running(u64),
    /// At the given time, the listed packets (process, packet) are sent one
    /// at a time; the leader waits for the acknowledgement of the one at the
    /// given position.
    Sending(u64, Vec<(u8, u64)>, usize),
    /// The simulation is over, with the given result.
    Over(u8),
}

/// Why the leader could not take a message.
#[derive(Debug, PartialEq, Eq, Clone, Copy)]
pub enum LeaderError {
    /// A message of a running follower that cannot be handled (see
    /// `Scheduler::accepts`).
    Unhandled,
    /// While packets are sent, a message other than the awaited acknowledgement.
    BadAcknowledgement,
    /// The simulation is over.
    Over,
}

/// What the leader does after a message: the answer to its sender, if any
/// (sent first, with the higher priority; see `Reply::to_message`), the
/// other messages to send, in order, and the result of the simulation where
/// it is over.
#[derive(Debug)]
pub struct Step {
    pub answer: Option<(u8, Reply)>,
    pub send: Vec<(u8, Message)>,
    pub stop: Option<u8>,
}

/// The leader: the decision state of the followers and what it is doing.
#[derive(Debug)]
pub struct Leader {
    sched: Scheduler,
    phase: Phase,
}

/// What the leader is doing, seen as values.
pub enum PhaseView {
    Running(u64),
    Sending(u64, Seq<(u8, u64)>, int),
    Over(u8),
}

/// The leader seen as values: the states of the followers, the scheduled
/// events, the random-seed counters, the jitter draws and the phase.
pub struct LeaderView {
    pub states: Seq<State>,
    pub events: EventsView,
    pub counters: Map<usize, (u64, u64)>,
    pub draws: Seq<u64>,
    pub phase: PhaseView,
}

/// What one step gives, seen as values.
pub struct StepView {
    pub answer: Option<(u8, Reply)>,
    pub send: Seq<(u8, Message)>,
    pub stop: Option<u8>,
}

/// A phase seen as values.
pub open spec fn phase_view(p: Phase) -> PhaseView {
    match p {
        Phase::Running(t) => PhaseView::Running(t),
        Phase::Sending(t, pk, i) => PhaseView::Sending(t, pk@, i as int),
        Phase::Over(c) => PhaseView::Over(c),
    }
}

/// Moving to the next timespot from the states `s`, the events `ev`, the
/// counters `c` and the draws `d`: the end (result 1) where nothing is
/// scheduled; otherwise the first timespot is taken off, and either its
/// first packet is sent or, where it has none, the followers that have not
/// finished are woken at its time.
pub open spec fn advance_view(s: Seq<State>, ev: EventsView, c: Map<usize, (u64, u64)>, d: Seq<u64>) -> (LeaderView, Seq<(u8, Message)>, Option<u8>) {
    if ev.dom() == Set::<u64>::empty() {
        (LeaderView { states: s, events: ev, counters: c, draws: d, phase: PhaseView::Over(1) }, Seq::empty(), Some(1u8))
    } else {
        let t = first_time(ev);
        let pk = flat_all(ev[t].1);
        if pk.len() > 0 {
            (
                LeaderView { states: s, events: ev.remove(t), counters: c, draws: d, phase: PhaseView::Sending(t, pk, 0) },
                seq![send_msg(pk[0])],
                None,
            )
        } else {
            (
                LeaderView { states: woken(s), events: ev.remove(t), counters: c, draws: d, phase: PhaseView::Running(t) },
                wake_msgs(s, t),
                None,
            )
        }
    }
}

/// One step of the leader on a follower's message: nothing where the
/// message is refused (see `Leader::on_message`).
pub open spec fn leader_step(v: LeaderView, msg: Message, topo: NetworkTopology, jitter: u64) -> Option<(LeaderView, StepView)> {
    match v.phase {
        PhaseView::Over(_) => None,
        PhaseView::Running(now) => if !accepts_at(v.states, v.events, v.counters, v.draws, msg, now, topo, jitter) {
            None
        } else {
            let s1 = next_states(v.states, msg);
            let ev1 = next_events(v.events, msg, now, topo, jitter);
            let c1 = next_counters(v.counters, msg);
            let d1 = next_draws(v.draws, msg);
            let answer = answer_of(msg, now, v.counters);
            match progress_of(s1) {
                None => Some(
                    (
                        LeaderView { states: s1, events: ev1, counters: c1, draws: d1, phase: PhaseView::Running(now) },
                        StepView { answer, send: Seq::empty(), stop: None },
                    ),
                ),
                Some(State::Finished) => Some(
                    (
                        LeaderView { states: s1, events: ev1, counters: c1, draws: d1, phase: PhaseView::Over(0) },
                        StepView { answer, send: Seq::empty(), stop: Some(0u8) },
                    ),
                ),
                Some(_) => {
                    let (v2, send, stop) = advance_view(s1, ev1, c1, d1);
                    Some((v2, StepView { answer, send, stop }))
                },
            }
        },
        PhaseView::Sending(t, p, i) => if msg != Message::Sent(p[i].0, p[i].1) {
            None
        } else if i + 1 < p.len() {
            Some(
                (
                    LeaderView { phase: PhaseView::Sending(t, p, i + 1), ..v },
                    StepView { answer: None, send: seq![send_msg(p[i + 1])], stop: None },
                ),
            )
        } else {
            Some(
                (
                    LeaderView { states: woken(v.states), phase: PhaseView::Running(t), ..v },
                    StepView { answer: None, send: wake_msgs(v.states, t), stop: None },
                ),
            )
        },
    }
}

/// A run of the leader on follower messages, in order: the leader it ends
/// with and what each step gives; nothing where a message is refused.
pub open spec fn leader_run(v: LeaderView, msgs: Seq<Message>, topo: NetworkTopology, jitter: u64) -> Option<(LeaderView, Seq<StepView>)>
    decreases msgs.len(),
{
    if msgs.len() == 0 {
        Some((v, Seq::empty()))
    } else {
        match leader_run(v, msgs.drop_last(), topo, jitter) {
            None => None,
            Some((v1, steps)) => match leader_step(v1, msgs.last(), topo, jitter) {
                None => None,
                Some((v2, st)) => Some((v2, steps.push(st))),
            },
        }
    }
}

/// The first scheduled time.
pub open spec fn first_time(ev: EventsView) -> u64 {
    choose|t: u64| is_first_time(ev, t)
}

/// The states after waking every follower that has not finished.
pub open spec fn woken(s: Seq<State>) -> Seq<State> {
    Seq::new(
        s.len(),
        |i: int|
            if s[i] == State::Finished {
                State::Finished
            } else {
                State::Running
            },
    )
}

/// The messages that wake every follower that has not finished at time `t`,
/// by increasing id.
pub open spec fn wake_msgs(s: Seq<State>, t: u64) -> Seq<(u8, Message)> {
    unfinished_ids(s, s.len()).map_values(|id: u8| (id, Message::WakeUp(t)))
}

/// The message that has process `p.0` send packet `p.1`.
pub open spec fn send_msg(p: (u8, u64)) -> (u8, Message) {
    (p.0, Message::Send(p.1))
}

/// The first scheduled time is the only one that is first.
proof fn lemma_first_time(ev: EventsView, t: u64)
    requires
        is_first_time(ev, t),
    ensures
        first_time(ev) == t,
{
    assert(exists|x: u64| is_first_time(ev, x));
    let c = first_time(ev);
    assert(is_first_time(ev, c));
    assert(ev.contains_key(t) && ev.contains_key(c));
}

impl View for Leader {
    type V = LeaderView;

    closed spec fn view(&self) -> LeaderView {
        LeaderView {
            states: self.sched.states(),
            events: self.sched.event_view(),
            counters: self.sched.counters(),
            draws: self.sched.jitter_draws(),
            phase: phase_view(self.phase),
        }
    }
}

impl Leader {
    /// The decision state of the followers.
    pub closed spec fn scheduler(&self) -> Scheduler {
        self.sched
    }

    /// What the leader is doing.
    pub closed spec fn phase(&self) -> Phase {
        self.phase
    }

    /// The state is well formed, there are at most 255 followers (their
    /// ids are bytes), and a packet is awaited where packets are sent.
    pub closed spec fn wf(&self) -> bool {
        &&& self.sched.wf()
        &&& self.sched.states().len() <= 255
        &&& (self.phase matches Phase::Sending(_, p, i) ==> i < p@.len())
    }

    /// What advancing to the next timespot gives, from the states `s` and
    /// the events `ev`: the end (result 1) where nothing is scheduled;
    /// otherwise the first timespot (the smallest scheduled time) is taken
    /// off, and either its first packet is sent or, where it has none, the
    /// followers are woken at that time.
    pub open spec fn advanced(s: Seq<State>, ev: EventsView, l: Leader, send: Seq<(u8, Message)>, stop: Option<u8>) -> bool {
        if ev.dom() == Set::<u64>::empty() {
            &&& l.phase() == Phase::Over(1)
            &&& l.scheduler().states() == s
            &&& l.scheduler().event_view() == ev
            &&& send.len() == 0
            &&& stop == Some(1u8)
        } else {
            let t = first_time(ev);
            let pk = flat_all(ev[t].1);
            &&& is_first_time(ev, t)
            &&& l.scheduler().event_view() == ev.remove(t)
            &&& stop is None
            &&& if pk.len() > 0 {
                &&& l.phase() matches Phase::Sending(t2, p, i) && t2 == t && p@ == pk && i == 0
                &&& l.scheduler().states() == s
                &&& send == seq![send_msg(pk[0])]
            } else {
                &&& l.phase() == Phase::Running(t)
                &&& l.scheduler().states() == woken(s)
                &&& send == wake_msgs(s, t)
            }
        }
    }

    /// A leader for `nb` followers, before the first timespot.
    pub fn new(nb: usize) -> (r: Self)
        requires
            nb <= 255,
        ensures
            r.wf(),
            r.phase() == Phase::Running(0),
            r.scheduler().states() == Seq::new(nb as nat, |i: int| State::Running),
            r.scheduler().event_view() == Map::<u64, ActionsView>::empty(),
            r.scheduler().counters() == Map::new(|k: usize| 1 <= k <= nb, |k: usize| (1u64, 0u64)),
            r.scheduler().jitter_draws() == Seq::new(nb as nat, |i: int| 0u64),
            r@ == (LeaderView {
                states: Seq::new(nb as nat, |i: int| State::Running),
                events: Map::<u64, ActionsView>::empty(),
                counters: Map::new(|k: usize| 1 <= k <= nb, |k: usize| (1u64, 0u64)),
                draws: Seq::new(nb as nat, |i: int| 0u64),
                phase: PhaseView::Running(0),
            }),
    {
        Leader { sched: Scheduler::new(nb), phase: Phase::Running(0) }
    }

    /// Starts the followers at time 0: every follower is running, and is
    /// sent a wake-up at time 0, by increasing id.
    pub fn start(&mut self) -> (r: Vec<(u8, Message)>)
        requires
            old(self).wf(),
        ensures
            final(self).wf(),
            final(self).phase() == Phase::Running(0),
            final(self).scheduler().states() == Seq::new(
                old(self).scheduler().states().len(),
                |i: int| State::Running,
            ),
            r@ == Seq::new(
                old(self).scheduler().states().len(),
                |i: int| ((i + 1) as u8, Message::WakeUp(0)),
            ),
            final(self).scheduler().event_view() == old(self).scheduler().event_view(),
            final(self).scheduler().counters() == old(self).scheduler().counters(),
            final(self).scheduler().jitter_draws() == old(self).scheduler().jitter_draws(),
            final(self)@ == (LeaderView {
                states: Seq::new(old(self)@.states.len(), |i: int| State::Running),
                phase: PhaseView::Running(0),
                ..old(self)@
            }),
    {
        let ids = self.sched.wake_all();
        self.phase = Phase::Running(0);
        let mut r: Vec<(u8, Message)> = Vec::new();
        let mut i: usize = 0;
        while i < ids.len()
            invariant
                0 <= i <= ids@.len(),
                ids@ == Seq::new(ids@.len(), |k: int| (k + 1) as u8),
                r@ == Seq::new(i as nat, |k: int| ((k + 1) as u8, Message::WakeUp(0))),
            decreases ids@.len() - i,
        {
            r.push((ids[i], Message::WakeUp(0)));
            i = i + 1;
            assert(r@ =~= Seq::new(i as nat, |k: int| ((k + 1) as u8, Message::WakeUp(0))));
        }
        r
    }

    /// Wakes every follower that has not finished at time `t`, appending
    /// the wake-ups to `send`.
    fn wake(&mut self, t: u64, send: &mut Vec<(u8, Message)>)
        requires
            old(self).sched.wf(),
            old(self).sched.states().len() <= 255,
            old(send)@.len() == 0,
        ensures
            final(self).wf(),
            final(self).phase() == Phase::Running(t),
            final(self).scheduler().states() == woken(old(self).scheduler().states()),
            final(send)@ == wake_msgs(old(self).scheduler().states(), t),
            final(self).scheduler().event_view() == old(self).scheduler().event_view(),
            final(self).scheduler().counters() == old(self).scheduler().counters(),
            final(self).scheduler().jitter_draws() == old(self).scheduler().jitter_draws(),
    {
        let ghost s0 = self.sched.states();
        let ids = self.sched.wake_unfinished();
        assert(self.sched.states() =~= woken(s0));
        let mut i: usize = 0;
        while i < ids.len()
            invariant
                0 <= i <= ids@.len(),
                ids@ == unfinished_ids(s0, s0.len()),
                send@ == ids@.subrange(0, i as int).map_values(|id: u8| (id, Message::WakeUp(t))),
            decreases ids@.len() - i,
        {
            send.push((ids[i], Message::WakeUp(t)));
            i = i + 1;
            assert(send@ =~= ids@.subrange(0, i as int).map_values(|id: u8| (id, Message::WakeUp(t))));
        }
        assert(ids@.subrange(0, ids@.len() as int) =~= ids@);
        self.phase = Phase::Running(t);
    }

    /// Once every follower is blocked or finished: moves to the next
    /// timespot (see `advanced`).
    fn advance(&mut self, send: &mut Vec<(u8, Message)>) -> (stop: Option<u8>)
        requires
            old(self).sched.wf(),
            old(self).sched.states().len() <= 255,
            old(send)@.len() == 0,
        ensures
            final(self).wf(),
            final(self).scheduler().counters() == old(self).scheduler().counters(),
            final(self).scheduler().jitter_draws() == old(self).scheduler().jitter_draws(),
            Self::advanced(
                old(self).scheduler().states(),
                old(self).scheduler().event_view(),
                *final(self),
                final(send)@,
                stop,
            ),
    {
        let ghost ev = self.sched.event_view();
        match self.sched.next_timespot() {
            None => {
                self.phase = Phase::Over(1);
                Some(1)
            },
            Some((t, ta)) => {
                proof {
                    lemma_first_time(ev, t);
                }
                let pk = ta.flatten();
                if pk.len() > 0 {
                    send.push((pk[0].0, Message::Send(pk[0].1)));
                    assert(send@ =~= seq![send_msg(pk@[0])]);
                    self.phase = Phase::Sending(t, pk, 0);
                } else {
                    self.wake(t, send);
                }
                None
            },
        }
    }

    /// Takes the next message of a follower: while the followers run, handles
    /// it (see `Scheduler::handle_message`) and, once every follower is
    /// blocked or finished, ends the simulation or moves to the next
    /// timespot (see `advanced`); while packets are sent, checks that it
    /// acknowledges the awaited packet and has the next one sent or, after
    /// the last, wakes the followers that have not finished. Nothing changes
    /// on an error.
    pub fn on_message(&mut self, msg: Message, topo: &NetworkTopology, jitter: u64) -> (r: Result<Step, LeaderError>)
        requires
            old(self).wf(),
            topo.wf(),
        ensures
            final(self).wf(),
            match leader_step(old(self)@, msg, *topo, jitter) {
                None => r is Err,
                Some((v, st)) => r matches Ok(step) && final(self)@ == v && step.answer == st.answer
                    && step.send@ == st.send && step.stop == st.stop,
            },
            match old(self).phase() {
                Phase::Over(_) => r == Err::<Step, LeaderError>(LeaderError::Over) && *final(self) == *old(self),
                Phase::Running(now) => if !old(self).scheduler().accepts(msg, now, *topo, jitter) {
                    r == Err::<Step, LeaderError>(LeaderError::Unhandled) && *final(self) == *old(self)
                } else {
                    let s1 = next_states(old(self).scheduler().states(), msg);
                    let ev1 = next_events(old(self).scheduler().event_view(), msg, now, *topo, jitter);
                    &&& r is Ok
                    &&& r->Ok_0.answer == answer_of(msg, now, old(self).scheduler().counters())
                    &&& final(self).scheduler().counters() == next_counters(old(self).scheduler().counters(), msg)
                    &&& final(self).scheduler().jitter_draws() == next_draws(old(self).scheduler().jitter_draws(), msg)
                    &&& match progress_of(s1) {
                        None => {
                            &&& final(self).phase() == Phase::Running(now)
                            &&& final(self).scheduler().states() == s1
                            &&& final(self).scheduler().event_view() == ev1
                            &&& r->Ok_0.send@.len() == 0
                            &&& r->Ok_0.stop is None
                        },
                        Some(State::Finished) => {
                            &&& final(self).phase() == Phase::Over(0)
                            &&& final(self).scheduler().states() == s1
                            &&& final(self).scheduler().event_view() == ev1
                            &&& r->Ok_0.send@.len() == 0
                            &&& r->Ok_0.stop == Some(0u8)
                        },
                        Some(_) => Self::advanced(s1, ev1, *final(self), r->Ok_0.send@, r->Ok_0.stop),
                    }
                },
                Phase::Sending(t, p, i) => if msg != Message::Sent(p@[i as int].0, p@[i as int].1) {
                    r == Err::<Step, LeaderError>(LeaderError::BadAcknowledgement) && *final(self) == *old(self)
                } else {
                    &&& r is Ok
                    &&& r->Ok_0.answer is None
                    &&& r->Ok_0.stop is None
                    &&& final(self).scheduler().event_view() == old(self).scheduler().event_view()
                    &&& final(self).scheduler().counters() == old(self).scheduler().counters()
                    &&& final(self).scheduler().jitter_draws() == old(self).scheduler().jitter_draws()
                    &&& if i + 1 < p@.len() {
                        &&& final(self).phase() matches Phase::Sending(t2, p2, i2) && t2 == t && p2@ == p@
                            && i2 == i + 1
                        &&& final(self).scheduler().states() == old(self).scheduler().states()
                        &&& r->Ok_0.send@ == seq![send_msg(p@[i + 1])]
                    } else {
                        &&& final(self).phase() == Phase::Running(t)
                        &&& final(self).scheduler().states() == woken(old(self).scheduler().states())
                        &&& r->Ok_0.send@ == wake_msgs(old(self).scheduler().states(), t)
                    }
                },
            },
    {
        let mut phase = Phase::Over(0);
        core::mem::swap(&mut phase, &mut self.phase);
        match phase {
            Phase::Over(c) => {
                self.phase = Phase::Over(c);
                Err(LeaderError::Over)
            },
            Phase::Running(now) => {
                self.phase = Phase::Running(now);
                if !self.sched.can_handle(&msg, now, topo, jitter) {
                    return Err(LeaderError::Unhandled);
                }
                let answer = self.sched.handle_message(msg, now, topo, jitter);
                let mut send: Vec<(u8, Message)> = Vec::new();
                let stop = match self.sched.progress() {
                    None => None,
                    Some(State::Finished) => {
                        self.phase = Phase::Over(0);
                        Some(0)
                    },
                    Some(_) => self.advance(&mut send),
                };
                Ok(Step { answer, send, stop })
            },
            Phase::Sending(t, pending, i) => {
                let n = pending.len();
                assert(i < n);
                let (p, pkt) = pending[i];
                if !sent_matches(p, pkt, &msg) {
                    self.phase = Phase::Sending(t, pending, i);
                    return Err(LeaderError::BadAcknowledgement);
                }
                let mut send: Vec<(u8, Message)> = Vec::new();
                if i < n - 1 {
                    let (q, qpkt) = pending[i + 1];
                    send.push((q, Message::Send(qpkt)));
                    assert(send@ =~= seq![send_msg(pending@[i + 1])]);
                    self.phase = Phase::Sending(t, pending, i + 1);
                } else {
                    self.wake(t, &mut send);
                }
                Ok(Step { answer: None, send, stop: None })
            },
        }
    }
}


/// The acknowledgements of `n` packets of `p` from position `i` on, in order.
pub open spec fn acks(p: Seq<(u8, u64)>, i: int, n: nat) -> Seq<Message> {
    Seq::new(n, |j: int| Message::Sent(p[i + j].0, p[i + j].1))
}

/// Sending the packets of a timespot: while the packets `p` are sent, any
/// message but the acknowledgement of the awaited one is refused; the
/// acknowledgements of the packets from the awaited one on, in order, have
/// each next packet sent, one at a time, and after the last one the
/// followers that have not finished are woken at the timespot's time, with
/// nothing else changed.
pub proof fn lemma_sending_run(v: LeaderView, topo: NetworkTopology, jitter: u64, t: u64, p: Seq<(u8, u64)>, i: int, n: nat)
    requires
        v.phase == PhaseView::Sending(t, p, i),
        0 <= i < p.len(),
        n <= p.len() - i,
    ensures
        forall|msg: Message| msg != Message::Sent(p[i].0, p[i].1) ==> #[trigger] leader_step(v, msg, topo, jitter) is None,
        ({
            let r = leader_run(v, acks(p, i, n), topo, jitter);
            &&& r is Some
            &&& r->Some_0.1.len() == n
            &&& forall|j: int| 0 <= j < n ==> (#[trigger] r->Some_0.1[j]).answer is None && r->Some_0.1[j].stop is None
            &&& forall|j: int| 0 <= j < n && i + j + 1 < p.len() ==> (#[trigger] r->Some_0.1[j]).send == seq![send_msg(p[i + j + 1])]
            &&& i + n < p.len() ==> r->Some_0.0 == LeaderView { phase: PhaseView::Sending(t, p, i + n), ..v }
            &&& i + n == p.len() ==> r->Some_0.0 == LeaderView { states: woken(v.states), phase: PhaseView::Running(t), ..v }
                && r->Some_0.1[n - 1].send == wake_msgs(v.states, t)
        }),
    decreases n,
{
    if n == 0 {
        assert(acks(p, i, n) =~= Seq::<Message>::empty());
        assert(LeaderView { phase: PhaseView::Sending(t, p, i + n), ..v } == v);
    } else {
        lemma_sending_run(v, topo, jitter, t, p, i, (n - 1) as nat);
        assert(acks(p, i, n).drop_last() =~= acks(p, i, (n - 1) as nat));
        assert(acks(p, i, n).last() == Message::Sent(p[i + n - 1].0, p[i + n - 1].1));
        let r1 = leader_run(v, acks(p, i, (n - 1) as nat), topo, jitter);
        let r = leader_run(v, acks(p, i, n), topo, jitter);
        assert forall|j: int| 0 <= j < n - 1 implies r->Some_0.1[j] == r1->Some_0.1[j] by {}
    }
}

/// The time a leader is at: that of its phase (zero once it is over).
pub open spec fn time_of(v: LeaderView) -> u64 {
    match v.phase {
        PhaseView::Running(t) => t,
        PhaseView::Sending(t, _, _) => t,
        PhaseView::Over(_) => 0,
    }
}

/// Nothing is scheduled before the leader's time.
pub open spec fn not_before(v: LeaderView) -> bool {
    forall|u: u64| #[trigger] v.events.contains_key(u) ==> time_of(v) <= u
}

/// Whether a step tells a follower the time `x`: a wake-up at `x`, or the
/// answer `x` to a request for the time.
pub open spec fn wakes_at(st: StepView, x: u64) -> bool {
    ||| exists|k: int| 0 <= k < st.send.len() && #[trigger] st.send[k].1 == Message::WakeUp(x)
    ||| st.answer matches Some((_, Reply::Time(y))) && y == x
}

/// Whether, along a run, every step announced is for the leader's time or later.
pub open spec fn steps_not_early(v: LeaderView, msgs: Seq<Message>, topo: NetworkTopology, jitter: u64) -> bool
    decreases msgs.len(),
{
    if msgs.len() == 0 {
        true
    } else {
        &&& steps_not_early(v, msgs.drop_last(), topo, jitter)
        &&& match leader_run(v, msgs.drop_last(), topo, jitter) {
            Some((v1, _)) => msgs.last() matches Message::AddStep(_, s) ==> time_of(v1) <= s,
            None => true,
        }
    }
}

/// One step does not move the clock back (see `lemma_clock_over_a_run`).
proof fn lemma_step_clock(v: LeaderView, msg: Message, topo: NetworkTopology, jitter: u64)
    requires
        not_before(v),
        !(v.phase is Over),
        leader_step(v, msg, topo, jitter) is Some,
        msg matches Message::AddStep(_, s) ==> time_of(v) <= s,
    ensures
        ({
            let (v2, st) = leader_step(v, msg, topo, jitter)->Some_0;
            &&& forall|x: u64| #[trigger] wakes_at(st, x) ==> time_of(v) <= x
            &&& !(v2.phase is Over) ==> not_before(v2) && time_of(v) <= time_of(v2) && forall|x: u64|
                #[trigger] wakes_at(st, x) ==> x <= time_of(v2)
        }),
{
    let (v2, st) = leader_step(v, msg, topo, jitter)->Some_0;
    match v.phase {
        PhaseView::Running(now) => {
            lemma_events_not_before_now(v.events, msg, now, topo, jitter);
            let s1 = next_states(v.states, msg);
            let ev1 = next_events(v.events, msg, now, topo, jitter);
            if progress_of(s1) is Some && progress_of(s1) != Some(State::Finished) && ev1.dom()
                != Set::<u64>::empty() {
                assert(exists|w: u64| ev1.contains_key(w)) by {
                    if !(exists|w: u64| ev1.contains_key(w)) {
                        assert(ev1.dom() =~= Set::<u64>::empty());
                    }
                }
                let w = choose|w: u64| ev1.contains_key(w);
                lemma_first_time_exists(ev1, w);
                let t = first_time(ev1);
                assert(is_first_time(ev1, t));
                assert(now <= t);
                let pk = flat_all(ev1[t].1);
                if pk.len() > 0 {
                    assert forall|x: u64| #[trigger] wakes_at(st, x) implies x == now by {
                        if exists|k: int| 0 <= k < st.send.len() && #[trigger] st.send[k].1 == Message::WakeUp(x) {
                            let k = choose|k: int| 0 <= k < st.send.len() && #[trigger] st.send[k].1 == Message::WakeUp(x);
                            assert(st.send[k] == send_msg(pk[0]));
                        }
                    }
                } else {
                    assert forall|x: u64| #[trigger] wakes_at(st, x) implies x == now || x == t by {
                        if exists|k: int| 0 <= k < st.send.len() && #[trigger] st.send[k].1 == Message::WakeUp(x) {
                            let k = choose|k: int| 0 <= k < st.send.len() && #[trigger] st.send[k].1 == Message::WakeUp(x);
                            assert(st.send[k] == (unfinished_ids(s1, s1.len())[k], Message::WakeUp(t)));
                        }
                    }
                }
            }
        },
        PhaseView::Sending(t, p, i) => {
            if i + 1 >= p.len() {
                assert forall|x: u64| #[trigger] wakes_at(st, x) implies x == t by {
                    if exists|k: int| 0 <= k < st.send.len() && #[trigger] st.send[k].1 == Message::WakeUp(x) {
                        let k = choose|k: int| 0 <= k < st.send.len() && #[trigger] st.send[k].1 == Message::WakeUp(x);
                        assert(st.send[k] == (unfinished_ids(v.states, v.states.len())[k], Message::WakeUp(t)));
                    }
                }
            } else {
                assert forall|x: u64| !#[trigger] wakes_at(st, x) by {
                    if exists|k: int| 0 <= k < st.send.len() && #[trigger] st.send[k].1 == Message::WakeUp(x) {
                        let k = choose|k: int| 0 <= k < st.send.len() && #[trigger] st.send[k].1 == Message::WakeUp(x);
                        assert(st.send[k] == send_msg(p[i + 1]));
                    }
                }
            }
        },
        PhaseView::Over(_) => {},
    }
}

/// The clock never goes back over a run: starting with nothing scheduled
/// before the leader's time, and where every step announced is for the
/// leader's time or later, every time told to a follower (a wake-up, or the
/// answer to a request for the time) is at least the starting time, the
/// times told at later steps are never earlier, and, while the run is not
/// over, nothing is scheduled before the leader's time, which is no earlier
/// than at the start nor than any time told.
pub proof fn lemma_clock_over_a_run(v: LeaderView, msgs: Seq<Message>, topo: NetworkTopology, jitter: u64)
    requires
        not_before(v),
        !(v.phase is Over),
        steps_not_early(v, msgs, topo, jitter),
        leader_run(v, msgs, topo, jitter) is Some,
    ensures
        ({
            let (v2, steps) = leader_run(v, msgs, topo, jitter)->Some_0;
            &&& forall|j: int, x: u64| 0 <= j < steps.len() && #[trigger] wakes_at(steps[j], x) ==> time_of(v) <= x
            &&& forall|j1: int, j2: int, x1: u64, x2: u64|
                #![trigger wakes_at(steps[j1], x1), wakes_at(steps[j2], x2)]
                0 <= j1 < j2 < steps.len() && wakes_at(steps[j1], x1) && wakes_at(steps[j2], x2) ==> x1 <= x2
            &&& !(v2.phase is Over) ==> {
                &&& not_before(v2)
                &&& time_of(v) <= time_of(v2)
                &&& forall|j: int, x: u64| 0 <= j < steps.len() && #[trigger] wakes_at(steps[j], x) ==> x <= time_of(v2)
            }
        }),
    decreases msgs.len(),
{
    if msgs.len() > 0 {
        let init = msgs.drop_last();
        lemma_clock_over_a_run(v, init, topo, jitter);
        let (v1, steps1) = leader_run(v, init, topo, jitter)->Some_0;
        lemma_step_clock(v1, msgs.last(), topo, jitter);
        let (v2, st) = leader_step(v1, msgs.last(), topo, jitter)->Some_0;
        let steps = steps1.push(st);
        assert(leader_run(v, msgs, topo, jitter)->Some_0 == (v2, steps));
        assert forall|j: int| 0 <= j < steps1.len() implies #[trigger] steps[j] == steps1[j] by {}
        assert(steps[steps1.len() as int] == st);
    }
}


/// The wake-ups of a timespot go to exactly the followers that have not
/// finished, each once and by increasing id, each with the timespot's time;
/// a packet is sent by telling its own process to send it.
pub proof fn lemma_wake_and_send_targets(s: Seq<State>, t: u64, p: (u8, u64))
    requires
        s.len() <= 255,
    ensures
        forall|k: int| 0 <= k < wake_msgs(s, t).len() ==> (#[trigger] wake_msgs(s, t)[k]).1 == Message::WakeUp(t),
        forall|id: u8| #[trigger] wake_msgs(s, t).contains((id, Message::WakeUp(t))) <==> (1 <= id <= s.len()
            && s[id - 1] != State::Finished),
        forall|i: int, j: int|
            0 <= i < j < wake_msgs(s, t).len() ==> (#[trigger] wake_msgs(s, t)[i]).0 < (#[trigger] wake_msgs(s, t)[j]).0,
        send_msg(p).0 == p.0,
        send_msg(p).1 == Message::Send(p.1),
{
    lemma_unfinished_ids(s, s.len());
    let u = unfinished_ids(s, s.len());
    let w = wake_msgs(s, t);
    assert forall|id: u8| #[trigger] w.contains((id, Message::WakeUp(t))) <==> (1 <= id <= s.len() && s[id - 1]
        != State::Finished) by {
        if w.contains((id, Message::WakeUp(t))) {
            let k = choose|k: int| 0 <= k < w.len() && w[k] == (id, Message::WakeUp(t));
            assert(u[k] == id);
            assert(u.contains(id));
        }
        if 1 <= id <= s.len() && s[id - 1] != State::Finished {
            assert(u.contains(id));
            let k = choose|k: int| 0 <= k < u.len() && u[k] == id;
            assert(w[k] == (id, Message::WakeUp(t)));
        }
    }
    assert forall|i: int, j: int| 0 <= i < j < w.len() implies (#[trigger] w[i]).0 < (#[trigger] w[j]).0 by {
        assert(w[i].0 == u[i] && w[j].0 == u[j]);
    }
}

} // verus!
