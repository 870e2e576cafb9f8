//! What the agent has seen happen, in order.
//!
//! Filled by the daemon and read by `agent events`. Bounded: an agent that
//! stops asking is told how many events it missed, rather than the daemon
//! keeping them all. Every event is numbered, from 1 across a daemon's
//! life, so a client that passes the last number it saw gets only what
//! came after it.
//!
//! Waiting for the next event is the caller's: this log says whether
//! anything came after a cursor ([`EventLog::has_after`]) and hands out a
//! batch when asked. So is reading the clock: each event arrives with the
//! time it is stamped with.
use vstd::prelude::*;
use std::collections::VecDeque;
use crate::protocol::F64Bits;
use crate::text::{copy_opt, opt_view};

verus! {

/// How a movement ended.
#[derive(PartialEq, Eq, Structural, Clone, Copy, Debug)]
pub enum MoveOutcome {
    /// Within arm's reach of the point.
    Arrived,
    /// Turned to face the way asked.
    Faced,
    /// No closer for a while: something is in the way.
    Stuck,
    /// The agent was told to halt.
    Halted,
    /// Another movement replaced this one.
    Replaced,
    /// The player being followed left the world.
    PeerLeft,
    /// Travel, or leaving the world, cut it short.
    Interrupted,
}

/// What happened.
pub enum EventKind {
    /// The agent arrived in a world: its own, or someone else's.
    EnteredWorld { room_did: String },
    /// Another player is in the agent's world.
    PeerJoined { did: String, handle: Option<String> },
    /// A player left the agent's world - or the agent left theirs.
    PeerLeft { did: String, handle: Option<String> },
    /// The agent's admin said something in the room; `text` is the admin's
    /// words, as data.
    Chat { from_did: String, from: String, text: String },
    /// Someone other than the admin said something, and it was dropped
    /// unread: who spoke, never what.
    ChatDropped { from_did: String },
    /// A trip the agent started did not arrive.
    TravelFailed { to_did: String, reason: String },
    /// A walk, follow or turn the agent started has ended.
    MovementEnded {
        goal_id: u64,
        outcome: MoveOutcome,
        position: [F64Bits; 3],
        distance_left_m: F64Bits,
        facing_off_deg: Option<F64Bits>,
        height_m: Option<F64Bits>,
    },
    /// A follow has closed no distance on its player for a while.
    FollowBlocked { goal_id: u64, position: [F64Bits; 3], distance_m: F64Bits },
    /// A save of the agent's `record` landed on its account.
    Saved { record: String },
    /// A save did not land; `terminal` when the session has expired.
    SaveFailed { record: String, reason: String, terminal: bool },
    /// The agent's admin offered it a gift.
    GiftOffered {
        offer_id: u64,
        from_did: String,
        from: String,
        item: String,
        item_kind: String,
        wearable: bool,
        answer_within_s: u64,
    },
    /// Someone other than the admin offered a gift, declined unread: who,
    /// never what.
    GiftDeclined { from_did: String },
    /// A gift offer the agent had not answered went away.
    GiftOfferClosed { offer_id: u64, from_did: String },
    /// A gift the agent offered was answered.
    GiftAnswered { offer_id: u64, to_did: String, accepted: bool, answer: String },
}

/// An [`EventKind`], its strings as characters.
pub enum EventKindView {
    EnteredWorld { room_did: Seq<char> },
    PeerJoined { did: Seq<char>, handle: Option<Seq<char>> },
    PeerLeft { did: Seq<char>, handle: Option<Seq<char>> },
    Chat { from_did: Seq<char>, from: Seq<char>, text: Seq<char> },
    ChatDropped { from_did: Seq<char> },
    TravelFailed { to_did: Seq<char>, reason: Seq<char> },
    MovementEnded {
        goal_id: u64,
        outcome: MoveOutcome,
        position: [F64Bits; 3],
        distance_left_m: F64Bits,
        facing_off_deg: Option<F64Bits>,
        height_m: Option<F64Bits>,
    },
    FollowBlocked { goal_id: u64, position: [F64Bits; 3], distance_m: F64Bits },
    Saved { record: Seq<char> },
    SaveFailed { record: Seq<char>, reason: Seq<char>, terminal: bool },
    GiftOffered {
        offer_id: u64,
        from_did: Seq<char>,
        from: Seq<char>,
        item: Seq<char>,
        item_kind: Seq<char>,
        wearable: bool,
        answer_within_s: u64,
    },
    GiftDeclined { from_did: Seq<char> },
    GiftOfferClosed { offer_id: u64, from_did: Seq<char> },
    GiftAnswered { offer_id: u64, to_did: Seq<char>, accepted: bool, answer: Seq<char> },
}

impl View for EventKind {
    type V = EventKindView;

    open spec fn view(&self) -> EventKindView {
        match self {
            EventKind::EnteredWorld { room_did } => EventKindView::EnteredWorld {
                room_did: room_did@,
            },
            EventKind::PeerJoined { did, handle } => EventKindView::PeerJoined {
                did: did@,
                handle: opt_view(*handle),
            },
            EventKind::PeerLeft { did, handle } => EventKindView::PeerLeft {
                did: did@,
                handle: opt_view(*handle),
            },
            EventKind::Chat { from_did, from, text } => EventKindView::Chat {
                from_did: from_did@,
                from: from@,
                text: text@,
            },
            EventKind::ChatDropped { from_did } => EventKindView::ChatDropped {
                from_did: from_did@,
            },
            EventKind::TravelFailed { to_did, reason } => EventKindView::TravelFailed {
                to_did: to_did@,
                reason: reason@,
            },
            EventKind::MovementEnded {
                goal_id,
                outcome,
                position,
                distance_left_m,
                facing_off_deg,
                height_m,
            } => EventKindView::MovementEnded {
                goal_id: *goal_id,
                outcome: *outcome,
                position: *position,
                distance_left_m: *distance_left_m,
                facing_off_deg: *facing_off_deg,
                height_m: *height_m,
            },
            EventKind::FollowBlocked { goal_id, position, distance_m } =>
                EventKindView::FollowBlocked {
                goal_id: *goal_id,
                position: *position,
                distance_m: *distance_m,
            },
            EventKind::Saved { record } => EventKindView::Saved { record: record@ },
            EventKind::SaveFailed { record, reason, terminal } => EventKindView::SaveFailed {
                record: record@,
                reason: reason@,
                terminal: *terminal,
            },
            EventKind::GiftOffered {
                offer_id,
                from_did,
                from,
                item,
                item_kind,
                wearable,
                answer_within_s,
            } => EventKindView::GiftOffered {
                offer_id: *offer_id,
                from_did: from_did@,
                from: from@,
                item: item@,
                item_kind: item_kind@,
                wearable: *wearable,
                answer_within_s: *answer_within_s,
            },
            EventKind::GiftDeclined { from_did } => EventKindView::GiftDeclined {
                from_did: from_did@,
            },
            EventKind::GiftOfferClosed { offer_id, from_did } => EventKindView::GiftOfferClosed {
                offer_id: *offer_id,
                from_did: from_did@,
            },
            EventKind::GiftAnswered { offer_id, to_did, accepted, answer } =>
                EventKindView::GiftAnswered {
                offer_id: *offer_id,
                to_did: to_did@,
                accepted: *accepted,
                answer: answer@,
            },
        }
    }
}

impl EventKind {
    /// A copy of this event kind.
    pub fn copy(&self) -> (r: EventKind)
        ensures
            r@ == self@,
    {
        match self {
            EventKind::EnteredWorld { room_did } => EventKind::EnteredWorld {
                room_did: room_did.clone(),
            },
            EventKind::PeerJoined { did, handle } => EventKind::PeerJoined {
                did: did.clone(),
                handle: copy_opt(handle),
            },
            EventKind::PeerLeft { did, handle } => EventKind::PeerLeft {
                did: did.clone(),
                handle: copy_opt(handle),
            },
            EventKind::Chat { from_did, from, text } => EventKind::Chat {
                from_did: from_did.clone(),
                from: from.clone(),
                text: text.clone(),
            },
            EventKind::ChatDropped { from_did } => EventKind::ChatDropped {
                from_did: from_did.clone(),
            },
            EventKind::TravelFailed { to_did, reason } => EventKind::TravelFailed {
                to_did: to_did.clone(),
                reason: reason.clone(),
            },
            EventKind::MovementEnded {
                goal_id,
                outcome,
                position,
                distance_left_m,
                facing_off_deg,
                height_m,
            } => EventKind::MovementEnded {
                goal_id: *goal_id,
                outcome: *outcome,
                position: *position,
                distance_left_m: *distance_left_m,
                facing_off_deg: *facing_off_deg,
                height_m: *height_m,
            },
            EventKind::FollowBlocked { goal_id, position, distance_m } =>
                EventKind::FollowBlocked {
                goal_id: *goal_id,
                position: *position,
                distance_m: *distance_m,
            },
            EventKind::Saved { record } => EventKind::Saved { record: record.clone() },
            EventKind::SaveFailed { record, reason, terminal } => EventKind::SaveFailed {
                record: record.clone(),
                reason: reason.clone(),
                terminal: *terminal,
            },
            EventKind::GiftOffered {
                offer_id,
                from_did,
                from,
                item,
                item_kind,
                wearable,
                answer_within_s,
            } => EventKind::GiftOffered {
                offer_id: *offer_id,
                from_did: from_did.clone(),
                from: from.clone(),
                item: item.clone(),
                item_kind: item_kind.clone(),
                wearable: *wearable,
                answer_within_s: *answer_within_s,
            },
            EventKind::GiftDeclined { from_did } => EventKind::GiftDeclined {
                from_did: from_did.clone(),
            },
            EventKind::GiftOfferClosed { offer_id, from_did } => EventKind::GiftOfferClosed {
                offer_id: *offer_id,
                from_did: from_did.clone(),
            },
            EventKind::GiftAnswered { offer_id, to_did, accepted, answer } =>
                EventKind::GiftAnswered {
                offer_id: *offer_id,
                to_did: to_did.clone(),
                accepted: *accepted,
                answer: answer.clone(),
            },
        }
    }
}

/// One thing that happened, numbered.
pub struct AgentEvent {
    /// Increasing from 1 across the daemon's life.
    pub seq: u64,
    /// When it happened, as Unix seconds.
    pub at: i64,
    pub what: EventKind,
}

/// An [`AgentEvent`], its strings as characters.
pub struct AgentEventView {
    pub seq: u64,
    pub at: i64,
    pub what: EventKindView,
}

impl View for AgentEvent {
    type V = AgentEventView;

    open spec fn view(&self) -> AgentEventView {
        AgentEventView { seq: self.seq, at: self.at, what: self.what@ }
    }
}

impl AgentEvent {
    /// A copy of this event.
    pub fn copy(&self) -> (r: AgentEvent)
        ensures
            r@ == self@,
    {
        AgentEvent { seq: self.seq, at: self.at, what: self.what.copy() }
    }
}

/// The views of `events`.
pub open spec fn views(events: Seq<AgentEvent>) -> Seq<AgentEventView> {
    events.map_values(|e: AgentEvent| e@)
}

/// The views of a sequence with one more event are theirs with its view.
pub proof fn lemma_views_push(s: Seq<AgentEvent>, e: AgentEvent)
    ensures
        views(s.push(e)) == views(s).push(e@),
{
    assert(views(s.push(e)) =~= views(s).push(e@));
}

/// The newest `cap` of `s`.
pub open spec fn bounded<T>(s: Seq<T>, cap: nat) -> Seq<T> {
    if s.len() > cap {
        s.subrange(s.len() - cap, s.len() as int)
    } else {
        s
    }
}

/// A batch of events for one `agent events` call.
pub struct Batch {
    /// Which run of the daemon numbered these.
    pub instance: String,
    /// The cursor was ahead of anything this daemon has numbered - a cursor
    /// from an earlier run - so the batch starts from the beginning.
    pub restarted: bool,
    pub events: Vec<AgentEvent>,
    /// What to pass as `since` next time.
    pub next: u64,
    /// Events that came after the cursor but were dropped before anyone
    /// asked, because the log only keeps its most recent ones.
    pub missed: u64,
}

/// The daemon's event log: the most recent events, numbered.
pub struct EventLog {
    events: VecDeque<AgentEvent>,
    last_seq: u64,
    capacity: usize,
    instance: String,
}

impl EventLog {
    /// The events the log keeps, oldest first.
    pub closed spec fn kept(&self) -> Seq<AgentEvent> {
        self.events@
    }

    /// The number of the latest event; 0 before the first.
    pub closed spec fn latest(&self) -> u64 {
        self.last_seq
    }

    /// How many events the log keeps at most.
    pub closed spec fn room(&self) -> nat {
        self.capacity as nat
    }

    /// The name of the daemon run that numbers the events.
    pub closed spec fn name(&self) -> Seq<char> {
        self.instance@
    }

    /// The log is well formed: at least room for one, no more kept than
    /// room or than were ever numbered, and the kept ones numbered
    /// consecutively up to the latest.
    pub closed spec fn wf(&self) -> bool {
        &&& self.capacity >= 1
        &&& self.events@.len() <= self.capacity
        &&& self.events@.len() <= self.last_seq
        &&& forall|i: int|
            0 <= i < self.events@.len() ==> #[trigger] self.events@[i].seq == self.last_seq
                - self.events@.len() + 1 + i
    }

    /// How many of the kept events are numbered `from` or less.
    pub open spec fn skipped(&self, from: u64) -> int {
        let base = self.latest() - self.kept().len();
        if from <= base {
            0
        } else if from - base >= self.kept().len() {
            self.kept().len() as int
        } else {
            from - base
        }
    }

    /// The kept events numbered after `from`, oldest first.
    pub open spec fn newer(&self, from: u64) -> Seq<AgentEvent> {
        self.kept().subrange(self.skipped(from), self.kept().len() as int)
    }

    /// How many events numbered after `from` the log no longer keeps.
    pub open spec fn dropped_after(&self, from: u64) -> int {
        let oldest = if self.kept().len() > 0 {
            self.kept()[0].seq as int
        } else {
            self.latest() + 1
        };
        if oldest > from + 1 {
            oldest - from - 1
        } else {
            0
        }
    }

    /// A log keeping the most recent `capacity` events - at least one - for
    /// the daemon run named `instance`.
    pub fn new(capacity: usize, instance: String) -> (log: EventLog)
        ensures
            log.wf(),
            log.kept().len() == 0,
            log.latest() == 0,
            log.room() == if capacity > 1 { capacity as nat } else { 1 },
            log.name() == instance@,
    {
        EventLog {
            events: VecDeque::new(),
            last_seq: 0,
            capacity: if capacity > 1 { capacity } else { 1 },
            instance,
        }
    }

    /// Record `what` as having happened at `at` (Unix seconds; the caller
    /// reads the clock), numbered next.
    pub fn push(&mut self, what: EventKind, at: i64)
        requires
            old(self).wf(),
            old(self).latest() < u64::MAX,
        ensures
            final(self).wf(),
            final(self).latest() == old(self).latest() + 1,
            final(self).room() == old(self).room(),
            final(self).name() == old(self).name(),
            final(self).kept() == bounded(
                old(self).kept().push(AgentEvent { seq: (old(self).latest() + 1) as u64, at, what }),
                old(self).room(),
            ),
            pushed(old(self), final(self), what),
    {
        let ghost before = self.events@;
        self.last_seq = self.last_seq + 1;
        let event = AgentEvent { seq: self.last_seq, at, what };
        self.events.push_back(event);
        let ghost grown = self.events@;
        if self.events.len() > self.capacity {
            self.events.pop_front();
            assert(self.events@ == grown.subrange(1, grown.len() as int));
        }
        proof {
            assert(self.events@ == bounded(grown, self.capacity as nat));
            assert forall|i: int| 0 <= i < self.events@.len() implies #[trigger] self.events@[i].seq
                == self.last_seq - self.events@.len() + 1 + i by {
                let off = grown.len() - self.events@.len();
                assert(self.events@[i] == grown[off + i]);
                if off + i < before.len() {
                    assert(grown[off + i] == before[off + i]);
                }
            }
        }
    }

    /// The number of the latest event, 0 before the first: a cursor that
    /// sees only what happens from now on.
    pub fn last_seq(&self) -> (n: u64)
        ensures
            n == self.latest(),
    {
        self.last_seq
    }

    /// Where a batch after `since` starts: `since` itself, or - for a
    /// cursor ahead of anything this run has numbered, which can only come
    /// from an earlier run - the beginning, said to be a restart.
    pub fn cursor(&self, since: u64) -> (r: (bool, u64))
        ensures
            r.0 == (since > self.latest()),
            r.1 == if r.0 { 0 } else { since },
    {
        if since > self.last_seq {
            (true, 0)
        } else {
            (false, since)
        }
    }

    /// Whether anything was numbered after `from`: what a waiting reader
    /// waits for.
    pub fn has_after(&self, from: u64) -> (b: bool)
        ensures
            b == (self.latest() > from),
    {
        self.last_seq > from
    }

    /// The events kept after `from`, with what to pass next time and how
    /// many after `from` are no longer kept.
    pub fn collect(&self, from: u64, restarted: bool) -> (batch: Batch)
        requires
            self.wf(),
        ensures
            batch.instance@ == self.name(),
            batch.restarted == restarted,
            views(batch.events@) == views(self.newer(from)),
            batch.next == if self.newer(from).len() == 0 {
                from
            } else {
                self.newer(from).last().seq
            },
            batch.missed == self.dropped_after(from),
    {
        let ghost kept = self.events@;
        let ghost base = self.last_seq - kept.len();
        let mut events: Vec<AgentEvent> = Vec::new();
        let n = self.events.len();
        let mut i: usize = 0;
        while i < n
            invariant
                self.wf(),
                kept == self.events@,
                n == kept.len(),
                base == self.last_seq - kept.len(),
                i <= n,
                views(events@) == views(kept.subrange(
                    if from <= base { 0 } else if from - base >= i { i as int } else { from - base },
                    i as int,
                )),
            decreases n - i,
        {
            let ghost lo = if from <= base { 0 } else if from - base >= i { i as int } else { from - base };
            let ghost lo2 = if from <= base { 0 } else if from - base >= i + 1 { (i + 1) as int } else { from - base };
            assert(kept[i as int].seq == self.last_seq - kept.len() + 1 + i);
            if self.events[i].seq > from {
                let ghost prior = events@;
                events.push(self.events[i].copy());
                proof {
                    assert(lo2 == lo);
                    lemma_views_push(prior, events@.last());
                    assert(events@ == prior.push(events@.last()));
                    lemma_views_push(kept.subrange(lo, i as int), kept[i as int]);
                    assert(kept.subrange(lo2, i + 1) == kept.subrange(lo, i as int).push(kept[i as int]));
                    assert(views(events@) == views(kept.subrange(lo2, i + 1)));
                }
            } else {
                proof {
                    assert(lo2 == i + 1);
                    assert(lo == i);
                    assert(kept.subrange(lo2, i + 1).len() == 0);
                    assert(views(events@) == views(kept.subrange(lo2, i + 1)));
                }
            }
            i = i + 1;
        }
        let next = if events.len() == 0 {
            from
        } else {
            events[events.len() - 1].seq
        };
        proof {
            let newer = self.newer(from);
            assert(views(events@).len() == events@.len());
            assert(views(newer).len() == newer.len());
            if events@.len() > 0 {
                assert(views(events@)[events@.len() - 1] == views(newer)[newer.len() - 1]);
            }
        }
        let missed = if n > 0 {
            let oldest = self.events[0].seq;
            if oldest > from {
                oldest - from - 1
            } else {
                0
            }
        } else if self.last_seq > from {
            self.last_seq - from
        } else {
            0
        };
        Batch { instance: self.instance.clone(), restarted, events, next, missed }
    }

    /// The events after `since`, as `agent events` answers when nothing
    /// waits: a cursor from an earlier run starts over.
    pub fn after(&self, since: u64) -> (batch: Batch)
        requires
            self.wf(),
        ensures
            batch.restarted == (since > self.latest()),
            ({
                let from = if since > self.latest() { 0 } else { since };
                &&& batch.instance@ == self.name()
                &&& views(batch.events@) == views(self.newer(from))
                &&& batch.next == if self.newer(from).len() == 0 {
                    from
                } else {
                    self.newer(from).last().seq
                }
                &&& batch.missed == self.dropped_after(from)
            }),
    {
        let (restarted, from) = self.cursor(since);
        self.collect(from, restarted)
    }
}

/// A batch is exactly the kept events numbered after its cursor, oldest
/// first and numbered one after another: none it leaves out is newer, and
/// none it holds is older.
pub proof fn lemma_batch_holds_exactly_the_newer(log: &EventLog, from: u64)
    requires
        log.wf(),
    ensures
        forall|i: int| 0 <= i < log.newer(from).len() ==> #[trigger] log.newer(from)[i].seq > from,
        forall|i: int|
            0 <= i < log.skipped(from) ==> #[trigger] log.kept()[i].seq <= from,
        forall|i: int|
            0 <= i < log.newer(from).len() - 1 ==> #[trigger] log.newer(from)[i + 1].seq
                == log.newer(from)[i].seq + 1,
{
    let k = log.skipped(from);
    assert forall|i: int| 0 <= i < log.newer(from).len() implies #[trigger] log.newer(from)[i].seq
        > from by {
        assert(log.newer(from)[i] == log.kept()[k + i]);
        assert(log.kept()[k + i].seq == log.latest() - log.kept().len() + 1 + k + i);
    }
    assert forall|i: int| 0 <= i < log.skipped(from) implies #[trigger] log.kept()[i].seq
        <= from by {
        assert(log.kept()[i].seq == log.latest() - log.kept().len() + 1 + i);
    }
    assert forall|i: int| 0 <= i < log.newer(from).len() - 1 implies #[trigger] log.newer(
        from,
    )[i + 1].seq == log.newer(from)[i].seq + 1 by {
        assert(log.newer(from)[i] == log.kept()[k + i]);
        assert(log.newer(from)[i + 1] == log.kept()[k + i + 1]);
        assert(log.kept()[k + i].seq == log.latest() - log.kept().len() + 1 + k + i);
        assert(log.kept()[k + i + 1].seq == log.latest() - log.kept().len() + 1 + k + i + 1);
    }
}

/// Nothing after a cursor is skipped silently: what a batch holds and what
/// it says was missed add up to every event numbered after the cursor.
pub proof fn lemma_nothing_is_skipped_silently(log: &EventLog, from: u64)
    requires
        log.wf(),
        from <= log.latest(),
    ensures
        log.newer(from).len() + log.dropped_after(from) == log.latest() - from,
{
    if log.kept().len() > 0 {
        assert(log.kept()[0].seq == log.latest() - log.kept().len() + 1);
    }
}

/// The log never keeps more than its room.
pub proof fn lemma_kept_within_room(log: &EventLog)
    requires
        log.wf(),
    ensures
        log.kept().len() <= log.room(),
{
}

/// An event recorded after a cursor taken from `last_seq` is the one and
/// only event after that cursor: a cursor sees only what happens from now
/// on, and sees it.
pub proof fn lemma_cursor_sees_what_follows(before: &EventLog, after: &EventLog, event: AgentEvent)
    requires
        before.wf(),
        after.wf(),
        event.seq == before.latest() + 1,
        after.latest() == before.latest() + 1,
        after.room() == before.room(),
        after.kept() == bounded(before.kept().push(event), before.room()),
    ensures
        after.newer(before.latest()) == seq![event],
{
    let kept = after.kept();
    assert(kept.len() >= 1);
    assert(kept.last() == event);
    assert(after.skipped(before.latest()) == kept.len() - 1);
    assert(after.newer(before.latest()) =~= seq![event]);
}

/// `after` is `before` with `what` recorded, numbered next, at some time:
/// what [`EventLog::push`] promises of one call, whatever the stamp.
pub open spec fn pushed(before: &EventLog, after: &EventLog, what: EventKind) -> bool {
    &&& after.wf()
    &&& after.latest() == before.latest() + 1
    &&& after.room() == before.room()
    &&& after.name() == before.name()
    &&& exists|at: i64|
        after.kept() == bounded(
            #[trigger] before.kept().push(
                AgentEvent { seq: (before.latest() + 1) as u64, at, what },
            ),
            before.room(),
        )
}

/// A log fresh from [`EventLog::new`] that has had `kinds` pushed, one call
/// each, in order - `logs[j]` the log after the first `j` - has numbered
/// every one, and keeps the last of them that fit its room: in push order,
/// numbered one after another up to the count pushed, each the kind pushed,
/// and never more than its room. Read from the start, it hands out exactly
/// those.
#[verifier::spinoff_prover]
#[verifier::rlimit(40)]
pub proof fn lemma_pushes_keep_the_newest(logs: Seq<EventLog>, kinds: Seq<EventKind>)
    requires
        logs.len() == kinds.len() + 1,
        logs[0].wf(),
        logs[0].kept().len() == 0,
        logs[0].latest() == 0,
        forall|j: int| 0 <= j < kinds.len() ==> pushed(&logs[j], &#[trigger] logs[j + 1], kinds[j]),
    ensures
        ({
            let n = kinds.len();
            let last = logs[n as int];
            let m = if n < last.room() { n } else { last.room() };
            &&& last.latest() == n
            &&& last.room() == logs[0].room()
            &&& last.kept().len() == m
            &&& last.kept().len() <= last.room()
            &&& forall|i: int|
                0 <= i < m ==> (#[trigger] last.kept()[i]).seq == n - m + 1 + i
                    && last.kept()[i].what == kinds[n - m + i]
            &&& last.newer(0) == last.kept()
        }),
    decreases kinds.len(),
{
    let n = kinds.len();
    if n > 0 {
        let ls = logs.drop_last();
        let ks = kinds.drop_last();
        assert forall|j: int| 0 <= j < ks.len() implies pushed(&ls[j], &#[trigger] ls[j + 1], ks[j]) by {
            assert(pushed(&logs[j], &logs[j + 1], kinds[j]));
        }
        lemma_pushes_keep_the_newest(ls, ks);
        let prev = logs[n - 1];
        let last = logs[n as int];
        assert(pushed(&logs[n - 1], &logs[n as int], kinds[n - 1]));
        let at = choose|at: i64|
            last.kept() == bounded(
                #[trigger] prev.kept().push(
                    AgentEvent { seq: (prev.latest() + 1) as u64, at, what: kinds[n - 1] },
                ),
                prev.room(),
            );
        let ev = AgentEvent { seq: (prev.latest() + 1) as u64, at, what: kinds[n - 1] };
        let grown = prev.kept().push(ev);
        let m0 = if n - 1 < prev.room() { (n - 1) as nat } else { prev.room() };
        let m = if n < last.room() { n } else { last.room() };
        assert forall|i: int| 0 <= i < m implies (#[trigger] last.kept()[i]).seq == n - m + 1 + i
            && last.kept()[i].what == kinds[n - m + i] by {
            let off = grown.len() - last.kept().len();
            assert(last.kept()[i] == grown[off + i]);
            if off + i < m0 {
                assert(grown[off + i] == prev.kept()[off + i]);
                assert(prev.kept()[off + i].what == ks[(n - 1) - m0 + off + i]);
            }
        }
    }
    let last = logs[n as int];
    assert(last.skipped(0) == 0);
    assert(last.newer(0) =~= last.kept());
}

} // verus!
