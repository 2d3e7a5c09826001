//! Bounded, per-entity histories of admitted network events, consumed through
//! a frontier cursor.

use std::collections::VecDeque;
use vstd::prelude::*;

verus! {

/// What every event kind routed through a snapshot buffer offers: a sequence
/// number assigned by its producer, the producer's clock reading (nanoseconds
/// since the Unix epoch) and a payload check.
pub trait NetworkEvent: Sized {
    spec fn spec_index(&self) -> usize;

    spec fn spec_timestamp(&self) -> u64;

    spec fn spec_is_valid(&self) -> bool;

    fn index(&self) -> (r: usize)
        ensures
            r == self.spec_index(),
    ;

    fn timestamp(&self) -> (r: u64)
        ensures
            r == self.spec_timestamp(),
    ;

    fn validate(&self) -> (r: Result<(), String>)
        ensures
            r is Ok <==> self.spec_is_valid(),
    ;
}

/// One admitted event with the receipt time (nanoseconds since the Unix
/// epoch) and the logical tick it was admitted at.
pub struct EventSnapshot<E> {
    event: E,
    received_timestamp: u64,
    tick: u32,
}

impl<E: NetworkEvent> EventSnapshot<E> {
    pub closed spec fn spec_event(&self) -> E {
        self.event
    }

    pub closed spec fn spec_received_timestamp(&self) -> u64 {
        self.received_timestamp
    }

    pub closed spec fn spec_tick(&self) -> u32 {
        self.tick
    }

    pub open spec fn spec_index(&self) -> usize {
        self.spec_event().spec_index()
    }

    pub open spec fn spec_timestamp(&self) -> u64 {
        self.spec_event().spec_timestamp()
    }

    /// The snapshot holds exactly these three values.
    pub open spec fn holds(&self, event: E, received_timestamp: u64, tick: u32) -> bool {
        &&& self.spec_event() == event
        &&& self.spec_received_timestamp() == received_timestamp
        &&& self.spec_tick() == tick
    }

    pub fn new(event: E, received_timestamp: u64, tick: u32) -> (r: Self)
        ensures
            r.holds(event, received_timestamp, tick),
    {
        EventSnapshot { event, received_timestamp, tick }
    }

    pub fn event(&self) -> (r: &E)
        ensures
            *r == self.spec_event(),
    {
        &self.event
    }

    pub fn tick(&self) -> (r: u32)
        ensures
            r == self.spec_tick(),
    {
        self.tick
    }

    pub fn received_timestamp(&self) -> (r: u64)
        ensures
            r == self.spec_received_timestamp(),
    {
        self.received_timestamp
    }

    pub fn index(&self) -> (r: usize)
        ensures
            r == self.spec_index(),
    {
        self.event.index()
    }

    pub fn timestamp(&self) -> (r: u64)
        ensures
            r == self.spec_timestamp(),
    {
        self.event.timestamp()
    }
}

/// Why an event was not admitted into a snapshot buffer.
#[derive(Debug, Clone, Copy, PartialEq, Eq, Structural)]
pub enum SnapshotError {
    /// The buffer was configured with room for no snapshot at all.
    Capacity,
    /// The wall clock could not be read as time since the Unix epoch.
    ClockUnavailable,
    /// The event claims a time at or after its own receipt.
    ClockSkew,
    /// The tick is older than the tick of the latest snapshot.
    StaleTick,
    /// The event's time does not come strictly after the latest snapshot's.
    StaleTimestamp,
    /// The event's sequence number was already passed by the frontier.
    BehindFrontier,
}

/// A bounded history of snapshots in insertion order, oldest first, with a
/// frontier cursor: the smallest event index not yet handed to a consumer.
/// It also counts the snapshots evicted before any consumer saw them.
pub struct EventSnapshots<E> {
    deq: VecDeque<EventSnapshot<E>>,
    max_size: usize,
    frontier_index: usize,
    dropped_unconsumed: u64,
}

impl<E> View for EventSnapshots<E> {
    type V = Seq<EventSnapshot<E>>;

    closed spec fn view(&self) -> Seq<EventSnapshot<E>> {
        self.deq@
    }
}

/// Reads the wall clock as whole nanoseconds since the Unix epoch.
///
/// Relies on `bevy_utils::SystemTime` (std's `SystemTime` on native targets):
/// `now` and `duration_since(UNIX_EPOCH)`. Nothing is promised of the reading;
/// `None` stands for a clock before the epoch or beyond `u64` nanoseconds.
#[verifier::external_body]
fn unix_time_nanos() -> (r: Option<u64>) {
    match bevy_utils::SystemTime::now().duration_since(bevy_utils::SystemTime::UNIX_EPOCH) {
        Ok(d) => u64::try_from(d.as_nanos()).ok(),
        Err(_) => None,
    }
}

/// Snapshots ordered by event index, ties in any order.
pub open spec fn index_sorted<E: NetworkEvent>(s: Seq<EventSnapshot<E>>) -> bool {
    forall|a: int, b: int| 0 <= a <= b < s.len() ==> s[a].spec_index() <= s[b].spec_index()
}

impl<E: NetworkEvent> EventSnapshots<E> {
    pub closed spec fn spec_max_size(&self) -> usize {
        self.max_size
    }

    pub closed spec fn spec_frontier_index(&self) -> usize {
        self.frontier_index
    }

    pub closed spec fn spec_dropped_unconsumed(&self) -> u64 {
        self.dropped_unconsumed
    }

    /// The count of unconsumed evictions after appending to this buffer: one
    /// more (saturating) when the buffer is full and its oldest snapshot's
    /// index has not been passed by the frontier.
    pub open spec fn dropped_after_append(&self) -> u64 {
        if self@.len() >= self.spec_max_size() && self@.len() > 0 && self@[0].spec_index()
            >= self.spec_frontier_index() {
            self.spec_dropped_unconsumed().saturating_add(1)
        } else {
            self.spec_dropped_unconsumed()
        }
    }

    /// The buffer never holds more than its capacity, and the frontier never
    /// runs more than one past the newest snapshot's index.
    pub open spec fn wf(&self) -> bool {
        &&& self@.len() <= self.spec_max_size()
        &&& self@.len() > 0 ==> self.spec_frontier_index() <= self@.last().spec_index() + 1
    }

    /// Outcome of admission control for `event` arriving at `tick`, received at
    /// `received` nanoseconds since the epoch.
    pub open spec fn admission(&self, event: E, tick: u32, received: u64) -> Result<(), SnapshotError> {
        if self.spec_max_size() == 0 {
            Err(SnapshotError::Capacity)
        } else if event.spec_timestamp() >= received {
            Err(SnapshotError::ClockSkew)
        } else if self@.len() > 0 && tick < self@.last().spec_tick() {
            Err(SnapshotError::StaleTick)
        } else if self@.len() > 0 && event.spec_timestamp() <= self@.last().spec_timestamp() {
            Err(SnapshotError::StaleTimestamp)
        } else if event.spec_index() < self.spec_frontier_index() {
            Err(SnapshotError::BehindFrontier)
        } else {
            Ok(())
        }
    }

    /// `after` is this buffer's contents with a snapshot of `event` received
    /// at `received` and admitted at `tick` appended, the oldest snapshot
    /// evicted first when the buffer is full.
    pub open spec fn appended(&self, after: Seq<EventSnapshot<E>>, event: E, received: u64, tick: u32) -> bool {
        &&& after.len() == (if self@.len() >= self.spec_max_size() {
            self@.len()
        } else {
            self@.len() + 1
        })
        &&& forall|k: int|
            0 <= k < after.len() - 1 ==> #[trigger] after[k] == (if self@.len() >= self.spec_max_size() {
                self@[k + 1]
            } else {
                self@[k]
            })
        &&& after[after.len() - 1].holds(event, received, tick)
    }

    /// What `insert` leaves behind, whatever the wall clock read: the outcome
    /// of admission control for some reading, or a clock that could not be
    /// read; the capacity is checked before the clock.
    pub open spec fn inserted_by_clock(&self, after: Self, event: E, tick: u32, r: Result<(), SnapshotError>) -> bool {
        &&& after.wf()
        &&& after.spec_max_size() == self.spec_max_size()
        &&& after.spec_frontier_index() == self.spec_frontier_index()
        &&& self.spec_max_size() == 0 ==> r == Err::<(), SnapshotError>(SnapshotError::Capacity)
        &&& r is Err ==> after == *self
        &&& r is Ok ==> after.spec_dropped_unconsumed() == self.dropped_after_append()
        &&& r == Err::<(), SnapshotError>(SnapshotError::ClockUnavailable) || exists|received: u64|
            r == self.admission(event, tick, received) && (r is Ok ==> self.appended(
                after@,
                event,
                received,
                tick,
            ))
    }

    /// What `frontier` leaves behind and hands out: `begin` is the first
    /// position whose index reaches the old frontier (or the length), the
    /// contents stay, and the frontier moves one past the newest snapshot's
    /// index exactly when something was handed out.
    pub open spec fn frontier_step(&self, after: Self, begin: usize) -> bool {
        &&& after.wf()
        &&& after@ == self@
        &&& after.spec_max_size() == self.spec_max_size()
        &&& begin <= self@.len()
        &&& forall|p: int| 0 <= p < begin ==> self@[p].spec_index() < self.spec_frontier_index()
        &&& begin < self@.len() ==> self@[begin as int].spec_index() >= self.spec_frontier_index()
            && after.spec_frontier_index() == self@.last().spec_index() + 1
        &&& begin == self@.len() ==> after.spec_frontier_index() == self.spec_frontier_index()
        &&& after.spec_frontier_index() >= self.spec_frontier_index()
        &&& after.spec_dropped_unconsumed() == self.spec_dropped_unconsumed()
    }

    pub fn with_capacity(max_size: usize) -> (r: Self)
        ensures
            r.wf(),
            r@ == Seq::<EventSnapshot<E>>::empty(),
            r.spec_max_size() == max_size,
            r.spec_frontier_index() == 0,
            r.spec_dropped_unconsumed() == 0,
    {
        EventSnapshots {
            deq: VecDeque::with_capacity(max_size),
            max_size,
            frontier_index: 0,
            dropped_unconsumed: 0,
        }
    }

    pub fn len(&self) -> (r: usize)
        ensures
            r == self@.len(),
    {
        self.deq.len()
    }

    pub fn capacity(&self) -> (r: usize)
        ensures
            r == self.spec_max_size(),
    {
        self.max_size
    }

    pub fn frontier_index(&self) -> (r: usize)
        ensures
            r == self.spec_frontier_index(),
    {
        self.frontier_index
    }

    /// How many snapshots were evicted before a consumer was handed them.
    pub fn dropped_unconsumed(&self) -> (r: u64)
        ensures
            r == self.spec_dropped_unconsumed(),
    {
        self.dropped_unconsumed
    }

    pub fn latest_snapshot(&self) -> (r: Option<&EventSnapshot<E>>)
        ensures
            match r {
                Some(s) => self@.len() > 0 && *s == self@.last(),
                None => self@.len() == 0,
            },
    {
        let n = self.deq.len();
        if n > 0 {
            Some(&self.deq[n - 1])
        } else {
            None
        }
    }

    pub fn get(&self, index: usize) -> (r: Option<&EventSnapshot<E>>)
        ensures
            match r {
                Some(s) => index < self@.len() && *s == self@[index as int],
                None => index >= self@.len(),
            },
    {
        if index < self.deq.len() {
            Some(&self.deq[index])
        } else {
            None
        }
    }

    /// The snapshots, oldest first.
    pub fn iter(&self) -> (r: Vec<&EventSnapshot<E>>)
        ensures
            r@.len() == self@.len(),
            forall|k: int| 0 <= k < r@.len() ==> *r@[k] == self@[k],
    {
        let mut out: Vec<&EventSnapshot<E>> = Vec::new();
        let n = self.deq.len();
        let mut i: usize = 0;
        while i < n
            invariant
                n == self@.len(),
                i <= n,
                out@.len() == i,
                forall|k: int| 0 <= k < i ==> *out@[k] == self@[k],
            decreases n - i,
        {
            out.push(&self.deq[i]);
            i = i + 1;
        }
        out
    }

    /// Drops the oldest snapshot, if any.
    pub fn pop_front(&mut self)
        requires
            old(self).wf(),
        ensures
            final(self).wf(),
            old(self)@.len() > 0 ==> final(self)@ == old(self)@.drop_first(),
            old(self)@.len() == 0 ==> final(self)@ == old(self)@,
            final(self).spec_max_size() == old(self).spec_max_size(),
            final(self).spec_frontier_index() == old(self).spec_frontier_index(),
            final(self).spec_dropped_unconsumed() == old(self).spec_dropped_unconsumed(),
    {
        let _ = self.deq.pop_front();
    }

    /// Admits `event` at `tick` as received at `received_timestamp`
    /// (nanoseconds since the Unix epoch), or says why it is rejected; a
    /// rejected event leaves the buffer as it was.
    pub fn insert_at(&mut self, event: E, tick: u32, received_timestamp: u64) -> (r: Result<(), SnapshotError>)
        requires
            old(self).wf(),
        ensures
            r == old(self).admission(event, tick, received_timestamp),
            r is Err ==> *final(self) == *old(self),
            r is Ok ==> old(self).appended(final(self)@, event, received_timestamp, tick),
            r is Ok ==> final(self).spec_dropped_unconsumed() == old(self).dropped_after_append(),
            final(self).spec_max_size() == old(self).spec_max_size(),
            final(self).spec_frontier_index() == old(self).spec_frontier_index(),
            final(self).wf(),
            final(self)@.len() <= final(self).spec_max_size(),
            // a stale tick is refused whatever the event's time says
            old(self).spec_max_size() > 0 && event.spec_timestamp() < received_timestamp
                && old(self)@.len() > 0 && tick < old(self)@.last().spec_tick()
                ==> r == Err::<(), SnapshotError>(SnapshotError::StaleTick),
            // a time that does not move past the latest snapshot is refused
            old(self).spec_max_size() > 0 && event.spec_timestamp() < received_timestamp
                && old(self)@.len() > 0 && tick >= old(self)@.last().spec_tick()
                && event.spec_timestamp() <= old(self)@.last().spec_timestamp()
                ==> r == Err::<(), SnapshotError>(SnapshotError::StaleTimestamp),
            // an index behind the frontier is refused even when all else is in order
            old(self).admission(event, tick, received_timestamp) != Err::<(), SnapshotError>(SnapshotError::Capacity)
                && old(self).admission(event, tick, received_timestamp) != Err::<(), SnapshotError>(SnapshotError::ClockSkew)
                && old(self).admission(event, tick, received_timestamp) != Err::<(), SnapshotError>(SnapshotError::StaleTick)
                && old(self).admission(event, tick, received_timestamp) != Err::<(), SnapshotError>(SnapshotError::StaleTimestamp)
                && event.spec_index() < old(self).spec_frontier_index()
                ==> r == Err::<(), SnapshotError>(SnapshotError::BehindFrontier),
    {
        if self.max_size == 0 {
            return Err(SnapshotError::Capacity);
        }
        let event_timestamp = event.timestamp();
        if event_timestamp >= received_timestamp {
            return Err(SnapshotError::ClockSkew);
        }
        let n = self.deq.len();
        if n > 0 {
            let latest = &self.deq[n - 1];
            if tick < latest.tick {
                return Err(SnapshotError::StaleTick);
            }
            if event_timestamp <= latest.timestamp() {
                return Err(SnapshotError::StaleTimestamp);
            }
        }
        if event.index() < self.frontier_index {
            return Err(SnapshotError::BehindFrontier);
        }
        if n >= self.max_size {
            if let Some(evicted) = self.deq.pop_front() {
                if evicted.index() >= self.frontier_index {
                    self.dropped_unconsumed = self.dropped_unconsumed.saturating_add(1);
                }
            }
        }
        self.deq.push_back(EventSnapshot::new(event, received_timestamp, tick));
        Ok(())
    }

    /// Admits `event` at `tick`, taking the receipt time from the wall clock.
    /// Whatever the clock reads, the outcome is the admission outcome for that
    /// reading, unless the clock cannot be read at all.
    pub fn insert(&mut self, event: E, tick: u32) -> (r: Result<(), SnapshotError>)
        requires
            old(self).wf(),
        ensures
            old(self).inserted_by_clock(*final(self), event, tick, r),
            final(self)@.len() <= final(self).spec_max_size(),
    {
        if self.max_size == 0 {
            assert(self.admission(event, tick, 0) == Err::<(), SnapshotError>(SnapshotError::Capacity));
            return Err(SnapshotError::Capacity);
        }
        match unix_time_nanos() {
            Some(received) => self.insert_at(event, tick, received),
            None => Err(SnapshotError::ClockUnavailable),
        }
    }

    /// Hands out the snapshots not yet consumed: those from the first one
    /// whose index reaches the frontier through the newest, as the position
    /// `begin` where they start (they run to `len()`). When there are any, the
    /// frontier moves one past the newest snapshot's index; otherwise nothing
    /// changes.
    pub fn frontier(&mut self) -> (begin: usize)
        requires
            old(self).wf(),
            old(self)@.len() > 0 ==> old(self)@.last().spec_index() < usize::MAX,
        ensures
            old(self).frontier_step(*final(self), begin),
    {
        let n = self.deq.len();
        let mut i: usize = 0;
        while i < n && self.deq[i].index() < self.frontier_index
            invariant
                n == self.deq@.len(),
                i <= n,
                forall|p: int| 0 <= p < i ==> self.deq@[p].spec_index() < self.frontier_index,
            decreases n - i,
        {
            i = i + 1;
        }
        if i < n {
            self.frontier_index = self.deq[n - 1].index() + 1;
        }
        i
    }

    /// Reorders the snapshots by event index, keeping exactly the same
    /// snapshots.
    pub fn sort_with_index(&mut self)
        requires
            old(self).wf(),
        ensures
            final(self).wf(),
            index_sorted(final(self)@),
            final(self)@.to_multiset() == old(self)@.to_multiset(),
            final(self)@.len() == old(self)@.len(),
            final(self).spec_max_size() == old(self).spec_max_size(),
            final(self).spec_frontier_index() == old(self).spec_frontier_index(),
            final(self).spec_dropped_unconsumed() == old(self).spec_dropped_unconsumed(),
    {
        let n = self.deq.len();
        let mut i: usize = if n == 0 {
            0
        } else {
            1
        };
        while i < n
            invariant
                n == self.deq@.len(),
                n == old(self)@.len(),
                n > 0 ==> 1 <= i,
                i <= n,
                index_sorted(self.deq@.subrange(0, i as int)),
                self.deq@.to_multiset() == old(self)@.to_multiset(),
                self.max_size == old(self).spec_max_size(),
                self.frontier_index == old(self).spec_frontier_index(),
                self.dropped_unconsumed == old(self).spec_dropped_unconsumed(),
            decreases n - i,
        {
            let ghost before = self.deq@;
            if let Some(x) = self.deq.remove(i) {
                let xi = x.index();
                let ghost s = self.deq@;
                proof {
                    vstd::seq_lib::to_multiset_remove(before, i as int);
                }
                let mut j: usize = i;
                while j > 0 && self.deq[j - 1].index() > xi
                    invariant
                        j <= i,
                        i < n,
                        self.deq@ == s,
                        s == before.remove(i as int),
                        s.len() == n - 1,
                        before.len() == n,
                        index_sorted(before.subrange(0, i as int)),
                        forall|k: int| j <= k < i ==> s[k].spec_index() > xi,
                    decreases j,
                {
                    j = j - 1;
                }
                self.deq.insert(j, x);
                proof {
                    let t = self.deq@;
                    vstd::seq_lib::to_multiset_insert(s, j as int, x);
                    assert(before.to_multiset().remove(x).insert(x) =~= before.to_multiset()) by {
                        broadcast use vstd::multiset::group_multiset_axioms;
                        broadcast use vstd::seq_lib::to_multiset_contains;
                        assert(before.contains(x)) by {
                            assert(before[i as int] == x);
                        }
                    }
                    assert forall|k: int| 0 <= k < i implies s[k] == before[k] by {}
                    assert forall|a: int, b: int| 0 <= a <= b < i + 1 implies t[a].spec_index()
                        <= t[b].spec_index() by {
                        if a < j && b < j {
                            assert(before.subrange(0, i as int)[a] == s[a]);
                            assert(before.subrange(0, i as int)[b] == s[b]);
                        } else if a < j && b == j {
                            assert(before.subrange(0, i as int)[a] == s[a]);
                            assert(before.subrange(0, i as int)[j - 1] == s[j - 1]);
                        } else if a < j {
                            assert(before.subrange(0, i as int)[a] == s[a]);
                            assert(before.subrange(0, i as int)[b - 1] == s[b - 1]);
                        } else if a == j {
                        } else {
                            assert(before.subrange(0, i as int)[a - 1] == s[a - 1]);
                            assert(before.subrange(0, i as int)[b - 1] == s[b - 1]);
                        }
                    }
                }
            }
            i = i + 1;
        }
        proof {
            let t = self.deq@;
            assert(t.subrange(0, n as int) =~= t);
            if n > 0 {
                let last = old(self)@.last();
                assert(old(self)@.contains(last)) by {
                    assert(old(self)@[n - 1] == last);
                }
                vstd::seq_lib::to_multiset_contains(old(self)@, last);
                vstd::seq_lib::to_multiset_contains(t, last);
                let k = choose|k: int| 0 <= k < t.len() && t[k] == last;
                assert(t[k].spec_index() <= t[n - 1].spec_index());
            }
        }
    }
}

/// Why an incoming event did not end up in a buffer.
#[derive(Debug, Clone, Copy, PartialEq, Eq, Structural)]
pub enum IngestError {
    /// The event's payload failed its own check.
    Invalid,
    /// The buffer's admission control refused the event.
    Rejected(SnapshotError),
}

pub open spec fn as_ingest(r: Result<(), SnapshotError>) -> Result<(), IngestError> {
    match r {
        Ok(()) => Ok(()),
        Err(e) => Err(IngestError::Rejected(e)),
    }
}

/// Client side: routes a locally produced or replayed event into the
/// buffer at the latest tick confirmed by the server. An invalid event is
/// discarded and the buffer left as it was.
pub fn client_populate_client_event_snapshots<E: NetworkEvent>(
    snaps: &mut EventSnapshots<E>,
    event: E,
    confirmed_tick: u32,
) -> (r: Result<(), IngestError>)
    requires
        old(snaps).wf(),
    ensures
        final(snaps).wf(),
        !event.spec_is_valid() ==> r == Err::<(), IngestError>(IngestError::Invalid) && *final(snaps)
            == *old(snaps),
        event.spec_is_valid() ==> exists|inner: Result<(), SnapshotError>|
            r == as_ingest(inner) && old(snaps).inserted_by_clock(
                *final(snaps),
                event,
                confirmed_tick,
                inner,
            ),
{
    match event.validate() {
        Ok(()) => {},
        Err(_) => {
            return Err(IngestError::Invalid);
        },
    }
    let inner = snaps.insert(event, confirmed_tick);
    let r = match inner {
        Ok(()) => Ok(()),
        Err(e) => Err(IngestError::Rejected(e)),
    };
    assert(r == as_ingest(inner));
    r
}

/// Server side: routes an event sent by client `sender` into the buffer of
/// an entity owned by client `owner`, at the current server tick. An invalid
/// event is discarded; a valid one only reaches the buffer of an entity that
/// its sender owns (`Ok(false)` for any other). The buffer changes only when
/// the event is admitted.
pub fn server_populate_client_event_snapshots<E: NetworkEvent>(
    snaps: &mut EventSnapshots<E>,
    owner: u64,
    sender: u64,
    event: E,
    server_tick: u32,
) -> (r: Result<bool, IngestError>)
    requires
        old(snaps).wf(),
    ensures
        final(snaps).wf(),
        !event.spec_is_valid() ==> r == Err::<bool, IngestError>(IngestError::Invalid) && *final(snaps)
            == *old(snaps),
        event.spec_is_valid() && owner != sender ==> r == Ok::<bool, IngestError>(false)
            && *final(snaps) == *old(snaps),
        event.spec_is_valid() && owner == sender ==> exists|inner: Result<(), SnapshotError>|
            old(snaps).inserted_by_clock(*final(snaps), event, server_tick, inner) && r == (
            match inner {
                Ok(()) => Ok::<bool, IngestError>(true),
                Err(e) => Err(IngestError::Rejected(e)),
            }),
{
    match event.validate() {
        Ok(()) => {},
        Err(_) => {
            return Err(IngestError::Invalid);
        },
    }
    if owner != sender {
        return Ok(false);
    }
    let inner = snaps.insert(event, server_tick);
    match inner {
        Ok(()) => Ok(true),
        Err(e) => Err(IngestError::Rejected(e)),
    }
}

/// Consuming twice with nothing inserted in between: the second call hands
/// out nothing and leaves the frontier where the first put it. This needs the
/// newest snapshot to carry the largest index (as after `sort_with_index`);
/// in a buffer holding indices 9 then 5, the first call moves the frontier to
/// 6 and the second hands out both snapshots again.
pub proof fn lemma_frontier_drains<E: NetworkEvent>(
    first: EventSnapshots<E>,
    second: EventSnapshots<E>,
    third: EventSnapshots<E>,
    begin_first: usize,
    begin_second: usize,
)
    requires
        first.wf(),
        forall|p: int| 0 <= p < first@.len() ==> first@[p].spec_index() <= first@.last().spec_index(),
        first.frontier_step(second, begin_first),
        second.frontier_step(third, begin_second),
    ensures
        begin_second == second@.len(),
        third.spec_frontier_index() == second.spec_frontier_index(),
        third@ == second@,
{
    if begin_second < second@.len() {
        if begin_first < first@.len() {
            assert(second@[begin_second as int].spec_index() <= first@.last().spec_index());
        } else {
            assert(second@[begin_second as int].spec_index() < first.spec_frontier_index());
        }
    }
}

} // verus!
