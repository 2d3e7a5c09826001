//! The pieces of the sample game that are pure logic: player groups, the fire
//! event, and finding the state a shot is judged against.

use crate::event_snapshot::NetworkEvent;
use vstd::prelude::*;

verus! {

/// Draws a uniformly random value.
///
/// Relies on `rand::random` (thread-local generator); nothing is promised of
/// the value drawn.
pub assume_specification<T>[ rand::random::<T> ]() -> (r: T)
    where
        rand::distributions::Standard: rand::distributions::Distribution<T>,
;

/// Which of the two player groups a player belongs to; players only see
/// players of their own group.
#[derive(Debug, Clone, Copy, Default, PartialEq, Eq, Structural)]
pub struct PlayerGroup {
    pub group: u8,
}

impl PlayerGroup {
    /// Puts the player in group 0 or 1 at random.
    pub fn random() -> (r: Self)
        ensures
            r.group == 0 || r.group == 1,
    {
        let heads: bool = rand::random();
        let group: u8 = if heads {
            1
        } else {
            0
        };
        PlayerGroup { group }
    }

    pub fn is_relevant(&self, rhs: &Self) -> (r: bool)
        ensures
            r == (self.group == rhs.group),
    {
        self.group == rhs.group
    }
}

/// A shot fired by a player: its sequence number and the shooter's clock
/// reading in nanoseconds since the Unix epoch.
#[derive(Debug, Clone, Copy, PartialEq, Eq, Structural)]
pub struct NetworkFire {
    pub index: usize,
    pub timestamp: u64,
}

impl NetworkEvent for NetworkFire {
    open spec fn spec_index(&self) -> usize {
        self.index
    }

    open spec fn spec_timestamp(&self) -> u64 {
        self.timestamp
    }

    open spec fn spec_is_valid(&self) -> bool {
        true
    }

    fn index(&self) -> (r: usize) {
        self.index
    }

    fn timestamp(&self) -> (r: u64) {
        self.timestamp
    }

    fn validate(&self) -> (r: Result<(), String>) {
        Ok(())
    }
}

/// The newest position whose time is not after `t`, if any: the state a
/// shot fired at `t` is judged against.
pub fn latest_at_or_before(timestamps: &Vec<u64>, t: u64) -> (r: Option<usize>)
    ensures
        match r {
            Some(p) => p < timestamps@.len() && timestamps@[p as int] <= t && forall|q: int|
                p < q < timestamps@.len() ==> timestamps@[q] > t,
            None => forall|q: int| 0 <= q < timestamps@.len() ==> timestamps@[q] > t,
        },
{
    let mut i: usize = timestamps.len();
    while i > 0
        invariant
            i <= timestamps@.len(),
            forall|q: int| i <= q < timestamps@.len() ==> timestamps@[q] > t,
        decreases i,
    {
        if timestamps[i - 1] <= t {
            return Some(i - 1);
        }
        i = i - 1;
    }
    None
}

/// What to do with a shot once the state it is judged against was looked up.
#[derive(Debug, Clone, Copy, PartialEq, Eq, Structural)]
pub enum ShotLookup {
    /// Judge the shot against the state at this position.
    Found(usize),
    /// No state is old enough: skip the shot for this tick.
    Skip,
    /// No state is old enough, which strict mode treats as a broken
    /// invariant: stop the process.
    Abort,
}

/// Finds the state a shot fired at `t` is judged against; when there is
/// none, strict mode asks to abort and relaxed mode to skip.
pub fn lookup_shot_state(timestamps: &Vec<u64>, t: u64, strict_mode: bool) -> (r: ShotLookup)
    ensures
        match r {
            ShotLookup::Found(p) => p < timestamps@.len() && timestamps@[p as int] <= t && forall|q: int|
                p < q < timestamps@.len() ==> timestamps@[q] > t,
            ShotLookup::Skip => !strict_mode && forall|q: int|
                0 <= q < timestamps@.len() ==> timestamps@[q] > t,
            ShotLookup::Abort => strict_mode && forall|q: int|
                0 <= q < timestamps@.len() ==> timestamps@[q] > t,
        },
{
    match latest_at_or_before(timestamps, t) {
        Some(p) => ShotLookup::Found(p),
        None => {
            if strict_mode {
                ShotLookup::Abort
            } else {
                ShotLookup::Skip
            }
        },
    }
}

} // verus!
