//! A symmetric cache of pairwise distances, recomputed at most once per tick,
//! and the threshold rule that turns cached distances into per-viewer
//! visibility.
//!
//! Entities are identified by their 64-bit handle. A distance is carried as
//! the bit pattern of a non-negative `f32`: for non-negative floats, the
//! unsigned order of the bit patterns is the numeric order, so comparisons
//! against the culling threshold are exact.

use vstd::prelude::*;

verus! {

/// Marks entities whose relevance to a viewer is decided by distance.
#[derive(Debug, Clone, Copy, Default, PartialEq, Eq, Structural)]
pub struct Distance;

/// A distance together with the tick it was computed at.
#[derive(Debug, Clone, Copy, Default, PartialEq, Eq, Structural)]
pub struct DistanceAt {
    pub tick: u32,
    /// Bit pattern of a non-negative `f32` distance.
    pub distance: u32,
}

/// The distance from which a subject is culled for a viewer, as the bit
/// pattern of a non-negative `f32`.
#[derive(Debug, Clone, Copy, PartialEq, Eq, Structural)]
pub struct DistanceCullingConfig {
    pub culling_threshold: u32,
}

/// The one key under which both orderings of a pair are stored: the larger
/// handle first.
pub open spec fn pair_key(a: u64, b: u64) -> (u64, u64) {
    if a >= b {
        (a, b)
    } else {
        (b, a)
    }
}

pub fn canonical_pair(a: u64, b: u64) -> (r: (u64, u64))
    ensures
        r == pair_key(a, b),
{
    if a >= b {
        (a, b)
    } else {
        (b, a)
    }
}

/// Whether a cached pair survives the removal of `entity`.
pub open spec fn spec_pair_kept(key: (u64, u64), entity: u64) -> bool {
    key.0 != entity && key.1 != entity
}

pub fn pair_kept(key: &(u64, u64), entity: u64) -> (r: bool)
    ensures
        r == spec_pair_kept(*key, entity),
{
    key.0 != entity && key.1 != entity
}

/// Hash table from canonical pairs to cached distances.
#[verifier::external_body]
pub struct PairTable {
    map: bevy_utils::HashMap<(u64, u64), DistanceAt>,
}

/// The cache with nothing in it.
pub open spec fn no_pairs() -> Map<(u64, u64), DistanceAt> {
    Map::empty()
}

/// What a pair table holds.
pub uninterp spec fn pair_table_entries(t: PairTable) -> Map<(u64, u64), DistanceAt>;

/// Relies on `bevy_utils::HashMap::default`: a new map is empty.
#[verifier::external_body]
fn pair_table_new() -> (r: PairTable)
    ensures
        pair_table_entries(r) == no_pairs(),
{
    PairTable { map: bevy_utils::HashMap::default() }
}

/// Relies on `hashbrown::HashMap::insert`: the key now maps to the value and
/// the value it replaced, if any, is returned.
#[verifier::external_body]
fn pair_table_insert(t: &mut PairTable, key: (u64, u64), value: DistanceAt) -> (r: Option<DistanceAt>)
    ensures
        pair_table_entries(*final(t)) == pair_table_entries(*old(t)).insert(key, value),
        r == (if pair_table_entries(*old(t)).dom().contains(key) {
            Some(pair_table_entries(*old(t))[key])
        } else {
            None
        }),
{
    t.map.insert(key, value)
}

/// Relies on `hashbrown::HashMap::get`: the value under the key, if any.
#[verifier::external_body]
fn pair_table_get(t: &PairTable, key: (u64, u64)) -> (r: Option<DistanceAt>)
    ensures
        r == (if pair_table_entries(*t).dom().contains(key) {
            Some(pair_table_entries(*t)[key])
        } else {
            None
        }),
{
    t.map.get(&key).copied()
}

/// Relies on `hashbrown::HashMap::retain`: exactly the entries whose key the
/// predicate accepts stay, with their values.
#[verifier::external_body]
fn pair_table_retain_without(t: &mut PairTable, entity: u64)
    ensures
        pair_table_entries(*final(t)) == pair_table_entries(*old(t)).restrict(
            pair_table_entries(*old(t)).dom().filter(|k: (u64, u64)| spec_pair_kept(k, entity)),
        ),
{
    t.map.retain(|k, _| pair_kept(k, entity))
}

/// Symmetric cache of the last distance computed between two entities.
pub struct DistanceMap {
    table: PairTable,
}

impl View for DistanceMap {
    type V = Map<(u64, u64), DistanceAt>;

    closed spec fn view(&self) -> Map<(u64, u64), DistanceAt> {
        pair_table_entries(self.table)
    }
}

/// The cached distance between `a` and `b`, in either order.
pub open spec fn cached(m: Map<(u64, u64), DistanceAt>, a: u64, b: u64) -> Option<DistanceAt> {
    if m.dom().contains(pair_key(a, b)) {
        Some(m[pair_key(a, b)])
    } else {
        None
    }
}

impl DistanceMap {
    pub fn new() -> (r: Self)
        ensures
            r@ == no_pairs(),
    {
        DistanceMap { table: pair_table_new() }
    }

    /// Caches `distance_at` for the pair, whichever order it is given in, and
    /// returns what it replaces.
    pub fn insert(&mut self, key_l: u64, key_r: u64, distance_at: DistanceAt) -> (r: Option<DistanceAt>)
        ensures
            final(self)@ == old(self)@.insert(pair_key(key_l, key_r), distance_at),
            r == cached(old(self)@, key_l, key_r),
    {
        let key = canonical_pair(key_l, key_r);
        pair_table_insert(&mut self.table, key, distance_at)
    }

    /// The cached distance for the pair, whichever order it is given in.
    pub fn get(&self, key_l: u64, key_r: u64) -> (r: Option<DistanceAt>)
        ensures
            r == cached(self@, key_l, key_r),
    {
        let key = canonical_pair(key_l, key_r);
        pair_table_get(&self.table, key)
    }

    /// Forgets every cached pair that involves `entity`.
    pub fn remove(&mut self, entity: u64)
        ensures
            final(self)@ == old(self)@.restrict(
                old(self)@.dom().filter(|k: (u64, u64)| spec_pair_kept(k, entity)),
            ),
    {
        pair_table_retain_without(&mut self.table, entity)
    }
}

/// Viewer `i` and subject `j` form a pair that a recompute pass looks at.
pub open spec fn pass_pair(viewers: Seq<u64>, subjects: Seq<u64>, i: int, j: int) -> bool {
    0 <= i < viewers.len() && 0 <= j < subjects.len() && viewers[i] != subjects[j]
}

/// Pair `(i, j)` comes before position `(ci, cj)` in viewer-major order.
pub open spec fn visited_before(i: int, j: int, ci: int, cj: int) -> bool {
    i < ci || (i == ci && j < cj)
}

/// Whether the cache must be recomputed for a pair at `tick`: not for an
/// entity and itself, nor when a value computed at this tick is cached.
pub open spec fn needs_recompute(m: Map<(u64, u64), DistanceAt>, a: u64, b: u64, tick: u32) -> bool {
    a != b && !(m.dom().contains(pair_key(a, b)) && m[pair_key(a, b)].tick == tick)
}

/// What holds of the cache `cur` once a recompute pass over `viewers` and
/// `subjects` at `tick`, started on `start`, has visited every pair before
/// `(ci, cj)`.
pub open spec fn pass_done<F: Fn(usize, usize) -> u32>(
    start: Map<(u64, u64), DistanceAt>,
    cur: Map<(u64, u64), DistanceAt>,
    viewers: Seq<u64>,
    subjects: Seq<u64>,
    tick: u32,
    distance: F,
    ci: int,
    cj: int,
) -> bool {
    &&& forall|i: int, j: int|
        #![trigger pass_pair(viewers, subjects, i, j), visited_before(i, j, ci, cj)]
        pass_pair(viewers, subjects, i, j) && visited_before(i, j, ci, cj) ==> cur.dom().contains(
            pair_key(viewers[i], subjects[j]),
        ) && cur[pair_key(viewers[i], subjects[j])].tick == tick
    &&& forall|k: (u64, u64)| start.dom().contains(k) ==> cur.dom().contains(k)
    &&& forall|k: (u64, u64)|
        start.dom().contains(k) && start[k].tick == tick ==> cur[k] == start[k]
    &&& forall|k: (u64, u64)|
        #![trigger cur.dom().contains(k)]
        cur.dom().contains(k) ==> (start.dom().contains(k) && cur[k] == start[k]) || exists|
            i: int,
            j: int,
        |
            #![trigger pass_pair(viewers, subjects, i, j), visited_before(i, j, ci, cj)]
            pass_pair(viewers, subjects, i, j) && visited_before(i, j, ci, cj) && pair_key(
                viewers[i],
                subjects[j],
            ) == k && cur[k].tick == tick && distance.ensures(
                (i as usize, j as usize),
                cur[k].distance,
            )
}

/// Recomputes, at `tick`, the cached distance between every viewer and every
/// subject whose tracked state changed, skipping an entity paired with itself
/// and any pair already computed at this tick. `distance(i, j)` computes the
/// distance from `viewers[i]` to `subjects[j]`.
///
/// Afterwards every such pair is cached at `tick`; a value already computed
/// at `tick` is kept; every other entry is kept or is what `distance`
/// returned for a pair with that key.
pub fn calculate_distance_system<F: Fn(usize, usize) -> u32>(
    map: &mut DistanceMap,
    viewers: &Vec<u64>,
    subjects: &Vec<u64>,
    tick: u32,
    distance: F,
)
    requires
        forall|i: usize, j: usize|
            i < viewers.len() && j < subjects.len() ==> distance.requires((i, j)),
    ensures
        pass_done(old(map)@, final(map)@, viewers@, subjects@, tick, distance, viewers@.len() as int, 0),
{
    let ghost start = map@;
    let mut i: usize = 0;
    while i < viewers.len()
        invariant
            i <= viewers.len(),
            forall|i: usize, j: usize|
                i < viewers.len() && j < subjects.len() ==> distance.requires((i, j)),
            pass_done(start, map@, viewers@, subjects@, tick, distance, i as int, 0),
        decreases viewers.len() - i,
    {
        let viewer = viewers[i];
        let mut j: usize = 0;
        while j < subjects.len()
            invariant
                i < viewers.len(),
                j <= subjects.len(),
                viewer == viewers@[i as int],
                forall|i: usize, j: usize|
                    i < viewers.len() && j < subjects.len() ==> distance.requires((i, j)),
                pass_done(start, map@, viewers@, subjects@, tick, distance, i as int, j as int),
            decreases subjects.len() - j,
        {
            let subject = subjects[j];
            let ghost before = map@;
            if viewer != subject {
                let fresh = match map.get(viewer, subject) {
                    Some(d) => d.tick == tick,
                    None => false,
                };
                if !fresh {
                    let d = distance(i, j);
                    let _ = map.insert(viewer, subject, DistanceAt { tick, distance: d });
                    proof {
                        let key = pair_key(viewer, subject);
                        assert(pass_pair(viewers@, subjects@, i as int, j as int));
                        assert(visited_before(i as int, j as int, i as int, j + 1));
                        assert forall|k: (u64, u64)| #![trigger map@.dom().contains(k)]
                            map@.dom().contains(k) implies (start.dom().contains(k) && map@[k]
                            == start[k]) || exists|ii: int, jj: int|
                            #![trigger pass_pair(viewers@, subjects@, ii, jj), visited_before(ii, jj, i as int, j + 1)]
                            pass_pair(viewers@, subjects@, ii, jj) && visited_before(
                                ii,
                                jj,
                                i as int,
                                j + 1,
                            ) && pair_key(viewers@[ii], subjects@[jj]) == k && map@[k].tick
                                == tick && distance.ensures(
                                (ii as usize, jj as usize),
                                map@[k].distance,
                            ) by {
                            if k != key {
                                assert(before.dom().contains(k));
                                if !(start.dom().contains(k) && before[k] == start[k]) {
                                    let (ii, jj) = choose|ii: int, jj: int|
                                        #![trigger pass_pair(viewers@, subjects@, ii, jj), visited_before(ii, jj, i as int, j as int)]
                                        pass_pair(viewers@, subjects@, ii, jj) && visited_before(
                                            ii,
                                            jj,
                                            i as int,
                                            j as int,
                                        ) && pair_key(viewers@[ii], subjects@[jj]) == k
                                            && before[k].tick == tick && distance.ensures(
                                            (ii as usize, jj as usize),
                                            before[k].distance,
                                        );
                                    assert(visited_before(ii, jj, i as int, j + 1));
                                }
                            } else {
                                assert(visited_before(i as int, j as int, i as int, j + 1));
                            }
                        }
                        assert forall|ii: int, jj: int|
                            #![trigger pass_pair(viewers@, subjects@, ii, jj), visited_before(ii, jj, i as int, j + 1)]
                            pass_pair(viewers@, subjects@, ii, jj) && visited_before(
                                ii,
                                jj,
                                i as int,
                                j + 1,
                            ) implies map@.dom().contains(pair_key(viewers@[ii], subjects@[jj]))
                            && map@[pair_key(viewers@[ii], subjects@[jj])].tick == tick by {
                            if ii != i || jj != j {
                                assert(visited_before(ii, jj, i as int, j as int));
                            }
                        }
                    }
                } else {
                    proof {
                        assert forall|ii: int, jj: int|
                            #![trigger pass_pair(viewers@, subjects@, ii, jj), visited_before(ii, jj, i as int, j + 1)]
                            pass_pair(viewers@, subjects@, ii, jj) && visited_before(
                                ii,
                                jj,
                                i as int,
                                j + 1,
                            ) implies map@.dom().contains(pair_key(viewers@[ii], subjects@[jj]))
                            && map@[pair_key(viewers@[ii], subjects@[jj])].tick == tick by {
                            if ii != i || jj != j {
                                assert(visited_before(ii, jj, i as int, j as int));
                            }
                        }
                        assert forall|k: (u64, u64)| #![trigger map@.dom().contains(k)]
                            map@.dom().contains(k) && !(start.dom().contains(k) && map@[k]
                            == start[k]) implies exists|ii: int, jj: int|
                            #![trigger pass_pair(viewers@, subjects@, ii, jj), visited_before(ii, jj, i as int, j + 1)]
                            pass_pair(viewers@, subjects@, ii, jj) && visited_before(
                                ii,
                                jj,
                                i as int,
                                j + 1,
                            ) && pair_key(viewers@[ii], subjects@[jj]) == k && map@[k].tick
                                == tick && distance.ensures(
                                (ii as usize, jj as usize),
                                map@[k].distance,
                            ) by {
                            let (ii, jj) = choose|ii: int, jj: int|
                                #![trigger pass_pair(viewers@, subjects@, ii, jj), visited_before(ii, jj, i as int, j as int)]
                                pass_pair(viewers@, subjects@, ii, jj) && visited_before(
                                    ii,
                                    jj,
                                    i as int,
                                    j as int,
                                ) && pair_key(viewers@[ii], subjects@[jj]) == k && map@[k].tick
                                    == tick && distance.ensures(
                                    (ii as usize, jj as usize),
                                    map@[k].distance,
                                );
                            assert(visited_before(ii, jj, i as int, j + 1));
                        }
                    }
                }
            } else {
                proof {
                    assert forall|ii: int, jj: int|
                        #![trigger pass_pair(viewers@, subjects@, ii, jj), visited_before(ii, jj, i as int, j + 1)]
                        pass_pair(viewers@, subjects@, ii, jj) && visited_before(
                            ii,
                            jj,
                            i as int,
                            j + 1,
                        ) implies map@.dom().contains(pair_key(viewers@[ii], subjects@[jj]))
                        && map@[pair_key(viewers@[ii], subjects@[jj])].tick == tick by {
                        assert(visited_before(ii, jj, i as int, j as int));
                    }
                    assert forall|k: (u64, u64)| #![trigger map@.dom().contains(k)]
                        map@.dom().contains(k) && !(start.dom().contains(k) && map@[k]
                        == start[k]) implies exists|ii: int, jj: int|
                        #![trigger pass_pair(viewers@, subjects@, ii, jj), visited_before(ii, jj, i as int, j + 1)]
                        pass_pair(viewers@, subjects@, ii, jj) && visited_before(
                            ii,
                            jj,
                            i as int,
                            j + 1,
                        ) && pair_key(viewers@[ii], subjects@[jj]) == k && map@[k].tick
                            == tick && distance.ensures(
                            (ii as usize, jj as usize),
                            map@[k].distance,
                        ) by {
                        let (ii, jj) = choose|ii: int, jj: int|
                            #![trigger pass_pair(viewers@, subjects@, ii, jj), visited_before(ii, jj, i as int, j as int)]
                            pass_pair(viewers@, subjects@, ii, jj) && visited_before(
                                ii,
                                jj,
                                i as int,
                                j as int,
                            ) && pair_key(viewers@[ii], subjects@[jj]) == k && map@[k].tick
                                == tick && distance.ensures(
                                (ii as usize, jj as usize),
                                map@[k].distance,
                            );
                        assert(visited_before(ii, jj, i as int, j + 1));
                    }
                }
            }
            j = j + 1;
        }
        proof {
            let cur = map@;
            assert forall|ii: int, jj: int|
                #![trigger pass_pair(viewers@, subjects@, ii, jj), visited_before(ii, jj, i + 1, 0)]
                pass_pair(viewers@, subjects@, ii, jj) && visited_before(ii, jj, i + 1, 0)
                implies cur.dom().contains(pair_key(viewers@[ii], subjects@[jj]))
                && cur[pair_key(viewers@[ii], subjects@[jj])].tick == tick by {
                assert(visited_before(ii, jj, i as int, subjects@.len() as int));
            }
            assert forall|k: (u64, u64)| #![trigger cur.dom().contains(k)]
                cur.dom().contains(k) && !(start.dom().contains(k) && cur[k] == start[k])
                implies exists|ii: int, jj: int|
                #![trigger pass_pair(viewers@, subjects@, ii, jj), visited_before(ii, jj, i + 1, 0)]
                pass_pair(viewers@, subjects@, ii, jj) && visited_before(ii, jj, i + 1, 0)
                    && pair_key(viewers@[ii], subjects@[jj]) == k && cur[k].tick == tick
                    && distance.ensures((ii as usize, jj as usize), cur[k].distance) by {
                let (ii, jj) = choose|ii: int, jj: int|
                    #![trigger pass_pair(viewers@, subjects@, ii, jj), visited_before(ii, jj, i as int, subjects@.len() as int)]
                    pass_pair(viewers@, subjects@, ii, jj) && visited_before(
                        ii,
                        jj,
                        i as int,
                        subjects@.len() as int,
                    ) && pair_key(viewers@[ii], subjects@[jj]) == k && cur[k].tick == tick
                        && distance.ensures((ii as usize, jj as usize), cur[k].distance);
                assert(visited_before(ii, jj, i + 1, 0));
            }
        }
        i = i + 1;
    }
}

/// Visibility of a subject for a viewer after evaluation: culled at or beyond
/// the threshold, visible below it, unchanged when no distance is known.
pub open spec fn visible_after(cached: Option<DistanceAt>, threshold: u32, visible: bool) -> bool {
    match cached {
        Some(d) => d.distance < threshold,
        None => visible,
    }
}

/// The new visibility flag when it has to change, `None` when it stays.
pub fn visibility_change(cached: Option<DistanceAt>, config: &DistanceCullingConfig, visible: bool) -> (r: Option<bool>)
    ensures
        r == (if visible_after(cached, config.culling_threshold, visible) != visible {
            Some(visible_after(cached, config.culling_threshold, visible))
        } else {
            None
        }),
{
    match cached {
        Some(d) => {
            if d.distance >= config.culling_threshold {
                if visible {
                    Some(false)
                } else {
                    None
                }
            } else {
                if !visible {
                    Some(true)
                } else {
                    None
                }
            }
        },
        None => None,
    }
}

/// Updates, for `viewer`, the visibility flag `visibility[k]` of each
/// candidate `candidates[k]` from the cached distances. The viewer itself and
/// candidates with no cached distance keep their flag.
pub fn distance_culling_system(
    map: &DistanceMap,
    config: &DistanceCullingConfig,
    viewer: u64,
    candidates: &Vec<u64>,
    visibility: &mut Vec<bool>,
)
    requires
        old(visibility)@.len() == candidates@.len(),
    ensures
        final(visibility)@.len() == old(visibility)@.len(),
        forall|k: int|
            0 <= k < candidates@.len() ==> final(visibility)@[k] == (if candidates@[k] == viewer {
                old(visibility)@[k]
            } else {
                visible_after(
                    cached(map@, viewer, candidates@[k]),
                    config.culling_threshold,
                    old(visibility)@[k],
                )
            }),
{
    let mut k: usize = 0;
    while k < candidates.len()
        invariant
            k <= candidates@.len(),
            visibility@.len() == candidates@.len(),
            forall|q: int|
                k <= q < candidates@.len() ==> visibility@[q] == old(visibility)@[q],
            forall|q: int|
                0 <= q < k ==> visibility@[q] == (if candidates@[q] == viewer {
                    old(visibility)@[q]
                } else {
                    visible_after(
                        cached(map@, viewer, candidates@[q]),
                        config.culling_threshold,
                        old(visibility)@[q],
                    )
                }),
        decreases candidates@.len() - k,
    {
        let candidate = candidates[k];
        if candidate != viewer {
            let current = visibility[k];
            match visibility_change(map.get(viewer, candidate), config, current) {
                Some(v) => {
                    visibility.set(k, v);
                },
                None => {},
            }
        }
        k = k + 1;
    }
}

/// The cache is symmetric: a distance stored for `(a, b)` is found under
/// `(b, a)`.
pub proof fn lemma_cache_symmetric(m: Map<(u64, u64), DistanceAt>, a: u64, b: u64, d: DistanceAt)
    ensures
        cached(m.insert(pair_key(a, b), d), b, a) == Some(d),
        cached(m, a, b) == cached(m, b, a),
{
}

/// Once a pass at `tick` has visited a pair, no pass at the same tick
/// recomputes it.
pub proof fn lemma_pass_leaves_nothing_to_recompute<F: Fn(usize, usize) -> u32>(
    start: Map<(u64, u64), DistanceAt>,
    after: Map<(u64, u64), DistanceAt>,
    viewers: Seq<u64>,
    subjects: Seq<u64>,
    tick: u32,
    distance: F,
    i: int,
    j: int,
)
    requires
        pass_done(start, after, viewers, subjects, tick, distance, viewers.len() as int, 0),
        0 <= i < viewers.len(),
        0 <= j < subjects.len(),
    ensures
        !needs_recompute(after, viewers[i], subjects[j], tick),
{
    if viewers[i] != subjects[j] {
        assert(pass_pair(viewers, subjects, i, j));
        assert(visited_before(i, j, viewers.len() as int, 0));
    }
}

/// Running the recompute pass a second time at the same tick, with the same
/// viewers and subjects, changes nothing: each distance is computed at most
/// once per tick and its cached tick stays as it is.
pub proof fn lemma_second_pass_is_idle<F: Fn(usize, usize) -> u32, G: Fn(usize, usize) -> u32>(
    start: Map<(u64, u64), DistanceAt>,
    first: Map<(u64, u64), DistanceAt>,
    second: Map<(u64, u64), DistanceAt>,
    viewers: Seq<u64>,
    subjects: Seq<u64>,
    tick: u32,
    distance: F,
    distance_again: G,
)
    requires
        pass_done(start, first, viewers, subjects, tick, distance, viewers.len() as int, 0),
        pass_done(first, second, viewers, subjects, tick, distance_again, viewers.len() as int, 0),
    ensures
        second == first,
{
    assert forall|k: (u64, u64)| #![trigger second.dom().contains(k)]
        second.dom().contains(k) implies first.dom().contains(k) && second[k] == first[k] by {
        if !(first.dom().contains(k) && second[k] == first[k]) {
            let (ii, jj) = choose|ii: int, jj: int|
                #![trigger pass_pair(viewers, subjects, ii, jj), visited_before(ii, jj, viewers.len() as int, 0)]
                pass_pair(viewers, subjects, ii, jj) && visited_before(ii, jj, viewers.len() as int, 0)
                    && pair_key(viewers[ii], subjects[jj]) == k && second[k].tick == tick
                    && distance_again.ensures((ii as usize, jj as usize), second[k].distance);
            assert(first.dom().contains(k) && first[k].tick == tick);
        }
    }
    assert(second =~= first);
}

} // verus!
