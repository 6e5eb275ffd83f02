//! The worker registry: what each worker stores, when it was last seen, and
//! whether it may be given a query.

use vstd::prelude::*;
use vstd::utf8::encode_utf8;
use crate::messages::{Ping, StoredRanges, WorkerReply};
use crate::table::Table;
use crate::types::{covers_block, normalize_url, ranges_cover, DatasetId, PeerId, Range};
use crate::version::SupportedVersions;

verus! {

/// The limits and durations that govern the registry. Times are in
/// milliseconds.
#[derive(Clone, Copy, Debug, PartialEq, Eq, Structural)]
pub struct StateSettings {
    /// A worker not heard of for longer than this is inactive.
    pub worker_inactive_threshold: u64,
    /// How long a greylisted worker is left out.
    pub greylist_duration: u64,
    /// How long a worker without compute units is left out.
    pub allocation_backoff: u64,
    pub min_worker_priority: i8,
    pub max_worker_priority: i8,
}

/// Why a registry could not be made.
#[derive(Clone, Copy, Debug, PartialEq, Eq, Structural)]
pub enum StateError {
    /// The lowest priority is above the highest.
    PriorityBoundsInverted,
    /// The greylist duration or the allocation backoff is zero.
    ZeroDuration,
}

/// Whether a registry can be made with `settings`, and if not, why.
pub open spec fn settings_error(settings: StateSettings) -> Option<StateError> {
    if settings.min_worker_priority > settings.max_worker_priority {
        Some(StateError::PriorityBoundsInverted)
    } else if settings.greylist_duration == 0 || settings.allocation_backoff == 0 {
        Some(StateError::ZeroDuration)
    } else {
        None
    }
}

/// `p`, moved into `min..=max` where it lies outside.
pub open spec fn clamp_priority(p: int, min: i8, max: i8) -> i8 {
    if p < min {
        min
    } else if p > max {
        max
    } else {
        p as i8
    }
}

/// The time `duration` after `now`, or the last representable time where that
/// lies beyond it.
pub open spec fn deadline_after(now: u64, duration: u64) -> u64 {
    if now + duration > u64::MAX {
        u64::MAX
    } else {
        (now + duration) as u64
    }
}

/// Whether a deadline has passed at `now`. No deadline counts as passed.
pub open spec fn deadline_elapsed(deadline: Option<u64>, now: u64) -> bool {
    match deadline {
        Some(t) => t <= now,
        None => true,
    }
}

/// Whether a worker last seen at `last_seen` is still active at `now`.
pub open spec fn seen_recently(last_seen: Option<u64>, threshold: u64, now: u64) -> bool {
    match last_seen {
        Some(t) => now - t <= threshold,
        None => false,
    }
}

/// The ranges that a ping reports, by dataset. Where a ping names a dataset
/// twice the later entry counts.
pub open spec fn ranges_by_dataset(stored: Seq<StoredRanges>) -> Map<Seq<char>, Seq<Range>>
    decreases stored.len(),
{
    if stored.len() == 0 {
        Map::empty()
    } else {
        ranges_by_dataset(stored.drop_last()).insert(normalize_url(stored.last().url@), stored.last().ranges@)
    }
}

/// What the registry knows of one worker.
pub struct WorkerView {
    pub ranges: Map<Seq<char>, Seq<Range>>,
    pub version: Option<Seq<char>>,
    pub last_seen: Option<u64>,
    pub greylist_until: Option<u64>,
    pub missing_allocation_until: Option<u64>,
    pub priority: i8,
}

impl WorkerView {
    /// A worker of which nothing is known yet.
    pub open spec fn unknown(priority: i8) -> WorkerView {
        WorkerView {
            ranges: Map::empty(),
            version: None,
            last_seen: None,
            greylist_until: None,
            missing_allocation_until: None,
            priority,
        }
    }

    /// Whether the worker reported a range of `dataset` that holds `block`.
    pub open spec fn covers(&self, dataset: Seq<char>, block: int) -> bool {
        self.ranges.contains_key(dataset) && ranges_cover(self.ranges[dataset], block)
    }

    /// Whether the worker may be given queries at `now`: it was seen recently, is
    /// neither greylisted nor known to lack compute units, and runs a supported
    /// version.
    pub open spec fn available(&self, versions: SupportedVersions, settings: StateSettings, now: u64) -> bool {
        &&& seen_recently(self.last_seen, settings.worker_inactive_threshold, now)
        &&& deadline_elapsed(self.greylist_until, now)
        &&& deadline_elapsed(self.missing_allocation_until, now)
        &&& self.version matches Some(v) && versions.admits(v)
    }

    /// Whether the worker may be given a query for `block` of `dataset` at `now`.
    pub open spec fn eligible(
        &self,
        versions: SupportedVersions,
        settings: StateSettings,
        dataset: Seq<char>,
        block: int,
        now: u64,
    ) -> bool {
        self.available(versions, settings, now) && self.covers(dataset, block)
    }
}

/// The record of one worker.
pub struct WorkerState {
    stored_ranges: Table<Vec<Range>>,
    version: Option<String>,
    last_seen: Option<u64>,
    greylist_until: Option<u64>,
    missing_allocation_until: Option<u64>,
    priority: i8,
}

impl WorkerState {
    /// What the record says.
    pub closed spec fn view(&self) -> WorkerView {
        WorkerView {
            ranges: Map::new(
                |k: Seq<char>| self.stored_ranges@.contains_key(k),
                |k: Seq<char>| self.stored_ranges@[k]@,
            ),
            version: match self.version {
                Some(v) => Some(v@),
                None => None,
            },
            last_seen: self.last_seen,
            greylist_until: self.greylist_until,
            missing_allocation_until: self.missing_allocation_until,
            priority: self.priority,
        }
    }

    /// The record is consistent, its version is a supported one and its priority
    /// lies within the bounds.
    pub closed spec fn wf(&self, versions: SupportedVersions, settings: StateSettings) -> bool {
        &&& self.stored_ranges.wf()
        &&& self.version matches Some(v) ==> versions.admits(v@)
        &&& settings.min_worker_priority <= self.priority <= settings.max_worker_priority
    }

    fn unknown(priority: i8) -> (w: WorkerState)
        ensures
            w@ == WorkerView::unknown(priority),
            w.stored_ranges.wf(),
            w.version is None,
            w.priority == priority,
    {
        let w = WorkerState {
            stored_ranges: Table::new(),
            version: None,
            last_seen: None,
            greylist_until: None,
            missing_allocation_until: None,
            priority,
        };
        proof {
            assert(w@.ranges =~= Map::<Seq<char>, Seq<Range>>::empty());
        }
        w
    }
}

fn clamp(p: i8, min: i8, max: i8) -> (r: i8)
    ensures
        r == clamp_priority(p as int, min, max),
{
    if p < min {
        min
    } else if p > max {
        max
    } else {
        p
    }
}

fn add_duration(now: u64, duration: u64) -> (t: u64)
    ensures
        t == deadline_after(now, duration),
{
    if duration > u64::MAX - now {
        u64::MAX
    } else {
        now + duration
    }
}

fn elapsed(deadline: &Option<u64>, now: u64) -> (b: bool)
    ensures
        b == deadline_elapsed(*deadline, now),
{
    match deadline {
        Some(t) => *t <= now,
        None => true,
    }
}

fn copy_ranges(ranges: &Vec<Range>) -> (res: Vec<Range>)
    ensures
        res@ == ranges@,
{
    let mut res: Vec<Range> = Vec::new();
    let mut i: usize = 0;
    while i < ranges.len()
        invariant
            i <= ranges.len(),
            res@ == ranges@.take(i as int),
        decreases ranges.len() - i,
    {
        res.push(ranges[i]);
        proof {
            assert(res@ =~= ranges@.take(i + 1));
        }
        i = i + 1;
    }
    proof {
        assert(ranges@.take(i as int) =~= ranges@);
    }
    res
}

/// Collects the ranges of a ping by dataset.
fn collect_ranges(stored: &Vec<StoredRanges>) -> (t: Table<Vec<Range>>)
    ensures
        t.wf(),
        Map::new(|k: Seq<char>| t@.contains_key(k), |k: Seq<char>| t@[k]@) == ranges_by_dataset(stored@),
{
    let mut t: Table<Vec<Range>> = Table::new();
    let mut i: usize = 0;
    proof {
        assert(Map::new(|k: Seq<char>| t@.contains_key(k), |k: Seq<char>| t@[k]@) =~= ranges_by_dataset(
            stored@.take(0),
        ));
    }
    while i < stored.len()
        invariant
            i <= stored.len(),
            t.wf(),
            Map::new(|k: Seq<char>| t@.contains_key(k), |k: Seq<char>| t@[k]@) == ranges_by_dataset(
                stored@.take(i as int),
            ),
        decreases stored.len() - i,
    {
        let ghost t_before = t;
        let item = &stored[i];
        proof {
            assert(stored@.take(i + 1).drop_last() =~= stored@.take(i as int));
            assert(stored@.take(i + 1).last() == stored@[i as int]);
        }
        let id = DatasetId::from_url(item.url.as_str());
        t.insert(id.0, copy_ranges(&item.ranges));
        proof {
            assert(Map::new(|k: Seq<char>| t@.contains_key(k), |k: Seq<char>| t@[k]@) =~= Map::new(
                |k: Seq<char>| t_before@.contains_key(k),
                |k: Seq<char>| t_before@[k]@,
            ).insert(id@, item.ranges@));
        }
        i = i + 1;
    }
    proof {
        assert(stored@.take(i as int) =~= stored@);
    }
    t
}

/// The registry of workers.
pub struct NetworkState {
    workers: Table<WorkerState>,
    versions: SupportedVersions,
    settings: StateSettings,
}

impl NetworkState {
    /// What is known of each worker, by peer identity.
    pub closed spec fn workers(&self) -> Map<Seq<char>, WorkerView> {
        Map::new(|k: Seq<char>| self.workers@.contains_key(k), |k: Seq<char>| self.workers@[k]@)
    }

    /// The workers in the order in which the registry first heard of them.
    pub closed spec fn worker_order(&self) -> Seq<Seq<char>> {
        Seq::new(self.workers.spec_keys().len(), |i: int| self.workers.spec_keys()[i]@)
    }

    /// The supported worker versions.
    pub closed spec fn versions(&self) -> SupportedVersions {
        self.versions
    }

    /// The settings that the registry was made with.
    pub closed spec fn settings(&self) -> StateSettings {
        self.settings
    }

    /// The registry is consistent.
    pub closed spec fn wf(&self) -> bool {
        &&& self.workers.wf()
        &&& settings_error(self.settings) is None
        &&& forall|i: int|
            0 <= i < self.workers.spec_values().len() ==> (#[trigger] self.workers.spec_values()[i]).wf(
                self.versions,
                self.settings,
            )
    }

    /// The priority that a worker starts with: zero, moved into the bounds.
    pub open spec fn initial_priority(&self) -> i8 {
        clamp_priority(0, self.settings().min_worker_priority, self.settings().max_worker_priority)
    }

    /// What is known of `peer`; of a peer never heard of, nothing.
    pub open spec fn state_of(&self, peer: Seq<char>) -> WorkerView {
        if self.workers().contains_key(peer) {
            self.workers()[peer]
        } else {
            WorkerView::unknown(self.initial_priority())
        }
    }

    /// Every worker of a consistent registry runs a supported version, has its
    /// priority within the bounds, and stands once in the order.
    pub proof fn lemma_wf(&self)
        requires
            self.wf(),
        ensures
            self.settings().min_worker_priority <= self.settings().max_worker_priority,
            self.settings().greylist_duration > 0,
            self.settings().allocation_backoff > 0,
            forall|p: Seq<char>| #[trigger]
                self.workers().contains_key(p) ==> {
                    &&& self.workers()[p].version matches Some(v) ==> self.versions().admits(v)
                    &&& self.settings().min_worker_priority <= self.workers()[p].priority
                        <= self.settings().max_worker_priority
                },
            forall|p: Seq<char>| self.workers().contains_key(p) <==> self.worker_order().contains(p),
            forall|i: int, j: int|
                0 <= i < j < self.worker_order().len() ==> self.worker_order()[i] != self.worker_order()[j],
    {
        assert forall|p: Seq<char>| #[trigger] self.workers().contains_key(p) implies {
            &&& self.workers()[p].version matches Some(v) ==> self.versions().admits(v)
            &&& self.settings().min_worker_priority <= self.workers()[p].priority
                <= self.settings().max_worker_priority
        } by {
            let i = choose|i: int| 0 <= i < self.workers.spec_keys().len() && #[trigger] self.workers.spec_keys()[i]@ == p;
            self.workers.lemma_entry(i);
            assert(self.workers.spec_values()[i].wf(self.versions, self.settings));
        }
        assert forall|p: Seq<char>| self.workers().contains_key(p) <==> self.worker_order().contains(p) by {
            if self.workers().contains_key(p) {
                let i = choose|i: int| 0 <= i < self.workers.spec_keys().len() && #[trigger] self.workers.spec_keys()[i]@ == p;
                assert(self.worker_order()[i] == p);
            }
            if self.worker_order().contains(p) {
                let i = choose|i: int| 0 <= i < self.worker_order().len() && self.worker_order()[i] == p;
                assert(self.workers.spec_keys()[i]@ == p);
            }
        }
    }

    /// A registry that holds the workers of `roster`, of which nothing is known
    /// yet. The priority bounds must be in order, and both durations above zero.
    pub fn new(versions: SupportedVersions, settings: StateSettings, roster: &Vec<PeerId>) -> (res: Result<
        NetworkState,
        StateError,
    >)
        ensures
            settings_error(settings) matches Some(e) ==> res == Err::<NetworkState, StateError>(e),
            settings_error(settings) is None ==> res is Ok,
            res matches Ok(s) ==> {
                &&& s.wf()
                &&& s.versions() == versions
                &&& s.settings() == settings
                &&& forall|p: Seq<char>|
                    s.workers().contains_key(p) <==> exists|i: int| 0 <= i < roster.len() && (#[trigger] roster[i])@ == p
                &&& forall|p: Seq<char>| #[trigger]
                    s.workers().contains_key(p) ==> s.workers()[p] == WorkerView::unknown(s.initial_priority())
            },
    {
        if settings.min_worker_priority > settings.max_worker_priority {
            return Err(StateError::PriorityBoundsInverted);
        }
        if settings.greylist_duration == 0 || settings.allocation_backoff == 0 {
            return Err(StateError::ZeroDuration);
        }
        let mut state = NetworkState { workers: Table::new(), versions, settings };
        let mut i: usize = 0;
        while i < roster.len()
            invariant
                i <= roster.len(),
                state.wf(),
                state.versions == versions,
                state.settings == settings,
                forall|p: Seq<char>|
                    state.workers().contains_key(p) <==> exists|j: int| 0 <= j < i && (#[trigger] roster[j])@ == p,
                forall|p: Seq<char>| #[trigger]
                    state.workers().contains_key(p) ==> state.workers()[p] == WorkerView::unknown(
                        state.initial_priority(),
                    ),
            decreases roster.len() - i,
        {
            let ghost before = state;
            let _ = state.entry_index(&roster[i]);
            proof {
                assert forall|p: Seq<char>| state.workers().contains_key(p) <==> exists|j: int|
                    0 <= j < i + 1 && (#[trigger] roster[j])@ == p by {
                    if state.workers().contains_key(p) && p != roster[i as int]@ {
                        assert(before.workers().contains_key(p));
                        let j = choose|j: int| 0 <= j < i && (#[trigger] roster[j])@ == p;
                        assert(0 <= j < i + 1 && roster[j]@ == p);
                    }
                    if exists|j: int| 0 <= j < i + 1 && (#[trigger] roster[j])@ == p {
                        let j = choose|j: int| 0 <= j < i + 1 && (#[trigger] roster[j])@ == p;
                        if j < i {
                            assert(before.workers().contains_key(p));
                        }
                    }
                }
            }
            i = i + 1;
        }
        Ok(state)
    }

    /// The position of the record of `peer`, which is made first where the
    /// registry has none.
    fn entry_index(&mut self, peer: &PeerId) -> (i: usize)
        requires
            old(self).wf(),
        ensures
            final(self).wf(),
            final(self).versions == old(self).versions,
            final(self).settings == old(self).settings,
            final(self).workers() == old(self).workers().insert(peer@, old(self).state_of(peer@)),
            i < final(self).workers.spec_keys().len(),
            final(self).workers.spec_keys()[i as int]@ == peer@,
            final(self).workers.spec_values()[i as int]@ == old(self).state_of(peer@),
            old(self).workers().contains_key(peer@) ==> final(self).workers.spec_keys() == old(self).workers.spec_keys(),
            !old(self).workers().contains_key(peer@) ==> final(self).workers.spec_keys() == old(
                self,
            ).workers.spec_keys().push(peer.0),
    {
        match self.workers.index_of(&peer.0) {
            Some(i) => {
                proof {
                    self.workers.lemma_entry(i as int);
                    assert(self.workers() =~= self.workers().insert(peer@, self.state_of(peer@)));
                }
                i
            },
            None => {
                let ghost before = *self;
                let fresh = WorkerState::unknown(
                    clamp(0, self.settings.min_worker_priority, self.settings.max_worker_priority),
                );
                self.workers.insert(peer.0.clone(), fresh);
                let n: usize = self.workers.len();
                proof {
                    let i = (n - 1) as int;
                    assert(self.workers.spec_keys()[i] == peer.0);
                    self.workers.lemma_entry(i);
                    assert forall|j: int| 0 <= j < self.workers.spec_values().len() implies (#[trigger] self.workers.spec_values()[j]).wf(
                        self.versions,
                        self.settings,
                    ) by {
                        self.workers.lemma_entry(j);
                        if j < i {
                            before.workers.lemma_entry(j);
                            assert(before.workers.spec_values()[j].wf(before.versions, before.settings));
                        }
                    }
                    assert(self.workers() =~= before.workers().insert(peer@, before.state_of(peer@)));
                }
                n - 1
            },
        }
    }

    /// Takes the record of `peer` out for a change, leaving an empty record in
    /// its place.
    fn take_entry(&mut self, peer: &PeerId) -> (res: (usize, WorkerState))
        requires
            old(self).wf(),
        ensures
            final(self).wf(),
            final(self).versions == old(self).versions,
            final(self).settings == old(self).settings,
            final(self).worker_order() == old(self).order_with(peer@),
            res.0 < final(self).workers.spec_keys().len(),
            final(self).workers.spec_keys()[res.0 as int]@ == peer@,
            res.1@ == old(self).state_of(peer@),
            res.1.wf(old(self).versions, old(self).settings),
            final(self).workers().insert(peer@, res.1@) == old(self).workers().insert(peer@, res.1@),
    {
        let ghost start = *self;
        let i = self.entry_index(peer);
        let ghost before = *self;
        let blank = WorkerState::unknown(
            clamp(0, self.settings.min_worker_priority, self.settings.max_worker_priority),
        );
        proof {
            assert(before.workers.spec_values()[i as int].wf(before.versions, before.settings));
            if start.workers().contains_key(peer@) {
                assert(before.worker_order() =~= start.worker_order());
            } else {
                assert(before.worker_order() =~= start.worker_order().push(peer@));
            }
        }
        let w = self.workers.replace_at(i, blank);
        proof {
            assert forall|j: int| 0 <= j < self.workers.spec_values().len() implies (#[trigger] self.workers.spec_values()[j]).wf(
                self.versions,
                self.settings,
            ) by {
                if j != i {
                    assert(before.workers.spec_values()[j].wf(before.versions, before.settings));
                }
            }
            assert(self.worker_order() =~= before.worker_order());
            assert(self.workers().insert(peer@, w@) =~= start.workers().insert(peer@, w@));
        }
        (i, w)
    }

    /// Puts a record back at position `i`.
    fn put_entry(&mut self, i: usize, w: WorkerState)
        requires
            old(self).wf(),
            i < old(self).workers.spec_keys().len(),
            w.wf(old(self).versions, old(self).settings),
        ensures
            final(self).wf(),
            final(self).versions == old(self).versions,
            final(self).settings == old(self).settings,
            final(self).worker_order() == old(self).worker_order(),
            final(self).workers() == old(self).workers().insert(old(self).workers.spec_keys()[i as int]@, w@),
    {
        let ghost before = *self;
        self.workers.set_at(i, w);
        proof {
            assert forall|j: int| 0 <= j < self.workers.spec_values().len() implies (#[trigger] self.workers.spec_values()[j]).wf(
                self.versions,
                self.settings,
            ) by {
                if j != i {
                    assert(before.workers.spec_values()[j].wf(before.versions, before.settings));
                }
            }
            assert(self.worker_order() =~= before.worker_order());
            assert(self.workers() =~= before.workers().insert(before.workers.spec_keys()[i as int]@, w@));
        }
    }

    /// The order of the workers once `peer` is known: a peer not heard of before
    /// comes last.
    pub open spec fn order_with(&self, peer: Seq<char>) -> Seq<Seq<char>> {
        if self.workers().contains_key(peer) {
            self.worker_order()
        } else {
            self.worker_order().push(peer)
        }
    }

    /// Whether `after` is this registry with `peer` greylisted at `now` and
    /// nothing else changed.
    pub open spec fn greylisted_to(&self, after: &NetworkState, peer: Seq<char>, now: u64) -> bool {
        &&& after.same_rules(self)
        &&& after.worker_order() == self.order_with(peer)
        &&& after.workers() == self.workers().insert(
            peer,
            WorkerView {
                greylist_until: Some(deadline_after(now, self.settings().greylist_duration)),
                ..self.state_of(peer)
            },
        )
    }

    /// Whether `after` is this registry with `peer` noted at `now` as without
    /// compute units and nothing else changed.
    pub open spec fn backed_off_to(&self, after: &NetworkState, peer: Seq<char>, now: u64) -> bool {
        &&& after.same_rules(self)
        &&& after.worker_order() == self.order_with(peer)
        &&& after.workers() == self.workers().insert(
            peer,
            WorkerView {
                missing_allocation_until: Some(deadline_after(now, self.settings().allocation_backoff)),
                ..self.state_of(peer)
            },
        )
    }

    /// Whether `after` is this registry once it took note at `now` of the reply
    /// of `worker`: a server error greylists the worker, a want of compute units
    /// is noted, and any other reply changes nothing.
    pub open spec fn replied_to(&self, after: &NetworkState, worker: Seq<char>, reply: WorkerReply, now: u64) -> bool {
        match reply {
            WorkerReply::ServerError(_) => self.greylisted_to(after, worker, now),
            WorkerReply::NoAllocation => self.backed_off_to(after, worker, now),
            _ => self.same_as(after),
        }
    }

    /// Whether `after` holds of every worker what this registry holds.
    pub open spec fn same_as(&self, after: &NetworkState) -> bool {
        &&& after.same_rules(self)
        &&& after.worker_order() == self.worker_order()
        &&& after.workers() == self.workers()
    }

    /// Whether `after` is this registry once the ping of `peer` was handled at
    /// `now`: taken where its version is supported, else ignored.
    pub open spec fn pinged_to(&self, after: &NetworkState, peer: Seq<char>, ping: Ping, now: u64) -> bool {
        if ping.version matches Some(v) && self.versions().admits(v@) {
            &&& after.same_rules(self)
            &&& after.worker_order() == self.order_with(peer)
            &&& after.workers() == self.after_ping(peer, ping.stored_ranges@, ping.version.unwrap()@, now)
        } else {
            self.same_as(after)
        }
    }

    /// Whether the rest of the registry is as before: versions and settings.
    pub open spec fn same_rules(&self, other: &NetworkState) -> bool {
        self.versions() == other.versions() && self.settings() == other.settings()
    }

    /// Leaves `peer` out of worker selection for the greylist duration from
    /// `now`.
    pub fn greylist_worker(&mut self, peer: &PeerId, now: u64)
        requires
            old(self).wf(),
        ensures
            final(self).wf(),
            final(self).same_rules(old(self)),
            final(self).worker_order() == old(self).order_with(peer@),
            final(self).workers() == old(self).workers().insert(
                peer@,
                WorkerView {
                    greylist_until: Some(deadline_after(now, old(self).settings().greylist_duration)),
                    ..old(self).state_of(peer@)
                },
            ),
    {
        let (i, mut w) = self.take_entry(peer);
        w.greylist_until = Some(add_duration(now, self.settings.greylist_duration));
        let ghost mid = *self;
        self.put_entry(i, w);
        proof {
            assert(self.workers() =~= mid.workers().insert(peer@, old(self).state_of(peer@)).insert(peer@, w@));
            assert(self.workers() =~= old(self).workers().insert(peer@, w@));
        }
    }

    /// Records that `peer` has no compute units left for this gateway: it is left
    /// out of worker selection for the allocation backoff from `now`.
    pub fn no_allocation_for_worker(&mut self, peer: &PeerId, now: u64)
        requires
            old(self).wf(),
        ensures
            final(self).wf(),
            final(self).same_rules(old(self)),
            final(self).worker_order() == old(self).order_with(peer@),
            final(self).workers() == old(self).workers().insert(
                peer@,
                WorkerView {
                    missing_allocation_until: Some(deadline_after(now, old(self).settings().allocation_backoff)),
                    ..old(self).state_of(peer@)
                },
            ),
    {
        let (i, mut w) = self.take_entry(peer);
        w.missing_allocation_until = Some(add_duration(now, self.settings.allocation_backoff));
        let ghost mid = *self;
        self.put_entry(i, w);
        proof {
            assert(self.workers() =~= mid.workers().insert(peer@, old(self).state_of(peer@)).insert(peer@, w@));
            assert(self.workers() =~= old(self).workers().insert(peer@, w@));
        }
    }

    /// Moves the priority of `peer` by `delta`, within the bounds.
    pub fn adjust_priority(&mut self, peer: &PeerId, delta: i8)
        requires
            old(self).wf(),
        ensures
            final(self).wf(),
            final(self).same_rules(old(self)),
            final(self).worker_order() == old(self).order_with(peer@),
            final(self).workers() == old(self).workers().insert(
                peer@,
                WorkerView {
                    priority: clamp_priority(
                        old(self).state_of(peer@).priority + delta,
                        old(self).settings().min_worker_priority,
                        old(self).settings().max_worker_priority,
                    ),
                    ..old(self).state_of(peer@)
                },
            ),
    {
        let (i, mut w) = self.take_entry(peer);
        let min = self.settings.min_worker_priority;
        let max = self.settings.max_worker_priority;
        let moved: i16 = w.priority as i16 + delta as i16;
        w.priority = if moved < min as i16 {
            min
        } else if moved > max as i16 {
            max
        } else {
            moved as i8
        };
        let ghost mid = *self;
        self.put_entry(i, w);
        proof {
            assert(self.workers() =~= mid.workers().insert(peer@, old(self).state_of(peer@)).insert(peer@, w@));
            assert(self.workers() =~= old(self).workers().insert(peer@, w@));
        }
    }

    /// Whether `peer` is not known to lack compute units at `now`.
    pub fn worker_has_allocation(&self, peer: &PeerId, now: u64) -> (b: bool)
        requires
            self.wf(),
        ensures
            b == deadline_elapsed(self.state_of(peer@).missing_allocation_until, now),
    {
        match self.workers.get(&peer.0) {
            Some(w) => elapsed(&w.missing_allocation_until, now),
            None => true,
        }
    }

    /// Until when `peer` is greylisted, if it was.
    pub fn greylist_until(&self, peer: &PeerId) -> (t: Option<u64>)
        requires
            self.wf(),
        ensures
            t == self.state_of(peer@).greylist_until,
    {
        match self.workers.get(&peer.0) {
            Some(w) => w.greylist_until,
            None => None,
        }
    }

    /// Until when `peer` counts as without compute units, if it does.
    pub fn missing_allocation_until(&self, peer: &PeerId) -> (t: Option<u64>)
        requires
            self.wf(),
        ensures
            t == self.state_of(peer@).missing_allocation_until,
    {
        match self.workers.get(&peer.0) {
            Some(w) => w.missing_allocation_until,
            None => None,
        }
    }

    /// When `peer` was last heard of.
    pub fn last_seen(&self, peer: &PeerId) -> (t: Option<u64>)
        requires
            self.wf(),
        ensures
            t == self.state_of(peer@).last_seen,
    {
        match self.workers.get(&peer.0) {
            Some(w) => w.last_seen,
            None => None,
        }
    }

    /// The priority of `peer`.
    pub fn priority(&self, peer: &PeerId) -> (p: i8)
        requires
            self.wf(),
        ensures
            p == self.state_of(peer@).priority,
    {
        match self.workers.get(&peer.0) {
            Some(w) => w.priority,
            None => clamp(0, self.settings.min_worker_priority, self.settings.max_worker_priority),
        }
    }

    /// The number of workers that the registry has heard of.
    pub fn worker_count(&self) -> (n: usize)
        requires
            self.wf(),
        ensures
            n == self.worker_order().len(),
    {
        self.workers.len()
    }

    /// What a supported worker's ping does to the registry: the reported ranges
    /// replace the stored ones, and the worker counts as seen at `now`. Greylist,
    /// allocation backoff and priority stay.
    pub open spec fn after_ping(&self, peer: Seq<char>, stored: Seq<StoredRanges>, version: Seq<char>, now: u64)
        -> Map<Seq<char>, WorkerView> {
        self.workers().insert(
            peer,
            WorkerView {
                ranges: ranges_by_dataset(stored),
                version: Some(version),
                last_seen: Some(now),
                ..self.state_of(peer)
            },
        )
    }

    /// Handles the ping of `peer`, received at `now`. A ping without a version,
    /// or with one that is not supported, is ignored. Returns whether the ping was
    /// taken.
    pub fn handle_ping(&mut self, peer: &PeerId, ping: &Ping, now: u64) -> (taken: bool)
        requires
            old(self).wf(),
        ensures
            final(self).wf(),
            final(self).same_rules(old(self)),
            taken == (ping.version matches Some(v) && old(self).versions().admits(v@)),
            !taken ==> final(self).workers() == old(self).workers() && final(self).worker_order() == old(
                self,
            ).worker_order(),
            taken ==> final(self).worker_order() == old(self).order_with(peer@) && final(self).workers() == old(
                self,
            ).after_ping(peer@, ping.stored_ranges@, ping.version.unwrap()@, now),
    {
        match &ping.version {
            None => false,
            Some(version) => {
                if !self.versions.supports(version.as_str()) {
                    return false;
                }
                let ranges = collect_ranges(&ping.stored_ranges);
                let (i, mut w) = self.take_entry(peer);
                w.stored_ranges = ranges;
                w.version = Some(version.clone());
                w.last_seen = Some(now);
                let ghost mid = *self;
                proof {
                    assert(w@.ranges =~= ranges_by_dataset(ping.stored_ranges@));
                }
                self.put_entry(i, w);
                proof {
                    assert(self.workers() =~= mid.workers().insert(peer@, old(self).state_of(peer@)).insert(
                        peer@,
                        w@,
                    ));
                    assert(self.workers() =~= old(self).workers().insert(peer@, w@));
                }
                true
            },
        }
    }

    fn worker_available(&self, w: &WorkerState, now: u64) -> (b: bool)
        requires
            w.wf(self.versions, self.settings),
        ensures
            b == w@.available(self.versions, self.settings, now),
    {
        let seen = match w.last_seen {
            Some(t) => t >= now || now - t <= self.settings.worker_inactive_threshold,
            None => false,
        };
        seen && elapsed(&w.greylist_until, now) && elapsed(&w.missing_allocation_until, now)
            && w.version.is_some()
    }

    /// Whether `peer` may be given a query for `block` of `dataset` at `now`.
    pub fn is_eligible(&self, peer: &PeerId, dataset: &DatasetId, block: u64, now: u64) -> (b: bool)
        requires
            self.wf(),
        ensures
            b == self.state_of(peer@).eligible(self.versions(), self.settings(), dataset@, block as int, now),
    {
        match self.workers.index_of(&peer.0) {
            None => false,
            Some(i) => {
                proof {
                    self.workers.lemma_entry(i as int);
                    assert(self.workers.spec_values()[i as int].wf(self.versions, self.settings));
                }
                let w = self.workers.value_at(i);
                self.worker_available(w, now) && worker_covers(w, dataset, block)
            },
        }
    }

    /// Whether the worker at position `i` of the order may be given the query and
    /// is not among `excluded`.
    pub open spec fn is_candidate(
        &self,
        i: int,
        dataset: Seq<char>,
        block: u64,
        now: u64,
        excluded: Seq<PeerId>,
    ) -> bool {
        &&& 0 <= i < self.worker_order().len()
        &&& self.state_of(self.worker_order()[i]).eligible(
            self.versions(),
            self.settings(),
            dataset,
            block as int,
            now,
        )
        &&& !peer_listed(excluded, self.worker_order()[i])
    }

    /// Whether the worker at position `i` is chosen before the one at `j`: the
    /// higher priority wins, then the lower selection hash, then the earlier place
    /// in the order.
    pub open spec fn outranks(&self, i: int, j: int, dataset: Seq<char>, block: u64) -> bool {
        let pi = self.state_of(self.worker_order()[i]).priority;
        let pj = self.state_of(self.worker_order()[j]).priority;
        let hi = selection_hash(self.worker_order()[i], dataset, block);
        let hj = selection_hash(self.worker_order()[j], dataset, block);
        pi > pj || (pi == pj && (hi < hj || (hi == hj && i < j)))
    }

    /// Whether `res` is the worker to query for `block` of `dataset` at `now`
    /// with those in `excluded` left out: none where no worker is eligible, else
    /// the eligible worker that outranks all others.
    pub open spec fn is_selection(
        &self,
        res: Option<PeerId>,
        dataset: Seq<char>,
        block: u64,
        now: u64,
        excluded: Seq<PeerId>,
    ) -> bool {
        match res {
            None => forall|i: int| !self.is_candidate(i, dataset, block, now, excluded),
            Some(p) => exists|k: int|
                {
                    &&& #[trigger] self.is_candidate(k, dataset, block, now, excluded)
                    &&& self.worker_order()[k] == p@
                    &&& forall|i: int|
                        i != k && #[trigger] self.is_candidate(i, dataset, block, now, excluded) ==> self.outranks(
                            k,
                            i,
                            dataset,
                            block,
                        )
                },
        }
    }

    /// The worker to query for `block` of `dataset` at `now`, leaving out those
    /// in `excluded`: among the eligible workers the one that outranks all others.
    pub fn find_worker_excluding(&self, dataset: &DatasetId, block: u64, now: u64, excluded: &Vec<PeerId>) -> (res:
        Option<PeerId>)
        requires
            self.wf(),
        ensures
            self.is_selection(res, dataset@, block, now, excluded@),
    {
        let n: usize = self.workers.len();
        let mut best: Option<usize> = None;
        let mut best_priority: i8 = 0;
        let mut best_hash: u64 = 0;
        let mut i: usize = 0;
        while i < n
            invariant
                i <= n,
                n == self.workers.spec_keys().len(),
                n == self.worker_order().len(),
                self.wf(),
                best is None ==> forall|j: int| 0 <= j < i ==> !self.is_candidate(j, dataset@, block, now, excluded@),
                best matches Some(k) ==> {
                    &&& k < i
                    &&& self.is_candidate(k as int, dataset@, block, now, excluded@)
                    &&& best_priority == self.state_of(self.worker_order()[k as int]).priority
                    &&& best_hash == selection_hash(self.worker_order()[k as int], dataset@, block)
                    &&& forall|j: int|
                        0 <= j < i && j != k && #[trigger] self.is_candidate(j, dataset@, block, now, excluded@)
                            ==> self.outranks(k as int, j, dataset@, block)
                },
            decreases n - i,
        {
            proof {
                self.workers.lemma_entry(i as int);
                assert(self.workers.spec_values()[i as int].wf(self.versions, self.settings));
                assert(self.worker_order()[i as int] == self.workers.spec_keys()[i as int]@);
            }
            let key = self.workers.key_at(i);
            let w = self.workers.value_at(i);
            if self.worker_available(w, now) && worker_covers(w, dataset, block) && !listed(excluded, key) {
                let h = hash_selection(key, dataset, block);
                let better = match best {
                    None => true,
                    Some(_) => w.priority > best_priority || (w.priority == best_priority && h < best_hash),
                };
                if better {
                    best = Some(i);
                    best_priority = w.priority;
                    best_hash = h;
                }
            }
            i = i + 1;
        }
        match best {
            None => None,
            Some(k) => Some(PeerId(self.workers.key_at(k).clone())),
        }
    }

    /// The worker to query for `block` of `dataset` at `now`.
    pub fn find_worker(&self, dataset: &DatasetId, block: u64, now: u64) -> (res: Option<PeerId>)
        requires
            self.wf(),
        ensures
            self.is_selection(res, dataset@, block, now, Seq::empty()),
    {
        let none: Vec<PeerId> = Vec::new();
        self.find_worker_excluding(dataset, block, now, &none)
    }

    /// Whether the worker at position `i` of the order is available at `now` and
    /// reports a `j`-th range of `dataset`.
    pub open spec fn height_source(&self, i: int, j: int, dataset: Seq<char>, now: u64) -> bool {
        &&& 0 <= i < self.worker_order().len()
        &&& self.state_of(self.worker_order()[i]).available(self.versions(), self.settings(), now)
        &&& self.state_of(self.worker_order()[i]).ranges.contains_key(dataset)
        &&& 0 <= j < self.state_of(self.worker_order()[i]).ranges[dataset].len()
    }

    /// The last block of the `j`-th range of `dataset` that the worker at
    /// position `i` reports.
    pub open spec fn end_at(&self, i: int, j: int, dataset: Seq<char>) -> u32 {
        self.state_of(self.worker_order()[i]).ranges[dataset][j].end
    }

    /// Whether `h` is the height of `dataset` at `now`: the highest last block
    /// among the ranges that available workers report, and nothing where they
    /// report none.
    pub open spec fn is_height(&self, h: Option<u64>, dataset: Seq<char>, now: u64) -> bool {
        match h {
            None => forall|i: int, j: int| !self.height_source(i, j, dataset, now),
            Some(top) => {
                &&& exists|i: int, j: int| #[trigger]
                    self.height_source(i, j, dataset, now) && self.end_at(i, j, dataset) == top
                &&& forall|i: int, j: int| #[trigger]
                    self.height_source(i, j, dataset, now) ==> self.end_at(i, j, dataset) <= top
            },
        }
    }

    /// How many of the first `upto` workers of the order are available at `now`
    /// and report a range of `dataset`.
    pub open spec fn serving_count(&self, upto: int, dataset: Seq<char>, now: u64) -> nat
        decreases upto,
    {
        if upto <= 0 {
            0
        } else {
            self.serving_count(upto - 1, dataset, now) + if self.height_source(upto - 1, 0, dataset, now) {
                1nat
            } else {
                0nat
            }
        }
    }

    fn scan_dataset(&self, dataset: &DatasetId, now: u64) -> (res: (Option<u64>, usize))
        requires
            self.wf(),
        ensures
            self.is_height(res.0, dataset@, now),
            res.1 == self.serving_count(self.worker_order().len() as int, dataset@, now),
    {
        let n: usize = self.workers.len();
        let mut top: Option<u64> = None;
        let mut count: usize = 0;
        let ghost mut wi: int = 0;
        let ghost mut wj: int = 0;
        let mut i: usize = 0;
        while i < n
            invariant
                i <= n,
                n == self.workers.spec_keys().len(),
                n == self.worker_order().len(),
                self.wf(),
                count <= i,
                count == self.serving_count(i as int, dataset@, now),
                top is None ==> forall|a: int, b: int| 0 <= a < i ==> !self.height_source(a, b, dataset@, now),
                top matches Some(t) ==> {
                    &&& self.height_source(wi, wj, dataset@, now) && self.end_at(wi, wj, dataset@) == t
                    &&& forall|a: int, b: int|
                        0 <= a < i && #[trigger] self.height_source(a, b, dataset@, now) ==> self.end_at(
                            a,
                            b,
                            dataset@,
                        ) <= t
                },
            decreases n - i,
        {
            proof {
                self.workers.lemma_entry(i as int);
                assert(self.workers.spec_values()[i as int].wf(self.versions, self.settings));
                assert(self.worker_order()[i as int] == self.workers.spec_keys()[i as int]@);
            }
            let w = self.workers.value_at(i);
            let mut serves = false;
            if self.worker_available(w, now) {
                match w.stored_ranges.get(&dataset.0) {
                    None => {},
                    Some(ranges) => {
                        serves = ranges.len() > 0;
                        let mut j: usize = 0;
                        while j < ranges.len()
                            invariant
                                j <= ranges.len(),
                                i < n,
                                n == self.worker_order().len(),
                                self.state_of(self.worker_order()[i as int]).ranges.contains_key(dataset@),
                                self.state_of(self.worker_order()[i as int]).ranges[dataset@] == ranges@,
                                self.state_of(self.worker_order()[i as int]).available(
                                    self.versions(),
                                    self.settings(),
                                    now,
                                ),
                                top is None ==> j == 0 && forall|a: int, b: int|
                                    0 <= a < i ==> !self.height_source(a, b, dataset@, now),
                                top matches Some(t) ==> {
                                    &&& self.height_source(wi, wj, dataset@, now) && self.end_at(wi, wj, dataset@)
                                        == t
                                    &&& forall|a: int, b: int|
                                        0 <= a < i && #[trigger] self.height_source(a, b, dataset@, now)
                                            ==> self.end_at(a, b, dataset@) <= t
                                    &&& forall|b: int| 0 <= b < j ==> self.end_at(i as int, b, dataset@) <= t
                                },
                            decreases ranges.len() - j,
                        {
                            let end = ranges[j].end as u64;
                            proof {
                                assert(self.height_source(i as int, j as int, dataset@, now));
                                assert(self.end_at(i as int, j as int, dataset@) == end);
                            }
                            let higher = match top {
                                None => true,
                                Some(t) => end > t,
                            };
                            if higher {
                                top = Some(end);
                                proof {
                                    wi = i as int;
                                    wj = j as int;
                                }
                            }
                            j = j + 1;
                        }
                    },
                }
            }
            if serves {
                count = count + 1;
            }
            i = i + 1;
        }
        (top, count)
    }

    /// The height of `dataset` at `now`: the highest last block among the ranges
    /// that available workers report.
    pub fn get_height(&self, dataset: &DatasetId, now: u64) -> (h: Option<u64>)
        requires
            self.wf(),
        ensures
            self.is_height(h, dataset@, now),
    {
        self.scan_dataset(dataset, now).0
    }

    /// For each of `datasets` its height and the number of available workers
    /// that report a range of it.
    pub fn summary(&self, datasets: &Vec<DatasetId>, now: u64) -> (rows: Vec<DatasetSummary>)
        requires
            self.wf(),
        ensures
            rows.len() == datasets.len(),
            forall|k: int|
                0 <= k < rows.len() ==> {
                    &&& (#[trigger] rows[k]).dataset == datasets[k]
                    &&& self.is_height(rows[k].height, datasets[k]@, now)
                    &&& rows[k].workers == self.serving_count(self.worker_order().len() as int, datasets[k]@, now)
                },
    {
        let mut rows: Vec<DatasetSummary> = Vec::new();
        let mut k: usize = 0;
        while k < datasets.len()
            invariant
                k <= datasets.len(),
                self.wf(),
                rows.len() == k,
                forall|a: int|
                    0 <= a < k ==> {
                        &&& (#[trigger] rows[a]).dataset == datasets[a]
                        &&& self.is_height(rows[a].height, datasets[a]@, now)
                        &&& rows[a].workers == self.serving_count(
                            self.worker_order().len() as int,
                            datasets[a]@,
                            now,
                        )
                    },
            decreases datasets.len() - k,
        {
            let (height, workers) = self.scan_dataset(&datasets[k], now);
            rows.push(DatasetSummary { dataset: datasets[k].clone(), height, workers });
            k = k + 1;
        }
        rows
    }
}

/// One row of the summary: a dataset, its height, and how many workers serve
/// it.
#[derive(Debug, PartialEq, Eq)]
pub struct DatasetSummary {
    pub dataset: DatasetId,
    pub height: Option<u64>,
    pub workers: usize,
}

/// Whether `p` is one of `list`.
pub open spec fn peer_listed(list: Seq<PeerId>, p: Seq<char>) -> bool {
    exists|j: int| 0 <= j < list.len() && (#[trigger] list[j])@ == p
}

fn listed(list: &Vec<PeerId>, key: &String) -> (b: bool)
    ensures
        b == peer_listed(list@, key@),
{
    let mut j: usize = 0;
    while j < list.len()
        invariant
            j <= list.len(),
            forall|a: int| 0 <= a < j ==> (#[trigger] list[a])@ != key@,
        decreases list.len() - j,
    {
        if list[j].0 == *key {
            return true;
        }
        j = j + 1;
    }
    false
}

fn worker_covers(w: &WorkerState, dataset: &DatasetId, block: u64) -> (b: bool)
    requires
        w.stored_ranges.wf(),
    ensures
        b == w@.covers(dataset@, block as int),
{
    match w.stored_ranges.get(&dataset.0) {
        Some(ranges) => covers_block(ranges, block),
        None => false,
    }
}

/// One step of the selection hash: a byte is folded into the state.
pub open spec fn mix(h: u64, b: u8) -> u64 {
    (h ^ (b as u64)).wrapping_mul(0x0000_0100_0000_01b3u64)
}

/// The selection hash state after `bytes` were folded in, one after the other.
pub open spec fn mix_bytes(h: u64, bytes: Seq<u8>) -> u64
    decreases bytes.len(),
{
    if bytes.len() == 0 {
        h
    } else {
        mix(mix_bytes(h, bytes.drop_last()), bytes.last())
    }
}

/// The number by which workers of equal priority are told apart for a block of
/// a dataset: it spreads the blocks over the workers, and is the same whenever
/// the same worker, dataset and block are asked for.
pub open spec fn selection_hash(peer: Seq<char>, dataset: Seq<char>, block: u64) -> u64 {
    let h = mix_bytes(mix_bytes(0xcbf2_9ce4_8422_2325u64, encode_utf8(peer)), encode_utf8(dataset));
    scramble(h ^ block)
}

/// The last step of the selection hash: shifts and multiplications that carry
/// every bit of the block number into the bits that decide the order.
pub open spec fn scramble(x: u64) -> u64 {
    let a = (x ^ (x >> 33)).wrapping_mul(0xff51_afd7_ed55_8ccdu64);
    let b = (a ^ (a >> 33)).wrapping_mul(0xc4ce_b9fe_1a85_ec53u64);
    b ^ (b >> 33)
}

fn fold_bytes(h: u64, bytes: &[u8]) -> (res: u64)
    ensures
        res == mix_bytes(h, bytes@),
{
    let mut acc: u64 = h;
    let mut i: usize = 0;
    while i < bytes.len()
        invariant
            i <= bytes.len(),
            acc == mix_bytes(h, bytes@.take(i as int)),
        decreases bytes.len() - i,
    {
        proof {
            assert(bytes@.take(i + 1).drop_last() =~= bytes@.take(i as int));
            assert(bytes@.take(i + 1).last() == bytes@[i as int]);
        }
        acc = (acc ^ (bytes[i] as u64)).wrapping_mul(0x0000_0100_0000_01b3u64);
        i = i + 1;
    }
    proof {
        assert(bytes@.take(i as int) =~= bytes@);
    }
    acc
}

/// The selection hash of a worker for a block of a dataset.
pub fn hash_selection(peer: &String, dataset: &DatasetId, block: u64) -> (h: u64)
    ensures
        h == selection_hash(peer@, dataset@, block),
{
    let a = fold_bytes(0xcbf2_9ce4_8422_2325u64, peer.as_str().as_bytes());
    let b = fold_bytes(a, dataset.0.as_str().as_bytes());
    let x = b ^ block;
    let y = (x ^ (x >> 33)).wrapping_mul(0xff51_afd7_ed55_8ccdu64);
    let z = (y ^ (y >> 33)).wrapping_mul(0xc4ce_b9fe_1a85_ec53u64);
    z ^ (z >> 33)
}

/// After a ping of a supported version was taken at `seen`, the worker is
/// eligible for a block at `now` exactly when it is still active, the ping
/// reports a range of the dataset that holds the block, and neither its greylist
/// nor its allocation backoff, both left as they were, is running.
pub proof fn lemma_eligible_after_ping(
    before: NetworkState,
    after: NetworkState,
    peer: Seq<char>,
    stored: Seq<StoredRanges>,
    version: Seq<char>,
    seen: u64,
    dataset: Seq<char>,
    block: int,
    now: u64,
)
    requires
        before.versions().admits(version),
        after.same_rules(&before),
        after.workers() == before.after_ping(peer, stored, version, seen),
    ensures
        after.state_of(peer).eligible(after.versions(), after.settings(), dataset, block, now) <==> {
            &&& now - seen <= before.settings().worker_inactive_threshold
            &&& ranges_by_dataset(stored).contains_key(dataset)
            &&& ranges_cover(ranges_by_dataset(stored)[dataset], block)
            &&& deadline_elapsed(before.state_of(peer).greylist_until, now)
            &&& deadline_elapsed(before.state_of(peer).missing_allocation_until, now)
        },
{
}

/// Pings of one worker apply in the order of their arrival: after two pings
/// that were taken, the registry holds the ranges and the version of the later
/// one, and the time at which it came.
pub proof fn lemma_later_ping_wins(
    start: NetworkState,
    between: NetworkState,
    after: NetworkState,
    peer: Seq<char>,
    first: (Seq<StoredRanges>, Seq<char>, u64),
    second: (Seq<StoredRanges>, Seq<char>, u64),
)
    requires
        between.workers() == start.after_ping(peer, first.0, first.1, first.2),
        after.workers() == between.after_ping(peer, second.0, second.1, second.2),
    ensures
        after.workers() == start.after_ping(peer, second.0, second.1, second.2),
{
    assert(after.workers() =~= start.after_ping(peer, second.0, second.1, second.2));
}

/// A deadline set with a duration above zero lies after the time at which it
/// was set, unless that time is the last representable one.
pub proof fn lemma_deadline_lies_ahead(now: u64, duration: u64)
    requires
        duration > 0,
        now < u64::MAX,
    ensures
        deadline_after(now, duration) > now,
        !deadline_elapsed(Some(deadline_after(now, duration)), now),
{
}

/// After a worker was greylisted at `now` its greylist deadline lies after
/// `now`, and nothing else is changed: neither what else is known of it, nor any
/// other worker.
pub proof fn lemma_greylisting_sets_a_later_deadline(before: NetworkState, after: NetworkState, peer: Seq<char>, now: u64)
    requires
        before.wf(),
        before.greylisted_to(&after, peer, now),
        now < u64::MAX,
    ensures
        after.state_of(peer).greylist_until matches Some(t) && t > now,
        after.state_of(peer) == (WorkerView { greylist_until: after.state_of(peer).greylist_until, ..before.state_of(peer) }),
        forall|other: Seq<char>| other != peer ==> after.state_of(other) == before.state_of(other),
{
    before.lemma_wf();
}

/// After a worker was noted at `now` as without compute units its backoff
/// deadline lies after `now`, so that it counts as without allocation at `now`;
/// its greylist deadline and every other worker are as before.
pub proof fn lemma_backoff_sets_a_later_deadline(before: NetworkState, after: NetworkState, peer: Seq<char>, now: u64)
    requires
        before.wf(),
        before.backed_off_to(&after, peer, now),
        now < u64::MAX,
    ensures
        after.state_of(peer).missing_allocation_until matches Some(t) && t > now,
        !deadline_elapsed(after.state_of(peer).missing_allocation_until, now),
        after.state_of(peer).greylist_until == before.state_of(peer).greylist_until,
        forall|other: Seq<char>| other != peer ==> after.state_of(other) == before.state_of(other),
{
    before.lemma_wf();
}

/// A worker greylisted at `at` is eligible for nothing before the greylist
/// duration has passed, and the greylisting changes nothing else of what is known
/// of it or of any other worker.
pub proof fn lemma_greylisted_is_not_eligible(
    before: NetworkState,
    after: NetworkState,
    peer: Seq<char>,
    at: u64,
    dataset: Seq<char>,
    block: int,
    now: u64,
)
    requires
        after.same_rules(&before),
        after.workers() == before.workers().insert(
            peer,
            WorkerView {
                greylist_until: Some(deadline_after(at, before.settings().greylist_duration)),
                ..before.state_of(peer)
            },
        ),
        now < deadline_after(at, before.settings().greylist_duration),
    ensures
        !after.state_of(peer).eligible(after.versions(), after.settings(), dataset, block, now),
        forall|other: Seq<char>| other != peer ==> after.state_of(other) == before.state_of(other),
{
}

/// A worker that was never heard of, or only named in the roster, is eligible
/// for nothing.
pub proof fn lemma_unseen_is_not_eligible(state: NetworkState, peer: Seq<char>, dataset: Seq<char>, block: int, now: u64)
    requires
        state.state_of(peer).last_seen is None,
    ensures
        !state.state_of(peer).eligible(state.versions(), state.settings(), dataset, block, now),
{
}

} // verus!
