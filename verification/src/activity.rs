//! Per-daemon proxy activity: what the proxy is carrying for each daemon
//! right now, and when it last carried anything.
//!
//! Every unit of work the proxy does for a daemon is begun with
//! [`ActivityTracker::begin`] and ended with [`ActivityTracker::end`]. The
//! same tracker records a daemon being stopped for inactivity, so the two
//! cannot interleave: a stop is only claimed while nothing is in flight, and
//! nothing new begins while a stop is claimed. Times are nanoseconds on the
//! tracker's own clock.

use vstd::prelude::*;
use crate::text::str_eq;
use crate::throttle::{clock_reading, duration_as_nanos, duration_nanos, instant_now, nanos_since, saturated};

verus! {

/// A daemon, by namespace and name.
#[derive(Debug)]
pub struct DaemonId {
    pub namespace: String,
    pub name: String,
}

impl DaemonId {
    pub open spec fn view(&self) -> (Seq<char>, Seq<char>) {
        (self.namespace@, self.name@)
    }

    pub fn new(namespace: &str, name: &str) -> (d: DaemonId)
        ensures
            d@ == (namespace@, name@),
    {
        DaemonId { namespace: namespace.to_owned(), name: name.to_owned() }
    }

    /// The same daemon, as a value of its own.
    pub fn duplicate(&self) -> (d: DaemonId)
        ensures
            d@ == self@,
    {
        DaemonId { namespace: self.namespace.clone(), name: self.name.clone() }
    }

    /// Whether `self` and `other` name the same daemon.
    pub fn same(&self, other: &DaemonId) -> (r: bool)
        ensures
            r == (self@ == other@),
    {
        str_eq(self.namespace.as_str(), other.namespace.as_str()) && str_eq(self.name.as_str(), other.name.as_str())
    }
}

/// What the tracker holds for one daemon.
#[derive(Clone, Copy, Debug, PartialEq, Eq, Structural)]
pub struct Entry {
    /// Units of work under way.
    pub in_flight: usize,
    /// When the last unit of work began or ended, or when the daemon was
    /// first looked at if nothing has happened since.
    pub last_activity: u64,
    /// A stop for inactivity has been claimed and not yet released.
    pub idle_stopping: bool,
}

impl Entry {
    pub fn new(now: u64) -> (e: Entry)
        ensures
            e == fresh(now),
    {
        Entry { in_flight: 0, last_activity: now, idle_stopping: false }
    }
}

/// A daemon first looked at `now`.
pub open spec fn fresh(now: u64) -> Entry {
    Entry { in_flight: 0, last_activity: now, idle_stopping: false }
}

/// How long ago `then` was at `now`, nothing when the clock ran backwards.
pub open spec fn elapsed(then: u64, now: u64) -> u64 {
    if now >= then {
        (now - then) as u64
    } else {
        0
    }
}

/// How a daemon's activity looks from outside.
#[derive(Clone, Copy, Debug, PartialEq, Eq)]
pub struct ActivitySnapshot {
    pub in_flight: usize,
    /// Nanoseconds since the last activity.
    pub idle_for: u64,
    pub idle_stopping: bool,
}

/// One unit of proxy work for a daemon, ended with
/// [`ActivityTracker::end`].
///
/// A guard is a receipt, not a scope: dropping it does not end the work.
/// Whoever holds it must call [`ActivityTracker::end`] with its `id` once
/// the work is over, or the daemon keeps counting it as in flight.
#[derive(Debug)]
pub struct ActivityGuard {
    pub id: DaemonId,
}

/// Activity for every daemon the proxy has done anything for.
pub struct ActivityTracker {
    origin: std::time::Instant,
    ids: Vec<DaemonId>,
    entries: Vec<Entry>,
}

pub open spec fn id_views(ids: Seq<DaemonId>) -> Seq<(Seq<char>, Seq<char>)> {
    ids.map_values(|d: DaemonId| d@)
}

/// The first index at or after `i` where `ids` holds `id`.
pub open spec fn id_index_from(ids: Seq<(Seq<char>, Seq<char>)>, id: (Seq<char>, Seq<char>), i: int) -> Option<int>
    decreases ids.len() - i,
{
    if i < 0 || i >= ids.len() {
        None
    } else if ids[i] == id {
        Some(i)
    } else {
        id_index_from(ids, id, i + 1)
    }
}

proof fn lemma_id_index_from(ids: Seq<(Seq<char>, Seq<char>)>, id: (Seq<char>, Seq<char>), i: int)
    ensures
        id_index_from(ids, id, i) matches Some(k) ==> i <= k < ids.len() && ids[k] == id && forall|j: int|
            i <= j < k ==> ids[j] != id,
        id_index_from(ids, id, i) is None && 0 <= i ==> forall|k: int| i <= k < ids.len() ==> ids[k] != id,
    decreases ids.len() - i,
{
    if 0 <= i < ids.len() && ids[i] != id {
        lemma_id_index_from(ids, id, i + 1);
    }
}

/// Grow a count by one, staying at the largest `usize`.
/// Whether claiming `id` for a stop at clock reading `now`, with a grace
/// period of `grace` nanoseconds, gives `r` and leaves `after` as its entry:
/// the claim holds when nothing is in flight, no stop is under way, and the
/// grace period has passed since the last activity, and a held claim marks
/// the entry as stopping.
pub open spec fn claimed_at(
    before: ActivityTracker,
    id: (Seq<char>, Seq<char>),
    grace: u64,
    now: u64,
    r: bool,
    after: Option<Entry>,
) -> bool {
    let e = before.entry_or_fresh(id, now);
    &&& r == (!e.idle_stopping && e.in_flight == 0 && elapsed(e.last_activity, now) >= grace)
    &&& after == Some(
        if r {
            Entry { idle_stopping: true, ..e }
        } else {
            e
        },
    )
}

/// The work in flight recorded by `e`, none when there is no entry.
pub open spec fn in_flight_of(e: Option<Entry>) -> usize {
    match e {
        Some(x) => x.in_flight,
        None => 0,
    }
}

pub open spec fn bump(n: usize) -> usize {
    if n < usize::MAX {
        (n + 1) as usize
    } else {
        n
    }
}

/// The daemon a guard is for, if one was handed out.
pub open spec fn guard_id(r: Option<ActivityGuard>) -> Option<(Seq<char>, Seq<char>)> {
    match r {
        Some(g) => Some(g.id@),
        None => None,
    }
}

/// Whether beginning work for `id` at `now` took `before` to `after` and
/// handed out `r`: refused, with nothing changed but a fresh entry, while
/// the daemon is being stopped; otherwise one more unit in flight, the
/// daemon active as of `now`.
pub open spec fn began(
    before: ActivityTracker,
    after: ActivityTracker,
    id: (Seq<char>, Seq<char>),
    now: u64,
    r: Option<(Seq<char>, Seq<char>)>,
) -> bool {
    let e = before.entry_or_fresh(id, now);
    &&& after.same_except(before, id)
    &&& if e.idle_stopping {
        r is None && after.entry_of(id) == Some(e)
    } else {
        r == Some(id) && after.entry_of(id) == Some(
            Entry { in_flight: bump(e.in_flight), last_activity: now, idle_stopping: false },
        )
    }
}

/// Whether ending work for `id` at `now` took `before` to `after`: one unit
/// fewer in flight (never below none), the daemon active as of `now`; a
/// daemon never seen stays unseen.
pub open spec fn ended(before: ActivityTracker, after: ActivityTracker, id: (Seq<char>, Seq<char>), now: u64) -> bool {
    &&& after.same_except(before, id)
    &&& after.entry_of(id) == match before.entry_of(id) {
        Some(e) => Some(
            Entry {
                in_flight: if e.in_flight > 0 {
                    (e.in_flight - 1) as usize
                } else {
                    0
                },
                last_activity: now,
                idle_stopping: e.idle_stopping,
            },
        ),
        None => None,
    }
}

/// Whether a look at `id` at `now` took `before` to `after` and saw `s`: a
/// daemon never seen is recorded as of `now`, and `s` is what its entry
/// says, idle since its last activity.
pub open spec fn snapped(
    before: ActivityTracker,
    after: ActivityTracker,
    id: (Seq<char>, Seq<char>),
    now: u64,
    s: ActivitySnapshot,
) -> bool {
    let e = before.entry_or_fresh(id, now);
    &&& after.same_except(before, id)
    &&& after.entry_of(id) == Some(e)
    &&& s.in_flight == e.in_flight
    &&& s.idle_for == elapsed(e.last_activity, now)
    &&& s.idle_stopping == e.idle_stopping
}

/// Whether releasing a stop claim on `id` at `now` took `before` to
/// `after`: the claim is gone and the idle clock restarts at `now`.
pub open spec fn released(before: ActivityTracker, after: ActivityTracker, id: (Seq<char>, Seq<char>), now: u64) -> bool {
    &&& after.same_except(before, id)
    &&& after.entry_of(id) == match before.entry_of(id) {
        Some(e) => Some(Entry { idle_stopping: false, last_activity: now, ..e }),
        None => None,
    }
}

/// How many times `ids` names `k`.
pub open spec fn id_count(ids: Seq<(Seq<char>, Seq<char>)>, k: (Seq<char>, Seq<char>)) -> nat
    decreases ids.len(),
{
    if ids.len() == 0 {
        0
    } else {
        id_count(ids.drop_last(), k) + if ids.last() == k {
            1nat
        } else {
            0nat
        }
    }
}

/// `x` grown by one `c` times, staying at the largest `usize`.
pub open spec fn bump_n(x: usize, c: nat) -> usize {
    if x + c <= usize::MAX {
        (x + c) as usize
    } else {
        usize::MAX
    }
}

/// `x` lowered by one `c` times, never below zero.
pub open spec fn drop_n(x: usize, c: nat) -> usize {
    if x >= c {
        (x - c) as usize
    } else {
        0
    }
}

/// Whether `e` records a stop under way.
pub open spec fn stopping(e: Option<Entry>) -> bool {
    e matches Some(x) && x.idle_stopping
}

/// The first position at or after `i` whose daemon `t` records as being
/// stopped.
pub open spec fn first_stopping_from(t: ActivityTracker, ids: Seq<(Seq<char>, Seq<char>)>, i: int) -> Option<int>
    decreases ids.len() - i,
{
    if i < 0 || i >= ids.len() {
        None
    } else if stopping(t.entry_of(ids[i])) {
        Some(i)
    } else {
        first_stopping_from(t, ids, i + 1)
    }
}

/// The entry of `k` after work was begun once for each time `begun` names
/// it at `now`, and then ended once for each time `ended` names it.
pub open spec fn entry_after(
    before: ActivityTracker,
    begun: Seq<(Seq<char>, Seq<char>)>,
    ended: Seq<(Seq<char>, Seq<char>)>,
    now: u64,
    k: (Seq<char>, Seq<char>),
) -> Option<Entry> {
    if id_count(begun, k) == 0 {
        before.entry_of(k)
    } else {
        Some(
            Entry {
                in_flight: drop_n(bump_n(before.entry_or_fresh(k, now).in_flight, id_count(begun, k)), id_count(ended, k)),
                last_activity: now,
                idle_stopping: false,
            },
        )
    }
}

/// Whether beginning work for every daemon of `ids` at `now` took `before`
/// to `after` and handed out guards for `r`: when none of them is being
/// stopped, work is begun for each, as often as it is named; otherwise
/// nothing is handed out, and the work begun on the daemons before the
/// first one being stopped is ended again at `now`.
pub open spec fn began_all(
    before: ActivityTracker,
    after: ActivityTracker,
    ids: Seq<(Seq<char>, Seq<char>)>,
    now: u64,
    r: Option<Seq<(Seq<char>, Seq<char>)>>,
) -> bool {
    &&& after.clock() == before.clock()
    &&& match first_stopping_from(before, ids, 0) {
        None => r == Some(ids) && forall|k: (Seq<char>, Seq<char>)| #[trigger] after.entry_of(k) == entry_after(
            before,
            ids,
            Seq::empty(),
            now,
            k,
        ),
        Some(s) => r is None && forall|k: (Seq<char>, Seq<char>)| #[trigger] after.entry_of(k) == entry_after(
            before,
            ids.take(s),
            ids.take(s),
            now,
            k,
        ),
    }
}

/// The daemons guards were handed out for, if they were.
pub open spec fn guard_ids(r: Option<Vec<ActivityGuard>>) -> Option<Seq<(Seq<char>, Seq<char>)>> {
    match r {
        Some(gs) => Some(gs@.map_values(|g: ActivityGuard| g.id@)),
        None => None,
    }
}

proof fn lemma_first_stopping(t: ActivityTracker, ids: Seq<(Seq<char>, Seq<char>)>, m: int, i: int)
    requires
        0 <= m <= i <= ids.len(),
        forall|j: int| m <= j < i ==> !stopping(#[trigger] t.entry_of(ids[j])),
    ensures
        i < ids.len() && stopping(t.entry_of(ids[i])) ==> first_stopping_from(t, ids, m) == Some(i),
        i == ids.len() ==> first_stopping_from(t, ids, m) is None,
    decreases i - m,
{
    if m < i {
        assert(!stopping(t.entry_of(ids[m])));
        lemma_first_stopping(t, ids, m + 1, i);
    }
}

proof fn lemma_id_count_take(ids: Seq<(Seq<char>, Seq<char>)>, i: int, k: (Seq<char>, Seq<char>))
    requires
        0 <= i < ids.len(),
    ensures
        id_count(ids.take(i + 1), k) == id_count(ids.take(i), k) + if ids[i] == k {
            1nat
        } else {
            0nat
        },
{
    assert(ids.take(i + 1).drop_last() =~= ids.take(i));
}

proof fn lemma_id_count_positive(ids: Seq<(Seq<char>, Seq<char>)>, j: int)
    requires
        0 <= j < ids.len(),
    ensures
        id_count(ids, ids[j]) > 0,
    decreases ids.len(),
{
    if j < ids.len() - 1 {
        lemma_id_count_positive(ids.drop_last(), j);
    }
}

impl ActivityTracker {
    /// Each daemon is held once, and none is being stopped with work in
    /// flight.
    pub closed spec fn wf(self) -> bool {
        &&& self.ids@.len() == self.entries@.len()
        &&& forall|i: int, j: int|
            0 <= i < j < self.ids@.len() ==> #[trigger] self.ids@[i]@ != #[trigger] self.ids@[j]@
        &&& forall|i: int|
            0 <= i < self.entries@.len() && #[trigger] self.entries@[i].idle_stopping ==> self.entries@[i].in_flight
                == 0
    }

    /// What the tracker holds for `id`, if anything.
    pub closed spec fn entry_of(self, id: (Seq<char>, Seq<char>)) -> Option<Entry> {
        match id_index_from(id_views(self.ids@), id, 0) {
            Some(i) => Some(self.entries@[i]),
            None => None,
        }
    }

    /// The clock the tracker's times are on.
    pub closed spec fn clock(self) -> std::time::Instant {
        self.origin
    }

    /// What `id` has: its entry, or a fresh one as of `now`.
    pub open spec fn entry_or_fresh(self, id: (Seq<char>, Seq<char>), now: u64) -> Entry {
        match self.entry_of(id) {
            Some(e) => e,
            None => fresh(now),
        }
    }

    /// Every daemon other than `id` is held as it was in `other`.
    pub open spec fn same_except(self, other: ActivityTracker, id: (Seq<char>, Seq<char>)) -> bool {
        &&& forall|k: (Seq<char>, Seq<char>)| k != id ==> #[trigger] self.entry_of(k) == other.entry_of(k)
        &&& self.clock() == other.clock()
    }

    /// Law: a daemon being stopped for inactivity has no work in flight.
    pub proof fn law_stopping_means_idle(self, id: (Seq<char>, Seq<char>))
        requires
            self.wf(),
        ensures
            self.entry_of(id) matches Some(e) ==> (e.idle_stopping ==> e.in_flight == 0),
    {
        lemma_id_index_from(id_views(self.ids@), id, 0);
    }

    pub fn new() -> (t: ActivityTracker)
        ensures
            t.wf(),
            forall|k: (Seq<char>, Seq<char>)| #[trigger] t.entry_of(k) is None,
    {
        let t = ActivityTracker { origin: instant_now(), ids: Vec::new(), entries: Vec::new() };
        assert forall|k: (Seq<char>, Seq<char>)| #[trigger] t.entry_of(k) is None by {
            lemma_id_index_from(id_views(t.ids@), k, 0);
        }
        t
    }

    /// Where `id` is held.
    fn index_of(&self, id: &DaemonId) -> (r: Option<usize>)
        requires
            self.wf(),
        ensures
            match r {
                Some(i) => id_index_from(id_views(self.ids@), id@, 0) == Some(i as int),
                None => id_index_from(id_views(self.ids@), id@, 0) is None,
            },
            r matches Some(i) ==> i < self.entries@.len(),
    {
        let mut i: usize = 0;
        while i < self.ids.len()
            invariant
                self.wf(),
                i <= self.ids@.len(),
                id_index_from(id_views(self.ids@), id@, 0) == id_index_from(id_views(self.ids@), id@, i as int),
            decreases self.ids.len() - i,
        {
            assert(id_views(self.ids@)[i as int] == self.ids@[i as int]@);
            if self.ids[i].same(id) {
                return Some(i);
            }
            i += 1;
        }
        None
    }

    /// Where `id` is held, adding it as of `now` when it is not.
    fn index_or_insert(&mut self, id: &DaemonId, now: u64) -> (i: usize)
        requires
            old(self).wf(),
        ensures
            final(self).wf(),
            i < final(self).entries@.len(),
            final(self).entry_of(id@) == Some(old(self).entry_or_fresh(id@, now)),
            id_index_from(id_views(final(self).ids@), id@, 0) == Some(i as int),
            final(self).same_except(*old(self), id@),
            final(self).entries@[i as int] == old(self).entry_or_fresh(id@, now),
    {
        let ghost ids0 = id_views(self.ids@);
        proof { lemma_id_index_from(ids0, id@, 0); }
        match self.index_of(id) {
            Some(i) => {
                assert forall|k: (Seq<char>, Seq<char>)| k != id@ implies #[trigger] self.entry_of(k) == old(self).entry_of(k) by {}
                i
            },
            None => {
                let n = self.ids.len();
                self.ids.push(id.duplicate());
                self.entries.push(Entry::new(now));
                let ghost ids1 = id_views(self.ids@);
                assert(ids1 =~= ids0.push(id@));
                proof {
                    assert forall|k: (Seq<char>, Seq<char>)| k != id@ implies #[trigger] self.entry_of(k) == old(self).entry_of(k) by {
                        lemma_id_index_from(ids0, k, 0);
                        lemma_id_index_from(ids1, k, 0);
                        if let Some(x) = id_index_from(ids0, k, 0) {
                            assert(ids1[x] == k);
                            if let Some(y) = id_index_from(ids1, k, 0) {
                                assert(y == x);
                            }
                        } else {
                            if let Some(y) = id_index_from(ids1, k, 0) {
                                assert(ids1[y] == k);
                                assert(y < n);
                                assert(ids0[y] == k);
                            }
                        }
                    }
                    lemma_id_index_from(ids1, id@, 0);
                    assert(ids1[n as int] == id@);
                    if let Some(y) = id_index_from(ids1, id@, 0) {
                        if y < n {
                            assert(ids0[y] == id@);
                        }
                    }
                    assert forall|a: int, b: int| 0 <= a < b < self.ids@.len() implies #[trigger] self.ids@[a]@
                        != #[trigger] self.ids@[b]@ by {
                        if b == n {
                            assert(self.ids@[a]@ == ids0[a]);
                        }
                    }
                }
                n
            },
        }
    }

    /// Begin a unit of work for `id` at `now`.
    ///
    /// Returns `None` while the daemon is being stopped for inactivity: the
    /// caller should treat it as not running yet, rather than forward to a
    /// daemon that is going away.
    pub fn begin_at(&mut self, id: &DaemonId, now: u64) -> (r: Option<ActivityGuard>)
        requires
            old(self).wf(),
        ensures
            final(self).wf(),
            final(self).same_except(*old(self), id@),
            old(self).entry_or_fresh(id@, now).idle_stopping ==> r is None && final(self).entry_of(id@) == Some(
                old(self).entry_or_fresh(id@, now),
            ),
            !old(self).entry_or_fresh(id@, now).idle_stopping ==> (r matches Some(g) && g.id@ == id@
                && final(self).entry_of(id@) == Some(
                Entry {
                    in_flight: bump(old(self).entry_or_fresh(id@, now).in_flight),
                    last_activity: now,
                    idle_stopping: false,
                },
            )),
            began(*old(self), *final(self), id@, now, guard_id(r)),
    {
        let i = self.index_or_insert(id, now);
        let e = self.entries[i];
        if e.idle_stopping {
            return None;
        }
        let n = if e.in_flight < usize::MAX {
            e.in_flight + 1
        } else {
            e.in_flight
        };
        let ghost before = *self;
        self.entries.set(i, Entry { in_flight: n, last_activity: now, idle_stopping: false });
        proof {
            assert forall|k: (Seq<char>, Seq<char>)| k != id@ implies #[trigger] self.entry_of(k) == before.entry_of(k) by {
                lemma_id_index_from(id_views(self.ids@), k, 0);
                lemma_id_index_from(id_views(self.ids@), id@, 0);
            }
        }
        Some(ActivityGuard { id: id.duplicate() })
    }

    /// End a unit of work for `id` at `now`.
    pub fn end_at(&mut self, id: &DaemonId, now: u64)
        requires
            old(self).wf(),
        ensures
            final(self).wf(),
            final(self).same_except(*old(self), id@),
            final(self).entry_of(id@) == match old(self).entry_of(id@) {
                Some(e) => Some(
                    Entry {
                        in_flight: if e.in_flight > 0 {
                            (e.in_flight - 1) as usize
                        } else {
                            0
                        },
                        last_activity: now,
                        idle_stopping: e.idle_stopping,
                    },
                ),
                None => None,
            },
            ended(*old(self), *final(self), id@, now),
    {
        if let Some(i) = self.index_of(id) {
            let e = self.entries[i];
            let n = if e.in_flight > 0 {
                e.in_flight - 1
            } else {
                0
            };
            let ghost before = *self;
            self.entries.set(i, Entry { in_flight: n, last_activity: now, idle_stopping: e.idle_stopping });
            proof {
                assert forall|k: (Seq<char>, Seq<char>)| k != id@ implies #[trigger] self.entry_of(k) == before.entry_of(k) by {
                    lemma_id_index_from(id_views(self.ids@), k, 0);
                    lemma_id_index_from(id_views(self.ids@), id@, 0);
                }
            }
        }
    }

    /// Begin a unit of work for each of `ids` at `now`, or for none of them
    /// if any is being stopped for inactivity.
    ///
    /// Work begun on the daemons before the refused one is ended again, at
    /// `now`.
    pub fn begin_all_at(&mut self, ids: &[DaemonId], now: u64) -> (r: Option<Vec<ActivityGuard>>)
        requires
            old(self).wf(),
        ensures
            final(self).wf(),
            began_all(*old(self), *final(self), id_views(ids@), now, guard_ids(r)),
    {
        let ghost idv = id_views(ids@);
        let ghost t0 = *self;
        let mut guards: Vec<ActivityGuard> = Vec::new();
        let mut i: usize = 0;
        while i < ids.len()
            invariant
                self.wf(),
                t0 == *old(self),
                idv == id_views(ids@),
                i <= ids@.len(),
                self.clock() == t0.clock(),
                guards@.map_values(|g: ActivityGuard| g.id@) == idv.take(i as int),
                forall|j: int| 0 <= j < i ==> !stopping(#[trigger] t0.entry_of(idv[j])),
                forall|k: (Seq<char>, Seq<char>)| id_count(idv.take(i as int), k) > 0 ==> !stopping(#[trigger] t0.entry_of(k)),
                forall|k: (Seq<char>, Seq<char>)| #[trigger] self.entry_of(k) == entry_after(
                    t0,
                    idv.take(i as int),
                    Seq::empty(),
                    now,
                    k,
                ),
            decreases ids.len() - i,
        {
            let ghost before = *self;
            let ghost k0 = idv[i as int];
            assert(ids@[i as int]@ == k0);
            proof {
                assert forall|k: (Seq<char>, Seq<char>)| #![trigger id_count(idv.take(i + 1), k)]
                    id_count(idv.take(i + 1), k) == id_count(idv.take(i as int), k) + if idv[i as int] == k {
                        1nat
                    } else {
                        0nat
                    } by {
                    lemma_id_count_take(idv, i as int, k);
                }
            }
            match self.begin_at(&ids[i], now) {
                Some(g) => {
                    let ghost gb = guards@;
                    guards.push(g);
                    proof {
                        assert(before.entry_of(k0) == entry_after(t0, idv.take(i as int), Seq::empty(), now, k0));
                        assert(!before.entry_or_fresh(k0, now).idle_stopping);
                        assert(!stopping(t0.entry_of(k0))) by {
                            if id_count(idv.take(i as int), k0) == 0 {
                                assert(before.entry_of(k0) == t0.entry_of(k0));
                            }
                        }
                        assert forall|k: (Seq<char>, Seq<char>)| id_count(idv.take(i + 1), k) > 0 implies !stopping(
                            #[trigger] t0.entry_of(k),
                        ) by {
                            if k != k0 {
                                assert(id_count(idv.take(i as int), k) > 0);
                            }
                        }
                        assert(guards@.map_values(|g: ActivityGuard| g.id@) =~= gb.map_values(
                            |g: ActivityGuard| g.id@,
                        ).push(k0));
                        assert(idv.take(i + 1) =~= idv.take(i as int).push(k0));
                        assert forall|k: (Seq<char>, Seq<char>)| #[trigger] self.entry_of(k) == entry_after(
                            t0,
                            idv.take(i + 1),
                            Seq::empty(),
                            now,
                            k,
                        ) by {
                            assert(id_count(idv.take(i + 1), k) == id_count(idv.take(i as int), k) + if idv[i as int]
                                == k {
                                1nat
                            } else {
                                0nat
                            });
                            if k != k0 {
                                assert(self.entry_of(k) == before.entry_of(k));
                            }
                        }
                    }
                },
                None => {
                    // Work was begun on the daemons before this one: end it
                    // again, one `end_at` per guard taken.
                    proof {
                        assert(stopping(t0.entry_of(k0))) by {
                            if id_count(idv.take(i as int), k0) != 0 {
                                assert(!before.entry_or_fresh(k0, now).idle_stopping);
                            }
                        }
                        lemma_first_stopping(t0, idv, 0, i as int);
                    }
                    let ghost prefix = idv.take(i as int);
                    let mut j: usize = 0;
                    while j < guards.len()
                        invariant
                            self.wf(),
                            t0 == *old(self),
                            self.clock() == t0.clock(),
                            j <= guards@.len(),
                            guards@.map_values(|g: ActivityGuard| g.id@) == prefix,
                            forall|k: (Seq<char>, Seq<char>)| #[trigger] self.entry_of(k) == entry_after(
                                t0,
                                prefix,
                                prefix.take(j as int),
                                now,
                                k,
                            ),
                        decreases guards.len() - j,
                    {
                        let ghost b2 = *self;
                        let ghost kj = prefix[j as int];
                        assert(guards@[j as int].id@ == guards@.map_values(|g: ActivityGuard| g.id@)[j as int]);
                        proof {
                            lemma_id_count_positive(prefix, j as int);
                        }
                        self.end_at(&guards[j].id, now);
                        proof {
                            assert forall|k: (Seq<char>, Seq<char>)| #[trigger] self.entry_of(k) == entry_after(
                                t0,
                                prefix,
                                prefix.take(j + 1),
                                now,
                                k,
                            ) by {
                                lemma_id_count_take(prefix, j as int, k);
                                if k != kj {
                                    assert(self.entry_of(k) == b2.entry_of(k));
                                }
                            }
                        }
                        j += 1;
                    }
                    proof {
                        assert(prefix.take(j as int) =~= prefix);
                        assert(first_stopping_from(t0, idv, 0) == Some(i as int));
                        assert forall|k: (Seq<char>, Seq<char>)| #[trigger] self.entry_of(k) == entry_after(
                            t0,
                            idv.take(i as int),
                            idv.take(i as int),
                            now,
                            k,
                        ) by {
                            assert(self.entry_of(k) == entry_after(t0, prefix, prefix.take(j as int), now, k));
                        }
                        assert(guard_ids(None) is None);
                    }
                    return None;
                },
            }
            i += 1;
        }
        proof {
            lemma_first_stopping(t0, idv, 0, i as int);
            assert(idv.take(i as int) =~= idv);
        }
        Some(guards)
    }

    /// Current activity for `id` at `now`.
    ///
    /// A daemon the proxy has never seen is recorded as of now, so a daemon
    /// adopted from a previous supervisor gets a full grace period rather
    /// than being judged idle on the first look.
    pub fn snapshot_at(&mut self, id: &DaemonId, now: u64) -> (s: ActivitySnapshot)
        requires
            old(self).wf(),
        ensures
            final(self).wf(),
            final(self).same_except(*old(self), id@),
            final(self).entry_of(id@) == Some(old(self).entry_or_fresh(id@, now)),
            s.in_flight == old(self).entry_or_fresh(id@, now).in_flight,
            s.idle_for == elapsed(old(self).entry_or_fresh(id@, now).last_activity, now),
            s.idle_stopping == old(self).entry_or_fresh(id@, now).idle_stopping,
            s.idle_stopping ==> s.in_flight == 0,
            snapped(*old(self), *final(self), id@, now, s),
    {
        proof {
            lemma_id_index_from(id_views(old(self).ids@), id@, 0);
        }
        let i = self.index_or_insert(id, now);
        let e = self.entries[i];
        ActivitySnapshot {
            in_flight: e.in_flight,
            idle_for: now.saturating_sub(e.last_activity),
            idle_stopping: e.idle_stopping,
        }
    }

    /// Claim `id` at `now` for a stop, provided nothing is in flight and
    /// nothing has happened for at least `grace` nanoseconds.
    ///
    /// While the claim is held, [`Self::begin_at`] refuses new work for the
    /// daemon.
    pub fn claim_idle_stop_at(&mut self, id: &DaemonId, grace: u64, now: u64) -> (r: bool)
        requires
            old(self).wf(),
        ensures
            final(self).wf(),
            final(self).same_except(*old(self), id@),
            r == {
                let e = old(self).entry_or_fresh(id@, now);
                !e.idle_stopping && e.in_flight == 0 && elapsed(e.last_activity, now) >= grace
            },
            final(self).entry_of(id@) == Some(
                if r {
                    Entry { idle_stopping: true, ..old(self).entry_or_fresh(id@, now) }
                } else {
                    old(self).entry_or_fresh(id@, now)
                },
            ),
    {
        let i = self.index_or_insert(id, now);
        let e = self.entries[i];
        if e.idle_stopping || e.in_flight > 0 || now.saturating_sub(e.last_activity) < grace {
            return false;
        }
        let ghost before = *self;
        self.entries.set(i, Entry { idle_stopping: true, ..e });
        proof {
            assert forall|k: (Seq<char>, Seq<char>)| k != id@ implies #[trigger] self.entry_of(k) == before.entry_of(k) by {
                lemma_id_index_from(id_views(self.ids@), k, 0);
                lemma_id_index_from(id_views(self.ids@), id@, 0);
            }
        }
        true
    }

    /// Release at `now` a claim taken by [`Self::claim_idle_stop_at`].
    ///
    /// The idle clock restarts, so a stop that was called off does not
    /// leave the daemon immediately eligible again.
    pub fn release_idle_stop_at(&mut self, id: &DaemonId, now: u64)
        requires
            old(self).wf(),
        ensures
            final(self).wf(),
            final(self).same_except(*old(self), id@),
            final(self).entry_of(id@) == match old(self).entry_of(id@) {
                Some(e) => Some(Entry { idle_stopping: false, last_activity: now, ..e }),
                None => None,
            },
            released(*old(self), *final(self), id@, now),
    {
        if let Some(i) = self.index_of(id) {
            let e = self.entries[i];
            let ghost before = *self;
            self.entries.set(i, Entry { idle_stopping: false, last_activity: now, ..e });
            proof {
                assert forall|k: (Seq<char>, Seq<char>)| k != id@ implies #[trigger] self.entry_of(k) == before.entry_of(k) by {
                    lemma_id_index_from(id_views(self.ids@), k, 0);
                    lemma_id_index_from(id_views(self.ids@), id@, 0);
                }
            }
        }
    }

    /// Whether a stop for inactivity is under way for `id`.
    pub fn is_idle_stopping(&self, id: &DaemonId) -> (r: bool)
        requires
            self.wf(),
        ensures
            r == (self.entry_of(id@) matches Some(e) && e.idle_stopping),
    {
        match self.index_of(id) {
            Some(i) => self.entries[i].idle_stopping,
            None => false,
        }
    }

    /// Nanoseconds on the tracker's clock: the time elapsed since its origin.
    fn now(&self) -> (t: u64)
        ensures
            clock_reading(t),
    {
        nanos_since(&self.origin)
    }

    /// [`Self::begin_at`], now: what it states holds of the clock reading
    /// taken, whichever it was.
    pub fn begin(&mut self, id: &DaemonId) -> (r: Option<ActivityGuard>)
        requires
            old(self).wf(),
        ensures
            final(self).wf(),
            exists|t: u64| clock_reading(t) && #[trigger] began(*old(self), *final(self), id@, t, guard_id(r)),
    {
        let ghost before = *self;
        let now = self.now();
        let r = self.begin_at(id, now);
        assert(began(before, *self, id@, now, guard_id(r)));
        r
    }

    /// [`Self::begin_all_at`], now: what it states holds of the clock
    /// reading taken, whichever it was.
    pub fn begin_all(&mut self, ids: &[DaemonId]) -> (r: Option<Vec<ActivityGuard>>)
        requires
            old(self).wf(),
        ensures
            final(self).wf(),
            exists|t: u64| clock_reading(t) && #[trigger] began_all(*old(self), *final(self), id_views(ids@), t, guard_ids(r)),
    {
        let ghost before = *self;
        let now = self.now();
        let r = self.begin_all_at(ids, now);
        assert(began_all(before, *self, id_views(ids@), now, guard_ids(r)));
        r
    }

    /// [`Self::end_at`], now: what it states holds of the clock reading
    /// taken, whichever it was.
    pub fn end(&mut self, id: &DaemonId)
        requires
            old(self).wf(),
        ensures
            final(self).wf(),
            exists|t: u64| clock_reading(t) && #[trigger] ended(*old(self), *final(self), id@, t),
    {
        let ghost before = *self;
        let now = self.now();
        self.end_at(id, now);
        assert(ended(before, *self, id@, now));
    }

    /// [`Self::snapshot_at`], now: what it states holds of the clock
    /// reading taken, whichever it was.
    pub fn snapshot(&mut self, id: &DaemonId) -> (s: ActivitySnapshot)
        requires
            old(self).wf(),
        ensures
            final(self).wf(),
            s.idle_stopping ==> s.in_flight == 0,
            exists|t: u64| clock_reading(t) && #[trigger] snapped(*old(self), *final(self), id@, t, s),
    {
        let ghost before = *self;
        let now = self.now();
        let s = self.snapshot_at(id, now);
        assert(snapped(before, *self, id@, now, s));
        s
    }

    /// [`Self::claim_idle_stop_at`], now, with a grace period `grace`.
    pub fn claim_idle_stop(&mut self, id: &DaemonId, grace: std::time::Duration) -> (r: bool)
        requires
            old(self).wf(),
        ensures
            final(self).wf(),
            final(self).same_except(*old(self), id@),
            old(self).entry_of(id@) matches Some(e) ==> (r ==> !e.idle_stopping && e.in_flight == 0),
            old(self).entry_of(id@) matches Some(e) ==> ((e.idle_stopping || e.in_flight > 0) ==> !r),
            (old(self).entry_of(id@) is None && duration_nanos(grace) > 0) ==> !r,
            r ==> (final(self).entry_of(id@) matches Some(f) && f.idle_stopping && f.in_flight == 0),
            (!r && old(self).entry_of(id@) is Some) ==> final(self).entry_of(id@) == old(self).entry_of(id@),
            exists|t: u64|
                clock_reading(t) && #[trigger] claimed_at(
                    *old(self),
                    id@,
                    saturated(duration_nanos(grace)),
                    t,
                    r,
                    final(self).entry_of(id@),
                ),
    {
        let ghost before = *self;
        let now = self.now();
        let g = duration_as_nanos(&grace);
        let r = self.claim_idle_stop_at(id, g, now);
        assert(claimed_at(before, id@, saturated(duration_nanos(grace)), now, r, self.entry_of(id@)));
        r
    }

    /// [`Self::release_idle_stop_at`], now: the idle clock restarts at the
    /// clock reading taken, whichever it was.
    pub fn release_idle_stop(&mut self, id: &DaemonId)
        requires
            old(self).wf(),
        ensures
            final(self).wf(),
            exists|t: u64| clock_reading(t) && #[trigger] released(*old(self), *final(self), id@, t),
    {
        let ghost before = *self;
        let now = self.now();
        self.release_idle_stop_at(id, now);
        assert(released(before, *self, id@, now));
    }
}

proof fn lemma_first_stopping_before(t: ActivityTracker, ids: Seq<(Seq<char>, Seq<char>)>, m: int, s: int)
    requires
        0 <= m,
        first_stopping_from(t, ids, m) == Some(s),
    ensures
        m <= s < ids.len(),
        stopping(t.entry_of(ids[s])),
        forall|j: int| m <= j < s ==> !stopping(#[trigger] t.entry_of(ids[j])),
    decreases ids.len() - m,
{
    if m < ids.len() && !stopping(t.entry_of(ids[m])) {
        lemma_first_stopping_before(t, ids, m + 1, s);
    }
}

proof fn lemma_id_count_witness(ids: Seq<(Seq<char>, Seq<char>)>, k: (Seq<char>, Seq<char>)) -> (j: int)
    requires
        id_count(ids, k) > 0,
    ensures
        0 <= j < ids.len() && ids[j] == k,
    decreases ids.len(),
{
    if ids.last() == k {
        ids.len() - 1
    } else {
        let j = lemma_id_count_witness(ids.drop_last(), k);
        assert(ids[j] == ids.drop_last()[j]);
        j
    }
}

proof fn lemma_id_count_take_le(ids: Seq<(Seq<char>, Seq<char>)>, s: int, k: (Seq<char>, Seq<char>))
    requires
        0 <= s <= ids.len(),
    ensures
        id_count(ids.take(s), k) <= id_count(ids, k),
    decreases ids.len() - s,
{
    if s < ids.len() {
        lemma_id_count_take(ids, s, k);
        lemma_id_count_take_le(ids, s + 1, k);
    } else {
        assert(ids.take(s) =~= ids);
    }
}

/// A refused `begin_all` takes nothing: every daemon keeps the work in
/// flight it had and is not marked as being stopped by it (unless counting
/// the work begun and ended again reached the largest `usize`), and a
/// daemon it did not name is as it was.
pub proof fn law_a_refused_begin_all_takes_nothing(
    before: ActivityTracker,
    after: ActivityTracker,
    ids: Seq<(Seq<char>, Seq<char>)>,
    now: u64,
)
    requires
        began_all(before, after, ids, now, None),
    ensures
        forall|k: (Seq<char>, Seq<char>)| #![trigger after.entry_of(k)]
            id_count(ids, k) == 0 ==> after.entry_of(k) == before.entry_of(k),
        forall|k: (Seq<char>, Seq<char>)| #![trigger after.entry_of(k)]
            after.entry_of(k) matches Some(f) ==> f.idle_stopping == stopping(before.entry_of(k)),
        forall|k: (Seq<char>, Seq<char>)| #![trigger after.entry_of(k)]
            in_flight_of(before.entry_of(k)) + id_count(ids, k) <= usize::MAX ==> in_flight_of(after.entry_of(k))
                == in_flight_of(before.entry_of(k)),
{
    let s = first_stopping_from(before, ids, 0)->0;
    lemma_first_stopping_before(before, ids, 0, s);
    assert forall|k: (Seq<char>, Seq<char>)| #![trigger after.entry_of(k)]
        (id_count(ids, k) == 0 ==> after.entry_of(k) == before.entry_of(k)) && (after.entry_of(k) matches Some(f)
            ==> f.idle_stopping == stopping(before.entry_of(k))) && (in_flight_of(before.entry_of(k)) + id_count(
            ids,
            k,
        ) <= usize::MAX ==> in_flight_of(after.entry_of(k)) == in_flight_of(before.entry_of(k))) by {
        lemma_id_count_take_le(ids, s, k);
        assert(after.entry_of(k) == entry_after(before, ids.take(s), ids.take(s), now, k));
        if id_count(ids.take(s), k) > 0 {
            let j = lemma_id_count_witness(ids.take(s), k);
            assert(ids.take(s)[j] == ids[j]);
            assert(!stopping(before.entry_of(ids[j])));
        }
    }
}

} // verus!
