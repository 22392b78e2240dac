//! The path scorer: for every transport a smoothed latency and a loss
//! estimate, and from them the path to try next.
//!
//! Estimates are exact integers: latency in microseconds, loss in parts
//! per million (1 000 000 is total loss), time in milliseconds on whatever
//! clock the caller reads. A path's score is its latency in milliseconds
//! plus a thousand times its loss; the lower, the better.

use vstd::prelude::*;

verus! {

/// The latency assumed of a path that has not been measured: 100 ms.
pub const DEFAULT_LATENCY_US: u64 = 100_000;

/// The bandwidth assumed of every path, in bits per second.
pub const DEFAULT_BANDWIDTH: u64 = 1_000_000;

/// Total loss, in parts per million.
pub const LOSS_ONE: u32 = 1_000_000;

/// The latency credited to a path on which a tunnel has just been set up.
pub const HANDSHAKE_LATENCY_US: u64 = 50_000;

/// What is known of one path.
#[derive(Debug, Clone, Copy, PartialEq, Eq, Structural)]
pub struct PathStats {
    /// Smoothed latency, in microseconds.
    pub latency_us: u64,
    /// Loss estimate, in parts per million.
    pub loss_ppm: u32,
    /// Bandwidth, in bits per second.
    pub bandwidth: u64,
    /// When the record was last written, in milliseconds.
    pub last_updated_ms: u64,
}

impl PathStats {
    /// The loss estimate is a fraction: at most one.
    pub open spec fn wf(self) -> bool {
        self.loss_ppm <= LOSS_ONE
    }

    /// The score: latency in whole milliseconds plus a thousand times the
    /// loss, cut to a whole number.
    pub open spec fn spec_score(&self) -> u64 {
        (self.latency_us / 1000 + self.loss_ppm / 1000) as u64
    }

    /// The record of a path that has just been registered.
    pub open spec fn fresh(now_ms: u64) -> PathStats {
        PathStats {
            latency_us: DEFAULT_LATENCY_US,
            loss_ppm: 0,
            bandwidth: DEFAULT_BANDWIDTH,
            last_updated_ms: now_ms,
        }
    }

    /// The record after a success that took `observed_us`: the latency
    /// moves a fifth of the way to the observation, the loss shrinks to
    /// nine tenths.
    pub open spec fn smoothed(self, observed_us: u64, now_ms: u64) -> PathStats {
        PathStats {
            latency_us: ((4 * self.latency_us + observed_us) / 5) as u64,
            loss_ppm: (self.loss_ppm as int * 9 / 10) as u32,
            bandwidth: self.bandwidth,
            last_updated_ms: now_ms,
        }
    }

    /// The record after a failure: the loss is total.
    pub open spec fn penalized(self, now_ms: u64) -> PathStats {
        PathStats { loss_ppm: LOSS_ONE, last_updated_ms: now_ms, ..self }
    }

    /// The record of a path that has just been registered: 100 ms of
    /// latency, no loss.
    pub fn new(now_ms: u64) -> (s: PathStats)
        ensures
            s == PathStats::fresh(now_ms),
            s.wf(),
    {
        PathStats {
            latency_us: DEFAULT_LATENCY_US,
            loss_ppm: 0,
            bandwidth: DEFAULT_BANDWIDTH,
            last_updated_ms: now_ms,
        }
    }

    /// The score; lower is better.
    #[verifier::when_used_as_spec(spec_score)]
    pub fn score(&self) -> (s: u64)
        ensures
            s == self.spec_score(),
            s == self.latency_us / 1000 + self.loss_ppm / 1000,
    {
        self.latency_us / 1000 + (self.loss_ppm / 1000) as u64
    }

    /// The record after a success that took `observed_us`.
    pub fn after_success(&self, observed_us: u64, now_ms: u64) -> (s: PathStats)
        ensures
            s == self.smoothed(observed_us, now_ms),
            self.wf() ==> s.wf(),
    {
        let weighted: u128 = 4 * (self.latency_us as u128) + observed_us as u128;
        let loss: u64 = self.loss_ppm as u64 * 9 / 10;
        PathStats {
            latency_us: (weighted / 5) as u64,
            loss_ppm: loss as u32,
            bandwidth: self.bandwidth,
            last_updated_ms: now_ms,
        }
    }

    /// The record after a failure.
    pub fn after_failure(&self, now_ms: u64) -> (s: PathStats)
        ensures
            s == self.penalized(now_ms),
            s.wf(),
    {
        PathStats {
            latency_us: self.latency_us,
            loss_ppm: LOSS_ONE,
            bandwidth: self.bandwidth,
            last_updated_ms: now_ms,
        }
    }
}

/// A registered path as a mathematical value.
pub struct PathRecord {
    pub name: Seq<char>,
    pub stats: PathStats,
}

/// A registered path.
struct PathEntry {
    name: String,
    stats: PathStats,
}

/// No two records have the same name.
pub open spec fn distinct_names(paths: Seq<PathRecord>) -> bool {
    forall|i: int, j: int|
        0 <= i < j < paths.len() ==> (#[trigger] paths[i]).name != (#[trigger] paths[j]).name
}

/// The place of the record named `name`, if there is one.
pub open spec fn position(paths: Seq<PathRecord>, name: Seq<char>) -> Option<int>
    decreases paths.len(),
{
    if paths.len() == 0 {
        None
    } else if paths.last().name == name {
        Some(paths.len() - 1)
    } else {
        position(paths.drop_last(), name)
    }
}

/// The registry after `name` has been registered: its record is reset
/// where it stands, or added at the end.
pub open spec fn registered(paths: Seq<PathRecord>, name: Seq<char>, now_ms: u64) -> Seq<
    PathRecord,
> {
    let record = PathRecord { name, stats: PathStats::fresh(now_ms) };
    match position(paths, name) {
        Some(i) => paths.update(i, record),
        None => paths.push(record),
    }
}

/// The registry after a success on `name`; unchanged if `name` is not
/// registered.
pub open spec fn succeeded(
    paths: Seq<PathRecord>,
    name: Seq<char>,
    observed_us: u64,
    now_ms: u64,
) -> Seq<PathRecord> {
    match position(paths, name) {
        Some(i) => paths.update(
            i,
            PathRecord { name, stats: paths[i].stats.smoothed(observed_us, now_ms) },
        ),
        None => paths,
    }
}

/// The registry after a failure on `name`; unchanged if `name` is not
/// registered.
pub open spec fn failed(paths: Seq<PathRecord>, name: Seq<char>, now_ms: u64) -> Seq<PathRecord> {
    match position(paths, name) {
        Some(i) => paths.update(i, PathRecord { name, stats: paths[i].stats.penalized(now_ms) }),
        None => paths,
    }
}

/// The place of the best path among the first `n`: the first of those
/// with the lowest score.
pub open spec fn best_among(paths: Seq<PathRecord>, n: nat) -> Option<int>
    decreases n,
{
    if n == 0 {
        None
    } else {
        match best_among(paths, (n - 1) as nat) {
            None => Some(n - 1),
            Some(b) => if paths[n - 1].stats.spec_score() < paths[b].stats.spec_score() {
                Some(n - 1)
            } else {
                Some(b)
            },
        }
    }
}

/// The place of the best path: the first of those with the lowest score.
pub open spec fn best(paths: Seq<PathRecord>) -> Option<int> {
    best_among(paths, paths.len())
}

/// Where `position` finds a name, the name stands; where it finds none,
/// the name stands nowhere.
pub proof fn lemma_position(paths: Seq<PathRecord>, name: Seq<char>)
    ensures
        match position(paths, name) {
            Some(i) => 0 <= i < paths.len() && paths[i].name == name,
            None => forall|i: int| 0 <= i < paths.len() ==> (#[trigger] paths[i]).name != name,
        },
    decreases paths.len(),
{
    if paths.len() > 0 && paths.last().name != name {
        lemma_position(paths.drop_last(), name);
        assert forall|i: int| 0 <= i < paths.len() && position(paths, name) is None implies (
        #[trigger] paths[i]).name != name by {
            if i < paths.len() - 1 {
                assert(paths.drop_last()[i] == paths[i]);
            }
        }
    }
}

/// Among distinct names, a name is found where it stands.
pub proof fn lemma_position_unique(paths: Seq<PathRecord>, name: Seq<char>, at: int)
    requires
        distinct_names(paths),
        0 <= at < paths.len(),
        paths[at].name == name,
    ensures
        position(paths, name) == Some(at),
{
    lemma_position(paths, name);
}

/// The best path is a registered one, none scores lower, and none that
/// scores as low stands before it.
pub proof fn lemma_best_among(paths: Seq<PathRecord>, n: nat)
    requires
        n <= paths.len(),
    ensures
        n == 0 <==> best_among(paths, n) is None,
        best_among(paths, n) matches Some(b) ==> {
            &&& 0 <= b < n
            &&& forall|i: int|
                0 <= i < n ==> paths[b].stats.spec_score() <= (#[trigger] paths[i]).stats.spec_score()
            &&& forall|i: int|
                0 <= i < b ==> paths[b].stats.spec_score() < (#[trigger] paths[i]).stats.spec_score()
        },
    decreases n,
{
    if n > 0 {
        lemma_best_among(paths, (n - 1) as nat);
    }
}

/// The registry of paths and their estimates.
pub struct Router {
    paths: Vec<PathEntry>,
}

impl View for Router {
    type V = Seq<PathRecord>;

    /// The registered paths, in the order of their first registration.
    closed spec fn view(&self) -> Seq<PathRecord> {
        Seq::new(
            self.paths@.len(),
            |i: int| PathRecord { name: self.paths@[i].name@, stats: self.paths@[i].stats },
        )
    }
}

impl Router {
    /// What holds of every registry that `new` made, whatever was done with
    /// it since: no name is registered twice, and every loss estimate is a
    /// fraction.
    pub open spec fn wf(&self) -> bool {
        &&& distinct_names(self@)
        &&& forall|i: int| 0 <= i < self@.len() ==> (#[trigger] self@[i]).stats.wf()
    }

    /// An empty registry.
    pub fn new() -> (r: Router)
        ensures
            r@ == Seq::<PathRecord>::empty(),
            r.wf(),
    {
        let r = Router { paths: Vec::new() };
        assert(r@ =~= Seq::<PathRecord>::empty());
        r
    }

    /// The place of the path named `name`.
    fn find(&self, name: &str) -> (r: Option<usize>)
        requires
            self.wf(),
        ensures
            match r {
                Some(i) => position(self@, name@) == Some(i as int) && i < self.paths@.len(),
                None => position(self@, name@) is None,
            },
    {
        let key: String = name.to_owned();
        let mut i: usize = 0;
        while i < self.paths.len()
            invariant
                i <= self.paths@.len(),
                key@ == name@,
                self.wf(),
                forall|j: int| 0 <= j < i ==> (#[trigger] self@[j]).name != name@,
            decreases self.paths@.len() - i,
        {
            if self.paths[i].name == key {
                proof {
                    assert(self@[i as int].name == name@);
                    lemma_position_unique(self@, name@, i as int);
                }
                return Some(i);
            }
            assert(self@[i as int].name != name@);
            i = i + 1;
        }
        proof {
            lemma_position(self@, name@);
        }
        None
    }

    /// Registers `name` with the record of an unmeasured path: 100 ms of
    /// latency, no loss. A path that was registered before starts afresh.
    pub fn register_path(&mut self, name: &str, now_ms: u64)
        requires
            old(self).wf(),
        ensures
            final(self).wf(),
            final(self)@ == registered(old(self)@, name@, now_ms),
    {
        let ghost before = self@;
        match self.find(name) {
            Some(i) => {
                self.paths[i].stats = PathStats::new(now_ms);
                proof {
                    lemma_position(before, name@);
                    assert(self.paths@[i as int].name@ == name@);
                    assert(self@ =~= registered(before, name@, now_ms));
                    lemma_update_keeps_names(before, i as int, PathStats::fresh(now_ms));
                }
            },
            None => {
                self.paths.push(PathEntry { name: name.to_owned(), stats: PathStats::new(now_ms) });
                proof {
                    assert(self@ =~= registered(before, name@, now_ms));
                    lemma_position(before, name@);
                    assert forall|i: int, j: int| 0 <= i < j < self@.len() implies (
                    #[trigger] self@[i]).name != (#[trigger] self@[j]).name by {
                        assert(self@[i] == before[i]);
                        if j < before.len() {
                            assert(self@[j] == before[j]);
                        }
                    }
                    assert forall|i: int| 0 <= i < self@.len() implies (
                    #[trigger] self@[i]).stats.wf() by {
                        if i < before.len() {
                            assert(self@[i] == before[i]);
                        }
                    }
                }
            },
        }
    }

    /// Records a success on `name` that took `latency_us`: the latency
    /// estimate becomes four fifths of what it was plus one fifth of the
    /// observation, and the loss estimate nine tenths of what it was.
    /// Nothing happens if `name` is not registered.
    pub fn update_latency(&mut self, name: &str, latency_us: u64, now_ms: u64)
        requires
            old(self).wf(),
        ensures
            final(self).wf(),
            final(self)@ == succeeded(old(self)@, name@, latency_us, now_ms),
    {
        let ghost before = self@;
        match self.find(name) {
            Some(i) => {
                let stats = self.paths[i].stats.after_success(latency_us, now_ms);
                self.paths[i].stats = stats;
                proof {
                    lemma_position(before, name@);
                    assert(self.paths@[i as int].name@ == name@);
                    assert(before[i as int].stats.wf());
                    assert(self@ =~= succeeded(before, name@, latency_us, now_ms));
                    lemma_update_keeps_names(before, i as int, stats);
                }
            },
            None => {},
        }
    }

    /// Records a failure on `name`: its loss estimate becomes total.
    /// Nothing happens if `name` is not registered.
    pub fn report_failure(&mut self, name: &str, now_ms: u64)
        requires
            old(self).wf(),
        ensures
            final(self).wf(),
            final(self)@ == failed(old(self)@, name@, now_ms),
    {
        let ghost before = self@;
        match self.find(name) {
            Some(i) => {
                let stats = self.paths[i].stats.after_failure(now_ms);
                self.paths[i].stats = stats;
                proof {
                    lemma_position(before, name@);
                    assert(self.paths@[i as int].name@ == name@);
                    assert(self@ =~= failed(before, name@, now_ms));
                    lemma_update_keeps_names(before, i as int, stats);
                }
            },
            None => {},
        }
    }

    /// The name of the path with the lowest score, or `None` if no path is
    /// registered. Among paths of equal score the one registered first is
    /// returned.
    pub fn get_best_path(&self) -> (r: Option<String>)
        requires
            self.wf(),
        ensures
            match r {
                Some(name) => {
                    &&& best(self@) matches Some(b)
                    &&& 0 <= b < self@.len()
                    &&& name@ == self@[b].name
                    &&& forall|i: int|
                        0 <= i < self@.len() ==> self@[b].stats.spec_score() <= (
                        #[trigger] self@[i]).stats.spec_score()
                },
                None => best(self@) is None && self@.len() == 0,
            },
    {
        proof {
            lemma_best_among(self@, self@.len());
        }
        if self.paths.len() == 0 {
            return None;
        }
        let mut best_at: usize = 0;
        let mut best_score: u64 = self.paths[0].stats.score();
        let mut i: usize = 1;
        assert(best_among(self@, 1) == Some(0int)) by {
            reveal_with_fuel(best_among, 2);
        }
        while i < self.paths.len()
            invariant
                1 <= i <= self.paths@.len(),
                best_at < i,
                best_among(self@, i as nat) == Some(best_at as int),
                best_score == self@[best_at as int].stats.spec_score(),
            decreases self.paths@.len() - i,
        {
            let score = self.paths[i].stats.score();
            if score < best_score {
                best_at = i;
                best_score = score;
            }
            i = i + 1;
        }
        Some(self.paths[best_at].name.clone())
    }

    /// The record of `name`, if it is registered.
    pub fn get_stats(&self, name: &str) -> (r: Option<PathStats>)
        requires
            self.wf(),
        ensures
            match r {
                Some(stats) => position(self@, name@) matches Some(i) && stats == self@[i].stats,
                None => position(self@, name@) is None,
            },
    {
        match self.find(name) {
            Some(i) => Some(self.paths[i].stats),
            None => None,
        }
    }

    /// How many paths are registered.
    pub fn len(&self) -> (n: usize)
        ensures
            n == self@.len(),
    {
        self.paths.len()
    }
}

/// Writing new estimates into a record leaves the names as they are.
proof fn lemma_update_keeps_names(paths: Seq<PathRecord>, at: int, stats: PathStats)
    requires
        distinct_names(paths),
        0 <= at < paths.len(),
        stats.wf(),
        forall|i: int| 0 <= i < paths.len() ==> (#[trigger] paths[i]).stats.wf(),
    ensures
        distinct_names(paths.update(at, PathRecord { name: paths[at].name, stats })),
        forall|i: int|
            0 <= i < paths.len() ==> (#[trigger] paths.update(
                at,
                PathRecord { name: paths[at].name, stats },
            )[i]).stats.wf(),
{
    let after = paths.update(at, PathRecord { name: paths[at].name, stats });
    assert forall|i: int, j: int| 0 <= i < j < after.len() implies (#[trigger] after[i]).name != (
    #[trigger] after[j]).name by {
        assert(after[i].name == paths[i].name);
        assert(after[j].name == paths[j].name);
    }
}

/// The estimates of the path named `name`, if it is registered.
pub open spec fn stats_of(paths: Seq<PathRecord>, name: Seq<char>) -> Option<PathStats> {
    match position(paths, name) {
        Some(i) => Some(paths[i].stats),
        None => None,
    }
}

/// What can happen to a registry.
pub enum ScorerEvent {
    /// `register_path`
    Register { name: Seq<char>, now_ms: u64 },
    /// `update_latency`
    Success { name: Seq<char>, latency_us: u64, now_ms: u64 },
    /// `report_failure`
    Failure { name: Seq<char>, now_ms: u64 },
}

impl ScorerEvent {
    /// The path that the event is about.
    pub open spec fn subject(self) -> Seq<char> {
        match self {
            ScorerEvent::Register { name, .. } => name,
            ScorerEvent::Success { name, .. } => name,
            ScorerEvent::Failure { name, .. } => name,
        }
    }
}

/// The registry after one event.
pub open spec fn applied(paths: Seq<PathRecord>, event: ScorerEvent) -> Seq<PathRecord> {
    match event {
        ScorerEvent::Register { name, now_ms } => registered(paths, name, now_ms),
        ScorerEvent::Success { name, latency_us, now_ms } => succeeded(
            paths,
            name,
            latency_us,
            now_ms,
        ),
        ScorerEvent::Failure { name, now_ms } => failed(paths, name, now_ms),
    }
}

/// The registry after a sequence of events.
pub open spec fn applied_all(paths: Seq<PathRecord>, events: Seq<ScorerEvent>) -> Seq<PathRecord>
    decreases events.len(),
{
    if events.len() == 0 {
        paths
    } else {
        applied(applied_all(paths, events.drop_last()), events.last())
    }
}

/// An event changes the estimates of the path that it is about, as the
/// operation says, and of no other; and it keeps names distinct.
pub proof fn lemma_applied(paths: Seq<PathRecord>, event: ScorerEvent, name: Seq<char>)
    requires
        distinct_names(paths),
    ensures
        distinct_names(applied(paths, event)),
        event.subject() != name ==> stats_of(applied(paths, event), name) == stats_of(paths, name),
        event.subject() == name ==> stats_of(applied(paths, event), name) == match event {
            ScorerEvent::Register { now_ms, .. } => Some(PathStats::fresh(now_ms)),
            ScorerEvent::Success { latency_us, now_ms, .. } => match stats_of(paths, name) {
                Some(stats) => Some(stats.smoothed(latency_us, now_ms)),
                None => None,
            },
            ScorerEvent::Failure { now_ms, .. } => match stats_of(paths, name) {
                Some(stats) => Some(stats.penalized(now_ms)),
                None => None,
            },
        },
{
    let subject = event.subject();
    let after = applied(paths, event);
    lemma_position(paths, subject);
    lemma_position(paths, name);
    match position(paths, subject) {
        Some(at) => {
            assert(after.len() == paths.len());
            assert forall|i: int| 0 <= i < after.len() implies (#[trigger] after[i]).name
                == paths[i].name by {}
            assert forall|i: int, j: int| 0 <= i < j < after.len() implies (
            #[trigger] after[i]).name != (#[trigger] after[j]).name by {
                assert(paths[i].name != paths[j].name);
            }
            match position(paths, name) {
                Some(k) => {
                    assert(after[k].name == name);
                    lemma_position_unique(after, name, k);
                },
                None => {
                    lemma_position(after, name);
                    if position(after, name) is Some {
                        let k = position(after, name)->Some_0;
                        assert(paths[k].name == name);
                    }
                },
            }
        },
        None => {
            match event {
                ScorerEvent::Register { now_ms, .. } => {
                    assert forall|i: int, j: int| 0 <= i < j < after.len() implies (
                    #[trigger] after[i]).name != (#[trigger] after[j]).name by {
                        assert(after[i] == paths[i]);
                        if j < paths.len() {
                            assert(after[j] == paths[j]);
                        }
                    }
                    if subject == name {
                        lemma_position_unique(after, name, paths.len() as int);
                    } else {
                        match position(paths, name) {
                            Some(k) => {
                                assert(after[k] == paths[k]);
                                lemma_position_unique(after, name, k);
                            },
                            None => {
                                lemma_position(after, name);
                                if position(after, name) is Some {
                                    let k = position(after, name)->Some_0;
                                    assert(k < paths.len());
                                    assert(after[k] == paths[k]);
                                }
                            },
                        }
                    }
                },
                _ => {},
            }
        },
    }
}

/// After `report_failure(p)` the loss estimate of `p` is total and its
/// score is at least 1000, and both stay so whatever happens to the
/// registry, until `p` has a success or is registered anew.
pub proof fn lemma_failure_sticks(
    paths: Seq<PathRecord>,
    name: Seq<char>,
    now_ms: u64,
    events: Seq<ScorerEvent>,
)
    requires
        distinct_names(paths),
        position(paths, name) is Some,
        forall|k: int|
            0 <= k < events.len() ==> (#[trigger] events[k]).subject() != name || events[k] is Failure,
    ensures
        distinct_names(applied_all(failed(paths, name, now_ms), events)),
        stats_of(applied_all(failed(paths, name, now_ms), events), name) matches Some(stats)
            && stats.loss_ppm == LOSS_ONE && stats.spec_score() >= 1000,
    decreases events.len(),
{
    let start = failed(paths, name, now_ms);
    if events.len() == 0 {
        lemma_applied(paths, ScorerEvent::Failure { name, now_ms }, name);
        assert(applied(paths, ScorerEvent::Failure { name, now_ms }) == start);
    } else {
        let front = events.drop_last();
        assert forall|k: int| 0 <= k < front.len() implies (#[trigger] front[k]).subject() != name
            || front[k] is Failure by {
            assert(front[k] == events[k]);
        }
        lemma_failure_sticks(paths, name, now_ms, front);
        lemma_applied(applied_all(start, front), events.last(), name);
    }
}

/// A success shrinks the loss estimate to nine tenths of what it was, cut
/// to a whole number of parts per million: it never grows, and it falls
/// wherever it was above zero. After a failure, one success brings the
/// loss part of the score from 1000 down to 900.
pub proof fn lemma_success_decays(stats: PathStats, latency_us: u64, now_ms: u64)
    requires
        stats.wf(),
    ensures
        stats.smoothed(latency_us, now_ms).loss_ppm == stats.loss_ppm * 9 / 10,
        stats.smoothed(latency_us, now_ms).loss_ppm <= stats.loss_ppm,
        stats.loss_ppm > 0 ==> stats.smoothed(latency_us, now_ms).loss_ppm < stats.loss_ppm,
        stats.loss_ppm == LOSS_ONE ==> stats.smoothed(latency_us, now_ms).loss_ppm == 900_000,
        stats.smoothed(latency_us, now_ms).wf(),
{
}

/// Of two registered paths the one with the lower score is the best; with
/// equal scores it is the one registered first.
pub proof fn lemma_best_of_two(p: PathRecord, q: PathRecord)
    ensures
        best(seq![p, q]) == Some(
            if q.stats.spec_score() < p.stats.spec_score() {
                1int
            } else {
                0int
            },
        ),
{
    reveal_with_fuel(best_among, 3);
}

/// The best path is a registered one and no registered path scores lower.
pub proof fn lemma_best_is_lowest(paths: Seq<PathRecord>)
    ensures
        paths.len() == 0 <==> best(paths) is None,
        best(paths) matches Some(b) ==> 0 <= b < paths.len() && forall|i: int|
            0 <= i < paths.len() ==> paths[b].stats.spec_score() <= (
            #[trigger] paths[i]).stats.spec_score(),
{
    lemma_best_among(paths, paths.len());
}

} // verus!
