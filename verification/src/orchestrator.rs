//! The task orchestrator: accepts one analysis task per unit,
//! short-circuits fingerprints already cached, never schedules a second
//! task for a fingerprint already in flight, and hands completed results
//! out without blocking.
//!
//! In the running system the in-flight set sits behind its own lock and
//! tasks run on a bounded worker pool; the decisions made under the lock
//! are the functions here.

use vstd::prelude::*;

use crate::cache::{Fingerprint, ResultCache};
use crate::kinds::DecoKind;
use crate::text::{has_prefix, spec_has_prefix, str_eq};
use crate::workspace::{item_model, Item};

verus! {

/// The per-unit output handed back by the analysis backend.
pub struct AnalysisResult {
    pub crate_name: String,
    pub file_name: String,
    pub fingerprint: Fingerprint,
    pub payload: Item,
}

/// What `submit` decides for one unit.
pub enum SubmitOutcome {
    /// The fingerprint was cached; the cached payload is returned
    /// synchronously and no task runs.
    CacheHit(Item),
    /// A task for this fingerprint is already in flight; no second task
    /// is spawned.
    Pending,
    /// The unit was handed to the worker pool and joined later.
    Scheduled,
}

/// The orchestrator's shared state: the cache, the in-flight fingerprint
/// set, and the results finished since the last drain.
pub struct TaskOrchestrator {
    pub cache: ResultCache,
    pub in_flight: Vec<Fingerprint>,
    pub completed: Vec<AnalysisResult>,
}

/// First index of a key in a key sequence, or -1.
pub open spec fn spec_find_key(ks: Seq<(Seq<char>, Seq<char>)>, k: (Seq<char>, Seq<char>), i: int) -> int
    decreases ks.len() - i,
{
    if i < 0 || i >= ks.len() {
        -1
    } else if ks[i] == k {
        i
    } else {
        spec_find_key(ks, k, i + 1)
    }
}

/// Removing an element that is not `k` does not change whether `k`
/// occurs.
proof fn lemma_remove_other<T>(s: Seq<T>, i: int, k: T)
    requires
        0 <= i < s.len(),
        s[i] != k,
    ensures
        s.remove(i).contains(k) == s.contains(k),
{
    let r = s.remove(i);
    if s.contains(k) {
        let j = choose|j: int| 0 <= j < s.len() && s[j] == k;
        if j < i {
            assert(r[j] == k);
        } else {
            assert(r[j - 1] == k);
        }
    }
    if r.contains(k) {
        let j = choose|j: int| 0 <= j < r.len() && r[j] == k;
        if j < i {
            assert(s[j] == k);
        } else {
            assert(s[j + 1] == k);
        }
    }
}

impl TaskOrchestrator {
    /// The in-flight fingerprints, as keys.
    pub open spec fn inflight_keys(self) -> Seq<(Seq<char>, Seq<char>)> {
        self.in_flight@.map_values(|f: Fingerprint| f.model())
    }

    /// Whether a fingerprint was ever accepted in this run: cached or in
    /// flight.
    pub open spec fn seen(self, k: (Seq<char>, Seq<char>)) -> bool {
        self.cache.model().contains_key(k) || self.inflight_keys().contains(k)
    }

    pub open spec fn wf(self) -> bool {
        self.cache.wf()
    }

    /// A fresh orchestrator around an existing (possibly rehydrated)
    /// cache.
    pub fn new(cache: ResultCache) -> (r: Self)
        requires
            cache.wf(),
        ensures
            r.wf(),
            r.cache == cache,
            r.inflight_keys() =~= Seq::<(Seq<char>, Seq<char>)>::empty(),
            r.completed@ =~= Seq::<AnalysisResult>::empty(),
    {
        TaskOrchestrator { cache, in_flight: Vec::new(), completed: Vec::new() }
    }

    /// Accepts one unit. A cached fingerprint is answered from the cache;
    /// a fingerprint already in flight spawns nothing; only a fingerprint
    /// never seen in this run is scheduled.
    pub fn submit(&mut self, f: Fingerprint) -> (r: SubmitOutcome)
        requires
            old(self).wf(),
        ensures
            final(self).wf(),
            r is Scheduled <==> !old(self).seen(f.model()),
            match r {
                SubmitOutcome::CacheHit(p) => {
                    &&& old(self).cache.model().contains_key(f.model())
                    &&& item_model(p) == old(self).cache.model()[f.model()]
                    &&& *final(self) == *old(self)
                },
                SubmitOutcome::Pending => {
                    &&& !old(self).cache.model().contains_key(f.model())
                    &&& old(self).inflight_keys().contains(f.model())
                    &&& *final(self) == *old(self)
                },
                SubmitOutcome::Scheduled => {
                    &&& final(self).cache == old(self).cache
                    &&& final(self).completed == old(self).completed
                    &&& final(self).inflight_keys() =~= old(self).inflight_keys().push(f.model())
                },
            },
            forall|k: (Seq<char>, Seq<char>)|
                final(self).seen(k) <==> (old(self).seen(k) || k == f.model()),
    {
        let hit = match self.cache.lookup(&f) {
            Some(it) => Some(it.duplicate()),
            None => None,
        };
        match hit {
            Some(p) => SubmitOutcome::CacheHit(p),
            None => {
                let ghost keys = self.inflight_keys();
                let n = self.in_flight.len();
                let mut i: usize = 0;
                while i < n
                    invariant
                        0 <= i <= n == self.in_flight@.len(),
                        *self == *old(self),
                        self.wf(),
                        !self.cache.model().contains_key(f.model()),
                        keys == self.inflight_keys(),
                        forall|j: int| 0 <= j < i ==> #[trigger] keys[j] != f.model(),
                    decreases n - i,
                {
                    assert(keys[i as int] == self.in_flight@[i as int].model());
                    if self.in_flight[i].same_key(&f) {
                        assert(keys.contains(f.model()));
                        return SubmitOutcome::Pending;
                    }
                    i = i + 1;
                }
                assert(!keys.contains(f.model())) by {
                    if keys.contains(f.model()) {
                        let j = choose|j: int| 0 <= j < keys.len() && keys[j] == f.model();
                        assert(keys[j] != f.model());
                    }
                }
                let ghost fm = f.model();
                self.in_flight.push(f);
                proof {
                    assert(self.inflight_keys() =~= keys.push(fm));
                    assert(forall|k: (Seq<char>, Seq<char>)|
                        self.inflight_keys().contains(k) <==> (keys.contains(k) || k == fm)) by {
                        assert(forall|k: (Seq<char>, Seq<char>)| #[trigger]
                            keys.contains(k) ==> self.inflight_keys().contains(k)) by {
                            assert(forall|j: int|
                                0 <= j < keys.len() ==> self.inflight_keys()[j] == #[trigger] keys[j]);
                        }
                        assert(self.inflight_keys().last() == fm);
                        assert(self.inflight_keys().contains(fm));
                        assert(forall|k: (Seq<char>, Seq<char>)| #[trigger]
                            self.inflight_keys().contains(k) && k != fm ==> keys.contains(k)) by {
                            assert(forall|j: int|
                                0 <= j < keys.len() ==> self.inflight_keys()[j] == #[trigger] keys[j]);
                        }
                    }
                }
                SubmitOutcome::Scheduled
            },
        }
    }

    /// Joins one finished task: the fingerprint leaves the in-flight set,
    /// the payload enters the cache, and the result queues for the next
    /// drain. A fingerprint once seen stays seen.
    pub fn complete(&mut self, result: AnalysisResult)
        requires
            old(self).wf(),
            old(self).inflight_keys().contains(result.fingerprint.model()),
        ensures
            final(self).wf(),
            final(self).cache.model() == old(self).cache.model().insert(
                result.fingerprint.model(),
                item_model(result.payload),
            ),
            final(self).completed@ =~= old(self).completed@.push(result),
            final(self).inflight_keys() =~= old(self).inflight_keys().remove(
                spec_find_key(old(self).inflight_keys(), result.fingerprint.model(), 0),
            ),
            forall|k: (Seq<char>, Seq<char>)|
                final(self).seen(k) <==> old(self).seen(k),
    {
        let ghost keys = self.inflight_keys();
        let ghost km = result.fingerprint.model();
        let n = self.in_flight.len();
        let mut i: usize = 0;
        let mut found: Option<usize> = None;
        while i < n && found.is_none()
            invariant
                0 <= i <= n == self.in_flight@.len(),
                *self == *old(self),
                keys == self.inflight_keys(),
                km == result.fingerprint.model(),
                forall|j: int| 0 <= j < i ==> #[trigger] keys[j] != km,
                found matches Some(x) ==> x == i && i < n && keys[i as int] == km,
            decreases n - i + (if found is None { 1int } else { 0int }),
        {
            assert(keys[i as int] == self.in_flight@[i as int].model());
            if self.in_flight[i].same_key(&result.fingerprint) {
                found = Some(i);
            } else {
                i = i + 1;
            }
        }
        let idx = match found {
            Some(x) => x,
            None => {
                proof {
                    if keys.contains(km) {
                        let j = choose|j: int| 0 <= j < keys.len() && keys[j] == km;
                        assert(keys[j] != km);
                    }
                }
                assert(false);
                0
            },
        };
        assert(spec_find_key(keys, km, 0) == idx) by {
            lemma_find_key_at(keys, km, idx as int, 0);
        }
        let _ = self.in_flight.remove(idx);
        proof {
            assert(self.inflight_keys() =~= keys.remove(idx as int));
        }
        let pay = result.payload.duplicate();
        let fp = result.fingerprint.duplicate();
        self.cache.insert(fp, pay);
        self.completed.push(result);
        proof {
            assert(forall|k: (Seq<char>, Seq<char>)| final(self).seen(k) <==> old(self).seen(k))
                by {
                assert forall|k: (Seq<char>, Seq<char>)| true implies (final(self).seen(k)
                    <==> old(self).seen(k)) by {
                    if k != km {
                        lemma_remove_other(keys, idx as int, k);
                    } else {
                        assert(final(self).cache.model().contains_key(km));
                    }
                }
            }
        }
    }

    /// Hands out everything finished since the last drain, without
    /// waiting for more.
    pub fn drain_completed(&mut self) -> (r: Vec<AnalysisResult>)
        requires
            old(self).wf(),
        ensures
            final(self).wf(),
            r@ == old(self).completed@,
            final(self).completed@ =~= Seq::<AnalysisResult>::empty(),
            final(self).cache == old(self).cache,
            final(self).in_flight == old(self).in_flight,
    {
        let mut out: Vec<AnalysisResult> = Vec::new();
        core::mem::swap(&mut self.completed, &mut out);
        out
    }

    /// Number of tasks still in flight; a run ends by joining tasks until
    /// this reaches zero.
    pub fn pending_count(&self) -> (r: usize)
        ensures
            r == self.inflight_keys().len(),
    {
        self.in_flight.len()
    }
}

/// A position with no occurrence before it and an occurrence at it pins
/// down `spec_find_key`.
proof fn lemma_find_key_at(ks: Seq<(Seq<char>, Seq<char>)>, k: (Seq<char>, Seq<char>), i: int, j: int)
    requires
        0 <= j <= i < ks.len(),
        forall|t: int| 0 <= t < i ==> #[trigger] ks[t] != k,
        ks[i] == k,
    ensures
        spec_find_key(ks, k, j) == i,
    decreases i - j,
{
    if j < i {
        lemma_find_key_at(ks, k, i, j + 1);
    }
}

/// The number of submissions scheduled for fingerprint `f`, when the
/// fingerprints of `ops` are submitted in order starting from a run that
/// has seen `seen`: a submission is scheduled exactly when its
/// fingerprint is unseen, and every submission marks its fingerprint
/// seen.
pub open spec fn spec_scheduled_count(
    seen: Set<(Seq<char>, Seq<char>)>,
    ops: Seq<(Seq<char>, Seq<char>)>,
    f: (Seq<char>, Seq<char>),
) -> nat
    decreases ops.len(),
{
    if ops.len() == 0 {
        0
    } else {
        let k = ops.first();
        let rest = spec_scheduled_count(seen.insert(k), ops.drop_first(), f);
        if !seen.contains(k) && k == f {
            1 + rest
        } else {
            rest
        }
    }
}

/// At most one computation per fingerprint: over any sequence of
/// submissions, at most one submission of a given fingerprint is
/// scheduled — none at all if the fingerprint was already seen. `submit`
/// schedules exactly the unseen fingerprints and marks them seen, and
/// `complete` and `drain_completed` keep every seen fingerprint seen, so
/// a run's submissions follow this count.
pub proof fn lemma_at_most_one_computation(
    seen: Set<(Seq<char>, Seq<char>)>,
    ops: Seq<(Seq<char>, Seq<char>)>,
    f: (Seq<char>, Seq<char>),
)
    ensures
        spec_scheduled_count(seen, ops, f) <= if seen.contains(f) {
            0nat
        } else {
            1nat
        },
    decreases ops.len(),
{
    if ops.len() > 0 {
        let k = ops.first();
        lemma_at_most_one_computation(seen.insert(k), ops.drop_first(), f);
    }
}

/// Worker-pool size: half the hardware parallelism, clamped to [2, 8],
/// and 4 when the parallelism cannot be determined.
pub fn worker_count(parallelism: Option<usize>) -> (r: usize)
    ensures
        match parallelism {
            None => r == 4,
            Some(n) => r == if n / 2 < 2 {
                2int
            } else if n / 2 > 8 {
                8int
            } else {
                (n / 2) as int
            },
        },
        2 <= r <= 8 || r == 4,
{
    match parallelism {
        None => 4,
        Some(n) => {
            let half = n / 2;
            if half < 2 {
                2
            } else if half > 8 {
                8
            } else {
                half
            }
        },
    }
}

/// The exit classification of a compiler run: a panic is reported as
/// such, a non-zero exit code as a failed compilation, and only a clean
/// exit as success.
pub enum AnalysisError {
    ThreadPanic,
    RustcPanic,
    CompilationFailed(i32),
}

impl AnalysisError {
    /// The human-readable description of the failure.
    pub fn message(&self) -> (r: String)
        ensures
            match self {
                AnalysisError::ThreadPanic => r@ == "Analysis thread panicked"@,
                AnalysisError::RustcPanic => r@ == "Rustc panicked during analysis"@,
                AnalysisError::CompilationFailed(_) => crate::text::spec_has_prefix(
                    r@,
                    "Compilation failed with exit code "@,
                ),
            },
    {
        match self {
            AnalysisError::ThreadPanic => String::from_str("Analysis thread panicked"),
            AnalysisError::RustcPanic => String::from_str("Rustc panicked during analysis"),
            AnalysisError::CompilationFailed(code) => {
                let mut s = String::from_str("Compilation failed with exit code ");
                let c = if *code >= 0 {
                    crate::numeral::dec_string(*code as u64)
                } else {
                    let mut neg = String::from_str("-");
                    let mag: i64 = -(*code as i64);
                    neg.append(crate::numeral::dec_string(mag as u64).as_str());
                    neg
                };
                let ghost pre = s@;
                s.append(c.as_str());
                proof {
                    assert(s@.take(pre.len() as int) =~= pre);
                }
                s
            },
        }
    }
}

/// Classifies how a compiler run in a worker thread ended.
pub fn classify_compiler_exit(panicked: bool, exit_code: i32) -> (r: Result<i32, AnalysisError>)
    ensures
        panicked ==> r == Result::<i32, AnalysisError>::Err(AnalysisError::RustcPanic),
        !panicked && exit_code == 0 ==> r == Result::<i32, AnalysisError>::Ok(0i32),
        !panicked && exit_code != 0 ==> r == Result::<i32, AnalysisError>::Err(
            AnalysisError::CompilationFailed(exit_code),
        ),
{
    if panicked {
        Err(AnalysisError::RustcPanic)
    } else if exit_code == 0 {
        Ok(0)
    } else {
        Err(AnalysisError::CompilationFailed(exit_code))
    }
}

/// Whether one argument forces a plain compiler run: version queries and
/// `--print` requests are answered by the unmodified compiler.
pub open spec fn spec_plain_flag(a: Seq<char>) -> bool {
    a == "-vV"@ || a == "--version"@ || spec_has_prefix(a, "--print"@)
}

/// What a compiler invocation should do with its arguments. When the
/// process is used as a workspace wrapper the wrapped compiler name is
/// doubled; only then is the user's own crate being compiled and
/// analysis worthwhile, and the duplicate first argument is dropped.
/// Version and print queries still go to the plain compiler.
pub struct CompilerPlan {
    pub args: Vec<String>,
    pub analyze: bool,
}

/// Decides whether to run the analysis callbacks and with which
/// arguments.
pub fn plan_compiler_run(args: &Vec<String>) -> (r: CompilerPlan)
    ensures
        ({
            let vs = args@.map_values(|s: String| s@);
            let rs = r.args@.map_values(|s: String| s@);
            if vs.len() >= 2 && vs[0] == vs[1] {
                &&& rs =~= vs.drop_first()
                &&& r.analyze <==> !(exists|i: int|
                    0 <= i < rs.len() && spec_plain_flag(#[trigger] rs[i]))
            } else {
                rs =~= vs && !r.analyze
            }
        }),
{
    let ghost vs = args@.map_values(|s: String| s@);
    let wrapped = args.len() >= 2 && str_eq(args[0].as_str(), args[1].as_str());
    let start: usize = if wrapped {
        1
    } else {
        0
    };
    let mut out: Vec<String> = Vec::new();
    let mut i: usize = start;
    while i < args.len()
        invariant
            start <= i <= args@.len(),
            start <= 1,
            vs == args@.map_values(|s: String| s@),
            out@.map_values(|s: String| s@) =~= vs.subrange(start as int, i as int),
        decreases args@.len() - i,
    {
        out.push(args[i].clone());
        proof {
            assert(out@.map_values(|s: String| s@) =~= out@.drop_last().map_values(
                |s: String| s@,
            ).push(out@.last()@));
            assert(vs.subrange(start as int, i + 1) =~= vs.subrange(start as int, i as int).push(
                vs[i as int],
            ));
        }
        i = i + 1;
    }
    if !wrapped {
        proof {
            assert(vs.subrange(0, vs.len() as int) =~= vs);
        }
        return CompilerPlan { args: out, analyze: false };
    }
    proof {
        assert(vs.subrange(1, vs.len() as int) =~= vs.drop_first());
    }
    let ghost rs = out@.map_values(|s: String| s@);
    let mut plain = false;
    let mut j: usize = 0;
    while j < out.len() && !plain
        invariant
            0 <= j <= out@.len(),
            rs == out@.map_values(|s: String| s@),
            !plain ==> forall|t: int| 0 <= t < j ==> !spec_plain_flag(#[trigger] rs[t]),
            plain ==> exists|t: int| 0 <= t < rs.len() && spec_plain_flag(#[trigger] rs[t]),
        decreases out@.len() - j + (if plain { 0int } else { 1int }),
    {
        assert(rs[j as int] == out@[j as int]@);
        let a = &out[j];
        if str_eq(a.as_str(), "-vV") || str_eq(a.as_str(), "--version") || has_prefix(
            a.as_str(),
            "--print",
        ) {
            plain = true;
            assert(spec_plain_flag(rs[j as int]));
        } else {
            j = j + 1;
        }
    }
    if !plain {
        assert(forall|t: int| 0 <= t < rs.len() ==> !spec_plain_flag(#[trigger] rs[t]));
    }
    CompilerPlan { args: out, analyze: !plain }
}

} // verus!
