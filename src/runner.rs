//! The multi-host scan state machine. It pulls stages from a `Scheduler`
//! while serving the first host, keeps them in an append-only cache, and
//! replays that cache by cursor for every later host, in host-major,
//! stage-minor, VT-minor order. The caller performs each action it returns.
use vstd::prelude::*;
use crate::scheduling::{
    deps_view, groups_levels, is_layering, lemma_complete_scheduler_plan, lemma_count_open_bound,
    lemma_layered_plans_equal, lemma_plan_size_push, lemma_vts_before_mono, lemma_vts_before_nonneg,
    lemma_vts_before_prefix, plan_size, vts_before, ScheduleError, Scheduler,
};

verus! {

/// What the caller has to do next.
#[derive(Clone, Copy, Debug, PartialEq, Eq, Structural)]
pub enum RunnerAction {
    /// Run VT `vt`, of stage `stage` of the plan, against host `host`.
    Execute { host: usize, stage: usize, vt: usize },
    /// Every VT has been run against `host`: notify the knowledge base,
    /// under that host's scope, that its scan is finished.
    ScanFinished { host: usize },
    /// The VTs cannot be scheduled; the run ends here.
    ScheduleFailed(ScheduleError),
    /// All hosts are done, or the run has failed; no further actions follow.
    Done,
}

/// The runner's state: the scheduler and the stages taken from it so far,
/// the number of target hosts, the current host, the cursor
/// `(stage, index)` into the cached stages, and whether scheduling failed.
pub struct ScanRunner {
    pub scheduler: Scheduler,
    pub cache: Vec<Vec<usize>>,
    pub hosts: usize,
    pub current_host: usize,
    pub stage: usize,
    pub index: usize,
    pub failed: bool,
}

impl ScanRunner {
    pub open spec fn plan_view(&self) -> Seq<Seq<usize>> {
        deps_view(&self.cache)
    }

    /// Number of VTs of the scan.
    pub open spec fn vt_count(&self) -> int {
        self.scheduler.deps_spec().len() as int
    }

    /// The cache holds exactly the stages taken from the scheduler, the
    /// cursor stands inside it, the whole plan is known before the second
    /// host starts, and the cursor is at its start once all hosts are done.
    pub open spec fn wf(&self) -> bool {
        &&& self.scheduler.wf()
        &&& self.plan_view() == self.scheduler.produced@
        &&& self.current_host <= self.hosts
        &&& self.stage <= self.cache@.len()
        &&& self.stage < self.cache@.len() ==> self.index <= self.cache@[self.stage as int]@.len()
        &&& self.stage == self.cache@.len() ==> self.index == 0
        &&& self.current_host > 0 ==> self.scheduler.is_complete()
        &&& self.current_host == self.hosts ==> self.stage == 0 && self.index == 0
    }

    /// How many VTs of the current host have been run.
    pub open spec fn position(&self) -> int {
        vts_before(self.plan_view(), self.stage as int) + self.index
    }

    /// How many `Execute` actions are still to come, unless scheduling fails.
    pub open spec fn remaining_runs(&self) -> int {
        if self.failed {
            0
        } else {
            (self.hosts - self.current_host) * self.vt_count() - self.position()
        }
    }

    /// How many `ScanFinished` actions are still to come, unless scheduling fails.
    pub open spec fn remaining_finishes(&self) -> int {
        if self.failed {
            0
        } else {
            self.hosts - self.current_host
        }
    }

    /// A runner that takes its stages from the fresh `scheduler` and runs
    /// them against `hosts` target hosts.
    pub fn new(scheduler: Scheduler, hosts: usize) -> (r: ScanRunner)
        requires
            scheduler.wf(),
            scheduler.produced@.len() == 0,
        ensures
            r.wf(),
            r.scheduler == scheduler,
            r.hosts == hosts,
            r.current_host == 0,
            !r.failed,
            r.position() == 0,
            r.remaining_runs() == hosts * scheduler.deps_spec().len(),
            r.remaining_finishes() == hosts,
    {
        let r = ScanRunner {
            scheduler,
            cache: Vec::new(),
            hosts,
            current_host: 0,
            stage: 0,
            index: 0,
            failed: false,
        };
        proof {
            assert(r.plan_view() =~= r.scheduler.produced@);
        }
        r
    }

    /// Decides the next action and moves the cursor past it.
    ///
    /// `Execute` comes for each VT of the plan in order, for the current
    /// host; after the last one `ScanFinished` comes for that host and the
    /// next host starts at the first stage; after the last host only `Done`
    /// comes. While the first host is served, a stage is taken from the
    /// scheduler whenever the cursor runs past the cached ones; a scheduling
    /// failure gives `ScheduleFailed` once and `Done` ever after. Later hosts
    /// replay the cache without touching the scheduler.
    pub fn next(&mut self) -> (r: RunnerAction)
        requires
            old(self).wf(),
        ensures
            final(self).wf(),
            final(self).hosts == old(self).hosts,
            final(self).scheduler.deps == old(self).scheduler.deps,
            old(self).plan_view().len() <= final(self).plan_view().len(),
            forall|s: int|
                0 <= s < old(self).plan_view().len() ==> #[trigger] final(self).plan_view()[s]
                    == old(self).plan_view()[s],
            old(self).current_host > 0 ==> final(self).cache == old(self).cache
                && final(self).scheduler == old(self).scheduler,
            r == RunnerAction::Done <==> old(self).failed || old(self).current_host == old(self).hosts,
            r == RunnerAction::Done ==> *final(self) == *old(self) && final(self).remaining_runs() == 0
                && final(self).remaining_finishes() == 0,
            r matches RunnerAction::ScheduleFailed(e) ==> {
                &&& e == ScheduleError::Cycle
                &&& old(self).current_host == 0
                &&& final(self).failed
                &&& forall|levels: Seq<usize>| !is_layering(old(self).scheduler.deps_spec(), levels)
            },
            r matches RunnerAction::Execute { host, stage, vt } ==> {
                &&& host == old(self).current_host
                &&& final(self).current_host == host
                &&& host < final(self).hosts
                &&& stage == final(self).stage
                &&& stage < final(self).cache@.len()
                &&& 1 <= final(self).index <= final(self).cache@[stage as int]@.len()
                &&& vt == final(self).cache@[stage as int]@[final(self).index - 1]
                &&& final(self).position() == old(self).position() + 1
                &&& final(self).remaining_runs() == old(self).remaining_runs() - 1
                &&& final(self).remaining_finishes() == old(self).remaining_finishes()
            },
            r matches RunnerAction::ScanFinished { host } ==> {
                &&& host == old(self).current_host
                &&& final(self).current_host == host + 1
                &&& old(self).position() == old(self).vt_count()
                &&& final(self).position() == 0
                &&& final(self).remaining_runs() == old(self).remaining_runs()
                &&& final(self).remaining_finishes() == old(self).remaining_finishes() - 1
            },
            r != RunnerAction::Done ==> 0 <= final(self).remaining_runs() + final(self).remaining_finishes()
                < old(self).remaining_runs() + old(self).remaining_finishes(),
            !(r is ScheduleFailed) ==> final(self).failed == old(self).failed,
            is_step(*old(self), r, *final(self)),
    {
        let ghost p = self.plan_view();
        let ghost pos0 = self.position();
        let ghost n = self.vt_count();
        proof {
            lemma_vts_before_mono(p, self.stage as int, p.len() as int);
            if self.stage < p.len() {
                lemma_vts_before_mono(p, self.stage as int + 1, p.len() as int);
                assert(vts_before(p, self.stage as int + 1) == vts_before(p, self.stage as int)
                    + p[self.stage as int].len());
            }
            lemma_count_open_bound(self.scheduler.done@);
            assert(0 <= pos0 <= plan_size(p) <= n);
        }
        if self.failed || self.current_host >= self.hosts {
            proof {
                if !self.failed {
                    assert(self.remaining_runs() == 0 * n - 0);
                }
            }
            return RunnerAction::Done;
        }
        while self.stage < self.cache.len() && self.index >= self.cache[self.stage].len()
            invariant
                self.wf(),
                self.plan_view() == p,
                self.cache == old(self).cache,
                self.scheduler == old(self).scheduler,
                self.hosts == old(self).hosts,
                self.current_host == old(self).current_host,
                self.failed == old(self).failed,
                !self.failed,
                self.current_host < self.hosts,
                self.position() == pos0,
            decreases self.cache@.len() - self.stage,
        {
            proof {
                assert(vts_before(p, self.stage as int + 1) == vts_before(p, self.stage as int)
                    + p[self.stage as int].len());
                assert(self.cache@[self.stage as int]@ == p[self.stage as int]);
            }
            self.stage = self.stage + 1;
            self.index = 0;
        }
        if self.stage >= self.cache.len() {
            if self.scheduler.scheduled < self.scheduler.deps.len() {
                match self.scheduler.next_stage() {
                    Some(Ok(st)) => {
                        let ghost sv = st@;
                        self.cache.push(st);
                        proof {
                            assert(self.plan_view() =~= p.push(sv));
                            lemma_vts_before_prefix(p, sv, p.len() as int);
                            lemma_plan_size_push(p, sv);
                        }
                    },
                    Some(Err(e)) => {
                        proof {
                            let left = (self.hosts - self.current_host) as int;
                            assert(left * n >= n) by (nonlinear_arith)
                                requires left >= 1, n >= 0;
                        }
                        self.failed = true;
                        return RunnerAction::ScheduleFailed(e);
                    },
                    None => {
                        return RunnerAction::Done;
                    },
                }
            } else {
                let host = self.current_host;
                let ghost left = (self.hosts - host) as int;
                self.current_host = host + 1;
                self.stage = 0;
                self.index = 0;
                proof {
                    assert(left * n - n == (left - 1) * n) by (nonlinear_arith);
                    assert((left - 1) * n >= 0) by (nonlinear_arith)
                        requires left >= 1, n >= 0;
                }
                return RunnerAction::ScanFinished { host };
            }
        }
        let ghost q = self.plan_view();
        let vt = self.cache[self.stage][self.index];
        self.index = self.index + 1;
        proof {
            assert(self.cache@[self.stage as int]@ == q[self.stage as int]);
            lemma_vts_before_mono(q, self.stage as int + 1, q.len() as int);
            assert(vts_before(q, self.stage as int + 1) == vts_before(q, self.stage as int)
                + q[self.stage as int].len());
            lemma_count_open_bound(self.scheduler.done@);
            let left = (self.hosts - self.current_host) as int;
            assert(left * n >= n) by (nonlinear_arith)
                requires left >= 1, n >= 0;
        }
        RunnerAction::Execute { host: self.current_host, stage: self.stage, vt }
    }
}

/// What one call of `next` does to the counters: the facts a whole run is
/// built from.
pub open spec fn is_step(a: ScanRunner, r: RunnerAction, b: ScanRunner) -> bool {
    &&& b.wf()
    &&& b.hosts == a.hosts
    &&& b.scheduler.deps == a.scheduler.deps
    &&& (!(r is ScheduleFailed) ==> b.failed == a.failed)
    &&& match r {
        RunnerAction::Done => b == a && (a.failed || (a.remaining_runs() == 0 && a.current_host == a.hosts)),
        RunnerAction::Execute { host, .. } => host == a.current_host && b.current_host == a.current_host
            && b.remaining_runs() == a.remaining_runs() - 1,
        RunnerAction::ScanFinished { host } => host == a.current_host && b.current_host == host + 1
            && b.remaining_runs() == a.remaining_runs(),
        RunnerAction::ScheduleFailed(_) => b.failed,
    }
}

/// Number of `Execute` actions in `acts`.
pub open spec fn execute_count(acts: Seq<RunnerAction>) -> nat
    decreases acts.len(),
{
    if acts.len() == 0 {
        0
    } else {
        execute_count(acts.drop_last()) + if acts.last() is Execute {
            1nat
        } else {
            0nat
        }
    }
}

/// The hosts named by the `ScanFinished` actions in `acts`, in order.
pub open spec fn finished_hosts(acts: Seq<RunnerAction>) -> Seq<usize>
    decreases acts.len(),
{
    if acts.len() == 0 {
        Seq::empty()
    } else {
        match acts.last() {
            RunnerAction::ScanFinished { host } => finished_hosts(acts.drop_last()).push(host),
            _ => finished_hosts(acts.drop_last()),
        }
    }
}

/// `states` and `acts` record a run of `next` calls from `states[0]`:
/// `acts[i]` was returned when going from `states[i]` to `states[i + 1]`.
pub open spec fn is_run(states: Seq<ScanRunner>, acts: Seq<RunnerAction>) -> bool {
    &&& states.len() == acts.len() + 1
    &&& forall|i: int| 0 <= i < acts.len() ==> is_step(states[i], #[trigger] acts[i], states[i + 1])
}

proof fn lemma_run_prefix(states: Seq<ScanRunner>, acts: Seq<RunnerAction>, k: int)
    requires
        is_run(states, acts),
        !states[0].failed,
        states[0].current_host == 0,
        forall|i: int| 0 <= i < acts.len() ==> !(#[trigger] acts[i] is ScheduleFailed),
        0 <= k <= acts.len(),
    ensures
        !states[k].failed,
        execute_count(acts.subrange(0, k)) == states[0].remaining_runs() - states[k].remaining_runs(),
        finished_hosts(acts.subrange(0, k)) == Seq::new(states[k].current_host as nat, |h: int| h as usize),
        states[k].hosts == states[0].hosts,
    decreases k,
{
    if k > 0 {
        lemma_run_prefix(states, acts, k - 1);
        let pre = acts.subrange(0, k - 1);
        let cur = acts.subrange(0, k);
        assert(cur.drop_last() =~= pre);
        assert(cur.last() == acts[k - 1]);
        assert(is_step(states[k - 1], acts[k - 1], states[k]));
        assert(!(acts[k - 1] is ScheduleFailed));
        let h = states[k - 1].current_host;
        if let RunnerAction::ScanFinished { host } = acts[k - 1] {
            assert(finished_hosts(cur) =~= Seq::new((h + 1) as nat, |x: int| x as usize));
        } else {
            assert(finished_hosts(cur) =~= Seq::new(states[k].current_host as nat, |x: int| x as usize));
        }
    } else {
        assert(acts.subrange(0, 0) =~= Seq::<RunnerAction>::empty());
        assert(finished_hosts(acts.subrange(0, 0)) =~= Seq::new(0, |h: int| h as usize));
    }
}

/// A run from a fresh runner that ends in `Done` without a scheduling
/// failure has run every one of the scan's VTs against each of its hosts
/// (hosts times VTs `Execute` actions) and has announced the end of each
/// host's scan exactly once, for hosts `0, 1, ...` in order.
pub proof fn lemma_complete_run(states: Seq<ScanRunner>, acts: Seq<RunnerAction>)
    requires
        is_run(states, acts),
        states[0].wf(),
        !states[0].failed,
        states[0].current_host == 0,
        states[0].position() == 0,
        acts.len() > 0,
        acts.last() == RunnerAction::Done,
        forall|i: int| 0 <= i < acts.len() ==> !(#[trigger] acts[i] is ScheduleFailed),
    ensures
        execute_count(acts) == states[0].hosts * states[0].vt_count(),
        finished_hosts(acts) == Seq::new(states[0].hosts as nat, |h: int| h as usize),
{
    let k = acts.len() - 1;
    lemma_run_prefix(states, acts, k);
    lemma_run_prefix(states, acts, acts.len() as int);
    assert(acts.subrange(0, acts.len() as int) =~= acts);
    assert(is_step(states[k], acts[k], states[k + 1]));
    assert(states[0].remaining_runs() == (states[0].hosts - 0) * states[0].vt_count() - 0);
}

/// Once the first host is done, the cache a runner replays for every later
/// host is the plan that scheduling the same dependencies afresh gives.
pub proof fn lemma_cached_plan_is_fresh_plan(
    runner: ScanRunner,
    levels: Seq<usize>,
    stages: Seq<Seq<usize>>,
)
    requires
        runner.wf(),
        runner.current_host > 0,
        is_layering(runner.scheduler.deps_spec(), levels),
        groups_levels(levels, stages),
    ensures
        runner.plan_view() == stages,
{
    lemma_complete_scheduler_plan(runner.scheduler);
    lemma_layered_plans_equal(
        runner.scheduler.deps_spec(),
        runner.scheduler.levels@,
        runner.plan_view(),
        levels,
        stages,
    );
}

} // verus!
