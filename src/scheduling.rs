//! Dependency scheduling: turns the VTs of a scan and their dependencies into
//! stages of mutually independent VTs, each VT in the earliest stage at which
//! all of its dependencies are already scheduled.
use vstd::prelude::*;
use vstd::string::*;

verus! {

/// Why a scan's VTs cannot be put in order.
#[derive(Clone, Copy, Debug, PartialEq, Eq, Structural)]
pub enum ScheduleError {
    /// Dependency number `dependency` of VT `vt` names no VT of the scan.
    UnknownDependency { vt: usize, dependency: usize },
    /// The VTs that are left depend on each other: no progress is possible.
    Cycle,
}

/// The dependency lists of the VTs, as sequences of VT indices.
pub open spec fn deps_view(deps: &Vec<Vec<usize>>) -> Seq<Seq<usize>> {
    deps@.map_values(|d: Vec<usize>| d@)
}

/// Every dependency names a VT of the scan.
pub open spec fn deps_in_range(deps: Seq<Seq<usize>>) -> bool {
    forall|v: int, k: int|
        0 <= v < deps.len() && 0 <= k < deps[v].len() ==> #[trigger] deps[v][k] < deps.len()
}

/// `levels` gives each VT the earliest stage at which all of its
/// dependencies are in earlier stages.
pub open spec fn is_layering(deps: Seq<Seq<usize>>, levels: Seq<usize>) -> bool {
    &&& levels.len() == deps.len()
    &&& deps_in_range(deps)
    &&& forall|v: int, k: int|
        0 <= v < deps.len() && 0 <= k < deps[v].len() ==> levels[#[trigger] deps[v][k] as int]
            < levels[v]
    &&& forall|v: int|
        0 <= v < deps.len() && #[trigger] levels[v] > 0 ==> exists|k: int|
            0 <= k < deps[v].len() && levels[#[trigger] deps[v][k] as int] == levels[v] - 1
}

/// `stages` groups the VTs by their level: stage `s` holds exactly the VTs of
/// level `s`, in increasing order, and no stage is empty.
pub open spec fn groups_levels(levels: Seq<usize>, stages: Seq<Seq<usize>>) -> bool {
    &&& forall|s: int, i: int|
        0 <= s < stages.len() && 0 <= i < stages[s].len() ==> #[trigger] stages[s][i]
            < levels.len() && levels[stages[s][i] as int] == s
    &&& forall|v: int|
        0 <= v < levels.len() ==> #[trigger] levels[v] < stages.len() && exists|i: int|
            0 <= i < stages[levels[v] as int].len() && #[trigger] stages[levels[v] as int][i] == v
    &&& forall|s: int, i: int, j: int|
        0 <= s < stages.len() && 0 <= i < j < stages[s].len() ==> #[trigger] stages[s][i]
            < #[trigger] stages[s][j]
    &&& forall|s: int| 0 <= s < stages.len() ==> #[trigger] stages[s].len() > 0
}

/// A set of VTs that can never be scheduled: none is empty of dependencies
/// inside the set, so the dependencies among them contain a cycle.
pub open spec fn is_blocked_set(deps: Seq<Seq<usize>>, rest: Set<int>) -> bool {
    &&& exists|v: int| rest.contains(v)
    &&& forall|v: int| #[trigger] rest.contains(v) ==> 0 <= v < deps.len()
    &&& forall|v: int| #[trigger] rest.contains(v) ==> depends_inside(deps, rest, v)
}

/// Some dependency of VT `v` lies in `rest`.
#[verifier::opaque]
pub open spec fn depends_inside(deps: Seq<Seq<usize>>, rest: Set<int>, v: int) -> bool {
    exists|k: int| 0 <= k < deps[v].len() && rest.contains(#[trigger] deps[v][k] as int)
}

/// The stage plan of a scan: the VT indices of each stage, and the stage of each VT.
pub struct StagePlan {
    pub stages: Vec<Vec<usize>>,
    pub levels: Vec<usize>,
}

impl StagePlan {
    pub open spec fn stages_view(&self) -> Seq<Seq<usize>> {
        deps_view(&self.stages)
    }

    /// This plan is the layered topological order of `deps`.
    pub open spec fn is_plan_for(&self, deps: Seq<Seq<usize>>) -> bool {
        is_layering(deps, self.levels@) && groups_levels(self.levels@, self.stages_view())
    }
}

/// Number of `false` entries of `s`.
pub open spec fn count_open(s: Seq<bool>) -> nat
    decreases s.len(),
{
    if s.len() == 0 {
        0
    } else {
        count_open(s.drop_last()) + if s.last() {
            0nat
        } else {
            1nat
        }
    }
}

proof fn lemma_count_open_update(s: Seq<bool>, j: int)
    requires
        0 <= j < s.len(),
        !s[j],
    ensures
        count_open(s.update(j, true)) + 1 == count_open(s),
    decreases s.len(),
{
    let t = s.update(j, true);
    if j == s.len() - 1 {
        assert(t.drop_last() =~= s.drop_last());
    } else {
        assert(t.drop_last() =~= s.drop_last().update(j, true));
        lemma_count_open_update(s.drop_last(), j);
    }
}

proof fn lemma_count_open_zero(s: Seq<bool>)
    requires
        count_open(s) == 0,
    ensures
        forall|i: int| 0 <= i < s.len() ==> #[trigger] s[i],
    decreases s.len(),
{
    if s.len() > 0 {
        lemma_count_open_zero(s.drop_last());
        assert forall|i: int| 0 <= i < s.len() implies #[trigger] s[i] by {
            if i < s.len() - 1 {
                assert(s.drop_last()[i] == s[i]);
            }
        }
    }
}

pub proof fn lemma_count_open_bound(s: Seq<bool>)
    ensures
        count_open(s) <= s.len(),
    decreases s.len(),
{
    if s.len() > 0 {
        lemma_count_open_bound(s.drop_last());
    }
}

/// Whether every VT listed in `deps_v` is marked in `done`.
fn all_done(deps_v: &Vec<usize>, done: &Vec<bool>) -> (r: bool)
    requires
        forall|k: int| 0 <= k < deps_v@.len() ==> #[trigger] deps_v@[k] < done@.len(),
    ensures
        r == forall|k: int| 0 <= k < deps_v@.len() ==> done@[#[trigger] deps_v@[k] as int],
{
    let mut k: usize = 0;
    while k < deps_v.len()
        invariant
            k <= deps_v@.len(),
            forall|k: int| 0 <= k < deps_v@.len() ==> #[trigger] deps_v@[k] < done@.len(),
            forall|j: int| 0 <= j < k ==> done@[#[trigger] deps_v@[j] as int],
        decreases deps_v@.len() - k,
    {
        if !done[deps_v[k]] {
            return false;
        }
        k += 1;
    }
    true
}

/// Finds a dependency that names no VT, scanning the VTs in order and each
/// VT's dependencies in order.
fn find_unknown_dependency(deps: &Vec<Vec<usize>>) -> (r: Option<(usize, usize)>)
    ensures
        r is None <==> deps_in_range(deps_view(deps)),
        r matches Some((v, k)) ==> v < deps@.len() && k < deps@[v as int]@.len()
            && deps@[v as int]@[k as int] >= deps@.len(),
{
    let ghost d = deps_view(deps);
    let n = deps.len();
    let mut v: usize = 0;
    while v < n
        invariant
            n == deps@.len(),
            d == deps_view(deps),
            v <= n,
            forall|w: int, k: int|
                0 <= w < v && 0 <= k < d[w].len() ==> #[trigger] d[w][k] < n,
        decreases n - v,
    {
        let dv = &deps[v];
        let mut k: usize = 0;
        while k < dv.len()
            invariant
                n == deps@.len(),
                d == deps_view(deps),
                v < n,
                dv@ == d[v as int],
                k <= dv@.len(),
                forall|w: int, j: int|
                    0 <= w < v && 0 <= j < d[w].len() ==> #[trigger] d[w][j] < n,
                forall|j: int| 0 <= j < k ==> #[trigger] d[v as int][j] < n,
            decreases dv@.len() - k,
        {
            if dv[k] >= n {
                return Some((v, k));
            }
            k += 1;
        }
        v += 1;
    }
    None
}

/// A scheduler that hands out the stages of a plan one at a time.
///
/// `deps` are the dependency lists of the VTs as VT indices. `done` marks the
/// VTs placed so far, `levels` gives the stage of each of them, `scheduled`
/// counts them, and `produced` holds the `rounds` stages handed out.
pub struct Scheduler {
    pub deps: Vec<Vec<usize>>,
    pub levels: Vec<usize>,
    pub done: Vec<bool>,
    pub scheduled: usize,
    pub rounds: usize,
    pub produced: Ghost<Seq<Seq<usize>>>,
}

impl Scheduler {
    pub open spec fn deps_spec(&self) -> Seq<Seq<usize>> {
        deps_view(&self.deps)
    }

    /// Every VT placed so far stands in the earliest stage that its
    /// dependencies allow, and the stages handed out group exactly the
    /// placed VTs by stage.
    pub open spec fn wf(&self) -> bool {
        let d = self.deps_spec();
        let n = d.len();
        let stages = self.produced@;
        &&& deps_in_range(d)
        &&& self.levels@.len() == n
        &&& self.done@.len() == n
        &&& self.scheduled + count_open(self.done@) == n
        &&& plan_size(stages) == self.scheduled
        &&& self.rounds == stages.len()
        &&& self.rounds <= self.scheduled
        &&& forall|v: int| 0 <= v < n && #[trigger] self.done@[v] ==> self.levels@[v] < stages.len()
        &&& forall|v: int, k: int|
            0 <= v < n && self.done@[v] && 0 <= k < d[v].len() ==> self.done@[#[trigger] d[v][k] as int]
                && self.levels@[d[v][k] as int] < self.levels@[v]
        &&& forall|v: int|
            0 <= v < n && self.done@[v] && #[trigger] self.levels@[v] > 0 ==> exists|k: int|
                0 <= k < d[v].len() && self.levels@[#[trigger] d[v][k] as int] == self.levels@[v] - 1
        &&& forall|v: int|
            0 <= v < n && !#[trigger] self.done@[v] && stages.len() > 0 ==> exists|k: int|
                0 <= k < d[v].len() && (!self.done@[#[trigger] d[v][k] as int] || self.levels@[d[v][k] as int]
                    == stages.len() - 1)
        &&& forall|s: int, i: int|
            0 <= s < stages.len() && 0 <= i < stages[s].len() ==> #[trigger] stages[s][i] < n
                && self.done@[stages[s][i] as int] && self.levels@[stages[s][i] as int] == s
        &&& forall|v: int|
            0 <= v < n && #[trigger] self.done@[v] ==> exists|i: int|
                0 <= i < stages[self.levels@[v] as int].len() && #[trigger] stages[self.levels@[v] as int][i] == v
        &&& forall|s: int, i: int, j: int|
            0 <= s < stages.len() && 0 <= i < j < stages[s].len() ==> #[trigger] stages[s][i]
                < #[trigger] stages[s][j]
        &&& forall|s: int| 0 <= s < stages.len() ==> #[trigger] stages[s].len() > 0
    }

    /// Whether every VT has been placed.
    pub open spec fn is_complete(&self) -> bool {
        self.scheduled == self.deps_spec().len()
    }

    /// A scheduler for the VTs whose dependency lists are `deps`; fails with
    /// `UnknownDependency`, for the first such dependency, exactly when a
    /// dependency index is out of range.
    pub fn new(deps: Vec<Vec<usize>>) -> (r: Result<Scheduler, ScheduleError>)
        ensures
            r matches Ok(s) ==> s.wf() && s.deps == deps && s.scheduled == 0 && s.produced@
                == Seq::<Seq<usize>>::empty(),
            r matches Err(ScheduleError::UnknownDependency { vt, dependency }) ==> vt < deps@.len()
                && dependency < deps@[vt as int]@.len() && deps@[vt as int]@[dependency as int]
                >= deps@.len(),
            r is Err <==> !deps_in_range(deps_view(&deps)),
            !(r matches Err(ScheduleError::Cycle)),
    {
        if let Some((vt, dependency)) = find_unknown_dependency(&deps) {
            return Err(ScheduleError::UnknownDependency { vt, dependency });
        }
        let n = deps.len();
        let mut levels: Vec<usize> = Vec::new();
        let mut done: Vec<bool> = Vec::new();
        let mut i: usize = 0;
        while i < n
            invariant
                i <= n,
                levels@.len() == i,
                done@.len() == i,
                forall|j: int| 0 <= j < i ==> !#[trigger] done@[j],
            decreases n - i,
        {
            levels.push(0);
            done.push(false);
            i += 1;
        }
        proof {
            assert(done@ =~= Seq::new(n as nat, |j: int| false));
            lemma_count_open_all_false(done@);
        }
        Ok(Scheduler { deps, levels, done, scheduled: 0, rounds: 0, produced: Ghost(Seq::empty()) })
    }

    /// The next stage: every VT not yet placed whose dependencies are all
    /// placed, in increasing order. `None` once every VT is placed; `Cycle`,
    /// with nothing changed, when VTs are left but none of them can be placed.
    #[verifier::rlimit(50)]
    pub fn next_stage(&mut self) -> (r: Option<Result<Vec<usize>, ScheduleError>>)
        requires
            old(self).wf(),
        ensures
            final(self).wf(),
            final(self).deps == old(self).deps,
            r is None <==> old(self).is_complete(),
            r matches Some(Err(e)) ==> e == ScheduleError::Cycle && *final(self) == *old(self)
                && (exists|rest: Set<int>| is_blocked_set(old(self).deps_spec(), rest))
                && forall|levels: Seq<usize>| !is_layering(old(self).deps_spec(), levels),
            r is None ==> *final(self) == *old(self) && is_layering(old(self).deps_spec(), old(self).levels@)
                && groups_levels(old(self).levels@, old(self).produced@),
            r matches Some(Ok(st)) ==> st@.len() > 0 && final(self).produced@ == old(self).produced@.push(st@)
                && final(self).scheduled == old(self).scheduled + st@.len(),
    {
        let ghost d = self.deps_spec();
        let n = self.deps.len();
        let ghost stages0 = self.produced@;
        if self.scheduled >= n {
            proof {
                lemma_count_open_bound(self.done@);
                lemma_complete_scheduler_plan(*self);
            }
            return None;
        }
        let round = self.rounds;
        let mut stage: Vec<usize> = Vec::new();
        let mut v: usize = 0;
        while v < n
            invariant
                n == self.deps@.len(),
                d == self.deps_spec(),
                deps_in_range(d),
                self.done@.len() == n,
                v <= n,
                forall|i: int| 0 <= i < stage@.len() ==> #[trigger] stage@[i] < v,
                forall|i: int|
                    0 <= i < stage@.len() ==> !self.done@[#[trigger] stage@[i] as int],
                forall|i: int, k: int|
                    0 <= i < stage@.len() && 0 <= k < d[stage@[i] as int].len() ==> self.done@[#[trigger] d[stage@[i] as int][k] as int],
                forall|i: int, j: int|
                    0 <= i < j < stage@.len() ==> #[trigger] stage@[i] < #[trigger] stage@[j],
                forall|w: int|
                    0 <= w < v && !#[trigger] self.done@[w] && (forall|k: int|
                        0 <= k < d[w].len() ==> self.done@[#[trigger] d[w][k] as int]) ==> exists|i: int|
                        0 <= i < stage@.len() && stage@[i] == w,
            decreases n - v,
        {
            proof {
                assert(self.deps@[v as int]@ == d[v as int]);
                assert forall|k: int| 0 <= k < self.deps@[v as int]@.len() implies #[trigger] self.deps@[v as int]@[k] < self.done@.len() by {
                    assert(d[v as int][k] < n);
                }
            }
            let ghost stage0 = stage@;
            let ready = !self.done[v] && all_done(&self.deps[v], &self.done);
            if ready {
                stage.push(v);
            }
            proof {
                assert forall|w: int|
                    0 <= w < v + 1 && !#[trigger] self.done@[w] && (forall|k: int|
                        0 <= k < d[w].len() ==> self.done@[#[trigger] d[w][k] as int]) implies exists|i: int|
                        0 <= i < stage@.len() && stage@[i] == w by {
                    if w < v {
                        let i = choose|i: int| 0 <= i < stage0.len() && stage0[i] == w;
                        assert(stage@[i] == w);
                    } else if ready {
                        assert(stage@[stage@.len() - 1] == v);
                    } else {
                        let k = choose|k: int|
                            0 <= k < self.deps@[v as int]@.len() && !self.done@[#[trigger] self.deps@[v as int]@[k] as int];
                        assert(!self.done@[d[v as int][k] as int]);
                    }
                }
            }
            v += 1;
        }
        if stage.len() == 0 {
            proof {
                let done = self.done@;
                let rest = Set::new(|w: int| 0 <= w < n && !done[w]);
                lemma_open_witness(done);
                let w = choose|w: int| 0 <= w < done.len() && !done[w];
                assert(rest.contains(w));
                assert forall|u: int| #[trigger] rest.contains(u) implies depends_inside(d, rest, u) by {
                    reveal(depends_inside);
                    if !(exists|k: int| 0 <= k < d[u].len() && rest.contains(#[trigger] d[u][k] as int)) {
                        assert forall|k: int| 0 <= k < d[u].len() implies done[#[trigger] d[u][k] as int] by {
                            assert(!rest.contains(d[u][k] as int));
                        }
                    }
                }
                assert(is_blocked_set(d, rest));
                assert forall|levels: Seq<usize>| !is_layering(d, levels) by {
                    lemma_blocked_set_has_no_layering(d, rest, levels);
                }
            }
            return Some(Err(ScheduleError::Cycle));
        }
        let ghost done0 = self.done@;
        let ghost levels0 = self.levels@;
        let mut i: usize = 0;
        while i < stage.len()
            invariant
                n == self.deps@.len(),
                d == self.deps_spec(),
                self.deps == old(self).deps,
                self.done@.len() == n,
                done0.len() == n,
                levels0.len() == n,
                self.levels@.len() == n,
                self.produced@ == stages0,
                self.rounds == round,
                self.scheduled == old(self).scheduled,
                round == stages0.len(),
                0 <= i <= stage@.len(),
                forall|j: int| 0 <= j < stage@.len() ==> #[trigger] stage@[j] < n,
                forall|j: int| 0 <= j < stage@.len() ==> !done0[#[trigger] stage@[j] as int],
                forall|a: int, b: int|
                    0 <= a < b < stage@.len() ==> #[trigger] stage@[a] < #[trigger] stage@[b],
                forall|v: int|
                    0 <= v < n ==> #[trigger] self.done@[v] == (done0[v] || exists|j: int|
                        0 <= j < i && stage@[j] == v),
                forall|v: int|
                    0 <= v < n ==> #[trigger] self.levels@[v] == if exists|j: int|
                        0 <= j < i && stage@[j] == v {
                        round
                    } else {
                        levels0[v]
                    },
                self.scheduled + i + count_open(self.done@) == n,
                self.scheduled + i <= n,
            decreases stage@.len() - i,
        {
            let w = stage[i];
            proof {
                assert(!self.done@[w as int]) by {
                    if exists|j: int| 0 <= j < i && stage@[j] == w {
                        let j = choose|j: int| 0 <= j < i && stage@[j] == w;
                        assert(stage@[j] < stage@[i as int]);
                    }
                }
                lemma_count_open_update(self.done@, w as int);
                lemma_count_open_bound(self.done@.update(w as int, true));
            }
            self.done.set(w, true);
            self.levels.set(w, round);
            i += 1;
            proof {
                assert forall|v: int| 0 <= v < n implies #[trigger] self.done@[v] == (done0[v] || exists|j: int|
                    0 <= j < i && stage@[j] == v) by {
                    if v == w {
                        assert(stage@[i - 1] == v);
                    }
                }
                assert forall|v: int| 0 <= v < n implies #[trigger] self.levels@[v] == if exists|j: int|
                    0 <= j < i && stage@[j] == v {
                    round
                } else {
                    levels0[v]
                } by {
                    if v == w {
                        assert(stage@[i - 1] == v);
                    }
                }
            }
        }
        let ghost stage_v = stage@;
        self.scheduled = self.scheduled + stage.len();
        self.rounds = self.rounds + 1;
        self.produced = Ghost(stages0.push(stage_v));
        proof {
            let stages = self.produced@;
            let done = self.done@;
            let levels = self.levels@;
            lemma_plan_size_push(stages0, stage_v);
            assert(stages[round as int] == stage_v);
            assert forall|s: int| 0 <= s < round implies stages[s] == stages0[s] by {}
            assert forall|v: int, k: int|
                0 <= v < n && done[v] && 0 <= k < d[v].len() implies done[#[trigger] d[v][k] as int]
                    && levels[d[v][k] as int] < levels[v] by {
                if !done0[v] {
                    let j = choose|j: int| 0 <= j < stage_v.len() && stage_v[j] == v;
                    assert(done0[d[stage_v[j] as int][k] as int]);
                }
            }
            assert forall|v: int|
                0 <= v < n && done[v] && #[trigger] levels[v] > 0 implies exists|k: int|
                    0 <= k < d[v].len() && levels[#[trigger] d[v][k] as int] == levels[v] - 1 by {
                if !done0[v] {
                    let j = choose|j: int| 0 <= j < stage_v.len() && stage_v[j] == v;
                    let k = choose|k: int|
                        0 <= k < d[v].len() && (!done0[#[trigger] d[v][k] as int] || levels0[d[v][k] as int]
                            == round - 1);
                    assert(done0[d[stage_v[j] as int][k] as int]);
                    assert(levels[d[v][k] as int] == levels[v] - 1);
                } else {
                    let k = choose|k: int|
                        0 <= k < d[v].len() && levels0[#[trigger] d[v][k] as int] == levels0[v] - 1;
                    assert(levels[d[v][k] as int] == levels[v] - 1);
                }
            }
            assert forall|v: int|
                0 <= v < n && !#[trigger] done[v] && stages.len() > 0 implies exists|k: int|
                    0 <= k < d[v].len() && (!done[#[trigger] d[v][k] as int] || levels[d[v][k] as int]
                        == stages.len() - 1) by {
                let k = choose|k: int| 0 <= k < d[v].len() && !done0[#[trigger] d[v][k] as int];
                let dk = d[v][k] as int;
                if done[dk] {
                    let j = choose|j: int| 0 <= j < stage_v.len() && stage_v[j] == dk;
                }
            }
            assert forall|s: int, i: int|
                0 <= s < stages.len() && 0 <= i < stages[s].len() implies #[trigger] stages[s][i]
                    < n && done[stages[s][i] as int] && levels[stages[s][i] as int] == s by {
                if s == round {
                    assert(stages[s][i] == stage_v[i]);
                } else {
                    let u = stages[s][i] as int;
                    assert(stages0[s][i] == u);
                    if exists|j: int| 0 <= j < stage_v.len() && stage_v[j] == u {
                        let j = choose|j: int| 0 <= j < stage_v.len() && stage_v[j] == u;
                        assert(!done0[stage_v[j] as int]);
                    }
                }
            }
            assert forall|v: int| 0 <= v < n && #[trigger] done[v] implies exists|i: int|
                0 <= i < stages[levels[v] as int].len() && #[trigger] stages[levels[v] as int][i]
                    == v by {
                if !done0[v] {
                    let j = choose|j: int| 0 <= j < stage_v.len() && stage_v[j] == v;
                    assert(stages[levels[v] as int][j] == v);
                } else {
                    if exists|j: int| 0 <= j < stage_v.len() && stage_v[j] == v {
                        let j = choose|j: int| 0 <= j < stage_v.len() && stage_v[j] == v;
                        assert(!done0[stage_v[j] as int]);
                    }
                    let i = choose|i: int|
                        0 <= i < stages0[levels0[v] as int].len() && #[trigger] stages0[levels0[v] as int][i] == v;
                    assert(stages[levels[v] as int][i] == v);
                }
            }
            assert forall|s: int, i: int, j: int|
                0 <= s < stages.len() && 0 <= i < j < stages[s].len() implies #[trigger] stages[s][i]
                    < #[trigger] stages[s][j] by {
                if s < round {
                    assert(stages0[s][i] < stages0[s][j]);
                }
            }
            assert forall|s: int| 0 <= s < stages.len() implies #[trigger] stages[s].len() > 0 by {
                if s < round {
                    assert(stages0[s].len() > 0);
                }
            }
        }
        Some(Ok(stage))
    }
}

/// Once every VT is placed, the stages handed out form the layered plan.
pub proof fn lemma_complete_scheduler_plan(s: Scheduler)
    requires
        s.wf(),
        s.is_complete(),
    ensures
        is_layering(s.deps_spec(), s.levels@),
        groups_levels(s.levels@, s.produced@),
{
    let d = s.deps_spec();
    let stages0 = s.produced@;
    lemma_count_open_zero(s.done@);
    let lv = s.levels@;
    let done = s.done@;
    assert forall|v: int, k: int|
        0 <= v < d.len() && 0 <= k < d[v].len() implies lv[#[trigger] d[v][k] as int] < lv[v] by {
        assert(done[v]);
    }
    assert forall|v: int|
        0 <= v < d.len() && #[trigger] lv[v] > 0 implies exists|k: int|
            0 <= k < d[v].len() && lv[#[trigger] d[v][k] as int] == lv[v] - 1 by {
        assert(done[v]);
    }
    assert forall|v: int| 0 <= v < lv.len() implies #[trigger] lv[v] < stages0.len()
        && exists|i: int| 0 <= i < stages0[lv[v] as int].len() && #[trigger] stages0[lv[v] as int][i] == v by {
        assert(done[v]);
    }
}

/// Computes the whole stage plan of the VTs whose dependency lists are `deps`
/// (dependencies given as VT indices), by taking every stage of a `Scheduler`.
///
/// On success every VT stands in exactly one stage, after all of its
/// dependencies and as early as that allows. A dependency index out of range
/// gives `UnknownDependency` for the first one; otherwise `Cycle` is returned
/// exactly when no such plan exists.
pub fn plan_stages(deps: Vec<Vec<usize>>) -> (r: Result<StagePlan, ScheduleError>)
    ensures
        r matches Ok(p) ==> p.is_plan_for(deps_view(&deps)),
        r matches Err(ScheduleError::UnknownDependency { vt, dependency }) ==> vt < deps@.len()
            && dependency < deps@[vt as int]@.len() && deps@[vt as int]@[dependency as int]
            >= deps@.len(),
        r matches Err(ScheduleError::UnknownDependency { .. }) <==> !deps_in_range(
            deps_view(&deps),
        ),
        r matches Err(ScheduleError::Cycle) ==> exists|rest: Set<int>|
            is_blocked_set(deps_view(&deps), rest),
        r matches Err(ScheduleError::Cycle) ==> forall|levels: Seq<usize>|
            !is_layering(deps_view(&deps), levels),
{
    let ghost d = deps_view(&deps);
    let mut scheduler = Scheduler::new(deps)?;
    let mut stages: Vec<Vec<usize>> = Vec::new();
    proof {
        assert(deps_view(&stages) =~= scheduler.produced@);
    }
    loop
        invariant
            scheduler.wf(),
            scheduler.deps_spec() == d,
            d == deps_view(&deps),
            deps_view(&stages) == scheduler.produced@,
        ensures
            is_layering(d, scheduler.levels@),
            groups_levels(scheduler.levels@, deps_view(&stages)),
        decreases d.len() - scheduler.scheduled,
    {
        match scheduler.next_stage() {
            None => break,
            Some(Err(e)) => {
                return Err(e);
            },
            Some(Ok(stage)) => {
                stages.push(stage);
                proof {
                    assert(deps_view(&stages) =~= scheduler.produced@);
                }
            },
        }
    }
    Ok(StagePlan { stages, levels: scheduler.levels })
}

pub proof fn lemma_plan_size_push(stages: Seq<Seq<usize>>, st: Seq<usize>)
    ensures
        plan_size(stages.push(st)) == plan_size(stages) + st.len(),
{
    lemma_vts_before_prefix(stages, st, stages.len() as int);
}

pub proof fn lemma_vts_before_prefix(stages: Seq<Seq<usize>>, st: Seq<usize>, k: int)
    requires
        0 <= k <= stages.len(),
    ensures
        vts_before(stages.push(st), k) == vts_before(stages, k),
    decreases k,
{
    if k > 0 {
        lemma_vts_before_prefix(stages, st, k - 1);
        assert(stages.push(st)[k - 1] == stages[k - 1]);
    }
}

pub proof fn lemma_vts_before_mono(plan: Seq<Seq<usize>>, a: int, b: int)
    requires
        0 <= a <= b <= plan.len(),
    ensures
        0 <= vts_before(plan, a) <= vts_before(plan, b),
    decreases b - a,
{
    if a < b {
        lemma_vts_before_mono(plan, a, b - 1);
    } else {
        lemma_vts_before_nonneg(plan, a);
    }
}

pub proof fn lemma_vts_before_nonneg(plan: Seq<Seq<usize>>, a: int)
    requires
        0 <= a <= plan.len(),
    ensures
        0 <= vts_before(plan, a),
    decreases a,
{
    if a > 0 {
        lemma_vts_before_nonneg(plan, a - 1);
    }
}

/// Number of VTs in the first `s` stages of `plan`.
pub open spec fn vts_before(plan: Seq<Seq<usize>>, s: int) -> int
    decreases s,
{
    if s <= 0 || plan.len() == 0 {
        0
    } else if s > plan.len() {
        vts_before(plan, plan.len() as int)
    } else {
        vts_before(plan, s - 1) + plan[s - 1].len()
    }
}

/// Number of VTs in `plan`.
pub open spec fn plan_size(plan: Seq<Seq<usize>>) -> int {
    vts_before(plan, plan.len() as int)
}

proof fn lemma_count_open_all_false(s: Seq<bool>)
    requires
        forall|i: int| 0 <= i < s.len() ==> !#[trigger] s[i],
    ensures
        count_open(s) == s.len(),
    decreases s.len(),
{
    if s.len() > 0 {
        lemma_count_open_all_false(s.drop_last());
    }
}

proof fn lemma_open_witness(s: Seq<bool>)
    requires
        count_open(s) > 0,
    ensures
        exists|i: int| 0 <= i < s.len() && !s[i],
    decreases s.len(),
{
    if s.len() > 0 {
        if s.last() {
            lemma_open_witness(s.drop_last());
            let i = choose|i: int| 0 <= i < s.drop_last().len() && !s.drop_last()[i];
            assert(!s[i]);
        } else {
            assert(!s[s.len() - 1]);
        }
    }
}


proof fn lemma_blocked_set_levels_unbounded(
    deps: Seq<Seq<usize>>,
    rest: Set<int>,
    levels: Seq<usize>,
    m: nat,
)
    requires
        is_blocked_set(deps, rest),
        is_layering(deps, levels),
    ensures
        forall|v: int| #[trigger] rest.contains(v) ==> levels[v] >= m,
    decreases m,
{
    if m > 0 {
        lemma_blocked_set_levels_unbounded(deps, rest, levels, (m - 1) as nat);
        assert forall|v: int| #[trigger] rest.contains(v) implies levels[v] >= m by {
            assert(0 <= v < deps.len());
            assert(depends_inside(deps, rest, v));
            reveal(depends_inside);
            let k = choose|k: int| 0 <= k < deps[v].len() && rest.contains(#[trigger] deps[v][k] as int);
            let w = deps[v][k] as int;
            assert(rest.contains(w));
            assert(levels[w] >= m - 1);
            assert(levels[w] < levels[v]);
        }
    }
}

/// A blocked set rules out every layering: no plan exists for such dependencies.
pub proof fn lemma_blocked_set_has_no_layering(deps: Seq<Seq<usize>>, rest: Set<int>, levels: Seq<usize>)
    requires
        is_blocked_set(deps, rest),
    ensures
        !is_layering(deps, levels),
{
    if is_layering(deps, levels) {
        let v = choose|v: int| rest.contains(v);
        lemma_blocked_set_levels_unbounded(deps, rest, levels, (levels[v] + 1) as nat);
    }
}

/// Whether VT `v` stands in some stage of `stages`.
pub open spec fn in_some_stage(stages: Seq<Seq<usize>>, v: int) -> bool {
    exists|s: int, i: int| 0 <= s < stages.len() && 0 <= i < stages[s].len() && stages[s][i] == v
}

/// Every VT of the scan stands in exactly one stage of a plan, once.
pub proof fn lemma_plan_covers_each_vt_once(deps: Seq<Seq<usize>>, plan: StagePlan)
    requires
        plan.is_plan_for(deps),
    ensures
        forall|s: int, i: int|
            0 <= s < plan.stages_view().len() && 0 <= i < plan.stages_view()[s].len()
                ==> #[trigger] plan.stages_view()[s][i] < deps.len(),
        forall|v: int| 0 <= v < deps.len() ==> #[trigger] in_some_stage(plan.stages_view(), v),
        forall|s1: int, i1: int, s2: int, i2: int|
            0 <= s1 < plan.stages_view().len() && 0 <= i1 < plan.stages_view()[s1].len() && 0 <= s2
                < plan.stages_view().len() && 0 <= i2 < plan.stages_view()[s2].len()
                && #[trigger] plan.stages_view()[s1][i1] == #[trigger] plan.stages_view()[s2][i2]
                ==> s1 == s2 && i1 == i2,
{
    let st = plan.stages_view();
    let lv = plan.levels@;
    assert forall|v: int| 0 <= v < deps.len() implies #[trigger] in_some_stage(st, v) by {
        assert(lv[v] < st.len());
        let i = choose|i: int| 0 <= i < st[lv[v] as int].len() && #[trigger] st[lv[v] as int][i] == v;
        assert(st[lv[v] as int][i] == v);
        assert(0 <= lv[v] < st.len() && 0 <= i < st[lv[v] as int].len());
    }
    assert forall|s1: int, i1: int, s2: int, i2: int|
        0 <= s1 < st.len() && 0 <= i1 < st[s1].len() && 0 <= s2 < st.len() && 0 <= i2 < st[s2].len()
            && #[trigger] st[s1][i1] == #[trigger] st[s2][i2] implies s1 == s2 && i1 == i2 by {
        assert(lv[st[s1][i1] as int] == s1);
        assert(lv[st[s2][i2] as int] == s2);
        if i1 < i2 {
            assert(st[s1][i1] < st[s1][i2]);
        } else if i2 < i1 {
            assert(st[s1][i2] < st[s1][i1]);
        }
    }
}

/// Each dependency of a VT stands in a strictly earlier stage than the VT.
pub proof fn lemma_dependencies_in_earlier_stages(deps: Seq<Seq<usize>>, plan: StagePlan)
    requires
        plan.is_plan_for(deps),
    ensures
        forall|s1: int, i1: int, k: int, s2: int, i2: int|
            0 <= s1 < plan.stages_view().len() && 0 <= i1 < plan.stages_view()[s1].len() && 0 <= k
                < deps[plan.stages_view()[s1][i1] as int].len() && 0 <= s2
                < plan.stages_view().len() && 0 <= i2 < plan.stages_view()[s2].len()
                && #[trigger] plan.stages_view()[s2][i2]
                == #[trigger] deps[plan.stages_view()[s1][i1] as int][k] ==> s2 < s1,
{
    let st = plan.stages_view();
    let lv = plan.levels@;
    assert forall|s1: int, i1: int, k: int, s2: int, i2: int|
        0 <= s1 < st.len() && 0 <= i1 < st[s1].len() && 0 <= k < deps[st[s1][i1] as int].len() && 0
            <= s2 < st.len() && 0 <= i2 < st[s2].len() && #[trigger] st[s2][i2]
            == #[trigger] deps[st[s1][i1] as int][k] implies s2 < s1 by {
        let v = st[s1][i1] as int;
        assert(lv[v] == s1);
        assert(lv[st[s2][i2] as int] == s2);
        assert(lv[deps[v][k] as int] < lv[v]);
    }
}

proof fn lemma_layering_unique(deps: Seq<Seq<usize>>, la: Seq<usize>, lb: Seq<usize>, v: int)
    requires
        is_layering(deps, la),
        is_layering(deps, lb),
        0 <= v < deps.len(),
    ensures
        la[v] == lb[v],
    decreases la[v] + lb[v],
{
    if la[v] > lb[v] {
        let k = choose|k: int| 0 <= k < deps[v].len() && la[#[trigger] deps[v][k] as int] == la[v] - 1;
        let w = deps[v][k] as int;
        assert(lb[w] < lb[v]);
        lemma_layering_unique(deps, la, lb, w);
    } else if lb[v] > la[v] {
        let k = choose|k: int| 0 <= k < deps[v].len() && lb[#[trigger] deps[v][k] as int] == lb[v] - 1;
        let w = deps[v][k] as int;
        assert(la[w] < la[v]);
        lemma_layering_unique(deps, la, lb, w);
    }
}

proof fn lemma_sorted_same_members(a: Seq<usize>, b: Seq<usize>)
    requires
        forall|i: int, j: int| 0 <= i < j < a.len() ==> #[trigger] a[i] < #[trigger] a[j],
        forall|i: int, j: int| 0 <= i < j < b.len() ==> #[trigger] b[i] < #[trigger] b[j],
        forall|x: usize| a.contains(x) <==> b.contains(x),
    ensures
        a == b,
    decreases a.len(),
{
    if a.len() == 0 {
        if b.len() > 0 {
            assert(b.contains(b[0]));
        }
        assert(a =~= b);
    } else {
        assert(a.contains(a[0]));
        assert(b.len() > 0);
        assert(b.contains(b[0]));
        let j = choose|j: int| 0 <= j < b.len() && b[j] == a[0];
        let i = choose|i: int| 0 <= i < a.len() && a[i] == b[0];
        if j > 0 {
            assert(b[0] < b[j]);
            if i > 0 {
                assert(a[0] < a[i]);
            }
        }
        assert(a[0] == b[0]);
        let a1 = a.subrange(1, a.len() as int);
        let b1 = b.subrange(1, b.len() as int);
        assert forall|x: usize| a1.contains(x) <==> b1.contains(x) by {
            if a1.contains(x) {
                let p = choose|p: int| 0 <= p < a1.len() && a1[p] == x;
                assert(a.contains(x) && a[p + 1] == x && a[0] < a[p + 1]);
                let q = choose|q: int| 0 <= q < b.len() && b[q] == x;
                assert(q != 0);
                assert(b1[q - 1] == x);
            }
            if b1.contains(x) {
                let p = choose|p: int| 0 <= p < b1.len() && b1[p] == x;
                assert(b.contains(x) && b[p + 1] == x && b[0] < b[p + 1]);
                let q = choose|q: int| 0 <= q < a.len() && a[q] == x;
                assert(q != 0);
                assert(a1[q - 1] == x);
            }
        }
        lemma_sorted_same_members(a1, b1);
        assert(a.len() == b.len());
        assert forall|i: int| 0 <= i < a.len() implies a[i] == b[i] by {
            if i > 0 {
                assert(a[i] == a1[i - 1]);
                assert(b[i] == b1[i - 1]);
            }
        }
        assert(a =~= b);
    }
}

/// Scheduling is deterministic: any two plans for the same dependencies
/// assign every VT the same stage and list the same stages.
pub proof fn lemma_plan_deterministic(deps: Seq<Seq<usize>>, p: StagePlan, q: StagePlan)
    requires
        p.is_plan_for(deps),
        q.is_plan_for(deps),
    ensures
        p.levels@ == q.levels@,
        p.stages_view() == q.stages_view(),
{
    lemma_layered_plans_equal(deps, p.levels@, p.stages_view(), q.levels@, q.stages_view());
}

/// Two layerings of the same dependencies, with their groupings into
/// stages, are the same.
pub proof fn lemma_layered_plans_equal(
    deps: Seq<Seq<usize>>,
    la: Seq<usize>,
    sa: Seq<Seq<usize>>,
    lb: Seq<usize>,
    sb: Seq<Seq<usize>>,
)
    requires
        is_layering(deps, la),
        groups_levels(la, sa),
        is_layering(deps, lb),
        groups_levels(lb, sb),
    ensures
        la == lb,
        sa == sb,
{
    assert forall|v: int| 0 <= v < deps.len() implies la[v] == lb[v] by {
        lemma_layering_unique(deps, la, lb, v);
    }
    assert(la =~= lb);
    if sa.len() > sb.len() {
        let s = sb.len() as int;
        assert(sa[s].len() > 0);
        assert(la[sa[s][0] as int] == s);
    } else if sb.len() > sa.len() {
        let s = sa.len() as int;
        assert(sb[s].len() > 0);
        assert(lb[sb[s][0] as int] == s);
    }
    assert forall|s: int| 0 <= s < sa.len() implies sa[s] == sb[s] by {
        assert forall|x: usize| sa[s].contains(x) <==> sb[s].contains(x) by {
            if sa[s].contains(x) {
                let i = choose|i: int| 0 <= i < sa[s].len() && sa[s][i] == x;
                assert(la[sa[s][i] as int] == s);
                let j = choose|j: int| 0 <= j < sb[lb[x as int] as int].len() && #[trigger] sb[lb[x as int] as int][j] == x;
                assert(sb[s][j] == x);
            }
            if sb[s].contains(x) {
                let i = choose|i: int| 0 <= i < sb[s].len() && sb[s][i] == x;
                assert(lb[sb[s][i] as int] == s);
                let j = choose|j: int| 0 <= j < sa[la[x as int] as int].len() && #[trigger] sa[la[x as int] as int][j] == x;
                assert(sa[s][j] == x);
            }
        }
        lemma_sorted_same_members(sa[s], sb[s]);
    }
    assert(sa =~= sb);
}

/// Whether two texts hold the same characters.
pub fn same_text(a: &str, b: &str) -> (r: bool)
    ensures
        r == (a@ == b@),
{
    let n = a.unicode_len();
    if n != b.unicode_len() {
        return false;
    }
    let mut i: usize = 0;
    while i < n
        invariant
            n == a@.len(),
            n == b@.len(),
            i <= n,
            forall|j: int| 0 <= j < i ==> a@[j] == b@[j],
        decreases n - i,
    {
        if a.get_char(i) != b.get_char(i) {
            return false;
        }
        i += 1;
    }
    assert(a@ =~= b@);
    true
}

/// The views of a list of texts.
pub open spec fn texts_view(v: Seq<String>) -> Seq<Seq<char>> {
    v.map_values(|s: String| s@)
}

/// `r` is the index of the first of `names` that reads `dep`.
pub open spec fn resolves_to(names: Seq<Seq<char>>, dep: Seq<char>, r: usize) -> bool {
    r < names.len() && names[r as int] == dep && forall|j: int| 0 <= j < r ==> names[j] != dep
}

/// Whether some of `names` reads `dep`.
pub open spec fn is_known(names: Seq<Seq<char>>, dep: Seq<char>) -> bool {
    exists|j: int| 0 <= j < names.len() && names[j] == dep
}

/// The index of the first of `names` that reads `dep`, if any.
fn find_name(names: &Vec<String>, dep: &String) -> (r: Option<usize>)
    ensures
        r matches Some(i) ==> resolves_to(texts_view(names@), dep@, i),
        r is None <==> !is_known(texts_view(names@), dep@),
{
    let ghost t = texts_view(names@);
    let mut j: usize = 0;
    while j < names.len()
        invariant
            t == texts_view(names@),
            j <= names@.len(),
            forall|i: int| 0 <= i < j ==> t[i] != dep@,
        decreases names@.len() - j,
    {
        if same_text(names[j].as_str(), dep.as_str()) {
            assert(t[j as int] == dep@);
            return Some(j);
        }
        j += 1;
    }
    None
}

/// Turns dependencies given by name into VT indices: each dependency becomes
/// the index of the first VT whose name reads the same. Fails with
/// `UnknownDependency` exactly when some dependency names no VT, and then
/// reports the first such one.
pub fn resolve_dependencies(names: &Vec<String>, deps: &Vec<Vec<String>>) -> (r: Result<
    Vec<Vec<usize>>,
    ScheduleError,
>)
    ensures
        r is Ok <==> forall|v: int, k: int|
            0 <= v < deps@.len() && 0 <= k < deps@[v]@.len() ==> is_known(
                texts_view(names@),
                #[trigger] deps@[v]@[k]@,
            ),
        r matches Ok(ix) ==> ix@.len() == deps@.len() && forall|v: int|
            0 <= v < deps@.len() ==> (#[trigger] ix@[v])@.len() == deps@[v]@.len() && forall|k: int|
                0 <= k < deps@[v]@.len() ==> resolves_to(
                    texts_view(names@),
                    #[trigger] deps@[v]@[k]@,
                    ix@[v]@[k],
                ),
        r matches Err(e) ==> e matches ScheduleError::UnknownDependency { vt, dependency } && vt
            < deps@.len() && dependency < deps@[vt as int]@.len() && !is_known(
            texts_view(names@),
            deps@[vt as int]@[dependency as int]@,
        ),
{
    let ghost t = texts_view(names@);
    let mut out: Vec<Vec<usize>> = Vec::new();
    let mut v: usize = 0;
    while v < deps.len()
        invariant
            t == texts_view(names@),
            v <= deps@.len(),
            out@.len() == v,
            forall|w: int|
                0 <= w < v ==> (#[trigger] out@[w])@.len() == deps@[w]@.len() && forall|k: int|
                    0 <= k < deps@[w]@.len() ==> resolves_to(t, #[trigger] deps@[w]@[k]@, out@[w]@[k]),
        decreases deps@.len() - v,
    {
        let dv = &deps[v];
        let mut row: Vec<usize> = Vec::new();
        let mut k: usize = 0;
        while k < dv.len()
            invariant
                t == texts_view(names@),
                v < deps@.len(),
                dv == deps@[v as int],
                k <= dv@.len(),
                row@.len() == k,
                forall|j: int| 0 <= j < k ==> resolves_to(t, #[trigger] dv@[j]@, row@[j]),
            decreases dv@.len() - k,
        {
            match find_name(names, &dv[k]) {
                Some(i) => row.push(i),
                None => {
                    return Err(ScheduleError::UnknownDependency { vt: v, dependency: k });
                },
            }
            k += 1;
        }
        out.push(row);
        v += 1;
    }
    proof {
        assert forall|v: int, k: int|
            0 <= v < deps@.len() && 0 <= k < deps@[v]@.len() implies is_known(t, #[trigger] deps@[v]@[k]@) by {
            assert(resolves_to(t, deps@[v]@[k]@, out@[v]@[k]));
            assert(t[out@[v]@[k] as int] == deps@[v]@[k]@);
        }
    }
    Ok(out)
}

/// Computes the stage plan of a scan whose VTs are called `names` and depend
/// on the VTs named in `deps`: names are resolved as `resolve_dependencies`
/// does, then the plan is `plan_stages` of the resolved indices.
pub fn schedule(names: &Vec<String>, deps: &Vec<Vec<String>>) -> (r: Result<StagePlan, ScheduleError>)
    requires
        names@.len() == deps@.len(),
    ensures
        r matches Err(ScheduleError::UnknownDependency { vt, dependency }) ==> vt < deps@.len()
            && dependency < deps@[vt as int]@.len() && !is_known(
            texts_view(names@),
            deps@[vt as int]@[dependency as int]@,
        ),
        r matches Err(ScheduleError::UnknownDependency { .. }) <==> !forall|v: int, k: int|
            0 <= v < deps@.len() && 0 <= k < deps@[v]@.len() ==> is_known(
                texts_view(names@),
                #[trigger] deps@[v]@[k]@,
            ),
        r matches Ok(p) ==> exists|ix: Seq<Seq<usize>>|
            p.is_plan_for(ix) && ix.len() == deps@.len() && forall|v: int, k: int|
                0 <= v < deps@.len() && 0 <= k < deps@[v]@.len() ==> ix[v].len() == deps@[v]@.len()
                    && resolves_to(texts_view(names@), #[trigger] deps@[v]@[k]@, ix[v][k]),
        r matches Err(ScheduleError::Cycle) ==> exists|ix: Seq<Seq<usize>>, rest: Set<int>|
            is_blocked_set(ix, rest) && ix.len() == deps@.len() && forall|v: int, k: int|
                0 <= v < deps@.len() && 0 <= k < deps@[v]@.len() ==> ix[v].len() == deps@[v]@.len()
                    && resolves_to(texts_view(names@), #[trigger] deps@[v]@[k]@, ix[v][k]),
{
    let ix = resolve_dependencies(names, deps)?;
    proof {
        let d = deps_view(&ix);
        assert forall|v: int, k: int| 0 <= v < d.len() && 0 <= k < d[v].len() implies #[trigger] d[v][k]
            < d.len() by {
            assert(resolves_to(texts_view(names@), deps@[v]@[k]@, ix@[v]@[k]));
        }
    }
    let r = plan_stages(ix);
    proof {
        let d = deps_view(&ix);
        assert forall|v: int, k: int|
            0 <= v < deps@.len() && 0 <= k < deps@[v]@.len() implies d[v].len() == deps@[v]@.len()
                && resolves_to(texts_view(names@), #[trigger] deps@[v]@[k]@, d[v][k]) by {
            assert(ix@[v]@[k] == d[v][k]);
        }
        if r is Err {
            assert(deps_in_range(d));
        }
    }
    r
}

} // verus!
