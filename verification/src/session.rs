//! A build from its start to its end: the units in their order, and the plans made so far.

use std::collections::{BTreeSet, HashMap};
use vstd::prelude::*;
use vstd::string::*;
use vstd::utf8::*;

use crate::compile;
use crate::metadata::Package;
use crate::ordering;
use crate::plan;
use crate::plan::{ExternConfig, Job, PlanError, Planned, Setup, Source, UnitCache, UnitCacheMeta};
use crate::reach;
use crate::schedule;
use crate::script;
use crate::store;
use crate::store::StorePath;
use crate::text;
use crate::unit_graph::{CompileMode, Unit, UnitGraph};

verus! {

/// The version of the unit graph that is understood.
pub const GRAPH_VERSION: u64 = 1;

/// The unit graph has a version that is not understood.
#[derive(Debug, Clone, Copy, PartialEq, Eq, Structural)]
pub struct UnsupportedVersion(pub u64);

impl UnsupportedVersion {
    /// What is said about it.
    pub fn message(&self) -> (r: String)
        ensures
            r@ == "Unsupported unit graph version "@ + text::decimal(self.0 as nat),
    {
        text::concat("Unsupported unit graph version ", text::to_decimal(self.0).as_str())
    }
}

/// The order in which the units of a graph are planned.
pub open spec fn order_of(graph: UnitGraph) -> Seq<usize> {
    schedule::schedule(graph.units@, graph.roots@)
}

/// Exactly these units are planned.
pub open spec fn holds_plans(cache: Seq<Option<UnitCache>>, done: Seq<usize>) -> bool {
    forall|idx: usize| #[trigger] plan::is_planned(cache, idx) <==> done.contains(idx)
}

/// A build that is under way.
pub struct Session {
    graph: UnitGraph,
    order: Vec<usize>,
    below: HashMap<usize, BTreeSet<usize>>,
    cache: Vec<Option<UnitCache>>,
    at: usize,
}

impl Session {
    #[verifier::type_invariant]
    spec fn wf(self) -> bool {
        &&& self.graph.version == GRAPH_VERSION
        &&& schedule::all_orderable(self.graph.units@, self.graph.roots@)
        &&& self.order@ == order_of(self.graph)
        &&& self.below@.dom() == self.order@.to_set()
        &&& forall|u: usize| #[trigger]
            self.below@.contains_key(u) ==> self.below@[u]@ == reach::below(self.graph.units@, u)
        &&& plan::cache_ok(self.graph.units@, self.cache@)
        &&& self.at <= self.order.len()
        &&& holds_plans(self.cache@, self.order@.take(self.at as int))
    }

    /// What is built.
    pub closed spec fn graph(self) -> UnitGraph {
        self.graph
    }

    /// How many units are planned.
    pub closed spec fn at(self) -> int {
        self.at as int
    }

    /// For each unit, its plan, if it is planned.
    pub closed spec fn cache(self) -> Seq<Option<UnitCache>> {
        self.cache@
    }

    /// A unit is left to be planned.
    pub open spec fn goes_on(self) -> bool {
        0 <= self.at() < order_of(self.graph()).len()
    }

    /// The index of the unit that is planned next.
    pub open spec fn current(self) -> usize {
        order_of(self.graph())[self.at()]
    }

    /// Begins a build: nothing is planned.
    pub fn start(graph: UnitGraph) -> (r: Result<Session, UnsupportedVersion>)
        requires
            graph.version == GRAPH_VERSION ==> schedule::all_orderable(graph.units@, graph.roots@),
        ensures
            match r {
                Ok(session) => {
                    &&& graph.version == GRAPH_VERSION
                    &&& session.graph() == graph
                    &&& session.at() == 0
                    &&& session.cache().len() == graph.units.len()
                    &&& forall|i: int|
                        0 <= i < session.cache().len() ==> (#[trigger] session.cache()[i]) is None
                },
                Err(UnsupportedVersion(version)) => graph.version != GRAPH_VERSION && version
                    == graph.version,
            },
    {
        if graph.version != GRAPH_VERSION {
            return Err(UnsupportedVersion(graph.version));
        }
        let (order, below) = schedule::order_all(graph.units.as_slice(), graph.roots.as_slice());
        let mut cache: Vec<Option<UnitCache>> = Vec::with_capacity(graph.units.len());
        while cache.len() < graph.units.len()
            invariant
                cache.len() <= graph.units.len(),
                forall|i: int| 0 <= i < cache.len() ==> (#[trigger] cache@[i]) is None,
            decreases graph.units.len() - cache.len(),
        {
            cache.push(None);
        }
        Ok(Session { graph, order, below, cache, at: 0 })
    }

    /// Tells which unit is planned next. Those before it in the order are planned, and no others;
    /// once none is left, that is all the units that were asked for, and no others.
    pub fn next(&self) -> (r: Option<usize>)
        ensures
            0 <= self.at() <= order_of(self.graph()).len(),
            holds_plans(self.cache(), order_of(self.graph()).take(self.at())),
            r is None ==> forall|idx: usize| #[trigger]
                plan::is_planned(self.cache(), idx) <==> schedule::asked_for(
                    self.graph().units@,
                    self.graph().roots@,
                    idx,
                ),
            match r {
                Some(idx) => self.goes_on() && idx == self.current() && idx
                    < self.graph().units.len(),
                None => !self.goes_on(),
            },
    {
        proof {
            use_type_invariant(self);
        }
        if self.at < self.order.len() {
            proof {
                schedule::law_schedule_stays_in_graph(
                    self.graph.units@,
                    self.graph.roots@,
                    self.at as int,
                );
            }
            Some(self.order[self.at])
        } else {
            proof {
                schedule::law_schedule_is_complete(self.graph.units@, self.graph.roots@);
                assert(self.order@.take(self.at as int) =~= self.order@);
            }
            None
        }
    }

    /// The unit that is planned next, with all that its plan is made from. Whatever it depends on
    /// is planned.
    pub fn job<'a>(
        &'a self,
        setup: &'a Setup,
        package: &'a Package,
        source: &'a Source,
        src_path: &'a StorePath,
    ) -> (job: Job<'a>)
        requires
            self.goes_on(),
        ensures
            job.is_ready(),
            job.units@ == self.graph().units@,
            job.cache@ == self.cache(),
            self.current() < job.units@.len(),
            *job.unit == job.units@[self.current() as int],
            job.setup == setup,
            job.package == package,
            job.source == source,
            job.src_path == src_path,
    {
        proof {
            use_type_invariant(self);
            let units = self.graph.units@;
            let at = self.at as int;
            schedule::law_schedule_stays_in_graph(units, self.graph.roots@, at);
            let current = self.order@[at];
            let deps = units[current as int].dependencies@;
            assert forall|k: int| 0 <= k < deps.len() implies plan::is_planned(
                self.cache@,
                (#[trigger] deps[k]).index,
            ) by {
                assert(ordering::needs_of(units, current)[k] == deps[k].index);
                reach::lemma_direct(units, current, k);
                schedule::law_everything_below_comes_first(
                    units,
                    self.graph.roots@,
                    at,
                    deps[k].index,
                );
            }
        }
        let idx = self.order[self.at];
        Job {
            setup,
            units: self.graph.units.as_slice(),
            cache: &self.cache,
            unit: &self.graph.units[idx],
            package,
            source,
            src_path,
        }
    }

    /// All units that the next one depends on. They are planned.
    pub fn below(&self) -> (r: &BTreeSet<usize>)
        requires
            self.goes_on(),
        ensures
            r@ == reach::below(self.graph().units@, self.current()),
            forall|idx: usize| #[trigger] r@.contains(idx) ==> plan::is_planned(self.cache(), idx),
    {
        broadcast use vstd::std_specs::hash::group_hash_axioms;

        proof {
            use_type_invariant(self);
            let units = self.graph.units@;
            let at = self.at as int;
            let current = self.order@[at];
            assert(self.order@.contains(current));
            assert(self.below@.dom().contains(current));
            assert forall|idx: usize| #[trigger]
                reach::below(units, current).contains(idx) implies plan::is_planned(
                self.cache@,
                idx,
            ) by {
                schedule::law_everything_below_comes_first(units, self.graph.roots@, at, idx);
            }
        }
        let idx = self.order[self.at];
        self.below.get(&idx).unwrap()
    }

    /// Goes on to the next unit, now that the derivation of this one is in the store.
    pub fn record(self, drv_path: StorePath, meta: UnitCacheMeta) -> (r: Session)
        requires
            self.goes_on(),
            !store::is_bare_suffix(encode_utf8(drv_path@)),
            meta.base_name is Some ==> self.graph().units@[self.current() as int].target.crate_types.len()
                > 0,
        ensures
            r.graph() == self.graph(),
            r.at() == self.at() + 1,
            r.cache() == self.cache().update(
                self.current() as int,
                Some(UnitCache { drv_path, meta }),
            ),
    {
        proof {
            use_type_invariant(&self);
            schedule::law_schedule_stays_in_graph(
                self.graph.units@,
                self.graph.roots@,
                self.at as int,
            );
        }
        let ghost done = self.order@.take(self.at as int);
        let ghost before = self.cache@;
        let idx = self.order[self.at];
        let mut cache = self.cache;
        cache.set(idx, Some(UnitCache { drv_path, meta }));
        proof {
            let more = self.order@.take(self.at + 1);
            assert(more =~= done.push(idx));
            assert forall|i: usize| #[trigger] plan::is_planned(cache@, i) <==> more.contains(i) by {
                if i == idx {
                    assert(more[self.at as int] == idx);
                } else {
                    assert(plan::is_planned(cache@, i) == plan::is_planned(before, i));
                    if done.contains(i) {
                        let k = choose|k: int| 0 <= k < done.len() && done[k] == i;
                        assert(more[k] == i);
                    }
                    if more.contains(i) {
                        let k = choose|k: int| 0 <= k < more.len() && more[k] == i;
                        assert(done[k] == i);
                    }
                }
            }
        }
        Session { graph: self.graph, order: self.order, below: self.below, cache, at: self.at + 1 }
    }

    /// The derivation of a unit that was asked for, once all units are planned.
    pub fn root_derivation(&self, i: usize) -> (r: &StorePath)
        requires
            !self.goes_on(),
            i < self.graph().roots.len(),
        ensures
            plan::is_planned(self.cache(), self.graph().roots@[i as int]),
            *r == plan::plan_of(self.cache(), self.graph().roots@[i as int]).drv_path,
    {
        proof {
            use_type_invariant(self);
            let units = self.graph.units@;
            let roots = self.graph.roots@;
            assert(self.order@.take(self.at as int) =~= self.order@);
            schedule::law_schedule_is_complete(units, roots);
            assert(schedule::asked_for(units, roots, roots[i as int]));
            assert(plan::is_planned(self.cache@, roots[i as int]));
        }
        &plan::planned(&self.cache, self.graph.roots[i]).drv_path
    }

    /// The derivations of all units that were asked for, as they are shown to people.
    pub fn report(&self, store_dir: &str) -> (r: Vec<String>)
        requires
            !self.goes_on(),
        ensures
            r.len() == self.graph().roots.len(),
            forall|i: int|
                0 <= i < r.len() ==> store::in_store(
                    store_dir@,
                    (#[trigger] r@[i])@,
                    plan::plan_of(self.cache(), self.graph().roots@[i]).drv_path@,
                ),
    {
        let mut r: Vec<String> = Vec::new();
        while r.len() < self.graph.roots.len()
            invariant
                !self.goes_on(),
                r.len() <= self.graph().roots.len(),
                forall|i: int|
                    0 <= i < r.len() ==> store::in_store(
                        store_dir@,
                        (#[trigger] r@[i])@,
                        plan::plan_of(self.cache(), self.graph().roots@[i]).drv_path@,
                    ),
            decreases self.graph().roots.len() - r.len(),
        {
            let drv_path = self.root_derivation(r.len());
            r.push(drv_path.display_in(store_dir));
        }
        r
    }

    /// The units of the graph.
    pub fn units(&self) -> (r: &Vec<Unit>)
        ensures
            *r == self.graph().units,
    {
        &self.graph.units
    }

    /// The units that were asked for.
    pub fn roots(&self) -> (r: &Vec<usize>)
        ensures
            *r == self.graph().roots,
    {
        &self.graph.roots
    }
}

/// Plans a unit. `below` holds all units that it depends on, and `target_env` is the derivation
/// that asks rustc about the target, which the run of a build script needs.
pub fn plan_unit(
    job: &Job,
    below: &BTreeSet<usize>,
    target_env: Option<&StorePath>,
    config: Option<&ExternConfig>,
) -> (r: Result<Planned, PlanError>)
    requires
        job.is_ready(),
        forall|idx: usize| #[trigger] below@.contains(idx) ==> plan::is_planned(job.cache@, idx),
        job.unit.mode == CompileMode::RunCustomBuild ==> target_env is Some
            && !store::is_bare_suffix(encode_utf8(target_env->0@)),
    ensures
        if job.unit.mode == CompileMode::RunCustomBuild {
            script::is_outcome(*job, target_env->0@, config, r)
        } else {
            compile::is_outcome(*job, below@, r)
        },
        r is Ok && r->Ok_0.meta.base_name is Some ==> job.unit.target.crate_types.len() > 0,
{
    if job.unit.mode == CompileMode::RunCustomBuild {
        script::plan_script(job, target_env.unwrap(), config)
    } else {
        compile::plan_compile(job, below)
    }
}

} // verus!
