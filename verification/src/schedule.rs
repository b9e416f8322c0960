//! The order of all the units that a build asks for.

use std::collections::{BTreeSet, HashMap};
use vstd::prelude::*;

use crate::ordering;
use crate::reach;
use crate::unit_graph::Unit;

verus! {

/// The units that each of the roots asks for, in the order in which they are planned.
pub open spec fn schedule(units: Seq<Unit>, roots: Seq<usize>) -> Seq<usize>
    decreases roots.len(),
{
    if roots.len() == 0 {
        Seq::empty()
    } else {
        let before = schedule(units, roots.drop_last());
        before + ordering::post_order(units, before.to_set(), roots.last())
    }
}

/// The dependencies of each root can be followed to their ends.
pub open spec fn all_orderable(units: Seq<Unit>, roots: Seq<usize>) -> bool {
    forall|i: int|
        0 <= i < roots.len() ==> ordering::orderable(units, Set::empty(), #[trigger] roots[i])
}

/// The unit is asked for: it is a root, or a root depends on it.
pub open spec fn asked_for(units: Seq<Unit>, roots: Seq<usize>, u: usize) -> bool {
    exists|i: int|
        0 <= i < roots.len() && (u == #[trigger] roots[i] || reach::depends_on(units, roots[i], u))
}

proof fn lemma_still_orderable(units: Seq<Unit>, done: Set<usize>, idx: usize)
    requires
        ordering::orderable(units, Set::empty(), idx),
    ensures
        ordering::orderable(units, done, idx),
{
    let n = choose|n: nat| ordering::within(units, Set::empty(), idx, n);
    ordering::lemma_within_mono(units, Set::empty(), done, idx, n, n);
}

/// Orders the units that the roots ask for, and tells what each of them depends on.
pub fn order_all(all_units: &[Unit], roots: &[usize]) -> (r: (
    Vec<usize>,
    HashMap<usize, BTreeSet<usize>>,
))
    requires
        all_orderable(all_units@, roots@),
    ensures
        r.0@ == schedule(all_units@, roots@),
        r.1@.dom() == r.0@.to_set(),
        forall|u: usize| #[trigger]
            r.1@.contains_key(u) ==> r.1@[u]@ == reach::below(all_units@, u),
{
    let mut transitive_deps: HashMap<usize, BTreeSet<usize>> = HashMap::with_capacity(
        all_units.len(),
    );
    let mut units: Vec<usize> = Vec::with_capacity(all_units.len());
    let mut i: usize = 0;
    proof {
        assert(roots@.take(0) =~= Seq::empty());
        assert(transitive_deps@.dom() =~= units@.to_set());
    }
    while i < roots.len()
        invariant
            i <= roots.len(),
            all_orderable(all_units@, roots@),
            units@ == schedule(all_units@, roots@.take(i as int)),
            transitive_deps@.dom() == units@.to_set(),
            forall|u: usize| #[trigger]
                transitive_deps@.contains_key(u) ==> transitive_deps@[u]@ == reach::below(
                    all_units@,
                    u,
                ),
        decreases roots.len() - i,
    {
        let ghost before = ordering::sets(transitive_deps@);
        let ghost ordered = units@;
        let ghost root = roots@[i as int];
        proof {
            lemma_still_orderable(all_units@, ordered.to_set(), root);
            assert(before.dom() =~= transitive_deps@.dom());
        }
        ordering::order_units(&mut transitive_deps, &mut units, all_units, roots[i]);
        proof {
            let more = roots@.take(i + 1);
            assert(more.drop_last() =~= roots@.take(i as int));
            assert(more.last() == root);
            let after = ordering::sets(transitive_deps@);
            assert(after.dom() =~= transitive_deps@.dom());
            let added = ordering::post_order(all_units@, ordered.to_set(), root);
            reach::law_table_stays_exact(all_units@, before, root, after);
            assert(units@.to_set() =~= ordered.to_set().union(added.to_set())) by {
                vstd::seq_lib::seq_to_set_distributes_over_add(ordered, added);
            }
            assert forall|u: usize| #[trigger]
                transitive_deps@.contains_key(u) implies transitive_deps@[u]@ == reach::below(
                all_units@,
                u,
            ) by {
                assert(after.contains_key(u));
            }
        }
        i += 1;
    }
    assert(roots@.take(roots.len() as int) =~= roots@);
    (units, transitive_deps)
}

/// What a walk leaves behind is where it started, or what that depends on.
proof fn lemma_walk_reaches(units: Seq<Unit>, done: Set<usize>, idx: usize, n: nat, w: usize)
    requires
        ordering::within(units, done, idx, n),
        ordering::walk(units, done, idx, n).contains(w),
    ensures
        w == idx || reach::depends_on(units, idx, w),
    decreases n, ordering::needs_of(units, idx).len() + 1,
{
    let needs = ordering::needs_of(units, idx);
    let before = ordering::walk_all(units, done, needs, n);
    if w != idx {
        let i = choose|i: int| 0 <= i < before.push(idx).len() && before.push(idx)[i] == w;
        assert(before[i] == w);
        let k = lemma_walk_all_reaches(units, done, done, needs, n, w);
        if w == needs[k] {
            reach::lemma_direct(units, idx, k);
        } else {
            reach::lemma_extend(units, idx, k, w);
        }
    }
}

proof fn lemma_walk_all_reaches(
    units: Seq<Unit>,
    base: Set<usize>,
    done: Set<usize>,
    starts: Seq<usize>,
    n: nat,
    w: usize,
) -> (k: int)
    requires
        base.subset_of(done),
        n > 0 ==> forall|j: int|
            0 <= j < starts.len() ==> ordering::within(
                units,
                base,
                #[trigger] starts[j],
                (n - 1) as nat,
            ),
        ordering::walk_all(units, done, starts, n).contains(w),
    ensures
        0 <= k < starts.len(),
        w == starts[k] || reach::depends_on(units, starts[k], w),
    decreases n, starts.len(),
{
    let fewer = starts.drop_last();
    let before = ordering::walk_all(units, done, fewer, n);
    let grown = done.union(before.to_set());
    let last = ordering::walk(units, grown, starts.last(), (n - 1) as nat);
    let i = choose|i: int| 0 <= i < (before + last).len() && (before + last)[i] == w;
    if i < before.len() {
        assert(before[i] == w);
        assert(forall|j: int| 0 <= j < fewer.len() ==> #[trigger] fewer[j] == starts[j]);
        lemma_walk_all_reaches(units, base, done, fewer, n, w)
    } else {
        assert(last[i - before.len()] == w);
        assert(starts[starts.len() - 1] == starts.last());
        ordering::lemma_within_mono(
            units,
            base,
            grown,
            starts.last(),
            (n - 1) as nat,
            (n - 1) as nat,
        );
        lemma_walk_reaches(units, grown, starts.last(), (n - 1) as nat, w);
        starts.len() - 1
    }
}

/// An order that holds a unit, and each unit's needs before it, holds all that the unit depends on.
proof fn lemma_closed_below(units: Seq<Unit>, order: Seq<usize>, path: Seq<usize>, i: int)
    requires
        ordering::needs_come_first(units, Set::empty(), order),
        reach::is_chain(units, path),
        order.contains(path[0]),
        0 <= i < path.len(),
    ensures
        order.contains(path[i]),
    decreases i,
{
    if i > 0 {
        lemma_closed_below(units, order, path, i - 1);
        assert(reach::is_step(units, path, i - 1));
        let p = choose|p: int| 0 <= p < order.len() && order[p] == path[i - 1];
        let needs = ordering::needs_of(units, order[p]);
        let k = choose|k: int| 0 <= k < needs.len() && needs[k] == path[i];
        assert(order.take(p).contains(needs[k]));
        let q = choose|q: int| 0 <= q < order.take(p).len() && order.take(p)[q] == needs[k];
        assert(order[q] == path[i]);
    }
}

/// The schedule holds each unit that is asked for, once, and no other, and puts each behind all
/// that it needs.
pub proof fn law_schedule_is_complete(units: Seq<Unit>, roots: Seq<usize>)
    requires
        all_orderable(units, roots),
    ensures
        schedule(units, roots).no_duplicates(),
        ordering::needs_come_first(units, Set::empty(), schedule(units, roots)),
        forall|u: usize| #[trigger]
            schedule(units, roots).contains(u) <==> asked_for(units, roots, u),
    decreases roots.len(),
{
    let order = schedule(units, roots);
    if roots.len() > 0 {
        let fewer = roots.drop_last();
        let root = roots.last();
        let before = schedule(units, fewer);
        let added = ordering::post_order(units, before.to_set(), root);
        assert(roots[roots.len() - 1] == root);
        assert(forall|i: int| 0 <= i < fewer.len() ==> #[trigger] fewer[i] == roots[i]);
        law_schedule_is_complete(units, fewer);
        lemma_still_orderable(units, before.to_set(), root);
        reach::law_dependencies_come_first(units, before.to_set(), root);
        assert(Set::empty().union(before.to_set()) =~= before.to_set());
        ordering::lemma_needs_chain(units, Set::empty(), before, added);
        assert forall|i: int, j: int| 0 <= i < j < order.len() implies order[i] != order[j] by {
            if i < before.len() && j >= before.len() {
                assert(added.contains(added[j - before.len()]));
                assert(before.contains(before[i]));
            }
        }
        assert forall|u: usize| #[trigger] order.contains(u) implies asked_for(units, roots, u) by {
            let i = choose|i: int| 0 <= i < order.len() && order[i] == u;
            if i < before.len() {
                assert(before.contains(before[i]));
                let j = choose|j: int|
                    0 <= j < fewer.len() && (u == #[trigger] fewer[j] || reach::depends_on(
                        units,
                        fewer[j],
                        u,
                    ));
                assert(roots[j] == fewer[j]);
            } else {
                assert(added[i - before.len()] == u);
                let n = choose|n: nat| ordering::within(units, before.to_set(), root, n);
                lemma_walk_reaches(units, before.to_set(), root, n, u);
                assert(roots[roots.len() - 1] == root);
            }
        }
    }
    assert forall|u: usize| #[trigger] asked_for(units, roots, u) implies order.contains(u) by {
        let i = choose|i: int|
            0 <= i < roots.len() && (u == #[trigger] roots[i] || reach::depends_on(
                units,
                roots[i],
                u,
            ));
        lemma_roots_scheduled(units, roots, i);
        if u != roots[i] {
            let path = choose|path: Seq<usize>| #[trigger]
                reach::is_chain(units, path) && path[0] == roots[i] && path.last() == u;
            lemma_closed_below(units, order, path, path.len() - 1);
        }
    }
}

proof fn lemma_below_comes_first(units: Seq<Unit>, order: Seq<usize>, p: int, path: Seq<usize>, i: int)
    requires
        ordering::needs_come_first(units, Set::empty(), order),
        reach::is_chain(units, path),
        0 <= p < order.len(),
        order[p] == path[0],
        0 < i < path.len(),
    ensures
        order.take(p).contains(path[i]),
    decreases i,
{
    let q = if i == 1 {
        p
    } else {
        lemma_below_comes_first(units, order, p, path, i - 1);
        choose|q: int| 0 <= q < order.take(p).len() && order.take(p)[q] == path[i - 1]
    };
    assert(order[q] == path[i - 1]);
    assert(reach::is_step(units, path, i - 1));
    let needs = ordering::needs_of(units, order[q]);
    let k = choose|k: int| 0 <= k < needs.len() && needs[k] == path[i];
    assert(order.take(q).contains(needs[k]));
    let j = choose|j: int| 0 <= j < order.take(q).len() && order.take(q)[j] == needs[k];
    assert(order.take(p)[j] == path[i]);
}

/// The schedule puts each unit behind all that it depends on, directly or not, and none depends on
/// itself.
pub proof fn law_everything_below_comes_first(
    units: Seq<Unit>,
    roots: Seq<usize>,
    p: int,
    v: usize,
)
    requires
        all_orderable(units, roots),
        0 <= p < schedule(units, roots).len(),
        reach::depends_on(units, schedule(units, roots)[p], v),
    ensures
        schedule(units, roots).take(p).contains(v),
        v != schedule(units, roots)[p],
{
    let order = schedule(units, roots);
    law_schedule_is_complete(units, roots);
    let path = choose|path: Seq<usize>| #[trigger]
        reach::is_chain(units, path) && path[0] == order[p] && path.last() == v;
    lemma_below_comes_first(units, order, p, path, path.len() - 1);
    let q = choose|q: int| 0 <= q < order.take(p).len() && order.take(p)[q] == v;
    assert(order[q] == v);
}

/// The schedule names units of the graph.
pub proof fn law_schedule_stays_in_graph(units: Seq<Unit>, roots: Seq<usize>, p: int)
    requires
        all_orderable(units, roots),
        0 <= p < schedule(units, roots).len(),
    ensures
        schedule(units, roots)[p] < units.len(),
    decreases roots.len(),
{
    let fewer = roots.drop_last();
    let before = schedule(units, fewer);
    let root = roots.last();
    let added = ordering::post_order(units, before.to_set(), root);
    assert(roots[roots.len() - 1] == root);
    if p < before.len() {
        assert(forall|i: int| 0 <= i < fewer.len() ==> #[trigger] fewer[i] == roots[i]);
        law_schedule_stays_in_graph(units, fewer, p);
    } else {
        let done = before.to_set();
        lemma_still_orderable(units, done, root);
        let n = choose|n: nat| ordering::within(units, done, root, n);
        let w = added[p - before.len()];
        assert(added.contains(w));
        ordering::lemma_walk_members(units, done, done, root, n, w);
    }
}

proof fn lemma_roots_scheduled(units: Seq<Unit>, roots: Seq<usize>, i: int)
    requires
        all_orderable(units, roots),
        0 <= i < roots.len(),
    ensures
        schedule(units, roots).contains(roots[i]),
    decreases roots.len(),
{
    let fewer = roots.drop_last();
    let before = schedule(units, fewer);
    let added = ordering::post_order(units, before.to_set(), roots.last());
    let order = before + added;
    assert(roots[roots.len() - 1] == roots.last());
    lemma_still_orderable(units, before.to_set(), roots.last());
    reach::law_dependencies_come_first(units, before.to_set(), roots.last());
    if i < fewer.len() {
        assert forall|j: int| 0 <= j < fewer.len() implies ordering::orderable(
            units,
            Set::empty(),
            #[trigger] fewer[j],
        ) by {
            assert(fewer[j] == roots[j]);
        }
        lemma_roots_scheduled(units, fewer, i);
    }
    if before.contains(roots[i]) {
        let j = choose|j: int| 0 <= j < before.len() && before[j] == roots[i];
        assert(order[j] == roots[i]);
    } else {
        let j = choose|j: int| 0 <= j < added.len() && added[j] == roots[i];
        assert(order[before.len() + j] == roots[i]);
    }
}

spec fn count_open(settled: Seq<bool>) -> nat
    decreases settled.len(),
{
    if settled.len() == 0 {
        0
    } else {
        count_open(settled.drop_last()) + if settled.last() {
            0nat
        } else {
            1
        }
    }
}

proof fn lemma_settle_one(settled: Seq<bool>, u: int)
    requires
        0 <= u < settled.len(),
        !settled[u],
    ensures
        count_open(settled) > 0,
        count_open(settled.update(u, true)) == count_open(settled) - 1,
    decreases settled.len(),
{
    let after = settled.update(u, true);
    if u == settled.len() - 1 {
        assert(after.drop_last() =~= settled.drop_last());
    } else {
        assert(after.drop_last() =~= settled.drop_last().update(u, true));
        lemma_settle_one(settled.drop_last(), u);
    }
}

proof fn lemma_count_bound(settled: Seq<bool>)
    ensures
        count_open(settled) <= settled.len(),
    decreases settled.len(),
{
    if settled.len() > 0 {
        lemma_count_bound(settled.drop_last());
    }
}

/// The unit still needs one that is not settled, or that is not in the graph.
spec fn is_stuck(units: Seq<Unit>, settled: Seq<bool>, u: usize) -> bool {
    exists|k: int|
        0 <= k < ordering::needs_of(units, u).len() && !({
            let need = #[trigger] ordering::needs_of(units, u)[k];
            need < units.len() && settled[need as int]
        })
}

/// Where each unit that is not settled is stuck, none of them can be ordered.
proof fn lemma_stuck(units: Seq<Unit>, settled: Seq<bool>, u: usize, n: nat)
    requires
        settled.len() == units.len(),
        forall|v: usize| v < units.len() && !#[trigger] settled[v as int] ==> is_stuck(
            units,
            settled,
            v,
        ),
        !(u < units.len() && settled[u as int]),
    ensures
        !ordering::within(units, Set::empty(), u, n),
    decreases n,
{
    if u < units.len() {
        assert(is_stuck(units, settled, u));
        let needs = ordering::needs_of(units, u);
        let k = choose|k: int|
            0 <= k < needs.len() && !({
                let need = #[trigger] needs[k];
                need < units.len() && settled[need as int]
            });
        if n > 0 {
            lemma_stuck(units, settled, needs[k], (n - 1) as nat);
        }
    }
}

/// Tells whether all that a unit needs is settled.
fn is_ready(unit: &Unit, settled: &Vec<bool>) -> (ready: bool)
    ensures
        ready == forall|k: int|
            0 <= k < unit.needs().len() ==> (#[trigger] unit.needs()[k]) < settled.len()
                && settled@[unit.needs()[k] as int],
{
    let mut k: usize = 0;
    while k < unit.dependencies.len()
        invariant
            k <= unit.dependencies.len(),
            forall|j: int|
                0 <= j < k ==> (#[trigger] unit.needs()[j]) < settled.len()
                    && settled@[unit.needs()[j] as int],
        decreases unit.dependencies.len() - k,
    {
        let need = unit.dependencies[k].index;
        assert(need == unit.needs()[k as int]);
        if need >= settled.len() || !settled[need] {
            return false;
        }
        k += 1;
    }
    true
}

/// Tells whether the roots, and all that they depend on, can be ordered: whether the dependencies
/// name units of the graph, and none leads back to itself.
pub fn can_order(all_units: &[Unit], roots: &[usize]) -> (ok: bool)
    ensures
        ok == all_orderable(all_units@, roots@),
{
    let mut settled: Vec<bool> = Vec::with_capacity(all_units.len());
    while settled.len() < all_units.len()
        invariant
            settled.len() <= all_units.len(),
            forall|u: int| 0 <= u < settled.len() ==> !#[trigger] settled@[u],
        decreases all_units.len() - settled.len(),
    {
        settled.push(false);
    }
    let ghost mut n: nat = 0;
    let mut changed = true;
    while changed
        invariant
            settled.len() == all_units@.len(),
            forall|u: usize|
                u < all_units@.len() && #[trigger] settled@[u as int] ==> ordering::within(
                    all_units@,
                    Set::empty(),
                    u,
                    n,
                ),
            !changed ==> forall|u: usize|
                u < all_units@.len() && !#[trigger] settled@[u as int] ==> is_stuck(
                    all_units@,
                    settled@,
                    u,
                ),
        decreases count_open(settled@), (if changed { 1int } else { 0int }),
    {
        changed = false;
        let ghost settled0 = settled@;
        let mut i: usize = 0;
        while i < all_units.len()
            invariant
                i <= all_units@.len(),
                settled.len() == all_units@.len(),
                forall|u: usize|
                    u < all_units@.len() && #[trigger] settled@[u as int] ==> ordering::within(
                        all_units@,
                        Set::empty(),
                        u,
                        n,
                    ),
                !changed ==> settled@ == settled0,
                changed ==> count_open(settled@) < count_open(settled0),
                !changed ==> forall|u: usize|
                    u < i && !#[trigger] settled@[u as int] ==> is_stuck(all_units@, settled@, u),
            decreases all_units@.len() - i,
        {
            if !settled[i] && is_ready(&all_units[i], &settled) {
                proof {
                    lemma_settle_one(settled@, i as int);
                    let needs = ordering::needs_of(all_units@, i);
                    assert forall|k: int| 0 <= k < needs.len() implies ordering::within(
                        all_units@,
                        Set::empty(),
                        #[trigger] needs[k],
                        n,
                    ) by {
                        assert(settled@[needs[k] as int]);
                    }
                    assert(ordering::within(all_units@, Set::empty(), i, n + 1));
                    assert forall|u: usize|
                        u < all_units@.len() && #[trigger] settled@[u as int] implies ordering::within(
                        all_units@,
                        Set::empty(),
                        u,
                        n + 1,
                    ) by {
                        ordering::lemma_within_mono(
                            all_units@,
                            Set::empty(),
                            Set::empty(),
                            u,
                            n,
                            n + 1,
                        );
                    }
                    n = n + 1;
                }
                settled.set(i, true);
                changed = true;
            }
            i += 1;
        }
    }
    let mut i: usize = 0;
    while i < roots.len()
        invariant
            i <= roots.len(),
            settled.len() == all_units@.len(),
            forall|u: usize|
                u < all_units@.len() && #[trigger] settled@[u as int] ==> ordering::within(
                    all_units@,
                    Set::empty(),
                    u,
                    n,
                ),
            forall|u: usize|
                u < all_units@.len() && !#[trigger] settled@[u as int] ==> is_stuck(
                    all_units@,
                    settled@,
                    u,
                ),
            forall|j: int|
                0 <= j < i ==> ordering::orderable(all_units@, Set::empty(), #[trigger] roots@[j]),
        decreases roots.len() - i,
    {
        let root = roots[i];
        if root >= settled.len() || !settled[root] {
            proof {
                assert(roots@[i as int] == root);
                assert forall|m: nat| !ordering::within(all_units@, Set::empty(), root, m) by {
                    lemma_stuck(all_units@, settled@, root, m);
                }
                assert(!ordering::orderable(all_units@, Set::empty(), roots@[i as int]));
            }
            return false;
        }
        i += 1;
    }
    true
}

/// The roots are taken in their order: what the first of them ask for comes first, and each adds
/// what is not there yet.
pub proof fn law_roots_are_taken_in_turn(units: Seq<Unit>, roots: Seq<usize>, k: int)
    requires
        0 <= k < roots.len(),
    ensures
        schedule(units, Seq::empty()).len() == 0,
        schedule(units, roots.take(k + 1)) == schedule(units, roots.take(k)) + ordering::post_order(
            units,
            schedule(units, roots.take(k)).to_set(),
            roots[k],
        ),
        schedule(units, roots.take(k + 1)).is_prefix_of(schedule(units, roots)),
    decreases roots.len(),
{
    let more = roots.take(k + 1);
    assert(more.drop_last() =~= roots.take(k));
    assert(more.last() == roots[k]);
    if k + 1 < roots.len() {
        let fewer = roots.drop_last();
        assert(fewer.take(k + 1) =~= more);
        assert(fewer.take(k) =~= roots.take(k));
        law_roots_are_taken_in_turn(units, fewer, k);
    } else {
        assert(more =~= roots);
    }
}

/// The roots can be ordered exactly where they, and all that they depend on, are in the graph, and
/// none of these depends on itself.
pub proof fn law_orderable_roots(units: Seq<Unit>, roots: Seq<usize>)
    ensures
        all_orderable(units, roots) <==> forall|i: int|
            0 <= i < roots.len() ==> {
                &&& (#[trigger] roots[i]) < units.len()
                &&& !reach::depends_on(units, roots[i], roots[i])
                &&& forall|v: usize| #[trigger]
                    reach::depends_on(units, roots[i], v) ==> v < units.len() && !reach::depends_on(
                        units,
                        v,
                        v,
                    )
            },
{
    assert forall|i: int| 0 <= i < roots.len() implies ordering::orderable(
        units,
        Set::empty(),
        #[trigger] roots[i],
    ) == {
        &&& roots[i] < units.len()
        &&& !reach::depends_on(units, roots[i], roots[i])
        &&& forall|v: usize| #[trigger]
            reach::depends_on(units, roots[i], v) ==> v < units.len() && !reach::depends_on(
                units,
                v,
                v,
            )
    } by {
        reach::law_orderable_without_circles(units, roots[i]);
    }
}

/// Each root is asked for, and so is all that a root depends on, and nothing else.
pub proof fn law_what_is_asked_for(units: Seq<Unit>, roots: Seq<usize>, u: usize)
    ensures
        asked_for(units, roots, u) <==> exists|i: int|
            0 <= i < roots.len() && (u == #[trigger] roots[i] || reach::below(
                units,
                roots[i],
            ).contains(u)),
        forall|v: usize| #[trigger]
            reach::below(units, u).contains(v) <==> reach::depends_on(units, u, v),
{
    if asked_for(units, roots, u) {
        let i = choose|i: int|
            0 <= i < roots.len() && (u == #[trigger] roots[i] || reach::depends_on(
                units,
                roots[i],
                u,
            ));
        assert(u == roots[i] || reach::below(units, roots[i]).contains(u));
    }
    if exists|i: int|
        0 <= i < roots.len() && (u == #[trigger] roots[i] || reach::below(
            units,
            roots[i],
        ).contains(u)) {
        let i = choose|i: int|
            0 <= i < roots.len() && (u == #[trigger] roots[i] || reach::below(
                units,
                roots[i],
            ).contains(u));
        assert(u == roots[i] || reach::depends_on(units, roots[i], u));
    }
}

} // verus!
