//! The order in which units are planned, and what each of them rests on.

use std::collections::{BTreeSet, HashMap};
use vstd::prelude::*;

use crate::index_set;
use crate::unit_graph::Unit;

verus! {

/// The units that the unit at `idx` depends on, in Cargo's order.
pub open spec fn needs_of(units: Seq<Unit>, idx: usize) -> Seq<usize> {
    units[idx as int].needs()
}

/// Every chain of dependencies that starts at `idx` reaches a unit in `done`, or ends, after at
/// most `n` steps, and stays inside the graph on the way.
pub open spec fn within(units: Seq<Unit>, done: Set<usize>, idx: usize, n: nat) -> bool
    decreases n,
{
    done.contains(idx) || {
        &&& idx < units.len()
        &&& if n == 0 {
            needs_of(units, idx).len() == 0
        } else {
            forall|k: int|
                0 <= k < needs_of(units, idx).len() ==> within(
                    units,
                    done,
                    #[trigger] needs_of(units, idx)[k],
                    (n - 1) as nat,
                )
        }
    }
}

/// The dependencies of `idx` can be followed to their ends: they name units of the graph, and
/// none leads back to itself before it reaches a unit in `done`.
pub open spec fn orderable(units: Seq<Unit>, done: Set<usize>, idx: usize) -> bool {
    exists|n: nat| within(units, done, idx, n)
}

/// The units that a depth-first walk from `idx` leaves behind it, each after the units that it
/// needs, where the units in `done` are not entered and no chain is followed beyond `n` steps.
pub open spec fn walk(units: Seq<Unit>, done: Set<usize>, idx: usize, n: nat) -> Seq<usize>
    decreases n, needs_of(units, idx).len() + 1,
{
    if done.contains(idx) {
        Seq::empty()
    } else {
        walk_all(units, done, needs_of(units, idx), n).push(idx)
    }
}

/// The walks from each of `starts` in turn, each of which does not enter what the earlier ones
/// have left behind.
pub open spec fn walk_all(units: Seq<Unit>, done: Set<usize>, starts: Seq<usize>, n: nat) -> Seq<
    usize,
>
    decreases n, starts.len(),
{
    if starts.len() == 0 || n == 0 {
        Seq::empty()
    } else {
        let before = walk_all(units, done, starts.drop_last(), n);
        before + walk(units, done.union(before.to_set()), starts.last(), (n - 1) as nat)
    }
}

/// The depth-first post-order from `idx` that does not enter the units in `done`.
pub open spec fn post_order(units: Seq<Unit>, done: Set<usize>, idx: usize) -> Seq<usize> {
    walk(units, done, idx, choose|n: nat| within(units, done, idx, n))
}

/// The sets of a table, as mathematical sets.
pub open spec fn sets(table: Map<usize, BTreeSet<usize>>) -> Map<usize, Set<usize>> {
    table.map_values(|s: BTreeSet<usize>| s@)
}

/// The units that `starts` name, together with the sets that the table holds for them.
pub open spec fn gathered(table: Map<usize, Set<usize>>, starts: Seq<usize>) -> Set<usize> {
    Set::new(
        |v: usize|
            exists|k: int|
                0 <= k < starts.len() && (v == #[trigger] starts[k] || table[starts[k]].contains(v)),
    )
}

/// The table `after` holds what `before` held and, for each unit in `added`, its dependencies
/// together with the dependencies that the table holds for those.
pub open spec fn accounts_for(
    units: Seq<Unit>,
    before: Map<usize, Set<usize>>,
    added: Seq<usize>,
    after: Map<usize, Set<usize>>,
) -> bool {
    &&& after.dom() == before.dom().union(added.to_set())
    &&& forall|u: usize| #[trigger]
        before.contains_key(u) ==> !added.contains(u) && after[u] == before[u]
    &&& forall|u: usize|
        #![trigger added.contains(u)]
        added.contains(u) ==> {
            &&& u < units.len()
            &&& forall|k: int|
                0 <= k < needs_of(units, u).len() ==> after.contains_key(
                    #[trigger] needs_of(units, u)[k],
                )
            &&& after[u] == gathered(after, needs_of(units, u))
        }
}

/// Each of `starts` is within `n - 1` steps.
spec fn all_within(units: Seq<Unit>, done: Set<usize>, starts: Seq<usize>, n: nat) -> bool {
    if n == 0 {
        starts.len() == 0
    } else {
        forall|k: int|
            0 <= k < starts.len() ==> within(units, done, #[trigger] starts[k], (n - 1) as nat)
    }
}

pub(crate) proof fn lemma_within_mono(
    units: Seq<Unit>,
    done: Set<usize>,
    more: Set<usize>,
    idx: usize,
    n: nat,
    m: nat,
)
    requires
        done.subset_of(more),
        n <= m,
        within(units, done, idx, n),
    ensures
        within(units, more, idx, m),
    decreases n,
{
    if !done.contains(idx) && m > 0 {
        let needs = needs_of(units, idx);
        assert forall|k: int| 0 <= k < needs.len() implies within(
            units,
            more,
            #[trigger] needs[k],
            (m - 1) as nat,
        ) by {
            lemma_within_mono(units, done, more, needs[k], (n - 1) as nat, (m - 1) as nat);
        }
    }
}

proof fn lemma_walk_bound(units: Seq<Unit>, done: Set<usize>, idx: usize, n: nat, m: nat)
    requires
        within(units, done, idx, n),
        within(units, done, idx, m),
    ensures
        walk(units, done, idx, n) == walk(units, done, idx, m),
    decreases n, needs_of(units, idx).len() + 1,
{
    if !done.contains(idx) {
        lemma_walk_all_bound(units, done, needs_of(units, idx), n, m);
    }
}

proof fn lemma_walk_all_bound(units: Seq<Unit>, done: Set<usize>, starts: Seq<usize>, n: nat, m: nat)
    requires
        all_within(units, done, starts, n),
        all_within(units, done, starts, m),
    ensures
        walk_all(units, done, starts, n) == walk_all(units, done, starts, m),
    decreases n, starts.len(),
{
    if starts.len() > 0 {
        let last = starts.last();
        let fewer = starts.drop_last();
        assert(starts[starts.len() - 1] == last);
        assert(forall|k: int| 0 <= k < fewer.len() ==> #[trigger] fewer[k] == starts[k]);
        lemma_walk_all_bound(units, done, fewer, n, m);
        let grown = done.union(walk_all(units, done, fewer, n).to_set());
        lemma_within_mono(units, done, grown, last, (n - 1) as nat, (n - 1) as nat);
        lemma_within_mono(units, done, grown, last, (m - 1) as nat, (m - 1) as nat);
        lemma_walk_bound(units, grown, last, (n - 1) as nat, (m - 1) as nat);
    }
}

/// What a walk leaves behind was not done before, and no chain from there is longer than those
/// from where the walk started.
pub(crate) proof fn lemma_walk_members(
    units: Seq<Unit>,
    base: Set<usize>,
    done: Set<usize>,
    idx: usize,
    n: nat,
    w: usize,
)
    requires
        base.subset_of(done),
        within(units, base, idx, n),
        walk(units, done, idx, n).contains(w),
    ensures
        !done.contains(w),
        within(units, base, w, n),
    decreases n, needs_of(units, idx).len() + 1,
{
    let before = walk_all(units, done, needs_of(units, idx), n);
    assert(walk(units, done, idx, n) == before.push(idx));
    if w != idx {
        assert(before.contains(w)) by {
            let i = choose|i: int| 0 <= i < before.push(idx).len() && before.push(idx)[i] == w;
            assert(before[i] == w);
        }
        lemma_walk_all_members(units, base, done, needs_of(units, idx), n, w);
    }
}

proof fn lemma_walk_all_members(
    units: Seq<Unit>,
    base: Set<usize>,
    done: Set<usize>,
    starts: Seq<usize>,
    n: nat,
    w: usize,
)
    requires
        base.subset_of(done),
        all_within(units, base, starts, n),
        walk_all(units, done, starts, n).contains(w),
    ensures
        !done.contains(w),
        n > 0,
        within(units, base, w, (n - 1) as nat),
        within(units, base, w, n),
    decreases n, starts.len(),
{
    let fewer = starts.drop_last();
    let before = walk_all(units, done, fewer, n);
    let grown = done.union(before.to_set());
    let last = walk(units, grown, starts.last(), (n - 1) as nat);
    let i = choose|i: int| 0 <= i < (before + last).len() && (before + last)[i] == w;
    if i < before.len() {
        assert(before[i] == w);
        assert(forall|k: int| 0 <= k < fewer.len() ==> #[trigger] fewer[k] == starts[k]);
        lemma_walk_all_members(units, base, done, fewer, n, w);
    } else {
        assert(last[i - before.len()] == w);
        assert(starts[starts.len() - 1] == starts.last());
        lemma_walk_members(units, base, grown, starts.last(), (n - 1) as nat, w);
        lemma_within_mono(units, base, base, w, (n - 1) as nat, n);
    }
}

/// The least number of steps within which every chain from `idx` ends.
proof fn lemma_least_bound(units: Seq<Unit>, done: Set<usize>, idx: usize, n: nat) -> (m: nat)
    requires
        within(units, done, idx, n),
    ensures
        within(units, done, idx, m),
        forall|k: nat| k < m ==> !within(units, done, idx, k),
    decreases n,
{
    if exists|k: nat| k < n && within(units, done, idx, k) {
        let k = choose|k: nat| k < n && within(units, done, idx, k);
        lemma_least_bound(units, done, idx, k)
    } else {
        n
    }
}

/// A unit is not among what the walks from its own dependencies leave behind.
proof fn lemma_not_below_itself(units: Seq<Unit>, done: Set<usize>, idx: usize, n: nat)
    requires
        !done.contains(idx),
        within(units, done, idx, n),
    ensures
        !walk_all(units, done, needs_of(units, idx), n).contains(idx),
{
    let m = lemma_least_bound(units, done, idx, n);
    lemma_walk_all_bound(units, done, needs_of(units, idx), n, m);
    if walk_all(units, done, needs_of(units, idx), m).contains(idx) {
        lemma_walk_all_members(units, done, done, needs_of(units, idx), m, idx);
    }
}

pub(crate) proof fn lemma_accounts_chain(
    units: Seq<Unit>,
    a: Map<usize, Set<usize>>,
    xs: Seq<usize>,
    b: Map<usize, Set<usize>>,
    ys: Seq<usize>,
    c: Map<usize, Set<usize>>,
)
    requires
        accounts_for(units, a, xs, b),
        accounts_for(units, b, ys, c),
    ensures
        accounts_for(units, a, xs + ys, c),
{
    let zs = xs + ys;
    assert forall|u: usize| zs.contains(u) == (xs.contains(u) || ys.contains(u)) by {
        if xs.contains(u) {
            let i = choose|i: int| 0 <= i < xs.len() && xs[i] == u;
            assert(zs[i] == u);
        }
        if ys.contains(u) {
            let i = choose|i: int| 0 <= i < ys.len() && ys[i] == u;
            assert(zs[xs.len() + i] == u);
        }
    }
    assert(c.dom() =~= a.dom().union(zs.to_set()));
    assert forall|u: usize| #[trigger] a.contains_key(u) implies !zs.contains(u) && c[u]
        == a[u] by {
        assert(b.contains_key(u));
    }
    assert forall|u: usize| #![trigger zs.contains(u)] zs.contains(u) implies {
        &&& u < units.len()
        &&& forall|k: int|
            0 <= k < needs_of(units, u).len() ==> c.contains_key(#[trigger] needs_of(units, u)[k])
        &&& c[u] == gathered(c, needs_of(units, u))
    } by {
        let needs = needs_of(units, u);
        if xs.contains(u) {
            assert(b.contains_key(u));
            assert forall|k: int| 0 <= k < needs.len() implies c.contains_key(#[trigger] needs[k])
                && c[needs[k]] == b[needs[k]] by {
                assert(b.contains_key(needs[k]));
            }
            assert(gathered(c, needs) =~= gathered(b, needs));
        }
    }
}

/// Adds the indices of one set to another.
fn absorb(set: &mut BTreeSet<usize>, other: &BTreeSet<usize>)
    ensures
        final(set)@ == old(set)@.union(other@),
{
    let listed = index_set::ascending(other);
    let mut i: usize = 0;
    while i < listed.len()
        invariant
            i <= listed.len(),
            set@ == old(set)@.union(listed@.take(i as int).to_set()),
        decreases listed.len() - i,
    {
        index_set::insert(set, listed[i]);
        proof {
            let seen = listed@.take(i as int);
            assert(listed@.take(i + 1) == seen.push(listed@[i as int]));
            assert(seen.push(listed@[i as int]).to_set() =~= seen.to_set().insert(listed@[i as int])) by {
                broadcast use vstd::seq_lib::group_seq_properties;
            }
        }
        i += 1;
    }
    assert(listed@.take(listed.len() as int) == listed@);
}

fn visit(
    all_transitive_deps: &mut HashMap<usize, BTreeSet<usize>>,
    ordered_units: &mut Vec<usize>,
    all_units: &[Unit],
    idx: usize,
    Ghost(n): Ghost<nat>,
)
    requires
        within(all_units@, old(all_transitive_deps)@.dom(), idx, n),
    ensures
        final(ordered_units)@ == old(ordered_units)@ + walk(
            all_units@,
            old(all_transitive_deps)@.dom(),
            idx,
            n,
        ),
        accounts_for(
            all_units@,
            sets(old(all_transitive_deps)@),
            walk(all_units@, old(all_transitive_deps)@.dom(), idx, n),
            sets(final(all_transitive_deps)@),
        ),
        final(all_transitive_deps)@.contains_key(idx),
    decreases n,
{
    let ghost table0 = all_transitive_deps@;
    let ghost done = table0.dom();
    let ghost needs = needs_of(all_units@, idx);
    if all_transitive_deps.contains_key(&idx) {
        assert(Seq::<usize>::empty().to_set() =~= Set::empty());
        assert(sets(table0).dom() =~= sets(table0).dom().union(Seq::<usize>::empty().to_set()));
        return;
    }
    let mut transitive_deps: BTreeSet<usize> = BTreeSet::new();
    let unit = &all_units[idx];
    let mut k: usize = 0;
    proof {
        assert(needs.take(0) =~= Seq::empty());
        assert(Seq::<usize>::empty().to_set() =~= Set::empty());
        assert(sets(table0).dom() =~= sets(table0).dom().union(Seq::<usize>::empty().to_set()));
        assert(gathered(sets(table0), needs.take(0)) =~= Set::empty());
        assert(ordered_units@ =~= old(ordered_units)@ + Seq::empty());
    }
    while k < unit.dependencies.len()
        invariant
            idx < all_units@.len(),
            *unit == all_units@[idx as int],
            needs == needs_of(all_units@, idx),
            needs.len() == unit.dependencies.len(),
            k <= needs.len(),
            done == table0.dom(),
            table0 == old(all_transitive_deps)@,
            !done.contains(idx),
            within(all_units@, done, idx, n),
            ordered_units@ == old(ordered_units)@ + walk_all(
                all_units@,
                done,
                needs.take(k as int),
                n,
            ),
            accounts_for(
                all_units@,
                sets(table0),
                walk_all(all_units@, done, needs.take(k as int), n),
                sets(all_transitive_deps@),
            ),
            forall|j: int| 0 <= j < k ==> all_transitive_deps@.contains_key(#[trigger] needs[j]),
            transitive_deps@ == gathered(sets(all_transitive_deps@), needs.take(k as int)),
        decreases needs.len() - k,
    {
        let dep = unit.dependencies[k].index;
        let ghost table = all_transitive_deps@;
        let ghost before = walk_all(all_units@, done, needs.take(k as int), n);
        let ghost seen = needs.take(k as int);
        proof {
            assert(dep == needs[k as int]);
            assert(n > 0 && within(all_units@, done, needs[k as int], (n - 1) as nat));
            assert(table.dom() =~= sets(table).dom());
            assert(table0.dom() =~= sets(table0).dom());
            assert(table.dom() =~= done.union(before.to_set()));
            lemma_within_mono(
                all_units@,
                done,
                table.dom(),
                dep,
                (n - 1) as nat,
                (n - 1) as nat,
            );
        }
        visit(
            all_transitive_deps,
            ordered_units,
            all_units,
            dep,
            Ghost((n - 1) as nat),
        );
        let ghost added = walk(all_units@, table.dom(), dep, (n - 1) as nat);
        proof {
            let more = needs.take(k + 1);
            assert(more.drop_last() =~= seen);
            assert(more.last() == dep);
            assert(walk_all(all_units@, done, more, n) == before + added);
            lemma_accounts_chain(
                all_units@,
                sets(table0),
                before,
                sets(table),
                added,
                sets(all_transitive_deps@),
            );
            assert forall|j: int| 0 <= j < k + 1 implies all_transitive_deps@.contains_key(
                #[trigger] needs[j],
            ) by {
                if j < k {
                    assert(sets(table).contains_key(needs[j]));
                    assert(sets(all_transitive_deps@).contains_key(needs[j]));
                }
            }
        }
        match all_transitive_deps.get(&dep) {
            Some(below) => {
                // Must not attempt to link dependencies of a build.rs
                absorb(&mut transitive_deps, below);
            },
            None => {
                assert(false);
            },
        }
        index_set::insert(&mut transitive_deps, dep);
        proof {
            let t1 = sets(table);
            let t2 = sets(all_transitive_deps@);
            let more = needs.take(k + 1);
            assert forall|v: usize| #[trigger] transitive_deps@.contains(v) == gathered(
                t2,
                more,
            ).contains(v) by {
                assert(gathered(t1, seen).contains(v) ==> gathered(t2, more).contains(v)) by {
                    if gathered(t1, seen).contains(v) {
                        let j = choose|j: int|
                            0 <= j < seen.len() && (v == #[trigger] seen[j]
                                || t1[seen[j]].contains(v));
                        assert(more[j] == seen[j] && needs[j] == seen[j]);
                        assert(t1.contains_key(seen[j]));
                        assert(t2[more[j]] == t1[seen[j]]);
                    }
                }
                assert(more[k as int] == dep);
                if gathered(t2, more).contains(v) {
                    let j = choose|j: int|
                        0 <= j < more.len() && (v == #[trigger] more[j] || t2[more[j]].contains(v));
                    if j < k {
                        assert(more[j] == seen[j] && needs[j] == seen[j]);
                        assert(t1.contains_key(seen[j]));
                        assert(t2[more[j]] == t1[seen[j]]);
                    }
                }
            }
            assert(transitive_deps@ =~= gathered(t2, more));
        }
        k += 1;
    }
    let ghost table = all_transitive_deps@;
    let ghost before = walk_all(all_units@, done, needs, n);
    proof {
        assert(needs.take(needs.len() as int) =~= needs);
        lemma_not_below_itself(all_units@, done, idx, n);
        assert(table.dom() =~= sets(table).dom());
        assert(table0.dom() =~= sets(table0).dom());
        assert(!table.contains_key(idx)) by {
            assert(!sets(table0).contains_key(idx));
        }
    }
    all_transitive_deps.insert(idx, transitive_deps);
    ordered_units.push(idx);
    proof {
        let t1 = sets(table);
        let t2 = sets(all_transitive_deps@);
        assert(ordered_units@ =~= old(ordered_units)@ + before.push(idx));
        assert forall|j: int| 0 <= j < needs.len() implies t2[#[trigger] needs[j]] == t1[needs[j]]
            && t2.contains_key(needs[j]) by {
            assert(t1.contains_key(needs[j]));
        }
        assert(gathered(t2, needs) =~= gathered(t1, needs));
        assert(seq![idx][0] == idx);
        assert(seq![idx].to_set() =~= set![idx]);
        assert(t2.dom() =~= t1.dom().union(seq![idx].to_set()));
        assert(accounts_for(all_units@, t1, seq![idx], t2));
        lemma_accounts_chain(all_units@, sets(table0), before, t1, seq![idx], t2);
        assert(before + seq![idx] =~= before.push(idx));
    }
}

/// Puts the unit at `idx`, and the units it depends on, behind the units that are already
/// ordered: each after those that it needs. Notes for each what it depends on, directly or not.
pub fn order_units(
    all_transitive_deps: &mut HashMap<usize, BTreeSet<usize>>,
    ordered_units: &mut Vec<usize>,
    all_units: &[Unit],
    idx: usize,
)
    requires
        orderable(all_units@, old(all_transitive_deps)@.dom(), idx),
    ensures
        final(ordered_units)@ == old(ordered_units)@ + post_order(
            all_units@,
            old(all_transitive_deps)@.dom(),
            idx,
        ),
        accounts_for(
            all_units@,
            sets(old(all_transitive_deps)@),
            post_order(all_units@, old(all_transitive_deps)@.dom(), idx),
            sets(final(all_transitive_deps)@),
        ),
{
    let ghost done = all_transitive_deps@.dom();
    visit(
        all_transitive_deps,
        ordered_units,
        all_units,
        idx,
        Ghost(choose|n: nat| within(all_units@, done, idx, n)),
    );
}

/// How long a chain the post-order may follow does not matter, once it is long enough.
pub proof fn law_post_order_is_a_walk(units: Seq<Unit>, done: Set<usize>, idx: usize, n: nat)
    requires
        within(units, done, idx, n),
    ensures
        post_order(units, done, idx) == walk(units, done, idx, n),
{
    let m = choose|m: nat| within(units, done, idx, m);
    lemma_walk_bound(units, done, idx, n, m);
}

/// Each unit of `order` stands behind the units that it needs, unless those are in `done`.
pub open spec fn needs_come_first(units: Seq<Unit>, done: Set<usize>, order: Seq<usize>) -> bool {
    forall|p: int, k: int|
        #![trigger needs_of(units, order[p])[k]]
        0 <= p < order.len() && 0 <= k < needs_of(units, order[p]).len() ==> {
            let need = needs_of(units, order[p])[k];
            done.contains(need) || order.take(p).contains(need)
        }
}

pub(crate) proof fn lemma_needs_chain(
    units: Seq<Unit>,
    done: Set<usize>,
    xs: Seq<usize>,
    ys: Seq<usize>,
)
    requires
        needs_come_first(units, done, xs),
        needs_come_first(units, done.union(xs.to_set()), ys),
    ensures
        needs_come_first(units, done, xs + ys),
{
    let zs = xs + ys;
    assert forall|p: int, k: int|
        #![trigger needs_of(units, zs[p])[k]]
        0 <= p < zs.len() && 0 <= k < needs_of(units, zs[p]).len() implies done.contains(
        needs_of(units, zs[p])[k],
    ) || zs.take(p).contains(needs_of(units, zs[p])[k]) by {
        let need = needs_of(units, zs[p])[k];
        if p < xs.len() {
            assert(zs[p] == xs[p]);
            assert(needs_of(units, xs[p])[k] == need);
            assert(zs.take(p) =~= xs.take(p));
        } else {
            let q = p - xs.len();
            assert(zs[p] == ys[q]);
            assert(needs_of(units, ys[q])[k] == need);
            if !done.contains(need) {
                if xs.contains(need) {
                    let i = choose|i: int| 0 <= i < xs.len() && xs[i] == need;
                    assert(zs.take(p)[i] == need);
                } else {
                    let i = choose|i: int| 0 <= i < q && ys.take(q)[i] == need;
                    assert(zs.take(p)[xs.len() + i] == need);
                }
            }
        }
    }
}

pub(crate) proof fn lemma_walk_order(units: Seq<Unit>, done: Set<usize>, idx: usize, n: nat)
    requires
        within(units, done, idx, n),
    ensures
        needs_come_first(units, done, walk(units, done, idx, n)),
        walk(units, done, idx, n).no_duplicates(),
        done.contains(idx) || walk(units, done, idx, n).contains(idx),
    decreases n, needs_of(units, idx).len() + 1,
{
    if !done.contains(idx) {
        let needs = needs_of(units, idx);
        let before = walk_all(units, done, needs, n);
        let order = before.push(idx);
        lemma_walk_all_order(units, done, needs, n);
        lemma_not_below_itself(units, done, idx, n);
        assert(order[order.len() - 1] == idx);
        assert forall|p: int, k: int|
            #![trigger needs_of(units, order[p])[k]]
            0 <= p < order.len() && 0 <= k < needs_of(units, order[p]).len() implies done.contains(
            needs_of(units, order[p])[k],
        ) || order.take(p).contains(needs_of(units, order[p])[k]) by {
            if p < before.len() {
                assert(order[p] == before[p]);
                assert(order.take(p) =~= before.take(p));
            } else {
                assert(order.take(p) =~= before);
                assert(needs[k] == needs_of(units, order[p])[k]);
            }
        }
    }
}

proof fn lemma_walk_all_order(units: Seq<Unit>, done: Set<usize>, starts: Seq<usize>, n: nat)
    requires
        all_within(units, done, starts, n),
    ensures
        needs_come_first(units, done, walk_all(units, done, starts, n)),
        walk_all(units, done, starts, n).no_duplicates(),
        forall|k: int|
            0 <= k < starts.len() ==> done.contains(#[trigger] starts[k]) || walk_all(
                units,
                done,
                starts,
                n,
            ).contains(starts[k]),
    decreases n, starts.len(),
{
    if starts.len() > 0 {
        let last = starts.last();
        let fewer = starts.drop_last();
        assert(starts[starts.len() - 1] == last);
        assert(forall|k: int| 0 <= k < fewer.len() ==> #[trigger] fewer[k] == starts[k]);
        lemma_walk_all_order(units, done, fewer, n);
        let before = walk_all(units, done, fewer, n);
        let grown = done.union(before.to_set());
        let added = walk(units, grown, last, (n - 1) as nat);
        lemma_within_mono(units, done, grown, last, (n - 1) as nat, (n - 1) as nat);
        lemma_walk_order(units, grown, last, (n - 1) as nat);
        lemma_needs_chain(units, done, before, added);
        let order = before + added;
        assert forall|i: int, j: int| 0 <= i < j < order.len() implies order[i] != order[j] by {
            if i < before.len() && j >= before.len() {
                assert(added[j - before.len()] == order[j]);
                assert(added.contains(order[j]));
                lemma_walk_members(units, grown, grown, last, (n - 1) as nat, order[j]);
                assert(before[i] == order[i]);
                assert(before.contains(order[i]));
            }
        }
        assert forall|k: int| 0 <= k < starts.len() implies done.contains(#[trigger] starts[k])
            || order.contains(starts[k]) by {
            if k < fewer.len() {
                assert(fewer[k] == starts[k]);
                if before.contains(starts[k]) {
                    let i = choose|i: int| 0 <= i < before.len() && before[i] == starts[k];
                    assert(order[i] == starts[k]);
                }
            } else if added.contains(last) {
                let i = choose|i: int| 0 <= i < added.len() && added[i] == last;
                assert(order[before.len() + i] == last);
            } else if !done.contains(last) {
                let i = choose|i: int| 0 <= i < before.len() && before[i] == last;
                assert(order[i] == last);
            }
        }
    }
}

/// The marks part the order into the turns of the needs: each turn is the post-order from that
/// need that does not enter what the turns before it have left behind.
pub open spec fn goes_in_turn(
    units: Seq<Unit>,
    done: Set<usize>,
    needs: Seq<usize>,
    order: Seq<usize>,
    marks: Seq<int>,
) -> bool {
    &&& marks.len() == needs.len() + 1
    &&& marks[0] == 0
    &&& marks.last() == order.len()
    &&& forall|k: int|
        0 <= k < needs.len() ==> 0 <= #[trigger] marks[k] <= marks[k + 1] <= order.len()
            && order.subrange(marks[k], marks[k + 1]) == post_order(
            units,
            done.union(order.take(marks[k]).to_set()),
            needs[k],
        )
}

proof fn lemma_goes_in_turn(units: Seq<Unit>, done: Set<usize>, needs: Seq<usize>, n: nat) -> (marks:
    Seq<int>)
    requires
        all_within(units, done, needs, n),
    ensures
        goes_in_turn(units, done, needs, walk_all(units, done, needs, n), marks),
    decreases needs.len(),
{
    let order = walk_all(units, done, needs, n);
    if needs.len() == 0 {
        seq![0int]
    } else {
        let fewer = needs.drop_last();
        let before = walk_all(units, done, fewer, n);
        let grown = done.union(before.to_set());
        let last = walk(units, grown, needs.last(), (n - 1) as nat);
        assert(needs[needs.len() - 1] == needs.last());
        assert forall|k: int| 0 <= k < fewer.len() implies within(
            units,
            done,
            #[trigger] fewer[k],
            (n - 1) as nat,
        ) by {
            assert(fewer[k] == needs[k]);
        }
        let marks = lemma_goes_in_turn(units, done, fewer, n);
        lemma_within_mono(units, done, grown, needs.last(), (n - 1) as nat, (n - 1) as nat);
        law_post_order_is_a_walk(units, grown, needs.last(), (n - 1) as nat);
        let more = marks.push(order.len() as int);
        assert forall|k: int| 0 <= k < needs.len() implies 0 <= #[trigger] more[k] <= more[k + 1]
            <= order.len() && order.subrange(more[k], more[k + 1]) == post_order(
            units,
            done.union(order.take(more[k]).to_set()),
            needs[k],
        ) by {
            if k < fewer.len() {
                assert(0 <= marks[k] <= marks[k + 1] <= before.len());
                assert(order.subrange(more[k], more[k + 1]) =~= before.subrange(
                    marks[k],
                    marks[k + 1],
                ));
                assert(order.take(more[k]) =~= before.take(marks[k]));
                assert(fewer[k] == needs[k]);
            } else {
                assert(marks.last() == before.len());
                assert(order.take(more[k]) =~= before);
                assert(order.subrange(more[k], more[k + 1]) =~= last);
            }
        }
        more
    }
}

/// The post-order from a unit goes through its dependencies in their order, does not enter what is
/// done or what it has left behind, and ends with the unit itself.
pub proof fn law_dependencies_are_taken_in_turn(units: Seq<Unit>, done: Set<usize>, idx: usize)
    requires
        orderable(units, done, idx),
    ensures
        done.contains(idx) ==> post_order(units, done, idx).len() == 0,
        !done.contains(idx) ==> {
            let order = post_order(units, done, idx);
            let needs = Seq::new(
                units[idx as int].dependencies@.len(),
                |k: int| units[idx as int].dependencies@[k].index,
            );
            &&& order.len() > 0
            &&& order.last() == idx
            &&& exists|marks: Seq<int>| goes_in_turn(units, done, needs, order.drop_last(), marks)
        },
{
    let n = choose|n: nat| within(units, done, idx, n);
    if !done.contains(idx) {
        let needs = needs_of(units, idx);
        let order = post_order(units, done, idx);
        assert(needs =~= Seq::new(
            units[idx as int].dependencies@.len(),
            |k: int| units[idx as int].dependencies@[k].index,
        ));
        let marks = lemma_goes_in_turn(units, done, needs, n);
        assert(order.drop_last() =~= walk_all(units, done, needs, n));
        assert(goes_in_turn(units, done, needs, order.drop_last(), marks));
    }
}

} // verus!
