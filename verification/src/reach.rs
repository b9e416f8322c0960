//! What the order of the units promises about their dependencies.

use vstd::prelude::*;

use crate::ordering;
use crate::unit_graph::Unit;

verus! {

/// The unit at `path[i]` needs the unit at `path[i + 1]`.
pub open spec fn is_step(units: Seq<Unit>, path: Seq<usize>, i: int) -> bool {
    path[i] < units.len() && ordering::needs_of(units, path[i]).contains(path[i + 1])
}

/// Each unit on the path needs the next, and there is more than one.
pub open spec fn is_chain(units: Seq<Unit>, path: Seq<usize>) -> bool {
    &&& path.len() >= 2
    &&& forall|i: int| 0 <= i < path.len() - 1 ==> #[trigger] is_step(units, path, i)
}

/// The unit `u` depends on the unit `v`, directly or through others.
pub open spec fn depends_on(units: Seq<Unit>, u: usize, v: usize) -> bool {
    exists|path: Seq<usize>| #[trigger]
        is_chain(units, path) && path[0] == u && path.last() == v
}

/// All that a unit depends on.
pub open spec fn below(units: Seq<Unit>, u: usize) -> Set<usize> {
    Set::new(|v: usize| depends_on(units, u, v))
}

pub(crate) proof fn lemma_direct(units: Seq<Unit>, u: usize, k: int)
    requires
        u < units.len(),
        0 <= k < ordering::needs_of(units, u).len(),
    ensures
        depends_on(units, u, ordering::needs_of(units, u)[k]),
{
    let path = seq![u, ordering::needs_of(units, u)[k]];
    assert(is_step(units, path, 0));
    assert(is_chain(units, path));
    assert(path[0] == u && path.last() == ordering::needs_of(units, u)[k]);
}

pub(crate) proof fn lemma_extend(units: Seq<Unit>, u: usize, k: int, v: usize)
    requires
        u < units.len(),
        0 <= k < ordering::needs_of(units, u).len(),
        depends_on(units, ordering::needs_of(units, u)[k], v),
    ensures
        depends_on(units, u, v),
{
    let need = ordering::needs_of(units, u)[k];
    let tail = choose|path: Seq<usize>| #[trigger]
        is_chain(units, path) && path[0] == need && path.last() == v;
    let path = seq![u] + tail;
    assert forall|i: int| 0 <= i < path.len() - 1 implies #[trigger] is_step(units, path, i) by {
        if i == 0 {
            assert(path[1] == need);
        } else {
            assert(is_step(units, tail, i - 1));
            assert(path[i] == tail[i - 1] && path[i + 1] == tail[i]);
        }
    }
    assert(is_chain(units, path));
    assert(path[0] == u && path.last() == v);
}

proof fn lemma_first_step(units: Seq<Unit>, u: usize, v: usize) -> (k: int)
    requires
        depends_on(units, u, v),
    ensures
        u < units.len(),
        0 <= k < ordering::needs_of(units, u).len(),
        ordering::needs_of(units, u)[k] == v || depends_on(units, ordering::needs_of(units, u)[k], v),
{
    let path = choose|path: Seq<usize>| #[trigger]
        is_chain(units, path) && path[0] == u && path.last() == v;
    assert(is_step(units, path, 0));
    let needs = ordering::needs_of(units, u);
    let k = choose|k: int| 0 <= k < needs.len() && needs[k] == path[1];
    if path.len() > 2 {
        let tail = path.skip(1);
        assert forall|i: int| 0 <= i < tail.len() - 1 implies #[trigger] is_step(units, tail, i) by {
            assert(is_step(units, path, i + 1));
        }
        assert(is_chain(units, tail));
        assert(tail[0] == needs[k] && tail.last() == v);
    }
    k
}

/// Dependence is transitive.
pub proof fn law_depends_on_is_transitive(units: Seq<Unit>, u: usize, v: usize, w: usize)
    requires
        depends_on(units, u, v),
        depends_on(units, v, w),
    ensures
        depends_on(units, u, w),
{
    let a = choose|path: Seq<usize>| #[trigger]
        is_chain(units, path) && path[0] == u && path.last() == v;
    let b = choose|path: Seq<usize>| #[trigger]
        is_chain(units, path) && path[0] == v && path.last() == w;
    let path = a + b.skip(1);
    assert forall|i: int| 0 <= i < path.len() - 1 implies #[trigger] is_step(units, path, i) by {
        if i < a.len() - 1 {
            assert(is_step(units, a, i));
        } else {
            assert(is_step(units, b, i - a.len() + 1));
            assert(path[i] == b[i - a.len() + 1]);
        }
    }
    assert(is_chain(units, path));
    assert(path[0] == u && path.last() == w);
}

proof fn lemma_table_exact(
    units: Seq<Unit>,
    before: Map<usize, Set<usize>>,
    added: Seq<usize>,
    after: Map<usize, Set<usize>>,
    u: usize,
    n: nat,
)
    requires
        ordering::accounts_for(units, before, added, after),
        forall|w: usize| #[trigger] before.contains_key(w) ==> before[w] == below(units, w),
        after.contains_key(u),
        ordering::within(units, before.dom(), u, n),
    ensures
        after[u] == below(units, u),
    decreases n,
{
    if before.contains_key(u) {
    } else {
        assert(added.contains(u));
        let needs = ordering::needs_of(units, u);
        assert forall|k: int| 0 <= k < needs.len() implies after[#[trigger] needs[k]] == below(
            units,
            needs[k],
        ) by {
            lemma_table_exact(units, before, added, after, needs[k], (n - 1) as nat);
        }
        assert forall|v: usize| #[trigger] after[u].contains(v) == below(units, u).contains(v) by {
            if after[u].contains(v) {
                let k = choose|k: int|
                    0 <= k < needs.len() && (v == #[trigger] needs[k] || after[needs[k]].contains(v));
                if v == needs[k] {
                    lemma_direct(units, u, k);
                } else {
                    lemma_extend(units, u, k, v);
                }
            }
            if below(units, u).contains(v) {
                let k = lemma_first_step(units, u, v);
                assert(v == needs[k] || after[needs[k]].contains(v));
            }
        }
        assert(after[u] =~= below(units, u));
    }
}

/// If the table knew, for each unit it held, exactly what that unit depends on, then after
/// `order_units` it knows that of the new units too.
pub proof fn law_table_stays_exact(
    units: Seq<Unit>,
    before: Map<usize, Set<usize>>,
    idx: usize,
    after: Map<usize, Set<usize>>,
)
    requires
        ordering::orderable(units, before.dom(), idx),
        ordering::accounts_for(units, before, ordering::post_order(units, before.dom(), idx), after),
        forall|w: usize| #[trigger] before.contains_key(w) ==> before[w] == below(units, w),
    ensures
        forall|w: usize| #[trigger] after.contains_key(w) ==> after[w] == below(units, w),
{
    let done = before.dom();
    let n = choose|n: nat| ordering::within(units, done, idx, n);
    let added = ordering::walk(units, done, idx, n);
    assert forall|w: usize| #[trigger] after.contains_key(w) implies after[w] == below(units, w) by {
        if added.contains(w) {
            ordering::lemma_walk_members(units, done, done, idx, n, w);
        } else {
            assert(before.contains_key(w));
            assert(ordering::within(units, done, w, 0));
            ordering::lemma_within_mono(units, done, done, w, 0, n);
        }
        lemma_table_exact(units, before, added, after, w, n);
    }
}

/// `order_units` puts no unit in twice and none that was there before, puts each unit behind the
/// units that it needs, and leaves the unit it was called for among those that are ordered.
pub proof fn law_dependencies_come_first(units: Seq<Unit>, done: Set<usize>, idx: usize)
    requires
        ordering::orderable(units, done, idx),
    ensures
        ordering::post_order(units, done, idx).no_duplicates(),
        forall|u: usize| #[trigger]
            ordering::post_order(units, done, idx).contains(u) ==> !done.contains(u),
        ordering::needs_come_first(units, done, ordering::post_order(units, done, idx)),
        done.contains(idx) || ordering::post_order(units, done, idx).contains(idx),
{
    let n = choose|n: nat| ordering::within(units, done, idx, n);
    ordering::lemma_walk_order(units, done, idx, n);
    assert forall|u: usize| #[trigger] ordering::post_order(units, done, idx).contains(u) implies !done.contains(
        u,
    ) by {
        ordering::lemma_walk_members(units, done, done, idx, n, u);
    }
}

/// A unit depends on each unit that it needs.
pub proof fn law_needs_are_dependencies(units: Seq<Unit>, u: usize, k: int)
    requires
        u < units.len(),
        0 <= k < units[u as int].dependencies.len(),
    ensures
        depends_on(units, u, units[u as int].dependencies@[k].index),
{
    assert(ordering::needs_of(units, u)[k] == units[u as int].dependencies@[k].index);
    lemma_direct(units, u, k);
}

/// A unit depends on nothing else: whatever holds what it needs, and what all in it need, holds
/// all that it depends on.
pub proof fn law_nothing_else_is_a_dependency(
    units: Seq<Unit>,
    closed_set: Set<usize>,
    u: usize,
    v: usize,
)
    requires
        forall|w: usize, k: int|
            #![trigger units[w as int].dependencies@[k]]
            w < units.len() && (w == u || closed_set.contains(w)) && 0 <= k
                < units[w as int].dependencies.len() ==> closed_set.contains(
                units[w as int].dependencies@[k].index,
            ),
        depends_on(units, u, v),
    ensures
        closed_set.contains(v),
{
    let path = choose|path: Seq<usize>| #[trigger]
        is_chain(units, path) && path[0] == u && path.last() == v;
    lemma_stays_inside(units, closed_set, path, path.len() - 1);
}

proof fn lemma_stays_inside(units: Seq<Unit>, closed_set: Set<usize>, path: Seq<usize>, i: int)
    requires
        is_chain(units, path),
        forall|w: usize, k: int|
            #![trigger units[w as int].dependencies@[k]]
            w < units.len() && (w == path[0] || closed_set.contains(w)) && 0 <= k
                < units[w as int].dependencies.len() ==> closed_set.contains(
                units[w as int].dependencies@[k].index,
            ),
        0 < i < path.len(),
    ensures
        closed_set.contains(path[i]),
    decreases i,
{
    if i > 1 {
        lemma_stays_inside(units, closed_set, path, i - 1);
    }
    assert(is_step(units, path, i - 1));
    let needs = ordering::needs_of(units, path[i - 1]);
    let k = choose|k: int| 0 <= k < needs.len() && needs[k] == path[i];
    assert(units[path[i - 1] as int].dependencies@[k].index == path[i]);
}

proof fn lemma_within_below(units: Seq<Unit>, u: usize, v: usize, n: nat)
    requires
        ordering::within(units, Set::empty(), u, n),
        depends_on(units, u, v),
    ensures
        n > 0,
        ordering::within(units, Set::empty(), v, (n - 1) as nat),
    decreases n,
{
    let k = lemma_first_step(units, u, v);
    let need = ordering::needs_of(units, u)[k];
    assert(ordering::within(units, Set::empty(), need, (n - 1) as nat));
    if v != need {
        lemma_within_below(units, need, v, (n - 1) as nat);
        ordering::lemma_within_mono(
            units,
            Set::empty(),
            Set::empty(),
            v,
            (n - 2) as nat,
            (n - 1) as nat,
        );
    }
}

proof fn lemma_no_circle(units: Seq<Unit>, u: usize, n: nat)
    requires
        ordering::within(units, Set::empty(), u, n),
    ensures
        !depends_on(units, u, u),
    decreases n,
{
    if depends_on(units, u, u) {
        lemma_within_below(units, u, u, n);
        lemma_no_circle(units, u, (n - 1) as nat);
    }
}

/// The unit and all that it depends on are in the graph.
spec fn is_inside(units: Seq<Unit>, u: usize) -> bool {
    u < units.len() && forall|v: usize| #[trigger] depends_on(units, u, v) ==> v < units.len()
}

proof fn lemma_long_chain(units: Seq<Unit>, u: usize, n: nat) -> (path: Seq<usize>)
    requires
        is_inside(units, u),
        !ordering::within(units, Set::empty(), u, n),
    ensures
        is_chain(units, path),
        path.len() == n + 2,
        path[0] == u,
    decreases n,
{
    let needs = ordering::needs_of(units, u);
    if n == 0 {
        let path = seq![u, needs[0]];
        assert(needs.contains(path[1]));
        assert(is_step(units, path, 0));
        path
    } else {
        let k = choose|k: int|
            0 <= k < needs.len() && !ordering::within(
                units,
                Set::empty(),
                #[trigger] needs[k],
                (n - 1) as nat,
            );
        lemma_direct(units, u, k);
        assert forall|v: usize| #[trigger] depends_on(units, needs[k], v) implies v < units.len() by {
            law_depends_on_is_transitive(units, u, needs[k], v);
        }
        let tail = lemma_long_chain(units, needs[k], (n - 1) as nat);
        let path = seq![u] + tail;
        assert forall|i: int| 0 <= i < path.len() - 1 implies #[trigger] is_step(units, path, i) by {
            if i == 0 {
                assert(path[1] == needs[k]);
                assert(needs.contains(needs[k]));
            } else {
                assert(is_step(units, tail, i - 1));
                assert(path[i] == tail[i - 1] && path[i + 1] == tail[i]);
            }
        }
        path
    }
}

proof fn lemma_part_of_chain(units: Seq<Unit>, path: Seq<usize>, i: int, j: int)
    requires
        is_chain(units, path),
        0 <= i < j < path.len(),
    ensures
        depends_on(units, path[i], path[j]),
{
    let part = path.subrange(i, j + 1);
    assert forall|k: int| 0 <= k < part.len() - 1 implies #[trigger] is_step(units, part, k) by {
        assert(is_step(units, path, i + k));
    }
    assert(is_chain(units, part));
    assert(part[0] == path[i] && part.last() == path[j]);
}

proof fn lemma_pigeonhole(path: Seq<usize>, n: nat) -> (r: (int, int))
    requires
        path.len() > n,
        forall|i: int| 0 <= i < path.len() ==> (#[trigger] path[i]) < n,
    ensures
        0 <= r.0 < r.1 < path.len(),
        path[r.0] == path[r.1],
{
    let ints = path.map_values(|v: usize| v as int);
    if ints.no_duplicates() {
        ints.unique_seq_to_set();
        vstd::set_lib::lemma_int_range(0, n as int);
        let range = vstd::set_lib::set_int_range(0, n as int);
        assert forall|v: int| #[trigger] ints.to_set().contains(v) implies range.contains(v) by {
            let i = choose|i: int| 0 <= i < ints.len() && ints[i] == v;
            assert(path[i] < n);
        }
        vstd::set_lib::lemma_len_subset(ints.to_set(), range);
    }
    let (i, j) = choose|i: int, j: int|
        0 <= i < ints.len() && 0 <= j < ints.len() && i != j && ints[i] == ints[j];
    if i < j {
        (i, j)
    } else {
        (j, i)
    }
}

/// A unit can be ordered exactly where it and all that it depends on are in the graph, and none of
/// these depends on itself.
pub proof fn law_orderable_without_circles(units: Seq<Unit>, u: usize)
    ensures
        ordering::orderable(units, Set::empty(), u) <==> {
            &&& u < units.len()
            &&& !depends_on(units, u, u)
            &&& forall|v: usize| #[trigger]
                depends_on(units, u, v) ==> v < units.len() && !depends_on(units, v, v)
        },
{
    if ordering::orderable(units, Set::empty(), u) {
        let n = choose|n: nat| ordering::within(units, Set::empty(), u, n);
        lemma_no_circle(units, u, n);
        assert forall|v: usize| #[trigger] depends_on(units, u, v) implies v < units.len()
            && !depends_on(units, v, v) by {
            lemma_within_below(units, u, v, n);
            lemma_no_circle(units, v, (n - 1) as nat);
        }
    }
    let fine = u < units.len() && !depends_on(units, u, u) && forall|v: usize| #[trigger]
        depends_on(units, u, v) ==> v < units.len() && !depends_on(units, v, v);
    if fine && !ordering::orderable(units, Set::empty(), u) {
        let n = units.len();
        assert(!ordering::within(units, Set::empty(), u, n));
        assert(is_inside(units, u));
        let path = lemma_long_chain(units, u, n);
        assert forall|i: int| 0 <= i < path.len() implies (#[trigger] path[i]) < n by {
            if i > 0 {
                lemma_part_of_chain(units, path, 0, i);
            }
        }
        let (i, j) = lemma_pigeonhole(path, n);
        lemma_part_of_chain(units, path, i, j);
        if i > 0 {
            lemma_part_of_chain(units, path, 0, i);
        }
    }
}

} // verus!
