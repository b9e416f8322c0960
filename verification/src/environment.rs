//! The environment variables of a build.

use bytes::Bytes;
use vstd::prelude::*;

use crate::octets;

verus! {

/// The two byte strings agree on their first `k` bytes, and then `a` ends or goes on with the
/// smaller byte.
pub open spec fn precedes_at(a: Seq<u8>, b: Seq<u8>, k: int) -> bool {
    &&& 0 <= k <= a.len()
    &&& k < b.len()
    &&& forall|i: int| 0 <= i < k ==> #[trigger] a[i] == b[i]
    &&& k == a.len() || a[k] < b[k]
}

/// The byte string `a` comes before `b` in a dictionary.
pub open spec fn precedes(a: Seq<u8>, b: Seq<u8>) -> bool {
    exists|k: int| precedes_at(a, b, k)
}

proof fn lemma_precedes_is_transitive(a: Seq<u8>, b: Seq<u8>, c: Seq<u8>)
    requires
        precedes(a, b),
        precedes(b, c),
    ensures
        precedes(a, c),
{
    let j = choose|k: int| precedes_at(a, b, k);
    let k = choose|k: int| precedes_at(b, c, k);
    let m = if j < k {
        j
    } else {
        k
    };
    assert forall|i: int| 0 <= i < m implies #[trigger] a[i] == c[i] by {
        assert(a[i] == b[i]);
        assert(b[i] == c[i]);
    }
    if m < a.len() {
        if j < k {
            assert(b[j] == c[j]);
        } else if k < j {
            assert(a[k] == b[k]);
        }
    }
    assert(precedes_at(a, c, m));
}

proof fn lemma_precedes_is_strict(a: Seq<u8>, b: Seq<u8>)
    requires
        precedes(a, b),
    ensures
        a != b,
        !precedes(b, a),
{
    let j = choose|k: int| precedes_at(a, b, k);
    if precedes(b, a) {
        let k = choose|k: int| precedes_at(b, a, k);
        if j < k {
            assert(b[j] == a[j]);
        } else if k < j {
            assert(a[k] == b[k]);
        }
    }
}

/// How two byte strings compare.
#[derive(Clone, Copy, PartialEq, Eq, Structural)]
enum Side {
    Before,
    Same,
    Behind,
}

fn side_of(a: &[u8], b: &[u8]) -> (side: Side)
    ensures
        match side {
            Side::Before => precedes(a@, b@),
            Side::Same => a@ == b@,
            Side::Behind => precedes(b@, a@),
        },
{
    let mut i: usize = 0;
    while i < a.len() && i < b.len()
        invariant
            i <= a.len(),
            i <= b.len(),
            forall|j: int| 0 <= j < i ==> #[trigger] a@[j] == b@[j],
        decreases a.len() - i,
    {
        if a[i] < b[i] {
            assert(precedes_at(a@, b@, i as int));
            return Side::Before;
        }
        if b[i] < a[i] {
            assert(precedes_at(b@, a@, i as int));
            return Side::Behind;
        }
        i += 1;
    }
    if i < b.len() {
        assert(precedes_at(a@, b@, i as int));
        Side::Before
    } else if i < a.len() {
        assert(precedes_at(b@, a@, i as int));
        Side::Behind
    } else {
        assert(a@ =~= b@);
        Side::Same
    }
}

/// The names of the variables come in the order of a dictionary, each once.
pub open spec fn is_sorted(entries: Seq<(Bytes, Bytes)>) -> bool {
    forall|i: int, j: int|
        0 <= i < j < entries.len() ==> precedes(
            octets::octets(#[trigger] entries[i].0),
            octets::octets(#[trigger] entries[j].0),
        )
}

/// A variable of this name is listed.
pub open spec fn is_listed(entries: Seq<(Bytes, Bytes)>, name: Seq<u8>) -> bool {
    exists|i: int| 0 <= i < entries.len() && octets::octets(#[trigger] entries[i].0) == name
}

/// The values of the variables that are listed, by their names.
pub open spec fn listed_values(entries: Seq<(Bytes, Bytes)>) -> Map<Seq<u8>, Seq<u8>> {
    Map::new(
        |name: Seq<u8>| is_listed(entries, name),
        |name: Seq<u8>|
            {
                let i = choose|i: int|
                    0 <= i < entries.len() && octets::octets(#[trigger] entries[i].0) == name;
                octets::octets(entries[i].1)
            },
    )
}

proof fn lemma_value_at(entries: Seq<(Bytes, Bytes)>, i: int)
    requires
        is_sorted(entries),
        0 <= i < entries.len(),
    ensures
        listed_values(entries).contains_key(octets::octets(entries[i].0)),
        listed_values(entries)[octets::octets(entries[i].0)] == octets::octets(entries[i].1),
{
    let name = octets::octets(entries[i].0);
    let j = choose|j: int|
        0 <= j < entries.len() && octets::octets(#[trigger] entries[j].0) == name;
    assert(octets::octets(entries[i].0) == name);
    if i < j {
        lemma_precedes_is_strict(name, octets::octets(entries[j].0));
    } else if j < i {
        lemma_precedes_is_strict(octets::octets(entries[j].0), name);
    }
}

/// The environment variables of a build: for each name at most one value.
#[derive(Debug)]
pub struct Environment {
    entries: Vec<(Bytes, Bytes)>,
}

impl View for Environment {
    type V = Map<Seq<u8>, Seq<u8>>;

    closed spec fn view(&self) -> Map<Seq<u8>, Seq<u8>> {
        listed_values(self.entries@)
    }
}

impl Environment {
    #[verifier::type_invariant]
    spec fn wf(self) -> bool {
        is_sorted(self.entries@)
    }

    /// No variables.
    pub fn new() -> (r: Environment)
        ensures
            r@ == Map::<Seq<u8>, Seq<u8>>::empty(),
    {
        let r = Environment { entries: Vec::new() };
        assert(r@ =~= Map::empty());
        r
    }

    /// Sets a variable, whether or not it had a value before.
    pub fn insert(&mut self, name: Bytes, value: Bytes)
        ensures
            final(self)@ == old(self)@.insert(octets::octets(name), octets::octets(value)),
    {
        proof {
            use_type_invariant(&*self);
        }
        let mut entries: Vec<(Bytes, Bytes)> = Vec::new();
        std::mem::swap(&mut entries, &mut self.entries);
        let ghost before = entries@;
        let ghost key = octets::octets(name);
        let mut at: usize = 0;
        let mut found = false;
        while at < entries.len()
            invariant_except_break
                !found,
            invariant
                entries@ == before,
                is_sorted(before),
                key == octets::octets(name),
                at <= before.len(),
                forall|i: int|
                    0 <= i < at ==> precedes(octets::octets(#[trigger] before[i].0), key),
            ensures
                found ==> at < before.len() && octets::octets(before[at as int].0) == key,
                !found ==> forall|i: int|
                    at <= i < before.len() ==> precedes(
                        key,
                        octets::octets(#[trigger] before[i].0),
                    ),
            decreases entries.len() - at,
        {
            let side = side_of(octets::bytes_slice(&entries[at].0), octets::bytes_slice(&name));
            if side == Side::Same {
                found = true;
                break;
            }
            if side == Side::Behind {
                proof {
                    let here = octets::octets(before[at as int].0);
                    assert forall|i: int| at <= i < before.len() implies precedes(
                        key,
                        octets::octets(#[trigger] before[i].0),
                    ) by {
                        if i > at {
                            assert(precedes(here, octets::octets(before[i].0)));
                            lemma_precedes_is_transitive(key, here, octets::octets(before[i].0));
                        }
                    }
                }
                break;
            }
            at += 1;
        }
        if found {
            entries.set(at, (name, value));
        } else {
            entries.insert(at, (name, value));
        }
        proof {
            let after = entries@;
            let val = octets::octets(value);
            assert(is_sorted(after)) by {
                assert forall|i: int, j: int| 0 <= i < j < after.len() implies precedes(
                    octets::octets(#[trigger] after[i].0),
                    octets::octets(#[trigger] after[j].0),
                ) by {
                    if !found {
                        let p = if i < at {
                            i
                        } else {
                            i - 1
                        };
                        let q = if j < at {
                            j
                        } else {
                            j - 1
                        };
                        if i != at {
                            assert(after[i] == before[p]);
                        }
                        if j != at {
                            assert(after[j] == before[q]);
                        }
                    } else {
                        assert(precedes(
                            octets::octets(before[i].0),
                            octets::octets(before[j].0),
                        ));
                    }
                }
            }
            let old_map = listed_values(before);
            let new_map = listed_values(after);
            assert(octets::octets(after[at as int].0) == key);
            lemma_value_at(after, at as int);
            assert forall|k: Seq<u8>| old_map.contains_key(k) && k != key implies {
                &&& #[trigger] new_map.contains_key(k)
                &&& new_map[k] == old_map[k]
            } by {
                let i = choose|i: int|
                    0 <= i < before.len() && octets::octets(#[trigger] before[i].0) == k;
                lemma_value_at(before, i);
                let p = if found || i < at {
                    i
                } else {
                    i + 1
                };
                assert(after[p] == before[i]);
                lemma_value_at(after, p);
            }
            assert forall|k: Seq<u8>| #[trigger] new_map.contains_key(k) && k != key implies old_map.contains_key(
                k,
            ) by {
                let p = choose|p: int|
                    0 <= p < after.len() && octets::octets(#[trigger] after[p].0) == k;
                let i = if found || p < at {
                    p
                } else {
                    p - 1
                };
                assert(after[p] == before[i]);
            }
            assert(new_map =~= old_map.insert(key, val));
        }
        self.entries = entries;
    }

    /// A copy of the variables.
    pub fn copy(&self) -> (r: Environment)
        ensures
            r@ == self@,
    {
        let mut r = Environment::new();
        let mut i: usize = 0;
        proof {
            use_type_invariant(self);
            assert(listed_values(self.entries@.take(0)) =~= Map::empty());
        }
        while i < self.entries.len()
            invariant
                i <= self.entries.len(),
                is_sorted(self.entries@),
                r@ == listed_values(self.entries@.take(i as int)),
            decreases self.entries.len() - i,
        {
            let (name, value) = &self.entries[i];
            r.insert(octets::bytes_clone(name), octets::bytes_clone(value));
            proof {
                let seen = self.entries@.take(i as int);
                let more = self.entries@.take(i + 1);
                assert(seen =~= more.take(i as int));
                lemma_extends(seen, more, i as int);
            }
            i += 1;
        }
        assert(self.entries@.take(self.entries.len() as int) =~= self.entries@);
        r
    }

    /// The names and values, in the order of their names.
    pub fn into_entries(self) -> (r: Vec<(Bytes, Bytes)>)
        ensures
            is_sorted(r@),
            self@ == listed_values(r@),
    {
        proof {
            use_type_invariant(&self);
        }
        self.entries
    }
}

proof fn lemma_extends(seen: Seq<(Bytes, Bytes)>, more: Seq<(Bytes, Bytes)>, at: int)
    requires
        is_sorted(more),
        more.len() == seen.len() + 1,
        at == seen.len(),
        seen == more.take(at),
    ensures
        listed_values(more) == listed_values(seen).insert(
            octets::octets(more[at].0),
            octets::octets(more[at].1),
        ),
{
    let key = octets::octets(more[at].0);
    lemma_value_at(more, at);
    assert(is_sorted(seen)) by {
        assert forall|i: int, j: int| 0 <= i < j < seen.len() implies precedes(
            octets::octets(#[trigger] seen[i].0),
            octets::octets(#[trigger] seen[j].0),
        ) by {
            assert(precedes(octets::octets(more[i].0), octets::octets(more[j].0)));
        }
    }
    assert forall|k: Seq<u8>| listed_values(seen).contains_key(k) implies {
        &&& #[trigger] listed_values(more).contains_key(k)
        &&& k != key ==> listed_values(more)[k] == listed_values(seen)[k]
    } by {
        let i = choose|i: int| 0 <= i < seen.len() && octets::octets(#[trigger] seen[i].0) == k;
        lemma_value_at(seen, i);
        assert(more[i] == seen[i]);
        lemma_value_at(more, i);
    }
    assert forall|k: Seq<u8>| #[trigger] listed_values(more).contains_key(k) && k != key implies listed_values(
        seen,
    ).contains_key(k) by {
        let i = choose|i: int| 0 <= i < more.len() && octets::octets(#[trigger] more[i].0) == k;
        assert(seen[i] == more[i]);
    }
    assert(listed_values(more) =~= listed_values(seen).insert(key, octets::octets(more[at].1)));
}

/// Of variables in order, each that is listed is read with its value, and no other is read.
pub proof fn law_listed_variables_are_read(entries: Seq<(Bytes, Bytes)>, name: Seq<u8>)
    requires
        is_sorted(entries),
    ensures
        listed_values(entries).contains_key(name) <==> exists|i: int|
            0 <= i < entries.len() && octets::octets(#[trigger] entries[i].0) == name,
        forall|i: int|
            0 <= i < entries.len() && octets::octets(#[trigger] entries[i].0) == name
                ==> listed_values(entries)[name] == octets::octets(entries[i].1),
{
    assert forall|i: int|
        0 <= i < entries.len() && octets::octets(
            #[trigger] entries[i].0,
        ) == name implies listed_values(entries)[name] == octets::octets(entries[i].1) by {
        lemma_value_at(entries, i);
    }
}

/// The order of the names is that of a dictionary: it is strict, and one of any two different
/// byte strings comes first. The empty one comes before all others, and a smaller first byte
/// decides.
pub proof fn law_dictionary_order(a: Seq<u8>, b: Seq<u8>, x: u8, y: u8)
    ensures
        precedes(a, b) ==> a != b && !precedes(b, a),
        a.len() == 0 && b.len() > 0 ==> precedes(a, b),
        x < y ==> precedes(seq![x] + a, seq![y] + b),
        precedes(a, b) ==> precedes(seq![x] + a, seq![x] + b),
{
    if precedes(a, b) {
        lemma_precedes_is_strict(a, b);
        let k = choose|k: int| precedes_at(a, b, k);
        let (p, q) = (seq![x] + a, seq![x] + b);
        assert forall|i: int| 0 <= i < k + 1 implies #[trigger] p[i] == q[i] by {
            if i > 0 {
                assert(a[i - 1] == b[i - 1]);
            }
        }
        assert(precedes_at(p, q, k + 1));
    }
    if a.len() == 0 && b.len() > 0 {
        assert(precedes_at(a, b, 0));
    }
    if x < y {
        assert(precedes_at(seq![x] + a, seq![y] + b, 0));
    }
}

} // verus!
