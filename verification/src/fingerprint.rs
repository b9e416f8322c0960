//! What tells the symbols of one unit from those of another when they are linked together.

use harmonia_store_core::store_path as harmonia;
use std::hash::{DefaultHasher, Hash, Hasher};
use vstd::prelude::*;
use vstd::std_specs::hash::*;
use vstd::string::*;
use vstd::utf8::*;

use crate::store;
use crate::store::StorePath;
use crate::text;
use crate::unit_graph::{CompileMode, Dependency, Unit};

verus! {

/// A text as it is hashed: its bytes, and a byte that no text holds.
pub open spec fn text_feed(t: Seq<char>) -> Seq<Seq<u8>> {
    seq![encode_utf8(t), seq![255u8]]
}

/// Texts as they are hashed, one behind the other.
pub open spec fn texts_feed(fields: Seq<Seq<char>>) -> Seq<Seq<u8>>
    decreases fields.len(),
{
    if fields.len() == 0 {
        Seq::empty()
    } else {
        texts_feed(fields.drop_last()) + text_feed(fields.last())
    }
}

/// What `Hash` writes to a hasher for a store path.
pub uninterp spec fn store_path_feed(path: Seq<char>) -> Seq<Seq<u8>>;

/// What is hashed of the derivations that a unit depends on directly.
pub open spec fn store_paths_feed(paths: Seq<Seq<char>>) -> Seq<Seq<u8>>
    decreases paths.len(),
{
    if paths.len() == 0 {
        Seq::empty()
    } else {
        store_paths_feed(paths.drop_last()) + store_path_feed(paths.last())
    }
}

/// `Hash::hash` for `StorePath`: writes the bytes of its hash and its name to the hasher, and
/// nothing that does not follow from the path.
#[verifier::external_body]
fn feed_store_path(state: &mut DefaultHasher, path: &str)
    requires
        store::is_base(encode_utf8(path@)),
    ensures
        final(state)@ == old(state)@ + store_path_feed(path@),
{
    Hash::hash(&harmonia::StorePath::from_base_path(path).unwrap(), state)
}

/// Hashes a text.
fn feed_text(state: &mut DefaultHasher, t: &str)
    ensures
        final(state)@ == old(state)@ + text_feed(t@),
{
    state.write(t.as_bytes());
    let end: [u8; 1] = [255];
    state.write(end.as_slice());
    assert(end@ =~= seq![255u8]);
    assert(state@ =~= old(state)@ + text_feed(t@));
}

impl CompileMode {
    /// The mode, as Cargo spells it.
    pub open spec fn text(self) -> Seq<char> {
        match self {
            CompileMode::Test => "test"@,
            CompileMode::Build => "build"@,
            CompileMode::Check => "check"@,
            CompileMode::Doc => "doc"@,
            CompileMode::Doctest => "doctest"@,
            CompileMode::RunCustomBuild => "run-custom-build"@,
        }
    }

    /// The mode, as Cargo spells it.
    pub fn as_str(&self) -> (r: &'static str)
        ensures
            r@ == self.text(),
    {
        match self {
            CompileMode::Test => "test",
            CompileMode::Build => "build",
            CompileMode::Check => "check",
            CompileMode::Doc => "doc",
            CompileMode::Doctest => "doctest",
            CompileMode::RunCustomBuild => "run-custom-build",
        }
    }
}

/// A list, with its length in front.
pub open spec fn counted(list: Seq<Seq<char>>) -> Seq<Seq<char>> {
    seq![text::decimal(list.len())] + list
}

/// The indices and the names of dependencies.
pub open spec fn dependency_fields(deps: Seq<Dependency>) -> Seq<Seq<char>>
    decreases deps.len(),
{
    if deps.len() == 0 {
        Seq::empty()
    } else {
        dependency_fields(deps.drop_last()) + seq![
            text::decimal(deps.last().index as nat),
            deps.last().extern_crate_name@,
        ]
    }
}

/// The fields of a unit that are not lists. An empty platform differs from none.
pub open spec fn plain_fields(unit: Unit) -> Seq<Seq<char>> {
    seq![
        unit.pkg_id@,
        unit.target.name@,
        unit.target.edition@,
        unit.target.src_path@,
        unit.profile.opt_level@,
        unit.profile.debuginfo@,
        unit.mode.text(),
        if unit.platform is Some {
            "cross"@
        } else {
            "native"@
        },
        text::text_or_empty(unit.platform),
    ]
}

/// All that a unit says, as a list of texts.
pub open spec fn unit_fields(unit: Unit) -> Seq<Seq<char>> {
    plain_fields(unit) + counted(text::texts(unit.target.crate_types@)) + counted(
        text::texts(unit.features@),
    ) + dependency_fields(unit.dependencies@)
}

/// Adds copies of texts, with their number in front.
fn push_counted(fields: &mut Vec<String>, list: &Vec<String>)
    ensures
        text::texts(final(fields)@) == text::texts(old(fields)@) + counted(text::texts(list@)),
{
    fields.push(text::to_decimal(list.len() as u64));
    let ghost start = text::texts(fields@);
    assert(start =~= text::texts(old(fields)@) + seq![text::decimal(list@.len())]);
    let mut i: usize = 0;
    while i < list.len()
        invariant
            i <= list.len(),
            text::texts(fields@) =~= start + text::texts(list@.take(i as int)),
        decreases list.len() - i,
    {
        let ghost before = fields@;
        fields.push(list[i].clone());
        assert(text::texts(fields@) =~= text::texts(before).push(list@[i as int]@));
        assert(text::texts(list@.take(i + 1)) =~= text::texts(list@.take(i as int)).push(
            list@[i as int]@,
        ));
        i += 1;
    }
    assert(list@.take(list@.len() as int) =~= list@);
    assert(text::texts(fields@) =~= text::texts(old(fields)@) + counted(text::texts(list@)));
}

/// Lists all that a unit says.
fn fields_of(unit: &Unit) -> (fields: Vec<String>)
    ensures
        text::texts(fields@) == unit_fields(*unit),
{
    let mut fields: Vec<String> = Vec::new();
    fields.push(unit.pkg_id.clone());
    fields.push(unit.target.name.clone());
    fields.push(unit.target.edition.clone());
    fields.push(unit.target.src_path.clone());
    fields.push(unit.profile.opt_level.clone());
    fields.push(unit.profile.debuginfo.clone());
    fields.push(unit.mode.as_str().to_owned());
    if unit.platform.is_some() {
        fields.push("cross".to_owned());
    } else {
        fields.push("native".to_owned());
    }
    fields.push(text::or_empty(&unit.platform));
    assert(text::texts(fields@) =~= plain_fields(*unit));
    push_counted(&mut fields, &unit.target.crate_types);
    push_counted(&mut fields, &unit.features);
    let ghost start = text::texts(fields@);
    let ghost deps = unit.dependencies@;
    let mut i: usize = 0;
    assert(deps.take(0) =~= Seq::empty());
    while i < unit.dependencies.len()
        invariant
            i <= deps.len(),
            deps == unit.dependencies@,
            text::texts(fields@) =~= start + dependency_fields(deps.take(i as int)),
        decreases deps.len() - i,
    {
        let ghost before = fields@;
        fields.push(text::to_decimal(unit.dependencies[i].index as u64));
        fields.push(unit.dependencies[i].extern_crate_name.clone());
        proof {
            let more = deps.take(i + 1);
            assert(more.drop_last() =~= deps.take(i as int));
            assert(more.last() == deps[i as int]);
            assert(text::texts(fields@) =~= text::texts(before) + seq![
                text::decimal(deps[i as int].index as nat),
                deps[i as int].extern_crate_name@,
            ]);
        }
        i += 1;
    }
    assert(deps.take(deps.len() as int) =~= deps);
    fields
}

/// The hash that goes into the symbol names of a unit.
pub open spec fn fingerprint(paths: Seq<Seq<char>>, unit: Unit) -> u64 {
    DefaultHasher::spec_finish(store_paths_feed(paths) + texts_feed(unit_fields(unit)))
}

/// Hashes a unit and the derivations that it depends on directly.
pub fn dep_hash(paths: &Vec<StorePath>, unit: &Unit) -> (hash: u64)
    ensures
        hash == fingerprint(store::path_texts(paths@), *unit),
{
    let mut hasher = DefaultHasher::new();
    let ghost bases = store::path_texts(paths@);
    let mut i: usize = 0;
    assert(bases.take(0) =~= Seq::empty());
    while i < paths.len()
        invariant
            i <= paths.len(),
            bases == store::path_texts(paths@),
            hasher@ =~= store_paths_feed(bases.take(i as int)),
        decreases paths.len() - i,
    {
        feed_store_path(&mut hasher, paths[i].to_base_path());
        assert(bases.take(i + 1).drop_last() =~= bases.take(i as int));
        i += 1;
    }
    assert(bases.take(bases.len() as int) =~= bases);
    let fields = fields_of(unit);
    let ghost all = text::texts(fields@);
    let ghost start = hasher@;
    let mut j: usize = 0;
    assert(all.take(0) =~= Seq::empty());
    while j < fields.len()
        invariant
            j <= fields.len(),
            all == text::texts(fields@),
            hasher@ =~= start + texts_feed(all.take(j as int)),
        decreases fields.len() - j,
    {
        feed_text(&mut hasher, fields[j].as_str());
        assert(all.take(j + 1).drop_last() =~= all.take(j as int));
        j += 1;
    }
    assert(all.take(all.len() as int) =~= all);
    hasher.finish()
}

/// Two units say the same.
pub open spec fn same_unit(a: Unit, b: Unit) -> bool {
    &&& a.pkg_id@ == b.pkg_id@
    &&& a.target.name@ == b.target.name@
    &&& a.target.edition@ == b.target.edition@
    &&& a.target.src_path@ == b.target.src_path@
    &&& text::texts(a.target.crate_types@) == text::texts(b.target.crate_types@)
    &&& a.profile.opt_level@ == b.profile.opt_level@
    &&& a.profile.debuginfo@ == b.profile.debuginfo@
    &&& a.platform is Some == b.platform is Some
    &&& text::text_or_empty(a.platform) == text::text_or_empty(b.platform)
    &&& a.mode == b.mode
    &&& text::texts(a.features@) == text::texts(b.features@)
    &&& a.dependencies@.len() == b.dependencies@.len()
    &&& forall|k: int|
        0 <= k < a.dependencies@.len() ==> (#[trigger] a.dependencies@[k]).index
            == b.dependencies@[k].index && a.dependencies@[k].extern_crate_name@
            == b.dependencies@[k].extern_crate_name@
}

proof fn lemma_texts_feed_len(fields: Seq<Seq<char>>)
    ensures
        texts_feed(fields).len() == 2 * fields.len(),
    decreases fields.len(),
{
    if fields.len() > 0 {
        lemma_texts_feed_len(fields.drop_last());
    }
}

proof fn lemma_texts_feed_is_injective(a: Seq<Seq<char>>, b: Seq<Seq<char>>)
    requires
        texts_feed(a) == texts_feed(b),
    ensures
        a == b,
    decreases a.len(),
{
    lemma_texts_feed_len(a);
    lemma_texts_feed_len(b);
    if a.len() > 0 {
        let x = texts_feed(a);
        let y = texts_feed(b);
        lemma_texts_feed_len(a.drop_last());
        lemma_texts_feed_len(b.drop_last());
        assert(x.take(x.len() - 2) =~= texts_feed(a.drop_last()));
        assert(y.take(y.len() - 2) =~= texts_feed(b.drop_last()));
        assert(x[x.len() - 2] == encode_utf8(a.last()));
        assert(y[y.len() - 2] == encode_utf8(b.last()));
        text::lemma_encoding_is_injective(a.last(), b.last());
        lemma_texts_feed_is_injective(a.drop_last(), b.drop_last());
        assert(a =~= a.drop_last().push(a.last()));
        assert(b =~= b.drop_last().push(b.last()));
    } else {
        assert(a =~= b);
    }
}

proof fn lemma_counted_is_injective(
    a: Seq<Seq<char>>,
    rest_a: Seq<Seq<char>>,
    b: Seq<Seq<char>>,
    rest_b: Seq<Seq<char>>,
)
    requires
        counted(a) + rest_a == counted(b) + rest_b,
    ensures
        a == b,
        rest_a == rest_b,
{
    let x = counted(a) + rest_a;
    let y = counted(b) + rest_b;
    assert(x[0] == text::decimal(a.len()));
    assert(y[0] == text::decimal(b.len()));
    text::law_decimal_tells_apart(a.len(), b.len());
    assert(x.subrange(1, 1 + a.len() as int) =~= a);
    assert(y.subrange(1, 1 + b.len() as int) =~= b);
    assert(x.skip(1 + a.len() as int) =~= rest_a);
    assert(y.skip(1 + b.len() as int) =~= rest_b);
}

proof fn lemma_dependency_fields_len(deps: Seq<Dependency>)
    ensures
        dependency_fields(deps).len() == 2 * deps.len(),
    decreases deps.len(),
{
    if deps.len() > 0 {
        lemma_dependency_fields_len(deps.drop_last());
    }
}

proof fn lemma_dependency_fields_are_injective(a: Seq<Dependency>, b: Seq<Dependency>)
    requires
        dependency_fields(a) == dependency_fields(b),
    ensures
        a.len() == b.len(),
        forall|k: int|
            0 <= k < a.len() ==> (#[trigger] a[k]).index == b[k].index && a[k].extern_crate_name@
                == b[k].extern_crate_name@,
    decreases a.len(),
{
    lemma_dependency_fields_len(a);
    lemma_dependency_fields_len(b);
    if a.len() > 0 {
        let x = dependency_fields(a);
        let y = dependency_fields(b);
        lemma_dependency_fields_len(a.drop_last());
        lemma_dependency_fields_len(b.drop_last());
        assert(x.take(x.len() - 2) =~= dependency_fields(a.drop_last()));
        assert(y.take(y.len() - 2) =~= dependency_fields(b.drop_last()));
        assert(x[x.len() - 2] == text::decimal(a.last().index as nat));
        assert(y[y.len() - 2] == text::decimal(b.last().index as nat));
        assert(x[x.len() - 1] == a.last().extern_crate_name@);
        assert(y[y.len() - 1] == b.last().extern_crate_name@);
        text::law_decimal_tells_apart(a.last().index as nat, b.last().index as nat);
        lemma_dependency_fields_are_injective(a.drop_last(), b.drop_last());
        assert forall|k: int| 0 <= k < a.len() implies (#[trigger] a[k]).index == b[k].index
            && a[k].extern_crate_name@ == b[k].extern_crate_name@ by {
            if k < a.len() - 1 {
                assert(a.drop_last()[k] == a[k] && b.drop_last()[k] == b[k]);
            }
        }
    }
}

proof fn lemma_modes_differ(a: CompileMode, b: CompileMode)
    requires
        a.text() == b.text(),
    ensures
        a == b,
{
    reveal_strlit("test");
    reveal_strlit("build");
    reveal_strlit("check");
    reveal_strlit("doc");
    reveal_strlit("doctest");
    reveal_strlit("run-custom-build");
    assert("test"@.len() == 4 && "build"@.len() == 5 && "check"@.len() == 5 && "doc"@.len() == 3);
    assert("doctest"@.len() == 7 && "run-custom-build"@.len() == 16);
    assert("build"@[0] == 'b' && "check"@[0] == 'c');
}

/// What is hashed of a unit tells it from every unit that says anything else.
pub proof fn law_feed_tells_units_apart(a: Unit, b: Unit)
    requires
        texts_feed(unit_fields(a)) == texts_feed(unit_fields(b)),
    ensures
        same_unit(a, b),
        a.pkg_id@ == b.pkg_id@,
        a.target.name@ == b.target.name@,
        a.target.edition@ == b.target.edition@,
        a.target.src_path@ == b.target.src_path@,
        text::texts(a.target.crate_types@) == text::texts(b.target.crate_types@),
        a.profile.opt_level@ == b.profile.opt_level@,
        a.profile.debuginfo@ == b.profile.debuginfo@,
        a.platform is Some == b.platform is Some,
        a.platform is Some ==> a.platform->0@ == b.platform->0@,
        a.mode == b.mode,
        text::texts(a.features@) == text::texts(b.features@),
        a.dependencies@.len() == b.dependencies@.len(),
        forall|k: int|
            0 <= k < a.dependencies@.len() ==> (#[trigger] a.dependencies@[k]).index
                == b.dependencies@[k].index && a.dependencies@[k].extern_crate_name@
                == b.dependencies@[k].extern_crate_name@,
{
    lemma_texts_feed_is_injective(unit_fields(a), unit_fields(b));
    let x = unit_fields(a);
    let y = unit_fields(b);
    let (types_a, types_b) = (
        text::texts(a.target.crate_types@),
        text::texts(b.target.crate_types@),
    );
    let (features_a, features_b) = (text::texts(a.features@), text::texts(b.features@));
    let (deps_a, deps_b) = (
        dependency_fields(a.dependencies@),
        dependency_fields(b.dependencies@),
    );
    assert(x.take(9) =~= plain_fields(a));
    assert(y.take(9) =~= plain_fields(b));
    assert(x.skip(9) =~= counted(types_a) + (counted(features_a) + deps_a));
    assert(y.skip(9) =~= counted(types_b) + (counted(features_b) + deps_b));
    lemma_counted_is_injective(
        types_a,
        counted(features_a) + deps_a,
        types_b,
        counted(features_b) + deps_b,
    );
    lemma_counted_is_injective(features_a, deps_a, features_b, deps_b);
    lemma_dependency_fields_are_injective(a.dependencies@, b.dependencies@);
    let p = plain_fields(a);
    let q = plain_fields(b);
    assert(p[0] == q[0] && p[1] == q[1] && p[2] == q[2] && p[3] == q[3] && p[4] == q[4] && p[5]
        == q[5] && p[6] == q[6] && p[7] == q[7] && p[8] == q[8]);
    lemma_modes_differ(a.mode, b.mode);
    reveal_strlit("cross");
    reveal_strlit("native");
    assert("cross"@.len() != "native"@.len());
    assert(a.platform is Some == b.platform is Some);
}

/// The hash is made from what is written for each derivation, in their order and none left out,
/// and then from what the unit says.
pub proof fn law_hash_covers_each_derivation(paths: Seq<Seq<char>>, unit: Unit)
    ensures
        fingerprint(paths, unit) == DefaultHasher::spec_finish(
            paths.map_values(|p: Seq<char>| store_path_feed(p)).flatten() + texts_feed(
                unit_fields(unit),
            ),
        ),
{
    lemma_store_paths_feed(paths);
}

proof fn lemma_store_paths_feed(paths: Seq<Seq<char>>)
    ensures
        store_paths_feed(paths) == paths.map_values(|p: Seq<char>| store_path_feed(p)).flatten(),
    decreases paths.len(),
{
    let f = |p: Seq<char>| store_path_feed(p);
    let parts = paths.map_values(f);
    parts.lemma_flatten_and_flatten_alt_are_equivalent();
    if paths.len() > 0 {
        let fewer = paths.drop_last();
        lemma_store_paths_feed(fewer);
        assert(parts.drop_last() =~= fewer.map_values(f));
        fewer.map_values(f).lemma_flatten_and_flatten_alt_are_equivalent();
        assert(store_paths_feed(paths) =~= parts.flatten());
    }
}

/// Each text is hashed as its bytes and then a byte that no text holds, in their order and none
/// left out.
pub proof fn law_each_text_is_hashed(fields: Seq<Seq<char>>, k: int)
    requires
        0 <= k < fields.len(),
    ensures
        texts_feed(fields).len() == 2 * fields.len(),
        texts_feed(fields)[2 * k] == encode_utf8(fields[k]),
        texts_feed(fields)[2 * k + 1] == seq![0xffu8],
    decreases fields.len(),
{
    let fewer = fields.drop_last();
    lemma_texts_feed_len(fields);
    lemma_texts_feed_len(fewer);
    if k < fewer.len() {
        law_each_text_is_hashed(fewer, k);
        assert(fewer[k] == fields[k]);
        assert(texts_feed(fields)[2 * k] == texts_feed(fewer)[2 * k]);
        assert(texts_feed(fields)[2 * k + 1] == texts_feed(fewer)[2 * k + 1]);
    }
}

} // verus!
