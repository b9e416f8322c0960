//! Plans for runs of build scripts.

use bytes::{Bytes, BytesMut};
use vstd::prelude::*;
use vstd::string::*;
use vstd::utf8::*;

use crate::derivation;
use crate::derivation::{
    Algorithm, Build, ContentAddressMethodAlgorithm, Derivation, DerivationOutput, Input, Inputs,
};
use crate::environment::Environment;
use crate::metadata;
use crate::octets;
use crate::paths;
use crate::plan;
use crate::plan::{
    ExternConfig, Job, PlanError, Planned, Tools, UnitCache, UnitCacheMeta, SCRIPT_METADATA_ENV,
};
use crate::store;
use crate::store::{OutputName, StorePath, StorePathError};
use crate::text;
use crate::unit_graph::{CompileMode, Dependency, Unit};

verus! {

/// The dependency is built, not run.
pub open spec fn is_built(units: Seq<Unit>, dep: Dependency) -> bool {
    units[dep.index as int].mode == CompileMode::Build
}

/// The dependency is a run of another script that has something to say about a native library.
pub open spec fn sets_metadata(
    units: Seq<Unit>,
    cache: Seq<Option<UnitCache>>,
    dep: Dependency,
) -> bool {
    !is_built(units, dep) && plan::plan_of(cache, dep.index).meta.has_links
}

/// The position of the script among the dependencies: that of the last one that is built.
pub open spec fn script_position(units: Seq<Unit>, deps: Seq<Dependency>) -> Option<int>
    decreases deps.len(),
{
    if deps.len() == 0 {
        None
    } else if is_built(units, deps.last()) {
        Some(deps.len() - 1)
    } else {
        script_position(units, deps.drop_last())
    }
}

/// The files with what the scripts of dependencies have to say.
pub open spec fn metadata_files(
    units: Seq<Unit>,
    cache: Seq<Option<UnitCache>>,
    deps: Seq<Dependency>,
) -> Seq<Seq<u8>>
    decreases deps.len(),
{
    if deps.len() == 0 {
        Seq::empty()
    } else {
        let before = metadata_files(units, cache, deps.drop_last());
        if sets_metadata(units, cache, deps.last()) {
            before.push(
                encode_utf8(
                    paths::joined_path(
                        plan::output_of(cache, deps.last().index, OutputName::Flags),
                        SCRIPT_METADATA_ENV@,
                    ),
                ),
            )
        } else {
            before
        }
    }
}

/// The outputs with what the scripts of dependencies have to say.
pub open spec fn metadata_inputs(
    units: Seq<Unit>,
    cache: Seq<Option<UnitCache>>,
    deps: Seq<Dependency>,
) -> Set<Input> {
    Set::new(
        |input: Input|
            exists|k: int|
                0 <= k < deps.len() && sets_metadata(units, cache, #[trigger] deps[k]) && input
                    == Input::Built(
                    plan::plan_of(cache, deps[k].index).drv_path@,
                    OutputName::Flags,
                ),
    )
}

/// The extra inputs, where all of them are store paths.
pub open spec fn extra_inputs(store_dir: Seq<char>, list: Seq<String>) -> Set<Input> {
    Set::new(
        |input: Input|
            exists|k: int, base: Seq<char>|
                0 <= k < list.len() && #[trigger] store::in_store(store_dir, list[k]@, base) && input
                    == Input::Opaque(base),
    )
}

/// All of the texts are store paths.
pub open spec fn all_store_paths(store_dir: Seq<char>, list: Seq<String>) -> bool {
    forall|k: int| 0 <= k < list.len() ==> store::is_store_path(store_dir, (#[trigger] list[k])@)
}

/// The first text that is not a store path is wrong for this reason.
pub open spec fn first_is_wrong(
    store_dir: Seq<char>,
    list: Seq<String>,
    at: int,
    e: StorePathError,
) -> bool {
    &&& 0 <= at < list.len()
    &&& !store::is_store_path(store_dir, list[at]@)
    &&& store::is_path_error(store_dir, list[at]@, e)
    &&& forall|k: int| 0 <= k < at ==> store::is_store_path(store_dir, (#[trigger] list[k])@)
}

/// The paths of the compilers, for the script to find. Without a platform of its own, the target
/// is the host.
pub open spec fn compiler_env(
    env: Map<Seq<u8>, Seq<u8>>,
    tools: Tools,
    cross: bool,
) -> Map<Seq<u8>, Seq<u8>> {
    let (cc, cxx) = if cross {
        (tools.target_cc, tools.target_cxx)
    } else {
        (tools.host_cc, tools.host_cxx)
    };
    env.insert(encode_utf8("HOST_CC"@), octets::octets(tools.host_cc.real_path)).insert(
        encode_utf8("HOST_CXX"@),
        octets::octets(tools.host_cxx.real_path),
    ).insert(encode_utf8("CC"@), octets::octets(cc.real_path)).insert(
        encode_utf8("CXX"@),
        octets::octets(cxx.real_path),
    )
}

/// The environment with extra variables.
pub open spec fn with_extra(
    env: Map<Seq<u8>, Seq<u8>>,
    extra: Seq<(String, String)>,
) -> Map<Seq<u8>, Seq<u8>>
    decreases extra.len(),
{
    if extra.len() == 0 {
        env
    } else {
        metadata::with_variable(
            with_extra(env, extra.drop_last()),
            extra.last().0@,
            extra.last().1@,
        )
    }
}

/// The variable by which a script knows that a feature is on, where the feature's name is given in
/// upper case.
pub open spec fn feature_variable(upper: Seq<char>) -> Seq<char> {
    "CARGO_FEATURE_"@ + text::underscored(upper)
}

/// The environment with the features that are on.
pub open spec fn with_feature_variables(
    env: Map<Seq<u8>, Seq<u8>>,
    features: Seq<String>,
) -> Map<Seq<u8>, Seq<u8>>
    decreases features.len(),
{
    if features.len() == 0 {
        env
    } else {
        metadata::with_variable(
            with_feature_variables(env, features.drop_last()),
            feature_variable(text::uppercase(features.last()@)),
            ""@,
        )
    }
}

/// A search path with one more entry.
pub open spec fn with_entry(path: Seq<u8>, entry: Seq<u8>) -> Seq<u8> {
    path + encode_utf8(":"@) + entry
}

/// A search path with extra entries.
pub open spec fn with_entries(path: Seq<u8>, entries: Seq<String>) -> Seq<u8>
    decreases entries.len(),
{
    if entries.len() == 0 {
        path
    } else {
        with_entry(with_entries(path, entries.drop_last()), encode_utf8(entries.last()@))
    }
}

/// The search path of a script, without extra entries.
pub open spec fn script_path(tools: Tools, cross: bool) -> Seq<u8> {
    let path = with_entry(
        octets::octets(tools.rustc.path_entry),
        octets::octets(tools.host_cc.path_entry),
    );
    if cross {
        with_entry(path, octets::octets(tools.target_cc.path_entry))
    } else {
        path
    }
}

/// The inputs of a run, without extra ones.
pub open spec fn script_inputs(job: Job, target_env: Seq<char>, script: Dependency) -> Set<Input> {
    let tools = job.setup.tools;
    let compilers = if job.unit.platform is Some {
        set![
            Input::Opaque(tools.host_cc.store_path@),
            Input::Opaque(tools.host_cxx.store_path@),
            Input::Opaque(tools.target_cc.store_path@),
            Input::Opaque(tools.target_cxx.store_path@),
        ]
    } else {
        set![
            Input::Opaque(tools.host_cc.store_path@),
            Input::Opaque(tools.host_cxx.store_path@),
        ]
    };
    set![
        Input::Opaque(tools.rustc.store_path@),
        Input::Opaque(job.src_path@),
        Input::Opaque(tools.build_wrap.store_path@),
        Input::Opaque(tools.env_wrap.store_path@),
        Input::Built(target_env, OutputName::Out),
        Input::Built(
            plan::plan_of(job.cache@, script.index).drv_path@,
            OutputName::Out,
        ),
    ] + compilers + metadata_inputs(job.units@, job.cache@, job.unit.dependencies@)
}

/// The arguments of a run: the files with variables, and then the command that gets them. That is
/// the wrapper of the script, the directory to run it in, the name of the native library, the
/// directories for what it says and what it makes, and the script.
pub open spec fn run_args(
    files: Seq<Seq<u8>>,
    wrapper: Seq<u8>,
    src_dir: Seq<char>,
    links: Seq<char>,
    flags_dir: Seq<char>,
    out_dir: Seq<char>,
    script: Seq<char>,
) -> Seq<Seq<u8>> {
    files + seq![
        encode_utf8("--"@),
        wrapper,
        encode_utf8(src_dir),
        encode_utf8(links),
        encode_utf8(flags_dir),
        encode_utf8(out_dir),
        encode_utf8(script),
    ]
}

/// The arguments of the run of a unit.
pub open spec fn script_args(job: Job, target_env: Seq<char>, script: Dependency) -> Seq<Seq<u8>> {
    let files = metadata_files(job.units@, job.cache@, job.unit.dependencies@);
    run_args(
        seq![encode_utf8(store::ca_placeholder(target_env, "out"@))] + files,
        octets::octets(job.setup.tools.build_wrap.real_path),
        job.src_dir(),
        text::text_or_empty(job.package.links),
        store::standard_placeholder("flags"@),
        store::standard_placeholder("out"@),
        paths::joined_path(
            plan::output_of(job.cache@, script.index, OutputName::Out),
            script.extern_crate_name@,
        ),
    )
}

/// The extra variables, if any.
pub open spec fn extra_env(config: Option<&ExternConfig>) -> Seq<(String, String)> {
    match config {
        Some(c) => c.env@,
        None => Seq::empty(),
    }
}

/// The extra entries of the search path, if any.
pub open spec fn extra_path(config: Option<&ExternConfig>) -> Seq<String> {
    match config {
        Some(c) => c.path@,
        None => Seq::empty(),
    }
}

/// The extra inputs, if any, as they are given.
pub open spec fn extra_list(config: Option<&ExternConfig>) -> Seq<String> {
    match config {
        Some(c) => c.inputs@,
        None => Seq::empty(),
    }
}

/// The variables of a run. The optimisation level and the search path count whatever the extra
/// variables say.
pub open spec fn script_env(job: Job, config: Option<&ExternConfig>) -> Map<Seq<u8>, Seq<u8>> {
    let cross = job.unit.platform is Some;
    let compilers = compiler_env(job.crate_env(), job.setup.tools, cross);
    let features = with_feature_variables(
        with_extra(compilers, extra_env(config)),
        job.unit.features@,
    );
    metadata::with_variable(features, "OPT_LEVEL"@, job.unit.profile.opt_level@).insert(
        encode_utf8("PATH"@),
        with_entries(script_path(job.setup.tools, cross), extra_path(config)),
    )
}

/// The name of a run.
pub open spec fn script_name(job: Job) -> Seq<char> {
    job.source.name@ + "-run"@
}

/// The build that runs a script.
pub open spec fn script_build(
    job: Job,
    target_env: Seq<char>,
    config: Option<&ExternConfig>,
    script: Dependency,
) -> Build {
    Build {
        name: script_name(job),
        outputs: seq![
            (OutputName::Out, derivation::floating()),
            (OutputName::Flags, derivation::floating()),
        ],
        inputs: script_inputs(job, target_env, script) + extra_inputs(
            job.setup.store_dir@,
            extra_list(config),
        ),
        platform: octets::octets(job.setup.platform),
        builder: octets::octets(job.setup.tools.env_wrap.real_path),
        args: script_args(job, target_env, script),
        env: script_env(job, config),
    }
}

/// Finds the script among the dependencies.
fn find_script(units: &[Unit], deps: &Vec<Dependency>) -> (r: Option<usize>)
    requires
        forall|k: int| 0 <= k < deps.len() ==> (#[trigger] deps@[k]).index < units.len(),
    ensures
        match r {
            Some(at) => at < deps.len() && script_position(units@, deps@) == Some(at as int),
            None => script_position(units@, deps@) is None,
        },
{
    let mut at: usize = deps.len();
    assert(deps@.take(deps@.len() as int) =~= deps@);
    while at > 0
        invariant
            at <= deps.len(),
            forall|k: int| 0 <= k < deps.len() ==> (#[trigger] deps@[k]).index < units.len(),
            script_position(units@, deps@) == script_position(units@, deps@.take(at as int)),
        decreases at,
    {
        assert(deps@.take(at as int).drop_last() =~= deps@.take(at - 1));
        assert(deps@.take(at as int).last() == deps@[at - 1]);
        at -= 1;
        if units[deps[at].index].mode == CompileMode::Build {
            return Some(at);
        }
    }
    None
}

proof fn lemma_metadata_inputs_grow(
    units: Seq<Unit>,
    cache: Seq<Option<UnitCache>>,
    deps: Seq<Dependency>,
    k: int,
)
    requires
        0 <= k < deps.len(),
    ensures
        metadata_inputs(units, cache, deps.take(k + 1)) == (if sets_metadata(
            units,
            cache,
            deps[k],
        ) {
            metadata_inputs(units, cache, deps.take(k)).insert(
                Input::Built(plan::plan_of(cache, deps[k].index).drv_path@, OutputName::Flags),
            )
        } else {
            metadata_inputs(units, cache, deps.take(k))
        }),
{
    let seen = deps.take(k);
    let more = deps.take(k + 1);
    assert(more[k] == deps[k]);
    assert forall|input: Input| #[trigger] metadata_inputs(units, cache, seen).contains(
        input,
    ) implies metadata_inputs(units, cache, more).contains(input) by {
        let j = choose|j: int|
            0 <= j < seen.len() && sets_metadata(units, cache, #[trigger] seen[j]) && input
                == Input::Built(
                plan::plan_of(cache, seen[j].index).drv_path@,
                OutputName::Flags,
            );
        assert(more[j] == seen[j]);
    }
    assert forall|input: Input| #[trigger] metadata_inputs(units, cache, more).contains(
        input,
    ) implies metadata_inputs(units, cache, seen).contains(input) || (sets_metadata(
        units,
        cache,
        deps[k],
    ) && input == Input::Built(
        plan::plan_of(cache, deps[k].index).drv_path@,
        OutputName::Flags,
    )) by {
        let j = choose|j: int|
            0 <= j < more.len() && sets_metadata(units, cache, #[trigger] more[j]) && input
                == Input::Built(
                plan::plan_of(cache, more[j].index).drv_path@,
                OutputName::Flags,
            );
        if j < k {
            assert(seen[j] == more[j]);
        }
    }
    if sets_metadata(units, cache, deps[k]) {
        assert(metadata_inputs(units, cache, more) =~= metadata_inputs(units, cache, seen).insert(
            Input::Built(plan::plan_of(cache, deps[k].index).drv_path@, OutputName::Flags),
        ));
    } else {
        assert(metadata_inputs(units, cache, more) =~= metadata_inputs(units, cache, seen));
    }
}

/// Adds what the scripts of dependencies have to say, to the inputs and to the arguments.
fn add_metadata(job: &Job, inputs: &mut Inputs, args: &mut Vec<Bytes>)
    requires
        job.is_ready(),
    ensures
        final(inputs)@ == old(inputs)@ + metadata_inputs(
            job.units@,
            job.cache@,
            job.unit.dependencies@,
        ),
        octets::all_octets(final(args)@) == octets::all_octets(old(args)@) + metadata_files(
            job.units@,
            job.cache@,
            job.unit.dependencies@,
        ),
{
    let ghost units = job.units@;
    let ghost cache = job.cache@;
    let ghost deps = job.unit.dependencies@;
    let mut k: usize = 0;
    proof {
        assert(deps.take(0) =~= Seq::empty());
        assert(metadata_inputs(units, cache, deps.take(0)) =~= Set::empty());
    }
    while k < job.unit.dependencies.len()
        invariant
            k <= deps.len(),
            job.is_ready(),
            units == job.units@,
            cache == job.cache@,
            deps == job.unit.dependencies@,
            inputs@ =~= old(inputs)@ + metadata_inputs(units, cache, deps.take(k as int)),
            octets::all_octets(args@) =~= octets::all_octets(old(args)@) + metadata_files(
                units,
                cache,
                deps.take(k as int),
            ),
        decreases deps.len() - k,
    {
        let idx = job.unit.dependencies[k].index;
        proof {
            assert(plan::is_planned(cache, deps[k as int].index));
            assert(deps.take(k + 1).drop_last() =~= deps.take(k as int));
            assert(deps.take(k + 1).last() == deps[k as int]);
            lemma_metadata_inputs_grow(units, cache, deps, k as int);
        }
        let dep = plan::planned(job.cache, idx);
        if job.units[idx].mode != CompileMode::Build && dep.meta.has_links {
            inputs.insert_output(&dep.drv_path, OutputName::Flags);
            let flags = dep.drv_path.ca_output(OutputName::Flags);
            let ghost before = octets::all_octets(args@);
            let file = paths::join_path(flags.as_str(), SCRIPT_METADATA_ENV);
            args.push(octets::bytes_of_string(file));
            assert(octets::all_octets(args@) =~= before.push(encode_utf8(file@)));
        }
        k += 1;
    }
    assert(deps.take(deps.len() as int) =~= deps);
}

/// Adds extra inputs.
fn add_extra_inputs(inputs: &mut Inputs, store_dir: &str, list: &Vec<String>) -> (r: Result<
    (),
    (usize, StorePathError),
>)
    ensures
        match r {
            Ok(()) => all_store_paths(store_dir@, list@) && final(inputs)@ == old(inputs)@
                + extra_inputs(store_dir@, list@),
            Err((at, e)) => !all_store_paths(store_dir@, list@) && first_is_wrong(
                store_dir@,
                list@,
                at as int,
                e,
            ),
        },
{
    let mut i: usize = 0;
    assert(extra_inputs(store_dir@, list@.take(0)) =~= Set::empty());
    while i < list.len()
        invariant
            i <= list.len(),
            forall|k: int|
                0 <= k < i ==> store::is_store_path(store_dir@, (#[trigger] list@[k])@),
            inputs@ =~= old(inputs)@ + extra_inputs(store_dir@, list@.take(i as int)),
        decreases list.len() - i,
    {
        match StorePath::from_store_dir_str(store_dir, list[i].as_str()) {
            Err(e) => {
                return Err((i, e));
            },
            Ok(path) => {
                inputs.insert_path(&path);
                proof {
                    let seen = list@.take(i as int);
                    let more = list@.take(i + 1);
                    assert forall|input: Input| #[trigger] extra_inputs(store_dir@, more).contains(
                        input,
                    ) == (extra_inputs(store_dir@, seen).contains(input) || input
                        == Input::Opaque(path@)) by {
                        if extra_inputs(store_dir@, seen).contains(input) {
                            let (k, base) = choose|k: int, base: Seq<char>|
                                0 <= k < seen.len() && #[trigger] store::in_store(
                                    store_dir@,
                                    seen[k]@,
                                    base,
                                ) && input == Input::Opaque(base);
                            assert(more[k] == seen[k]);
                            assert(store::in_store(store_dir@, more[k]@, base));
                        }
                        if input == Input::Opaque(path@) {
                            assert(store::in_store(store_dir@, more[i as int]@, path@));
                        }
                        if extra_inputs(store_dir@, more).contains(input) {
                            let (k, base) = choose|k: int, base: Seq<char>|
                                0 <= k < more.len() && #[trigger] store::in_store(
                                    store_dir@,
                                    more[k]@,
                                    base,
                                ) && input == Input::Opaque(base);
                            if k < i {
                                assert(more[k] == seen[k]);
                                assert(store::in_store(store_dir@, seen[k]@, base));
                            } else {
                                store::lemma_base_is_unique(store_dir@, list@[i as int]@, base, path@);
                            }
                        }
                    }
                    assert(extra_inputs(store_dir@, more) =~= extra_inputs(
                        store_dir@,
                        seen,
                    ).insert(Input::Opaque(path@)));
                }
            },
        }
        i += 1;
    }
    assert(list@.take(list@.len() as int) =~= list@);
    Ok(())
}

/// Adds an entry to a search path.
fn add_entry(path: &mut BytesMut, entry: &[u8])
    ensures
        octets::buffered(*final(path)) == with_entry(octets::buffered(*old(path)), entry@),
{
    octets::buffer_extend(path, ":".as_bytes());
    octets::buffer_extend(path, entry);
}

/// Adds extra entries to a search path.
fn add_entries(path: &mut BytesMut, entries: &Vec<String>)
    ensures
        octets::buffered(*final(path)) == with_entries(octets::buffered(*old(path)), entries@),
{
    let ghost start = octets::buffered(*path);
    let mut i: usize = 0;
    assert(entries@.take(0) =~= Seq::empty());
    while i < entries.len()
        invariant
            i <= entries.len(),
            octets::buffered(*path) == with_entries(start, entries@.take(i as int)),
        decreases entries.len() - i,
    {
        add_entry(path, entries[i].as_str().as_bytes());
        assert(entries@.take(i + 1).drop_last() =~= entries@.take(i as int));
        i += 1;
    }
    assert(entries@.take(entries@.len() as int) =~= entries@);
}

/// Makes the search path of a script.
fn make_path(tools: &Tools, cross: bool, config: Option<&ExternConfig>) -> (path: Bytes)
    ensures
        octets::octets(path) == with_entries(script_path(*tools, cross), extra_path(config)),
{
    let mut path = octets::buffer_of(octets::bytes_slice(&tools.rustc.path_entry));
    // some build scripts won't work if they can't find the compiler in PATH
    add_entry(&mut path, octets::bytes_slice(&tools.host_cc.path_entry));
    if cross {
        add_entry(&mut path, octets::bytes_slice(&tools.target_cc.path_entry));
    }
    if let Some(c) = config {
        add_entries(&mut path, &c.path);
    }
    octets::buffer_freeze(path)
}

/// Sets extra variables.
fn add_extra(env: &mut Environment, extra: &Vec<(String, String)>)
    ensures
        final(env)@ == with_extra(old(env)@, extra@),
{
    let ghost start = env@;
    let mut i: usize = 0;
    assert(extra@.take(0) =~= Seq::empty());
    while i < extra.len()
        invariant
            i <= extra.len(),
            env@ == with_extra(start, extra@.take(i as int)),
        decreases extra.len() - i,
    {
        env.insert(
            octets::bytes_of_string(extra[i].0.clone()),
            octets::bytes_of_string(extra[i].1.clone()),
        );
        assert(extra@.take(i + 1).drop_last() =~= extra@.take(i as int));
        i += 1;
    }
    assert(extra@.take(extra@.len() as int) =~= extra@);
}

/// Names the variable by which a script knows that a feature is on, from the feature's name in
/// upper case.
pub fn feature_variable_name(upper: &str) -> (r: String)
    ensures
        r@ == feature_variable(upper@),
{
    text::concat("CARGO_FEATURE_", text::dashes_to_underscores(upper).as_str())
}

/// Sets the variables by which a script knows what features are on.
fn add_feature_variables(env: &mut Environment, features: &Vec<String>)
    ensures
        final(env)@ == with_feature_variables(old(env)@, features@),
{
    let ghost start = env@;
    let mut i: usize = 0;
    assert(features@.take(0) =~= Seq::empty());
    while i < features.len()
        invariant
            i <= features.len(),
            env@ == with_feature_variables(start, features@.take(i as int)),
        decreases features.len() - i,
    {
        let upper = text::to_uppercase(features[i].as_str());
        let name = feature_variable_name(upper.as_str());
        env.insert(octets::bytes_of_string(name), octets::bytes_of_literal(""));
        assert(features@.take(i + 1).drop_last() =~= features@.take(i as int));
        i += 1;
    }
    assert(features@.take(features@.len() as int) =~= features@);
}

/// Makes the variables of a run.
fn make_env(job: &Job, config: Option<&ExternConfig>) -> (env: Environment)
    ensures
        env@ == script_env(*job, config),
{
    let tools = &job.setup.tools;
    let cross = job.unit.platform.is_some();
    let mut env = job.make_crate_env();
    // Running build scripts always get HOST_CC and HOST_CXX, but if the target is local (as for a
    // build script of a dependency of a build script), its compiler is that of the host.
    env.insert(
        octets::bytes_of_literal("HOST_CC"),
        octets::bytes_clone(&tools.host_cc.real_path),
    );
    env.insert(
        octets::bytes_of_literal("HOST_CXX"),
        octets::bytes_clone(&tools.host_cxx.real_path),
    );
    let cc = if cross {
        &tools.target_cc
    } else {
        &tools.host_cc
    };
    let cxx = if cross {
        &tools.target_cxx
    } else {
        &tools.host_cxx
    };
    env.insert(octets::bytes_of_literal("CC"), octets::bytes_clone(&cc.real_path));
    env.insert(octets::bytes_of_literal("CXX"), octets::bytes_clone(&cxx.real_path));
    if let Some(c) = config {
        add_extra(&mut env, &c.env);
    }
    add_feature_variables(&mut env, &job.unit.features);
    metadata::set_variable(&mut env, "OPT_LEVEL", job.unit.profile.opt_level.clone());
    env.insert(octets::bytes_of_literal("PATH"), make_path(tools, cross, config));
    env
}

/// Puts the command that runs a script behind the files with its variables.
pub fn add_run(
    args: &mut Vec<Bytes>,
    wrapper: &Bytes,
    src_dir: String,
    links: String,
    flags_dir: String,
    out_dir: String,
    script: String,
)
    ensures
        octets::all_octets(final(args)@) == run_args(
            octets::all_octets(old(args)@),
            octets::octets(*wrapper),
            src_dir@,
            links@,
            flags_dir@,
            out_dir@,
            script@,
        ),
{
    // ends the arguments of env-wrap
    args.push(octets::bytes_of_literal("--"));
    args.push(octets::bytes_clone(wrapper));
    args.push(octets::bytes_of_string(src_dir));
    args.push(octets::bytes_of_string(links));
    args.push(octets::bytes_of_string(flags_dir));
    args.push(octets::bytes_of_string(out_dir));
    args.push(octets::bytes_of_string(script));
    assert(octets::all_octets(args@) =~= run_args(
        octets::all_octets(old(args)@),
        octets::octets(*wrapper),
        src_dir@,
        links@,
        flags_dir@,
        out_dir@,
        script@,
    ));
}

/// Makes the inputs and the arguments of a run, without extra ones.
fn make_command(job: &Job, target_env: &StorePath, script: &Dependency) -> (r: (
    Inputs,
    Vec<Bytes>,
))
    requires
        job.is_ready(),
        plan::is_planned(job.cache@, script.index),
        !store::is_bare_suffix(encode_utf8(target_env@)),
    ensures
        r.0@ == script_inputs(*job, target_env@, *script),
        octets::all_octets(r.1@) == script_args(*job, target_env@, *script),
{
    let tools = &job.setup.tools;
    let script_plan = plan::planned(job.cache, script.index);
    let mut inputs = Inputs::new();
    inputs.insert_path(&tools.rustc.store_path);
    inputs.insert_path(job.src_path);
    inputs.insert_path(&tools.host_cc.store_path);
    inputs.insert_path(&tools.host_cxx.store_path);
    // the unit graph uses no platform to mean native
    if job.unit.platform.is_some() {
        inputs.insert_path(&tools.target_cc.store_path);
        inputs.insert_path(&tools.target_cxx.store_path);
    }
    inputs.insert_path(&tools.build_wrap.store_path);
    inputs.insert_path(&tools.env_wrap.store_path);
    let mut args: Vec<Bytes> = Vec::new();
    args.push(octets::bytes_of_string(target_env.ca_output(OutputName::Out)));
    inputs.insert_output(target_env, OutputName::Out);
    let ghost first = octets::all_octets(args@);
    assert(first =~= seq![encode_utf8(store::ca_placeholder(target_env@, "out"@))]);
    add_metadata(job, &mut inputs, &mut args);
    inputs.insert_output(&script_plan.drv_path, OutputName::Out);
    assert(inputs@ =~= script_inputs(*job, target_env@, *script));
    let out = script_plan.drv_path.ca_output(OutputName::Out);
    add_run(
        &mut args,
        &tools.build_wrap.real_path,
        job.src_path.to_absolute_path(job.setup.store_dir.as_str()),
        text::or_empty(&job.package.links),
        OutputName::Flags.standard_output(),
        OutputName::Out.standard_output(),
        paths::join_path(out.as_str(), script.extern_crate_name.as_str()),
    );
    (inputs, args)
}

/// Adds the extra inputs, if there are any.
fn add_config_inputs(inputs: &mut Inputs, job: &Job, config: Option<&ExternConfig>) -> (r: Result<
    (),
    (usize, StorePathError),
>)
    ensures
        match r {
            Ok(()) => all_store_paths(job.setup.store_dir@, extra_list(config)) && final(inputs)@
                == old(inputs)@ + extra_inputs(job.setup.store_dir@, extra_list(config)),
            Err((at, e)) => !all_store_paths(job.setup.store_dir@, extra_list(config))
                && first_is_wrong(job.setup.store_dir@, extra_list(config), at as int, e),
        },
{
    match config {
        Some(c) => add_extra_inputs(inputs, job.setup.store_dir.as_str(), &c.inputs),
        None => {
            assert(extra_inputs(job.setup.store_dir@, Seq::empty()) =~= Set::empty());
            Ok(())
        },
    }
}

/// Puts the parts of a run together.
fn assemble(job: &Job, name: String, inputs: Inputs, args: Vec<Bytes>, env: Environment) -> (r:
    Planned)
    ensures
        r.derivation@ == (Build {
            name: name@,
            outputs: seq![
                (OutputName::Out, derivation::floating()),
                (OutputName::Flags, derivation::floating()),
            ],
            inputs: inputs@,
            platform: octets::octets(job.setup.platform),
            builder: octets::octets(job.setup.tools.env_wrap.real_path),
            args: octets::all_octets(args@),
            env: env@,
        }),
        r.meta.base_name is None,
        r.meta.custom_output,
        r.meta.has_links == job.package.links is Some,
{
    let floating = DerivationOutput::CAFloating(
        ContentAddressMethodAlgorithm::NixArchive(Algorithm::SHA256),
    );
    let mut outputs: Vec<(OutputName, DerivationOutput)> = Vec::new();
    outputs.push((OutputName::Out, floating));
    outputs.push((OutputName::Flags, floating));
    assert(outputs@ =~= seq![
        (OutputName::Out, derivation::floating()),
        (OutputName::Flags, derivation::floating()),
    ]);
    Planned {
        derivation: Derivation {
            name,
            outputs,
            inputs,
            platform: octets::bytes_clone(&job.setup.platform),
            builder: octets::bytes_clone(&job.setup.tools.env_wrap.real_path),
            args,
            env,
        },
        meta: UnitCacheMeta {
            base_name: None,
            custom_output: true,
            has_links: job.package.links.is_some(),
        },
    }
}

/// What comes of planning the run of a build script: a plan, or the first thing that is wrong.
pub open spec fn is_outcome(
    job: Job,
    target_env: Seq<char>,
    config: Option<&ExternConfig>,
    r: Result<Planned, PlanError>,
) -> bool {
    let script = script_position(job.units@, job.unit.dependencies@);
    let list = extra_list(config);
    let store_dir = job.setup.store_dir@;
    let inputs_ok = all_store_paths(store_dir, list);
    match r {
        Ok(planned) => {
            &&& script is Some
            &&& inputs_ok
            &&& store::is_name(encode_utf8(script_name(job)))
            &&& planned.derivation@ == script_build(
                job,
                target_env,
                config,
                job.unit.dependencies@[script->0],
            )
            &&& planned.meta.base_name is None
            &&& planned.meta.custom_output
            &&& planned.meta.has_links == job.package.links is Some
        },
        Err(PlanError::NoScript) => script is None,
        Err(PlanError::InvalidInput(at, e)) => script is Some && !inputs_ok && first_is_wrong(
            store_dir,
            list,
            at as int,
            e,
        ),
        Err(PlanError::InvalidName(e)) => script is Some && inputs_ok && !store::is_name(
            encode_utf8(script_name(job)),
        ) && store::is_name_error(encode_utf8(script_name(job)), e),
        Err(_) => false,
    }
}

/// Plans the run of a build script. `target_env` is the derivation that asks rustc about the
/// target.
pub fn plan_script(job: &Job, target_env: &StorePath, config: Option<&ExternConfig>) -> (r: Result<
    Planned,
    PlanError,
>)
    requires
        job.is_ready(),
        !store::is_bare_suffix(encode_utf8(target_env@)),
    ensures
        is_outcome(*job, target_env@, config, r),
{
    let ghost deps = job.unit.dependencies@;
    assert forall|k: int| 0 <= k < deps.len() implies (#[trigger] deps[k]).index
        < job.units@.len() by {
        assert(plan::is_planned(job.cache@, deps[k].index));
    }
    let at = match find_script(job.units, &job.unit.dependencies) {
        Some(at) => at,
        None => {
            return Err(PlanError::NoScript);
        },
    };
    let script = &job.unit.dependencies[at];
    assert(plan::is_planned(job.cache@, deps[at as int].index));
    let (mut inputs, args) = make_command(job, target_env, script);
    match add_config_inputs(&mut inputs, job, config) {
        Ok(()) => {},
        Err((at, e)) => {
            return Err(PlanError::InvalidInput(at, e));
        },
    }
    let env = make_env(job, config);
    let name = text::concat(job.source.name.as_str(), "-run");
    match store::check_name(name.as_str()) {
        Ok(()) => {},
        Err(e) => {
            return Err(PlanError::InvalidName(e));
        },
    }
    Ok(assemble(job, name, inputs, args, env))
}

/// Whatever the extra variables and the features are, a run gets the optimisation level of the
/// unit and a search path that starts with rustc's.
pub proof fn law_settings_count(job: Job, config: Option<&ExternConfig>)
    ensures
        ({
            let env = script_env(job, config);
            let cross = job.unit.platform is Some;
            &&& env[encode_utf8("OPT_LEVEL"@)] == encode_utf8(job.unit.profile.opt_level@)
            &&& env[encode_utf8("PATH"@)] == with_entries(
                script_path(job.setup.tools, cross),
                extra_path(config),
            )
            &&& octets::octets(job.setup.tools.rustc.path_entry).is_prefix_of(
                env[encode_utf8("PATH"@)],
            )
        }),
{
    reveal_strlit("OPT_LEVEL");
    reveal_strlit("PATH");
    assert("OPT_LEVEL"@.len() != "PATH"@.len());
    encode_utf8_decode_utf8("OPT_LEVEL"@);
    encode_utf8_decode_utf8("PATH"@);
    let start = script_path(job.setup.tools, job.unit.platform is Some);
    lemma_entries_keep(start, extra_path(config));
}

proof fn lemma_entries_keep(path: Seq<u8>, entries: Seq<String>)
    ensures
        path.is_prefix_of(with_entries(path, entries)),
    decreases entries.len(),
{
    if entries.len() > 0 {
        lemma_entries_keep(path, entries.drop_last());
    }
}

/// All that a run reads by name is among its inputs: the script, the directory of the crate, the
/// answers about the target, and what the scripts of dependencies have to say.
pub proof fn law_inputs_cover_command(
    job: Job,
    target_env: Seq<char>,
    config: Option<&ExternConfig>,
    script: Dependency,
    k: int,
)
    ensures
        ({
            let inputs = script_build(job, target_env, config, script).inputs;
            let deps = job.unit.dependencies@;
            &&& inputs.contains(
                Input::Built(plan::plan_of(job.cache@, script.index).drv_path@, OutputName::Out),
            )
            &&& inputs.contains(Input::Opaque(job.src_path@))
            &&& inputs.contains(Input::Built(target_env, OutputName::Out))
            &&& 0 <= k < deps.len() && sets_metadata(job.units@, job.cache@, deps[k])
                ==> inputs.contains(
                Input::Built(plan::plan_of(job.cache@, deps[k].index).drv_path@, OutputName::Flags),
            )
        }),
{
    let deps = job.unit.dependencies@;
    if 0 <= k < deps.len() && sets_metadata(job.units@, job.cache@, deps[k]) {
        assert(metadata_inputs(job.units@, job.cache@, deps).contains(
            Input::Built(plan::plan_of(job.cache@, deps[k].index).drv_path@, OutputName::Flags),
        ));
    }
}

} // verus!
