//! Plans for runs of rustc.

use bytes::Bytes;
use std::collections::{BTreeSet, VecDeque};
use vstd::prelude::*;
use vstd::string::*;
use vstd::utf8::*;

use crate::arguments;
use crate::derivation;
use crate::derivation::{
    Algorithm, Build, ContentAddressMethodAlgorithm, Derivation, DerivationOutput, Input, Inputs,
};
use crate::environment::Environment;
use crate::fingerprint;
use crate::index_set;
use crate::metadata;
use crate::octets;
use crate::ordering;
use crate::paths;
use crate::plan;
use crate::plan::{
    Job, PlanError, Planned, Tool, UnitCache, UnitCacheMeta, SCRIPT_IMMEDIATE_ARGS,
    SCRIPT_IMMEDIATE_ENV, SCRIPT_TRANSITIVE_ARGS,
};
use crate::reach;
use crate::store;
use crate::store::{OutputName, StorePath};
use crate::text;
use crate::unit_graph::{CompileMode, Dependency, Unit};

verus! {

/// The crate type of a unit that has one.
pub open spec fn crate_type(unit: Unit) -> Seq<char> {
    unit.target.crate_types@[0]@
}

/// What rustc is told to write, where Cargo's mode says anything about it.
pub open spec fn emitted(mode: CompileMode, crate_type: Seq<char>) -> Option<Seq<char>> {
    if mode == CompileMode::Check {
        Some("metadata"@)
    } else if mode == CompileMode::Build {
        if crate_type == "lib"@ || crate_type == "rlib"@ {
            Some("metadata,link"@)
        } else {
            Some("link"@)
        }
    } else {
        None
    }
}

/// The command with the options that the unit itself asks for, and the directory that it is
/// compiled into.
pub open spec fn with_options(
    cmd: Seq<Seq<u8>>,
    unit: Unit,
    out_dir: Seq<char>,
    hash: u64,
) -> Seq<Seq<u8>> {
    let cmd = arguments::with_argument(cmd, arguments::long_option("out-dir"@, out_dir));
    let cmd = arguments::with_argument(
        cmd,
        arguments::long_option("crate-name"@, text::underscored(unit.target.name@)),
    );
    let cmd = arguments::with_argument(
        cmd,
        arguments::long_option("edition"@, unit.target.edition@),
    );
    let cmd = arguments::with_argument(
        cmd,
        arguments::long_option("crate-type"@, crate_type(unit)),
    );
    let cmd = match emitted(unit.mode, crate_type(unit)) {
        Some(kinds) => arguments::with_argument(cmd, arguments::long_option("emit"@, kinds)),
        None => cmd,
    };
    let cmd = arguments::with_codegen(cmd, "debuginfo"@, unit.profile.debuginfo@);
    let cmd = arguments::with_codegen(cmd, "opt-level"@, unit.profile.opt_level@);
    arguments::with_codegen(cmd, "metadata"@, text::hexadecimal(hash as nat, 16))
}

/// The command with features switched on.
pub open spec fn with_features(cmd: Seq<Seq<u8>>, features: Seq<String>) -> Seq<Seq<u8>>
    decreases features.len(),
{
    if features.len() == 0 {
        cmd
    } else {
        arguments::with_feature(with_features(cmd, features.drop_last()), features.last()@)
    }
}

/// The command with what rustc is told about a unit that this one depends on, directly or not:
/// the arguments that its script asked for, or the directory that its library is in.
pub open spec fn with_library(
    cmd: Seq<Seq<u8>>,
    custom_output: bool,
    out: Seq<char>,
    flags: Seq<char>,
) -> Seq<Seq<u8>> {
    if custom_output {
        arguments::with_argument(cmd, "@"@ + paths::joined_path(flags, SCRIPT_TRANSITIVE_ARGS@))
    } else {
        arguments::with_argument(arguments::with_argument(cmd, "-L"@), "dependency="@ + out)
    }
}

/// The command with what rustc is told about all of these units.
pub open spec fn with_libraries(
    cmd: Seq<Seq<u8>>,
    cache: Seq<Option<UnitCache>>,
    listed: Seq<usize>,
) -> Seq<Seq<u8>>
    decreases listed.len(),
{
    if listed.len() == 0 {
        cmd
    } else {
        with_library(
            with_libraries(cmd, cache, listed.drop_last()),
            plan::plan_of(cache, listed.last()).meta.custom_output,
            plan::output_of(cache, listed.last(), OutputName::Out),
            plan::output_of(cache, listed.last(), OutputName::Flags),
        )
    }
}

/// The name of the library file, as text.
pub open spec fn base_name_of(meta: UnitCacheMeta) -> Option<Seq<char>> {
    text::optional_text(meta.base_name)
}

/// The command with what rustc is told about the library of a direct dependency, if it has one.
pub open spec fn with_declaration(
    cmd: Seq<Seq<u8>>,
    crate_type: Seq<char>,
    extern_crate_name: Seq<char>,
    base_name: Option<Seq<char>>,
    dep_crate_type: Seq<char>,
    out: Seq<char>,
) -> Seq<Seq<u8>> {
    match base_name {
        Some(base_name) => arguments::with_argument(
            arguments::with_argument(cmd, "--extern"@),
            arguments::declared(crate_type, extern_crate_name, out, base_name, dep_crate_type),
        ),
        None => cmd,
    }
}

/// The command, run with the variables that a build script asked for, and with the arguments that
/// it asked for.
pub open spec fn with_wrapper(cmd: Seq<Seq<u8>>, wrapper: Seq<u8>, flags: Seq<char>) -> Seq<
    Seq<u8>,
> {
    seq![
        wrapper,
        encode_utf8(paths::joined_path(flags, SCRIPT_IMMEDIATE_ENV@)),
        encode_utf8("--"@),
    ] + arguments::with_argument(cmd, "@"@ + paths::joined_path(flags, SCRIPT_IMMEDIATE_ARGS@))
}

/// The command with what rustc is told about a direct dependency. Where that is a run of a build
/// script, the whole command is wrapped.
pub open spec fn with_dependency(cmd: Seq<Seq<u8>>, job: Job, dep: Dependency) -> Seq<Seq<u8>> {
    let meta = plan::plan_of(job.cache@, dep.index).meta;
    let cmd = with_declaration(
        cmd,
        crate_type(*job.unit),
        dep.extern_crate_name@,
        base_name_of(meta),
        crate_type(job.units@[dep.index as int]),
        plan::output_of(job.cache@, dep.index, OutputName::Out),
    );
    if meta.custom_output {
        with_wrapper(
            cmd,
            octets::octets(job.setup.tools.env_wrap.real_path),
            plan::output_of(job.cache@, dep.index, OutputName::Flags),
        )
    } else {
        cmd
    }
}

/// The command with what rustc is told about the direct dependencies.
pub open spec fn with_dependencies(cmd: Seq<Seq<u8>>, job: Job, deps: Seq<Dependency>) -> Seq<
    Seq<u8>,
>
    decreases deps.len(),
{
    if deps.len() == 0 {
        cmd
    } else {
        with_dependency(with_dependencies(cmd, job, deps.drop_last()), job, deps.last())
    }
}

/// The compiler that links for the unit's platform.
pub open spec fn linker(job: Job) -> Tool {
    if job.unit.platform is Some {
        job.setup.tools.target_cc
    } else {
        job.setup.tools.host_cc
    }
}

/// The command with what it ends with: the platform, the linker, and the crate that macros need.
pub open spec fn with_tail(cmd: Seq<Seq<u8>>, unit: Unit, linker: Seq<char>) -> Seq<Seq<u8>> {
    let cmd = match unit.platform {
        Some(target) => arguments::with_argument(
            cmd,
            arguments::long_option("target"@, target@),
        ),
        None => cmd,
    };
    let cmd = arguments::with_codegen(cmd, "linker"@, linker);
    if crate_type(unit) == "proc-macro"@ {
        arguments::with_argument(arguments::with_argument(cmd, "--extern"@), "proc_macro"@)
    } else {
        cmd
    }
}

/// The derivations of the direct dependencies.
pub open spec fn dependency_paths(cache: Seq<Option<UnitCache>>, deps: Seq<Dependency>) -> Seq<
    Seq<char>,
> {
    deps.map_values(|d: Dependency| plan::plan_of(cache, d.index).drv_path@)
}

/// The whole command that compiles a unit. `main` is the path of its main file from the crate's
/// directory, and `below` holds all units that it depends on.
pub open spec fn command(job: Job, main: Seq<char>, below: Set<usize>) -> Seq<Seq<u8>> {
    let deps = job.unit.dependencies@;
    let hash = fingerprint::fingerprint(dependency_paths(job.cache@, deps), *job.unit);
    let cmd = seq![
        octets::octets(job.setup.tools.rustc.real_path),
        encode_utf8(paths::joined_path(job.src_dir(), main)),
    ];
    let cmd = with_options(cmd, *job.unit, store::standard_placeholder("out"@), hash);
    let cmd = with_features(cmd, job.unit.features@);
    let cmd = with_libraries(cmd, job.cache@, index_set::in_order(below));
    with_tail(
        with_dependencies(cmd, job, deps),
        *job.unit,
        text::shown(octets::octets(linker(job).real_path)),
    )
}

/// The environment with the directory of what the last build script among the direct dependencies
/// makes.
pub open spec fn with_out_dir(
    env: Map<Seq<u8>, Seq<u8>>,
    cache: Seq<Option<UnitCache>>,
    deps: Seq<Dependency>,
) -> Map<Seq<u8>, Seq<u8>>
    decreases deps.len(),
{
    if deps.len() == 0 {
        env
    } else {
        let before = with_out_dir(env, cache, deps.drop_last());
        if plan::plan_of(cache, deps.last().index).meta.custom_output {
            metadata::with_variable(
                before,
                "OUT_DIR"@,
                plan::output_of(cache, deps.last().index, OutputName::Out),
            )
        } else {
            before
        }
    }
}

/// The variables of a run of rustc.
pub open spec fn compile_env(job: Job) -> Map<Seq<u8>, Seq<u8>> {
    with_out_dir(job.crate_env(), job.cache@, job.unit.dependencies@).insert(
        encode_utf8("PATH"@),
        octets::octets(job.setup.tools.rustc.path_entry),
    )
}

/// What a unit needs of a unit that it depends on, directly or not.
pub open spec fn is_library_input(cache: Seq<Option<UnitCache>>, idx: usize, input: Input) -> bool {
    let plan = plan::plan_of(cache, idx);
    ||| input == Input::Built(plan.drv_path@, OutputName::Out)
    ||| plan.meta.custom_output && input == Input::Built(plan.drv_path@, OutputName::Flags)
}

/// What a unit needs of all these units.
pub open spec fn library_inputs(cache: Seq<Option<UnitCache>>, below: Set<usize>) -> Set<Input> {
    Set::new(
        |input: Input|
            exists|idx: usize|
                #![trigger below.contains(idx)]
                below.contains(idx) && is_library_input(cache, idx, input),
    )
}

/// One of the dependencies is a run of a build script.
pub open spec fn has_script(cache: Seq<Option<UnitCache>>, deps: Seq<Dependency>) -> bool {
    exists|k: int|
        0 <= k < deps.len() && plan::plan_of(
            cache,
            (#[trigger] deps[k]).index,
        ).meta.custom_output
}

/// The wrapper that a run needs once one of the dependencies is a run of a build script.
pub open spec fn wrapper_input(job: Job, deps: Seq<Dependency>) -> Set<Input> {
    if has_script(job.cache@, deps) {
        set![Input::Opaque(job.setup.tools.env_wrap.store_path@)]
    } else {
        Set::empty()
    }
}

/// The inputs of a run of rustc.
pub open spec fn compile_inputs(job: Job, below: Set<usize>) -> Set<Input> {
    let tools = job.setup.tools;
    let fixed = set![
        Input::Opaque(tools.rustc.store_path@),
        Input::Opaque(job.src_path@),
        Input::Opaque(linker(job).store_path@),
    ];
    fixed + wrapper_input(job, job.unit.dependencies@) + library_inputs(job.cache@, below)
}

/// The build that compiles a unit.
pub open spec fn compile_build(job: Job, main: Seq<char>, below: Set<usize>) -> Build {
    let cmd = command(job, main, below);
    Build {
        name: job.source.name@,
        outputs: seq![(OutputName::Out, derivation::floating())],
        inputs: compile_inputs(job, below),
        platform: octets::octets(job.setup.platform),
        builder: cmd[0],
        args: cmd.skip(1),
        env: compile_env(job),
    }
}

/// The name of the library file that a unit makes, without its extension: rustc documents it.
pub open spec fn library_name(unit: Unit) -> Option<Seq<char>> {
    if crate_type(unit) == "lib"@ || crate_type(unit) == "proc-macro"@ {
        Some("lib"@ + unit.target.name@)
    } else {
        None
    }
}

/// Adds the options that the unit itself asks for, and the directory that it is compiled into.
pub fn add_options(args: &mut VecDeque<Bytes>, unit: &Unit, out_dir: &str, hash: u64)
    requires
        unit.target.crate_types.len() > 0,
    ensures
        arguments::queued(*final(args)) == with_options(
            arguments::queued(*old(args)),
            *unit,
            out_dir@,
            hash,
        ),
{
    let kind = unit.target.crate_types[0].as_str();
    arguments::add_long(args, "out-dir", out_dir);
    arguments::add_long(
        args,
        "crate-name",
        text::dashes_to_underscores(unit.target.name.as_str()).as_str(),
    );
    arguments::add_long(args, "edition", unit.target.edition.as_str());
    arguments::add_long(args, "crate-type", kind);
    if unit.mode == CompileMode::Check {
        arguments::add_long(args, "emit", "metadata");
    } else if unit.mode == CompileMode::Build {
        if text::same_text(kind, "lib") || text::same_text(kind, "rlib") {
            arguments::add_long(args, "emit", "metadata,link");
        } else {
            arguments::add_long(args, "emit", "link");
        }
    }
    arguments::add_codegen(args, "debuginfo", unit.profile.debuginfo.as_str());
    arguments::add_codegen(args, "opt-level", unit.profile.opt_level.as_str());
    // There is metadata, but no extra-filename. Every crate goes into its own derivation with its
    // own output directory, so that file names cannot conflict. Symbol names are linked into the
    // same binary, and are told apart by the metadata.
    arguments::add_codegen(args, "metadata", text::to_hexadecimal(hash, 16).as_str());
}

/// Switches features on.
fn add_features(args: &mut VecDeque<Bytes>, features: &Vec<String>)
    ensures
        arguments::queued(*final(args)) == with_features(
            arguments::queued(*old(args)),
            features@,
        ),
{
    let ghost start = arguments::queued(*args);
    let mut i: usize = 0;
    assert(features@.take(0) =~= Seq::empty());
    while i < features.len()
        invariant
            i <= features.len(),
            arguments::queued(*args) == with_features(start, features@.take(i as int)),
        decreases features.len() - i,
    {
        arguments::add_feature(args, features[i].as_str());
        assert(features@.take(i + 1).drop_last() =~= features@.take(i as int));
        i += 1;
    }
    assert(features@.take(features@.len() as int) =~= features@);
}

/// Hashes the unit and its direct dependencies.
fn hash_of(job: &Job) -> (hash: u64)
    requires
        job.is_ready(),
    ensures
        hash == fingerprint::fingerprint(
            dependency_paths(job.cache@, job.unit.dependencies@),
            *job.unit,
        ),
{
    let ghost deps = job.unit.dependencies@;
    let mut drvs: Vec<StorePath> = Vec::new();
    let mut k: usize = 0;
    while k < job.unit.dependencies.len()
        invariant
            k <= deps.len(),
            job.is_ready(),
            deps == job.unit.dependencies@,
            store::path_texts(drvs@) =~= dependency_paths(job.cache@, deps.take(k as int)),
        decreases deps.len() - k,
    {
        assert(plan::is_planned(job.cache@, deps[k as int].index));
        let dep = plan::planned(job.cache, job.unit.dependencies[k].index);
        let ghost before = store::path_texts(drvs@);
        drvs.push(dep.drv_path.clone());
        proof {
            assert(store::path_texts(drvs@) =~= before.push(dep.drv_path@));
            assert(dependency_paths(job.cache@, deps.take(k + 1)) =~= dependency_paths(
                job.cache@,
                deps.take(k as int),
            ).push(dep.drv_path@));
        }
        k += 1;
    }
    assert(deps.take(deps.len() as int) =~= deps);
    fingerprint::dep_hash(&drvs, job.unit)
}

proof fn lemma_library_inputs_grow(cache: Seq<Option<UnitCache>>, listed: Seq<usize>, k: int)
    requires
        0 <= k < listed.len(),
    ensures
        ({
            let plan = plan::plan_of(cache, listed[k]);
            let out = library_inputs(cache, listed.take(k).to_set()).insert(
                Input::Built(plan.drv_path@, OutputName::Out),
            );
            library_inputs(cache, listed.take(k + 1).to_set()) == (if plan.meta.custom_output {
                out.insert(Input::Built(plan.drv_path@, OutputName::Flags))
            } else {
                out
            })
        }),
{
    let seen = listed.take(k);
    let more = listed.take(k + 1);
    assert(more =~= seen.push(listed[k]));
    seen.lemma_push_to_set_commute(listed[k]);
    assert(more.to_set() == seen.to_set().insert(listed[k]));
    assert(more.to_set().contains(listed[k]));
    let plan = plan::plan_of(cache, listed[k]);
    let out = library_inputs(cache, seen.to_set()).insert(
        Input::Built(plan.drv_path@, OutputName::Out),
    );
    assert forall|input: Input| #[trigger]
        library_inputs(cache, more.to_set()).contains(input) == (library_inputs(
            cache,
            seen.to_set(),
        ).contains(input) || is_library_input(cache, listed[k], input)) by {
        if library_inputs(cache, seen.to_set()).contains(input) {
            let idx = choose|idx: usize|
                #![trigger seen.to_set().contains(idx)]
                seen.to_set().contains(idx) && is_library_input(cache, idx, input);
            assert(more.to_set().contains(idx));
        }
        if library_inputs(cache, more.to_set()).contains(input) {
            let idx = choose|idx: usize|
                #![trigger more.to_set().contains(idx)]
                more.to_set().contains(idx) && is_library_input(cache, idx, input);
            assert(idx == listed[k] || seen.to_set().contains(idx));
        }
    }
    if plan.meta.custom_output {
        assert(library_inputs(cache, more.to_set()) =~= out.insert(
            Input::Built(plan.drv_path@, OutputName::Flags),
        ));
    } else {
        assert(library_inputs(cache, more.to_set()) =~= out);
    }
}

/// Tells rustc about a unit that this one depends on, directly or not. `out` and `flags` are the
/// directories of what it makes and of what it said.
pub fn add_library(args: &mut VecDeque<Bytes>, custom_output: bool, out: &str, flags: &str)
    ensures
        arguments::queued(*final(args)) == with_library(
            arguments::queued(*old(args)),
            custom_output,
            out@,
            flags@,
        ),
{
    if custom_output {
        let file = paths::join_path(flags, SCRIPT_TRANSITIVE_ARGS);
        arguments::push_text(args, text::concat("@", file.as_str()));
    } else {
        arguments::push_literal(args, "-L");
        arguments::push_text(args, text::concat("dependency=", out));
    }
}

/// Adds what is needed of all units that this one depends on, to the inputs and to the command.
fn add_libraries(
    args: &mut VecDeque<Bytes>,
    inputs: &mut Inputs,
    job: &Job,
    below: &BTreeSet<usize>,
)
    requires
        plan::cache_ok(job.units@, job.cache@),
        forall|idx: usize| #[trigger] below@.contains(idx) ==> plan::is_planned(job.cache@, idx),
    ensures
        arguments::queued(*final(args)) == with_libraries(
            arguments::queued(*old(args)),
            job.cache@,
            index_set::in_order(below@),
        ),
        final(inputs)@ == old(inputs)@ + library_inputs(job.cache@, below@),
{
    let ghost cache = job.cache@;
    let ghost start = arguments::queued(*args);
    let listed = index_set::ascending(below);
    let mut k: usize = 0;
    proof {
        assert(listed@.take(0) =~= Seq::empty());
        assert(Seq::<usize>::empty().to_set() =~= Set::empty());
        assert(library_inputs(cache, listed@.take(0).to_set()) =~= Set::empty());
    }
    while k < listed.len()
        invariant
            k <= listed.len(),
            cache == job.cache@,
            plan::cache_ok(job.units@, job.cache@),
            index_set::ascending_order(below@, listed@),
            forall|idx: usize| #[trigger]
                below@.contains(idx) ==> plan::is_planned(job.cache@, idx),
            arguments::queued(*args) == with_libraries(start, cache, listed@.take(k as int)),
            inputs@ =~= old(inputs)@ + library_inputs(cache, listed@.take(k as int).to_set()),
        decreases listed.len() - k,
    {
        let idx = listed[k];
        proof {
            assert(listed@.to_set().contains(listed@[k as int]));
            assert(plan::is_planned(cache, idx));
            assert(listed@.take(k + 1).drop_last() =~= listed@.take(k as int));
            assert(listed@.take(k + 1).last() == idx);
            lemma_library_inputs_grow(cache, listed@, k as int);
        }
        let dep = plan::planned(job.cache, idx);
        // needed for a library, or for what a script makes
        inputs.insert_output(&dep.drv_path, OutputName::Out);
        if dep.meta.custom_output {
            inputs.insert_output(&dep.drv_path, OutputName::Flags);
        }
        let out = dep.drv_path.ca_output(OutputName::Out);
        let flags = dep.drv_path.ca_output(OutputName::Flags);
        add_library(args, dep.meta.custom_output, out.as_str(), flags.as_str());
        k += 1;
    }
    assert(listed@.take(listed@.len() as int) =~= listed@);
}

/// Runs the command with the variables that a build script asked for, and tells rustc what else
/// the script asked for.
pub fn add_wrapper(args: &mut VecDeque<Bytes>, wrapper: &Bytes, flags: &str)
    ensures
        arguments::queued(*final(args)) == with_wrapper(
            arguments::queued(*old(args)),
            octets::octets(*wrapper),
            flags@,
        ),
{
    let ghost start = arguments::queued(*args);
    // in reverse, since each goes to the front
    args.push_front(octets::bytes_of_literal("--"));
    assert(arguments::queued(*args) =~= seq![encode_utf8("--"@)] + start);
    let variables = paths::join_path(flags, SCRIPT_IMMEDIATE_ENV);
    args.push_front(octets::bytes_of_string(variables));
    assert(arguments::queued(*args) =~= seq![encode_utf8(variables@), encode_utf8("--"@)] + start);
    args.push_front(octets::bytes_clone(wrapper));
    assert(arguments::queued(*args) =~= seq![
        octets::octets(*wrapper),
        encode_utf8(variables@),
        encode_utf8("--"@),
    ] + start);
    let file = paths::join_path(flags, SCRIPT_IMMEDIATE_ARGS);
    arguments::push_text(args, text::concat("@", file.as_str()));
}

/// Tells rustc about the library of a direct dependency, if it has one. `out` is the directory
/// that the library is in.
pub fn add_declaration(
    args: &mut VecDeque<Bytes>,
    crate_type: &str,
    dep: &Dependency,
    base_name: &Option<String>,
    dep_unit: &Unit,
    out: &str,
)
    requires
        base_name is Some ==> dep_unit.target.crate_types.len() > 0,
    ensures
        arguments::queued(*final(args)) == with_declaration(
            arguments::queued(*old(args)),
            crate_type@,
            dep.extern_crate_name@,
            text::optional_text(*base_name),
            self::crate_type(*dep_unit),
            out@,
        ),
{
    if let Some(base_name) = base_name {
        proof {
            encode_utf8_valid_utf8(out@);
            encode_utf8_decode_utf8(out@);
        }
        let declaration = arguments::extern_declaration(
            crate_type,
            dep.extern_crate_name.as_str(),
            out.as_bytes(),
            base_name.as_str(),
            dep_unit,
        ).unwrap();
        arguments::push_literal(args, "--extern");
        arguments::push_text(args, declaration);
    }
}

/// Tells rustc about a direct dependency.
fn add_dependency(args: &mut VecDeque<Bytes>, job: &Job, dep: &Dependency)
    requires
        plan::cache_ok(job.units@, job.cache@),
        plan::is_planned(job.cache@, dep.index),
        job.unit.target.crate_types.len() == 1,
    ensures
        arguments::queued(*final(args)) == with_dependency(
            arguments::queued(*old(args)),
            *job,
            *dep,
        ),
{
    let plan = plan::planned(job.cache, dep.index);
    let out = plan.drv_path.ca_output(OutputName::Out);
    add_declaration(
        args,
        job.unit.target.crate_types[0].as_str(),
        dep,
        &plan.meta.base_name,
        &job.units[dep.index],
        out.as_str(),
    );
    if plan.meta.custom_output {
        let flags = plan.drv_path.ca_output(OutputName::Flags);
        add_wrapper(args, &job.setup.tools.env_wrap.real_path, flags.as_str());
    }
}

proof fn lemma_has_script_grows(cache: Seq<Option<UnitCache>>, deps: Seq<Dependency>, k: int)
    requires
        0 <= k < deps.len(),
    ensures
        has_script(cache, deps.take(k + 1)) == (has_script(cache, deps.take(k)) || plan::plan_of(
            cache,
            deps[k].index,
        ).meta.custom_output),
{
    let seen = deps.take(k);
    let more = deps.take(k + 1);
    assert(more[k] == deps[k]);
    if has_script(cache, seen) {
        let j = choose|j: int|
            0 <= j < seen.len() && plan::plan_of(
                cache,
                (#[trigger] seen[j]).index,
            ).meta.custom_output;
        assert(more[j] == seen[j]);
    }
    if has_script(cache, more) {
        let j = choose|j: int|
            0 <= j < more.len() && plan::plan_of(
                cache,
                (#[trigger] more[j]).index,
            ).meta.custom_output;
        if j < k {
            assert(seen[j] == more[j]);
        }
    }
}

/// Adds what is needed of the direct dependencies: to the command, to the inputs, and to the
/// variables.
fn add_dependencies(
    args: &mut VecDeque<Bytes>,
    inputs: &mut Inputs,
    env: &mut Environment,
    job: &Job,
)
    requires
        job.is_ready(),
        job.unit.target.crate_types.len() == 1,
    ensures
        arguments::queued(*final(args)) == with_dependencies(
            arguments::queued(*old(args)),
            *job,
            job.unit.dependencies@,
        ),
        final(inputs)@ == old(inputs)@ + wrapper_input(*job, job.unit.dependencies@),
        final(env)@ == with_out_dir(old(env)@, job.cache@, job.unit.dependencies@),
{
    let ghost cache = job.cache@;
    let ghost deps = job.unit.dependencies@;
    let mut k: usize = 0;
    assert(deps.take(0) =~= Seq::empty());
    while k < job.unit.dependencies.len()
        invariant
            k <= deps.len(),
            job.is_ready(),
            job.unit.target.crate_types.len() == 1,
            cache == job.cache@,
            deps == job.unit.dependencies@,
            arguments::queued(*args) == with_dependencies(
                arguments::queued(*old(args)),
                *job,
                deps.take(k as int),
            ),
            inputs@ =~= old(inputs)@ + wrapper_input(*job, deps.take(k as int)),
            env@ == with_out_dir(old(env)@, cache, deps.take(k as int)),
        decreases deps.len() - k,
    {
        let dep = &job.unit.dependencies[k];
        proof {
            assert(plan::is_planned(cache, deps[k as int].index));
            assert(deps.take(k + 1).drop_last() =~= deps.take(k as int));
            assert(deps.take(k + 1).last() == deps[k as int]);
            lemma_has_script_grows(cache, deps, k as int);
        }
        add_dependency(args, job, dep);
        let plan = plan::planned(job.cache, dep.index);
        if plan.meta.custom_output {
            inputs.insert_path(&job.setup.tools.env_wrap.store_path);
            metadata::set_variable(env, "OUT_DIR", plan.drv_path.ca_output(OutputName::Out));
        }
        k += 1;
    }
    assert(deps.take(deps.len() as int) =~= deps);
}

/// Adds what the command ends with: the platform, the linker, and the crate that macros need.
pub fn add_tail(args: &mut VecDeque<Bytes>, unit: &Unit, linker: &str)
    requires
        unit.target.crate_types.len() > 0,
    ensures
        arguments::queued(*final(args)) == with_tail(
            arguments::queued(*old(args)),
            *unit,
            linker@,
        ),
{
    if let Some(target) = &unit.platform {
        arguments::add_long(args, "target", target.as_str());
    }
    // rustc does not respect the CC variable, and platforms like Unix link with the C compiler
    arguments::add_codegen(args, "linker", linker);
    if text::same_text(unit.target.crate_types[0].as_str(), "proc-macro") {
        // internal to rustc, but required
        arguments::push_literal(args, "--extern");
        arguments::push_literal(args, "proc_macro");
    }
}

/// Makes the command, the inputs and the variables of a run of rustc.
fn make_command(job: &Job, main: &str, below: &BTreeSet<usize>) -> (r: (
    VecDeque<Bytes>,
    Inputs,
    Environment,
))
    requires
        job.is_ready(),
        job.unit.target.crate_types.len() == 1,
        forall|idx: usize| #[trigger] below@.contains(idx) ==> plan::is_planned(job.cache@, idx),
    ensures
        arguments::queued(r.0) == command(*job, main@, below@),
        r.1@ == compile_inputs(*job, below@),
        r.2@ == compile_env(*job),
{
    let tools = &job.setup.tools;
    let mut inputs = Inputs::new();
    inputs.insert_path(&tools.rustc.store_path);
    inputs.insert_path(job.src_path);
    let mut env = job.make_crate_env();

    // A derivation has its program apart from the arguments, but with rustc in here it is easier
    // to put a wrapper before it.
    let mut args: VecDeque<Bytes> = VecDeque::new();
    args.push_back(octets::bytes_clone(&tools.rustc.real_path));
    let ghost first = arguments::queued(args);
    assert(first =~= seq![octets::octets(tools.rustc.real_path)]);
    // rustc finds the other source files by itself
    let directory = job.src_path.to_absolute_path(job.setup.store_dir.as_str());
    arguments::push_text(&mut args, paths::join_path(directory.as_str(), main));
    assert(arguments::queued(args) =~= seq![
        octets::octets(tools.rustc.real_path),
        encode_utf8(paths::joined_path(job.src_dir(), main@)),
    ]);
    let out_dir = OutputName::Out.standard_output();
    add_options(&mut args, job.unit, out_dir.as_str(), hash_of(job));
    add_features(&mut args, &job.unit.features);
    add_libraries(&mut args, &mut inputs, job, below);
    add_dependencies(&mut args, &mut inputs, &mut env, job);
    let cc = if job.unit.platform.is_some() {
        &tools.target_cc
    } else {
        &tools.host_cc
    };
    inputs.insert_path(&cc.store_path);
    let program = text::show(octets::bytes_slice(&cc.real_path));
    add_tail(&mut args, job.unit, program.as_str());
    env.insert(octets::bytes_of_literal("PATH"), octets::bytes_clone(&tools.rustc.path_entry));
    assert(inputs@ =~= compile_inputs(*job, below@));
    (args, inputs, env)
}

proof fn lemma_options_keep(cmd: Seq<Seq<u8>>, unit: Unit, out_dir: Seq<char>, hash: u64)
    ensures
        cmd.is_prefix_of(with_options(cmd, unit, out_dir, hash)),
{
}

proof fn lemma_features_keep(cmd: Seq<Seq<u8>>, features: Seq<String>)
    ensures
        cmd.is_prefix_of(with_features(cmd, features)),
    decreases features.len(),
{
    if features.len() > 0 {
        lemma_features_keep(cmd, features.drop_last());
    }
}

proof fn lemma_libraries_keep(
    cmd: Seq<Seq<u8>>,
    cache: Seq<Option<UnitCache>>,
    listed: Seq<usize>,
)
    ensures
        cmd.is_prefix_of(with_libraries(cmd, cache, listed)),
    decreases listed.len(),
{
    if listed.len() > 0 {
        lemma_libraries_keep(cmd, cache, listed.drop_last());
    }
}

proof fn lemma_builder(cmd: Seq<Seq<u8>>, job: Job, deps: Seq<Dependency>)
    requires
        cmd.len() > 0,
    ensures
        with_dependencies(cmd, job, deps).len() > 0,
        with_dependencies(cmd, job, deps)[0] == (if has_script(job.cache@, deps) {
            octets::octets(job.setup.tools.env_wrap.real_path)
        } else {
            cmd[0]
        }),
    decreases deps.len(),
{
    if deps.len() > 0 {
        lemma_builder(cmd, job, deps.drop_last());
        lemma_has_script_grows(job.cache@, deps, deps.len() - 1);
        assert(deps.take(deps.len() as int) =~= deps);
        assert(deps.take(deps.len() - 1) =~= deps.drop_last());
    }
}

/// A unit is compiled by rustc itself, unless one of its direct dependencies is a run of a build
/// script: then a wrapper runs rustc with the variables that the script asked for.
pub proof fn law_builder(job: Job, main: Seq<char>, below: Set<usize>)
    ensures
        command(job, main, below).len() > 0,
        compile_build(job, main, below).builder == (if has_script(
            job.cache@,
            job.unit.dependencies@,
        ) {
            octets::octets(job.setup.tools.env_wrap.real_path)
        } else {
            octets::octets(job.setup.tools.rustc.real_path)
        }),
{
    let deps = job.unit.dependencies@;
    let hash = fingerprint::fingerprint(dependency_paths(job.cache@, deps), *job.unit);
    let cmd = seq![
        octets::octets(job.setup.tools.rustc.real_path),
        encode_utf8(paths::joined_path(job.src_dir(), main)),
    ];
    let out_dir = store::standard_placeholder("out"@);
    lemma_options_keep(cmd, *job.unit, out_dir, hash);
    let options = with_options(cmd, *job.unit, out_dir, hash);
    lemma_features_keep(options, job.unit.features@);
    let features = with_features(options, job.unit.features@);
    lemma_libraries_keep(features, job.cache@, index_set::in_order(below));
    let libraries = with_libraries(features, job.cache@, index_set::in_order(below));
    lemma_builder(libraries, job, deps);
}

/// Parts a command into its program and its arguments.
fn split_command(args: VecDeque<Bytes>) -> (r: (Bytes, Vec<Bytes>))
    requires
        args@.len() > 0,
    ensures
        octets::octets(r.0) == arguments::queued(args)[0],
        octets::all_octets(r.1@) == arguments::queued(args).skip(1),
{
    let ghost all = args@;
    let mut args = args;
    let builder = args.pop_front().unwrap();
    let mut rest: Vec<Bytes> = Vec::new();
    while args.len() > 0
        invariant
            rest@ + args@ =~= all.skip(1),
        decreases args@.len(),
    {
        rest.push(args.pop_front().unwrap());
    }
    assert(octets::all_octets(rest@) =~= octets::all_octets(all).skip(1));
    (builder, rest)
}

/// Names the library file that a unit makes. Cargo learns where it is from what rustc says, and
/// its place by default is documented.
fn library_file(unit: &Unit) -> (r: Option<String>)
    requires
        unit.target.crate_types.len() == 1,
    ensures
        match r {
            Some(name) => library_name(*unit) == Some(name@),
            None => library_name(*unit) is None,
        },
{
    let kind = unit.target.crate_types[0].as_str();
    if text::same_text(kind, "lib") || text::same_text(kind, "proc-macro") {
        Some(text::concat("lib", unit.target.name.as_str()))
    } else {
        None
    }
}

/// What comes of planning a run of rustc: a plan, or the first thing that is wrong.
pub open spec fn is_outcome(job: Job, below: Set<usize>, r: Result<Planned, PlanError>) -> bool {
    let one_type = job.unit.target.crate_types.len() == 1;
    let main = paths::stripped(job.unit.target.src_path@, job.source.root@);
    let name = encode_utf8(job.source.name@);
    match r {
        Ok(planned) => {
            &&& one_type
            &&& main is Some
            &&& store::is_name(name)
            &&& planned.derivation@ == compile_build(job, main->0, below)
            &&& base_name_of(planned.meta) == library_name(*job.unit)
            &&& !planned.meta.custom_output
            &&& !planned.meta.has_links
        },
        Err(PlanError::UnexpectedCrateTypes) => !one_type,
        Err(PlanError::OutsideCrateRoot) => one_type && main is None,
        Err(PlanError::InvalidName(e)) => one_type && main is Some && !store::is_name(name)
            && store::is_name_error(name, e),
        Err(_) => false,
    }
}

/// Plans a run of rustc. `below` holds all units that this one depends on.
pub fn plan_compile(job: &Job, below: &BTreeSet<usize>) -> (r: Result<Planned, PlanError>)
    requires
        job.is_ready(),
        forall|idx: usize| #[trigger] below@.contains(idx) ==> plan::is_planned(job.cache@, idx),
    ensures
        is_outcome(*job, below@, r),
        forall|rest: Seq<char>| #[trigger]
            paths::goes_on_below(job.unit.target.src_path@, job.source.root@, rest)
                ==> paths::stripped(job.unit.target.src_path@, job.source.root@) == Some(rest),
{
    let stripped = paths::strip_base(
        job.unit.target.src_path.as_str(),
        job.source.root.as_str(),
    );
    if job.unit.target.crate_types.len() != 1 {
        return Err(PlanError::UnexpectedCrateTypes);
    }
    let main = match stripped {
        Some(main) => main,
        None => {
            return Err(PlanError::OutsideCrateRoot);
        },
    };
    let (args, inputs, env) = make_command(job, main.as_str(), below);
    proof {
        law_builder(*job, main@, below@);
    }
    match store::check_name(job.source.name.as_str()) {
        Ok(()) => {},
        Err(e) => {
            return Err(PlanError::InvalidName(e));
        },
    }
    let (builder, args) = split_command(args);
    let mut outputs: Vec<(OutputName, DerivationOutput)> = Vec::new();
    outputs.push(
        (
            OutputName::Out,
            DerivationOutput::CAFloating(
                ContentAddressMethodAlgorithm::NixArchive(Algorithm::SHA256),
            ),
        ),
    );
    assert(outputs@ =~= seq![(OutputName::Out, derivation::floating())]);
    Ok(
        Planned {
            derivation: Derivation {
                name: job.source.name.clone(),
                outputs,
                inputs,
                platform: octets::bytes_clone(&job.setup.platform),
                builder,
                args,
                env,
            },
            meta: UnitCacheMeta {
                base_name: library_file(job.unit),
                custom_output: false,
                has_links: false,
            },
        },
    )
}

/// All that a run of rustc reads by name is among its inputs: what each unit that it depends on
/// makes, directly or not, and for a run of a build script also what the script said.
pub proof fn law_inputs_cover_command(job: Job, below: Set<usize>, idx: usize)
    requires
        below.contains(idx),
    ensures
        ({
            let plan = plan::plan_of(job.cache@, idx);
            let inputs = compile_inputs(job, below);
            &&& inputs.contains(Input::Built(plan.drv_path@, OutputName::Out))
            &&& plan.meta.custom_output ==> inputs.contains(
                Input::Built(plan.drv_path@, OutputName::Flags),
            )
        }),
{
    let plan = plan::plan_of(job.cache@, idx);
    assert(is_library_input(job.cache@, idx, Input::Built(plan.drv_path@, OutputName::Out)));
    assert(library_inputs(job.cache@, below).contains(
        Input::Built(plan.drv_path@, OutputName::Out),
    ));
    if plan.meta.custom_output {
        assert(is_library_input(job.cache@, idx, Input::Built(plan.drv_path@, OutputName::Flags)));
        assert(library_inputs(job.cache@, below).contains(
            Input::Built(plan.drv_path@, OutputName::Flags),
        ));
    }
}

/// A unit needs no inputs for its direct dependencies beyond those for all that it depends on.
pub proof fn law_direct_dependencies_are_inputs(job: Job, u: usize, k: int)
    requires
        u < job.units@.len(),
        *job.unit == job.units@[u as int],
        0 <= k < job.unit.dependencies.len(),
    ensures
        compile_inputs(job, reach::below(job.units@, u)).contains(
            Input::Built(
                plan::plan_of(job.cache@, job.unit.dependencies@[k].index).drv_path@,
                OutputName::Out,
            ),
        ),
{
    reach::lemma_direct(job.units@, u, k);
    let idx = job.unit.dependencies@[k].index;
    assert(ordering::needs_of(job.units@, u)[k] == idx);
    law_inputs_cover_command(job, reach::below(job.units@, u), idx);
}

} // verus!
