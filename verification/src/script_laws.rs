//! What the plan of a build script's run promises, told from the unit and from what is given.

use vstd::prelude::*;
use vstd::string::*;
use vstd::utf8::*;

use crate::derivation;
use crate::derivation::{Algorithm, ContentAddressMethodAlgorithm, DerivationOutput, Input};
use crate::metadata;
use crate::octets;
use crate::paths;
use crate::plan;
use crate::plan::{ExternConfig, Job, PlanError, Planned};
use crate::script;
use crate::store;
use crate::store::OutputName;
use crate::text;
use crate::unit_graph::{CompileMode, Dependency, Unit};

verus! {

/// The variable by which a script knows that a feature is on.
pub open spec fn feature_name(feature: Seq<char>) -> Seq<char> {
    seq!['C', 'A', 'R', 'G', 'O', '_', 'F', 'E', 'A', 'T', 'U', 'R', 'E', '_'] + text::underscored(
        text::uppercase(feature),
    )
}

/// One of the features has this variable.
pub open spec fn names_feature(features: Seq<String>, name: Seq<char>) -> bool {
    exists|k: int| 0 <= k < features.len() && name == feature_name((#[trigger] features[k])@)
}

/// One of the extra variables has this name.
pub open spec fn names_extra(extra: Seq<(String, String)>, name: Seq<char>) -> bool {
    exists|k: int| 0 <= k < extra.len() && name == (#[trigger] extra[k]).0@
}

proof fn lemma_feature_variable(feature: Seq<char>)
    ensures
        script::feature_variable(text::uppercase(feature)) == feature_name(feature),
        feature_name(feature).len() >= 14,
        feature_name(feature)[0] == 'C',
{
    reveal_strlit("CARGO_FEATURE_");
    assert("CARGO_FEATURE_"@ =~= seq![
        'C',
        'A',
        'R',
        'G',
        'O',
        '_',
        'F',
        'E',
        'A',
        'T',
        'U',
        'R',
        'E',
        '_',
    ]);
}

proof fn lemma_features(env: Map<Seq<u8>, Seq<u8>>, features: Seq<String>, name: Seq<char>)
    ensures
        ({
            let after = script::with_feature_variables(env, features);
            let key = encode_utf8(name);
            if names_feature(features, name) {
                after.contains_key(key) && after[key] == encode_utf8(""@)
            } else {
                after.contains_key(key) == env.contains_key(key) && after[key] == env[key]
            }
        }),
    decreases features.len(),
{
    if features.len() > 0 {
        let fewer = features.drop_last();
        lemma_features(env, fewer, name);
        lemma_feature_variable(features.last()@);
        encode_utf8_decode_utf8(name);
        encode_utf8_decode_utf8(feature_name(features.last()@));
        if name == feature_name(features.last()@) {
            assert(name == feature_name(features[features.len() - 1]@));
        } else if names_feature(features, name) {
            let k = choose|k: int|
                0 <= k < features.len() && name == feature_name((#[trigger] features[k])@);
            assert(fewer[k] == features[k]);
        } else if names_feature(fewer, name) {
            let k = choose|k: int|
                0 <= k < fewer.len() && name == feature_name((#[trigger] fewer[k])@);
            assert(fewer[k] == features[k]);
        }
    }
}

proof fn lemma_extra(
    env: Map<Seq<u8>, Seq<u8>>,
    extra: Seq<(String, String)>,
    name: Seq<char>,
    k: int,
)
    ensures
        ({
            let after = script::with_extra(env, extra);
            let key = encode_utf8(name);
            &&& !names_extra(extra, name) ==> after.contains_key(key) == env.contains_key(key)
                && after[key] == env[key]
            &&& 0 <= k < extra.len() && extra[k].0@ == name && (forall|j: int|
                k < j < extra.len() ==> (#[trigger] extra[j]).0@ != name) ==> after.contains_key(
                key,
            ) && after[key] == encode_utf8(extra[k].1@)
        }),
    decreases extra.len(),
{
    if extra.len() > 0 {
        let fewer = extra.drop_last();
        lemma_extra(env, fewer, name, k);
        encode_utf8_decode_utf8(name);
        encode_utf8_decode_utf8(extra.last().0@);
        assert(forall|j: int| 0 <= j < fewer.len() ==> #[trigger] fewer[j] == extra[j]);
        assert(extra[extra.len() - 1] == extra.last());
        if names_extra(fewer, name) {
            let j = choose|j: int| 0 <= j < fewer.len() && name == (#[trigger] fewer[j]).0@;
            assert(name == extra[j].0@);
        }
    }
}

proof fn lemma_late_names()
    ensures
        "OPT_LEVEL"@.len() == 9,
        "OPT_LEVEL"@[0] == 'O',
        "PATH"@.len() == 4,
        "PATH"@[0] == 'P',
        decode_utf8(encode_utf8("OPT_LEVEL"@)) == "OPT_LEVEL"@,
        decode_utf8(encode_utf8("PATH"@)) == "PATH"@,
{
    reveal_strlit("OPT_LEVEL");
    reveal_strlit("PATH");
    encode_utf8_decode_utf8("OPT_LEVEL"@);
    encode_utf8_decode_utf8("PATH"@);
}

/// The script is told about each feature that is on: its variable is there, and it is empty.
#[verifier::rlimit(40)]
pub proof fn law_each_feature_is_told(job: Job, config: Option<&ExternConfig>, k: int)
    requires
        0 <= k < job.unit.features.len(),
    ensures
        ({
            let env = script::script_env(job, config);
            let upper = text::uppercase(job.unit.features@[k]@);
            let name = encode_utf8("CARGO_FEATURE_"@ + text::underscored(upper));
            env.contains_key(name) && env[name].len() == 0
        }),
{
    let name = feature_name(job.unit.features@[k]@);
    let compilers = script::compiler_env(
        job.crate_env(),
        job.setup.tools,
        job.unit.platform is Some,
    );
    let start = script::with_extra(compilers, script::extra_env(config));
    lemma_features(start, job.unit.features@, name);
    lemma_feature_variable(job.unit.features@[k]@);
    assert(script::feature_variable(text::uppercase(job.unit.features@[k]@)) == name);
    lemma_late_names();
    encode_utf8_decode_utf8(name);
    reveal_strlit("");
    assert(""@ =~= Seq::empty());
    assert(encode_utf8(""@).len() == 0);
}

/// An extra variable has the value that is given for it last, unless the features, the
/// optimisation level or the search path set it.
#[verifier::rlimit(40)]
pub proof fn law_extra_variables_are_set(job: Job, config: &ExternConfig, k: int)
    requires
        0 <= k < config.env.len(),
        forall|j: int| k < j < config.env.len() ==> (#[trigger] config.env@[j]).0@ != config.env@[k].0@,
        !names_feature(job.unit.features@, config.env@[k].0@),
        config.env@[k].0@ != "OPT_LEVEL"@,
        config.env@[k].0@ != "PATH"@,
    ensures
        ({
            let env = script::script_env(job, Some(config));
            let name = encode_utf8(config.env@[k].0@);
            env.contains_key(name) && env[name] == encode_utf8(config.env@[k].1@)
        }),
{
    let name = config.env@[k].0@;
    let compilers = script::compiler_env(
        job.crate_env(),
        job.setup.tools,
        job.unit.platform is Some,
    );
    lemma_extra(compilers, config.env@, name, k);
    lemma_features(script::with_extra(compilers, config.env@), job.unit.features@, name);
    lemma_late_names();
    encode_utf8_decode_utf8(name);
}

/// The variable has this value.
pub open spec fn is_set(env: Map<Seq<u8>, Seq<u8>>, name: Seq<char>, value: Seq<u8>) -> bool {
    env.contains_key(encode_utf8(name)) && env[encode_utf8(name)] == value
}

proof fn lemma_compiler_names()
    ensures
        "HOST_CC"@.len() == 7,
        "HOST_CXX"@.len() == 8,
        "CC"@.len() == 2,
        "CXX"@.len() == 3,
        "CARGO_MANIFEST_DIR"@.len() == 18,
        "CARGO_MANIFEST_DIR"@ != "CARGO_PKG_HOMEPAGE"@,
        decode_utf8(encode_utf8("HOST_CC"@)) == "HOST_CC"@,
        decode_utf8(encode_utf8("HOST_CXX"@)) == "HOST_CXX"@,
        decode_utf8(encode_utf8("CC"@)) == "CC"@,
        decode_utf8(encode_utf8("CXX"@)) == "CXX"@,
        decode_utf8(encode_utf8("CARGO_MANIFEST_DIR"@)) == "CARGO_MANIFEST_DIR"@,
{
    reveal_strlit("HOST_CC");
    reveal_strlit("HOST_CXX");
    reveal_strlit("CC");
    reveal_strlit("CXX");
    reveal_strlit("CARGO_MANIFEST_DIR");
    reveal_strlit("CARGO_PKG_HOMEPAGE");
    assert("CARGO_MANIFEST_DIR"@[6] != "CARGO_PKG_HOMEPAGE"@[6]);
    encode_utf8_decode_utf8("HOST_CC"@);
    encode_utf8_decode_utf8("HOST_CXX"@);
    encode_utf8_decode_utf8("CC"@);
    encode_utf8_decode_utf8("CXX"@);
    encode_utf8_decode_utf8("CARGO_MANIFEST_DIR"@);
}

/// A variable that nothing else sets comes from the compilers, from the crate, or from what all
/// builds get. Without a platform of its own the target is the host.
#[verifier::rlimit(40)]
pub proof fn law_other_variables(job: Job, config: Option<&ExternConfig>, name: Seq<char>)
    requires
        !names_extra(script::extra_env(config), name),
        !names_feature(job.unit.features@, name),
        name != "OPT_LEVEL"@,
        name != "PATH"@,
    ensures
        ({
            let env = script::script_env(job, config);
            let tools = job.setup.tools;
            let cross = job.unit.platform is Some;
            let base = metadata::with_metadata(job.setup.base_env@, *job.package);
            let key = encode_utf8(name);
            &&& name == "HOST_CC"@ ==> is_set(env, name, octets::octets(tools.host_cc.real_path))
            &&& name == "HOST_CXX"@ ==> is_set(env, name, octets::octets(tools.host_cxx.real_path))
            &&& name == "CC"@ && cross ==> is_set(
                env,
                name,
                octets::octets(tools.target_cc.real_path),
            )
            &&& name == "CC"@ && !cross ==> is_set(
                env,
                name,
                octets::octets(tools.host_cc.real_path),
            )
            &&& name == "CXX"@ && cross ==> is_set(
                env,
                name,
                octets::octets(tools.target_cxx.real_path),
            )
            &&& name == "CXX"@ && !cross ==> is_set(
                env,
                name,
                octets::octets(tools.host_cxx.real_path),
            )
            &&& name == "CARGO_MANIFEST_DIR"@ ==> is_set(
                env,
                name,
                encode_utf8(paths::joined_path(job.setup.store_dir@, job.src_path@)),
            )
            &&& name != "HOST_CC"@ && name != "HOST_CXX"@ && name != "CC"@ && name != "CXX"@
                && name != "CARGO_MANIFEST_DIR"@ ==> env.contains_key(key) == base.contains_key(key)
                && env[key] == base[key]
        }),
{
    let compilers = script::compiler_env(
        job.crate_env(),
        job.setup.tools,
        job.unit.platform is Some,
    );
    let extra = script::extra_env(config);
    lemma_extra(compilers, extra, name, 0);
    lemma_features(script::with_extra(compilers, extra), job.unit.features@, name);
    lemma_late_names();
    lemma_compiler_names();
    encode_utf8_decode_utf8(name);
}

/// The optimisation level is the unit's. The search path is that of rustc, then that of the host's
/// compiler, then that of the target's compiler where the unit has a platform, and then each extra
/// entry in its order, with colons between them.
#[verifier::rlimit(40)]
pub proof fn law_search_path(job: Job, config: Option<&ExternConfig>)
    ensures
        ({
            let env = script::script_env(job, config);
            let tools = job.setup.tools;
            let colon = seq![':' as u8];
            let host = octets::octets(tools.rustc.path_entry) + colon + octets::octets(
                tools.host_cc.path_entry,
            );
            let fixed = if job.unit.platform is Some {
                host + colon + octets::octets(tools.target_cc.path_entry)
            } else {
                host
            };
            let entries = match config {
                Some(c) => c.path@,
                None => Seq::empty(),
            };
            &&& is_set(env, "OPT_LEVEL"@, encode_utf8(job.unit.profile.opt_level@))
            &&& is_set(
                env,
                "PATH"@,
                fixed + entries.map_values(
                    |e: String| seq![':' as u8] + encode_utf8(e@),
                ).flatten(),
            )
        }),
{
    let tools = job.setup.tools;
    let cross = job.unit.platform is Some;
    lemma_late_names();
    lemma_colon();
    lemma_entries(script::script_path(tools, cross), script::extra_path(config));
}

proof fn lemma_colon()
    ensures
        encode_utf8(":"@) == seq![':' as u8],
{
    reveal_strlit(":");
    is_ascii_chars_encode_utf8(":"@);
    assert(encode_utf8(":"@) =~= seq![':' as u8]);
}

proof fn lemma_entries(path: Seq<u8>, entries: Seq<String>)
    ensures
        script::with_entries(path, entries) == path + entries.map_values(
            |e: String| seq![':' as u8] + encode_utf8(e@),
        ).flatten(),
    decreases entries.len(),
{
    let f = |e: String| seq![':' as u8] + encode_utf8(e@);
    let parts = entries.map_values(f);
    parts.lemma_flatten_and_flatten_alt_are_equivalent();
    if entries.len() == 0 {
        assert(path + parts.flatten() =~= path);
    } else {
        let fewer = entries.drop_last();
        lemma_entries(path, fewer);
        lemma_colon();
        assert(parts.drop_last() =~= fewer.map_values(f));
        fewer.map_values(f).lemma_flatten_and_flatten_alt_are_equivalent();
        assert(script::with_entries(path, entries) =~= path + parts.flatten());
    }
}

/// The script is the last dependency that is built. There is none exactly where none is built.
pub proof fn law_script_is_the_last_built(units: Seq<Unit>, deps: Seq<Dependency>)
    ensures
        match script::script_position(units, deps) {
            Some(at) => {
                &&& 0 <= at < deps.len()
                &&& units[deps[at].index as int].mode == CompileMode::Build
                &&& forall|j: int|
                    at < j < deps.len() ==> units[(#[trigger] deps[j]).index as int].mode
                        != CompileMode::Build
            },
            None => forall|j: int|
                0 <= j < deps.len() ==> units[(#[trigger] deps[j]).index as int].mode
                    != CompileMode::Build,
        },
    decreases deps.len(),
{
    if deps.len() > 0 {
        let fewer = deps.drop_last();
        law_script_is_the_last_built(units, fewer);
        let from = match script::script_position(units, fewer) {
            Some(at) => at + 1,
            None => 0,
        };
        assert forall|j: int| from <= j < fewer.len() implies units[(
        #[trigger] deps[j]).index as int].mode != CompileMode::Build by {
            assert(fewer[j] == deps[j]);
        }
        assert(deps[deps.len() - 1] == deps.last());
    }
}

/// The dependency is not built, and its package links to a native library.
pub open spec fn tells_metadata(job: Job, dep: Dependency) -> bool {
    job.units@[dep.index as int].mode != CompileMode::Build
        && job.cache@[dep.index as int]->0.meta.has_links
}

/// The file with what the script of a dependency has to say.
pub open spec fn metadata_file(job: Job, dep: Dependency) -> Seq<u8> {
    encode_utf8(
        paths::joined_path(
            store::ca_placeholder(job.cache@[dep.index as int]->0.drv_path@, "flags"@),
            "metadata"@,
        ),
    )
}

/// What a dependency adds to the arguments.
pub open spec fn metadata_part(job: Job, dep: Dependency) -> Seq<Seq<u8>> {
    if tells_metadata(job, dep) {
        seq![metadata_file(job, dep)]
    } else {
        Seq::empty()
    }
}

proof fn lemma_metadata_files(job: Job, deps: Seq<Dependency>)
    ensures
        script::metadata_files(job.units@, job.cache@, deps) == deps.map_values(
            |d: Dependency| metadata_part(job, d),
        ).flatten(),
    decreases deps.len(),
{
    let f = |d: Dependency| metadata_part(job, d);
    let parts = deps.map_values(f);
    parts.lemma_flatten_and_flatten_alt_are_equivalent();
    if deps.len() > 0 {
        let fewer = deps.drop_last();
        lemma_metadata_files(job, fewer);
        assert(parts.drop_last() =~= fewer.map_values(f));
        fewer.map_values(f).lemma_flatten_and_flatten_alt_are_equivalent();
        assert(script::metadata_files(job.units@, job.cache@, deps) =~= parts.flatten());
    }
}

#[verifier::rlimit(40)]
proof fn lemma_run_arguments(job: Job, target_env: Seq<char>, script: Dependency)
    ensures
        script::script_args(job, target_env, script) == seq![
            encode_utf8(store::ca_placeholder(target_env, "out"@)),
        ] + job.unit.dependencies@.map_values(
            |d: Dependency| metadata_part(job, d),
        ).flatten() + seq![
            encode_utf8(seq!['-', '-']),
            octets::octets(job.setup.tools.build_wrap.real_path),
            encode_utf8(paths::joined_path(job.setup.store_dir@, job.src_path@)),
            encode_utf8(
                match job.package.links {
                    Some(links) => links@,
                    None => Seq::empty(),
                },
            ),
            encode_utf8(store::standard_placeholder("flags"@)),
            encode_utf8(store::standard_placeholder("out"@)),
            encode_utf8(
                paths::joined_path(
                    store::ca_placeholder(
                        job.cache@[script.index as int]->0.drv_path@,
                        "out"@,
                    ),
                    script.extern_crate_name@,
                ),
            ),
        ],
{
    lemma_metadata_files(job, job.unit.dependencies@);
    reveal_strlit("--");
    assert("--"@ =~= seq!['-', '-']);
    assert(text::text_or_empty(job.package.links) == (match job.package.links {
        Some(links) => links@,
        None => Seq::empty(),
    }));
}

/// The arguments of a run are: what is known about the target; for each dependency that has
/// something to say, the file with it; two dashes; and then the command, which is the wrapper, the
/// crate's directory, the native library, the two directories for what the script says and makes,
/// and the script, by its name in what it was built into.
#[verifier::rlimit(40)]
pub proof fn law_run_arguments(
    job: Job,
    target_env: Seq<char>,
    config: Option<&ExternConfig>,
    script: Dependency,
)
    ensures
        script::script_build(job, target_env, config, script).args == seq![
            encode_utf8(store::ca_placeholder(target_env, "out"@)),
        ] + job.unit.dependencies@.map_values(
            |d: Dependency| metadata_part(job, d),
        ).flatten() + seq![
            encode_utf8(seq!['-', '-']),
            octets::octets(job.setup.tools.build_wrap.real_path),
            encode_utf8(paths::joined_path(job.setup.store_dir@, job.src_path@)),
            encode_utf8(
                match job.package.links {
                    Some(links) => links@,
                    None => Seq::empty(),
                },
            ),
            encode_utf8(store::standard_placeholder("flags"@)),
            encode_utf8(store::standard_placeholder("out"@)),
            encode_utf8(
                paths::joined_path(
                    store::ca_placeholder(
                        job.cache@[script.index as int]->0.drv_path@,
                        "out"@,
                    ),
                    script.extern_crate_name@,
                ),
            ),
        ],
{
    lemma_run_arguments(job, target_env, script);
}

proof fn lemma_part_is_held(parts: Seq<Seq<Seq<u8>>>, k: int, i: int) -> (at: int)
    requires
        0 <= k < parts.len(),
        0 <= i < parts[k].len(),
    ensures
        0 <= at < parts.flatten().len(),
        parts.flatten()[at] == parts[k][i],
    decreases parts.len(),
{
    parts.lemma_flatten_and_flatten_alt_are_equivalent();
    let fewer = parts.drop_last();
    fewer.lemma_flatten_and_flatten_alt_are_equivalent();
    if k < parts.len() - 1 {
        lemma_part_is_held(fewer, k, i)
    } else {
        fewer.flatten().len() + i
    }
}

/// Whatever the script of a dependency has to say is handed to the run.
#[verifier::rlimit(40)]
pub proof fn law_each_metadata_file_is_given(
    job: Job,
    target_env: Seq<char>,
    config: Option<&ExternConfig>,
    script: Dependency,
    k: int,
)
    requires
        0 <= k < job.unit.dependencies.len(),
        job.units@[job.unit.dependencies@[k].index as int].mode != CompileMode::Build,
        job.cache@[job.unit.dependencies@[k].index as int]->0.meta.has_links,
    ensures
        ({
            let args = script::script_build(job, target_env, config, script).args;
            let drv_path = job.cache@[job.unit.dependencies@[k].index as int]->0.drv_path@;
            let file = paths::joined_path(store::ca_placeholder(drv_path, "flags"@), "metadata"@);
            &&& exists|i: int| 0 < i < args.len() - 7 && #[trigger] args[i] == encode_utf8(file)
            &&& args[args.len() - 7] == encode_utf8(seq!['-', '-'])
        }),
{
    law_run_arguments(job, target_env, config, script);
    let deps = job.unit.dependencies@;
    let parts = deps.map_values(|d: Dependency| metadata_part(job, d));
    let args = script::script_build(job, target_env, config, script).args;
    assert(parts[k] == metadata_part(job, deps[k]));
    let at = lemma_part_is_held(parts, k, 0);
    assert(args[at + 1] == metadata_file(job, deps[k]));
    assert(0 < at + 1 < args.len() - 7);
}

/// The input is what the script of a dependency has to say.
pub open spec fn is_told(job: Job, input: Input) -> bool {
    exists|k: int|
        0 <= k < job.unit.dependencies.len() && tells_metadata(
            job,
            #[trigger] job.unit.dependencies@[k],
        ) && input == Input::Built(
            job.cache@[job.unit.dependencies@[k].index as int]->0.drv_path@,
            OutputName::Flags,
        )
}

/// The input is given as a path in the store.
pub open spec fn is_given(store_dir: Seq<char>, extra: Seq<String>, input: Input) -> bool {
    exists|k: int|
        0 <= k < extra.len() && input is Opaque && (#[trigger] extra[k])@ == store_dir + seq!['/']
            + input->Opaque_0
}

proof fn lemma_told(job: Job, input: Input)
    ensures
        script::metadata_inputs(job.units@, job.cache@, job.unit.dependencies@).contains(input)
            == is_told(job, input),
{
    let deps = job.unit.dependencies@;
    if script::metadata_inputs(job.units@, job.cache@, deps).contains(input) {
        let k = choose|k: int|
            0 <= k < deps.len() && script::sets_metadata(
                job.units@,
                job.cache@,
                #[trigger] deps[k],
            ) && input == Input::Built(
                plan::plan_of(job.cache@, deps[k].index).drv_path@,
                OutputName::Flags,
            );
        assert(tells_metadata(job, deps[k]));
    }
    if is_told(job, input) {
        let k = choose|k: int|
            0 <= k < deps.len() && tells_metadata(job, #[trigger] deps[k]) && input == Input::Built(
                job.cache@[deps[k].index as int]->0.drv_path@,
                OutputName::Flags,
            );
        assert(script::sets_metadata(job.units@, job.cache@, deps[k]));
    }
}

proof fn lemma_given(store_dir: Seq<char>, extra: Seq<String>, input: Input)
    ensures
        script::extra_inputs(store_dir, extra).contains(input) == is_given(store_dir, extra, input),
{
    if script::extra_inputs(store_dir, extra).contains(input) {
        let (k, base) = choose|k: int, base: Seq<char>|
            0 <= k < extra.len() && #[trigger] store::in_store(store_dir, extra[k]@, base) && input
                == Input::Opaque(base);
        assert(extra[k]@ == store_dir + seq!['/'] + input->Opaque_0);
    }
    if is_given(store_dir, extra, input) {
        let k = choose|k: int|
            0 <= k < extra.len() && input is Opaque && (#[trigger] extra[k])@ == store_dir
                + seq!['/'] + input->Opaque_0;
        assert(store::in_store(store_dir, extra[k]@, input->Opaque_0));
    }
}

/// The extra inputs, as they are given.
pub open spec fn are_extra(config: Option<&ExternConfig>, extra: Seq<String>) -> bool {
    match config {
        Some(c) => extra == c.inputs@,
        None => extra.len() == 0,
    }
}

/// The inputs of a run are the programs that it uses, the directory of the crate, what is known
/// about the target, the script, what the scripts of dependencies have to say, and the extra
/// inputs, and nothing else.
#[verifier::rlimit(40)]
pub proof fn law_run_inputs(
    job: Job,
    target_env: Seq<char>,
    config: Option<&ExternConfig>,
    extra: Seq<String>,
    script: Dependency,
    input: Input,
)
    requires
        are_extra(config, extra),
    ensures
        script::script_build(job, target_env, config, script).inputs.contains(input) <==> {
            let tools = job.setup.tools;
            let cross = job.unit.platform is Some;
            ||| input == Input::Opaque(tools.rustc.store_path@)
            ||| input == Input::Opaque(job.src_path@)
            ||| input == Input::Opaque(tools.host_cc.store_path@)
            ||| input == Input::Opaque(tools.host_cxx.store_path@)
            ||| cross && input == Input::Opaque(tools.target_cc.store_path@)
            ||| cross && input == Input::Opaque(tools.target_cxx.store_path@)
            ||| input == Input::Opaque(tools.build_wrap.store_path@)
            ||| input == Input::Opaque(tools.env_wrap.store_path@)
            ||| input == Input::Built(target_env, OutputName::Out)
            ||| input == Input::Built(
                job.cache@[script.index as int]->0.drv_path@,
                OutputName::Out,
            )
            ||| exists|k: int|
                0 <= k < job.unit.dependencies.len() && job.units@[(
                #[trigger] job.unit.dependencies@[k]).index as int].mode != CompileMode::Build
                    && job.cache@[job.unit.dependencies@[k].index as int]->0.meta.has_links && input
                    == Input::Built(
                    job.cache@[job.unit.dependencies@[k].index as int]->0.drv_path@,
                    OutputName::Flags,
                )
            ||| exists|k: int|
                0 <= k < extra.len() && input is Opaque && (#[trigger] extra[k])@
                    == job.setup.store_dir@ + seq!['/'] + input->Opaque_0
        },
{
    lemma_told(job, input);
    assert(script::extra_list(config) =~= extra);
    lemma_given(job.setup.store_dir@, extra, input);
}

/// A run is named after the crate's directory, has both outputs, and is started by the wrapper
/// that sets variables.
#[verifier::rlimit(40)]
pub proof fn law_run(
    job: Job,
    target_env: Seq<char>,
    config: Option<&ExternConfig>,
    script: Dependency,
)
    ensures
        ({
            let build = script::script_build(job, target_env, config, script);
            let floating = DerivationOutput::CAFloating(
                ContentAddressMethodAlgorithm::NixArchive(Algorithm::SHA256),
            );
            &&& build.name == job.source.name@ + seq!['-', 'r', 'u', 'n']
            &&& build.outputs == seq![(OutputName::Out, floating), (OutputName::Flags, floating)]
            &&& build.platform == octets::octets(job.setup.platform)
            &&& build.builder == octets::octets(job.setup.tools.env_wrap.real_path)
            &&& build.env == script::script_env(job, config)
        }),
{
    reveal_strlit("-run");
    assert("-run"@ =~= seq!['-', 'r', 'u', 'n']);
    assert(derivation::floating() == DerivationOutput::CAFloating(
        ContentAddressMethodAlgorithm::NixArchive(Algorithm::SHA256),
    ));
}

/// One of the dependencies is built.
pub open spec fn has_built(job: Job) -> bool {
    exists|k: int|
        0 <= k < job.unit.dependencies.len() && job.units@[(
        #[trigger] job.unit.dependencies@[k]).index as int].mode == CompileMode::Build
}

/// A run is planned exactly where some dependency is the script, the extra inputs are store paths,
/// and the name is one that a derivation may have. What is wrong first is told. The plan runs the
/// last dependency that is built, makes no library, and has something to say about a native
/// library where its package links to one.
#[verifier::rlimit(40)]
pub proof fn law_run_outcome(
    job: Job,
    target_env: Seq<char>,
    config: Option<&ExternConfig>,
    extra: Seq<String>,
    r: Result<Planned, PlanError>,
)
    requires
        are_extra(config, extra),
        script::is_outcome(job, target_env, config, r),
    ensures
        ({
            let dir = job.setup.store_dir@;
            let all_paths = forall|k: int|
                0 <= k < extra.len() ==> store::is_store_path(dir, (#[trigger] extra[k])@);
            let good_name = store::is_name(
                encode_utf8(job.source.name@ + seq!['-', 'r', 'u', 'n']),
            );
            let deps = job.unit.dependencies@;
            &&& r is Ok <==> has_built(job) && all_paths && good_name
            &&& r is Err && r->Err_0 is NoScript <==> !has_built(job)
            &&& r is Err && r->Err_0 is InvalidInput <==> has_built(job) && !all_paths
            &&& r is Err && r->Err_0 is InvalidName <==> has_built(job) && all_paths && !good_name
            &&& r matches Err(PlanError::InvalidInput(at, e)) ==> at < extra.len()
                && !store::is_store_path(dir, extra[at as int]@) && store::is_path_error(
                dir,
                extra[at as int]@,
                e,
            ) && forall|k: int| 0 <= k < at ==> store::is_store_path(dir, (#[trigger] extra[k])@)
            &&& r matches Ok(planned) ==> {
                &&& planned.meta.base_name is None
                &&& planned.meta.custom_output
                &&& planned.meta.has_links <==> job.package.links is Some
                &&& exists|at: int| #[trigger]
                    runs_at(job, at) && planned.derivation@ == script::script_build(
                        job,
                        target_env,
                        config,
                        deps[at],
                    )
            }
        }),
{
    let deps = job.unit.dependencies@;
    law_script_is_the_last_built(job.units@, deps);
    reveal_strlit("-run");
    assert("-run"@ =~= seq!['-', 'r', 'u', 'n']);
    assert(script::extra_list(config) =~= extra);
    match script::script_position(job.units@, deps) {
        Some(at) => {
            assert(runs_at(job, at));
            assert(job.units@[deps[at].index as int].mode == CompileMode::Build);
            assert(has_built(job));
        },
        None => {
            assert(!has_built(job));
        },
    }
}

/// The dependency at this position is built, and none behind it is.
pub open spec fn runs_at(job: Job, at: int) -> bool {
    let deps = job.unit.dependencies@;
    &&& 0 <= at < deps.len()
    &&& job.units@[deps[at].index as int].mode == CompileMode::Build
    &&& forall|j: int|
        at < j < deps.len() ==> job.units@[(#[trigger] deps[j]).index as int].mode
            != CompileMode::Build
}

} // verus!
