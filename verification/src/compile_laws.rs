//! What the plan of a run of rustc promises, told from the unit and from what it depends on.

use vstd::prelude::*;
use vstd::string::*;
use vstd::utf8::*;

use crate::arguments;
use crate::compile;
use crate::derivation;
use crate::derivation::{Algorithm, ContentAddressMethodAlgorithm, DerivationOutput, Input};
use crate::fingerprint;
use crate::index_set;
use crate::metadata;
use crate::octets;
use crate::paths;
use crate::plan;
use crate::plan::{Job, PlanError, Planned, UnitCache};
use crate::store;
use crate::store::OutputName;
use crate::text;
use crate::unit_graph::{CompileMode, Dependency, Unit};

verus! {

/// The directory of what a unit makes.
pub open spec fn out_dir(job: Job, idx: usize) -> Seq<char> {
    store::ca_placeholder(job.cache@[idx as int]->0.drv_path@, "out"@)
}

/// The directory of what a run of a build script said.
pub open spec fn flags_dir(job: Job, idx: usize) -> Seq<char> {
    store::ca_placeholder(job.cache@[idx as int]->0.drv_path@, "flags"@)
}

/// The unit at this index is a run of a build script.
pub open spec fn is_script_run(job: Job, idx: usize) -> bool {
    job.cache@[idx as int]->0.meta.custom_output
}

/// The extension of the file that a dependency is found in.
pub open spec fn file_extension(crate_type: Seq<char>, dep_crate_type: Seq<char>) -> Seq<char> {
    let linked = crate_type == "bin"@ || crate_type == "proc-macro"@;
    if dep_crate_type == "dylib"@ || dep_crate_type == "proc-macro"@ {
        seq!['.', 's', 'o']
    } else if dep_crate_type != "lib"@ && dep_crate_type != "rlib"@ {
        Seq::empty()
    } else if linked {
        seq!['.', 'r', 'l', 'i', 'b']
    } else {
        seq!['.', 'r', 'm', 'e', 't', 'a']
    }
}

/// What rustc is told about the library of a dependency: the name, and the file.
pub open spec fn declaration(job: Job, dep: Dependency) -> Seq<char> {
    let base_name = job.cache@[dep.index as int]->0.meta.base_name->0@;
    dep.extern_crate_name@ + seq!['='] + out_dir(job, dep.index) + seq!['/'] + base_name
        + file_extension(
        job.unit.target.crate_types@[0]@,
        job.units@[dep.index as int].target.crate_types@[0]@,
    )
}

/// What a direct dependency adds to the arguments: its library, and what its script asked for.
pub open spec fn dependency_part(job: Job, dep: Dependency) -> Seq<Seq<u8>> {
    let library = if job.cache@[dep.index as int]->0.meta.base_name is Some {
        seq![encode_utf8("--extern"@), encode_utf8(declaration(job, dep))]
    } else {
        Seq::empty()
    };
    let script = if is_script_run(job, dep.index) {
        seq![
            encode_utf8(
                seq!['@'] + paths::joined_path(flags_dir(job, dep.index), "args-immediate"@),
            ),
        ]
    } else {
        Seq::empty()
    };
    library + script
}

/// What a direct dependency puts before the command.
pub open spec fn wrapper_part(job: Job, dep: Dependency) -> Seq<Seq<u8>> {
    if is_script_run(job, dep.index) {
        seq![
            octets::octets(job.setup.tools.env_wrap.real_path),
            encode_utf8(paths::joined_path(flags_dir(job, dep.index), "env"@)),
            encode_utf8(seq!['-', '-']),
        ]
    } else {
        Seq::empty()
    }
}

/// What any dependency, direct or not, adds to the arguments.
pub open spec fn library_part(job: Job, idx: usize) -> Seq<Seq<u8>> {
    if is_script_run(job, idx) {
        seq![
            encode_utf8(seq!['@'] + paths::joined_path(flags_dir(job, idx), "args-transitive"@)),
        ]
    } else {
        seq![encode_utf8(seq!['-', 'L']), encode_utf8("dependency="@ + out_dir(job, idx))]
    }
}

/// What a feature adds to the arguments.
pub open spec fn feature_part(feature: Seq<char>) -> Seq<Seq<u8>> {
    seq![
        encode_utf8("--cfg"@),
        encode_utf8(seq!['f', 'e', 'a', 't', 'u', 'r', 'e', '=', '"'] + feature + seq!['"']),
    ]
}

/// What the mode of a unit adds to the arguments.
pub open spec fn emit_part(unit: Unit) -> Seq<Seq<u8>> {
    let kind = unit.target.crate_types@[0]@;
    let library = kind == "lib"@ || kind == "rlib"@;
    match unit.mode {
        CompileMode::Check => seq![encode_utf8("--emit=metadata"@)],
        CompileMode::Build => if library {
            seq![encode_utf8("--emit=metadata,link"@)]
        } else {
            seq![encode_utf8("--emit=link"@)]
        },
        _ => Seq::empty(),
    }
}

/// The options of a unit, in their order.
pub open spec fn option_part(unit: Unit, hash: u64) -> Seq<Seq<u8>> {
    seq![
        encode_utf8("--out-dir="@ + store::standard_placeholder("out"@)),
        encode_utf8("--crate-name="@ + text::underscored(unit.target.name@)),
        encode_utf8("--edition="@ + unit.target.edition@),
        encode_utf8("--crate-type="@ + unit.target.crate_types@[0]@),
    ] + emit_part(unit) + seq![
        encode_utf8(seq!['-', 'C']),
        encode_utf8("debuginfo="@ + unit.profile.debuginfo@),
        encode_utf8(seq!['-', 'C']),
        encode_utf8("opt-level="@ + unit.profile.opt_level@),
        encode_utf8(seq!['-', 'C']),
        encode_utf8("metadata="@ + text::hexadecimal(hash as nat, 16)),
    ]
}

/// What the arguments end with: the platform, the linker, and the crate that macros need.
pub open spec fn tail_part(job: Job) -> Seq<Seq<u8>> {
    let platform = match job.unit.platform {
        Some(target) => seq![encode_utf8("--target="@ + target@)],
        None => Seq::empty(),
    };
    let cc = if job.unit.platform is Some {
        job.setup.tools.target_cc
    } else {
        job.setup.tools.host_cc
    };
    let linker = seq![
        encode_utf8(seq!['-', 'C']),
        encode_utf8("linker="@ + text::shown(octets::octets(cc.real_path))),
    ];
    let macros = if job.unit.target.crate_types@[0]@ == "proc-macro"@ {
        seq![encode_utf8("--extern"@), encode_utf8("proc_macro"@)]
    } else {
        Seq::empty()
    };
    platform + linker + macros
}

/// The hash of the unit and the derivations of its direct dependencies.
pub open spec fn unit_hash(job: Job) -> u64 {
    fingerprint::fingerprint(
        Seq::new(
            job.unit.dependencies@.len(),
            |k: int| job.cache@[job.unit.dependencies@[k].index as int]->0.drv_path@,
        ),
        *job.unit,
    )
}

proof fn lemma_spelled(option: &str, joined: &str, value: Seq<char>)
    requires
        joined@ == seq!['-', '-'] + option@ + seq!['='],
    ensures
        arguments::long_option(option@, value) == joined@ + value,
{
    arguments::law_options_are_spelled(option@, value);
    assert(arguments::long_option(option@, value) =~= joined@ + value);
}

proof fn lemma_set(option: &str, joined: &str, value: Seq<char>)
    requires
        joined@ == option@ + seq!['='],
    ensures
        arguments::setting(option@, value) == joined@ + value,
{
    arguments::law_options_are_spelled(option@, value);
    assert(arguments::setting(option@, value) =~= joined@ + value);
}

proof fn lemma_emit(unit: Unit, cmd: Seq<Seq<u8>>)
    ensures
        (match compile::emitted(unit.mode, compile::crate_type(unit)) {
            Some(kinds) => arguments::with_argument(
                cmd,
                arguments::long_option("emit"@, kinds),
            ),
            None => cmd,
        }) == cmd + emit_part(unit),
{
    reveal_strlit("emit");
    reveal_strlit("metadata");
    reveal_strlit("metadata,link");
    reveal_strlit("link");
    reveal_strlit("--emit=metadata");
    reveal_strlit("--emit=metadata,link");
    reveal_strlit("--emit=link");
    arguments::law_options_are_spelled("emit"@, "metadata"@);
    arguments::law_options_are_spelled("emit"@, "metadata,link"@);
    arguments::law_options_are_spelled("emit"@, "link"@);
    assert(arguments::long_option("emit"@, "metadata"@) =~= "--emit=metadata"@);
    assert(arguments::long_option("emit"@, "metadata,link"@) =~= "--emit=metadata,link"@);
    assert(arguments::long_option("emit"@, "link"@) =~= "--emit=link"@);
    let after = match compile::emitted(unit.mode, compile::crate_type(unit)) {
        Some(kinds) => arguments::with_argument(cmd, arguments::long_option("emit"@, kinds)),
        None => cmd,
    };
    assert(after =~= cmd + emit_part(unit));
}

proof fn lemma_option_texts(unit: Unit, out_dir: Seq<char>, hash: u64)
    ensures
        arguments::long_option("out-dir"@, out_dir) == "--out-dir="@ + out_dir,
        arguments::long_option("crate-name"@, text::underscored(unit.target.name@))
            == "--crate-name="@ + text::underscored(unit.target.name@),
        arguments::long_option("edition"@, unit.target.edition@) == "--edition="@
            + unit.target.edition@,
        arguments::long_option("crate-type"@, unit.target.crate_types@[0]@) == "--crate-type="@
            + unit.target.crate_types@[0]@,
        arguments::setting("debuginfo"@, unit.profile.debuginfo@) == "debuginfo="@
            + unit.profile.debuginfo@,
        arguments::setting("opt-level"@, unit.profile.opt_level@) == "opt-level="@
            + unit.profile.opt_level@,
        arguments::setting("metadata"@, text::hexadecimal(hash as nat, 16)) == "metadata="@
            + text::hexadecimal(hash as nat, 16),
        "-C"@ == seq!['-', 'C'],
{
    reveal_strlit("out-dir");
    reveal_strlit("--out-dir=");
    assert("--out-dir="@ =~= seq!['-', '-'] + "out-dir"@ + seq!['=']);
    lemma_spelled("out-dir", "--out-dir=", out_dir);
    reveal_strlit("crate-name");
    reveal_strlit("--crate-name=");
    assert("--crate-name="@ =~= seq!['-', '-'] + "crate-name"@ + seq!['=']);
    lemma_spelled("crate-name", "--crate-name=", text::underscored(unit.target.name@));
    reveal_strlit("edition");
    reveal_strlit("--edition=");
    assert("--edition="@ =~= seq!['-', '-'] + "edition"@ + seq!['=']);
    lemma_spelled("edition", "--edition=", unit.target.edition@);
    reveal_strlit("crate-type");
    reveal_strlit("--crate-type=");
    assert("--crate-type="@ =~= seq!['-', '-'] + "crate-type"@ + seq!['=']);
    lemma_spelled("crate-type", "--crate-type=", unit.target.crate_types@[0]@);
    reveal_strlit("debuginfo");
    reveal_strlit("debuginfo=");
    assert("debuginfo="@ =~= "debuginfo"@ + seq!['=']);
    lemma_set("debuginfo", "debuginfo=", unit.profile.debuginfo@);
    reveal_strlit("opt-level");
    reveal_strlit("opt-level=");
    assert("opt-level="@ =~= "opt-level"@ + seq!['=']);
    lemma_set("opt-level", "opt-level=", unit.profile.opt_level@);
    reveal_strlit("metadata");
    reveal_strlit("metadata=");
    assert("metadata="@ =~= "metadata"@ + seq!['=']);
    lemma_set("metadata", "metadata=", text::hexadecimal(hash as nat, 16));
    reveal_strlit("-C");
    assert("-C"@ =~= seq!['-', 'C']);
}

#[verifier::rlimit(40)]
proof fn lemma_options(cmd: Seq<Seq<u8>>, unit: Unit, hash: u64)
    ensures
        compile::with_options(cmd, unit, store::standard_placeholder("out"@), hash) == cmd
            + option_part(unit, hash),
{
    let out = store::standard_placeholder("out"@);
    lemma_option_texts(unit, out, hash);
    let four = cmd + seq![
        encode_utf8("--out-dir="@ + out),
        encode_utf8("--crate-name="@ + text::underscored(unit.target.name@)),
        encode_utf8("--edition="@ + unit.target.edition@),
        encode_utf8("--crate-type="@ + unit.target.crate_types@[0]@),
    ];
    let a = arguments::with_argument(cmd, arguments::long_option("out-dir"@, out));
    let b = arguments::with_argument(
        a,
        arguments::long_option("crate-name"@, text::underscored(unit.target.name@)),
    );
    let c = arguments::with_argument(b, arguments::long_option("edition"@, unit.target.edition@));
    let d = arguments::with_argument(
        c,
        arguments::long_option("crate-type"@, compile::crate_type(unit)),
    );
    assert(d =~= four);
    lemma_emit(unit, d);
    assert(compile::with_options(cmd, unit, out, hash) =~= cmd + option_part(unit, hash));
}

proof fn lemma_features(cmd: Seq<Seq<u8>>, features: Seq<String>)
    ensures
        compile::with_features(cmd, features) == cmd + features.map_values(
            |f: String| feature_part(f@),
        ).flatten(),
    decreases features.len(),
{
    let f = |f: String| feature_part(f@);
    let parts = features.map_values(f);
    parts.lemma_flatten_and_flatten_alt_are_equivalent();
    if features.len() == 0 {
        assert(cmd + parts.flatten() =~= cmd);
    } else {
        let fewer = features.drop_last();
        lemma_features(cmd, fewer);
        assert(parts.drop_last() =~= fewer.map_values(f));
        fewer.map_values(f).lemma_flatten_and_flatten_alt_are_equivalent();
        arguments::law_options_are_spelled(Seq::empty(), features.last()@);
        assert(compile::with_features(cmd, features) =~= cmd + parts.flatten());
    }
}

proof fn lemma_libraries(cmd: Seq<Seq<u8>>, job: Job, listed: Seq<usize>)
    ensures
        compile::with_libraries(cmd, job.cache@, listed) == cmd + listed.map_values(
            |idx: usize| library_part(job, idx),
        ).flatten(),
    decreases listed.len(),
{
    let f = |idx: usize| library_part(job, idx);
    let parts = listed.map_values(f);
    parts.lemma_flatten_and_flatten_alt_are_equivalent();
    if listed.len() == 0 {
        assert(cmd + parts.flatten() =~= cmd);
    } else {
        let fewer = listed.drop_last();
        lemma_libraries(cmd, job, fewer);
        assert(parts.drop_last() =~= fewer.map_values(f));
        fewer.map_values(f).lemma_flatten_and_flatten_alt_are_equivalent();
        reveal_strlit("@");
        reveal_strlit("-L");
        assert("@"@ =~= seq!['@']);
        assert("-L"@ =~= seq!['-', 'L']);
        assert(compile::with_libraries(cmd, job.cache@, listed) =~= cmd + parts.flatten());
    }
}

proof fn lemma_declaration(job: Job, dep: Dependency)
    requires
        job.cache@[dep.index as int]->0.meta.base_name is Some,
    ensures
        arguments::declared(
            compile::crate_type(*job.unit),
            dep.extern_crate_name@,
            out_dir(job, dep.index),
            job.cache@[dep.index as int]->0.meta.base_name->0@,
            compile::crate_type(job.units@[dep.index as int]),
        ) == declaration(job, dep),
{
    let kind = job.unit.target.crate_types@[0]@;
    let dep_kind = job.units@[dep.index as int].target.crate_types@[0]@;
    let base_name = job.cache@[dep.index as int]->0.meta.base_name->0@;
    arguments::law_declared_file(
        kind,
        dep.extern_crate_name@,
        out_dir(job, dep.index),
        base_name,
        dep_kind,
    );
    reveal_strlit("lib");
    reveal_strlit("rlib");
    reveal_strlit("dylib");
    reveal_strlit("proc-macro");
    assert("lib"@.len() == 3 && "rlib"@.len() == 4 && "dylib"@.len() == 5 && "proc-macro"@.len()
        == 10);
    let file = dep.extern_crate_name@ + seq!['='] + out_dir(job, dep.index) + seq!['/'] + base_name;
    assert(file + Seq::<char>::empty() =~= file);
}

#[verifier::rlimit(40)]
proof fn lemma_one_dependency(cmd: Seq<Seq<u8>>, job: Job, dep: Dependency)
    ensures
        compile::with_dependency(cmd, job, dep) == wrapper_part(job, dep) + cmd + dependency_part(
            job,
            dep,
        ),
{
    if job.cache@[dep.index as int]->0.meta.base_name is Some {
        lemma_declaration(job, dep);
    }
    reveal_strlit("@");
    reveal_strlit("--");
    assert("@"@ =~= seq!['@']);
    assert("--"@ =~= seq!['-', '-']);
    assert(compile::with_dependency(cmd, job, dep) =~= wrapper_part(job, dep) + cmd
        + dependency_part(job, dep));
}

proof fn lemma_around(
    a: Seq<Seq<u8>>,
    b: Seq<Seq<u8>>,
    c: Seq<Seq<u8>>,
    d: Seq<Seq<u8>>,
    e: Seq<Seq<u8>>,
)
    ensures
        a + (b + c + d) + e == (a + b) + c + (d + e),
{
    assert(a + (b + c + d) + e =~= (a + b) + c + (d + e));
}

#[verifier::rlimit(40)]
proof fn lemma_dependencies(cmd: Seq<Seq<u8>>, job: Job, deps: Seq<Dependency>)
    ensures
        compile::with_dependencies(cmd, job, deps) == deps.reverse().map_values(
            |d: Dependency| wrapper_part(job, d),
        ).flatten() + cmd + deps.map_values(|d: Dependency| dependency_part(job, d)).flatten(),
    decreases deps.len(),
{
    let f = |d: Dependency| dependency_part(job, d);
    let g = |d: Dependency| wrapper_part(job, d);
    let parts = deps.map_values(f);
    let wraps = deps.reverse().map_values(g);
    parts.lemma_flatten_and_flatten_alt_are_equivalent();
    if deps.len() == 0 {
        assert(wraps.flatten() + cmd + parts.flatten() =~= cmd);
    } else {
        let fewer = deps.drop_last();
        lemma_dependencies(cmd, job, fewer);
        lemma_one_dependency(
            compile::with_dependencies(cmd, job, fewer),
            job,
            deps.last(),
        );
        assert(parts.drop_last() =~= fewer.map_values(f));
        fewer.map_values(f).lemma_flatten_and_flatten_alt_are_equivalent();
        assert(wraps.drop_first() =~= fewer.reverse().map_values(g));
        assert(wraps.first() == wrapper_part(job, deps.last()));
        let front = fewer.reverse().map_values(g).flatten();
        let back = fewer.map_values(f).flatten();
        assert(wraps.flatten() == wrapper_part(job, deps.last()) + front);
        assert(parts.flatten() == back + dependency_part(job, deps.last()));
        lemma_around(
            wrapper_part(job, deps.last()),
            front,
            cmd,
            back,
            dependency_part(job, deps.last()),
        );
    }
}

#[verifier::rlimit(40)]
proof fn lemma_tail(cmd: Seq<Seq<u8>>, job: Job)
    ensures
        compile::with_tail(
            cmd,
            *job.unit,
            text::shown(octets::octets(compile::linker(job).real_path)),
        ) == cmd + tail_part(job),
{
    let linker = text::shown(octets::octets(compile::linker(job).real_path));
    reveal_strlit("target");
    reveal_strlit("--target=");
    assert("--target="@ =~= seq!['-', '-'] + "target"@ + seq!['=']);
    if job.unit.platform is Some {
        lemma_spelled("target", "--target=", job.unit.platform->0@);
    }
    reveal_strlit("linker");
    reveal_strlit("linker=");
    assert("linker="@ =~= "linker"@ + seq!['=']);
    lemma_set("linker", "linker=", linker);
    reveal_strlit("-C");
    assert("-C"@ =~= seq!['-', 'C']);
    assert(compile::with_tail(cmd, *job.unit, linker) =~= cmd + tail_part(job));
}

/// What the command that compiles a unit starts with.
spec fn start_part(job: Job, main: Seq<char>) -> Seq<Seq<u8>> {
    seq![
        octets::octets(job.setup.tools.rustc.real_path),
        encode_utf8(
            paths::joined_path(paths::joined_path(job.setup.store_dir@, job.src_path@), main),
        ),
    ]
}

/// What stands behind the wrappers, up to the direct dependencies.
spec fn core_part(job: Job, main: Seq<char>, listed: Seq<usize>) -> Seq<Seq<u8>> {
    start_part(job, main) + option_part(*job.unit, unit_hash(job)) + job.unit.features@.map_values(
        |f: String| feature_part(f@),
    ).flatten() + listed.map_values(|idx: usize| library_part(job, idx)).flatten()
}

/// The program and the arguments are put together from all the parts.
spec fn is_whole(
    builder: Seq<u8>,
    args: Seq<Seq<u8>>,
    job: Job,
    main: Seq<char>,
    listed: Seq<usize>,
) -> bool {
    let deps = job.unit.dependencies@;
    seq![builder] + args == deps.reverse().map_values(
        |d: Dependency| wrapper_part(job, d),
    ).flatten() + core_part(job, main, listed) + deps.map_values(
        |d: Dependency| dependency_part(job, d),
    ).flatten() + tail_part(job)
}

#[verifier::rlimit(40)]
proof fn lemma_command(job: Job, main: Seq<char>, below: Set<usize>)
    ensures
        is_whole(
            compile::compile_build(job, main, below).builder,
            compile::compile_build(job, main, below).args,
            job,
            main,
            index_set::in_order(below),
        ),
{
    let deps = job.unit.dependencies@;
    let listed = index_set::in_order(below);
    assert(compile::dependency_paths(job.cache@, deps) =~= Seq::new(
        deps.len(),
        |k: int| job.cache@[deps[k].index as int]->0.drv_path@,
    ));
    let start = seq![
        octets::octets(job.setup.tools.rustc.real_path),
        encode_utf8(paths::joined_path(job.src_dir(), main)),
    ];
    lemma_options(start, *job.unit, unit_hash(job));
    let options = start + option_part(*job.unit, unit_hash(job));
    lemma_features(options, job.unit.features@);
    let features = compile::with_features(options, job.unit.features@);
    lemma_libraries(features, job, listed);
    let libraries = compile::with_libraries(features, job.cache@, listed);
    lemma_dependencies(libraries, job, deps);
    let declared = compile::with_dependencies(libraries, job, deps);
    lemma_tail(declared, job);
    compile::law_builder(job, main, below);
    let cmd = compile::command(job, main, below);
    let build = compile::compile_build(job, main, below);
    assert(seq![build.builder] + build.args =~= cmd);
}

/// The whole command, program and arguments, is: for each direct dependency that is a run of a
/// build script, the last one first, the wrapper with the script's variables; rustc and the main
/// file; the unit's options; its features; for all that it depends on, from the smallest index on,
/// where it is; for each direct dependency, what it is known by and what its script asked for; and
/// the platform, the linker, and what macros need.
#[verifier::rlimit(40)]
pub proof fn law_whole_command(job: Job, main: Seq<char>, below: Set<usize>, listed: Seq<usize>)
    requires
        listed.to_set() == below,
        forall|i: int, j: int| 0 <= i < j < listed.len() ==> listed[i] < listed[j],
    ensures
        ({
            let build = compile::compile_build(job, main, below);
            let deps = job.unit.dependencies@;
            seq![build.builder] + build.args == deps.reverse().map_values(
                |d: Dependency| wrapper_part(job, d),
            ).flatten() + (seq![
                octets::octets(job.setup.tools.rustc.real_path),
                encode_utf8(
                    paths::joined_path(
                        paths::joined_path(job.setup.store_dir@, job.src_path@),
                        main,
                    ),
                ),
            ] + option_part(*job.unit, unit_hash(job)) + job.unit.features@.map_values(
                |f: String| feature_part(f@),
            ).flatten() + listed.map_values(|idx: usize| library_part(job, idx)).flatten())
                + deps.map_values(|d: Dependency| dependency_part(job, d)).flatten() + tail_part(
                job,
            )
        }),
{
    index_set::lemma_order_is_unique(below, listed, index_set::in_order(below));
    lemma_command(job, main, below);
}

/// The two arguments stand one behind the other.
pub open spec fn holds_pair(args: Seq<Seq<u8>>, first: Seq<u8>, second: Seq<u8>) -> bool {
    exists|i: int| 0 <= i < args.len() - 1 && #[trigger] args[i] == first && args[i + 1] == second
}

/// The arguments hold this one.
pub open spec fn holds(args: Seq<Seq<u8>>, argument: Seq<u8>) -> bool {
    exists|i: int| 0 <= i < args.len() && #[trigger] args[i] == argument
}

proof fn lemma_part_start(parts: Seq<Seq<Seq<u8>>>, k: int) -> (at: int)
    requires
        0 <= k < parts.len(),
    ensures
        0 <= at <= at + parts[k].len() <= parts.flatten().len(),
        forall|i: int|
            0 <= i < parts[k].len() ==> parts.flatten()[at + i] == #[trigger] parts[k][i],
    decreases parts.len(),
{
    parts.lemma_flatten_and_flatten_alt_are_equivalent();
    let fewer = parts.drop_last();
    fewer.lemma_flatten_and_flatten_alt_are_equivalent();
    if k < parts.len() - 1 {
        let at = lemma_part_start(fewer, k);
        assert(fewer[k] == parts[k]);
        at
    } else {
        fewer.flatten().len() as int
    }
}

proof fn lemma_behind(builder: Seq<u8>, args: Seq<Seq<u8>>, p: int)
    requires
        0 < p < (seq![builder] + args).len(),
    ensures
        p - 1 < args.len(),
        (seq![builder] + args)[p] == args[p - 1],
{
    assert(seq![builder].len() == 1);
}

proof fn lemma_pair_inside(
    builder: Seq<u8>,
    args: Seq<Seq<u8>>,
    before: Seq<Seq<u8>>,
    parts: Seq<Seq<Seq<u8>>>,
    after: Seq<Seq<u8>>,
    k: int,
    i: int,
)
    requires
        seq![builder] + args == before + parts.flatten() + after,
        0 <= k < parts.len(),
        0 <= i < parts[k].len() - 1,
        before.len() + i >= 1,
    ensures
        holds_pair(args, parts[k][i], parts[k][i + 1]),
{
    let at = lemma_part_start(parts, k);
    let whole = seq![builder] + args;
    let p = before.len() + at + i;
    assert(parts.flatten()[at + i] == parts[k][i]);
    assert(parts.flatten()[at + (i + 1)] == parts[k][i + 1]);
    assert(whole[p] == parts[k][i]);
    assert(whole[p + 1] == parts[k][i + 1]);
    lemma_behind(builder, args, p);
    lemma_behind(builder, args, p + 1);
    assert(args[p - 1] == parts[k][i] && args[p - 1 + 1] == parts[k][i + 1]);
}

proof fn lemma_one_inside(
    builder: Seq<u8>,
    args: Seq<Seq<u8>>,
    before: Seq<Seq<u8>>,
    parts: Seq<Seq<Seq<u8>>>,
    after: Seq<Seq<u8>>,
    k: int,
    i: int,
)
    requires
        seq![builder] + args == before + parts.flatten() + after,
        0 <= k < parts.len(),
        0 <= i < parts[k].len(),
        before.len() + i >= 1,
    ensures
        holds(args, parts[k][i]),
{
    let at = lemma_part_start(parts, k);
    let whole = seq![builder] + args;
    let p = before.len() + at + i;
    assert(parts.flatten()[at + i] == parts[k][i]);
    assert(whole[p] == parts[k][i]);
    lemma_behind(builder, args, p);
    assert(args[p - 1] == parts[k][i]);
}

proof fn lemma_regroup(
    a: Seq<Seq<u8>>,
    b: Seq<Seq<u8>>,
    c: Seq<Seq<u8>>,
    d: Seq<Seq<u8>>,
    e: Seq<Seq<u8>>,
    f: Seq<Seq<u8>>,
    g: Seq<Seq<u8>>,
)
    ensures
        a + (b + c + d + e) + f + g == (a + b + c) + d + (e + f + g),
        a + (b + c + d + e) + f + g == (a + b + c + d) + e + (f + g),
        a + (b + c + d + e) + f + g == Seq::<Seq<u8>>::empty() + a + ((b + c + d + e) + f + g),
{
    assert(a + (b + c + d + e) + f + g =~= (a + b + c) + d + (e + f + g));
    assert(a + (b + c + d + e) + f + g =~= (a + b + c + d) + e + (f + g));
    assert(a + (b + c + d + e) + f + g =~= Seq::<Seq<u8>>::empty() + a + ((b + c + d + e) + f + g));
}

#[verifier::rlimit(40)]
proof fn lemma_declared(
    builder: Seq<u8>,
    args: Seq<Seq<u8>>,
    job: Job,
    main: Seq<char>,
    listed: Seq<usize>,
    k: int,
)
    requires
        is_whole(builder, args, job, main, listed),
        0 <= k < job.unit.dependencies.len(),
        job.cache@[job.unit.dependencies@[k].index as int]->0.meta.base_name is Some,
    ensures
        holds_pair(
            args,
            encode_utf8("--extern"@),
            encode_utf8(declaration(job, job.unit.dependencies@[k])),
        ),
{
    let deps = job.unit.dependencies@;
    let parts = deps.map_values(|d: Dependency| dependency_part(job, d));
    let front = deps.reverse().map_values(|d: Dependency| wrapper_part(job, d)).flatten();
    assert(parts[k] == dependency_part(job, deps[k]));
    let core = core_part(job, main, listed);
    assert(core.len() >= 2);
    lemma_pair_inside(builder, args, front + core, parts, tail_part(job), k, 0);
}

/// Each direct dependency that makes a library is declared, whatever the others are: `--extern`
/// stands in the arguments, and right behind it the name of the crate and the path of its file.
#[verifier::rlimit(40)]
pub proof fn law_each_dependency_is_declared(
    job: Job,
    main: Seq<char>,
    below: Set<usize>,
    k: int,
    dep: Dependency,
    plan: UnitCache,
    extension: Seq<char>,
)
    requires
        0 <= k < job.unit.dependencies.len(),
        dep == job.unit.dependencies@[k],
        plan == job.cache@[dep.index as int]->0,
        plan.meta.base_name is Some,
        ({
            let kind = job.unit.target.crate_types@[0]@;
            let dep_kind = job.units@[dep.index as int].target.crate_types@[0]@;
            let static_lib = dep_kind == "lib"@ || dep_kind == "rlib"@;
            let shared_lib = dep_kind == "dylib"@ || dep_kind == "proc-macro"@;
            let linked = kind == "bin"@ || kind == "proc-macro"@;
            &&& static_lib && linked ==> extension == ".rlib"@
            &&& static_lib && !linked ==> extension == ".rmeta"@
            &&& shared_lib ==> extension == ".so"@
            &&& !static_lib && !shared_lib ==> extension == Seq::<char>::empty()
        }),
    ensures
        ({
            let args = compile::compile_build(job, main, below).args;
            let out = store::ca_placeholder(plan.drv_path@, "out"@);
            exists|i: int|
                0 <= i < args.len() - 1 && #[trigger] args[i] == encode_utf8("--extern"@) && args[i
                    + 1] == encode_utf8(
                    dep.extern_crate_name@ + "="@ + out + "/"@ + plan.meta.base_name->0@
                        + extension,
                )
        }),
{
    reveal_strlit(".rlib");
    reveal_strlit(".rmeta");
    reveal_strlit(".so");
    reveal_strlit("=");
    reveal_strlit("/");
    assert(".rlib"@ =~= seq!['.', 'r', 'l', 'i', 'b']);
    assert(".rmeta"@ =~= seq!['.', 'r', 'm', 'e', 't', 'a']);
    assert(".so"@ =~= seq!['.', 's', 'o']);
    assert("="@ =~= seq!['=']);
    assert("/"@ =~= seq!['/']);
    let build = compile::compile_build(job, main, below);
    lemma_command(job, main, below);
    lemma_declared(build.builder, build.args, job, main, index_set::in_order(below), k);
}

#[verifier::rlimit(40)]
proof fn lemma_heeded(
    builder: Seq<u8>,
    args: Seq<Seq<u8>>,
    job: Job,
    main: Seq<char>,
    listed: Seq<usize>,
    k: int,
)
    requires
        is_whole(builder, args, job, main, listed),
        0 <= k < job.unit.dependencies.len(),
        is_script_run(job, job.unit.dependencies@[k].index),
    ensures
        ({
            let flags = flags_dir(job, job.unit.dependencies@[k].index);
            &&& holds(
                args,
                encode_utf8(seq!['@'] + paths::joined_path(flags, "args-immediate"@)),
            )
            &&& holds_pair(
                args,
                encode_utf8(paths::joined_path(flags, "env"@)),
                encode_utf8(seq!['-', '-']),
            )
        }),
{
    let deps = job.unit.dependencies@;
    let parts = deps.map_values(|d: Dependency| dependency_part(job, d));
    let wraps = deps.reverse().map_values(|d: Dependency| wrapper_part(job, d));
    let core = core_part(job, main, listed);
    let tail = tail_part(job);
    assert(core.len() >= 2);
    assert(parts[k] == dependency_part(job, deps[k]));
    lemma_one_inside(
        builder,
        args,
        wraps.flatten() + core,
        parts,
        tail,
        k,
        parts[k].len() - 1,
    );
    let r = deps.len() - 1 - k;
    assert(wraps[r] == wrapper_part(job, deps[k]));
    assert(wraps.flatten() + core + parts.flatten() + tail =~= Seq::<Seq<u8>>::empty()
        + wraps.flatten() + (core + parts.flatten() + tail));
    lemma_pair_inside(builder, args, Seq::empty(), wraps, core + parts.flatten() + tail, r, 1);
}

/// Each direct dependency that is a run of a build script is heeded: what its script asked rustc
/// for is handed on, and the whole command gets the script's variables.
#[verifier::rlimit(40)]
pub proof fn law_each_script_is_heeded(job: Job, main: Seq<char>, below: Set<usize>, k: int)
    requires
        0 <= k < job.unit.dependencies.len(),
        job.cache@[job.unit.dependencies@[k].index as int]->0.meta.custom_output,
    ensures
        ({
            let build = compile::compile_build(job, main, below);
            let drv_path = job.cache@[job.unit.dependencies@[k].index as int]->0.drv_path@;
            let flags = store::ca_placeholder(drv_path, "flags"@);
            &&& holds(
                build.args,
                encode_utf8(seq!['@'] + paths::joined_path(flags, "args-immediate"@)),
            )
            &&& holds_pair(
                build.args,
                encode_utf8(paths::joined_path(flags, "env"@)),
                encode_utf8(seq!['-', '-']),
            )
            &&& build.builder == octets::octets(job.setup.tools.env_wrap.real_path)
        }),
{
    let build = compile::compile_build(job, main, below);
    lemma_command(job, main, below);
    lemma_heeded(build.builder, build.args, job, main, index_set::in_order(below), k);
    compile::law_builder(job, main, below);
    assert(plan::plan_of(
        job.cache@,
        job.unit.dependencies@[k].index,
    ).meta.custom_output);
}

#[verifier::rlimit(40)]
proof fn lemma_switched_on(
    builder: Seq<u8>,
    args: Seq<Seq<u8>>,
    job: Job,
    main: Seq<char>,
    listed: Seq<usize>,
    k: int,
)
    requires
        is_whole(builder, args, job, main, listed),
        0 <= k < job.unit.features.len(),
    ensures
        holds_pair(
            args,
            feature_part(job.unit.features@[k]@)[0],
            feature_part(job.unit.features@[k]@)[1],
        ),
{
    let deps = job.unit.dependencies@;
    let parts = job.unit.features@.map_values(|f: String| feature_part(f@));
    let front = deps.reverse().map_values(|d: Dependency| wrapper_part(job, d)).flatten();
    let libraries = listed.map_values(|idx: usize| library_part(job, idx)).flatten();
    let declared = deps.map_values(|d: Dependency| dependency_part(job, d)).flatten();
    let options = option_part(*job.unit, unit_hash(job));
    let start = start_part(job, main);
    let tail = tail_part(job);
    assert(start.len() == 2);
    assert(parts[k] == feature_part(job.unit.features@[k]@));
    lemma_regroup(front, start, options, parts.flatten(), libraries, declared, tail);
    lemma_pair_inside(
        builder,
        args,
        front + start + options,
        parts,
        libraries + declared + tail,
        k,
        0,
    );
}

/// Each feature is switched on, whatever the others are.
#[verifier::rlimit(40)]
pub proof fn law_each_feature_is_switched_on(job: Job, main: Seq<char>, below: Set<usize>, k: int)
    requires
        0 <= k < job.unit.features.len(),
    ensures
        holds_pair(
            compile::compile_build(job, main, below).args,
            encode_utf8("--cfg"@),
            encode_utf8(
                seq!['f', 'e', 'a', 't', 'u', 'r', 'e', '=', '"'] + job.unit.features@[k]@ + seq![
                    '"',
                ],
            ),
        ),
{
    let build = compile::compile_build(job, main, below);
    lemma_command(job, main, below);
    lemma_switched_on(build.builder, build.args, job, main, index_set::in_order(below), k);
}

#[verifier::rlimit(40)]
proof fn lemma_found(
    builder: Seq<u8>,
    args: Seq<Seq<u8>>,
    job: Job,
    main: Seq<char>,
    listed: Seq<usize>,
    k: int,
)
    requires
        is_whole(builder, args, job, main, listed),
        0 <= k < listed.len(),
    ensures
        ({
            let part = library_part(job, listed[k]);
            if is_script_run(job, listed[k]) {
                holds(args, part[0])
            } else {
                holds_pair(args, part[0], part[1])
            }
        }),
{
    let deps = job.unit.dependencies@;
    let parts = listed.map_values(|idx: usize| library_part(job, idx));
    let front = deps.reverse().map_values(|d: Dependency| wrapper_part(job, d)).flatten();
    let features = job.unit.features@.map_values(|f: String| feature_part(f@)).flatten();
    let declared = deps.map_values(|d: Dependency| dependency_part(job, d)).flatten();
    let options = option_part(*job.unit, unit_hash(job));
    let start = start_part(job, main);
    let tail = tail_part(job);
    assert(start.len() == 2);
    assert(parts[k] == library_part(job, listed[k]));
    lemma_regroup(front, start, options, features, parts.flatten(), declared, tail);
    let before = front + start + options + features;
    if is_script_run(job, listed[k]) {
        lemma_one_inside(builder, args, before, parts, declared + tail, k, 0);
    } else {
        lemma_pair_inside(builder, args, before, parts, declared + tail, k, 0);
    }
}

/// rustc is told about each unit that this one depends on, directly or not: where its library is,
/// or what its script asked for.
#[verifier::rlimit(40)]
pub proof fn law_each_library_is_found(
    job: Job,
    main: Seq<char>,
    below: Set<usize>,
    listed: Seq<usize>,
    k: int,
)
    requires
        listed.to_set() == below,
        forall|i: int, j: int| 0 <= i < j < listed.len() ==> listed[i] < listed[j],
        0 <= k < listed.len(),
    ensures
        ({
            let args = compile::compile_build(job, main, below).args;
            let plan = job.cache@[listed[k] as int]->0;
            let out = store::ca_placeholder(plan.drv_path@, "out"@);
            let flags = store::ca_placeholder(plan.drv_path@, "flags"@);
            if plan.meta.custom_output {
                holds(
                    args,
                    encode_utf8(seq!['@'] + paths::joined_path(flags, "args-transitive"@)),
                )
            } else {
                holds_pair(
                    args,
                    encode_utf8(seq!['-', 'L']),
                    encode_utf8("dependency="@ + out),
                )
            }
        }),
{
    let build = compile::compile_build(job, main, below);
    index_set::lemma_order_is_unique(below, listed, index_set::in_order(below));
    lemma_command(job, main, below);
    lemma_found(build.builder, build.args, job, main, listed, k);
}

/// A unit that this one depends on is an input by what it makes, and by what it said.
pub open spec fn is_needed(job: Job, below: Set<usize>, input: Input) -> bool {
    exists|idx: usize| #[trigger]
        below.contains(idx) && (input == Input::Built(
            job.cache@[idx as int]->0.drv_path@,
            OutputName::Out,
        ) || is_script_run(job, idx) && input == Input::Built(
            job.cache@[idx as int]->0.drv_path@,
            OutputName::Flags,
        ))
}

/// One of the direct dependencies is a run of a build script.
pub open spec fn has_script_run(job: Job) -> bool {
    exists|k: int|
        0 <= k < job.unit.dependencies.len() && is_script_run(
            job,
            (#[trigger] job.unit.dependencies@[k]).index,
        )
}

/// The inputs are rustc, the directory of the crate, the linker for the platform, the wrapper where
/// a direct dependency is a run of a build script, and what is needed of all units that this one
/// depends on, and nothing else.
#[verifier::rlimit(40)]
pub proof fn law_compile_inputs(job: Job, main: Seq<char>, below: Set<usize>, input: Input)
    ensures
        compile::compile_build(job, main, below).inputs.contains(input) <==> {
            let tools = job.setup.tools;
            let cross = job.unit.platform is Some;
            ||| input == Input::Opaque(tools.rustc.store_path@)
            ||| input == Input::Opaque(job.src_path@)
            ||| cross && input == Input::Opaque(tools.target_cc.store_path@)
            ||| !cross && input == Input::Opaque(tools.host_cc.store_path@)
            ||| has_script_run(job) && input == Input::Opaque(tools.env_wrap.store_path@)
            ||| is_needed(job, below, input)
        },
{
    let deps = job.unit.dependencies@;
    assert(compile::library_inputs(job.cache@, below).contains(input) == is_needed(
        job,
        below,
        input,
    )) by {
        if compile::library_inputs(job.cache@, below).contains(input) {
            let idx = choose|idx: usize|
                #![trigger below.contains(idx)]
                below.contains(idx) && compile::is_library_input(job.cache@, idx, input);
            assert(below.contains(idx));
        }
        if is_needed(job, below, input) {
            let idx = choose|idx: usize| #[trigger]
                below.contains(idx) && (input == Input::Built(
                    job.cache@[idx as int]->0.drv_path@,
                    OutputName::Out,
                ) || is_script_run(job, idx) && input == Input::Built(
                    job.cache@[idx as int]->0.drv_path@,
                    OutputName::Flags,
                ));
            assert(compile::is_library_input(job.cache@, idx, input));
        }
    }
    lemma_has_script(job);
}

proof fn lemma_has_script(job: Job)
    ensures
        compile::has_script(job.cache@, job.unit.dependencies@) == has_script_run(job),
{
    let deps = job.unit.dependencies@;
    if compile::has_script(job.cache@, deps) {
        let k = choose|k: int|
            0 <= k < deps.len() && plan::plan_of(
                job.cache@,
                (#[trigger] deps[k]).index,
            ).meta.custom_output;
        assert(is_script_run(job, deps[k].index));
    }
    if has_script_run(job) {
        let k = choose|k: int|
            0 <= k < deps.len() && is_script_run(job, (#[trigger] deps[k]).index);
        assert(plan::plan_of(job.cache@, deps[k].index).meta.custom_output);
    }
}

proof fn lemma_out_dir(
    env: Map<Seq<u8>, Seq<u8>>,
    job: Job,
    deps: Seq<Dependency>,
    name: Seq<char>,
    k: int,
)
    ensures
        ({
            let after = compile::with_out_dir(env, job.cache@, deps);
            let key = encode_utf8(name);
            &&& name != "OUT_DIR"@ ==> after.contains_key(key) == env.contains_key(key)
                && after[key] == env[key]
            &&& (forall|j: int|
                0 <= j < deps.len() ==> !is_script_run(job, (#[trigger] deps[j]).index))
                ==> after == env
            &&& 0 <= k < deps.len() && is_script_run(job, deps[k].index) && (forall|j: int|
                k < j < deps.len() ==> !is_script_run(job, (#[trigger] deps[j]).index))
                ==> after.contains_key(encode_utf8("OUT_DIR"@)) && after[encode_utf8("OUT_DIR"@)]
                == encode_utf8(out_dir(job, deps[k].index))
        }),
    decreases deps.len(),
{
    if deps.len() > 0 {
        let fewer = deps.drop_last();
        lemma_out_dir(env, job, fewer, name, k);
        encode_utf8_decode_utf8(name);
        encode_utf8_decode_utf8("OUT_DIR"@);
        assert(forall|j: int| 0 <= j < fewer.len() ==> #[trigger] fewer[j] == deps[j]);
        assert(deps[deps.len() - 1] == deps.last());
        if forall|j: int| 0 <= j < deps.len() ==> !is_script_run(job, (#[trigger] deps[j]).index) {
            assert forall|j: int| 0 <= j < fewer.len() implies !is_script_run(
                job,
                (#[trigger] fewer[j]).index,
            ) by {
                assert(!is_script_run(job, deps[j].index));
            }
        }
        if 0 <= k < deps.len() - 1 && forall|j: int|
            k < j < deps.len() ==> !is_script_run(job, (#[trigger] deps[j]).index) {
            assert forall|j: int| k < j < fewer.len() implies !is_script_run(
                job,
                (#[trigger] fewer[j]).index,
            ) by {
                assert(!is_script_run(job, deps[j].index));
            }
            assert(!is_script_run(job, deps[deps.len() - 1].index));
        }
    }
}

/// The search path is that of rustc. The last direct dependency that is a run of a build script
/// tells where the files that it makes are.
#[verifier::rlimit(40)]
pub proof fn law_compile_variables(job: Job, main: Seq<char>, below: Set<usize>, k: int)
    ensures
        ({
            let env = compile::compile_build(job, main, below).env;
            let deps = job.unit.dependencies@;
            let path = encode_utf8("PATH"@);
            let out = encode_utf8("OUT_DIR"@);
            &&& env.contains_key(path) && env[path] == octets::octets(
                job.setup.tools.rustc.path_entry,
            )
            &&& 0 <= k < deps.len() && is_script_run(job, deps[k].index) && (forall|j: int|
                k < j < deps.len() ==> !is_script_run(job, (#[trigger] deps[j]).index))
                ==> env.contains_key(out) && env[out] == encode_utf8(
                out_dir(job, deps[k].index),
            )
        }),
{
    lemma_out_dir(job.crate_env(), job, job.unit.dependencies@, "PATH"@, k);
    reveal_strlit("PATH");
    reveal_strlit("OUT_DIR");
    assert("PATH"@.len() != "OUT_DIR"@.len());
    encode_utf8_decode_utf8("PATH"@);
    encode_utf8_decode_utf8("OUT_DIR"@);
}

/// All other variables come from the crate, or are those that all builds get.
#[verifier::rlimit(40)]
pub proof fn law_other_compile_variables(
    job: Job,
    main: Seq<char>,
    below: Set<usize>,
    name: Seq<char>,
)
    requires
        name != "PATH"@,
        name != "OUT_DIR"@ || !has_script_run(job),
    ensures
        ({
            let env = compile::compile_build(job, main, below).env;
            let base = metadata::with_metadata(job.setup.base_env@, *job.package);
            let key = encode_utf8(name);
            if name == "CARGO_MANIFEST_DIR"@ {
                env.contains_key(key) && env[key] == encode_utf8(
                    paths::joined_path(job.setup.store_dir@, job.src_path@),
                )
            } else {
                env.contains_key(key) == base.contains_key(key) && env[key] == base[key]
            }
        }),
{
    let deps = job.unit.dependencies@;
    lemma_out_dir(job.crate_env(), job, deps, name, 0);
    if !has_script_run(job) {
        assert forall|j: int| 0 <= j < deps.len() implies !is_script_run(
            job,
            (#[trigger] deps[j]).index,
        ) by {}
    }
    encode_utf8_decode_utf8(name);
    encode_utf8_decode_utf8("PATH"@);
    encode_utf8_decode_utf8("CARGO_MANIFEST_DIR"@);
}

/// A build has the name of the crate's directory, one output, and the platform of all builds.
#[verifier::rlimit(40)]
pub proof fn law_compile(job: Job, main: Seq<char>, below: Set<usize>)
    ensures
        ({
            let build = compile::compile_build(job, main, below);
            let floating = DerivationOutput::CAFloating(
                ContentAddressMethodAlgorithm::NixArchive(Algorithm::SHA256),
            );
            &&& build.name == job.source.name@
            &&& build.outputs == seq![(OutputName::Out, floating)]
            &&& build.platform == octets::octets(job.setup.platform)
        }),
{
    assert(derivation::floating() == DerivationOutput::CAFloating(
        ContentAddressMethodAlgorithm::NixArchive(Algorithm::SHA256),
    ));
}

/// A unit is planned exactly where it has one crate type, its main file lies in the crate's
/// directory, and that has a name that a derivation may have. What is wrong first is told. Only
/// libraries and macros make a library file, which is named after the target.
#[verifier::rlimit(40)]
pub proof fn law_compile_outcome(job: Job, below: Set<usize>, r: Result<Planned, PlanError>)
    requires
        compile::is_outcome(job, below, r),
    ensures
        ({
            let one_type = job.unit.target.crate_types@.len() == 1;
            let main = paths::stripped(job.unit.target.src_path@, job.source.root@);
            let name = encode_utf8(job.source.name@);
            let kind = job.unit.target.crate_types@[0]@;
            &&& r is Ok <==> one_type && main is Some && store::is_name(name)
            &&& r is Err && r->Err_0 is UnexpectedCrateTypes <==> !one_type
            &&& r is Err && r->Err_0 is OutsideCrateRoot <==> one_type && main is None
            &&& r is Err && r->Err_0 is InvalidName <==> one_type && main is Some
                && !store::is_name(name)
            &&& r matches Ok(planned) ==> {
                let meta = planned.meta;
                &&& planned.derivation@ == compile::compile_build(job, main->0, below)
                &&& !meta.custom_output
                &&& !meta.has_links
                &&& kind == "lib"@ || kind == "proc-macro"@ ==> meta.base_name is Some
                    && meta.base_name->0@ == seq!['l', 'i', 'b'] + job.unit.target.name@
                &&& kind != "lib"@ && kind != "proc-macro"@ ==> meta.base_name is None
            }
        }),
{
    reveal_strlit("lib");
    assert("lib"@ =~= seq!['l', 'i', 'b']);
}

} // verus!
