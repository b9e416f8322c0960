use std::collections::{BTreeSet, VecDeque};

use bytes::Bytes;
use cargo_dyndrv::compile::{
    add_declaration, add_library, add_options, add_tail, add_wrapper, plan_compile,
};
use cargo_dyndrv::derivation::SingleDerivedPath;
use cargo_dyndrv::environment::Environment;
use cargo_dyndrv::fingerprint::dep_hash;
use cargo_dyndrv::metadata::{Package, Version};
use cargo_dyndrv::plan::{
    find_config, ExternConfig, Job, PlanError, Planned, Setup, Source, Tool, Tools, UnitCache,
    UnitCacheMeta,
};
use cargo_dyndrv::script::{add_run, feature_variable_name, plan_script};
use cargo_dyndrv::store::{NameError, OutputName, StorePath, StorePathError};
use cargo_dyndrv::unit_graph::{CompileMode, Dependency, Profile, Target, Unit};

const HASH: &str = "g1w7hy3qg1w7hy3qg1w7hy3qg1w7hy3q";

fn path(name: &str) -> StorePath {
    StorePath::from_base_path(&format!("{}-{}", HASH, name)).unwrap()
}

fn tool(name: &str) -> Tool {
    Tool {
        store_path: path(name),
        real_path: Bytes::from(format!("/nix/store/{}-{}/bin/{}", HASH, name, name)),
        path_entry: Bytes::from(format!("/nix/store/{}-{}/bin", HASH, name)),
    }
}

fn setup() -> Setup {
    let mut base_env = Environment::new();
    base_env.insert(Bytes::from_static(b"HOME"), Bytes::from_static(b"/none"));
    Setup {
        tools: Tools {
            rustc: tool("rustc"),
            host_cc: tool("cc"),
            host_cxx: tool("cxx"),
            target_cc: tool("target-cc"),
            target_cxx: tool("target-cxx"),
            build_wrap: tool("build-wrap"),
            env_wrap: tool("env-wrap"),
        },
        store_dir: "/nix/store".to_string(),
        platform: Bytes::from_static(b"x86_64-linux"),
        base_env,
    }
}

fn unit(name: &str, mode: CompileMode, crate_type: &str, deps: &[(usize, &str)]) -> Unit {
    Unit {
        pkg_id: format!("{} 0.1.0", name),
        target: Target {
            name: name.to_string(),
            edition: "2021".to_string(),
            crate_types: vec![crate_type.to_string()],
            src_path: format!("/work/{}/src/lib.rs", name),
        },
        profile: Profile { opt_level: "3".to_string(), debuginfo: "1".to_string() },
        platform: None,
        mode,
        features: Vec::new(),
        dependencies: deps
            .iter()
            .map(|(index, name)| Dependency { index: *index, extern_crate_name: name.to_string() })
            .collect(),
    }
}

fn package(name: &str) -> Package {
    Package {
        id: format!("{} 0.1.0", name),
        name: name.to_string(),
        version: Version {
            major: 0,
            minor: 1,
            patch: 0,
            pre: String::new(),
            build: String::new(),
        },
        authors: Vec::new(),
        description: None,
        homepage: None,
        repository: None,
        license: None,
        license_file: None,
        rust_version: None,
        readme: None,
        links: None,
        manifest_path: format!("/work/{}/Cargo.toml", name),
    }
}

fn cached(name: &str, base_name: Option<&str>, script: bool, links: bool) -> Option<UnitCache> {
    Some(UnitCache {
        drv_path: path(&format!("{}.drv", name)),
        meta: UnitCacheMeta {
            base_name: base_name.map(|b| b.to_string()),
            custom_output: script,
            has_links: links,
        },
    })
}

fn out(name: &str) -> String {
    path(&format!("{}.drv", name)).ca_output(OutputName::Out)
}

fn flags(name: &str) -> String {
    path(&format!("{}.drv", name)).ca_output(OutputName::Flags)
}

fn text(b: &Bytes) -> String {
    String::from_utf8(b.to_vec()).unwrap()
}

fn args(planned: &Planned) -> Vec<String> {
    planned.derivation.args.iter().map(text).collect()
}

fn variable(planned: &Planned, name: &str) -> Option<String> {
    planned
        .derivation
        .env
        .copy()
        .into_entries()
        .iter()
        .find(|(k, _)| k.as_ref() == name.as_bytes())
        .map(|(_, v)| text(v))
}

fn inputs(planned: Planned) -> BTreeSet<String> {
    planned
        .derivation
        .inputs
        .into_items()
        .iter()
        .map(|input| match input {
            SingleDerivedPath::Opaque(p) => p.to_base_path()[33..].to_string(),
            SingleDerivedPath::Built { drv_path, output } => {
                format!("{}!{}", &drv_path.to_base_path()[33..], output.as_str())
            }
        })
        .collect()
}

fn names(list: &[&str]) -> BTreeSet<String> {
    list.iter().map(|s| s.to_string()).collect()
}

fn strings(queue: &VecDeque<Bytes>) -> Vec<String> {
    queue.iter().map(text).collect()
}

fn source(name: &str) -> Source {
    Source { root: format!("/work/{}", name), name: name.to_string() }
}

#[test]
fn crate_directory_is_that_of_the_manifest() {
    let found = Source::locate(&package("demo")).unwrap();
    assert_eq!(found.root, "/work/demo");
    assert_eq!(found.name, "demo");
    assert_eq!(found.stored_name(), "demo-src");
}

#[test]
fn manifest_without_a_directory() {
    let mut p = package("demo");
    p.manifest_path = "/".to_string();
    assert_eq!(Source::locate(&p).unwrap_err(), PlanError::NoSourcePath);
    p.manifest_path = "/Cargo.toml".to_string();
    assert_eq!(Source::locate(&p).unwrap_err(), PlanError::EmptyPath);
}

#[test]
fn configuration_is_found_by_package() {
    let config = || ExternConfig { inputs: Vec::new(), env: Vec::new(), path: Vec::new() };
    let configs = vec![("a".to_string(), config()), ("b".to_string(), config())];
    assert_eq!(find_config(&configs, "b"), Some(1));
    assert_eq!(find_config(&configs, "c"), None);
}

#[test]
fn parts_of_a_command() {
    let mut args: VecDeque<Bytes> = VecDeque::new();
    let mut lib = unit("my-lib", CompileMode::Build, "lib", &[]);
    add_options(&mut args, &lib, "/out", 0x2a);
    assert_eq!(
        strings(&args),
        vec![
            "--out-dir=/out",
            "--crate-name=my_lib",
            "--edition=2021",
            "--crate-type=lib",
            "--emit=metadata,link",
            "-C",
            "debuginfo=1",
            "-C",
            "opt-level=3",
            "-C",
            "metadata=000000000000002a",
        ]
    );

    let emitted = |mode: CompileMode, crate_type: &str| {
        let mut args: VecDeque<Bytes> = VecDeque::new();
        add_options(&mut args, &unit("x", mode, crate_type, &[]), "/out", 0);
        strings(&args).into_iter().find(|a| a.starts_with("--emit="))
    };
    assert_eq!(emitted(CompileMode::Check, "lib"), Some("--emit=metadata".to_string()));
    assert_eq!(emitted(CompileMode::Build, "rlib"), Some("--emit=metadata,link".to_string()));
    assert_eq!(emitted(CompileMode::Build, "bin"), Some("--emit=link".to_string()));
    assert_eq!(emitted(CompileMode::Test, "lib"), None);

    let mut args: VecDeque<Bytes> = VecDeque::new();
    add_library(&mut args, false, "/o", "/f");
    add_library(&mut args, true, "/o", "/f");
    assert_eq!(strings(&args), vec!["-L", "dependency=/o", "@/f/args-transitive"]);

    let mut args: VecDeque<Bytes> = VecDeque::new();
    let dep = Dependency { index: 0, extern_crate_name: "alias".to_string() };
    add_declaration(&mut args, "bin", &dep, &Some("libmy-lib".to_string()), &lib, "/o");
    add_declaration(&mut args, "bin", &dep, &None, &lib, "/o");
    add_wrapper(&mut args, &Bytes::from_static(b"env-wrap"), "/f");
    assert_eq!(
        strings(&args),
        vec![
            "env-wrap",
            "/f/env",
            "--",
            "--extern",
            "alias=/o/libmy-lib.rlib",
            "@/f/args-immediate",
        ]
    );

    lib.platform = Some("aarch64-unknown-linux-gnu".to_string());
    lib.target.crate_types = vec!["proc-macro".to_string()];
    let mut args: VecDeque<Bytes> = VecDeque::new();
    add_tail(&mut args, &lib, "/bin/cc");
    assert_eq!(
        strings(&args),
        vec![
            "--target=aarch64-unknown-linux-gnu",
            "-C",
            "linker=/bin/cc",
            "--extern",
            "proc_macro",
        ]
    );
}

#[test]
fn parts_of_a_run() {
    let mut args = vec![Bytes::from_static(b"/vars")];
    let t = |s: &str| s.to_string();
    add_run(
        &mut args,
        &Bytes::from_static(b"build-wrap"),
        t("/src"),
        t("z"),
        t("/flags"),
        t("/out"),
        t("/script/build"),
    );
    assert_eq!(
        args,
        vec!["/vars", "--", "build-wrap", "/src", "z", "/flags", "/out", "/script/build"]
    );
    assert_eq!(feature_variable_name("SERDE-JSON"), "CARGO_FEATURE_SERDE_JSON");
}

#[test]
fn library_is_compiled() {
    let setup = setup();
    let mut lib = unit("my-lib", CompileMode::Build, "lib", &[(0, "dep")]);
    lib.features = vec!["std".to_string()];
    let units = vec![unit("dep", CompileMode::Build, "lib", &[]), lib];
    let cache = vec![cached("dep", Some("libdep"), false, false), None];
    let package = package("my-lib");
    let source = source("my-lib");
    let src_path = path("my-lib-src");
    let job = Job {
        setup: &setup,
        units: &units,
        cache: &cache,
        unit: &units[1],
        package: &package,
        source: &source,
        src_path: &src_path,
    };
    let planned = plan_compile(&job, &BTreeSet::from([0])).unwrap();
    let hash = dep_hash(&vec![path("dep.drv")], &units[1]);
    assert_eq!(planned.derivation.name, "my-lib");
    assert_eq!(text(&planned.derivation.builder), text(&setup.tools.rustc.real_path));
    assert_eq!(text(&planned.derivation.platform), "x86_64-linux");
    assert_eq!(planned.derivation.outputs.len(), 1);
    assert_eq!(
        args(&planned),
        vec![
            format!("/nix/store/{}-my-lib-src/src/lib.rs", HASH),
            format!("--out-dir={}", OutputName::Out.standard_output()),
            "--crate-name=my_lib".to_string(),
            "--edition=2021".to_string(),
            "--crate-type=lib".to_string(),
            "--emit=metadata,link".to_string(),
            "-C".to_string(),
            "debuginfo=1".to_string(),
            "-C".to_string(),
            "opt-level=3".to_string(),
            "-C".to_string(),
            format!("metadata={:016x}", hash),
            "--cfg".to_string(),
            "feature=\"std\"".to_string(),
            "-L".to_string(),
            format!("dependency={}", out("dep")),
            "--extern".to_string(),
            format!("dep={}/libdep.rmeta", out("dep")),
            "-C".to_string(),
            format!("linker={}", text(&setup.tools.host_cc.real_path)),
        ]
    );
    assert_eq!(variable(&planned, "PATH"), Some(text(&setup.tools.rustc.path_entry)));
    assert_eq!(variable(&planned, "HOME"), Some("/none".to_string()));
    assert_eq!(variable(&planned, "CARGO_PKG_NAME"), Some("my-lib".to_string()));
    assert_eq!(
        variable(&planned, "CARGO_MANIFEST_DIR"),
        Some(format!("/nix/store/{}-my-lib-src", HASH))
    );
    assert_eq!(variable(&planned, "OUT_DIR"), None);
    assert_eq!(planned.meta.base_name, Some("libmy-lib".to_string()));
    assert!(!planned.meta.custom_output);
    assert!(!planned.meta.has_links);
    assert_eq!(inputs(planned), names(&["rustc", "my-lib-src", "cc", "dep.drv!out"]));
}

#[test]
fn script_output_wraps_the_compiler() {
    let setup = setup();
    let mut bin = unit("app", CompileMode::Build, "bin", &[(1, "build_script_build")]);
    bin.platform = Some("aarch64-unknown-linux-gnu".to_string());
    let units = vec![
        unit("build-script", CompileMode::Build, "bin", &[]),
        unit("build-run", CompileMode::RunCustomBuild, "bin", &[(0, "build_script_build")]),
        bin,
    ];
    let cache =
        vec![cached("build-script", None, false, false), cached("run", None, true, true), None];
    let package = package("app");
    let source = source("app");
    let src_path = path("app-src");
    let job = Job {
        setup: &setup,
        units: &units,
        cache: &cache,
        unit: &units[2],
        package: &package,
        source: &source,
        src_path: &src_path,
    };
    let planned = plan_compile(&job, &BTreeSet::from([1, 0])).unwrap();
    assert_eq!(text(&planned.derivation.builder), text(&setup.tools.env_wrap.real_path));
    let args = args(&planned);
    assert_eq!(args[0], format!("{}/env", flags("run")));
    assert_eq!(args[1], "--");
    assert_eq!(args[2], text(&setup.tools.rustc.real_path));
    assert_eq!(
        args[15..],
        vec![
            "-L".to_string(),
            format!("dependency={}", out("build-script")),
            format!("@{}/args-transitive", flags("run")),
            format!("@{}/args-immediate", flags("run")),
            "--target=aarch64-unknown-linux-gnu".to_string(),
            "-C".to_string(),
            format!("linker={}", text(&setup.tools.target_cc.real_path)),
        ]
    );
    assert_eq!(variable(&planned, "OUT_DIR"), Some(out("run")));
    assert_eq!(planned.meta.base_name, None);
    assert_eq!(
        inputs(planned),
        names(&[
            "rustc",
            "app-src",
            "env-wrap",
            "target-cc",
            "build-script.drv!out",
            "run.drv!out",
            "run.drv!flags",
        ])
    );
}

#[test]
fn linker_is_shown_where_it_is_not_text() {
    let mut setup = setup();
    setup.tools.host_cc.real_path = Bytes::from_static(b"/bin/\xffcc");
    let units = vec![unit("lib", CompileMode::Build, "lib", &[])];
    let cache = vec![None];
    let package = package("lib");
    let source = source("lib");
    let src_path = path("src");
    let job = Job {
        setup: &setup,
        units: &units,
        cache: &cache,
        unit: &units[0],
        package: &package,
        source: &source,
        src_path: &src_path,
    };
    let planned = plan_compile(&job, &BTreeSet::new()).unwrap();
    assert_eq!(args(&planned).last().unwrap(), "linker=/bin/\u{fffd}cc");
}

#[test]
fn compile_errors_come_in_order() {
    let setup = setup();
    let mut lib = unit("my lib", CompileMode::Build, "lib", &[]);
    lib.target.crate_types.push("cdylib".to_string());
    lib.target.src_path = "/elsewhere/lib.rs".to_string();
    let package = package("my lib");
    let source = source("my lib");
    let src_path = path("src");
    let outcome = |lib: &Unit| {
        let units = vec![lib.clone()];
        let cache = vec![None];
        let job = Job {
            setup: &setup,
            units: &units,
            cache: &cache,
            unit: &units[0],
            package: &package,
            source: &source,
            src_path: &src_path,
        };
        plan_compile(&job, &BTreeSet::new()).map(|p| p.derivation.name)
    };
    assert_eq!(outcome(&lib), Err(PlanError::UnexpectedCrateTypes));
    lib.target.crate_types = Vec::new();
    assert_eq!(outcome(&lib), Err(PlanError::UnexpectedCrateTypes));
    lib.target.crate_types = vec!["lib".to_string()];
    assert_eq!(outcome(&lib), Err(PlanError::OutsideCrateRoot));
    lib.target.src_path = "/work/my lib/lib.rs".to_string();
    assert_eq!(outcome(&lib), Err(PlanError::InvalidName(NameError::Symbol(2, b' '))));
}

fn script_units() -> Vec<Unit> {
    let mut run = unit(
        "sys",
        CompileMode::RunCustomBuild,
        "bin",
        &[(0, "build_script_build"), (1, "other"), (2, "plain")],
    );
    run.features = vec!["use-z".to_string()];
    vec![
        unit("sys", CompileMode::Build, "bin", &[]),
        unit("other", CompileMode::RunCustomBuild, "bin", &[]),
        unit("plain", CompileMode::RunCustomBuild, "bin", &[]),
        run,
    ]
}

fn script_cache() -> Vec<Option<UnitCache>> {
    vec![
        cached("sys", None, false, false),
        cached("other", None, true, true),
        cached("plain", None, true, false),
        None,
    ]
}

fn run_script(
    units: &Vec<Unit>,
    name: &str,
    config: Option<&ExternConfig>,
) -> Result<Planned, PlanError> {
    let setup = setup();
    let cache = script_cache();
    let mut package = package("sys");
    package.links = Some("z".to_string());
    let source = source(name);
    let src_path = path("sys-src");
    let job = Job {
        setup: &setup,
        units,
        cache: &cache,
        unit: &units[3],
        package: &package,
        source: &source,
        src_path: &src_path,
    };
    plan_script(&job, &path("env.drv"), config)
}

fn bin(name: &str) -> String {
    format!("/nix/store/{}-{}/bin", HASH, name)
}

#[test]
fn script_is_run() {
    let planned = run_script(&script_units(), "sys", None).unwrap();
    assert_eq!(planned.derivation.name, "sys-run");
    assert_eq!(text(&planned.derivation.builder), text(&tool("env-wrap").real_path));
    assert_eq!(
        planned.derivation.outputs.iter().map(|(name, _)| *name).collect::<Vec<_>>(),
        vec![OutputName::Out, OutputName::Flags]
    );
    assert_eq!(
        args(&planned),
        vec![
            out("env"),
            format!("{}/metadata", flags("other")),
            "--".to_string(),
            text(&tool("build-wrap").real_path),
            format!("/nix/store/{}-sys-src", HASH),
            "z".to_string(),
            OutputName::Flags.standard_output(),
            OutputName::Out.standard_output(),
            format!("{}/build_script_build", out("sys")),
        ]
    );
    assert_eq!(variable(&planned, "CARGO_FEATURE_USE_Z"), Some(String::new()));
    assert_eq!(variable(&planned, "OPT_LEVEL"), Some("3".to_string()));
    assert_eq!(variable(&planned, "PATH"), Some(format!("{}:{}", bin("rustc"), bin("cc"))));
    assert_eq!(variable(&planned, "CC"), Some(text(&tool("cc").real_path)));
    assert_eq!(variable(&planned, "HOST_CXX"), Some(text(&tool("cxx").real_path)));
    assert_eq!(planned.meta.base_name, None);
    assert!(planned.meta.custom_output);
    assert!(planned.meta.has_links);
    assert_eq!(
        inputs(planned),
        names(&[
            "rustc",
            "sys-src",
            "cc",
            "cxx",
            "build-wrap",
            "env-wrap",
            "env.drv!out",
            "sys.drv!out",
            "other.drv!flags",
        ])
    );
}

#[test]
fn script_for_another_platform() {
    let mut units = script_units();
    units[3].platform = Some("aarch64-unknown-linux-gnu".to_string());
    let planned = run_script(&units, "sys", None).unwrap();
    assert_eq!(variable(&planned, "CC"), Some(text(&tool("target-cc").real_path)));
    assert_eq!(variable(&planned, "CXX"), Some(text(&tool("target-cxx").real_path)));
    assert_eq!(variable(&planned, "HOST_CC"), Some(text(&tool("cc").real_path)));
    assert_eq!(
        variable(&planned, "PATH"),
        Some(format!("{}:{}:{}", bin("rustc"), bin("cc"), bin("target-cc")))
    );
    let inputs = inputs(planned);
    assert!(inputs.contains("target-cc"));
    assert!(inputs.contains("target-cxx"));
    assert!(inputs.contains("cc"));
}

#[test]
fn script_gets_what_it_is_configured_with() {
    let pair = |k: &str, v: &str| (k.to_string(), v.to_string());
    let config = ExternConfig {
        inputs: vec![format!("/nix/store/{}-zlib", HASH)],
        env: vec![
            pair("CC", "clang"),
            pair("OPT_LEVEL", "s"),
            pair("PATH", "/bin"),
            pair("ZLIB", "yes"),
        ],
        path: vec!["/a".to_string(), "/b".to_string()],
    };
    let planned = run_script(&script_units(), "sys", Some(&config)).unwrap();
    assert_eq!(variable(&planned, "CC"), Some("clang".to_string()));
    assert_eq!(variable(&planned, "ZLIB"), Some("yes".to_string()));
    assert_eq!(variable(&planned, "OPT_LEVEL"), Some("3".to_string()));
    assert_eq!(
        variable(&planned, "PATH"),
        Some(format!("{}:{}:/a:/b", bin("rustc"), bin("cc")))
    );
    assert!(inputs(planned).contains("zlib"));
}

#[test]
fn last_built_dependency_is_the_script() {
    let mut units = script_units();
    units[2].mode = CompileMode::Build;
    let planned = run_script(&units, "sys", None).unwrap();
    assert_eq!(args(&planned).last().unwrap(), &format!("{}/plain", out("plain")));
}

#[test]
fn script_errors_come_in_order() {
    let config = ExternConfig {
        inputs: vec![format!("/nix/store/{}-zlib", HASH), "/usr/lib".to_string()],
        env: Vec::new(),
        path: Vec::new(),
    };
    let mut units = script_units();
    assert_eq!(
        run_script(&units, "my sys", Some(&config)).unwrap_err(),
        PlanError::InvalidInput(1, StorePathError::NotInStore)
    );
    assert_eq!(
        run_script(&units, "my sys", None).unwrap_err(),
        PlanError::InvalidName(NameError::Symbol(2, b' '))
    );
    units[0].mode = CompileMode::Check;
    assert_eq!(
        run_script(&units, "my sys", Some(&config)).unwrap_err(),
        PlanError::NoScript
    );
}

#[test]
fn planning_errors_are_explained() {
    let said = |e: PlanError| e.message();
    assert_eq!(said(PlanError::NoSourcePath), Some("unit does not have a source path"));
    assert_eq!(said(PlanError::EmptyPath), Some("empty path"));
    assert_eq!(
        said(PlanError::NoScript),
        Some("build script execution did not specify what to run")
    );
    assert_eq!(
        said(PlanError::InvalidInput(0, StorePathError::NonAbsolute)),
        Some("Invalid store path in extra")
    );
    assert_eq!(
        said(PlanError::InvalidName(NameError::NameLength)),
        Some("invalid derivation name")
    );
    assert_eq!(said(PlanError::UnexpectedCrateTypes), None);
    assert_eq!(
        said(PlanError::OutsideCrateRoot),
        Some("internal: crate main is not in crate root???")
    );
}

#[test]
fn features_are_written_in_upper_case() {
    let mut units = script_units();
    units[3].features = vec!["groß".to_string()];
    let planned = run_script(&units, "sys", None).unwrap();
    assert_eq!(variable(&planned, "CARGO_FEATURE_GROSS"), Some(String::new()));
}
