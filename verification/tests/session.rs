use bytes::Bytes;
use cargo_dyndrv::environment::Environment;
use cargo_dyndrv::metadata::{Package, Version};
use cargo_dyndrv::plan::{Setup, Source, Tool, Tools, UnitCacheMeta};
use cargo_dyndrv::session::{plan_unit, Session, UnsupportedVersion};
use cargo_dyndrv::store::{OutputName, StorePath};
use cargo_dyndrv::unit_graph::{CompileMode, Dependency, Profile, Target, Unit, UnitGraph};

const HASH: &str = "g1w7hy3qg1w7hy3qg1w7hy3qg1w7hy3q";

fn path(name: &str) -> StorePath {
    StorePath::from_base_path(&format!("{}-{}", HASH, name)).unwrap()
}

fn tool(name: &str) -> Tool {
    Tool {
        store_path: path(name),
        real_path: Bytes::from(format!("/bin/{}", name)),
        path_entry: Bytes::from_static(b"/bin"),
    }
}

fn setup() -> Setup {
    Setup {
        tools: Tools {
            rustc: tool("rustc"),
            host_cc: tool("cc"),
            host_cxx: tool("cxx"),
            target_cc: tool("target-cc"),
            target_cxx: tool("target-cxx"),
            build_wrap: tool("build-wrap"),
            env_wrap: tool("env-wrap"),
        },
        store_dir: "/nix/store".to_string(),
        platform: Bytes::from_static(b"x86_64-linux"),
        base_env: Environment::new(),
    }
}

fn package() -> Package {
    Package {
        id: "demo 0.1.0".to_string(),
        name: "demo".to_string(),
        version: Version {
            major: 0,
            minor: 1,
            patch: 0,
            pre: String::new(),
            build: String::new(),
        },
        authors: Vec::new(),
        description: None,
        homepage: None,
        repository: None,
        license: None,
        license_file: None,
        rust_version: None,
        readme: None,
        links: None,
        manifest_path: "/work/demo/Cargo.toml".to_string(),
    }
}

fn unit(name: &str, mode: CompileMode, crate_type: &str, deps: &[usize]) -> Unit {
    Unit {
        pkg_id: "demo 0.1.0".to_string(),
        target: Target {
            name: name.to_string(),
            edition: "2021".to_string(),
            crate_types: vec![crate_type.to_string()],
            src_path: format!("/work/demo/{}.rs", name),
        },
        profile: Profile { opt_level: "0".to_string(), debuginfo: "0".to_string() },
        platform: None,
        mode,
        features: Vec::new(),
        dependencies: deps
            .iter()
            .map(|index| Dependency { index: *index, extern_crate_name: format!("d{}", index) })
            .collect(),
    }
}

fn graph() -> UnitGraph {
    UnitGraph {
        version: 1,
        units: vec![
            unit("app", CompileMode::Build, "bin", &[1]),
            unit("lib", CompileMode::Build, "lib", &[3]),
            unit("script", CompileMode::Build, "bin", &[]),
            unit("run", CompileMode::RunCustomBuild, "bin", &[2]),
            unit("unused", CompileMode::Build, "lib", &[0]),
        ],
        roots: vec![0, 1],
    }
}

#[test]
fn other_graph_versions_are_refused() {
    let mut graph = graph();
    graph.version = 2;
    let error = Session::start(graph).err().unwrap();
    assert_eq!(error, UnsupportedVersion(2));
    assert_eq!(error.message(), "Unsupported unit graph version 2");
}

#[test]
fn build_runs_to_its_end() {
    let setup = setup();
    let package = package();
    let source = Source::locate(&package).unwrap();
    let src_path = path("demo-src");
    let target_env = path("env.drv");
    let mut session = Session::start(graph()).ok().unwrap();
    let mut order = Vec::new();
    let mut last_args: Vec<Bytes> = Vec::new();
    while let Some(idx) = session.next() {
        order.push(idx);
        let planned = {
            let job = session.job(&setup, &package, &source, &src_path);
            plan_unit(&job, session.below(), Some(&target_env), None).unwrap()
        };
        assert_eq!(planned.meta.custom_output, idx == 3);
        last_args = planned.derivation.args;
        let drv_path = path(&format!("{}.drv", session.units()[idx].target.name));
        session = session.record(drv_path, planned.meta);
    }
    assert_eq!(order, vec![2, 3, 1, 0]);
    assert_eq!(session.roots(), &vec![0, 1]);
    assert_eq!(session.root_derivation(1).to_base_path(), path("lib.drv").to_base_path());
    assert_eq!(
        session.report("/nix/store"),
        vec![
            format!("/nix/store/{}-app.drv", HASH),
            format!("/nix/store/{}-lib.drv", HASH),
        ]
    );
    let declaration =
        format!("d1={}/liblib.rlib", path("lib.drv").ca_output(OutputName::Out));
    assert!(last_args.iter().any(|a| *a == declaration));
}

#[test]
fn job_sees_all_units_that_it_depends_on() {
    let setup = setup();
    let package = package();
    let source = Source::locate(&package).unwrap();
    let src_path = path("demo-src");
    let mut session = Session::start(graph()).ok().unwrap();
    for name in ["script.drv", "run.drv", "lib.drv"] {
        let meta = UnitCacheMeta { base_name: None, custom_output: false, has_links: false };
        session = session.record(path(name), meta);
    }
    assert_eq!(session.next(), Some(0));
    assert_eq!(session.below().iter().copied().collect::<Vec<_>>(), vec![1, 2, 3]);
    let job = session.job(&setup, &package, &source, &src_path);
    assert!(job.cache[0].is_none());
    assert!(job.cache[4].is_none());
    for dep in session.below() {
        assert!(job.cache[*dep].is_some());
    }
}

#[test]
fn empty_build_ends_at_once() {
    let graph = UnitGraph { version: 1, units: Vec::new(), roots: Vec::new() };
    let session = Session::start(graph).ok().unwrap();
    assert_eq!(session.next(), None);
    assert!(session.report("/nix/store").is_empty());
}
