use std::hash::{DefaultHasher, Hash, Hasher};

use cargo_dyndrv::fingerprint::dep_hash;
use cargo_dyndrv::store::StorePath;
use cargo_dyndrv::unit_graph::{CompileMode, Dependency, Profile, Target, Unit};
use harmonia_store_core::store_path;

const DEP: &str = "g1w7hy3qg1w7hy3qg1w7hy3qg1w7hy3q-dep.drv";

fn unit() -> Unit {
    Unit {
        pkg_id: "demo 0.1.0".to_string(),
        target: Target {
            name: "demo".to_string(),
            edition: "2021".to_string(),
            crate_types: vec!["lib".to_string()],
            src_path: "/work/demo/src/lib.rs".to_string(),
        },
        profile: Profile { opt_level: "3".to_string(), debuginfo: "0".to_string() },
        platform: None,
        mode: CompileMode::Build,
        features: vec!["std".to_string()],
        dependencies: vec![Dependency { index: 7, extern_crate_name: "dep".to_string() }],
    }
}

fn paths() -> Vec<StorePath> {
    vec![StorePath::from_base_path(DEP).unwrap()]
}

#[test]
fn hash_covers_derivations_and_fields() {
    let mut hasher = DefaultHasher::new();
    Hash::hash(&store_path::StorePath::from_base_path(DEP).unwrap(), &mut hasher);
    let fields = [
        "demo 0.1.0",
        "demo",
        "2021",
        "/work/demo/src/lib.rs",
        "3",
        "0",
        "build",
        "native",
        "",
        "1",
        "lib",
        "1",
        "std",
        "7",
        "dep",
    ];
    for field in fields {
        field.hash(&mut hasher);
    }
    assert_eq!(dep_hash(&paths(), &unit()), hasher.finish());
}

#[test]
fn hash_is_the_same_every_time() {
    assert_eq!(dep_hash(&paths(), &unit()), dep_hash(&paths(), &unit()));
}

#[test]
fn hash_tells_units_apart() {
    let first = dep_hash(&paths(), &unit());
    assert_ne!(first, dep_hash(&Vec::new(), &unit()));
    let mut other = unit();
    other.features = Vec::new();
    assert_ne!(first, dep_hash(&paths(), &other));
    let mut other = unit();
    other.platform = Some(String::new());
    assert_ne!(first, dep_hash(&paths(), &other));
    let mut other = unit();
    other.mode = CompileMode::Check;
    assert_ne!(first, dep_hash(&paths(), &other));
    let mut other = unit();
    other.features = vec!["st".to_string(), "d".to_string()];
    assert_ne!(first, dep_hash(&paths(), &other));
}

#[test]
fn modes_are_spelled_as_cargo_does() {
    assert_eq!(CompileMode::RunCustomBuild.as_str(), "run-custom-build");
    assert_eq!(CompileMode::Doctest.as_str(), "doctest");
}
