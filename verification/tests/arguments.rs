use std::collections::VecDeque;

use bytes::Bytes;
use cargo_dyndrv::arguments::{
    add_codegen, add_feature, add_long, extern_declaration, manifest_path_argument, PathNotUtf8,
};
use cargo_dyndrv::unit_graph::{CompileMode, Profile, Target, Unit};

fn list(words: &[&str]) -> Vec<String> {
    words.iter().map(|w| w.to_string()).collect()
}

fn library(crate_type: &str) -> Unit {
    Unit {
        pkg_id: "dep 0.1.0".to_string(),
        target: Target {
            name: "dep".to_string(),
            edition: "2021".to_string(),
            crate_types: list(&[crate_type]),
            src_path: "/work/dep/src/lib.rs".to_string(),
        },
        profile: Profile { opt_level: "0".to_string(), debuginfo: "2".to_string() },
        platform: None,
        mode: CompileMode::Build,
        features: Vec::new(),
        dependencies: Vec::new(),
    }
}

fn declared(crate_type: &str, dep_crate_type: &str) -> String {
    extern_declaration(crate_type, "dep", b"/out", "libdep", &library(dep_crate_type)).unwrap()
}

#[test]
fn options_are_spelled_out() {
    let mut args: VecDeque<Bytes> = VecDeque::new();
    add_long(&mut args, "crate-name", "serde_json");
    add_codegen(&mut args, "opt-level", "3");
    add_feature(&mut args, "std");
    let expected: Vec<&[u8]> = vec![
        b"--crate-name=serde_json",
        b"-C",
        b"opt-level=3",
        b"--cfg",
        b"feature=\"std\"",
    ];
    assert_eq!(args, expected);
}

#[test]
fn options_go_behind_what_is_there() {
    let mut args: VecDeque<Bytes> = VecDeque::new();
    args.push_back(Bytes::from_static(b"rustc"));
    add_long(&mut args, "edition", "");
    assert_eq!(args[0], "rustc");
    assert_eq!(args[1], "--edition=");
}

#[test]
fn programs_are_linked_and_libraries_are_checked() {
    assert_eq!(declared("bin", "lib"), "dep=/out/libdep.rlib");
    assert_eq!(declared("proc-macro", "rlib"), "dep=/out/libdep.rlib");
    assert_eq!(declared("lib", "lib"), "dep=/out/libdep.rmeta");
    assert_eq!(declared("rlib", "rlib"), "dep=/out/libdep.rmeta");
}

#[test]
fn shared_libraries_have_their_extension() {
    assert_eq!(declared("lib", "proc-macro"), "dep=/out/libdep.so");
    assert_eq!(declared("bin", "dylib"), "dep=/out/libdep.so");
    assert_eq!(declared("bin", "staticlib"), "dep=/out/libdep");
}

#[test]
fn directory_of_a_library_must_be_text() {
    assert_eq!(
        extern_declaration("bin", "dep", b"/out\xff", "libdep", &library("lib")),
        Err(PathNotUtf8)
    );
    assert_eq!(PathNotUtf8.message(), "path not valid utf-8");
}

#[test]
fn last_manifest_path_counts() {
    let args = list(&["dyndrv", "-m", "a/Cargo.toml", "--manifest-path", "b/Cargo.toml"]);
    assert_eq!(manifest_path_argument(&args), Some(4));
}

#[test]
fn manifest_path_is_never_an_option() {
    let args = list(&["dyndrv", "-m", "-m", "a/Cargo.toml"]);
    assert_eq!(manifest_path_argument(&args), Some(2));
}

#[test]
fn manifest_path_may_be_missing() {
    assert_eq!(manifest_path_argument(&Vec::new()), None);
    assert_eq!(manifest_path_argument(&list(&["-m", "a/Cargo.toml"])), None);
    assert_eq!(manifest_path_argument(&list(&["dyndrv", "--release", "-m"])), None);
}
