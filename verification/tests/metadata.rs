use bytes::Bytes;
use cargo_dyndrv::environment::Environment;
use cargo_dyndrv::metadata::{add_metadata_env, find_package, Package, Version};

fn version(major: u64, minor: u64, patch: u64, pre: &str, build: &str) -> Version {
    Version { major, minor, patch, pre: pre.to_string(), build: build.to_string() }
}

fn package() -> Package {
    Package {
        id: "demo 1.20.3".to_string(),
        name: "demo".to_string(),
        version: version(1, 20, 3, "rc.1", "git"),
        authors: vec!["A".to_string(), "B".to_string()],
        description: Some("a demo".to_string()),
        homepage: None,
        repository: Some("https://example.org".to_string()),
        license: Some("MIT".to_string()),
        license_file: None,
        rust_version: Some(version(1, 70, 0, "", "")),
        readme: Some("README.md".to_string()),
        links: None,
        manifest_path: "/work/demo/Cargo.toml".to_string(),
    }
}

fn pairs(env: Environment) -> Vec<(String, String)> {
    let text = |b: Bytes| String::from_utf8(b.to_vec()).unwrap();
    env.into_entries().into_iter().map(|(k, v)| (text(k), text(v))).collect()
}

#[test]
fn versions_are_written() {
    assert_eq!(version(1, 2, 3, "", "").render(), "1.2.3");
    assert_eq!(version(1, 2, 3, "alpha", "").render(), "1.2.3-alpha");
    assert_eq!(version(0, 0, 10, "", "b7").render(), "0.0.10+b7");
    assert_eq!(version(1, 2, 3, "rc.1", "b7").render(), "1.2.3-rc.1+b7");
}

#[test]
fn package_is_told_in_variables() {
    let mut env = Environment::new();
    env.insert(Bytes::from_static(b"HOME"), Bytes::from_static(b"/root"));
    env.insert(Bytes::from_static(b"CARGO_PKG_NAME"), Bytes::from_static(b"other"));
    add_metadata_env(&mut env, &package());
    let expected = [
        ("CARGO_PKG_AUTHORS", "A:B"),
        ("CARGO_PKG_DESCRIPTION", "a demo"),
        ("CARGO_PKG_HOMEPAGE", ""),
        ("CARGO_PKG_LICENSE", "MIT"),
        ("CARGO_PKG_LICENSE_FILE", ""),
        ("CARGO_PKG_NAME", "demo"),
        ("CARGO_PKG_README", "README.md"),
        ("CARGO_PKG_REPOSITORY", "https://example.org"),
        ("CARGO_PKG_RUST_VERSION", "1.70.0"),
        ("CARGO_PKG_VERSION", "1.20.3-rc.1+git"),
        ("CARGO_PKG_VERSION_MAJOR", "1"),
        ("CARGO_PKG_VERSION_MINOR", "20"),
        ("CARGO_PKG_VERSION_PATCH", "3"),
        ("CARGO_PKG_VERSION_PRE", "rc.1"),
        ("HOME", "/root"),
    ];
    let expected: Vec<(String, String)> =
        expected.iter().map(|(k, v)| (k.to_string(), v.to_string())).collect();
    assert_eq!(pairs(env), expected);
}

#[test]
fn environment_keeps_one_value_per_name() {
    let mut env = Environment::new();
    env.insert(Bytes::from_static(b"B"), Bytes::from_static(b"1"));
    env.insert(Bytes::from_static(b"A"), Bytes::from_static(b"2"));
    let copy = env.copy();
    env.insert(Bytes::from_static(b"B"), Bytes::from_static(b"3"));
    let pair = |k: &str, v: &str| (k.to_string(), v.to_string());
    assert_eq!(pairs(env), vec![pair("A", "2"), pair("B", "3")]);
    assert_eq!(pairs(copy), vec![pair("A", "2"), pair("B", "1")]);
}

#[test]
fn last_package_with_an_id_counts() {
    let mut second = package();
    second.name = "second".to_string();
    let mut other = package();
    other.id = "other".to_string();
    let packages = vec![package(), second, other];
    assert_eq!(find_package(&packages, "demo 1.20.3"), Some(1));
    assert_eq!(find_package(&packages, "other"), Some(2));
    assert_eq!(find_package(&packages, "none"), None);
}
