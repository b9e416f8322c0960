use cargo_dyndrv::store::{check_name, NameError, OutputName, StorePath, StorePathError};

const HASH: &str = "g1w7hy3qg1w7hy3qg1w7hy3qg1w7hy3q";

fn path(name: &str) -> StorePath {
    StorePath::from_base_path(&format!("{}-{}", HASH, name)).unwrap()
}

#[test]
fn names_of_store_paths() {
    assert_eq!(check_name("serde-1.0+a_b?c=d"), Ok(()));
    assert_eq!(check_name(""), Err(NameError::NameLength));
    assert_eq!(check_name(&"x".repeat(211)), Ok(()));
    assert_eq!(check_name(&"x".repeat(212)), Err(NameError::NameLength));
    assert_eq!(check_name("my crate"), Err(NameError::Symbol(2, b' ')));
}

#[test]
fn store_paths_without_the_directory() {
    assert_eq!(path("foo.drv").to_base_path(), "g1w7hy3qg1w7hy3qg1w7hy3qg1w7hy3q-foo.drv");
    let wrong = |base: &str| StorePath::from_base_path(base).unwrap_err();
    assert_eq!(wrong("short"), StorePathError::HashLength);
    assert_eq!(wrong(&format!("{}-", HASH)), StorePathError::NameLength);
    assert_eq!(wrong(&format!("{}_foo", HASH)), StorePathError::Symbol(32, b'_'));
    assert_eq!(wrong(&format!("{}-a/b", HASH)), StorePathError::Symbol(34, b'/'));
    assert_eq!(
        wrong("e1w7hy3qg1w7hy3qg1w7hy3qg1w7hy3q-foo"),
        StorePathError::Symbol(0, b'e')
    );
}

#[test]
fn store_paths_with_the_directory() {
    let read = |path: &str| StorePath::from_store_dir_str("/nix/store", path);
    let inside = format!("/nix/store/{}-foo", HASH);
    assert_eq!(read(&inside).unwrap().to_base_path(), format!("{}-foo", HASH));
    assert_eq!(read("nix/store").unwrap_err(), StorePathError::NonAbsolute);
    assert_eq!(read("").unwrap_err(), StorePathError::NonAbsolute);
    assert_eq!(read("/usr/bin/cc").unwrap_err(), StorePathError::NotInStore);
    assert_eq!(read("/nix/store").unwrap_err(), StorePathError::NotInStore);
    assert_eq!(read("/nix/store/").unwrap_err(), StorePathError::HashLength);
}

#[test]
fn store_path_that_is_written_is_read_back() {
    let written = path("foo").display_in("/nix/store");
    assert_eq!(written, format!("/nix/store/{}-foo", HASH));
    let read = StorePath::from_store_dir_str("/nix/store", &written).unwrap();
    assert_eq!(read.to_base_path(), path("foo").to_base_path());
    assert_eq!(path("foo").to_absolute_path("/nix/store"), written);
}

#[test]
fn placeholder_for_own_output() {
    assert_eq!(
        OutputName::Out.standard_output(),
        "/1rz4g4znpzjwh1xymhjpm42vipw92pr73vdgl6xs1hycac8kf2n9"
    );
    assert_ne!(OutputName::Out.standard_output(), OutputName::Flags.standard_output());
}

#[test]
fn placeholder_for_output_of_another() {
    assert_eq!(
        path("foo.drv").ca_output(OutputName::Out),
        "/0c6rn30q4frawknapgwq386zq358m8r6msvywcvc89n6m5p2dgbz"
    );
    assert_ne!(
        path("foo.drv").ca_output(OutputName::Flags),
        path("foo.drv").ca_output(OutputName::Out)
    );
    assert_ne!(
        path("bar.drv").ca_output(OutputName::Out),
        path("foo.drv").ca_output(OutputName::Out)
    );
}

#[test]
fn bare_suffix_has_no_placeholders() {
    assert!(path("foo.drv").names_outputs());
    assert!(path("foo").names_outputs());
    assert!(path("a.drv").names_outputs());
    assert!(!path(".drv").names_outputs());
}
