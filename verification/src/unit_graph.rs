//! The units of a Cargo build and how they depend on each other.

use vstd::prelude::*;

verus! {

/// What Cargo asks of a unit.
#[derive(Debug, Clone, Copy, PartialEq, Eq, Structural)]
pub enum CompileMode {
    Test,
    Build,
    Check,
    Doc,
    Doctest,
    RunCustomBuild,
}

/// The target of a package that a unit compiles.
#[derive(Debug, Clone)]
pub struct Target {
    pub name: String,
    pub edition: String,
    pub crate_types: Vec<String>,
    pub src_path: String,
}

/// The profile settings that rustc is told about, as they are spelled on its command line.
#[derive(Debug, Clone)]
pub struct Profile {
    pub opt_level: String,
    pub debuginfo: String,
}

/// A dependency of a unit: the index of another unit, and the name it goes by.
#[derive(Debug, Clone)]
pub struct Dependency {
    pub index: usize,
    pub extern_crate_name: String,
}

/// One step of a Cargo build. No platform means the platform that builds.
#[derive(Debug, Clone)]
pub struct Unit {
    pub pkg_id: String,
    pub target: Target,
    pub profile: Profile,
    pub platform: Option<String>,
    pub mode: CompileMode,
    pub features: Vec<String>,
    pub dependencies: Vec<Dependency>,
}

/// Everything that Cargo would build, and the units that were asked for.
#[derive(Debug, Clone)]
pub struct UnitGraph {
    pub version: u64,
    pub units: Vec<Unit>,
    pub roots: Vec<usize>,
}

impl Unit {
    /// The indices of the units that this one depends on, in Cargo's order.
    pub open spec fn needs(self) -> Seq<usize> {
        self.dependencies@.map_values(|d: Dependency| d.index)
    }
}

} // verus!
