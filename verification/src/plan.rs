//! What the plans of all units have in common.

use bytes::Bytes;
use vstd::prelude::*;
use vstd::string::*;
use vstd::utf8::*;

use crate::derivation::Derivation;
use crate::environment::Environment;
use crate::metadata;
use crate::metadata::Package;
use crate::paths;
use crate::store;
use crate::store::{NameError, StorePath, StorePathError};
use crate::text;
use crate::unit_graph::Unit;

verus! {

/// The file in a build script's output with the arguments for the crate that has the script.
pub const SCRIPT_IMMEDIATE_ARGS: &'static str = "args-immediate";

/// The file in a build script's output with the arguments for all that the crate goes into.
pub const SCRIPT_TRANSITIVE_ARGS: &'static str = "args-transitive";

/// The file in a build script's output with the variables for the crate that has the script.
pub const SCRIPT_IMMEDIATE_ENV: &'static str = "env";

/// The file in a build script's output with the variables for the scripts of dependents.
pub const SCRIPT_METADATA_ENV: &'static str = "metadata";

/// What the plans of other units need to know about a unit.
#[derive(Debug)]
pub struct UnitCacheMeta {
    /// The name of the library file that the unit makes, without its extension.
    pub base_name: Option<String>,
    /// The unit is a run of a build script.
    pub custom_output: bool,
    /// The package of the script links to a native library.
    pub has_links: bool,
}

/// A unit that is planned: its derivation, and what others need to know about it.
#[derive(Debug)]
pub struct UnitCache {
    pub drv_path: StorePath,
    pub meta: UnitCacheMeta,
}

/// A program in the store.
#[derive(Debug)]
pub struct Tool {
    /// The store path that the program is part of.
    pub store_path: StorePath,
    /// The path of the program itself.
    pub real_path: Bytes,
    /// The directory by which the program is found.
    pub path_entry: Bytes,
}

/// The programs that builds use.
#[derive(Debug)]
pub struct Tools {
    pub rustc: Tool,
    pub host_cc: Tool,
    pub host_cxx: Tool,
    pub target_cc: Tool,
    pub target_cxx: Tool,
    pub build_wrap: Tool,
    pub env_wrap: Tool,
}

/// What is the same for all units of a build.
#[derive(Debug)]
pub struct Setup {
    pub tools: Tools,
    pub store_dir: String,
    /// The platform that the derivations are built on.
    pub platform: Bytes,
    /// The variables that every build gets.
    pub base_env: Environment,
}

/// What a build script gets beyond what Cargo knows about.
#[derive(Debug)]
pub struct ExternConfig {
    pub inputs: Vec<String>,
    pub env: Vec<(String, String)>,
    pub path: Vec<String>,
}

/// The first entry for the package stands at `at`.
pub open spec fn is_first_config(
    configs: Seq<(String, ExternConfig)>,
    pkg_id: Seq<char>,
    at: int,
) -> bool {
    &&& 0 <= at < configs.len()
    &&& configs[at].0@ == pkg_id
    &&& forall|j: int| 0 <= j < at ==> (#[trigger] configs[j]).0@ != pkg_id
}

/// Finds what a package's build script gets beyond what Cargo knows about.
pub fn find_config(configs: &Vec<(String, ExternConfig)>, pkg_id: &str) -> (r: Option<usize>)
    ensures
        match r {
            Some(at) => is_first_config(configs@, pkg_id@, at as int),
            None => forall|i: int|
                0 <= i < configs.len() ==> (#[trigger] configs@[i]).0@ != pkg_id@,
        },
        r is Some ==> r->0 < configs.len() && configs@[r->0 as int].0@ == pkg_id@ && forall|i: int|
            0 <= i < r->0 ==> (#[trigger] configs@[i]).0@ != pkg_id@,
{
    let mut i: usize = 0;
    while i < configs.len()
        invariant
            i <= configs.len(),
            forall|j: int| 0 <= j < i ==> (#[trigger] configs@[j]).0@ != pkg_id@,
        decreases configs.len() - i,
    {
        if text::same_text(configs[i].0.as_str(), pkg_id) {
            return Some(i);
        }
        i += 1;
    }
    None
}

/// Why a unit cannot be planned.
#[derive(Debug, Clone, Copy, PartialEq, Eq, Structural)]
pub enum PlanError {
    /// The manifest does not lie in a directory.
    NoSourcePath,
    /// The directory of the manifest has no name.
    EmptyPath,
    /// A build script is to be run, and no dependency is the script.
    NoScript,
    /// Of the inputs from outside of Cargo, the one at this position is not a store path.
    InvalidInput(usize, StorePathError),
    /// The directory of the manifest has a name that no derivation can have.
    InvalidName(NameError),
    /// The unit does not have exactly one crate type.
    UnexpectedCrateTypes,
    /// The main file of the crate does not lie in the directory of the manifest.
    OutsideCrateRoot,
}

impl PlanError {
    /// What is said about the error, where that does not depend on the unit.
    pub open spec fn text(self) -> Option<Seq<char>> {
        match self {
            PlanError::NoSourcePath => Some("unit does not have a source path"@),
            PlanError::EmptyPath => Some("empty path"@),
            PlanError::NoScript => Some("build script execution did not specify what to run"@),
            PlanError::InvalidInput(_, _) => Some("Invalid store path in extra"@),
            PlanError::InvalidName(_) => Some("invalid derivation name"@),
            PlanError::UnexpectedCrateTypes => None,
            PlanError::OutsideCrateRoot => Some("internal: crate main is not in crate root???"@),
        }
    }

    /// What is said about the error, where that does not depend on the unit.
    pub fn message(&self) -> (r: Option<&'static str>)
        ensures
            match r {
                Some(message) => self.text() == Some(message@),
                None => self.text() is None,
            },
            *self is NoSourcePath ==> r is Some && r->0@ == "unit does not have a source path"@,
            *self is EmptyPath ==> r is Some && r->0@ == "empty path"@,
            *self is NoScript ==> r is Some && r->0@
                == "build script execution did not specify what to run"@,
            *self is InvalidInput ==> r is Some && r->0@ == "Invalid store path in extra"@,
            *self is InvalidName ==> r is Some && r->0@ == "invalid derivation name"@,
            *self is UnexpectedCrateTypes <==> r is None,
            *self is OutsideCrateRoot ==> r is Some && r->0@
                == "internal: crate main is not in crate root???"@,
    {
        match self {
            PlanError::NoSourcePath => Some("unit does not have a source path"),
            PlanError::EmptyPath => Some("empty path"),
            PlanError::NoScript => Some("build script execution did not specify what to run"),
            PlanError::InvalidInput(_, _) => Some("Invalid store path in extra"),
            PlanError::InvalidName(_) => Some("invalid derivation name"),
            PlanError::UnexpectedCrateTypes => None,
            PlanError::OutsideCrateRoot => Some("internal: crate main is not in crate root???"),
        }
    }
}

/// The directory of a crate, and its name.
#[derive(Debug)]
pub struct Source {
    pub root: String,
    pub name: String,
}

/// A unit's derivation, and what others need to know about the unit.
#[derive(Debug)]
pub struct Planned {
    pub derivation: Derivation,
    pub meta: UnitCacheMeta,
}

/// The manifest lies in the directory `name` of the directory `dir`.
pub open spec fn is_manifest_of(
    manifest: Seq<char>,
    dir: Seq<char>,
    name: Seq<char>,
    leaf: Seq<char>,
) -> bool {
    &&& paths::names_in(manifest, dir + seq!['/'] + name, leaf)
    &&& paths::is_plain_name(name)
    &&& name.last() != '.'
}

impl Source {
    /// Finds the directory of a package.
    pub fn locate(package: &Package) -> (r: Result<Source, PlanError>)
        ensures
            match r {
                Ok(source) => paths::parent(package.manifest_path@) == Some(source.root@)
                    && paths::file_name(source.root@) == Some(source.name@),
                Err(PlanError::NoSourcePath) => paths::parent(package.manifest_path@) is None,
                Err(PlanError::EmptyPath) => paths::parent(package.manifest_path@) is Some
                    && paths::file_name(paths::parent(package.manifest_path@)->0) is None,
                Err(_) => false,
            },
            forall|dir: Seq<char>, name: Seq<char>, leaf: Seq<char>| #[trigger]
                is_manifest_of(package.manifest_path@, dir, name, leaf) ==> r is Ok
                    && r->Ok_0.root@ == dir + seq!['/'] + name && r->Ok_0.name@ == name,
    {
        let ghost manifest = package.manifest_path@;
        match paths::parent_path(package.manifest_path.as_str()) {
            None => {
                assert forall|dir: Seq<char>, name: Seq<char>, leaf: Seq<char>| #[trigger]
                    is_manifest_of(manifest, dir, name, leaf) implies false by {
                    lemma_directory(manifest, dir, name, leaf);
                }
                Err(PlanError::NoSourcePath)
            },
            Some(root) => {
                assert forall|dir: Seq<char>, name: Seq<char>, leaf: Seq<char>| #[trigger]
                    is_manifest_of(manifest, dir, name, leaf) implies root@ == dir + seq!['/']
                    + name && paths::names_in(root@, dir, name) by {
                    lemma_directory(manifest, dir, name, leaf);
                }
                match paths::last_name(root.as_str()) {
                    None => Err(PlanError::EmptyPath),
                    Some(name) => Ok(Source { root, name }),
                }
            },
        }
    }

    /// The name under which the directory is put into the store.
    pub fn stored_name(&self) -> (r: String)
        ensures
            r@ == self.name@ + "-src"@,
    {
        text::concat(self.name.as_str(), "-src")
    }
}

proof fn lemma_directory(manifest: Seq<char>, dir: Seq<char>, name: Seq<char>, leaf: Seq<char>)
    requires
        is_manifest_of(manifest, dir, name, leaf),
    ensures
        paths::names_in(manifest, dir + seq!['/'] + name, leaf),
        (dir + seq!['/'] + name).len() > 0,
        (dir + seq!['/'] + name).last() != '/',
        (dir + seq!['/'] + name).last() != '.',
{
    assert((dir + seq!['/'] + name).last() == name.last());
    assert(name.contains(name.last()));
}

/// A unit that is about to be planned, and all that its plan is made from.
pub struct Job<'a> {
    pub setup: &'a Setup,
    pub units: &'a [Unit],
    /// For each unit, its plan, if it is planned.
    pub cache: &'a Vec<Option<UnitCache>>,
    pub unit: &'a Unit,
    pub package: &'a Package,
    pub source: &'a Source,
    /// The crate's directory in the store.
    pub src_path: &'a StorePath,
}

/// The plans that are there can be built on: their outputs can be given placeholders, and those
/// that make a library have a crate type.
pub open spec fn cache_ok(units: Seq<Unit>, cache: Seq<Option<UnitCache>>) -> bool {
    &&& cache.len() == units.len()
    &&& forall|i: int|
        0 <= i < cache.len() && (#[trigger] cache[i]) is Some ==> {
            &&& !store::is_bare_suffix(encode_utf8(cache[i]->0.drv_path@))
            &&& cache[i]->0.meta.base_name is Some ==> units[i].target.crate_types.len() > 0
        }
}

/// The unit at this index is planned.
pub open spec fn is_planned(cache: Seq<Option<UnitCache>>, idx: usize) -> bool {
    idx < cache.len() && cache[idx as int] is Some
}

impl<'a> Job<'a> {
    /// The units that this one depends on are planned.
    pub open spec fn is_ready(self) -> bool {
        &&& cache_ok(self.units@, self.cache@)
        &&& forall|k: int|
            0 <= k < self.unit.dependencies.len() ==> is_planned(
                self.cache@,
                (#[trigger] self.unit.dependencies@[k]).index,
            )
    }

    /// The crate's directory in the store, as a path.
    pub open spec fn src_dir(self) -> Seq<char> {
        paths::joined_path(self.setup.store_dir@, self.src_path@)
    }

    /// The variables that any build of the crate gets.
    pub open spec fn crate_env(self) -> Map<Seq<u8>, Seq<u8>> {
        metadata::with_variable(
            metadata::with_metadata(self.setup.base_env@, *self.package),
            "CARGO_MANIFEST_DIR"@,
            self.src_dir(),
        )
    }

    /// Sets the variables that any build of the crate gets.
    pub(crate) fn make_crate_env(&self) -> (env: Environment)
        ensures
            env@ == self.crate_env(),
    {
        let mut env = self.setup.base_env.copy();
        metadata::add_metadata_env(&mut env, self.package);
        metadata::set_variable(
            &mut env,
            "CARGO_MANIFEST_DIR",
            self.src_path.to_absolute_path(self.setup.store_dir.as_str()),
        );
        env
    }
}

/// The plan of a unit that is planned.
pub open spec fn plan_of(cache: Seq<Option<UnitCache>>, idx: usize) -> UnitCache {
    cache[idx as int]->0
}

/// The path that stands for an output of a unit that is planned.
pub open spec fn output_of(cache: Seq<Option<UnitCache>>, idx: usize, output: store::OutputName) -> Seq<
    char,
> {
    store::ca_placeholder(plan_of(cache, idx).drv_path@, output.text())
}

/// Looks up the plan of a unit.
pub(crate) fn planned(cache: &Vec<Option<UnitCache>>, idx: usize) -> (r: &UnitCache)
    requires
        is_planned(cache@, idx),
    ensures
        *r == plan_of(cache@, idx),
{
    cache[idx].as_ref().unwrap()
}

} // verus!
