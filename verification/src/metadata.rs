//! What Cargo knows about a package, and how it tells the programs that it runs.

use vstd::prelude::*;
use vstd::string::*;
use vstd::utf8::*;

use crate::environment::Environment;
use crate::octets;
use crate::text;

verus! {

/// A version number.
#[derive(Debug, Clone)]
pub struct Version {
    pub major: u64,
    pub minor: u64,
    pub patch: u64,
    pub pre: String,
    pub build: String,
}

impl Version {
    /// The version as it is written: three numbers, then the pre-release and the build, where
    /// there are any.
    pub open spec fn text(self) -> Seq<char> {
        let numbers = text::decimal(self.major as nat) + "."@ + text::decimal(self.minor as nat)
            + "."@ + text::decimal(self.patch as nat);
        let with_pre = if self.pre@.len() == 0 {
            numbers
        } else {
            numbers + "-"@ + self.pre@
        };
        if self.build@.len() == 0 {
            with_pre
        } else {
            with_pre + "+"@ + self.build@
        }
    }

    /// Writes the version.
    pub fn render(&self) -> (r: String)
        ensures
            r@ == self.text(),
    {
        let mut r = text::to_decimal(self.major);
        r.append(".");
        r.append(text::to_decimal(self.minor).as_str());
        r.append(".");
        r.append(text::to_decimal(self.patch).as_str());
        if !self.pre.as_str().is_empty() {
            r.append("-");
            r.append(self.pre.as_str());
        }
        if !self.build.as_str().is_empty() {
            r.append("+");
            r.append(self.build.as_str());
        }
        r
    }
}

/// A version is written as its three numbers with dots between them. A pre-release follows behind
/// a dash, and a build behind a plus sign, where they are not empty.
pub proof fn law_version_text(version: Version)
    ensures
        ({
            let numbers = text::decimal(version.major as nat) + seq!['.'] + text::decimal(
                version.minor as nat,
            ) + seq!['.'] + text::decimal(version.patch as nat);
            let pre = if version.pre@.len() > 0 {
                seq!['-'] + version.pre@
            } else {
                Seq::empty()
            };
            let build = if version.build@.len() > 0 {
                seq!['+'] + version.build@
            } else {
                Seq::empty()
            };
            version.text() == numbers + pre + build
        }),
{
    reveal_strlit(".");
    reveal_strlit("-");
    reveal_strlit("+");
    assert("."@ =~= seq!['.']);
    assert("-"@ =~= seq!['-']);
    assert("+"@ =~= seq!['+']);
    let numbers = text::decimal(version.major as nat) + seq!['.'] + text::decimal(
        version.minor as nat,
    ) + seq!['.'] + text::decimal(version.patch as nat);
    assert(version.text() =~= numbers + (if version.pre@.len() > 0 {
        seq!['-'] + version.pre@
    } else {
        Seq::empty()
    }) + (if version.build@.len() > 0 {
        seq!['+'] + version.build@
    } else {
        Seq::empty()
    }));
}

/// A package, as far as its builds depend on it.
#[derive(Debug, Clone)]
pub struct Package {
    pub id: String,
    pub name: String,
    pub version: Version,
    pub authors: Vec<String>,
    pub description: Option<String>,
    pub homepage: Option<String>,
    pub repository: Option<String>,
    pub license: Option<String>,
    pub license_file: Option<String>,
    pub rust_version: Option<Version>,
    pub readme: Option<String>,
    pub links: Option<String>,
    pub manifest_path: String,
}

/// The environment with one more variable, or with another value for one it had.
pub open spec fn with_variable(
    env: Map<Seq<u8>, Seq<u8>>,
    name: Seq<char>,
    value: Seq<char>,
) -> Map<Seq<u8>, Seq<u8>> {
    env.insert(encode_utf8(name), encode_utf8(value))
}

/// Sets a variable to a text.
pub(crate) fn set_variable(env: &mut Environment, name: &'static str, value: String)
    ensures
        final(env)@ == with_variable(old(env)@, name@, value@),
{
    env.insert(octets::bytes_of_literal(name), octets::bytes_of_string(value));
}

/// The text of an optional version, or the empty text.
pub open spec fn version_or_empty(version: Option<Version>) -> Seq<char> {
    match version {
        Some(v) => v.text(),
        None => Seq::empty(),
    }
}

/// The environment with what Cargo says about a package.
pub open spec fn with_metadata(env: Map<Seq<u8>, Seq<u8>>, meta: Package) -> Map<
    Seq<u8>,
    Seq<u8>,
> {
    let env = with_variable(env, "CARGO_PKG_NAME"@, meta.name@);
    let env = with_variable(env, "CARGO_PKG_VERSION"@, meta.version.text());
    let env = with_variable(
        env,
        "CARGO_PKG_VERSION_MAJOR"@,
        text::decimal(meta.version.major as nat),
    );
    let env = with_variable(
        env,
        "CARGO_PKG_VERSION_MINOR"@,
        text::decimal(meta.version.minor as nat),
    );
    let env = with_variable(
        env,
        "CARGO_PKG_VERSION_PATCH"@,
        text::decimal(meta.version.patch as nat),
    );
    let env = with_variable(env, "CARGO_PKG_VERSION_PRE"@, meta.version.pre@);
    let env = with_variable(
        env,
        "CARGO_PKG_AUTHORS"@,
        text::joined(text::texts(meta.authors@), ":"@),
    );
    let env = with_variable(
        env,
        "CARGO_PKG_DESCRIPTION"@,
        text::text_or_empty(meta.description),
    );
    let env = with_variable(env, "CARGO_PKG_HOMEPAGE"@, text::text_or_empty(meta.homepage));
    let env = with_variable(env, "CARGO_PKG_REPOSITORY"@, text::text_or_empty(meta.repository));
    let env = with_variable(env, "CARGO_PKG_LICENSE"@, text::text_or_empty(meta.license));
    let env = with_variable(
        env,
        "CARGO_PKG_LICENSE_FILE"@,
        text::text_or_empty(meta.license_file),
    );
    let env = with_variable(
        env,
        "CARGO_PKG_RUST_VERSION"@,
        version_or_empty(meta.rust_version),
    );
    with_variable(env, "CARGO_PKG_README"@, text::text_or_empty(meta.readme))
}

/// Sets the variables by which Cargo tells a build about its package.
pub fn add_metadata_env(env: &mut Environment, meta: &Package)
    ensures
        final(env)@ == with_metadata(old(env)@, *meta),
{
    set_variable(env, "CARGO_PKG_NAME", meta.name.clone());
    set_variable(env, "CARGO_PKG_VERSION", meta.version.render());
    set_variable(env, "CARGO_PKG_VERSION_MAJOR", text::to_decimal(meta.version.major));
    set_variable(env, "CARGO_PKG_VERSION_MINOR", text::to_decimal(meta.version.minor));
    set_variable(env, "CARGO_PKG_VERSION_PATCH", text::to_decimal(meta.version.patch));
    set_variable(env, "CARGO_PKG_VERSION_PRE", meta.version.pre.clone());
    set_variable(env, "CARGO_PKG_AUTHORS", text::join(&meta.authors, ":"));
    set_variable(env, "CARGO_PKG_DESCRIPTION", text::or_empty(&meta.description));
    set_variable(env, "CARGO_PKG_HOMEPAGE", text::or_empty(&meta.homepage));
    set_variable(env, "CARGO_PKG_REPOSITORY", text::or_empty(&meta.repository));
    set_variable(env, "CARGO_PKG_LICENSE", text::or_empty(&meta.license));
    set_variable(env, "CARGO_PKG_LICENSE_FILE", text::or_empty(&meta.license_file));
    let rust_version = match &meta.rust_version {
        Some(v) => v.render(),
        None => String::new(),
    };
    set_variable(env, "CARGO_PKG_RUST_VERSION", rust_version);
    set_variable(env, "CARGO_PKG_README", text::or_empty(&meta.readme));
}

/// A variable by which Cargo tells a build about its package.
pub open spec fn is_metadata_name(name: Seq<char>) -> bool {
    ||| name == "CARGO_PKG_NAME"@
    ||| name == "CARGO_PKG_VERSION"@
    ||| name == "CARGO_PKG_VERSION_MAJOR"@
    ||| name == "CARGO_PKG_VERSION_MINOR"@
    ||| name == "CARGO_PKG_VERSION_PATCH"@
    ||| name == "CARGO_PKG_VERSION_PRE"@
    ||| name == "CARGO_PKG_AUTHORS"@
    ||| name == "CARGO_PKG_DESCRIPTION"@
    ||| name == "CARGO_PKG_HOMEPAGE"@
    ||| name == "CARGO_PKG_REPOSITORY"@
    ||| name == "CARGO_PKG_LICENSE"@
    ||| name == "CARGO_PKG_LICENSE_FILE"@
    ||| name == "CARGO_PKG_RUST_VERSION"@
    ||| name == "CARGO_PKG_README"@
}

proof fn lemma_metadata_names()
    ensures
        "CARGO_PKG_NAME"@.len() == 14,
        "CARGO_PKG_VERSION"@.len() == 17,
        "CARGO_PKG_VERSION_MAJOR"@.len() == 23,
        "CARGO_PKG_VERSION_MINOR"@.len() == 23,
        "CARGO_PKG_VERSION_PATCH"@.len() == 23,
        "CARGO_PKG_VERSION_PRE"@.len() == 21,
        "CARGO_PKG_AUTHORS"@.len() == 17,
        "CARGO_PKG_DESCRIPTION"@.len() == 21,
        "CARGO_PKG_HOMEPAGE"@.len() == 18,
        "CARGO_PKG_REPOSITORY"@.len() == 20,
        "CARGO_PKG_LICENSE"@.len() == 17,
        "CARGO_PKG_LICENSE_FILE"@.len() == 22,
        "CARGO_PKG_RUST_VERSION"@.len() == 22,
        "CARGO_PKG_README"@.len() == 16,
        "CARGO_PKG_VERSION"@ != "CARGO_PKG_AUTHORS"@,
        "CARGO_PKG_VERSION"@ != "CARGO_PKG_LICENSE"@,
        "CARGO_PKG_AUTHORS"@ != "CARGO_PKG_LICENSE"@,
        "CARGO_PKG_VERSION_MAJOR"@ != "CARGO_PKG_VERSION_MINOR"@,
        "CARGO_PKG_VERSION_MAJOR"@ != "CARGO_PKG_VERSION_PATCH"@,
        "CARGO_PKG_VERSION_MINOR"@ != "CARGO_PKG_VERSION_PATCH"@,
        "CARGO_PKG_VERSION_PRE"@ != "CARGO_PKG_DESCRIPTION"@,
        "CARGO_PKG_LICENSE_FILE"@ != "CARGO_PKG_RUST_VERSION"@,
{
    reveal_strlit("CARGO_PKG_NAME");
    reveal_strlit("CARGO_PKG_VERSION");
    reveal_strlit("CARGO_PKG_VERSION_MAJOR");
    reveal_strlit("CARGO_PKG_VERSION_MINOR");
    reveal_strlit("CARGO_PKG_VERSION_PATCH");
    reveal_strlit("CARGO_PKG_VERSION_PRE");
    reveal_strlit("CARGO_PKG_AUTHORS");
    reveal_strlit("CARGO_PKG_DESCRIPTION");
    reveal_strlit("CARGO_PKG_HOMEPAGE");
    reveal_strlit("CARGO_PKG_REPOSITORY");
    reveal_strlit("CARGO_PKG_LICENSE");
    reveal_strlit("CARGO_PKG_LICENSE_FILE");
    reveal_strlit("CARGO_PKG_RUST_VERSION");
    reveal_strlit("CARGO_PKG_README");
    assert("CARGO_PKG_VERSION"@[10] != "CARGO_PKG_AUTHORS"@[10]);
    assert("CARGO_PKG_VERSION"@[10] != "CARGO_PKG_LICENSE"@[10]);
    assert("CARGO_PKG_AUTHORS"@[10] != "CARGO_PKG_LICENSE"@[10]);
    assert("CARGO_PKG_VERSION_MAJOR"@[19] != "CARGO_PKG_VERSION_MINOR"@[19]);
    assert("CARGO_PKG_VERSION_MAJOR"@[18] != "CARGO_PKG_VERSION_PATCH"@[18]);
    assert("CARGO_PKG_VERSION_MINOR"@[18] != "CARGO_PKG_VERSION_PATCH"@[18]);
    assert("CARGO_PKG_VERSION_PRE"@[10] != "CARGO_PKG_DESCRIPTION"@[10]);
    assert("CARGO_PKG_LICENSE_FILE"@[10] != "CARGO_PKG_RUST_VERSION"@[10]);
}

/// Each variable that Cargo tells a build about its package has its own value in the end: none is
/// overwritten by another. All other variables stay as they were.
#[verifier::rlimit(40)]
pub proof fn law_metadata_is_complete(
    env: Map<Seq<u8>, Seq<u8>>,
    meta: Package,
    other: Seq<char>,
)
    ensures
        ({
            let env = with_metadata(env, meta);
            &&& env[encode_utf8("CARGO_PKG_NAME"@)] == encode_utf8(meta.name@)
            &&& env[encode_utf8("CARGO_PKG_VERSION"@)] == encode_utf8(meta.version.text())
            &&& env[encode_utf8("CARGO_PKG_VERSION_MAJOR"@)] == encode_utf8(
                text::decimal(meta.version.major as nat),
            )
            &&& env[encode_utf8("CARGO_PKG_VERSION_MINOR"@)] == encode_utf8(
                text::decimal(meta.version.minor as nat),
            )
            &&& env[encode_utf8("CARGO_PKG_VERSION_PATCH"@)] == encode_utf8(
                text::decimal(meta.version.patch as nat),
            )
            &&& env[encode_utf8("CARGO_PKG_VERSION_PRE"@)] == encode_utf8(meta.version.pre@)
            &&& env[encode_utf8("CARGO_PKG_AUTHORS"@)] == encode_utf8(
                text::joined(text::texts(meta.authors@), ":"@),
            )
            &&& env[encode_utf8("CARGO_PKG_DESCRIPTION"@)] == encode_utf8(
                text::text_or_empty(meta.description),
            )
            &&& env[encode_utf8("CARGO_PKG_HOMEPAGE"@)] == encode_utf8(
                text::text_or_empty(meta.homepage),
            )
            &&& env[encode_utf8("CARGO_PKG_REPOSITORY"@)] == encode_utf8(
                text::text_or_empty(meta.repository),
            )
            &&& env[encode_utf8("CARGO_PKG_LICENSE"@)] == encode_utf8(
                text::text_or_empty(meta.license),
            )
            &&& env[encode_utf8("CARGO_PKG_LICENSE_FILE"@)] == encode_utf8(
                text::text_or_empty(meta.license_file),
            )
            &&& meta.rust_version is Some ==> env[encode_utf8("CARGO_PKG_RUST_VERSION"@)]
                == encode_utf8(meta.rust_version->0.text())
            &&& meta.rust_version is None ==> env[encode_utf8("CARGO_PKG_RUST_VERSION"@)]
                == encode_utf8(Seq::<char>::empty())
            &&& env[encode_utf8("CARGO_PKG_README"@)] == encode_utf8(
                text::text_or_empty(meta.readme),
            )
        }),
        !is_metadata_name(other) ==> {
            let name = encode_utf8(other);
            &&& with_metadata(env, meta).contains_key(name) == env.contains_key(name)
            &&& env.contains_key(name) ==> with_metadata(env, meta)[name] == env[name]
        },
{
    lemma_metadata_names();
    encode_utf8_decode_utf8("CARGO_PKG_NAME"@);
    encode_utf8_decode_utf8("CARGO_PKG_VERSION"@);
    encode_utf8_decode_utf8("CARGO_PKG_VERSION_MAJOR"@);
    encode_utf8_decode_utf8("CARGO_PKG_VERSION_MINOR"@);
    encode_utf8_decode_utf8("CARGO_PKG_VERSION_PATCH"@);
    encode_utf8_decode_utf8("CARGO_PKG_VERSION_PRE"@);
    encode_utf8_decode_utf8("CARGO_PKG_AUTHORS"@);
    encode_utf8_decode_utf8("CARGO_PKG_DESCRIPTION"@);
    encode_utf8_decode_utf8("CARGO_PKG_HOMEPAGE"@);
    encode_utf8_decode_utf8("CARGO_PKG_REPOSITORY"@);
    encode_utf8_decode_utf8("CARGO_PKG_LICENSE"@);
    encode_utf8_decode_utf8("CARGO_PKG_LICENSE_FILE"@);
    encode_utf8_decode_utf8("CARGO_PKG_RUST_VERSION"@);
    encode_utf8_decode_utf8("CARGO_PKG_README"@);
    encode_utf8_decode_utf8(other);
}

/// The last package of the list that has this identifier.
pub open spec fn is_last_with_id(packages: Seq<Package>, id: Seq<char>, at: int) -> bool {
    &&& 0 <= at < packages.len()
    &&& packages[at].id@ == id
    &&& forall|i: int| at < i < packages.len() ==> (#[trigger] packages[i]).id@ != id
}

/// Finds a package by its identifier. Where several have it, the last of them counts.
pub fn find_package(packages: &Vec<Package>, id: &str) -> (r: Option<usize>)
    ensures
        match r {
            Some(at) => is_last_with_id(packages@, id@, at as int),
            None => forall|i: int| 0 <= i < packages.len() ==> (#[trigger] packages@[i]).id@ != id@,
        },
        r is Some ==> r->0 < packages.len() && packages@[r->0 as int].id@ == id@ && forall|i: int|
            r->0 < i < packages.len() ==> (#[trigger] packages@[i]).id@ != id@,
{
    let mut i: usize = packages.len();
    while i > 0
        invariant
            i <= packages.len(),
            forall|j: int| i <= j < packages.len() ==> (#[trigger] packages@[j]).id@ != id@,
        decreases i,
    {
        i -= 1;
        if text::same_text(packages[i].id.as_str(), id) {
            return Some(i);
        }
    }
    None
}

} // verus!
