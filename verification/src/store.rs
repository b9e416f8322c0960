//! Store paths, the names they are made of, and the placeholders that stand for outputs that are
//! not built yet.

use harmonia_store_core::derived_path;
use harmonia_store_core::placeholder::Placeholder;
use harmonia_store_core::store_path as harmonia;
use harmonia_store_core::store_path::FromStoreDirStr;
use vstd::prelude::*;
use vstd::string::*;
use vstd::utf8::*;

use crate::paths;
use crate::text;

verus! {

/// The length of the hash that a store path starts with.
pub const HASH_LEN: usize = 32;

/// The longest name that a store path may have.
pub const MAX_NAME_LEN: usize = 211;

/// Why a name is not one that a store path may have.
#[derive(Debug, Clone, Copy, PartialEq, Eq, Structural)]
pub enum NameError {
    /// The name is empty, or too long.
    NameLength,
    /// The byte at this position is not one that a name may hold.
    Symbol(u8, u8),
}

/// Why a text is not a store path.
#[derive(Debug, Clone, Copy, PartialEq, Eq, Structural)]
pub enum StorePathError {
    /// The path does not start with a slash.
    NonAbsolute,
    /// The path does not lie in the store directory.
    NotInStore,
    /// There is no room for a hash and a dash.
    HashLength,
    /// The name is empty, or too long.
    NameLength,
    /// The byte at this position is not one that may stand there.
    Symbol(u8, u8),
}

/// A byte that a name may hold.
pub open spec fn is_name_byte(b: u8) -> bool {
    ||| 'a' <= b as char <= 'z'
    ||| 'A' <= b as char <= 'Z'
    ||| '0' <= b as char <= '9'
    ||| b as char == '+'
    ||| b as char == '-'
    ||| b as char == '_'
    ||| b as char == '?'
    ||| b as char == '='
    ||| b as char == '.'
}

/// A digit of the base-32 notation that hashes are written in: it leaves out four letters.
pub open spec fn is_hash_byte(b: u8) -> bool {
    ||| '0' <= b as char <= '9'
    ||| {
        &&& 'a' <= b as char <= 'z'
        &&& b as char != 'e'
        &&& b as char != 'o'
        &&& b as char != 't'
        &&& b as char != 'u'
    }
}

/// A name that a store path may have.
pub open spec fn is_name(name: Seq<u8>) -> bool {
    &&& 0 < name.len() <= MAX_NAME_LEN
    &&& forall|i: int| 0 <= i < name.len() ==> is_name_byte(#[trigger] name[i])
}

/// The error is the reason why `name` is not a name.
pub open spec fn is_name_error(name: Seq<u8>, e: NameError) -> bool {
    match e {
        NameError::NameLength => !(0 < name.len() <= MAX_NAME_LEN),
        NameError::Symbol(at, b) => {
            &&& 0 < name.len() <= MAX_NAME_LEN
            &&& at < name.len()
            &&& name[at as int] == b
            &&& !is_name_byte(b)
            &&& forall|i: int| 0 <= i < at ==> is_name_byte(#[trigger] name[i])
        },
    }
}

/// The base-32 hash that a store path starts with.
pub open spec fn is_hash(hash: Seq<u8>) -> bool {
    &&& hash.len() == HASH_LEN
    &&& forall|i: int| 0 <= i < hash.len() ==> is_hash_byte(#[trigger] hash[i])
}

/// A store path without the store directory: a hash, a dash and a name.
pub open spec fn is_base(base: Seq<u8>) -> bool {
    &&& base.len() > HASH_LEN
    &&& base[HASH_LEN as int] as char == '-'
    &&& is_hash(base.take(HASH_LEN as int))
    &&& is_name(base.skip(HASH_LEN + 1))
}

/// The error is a reason why `base` is not a hash, a dash and a name.
pub open spec fn is_base_error(base: Seq<u8>, e: StorePathError) -> bool {
    let dashed = base.len() > HASH_LEN && base[HASH_LEN as int] as char == '-';
    let name = base.skip(HASH_LEN + 1);
    match e {
        StorePathError::NonAbsolute | StorePathError::NotInStore => false,
        StorePathError::HashLength => base.len() <= HASH_LEN,
        StorePathError::NameLength => dashed && is_hash(base.take(HASH_LEN as int))
            && is_name_error(name, NameError::NameLength),
        StorePathError::Symbol(at, b) => {
            &&& base.len() > HASH_LEN
            &&& at < base.len()
            &&& base[at as int] == b
            &&& if at == HASH_LEN {
                b as char != '-'
            } else if at < HASH_LEN {
                &&& dashed
                &&& !is_hash_byte(b)
                &&& forall|i: int| at < i < HASH_LEN ==> is_hash_byte(#[trigger] base[i])
            } else {
                &&& dashed
                &&& is_hash(base.take(HASH_LEN as int))
                &&& is_name_error(name, NameError::Symbol((at - HASH_LEN - 1) as u8, b))
            }
        },
    }
}

/// What the text holds behind the store directory and a slash.
pub open spec fn in_store(store_dir: Seq<char>, path: Seq<char>, base: Seq<char>) -> bool {
    path == store_dir + seq!['/'] + base
}

/// The text is a store path, with the store directory.
pub open spec fn is_store_path(store_dir: Seq<char>, path: Seq<char>) -> bool {
    path.len() > 0 && path[0] == '/' && exists|base: Seq<char>| #[trigger]
        in_store(store_dir, path, base) && is_base(encode_utf8(base))
}

/// The error is a reason why `path` is not a store path in `store_dir`.
pub open spec fn is_path_error(store_dir: Seq<char>, path: Seq<char>, e: StorePathError) -> bool {
    let absolute = path.len() > 0 && path[0] == '/';
    match e {
        StorePathError::NonAbsolute => !absolute,
        StorePathError::NotInStore => absolute && !exists|base: Seq<char>|
            in_store(store_dir, path, base),
        _ => absolute && exists|base: Seq<char>| #[trigger]
            in_store(store_dir, path, base) && is_base_error(encode_utf8(base), e),
    }
}

pub(crate) proof fn lemma_base_is_unique(
    store_dir: Seq<char>,
    path: Seq<char>,
    a: Seq<char>,
    b: Seq<char>,
)
    requires
        in_store(store_dir, path, a),
        in_store(store_dir, path, b),
    ensures
        a == b,
{
    assert(path.skip(store_dir.len() as int + 1) =~= a);
    assert(path.skip(store_dir.len() as int + 1) =~= b);
}

/// A store path that is written with an absolute store directory is read back as it was.
pub proof fn law_written_path_is_read_back(
    store_dir: Seq<char>,
    base: Seq<char>,
    written: Seq<char>,
    read: Seq<char>,
)
    requires
        store_dir.len() > 0,
        store_dir[0] == '/',
        is_base(encode_utf8(base)),
        in_store(store_dir, written, base),
    ensures
        is_store_path(store_dir, written),
        in_store(store_dir, written, read) ==> read == base,
{
    assert(written[0] == store_dir[0]);
    if in_store(store_dir, written, read) {
        lemma_base_is_unique(store_dir, written, read, base);
    }
}

/// `StorePathName::from_str`: whether the text is a name that a store path may have.
#[verifier::external_body]
fn harmonia_check_name(name: &str) -> (r: Result<(), NameError>)
    ensures
        r is Ok == is_name(encode_utf8(name@)),
        r is Err ==> is_name_error(encode_utf8(name@), r->Err_0),
{
    match name.parse::<harmonia::StorePathName>() {
        Ok(_) => Ok(()),
        Err(harmonia::StorePathNameError::NameLength) => Err(NameError::NameLength),
        Err(harmonia::StorePathNameError::Symbol(at, b)) => Err(NameError::Symbol(at, b)),
    }
}

/// `StorePath::from_base_path`: whether the text is a hash, a dash and a name.
#[verifier::external_body]
fn harmonia_check_base(base: &str) -> (r: Result<(), StorePathError>)
    ensures
        r is Ok == is_base(encode_utf8(base@)),
        r is Err ==> is_base_error(encode_utf8(base@), r->Err_0),
{
    match harmonia::StorePath::from_base_path(base).map_err(|e| e.error) {
        Ok(_) => Ok(()),
        Err(harmonia::StorePathError::NonAbsolute(_)) => Err(StorePathError::NonAbsolute),
        Err(harmonia::StorePathError::NotInStore(_)) => Err(StorePathError::NotInStore),
        Err(harmonia::StorePathError::HashLength) => Err(StorePathError::HashLength),
        Err(harmonia::StorePathError::NameLength) => Err(StorePathError::NameLength),
        Err(harmonia::StorePathError::Symbol(at, b)) => Err(StorePathError::Symbol(at, b)),
    }
}

/// `StorePath::from_store_dir_str`: what the text holds behind the store directory and a slash, if
/// that is a hash, a dash and a name. A path is absolute if it starts with a slash, as on Unix.
#[verifier::external_body]
fn harmonia_parse_path(store_dir: &str, path: &str) -> (r: Result<String, StorePathError>)
    ensures
        r is Ok == is_store_path(store_dir@, path@),
        r is Ok ==> in_store(store_dir@, path@, r->Ok_0@) && is_base(encode_utf8(r->Ok_0@)),
        r is Err ==> is_path_error(store_dir@, path@, r->Err_0),
{
    let dir = harmonia::StoreDir::new(store_dir).unwrap();
    match harmonia::StorePath::from_store_dir_str(&dir, path).map_err(|e| e.error) {
        Ok(p) => Ok(p.to_base_path()),
        Err(harmonia::StorePathError::NonAbsolute(_)) => Err(StorePathError::NonAbsolute),
        Err(harmonia::StorePathError::NotInStore(_)) => Err(StorePathError::NotInStore),
        Err(harmonia::StorePathError::HashLength) => Err(StorePathError::HashLength),
        Err(harmonia::StorePathError::NameLength) => Err(StorePathError::NameLength),
        Err(harmonia::StorePathError::Symbol(at, b)) => Err(StorePathError::Symbol(at, b)),
    }
}

/// The store path's name is the suffix of derivation files alone, so that nothing is left of it
/// once the suffix is taken away.
pub open spec fn is_bare_suffix(base: Seq<u8>) -> bool {
    base.skip(HASH_LEN + 1) == seq!['.' as u8, 'd' as u8, 'r' as u8, 'v' as u8]
}

/// The path that stands for an output of the derivation that is being written, as
/// `Placeholder::standard_output` and `Placeholder::render` spell it.
pub uninterp spec fn standard_placeholder(output: Seq<char>) -> Seq<char>;

/// The path that stands for an output of another derivation, as `Placeholder::ca_output` and
/// `Placeholder::render` spell it.
pub uninterp spec fn ca_placeholder(drv_path: Seq<char>, output: Seq<char>) -> Seq<char>;

/// `Placeholder::standard_output`, rendered: a path that depends on the output's name alone.
#[verifier::external_body]
fn harmonia_standard_output(output: &str) -> (r: String)
    requires
        is_name(encode_utf8(output@)),
    ensures
        r@ == standard_placeholder(output@),
{
    let name = output.parse::<derived_path::OutputName>().unwrap();
    Placeholder::standard_output(&name).render().display().to_string()
}

/// `Placeholder::ca_output`, rendered: a path that depends on the derivation's store path and the
/// output's name alone.
#[verifier::external_body]
fn harmonia_ca_output(drv_path: &str, output: &str) -> (r: String)
    requires
        is_base(encode_utf8(drv_path@)),
        !is_bare_suffix(encode_utf8(drv_path@)),
        is_name(encode_utf8(output@)),
    ensures
        r@ == ca_placeholder(drv_path@, output@),
{
    let drv = harmonia::StorePath::from_base_path(drv_path).unwrap();
    let name = output.parse::<derived_path::OutputName>().unwrap();
    Placeholder::ca_output(&drv, &name).render().display().to_string()
}

/// An output of a derivation.
#[derive(Debug, Clone, Copy, PartialEq, Eq, Structural)]
pub enum OutputName {
    /// What was built.
    Out,
    /// What a build script told Cargo.
    Flags,
}

impl OutputName {
    /// The name of the output, as Nix knows it.
    pub open spec fn text(self) -> Seq<char> {
        match self {
            OutputName::Out => "out"@,
            OutputName::Flags => "flags"@,
        }
    }

    /// The name of the output, as Nix knows it.
    pub fn as_str(&self) -> (r: &'static str)
        ensures
            r@ == self.text(),
            is_name(encode_utf8(r@)),
    {
        proof {
            reveal_strlit("out");
            reveal_strlit("flags");
            is_ascii_chars_encode_utf8("out"@);
            is_ascii_chars_encode_utf8("flags"@);
        }
        match self {
            OutputName::Out => "out",
            OutputName::Flags => "flags",
        }
    }

    /// The path that stands for this output in the derivation that has it.
    pub fn standard_output(&self) -> (r: String)
        ensures
            r@ == standard_placeholder(self.text()),
    {
        harmonia_standard_output(self.as_str())
    }
}

/// Checks that a text is a name that a store path may have.
pub fn check_name(name: &str) -> (r: Result<(), NameError>)
    ensures
        r is Ok == is_name(encode_utf8(name@)),
        r is Err ==> is_name_error(encode_utf8(name@), r->Err_0),
{
    harmonia_check_name(name)
}

/// A path in the store, without the store directory: a hash, a dash and a name.
#[derive(Debug)]
pub struct StorePath {
    base: String,
}

impl View for StorePath {
    type V = Seq<char>;

    closed spec fn view(&self) -> Seq<char> {
        self.base@
    }
}

/// The store paths, as texts.
pub open spec fn path_texts(list: Seq<StorePath>) -> Seq<Seq<char>> {
    list.map_values(|p: StorePath| p@)
}

impl Clone for StorePath {
    fn clone(&self) -> (r: StorePath)
        ensures
            r@ == self@,
    {
        proof {
            use_type_invariant(self);
        }
        StorePath { base: self.base.clone() }
    }
}

impl StorePath {
    #[verifier::type_invariant]
    spec fn wf(self) -> bool {
        is_base(encode_utf8(self.base@))
    }

    /// Reads a store path that is written without the store directory.
    pub fn from_base_path(base: &str) -> (r: Result<StorePath, StorePathError>)
        ensures
            r is Ok == is_base(encode_utf8(base@)),
            r is Ok ==> r->Ok_0@ == base@,
            r is Err ==> is_base_error(encode_utf8(base@), r->Err_0),
    {
        match harmonia_check_base(base) {
            Ok(()) => Ok(StorePath { base: base.to_owned() }),
            Err(e) => Err(e),
        }
    }

    /// Reads a store path that is written with the store directory.
    pub fn from_store_dir_str(store_dir: &str, path: &str) -> (r: Result<StorePath, StorePathError>)
        ensures
            r is Ok == is_store_path(store_dir@, path@),
            r is Ok ==> in_store(store_dir@, path@, r->Ok_0@),
            r is Err ==> is_path_error(store_dir@, path@, r->Err_0),
    {
        match harmonia_parse_path(store_dir, path) {
            Ok(base) => Ok(StorePath { base }),
            Err(e) => Err(e),
        }
    }

    /// The store path without the store directory.
    pub fn to_base_path(&self) -> (r: &str)
        ensures
            r@ == self@,
            is_base(encode_utf8(r@)),
    {
        proof {
            use_type_invariant(self);
        }
        self.base.as_str()
    }

    /// The path of the file or directory, for programs that open it.
    pub fn to_absolute_path(&self, store_dir: &str) -> (r: String)
        ensures
            r@ == paths::joined_path(store_dir@, self@),
    {
        paths::join_path(store_dir, self.base.as_str())
    }

    /// The store path with the store directory, for people to read.
    pub fn display_in(&self, store_dir: &str) -> (r: String)
        ensures
            in_store(store_dir@, r@, self@),
    {
        let r = text::concat3(store_dir, "/", self.base.as_str());
        proof {
            reveal_strlit("/");
            assert("/"@ =~= seq!['/']);
        }
        r
    }

    /// Tells whether outputs of the derivation at this path can be given placeholders.
    pub fn names_outputs(&self) -> (ok: bool)
        ensures
            ok == !is_bare_suffix(encode_utf8(self@)),
    {
        proof {
            use_type_invariant(self);
        }
        let bytes = self.base.as_str().as_bytes();
        let ghost name = bytes@.skip(HASH_LEN + 1);
        let suffix = bytes.len() == HASH_LEN + 5 && bytes[HASH_LEN + 1] == 46 && bytes[HASH_LEN + 2]
            == 100 && bytes[HASH_LEN + 3] == 114 && bytes[HASH_LEN + 4] == 118;
        proof {
            let drv = seq!['.' as u8, 'd' as u8, 'r' as u8, 'v' as u8];
            if suffix {
                assert(name =~= drv);
            }
            if name == drv {
                assert(name[0] == drv[0] && name[1] == drv[1] && name[2] == drv[2] && name[3] == drv[3]);
            }
        }
        !suffix
    }

    /// The path that stands for an output of the derivation at this path.
    pub fn ca_output(&self, output: OutputName) -> (r: String)
        requires
            !is_bare_suffix(encode_utf8(self@)),
        ensures
            r@ == ca_placeholder(self@, output.text()),
    {
        proof {
            use_type_invariant(self);
        }
        harmonia_ca_output(self.base.as_str(), output.as_str())
    }
}

/// A path in the store is the store directory, a slash, and then the rest.
pub proof fn law_place_in_store(store_dir: Seq<char>, path: Seq<char>, base: Seq<char>)
    ensures
        in_store(store_dir, store_dir + seq!['/'] + base, base),
        in_store(store_dir, path, base) ==> path.len() == store_dir.len() + 1 + base.len()
            && store_dir.is_prefix_of(path) && base.is_suffix_of(path) && path[store_dir.len() as int]
            == '/',
{
    if in_store(store_dir, path, base) {
        assert(path.take(store_dir.len() as int) =~= store_dir);
        assert(path.skip(store_dir.len() as int + 1) =~= base);
    }
}

/// Outputs cannot be named exactly where the name behind the hash and the dash is the suffix of
/// derivations, and nothing else.
pub proof fn law_bare_suffix(hash: Seq<u8>, name: Seq<u8>)
    requires
        hash.len() == HASH_LEN,
    ensures
        is_bare_suffix(hash + seq!['-' as u8] + name) <==> name == encode_utf8(".drv"@),
{
    reveal_strlit(".drv");
    is_ascii_chars_encode_utf8(".drv"@);
    assert(encode_utf8(".drv"@) =~= seq!['.' as u8, 'd' as u8, 'r' as u8, 'v' as u8]);
    assert((hash + seq!['-' as u8] + name).skip(HASH_LEN + 1) =~= name);
}

/// The outputs are known as `out` and `flags`.
pub proof fn law_output_names(output: OutputName)
    ensures
        output is Out ==> output.text() == seq!['o', 'u', 't'],
        output is Flags ==> output.text() == seq!['f', 'l', 'a', 'g', 's'],
{
    reveal_strlit("out");
    reveal_strlit("flags");
    assert("out"@ =~= seq!['o', 'u', 't']);
    assert("flags"@ =~= seq!['f', 'l', 'a', 'g', 's']);
}

} // verus!
