//! Paths as text, on platforms that separate their components with a slash.

use cargo_metadata::camino::Utf8Path;
use vstd::prelude::*;
use vstd::string::*;

use crate::text;

verus! {

/// A path that `leaf` extends: an absolute `leaf` takes its place, and a relative one is put
/// behind it, with a slash between them where none is there.
pub open spec fn joined_path(base: Seq<char>, leaf: Seq<char>) -> Seq<char> {
    if leaf.len() > 0 && leaf[0] == '/' {
        leaf
    } else if base.len() == 0 || base.last() == '/' {
        base + leaf
    } else {
        base + seq!['/'] + leaf
    }
}

/// Extends a path.
pub fn join_path(base: &str, leaf: &str) -> (r: String)
    ensures
        r@ == joined_path(base@, leaf@),
{
    let leaf_len = leaf.unicode_len();
    if leaf_len > 0 && leaf.get_char(0) == '/' {
        return leaf.to_owned();
    }
    let base_len = base.unicode_len();
    let mut r = base.to_owned();
    if base_len > 0 && base.get_char(base_len - 1) != '/' {
        r.push('/');
    }
    r.append(leaf);
    assert(base@.push('/') =~= base@ + seq!['/']);
    r
}

/// The name of a file or a directory, and nothing else.
pub open spec fn is_plain_name(name: Seq<char>) -> bool {
    &&& name.len() > 0
    &&& !name.contains('/')
    &&& name != seq!['.']
    &&& name != seq!['.', '.']
}

/// The path names `leaf` in the directory `dir`.
pub open spec fn names_in(path: Seq<char>, dir: Seq<char>, leaf: Seq<char>) -> bool {
    path == dir + seq!['/'] + leaf && is_plain_name(leaf)
}

/// The path is spelled as the path `base`, a slash, and the path `rest`, and neither part ends or
/// goes on with a slash or a dot that could be left out.
pub open spec fn goes_on_below(path: Seq<char>, base: Seq<char>, rest: Seq<char>) -> bool {
    &&& path == base + seq!['/'] + rest
    &&& base.len() > 0 && base.last() != '/'
    &&& rest.len() > 0 && rest[0] != '/' && rest[0] != '.' && rest.last() != '/' && rest.last() != '.'
}

/// What `Utf8Path::parent` makes of a path.
pub uninterp spec fn parent(path: Seq<char>) -> Option<Seq<char>>;

/// What `Utf8Path::file_name` makes of a path.
pub uninterp spec fn file_name(path: Seq<char>) -> Option<Seq<char>>;

/// What `Utf8Path::strip_prefix` makes of a path and a base, where it does not fail.
pub uninterp spec fn stripped(path: Seq<char>, base: Seq<char>) -> Option<Seq<char>>;

/// `Utf8Path::parent`: the path without its last component. Where the path names an entry of a
/// directory that is spelled without a slash or a dot at its end, that is the directory.
#[verifier::external_body]
pub(crate) fn parent_path(path: &str) -> (r: Option<String>)
    ensures
        text::optional_text(r) == parent(path@),
        forall|dir: Seq<char>, leaf: Seq<char>| #[trigger]
            names_in(path@, dir, leaf) && dir.len() > 0 && dir.last() != '/' && dir.last() != '.'
                ==> text::optional_text(r) == Some(dir),
{
    Utf8Path::new(path).parent().map(|p| p.to_string())
}

/// `Utf8Path::file_name`: the last component of the path, if it is a name. Where the path names an
/// entry of a directory, that is the entry's name.
#[verifier::external_body]
pub(crate) fn last_name(path: &str) -> (r: Option<String>)
    ensures
        text::optional_text(r) == file_name(path@),
        forall|dir: Seq<char>, leaf: Seq<char>| #[trigger]
            names_in(path@, dir, leaf) ==> text::optional_text(r) == Some(leaf),
{
    Utf8Path::new(path).file_name().map(|p| p.to_string())
}

/// `Utf8Path::strip_prefix`: the path that leads from `base` to `path`, or nothing where `base` is
/// not a prefix of `path`. Where the path is spelled as the base, a slash and a rest, it is the
/// rest.
#[verifier::external_body]
pub(crate) fn strip_base(path: &str, base: &str) -> (r: Option<String>)
    ensures
        text::optional_text(r) == stripped(path@, base@),
        forall|rest: Seq<char>| #[trigger]
            goes_on_below(path@, base@, rest) ==> text::optional_text(r) == Some(rest),
{
    Utf8Path::new(path).strip_prefix(base).ok().map(|p| p.to_string())
}

/// An absolute leaf takes the place of the base. Otherwise the path starts with the base and ends
/// with the leaf, and between them stands a slash exactly where the base is not empty and does not
/// end with one.
pub proof fn law_joined_path(base: Seq<char>, leaf: Seq<char>)
    ensures
        ({
            let path = joined_path(base, leaf);
            if leaf.len() > 0 && leaf[0] == '/' {
                path == leaf
            } else {
                &&& base.is_prefix_of(path)
                &&& leaf.is_suffix_of(path)
                &&& base.len() == 0 || base.last() == '/' ==> path.len() == base.len() + leaf.len()
                &&& base.len() > 0 && base.last() != '/' ==> path.len() == base.len() + 1
                    + leaf.len() && path[base.len() as int] == '/'
            }
        }),
{
    let path = joined_path(base, leaf);
    if !(leaf.len() > 0 && leaf[0] == '/') {
        assert(path.take(base.len() as int) =~= base);
        assert(path.skip(path.len() - leaf.len()) =~= leaf);
    }
}

} // verus!
