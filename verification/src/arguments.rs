//! Command lines: those that are built for rustc, and the one that this program gets.

use bytes::Bytes;
use std::collections::VecDeque;
use vstd::prelude::*;
use vstd::string::*;
use vstd::utf8::*;

use crate::octets;
use crate::text;
use crate::unit_graph::Unit;

verus! {

/// The arguments with one more at the end.
pub open spec fn with_argument(args: Seq<Seq<u8>>, argument: Seq<char>) -> Seq<Seq<u8>> {
    args.push(encode_utf8(argument))
}

/// A long option with its value.
pub open spec fn long_option(option: Seq<char>, value: Seq<char>) -> Seq<char> {
    "--"@ + option + "="@ + value
}

/// A setting and its value.
pub open spec fn setting(option: Seq<char>, value: Seq<char>) -> Seq<char> {
    option + "="@ + value
}

/// The configuration predicate that switches a feature on.
pub open spec fn feature_cfg(feature: Seq<char>) -> Seq<char> {
    "feature=\""@ + feature + "\""@
}

/// The bytes of the arguments.
pub open spec fn queued(args: VecDeque<Bytes>) -> Seq<Seq<u8>> {
    octets::all_octets(args@)
}

/// Adds a text at the end.
pub(crate) fn push_text(args: &mut VecDeque<Bytes>, argument: String)
    ensures
        queued(*final(args)) == with_argument(queued(*old(args)), argument@),
{
    args.push_back(octets::bytes_of_string(argument));
    assert(queued(*args) =~= with_argument(queued(*old(args)), argument@));
}

/// Adds a fixed text at the end.
pub(crate) fn push_literal(args: &mut VecDeque<Bytes>, argument: &'static str)
    ensures
        queued(*final(args)) == with_argument(queued(*old(args)), argument@),
{
    args.push_back(octets::bytes_of_literal(argument));
    assert(queued(*args) =~= with_argument(queued(*old(args)), argument@));
}

/// Adds a long option.
pub fn add_long(args: &mut VecDeque<Bytes>, option: &str, value: &str)
    ensures
        queued(*final(args)) == with_argument(
            queued(*old(args)),
            long_option(option@, value@),
        ),
{
    let mut argument = text::concat3("--", option, "=");
    argument.append(value);
    push_text(args, argument);
}

/// The arguments with a codegen setting at the end.
pub open spec fn with_codegen(
    args: Seq<Seq<u8>>,
    option: Seq<char>,
    value: Seq<char>,
) -> Seq<Seq<u8>> {
    with_argument(with_argument(args, "-C"@), setting(option, value))
}

/// Adds a codegen setting.
pub fn add_codegen(args: &mut VecDeque<Bytes>, option: &str, value: &str)
    ensures
        queued(*final(args)) == with_codegen(queued(*old(args)), option@, value@),
{
    push_literal(args, "-C");
    push_text(args, text::concat3(option, "=", value));
}

/// The arguments with a feature switched on at the end.
pub open spec fn with_feature(args: Seq<Seq<u8>>, feature: Seq<char>) -> Seq<Seq<u8>> {
    with_argument(with_argument(args, "--cfg"@), feature_cfg(feature))
}

/// Switches a feature on.
pub fn add_feature(args: &mut VecDeque<Bytes>, feature: &str)
    ensures
        queued(*final(args)) == with_feature(queued(*old(args)), feature@),
{
    push_literal(args, "--cfg");
    push_text(args, text::concat3("feature=\"", feature, "\""));
}

/// The path of a library is not text.
#[derive(Debug, Clone, Copy, PartialEq, Eq, Structural)]
pub struct PathNotUtf8;

impl PathNotUtf8 {
    /// What is said about it.
    pub fn message(&self) -> (r: &'static str)
        ensures
            r@ == "path not valid utf-8"@,
    {
        "path not valid utf-8"
    }
}

/// The extension of the file that a dependency is linked from, or checked against.
pub open spec fn library_extension(crate_type: Seq<char>, dep_crate_type: Seq<char>) -> Seq<char> {
    if dep_crate_type == "lib"@ || dep_crate_type == "rlib"@ {
        if crate_type == "bin"@ || crate_type == "proc-macro"@ {
            ".rlib"@
        } else {
            ".rmeta"@
        }
    } else if dep_crate_type == "dylib"@ || dep_crate_type == "proc-macro"@ {
        ".so"@
    } else {
        ""@
    }
}

/// What rustc is told about a dependency: its name, and the file that it is found in.
pub open spec fn declared(
    crate_type: Seq<char>,
    extern_crate_name: Seq<char>,
    out_path: Seq<char>,
    dep_base_name: Seq<char>,
    dep_crate_type: Seq<char>,
) -> Seq<char> {
    extern_crate_name + "="@ + out_path + "/"@ + dep_base_name + library_extension(
        crate_type,
        dep_crate_type,
    )
}

fn extension_for(crate_type: &str, dep_crate_type: &str) -> (r: &'static str)
    ensures
        r@ == library_extension(crate_type@, dep_crate_type@),
{
    let needs_rlib = text::same_text(crate_type, "bin") || text::same_text(
        crate_type,
        "proc-macro",
    );
    if text::same_text(dep_crate_type, "lib") || text::same_text(dep_crate_type, "rlib") {
        if needs_rlib {
            ".rlib"
        } else {
            ".rmeta"
        }
    } else if text::same_text(dep_crate_type, "dylib") || text::same_text(
        dep_crate_type,
        "proc-macro",
    ) {
        ".so"
    } else {
        ""
    }
}

/// Tells rustc where it finds a dependency. The path of the directory is given as the bytes that
/// the system knows it by.
pub fn extern_declaration(
    crate_type: &str,
    extern_crate_name: &str,
    out_path: &[u8],
    dep_base_name: &str,
    dep: &Unit,
) -> (r: Result<String, PathNotUtf8>)
    requires
        dep.target.crate_types.len() > 0,
    ensures
        r is Ok == valid_utf8(out_path@),
        r is Ok ==> r->Ok_0@ == declared(
            crate_type@,
            extern_crate_name@,
            decode_utf8(out_path@),
            dep_base_name@,
            dep.target.crate_types@[0]@,
        ),
        r is Ok && (crate_type@ == "bin"@ || crate_type@ == "proc-macro"@) && (
        dep.target.crate_types@[0]@ == "lib"@ || dep.target.crate_types@[0]@ == "rlib"@)
            ==> r->Ok_0@ == extern_crate_name@ + "="@ + decode_utf8(out_path@) + "/"@
            + dep_base_name@ + ".rlib"@,
{
    match text::text_of_utf8(out_path) {
        None => Err(PathNotUtf8),
        Some(directory) => {
            proof {
                encode_utf8_decode_utf8(directory@);
            }
            let mut r = text::concat3(extern_crate_name, "=", directory);
            r.append("/");
            r.append(dep_base_name);
            r.append(extension_for(crate_type, dep.target.crate_types[0].as_str()));
            Ok(r)
        },
    }
}

/// The argument is an option that a manifest path follows.
pub open spec fn is_manifest_option(argument: Seq<char>) -> bool {
    argument == "-m"@ || argument == "--manifest-path"@
}

/// The position of the manifest path that counts: the last one that is given from `idx` on, where
/// what follows such an option is never taken for an option.
pub open spec fn manifest_position(args: Seq<String>, idx: int) -> Option<int>
    decreases args.len() - idx,
{
    if idx >= args.len() - 1 {
        None
    } else if is_manifest_option(args[idx]@) {
        match manifest_position(args, idx + 2) {
            Some(at) => Some(at),
            None => Some(idx + 1),
        }
    } else {
        manifest_position(args, idx + 1)
    }
}

/// Finds the manifest path among the arguments of the program. The first argument is the
/// program's own name.
pub fn manifest_path_argument(args: &Vec<String>) -> (r: Option<usize>)
    ensures
        match r {
            Some(at) => manifest_position(args@, 1) == Some(at as int),
            None => manifest_position(args@, 1) is None,
        },
{
    let mut found: Option<usize> = None;
    let mut idx: usize = 1;
    while args.len() > 0 && idx < args.len() - 1
        invariant
            1 <= idx <= args.len() + 1,
            manifest_position(args@, 1) == (match manifest_position(args@, idx as int) {
                Some(at) => Some(at),
                None => match found {
                    Some(at) => Some(at as int),
                    None => None,
                },
            }),
        decreases args.len() + 1 - idx,
    {
        let argument = args[idx].as_str();
        if text::same_text(argument, "-m") || text::same_text(argument, "--manifest-path") {
            found = Some(idx + 1);
            idx += 1;
        }
        idx += 1;
    }
    found
}

/// Options are spelled with their punctuation: two dashes and an equals sign for a long one, an
/// equals sign for a setting, and quotes around a feature.
pub proof fn law_options_are_spelled(option: Seq<char>, value: Seq<char>)
    ensures
        long_option(option, value) == seq!['-', '-'] + option + seq!['='] + value,
        setting(option, value) == option + seq!['='] + value,
        feature_cfg(value) == seq!['f', 'e', 'a', 't', 'u', 'r', 'e', '=', '"'] + value + seq!['"'],
{
    reveal_strlit("--");
    reveal_strlit("=");
    reveal_strlit("feature=\"");
    reveal_strlit("\"");
    assert("--"@ =~= seq!['-', '-']);
    assert("="@ =~= seq!['=']);
    assert("feature=\""@ =~= seq!['f', 'e', 'a', 't', 'u', 'r', 'e', '=', '"']);
    assert("\""@ =~= seq!['"']);
}

/// An argument goes behind those that are there, and changes none of them. A setting and a feature
/// are two arguments each: the option, and what it is set to.
pub proof fn law_arguments_are_appended(
    args: Seq<Seq<u8>>,
    argument: Seq<char>,
    option: Seq<char>,
    value: Seq<char>,
)
    ensures
        with_argument(args, argument) == args + seq![encode_utf8(argument)],
        with_codegen(args, option, value) == args + seq![
            encode_utf8(seq!['-', 'C']),
            encode_utf8(option + seq!['='] + value),
        ],
        with_feature(args, value) == args + seq![
            encode_utf8(seq!['-', '-', 'c', 'f', 'g']),
            encode_utf8(
                seq!['f', 'e', 'a', 't', 'u', 'r', 'e', '=', '"'] + value + seq!['"'],
            ),
        ],
{
    law_options_are_spelled(option, value);
    reveal_strlit("-C");
    reveal_strlit("--cfg");
    assert("-C"@ =~= seq!['-', 'C']);
    assert("--cfg"@ =~= seq!['-', '-', 'c', 'f', 'g']);
    assert(with_argument(args, argument) =~= args + seq![encode_utf8(argument)]);
    assert(with_codegen(args, option, value) =~= args + seq![
        encode_utf8(seq!['-', 'C']),
        encode_utf8(option + seq!['='] + value),
    ]);
    assert(with_feature(args, value) =~= args + seq![
        encode_utf8(seq!['-', '-', 'c', 'f', 'g']),
        encode_utf8(seq!['f', 'e', 'a', 't', 'u', 'r', 'e', '=', '"'] + value + seq!['"']),
    ]);
}

/// A queue of arguments is told by each of them, in its order.
pub proof fn law_queued_arguments(args: VecDeque<Bytes>, k: int)
    requires
        0 <= k < args@.len(),
    ensures
        queued(args).len() == args@.len(),
        queued(args)[k] == octets::octets(args@[k]),
{
}

/// A dependency is declared by its name, an equals sign and the path of its file. Programs and
/// macros are linked with the whole library, and other crates are checked against its metadata;
/// a shared library is one file, and all else has no extension.
pub proof fn law_declared_file(
    crate_type: Seq<char>,
    extern_crate_name: Seq<char>,
    out_path: Seq<char>,
    dep_base_name: Seq<char>,
    dep_crate_type: Seq<char>,
)
    ensures
        ({
            let declaration = declared(
                crate_type,
                extern_crate_name,
                out_path,
                dep_base_name,
                dep_crate_type,
            );
            let file = extern_crate_name + seq!['='] + out_path + seq!['/'] + dep_base_name;
            let static_lib = dep_crate_type == "lib"@ || dep_crate_type == "rlib"@;
            let shared_lib = dep_crate_type == "dylib"@ || dep_crate_type == "proc-macro"@;
            let linked = crate_type == "bin"@ || crate_type == "proc-macro"@;
            &&& static_lib && linked ==> declaration == file + seq!['.', 'r', 'l', 'i', 'b']
            &&& static_lib && !linked ==> declaration == file + seq!['.', 'r', 'm', 'e', 't', 'a']
            &&& shared_lib ==> declaration == file + seq!['.', 's', 'o']
            &&& !static_lib && !shared_lib ==> declaration == file
        }),
{
    reveal_strlit("=");
    reveal_strlit("/");
    reveal_strlit(".rlib");
    reveal_strlit(".rmeta");
    reveal_strlit(".so");
    reveal_strlit("");
    reveal_strlit("lib");
    reveal_strlit("rlib");
    reveal_strlit("dylib");
    reveal_strlit("proc-macro");
    assert("lib"@.len() == 3 && "rlib"@.len() == 4 && "dylib"@.len() == 5 && "proc-macro"@.len()
        == 10);
    assert("="@ =~= seq!['=']);
    assert("/"@ =~= seq!['/']);
    assert(".rlib"@ =~= seq!['.', 'r', 'l', 'i', 'b']);
    assert(".rmeta"@ =~= seq!['.', 'r', 'm', 'e', 't', 'a']);
    assert(".so"@ =~= seq!['.', 's', 'o']);
    let file = extern_crate_name + seq!['='] + out_path + seq!['/'] + dep_base_name;
    assert(file + ""@ =~= file);
}

proof fn lemma_manifest_reaches(args: Seq<String>, from: int, i: int)
    requires
        1 <= from <= i < args.len() - 1,
        is_manifest_option(args[i]@),
        from == i || !is_manifest_option(args[i - 1]@),
        forall|j: int| i + 2 <= j < args.len() - 1 ==> !is_manifest_option((#[trigger] args[j])@),
    ensures
        manifest_position(args, from) == Some(i + 1),
    decreases i - from,
{
    if from == i {
        lemma_manifest_ends(args, i + 2);
    } else if is_manifest_option(args[from]@) {
        lemma_manifest_reaches(args, from + 2, i);
    } else {
        lemma_manifest_reaches(args, from + 1, i);
    }
}

proof fn lemma_manifest_ends(args: Seq<String>, from: int)
    requires
        forall|j: int| from <= j < args.len() - 1 ==> !is_manifest_option((#[trigger] args[j])@),
    ensures
        manifest_position(args, from) is None,
    decreases args.len() - from,
{
    if from < args.len() - 1 {
        assert(!is_manifest_option(args[from]@));
        lemma_manifest_ends(args, from + 1);
    }
}

/// The manifest path stands behind the last `-m` or `--manifest-path`, whatever the other
/// arguments are: behind one at `i`, where the argument before it is no such option, and none
/// follows once its path is passed over.
pub proof fn law_manifest_path_is_found(args: Seq<String>, i: int)
    requires
        1 <= i < args.len() - 1,
        args[i]@ == "-m"@ || args[i]@ == "--manifest-path"@,
        i > 1 ==> args[i - 1]@ != "-m"@ && args[i - 1]@ != "--manifest-path"@,
        forall|j: int|
            i + 2 <= j < args.len() - 1 ==> (#[trigger] args[j])@ != "-m"@ && args[j]@
                != "--manifest-path"@,
    ensures
        manifest_position(args, 1) == Some(i + 1),
{
    lemma_manifest_reaches(args, 1, i);
}

/// The only such option, with something behind it, is found, whatever the other arguments are.
pub proof fn law_only_manifest_option_is_found(args: Seq<String>, i: int)
    requires
        1 <= i < args.len() - 1,
        forall|j: int|
            1 <= j < args.len() ==> ((#[trigger] args[j])@ == "-m"@ || args[j]@
                == "--manifest-path"@) == (j == i),
    ensures
        manifest_position(args, 1) == Some(i + 1),
{
    assert(args[i]@ == "-m"@ || args[i]@ == "--manifest-path"@);
    if i > 1 {
        assert(args[i - 1]@ != "-m"@);
    }
    law_manifest_path_is_found(args, i);
}

/// Without such an option before the last argument there is no manifest path. What is found
/// follows such an option, and is neither the program's name nor its first argument.
pub proof fn law_manifest_path_follows_its_option(args: Seq<String>)
    ensures
        (forall|j: int|
            1 <= j < args.len() - 1 ==> (#[trigger] args[j])@ != "-m"@ && args[j]@
                != "--manifest-path"@) ==> manifest_position(args, 1) is None,
        manifest_position(args, 1) is Some ==> {
            let at = manifest_position(args, 1)->0;
            &&& 2 <= at < args.len()
            &&& args[at - 1]@ == "-m"@ || args[at - 1]@ == "--manifest-path"@
        },
{
    if forall|j: int|
        1 <= j < args.len() - 1 ==> (#[trigger] args[j])@ != "-m"@ && args[j]@
            != "--manifest-path"@ {
        lemma_manifest_ends(args, 1);
    }
    lemma_manifest_follows(args, 1);
}

proof fn lemma_manifest_follows(args: Seq<String>, from: int)
    requires
        from >= 1,
    ensures
        manifest_position(args, from) is Some ==> {
            let at = manifest_position(args, from)->0;
            &&& from < at < args.len()
            &&& is_manifest_option(args[at - 1]@)
        },
    decreases args.len() - from,
{
    if from < args.len() - 1 {
        if is_manifest_option(args[from]@) {
            lemma_manifest_follows(args, from + 2);
        } else {
            lemma_manifest_follows(args, from + 1);
        }
    }
}

} // verus!
