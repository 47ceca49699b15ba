//! Which grammar, if any, reads a file: decided from the extension of its path.

use vstd::prelude::*;
use crate::text::str_equals;

verus! {

/// A grammar family that can parse a file into a syntax tree.
#[derive(Clone, Copy, Debug, PartialEq, Eq, Structural)]
pub enum Grammar {
    C,
    Cpp,
}

/// How a file is to be read.
#[derive(Clone, Copy, Debug, PartialEq, Eq, Structural)]
pub enum Detection {
    /// The extension belongs to a grammar: the file is parsed.
    Known(Grammar),
    /// The extension belongs to no grammar: the file is one chunk.
    Opaque,
    /// The path has no extension: the file is skipped.
    NoExtension,
}

/// The grammar that an extension selects. Letter case matters: `"C"` selects none.
pub open spec fn grammar_of_extension(ext: Seq<char>) -> Option<Grammar> {
    if ext == "c"@ {
        Some(Grammar::C)
    } else if ext == "cpp"@ || ext == "cxx"@ || ext == "cc"@ || ext == "hpp"@ || ext == "hxx"@
        || ext == "h"@ {
        Some(Grammar::Cpp)
    } else {
        None
    }
}

/// What is decided for a file whose path has the extension `ext`, or none.
pub open spec fn detection_of(ext: Option<Seq<char>>) -> Detection {
    match ext {
        None => Detection::NoExtension,
        Some(e) => match grammar_of_extension(e) {
            Some(g) => Detection::Known(g),
            None => Detection::Opaque,
        },
    }
}

/// What follows the last `/` of a path; all of it where it has none.
pub open spec fn after_last_slash(path: Seq<char>) -> Seq<char>
    decreases path.len(),
{
    if path.len() == 0 || path.last() == '/' {
        Seq::empty()
    } else {
        after_last_slash(path.drop_last()).push(path.last())
    }
}

/// What a path can end in as the name of a file: not empty, and not the
/// single dot, which stands for the directory before it.
pub open spec fn is_file_name(name: Seq<char>) -> bool {
    name.len() > 0 && !(name.len() == 1 && name[0] == '.')
}

/// A path whose last component is found the same way wherever it is read:
/// its directories are separated by `/`, it has no `\` and no `:`, it
/// does not begin with two separators, and it ends in a file name.
pub open spec fn is_plain_path(path: Seq<char>) -> bool {
    &&& !path.contains('\\')
    &&& !path.contains(':')
    &&& !(path.len() >= 2 && path[0] == '/' && path[1] == '/')
    &&& is_file_name(after_last_slash(path))
}

/// What follows the last dot of a name, if it has a dot. A name that ends
/// in a dot has the empty text after it.
pub open spec fn after_last_dot(name: Seq<char>) -> Option<Seq<char>>
    decreases name.len(),
{
    if name.len() == 0 {
        None
    } else if name.last() == '.' {
        Some(Seq::empty())
    } else {
        match after_last_dot(name.drop_last()) {
            None => None,
            Some(e) => Some(e.push(name.last())),
        }
    }
}

/// The extension of a file name. The name `..` has none, and neither has a
/// name whose only dot is its first character; any other name has what
/// follows its last dot, if it has a dot.
pub open spec fn extension_of_name(name: Seq<char>) -> Option<Seq<char>> {
    if name.len() == 2 && name[0] == '.' && name[1] == '.' {
        None
    } else if name.len() > 0 && name[0] == '.' && !name.drop_first().contains('.') {
        None
    } else {
        after_last_dot(name)
    }
}

/// The characters of an optional string.
pub open spec fn optional_text(s: Option<String>) -> Option<Seq<char>> {
    match s {
        None => None,
        Some(t) => Some(t@),
    }
}

/// Looks up the grammar for an extension.
pub fn grammar_for_extension(ext: &str) -> (grammar: Option<Grammar>)
    ensures
        grammar == grammar_of_extension(ext@),
{
    if str_equals(ext, "c") {
        Some(Grammar::C)
    } else if str_equals(ext, "cpp") || str_equals(ext, "cxx") || str_equals(ext, "cc")
        || str_equals(ext, "hpp") || str_equals(ext, "hxx") || str_equals(ext, "h") {
        Some(Grammar::Cpp)
    } else {
        None
    }
}

/// Decides how to read a file from the extension of its path.
pub fn classify_extension(ext: &Option<String>) -> (detection: Detection)
    ensures
        detection == detection_of(optional_text(*ext)),
{
    match ext {
        None => Detection::NoExtension,
        Some(e) => match grammar_for_extension(e.as_str()) {
            Some(g) => Detection::Known(g),
            None => Detection::Opaque,
        },
    }
}

/// `std::path::Path::extension` on a path given as text.
///
/// Believed of it, as its documentation says: the file name of a path is
/// its final component, and a path that ends in `..` has none. There is
/// no extension without a file name, without a dot in it, or where its
/// only dot is its first character; otherwise the extension is what
/// follows the last dot. This is claimed for plain paths only. Nothing is
/// claimed for a path with `\` or `:` or with two separators at its
/// start, which platforms read differently, nor for one that ends in `/`
/// or in a single dot.
#[verifier::external_body]
fn path_extension(path: &str) -> (ext: Option<String>)
    ensures
        is_plain_path(path@) ==> optional_text(ext) == extension_of_name(after_last_slash(path@)),
{
    std::path::Path::new(path).extension().map(|e| e.to_string_lossy().into_owned())
}

/// Decides how to read the file at `path`.
///
/// For a plain path the decision follows from the extension of its file
/// name. For any other path the platform's path rules find the extension,
/// and `classify_extension` says what is decided for each one they can find.
pub fn detect_language(path: &str) -> (detection: Detection)
    ensures
        is_plain_path(path@) ==> detection == detection_of(
            extension_of_name(after_last_slash(path@)),
        ),
{
    let ext = path_extension(path);
    classify_extension(&ext)
}

} // verus!
