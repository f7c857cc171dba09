//! Paths as texts, read by the rules of `std::path`.

use vstd::prelude::*;

verus! {

/// The stem of the last component of a path, as `std::path::Path::file_stem`
/// gives it: the file name without its extension, if the path has a file name.
pub uninterp spec fn stem_of(path: Seq<char>) -> Option<Seq<char>>;

/// The stem of the last component of `path`: the file name without its
/// extension, if the path has a file name.
///
/// Calls `std::path::Path::file_stem`. Not proved: that the result is the
/// one `stem_of` stands for, that is, that it depends on the text of the
/// path alone.
#[verifier::external_body]
pub(crate) fn file_stem(path: &str) -> (stem: Option<String>)
    ensures
        match stem {
            Some(s) => stem_of(path@) == Some(s@),
            None => stem_of(path@) is None,
        },
{
    std::path::Path::new(path).file_stem().map(|s| s.to_string_lossy().into_owned())
}

/// The path of `name` below `base`, as `std::path::Path::join` gives it.
pub uninterp spec fn joined_path(base: Seq<char>, name: Seq<char>) -> Seq<char>;

/// The path of `name` below `base`.
///
/// Calls `std::path::Path::join`. Not proved: that the result is the one
/// `joined_path` stands for, that is, that it depends on the texts of the
/// two paths alone.
#[verifier::external_body]
pub(crate) fn join(base: &str, name: &str) -> (path: String)
    ensures
        path@ == joined_path(base@, name@),
{
    std::path::Path::new(base).join(name).to_string_lossy().into_owned()
}

/// The path with `extension` as the extension of its file name, as
/// `std::path::Path::with_extension` gives it.
pub uninterp spec fn extended_path(path: Seq<char>, extension: Seq<char>) -> Seq<char>;

/// The path with `extension` as the extension of its file name. The
/// extension holds no path separator: with one the call does not return.
///
/// Calls `std::path::Path::with_extension`. Not proved: that the result is
/// the one `extended_path` stands for, that is, that it depends on the
/// texts of the path and of the extension alone.
#[verifier::external_body]
pub(crate) fn with_extension(path: &str, extension: &str) -> (out: String)
    requires
        forall|i: int|
            0 <= i < extension@.len() ==> extension@[i] != '/' && extension@[i] != '\\',
    ensures
        out@ == extended_path(path@, extension@),
{
    std::path::Path::new(path).with_extension(extension).to_string_lossy().into_owned()
}

/// The extension of the file name of a path, as
/// `std::path::Path::extension` gives it.
pub uninterp spec fn extension_of(path: Seq<char>) -> Option<Seq<char>>;

/// The extension of the file name of `path`, if it has one.
///
/// Calls `std::path::Path::extension`. Not proved: that the result is the
/// one `extension_of` stands for, that is, that it depends on the text of
/// the path alone.
#[verifier::external_body]
pub(crate) fn extension(path: &str) -> (extension: Option<String>)
    ensures
        match extension {
            Some(e) => extension_of(path@) == Some(e@),
            None => extension_of(path@) is None,
        },
{
    std::path::Path::new(path).extension().map(|e| e.to_string_lossy().into_owned())
}

} // verus!
