//! File-system paths, held as strings.

use vstd::prelude::*;
use std::path::Path;

verus! {

/// The final component of a path, as `std::path::Path::file_name` gives it.
pub uninterp spec fn path_file_name(p: Seq<char>) -> Option<Seq<char>>;

/// The extension of a path's file name, as `std::path::Path::extension` gives it.
pub uninterp spec fn path_extension(p: Seq<char>) -> Option<Seq<char>>;

/// `Path::file_name`, as a `String`.
#[verifier::external_body]
pub fn file_name(p: &str) -> (r: Option<String>)
    ensures
        match r {
            Some(n) => path_file_name(p@) == Some(n@),
            None => path_file_name(p@).is_none(),
        },
{
    Path::new(p).file_name().map(|n| n.to_string_lossy().into_owned())
}

/// `Path::extension`, as a `String`.
#[verifier::external_body]
pub fn extension(p: &str) -> (r: Option<String>)
    ensures
        match r {
            Some(n) => path_extension(p@) == Some(n@),
            None => path_extension(p@).is_none(),
        },
{
    Path::new(p).extension().map(|n| n.to_string_lossy().into_owned())
}

} // verus!
