//! File-system paths as text.

use vstd::prelude::*;

verus! {

/// What `Path::new(p).file_stem()` gives, as text: the last component
/// without its extension; `None` when there is no file name.
pub uninterp spec fn spec_file_stem(p: Seq<char>) -> Option<Seq<char>>;

/// `std::path::Path::file_stem`, converted to an owned string.
#[verifier::external_body]
pub fn file_stem(p: &str) -> (r: Option<String>)
    ensures
        match r {
            Some(s) => spec_file_stem(p@) == Some(s@),
            None => spec_file_stem(p@) is None,
        },
{
    std::path::Path::new(p).file_stem().and_then(|s| s.to_str()).map(|s| s.to_string())
}

/// What `Path::new(base).join(p)` gives, as text.
pub uninterp spec fn spec_path_join(base: Seq<char>, p: Seq<char>) -> Seq<char>;

/// `std::path::Path::join`, converted to an owned string.
#[verifier::external_body]
pub fn path_join(base: &str, p: &str) -> (r: String)
    ensures
        r@ == spec_path_join(base@, p@),
{
    std::path::Path::new(base).join(p).to_string_lossy().into_owned()
}

/// What `Path::new(p).file_name()` gives, as text: the last component;
/// `None` when the path ends in `..` or has no component.
pub uninterp spec fn spec_file_name(p: Seq<char>) -> Option<Seq<char>>;

/// `std::path::Path::file_name`, converted to an owned string.
#[verifier::external_body]
pub fn file_name(p: &str) -> (r: Option<String>)
    ensures
        match r {
            Some(s) => spec_file_name(p@) == Some(s@),
            None => spec_file_name(p@) is None,
        },
{
    std::path::Path::new(p).file_name().and_then(|s| s.to_str()).map(|s| s.to_string())
}

} // verus!
