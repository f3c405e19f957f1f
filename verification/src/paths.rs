//! File paths. The library carries the path of a file beside what it says of
//! the file, and never looks into it.

use std::path::PathBuf;
use vstd::prelude::*;

verus! {

/// `std::path::PathBuf`. Nothing inside it is seen here.
#[verifier::external_type_specification]
#[verifier::external_body]
pub struct ExPathBuf(std::path::PathBuf);

/// `Clone` of `PathBuf`: the copy is the same path.
pub assume_specification[ <PathBuf as Clone>::clone ](path: &PathBuf) -> (r: PathBuf)
    ensures
        r == *path,
;

} // verus!
