//! How a file is read and where its rewriting goes.

use vstd::prelude::*;

verus! {

/// How many bytes are read from a stream at a time.
pub const BUFFER_SIZE: usize = 1024;

/// What follows a file's name in the name of its rewriting.
pub const TARGET_SUFFIX: &'static str = ".depoch";

/// The name of the file that the rewriting of the file `file_name` goes to.
pub fn target_file_name(file_name: &String) -> (target: String)
    ensures
        target@ == file_name@ + TARGET_SUFFIX@,
{
    let mut target = file_name.clone();
    target.append(TARGET_SUFFIX);
    target
}

} // verus!
