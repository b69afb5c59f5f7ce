//! What the commands of the desktop shell compute, apart from the reading
//! and writing around it.

use vstd::prelude::*;
use vstd::string::*;
use crate::text::{join, join_strings, views_of};

verus! {

/// The names of the folders of a directory as one text, separated by commas.
pub fn folder_listing(names: &Vec<String>) -> (listing: String)
    ensures
        listing@ == join(views_of(names@), seq![',']),
{
    proof {
        reveal_strlit(",");
        assert(","@ =~= seq![',']);
    }
    join_strings(names, ",")
}

/// Whether an entry of an archive stands for a directory: its name ends with
/// a slash.
pub fn is_directory_entry(name: &str) -> (directory: bool)
    ensures
        directory == (name@.len() > 0 && name@.last() == '/'),
{
    let n = name.unicode_len();
    n > 0 && name.get_char(n - 1) == '/'
}

/// The size of a memory of `total_bytes` bytes in whole mebibytes, cut to 32
/// bits.
pub fn mebibytes(total_bytes: u64) -> (size: u32)
    ensures
        size == (total_bytes / 1024 / 1024) % 0x1_0000_0000,
{
    let whole: u64 = total_bytes / 1024 / 1024;
    (whole % 0x1_0000_0000) as u32
}

} // verus!
