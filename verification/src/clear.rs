use vstd::prelude::*;
use crate::text::{contains, has_substr};

verus! {

pub const STR: &'static str = "clear-cache";

/// The check that `clear-cache` makes of its arguments: it takes none.
pub fn run(args: &Vec<String>) -> (r: Result<(), String>)
    ensures
        args@.len() == 0 <==> r is Ok,
        r matches Err(e) ==> e@ == "unexpected arguments"@,
{
    if args.len() != 0 {
        return Err(String::from_str("unexpected arguments"));
    }
    Ok(())
}

/// Whether a file of an AUR repository is a built package that `clear-cache` removes:
/// its name holds `.pkg.tar.zst`.
pub fn is_built_package(file_name: &str) -> (b: bool)
    ensures
        b == has_substr(file_name@, ".pkg.tar.zst"@),
{
    contains(file_name, ".pkg.tar.zst")
}

} // verus!
