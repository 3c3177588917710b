use vstd::prelude::*;

verus! {

pub const STR: &'static str = "gen-config";

/// The check that `gen-config` makes of its arguments: it takes none.
pub fn run(args: &Vec<String>) -> (r: Result<(), String>)
    ensures
        args@.len() == 0 <==> r is Ok,
        r matches Err(e) ==> e@ == "Unexpected arguments"@,
{
    if args.len() > 0 {
        return Err(String::from_str("Unexpected arguments"));
    }
    Ok(())
}

} // verus!
