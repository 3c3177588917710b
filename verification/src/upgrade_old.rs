use vstd::prelude::*;

verus! {

pub const STR: &'static str = "upgrade-old";

/// The check that `upgrade-old` makes of its arguments before it upgrades: it takes none.
pub fn run(args: &Vec<String>) -> (r: Result<(), String>)
    ensures
        args@.len() == 0 <==> r is Ok,
        r matches Err(e) ==> e@ == "unexpected arguments"@,
{
    if args.len() != 0 {
        return Err(String::from_str("unexpected arguments"));
    }
    Ok(())
}

} // verus!
