use vstd::prelude::*;
use crate::text::str_eq;

verus! {

/// The commands that `run` dispatches to.
#[derive(Debug, Clone, Copy, PartialEq, Eq, Structural)]
pub enum Cmd {
    Search,
    Sync,
    Upgrade,
    Update,
    Clear,
    Help,
}

/// The command named by the second argument (the first is the program), with the
/// arguments after it.
pub open spec fn command_spec(args: Seq<String>) -> Result<(Cmd, Seq<Seq<char>>), Seq<char>> {
    if args.len() < 2 {
        Err("no command specified"@)
    } else {
        let c = args[1]@;
        let rest = crate::text::views(args.skip(2));
        if c == "search"@ {
            Ok((Cmd::Search, rest))
        } else if c == "sync"@ {
            Ok((Cmd::Sync, rest))
        } else if c == "upgrade"@ {
            Ok((Cmd::Upgrade, rest))
        } else if c == "update-pkg-list"@ {
            Ok((Cmd::Update, rest))
        } else if c == "clear-cache"@ {
            Ok((Cmd::Clear, rest))
        } else if c == "help"@ {
            Ok((Cmd::Help, rest))
        } else {
            Err("invalid command `"@ + c + "`"@)
        }
    }
}

/// Reads the command line `args` (the program's name first).
pub fn parse_command(args: &Vec<String>) -> (r: Result<(Cmd, Vec<String>), String>)
    ensures
        match r {
            Ok((c, rest)) => command_spec(args@) == Ok::<(Cmd, Seq<Seq<char>>), Seq<char>>((c, crate::text::views(rest@))),
            Err(e) => command_spec(args@) == Err::<(Cmd, Seq<Seq<char>>), Seq<char>>(e@),
        },
{
    if args.len() < 2 {
        return Err(String::from_str("no command specified"));
    }
    let c = args[1].as_str();
    let cmd = if str_eq(c, "search") {
        Cmd::Search
    } else if str_eq(c, "sync") {
        Cmd::Sync
    } else if str_eq(c, "upgrade") {
        Cmd::Upgrade
    } else if str_eq(c, "update-pkg-list") {
        Cmd::Update
    } else if str_eq(c, "clear-cache") {
        Cmd::Clear
    } else if str_eq(c, "help") {
        Cmd::Help
    } else {
        let mut e = String::from_str("invalid command `");
        e.append(c);
        e.append("`");
        return Err(e);
    };
    let mut rest: Vec<String> = Vec::new();
    let mut i: usize = 2;
    while i < args.len()
        invariant
            2 <= i <= args@.len(),
            crate::text::views(rest@) == crate::text::views(args@.subrange(2, i as int)),
        decreases args@.len() - i,
    {
        let x = args[i].clone();
        assert(crate::text::views(rest@.push(x)) =~= crate::text::views(rest@).push(x@));
        rest.push(x);
        assert(crate::text::views(rest@) =~= crate::text::views(args@.subrange(2, i + 1)));
        i = i + 1;
    }
    assert(args@.subrange(2, args@.len() as int) =~= args@.skip(2));
    Ok((cmd, rest))
}

} // verus!
