use vstd::prelude::*;
use crate::text::{trim, trimmed, str_eq};

pub use crate::text::read_lines_to_strings;

verus! {

/// The text that `help` prints.
pub const HELP: &'static str = "Usage: saur <command> <arguments> ...\nAvailable commands: help search sync upgrade update-pkg-list clear-cache\n\nSearch the AUR package list:\n\tsaur search <search string>\n\nSync a package or multiple packages:\n\tsaur sync <package names> [sync flags] ...\n\nAvailable `sync` flags:\n\t--needed\n\t--asdeps\n\t--asexplicit\n\t--force|-f\n\nUpgrade system and AUR packages:\n\tsaur upgrade\n\nUpdate the AUR package list:\n\tsaur update-pkg-list\n\nClear built packages:\n\tsaur clear-cache\n\nShow this help message:\n\tsaur help\n";

/// Whether the answer read at the `Accept [Y/n]` prompt accepts: empty or `y` once
/// trimmed.
pub fn accepts(answer: &str) -> (b: bool)
    ensures
        b == (trimmed(answer@) == Seq::<char>::empty() || trimmed(answer@) == "y"@),
{
    let t = trim(answer);
    proof {
        reveal_strlit("");
    }
    assert(""@ =~= Seq::<char>::empty());
    str_eq(t.as_str(), "") || str_eq(t.as_str(), "y")
}

} // verus!
