use vstd::prelude::*;
use crate::command::{ShellCommand, owned, push_str};
use crate::text::views;

verus! {

/// The flags that `makepkg` is run with, and the directory it runs in (the current one
/// when empty).
pub struct Makepkg {
    pub cwd: String,
    pub nobuild: bool,
    pub noextract: bool,
    pub force: bool,
    pub packagelist: bool,
    pub cleanbuild: bool,
    pub clean: bool,
}

/// Every flag off, run in the current directory.
pub open spec fn is_default(m: Makepkg) -> bool {
    &&& m.cwd@ == Seq::<char>::empty()
    &&& !m.nobuild
    &&& !m.noextract
    &&& !m.force
    &&& !m.packagelist
    &&& !m.cleanbuild
    &&& !m.clean
}

impl Default for Makepkg {
    fn default() -> (m: Self)
        ensures
            is_default(m),
    {
        Makepkg {
            cwd: String::new(),
            nobuild: false,
            noextract: false,
            force: false,
            packagelist: false,
            cleanbuild: false,
            clean: false,
        }
    }
}

/// `seq![flag]` when `on`, else nothing.
pub open spec fn flag_if(on: bool, flag: Seq<char>) -> Seq<Seq<char>> {
    if on {
        seq![flag]
    } else {
        seq![]
    }
}

/// The arguments of `makepkg` for the flags of `m`, in this order: `--force`,
/// `--nobuild`, `--noextract`, `--packagelist`, `--cleanbuild`, `--clean`.
pub open spec fn makepkg_args(m: Makepkg) -> Seq<Seq<char>> {
    flag_if(m.force, "--force"@) + flag_if(m.nobuild, "--nobuild"@) + flag_if(
        m.noextract,
        "--noextract"@,
    ) + flag_if(m.packagelist, "--packagelist"@) + flag_if(m.cleanbuild, "--cleanbuild"@)
        + flag_if(m.clean, "--clean"@)
}

/// `makepkg` with the arguments of `m`, in its directory.
pub open spec fn makepkg_command(m: Makepkg, quiet: bool) -> (Seq<char>, Seq<Seq<char>>, Option<Seq<char>>, bool) {
    (
        "makepkg"@,
        makepkg_args(m),
        if m.cwd@.len() == 0 {
            None
        } else {
            Some(m.cwd@)
        },
        quiet,
    )
}

fn push_flag(args: &mut Vec<String>, on: bool, flag: &str)
    ensures
        views(final(args)@) == views(old(args)@) + flag_if(on, flag@),
{
    if on {
        push_str(args, flag);
    }
    assert(views(args@) =~= views(old(args)@) + flag_if(on, flag@));
}

impl Makepkg {
    pub fn new() -> (m: Self)
        ensures
            is_default(m),
    {
        Makepkg { ..Default::default() }
    }

    fn get_args(&self) -> (args: Vec<String>)
        ensures
            views(args@) == makepkg_args(*self),
    {
        let mut args: Vec<String> = Vec::new();
        push_flag(&mut args, self.force, "--force");
        push_flag(&mut args, self.nobuild, "--nobuild");
        push_flag(&mut args, self.noextract, "--noextract");
        push_flag(&mut args, self.packagelist, "--packagelist");
        push_flag(&mut args, self.cleanbuild, "--cleanbuild");
        push_flag(&mut args, self.clean, "--clean");
        assert(views(args@) =~= makepkg_args(*self));
        args
    }

    fn command(&self, quiet: bool) -> (c: ShellCommand)
        ensures
            c@ == makepkg_command(*self, quiet),
    {
        let cwd = if self.cwd.as_str().unicode_len() == 0 {
            None
        } else {
            Some(self.cwd.clone())
        };
        ShellCommand { program: owned("makepkg"), args: self.get_args(), cwd, quiet }
    }

    /// The command whose exit status is read.
    pub fn status(&self) -> (c: ShellCommand)
        ensures
            c@ == makepkg_command(*self, false),
    {
        self.command(false)
    }

    /// The command whose exit status is read, with standard input and output closed.
    pub fn status_mute(&self) -> (c: ShellCommand)
        ensures
            c@ == makepkg_command(*self, true),
    {
        self.command(true)
    }

    /// The command whose output is read.
    pub fn output(&self) -> (c: ShellCommand)
        ensures
            c@ == makepkg_command(*self, false),
    {
        self.command(false)
    }
}

} // verus!
