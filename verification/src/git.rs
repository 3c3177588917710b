use vstd::prelude::*;
use crate::command::{ShellCommand, owned, push_str};

verus! {

/// `git`, run in a repository directory.
pub struct Git {
    cwd: String,
}

impl View for Git {
    type V = Seq<char>;

    closed spec fn view(&self) -> Seq<char> {
        self.cwd@
    }
}

/// `git` with the arguments `args`, run in `cwd`.
pub open spec fn git_command(cwd: Seq<char>, args: Seq<Seq<char>>, quiet: bool) -> (Seq<char>, Seq<Seq<char>>, Option<Seq<char>>, bool) {
    ("git"@, args, Some(cwd), quiet)
}

impl Git {
    pub fn cwd(cwd: String) -> (g: Self)
        ensures
            g@ == cwd@,
    {
        Git { cwd }
    }

    fn command(&self, args: Vec<String>, quiet: bool) -> (c: ShellCommand)
        ensures
            c@ == git_command(self@, crate::text::views(args@), quiet),
    {
        ShellCommand { program: owned("git"), args, cwd: Some(self.cwd.clone()), quiet }
    }

    /// `git diff HEAD FETCH_HEAD --color=always`, whose output is read.
    pub fn diff_fetch_color(&self) -> (c: ShellCommand)
        ensures
            c@ == git_command(self@, seq!["diff"@, "HEAD"@, "FETCH_HEAD"@, "--color=always"@], false),
    {
        let mut a: Vec<String> = Vec::new();
        push_str(&mut a, "diff");
        push_str(&mut a, "HEAD");
        push_str(&mut a, "FETCH_HEAD");
        push_str(&mut a, "--color=always");
        assert(crate::text::views(a@) =~= seq!["diff"@, "HEAD"@, "FETCH_HEAD"@, "--color=always"@]);
        self.command(a, false)
    }

    /// `git fetch`.
    pub fn fetch(&self) -> (c: ShellCommand)
        ensures
            c@ == git_command(self@, seq!["fetch"@], false),
    {
        let mut a: Vec<String> = Vec::new();
        push_str(&mut a, "fetch");
        assert(crate::text::views(a@) =~= seq!["fetch"@]);
        self.command(a, false)
    }

    /// `git reset --hard origin`.
    pub fn reset_hard_origin(&self) -> (c: ShellCommand)
        ensures
            c@ == git_command(self@, seq!["reset"@, "--hard"@, "origin"@], false),
    {
        let mut a: Vec<String> = Vec::new();
        push_str(&mut a, "reset");
        push_str(&mut a, "--hard");
        push_str(&mut a, "origin");
        assert(crate::text::views(a@) =~= seq!["reset"@, "--hard"@, "origin"@]);
        self.command(a, false)
    }

    /// `git reset --hard origin` with standard input and output closed (errors still shown).
    pub fn reset_hard_origin_mute(&self) -> (c: ShellCommand)
        ensures
            c@ == git_command(self@, seq!["reset"@, "--hard"@, "origin"@], true),
    {
        let mut a: Vec<String> = Vec::new();
        push_str(&mut a, "reset");
        push_str(&mut a, "--hard");
        push_str(&mut a, "origin");
        assert(crate::text::views(a@) =~= seq!["reset"@, "--hard"@, "origin"@]);
        self.command(a, true)
    }

    /// `git clone url`.
    pub fn clone(&self, url: &str) -> (c: ShellCommand)
        ensures
            c@ == git_command(self@, seq!["clone"@, url@], false),
    {
        let mut a: Vec<String> = Vec::new();
        push_str(&mut a, "clone");
        push_str(&mut a, url);
        assert(crate::text::views(a@) =~= seq!["clone"@, url@]);
        self.command(a, false)
    }
}

} // verus!
