use vstd::prelude::*;
use crate::command::{ShellCommand, owned, push_str};
use crate::makepkg::flag_if;
use crate::text::views;

verus! {

/// Built package files to install with `pacman -U`, and how.
pub struct InstallInfo {
    pub pkg_paths: Vec<String>,
    pub needed: bool,
    pub asdeps: bool,
    pub asexplicit: bool,
}

impl View for InstallInfo {
    type V = (Seq<Seq<char>>, bool, bool, bool);

    open spec fn view(&self) -> Self::V {
        (views(self.pkg_paths@), self.needed, self.asdeps, self.asexplicit)
    }
}

/// `pacman`, run through `sudo`; `yes` answers its questions.
pub struct Pacman {
    pub yes: bool,
}

/// The flags of `pacman -U` for `info`: `--asdeps`, `--asexplicit`, `--needed`.
pub open spec fn install_args(info: (Seq<Seq<char>>, bool, bool, bool)) -> Seq<Seq<char>> {
    flag_if(info.2, "--asdeps"@) + flag_if(info.3, "--asexplicit"@) + flag_if(info.1, "--needed"@)
}

/// `sudo pacman -U [--noconfirm] <flags> -- <files>`.
pub open spec fn install_command(yes: bool, info: (Seq<Seq<char>>, bool, bool, bool)) -> (Seq<char>, Seq<Seq<char>>, Option<Seq<char>>, bool) {
    (
        "sudo"@,
        seq!["pacman"@, "-U"@] + flag_if(yes, "--noconfirm"@) + install_args(info) + seq!["--"@]
            + info.0,
        None,
        false,
    )
}

#[allow(non_snake_case)]
impl Pacman {
    /// `sudo pacman -Syu`.
    pub fn Syu_status() -> (c: ShellCommand)
        ensures
            c@ == ("sudo"@, seq!["pacman"@, "-Syu"@], None::<Seq<char>>, false),
    {
        let mut a: Vec<String> = Vec::new();
        push_str(&mut a, "pacman");
        push_str(&mut a, "-Syu");
        assert(views(a@) =~= seq!["pacman"@, "-Syu"@]);
        ShellCommand { program: owned("sudo"), args: a, cwd: None, quiet: false }
    }

    /// Installs the files of `install_info`.
    pub fn U_all_status(&self, install_info: &InstallInfo) -> (c: ShellCommand)
        ensures
            c@ == install_command(self.yes, install_info@),
    {
        let mut a: Vec<String> = Vec::new();
        push_str(&mut a, "pacman");
        push_str(&mut a, "-U");
        if self.yes {
            push_str(&mut a, "--noconfirm");
        }
        let flags = Self::get_args(install_info);
        let mut i: usize = 0;
        let ghost start = views(a@);
        assert(start =~= seq!["pacman"@, "-U"@] + flag_if(self.yes, "--noconfirm"@));
        while i < flags.len()
            invariant
                i <= flags@.len(),
                views(a@) == start + views(flags@).take(i as int),
            decreases flags@.len() - i,
        {
            push_str(&mut a, flags[i].as_str());
            assert(views(a@) =~= start + views(flags@).take(i + 1));
            i = i + 1;
        }
        push_str(&mut a, "--");
        let ghost mid = views(a@);
        assert(views(flags@).take(flags@.len() as int) =~= views(flags@));
        let mut j: usize = 0;
        while j < install_info.pkg_paths.len()
            invariant
                j <= install_info.pkg_paths@.len(),
                views(a@) == mid + views(install_info.pkg_paths@).take(j as int),
            decreases install_info.pkg_paths@.len() - j,
        {
            push_str(&mut a, install_info.pkg_paths[j].as_str());
            assert(views(a@) =~= mid + views(install_info.pkg_paths@).take(j + 1));
            j = j + 1;
        }
        assert(views(install_info.pkg_paths@).take(install_info.pkg_paths@.len() as int) =~= views(install_info.pkg_paths@));
        assert(views(a@) =~= install_command(self.yes, install_info@).1);
        ShellCommand { program: owned("sudo"), args: a, cwd: None, quiet: false }
    }

    fn get_args(install_info: &InstallInfo) -> (args: Vec<String>)
        ensures
            views(args@) == install_args(install_info@),
    {
        let mut args: Vec<String> = Vec::new();
        if install_info.asdeps {
            push_str(&mut args, "--asdeps");
        }
        if install_info.asexplicit {
            push_str(&mut args, "--asexplicit");
        }
        if install_info.needed {
            push_str(&mut args, "--needed");
        }
        assert(views(args@) =~= install_args(install_info@));
        args
    }
}

} // verus!
