use vstd::prelude::*;
use crate::bash::{Bash, bash_command};
use crate::build::PkgInfo;
use crate::command::ShellCommand;
use crate::git::{Git, git_command};
use crate::globals::{join, path_join};
use crate::makepkg::{Makepkg, flag_if};
use crate::text::{trim, trimmed, keep, views};

verus! {

/// The script that prints the full version (`epoch:pkgver-pkgrel`) of the package
/// whose `PKGBUILD` is in the current directory.
pub const GET_FULL_VERSION: &'static str = "\nsource PKGBUILD\nsource /usr/share/makepkg/util/pkgbuild.sh\nget_full_version\n";

/// The order of two versions as `alpm::vercmp` gives it.
#[derive(PartialEq, Eq, Structural, Clone, Copy, Debug)]
pub enum VerCmp {
    Less,
    Equal,
    Greater,
}

/// What became of the last step of checking a package for a newer version.
pub enum VerEvent {
    Start,
    /// Whether `git reset --hard origin` succeeded.
    ResetExited(bool),
    /// Whether `makepkg --nobuild` succeeded.
    MakepkgExited(bool),
    /// The exit and the output of the version script.
    VersionOutput { success: bool, stdout: String },
    /// The order of the installed version to the version in the repository.
    Compared(VerCmp),
}

/// What checking a package for a newer version found.
#[derive(PartialEq, Eq, Structural, Clone, Copy, Debug)]
pub enum VerOutcome {
    /// A step failed.
    Failed,
    /// The repository holds a newer version.
    Upgrade,
    /// The versions are the same.
    Same,
    /// The installed version is the higher one.
    Higher,
}

/// The next step of checking a package for a newer version.
pub enum VerAction {
    /// Run `git reset` and report whether it succeeded.
    Reset(ShellCommand),
    /// Run `makepkg --nobuild` and report whether it succeeded.
    Prepare(ShellCommand),
    /// Run the script that prints the version and report its outcome and output.
    Version(ShellCommand),
    /// Compare the two versions with `alpm::vercmp`.
    Compare { old: String, new: String },
    Done(VerOutcome),
}

pub enum VerStep {
    Reset((Seq<char>, Seq<Seq<char>>, Option<Seq<char>>, bool)),
    Prepare((Seq<char>, Seq<Seq<char>>, Option<Seq<char>>, bool)),
    Version((Seq<char>, Seq<Seq<char>>, Option<Seq<char>>, bool)),
    Compare(Seq<char>, Seq<char>),
    Done(VerOutcome),
}

impl View for VerAction {
    type V = VerStep;

    open spec fn view(&self) -> VerStep {
        match self {
            VerAction::Reset(c) => VerStep::Reset(c@),
            VerAction::Prepare(c) => VerStep::Prepare(c@),
            VerAction::Version(c) => VerStep::Version(c@),
            VerAction::Compare { old, new } => VerStep::Compare(old@, new@),
            VerAction::Done(o) => VerStep::Done(*o),
        }
    }
}

/// The step of checking the package `name`, installed at version `old`, for a newer
/// version in its repository under `clone_path`, after `event`: reset the repository
/// quietly, run `makepkg --nobuild` quietly, print the repository's full version,
/// compare it (trimmed) with `old`. Any failed step ends the check.
pub open spec fn ver_spec(clone_path: Seq<char>, name: Seq<char>, old: Seq<char>, event: VerEvent) -> VerStep {
    let cwd = path_join(clone_path, name);
    match event {
        VerEvent::Start => VerStep::Reset(git_command(cwd, seq!["reset"@, "--hard"@, "origin"@], true)),
        VerEvent::ResetExited(ok) => if ok {
            VerStep::Prepare(("makepkg"@, flag_if(true, "--nobuild"@), if cwd.len() == 0 { None } else { Some(cwd) }, true))
        } else {
            VerStep::Done(VerOutcome::Failed)
        },
        VerEvent::MakepkgExited(ok) => if ok {
            VerStep::Version(bash_command(cwd, GET_FULL_VERSION@))
        } else {
            VerStep::Done(VerOutcome::Failed)
        },
        VerEvent::VersionOutput { success, stdout } => if success {
            VerStep::Compare(old, trimmed(stdout@))
        } else {
            VerStep::Done(VerOutcome::Failed)
        },
        VerEvent::Compared(c) => VerStep::Done(
            match c {
                VerCmp::Less => VerOutcome::Upgrade,
                VerCmp::Equal => VerOutcome::Same,
                VerCmp::Greater => VerOutcome::Higher,
            },
        ),
    }
}

/// Checks the package of `pv`, whose installed version is `pv.1`, for a newer version
/// in its AUR repository under `clone_path`. A package without a version cannot be
/// checked.
pub fn get_pkg_to_upgrade(clone_path: &str, pv: &(PkgInfo, Option<String>), event: VerEvent) -> (a: VerAction)
    requires
        pv.1 is Some,
    ensures
        a@ == ver_spec(clone_path@, pv.0.name@, pv.1->0@, event),
{
    let old_ver = match &pv.1 {
        Some(v) => v,
        None => {
            assert(false);
            return VerAction::Done(VerOutcome::Failed);
        },
    };
    let cwd = join(clone_path, pv.0.name.as_str());
    match event {
        VerEvent::Start => VerAction::Reset(Git::cwd(cwd).reset_hard_origin_mute()),
        VerEvent::ResetExited(ok) => {
            if ok {
                let m = Makepkg { cwd, nobuild: true, ..Default::default() };
                let c = m.status_mute();
                assert(c@.1 =~= flag_if(true, "--nobuild"@));
                VerAction::Prepare(c)
            } else {
                VerAction::Done(VerOutcome::Failed)
            }
        },
        VerEvent::MakepkgExited(ok) => {
            if ok {
                VerAction::Version(Bash::cwd(cwd).output(GET_FULL_VERSION))
            } else {
                VerAction::Done(VerOutcome::Failed)
            }
        },
        VerEvent::VersionOutput { success, stdout } => {
            if success {
                VerAction::Compare { old: old_ver.clone(), new: trim(stdout.as_str()) }
            } else {
                VerAction::Done(VerOutcome::Failed)
            }
        },
        VerEvent::Compared(c) => VerAction::Done(
            match c {
                VerCmp::Less => VerOutcome::Upgrade,
                VerCmp::Equal => VerOutcome::Same,
                VerCmp::Greater => VerOutcome::Higher,
            },
        ),
    }
}

/// The names of `results` whose check found `o`, in order.
pub open spec fn names_with(results: Seq<(String, VerOutcome)>, o: VerOutcome) -> Seq<Seq<char>> {
    keep(results, |r: (String, VerOutcome)| r.1 == o).map_values(|r: (String, VerOutcome)| r.0@)
}

/// Sorts checked packages by what their check found: those with a newer version, to
/// upgrade; those whose installed version is the higher one, to report; and those
/// whose check failed; each in the order of `results`. Those with the same version
/// are left out.
pub fn sort_versions(results: &Vec<(String, VerOutcome)>) -> (r: (Vec<String>, Vec<String>, Vec<String>))
    ensures
        views(r.0@) == names_with(results@, VerOutcome::Upgrade),
        views(r.1@) == names_with(results@, VerOutcome::Higher),
        views(r.2@) == names_with(results@, VerOutcome::Failed),
{
    let ghost rs = results@;
    let mut up: Vec<String> = Vec::new();
    let mut higher: Vec<String> = Vec::new();
    let mut failed: Vec<String> = Vec::new();
    let mut i: usize = 0;
    assert(rs.take(0) =~= Seq::<(String, VerOutcome)>::empty());
    while i < results.len()
        invariant
            rs == results@,
            i <= rs.len(),
            views(up@) == names_with(rs.take(i as int), VerOutcome::Upgrade),
            views(higher@) == names_with(rs.take(i as int), VerOutcome::Higher),
            views(failed@) == names_with(rs.take(i as int), VerOutcome::Failed),
        decreases rs.len() - i,
    {
        let n = results[i].0.clone();
        let o = results[i].1;
        proof {
            assert(rs.take(i + 1).drop_last() =~= rs.take(i as int));
            assert(rs.take(i + 1).last() == rs[i as int]);
        }
        match o {
            VerOutcome::Upgrade => {
                assert(views(up@.push(n)) =~= views(up@).push(n@));
                up.push(n);
            },
            VerOutcome::Higher => {
                assert(views(higher@.push(n)) =~= views(higher@).push(n@));
                higher.push(n);
            },
            VerOutcome::Failed => {
                assert(views(failed@.push(n)) =~= views(failed@).push(n@));
                failed.push(n);
            },
            VerOutcome::Same => {},
        }
        assert(views(up@) =~= names_with(rs.take(i + 1), VerOutcome::Upgrade));
        assert(views(higher@) =~= names_with(rs.take(i + 1), VerOutcome::Higher));
        assert(views(failed@) =~= names_with(rs.take(i + 1), VerOutcome::Failed));
        i = i + 1;
    }
    assert(rs.take(rs.len() as int) =~= rs);
    (up, higher, failed)
}

/// A package is marked for upgrade exactly when its installed version is older than
/// the one in its repository; equal versions leave it as it is, and a higher
/// installed version is reported.
pub proof fn lemma_upgrade_only_when_older(clone_path: Seq<char>, name: Seq<char>, old: Seq<char>, c: VerCmp)
    ensures
        ver_spec(clone_path, name, old, VerEvent::Compared(c)) == VerStep::Done(VerOutcome::Upgrade) <==> c == VerCmp::Less,
        ver_spec(clone_path, name, old, VerEvent::Compared(c)) == VerStep::Done(VerOutcome::Same) <==> c == VerCmp::Equal,
        ver_spec(clone_path, name, old, VerEvent::Compared(c)) == VerStep::Done(VerOutcome::Higher) <==> c == VerCmp::Greater,
{
}

} // verus!
