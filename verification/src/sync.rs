use vstd::prelude::*;
use crate::build::PkgInfo;
use crate::text::{str_eq, substring, keep, views};
use crate::alpm::in_list;
use crate::fetch::is_in_pkgbases;
use crate::command::ShellCommand;
use crate::git::{Git, git_command};
use crate::globals::{join, path_join};
use crate::pacman::{InstallInfo, Pacman, install_command};

verus! {

/// The flags in force while the arguments of `sync` are read.
pub struct State {
    pub needed: bool,
    pub asdeps: bool,
    pub asexplicit: bool,
    pub force: bool,
}

impl View for State {
    type V = (bool, bool, bool, bool);

    open spec fn view(&self) -> Self::V {
        (self.needed, self.asdeps, self.asexplicit, self.force)
    }
}

impl State {
    pub fn new() -> (s: Self)
        ensures
            s@ == (false, false, false, false),
    {
        State { needed: false, asdeps: false, asexplicit: false, force: false }
    }
}

/// `a` is one of the flags that `sync` knows.
pub open spec fn is_known_flag(a: Seq<char>) -> bool {
    ||| a == "--needed"@
    ||| a == "--no-needed"@
    ||| a == "--asdeps"@
    ||| a == "--no-asdeps"@
    ||| a == "--asexplicit"@
    ||| a == "--no-asexplicit"@
    ||| a == "-f"@
    ||| a == "--force"@
    ||| a == "--no-force"@
}

/// The flags after the argument `a` was read with the flags `st` in force.
pub open spec fn next_state(st: (bool, bool, bool, bool), a: Seq<char>) -> (bool, bool, bool, bool) {
    let (needed, asdeps, asexplicit, force) = st;
    if a == "--needed"@ {
        (true, asdeps, asexplicit, force)
    } else if a == "--no-needed"@ {
        (false, asdeps, asexplicit, force)
    } else if a == "--asdeps"@ {
        (needed, true, false, force)
    } else if a == "--no-asdeps"@ {
        (needed, false, asexplicit, force)
    } else if a == "--asexplicit"@ {
        (needed, false, true, force)
    } else if a == "--no-asexplicit"@ {
        (needed, asdeps, false, force)
    } else if a == "-f"@ || a == "--force"@ {
        (needed, asdeps, asexplicit, true)
    } else if a == "--no-force"@ {
        (needed, asdeps, asexplicit, false)
    } else {
        st
    }
}

/// An unknown argument is read by slicing off its first byte, which leaves out an
/// empty argument and one whose first character takes more than one byte.
pub open spec fn arg_readable(a: Seq<char>) -> bool {
    is_known_flag(a) || (a.len() > 0 && (a[0] as u32) < 0x80)
}

pub open spec fn args_readable(args: Seq<String>) -> bool {
    forall|i: int| 0 <= i < args.len() ==> arg_readable(#[trigger] args[i]@)
}

/// Reading `args` from the first: the flags in force at the end, the packages named
/// (each with the flags in force where it is named), and the unknown flags (without
/// their leading `-`).
pub open spec fn parse_spec(args: Seq<String>) -> (
    (bool, bool, bool, bool),
    Seq<(Seq<char>, bool, bool, bool, bool)>,
    Seq<Seq<char>>,
)
    decreases args.len(),
{
    if args.len() == 0 {
        ((false, false, false, false), seq![], seq![])
    } else {
        let (st, infos, errs) = parse_spec(args.drop_last());
        let a = args.last()@;
        if is_known_flag(a) {
            (next_state(st, a), infos, errs)
        } else if a.len() > 0 && a[0] == '-' {
            (st, infos, errs.push(a.drop_first()))
        } else {
            (st, infos.push((a, st.0, st.1, st.2, st.3)), errs)
        }
    }
}

/// The message that lists the unknown flags `errs`.
pub open spec fn flags_message(errs: Seq<Seq<char>>) -> Seq<char>
    decreases errs.len(),
{
    if errs.len() == 0 {
        "unexpected flags:"@
    } else {
        flags_message(errs.drop_last()) + " `"@ + errs.last() + "`"@
    }
}

fn known_flag(arg: &str) -> (b: bool)
    ensures
        b == is_known_flag(arg@),
{
    str_eq(arg, "--needed") || str_eq(arg, "--no-needed") || str_eq(arg, "--asdeps") || str_eq(
        arg,
        "--no-asdeps",
    ) || str_eq(arg, "--asexplicit") || str_eq(arg, "--no-asexplicit") || str_eq(arg, "-f")
        || str_eq(arg, "--force") || str_eq(arg, "--no-force")
}

fn apply_flag(state: &mut State, arg: &str)
    ensures
        final(state)@ == next_state(old(state)@, arg@),
{
    if str_eq(arg, "--needed") {
        state.needed = true;
    } else if str_eq(arg, "--no-needed") {
        state.needed = false;
    } else if str_eq(arg, "--asdeps") {
        state.asexplicit = false;
        state.asdeps = true;
    } else if str_eq(arg, "--no-asdeps") {
        state.asdeps = false;
    } else if str_eq(arg, "--asexplicit") {
        state.asdeps = false;
        state.asexplicit = true;
    } else if str_eq(arg, "--no-asexplicit") {
        state.asexplicit = false;
    } else if str_eq(arg, "-f") || str_eq(arg, "--force") {
        state.force = true;
    } else if str_eq(arg, "--no-force") {
        state.force = false;
    }
}

/// The views of a sequence of package infos.
pub open spec fn infos_view(v: Seq<PkgInfo>) -> Seq<(Seq<char>, bool, bool, bool, bool)> {
    v.map_values(|p: PkgInfo| p@)
}

/// What `parse_args` gives back for `args`: the packages named, or, when some flag is
/// unknown, the message that lists the unknown flags.
pub open spec fn parse_args_spec(args: Seq<String>) -> Result<
    Seq<(Seq<char>, bool, bool, bool, bool)>,
    Seq<char>,
> {
    let (_, infos, errs) = parse_spec(args);
    if errs.len() == 0 {
        Ok(infos)
    } else {
        Err(flags_message(errs))
    }
}

pub open spec fn parse_result_view(r: Result<Vec<PkgInfo>, String>) -> Result<
    Seq<(Seq<char>, bool, bool, bool, bool)>,
    Seq<char>,
> {
    match r {
        Ok(v) => Ok(infos_view(v@)),
        Err(e) => Err(e@),
    }
}

/// Reads the arguments of `sync`: flags switch `--needed`, `--asdeps`, `--asexplicit`
/// and `--force` (also `-f`) on or off (`--no-...`) for the packages named after them;
/// `--asdeps` and `--asexplicit` switch each other off. Any other argument that starts
/// with `-` is an unknown flag, and their list is the error.
pub fn parse_args(args: Vec<String>) -> (r: Result<Vec<PkgInfo>, String>)
    requires
        args_readable(args@),
    ensures
        parse_result_view(r) == parse_args_spec(args@),
{
    let ghost all = args@;
    let mut state = State::new();
    let mut pkg_infos: Vec<PkgInfo> = Vec::new();
    let mut err_flags: Vec<String> = Vec::new();
    let mut i: usize = 0;
    assert(all.take(0) =~= Seq::<String>::empty());
    while i < args.len()
        invariant
            all == args@,
            args_readable(all),
            i <= all.len(),
            state@ == parse_spec(all.take(i as int)).0,
            infos_view(pkg_infos@) == parse_spec(all.take(i as int)).1,
            crate::text::views(err_flags@) == parse_spec(all.take(i as int)).2,
        decreases all.len() - i,
    {
        let arg = &args[i];
        assert(all.take(i + 1).drop_last() =~= all.take(i as int));
        assert(all.take(i + 1).last() == all[i as int]);
        assert(arg_readable(all[i as int]@));
        if known_flag(arg.as_str()) {
            apply_flag(&mut state, arg.as_str());
        } else {
            let first = arg.as_str().get_char(0);
            if first == '-' {
                let n = arg.as_str().unicode_len();
                let flag = substring(arg.as_str(), 1, n);
                assert(flag@ =~= arg@.drop_first());
                err_flags.push(flag);
                assert(crate::text::views(err_flags@) =~= parse_spec(all.take(i + 1)).2);
            } else {
                let info = PkgInfo {
                    name: arg.clone(),
                    needed: state.needed,
                    asdeps: state.asdeps,
                    asexplicit: state.asexplicit,
                    force: state.force,
                };
                pkg_infos.push(info);
                assert(infos_view(pkg_infos@) =~= parse_spec(all.take(i + 1)).1);
            }
        }
        i = i + 1;
    }
    assert(all.take(all.len() as int) =~= all);
    if err_flags.len() > 0 {
        let mut s = String::from_str("unexpected flags:");
        let mut k: usize = 0;
        let ghost errs = crate::text::views(err_flags@);
        assert(errs.take(0) =~= Seq::<Seq<char>>::empty());
        while k < err_flags.len()
            invariant
                errs == crate::text::views(err_flags@),
                k <= errs.len(),
                s@ == flags_message(errs.take(k as int)),
            decreases errs.len() - k,
        {
            assert(errs.take(k + 1).drop_last() =~= errs.take(k as int));
            s.append(" `");
            s.append(err_flags[k].as_str());
            s.append("`");
            k = k + 1;
        }
        assert(errs.take(errs.len() as int) =~= errs);
        return Err(s);
    }
    Ok(pkg_infos)
}

/// `--asdeps` and `--asexplicit` exclude each other: no package that `sync` reads from
/// its arguments is to be installed both as a dependency and explicitly.
pub proof fn lemma_asdeps_asexplicit_exclusive(args: Seq<String>)
    ensures
        !(parse_spec(args).0.1 && parse_spec(args).0.2),
        forall|i: int|
            0 <= i < parse_spec(args).1.len() ==> !((#[trigger] parse_spec(args).1[i]).2
                && parse_spec(args).1[i].3),
    decreases args.len(),
{
    if args.len() > 0 {
        lemma_asdeps_asexplicit_exclusive(args.drop_last());
    }
}

/// A package named in the arguments is installed with the flags that the last
/// switches before it left on: so `sync --asdeps a --no-asdeps b` marks `a` alone.
pub proof fn lemma_flags_reach_later_packages(args: Seq<String>, a: String, b: String)
    requires
        a@ == "--asdeps"@,
        !is_known_flag(b@),
        b@.len() > 0,
        b@[0] != '-',
    ensures
        parse_spec(args.push(a).push(b)).1.last() == (
            b@,
            parse_spec(args).0.0,
            true,
            false,
            parse_spec(args).0.3,
        ),
{
    reveal_strlit("--asdeps");
    reveal_strlit("--needed");
    reveal_strlit("--no-needed");
    assert("--asdeps"@[2] != "--needed"@[2]);
    assert("--asdeps"@.len() != "--no-needed"@.len());
    let s1 = args.push(a);
    let s2 = s1.push(b);
    assert(s2.drop_last() == s1);
    assert(s1.drop_last() == args);
    assert(s1.last()@ == "--asdeps"@);
    assert(is_known_flag(s1.last()@));
    assert(parse_spec(s1).0 == next_state(parse_spec(args).0, "--asdeps"@));
    assert(next_state(parse_spec(args).0, "--asdeps"@).1);
    assert(s2.last() == b);
}

/// `--force` and `-f` switch the force flag on for the package named next, leaving
/// the other flags as they were.
pub proof fn lemma_force_reaches_next_package(args: Seq<String>, a: String, b: String)
    requires
        a@ == "--force"@ || a@ == "-f"@,
        !is_known_flag(b@),
        b@.len() > 0,
        b@[0] != '-',
    ensures
        parse_spec(args.push(a).push(b)).1.last() == (
            b@,
            parse_spec(args).0.0,
            parse_spec(args).0.1,
            parse_spec(args).0.2,
            true,
        ),
{
    reveal_strlit("--force");
    reveal_strlit("-f");
    reveal_strlit("--needed");
    reveal_strlit("--no-needed");
    reveal_strlit("--asdeps");
    reveal_strlit("--no-asdeps");
    reveal_strlit("--asexplicit");
    reveal_strlit("--no-asexplicit");
    let s1 = args.push(a);
    let s2 = s1.push(b);
    assert(s2.drop_last() == s1);
    assert(s1.drop_last() == args);
    assert(s1.last()@ == a@);
    assert(is_known_flag(a@));
    assert(a@ != "--needed"@ && a@ != "--no-needed"@ && a@ != "--asdeps"@ && a@ != "--no-asdeps"@);
    assert(a@ != "--asexplicit"@ && a@ != "--no-asexplicit"@);
    assert(parse_spec(s1).0 == next_state(parse_spec(args).0, a@));
    assert(s2.last() == b);
}

pub const STR: &'static str = "sync";

/// What became of the last step of `sync`.
pub enum SyncEvent {
    Start,
    /// The AUR package base list.
    Pkgbases(Vec<String>),
}

/// The next step of `sync`.
pub enum SyncAction {
    LoadPkgbases,
    /// These names are no package base: they are listed, and `sync` ends successfully.
    NotFound(Vec<String>),
    /// Fetch, build and install these packages.
    Sync(Vec<PkgInfo>),
    Done(Result<(), String>),
}

pub enum SyncStep {
    LoadPkgbases,
    NotFound(Seq<Seq<char>>),
    Sync(Seq<(Seq<char>, bool, bool, bool, bool)>),
    Done(Result<(), Seq<char>>),
}

impl View for SyncAction {
    type V = SyncStep;

    open spec fn view(&self) -> SyncStep {
        match self {
            SyncAction::LoadPkgbases => SyncStep::LoadPkgbases,
            SyncAction::NotFound(v) => SyncStep::NotFound(views(v@)),
            SyncAction::Sync(v) => SyncStep::Sync(infos_view(v@)),
            SyncAction::Done(Ok(())) => SyncStep::Done(Ok(())),
            SyncAction::Done(Err(e)) => SyncStep::Done(Err(e@)),
        }
    }
}

/// The step of `sync` with `args` after `event`: at least one argument; the arguments
/// read as `parse_args` reads them; every package named must be a package base.
pub open spec fn sync_spec(args: Seq<String>, event: SyncEvent) -> SyncStep {
    if args.len() == 0 {
        SyncStep::Done(Err("no package specified"@))
    } else {
        match parse_args_spec(args) {
            Err(e) => SyncStep::Done(Err(e)),
            Ok(infos) => match event {
                SyncEvent::Start => SyncStep::LoadPkgbases,
                SyncEvent::Pkgbases(p) => {
                    let names = infos.map_values(|i: (Seq<char>, bool, bool, bool, bool)| i.0);
                    let missing = keep(names, |x: Seq<char>| !in_list(p@, x));
                    if missing.len() > 0 {
                        SyncStep::NotFound(missing)
                    } else {
                        SyncStep::Sync(infos)
                    }
                },
            },
        }
    }
}

/// Builds and installs the AUR packages named in `args`.
pub fn run(args: &Vec<String>, event: SyncEvent) -> (a: SyncAction)
    requires
        args_readable(args@),
    ensures
        a@ == sync_spec(args@, event),
{
    if args.len() == 0 {
        return SyncAction::Done(Err(String::from_str("no package specified")));
    }
    let mut copy: Vec<String> = Vec::new();
    let mut i: usize = 0;
    while i < args.len()
        invariant
            i <= args@.len(),
            copy@ == args@.take(i as int),
        decreases args@.len() - i,
    {
        copy.push(args[i].clone());
        assert(copy@ =~= args@.take(i + 1));
        i = i + 1;
    }
    assert(args@.take(args@.len() as int) =~= args@);
    let pkg_infos = match parse_args(copy) {
        Ok(v) => v,
        Err(s) => return SyncAction::Done(Err(s)),
    };
    match event {
        SyncEvent::Start => SyncAction::LoadPkgbases,
        SyncEvent::Pkgbases(pkgbases) => {
            let mut names: Vec<String> = Vec::new();
            let mut k: usize = 0;
            while k < pkg_infos.len()
                invariant
                    k <= pkg_infos@.len(),
                    views(names@) == infos_view(pkg_infos@).map_values(|i: (Seq<char>, bool, bool, bool, bool)| i.0).take(k as int),
                decreases pkg_infos@.len() - k,
            {
                let n = pkg_infos[k].name.clone();
                assert(views(names@.push(n)) =~= views(names@).push(n@));
                names.push(n);
                assert(views(names@) =~= infos_view(pkg_infos@).map_values(|i: (Seq<char>, bool, bool, bool, bool)| i.0).take(k + 1));
                k = k + 1;
            }
            assert(infos_view(pkg_infos@).map_values(|i: (Seq<char>, bool, bool, bool, bool)| i.0).take(pkg_infos@.len() as int) =~= infos_view(pkg_infos@).map_values(|i: (Seq<char>, bool, bool, bool, bool)| i.0));
            let (_found, missing) = is_in_pkgbases(&pkgbases, names);
            if missing.len() > 0 {
                SyncAction::NotFound(missing)
            } else {
                SyncAction::Sync(pkg_infos)
            }
        },
    }
}

/// Where building and installing the synced packages stands: the packages in order;
/// how many were taken; the file sets built so far and how many of them were handed
/// out to install; and the packages that failed to build.
pub struct SyncRun {
    clone_path: String,
    pkgs: Vec<PkgInfo>,
    next: usize,
    infos: Vec<InstallInfo>,
    k: usize,
    err_pkgs: Vec<String>,
}

pub struct SyncRunView {
    pub clone_path: Seq<char>,
    pub pkgs: Seq<(Seq<char>, bool, bool, bool, bool)>,
    pub next: int,
    pub infos: Seq<(Seq<Seq<char>>, bool, bool, bool)>,
    pub k: int,
    pub errs: Seq<Seq<char>>,
}

impl View for SyncRun {
    type V = SyncRunView;

    closed spec fn view(&self) -> SyncRunView {
        SyncRunView {
            clone_path: self.clone_path@,
            pkgs: infos_view(self.pkgs@),
            next: self.next as int,
            infos: crate::build::infos_view(self.infos@),
            k: self.k as int,
            errs: views(self.err_pkgs@),
        }
    }
}

/// What became of the last step of building and installing the synced packages.
pub enum SyncRunEvent {
    Start,
    /// The repository of the package taken was reset.
    ResetDone,
    /// What building the package gave: its file sets, or its name.
    Built(Result<Vec<InstallInfo>, String>),
    /// The exit code of the last install.
    Installed(i32),
}

pub enum SyncRunEventView {
    Start,
    ResetDone,
    Built(Result<Seq<(Seq<Seq<char>>, bool, bool, bool)>, Seq<char>>),
    Installed(i32),
}

impl View for SyncRunEvent {
    type V = SyncRunEventView;

    open spec fn view(&self) -> SyncRunEventView {
        match self {
            SyncRunEvent::Start => SyncRunEventView::Start,
            SyncRunEvent::ResetDone => SyncRunEventView::ResetDone,
            SyncRunEvent::Built(Ok(v)) => SyncRunEventView::Built(Ok(crate::build::infos_view(v@))),
            SyncRunEvent::Built(Err(n)) => SyncRunEventView::Built(Err(n@)),
            SyncRunEvent::Installed(code) => SyncRunEventView::Installed(*code),
        }
    }
}

/// The next step of building and installing the synced packages.
pub enum SyncRunAction {
    /// Reset a repository to its origin.
    Reset(ShellCommand),
    /// Build this package in this repository; with `noextract`, `makepkg` does not
    /// extract its sources again.
    Build { cwd: String, pkg: PkgInfo, noextract: bool },
    /// Run this install and report its exit code.
    Install(ShellCommand),
    /// The run is over: the packages that failed to build, and the exit code to end
    /// with.
    Done { build_errors: Vec<String>, code: i32 },
}

pub enum SyncRunStep {
    Reset((Seq<char>, Seq<Seq<char>>, Option<Seq<char>>, bool)),
    Build(Seq<char>, (Seq<char>, bool, bool, bool, bool), bool),
    Install((Seq<char>, Seq<Seq<char>>, Option<Seq<char>>, bool)),
    Done(Seq<Seq<char>>, i32),
}

impl View for SyncRunAction {
    type V = SyncRunStep;

    open spec fn view(&self) -> SyncRunStep {
        match self {
            SyncRunAction::Reset(c) => SyncRunStep::Reset(c@),
            SyncRunAction::Build { cwd, pkg, noextract } => SyncRunStep::Build(cwd@, pkg@, *noextract),
            SyncRunAction::Install(c) => SyncRunStep::Install(c@),
            SyncRunAction::Done { build_errors, code } => SyncRunStep::Done(views(build_errors@), *code),
        }
    }
}

/// Hands out the next file set to install, or ends the run with exit code 0.
pub open spec fn next_install(v: SyncRunView) -> (SyncRunView, SyncRunStep) {
    if 0 <= v.k < v.infos.len() {
        (SyncRunView { k: v.k + 1, ..v }, SyncRunStep::Install(install_command(false, v.infos[v.k])))
    } else {
        (v, SyncRunStep::Done(v.errs, 0))
    }
}

/// Takes the next package, whose repository is reset first; once every package is
/// taken, the installs follow.
pub open spec fn next_build(v: SyncRunView) -> (SyncRunView, SyncRunStep) {
    if 0 <= v.next < v.pkgs.len() {
        (
            SyncRunView { next: v.next + 1, ..v },
            SyncRunStep::Reset(
                git_command(
                    path_join(v.clone_path, v.pkgs[v.next].0),
                    seq!["reset"@, "--hard"@, "origin"@],
                    false,
                ),
            ),
        )
    } else {
        next_install(v)
    }
}

/// The run after `event`: each package in turn has its repository reset and is built
/// with its flags, its sources extracted anew; a package that fails to build is noted; then the file sets built
/// are installed with `pacman -U`, one after the other, until one install fails,
/// whose exit code ends the run.
pub open spec fn sync_run_step(v: SyncRunView, event: SyncRunEventView) -> (SyncRunView, SyncRunStep) {
    match event {
        SyncRunEventView::Start => next_build(v),
        SyncRunEventView::ResetDone => if 0 < v.next <= v.pkgs.len() {
            let p = v.pkgs[v.next - 1];
            (v, SyncRunStep::Build(path_join(v.clone_path, p.0), p, false))
        } else {
            next_build(v)
        },
        SyncRunEventView::Built(Ok(is)) => next_build(SyncRunView { infos: v.infos + is, ..v }),
        SyncRunEventView::Built(Err(n)) => next_build(SyncRunView { errs: v.errs.push(n), ..v }),
        SyncRunEventView::Installed(code) => if code != 0 {
            (v, SyncRunStep::Done(v.errs, code))
        } else {
            next_install(v)
        },
    }
}

/// The event that answers `step` when building the `i`-th package gives `builds[i]`
/// and the `j`-th install exits with `codes[j]`.
pub open spec fn sync_answer(
    v: SyncRunView,
    step: SyncRunStep,
    builds: Seq<Result<Seq<(Seq<Seq<char>>, bool, bool, bool)>, Seq<char>>>,
    codes: Seq<i32>,
) -> SyncRunEventView {
    match step {
        SyncRunStep::Reset(_) => SyncRunEventView::ResetDone,
        SyncRunStep::Build(_, _, _) => SyncRunEventView::Built(builds[v.next - 1]),
        SyncRunStep::Install(_) => SyncRunEventView::Installed(codes[v.k - 1]),
        SyncRunStep::Done(_, _) => SyncRunEventView::Start,
    }
}

/// The steps that a run takes from `v` and `step` on, each answered as `sync_answer`
/// says, up to the end of the run and at most `fuel` of them.
pub open spec fn sync_play(
    v: SyncRunView,
    step: SyncRunStep,
    builds: Seq<Result<Seq<(Seq<Seq<char>>, bool, bool, bool)>, Seq<char>>>,
    codes: Seq<i32>,
    fuel: nat,
) -> Seq<SyncRunStep>
    decreases fuel,
{
    if fuel == 0 {
        seq![]
    } else if step is Done {
        seq![step]
    } else {
        let (v2, s2) = sync_run_step(v, sync_answer(v, step, builds, codes));
        seq![step] + sync_play(v2, s2, builds, codes, (fuel - 1) as nat)
    }
}

/// The installs of the file sets `infos` from the `k`-th on, until one exits with a
/// code other than 0, which ends the run; after the last, the run ends with code 0.
pub open spec fn sync_installs(
    infos: Seq<(Seq<Seq<char>>, bool, bool, bool)>,
    codes: Seq<i32>,
    k: int,
    errs: Seq<Seq<char>>,
) -> Seq<SyncRunStep>
    decreases infos.len() - k,
{
    if k < 0 || k >= infos.len() {
        seq![SyncRunStep::Done(errs, 0)]
    } else {
        seq![SyncRunStep::Install(install_command(false, infos[k]))] + if codes[k] != 0 {
            seq![SyncRunStep::Done(errs, codes[k])]
        } else {
            sync_installs(infos, codes, k + 1, errs)
        }
    }
}

/// A whole run from the `i`-th package on, with the file sets `infos` built and the
/// packages `errs` failed before it: each package, once and in order, has its
/// repository reset and is built there with its flags; the file sets built are joined
/// in order and the packages that fail to build noted in order; then the file sets
/// are installed.
pub open spec fn expected_sync_run(
    clone_path: Seq<char>,
    pkgs: Seq<(Seq<char>, bool, bool, bool, bool)>,
    builds: Seq<Result<Seq<(Seq<Seq<char>>, bool, bool, bool)>, Seq<char>>>,
    codes: Seq<i32>,
    i: int,
    infos: Seq<(Seq<Seq<char>>, bool, bool, bool)>,
    errs: Seq<Seq<char>>,
) -> Seq<SyncRunStep>
    decreases pkgs.len() - i,
{
    if i < 0 || i >= pkgs.len() {
        sync_installs(infos, codes, 0, errs)
    } else {
        let repo = path_join(clone_path, pkgs[i].0);
        seq![
            SyncRunStep::Reset(git_command(repo, seq!["reset"@, "--hard"@, "origin"@], false)),
            SyncRunStep::Build(repo, pkgs[i], false),
        ] + match builds[i] {
            Ok(is) => expected_sync_run(clone_path, pkgs, builds, codes, i + 1, infos + is, errs),
            Err(n) => expected_sync_run(clone_path, pkgs, builds, codes, i + 1, infos, errs.push(n)),
        }
    }
}

proof fn lemma_sync_installs(
    builds: Seq<Result<Seq<(Seq<Seq<char>>, bool, bool, bool)>, Seq<char>>>,
    codes: Seq<i32>,
    v: SyncRunView,
)
    requires
        0 <= v.k <= v.infos.len(),
    ensures
        ({
            let (v2, s2) = next_install(v);
            let t = sync_installs(v.infos, codes, v.k, v.errs);
            sync_play(v2, s2, builds, codes, t.len()) == t
        }),
    decreases v.infos.len() - v.k,
{
    let (v2, s2) = next_install(v);
    let t = sync_installs(v.infos, codes, v.k, v.errs);
    if v.k < v.infos.len() {
        assert(sync_answer(v2, s2, builds, codes) == SyncRunEventView::Installed(codes[v.k]));
        if codes[v.k] != 0 {
            let d = SyncRunStep::Done(v.errs, codes[v.k]);
            assert(sync_play(v2, d, builds, codes, 1) == seq![d]);
            assert(t =~= seq![s2, d]);
        } else {
            lemma_sync_installs(builds, codes, v2);
            assert(t =~= seq![s2] + sync_installs(v.infos, codes, v.k + 1, v.errs));
        }
    } else {
        assert(t == seq![SyncRunStep::Done(v.errs, 0)]);
        assert(sync_play(v2, s2, builds, codes, 1) == seq![s2]);
    }
}

proof fn lemma_sync_builds(
    builds: Seq<Result<Seq<(Seq<Seq<char>>, bool, bool, bool)>, Seq<char>>>,
    codes: Seq<i32>,
    v: SyncRunView,
)
    requires
        0 <= v.next <= v.pkgs.len(),
        v.k == 0,
    ensures
        ({
            let (v2, s2) = next_build(v);
            let t = expected_sync_run(v.clone_path, v.pkgs, builds, codes, v.next, v.infos, v.errs);
            sync_play(v2, s2, builds, codes, t.len()) == t
        }),
    decreases v.pkgs.len() - v.next,
{
    let (v2, s2) = next_build(v);
    let t = expected_sync_run(v.clone_path, v.pkgs, builds, codes, v.next, v.infos, v.errs);
    if v.next < v.pkgs.len() {
        let i = v.next;
        let p = v.pkgs[i];
        let repo = path_join(v.clone_path, p.0);
        let b = SyncRunStep::Build(repo, p, false);
        assert(sync_answer(v2, s2, builds, codes) == SyncRunEventView::ResetDone);
        assert(sync_run_step(v2, SyncRunEventView::ResetDone) == (v2, b));
        assert(sync_answer(v2, b, builds, codes) == SyncRunEventView::Built(builds[i]));
        let v3 = match builds[i] {
            Ok(is) => SyncRunView { infos: v2.infos + is, ..v2 },
            Err(n) => SyncRunView { errs: v2.errs.push(n), ..v2 },
        };
        assert(sync_run_step(v2, SyncRunEventView::Built(builds[i])) == next_build(v3));
        lemma_sync_builds(builds, codes, v3);
        let rest = expected_sync_run(v.clone_path, v.pkgs, builds, codes, i + 1, v3.infos, v3.errs);
        assert(t =~= seq![s2, b] + rest);
        assert(sync_play(v2, s2, builds, codes, t.len()) =~= seq![s2] + sync_play(v2, b, builds, codes, (t.len() - 1) as nat));
        assert(sync_play(v2, b, builds, codes, (t.len() - 1) as nat) =~= seq![b] + rest);
    } else {
        lemma_sync_installs(builds, codes, v);
        assert(t == sync_installs(v.infos, codes, 0, v.errs));
    }
}

/// A whole run of building and installing synced packages, each step answered by
/// what resetting, building and installing really gave: each package, once and in
/// order, has its repository reset and is then built there with its own flags, its
/// sources extracted anew; the
/// packages that fail to build are reported in order; the file sets built are joined
/// in the packages' order and installed one after the other, until an install exits
/// with a code other than 0, which the run ends with; otherwise it ends with 0.
pub proof fn lemma_sync_run(
    clone_path: Seq<char>,
    pkgs: Seq<(Seq<char>, bool, bool, bool, bool)>,
    builds: Seq<Result<Seq<(Seq<Seq<char>>, bool, bool, bool)>, Seq<char>>>,
    codes: Seq<i32>,
)
    requires
        builds.len() == pkgs.len(),
    ensures
        ({
            let v0 = SyncRunView { clone_path, pkgs, next: 0, infos: seq![], k: 0, errs: seq![] };
            let (v1, s1) = sync_run_step(v0, SyncRunEventView::Start);
            let t = expected_sync_run(clone_path, pkgs, builds, codes, 0, seq![], seq![]);
            sync_play(v1, s1, builds, codes, t.len()) == t
        }),
{
    let v0 = SyncRunView { clone_path, pkgs, next: 0, infos: seq![], k: 0, errs: seq![] };
    lemma_sync_builds(builds, codes, v0);
}

impl SyncRun {
    /// A run over `pkgs`, in order, whose repositories are under `clone_path`.
    pub fn new(clone_path: &str, pkgs: Vec<PkgInfo>) -> (r: Self)
        ensures
            r@ == (SyncRunView {
                clone_path: clone_path@,
                pkgs: infos_view(pkgs@),
                next: 0,
                infos: seq![],
                k: 0,
                errs: seq![],
            }),
    {
        let r = SyncRun {
            clone_path: String::from_str(clone_path),
            pkgs,
            next: 0,
            infos: Vec::new(),
            k: 0,
            err_pkgs: Vec::new(),
        };
        assert(crate::build::infos_view(r.infos@) =~= seq![]);
        assert(views(r.err_pkgs@) =~= seq![]);
        r
    }

    fn next_install(self) -> (r: (Self, SyncRunAction))
        ensures
            (r.0@, r.1@) == next_install(self@),
    {
        if self.k < self.infos.len() {
            let c = Pacman { yes: false }.U_all_status(&self.infos[self.k]);
            let k = self.k + 1;
            (SyncRun { k, ..self }, SyncRunAction::Install(c))
        } else {
            let errs = self.err_pkgs.clone();
            assert(views(errs@) =~= views(self.err_pkgs@));
            (self, SyncRunAction::Done { build_errors: errs, code: 0 })
        }
    }

    fn next_build(self) -> (r: (Self, SyncRunAction))
        ensures
            (r.0@, r.1@) == next_build(self@),
    {
        if self.next < self.pkgs.len() {
            let cwd = join(self.clone_path.as_str(), self.pkgs[self.next].name.as_str());
            let c = Git::cwd(cwd).reset_hard_origin();
            let next = self.next + 1;
            (SyncRun { next, ..self }, SyncRunAction::Reset(c))
        } else {
            self.next_install()
        }
    }

    /// The next step of the run after `event`.
    pub fn step(self, event: SyncRunEvent) -> (r: (Self, SyncRunAction))
        ensures
            (r.0@, r.1@) == sync_run_step(self@, event@),
    {
        match event {
            SyncRunEvent::Start => self.next_build(),
            SyncRunEvent::ResetDone => {
                if 0 < self.next && self.next <= self.pkgs.len() {
                    let q = &self.pkgs[self.next - 1];
                    let p = PkgInfo {
                        name: q.name.clone(),
                        needed: q.needed,
                        asdeps: q.asdeps,
                        asexplicit: q.asexplicit,
                        force: q.force,
                    };
                    let cwd = join(self.clone_path.as_str(), p.name.as_str());
                    (self, SyncRunAction::Build { cwd, pkg: p, noextract: false })
                } else {
                    self.next_build()
                }
            },
            SyncRunEvent::Built(Ok(is)) => {
                let mut run = self;
                let ghost before = crate::build::infos_view(run.infos@);
                let mut is = is;
                let ghost added = crate::build::infos_view(is@);
                run.infos.append(&mut is);
                assert(crate::build::infos_view(run.infos@) =~= before + added);
                run.next_build()
            },
            SyncRunEvent::Built(Err(n)) => {
                let mut run = self;
                let ghost before = views(run.err_pkgs@);
                run.err_pkgs.push(n);
                assert(views(run.err_pkgs@) =~= before.push(n@));
                run.next_build()
            },
            SyncRunEvent::Installed(code) => {
                if code != 0 {
                    let errs = self.err_pkgs.clone();
                    assert(views(errs@) =~= views(self.err_pkgs@));
                    (self, SyncRunAction::Done { build_errors: errs, code })
                } else {
                    self.next_install()
                }
            },
        }
    }
}

} // verus!
