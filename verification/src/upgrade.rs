use vstd::prelude::*;
use crate::alpm::{Package, pkgs_view, has_name};
use crate::build::PkgInfo;
use crate::config::{PkgValue, all_named, names_of, val_to_name};
use crate::text::{str_eq, views};
use crate::alpm::in_list;
use crate::alpm::list_contains;
use crate::build::infos_view;
use crate::command::ShellCommand;
use crate::globals::{join, path_join};
use crate::pacman::{InstallInfo, Pacman, install_command};

verus! {

pub const STR: &'static str = "upgrade";

/// Index of the first package of `a` named `n`.
pub open spec fn first_named(a: Seq<Package>, n: Seq<char>) -> Option<int>
    decreases a.len(),
{
    if a.len() == 0 {
        None
    } else if a[0].name@ == n {
        Some(0)
    } else {
        match first_named(a.drop_first(), n) {
            Some(j) => Some(j + 1),
            None => None,
        }
    }
}

proof fn lemma_first_named(a: Seq<Package>, n: Seq<char>, j: int)
    requires
        0 <= j <= a.len(),
        forall|k: int| 0 <= k < j ==> (#[trigger] a[k]).name@ != n,
    ensures
        j < a.len() && a[j].name@ == n ==> first_named(a, n) == Some(j),
        j == a.len() ==> first_named(a, n) is None,
    decreases j,
{
    if j > 0 {
        assert forall|k: int| 0 <= k < j - 1 implies (#[trigger] a.drop_first()[k]).name@ != n by {
            assert(a.drop_first()[k] == a[k + 1]);
        }
        lemma_first_named(a.drop_first(), n, j - 1);
    }
}

/// The package to build for the name `n`, with the version of the first local package
/// of that name.
pub open spec fn version_entry(a: Seq<Package>, n: Seq<char>) -> ((Seq<char>, bool, bool, bool, bool), Option<Seq<char>>) {
    ((n, false, false, false, false), Some(a[first_named(a, n)->0].version@))
}

pub open spec fn versions_view(v: Seq<(PkgInfo, Option<String>)>) -> Seq<((Seq<char>, bool, bool, bool, bool), Option<Seq<char>>)> {
    v.map_values(|x: (PkgInfo, Option<String>)| (x.0@, match x.1 { Some(s) => Some(s@), None => None }))
}

/// Every name of `ms` belongs to a package of `a`.
pub open spec fn all_installed(a: Seq<Package>, ms: Seq<PkgValue>) -> bool {
    forall|i: int| 0 <= i < ms.len() ==> has_name(a, #[trigger] names_of(ms)[i])
}

/// For each package to install of the configuration, in its order: a package to
/// build (every flag off) with the version installed locally.
pub fn get_versions(local_pkgs: &Vec<&Package>, pkg_list: &Vec<PkgValue>) -> (r: Vec<(PkgInfo, Option<String>)>)
    requires
        all_named(pkg_list@),
        all_installed(pkgs_view(local_pkgs@), pkg_list@),
    ensures
        versions_view(r@) == names_of(pkg_list@).map_values(
            |n: Seq<char>| version_entry(pkgs_view(local_pkgs@), n),
        ),
{
    let ghost a = pkgs_view(local_pkgs@);
    let ghost target = names_of(pkg_list@).map_values(|n: Seq<char>| version_entry(a, n));
    let mut out: Vec<(PkgInfo, Option<String>)> = Vec::new();
    let mut i: usize = 0;
    while i < pkg_list.len()
        invariant
            a == pkgs_view(local_pkgs@),
            target == names_of(pkg_list@).map_values(|n: Seq<char>| version_entry(a, n)),
            all_named(pkg_list@),
            all_installed(a, pkg_list@),
            i <= pkg_list@.len(),
            versions_view(out@) == target.take(i as int),
        decreases pkg_list@.len() - i,
    {
        let x_name = val_to_name(&pkg_list[i]);
        assert(names_of(pkg_list@)[i as int] == x_name@);
        assert(has_name(a, x_name@));
        let mut j: usize = 0;
        while j < local_pkgs.len() && !str_eq(local_pkgs[j].name.as_str(), x_name.as_str())
            invariant
                a == pkgs_view(local_pkgs@),
                j <= a.len(),
                forall|k: int| 0 <= k < j ==> (#[trigger] a[k]).name@ != x_name@,
            decreases a.len() - j,
        {
            j = j + 1;
        }
        proof {
            lemma_first_named(a, x_name@, j as int);
        }
        if j == local_pkgs.len() {
            proof {
                let k = choose|k: int| 0 <= k < a.len() && #[trigger] a[k].name@ == x_name@;
            }
            assert(false);
            return out;
        }
        let version = local_pkgs[j].version.clone();
        let info = PkgInfo::new(x_name);
        let ghost ev = (info@, Some(version@));
        assert(versions_view(out@.push((info, Some(version)))) =~= versions_view(out@).push(ev));
        out.push((info, Some(version)));
        assert(versions_view(out@) =~= target.take(i + 1));
        i = i + 1;
    }
    assert(target.take(pkg_list@.len() as int) =~= target);
    out
}

/// The packages of `infos` whose name is in `pkgs_to_upgrade`, in order.
pub open spec fn keep_upgradable_spec(
    infos: Seq<(PkgInfo, Option<String>)>,
    pkgs_to_upgrade: Seq<String>,
) -> Seq<(PkgInfo, Option<String>)>
    decreases infos.len(),
{
    if infos.len() == 0 {
        seq![]
    } else {
        let k = keep_upgradable_spec(infos.drop_last(), pkgs_to_upgrade);
        if in_list(pkgs_to_upgrade, infos.last().0.name@) {
            k.push(infos.last())
        } else {
            k
        }
    }
}

/// Keeps the packages of `infos` that have a newer version (`infos.retain(..)`).
pub fn keep_upgradable(infos: Vec<(PkgInfo, Option<String>)>, pkgs_to_upgrade: &Vec<String>) -> (r: Vec<(PkgInfo, Option<String>)>)
    ensures
        r@ == keep_upgradable_spec(infos@, pkgs_to_upgrade@),
{
    let total = infos.len();
    let ghost orig = infos@;
    let mut rest = infos;
    let mut out: Vec<(PkgInfo, Option<String>)> = Vec::new();
    let mut i: usize = 0;
    assert(orig.take(0) =~= Seq::<(PkgInfo, Option<String>)>::empty());
    while rest.len() > 0
        invariant
            total == orig.len(),
            i + rest@.len() == total,
            rest@ == orig.skip(i as int),
            out@ == keep_upgradable_spec(orig.take(i as int), pkgs_to_upgrade@),
        decreases rest@.len(),
    {
        let item = rest.remove(0);
        proof {
            assert(orig.take(i + 1).drop_last() =~= orig.take(i as int));
            assert(orig.take(i + 1).last() == orig[i as int]);
            assert(orig.skip(i as int)[0] == orig[i as int]);
            assert(orig.skip(i as int).drop_first() =~= orig.skip(i + 1));
        }
        if list_contains(pkgs_to_upgrade, item.0.name.as_str()) {
            out.push(item);
        }
        i = i + 1;
    }
    assert(orig.take(total as int) =~= orig);
    out
}

/// The check that `upgrade` makes of its arguments: it takes none.
pub fn run(args: &Vec<String>) -> (r: Result<(), String>)
    ensures
        args@.len() == 0 <==> r is Ok,
        r matches Err(e) ==> e@ == "unexpected arguments."@,
{
    if args.len() != 0 {
        return Err(String::from_str("unexpected arguments."));
    }
    Ok(())
}

/// Where building and installing the packages to upgrade stands: the packages, by
/// name, in the order they are built; how many were taken; the file sets of the
/// package being installed and how many of them were handed out; that package; and
/// the packages that failed to build.
pub struct InstallRun {
    clone_path: String,
    pkgs: Vec<String>,
    next: usize,
    infos: Vec<InstallInfo>,
    k: usize,
    current: String,
    err_pkgs: Vec<String>,
}

pub struct RunView {
    pub clone_path: Seq<char>,
    pub pkgs: Seq<Seq<char>>,
    pub next: int,
    pub infos: Seq<(Seq<Seq<char>>, bool, bool, bool)>,
    pub k: int,
    pub current: Seq<char>,
    pub errs: Seq<Seq<char>>,
}

impl View for InstallRun {
    type V = RunView;

    closed spec fn view(&self) -> RunView {
        RunView {
            clone_path: self.clone_path@,
            pkgs: views(self.pkgs@),
            next: self.next as int,
            infos: infos_view(self.infos@),
            k: self.k as int,
            current: self.current@,
            errs: views(self.err_pkgs@),
        }
    }
}

/// What became of the last step of building and installing.
pub enum InstallEvent {
    Start,
    /// What building the package gave: its file sets, or its name.
    Built(Result<Vec<InstallInfo>, String>),
    /// Whether installing the last file set succeeded.
    Installed(bool),
}

pub enum InstallEventView {
    Start,
    Built(Result<Seq<(Seq<Seq<char>>, bool, bool, bool)>, Seq<char>>),
    Installed(bool),
}

impl View for InstallEvent {
    type V = InstallEventView;

    open spec fn view(&self) -> InstallEventView {
        match self {
            InstallEvent::Start => InstallEventView::Start,
            InstallEvent::Built(Ok(v)) => InstallEventView::Built(Ok(infos_view(v@))),
            InstallEvent::Built(Err(n)) => InstallEventView::Built(Err(n@)),
            InstallEvent::Installed(ok) => InstallEventView::Installed(*ok),
        }
    }
}

/// The next step of building and installing.
pub enum InstallAction {
    /// Build this package in this repository, its sources already there; with
    /// `noextract`, `makepkg` does not extract them again.
    Build { cwd: String, pkg: PkgInfo, noextract: bool },
    /// Run this install.
    Install(ShellCommand),
    /// The run is over: the packages that failed to build, and the package whose
    /// install failed, if one did.
    /// The program then exits with `exit_code` when it is not 0.
    Done { build_errors: Vec<String>, install_failed: Option<String>, exit_code: i32 },
}

pub enum InstallStep {
    Build(Seq<char>, (Seq<char>, bool, bool, bool, bool), bool),
    Install((Seq<char>, Seq<Seq<char>>, Option<Seq<char>>, bool)),
    Done(Seq<Seq<char>>, Option<Seq<char>>, i32),
}

impl View for InstallAction {
    type V = InstallStep;

    open spec fn view(&self) -> InstallStep {
        match self {
            InstallAction::Build { cwd, pkg, noextract } => InstallStep::Build(cwd@, pkg@, *noextract),
            InstallAction::Install(c) => InstallStep::Install(c@),
            InstallAction::Done { build_errors, install_failed, exit_code } => InstallStep::Done(
                views(build_errors@),
                match install_failed {
                    Some(n) => Some(n@),
                    None => None,
                },
                *exit_code,
            ),
        }
    }
}

/// The build of the package `name` in its repository under `clone_path`: every flag
/// off, and the sources, already fetched, not extracted again.
pub open spec fn install_build(clone_path: Seq<char>, name: Seq<char>) -> InstallStep {
    InstallStep::Build(path_join(clone_path, name), (name, false, false, false, false), true)
}

/// The end of a run that noted the build failures `errs` and whose install of
/// `failed` failed, if one did: the program exits with 1 exactly when some build or
/// install failed, and goes on otherwise.
pub open spec fn install_done(errs: Seq<Seq<char>>, failed: Option<Seq<char>>) -> InstallStep {
    InstallStep::Done(errs, failed, if errs.len() > 0 || failed is Some { 1 } else { 0 })
}

/// Takes the next package to build, or ends the run when none is left.
pub open spec fn advance(v: RunView) -> (RunView, InstallStep) {
    if v.next < v.pkgs.len() {
        let name = v.pkgs[v.next];
        (
            RunView { next: v.next + 1, infos: seq![], k: 0, current: name, ..v },
            install_build(v.clone_path, name),
        )
    } else {
        (v, install_done(v.errs, None))
    }
}

/// The run after `event`: each package is built in turn; its file sets are installed
/// one after the other with `pacman -U --noconfirm`; a package that fails to build is
/// noted and the next one taken; the first failed install ends the run.
pub open spec fn install_step(v: RunView, event: InstallEventView) -> (RunView, InstallStep) {
    match event {
        InstallEventView::Start => advance(v),
        InstallEventView::Built(Err(n)) => advance(RunView { errs: v.errs.push(n), ..v }),
        InstallEventView::Built(Ok(is)) => if is.len() > 0 {
            (RunView { infos: is, k: 1, ..v }, InstallStep::Install(install_command(true, is[0])))
        } else {
            advance(v)
        },
        InstallEventView::Installed(true) => if 0 <= v.k < v.infos.len() {
            (RunView { k: v.k + 1, ..v }, InstallStep::Install(install_command(true, v.infos[v.k])))
        } else {
            advance(v)
        },
        InstallEventView::Installed(false) => (v, install_done(v.errs, Some(v.current))),
    }
}

/// The event that answers `step` when building the `i`-th package gives `builds[i]`
/// and its `j`-th file set installs exactly when `oks[i][j]`.
pub open spec fn install_answer(
    v: RunView,
    step: InstallStep,
    builds: Seq<Result<Seq<(Seq<Seq<char>>, bool, bool, bool)>, Seq<char>>>,
    oks: Seq<Seq<bool>>,
) -> InstallEventView {
    match step {
        InstallStep::Build(_, _, _) => InstallEventView::Built(builds[v.next - 1]),
        InstallStep::Install(_) => InstallEventView::Installed(oks[v.next - 1][v.k - 1]),
        InstallStep::Done(_, _, _) => InstallEventView::Start,
    }
}

/// The steps that a run takes from `v` and `step` on, each answered as
/// `install_answer` says, up to the end of the run and at most `fuel` of them.
pub open spec fn install_play(
    v: RunView,
    step: InstallStep,
    builds: Seq<Result<Seq<(Seq<Seq<char>>, bool, bool, bool)>, Seq<char>>>,
    oks: Seq<Seq<bool>>,
    fuel: nat,
) -> Seq<InstallStep>
    decreases fuel,
{
    if fuel == 0 {
        seq![]
    } else if step is Done {
        seq![step]
    } else {
        let (v2, s2) = install_step(v, install_answer(v, step, builds, oks));
        seq![step] + install_play(v2, s2, builds, oks, (fuel - 1) as nat)
    }
}

/// The installs of the file sets `is` from the `k`-th on, up to and including the
/// first that fails.
pub open spec fn installs_until_failure(
    is: Seq<(Seq<Seq<char>>, bool, bool, bool)>,
    ok: Seq<bool>,
    k: int,
) -> Seq<InstallStep>
    decreases is.len() - k,
{
    if k < 0 || k >= is.len() {
        seq![]
    } else {
        seq![InstallStep::Install(install_command(true, is[k]))] + if ok[k] {
            installs_until_failure(is, ok, k + 1)
        } else {
            seq![]
        }
    }
}

/// The first `n` installs succeed.
pub open spec fn all_installed_ok(ok: Seq<bool>, n: int) -> bool {
    forall|j: int| 0 <= j < n ==> #[trigger] ok[j]
}

/// A whole run from the `i`-th package on, `errs` failing to build before it: each
/// package is built, in order, in its repository; one that fails to build is noted and
/// skipped; the file sets of one that builds are installed in order; the first failed
/// install ends the run with that package; otherwise the run ends after the last
/// package, reporting the packages that failed to build, in order.
pub open spec fn expected_run(
    clone_path: Seq<char>,
    pkgs: Seq<Seq<char>>,
    builds: Seq<Result<Seq<(Seq<Seq<char>>, bool, bool, bool)>, Seq<char>>>,
    oks: Seq<Seq<bool>>,
    i: int,
    errs: Seq<Seq<char>>,
) -> Seq<InstallStep>
    decreases pkgs.len() - i,
{
    if i < 0 || i >= pkgs.len() {
        seq![install_done(errs, None)]
    } else {
        let b = install_build(clone_path, pkgs[i]);
        match builds[i] {
            Err(n) => seq![b] + expected_run(clone_path, pkgs, builds, oks, i + 1, errs.push(n)),
            Ok(is) => seq![b] + installs_until_failure(is, oks[i], 0) + if all_installed_ok(
                oks[i],
                is.len() as int,
            ) {
                expected_run(clone_path, pkgs, builds, oks, i + 1, errs)
            } else {
                seq![install_done(errs, Some(pkgs[i]))]
            },
        }
    }
}

proof fn lemma_run_advance(
    clone_path: Seq<char>,
    pkgs: Seq<Seq<char>>,
    builds: Seq<Result<Seq<(Seq<Seq<char>>, bool, bool, bool)>, Seq<char>>>,
    oks: Seq<Seq<bool>>,
    i: int,
    v: RunView,
)
    requires
        v.clone_path == clone_path,
        v.pkgs == pkgs,
        v.next == i,
        0 <= i <= pkgs.len(),
    ensures
        ({
            let (v2, s2) = advance(v);
            let t = expected_run(clone_path, pkgs, builds, oks, i, v.errs);
            install_play(v2, s2, builds, oks, t.len()) == t
        }),
    decreases pkgs.len() - i, 3int, 0int,
{
    let (v2, s2) = advance(v);
    if i < pkgs.len() {
        lemma_run_pkg(clone_path, pkgs, builds, oks, i, v2);
    } else {
        let t = expected_run(clone_path, pkgs, builds, oks, i, v.errs);
        assert(t == seq![install_done(v.errs, None)]);
        assert(install_play(v2, s2, builds, oks, 1) == seq![s2]);
    }
}

proof fn lemma_run_pkg(
    clone_path: Seq<char>,
    pkgs: Seq<Seq<char>>,
    builds: Seq<Result<Seq<(Seq<Seq<char>>, bool, bool, bool)>, Seq<char>>>,
    oks: Seq<Seq<bool>>,
    i: int,
    v: RunView,
)
    requires
        v.clone_path == clone_path,
        v.pkgs == pkgs,
        v.next == i + 1,
        0 <= i < pkgs.len(),
        v.current == pkgs[i],
    ensures
        ({
            let b = install_build(clone_path, pkgs[i]);
            let t = expected_run(clone_path, pkgs, builds, oks, i, v.errs);
            install_play(v, b, builds, oks, t.len()) == t
        }),
    decreases pkgs.len() - i, 2int, 0int,
{
    let b = install_build(clone_path, pkgs[i]);
    let t = expected_run(clone_path, pkgs, builds, oks, i, v.errs);
    assert(install_answer(v, b, builds, oks) == InstallEventView::Built(builds[i]));
    match builds[i] {
        Err(n) => {
            let w = RunView { errs: v.errs.push(n), ..v };
            lemma_run_advance(clone_path, pkgs, builds, oks, i + 1, w);
            let rest = expected_run(clone_path, pkgs, builds, oks, i + 1, v.errs.push(n));
            assert(t == seq![b] + rest);
        },
        Ok(is) => {
            let tail = if all_installed_ok(oks[i], is.len() as int) {
                expected_run(clone_path, pkgs, builds, oks, i + 1, v.errs)
            } else {
                seq![install_done(v.errs, Some(pkgs[i]))]
            };
            assert(t == seq![b] + installs_until_failure(is, oks[i], 0) + tail);
            if is.len() > 0 {
                let w = RunView { infos: is, k: 1, ..v };
                lemma_run_installs(clone_path, pkgs, builds, oks, i, w, 1);
                assert(t =~= seq![b] + (installs_until_failure(is, oks[i], 0) + tail));
            } else {
                assert(installs_until_failure(is, oks[i], 0) == Seq::<InstallStep>::empty());
                assert(all_installed_ok(oks[i], is.len() as int));
                lemma_run_advance(clone_path, pkgs, builds, oks, i + 1, v);
                assert(t =~= seq![b] + expected_run(clone_path, pkgs, builds, oks, i + 1, v.errs));
            }
        },
    }
}

proof fn lemma_run_installs(
    clone_path: Seq<char>,
    pkgs: Seq<Seq<char>>,
    builds: Seq<Result<Seq<(Seq<Seq<char>>, bool, bool, bool)>, Seq<char>>>,
    oks: Seq<Seq<bool>>,
    i: int,
    v: RunView,
    k: int,
)
    requires
        v.clone_path == clone_path,
        v.pkgs == pkgs,
        v.next == i + 1,
        0 <= i < pkgs.len(),
        v.current == pkgs[i],
        builds[i] is Ok,
        v.infos == builds[i]->Ok_0,
        1 <= k <= v.infos.len(),
        v.k == k,
        all_installed_ok(oks[i], k - 1),
    ensures
        ({
            let is = v.infos;
            let tail = if all_installed_ok(oks[i], is.len() as int) {
                expected_run(clone_path, pkgs, builds, oks, i + 1, v.errs)
            } else {
                seq![install_done(v.errs, Some(pkgs[i]))]
            };
            let t = installs_until_failure(is, oks[i], k - 1) + tail;
            install_play(v, InstallStep::Install(install_command(true, is[k - 1])), builds, oks, t.len()) == t
        }),
    decreases pkgs.len() - i, 1int, v.infos.len() - k,
{
    let is = v.infos;
    let s = InstallStep::Install(install_command(true, is[k - 1]));
    let tail = if all_installed_ok(oks[i], is.len() as int) {
        expected_run(clone_path, pkgs, builds, oks, i + 1, v.errs)
    } else {
        seq![install_done(v.errs, Some(pkgs[i]))]
    };
    assert(install_answer(v, s, builds, oks) == InstallEventView::Installed(oks[i][k - 1]));
    if oks[i][k - 1] {
        assert(all_installed_ok(oks[i], k));
        if k < is.len() {
            let w = RunView { k: k + 1, ..v };
            lemma_run_installs(clone_path, pkgs, builds, oks, i, w, k + 1);
            assert(installs_until_failure(is, oks[i], k - 1) == seq![s] + installs_until_failure(is, oks[i], k));
            assert(installs_until_failure(is, oks[i], k - 1) + tail =~= seq![s] + (installs_until_failure(is, oks[i], k) + tail));
        } else {
            lemma_run_advance(clone_path, pkgs, builds, oks, i + 1, v);
            assert(installs_until_failure(is, oks[i], k) == Seq::<InstallStep>::empty());
            assert(installs_until_failure(is, oks[i], k - 1) =~= seq![s]);
            assert(tail == expected_run(clone_path, pkgs, builds, oks, i + 1, v.errs));
        }
    } else {
        assert(!all_installed_ok(oks[i], is.len() as int));
        assert(installs_until_failure(is, oks[i], k - 1) =~= seq![s]);
        let d = install_done(v.errs, Some(pkgs[i]));
        assert(install_play(v, d, builds, oks, 1) == seq![d]);
        assert(seq![s] + tail =~= seq![s, d]);
    }
}

/// A whole run of building and installing the packages to upgrade, each step
/// answered by what building and installing really gave: the run builds each package
/// in order in its repository, without extracting its sources again; a package that
/// fails to build is noted and skipped; the file sets of a package that builds are
/// installed in order; the first failed install ends the run, naming that package;
/// otherwise the run ends after the last package. It ends reporting exactly the
/// packages that failed to build, in order, and with exit code 1 exactly when one of
/// them or an install failed, 0 otherwise.
pub proof fn lemma_install_run(
    clone_path: Seq<char>,
    pkgs: Seq<Seq<char>>,
    builds: Seq<Result<Seq<(Seq<Seq<char>>, bool, bool, bool)>, Seq<char>>>,
    oks: Seq<Seq<bool>>,
)
    requires
        builds.len() == pkgs.len(),
    ensures
        ({
            let v0 = RunView {
                clone_path,
                pkgs,
                next: 0,
                infos: seq![],
                k: 0,
                current: Seq::<char>::empty(),
                errs: seq![],
            };
            let (v1, s1) = install_step(v0, InstallEventView::Start);
            let t = expected_run(clone_path, pkgs, builds, oks, 0, seq![]);
            install_play(v1, s1, builds, oks, t.len()) == t
        }),
{
    let v0 = RunView {
        clone_path,
        pkgs,
        next: 0,
        infos: seq![],
        k: 0,
        current: Seq::<char>::empty(),
        errs: seq![],
    };
    lemma_run_advance(clone_path, pkgs, builds, oks, 0, v0);
}

impl InstallRun {
    /// A run over the packages of `pkgs`, in order, whose repositories are under
    /// `clone_path`.
    pub fn new(clone_path: &str, pkgs: &Vec<(PkgInfo, Option<String>)>) -> (r: Self)
        ensures
            r@ == (RunView {
                clone_path: clone_path@,
                pkgs: pkgs@.map_values(|x: (PkgInfo, Option<String>)| x.0.name@),
                next: 0,
                infos: seq![],
                k: 0,
                current: Seq::<char>::empty(),
                errs: seq![],
            }),
    {
        let mut names: Vec<String> = Vec::new();
        let mut i: usize = 0;
        while i < pkgs.len()
            invariant
                i <= pkgs@.len(),
                views(names@) == pkgs@.map_values(|x: (PkgInfo, Option<String>)| x.0.name@).take(i as int),
            decreases pkgs@.len() - i,
        {
            let n = pkgs[i].0.name.clone();
            assert(views(names@.push(n)) =~= views(names@).push(n@));
            names.push(n);
            assert(views(names@) =~= pkgs@.map_values(|x: (PkgInfo, Option<String>)| x.0.name@).take(i + 1));
            i = i + 1;
        }
        assert(pkgs@.map_values(|x: (PkgInfo, Option<String>)| x.0.name@).take(pkgs@.len() as int)
            =~= pkgs@.map_values(|x: (PkgInfo, Option<String>)| x.0.name@));
        let r = InstallRun {
            clone_path: String::from_str(clone_path),
            pkgs: names,
            next: 0,
            infos: Vec::new(),
            k: 0,
            current: String::new(),
            err_pkgs: Vec::new(),
        };
        assert(infos_view(r.infos@) =~= seq![]);
        assert(views(r.err_pkgs@) =~= seq![]);
        r
    }

    fn advance(self) -> (r: (Self, InstallAction))
        ensures
            (r.0@, r.1@) == advance(self@),
    {
        if self.next < self.pkgs.len() {
            let name = self.pkgs[self.next].clone();
            let cwd = join(self.clone_path.as_str(), name.as_str());
            let pkg = PkgInfo::new(name.clone());
            let infos: Vec<InstallInfo> = Vec::new();
            assert(infos_view(infos@) =~= seq![]);
            let run = InstallRun { next: self.next + 1, infos, k: 0, current: name, ..self };
            (run, InstallAction::Build { cwd, pkg, noextract: true })
        } else {
            let errs = self.err_pkgs.clone();
            assert(views(errs@) =~= views(self.err_pkgs@));
            let exit_code: i32 = if errs.len() > 0 { 1 } else { 0 };
            (self, InstallAction::Done { build_errors: errs, install_failed: None, exit_code })
        }
    }

    /// The next step of the run after `event`.
    pub fn step(self, event: InstallEvent) -> (r: (Self, InstallAction))
        ensures
            (r.0@, r.1@) == install_step(self@, event@),
    {
        match event {
            InstallEvent::Start => self.advance(),
            InstallEvent::Built(Err(n)) => {
                let mut run = self;
                let ghost before = views(run.err_pkgs@);
                run.err_pkgs.push(n);
                assert(views(run.err_pkgs@) =~= before.push(n@));
                run.advance()
            },
            InstallEvent::Built(Ok(is)) => {
                if is.len() > 0 {
                    let c = Pacman { yes: true }.U_all_status(&is[0]);
                    let run = InstallRun { infos: is, k: 1, ..self };
                    (run, InstallAction::Install(c))
                } else {
                    self.advance()
                }
            },
            InstallEvent::Installed(ok) => {
                if ok {
                    if self.k < self.infos.len() {
                        let c = Pacman { yes: true }.U_all_status(&self.infos[self.k]);
                        let k = self.k + 1;
                        (InstallRun { k, ..self }, InstallAction::Install(c))
                    } else {
                        self.advance()
                    }
                } else {
                    let errs = self.err_pkgs.clone();
                    assert(views(errs@) =~= views(self.err_pkgs@));
                    let failed = self.current.clone();
                    (self, InstallAction::Done { build_errors: errs, install_failed: Some(failed), exit_code: 1 })
                }
            },
        }
    }
}

} // verus!
