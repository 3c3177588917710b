use vstd::prelude::*;
use crate::command::{ShellCommand, owned, push_str};
use crate::git::{Git, git_command};
use crate::globals::{Globals, join, path_join, URL_AUR, URL_PKG, URL_PKGBASE, FILENAME_PKG, FILENAME_PKGBASE};
use crate::alpm::{in_list, list_contains};
use crate::text::{keep, views, lines_of, read_lines_to_strings, trim, trimmed, lemma_keep, lemma_keep_split};

verus! {

/// What became of a command that the library asked to run.
pub enum CmdEvent {
    /// Nothing was run yet.
    Start,
    /// The command ran and exited, successfully or not.
    Exited { success: bool },
    /// The command could not be started.
    NotRun,
}

/// The next step of a download of an AUR list: run a command, or the outcome.
pub enum FetchAction {
    Run(ShellCommand),
    Done(Result<(), String>),
}

pub enum FetchStep {
    Run((Seq<char>, Seq<Seq<char>>, Option<Seq<char>>, bool)),
    Done(Result<(), Seq<char>>),
}

impl View for FetchAction {
    type V = FetchStep;

    open spec fn view(&self) -> FetchStep {
        match self {
            FetchAction::Run(c) => FetchStep::Run(c@),
            FetchAction::Done(Ok(())) => FetchStep::Done(Ok(())),
            FetchAction::Done(Err(e)) => FetchStep::Done(Err(e@)),
        }
    }
}

/// The shell line that downloads `url` and unpacks it into `filename`.
pub open spec fn fetch_script(url: Seq<char>, filename: Seq<char>) -> Seq<char> {
    "curl "@ + url + " | gzip -cd > '"@ + filename + "'"@
}

/// The step of `fetch_aur_data` after `event`.
pub open spec fn fetch_aur_data_spec(url: Seq<char>, dir: Seq<char>, filename: Seq<char>, event: CmdEvent) -> FetchStep {
    match event {
        CmdEvent::Start => FetchStep::Run(("sh"@, seq!["-c"@, fetch_script(url, filename)], Some(dir), false)),
        CmdEvent::NotRun => FetchStep::Done(Err("sh could not be executed"@)),
        CmdEvent::Exited { success } => if success {
            FetchStep::Done(Ok(()))
        } else {
            FetchStep::Done(Err("`"@ + fetch_script(url, filename) + "` failed"@))
        },
    }
}

/// Downloads the gzipped AUR list at `url` into `curr_dir/filename` with `curl` and
/// `gzip`, run by `sh`: first the command, then, once it ran, the outcome. `filename`
/// is quoted with `'`, so it should hold none.
pub fn fetch_aur_data(url: &str, curr_dir: &str, filename: &str, event: CmdEvent) -> (a: FetchAction)
    ensures
        a@ == fetch_aur_data_spec(url@, curr_dir@, filename@, event),
{
    let mut sh_cmd = String::from_str("curl ");
    sh_cmd.append(url);
    sh_cmd.append(" | gzip -cd > '");
    sh_cmd.append(filename);
    sh_cmd.append("'");
    match event {
        CmdEvent::Start => {
            let mut args: Vec<String> = Vec::new();
            push_str(&mut args, "-c");
            assert(views(args@.push(sh_cmd)) =~= views(args@).push(sh_cmd@));
            args.push(sh_cmd);
            assert(views(args@) =~= seq!["-c"@, fetch_script(url@, filename@)]);
            FetchAction::Run(
                ShellCommand { program: owned("sh"), args, cwd: Some(String::from_str(curr_dir)), quiet: false },
            )
        },
        CmdEvent::NotRun => FetchAction::Done(Err(String::from_str("sh could not be executed"))),
        CmdEvent::Exited { success } => {
            if success {
                FetchAction::Done(Ok(()))
            } else {
                let mut e = String::from_str("`");
                e.append(sh_cmd.as_str());
                e.append("` failed");
                FetchAction::Done(Err(e))
            }
        },
    }
}

/// Downloads the AUR package list into the cache directory.
pub fn fetch_pkglist(g: &Globals, event: CmdEvent) -> (a: FetchAction)
    ensures
        a@ == fetch_aur_data_spec(URL_PKG@, g.cache_path@, FILENAME_PKG@, event),
{
    fetch_aur_data(URL_PKG, g.cache_path.as_str(), FILENAME_PKG, event)
}

/// Downloads the AUR package base list into the cache directory.
pub fn fetch_pkgbase(g: &Globals, event: CmdEvent) -> (a: FetchAction)
    ensures
        a@ == fetch_aur_data_spec(URL_PKGBASE@, g.cache_path@, FILENAME_PKGBASE@, event),
{
    fetch_aur_data(URL_PKGBASE, g.cache_path.as_str(), FILENAME_PKGBASE, event)
}

/// What became of the last step of reading a cached AUR list.
pub enum ListEvent {
    Start,
    /// Whether the list's file exists.
    Exists(bool),
    /// What became of the download.
    Fetch(CmdEvent),
    /// The file's content.
    Content(String),
}

/// The next step of reading a cached AUR list.
pub enum ListAction {
    CheckExists(String),
    Run(ShellCommand),
    ReadFile(String),
    Done(Result<Vec<String>, String>),
}

pub enum ListStep {
    CheckExists(Seq<char>),
    Run((Seq<char>, Seq<Seq<char>>, Option<Seq<char>>, bool)),
    ReadFile(Seq<char>),
    Done(Result<Seq<Seq<char>>, Seq<char>>),
}

impl View for ListAction {
    type V = ListStep;

    open spec fn view(&self) -> ListStep {
        match self {
            ListAction::CheckExists(p) => ListStep::CheckExists(p@),
            ListAction::Run(c) => ListStep::Run(c@),
            ListAction::ReadFile(p) => ListStep::ReadFile(p@),
            ListAction::Done(Ok(v)) => ListStep::Done(Ok(views(v@))),
            ListAction::Done(Err(e)) => ListStep::Done(Err(e@)),
        }
    }
}

/// The step of reading the cached list `filename` (downloaded from `url` when the file
/// is missing) after `event`.
pub open spec fn list_step_spec(cache: Seq<char>, url: Seq<char>, filename: Seq<char>, event: ListEvent) -> ListStep {
    let path = path_join(cache, filename);
    match event {
        ListEvent::Start => ListStep::CheckExists(path),
        ListEvent::Exists(true) => ListStep::ReadFile(path),
        ListEvent::Exists(false) => ListStep::Run(("sh"@, seq!["-c"@, fetch_script(url, filename)], Some(cache), false)),
        ListEvent::Fetch(ev) => match fetch_aur_data_spec(url, cache, filename, ev) {
            FetchStep::Run(c) => ListStep::Run(c),
            FetchStep::Done(Ok(())) => ListStep::ReadFile(path),
            FetchStep::Done(Err(e)) => ListStep::Done(Err(e)),
        },
        ListEvent::Content(s) => ListStep::Done(Ok(lines_of(s@))),
    }
}

fn list_step(cache: &str, url: &str, filename: &str, event: ListEvent) -> (a: ListAction)
    ensures
        a@ == list_step_spec(cache@, url@, filename@, event),
{
    let path = join(cache, filename);
    match event {
        ListEvent::Start => ListAction::CheckExists(path),
        ListEvent::Exists(exists) => {
            if exists {
                ListAction::ReadFile(path)
            } else {
                match fetch_aur_data(url, cache, filename, CmdEvent::Start) {
                    FetchAction::Run(c) => ListAction::Run(c),
                    FetchAction::Done(_) => {
                        assert(false);
                        ListAction::Done(Ok(Vec::new()))
                    },
                }
            }
        },
        ListEvent::Fetch(ev) => match fetch_aur_data(url, cache, filename, ev) {
            FetchAction::Run(c) => ListAction::Run(c),
            FetchAction::Done(Ok(())) => ListAction::ReadFile(path),
            FetchAction::Done(Err(e)) => ListAction::Done(Err(e)),
        },
        ListEvent::Content(s) => ListAction::Done(Ok(read_lines_to_strings(s))),
    }
}

/// Reads the AUR package base list, one name per line, from the cache directory,
/// downloading it first when the file is missing.
pub fn get_pkgbases(g: &Globals, event: ListEvent) -> (a: ListAction)
    ensures
        a@ == list_step_spec(g.cache_path@, URL_PKGBASE@, FILENAME_PKGBASE@, event),
{
    list_step(g.cache_path.as_str(), URL_PKGBASE, FILENAME_PKGBASE, event)
}

/// Reads the AUR package list, one name per line, from the cache directory,
/// downloading it first when the file is missing.
pub fn get_pkgs(g: &Globals, event: ListEvent) -> (a: ListAction)
    ensures
        a@ == list_step_spec(g.cache_path@, URL_PKG@, FILENAME_PKG@, event),
{
    list_step(g.cache_path.as_str(), URL_PKG, FILENAME_PKG, event)
}

/// Splits `pkgs` into the names found in `pkgbases` and the others, each in order.
pub fn is_in_pkgbases(pkgbases: &Vec<String>, pkgs: Vec<String>) -> (r: (Vec<String>, Vec<String>))
    ensures
        views(r.0@) == keep(views(pkgs@), |x: Seq<char>| in_list(pkgbases@, x)),
        views(r.1@) == keep(views(pkgs@), |x: Seq<char>| !in_list(pkgbases@, x)),
{
    let ghost ps = views(pkgs@);
    let mut found: Vec<String> = Vec::new();
    let mut err: Vec<String> = Vec::new();
    let mut i: usize = 0;
    assert(ps.take(0) =~= Seq::<Seq<char>>::empty());
    while i < pkgs.len()
        invariant
            ps == views(pkgs@),
            i <= ps.len(),
            views(found@) == keep(ps.take(i as int), |x: Seq<char>| in_list(pkgbases@, x)),
            views(err@) == keep(ps.take(i as int), |x: Seq<char>| !in_list(pkgbases@, x)),
        decreases ps.len() - i,
    {
        let p = pkgs[i].clone();
        assert(ps.take(i + 1).drop_last() =~= ps.take(i as int));
        assert(ps.take(i + 1).last() == p@);
        if list_contains(pkgbases, p.as_str()) {
            assert(views(found@.push(p)) =~= views(found@).push(p@));
            found.push(p);
        } else {
            assert(views(err@.push(p)) =~= views(err@).push(p@));
            err.push(p);
        }
        i = i + 1;
    }
    assert(ps.take(ps.len() as int) =~= ps);
    (found, err)
}

/// What became of the last step of fetching a package's AUR repository.
pub enum PkgFetchEvent {
    Start,
    /// Whether the repository's directory exists.
    DirExists(bool),
    /// Whether `git fetch` succeeded.
    Fetched(bool),
    /// The output of the diff against what was fetched.
    Diff(String),
    /// Whether `git clone` succeeded.
    Cloned(bool),
    /// The listing of the files of the fresh clone.
    Listing(String),
}

/// What fetching a package's AUR repository found.
pub enum FetchOutcome {
    Unchanged,
    Changed(String),
    Failed,
}

/// The next step of fetching a package's AUR repository.
pub enum PkgFetchAction {
    /// Report whether this directory exists.
    CheckDir(String),
    /// Run `git fetch` and report whether it succeeded.
    Fetch(ShellCommand),
    /// Run `git diff` and report its output.
    Diff(ShellCommand),
    /// Run `git clone` and report whether it succeeded.
    Clone(ShellCommand),
    /// Report the files of this directory with their contents.
    ReadDir(String),
    Done(FetchOutcome),
}

pub enum OutcomeView {
    Unchanged,
    Changed(Seq<char>),
    Failed,
}

pub open spec fn outcome_view(o: FetchOutcome) -> OutcomeView {
    match o {
        FetchOutcome::Unchanged => OutcomeView::Unchanged,
        FetchOutcome::Changed(s) => OutcomeView::Changed(s@),
        FetchOutcome::Failed => OutcomeView::Failed,
    }
}

pub enum PkgFetchStep {
    CheckDir(Seq<char>),
    Fetch((Seq<char>, Seq<Seq<char>>, Option<Seq<char>>, bool)),
    Diff((Seq<char>, Seq<Seq<char>>, Option<Seq<char>>, bool)),
    Clone((Seq<char>, Seq<Seq<char>>, Option<Seq<char>>, bool)),
    ReadDir(Seq<char>),
    Done(OutcomeView),
}

impl View for PkgFetchAction {
    type V = PkgFetchStep;

    open spec fn view(&self) -> PkgFetchStep {
        match self {
            PkgFetchAction::CheckDir(p) => PkgFetchStep::CheckDir(p@),
            PkgFetchAction::Fetch(c) => PkgFetchStep::Fetch(c@),
            PkgFetchAction::Diff(c) => PkgFetchStep::Diff(c@),
            PkgFetchAction::Clone(c) => PkgFetchStep::Clone(c@),
            PkgFetchAction::ReadDir(p) => PkgFetchStep::ReadDir(p@),
            PkgFetchAction::Done(o) => PkgFetchStep::Done(outcome_view(*o)),
        }
    }
}

/// The step of fetching the AUR repository of `name` into `clone_path` after `event`:
/// an existing clone is fetched and diffed, a missing one cloned and listed.
pub open spec fn fetch_pkg_spec(clone_path: Seq<char>, name: Seq<char>, event: PkgFetchEvent) -> PkgFetchStep {
    let dir = path_join(clone_path, name);
    match event {
        PkgFetchEvent::Start => PkgFetchStep::CheckDir(dir),
        PkgFetchEvent::DirExists(true) => PkgFetchStep::Fetch(git_command(dir, seq!["fetch"@], false)),
        PkgFetchEvent::DirExists(false) => PkgFetchStep::Clone(
            git_command(clone_path, seq!["clone"@, URL_AUR@ + "/"@ + name + ".git"@], false),
        ),
        PkgFetchEvent::Fetched(false) => PkgFetchStep::Done(OutcomeView::Failed),
        PkgFetchEvent::Fetched(true) => PkgFetchStep::Diff(
            git_command(dir, seq!["diff"@, "HEAD"@, "FETCH_HEAD"@, "--color=always"@], false),
        ),
        PkgFetchEvent::Diff(s) => if trimmed(s@).len() == 0 {
            PkgFetchStep::Done(OutcomeView::Unchanged)
        } else {
            PkgFetchStep::Done(OutcomeView::Changed(s@))
        },
        PkgFetchEvent::Cloned(false) => PkgFetchStep::Done(OutcomeView::Failed),
        PkgFetchEvent::Cloned(true) => PkgFetchStep::ReadDir(dir),
        PkgFetchEvent::Listing(s) => PkgFetchStep::Done(OutcomeView::Changed(s@)),
    }
}

/// Fetches the AUR repository of the package `name` under `clone_path`.
pub fn fetch_pkg(clone_path: &str, name: &str, event: PkgFetchEvent) -> (a: PkgFetchAction)
    ensures
        a@ == fetch_pkg_spec(clone_path@, name@, event),
{
    let pkg_dir = join(clone_path, name);
    match event {
        PkgFetchEvent::Start => PkgFetchAction::CheckDir(pkg_dir),
        PkgFetchEvent::DirExists(exists) => {
            if exists {
                PkgFetchAction::Fetch(Git::cwd(pkg_dir).fetch())
            } else {
                let mut url = String::from_str(URL_AUR);
                url.append("/");
                url.append(name);
                url.append(".git");
                PkgFetchAction::Clone(Git::cwd(String::from_str(clone_path)).clone(url.as_str()))
            }
        },
        PkgFetchEvent::Fetched(ok) => {
            if ok {
                PkgFetchAction::Diff(Git::cwd(pkg_dir).diff_fetch_color())
            } else {
                PkgFetchAction::Done(FetchOutcome::Failed)
            }
        },
        PkgFetchEvent::Diff(s) => {
            let t = trim(s.as_str());
            if t.as_str().unicode_len() == 0 {
                PkgFetchAction::Done(FetchOutcome::Unchanged)
            } else {
                PkgFetchAction::Done(FetchOutcome::Changed(s))
            }
        },
        PkgFetchEvent::Cloned(ok) => {
            if ok {
                PkgFetchAction::ReadDir(pkg_dir)
            } else {
                PkgFetchAction::Done(FetchOutcome::Failed)
            }
        },
        PkgFetchEvent::Listing(s) => PkgFetchAction::Done(FetchOutcome::Changed(s)),
    }
}

/// The items whose fetch found nothing new.
pub open spec fn unchanged_of<T>(rs: Seq<(T, OutcomeView)>) -> Seq<T> {
    keep(rs, |r: (T, OutcomeView)| r.1 is Unchanged).map_values(|r: (T, OutcomeView)| r.0)
}

/// The items whose fetch found changes, with what was found.
pub open spec fn changed_of<T>(rs: Seq<(T, OutcomeView)>) -> Seq<(T, Seq<char>)> {
    keep(rs, |r: (T, OutcomeView)| r.1 is Changed).map_values(
        |r: (T, OutcomeView)| (r.0, r.1->Changed_0),
    )
}

/// The items whose fetch failed.
pub open spec fn failed_of<T>(rs: Seq<(T, OutcomeView)>) -> Seq<T> {
    keep(rs, |r: (T, OutcomeView)| r.1 is Failed).map_values(|r: (T, OutcomeView)| r.0)
}

pub open spec fn results_view<T>(rs: Seq<(T, FetchOutcome)>) -> Seq<(T, OutcomeView)> {
    rs.map_values(|r: (T, FetchOutcome)| (r.0, outcome_view(r.1)))
}

pub open spec fn changed_view<T>(v: Seq<(T, String)>) -> Seq<(T, Seq<char>)> {
    v.map_values(|r: (T, String)| (r.0, r.1@))
}

/// Sorts the fetched packages by what their fetch found: nothing new, changes (with
/// their diff or listing), failure; each in the order of `results`.
pub fn fetch_pkgs<T>(results: Vec<(T, FetchOutcome)>) -> (r: (Vec<T>, Vec<(T, String)>, Vec<T>))
    ensures
        r.0@ == unchanged_of(results_view(results@)),
        changed_view(r.1@) == changed_of(results_view(results@)),
        r.2@ == failed_of(results_view(results@)),
{
    let ghost rs = results_view(results@);
    let mut old_pkgs: Vec<T> = Vec::new();
    let mut new_pkgs: Vec<(T, String)> = Vec::new();
    let mut err_pkgs: Vec<T> = Vec::new();
    let total = results.len();
    let ghost n = results@.len();
    let mut rest = results;
    let ghost orig = rest@;
    let mut i: usize = 0;
    assert(rs.take(0) =~= Seq::<(T, OutcomeView)>::empty());
    while rest.len() > 0
        invariant
            rs == results_view(orig),
            n == orig.len(),
            n == total,
            i + rest@.len() == n,
            rest@ == orig.skip(i as int),
            old_pkgs@ == unchanged_of(rs.take(i as int)),
            changed_view(new_pkgs@) == changed_of(rs.take(i as int)),
            err_pkgs@ == failed_of(rs.take(i as int)),
        decreases rest@.len(),
    {
        let (item, outcome) = rest.remove(0);
        proof {
            assert(rs.take(i + 1).drop_last() =~= rs.take(i as int));
            assert(rs.take(i + 1).last() == (orig[i as int].0, outcome_view(orig[i as int].1)));
            assert(orig.skip(i as int)[0] == orig[i as int]);
            assert(orig.skip(i as int).drop_first() =~= orig.skip(i + 1));
        }
        match outcome {
            FetchOutcome::Unchanged => {
                old_pkgs.push(item);
                assert(old_pkgs@ =~= unchanged_of(rs.take(i + 1)));
                assert(changed_view(new_pkgs@) =~= changed_of(rs.take(i + 1)));
                assert(err_pkgs@ =~= failed_of(rs.take(i + 1)));
            },
            FetchOutcome::Changed(s) => {
                let ghost sv = s@;
                assert(changed_view(new_pkgs@.push((item, s))) =~= changed_view(new_pkgs@).push((item, sv)));
                new_pkgs.push((item, s));
                assert(old_pkgs@ =~= unchanged_of(rs.take(i + 1)));
                assert(changed_view(new_pkgs@) =~= changed_of(rs.take(i + 1)));
                assert(err_pkgs@ =~= failed_of(rs.take(i + 1)));
            },
            FetchOutcome::Failed => {
                err_pkgs.push(item);
                assert(old_pkgs@ =~= unchanged_of(rs.take(i + 1)));
                assert(changed_view(new_pkgs@) =~= changed_of(rs.take(i + 1)));
                assert(err_pkgs@ =~= failed_of(rs.take(i + 1)));
            },
        }
        i = i + 1;
    }
    assert(rs.take(n as int) =~= rs);
    (old_pkgs, new_pkgs, err_pkgs)
}

proof fn lemma_keep_three<A>(s: Seq<A>, f: spec_fn(A) -> bool, g: spec_fn(A) -> bool, h: spec_fn(A) -> bool)
    requires
        forall|x: A| #![trigger f(x)] #![trigger g(x)] #![trigger h(x)]
            (f(x) && !g(x) && !h(x)) || (!f(x) && g(x) && !h(x)) || (!f(x) && !g(x) && h(x)),
    ensures
        keep(s, f).len() + keep(s, g).len() + keep(s, h).len() == s.len(),
    decreases s.len(),
{
    if s.len() > 0 {
        lemma_keep_three(s.drop_last(), f, g, h);
        assert(f(s.last()) || g(s.last()) || h(s.last()));
    }
}

/// The text that shows a file of a newly cloned repository.
pub open spec fn listing_entry(path: Seq<char>, content: Option<Seq<char>>) -> Seq<char> {
    match content {
        Some(c) => path + ":\n"@ + c + "\n"@,
        None => path + ": not UTF-8 or something idk.\n\n"@,
    }
}

/// Shows the file at `path` with its content, or says that its content is not text
/// (`None`).
pub fn file_listing(path: &str, content: Option<String>) -> (r: String)
    ensures
        r@ == listing_entry(path@, match content {
            Some(c) => Some(c@),
            None => None,
        }),
{
    let mut r = String::from_str(path);
    match content {
        Some(c) => {
            r.append(":\n");
            r.append(c.as_str());
            r.append("\n");
        },
        None => {
            r.append(": not UTF-8 or something idk.\n\n");
        },
    }
    r
}

/// What is shown once fetched packages are sorted.
pub struct FetchReport {
    /// The changes are shown and the user is asked whether to go on.
    pub show_changes_and_ask: bool,
    /// No repository changed and none failed.
    pub say_no_changes: bool,
    /// The packages whose fetch failed are listed.
    pub list_failures: bool,
}

/// What to show after sorting: with `n_changed` repositories changed and `n_failed`
/// fetches failed, the changes are shown and confirmation asked exactly when some
/// repository changed; "no changes" is said when none changed and none failed; the
/// failures are listed when there are some.
pub fn fetch_report(n_changed: usize, n_failed: usize) -> (r: FetchReport)
    ensures
        r.show_changes_and_ask == (n_changed > 0),
        r.say_no_changes == (n_changed == 0 && n_failed == 0),
        r.list_failures == (n_failed > 0),
{
    FetchReport {
        show_changes_and_ask: n_changed > 0,
        say_no_changes: n_changed == 0 && n_failed == 0,
        list_failures: n_failed > 0,
    }
}

/// The items of `rs`, in order.
pub open spec fn outcome_items<T>(rs: Seq<(T, OutcomeView)>) -> Seq<T> {
    rs.map_values(|r: (T, OutcomeView)| r.0)
}

/// The items of the changes found, in order.
pub open spec fn changed_items<T>(rs: Seq<(T, OutcomeView)>) -> Seq<T> {
    changed_of(rs).map_values(|c: (T, Seq<char>)| c.0)
}

proof fn lemma_outcomes_multiset<T>(rs: Seq<(T, OutcomeView)>)
    ensures
        (unchanged_of(rs) + changed_items(rs) + failed_of(rs)).to_multiset() =~= outcome_items(
            rs,
        ).to_multiset(),
    decreases rs.len(),
{
    broadcast use vstd::seq_lib::group_to_multiset_ensures;
    broadcast use vstd::seq_lib::lemma_multiset_commutative;
    broadcast use vstd::multiset::group_multiset_axioms;

    if rs.len() == 0 {
        assert(unchanged_of(rs) =~= Seq::<T>::empty());
        assert(changed_items(rs) =~= Seq::<T>::empty());
        assert(failed_of(rs) =~= Seq::<T>::empty());
        assert(outcome_items(rs) =~= Seq::<T>::empty());
        assert(unchanged_of(rs) + changed_items(rs) + failed_of(rs) =~= Seq::<T>::empty());
    } else {
        let d = rs.drop_last();
        let x = rs.last();
        lemma_outcomes_multiset(d);
        assert(outcome_items(rs) =~= outcome_items(d).push(x.0));
        let u = unchanged_of(d);
        let c = changed_items(d);
        let f = failed_of(d);
        match x.1 {
            OutcomeView::Unchanged => {
                assert(unchanged_of(rs) =~= u.push(x.0));
                assert(changed_items(rs) =~= c);
                assert(failed_of(rs) =~= f);
                assert((u.push(x.0) + c + f).to_multiset() =~= (u + c + f).to_multiset().insert(x.0));
            },
            OutcomeView::Changed(_) => {
                assert(unchanged_of(rs) =~= u);
                assert(changed_items(rs) =~= c.push(x.0));
                assert(failed_of(rs) =~= f);
                assert((u + c.push(x.0) + f).to_multiset() =~= (u + c + f).to_multiset().insert(x.0));
            },
            OutcomeView::Failed => {
                assert(unchanged_of(rs) =~= u);
                assert(changed_items(rs) =~= c);
                assert(failed_of(rs) =~= f.push(x.0));
                assert(u + c + f.push(x.0) =~= (u + c + f).push(x.0));
            },
        }
    }
}

/// Sorting fetched packages by outcome loses none and repeats none: each fetched
/// package lands, unchanged, in exactly one of the three lists, so that together
/// they hold the fetched packages, each as often as it was fetched.
pub proof fn lemma_fetch_outcomes_partition<T>(rs: Seq<(T, OutcomeView)>)
    ensures
        unchanged_of(rs).len() + changed_of(rs).len() + failed_of(rs).len() == rs.len(),
        (unchanged_of(rs) + changed_items(rs) + failed_of(rs)).to_multiset() == outcome_items(
            rs,
        ).to_multiset(),
{
    let f = |r: (T, OutcomeView)| r.1 is Unchanged;
    let g = |r: (T, OutcomeView)| r.1 is Changed;
    let h = |r: (T, OutcomeView)| r.1 is Failed;
    lemma_keep_three(rs, f, g, h);
    assert(unchanged_of(rs).len() == keep(rs, f).len());
    assert(changed_of(rs).len() == keep(rs, g).len());
    assert(failed_of(rs).len() == keep(rs, h).len());
    lemma_outcomes_multiset(rs);
}

/// `is_in_pkgbases` splits the names it is given: each name goes to exactly one side
/// (the found side when it is a package base), and no name is lost.
pub proof fn lemma_pkgbases_partition(pkgbases: Seq<String>, pkgs: Seq<Seq<char>>)
    ensures
        ({
            let found = keep(pkgs, |x: Seq<char>| in_list(pkgbases, x));
            let missing = keep(pkgs, |x: Seq<char>| !in_list(pkgbases, x));
            &&& found.len() + missing.len() == pkgs.len()
            &&& forall|i: int| 0 <= i < found.len() ==> in_list(pkgbases, #[trigger] found[i]) && pkgs.contains(found[i])
            &&& forall|i: int| 0 <= i < missing.len() ==> !in_list(pkgbases, #[trigger] missing[i]) && pkgs.contains(missing[i])
            &&& forall|i: int| 0 <= i < pkgs.len() ==> (found.contains(#[trigger] pkgs[i]) || missing.contains(pkgs[i]))
        }),
{
    let f = |x: Seq<char>| in_list(pkgbases, x);
    let g = |x: Seq<char>| !in_list(pkgbases, x);
    lemma_keep_split(pkgs, f, g);
    lemma_keep(pkgs, f);
    lemma_keep(pkgs, g);
    assert forall|i: int| 0 <= i < pkgs.len() implies (keep(pkgs, f).contains(#[trigger] pkgs[i]) || keep(pkgs, g).contains(pkgs[i])) by {
        if f(pkgs[i]) {
        } else {
            assert(g(pkgs[i]));
        }
    }
}

} // verus!
