use saur::bash::Bash;
use saur::clear;
use saur::cli::{parse_command, Cmd};
use saur::fetch::{fetch_pkg, fetch_pkglist, fetch_pkgs, get_pkgbases, CmdEvent, FetchAction, FetchOutcome, ListAction, ListEvent, PkgFetchAction, PkgFetchEvent};
use saur::gen_config;
use saur::git::Git;
use saur::globals::{config_path, EnvVar, Globals};
use saur::makepkg::Makepkg;
use saur::pacman::{InstallInfo, Pacman};
use saur::search::{self, SearchAction, SearchEvent};
use saur::threadpool::{check_size, PoolCreationError};
use saur::update::{self, UpdateAction, UpdateEvent};
use saur::upgrade_old;
use saur::ver::{get_pkg_to_upgrade, VerAction, VerCmp, VerEvent, VerOutcome, GET_FULL_VERSION};
use saur::build::PkgInfo;

fn s(v: &[&str]) -> Vec<String> {
    v.iter().map(|x| x.to_string()).collect()
}

#[test]
fn cache_directory_from_the_environment() {
    let g = Globals::build(EnvVar::Value("/x/cache".to_string()), EnvVar::NotPresent).unwrap();
    assert_eq!(g.cache_path, "/x/cache/saur");
    let g = Globals::build(EnvVar::Value("/x/cache/".to_string()), EnvVar::NotUnicode).unwrap();
    assert_eq!(g.cache_path, "/x/cache/saur");
    let g = Globals::build(EnvVar::NotPresent, EnvVar::Value("/home/u".to_string())).unwrap();
    assert_eq!(g.cache_path, "/home/u/.cache/saur");
    assert_eq!(g.clone_path(), "/home/u/.cache/saur/clone");
    assert_eq!(Globals::build(EnvVar::NotPresent, EnvVar::NotPresent).err().unwrap(), "$HOME is not set");
    assert_eq!(Globals::build(EnvVar::NotPresent, EnvVar::NotUnicode).err().unwrap(), "Invalid $HOME value");
    assert_eq!(Globals::build(EnvVar::NotUnicode, EnvVar::NotPresent).err().unwrap(), "Invalid $XDG_CACHE_HOME value");
}

#[test]
fn configuration_file_from_the_environment() {
    let v = |x: &str| EnvVar::Value(x.to_string());
    assert_eq!(config_path(v("/x/conf"), EnvVar::NotPresent).unwrap(), "/x/conf/saur/config.toml");
    assert_eq!(config_path(EnvVar::NotPresent, v("/home/u")).unwrap(), "/home/u/.config/saur/config.toml");
    assert_eq!(config_path(EnvVar::NotPresent, EnvVar::NotPresent).unwrap_err(), "$HOME is not set");
    assert_eq!(config_path(EnvVar::NotPresent, EnvVar::NotUnicode).unwrap_err(), "Invalid $HOME value");
    assert_eq!(config_path(EnvVar::NotUnicode, v("/home/u")).unwrap_err(), "Invalid $XDG_CONFIG_HOME value");
}

#[test]
fn makepkg_arguments() {
    let m = Makepkg::new();
    let c = m.status();
    assert_eq!(c.program, "makepkg");
    assert!(c.args.is_empty());
    assert_eq!(c.cwd, None);
    let m = Makepkg { force: true, clean: true, packagelist: true, cwd: "/r".to_string(), ..Default::default() };
    let c = m.output();
    assert_eq!(c.args, vec!["--force", "--packagelist", "--clean"]);
    assert_eq!(c.cwd.as_deref(), Some("/r"));
    assert!(!c.quiet);
    assert!(Makepkg { nobuild: true, ..Default::default() }.status_mute().quiet);
}

#[test]
fn pacman_commands() {
    let c = Pacman::Syu_status();
    assert_eq!(c.program, "sudo");
    assert_eq!(c.args, vec!["pacman", "-Syu"]);
    let info = InstallInfo { pkg_paths: s(&["/a.pkg.tar.zst", "/b.pkg.tar.zst"]), needed: true, asdeps: true, asexplicit: false };
    let c = Pacman { yes: true }.U_all_status(&info);
    assert_eq!(c.args, vec!["pacman", "-U", "--noconfirm", "--asdeps", "--needed", "--", "/a.pkg.tar.zst", "/b.pkg.tar.zst"]);
    let info = InstallInfo { pkg_paths: s(&["/a"]), needed: false, asdeps: false, asexplicit: true };
    let c = Pacman { yes: false }.U_all_status(&info);
    assert_eq!(c.args, vec!["pacman", "-U", "--asexplicit", "--", "/a"]);
}

#[test]
fn git_and_bash_commands() {
    let g = Git::cwd("/r".to_string());
    assert_eq!(g.fetch().args, vec!["fetch"]);
    assert_eq!(g.diff_fetch_color().args, vec!["diff", "HEAD", "FETCH_HEAD", "--color=always"]);
    assert_eq!(g.reset_hard_origin().args, vec!["reset", "--hard", "origin"]);
    assert!(g.reset_hard_origin_mute().quiet);
    assert!(!g.reset_hard_origin().quiet);
    let c = g.clone("https://aur.archlinux.org/yay.git");
    assert_eq!(c.program, "git");
    assert_eq!(c.args, vec!["clone", "https://aur.archlinux.org/yay.git"]);
    assert_eq!(c.cwd.as_deref(), Some("/r"));
    let b = Bash::cwd("/r".to_string()).output("echo hi");
    assert_eq!(b.program, "bash");
    assert_eq!(b.args, vec!["-c", "echo hi"]);
}

#[test]
fn downloading_the_package_list() {
    let g = Globals { cache_path: "/c".to_string() };
    match fetch_pkglist(&g, CmdEvent::Start) {
        FetchAction::Run(c) => {
            assert_eq!(c.program, "sh");
            assert_eq!(c.args, vec!["-c", "curl https://aur.archlinux.org/packages.gz | gzip -cd > 'packages'"]);
            assert_eq!(c.cwd.as_deref(), Some("/c"));
        }
        _ => panic!(),
    }
    match fetch_pkglist(&g, CmdEvent::Exited { success: false }) {
        FetchAction::Done(Err(e)) => assert_eq!(e, "`curl https://aur.archlinux.org/packages.gz | gzip -cd > 'packages'` failed"),
        _ => panic!(),
    }
    match fetch_pkglist(&g, CmdEvent::NotRun) {
        FetchAction::Done(Err(e)) => assert_eq!(e, "sh could not be executed"),
        _ => panic!(),
    }
    assert!(matches!(fetch_pkglist(&g, CmdEvent::Exited { success: true }), FetchAction::Done(Ok(()))));
}

#[test]
fn reading_the_package_base_list() {
    let g = Globals { cache_path: "/c".to_string() };
    match get_pkgbases(&g, ListEvent::Start) {
        ListAction::CheckExists(p) => assert_eq!(p, "/c/pkgbase"),
        _ => panic!(),
    }
    assert!(matches!(get_pkgbases(&g, ListEvent::Exists(true)), ListAction::ReadFile(p) if p == "/c/pkgbase"));
    match get_pkgbases(&g, ListEvent::Exists(false)) {
        ListAction::Run(c) => assert_eq!(c.args[1], "curl https://aur.archlinux.org/pkgbase.gz | gzip -cd > 'pkgbase'"),
        _ => panic!(),
    }
    assert!(matches!(get_pkgbases(&g, ListEvent::Fetch(CmdEvent::Exited { success: true })), ListAction::ReadFile(_)));
    assert!(matches!(get_pkgbases(&g, ListEvent::Fetch(CmdEvent::NotRun)), ListAction::Done(Err(_))));
    match get_pkgbases(&g, ListEvent::Content("yay\nparu\n".to_string())) {
        ListAction::Done(Ok(v)) => assert_eq!(v, vec!["yay", "paru"]),
        _ => panic!(),
    }
}

#[test]
fn fetching_a_repository() {
    assert!(matches!(fetch_pkg("/c", "yay", PkgFetchEvent::Start), PkgFetchAction::CheckDir(d) if d == "/c/yay"));
    match fetch_pkg("/c", "yay", PkgFetchEvent::DirExists(false)) {
        PkgFetchAction::Clone(c) => {
            assert_eq!(c.args, vec!["clone", "https://aur.archlinux.org/yay.git"]);
            assert_eq!(c.cwd.as_deref(), Some("/c"));
        }
        _ => panic!(),
    }
    match fetch_pkg("/c", "yay", PkgFetchEvent::DirExists(true)) {
        PkgFetchAction::Fetch(c) => {
            assert_eq!(c.args, vec!["fetch"]);
            assert_eq!(c.cwd.as_deref(), Some("/c/yay"));
        }
        _ => panic!(),
    }
    match fetch_pkg("/c", "yay", PkgFetchEvent::Fetched(true)) {
        PkgFetchAction::Diff(c) => assert_eq!(c.args, vec!["diff", "HEAD", "FETCH_HEAD", "--color=always"]),
        _ => panic!(),
    }
    assert!(matches!(fetch_pkg("/c", "yay", PkgFetchEvent::Diff(" \n".to_string())), PkgFetchAction::Done(FetchOutcome::Unchanged)));
    assert!(matches!(fetch_pkg("/c", "yay", PkgFetchEvent::Diff("+x\n".to_string())), PkgFetchAction::Done(FetchOutcome::Changed(d)) if d == "+x\n"));
    assert!(matches!(fetch_pkg("/c", "yay", PkgFetchEvent::Fetched(false)), PkgFetchAction::Done(FetchOutcome::Failed)));
    assert!(matches!(fetch_pkg("/c", "yay", PkgFetchEvent::Cloned(true)), PkgFetchAction::ReadDir(d) if d == "/c/yay"));
}

#[test]
fn fetched_packages_sorted_by_outcome() {
    let results = vec![
        ("a", FetchOutcome::Unchanged),
        ("b", FetchOutcome::Changed("diff".to_string())),
        ("c", FetchOutcome::Failed),
        ("d", FetchOutcome::Unchanged),
    ];
    let (old, new, err) = fetch_pkgs(results);
    assert_eq!(old, vec!["a", "d"]);
    assert_eq!(new, vec![("b", "diff".to_string())]);
    assert_eq!(err, vec!["c"]);
}

#[test]
fn checking_for_a_newer_version() {
    let pv = (PkgInfo::new("yay".to_string()), Some("12.0-1".to_string()));
    match get_pkg_to_upgrade("/c", &pv, VerEvent::Start) {
        VerAction::Reset(c) => {
            assert_eq!(c.args, vec!["reset", "--hard", "origin"]);
            assert!(c.quiet);
        }
        _ => panic!(),
    }
    match get_pkg_to_upgrade("/c", &pv, VerEvent::ResetExited(true)) {
        VerAction::Prepare(c) => {
            assert_eq!(c.program, "makepkg");
            assert_eq!(c.args, vec!["--nobuild"]);
        }
        _ => panic!(),
    }
    match get_pkg_to_upgrade("/c", &pv, VerEvent::MakepkgExited(true)) {
        VerAction::Version(c) => assert_eq!(c.args, vec!["-c", GET_FULL_VERSION]),
        _ => panic!(),
    }
    match get_pkg_to_upgrade("/c", &pv, VerEvent::VersionOutput { success: true, stdout: "12.1-1\n".to_string() }) {
        VerAction::Compare { old, new } => {
            assert_eq!(old, "12.0-1");
            assert_eq!(new, "12.1-1");
        }
        _ => panic!(),
    }
    assert!(matches!(get_pkg_to_upgrade("/c", &pv, VerEvent::Compared(VerCmp::Less)), VerAction::Done(VerOutcome::Upgrade)));
    assert!(matches!(get_pkg_to_upgrade("/c", &pv, VerEvent::Compared(VerCmp::Greater)), VerAction::Done(VerOutcome::Higher)));
    assert!(matches!(get_pkg_to_upgrade("/c", &pv, VerEvent::ResetExited(false)), VerAction::Done(VerOutcome::Failed)));
}

#[test]
fn searching_package_bases() {
    assert!(matches!(search::run(&vec![], SearchEvent::Start), SearchAction::Done(Err(e)) if e == "no search word specified"));
    assert!(matches!(search::run(&s(&["a", "b"]), SearchEvent::Start), SearchAction::Done(Err(e)) if e == "unexpected arguments"));
    assert!(matches!(search::run(&s(&["ya"]), SearchEvent::Start), SearchAction::LoadPkgbases));
    match search::run(&s(&["ya"]), SearchEvent::Pkgbases(s(&["yay", "paru", "yaourt"]))) {
        SearchAction::Done(Ok(lines)) => assert_eq!(lines, vec!["Found 2 AUR matches", "", "yay", "yaourt"]),
        _ => panic!(),
    }
    let many: Vec<String> = (0..30).map(|i| format!("pkg{}", i)).collect();
    match search::run(&s(&["pkg"]), SearchEvent::Pkgbases(many)) {
        SearchAction::Done(Ok(lines)) => {
            assert_eq!(lines[0], "Found 30 AUR matches");
            assert_eq!(lines[1], "Number of matches exceeded max limit, showing 25 matches");
            assert_eq!(lines[2], "");
            assert_eq!(lines.len(), 28);
            assert_eq!(lines[27], "pkg24");
        }
        _ => panic!(),
    }
}

#[test]
fn updating_the_lists() {
    let g = Globals { cache_path: "/c".to_string() };
    assert!(matches!(update::run(&g, &s(&["x"]), UpdateEvent::Start), UpdateAction::Done(Err(e)) if e == "unexpected arguments"));
    assert!(matches!(update::run(&g, &vec![], UpdateEvent::Start), UpdateAction::RunPkgList(_)));
    assert!(matches!(update::run(&g, &vec![], UpdateEvent::PkgList(CmdEvent::Exited { success: true })), UpdateAction::RunPkgBase(_)));
    assert!(matches!(update::run(&g, &vec![], UpdateEvent::PkgList(CmdEvent::NotRun)), UpdateAction::Done(Err(_))));
    assert!(matches!(update::run(&g, &vec![], UpdateEvent::PkgBase(CmdEvent::Exited { success: true })), UpdateAction::Done(Ok(()))));
}

#[test]
fn argument_checks_and_dispatch() {
    assert!(upgrade_old::run(&vec![]).is_ok());
    assert_eq!(upgrade_old::run(&s(&["x"])).unwrap_err(), "unexpected arguments");
    assert_eq!(clear::run(&s(&["x"])).unwrap_err(), "unexpected arguments");
    assert_eq!(gen_config::run(&s(&["x"])).unwrap_err(), "Unexpected arguments");
    assert!(clear::is_built_package("yay-12.0-1-x86_64.pkg.tar.zst"));
    assert!(!clear::is_built_package("PKGBUILD"));
    assert_eq!(parse_command(&s(&["saur"])).err().unwrap(), "no command specified");
    assert_eq!(parse_command(&s(&["saur", "frob"])).err().unwrap(), "invalid command `frob`");
    let (c, rest) = parse_command(&s(&["saur", "sync", "yay", "--needed"])).unwrap();
    assert_eq!(c, Cmd::Sync);
    assert_eq!(rest, vec!["yay", "--needed"]);
    assert_eq!(parse_command(&s(&["saur", "update-pkg-list"])).unwrap().0, Cmd::Update);
    assert_eq!(parse_command(&s(&["saur", "clear-cache"])).unwrap().0, Cmd::Clear);
    assert_eq!(parse_command(&s(&["saur", "gen-config"])).err().unwrap(), "invalid command `gen-config`");
    assert_eq!(parse_command(&s(&["saur", "help"])).unwrap().0, Cmd::Help);
    assert_eq!(parse_command(&s(&["saur", "upgrade-old"])).err().unwrap(), "invalid command `upgrade-old`");
    assert_eq!(check_size(0), Err(PoolCreationError::InvalidThreadCount));
    assert!(check_size(1).is_ok());
    assert!(check_size(4).is_ok());
    assert_eq!(PoolCreationError::InvalidThreadCount.message(), "thread count must be >= 1");
}

#[test]
fn what_is_shown_after_fetching() {
    let r = saur::fetch::fetch_report(2, 0);
    assert!(r.show_changes_and_ask && !r.say_no_changes && !r.list_failures);
    let r = saur::fetch::fetch_report(0, 0);
    assert!(!r.show_changes_and_ask && r.say_no_changes && !r.list_failures);
    let r = saur::fetch::fetch_report(0, 1);
    assert!(!r.show_changes_and_ask && !r.say_no_changes && r.list_failures);
    let r = saur::fetch::fetch_report(3, 1);
    assert!(r.show_changes_and_ask && !r.say_no_changes && r.list_failures);
}

#[test]
fn checked_versions_sorted_by_outcome() {
    let results = vec![
        ("a".to_string(), VerOutcome::Upgrade),
        ("b".to_string(), VerOutcome::Same),
        ("c".to_string(), VerOutcome::Failed),
        ("d".to_string(), VerOutcome::Higher),
        ("e".to_string(), VerOutcome::Upgrade),
    ];
    let (up, higher, failed) = saur::ver::sort_versions(&results);
    assert_eq!(up, vec!["a", "e"]);
    assert_eq!(higher, vec!["d"]);
    assert_eq!(failed, vec!["c"]);
}

#[test]
fn listing_a_cloned_file() {
    assert_eq!(saur::fetch::file_listing("/c/yay/PKGBUILD", Some("pkgname=yay".to_string())), "/c/yay/PKGBUILD:\npkgname=yay\n");
    assert_eq!(saur::fetch::file_listing("/c/yay/x.png", None), "/c/yay/x.png: not UTF-8 or something idk.\n\n");
}
