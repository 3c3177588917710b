use saur::alpm::Package;
use saur::build::PkgInfo;
use saur::config::PkgValue;
use saur::pacman::InstallInfo;
use saur::sync::{SyncRun, SyncRunAction, SyncRunEvent};
use saur::upgrade::{get_versions, keep_upgradable, run, InstallAction, InstallEvent, InstallRun};

fn local(name: &str, version: &str) -> Package {
    Package {
        name: name.to_string(),
        version: version.to_string(),
        packager: Some("Unknown Packager".to_string()),
        depends: vec![],
        provides: vec![],
        required_by: vec![],
    }
}

#[test]
fn versions_of_the_packages_to_install() {
    let a = local("yay", "12.0-1");
    let b = local("paru", "2.0-1");
    let list = vec![PkgValue::Str("paru".to_string()), PkgValue::Str("yay".to_string())];
    let v = get_versions(&vec![&a, &b], &list);
    assert_eq!(v.len(), 2);
    assert_eq!(v[0].0.name, "paru");
    assert_eq!(v[0].1.as_deref(), Some("2.0-1"));
    assert_eq!(v[1].0.name, "yay");
    assert_eq!(v[1].1.as_deref(), Some("12.0-1"));
}

#[test]
fn only_packages_with_newer_versions_are_kept() {
    let infos = vec![
        (PkgInfo::new("a".to_string()), Some("1".to_string())),
        (PkgInfo::new("b".to_string()), Some("1".to_string())),
        (PkgInfo::new("c".to_string()), None),
    ];
    let kept = keep_upgradable(infos, &vec!["c".to_string(), "a".to_string()]);
    let names: Vec<&str> = kept.iter().map(|x| x.0.name.as_str()).collect();
    assert_eq!(names, vec!["a", "c"]);
}

#[test]
fn upgrade_takes_no_arguments() {
    assert!(run(&vec![]).is_ok());
    assert_eq!(run(&vec!["x".to_string()]).unwrap_err(), "unexpected arguments.");
}

fn info(path: &str, asdeps: bool) -> InstallInfo {
    InstallInfo { pkg_paths: vec![path.to_string()], needed: false, asdeps, asexplicit: false }
}

#[test]
fn upgrades_are_built_and_installed_in_turn() {
    let pkgs: Vec<(PkgInfo, Option<String>)> = ["a", "b", "c"]
        .iter()
        .map(|n| (PkgInfo::new(n.to_string()), Some("1".to_string())))
        .collect();
    let run = InstallRun::new("/c", &pkgs);
    let (run, act) = run.step(InstallEvent::Start);
    match act {
        InstallAction::Build { cwd, pkg, noextract } => {
            assert!(noextract);
            assert_eq!(cwd, "/c/a");
            assert_eq!(pkg.name, "a");
            assert!(!pkg.needed && !pkg.asdeps && !pkg.asexplicit && !pkg.force);
        }
        _ => panic!(),
    }
    // `a` fails to build: the next package is taken
    let (run, act) = run.step(InstallEvent::Built(Err("a".to_string())));
    assert!(matches!(act, InstallAction::Build { ref cwd, .. } if cwd == "/c/b"));
    // `b` gives two file sets, installed one after the other
    let (run, act) =
        run.step(InstallEvent::Built(Ok(vec![info("/c/b/b.pkg.tar.zst", false), info("/c/b/b-x.pkg.tar.zst", true)])));
    match act {
        InstallAction::Install(c) => {
            assert_eq!(c.program, "sudo");
            assert_eq!(c.args, vec!["pacman", "-U", "--noconfirm", "--", "/c/b/b.pkg.tar.zst"]);
        }
        _ => panic!(),
    }
    let (run, act) = run.step(InstallEvent::Installed(true));
    match act {
        InstallAction::Install(c) => {
            assert_eq!(c.args, vec!["pacman", "-U", "--noconfirm", "--asdeps", "--", "/c/b/b-x.pkg.tar.zst"])
        }
        _ => panic!(),
    }
    let (run, act) = run.step(InstallEvent::Installed(true));
    assert!(matches!(act, InstallAction::Build { ref cwd, .. } if cwd == "/c/c"));
    let (run, act) = run.step(InstallEvent::Built(Ok(vec![info("/c/c/c.pkg.tar.zst", false)])));
    assert!(matches!(act, InstallAction::Install(_)));
    // a failed install ends the run
    let (_, act) = run.step(InstallEvent::Installed(false));
    match act {
        InstallAction::Done { build_errors, install_failed, exit_code } => {
            assert_eq!(build_errors, vec!["a"]);
            assert_eq!(install_failed.as_deref(), Some("c"));
            assert_eq!(exit_code, 1);
        }
        _ => panic!(),
    }
}

#[test]
fn upgrade_run_without_failures() {
    let pkgs = vec![(PkgInfo::new("a".to_string()), Some("1".to_string()))];
    let (run, _) = InstallRun::new("/c/", &pkgs).step(InstallEvent::Start);
    // nothing built: nothing to install
    let (_, act) = run.step(InstallEvent::Built(Ok(vec![])));
    match act {
        InstallAction::Done { build_errors, install_failed, exit_code } => {
            assert!(build_errors.is_empty());
            assert_eq!(install_failed, None);
            assert_eq!(exit_code, 0);
        }
        _ => panic!(),
    }
    let (_, act) = InstallRun::new("/c", &vec![]).step(InstallEvent::Start);
    assert!(matches!(act, InstallAction::Done { ref build_errors, install_failed: None, exit_code: 0 } if build_errors.is_empty()));
    // a failed build alone ends the run with exit code 1
    let (run, _) = InstallRun::new("/c", &pkgs).step(InstallEvent::Start);
    let (_, act) = run.step(InstallEvent::Built(Err("a".to_string())));
    assert!(matches!(act, InstallAction::Done { install_failed: None, exit_code: 1, .. }));
}

#[test]
fn synced_packages_are_reset_built_then_installed() {
    let mut a = PkgInfo::new("a".to_string());
    a.needed = true;
    a.force = true;
    let b = PkgInfo::new("b".to_string());
    let run = SyncRun::new("/c", vec![a, b]);
    let (run, act) = run.step(SyncRunEvent::Start);
    match act {
        SyncRunAction::Reset(c) => {
            assert_eq!(c.program, "git");
            assert_eq!(c.args, vec!["reset", "--hard", "origin"]);
            assert_eq!(c.cwd.as_deref(), Some("/c/a"));
        }
        _ => panic!(),
    }
    let (run, act) = run.step(SyncRunEvent::ResetDone);
    match act {
        SyncRunAction::Build { cwd, pkg, noextract } => {
            assert!(!noextract);
            assert_eq!(cwd, "/c/a");
            assert!(pkg.name == "a" && pkg.needed && pkg.force && !pkg.asdeps);
        }
        _ => panic!(),
    }
    let mut built = info("/c/a/a.pkg.tar.zst", false);
    built.needed = true;
    let (run, act) = run.step(SyncRunEvent::Built(Ok(vec![built])));
    assert!(matches!(act, SyncRunAction::Reset(ref c) if c.cwd.as_deref() == Some("/c/b")));
    let (run, act) = run.step(SyncRunEvent::ResetDone);
    assert!(matches!(act, SyncRunAction::Build { ref cwd, .. } if cwd == "/c/b"));
    // every package taken: the installs follow
    let (run, act) = run.step(SyncRunEvent::Built(Err("b".to_string())));
    match act {
        SyncRunAction::Install(c) => {
            assert_eq!(c.args, vec!["pacman", "-U", "--needed", "--", "/c/a/a.pkg.tar.zst"])
        }
        _ => panic!(),
    }
    let (_, act) = run.step(SyncRunEvent::Installed(0));
    match act {
        SyncRunAction::Done { build_errors, code } => {
            assert_eq!(build_errors, vec!["b"]);
            assert_eq!(code, 0);
        }
        _ => panic!(),
    }
}

#[test]
fn failed_sync_install_ends_with_its_code() {
    let run = SyncRun::new("/c", vec![PkgInfo::new("a".to_string())]);
    let (run, _) = run.step(SyncRunEvent::Start);
    let (run, _) = run.step(SyncRunEvent::ResetDone);
    let (run, _) = run.step(SyncRunEvent::Built(Ok(vec![info("/c/a/a.pkg.tar.zst", false), info("/c/a/x.pkg.tar.zst", true)])));
    let (_, act) = run.step(SyncRunEvent::Installed(1));
    assert!(matches!(act, SyncRunAction::Done { code: 1, .. }));
}
