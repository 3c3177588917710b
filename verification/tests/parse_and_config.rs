use saur::alpm::{get_local_aur_pkgs, get_local_foreign_pkgs, Package};
use saur::config::{Config, InstallConfig, PkgValue, ProblemKind, TableValue, UpgradeConfig, name_of_member, val_to_name};
use saur::fetch::is_in_pkgbases;
use saur::sync::{parse_args, run, SyncAction, SyncEvent};

fn s(v: &[&str]) -> Vec<String> {
    v.iter().map(|x| x.to_string()).collect()
}

#[test]
fn flags_apply_to_later_packages() {
    let infos = parse_args(s(&["a", "--needed", "--asdeps", "b", "--no-needed", "-f", "c"])).unwrap();
    assert_eq!(infos.len(), 3);
    assert_eq!(infos[0].name, "a");
    assert!(!infos[0].needed && !infos[0].asdeps && !infos[0].force);
    assert_eq!(infos[1].name, "b");
    assert!(infos[1].needed && infos[1].asdeps && !infos[1].asexplicit && !infos[1].force);
    assert_eq!(infos[2].name, "c");
    assert!(!infos[2].needed && infos[2].asdeps && infos[2].force);
}

#[test]
fn asdeps_and_asexplicit_exclude_each_other() {
    let infos = parse_args(s(&["--asdeps", "--asexplicit", "a", "--asdeps", "b", "--no-asdeps", "c"])).unwrap();
    assert!(!infos[0].asdeps && infos[0].asexplicit);
    assert!(infos[1].asdeps && !infos[1].asexplicit);
    assert!(!infos[2].asdeps && !infos[2].asexplicit);
    for i in &infos {
        assert!(!(i.asdeps && i.asexplicit));
    }
}

#[test]
fn unknown_flags_are_listed() {
    let e = parse_args(s(&["a", "--bogus", "-x", "b"])).unwrap_err();
    assert_eq!(e, "unexpected flags: `-bogus` `x`");
}

#[test]
fn sync_needs_a_package() {
    match run(&Vec::new(), SyncEvent::Start) {
        SyncAction::Done(Err(e)) => assert_eq!(e, "no package specified"),
        _ => panic!(),
    }
    match run(&s(&["yay"]), SyncEvent::Start) {
        SyncAction::LoadPkgbases => {}
        _ => panic!(),
    }
    match run(&s(&["yay", "nope"]), SyncEvent::Pkgbases(s(&["yay", "paru"]))) {
        SyncAction::NotFound(v) => assert_eq!(v, vec!["nope"]),
        _ => panic!(),
    }
    match run(&s(&["--needed", "yay"]), SyncEvent::Pkgbases(s(&["yay"]))) {
        SyncAction::Sync(v) => {
            assert_eq!(v.len(), 1);
            assert!(v[0].needed);
        }
        _ => panic!(),
    }
}

#[test]
fn pkgbases_split_keeps_order() {
    let (found, missing) = is_in_pkgbases(&s(&["yay", "paru", "aurutils"]), s(&["paru", "nope", "yay", "zzz"]));
    assert_eq!(found, vec!["paru", "yay"]);
    assert_eq!(missing, vec!["nope", "zzz"]);
}

fn local(name: &str, packager: Option<&str>) -> Package {
    Package {
        name: name.to_string(),
        version: "1-1".to_string(),
        packager: packager.map(|p| p.to_string()),
        depends: vec![],
        provides: vec![],
        required_by: vec![],
    }
}

#[test]
fn foreign_packages_are_sorted_by_the_aur_lists() {
    let db = vec![
        local("linux", Some("Arch Linux <x@archlinux.org>")),
        local("yay", Some("Unknown Packager")),
        local("mypkg", Some("Unknown Packager")),
        local("python-foo", Some("Unknown Packager")),
        local("bare", None),
    ];
    let foreign = get_local_foreign_pkgs(&db);
    assert_eq!(foreign.iter().map(|p| p.name.as_str()).collect::<Vec<_>>(), vec!["yay", "mypkg", "python-foo"]);
    let (base, split, unknown) = get_local_aur_pkgs(&db, &s(&["yay", "foo"]), &s(&["yay", "python-foo"]));
    assert_eq!(base.iter().map(|p| p.name.as_str()).collect::<Vec<_>>(), vec!["yay"]);
    assert_eq!(split.iter().map(|p| p.name.as_str()).collect::<Vec<_>>(), vec!["python-foo"]);
    assert_eq!(unknown.iter().map(|p| p.name.as_str()).collect::<Vec<_>>(), vec!["mypkg"]);
}

fn cfg(generated: Option<bool>, install: Vec<PkgValue>, ignore: Vec<PkgValue>) -> Config {
    Config {
        generated,
        upgrade: UpgradeConfig { install: InstallConfig { packages: install }, ignore: InstallConfig { packages: ignore } },
    }
}

fn name(n: &str) -> PkgValue {
    PkgValue::Str(n.to_string())
}

fn table(entries: &[(&str, Option<&str>)]) -> PkgValue {
    PkgValue::Table(
        entries
            .iter()
            .map(|(k, v)| (k.to_string(), match v { Some(s) => TableValue::Str(s.to_string()), None => TableValue::Other("1".to_string()) }))
            .collect(),
    )
}

#[test]
fn names_of_config_members() {
    assert_eq!(val_to_name(&name("yay")), "yay");
    assert_eq!(val_to_name(&table(&[("name", Some("paru"))])), "paru");
    assert_eq!(name_of_member(&name("yay")).as_deref(), Some("yay"));
    assert_eq!(name_of_member(&table(&[("ver", Some("1")), ("name", Some("paru"))])).as_deref(), Some("paru"));
    assert_eq!(name_of_member(&table(&[("name", None)])), None);
    assert_eq!(name_of_member(&table(&[("ver", Some("1"))])), None);
    assert_eq!(name_of_member(&PkgValue::Other("true".to_string())), None);
}

#[test]
fn generated_config_is_refused() {
    let e = cfg(Some(true), vec![], vec![]).check_config().unwrap_err();
    assert_eq!(e.detail, None);
    assert_eq!(e.message, "Remove or set `generated` key to false to use this config.");
    assert!(cfg(Some(false), vec![name("a")], vec![]).check_config().is_ok());
    assert!(cfg(None, vec![table(&[("name", Some("a"))])], vec![]).check_config().is_ok());
}

#[test]
fn malformed_members_are_refused() {
    let e = cfg(None, vec![name("a"), table(&[("ver", Some("1"))])], vec![]).check_config().unwrap_err();
    assert_eq!(e.detail.as_deref(), Some("A table member in install.packages doesn't contain `name` key"));
    assert_eq!(e.message, "invalid config.");
    let e = cfg(None, vec![], vec![table(&[("name", Some("a")), ("ver", None)])]).check_config().unwrap_err();
    assert_eq!(e.detail.as_deref(), Some("Unexpected key of a table member in upgrade.packages"));
    let e = cfg(None, vec![PkgValue::Other("42".to_string())], vec![]).check_config().unwrap_err();
    assert_eq!(e.detail.as_deref(), Some("Unexpected member in install.packages"));
}

#[test]
fn config_compared_with_local_packages() {
    let yay = local("yay", Some("Unknown Packager"));
    let paru = local("paru", Some("Unknown Packager"));
    let extra = local("extra", Some("Unknown Packager"));
    let ok = cfg(None, vec![name("yay")], vec![name("paru")]);
    assert!(ok.check_pkgs(&vec![&yay, &paru]).is_ok());

    let bad = cfg(None, vec![name("yay"), name("gone")], vec![name("yay")]);
    let problems = bad.check_pkgs(&vec![&yay, &extra]).unwrap_err();
    let got: Vec<(ProblemKind, String)> = problems.iter().map(|p| (p.kind, p.name.clone())).collect();
    assert_eq!(
        got,
        vec![
            (ProblemKind::InBoth, "yay".to_string()),
            (ProblemKind::MissingFromConfig, "extra".to_string()),
            (ProblemKind::NotInLocalDb, "gone".to_string()),
        ]
    );
    assert_eq!(problems[0].message(), "Package `yay` is in both install and ignore!");
    assert_eq!(problems[1].message(), "Package `extra` in local foreign package database is missing from config!");
    assert_eq!(problems[2].message(), "Package `gone` in config is not found in local foreign package database!");
}

#[test]
fn generated_config_lists_bases_in_build_order() {
    let mut app = local("app", Some("Unknown Packager"));
    app.depends = vec!["lib".to_string()];
    let mut lib = local("lib", Some("Unknown Packager"));
    lib.required_by = vec!["app".to_string()];
    let split = local("python-lib", Some("Unknown Packager"));
    let stray = local("stray", Some("Unknown Packager"));
    let db = vec![lib, app, split, stray];
    let c = Config::gen_config(&db, &s(&["app", "lib"]), &s(&["app", "lib", "python-lib"]));
    assert_eq!(c.generated, Some(true));
    let install: Vec<String> = c.upgrade.install.packages.iter().map(val_to_name).collect();
    let ignore: Vec<String> = c.upgrade.ignore.packages.iter().map(val_to_name).collect();
    assert_eq!(install, vec!["lib", "app"]);
    assert_eq!(ignore, vec!["python-lib"]);
    assert!(c.check_config().is_err());
    let mut c = c;
    c.generated = Some(false);
    assert!(c.check_config().is_ok());
    c.generated = None;
    assert!(c.check_config().is_ok());
}
