use saur::alpm::Package;
use saur::build::{
    build, build_order, file_name, install_infos, satisfies_nover, setup_build_stack, walk_terminates,
    BuildAction,
    BuildEvent, PkgInfo,
};

fn pkg(name: &str, depends: &[&str], provides: &[&str], required_by: &[&str]) -> Package {
    Package {
        name: name.to_string(),
        version: "1.0-1".to_string(),
        packager: Some("Unknown Packager".to_string()),
        depends: depends.iter().map(|s| s.to_string()).collect(),
        provides: provides.iter().map(|s| s.to_string()).collect(),
        required_by: required_by.iter().map(|s| s.to_string()).collect(),
    }
}

fn names(v: &[&Package]) -> Vec<String> {
    v.iter().map(|p| p.name.clone()).collect()
}

#[test]
fn satisfies_by_name_or_provides() {
    let provides = vec!["libfoo".to_string(), "foo-git".to_string()];
    assert!(satisfies_nover("foo", "foo", &provides));
    assert!(satisfies_nover("libfoo", "foo", &provides));
    assert!(!satisfies_nover("bar", "foo", &provides));
}

#[test]
fn build_stack_pushes_roots_then_dependencies() {
    // app depends on lib; lib depends on base; base is required by lib, lib by app.
    let app = pkg("app", &["lib"], &[], &[]);
    let lib = pkg("lib", &["base"], &[], &["app"]);
    let base = pkg("base", &[], &[], &["lib"]);
    let all = vec![&base, &app, &lib];
    let stack = setup_build_stack(&all);
    assert_eq!(names(&stack), vec!["app", "lib", "base"]);
    let order = build_order(&stack);
    assert_eq!(names(&order), vec!["base", "lib", "app"]);
}

#[test]
fn build_order_keeps_each_name_once() {
    // two roots share the dependency `common`.
    let a = pkg("a", &["common"], &[], &[]);
    let b = pkg("b", &["common"], &[], &[]);
    let common = pkg("common", &[], &[], &["a", "b"]);
    let all = vec![&a, &b, &common];
    let stack = setup_build_stack(&all);
    assert_eq!(names(&stack), vec!["b", "common", "a", "common"]);
    let order = build_order(&stack);
    assert_eq!(names(&order), vec!["common", "a", "b"]);
}

#[test]
fn dependency_met_by_a_provision() {
    let app = pkg("app", &["libx"], &[], &[]);
    let x = pkg("x-git", &[], &["libx"], &["app"]);
    let all = vec![&app, &x];
    let order = build_order(&setup_build_stack(&all));
    assert_eq!(names(&order), vec!["x-git", "app"]);
}

#[test]
fn packages_that_require_each_other_are_left_out() {
    let a = pkg("a", &["b"], &[], &["b"]);
    let b = pkg("b", &["a"], &[], &["a"]);
    let all = vec![&a, &b];
    assert!(walk_terminates(&all));
    assert!(setup_build_stack(&all).is_empty());
}

#[test]
fn walk_end_is_decided() {
    // acyclic chains end
    let app = pkg("app", &["lib"], &[], &[]);
    let lib = pkg("lib", &["base"], &[], &["app"]);
    let base = pkg("base", &[], &[], &["lib"]);
    assert!(walk_terminates(&vec![&base, &app, &lib]));
    assert!(walk_terminates(&vec![]));
    // a root whose dependencies loop back never ends
    let root = pkg("root", &["x"], &[], &[]);
    let x = pkg("x", &["y"], &[], &["root"]);
    let y = pkg("y", &["x"], &[], &["x"]);
    assert!(!walk_terminates(&vec![&root, &x, &y]));
    // a package depending on itself
    let selfish = pkg("selfish", &["selfish"], &[], &[]);
    assert!(!walk_terminates(&vec![&selfish]));
    // a loop that no root reaches does not matter
    let p = pkg("p", &["q"], &[], &["q"]);
    let q = pkg("q", &["p"], &[], &["p"]);
    let lone = pkg("lone", &[], &[], &[]);
    assert!(walk_terminates(&vec![&p, &q, &lone]));
    assert_eq!(names(&setup_build_stack(&vec![&p, &q, &lone])), vec!["lone"]);
}

#[test]
fn file_names_of_paths() {
    assert_eq!(file_name("/tmp/clone/yay/yay-12.0-1-x86_64.pkg.tar.zst").as_deref(), Some("yay-12.0-1-x86_64.pkg.tar.zst"));
    assert_eq!(file_name("dir/name/").as_deref(), Some("name"));
    assert_eq!(file_name("dir/name/.").as_deref(), Some("name"));
    assert_eq!(file_name("a/..").as_deref(), None);
    assert_eq!(file_name("/").as_deref(), None);
    assert_eq!(file_name("").as_deref(), None);
    assert_eq!(file_name(".").as_deref(), None);
    assert_eq!(file_name(".hidden").as_deref(), Some(".hidden"));
}

#[test]
fn split_package_files_install_extras_as_dependencies() {
    let mut info = PkgInfo::new("foo".to_string());
    info.needed = true;
    info.asexplicit = true;
    let paths = vec![
        "/c/foo/foo-1-1-any.pkg.tar.zst".to_string(),
        "/c/foo/libbar-1-1-any.pkg.tar.zst".to_string(),
        "/c/foo/foo-docs-1-1-any.pkg.tar.zst".to_string(),
    ];
    let infos = install_infos(&info, paths);
    assert_eq!(infos.len(), 2);
    assert_eq!(infos[0].pkg_paths, vec!["/c/foo/foo-1-1-any.pkg.tar.zst", "/c/foo/foo-docs-1-1-any.pkg.tar.zst"]);
    assert!(infos[0].needed && !infos[0].asdeps && infos[0].asexplicit);
    assert_eq!(infos[1].pkg_paths, vec!["/c/foo/libbar-1-1-any.pkg.tar.zst"]);
    assert!(infos[1].needed && infos[1].asdeps && !infos[1].asexplicit);
}

#[test]
fn single_package_file_keeps_flags() {
    let mut info = PkgInfo::new("foo".to_string());
    info.asdeps = true;
    let infos = install_infos(&info, vec!["/c/foo/foo-1-1-any.pkg.tar.zst".to_string()]);
    assert_eq!(infos.len(), 1);
    assert_eq!(infos[0].pkg_paths, vec!["/c/foo/foo-1-1-any.pkg.tar.zst"]);
    assert!(infos[0].asdeps && !infos[0].needed);
}

#[test]
fn build_steps() {
    let mut info = PkgInfo::new("foo".to_string());
    info.force = true;
    match build("/c/foo", true, &info, BuildEvent::Start) {
        BuildAction::Run(c) => {
            assert_eq!(c.program, "makepkg");
            assert_eq!(c.args, vec!["--noextract"]);
            assert_eq!(c.cwd.as_deref(), Some("/c/foo"));
        }
        _ => panic!("expected makepkg run"),
    }
    match build("/c/foo", true, &info, BuildEvent::Exited(13)) {
        BuildAction::RunOutput(c) => assert_eq!(c.args, vec!["--force", "--packagelist"]),
        _ => panic!("expected packagelist"),
    }
    match build("/c/foo", true, &info, BuildEvent::Exited(4)) {
        BuildAction::Done(Err(name)) => assert_eq!(name, "foo"),
        _ => panic!("expected failure"),
    }
    match build("/c/foo", true, &info, BuildEvent::Output("/c/foo/foo-1-any.pkg.tar.zst\n".to_string())) {
        BuildAction::Done(Ok(infos)) => {
            assert_eq!(infos.len(), 1);
            assert_eq!(infos[0].pkg_paths, vec!["/c/foo/foo-1-any.pkg.tar.zst"]);
        }
        _ => panic!("expected install infos"),
    }
}
