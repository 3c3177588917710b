use vstd::prelude::*;
use crate::alpm::{Package, pkgs_view, has_name, pkgs_contain_name, get_local_aur_pkgs, aur_base_pkgs, aur_split_pkgs};
use crate::build::{setup_build_stack, build_order, build_order_spec, build_stack_spec, at_indices, build_stack_terminates};
use crate::text::{keep, str_eq, views, lemma_keep_empty};

verus! {

/// The value under a key of a table in `packages`, as far as the checks read it.
pub enum TableValue {
    Str(String),
    /// Any other value, as TOML text.
    Other(String),
}

/// A member of a `packages` array of the configuration file: a package name, a table
/// (its keys with their values, each key once), or any other TOML value.
pub enum PkgValue {
    Str(String),
    Table(Vec<(String, TableValue)>),
    /// Any other value, as TOML text.
    Other(String),
}

/// The `packages` array of the `install` or the `ignore` section.
pub struct InstallConfig {
    pub packages: Vec<PkgValue>,
}

/// The `upgrade` section of the configuration file.
pub struct UpgradeConfig {
    pub install: InstallConfig,
    pub ignore: InstallConfig,
}

/// The configuration file `config.toml`.
pub struct Config {
    pub generated: Option<bool>,
    pub upgrade: UpgradeConfig,
}

/// The one key that a table member of `packages` may hold.
pub open spec fn valid_package_key(k: Seq<char>) -> bool {
    k == "name"@
}

/// The value of the first entry of `t` under the key `key`.
pub open spec fn table_get(t: Seq<(String, TableValue)>, key: Seq<char>) -> Option<TableValue>
    decreases t.len(),
{
    if t.len() == 0 {
        None
    } else if t[0].0@ == key {
        Some(t[0].1)
    } else {
        table_get(t.drop_first(), key)
    }
}

/// The package name that a member of `packages` stands for, if it stands for one.
pub open spec fn name_of(v: PkgValue) -> Option<Seq<char>> {
    match v {
        PkgValue::Str(s) => Some(s@),
        PkgValue::Table(t) => match table_get(t@, "name"@) {
            Some(TableValue::Str(s)) => Some(s@),
            _ => None,
        },
        PkgValue::Other(_) => None,
    }
}

fn table_lookup<'a>(t: &'a Vec<(String, TableValue)>, key: &str) -> (r: Option<&'a TableValue>)
    ensures
        r matches Some(v) ==> table_get(t@, key@) == Some(*v),
        r is None ==> table_get(t@, key@) is None,
{
    let mut i: usize = 0;
    assert(t@.skip(0) =~= t@);
    while i < t.len()
        invariant
            i <= t@.len(),
            table_get(t@.skip(i as int), key@) == table_get(t@, key@),
        decreases t@.len() - i,
    {
        assert(t@.skip(i as int).drop_first() =~= t@.skip(i + 1));
        if str_eq(t[i].0.as_str(), key) {
            return Some(&t[i].1);
        }
        i = i + 1;
    }
    None
}

/// The name that a member of `packages` stands for, if it stands for one.
pub fn name_of_member(x: &PkgValue) -> (r: Option<String>)
    ensures
        match r {
            Some(n) => name_of(*x) == Some(n@),
            None => name_of(*x) is None,
        },
{
    match x {
        PkgValue::Str(s) => Some(s.clone()),
        PkgValue::Table(t) => match table_lookup(t, "name") {
            Some(TableValue::Str(s)) => Some(s.clone()),
            _ => None,
        },
        PkgValue::Other(_) => None,
    }
}

/// The name of a member of `packages`: the string itself, or the `name` of a table.
/// Any other member, and a table whose `name` is missing or not a string, has no name.
pub fn val_to_name(x: &PkgValue) -> (name: String)
    requires
        name_of(*x) is Some,
    ensures
        name@ == name_of(*x)->0,
{
    proof {
        assert(table_get(Seq::<(String, TableValue)>::empty(), "name"@) is None);
    }
    match x {
        PkgValue::Str(s) => s.clone(),
        PkgValue::Table(t) => {
            assert(t@.skip(0) =~= t@);
            match table_lookup(t, "name") {
                Some(TableValue::Str(s)) => s.clone(),
                _ => {
                    assert(false);
                    String::new()
                },
            }
        },
        PkgValue::Other(_) => {
            assert(false);
            String::new()
        },
    }
}

/// Why the configuration is refused: the line printed first, if any, and the error.
pub struct ConfigError {
    pub detail: Option<String>,
    pub message: String,
}

/// The line that explains why the member `v` of `{section}.packages` is refused, if it is.
pub open spec fn member_problem(v: PkgValue, section: Seq<char>) -> Option<Seq<char>> {
    match v {
        PkgValue::Str(_) => None,
        PkgValue::Table(t) => if table_get(t@, "name"@) is None {
            Some("A table member in "@ + section + ".packages doesn't contain `name` key"@)
        } else if exists|k: int| 0 <= k < t@.len() && !valid_package_key(#[trigger] t@[k].0@) {
            Some("Unexpected key of a table member in "@ + section + ".packages"@)
        } else {
            None
        },
        PkgValue::Other(_) => Some("Unexpected member in "@ + section + ".packages"@),
    }
}

/// The explanation for the first refused member of `ms`, if one is.
pub open spec fn first_problem(ms: Seq<PkgValue>, section: Seq<char>) -> Option<Seq<char>>
    decreases ms.len(),
{
    if ms.len() == 0 {
        None
    } else if member_problem(ms[0], section) is Some {
        member_problem(ms[0], section)
    } else {
        first_problem(ms.drop_first(), section)
    }
}

pub open spec fn error_view(e: ConfigError) -> (Option<Seq<char>>, Seq<char>) {
    (
        match e.detail {
            Some(d) => Some(d@),
            None => None,
        },
        e.message@,
    )
}

fn concat3(a: &str, b: &str, c: &str) -> (r: String)
    ensures
        r@ == a@ + b@ + c@,
{
    let mut r = String::from_str(a);
    r.append(b);
    r.append(c);
    r
}

fn invalid(detail: String) -> (e: ConfigError)
    ensures
        error_view(e) == (Some(detail@), "invalid config."@),
{
    ConfigError { detail: Some(detail), message: String::from_str("invalid config.") }
}

#[verifier::loop_isolation(false)]
fn member_check(v: &PkgValue, section: &str) -> (r: Option<String>)
    ensures
        r matches Some(s) ==> member_problem(*v, section@) == Some(s@),
        r is None ==> member_problem(*v, section@) is None,
{
    match v {
        PkgValue::Str(_) => None,
        PkgValue::Table(t) => {
            assert(t@.skip(0) =~= t@);
            let found = table_lookup(t, "name");
            if found.is_none() {
                return Some(concat3("A table member in ", section, ".packages doesn't contain `name` key"));
            }
            assert(table_get(t@, "name"@) is Some);
            let mut k: usize = 0;
            while k < t.len()
                invariant
                    k <= t@.len(),
                    forall|j: int| 0 <= j < k ==> valid_package_key(#[trigger] t@[j].0@),
                decreases t@.len() - k,
            {
                if !str_eq(t[k].0.as_str(), "name") {
                    assert(!valid_package_key(t@[k as int].0@));
                    assert(exists|k: int| 0 <= k < t@.len() && !valid_package_key(#[trigger] t@[k].0@));
                    return Some(concat3("Unexpected key of a table member in ", section, ".packages"));
                }
                k = k + 1;
            }
            None
        },
        PkgValue::Other(_) => Some(concat3("Unexpected member in ", section, ".packages")),
    }
}

impl InstallConfig {
    /// Checks each member of `packages`: a string, or a table with a `name` key and no
    /// other key. The first other member is refused with a line that names `{name}.packages`.
    pub fn check_array(&self, name: &str) -> (r: Result<(), ConfigError>)
        ensures
            r is Ok <==> first_problem(self.packages@, name@) is None,
            r matches Err(e) ==> error_view(e) == (first_problem(self.packages@, name@), "invalid config."@),
    {
        let mut i: usize = 0;
        assert(self.packages@.skip(0) =~= self.packages@);
        while i < self.packages.len()
            invariant
                i <= self.packages@.len(),
                first_problem(self.packages@.skip(i as int), name@) == first_problem(self.packages@, name@),
            decreases self.packages@.len() - i,
        {
            assert(self.packages@.skip(i as int).drop_first() =~= self.packages@.skip(i + 1));
            assert(self.packages@.skip(i as int)[0] == self.packages@[i as int]);
            match member_check(&self.packages[i], name) {
                Some(detail) => {
                    return Err(invalid(detail));
                },
                None => {},
            }
            i = i + 1;
        }
        Ok(())
    }
}

/// What `check_config` gives back for `c`.
pub open spec fn check_config_spec(c: Config) -> Result<(), (Option<Seq<char>>, Seq<char>)> {
    if c.generated == Some(true) {
        Err((None, "Remove or set `generated` key to false to use this config."@))
    } else if first_problem(c.upgrade.install.packages@, "install"@) is Some {
        Err((first_problem(c.upgrade.install.packages@, "install"@), "invalid config."@))
    } else if first_problem(c.upgrade.ignore.packages@, "upgrade"@) is Some {
        Err((first_problem(c.upgrade.ignore.packages@, "upgrade"@), "invalid config."@))
    } else {
        Ok(())
    }
}

pub open spec fn check_result_view(r: Result<(), ConfigError>) -> Result<(), (Option<Seq<char>>, Seq<char>)> {
    match r {
        Ok(()) => Ok(()),
        Err(e) => Err(error_view(e)),
    }
}

/// The kinds of disagreement between the configuration and the local database.
#[derive(PartialEq, Eq, Structural, Clone, Copy, Debug)]
pub enum ProblemKind {
    InBoth,
    MissingFromConfig,
    NotInLocalDb,
}

/// A package on which the configuration and the local foreign packages disagree.
pub struct ConfigProblem {
    pub kind: ProblemKind,
    pub name: String,
}

impl View for ConfigProblem {
    type V = (ProblemKind, Seq<char>);

    open spec fn view(&self) -> Self::V {
        (self.kind, self.name@)
    }
}

/// The line that reports a problem of kind `kind` with the package `name`.
pub open spec fn problem_message(kind: ProblemKind, name: Seq<char>) -> Seq<char> {
    match kind {
        ProblemKind::InBoth => "Package `"@ + name + "` is in both install and ignore!"@,
        ProblemKind::MissingFromConfig => "Package `"@ + name
            + "` in local foreign package database is missing from config!"@,
        ProblemKind::NotInLocalDb => "Package `"@ + name
            + "` in config is not found in local foreign package database!"@,
    }
}

impl ConfigProblem {
    /// The line printed for this problem.
    pub fn message(&self) -> (m: String)
        ensures
            m@ == problem_message(self.kind, self.name@),
    {
        match self.kind {
            ProblemKind::InBoth => concat3("Package `", self.name.as_str(), "` is in both install and ignore!"),
            ProblemKind::MissingFromConfig => concat3(
                "Package `",
                self.name.as_str(),
                "` in local foreign package database is missing from config!",
            ),
            ProblemKind::NotInLocalDb => concat3(
                "Package `",
                self.name.as_str(),
                "` in config is not found in local foreign package database!",
            ),
        }
    }
}

/// Every member of `ms` stands for a package name.
pub open spec fn all_named(ms: Seq<PkgValue>) -> bool {
    forall|i: int| 0 <= i < ms.len() ==> (name_of(#[trigger] ms[i]) is Some)
}

/// The package names that the members `ms` stand for.
pub open spec fn names_of(ms: Seq<PkgValue>) -> Seq<Seq<char>> {
    ms.map_values(|v: PkgValue| name_of(v)->0)
}

/// `x` is one of `s`.
pub open spec fn seq_has(s: Seq<Seq<char>>, x: Seq<char>) -> bool {
    exists|k: int| 0 <= k < s.len() && #[trigger] s[k] == x
}

/// The problems that `check_pkgs` finds, in the order it reports them: names both to
/// install and to ignore; local foreign packages that the configuration does not name;
/// names of the configuration that no local foreign package has.
pub open spec fn pkg_problems(
    install: Seq<Seq<char>>,
    ignore: Seq<Seq<char>>,
    local: Seq<Seq<char>>,
) -> Seq<(ProblemKind, Seq<char>)> {
    keep(install, |x: Seq<char>| seq_has(ignore, x)).map_values(
        |x: Seq<char>| (ProblemKind::InBoth, x),
    ) + keep(local, |x: Seq<char>| !seq_has(install, x) && !seq_has(ignore, x)).map_values(
        |x: Seq<char>| (ProblemKind::MissingFromConfig, x),
    ) + keep(install + ignore, |x: Seq<char>| !seq_has(local, x)).map_values(
        |x: Seq<char>| (ProblemKind::NotInLocalDb, x),
    )
}

pub open spec fn problems_view(v: Seq<ConfigProblem>) -> Seq<(ProblemKind, Seq<char>)> {
    v.map_values(|p: ConfigProblem| p@)
}

fn names_contain(v: &Vec<String>, x: &str) -> (b: bool)
    ensures
        b == seq_has(views(v@), x@),
{
    let mut k: usize = 0;
    while k < v.len()
        invariant
            k <= v@.len(),
            forall|j: int| 0 <= j < k ==> #[trigger] views(v@)[j] != x@,
        decreases v@.len() - k,
    {
        if str_eq(v[k].as_str(), x) {
            assert(views(v@)[k as int] == x@);
            return true;
        }
        k = k + 1;
    }
    false
}

fn package_names(ms: &Vec<PkgValue>) -> (v: Vec<String>)
    requires
        all_named(ms@),
    ensures
        views(v@) == names_of(ms@),
{
    let mut v: Vec<String> = Vec::new();
    let mut i: usize = 0;
    while i < ms.len()
        invariant
            i <= ms@.len(),
            all_named(ms@),
            views(v@) == names_of(ms@).take(i as int),
        decreases ms@.len() - i,
    {
        let n = val_to_name(&ms[i]);
        assert(views(v@.push(n)) =~= views(v@).push(n@));
        v.push(n);
        assert(views(v@) =~= names_of(ms@).take(i + 1));
        i = i + 1;
    }
    assert(names_of(ms@).take(ms@.len() as int) =~= names_of(ms@));
    v
}

/// Appends a problem of kind `kind` for each name of `names` that `f` keeps.
fn push_problems(
    out: &mut Vec<ConfigProblem>,
    names: &Vec<String>,
    kind: ProblemKind,
    install: &Vec<String>,
    ignore: &Vec<String>,
    local: &Vec<&Package>,
) -> (ghost_kept: Ghost<Seq<Seq<char>>>)
    ensures
        ghost_kept@ == keep(views(names@), |x: Seq<char>| problem_applies(kind, views(install@), views(ignore@), local_names(pkgs_view(local@)), x)),
        problems_view(final(out)@) == problems_view(old(out)@) + ghost_kept@.map_values(
            |x: Seq<char>| (kind, x),
        ),
{
    let ghost ins = views(install@);
    let ghost ign = views(ignore@);
    let ghost loc = local_names(pkgs_view(local@));
    let ghost start = problems_view(out@);
    let ghost ns = views(names@);
    let mut i: usize = 0;
    assert(ns.take(0) =~= Seq::<Seq<char>>::empty());
    assert(problems_view(out@) =~= start + keep(ns.take(0), |x: Seq<char>| problem_applies(kind, ins, ign, loc, x)).map_values(|x: Seq<char>| (kind, x)));
    while i < names.len()
        invariant
            ns == views(names@),
            ins == views(install@),
            ign == views(ignore@),
            loc == local_names(pkgs_view(local@)),
            i <= ns.len(),
            problems_view(out@) == start + keep(ns.take(i as int), |x: Seq<char>| problem_applies(kind, ins, ign, loc, x)).map_values(|x: Seq<char>| (kind, x)),
        decreases ns.len() - i,
    {
        let x = names[i].as_str();
        let applies = match kind {
            ProblemKind::InBoth => names_contain(ignore, x),
            ProblemKind::MissingFromConfig => !names_contain(install, x) && !names_contain(ignore, x),
            ProblemKind::NotInLocalDb => {
                let b = pkgs_contain_name(local, x);
                proof {
                    lemma_local_names(pkgs_view(local@), x@);
                }
                !b
            },
        };
        assert(ns.take(i + 1).drop_last() =~= ns.take(i as int));
        assert(ns.take(i + 1).last() == ns[i as int]);
        if applies {
            let pr = ConfigProblem { kind, name: names[i].clone() };
            assert(problems_view(out@.push(pr)) =~= problems_view(out@).push(pr@));
            out.push(pr);
        }
        assert(problems_view(out@) =~= start + keep(ns.take(i + 1), |x: Seq<char>| problem_applies(kind, ins, ign, loc, x)).map_values(|x: Seq<char>| (kind, x)));
        i = i + 1;
    }
    assert(ns.take(ns.len() as int) =~= ns);
    Ghost(keep(ns, |x: Seq<char>| problem_applies(kind, ins, ign, loc, x)))
}

/// Whether a name `x` is reported with `kind`.
pub open spec fn problem_applies(
    kind: ProblemKind,
    install: Seq<Seq<char>>,
    ignore: Seq<Seq<char>>,
    local: Seq<Seq<char>>,
    x: Seq<char>,
) -> bool {
    match kind {
        ProblemKind::InBoth => seq_has(ignore, x),
        ProblemKind::MissingFromConfig => !seq_has(install, x) && !seq_has(ignore, x),
        ProblemKind::NotInLocalDb => !seq_has(local, x),
    }
}

/// The names of the packages `a`.
pub open spec fn local_names(a: Seq<Package>) -> Seq<Seq<char>> {
    a.map_values(|p: Package| p.name@)
}

proof fn lemma_local_names(a: Seq<Package>, x: Seq<char>)
    ensures
        has_name(a, x) == seq_has(local_names(a), x),
{
    if has_name(a, x) {
        let k = choose|k: int| 0 <= k < a.len() && #[trigger] a[k].name@ == x;
        assert(local_names(a)[k] == x);
    }
    if seq_has(local_names(a), x) {
        let k = choose|k: int| 0 <= k < local_names(a).len() && #[trigger] local_names(a)[k] == x;
        assert(a[k].name@ == x);
    }
}

impl Config {
    /// Refuses a configuration that is still marked as generated, then checks the
    /// members of `install.packages` and of `ignore.packages` (the latter reported as
    /// `upgrade.packages`).
    pub fn check_config(&self) -> (r: Result<(), ConfigError>)
        ensures
            check_result_view(r) == check_config_spec(*self),
    {
        if self.generated == Some(true) {
            return Err(
                ConfigError {
                    detail: None,
                    message: String::from_str(
                        "Remove or set `generated` key to false to use this config.",
                    ),
                },
            );
        }
        match self.upgrade.install.check_array("install") {
            Err(e) => return Err(e),
            Ok(()) => {},
        }
        match self.upgrade.ignore.check_array("upgrade") {
            Err(e) => return Err(e),
            Ok(()) => {},
        }
        Ok(())
    }

    /// Compares the configuration with the local foreign packages `local_pkgs`. The
    /// error lists every problem found, in the order the lines are printed; there is
    /// an error exactly when there is a problem.
    pub fn check_pkgs(&self, local_pkgs: &Vec<&Package>) -> (r: Result<(), Vec<ConfigProblem>>)
        requires
            all_named(self.upgrade.install.packages@),
            all_named(self.upgrade.ignore.packages@),
        ensures
            ({
                let ps = pkg_problems(
                    names_of(self.upgrade.install.packages@),
                    names_of(self.upgrade.ignore.packages@),
                    local_names(pkgs_view(local_pkgs@)),
                );
                &&& ps.len() == 0 ==> r is Ok
                &&& ps.len() > 0 ==> (r matches Err(v) && problems_view(v@) == ps)
            }),
    {
        let install = package_names(&self.upgrade.install.packages);
        let ignore = package_names(&self.upgrade.ignore.packages);
        let mut local_names_v: Vec<String> = Vec::new();
        let mut i: usize = 0;
        while i < local_pkgs.len()
            invariant
                i <= local_pkgs@.len(),
                views(local_names_v@) == local_names(pkgs_view(local_pkgs@)).take(i as int),
            decreases local_pkgs@.len() - i,
        {
            let n = local_pkgs[i].name.clone();
            assert(views(local_names_v@.push(n)) =~= views(local_names_v@).push(n@));
            local_names_v.push(n);
            assert(views(local_names_v@) =~= local_names(pkgs_view(local_pkgs@)).take(i + 1));
            i = i + 1;
        }
        assert(local_names(pkgs_view(local_pkgs@)).take(local_pkgs@.len() as int) =~= local_names(pkgs_view(local_pkgs@)));
        let mut all_cfg: Vec<String> = Vec::new();
        let mut j: usize = 0;
        while j < install.len()
            invariant
                j <= install@.len(),
                views(all_cfg@) == views(install@).take(j as int),
            decreases install@.len() - j,
        {
            let n = install[j].clone();
            assert(views(all_cfg@.push(n)) =~= views(all_cfg@).push(n@));
            all_cfg.push(n);
            assert(views(all_cfg@) =~= views(install@).take(j + 1));
            j = j + 1;
        }
        let mut j: usize = 0;
        while j < ignore.len()
            invariant
                j <= ignore@.len(),
                views(all_cfg@) == views(install@) + views(ignore@).take(j as int),
            decreases ignore@.len() - j,
        {
            let n = ignore[j].clone();
            assert(views(all_cfg@.push(n)) =~= views(all_cfg@).push(n@));
            all_cfg.push(n);
            assert(views(all_cfg@) =~= views(install@) + views(ignore@).take(j + 1));
            j = j + 1;
        }
        assert(views(install@).take(install@.len() as int) =~= views(install@));
        assert(views(ignore@).take(ignore@.len() as int) =~= views(ignore@));
        let mut problems: Vec<ConfigProblem> = Vec::new();
        let g1 = push_problems(&mut problems, &install, ProblemKind::InBoth, &install, &ignore, local_pkgs);
        let g2 = push_problems(&mut problems, &local_names_v, ProblemKind::MissingFromConfig, &install, &ignore, local_pkgs);
        let g3 = push_problems(&mut problems, &all_cfg, ProblemKind::NotInLocalDb, &install, &ignore, local_pkgs);
        let ghost ins = views(install@);
        let ghost ign = views(ignore@);
        let ghost loc = local_names(pkgs_view(local_pkgs@));
        assert(g1@ == keep(ins, |x: Seq<char>| seq_has(ign, x))) by {
            assert((|x: Seq<char>| problem_applies(ProblemKind::InBoth, ins, ign, loc, x)) =~= (|x: Seq<char>| seq_has(ign, x)));
        }
        assert(g2@ == keep(loc, |x: Seq<char>| !seq_has(ins, x) && !seq_has(ign, x))) by {
            assert((|x: Seq<char>| problem_applies(ProblemKind::MissingFromConfig, ins, ign, loc, x)) =~= (|x: Seq<char>| !seq_has(ins, x) && !seq_has(ign, x)));
            assert(views(local_names_v@) =~= loc);
        }
        assert(g3@ == keep(ins + ign, |x: Seq<char>| !seq_has(loc, x))) by {
            assert((|x: Seq<char>| problem_applies(ProblemKind::NotInLocalDb, ins, ign, loc, x)) =~= (|x: Seq<char>| !seq_has(loc, x)));
        }
        assert(problems_view(problems@) =~= pkg_problems(ins, ign, loc));
        if problems.len() > 0 {
            Err(problems)
        } else {
            Ok(())
        }
    }

    /// The configuration generated from the local package database `local_pkgs` and
    /// the AUR's lists: marked as generated; to install, the foreign packages that are
    /// package bases, in build order; to ignore, those that are only packages of a
    /// base. Foreign packages unknown to the AUR are left out.
    pub fn gen_config(local_pkgs: &Vec<Package>, pkgbases: &Vec<String>, all_pkgs: &Vec<String>) -> (c: Config)
        requires
            build_stack_terminates(aur_base_pkgs(local_pkgs@, pkgbases@)),
        ensures
            c.generated == Some(true),
            plain_names(c.upgrade.install.packages@),
            plain_names(c.upgrade.ignore.packages@),
            names_of(c.upgrade.install.packages@) == local_names(
                generated_install(local_pkgs@, pkgbases@),
            ),
            names_of(c.upgrade.ignore.packages@) == local_names(
                aur_split_pkgs(local_pkgs@, pkgbases@, all_pkgs@),
            ),
    {
        let (base_pkgs, not_base_pkgs, _err_pkgs) = get_local_aur_pkgs(local_pkgs, pkgbases, all_pkgs);
        let build_stack = setup_build_stack(&base_pkgs);
        let order = build_order(&build_stack);
        let install = name_values(&order);
        let ignore = name_values(&not_base_pkgs);
        Config {
            generated: Some(true),
            upgrade: UpgradeConfig {
                install: InstallConfig { packages: install },
                ignore: InstallConfig { packages: ignore },
            },
        }
    }
}

/// Every member of `ms` is a plain package name.
pub open spec fn plain_names(ms: Seq<PkgValue>) -> bool {
    forall|i: int| 0 <= i < ms.len() ==> (#[trigger] ms[i]) is Str
}

/// The packages that a generated configuration installs, in build order.
pub open spec fn generated_install(local: Seq<Package>, pkgbases: Seq<String>) -> Seq<Package> {
    let base = aur_base_pkgs(local, pkgbases);
    build_order_spec(at_indices(base, build_stack_spec(base)))
}

fn name_values(pkgs: &Vec<&Package>) -> (v: Vec<PkgValue>)
    ensures
        plain_names(v@),
        names_of(v@) == local_names(pkgs_view(pkgs@)),
{
    let mut v: Vec<PkgValue> = Vec::new();
    let mut i: usize = 0;
    while i < pkgs.len()
        invariant
            i <= pkgs@.len(),
            plain_names(v@),
            names_of(v@) == local_names(pkgs_view(pkgs@)).take(i as int),
        decreases pkgs@.len() - i,
    {
        let n = pkgs[i].name.clone();
        let ghost nv = n@;
        let x = PkgValue::Str(n);
        assert(name_of(x) == Some(nv));
        assert(names_of(v@.push(x)) =~= names_of(v@).push(nv));
        v.push(x);
        assert(names_of(v@) =~= local_names(pkgs_view(pkgs@)).take(i + 1));
        i = i + 1;
    }
    assert(local_names(pkgs_view(pkgs@)).take(pkgs@.len() as int) =~= local_names(pkgs_view(pkgs@)));
    v
}

/// A generated configuration is refused until its `generated` mark is taken away.
pub proof fn lemma_generated_config_refused(c: Config)
    requires
        c.generated == Some(true),
    ensures
        check_config_spec(c) == Err::<(), (Option<Seq<char>>, Seq<char>)>(
            (None, "Remove or set `generated` key to false to use this config."@),
        ),
{
}

proof fn lemma_plain_names_no_problem(ms: Seq<PkgValue>, section: Seq<char>)
    requires
        plain_names(ms),
    ensures
        first_problem(ms, section) is None,
    decreases ms.len(),
{
    if ms.len() > 0 {
        assert(ms[0] is Str);
        assert forall|i: int| 0 <= i < ms.drop_first().len() implies (#[trigger] ms.drop_first()[i]) is Str by {
            assert(ms.drop_first()[i] == ms[i + 1]);
        }
        lemma_plain_names_no_problem(ms.drop_first(), section);
    }
}

/// A configuration that lists plain package names, as a generated one does, passes
/// `check_config` once its `generated` key is removed or set to false.
pub proof fn lemma_unmarked_generated_config_accepted(c: Config)
    requires
        plain_names(c.upgrade.install.packages@),
        plain_names(c.upgrade.ignore.packages@),
        c.generated != Some(true),
    ensures
        check_config_spec(c) == Ok::<(), (Option<Seq<char>>, Seq<char>)>(()),
{
    lemma_plain_names_no_problem(c.upgrade.install.packages@, "install"@);
    lemma_plain_names_no_problem(c.upgrade.ignore.packages@, "upgrade"@);
}

/// `check_pkgs` passes exactly when the configuration and the local foreign packages
/// agree: no name is both to install and to ignore, every local foreign package is
/// named, and every name of the configuration is a local foreign package.
pub proof fn lemma_check_pkgs_agreement(
    install: Seq<Seq<char>>,
    ignore: Seq<Seq<char>>,
    local: Seq<Seq<char>>,
)
    ensures
        pkg_problems(install, ignore, local).len() == 0 <==> {
            &&& forall|i: int| 0 <= i < install.len() ==> !seq_has(ignore, #[trigger] install[i])
            &&& forall|i: int|
                0 <= i < local.len() ==> seq_has(install, #[trigger] local[i]) || seq_has(ignore, local[i])
            &&& forall|i: int| 0 <= i < install.len() + ignore.len() ==> seq_has(local, #[trigger] (install + ignore)[i])
        },
{
    let f1 = |x: Seq<char>| seq_has(ignore, x);
    let f2 = |x: Seq<char>| !seq_has(install, x) && !seq_has(ignore, x);
    let f3 = |x: Seq<char>| !seq_has(local, x);
    lemma_keep_empty(install, f1);
    lemma_keep_empty(local, f2);
    lemma_keep_empty(install + ignore, f3);
}

} // verus!
