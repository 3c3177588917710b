use vstd::prelude::*;
use crate::text::{keep, str_eq, lemma_keep, lemma_keep_split};

verus! {

/// What the library reads of an installed package in the local package database:
/// its name, version and packager, and the names of what it depends on, what it
/// provides and which installed packages require it.
pub struct Package {
    pub name: String,
    pub version: String,
    pub packager: Option<String>,
    pub depends: Vec<String>,
    pub provides: Vec<String>,
    pub required_by: Vec<String>,
}

/// The packages behind a vector of references.
pub open spec fn pkgs_view(v: Seq<&Package>) -> Seq<Package> {
    v.map_values(|p: &Package| *p)
}

/// The name of every package of `a`.
pub open spec fn names(a: Seq<Package>) -> Seq<Seq<char>> {
    a.map_values(|p: Package| p.name@)
}

/// `n` is among the strings of `v`.
pub open spec fn in_list(v: Seq<String>, n: Seq<char>) -> bool {
    exists|k: int| 0 <= k < v.len() && #[trigger] v[k]@ == n
}

/// `n` is the name of a package of `a`.
pub open spec fn has_name(a: Seq<Package>, n: Seq<char>) -> bool {
    exists|k: int| 0 <= k < a.len() && #[trigger] a[k].name@ == n
}

/// `vec.iter().any(|x| x == n)`.
pub fn list_contains(v: &Vec<String>, n: &str) -> (b: bool)
    ensures
        b == in_list(v@, n@),
{
    let mut k: usize = 0;
    while k < v.len()
        invariant
            k <= v@.len(),
            forall|j: int| 0 <= j < k ==> #[trigger] v@[j]@ != n@,
        decreases v@.len() - k,
    {
        if str_eq(v[k].as_str(), n) {
            return true;
        }
        k = k + 1;
    }
    false
}

/// Some package of `pkgs` is named `n`.
pub fn pkgs_contain_name(pkgs: &Vec<&Package>, n: &str) -> (b: bool)
    ensures
        b == has_name(pkgs_view(pkgs@), n@),
{
    let mut k: usize = 0;
    while k < pkgs.len()
        invariant
            k <= pkgs@.len(),
            forall|j: int| 0 <= j < k ==> (#[trigger] pkgs@[j]).name@ != n@,
        decreases pkgs@.len() - k,
    {
        if str_eq(pkgs[k].name.as_str(), n) {
            assert(pkgs_view(pkgs@)[k as int].name@ == n@);
            return true;
        }
        k = k + 1;
    }
    assert forall|j: int| 0 <= j < pkgs@.len() implies #[trigger] pkgs_view(pkgs@)[j].name@
        != n@ by {
        assert(pkgs_view(pkgs@)[j] == *pkgs@[j]);
    }
    false
}

/// `p` was built outside the official repositories: its packager is the one that
/// `makepkg` writes when none is set.
pub open spec fn is_foreign(p: Package) -> bool {
    p.packager matches Some(s) && s@ == "Unknown Packager"@
}

fn foreign(p: &Package) -> (b: bool)
    ensures
        b == is_foreign(*p),
{
    match &p.packager {
        Some(s) => str_eq(s.as_str(), "Unknown Packager"),
        None => false,
    }
}

/// The foreign packages of the local package database `local_pkgs`, in its order.
pub fn get_local_foreign_pkgs<'a>(local_pkgs: &'a Vec<Package>) -> (pkgs: Vec<&'a Package>)
    ensures
        pkgs_view(pkgs@) == keep(local_pkgs@, |p: Package| is_foreign(p)),
{
    let ghost a = local_pkgs@;
    let mut out: Vec<&'a Package> = Vec::new();
    let mut i: usize = 0;
    assert(a.take(0) =~= Seq::<Package>::empty());
    while i < local_pkgs.len()
        invariant
            a == local_pkgs@,
            i <= a.len(),
            pkgs_view(out@) == keep(a.take(i as int), |p: Package| is_foreign(p)),
        decreases a.len() - i,
    {
        let p = &local_pkgs[i];
        assert(a.take(i + 1).drop_last() =~= a.take(i as int));
        assert(a.take(i + 1).last() == a[i as int]);
        if foreign(p) {
            out.push(p);
        }
        assert(pkgs_view(out@) =~= keep(a.take(i + 1), |p: Package| is_foreign(p)));
        i = i + 1;
    }
    assert(a.take(a.len() as int) =~= a);
    out
}

/// The foreign packages whose name is a package base of the AUR.
pub open spec fn aur_base_pkgs(a: Seq<Package>, pkgbases: Seq<String>) -> Seq<Package> {
    keep(keep(a, |p: Package| is_foreign(p)), |p: Package| in_list(pkgbases, p.name@))
}

/// The foreign packages whose name is a package of the AUR but no package base.
pub open spec fn aur_split_pkgs(a: Seq<Package>, pkgbases: Seq<String>, all_pkgs: Seq<String>) -> Seq<Package> {
    keep(
        keep(a, |p: Package| is_foreign(p)),
        |p: Package| !in_list(pkgbases, p.name@) && in_list(all_pkgs, p.name@),
    )
}

/// The foreign packages that the AUR does not know.
pub open spec fn not_aur_pkgs(a: Seq<Package>, pkgbases: Seq<String>, all_pkgs: Seq<String>) -> Seq<Package> {
    keep(
        keep(a, |p: Package| is_foreign(p)),
        |p: Package| !in_list(pkgbases, p.name@) && !in_list(all_pkgs, p.name@),
    )
}

/// Sorts the foreign packages of `local_pkgs` by the AUR's lists: those named in the
/// package base list `pkgbases`; those named, not there, but in the package list
/// `all_pkgs`; and the rest. Each keeps the database's order.
pub fn get_local_aur_pkgs<'a>(
    local_pkgs: &'a Vec<Package>,
    pkgbases: &Vec<String>,
    all_pkgs: &Vec<String>,
) -> (r: (Vec<&'a Package>, Vec<&'a Package>, Vec<&'a Package>))
    ensures
        pkgs_view(r.0@) == aur_base_pkgs(local_pkgs@, pkgbases@),
        pkgs_view(r.1@) == aur_split_pkgs(local_pkgs@, pkgbases@, all_pkgs@),
        pkgs_view(r.2@) == not_aur_pkgs(local_pkgs@, pkgbases@, all_pkgs@),
{
    let pkgs = get_local_foreign_pkgs(local_pkgs);
    let ghost f = pkgs_view(pkgs@);
    let mut base_pkgs: Vec<&'a Package> = Vec::new();
    let mut not_base_pkgs: Vec<&'a Package> = Vec::new();
    let mut err_pkgs: Vec<&'a Package> = Vec::new();
    let mut i: usize = 0;
    assert(f.take(0) =~= Seq::<Package>::empty());
    while i < pkgs.len()
        invariant
            f == pkgs_view(pkgs@),
            i <= f.len(),
            pkgs_view(base_pkgs@) == keep(f.take(i as int), |p: Package| in_list(pkgbases@, p.name@)),
            pkgs_view(not_base_pkgs@) == keep(
                f.take(i as int),
                |p: Package| !in_list(pkgbases@, p.name@) && in_list(all_pkgs@, p.name@),
            ),
            pkgs_view(err_pkgs@) == keep(
                f.take(i as int),
                |p: Package| !in_list(pkgbases@, p.name@) && !in_list(all_pkgs@, p.name@),
            ),
        decreases f.len() - i,
    {
        let pkg = pkgs[i];
        assert(f.take(i + 1).drop_last() =~= f.take(i as int));
        assert(f.take(i + 1).last() == f[i as int]);
        if list_contains(pkgbases, pkg.name.as_str()) {
            base_pkgs.push(pkg);
        } else if list_contains(all_pkgs, pkg.name.as_str()) {
            not_base_pkgs.push(pkg);
        } else {
            err_pkgs.push(pkg);
        }
        assert(pkgs_view(base_pkgs@) =~= keep(
            f.take(i + 1),
            |p: Package| in_list(pkgbases@, p.name@),
        ));
        assert(pkgs_view(not_base_pkgs@) =~= keep(
            f.take(i + 1),
            |p: Package| !in_list(pkgbases@, p.name@) && in_list(all_pkgs@, p.name@),
        ));
        assert(pkgs_view(err_pkgs@) =~= keep(
            f.take(i + 1),
            |p: Package| !in_list(pkgbases@, p.name@) && !in_list(all_pkgs@, p.name@),
        ));
        i = i + 1;
    }
    assert(f.take(f.len() as int) =~= f);
    (base_pkgs, not_base_pkgs, err_pkgs)
}

/// `get_local_aur_pkgs` sorts every foreign package into exactly one of its three
/// lists: the lists together hold as many packages as there are foreign ones, and each
/// holds foreign packages only.
pub proof fn lemma_aur_pkgs_partition(a: Seq<Package>, pkgbases: Seq<String>, all_pkgs: Seq<String>)
    ensures
        aur_base_pkgs(a, pkgbases).len() + aur_split_pkgs(a, pkgbases, all_pkgs).len()
            + not_aur_pkgs(a, pkgbases, all_pkgs).len() == keep(a, |p: Package| is_foreign(p)).len(),
        forall|i: int| 0 <= i < aur_base_pkgs(a, pkgbases).len() ==> is_foreign(#[trigger] aur_base_pkgs(a, pkgbases)[i]),
        forall|i: int| 0 <= i < aur_split_pkgs(a, pkgbases, all_pkgs).len() ==> is_foreign(#[trigger] aur_split_pkgs(a, pkgbases, all_pkgs)[i]),
        forall|i: int| 0 <= i < not_aur_pkgs(a, pkgbases, all_pkgs).len() ==> is_foreign(#[trigger] not_aur_pkgs(a, pkgbases, all_pkgs)[i]),
{
    let fr = keep(a, |p: Package| is_foreign(p));
    let in_base = |p: Package| in_list(pkgbases, p.name@);
    let not_base = |p: Package| !in_list(pkgbases, p.name@);
    let split = |p: Package| !in_list(pkgbases, p.name@) && in_list(all_pkgs, p.name@);
    let unknown = |p: Package| !in_list(pkgbases, p.name@) && !in_list(all_pkgs, p.name@);
    let in_all = |p: Package| in_list(all_pkgs, p.name@);
    let not_all = |p: Package| !in_list(all_pkgs, p.name@);
    lemma_keep_split(fr, in_base, not_base);
    let nb = keep(fr, not_base);
    lemma_keep_split(nb, in_all, not_all);
    lemma_keep_nested(fr, not_base, in_all, split);
    lemma_keep_nested(fr, not_base, not_all, unknown);
    lemma_keep(a, |p: Package| is_foreign(p));
    lemma_keep(fr, in_base);
    lemma_keep(fr, split);
    lemma_keep(fr, unknown);
    assert forall|i: int| 0 <= i < aur_base_pkgs(a, pkgbases).len() implies is_foreign(#[trigger] aur_base_pkgs(a, pkgbases)[i]) by {
        let x = aur_base_pkgs(a, pkgbases)[i];
        assert(fr.contains(x));
    }
    assert forall|i: int| 0 <= i < aur_split_pkgs(a, pkgbases, all_pkgs).len() implies is_foreign(#[trigger] aur_split_pkgs(a, pkgbases, all_pkgs)[i]) by {
        let x = aur_split_pkgs(a, pkgbases, all_pkgs)[i];
        assert(fr.contains(x));
    }
    assert forall|i: int| 0 <= i < not_aur_pkgs(a, pkgbases, all_pkgs).len() implies is_foreign(#[trigger] not_aur_pkgs(a, pkgbases, all_pkgs)[i]) by {
        let x = not_aur_pkgs(a, pkgbases, all_pkgs)[i];
        assert(fr.contains(x));
    }
}

proof fn lemma_keep_nested(s: Seq<Package>, f: spec_fn(Package) -> bool, g: spec_fn(Package) -> bool, h: spec_fn(Package) -> bool)
    requires
        forall|x: Package| #[trigger] h(x) == (f(x) && g(x)),
    ensures
        keep(keep(s, f), g) == keep(s, h),
    decreases s.len(),
{
    if s.len() > 0 {
        lemma_keep_nested(s.drop_last(), f, g, h);
        assert(h(s.last()) == (f(s.last()) && g(s.last())));
        if f(s.last()) {
            assert(keep(s, f).drop_last() =~= keep(s.drop_last(), f));
            assert(keep(s, f).last() == s.last());
        } else {
            assert(keep(s, f) == keep(s.drop_last(), f));
        }
    }
}

} // verus!
