use vstd::prelude::*;
use crate::alpm::{Package, pkgs_view, in_list, has_name, list_contains, pkgs_contain_name};
use crate::text::{str_eq, chars_vec, substring, has_substr, contains, keep, views, lines_of, read_lines_to_strings};
use crate::pacman::InstallInfo;
use crate::makepkg::{Makepkg, makepkg_command};
use crate::command::ShellCommand;
use vstd::set_lib::{set_int_range, lemma_int_range, lemma_len_subset};

verus! {

/// A package to build, with the flags that `pacman -U` installs it with.
#[derive(Debug, Clone)]
pub struct PkgInfo {
    pub name: String,
    pub needed: bool,
    pub asdeps: bool,
    pub asexplicit: bool,
    pub force: bool,
}

impl View for PkgInfo {
    type V = (Seq<char>, bool, bool, bool, bool);

    open spec fn view(&self) -> Self::V {
        (self.name@, self.needed, self.asdeps, self.asexplicit, self.force)
    }
}

impl PkgInfo {
    /// A package to build with every flag off.
    pub fn new(name: String) -> (p: Self)
        ensures
            p@ == (name@, false, false, false, false),
    {
        PkgInfo { name, needed: false, asdeps: false, asexplicit: false, force: false }
    }
}

/// `alpm_utils::depends::satisfies_nover` on names: a dependency named `dep` is met by
/// a package named `name` that provides `provides` when it names the package or one
/// of its provisions.
pub open spec fn satisfies_nover_spec(dep: Seq<char>, name: Seq<char>, provides: Seq<String>) -> bool {
    dep == name || in_list(provides, dep)
}

/// Whether a dependency named `dep` is met by the package `name` providing `provides`,
/// versions not considered.
pub fn satisfies_nover(dep: &str, name: &str, provides: &Vec<String>) -> (b: bool)
    ensures
        b == satisfies_nover_spec(dep@, name@, provides@),
{
    str_eq(dep, name) || list_contains(provides, dep)
}

/// Index of the first package of `a` that meets the dependency `dep`.
pub open spec fn first_sat(a: Seq<Package>, dep: Seq<char>) -> Option<int>
    decreases a.len(),
{
    if a.len() == 0 {
        None
    } else if satisfies_nover_spec(dep, a[0].name@, a[0].provides@) {
        Some(0)
    } else {
        match first_sat(a.drop_first(), dep) {
            Some(j) => Some(j + 1),
            None => None,
        }
    }
}

proof fn lemma_first_sat(a: Seq<Package>, dep: Seq<char>, j: int)
    requires
        0 <= j <= a.len(),
        forall|k: int|
            0 <= k < j ==> !satisfies_nover_spec(dep, #[trigger] a[k].name@, a[k].provides@),
    ensures
        j < a.len() && satisfies_nover_spec(dep, a[j].name@, a[j].provides@) ==> first_sat(a, dep)
            == Some(j),
        j == a.len() ==> first_sat(a, dep) == None::<int>,
    decreases j,
{
    if j > 0 {
        assert forall|k: int|
            0 <= k < j - 1 implies !satisfies_nover_spec(
            dep,
            #[trigger] a.drop_first()[k].name@,
            a.drop_first()[k].provides@,
        ) by {
            assert(a.drop_first()[k] == a[k + 1]);
        }
        lemma_first_sat(a.drop_first(), dep, j - 1);
    }
}

proof fn lemma_first_sat_range(a: Seq<Package>, dep: Seq<char>)
    ensures
        first_sat(a, dep) matches Some(j) ==> 0 <= j < a.len(),
    decreases a.len(),
{
    if a.len() > 0 {
        lemma_first_sat_range(a.drop_first(), dep);
    }
}

fn find_first_sat(all: &Vec<&Package>, dep: &str) -> (r: Option<usize>)
    ensures
        r matches Some(j) ==> Some(j as int) == first_sat(pkgs_view(all@), dep@),
        r is None ==> first_sat(pkgs_view(all@), dep@) is None,
{
    let ghost a = pkgs_view(all@);
    let mut j: usize = 0;
    while j < all.len()
        invariant
            a == pkgs_view(all@),
            j <= all@.len(),
            forall|k: int|
                0 <= k < j ==> !satisfies_nover_spec(dep@, #[trigger] a[k].name@, a[k].provides@),
        decreases all@.len() - j,
    {
        let p = all[j];
        if satisfies_nover(dep, p.name.as_str(), &p.provides) {
            proof {
                lemma_first_sat(a, dep@, j as int);
            }
            return Some(j);
        }
        j = j + 1;
    }
    proof {
        lemma_first_sat(a, dep@, j as int);
    }
    None
}

/// Where the `k`-th dependency of `a[i]` leads: the first package of `a` that meets it.
pub open spec fn dep_target(a: Seq<Package>, i: int, k: int) -> Option<int> {
    first_sat(a, a[i].depends@[k]@)
}

/// `a[i]` is required by no package of `a`: the build stack starts from it.
pub open spec fn is_root(a: Seq<Package>, i: int) -> bool {
    forall|k: int| 0 <= k < a[i].required_by.len() ==> !has_name(a, #[trigger] a[i].required_by@[k]@)
}

/// `s` holds every root of `a` and every package a dependency of its members leads to,
/// and `r` decreases along each such dependency: the depth-first walk from the roots
/// comes to an end.
pub open spec fn dfs_bounded(a: Seq<Package>, s: Set<int>, r: Seq<nat>) -> bool {
    &&& r.len() == a.len()
    &&& forall|i: int| 0 <= i < a.len() && is_root(a, i) ==> #[trigger] s.contains(i)
    &&& forall|i: int| #[trigger] s.contains(i) ==> 0 <= i < a.len()
    &&& forall|i: int, k: int|
        s.contains(i) && 0 <= k < a[i].depends.len() && (#[trigger] dep_target(a, i, k)) is Some
            ==> s.contains(dep_target(a, i, k)->0) && r[dep_target(a, i, k)->0] < r[i]
}

/// No chain of dependencies reachable from a root of `a` comes back to a package on
/// it. On other inputs the walk of `setup_build_stack` never ends.
pub open spec fn build_stack_terminates(a: Seq<Package>) -> bool {
    exists|s: Set<int>, r: Seq<nat>| dfs_bounded(a, s, r)
}

pub open spec fn walk_witness(a: Seq<Package>) -> (Set<int>, Seq<nat>) {
    choose|s: Set<int>, r: Seq<nat>| dfs_bounded(a, s, r)
}

/// The indices that the walk from `a[i]` pushes, in order: `a[i]` itself, then, for
/// each dependency in turn, the walk from the first package that meets it.
pub open spec fn push_seq(a: Seq<Package>, i: int) -> Seq<int>
    decreases walk_witness(a).1[i], a[i].depends.len() + 1,
    when build_stack_terminates(a) && walk_witness(a).0.contains(i)
{
    seq![i] + deps_seq(a, i, a[i].depends.len() as int)
}

/// What the walk from `a[i]` pushes for its first `k` dependencies.
pub open spec fn deps_seq(a: Seq<Package>, i: int, k: int) -> Seq<int>
    decreases walk_witness(a).1[i], k,
    when build_stack_terminates(a) && walk_witness(a).0.contains(i) && 0 <= k <= a[i].depends.len()
{
    if k == 0 {
        seq![]
    } else {
        deps_seq(a, i, k - 1) + match dep_target(a, i, k - 1) {
            Some(j) => push_seq(a, j),
            None => seq![],
        }
    }
}

/// The indices of the build stack after the roots `a[t..]` were handled, last first.
pub open spec fn stack_from(a: Seq<Package>, t: int) -> Seq<int>
    decreases a.len() - t,
{
    if t < 0 || t >= a.len() {
        seq![]
    } else {
        stack_from(a, t + 1) + if is_root(a, t) {
            push_seq(a, t)
        } else {
            seq![]
        }
    }
}

/// The indices of the build stack of `a`.
pub open spec fn build_stack_spec(a: Seq<Package>) -> Seq<int> {
    stack_from(a, 0)
}

/// The packages at the indices `ix` of `a`.
pub open spec fn at_indices(a: Seq<Package>, ix: Seq<int>) -> Seq<Package> {
    ix.map_values(|j: int| a[j])
}

proof fn lemma_witness(a: Seq<Package>)
    requires
        build_stack_terminates(a),
    ensures
        dfs_bounded(a, walk_witness(a).0, walk_witness(a).1),
{
}

fn is_required(pkgs: &Vec<&Package>, i: usize) -> (b: bool)
    requires
        i < pkgs@.len(),
    ensures
        b == !is_root(pkgs_view(pkgs@), i as int),
{
    let ghost a = pkgs_view(pkgs@);
    let p = pkgs[i];
    let mut k: usize = 0;
    while k < p.required_by.len()
        invariant
            a == pkgs_view(pkgs@),
            i < a.len(),
            *p == a[i as int],
            k <= p.required_by@.len(),
            forall|m: int| 0 <= m < k ==> !has_name(a, #[trigger] a[i as int].required_by@[m]@),
        decreases p.required_by@.len() - k,
    {
        if pkgs_contain_name(pkgs, p.required_by[k].as_str()) {
            return true;
        }
        k = k + 1;
    }
    false
}

fn push_to_build_stack<'a>(all: &Vec<&'a Package>, stack: &mut Vec<&'a Package>, i: usize)
    requires
        build_stack_terminates(pkgs_view(all@)),
        walk_witness(pkgs_view(all@)).0.contains(i as int),
    ensures
        pkgs_view(final(stack)@) == pkgs_view(old(stack)@) + at_indices(
            pkgs_view(all@),
            push_seq(pkgs_view(all@), i as int),
        ),
    decreases walk_witness(pkgs_view(all@)).1[i as int],
{
    let ghost a = pkgs_view(all@);
    proof {
        lemma_witness(a);
    }
    let ghost start = pkgs_view(stack@);
    let pkg = all[i];
    stack.push(pkg);
    let n = pkg.depends.len();
    let mut k: usize = 0;
    assert(pkgs_view(stack@) =~= start + at_indices(a, seq![i as int] + deps_seq(a, i as int, 0)));
    while k < n
        invariant
            a == pkgs_view(all@),
            build_stack_terminates(a),
            dfs_bounded(a, walk_witness(a).0, walk_witness(a).1),
            walk_witness(a).0.contains(i as int),
            *pkg == a[i as int],
            n == a[i as int].depends.len(),
            k <= n,
            pkgs_view(stack@) == start + at_indices(a, seq![i as int] + deps_seq(a, i as int, k as int)),
        decreases n - k,
    {
        let found = find_first_sat(all, pkg.depends[k].as_str());
        assert(dep_target(a, i as int, k as int) == first_sat(a, pkg.depends@[k as int]@));
        let ghost before = pkgs_view(stack@);
        match found {
            Some(j) => {
                proof {
                    lemma_first_sat_range(a, pkg.depends@[k as int]@);
                }
                push_to_build_stack(all, stack, j);
            },
            None => {},
        }
        proof {
            assert(deps_seq(a, i as int, k + 1) == deps_seq(a, i as int, k as int) + match dep_target(
                a,
                i as int,
                k as int,
            ) {
                Some(j) => push_seq(a, j),
                None => seq![],
            });
            assert(pkgs_view(stack@) =~= start + at_indices(
                a,
                seq![i as int] + deps_seq(a, i as int, k + 1),
            ));
        }
        k = k + 1;
    }
}

/// The packages of `pkgs_to_build` in an order that builds dependencies first, read
/// from the end: for each package, last first, that no package of the list requires,
/// the package and then, dependency by dependency, the same for the first package of
/// the list that meets the dependency.
pub fn setup_build_stack<'a>(pkgs_to_build: &Vec<&'a Package>) -> (stack: Vec<&'a Package>)
    requires
        build_stack_terminates(pkgs_view(pkgs_to_build@)),
    ensures
        pkgs_view(stack@) == at_indices(
            pkgs_view(pkgs_to_build@),
            build_stack_spec(pkgs_view(pkgs_to_build@)),
        ),
{
    let ghost a = pkgs_view(pkgs_to_build@);
    proof {
        lemma_witness(a);
    }
    let mut stack: Vec<&'a Package> = Vec::new();
    let mut t: usize = pkgs_to_build.len();
    assert(pkgs_view(stack@) =~= at_indices(a, stack_from(a, t as int)));
    while t > 0
        invariant
            a == pkgs_view(pkgs_to_build@),
            build_stack_terminates(a),
            dfs_bounded(a, walk_witness(a).0, walk_witness(a).1),
            t <= a.len(),
            pkgs_view(stack@) == at_indices(a, stack_from(a, t as int)),
        decreases t,
    {
        t = t - 1;
        let ghost before = pkgs_view(stack@);
        if !is_required(pkgs_to_build, t) {
            push_to_build_stack(pkgs_to_build, &mut stack, t);
        }
        assert(pkgs_view(stack@) =~= at_indices(a, stack_from(a, t as int)));
    }
    stack
}

/// Every dependency of `a[j]` that leads to a package of `a` leads to one marked in
/// `done`.
pub open spec fn deps_done(a: Seq<Package>, done: Seq<bool>, j: int) -> bool {
    forall|k: int|
        0 <= k < a[j].depends.len() && (#[trigger] dep_target(a, j, k)) is Some ==> done[dep_target(
            a,
            j,
            k,
        )->0]
}

/// Every dependency of `a[j]` leads to a package marked in `done` whose rank is below
/// that of `a[j]`.
pub open spec fn ranked_below(a: Seq<Package>, done: Seq<bool>, rank: Seq<nat>, j: int) -> bool {
    forall|k: int|
        0 <= k < a[j].depends.len() && (#[trigger] dep_target(a, j, k)) is Some ==> {
            let t = dep_target(a, j, k)->0;
            done[t] && rank[t] < rank[j]
        }
}

/// When a package of a terminating walk is not marked, some package of the walk is
/// unmarked while all its dependencies lead to marked ones: follow the dependencies
/// down the ranks.
proof fn lemma_unmarked_ready(a: Seq<Package>, s: Set<int>, r: Seq<nat>, done: Seq<bool>, i: int)
    requires
        dfs_bounded(a, s, r),
        done.len() == a.len(),
        s.contains(i),
        !done[i],
    ensures
        exists|j: int| #![trigger done[j]] s.contains(j) && !done[j] && deps_done(a, done, j),
    decreases r[i],
{
    if deps_done(a, done, i) {
        assert(s.contains(i) && !done[i] && deps_done(a, done, i));
    } else {
        let k = choose|k: int|
            0 <= k < a[i].depends.len() && (#[trigger] dep_target(a, i, k)) is Some && !done[dep_target(
                a,
                i,
                k,
            )->0];
        let t = dep_target(a, i, k)->0;
        assert(s.contains(t) && r[t] < r[i]);
        lemma_unmarked_ready(a, s, r, done, t);
    }
}

fn deps_all_done(pkgs: &Vec<&Package>, done: &Vec<bool>, j: usize) -> (b: bool)
    requires
        j < pkgs@.len(),
        done@.len() == pkgs@.len(),
    ensures
        b == deps_done(pkgs_view(pkgs@), done@, j as int),
{
    let ghost a = pkgs_view(pkgs@);
    let p = pkgs[j];
    let mut k: usize = 0;
    while k < p.depends.len()
        invariant
            a == pkgs_view(pkgs@),
            j < a.len(),
            *p == a[j as int],
            done@.len() == a.len(),
            k <= p.depends@.len(),
            forall|m: int|
                0 <= m < k && (#[trigger] dep_target(a, j as int, m)) is Some ==> done@[dep_target(
                    a,
                    j as int,
                    m,
                )->0],
        decreases p.depends@.len() - k,
    {
        let found = find_first_sat(pkgs, p.depends[k].as_str());
        assert(dep_target(a, j as int, k as int) == first_sat(a, p.depends@[k as int]@));
        match found {
            Some(t) => {
                proof {
                    lemma_first_sat_range(a, p.depends@[k as int]@);
                }
                if !done[t] {
                    return false;
                }
            },
            None => {},
        }
        k = k + 1;
    }
    true
}

/// Whether the walk of `setup_build_stack` over `pkgs` comes to an end, that is,
/// whether no chain of dependencies from a package that no other requires comes back
/// to a package on it. Packages are marked, each once all its dependencies lead to
/// marked ones, until none is left to mark; the walk ends exactly when every such
/// starting package got marked.
pub fn walk_terminates(pkgs: &Vec<&Package>) -> (b: bool)
    ensures
        b == build_stack_terminates(pkgs_view(pkgs@)),
{
    let ghost a = pkgs_view(pkgs@);
    let n = pkgs.len();
    let mut done: Vec<bool> = Vec::new();
    let mut i: usize = 0;
    while i < n
        invariant
            n == a.len(),
            i <= n,
            done@.len() == i,
            forall|m: int| 0 <= m < i ==> !done@[m],
        decreases n - i,
    {
        done.push(false);
        i = i + 1;
    }
    let ghost mut rank: Seq<nat> = Seq::new(n as nat, |m: int| 0nat);
    let ghost mut marked: Set<int> = Set::empty();
    let mut c: usize = 0;
    proof {
        lemma_int_range(0, n as int);
    }
    loop
        invariant
            a == pkgs_view(pkgs@),
            n == a.len(),
            done@.len() == n,
            rank.len() == n,
            set_int_range(0, n as int).finite(),
            set_int_range(0, n as int).len() == n,
            marked.finite(),
            marked.len() == c,
            c <= n,
            forall|m: int| #[trigger] marked.contains(m) <==> 0 <= m < n && done@[m],
            forall|m: int| 0 <= m < n && #[trigger] done@[m] ==> rank[m] < c,
            forall|m: int| 0 <= m < n && #[trigger] done@[m] ==> ranked_below(a, done@, rank, m),
        ensures
            forall|m: int| 0 <= m < n && !(#[trigger] done@[m]) ==> !deps_done(a, done@, m),
            forall|m: int| 0 <= m < n && #[trigger] done@[m] ==> ranked_below(a, done@, rank, m),
        decreases n - c,
    {
        let ghost c0 = c;
        let ghost done0 = done@;
        let mut progress = false;
        let mut j: usize = 0;
        while j < n
            invariant
                a == pkgs_view(pkgs@),
                n == a.len(),
                done@.len() == n,
                rank.len() == n,
                set_int_range(0, n as int).finite(),
                set_int_range(0, n as int).len() == n,
                marked.finite(),
                marked.len() == c,
                c <= n,
                forall|m: int| #[trigger] marked.contains(m) <==> 0 <= m < n && done@[m],
                forall|m: int| 0 <= m < n && #[trigger] done@[m] ==> rank[m] < c,
                forall|m: int| 0 <= m < n && #[trigger] done@[m] ==> ranked_below(a, done@, rank, m),
                j <= n,
                c0 <= c,
                !progress ==> c == c0 && done@ == done0,
                progress ==> c0 < c,
                !progress ==> forall|m: int| 0 <= m < j && !(#[trigger] done@[m]) ==> !deps_done(a, done@, m),
            decreases n - j,
        {
            if !done[j] && deps_all_done(pkgs, &done, j) {
                proof {
                    assert(marked.insert(j as int).subset_of(set_int_range(0, n as int)));
                    lemma_len_subset(marked.insert(j as int), set_int_range(0, n as int));
                }
                let ghost d = done@;
                let ghost rk = rank;
                done.set(j, true);
                proof {
                    rank = rank.update(j as int, c as nat);
                    marked = marked.insert(j as int);
                    assert forall|m: int| 0 <= m < n && #[trigger] done@[m] implies ranked_below(a, done@, rank, m) by {
                        if m == j {
                            assert forall|k: int|
                                0 <= k < a[m].depends.len() && (#[trigger] dep_target(a, m, k)) is Some implies {
                                let t = dep_target(a, m, k)->0;
                                done@[t] && rank[t] < rank[m]
                            } by {
                                let t = dep_target(a, m, k)->0;
                                lemma_first_sat_range(a, a[m].depends@[k]@);
                                assert(d[t]);
                                assert(t != j);
                            }
                        } else {
                            assert(d[m]);
                            assert(ranked_below(a, d, rk, m));
                            assert forall|k: int|
                                0 <= k < a[m].depends.len() && (#[trigger] dep_target(a, m, k)) is Some implies {
                                let t = dep_target(a, m, k)->0;
                                done@[t] && rank[t] < rank[m]
                            } by {
                                let t = dep_target(a, m, k)->0;
                                assert(d[t] && rk[t] < rk[m]);
                                lemma_first_sat_range(a, a[m].depends@[k]@);
                                assert(t != j);
                            }
                        }
                    }
                }
                c = c + 1;
                progress = true;
            }
            j = j + 1;
        }
        if !progress {
            break;
        }
    }
    let mut r: usize = 0;
    while r < n
        invariant
            a == pkgs_view(pkgs@),
            n == a.len(),
            done@.len() == n,
            rank.len() == n,
            r <= n,
            forall|m: int| 0 <= m < r && is_root(a, m) ==> #[trigger] done@[m],
            forall|m: int| 0 <= m < n && !(#[trigger] done@[m]) ==> !deps_done(a, done@, m),
            forall|m: int| 0 <= m < n && #[trigger] done@[m] ==> ranked_below(a, done@, rank, m),
        decreases n - r,
    {
        if !done[r] && !is_required(pkgs, r) {
            proof {
                if build_stack_terminates(a) {
                    let (s, rr) = walk_witness(a);
                    assert(s.contains(r as int));
                    lemma_unmarked_ready(a, s, rr, done@, r as int);
                    let j = choose|j: int| #![trigger done@[j]] s.contains(j) && !done@[j] && deps_done(a, done@, j);
                    assert(false);
                }
            }
            return false;
        }
        r = r + 1;
    }
    proof {
        let s = Set::new(|m: int| 0 <= m < n && done@[m]);
        assert forall|m: int, k: int|
            s.contains(m) && 0 <= k < a[m].depends.len() && (#[trigger] dep_target(a, m, k)) is Some implies s.contains(
            dep_target(a, m, k)->0,
        ) && rank[dep_target(a, m, k)->0] < rank[m] by {
            assert(ranked_below(a, done@, rank, m));
            lemma_first_sat_range(a, a[m].depends@[k]@);
        }
        assert(dfs_bounded(a, s, rank));
    }
    true
}

/// `s` with each package whose name came earlier in `s` left out.
pub open spec fn dedup_names(s: Seq<Package>) -> Seq<Package>
    decreases s.len(),
{
    if s.len() == 0 {
        seq![]
    } else {
        let d = dedup_names(s.drop_last());
        if has_name(d, s.last().name@) {
            d
        } else {
            d.push(s.last())
        }
    }
}

/// The order in which the packages of a build stack are built: from the top of the
/// stack down, each name once, at the place nearest the top.
pub open spec fn build_order_spec(stack: Seq<Package>) -> Seq<Package> {
    dedup_names(stack.reverse())
}

/// `build_stack.iter().rev()` with a package skipped when a package of its name came
/// before it.
pub fn build_order<'a>(build_stack: &Vec<&'a Package>) -> (order: Vec<&'a Package>)
    ensures
        pkgs_view(order@) == build_order_spec(pkgs_view(build_stack@)),
{
    let ghost s = pkgs_view(build_stack@);
    let mut order: Vec<&'a Package> = Vec::new();
    let mut t: usize = build_stack.len();
    assert(s.reverse().take(0) =~= Seq::<Package>::empty());
    while t > 0
        invariant
            s == pkgs_view(build_stack@),
            t <= s.len(),
            pkgs_view(order@) == dedup_names(s.reverse().take(s.len() - t)),
        decreases t,
    {
        t = t - 1;
        let p = build_stack[t];
        let ghost prefix = s.reverse().take(s.len() - t - 1);
        assert(s.reverse().take(s.len() - t) =~= prefix.push(s[t as int]));
        assert(s.reverse().take(s.len() - t).drop_last() =~= prefix);
        if !pkgs_contain_name(&order, p.name.as_str()) {
            order.push(p);
            assert(pkgs_view(order@) =~= dedup_names(s.reverse().take(s.len() - t)));
        }
    }
    assert(s.reverse().take(s.len() as int) =~= s.reverse());
    order
}

/// The characters of `p` after its last `/`.
pub open spec fn last_segment(p: Seq<char>) -> Seq<char>
    decreases p.len(),
{
    if p.len() == 0 || p.last() == '/' {
        seq![]
    } else {
        last_segment(p.drop_last()).push(p.last())
    }
}

/// `Path::file_name` on a Unix path: the last component, trailing separators and `.`
/// components aside; none when that is `..` or when there is no component.
pub open spec fn file_name_spec(p: Seq<char>) -> Option<Seq<char>>
    decreases p.len(),
{
    if p.len() == 0 {
        None
    } else if p.last() == '/' {
        file_name_spec(p.drop_last())
    } else if p.last() == '.' && (p.len() == 1 || p[p.len() - 2] == '/') {
        file_name_spec(p.drop_last())
    } else if p.len() >= 2 && p.last() == '.' && p[p.len() - 2] == '.' && (p.len() == 2
        || p[p.len() - 3] == '/') {
        None
    } else {
        Some(last_segment(p))
    }
}

proof fn lemma_last_segment(p: Seq<char>, s: int, e: int)
    requires
        0 <= s <= e <= p.len(),
        forall|k: int| s <= k < e ==> p[k] != '/',
        s == 0 || p[s - 1] == '/',
    ensures
        last_segment(p.take(e)) == p.subrange(s, e),
    decreases e - s,
{
    if e > s {
        assert(p.take(e).drop_last() =~= p.take(e - 1));
        lemma_last_segment(p, s, e - 1);
        assert(p.subrange(s, e) =~= p.subrange(s, e - 1).push(p[e - 1]));
    } else {
        if e > 0 {
            assert(p.take(e).last() == p[e - 1]);
        }
        assert(p.subrange(s, e) =~= Seq::<char>::empty());
    }
}

/// The file name of the path `p`, as `Path::file_name` gives it.
pub fn file_name(p: &str) -> (r: Option<String>)
    ensures
        r matches Some(n) ==> file_name_spec(p@) == Some(n@),
        r is None ==> file_name_spec(p@) is None,
{
    let v = chars_vec(p);
    let mut e: usize = v.len();
    assert(p@.take(e as int) =~= p@);
    loop
        invariant
            v@ == p@,
            e <= v@.len(),
            file_name_spec(p@.take(e as int)) == file_name_spec(p@),
        decreases e,
    {
        let ghost t = p@.take(e as int);
        if e == 0 {
            return None;
        }
        assert(t.last() == v@[e - 1]);
        assert(t.drop_last() =~= p@.take(e - 1));
        if e >= 2 {
            assert(t[t.len() - 2] == v@[e - 2]);
        }
        if e >= 3 {
            assert(t[t.len() - 3] == v@[e - 3]);
        }
        if v[e - 1] == '/' {
            e = e - 1;
        } else if v[e - 1] == '.' && (e == 1 || v[e - 2] == '/') {
            e = e - 1;
        } else if e >= 2 && v[e - 1] == '.' && v[e - 2] == '.' && (e == 2 || v[e - 3] == '/') {
            return None;
        } else {
            let mut s: usize = e;
            while s > 0 && v[s - 1] != '/'
                invariant
                    v@ == p@,
                    s <= e <= v@.len(),
                    forall|k: int| s <= k < e ==> p@[k] != '/',
                decreases s,
            {
                s = s - 1;
            }
            proof {
                lemma_last_segment(p@, s as int, e as int);
            }
            return Some(substring(p, s, e));
        }
    }
}

/// The install steps for the files `paths` that building `pkg` gave. When several
/// files were built, those whose file name holds the package's name are installed
/// with the package's flags, the rest as dependencies.
pub open spec fn install_infos_spec(
    pkg: (Seq<char>, bool, bool, bool, bool),
    paths: Seq<Seq<char>>,
) -> Seq<(Seq<Seq<char>>, bool, bool, bool)> {
    if paths.len() > 1 {
        seq![
            (keep(paths, |p: Seq<char>| has_substr(file_name_spec(p)->0, pkg.0)), pkg.1, pkg.2, pkg.3),
            (keep(paths, |p: Seq<char>| !has_substr(file_name_spec(p)->0, pkg.0)), pkg.1, true, false),
        ]
    } else {
        seq![(paths, pkg.1, pkg.2, pkg.3)]
    }
}

/// Every path of `paths` has a file name.
pub open spec fn all_have_file_names(paths: Seq<Seq<char>>) -> bool {
    forall|i: int| 0 <= i < paths.len() ==> (file_name_spec(#[trigger] paths[i]) is Some)
}

pub open spec fn infos_view(v: Seq<InstallInfo>) -> Seq<(Seq<Seq<char>>, bool, bool, bool)> {
    v.map_values(|x: InstallInfo| x@)
}

/// How the files `built_pkg_paths` of `pkg` are installed.
pub fn install_infos(pkg: &PkgInfo, built_pkg_paths: Vec<String>) -> (r: Vec<InstallInfo>)
    requires
        built_pkg_paths@.len() > 1 ==> all_have_file_names(views(built_pkg_paths@)),
    ensures
        infos_view(r@) == install_infos_spec(pkg@, views(built_pkg_paths@)),
{
    let ghost ps = views(built_pkg_paths@);
    let mut install_infos: Vec<InstallInfo> = Vec::new();
    if built_pkg_paths.len() > 1 {
        let mut main_pkgs: Vec<String> = Vec::new();
        let mut extra_pkgs: Vec<String> = Vec::new();
        let mut i: usize = 0;
        assert(ps.take(0) =~= Seq::<Seq<char>>::empty());
        while i < built_pkg_paths.len()
            invariant
                ps == views(built_pkg_paths@),
                all_have_file_names(ps),
                i <= ps.len(),
                views(main_pkgs@) == keep(ps.take(i as int), |p: Seq<char>| has_substr(file_name_spec(p)->0, pkg.name@)),
                views(extra_pkgs@) == keep(ps.take(i as int), |p: Seq<char>| !has_substr(file_name_spec(p)->0, pkg.name@)),
            decreases ps.len() - i,
        {
            let path = built_pkg_paths[i].clone();
            assert(ps.take(i + 1).drop_last() =~= ps.take(i as int));
            assert(ps.take(i + 1).last() == path@);
            assert(file_name_spec(ps[i as int]) is Some);
            let n = match file_name(path.as_str()) {
                Some(n) => n,
                None => {
                    assert(false);
                    String::new()
                },
            };
            if contains(n.as_str(), pkg.name.as_str()) {
                assert(views(main_pkgs@.push(path)) =~= views(main_pkgs@).push(path@));
                main_pkgs.push(path);
            } else {
                assert(views(extra_pkgs@.push(path)) =~= views(extra_pkgs@).push(path@));
                extra_pkgs.push(path);
            }
            i = i + 1;
        }
        assert(ps.take(ps.len() as int) =~= ps);
        install_infos.push(
            InstallInfo { pkg_paths: main_pkgs, needed: pkg.needed, asdeps: pkg.asdeps, asexplicit: pkg.asexplicit },
        );
        install_infos.push(
            InstallInfo { pkg_paths: extra_pkgs, needed: pkg.needed, asdeps: true, asexplicit: false },
        );
    } else {
        install_infos.push(
            InstallInfo {
                pkg_paths: built_pkg_paths,
                needed: pkg.needed,
                asdeps: pkg.asdeps,
                asexplicit: pkg.asexplicit,
            },
        );
    }
    assert(infos_view(install_infos@) =~= install_infos_spec(pkg@, ps));
    install_infos
}

/// What became of the last step of building a package.
pub enum BuildEvent {
    Start,
    /// The exit code of `makepkg`.
    Exited(i32),
    /// The output of `makepkg --packagelist`.
    Output(String),
}

/// The next step of building a package.
pub enum BuildAction {
    /// Run `makepkg` and report its exit code.
    Run(ShellCommand),
    /// Run `makepkg` and report its output.
    RunOutput(ShellCommand),
    Done(Result<Vec<InstallInfo>, String>),
}

pub enum BuildStep {
    Run((Seq<char>, Seq<Seq<char>>, Option<Seq<char>>, bool)),
    RunOutput((Seq<char>, Seq<Seq<char>>, Option<Seq<char>>, bool)),
    Done(Result<Seq<(Seq<Seq<char>>, bool, bool, bool)>, Seq<char>>),
}

impl View for BuildAction {
    type V = BuildStep;

    open spec fn view(&self) -> BuildStep {
        match self {
            BuildAction::Run(c) => BuildStep::Run(c@),
            BuildAction::RunOutput(c) => BuildStep::RunOutput(c@),
            BuildAction::Done(Ok(v)) => BuildStep::Done(Ok(infos_view(v@))),
            BuildAction::Done(Err(e)) => BuildStep::Done(Err(e@)),
        }
    }
}

/// `makepkg` in `cwd` with the given flags and every other flag off.
pub open spec fn makepkg_in(cwd: Seq<char>, noextract: bool, packagelist: bool, force: bool) -> (Seq<char>, Seq<Seq<char>>, Option<Seq<char>>, bool) {
    (
        "makepkg"@,
        crate::makepkg::flag_if(force, "--force"@) + crate::makepkg::flag_if(noextract, "--noextract"@)
            + crate::makepkg::flag_if(packagelist, "--packagelist"@),
        if cwd.len() == 0 {
            None
        } else {
            Some(cwd)
        },
        false,
    )
}

/// The step of building `pkg` in `cwd` after `event`: `makepkg` (with `--noextract`
/// when asked); on exit code 0 or 13 (already built), `makepkg --packagelist` (with
/// `--force` when the package asks it), whose lines are the built files; on any other
/// code, the package's name as the error.
pub open spec fn build_spec(cwd: Seq<char>, noextract: bool, pkg: (Seq<char>, bool, bool, bool, bool), event: BuildEvent) -> BuildStep {
    match event {
        BuildEvent::Start => BuildStep::Run(makepkg_in(cwd, noextract, false, false)),
        BuildEvent::Exited(code) => if code == 13 || code == 0 {
            BuildStep::RunOutput(makepkg_in(cwd, false, true, pkg.4))
        } else {
            BuildStep::Done(Err(pkg.0))
        },
        BuildEvent::Output(s) => BuildStep::Done(Ok(install_infos_spec(pkg, lines_of(s@)))),
    }
}

/// The events that can be handled: several built file paths must each have a file
/// name, since the package's own files are told apart by it.
pub open spec fn build_event_ok(event: BuildEvent) -> bool {
    event matches BuildEvent::Output(s) ==> (lines_of(s@).len() > 1 ==> all_have_file_names(
        lines_of(s@),
    ))
}

/// Builds `pkg` in the repository `cwd`; does not reset the repository first.
pub fn build(cwd: &str, noextract: bool, pkg: &PkgInfo, event: BuildEvent) -> (a: BuildAction)
    requires
        build_event_ok(event),
    ensures
        a@ == build_spec(cwd@, noextract, pkg@, event),
{
    match event {
        BuildEvent::Start => {
            let m = Makepkg { cwd: String::from_str(cwd), noextract, ..Default::default() };
            let c = m.status();
            assert(c@ =~= makepkg_in(cwd@, noextract, false, false));
            BuildAction::Run(c)
        },
        BuildEvent::Exited(code) => {
            if code == 13 || code == 0 {
                let m = Makepkg {
                    cwd: String::from_str(cwd),
                    packagelist: true,
                    force: pkg.force,
                    ..Default::default()
                };
                let c = m.output();
                assert(c@ =~= makepkg_in(cwd@, false, true, pkg.force));
                BuildAction::RunOutput(c)
            } else {
                BuildAction::Done(Err(pkg.name.clone()))
            }
        },
        BuildEvent::Output(s) => {
            let lines = read_lines_to_strings(s);
            BuildAction::Done(Ok(install_infos(pkg, lines)))
        },
    }
}

/// Along `s`, whatever a dependency of a package leads to comes again later.
pub open spec fn closed_after(a: Seq<Package>, s: Seq<int>) -> bool {
    forall|t: int, k: int|
        #![trigger s[t], dep_target(a, s[t], k)]
        0 <= t < s.len() && 0 <= k < a[s[t]].depends.len() && dep_target(a, s[t], k) is Some
            ==> exists|t2: int| t < t2 < s.len() && s[t2] == dep_target(a, s[t], k)->0
}

/// Every index of `s` is in `w`.
pub open spec fn within(w: Set<int>, s: Seq<int>) -> bool {
    forall|t: int| 0 <= t < s.len() ==> w.contains(#[trigger] s[t])
}

proof fn lemma_closed_concat(a: Seq<Package>, w: Set<int>, s1: Seq<int>, s2: Seq<int>)
    requires
        closed_after(a, s1),
        closed_after(a, s2),
        within(w, s1),
        within(w, s2),
    ensures
        closed_after(a, s1 + s2),
        within(w, s1 + s2),
{
    let s = s1 + s2;
    assert forall|t: int, k: int|
        #![trigger s[t], dep_target(a, s[t], k)]
        0 <= t < s.len() && 0 <= k < a[s[t]].depends.len() && dep_target(a, s[t], k) is Some implies exists|t2: int|
        t < t2 < s.len() && s[t2] == dep_target(a, s[t], k)->0 by {
        if t < s1.len() {
            assert(s[t] == s1[t]);
            let t2 = choose|t2: int| t < t2 < s1.len() && #[trigger] s1[t2] == dep_target(a, s1[t], k)->0;
            assert(s[t2] == s1[t2]);
        } else {
            assert(s[t] == s2[t - s1.len()]);
            let t2 = choose|t2: int|
                t - s1.len() < t2 < s2.len() && #[trigger] s2[t2] == dep_target(a, s2[t - s1.len()], k)->0;
            assert(s[t2 + s1.len()] == s2[t2]);
        }
    }
    assert forall|t: int| 0 <= t < s.len() implies w.contains(#[trigger] s[t]) by {
        if t < s1.len() {
            assert(s[t] == s1[t]);
        } else {
            assert(s[t] == s2[t - s1.len()]);
        }
    }
}

proof fn lemma_push_closed(a: Seq<Package>, i: int)
    requires
        build_stack_terminates(a),
        walk_witness(a).0.contains(i),
    ensures
        push_seq(a, i).len() > 0,
        push_seq(a, i)[0] == i,
        closed_after(a, push_seq(a, i)),
        within(walk_witness(a).0, push_seq(a, i)),
    decreases walk_witness(a).1[i], a[i].depends.len() + 1,
{
    let w = walk_witness(a).0;
    lemma_witness(a);
    let n = a[i].depends.len() as int;
    lemma_deps_closed(a, i, n);
    let d = deps_seq(a, i, n);
    let s = push_seq(a, i);
    assert(s == seq![i] + d);
    assert forall|t: int, k: int|
        #![trigger s[t], dep_target(a, s[t], k)]
        0 <= t < s.len() && 0 <= k < a[s[t]].depends.len() && dep_target(a, s[t], k) is Some implies exists|t2: int|
        t < t2 < s.len() && s[t2] == dep_target(a, s[t], k)->0 by {
        if t == 0 {
            assert(s[0] == i);
            let p = choose|p: int| 0 <= p < d.len() && #[trigger] d[p] == dep_target(a, i, k)->0;
            assert(s[p + 1] == d[p]);
        } else {
            assert(s[t] == d[t - 1]);
            let t2 = choose|t2: int| t - 1 < t2 < d.len() && #[trigger] d[t2] == dep_target(a, d[t - 1], k)->0;
            assert(s[t2 + 1] == d[t2]);
        }
    }
    assert forall|t: int| 0 <= t < s.len() implies w.contains(#[trigger] s[t]) by {
        if t > 0 {
            assert(s[t] == d[t - 1]);
        }
    }
}

proof fn lemma_deps_closed(a: Seq<Package>, i: int, k: int)
    requires
        build_stack_terminates(a),
        walk_witness(a).0.contains(i),
        0 <= k <= a[i].depends.len(),
    ensures
        closed_after(a, deps_seq(a, i, k)),
        within(walk_witness(a).0, deps_seq(a, i, k)),
        forall|m: int|
            0 <= m < k && (#[trigger] dep_target(a, i, m)) is Some ==> exists|p: int|
                0 <= p < deps_seq(a, i, k).len() && deps_seq(a, i, k)[p] == dep_target(a, i, m)->0,
    decreases walk_witness(a).1[i], k,
{
    let w = walk_witness(a).0;
    lemma_witness(a);
    if k > 0 {
        lemma_deps_closed(a, i, k - 1);
        let prev = deps_seq(a, i, k - 1);
        match dep_target(a, i, k - 1) {
            Some(j) => {
                assert(w.contains(j));
                lemma_push_closed(a, j);
                let ps = push_seq(a, j);
                lemma_closed_concat(a, w, prev, ps);
                let cur = deps_seq(a, i, k);
                assert(cur == prev + ps);
                assert forall|m: int|
                    0 <= m < k && (#[trigger] dep_target(a, i, m)) is Some implies exists|p: int|
                    0 <= p < cur.len() && cur[p] == dep_target(a, i, m)->0 by {
                    if m < k - 1 {
                        let p = choose|p: int| 0 <= p < prev.len() && #[trigger] prev[p] == dep_target(a, i, m)->0;
                        assert(cur[p] == prev[p]);
                    } else {
                        assert(cur[prev.len() as int] == ps[0]);
                    }
                }
            },
            None => {
                let cur = deps_seq(a, i, k);
                assert(cur =~= prev);
                assert forall|m: int|
                    0 <= m < k && (#[trigger] dep_target(a, i, m)) is Some implies exists|p: int|
                    0 <= p < cur.len() && cur[p] == dep_target(a, i, m)->0 by {
                    if m < k - 1 {
                        let p = choose|p: int| 0 <= p < prev.len() && #[trigger] prev[p] == dep_target(a, i, m)->0;
                        assert(cur[p] == prev[p]);
                    }
                }
            },
        }
    }
}

proof fn lemma_stack_closed(a: Seq<Package>, t: int)
    requires
        build_stack_terminates(a),
        0 <= t <= a.len(),
    ensures
        closed_after(a, stack_from(a, t)),
        within(walk_witness(a).0, stack_from(a, t)),
        forall|i: int|
            t <= i < a.len() && is_root(a, i) ==> exists|p: int|
                0 <= p < stack_from(a, t).len() && #[trigger] stack_from(a, t)[p] == i,
    decreases a.len() - t,
{
    let w = walk_witness(a).0;
    lemma_witness(a);
    if t < a.len() {
        lemma_stack_closed(a, t + 1);
        let prev = stack_from(a, t + 1);
        let cur = stack_from(a, t);
        if is_root(a, t) {
            assert(w.contains(t));
            lemma_push_closed(a, t);
            lemma_closed_concat(a, w, prev, push_seq(a, t));
            assert(cur == prev + push_seq(a, t));
            assert forall|i: int| t <= i < a.len() && is_root(a, i) implies exists|p: int|
                0 <= p < cur.len() && #[trigger] cur[p] == i by {
                if i > t {
                    let p = choose|p: int| 0 <= p < prev.len() && #[trigger] prev[p] == i;
                    assert(cur[p] == prev[p]);
                } else {
                    assert(cur[prev.len() as int] == push_seq(a, t)[0]);
                }
            }
        } else {
            assert(cur =~= prev);
        }
    } else {
        assert(stack_from(a, t) =~= Seq::<int>::empty());
    }
}

/// No two packages of `a` share a name, as in a package database.
pub open spec fn names_distinct(a: Seq<Package>) -> bool {
    forall|i: int, j: int| 0 <= i < a.len() && 0 <= j < a.len() && i != j ==> a[i].name@ != a[j].name@
}

/// `idx` gives, for each package of `o`, its place in `r`, in increasing order.
pub open spec fn places_ok(r: Seq<Package>, o: Seq<Package>, idx: Seq<int>) -> bool {
    &&& idx.len() == o.len()
    &&& forall|x: int| 0 <= x < idx.len() ==> 0 <= #[trigger] idx[x] < r.len() && o[x] == r[idx[x]]
    &&& forall|x: int, y: int| 0 <= x < y < idx.len() ==> #[trigger] idx[x] < #[trigger] idx[y]
}

/// The name of `r[t]` is kept in `o`, from a place no later than `t`.
pub open spec fn covered(r: Seq<Package>, o: Seq<Package>, idx: Seq<int>, t: int) -> bool {
    exists|x: int| 0 <= x < idx.len() && idx[x] <= t && #[trigger] o[x].name@ == r[t].name@
}

pub open spec fn all_covered(r: Seq<Package>, o: Seq<Package>, idx: Seq<int>) -> bool {
    forall|t: int| 0 <= t < r.len() ==> #[trigger] covered(r, o, idx, t)
}

/// For the packages that `dedup_names` keeps of `r`, the place in `r` where each came
/// from.
proof fn lemma_dedup_places(r: Seq<Package>) -> (idx: Seq<int>)
    ensures
        places_ok(r, dedup_names(r), idx),
        all_covered(r, dedup_names(r), idx),
    decreases r.len(),
{
    if r.len() == 0 {
        seq![]
    } else {
        let q = r.drop_last();
        let prev = lemma_dedup_places(q);
        let d = dedup_names(q);
        if has_name(d, r.last().name@) {
            lemma_dedup_keep(r, q, d, prev);
            prev
        } else {
            lemma_dedup_push(r, q, d, prev)
        }
    }
}

proof fn lemma_dedup_keep(r: Seq<Package>, q: Seq<Package>, d: Seq<Package>, prev: Seq<int>)
    requires
        r.len() > 0,
        q == r.drop_last(),
        d == dedup_names(q),
        has_name(d, r.last().name@),
        places_ok(q, d, prev),
        all_covered(q, d, prev),
    ensures
        places_ok(r, dedup_names(r), prev),
        all_covered(r, dedup_names(r), prev),
{
    assert(dedup_names(r) == d);
    assert forall|x: int| 0 <= x < prev.len() implies 0 <= #[trigger] prev[x] < r.len() && d[x] == r[prev[x]] by {
        assert(r[prev[x]] == q[prev[x]]);
    }
    assert forall|t: int| 0 <= t < r.len() implies #[trigger] covered(r, d, prev, t) by {
        if t < r.len() - 1 {
            assert(r[t] == q[t]);
            assert(covered(q, d, prev, t));
            let x = choose|x: int| 0 <= x < prev.len() && prev[x] <= t && #[trigger] d[x].name@ == q[t].name@;
            assert(d[x].name@ == r[t].name@);
        } else {
            let x = choose|x: int| 0 <= x < d.len() && #[trigger] d[x].name@ == r.last().name@;
            assert(prev[x] < q.len());
            assert(d[x].name@ == r[t].name@);
        }
    }
}

proof fn lemma_dedup_push(r: Seq<Package>, q: Seq<Package>, d: Seq<Package>, prev: Seq<int>) -> (idx: Seq<int>)
    requires
        r.len() > 0,
        q == r.drop_last(),
        d == dedup_names(q),
        !has_name(d, r.last().name@),
        places_ok(q, d, prev),
        all_covered(q, d, prev),
    ensures
        places_ok(r, dedup_names(r), idx),
        all_covered(r, dedup_names(r), idx),
{
    let o = d.push(r.last());
    assert(dedup_names(r) == o);
    let idx = prev.push(r.len() - 1);
    assert forall|x: int| 0 <= x < idx.len() implies 0 <= #[trigger] idx[x] < r.len() && o[x] == r[idx[x]] by {
        if x < prev.len() {
            assert(r[prev[x]] == q[prev[x]]);
        }
    }
    assert forall|x: int, y: int| 0 <= x < y < idx.len() implies #[trigger] idx[x] < #[trigger] idx[y] by {
        if y < prev.len() {
        } else {
            assert(prev[x] < q.len());
        }
    }
    assert forall|t: int| 0 <= t < r.len() implies #[trigger] covered(r, o, idx, t) by {
        if t < r.len() - 1 {
            assert(r[t] == q[t]);
            assert(covered(q, d, prev, t));
            let x = choose|x: int| 0 <= x < prev.len() && prev[x] <= t && #[trigger] d[x].name@ == q[t].name@;
            assert(o[x] == d[x]);
            assert(idx[x] == prev[x]);
        } else {
            assert(o[d.len() as int] == r.last());
            assert(idx[d.len() as int] == t);
        }
    }
    idx
}

/// The build order of `pkgs_to_build`: its build stack read from the top, each
/// package once.
pub open spec fn build_order_of(a: Seq<Package>) -> Seq<Package> {
    build_order_spec(at_indices(a, build_stack_spec(a)))
}

/// The facts about the build stack `s` of `a` and its reverse `r` that the build
/// order rests on.
pub open spec fn stack_facts(a: Seq<Package>, s: Seq<int>, r: Seq<Package>) -> bool {
    &&& r.len() == s.len()
    &&& closed_after(a, s)
    &&& forall|t: int| 0 <= t < s.len() ==> 0 <= #[trigger] s[t] < a.len()
    &&& forall|t: int| 0 <= t < r.len() ==> #[trigger] r[t] == a[s[s.len() - 1 - t]]
}

proof fn lemma_stack_facts(a: Seq<Package>)
    requires
        build_stack_terminates(a),
    ensures
        stack_facts(a, build_stack_spec(a), at_indices(a, build_stack_spec(a)).reverse()),
{
    lemma_witness(a);
    let w = walk_witness(a).0;
    lemma_stack_closed(a, 0);
    let s = build_stack_spec(a);
    let r = at_indices(a, s).reverse();
    let m = s.len() as int;
    assert forall|t: int| 0 <= t < s.len() implies 0 <= #[trigger] s[t] < a.len() by {
        assert(w.contains(s[t]));
    }
    assert forall|t: int| 0 <= t < r.len() implies #[trigger] r[t] == a[s[m - 1 - t]] by {
        assert(r[t] == at_indices(a, s)[m - 1 - t]);
    }
}

proof fn lemma_order_deps_first(a: Seq<Package>, s: Seq<int>, r: Seq<Package>, idx: Seq<int>, x: int, k: int)
    requires
        names_distinct(a),
        stack_facts(a, s, r),
        places_ok(r, dedup_names(r), idx),
        all_covered(r, dedup_names(r), idx),
        0 <= x < dedup_names(r).len(),
        0 <= k < dedup_names(r)[x].depends.len(),
        first_sat(a, dedup_names(r)[x].depends@[k]@) is Some,
    ensures
        exists|y: int| 0 <= y < x && dedup_names(r)[y] == a[first_sat(a, dedup_names(r)[x].depends@[k]@)->0],
{
    let o = dedup_names(r);
    let m = s.len() as int;
    let f = idx[x];
    let pos = m - 1 - f;
    let v = s[pos];
    assert(r[f] == a[v]);
    assert(o[x] == a[v]);
    assert(dep_target(a, s[pos], k) == first_sat(a, o[x].depends@[k]@));
    let j = first_sat(a, o[x].depends@[k]@)->0;
    let t2 = choose|t2: int| pos < t2 < s.len() && #[trigger] s[t2] == dep_target(a, s[pos], k)->0;
    let tr = m - 1 - t2;
    assert(r[tr] == a[s[m - 1 - tr]]);
    assert(r[tr] == a[j]);
    assert(covered(r, o, idx, tr));
    let y = choose|y: int| 0 <= y < idx.len() && idx[y] <= tr && #[trigger] o[y].name@ == r[tr].name@;
    if y > x {
        assert(idx[x] < idx[y]);
    }
    assert(y < x);
    let u = s[m - 1 - idx[y]];
    assert(o[y] == r[idx[y]]);
    assert(r[idx[y]] == a[u]);
    assert(a[u].name@ == a[j].name@);
    assert(u == j);
}

/// Dependencies are built first: in the build order of a list of packages with
/// distinct names, wherever a dependency of a package is met by a package of the list,
/// that package comes earlier in the order.
pub proof fn lemma_build_order_deps_first(a: Seq<Package>)
    requires
        build_stack_terminates(a),
        names_distinct(a),
    ensures
        forall|x: int, k: int|
            0 <= x < build_order_of(a).len() && 0 <= k < build_order_of(a)[x].depends.len()
                && (#[trigger] first_sat(a, build_order_of(a)[x].depends@[k]@)) is Some ==> exists|y: int|
                0 <= y < x && build_order_of(a)[y] == a[first_sat(a, build_order_of(a)[x].depends@[k]@)->0],
{
    lemma_stack_facts(a);
    let s = build_stack_spec(a);
    let r = at_indices(a, s).reverse();
    assert(build_order_of(a) == dedup_names(r));
    let idx = lemma_dedup_places(r);
    assert forall|x: int, k: int|
        0 <= x < build_order_of(a).len() && 0 <= k < build_order_of(a)[x].depends.len()
            && (#[trigger] first_sat(a, build_order_of(a)[x].depends@[k]@)) is Some implies exists|y: int|
            0 <= y < x && build_order_of(a)[y] == a[first_sat(a, build_order_of(a)[x].depends@[k]@)->0] by {
        lemma_order_deps_first(a, s, r, idx, x, k);
    }
}

/// The build order holds packages of the list only, and every package of the list
/// that no package of the list requires.
pub proof fn lemma_build_order_members(a: Seq<Package>)
    requires
        build_stack_terminates(a),
    ensures
        forall|x: int| 0 <= x < build_order_of(a).len() ==> exists|i: int|
            0 <= i < a.len() && #[trigger] build_order_of(a)[x] == a[i],
        forall|i: int| 0 <= i < a.len() && is_root(a, i) ==> exists|x: int|
            0 <= x < build_order_of(a).len() && #[trigger] build_order_of(a)[x].name@ == a[i].name@,
{
    lemma_stack_facts(a);
    lemma_witness(a);
    lemma_stack_closed(a, 0);
    let s = build_stack_spec(a);
    let r = at_indices(a, s).reverse();
    let m = s.len() as int;
    let o = build_order_of(a);
    assert(o == dedup_names(r));
    let idx = lemma_dedup_places(r);
    assert forall|x: int| 0 <= x < o.len() implies exists|i: int| 0 <= i < a.len() && #[trigger] o[x] == a[i] by {
        assert(o[x] == r[idx[x]]);
        assert(r[idx[x]] == a[s[m - 1 - idx[x]]]);
    }
    assert forall|i: int| 0 <= i < a.len() && is_root(a, i) implies exists|x: int|
        0 <= x < o.len() && #[trigger] o[x].name@ == a[i].name@ by {
        let p = choose|p: int| 0 <= p < s.len() && #[trigger] s[p] == i;
        let tr = m - 1 - p;
        assert(r[tr] == a[s[m - 1 - tr]]);
        assert(covered(r, o, idx, tr));
    }
}

/// The build stack, read from its start: it holds packages of the list only (each
/// entry is the package at its index); every package that no package of the list
/// requires is on it; and wherever a dependency of a package on it is met by a
/// package of the list, that package comes again later on the stack, so that, read
/// from the end, dependencies come before what depends on them.
pub proof fn lemma_build_stack_members(a: Seq<Package>)
    requires
        build_stack_terminates(a),
    ensures
        ({
            let s = build_stack_spec(a);
            &&& at_indices(a, s).len() == s.len()
            &&& forall|t: int| 0 <= t < s.len() ==> 0 <= #[trigger] s[t] < a.len() && at_indices(a, s)[t] == a[s[t]]
            &&& forall|i: int| 0 <= i < a.len() && is_root(a, i) ==> exists|t: int| 0 <= t < s.len() && #[trigger] s[t] == i
            &&& closed_after(a, s)
        }),
{
    lemma_witness(a);
    lemma_stack_closed(a, 0);
    let s = build_stack_spec(a);
    assert forall|t: int| 0 <= t < s.len() implies 0 <= #[trigger] s[t] < a.len() && at_indices(a, s)[t] == a[s[t]] by {
        assert(walk_witness(a).0.contains(s[t]));
    }
}

/// A package of the list that no package of the list requires (none of the names in
/// its `required_by` is the name of a package of the list) starts the walk: it is on
/// the build stack and its name is in the build order, whatever packages outside the
/// list require it.
pub proof fn lemma_unrequired_packages_are_built(a: Seq<Package>, i: int)
    requires
        build_stack_terminates(a),
        0 <= i < a.len(),
        forall|k: int, j: int|
            0 <= k < a[i].required_by.len() && 0 <= j < a.len() ==> #[trigger] a[j].name@
                != #[trigger] a[i].required_by@[k]@,
    ensures
        exists|t: int| 0 <= t < build_stack_spec(a).len() && build_stack_spec(a)[t] == i,
        exists|x: int| 0 <= x < build_order_of(a).len() && build_order_of(a)[x].name@ == a[i].name@,
{
    assert forall|k: int| 0 <= k < a[i].required_by.len() implies !has_name(a, #[trigger] a[i].required_by@[k]@) by {
        if has_name(a, a[i].required_by@[k]@) {
            let j = choose|j: int| 0 <= j < a.len() && #[trigger] a[j].name@ == a[i].required_by@[k]@;
            assert(a[j].name@ != a[i].required_by@[k]@);
        }
    }
    assert(is_root(a, i));
    lemma_build_stack_members(a);
    lemma_build_order_members(a);
    let x = choose|x: int| 0 <= x < build_order_of(a).len() && #[trigger] build_order_of(a)[x].name@ == a[i].name@;
}

/// `makepkg` exiting with 0 (built) or 13 (already built) is a success: the next
/// step lists the built files with `makepkg --packagelist`. Any other exit code fails
/// the build with the package's name.
pub proof fn lemma_build_succeeds_on_0_and_13(
    cwd: Seq<char>,
    noextract: bool,
    pkg: (Seq<char>, bool, bool, bool, bool),
    code: i32,
)
    ensures
        build_spec(cwd, noextract, pkg, BuildEvent::Exited(code)) is RunOutput <==> (code == 0 || code == 13),
        (code == 0 || code == 13) ==> {
            let c = build_spec(cwd, noextract, pkg, BuildEvent::Exited(code))->RunOutput_0;
            &&& c.0 == "makepkg"@
            &&& c.1.len() > 0
            &&& c.1[c.1.len() - 1] == "--packagelist"@
        },
        !(code == 0 || code == 13) ==> build_spec(cwd, noextract, pkg, BuildEvent::Exited(code))
            == BuildStep::Done(Err(pkg.0)),
{
    if code == 0 || code == 13 {
        let c = makepkg_in(cwd, false, true, pkg.4);
        assert(c.1 =~= crate::makepkg::flag_if(pkg.4, "--force"@) + seq!["--packagelist"@]);
    }
}

} // verus!
