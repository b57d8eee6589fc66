use vstd::prelude::*;
use vstd::arithmetic::power2::{lemma2_to64, lemma_pow2_unfold, pow2};

verus! {

/// A feature name as a sequence of characters.
pub type Name = Seq<char>;

/// A combination of features, as the names it holds.
pub type Names = Seq<Name>;

/// The names held by a vector of strings.
pub open spec fn names(v: Seq<String>) -> Names {
    v.map_values(|s: String| s@)
}

/// The name lists held by a vector of string vectors.
pub open spec fn name_lists(v: Seq<Vec<String>>) -> Seq<Names> {
    v.map_values(|c: Vec<String>| names(c@))
}

/// Every subset of `f`, each listed in the order of `f`. Subset number `m`
/// holds the features whose bit is set in `m`, so the empty set comes first
/// and the set of all features last.
pub open spec fn power_set(f: Names) -> Seq<Names>
    decreases f.len(),
{
    if f.len() == 0 {
        seq![Seq::<Name>::empty()]
    } else {
        let p = power_set(f.drop_last());
        p + p.map_values(|c: Names| c.push(f.last()))
    }
}

/// Two combinations name the same features, whatever their order.
pub open spec fn same_set(a: Names, b: Names) -> bool {
    a.to_set() == b.to_set()
}

/// A combination is skipped when it names exactly the features of a rule.
pub open spec fn skipped(c: Names, rules: Seq<Names>) -> bool {
    exists|j: int| 0 <= j < rules.len() && #[trigger] same_set(c, rules[j])
}

/// The combinations of `s` that no rule skips, in the order of `s`.
pub open spec fn keep_unskipped(s: Seq<Names>, rules: Seq<Names>) -> Seq<Names>
    decreases s.len(),
{
    if s.len() == 0 {
        Seq::empty()
    } else {
        let k = keep_unskipped(s.drop_last(), rules);
        if skipped(s.last(), rules) {
            k
        } else {
            k.push(s.last())
        }
    }
}

/// The matrix of one crate: its power set without the skipped sets.
pub open spec fn crate_matrix(f: Names, rules: Seq<Names>) -> Seq<Names> {
    keep_unskipped(power_set(f), rules)
}

/// Every name of every rule is a declared feature.
pub open spec fn all_declared(f: Names, rules: Seq<Names>) -> bool {
    forall|j: int, i: int|
        0 <= j < rules.len() && 0 <= i < rules[j].len() ==> f.contains(#[trigger] rules[j][i])
}

/// Whether `s` is one of `v`.
pub fn contains_name(v: &Vec<String>, s: &String) -> (r: bool)
    ensures
        r == names(v@).contains(s@),
{
    let mut i: usize = 0;
    while i < v.len()
        invariant
            i <= v.len(),
            forall|k: int| 0 <= k < i ==> v@[k]@ != s@,
        decreases v.len() - i,
    {
        if v[i] == *s {
            assert(names(v@)[i as int] == s@);
            return true;
        }
        i = i + 1;
    }
    proof {
        if names(v@).contains(s@) {
            let k = choose|k: int| 0 <= k < names(v@).len() && names(v@)[k] == s@;
            assert(v@[k]@ == s@);
        }
    }
    false
}

/// Whether every name of `a` is one of `b`.
fn all_within(a: &Vec<String>, b: &Vec<String>) -> (r: bool)
    ensures
        r == (forall|i: int| 0 <= i < a@.len() ==> names(b@).contains(#[trigger] names(a@)[i])),
{
    let mut i: usize = 0;
    while i < a.len()
        invariant
            i <= a.len(),
            forall|k: int| 0 <= k < i ==> names(b@).contains(#[trigger] names(a@)[k]),
        decreases a.len() - i,
    {
        if !contains_name(b, &a[i]) {
            assert(!names(b@).contains(names(a@)[i as int]));
            return false;
        }
        i = i + 1;
    }
    true
}

/// Whether `a` and `b` name the same features.
pub fn same_names(a: &Vec<String>, b: &Vec<String>) -> (r: bool)
    ensures
        r == same_set(names(a@), names(b@)),
{
    let ab = all_within(a, b);
    let ba = all_within(b, a);
    let ghost na = names(a@);
    let ghost nb = names(b@);
    proof {
        if ab && ba {
            assert forall|x: Name| na.to_set().contains(x) == nb.to_set().contains(x) by {
                if na.contains(x) {
                    let k = choose|k: int| 0 <= k < na.len() && na[k] == x;
                    assert(nb.contains(na[k]));
                }
                if nb.contains(x) {
                    let k = choose|k: int| 0 <= k < nb.len() && nb[k] == x;
                    assert(na.contains(nb[k]));
                }
            }
            assert(na.to_set() =~= nb.to_set());
        }
        if !ab {
            let k = choose|k: int| 0 <= k < a@.len() && !nb.contains(#[trigger] na[k]);
            assert(na.to_set().contains(na[k]));
            assert(!nb.to_set().contains(na[k]));
        }
        if !ba {
            let k = choose|k: int| 0 <= k < b@.len() && !na.contains(#[trigger] nb[k]);
            assert(nb.to_set().contains(nb[k]));
            assert(!na.to_set().contains(nb[k]));
        }
    }
    ab && ba
}

/// A copy of `v`.
pub(crate) fn copy_names(v: &Vec<String>) -> (r: Vec<String>)
    ensures
        names(r@) == names(v@),
{
    let mut r: Vec<String> = Vec::new();
    for i in 0..v.len()
        invariant
            names(r@) == names(v@).take(i as int),
    {
        let ghost before = r@;
        let s = v[i].clone();
        assert(s@ == v@[i as int]@);
        r.push(s);
        assert(r@ == before.push(s));
        assert(names(r@) =~= names(before).push(s@));
        assert(names(r@) =~= names(v@).take(i + 1));
    }
    assert(names(v@).take(v@.len() as int) =~= names(v@));
    r
}

/// Every subset of `features`, in the order of `power_set`.
pub fn power_set_of(features: &Vec<String>) -> (r: Vec<Vec<String>>)
    ensures
        name_lists(r@) == power_set(names(features@)),
{
    let ghost f = names(features@);
    let mut m: Vec<Vec<String>> = Vec::new();
    m.push(Vec::new());
    assert(f.take(0) =~= Seq::<Name>::empty());
    assert(names(m@[0]@) =~= Seq::<Name>::empty());
    assert(name_lists(m@) =~= power_set(f.take(0)));
    for i in 0..features.len()
        invariant
            f == names(features@),
            name_lists(m@) == power_set(f.take(i as int)),
    {
        let ghost p = name_lists(m@);
        let n = m.len();
        for j in 0..n
            invariant
                f == names(features@),
                i < features@.len(),
                n == p.len(),
                m@.len() == n + j,
                name_lists(m@) == p + p.take(j as int).map_values(|c: Names| c.push(f[i as int])),
        {
            assert(name_lists(m@)[j as int] == p[j as int]);
            let ghost before = name_lists(m@);
            let mut c = copy_names(&m[j]);
            c.push(features[i].clone());
            assert(names(c@) =~= p[j as int].push(f[i as int]));
            m.push(c);
            assert(name_lists(m@) =~= before.push(p[j as int].push(f[i as int])));
            assert(name_lists(m@) =~= p + p.take(j + 1).map_values(
                |c: Names| c.push(f[i as int]),
            ));
        }
        assert(p.take(n as int) =~= p);
        assert(f.take(i + 1).drop_last() =~= f.take(i as int));
    }
    assert(f.take(features@.len() as int) =~= f);
    m
}

/// Whether some rule names exactly the features of `c`.
pub fn is_skipped(c: &Vec<String>, rules: &Vec<Vec<String>>) -> (r: bool)
    ensures
        r == skipped(names(c@), name_lists(rules@)),
{
    let ghost rs = name_lists(rules@);
    for j in 0..rules.len()
        invariant
            rs == name_lists(rules@),
            forall|k: int| 0 <= k < j ==> !same_set(names(c@), #[trigger] rs[k]),
    {
        if same_names(c, &rules[j]) {
            assert(same_set(names(c@), rs[j as int]));
            return true;
        }
    }
    false
}

/// The first name in `rules` that `features` does not declare, if any.
pub fn undeclared_name(features: &Vec<String>, rules: &Vec<Vec<String>>) -> (r: Option<String>)
    ensures
        r is None <==> all_declared(names(features@), name_lists(rules@)),
        r matches Some(s) ==> !names(features@).contains(s@) && exists|j: int, i: int|
            0 <= j < rules@.len() && 0 <= i < rules@[j]@.len() && #[trigger] rules@[j]@[i]@
                == s@,
{
    let ghost f = names(features@);
    let ghost rs = name_lists(rules@);
    for j in 0..rules.len()
        invariant
            f == names(features@),
            rs == name_lists(rules@),
            forall|jj: int, i: int|
                0 <= jj < j && 0 <= i < rs[jj].len() ==> f.contains(#[trigger] rs[jj][i]),
    {
        let rule = &rules[j];
        for i in 0..rule.len()
            invariant
                f == names(features@),
                rs == name_lists(rules@),
                rule == rules@[j as int],
                j < rules@.len(),
                forall|jj: int, ii: int|
                    0 <= jj < j && 0 <= ii < rs[jj].len() ==> f.contains(#[trigger] rs[jj][ii]),
                forall|ii: int| 0 <= ii < i ==> f.contains(#[trigger] rs[j as int][ii]),
        {
            if !contains_name(features, &rule[i]) {
                let s = rule[i].clone();
                assert(rs[j as int][i as int] == s@);
                return Some(s);
            }
        }
    }
    None
}

/// Why a crate's declarations cannot give a matrix.
#[derive(Debug)]
pub enum MatrixError {
    /// A skip rule names a feature that the crate does not declare.
    UnknownFeature { name: String },
}

/// The matrix of one crate: every subset of `features` in the order of
/// `power_set`, without those that name exactly the features of a rule of
/// `skip`. A rule that names an undeclared feature is refused.
pub fn combinations(features: &Vec<String>, skip: &Vec<Vec<String>>) -> (r: Result<
    Vec<Vec<String>>,
    MatrixError,
>)
    ensures
        r is Ok <==> all_declared(names(features@), name_lists(skip@)),
        r matches Ok(m) ==> name_lists(m@) == crate_matrix(names(features@), name_lists(skip@)),
        r matches Err(MatrixError::UnknownFeature { name }) ==> !names(features@).contains(name@)
            && exists|j: int, i: int|
            0 <= j < skip@.len() && 0 <= i < skip@[j]@.len() && #[trigger] skip@[j]@[i]@
                == name@,
{
    match undeclared_name(features, skip) {
        Some(name) => {
            return Err(MatrixError::UnknownFeature { name });
        },
        None => {},
    }
    let all = power_set_of(features);
    let ghost ps = name_lists(all@);
    let ghost rs = name_lists(skip@);
    let mut out: Vec<Vec<String>> = Vec::new();
    assert(ps.take(0) =~= Seq::<Names>::empty());
    for k in 0..all.len()
        invariant
            ps == name_lists(all@),
            rs == name_lists(skip@),
            name_lists(out@) == keep_unskipped(ps.take(k as int), rs),
    {
        assert(ps.take(k + 1).drop_last() =~= ps.take(k as int));
        if !is_skipped(&all[k], skip) {
            out.push(copy_names(&all[k]));
            assert(name_lists(out@) =~= keep_unskipped(ps.take(k as int), rs).push(ps[k as int]));
        }
    }
    assert(ps.take(all@.len() as int) =~= ps);
    Ok(out)
}

proof fn lemma_keep_all(s: Seq<Names>)
    ensures
        keep_unskipped(s, Seq::empty()) == s,
    decreases s.len(),
{
    if s.len() > 0 {
        lemma_keep_all(s.drop_last());
        assert(!skipped(s.last(), Seq::empty()));
        assert(s.drop_last().push(s.last()) =~= s);
    }
}

proof fn lemma_power_set_subsets(f: Names)
    requires
        f.no_duplicates(),
    ensures
        power_set(f).len() == pow2(f.len()),
        forall|i: int| 0 <= i < power_set(f).len() ==> (#[trigger] power_set(f)[i]).to_set()
            <= f.to_set(),
        forall|i: int, j: int|
            0 <= i < power_set(f).len() && 0 <= j < power_set(f).len() && i != j ==> !same_set(
                #[trigger] power_set(f)[i],
                #[trigger] power_set(f)[j],
            ),
    decreases f.len(),
{
    broadcast use Seq::lemma_push_to_set_commute;

    if f.len() == 0 {
        lemma2_to64();
        assert(Seq::<Name>::empty().to_set() =~= Set::<Name>::empty());
    } else {
        let g = f.drop_last();
        let x = f.last();
        let p = power_set(g);
        let ps = power_set(f);
        assert(g.no_duplicates());
        lemma_power_set_subsets(g);
        lemma_pow2_unfold(f.len());
        assert(f =~= g.push(x));
        assert(!g.contains(x)) by {
            if g.contains(x) {
                let k = choose|k: int| 0 <= k < g.len() && g[k] == x;
                assert(f[k] == f[f.len() - 1]);
            }
        }
        assert(!g.to_set().contains(x));
        assert forall|i: int| 0 <= i < ps.len() implies (#[trigger] ps[i]).to_set() <= f.to_set()
            && (ps[i].to_set().contains(x) <==> i >= p.len()) && (i >= p.len() ==> ps[i].to_set()
            == p[i - p.len()].to_set().insert(x)) by {
            if i < p.len() {
                assert(ps[i] == p[i]);
            } else {
                assert(ps[i] == p[i - p.len()].push(x));
            }
        }
        assert forall|i: int, j: int|
            0 <= i < ps.len() && 0 <= j < ps.len() && i != j implies !same_set(
            #[trigger] ps[i],
            #[trigger] ps[j],
        ) by {
            if i >= p.len() && j >= p.len() {
                let a = p[i - p.len()].to_set();
                let b = p[j - p.len()].to_set();
                if a.insert(x) == b.insert(x) {
                    assert(a =~= a.insert(x).remove(x));
                    assert(b =~= b.insert(x).remove(x));
                    assert(same_set(p[i - p.len()], p[j - p.len()]));
                }
            } else if i < p.len() && j < p.len() {
                assert(ps[i] == p[i] && ps[j] == p[j]);
            } else {
                assert(ps[i].to_set().contains(x) != ps[j].to_set().contains(x));
            }
        }
    }
}

/// A crate with no skip rules and `k` features, none named twice, has a
/// matrix of exactly `2^k` combinations, each a subset of its features and
/// no two naming the same features.
pub proof fn lemma_unskipped_matrix(f: Names)
    requires
        f.no_duplicates(),
    ensures
        crate_matrix(f, Seq::empty()) == power_set(f),
        crate_matrix(f, Seq::empty()).len() == pow2(f.len()),
        forall|i: int|
            0 <= i < crate_matrix(f, Seq::empty()).len() ==> (#[trigger] crate_matrix(
                f,
                Seq::empty(),
            )[i]).to_set() <= f.to_set(),
        forall|i: int, j: int|
            0 <= i < crate_matrix(f, Seq::empty()).len() && 0 <= j < crate_matrix(
                f,
                Seq::empty(),
            ).len() && i != j ==> !same_set(
                #[trigger] crate_matrix(f, Seq::empty())[i],
                #[trigger] crate_matrix(f, Seq::empty())[j],
            ),
{
    lemma_keep_all(power_set(f));
    lemma_power_set_subsets(f);
}

proof fn lemma_keep_unskipped_sound(s: Seq<Names>, rules: Seq<Names>)
    ensures
        forall|i: int| 0 <= i < keep_unskipped(s, rules).len() ==> !skipped(
            #[trigger] keep_unskipped(s, rules)[i],
            rules,
        ),
    decreases s.len(),
{
    if s.len() > 0 {
        lemma_keep_unskipped_sound(s.drop_last(), rules);
        let k = keep_unskipped(s.drop_last(), rules);
        assert forall|i: int| 0 <= i < keep_unskipped(s, rules).len() implies !skipped(
            #[trigger] keep_unskipped(s, rules)[i],
            rules,
        ) by {
            if i < k.len() {
                assert(keep_unskipped(s, rules)[i] == k[i]);
            }
        }
    }
}

/// No combination of a crate's matrix names exactly the features of one of
/// its skip rules.
pub proof fn lemma_skip_rules_hold(f: Names, rules: Seq<Names>)
    ensures
        forall|i: int, j: int|
            0 <= i < crate_matrix(f, rules).len() && 0 <= j < rules.len() ==> !same_set(
                #[trigger] crate_matrix(f, rules)[i],
                #[trigger] rules[j],
            ),
{
    lemma_keep_unskipped_sound(power_set(f), rules);
    assert forall|i: int, j: int|
        0 <= i < crate_matrix(f, rules).len() && 0 <= j < rules.len() implies !same_set(
        #[trigger] crate_matrix(f, rules)[i],
        #[trigger] rules[j],
    ) by {
        assert(!skipped(crate_matrix(f, rules)[i], rules));
    }
}

/// The declarations of one crate of a workspace.
pub struct CrateFeatures {
    /// The package name.
    pub name: String,
    /// The optional features, in declaration order.
    pub features: Vec<String>,
    /// The features that are on by default.
    pub defaults: Vec<String>,
    /// Sets of features that are never tested together as exactly that set.
    pub skip: Vec<Vec<String>>,
}

/// One entry of a workspace matrix: a combination of crate number `krate`.
pub struct Job {
    pub krate: usize,
    pub features: Vec<String>,
}

/// A job as the crate number and the names of its combination.
pub open spec fn job_view(j: Job) -> (int, Names) {
    (j.krate as int, names(j.features@))
}

pub open spec fn job_views(js: Seq<Job>) -> Seq<(int, Names)> {
    js.map_values(|j: Job| job_view(j))
}

/// The declarations of a crate are well formed: every skip rule names
/// declared features only.
pub open spec fn crate_declared(c: CrateFeatures) -> bool {
    all_declared(names(c.features@), name_lists(c.skip@))
}

/// The matrix of crate number `k`, as jobs.
pub open spec fn crate_jobs(k: int, c: CrateFeatures) -> Seq<(int, Names)> {
    crate_matrix(names(c.features@), name_lists(c.skip@)).map_values(|m: Names| (k, m))
}

/// The matrix of a workspace: the matrix of each crate, in crate order.
pub open spec fn workspace_matrix(cs: Seq<CrateFeatures>) -> Seq<(int, Names)>
    decreases cs.len(),
{
    if cs.len() == 0 {
        Seq::empty()
    } else {
        workspace_matrix(cs.drop_last()) + crate_jobs(cs.len() - 1, cs.last())
    }
}

/// A crate of a workspace whose declarations cannot give a matrix.
#[derive(Debug)]
pub struct WorkspaceError {
    /// The number of the crate.
    pub krate: usize,
    pub error: MatrixError,
}

/// The matrix of a workspace: for each crate in turn, the jobs of its
/// `combinations`. The first crate whose skip rules name an undeclared
/// feature is reported instead.
pub fn workspace_jobs(crates: &Vec<CrateFeatures>) -> (r: Result<Vec<Job>, WorkspaceError>)
    ensures
        r is Ok <==> forall|k: int| 0 <= k < crates@.len() ==> crate_declared(#[trigger] crates@[k]),
        r matches Ok(js) ==> job_views(js@) == workspace_matrix(crates@),
        r matches Err(e) ==> e.krate < crates@.len() && !crate_declared(crates@[e.krate as int])
            && forall|k: int| 0 <= k < e.krate ==> crate_declared(#[trigger] crates@[k]),
{
    let mut jobs: Vec<Job> = Vec::new();
    assert(crates@.take(0) =~= Seq::<CrateFeatures>::empty());
    for k in 0..crates.len()
        invariant
            forall|kk: int| 0 <= kk < k ==> crate_declared(#[trigger] crates@[kk]),
            job_views(jobs@) == workspace_matrix(crates@.take(k as int)),
    {
        let c = &crates[k];
        let m = match combinations(&c.features, &c.skip) {
            Ok(m) => m,
            Err(error) => {
                return Err(WorkspaceError { krate: k, error });
            },
        };
        let ghost base = job_views(jobs@);
        let ghost mv = name_lists(m@);
        for i in 0..m.len()
            invariant
                mv == name_lists(m@),
                job_views(jobs@) == base + mv.take(i as int).map_values(|x: Names| (k as int, x)),
        {
            let ghost before = jobs@;
            let features = copy_names(&m[i]);
            assert(names(features@) == mv[i as int]);
            jobs.push(Job { krate: k, features });
            assert(job_views(jobs@) =~= job_views(before).push((k as int, mv[i as int])));
            assert(job_views(jobs@) =~= base + mv.take(i + 1).map_values(
                |x: Names| (k as int, x),
            ));
        }
        assert(mv.take(m@.len() as int) =~= mv);
        assert(crates@.take(k + 1).drop_last() =~= crates@.take(k as int));
    }
    assert(crates@.take(crates@.len() as int) =~= crates@);
    Ok(jobs)
}

} // verus!
