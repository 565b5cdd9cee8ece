//! Choosing the package whose rustdoc JSON reconciles against a workspace's
//! facts: the requested package when it exists, else the workspace package
//! most depended on by the substantive crates, else one named like the
//! repository, else the first library package.

use vstd::prelude::*;
use crate::histogram::{count_names, counters_view, name_counts};
use crate::lexical::{underscored, underscored_exec};
use crate::resolution::{strings_contain, strings_view};
use crate::text::{push_str, str_eq};

verus! {

/// The dependency votes recorded in a fingerprint: each crate with its
/// dependencies, in the fingerprint's order, and the scaffolding crates
/// whose votes do not count.
#[derive(Debug, Clone)]
pub struct PackageVotes {
    pub voters: Vec<(String, Vec<String>)>,
    pub scaffolding: Vec<String>,
}

/// The dependencies voted for, in order: every dependency of every
/// non-scaffolding voter.
pub open spec fn votes_cast(voters: Seq<(String, Vec<String>)>, scaffolding: Seq<Seq<char>>) -> Seq<Seq<char>>
    decreases voters.len(),
{
    if voters.len() == 0 {
        Seq::empty()
    } else {
        let prev = votes_cast(voters.drop_last(), scaffolding);
        if scaffolding.contains(voters.last().0@) {
            prev
        } else {
            prev + strings_view(voters.last().1@)
        }
    }
}

/// The counters of `cs` whose key is one of `names`, in order.
pub open spec fn counts_within(cs: Seq<(Seq<char>, nat)>, names: Seq<Seq<char>>) -> Seq<(Seq<char>, nat)>
    decreases cs.len(),
{
    if cs.len() == 0 {
        Seq::empty()
    } else {
        let prev = counts_within(cs.drop_last(), names);
        if names.contains(cs.last().0) {
            prev.push(cs.last())
        } else {
            prev
        }
    }
}

/// The first counter with the highest count.
pub open spec fn first_max(cs: Seq<(Seq<char>, nat)>) -> Option<(Seq<char>, nat)>
    decreases cs.len(),
{
    if cs.len() == 0 {
        None
    } else {
        match first_max(cs.drop_last()) {
            None => Some(cs.last()),
            Some(b) => if cs.last().1 > b.1 {
                Some(cs.last())
            } else {
                Some(b)
            },
        }
    }
}

/// The names of the packages.
pub open spec fn package_names(ps: Seq<(String, bool)>) -> Seq<Seq<char>> {
    ps.map_values(|p: (String, bool)| p.0@)
}

/// The first package named `lib<repo>` or equal to `repo` up to hyphens.
pub open spec fn repo_like(ps: Seq<(String, bool)>, repo: Seq<char>) -> Option<Seq<char>>
    decreases ps.len(),
{
    if ps.len() == 0 {
        None
    } else {
        match repo_like(ps.drop_last(), repo) {
            Some(p) => Some(p),
            None => if ps.last().0@ == "lib"@ + repo || underscored(ps.last().0@) == underscored(repo) {
                Some(ps.last().0@)
            } else {
                None
            },
        }
    }
}

/// The first package with a library target.
pub open spec fn first_lib(ps: Seq<(String, bool)>) -> Option<Seq<char>>
    decreases ps.len(),
{
    if ps.len() == 0 {
        None
    } else {
        match first_lib(ps.drop_last()) {
            Some(p) => Some(p),
            None => if ps.last().1 {
                Some(ps.last().0@)
            } else {
                None
            },
        }
    }
}

/// The package chosen for the rustdoc overlay.
pub open spec fn pick_package_view(
    ps: Seq<(String, bool)>,
    requested: Option<Seq<char>>,
    votes: Option<PackageVotes>,
    repo: Seq<char>,
) -> Option<Seq<char>> {
    let names = package_names(ps);
    if ps.len() == 0 {
        requested
    } else if requested is Some && names.contains(requested->Some_0) {
        requested
    } else {
        let voted = match votes {
            Some(v) => first_max(
                counts_within(name_counts(votes_cast(v.voters@, strings_view(v.scaffolding@))), names),
            ),
            None => None,
        };
        match voted {
            Some(b) => Some(b.0),
            None => if names.contains(repo) {
                Some(repo)
            } else {
                match repo_like(ps, repo) {
                    Some(p) => Some(p),
                    None => match first_lib(ps) {
                        Some(p) => Some(p),
                        None => requested,
                    },
                }
            },
        }
    }
}

fn package_listed(ps: &Vec<(String, bool)>, name: &str) -> (r: bool)
    ensures
        r == package_names(ps@).contains(name@),
{
    let mut i: usize = 0;
    while i < ps.len()
        invariant
            i <= ps@.len(),
            forall|k: int| 0 <= k < i ==> package_names(ps@)[k] != name@,
        decreases ps@.len() - i,
    {
        if str_eq(ps[i].0.as_str(), name) {
            assert(package_names(ps@)[i as int] == name@);
            return true;
        }
        i = i + 1;
    }
    false
}

fn cast_votes(v: &PackageVotes) -> (r: Vec<String>)
    ensures
        strings_view(r@) == votes_cast(v.voters@, strings_view(v.scaffolding@)),
{
    let mut out: Vec<String> = Vec::new();
    let mut i: usize = 0;
    assert(strings_view(out@) =~= votes_cast(v.voters@.take(0), strings_view(v.scaffolding@)));
    while i < v.voters.len()
        invariant
            i <= v.voters@.len(),
            strings_view(out@) == votes_cast(v.voters@.take(i as int), strings_view(v.scaffolding@)),
        decreases v.voters@.len() - i,
    {
        assert(v.voters@.take(i + 1).drop_last() =~= v.voters@.take(i as int));
        assert(v.voters@.take(i + 1).last() == v.voters@[i as int]);
        if !strings_contain(&v.scaffolding, v.voters[i].0.as_str()) {
            let deps = &v.voters[i].1;
            let mut j: usize = 0;
            let ghost base = strings_view(out@);
            while j < deps.len()
                invariant
                    j <= deps@.len(),
                    strings_view(out@) == base + strings_view(deps@).take(j as int),
                decreases deps@.len() - j,
            {
                let ghost o0 = strings_view(out@);
                out.push(deps[j].clone());
                assert(strings_view(out@) =~= o0.push(strings_view(deps@)[j as int]));
                assert(strings_view(out@) =~= base + strings_view(deps@).take(j + 1));
                j = j + 1;
            }
            assert(strings_view(deps@).take(j as int) =~= strings_view(deps@));
        }
        i = i + 1;
    }
    assert(v.voters@.take(i as int) =~= v.voters@);
    out
}

fn most_voted(cs: &Vec<(String, usize)>, ps: &Vec<(String, bool)>) -> (r: Option<String>)
    ensures
        (match r {
            Some(s) => Some(s@),
            None => None,
        }) == (match first_max(counts_within(counters_view(cs@), package_names(ps@))) {
            Some(b) => Some(b.0),
            None => None,
        }),
{
    let ghost cv = counters_view(cs@);
    let ghost names = package_names(ps@);
    let mut best: Option<(String, usize)> = None;
    let mut i: usize = 0;
    assert(counts_within(cv.take(0), names) =~= Seq::<(Seq<char>, nat)>::empty());
    while i < cs.len()
        invariant
            i <= cs@.len(),
            cv == counters_view(cs@),
            names == package_names(ps@),
            (match best {
                Some(b) => Some((b.0@, b.1 as nat)),
                None => None,
            }) == first_max(counts_within(cv.take(i as int), names)),
        decreases cs@.len() - i,
    {
        assert(cv.take(i + 1).drop_last() =~= cv.take(i as int));
        assert(cv.take(i + 1).last() == cv[i as int]);
        let ghost prev = counts_within(cv.take(i as int), names);
        if package_listed(ps, cs[i].0.as_str()) {
            assert(prev.push(cv[i as int]).drop_last() =~= prev);
            let replace = match &best {
                None => true,
                Some(b) => cs[i].1 > b.1,
            };
            if replace {
                best = Some((cs[i].0.clone(), cs[i].1));
            }
        }
        i = i + 1;
    }
    assert(cv.take(i as int) =~= cv);
    match best {
        Some(b) => Some(b.0),
        None => None,
    }
}

fn repo_like_exec(ps: &Vec<(String, bool)>, repo: &str) -> (r: Option<String>)
    ensures
        (match r {
            Some(s) => Some(s@),
            None => None,
        }) == repo_like(ps@, repo@),
{
    let mut lib_repo = String::new();
    push_str(&mut lib_repo, "lib");
    push_str(&mut lib_repo, repo);
    let norm = underscored_exec(repo);
    let mut i: usize = 0;
    while i < ps.len()
        invariant
            i <= ps@.len(),
            lib_repo@ == "lib"@ + repo@,
            norm@ == underscored(repo@),
            repo_like(ps@.take(i as int), repo@) is None,
        decreases ps@.len() - i,
    {
        assert(ps@.take(i + 1).drop_last() =~= ps@.take(i as int));
        assert(ps@.take(i + 1).last() == ps@[i as int]);
        let pn = underscored_exec(ps[i].0.as_str());
        if str_eq(ps[i].0.as_str(), lib_repo.as_str()) || str_eq(pn.as_str(), norm.as_str()) {
            proof {
                lemma_repo_like_prefix(ps@, i + 1, repo@);
            }
            return Some(ps[i].0.clone());
        }
        i = i + 1;
    }
    assert(ps@.take(i as int) =~= ps@);
    None
}

proof fn lemma_repo_like_prefix(ps: Seq<(String, bool)>, n: int, repo: Seq<char>)
    requires
        0 <= n <= ps.len(),
        repo_like(ps.take(n), repo) is Some,
    ensures
        repo_like(ps, repo) == repo_like(ps.take(n), repo),
    decreases ps.len(),
{
    if n == ps.len() {
        assert(ps.take(n) =~= ps);
    } else {
        assert(ps.drop_last().take(n) =~= ps.take(n));
        lemma_repo_like_prefix(ps.drop_last(), n, repo);
    }
}

fn first_lib_exec(ps: &Vec<(String, bool)>) -> (r: Option<String>)
    ensures
        (match r {
            Some(s) => Some(s@),
            None => None,
        }) == first_lib(ps@),
{
    let mut i: usize = 0;
    while i < ps.len()
        invariant
            i <= ps@.len(),
            first_lib(ps@.take(i as int)) is None,
        decreases ps@.len() - i,
    {
        assert(ps@.take(i + 1).drop_last() =~= ps@.take(i as int));
        assert(ps@.take(i + 1).last() == ps@[i as int]);
        if ps[i].1 {
            proof {
                lemma_first_lib_prefix(ps@, i + 1);
            }
            return Some(ps[i].0.clone());
        }
        i = i + 1;
    }
    assert(ps@.take(i as int) =~= ps@);
    None
}

proof fn lemma_first_lib_prefix(ps: Seq<(String, bool)>, n: int)
    requires
        0 <= n <= ps.len(),
        first_lib(ps.take(n)) is Some,
    ensures
        first_lib(ps) == first_lib(ps.take(n)),
    decreases ps.len(),
{
    if n == ps.len() {
        assert(ps.take(n) =~= ps);
    } else {
        assert(ps.drop_last().take(n) =~= ps.take(n));
        lemma_first_lib_prefix(ps.drop_last(), n);
    }
}

/// Chooses the package to document: with no packages, the requested one;
/// the requested one when it is a package; else the package the
/// substantive crates depend on most (the first one on ties); else the
/// package named like the repository, `lib<repo>` or the repository up to
/// hyphens; else the first package with a library target; else the
/// requested one.
pub fn resolve_package(
    packages: &Vec<(String, bool)>,
    requested: Option<&str>,
    votes: Option<&PackageVotes>,
    repo_name: &str,
) -> (r: Option<String>)
    requires
        votes matches Some(v) ==> votes_cast(v.voters@, strings_view(v.scaffolding@)).len() <= usize::MAX,
    ensures
        (match r {
            Some(s) => Some(s@),
            None => None,
        }) == pick_package_view(
            packages@,
            match requested {
                Some(q) => Some(q@),
                None => None,
            },
            match votes {
                Some(v) => Some(*v),
                None => None,
            },
            repo_name@,
        ),
{
    proof {
        reveal_strlit("lib");
    }
    let req: Option<String> = match requested {
        Some(q) => Some(q.to_owned()),
        None => None,
    };
    if packages.len() == 0 {
        return req;
    }
    if let Some(q) = requested {
        if package_listed(packages, q) {
            return req;
        }
    }
    let voted = match votes {
        Some(v) => {
            let cast = cast_votes(v);
            let counts = count_names(&cast);
            most_voted(&counts, packages)
        },
        None => None,
    };
    if voted.is_some() {
        return voted;
    }
    if package_listed(packages, repo_name) {
        return Some(repo_name.to_owned());
    }
    match repo_like_exec(packages, repo_name) {
        Some(p) => Some(p),
        None => match first_lib_exec(packages) {
            Some(p) => Some(p),
            None => req,
        },
    }
}

} // verus!
