//! The projects to check and the packages to look for.

use vstd::prelude::*;
use vstd::string::StringExecFns;

use crate::tree::{tree_versions, CargoChecker};
use crate::version::{
    all_parse, first_unparsable, is_req_error, is_version_error, semver_req_matches,
    semver_req_parses, Requirement, VersionError,
};

verus! {

/// The language of a project, which decides how its dependencies are read.
#[derive(Clone, Copy, Debug, PartialEq, Eq)]
pub enum Language {
    JS,
    Rust,
}

/// A package known to be vulnerable, with the requirements (such as
/// `^1.0.4`) that describe its vulnerable versions.
#[derive(Clone, Debug)]
pub struct Package {
    pub name: String,
    pub versions: Vec<String>,
}

/// The vulnerable packages.
#[derive(Debug)]
pub struct PackageList {
    pub packages: Vec<Package>,
}

/// A project to check, and the packages to look for in it.
#[derive(Clone, Debug)]
pub struct Repo {
    pub folder_path: String,
    pub language: Language,
    pub packages: Vec<Package>,
}

/// The projects to check.
#[derive(Debug)]
pub struct RepoList {
    pub repos: Vec<Repo>,
}

/// The `(package, requirement)` pairs of `packages`, package by package and,
/// within a package, in the order of its requirements.
pub open spec fn queries_of(packages: Seq<Package>) -> Seq<(Seq<char>, Seq<char>)>
    decreases packages.len(),
{
    if packages.len() == 0 {
        Seq::empty()
    } else {
        let last = packages.last();
        queries_of(packages.drop_last()) + last.versions@.map_values(
            |v: String| (last.name@, v@),
        )
    }
}

/// How a vulnerable package found in a project is reported: `package@requirement`.
pub open spec fn finding(query: (Seq<char>, Seq<char>)) -> Seq<char> {
    query.0 + seq!['@'] + query.1
}

/// The findings for the first `n` queries, given whether each matched.
pub open spec fn report(queries: Seq<(Seq<char>, Seq<char>)>, verdicts: Seq<bool>, n: int) -> Seq<
    Seq<char>,
>
    decreases n,
{
    if n <= 0 {
        Seq::empty()
    } else {
        let before = report(queries, verdicts, n - 1);
        if verdicts[n - 1] {
            before.push(finding(queries[n - 1]))
        } else {
            before
        }
    }
}

impl Repo {
    /// The `(package, requirement)` pairs to check in this project, in order.
    pub fn queries(&self) -> (qs: Vec<(String, String)>)
        ensures
            qs@.len() == queries_of(self.packages@).len(),
            forall|i: int|
                0 <= i < qs@.len() ==> (#[trigger] qs@[i]).0@ == queries_of(self.packages@)[i].0
                    && qs@[i].1@ == queries_of(self.packages@)[i].1,
    {
        let mut qs: Vec<(String, String)> = Vec::new();
        let mut i: usize = 0;
        while i < self.packages.len()
            invariant
                i <= self.packages@.len(),
                qs@.len() == queries_of(self.packages@.take(i as int)).len(),
                forall|k: int|
                    0 <= k < qs@.len() ==> (#[trigger] qs@[k]).0@ == queries_of(
                        self.packages@.take(i as int),
                    )[k].0 && qs@[k].1@ == queries_of(self.packages@.take(i as int))[k].1,
            decreases self.packages@.len() - i,
        {
            let package = &self.packages[i];
            let ghost done = queries_of(self.packages@.take(i as int));
            let ghost adding = package.versions@.map_values(|v: String| (package.name@, v@));
            assert(self.packages@.take(i + 1).drop_last() =~= self.packages@.take(i as int));
            assert(queries_of(self.packages@.take(i + 1)) == done + adding);
            let mut j: usize = 0;
            while j < package.versions.len()
                invariant
                    j <= package.versions@.len(),
                    adding == package.versions@.map_values(|v: String| (package.name@, v@)),
                    qs@.len() == done.len() + j,
                    forall|k: int|
                        0 <= k < qs@.len() ==> (#[trigger] qs@[k]).0@ == (done + adding)[k].0
                            && qs@[k].1@ == (done + adding)[k].1,
                decreases package.versions@.len() - j,
            {
                qs.push((package.name.clone(), package.versions[j].clone()));
                j = j + 1;
            }
            i = i + 1;
        }
        assert(self.packages@.take(self.packages@.len() as int) =~= self.packages@);
        qs
    }

    /// The findings of this project: `package@requirement` for each query
    /// that matched, in the order of the queries. `verdicts` says, query by
    /// query (see `queries`), whether the project holds a version of the
    /// package that the requirement matches (as `JsChecker::check` or
    /// `CargoChecker::check` answers).
    pub fn check(&self, verdicts: &Vec<bool>) -> (found: Vec<String>)
        requires
            verdicts@.len() == queries_of(self.packages@).len(),
        ensures
            found@.len() == report(
                queries_of(self.packages@),
                verdicts@,
                verdicts@.len() as int,
            ).len(),
            forall|i: int|
                0 <= i < found@.len() ==> (#[trigger] found@[i])@ == report(
                    queries_of(self.packages@),
                    verdicts@,
                    verdicts@.len() as int,
                )[i],
    {
        let qs = self.queries();
        let ghost q = queries_of(self.packages@);
        let mut found: Vec<String> = Vec::new();
        let mut i: usize = 0;
        while i < qs.len()
            invariant
                qs@.len() == q.len(),
                verdicts@.len() == q.len(),
                forall|k: int|
                    0 <= k < qs@.len() ==> (#[trigger] qs@[k]).0@ == q[k].0 && qs@[k].1@ == q[k].1,
                i <= qs@.len(),
                found@.len() == report(q, verdicts@, i as int).len(),
                forall|k: int|
                    0 <= k < found@.len() ==> (#[trigger] found@[k])@ == report(
                        q,
                        verdicts@,
                        i as int,
                    )[k],
            decreases qs@.len() - i,
        {
            if verdicts[i] {
                let mut text = qs[i].0.clone();
                text.append("@");
                text.append(qs[i].1.as_str());
                proof {
                    reveal_strlit("@");
                    assert(text@ =~= finding(q[i as int]));
                }
                found.push(text);
            }
            i = i + 1;
        }
        found
    }
}

} // verus!

verus! {

/// Whether a Rust project whose `cargo tree` output is `tree` holds a version
/// of `query.0` that the requirement `query.1` matches.
pub open spec fn tree_matches(tree: Seq<char>, query: (Seq<char>, Seq<char>)) -> bool {
    exists|i: int|
        0 <= i < tree_versions(tree, query.0).len() && semver_req_matches(
            query.1,
            #[trigger] tree_versions(tree, query.0)[i],
        )
}

/// Whether `query` can be answered from `tree`: its requirement is SemVer, and
/// so is every version that `tree` gives for its package.
pub open spec fn tree_answers(tree: Seq<char>, query: (Seq<char>, Seq<char>)) -> bool {
    semver_req_parses(query.1) && all_parse(tree_versions(tree, query.0))
}

/// `e` is the error for a query that `tree` cannot answer: that of its
/// requirement where it is not SemVer, else that of the first version of its
/// package that is not.
pub open spec fn tree_error(tree: Seq<char>, query: (Seq<char>, Seq<char>), e: VersionError) -> bool {
    if !semver_req_parses(query.1) {
        is_req_error(e, query.1)
    } else {
        exists|m: int|
            first_unparsable(tree_versions(tree, query.0), m) && is_version_error(
                e,
                tree_versions(tree, query.0)[m],
            )
    }
}

impl Repo {
    /// The findings of a Rust project whose `cargo tree` output `checker`
    /// holds: `package@requirement` for each query (see `queries`) whose
    /// requirement matches a version of the package that the output lists,
    /// in the order of the queries. An error for the first query that cannot
    /// be answered.
    pub fn check_tree(&self, checker: &CargoChecker) -> (res: Result<Vec<String>, VersionError>)
        ensures
            ({
                let qs = queries_of(self.packages@);
                let verdicts = Seq::new(qs.len(), |k: int| tree_matches(checker.tree@, qs[k]));
                &&& res is Ok <==> forall|k: int|
                    0 <= k < qs.len() ==> tree_answers(checker.tree@, #[trigger] qs[k])
                &&& res matches Ok(found) ==> {
                    &&& found@.len() == report(qs, verdicts, qs.len() as int).len()
                    &&& forall|i: int|
                        0 <= i < found@.len() ==> (#[trigger] found@[i])@ == report(
                            qs,
                            verdicts,
                            qs.len() as int,
                        )[i]
                }
                &&& res matches Err(e) ==> exists|k: int|
                    0 <= k < qs.len() && !tree_answers(checker.tree@, qs[k]) && (forall|j: int|
                        0 <= j < k ==> tree_answers(checker.tree@, #[trigger] qs[j])) && tree_error(
                        checker.tree@,
                        qs[k],
                        e,
                    )
            }),
    {
        let queries = self.queries();
        let ghost qs = queries_of(self.packages@);
        let ghost tree = checker.tree@;
        let mut verdicts: Vec<bool> = Vec::new();
        let mut i: usize = 0;
        while i < queries.len()
            invariant
                qs == queries_of(self.packages@),
                tree == checker.tree@,
                queries@.len() == qs.len(),
                forall|k: int|
                    0 <= k < qs.len() ==> (#[trigger] queries@[k]).0@ == qs[k].0 && queries@[k].1@
                        == qs[k].1,
                i <= qs.len(),
                verdicts@.len() == i,
                forall|k: int| 0 <= k < i ==> #[trigger] verdicts@[k] == tree_matches(tree, qs[k]),
                forall|k: int| 0 <= k < i ==> tree_answers(tree, #[trigger] qs[k]),
            decreases qs.len() - i,
        {
            let requirement = match Requirement::parse(queries[i].1.as_str()) {
                Ok(r) => r,
                Err(e) => {
                    assert(!tree_answers(tree, qs[i as int]));
                    assert(tree_error(tree, qs[i as int], e));
                    return Err(e);
                },
            };
            match checker.check(queries[i].0.as_str(), &requirement) {
                Ok(b) => {
                    verdicts.push(b);
                },
                Err(e) => {
                    assert(!tree_answers(tree, qs[i as int]));
                    assert(tree_error(tree, qs[i as int], e));
                    return Err(e);
                },
            }
            i = i + 1;
        }
        let ghost expected = Seq::new(qs.len(), |k: int| tree_matches(tree, qs[k]));
        assert(verdicts@ =~= expected);
        Ok(self.check(&verdicts))
    }
}

} // verus!

verus! {

/// A project is reported as holding no vulnerable package exactly when none
/// of its queries matched.
pub proof fn law_report_empty(queries: Seq<(Seq<char>, Seq<char>)>, verdicts: Seq<bool>, n: int)
    requires
        0 <= n <= verdicts.len(),
    ensures
        report(queries, verdicts, n).len() == 0 <==> forall|k: int| 0 <= k < n ==> !verdicts[k],
    decreases n,
{
    if n > 0 {
        law_report_empty(queries, verdicts, n - 1);
    }
}

/// Whether `text` is the finding of one of the first `n` queries that matched.
pub open spec fn finding_of_match(
    queries: Seq<(Seq<char>, Seq<char>)>,
    verdicts: Seq<bool>,
    n: int,
    text: Seq<char>,
) -> bool {
    exists|k: int| 0 <= k < n && verdicts[k] && text == #[trigger] finding(queries[k])
}

/// Each finding is `package@requirement` of a query that matched, and there
/// are never more findings than queries.
pub proof fn law_report_findings(queries: Seq<(Seq<char>, Seq<char>)>, verdicts: Seq<bool>, n: int)
    requires
        0 <= n <= verdicts.len(),
    ensures
        report(queries, verdicts, n).len() <= n,
        forall|i: int|
            0 <= i < report(queries, verdicts, n).len() ==> finding_of_match(
                queries,
                verdicts,
                n,
                #[trigger] report(queries, verdicts, n)[i],
            ),
    decreases n,
{
    if n > 0 {
        law_report_findings(queries, verdicts, n - 1);
        assert forall|i: int| 0 <= i < report(queries, verdicts, n).len() implies finding_of_match(
            queries,
            verdicts,
            n,
            #[trigger] report(queries, verdicts, n)[i],
        ) by {
            if i < report(queries, verdicts, n - 1).len() {
                assert(report(queries, verdicts, n)[i] == report(queries, verdicts, n - 1)[i]);
                assert(finding_of_match(queries, verdicts, n - 1, report(queries, verdicts, n - 1)[i]));
                let k = choose|k: int|
                    0 <= k < n - 1 && verdicts[k] && report(queries, verdicts, n - 1)[i]
                        == #[trigger] finding(queries[k]);
                assert(0 <= k < n && verdicts[k] && report(queries, verdicts, n)[i] == finding(
                    queries[k],
                ));
            } else {
                assert(verdicts[n - 1]);
                assert(report(queries, verdicts, n)[i] == finding(queries[n - 1]));
            }
        }
    }
}

/// Every query that matched is reported: the findings hold
/// `package@requirement` of each of them.
pub proof fn law_report_complete(queries: Seq<(Seq<char>, Seq<char>)>, verdicts: Seq<bool>, n: int)
    requires
        0 <= n <= verdicts.len(),
    ensures
        forall|k: int|
            0 <= k < n && verdicts[k] ==> report(queries, verdicts, n).contains(
                #[trigger] finding(queries[k]),
            ),
    decreases n,
{
    if n > 0 {
        law_report_complete(queries, verdicts, n - 1);
        let before = report(queries, verdicts, n - 1);
        let after = report(queries, verdicts, n);
        assert forall|k: int| 0 <= k < n && verdicts[k] implies after.contains(
            #[trigger] finding(queries[k]),
        ) by {
            if k < n - 1 {
                let i = choose|i: int| 0 <= i < before.len() && before[i] == finding(queries[k]);
                if verdicts[n - 1] {
                    assert(after[i] == before[i]);
                }
            } else {
                assert(after[before.len() as int] == finding(queries[k]));
            }
        }
    }
}

/// The findings of a Rust project (see `Repo::check_tree`) hold
/// `package@requirement` of a query as soon as any version that the
/// `cargo tree` output lists for the package, at any position, matches the
/// requirement.
pub proof fn law_tree_report_any_version(
    tree: Seq<char>,
    queries: Seq<(Seq<char>, Seq<char>)>,
    k: int,
    i: int,
)
    requires
        0 <= k < queries.len(),
        0 <= i < tree_versions(tree, queries[k].0).len(),
        semver_req_matches(queries[k].1, tree_versions(tree, queries[k].0)[i]),
    ensures
        report(
            queries,
            Seq::new(queries.len(), |j: int| tree_matches(tree, queries[j])),
            queries.len() as int,
        ).contains(finding(queries[k])),
{
    let verdicts = Seq::new(queries.len(), |j: int| tree_matches(tree, queries[j]));
    assert(verdicts[k]);
    law_report_complete(queries, verdicts, queries.len() as int);
}

/// Every finding of a Rust project is `package@requirement` of a query for
/// which the `cargo tree` output lists a version of the package that the
/// requirement matches.
pub proof fn law_tree_report_sound(
    tree: Seq<char>,
    queries: Seq<(Seq<char>, Seq<char>)>,
    text: Seq<char>,
)
    requires
        report(
            queries,
            Seq::new(queries.len(), |j: int| tree_matches(tree, queries[j])),
            queries.len() as int,
        ).contains(text),
    ensures
        exists|k: int, i: int|
            #![trigger finding(queries[k]), tree_versions(tree, queries[k].0)[i]]
            0 <= k < queries.len() && 0 <= i < tree_versions(tree, queries[k].0).len()
                && semver_req_matches(queries[k].1, tree_versions(tree, queries[k].0)[i]) && text
                == finding(queries[k]),
{
    let verdicts = Seq::new(queries.len(), |j: int| tree_matches(tree, queries[j]));
    let r = report(queries, verdicts, queries.len() as int);
    law_report_findings(queries, verdicts, queries.len() as int);
    let n = choose|n: int| 0 <= n < r.len() && r[n] == text;
    assert(finding_of_match(queries, verdicts, queries.len() as int, r[n]));
    let k = choose|k: int|
        0 <= k < queries.len() && verdicts[k] && r[n] == #[trigger] finding(queries[k]);
    assert(tree_matches(tree, queries[k]));
    let i = choose|i: int|
        0 <= i < tree_versions(tree, queries[k].0).len() && semver_req_matches(
            queries[k].1,
            #[trigger] tree_versions(tree, queries[k].0)[i],
        );
    assert(text == finding(queries[k]));
}

/// The queries of one package are its name with each of its requirements, in
/// the order of the requirements.
pub proof fn law_queries_one_package(package: Package)
    ensures
        queries_of(seq![package]).len() == package.versions@.len(),
        forall|j: int|
            0 <= j < package.versions@.len() ==> #[trigger] queries_of(seq![package])[j] == (
                package.name@,
                package.versions@[j]@,
            ),
{
    assert(seq![package].drop_last() =~= Seq::<Package>::empty());
    assert(queries_of(Seq::<Package>::empty()) == Seq::<(Seq<char>, Seq<char>)>::empty());
}

/// The queries of two lists of packages, one after the other, are those of
/// the first list followed by those of the second.
pub proof fn law_queries_concat(first: Seq<Package>, second: Seq<Package>)
    ensures
        queries_of(first + second) == queries_of(first) + queries_of(second),
    decreases second.len(),
{
    if second.len() == 0 {
        assert(first + second =~= first);
        assert(queries_of(second) == Seq::<(Seq<char>, Seq<char>)>::empty());
        assert(queries_of(first) + queries_of(second) =~= queries_of(first));
    } else {
        assert((first + second).drop_last() =~= first + second.drop_last());
        assert((first + second).last() == second.last());
        law_queries_concat(first, second.drop_last());
        assert(queries_of(first + second) =~= queries_of(first) + queries_of(second));
    }
}

} // verus!
