//! The `host` command: the CI artifacts matrix for hosting the workspace's
//! packages in a GitHub repository.

use crate::pkgspec::{version_text, PackageVersion};
use crate::text::{char_views, chars_eq, chars_of, is_space, lemma_words_clean, split_whitespace_chars, string_of, string_views, words};
use vstd::prelude::*;

verus! {

/// Arguments of `host`.
pub struct HostArgs {
    /// Space-separated names of the packages to host (all when absent or `all`).
    pub packages: Option<String>,
    /// The fork of typst/packages.
    pub source: Option<String>,
    /// Where the packages go in the source repository.
    pub destination: Option<String>,
}

/// A package found in the workspace: its directory and manifest entries.
pub struct HostedPackage {
    pub dir: String,
    pub name: String,
    pub version: PackageVersion,
}

/// The top of the printed JSON document.
pub struct Output {
    pub ci: Ci,
}

/// The `ci` section.
pub struct Ci {
    pub github: CiGitHub,
}

/// The `github` section.
pub struct CiGitHub {
    pub artifacts_matrix: Option<Vec<ArtifactsMatrix>>,
}

/// One job of the matrix.
pub struct ArtifactsMatrix {
    pub runner: String,
    pub container: Option<Container>,
    pub package: Package,
}

/// A container image for a job.
pub struct Container {
    pub image: String,
}

/// The package a job hosts.
pub struct Package {
    pub source: String,
    pub name: String,
    pub version: String,
}

/// The package names to host; empty means every package (no argument, or
/// exactly the word `all`).
pub open spec fn host_filter(packages: Option<Seq<char>>) -> Seq<Seq<char>> {
    let ws = words(
        match packages {
            Some(p) => p,
            None => "all"@,
        },
    );
    if ws == seq!["all"@] {
        seq![]
    } else {
        ws
    }
}

/// The package named `name` is hosted under the filter.
pub open spec fn host_selects(filter: Seq<Seq<char>>, name: Seq<char>) -> bool {
    filter.len() == 0 || filter.contains(name)
}

/// With no names every package is hosted; otherwise exactly the packages
/// whose name equals one of the names (not a part of one).
pub proof fn lemma_host_selects_exact(filter: Seq<Seq<char>>, name: Seq<char>)
    ensures
        filter.len() == 0 ==> host_selects(filter, name),
        filter.len() > 0 ==> (host_selects(filter, name) <==> exists|k: int|
            0 <= k < filter.len() && filter[k] == name),
{
    if filter.len() > 0 && host_selects(filter, name) {
        assert(filter.contains(name));
        let k = choose|k: int| 0 <= k < filter.len() && filter[k] == name;
        assert(0 <= k < filter.len() && filter[k] == name);
    }
    if filter.len() > 0 && exists|k: int| 0 <= k < filter.len() && filter[k] == name {
        let k = choose|k: int| 0 <= k < filter.len() && filter[k] == name;
        assert(filter.contains(name));
    }
}

/// The job for a package: runner `ubuntu-24.04`, no container.
pub open spec fn job_of(p: HostedPackage, job: ArtifactsMatrix) -> bool {
    &&& job.runner@ == "ubuntu-24.04"@
    &&& job.container is None
    &&& job.package.source@ == p.dir@
    &&& job.package.name@ == p.name@
    &&& job.package.version@ == version_text(p.version.triple())
}

/// The packages that are hosted, in workspace order.
pub open spec fn hosted(filter: Seq<Seq<char>>, found: Seq<HostedPackage>) -> Seq<HostedPackage> {
    found.filter(|p: HostedPackage| host_selects(filter, p.name@))
}

/// Splits the `--packages` argument into the names to host.
pub fn package_filter(packages: &Option<String>) -> (r: Vec<String>)
    ensures
        string_views(r@) == host_filter(
            match packages {
                Some(p) => Some(p@),
                None => None,
            },
        ),
        forall|k: int|
            0 <= k < r.len() ==> {
                &&& (#[trigger] r@[k])@.len() > 0
                &&& forall|j: int| 0 <= j < r@[k]@.len() ==> !is_space(r@[k]@[j])
            },
{
    let text = match packages {
        Some(p) => chars_of(p.as_str()),
        None => chars_of("all"),
    };
    let ws = split_whitespace_chars(&text);
    proof {
        lemma_words_clean(text@);
    }
    let all = chars_of("all");
    let mut r: Vec<String> = Vec::new();
    let is_all = ws.len() == 1 && chars_eq(&ws[0], &all);
    proof {
        if is_all {
            assert(char_views(ws@) =~= seq![all@]);
        }
        if char_views(ws@) == seq![all@] {
            assert(char_views(ws@).len() == 1);
            assert(char_views(ws@)[0] == ws@[0]@);
        }
    }
    if !is_all {
        let mut i: usize = 0;
        while i < ws.len()
            invariant
                i <= ws.len(),
                r.len() == i,
                string_views(r@) == char_views(ws@).take(i as int),
            decreases ws.len() - i,
        {
            let ghost old_r = r@;
            r.push(string_of(&ws[i]));
            assert forall|j: int| 0 <= j < i + 1 implies string_views(r@)[j] == char_views(
                ws@,
            ).take(i + 1)[j] by {
                if j < i {
                    assert(r@[j] == old_r[j]);
                    assert(string_views(old_r)[j] == char_views(ws@).take(i as int)[j]);
                }
            }
            assert(string_views(r@) =~= char_views(ws@).take(i + 1));
            i = i + 1;
        }
        assert(char_views(ws@).take(ws.len() as int) =~= char_views(ws@));
    } else {
        assert(string_views(r@) =~= Seq::<Seq<char>>::empty());
    }
    assert(r.len() > 0 ==> string_views(r@) == words(text@));
    assert forall|k: int| 0 <= k < r.len() implies {
        &&& (#[trigger] r@[k])@.len() > 0
        &&& forall|j: int| 0 <= j < r@[k]@.len() ==> !is_space(r@[k]@[j])
    } by {
        assert(string_views(r@)[k] == r@[k]@);
        assert(string_views(r@)[k] == words(text@)[k]);
    }
    r
}

/// Decides `host_selects`.
pub fn selects(filter: &Vec<String>, name: &str) -> (r: bool)
    ensures
        r == host_selects(string_views(filter@), name@),
{
    if filter.len() == 0 {
        return true;
    }
    let target = chars_of(name);
    let mut i: usize = 0;
    while i < filter.len()
        invariant
            i <= filter.len(),
            target@ == name@,
            forall|k: int| 0 <= k < i ==> filter@[k]@ != name@,
        decreases filter.len() - i,
    {
        if chars_eq(&chars_of(filter[i].as_str()), &target) {
            assert(string_views(filter@)[i as int] == name@);
            return true;
        }
        i = i + 1;
    }
    assert(!string_views(filter@).contains(name@)) by {
        if string_views(filter@).contains(name@) {
            let k = choose|k: int| 0 <= k < filter@.len() && string_views(filter@)[k] == name@;
            assert(filter@[k]@ == name@);
        }
    }
    false
}

/// The matrix of hosting jobs for the packages found in the workspace, in
/// workspace order, keeping those the `--packages` argument names.
pub fn host(args: &HostArgs, found: &Vec<HostedPackage>) -> (out: Output)
    ensures
        out.ci.github.artifacts_matrix matches Some(jobs) && {
            let kept = hosted(
                host_filter(
                    match args.packages {
                        Some(p) => Some(p@),
                        None => None,
                    },
                ),
                found@,
            );
            &&& jobs.len() == kept.len()
            &&& forall|k: int| 0 <= k < jobs.len() ==> job_of(kept[k], #[trigger] jobs@[k])
        },
{
    let filter = package_filter(&args.packages);
    let ghost f = string_views(filter@);
    let ghost pred = |p: HostedPackage| host_selects(f, p.name@);
    let mut jobs: Vec<ArtifactsMatrix> = Vec::new();
    let mut i: usize = 0;
    assert(found@.take(0).filter(pred) =~= Seq::<HostedPackage>::empty());
    while i < found.len()
        invariant
            i <= found.len(),
            f == string_views(filter@),
            pred == (|p: HostedPackage| host_selects(f, p.name@)),
            jobs.len() == found@.take(i as int).filter(pred).len(),
            forall|k: int|
                0 <= k < jobs.len() ==> job_of(found@.take(i as int).filter(pred)[k], #[trigger] jobs@[k]),
        decreases found.len() - i,
    {
        let p = &found[i];
        let ghost prev = found@.take(i as int);
        assert(found@.take(i + 1) =~= prev.push(found@[i as int]));
        proof {
            prev.lemma_filter_push(found@[i as int], pred);
        }
        if selects(&filter, p.name.as_str()) {
            let job = ArtifactsMatrix {
                runner: String::from_str("ubuntu-24.04"),
                container: None,
                package: Package {
                    source: p.dir.clone(),
                    name: p.name.clone(),
                    version: p.version.to_string(),
                },
            };
            jobs.push(job);
        }
        i = i + 1;
    }
    assert(found@.take(found.len() as int) =~= found@);
    Output { ci: Ci { github: CiGitHub { artifacts_matrix: Some(jobs) } } }
}

} // verus!
