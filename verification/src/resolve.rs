//! Path-resolution helpers: the ancestor-name walk that recognizes the
//! package currently being checked, the canonical package directory layout,
//! and the provisioning decision for packages not satisfied locally.

use vstd::prelude::*;

use crate::error::PackageError;
use crate::ident::{clone_segments, PackageReference, PackageVersion};
use crate::strings::{dec_chars, u64_to_string};
use vstd::string::StringExecFns;

verus! {

/// The characters of a version rendered as `MAJOR.MINOR.PATCH`.
pub open spec fn version_chars(v: PackageVersion) -> Seq<char> {
    dec_chars(v.major) + "."@ + dec_chars(v.minor) + "."@ + dec_chars(v.patch)
}

/// Render a version as `MAJOR.MINOR.PATCH`.
pub fn render_version(v: &PackageVersion) -> (r: String)
    ensures
        r@ == version_chars(*v),
{
    let mut s = u64_to_string(v.major);
    s.append(".");
    let minor = u64_to_string(v.minor);
    s.append(minor.as_str());
    s.append(".");
    let patch = u64_to_string(v.patch);
    s.append(patch.as_str());
    s
}

/// The canonical directory of a package below a registry root:
/// `<namespace>/<name>/<version>`.
pub open spec fn package_subdir(p: PackageReference) -> Seq<Seq<char>> {
    seq![p.namespace@, p.name@, version_chars(p.version)]
}

impl PackageReference {
    /// The canonical directory of this package below the given packages
    /// directory.
    pub fn directory(&self, packages_dir: &Vec<String>) -> (r: Vec<String>)
        ensures
            r.deep_view() == packages_dir.deep_view() + package_subdir(*self),
    {
        let mut r = clone_segments(packages_dir);
        r.push(self.namespace.clone());
        r.push(self.name.clone());
        r.push(render_version(&self.version));
        proof {
            assert(r.deep_view() =~= packages_dir.deep_view() + package_subdir(*self));
        }
        r
    }
}

/// Walk up a directory while each parent folder name matches the expected
/// names, in order; the remaining prefix is the result.
pub open spec fn spec_expect_parents(dir: Seq<Seq<char>>, parents: Seq<Seq<char>>) -> Option<
    Seq<Seq<char>>,
>
    decreases parents.len(),
{
    if parents.len() == 0 {
        Some(dir)
    } else if dir.len() == 0 {
        None
    } else if dir.last() == parents[0] {
        spec_expect_parents(dir.drop_last(), parents.drop_first())
    } else {
        None
    }
}

/// Goes up the directory hierarchy while each folder name matches the
/// expected parent names, returning the directory above the matched part.
pub fn expect_parents(dir: &Vec<String>, parents: &Vec<String>) -> (r: Option<Vec<String>>)
    ensures
        match r {
            Some(p) => spec_expect_parents(dir.deep_view(), parents.deep_view()) == Some(
                p.deep_view(),
            ),
            None => spec_expect_parents(dir.deep_view(), parents.deep_view()) is None,
        },
{
    let mut k: usize = 0;
    proof {
        assert(dir.deep_view().take(dir.deep_view().len() as int) =~= dir.deep_view());
        assert(parents.deep_view().skip(0) =~= parents.deep_view());
    }
    while k < parents.len()
        invariant
            k <= parents@.len(),
            spec_expect_parents(dir.deep_view(), parents.deep_view()) == spec_expect_parents(
                dir.deep_view().take(dir.deep_view().len() - k),
                parents.deep_view().skip(k as int),
            ),
            k <= dir@.len(),
        decreases parents@.len() - k,
    {
        if dir.len() - k == 0 {
            proof {
                assert(dir.deep_view().take(0).len() == 0);
            }
            return None;
        }
        let d = &dir[dir.len() - 1 - k];
        let p = &parents[k];
        let same = *d == *p;
        proof {
            let dv = dir.deep_view().take(dir.deep_view().len() - k);
            let pv = parents.deep_view().skip(k as int);
            assert(dv.len() > 0);
            assert(dv.last() == dir.deep_view()[dir.deep_view().len() - 1 - k]);
            assert(pv[0] == parents.deep_view()[k as int]);
            assert(dv.drop_last() =~= dir.deep_view().take(dir.deep_view().len() - (k + 1)));
            assert(pv.drop_first() =~= parents.deep_view().skip(k + 1 as int));
        }
        if !same {
            return None;
        }
        k += 1;
    }
    proof {
        assert(parents.deep_view().skip(parents@.len() as int) =~= Seq::<Seq<char>>::empty());
    }
    let mut out: Vec<String> = Vec::new();
    let n = dir.len() - parents.len();
    let mut i: usize = 0;
    while i < n
        invariant
            i <= n <= dir@.len(),
            out.deep_view() == dir.deep_view().take(i as int),
        decreases n - i,
    {
        let ghost pre = out.deep_view();
        out.push(dir[i].clone());
        assert(out.deep_view() =~= pre.push(dir.deep_view()[i as int]));
        assert(out.deep_view() =~= dir.deep_view().take(i + 1 as int));
        i += 1;
    }
    Some(out)
}

/// What the caller observed on disk while provisioning: whether each
/// candidate directory exists, and where the persistent data and disposable
/// cache directories are, if the system has them.
pub struct ProvisionProbe {
    /// The package's canonical directory under the registry checkout exists.
    pub local_present: bool,
    /// The persistent per-user data directory, if the system has one.
    pub data_dir: Option<Vec<String>>,
    /// The package's directory under the data directory exists.
    pub data_present: bool,
    /// The disposable per-user cache directory, if the system has one.
    pub cache_dir: Option<Vec<String>>,
    /// The package's directory under the cache directory exists.
    pub cache_present: bool,
}

/// What provisioning decides to do next.
pub enum ProvisionAction {
    /// The package is already on disk here.
    UseDir(Vec<String>),
    /// The package must be fetched and unpacked into this cache directory.
    Fetch(Vec<String>),
    /// Provisioning fails outright.
    Fail(PackageError),
}

/// The subdirectory `typst/packages/<namespace>/<name>/<version>` used
/// below the data and cache directories.
pub open spec fn provision_subdir(p: PackageReference) -> Seq<Seq<char>> {
    seq!["typst"@, "packages"@] + package_subdir(p)
}

/// Build `<base>/typst/packages/<namespace>/<name>/<version>`.
fn provision_dir(base: &Vec<String>, spec_ref: &PackageReference) -> (r: Vec<String>)
    ensures
        r.deep_view() == base.deep_view() + provision_subdir(*spec_ref),
{
    let mut r = clone_segments(base);
    r.push(String::from_str("typst"));
    r.push(String::from_str("packages"));
    r.push(spec_ref.namespace.clone());
    r.push(spec_ref.name.clone());
    r.push(render_version(&spec_ref.version));
    proof {
        assert(r.deep_view() =~= base.deep_view() + provision_subdir(*spec_ref));
    }
    r
}

/// The registry's fetchable namespace: only its packages may be downloaded
/// when they are absent from disk.
pub open spec fn fetchable_namespace() -> Seq<char> {
    "preview"@
}

/// Decide where a named, versioned package reference not satisfied by the
/// resolution context itself is to be found: the registry checkout first,
/// then the persistent data directory, then the disposable cache. A package
/// absent from all three is fetched into the cache only when its namespace
/// is the registry's fetchable one and the system has a cache directory;
/// any other absent package cannot be provisioned at all — there is no
/// silent fallback.
pub fn prepare_package(
    spec_ref: &PackageReference,
    packages_dir: &Vec<String>,
    probe: &ProvisionProbe,
) -> (r: ProvisionAction)
    ensures
        probe.local_present ==> (r matches ProvisionAction::UseDir(d) && d.deep_view()
            == packages_dir.deep_view() + package_subdir(*spec_ref)),
        !probe.local_present && probe.data_dir is Some && probe.data_present ==> (
        r matches ProvisionAction::UseDir(d) && d.deep_view() == probe.data_dir->0.deep_view()
            + provision_subdir(*spec_ref)),
        !probe.local_present && !(probe.data_dir is Some && probe.data_present) && probe.cache_dir
            is Some && probe.cache_present ==> (r matches ProvisionAction::UseDir(d)
            && d.deep_view() == probe.cache_dir->0.deep_view() + provision_subdir(*spec_ref)),
        !probe.local_present && !(probe.data_dir is Some && probe.data_present) && probe.cache_dir
            is Some && !probe.cache_present && spec_ref.namespace@ == fetchable_namespace() ==> (
        r matches ProvisionAction::Fetch(d) && d.deep_view() == probe.cache_dir->0.deep_view()
            + provision_subdir(*spec_ref)),
        !probe.local_present && !(probe.data_dir is Some && probe.data_present) && probe.cache_dir
            is Some && !probe.cache_present && spec_ref.namespace@ != fetchable_namespace() ==> (
        r matches ProvisionAction::Fail(e) && e == PackageError::NotFound),
        !probe.local_present && !(probe.data_dir is Some && probe.data_present) && probe.cache_dir
            is None ==> (r matches ProvisionAction::Fail(e) && e == PackageError::NotFound),
{
    if probe.local_present {
        return ProvisionAction::UseDir(spec_ref.directory(packages_dir));
    }
    if let Some(dd) = &probe.data_dir {
        if probe.data_present {
            return ProvisionAction::UseDir(provision_dir(dd, spec_ref));
        }
    }
    if let Some(cd) = &probe.cache_dir {
        if probe.cache_present {
            return ProvisionAction::UseDir(provision_dir(cd, spec_ref));
        }
        if spec_ref.namespace == String::from_str("preview") {
            return ProvisionAction::Fetch(provision_dir(cd, spec_ref));
        }
        return ProvisionAction::Fail(PackageError::NotFound);
    }
    ProvisionAction::Fail(PackageError::NotFound)
}

/// Fold the outcome of acting on a provisioning decision into the
/// provisioning result: a directory already on disk is used as is; a fetch
/// that could not download fails the network; one that downloaded but could
/// not unpack is a malformed archive (the caller removes the partial
/// directory, so no partially-extracted state is ever observed).
pub fn provision_outcome(action: ProvisionAction, fetched: bool, unpacked: bool) -> (r: Result<
    Vec<String>,
    PackageError,
>)
    ensures
        match action {
            ProvisionAction::UseDir(d) => r matches Ok(p) && p == d,
            ProvisionAction::Fetch(d) => {
                if !fetched {
                    r == Err::<Vec<String>, PackageError>(PackageError::NetworkFailure)
                } else if !unpacked {
                    r == Err::<Vec<String>, PackageError>(PackageError::MalformedArchive)
                } else {
                    r matches Ok(p) && p == d
                }
            },
            ProvisionAction::Fail(e) => r == Err::<Vec<String>, PackageError>(e),
        },
{
    match action {
        ProvisionAction::UseDir(d) => Ok(d),
        ProvisionAction::Fetch(d) => {
            if !fetched {
                Err(PackageError::NetworkFailure)
            } else if !unpacked {
                Err(PackageError::MalformedArchive)
            } else {
                Ok(d)
            }
        },
        ProvisionAction::Fail(e) => Err(e),
    }
}

} // verus!
