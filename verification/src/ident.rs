//! Logical addressing: package references and root-relative virtual paths.
//!
//! A [`FileIdentifier`] is the sole addressing scheme used across resolution,
//! caching and diagnostics: an optional [`PackageReference`] plus a
//! [`VirtualPath`] relative to the addressed root.

use vstd::prelude::*;

verus! {

/// A semantic version of a package: `MAJOR.MINOR.PATCH`.
#[derive(Clone, Copy, Debug, PartialEq, Eq, Structural)]
pub struct PackageVersion {
    pub major: u64,
    pub minor: u64,
    pub patch: u64,
}

impl PackageVersion {
    /// Lexicographic order on (major, minor, patch).
    pub open spec fn spec_lt(self, other: PackageVersion) -> bool {
        ||| self.major < other.major
        ||| (self.major == other.major && self.minor < other.minor)
        ||| (self.major == other.major && self.minor == other.minor && self.patch < other.patch)
    }

    /// Strict order on versions: major first, then minor, then patch.
    pub fn lt(&self, other: &PackageVersion) -> (r: bool)
        ensures
            r == self.spec_lt(*other),
    {
        if self.major != other.major {
            self.major < other.major
        } else if self.minor != other.minor {
            self.minor < other.minor
        } else {
            self.patch < other.patch
        }
    }
}

/// Identifies a package distinct from the project being checked:
/// a namespace, a name and a semantic version.
#[derive(Debug)]
pub struct PackageReference {
    pub namespace: String,
    pub name: String,
    pub version: PackageVersion,
}

/// The version-less part of a package reference: namespace and name.
#[derive(Debug)]
pub struct VersionlessPackageReference {
    pub namespace: String,
    pub name: String,
}

impl PackageReference {
    /// Two references denote the same package iff all three fields agree.
    pub open spec fn key(self) -> PackageKey {
        PackageKey {
            namespace: self.namespace@,
            name: self.name@,
            version: self.version,
        }
    }

    /// Drop the version.
    pub fn versionless(&self) -> (r: VersionlessPackageReference)
        ensures
            r.namespace@ == self.namespace@,
            r.name@ == self.name@,
    {
        VersionlessPackageReference {
            namespace: self.namespace.clone(),
            name: self.name.clone(),
        }
    }

    /// The latest other version: the maximum of `available` that differs from
    /// this reference's own version, as a reference with that version.
    ///
    /// Returns `None` when every available version equals this one (or the
    /// list is empty).
    pub fn previous_version(&self, available: &Vec<PackageVersion>) -> (r: Option<
        PackageReference,
    >)
        ensures
            match r {
                Some(p) => {
                    &&& p.namespace@ == self.namespace@
                    &&& p.name@ == self.name@
                    &&& available@.contains(p.version)
                    &&& p.version != self.version
                    &&& forall|w: PackageVersion|
                        available@.contains(w) && w != self.version ==> !p.version.spec_lt(w)
                },
                None => forall|w: PackageVersion| available@.contains(w) ==> w == self.version,
            },
    {
        let mut last: Option<PackageVersion> = None;
        let mut i: usize = 0;
        while i < available.len()
            invariant
                i <= available.len(),
                match last {
                    Some(m) => {
                        &&& exists|j: int| 0 <= j < i && available@[j] == m
                        &&& m != self.version
                        &&& forall|j: int|
                            0 <= j < i && #[trigger] available@[j] != self.version
                                ==> !m.spec_lt(available@[j])
                    },
                    None => forall|j: int| 0 <= j < i ==> #[trigger] available@[j] == self.version,
                },
            decreases available.len() - i,
        {
            let v = available[i];
            if !(v == self.version) {
                let keep = match &last {
                    Some(m) => m.lt(&v),
                    None => true,
                };
                if keep {
                    proof {
                        assert(available@[i as int] == v);
                    }
                    last = Some(v);
                }
            }
            i += 1;
        }
        match last {
            Some(v) => {
                proof {
                    let j = choose|j: int| 0 <= j < available@.len() && available@[j] == v;
                    assert(available@.contains(v));
                    assert forall|w: PackageVersion|
                        available@.contains(w) && w != self.version implies !v.spec_lt(w) by {
                        let k = choose|k: int|
                            0 <= k < available@.len() && #[trigger] available@[k] == w;
                        assert(available@[k] != self.version);
                    }
                }
                Some(
                    PackageReference {
                        namespace: self.namespace.clone(),
                        name: self.name.clone(),
                        version: v,
                    },
                )
            },
            None => {
                proof {
                    assert forall|w: PackageVersion| available@.contains(w) implies w
                        == self.version by {
                        let k = choose|k: int|
                            0 <= k < available@.len() && #[trigger] available@[k] == w;
                    }
                }
                None
            },
        }
    }
}

impl Clone for PackageReference {
    fn clone(&self) -> (r: Self)
        ensures
            r.key() == self.key(),
    {
        PackageReference {
            namespace: self.namespace.clone(),
            name: self.name.clone(),
            version: self.version,
        }
    }
}

impl PartialEq for PackageReference {
    fn eq(&self, other: &Self) -> (r: bool) {
        self.namespace == other.namespace && self.name == other.name && self.version
            == other.version
    }
}

impl vstd::std_specs::cmp::PartialEqSpecImpl for PackageReference {
    open spec fn obeys_eq_spec() -> bool {
        true
    }

    open spec fn eq_spec(&self, other: &Self) -> bool {
        self.key() == other.key()
    }
}

/// The spec-level value of a package reference.
pub struct PackageKey {
    pub namespace: Seq<char>,
    pub name: Seq<char>,
    pub version: PackageVersion,
}

/// A root-relative, normalized, traversal-safe path: a sequence of segments,
/// none of which is empty, `.` or `..`.
#[derive(Debug)]
pub struct VirtualPath {
    segments: Vec<String>,
}

/// A single path segment may appear in a normalized path unless it is
/// empty or one of the two special dot names.
pub open spec fn segment_ok(s: Seq<char>) -> bool {
    s.len() > 0 && s != "."@ && s != ".."@
}

/// Lexical normalization of a segment list: empty and `.` segments vanish,
/// and `..` removes the preceding segment where one exists (it cannot climb
/// above the root).
pub open spec fn normalize(raw: Seq<Seq<char>>) -> Seq<Seq<char>>
    decreases raw.len(),
{
    if raw.len() == 0 {
        Seq::empty()
    } else {
        let prefix = normalize(raw.drop_last());
        let last = raw.last();
        if last.len() == 0 || last == "."@ {
            prefix
        } else if last == ".."@ {
            if prefix.len() > 0 {
                prefix.drop_last()
            } else {
                prefix
            }
        } else {
            prefix.push(last)
        }
    }
}

/// Every segment of a normalized list is an ordinary name.
pub proof fn lemma_normalize_ok(raw: Seq<Seq<char>>)
    ensures
        forall|i: int| 0 <= i < normalize(raw).len() ==> segment_ok(#[trigger] normalize(raw)[i]),
    decreases raw.len(),
{
    if raw.len() > 0 {
        lemma_normalize_ok(raw.drop_last());
        let prefix = normalize(raw.drop_last());
        let last = raw.last();
        if last.len() == 0 || last == "."@ {
        } else if last == ".."@ {
        } else {
            assert forall|i: int| 0 <= i < normalize(raw).len() implies segment_ok(
                #[trigger] normalize(raw)[i],
            ) by {
                if i < prefix.len() {
                    assert(normalize(raw)[i] == prefix[i]);
                } else {
                    assert(normalize(raw)[i] == last);
                }
            }
        }
    }
}

impl View for VirtualPath {
    type V = Seq<Seq<char>>;

    closed spec fn view(&self) -> Seq<Seq<char>> {
        self.segments.deep_view()
    }
}

impl VirtualPath {
    /// The invariant every constructed path satisfies.
    pub open spec fn wf(self) -> bool {
        forall|i: int| 0 <= i < self@.len() ==> segment_ok(#[trigger] self@[i])
    }

    /// Build a virtual path from raw segments, normalizing away empty, `.`
    /// and `..` segments so that the result can never escape its root.
    pub fn new(raw: Vec<String>) -> (r: VirtualPath)
        ensures
            r@ == normalize(raw.deep_view()),
            r.wf(),
    {
        let mut segments: Vec<String> = Vec::new();
        let mut i: usize = 0;
        while i < raw.len()
            invariant
                i <= raw.len(),
                segments.deep_view() == normalize(raw.deep_view().take(i as int)),
            decreases raw.len() - i,
        {
            let seg = &raw[i];
            let ghost pre = raw.deep_view().take(i as int);
            assert(raw.deep_view().take(i + 1 as int).drop_last() =~= pre);
            assert(raw.deep_view().take(i + 1 as int).last() == seg@);
            let is_empty = seg.as_str().unicode_len() == 0;
            let is_dot = *seg == String::from_str(".");
            let is_dotdot = *seg == String::from_str("..");
            if is_empty || is_dot {
                assert(seg@.len() == 0 || seg@ == "."@);
            } else if is_dotdot {
                assert(seg@ == ".."@);
                if segments.len() > 0 {
                    let ghost svold = segments.deep_view();
                    segments.pop();
                    assert(segments.deep_view() =~= svold.drop_last());
                }
            } else {
                let ghost svold = segments.deep_view();
                segments.push(seg.clone());
                assert(segments.deep_view() =~= svold.push(seg@));
            }
            assert(segments.deep_view() =~= normalize(raw.deep_view().take(i + 1 as int)));
            i += 1;
        }
        assert(raw.deep_view().take(raw.deep_view().len() as int) =~= raw.deep_view());
        let r = VirtualPath { segments };
        proof {
            lemma_normalize_ok(raw.deep_view());
        }
        r
    }

    /// The segments, root-relative, in order.
    pub fn segments(&self) -> (r: &Vec<String>)
        ensures
            r.deep_view() == self@,
    {
        &self.segments
    }

    /// Prepend a directory prefix, keeping this path's own segments intact.
    pub fn prepend(&self, prefix: &VirtualPath) -> (r: VirtualPath)
        ensures
            r@ == prefix@ + self@,
            prefix.wf() && self.wf() ==> r.wf(),
    {
        let mut segments = clone_segments(&prefix.segments);
        let mut rest = clone_segments(&self.segments);
        segments.append(&mut rest);
        assert(segments.deep_view() =~= prefix@ + self@);
        VirtualPath { segments }
    }
}

impl Clone for VirtualPath {
    fn clone(&self) -> (r: Self)
        ensures
            r@ == self@,
    {
        VirtualPath { segments: clone_segments(&self.segments) }
    }
}

impl PartialEq for VirtualPath {
    fn eq(&self, other: &Self) -> (r: bool) {
        segments_eq(&self.segments, &other.segments)
    }
}

impl vstd::std_specs::cmp::PartialEqSpecImpl for VirtualPath {
    open spec fn obeys_eq_spec() -> bool {
        true
    }

    open spec fn eq_spec(&self, other: &Self) -> bool {
        self@ == other@
    }
}

/// Clone a segment list, keeping every segment's characters.
pub fn clone_segments(v: &Vec<String>) -> (r: Vec<String>)
    ensures
        r.deep_view() == v.deep_view(),
{
    let mut r: Vec<String> = Vec::new();
    let mut i: usize = 0;
    while i < v.len()
        invariant
            i <= v.len(),
            r.deep_view() == v.deep_view().take(i as int),
        decreases v.len() - i,
    {
        let ghost pre = r.deep_view();
        r.push(v[i].clone());
        assert(r.deep_view() =~= pre.push(v@[i as int]@));
        assert(r.deep_view() =~= v.deep_view().take(i + 1 as int));
        i += 1;
    }
    assert(v.deep_view().take(v.deep_view().len() as int) =~= v.deep_view());
    r
}

/// Compare two segment lists for character-wise equality.
pub fn segments_eq(a: &Vec<String>, b: &Vec<String>) -> (r: bool)
    ensures
        r == (a.deep_view() == b.deep_view()),
{
    if a.len() != b.len() {
        assert(a.deep_view().len() != b.deep_view().len());
        return false;
    }
    let mut i: usize = 0;
    while i < a.len()
        invariant
            i <= a.len(),
            a.len() == b.len(),
            forall|j: int| 0 <= j < i ==> a.deep_view()[j] == b.deep_view()[j],
        decreases a.len() - i,
    {
        let same = a[i] == b[i];
        if !same {
            assert(a.deep_view()[i as int] != b.deep_view()[i as int]);
            return false;
        }
        i += 1;
    }
    assert(a.deep_view() =~= b.deep_view());
    true
}

/// A logical file identifier: the content-addressing key used across
/// resolution, caching and diagnostics. Two identifiers are equal iff both
/// the package reference and the virtual path are equal.
#[derive(Debug)]
pub struct FileIdentifier {
    pub package: Option<PackageReference>,
    pub path: VirtualPath,
}

/// The spec-level value of a file identifier.
pub struct IdentKey {
    pub package: Option<PackageKey>,
    pub path: Seq<Seq<char>>,
}

impl FileIdentifier {
    /// The spec-level key this identifier addresses.
    pub open spec fn key(self) -> IdentKey {
        IdentKey {
            package: match self.package {
                Some(p) => Some(p.key()),
                None => None,
            },
            path: self.path@,
        }
    }

    pub open spec fn wf(self) -> bool {
        self.path.wf()
    }

    /// Make an identifier from its two parts.
    pub fn new(package: Option<PackageReference>, path: VirtualPath) -> (r: FileIdentifier)
        ensures
            r.package == package,
            r.path@ == path@,
            path.wf() ==> r.wf(),
    {
        FileIdentifier { package, path }
    }
}

impl Clone for FileIdentifier {
    fn clone(&self) -> (r: Self)
        ensures
            r.key() == self.key(),
            r.wf() == self.wf(),
    {
        let package = match &self.package {
            Some(p) => Some(p.clone()),
            None => None,
        };
        FileIdentifier { package, path: self.path.clone() }
    }
}

impl PartialEq for FileIdentifier {
    fn eq(&self, other: &Self) -> (r: bool) {
        let packages_match = match (&self.package, &other.package) {
            (Some(a), Some(b)) => a == b,
            (None, None) => true,
            _ => false,
        };
        packages_match && self.path == other.path
    }
}

impl vstd::std_specs::cmp::PartialEqSpecImpl for FileIdentifier {
    open spec fn obeys_eq_spec() -> bool {
        true
    }

    open spec fn eq_spec(&self, other: &Self) -> bool {
        self.key() == other.key()
    }
}

} // verus!
