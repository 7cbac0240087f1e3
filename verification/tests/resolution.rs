use package_check::error::{FileError, PackageError};
use package_check::exclude::exclude_filter_from_globs;
use package_check::ident::{FileIdentifier, PackageReference, PackageVersion, VirtualPath};
use package_check::resolve::{
    expect_parents, prepare_package, provision_outcome, render_version, ProvisionAction,
    ProvisionProbe,
};
use package_check::world::SystemWorld;

fn segs(parts: &[&str]) -> Vec<String> {
    parts.iter().map(|s| s.to_string()).collect()
}

fn vpath(parts: &[&str]) -> VirtualPath {
    VirtualPath::new(segs(parts))
}

fn local(parts: &[&str]) -> FileIdentifier {
    FileIdentifier::new(None, vpath(parts))
}

fn pkg(ns: &str, name: &str, v: (u64, u64, u64)) -> PackageReference {
    PackageReference {
        namespace: ns.to_string(),
        name: name.to_string(),
        version: PackageVersion { major: v.0, minor: v.1, patch: v.2 },
    }
}

fn world(root: &[&str]) -> SystemWorld {
    let mut input = segs(root);
    input.push("main.typ".to_string());
    SystemWorld::new(input, segs(root)).unwrap()
}

#[test]
fn resolve_is_idempotent_for_a_fixed_context() {
    let w = world(&["pkg"]);
    let id = local(&["a", "b.typ"]);
    let first = w.resolve(&id).unwrap();
    let second = w.resolve(&id).unwrap();
    assert_eq!(first, second);
    assert_eq!(first, segs(&["pkg", "a", "b.typ"]));
}

#[test]
fn resolve_rejects_excluded_files_even_when_present() {
    let mut w = world(&["pkg"]);
    let filter = exclude_filter_from_globs(&segs(&["secret.typ"])).unwrap();
    w.exclude(filter);
    let id = local(&["secret.typ"]);
    assert_eq!(w.resolve(&id), Err(FileError::Excluded));
    let other = local(&["open.typ"]);
    assert_eq!(w.resolve(&other), Ok(segs(&["pkg", "open.typ"])));
}

#[test]
fn resolve_uses_the_override_directory_without_exclusion() {
    let spec = pkg("preview", "demo", (1, 2, 3));
    let mut w = world(&["pkg"]).with_package_override(&spec, &segs(&["pkg", "template"]));
    // Even an excluded path resolves under the override root: override
    // content is not subject to the project's own exclude rules.
    let filter = exclude_filter_from_globs(&segs(&["x.typ"])).unwrap();
    w.exclude(filter);
    let id = FileIdentifier::new(Some(pkg("preview", "demo", (1, 2, 3))), vpath(&["x.typ"]));
    assert_eq!(w.resolve(&id), Ok(segs(&["pkg", "template", "x.typ"])));
}

#[test]
fn resolve_recognizes_the_package_being_checked_by_its_ancestors() {
    // Canonical layout: <root>/<namespace>/<name>/<version>.
    let w = world(&["packages", "preview", "demo", "1.2.3"]);
    let id = FileIdentifier::new(Some(pkg("preview", "demo", (1, 2, 3))), vpath(&["lib.typ"]));
    assert_eq!(
        w.resolve(&id),
        Ok(segs(&["packages", "preview", "demo", "1.2.3", "lib.typ"]))
    );
}

#[test]
fn resolve_self_reference_is_subject_to_exclusion() {
    let mut w = world(&["packages", "preview", "demo", "1.2.3"]);
    let filter = exclude_filter_from_globs(&segs(&["lib.typ"])).unwrap();
    w.exclude(filter);
    let id = FileIdentifier::new(Some(pkg("preview", "demo", (1, 2, 3))), vpath(&["lib.typ"]));
    assert_eq!(w.resolve(&id), Err(FileError::Excluded));
}

#[test]
fn resolve_falls_back_to_provisioned_roots() {
    let mut w = world(&["pkg"]);
    let spec = pkg("preview", "dep", (0, 2, 0));
    w.add_package_root(&spec, &segs(&["cache", "preview", "dep", "0.2.0"]));
    let id = FileIdentifier::new(Some(pkg("preview", "dep", (0, 2, 0))), vpath(&["lib.typ"]));
    assert_eq!(
        w.resolve(&id),
        Ok(segs(&["cache", "preview", "dep", "0.2.0", "lib.typ"]))
    );
    let missing = FileIdentifier::new(Some(pkg("preview", "other", (0, 1, 0))), vpath(&["x.typ"]));
    assert_eq!(
        w.resolve(&missing),
        Err(FileError::Package(PackageError::NotFound))
    );
}

#[test]
fn world_creation_requires_input_under_root() {
    let err = SystemWorld::new(segs(&["elsewhere", "main.typ"]), segs(&["pkg"]));
    assert!(err.is_err());
}

#[test]
fn virtual_paths_normalize_dots_and_cannot_escape() {
    let p = vpath(&["a", "..", "b", ".", "", "c"]);
    let flat: Vec<String> = p.segments().clone();
    assert_eq!(flat, segs(&["b", "c"]));
    // `..` at the root vanishes instead of escaping.
    let q = vpath(&["..", "..", "x"]);
    assert_eq!(q.segments().clone(), segs(&["x"]));
}

#[test]
fn expect_parents_walks_matching_ancestors() {
    let dir = segs(&["repo", "packages", "preview", "demo", "1.2.3"]);
    let parents = segs(&["1.2.3", "demo", "preview"]);
    assert_eq!(
        expect_parents(&dir, &parents),
        Some(segs(&["repo", "packages"]))
    );
    let wrong = segs(&["9.9.9", "demo", "preview"]);
    assert_eq!(expect_parents(&dir, &wrong), None);
}

#[test]
fn exclusion_filter_skips_negated_and_trims_dot_slash() {
    let filter =
        exclude_filter_from_globs(&segs(&["!negated.typ", "./examples/big.png"])).unwrap();
    let mut w = world(&["pkg"]);
    w.exclude(filter);
    // The negated entry was dropped: the file stays resolvable.
    assert!(w.resolve(&local(&["negated.typ"])).is_ok());
    // The `./` prefix was trimmed: the entry still excludes.
    assert_eq!(
        w.resolve(&local(&["examples", "big.png"])),
        Err(FileError::Excluded)
    );
}

#[test]
fn unparsable_exclusion_globs_fail_the_build() {
    // An unclosed character class is rejected by the glob parser, so the
    // whole filter construction yields nothing.
    assert!(exclude_filter_from_globs(&segs(&["[unclosed"])).is_none());
    assert!(exclude_filter_from_globs(&segs(&["well-formed.typ"])).is_some());
}

#[test]
fn prepare_package_prefers_local_then_data_then_cache() {
    let spec = pkg("preview", "demo", (1, 0, 0));
    let packages_dir = segs(&["repo", "packages"]);
    let probe_local = ProvisionProbe {
        local_present: true,
        data_dir: Some(segs(&["data"])),
        data_present: true,
        cache_dir: Some(segs(&["cache"])),
        cache_present: true,
    };
    match prepare_package(&spec, &packages_dir, &probe_local) {
        ProvisionAction::UseDir(d) => {
            assert_eq!(d, segs(&["repo", "packages", "preview", "demo", "1.0.0"]))
        }
        _ => panic!("expected the local directory"),
    }
    let probe_data = ProvisionProbe { local_present: false, ..probe_local };
    match prepare_package(&spec, &packages_dir, &probe_data) {
        ProvisionAction::UseDir(d) => {
            assert_eq!(d, segs(&["data", "typst", "packages", "preview", "demo", "1.0.0"]))
        }
        _ => panic!("expected the data directory"),
    }
    let probe_cache = ProvisionProbe { data_present: false, ..probe_data };
    match prepare_package(&spec, &packages_dir, &probe_cache) {
        ProvisionAction::UseDir(d) => {
            assert_eq!(d, segs(&["cache", "typst", "packages", "preview", "demo", "1.0.0"]))
        }
        _ => panic!("expected the cache directory"),
    }
}

#[test]
fn provisioning_failures_are_reported_by_kind() {
    let spec = pkg("preview", "demo", (1, 0, 0));
    let packages_dir = segs(&["repo", "packages"]);
    let absent = ProvisionProbe {
        local_present: false,
        data_dir: None,
        data_present: false,
        cache_dir: Some(segs(&["cache"])),
        cache_present: false,
    };
    let action = prepare_package(&spec, &packages_dir, &absent);
    match &action {
        ProvisionAction::Fetch(d) => {
            assert_eq!(
                d,
                &segs(&["cache", "typst", "packages", "preview", "demo", "1.0.0"])
            )
        }
        _ => panic!("expected a fetch"),
    }
    // A fetch that could not download fails the network.
    let failed_fetch = prepare_package(&spec, &packages_dir, &absent);
    assert_eq!(
        provision_outcome(failed_fetch, false, false),
        Err(PackageError::NetworkFailure)
    );
    // One that downloaded but could not unpack is a malformed archive.
    let failed_unpack = prepare_package(&spec, &packages_dir, &absent);
    assert_eq!(
        provision_outcome(failed_unpack, true, false),
        Err(PackageError::MalformedArchive)
    );
    // Without even a cache directory the package is simply not found.
    let nowhere = ProvisionProbe { cache_dir: None, ..absent };
    assert_eq!(
        provision_outcome(prepare_package(&spec, &packages_dir, &nowhere), false, false),
        Err(PackageError::NotFound)
    );
}

#[test]
fn absent_non_fetchable_namespaces_fail_without_fallback() {
    // Only the registry's fetchable namespace may be downloaded; any other
    // namespace absent from every location is not found, even though a
    // cache directory exists.
    let spec = pkg("local", "demo", (1, 0, 0));
    let packages_dir = segs(&["repo", "packages"]);
    let absent = ProvisionProbe {
        local_present: false,
        data_dir: Some(segs(&["data"])),
        data_present: false,
        cache_dir: Some(segs(&["cache"])),
        cache_present: false,
    };
    match prepare_package(&spec, &packages_dir, &absent) {
        ProvisionAction::Fail(e) => assert_eq!(e, PackageError::NotFound),
        _ => panic!("expected provisioning to fail outright"),
    }
    // A non-fetchable package already present in the cache is still used.
    let cached = ProvisionProbe { cache_present: true, ..absent };
    match prepare_package(&spec, &packages_dir, &cached) {
        ProvisionAction::UseDir(d) => {
            assert_eq!(d, segs(&["cache", "typst", "packages", "local", "demo", "1.0.0"]))
        }
        _ => panic!("expected the cache directory"),
    }
}

#[test]
fn versions_render_and_order() {
    let v = PackageVersion { major: 1, minor: 20, patch: 3 };
    assert_eq!(render_version(&v), "1.20.3");
    let w = PackageVersion { major: 1, minor: 3, patch: 9 };
    assert!(w.lt(&v));
    assert!(!v.lt(&w));
}

#[test]
fn previous_version_picks_the_latest_other() {
    let spec = pkg("preview", "demo", (1, 2, 0));
    let available = vec![
        PackageVersion { major: 0, minor: 9, patch: 0 },
        PackageVersion { major: 1, minor: 2, patch: 0 },
        PackageVersion { major: 1, minor: 1, patch: 5 },
        PackageVersion { major: 0, minor: 1, patch: 0 },
    ];
    let prev = spec.previous_version(&available).unwrap();
    assert_eq!(prev.version, PackageVersion { major: 1, minor: 1, patch: 5 });
    assert_eq!(prev.name, "demo");
    let only_self = vec![PackageVersion { major: 1, minor: 2, patch: 0 }];
    assert!(spec.previous_version(&only_self).is_none());
}
