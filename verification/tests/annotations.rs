use package_check::annotation::{diagnostic_to_annotation, AnnotationLevel};
use package_check::diagnostics::{
    convert_diagnostics, Diagnostic, Diagnostics, Label, RawDiagnostic, Severity, TryExt,
};
use package_check::ident::{FileIdentifier, PackageReference, PackageVersion, VirtualPath};
use package_check::store::FileStore;
use package_check::world::SystemWorld;

fn segs(parts: &[&str]) -> Vec<String> {
    parts.iter().map(|s| s.to_string()).collect()
}

fn vpath(parts: &[&str]) -> VirtualPath {
    VirtualPath::new(segs(parts))
}

fn local(parts: &[&str]) -> FileIdentifier {
    FileIdentifier::new(None, vpath(parts))
}

fn pkg(ns: &str, name: &str, v: (u64, u64, u64)) -> PackageReference {
    PackageReference {
        namespace: ns.to_string(),
        name: name.to_string(),
        version: PackageVersion { major: v.0, minor: v.1, patch: v.2 },
    }
}

#[test]
fn emission_order_is_preserved_per_severity() {
    let mut diags = Diagnostics::new();
    diags.emit(Diagnostic::warning().with_message("w1".to_string()));
    diags.emit(Diagnostic::error().with_message("e1".to_string()));
    diags.emit(Diagnostic::warning().with_message("w2".to_string()));
    assert_eq!(diags.errors().len(), 1);
    assert_eq!(diags.warnings().len(), 2);
    assert_eq!(diags.warnings()[0].message, "w1");
    assert_eq!(diags.warnings()[1].message, "w2");
    assert_eq!(diags.errors()[0].message, "e1");
}

#[test]
fn emit_many_and_maybe_emit() {
    let mut diags = Diagnostics::new();
    diags.emit_many(vec![
        Diagnostic::error().with_message("a".to_string()),
        Diagnostic::warning().with_message("b".to_string()),
    ]);
    let ok: Result<u8, Diagnostic> = Ok(3);
    diags.maybe_emit(ok);
    let err: Result<u8, Diagnostic> = Err(Diagnostic::error().with_message("c".to_string()));
    diags.maybe_emit(err);
    assert_eq!(diags.errors().len(), 2);
    assert_eq!(diags.warnings().len(), 1);
    assert_eq!(diags.errors()[1].message, "c");
}

#[test]
fn try_ext_lifts_failures_into_coded_diagnostics() {
    let missing: Option<u8> = None;
    let diag = missing.error("io/readme", "Failed to read").unwrap_err();
    assert_eq!(diag.code.as_deref(), Some("io/readme"));
    assert_eq!(diag.message, "Failed to read");
    assert!(matches!(diag.severity, Severity::Error));
    let fine: Result<u8, ()> = Ok(7);
    assert_eq!(fine.error("x", "y").unwrap(), 7);
}

#[test]
fn compiler_diagnostics_keep_only_font_complaints() {
    let raw = vec![
        RawDiagnostic {
            severity: Severity::Error,
            message: "unknown font family: comic".to_string(),
            span: Some(Label::primary(local(&["a.typ"]), 3, 8)),
            hints: vec!["try another".to_string()],
        },
        RawDiagnostic {
            severity: Severity::Warning,
            message: "layout did not converge".to_string(),
            span: None,
            hints: vec![],
        },
    ];
    let converted = convert_diagnostics(raw);
    assert_eq!(converted.len(), 1);
    assert_eq!(
        converted[0].message,
        "The following error was reported by the Typst compiler: unknown font family: comic"
    );
    assert_eq!(converted[0].labels.len(), 1);
    assert!(matches!(converted[0].severity, Severity::Error));
}

#[test]
fn merge_rewrites_only_packageless_labels() {
    let mut parent = Diagnostics::new();
    let mut sub = Diagnostics::new();
    sub.emit(
        Diagnostic::error()
            .with_message("local".to_string())
            .with_label(Label::primary(local(&["b.typ"]), 0, 2)),
    );
    sub.emit(
        Diagnostic::warning().with_message("foreign".to_string()).with_label(Label::primary(
            FileIdentifier::new(Some(pkg("preview", "dep", (0, 1, 0))), vpath(&["lib.typ"])),
            1,
            3,
        )),
    );
    parent.extend(sub, &vpath(&["template"]));
    // The project-local label was re-rooted under the prefix.
    let rewritten = &parent.errors()[0].labels[0];
    assert!(rewritten.file_id.package.is_none());
    assert_eq!(rewritten.file_id.path.segments().clone(), segs(&["template", "b.typ"]));
    assert_eq!((rewritten.start, rewritten.end), (0, 2));
    // The label naming another package was copied unchanged.
    let kept = &parent.warnings()[0].labels[0];
    assert!(kept.file_id.package.is_some());
    assert_eq!(kept.file_id.path.segments().clone(), segs(&["lib.typ"]));
}

#[test]
fn annotations_attribute_foreign_packages_to_their_own_directory() {
    let mut w = SystemWorld::new(segs(&["pkg", "main.typ"]), segs(&["pkg"])).unwrap();
    let mut store = FileStore::new();
    let dep = pkg("preview", "dep", (0, 1, 0));
    w.add_package_root(&dep, &segs(&["cache", "dep"]));
    store.insert(segs(&["cache", "dep", "lib.typ"]), b"let x = 1\n".to_vec());
    let job = pkg("preview", "mine", (2, 0, 0));
    let diag = Diagnostic::error().with_message("oops".to_string()).with_label(Label::primary(
        FileIdentifier::new(Some(pkg("preview", "dep", (0, 1, 0))), vpath(&["lib.typ"])),
        4,
        5,
    ));
    let a = diagnostic_to_annotation(&mut w, &mut store, &job, &diag).unwrap();
    assert_eq!(a.path, "packages/preview/dep/0.1.0/lib.typ");
    assert!(matches!(a.annotation_level, AnnotationLevel::Failure));
}

#[test]
fn multi_line_spans_have_no_columns() {
    let mut w = SystemWorld::new(segs(&["pkg", "main.typ"]), segs(&["pkg"])).unwrap();
    let mut store = FileStore::new();
    store.insert(segs(&["pkg", "a.typ"]), b"abc\ndef\n".to_vec());
    let job = pkg("preview", "mine", (2, 0, 0));
    let multi = Diagnostic::warning()
        .with_message("spans two lines".to_string())
        .with_label(Label::primary(local(&["a.typ"]), 1, 6));
    let a = diagnostic_to_annotation(&mut w, &mut store, &job, &multi).unwrap();
    assert_eq!((a.start_line, a.end_line), (1, 2));
    assert_eq!(a.start_column, None);
    assert_eq!(a.end_column, None);
    let single = Diagnostic::warning()
        .with_message("stays on one line".to_string())
        .with_label(Label::primary(local(&["a.typ"]), 1, 3));
    let b = diagnostic_to_annotation(&mut w, &mut store, &job, &single).unwrap();
    assert_eq!((b.start_line, b.end_line), (1, 1));
    assert_eq!(b.start_column, Some(2));
    assert_eq!(b.end_column, Some(4));
}

#[test]
fn virtual_fragments_report_host_line_numbers() {
    let mut w = SystemWorld::new(segs(&["pkg", "main.typ"]), segs(&["pkg"])).unwrap();
    let mut store = FileStore::new();
    // A fragment registered with a line shift of 41: a finding on its own
    // line 1 must be reported as line 42 of the host document.
    let id = local(&["README.md"]);
    w.virtual_source(&id, &b"#bad-name()\nrest".to_vec(), 41).unwrap();
    let job = pkg("preview", "mine", (1, 0, 0));
    let diag = Diagnostic::warning()
        .with_message("finding on the fragment's first line".to_string())
        .with_label(Label::primary(local(&["README.md"]), 1, 4));
    let a = diagnostic_to_annotation(&mut w, &mut store, &job, &diag).unwrap();
    assert_eq!(a.start_line, 42);
    assert_eq!(a.end_line, 42);
    assert_eq!(a.start_column, Some(2));
}

#[test]
fn spanless_or_unreadable_diagnostics_drop_their_annotation() {
    let mut w = SystemWorld::new(segs(&["pkg", "main.typ"]), segs(&["pkg"])).unwrap();
    let mut store = FileStore::new();
    let job = pkg("preview", "mine", (2, 0, 0));
    let spanless = Diagnostic::error().with_message("no span".to_string());
    assert!(diagnostic_to_annotation(&mut w, &mut store, &job, &spanless).is_none());
    let unreadable = Diagnostic::error()
        .with_message("gone".to_string())
        .with_label(Label::primary(local(&["absent.typ"]), 0, 1));
    assert!(diagnostic_to_annotation(&mut w, &mut store, &job, &unreadable).is_none());
}

#[test]
fn job_end_to_end_reports_the_warning_of_an_imported_file() {
    // Job root `pkg`; `a.typ` imports `b.typ`, which carries an
    // unused-import warning at bytes [10, 14) of its single line.
    let mut w = SystemWorld::new(segs(&["pkg", "a.typ"]), segs(&["pkg"])).unwrap();
    let mut store = FileStore::new();
    store.insert(segs(&["pkg", "a.typ"]), b"#import \"b.typ\"\n".to_vec());
    store.insert(
        segs(&["pkg", "b.typ"]),
        b"#import \"unused.typ\" as u".to_vec(),
    );
    let main = w.main().clone();
    let a_text = w.source(&mut store, &main).unwrap();
    assert_eq!(a_text.as_bytes().as_slice(), b"#import \"b.typ\"\n");
    let b_id = local(&["b.typ"]);
    w.source(&mut store, &b_id).unwrap();

    let mut diags = Diagnostics::new();
    diags.emit(
        Diagnostic::warning()
            .with_message("unused import".to_string())
            .with_label(Label::primary(local(&["b.typ"]), 10, 14)),
    );
    assert_eq!(diags.warnings().len(), 1);
    assert!(diags.errors().is_empty());

    let job = pkg("preview", "mine", (1, 0, 0));
    let a =
        diagnostic_to_annotation(&mut w, &mut store, &job, &diags.warnings()[0]).unwrap();
    assert_eq!(a.path, "packages/preview/mine/1.0.0/b.typ");
    assert_eq!(a.start_line, 1);
    assert_eq!(a.end_line, 1);
    assert_eq!(a.start_column, Some(11));
    assert_eq!(a.end_column, Some(15));
    assert!(matches!(a.annotation_level, AnnotationLevel::Warning));
    assert_eq!(a.message, "unused import");
}
