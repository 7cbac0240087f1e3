//! Rendering one diagnostic into the external annotation shape: a
//! repo-relative path, 1-indexed lines, and 1-indexed columns present only
//! when the span stays on a single line.

use vstd::prelude::*;

use crate::diagnostics::{DiagModel, Diagnostic, LabelModel, Severity};
use crate::error::FileError;
use crate::ident::{clone_segments, PackageKey, PackageReference};
use crate::resolve::render_version;
use crate::store::FileStore;
use crate::strings::{join_path, join_segments};
use crate::text::{column_of, is_char_start, line_of};
use crate::world::{source_step, SystemWorld};
use vstd::string::StringExecFns;

verus! {

/// How severe an annotation is, in the reporting system's vocabulary.
#[derive(Clone, Copy, Debug, PartialEq, Eq, Structural)]
pub enum AnnotationLevel {
    Warning,
    Failure,
}

/// The external reporting shape of one diagnostic.
#[derive(Debug)]
pub struct Annotation {
    /// Repo-relative path, under the registry's canonical package layout.
    pub path: String,
    /// 1-indexed first line of the primary span.
    pub start_line: usize,
    /// 1-indexed last line of the primary span.
    pub end_line: usize,
    /// 1-indexed column, present only when the span is on a single line.
    pub start_column: Option<usize>,
    /// 1-indexed column, present only when the span is on a single line.
    pub end_column: Option<usize>,
    pub annotation_level: AnnotationLevel,
    pub message: String,
}

/// The spec-level value of an annotation.
pub struct AnnotationModel {
    pub path: Seq<char>,
    pub start_line: usize,
    pub end_line: usize,
    pub start_column: Option<usize>,
    pub end_column: Option<usize>,
    pub level: AnnotationLevel,
    pub message: Seq<char>,
}

impl Annotation {
    /// The annotation's value.
    pub open spec fn model(self) -> AnnotationModel {
        AnnotationModel {
            path: self.path@,
            start_line: self.start_line,
            end_line: self.end_line,
            start_column: self.start_column,
            end_column: self.end_column,
            level: self.annotation_level,
            message: self.message@,
        }
    }
}

/// The package a label is attributed to: its own embedded reference if it
/// carries one, else the package under test.
pub open spec fn annotation_package(job: PackageKey, l: LabelModel) -> PackageKey {
    match l.id.package {
        Some(p) => p,
        None => job,
    }
}

/// The canonical package directory of a package key:
/// `<namespace>/<name>/<version>`.
pub open spec fn package_dir_key(p: PackageKey) -> Seq<Seq<char>> {
    seq![p.namespace, p.name, crate::resolve::version_chars(p.version)]
}

/// The annotation path of a label: the registry's canonical package
/// directory joined with the label's virtual path.
pub open spec fn annotation_path(job: PackageKey, l: LabelModel) -> Seq<char> {
    join_path(seq!["packages"@] + package_dir_key(annotation_package(job, l)) + l.id.path)
}

/// The 1-indexed line of a byte offset, shifted for virtual slots, when the
/// offset lies within the text and the line fits the machine.
pub open spec fn spec_shifted_line(b: Seq<u8>, off: usize, shift: usize) -> Option<usize> {
    if off > b.len() {
        None
    } else if line_of(b, off as int) + shift + 1 > usize::MAX {
        None
    } else {
        Some((line_of(b, off as int) + shift + 1) as usize)
    }
}

/// The 1-indexed column of a byte offset, when the offset lies within the
/// text on a character boundary and the column fits the machine.
pub open spec fn spec_column(b: Seq<u8>, off: usize) -> Option<usize> {
    if off > b.len() {
        None
    } else if !(off == b.len() || is_char_start(b[off as int])) {
        None
    } else if column_of(b, off as int) + 1 > usize::MAX {
        None
    } else {
        Some((column_of(b, off as int) + 1) as usize)
    }
}

/// What rendering a diagnostic yields: nothing for a span-less diagnostic
/// or one whose file cannot be read or whose lines fall out of range, and
/// otherwise the annotation with the canonical path, 1-indexed lines, and
/// columns present exactly when the span is on a single line.
pub open spec fn spec_annotation(
    pre: SystemWorld,
    prestore: FileStore,
    job: PackageKey,
    d: DiagModel,
) -> Option<AnnotationModel> {
    if d.labels.len() == 0 {
        None
    } else {
        let l = d.labels[0];
        match pre.spec_source_result(prestore, l.id) {
            Ok(b) => {
                let shift = pre.spec_line_shift(l.id);
                match (spec_shifted_line(b, l.start, shift), spec_shifted_line(b, l.end, shift)) {
                    (Some(sl), Some(el)) => Some(
                        AnnotationModel {
                            path: annotation_path(job, l),
                            start_line: sl,
                            end_line: el,
                            start_column: if sl == el {
                                spec_column(b, l.start)
                            } else {
                                None
                            },
                            end_column: if sl == el {
                                spec_column(b, l.end)
                            } else {
                                None
                            },
                            level: if d.severity == Severity::Warning {
                                AnnotationLevel::Warning
                            } else {
                                AnnotationLevel::Failure
                            },
                            message: d.message,
                        },
                    ),
                    _ => None,
                }
            },
            Err(_) => None,
        }
    }
}

/// Cross-package attribution: a diagnostic whose primary span carries a
/// package reference renders an annotation path rooted at that package's
/// canonical directory, not the job's own package directory — and merging
/// it under a directory prefix leaves its annotation untouched, so the
/// attribution survives a merge.
pub proof fn lemma_cross_package_attribution(
    w: SystemWorld,
    store: FileStore,
    job: PackageKey,
    d: DiagModel,
    prefix: Seq<Seq<char>>,
)
    requires
        d.labels.len() > 0,
        d.labels[0].id.package is Some,
    ensures
        spec_annotation(w, store, job, crate::diagnostics::reprefix_diag(prefix, d))
            == spec_annotation(w, store, job, d),
        spec_annotation(w, store, job, d) matches Some(a) ==> a.path == join_path(
            seq!["packages"@] + package_dir_key(d.labels[0].id.package->0) + d.labels[0].id.path,
        ),
{
    let d2 = crate::diagnostics::reprefix_diag(prefix, d);
    crate::diagnostics::lemma_prefix_rewrite_scoping(prefix, d, 0);
    assert(d2.labels[0] == d.labels[0]);
    assert(annotation_package(job, d.labels[0]) == d.labels[0].id.package->0);
}

/// Single-line vs multi-line columns: an annotation whose span crosses
/// lines carries no columns at all; one on a single line carries exactly
/// the 1-indexed columns of its byte range.
pub proof fn lemma_column_presence(
    w: SystemWorld,
    store: FileStore,
    job: PackageKey,
    d: DiagModel,
)
    requires
        spec_annotation(w, store, job, d) is Some,
    ensures
        ({
            let a = spec_annotation(w, store, job, d)->0;
            &&& (a.start_line != a.end_line ==> a.start_column is None && a.end_column is None)
            &&& (a.start_line == a.end_line ==> {
                let b = w.spec_source_result(store, d.labels[0].id)->Ok_0;
                a.start_column == spec_column(b, d.labels[0].start) && a.end_column == spec_column(
                    b,
                    d.labels[0].end,
                )
            })
        }),
{
}

/// Render one diagnostic into the external annotation shape, resolving its
/// primary span's lines and columns through the coordinate mapper.
///
/// A diagnostic without a primary span yields nothing, and so does one
/// whose file is missing or unreadable during resolution: that single
/// annotation is dropped rather than the whole report aborted.
pub fn diagnostic_to_annotation(
    world: &mut SystemWorld,
    store: &mut FileStore,
    package: &PackageReference,
    diag: &Diagnostic,
) -> (r: Option<Annotation>)
    ensures
        diag.labels@.len() == 0 ==> *final(world) == *old(world) && *final(store) == *old(store),
        diag.labels@.len() > 0 ==> source_step(
            *old(world),
            *old(store),
            diag.labels@[0].file_id,
            *final(world),
            *final(store),
        ),
        match r {
            Some(a) => spec_annotation(*old(world), *old(store), package.key(), diag.model())
                == Some(a.model()),
            None => spec_annotation(*old(world), *old(store), package.key(), diag.model())
                is None,
        },
{
    if diag.labels.len() == 0 {
        return None;
    }
    let label = &diag.labels[0];
    let ghost k = label.file_id.key();
    let ghost pre = *world;
    let ghost prestore = *store;
    proof {
        assert(diag.model().labels[0] == label.model());
        assert(diag.model().labels.len() > 0);
        match pre.spec_source_result(prestore, k) {
            Ok(b) => {
                crate::text::lemma_line_of_bounds(b, label.start as int);
                crate::text::lemma_line_of_bounds(b, label.end as int);
                crate::text::lemma_column_of_bounds(b, label.start as int);
                crate::text::lemma_column_of_bounds(b, label.end as int);
            },
            Err(_) => {},
        }
    }
    let start_line = match world.line_index(store, &label.file_id, label.start) {
        Ok(l) => l,
        Err(_) => {
            return None;
        },
    };
    let ghost w1 = *world;
    let ghost s1 = *store;
    proof {
        crate::world::lemma_source_hit_after_step(pre, prestore, w1, s1, label.file_id);
    }
    let end_line = match world.line_index(store, &label.file_id, label.end) {
        Ok(l) => l,
        Err(_) => {
            proof {
                crate::world::lemma_source_step_chain(pre, prestore, w1, s1, *world, *store, label.file_id);
            }
            return None;
        },
    };
    proof {
        crate::world::lemma_source_step_chain(pre, prestore, w1, s1, *world, *store, label.file_id);
    }
    let ghost w2 = *world;
    let ghost s2 = *store;
    let (start_column, end_column) = if start_line == end_line {
        proof {
            crate::world::lemma_source_hit_after_step(pre, prestore, w2, s2, label.file_id);
        }
        let sc = match world.column_number(store, &label.file_id, label.start) {
            Ok(c) => if c < usize::MAX {
                Some(c + 1)
            } else {
                None
            },
            Err(_) => None,
        };
        proof {
            crate::world::lemma_source_step_chain(pre, prestore, w2, s2, *world, *store, label.file_id);
            crate::world::lemma_source_hit_after_step(pre, prestore, *world, *store, label.file_id);
        }
        let ghost w3 = *world;
        let ghost s3 = *store;
        let ec = match world.column_number(store, &label.file_id, label.end) {
            Ok(c) => if c < usize::MAX {
                Some(c + 1)
            } else {
                None
            },
            Err(_) => None,
        };
        proof {
            crate::world::lemma_source_step_chain(pre, prestore, w3, s3, *world, *store, label.file_id);
        }
        (sc, ec)
    } else {
        (None, None)
    };
    if start_line == usize::MAX || end_line == usize::MAX {
        return None;
    }
    let attributed = match &label.file_id.package {
        Some(p) => p,
        None => package,
    };
    let mut segments: Vec<String> = Vec::new();
    segments.push(String::from_str("packages"));
    segments.push(attributed.namespace.clone());
    segments.push(attributed.name.clone());
    segments.push(render_version(&attributed.version));
    let mut rest = clone_segments(label.file_id.path.segments());
    segments.append(&mut rest);
    proof {
        assert(segments.deep_view() =~= seq!["packages"@] + package_dir_key(
            annotation_package(package.key(), diag.model().labels[0]),
        ) + diag.model().labels[0].id.path);
    }
    let path = join_segments(&segments);
    let annotation_level = match diag.severity {
        Severity::Warning => AnnotationLevel::Warning,
        Severity::Error => AnnotationLevel::Failure,
    };
    Some(
        Annotation {
            path,
            start_line: start_line + 1,
            end_line: end_line + 1,
            start_column,
            end_column,
            annotation_level,
            message: diag.message.clone(),
        },
    )
}


} // verus!
