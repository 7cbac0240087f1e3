//! Diagnostics and their ordered aggregation, including the merge of a
//! sub-job's diagnostics into a parent report under a directory-prefix
//! rewrite.

use vstd::prelude::*;

use vstd::string::StringExecFns;

use crate::ident::{FileIdentifier, IdentKey, VirtualPath};

verus! {

/// How severe a diagnostic is.
#[derive(Clone, Copy, Debug, PartialEq, Eq, Structural)]
pub enum Severity {
    Error,
    Warning,
}

/// Marks where a diagnostic applies: a file identifier and a byte range
/// within its resolved text.
#[derive(Debug)]
pub struct Label {
    pub file_id: FileIdentifier,
    pub start: usize,
    pub end: usize,
}

/// The spec-level value of a label.
pub struct LabelModel {
    pub id: IdentKey,
    pub start: usize,
    pub end: usize,
}

impl Label {
    /// The label's value.
    pub open spec fn model(self) -> LabelModel {
        LabelModel { id: self.file_id.key(), start: self.start, end: self.end }
    }

    /// Make a primary label for a byte range of a file.
    pub fn primary(file_id: FileIdentifier, start: usize, end: usize) -> (r: Label)
        ensures
            r.model() == (LabelModel { id: file_id.key(), start, end }),
    {
        Label { file_id, start, end }
    }
}

impl Clone for Label {
    fn clone(&self) -> (r: Self)
        ensures
            r.model() == self.model(),
    {
        Label { file_id: self.file_id.clone(), start: self.start, end: self.end }
    }
}

/// One diagnostic: a severity, a message, its labels (the first is the
/// primary span), free-text notes, and an optional machine-readable code.
#[derive(Debug)]
pub struct Diagnostic {
    pub severity: Severity,
    pub message: String,
    pub labels: Vec<Label>,
    pub notes: Vec<String>,
    pub code: Option<String>,
}

/// The spec-level value of a diagnostic.
pub struct DiagModel {
    pub severity: Severity,
    pub message: Seq<char>,
    pub labels: Seq<LabelModel>,
    pub notes: Seq<Seq<char>>,
    pub code: Option<Seq<char>>,
}

impl Diagnostic {
    /// The diagnostic's value.
    pub open spec fn model(self) -> DiagModel {
        DiagModel {
            severity: self.severity,
            message: self.message@,
            labels: self.labels@.map(|i: int, l: Label| l.model()),
            notes: self.notes.deep_view(),
            code: match self.code {
                Some(c) => Some(c@),
                None => None,
            },
        }
    }

    /// A fresh error diagnostic with an empty message.
    pub fn error() -> (r: Diagnostic)
        ensures
            r.model() == (DiagModel {
                severity: Severity::Error,
                message: Seq::<char>::empty(),
                labels: Seq::<LabelModel>::empty(),
                notes: Seq::<Seq<char>>::empty(),
                code: None,
            }),
    {
        let r = Diagnostic {
            severity: Severity::Error,
            message: String::new(),
            labels: Vec::new(),
            notes: Vec::new(),
            code: None,
        };
        proof {
            assert(r.model().labels =~= Seq::<LabelModel>::empty());
            assert(r.model().notes =~= Seq::<Seq<char>>::empty());
        }
        r
    }

    /// A fresh warning diagnostic with an empty message.
    pub fn warning() -> (r: Diagnostic)
        ensures
            r.model() == (DiagModel {
                severity: Severity::Warning,
                message: Seq::<char>::empty(),
                labels: Seq::<LabelModel>::empty(),
                notes: Seq::<Seq<char>>::empty(),
                code: None,
            }),
    {
        let r = Diagnostic {
            severity: Severity::Warning,
            message: String::new(),
            labels: Vec::new(),
            notes: Vec::new(),
            code: None,
        };
        proof {
            assert(r.model().labels =~= Seq::<LabelModel>::empty());
            assert(r.model().notes =~= Seq::<Seq<char>>::empty());
        }
        r
    }

    /// Replace the message.
    pub fn with_message(self, message: String) -> (r: Diagnostic)
        ensures
            r.model() == (DiagModel { message: message@, ..self.model() }),
    {
        let r = Diagnostic { message, ..self };
        proof {
            assert(r.model().labels =~= self.model().labels);
            assert(r.model().notes =~= self.model().notes);
        }
        r
    }

    /// Replace the machine-readable code.
    pub fn with_code(self, code: String) -> (r: Diagnostic)
        ensures
            r.model() == (DiagModel { code: Some(code@), ..self.model() }),
    {
        let r = Diagnostic { code: Some(code), ..self };
        proof {
            assert(r.model().labels =~= self.model().labels);
            assert(r.model().notes =~= self.model().notes);
        }
        r
    }

    /// Append one label.
    pub fn with_label(self, label: Label) -> (r: Diagnostic)
        ensures
            r.model() == (DiagModel {
                labels: self.model().labels.push(label.model()),
                ..self.model()
            }),
    {
        let mut labels = self.labels;
        let ghost pre = labels@.map(|i: int, l: Label| l.model());
        labels.push(label);
        let r = Diagnostic { labels, ..self };
        proof {
            assert(r.model().labels =~= pre.push(label.model()));
            assert(r.model().notes =~= self.model().notes);
        }
        r
    }

    /// Replace the labels.
    pub fn with_labels(self, labels: Vec<Label>) -> (r: Diagnostic)
        ensures
            r.model() == (DiagModel {
                labels: labels@.map(|i: int, l: Label| l.model()),
                ..self.model()
            }),
    {
        let r = Diagnostic { labels, ..self };
        proof {
            assert(r.model().notes =~= self.model().notes);
        }
        r
    }
}

impl Clone for Diagnostic {
    fn clone(&self) -> (r: Self)
        ensures
            r.model() == self.model(),
    {
        let mut labels: Vec<Label> = Vec::new();
        let mut i: usize = 0;
        while i < self.labels.len()
            invariant
                i <= self.labels@.len(),
                labels@.map(|j: int, l: Label| l.model()) == self.labels@.map(
                    |j: int, l: Label| l.model(),
                ).take(i as int),
            decreases self.labels@.len() - i,
        {
            let ghost pre = labels@.map(|j: int, l: Label| l.model());
            labels.push(self.labels[i].clone());
            proof {
                assert(labels@.map(|j: int, l: Label| l.model()) =~= pre.push(
                    self.labels@[i as int].model(),
                ));
                assert(labels@.map(|j: int, l: Label| l.model()) =~= self.labels@.map(
                    |j: int, l: Label| l.model(),
                ).take(i + 1 as int));
            }
            i += 1;
        }
        let mut notes: Vec<String> = Vec::new();
        let mut j: usize = 0;
        while j < self.notes.len()
            invariant
                j <= self.notes@.len(),
                notes.deep_view() == self.notes.deep_view().take(j as int),
            decreases self.notes@.len() - j,
        {
            let ghost pre = notes.deep_view();
            notes.push(self.notes[j].clone());
            proof {
                assert(notes.deep_view() =~= pre.push(self.notes@[j as int]@));
                assert(notes.deep_view() =~= self.notes.deep_view().take(j + 1 as int));
            }
            j += 1;
        }
        let code = match &self.code {
            Some(c) => Some(c.clone()),
            None => None,
        };
        let r = Diagnostic {
            severity: self.severity,
            message: self.message.clone(),
            labels,
            notes,
            code,
        };
        proof {
            assert(self.labels@.map(|j: int, l: Label| l.model()).take(
                self.labels@.len() as int,
            ) =~= self.labels@.map(|j: int, l: Label| l.model()));
            assert(self.notes.deep_view().take(self.notes@.len() as int)
                =~= self.notes.deep_view());
        }
        r
    }
}

/// The errors among a list of diagnostics, in order.
pub open spec fn errors_of(ds: Seq<DiagModel>) -> Seq<DiagModel>
    decreases ds.len(),
{
    if ds.len() == 0 {
        Seq::empty()
    } else {
        errors_of(ds.drop_last()) + if ds.last().severity == Severity::Warning {
            Seq::empty()
        } else {
            seq![ds.last()]
        }
    }
}

/// The warnings among a list of diagnostics, in order.
pub open spec fn warnings_of(ds: Seq<DiagModel>) -> Seq<DiagModel>
    decreases ds.len(),
{
    if ds.len() == 0 {
        Seq::empty()
    } else {
        warnings_of(ds.drop_last()) + if ds.last().severity == Severity::Warning {
            seq![ds.last()]
        } else {
            Seq::empty()
        }
    }
}

/// One label after a directory-prefix rewrite: a project-local identifier
/// has the prefix prepended to its path; one that carries a package
/// reference refers to a different package's files and is left untouched.
pub open spec fn reprefix_label(prefix: Seq<Seq<char>>, l: LabelModel) -> LabelModel {
    if l.id.package is None {
        LabelModel {
            id: IdentKey { package: None, path: prefix + l.id.path },
            start: l.start,
            end: l.end,
        }
    } else {
        l
    }
}

/// One diagnostic after a directory-prefix rewrite of all its labels.
pub open spec fn reprefix_diag(prefix: Seq<Seq<char>>, d: DiagModel) -> DiagModel {
    DiagModel { labels: d.labels.map(|i: int, l: LabelModel| reprefix_label(prefix, l)), ..d }
}

/// Two ordered sequences of diagnostics, errors and warnings, each in
/// emission order.
#[derive(Debug)]
pub struct Diagnostics {
    warnings: Vec<Diagnostic>,
    errors: Vec<Diagnostic>,
}

impl Diagnostics {
    /// The errors, in emission order.
    pub closed spec fn spec_errors(self) -> Seq<DiagModel> {
        self.errors@.map(|i: int, d: Diagnostic| d.model())
    }

    /// The warnings, in emission order.
    pub closed spec fn spec_warnings(self) -> Seq<DiagModel> {
        self.warnings@.map(|i: int, d: Diagnostic| d.model())
    }

    /// An empty set of diagnostics.
    pub fn new() -> (r: Diagnostics)
        ensures
            r.spec_errors() == Seq::<DiagModel>::empty(),
            r.spec_warnings() == Seq::<DiagModel>::empty(),
    {
        let r = Diagnostics { warnings: Vec::new(), errors: Vec::new() };
        proof {
            assert(r.spec_errors() =~= Seq::<DiagModel>::empty());
            assert(r.spec_warnings() =~= Seq::<DiagModel>::empty());
        }
        r
    }

    /// Append a diagnostic to the errors or the warnings, according to its
    /// severity; emission order is preserved.
    pub fn emit(&mut self, d: Diagnostic)
        ensures
            d.model().severity == Severity::Warning ==> final(self).spec_warnings() == old(self).spec_warnings().push(d.model()) && final(self).spec_errors() == old(self).spec_errors(),
            d.model().severity != Severity::Warning ==> final(self).spec_errors() == old(self).spec_errors().push(d.model()) && final(self).spec_warnings() == old(self).spec_warnings(),
    {
        let ghost ep = self.spec_errors();
        let ghost wp = self.spec_warnings();
        let is_warning = match d.severity {
            Severity::Warning => true,
            Severity::Error => false,
        };
        if is_warning {
            self.warnings.push(d);
            proof {
                assert(self.spec_warnings() =~= wp.push(d.model()));
                assert(self.spec_errors() =~= ep);
            }
        } else {
            self.errors.push(d);
            proof {
                assert(self.spec_errors() =~= ep.push(d.model()));
                assert(self.spec_warnings() =~= wp);
            }
        }
    }

    /// Emit the error of a failed computation; a successful one emits
    /// nothing.
    pub fn maybe_emit<T>(&mut self, maybe_err: Result<T, Diagnostic>)
        ensures
            match maybe_err {
                Ok(_) => final(self).spec_errors() == old(self).spec_errors() && final(self).spec_warnings() == old(self).spec_warnings(),
                Err(e) => {
                    &&& e.model().severity == Severity::Warning ==> final(self).spec_warnings()
                        == old(self).spec_warnings().push(e.model()) && final(self).spec_errors()
                        == old(self).spec_errors()
                    &&& e.model().severity != Severity::Warning ==> final(self).spec_errors()
                        == old(self).spec_errors().push(e.model()) && final(self).spec_warnings()
                        == old(self).spec_warnings()
                },
            },
    {
        if let Err(e) = maybe_err {
            self.emit(e);
        }
    }

    /// Emit every diagnostic of a list, in order.
    pub fn emit_many(&mut self, ds: Vec<Diagnostic>)
        ensures
            final(self).spec_errors() == old(self).spec_errors() + errors_of(
                ds@.map(|i: int, d: Diagnostic| d.model()),
            ),
            final(self).spec_warnings() == old(self).spec_warnings() + warnings_of(
                ds@.map(|i: int, d: Diagnostic| d.model()),
            ),
    {
        let ghost all = ds@.map(|i: int, d: Diagnostic| d.model());
        let mut ds = ds;
        let n_all = ds.len();
        proof {
            assert(all.len() == n_all);
        }
        let mut i: usize = 0;
        while ds.len() > 0
            invariant
                all.len() <= usize::MAX,
                i + ds@.len() == all.len(),
                ds@.map(|j: int, d: Diagnostic| d.model()) == all.skip(i as int),
                self.spec_errors() == old(self).spec_errors() + errors_of(all.take(i as int)),
                self.spec_warnings() == old(self).spec_warnings() + warnings_of(
                    all.take(i as int),
                ),
            decreases ds@.len(),
        {
            let ghost dsm = ds@.map(|j: int, d: Diagnostic| d.model());
            let d = ds.remove(0);
            proof {
                assert(ds@.map(|j: int, d2: Diagnostic| d2.model()) =~= dsm.drop_first());
                assert(dsm.drop_first() =~= all.skip(i + 1 as int));
                assert(d.model() == dsm[0]);
                assert(dsm[0] == all[i as int]);
                assert(all.take(i + 1 as int).drop_last() =~= all.take(i as int));
                assert(all.take(i + 1 as int).last() == all[i as int]);
            }
            self.emit(d);
            proof {
                assert(self.spec_errors() =~= old(self).spec_errors() + errors_of(
                    all.take(i + 1 as int),
                ));
                assert(self.spec_warnings() =~= old(self).spec_warnings() + warnings_of(
                    all.take(i + 1 as int),
                ));
            }
            i += 1;
        }
        proof {
            assert(all.take(i as int) =~= all);
        }
    }

    /// Merge a sub-job's diagnostics into this set: every diagnostic whose
    /// labels address project-local files has those paths re-rooted under
    /// the directory prefix; diagnostics addressing another package's files
    /// are appended unchanged.
    pub fn extend(&mut self, other: Diagnostics, dir_prefix: &VirtualPath)
        ensures
            final(self).spec_errors() == old(self).spec_errors() + other.spec_errors().map(
                |i: int, d: DiagModel| reprefix_diag(dir_prefix@, d),
            ),
            final(self).spec_warnings() == old(self).spec_warnings() + other.spec_warnings().map(
                |i: int, d: DiagModel| reprefix_diag(dir_prefix@, d),
            ),
    {
        let Diagnostics { warnings, errors } = other;
        let ghost oe = errors@.map(|i: int, d: Diagnostic| d.model());
        let ghost ow = warnings@.map(|i: int, d: Diagnostic| d.model());
        let mut errors = errors;
        let n_err = errors.len();
        proof {
            assert(oe.len() == n_err);
        }
        let mut i: usize = 0;
        while errors.len() > 0
            invariant
                oe.len() <= usize::MAX,
                i + errors@.len() == oe.len(),
                errors@.map(|j: int, d: Diagnostic| d.model()) == oe.skip(i as int),
                self.spec_errors() == old(self).spec_errors() + oe.take(i as int).map(
                    |j: int, d: DiagModel| reprefix_diag(dir_prefix@, d),
                ),
                self.spec_warnings() == old(self).spec_warnings(),
            decreases errors@.len(),
        {
            let ghost esm = errors@.map(|j: int, d: Diagnostic| d.model());
            let d = errors.remove(0);
            proof {
                assert(errors@.map(|j: int, d2: Diagnostic| d2.model()) =~= esm.drop_first());
                assert(esm.drop_first() =~= oe.skip(i + 1 as int));
                assert(d.model() == esm[0]);
                assert(esm[0] == oe[i as int]);
            }
            let ghost epre = self.spec_errors();
            let d2 = reprefix(d, dir_prefix);
            self.errors.push(d2);
            proof {
                assert(self.spec_errors() =~= epre.push(reprefix_diag(dir_prefix@, oe[i as int])));
                assert(self.spec_errors() =~= old(self).spec_errors() + oe.take(i + 1 as int).map(
                    |j: int, dd: DiagModel| reprefix_diag(dir_prefix@, dd),
                ));
                assert(self.spec_warnings() == old(self).spec_warnings());
            }
            i += 1;
        }
        proof {
            assert(oe.take(i as int) =~= oe);
        }
        let mut warnings = warnings;
        let n_warn = warnings.len();
        proof {
            assert(ow.len() == n_warn);
        }
        let mut j: usize = 0;
        while warnings.len() > 0
            invariant
                ow.len() <= usize::MAX,
                j + warnings@.len() == ow.len(),
                warnings@.map(|m: int, d: Diagnostic| d.model()) == ow.skip(j as int),
                self.spec_warnings() == old(self).spec_warnings() + ow.take(j as int).map(
                    |m: int, d: DiagModel| reprefix_diag(dir_prefix@, d),
                ),
                self.spec_errors() == old(self).spec_errors() + oe.map(
                    |m: int, d: DiagModel| reprefix_diag(dir_prefix@, d),
                ),
            decreases warnings@.len(),
        {
            let ghost wsm = warnings@.map(|m: int, d: Diagnostic| d.model());
            let d = warnings.remove(0);
            proof {
                assert(warnings@.map(|m: int, d2: Diagnostic| d2.model()) =~= wsm.drop_first());
                assert(wsm.drop_first() =~= ow.skip(j + 1 as int));
                assert(d.model() == wsm[0]);
                assert(wsm[0] == ow[j as int]);
            }
            let ghost wpre = self.spec_warnings();
            let d2 = reprefix(d, dir_prefix);
            self.warnings.push(d2);
            proof {
                assert(self.spec_warnings() =~= wpre.push(
                    reprefix_diag(dir_prefix@, ow[j as int]),
                ));
                assert(self.spec_warnings() =~= old(self).spec_warnings() + ow.take(
                    j + 1 as int,
                ).map(|m: int, dd: DiagModel| reprefix_diag(dir_prefix@, dd)));
            }
            j += 1;
        }
        proof {
            assert(ow.take(j as int) =~= ow);
        }
    }

    /// The errors, in emission order.
    pub fn errors(&self) -> (r: &Vec<Diagnostic>)
        ensures
            r@.map(|i: int, d: Diagnostic| d.model()) == self.spec_errors(),
    {
        &self.errors
    }

    /// The warnings, in emission order.
    pub fn warnings(&self) -> (r: &Vec<Diagnostic>)
        ensures
            r@.map(|i: int, d: Diagnostic| d.model()) == self.spec_warnings(),
    {
        &self.warnings
    }
}

impl Default for Diagnostics {
    fn default() -> (r: Diagnostics)
        ensures
            r.spec_errors() == Seq::<DiagModel>::empty(),
            r.spec_warnings() == Seq::<DiagModel>::empty(),
    {
        Diagnostics::new()
    }
}

/// Rewrite one diagnostic's labels under a directory prefix.
fn reprefix(d: Diagnostic, dir_prefix: &VirtualPath) -> (r: Diagnostic)
    ensures
        r.model() == reprefix_diag(dir_prefix@, d.model()),
{
    let Diagnostic { severity, message, labels, notes, code } = d;
    let ghost lm = labels@.map(|i: int, l: Label| l.model());
    let mut labels = labels;
    let n_lab = labels.len();
    proof {
        assert(lm.len() == n_lab);
    }
    let mut out: Vec<Label> = Vec::new();
    let mut i: usize = 0;
    while labels.len() > 0
        invariant
            lm.len() <= usize::MAX,
            i + labels@.len() == lm.len(),
            labels@.map(|j: int, l: Label| l.model()) == lm.skip(i as int),
            out@.map(|j: int, l: Label| l.model()) == lm.take(i as int).map(
                |j: int, l: LabelModel| reprefix_label(dir_prefix@, l),
            ),
        decreases labels@.len(),
    {
        let ghost lsm = labels@.map(|j: int, l: Label| l.model());
        let l = labels.remove(0);
        proof {
            assert(labels@.map(|j: int, l2: Label| l2.model()) =~= lsm.drop_first());
            assert(lsm.drop_first() =~= lm.skip(i + 1 as int));
            assert(l.model() == lsm[0]);
            assert(lsm[0] == lm[i as int]);
        }
        let ghost opre = out@.map(|j: int, l2: Label| l2.model());
        let l2 = match &l.file_id.package {
            None => Label {
                file_id: FileIdentifier {
                    package: None,
                    path: l.file_id.path.prepend(dir_prefix),
                },
                start: l.start,
                end: l.end,
            },
            Some(_) => l,
        };
        proof {
            assert(l2.model() == reprefix_label(dir_prefix@, lm[i as int]));
        }
        out.push(l2);
        proof {
            assert(out@.map(|j: int, l3: Label| l3.model()) =~= opre.push(
                reprefix_label(dir_prefix@, lm[i as int]),
            ));
            assert(out@.map(|j: int, l3: Label| l3.model()) =~= lm.take(i + 1 as int).map(
                |j: int, l3: LabelModel| reprefix_label(dir_prefix@, l3),
            ));
        }
        i += 1;
    }
    proof {
        assert(lm.take(i as int) =~= lm);
    }
    let r = Diagnostic { severity, message, labels: out, notes, code };
    proof {
        assert(r.model().labels =~= lm.map(|j: int, l3: LabelModel| reprefix_label(dir_prefix@, l3)));
        assert(r.model().notes =~= r.model().notes);
        assert(r.model() == reprefix_diag(dir_prefix@, DiagModel {
            severity,
            message: message@,
            labels: lm,
            notes: notes.deep_view(),
            code: match code {
                Some(c) => Some(c@),
                None => None,
            },
        }));
    }
    r
}

/// A raw diagnostic as the compiler frontend emits it: a severity, a
/// message, an optional primary span, and free-text hints.
#[derive(Debug)]
pub struct RawDiagnostic {
    pub severity: Severity,
    pub message: String,
    pub span: Option<Label>,
    pub hints: Vec<String>,
}

/// The spec-level value of a raw frontend diagnostic.
pub struct RawModel {
    pub severity: Severity,
    pub message: Seq<char>,
    pub span: Option<LabelModel>,
    pub hints: Seq<Seq<char>>,
}

impl RawDiagnostic {
    /// The raw diagnostic's value.
    pub open spec fn model(self) -> RawModel {
        RawModel {
            severity: self.severity,
            message: self.message@,
            span: match self.span {
                Some(l) => Some(l.model()),
                None => None,
            },
            hints: self.hints.deep_view(),
        }
    }
}

/// The word a severity prints as.
pub open spec fn severity_word(s: Severity) -> Seq<char> {
    if s == Severity::Error {
        "error"@
    } else {
        "warning"@
    }
}

/// Only complaints about unknown font families are kept from a compiler
/// run: fonts are the one compilation aspect this registry reports on.
pub open spec fn kept_from_compiler(d: RawModel) -> bool {
    "unknown font family:"@.is_prefix_of(d.message)
}

/// One frontend diagnostic converted to an aggregator entry: the message
/// is attributed to the compiler, and the primary span becomes the one
/// label.
pub open spec fn convert_model(d: RawModel) -> DiagModel {
    DiagModel {
        severity: d.severity,
        message: "The following "@ + severity_word(d.severity)
            + " was reported by the Typst compiler: "@ + d.message,
        labels: match d.span {
            Some(l) => seq![l],
            None => Seq::empty(),
        },
        notes: Seq::empty(),
        code: None,
    }
}

/// The aggregator entries a list of frontend diagnostics contributes, in
/// order.
pub open spec fn converted_list(ds: Seq<RawModel>) -> Seq<DiagModel>
    decreases ds.len(),
{
    if ds.len() == 0 {
        Seq::empty()
    } else {
        converted_list(ds.drop_last()) + if kept_from_compiler(ds.last()) {
            seq![convert_model(ds.last())]
        } else {
            Seq::empty()
        }
    }
}

/// Convert the diagnostics of one compiler run into aggregator entries,
/// keeping only the font complaints and attributing each to the compiler.
pub fn convert_diagnostics(raw: Vec<RawDiagnostic>) -> (r: Vec<Diagnostic>)
    ensures
        r@.map(|i: int, d: Diagnostic| d.model()) == converted_list(
            raw@.map(|i: int, d: RawDiagnostic| d.model()),
        ),
{
    let ghost all = raw@.map(|i: int, d: RawDiagnostic| d.model());
    let mut raw = raw;
    let n_all = raw.len();
    proof {
        assert(all.len() == n_all);
    }
    let mut out: Vec<Diagnostic> = Vec::new();
    let mut i: usize = 0;
    while raw.len() > 0
        invariant
            all.len() <= usize::MAX,
            i + raw@.len() == all.len(),
            raw@.map(|j: int, d: RawDiagnostic| d.model()) == all.skip(i as int),
            out@.map(|j: int, d: Diagnostic| d.model()) == converted_list(all.take(i as int)),
        decreases raw@.len(),
    {
        let ghost rsm = raw@.map(|j: int, d: RawDiagnostic| d.model());
        let d = raw.remove(0);
        proof {
            assert(raw@.map(|j: int, d2: RawDiagnostic| d2.model()) =~= rsm.drop_first());
            assert(rsm.drop_first() =~= all.skip(i + 1 as int));
            assert(d.model() == rsm[0]);
            assert(rsm[0] == all[i as int]);
            assert(all.take(i + 1 as int).drop_last() =~= all.take(i as int));
            assert(all.take(i + 1 as int).last() == all[i as int]);
        }
        let ghost opre = out@.map(|j: int, d2: Diagnostic| d2.model());
        if crate::strings::str_starts_with(d.message.as_str(), "unknown font family:") {
            let mut message = String::from_str("The following ");
            let word = match d.severity {
                Severity::Error => "error",
                Severity::Warning => "warning",
            };
            message.append(word);
            message.append(" was reported by the Typst compiler: ");
            message.append(d.message.as_str());
            let labels: Vec<Label> = match d.span {
                Some(l) => vec![l],
                None => Vec::new(),
            };
            let converted = Diagnostic {
                severity: d.severity,
                message,
                labels,
                notes: Vec::new(),
                code: None,
            };
            proof {
                assert(converted.model().labels =~= convert_model(all[i as int]).labels);
                assert(converted.model().notes =~= Seq::<Seq<char>>::empty());
                assert(converted.model() == convert_model(all[i as int]));
            }
            out.push(converted);
            proof {
                assert(out@.map(|j: int, d2: Diagnostic| d2.model()) =~= opre.push(
                    convert_model(all[i as int]),
                ));
                assert(out@.map(|j: int, d2: Diagnostic| d2.model()) =~= converted_list(
                    all.take(i + 1 as int),
                ));
            }
        } else {
            proof {
                assert(converted_list(all.take(i + 1 as int)) =~= converted_list(
                    all.take(i as int),
                ));
            }
        }
        i += 1;
    }
    proof {
        assert(all.take(i as int) =~= all);
    }
    out
}

/// Prefix rewrite scoping: merging under a directory prefix rewrites only
/// labels that carry no package reference; a label with a package reference
/// is copied unchanged, and nothing else of the diagnostic changes.
pub proof fn lemma_prefix_rewrite_scoping(prefix: Seq<Seq<char>>, d: DiagModel, i: int)
    requires
        0 <= i < d.labels.len(),
    ensures
        reprefix_diag(prefix, d).labels.len() == d.labels.len(),
        reprefix_diag(prefix, d).severity == d.severity,
        reprefix_diag(prefix, d).message == d.message,
        reprefix_diag(prefix, d).notes == d.notes,
        reprefix_diag(prefix, d).code == d.code,
        d.labels[i].id.package is Some ==> reprefix_diag(prefix, d).labels[i] == d.labels[i],
        d.labels[i].id.package is None ==> reprefix_diag(prefix, d).labels[i] == (LabelModel {
            id: IdentKey { package: None, path: prefix + d.labels[i].id.path },
            start: d.labels[i].start,
            end: d.labels[i].end,
        }),
{
}

/// Lift a failure into an error diagnostic with a machine-readable code and
/// a message.
pub trait TryExt<T>: Sized {
    /// The success value, if this computation has one.
    spec fn spec_ok(self) -> Option<T>;

    /// Turn a failure into an error diagnostic carrying `code` and
    /// `message`; a success is passed through.
    fn error(self, code: &str, message: &str) -> (r: Result<T, Diagnostic>)
        ensures
            match self.spec_ok() {
                Some(t) => r matches Ok(v) && v == t,
                None => r matches Err(d) && d.model() == (DiagModel {
                    severity: Severity::Error,
                    message: message@,
                    labels: Seq::<LabelModel>::empty(),
                    notes: Seq::<Seq<char>>::empty(),
                    code: Some(code@),
                }),
            },
    ;
}

impl<T, E> TryExt<T> for Result<T, E> {
    open spec fn spec_ok(self) -> Option<T> {
        match self {
            Ok(t) => Some(t),
            Err(_) => None,
        }
    }

    fn error(self, code: &str, message: &str) -> (r: Result<T, Diagnostic>)
    {
        match self {
            Ok(t) => Ok(t),
            Err(_) => Err(
                Diagnostic::error().with_message(String::from_str(message)).with_code(
                    String::from_str(code),
                ),
            ),
        }
    }
}

impl<T> TryExt<T> for Option<T> {
    open spec fn spec_ok(self) -> Option<T> {
        self
    }

    fn error(self, code: &str, message: &str) -> (r: Result<T, Diagnostic>)
    {
        match self {
            Some(t) => Ok(t),
            None => Err(
                Diagnostic::error().with_message(String::from_str(message)).with_code(
                    String::from_str(code),
                ),
            ),
        }
    }
}

} // verus!
