//! The resolution context of one check job: root paths, package override,
//! exclusion filter, provisioned package roots, and the per-identifier slot
//! cache of decoded text and raw bytes.

use vstd::prelude::*;

use crate::error::{FileError, MapError, PackageError};
use crate::exclude::{empty_exclude, glob_ignores, override_globs, override_is_ignored};
use crate::ident::{
    clone_segments, FileIdentifier, IdentKey, PackageKey, PackageReference, VirtualPath,
};
use crate::resolve::{expect_parents, render_version, spec_expect_parents, version_chars};
use crate::store::{copy_bytes, FileStore};
use crate::strings::{bytes_eq, join_path, join_segments};
use crate::text::{
    column_of, is_char_start, line_end, line_of, line_start, spec_decode, Text,
};

verus! {

/// An error that occurs during world construction.
#[derive(Clone, Copy, Debug, PartialEq, Eq, Structural)]
pub enum WorldCreationError {
    /// The input file is not contained within the root folder.
    InputOutsideRoot,
}

/// The state of one projection of a slot: the cached decode result, the
/// last-seen load result that stands for its fingerprint, and whether the
/// projection was accessed in the current pass.
pub struct CellModel {
    pub data: Option<Result<Seq<u8>, FileError>>,
    pub last_load: Option<Result<Seq<u8>, FileError>>,
    pub accessed: bool,
}

impl CellModel {
    /// A projection that was never loaded.
    pub open spec fn empty() -> CellModel {
        CellModel { data: None, last_load: None, accessed: false }
    }
}

/// The state of one slot: its identifier, its two projections, and the
/// line shift of a virtual slot (0 for ordinary files).
pub struct SlotModel {
    pub id: IdentKey,
    pub source: CellModel,
    pub file: CellModel,
    pub line_shift: usize,
}

impl SlotModel {
    /// A fresh slot for an identifier.
    pub open spec fn empty(id: IdentKey) -> SlotModel {
        SlotModel { id, source: CellModel::empty(), file: CellModel::empty(), line_shift: 0 }
    }
}

/// First-match lookup of a slot by identifier key.
pub open spec fn assoc_slot(models: Seq<SlotModel>, k: IdentKey) -> Option<SlotModel>
    decreases models.len(),
{
    if models.len() == 0 {
        None
    } else if models[0].id == k {
        Some(models[0])
    } else {
        assoc_slot(models.drop_first(), k)
    }
}

/// First-match lookup of a provisioned package root.
pub open spec fn assoc_pkg(s: Seq<(PackageKey, Seq<Seq<char>>)>, p: PackageKey) -> Option<
    Seq<Seq<char>>,
>
    decreases s.len(),
{
    if s.len() == 0 {
        None
    } else if s[0].0 == p {
        Some(s[0].1)
    } else {
        assoc_pkg(s.drop_first(), p)
    }
}

/// The view of a load result.
pub open spec fn load_view(r: Result<Vec<u8>, FileError>) -> Result<Seq<u8>, FileError> {
    match r {
        Ok(b) => Ok(b@),
        Err(e) => Err(e),
    }
}

/// The view of a cached text result.
pub open spec fn text_view(r: Result<Text, FileError>) -> Result<Seq<u8>, FileError> {
    match r {
        Ok(t) => Ok(t@),
        Err(e) => Err(e),
    }
}

/// The cached, lazily loaded and decoded source text of a file.
struct TextCell {
    data: Option<Result<Text, FileError>>,
    last_load: Option<Result<Vec<u8>, FileError>>,
    accessed: bool,
}

impl TextCell {
    spec fn model(self) -> CellModel {
        CellModel {
            data: match self.data {
                Some(r) => Some(text_view(r)),
                None => None,
            },
            last_load: match self.last_load {
                Some(r) => Some(load_view(r)),
                None => None,
            },
            accessed: self.accessed,
        }
    }

    fn new() -> (r: TextCell)
        ensures
            r.model() == CellModel::empty(),
    {
        TextCell { data: None, last_load: None, accessed: false }
    }
}

/// The cached, lazily loaded raw bytes of a file.
struct BytesCell {
    data: Option<Result<Vec<u8>, FileError>>,
    last_load: Option<Result<Vec<u8>, FileError>>,
    accessed: bool,
}

impl BytesCell {
    spec fn model(self) -> CellModel {
        CellModel {
            data: match self.data {
                Some(r) => Some(load_view(r)),
                None => None,
            },
            last_load: match self.last_load {
                Some(r) => Some(load_view(r)),
                None => None,
            },
            accessed: self.accessed,
        }
    }

    fn new() -> (r: BytesCell)
        ensures
            r.model() == CellModel::empty(),
    {
        BytesCell { data: None, last_load: None, accessed: false }
    }
}

/// The cache entry for one file identifier: both projections can be
/// populated when the file is both imported and read as raw bytes.
pub struct FileSlot {
    id: FileIdentifier,
    source: TextCell,
    file: BytesCell,
    line_shift: usize,
}

impl FileSlot {
    /// The slot's state.
    pub closed spec fn model(self) -> SlotModel {
        SlotModel {
            id: self.id.key(),
            source: self.source.model(),
            file: self.file.model(),
            line_shift: self.line_shift,
        }
    }

    fn new(id: FileIdentifier) -> (r: FileSlot)
        ensures
            r.model() == SlotModel::empty(id.key()),
    {
        FileSlot { id, source: TextCell::new(), file: BytesCell::new(), line_shift: 0 }
    }
}

/// A saturating counter bump.
pub open spec fn bumped(n: u64) -> u64 {
    if n == u64::MAX {
        u64::MAX
    } else {
        (n + 1) as u64
    }
}

/// One resolution context per check job. It owns the project root, the
/// optional package override, the provisioned package roots, the exclusion
/// filter, and the slot cache; the backing store is passed to each request.
pub struct SystemWorld {
    /// The root relative to which project-local paths are resolved.
    root: Vec<String>,
    /// The input file.
    main: FileIdentifier,
    /// Substitutes a specific package reference with a known local
    /// directory.
    package_override: Option<(PackageReference, Vec<String>)>,
    /// Package roots established by the provisioner for this job.
    packages: Vec<(PackageReference, Vec<String>)>,
    /// Files that are considered excluded and must not be read from.
    excluded: ignore::overrides::Override,
    /// Maps file identifiers to cached source files and byte buffers.
    slots: Vec<FileSlot>,
    /// The current instant if requested, stored so that it is always the
    /// same within one job.
    now_epoch: Option<i64>,
}

impl SystemWorld {
    /// The project root, as path segments.
    pub closed spec fn spec_root(self) -> Seq<Seq<char>> {
        self.root.deep_view()
    }

    /// The identifier of the input file.
    pub closed spec fn spec_main(self) -> IdentKey {
        self.main.key()
    }

    /// The package override, if any.
    pub closed spec fn spec_override(self) -> Option<(PackageKey, Seq<Seq<char>>)> {
        match self.package_override {
            Some(o) => Some((o.0.key(), o.1.deep_view())),
            None => None,
        }
    }

    /// The provisioned package roots, newest first.
    pub closed spec fn spec_packages(self) -> Seq<(PackageKey, Seq<Seq<char>>)> {
        self.packages@.map(|i: int, e: (PackageReference, Vec<String>)| (e.0.key(), e.1.deep_view()))
    }

    /// The glob lines of the exclusion filter.
    pub closed spec fn spec_globs(self) -> Seq<Seq<char>> {
        override_globs(self.excluded)
    }

    /// The cached current instant, if one was requested.
    pub closed spec fn spec_now(self) -> Option<i64> {
        self.now_epoch
    }

    /// The states of all slots, in insertion order.
    pub closed spec fn slot_models(self) -> Seq<SlotModel> {
        self.slots@.map(|i: int, s: FileSlot| s.model())
    }

    /// The state of the slot of an identifier, if one exists.
    pub open spec fn slot_for(self, k: IdentKey) -> Option<SlotModel> {
        assoc_slot(self.slot_models(), k)
    }

    /// The line shift that coordinate mapping applies for an identifier.
    pub open spec fn spec_line_shift(self, k: IdentKey) -> usize {
        match self.slot_for(k) {
            Some(m) => m.line_shift,
            None => 0,
        }
    }

    /// Where an identifier resolves: the physical path obtained by joining
    /// its virtual path onto the root its package part selects, or the
    /// error resolution fails with.
    ///
    /// A project-local identifier resolves below the project root, subject
    /// to the exclusion filter. One that names the override package
    /// resolves below the override directory, not subject to exclusion.
    /// Otherwise the ancestor-name walk recognizes the package currently
    /// being checked (its canonical directory is the project root itself,
    /// so exclusion applies), and failing that, a provisioned root is used.
    pub open spec fn spec_resolve(self, k: IdentKey) -> Result<Seq<Seq<char>>, FileError> {
        match k.package {
            Some(p) => {
                if self.spec_override() is Some && (self.spec_override()->0).0 == p {
                    Ok((self.spec_override()->0).1 + k.path)
                } else {
                    let parents = seq![version_chars(p.version), p.name, p.namespace];
                    match spec_expect_parents(self.spec_root(), parents) {
                        Some(above) => {
                            if glob_ignores(self.spec_globs(), join_path(k.path), false) {
                                Err(FileError::Excluded)
                            } else {
                                Ok(
                                    above + seq![p.namespace, p.name, version_chars(p.version)]
                                        + k.path,
                                )
                            }
                        },
                        None => match assoc_pkg(self.spec_packages(), p) {
                            Some(d) => Ok(d + k.path),
                            None => Err(FileError::Package(PackageError::NotFound)),
                        },
                    }
                }
            },
            None => {
                if glob_ignores(self.spec_globs(), join_path(k.path), false) {
                    Err(FileError::Excluded)
                } else {
                    Ok(self.spec_root() + k.path)
                }
            },
        }
    }

    /// What loading an identifier from the backing store yields.
    pub open spec fn spec_load(self, store: FileStore, k: IdentKey) -> Result<Seq<u8>, FileError> {
        match self.spec_resolve(k) {
            Ok(p) => match store.contents(p) {
                Some(b) => Ok(b),
                None => Err(FileError::NotFound),
            },
            Err(e) => Err(e),
        }
    }
}

/// The slot's projection was already accessed in this pass and holds a
/// value: it is returned as is, without any backing read.
pub open spec fn cell_hit(m: Option<SlotModel>, c: CellModel) -> bool {
    m is Some && c.accessed && c.data is Some
}

/// The backing bytes are unchanged since the last load: the cached value is
/// reused without re-decoding.
pub open spec fn cell_reuse(
    m: Option<SlotModel>,
    c: CellModel,
    load: Result<Seq<u8>, FileError>,
) -> bool {
    m is Some && c.data is Some && c.last_load == Some(load)
}

impl SystemWorld {
    /// The source cell of an identifier's slot, or an empty one.
    pub open spec fn source_cell(self, k: IdentKey) -> CellModel {
        match self.slot_for(k) {
            Some(m) => m.source,
            None => CellModel::empty(),
        }
    }

    /// The file cell of an identifier's slot, or an empty one.
    pub open spec fn file_cell(self, k: IdentKey) -> CellModel {
        match self.slot_for(k) {
            Some(m) => m.file,
            None => CellModel::empty(),
        }
    }

    /// What a source request returns: the cached text when the slot was
    /// already accessed this pass, the cached text when the fresh load
    /// equals the last one, and a fresh decode of the loaded bytes
    /// otherwise.
    pub open spec fn spec_source_result(self, store: FileStore, k: IdentKey) -> Result<
        Seq<u8>,
        FileError,
    > {
        let m = self.slot_for(k);
        let c = self.source_cell(k);
        if cell_hit(m, c) {
            c.data->0
        } else {
            let load = self.spec_load(store, k);
            if cell_reuse(m, c, load) {
                c.data->0
            } else {
                match load {
                    Ok(b) => spec_decode(b),
                    Err(e) => Err(e),
                }
            }
        }
    }

    /// What a raw-bytes request returns, in the same way, with no decode
    /// step.
    pub open spec fn spec_file_result(self, store: FileStore, k: IdentKey) -> Result<
        Seq<u8>,
        FileError,
    > {
        let m = self.slot_for(k);
        let c = self.file_cell(k);
        if cell_hit(m, c) {
            c.data->0
        } else {
            let load = self.spec_load(store, k);
            if cell_reuse(m, c, load) {
                c.data->0
            } else {
                load
            }
        }
    }

    /// What a virtual-source request returns, with the supplied bytes in
    /// place of a backing read.
    pub open spec fn spec_virtual_result(self, k: IdentKey, bytes: Seq<u8>) -> Result<
        Seq<u8>,
        FileError,
    > {
        let m = self.slot_for(k);
        let c = self.source_cell(k);
        if cell_hit(m, c) {
            c.data->0
        } else if cell_reuse(m, c, Ok(bytes)) {
            c.data->0
        } else {
            spec_decode(bytes)
        }
    }
}

/// The context fields of the world are read-only after construction: no
/// request changes them.
pub open spec fn ctx_unchanged(pre: SystemWorld, post: SystemWorld) -> bool {
    &&& post.spec_root() == pre.spec_root()
    &&& post.spec_now() == pre.spec_now()
    &&& post.spec_main() == pre.spec_main()
    &&& post.spec_override() == pre.spec_override()
    &&& post.spec_packages() == pre.spec_packages()
    &&& post.spec_globs() == pre.spec_globs()
}

/// The full effect of a source request on the world and the store.
pub open spec fn source_step(
    pre: SystemWorld,
    prestore: FileStore,
    id: FileIdentifier,
    post: SystemWorld,
    poststore: FileStore,
) -> bool {
    let k = id.key();
    let m0 = pre.slot_for(k);
    let c0 = pre.source_cell(k);
    let load = pre.spec_load(prestore, k);
    let res = pre.spec_source_result(prestore, k);
    &&& ctx_unchanged(pre, post)
    &&& (forall|q: IdentKey| q != k ==> #[trigger] post.slot_for(q) == pre.slot_for(q))
    &&& (post.slot_for(k) matches Some(sm1) && {
        &&& sm1.id == k
        &&& sm1.file == pre.file_cell(k)
        &&& sm1.line_shift == pre.spec_line_shift(k)
        &&& sm1.source.accessed
        &&& sm1.source.data == Some(res)
        &&& (if cell_hit(m0, c0) {
            sm1.source.last_load == c0.last_load
        } else if cell_reuse(m0, c0, load) {
            sm1.source.last_load == c0.last_load
        } else {
            sm1.source.last_load == Some(load)
        })
    })
    &&& poststore.entries_model() == prestore.entries_model()
    &&& poststore.spec_reads() == (if !cell_hit(pre.slot_for(k), pre.source_cell(k))
        && pre.spec_resolve(k) is Ok {
        bumped(prestore.spec_reads())
    } else {
        prestore.spec_reads()
    })
}

/// The full effect of a raw-bytes request on the world and the store.
pub open spec fn file_step(
    pre: SystemWorld,
    prestore: FileStore,
    id: FileIdentifier,
    post: SystemWorld,
    poststore: FileStore,
) -> bool {
    let k = id.key();
    let m0 = pre.slot_for(k);
    let c0 = pre.file_cell(k);
    let load = pre.spec_load(prestore, k);
    let res = pre.spec_file_result(prestore, k);
    &&& ctx_unchanged(pre, post)
    &&& (forall|q: IdentKey| q != k ==> #[trigger] post.slot_for(q) == pre.slot_for(q))
    &&& (post.slot_for(k) matches Some(sm1) && {
        &&& sm1.id == k
        &&& sm1.source == pre.source_cell(k)
        &&& sm1.line_shift == pre.spec_line_shift(k)
        &&& sm1.file.accessed
        &&& sm1.file.data == Some(res)
        &&& (if cell_hit(m0, c0) || cell_reuse(m0, c0, load) {
            sm1.file.last_load == c0.last_load
        } else {
            sm1.file.last_load == Some(load)
        })
    })
    &&& poststore.entries_model() == prestore.entries_model()
    &&& poststore.spec_reads() == (if !cell_hit(pre.slot_for(k), pre.file_cell(k))
        && pre.spec_resolve(k) is Ok {
        bumped(prestore.spec_reads())
    } else {
        prestore.spec_reads()
    })
}

/// The full effect of registering or re-reading a virtual source.
pub open spec fn virtual_step(
    pre: SystemWorld,
    id: FileIdentifier,
    bytes: Seq<u8>,
    line_shift: usize,
    post: SystemWorld,
) -> bool {
    let k = id.key();
    let m0 = pre.slot_for(k);
    let c0 = pre.source_cell(k);
    let res = pre.spec_virtual_result(k, bytes);
    &&& ctx_unchanged(pre, post)
    &&& (forall|q: IdentKey| q != k ==> #[trigger] post.slot_for(q) == pre.slot_for(q))
    &&& (post.slot_for(k) matches Some(sm1) && {
        &&& sm1.id == k
        &&& sm1.file == pre.file_cell(k)
        &&& sm1.line_shift == line_shift
        &&& sm1.source.accessed
        &&& sm1.source.data == Some(res)
        &&& (if cell_hit(m0, c0) || cell_reuse(m0, c0, Ok(bytes)) {
            sm1.source.last_load == c0.last_load
        } else {
            sm1.source.last_load == Some(Ok::<Seq<u8>, FileError>(bytes))
        })
    })
}

/// Looking up a slot list that was updated at `idx`, keeping the same
/// identifier, finds the update under that identifier and is otherwise
/// unchanged.
proof fn lemma_assoc_slot_update_frame(models: Seq<SlotModel>, idx: int, m2: SlotModel, q: IdentKey)
    requires
        0 <= idx < models.len(),
        m2.id == models[idx].id,
        q != models[idx].id,
    ensures
        assoc_slot(models.update(idx, m2), q) == assoc_slot(models, q),
    decreases models.len(),
{
    if idx == 0 {
        assert(models.update(0, m2).drop_first() =~= models.drop_first());
    } else {
        assert(models.update(idx, m2).drop_first() =~= models.drop_first().update(idx - 1, m2));
        lemma_assoc_slot_update_frame(models.drop_first(), idx - 1, m2, q);
    }
}

/// The first match at `idx` determines the lookup.
proof fn lemma_assoc_slot_at(models: Seq<SlotModel>, k: IdentKey, idx: int)
    requires
        0 <= idx < models.len(),
        models[idx].id == k,
        forall|j: int| 0 <= j < idx ==> #[trigger] models[j].id != k,
    ensures
        assoc_slot(models, k) == Some(models[idx]),
    decreases idx,
{
    if idx > 0 {
        lemma_assoc_slot_at(models.drop_first(), k, idx - 1);
    }
}

/// A lookup that misses every entry misses the list.
proof fn lemma_assoc_slot_none(models: Seq<SlotModel>, k: IdentKey)
    requires
        forall|j: int| 0 <= j < models.len() ==> #[trigger] models[j].id != k,
    ensures
        assoc_slot(models, k) is None,
    decreases models.len(),
{
    if models.len() > 0 {
        lemma_assoc_slot_none(models.drop_first(), k);
    }
}

/// Appending a slot leaves every present identifier's lookup unchanged and
/// adds the new one.
proof fn lemma_assoc_slot_push(models: Seq<SlotModel>, m: SlotModel, q: IdentKey)
    ensures
        assoc_slot(models.push(m), q) == match assoc_slot(models, q) {
            Some(x) => Some(x),
            None => if m.id == q {
                Some(m)
            } else {
                None
            },
        },
    decreases models.len(),
{
    if models.len() == 0 {
        assert(assoc_slot(models, q) is None);
        assert(models.push(m)[0] == m);
        assert(models.push(m).drop_first() =~= Seq::<SlotModel>::empty());
    } else {
        assert(models.push(m)[0] == models[0]);
        assert(models.push(m).drop_first() =~= models.drop_first().push(m));
        lemma_assoc_slot_push(models.drop_first(), m, q);
    }
}

/// A lookup that misses has no matching entry.
proof fn lemma_assoc_slot_none_inv(models: Seq<SlotModel>, k: IdentKey)
    requires
        assoc_slot(models, k) is None,
    ensures
        forall|j: int| 0 <= j < models.len() ==> #[trigger] models[j].id != k,
    decreases models.len(),
{
    if models.len() > 0 {
        lemma_assoc_slot_none_inv(models.drop_first(), k);
        assert forall|j: int| 0 <= j < models.len() implies #[trigger] models[j].id != k by {
            if j > 0 {
                assert(models.drop_first()[j - 1] == models[j]);
            }
        }
    }
}

/// First-match lookup of a provisioned root at its witness index.
proof fn lemma_assoc_pkg_at(s: Seq<(PackageKey, Seq<Seq<char>>)>, p: PackageKey, idx: int)
    requires
        0 <= idx < s.len(),
        s[idx].0 == p,
        forall|j: int| 0 <= j < idx ==> #[trigger] s[j].0 != p,
    ensures
        assoc_pkg(s, p) == Some(s[idx].1),
    decreases idx,
{
    if idx > 0 {
        lemma_assoc_pkg_at(s.drop_first(), p, idx - 1);
    }
}

/// A provisioned-root lookup that misses every entry misses the list.
proof fn lemma_assoc_pkg_none(s: Seq<(PackageKey, Seq<Seq<char>>)>, p: PackageKey)
    requires
        forall|j: int| 0 <= j < s.len() ==> #[trigger] s[j].0 != p,
    ensures
        assoc_pkg(s, p) is None,
    decreases s.len(),
{
    if s.len() > 0 {
        lemma_assoc_pkg_none(s.drop_first(), p);
    }
}

impl SystemWorld {
    /// Create a new world for a check job. The input file must lie within
    /// the project root; its root-relative remainder becomes the main
    /// file's identifier.
    pub fn new(input: Vec<String>, root: Vec<String>) -> (r: Result<SystemWorld, WorldCreationError>)
        ensures
            match r {
                Ok(w) => {
                    &&& root.deep_view().is_prefix_of(input.deep_view())
                    &&& w.spec_root() == root.deep_view()
                    &&& w.spec_main() == (IdentKey {
                        package: None,
                        path: crate::ident::normalize(
                            input.deep_view().skip(root.deep_view().len() as int),
                        ),
                    })
                    &&& w.spec_override() is None
                    &&& w.spec_packages() == Seq::<(PackageKey, Seq<Seq<char>>)>::empty()
                    &&& w.slot_models() == Seq::<SlotModel>::empty()
                    &&& w.spec_globs() == Seq::<Seq<char>>::empty()
                    &&& w.spec_now() is None
                    &&& forall|p: Seq<char>, d: bool| !glob_ignores(w.spec_globs(), p, d)
                },
                Err(e) => {
                    &&& e == WorldCreationError::InputOutsideRoot
                    &&& !root.deep_view().is_prefix_of(input.deep_view())
                },
            },
    {
        if input.len() < root.len() {
            assert(!root.deep_view().is_prefix_of(input.deep_view()));
            return Err(WorldCreationError::InputOutsideRoot);
        }
        let mut i: usize = 0;
        while i < root.len()
            invariant
                i <= root@.len() <= input@.len(),
                forall|j: int| 0 <= j < i ==> root.deep_view()[j] == input.deep_view()[j],
            decreases root@.len() - i,
        {
            let same = root[i] == input[i];
            if !same {
                assert(root.deep_view()[i as int] != input.deep_view()[i as int]);
                assert(!root.deep_view().is_prefix_of(input.deep_view()));
                return Err(WorldCreationError::InputOutsideRoot);
            }
            i += 1;
        }
        assert(root.deep_view().is_prefix_of(input.deep_view())) by {
            assert(input.deep_view().subrange(0, root.deep_view().len() as int) =~= root.deep_view());
        }
        let mut rest: Vec<String> = Vec::new();
        let mut j: usize = root.len();
        while j < input.len()
            invariant
                root@.len() <= j <= input@.len(),
                rest.deep_view() == input.deep_view().subrange(root.deep_view().len() as int, j as int),
            decreases input@.len() - j,
        {
            let ghost pre = rest.deep_view();
            rest.push(input[j].clone());
            assert(rest.deep_view() =~= pre.push(input.deep_view()[j as int]));
            assert(rest.deep_view() =~= input.deep_view().subrange(
                root.deep_view().len() as int,
                j + 1 as int,
            ));
            j += 1;
        }
        assert(rest.deep_view() =~= input.deep_view().skip(root.deep_view().len() as int));
        let main = FileIdentifier::new(None, VirtualPath::new(rest));
        let w = SystemWorld {
            root,
            main,
            package_override: None,
            packages: Vec::new(),
            excluded: empty_exclude(),
            slots: Vec::new(),
            now_epoch: None,
        };
        proof {
            assert(w.spec_packages() =~= Seq::<(PackageKey, Seq<Seq<char>>)>::empty());
            assert(w.slot_models() =~= Seq::<SlotModel>::empty());
        }
        Ok(w)
    }

    /// Substitute one package reference with an already-known local
    /// directory.
    pub fn with_package_override(self, spec_ref: &PackageReference, dir: &Vec<String>) -> (r:
        SystemWorld)
        ensures
            r.spec_override() == Some((spec_ref.key(), dir.deep_view())),
            r.spec_root() == self.spec_root(),
            r.spec_main() == self.spec_main(),
            r.spec_packages() == self.spec_packages(),
            r.spec_globs() == self.spec_globs(),
            r.slot_models() == self.slot_models(),
    {
        SystemWorld { package_override: Some((spec_ref.clone(), clone_segments(dir))), ..self }
    }

    /// The root relative to which project-local paths are resolved.
    pub fn root(&self) -> (r: &Vec<String>)
        ensures
            r.deep_view() == self.spec_root(),
    {
        &self.root
    }

    /// The identifier of the input file.
    pub fn main(&self) -> (r: &FileIdentifier)
        ensures
            r.key() == self.spec_main(),
    {
        &self.main
    }

    /// Replace the exclusion filter. Clearing it lets a later reporting
    /// pass re-read files that were excluded from compilation.
    pub fn exclude(&mut self, globs: ignore::overrides::Override)
        ensures
            final(self).spec_globs() == override_globs(globs),
            final(self).spec_root() == old(self).spec_root(),
            final(self).spec_main() == old(self).spec_main(),
            final(self).spec_override() == old(self).spec_override(),
            final(self).spec_packages() == old(self).spec_packages(),
            final(self).slot_models() == old(self).slot_models(),
    {
        self.excluded = globs;
    }

    /// Record a provisioned package root for this job.
    pub fn add_package_root(&mut self, spec_ref: &PackageReference, dir: &Vec<String>)
        ensures
            final(self).spec_packages() == seq![(spec_ref.key(), dir.deep_view())]
                + old(self).spec_packages(),
            final(self).spec_root() == old(self).spec_root(),
            final(self).spec_main() == old(self).spec_main(),
            final(self).spec_override() == old(self).spec_override(),
            final(self).spec_globs() == old(self).spec_globs(),
            final(self).slot_models() == old(self).slot_models(),
    {
        let ghost oldm = self.spec_packages();
        self.packages.insert(0, (spec_ref.clone(), clone_segments(dir)));
        proof {
            assert(self.spec_packages().drop_first() =~= oldm);
            assert(self.spec_packages() =~= seq![(spec_ref.key(), dir.deep_view())] + oldm);
        }
    }

    /// Resolve the physical path of a file identifier within this context,
    /// applying the override, the ancestor-name walk, the provisioned
    /// roots, and the exclusion filter.
    pub fn resolve(&self, id: &FileIdentifier) -> (r: Result<Vec<String>, FileError>)
        ensures
            match r {
                Ok(p) => self.spec_resolve(id.key()) == Ok::<Seq<Seq<char>>, FileError>(
                    p.deep_view(),
                ),
                Err(e) => self.spec_resolve(id.key()) == Err::<Seq<Seq<char>>, FileError>(e),
            },
    {
        match &id.package {
            Some(p) => {
                if let Some(o) = &self.package_override {
                    let matches_override = &o.0 == p;
                    if matches_override {
                        let mut out = clone_segments(&o.1);
                        let mut path = clone_segments(id.path.segments());
                        out.append(&mut path);
                        proof {
                            assert(out.deep_view() =~= (self.spec_override()->0).1
                                + id.key().path);
                        }
                        return Ok(out);
                    }
                }
                let mut parents: Vec<String> = Vec::new();
                parents.push(render_version(&p.version));
                parents.push(p.name.clone());
                parents.push(p.namespace.clone());
                proof {
                    assert(parents.deep_view() =~= seq![
                        version_chars(p.version),
                        p.name@,
                        p.namespace@,
                    ]);
                }
                match expect_parents(&self.root, &parents) {
                    Some(above) => {
                        let rel = join_segments(id.path.segments());
                        if override_is_ignored(&self.excluded, rel.as_str(), false) {
                            Err(FileError::Excluded)
                        } else {
                            let mut out = above;
                            out.push(p.namespace.clone());
                            out.push(p.name.clone());
                            out.push(render_version(&p.version));
                            let mut path = clone_segments(id.path.segments());
                            out.append(&mut path);
                            proof {
                                let pk = id.key().package->0;
                                assert(out.deep_view() =~= spec_expect_parents(
                                    self.spec_root(),
                                    seq![version_chars(pk.version), pk.name, pk.namespace],
                                )->0 + seq![pk.namespace, pk.name, version_chars(pk.version)]
                                    + id.key().path);
                            }
                            Ok(out)
                        }
                    },
                    None => {
                        let mut i: usize = 0;
                        while i < self.packages.len()
                            invariant
                                i <= self.packages@.len(),
                                id.package == Some(*p),
                                !(self.spec_override() is Some && (self.spec_override()->0).0
                                    == p.key()),
                                spec_expect_parents(
                                    self.spec_root(),
                                    seq![version_chars(p.version), p.name@, p.namespace@],
                                ) is None,
                                forall|j: int|
                                    0 <= j < i ==> #[trigger] self.spec_packages()[j].0
                                        != id.key().package->0,
                            decreases self.packages@.len() - i,
                        {
                            let found = &self.packages[i].0 == p;
                            proof {
                                assert(self.spec_packages()[i as int].0 == self.packages@[i as int].0.key());
                                assert(id.key().package == Some(p.key()));
                            }
                            if found {
                                let mut out = clone_segments(&self.packages[i].1);
                                let mut path = clone_segments(id.path.segments());
                                out.append(&mut path);
                                proof {
                                    lemma_assoc_pkg_at(
                                        self.spec_packages(),
                                        id.key().package->0,
                                        i as int,
                                    );
                                    assert(out.deep_view() =~= self.spec_packages()[i as int].1
                                        + id.key().path);
                                }
                                return Ok(out);
                            }
                            i += 1;
                        }
                        proof {
                            lemma_assoc_pkg_none(self.spec_packages(), id.key().package->0);
                        }
                        Err(FileError::Package(PackageError::NotFound))
                    },
                }
            },
            None => {
                let rel = join_segments(id.path.segments());
                if override_is_ignored(&self.excluded, rel.as_str(), false) {
                    Err(FileError::Excluded)
                } else {
                    let mut out = clone_segments(&self.root);
                    let mut path = clone_segments(id.path.segments());
                    out.append(&mut path);
                    proof {
                        assert(out.deep_view() =~= self.spec_root() + id.key().path);
                    }
                    Ok(out)
                }
            },
        }
    }

    /// Find the index of an identifier's slot.
    fn find_slot(&self, id: &FileIdentifier) -> (r: Option<usize>)
        ensures
            match r {
                Some(i) => {
                    &&& i < self.slot_models().len()
                    &&& self.slot_models()[i as int].id == id.key()
                    &&& forall|j: int|
                        0 <= j < i ==> #[trigger] self.slot_models()[j].id != id.key()
                    &&& self.slot_for(id.key()) == Some(self.slot_models()[i as int])
                },
                None => self.slot_for(id.key()) is None,
            },
    {
        let mut i: usize = 0;
        while i < self.slots.len()
            invariant
                i <= self.slots@.len(),
                forall|j: int| 0 <= j < i ==> #[trigger] self.slot_models()[j].id != id.key(),
            decreases self.slots@.len() - i,
        {
            let same = &self.slots[i].id == id;
            if same {
                proof {
                    lemma_assoc_slot_at(self.slot_models(), id.key(), i as int);
                }
                return Some(i);
            }
            i += 1;
        }
        proof {
            lemma_assoc_slot_none(self.slot_models(), id.key());
        }
        None
    }

    /// Find or create the slot of an identifier, returning its index.
    fn ensure_slot(&mut self, id: &FileIdentifier) -> (idx: usize)
        ensures
            ctx_unchanged(*old(self), *final(self)),
            idx < final(self).slot_models().len(),
            final(self).slot_models()[idx as int].id == id.key(),
            forall|j: int|
                0 <= j < idx ==> #[trigger] final(self).slot_models()[j].id != id.key(),
            final(self).slot_for(id.key()) == Some(final(self).slot_models()[idx as int]),
            final(self).slot_models()[idx as int] == match old(self).slot_for(id.key()) {
                Some(m) => m,
                None => SlotModel::empty(id.key()),
            },
            forall|q: IdentKey|
                q != id.key() ==> #[trigger] final(self).slot_for(q) == old(self).slot_for(q),
            final(self).slot_models() == old(self).slot_models() || final(self).slot_models()
                == old(self).slot_models().push(SlotModel::empty(id.key())),
    {
        match self.find_slot(id) {
            Some(i) => i,
            None => {
                let ghost oldm = self.slot_models();
                proof {
                    lemma_assoc_slot_none_inv(oldm, id.key());
                }
                self.slots.push(FileSlot::new(id.clone()));
                let idx = self.slots.len() - 1;
                proof {
                    assert(self.slot_models() =~= oldm.push(SlotModel::empty(id.key())));
                    lemma_assoc_slot_at(self.slot_models(), id.key(), idx as int);
                    assert forall|q: IdentKey| q != id.key() implies #[trigger] self.slot_for(q)
                        == assoc_slot(oldm, q) by {
                        lemma_assoc_slot_push(oldm, SlotModel::empty(id.key()), q);
                    }
                }
                idx
            },
        }
    }
}

/// Compare two load results: byte-wise on success, by error kind on
/// failure.
fn load_result_eq(a: &Result<Vec<u8>, FileError>, b: &Result<Vec<u8>, FileError>) -> (r: bool)
    ensures
        r == (load_view(*a) == load_view(*b)),
{
    match (a, b) {
        (Ok(x), Ok(y)) => bytes_eq(x, y),
        (Err(x), Err(y)) => x == y,
        _ => false,
    }
}

/// Clone a cached text result.
fn clone_text_result(r: &Result<Text, FileError>) -> (o: Result<Text, FileError>)
    ensures
        text_view(o) == text_view(*r),
{
    match r {
        Ok(t) => Ok(t.clone()),
        Err(e) => Err(*e),
    }
}

/// Clone a load result.
fn clone_load_result(r: &Result<Vec<u8>, FileError>) -> (o: Result<Vec<u8>, FileError>)
    ensures
        load_view(o) == load_view(*r),
{
    match r {
        Ok(b) => Ok(copy_bytes(b)),
        Err(e) => Err(*e),
    }
}

impl SystemWorld {
    /// Look up the decoded source text of a file identifier.
    ///
    /// The slot cache decides what is returned: a slot already accessed in
    /// this pass yields its cached value without a backing read; otherwise
    /// the identifier is resolved and read, and the cached value is reused
    /// when the loaded bytes equal the last-seen load, or decoded afresh
    /// when they differ.
    pub fn source(&mut self, store: &mut FileStore, id: &FileIdentifier) -> (r: Result<
        Text,
        FileError,
    >)
        ensures
            source_step(*old(self), *old(store), *id, *final(self), *final(store)),
            match r {
                Ok(t) => old(self).spec_source_result(*old(store), id.key()) == Ok::<
                    Seq<u8>,
                    FileError,
                >(t@),
                Err(e) => old(self).spec_source_result(*old(store), id.key()) == Err::<
                    Seq<u8>,
                    FileError,
                >(e),
            },
    {
        let ghost k = id.key();
        let ghost pre = *self;
        let idx = self.ensure_slot(id);
        let ghost mid = *self;
        if self.slots[idx].source.accessed && self.slots[idx].source.data.is_some() {
            let cached = clone_text_result(self.slots[idx].source.data.as_ref().unwrap());
            proof {
                assert(pre.slot_for(k) is Some);
                assert(mid.slot_models()[idx as int] == pre.slot_for(k)->0);
                assert(cell_hit(pre.slot_for(k), pre.source_cell(k)));
            }
            return cached;
        }
        let load: Result<Vec<u8>, FileError> = match self.resolve(id) {
            Ok(p) => store.read(&p),
            Err(e) => Err(e),
        };
        proof {
            assert(mid.spec_resolve(k) == pre.spec_resolve(k));
            assert(load_view(load) == pre.spec_load(*old(store), k));
        }
        let slot = &mut self.slots[idx];
        slot.source.accessed = true;
        let can_reuse = slot.source.data.is_some() && match &slot.source.last_load {
            Some(prev) => load_result_eq(prev, &load),
            None => false,
        };
        if can_reuse {
            let cached = clone_text_result(slot.source.data.as_ref().unwrap());
            proof {
                slot_update_common(pre, mid, *self, k, idx as int);
            }
            return cached;
        }
        let decoded: Result<Text, FileError> = match &load {
            Ok(b) => Text::decode(b),
            Err(e) => Err(*e),
        };
        let out = clone_text_result(&decoded);
        slot.source.data = Some(decoded);
        slot.source.last_load = Some(load);
        proof {
            slot_update_common(pre, mid, *self, k, idx as int);
        }
        out
    }

    /// Look up the raw bytes of a file identifier, cached in the same way
    /// as the text projection but with no decode step.
    pub fn file(&mut self, store: &mut FileStore, id: &FileIdentifier) -> (r: Result<
        Vec<u8>,
        FileError,
    >)
        ensures
            file_step(*old(self), *old(store), *id, *final(self), *final(store)),
            match r {
                Ok(b) => old(self).spec_file_result(*old(store), id.key()) == Ok::<
                    Seq<u8>,
                    FileError,
                >(b@),
                Err(e) => old(self).spec_file_result(*old(store), id.key()) == Err::<
                    Seq<u8>,
                    FileError,
                >(e),
            },
    {
        let ghost k = id.key();
        let ghost pre = *self;
        let idx = self.ensure_slot(id);
        let ghost mid = *self;
        if self.slots[idx].file.accessed && self.slots[idx].file.data.is_some() {
            let cached = clone_load_result(self.slots[idx].file.data.as_ref().unwrap());
            proof {
                assert(pre.slot_for(k) is Some);
                assert(mid.slot_models()[idx as int] == pre.slot_for(k)->0);
                assert(cell_hit(pre.slot_for(k), pre.file_cell(k)));
            }
            return cached;
        }
        let load: Result<Vec<u8>, FileError> = match self.resolve(id) {
            Ok(p) => store.read(&p),
            Err(e) => Err(e),
        };
        proof {
            assert(mid.spec_resolve(k) == pre.spec_resolve(k));
            assert(load_view(load) == pre.spec_load(*old(store), k));
        }
        let slot = &mut self.slots[idx];
        slot.file.accessed = true;
        let can_reuse = slot.file.data.is_some() && match &slot.file.last_load {
            Some(prev) => load_result_eq(prev, &load),
            None => false,
        };
        if can_reuse {
            let cached = clone_load_result(slot.file.data.as_ref().unwrap());
            proof {
                slot_update_common(pre, mid, *self, k, idx as int);
            }
            return cached;
        }
        let stored = clone_load_result(&load);
        let out = clone_load_result(&load);
        slot.file.data = Some(stored);
        slot.file.last_load = Some(load);
        proof {
            slot_update_common(pre, mid, *self, k, idx as int);
        }
        out
    }

    /// Register synthetic content for an identifier, not backed by storage,
    /// with a line shift for coordinate remapping, and return its decoded
    /// text. The supplied bytes stand in for the backing read, so the cache
    /// reuse rules apply to them unchanged.
    pub fn virtual_source(&mut self, id: &FileIdentifier, src: &Vec<u8>, line_shift: usize) -> (r:
        Result<Text, FileError>)
        ensures
            virtual_step(*old(self), *id, src@, line_shift, *final(self)),
            match r {
                Ok(t) => old(self).spec_virtual_result(id.key(), src@) == Ok::<Seq<u8>, FileError>(
                    t@,
                ),
                Err(e) => old(self).spec_virtual_result(id.key(), src@) == Err::<
                    Seq<u8>,
                    FileError,
                >(e),
            },
    {
        let ghost k = id.key();
        let ghost pre = *self;
        let idx = self.ensure_slot(id);
        let ghost mid = *self;
        let slot = &mut self.slots[idx];
        slot.line_shift = line_shift;
        if slot.source.accessed && slot.source.data.is_some() {
            let cached = clone_text_result(slot.source.data.as_ref().unwrap());
            proof {
                slot_update_common(pre, mid, *self, k, idx as int);
            }
            return cached;
        }
        let load: Result<Vec<u8>, FileError> = Ok(copy_bytes(src));
        slot.source.accessed = true;
        let can_reuse = slot.source.data.is_some() && match &slot.source.last_load {
            Some(prev) => load_result_eq(prev, &load),
            None => false,
        };
        if can_reuse {
            let cached = clone_text_result(slot.source.data.as_ref().unwrap());
            proof {
                slot_update_common(pre, mid, *self, k, idx as int);
            }
            return cached;
        }
        let decoded: Result<Text, FileError> = match &load {
            Ok(b) => Text::decode(b),
            Err(e) => Err(*e),
        };
        let out = clone_text_result(&decoded);
        slot.source.data = Some(decoded);
        slot.source.last_load = Some(load);
        proof {
            slot_update_common(pre, mid, *self, k, idx as int);
        }
        out
    }

    /// Look up a source file by identifier.
    pub fn lookup(&mut self, store: &mut FileStore, id: &FileIdentifier) -> (r: Result<
        Text,
        FileError,
    >)
        ensures
            source_step(*old(self), *old(store), *id, *final(self), *final(store)),
            match r {
                Ok(t) => old(self).spec_source_result(*old(store), id.key()) == Ok::<
                    Seq<u8>,
                    FileError,
                >(t@),
                Err(e) => old(self).spec_source_result(*old(store), id.key()) == Err::<
                    Seq<u8>,
                    FileError,
                >(e),
            },
    {
        self.source(store, id)
    }

    /// The line shift registered for an identifier: 0 for ordinary files.
    pub fn virtual_line(&self, id: &FileIdentifier) -> (r: usize)
        ensures
            r == self.spec_line_shift(id.key()),
    {
        match self.find_slot(id) {
            Some(i) => self.slots[i].line_shift,
            None => 0,
        }
    }

    /// The current date under the given UTC offset in hours, or under the
    /// machine's local time zone when no offset is given.
    ///
    /// The instant is queried once per job and then fixed, so every request
    /// within one compilation sees the same date. An offset of a day or
    /// more cannot name a time zone and yields nothing.
    pub fn today(&mut self, offset: Option<i64>) -> (r: Option<crate::today::Date>)
        ensures
            final(self).spec_now() is Some,
            old(self).spec_now() is Some ==> final(self).spec_now() == old(self).spec_now(),
            final(self).spec_root() == old(self).spec_root(),
            final(self).spec_main() == old(self).spec_main(),
            final(self).spec_override() == old(self).spec_override(),
            final(self).spec_packages() == old(self).spec_packages(),
            final(self).spec_globs() == old(self).spec_globs(),
            final(self).slot_models() == old(self).slot_models(),
            match offset {
                Some(hours) => {
                    if -23 <= hours <= 23 {
                        r == Some(
                            crate::today::spec_today(
                                final(self).spec_now()->0 as int,
                                hours * 3600,
                            ),
                        )
                    } else {
                        r is None
                    }
                },
                None => exists|loc: int|
                    -86400 < loc < 86400 && r == Some(
                        crate::today::spec_today(final(self).spec_now()->0 as int, loc),
                    ),
            },
    {
        let now = match self.now_epoch {
            Some(n) => n,
            None => {
                let n = crate::today::utc_now_epoch();
                self.now_epoch = Some(n);
                n
            },
        };
        match offset {
            Some(hours) => {
                if -23 <= hours && hours <= 23 {
                    let secs: i32 = (hours as i32) * 3600;
                    Some(crate::today::civil_of(now, secs))
                } else {
                    None
                }
            },
            None => {
                let loc = crate::today::local_offset_seconds();
                let d = crate::today::civil_of(now, loc);
                proof {
                    assert((loc as int) > -86400 && (loc as int) < 86400);
                    assert(d == crate::today::spec_today(self.spec_now()->0 as int, loc as int));
                }
                Some(d)
            },
        }
    }

    /// Begin a new pass: every slot's accessed-this-pass flag is cleared,
    /// so the next request per identifier performs a backing read again,
    /// while the cached values and their change detectors are kept.
    pub fn reset(&mut self)
        ensures
            ctx_unchanged(*old(self), *final(self)),
            final(self).slot_models().len() == old(self).slot_models().len(),
            forall|j: int|
                0 <= j < old(self).slot_models().len() ==> #[trigger] final(self).slot_models()[j]
                    == reset_model(old(self).slot_models()[j]),
    {
        let n = self.slots.len();
        let mut i: usize = 0;
        while i < n
            invariant
                i <= n,
                n == self.slots@.len(),
                ctx_unchanged(*old(self), *self),
                self.slot_models().len() == old(self).slot_models().len(),
                forall|j: int|
                    0 <= j < i ==> #[trigger] self.slot_models()[j] == reset_model(
                        old(self).slot_models()[j],
                    ),
                forall|j: int|
                    i <= j < n ==> #[trigger] self.slot_models()[j] == old(self).slot_models()[j],
            decreases n - i,
        {
            let ghost prev = self.slot_models();
            let slot = &mut self.slots[i];
            slot.source.accessed = false;
            slot.file.accessed = false;
            proof {
                assert(self.slot_models() =~= prev.update(
                    i as int,
                    self.slot_models()[i as int],
                ));
                assert(self.slot_models()[i as int] == reset_model(prev[i as int]));
            }
            i += 1;
        }
    }
}

impl SystemWorld {
    /// The 0-indexed line of a byte offset within a resolved text, with the
    /// slot's line shift added, so that a fragment embedded at line `n` of
    /// its host reports host coordinates.
    ///
    /// A missing or unreadable file is unreadable; an offset past the end
    /// of the text, or a shifted line beyond the machine's range, is out of
    /// range.
    pub fn line_index(&mut self, store: &mut FileStore, id: &FileIdentifier, given: usize) -> (r:
        Result<usize, MapError>)
        ensures
            source_step(*old(self), *old(store), *id, *final(self), *final(store)),
            ({
                let res = old(self).spec_source_result(*old(store), id.key());
                let shift = old(self).spec_line_shift(id.key());
                match res {
                    Ok(b) => {
                        if given > b.len() {
                            r == Err::<usize, MapError>(MapError::OutOfRange)
                        } else if line_of(b, given as int) + shift > usize::MAX {
                            r == Err::<usize, MapError>(MapError::OutOfRange)
                        } else {
                            r == Ok::<usize, MapError>((line_of(b, given as int) + shift) as usize)
                        }
                    },
                    Err(_) => r == Err::<usize, MapError>(MapError::Unreadable),
                }
            }),
    {
        match self.source(store, id) {
            Ok(t) => {
                let shift = self.virtual_line(id);
                proof {
                    assert(old(self).spec_source_result(*old(store), id.key())
                        == Ok::<Seq<u8>, FileError>(t@));
                    assert(shift == old(self).spec_line_shift(id.key()));
                    if given <= t@.len() {
                        crate::text::lemma_line_of_bounds(t@, given as int);
                    }
                }
                match t.byte_to_line(given) {
                    Ok(line) => {
                        if line <= usize::MAX - shift {
                            Ok(line + shift)
                        } else {
                            Err(MapError::OutOfRange)
                        }
                    },
                    Err(_) => Err(MapError::OutOfRange),
                }
            },
            Err(_) => Err(MapError::Unreadable),
        }
    }

    /// The byte range of a 0-indexed line given in the host coordinate
    /// space: the slot's line shift is subtracted before the text's own
    /// lines are consulted.
    pub fn line_range(&mut self, store: &mut FileStore, id: &FileIdentifier, given: usize) -> (r:
        Result<(usize, usize), MapError>)
        ensures
            source_step(*old(self), *old(store), *id, *final(self), *final(store)),
            ({
                let res = old(self).spec_source_result(*old(store), id.key());
                let shift = old(self).spec_line_shift(id.key());
                match res {
                    Ok(b) => {
                        if given < shift {
                            r == Err::<(usize, usize), MapError>(MapError::OutOfRange)
                        } else if given - shift > line_of(b, b.len() as int) {
                            r == Err::<(usize, usize), MapError>(MapError::OutOfRange)
                        } else {
                            r matches Ok(p) && p.0 == line_start(b, given - shift) && p.1
                                == line_end(b, given - shift)
                        }
                    },
                    Err(_) => r == Err::<(usize, usize), MapError>(MapError::Unreadable),
                }
            }),
    {
        match self.source(store, id) {
            Ok(t) => {
                let shift = self.virtual_line(id);
                if given < shift {
                    return Err(MapError::OutOfRange);
                }
                match t.line_to_range(given - shift) {
                    Ok(p) => Ok(p),
                    Err(_) => Err(MapError::OutOfRange),
                }
            },
            Err(_) => Err(MapError::Unreadable),
        }
    }

    /// The 0-indexed column of a byte offset within a resolved text: the
    /// number of characters between the start of its line and the offset.
    /// Columns are not shifted for virtual slots.
    pub fn column_number(&mut self, store: &mut FileStore, id: &FileIdentifier, given: usize) -> (r:
        Result<usize, MapError>)
        ensures
            source_step(*old(self), *old(store), *id, *final(self), *final(store)),
            ({
                let res = old(self).spec_source_result(*old(store), id.key());
                match res {
                    Ok(b) => {
                        if given > b.len() {
                            r == Err::<usize, MapError>(MapError::OutOfRange)
                        } else if !(given == b.len() || is_char_start(b[given as int])) {
                            r == Err::<usize, MapError>(MapError::InvalidBoundary)
                        } else {
                            r == Ok::<usize, MapError>(column_of(b, given as int) as usize)
                        }
                    },
                    Err(_) => r == Err::<usize, MapError>(MapError::Unreadable),
                }
            }),
    {
        match self.source(store, id) {
            Ok(t) => t.byte_to_column(given),
            Err(_) => Err(MapError::Unreadable),
        }
    }
}

/// The worlds of one check job: the package under test, and the bundled
/// template sub-project when the manifest declares one.
pub struct Worlds {
    pub package: SystemWorld,
    pub template: Option<SystemWorld>,
}

/// For a fixed context, resolution is a single value: repeated resolutions
/// of one identifier within one job return the same physical path.
pub proof fn lemma_resolve_idempotent(
    w: SystemWorld,
    k: IdentKey,
    r1: Result<Seq<Seq<char>>, FileError>,
    r2: Result<Seq<Seq<char>>, FileError>,
)
    requires
        r1 == w.spec_resolve(k),
        r2 == w.spec_resolve(k),
    ensures
        r1 == r2,
{
}

/// No source request changes what any identifier resolves to: the context
/// fields resolution reads are read-only for the whole job.
pub proof fn lemma_resolution_stable(
    pre: SystemWorld,
    prestore: FileStore,
    id: FileIdentifier,
    post: SystemWorld,
    poststore: FileStore,
    k: IdentKey,
)
    requires
        source_step(pre, prestore, id, post, poststore),
    ensures
        post.spec_resolve(k) == pre.spec_resolve(k),
{
}

/// After one source request, a repeated request on the same identifier is a
/// cache hit: it returns the same text, keeps the same line shift, and
/// leaves the world and the store unchanged in every observable way.
pub proof fn lemma_source_hit_after_step(
    pre: SystemWorld,
    prestore: FileStore,
    post: SystemWorld,
    poststore: FileStore,
    id: FileIdentifier,
)
    requires
        source_step(pre, prestore, id, post, poststore),
    ensures
        cell_hit(post.slot_for(id.key()), post.source_cell(id.key())),
        post.spec_source_result(poststore, id.key()) == pre.spec_source_result(
            prestore,
            id.key(),
        ),
        post.spec_line_shift(id.key()) == pre.spec_line_shift(id.key()),
{
}

/// Cache reuse: of two source requests on one identifier within one pass,
/// the second performs no backing read and returns the first one's value.
pub proof fn lemma_cache_reuse(
    pre: SystemWorld,
    prestore: FileStore,
    mid: SystemWorld,
    midstore: FileStore,
    post: SystemWorld,
    poststore: FileStore,
    id: FileIdentifier,
)
    requires
        source_step(pre, prestore, id, mid, midstore),
        source_step(mid, midstore, id, post, poststore),
    ensures
        poststore.spec_reads() == midstore.spec_reads(),
        poststore.entries_model() == midstore.entries_model(),
        mid.spec_source_result(midstore, id.key()) == pre.spec_source_result(prestore, id.key()),
{
    lemma_source_hit_after_step(pre, prestore, mid, midstore, id);
}

/// Chaining a source step after an earlier one on the same identifier
/// yields a source step from the first state.
pub proof fn lemma_source_step_chain(
    pre: SystemWorld,
    prestore: FileStore,
    mid: SystemWorld,
    midstore: FileStore,
    post: SystemWorld,
    poststore: FileStore,
    id: FileIdentifier,
)
    requires
        source_step(pre, prestore, id, mid, midstore),
        source_step(mid, midstore, id, post, poststore),
    ensures
        source_step(pre, prestore, id, post, poststore),
{
    lemma_source_hit_after_step(pre, prestore, mid, midstore, id);
}

/// Fingerprint invalidation: when an identifier's slot has not yet been
/// accessed this pass and the backing bytes differ from its last-seen load,
/// a source request decodes the new content afresh; it never returns the
/// stale cached value.
pub proof fn lemma_fingerprint_invalidation(
    w: SystemWorld,
    store: FileStore,
    k: IdentKey,
    p: Seq<Seq<char>>,
    b: Seq<u8>,
)
    requires
        w.spec_resolve(k) == Ok::<Seq<Seq<char>>, FileError>(p),
        store.contents(p) == Some(b),
        !cell_hit(w.slot_for(k), w.source_cell(k)),
        w.source_cell(k).last_load != Some(Ok::<Seq<u8>, FileError>(b)),
    ensures
        w.spec_source_result(store, k) == crate::text::spec_decode(b),
{
}

/// Exclusion precedence: a project-local identifier matched by the
/// exclusion filter resolves to the exclusion error, never to a physical
/// path. Through the slot cache the same holds for any slot not yet
/// accessed in this pass whose last-seen load is not already that error:
/// the fresh load is the exclusion error, which can neither be served from
/// the store nor reuse older cached content. The one value that can still
/// be returned is content cached earlier in the same pass, before the
/// filter was installed.
pub proof fn lemma_exclusion_precedence(w: SystemWorld, store: FileStore, k: IdentKey)
    requires
        k.package is None,
        glob_ignores(w.spec_globs(), join_path(k.path), false),
    ensures
        w.spec_resolve(k) == Err::<Seq<Seq<char>>, FileError>(FileError::Excluded),
        !cell_hit(w.slot_for(k), w.source_cell(k)) && w.source_cell(k).last_load != Some(
            Err::<Seq<u8>, FileError>(FileError::Excluded),
        ) ==> w.spec_source_result(store, k) == Err::<Seq<u8>, FileError>(FileError::Excluded),
        !cell_hit(w.slot_for(k), w.file_cell(k)) && w.file_cell(k).last_load != Some(
            Err::<Seq<u8>, FileError>(FileError::Excluded),
        ) ==> w.spec_file_result(store, k) == Err::<Seq<u8>, FileError>(FileError::Excluded),
{
}

/// Virtual line shift: after registering synthetic content for a
/// previously unknown identifier, the slot's line shift is the given one
/// and a source request returns the registered content, so a diagnostic on
/// local line `n` of the fragment is reported at host line `n` plus the
/// shift.
pub proof fn lemma_virtual_line_shift(
    pre: SystemWorld,
    id: FileIdentifier,
    bytes: Seq<u8>,
    line_shift: usize,
    post: SystemWorld,
    store: FileStore,
)
    requires
        virtual_step(pre, id, bytes, line_shift, post),
        pre.slot_for(id.key()) is None,
    ensures
        post.spec_line_shift(id.key()) == line_shift,
        post.spec_source_result(store, id.key()) == crate::text::spec_decode(bytes),
{
}

/// A slot at the start of a new pass: nothing accessed yet, cached values
/// and change detectors kept.
pub open spec fn reset_model(m: SlotModel) -> SlotModel {
    SlotModel {
        id: m.id,
        source: CellModel { data: m.source.data, last_load: m.source.last_load, accessed: false },
        file: CellModel { data: m.file.data, last_load: m.file.last_load, accessed: false },
        line_shift: m.line_shift,
    }
}

/// After an update of the slot at `idx` that keeps its identifier, the
/// lookup of that identifier finds the update and every other lookup is
/// unchanged.
proof fn slot_update_common(pre: SystemWorld, mid: SystemWorld, post: SystemWorld, k: IdentKey, idx: int)
    requires
        0 <= idx < mid.slot_models().len(),
        mid.slot_models()[idx].id == k,
        forall|j: int| 0 <= j < idx ==> #[trigger] mid.slot_models()[j].id != k,
        forall|q: IdentKey| q != k ==> #[trigger] mid.slot_for(q) == pre.slot_for(q),
        post.slot_models().len() == mid.slot_models().len(),
        post.slot_models()[idx].id == k,
        forall|j: int|
            0 <= j < mid.slot_models().len() && j != idx ==> #[trigger] post.slot_models()[j]
                == mid.slot_models()[j],
    ensures
        post.slot_for(k) == Some(post.slot_models()[idx]),
        forall|q: IdentKey| q != k ==> #[trigger] post.slot_for(q) == pre.slot_for(q),
{
    lemma_assoc_slot_at(post.slot_models(), k, idx);
    assert(post.slot_models() =~= mid.slot_models().update(idx, post.slot_models()[idx]));
    assert forall|q: IdentKey| q != k implies #[trigger] post.slot_for(q) == pre.slot_for(q) by {
        lemma_assoc_slot_update_frame(mid.slot_models(), idx, post.slot_models()[idx], q);
        assert(post.slot_for(q) == assoc_slot(post.slot_models(), q));
        assert(mid.slot_for(q) == assoc_slot(mid.slot_models(), q));
        assert(mid.slot_for(q) == pre.slot_for(q));
    }
}

} // verus!
