//! In-memory implementations of the storage back end: byte files that
//! clones share, a layer store and a label store.

use std::sync::Arc;
use vstd::prelude::*;
use vstd::rwlock::{RwLock, RwLockPredicate};
use crate::storage::buffer::{read_at, read_rest, write_at};
use crate::storage::files::{BaseLayerFiles, ChildLayerFiles, LayerFiles};
use crate::storage::label::{create_step, get_spec, set_spec, Label, LabelError, LabelTable};
use crate::storage::layers::{
    add_child_spec, load_spec, load_with_retriever_spec, LayerLoad, LayerRecord, LayerStoreError, LayerTable,
};

verus! {

/// The lock predicate of a file's buffer: every buffer is allowed.
pub struct AnyBytes;

impl RwLockPredicate<Vec<u8>> for AnyBytes {
    open spec fn inv(self, v: Vec<u8>) -> bool {
        true
    }
}

/// Another handle on the same shared value.
///
/// Calls `Arc::clone`, which (per its documentation) makes a new pointer
/// to the same allocation; so the new handle denotes the same value.
#[verifier::external_body]
fn share_arc<T>(a: &Arc<T>) -> (r: Arc<T>)
    ensures
        r == *a,
{
    Arc::clone(a)
}

/// An in-memory file. Clones share the same bytes: what is written through
/// one is read through all.
#[derive(Clone)]
pub struct MemoryBackedStore {
    vec: Arc<RwLock<Vec<u8>, AnyBytes>>,
}

/// Writes into a [`MemoryBackedStore`] from a position that advances with
/// each write.
pub struct MemoryBackedStoreWriter {
    vec: Arc<RwLock<Vec<u8>, AnyBytes>>,
    pos: usize,
}

/// Reads from a [`MemoryBackedStore`] from a position that advances with
/// each read.
pub struct MemoryBackedStoreReader {
    vec: Arc<RwLock<Vec<u8>, AnyBytes>>,
    pos: usize,
}

/// A snapshot of the bytes of a file.
#[derive(Clone, Debug)]
pub struct SharedVec(pub Arc<Vec<u8>>);

/// Why a file operation was refused.
#[derive(Clone, Copy, Debug, PartialEq, Eq)]
pub enum FileError {
    /// The write position lies past the end of the file, which would leave
    /// a gap.
    PositionPastEnd,
}

/// A snapshot holding a copy of `v`.
pub fn snapshot(v: &[u8]) -> (m: SharedVec)
    ensures
        m.0@ == v@,
{
    let mut copy: Vec<u8> = Vec::new();
    let mut i: usize = 0;
    while i < v.len()
        invariant
            i <= v@.len(),
            copy@ == v@.subrange(0, i as int),
        decreases v@.len() - i,
    {
        copy.push(v[i]);
        proof {
            assert(v@.subrange(0, i + 1) =~= v@.subrange(0, i as int).push(v@[i as int]));
        }
        i = i + 1;
    }
    assert(copy@ =~= v@);
    SharedVec(Arc::new(copy))
}

impl SharedVec {
    /// The bytes of the snapshot.
    pub fn as_ref(&self) -> (r: &[u8])
        ensures
            r@ == self.0@,
    {
        self.0.as_slice()
    }
}

impl MemoryBackedStore {
    /// Another handle on the same file.
    pub fn share(&self) -> (r: MemoryBackedStore)
        ensures
            r == *self,
    {
        MemoryBackedStore { vec: share_arc(&self.vec) }
    }

    /// A new, empty file.
    pub fn new() -> (f: MemoryBackedStore) {
        MemoryBackedStore { vec: Arc::new(RwLock::new(Vec::new(), Ghost(AnyBytes))) }
    }

    /// A writer into this file that starts at offset `pos`.
    pub fn open_write_from(&self, pos: usize) -> (w: MemoryBackedStoreWriter)
        ensures
            w.file() == *self,
            w.position() == pos,
    {
        MemoryBackedStoreWriter { vec: share_arc(&self.vec), pos }
    }

    /// A writer into this file that starts at its beginning.
    pub fn open_write(&self) -> (w: MemoryBackedStoreWriter)
        ensures
            w.file() == *self,
            w.position() == 0,
    {
        self.open_write_from(0)
    }

    /// A reader of this file that starts at offset `offset`.
    pub fn open_read_from(&self, offset: usize) -> (r: MemoryBackedStoreReader)
        ensures
            r.file() == *self,
            r.position() == offset,
    {
        MemoryBackedStoreReader { vec: share_arc(&self.vec), pos: offset }
    }

    /// A reader of this file that starts at its beginning.
    pub fn open_read(&self) -> (r: MemoryBackedStoreReader)
        ensures
            r.file() == *self,
            r.position() == 0,
    {
        self.open_read_from(0)
    }

    /// The current length of the file.
    pub fn size(&self) -> (n: usize) {
        let handle = self.vec.acquire_read();
        let n = handle.borrow().len();
        handle.release_read();
        n
    }

    /// A snapshot of the current bytes of the file, taken by [`snapshot`]
    /// on the bytes the file holds at that moment.
    pub fn map(&self) -> (m: SharedVec) {
        let handle = self.vec.acquire_read();
        let m = snapshot(handle.borrow().as_slice());
        handle.release_read();
        m
    }
}

impl MemoryBackedStoreWriter {
    /// The file this writer writes into.
    pub closed spec fn file(&self) -> MemoryBackedStore {
        MemoryBackedStore { vec: self.vec }
    }

    /// The offset of the next write.
    pub closed spec fn spec_position(&self) -> usize {
        self.pos
    }

    /// The offset of the next write.
    #[verifier::when_used_as_spec(spec_position)]
    pub fn position(&self) -> (p: usize)
        ensures
            p == self.spec_position(),
    {
        self.pos
    }

    /// Writes all of `buf` at the current position, growing the file when
    /// the write reaches past its end, and advances the position past it.
    /// Refused, with nothing changed, when the position lies past the end
    /// of the file, which never happens at position 0. The bytes are changed by [`write_at`], whose contract
    /// states exactly what the file holds afterwards; the file is shared
    /// with every other handle, so this contract cannot name its bytes.
    pub fn write(&mut self, buf: &[u8]) -> (r: Result<usize, FileError>)
        requires
            old(self).position() + buf@.len() <= usize::MAX,
        ensures
            final(self).file() == old(self).file(),
            old(self).position() == 0 ==> r == Ok::<usize, FileError>(buf.len()),
            match r {
                Ok(n) => {
                    &&& n == buf@.len()
                    &&& final(self).position() == old(self).position() + n
                },
                Err(e) => {
                    &&& e == FileError::PositionPastEnd
                    &&& final(self).position() == old(self).position()
                },
            },
    {
        let (mut v, handle) = self.vec.acquire_write();
        if self.pos > v.len() {
            assert(v@.len() < self.pos);
            handle.release_write(v);
            return Err(FileError::PositionPastEnd);
        }
        assert(self.pos <= v@.len());
        let n = write_at(&mut v, self.pos, buf);
        handle.release_write(v);
        self.pos = self.pos + n;
        Ok(n)
    }
}

impl MemoryBackedStoreReader {
    /// The file this reader reads from.
    pub closed spec fn file(&self) -> MemoryBackedStore {
        MemoryBackedStore { vec: self.vec }
    }

    /// The offset of the next read.
    pub closed spec fn spec_position(&self) -> usize {
        self.pos
    }

    /// The offset of the next read.
    #[verifier::when_used_as_spec(spec_position)]
    pub fn position(&self) -> (p: usize)
        ensures
            p == self.spec_position(),
    {
        self.pos
    }

    /// Copies bytes of the file from the current position into `buf`: as
    /// many as fit, none at or past the end. Leaves the rest of `buf`
    /// unchanged and advances the position past what was read. The copy is
    /// [`read_at`] on the bytes the file holds at that moment, whose
    /// contract states exactly what is read.
    pub fn read(&mut self, buf: &mut [u8]) -> (n: usize)
        ensures
            final(self).file() == old(self).file(),
            n <= old(buf)@.len(),
            final(self).position() == old(self).position() + n,
            final(buf)@.len() == old(buf)@.len(),
            final(buf)@.subrange(n as int, final(buf)@.len() as int)
                == old(buf)@.subrange(n as int, old(buf)@.len() as int),
    {
        let handle = self.vec.acquire_read();
        let bytes = handle.borrow().as_slice();
        let len = bytes.len();
        let n = read_at(bytes, self.pos, buf);
        assert(n == 0 || self.pos + n <= len);
        handle.release_read();
        self.pos = self.pos + n;
        n
    }

    /// Appends to `out` every byte of the file from the current position on
    /// and advances the position to the end. Returns how many bytes were
    /// appended. The copy is [`read_rest`] on the bytes the file holds at
    /// that moment, whose contract states exactly what is appended.
    pub fn read_to_end(&mut self, out: &mut Vec<u8>) -> (n: usize)
        ensures
            final(self).file() == old(self).file(),
            final(out)@.len() == old(out)@.len() + n,
            final(out)@.subrange(0, old(out)@.len() as int) == old(out)@,
            final(self).position() == old(self).position() + n,
    {
        let handle = self.vec.acquire_read();
        let bytes = handle.borrow().as_slice();
        let len = bytes.len();
        let n = read_rest(bytes, self.pos, out);
        assert(n == 0 || self.pos + n <= len);
        handle.release_read();
        assert(final(out)@.subrange(0, old(out)@.len() as int) =~= old(out)@);
        self.pos = self.pos + n;
        n
    }
}

/// A fresh layer name.
///
/// Calls `rand::random` for a `[u32; 5]`: the value depends on chance, so
/// nothing is promised of it.
#[verifier::external_body]
fn random_layer_name() -> (name: [u32; 5]) {
    rand::random()
}

/// The name of the layer that a load describes.
pub open spec fn load_name(l: LayerLoad) -> [u32; 5] {
    match l {
        LayerLoad::Base { name, .. } => name,
        LayerLoad::Child { name, .. } => name,
    }
}

/// A store of layers held in memory: the registry of its layers, each
/// with its parent (if any) and its in-memory files.
pub struct MemoryLayerStore {
    layers: LayerTable,
}

impl MemoryLayerStore {
    #[verifier::type_invariant]
    spec fn registry_wf(self) -> bool {
        self.layers.wf()
    }

    /// The registered layers, keyed by name.
    pub closed spec fn view(&self) -> Map<[u32; 5], LayerRecord> {
        self.layers.view()
    }

    /// An empty layer store.
    pub fn new() -> (s: MemoryLayerStore)
        ensures
            s.view() == Map::<[u32; 5], LayerRecord>::empty(),
    {
        MemoryLayerStore { layers: LayerTable::new() }
    }

    /// The names of all layers in the store, once each, in no particular
    /// order.
    pub fn layers(&self) -> (r: Vec<[u32; 5]>)
        ensures
            forall|i: int, j: int| 0 <= i < j < r@.len() ==> #[trigger] r@[i] != #[trigger] r@[j],
            forall|i: int| 0 <= i < r@.len() ==> self.view().contains_key(#[trigger] r@[i]),
            forall|n: [u32; 5]| #[trigger] self.view().contains_key(n) ==> r@.contains(n),
    {
        proof {
            use_type_invariant(self);
        }
        self.layers.names()
    }

    /// What the store holds for the layer `name`: its files, and for a
    /// child layer the name of its parent. `None` when no layer of that name
    /// is in the store. See [`load_spec`].
    pub fn get_layer(&self, name: [u32; 5]) -> (r: Option<LayerLoad>)
        ensures
            r == load_spec(self.view(), name),
            r is None <==> !self.view().contains_key(name),
            r matches Some(l) ==> load_name(l) == name,
    {
        proof {
            use_type_invariant(self);
        }
        self.layers.load(&name)
    }

    /// Loading the layer `name`, given whether the retriever asked for the
    /// parent of that (child) layer found it: nothing when `name` is not in
    /// the store, a base layer as registered, a child layer as registered
    /// when its parent was found and [`LayerStoreError::ParentMissing`] when
    /// it was not. See [`load_with_retriever_spec`].
    pub fn get_layer_with_retriever(&self, name: [u32; 5], parent_found: bool) -> (r: Result<
        Option<LayerLoad>,
        LayerStoreError,
    >)
        ensures
            r == load_with_retriever_spec(self.view(), name, parent_found),
    {
        match self.get_layer(name) {
            Some(LayerLoad::Child { name, parent, files }) => {
                if parent_found {
                    Ok(Some(LayerLoad::Child { name, parent, files }))
                } else {
                    Err(LayerStoreError::ParentMissing)
                }
            },
            other => Ok(other),
        }
    }

    /// Registers a new base layer under a fresh random name, with fresh
    /// in-memory files. Returns the name and the files to build the layer
    /// into; the store holds handles on the same files.
    pub fn create_base_layer(&mut self) -> (r: ([u32; 5], BaseLayerFiles<MemoryBackedStore>))
        ensures
            final(self).view() == old(self).view().insert(r.0, (None, LayerFiles::Base(r.1))),
    {
        proof {
            use_type_invariant(&*self);
        }
        let name = random_layer_name();
        let files = BaseLayerFiles::new_memory();
        let registered = files.share();
        let mut table = LayerTable::new();
        std::mem::swap(&mut table, &mut self.layers);
        table.add_base(name, registered);
        self.layers = table;
        (name, files)
    }

    /// Registers a new child layer of `parent` under a fresh random name,
    /// with fresh in-memory files, given whether the retriever asked for
    /// `parent` found it. Returns the name and the files to build the layer
    /// into; the store holds handles on the same files. Refused with
    /// [`LayerStoreError::ParentNotFound`], and nothing changed, when the
    /// parent was not found. The parent need not be in this store. See
    /// [`add_child_spec`].
    pub fn create_child_layer_with_retriever(&mut self, parent: [u32; 5], parent_found: bool) -> (r: Result<
        ([u32; 5], ChildLayerFiles<MemoryBackedStore>),
        LayerStoreError,
    >)
        ensures
            r is Ok <==> parent_found,
            match r {
                Ok((name, files)) => final(self).view() == add_child_spec(
                    old(self).view(),
                    name,
                    parent,
                    files,
                    parent_found,
                ).0,
                Err(e) => e == LayerStoreError::ParentNotFound && final(self).view() == old(
                    self,
                ).view(),
            },
    {
        proof {
            use_type_invariant(&*self);
        }
        if !parent_found {
            return Err(LayerStoreError::ParentNotFound);
        }
        let name = random_layer_name();
        let files = ChildLayerFiles::new_memory();
        let registered = files.share();
        let mut table = LayerTable::new();
        std::mem::swap(&mut table, &mut self.layers);
        table.add_child(name, parent, registered);
        self.layers = table;
        Ok((name, files))
    }
}

/// A store of labels held in memory, at most one per name.
pub struct MemoryLabelStore {
    labels: LabelTable,
}

impl MemoryLabelStore {
    #[verifier::type_invariant]
    spec fn labels_wf(self) -> bool {
        self.labels.wf()
    }

    /// The stored labels, keyed by name.
    pub closed spec fn view(&self) -> Map<Seq<char>, Label> {
        self.labels.view()
    }

    /// An empty label store.
    pub fn new() -> (s: MemoryLabelStore)
        ensures
            s.view() == Map::<Seq<char>, Label>::empty(),
    {
        MemoryLabelStore { labels: LabelTable::new() }
    }

    /// All labels in the store, once each, in no particular order.
    pub fn labels(&self) -> (r: Vec<Label>)
        ensures
            forall|i: int, j: int| 0 <= i < j < r@.len() ==> #[trigger] r@[i].name@ != #[trigger] r@[j].name@,
            forall|i: int| 0 <= i < r@.len() ==> #[trigger] get_spec(self.view(), r@[i].name@) == Some(r@[i]),
            forall|n: Seq<char>| #[trigger] self.view().contains_key(n) ==> exists|i: int| 0 <= i < r@.len() && r@[i].name@ == n,
    {
        proof {
            use_type_invariant(self);
        }
        self.labels.labels()
    }

    /// Creates the label `name`, pointing at nothing, at version 0. Refused,
    /// with nothing changed, when a label of that name exists.
    pub fn create_label(&mut self, name: &str) -> (r: Result<Label, LabelError>)
        ensures
            create_step(old(self).view(), final(self).view(), name@, r),
    {
        proof {
            use_type_invariant(&*self);
        }
        let mut table = LabelTable::new();
        std::mem::swap(&mut table, &mut self.labels);
        let r = table.create_label(name);
        self.labels = table;
        r
    }

    /// The label `name`, if it exists.
    pub fn get_label(&self, name: &str) -> (r: Option<Label>)
        ensures
            r == get_spec(self.view(), name@),
            r matches Some(l) ==> l.name@ == name@,
    {
        proof {
            use_type_invariant(self);
            self.labels.lemma_keys_are_names();
        }
        self.labels.get_label(name)
    }

    /// Points `label` at `layer` (or at nothing), provided the stored label
    /// of its name is still the version `label` was read at. Returns the
    /// updated label, or `None` (and changes nothing) when the stored label
    /// has moved on; refused when no label of that name exists. See
    /// [`set_spec`].
    pub fn set_label_option(&mut self, label: &Label, layer: Option<[u32; 5]>) -> (r: Result<
        Option<Label>,
        LabelError,
    >)
        requires
            label.version < u64::MAX,
        ensures
            (final(self).view(), r) == set_spec(old(self).view(), *label, layer),
            r is Err <==> !old(self).view().contains_key(label.name@),
            r is Err ==> r == Err::<Option<Label>, LabelError>(LabelError::LabelDoesNotExist) && final(self).view() == old(self).view(),
            old(self).view().contains_key(label.name@) && old(self).view()[label.name@].version != label.version
                ==> r == Ok::<Option<Label>, LabelError>(None) && final(self).view() == old(self).view(),
            old(self).view().contains_key(label.name@) && old(self).view()[label.name@].version == label.version
                ==> r == Ok::<Option<Label>, LabelError>(Some(label.updated(layer)))
                && final(self).view() == old(self).view().insert(label.name@, label.updated(layer)),
    {
        proof {
            use_type_invariant(&*self);
        }
        let mut table = LabelTable::new();
        std::mem::swap(&mut table, &mut self.labels);
        let r = table.set_label_option(label, layer);
        self.labels = table;
        r
    }

    /// Points `label` at `layer`; see [`MemoryLabelStore::set_label_option`].
    pub fn set_label(&mut self, label: &Label, layer: [u32; 5]) -> (r: Result<Option<Label>, LabelError>)
        requires
            label.version < u64::MAX,
        ensures
            (final(self).view(), r) == set_spec(old(self).view(), *label, Some(layer)),
            r is Err <==> !old(self).view().contains_key(label.name@),
            r is Err ==> r == Err::<Option<Label>, LabelError>(LabelError::LabelDoesNotExist) && final(self).view() == old(self).view(),
            old(self).view().contains_key(label.name@) && old(self).view()[label.name@].version != label.version
                ==> r == Ok::<Option<Label>, LabelError>(None) && final(self).view() == old(self).view(),
            old(self).view().contains_key(label.name@) && old(self).view()[label.name@].version == label.version
                ==> r == Ok::<Option<Label>, LabelError>(Some(label.updated(Some(layer))))
                && final(self).view() == old(self).view().insert(label.name@, label.updated(Some(layer))),
    {
        self.set_label_option(label, Some(layer))
    }
}

} // verus!
