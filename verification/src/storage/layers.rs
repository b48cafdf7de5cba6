//! The registry of layers of a store: for each layer name, the name of its
//! parent (none for a base layer) and its files.

use vstd::prelude::*;
use crate::storage::files::{BaseLayerFiles, ChildLayerFiles, LayerFiles};
use crate::storage::memory::MemoryBackedStore;

verus! {

/// What the registry holds of one layer: its parent, if any, and its files.
pub type LayerRecord = (Option<[u32; 5]>, LayerFiles<MemoryBackedStore>);

/// Why a layer operation was refused.
#[derive(Clone, Copy, Debug, PartialEq, Eq)]
pub enum LayerStoreError {
    /// The parent named for a new child layer was not found.
    ParentNotFound,
    /// The parent of a registered child layer was not found when the layer
    /// was loaded.
    ParentMissing,
}

/// What is needed to load a registered layer: for a base layer its files,
/// for a child layer also the name of its parent.
pub enum LayerLoad {
    Base { name: [u32; 5], files: BaseLayerFiles<MemoryBackedStore> },
    Child { name: [u32; 5], parent: [u32; 5], files: ChildLayerFiles<MemoryBackedStore> },
}

/// A record is consistent when a layer has a parent exactly when its files
/// are those of a child layer.
pub open spec fn record_consistent(r: LayerRecord) -> bool {
    match r {
        (None, LayerFiles::Base(_)) => true,
        (Some(_), LayerFiles::Child(_)) => true,
        _ => false,
    }
}

/// Every record of a registry is consistent.
pub open spec fn records_consistent(m: Map<[u32; 5], LayerRecord>) -> bool {
    forall|n: [u32; 5]| #[trigger] m.contains_key(n) ==> record_consistent(m[n])
}

/// What the registry `m` holds for the layer `name`: nothing when it is not
/// registered, otherwise what its record says (its files, and for a child
/// layer the name of its parent).
pub open spec fn load_spec(m: Map<[u32; 5], LayerRecord>, name: [u32; 5]) -> Option<LayerLoad> {
    if !m.contains_key(name) {
        None
    } else {
        match m[name] {
            (None, LayerFiles::Base(files)) => Some(LayerLoad::Base { name, files }),
            (Some(parent), LayerFiles::Child(files)) => Some(LayerLoad::Child { name, parent, files }),
            _ => None,
        }
    }
}

/// What loading the layer `name` gives, where `parent_found` is whether the
/// retriever that was asked for the parent of a child layer found it:
/// nothing when `name` is not registered; a base layer as registered; a
/// child layer as registered when its parent was found, and
/// [`LayerStoreError::ParentMissing`] when it was not.
pub open spec fn load_with_retriever_spec(
    m: Map<[u32; 5], LayerRecord>,
    name: [u32; 5],
    parent_found: bool,
) -> Result<Option<LayerLoad>, LayerStoreError> {
    match load_spec(m, name) {
        Some(LayerLoad::Child { name, parent, files }) => if parent_found {
            Ok(Some(LayerLoad::Child { name, parent, files }))
        } else {
            Err(LayerStoreError::ParentMissing)
        },
        other => Ok(other),
    }
}

/// What registering a child layer does, where `parent_found` is whether
/// the retriever that was asked for `parent` found it: refused when it was
/// not, otherwise the record is added (replacing any of that name), whether
/// or not `parent` is registered here.
pub open spec fn add_child_spec(
    m: Map<[u32; 5], LayerRecord>,
    name: [u32; 5],
    parent: [u32; 5],
    files: ChildLayerFiles<MemoryBackedStore>,
    parent_found: bool,
) -> (Map<[u32; 5], LayerRecord>, Result<(), LayerStoreError>) {
    if !parent_found {
        (m, Err(LayerStoreError::ParentNotFound))
    } else {
        (m.insert(name, (Some(parent), LayerFiles::Child(files))), Ok(()))
    }
}

/// Registering a base layer keeps every record consistent, and loading its
/// name afterwards finds it with its files, whatever a retriever says.
pub proof fn lemma_load_after_add_base(
    m: Map<[u32; 5], LayerRecord>,
    name: [u32; 5],
    files: BaseLayerFiles<MemoryBackedStore>,
    parent_found: bool,
)
    requires
        records_consistent(m),
    ensures
        records_consistent(m.insert(name, (None, LayerFiles::Base(files)))),
        load_with_retriever_spec(m.insert(name, (None, LayerFiles::Base(files))), name, parent_found)
            == Ok::<Option<LayerLoad>, LayerStoreError>(Some(LayerLoad::Base { name, files })),
{
}

/// A child layer is registered exactly when its parent was found, and a
/// refusal changes nothing. Once registered, loading it gives it with its
/// parent's name and files when the retriever finds its parent, and
/// [`LayerStoreError::ParentMissing`] when it does not.
pub proof fn lemma_load_after_add_child(
    m: Map<[u32; 5], LayerRecord>,
    name: [u32; 5],
    parent: [u32; 5],
    files: ChildLayerFiles<MemoryBackedStore>,
    parent_found: bool,
    parent_found_on_load: bool,
)
    requires
        records_consistent(m),
    ensures
        add_child_spec(m, name, parent, files, parent_found).1 is Ok <==> parent_found,
        !parent_found ==> add_child_spec(m, name, parent, files, parent_found).0 == m,
        parent_found ==> {
            let after = add_child_spec(m, name, parent, files, parent_found).0;
            &&& records_consistent(after)
            &&& load_with_retriever_spec(after, name, parent_found_on_load) == if parent_found_on_load {
                Ok::<Option<LayerLoad>, LayerStoreError>(Some(LayerLoad::Child { name, parent, files }))
            } else {
                Err(LayerStoreError::ParentMissing)
            }
        },
{
}

/// After a run of successful layer creations from an empty store, each
/// adding exactly its own name (as `create_base_layer` and an accepted
/// `create_child_layer_with_retriever` do), the registered names are exactly the names
/// those creations returned.
pub proof fn lemma_names_after_creations(
    states: Seq<Map<[u32; 5], LayerRecord>>,
    names: Seq<[u32; 5]>,
    records: Seq<LayerRecord>,
)
    requires
        states.len() == names.len() + 1,
        records.len() == names.len(),
        states[0] == Map::<[u32; 5], LayerRecord>::empty(),
        forall|i: int| 0 <= i < names.len() ==> #[trigger] states[i + 1] == states[i].insert(names[i], records[i]),
    ensures
        states.last().dom() == names.to_set(),
    decreases names.len(),
{
    if names.len() == 0 {
        assert(states.last().dom() =~= names.to_set());
    } else {
        let k = names.len() - 1;
        let prev_states = states.subrange(0, k + 1);
        let prev_names = names.subrange(0, k);
        let prev_records = records.subrange(0, k);
        assert forall|i: int| 0 <= i < prev_names.len() implies #[trigger] prev_states[i + 1]
            == prev_states[i].insert(prev_names[i], prev_records[i]) by {
            assert(states[i + 1] == states[i].insert(names[i], records[i]));
        }
        lemma_names_after_creations(prev_states, prev_names, prev_records);
        assert(states[k + 1] == states[k].insert(names[k], records[k]));
        assert(names =~= prev_names.push(names[k]));
        assert(names.to_set() =~= prev_names.to_set().insert(names[k])) by {
            assert forall|n: [u32; 5]| names.to_set().contains(n) <==> prev_names.to_set().insert(names[k]).contains(n) by {
                if names.contains(n) {
                    let j = choose|j: int| 0 <= j < names.len() && names[j] == n;
                    if j < k {
                        assert(prev_names[j] == n);
                    }
                }
                if prev_names.contains(n) {
                    let j = choose|j: int| 0 <= j < prev_names.len() && prev_names[j] == n;
                    assert(names[j] == n);
                }
                if n == names[k] {
                    assert(names.contains(n));
                }
            }
        }
        assert(states.last().dom() =~= names.to_set());
    }
}

/// What `layers()` lists after a run of successful creations from an empty
/// store (see [`lemma_names_after_creations`]): every name those creations
/// returned, once each, and nothing else.
pub proof fn lemma_listed_names_after_creations(
    states: Seq<Map<[u32; 5], LayerRecord>>,
    names: Seq<[u32; 5]>,
    records: Seq<LayerRecord>,
    listed: Seq<[u32; 5]>,
)
    requires
        states.len() == names.len() + 1,
        records.len() == names.len(),
        states[0] == Map::<[u32; 5], LayerRecord>::empty(),
        forall|i: int| 0 <= i < names.len() ==> #[trigger] states[i + 1] == states[i].insert(names[i], records[i]),
        forall|i: int, j: int| 0 <= i < j < listed.len() ==> #[trigger] listed[i] != #[trigger] listed[j],
        forall|i: int| 0 <= i < listed.len() ==> states.last().contains_key(#[trigger] listed[i]),
        forall|n: [u32; 5]| #[trigger] states.last().contains_key(n) ==> listed.contains(n),
    ensures
        listed.no_duplicates(),
        listed.to_set() == names.to_set(),
{
    lemma_names_after_creations(states, names, records);
    assert forall|n: [u32; 5]| listed.to_set().contains(n) <==> names.to_set().contains(n) by {
        if listed.contains(n) {
            let j = choose|j: int| 0 <= j < listed.len() && listed[j] == n;
            assert(states.last().contains_key(listed[j]));
        }
        if names.to_set().contains(n) {
            assert(states.last().dom().contains(n));
        }
    }
    assert(listed.to_set() =~= names.to_set());
    assert forall|i: int, j: int| 0 <= i < listed.len() && 0 <= j < listed.len() && i != j implies listed[i] != listed[j] by {
        if i < j {
            assert(listed[i] != listed[j]);
        } else {
            assert(listed[j] != listed[i]);
        }
    }
}

/// Whether two layer names are equal.
pub fn same_name(a: &[u32; 5], b: &[u32; 5]) -> (r: bool)
    ensures
        r == (*a == *b),
{
    let r = a[0] == b[0] && a[1] == b[1] && a[2] == b[2] && a[3] == b[3] && a[4] == b[4];
    proof {
        if r {
            assert(a@ =~= b@);
            vstd::array::axiom_array_ext_equal(*a, *b);
        }
    }
    r
}

/// One registered layer.
pub struct LayerEntry {
    name: [u32; 5],
    parent: Option<[u32; 5]>,
    files: LayerFiles<MemoryBackedStore>,
}

/// The layers of a store, at most one record per name.
pub struct LayerTable {
    entries: Vec<LayerEntry>,
}

impl LayerTable {
    spec fn has_name(&self, name: [u32; 5]) -> bool {
        exists|i: int| 0 <= i < self.entries@.len() && #[trigger] self.entries@[i].name == name
    }

    spec fn index_of(&self, name: [u32; 5]) -> int {
        choose|i: int| 0 <= i < self.entries@.len() && #[trigger] self.entries@[i].name == name
    }

    spec fn names_distinct(&self) -> bool {
        forall|i: int, j: int|
            0 <= i < j < self.entries@.len() ==> #[trigger] self.entries@[i].name
                != #[trigger] self.entries@[j].name
    }

    /// The records, keyed by layer name.
    pub closed spec fn view(&self) -> Map<[u32; 5], LayerRecord> {
        Map::new(
            |n: [u32; 5]| self.has_name(n),
            |n: [u32; 5]| (self.entries@[self.index_of(n)].parent, self.entries@[self.index_of(n)].files),
        )
    }

    /// One record per name, and every record is consistent.
    pub closed spec fn wf(&self) -> bool {
        &&& self.names_distinct()
        &&& records_consistent(self.view())
    }

    proof fn lemma_index_of(&self, i: int)
        requires
            self.names_distinct(),
            0 <= i < self.entries@.len(),
        ensures
            self.has_name(self.entries@[i].name),
            self.index_of(self.entries@[i].name) == i,
    {
        let n = self.entries@[i].name;
        assert(self.has_name(n));
        let j = self.index_of(n);
        if j != i {
            if j < i {
                assert(self.entries@[j].name != self.entries@[i].name);
            } else {
                assert(self.entries@[i].name != self.entries@[j].name);
            }
        }
    }

    /// An empty registry.
    pub fn new() -> (t: LayerTable)
        ensures
            t.wf(),
            t.view() == Map::<[u32; 5], LayerRecord>::empty(),
    {
        let t = LayerTable { entries: Vec::new() };
        assert(t.view() =~= Map::<[u32; 5], LayerRecord>::empty());
        t
    }

    fn find(&self, name: &[u32; 5]) -> (r: Option<usize>)
        requires
            self.names_distinct(),
        ensures
            match r {
                Some(i) => i < self.entries@.len() && self.entries@[i as int].name == *name,
                None => !self.has_name(*name),
            },
    {
        let mut i: usize = 0;
        while i < self.entries.len()
            invariant
                i <= self.entries@.len(),
                forall|k: int| 0 <= k < i ==> #[trigger] self.entries@[k].name != *name,
            decreases self.entries@.len() - i,
        {
            if same_name(&self.entries[i].name, name) {
                return Some(i);
            }
            i = i + 1;
        }
        None
    }

    /// Whether a layer of that name is registered.
    pub fn contains(&self, name: &[u32; 5]) -> (r: bool)
        requires
            self.wf(),
        ensures
            r == self.view().contains_key(*name),
    {
        match self.find(name) {
            Some(i) => {
                proof {
                    self.lemma_index_of(i as int);
                }
                true
            },
            None => false,
        }
    }

    /// The record of the layer `name`, if it is registered.
    pub fn get(&self, name: &[u32; 5]) -> (r: Option<LayerRecord>)
        requires
            self.wf(),
        ensures
            r == (if self.view().contains_key(*name) { Some(self.view()[*name]) } else { None }),
    {
        match self.find(name) {
            Some(i) => {
                proof {
                    self.lemma_index_of(i as int);
                }
                let e = &self.entries[i];
                Some((e.parent, e.files.share()))
            },
            None => None,
        }
    }

    /// What is needed to load the layer `name`; see [`load_spec`].
    pub fn load(&self, name: &[u32; 5]) -> (r: Option<LayerLoad>)
        requires
            self.wf(),
        ensures
            r == load_spec(self.view(), *name),
            r is None <==> !self.view().contains_key(*name),
    {
        match self.get(name) {
            None => None,
            Some((parent, files)) => {
                proof {
                    assert(self.view().contains_key(*name));
                    assert(record_consistent(self.view()[*name]));
                }
                match (parent, files) {
                    (None, LayerFiles::Base(files)) => Some(LayerLoad::Base { name: *name, files }),
                    (Some(parent), LayerFiles::Child(files)) => Some(
                        LayerLoad::Child { name: *name, parent, files },
                    ),
                    _ => None,
                }
            },
        }
    }

    /// Puts `record` under `name`, replacing any record of that name.
    fn insert(&mut self, name: [u32; 5], record: LayerRecord)
        requires
            old(self).wf(),
            record_consistent(record),
        ensures
            final(self).wf(),
            final(self).view() == old(self).view().insert(name, record),
    {
        let ghost old_t = *self;
        let (parent, files) = record;
        let entry = LayerEntry { name, parent, files };
        match self.find(&name) {
            Some(i) => {
                self.entries.set(i, entry);
                proof {
                    assert forall|a: int, b: int|
                        0 <= a < b < self.entries@.len() implies #[trigger] self.entries@[a].name
                        != #[trigger] self.entries@[b].name by {
                        assert(old_t.entries@[a].name == self.entries@[a].name);
                        assert(old_t.entries@[b].name == self.entries@[b].name);
                    }
                    assert forall|n: [u32; 5]| #[trigger] self.has_name(n) == old_t.has_name(n) by {
                        if old_t.has_name(n) {
                            let k = old_t.index_of(n);
                            assert(self.entries@[k].name == old_t.entries@[k].name);
                        }
                        if self.has_name(n) {
                            let k = self.index_of(n);
                            assert(self.entries@[k].name == old_t.entries@[k].name);
                        }
                    }
                    self.lemma_index_of(i as int);
                    assert forall|n: [u32; 5]| #[trigger] self.view().contains_key(n) implies self.view()[n]
                        == old_t.view().insert(name, record)[n] by {
                        if n != name {
                            let k = self.index_of(n);
                            assert(self.entries@[k].name == old_t.entries@[k].name);
                            old_t.lemma_index_of(k);
                        }
                    }
                }
            },
            None => {
                self.entries.push(entry);
                proof {
                    assert forall|a: int, b: int|
                        0 <= a < b < self.entries@.len() implies #[trigger] self.entries@[a].name
                        != #[trigger] self.entries@[b].name by {
                        assert(old_t.entries@[a] == self.entries@[a]);
                        if b == self.entries@.len() - 1 {
                            if self.entries@[a].name == name {
                                assert(old_t.has_name(name));
                            }
                        } else {
                            assert(old_t.entries@[b] == self.entries@[b]);
                        }
                    }
                    self.lemma_index_of(self.entries@.len() - 1);
                    assert forall|n: [u32; 5]| #[trigger] self.has_name(n) == (old_t.has_name(n) || n == name) by {
                        if old_t.has_name(n) {
                            let k = old_t.index_of(n);
                            assert(self.entries@[k] == old_t.entries@[k]);
                        }
                        if self.has_name(n) && n != name {
                            let k = self.index_of(n);
                            assert(k < old_t.entries@.len());
                            assert(old_t.entries@[k] == self.entries@[k]);
                        }
                    }
                    assert forall|n: [u32; 5]| #[trigger] self.view().contains_key(n) implies self.view()[n]
                        == old_t.view().insert(name, record)[n] by {
                        if n != name {
                            let k = self.index_of(n);
                            assert(k < old_t.entries@.len());
                            assert(old_t.entries@[k] == self.entries@[k]);
                            old_t.lemma_index_of(k);
                        }
                    }
                }
            },
        }
        proof {
            assert(self.view() =~= old_t.view().insert(name, record));
        }
    }

    /// Registers the base layer `name` with its files.
    pub fn add_base(&mut self, name: [u32; 5], files: BaseLayerFiles<MemoryBackedStore>)
        requires
            old(self).wf(),
        ensures
            final(self).wf(),
            final(self).view() == old(self).view().insert(name, (None, LayerFiles::Base(files))),
    {
        self.insert(name, (None, LayerFiles::Base(files)));
    }

    /// Registers the child layer `name` of `parent` with its files.
    pub fn add_child(&mut self, name: [u32; 5], parent: [u32; 5], files: ChildLayerFiles<MemoryBackedStore>)
        requires
            old(self).wf(),
        ensures
            final(self).wf(),
            final(self).view() == old(self).view().insert(name, (Some(parent), LayerFiles::Child(files))),
    {
        self.insert(name, (Some(parent), LayerFiles::Child(files)));
    }

    /// The names of all registered layers, once each, in no particular order.
    pub fn names(&self) -> (r: Vec<[u32; 5]>)
        requires
            self.wf(),
        ensures
            forall|i: int, j: int| 0 <= i < j < r@.len() ==> #[trigger] r@[i] != #[trigger] r@[j],
            forall|i: int| 0 <= i < r@.len() ==> self.view().contains_key(#[trigger] r@[i]),
            forall|n: [u32; 5]| #[trigger] self.view().contains_key(n) ==> r@.contains(n),
    {
        let mut r: Vec<[u32; 5]> = Vec::new();
        let mut i: usize = 0;
        while i < self.entries.len()
            invariant
                self.wf(),
                i <= self.entries@.len(),
                r@.len() == i,
                forall|k: int| 0 <= k < i ==> #[trigger] r@[k] == self.entries@[k].name,
            decreases self.entries@.len() - i,
        {
            r.push(self.entries[i].name);
            i = i + 1;
        }
        proof {
            assert forall|k: int| 0 <= k < r@.len() implies self.view().contains_key(#[trigger] r@[k]) by {
                self.lemma_index_of(k);
            }
            assert forall|n: [u32; 5]| #[trigger] self.view().contains_key(n) implies r@.contains(n) by {
                let k = self.index_of(n);
                assert(r@[k] == n);
            }
        }
        r
    }
}

} // verus!
