//! The sets of files that make up a layer.

use vstd::prelude::*;
use crate::storage::memory::MemoryBackedStore;

verus! {

/// The files of a dictionary.
#[derive(Clone)]
pub struct DictionaryFiles<F> {
    pub blocks_file: F,
    pub offsets_file: F,
}

/// The files of a bit index.
#[derive(Clone)]
pub struct BitIndexFiles<F> {
    pub bits_file: F,
    pub blocks_file: F,
    pub sblocks_file: F,
}

/// The files of an adjacency list.
#[derive(Clone)]
pub struct AdjacencyListFiles<F> {
    pub bitindex_files: BitIndexFiles<F>,
    pub nums_file: F,
}

/// The files of a base layer.
#[derive(Clone)]
pub struct BaseLayerFiles<F> {
    pub node_dictionary_files: DictionaryFiles<F>,
    pub predicate_dictionary_files: DictionaryFiles<F>,
    pub value_dictionary_files: DictionaryFiles<F>,
    pub s_p_adjacency_list_files: AdjacencyListFiles<F>,
    pub sp_o_adjacency_list_files: AdjacencyListFiles<F>,
    pub o_ps_adjacency_list_files: AdjacencyListFiles<F>,
    pub predicate_wavelet_tree_files: BitIndexFiles<F>,
}

/// The files of a child layer: its own dictionaries, and the additions
/// and removals it makes on top of its parent.
#[derive(Clone)]
pub struct ChildLayerFiles<F> {
    pub node_dictionary_files: DictionaryFiles<F>,
    pub predicate_dictionary_files: DictionaryFiles<F>,
    pub value_dictionary_files: DictionaryFiles<F>,
    pub pos_subjects_file: F,
    pub pos_objects_file: F,
    pub neg_subjects_file: F,
    pub neg_objects_file: F,
    pub pos_s_p_adjacency_list_files: AdjacencyListFiles<F>,
    pub pos_sp_o_adjacency_list_files: AdjacencyListFiles<F>,
    pub pos_o_ps_adjacency_list_files: AdjacencyListFiles<F>,
    pub neg_s_p_adjacency_list_files: AdjacencyListFiles<F>,
    pub neg_sp_o_adjacency_list_files: AdjacencyListFiles<F>,
    pub neg_o_ps_adjacency_list_files: AdjacencyListFiles<F>,
    pub pos_predicate_wavelet_tree_files: BitIndexFiles<F>,
    pub neg_predicate_wavelet_tree_files: BitIndexFiles<F>,
}

/// The files of a layer of either kind.
#[derive(Clone)]
pub enum LayerFiles<F> {
    Base(BaseLayerFiles<F>),
    Child(ChildLayerFiles<F>),
}

impl DictionaryFiles<MemoryBackedStore> {
    /// Fresh, empty in-memory files.
    pub fn new_memory() -> (r: Self) {
        DictionaryFiles { blocks_file: MemoryBackedStore::new(), offsets_file: MemoryBackedStore::new() }
    }

    /// Other handles on the same files.
    pub fn share(&self) -> (r: Self)
        ensures
            r == *self,
    {
        DictionaryFiles { blocks_file: self.blocks_file.share(), offsets_file: self.offsets_file.share() }
    }
}

impl BitIndexFiles<MemoryBackedStore> {
    /// Fresh, empty in-memory files.
    pub fn new_memory() -> (r: Self) {
        BitIndexFiles {
            bits_file: MemoryBackedStore::new(),
            blocks_file: MemoryBackedStore::new(),
            sblocks_file: MemoryBackedStore::new(),
        }
    }

    /// Other handles on the same files.
    pub fn share(&self) -> (r: Self)
        ensures
            r == *self,
    {
        BitIndexFiles {
            bits_file: self.bits_file.share(),
            blocks_file: self.blocks_file.share(),
            sblocks_file: self.sblocks_file.share(),
        }
    }
}

impl AdjacencyListFiles<MemoryBackedStore> {
    /// Fresh, empty in-memory files.
    pub fn new_memory() -> (r: Self) {
        AdjacencyListFiles { bitindex_files: BitIndexFiles::new_memory(), nums_file: MemoryBackedStore::new() }
    }

    /// Other handles on the same files.
    pub fn share(&self) -> (r: Self)
        ensures
            r == *self,
    {
        AdjacencyListFiles { bitindex_files: self.bitindex_files.share(), nums_file: self.nums_file.share() }
    }
}

impl BaseLayerFiles<MemoryBackedStore> {
    /// Fresh, empty in-memory files for a base layer.
    pub fn new_memory() -> (r: Self) {
        BaseLayerFiles {
            node_dictionary_files: DictionaryFiles::new_memory(),
            predicate_dictionary_files: DictionaryFiles::new_memory(),
            value_dictionary_files: DictionaryFiles::new_memory(),
            s_p_adjacency_list_files: AdjacencyListFiles::new_memory(),
            sp_o_adjacency_list_files: AdjacencyListFiles::new_memory(),
            o_ps_adjacency_list_files: AdjacencyListFiles::new_memory(),
            predicate_wavelet_tree_files: BitIndexFiles::new_memory(),
        }
    }

    /// Other handles on the same files.
    pub fn share(&self) -> (r: Self)
        ensures
            r == *self,
    {
        BaseLayerFiles {
            node_dictionary_files: self.node_dictionary_files.share(),
            predicate_dictionary_files: self.predicate_dictionary_files.share(),
            value_dictionary_files: self.value_dictionary_files.share(),
            s_p_adjacency_list_files: self.s_p_adjacency_list_files.share(),
            sp_o_adjacency_list_files: self.sp_o_adjacency_list_files.share(),
            o_ps_adjacency_list_files: self.o_ps_adjacency_list_files.share(),
            predicate_wavelet_tree_files: self.predicate_wavelet_tree_files.share(),
        }
    }
}

impl ChildLayerFiles<MemoryBackedStore> {
    /// Fresh, empty in-memory files for a child layer.
    pub fn new_memory() -> (r: Self) {
        ChildLayerFiles {
            node_dictionary_files: DictionaryFiles::new_memory(),
            predicate_dictionary_files: DictionaryFiles::new_memory(),
            value_dictionary_files: DictionaryFiles::new_memory(),
            pos_subjects_file: MemoryBackedStore::new(),
            pos_objects_file: MemoryBackedStore::new(),
            neg_subjects_file: MemoryBackedStore::new(),
            neg_objects_file: MemoryBackedStore::new(),
            pos_s_p_adjacency_list_files: AdjacencyListFiles::new_memory(),
            pos_sp_o_adjacency_list_files: AdjacencyListFiles::new_memory(),
            pos_o_ps_adjacency_list_files: AdjacencyListFiles::new_memory(),
            neg_s_p_adjacency_list_files: AdjacencyListFiles::new_memory(),
            neg_sp_o_adjacency_list_files: AdjacencyListFiles::new_memory(),
            neg_o_ps_adjacency_list_files: AdjacencyListFiles::new_memory(),
            pos_predicate_wavelet_tree_files: BitIndexFiles::new_memory(),
            neg_predicate_wavelet_tree_files: BitIndexFiles::new_memory(),
        }
    }

    /// Other handles on the same files.
    pub fn share(&self) -> (r: Self)
        ensures
            r == *self,
    {
        ChildLayerFiles {
            node_dictionary_files: self.node_dictionary_files.share(),
            predicate_dictionary_files: self.predicate_dictionary_files.share(),
            value_dictionary_files: self.value_dictionary_files.share(),
            pos_subjects_file: self.pos_subjects_file.share(),
            pos_objects_file: self.pos_objects_file.share(),
            neg_subjects_file: self.neg_subjects_file.share(),
            neg_objects_file: self.neg_objects_file.share(),
            pos_s_p_adjacency_list_files: self.pos_s_p_adjacency_list_files.share(),
            pos_sp_o_adjacency_list_files: self.pos_sp_o_adjacency_list_files.share(),
            pos_o_ps_adjacency_list_files: self.pos_o_ps_adjacency_list_files.share(),
            neg_s_p_adjacency_list_files: self.neg_s_p_adjacency_list_files.share(),
            neg_sp_o_adjacency_list_files: self.neg_sp_o_adjacency_list_files.share(),
            neg_o_ps_adjacency_list_files: self.neg_o_ps_adjacency_list_files.share(),
            pos_predicate_wavelet_tree_files: self.pos_predicate_wavelet_tree_files.share(),
            neg_predicate_wavelet_tree_files: self.neg_predicate_wavelet_tree_files.share(),
        }
    }
}

impl LayerFiles<MemoryBackedStore> {
    /// Other handles on the same files.
    pub fn share(&self) -> (r: Self)
        ensures
            r == *self,
    {
        match self {
            LayerFiles::Base(b) => LayerFiles::Base(b.share()),
            LayerFiles::Child(c) => LayerFiles::Child(c.share()),
        }
    }
}

} // verus!
