use terminus_store::storage::files::{BaseLayerFiles, ChildLayerFiles};
use terminus_store::storage::layers::{same_name, LayerLoad, LayerStoreError, LayerTable};
use terminus_store::storage::memory::MemoryLayerStore;

#[test]
fn base_layer_is_registered_and_loads() {
    let mut store = MemoryLayerStore::new();
    let (name, files) = store.create_base_layer();
    assert_eq!(vec![name], store.layers());
    match store.get_layer(name) {
        Some(LayerLoad::Base { name: n, files: f }) => {
            assert_eq!(name, n);
            // the registered files are the same files that were handed out
            files.node_dictionary_files.blocks_file.open_write().write(&[1, 2]).unwrap();
            assert_eq!(vec![1, 2], *f.node_dictionary_files.blocks_file.map().0);
        }
        _ => panic!("expected a base layer"),
    }
}

#[test]
fn child_layer_records_its_parent() {
    let mut store = MemoryLayerStore::new();
    let (base, _) = store.create_base_layer();
    let (child, files) = store.create_child_layer_with_retriever(base, store.get_layer(base).is_some()).unwrap();
    assert_ne!(base, child);
    match store.get_layer(child) {
        Some(LayerLoad::Child { name, parent, files: f }) => {
            assert_eq!(child, name);
            assert_eq!(base, parent);
            files.pos_subjects_file.open_write().write(&[7]).unwrap();
            assert_eq!(vec![7], *f.pos_subjects_file.map().0);
        }
        _ => panic!("expected a child layer"),
    }
    let mut names = store.layers();
    names.sort();
    let mut expected = vec![base, child];
    expected.sort();
    assert_eq!(expected, names);
}

#[test]
fn child_of_unknown_parent_is_refused() {
    let mut store = MemoryLayerStore::new();
    assert_eq!(Some(LayerStoreError::ParentNotFound), store.create_child_layer_with_retriever([1, 2, 3, 4, 5], false).err());
    assert!(store.layers().is_empty());
}

#[test]
fn unknown_layer_is_none() {
    let mut store = MemoryLayerStore::new();
    store.create_base_layer();
    assert!(store.get_layer([0, 0, 0, 0, 0]).is_none());
}

#[test]
fn fresh_names_differ() {
    let mut store = MemoryLayerStore::new();
    let (a, _) = store.create_base_layer();
    let (b, _) = store.create_base_layer();
    assert_ne!(a, b);
    assert_eq!(2, store.layers().len());
}

#[test]
fn fresh_files_are_empty_and_distinct() {
    let files = BaseLayerFiles::new_memory();
    files.node_dictionary_files.blocks_file.open_write().write(&[1]).unwrap();
    assert_eq!(0, files.node_dictionary_files.offsets_file.size());
    assert_eq!(0, files.predicate_wavelet_tree_files.sblocks_file.size());
    let child = ChildLayerFiles::new_memory();
    assert_eq!(0, child.neg_objects_file.size());
}

#[test]
fn layer_table_operations() {
    let mut t = LayerTable::new();
    let base = [1, 1, 1, 1, 1];
    let child = [2, 2, 2, 2, 2];
    t.add_base(base, BaseLayerFiles::new_memory());
    assert!(!t.contains(&child));
    t.add_child(child, base, ChildLayerFiles::new_memory());
    assert!(t.contains(&child));
    assert!(matches!(t.load(&child), Some(LayerLoad::Child { parent, .. }) if parent == base));
    assert!(matches!(t.load(&base), Some(LayerLoad::Base { .. })));
    assert_eq!(Some(base), t.get(&child).unwrap().0);
    assert_eq!(None, t.get(&base).unwrap().0);
    assert_eq!(2, t.names().len());
}

#[test]
fn same_name_compares_all_parts() {
    assert!(same_name(&[1, 2, 3, 4, 5], &[1, 2, 3, 4, 5]));
    assert!(!same_name(&[1, 2, 3, 4, 5], &[1, 2, 3, 4, 6]));
    assert!(!same_name(&[0, 2, 3, 4, 5], &[1, 2, 3, 4, 5]));
}

#[test]
fn layers_lists_exactly_the_created_names() {
    let mut store = MemoryLayerStore::new();
    let (a, _) = store.create_base_layer();
    let (b, _) = store.create_child_layer_with_retriever(a, store.get_layer(a).is_some()).unwrap();
    assert!(store.create_child_layer_with_retriever([9, 9, 9, 9, 9], false).is_err());
    let (c, _) = store.create_child_layer_with_retriever(b, store.get_layer(b).is_some()).unwrap();
    let (d, _) = store.create_base_layer();
    let mut listed = store.layers();
    listed.sort();
    let mut created = vec![a, b, c, d];
    created.sort();
    assert_eq!(created, listed);
}

#[test]
fn child_of_parent_found_elsewhere_is_registered() {
    let mut store = MemoryLayerStore::new();
    let elsewhere = [4, 4, 4, 4, 4];
    let (child, _) = store.create_child_layer_with_retriever(elsewhere, true).unwrap();
    match store.get_layer(child) {
        Some(LayerLoad::Child { parent, .. }) => assert_eq!(elsewhere, parent),
        _ => panic!("expected a child layer"),
    }
    assert!(matches!(
        store.get_layer_with_retriever(child, true),
        Ok(Some(LayerLoad::Child { parent, .. })) if parent == elsewhere
    ));
    assert_eq!(Some(LayerStoreError::ParentMissing), store.get_layer_with_retriever(child, false).err());
}

#[test]
fn load_with_retriever_of_base_and_unknown() {
    let mut store = MemoryLayerStore::new();
    let (base, _) = store.create_base_layer();
    assert!(matches!(store.get_layer_with_retriever(base, false), Ok(Some(LayerLoad::Base { .. }))));
    assert!(matches!(store.get_layer_with_retriever([0, 1, 0, 1, 0], false), Ok(None)));
}
