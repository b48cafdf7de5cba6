use terminus_store::storage::label::{Label, LabelError, LabelTable};
use terminus_store::storage::memory::MemoryLabelStore;

#[test]
fn memory_create_and_retrieve_equal_label() {
    let mut store = MemoryLabelStore::new();
    let foo = store.create_label("foo").unwrap();
    assert_eq!(foo, store.get_label("foo").unwrap());
}

#[test]
fn memory_update_label_succeeds() {
    let mut store = MemoryLabelStore::new();
    let foo = store.create_label("foo").unwrap();

    assert_eq!(1, store.set_label(&foo, [6, 7, 8, 9, 10]).unwrap().unwrap().version);

    assert_eq!(1, store.get_label("foo").unwrap().version);
}

#[test]
fn memory_update_label_twice_from_same_label_object_fails() {
    let mut store = MemoryLabelStore::new();
    let foo = store.create_label("foo").unwrap();

    assert!(store.set_label(&foo, [6, 7, 8, 9, 10]).unwrap().is_some());
    assert!(store.set_label(&foo, [1, 1, 1, 1, 1]).unwrap().is_none());
}

#[test]
fn memory_update_label_twice_from_updated_label_object_succeeds() {
    let mut store = MemoryLabelStore::new();
    let foo = store.create_label("foo").unwrap();

    let foo2 = store.set_label(&foo, [6, 7, 8, 9, 10]).unwrap().unwrap();
    assert!(store.set_label(&foo2, [1, 1, 1, 1, 1]).unwrap().is_some());
}

#[test]
fn new_label_is_empty_at_version_zero() {
    let mut store = MemoryLabelStore::new();
    let l = store.create_label("bar").unwrap();
    assert_eq!(Label { name: "bar".to_string(), layer: None, version: 0 }, l);
    assert_eq!(Label::new_empty("bar"), l);
}

#[test]
fn creating_existing_label_is_refused() {
    let mut store = MemoryLabelStore::new();
    store.create_label("foo").unwrap();
    assert_eq!(Err(LabelError::LabelAlreadyExists), store.create_label("foo"));
    assert_eq!(1, store.labels().len());
}

#[test]
fn setting_unknown_label_is_refused() {
    let mut store = MemoryLabelStore::new();
    let ghost = Label::new_empty("nobody");
    assert_eq!(Err(LabelError::LabelDoesNotExist), store.set_label(&ghost, [1, 2, 3, 4, 5]));
    assert_eq!(None, store.get_label("nobody"));
}

#[test]
fn get_unknown_label_is_none() {
    let mut store = MemoryLabelStore::new();
    store.create_label("a").unwrap();
    assert_eq!(None, store.get_label("b"));
}

#[test]
fn set_label_option_can_clear() {
    let mut store = MemoryLabelStore::new();
    let foo = store.create_label("foo").unwrap();
    let foo1 = store.set_label(&foo, [1, 2, 3, 4, 5]).unwrap().unwrap();
    assert_eq!(Some([1, 2, 3, 4, 5]), foo1.layer);
    let foo2 = store.set_label_option(&foo1, None).unwrap().unwrap();
    assert_eq!(None, foo2.layer);
    assert_eq!(2, foo2.version);
    assert_eq!(foo2, store.get_label("foo").unwrap());
}

#[test]
fn failed_set_leaves_label_unchanged() {
    let mut store = MemoryLabelStore::new();
    let foo = store.create_label("foo").unwrap();
    let foo1 = store.set_label(&foo, [1, 1, 1, 1, 1]).unwrap().unwrap();
    assert_eq!(None, store.set_label(&foo, [2, 2, 2, 2, 2]).unwrap());
    assert_eq!(foo1, store.get_label("foo").unwrap());
}

#[test]
fn labels_lists_every_label_once() {
    let mut store = MemoryLabelStore::new();
    store.create_label("a").unwrap();
    let b = store.create_label("b").unwrap();
    store.set_label(&b, [3, 3, 3, 3, 3]).unwrap();
    let mut all = store.labels();
    all.sort_by(|x, y| x.name.cmp(&y.name));
    assert_eq!(2, all.len());
    assert_eq!("a", all[0].name);
    assert_eq!("b", all[1].name);
    assert_eq!(1, all[1].version);
}

#[test]
fn with_updated_layer_steps_version() {
    let l = Label { name: "n".to_string(), layer: Some([1, 2, 3, 4, 5]), version: 4 };
    let u = l.with_updated_layer(None);
    assert_eq!(Label { name: "n".to_string(), layer: None, version: 5 }, u);
    assert_eq!(l, l.duplicate());
}

#[test]
fn label_table_operations() {
    let mut t = LabelTable::new();
    assert!(t.labels().is_empty());
    let a = t.create_label("a").unwrap();
    assert_eq!(Some(a.clone()), t.get_label("a"));
    assert_eq!(Err(LabelError::LabelAlreadyExists), t.create_label("a"));
    let a1 = t.set_label_option(&a, Some([4, 4, 4, 4, 4])).unwrap().unwrap();
    assert_eq!(1, a1.version);
    assert_eq!(Ok(None), t.set_label_option(&a, None));
    assert_eq!(Some(a1), t.get_label("a"));
}

#[test]
fn racing_updates_from_one_version_let_one_through() {
    let mut store = MemoryLabelStore::new();
    let foo = store.create_label("foo").unwrap();
    let copies = [foo.clone(), foo.clone(), foo.clone()];
    let first = store.set_label(&copies[0], [1, 1, 1, 1, 1]).unwrap().unwrap();
    assert_eq!(None, store.set_label(&copies[1], [2, 2, 2, 2, 2]).unwrap());
    assert_eq!(None, store.set_label_option(&copies[2], None).unwrap());
    assert_eq!(first, store.get_label("foo").unwrap());
    assert_eq!(1, first.version);
}

#[test]
fn racing_creations_let_one_through() {
    let mut store = MemoryLabelStore::new();
    let first = store.create_label("x").unwrap();
    for _ in 0..3 {
        assert_eq!(Err(LabelError::LabelAlreadyExists), store.create_label("x"));
    }
    assert_eq!(first, store.get_label("x").unwrap());
    assert_eq!(1, store.labels().len());
}
