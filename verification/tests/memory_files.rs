use terminus_store::storage::buffer::{read_at, read_rest, write_at};
use terminus_store::storage::memory::{FileError, MemoryBackedStore};

#[test]
fn write_and_read_memory_backed() {
    let file = MemoryBackedStore::new();

    let mut w = file.open_write();
    assert_eq!(Ok(3), w.write(&[1, 2, 3]));

    let mut r = file.open_read();
    let mut buf = Vec::new();
    r.read_to_end(&mut buf);

    assert_eq!(vec![1, 2, 3], buf);
}

#[test]
fn write_and_map_memory_backed() {
    let file = MemoryBackedStore::new();

    let mut w = file.open_write();
    w.write(&[1, 2, 3]).unwrap();

    assert_eq!(vec![1, 2, 3], *file.map().0);
}

#[test]
fn clones_share_the_same_bytes() {
    let file = MemoryBackedStore::new();
    let other = file.clone();
    let shared = file.share();
    other.open_write().write(&[9, 8]).unwrap();
    assert_eq!(2, file.size());
    assert_eq!(vec![9, 8], *shared.map().0);
}

#[test]
fn consecutive_writes_append() {
    let file = MemoryBackedStore::new();
    let mut w = file.open_write();
    w.write(&[1, 2]).unwrap();
    w.write(&[3]).unwrap();
    w.write(&[]).unwrap();
    w.write(&[4, 5]).unwrap();
    assert_eq!(vec![1, 2, 3, 4, 5], *file.map().0);
}

#[test]
fn write_from_offset_overwrites_and_grows() {
    let file = MemoryBackedStore::new();
    file.open_write().write(&[1, 2, 3, 4]).unwrap();
    file.open_write_from(2).write(&[7, 8, 9]).unwrap();
    assert_eq!(vec![1, 2, 7, 8, 9], *file.map().0);
    file.open_write_from(1).write(&[0]).unwrap();
    assert_eq!(vec![1, 0, 7, 8, 9], *file.map().0);
    assert_eq!(5, file.size());
}

#[test]
fn write_past_end_is_refused() {
    let file = MemoryBackedStore::new();
    file.open_write().write(&[1]).unwrap();
    let mut w = file.open_write_from(3);
    assert_eq!(Err(FileError::PositionPastEnd), w.write(&[5]));
    assert_eq!(vec![1], *file.map().0);
    // writing exactly at the end is fine
    assert_eq!(Ok(1), file.open_write_from(1).write(&[2]));
    assert_eq!(vec![1, 2], *file.map().0);
}

#[test]
fn read_in_chunks() {
    let file = MemoryBackedStore::new();
    file.open_write().write(&[1, 2, 3, 4, 5]).unwrap();
    let mut r = file.open_read_from(1);
    let mut buf = [0u8; 3];
    assert_eq!(3, r.read(&mut buf));
    assert_eq!([2, 3, 4], buf);
    let mut buf = [9u8; 3];
    assert_eq!(1, r.read(&mut buf));
    assert_eq!([5, 9, 9], buf);
    assert_eq!(0, r.read(&mut buf));
    assert_eq!([5, 9, 9], buf);
}

#[test]
fn read_past_end_reads_nothing() {
    let file = MemoryBackedStore::new();
    file.open_write().write(&[1, 2]).unwrap();
    let mut r = file.open_read_from(7);
    let mut buf = [4u8; 2];
    assert_eq!(0, r.read(&mut buf));
    assert_eq!([4, 4], buf);
    let mut out = vec![6];
    assert_eq!(0, r.read_to_end(&mut out));
    assert_eq!(vec![6], out);
}

#[test]
fn read_to_end_from_offset_appends() {
    let file = MemoryBackedStore::new();
    file.open_write().write(&[1, 2, 3]).unwrap();
    let mut r = file.open_read_from(1);
    let mut out = vec![0];
    assert_eq!(2, r.read_to_end(&mut out));
    assert_eq!(vec![0, 2, 3], out);
}

#[test]
fn map_of_empty_file_is_empty() {
    let file = MemoryBackedStore::new();
    assert_eq!(0, file.size());
    let m = file.map();
    assert!(m.as_ref().is_empty());
}

#[test]
fn write_at_grows_buffer() {
    let mut v = vec![1, 2, 3];
    assert_eq!(3, write_at(&mut v, 2, &[7, 8, 9]));
    assert_eq!(vec![1, 2, 7, 8, 9], v);
    assert_eq!(1, write_at(&mut v, 0, &[5]));
    assert_eq!(vec![5, 2, 7, 8, 9], v);
    assert_eq!(2, write_at(&mut v, 5, &[6, 6]));
    assert_eq!(vec![5, 2, 7, 8, 9, 6, 6], v);
}

#[test]
fn read_back_what_was_written() {
    let mut v = vec![4, 4, 4, 4];
    write_at(&mut v, 1, &[1, 2]);
    let mut buf = [0u8; 2];
    assert_eq!(2, read_at(&v, 1, &mut buf));
    assert_eq!([1, 2], buf);
}

#[test]
fn read_at_copies_what_fits() {
    let v = [1u8, 2, 3];
    let mut buf = [0u8; 5];
    assert_eq!(2, read_at(&v, 1, &mut buf));
    assert_eq!([2, 3, 0, 0, 0], buf);
    let mut small = [0u8; 1];
    assert_eq!(1, read_at(&v, 0, &mut small));
    assert_eq!([1], small);
    assert_eq!(0, read_at(&v, 3, &mut small));
}

#[test]
fn read_rest_appends_tail() {
    let v = [1u8, 2, 3];
    let mut out = vec![9];
    assert_eq!(2, read_rest(&v, 1, &mut out));
    assert_eq!(vec![9, 2, 3], out);
    assert_eq!(0, read_rest(&v, 4, &mut out));
    assert_eq!(vec![9, 2, 3], out);
}

#[test]
fn write_and_read_back_with_read_until_empty() {
    let file = MemoryBackedStore::new();
    file.open_write().write(&[1, 2, 3, 4, 5]).unwrap();

    let mut r = file.open_read();
    let mut out = Vec::new();
    let mut buf = [0u8; 2];
    loop {
        let n = r.read(&mut buf);
        if n == 0 {
            break;
        }
        out.extend_from_slice(&buf[..n]);
    }
    assert_eq!(vec![1, 2, 3, 4, 5], out);
    assert_eq!(5, r.position());
}

#[test]
fn snapshot_copies_bytes() {
    let m = terminus_store::storage::memory::snapshot(&[3, 1, 4]);
    assert_eq!(vec![3, 1, 4], *m.0);
    assert!(terminus_store::storage::memory::snapshot(&[]).0.is_empty());
}

#[test]
fn write_at_start_always_succeeds() {
    let file = MemoryBackedStore::new();
    assert_eq!(Ok(0), file.open_write().write(&[]));
    assert_eq!(Ok(2), file.open_write().write(&[5, 6]));
    file.open_write_from(2).write(&[7]).unwrap();
    assert_eq!(Ok(1), file.open_write().write(&[1]));
    assert_eq!(vec![1, 6, 7], *file.map().0);
}
