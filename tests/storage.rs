use wasm_vfs::connection::{str_eq, Connection, OpenRegistry, SharedConnectionHandle};
use wasm_vfs::indexeddb_file::{
    dirty_pages, join_pages, on_upgrade, page, page_of, IndexedDBFile, IndexedDBOpenFuture,
    OpenOutcome, PollStatus, SeekFrom, MAX_FILE_SIZE, PAGE_SIZE,
};
use wasm_vfs::WasmVFSError;

fn conn(name: &str, stores: &[&str]) -> Connection {
    Connection {
        name: name.to_string(),
        version: 1,
        stores: stores.iter().map(|s| s.to_string()).collect(),
    }
}

fn ready_handle() -> SharedConnectionHandle {
    let mut h = SharedConnectionHandle::new();
    assert!(h.install(conn("db", &["data"])));
    h
}

fn open_file() -> IndexedDBFile {
    IndexedDBFile::open(true, OpenOutcome::Settled(ready_handle())).unwrap()
}

/// Writes through `f` into `stored` as the host would: plan, store, commit.
fn write(f: &mut IndexedDBFile, stored: &mut Vec<u8>, buf: &[u8]) -> Result<usize, WasmVFSError> {
    let next = f.plan_write(stored, buf)?;
    *stored = next;
    Ok(f.commit_write(buf.len()))
}

#[test]
fn open_without_factory_is_no_support() {
    let r = IndexedDBFile::open(false, OpenOutcome::Settled(ready_handle()));
    assert_eq!(r.unwrap_err(), WasmVFSError::NoSupport);
}

#[test]
fn open_rejected_carries_host_message() {
    let r = IndexedDBFile::open(true, OpenOutcome::Rejected("VersionError".to_string()));
    assert_eq!(r.unwrap_err(), WasmVFSError::WebError("VersionError".to_string()));
}

#[test]
fn open_on_poisoned_slot_fails() {
    let mut h = ready_handle();
    h.poison();
    let r = IndexedDBFile::open(true, OpenOutcome::Settled(h));
    assert_eq!(r.unwrap_err(), WasmVFSError::PoisonedLock);
}

#[test]
fn open_on_empty_slot_is_not_open() {
    let r = IndexedDBFile::open(true, OpenOutcome::Settled(SharedConnectionHandle::new()));
    assert_eq!(r.unwrap_err(), WasmVFSError::NotOpen);
}

#[test]
fn poll_pending_then_ready() {
    let mut h = SharedConnectionHandle::new();
    let mut fut: IndexedDBOpenFuture<u32> = IndexedDBOpenFuture::new();
    assert_eq!(fut.poll(&h, 7), PollStatus::Pending);
    assert_eq!(fut.on_success(&mut h, conn("db", &["data"])), Some(7));
    assert_eq!(fut.poll(&h, 8), PollStatus::Ready(Ok(())));
}

#[test]
fn poll_poisoned_resolves_to_poisoned_lock() {
    let mut h = ready_handle();
    h.poison();
    let mut fut: IndexedDBOpenFuture<u32> = IndexedDBOpenFuture::new();
    assert_eq!(fut.poll(&h, 1), PollStatus::Ready(Err(WasmVFSError::PoisonedLock)));
    let mut empty = SharedConnectionHandle::new();
    empty.poison();
    assert_eq!(fut.poll(&empty, 2), PollStatus::Ready(Err(WasmVFSError::PoisonedLock)));
}

#[test]
fn two_polls_give_one_resumption() {
    let mut h = SharedConnectionHandle::new();
    let mut fut: IndexedDBOpenFuture<u32> = IndexedDBOpenFuture::new();
    assert_eq!(fut.poll(&h, 1), PollStatus::Pending);
    assert_eq!(fut.poll(&h, 2), PollStatus::Pending);
    assert_eq!(fut.on_success(&mut h, conn("db", &["data"])), Some(2));
    assert_eq!(fut.on_success(&mut h, conn("db", &["data"])), None);
}

#[test]
fn second_connection_does_not_replace_first() {
    let mut h = SharedConnectionHandle::new();
    assert!(h.install(conn("first", &["data"])));
    assert!(!h.install(conn("second", &["data"])));
    assert_eq!(h.read().unwrap().name, "first");
    let mut fut: IndexedDBOpenFuture<u32> = IndexedDBOpenFuture::new();
    fut.on_success(&mut h, conn("third", &[]));
    assert_eq!(h.read().unwrap().name, "first");
}

#[test]
fn upgrade_creates_data_store_once() {
    let mut c = conn("db", &["other"]);
    on_upgrade(&mut c);
    assert_eq!(c.stores, vec!["other".to_string(), "data".to_string()]);
    on_upgrade(&mut c);
    assert_eq!(c.stores.len(), 2);
    assert!(c.contains_store("data"));
    assert!(!c.contains_store("dat"));
}

#[test]
fn upgrade_before_success_is_seen_by_poller() {
    let mut h = SharedConnectionHandle::new();
    let mut fut: IndexedDBOpenFuture<u32> = IndexedDBOpenFuture::new();
    assert_eq!(fut.poll(&h, 1), PollStatus::Pending);
    let mut c = conn("db", &[]);
    on_upgrade(&mut c);
    assert_eq!(fut.on_success(&mut h, c), Some(1));
    assert_eq!(fut.poll(&h, 2), PollStatus::Ready(Ok(())));
    assert!(h.read().unwrap().contains_store("data"));
}

#[test]
fn read_from_empty_slot_errors() {
    let h = SharedConnectionHandle::new();
    assert_eq!(h.read().unwrap_err(), WasmVFSError::NotOpen);
}

#[test]
fn string_equality_is_by_characters() {
    assert!(str_eq("data", "data"));
    assert!(!str_eq("data", "dat"));
    assert!(!str_eq("data", "date"));
    assert!(str_eq("", ""));
}

#[test]
fn failure_hands_back_the_waiting_caller_once() {
    let h = SharedConnectionHandle::new();
    let mut fut: IndexedDBOpenFuture<u32> = IndexedDBOpenFuture::new();
    assert_eq!(fut.poll(&h, 5), PollStatus::Pending);
    assert_eq!(fut.on_failure(), Some(5));
    assert_eq!(fut.on_failure(), None);
}

#[test]
fn dirty_pages_cover_write_and_gap() {
    assert_eq!(dirty_pages(10, 0, 5), (0, 1));
    assert_eq!(dirty_pages(10, 10_000, 1), (0, 3));
    assert_eq!(dirty_pages(10_000, 4096, 4096), (1, 2));
    assert_eq!(dirty_pages(10_000, 4095, 2), (0, 2));
    let (a, b) = dirty_pages(10, 20, 0);
    assert_eq!(a, b);
}

#[test]
fn open_succeeds_at_start() {
    let f = open_file();
    assert_eq!(f.position(), 0);
}

#[test]
fn get_store_scopes_partition() {
    let f = open_file();
    let s = f.get_store("data").unwrap();
    assert_eq!(s.store, "data");
    assert_eq!(s.database, "db");
}

#[test]
fn write_then_read_round_trip() {
    let mut stored = Vec::new();
    let mut f = open_file();
    let data: Vec<u8> = (0..100u8).collect();
    assert_eq!(write(&mut f, &mut stored, &data).unwrap(), 100);
    assert_eq!(f.position(), 100);
    assert_eq!(f.seek(SeekFrom::Start(0), stored.len() as u64).unwrap(), 0);
    let mut buf = vec![0u8; 100];
    assert_eq!(f.read(&stored, &mut buf), 100);
    assert_eq!(buf, data);
}

#[test]
fn two_files_of_one_database_share_contents() {
    let mut registry = OpenRegistry::new();
    assert_eq!(registry.slot_for("db"), (0, true));
    assert_eq!(registry.slot_for("db"), (0, false));
    assert_eq!(registry.slot_for("other"), (1, true));
    assert_eq!(registry.len(), 2);
    let handle = ready_handle();
    let mut f1 = IndexedDBFile::open(true, OpenOutcome::Settled(handle.clone())).unwrap();
    let mut f2 = IndexedDBFile::open(true, OpenOutcome::Settled(handle)).unwrap();
    let mut stored = Vec::new();
    assert_eq!(write(&mut f1, &mut stored, &[42]).unwrap(), 1);
    let mut out = [0u8; 1];
    assert_eq!(f2.read(&stored, &mut out), 1);
    assert_eq!(out, [42]);
}

#[test]
fn planned_write_leaves_file_until_commit() {
    let f = open_file();
    let stored = vec![1u8, 2, 3];
    let next = f.plan_write(&stored, &[9, 9]).unwrap();
    assert_eq!(next, vec![9, 9, 3]);
    assert_eq!(f.position(), 0);
}

#[test]
fn seek_past_end_reads_zero_bytes() {
    let stored = vec![1u8, 2, 3];
    let mut f = open_file();
    assert_eq!(f.seek(SeekFrom::Start(10), 3).unwrap(), 10);
    let mut buf = [9u8; 4];
    assert_eq!(f.read(&stored, &mut buf), 0);
    assert_eq!(buf, [9u8; 4]);
    assert_eq!(f.position(), 10);
}

#[test]
fn short_read_at_end() {
    let stored = vec![1u8, 2, 3, 4, 5];
    let mut f = open_file();
    f.seek(SeekFrom::Current(3), 5).unwrap();
    let mut buf = [0u8; 4];
    assert_eq!(f.read(&stored, &mut buf), 2);
    assert_eq!(buf, [4, 5, 0, 0]);
    assert_eq!(f.position(), 5);
}

#[test]
fn seek_end_relative_and_invalid() {
    let mut f = open_file();
    assert_eq!(f.seek(SeekFrom::End(-4), 10).unwrap(), 6);
    assert_eq!(f.seek(SeekFrom::Current(-2), 10).unwrap(), 4);
    assert_eq!(f.seek(SeekFrom::End(-11), 10).unwrap_err(), WasmVFSError::InvalidSeek);
    assert_eq!(f.position(), 4);
    assert_eq!(f.seek(SeekFrom::Current(-5), 10).unwrap_err(), WasmVFSError::InvalidSeek);
}

#[test]
fn write_past_end_fills_gap_with_zeros() {
    let mut stored = vec![7u8, 7];
    let mut f = open_file();
    f.seek(SeekFrom::Start(4), 2).unwrap();
    assert_eq!(write(&mut f, &mut stored, &[1, 2]).unwrap(), 2);
    assert_eq!(stored, vec![7, 7, 0, 0, 1, 2]);
}

#[test]
fn write_past_largest_size_is_refused() {
    let mut f = open_file();
    f.seek(SeekFrom::Start(MAX_FILE_SIZE), 0).unwrap();
    assert_eq!(f.plan_write(&[], &[1]).unwrap_err(), WasmVFSError::FileTooLarge);
    assert_eq!(f.position(), MAX_FILE_SIZE);
}

#[test]
fn flush_succeeds() {
    let f = open_file();
    assert_eq!(f.flush(), Ok(()));
}

#[test]
fn pages_split_and_join() {
    let contents: Vec<u8> = (0..(PAGE_SIZE as usize + 10)).map(|i| (i % 251) as u8).collect();
    let p0 = page(&contents, 0);
    let p1 = page(&contents, 1);
    assert_eq!(p0, contents[..PAGE_SIZE as usize].to_vec());
    assert_eq!(p1, contents[PAGE_SIZE as usize..].to_vec());
    assert!(page(&contents, 2).is_empty());
    assert!(page(&contents, u64::MAX).is_empty());
    assert_eq!(join_pages(&vec![p0, p1]).unwrap(), contents);
    assert_eq!(page_of(0), 0);
    assert_eq!(page_of(4095), 0);
    assert_eq!(page_of(4096), 1);
}

#[test]
fn join_refuses_short_inner_page() {
    assert_eq!(join_pages(&vec![vec![1, 2], vec![3]]).unwrap_err(), WasmVFSError::CorruptPages);
    assert_eq!(join_pages(&vec![vec![0; PAGE_SIZE as usize + 1]]).unwrap_err(), WasmVFSError::CorruptPages);
    assert_eq!(join_pages(&vec![]).unwrap(), Vec::<u8>::new());
}
