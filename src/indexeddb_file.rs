use vstd::prelude::*;

use crate::connection::{has_name, installed, upgraded, Connection, SharedConnectionHandle};
use crate::error::{WasmVFSError, WasmVFSResult};

verus! {

/// Size in bytes of one page of a file, the unit in which file contents are
/// keyed inside a partition.
pub const PAGE_SIZE: u64 = 4096;

/// Name of the partition that holds the file pages.
pub open spec fn data_store() -> Seq<char> {
    seq!['d', 'a', 't', 'a']
}

/// Index of the page that holds byte `offset`.
pub fn page_of(offset: u64) -> (r: u64)
    ensures
        r == offset / PAGE_SIZE,
{
    offset / PAGE_SIZE
}

/// The pages to store after writing `n` bytes at `offset` into a file of
/// `old_len` bytes, as the range `first..end` of page indices: every page
/// from the one holding the old end (or `offset`, if earlier) through the
/// one holding the last byte written, so that a zero-filled gap is stored
/// too. Empty when nothing was written.
pub fn dirty_pages(old_len: u64, offset: u64, n: u64) -> (r: (u64, u64))
    requires
        offset + n <= MAX_FILE_SIZE,
        old_len <= MAX_FILE_SIZE,
    ensures
        n == 0 ==> r.0 == r.1,
        n > 0 ==> r.0 as int == (if old_len < offset { old_len } else { offset }) as int / PAGE_SIZE as int
            && r.1 as int == (offset + n - 1) as int / PAGE_SIZE as int + 1,
{
    if n == 0 {
        return (0, 0);
    }
    let from = if old_len < offset { old_len } else { offset };
    (from / PAGE_SIZE, (offset + n - 1) / PAGE_SIZE + 1)
}

/// The outcome of one poll of a pending open.
#[derive(Debug, PartialEq, Eq)]
pub enum PollStatus {
    Pending,
    Ready(WasmVFSResult<()>),
}

/// What a poll answers for a slot in the given state.
pub open spec fn poll_outcome(poisoned: bool, conn: Option<Connection>) -> PollStatus {
    if poisoned {
        PollStatus::Ready(Err(WasmVFSError::PoisonedLock))
    } else if conn is Some {
        PollStatus::Ready(Ok(()))
    } else {
        PollStatus::Pending
    }
}

/// The resumption token held after a poll that was handed `waker`: a
/// pending poll replaces the stored token, a resolving one leaves it.
pub open spec fn waker_after_poll<W>(prev: Option<W>, poisoned: bool, conn: Option<Connection>, waker: W) -> Option<W> {
    if poll_outcome(poisoned, conn) is Pending {
        Some(waker)
    } else {
        prev
    }
}

/// The state of a pending open: the single resumption token of the caller
/// that waits for the connection.
pub struct IndexedDBOpenFuture<W> {
    waker: Option<W>,
}

impl<W> IndexedDBOpenFuture<W> {
    /// The resumption token currently registered.
    pub closed spec fn registered(&self) -> Option<W> {
        self.waker
    }

    /// A pending open with no caller registered yet.
    pub fn new() -> (r: Self)
        ensures
            r.registered() is None,
    {
        IndexedDBOpenFuture { waker: None }
    }

    /// Polls the open against the state of its slot. A poisoned slot
    /// resolves the open to `PoisonedLock`, a slot holding a connection
    /// resolves it successfully; otherwise the open stays pending and
    /// `waker` becomes the one token to resume.
    pub fn poll(&mut self, handle: &SharedConnectionHandle, waker: W) -> (r: PollStatus)
        ensures
            r == poll_outcome(handle.is_poisoned(), handle.connection()),
            final(self).registered() == waker_after_poll(
                old(self).registered(),
                handle.is_poisoned(),
                handle.connection(),
                waker,
            ),
    {
        if handle.poisoned() {
            return PollStatus::Ready(Err(WasmVFSError::PoisonedLock));
        }
        match handle.read() {
            Ok(_) => PollStatus::Ready(Ok(())),
            Err(_) => {
                self.waker = Some(waker);
                PollStatus::Pending
            },
        }
    }

    /// The success step of the open request: stores `conn` into the slot
    /// (unless a connection is already there) and hands back the token to
    /// resume, clearing it, so that a later spurious success resumes nobody.
    pub fn on_success(&mut self, handle: &mut SharedConnectionHandle, conn: Connection) -> (r: Option<W>)
        ensures
            r == old(self).registered(),
            final(self).registered() is None,
            final(handle).is_poisoned() == old(handle).is_poisoned(),
            final(handle).connection() == installed(old(handle).is_poisoned(), old(handle).connection(), conn),
    {
        handle.install(conn);
        self.waker.take()
    }

    /// The error step of the open request: hands back the token to resume
    /// and clears it, leaving the slot as it is.
    pub fn on_failure(&mut self) -> (r: Option<W>)
        ensures
            r == old(self).registered(),
            final(self).registered() is None,
    {
        self.waker.take()
    }
}

/// The upgrade step of the open request: creates the data partition if the
/// database does not hold it yet.
pub fn on_upgrade(conn: &mut Connection)
    ensures
        upgraded(*old(conn), *final(conn), data_store()),
{
    proof {
        reveal_strlit("data");
        assert("data"@ =~= data_store());
    }
    conn.ensure_store("data");
}

/// Polling a pending open twice, or again with the same caller, leaves
/// exactly one resumption token registered: the last caller's. The success
/// step hands back that one token and clears it.
pub proof fn lemma_single_resumption<W>(prev: Option<W>, first: W, second: W)
    ensures
        ({
            let after_first = waker_after_poll(prev, false, None, first);
            let after_second = waker_after_poll(after_first, false, None, second);
            &&& after_second == Some(second)
            &&& waker_after_poll(after_second, false, None, second) == Some(second)
        }),
{
}

/// A poisoned slot resolves every poll to `PoisonedLock`, whether or not
/// it holds a connection, and keeps the registered token as it was.
pub proof fn lemma_poisoned_resolves<W>(prev: Option<W>, conn: Option<Connection>, waker: W)
    ensures
        poll_outcome(true, conn) == PollStatus::Ready(Err(WasmVFSError::PoisonedLock)),
        waker_after_poll(prev, true, conn, waker) == prev,
{
}

/// When the upgrade step runs, the connection that the success step then
/// stores into a fresh slot already holds the data partition, and the
/// first poll that sees it resolves successfully.
pub proof fn lemma_upgrade_before_success(before: Connection, after: Connection)
    requires
        upgraded(before, after, data_store()),
    ensures
        installed(false, None, after) == Some(after),
        has_name(after.stores@, data_store()),
        poll_outcome(false, installed(false, None, after)) == PollStatus::Ready(Ok(())),
{
}

} // verus!

verus! {

/// Largest size in bytes of a file: one operation holds the file's bytes
/// in memory, and a 32-bit address space bounds them.
pub const MAX_FILE_SIZE: u64 = 0xFFFF_FFFF;

/// Where a seek counts from.
#[derive(Debug, Clone, Copy, PartialEq, Eq)]
pub enum SeekFrom {
    Start(u64),
    End(i64),
    Current(i64),
}

/// What became of the host open request once it settled.
pub enum OpenOutcome {
    /// The host rejected the request with this message.
    Rejected(String),
    /// The request settled into this slot.
    Settled(SharedConnectionHandle),
}

/// Whether an open with this factory and this outcome yields a file: the
/// factory exists and the request succeeded into a slot that holds a
/// connection.
pub open spec fn open_succeeds(has_factory: bool, outcome: OpenOutcome) -> bool {
    has_factory && match outcome {
        OpenOutcome::Rejected(_) => false,
        OpenOutcome::Settled(h) => h.is_ready(),
    }
}

/// The scope of one fresh transaction: the database and the partition it
/// is bound to.
#[derive(Debug, Clone)]
pub struct StoreScope {
    pub database: String,
    pub store: String,
}

/// The error that a read view of `handle` gives, if any.
pub open spec fn access_error(handle: SharedConnectionHandle) -> Option<WasmVFSError> {
    if handle.is_poisoned() {
        Some(WasmVFSError::PoisonedLock)
    } else if handle.connection() is None {
        Some(WasmVFSError::NotOpen)
    } else {
        None
    }
}

/// Number of bytes that a read of up to `n` bytes at `pos` yields from a
/// file of `len` bytes.
pub open spec fn read_len(len: int, pos: int, n: int) -> int {
    if pos >= len {
        0
    } else if n <= len - pos {
        n
    } else {
        len - pos
    }
}

/// The bytes that a read of up to `n` bytes at `pos` yields.
pub open spec fn read_bytes(content: Seq<u8>, pos: int, n: int) -> Seq<u8> {
    content.subrange(
        if pos >= content.len() { content.len() as int } else { pos },
        if pos >= content.len() { content.len() as int } else { pos + read_len(content.len() as int, pos, n) },
    )
}

/// The contents after writing `data` at `pos`: a gap before `pos` is
/// filled with zeros.
pub open spec fn written(content: Seq<u8>, pos: int, data: Seq<u8>) -> Seq<u8> {
    let end = pos + data.len();
    let len = if end > content.len() { end } else { content.len() as int };
    Seq::new(
        len as nat,
        |i: int|
            if pos <= i < end {
                data[i - pos]
            } else if i < content.len() {
                content[i]
            } else {
                0u8
            },
    )
}

/// The offset that a seek aims at, before it is checked.
pub open spec fn seek_target(len: int, pos: int, from: SeekFrom) -> int {
    match from {
        SeekFrom::Start(o) => o as int,
        SeekFrom::End(d) => len + d,
        SeekFrom::Current(d) => pos + d,
    }
}

/// The bytes of a file stored as pages: the pages joined in key order.
pub open spec fn concat_pages(pages: Seq<Seq<u8>>) -> Seq<u8>
    decreases pages.len(),
{
    if pages.len() == 0 {
        Seq::empty()
    } else {
        concat_pages(pages.drop_last()) + pages.last()
    }
}

/// Whether stored pages have the shape that writes give them: every page
/// full but the last, which holds at most a page.
pub open spec fn pages_well_formed(pages: Seq<Seq<u8>>) -> bool {
    forall|i: int|
        0 <= i < pages.len() ==> (#[trigger] pages[i]).len() <= PAGE_SIZE && (i < pages.len() - 1 ==> pages[i].len()
            == PAGE_SIZE)
}

/// The byte contents of each page.
pub open spec fn page_views(pages: Seq<Vec<u8>>) -> Seq<Seq<u8>> {
    pages.map_values(|p: Vec<u8>| p@)
}

proof fn lemma_concat_prefix_len(pages: Seq<Seq<u8>>, k: int)
    requires
        0 <= k <= pages.len(),
    ensures
        concat_pages(pages.take(k)).len() <= concat_pages(pages).len(),
    decreases pages.len(),
{
    if k == pages.len() {
        assert(pages.take(k) =~= pages);
    } else {
        assert(pages.drop_last().take(k) =~= pages.take(k));
        lemma_concat_prefix_len(pages.drop_last(), k);
    }
}

/// Joins the pages read from the data partition under keys 0, 1, ... into
/// the file's bytes. Pages of another shape are refused with
/// `CorruptPages`; bytes over the largest file size with `FileTooLarge`.
pub fn join_pages(pages: &Vec<Vec<u8>>) -> (r: WasmVFSResult<Vec<u8>>)
    ensures
        !pages_well_formed(page_views(pages@)) ==> r == Err::<Vec<u8>, _>(WasmVFSError::CorruptPages),
        pages_well_formed(page_views(pages@)) && concat_pages(page_views(pages@)).len() > MAX_FILE_SIZE
            ==> r == Err::<Vec<u8>, _>(WasmVFSError::FileTooLarge),
        pages_well_formed(page_views(pages@)) && concat_pages(page_views(pages@)).len() <= MAX_FILE_SIZE
            ==> (r matches Ok(c) && c@ == concat_pages(page_views(pages@))),
{
    let ghost views = page_views(pages@);
    let count = pages.len();
    let mut i: usize = 0;
    while i < count
        invariant
            count == pages@.len(),
            views == page_views(pages@),
            i <= count,
            forall|j: int|
                0 <= j < i ==> (#[trigger] views[j]).len() <= PAGE_SIZE && (j < count - 1 ==> views[j].len()
                    == PAGE_SIZE),
        decreases count - i,
    {
        let len = pages[i].len();
        if len as u64 > PAGE_SIZE || (i + 1 < count && len as u64 != PAGE_SIZE) {
            assert(views[i as int] == pages@[i as int]@);
            return Err(WasmVFSError::CorruptPages);
        }
        i = i + 1;
    }
    let mut out: Vec<u8> = Vec::new();
    let mut i: usize = 0;
    while i < count
        invariant
            count == pages@.len(),
            views == page_views(pages@),
            pages_well_formed(views),
            i <= count,
            out@ == concat_pages(views.take(i as int)),
            out@.len() <= MAX_FILE_SIZE,
        decreases count - i,
    {
        assert(views.take(i + 1).drop_last() =~= views.take(i as int));
        assert(views[i as int] == pages@[i as int]@);
        let page = &pages[i];
        if out.len() as u64 + page.len() as u64 > MAX_FILE_SIZE {
            proof {
                lemma_concat_prefix_len(views, i + 1);
            }
            return Err(WasmVFSError::FileTooLarge);
        }
        let ghost before = out@;
        let mut j: usize = 0;
        while j < page.len()
            invariant
                before.len() + page@.len() <= MAX_FILE_SIZE,
                j <= page@.len(),
                out@ == before + page@.subrange(0, j as int),
            decreases page@.len() - j,
        {
            out.push(page[j]);
            assert(page@.subrange(0, j + 1) =~= page@.subrange(0, j as int).push(page@[j as int]));
            j = j + 1;
        }
        assert(page@.subrange(0, page@.len() as int) =~= page@);
        i = i + 1;
    }
    assert(views.take(count as int) =~= views);
    Ok(out)
}

/// The bytes of page `index` of `contents`, as stored under that key in
/// the data partition: empty for a page past the end, short for the last
/// one.
pub fn page(contents: &Vec<u8>, index: u64) -> (r: Vec<u8>)
    requires
        contents@.len() <= MAX_FILE_SIZE,
    ensures
        r@ == read_bytes(contents@, index * PAGE_SIZE, PAGE_SIZE as int),
{
    let len = contents.len();
    if index > MAX_FILE_SIZE / PAGE_SIZE || index * PAGE_SIZE >= len as u64 {
        proof {
            assert(index * PAGE_SIZE >= len) by (nonlinear_arith)
                requires
                    index > MAX_FILE_SIZE / PAGE_SIZE || index * PAGE_SIZE >= len,
                    len <= MAX_FILE_SIZE,
            ;
        }
        assert(read_bytes(contents@, index * PAGE_SIZE, PAGE_SIZE as int) =~= Seq::<u8>::empty());
        return Vec::new();
    }
    let start = (index * PAGE_SIZE) as usize;
    let avail = len - start;
    let n: usize = if avail < PAGE_SIZE as usize { avail } else { PAGE_SIZE as usize };
    let mut out: Vec<u8> = Vec::new();
    let mut i: usize = 0;
    while i < n
        invariant
            start + n <= len,
            len == contents@.len(),
            i <= n,
            out@ =~= contents@.subrange(start as int, start + i),
        decreases n - i,
    {
        out.push(contents[start + i]);
        i = i + 1;
    }
    assert(out@ =~= read_bytes(contents@, index * PAGE_SIZE, PAGE_SIZE as int));
    out
}

/// One logical file kept in the data partition of a database, with its
/// cursor. The file holds no bytes of its own: every operation works on
/// the bytes stored in the partition at that moment, so all files of one
/// database see the same contents.
#[derive(Debug, Clone)]
pub struct IndexedDBFile {
    db: SharedConnectionHandle,
    pos: u64,
}

impl IndexedDBFile {
    /// The slot of the connection the file lives in.
    pub closed spec fn handle(&self) -> SharedConnectionHandle {
        self.db
    }

    /// The cursor position.
    pub closed spec fn cursor(&self) -> int {
        self.pos as int
    }

    /// An open file: its connection is established.
    pub open spec fn wf(&self) -> bool {
        &&& self.handle().is_ready()
        &&& 0 <= self.cursor() <= u64::MAX
    }

    /// Finishes an open. It fails with `NoSupport` where the host offers no
    /// storage factory, with the host's message where it rejected the
    /// request, and with the slot's read error where the request settled
    /// without a usable connection. Otherwise the file is open, its cursor
    /// at the start.
    pub fn open(has_factory: bool, outcome: OpenOutcome) -> (r: WasmVFSResult<Self>)
        ensures
            !has_factory ==> r == Err::<Self, _>(WasmVFSError::NoSupport),
            has_factory ==> match outcome {
                OpenOutcome::Rejected(m) => r == Err::<Self, _>(WasmVFSError::WebError(m)),
                OpenOutcome::Settled(h) => match access_error(h) {
                    Some(e) => r == Err::<Self, _>(e),
                    None => r matches Ok(f) && (f.wf() && f.handle() == h && f.cursor() == 0),
                },
            },
            r is Ok <==> open_succeeds(has_factory, outcome),
    {
        if !has_factory {
            return Err(WasmVFSError::NoSupport);
        }
        match outcome {
            OpenOutcome::Rejected(m) => Err(WasmVFSError::WebError(m)),
            OpenOutcome::Settled(h) => {
                match h.read() {
                    Err(e) => Err(e),
                    Ok(_) => Ok(IndexedDBFile { db: h, pos: 0 }),
                }
            },
        }
    }

    /// A fresh transaction scope bound to the partition `store` of the
    /// file's connection; the slot's read error where there is none.
    pub fn get_store(&self, store: &str) -> (r: WasmVFSResult<StoreScope>)
        ensures
            match access_error(self.handle()) {
                Some(e) => r == Err::<StoreScope, _>(e),
                None => r matches Ok(s) && (s.store@ == store@
                    && s.database@ == self.handle().connection()->Some_0.name@),
            },
    {
        let conn = self.db.read()?;
        Ok(StoreScope { database: conn.name.clone(), store: String::from_str(store) })
    }

    /// The cursor position.
    pub fn position(&self) -> (r: u64)
        ensures
            r == self.cursor(),
    {
        self.pos
    }

    /// Reads from the cursor into `buf`, out of the file's bytes `stored` as
    /// just read from the partition: as many bytes as fit and as the file
    /// holds past the cursor, none at or past the end. The cursor advances
    /// by the count, which is returned.
    pub fn read(&mut self, stored: &[u8], buf: &mut [u8]) -> (r: usize)
        requires
            old(self).wf(),
        ensures
            final(self).handle() == old(self).handle(),
            ({
                let n = read_len(stored@.len() as int, old(self).cursor(), old(buf)@.len() as int);
                &&& r == n
                &&& final(buf)@.len() == old(buf)@.len()
                &&& final(buf)@.subrange(0, n) == read_bytes(stored@, old(self).cursor(), old(buf)@.len() as int)
                &&& final(buf)@.subrange(n, old(buf)@.len() as int) == old(buf)@.subrange(n, old(buf)@.len() as int)
                &&& final(self).cursor() == old(self).cursor() + n
            }),
    {
        let len = stored.len();
        if self.pos >= len as u64 {
            return 0;
        }
        let start = self.pos as usize;
        let avail = len - start;
        let n = if buf.len() <= avail { buf.len() } else { avail };
        let ghost before = buf@;
        let mut i: usize = 0;
        while i < n
            invariant
                n <= buf@.len(),
                start + n <= len,
                len == stored@.len(),
                i <= n,
                buf@.len() == before.len(),
                forall|j: int| 0 <= j < i ==> buf@[j] == stored@[start + j],
                forall|j: int| i <= j < buf@.len() ==> buf@[j] == before[j],
            decreases n - i,
        {
            buf[i] = stored[start + i];
            i = i + 1;
        }
        self.pos = self.pos + n as u64;
        assert(buf@.subrange(0, n as int) =~= read_bytes(stored@, start as int, before.len() as int));
        assert(buf@.subrange(n as int, before.len() as int) =~= before.subrange(n as int, before.len() as int));
        n
    }

    /// Moves the cursor to the offset that `from` aims at, where `size` is
    /// the file's size as the partition reports it. An offset before the
    /// start of the file, or past the largest `u64`, is refused with
    /// `InvalidSeek` and leaves the cursor alone. Seeking past the end is
    /// allowed.
    pub fn seek(&mut self, from: SeekFrom, size: u64) -> (r: WasmVFSResult<u64>)
        requires
            old(self).wf(),
        ensures
            final(self).wf(),
            final(self).handle() == old(self).handle(),
            ({
                let t = seek_target(size as int, old(self).cursor(), from);
                if 0 <= t <= u64::MAX {
                    r == Ok::<u64, WasmVFSError>(t as u64) && final(self).cursor() == t
                } else {
                    r == Err::<u64, WasmVFSError>(WasmVFSError::InvalidSeek) && final(self).cursor() == old(self).cursor()
                }
            }),
    {
        let target: i128 = match from {
            SeekFrom::Start(o) => o as i128,
            SeekFrom::End(d) => size as i128 + d as i128,
            SeekFrom::Current(d) => self.pos as i128 + d as i128,
        };
        if target < 0 || target > u64::MAX as i128 {
            return Err(WasmVFSError::InvalidSeek);
        }
        self.pos = target as u64;
        Ok(self.pos)
    }

    /// The first step of a write: the file's bytes after writing `buf` at
    /// the cursor into `stored`, a gap past the end filled with zeros. The
    /// file itself is left alone until the write is committed. A write
    /// that would end past the largest file size is refused with
    /// `FileTooLarge`.
    pub fn plan_write(&self, stored: &[u8], buf: &[u8]) -> (r: WasmVFSResult<Vec<u8>>)
        requires
            stored@.len() <= MAX_FILE_SIZE,
        ensures
            self.cursor() + buf@.len() > MAX_FILE_SIZE ==> r == Err::<Vec<u8>, _>(WasmVFSError::FileTooLarge),
            self.cursor() + buf@.len() <= MAX_FILE_SIZE ==> (r matches Ok(c) && c@ == written(
                stored@,
                self.cursor(),
                buf@,
            )),
    {
        let n = buf.len();
        if self.pos > MAX_FILE_SIZE || n as u64 > MAX_FILE_SIZE - self.pos {
            return Err(WasmVFSError::FileTooLarge);
        }
        let p = self.pos as usize;
        let mut content: Vec<u8> = Vec::new();
        let mut k: usize = 0;
        while k < stored.len()
            invariant
                k <= stored@.len(),
                content@ =~= stored@.subrange(0, k as int),
            decreases stored@.len() - k,
        {
            content.push(stored[k]);
            k = k + 1;
        }
        let ghost c = stored@;
        while content.len() < p
            invariant
                c.len() <= content@.len(),
                content@.len() <= if p < c.len() { c.len() } else { p as nat },
                forall|j: int| 0 <= j < c.len() ==> content@[j] == c[j],
                forall|j: int| c.len() <= j < content@.len() ==> content@[j] == 0u8,
            decreases p - content@.len(),
        {
            content.push(0u8);
        }
        assert(content@ =~= written(c, p as int, buf@.subrange(0, 0)));
        let mut i: usize = 0;
        while i < n
            invariant
                n == buf@.len(),
                p + n <= MAX_FILE_SIZE,
                i <= n,
                content@ =~= written(c, p as int, buf@.subrange(0, i as int)),
            decreases n - i,
        {
            if p + i < content.len() {
                content[p + i] = buf[i];
            } else {
                content.push(buf[i]);
            }
            assert(content@ =~= written(c, p as int, buf@.subrange(0, i + 1)));
            i = i + 1;
        }
        assert(buf@.subrange(0, n as int) =~= buf@);
        Ok(content)
    }

    /// The last step of a write, once every page of it is stored: the
    /// cursor advances by the `n` bytes written, which are returned.
    pub fn commit_write(&mut self, n: usize) -> (r: usize)
        requires
            old(self).wf(),
            old(self).cursor() + n <= u64::MAX,
        ensures
            final(self).wf(),
            final(self).handle() == old(self).handle(),
            final(self).cursor() == old(self).cursor() + n,
            r == n,
    {
        self.pos = self.pos + n as u64;
        n
    }

    /// Makes sure that no write is left uncommitted. A write changes the
    /// file only once its pages are stored, so the file stays as it is.
    pub fn flush(&self) -> (r: WasmVFSResult<()>)
        ensures
            r == Ok::<(), WasmVFSError>(()),
    {
        Ok(())
    }
}

} // verus!

verus! {

/// Writing `data` at the start of a file, seeking back to the start and
/// reading as many bytes gives `data` back.
pub proof fn lemma_write_read_round_trip(content: Seq<u8>, data: Seq<u8>)
    ensures
        ({
            let after = written(content, 0, data);
            let back = seek_target(after.len() as int, data.len() as int, SeekFrom::Start(0));
            &&& back == 0
            &&& read_len(after.len() as int, back, data.len() as int) == data.len()
            &&& read_bytes(after, back, data.len() as int) == data
        }),
{
    let after = written(content, 0, data);
    assert(read_bytes(after, 0, data.len() as int) =~= data);
}

/// A seek that lands at or past the end of the file is accepted, and the
/// read that follows yields no bytes.
pub proof fn lemma_read_past_end(content: Seq<u8>, cursor: int, from: SeekFrom, n: int)
    requires
        content.len() <= seek_target(content.len() as int, cursor, from) <= u64::MAX,
    ensures
        ({
            let t = seek_target(content.len() as int, cursor, from);
            &&& read_len(content.len() as int, t, n) == 0
            &&& read_bytes(content, t, n) == Seq::<u8>::empty()
        }),
{
    let t = seek_target(content.len() as int, cursor, from);
    assert(read_bytes(content, t, n) =~= Seq::<u8>::empty());
}

} // verus!
