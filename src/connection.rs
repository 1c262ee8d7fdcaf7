use vstd::prelude::*;

use crate::error::{WasmVFSError, WasmVFSResult};

verus! {

/// What the library knows of a live link to a named host database: its
/// name, its schema version and the names of its partitions.
#[derive(Debug, Clone)]
pub struct Connection {
    pub name: String,
    pub version: u64,
    pub stores: Vec<String>,
}

/// Whether one of `names` is `name`.
pub open spec fn has_name(names: Seq<String>, name: Seq<char>) -> bool {
    exists|i: int| 0 <= i < names.len() && #[trigger] names[i]@ == name
}

/// Whether no two of `names` are equal.
pub open spec fn names_distinct(names: Seq<String>) -> bool {
    forall|i: int, j: int| 0 <= i < names.len() && 0 <= j < names.len() && i != j ==> names[i]@ != names[j]@
}

/// The index of `name` among `names`, if it is one of them.
pub fn index_of(names: &Vec<String>, name: &str) -> (r: Option<usize>)
    ensures
        r is None <==> !has_name(names@, name@),
        r matches Some(i) ==> (i < names@.len() && names@[i as int]@ == name@),
{
    let mut i: usize = 0;
    while i < names.len()
        invariant
            i <= names@.len(),
            forall|j: int| 0 <= j < i ==> names@[j]@ != name@,
        decreases names.len() - i,
    {
        if str_eq(names[i].as_str(), name) {
            return Some(i);
        }
        i = i + 1;
    }
    None
}

/// `after` is `before` once a partition named `name` has been made sure
/// of: created at the end if it was missing, everything else kept.
pub open spec fn upgraded(before: Connection, after: Connection, name: Seq<char>) -> bool {
    &&& after.name == before.name
    &&& after.version == before.version
    &&& has_name(after.stores@, name)
    &&& if has_name(before.stores@, name) {
        after.stores@ == before.stores@
    } else {
        &&& after.stores@.len() == before.stores@.len() + 1
        &&& after.stores@.drop_last() == before.stores@
        &&& after.stores@.last()@ == name
    }
}

/// Character-wise equality of two strings.
pub fn str_eq(a: &str, b: &str) -> (r: bool)
    ensures
        r == (a@ == b@),
{
    let n = a.unicode_len();
    if n != b.unicode_len() {
        return false;
    }
    let mut i: usize = 0;
    while i < n
        invariant
            n == a@.len(),
            n == b@.len(),
            i <= n,
            a@.subrange(0, i as int) == b@.subrange(0, i as int),
        decreases n - i,
    {
        if a.get_char(i) != b.get_char(i) {
            assert(a@[i as int] != b@[i as int]);
            return false;
        }
        assert(a@.subrange(0, i + 1) == a@.subrange(0, i as int).push(a@[i as int]));
        assert(b@.subrange(0, i + 1) == b@.subrange(0, i as int).push(b@[i as int]));
        i = i + 1;
    }
    assert(a@ == a@.subrange(0, n as int));
    assert(b@ == b@.subrange(0, n as int));
    true
}

impl Connection {
    /// Whether the database holds a partition named `name`.
    pub fn contains_store(&self, name: &str) -> (r: bool)
        ensures
            r == has_name(self.stores@, name@),
    {
        index_of(&self.stores, name).is_some()
    }

    /// Creates the partition `name` unless the database already holds it.
    /// Returns whether it was created.
    pub fn ensure_store(&mut self, name: &str) -> (r: bool)
        ensures
            r == !has_name(old(self).stores@, name@),
            has_name(final(self).stores@, name@),
            upgraded(*old(self), *final(self), name@),
    {
        if self.contains_store(name) {
            false
        } else {
            let added = String::from_str(name);
            self.stores.push(added);
            assert(self.stores@.drop_last() == old(self).stores@);
            assert(has_name(self.stores@, name@)) by {
                assert(self.stores@[self.stores@.len() - 1]@ == name@);
            }
            true
        }
    }
}

/// The shared slot that holds the connection once it is established.
///
/// It starts empty and not poisoned. A connection is stored at most once:
/// once present it is never replaced nor removed. Poisoning is permanent.
#[derive(Debug, Clone)]
pub struct SharedConnectionHandle {
    poisoned: bool,
    conn: Option<Connection>,
}

impl SharedConnectionHandle {
    /// Whether the slot's lock was left by a writer that did not release it
    /// normally.
    pub closed spec fn is_poisoned(&self) -> bool {
        self.poisoned
    }

    /// The connection held, if any.
    pub closed spec fn connection(&self) -> Option<Connection> {
        self.conn
    }

    /// Whether a reader can see a connection in the slot.
    pub open spec fn is_ready(&self) -> bool {
        !self.is_poisoned() && self.connection() is Some
    }

    /// An empty, healthy slot.
    pub fn new() -> (r: Self)
        ensures
            !r.is_poisoned(),
            r.connection() is None,
    {
        SharedConnectionHandle { poisoned: false, conn: None }
    }

    /// Records that a writer of the slot failed mid-mutation.
    pub fn poison(&mut self)
        ensures
            final(self).is_poisoned(),
            final(self).connection() == old(self).connection(),
    {
        self.poisoned = true;
    }

    /// Whether the slot is poisoned.
    pub fn poisoned(&self) -> (r: bool)
        ensures
            r == self.is_poisoned(),
    {
        self.poisoned
    }

    /// Stores `conn` if the slot is healthy and still empty; returns whether
    /// it did. An earlier connection is never replaced.
    pub fn install(&mut self, conn: Connection) -> (r: bool)
        ensures
            r == (!old(self).is_poisoned() && old(self).connection() is None),
            final(self).is_poisoned() == old(self).is_poisoned(),
            final(self).connection() == installed(old(self).is_poisoned(), old(self).connection(), conn),
    {
        if !self.poisoned && self.conn.is_none() {
            self.conn = Some(conn);
            true
        } else {
            false
        }
    }

    /// A read view of the connection: `PoisonedLock` on a poisoned slot,
    /// `NotOpen` on an empty one.
    pub fn read(&self) -> (r: WasmVFSResult<&Connection>)
        ensures
            self.is_poisoned() ==> r == Err::<&Connection, _>(WasmVFSError::PoisonedLock),
            !self.is_poisoned() && self.connection() is None ==> r == Err::<&Connection, _>(WasmVFSError::NotOpen),
            self.is_ready() ==> (r matches Ok(c) && Some(*c) == self.connection()),
    {
        if self.poisoned {
            return Err(WasmVFSError::PoisonedLock);
        }
        match &self.conn {
            Some(c) => Ok(c),
            None => Err(WasmVFSError::NotOpen),
        }
    }
}

/// The databases opened in this process, each with one slot: its index
/// here. Every open of a name shares that name's slot and its connection.
pub struct OpenRegistry {
    names: Vec<String>,
}

impl OpenRegistry {
    /// The database names, by slot.
    pub closed spec fn names(&self) -> Seq<String> {
        self.names@
    }

    /// One slot per name.
    pub open spec fn wf(&self) -> bool {
        names_distinct(self.names())
    }

    /// A registry with no database.
    pub fn new() -> (r: Self)
        ensures
            r.wf(),
            r.names().len() == 0,
    {
        OpenRegistry { names: Vec::new() }
    }

    /// The slot of database `name`, and whether it is new: a name already
    /// opened keeps its slot, and its pending or finished host request is
    /// joined; a new name gets the next slot, for which a request is to be
    /// issued.
    pub fn slot_for(&mut self, name: &str) -> (r: (usize, bool))
        requires
            old(self).wf(),
        ensures
            final(self).wf(),
            r.1 == !has_name(old(self).names(), name@),
            !r.1 ==> final(self).names() == old(self).names() && r.0 < old(self).names().len()
                && old(self).names()[r.0 as int]@ == name@,
            r.1 ==> r.0 == old(self).names().len() && final(self).names().drop_last() == old(self).names()
                && final(self).names().last()@ == name@,
    {
        match index_of(&self.names, name) {
            Some(i) => (i, false),
            None => {
                let i = self.names.len();
                self.names.push(String::from_str(name));
                assert(self.names@.drop_last() =~= old(self).names@);
                assert(names_distinct(self.names@)) by {
                    assert forall|a: int, b: int|
                        0 <= a < self.names@.len() && 0 <= b < self.names@.len() && a != b implies
                        self.names@[a]@ != self.names@[b]@ by {
                        if a < i && b < i {
                        } else if a == i {
                            assert(old(self).names@[b]@ != name@);
                        } else {
                            assert(old(self).names@[a]@ != name@);
                        }
                    }
                }
                (i, true)
            },
        }
    }

    /// The number of slots.
    pub fn len(&self) -> (r: usize)
        ensures
            r == self.names().len(),
    {
        self.names.len()
    }
}

/// Once a database name has a slot in a registry, a later open of that
/// name finds it there, so no second request is issued, and no other slot
/// holds the name: every open of it shares the one slot.
pub proof fn lemma_one_slot_per_name(names: Seq<String>, slot: int, name: Seq<char>)
    requires
        names_distinct(names),
        0 <= slot < names.len(),
        names[slot]@ == name,
    ensures
        has_name(names, name),
        forall|j: int| 0 <= j < names.len() && #[trigger] names[j]@ == name ==> j == slot,
{
}

/// The slot's connection after an attempt to store `conn` in it.
pub open spec fn installed(poisoned: bool, prev: Option<Connection>, conn: Connection) -> Option<Connection> {
    if !poisoned && prev is None {
        Some(conn)
    } else {
        prev
    }
}

/// Two opens of one database that resolve into the same slot see one
/// connection: the first one stored, whatever the second one brings.
pub proof fn lemma_no_divergent_connections(first: Connection, second: Connection)
    ensures
        installed(false, installed(false, None, first), second) == Some(first),
{
}

} // verus!
