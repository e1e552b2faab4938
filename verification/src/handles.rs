//! The host-side Handle Table: the mapping between open-file and
//! open-directory identifiers and live descriptors.
//!
//! Handles are created on open and destroyed on close, each associated with
//! exactly one underlying descriptor and the access it was opened with.
//! Handles share no numbering space with object identifiers: they live in a
//! table of their own, scoped to one connection.  On connection teardown the
//! dispatcher drains the table, the one case of engine-initiated closes.

use vstd::prelude::*;
use crate::errors::FsError;

verus! {

/// One open handle as the specifications see it.
#[verifier::ext_equal]
pub ghost struct HandleEntryV {
    pub handle: u64,
    pub descriptor: i32,
    pub write_allowed: bool,
}

/// One open handle: its identifier, the native descriptor it owns, and
/// whether it was opened for writing.
pub struct HandleEntry {
    pub handle: u64,
    pub descriptor: i32,
    pub write_allowed: bool,
}

impl View for HandleEntry {
    type V = HandleEntryV;

    open spec fn view(&self) -> HandleEntryV {
        HandleEntryV {
            handle: self.handle,
            descriptor: self.descriptor,
            write_allowed: self.write_allowed,
        }
    }
}

/// The whole table as the specifications see it.
#[verifier::ext_equal]
pub ghost struct HandleTableV {
    pub next_handle: u64,
    pub entries: Seq<HandleEntryV>,
}

impl HandleTableV {
    /// Table invariant: handle identifiers are distinct and below the next
    /// fresh one.
    pub open spec fn wf(self) -> bool {
        &&& self.next_handle >= 1
        &&& forall|i: int|
            0 <= i < self.entries.len() ==> #[trigger] self.entries[i].handle < self.next_handle
        &&& forall|i: int, j: int|
            0 <= i < j < self.entries.len() ==> #[trigger] self.entries[i].handle
                != #[trigger] self.entries[j].handle
    }

    /// Whether some entry carries `handle`.
    pub open spec fn has_handle(self, handle: u64) -> bool {
        exists|i: int| 0 <= i < self.entries.len() && #[trigger] self.entries[i].handle == handle
    }

    /// The position of the entry carrying `handle`.
    pub open spec fn idx_of(self, handle: u64) -> int {
        choose|i: int| 0 <= i < self.entries.len() && #[trigger] self.entries[i].handle == handle
    }

    /// What opening yields: a write request on a read-only volume is refused
    /// by policy; otherwise the next fresh handle owns the descriptor.
    pub open spec fn spec_open(self, descriptor: i32, write_requested: bool, read_only: bool)
        -> Result<(HandleTableV, u64), FsError> {
        if write_requested && read_only {
            Err(FsError::PermissionDenied)
        } else {
            Ok(
                (
                    HandleTableV {
                        next_handle: (self.next_handle + 1) as u64,
                        entries: self.entries.push(
                            HandleEntryV {
                                handle: self.next_handle,
                                descriptor,
                                write_allowed: write_requested,
                            },
                        ),
                    },
                    self.next_handle,
                ),
            )
        }
    }

    /// What closing does: the entry leaves the table and its descriptor is
    /// handed back to be closed, exactly once; an unknown handle is stale.
    pub open spec fn spec_close(self, handle: u64) -> Result<(HandleTableV, i32), FsError> {
        if self.has_handle(handle) {
            let i = self.idx_of(handle);
            Ok(
                (
                    HandleTableV { next_handle: self.next_handle, entries: self.entries.remove(i) },
                    self.entries[i].descriptor,
                ),
            )
        } else {
            Err(FsError::Stale)
        }
    }
}

/// In a well-formed table the entry at `i` is the one `idx_of` finds.
proof fn lemma_idx_of_unique(t: HandleTableV, i: int)
    requires
        t.wf(),
        0 <= i < t.entries.len(),
    ensures
        t.has_handle(t.entries[i].handle),
        t.idx_of(t.entries[i].handle) == i,
{
    let h = t.entries[i].handle;
    assert(t.has_handle(h));
    let j = t.idx_of(h);
    if i < j {
        assert(t.entries[i].handle != t.entries[j].handle);
    } else if j < i {
        assert(t.entries[j].handle != t.entries[i].handle);
    }
}

/// The handle table, owned by one connection's dispatcher.
pub struct HandleTable {
    next_handle: u64,
    entries: Vec<HandleEntry>,
}

impl View for HandleTable {
    type V = HandleTableV;

    closed spec fn view(&self) -> HandleTableV {
        HandleTableV {
            next_handle: self.next_handle,
            entries: self.entries@.map_values(|e: HandleEntry| e@),
        }
    }
}

impl HandleTable {
    /// A fresh table: no handle is open.
    pub fn new() -> (r: HandleTable)
        ensures
            r@ == (HandleTableV { next_handle: 1u64, entries: Seq::<HandleEntryV>::empty() }),
            r@.wf(),
    {
        let t = HandleTable { next_handle: 1, entries: Vec::new() };
        proof {
            assert(t@.entries =~= Seq::<HandleEntryV>::empty());
            assert(t@ =~= (HandleTableV {
                next_handle: 1u64,
                entries: Seq::<HandleEntryV>::empty(),
            }));
        }
        t
    }

    /// Finds the entry carrying `handle`, if any.
    fn find(&self, handle: u64) -> (r: Option<usize>)
        requires
            self@.wf(),
        ensures
            match r {
                Some(i) => self@.has_handle(handle) && i == self@.idx_of(handle) && i
                    < self@.entries.len(),
                None => !self@.has_handle(handle),
            },
    {
        let n = self.entries.len();
        let mut i: usize = 0;
        while i < n
            invariant
                self@.wf(),
                n == self.entries@.len(),
                i <= n,
                forall|k: int| 0 <= k < i ==> #[trigger] self@.entries[k].handle != handle,
            decreases n - i,
        {
            if self.entries[i].handle == handle {
                proof {
                    lemma_idx_of_unique(self@, i as int);
                }
                return Some(i);
            }
            i += 1;
        }
        None
    }

    /// Opens a handle over a descriptor the caller obtained: refused when a
    /// write is requested on a read-only configured volume, else a fresh
    /// handle that owns the descriptor.
    pub fn open(&mut self, descriptor: i32, write_requested: bool, read_only: bool) -> (r: Result<
        u64,
        FsError,
    >)
        requires
            old(self)@.wf(),
            old(self)@.next_handle < u64::MAX,
        ensures
            final(self)@.wf(),
            match r {
                Ok(h) => old(self)@.spec_open(descriptor, write_requested, read_only) matches
                    Ok(res) && final(self)@ == res.0 && h == res.1,
                Err(e) => old(self)@.spec_open(descriptor, write_requested, read_only) == Err::<
                    (HandleTableV, u64),
                    FsError,
                >(e) && final(self)@ == old(self)@,
            },
    {
        let ghost t = self@;
        if write_requested && read_only {
            return Err(FsError::PermissionDenied);
        }
        let handle = self.next_handle;
        let entry = HandleEntry { handle, descriptor, write_allowed: write_requested };
        self.entries.push(entry);
        self.next_handle = handle + 1;
        proof {
            assert(self@.entries =~= t.entries.push(entry@));
            let cur = self@;
            assert forall|a: int, b: int| 0 <= a < b < cur.entries.len() implies
                #[trigger] cur.entries[a].handle != #[trigger] cur.entries[b].handle by {
                if b < t.entries.len() {
                    assert(t.entries[a].handle != t.entries[b].handle);
                } else {
                    assert(t.entries[a].handle < t.next_handle);
                }
            }
            assert forall|k: int| 0 <= k < cur.entries.len() implies
                #[trigger] cur.entries[k].handle < cur.next_handle by {
                if k < t.entries.len() {
                    assert(t.entries[k].handle < t.next_handle);
                }
            }
            assert(self@ =~= t.spec_open(descriptor, write_requested, read_only).unwrap().0);
        }
        Ok(handle)
    }

    /// The descriptor and write permission behind a handle, for a byte-range
    /// read or write at an absolute offset.
    pub fn lookup(&self, handle: u64) -> (r: Result<(i32, bool), FsError>)
        requires
            self@.wf(),
        ensures
            match r {
                Ok(d) => self@.has_handle(handle) && d.0 == self@.entries[self@.idx_of(
                    handle,
                )].descriptor && d.1 == self@.entries[self@.idx_of(handle)].write_allowed,
                Err(e) => !self@.has_handle(handle) && e == FsError::Stale,
            },
    {
        match self.find(handle) {
            Some(i) => Ok((self.entries[i].descriptor, self.entries[i].write_allowed)),
            None => Err(FsError::Stale),
        }
    }

    /// Closes a handle: its entry leaves the table and its descriptor is
    /// returned to be closed, exactly once; a second close of the same
    /// handle is `Stale`.
    pub fn close(&mut self, handle: u64) -> (r: Result<i32, FsError>)
        requires
            old(self)@.wf(),
        ensures
            final(self)@.wf(),
            match r {
                Ok(d) => old(self)@.spec_close(handle) matches Ok(res) && final(self)@ == res.0
                    && d == res.1,
                Err(e) => old(self)@.spec_close(handle) == Err::<(HandleTableV, i32), FsError>(e)
                    && final(self)@ == old(self)@,
            },
            r is Ok ==> !final(self)@.has_handle(handle),
    {
        let ghost t = self@;
        match self.find(handle) {
            Some(i) => {
                let descriptor = self.entries[i].descriptor;
                self.entries.remove(i);
                proof {
                    assert(self@.entries =~= t.entries.remove(i as int));
                    let cur = self@;
                    assert forall|a: int, b: int| 0 <= a < b < cur.entries.len() implies
                        #[trigger] cur.entries[a].handle != #[trigger] cur.entries[b].handle by {
                        let a0 = if a < i as int { a } else { a + 1 };
                        let b0 = if b < i as int { b } else { b + 1 };
                        assert(cur.entries[a] == t.entries[a0]);
                        assert(cur.entries[b] == t.entries[b0]);
                        assert(t.entries[a0].handle != t.entries[b0].handle);
                    }
                    assert forall|k: int| 0 <= k < cur.entries.len() implies
                        #[trigger] cur.entries[k].handle < cur.next_handle by {
                        let k0 = if k < i as int { k } else { k + 1 };
                        assert(cur.entries[k] == t.entries[k0]);
                    }
                    assert(self@ =~= t.spec_close(handle).unwrap().0);
                    assert forall|k: int| 0 <= k < cur.entries.len() implies
                        #[trigger] cur.entries[k].handle != handle by {
                        let k0 = if k < i as int { k } else { k + 1 };
                        assert(cur.entries[k] == t.entries[k0]);
                        if k0 < i as int {
                            assert(t.entries[k0].handle != t.entries[i as int].handle);
                        } else if k0 > i as int {
                            assert(t.entries[i as int].handle != t.entries[k0].handle);
                        }
                    }
                }
                Ok(descriptor)
            },
            None => Err(FsError::Stale),
        }
    }

    /// Connection teardown: every open handle leaves the table and its
    /// descriptor is handed back, so none leaks and none is closed twice.
    pub fn drain(&mut self) -> (r: Vec<i32>)
        requires
            old(self)@.wf(),
        ensures
            final(self)@.wf(),
            final(self)@.entries == Seq::<HandleEntryV>::empty(),
            final(self)@.next_handle == old(self)@.next_handle,
            r@ == old(self)@.entries.map_values(|e: HandleEntryV| e.descriptor),
    {
        let ghost t = self@;
        let mut fds: Vec<i32> = Vec::new();
        let n = self.entries.len();
        let mut i: usize = 0;
        proof {
            assert(fds@ =~= t.entries.map_values(|e: HandleEntryV| e.descriptor).take(0));
        }
        while i < n
            invariant
                *self == *old(self),
                t == self@,
                n == self.entries@.len(),
                i <= n,
                fds@ == t.entries.map_values(|e: HandleEntryV| e.descriptor).take(i as int),
            decreases n - i,
        {
            fds.push(self.entries[i].descriptor);
            proof {
                let ds = t.entries.map_values(|e: HandleEntryV| e.descriptor);
                assert(ds.take(i as int).push(ds[i as int]) =~= ds.take(i as int + 1));
            }
            i += 1;
        }
        self.entries.clear();
        proof {
            assert(self@.entries =~= Seq::<HandleEntryV>::empty());
            let ds = t.entries.map_values(|e: HandleEntryV| e.descriptor);
            assert(ds.take(ds.len() as int) =~= ds);
        }
        fds
    }

    /// How many handles are open.
    pub fn len(&self) -> (r: usize)
        ensures
            r == self@.entries.len(),
    {
        self.entries.len()
    }
}

/// A handle is closed exactly once: after a successful close, a lookup and a
/// second close of the same handle both report it stale.
pub proof fn lemma_close_exactly_once(t: HandleTableV, handle: u64)
    requires
        t.wf(),
        t.has_handle(handle),
    ensures
        ({
            let t1 = t.spec_close(handle).unwrap().0;
            &&& !t1.has_handle(handle)
            &&& t1.spec_close(handle) == Err::<(HandleTableV, i32), FsError>(FsError::Stale)
        }),
{
    let i = t.idx_of(handle);
    assert(0 <= i < t.entries.len() && t.entries[i].handle == handle);
    let t1 = t.spec_close(handle).unwrap().0;
    assert(t1.entries =~= t.entries.remove(i));
    assert forall|k: int| 0 <= k < t1.entries.len() implies #[trigger] t1.entries[k].handle
        != handle by {
        let k0 = if k < i {
            k
        } else {
            k + 1
        };
        assert(t1.entries[k] == t.entries[k0]);
        if k0 < i {
            assert(t.entries[k0].handle != t.entries[i].handle);
        } else {
            assert(t.entries[i].handle != t.entries[k0].handle);
        }
    }
    assert(!t1.has_handle(handle));
}

} // verus!
