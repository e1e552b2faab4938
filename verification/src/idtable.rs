//! The host-side Identifier Table: the reference-counted mapping between the
//! opaque object identifiers the guest holds and live host paths.
//!
//! The root of a volume is identifier 1, fixed and never recycled.  Every
//! other identifier is handed out by `materialize`, kept alive by its lookup
//! count, and reclaimed when an explicit release brings the count to zero;
//! a reclaimed identifier is stale and never reused.

use vstd::prelude::*;
use crate::contain::{path_escapes, spec_escapes, SLASH};
use crate::errors::FsError;
use crate::split::bytes_eq;
use vstd::slice::slice_to_vec;

verus! {

/// The fixed identifier of a volume's root.
pub const ROOT_ID: u64 = 1;

/// One table entry as the specifications see it.
#[verifier::ext_equal]
pub ghost struct IdEntryV {
    pub id: u64,
    pub path: Seq<u8>,
    pub refcount: u64,
}

/// One live identifier: its id, the host path it names, and its outstanding
/// lookup count.
pub struct IdEntry {
    pub id: u64,
    pub path: Vec<u8>,
    pub refcount: u64,
}

impl View for IdEntry {
    type V = IdEntryV;

    open spec fn view(&self) -> IdEntryV {
        IdEntryV { id: self.id, path: self.path@, refcount: self.refcount }
    }
}

/// The whole table as the specifications see it.
#[verifier::ext_equal]
pub ghost struct IdTableV {
    pub root_path: Seq<u8>,
    pub next_id: u64,
    pub entries: Seq<IdEntryV>,
}

impl IdTableV {
    /// Table invariant: identifiers are distinct, between the root's and the
    /// next free one; paths are distinct and never the root's; every live
    /// entry has at least one outstanding lookup.
    pub open spec fn wf(self) -> bool {
        &&& self.next_id > ROOT_ID
        &&& forall|i: int|
            0 <= i < self.entries.len() ==> ROOT_ID < #[trigger] self.entries[i].id < self.next_id
        &&& forall|i: int| 0 <= i < self.entries.len() ==> #[trigger] self.entries[i].refcount >= 1
        &&& forall|i: int|
            0 <= i < self.entries.len() ==> #[trigger] self.entries[i].path != self.root_path
        &&& forall|i: int, j: int|
            0 <= i < j < self.entries.len() ==> #[trigger] self.entries[i].id
                != #[trigger] self.entries[j].id
        &&& forall|i: int, j: int|
            0 <= i < j < self.entries.len() ==> #[trigger] self.entries[i].path
                != #[trigger] self.entries[j].path
    }

    /// Whether some non-root entry names `p`.
    pub open spec fn has_path(self, p: Seq<u8>) -> bool {
        exists|i: int| 0 <= i < self.entries.len() && #[trigger] self.entries[i].path == p
    }

    /// The position of the entry naming `p`.
    pub open spec fn idx_of_path(self, p: Seq<u8>) -> int {
        choose|i: int| 0 <= i < self.entries.len() && #[trigger] self.entries[i].path == p
    }

    /// Whether `p` is live: the root's path or some entry's.
    pub open spec fn live(self, p: Seq<u8>) -> bool {
        p == self.root_path || self.has_path(p)
    }

    /// The identifier a live path maps to.
    pub open spec fn id_of_path(self, p: Seq<u8>) -> u64 {
        if p == self.root_path {
            ROOT_ID
        } else {
            self.entries[self.idx_of_path(p)].id
        }
    }

    /// The lookup count of a live non-root path.
    pub open spec fn rc_of_path(self, p: Seq<u8>) -> u64 {
        self.entries[self.idx_of_path(p)].refcount
    }

    /// Whether some entry carries identifier `id`.
    pub open spec fn has_id(self, id: u64) -> bool {
        exists|i: int| 0 <= i < self.entries.len() && #[trigger] self.entries[i].id == id
    }

    /// The position of the entry carrying `id`.
    pub open spec fn idx_of_id(self, id: u64) -> int {
        choose|i: int| 0 <= i < self.entries.len() && #[trigger] self.entries[i].id == id
    }

    /// The lookup count of a known identifier.
    pub open spec fn rc_of_id(self, id: u64) -> u64 {
        self.entries[self.idx_of_id(id)].refcount
    }

    /// What materializing `p` does: the root keeps its fixed identifier; a
    /// live path keeps its identifier and gains one lookup; a new path gets
    /// the next fresh identifier with one lookup.
    pub open spec fn spec_materialize(self, p: Seq<u8>) -> (IdTableV, u64) {
        if p == self.root_path {
            (self, ROOT_ID)
        } else if self.has_path(p) {
            let i = self.idx_of_path(p);
            let e = self.entries[i];
            let bumped = IdEntryV {
                id: e.id,
                path: e.path,
                refcount: if e.refcount == u64::MAX {
                    u64::MAX
                } else {
                    (e.refcount + 1) as u64
                },
            };
            (
                IdTableV {
                    root_path: self.root_path,
                    next_id: self.next_id,
                    entries: self.entries.update(i, bumped),
                },
                e.id,
            )
        } else {
            (
                IdTableV {
                    root_path: self.root_path,
                    next_id: (self.next_id + 1) as u64,
                    entries: self.entries.push(
                        IdEntryV { id: self.next_id, path: p, refcount: 1 },
                    ),
                },
                self.next_id,
            )
        }
    }

    /// What releasing `count` lookups of `id` does: the root and unknown
    /// identifiers are untouched; releasing every outstanding lookup (or
    /// more: the count is clamped, never underflowed) reclaims the entry.
    pub open spec fn spec_release(self, id: u64, count: u64) -> IdTableV {
        if id == ROOT_ID || !self.has_id(id) {
            self
        } else {
            let i = self.idx_of_id(id);
            let e = self.entries[i];
            if count >= e.refcount {
                IdTableV {
                    root_path: self.root_path,
                    next_id: self.next_id,
                    entries: self.entries.remove(i),
                }
            } else {
                IdTableV {
                    root_path: self.root_path,
                    next_id: self.next_id,
                    entries: self.entries.update(
                        i,
                        IdEntryV { id: e.id, path: e.path, refcount: (e.refcount - count) as u64 },
                    ),
                }
            }
        }
    }

    /// What looking an identifier up yields: the root's path, a live entry's
    /// path, or `Stale`.
    pub open spec fn spec_path_of(self, id: u64) -> Result<Seq<u8>, FsError> {
        if id == ROOT_ID {
            Ok(self.root_path)
        } else if self.has_id(id) {
            Ok(self.entries[self.idx_of_id(id)].path)
        } else {
            Err(FsError::Stale)
        }
    }

    /// What resolving `name` under `parent` does: nothing for a stale parent
    /// or an escaping name; else the parent's path extended by `name` is
    /// materialized.
    pub open spec fn spec_resolve_child(self, parent: u64, name: Seq<u8>) -> (
        IdTableV,
        Result<u64, FsError>,
    ) {
        match self.spec_path_of(parent) {
            Err(e) => (self, Err(e)),
            Ok(pp) => if spec_escapes(name) {
                (self, Err(FsError::PermissionDenied))
            } else {
                let m = self.spec_materialize(pp + seq![SLASH] + name);
                (m.0, Ok(m.1))
            },
        }
    }
}

/// In a well-formed table the entry at `i` is the one `idx_of_path` finds.
proof fn lemma_idx_of_path_unique(t: IdTableV, i: int)
    requires
        t.wf(),
        0 <= i < t.entries.len(),
    ensures
        t.has_path(t.entries[i].path),
        t.idx_of_path(t.entries[i].path) == i,
{
    let p = t.entries[i].path;
    assert(t.has_path(p));
    let j = t.idx_of_path(p);
    if i < j {
        assert(t.entries[i].path != t.entries[j].path);
    } else if j < i {
        assert(t.entries[j].path != t.entries[i].path);
    }
}

/// In a well-formed table the entry at `i` is the one `idx_of_id` finds.
proof fn lemma_idx_of_id_unique(t: IdTableV, i: int)
    requires
        t.wf(),
        0 <= i < t.entries.len(),
    ensures
        t.has_id(t.entries[i].id),
        t.idx_of_id(t.entries[i].id) == i,
{
    let id = t.entries[i].id;
    assert(t.has_id(id));
    let j = t.idx_of_id(id);
    if i < j {
        assert(t.entries[i].id != t.entries[j].id);
    } else if j < i {
        assert(t.entries[j].id != t.entries[i].id);
    }
}

/// The identifier table, owned by one connection's dispatcher.
pub struct IdTable {
    root_path: Vec<u8>,
    next_id: u64,
    entries: Vec<IdEntry>,
}

impl View for IdTable {
    type V = IdTableV;

    closed spec fn view(&self) -> IdTableV {
        IdTableV {
            root_path: self.root_path@,
            next_id: self.next_id,
            entries: self.entries@.map_values(|e: IdEntry| e@),
        }
    }
}

impl IdTable {
    /// A fresh table serving one volume: only the root is known.
    pub fn new(root_path: Vec<u8>) -> (r: IdTable)
        ensures
            r@ == (IdTableV {
                root_path: root_path@,
                next_id: 2u64,
                entries: Seq::<IdEntryV>::empty(),
            }),
            r@.wf(),
    {
        let t = IdTable { root_path, next_id: 2, entries: Vec::new() };
        proof {
            assert(t@.entries =~= Seq::<IdEntryV>::empty());
            assert(t@ =~= (IdTableV {
                root_path: t.root_path@,
                next_id: 2u64,
                entries: Seq::<IdEntryV>::empty(),
            }));
        }
        t
    }

    /// Finds the entry naming `path`, if any.
    fn find_path(&self, path: &[u8]) -> (r: Option<usize>)
        requires
            self@.wf(),
        ensures
            match r {
                Some(i) => self@.has_path(path@) && i == self@.idx_of_path(path@) && i
                    < self@.entries.len(),
                None => !self@.has_path(path@),
            },
    {
        let n = self.entries.len();
        let mut i: usize = 0;
        while i < n
            invariant
                self@.wf(),
                n == self.entries@.len(),
                i <= n,
                forall|k: int| 0 <= k < i ==> #[trigger] self@.entries[k].path != path@,
            decreases n - i,
        {
            if bytes_eq(self.entries[i].path.as_slice(), path) {
                proof {
                    lemma_idx_of_path_unique(self@, i as int);
                }
                return Some(i);
            }
            i += 1;
        }
        None
    }

    /// Finds the entry carrying `id`, if any.
    fn find_id(&self, id: u64) -> (r: Option<usize>)
        requires
            self@.wf(),
        ensures
            match r {
                Some(i) => self@.has_id(id) && i == self@.idx_of_id(id) && i
                    < self@.entries.len(),
                None => !self@.has_id(id),
            },
    {
        let n = self.entries.len();
        let mut i: usize = 0;
        while i < n
            invariant
                self@.wf(),
                n == self.entries@.len(),
                i <= n,
                forall|k: int| 0 <= k < i ==> #[trigger] self@.entries[k].id != id,
            decreases n - i,
        {
            if self.entries[i].id == id {
                proof {
                    lemma_idx_of_id_unique(self@, i as int);
                }
                return Some(i);
            }
            i += 1;
        }
        None
    }

    /// Hands the guest an identifier for `path`: the same identifier as long
    /// as the path stays live, a fresh one otherwise, and one more
    /// outstanding lookup either way.
    pub fn materialize(&mut self, path: &[u8]) -> (r: u64)
        requires
            old(self)@.wf(),
            old(self)@.next_id < u64::MAX,
        ensures
            final(self)@ == old(self)@.spec_materialize(path@).0,
            r == old(self)@.spec_materialize(path@).1,
            final(self)@.wf(),
    {
        let ghost t = self@;
        if bytes_eq(self.root_path.as_slice(), path) {
            return ROOT_ID;
        }
        match self.find_path(path) {
            Some(i) => {
                let e = &self.entries[i];
                let id = e.id;
                let rc = e.refcount;
                let new_rc: u64 = if rc == u64::MAX {
                    u64::MAX
                } else {
                    rc + 1
                };
                let new_path = e.path.clone();
                let bumped = IdEntry { id, path: new_path, refcount: new_rc };
                self.entries.set(i, bumped);
                proof {
                    assert(bumped@.path =~= t.entries[i as int].path);
                    assert(self@.entries =~= t.entries.update(i as int, bumped@));
                    assert(self@ =~= t.spec_materialize(path@).0);
                    assert forall|a: int, b: int|
                        0 <= a < b < self@.entries.len() implies #[trigger] self@.entries[a].id
                        != #[trigger] self@.entries[b].id by {
                        assert(t.entries[a].id != t.entries[b].id);
                    }
                    assert forall|a: int, b: int|
                        0 <= a < b < self@.entries.len() implies #[trigger] self@.entries[a].path
                        != #[trigger] self@.entries[b].path by {
                        assert(t.entries[a].path != t.entries[b].path);
                    }
                }
                id
            },
            None => {
                let id = self.next_id;
                let owned: Vec<u8> = slice_to_vec(path);
                let entry = IdEntry { id, path: owned, refcount: 1 };
                self.entries.push(entry);
                self.next_id = id + 1;
                proof {
                    assert(self@.entries =~= t.entries.push(entry@));
                    assert(self@ =~= t.spec_materialize(path@).0);
                    let cur = self@;
                    assert forall|a: int, b: int|
                        0 <= a < b < cur.entries.len() implies #[trigger] cur.entries[a].id
                        != #[trigger] cur.entries[b].id by {
                        if b < t.entries.len() {
                            assert(t.entries[a].id != t.entries[b].id);
                        } else {
                            assert(t.entries[a].id < t.next_id);
                        }
                    }
                    assert forall|a: int, b: int|
                        0 <= a < b < cur.entries.len() implies #[trigger] cur.entries[a].path
                        != #[trigger] cur.entries[b].path by {
                        if b < t.entries.len() {
                            assert(t.entries[a].path != t.entries[b].path);
                        } else {
                            assert(!t.has_path(path@));
                            assert(t.entries[a].path != path@);
                        }
                    }
                }
                id
            },
        }
    }

    /// Takes `count` lookups back; the entry is reclaimed when none remain.
    /// A count beyond the outstanding lookups is clamped, never underflowed,
    /// and the root is never reclaimed.
    pub fn release(&mut self, id: u64, count: u64)
        requires
            old(self)@.wf(),
        ensures
            final(self)@ == old(self)@.spec_release(id, count),
            final(self)@.wf(),
    {
        let ghost t = self@;
        if id == ROOT_ID {
            return ;
        }
        match self.find_id(id) {
            Some(i) => {
                let rc = self.entries[i].refcount;
                if count >= rc {
                    self.entries.remove(i);
                    proof {
                        assert(self@.entries =~= t.entries.remove(i as int));
                        assert(self@ =~= t.spec_release(id, count));
                        let cur = self@;
                        assert forall|a: int, b: int|
                            0 <= a < b < cur.entries.len() implies #[trigger] cur.entries[a].id
                            != #[trigger] cur.entries[b].id by {
                            let a0 = if a < i as int { a } else { a + 1 };
                            let b0 = if b < i as int { b } else { b + 1 };
                            assert(cur.entries[a] == t.entries[a0]);
                            assert(cur.entries[b] == t.entries[b0]);
                            assert(t.entries[a0].id != t.entries[b0].id);
                        }
                        assert forall|a: int, b: int|
                            0 <= a < b < cur.entries.len() implies #[trigger] cur.entries[a].path
                            != #[trigger] cur.entries[b].path by {
                            let a0 = if a < i as int { a } else { a + 1 };
                            let b0 = if b < i as int { b } else { b + 1 };
                            assert(cur.entries[a] == t.entries[a0]);
                            assert(cur.entries[b] == t.entries[b0]);
                            assert(t.entries[a0].path != t.entries[b0].path);
                        }
                        assert forall|k: int| 0 <= k < cur.entries.len() implies ROOT_ID
                            < #[trigger] cur.entries[k].id < cur.next_id by {
                            let k0 = if k < i as int { k } else { k + 1 };
                            assert(cur.entries[k] == t.entries[k0]);
                        }
                        assert forall|k: int| 0 <= k < cur.entries.len() implies
                            #[trigger] cur.entries[k].refcount >= 1 by {
                            let k0 = if k < i as int { k } else { k + 1 };
                            assert(cur.entries[k] == t.entries[k0]);
                        }
                        assert forall|k: int| 0 <= k < cur.entries.len() implies
                            #[trigger] cur.entries[k].path != cur.root_path by {
                            let k0 = if k < i as int { k } else { k + 1 };
                            assert(cur.entries[k] == t.entries[k0]);
                        }
                    }
                } else {
                    let e = &self.entries[i];
                    let new_path = e.path.clone();
                    let shrunk = IdEntry { id: e.id, path: new_path, refcount: rc - count };
                    self.entries.set(i, shrunk);
                    proof {
                        assert(shrunk@.path =~= t.entries[i as int].path);
                        assert(self@.entries =~= t.entries.update(i as int, shrunk@));
                        assert(self@ =~= t.spec_release(id, count));
                        assert forall|a: int, b: int|
                            0 <= a < b < self@.entries.len() implies #[trigger] self@.entries[a].id
                            != #[trigger] self@.entries[b].id by {
                            assert(t.entries[a].id != t.entries[b].id);
                        }
                        assert forall|a: int, b: int|
                            0 <= a < b < self@.entries.len() implies
                            #[trigger] self@.entries[a].path
                            != #[trigger] self@.entries[b].path by {
                            assert(t.entries[a].path != t.entries[b].path);
                        }
                    }
                }
            },
            None => {},
        }
    }

    /// The host path an identifier names, or `Stale` once it was reclaimed
    /// or never issued.
    pub fn path_of(&self, id: u64) -> (r: Result<Vec<u8>, FsError>)
        requires
            self@.wf(),
        ensures
            match r {
                Ok(p) => self@.spec_path_of(id) == Ok::<Seq<u8>, FsError>(p@),
                Err(e) => self@.spec_path_of(id) == Err::<Seq<u8>, FsError>(e),
            },
    {
        if id == ROOT_ID {
            return Ok(self.root_path.clone());
        }
        match self.find_id(id) {
            Some(i) => Ok(self.entries[i].path.clone()),
            None => Err(FsError::Stale),
        }
    }

    /// Resolves `name` under a parent the guest already holds: a stale
    /// parent fails, a name that would leave the parent's directory upward
    /// past the root is refused, and anything else is materialized in one
    /// step, ready to be returned with its attributes in the same round
    /// trip.
    pub fn resolve_child(&mut self, parent: u64, name: &[u8]) -> (r: Result<u64, FsError>)
        requires
            old(self)@.wf(),
            old(self)@.next_id < u64::MAX,
        ensures
            final(self)@.wf(),
            ({
                let s = old(self)@.spec_resolve_child(parent, name@);
                final(self)@ == s.0 && r == s.1
            }),
    {
        let parent_path = match self.path_of(parent) {
            Ok(p) => p,
            Err(e) => {
                return Err(e);
            },
        };
        if path_escapes(name) {
            return Err(FsError::PermissionDenied);
        }
        let mut joined = parent_path;
        joined.push(SLASH);
        joined.extend_from_slice(name);
        proof {
            assert(joined@ =~= old(self)@.spec_path_of(parent).unwrap() + seq![SLASH] + name@);
        }
        Ok(self.materialize(joined.as_slice()))
    }

    /// Connection teardown: every outstanding reference the connection held
    /// is dropped and every non-root entry reclaimed.  Identifiers are never
    /// recycled, so the numbering continues where it left off.
    pub fn release_all(&mut self)
        requires
            old(self)@.wf(),
        ensures
            final(self)@.wf(),
            final(self)@.entries == Seq::<IdEntryV>::empty(),
            final(self)@.next_id == old(self)@.next_id,
            final(self)@.root_path == old(self)@.root_path,
    {
        self.entries.clear();
        proof {
            assert(self@.entries =~= Seq::<IdEntryV>::empty());
        }
    }

    /// The outstanding lookup count of an identifier, zero once it is stale.
    pub fn refcount_of(&self, id: u64) -> (r: u64)
        requires
            self@.wf(),
        ensures
            self@.has_id(id) ==> r == self@.rc_of_id(id),
            !self@.has_id(id) ==> r == 0,
    {
        match self.find_id(id) {
            Some(i) => self.entries[i].refcount,
            None => 0,
        }
    }
}

/// Materializing a live path never mints a new identifier: the call returns
/// the path's standing identifier, and leaves the path live with that same
/// identifier, so any run of `materialize` calls on a path whose count stays
/// above zero returns one identifier throughout.
pub proof fn lemma_materialize_idempotent(t: IdTableV, p: Seq<u8>)
    requires
        t.wf(),
        t.next_id < u64::MAX,
    ensures
        ({
            let (t1, id1) = t.spec_materialize(p);
            let (t2, id2) = t1.spec_materialize(p);
            &&& t.live(p) ==> id1 == t.id_of_path(p)
            &&& t1.live(p)
            &&& t1.id_of_path(p) == id1
            &&& id2 == id1
        }),
{
    let (t1, id1) = t.spec_materialize(p);
    if p == t.root_path {
    } else if t.has_path(p) {
        let i = t.idx_of_path(p);
        assert(0 <= i < t.entries.len() && t.entries[i].path == p);
        assert(t1.entries[i].path == p);
        assert(t1.has_path(p));
        lemma_materialize_preserves_wf(t, p);
        lemma_idx_of_path_unique(t1, i);
        assert(t1.id_of_path(p) == id1);
    } else {
        let i = t.entries.len() as int;
        assert(t1.entries[i].path == p);
        assert(t1.has_path(p));
        lemma_materialize_preserves_wf(t, p);
        lemma_idx_of_path_unique(t1, i);
        assert(t1.id_of_path(p) == id1);
    }
    let (t2, id2) = t1.spec_materialize(p);
    if p != t1.root_path {
        assert(t1.has_path(p));
        assert(id2 == t1.entries[t1.idx_of_path(p)].id);
    }
}

/// The table after a materialize step is still well-formed.
pub proof fn lemma_materialize_preserves_wf(t: IdTableV, p: Seq<u8>)
    requires
        t.wf(),
        t.next_id < u64::MAX,
    ensures
        t.spec_materialize(p).0.wf(),
{
    let t1 = t.spec_materialize(p).0;
    if p == t.root_path {
    } else if t.has_path(p) {
        let i = t.idx_of_path(p);
        assert forall|a: int, b: int| 0 <= a < b < t1.entries.len() implies
            #[trigger] t1.entries[a].id != #[trigger] t1.entries[b].id by {
            assert(t.entries[a].id != t.entries[b].id);
        }
        assert forall|a: int, b: int| 0 <= a < b < t1.entries.len() implies
            #[trigger] t1.entries[a].path != #[trigger] t1.entries[b].path by {
            assert(t.entries[a].path != t.entries[b].path);
        }
        assert forall|k: int| 0 <= k < t1.entries.len() implies ROOT_ID
            < #[trigger] t1.entries[k].id < t1.next_id && t1.entries[k].refcount >= 1
            && t1.entries[k].path != t1.root_path by {
            assert(ROOT_ID < t.entries[k].id < t.next_id);
            assert(t.entries[k].refcount >= 1);
            assert(t.entries[k].path != t.root_path);
        }
    } else {
        assert forall|a: int, b: int| 0 <= a < b < t1.entries.len() implies
            #[trigger] t1.entries[a].id != #[trigger] t1.entries[b].id by {
            if b < t.entries.len() {
                assert(t.entries[a].id != t.entries[b].id);
            } else {
                assert(t.entries[a].id < t.next_id);
            }
        }
        assert forall|a: int, b: int| 0 <= a < b < t1.entries.len() implies
            #[trigger] t1.entries[a].path != #[trigger] t1.entries[b].path by {
            if b < t.entries.len() {
                assert(t.entries[a].path != t.entries[b].path);
            } else {
                assert(t.entries[a].path != p);
            }
        }
        assert forall|k: int| 0 <= k < t1.entries.len() implies ROOT_ID
            < #[trigger] t1.entries[k].id < t1.next_id && t1.entries[k].refcount >= 1
            && t1.entries[k].path != t1.root_path by {
            if k < t.entries.len() {
                assert(ROOT_ID < t.entries[k].id < t.next_id);
                assert(t.entries[k].refcount >= 1);
                assert(t.entries[k].path != t.root_path);
            }
        }
    }
}

/// Materializing any path leaves every live path live, under its same
/// identifier: no call mints a new identifier for a path that already has
/// one, nor disturbs another path's entry.
pub proof fn lemma_materialize_keeps_paths(t: IdTableV, q: Seq<u8>, p: Seq<u8>)
    requires
        t.wf(),
        t.next_id < u64::MAX,
        t.live(p),
    ensures
        t.spec_materialize(q).0.live(p),
        t.spec_materialize(q).0.id_of_path(p) == t.id_of_path(p),
{
    let t1 = t.spec_materialize(q).0;
    lemma_materialize_preserves_wf(t, q);
    if p == t.root_path {
        assert(t1.root_path == t.root_path);
    } else {
        let i = t.idx_of_path(p);
        assert(0 <= i < t.entries.len() && t.entries[i].path == p);
        if q == t.root_path {
        } else if t.has_path(q) {
            let j = t.idx_of_path(q);
            assert(t1.entries[i].path == p);
            assert(t1.has_path(p));
            lemma_idx_of_path_unique(t1, i);
            assert(t1.entries[i].id == t.entries[i].id);
        } else {
            assert(t1.entries[i] == t.entries[i]);
            assert(t1.has_path(p));
            lemma_idx_of_path_unique(t1, i);
        }
    }
}

/// A release that does not take the path's last lookup leaves the path live
/// under its identifier: together with `lemma_materialize_idempotent` this
/// pins the identifier for any call sequence during which the count stays
/// above zero.
pub proof fn lemma_partial_release_keeps_id(t: IdTableV, p: Seq<u8>, id: u64, count: u64)
    requires
        t.wf(),
        t.live(p),
        id != t.id_of_path(p) || (t.has_path(p) && count < t.rc_of_path(p)),
    ensures
        t.spec_release(id, count).live(p),
        t.spec_release(id, count).id_of_path(p) == t.id_of_path(p),
        t.spec_release(id, count).wf(),
{
    lemma_release_wf(t, id, count);
    let t1 = t.spec_release(id, count);
    if p == t.root_path {
    } else {
        let i = t.idx_of_path(p);
        assert(0 <= i < t.entries.len() && t.entries[i].path == p);
        if id == ROOT_ID || !t.has_id(id) {
        } else {
            let j = t.idx_of_id(id);
            assert(0 <= j < t.entries.len() && t.entries[j].id == id);
            if count >= t.entries[j].refcount {
                // The removed entry is not `p`'s: its identifier differs.
                lemma_idx_of_path_unique(t, j);
                assert(j != i);
                let i1 = if i < j {
                    i
                } else {
                    i - 1
                };
                assert(t1.entries[i1] == t.entries[i]);
                assert(t1.has_path(p));
                lemma_idx_of_path_unique(t1, i1);
            } else {
                assert(t1.entries[i].path == p);
                assert(t1.has_path(p));
                lemma_idx_of_path_unique(t1, i);
                assert(t1.entries[i].id == t.entries[i].id);
            }
        }
    }
}

/// The table after a release step is still well-formed.
pub proof fn lemma_release_wf(t: IdTableV, id: u64, count: u64)
    requires
        t.wf(),
    ensures
        t.spec_release(id, count).wf(),
{
    let t1 = t.spec_release(id, count);
    if id == ROOT_ID || !t.has_id(id) {
    } else {
        let i = t.idx_of_id(id);
        if count >= t.entries[i].refcount {
            assert forall|a: int, b: int| 0 <= a < b < t1.entries.len() implies
                #[trigger] t1.entries[a].id != #[trigger] t1.entries[b].id by {
                let a0 = if a < i {
                    a
                } else {
                    a + 1
                };
                let b0 = if b < i {
                    b
                } else {
                    b + 1
                };
                assert(t1.entries[a] == t.entries[a0]);
                assert(t1.entries[b] == t.entries[b0]);
                assert(t.entries[a0].id != t.entries[b0].id);
            }
            assert forall|a: int, b: int| 0 <= a < b < t1.entries.len() implies
                #[trigger] t1.entries[a].path != #[trigger] t1.entries[b].path by {
                let a0 = if a < i {
                    a
                } else {
                    a + 1
                };
                let b0 = if b < i {
                    b
                } else {
                    b + 1
                };
                assert(t1.entries[a] == t.entries[a0]);
                assert(t1.entries[b] == t.entries[b0]);
                assert(t.entries[a0].path != t.entries[b0].path);
            }
            assert forall|k: int| 0 <= k < t1.entries.len() implies ROOT_ID
                < #[trigger] t1.entries[k].id < t1.next_id && t1.entries[k].refcount >= 1
                && t1.entries[k].path != t1.root_path by {
                let k0 = if k < i {
                    k
                } else {
                    k + 1
                };
                assert(t1.entries[k] == t.entries[k0]);
            }
        } else {
            assert forall|a: int, b: int| 0 <= a < b < t1.entries.len() implies
                #[trigger] t1.entries[a].id != #[trigger] t1.entries[b].id by {
                assert(t.entries[a].id != t.entries[b].id);
            }
            assert forall|a: int, b: int| 0 <= a < b < t1.entries.len() implies
                #[trigger] t1.entries[a].path != #[trigger] t1.entries[b].path by {
                assert(t.entries[a].path != t.entries[b].path);
            }
        }
    }
}

/// One call against the table, as a trace records it.
pub ghost enum TableOp {
    /// A resolution of this path handed to the guest.
    Materialize(Seq<u8>),
    /// An explicit release of this identifier with this multiplicity.
    Release(u64, u64),
}

/// The table a sequence of calls leaves behind.
pub open spec fn apply_op(t: IdTableV, op: TableOp) -> IdTableV {
    match op {
        TableOp::Materialize(q) => t.spec_materialize(q).0,
        TableOp::Release(id, c) => t.spec_release(id, c),
    }
}

/// The table after a whole trace of calls.
pub open spec fn apply_ops(t: IdTableV, ops: Seq<TableOp>) -> IdTableV
    decreases ops.len(),
{
    if ops.len() == 0 {
        t
    } else {
        apply_ops(apply_op(t, ops[0]), ops.drop_first())
    }
}

/// A trace along which `p`'s reference count stays above zero: identifiers
/// never run out, and no release takes `p`'s last outstanding lookup.
pub open spec fn trace_keeps_alive(t: IdTableV, ops: Seq<TableOp>, p: Seq<u8>) -> bool
    decreases ops.len(),
{
    if ops.len() == 0 {
        true
    } else {
        let safe = match ops[0] {
            TableOp::Materialize(_) => t.next_id < u64::MAX,
            TableOp::Release(id, c) => p == t.root_path || id != t.id_of_path(p) || (t.has_path(p)
                && c < t.rc_of_path(p)),
        };
        safe && trace_keeps_alive(apply_op(t, ops[0]), ops.drop_first(), p)
    }
}

/// Across any sequence of `materialize` and `release` calls during which a
/// live path's reference count stays above zero, the path stays live under
/// one identifier, and materializing it returns exactly that identifier.
pub proof fn lemma_identifier_stable_through_trace(t: IdTableV, ops: Seq<TableOp>, p: Seq<u8>)
    requires
        t.wf(),
        t.live(p),
        trace_keeps_alive(t, ops, p),
    ensures
        apply_ops(t, ops).wf(),
        apply_ops(t, ops).live(p),
        apply_ops(t, ops).id_of_path(p) == t.id_of_path(p),
        apply_ops(t, ops).spec_materialize(p).1 == t.id_of_path(p),
    decreases ops.len(),
{
    if ops.len() == 0 {
        if p != t.root_path {
            let i = t.idx_of_path(p);
            assert(0 <= i < t.entries.len() && t.entries[i].path == p);
        }
    } else {
        let t1 = apply_op(t, ops[0]);
        match ops[0] {
            TableOp::Materialize(q) => {
                lemma_materialize_preserves_wf(t, q);
                lemma_materialize_keeps_paths(t, q, p);
            },
            TableOp::Release(id, c) => {
                lemma_release_wf(t, id, c);
                if p == t.root_path {
                    assert(t1.root_path == t.root_path);
                } else {
                    lemma_partial_release_keeps_id(t, p, id, c);
                }
            },
        }
        lemma_identifier_stable_through_trace(t1, ops.drop_first(), p);
    }
}

/// Releasing an identifier with a count equal to its outstanding lookups
/// reclaims it: a subsequent lookup of that identifier is `Stale`.
pub proof fn lemma_release_all_then_stale(t: IdTableV, id: u64)
    requires
        t.wf(),
        t.has_id(id),
        id != ROOT_ID,
    ensures
        t.spec_release(id, t.rc_of_id(id)).spec_path_of(id) == Err::<Seq<u8>, FsError>(
            FsError::Stale,
        ),
{
    let count = t.rc_of_id(id);
    let t1 = t.spec_release(id, count);
    let i = t.idx_of_id(id);
    assert(0 <= i < t.entries.len() && t.entries[i].id == id);
    assert(t1.entries =~= t.entries.remove(i));
    assert forall|k: int| 0 <= k < t1.entries.len() implies #[trigger] t1.entries[k].id != id by {
        let k0 = if k < i {
            k
        } else {
            k + 1
        };
        assert(t1.entries[k] == t.entries[k0]);
        if k0 < i {
            assert(t.entries[k0].id != t.entries[i].id);
        } else {
            assert(t.entries[i].id != t.entries[k0].id);
        }
    }
    assert(!t1.has_id(id));
}

} // verus!
