//! Decision rules of the periodic low-memory sync engine.
//!
//! Each interval the guest downloads what the host's listing shows as new or
//! changed, rescans its own tree into a fresh snapshot, and uploads what
//! differs from the previous snapshot.  The walking, transferring and
//! clock-reading are I/O and live outside this crate; the functions here
//! decide, from plain snapshots, exactly which paths move in each direction.

use vstd::prelude::*;
use crate::listing::RemoteFileV;
use crate::listing::RemoteFile;
use crate::split::bytes_eq;
use crate::wire::{MSG_MKDIR, MSG_WRITE_FILE, STATUS_OK, spec_request_head, spec_response, spec_decode_request, spec_decode_response, encode_request, lemma_request_round_trip, lemma_response_round_trip};
use crate::chunk::{spec_chunks_of, spec_concat, lemma_chunks_reassemble};

verus! {

/// One snapshot record as the specifications see it.
#[verifier::ext_equal]
pub ghost struct SnapEntryV {
    pub path: Seq<u8>,
    pub size: u64,
    pub mtime: u64,
}

/// The last-observed size and modification time of one local file.
pub struct SnapEntry {
    pub path: Vec<u8>,
    pub size: u64,
    pub mtime: u64,
}

impl View for SnapEntry {
    type V = SnapEntryV;

    open spec fn view(&self) -> SnapEntryV {
        SnapEntryV { path: self.path@, size: self.size, mtime: self.mtime }
    }
}

/// First-match lookup of a path's `(size, mtime)` pair.
pub open spec fn spec_lookup(entries: Seq<SnapEntryV>, p: Seq<u8>) -> Option<(u64, u64)>
    decreases entries.len(),
{
    if entries.len() == 0 {
        None
    } else if entries[0].path == p {
        Some((entries[0].size, entries[0].mtime))
    } else {
        spec_lookup(entries.drop_first(), p)
    }
}

/// The advisory per-side cache: one record per file path, rebuilt by a full
/// rescan each interval and never persisted.
pub struct Snapshot {
    entries: Vec<SnapEntry>,
}

impl View for Snapshot {
    type V = Seq<SnapEntryV>;

    closed spec fn view(&self) -> Seq<SnapEntryV> {
        self.entries@.map_values(|e: SnapEntry| e@)
    }
}

/// A scan that has passed `i` entries without matching `p` finds whatever the
/// rest holds.
proof fn lemma_lookup_skip(entries: Seq<SnapEntryV>, p: Seq<u8>, i: int)
    requires
        0 <= i <= entries.len(),
        forall|k: int| 0 <= k < i ==> #[trigger] entries[k].path != p,
    ensures
        spec_lookup(entries, p) == spec_lookup(entries.skip(i), p),
    decreases i,
{
    if i > 0 {
        assert(entries[0].path != p);
        assert forall|k: int| 0 <= k < i - 1 implies #[trigger] entries.drop_first()[k].path != p by {
            assert(entries[k + 1].path != p);
        }
        lemma_lookup_skip(entries.drop_first(), p, i - 1);
        assert(entries.drop_first().skip(i - 1) =~= entries.skip(i));
    } else {
        assert(entries.skip(0) =~= entries);
    }
}

impl Snapshot {
    /// No two records name the same path.
    pub open spec fn wf(self) -> bool {
        forall|i: int, j: int|
            0 <= i < j < self@.len() ==> #[trigger] self@[i].path != #[trigger] self@[j].path
    }

    /// An empty snapshot: nothing was observed yet.
    pub fn new() -> (r: Snapshot)
        ensures
            r@ == Seq::<SnapEntryV>::empty(),
            r.wf(),
    {
        Snapshot { entries: Vec::new() }
    }

    /// Records a file's observed size and time, replacing any earlier record
    /// of the same path.
    pub fn insert(&mut self, path: Vec<u8>, size: u64, mtime: u64)
        requires
            old(self).wf(),
        ensures
            final(self).wf(),
            spec_lookup(final(self)@, path@) == Some((size, mtime)),
            forall|q: Seq<u8>|
                q != path@ ==> #[trigger] spec_lookup(final(self)@, q) == spec_lookup(
                    old(self)@,
                    q,
                ),
    {
        let n = self.entries.len();
        let mut i: usize = 0;
        while i < n
            invariant
                n == self.entries@.len(),
                i <= n,
                *self == *old(self),
                old(self).wf(),
                forall|k: int| 0 <= k < i ==> #[trigger] self@[k].path != path@,
            decreases n - i,
        {
            let ghost prev = self@;
            if bytes_eq(self.entries[i].path.as_slice(), path.as_slice()) {
                let e = SnapEntry { path, size, mtime };
                self.entries.set(i, e);
                proof {
                    let cur = self@;
                    assert(cur =~= prev.update(i as int, e@));
                    assert forall|a: int, b: int| 0 <= a < b < cur.len() implies
                        #[trigger] cur[a].path != #[trigger] cur[b].path by {
                        assert(prev[a].path != prev[b].path);
                        if a != i && b != i {
                            assert(cur[a] == prev[a] && cur[b] == prev[b]);
                        } else if a == i {
                            assert(cur[b] == prev[b] && cur[a].path == prev[a].path);
                        } else {
                            assert(cur[a] == prev[a] && cur[b].path == prev[b].path);
                        }
                    }
                    // The updated record is what any lookup of `path` finds.
                    lemma_lookup_at(cur, i as int);
                    assert forall|q: Seq<u8>| q != path@ implies #[trigger] spec_lookup(cur, q)
                        == spec_lookup(prev, q) by {
                        lemma_lookup_update_other(prev, i as int, e@, q);
                    }
                }
                return ;
            }
            i += 1;
        }
        let e = SnapEntry { path, size, mtime };
        let ghost prev = self@;
        proof {
            let cur = prev.push(e@);
            assert(self.entries@.push(e).map_values(|x: SnapEntry| x@) =~= cur);
            assert forall|a: int, b: int| 0 <= a < b < cur.len() implies #[trigger] cur[a].path
                != #[trigger] cur[b].path by {
                if b < prev.len() {
                    assert(prev[a].path != prev[b].path);
                } else {
                    assert(cur[b] == e@);
                    assert(prev[a].path != path@);
                }
            }
            lemma_lookup_at(cur, prev.len() as int);
            assert forall|q: Seq<u8>| q != path@ implies #[trigger] spec_lookup(cur, q)
                == spec_lookup(prev, q) by {
                lemma_lookup_push_other(prev, e@, q);
            }
        }
        self.entries.push(e);
    }

    /// The recorded `(size, mtime)` of a path, if the snapshot holds one.
    pub fn get(&self, path: &[u8]) -> (r: Option<(u64, u64)>)
        ensures
            r == spec_lookup(self@, path@),
    {
        let n = self.entries.len();
        let mut i: usize = 0;
        while i < n
            invariant
                n == self.entries@.len(),
                i <= n,
                forall|k: int| 0 <= k < i ==> #[trigger] self@[k].path != path@,
            decreases n - i,
        {
            if bytes_eq(self.entries[i].path.as_slice(), path) {
                proof {
                    lemma_lookup_at(self@, i as int);
                }
                return Some((self.entries[i].size, self.entries[i].mtime));
            }
            i += 1;
        }
        proof {
            lemma_lookup_skip(self@, path@, self@.len() as int);
            assert(self@.skip(self@.len() as int) =~= Seq::<SnapEntryV>::empty());
        }
        None
    }

    /// How many records the snapshot holds.
    pub fn len(&self) -> (r: usize)
        ensures
            r == self@.len(),
    {
        self.entries.len()
    }

    /// The record at one position, for walking the snapshot.
    pub fn entry_at(&self, i: usize) -> (r: &SnapEntry)
        requires
            i < self@.len(),
        ensures
            r@ == self@[i as int],
    {
        &self.entries[i]
    }
}

/// When entry `i`'s path is new among the first `i` entries, lookup of that
/// path finds entry `i`.
proof fn lemma_lookup_at(entries: Seq<SnapEntryV>, i: int)
    requires
        0 <= i < entries.len(),
        forall|k: int| 0 <= k < i ==> #[trigger] entries[k].path != entries[i].path,
    ensures
        spec_lookup(entries, entries[i].path) == Some((entries[i].size, entries[i].mtime)),
    decreases i,
{
    if i > 0 {
        assert forall|k: int| 0 <= k < i - 1 implies #[trigger] entries.drop_first()[k].path
            != entries.drop_first()[i - 1].path by {
            assert(entries[k + 1].path != entries[i].path);
        }
        lemma_lookup_at(entries.drop_first(), i - 1);
    }
}

/// Updating entry `i` in place leaves lookups of every other path unchanged,
/// provided the path at `i` stays the same.
proof fn lemma_lookup_update_other(entries: Seq<SnapEntryV>, i: int, e: SnapEntryV, q: Seq<u8>)
    requires
        0 <= i < entries.len(),
        entries[i].path == e.path,
        q != e.path,
    ensures
        spec_lookup(entries.update(i, e), q) == spec_lookup(entries, q),
    decreases i,
{
    let upd = entries.update(i, e);
    if entries.len() > 0 {
        if i == 0 {
            assert(upd.drop_first() =~= entries.drop_first());
        } else {
            assert(upd[0] == entries[0]);
            assert(upd.drop_first() =~= entries.drop_first().update(i - 1, e));
            lemma_lookup_update_other(entries.drop_first(), i - 1, e, q);
        }
    }
}

/// Appending a record leaves lookups of every other path unchanged.
proof fn lemma_lookup_push_other(entries: Seq<SnapEntryV>, e: SnapEntryV, q: Seq<u8>)
    requires
        q != e.path,
    ensures
        spec_lookup(entries.push(e), q) == spec_lookup(entries, q),
    decreases entries.len(),
{
    if entries.len() == 0 {
        assert(entries.push(e)[0] == e);
        assert(entries.push(e).drop_first() =~= Seq::<SnapEntryV>::empty());
        assert(spec_lookup(Seq::<SnapEntryV>::empty(), q) is None);
    } else {
        assert(entries.push(e)[0] == entries[0]);
        assert(entries.push(e).drop_first() =~= entries.drop_first().push(e));
        lemma_lookup_push_other(entries.drop_first(), e, q);
    }
}

/// Whether a file must travel guest-to-host: it is new, its size changed, or
/// its modification time moved forward.
pub open spec fn spec_should_upload(prev: Option<(u64, u64)>, size: u64, mtime: u64) -> bool {
    match prev {
        None => true,
        Some(p) => size != p.0 || mtime > p.1,
    }
}

/// Exec mirror of `spec_should_upload`.
pub fn should_upload(prev: Option<(u64, u64)>, size: u64, mtime: u64) -> (r: bool)
    ensures
        r == spec_should_upload(prev, size, mtime),
{
    match prev {
        None => true,
        Some(p) => size != p.0 || mtime > p.1,
    }
}

/// The files one interval uploads: every new-snapshot record that differs
/// from the old snapshot, in snapshot order.
pub open spec fn spec_upload_plan(new: Seq<SnapEntryV>, old: Seq<SnapEntryV>) -> Seq<SnapEntryV>
    decreases new.len(),
{
    if new.len() == 0 {
        Seq::empty()
    } else {
        let rest = spec_upload_plan(new.drop_first(), old);
        if spec_should_upload(spec_lookup(old, new[0].path), new[0].size, new[0].mtime) {
            seq![new[0]] + rest
        } else {
            rest
        }
    }
}

/// Appending a record to the new snapshot appends its upload, if one is due.
proof fn lemma_upload_plan_snoc(new: Seq<SnapEntryV>, old: Seq<SnapEntryV>, e: SnapEntryV)
    ensures
        spec_upload_plan(new.push(e), old) == spec_upload_plan(new, old) + (
        if spec_should_upload(spec_lookup(old, e.path), e.size, e.mtime) {
            seq![e]
        } else {
            Seq::<SnapEntryV>::empty()
        }),
    decreases new.len(),
{
    let tail: Seq<SnapEntryV> = if spec_should_upload(spec_lookup(old, e.path), e.size, e.mtime) {
        seq![e]
    } else {
        Seq::empty()
    };
    if new.len() == 0 {
        assert(new.push(e)[0] == e);
        assert(new.push(e).drop_first() =~= Seq::<SnapEntryV>::empty());
        assert(spec_upload_plan(Seq::<SnapEntryV>::empty(), old) == Seq::<SnapEntryV>::empty());
        assert(spec_upload_plan(new.push(e), old) =~= tail);
        assert(spec_upload_plan(new, old) + tail =~= tail);
    } else {
        assert(new.push(e)[0] == new[0]);
        assert(new.push(e).drop_first() =~= new.drop_first().push(e));
        lemma_upload_plan_snoc(new.drop_first(), old, e);
        if spec_should_upload(spec_lookup(old, new[0].path), new[0].size, new[0].mtime) {
            assert(seq![new[0]] + (spec_upload_plan(new.drop_first(), old) + tail) =~= (
            seq![new[0]] + spec_upload_plan(new.drop_first(), old)) + tail);
        }
    }
}

/// Decides the upload phase: compares the fresh local snapshot against the
/// previous interval's and returns, in order, the records whose files must be
/// sent to the host.
pub fn sync_to_host(old_state: &Snapshot, new_state: &Snapshot) -> (plan: Vec<SnapEntry>)
    ensures
        plan@.map_values(|e: SnapEntry| e@) == spec_upload_plan(new_state@, old_state@),
{
    let mut plan: Vec<SnapEntry> = Vec::new();
    let n = new_state.len();
    let mut i: usize = 0;
    proof {
        assert(new_state@.take(0) =~= Seq::<SnapEntryV>::empty());
        assert(plan@.map_values(|e: SnapEntry| e@) =~= spec_upload_plan(
            new_state@.take(0),
            old_state@,
        ));
    }
    while i < n
        invariant
            n == new_state@.len(),
            i <= n,
            plan@.map_values(|e: SnapEntry| e@) == spec_upload_plan(
                new_state@.take(i as int),
                old_state@,
            ),
        decreases n - i,
    {
        let e = new_state.entry_at(i);
        let prev = old_state.get(e.path.as_slice());
        proof {
            lemma_upload_plan_snoc(new_state@.take(i as int), old_state@, new_state@[i as int]);
            assert(new_state@.take(i as int).push(new_state@[i as int]) =~= new_state@.take(
                i as int + 1,
            ));
        }
        if should_upload(prev, e.size, e.mtime) {
            let path = e.path.clone();
            let copy = SnapEntry { path, size: e.size, mtime: e.mtime };
            proof {
                assert(copy@ =~= new_state@[i as int]);
                let pm = plan@.map_values(|x: SnapEntry| x@);
                assert(plan@.push(copy).map_values(|x: SnapEntry| x@) =~= pm.push(copy@));
                assert(pm.push(copy@) =~= pm + seq![new_state@[i as int]]);
            }
            plan.push(copy);
        }
        i += 1;
    }
    proof {
        assert(new_state@.take(new_state@.len() as int) =~= new_state@);
    }
    plan
}

/// How often a path occurs in a sequence of records.
pub open spec fn spec_count_path(entries: Seq<SnapEntryV>, p: Seq<u8>) -> int
    decreases entries.len(),
{
    if entries.len() == 0 {
        0
    } else {
        (if entries[0].path == p {
            1int
        } else {
            0int
        }) + spec_count_path(entries.drop_first(), p)
    }
}

/// A path absent from the new snapshot is absent from its upload plan.
proof fn lemma_absent_not_uploaded(new: Seq<SnapEntryV>, old: Seq<SnapEntryV>, p: Seq<u8>)
    requires
        forall|k: int| 0 <= k < new.len() ==> #[trigger] new[k].path != p,
    ensures
        spec_count_path(spec_upload_plan(new, old), p) == 0,
    decreases new.len(),
{
    if new.len() > 0 {
        assert forall|k: int| 0 <= k < new.drop_first().len() implies
            #[trigger] new.drop_first()[k].path != p by {
            assert(new[k + 1].path != p);
        }
        lemma_absent_not_uploaded(new.drop_first(), old, p);
        let rest = spec_upload_plan(new.drop_first(), old);
        if spec_should_upload(spec_lookup(old, new[0].path), new[0].size, new[0].mtime) {
            assert(new[0].path != p);
            assert((seq![new[0]] + rest).drop_first() =~= rest);
        }
    }
}

/// A guest file modified between two intervals is uploaded exactly once:
/// its record differs from the old snapshot, so it enters the plan, and no
/// other record names its path.
pub proof fn lemma_modified_uploaded_once(
    new: Seq<SnapEntryV>,
    old: Seq<SnapEntryV>,
    i: int,
)
    requires
        forall|a: int, b: int| 0 <= a < b < new.len() ==> #[trigger] new[a].path != #[trigger] new[b].path,
        0 <= i < new.len(),
        spec_should_upload(spec_lookup(old, new[i].path), new[i].size, new[i].mtime),
    ensures
        spec_count_path(spec_upload_plan(new, old), new[i].path) == 1,
    decreases new.len(),
{
    let p = new[i].path;
    let rest = spec_upload_plan(new.drop_first(), old);
    if i == 0 {
        assert forall|k: int| 0 <= k < new.drop_first().len() implies
            #[trigger] new.drop_first()[k].path != p by {
            assert(new[k + 1].path != new[0].path);
        }
        lemma_absent_not_uploaded(new.drop_first(), old, p);
        assert((seq![new[0]] + rest).drop_first() =~= rest);
    } else {
        assert forall|a: int, b: int| 0 <= a < b < new.drop_first().len() implies
            #[trigger] new.drop_first()[a].path != #[trigger] new.drop_first()[b].path by {
            assert(new[a + 1].path != new[b + 1].path);
        }
        assert(new.drop_first()[i - 1] == new[i]);
        lemma_modified_uploaded_once(new.drop_first(), old, i - 1);
        if spec_should_upload(spec_lookup(old, new[0].path), new[0].size, new[0].mtime) {
            assert(new[0].path != p);
            assert((seq![new[0]] + rest).drop_first() =~= rest);
        }
    }
}

/// An interval that observes no change uploads nothing: when every record of
/// the new snapshot is already in the old one with the same size and time,
/// the plan is empty.
pub proof fn lemma_unchanged_uploads_nothing(new: Seq<SnapEntryV>, old: Seq<SnapEntryV>)
    requires
        forall|k: int|
            0 <= k < new.len() ==> #[trigger] spec_lookup(old, new[k].path) == Some(
                (new[k].size, new[k].mtime),
            ),
    ensures
        spec_upload_plan(new, old) == Seq::<SnapEntryV>::empty(),
    decreases new.len(),
{
    if new.len() > 0 {
        assert(spec_lookup(old, new[0].path) == Some((new[0].size, new[0].mtime)));
        assert(!spec_should_upload(spec_lookup(old, new[0].path), new[0].size, new[0].mtime));
        assert forall|k: int| 0 <= k < new.drop_first().len() implies #[trigger] spec_lookup(
            old,
            new.drop_first()[k].path,
        ) == Some((new.drop_first()[k].size, new.drop_first()[k].mtime)) by {
            assert(new[k + 1] == new.drop_first()[k]);
        }
        lemma_unchanged_uploads_nothing(new.drop_first(), old);
    }
}

/// After an interval adopts its fresh snapshot, a following interval that
/// observes the same snapshot uploads nothing at all.
pub proof fn lemma_same_snapshot_uploads_nothing(entries: Seq<SnapEntryV>)
    requires
        forall|a: int, b: int|
            0 <= a < b < entries.len() ==> #[trigger] entries[a].path != #[trigger] entries[b].path,
    ensures
        spec_upload_plan(entries, entries) == Seq::<SnapEntryV>::empty(),
{
    assert forall|k: int| 0 <= k < entries.len() implies #[trigger] spec_lookup(
        entries,
        entries[k].path,
    ) == Some((entries[k].size, entries[k].mtime)) by {
        lemma_lookup_at(entries, k);
    }
    lemma_unchanged_uploads_nothing(entries, entries);
}

/// Whether a file must travel host-to-guest: it is absent locally or its
/// local size differs from the remote one.
pub open spec fn spec_needs_download(local: Option<u64>, remote_size: u64) -> bool {
    match local {
        None => true,
        Some(s) => s != remote_size,
    }
}

/// Exec mirror of `spec_needs_download`.
pub fn needs_download(local: Option<u64>, remote_size: u64) -> (r: bool)
    ensures
        r == spec_needs_download(local, remote_size),
{
    match local {
        None => true,
        Some(s) => s != remote_size,
    }
}

/// One step of the download phase.
pub ghost enum SyncActionV {
    /// Create this directory locally.
    CreateDir(Seq<u8>),
    /// Fetch this file's content from the host.
    Download(Seq<u8>),
}

/// One step of the download phase, as handed to the transfer loop.
pub enum SyncAction {
    /// Create this directory locally.
    CreateDir(Vec<u8>),
    /// Fetch this file's content from the host.
    Download(Vec<u8>),
}

impl View for SyncAction {
    type V = SyncActionV;

    open spec fn view(&self) -> SyncActionV {
        match self {
            SyncAction::CreateDir(p) => SyncActionV::CreateDir(p@),
            SyncAction::Download(p) => SyncActionV::Download(p@),
        }
    }
}

/// Whether a directory path is already present locally.
pub open spec fn spec_has_dir(dirs: Seq<Seq<u8>>, p: Seq<u8>) -> bool {
    exists|j: int| 0 <= j < dirs.len() && dirs[j] == p
}

/// The actions one download phase performs, in listing order: create each
/// directory that is missing locally, fetch each file that is absent or whose
/// local size differs.
pub open spec fn spec_download_plan(
    remote: Seq<RemoteFileV>,
    local: Seq<SnapEntryV>,
    local_dirs: Seq<Seq<u8>>,
) -> Seq<SyncActionV>
    decreases remote.len(),
{
    if remote.len() == 0 {
        Seq::empty()
    } else {
        let rest = spec_download_plan(remote.drop_first(), local, local_dirs);
        let r0 = remote[0];
        if r0.is_dir {
            if !spec_has_dir(local_dirs, r0.path) {
                seq![SyncActionV::CreateDir(r0.path)] + rest
            } else {
                rest
            }
        } else {
            if spec_needs_download(
                match spec_lookup(local, r0.path) {
                    None => None,
                    Some(p) => Some(p.0),
                },
                r0.size,
            ) {
                seq![SyncActionV::Download(r0.path)] + rest
            } else {
                rest
            }
        }
    }
}

/// What one remote record contributes to the plan.
spec fn spec_download_step(
    r0: RemoteFileV,
    local: Seq<SnapEntryV>,
    local_dirs: Seq<Seq<u8>>,
) -> Seq<SyncActionV> {
    if r0.is_dir {
        if !spec_has_dir(local_dirs, r0.path) {
            seq![SyncActionV::CreateDir(r0.path)]
        } else {
            Seq::empty()
        }
    } else {
        if spec_needs_download(
            match spec_lookup(local, r0.path) {
                None => None,
                Some(p) => Some(p.0),
            },
            r0.size,
        ) {
            seq![SyncActionV::Download(r0.path)]
        } else {
            Seq::empty()
        }
    }
}

/// Appending a remote record appends its contribution to the plan.
proof fn lemma_download_plan_snoc(
    remote: Seq<RemoteFileV>,
    local: Seq<SnapEntryV>,
    local_dirs: Seq<Seq<u8>>,
    e: RemoteFileV,
)
    ensures
        spec_download_plan(remote.push(e), local, local_dirs) == spec_download_plan(
            remote,
            local,
            local_dirs,
        ) + spec_download_step(e, local, local_dirs),
    decreases remote.len(),
{
    let tail = spec_download_step(e, local, local_dirs);
    if remote.len() == 0 {
        assert(remote.push(e)[0] == e);
        assert(remote.push(e).drop_first() =~= Seq::<RemoteFileV>::empty());
        assert(spec_download_plan(Seq::<RemoteFileV>::empty(), local, local_dirs)
            == Seq::<SyncActionV>::empty());
        assert(spec_download_plan(remote.push(e), local, local_dirs) =~= tail);
        assert(spec_download_plan(remote, local, local_dirs) + tail =~= tail);
    } else {
        assert(remote.push(e)[0] == remote[0]);
        assert(remote.push(e).drop_first() =~= remote.drop_first().push(e));
        lemma_download_plan_snoc(remote.drop_first(), local, local_dirs, e);
        let head = spec_download_step(remote[0], local, local_dirs);
        let rest = spec_download_plan(remote.drop_first(), local, local_dirs);
        assert(spec_download_plan(remote, local, local_dirs) =~= head + rest);
        assert(spec_download_plan(remote.push(e), local, local_dirs) =~= head + (rest + tail));
        assert(head + (rest + tail) =~= (head + rest) + tail);
    }
}

/// Decides the download phase: walks the host's listing and returns, in
/// order, the directories to create and the files to fetch.
pub fn sync_from_host(
    remote: &Vec<RemoteFile>,
    local: &Snapshot,
    local_dirs: &Vec<Vec<u8>>,
) -> (plan: Vec<SyncAction>)
    ensures
        plan@.map_values(|a: SyncAction| a@) == spec_download_plan(
            remote@.map_values(|e: RemoteFile| e@),
            local@,
            local_dirs@.map_values(|d: Vec<u8>| d@),
        ),
{
    let ghost remote_v = remote@.map_values(|e: RemoteFile| e@);
    let ghost dirs_v = local_dirs@.map_values(|d: Vec<u8>| d@);
    let mut plan: Vec<SyncAction> = Vec::new();
    let mut i: usize = 0;
    proof {
        assert(remote_v.take(0) =~= Seq::<RemoteFileV>::empty());
        assert(plan@.map_values(|a: SyncAction| a@) =~= spec_download_plan(
            remote_v.take(0),
            local@,
            dirs_v,
        ));
    }
    while i < remote.len()
        invariant
            remote_v == remote@.map_values(|e: RemoteFile| e@),
            dirs_v == local_dirs@.map_values(|d: Vec<u8>| d@),
            i <= remote@.len(),
            plan@.map_values(|a: SyncAction| a@) == spec_download_plan(
                remote_v.take(i as int),
                local@,
                dirs_v,
            ),
        decreases remote@.len() - i,
    {
        let e = &remote[i];
        proof {
            lemma_download_plan_snoc(remote_v.take(i as int), local@, dirs_v, remote_v[i as int]);
            assert(remote_v.take(i as int).push(remote_v[i as int]) =~= remote_v.take(i as int + 1));
        }
        let ghost pm = plan@.map_values(|a: SyncAction| a@);
        if e.is_dir {
            if !contains_path(local_dirs, e.path.as_slice()) {
                let act = SyncAction::CreateDir(e.path.clone());
                proof {
                    assert(plan@.push(act).map_values(|a: SyncAction| a@) =~= pm.push(act@));
                    assert(pm.push(act@) =~= pm + seq![act@]);
                }
                plan.push(act);
            }
        } else {
            let local_size: Option<u64> = match local.get(e.path.as_slice()) {
                None => None,
                Some(p) => Some(p.0),
            };
            if needs_download(local_size, e.size) {
                let act = SyncAction::Download(e.path.clone());
                proof {
                    assert(plan@.push(act).map_values(|a: SyncAction| a@) =~= pm.push(act@));
                    assert(pm.push(act@) =~= pm + seq![act@]);
                }
                plan.push(act);
            }
        }
        i += 1;
    }
    proof {
        assert(remote_v.take(remote_v.len() as int) =~= remote_v);
    }
    plan
}

/// Whether `p` occurs in `haystack`.
pub fn contains_path(haystack: &Vec<Vec<u8>>, p: &[u8]) -> (r: bool)
    ensures
        r == spec_has_dir(haystack@.map_values(|d: Vec<u8>| d@), p@),
{
    let ghost hs = haystack@.map_values(|d: Vec<u8>| d@);
    let mut i: usize = 0;
    while i < haystack.len()
        invariant
            hs == haystack@.map_values(|d: Vec<u8>| d@),
            i <= haystack@.len(),
            forall|j: int| 0 <= j < i ==> hs[j] != p@,
        decreases haystack@.len() - i,
    {
        if bytes_eq(haystack[i].as_slice(), p) {
            proof {
                assert(hs[i as int] == p@);
            }
            return true;
        }
        i += 1;
    }
    false
}

/// Round trip of one file through the sync protocol: the write request
/// announces exactly the uploaded bytes for exactly the named path; the
/// receiver reassembles exactly those bytes from the bounded chunks it read;
/// a read response framed with them delivers them back unchanged; and a
/// snapshot refreshed with the file's size and time stops the next interval
/// from transferring it again in either direction.
pub proof fn lemma_upload_download_round_trip(
    path: Seq<u8>,
    data: Seq<u8>,
    chunk: usize,
    mtime: u64,
)
    requires
        path.len() <= u32::MAX,
        data.len() <= u32::MAX,
        chunk > 0,
    ensures
        spec_decode_request(spec_request_head(MSG_WRITE_FILE, path)) == Some((MSG_WRITE_FILE, path)),
        spec_concat(spec_chunks_of(data, chunk)) == data,
        spec_decode_response(spec_response(STATUS_OK, data)) == Some((STATUS_OK, data)),
        !spec_needs_download(Some(data.len() as u64), data.len() as u64),
        !spec_should_upload(Some((data.len() as u64, mtime)), data.len() as u64, mtime),
{
    lemma_request_round_trip(MSG_WRITE_FILE, path);
    lemma_chunks_reassemble(data, chunk);
    lemma_response_round_trip(STATUS_OK, data);
}

/// Builds the request that creates one directory on the host; missing
/// parents come from issuing it for each parent first.
pub fn mkdir_remote(path: &[u8]) -> (r: Vec<u8>)
    requires
        path@.len() <= u32::MAX,
    ensures
        r@ == spec_request_head(MSG_MKDIR, path@),
{
    encode_request(MSG_MKDIR, path)
}

} // verus!
