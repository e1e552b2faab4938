//! Path containment: resolution is confined to the configured source root.
//!
//! A guest-supplied relative path is walked component by component; a `..`
//! that would climb above the root is rejected with `PermissionDenied`, at
//! any nesting depth.  This check is the principal security invariant of the
//! passthrough engine.

use vstd::prelude::*;
use crate::errors::FsError;
use crate::split::{spec_split, split_bytes, bytes_eq};
use vstd::slice::slice_to_vec;

verus! {

/// The path component separator.
pub const SLASH: u8 = 0x2f;

/// The `..` component.
pub open spec fn is_dotdot(c: Seq<u8>) -> bool {
    c == seq![0x2eu8, 0x2eu8]
}

/// A component that moves nowhere: empty (doubled separators) or `.`.
pub open spec fn is_stay(c: Seq<u8>) -> bool {
    c.len() == 0 || c == seq![0x2eu8]
}

/// Whether walking `comps` from `depth` directories below the root ever
/// climbs above the root.
pub open spec fn spec_escapes_from(comps: Seq<Seq<u8>>, depth: int) -> bool
    decreases comps.len(),
{
    if comps.len() == 0 {
        false
    } else if is_dotdot(comps[0]) {
        depth <= 0 || spec_escapes_from(comps.drop_first(), depth - 1)
    } else if is_stay(comps[0]) {
        spec_escapes_from(comps.drop_first(), depth)
    } else {
        spec_escapes_from(comps.drop_first(), depth + 1)
    }
}

/// Whether the relative path `rel` leaves the root it is resolved under.
pub open spec fn spec_escapes(rel: Seq<u8>) -> bool {
    spec_escapes_from(spec_split(rel, SLASH), 0)
}

/// Decides whether `rel` stays under the root.
pub fn path_escapes(rel: &[u8]) -> (r: bool)
    ensures
        r == spec_escapes(rel@),
{
    let parts: Vec<Vec<u8>> = split_bytes(rel, SLASH);
    let ghost pv = parts@.map_values(|p: Vec<u8>| p@);
    let mut depth: usize = 0;
    let mut i: usize = 0;
    proof {
        assert(pv.skip(0) =~= pv);
    }
    while i < parts.len()
        invariant
            pv == parts@.map_values(|p: Vec<u8>| p@),
            pv == spec_split(rel@, SLASH),
            i <= parts@.len(),
            depth <= i,
            spec_escapes_from(pv, 0) == spec_escapes_from(pv.skip(i as int), depth as int),
        decreases parts@.len() - i,
    {
        proof {
            assert(pv.skip(i as int)[0] == pv[i as int]);
            assert(pv.skip(i as int).drop_first() =~= pv.skip(i as int + 1));
        }
        let c: &Vec<u8> = &parts[i];
        let two_dots: [u8; 2] = [0x2e, 0x2e];
        let one_dot: [u8; 1] = [0x2e];
        if bytes_eq(c.as_slice(), two_dots.as_slice()) {
            proof {
                assert(two_dots@ =~= seq![0x2eu8, 0x2eu8]);
                assert(is_dotdot(pv[i as int]));
            }
            if depth == 0 {
                proof {
                    assert(spec_escapes_from(pv.skip(i as int), 0));
                }
                return true;
            }
            depth -= 1;
        } else if c.len() == 0 || bytes_eq(c.as_slice(), one_dot.as_slice()) {
            proof {
                assert(one_dot@ =~= seq![0x2eu8]);
                assert(is_stay(pv[i as int]));
                assert(!is_dotdot(pv[i as int]));
            }
        } else {
            proof {
                assert(two_dots@ =~= seq![0x2eu8, 0x2eu8]);
                assert(one_dot@ =~= seq![0x2eu8]);
                assert(!is_dotdot(pv[i as int]) && !is_stay(pv[i as int]));
            }
            depth += 1;
        }
        i += 1;
    }
    proof {
        assert(pv.skip(pv.len() as int) =~= Seq::<Seq<u8>>::empty());
    }
    false
}

/// Resolves `rel` under `root`: the joined path when containment holds,
/// `PermissionDenied` exactly when some component would leave the root.
pub fn resolve_under_root(root: &[u8], rel: &[u8]) -> (r: Result<Vec<u8>, FsError>)
    requires
        root@.len() + rel@.len() + 1 <= usize::MAX,
    ensures
        match r {
            Ok(p) => !spec_escapes(rel@) && p@ == root@ + seq![SLASH] + rel@,
            Err(e) => spec_escapes(rel@) && e == FsError::PermissionDenied,
        },
{
    if path_escapes(rel) {
        return Err(FsError::PermissionDenied);
    }
    let mut out: Vec<u8> = slice_to_vec(root);
    out.push(SLASH);
    out.extend_from_slice(rel);
    proof {
        assert(out@ =~= root@ + seq![SLASH] + rel@);
    }
    Ok(out)
}

/// Containment rejects `..` at every nesting depth: a path whose first `k`
/// components all climb upward escapes from any starting depth below `k`,
/// whatever follows.
pub proof fn lemma_nested_dotdot_escapes(comps: Seq<Seq<u8>>, k: int, d: int)
    requires
        0 <= d < k <= comps.len(),
        forall|j: int| 0 <= j < k ==> is_dotdot(#[trigger] comps[j]),
    ensures
        spec_escapes_from(comps, d),
    decreases k,
{
    assert(is_dotdot(comps[0]));
    if d > 0 {
        assert forall|j: int| 0 <= j < k - 1 implies is_dotdot(#[trigger] comps.drop_first()[j]) by {
            assert(is_dotdot(comps[j + 1]));
        }
        lemma_nested_dotdot_escapes(comps.drop_first(), k - 1, d - 1);
    }
}

} // verus!
