//! Splitting a sequence at a separator, and byte-string comparison, with the
//! facts the parsers need.
//!
//! `spec_split` is the single definition of what "fields of a record",
//! "lines of a listing" and "components of a path" mean; the parsers and the
//! containment check are proved against it.

use vstd::prelude::*;

verus! {

/// Index of the first occurrence of `sep` in `s`, or -1 if there is none.
pub open spec fn first_index_of<T>(s: Seq<T>, sep: T) -> int
    decreases s.len(),
{
    if s.len() == 0 {
        -1
    } else if s[0] == sep {
        0
    } else {
        let r = first_index_of(s.drop_first(), sep);
        if r < 0 {
            -1
        } else {
            r + 1
        }
    }
}

/// The pieces of `s` between occurrences of `sep`.  Always non-empty;
/// `n` separators give `n + 1` pieces, and none of the pieces contains `sep`.
pub open spec fn spec_split<T>(s: Seq<T>, sep: T) -> Seq<Seq<T>>
    decreases s.len(),
{
    let i = first_index_of(s, sep);
    if 0 <= i < s.len() {
        seq![s.take(i)] + spec_split(s.skip(i + 1), sep)
    } else {
        seq![s]
    }
}

/// `first_index_of` points at `sep`, and nothing before it is `sep`.
pub proof fn lemma_first_index_of_properties<T>(s: Seq<T>, sep: T)
    ensures
        first_index_of(s, sep) >= 0 ==> {
            &&& first_index_of(s, sep) < s.len()
            &&& s[first_index_of(s, sep)] == sep
            &&& forall|j: int| 0 <= j < first_index_of(s, sep) ==> s[j] != sep
        },
        first_index_of(s, sep) < 0 ==> forall|j: int| 0 <= j < s.len() ==> s[j] != sep,
    decreases s.len(),
{
    if s.len() > 0 && s[0] != sep {
        lemma_first_index_of_properties(s.drop_first(), sep);
        let r = first_index_of(s.drop_first(), sep);
        if r >= 0 {
            assert forall|j: int| 0 <= j < r + 1 implies s[j] != sep by {
                if j > 0 {
                    assert(s.drop_first()[j - 1] != sep);
                }
            }
        } else {
            assert forall|j: int| 0 <= j < s.len() implies s[j] != sep by {
                if j > 0 {
                    assert(s.drop_first()[j - 1] != sep);
                }
            }
        }
    }
}

/// A scan that finds `sep` at position `k` with nothing before it has found
/// `first_index_of`.
pub proof fn lemma_first_index_of_from_scan<T>(s: Seq<T>, sep: T, k: int)
    requires
        0 <= k < s.len(),
        s[k] == sep,
        forall|j: int| 0 <= j < k ==> s[j] != sep,
    ensures
        first_index_of(s, sep) == k,
    decreases k,
{
    if k > 0 {
        assert forall|j: int| 0 <= j < k - 1 implies s.drop_first()[j] != sep by {
            assert(s[j + 1] != sep);
        }
        lemma_first_index_of_from_scan(s.drop_first(), sep, k - 1);
    }
}

/// A sequence without the separator has no first index of it.
pub proof fn lemma_first_index_of_none<T>(s: Seq<T>, sep: T)
    requires
        forall|j: int| 0 <= j < s.len() ==> s[j] != sep,
    ensures
        first_index_of(s, sep) < 0,
    decreases s.len(),
{
    if s.len() > 0 {
        assert forall|j: int| 0 <= j < s.drop_first().len() implies s.drop_first()[j] != sep by {
            assert(s[j + 1] != sep);
        }
        lemma_first_index_of_none(s.drop_first(), sep);
    }
}

/// Splitting a separator-free sequence yields that sequence alone.
pub proof fn lemma_split_no_sep<T>(s: Seq<T>, sep: T)
    requires
        forall|j: int| 0 <= j < s.len() ==> s[j] != sep,
    ensures
        spec_split(s, sep) == seq![s],
{
    lemma_first_index_of_none(s, sep);
}

/// Splitting `head + [sep] + tail` with a separator-free `head` peels off
/// exactly `head`.
pub proof fn lemma_split_step<T>(head: Seq<T>, sep: T, tail: Seq<T>)
    requires
        forall|j: int| 0 <= j < head.len() ==> head[j] != sep,
    ensures
        spec_split(head + seq![sep] + tail, sep) == seq![head] + spec_split(tail, sep),
{
    let s = head + seq![sep] + tail;
    assert(s[head.len() as int] == sep);
    assert forall|j: int| 0 <= j < head.len() implies s[j] != sep by {
        assert(s[j] == head[j]);
    }
    lemma_first_index_of_from_scan(s, sep, head.len() as int);
    assert(s.take(head.len() as int) =~= head);
    assert(s.skip(head.len() as int + 1) =~= tail);
}

/// Compares two byte strings.
pub fn bytes_eq(a: &[u8], b: &[u8]) -> (r: bool)
    ensures
        r == (a@ == b@),
{
    if a.len() != b.len() {
        return false;
    }
    let mut i: usize = 0;
    while i < a.len()
        invariant
            a@.len() == b@.len(),
            i <= a@.len(),
            forall|j: int| 0 <= j < i ==> a@[j] == b@[j],
        decreases a@.len() - i,
    {
        if a[i] != b[i] {
            return false;
        }
        i += 1;
    }
    proof {
        assert(a@ =~= b@);
    }
    true
}

/// Splits a byte sequence at every occurrence of `sep`.
pub fn split_bytes(s: &[u8], sep: u8) -> (parts: Vec<Vec<u8>>)
    ensures
        parts@.map_values(|p: Vec<u8>| p@) == spec_split(s@, sep),
{
    let ghost all = s@;
    let mut parts: Vec<Vec<u8>> = Vec::new();
    let mut cur: Vec<u8> = Vec::new();
    let mut i: usize = 0;
    proof {
        assert(cur@ + all.skip(0) =~= all);
        assert(parts@.map_values(|p: Vec<u8>| p@) + spec_split(all, sep) =~= spec_split(all, sep));
    }
    while i < s.len()
        invariant
            i <= s@.len(),
            s@ == all,
            forall|j: int| 0 <= j < cur@.len() ==> cur@[j] != sep,
            cur@.len() <= i,
            spec_split(all, sep) == parts@.map_values(|p: Vec<u8>| p@) + spec_split(
                cur@ + all.skip(i as int),
                sep,
            ),
        decreases s@.len() - i,
    {
        let c = s[i];
        if c == sep {
            proof {
                assert(cur@ + all.skip(i as int) =~= cur@ + seq![sep] + all.skip(i + 1));
                lemma_split_step(cur@, sep, all.skip(i + 1));
                let pm = parts@.map_values(|p: Vec<u8>| p@);
                assert((parts@.push(cur)).map_values(|p: Vec<u8>| p@) =~= pm.push(cur@));
                assert(pm + (seq![cur@] + spec_split(all.skip(i + 1), sep)) =~= pm.push(cur@)
                    + spec_split(all.skip(i + 1), sep));
                assert(Seq::<u8>::empty() + all.skip(i + 1) =~= all.skip(i + 1));
            }
            parts.push(cur);
            cur = Vec::new();
        } else {
            proof {
                assert(cur@.push(c) + all.skip(i + 1) =~= cur@ + all.skip(i as int));
            }
            cur.push(c);
        }
        i += 1;
    }
    proof {
        assert(all.skip(i as int) =~= Seq::<u8>::empty());
        assert(cur@ + all.skip(i as int) =~= cur@);
        lemma_split_no_sep(cur@, sep);
        assert((parts@.push(cur)).map_values(|p: Vec<u8>| p@) =~= parts@.map_values(
            |p: Vec<u8>| p@,
        ).push(cur@));
        assert(parts@.map_values(|p: Vec<u8>| p@) + seq![cur@] =~= parts@.map_values(
            |p: Vec<u8>| p@,
        ).push(cur@));
    }
    parts.push(cur);
    parts
}

} // verus!
