//! Directory enumeration by continuation offset: a guest walks an oversized
//! directory page by page, supplying the offset where the last page ended,
//! so no directory is ever materialized whole in the host's memory.

use vstd::prelude::*;

verus! {

/// The page an enumeration at `offset` returns: up to `max` entries.
pub open spec fn spec_page(entries: Seq<Seq<u8>>, offset: int, max: int) -> Seq<Seq<u8>> {
    let lo = if offset < entries.len() {
        offset
    } else {
        entries.len() as int
    };
    let hi = if offset + max < entries.len() {
        offset + max
    } else {
        entries.len() as int
    };
    if lo <= hi {
        entries.subrange(lo, hi)
    } else {
        Seq::empty()
    }
}

/// One page of a directory's entries, starting at the continuation offset.
/// The next continuation offset is `offset + page.len()`; an empty page
/// means the enumeration is exhausted.
pub fn readdir_page(entries: &Vec<Vec<u8>>, offset: usize, max: usize) -> (page: Vec<Vec<u8>>)
    ensures
        page@.map_values(|e: Vec<u8>| e@) == spec_page(
            entries@.map_values(|e: Vec<u8>| e@),
            offset as int,
            max as int,
        ),
{
    let ghost ev = entries@.map_values(|e: Vec<u8>| e@);
    let mut page: Vec<Vec<u8>> = Vec::new();
    if offset >= entries.len() {
        proof {
            assert(page@.map_values(|e: Vec<u8>| e@) =~= spec_page(ev, offset as int, max as int));
        }
        return page;
    }
    let end: usize = if max < entries.len() - offset {
        offset + max
    } else {
        entries.len()
    };
    let mut i: usize = offset;
    while i < end
        invariant
            ev == entries@.map_values(|e: Vec<u8>| e@),
            offset <= i <= end <= entries@.len(),
            page@.map_values(|e: Vec<u8>| e@) == ev.subrange(offset as int, i as int),
        decreases end - i,
    {
        let entry: Vec<u8> = entries[i].clone();
        proof {
            assert(entry@ =~= ev[i as int]);
            let pm = page@.map_values(|e: Vec<u8>| e@);
            assert(page@.push(entry).map_values(|e: Vec<u8>| e@) =~= pm.push(entry@));
            assert(pm.push(ev[i as int]) =~= ev.subrange(offset as int, i as int + 1));
        }
        page.push(entry);
        i += 1;
    }
    proof {
        assert(page@.map_values(|e: Vec<u8>| e@) =~= spec_page(ev, offset as int, max as int));
    }
    page
}

/// Every page an enumeration yields when the continuation is followed from
/// `offset` to exhaustion, in order.
pub open spec fn spec_pages_from(entries: Seq<Seq<u8>>, offset: int, max: int) -> Seq<Seq<u8>>
    decreases entries.len() - offset,
{
    if max <= 0 || offset < 0 || offset >= entries.len() {
        Seq::empty()
    } else {
        let hi = if offset + max < entries.len() {
            offset + max
        } else {
            entries.len() as int
        };
        entries.subrange(offset, hi) + spec_pages_from(entries, hi, max)
    }
}

/// Following the continuation from `offset` yields exactly the entries from
/// `offset` on, each once.
proof fn lemma_pages_from(entries: Seq<Seq<u8>>, offset: int, max: int)
    requires
        max > 0,
        0 <= offset <= entries.len(),
    ensures
        spec_pages_from(entries, offset, max) == entries.skip(offset),
    decreases entries.len() - offset,
{
    if offset >= entries.len() {
        assert(entries.skip(offset) =~= Seq::<Seq<u8>>::empty());
    } else {
        let hi = if offset + max < entries.len() {
            offset + max
        } else {
            entries.len() as int
        };
        lemma_pages_from(entries, hi, max);
        assert(entries.subrange(offset, hi) + entries.skip(hi) =~= entries.skip(offset));
    }
}

/// Enumeration with continuation produces the full entry set exactly once:
/// the concatenation of all pages, followed to exhaustion, is the directory's
/// entry sequence itself.
pub proof fn lemma_enumeration_exact(entries: Seq<Seq<u8>>, max: int)
    requires
        max > 0,
    ensures
        spec_pages_from(entries, 0, max) == entries,
{
    lemma_pages_from(entries, 0, max);
    assert(entries.skip(0) =~= entries);
}

/// Each page of the enumeration is the page `readdir_page` serves at its
/// offset, so the walk a guest performs follows `spec_pages_from`.
pub proof fn lemma_pages_step(entries: Seq<Seq<u8>>, offset: int, max: int)
    requires
        max > 0,
        0 <= offset < entries.len(),
    ensures
        spec_pages_from(entries, offset, max) == spec_page(entries, offset, max)
            + spec_pages_from(entries, offset + spec_page(entries, offset, max).len(), max),
{
    let hi = if offset + max < entries.len() {
        offset + max
    } else {
        entries.len() as int
    };
    assert(spec_page(entries, offset, max) =~= entries.subrange(offset, hi));
}

} // verus!
