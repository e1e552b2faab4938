//! Chunked transfer planning: file content crosses the stream in bounded
//! pieces so that peak memory stays a small constant multiple of the chunk
//! size, while the bytes delivered equal the declared length exactly.

use vstd::prelude::*;
use vstd::slice::slice_subrange;

verus! {

/// The piece sizes a transfer of `total` bytes uses: full chunks, then the
/// remainder.
pub open spec fn spec_chunk_plan(total: usize, chunk: usize) -> Seq<usize>
    decreases total,
{
    if chunk == 0 || total == 0 {
        Seq::empty()
    } else if total <= chunk {
        seq![total]
    } else {
        seq![chunk] + spec_chunk_plan((total - chunk) as usize, chunk)
    }
}

/// Sum of a sequence of sizes.
pub open spec fn spec_sum(s: Seq<usize>) -> int
    decreases s.len(),
{
    if s.len() == 0 {
        0
    } else {
        s[0] + spec_sum(s.drop_first())
    }
}

/// How many bytes the next read of a transfer moves.
pub fn next_chunk_len(remaining: usize, chunk: usize) -> (r: usize)
    ensures
        r == if remaining <= chunk {
            remaining as int
        } else {
            chunk as int
        },
{
    if remaining <= chunk {
        remaining
    } else {
        chunk
    }
}

/// Computes the piece sizes for a transfer of `total` bytes.
pub fn chunk_plan(total: usize, chunk: usize) -> (r: Vec<usize>)
    requires
        chunk > 0,
    ensures
        r@ == spec_chunk_plan(total, chunk),
{
    let mut out: Vec<usize> = Vec::new();
    let mut remaining: usize = total;
    while remaining > chunk
        invariant
            chunk > 0,
            spec_chunk_plan(total, chunk) == out@ + spec_chunk_plan(remaining, chunk),
        decreases remaining,
    {
        proof {
            assert(spec_chunk_plan(remaining, chunk) == seq![chunk] + spec_chunk_plan(
                (remaining - chunk) as usize,
                chunk,
            ));
            assert(out@ + (seq![chunk] + spec_chunk_plan((remaining - chunk) as usize, chunk))
                =~= out@.push(chunk) + spec_chunk_plan((remaining - chunk) as usize, chunk));
        }
        out.push(chunk);
        remaining -= chunk;
    }
    if remaining > 0 {
        proof {
            assert(out@ + seq![remaining] =~= out@.push(remaining));
        }
        out.push(remaining);
    } else {
        proof {
            assert(out@ + Seq::<usize>::empty() =~= out@);
        }
    }
    out
}

/// The plan moves exactly the declared number of bytes, and no piece
/// exceeds the chunk size: memory stays bounded by the chunk size however
/// large the file is.
pub proof fn lemma_chunk_plan_exact(total: usize, chunk: usize)
    requires
        chunk > 0,
    ensures
        spec_sum(spec_chunk_plan(total, chunk)) == total,
        forall|i: int|
            0 <= i < spec_chunk_plan(total, chunk).len() ==> 0 < #[trigger] spec_chunk_plan(
                total,
                chunk,
            )[i] <= chunk,
    decreases total,
{
    let plan = spec_chunk_plan(total, chunk);
    if total == 0 {
    } else if total <= chunk {
        assert(plan[0] == total);
        assert(plan.drop_first() =~= Seq::<usize>::empty());
        assert(spec_sum(Seq::<usize>::empty()) == 0);
        assert(spec_sum(plan) == total);
    } else {
        lemma_chunk_plan_exact((total - chunk) as usize, chunk);
        let rest = spec_chunk_plan((total - chunk) as usize, chunk);
        assert(plan.drop_first() =~= rest);
        assert(spec_sum(plan) == chunk + spec_sum(rest));
        assert forall|i: int| 0 <= i < plan.len() implies 0 < #[trigger] plan[i] <= chunk by {
            if i > 0 {
                assert(plan[i] == rest[i - 1]);
            }
        }
    }
}

/// The pieces of `data` cut into chunks of at most `chunk` bytes.
pub open spec fn spec_chunks_of(data: Seq<u8>, chunk: usize) -> Seq<Seq<u8>>
    decreases data.len(),
{
    if chunk == 0 || data.len() == 0 {
        Seq::empty()
    } else if data.len() <= chunk {
        seq![data]
    } else {
        seq![data.take(chunk as int)] + spec_chunks_of(data.skip(chunk as int), chunk)
    }
}

/// Concatenation of pieces.
pub open spec fn spec_concat(chunks: Seq<Seq<u8>>) -> Seq<u8>
    decreases chunks.len(),
{
    if chunks.len() == 0 {
        Seq::empty()
    } else {
        chunks[0] + spec_concat(chunks.drop_first())
    }
}

/// Reassembling the chunks of a transfer yields the original bytes, and
/// every piece held in memory is at most `chunk` bytes.
pub proof fn lemma_chunks_reassemble(data: Seq<u8>, chunk: usize)
    requires
        chunk > 0,
    ensures
        spec_concat(spec_chunks_of(data, chunk)) == data,
        forall|i: int|
            0 <= i < spec_chunks_of(data, chunk).len() ==> #[trigger] spec_chunks_of(
                data,
                chunk,
            )[i].len() <= chunk,
    decreases data.len(),
{
    let cs = spec_chunks_of(data, chunk);
    if data.len() == 0 {
        assert(spec_concat(cs) =~= data);
    } else if data.len() <= chunk {
        assert(cs[0] == data);
        assert(cs.drop_first() =~= Seq::<Seq<u8>>::empty());
        assert(spec_concat(Seq::<Seq<u8>>::empty()) == Seq::<u8>::empty());
        assert(spec_concat(cs) =~= data);
    } else {
        lemma_chunks_reassemble(data.skip(chunk as int), chunk);
        let rest = spec_chunks_of(data.skip(chunk as int), chunk);
        assert(cs.drop_first() =~= rest);
        assert(spec_concat(cs) == data.take(chunk as int) + spec_concat(rest));
        assert(data.take(chunk as int) + data.skip(chunk as int) =~= data);
        assert forall|i: int| 0 <= i < cs.len() implies #[trigger] cs[i].len() <= chunk by {
            if i > 0 {
                assert(cs[i] == rest[i - 1]);
            }
        }
    }
}

/// Cuts `data` into pieces of at most `chunk` bytes.
pub fn split_chunks(data: &[u8], chunk: usize) -> (r: Vec<Vec<u8>>)
    requires
        chunk > 0,
    ensures
        r@.map_values(|c: Vec<u8>| c@) == spec_chunks_of(data@, chunk),
{
    let mut out: Vec<Vec<u8>> = Vec::new();
    let mut pos: usize = 0;
    proof {
        assert(data@.skip(0) =~= data@);
        assert(out@.map_values(|c: Vec<u8>| c@) + spec_chunks_of(data@, chunk) =~= spec_chunks_of(
            data@,
            chunk,
        ));
    }
    while pos < data.len()
        invariant
            chunk > 0,
            pos <= data@.len(),
            spec_chunks_of(data@, chunk) == out@.map_values(|c: Vec<u8>| c@) + spec_chunks_of(
                data@.skip(pos as int),
                chunk,
            ),
        decreases data@.len() - pos,
    {
        let remaining = data.len() - pos;
        let step = next_chunk_len(remaining, chunk);
        let piece: Vec<u8> = slice_to_vec_piece(data, pos, pos + step);
        let ghost om = out@.map_values(|c: Vec<u8>| c@);
        proof {
            let suffix = data@.skip(pos as int);
            if remaining <= chunk {
                assert(piece@ =~= suffix);
                assert(spec_chunks_of(suffix, chunk) == seq![suffix]);
                assert(data@.skip(pos as int + step as int) =~= Seq::<u8>::empty());
                assert(spec_chunks_of(Seq::<u8>::empty(), chunk) == Seq::<Seq<u8>>::empty());
            } else {
                assert(suffix.take(chunk as int) =~= piece@);
                assert(suffix.skip(chunk as int) =~= data@.skip(pos as int + step as int));
                assert(spec_chunks_of(suffix, chunk) == seq![piece@] + spec_chunks_of(
                    data@.skip(pos as int + step as int),
                    chunk,
                ));
            }
            assert(out@.push(piece).map_values(|c: Vec<u8>| c@) =~= om.push(piece@));
            assert(om + (seq![piece@] + spec_chunks_of(data@.skip(pos as int + step as int), chunk))
                =~= om.push(piece@) + spec_chunks_of(data@.skip(pos as int + step as int), chunk));
        }
        out.push(piece);
        pos += step;
    }
    proof {
        assert(data@.skip(pos as int) =~= Seq::<u8>::empty());
        assert(spec_chunks_of(Seq::<u8>::empty(), chunk) == Seq::<Seq<u8>>::empty());
        assert(out@.map_values(|c: Vec<u8>| c@) + Seq::<Seq<u8>>::empty() =~= out@.map_values(
            |c: Vec<u8>| c@,
        ));
    }
    out
}

/// Copies one piece of a byte slice.
fn slice_to_vec_piece(data: &[u8], from: usize, to: usize) -> (r: Vec<u8>)
    requires
        from <= to <= data@.len(),
    ensures
        r@ == data@.subrange(from as int, to as int),
{
    let piece: &[u8] = slice_subrange(data, from, to);
    vstd::slice::slice_to_vec(piece)
}

/// Joins received pieces back into one buffer.
pub fn concat_chunks(chunks: &Vec<Vec<u8>>) -> (r: Vec<u8>)
    ensures
        r@ == spec_concat(chunks@.map_values(|c: Vec<u8>| c@)),
{
    let ghost cv = chunks@.map_values(|c: Vec<u8>| c@);
    let mut out: Vec<u8> = Vec::new();
    let mut i: usize = 0;
    while i < chunks.len()
        invariant
            cv == chunks@.map_values(|c: Vec<u8>| c@),
            i <= chunks@.len(),
            out@ == spec_concat(cv.take(i as int)),
        decreases chunks@.len() - i,
    {
        out.extend_from_slice(chunks[i].as_slice());
        proof {
            lemma_concat_snoc(cv.take(i as int), cv[i as int]);
            assert(cv.take(i as int).push(cv[i as int]) =~= cv.take(i as int + 1));
        }
        i += 1;
    }
    proof {
        assert(cv.take(cv.len() as int) =~= cv);
    }
    out
}

/// Appending a piece appends its bytes to the concatenation.
proof fn lemma_concat_snoc(chunks: Seq<Seq<u8>>, c: Seq<u8>)
    ensures
        spec_concat(chunks.push(c)) == spec_concat(chunks) + c,
    decreases chunks.len(),
{
    if chunks.len() == 0 {
        assert(chunks.push(c)[0] == c);
        assert(chunks.push(c).drop_first() =~= Seq::<Seq<u8>>::empty());
        assert(spec_concat(Seq::<Seq<u8>>::empty()) == Seq::<u8>::empty());
        assert(spec_concat(chunks.push(c)) =~= c);
        assert(spec_concat(chunks) + c =~= c);
    } else {
        assert(chunks.push(c)[0] == chunks[0]);
        assert(chunks.push(c).drop_first() =~= chunks.drop_first().push(c));
        lemma_concat_snoc(chunks.drop_first(), c);
        assert(chunks[0] + (spec_concat(chunks.drop_first()) + c) =~= (chunks[0] + spec_concat(
            chunks.drop_first(),
        )) + c);
    }
}

} // verus!
