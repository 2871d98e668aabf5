//! Chunks that wait for an embedding, and statistics of the vector index.

use vstd::prelude::*;

verus! {

/// A piece of text of a document, ready to be embedded.
#[derive(Debug, Clone)]
pub struct Chunk {
    pub doc_id: i64,
    /// First source line of the chunk.
    pub line_start: usize,
    /// Last source line of the chunk.
    pub line_end: usize,
    pub text: String,
    /// Absolute path of the file.
    pub doc_path: String,
}

/// Statistics of the vector index.
#[derive(Debug, Clone, Copy, PartialEq, Eq, Structural)]
pub struct VecInfo {
    /// The number of components of a vector.
    pub embedding_dim: u32,
    /// The number of chunks that have a vector.
    pub vector_count: u64,
    /// The number of chunks that have none yet.
    pub pending_count: u64,
}

/// The bytes of a list of 32-bit patterns, the lowest byte of each first.
pub open spec fn little_endian(v: Seq<u32>) -> Seq<u8>
    decreases v.len(),
{
    if v.len() == 0 {
        Seq::empty()
    } else {
        let x = v.last() as int;
        little_endian(v.drop_last()) + seq![
            (x % 256) as u8,
            (x / 256 % 256) as u8,
            (x / 65536 % 256) as u8,
            (x / 16777216) as u8,
        ]
    }
}

/// Lays out a vector for storage: the single-precision bit patterns of its
/// components in little-endian order.
pub fn vec_serialize(v: &[u32]) -> (r: Vec<u8>)
    ensures
        r@ == little_endian(v@),
        r@.len() == 4 * v@.len(),
{
    let mut r: Vec<u8> = Vec::new();
    let mut i: usize = 0;
    proof {
        assert(v@.take(0) =~= Seq::empty());
    }
    while i < v.len()
        invariant
            i <= v@.len(),
            r@ == little_endian(v@.take(i as int)),
            r@.len() == 4 * i,
        decreases v@.len() - i,
    {
        let x: u32 = v[i];
        let ghost before = r@;
        r.push((x % 256) as u8);
        r.push((x / 256 % 256) as u8);
        r.push((x / 65536 % 256) as u8);
        r.push((x / 16777216) as u8);
        proof {
            assert(v@.take(i + 1).drop_last() =~= v@.take(i as int));
            assert(v@.take(i + 1).last() == x);
            assert(r@ =~= before + seq![
                (x % 256) as u8,
                (x / 256 % 256) as u8,
                (x / 65536 % 256) as u8,
                (x / 16777216) as u8,
            ]);
        }
        i += 1;
    }
    proof {
        assert(v@.take(i as int) =~= v@);
    }
    r
}

/// What was laid out can be read back: four bytes after the other make up the
/// bit patterns again.
pub proof fn layout_reads_back(v: Seq<u32>, i: int)
    requires
        0 <= i < v.len(),
    ensures
        little_endian(v).len() == 4 * v.len(),
        ({
            let b = little_endian(v);
            v[i] == b[4 * i] + 256 * b[4 * i + 1] + 65536 * b[4 * i + 2] + 16777216 * b[4 * i + 3]
        }),
    decreases v.len(),
{
    let rest = v.drop_last();
    lemma_layout_len(rest);
    if i < rest.len() {
        layout_reads_back(rest, i);
        assert(rest[i] == v[i]);
    }
}

proof fn lemma_layout_len(v: Seq<u32>)
    ensures
        little_endian(v).len() == 4 * v.len(),
    decreases v.len(),
{
    if v.len() > 0 {
        lemma_layout_len(v.drop_last());
    }
}

/// How many chunks are embedded at a time.
pub const EMBED_BATCH: usize = 100;

/// The batches in which `total` chunks are embedded, as ranges.
pub open spec fn batches(total: nat) -> Seq<(usize, usize)> {
    Seq::new(
        (total + 99) / 100,
        |i: int|
            (
                (i * 100) as usize,
                (if (i + 1) * 100 < total {
                    (i + 1) * 100
                } else {
                    total as int
                }) as usize,
            ),
    )
}

/// The batches in which `total` chunks are embedded. After each of them
/// progress is reported with its end.
pub fn embed_batches(total: usize) -> (r: Vec<(usize, usize)>)
    ensures
        r@ == batches(total as nat),
{
    let mut r: Vec<(usize, usize)> = Vec::new();
    let mut done: usize = 0;
    while done < total
        invariant
            done <= total,
            done == total || done == r@.len() * 100,
            done == total ==> r@.len() == (total + 99) / 100,
            r@.len() <= (total + 99) / 100,
            forall|i: int|
                0 <= i < r@.len() ==> #[trigger] r@[i] == (
                    (i * 100) as usize,
                    (if (i + 1) * 100 < total {
                        (i + 1) * 100
                    } else {
                        total as int
                    }) as usize,
                ),
        decreases total - done,
    {
        let end: usize = if total - done > EMBED_BATCH {
            done + EMBED_BATCH
        } else {
            total
        };
        r.push((done, end));
        done = end;
    }
    proof {
        assert(r@ =~= batches(total as nat));
    }
    r
}

/// The batches cover everything once and in order, and none is empty or
/// larger than the limit.
pub proof fn batches_cover(total: nat, i: int)
    requires
        total <= usize::MAX,
        0 <= i < batches(total).len(),
    ensures
        ({
            let (from, to) = batches(total)[i];
            &&& from < to <= total
            &&& to - from <= EMBED_BATCH
            &&& i == 0 ==> from == 0
            &&& i > 0 ==> from == batches(total)[i - 1].1
            &&& i == batches(total).len() - 1 ==> to == total
        }),
{
}

} // verus!
