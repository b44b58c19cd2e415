//! The reproducible byte stream that is written to a disk and later compared.

use rand::RngCore;
use shishua::ShiShuARng;
use vstd::prelude::*;

verus! {

#[verifier::external_type_specification]
#[verifier::external_body]
pub struct ExShiShuARng(ShiShuARng);

/// Byte number `index` (counting from zero) of the ShiShuA stream that is
/// seeded with the four words `seed`, as `shishua::ShiShuARng` hands it out
/// on the little-endian targets that the crate's lane shuffles are written
/// for.
pub uninterp spec fn shishua_byte(seed: Seq<u64>, index: nat) -> u8;

/// Where a generator stands: the seed words of its stream and how many bytes
/// of that stream it has handed out so far.
pub struct StreamPosition {
    pub seed: Seq<u64>,
    pub position: nat,
}

/// The `len` bytes of the stream for `seed` that start at byte `start`.
pub open spec fn stream_bytes(seed: Seq<u64>, start: nat, len: nat) -> Seq<u8> {
    Seq::new(len, |i: int| shishua_byte(seed, (start + i) as nat))
}

impl StreamPosition {
    /// The next `len` bytes this position hands out.
    pub open spec fn next_bytes(self, len: nat) -> Seq<u8> {
        stream_bytes(self.seed, self.position, len)
    }

    /// The position after `len` more bytes were handed out.
    pub open spec fn advance(self, len: nat) -> StreamPosition {
        StreamPosition { seed: self.seed, position: self.position + len }
    }
}

/// The seed words for a 64-bit seed: the seed itself, then three zero words.
pub open spec fn spec_shishua_seed(seed: u64) -> Seq<u64> {
    seq![seed, 0u64, 0u64, 0u64]
}

/// A pseudorandom byte source backed by the ShiShuA generator. Two
/// generators made from one seed hand out the same bytes, however the reads
/// are split up.
pub struct ShishuaGenerator {
    rng: ShiShuARng,
    seed: Ghost<Seq<u64>>,
    position: Ghost<nat>,
}

impl View for ShishuaGenerator {
    type V = StreamPosition;

    closed spec fn view(&self) -> StreamPosition {
        StreamPosition { seed: self.seed@, position: self.position@ }
    }
}

/// Calls `shishua::ShiShuARng::new`. Claims that the new generator stands at
/// the start of the stream for `seed`: the crate's generator derives all its
/// output from the seed words, and its byte buffer starts out empty.
#[verifier::external_body]
fn shishua_new(seed: [u64; 4]) -> (g: ShishuaGenerator)
    ensures
        g@ == (StreamPosition { seed: seed@, position: 0 }),
{
    ShishuaGenerator { rng: ShiShuARng::new(seed), seed: Ghost(seed@), position: Ghost(0) }
}

/// Calls `RngCore::fill_bytes` of `shishua::ShiShuARng`. Claims that each
/// byte of `buf` is overwritten with the next byte of the stream, in order:
/// the crate's `fill_bytes` takes one byte at a time from a buffer that it
/// refills from the ShiShuA state, so no byte is skipped or repeated.
#[verifier::external_body]
fn shishua_fill_bytes(g: &mut ShishuaGenerator, buf: &mut [u8])
    ensures
        final(g)@.seed == old(g)@.seed,
        final(g)@.position == old(g)@.position + old(buf)@.len(),
        final(buf)@.len() == old(buf)@.len(),
        forall|i: int|
            0 <= i < old(buf)@.len() ==> final(buf)@[i] == shishua_byte(
                old(g)@.seed,
                (old(g)@.position + i) as nat,
            ),
{
    g.rng.fill_bytes(buf);
    g.position = Ghost((g.position@ + buf@.len()) as nat);
}

/// The seed words that a 64-bit seed stands for: the seed in the first word
/// and zeros after it.
pub fn to_shishua_seed(seed: u64) -> (words: [u64; 4])
    ensures
        words@ == spec_shishua_seed(seed),
        words[0] == seed,
        words[1] == 0,
        words[2] == 0,
        words[3] == 0,
{
    let words: [u64; 4] = [seed, 0, 0, 0];
    assert(words@ =~= spec_shishua_seed(seed));
    words
}

/// The seed words keep the seed unchanged in the first word and hold zeros
/// in the other three; so distinct seeds give distinct seed words, and
/// distinct streams can be told apart by their seed.
pub proof fn lemma_seed_words(seed: u64, other: u64)
    ensures
        spec_shishua_seed(seed).len() == 4,
        spec_shishua_seed(seed)[0] == seed,
        spec_shishua_seed(seed)[1] == 0,
        spec_shishua_seed(seed)[2] == 0,
        spec_shishua_seed(seed)[3] == 0,
        spec_shishua_seed(seed) == spec_shishua_seed(other) ==> seed == other,
{
    if spec_shishua_seed(seed) == spec_shishua_seed(other) {
        assert(spec_shishua_seed(seed)[0] == spec_shishua_seed(other)[0]);
    }
}

impl ShishuaGenerator {
    /// A generator at the start of the stream for `seed`.
    pub fn new(seed: u64) -> (g: ShishuaGenerator)
        ensures
            g@ == (StreamPosition { seed: spec_shishua_seed(seed), position: 0 }),
            g@.seed.len() == 4,
            g@.seed[0] == seed,
            g@.seed[1] == 0 && g@.seed[2] == 0 && g@.seed[3] == 0,
    {
        shishua_new(to_shishua_seed(seed))
    }

    /// Fills all of `buf` with the next bytes of the stream and returns how
    /// many bytes were written, which is always the whole buffer.
    pub fn read_bytes(&mut self, buf: &mut [u8]) -> (n: usize)
        ensures
            n == old(buf)@.len(),
            final(buf)@ == old(self)@.next_bytes(n as nat),
            final(self)@ == old(self)@.advance(n as nat),
    {
        let n = buf.len();
        shishua_fill_bytes(self, buf);
        assert(buf@ =~= old(self)@.next_bytes(n as nat));
        n
    }
}

#[verifier::external_type_specification]
#[verifier::external_body]
pub struct ExIoError(std::io::Error);

impl std::io::Read for ShishuaGenerator {
    /// Fills all of `buf` with the next bytes of the stream and returns how
    /// many bytes were written, which is always the whole buffer; never fails.
    fn read(&mut self, buf: &mut [u8]) -> (res: std::io::Result<usize>)
        ensures
            match res {
                Ok(k) => {
                    &&& k == old(buf)@.len()
                    &&& final(buf)@ == old(self)@.next_bytes(k as nat)
                    &&& final(self)@ == old(self)@.advance(k as nat)
                },
                Err(_) => false,
            },
    {
        Ok(self.read_bytes(buf))
    }
}

/// Reading `n` bytes and then `m` more hands out the same bytes as reading
/// `n + m` bytes at once: the stream is consumed byte by byte, whatever the
/// sizes of the reads.
pub proof fn lemma_split_reads(start: StreamPosition, n: nat, m: nat)
    ensures
        start.next_bytes(n) + start.advance(n).next_bytes(m) == start.next_bytes(n + m),
        start.advance(n).advance(m) == start.advance(n + m),
{
    assert(start.next_bytes(n) + start.advance(n).next_bytes(m) =~= start.next_bytes(n + m));
}

/// Two generators that stand at the same place of the stream for the same
/// seed hand out the same bytes; in particular, generators made from one seed
/// repeat each other's output.
pub proof fn lemma_same_seed_same_bytes(a: StreamPosition, b: StreamPosition, n: nat)
    requires
        a.seed == b.seed,
        a.position == b.position,
    ensures
        a.next_bytes(n) == b.next_bytes(n),
{
}

/// The sum of the read lengths `lens`.
pub open spec fn total_len(lens: Seq<nat>) -> nat
    decreases lens.len(),
{
    if lens.len() == 0 {
        0
    } else {
        total_len(lens.drop_last()) + lens.last()
    }
}

/// The bytes that read number `i` hands out when reads of lengths `lens`
/// follow one another from `start`: each read starts where the ones before
/// it stopped.
pub open spec fn nth_read(start: StreamPosition, lens: Seq<nat>, i: int) -> Seq<u8> {
    start.advance(total_len(lens.take(i))).next_bytes(lens[i])
}

/// The bytes of successive reads of lengths `lens` from `start`, one after
/// the other.
pub open spec fn successive_reads(start: StreamPosition, lens: Seq<nat>) -> Seq<u8>
    decreases lens.len(),
{
    if lens.len() == 0 {
        Seq::empty()
    } else {
        successive_reads(start, lens.drop_last()) + nth_read(start, lens, lens.len() - 1)
    }
}

/// Any number of successive reads, of any lengths, hand out together the
/// same bytes as one read of their total length.
pub proof fn lemma_successive_reads(start: StreamPosition, lens: Seq<nat>)
    ensures
        successive_reads(start, lens) == start.next_bytes(total_len(lens)),
    decreases lens.len(),
{
    if lens.len() == 0 {
        assert(start.next_bytes(0) =~= Seq::<u8>::empty());
    } else {
        let init = lens.drop_last();
        lemma_successive_reads(start, init);
        assert(lens.take(lens.len() - 1) =~= init);
        lemma_split_reads(start, total_len(init), lens.last());
    }
}

/// Successive reads from a generator made from `seed` hand out the ShiShuA
/// stream of the seed words `[seed, 0, 0, 0]` from its first byte on.
pub proof fn lemma_reads_from_seed(seed: u64, lens: Seq<nat>)
    ensures
        successive_reads(
            StreamPosition { seed: spec_shishua_seed(seed), position: 0 },
            lens,
        ) == stream_bytes(spec_shishua_seed(seed), 0, total_len(lens)),
{
    lemma_successive_reads(StreamPosition { seed: spec_shishua_seed(seed), position: 0 }, lens);
}

/// Two generators that stand at the same place of one seed's stream, given
/// reads of the same lengths in the same order, hand out the same bytes in
/// each read.
pub proof fn lemma_repeatable_reads(a: StreamPosition, b: StreamPosition, lens: Seq<nat>)
    requires
        a.seed == b.seed,
        a.position == b.position,
    ensures
        forall|i: int| 0 <= i < lens.len() ==> nth_read(a, lens, i) == nth_read(b, lens, i),
{
    assert(a == b);
}

} // verus!
