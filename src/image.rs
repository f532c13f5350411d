//! A whole UF2 image: cutting an input into blocks, and writing the blocks out.
use vstd::prelude::*;

use crate::bytes::{le32, zero_pad, write_little_endian, pad_to, padded_copy};
use crate::crc::{crc32, crc32_of};
use crate::format::{BlockView, Uf2Block, standard_block, DATA_SIZE};

verus! {

/// Address of the first block: the start of the RP2040's flash.
pub const FLASH_BASE: u32 = 0x1000_0000;

/// How many input bytes the first block carries before its checksum.
pub const FIRST_CHUNK_LEN: usize = 252;

/// How many input bytes the first block consumes; the four after its
/// content are skipped.
pub const FIRST_BLOCK_SKIP: usize = 256;

/// Input bytes per block after the first, and the address step between blocks.
pub const CHUNK_SIZE: usize = 256;

/// The longest input whose last block address still fits in 32 bits.
pub const MAX_IMAGE_LEN: usize = 0xF000_0000;

/// Number of blocks for an input of `len` bytes: the first block, then one
/// per started 256-byte chunk after the first 256 bytes.
pub open spec fn block_count(len: nat) -> nat {
    if len <= FIRST_BLOCK_SKIP {
        1
    } else {
        1 + ((len - FIRST_BLOCK_SKIP) as nat + CHUNK_SIZE - 1) as nat / (CHUNK_SIZE as nat)
    }
}

/// The first 252 bytes of `input`, zero-padded when it is shorter.
pub open spec fn first_chunk(input: Seq<u8>) -> Seq<u8> {
    zero_pad(
        if input.len() <= FIRST_CHUNK_LEN { input } else { input.take(FIRST_CHUNK_LEN as int) },
        FIRST_CHUNK_LEN as nat,
    )
}

/// Data field of the first block: the first chunk, its CRC-32 little-endian,
/// then zeros.
pub open spec fn first_payload(input: Seq<u8>) -> Seq<u8> {
    zero_pad(first_chunk(input) + le32(crc32_of(first_chunk(input))), DATA_SIZE as nat)
}

/// The input bytes of block `i` (for `i >= 1`): the 256 bytes from `256 * i`,
/// fewer at the end of the input.
pub open spec fn chunk(input: Seq<u8>, i: nat) -> Seq<u8> {
    let start = CHUNK_SIZE * i;
    let end = if input.len() < start + CHUNK_SIZE { input.len() as int } else { start + CHUNK_SIZE };
    input.subrange(start as int, end)
}

/// Data field of block `i`.
pub open spec fn block_payload(input: Seq<u8>, i: nat) -> Seq<u8> {
    if i == 0 {
        first_payload(input)
    } else {
        zero_pad(chunk(input, i), DATA_SIZE as nat)
    }
}

/// Block `i` of the image of `input`.
pub open spec fn encoded_block(input: Seq<u8>, i: nat) -> BlockView {
    standard_block(
        (FLASH_BASE + CHUNK_SIZE * i) as u32,
        i as u32,
        block_count(input.len()) as u32,
        block_payload(input, i),
    )
}

/// The blocks of the image of `input`, in order.
pub open spec fn encoded(input: Seq<u8>) -> Seq<BlockView> {
    Seq::new(block_count(input.len()), |i: int| encoded_block(input, i as nat))
}

/// The bytes of `blocks`, one block after the other.
pub open spec fn serialized(blocks: Seq<BlockView>) -> Seq<u8>
    decreases blocks.len(),
{
    if blocks.len() == 0 {
        Seq::empty()
    } else {
        serialized(blocks.drop_last()) + blocks.last().bytes()
    }
}

/// Every block has a payload that fits its data field.
pub open spec fn all_wf(blocks: Seq<BlockView>) -> bool {
    forall|i: int| 0 <= i < blocks.len() ==> #[trigger] blocks[i].wf()
}

/// A UF2 image: its blocks in order.
pub struct Uf2 {
    pub blocks: Vec<Uf2Block>,
}

impl View for Uf2 {
    type V = Seq<BlockView>;

    open spec fn view(&self) -> Seq<BlockView> {
        self.blocks@.map_values(|b: Uf2Block| b@)
    }
}

impl Uf2 {
    /// Every block's payload fits its data field.
    pub open spec fn wf(&self) -> bool {
        all_wf(self@)
    }

    /// Cuts `hex_file` into blocks: a first block holding its first 252 bytes
    /// and their CRC-32, then one block per 256 bytes after its first 256.
    pub fn create(hex_file: &[u8]) -> (r: Uf2)
        requires
            hex_file@.len() <= MAX_IMAGE_LEN,
        ensures
            r@ == encoded(hex_file@),
            r.wf(),
    {
        let ghost input = hex_file@;
        let len = hex_file.len();
        let num_chunks: usize = if len > FIRST_BLOCK_SKIP {
            (len - FIRST_BLOCK_SKIP + CHUNK_SIZE - 1) / CHUNK_SIZE
        } else {
            0
        };
        proof {
            lemma_chunk_bounds(len as nat, num_chunks as nat);
        }
        let num_blocks: u32 = (num_chunks + 1) as u32;
        let mut blocks: Vec<Uf2Block> = Vec::new();

        let first_len: usize = if len <= FIRST_CHUNK_LEN { len } else { FIRST_CHUNK_LEN };
        let mut buffer = padded_copy(hex_file, 0, first_len, FIRST_CHUNK_LEN);
        assert(input.subrange(0, first_len as int) =~= (if input.len() <= FIRST_CHUNK_LEN { input } else { input.take(FIRST_CHUNK_LEN as int) }));
        let crc = crc32(buffer.as_slice());
        write_little_endian(&mut buffer, crc);
        pad_to(&mut buffer, DATA_SIZE);
        blocks.push(Uf2Block::allocate(FLASH_BASE, 0, num_blocks, buffer));

        let mut i: usize = 1;
        while i <= num_chunks
            invariant
                1 <= i <= num_chunks + 1,
                len == input.len(),
                input == hex_file@,
                len <= MAX_IMAGE_LEN,
                block_count(len as nat) == num_chunks + 1,
                num_blocks == block_count(len as nat) as u32,
                num_blocks as int == num_chunks + 1,
                num_chunks >= 1 ==> CHUNK_SIZE * num_chunks < len,
                blocks@.len() == i,
                forall|j: int| 0 <= j < i ==> (#[trigger] blocks@[j])@ == encoded_block(input, j as nat),
            decreases num_chunks + 1 - i,
        {
            assert(CHUNK_SIZE * (i as nat) < len);
            let start: usize = CHUNK_SIZE * i;
            let end: usize = if len < start + CHUNK_SIZE { len } else { start + CHUNK_SIZE };
            let data = padded_copy(hex_file, start, end, DATA_SIZE);
            let addr: u32 = FLASH_BASE + (i as u32) * (CHUNK_SIZE as u32);
            blocks.push(Uf2Block::allocate(addr, i as u32, num_blocks, data));
            i += 1;
        }
        let r = Uf2 { blocks };
        assert(r@ =~= encoded(input));
        proof {
            lemma_encoded_wf(input);
        }
        r
    }

    /// The bytes of the image: each block's 512 bytes in order.
    pub fn as_bytes(&self) -> (r: Vec<u8>)
        requires
            self.wf(),
        ensures
            r@ == serialized(self@),
    {
        let mut buf: Vec<u8> = Vec::new();
        let mut i: usize = 0;
        while i < self.blocks.len()
            invariant
                i <= self@.len(),
                self@.len() == self.blocks@.len(),
                self.wf(),
                buf@ == serialized(self@.take(i as int)),
            decreases self.blocks@.len() - i,
        {
            assert(self@[i as int].wf());
            self.blocks[i].write_to(&mut buf);
            assert(self@.take(i + 1).drop_last() =~= self@.take(i as int));
            i += 1;
        }
        assert(self@.take(i as int) =~= self@);
        buf
    }
}

/// Bounds on the chunk blocks of an input of `len` bytes, `num_chunks` of them.
pub(crate) proof fn lemma_chunk_bounds(len: nat, num_chunks: nat)
    requires
        len <= MAX_IMAGE_LEN,
        num_chunks == (if len > FIRST_BLOCK_SKIP {
            (len - FIRST_BLOCK_SKIP + CHUNK_SIZE - 1) as nat / (CHUNK_SIZE as nat)
        } else {
            0
        }),
    ensures
        block_count(len) == num_chunks + 1,
        num_chunks + 1 <= 0xF0_0000,
        num_chunks >= 1 ==> CHUNK_SIZE * num_chunks < len,
{
    if len > FIRST_BLOCK_SKIP {
        let m = (len - 256 + 255) as nat;
        assert(256 * (m / 256) <= m) by (nonlinear_arith);
        assert(m / 256 <= 0xEF_FFFF) by (nonlinear_arith)
            requires m <= 0xF000_0000 - 1;
    }
}

/// Every block of an encoded image has a full 476-byte data field.
pub proof fn lemma_encoded_wf(input: Seq<u8>)
    ensures
        all_wf(encoded(input)),
        forall|i: int| 0 <= i < encoded(input).len() ==> (#[trigger] encoded(input)[i]).data.len() == DATA_SIZE,
{
    let first = first_chunk(input);
    assert((first + le32(crc32_of(first))).len() == 256);
    assert forall|i: int| 0 <= i < encoded(input).len() implies (#[trigger] encoded(input)[i]).data.len() == DATA_SIZE by {
        if i > 0 {
            let c = chunk(input, i as nat);
            assert(c.len() <= 256);
        }
    }
}

} // verus!
