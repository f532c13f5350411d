//! One UF2 block: its header fields, its payload, and its 512-byte wire layout.
use vstd::prelude::*;

use crate::bytes::{le32, zero_pad, write_little_endian, push_zeros};

verus! {

/// First magic word of every block.
pub const MAGIC_0: u32 = 0x0A32_4655;

/// Second magic word of every block.
pub const MAGIC_1: u32 = 0x9E5D_5157;

/// Magic word that closes every block.
pub const MAGIC_END: u32 = 0x0AB1_6F30;

/// Flag bit saying that the family identifier field is set.
pub const FLAG_FAMILY_ID_PRESENT: u32 = 0x0000_2000;

/// Declared payload length of every block.
pub const PAYLOAD_SIZE: u32 = 256;

/// Family identifier of the RP2040 microcontroller.
pub const FAMILY_ID_RP2040: u32 = 0xE48B_FF56;

/// Size of the data field of a block.
pub const DATA_SIZE: usize = 476;

/// Size of one block on the wire.
pub const BLOCK_SIZE: usize = 512;

/// A block as a value: its header words and its payload bytes.
pub struct BlockView {
    pub magic_0: u32,
    pub magic_1: u32,
    pub flags: u32,
    pub target_addr: u32,
    pub payload_size: u32,
    pub block_no: u32,
    pub num_blocks: u32,
    pub family_id: u32,
    pub data: Seq<u8>,
    pub magic_end: u32,
}

impl BlockView {
    /// The payload fits in the data field.
    pub open spec fn wf(self) -> bool {
        self.data.len() <= DATA_SIZE
    }

    /// The 512 bytes of the block: the eight header words, the data field
    /// zero-padded to 476 bytes, and the closing magic word, all little-endian.
    pub open spec fn bytes(self) -> Seq<u8> {
        le32(self.magic_0) + le32(self.magic_1) + le32(self.flags) + le32(self.target_addr)
            + le32(self.payload_size) + le32(self.block_no) + le32(self.num_blocks)
            + le32(self.family_id) + zero_pad(self.data, DATA_SIZE as nat) + le32(self.magic_end)
    }
}

/// One block of a UF2 image.
#[derive(Clone)]
pub struct Uf2Block {
    pub magic_0: u32,
    pub magic_1: u32,
    pub flags: u32,
    pub target_addr: u32,
    pub payload_size: u32,
    pub block_no: u32,
    pub num_blocks: u32,
    pub family_id: u32,
    pub data: Vec<u8>,
    pub magic_end: u32,
}

impl View for Uf2Block {
    type V = BlockView;

    open spec fn view(&self) -> BlockView {
        BlockView {
            magic_0: self.magic_0,
            magic_1: self.magic_1,
            flags: self.flags,
            target_addr: self.target_addr,
            payload_size: self.payload_size,
            block_no: self.block_no,
            num_blocks: self.num_blocks,
            family_id: self.family_id,
            data: self.data@,
            magic_end: self.magic_end,
        }
    }
}

/// The block with the format's fixed words and the given position and payload.
pub open spec fn standard_block(target_addr: u32, block_no: u32, num_blocks: u32, data: Seq<u8>) -> BlockView {
    BlockView {
        magic_0: MAGIC_0,
        magic_1: MAGIC_1,
        flags: FLAG_FAMILY_ID_PRESENT,
        target_addr,
        payload_size: PAYLOAD_SIZE,
        block_no,
        num_blocks,
        family_id: FAMILY_ID_RP2040,
        data,
        magic_end: MAGIC_END,
    }
}

impl Uf2Block {
    /// A block for the RP2040 family at `target_addr`, numbered `block_no` of `num_blocks`.
    pub fn allocate(target_addr: u32, block_no: u32, num_blocks: u32, data: Vec<u8>) -> (r: Self)
        ensures
            r@ == standard_block(target_addr, block_no, num_blocks, data@),
    {
        Uf2Block {
            magic_0: MAGIC_0,
            magic_1: MAGIC_1,
            flags: FLAG_FAMILY_ID_PRESENT,
            target_addr,
            payload_size: PAYLOAD_SIZE,
            block_no,
            num_blocks,
            family_id: FAMILY_ID_RP2040,
            data,
            magic_end: MAGIC_END,
        }
    }

    /// Appends the 512 bytes of this block to `buf`.
    pub fn write_to(&self, buf: &mut Vec<u8>)
        requires
            self@.wf(),
        ensures
            final(buf)@ == old(buf)@ + self@.bytes(),
    {
        let ghost start = buf@;
        write_little_endian(buf, self.magic_0);
        write_little_endian(buf, self.magic_1);
        write_little_endian(buf, self.flags);
        write_little_endian(buf, self.target_addr);
        write_little_endian(buf, self.payload_size);
        write_little_endian(buf, self.block_no);
        write_little_endian(buf, self.num_blocks);
        write_little_endian(buf, self.family_id);
        let ghost header = buf@;
        let mut j: usize = 0;
        while j < self.data.len()
            invariant
                j <= self.data@.len(),
                buf@ == header + self.data@.take(j as int),
            decreases self.data@.len() - j,
        {
            buf.push(self.data[j]);
            j += 1;
            assert(buf@ =~= header + self.data@.take(j as int));
        }
        assert(self.data@.take(self.data@.len() as int) =~= self.data@);
        push_zeros(buf, DATA_SIZE - self.data.len());
        assert(buf@ =~= header + zero_pad(self.data@, DATA_SIZE as nat));
        write_little_endian(buf, self.magic_end);
        assert(final(buf)@ =~= start + self@.bytes());
    }
}

/// Where each field of a block stands in its 512 bytes.
pub proof fn lemma_block_layout(b: BlockView)
    requires
        b.wf(),
    ensures
        b.bytes().len() == BLOCK_SIZE,
        b.bytes().subrange(0, 4) == le32(b.magic_0),
        b.bytes().subrange(4, 8) == le32(b.magic_1),
        b.bytes().subrange(8, 12) == le32(b.flags),
        b.bytes().subrange(12, 16) == le32(b.target_addr),
        b.bytes().subrange(16, 20) == le32(b.payload_size),
        b.bytes().subrange(20, 24) == le32(b.block_no),
        b.bytes().subrange(24, 28) == le32(b.num_blocks),
        b.bytes().subrange(28, 32) == le32(b.family_id),
        b.bytes().subrange(32, 508) == zero_pad(b.data, DATA_SIZE as nat),
        b.bytes().subrange(508, 512) == le32(b.magic_end),
{
    let s = b.bytes();
    assert(zero_pad(b.data, DATA_SIZE as nat).len() == DATA_SIZE);
    assert(s.subrange(0, 4) =~= le32(b.magic_0));
    assert(s.subrange(4, 8) =~= le32(b.magic_1));
    assert(s.subrange(8, 12) =~= le32(b.flags));
    assert(s.subrange(12, 16) =~= le32(b.target_addr));
    assert(s.subrange(16, 20) =~= le32(b.payload_size));
    assert(s.subrange(20, 24) =~= le32(b.block_no));
    assert(s.subrange(24, 28) =~= le32(b.num_blocks));
    assert(s.subrange(28, 32) =~= le32(b.family_id));
    assert(s.subrange(32, 508) =~= zero_pad(b.data, DATA_SIZE as nat));
    assert(s.subrange(508, 512) =~= le32(b.magic_end));
}

} // verus!
