//! What holds of every encoded image and of its bytes.
use vstd::prelude::*;

use crate::bytes::le32;
use crate::crc::crc32_of;
use crate::format::{BlockView, lemma_block_layout, BLOCK_SIZE};
use crate::image::{
    all_wf, block_count, encoded, first_chunk, lemma_chunk_bounds, lemma_encoded_wf, serialized,
    CHUNK_SIZE, FIRST_BLOCK_SKIP, FIRST_CHUNK_LEN, FLASH_BASE, MAX_IMAGE_LEN,
};

verus! {

/// Well-formed blocks are written out as exactly 512 bytes each.
pub proof fn lemma_serialized_len(blocks: Seq<BlockView>)
    requires
        all_wf(blocks),
    ensures
        serialized(blocks).len() == BLOCK_SIZE * blocks.len(),
    decreases blocks.len(),
{
    if blocks.len() > 0 {
        let rest = blocks.drop_last();
        assert(all_wf(rest)) by {
            assert forall|i: int| 0 <= i < rest.len() implies #[trigger] rest[i].wf() by {
                assert(blocks[i].wf());
            }
        }
        lemma_serialized_len(rest);
        assert(blocks[blocks.len() - 1].wf());
        lemma_block_layout(blocks.last());
    }
}

/// Block `i` of well-formed blocks occupies bytes `512 * i .. 512 * i + 512`
/// of their serialization, laid out as `BlockView::bytes` says.
pub proof fn lemma_serialized_block(blocks: Seq<BlockView>, i: int)
    requires
        all_wf(blocks),
        0 <= i < blocks.len(),
    ensures
        serialized(blocks).subrange(BLOCK_SIZE * i, BLOCK_SIZE * i + BLOCK_SIZE) == blocks[i].bytes(),
    decreases blocks.len(),
{
    let rest = blocks.drop_last();
    assert(all_wf(rest)) by {
        assert forall|k: int| 0 <= k < rest.len() implies #[trigger] rest[k].wf() by {
            assert(blocks[k].wf());
        }
    }
    lemma_serialized_len(rest);
    assert(blocks[blocks.len() - 1].wf());
    lemma_block_layout(blocks.last());
    let s = serialized(blocks);
    if i == blocks.len() - 1 {
        assert(s.subrange(BLOCK_SIZE * i, BLOCK_SIZE * i + BLOCK_SIZE) =~= blocks.last().bytes());
    } else {
        lemma_serialized_block(rest, i);
        assert(s.subrange(BLOCK_SIZE * i, BLOCK_SIZE * i + BLOCK_SIZE)
            =~= serialized(rest).subrange(BLOCK_SIZE * i, BLOCK_SIZE * i + BLOCK_SIZE));
    }
}

/// The bytes of an encoded image are 512 per block.
pub proof fn lemma_image_len(input: Seq<u8>)
    ensures
        serialized(encoded(input)).len() == BLOCK_SIZE * encoded(input).len(),
        encoded(input).len() == block_count(input.len()),
{
    lemma_encoded_wf(input);
    lemma_serialized_len(encoded(input));
}

/// Every block of an encoded image stands at its own 512-byte window of the
/// output, with each header word little-endian in its fixed place.
pub proof fn lemma_image_layout(input: Seq<u8>, i: int)
    requires
        0 <= i < encoded(input).len(),
    ensures
        serialized(encoded(input)).subrange(BLOCK_SIZE * i, BLOCK_SIZE * i + BLOCK_SIZE)
            == encoded(input)[i].bytes(),
        encoded(input)[i].bytes().len() == BLOCK_SIZE,
        encoded(input)[i].bytes().subrange(0, 4) == le32(encoded(input)[i].magic_0),
        encoded(input)[i].bytes().subrange(4, 8) == le32(encoded(input)[i].magic_1),
        encoded(input)[i].bytes().subrange(8, 12) == le32(encoded(input)[i].flags),
        encoded(input)[i].bytes().subrange(12, 16) == le32(encoded(input)[i].target_addr),
        encoded(input)[i].bytes().subrange(16, 20) == le32(encoded(input)[i].payload_size),
        encoded(input)[i].bytes().subrange(20, 24) == le32(encoded(input)[i].block_no),
        encoded(input)[i].bytes().subrange(24, 28) == le32(encoded(input)[i].num_blocks),
        encoded(input)[i].bytes().subrange(28, 32) == le32(encoded(input)[i].family_id),
        encoded(input)[i].bytes().subrange(32, 508) == encoded(input)[i].data,
        encoded(input)[i].bytes().subrange(508, 512) == le32(encoded(input)[i].magic_end),
{
    lemma_encoded_wf(input);
    lemma_serialized_block(encoded(input), i);
    assert(encoded(input)[i].wf());
    lemma_block_layout(encoded(input)[i]);
}

/// The first block's data starts with the first 252 input bytes (zeros where
/// the input is shorter), then their CRC-32 little-endian, then zeros.
pub proof fn lemma_first_block(input: Seq<u8>)
    ensures
        encoded(input)[0].data.subrange(0, 252) == first_chunk(input),
        forall|k: int|
            0 <= k < FIRST_CHUNK_LEN ==> #[trigger] first_chunk(input)[k] == (if k < input.len() {
                input[k]
            } else {
                0u8
            }),
        encoded(input)[0].data.subrange(252, 256) == le32(crc32_of(first_chunk(input))),
        forall|k: int| 256 <= k < 476 ==> #[trigger] encoded(input)[0].data[k] == 0u8,
{
    let first = first_chunk(input);
    let d = encoded(input)[0].data;
    assert(d.subrange(0, 252) =~= first);
    assert(d.subrange(252, 256) =~= le32(crc32_of(first)));
}

/// Blocks are numbered 0, 1, 2, ... and each one carries the total count.
pub proof fn lemma_block_numbering(input: Seq<u8>)
    requires
        input.len() <= MAX_IMAGE_LEN,
    ensures
        forall|i: int|
            0 <= i < encoded(input).len() ==> (#[trigger] encoded(input)[i]).block_no as int == i
                && encoded(input)[i].num_blocks as int == encoded(input).len(),
{
    lemma_count_bounds(input.len());
}

/// Block `i` is placed at `0x1000_0000 + 256 * i`.
pub proof fn lemma_block_addresses(input: Seq<u8>)
    requires
        input.len() <= MAX_IMAGE_LEN,
    ensures
        forall|i: int|
            0 <= i < encoded(input).len() ==> (#[trigger] encoded(input)[i]).target_addr as int
                == FLASH_BASE + CHUNK_SIZE * i,
{
    lemma_count_bounds(input.len());
    assert forall|i: int| 0 <= i < encoded(input).len() implies (#[trigger] encoded(input)[i]).target_addr as int
        == FLASH_BASE + CHUNK_SIZE * i by {
        assert(CHUNK_SIZE * i <= CHUNK_SIZE * 0xEF_FFFF);
    }
}

/// Encoding equal inputs gives equal bytes.
pub proof fn lemma_encoding_deterministic(a: Seq<u8>, b: Seq<u8>)
    requires
        a == b,
    ensures
        serialized(encoded(a)) == serialized(encoded(b)),
{
}

/// An input that fits has fewer than `0xF0_0000` blocks.
proof fn lemma_count_bounds(len: nat)
    requires
        len <= MAX_IMAGE_LEN,
    ensures
        block_count(len) <= 0xF0_0000,
{
    let n: nat = if len > FIRST_BLOCK_SKIP {
        (len - FIRST_BLOCK_SKIP + CHUNK_SIZE - 1) as nat / (CHUNK_SIZE as nat)
    } else {
        0
    };
    lemma_chunk_bounds(len, n);
}

} // verus!
