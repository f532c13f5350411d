use uf2gen::bytes::write_little_endian;
use uf2gen::crc::crc32;
use uf2gen::format::{
    Uf2Block, FAMILY_ID_RP2040, FLAG_FAMILY_ID_PRESENT, MAGIC_0, MAGIC_1, MAGIC_END,
    PAYLOAD_SIZE,
};
use uf2gen::image::{Uf2, FLASH_BASE};

fn le(x: u32) -> Vec<u8> {
    x.to_le_bytes().to_vec()
}

fn word_at(bytes: &[u8], at: usize) -> u32 {
    u32::from_le_bytes([bytes[at], bytes[at + 1], bytes[at + 2], bytes[at + 3]])
}

/// A bootloader padded to 256 bytes followed by a program, as the tool builds it.
fn image_input(bootloader: &[u8], program: &[u8]) -> Vec<u8> {
    let mut v = bootloader.to_vec();
    while v.len() < 256 {
        v.push(0);
    }
    v.extend_from_slice(program);
    v
}

#[test]
fn crc32_check_value() {
    assert_eq!(crc32(b"123456789"), 0xCBF4_3926);
    assert_eq!(crc32(&[]), 0);
    assert_eq!(crc32(&[0u8; 252]), 0xA663_59F1);
}

#[test]
fn little_endian_words() {
    let mut v = vec![0xAAu8];
    write_little_endian(&mut v, 0x1234_5678);
    assert_eq!(v, vec![0xAA, 0x78, 0x56, 0x34, 0x12]);
    write_little_endian(&mut v, 0xE48B_FF56);
    assert_eq!(&v[5..], &[0x56, 0xFF, 0x8B, 0xE4]);
}

#[test]
fn allocate_sets_fixed_words() {
    let b = Uf2Block::allocate(0x1000_0100, 1, 7, vec![9, 8]);
    assert_eq!(b.magic_0, 0x0A32_4655);
    assert_eq!(b.magic_1, 0x9E5D_5157);
    assert_eq!(b.flags, 0x0000_2000);
    assert_eq!(b.target_addr, 0x1000_0100);
    assert_eq!(b.payload_size, 256);
    assert_eq!(b.block_no, 1);
    assert_eq!(b.num_blocks, 7);
    assert_eq!(b.family_id, 0xE48B_FF56);
    assert_eq!(b.data, vec![9, 8]);
    assert_eq!(b.magic_end, 0x0AB1_6F30);
}

#[test]
fn four_byte_bootloader_alone() {
    let input = image_input(&[0x01, 0x02, 0x03, 0x04], &[]);
    let uf2 = Uf2::create(&input);
    assert_eq!(uf2.blocks.len(), 1);
    let b = &uf2.blocks[0];
    assert_eq!(b.num_blocks, 1);
    assert_eq!(b.data.len(), 476);
    assert_eq!(&b.data[0..4], &[0x01, 0x02, 0x03, 0x04]);
    assert!(b.data[4..252].iter().all(|&x| x == 0));
    assert_eq!(&b.data[252..256], &le(0x31D5_7FD2)[..]);
    assert!(b.data[256..].iter().all(|&x| x == 0));
    let mut first = vec![1u8, 2, 3, 4];
    first.resize(252, 0);
    assert_eq!(&b.data[252..256], &le(crc32(&first))[..]);
    assert_eq!(uf2.as_bytes().len(), 512);
}

#[test]
fn full_chunk_of_ff_after_empty_bootloader() {
    let input = image_input(&[], &[0xFF; 256]);
    let uf2 = Uf2::create(&input);
    assert_eq!(uf2.blocks.len(), 2);
    assert_eq!(uf2.blocks[0].num_blocks, 2);
    assert_eq!(uf2.blocks[1].num_blocks, 2);
    assert_eq!(&uf2.blocks[0].data[252..256], &le(0xA663_59F1)[..]);
    let second = &uf2.blocks[1].data;
    assert_eq!(second.len(), 476);
    assert!(second[..256].iter().all(|&x| x == 0xFF));
    assert!(second[256..].iter().all(|&x| x == 0));
    assert_eq!(uf2.as_bytes().len(), 1024);
}

#[test]
fn program_of_257_bytes_takes_two_chunks() {
    let mut program = vec![0x11u8; 256];
    program.push(0x22);
    let uf2 = Uf2::create(&image_input(&[], &program));
    assert_eq!(uf2.blocks.len(), 3);
    assert!(uf2.blocks[1].data[..256].iter().all(|&x| x == 0x11));
    assert_eq!(uf2.blocks[2].data[0], 0x22);
    assert!(uf2.blocks[2].data[1..].iter().all(|&x| x == 0));
    for b in &uf2.blocks {
        assert_eq!(b.num_blocks, 3);
    }
}

#[test]
fn empty_input_gives_one_block() {
    let uf2 = Uf2::create(&[]);
    assert_eq!(uf2.blocks.len(), 1);
    assert_eq!(uf2.blocks[0].block_no, 0);
    assert_eq!(uf2.blocks[0].target_addr, FLASH_BASE);
    assert_eq!(&uf2.blocks[0].data[252..256], &le(0xA663_59F1)[..]);
    assert_eq!(uf2.as_bytes().len(), 512);
}

#[test]
fn first_block_of_counting_bytes() {
    let input: Vec<u8> = (0..252u32).map(|x| x as u8).collect();
    let uf2 = Uf2::create(&input);
    assert_eq!(uf2.blocks.len(), 1);
    assert_eq!(&uf2.blocks[0].data[..252], &input[..]);
    assert_eq!(&uf2.blocks[0].data[252..256], &le(0x0E84_5022)[..]);
}

#[test]
fn bytes_after_first_chunk_are_skipped() {
    let mut input = vec![0u8; 300];
    for k in 252..256 {
        input[k] = 0xEE;
    }
    input[256] = 0x77;
    let uf2 = Uf2::create(&input);
    assert_eq!(uf2.blocks.len(), 2);
    assert!(uf2.blocks[0].data[..252].iter().all(|&x| x == 0));
    assert_eq!(&uf2.blocks[0].data[252..256], &le(0xA663_59F1)[..]);
    assert_eq!(uf2.blocks[1].data[0], 0x77);
    assert!(!uf2.as_bytes().contains(&0xEE));
}

#[test]
fn output_length_is_512_per_block() {
    for (len, blocks) in [(0usize, 1usize), (1, 1), (256, 1), (257, 2), (512, 2), (513, 3), (1000, 4)] {
        let uf2 = Uf2::create(&vec![0x5Au8; len]);
        assert_eq!(uf2.blocks.len(), blocks);
        assert_eq!(uf2.as_bytes().len(), 512 * blocks);
    }
}

#[test]
fn numbering_and_addresses() {
    let uf2 = Uf2::create(&vec![1u8; 1000]);
    let n = uf2.blocks.len() as u32;
    assert_eq!(n, 4);
    for (i, b) in uf2.blocks.iter().enumerate() {
        assert_eq!(b.block_no, i as u32);
        assert_eq!(b.num_blocks, n);
        assert_eq!(b.target_addr, 0x1000_0000 + 256 * i as u32);
    }
}

#[test]
fn wire_layout_of_each_block() {
    let input = image_input(&[7, 7], &[0x33; 300]);
    let uf2 = Uf2::create(&input);
    let out = uf2.as_bytes();
    assert_eq!(out.len(), 512 * 3);
    for (i, b) in uf2.blocks.iter().enumerate() {
        let w = &out[512 * i..512 * i + 512];
        assert_eq!(word_at(w, 0), MAGIC_0);
        assert_eq!(word_at(w, 4), MAGIC_1);
        assert_eq!(word_at(w, 8), FLAG_FAMILY_ID_PRESENT);
        assert_eq!(word_at(w, 12), 0x1000_0000 + 256 * i as u32);
        assert_eq!(word_at(w, 16), PAYLOAD_SIZE);
        assert_eq!(word_at(w, 20), i as u32);
        assert_eq!(word_at(w, 24), 3);
        assert_eq!(word_at(w, 28), FAMILY_ID_RP2040);
        assert_eq!(&w[32..508], &b.data[..]);
        assert_eq!(word_at(w, 508), MAGIC_END);
    }
    assert_eq!(&out[0..4], &[0x55, 0x46, 0x32, 0x0A]);
    assert_eq!(&out[508..512], &[0x30, 0x6F, 0xB1, 0x0A]);
}

#[test]
fn short_data_is_padded_on_the_wire() {
    let uf2 = Uf2 { blocks: vec![Uf2Block::allocate(FLASH_BASE, 0, 1, vec![1, 2, 3])] };
    let out = uf2.as_bytes();
    assert_eq!(out.len(), 512);
    assert_eq!(&out[32..35], &[1, 2, 3]);
    assert!(out[35..508].iter().all(|&x| x == 0));
}

#[test]
fn encoding_twice_is_identical() {
    let input: Vec<u8> = (0..2000u32).map(|x| (x * 7) as u8).collect();
    let a = Uf2::create(&input).as_bytes();
    let b = Uf2::create(&input).as_bytes();
    assert_eq!(a, b);
}
