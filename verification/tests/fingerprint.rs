use doxor::blocks::do_xor;
use doxor::blocks::process_file_blocks;
use doxor::blocks::split_into_blocks;
use doxor::hex::to_hex_string;
use doxor::service::check_file_content;
use doxor::service::gen_xor_checking_data;
use doxor::service::Outcome;

#[test]
fn empty_file_fingerprint() {
    // An empty file yields one block of pad bytes; folding it into the
    // pad-byte seed cancels every bit.
    let (fp, outcome) = gen_xor_checking_data(&vec![]);
    assert_eq!(outcome, Outcome::Success);
    assert_eq!(fp, "00".repeat(64));
}

#[test]
fn zero_block_fingerprint() {
    // Exactly one block of zero bytes: no padding block is appended, and
    // XOR with zeros leaves the seed untouched.
    let (fp, outcome) = gen_xor_checking_data(&vec![0u8; 64]);
    assert_eq!(outcome, Outcome::Success);
    assert_eq!(fp, "23".repeat(64));
}

#[test]
fn zero_block_plus_one_byte_fingerprint() {
    // 64 zero bytes and one 0xFF byte: the second block is 0xFF followed by
    // 63 pad bytes, so only the first result byte keeps any bits set.
    let mut data = vec![0u8; 64];
    data.push(0xFF);
    let (fp, outcome) = gen_xor_checking_data(&data);
    assert_eq!(outcome, Outcome::Success);
    let expected = format!("DC{}", "00".repeat(63));
    assert_eq!(fp, expected);
}

#[test]
fn generate_is_deterministic() {
    let data: Vec<u8> = (0u8..=255).cycle().take(1000).collect();
    let (fp1, _) = gen_xor_checking_data(&data);
    let (fp2, _) = gen_xor_checking_data(&data);
    assert_eq!(fp1, fp2);
}

#[test]
fn fingerprint_is_always_128_chars() {
    for len in [0usize, 1, 63, 64, 65, 127, 128, 129, 1000] {
        let data = vec![0xA5u8; len];
        let (fp, outcome) = gen_xor_checking_data(&data);
        assert_eq!(outcome, Outcome::Success);
        assert_eq!(fp.len(), 128);
    }
}

#[test]
fn verify_matches_generated() {
    let data: Vec<u8> = b"The quick brown fox jumps over the lazy dog".to_vec();
    let (fp, _) = gen_xor_checking_data(&data);
    assert_eq!(check_file_content(&data, &fp), Outcome::Success);
}

#[test]
fn verify_detects_single_bit_flip() {
    let original: Vec<u8> = (1u8..=200).collect();
    let (fp, _) = gen_xor_checking_data(&original);
    for bit in 0..8 {
        let mut mutated = original.clone();
        mutated[137] ^= 1u8 << bit;
        assert_eq!(check_file_content(&mutated, &fp), Outcome::ContentMismatch);
    }
}

#[test]
fn verify_wrong_length_is_size_mismatch() {
    let data = vec![7u8; 100];
    let short = String::from("0123456789");
    assert_eq!(check_file_content(&data, &short), Outcome::SizeMismatch);
    let empty = String::new();
    assert_eq!(check_file_content(&data, &empty), Outcome::SizeMismatch);
}

#[test]
fn verify_equal_length_mismatch_is_content_mismatch() {
    let data = vec![1u8; 10];
    let other = vec![2u8; 10];
    let (fp_other, _) = gen_xor_checking_data(&other);
    assert_eq!(fp_other.len(), 128);
    assert_eq!(check_file_content(&data, &fp_other), Outcome::ContentMismatch);
}

#[test]
fn do_xor_truncates_to_shorter_block() {
    let block1 = vec![0x01u8, 0x02, 0x03];
    let block2 = vec![0xFFu8, 0x0F];
    assert_eq!(do_xor(&block1, &block2), vec![0xFE, 0x0D]);
    assert_eq!(do_xor(&block2, &block1), vec![0xFE, 0x0D]);
}

#[test]
fn do_xor_equal_length_blocks() {
    let block1 = vec![0b1010_1010u8, 0x00, 0xFF];
    let block2 = vec![0b0101_0101u8, 0x23, 0xFF];
    assert_eq!(do_xor(&block1, &block2), vec![0xFF, 0x23, 0x00]);
}

#[test]
fn to_hex_string_exact_values() {
    assert_eq!(to_hex_string(&vec![0x00u8, 0x1A, 0xFF]), "001AFF");
    assert_eq!(to_hex_string(&vec![0x23u8]), "23");
    assert_eq!(
        to_hex_string(&vec![0x01u8, 0x89, 0xAB, 0xCD, 0xEF, 0x45, 0x67]),
        "0189ABCDEF4567"
    );
}

#[test]
fn to_hex_string_empty_block() {
    assert_eq!(to_hex_string(&vec![]), "");
}

#[test]
fn process_file_blocks_of_nothing_is_the_seed() {
    // With no blocks the accumulator stays the pad-byte seed.
    assert_eq!(process_file_blocks(vec![]), vec![0x23u8; 64]);
}

#[test]
fn process_file_blocks_seed_participates() {
    // Folding one block equal to the seed cancels it: the seed is ordinary
    // data in the fold, not a skipped identity.
    assert_eq!(process_file_blocks(vec![vec![0x23u8; 64]]), vec![0u8; 64]);
}

#[test]
fn process_file_blocks_folds_in_every_block() {
    let blocks = vec![vec![0x01u8; 64], vec![0x02u8; 64], vec![0x04u8; 64]];
    // 0x23 ^ 0x01 ^ 0x02 ^ 0x04 == 0x24
    assert_eq!(process_file_blocks(blocks), vec![0x24u8; 64]);
}

#[test]
fn split_empty_file_is_one_pad_block() {
    let blocks = split_into_blocks(&vec![]);
    assert_eq!(blocks, vec![vec![0x23u8; 64]]);
}

#[test]
fn split_exact_multiple_appends_no_pad_block() {
    let data = vec![9u8; 128];
    let blocks = split_into_blocks(&data);
    assert_eq!(blocks.len(), 2);
    assert_eq!(blocks[0], vec![9u8; 64]);
    assert_eq!(blocks[1], vec![9u8; 64]);
}

#[test]
fn split_partial_block_is_padded_on_the_right() {
    let mut data = vec![0u8; 64];
    data.push(0xFF);
    let blocks = split_into_blocks(&data);
    assert_eq!(blocks.len(), 2);
    assert_eq!(blocks[0], vec![0u8; 64]);
    let mut expected = vec![0xFFu8];
    expected.extend(vec![0x23u8; 63]);
    assert_eq!(blocks[1], expected);
}

#[test]
fn split_keeps_file_order() {
    let data: Vec<u8> = (0u8..130).collect();
    let blocks = split_into_blocks(&data);
    assert_eq!(blocks.len(), 3);
    assert_eq!(blocks[0], (0u8..64).collect::<Vec<u8>>());
    assert_eq!(blocks[1], (64u8..128).collect::<Vec<u8>>());
    let mut last = vec![128u8, 129];
    last.extend(vec![0x23u8; 62]);
    assert_eq!(blocks[2], last);
}
