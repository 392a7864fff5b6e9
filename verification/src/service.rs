//! The fingerprint service: generating a file's fingerprint from its bytes
//! and checking the bytes against a previously generated fingerprint.

use vstd::prelude::*;
use vstd::arithmetic::div_mod::lemma_fundamental_div_mod;
use vstd::string::StrSliceExecFns;
use vstd::string::StringExecFns;
use crate::blocks::BLOCK_SIZE;
use crate::blocks::blocks_of;
use crate::blocks::col_fold;
use crate::blocks::fold_blocks;
use crate::blocks::lemma_block_count;
use crate::blocks::lemma_blocks_of_full;
use crate::blocks::lemma_col_fold_one_change;
use crate::blocks::lemma_fold_full_blocks;
use crate::blocks::padded;
use crate::blocks::process_file_blocks;
use crate::blocks::split_into_blocks;
use crate::hex::hex_of;
use crate::hex::lemma_hex_of_injective;
use crate::hex::to_hex_string;

verus! {

/// The result of one generate or verify run.
#[derive(Clone, Copy, Debug, PartialEq, Eq, Structural)]
pub enum Outcome {
    /// The operation completed and, for a verify run, the fingerprints match.
    Success,
    /// The file could not be opened or read.
    LoadError,
    /// The folded block or the supplied fingerprint has the wrong length.
    SizeMismatch,
    /// The fingerprints have equal length but differ.
    ContentMismatch,
}

/// The fingerprint of a file's bytes: the blocks of the file, folded together
/// by byte-wise XOR from the pad-byte seed, rendered as uppercase hex.
pub open spec fn fingerprint_of(data: Seq<u8>) -> Seq<char> {
    hex_of(fold_blocks(blocks_of(data)))
}

/// The outcome of verifying a file's bytes against a supplied fingerprint:
/// a length mismatch is a size mismatch, unequal fingerprints of equal length
/// are a content mismatch, and equal fingerprints succeed.
pub open spec fn verify_outcome_of(data: Seq<u8>, expected: Seq<char>) -> Outcome {
    if expected.len() != fingerprint_of(data).len() {
        Outcome::SizeMismatch
    } else if expected == fingerprint_of(data) {
        Outcome::Success
    } else {
        Outcome::ContentMismatch
    }
}

/// A fingerprint always has two hex characters per block byte.
pub proof fn lemma_fingerprint_len(data: Seq<u8>)
    ensures
        fingerprint_of(data).len() == 2 * BLOCK_SIZE,
{
    lemma_blocks_of_full(data);
    lemma_fold_full_blocks(blocks_of(data));
}

/// Generate the checking data for a file's bytes: split the bytes into
/// blocks, fold the blocks, and encode the folded block as hex. The string of
/// the pair is the fingerprint; the outcome reports the defensive check that
/// the folded block kept its full length, which is proved never to fail.
pub fn gen_xor_checking_data(data: &Vec<u8>) -> (r: (String, Outcome))
    ensures
        r.1 == Outcome::Success,
        r.0@ == fingerprint_of(data@),
{
    let blocks = split_into_blocks(data);
    let result = process_file_blocks(blocks);
    proof {
        lemma_blocks_of_full(data@);
        lemma_fold_full_blocks(blocks_of(data@));
    }
    if result.len() != BLOCK_SIZE {
        return (String::from_str("incorrect result block size"), Outcome::SizeMismatch);
    }
    (to_hex_string(&result), Outcome::Success)
}

/// Check a file's bytes against previously generated checking data: generate
/// the fingerprint afresh and compare it with the supplied string, length
/// first, then content.
pub fn check_file_content(data: &Vec<u8>, checking_data: &String) -> (r: Outcome)
    ensures
        r == verify_outcome_of(data@, checking_data@),
{
    let (data_msg, res) = gen_xor_checking_data(data);
    if res != Outcome::Success {
        return res;
    }
    if data_msg.as_str().unicode_len() == checking_data.as_str().unicode_len() {
        if data_msg.eq(checking_data) {
            Outcome::Success
        } else {
            Outcome::ContentMismatch
        }
    } else {
        Outcome::SizeMismatch
    }
}

/// Verifying a file against the fingerprint just generated from the very same
/// bytes always succeeds.
pub proof fn lemma_verify_regenerated(data: Seq<u8>)
    ensures
        verify_outcome_of(data, fingerprint_of(data)) == Outcome::Success,
{
}

/// Changing a single byte of a file — in particular, flipping a single bit —
/// always changes its fingerprint, so verifying the changed bytes against the
/// original fingerprint reports a content mismatch. (Changes that touch
/// several bytes can cancel across block folds; a change confined to one byte
/// never does.)
pub proof fn lemma_mutation_detected(original: Seq<u8>, mutated: Seq<u8>, p: int)
    requires
        original.len() == mutated.len(),
        0 <= p < original.len(),
        mutated[p] != original[p],
        forall|i: int| 0 <= i < original.len() && i != p ==> mutated[i] == original[i],
    ensures
        verify_outcome_of(mutated, fingerprint_of(original)) == Outcome::ContentMismatch,
{
    let bs1 = blocks_of(original);
    let bs2 = blocks_of(mutated);
    lemma_blocks_of_full(original);
    lemma_blocks_of_full(mutated);
    lemma_fold_full_blocks(bs1);
    lemma_fold_full_blocks(bs2);
    lemma_block_count(original.len());
    lemma_fundamental_div_mod(p, BLOCK_SIZE as int);
    let k0 = p / (BLOCK_SIZE as int);
    let j0 = p % (BLOCK_SIZE as int);
    assert(0 <= j0 < BLOCK_SIZE);
    assert(p == (BLOCK_SIZE as int) * k0 + j0);
    assert(0 <= k0 < bs1.len());
    assert forall|i: int| 0 <= i < padded(original).len() && i != p implies padded(original)[i]
        == padded(mutated)[i] by {}
    assert(bs1[k0][j0] == padded(original)[(BLOCK_SIZE as int) * k0 + j0]);
    assert(bs2[k0][j0] == padded(mutated)[(BLOCK_SIZE as int) * k0 + j0]);
    assert(bs1[k0][j0] != bs2[k0][j0]);
    assert forall|k: int| 0 <= k < bs1.len() && k != k0 implies #[trigger] bs1[k][j0]
        == bs2[k][j0] by {
        assert(bs1[k][j0] == padded(original)[(BLOCK_SIZE as int) * k + j0]);
        assert(bs2[k][j0] == padded(mutated)[(BLOCK_SIZE as int) * k + j0]);
        assert((BLOCK_SIZE as int) * k + j0 != p);
    }
    lemma_col_fold_one_change(bs1, bs2, k0, j0);
    let b1 = bs1[k0][j0];
    let b2 = bs2[k0][j0];
    let c1 = col_fold(bs1, j0);
    assert(c1 ^ (b1 ^ b2) != c1) by (bit_vector)
        requires
            b1 != b2,
    ;
    assert(fold_blocks(bs1)[j0] != fold_blocks(bs2)[j0]);
    assert(fold_blocks(bs1) != fold_blocks(bs2));
    lemma_hex_of_injective(fold_blocks(bs1), fold_blocks(bs2));
    lemma_fingerprint_len(original);
    lemma_fingerprint_len(mutated);
}

} // verus!
