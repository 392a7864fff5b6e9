//! Partitioning a file's bytes into fixed-size blocks and folding the blocks
//! together with byte-wise XOR.

use vstd::prelude::*;
use vstd::arithmetic::div_mod::lemma_fundamental_div_mod;
use vstd::arithmetic::div_mod::lemma_fundamental_div_mod_converse;

verus! {

/// Number of bytes in one block.
pub const BLOCK_SIZE: usize = 64;

/// Byte used to pad the final partial block and to seed the fold accumulator:
/// the ASCII character `#`.
pub const PAD_BYTE: u8 = 0x23;

/// Byte-wise XOR of two byte sequences, truncated to the shorter length.
pub open spec fn xor_bytes(a: Seq<u8>, b: Seq<u8>) -> Seq<u8> {
    Seq::new(if a.len() <= b.len() { a.len() } else { b.len() }, |i: int| a[i] ^ b[i])
}

/// The block the fold starts from: `BLOCK_SIZE` bytes of `PAD_BYTE`.
pub open spec fn pad_block() -> Seq<u8> {
    Seq::new(BLOCK_SIZE as nat, |i: int| PAD_BYTE)
}

/// Folding a sequence of blocks: start from `pad_block()` and XOR each block
/// in, in order, truncating to the shorter length at each step.
pub open spec fn fold_blocks(blocks: Seq<Seq<u8>>) -> Seq<u8>
    decreases blocks.len(),
{
    if blocks.len() == 0 {
        pad_block()
    } else {
        xor_bytes(fold_blocks(blocks.drop_last()), blocks.last())
    }
}

/// The XOR of column `j` across a sequence of blocks, seeded with `PAD_BYTE`.
pub open spec fn col_fold(blocks: Seq<Seq<u8>>, j: int) -> u8
    decreases blocks.len(),
{
    if blocks.len() == 0 {
        PAD_BYTE
    } else {
        col_fold(blocks.drop_last(), j) ^ blocks.last()[j]
    }
}

/// Every block of the sequence has exactly `BLOCK_SIZE` bytes.
pub open spec fn all_full_blocks(blocks: Seq<Seq<u8>>) -> bool {
    forall|k: int| 0 <= k < blocks.len() ==> (#[trigger] blocks[k]).len() == BLOCK_SIZE
}

/// When every block is full, the fold keeps length `BLOCK_SIZE` and each of
/// its bytes is the seeded XOR of the corresponding column.
pub proof fn lemma_fold_full_blocks(blocks: Seq<Seq<u8>>)
    requires
        all_full_blocks(blocks),
    ensures
        fold_blocks(blocks).len() == BLOCK_SIZE,
        forall|j: int| 0 <= j < BLOCK_SIZE ==> fold_blocks(blocks)[j] == col_fold(blocks, j),
    decreases blocks.len(),
{
    if blocks.len() == 0 {
        assert(forall|j: int| 0 <= j < BLOCK_SIZE ==> fold_blocks(blocks)[j] == PAD_BYTE);
    } else {
        assert(all_full_blocks(blocks.drop_last()));
        lemma_fold_full_blocks(blocks.drop_last());
        assert(blocks.last() == blocks[blocks.len() - 1]);
        assert(blocks.last().len() == BLOCK_SIZE);
        assert forall|j: int| 0 <= j < BLOCK_SIZE implies fold_blocks(blocks)[j] == col_fold(
            blocks,
            j,
        ) by {
            assert(fold_blocks(blocks) == xor_bytes(
                fold_blocks(blocks.drop_last()),
                blocks.last(),
            ));
            assert(fold_blocks(blocks)[j] == fold_blocks(blocks.drop_last())[j]
                ^ blocks.last()[j]);
            assert(fold_blocks(blocks.drop_last())[j] == col_fold(blocks.drop_last(), j));
            assert(col_fold(blocks, j) == col_fold(blocks.drop_last(), j) ^ blocks.last()[j]);
        }
    }
}

/// Column folds agree wherever the two block sequences agree on that column.
pub proof fn lemma_col_fold_congruence(bs1: Seq<Seq<u8>>, bs2: Seq<Seq<u8>>, j: int)
    requires
        bs1.len() == bs2.len(),
        forall|k: int| 0 <= k < bs1.len() ==> #[trigger] bs1[k][j] == bs2[k][j],
    ensures
        col_fold(bs1, j) == col_fold(bs2, j),
    decreases bs1.len(),
{
    if bs1.len() > 0 {
        lemma_col_fold_congruence(bs1.drop_last(), bs2.drop_last(), j);
        assert(bs1.last()[j] == bs2.last()[j]) by {
            assert(bs1[bs1.len() - 1][j] == bs2[bs1.len() - 1][j]);
        }
    }
}

/// Changing one block's byte in a column changes the column fold by exactly
/// the XOR of the old and new byte.
pub proof fn lemma_col_fold_one_change(bs1: Seq<Seq<u8>>, bs2: Seq<Seq<u8>>, k0: int, j: int)
    requires
        bs1.len() == bs2.len(),
        0 <= k0 < bs1.len(),
        forall|k: int| 0 <= k < bs1.len() && k != k0 ==> #[trigger] bs1[k][j] == bs2[k][j],
    ensures
        col_fold(bs2, j) == col_fold(bs1, j) ^ (bs1[k0][j] ^ bs2[k0][j]),
    decreases bs1.len(),
{
    let n = bs1.len() as int;
    let b1 = bs1[k0][j];
    let b2 = bs2[k0][j];
    if k0 == n - 1 {
        lemma_col_fold_congruence(bs1.drop_last(), bs2.drop_last(), j);
        let c = col_fold(bs1.drop_last(), j);
        assert(col_fold(bs1, j) == c ^ b1);
        assert(col_fold(bs2, j) == c ^ b2);
        assert(c ^ b2 == (c ^ b1) ^ (b1 ^ b2)) by (bit_vector);
    } else {
        lemma_col_fold_one_change(bs1.drop_last(), bs2.drop_last(), k0, j);
        let c1 = col_fold(bs1.drop_last(), j);
        let e = bs1[n - 1][j];
        assert(bs1[n - 1][j] == bs2[n - 1][j]);
        assert(bs1.drop_last()[k0][j] == b1 && bs2.drop_last()[k0][j] == b2);
        assert(col_fold(bs1, j) == c1 ^ e);
        assert(col_fold(bs2, j) == (c1 ^ (b1 ^ b2)) ^ e);
        assert((c1 ^ (b1 ^ b2)) ^ e == (c1 ^ e) ^ (b1 ^ b2)) by (bit_vector);
    }
}

/// How many blocks a file of `len` bytes yields: one block per full
/// `BLOCK_SIZE` chunk, one padded block for a trailing partial chunk, and a
/// single all-padding block for an empty file.
pub open spec fn block_count(len: nat) -> nat {
    if len == 0 {
        1
    } else if len % (BLOCK_SIZE as nat) == 0 {
        len / (BLOCK_SIZE as nat)
    } else {
        len / (BLOCK_SIZE as nat) + 1
    }
}

/// The file's bytes extended on the right with `PAD_BYTE` up to
/// `block_count(len) * BLOCK_SIZE` bytes.
pub open spec fn padded(data: Seq<u8>) -> Seq<u8> {
    Seq::new(
        block_count(data.len()) * (BLOCK_SIZE as nat),
        |i: int| if i < data.len() { data[i] } else { PAD_BYTE },
    )
}

/// The blocks a file's bytes are split into: consecutive `BLOCK_SIZE`-byte
/// chunks of the padded byte sequence, in file order.
pub open spec fn blocks_of(data: Seq<u8>) -> Seq<Seq<u8>> {
    Seq::new(
        block_count(data.len()),
        |k: int| padded(data).subrange((BLOCK_SIZE as int) * k, (BLOCK_SIZE as int) * (k + 1)),
    )
}

/// Bounds on the padded length: it covers the data, never adds more than one
/// block's worth of padding, and is at least one block.
pub proof fn lemma_block_count(len: nat)
    ensures
        block_count(len) >= 1,
        len <= block_count(len) * (BLOCK_SIZE as nat) <= len + BLOCK_SIZE,
        len > 0 && len % (BLOCK_SIZE as nat) == 0 ==> block_count(len) * (BLOCK_SIZE as nat)
            == len,
{
    lemma_fundamental_div_mod(len as int, BLOCK_SIZE as int);
    if len > 0 && len % (BLOCK_SIZE as nat) != 0 {
        assert(block_count(len) * (BLOCK_SIZE as nat) == (len / (BLOCK_SIZE as nat) + 1) * (
        BLOCK_SIZE as nat));
        assert((len / (BLOCK_SIZE as nat) + 1) * (BLOCK_SIZE as nat) == (len / (BLOCK_SIZE as nat))
            * (BLOCK_SIZE as nat) + (BLOCK_SIZE as nat)) by (nonlinear_arith);
    }
}

/// Every block the splitter yields has exactly `BLOCK_SIZE` bytes.
pub proof fn lemma_blocks_of_full(data: Seq<u8>)
    ensures
        all_full_blocks(blocks_of(data)),
        blocks_of(data).len() == block_count(data.len()),
{
    lemma_block_count(data.len());
    assert forall|k: int| 0 <= k < blocks_of(data).len() implies (#[trigger] blocks_of(data)[k]).len()
        == BLOCK_SIZE by {
        assert((BLOCK_SIZE as int) * (k + 1) <= (BLOCK_SIZE as int) * (block_count(data.len()) as int))
            by (nonlinear_arith)
            requires 0 <= k < block_count(data.len()),
        ;
        assert((BLOCK_SIZE as int) * k >= 0) by (nonlinear_arith)
            requires k >= 0,
        ;
    }
}

/// Split a file's bytes into blocks: bytes are accumulated in file order and
/// emitted as a block whenever `BLOCK_SIZE` of them have been gathered; a
/// trailing partial chunk (or an empty file) yields a final block padded on
/// the right with `PAD_BYTE`.
pub fn split_into_blocks(data: &Vec<u8>) -> (blocks: Vec<Vec<u8>>)
    ensures
        blocks@.map_values(|b: Vec<u8>| b@) == blocks_of(data@),
{
    let mut blocks: Vec<Vec<u8>> = Vec::new();
    let mut temp: Vec<u8> = Vec::new();
    let mut pos: usize = 0;
    while pos < data.len()
        invariant
            pos <= data@.len(),
            pos == (BLOCK_SIZE as int) * blocks@.len() + temp@.len(),
            temp@.len() < BLOCK_SIZE,
            temp@ == data@.subrange((BLOCK_SIZE as int) * blocks@.len(), pos as int),
            forall|k: int|
                0 <= k < blocks@.len() ==> (#[trigger] blocks@[k])@ == data@.subrange(
                    (BLOCK_SIZE as int) * k,
                    (BLOCK_SIZE as int) * (k + 1),
                ),
        decreases data@.len() - pos,
    {
        temp.push(data[pos]);
        pos += 1;
        proof {
            assert(temp@ =~= data@.subrange((BLOCK_SIZE as int) * blocks@.len(), pos as int));
        }
        if temp.len() >= BLOCK_SIZE {
            blocks.push(temp);
            temp = Vec::new();
            proof {
                assert(temp@ =~= data@.subrange((BLOCK_SIZE as int) * blocks@.len(), pos as int));
            }
        }
    }
    let ghost full: int = blocks@.len() as int;
    proof {
        lemma_block_count(data@.len());
        lemma_fundamental_div_mod_converse(
            data@.len() as int,
            BLOCK_SIZE as int,
            full,
            temp@.len() as int,
        );
    }
    if temp.len() > 0 || blocks.len() == 0 {
        while temp.len() < BLOCK_SIZE
            invariant
                (BLOCK_SIZE as int) * full + temp@.len() >= data@.len(),
                full == blocks@.len(),
                full + 1 == block_count(data@.len()),
                temp@.len() <= BLOCK_SIZE,
                temp@ =~= padded(data@).subrange(
                    (BLOCK_SIZE as int) * full,
                    (BLOCK_SIZE as int) * full + temp@.len(),
                ),
                forall|k: int|
                    0 <= k < blocks@.len() ==> (#[trigger] blocks@[k])@ == data@.subrange(
                        (BLOCK_SIZE as int) * k,
                        (BLOCK_SIZE as int) * (k + 1),
                    ),
            decreases BLOCK_SIZE - temp@.len(),
        {
            temp.push(PAD_BYTE);
            proof {
                assert(temp@ =~= padded(data@).subrange(
                    (BLOCK_SIZE as int) * full,
                    (BLOCK_SIZE as int) * full + temp@.len(),
                ));
            }
        }
        blocks.push(temp);
    }
    proof {
        lemma_block_count(data@.len());
        assert(blocks@.map_values(|b: Vec<u8>| b@) =~~= blocks_of(data@));
    }
    blocks
}

/// XOR two blocks byte by byte; the result has the length of the shorter block.
pub fn do_xor(block1: &Vec<u8>, block2: &Vec<u8>) -> (result: Vec<u8>)
    ensures
        result@ == xor_bytes(block1@, block2@),
{
    let size = if block1.len() < block2.len() { block1.len() } else { block2.len() };
    let mut result: Vec<u8> = Vec::new();
    let mut cnt: usize = 0;
    while cnt < size
        invariant
            cnt <= size,
            size == xor_bytes(block1@, block2@).len(),
            size <= block1@.len() && size <= block2@.len(),
            result@ == xor_bytes(block1@, block2@).take(cnt as int),
        decreases size - cnt,
    {
        result.push(block1[cnt] ^ block2[cnt]);
        cnt += 1;
        proof {
            assert(result@ =~= xor_bytes(block1@, block2@).take(cnt as int));
        }
    }
    proof {
        assert(result@ =~= xor_bytes(block1@, block2@));
    }
    result
}

/// Fold all blocks into one result block: the accumulator starts as a block
/// of `PAD_BYTE` and each block of the sequence is XORed in, in order.
pub fn process_file_blocks(blocks: Vec<Vec<u8>>) -> (result: Vec<u8>)
    ensures
        result@ == fold_blocks(blocks@.map_values(|b: Vec<u8>| b@)),
{
    let ghost model: Seq<Seq<u8>> = blocks@.map_values(|b: Vec<u8>| b@);
    let mut result: Vec<u8> = Vec::new();
    let mut cnt: usize = 0;
    while cnt < BLOCK_SIZE
        invariant
            cnt <= BLOCK_SIZE,
            result@ == pad_block().take(cnt as int),
        decreases BLOCK_SIZE - cnt,
    {
        result.push(PAD_BYTE);
        cnt += 1;
        proof {
            assert(result@ =~= pad_block().take(cnt as int));
        }
    }
    proof {
        assert(result@ =~= pad_block());
        assert(pad_block() == fold_blocks(model.take(0)));
    }
    let mut i: usize = 0;
    while i < blocks.len()
        invariant
            i <= blocks@.len(),
            model == blocks@.map_values(|b: Vec<u8>| b@),
            result@ == fold_blocks(model.take(i as int)),
        decreases blocks@.len() - i,
    {
        result = do_xor(&result, &blocks[i]);
        i += 1;
        proof {
            assert(model.take(i as int).drop_last() =~= model.take(i as int - 1));
            assert(model.take(i as int).last() == model[i as int - 1]);
        }
    }
    proof {
        assert(model.take(blocks@.len() as int) =~= model);
    }
    result
}

} // verus!
