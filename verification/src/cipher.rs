//! AES-256 over whole blocks: the data is taken sixteen bytes at a time,
//! a last block that is not full is filled up with zero bytes, and every
//! block is enciphered or deciphered by itself.

use vstd::prelude::*;
use aes::cipher::generic_array::GenericArray;
use aes::cipher::{BlockDecrypt, BlockEncrypt, KeyInit};

verus! {

/// The length of a block in bytes.
pub const BLOCK: usize = 16;

/// The block that AES-256 enciphers `block` to under `key`, as the `aes`
/// crate computes it.
pub uninterp spec fn aes256_encrypted(key: Seq<u8>, block: Seq<u8>) -> Seq<u8>;

/// The block that AES-256 deciphers `block` to under `key`, as the `aes`
/// crate computes it.
pub uninterp spec fn aes256_decrypted(key: Seq<u8>, block: Seq<u8>) -> Seq<u8>;

/// `aes::Aes256::encrypt_block` with the cipher made by `Aes256::new` from
/// `key`: one block in, one block out. The result is a function of key and
/// block alone; nothing else is claimed of it.
#[verifier::external_body]
fn encrypt_block(key: &[u8; 32], block: &Vec<u8>) -> (out: Vec<u8>)
    requires
        block@.len() == BLOCK,
    ensures
        out@ == aes256_encrypted(key@, block@),
        out@.len() == BLOCK,
{
    let mut data = GenericArray::clone_from_slice(block);
    aes::Aes256::new(&GenericArray::from(*key)).encrypt_block(&mut data);
    data.to_vec()
}

/// `aes::Aes256::decrypt_block` with the cipher made by `Aes256::new` from
/// `key`: one block in, one block out. The result is a function of key and
/// block alone; nothing else is claimed of it.
#[verifier::external_body]
fn decrypt_block(key: &[u8; 32], block: &Vec<u8>) -> (out: Vec<u8>)
    requires
        block@.len() == BLOCK,
    ensures
        out@ == aes256_decrypted(key@, block@),
        out@.len() == BLOCK,
{
    let mut data = GenericArray::clone_from_slice(block);
    aes::Aes256::new(&GenericArray::from(*key)).decrypt_block(&mut data);
    data.to_vec()
}

/// How many blocks `len` bytes take.
pub open spec fn blocks(len: nat) -> nat {
    (len + 15) / 16
}

/// Block `b` of `data`: its sixteen bytes from `16 * b` on, with zeros
/// where the data has ended.
pub open spec fn block_at(data: Seq<u8>, b: nat) -> Seq<u8> {
    Seq::new(
        16,
        |k: int|
            if 16 * b + k < data.len() {
                data[16 * b + k]
            } else {
                0u8
            },
    )
}

/// The first `upto` blocks of `data`, each enciphered under `key`.
pub open spec fn encrypted_upto(data: Seq<u8>, key: Seq<u8>, upto: nat) -> Seq<u8>
    decreases upto,
{
    if upto == 0 {
        Seq::empty()
    } else {
        encrypted_upto(data, key, (upto - 1) as nat) + aes256_encrypted(
            key,
            block_at(data, (upto - 1) as nat),
        )
    }
}

/// The first `upto` blocks of `data`, each deciphered under `key`.
pub open spec fn decrypted_upto(data: Seq<u8>, key: Seq<u8>, upto: nat) -> Seq<u8>
    decreases upto,
{
    if upto == 0 {
        Seq::empty()
    } else {
        decrypted_upto(data, key, (upto - 1) as nat) + aes256_decrypted(
            key,
            block_at(data, (upto - 1) as nat),
        )
    }
}

/// `data` enciphered under `key`, block by block.
pub open spec fn encrypted(data: Seq<u8>, key: Seq<u8>) -> Seq<u8> {
    encrypted_upto(data, key, blocks(data.len()))
}

/// `data` deciphered under `key`, block by block.
pub open spec fn decrypted(data: Seq<u8>, key: Seq<u8>) -> Seq<u8> {
    decrypted_upto(data, key, blocks(data.len()))
}

/// Block `b` of `data`.
fn take_block(data: &[u8], b: usize) -> (block: Vec<u8>)
    requires
        b < blocks(data@.len()),
    ensures
        block@ == block_at(data@, b as nat),
{
    let mut block: Vec<u8> = Vec::new();
    let len = data.len();
    assert(16 * b < len) by {
        assert(b + 1 <= (len + 15) / 16);
    }
    let start = 16 * b;
    let mut k: usize = 0;
    while k < BLOCK
        invariant
            k <= BLOCK,
            start == 16 * b,
            len == data@.len(),
            start < len,
            block@.len() == k,
            forall|m: int| 0 <= m < k ==> block@[m] == block_at(data@, b as nat)[m],
        decreases BLOCK - k,
    {
        if k < len - start {
            block.push(data[start + k]);
        } else {
            block.push(0);
        }
        k += 1;
    }
    assert(block@ =~= block_at(data@, b as nat));
    block
}

/// How many blocks `data` takes.
fn count_blocks(data: &[u8]) -> (count: usize)
    ensures
        count == blocks(data@.len()),
{
    if data.len() % BLOCK == 0 {
        data.len() / BLOCK
    } else {
        data.len() / BLOCK + 1
    }
}

/// Appends the bytes of `more` to `out`.
fn extend(out: &mut Vec<u8>, more: &Vec<u8>)
    ensures
        final(out)@ == old(out)@ + more@,
{
    let mut k: usize = 0;
    while k < more.len()
        invariant
            k <= more.len(),
            out@ == old(out)@ + more@.take(k as int),
        decreases more.len() - k,
    {
        out.push(more[k]);
        k += 1;
        assert(out@ =~= old(out)@ + more@.take(k as int));
    }
    assert(more@.take(k as int) =~= more@);
}

/// Enciphers `data` under `key`.
pub fn encrypt(data: &[u8], key: &[u8; 32]) -> (out: Vec<u8>)
    ensures
        out@ == encrypted(data@, key@),
        out@.len() == 16 * blocks(data@.len()),
{
    let count = count_blocks(data);
    let mut out: Vec<u8> = Vec::new();
    let mut b: usize = 0;
    while b < count
        invariant
            b <= count,
            count == blocks(data@.len()),
            out@ == encrypted_upto(data@, key@, b as nat),
            out@.len() == 16 * b,
        decreases count - b,
    {
        let block = take_block(data, b);
        let done = encrypt_block(key, &block);
        extend(&mut out, &done);
        b += 1;
    }
    out
}

/// Deciphers `data` under `key`.
pub fn decrypt(data: &[u8], key: &[u8; 32]) -> (out: Vec<u8>)
    ensures
        out@ == decrypted(data@, key@),
        out@.len() == 16 * blocks(data@.len()),
{
    let count = count_blocks(data);
    let mut out: Vec<u8> = Vec::new();
    let mut b: usize = 0;
    while b < count
        invariant
            b <= count,
            count == blocks(data@.len()),
            out@ == decrypted_upto(data@, key@, b as nat),
            out@.len() == 16 * b,
        decreases count - b,
    {
        let block = take_block(data, b);
        let done = decrypt_block(key, &block);
        extend(&mut out, &done);
        b += 1;
    }
    out
}

} // verus!
