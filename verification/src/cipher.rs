use vstd::prelude::*;
use aes::cipher::{BlockDecrypt, BlockEncrypt, KeyInit};
use sha2::Digest;
use crate::padding::{pad, unpad, spec_pad, spec_unpad, law_unpad_pad};
use crate::blocks::{
    blocks_of, block_views, all_full_blocks, split_into_blocks, concat_blocks, law_concat_split,
    lemma_blocks_full, lemma_blocks_of_flatten,
};

verus! {

/// Size in bytes of an AES-256 key.
pub const KEY_SIZE: usize = 32;

/// The AES-256 encryption of one 16-byte block under a 32-byte key.
pub uninterp spec fn aes256_encrypt_block(key: Seq<u8>, block: Seq<u8>) -> Seq<u8>;

/// The AES-256 decryption of one 16-byte block under a 32-byte key.
pub uninterp spec fn aes256_decrypt_block(key: Seq<u8>, block: Seq<u8>) -> Seq<u8>;

/// The SHA-256 digest of a byte sequence.
pub uninterp spec fn sha256_digest(data: Seq<u8>) -> Seq<u8>;

/// Calls `aes::Aes256::new` on the key and `BlockEncrypt::encrypt_block` on
/// the block. Trusted: the result is the AES-256 encryption of the block
/// (named `aes256_encrypt_block`) and is again 16 bytes long. The key and
/// block lengths are required because `GenericArray::from_slice` and
/// `clone_from_slice` panic on any other length.
#[verifier::external_body]
fn aes_encrypt_block(key: &[u8], block: &[u8]) -> (out: Vec<u8>)
    requires
        key@.len() == 32,
        block@.len() == 16,
    ensures
        out@ == aes256_encrypt_block(key@, block@),
        out@.len() == 16,
{
    let cipher = aes::Aes256::new(aes::cipher::generic_array::GenericArray::from_slice(key));
    let mut b = aes::cipher::generic_array::GenericArray::clone_from_slice(block);
    cipher.encrypt_block(&mut b);
    b.to_vec()
}

/// Calls `aes::Aes256::new` on the key and `BlockDecrypt::decrypt_block` on
/// the block. Trusted: the result is the AES-256 decryption of the block
/// (named `aes256_decrypt_block`), 16 bytes long, and, AES-256 being a
/// permutation of 16-byte blocks for each key, it is the one 16-byte block
/// whose encryption under the same key is the given block.
#[verifier::external_body]
fn aes_decrypt_block(key: &[u8], block: &[u8]) -> (out: Vec<u8>)
    requires
        key@.len() == 32,
        block@.len() == 16,
    ensures
        out@ == aes256_decrypt_block(key@, block@),
        out@.len() == 16,
        forall|p: Seq<u8>|
            p.len() == 16 && #[trigger] aes256_encrypt_block(key@, p) == block@ ==> out@ == p,
{
    let cipher = aes::Aes256::new(aes::cipher::generic_array::GenericArray::from_slice(key));
    let mut b = aes::cipher::generic_array::GenericArray::clone_from_slice(block);
    cipher.decrypt_block(&mut b);
    b.to_vec()
}

/// Calls `sha2::Sha256::digest`. Trusted: the result is the SHA-256 digest
/// of the data (named `sha256_digest`), 32 bytes long.
#[verifier::external_body]
fn sha256(data: &[u8]) -> (out: Vec<u8>)
    ensures
        out@ == sha256_digest(data@),
        out@.len() == 32,
{
    sha2::Sha256::digest(data).to_vec()
}

/// Each block encrypted on its own under the key.
pub open spec fn encrypt_blocks(key: Seq<u8>, bs: Seq<Seq<u8>>) -> Seq<Seq<u8>> {
    bs.map_values(|b: Seq<u8>| aes256_encrypt_block(key, b))
}

/// Each block decrypted on its own under the key.
pub open spec fn decrypt_blocks(key: Seq<u8>, bs: Seq<Seq<u8>>) -> Seq<Seq<u8>> {
    bs.map_values(|b: Seq<u8>| aes256_decrypt_block(key, b))
}

/// The encrypted blocks of some data: padded, cut into 16-byte blocks,
/// every block encrypted on its own.
pub open spec fn spec_encrypt(data: Seq<u8>, key: Seq<u8>) -> Seq<Seq<u8>> {
    encrypt_blocks(key, blocks_of(spec_pad(data)))
}

/// The decryption of some bytes: cut into blocks, every block decrypted,
/// the results joined and the padding removed.
pub open spec fn spec_decrypt(data: Seq<u8>, key: Seq<u8>) -> Seq<u8> {
    spec_unpad(decrypt_blocks(key, blocks_of(data)).flatten())
}

/// `data` is what encrypting `plain` under `key` and joining the blocks gives.
pub open spec fn is_ciphertext_of(data: Seq<u8>, plain: Seq<u8>, key: Seq<u8>) -> bool {
    &&& all_full_blocks(spec_encrypt(plain, key))
    &&& spec_encrypt(plain, key).flatten() == data
}

/// Derives the 32-byte vault key from a password: its SHA-256 digest.
pub fn get_hash_from_pass(password: &[u8]) -> (key: Vec<u8>)
    ensures
        key@ == sha256_digest(password@),
        key@.len() == KEY_SIZE,
{
    sha256(password)
}

/// Pads the data, cuts it into 16-byte blocks and encrypts every block.
pub fn encrypt_thats_all(data: Vec<u8>, key: Vec<u8>) -> (out: Vec<Vec<u8>>)
    requires
        key@.len() == KEY_SIZE,
        data@.len() + 16 <= usize::MAX,
    ensures
        block_views(out@) == spec_encrypt(data@, key@),
        all_full_blocks(block_views(out@)),
        is_ciphertext_of(block_views(out@).flatten(), data@, key@),
{
    let binding: Vec<u8> = pad(data.as_slice());
    let newstr: Vec<Vec<u8>> = split_into_blocks(binding.as_slice());
    proof {
        lemma_blocks_full(binding@);
    }
    let ghost plain_blocks = block_views(newstr@);
    let mut nvec: Vec<Vec<u8>> = Vec::new();
    let mut i: usize = 0;
    while i < newstr.len()
        invariant
            key@.len() == KEY_SIZE,
            plain_blocks == block_views(newstr@),
            all_full_blocks(plain_blocks),
            i <= newstr@.len(),
            block_views(nvec@) == encrypt_blocks(key@, plain_blocks.take(i as int)),
            all_full_blocks(block_views(nvec@)),
        decreases newstr@.len() - i,
    {
        assert(plain_blocks[i as int] == newstr@[i as int]@);
        let c: Vec<u8> = aes_encrypt_block(key.as_slice(), newstr[i].as_slice());
        let ghost before = nvec@;
        nvec.push(c);
        i = i + 1;
        proof {
            assert(block_views(nvec@) =~= block_views(before).push(c@));
            assert(block_views(nvec@) =~= encrypt_blocks(key@, plain_blocks.take(i as int)));
        }
    }
    assert(plain_blocks.take(i as int) =~= plain_blocks);
    nvec
}

/// Cuts the data into 16-byte blocks, decrypts every block, joins the
/// results and removes the padding. Whatever `encrypt_thats_all` made of some
/// plaintext under this key comes back as that plaintext.
pub fn decrypt_thats_all(data: Vec<u8>, key: Vec<u8>) -> (out: Vec<u8>)
    requires
        key@.len() == KEY_SIZE,
        data@.len() % 16 == 0,
    ensures
        out@ == spec_decrypt(data@, key@),
        forall|p: Seq<u8>| #[trigger] is_ciphertext_of(data@, p, key@) ==> out@ == p,
{
    let mm: Vec<Vec<u8>> = split_into_blocks(data.as_slice());
    proof {
        lemma_blocks_full(data@);
    }
    let ghost cbs = block_views(mm@);
    let mut newvec: Vec<Vec<u8>> = Vec::new();
    let mut i: usize = 0;
    while i < mm.len()
        invariant
            key@.len() == KEY_SIZE,
            cbs == block_views(mm@),
            cbs == blocks_of(data@),
            all_full_blocks(cbs),
            i <= mm@.len(),
            block_views(newvec@) == decrypt_blocks(key@, cbs.take(i as int)),
            forall|j: int, q: Seq<u8>|
                #![trigger aes256_encrypt_block(key@, q), cbs[j]]
                0 <= j < i && q.len() == 16 && aes256_encrypt_block(key@, q) == cbs[j]
                    ==> block_views(newvec@)[j] == q,
        decreases mm@.len() - i,
    {
        assert(cbs[i as int] == mm@[i as int]@);
        let d: Vec<u8> = aes_decrypt_block(key.as_slice(), mm[i].as_slice());
        let ghost before = newvec@;
        newvec.push(d);
        i = i + 1;
        proof {
            assert(block_views(newvec@) =~= block_views(before).push(d@));
            assert(block_views(newvec@) =~= decrypt_blocks(key@, cbs.take(i as int)));
        }
    }
    assert(cbs.take(i as int) =~= cbs);
    let ghost dec = block_views(newvec@);
    let jj: Vec<u8> = concat_blocks(&newvec);
    let yy: Vec<u8> = unpad(jj);
    proof {
        assert forall|p: Seq<u8>| #[trigger] is_ciphertext_of(data@, p, key@) implies yy@ == p by {
            let bs = spec_encrypt(p, key@);
            let pb = blocks_of(spec_pad(p));
            lemma_blocks_of_flatten(bs);
            law_unpad_pad(p);
            lemma_blocks_full(spec_pad(p));
            law_concat_split(spec_pad(p));
            assert(cbs == bs);
            assert forall|j: int| 0 <= j < dec.len() implies dec[j] == pb[j] by {
                assert(bs[j] == aes256_encrypt_block(key@, pb[j]));
            }
            assert(dec =~= pb);
        }
    }
    yy
}

} // verus!
