use vstd::prelude::*;
use vstd::slice::{slice_subrange, slice_to_vec};
use crate::blocks::{block_views, concat_blocks, all_full_blocks, lemma_flatten_full_len};
use crate::cipher::{
    KEY_SIZE, encrypt_thats_all, decrypt_thats_all, spec_encrypt, spec_decrypt, is_ciphertext_of,
};

verus! {

/// The marker that opens every vault plaintext: the ASCII bytes of `TRUE`.
pub open spec fn marker() -> Seq<u8> {
    seq![84u8, 82u8, 85u8, 69u8]
}

/// Outcome of opening the vault file at start-up.
pub enum Unlock {
    /// There is no vault file yet: a new, empty vault is to be created.
    Created,
    /// The password is right; this is the serialised database.
    Opened(Vec<u8>),
    /// The file does not decrypt to a vault under this password.
    WrongPassword,
    /// The file cannot be a vault at all: its length is no multiple of 16
    /// or it decrypts to fewer than four bytes.
    Unreadable,
}

/// The plaintext of a vault, if the file can hold one: `None` when the file
/// length is no multiple of 16 or the decryption is shorter than the marker.
pub open spec fn spec_plaintext(file: Seq<u8>, key: Seq<u8>) -> Option<Seq<u8>> {
    if file.len() % 16 != 0 {
        None
    } else if spec_decrypt(file, key).len() < 4 {
        None
    } else {
        Some(spec_decrypt(file, key))
    }
}

fn marker_bytes() -> (m: Vec<u8>)
    ensures
        m@ == marker(),
{
    let mut m: Vec<u8> = Vec::new();
    m.push(84u8);
    m.push(82u8);
    m.push(85u8);
    m.push(69u8);
    assert(m@ =~= marker());
    m
}

/// A file that is the encryption of some plaintext has a length that is a
/// multiple of 16.
proof fn lemma_ciphertext_len(file: Seq<u8>, plain: Seq<u8>, key: Seq<u8>)
    requires
        is_ciphertext_of(file, plain, key),
    ensures
        file.len() % 16 == 0,
{
    lemma_flatten_full_len(spec_encrypt(plain, key));
}

/// Encrypts the serialised database, preceded by the marker, into the bytes
/// of the vault file.
pub fn seal_vault(body: &[u8], key: &[u8]) -> (file: Vec<u8>)
    requires
        key@.len() == KEY_SIZE,
        body@.len() + 20 <= usize::MAX,
    ensures
        file@ == spec_encrypt(marker() + body@, key@).flatten(),
        is_ciphertext_of(file@, marker() + body@, key@),
        file@.len() % 16 == 0,
{
    let mut data: Vec<u8> = marker_bytes();
    data.extend_from_slice(body);
    assert(data@ =~= marker() + body@);
    let blocks: Vec<Vec<u8>> = encrypt_thats_all(data, slice_to_vec(key));
    let file: Vec<u8> = concat_blocks(&blocks);
    proof {
        lemma_ciphertext_len(file@, marker() + body@, key@);
    }
    file
}

/// Whether a decrypted vault starts with the marker.
pub fn header_matches(plain: &[u8]) -> (ok: bool)
    requires
        plain@.len() >= 4,
    ensures
        ok == (plain@.take(4) == marker()),
{
    let ok: bool = plain[0] == 84u8 && plain[1] == 82u8 && plain[2] == 85u8 && plain[3] == 69u8;
    assert(ok ==> plain@.take(4) =~= marker());
    assert(plain@.take(4) == marker() ==> plain@.take(4)[0] == 84u8 && plain@.take(4)[1] == 82u8
        && plain@.take(4)[2] == 85u8 && plain@.take(4)[3] == 69u8);
    ok
}

/// Decrypts the vault file, when it can hold a vault at all.
fn plaintext(key: &[u8], file: &[u8]) -> (plain: Option<Vec<u8>>)
    requires
        key@.len() == KEY_SIZE,
    ensures
        plain matches Some(p) ==> spec_plaintext(file@, key@) == Some(p@),
        plain is None ==> spec_plaintext(file@, key@) is None,
        forall|body: Seq<u8>| #[trigger] is_ciphertext_of(file@, marker() + body, key@)
            ==> (plain matches Some(p) && p@ == marker() + body),
{
    if file.len() % 16 != 0 {
        proof {
            assert forall|body: Seq<u8>| #[trigger] is_ciphertext_of(file@, marker() + body, key@)
                implies false by {
                lemma_ciphertext_len(file@, marker() + body, key@);
            }
        }
        return None;
    }
    let dec: Vec<u8> = decrypt_thats_all(slice_to_vec(file), slice_to_vec(key));
    proof {
        assert forall|body: Seq<u8>| #[trigger] is_ciphertext_of(file@, marker() + body, key@)
            implies dec@ == marker() + body by {
            assert(is_ciphertext_of(file@, marker() + body, key@));
        }
    }
    if dec.len() < 4 {
        return None;
    }
    Some(dec)
}

/// Whether the password (as its key) opens the vault file: the decryption
/// starts with the marker. `None` where the file cannot hold a vault.
pub fn check_pass(key: &[u8], file: &[u8]) -> (ok: Option<bool>)
    requires
        key@.len() == KEY_SIZE,
    ensures
        ok == (match spec_plaintext(file@, key@) {
            Some(p) => Some(p.take(4) == marker()),
            None => None,
        }),
        forall|body: Seq<u8>| #[trigger] is_ciphertext_of(file@, marker() + body, key@)
            ==> ok == Some(true),
        file@.len() % 16 == 0 && spec_decrypt(file@, key@).len() >= 4
            ==> ok == Some(spec_decrypt(file@, key@).take(4) == marker()),
        ok is None ==> file@.len() % 16 != 0 || spec_decrypt(file@, key@).len() < 4,
{
    proof {
        law_plaintext_exact(file@, key@);
    }
    match plaintext(key, file) {
        Some(p) => {
            let ok: bool = header_matches(p.as_slice());
            proof {
                assert forall|body: Seq<u8>| #[trigger] is_ciphertext_of(file@, marker() + body, key@)
                    implies ok by {
                    assert((marker() + body).take(4) =~= marker());
                }
            }
            Some(ok)
        },
        None => None,
    }
}

/// The serialised database held by the vault file: the decryption without
/// its first four bytes. `None` where the file cannot hold a vault.
pub fn open_vault(key: &[u8], file: &[u8]) -> (body: Option<Vec<u8>>)
    requires
        key@.len() == KEY_SIZE,
    ensures
        body matches Some(b) ==> (spec_plaintext(file@, key@) matches Some(p) && b@ == p.skip(4)),
        body is None <==> spec_plaintext(file@, key@) is None,
        forall|b: Seq<u8>| #[trigger] is_ciphertext_of(file@, marker() + b, key@)
            ==> (body matches Some(v) && v@ == b),
{
    match plaintext(key, file) {
        Some(p) => {
            let rest: Vec<u8> = slice_to_vec(slice_subrange(p.as_slice(), 4, p.len()));
            proof {
                assert(rest@ =~= p@.skip(4));
                assert forall|b: Seq<u8>| #[trigger] is_ciphertext_of(file@, marker() + b, key@)
                    implies rest@ == b by {
                    assert((marker() + b).skip(4) =~= b);
                }
            }
            Some(rest)
        },
        None => None,
    }
}

/// What start-up does with the vault file: no file means a new vault; a
/// file that opens under the key gives its database; otherwise the password
/// is wrong, or the file cannot be a vault.
pub fn unlock(key: &[u8], existing: Option<Vec<u8>>) -> (u: Unlock)
    requires
        key@.len() == KEY_SIZE,
    ensures
        existing is None ==> u is Created,
        existing matches Some(f) ==> match spec_plaintext(f@, key@) {
            None => u is Unreadable,
            Some(p) => if p.take(4) == marker() {
                u matches Unlock::Opened(b) && b@ == p.skip(4)
            } else {
                u is WrongPassword
            },
        },
        existing matches Some(f) ==> forall|b: Seq<u8>| #[trigger] is_ciphertext_of(f@, marker() + b, key@)
            ==> (u matches Unlock::Opened(v) && v@ == b),
        existing matches Some(f) ==> (f@.len() % 16 == 0 && spec_decrypt(f@, key@).len() >= 4
            && spec_decrypt(f@, key@).take(4) != marker() ==> u is WrongPassword),
        existing matches Some(f) ==> (f@.len() % 16 == 0 && spec_decrypt(f@, key@).len() >= 4
            && spec_decrypt(f@, key@).take(4) == marker()
            ==> (u matches Unlock::Opened(v) && v@ == spec_decrypt(f@, key@).skip(4))),
        u is Unreadable ==> (existing matches Some(f) && (f@.len() % 16 != 0
            || spec_decrypt(f@, key@).len() < 4)),
{
    match existing {
        Some(ref f) => {
            proof {
                law_plaintext_exact(f@, key@);
            }
        },
        None => {},
    }
    match existing {
        None => Unlock::Created,
        Some(f) => match plaintext(key, f.as_slice()) {
            None => Unlock::Unreadable,
            Some(p) => {
                if header_matches(p.as_slice()) {
                    let rest: Vec<u8> = slice_to_vec(slice_subrange(p.as_slice(), 4, p.len()));
                    proof {
                        assert(rest@ =~= p@.skip(4));
                        assert forall|b: Seq<u8>| #[trigger] is_ciphertext_of(f@, marker() + b, key@)
                            implies rest@ == b by {
                            assert((marker() + b).skip(4) =~= b);
                        }
                    }
                    Unlock::Opened(rest)
                } else {
                    proof {
                        assert forall|b: Seq<u8>| #[trigger] is_ciphertext_of(f@, marker() + b, key@)
                            implies false by {
                            assert((marker() + b).take(4) =~= marker());
                        }
                    }
                    Unlock::WrongPassword
                }
            },
        },
    }
}

/// A file can hold a vault exactly when its length is a multiple of 16 and
/// its decryption under the key has at least the four bytes of the marker;
/// the plaintext is then that decryption, whatever its first bytes are.
pub proof fn law_plaintext_exact(file: Seq<u8>, key: Seq<u8>)
    ensures
        file.len() % 16 == 0 && spec_decrypt(file, key).len() >= 4
            ==> spec_plaintext(file, key) == Some(spec_decrypt(file, key)),
        file.len() % 16 != 0 || spec_decrypt(file, key).len() < 4 ==> spec_plaintext(file, key) is None,
{
}

} // verus!
