use passcrypto::blocks::{concat_blocks, split_into_blocks};
use passcrypto::cipher::{decrypt_thats_all, encrypt_thats_all, get_hash_from_pass};
use passcrypto::padding::{pad, padding_is_valid, unpad};

fn hex(bytes: &[u8]) -> String {
    bytes.iter().map(|b| format!("{:02x}", b)).collect()
}

fn fips_key() -> Vec<u8> {
    (0u8..32).collect()
}

#[test]
fn pad_adds_pkcs7_bytes() {
    assert_eq!(pad(b"abc"), {
        let mut v = b"abc".to_vec();
        v.extend(vec![13u8; 13]);
        v
    });
}

#[test]
fn pad_full_block_adds_a_whole_block() {
    let data = vec![7u8; 16];
    let padded = pad(&data);
    assert_eq!(padded.len(), 32);
    assert_eq!(&padded[16..], &[16u8; 16][..]);
}

#[test]
fn pad_empty_gives_one_block() {
    assert_eq!(pad(&[]), vec![16u8; 16]);
}

#[test]
fn unpad_removes_padding() {
    assert_eq!(unpad(pad(b"hello vault")), b"hello vault".to_vec());
}

#[test]
fn unpad_leaves_invalid_padding() {
    let data = vec![1u8, 2, 3, 0];
    assert_eq!(unpad(data.clone()), data);
    let bad = vec![9u8, 9, 3, 3, 2];
    assert!(!padding_is_valid(&bad));
    assert_eq!(unpad(bad.clone()), bad);
    let too_long = vec![5u8, 5, 5];
    assert_eq!(unpad(too_long.clone()), too_long);
    assert_eq!(unpad(vec![]), Vec::<u8>::new());
}

#[test]
fn split_cuts_sixteen_byte_blocks() {
    let data: Vec<u8> = (0u8..40).collect();
    let blocks = split_into_blocks(&data);
    assert_eq!(blocks.len(), 3);
    assert_eq!(blocks[0], (0u8..16).collect::<Vec<u8>>());
    assert_eq!(blocks[1], (16u8..32).collect::<Vec<u8>>());
    assert_eq!(blocks[2], (32u8..40).collect::<Vec<u8>>());
    assert_eq!(concat_blocks(&blocks), data);
}

#[test]
fn split_empty_gives_no_block() {
    assert!(split_into_blocks(&[]).is_empty());
    assert!(concat_blocks(&Vec::new()).is_empty());
}

#[test]
fn key_is_sha256_of_password() {
    assert_eq!(
        hex(&get_hash_from_pass(b"abc")),
        "ba7816bf8f01cfea414140de5dae2223b00361a396177a9cb410ff61f20015ad"
    );
}

#[test]
fn first_block_is_aes256_of_the_plaintext() {
    let plain: Vec<u8> = vec![
        0x00, 0x11, 0x22, 0x33, 0x44, 0x55, 0x66, 0x77, 0x88, 0x99, 0xaa, 0xbb, 0xcc, 0xdd, 0xee, 0xff,
    ];
    let blocks = encrypt_thats_all(plain.clone(), fips_key());
    assert_eq!(blocks.len(), 2);
    assert_eq!(hex(&blocks[0]), "8ea2b7ca516745bfeafc49904b496089");
    assert_ne!(blocks[0], plain);
}

#[test]
fn decrypt_inverts_encrypt() {
    let key = get_hash_from_pass(b"secret");
    for len in [0usize, 1, 15, 16, 17, 33, 100] {
        let data: Vec<u8> = (0..len).map(|i| (i * 7 + 3) as u8).collect();
        let blocks = encrypt_thats_all(data.clone(), key.clone());
        assert_eq!(blocks.len(), len / 16 + 1);
        assert!(blocks.iter().all(|b| b.len() == 16));
        let file = concat_blocks(&blocks);
        assert_eq!(decrypt_thats_all(file, key.clone()), data);
    }
}

#[test]
fn decrypt_with_other_key_differs() {
    let data = b"the database text".to_vec();
    let file = concat_blocks(&encrypt_thats_all(data.clone(), get_hash_from_pass(b"one")));
    assert_ne!(decrypt_thats_all(file, get_hash_from_pass(b"two")), data);
}
