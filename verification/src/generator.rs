use vstd::prelude::*;
use vstd::string::*;
use rand::RngCore;

verus! {

/// The characters generated passwords are made of: letters and digits.
pub open spec fn alphabet() -> Seq<char> {
    seq!['a', 'b', 'c', 'd', 'e', 'f', 'g', 'h', 'i', 'j', 'k', 'l', 'm', 'n', 'o', 'p', 'q', 'r', 's', 't', 'u', 'v', 'w', 'x', 'y', 'z', 'A', 'B', 'C', 'D', 'E', 'F', 'G', 'H', 'I', 'J', 'K', 'L', 'M', 'N', 'O', 'P', 'Q', 'R', 'S', 'T', 'U', 'V', 'W', 'X', 'Y', 'Z', '0', '1', '2', '3', '4', '5', '6', '7', '8', '9']
}

/// Calls `rand::RngCore::fill_bytes` on `rand::thread_rng()`. Trusted only
/// for the length: `n` bytes come back; their values are random, so nothing
/// is stated of them.
#[verifier::external_body]
fn random_bytes(n: usize) -> (bytes: Vec<u8>)
    ensures
        bytes@.len() == n,
{
    let mut bytes = vec![0u8; n];
    rand::thread_rng().fill_bytes(&mut bytes);
    bytes
}

fn alphabet_str() -> (a: &'static str)
    ensures
        a@ == alphabet(),
{
    let a: &'static str = "abcdefghijklmnopqrstuvwxyzABCDEFGHIJKLMNOPQRSTUVWXYZ0123456789";
    proof {
        reveal_strlit("abcdefghijklmnopqrstuvwxyzABCDEFGHIJKLMNOPQRSTUVWXYZ0123456789");
    }
    assert(a@ =~= alphabet());
    a
}

/// The password that the bytes pick: the `i`-th character is the letter or
/// digit at the `i`-th byte modulo 62.
pub fn password_from_bytes(bytes: &[u8]) -> (pw: String)
    ensures
        pw@.len() == bytes@.len(),
        forall|i: int| 0 <= i < bytes@.len() ==> pw@[i] == alphabet()[bytes@[i] as int % 62],
{
    let alpha: &'static str = alphabet_str();
    let mut pw: String = String::new();
    let mut i: usize = 0;
    while i < bytes.len()
        invariant
            alpha@ == alphabet(),
            i <= bytes@.len(),
            pw@.len() == i,
            forall|j: int| 0 <= j < i ==> pw@[j] == alphabet()[bytes@[j] as int % 62],
        decreases bytes@.len() - i,
    {
        let k: usize = (bytes[i] % 62) as usize;
        let piece: &str = alpha.substring_char(k, k + 1);
        let ghost before = pw@;
        pw = pw.concat(piece);
        assert(pw@ =~= before + alphabet().subrange(k as int, k + 1));
        i = i + 1;
    }
    pw
}

/// A fresh random password of `len` letters and digits (`generate_password`).
pub fn generate_password(len: usize) -> (pw: String)
    ensures
        pw@.len() == len,
        forall|i: int| 0 <= i < len ==> alphabet().contains(#[trigger] pw@[i]),
{
    let bytes: Vec<u8> = random_bytes(len);
    let pw: String = password_from_bytes(bytes.as_slice());
    assert forall|i: int| 0 <= i < len implies alphabet().contains(#[trigger] pw@[i]) by {
        let k: int = bytes@[i] as int % 62;
        assert(alphabet()[k] == pw@[i]);
    }
    pw
}

} // verus!
