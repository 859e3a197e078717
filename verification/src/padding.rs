use vstd::prelude::*;

verus! {

/// Size in bytes of one cipher block.
pub const BLOCK_SIZE: usize = 16;

/// Number of padding bytes appended to data of length `len`: between 1 and 16.
pub open spec fn pad_count(len: nat) -> nat {
    (16 - len % 16) as nat
}

/// PKCS#7 padding: `n` copies of the byte `n`, where `n = pad_count(len)`.
pub open spec fn spec_pad(data: Seq<u8>) -> Seq<u8> {
    data + Seq::new(pad_count(data.len()), |i: int| pad_count(data.len()) as u8)
}

/// The data ends in a well-formed padding: its last byte `n` lies in
/// `1..=16`, is at most the length, and the last `n` bytes all equal `n`.
pub open spec fn has_valid_padding(data: Seq<u8>) -> bool {
    &&& data.len() > 0
    &&& 1 <= data.last() <= 16
    &&& data.last() <= data.len()
    &&& forall|i: int| data.len() - data.last() <= i < data.len() ==> #[trigger] data[i] == data.last()
}

/// Removes a well-formed padding; data without one is left as it is.
pub open spec fn spec_unpad(data: Seq<u8>) -> Seq<u8> {
    if has_valid_padding(data) {
        data.take(data.len() - data.last())
    } else {
        data
    }
}

/// Appends the PKCS#7 padding for 16-byte blocks.
pub fn pad(data: &[u8]) -> (out: Vec<u8>)
    requires
        data@.len() + BLOCK_SIZE <= usize::MAX,
    ensures
        out@ == spec_pad(data@),
        out@.len() % 16 == 0,
        out@.len() > data@.len(),
{
    let n: usize = BLOCK_SIZE - data.len() % BLOCK_SIZE;
    let mut out: Vec<u8> = Vec::with_capacity(data.len() + n);
    let mut i: usize = 0;
    while i < data.len()
        invariant
            i <= data@.len(),
            out@ == data@.take(i as int),
        decreases data@.len() - i,
    {
        out.push(data[i]);
        i = i + 1;
        assert(out@ =~= data@.take(i as int));
    }
    assert(data@.take(data@.len() as int) =~= data@);
    let ghost padding = Seq::new(pad_count(data@.len()), |k: int| pad_count(data@.len()) as u8);
    let mut j: usize = 0;
    while j < n
        invariant
            n == pad_count(data@.len()),
            1 <= n <= 16,
            j <= n,
            padding == Seq::new(pad_count(data@.len()), |k: int| pad_count(data@.len()) as u8),
            out@ == data@ + padding.take(j as int),
        decreases n - j,
    {
        out.push(n as u8);
        j = j + 1;
        assert(out@ =~= data@ + padding.take(j as int));
    }
    assert(padding.take(n as int) =~= padding);
    out
}

/// Checks whether `data` ends in a well-formed padding.
pub fn padding_is_valid(data: &[u8]) -> (ok: bool)
    ensures
        ok == has_valid_padding(data@),
{
    let len: usize = data.len();
    if len == 0 {
        return false;
    }
    let last: u8 = data[len - 1];
    if last < 1 || last > 16 || last as usize > len {
        return false;
    }
    let start: usize = len - last as usize;
    let mut i: usize = start;
    while i < len
        invariant
            len == data@.len(),
            last == data@.last(),
            start == len - last,
            start <= i <= len,
            forall|k: int| start <= k < i ==> #[trigger] data@[k] == last,
        decreases len - i,
    {
        if data[i] != last {
            return false;
        }
        i = i + 1;
    }
    true
}

/// Strips a well-formed padding; data without one is returned unchanged.
pub fn unpad(data: Vec<u8>) -> (out: Vec<u8>)
    ensures
        out@ == spec_unpad(data@),
{
    if padding_is_valid(data.as_slice()) {
        let mut out: Vec<u8> = data;
        let keep: usize = out.len() - out[out.len() - 1] as usize;
        out.truncate(keep);
        out
    } else {
        data
    }
}

/// Removing the padding gives back exactly the data that was padded.
pub proof fn law_unpad_pad(data: Seq<u8>)
    ensures
        spec_unpad(spec_pad(data)) == data,
        spec_pad(data).len() % 16 == 0,
        spec_pad(data).len() == data.len() + pad_count(data.len()),
{
    let p = spec_pad(data);
    let n = pad_count(data.len());
    assert(p.last() == n as u8);
    assert(has_valid_padding(p));
    assert(p.take(p.len() - p.last()) =~= data);
}

} // verus!
