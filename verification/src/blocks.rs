use vstd::prelude::*;
use vstd::slice::{slice_subrange, slice_to_vec};

verus! {

/// Cuts data into consecutive 16-byte blocks; only the last block may be
/// shorter, and empty data gives no block at all.
pub open spec fn blocks_of(data: Seq<u8>) -> Seq<Seq<u8>>
    decreases data.len(),
{
    if data.len() == 0 {
        Seq::empty()
    } else if data.len() <= 16 {
        seq![data]
    } else {
        seq![data.take(16)] + blocks_of(data.skip(16))
    }
}

/// The byte sequences held by a vector of byte vectors.
pub open spec fn block_views(v: Seq<Vec<u8>>) -> Seq<Seq<u8>> {
    v.map_values(|b: Vec<u8>| b@)
}

/// Every block has exactly 16 bytes.
pub open spec fn all_full_blocks(bs: Seq<Seq<u8>>) -> bool {
    forall|i: int| 0 <= i < bs.len() ==> (#[trigger] bs[i]).len() == 16
}

/// Splits data into 16-byte blocks, the last one possibly shorter.
pub fn split_into_blocks(data: &[u8]) -> (out: Vec<Vec<u8>>)
    ensures
        block_views(out@) == blocks_of(data@),
{
    let len: usize = data.len();
    let mut out: Vec<Vec<u8>> = Vec::new();
    let mut i: usize = 0;
    assert(data@.skip(0) =~= data@);
    while i < len
        invariant
            len == data@.len(),
            i <= len,
            blocks_of(data@) == block_views(out@) + blocks_of(data@.skip(i as int)),
        decreases len - i,
    {
        let ghost rest = data@.skip(i as int);
        let end: usize = if len - i <= 16 { len } else { i + 16 };
        let chunk: Vec<u8> = slice_to_vec(slice_subrange(data, i, end));
        proof {
            if len - i <= 16 {
                assert(chunk@ =~= rest);
                assert(data@.skip(end as int) =~= Seq::<u8>::empty());
                assert(blocks_of(data@.skip(end as int)) =~= Seq::<Seq<u8>>::empty());
            } else {
                assert(chunk@ =~= rest.take(16));
                assert(rest.skip(16) =~= data@.skip(end as int));
            }
        }
        let ghost before = out@;
        out.push(chunk);
        proof {
            assert(block_views(out@) =~= block_views(before).push(chunk@));
            assert(block_views(out@) + blocks_of(data@.skip(end as int))
                =~= block_views(before) + blocks_of(rest));
        }
        i = end;
    }
    assert(data@.skip(len as int) =~= Seq::<u8>::empty());
    assert(block_views(out@) + Seq::<Seq<u8>>::empty() =~= block_views(out@));
    out
}

/// Joins blocks back into one byte vector, in order.
pub fn concat_blocks(blocks: &Vec<Vec<u8>>) -> (out: Vec<u8>)
    ensures
        out@ == block_views(blocks@).flatten(),
{
    let ghost bs = block_views(blocks@);
    let mut out: Vec<u8> = Vec::new();
    let mut i: usize = 0;
    assert(bs.skip(0) =~= bs);
    while i < blocks.len()
        invariant
            bs == block_views(blocks@),
            i <= blocks@.len(),
            out@ + bs.skip(i as int).flatten() == bs.flatten(),
        decreases blocks@.len() - i,
    {
        let ghost before = out@;
        out.extend_from_slice(blocks[i].as_slice());
        proof {
            let s = bs.skip(i as int);
            assert(s.first() == blocks@[i as int]@);
            assert(s.drop_first() =~= bs.skip(i + 1));
            assert(out@ =~= before + s.first());
            assert(out@ + bs.skip(i + 1).flatten() =~= before + s.flatten());
        }
        i = i + 1;
    }
    assert(bs.skip(i as int) =~= Seq::<Seq<u8>>::empty());
    assert(out@ + Seq::<u8>::empty() =~= out@);
    out
}

/// Joining the blocks of some data gives that data back.
pub proof fn law_concat_split(data: Seq<u8>)
    ensures
        blocks_of(data).flatten() == data,
    decreases data.len(),
{
    if data.len() == 0 {
    } else if data.len() <= 16 {
        seq![data].lemma_flatten_one_element();
    } else {
        law_concat_split(data.skip(16));
        let bs = blocks_of(data);
        assert(bs.first() == data.take(16));
        assert(bs.drop_first() =~= blocks_of(data.skip(16)));
        assert(data.take(16) + data.skip(16) =~= data);
    }
}

/// Data whose length is a multiple of 16 is cut into full blocks only,
/// `len / 16` of them.
pub proof fn lemma_blocks_full(data: Seq<u8>)
    requires
        data.len() % 16 == 0,
    ensures
        all_full_blocks(blocks_of(data)),
        blocks_of(data).len() == data.len() / 16,
    decreases data.len(),
{
    if data.len() == 0 {
    } else if data.len() <= 16 {
    } else {
        lemma_blocks_full(data.skip(16));
        let bs = blocks_of(data);
        assert forall|i: int| 0 <= i < bs.len() implies (#[trigger] bs[i]).len() == 16 by {
            if i > 0 {
                assert(bs[i] == blocks_of(data.skip(16))[i - 1]);
            }
        }
    }
}

/// Full blocks laid end to end have 16 bytes per block.
pub proof fn lemma_flatten_full_len(bs: Seq<Seq<u8>>)
    requires
        all_full_blocks(bs),
    ensures
        bs.flatten().len() == 16 * bs.len(),
    decreases bs.len(),
{
    if bs.len() > 0 {
        lemma_flatten_full_len(bs.drop_first());
    }
}

/// Cutting full blocks laid end to end gives the same blocks back.
pub proof fn lemma_blocks_of_flatten(bs: Seq<Seq<u8>>)
    requires
        all_full_blocks(bs),
    ensures
        blocks_of(bs.flatten()) == bs,
    decreases bs.len(),
{
    if bs.len() == 0 {
        assert(blocks_of(bs.flatten()) =~= bs);
    } else {
        let rest = bs.drop_first();
        lemma_flatten_full_len(rest);
        lemma_blocks_of_flatten(rest);
        let f = bs.flatten();
        assert(f == bs[0] + rest.flatten());
        if bs.len() == 1 {
            assert(rest.flatten() =~= Seq::<u8>::empty());
            assert(f =~= bs[0]);
            assert(blocks_of(f) =~= bs);
        } else {
            assert(f.take(16) =~= bs[0]);
            assert(f.skip(16) =~= rest.flatten());
            assert(blocks_of(f) =~= bs);
        }
    }
}

} // verus!
