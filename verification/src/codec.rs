//! The fixed, deterministic byte encoding of a whole chain, and its decoder.
//! Persistence and the wire hand a chain around as these bytes; the decoder
//! recovers exactly the chain that was encoded, which the round-trip lemma
//! at the end states and proves.

use vstd::prelude::*;
use vstd::bytes::{
    spec_u64_to_le_bytes, spec_u64_from_le_bytes, lemma_auto_spec_u64_to_from_le_bytes,
    u64_from_le_bytes,
};
use vstd::utf8::{
    encode_utf8, decode_utf8, valid_utf8, encode_utf8_valid_utf8, encode_utf8_decode_utf8,
};
use vstd::slice::{slice_subrange, slice_to_vec};
use crate::models::{
    Block, Blockchain, BlockView, EntryView, JournalError, block_payload, str_field, views_of,
    push_bytes, push_u64_le, push_str_field, block_payload_bytes,
};

verus! {

/// The encoding of one block: the bytes its digest is computed over,
/// followed by the stored hash as one more string field.
pub open spec fn block_bytes(b: BlockView) -> Seq<u8> {
    block_payload(b.index, b.timestamp, b.entry, b.previous_hash) + str_field(b.hash)
}

/// The encodings of a sequence of blocks, in order.
pub open spec fn blocks_bytes(c: Seq<BlockView>) -> Seq<u8>
    decreases c.len(),
{
    if c.len() == 0 {
        Seq::empty()
    } else {
        block_bytes(c[0]) + blocks_bytes(c.drop_first())
    }
}

/// The encoding of a whole chain: the block count as eight little-endian
/// bytes, then each block's encoding in order.
pub open spec fn chain_bytes(c: Seq<BlockView>) -> Seq<u8> {
    spec_u64_to_le_bytes(c.len() as u64) + blocks_bytes(c)
}

/// A string whose UTF-8 length fits the encoding's length prefix. Every
/// string held in memory satisfies this; it only rules out mathematical
/// sequences too large for any machine.
pub open spec fn str_encodable(s: Seq<char>) -> bool {
    encode_utf8(s).len() <= u64::MAX
}

/// A block all of whose string fields fit the encoding's length prefixes.
pub open spec fn block_encodable(b: BlockView) -> bool {
    &&& str_encodable(b.entry.location)
    &&& str_encodable(b.entry.content)
    &&& str_encodable(b.previous_hash)
    &&& str_encodable(b.hash)
}

/// A chain whose length and string fields fit the encoding's prefixes.
pub open spec fn chain_encodable(c: Seq<BlockView>) -> bool {
    c.len() <= u64::MAX && forall|i: int| 0 <= i < c.len() ==> #[trigger] block_encodable(c[i])
}

/// Reads eight little-endian bytes from the front, if there are eight.
pub open spec fn take_u64(b: Seq<u8>) -> Option<(u64, Seq<u8>)> {
    if b.len() >= 8 {
        Some((spec_u64_from_le_bytes(b.subrange(0, 8)), b.subrange(8, b.len() as int)))
    } else {
        None
    }
}

/// Reads one length-prefixed string field from the front: the prefix, then
/// that many bytes, which must be valid UTF-8.
pub open spec fn take_str(b: Seq<u8>) -> Option<(Seq<char>, Seq<u8>)> {
    match take_u64(b) {
        None => None,
        Some((n, rest)) => if n <= rest.len() && valid_utf8(rest.subrange(0, n as int)) {
            Some(
                (
                    decode_utf8(rest.subrange(0, n as int)),
                    rest.subrange(n as int, rest.len() as int),
                ),
            )
        } else {
            None
        },
    }
}

/// Reads one block from the front: index, block timestamp, entry timestamp,
/// location, content, previous hash, stored hash — the fixed field order of
/// the encoding.
pub open spec fn take_block(b: Seq<u8>) -> Option<(BlockView, Seq<u8>)> {
    match take_u64(b) {
        None => None,
        Some((index, b1)) => match take_u64(b1) {
            None => None,
            Some((ts, b2)) => match take_u64(b2) {
                None => None,
                Some((ets, b3)) => match take_str(b3) {
                    None => None,
                    Some((location, b4)) => match take_str(b4) {
                        None => None,
                        Some((content, b5)) => match take_str(b5) {
                            None => None,
                            Some((previous_hash, b6)) => match take_str(b6) {
                                None => None,
                                Some((hash, b7)) => Some(
                                    (
                                        (BlockView {
                                            index,
                                            timestamp: ts as i64,
                                            entry: EntryView {
                                                timestamp: ets as i64,
                                                location,
                                                content,
                                            },
                                            previous_hash,
                                            hash,
                                        }),
                                        b7,
                                    ),
                                ),
                            },
                        },
                    },
                },
            },
        },
    }
}

/// Reads `n` blocks from the front.
pub open spec fn take_blocks(b: Seq<u8>, n: nat) -> Option<(Seq<BlockView>, Seq<u8>)>
    decreases n,
{
    if n == 0 {
        Some((Seq::empty(), b))
    } else {
        match take_block(b) {
            None => None,
            Some((blk, rest)) => match take_blocks(rest, (n - 1) as nat) {
                None => None,
                Some((blks, rest2)) => Some((seq![blk] + blks, rest2)),
            },
        }
    }
}

/// What a byte sequence decodes to: the block count, then exactly that many
/// blocks, with nothing left over.
pub open spec fn spec_decode_chain(b: Seq<u8>) -> Option<Seq<BlockView>> {
    match take_u64(b) {
        None => None,
        Some((n, rest)) => match take_blocks(rest, n as nat) {
            None => None,
            Some((blks, rest2)) => if rest2.len() == 0 {
                Some(blks)
            } else {
                None
            },
        },
    }
}

/// Reading eight bytes undoes writing them.
pub proof fn lemma_take_u64(x: u64, rest: Seq<u8>)
    ensures
        take_u64(spec_u64_to_le_bytes(x) + rest) == Some((x, rest)),
{
    lemma_auto_spec_u64_to_from_le_bytes();
    let b = spec_u64_to_le_bytes(x) + rest;
    assert(b.subrange(0, 8) =~= spec_u64_to_le_bytes(x));
    assert(b.subrange(8, b.len() as int) =~= rest);
}

/// Reading a string field undoes writing it.
pub proof fn lemma_take_str(s: Seq<char>, rest: Seq<u8>)
    requires
        str_encodable(s),
    ensures
        take_str(str_field(s) + rest) == Some((s, rest)),
{
    let eb = encode_utf8(s);
    assert(str_field(s) + rest =~= spec_u64_to_le_bytes(eb.len() as u64) + (eb + rest));
    lemma_take_u64(eb.len() as u64, eb + rest);
    assert((eb + rest).subrange(0, eb.len() as int) =~= eb);
    assert((eb + rest).subrange(eb.len() as int, (eb + rest).len() as int) =~= rest);
    encode_utf8_valid_utf8(s);
    encode_utf8_decode_utf8(s);
}

/// Reading one block undoes writing it.
pub proof fn lemma_take_block(b: BlockView, rest: Seq<u8>)
    requires
        block_encodable(b),
    ensures
        take_block(block_bytes(b) + rest) == Some((b, rest)),
{
    let t6 = str_field(b.hash) + rest;
    let t5 = str_field(b.previous_hash) + t6;
    let t4 = str_field(b.entry.content) + t5;
    let t3 = str_field(b.entry.location) + t4;
    let t2 = spec_u64_to_le_bytes(b.entry.timestamp as u64) + t3;
    let t1 = spec_u64_to_le_bytes(b.timestamp as u64) + t2;
    let t0 = spec_u64_to_le_bytes(b.index) + t1;
    assert(block_bytes(b) + rest =~= t0);
    lemma_take_u64(b.index, t1);
    lemma_take_u64(b.timestamp as u64, t2);
    lemma_take_u64(b.entry.timestamp as u64, t3);
    lemma_take_str(b.entry.location, t4);
    lemma_take_str(b.entry.content, t5);
    lemma_take_str(b.previous_hash, t6);
    lemma_take_str(b.hash, rest);
    let ts: i64 = b.timestamp;
    let ets: i64 = b.entry.timestamp;
    assert((ts as u64) as i64 == ts) by (bit_vector);
    assert((ets as u64) as i64 == ets) by (bit_vector);
}

/// Reading `n` blocks undoes writing them.
pub proof fn lemma_take_blocks(c: Seq<BlockView>, rest: Seq<u8>)
    requires
        forall|i: int| 0 <= i < c.len() ==> #[trigger] block_encodable(c[i]),
    ensures
        take_blocks(blocks_bytes(c) + rest, c.len()) == Some((c, rest)),
    decreases c.len(),
{
    if c.len() == 0 {
        assert(blocks_bytes(c) + rest =~= rest);
        assert(take_blocks(rest, 0) == Some((Seq::<BlockView>::empty(), rest)));
        assert(c =~= Seq::<BlockView>::empty());
    } else {
        let tail = c.drop_first();
        assert(blocks_bytes(c) + rest =~= block_bytes(c[0]) + (blocks_bytes(tail) + rest));
        lemma_take_block(c[0], blocks_bytes(tail) + rest);
        assert(forall|i: int| 0 <= i < tail.len() ==> #[trigger] block_encodable(tail[i]));
        lemma_take_blocks(tail, rest);
        assert(seq![c[0]] + tail =~= c);
    }
}

/// Round trip: decoding the encoding of any chain yields exactly that chain.
pub proof fn lemma_chain_round_trip(c: Seq<BlockView>)
    requires
        chain_encodable(c),
    ensures
        spec_decode_chain(chain_bytes(c)) == Some(c),
{
    lemma_take_u64(c.len() as u64, blocks_bytes(c));
    lemma_take_blocks(c, Seq::empty());
    assert(blocks_bytes(c) + Seq::<u8>::empty() =~= blocks_bytes(c));
}

/// The block encoding is injective: two blocks with the same encoding have
/// the same field values. In particular two different payloads are two
/// different byte sequences handed to the digest.
pub proof fn lemma_payload_injective(b1: BlockView, b2: BlockView)
    requires
        block_encodable(b1),
        block_encodable(b2),
        block_payload(b1.index, b1.timestamp, b1.entry, b1.previous_hash) == block_payload(
            b2.index,
            b2.timestamp,
            b2.entry,
            b2.previous_hash,
        ),
    ensures
        b1.index == b2.index,
        b1.timestamp == b2.timestamp,
        b1.entry == b2.entry,
        b1.previous_hash == b2.previous_hash,
{
    let c1 = BlockView { hash: Seq::empty(), ..b1 };
    let c2 = BlockView { hash: Seq::empty(), ..b2 };
    assert(encode_utf8(Seq::<char>::empty()).len() == 0);
    assert(block_bytes(c1) == block_bytes(c2));
    lemma_take_block(c1, Seq::empty());
    lemma_take_block(c2, Seq::empty());
}

/// Relies on String::from_utf8: returns the string made of the given bytes
/// exactly when they are valid UTF-8, and nothing otherwise.
#[verifier::external_body]
fn string_from_utf8(bytes: Vec<u8>) -> (r: Option<String>)
    ensures
        match r {
            Some(s) => valid_utf8(bytes@) && s@ == decode_utf8(bytes@),
            None => !valid_utf8(bytes@),
        },
{
    match String::from_utf8(bytes) {
        Ok(s) => Some(s),
        Err(_) => None,
    }
}

/// The bytes of `data` from position `pos` on.
pub open spec fn tail_of(data: Seq<u8>, pos: int) -> Seq<u8> {
    data.subrange(pos, data.len() as int)
}

/// Appends the encoding of one block to `out`.
fn push_block_bytes(out: &mut Vec<u8>, b: &Block)
    ensures
        final(out)@ == old(out)@ + block_bytes(b@),
{
    let payload = block_payload_bytes(b.index, b.timestamp, &b.entry, b.previous_hash.as_str());
    push_bytes(out, payload.as_slice());
    push_str_field(out, b.hash.as_str());
    proof {
        assert(out@ =~= old(out)@ + block_bytes(b@));
    }
}

/// `blocks_bytes` grows one block's encoding at a time.
proof fn lemma_blocks_bytes_push(c: Seq<BlockView>, b: BlockView)
    ensures
        blocks_bytes(c.push(b)) == blocks_bytes(c) + block_bytes(b),
    decreases c.len(),
{
    if c.len() == 0 {
        assert(c.push(b)[0] == b);
        assert(c.push(b).drop_first() =~= Seq::<BlockView>::empty());
        assert(blocks_bytes(Seq::<BlockView>::empty()) == Seq::<u8>::empty());
        assert(blocks_bytes(c.push(b)) == block_bytes(b) + Seq::<u8>::empty());
        assert(block_bytes(b) + Seq::<u8>::empty() =~= blocks_bytes(c) + block_bytes(b));
    } else {
        assert(c.push(b).drop_first() =~= c.drop_first().push(b));
        lemma_blocks_bytes_push(c.drop_first(), b);
        assert(c.push(b)[0] == c[0]);
        assert(blocks_bytes(c.push(b)) == block_bytes(c[0]) + blocks_bytes(
            c.drop_first().push(b),
        ));
        assert(blocks_bytes(c.drop_first().push(b)) == blocks_bytes(c.drop_first()) + block_bytes(
            b,
        ));
        assert(block_bytes(c[0]) + (blocks_bytes(c.drop_first()) + block_bytes(b)) =~= (block_bytes(
            c[0],
        ) + blocks_bytes(c.drop_first())) + block_bytes(b));
        assert(blocks_bytes(c) == block_bytes(c[0]) + blocks_bytes(c.drop_first()));
    }
}

/// Reads eight little-endian bytes at `pos`.
fn read_u64(data: &[u8], pos: usize) -> (r: Option<(u64, usize)>)
    requires
        pos <= data@.len(),
    ensures
        match r {
            Some(v) => take_u64(tail_of(data@, pos as int)) == Some(
                (v.0, tail_of(data@, v.1 as int)),
            ) && pos < v.1 <= data@.len(),
            None => take_u64(tail_of(data@, pos as int)) is None,
        },
{
    if data.len() - pos >= 8 {
        let s = slice_subrange(data, pos, pos + 8);
        let x = u64_from_le_bytes(s);
        proof {
            let t = tail_of(data@, pos as int);
            assert(t.subrange(0, 8) =~= data@.subrange(pos as int, pos + 8 as int));
            assert(t.subrange(8, t.len() as int) =~= tail_of(data@, pos + 8 as int));
        }
        Some((x, pos + 8))
    } else {
        None
    }
}

/// Reads one length-prefixed string field at `pos`.
fn read_str(data: &[u8], pos: usize) -> (r: Option<(String, usize)>)
    requires
        pos <= data@.len(),
    ensures
        match r {
            Some(v) => take_str(tail_of(data@, pos as int)) == Some(
                (v.0@, tail_of(data@, v.1 as int)),
            ) && pos < v.1 <= data@.len(),
            None => take_str(tail_of(data@, pos as int)) is None,
        },
{
    match read_u64(data, pos) {
        None => None,
        Some((n, p1)) => {
            if n <= (data.len() - p1) as u64 {
                let len = n as usize;
                let end = p1 + len;
                let s = slice_subrange(data, p1, end);
                let v = slice_to_vec(s);
                proof {
                    let t1 = tail_of(data@, p1 as int);
                    assert(t1.subrange(0, n as int) =~= data@.subrange(p1 as int, end as int));
                    assert(t1.subrange(n as int, t1.len() as int) =~= tail_of(data@, end as int));
                }
                match string_from_utf8(v) {
                    Some(st) => Some((st, end)),
                    None => None,
                }
            } else {
                None
            }
        },
    }
}

/// Reads one block at `pos`, in the encoding's fixed field order.
fn read_block(data: &[u8], pos: usize) -> (r: Option<(Block, usize)>)
    requires
        pos <= data@.len(),
    ensures
        match r {
            Some(v) => take_block(tail_of(data@, pos as int)) == Some(
                (v.0@, tail_of(data@, v.1 as int)),
            ) && pos < v.1 <= data@.len(),
            None => take_block(tail_of(data@, pos as int)) is None,
        },
{
    let (index, p1) = match read_u64(data, pos) {
        Some(v) => v,
        None => {
            return None;
        },
    };
    let (ts, p2) = match read_u64(data, p1) {
        Some(v) => v,
        None => {
            return None;
        },
    };
    let (ets, p3) = match read_u64(data, p2) {
        Some(v) => v,
        None => {
            return None;
        },
    };
    let (location, p4) = match read_str(data, p3) {
        Some(v) => v,
        None => {
            return None;
        },
    };
    let (content, p5) = match read_str(data, p4) {
        Some(v) => v,
        None => {
            return None;
        },
    };
    let (previous_hash, p6) = match read_str(data, p5) {
        Some(v) => v,
        None => {
            return None;
        },
    };
    let (hash, p7) = match read_str(data, p6) {
        Some(v) => v,
        None => {
            return None;
        },
    };
    let block = Block {
        index,
        timestamp: ts as i64,
        entry: crate::models::JournalEntry { timestamp: ets as i64, location, content },
        previous_hash,
        hash,
    };
    Some((block, p7))
}

impl Blockchain {
    /// The fixed, deterministic encoding of this chain as bytes: identical
    /// field values always give identical bytes.
    pub fn to_bytes(&self) -> (r: Vec<u8>)
        ensures
            r@ == chain_bytes(self@),
    {
        let mut out: Vec<u8> = Vec::new();
        push_u64_le(&mut out, self.chain.len() as u64);
        let mut i: usize = 0;
        while i < self.chain.len()
            invariant
                i <= self.chain@.len(),
                self@.len() == self.chain@.len(),
                out@ == spec_u64_to_le_bytes(self.chain@.len() as u64) + blocks_bytes(
                    self@.subrange(0, i as int),
                ),
            decreases self.chain@.len() - i,
        {
            push_block_bytes(&mut out, &self.chain[i]);
            proof {
                assert(self@.subrange(0, i as int).push(self@[i as int]) =~= self@.subrange(
                    0,
                    i + 1 as int,
                ));
                lemma_blocks_bytes_push(self@.subrange(0, i as int), self@[i as int]);
                assert(self.chain@[i as int]@ == self@[i as int]);
            }
            i = i + 1;
        }
        proof {
            assert(self@.subrange(0, self@.len() as int) =~= self@);
        }
        out
    }

    /// Decodes a chain from bytes: the chain whose encoding the bytes are,
    /// and `SerializationError` exactly when they are no chain's encoding.
    pub fn from_bytes(data: &[u8]) -> (r: Result<Blockchain, JournalError>)
        ensures
            match r {
                Ok(bc) => spec_decode_chain(data@) == Some(bc@),
                Err(e) => spec_decode_chain(data@) is None && e
                    == JournalError::SerializationError,
            },
    {
        proof {
            assert(tail_of(data@, 0) =~= data@);
        }
        let (n, start) = match read_u64(data, 0) {
            Some(v) => v,
            None => {
                return Err(JournalError::SerializationError);
            },
        };
        let mut blocks: Vec<Block> = Vec::new();
        let mut pos: usize = start;
        let mut i: u64 = 0;
        while i < n
            invariant
                i <= n,
                pos <= data@.len(),
                take_u64(data@) == Some((n, tail_of(data@, start as int))),
                take_blocks(tail_of(data@, start as int), n as nat) == (match take_blocks(
                    tail_of(data@, pos as int),
                    (n - i) as nat,
                ) {
                    None => None::<(Seq<BlockView>, Seq<u8>)>,
                    Some((s, rest)) => Some((views_of(blocks@) + s, rest)),
                }),
            decreases n - i,
        {
            let (blk, p2) = match read_block(data, pos) {
                Some(v) => v,
                None => {
                    proof {
                        assert(take_blocks(tail_of(data@, pos as int), (n - i) as nat) is None);
                    }
                    return Err(JournalError::SerializationError);
                },
            };
            proof {
                let ghost k = (n - i) as nat;
                let ghost t = tail_of(data@, pos as int);
                let ghost t2 = tail_of(data@, p2 as int);
                assert(take_blocks(t, k) == (match take_blocks(t2, (k - 1) as nat) {
                    None => None::<(Seq<BlockView>, Seq<u8>)>,
                    Some((blks, rest2)) => Some((seq![blk@] + blks, rest2)),
                }));
                if let Some((s2, rest2)) = take_blocks(t2, (k - 1) as nat) {
                    assert(views_of(blocks@.push(blk)) =~= views_of(blocks@).push(blk@));
                    assert(views_of(blocks@) + (seq![blk@] + s2) =~= views_of(blocks@).push(blk@)
                        + s2);
                }
            }
            blocks.push(blk);
            pos = p2;
            i = i + 1;
        }
        proof {
            assert(take_blocks(tail_of(data@, pos as int), 0) == Some(
                (Seq::<BlockView>::empty(), tail_of(data@, pos as int)),
            ));
            assert(views_of(blocks@) + Seq::<BlockView>::empty() =~= views_of(blocks@));
        }
        if pos == data.len() {
            proof {
                assert(tail_of(data@, pos as int).len() == 0);
            }
            Ok(Blockchain { chain: blocks })
        } else {
            proof {
                assert(tail_of(data@, pos as int).len() > 0);
            }
            Err(JournalError::SerializationError)
        }
    }
}

} // verus!
