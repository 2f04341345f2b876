//! The library's cross-cutting guarantees, stated and proved once, over the
//! same spec functions that the executable functions' contracts use.

use vstd::prelude::*;
use crate::digest::sha256_hex_of;
use crate::models::{
    BlockView, block_payload, spec_block_hash, block_hash_ok, chain_valid, valid_at,
};
use crate::codec::{
    chain_bytes, spec_decode_chain, chain_encodable, block_encodable, lemma_chain_round_trip,
    lemma_payload_injective,
};

verus! {

/// Validity is a function of the chain value alone, and checking it changes
/// nothing: any two verdicts that `is_valid`'s contract admits for the same
/// chain are equal.
pub proof fn lemma_is_valid_deterministic(c: Seq<BlockView>, r1: bool, r2: bool)
    requires
        r1 == chain_valid(c),
        r2 == chain_valid(c),
    ensures
        r1 == r2,
{
}

/// Hash determinism: two blocks with identical index, timestamps, entry and
/// previous hash have identical digests — whatever their stored `hash`
/// fields hold, since the stored hash is never hashed into itself.
pub proof fn lemma_hash_deterministic(b1: BlockView, b2: BlockView)
    requires
        b1.index == b2.index,
        b1.timestamp == b2.timestamp,
        b1.entry == b2.entry,
        b1.previous_hash == b2.previous_hash,
    ensures
        spec_block_hash(b1) == spec_block_hash(b2),
{
}

/// Overwriting the stored hash of any block after the genesis block of a
/// valid chain is always detected: the chain is no longer valid.
pub proof fn lemma_hash_mutation_detected(c: Seq<BlockView>, i: int, h: Seq<char>)
    requires
        chain_valid(c),
        1 <= i < c.len(),
        h != c[i].hash,
    ensures
        !chain_valid(c.update(i, (BlockView { hash: h, ..c[i] }))),
{
    let c2 = c.update(i, (BlockView { hash: h, ..c[i] }));
    assert(valid_at(c, i));
    assert(spec_block_hash(c2[i]) == spec_block_hash(c[i]));
    assert(!block_hash_ok(c2[i]));
    assert(!valid_at(c2, i));
}

/// Overwriting the stored previous-hash link of any block after the genesis
/// block of a valid chain is always detected.
pub proof fn lemma_link_mutation_detected(c: Seq<BlockView>, i: int, p: Seq<char>)
    requires
        chain_valid(c),
        1 <= i < c.len(),
        p != c[i].previous_hash,
    ensures
        !chain_valid(c.update(i, (BlockView { previous_hash: p, ..c[i] }))),
{
    let c2 = c.update(i, (BlockView { previous_hash: p, ..c[i] }));
    assert(valid_at(c, i));
    assert(c2[i - 1] == c[i - 1]);
    assert(c2[i].previous_hash != c2[i - 1].hash);
    assert(!valid_at(c2, i));
}

/// Changing any field that a block's digest is computed over — index,
/// either timestamp, the entry's strings — in a block after the genesis
/// block of a valid chain escapes detection only if the digest function
/// itself collides on the old and new payloads. Nothing weaker can hold of
/// any hash-chained log.
pub proof fn lemma_payload_mutation_detected(c: Seq<BlockView>, i: int, b2: BlockView)
    requires
        chain_valid(c),
        1 <= i < c.len(),
        b2.hash == c[i].hash,
        b2.previous_hash == c[i].previous_hash,
    ensures
        chain_valid(c.update(i, b2)) ==> sha256_hex_of(
            block_payload(b2.index, b2.timestamp, b2.entry, b2.previous_hash),
        ) == sha256_hex_of(block_payload(c[i].index, c[i].timestamp, c[i].entry, c[i].previous_hash)),
{
    let c2 = c.update(i, b2);
    assert(valid_at(c, i));
    if chain_valid(c2) {
        assert(valid_at(c2, i));
        assert(c2[i] == b2);
        assert(b2.hash == spec_block_hash(b2));
    }
}

/// Changing any hashed field of a block after the genesis block of a valid
/// chain escapes detection only if the digest function collides on two
/// genuinely different byte sequences. Nothing stronger can hold of any
/// hash-chained log.
pub proof fn lemma_mutation_requires_collision(c: Seq<BlockView>, i: int, b2: BlockView)
    requires
        chain_valid(c),
        1 <= i < c.len(),
        b2.hash == c[i].hash,
        b2.previous_hash == c[i].previous_hash,
        !(b2.index == c[i].index && b2.timestamp == c[i].timestamp && b2.entry == c[i].entry),
        block_encodable(b2),
        block_encodable(c[i]),
    ensures
        chain_valid(c.update(i, b2)) ==> {
            let tampered = block_payload(b2.index, b2.timestamp, b2.entry, b2.previous_hash);
            let genuine = block_payload(
                c[i].index,
                c[i].timestamp,
                c[i].entry,
                c[i].previous_hash,
            );
            tampered != genuine && sha256_hex_of(tampered) == sha256_hex_of(genuine)
        },
{
    lemma_payload_mutation_detected(c, i, b2);
    if chain_valid(c.update(i, b2)) {
        let tampered = block_payload(b2.index, b2.timestamp, b2.entry, b2.previous_hash);
        let genuine = block_payload(c[i].index, c[i].timestamp, c[i].entry, c[i].previous_hash);
        if tampered == genuine {
            lemma_payload_injective(b2, c[i]);
        }
    }
}

/// Round trip: a chain recovered from its persisted encoding is exactly the
/// chain that was encoded, field for field, so in particular its validity
/// verdict is unchanged.
pub proof fn lemma_persist_round_trip(c: Seq<BlockView>)
    requires
        chain_encodable(c),
    ensures
        spec_decode_chain(chain_bytes(c)) == Some(c),
{
    lemma_chain_round_trip(c);
}

} // verus!
