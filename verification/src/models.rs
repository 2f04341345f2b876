//! The chain data model: entries, blocks, the chain itself, and the
//! validation and replacement rules.

use vstd::prelude::*;
use vstd::bytes::spec_u64_to_le_bytes;
use vstd::utf8::encode_utf8;
use crate::digest::{sha256_hex_of, sha256_hex, now_millis, is_hex_hash};

verus! {

/// Mathematical value of a journal entry.
pub ghost struct EntryView {
    pub timestamp: i64,
    pub location: Seq<char>,
    pub content: Seq<char>,
}

/// Mathematical value of a block.
pub ghost struct BlockView {
    pub index: u64,
    pub timestamp: i64,
    pub entry: EntryView,
    pub previous_hash: Seq<char>,
    pub hash: Seq<char>,
}

/// One journal entry: a timestamp in milliseconds since the Unix epoch and
/// two free-form strings. Empty strings are legal.
pub struct JournalEntry {
    pub timestamp: i64,
    pub location: String,
    pub content: String,
}

/// One block of the chain: an entry together with its linkage metadata and
/// its own content hash.
pub struct Block {
    pub index: u64,
    pub timestamp: i64,
    pub entry: JournalEntry,
    pub previous_hash: String,
    pub hash: String,
}

/// The chain: an ordered sequence of blocks, index 0 being the genesis block.
pub struct Blockchain {
    pub chain: Vec<Block>,
}

impl View for JournalEntry {
    type V = EntryView;

    open spec fn view(&self) -> EntryView {
        EntryView { timestamp: self.timestamp, location: self.location@, content: self.content@ }
    }
}

impl View for Block {
    type V = BlockView;

    open spec fn view(&self) -> BlockView {
        BlockView {
            index: self.index,
            timestamp: self.timestamp,
            entry: self.entry@,
            previous_hash: self.previous_hash@,
            hash: self.hash@,
        }
    }
}

/// The mathematical values of a sequence of blocks.
pub open spec fn views_of(blocks: Seq<Block>) -> Seq<BlockView> {
    blocks.map_values(|b: Block| b@)
}

impl View for Blockchain {
    type V = Seq<BlockView>;

    open spec fn view(&self) -> Seq<BlockView> {
        views_of(self.chain@)
    }
}

/// A string field in the fixed encoding: the length of the string's UTF-8
/// bytes as eight little-endian bytes, then those bytes.
pub open spec fn str_field(s: Seq<char>) -> Seq<u8> {
    spec_u64_to_le_bytes(encode_utf8(s).len() as u64) + encode_utf8(s)
}

/// The bytes over which an entry's own digest is computed: timestamp, then
/// location, then content, in this fixed order.
pub open spec fn entry_payload(e: EntryView) -> Seq<u8> {
    spec_u64_to_le_bytes(e.timestamp as u64) + str_field(e.location) + str_field(e.content)
}

/// The digest of an entry alone.
pub open spec fn spec_entry_hash(e: EntryView) -> Seq<char> {
    sha256_hex_of(entry_payload(e))
}

/// The bytes over which a block's digest is computed: index, block
/// timestamp, entry, previous hash — and never the block's own `hash`
/// field. That exclusion is deliberate: a hash must not be computed over
/// itself, and `spec_block_hash` below is therefore independent of whatever
/// the `hash` field currently holds.
pub open spec fn block_payload(
    index: u64,
    timestamp: i64,
    entry: EntryView,
    previous_hash: Seq<char>,
) -> Seq<u8> {
    spec_u64_to_le_bytes(index) + spec_u64_to_le_bytes(timestamp as u64) + entry_payload(entry)
        + str_field(previous_hash)
}

/// The digest a block's `hash` field must hold to be internally consistent.
pub open spec fn spec_block_hash(b: BlockView) -> Seq<char> {
    sha256_hex_of(block_payload(b.index, b.timestamp, b.entry, b.previous_hash))
}

/// A block whose stored hash matches the digest recomputed from its other
/// fields.
pub open spec fn block_hash_ok(b: BlockView) -> bool {
    b.hash == spec_block_hash(b)
}

/// What chain validity asks of the block at position `i`: its stored hash
/// recomputes correctly, and its stored `previous_hash` equals the stored
/// hash of its predecessor.
pub open spec fn valid_at(c: Seq<BlockView>, i: int) -> bool {
    block_hash_ok(c[i]) && c[i].previous_hash == c[i - 1].hash
}

/// Chain validity: every block after the genesis block recomputes its own
/// hash correctly and links to the stored hash of its predecessor. The
/// genesis block itself is only required to be structurally present.
pub open spec fn chain_valid(c: Seq<BlockView>) -> bool {
    forall|i: int| 1 <= i < c.len() ==> #[trigger] valid_at(c, i)
}

/// The errors of this library. Candidate chains that merely fail the
/// replacement rule are not errors: `replace_chain` reports them in-band.
#[derive(PartialEq, Eq, Structural, Clone, Copy, Debug)]
pub enum JournalError {
    /// Structured encoding or decoding failed.
    SerializationError,
    /// A peer was unreachable, timed out, or answered with a failure.
    NetworkError,
    /// Internal consistency was broken, such as an append on a chain with
    /// zero blocks; fatal, indicates a bug.
    InvariantViolation,
}

/// Appends `bytes` to `out`.
pub(crate) fn push_bytes(out: &mut Vec<u8>, bytes: &[u8])
    ensures
        final(out)@ == old(out)@ + bytes@,
{
    let mut i: usize = 0;
    while i < bytes.len()
        invariant
            i <= bytes@.len(),
            out@ == old(out)@ + bytes@.subrange(0, i as int),
        decreases bytes@.len() - i,
    {
        out.push(bytes[i]);
        proof {
            assert(out@ =~= old(out)@ + bytes@.subrange(0, i + 1 as int));
        }
        i = i + 1;
    }
    proof {
        assert(out@ =~= old(out)@ + bytes@);
    }
}

/// Appends the eight little-endian bytes of `x` to `out`.
pub(crate) fn push_u64_le(out: &mut Vec<u8>, x: u64)
    ensures
        final(out)@ == old(out)@ + spec_u64_to_le_bytes(x),
{
    let bytes = vstd::bytes::u64_to_le_bytes(x);
    push_bytes(out, bytes.as_slice());
}

/// Appends a length-prefixed string field to `out`.
pub(crate) fn push_str_field(out: &mut Vec<u8>, s: &str)
    ensures
        final(out)@ == old(out)@ + str_field(s@),
{
    let bytes = s.as_bytes();
    push_u64_le(out, bytes.len() as u64);
    push_bytes(out, bytes);
    proof {
        assert(out@ =~= old(out)@ + str_field(s@));
    }
}

/// Builds the bytes over which an entry's digest is computed.
pub fn entry_payload_bytes(e: &JournalEntry) -> (r: Vec<u8>)
    ensures
        r@ == entry_payload(e@),
{
    let mut out: Vec<u8> = Vec::new();
    push_u64_le(&mut out, e.timestamp as u64);
    push_str_field(&mut out, e.location.as_str());
    push_str_field(&mut out, e.content.as_str());
    proof {
        assert(out@ =~= entry_payload(e@));
    }
    out
}

/// Builds the bytes over which a block's digest is computed. The block's
/// own `hash` field takes no part.
pub fn block_payload_bytes(
    index: u64,
    timestamp: i64,
    entry: &JournalEntry,
    previous_hash: &str,
) -> (r: Vec<u8>)
    ensures
        r@ == block_payload(index, timestamp, entry@, previous_hash@),
{
    let mut out: Vec<u8> = Vec::new();
    push_u64_le(&mut out, index);
    push_u64_le(&mut out, timestamp as u64);
    let ep = entry_payload_bytes(entry);
    push_bytes(&mut out, ep.as_slice());
    push_str_field(&mut out, previous_hash);
    proof {
        assert(out@ =~= block_payload(index, timestamp, entry@, previous_hash@));
    }
    out
}

impl JournalEntry {
    /// A new entry holding the given content and location, stamped with the
    /// current time.
    pub fn new(content: String, location: String) -> (r: JournalEntry)
        ensures
            r.content@ == content@,
            r.location@ == location@,
    {
        let timestamp = now_millis();
        JournalEntry { timestamp, location, content }
    }

    /// The digest of this entry alone.
    pub fn hash(&self) -> (r: String)
        ensures
            r@ == spec_entry_hash(self@),
            is_hex_hash(r@),
    {
        let payload = entry_payload_bytes(self);
        sha256_hex(payload.as_slice())
    }
}

impl Block {
    /// A new block at the given position, stamped with the current time,
    /// whose `hash` field holds the digest of all its other fields.
    pub fn new(index: u64, entry: JournalEntry, previous_hash: String) -> (r: Block)
        ensures
            r.index == index,
            r.entry@ == entry@,
            r.previous_hash@ == previous_hash@,
            block_hash_ok(r@),
            is_hex_hash(r.hash@),
    {
        let timestamp = now_millis();
        let mut block = Block {
            index,
            timestamp,
            entry,
            previous_hash,
            hash: String::new(),
        };
        block.hash = block.calculate_hash();
        block
    }

    /// Recomputes the digest of this block from its current field values,
    /// for later re-verification. The result is independent of whatever is
    /// currently stored in the `hash` field.
    pub fn calculate_hash(&self) -> (r: String)
        ensures
            r@ == spec_block_hash(self@),
            is_hex_hash(r@),
    {
        let payload = block_payload_bytes(
            self.index,
            self.timestamp,
            &self.entry,
            self.previous_hash.as_str(),
        );
        sha256_hex(payload.as_slice())
    }
}

/// An exact copy of a block, field for field.
pub fn clone_block(b: &Block) -> (r: Block)
    ensures
        r@ == b@,
{
    Block {
        index: b.index,
        timestamp: b.timestamp,
        entry: JournalEntry {
            timestamp: b.entry.timestamp,
            location: b.entry.location.clone(),
            content: b.entry.content.clone(),
        },
        previous_hash: b.previous_hash.clone(),
        hash: b.hash.clone(),
    }
}

/// Walks the blocks from index 1 to the end; for each, recomputes the
/// digest and compares it to the stored hash, and compares the stored
/// `previous_hash` to the predecessor's stored hash. Stops at the first
/// mismatch.
fn is_chain_valid(chain: &Vec<Block>) -> (r: bool)
    ensures
        r == chain_valid(views_of(chain@)),
{
    let ghost c = views_of(chain@);
    let mut i: usize = 1;
    while i < chain.len()
        invariant
            1 <= i,
            c == views_of(chain@),
            c.len() == chain@.len(),
            forall|j: int| 1 <= j < i ==> #[trigger] valid_at(c, j),
        decreases chain@.len() - i,
    {
        let ghost vi = i as int;
        let current = &chain[i];
        proof {
            assert(c[vi] == chain@[vi]@);
            assert(c[vi - 1] == chain@[vi - 1]@);
        }
        let recomputed = current.calculate_hash();
        if !(current.hash == recomputed) {
            proof {
                assert(!valid_at(c, vi));
                assert(!chain_valid(c));
            }
            return false;
        }
        if !(current.previous_hash == chain[i - 1].hash) {
            proof {
                assert(!valid_at(c, vi));
                assert(!chain_valid(c));
            }
            return false;
        }
        proof {
            assert(valid_at(c, vi));
        }
        i = i + 1;
    }
    true
}

impl Blockchain {
    /// A fresh chain of exactly one block: the genesis block, at index 0,
    /// with the fixed sentinel entry and the sentinel previous hash "0".
    pub fn new() -> (r: Blockchain)
        ensures
            r@.len() == 1,
            r@[0].index == 0,
            r@[0].previous_hash == "0"@,
            r@[0].entry.content == "Genesis Block"@,
            r@[0].entry.location == "N/A"@,
            block_hash_ok(r@[0]),
            is_hex_hash(r@[0].hash),
            chain_valid(r@),
    {
        let genesis_entry = JournalEntry::new("Genesis Block".to_owned(), "N/A".to_owned());
        let genesis_block = Block::new(0, genesis_entry, "0".to_owned());
        let mut chain: Vec<Block> = Vec::new();
        chain.push(genesis_block);
        Blockchain { chain }
    }

    /// The number of blocks.
    pub fn len(&self) -> (r: usize)
        ensures
            r == self@.len(),
    {
        self.chain.len()
    }

    /// Whether the chain holds no blocks at all. Never true of a chain
    /// built and grown through this library.
    pub fn is_empty(&self) -> (r: bool)
        ensures
            r == (self@.len() == 0),
    {
        self.chain.is_empty()
    }

    /// Appends one new block holding the given content and location. The
    /// new block sits at index `len`, links to the stored hash of the
    /// previous tail, and carries a freshly computed digest, so a valid
    /// chain stays valid. On a chain with zero blocks — impossible under
    /// this library's construction rules — nothing changes and the fatal
    /// `InvariantViolation` is reported.
    pub fn add_entry(&mut self, content: String, location: String) -> (r: Result<
        Block,
        JournalError,
    >)
        ensures
            old(self)@.len() == 0 ==> r is Err && r->Err_0 == JournalError::InvariantViolation
                && final(self)@ == old(self)@,
            old(self)@.len() > 0 ==> {
                &&& r is Ok
                &&& final(self)@.len() == old(self)@.len() + 1
                &&& final(self)@.subrange(0, old(self)@.len() as int) == old(self)@
                &&& final(self)@.last() == r->Ok_0@
                &&& r->Ok_0@.index == old(self)@.len()
                &&& r->Ok_0@.previous_hash == old(self)@.last().hash
                &&& r->Ok_0@.entry.content == content@
                &&& r->Ok_0@.entry.location == location@
                &&& block_hash_ok(r->Ok_0@)
                &&& is_hex_hash(r->Ok_0@.hash)
                &&& (chain_valid(old(self)@) ==> chain_valid(final(self)@))
            },
    {
        if self.chain.len() == 0 {
            return Err(JournalError::InvariantViolation);
        }
        let previous_hash = self.chain[self.chain.len() - 1].hash.clone();
        let entry = JournalEntry::new(content, location);
        let index = self.chain.len() as u64;
        let new_block = Block::new(index, entry, previous_hash);
        let result = clone_block(&new_block);
        self.chain.push(new_block);
        proof {
            let ghost pre = old(self)@;
            assert(self@ =~= pre.push(new_block@));
            assert(self@.subrange(0, pre.len() as int) =~= pre);
            assert(pre.last() == old(self).chain@[pre.len() - 1]@);
            assert(new_block@.previous_hash == pre.last().hash);
            assert(self@.last() == new_block@);
            assert(result@ == new_block@);
            if chain_valid(old(self)@) {
                assert forall|i: int| 1 <= i < self@.len() implies #[trigger] valid_at(
                    self@,
                    i,
                ) by {
                    if i < pre.len() {
                        assert(self@[i] == pre[i]);
                        assert(self@[i - 1] == pre[i - 1]);
                        assert(valid_at(pre, i));
                    } else {
                        assert(self@[i] == new_block@);
                        assert(self@[i - 1] == pre.last());
                    }
                }
            }
        }
        Ok(result)
    }

    /// Whether this chain satisfies the validity invariant: every block
    /// after the genesis block recomputes its hash correctly and links to
    /// its predecessor's stored hash.
    pub fn is_valid(&self) -> (r: bool)
        ensures
            r == chain_valid(self@),
    {
        is_chain_valid(&self.chain)
    }

    /// The whole consensus rule: adopts `new_chain` as the authoritative
    /// chain if and only if it is strictly longer than the current one and
    /// valid. Otherwise the current chain is left completely unchanged.
    pub fn replace_chain(&mut self, new_chain: Vec<Block>) -> (adopted: bool)
        ensures
            adopted == (new_chain@.len() > old(self)@.len() && chain_valid(views_of(new_chain@))),
            adopted ==> final(self)@ == views_of(new_chain@),
            !adopted ==> *final(self) == *old(self),
    {
        if new_chain.len() > self.chain.len() && is_chain_valid(&new_chain) {
            self.chain = new_chain;
            true
        } else {
            false
        }
    }
}

} // verus!
