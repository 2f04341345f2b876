use blockjournal::models::{clone_block, Block, Blockchain, JournalEntry, JournalError};

fn clone_chain(bc: &Blockchain) -> Vec<Block> {
    bc.chain.iter().map(clone_block).collect()
}

fn chain_of(n_entries: usize) -> Blockchain {
    let mut bc = Blockchain::new();
    for k in 0..n_entries {
        bc.add_entry(format!("entry {}", k), format!("place {}", k))
            .ok()
            .expect("append on a fresh chain");
    }
    bc
}

fn blocks_equal(a: &Block, b: &Block) -> bool {
    a.index == b.index
        && a.timestamp == b.timestamp
        && a.entry.timestamp == b.entry.timestamp
        && a.entry.location == b.entry.location
        && a.entry.content == b.entry.content
        && a.previous_hash == b.previous_hash
        && a.hash == b.hash
}

#[test]
fn genesis_invariant() {
    let bc = Blockchain::new();
    assert_eq!(bc.len(), 1);
    assert!(!bc.is_empty());
    assert_eq!(bc.chain[0].index, 0);
    assert_eq!(bc.chain[0].previous_hash, "0");
    assert_eq!(bc.chain[0].entry.content, "Genesis Block");
    assert_eq!(bc.chain[0].entry.location, "N/A");
    assert_eq!(bc.chain[0].hash.len(), 64);
    assert!(bc
        .chain[0]
        .hash
        .chars()
        .all(|c| matches!(c, '0'..='9' | 'a'..='f')));
    assert!(bc.is_valid());
}

#[test]
fn append_monotonicity() {
    let mut bc = Blockchain::new();
    let tail_hash = bc.chain[0].hash.clone();
    let added = bc
        .add_entry("first words".to_string(), "the desk".to_string())
        .ok()
        .expect("append on a fresh chain");
    assert_eq!(bc.len(), 2);
    assert_eq!(added.index, 1);
    assert_eq!(added.previous_hash, tail_hash);
    assert_eq!(added.entry.content, "first words");
    assert_eq!(added.entry.location, "the desk");
    assert!(blocks_equal(&added, &bc.chain[1]));
    assert!(bc.is_valid());

    let second_tail = bc.chain[1].hash.clone();
    let added2 = bc
        .add_entry("more".to_string(), "elsewhere".to_string())
        .ok()
        .expect("append on a growing chain");
    assert_eq!(bc.len(), 3);
    assert_eq!(added2.index, 2);
    assert_eq!(added2.previous_hash, second_tail);
    assert!(bc.is_valid());
}

#[test]
fn append_on_zero_block_chain_is_invariant_violation() {
    let mut broken = Blockchain { chain: Vec::new() };
    let r = broken.add_entry("x".to_string(), "y".to_string());
    assert!(matches!(r, Err(JournalError::InvariantViolation)));
    assert_eq!(broken.len(), 0);
}

#[test]
fn is_valid_is_idempotent() {
    let bc = chain_of(2);
    let first = bc.is_valid();
    let second = bc.is_valid();
    assert!(first);
    assert_eq!(first, second);
    assert_eq!(bc.len(), 3);

    let mut tampered = chain_of(2);
    tampered.chain[1].entry.content = "rewritten".to_string();
    let a = tampered.is_valid();
    let b = tampered.is_valid();
    assert!(!a);
    assert_eq!(a, b);
}

#[test]
fn tampering_with_content_is_detected() {
    let mut bc = chain_of(2);
    assert!(bc.is_valid());
    bc.chain[1].entry.content = "it never said that".to_string();
    assert!(!bc.is_valid());
}

#[test]
fn tampering_with_each_field_is_detected() {
    let mut bc = chain_of(2);
    bc.chain[1].index = 7;
    assert!(!bc.is_valid());

    let mut bc = chain_of(2);
    bc.chain[1].timestamp += 1;
    assert!(!bc.is_valid());

    let mut bc = chain_of(2);
    bc.chain[1].entry.timestamp += 1;
    assert!(!bc.is_valid());

    let mut bc = chain_of(2);
    bc.chain[1].entry.location = "elsewhere".to_string();
    assert!(!bc.is_valid());

    let mut bc = chain_of(2);
    bc.chain[1].previous_hash = "forged".to_string();
    assert!(!bc.is_valid());

    let mut bc = chain_of(2);
    bc.chain[1].hash = "forged".to_string();
    assert!(!bc.is_valid());
}

#[test]
fn replacement_rule_literal_cases() {
    // Local chain of length 3.
    let mut local = chain_of(2);
    let local_before: Vec<Block> = clone_chain(&local);
    assert_eq!(local.len(), 3);

    // Candidate of length 3, valid: equal length is rejected.
    let same_len = chain_of(2);
    assert!(same_len.is_valid());
    assert!(!local.replace_chain(clone_chain(&same_len)));
    assert_eq!(local.len(), 3);
    for (a, b) in local.chain.iter().zip(local_before.iter()) {
        assert!(blocks_equal(a, b));
    }

    // Candidate of length 4, invalid at block 2: rejected in its entirety.
    let mut longer_invalid = chain_of(3);
    longer_invalid.chain[2].entry.content = "corrupted".to_string();
    assert!(!longer_invalid.is_valid());
    assert!(!local.replace_chain(clone_chain(&longer_invalid)));
    assert_eq!(local.len(), 3);
    for (a, b) in local.chain.iter().zip(local_before.iter()) {
        assert!(blocks_equal(a, b));
    }

    // Candidate of length 5, fully valid: adopted.
    let longer_valid = chain_of(4);
    assert!(longer_valid.is_valid());
    assert!(local.replace_chain(clone_chain(&longer_valid)));
    assert_eq!(local.len(), 5);
    for (a, b) in local.chain.iter().zip(longer_valid.chain.iter()) {
        assert!(blocks_equal(a, b));
    }
    assert!(local.is_valid());
}

#[test]
fn hash_is_deterministic_and_ignores_stored_hash() {
    let entry = JournalEntry {
        timestamp: 1_700_000_000_123,
        location: "harbour".to_string(),
        content: "wind from the east".to_string(),
    };
    let block = Block {
        index: 4,
        timestamp: 1_700_000_000_456,
        entry,
        previous_hash: "abcd".to_string(),
        hash: String::new(),
    };
    let h1 = block.calculate_hash();
    let h2 = block.calculate_hash();
    assert_eq!(h1, h2);

    // A copy with identical field values hashes identically, even with a
    // different value stored in the hash field.
    let mut copy = clone_block(&block);
    copy.hash = "something else entirely".to_string();
    assert_eq!(copy.calculate_hash(), h1);

    // Any changed field value changes the digest.
    let mut other = clone_block(&block);
    other.entry.content = "wind from the west".to_string();
    assert_ne!(other.calculate_hash(), h1);
}

#[test]
fn entry_hash_is_a_real_digest() {
    let e1 = JournalEntry {
        timestamp: 42,
        location: "a".to_string(),
        content: "b".to_string(),
    };
    let e2 = JournalEntry {
        timestamp: 42,
        location: "a".to_string(),
        content: "c".to_string(),
    };
    let h1 = e1.hash();
    assert_eq!(h1.len(), 64);
    assert!(h1.chars().all(|c| matches!(c, '0'..='9' | 'a'..='f')));
    assert_eq!(h1, e1.hash());
    assert_ne!(h1, e2.hash());
}
