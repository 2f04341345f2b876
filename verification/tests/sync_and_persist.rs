use blockjournal::models::{clone_block, Block, Blockchain, JournalError};
use blockjournal::storage::Storage;
use blockjournal::sync::FetchOutcome;

fn clone_chain(bc: &Blockchain) -> Vec<Block> {
    bc.chain.iter().map(clone_block).collect()
}

fn chain_of(n_entries: usize) -> Blockchain {
    let mut bc = Blockchain::new();
    for k in 0..n_entries {
        bc.add_entry(format!("entry {}", k), format!("place {}", k))
            .ok()
            .expect("append on a fresh chain");
    }
    bc
}

fn blocks_equal(a: &Block, b: &Block) -> bool {
    a.index == b.index
        && a.timestamp == b.timestamp
        && a.entry.timestamp == b.entry.timestamp
        && a.entry.location == b.entry.location
        && a.entry.content == b.entry.content
        && a.previous_hash == b.previous_hash
        && a.hash == b.hash
}

#[test]
fn sync_fault_isolation() {
    // Peer A answers with a valid, longer chain; peer B is unreachable;
    // peer C answers with a valid but shorter chain.
    let mut local = chain_of(1);
    assert_eq!(local.len(), 2);
    let peer_a = chain_of(3);
    let peer_c = chain_of(0);
    let outcomes = vec![
        FetchOutcome::Fetched(clone_chain(&peer_a)),
        FetchOutcome::FetchFailed(JournalError::NetworkError),
        FetchOutcome::Fetched(clone_chain(&peer_c)),
    ];
    let adopted = local.sync_with_outcomes(outcomes);
    assert_eq!(adopted, 1);
    assert_eq!(local.len(), 4);
    for (a, b) in local.chain.iter().zip(peer_a.chain.iter()) {
        assert!(blocks_equal(a, b));
    }
}

#[test]
fn sync_with_no_peers_does_nothing() {
    let mut local = chain_of(2);
    let before = clone_chain(&local);
    let adopted = local.sync_with_outcomes(Vec::new());
    assert_eq!(adopted, 0);
    assert_eq!(local.len(), before.len());
    for (a, b) in local.chain.iter().zip(before.iter()) {
        assert!(blocks_equal(a, b));
    }
}

#[test]
fn sync_applies_outcomes_in_peer_order() {
    // A later, even longer chain replaces an earlier adopted one: both count.
    let mut local = chain_of(0);
    let first = chain_of(1);
    let second = chain_of(3);
    let outcomes = vec![
        FetchOutcome::Fetched(clone_chain(&first)),
        FetchOutcome::Fetched(clone_chain(&second)),
    ];
    let adopted = local.sync_with_outcomes(outcomes);
    assert_eq!(adopted, 2);
    assert_eq!(local.len(), 4);
}

#[test]
fn single_fetch_outcome_follows_replacement_rule() {
    let mut local = chain_of(2);
    assert!(!local.apply_fetch_outcome(FetchOutcome::FetchFailed(JournalError::NetworkError)));
    assert_eq!(local.len(), 3);
    let longer = chain_of(3);
    assert!(local.apply_fetch_outcome(FetchOutcome::Fetched(clone_chain(&longer))));
    assert_eq!(local.len(), 4);
}

#[test]
fn persisted_round_trip_preserves_everything() {
    let mut bc = Blockchain::new();
    bc.add_entry("café at noon ☃".to_string(), "Žilina".to_string())
        .ok()
        .expect("append on a fresh chain");
    bc.add_entry(String::new(), String::new())
        .ok()
        .expect("append on a growing chain");
    let valid_before = bc.is_valid();
    let bytes = bc.to_bytes();
    let back = Blockchain::from_bytes(&bytes).ok().expect("the encoding of a chain decodes");
    assert_eq!(back.len(), bc.len());
    for (a, b) in back.chain.iter().zip(bc.chain.iter()) {
        assert!(blocks_equal(a, b));
    }
    assert_eq!(back.is_valid(), valid_before);
    assert!(valid_before);
}

#[test]
fn round_trip_keeps_an_invalid_chain_invalid() {
    let mut bc = chain_of(2);
    bc.chain[1].entry.content = "rewritten".to_string();
    assert!(!bc.is_valid());
    let bytes = bc.to_bytes();
    let back = Blockchain::from_bytes(&bytes).ok().expect("the encoding of a chain decodes");
    assert_eq!(back.is_valid(), bc.is_valid());
    assert!(!back.is_valid());
}

#[test]
fn encoding_is_deterministic() {
    let bc = chain_of(2);
    assert_eq!(bc.to_bytes(), bc.to_bytes());
}

#[test]
fn malformed_bytes_do_not_decode() {
    let is_rejected = |bytes: &[u8]| {
        matches!(
            Blockchain::from_bytes(bytes),
            Err(JournalError::SerializationError)
        )
    };
    assert!(is_rejected(&[]));
    assert!(is_rejected(&[1, 2, 3]));
    // A count with no blocks behind it.
    assert!(is_rejected(&[5, 0, 0, 0, 0, 0, 0, 0]));

    let bc = chain_of(1);
    let bytes = bc.to_bytes();
    // Truncation is rejected.
    assert!(is_rejected(&bytes[..bytes.len() - 1]));
    // Trailing garbage is rejected.
    let mut padded = bytes.clone();
    padded.push(0);
    assert!(is_rejected(&padded));
    // Invalid UTF-8 inside a string field is rejected: one block whose
    // location field is the single byte 0xFF.
    let mut bad_utf8: Vec<u8> = Vec::new();
    bad_utf8.extend_from_slice(&1u64.to_le_bytes());  // block count
    bad_utf8.extend_from_slice(&0u64.to_le_bytes());  // index
    bad_utf8.extend_from_slice(&0u64.to_le_bytes());  // block timestamp
    bad_utf8.extend_from_slice(&0u64.to_le_bytes());  // entry timestamp
    bad_utf8.extend_from_slice(&1u64.to_le_bytes());  // location length
    bad_utf8.push(0xFF);  // not valid UTF-8
    bad_utf8.extend_from_slice(&0u64.to_le_bytes());  // content length
    bad_utf8.extend_from_slice(&0u64.to_le_bytes());  // previous_hash length
    bad_utf8.extend_from_slice(&0u64.to_le_bytes());  // hash length
    assert!(is_rejected(&bad_utf8));
}

#[test]
fn storage_keeps_its_path() {
    let st = Storage::new("journal.chain".to_string());
    assert_eq!(st.file_path, "journal.chain");
}

#[test]
fn sync_reply_reports_in_band() {
    assert_eq!(blockjournal::sync::sync_reply(true), "SYNC SUCCESSFUL!");
    assert_eq!(blockjournal::sync::sync_reply(false), "SYNC FAILED!");
}
