use explorer_index::hexstr::{from_le_hex, to_le_hex};
use explorer_index::ingest::{apply_block, ApplyOutcome, BlockData, InputData, OutputData, TxData};
use explorer_index::server::{Server, SpendStatus};
use explorer_index::store::Store;
use explorer_index::sync::{sync_step, SyncAction, SyncEvent, SyncState};

fn p2pkh_script(h: u8) -> Vec<u8> {
    let mut s = vec![0x76u8, 0xa9, 0x14];
    for _ in 0..20 {
        s.push(h);
    }
    s.push(0x88);
    s.push(0xac);
    s
}

fn coinbase_tx(hash_byte: u8, pay_to: u8, sats: i64) -> TxData {
    TxData {
        hash: [hash_byte; 32],
        version: 1,
        lock_time: 0,
        size: 100,
        inputs: vec![InputData {
            outpoint_tx_hash: [0u8; 32],
            outpoint_out_idx: 0xffff_ffff,
            signature_script: vec![0x51],
            sequence: 0xffff_ffff,
        }],
        outputs: vec![OutputData { sats_value: sats, pubkey_script: p2pkh_script(pay_to) }],
    }
}

fn block_at(height: i32, hash_byte: u8, prev: [u8; 32], txs: Vec<TxData>) -> BlockData {
    BlockData {
        hash: [hash_byte; 32],
        version: 1,
        previous_block: prev,
        merkle_root: [0u8; 32],
        timestamp: 1_600_000_000,
        bits: 0x1d00ffff,
        nonce: 0,
        size: 1000,
        median_time: 1_600_000_000,
        height,
        txs,
    }
}

fn two_block_server() -> Server {
    let mut s = Store::new();
    let b0 = block_at(0, 0x10, [0u8; 32], vec![coinbase_tx(0x21, 1, 5000)]);
    let spend = TxData {
        hash: [0x22; 32],
        version: 1,
        lock_time: 0,
        size: 200,
        inputs: vec![InputData {
            outpoint_tx_hash: [0x21; 32],
            outpoint_out_idx: 0,
            signature_script: vec![],
            sequence: 0,
        }],
        outputs: vec![OutputData { sats_value: 4000, pubkey_script: p2pkh_script(2) }],
    };
    let b1 = block_at(1, 0x11, [0x10; 32], vec![coinbase_tx(0x23, 3, 5000), spend]);
    assert!(matches!(apply_block(&mut s, &b0), Ok(ApplyOutcome::Applied)));
    assert!(matches!(apply_block(&mut s, &b1), Ok(ApplyOutcome::Applied)));
    Server::new(s)
}

#[test]
fn chain_tip_reports_the_best_block() {
    let srv = two_block_server();
    let info = srv.blockchain_info().expect("two blocks indexed");
    assert_eq!(info.best_height, 1);
    assert_eq!(info.best_hash, [0x11; 32]);
}

#[test]
fn blocks_are_found_by_height_and_hash() {
    let srv = two_block_server();
    let i = srv.block_index_by_height(1).expect("height 1 indexed");
    assert_eq!(srv.store.blocks[i].hash, [0x11; 32]);
    let j = srv.block_index_by_hash(&[0x10; 32]).expect("hash indexed");
    assert_eq!(srv.store.blocks[j].height, 0);
    assert!(srv.block_index_by_height(7).is_none());
    assert!(srv.block_index_by_hash(&[0x99; 32]).is_none());
}

#[test]
fn transactions_are_found_by_hash_and_block() {
    let srv = two_block_server();
    let i = srv.tx_index(&[0x22; 32]).expect("spend indexed");
    assert_eq!(srv.store.txs[i].meta.block_height, 1);
    assert_eq!(srv.store.txs[i].meta.sats_input, 5000);
    assert_eq!(srv.store.txs[i].meta.sats_output, 4000);
    assert!(srv.tx_index(&[0x99; 32]).is_none());
    let in_block1 = srv.block_tx_indices(1);
    assert_eq!(in_block1.len(), 2);
}

#[test]
fn spend_status_distinguishes_spent_unspent_unknown() {
    let srv = two_block_server();
    let statuses = srv.tx_out_spends(&[0x21; 32], 2);
    assert_eq!(statuses.len(), 2);
    match &statuses[0] {
        SpendStatus::SpentBy(sp) => {
            assert_eq!(sp.by_tx_hash, [0x22; 32]);
            assert_eq!(sp.block_height, 1);
        },
        _ => panic!("output 0 was spent"),
    }
    assert!(matches!(statuses[1], SpendStatus::Unknown));
    let unspent = srv.tx_out_spends(&[0x22; 32], 1);
    assert!(matches!(unspent[0], SpendStatus::Unspent));
}

#[test]
fn coinbase_is_flagged() {
    let srv = two_block_server();
    let i = srv.tx_index(&[0x21; 32]).unwrap();
    assert!(srv.store.txs[i].meta.is_coinbase);
    let j = srv.tx_index(&[0x22; 32]).unwrap();
    assert!(!srv.store.txs[j].meta.is_coinbase);
}

#[test]
fn hex_round_trip_of_a_hash() {
    let mut h = [0u8; 32];
    for (i, b) in h.iter_mut().enumerate() {
        *b = i as u8;
    }
    let text = to_le_hex(&h);
    // display order is byte-reversed, so the last byte renders first
    assert!(text.starts_with("1f1e1d"));
    assert_eq!(text.len(), 64);
    let back = from_le_hex(text.as_bytes()).expect("round trip");
    assert_eq!(back, h);
}

#[test]
fn bad_hex_hashes_are_rejected() {
    assert!(from_le_hex(b"12").is_none());
    let mut s = vec![b'a'; 63];
    s.push(b'g');
    assert!(from_le_hex(s.as_slice()).is_none());
}

#[test]
fn sync_machine_walks_fetch_apply_and_reorg() {
    let (st, act) = sync_step(SyncState::Behind, SyncEvent::TipSeen { best_height: 10 }, 3);
    assert_eq!(st, SyncState::Fetching { next_height: 3 });
    assert_eq!(act, SyncAction::FetchBlock { height: 3 });
    let (st, act) = sync_step(st, SyncEvent::BlockFetched { height: 3 }, 3);
    assert_eq!(st, SyncState::Applying { height: 3 });
    assert_eq!(act, SyncAction::ApplyFetched);
    let (st, act) = sync_step(st, SyncEvent::BlockApplied { height: 3 }, 4);
    assert_eq!(st, SyncState::Behind);
    assert_eq!(act, SyncAction::Wait);
    let (st, act) = sync_step(st, SyncEvent::ReorgSignal { ancestor: 1 }, 4);
    assert_eq!(st, SyncState::Reorganizing { ancestor: 1 });
    assert_eq!(act, SyncAction::UndoBlock);
    let (st, act) = sync_step(st, SyncEvent::UndoneTo { next_height: 3 }, 3);
    assert_eq!(st, SyncState::Reorganizing { ancestor: 1 });
    assert_eq!(act, SyncAction::UndoBlock);
    let (st, act) = sync_step(st, SyncEvent::UndoneTo { next_height: 1 }, 1);
    assert_eq!(st, SyncState::Behind);
    assert_eq!(act, SyncAction::Wait);
    let (st, act) = sync_step(SyncState::Fetching { next_height: 5 }, SyncEvent::UpstreamError, 5);
    assert_eq!(st, SyncState::Behind);
    assert_eq!(act, SyncAction::Wait);
}

#[test]
fn address_history_orders_by_occurrence() {
    let srv = two_block_server();
    let mut key1 = vec![0u8];
    key1.extend_from_slice(&[1u8; 20]);
    let hist = srv.address_history(&key1);
    assert_eq!(hist.len(), 2);
    assert_eq!(hist[0].block_height, 0);
    assert_eq!(hist[0].delta_sats, 5000);
    assert_eq!(hist[1].block_height, 1);
    assert_eq!(hist[1].delta_sats, -5000);
}
