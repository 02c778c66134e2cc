use explorer_index::ingest::{apply_block, undo_block, ApplyOutcome, BlockData, IngestError, InputData, OutputData, TxData};
use explorer_index::primitives::{SlpAction, TxMetaVariant};
use explorer_index::script::{destination_from_script, AddrPrefix, AddressType, Destination};
use explorer_index::slp::{classify, parse_slp, SlpParse, SlpTokenInput};
use explorer_index::store::Store;

fn p2pkh_script(h: u8) -> Vec<u8> {
    let mut s = vec![0x76u8, 0xa9, 0x14];
    for _ in 0..20 {
        s.push(h);
    }
    s.push(0x88);
    s.push(0xac);
    s
}

fn addr_key_of(h: u8) -> Vec<u8> {
    let mut k = vec![0u8];
    for _ in 0..20 {
        k.push(h);
    }
    k
}

fn slp_genesis_script(ticker: &[u8], qty: u64) -> Vec<u8> {
    let mut s = vec![0x6au8];
    // lokad id
    s.extend_from_slice(&[0x04, 0x53, 0x4c, 0x50, 0x00]);
    // token type 1
    s.extend_from_slice(&[0x01, 0x01]);
    // GENESIS
    s.extend_from_slice(&[0x07, 0x47, 0x45, 0x4e, 0x45, 0x53, 0x49, 0x53]);
    // ticker
    s.push(ticker.len() as u8);
    s.extend_from_slice(ticker);
    // name (empty), document url (empty), document hash (empty)
    s.extend_from_slice(&[0x4c, 0x00]);
    s.extend_from_slice(&[0x4c, 0x00]);
    s.extend_from_slice(&[0x4c, 0x00]);
    // decimals
    s.extend_from_slice(&[0x01, 0x00]);
    // no mint baton
    s.extend_from_slice(&[0x4c, 0x00]);
    // initial quantity
    s.push(0x08);
    s.extend_from_slice(&qty.to_be_bytes());
    s
}

fn slp_send_script(token_id: &[u8; 32], amounts: &[u64]) -> Vec<u8> {
    let mut s = vec![0x6au8];
    s.extend_from_slice(&[0x04, 0x53, 0x4c, 0x50, 0x00]);
    s.extend_from_slice(&[0x01, 0x01]);
    s.extend_from_slice(&[0x04, 0x53, 0x45, 0x4e, 0x44]);
    s.push(32);
    s.extend_from_slice(token_id);
    for a in amounts {
        s.push(8);
        s.extend_from_slice(&a.to_be_bytes());
    }
    s
}

fn coinbase_tx(hash_byte: u8, pay_to: u8, sats: i64) -> TxData {
    TxData {
        hash: [hash_byte; 32],
        version: 1,
        lock_time: 0,
        size: 100,
        inputs: vec![InputData {
            outpoint_tx_hash: [0u8; 32],
            outpoint_out_idx: 0xffff_ffff,
            signature_script: vec![0x03, 0x01, 0x02, 0x03],
            sequence: 0xffff_ffff,
        }],
        outputs: vec![OutputData { sats_value: sats, pubkey_script: p2pkh_script(pay_to) }],
    }
}

fn block_at(height: i32, hash_byte: u8, prev: [u8; 32], txs: Vec<TxData>) -> BlockData {
    BlockData {
        hash: [hash_byte; 32],
        version: 1,
        previous_block: prev,
        merkle_root: [0u8; 32],
        timestamp: 1_600_000_000 + height as i64,
        bits: 0x1d00ffff,
        nonce: 42,
        size: 1000,
        median_time: 1_600_000_000,
        height,
        txs,
    }
}

#[test]
fn empty_script_decodes_to_unknown() {
    let d = destination_from_script(AddrPrefix::BaseCurrency, &[]);
    assert!(matches!(d, Destination::Unknown(b) if b.is_empty()));
}

#[test]
fn p2pkh_script_decodes_to_address() {
    let s = p2pkh_script(7);
    let d = destination_from_script(AddrPrefix::BaseCurrency, s.as_slice());
    match d {
        Destination::Address { prefix, kind, hash } => {
            assert_eq!(prefix, AddrPrefix::BaseCurrency);
            assert_eq!(kind, AddressType::P2PKH);
            assert_eq!(hash, vec![7u8; 20]);
        },
        _ => panic!("expected an address"),
    }
}

#[test]
fn p2sh_script_decodes_to_address() {
    let mut s = vec![0xa9u8, 0x14];
    s.extend_from_slice(&[9u8; 20]);
    s.push(0x87);
    let d = destination_from_script(AddrPrefix::Token, s.as_slice());
    match d {
        Destination::Address { prefix, kind, hash } => {
            assert_eq!(prefix, AddrPrefix::Token);
            assert_eq!(kind, AddressType::P2SH);
            assert_eq!(hash, vec![9u8; 20]);
        },
        _ => panic!("expected an address"),
    }
}

#[test]
fn op_return_script_decodes_to_nulldata() {
    let d = destination_from_script(AddrPrefix::BaseCurrency, &[0x6a, 0x01, 0x02]);
    assert!(matches!(d, Destination::Nulldata(b) if b == vec![0x01u8, 0x02]));
}

#[test]
fn malformed_p2pkh_degrades_to_unknown() {
    let mut s = p2pkh_script(7);
    s.pop();
    let d = destination_from_script(AddrPrefix::BaseCurrency, s.as_slice());
    assert!(matches!(d, Destination::Unknown(_)));
}

#[test]
fn genesis_message_parses() {
    let s = slp_genesis_script(b"FOO", 1000);
    match parse_slp(s.as_slice()) {
        SlpParse::Valid(m) => {
            assert_eq!(m.ticker, b"FOO".to_vec());
            assert_eq!(m.qty, 1000);
            assert!(matches!(m.action, SlpAction::SlpV1Genesis));
            assert_eq!(m.decimals, 0);
            assert!(m.baton_vout.is_none());
        },
        _ => panic!("expected a valid message"),
    }
}

#[test]
fn truncated_genesis_is_invalid() {
    let mut s = slp_genesis_script(b"FOO", 1000);
    // drop the quantity field: still an SLP marker, no longer well-formed
    for _ in 0..9 {
        s.pop();
    }
    assert!(matches!(parse_slp(s.as_slice()), SlpParse::Invalid { .. }));
}

#[test]
fn non_slp_op_return_is_not_slp() {
    assert!(matches!(parse_slp(&[0x6a, 0x01, 0x99]), SlpParse::NotSlp));
    assert!(matches!(parse_slp(&[]), SlpParse::NotSlp));
}

#[test]
fn underfunded_send_is_valid_with_burn() {
    let tid = [3u8; 32];
    let s = slp_send_script(&tid, &[60]);
    let parse = parse_slp(s.as_slice());
    let inputs = vec![SlpTokenInput { token_id: Some(tid), amount: 100, is_mint_baton: false }];
    let v = classify(&parse, &inputs, &[9u8; 32]);
    match v {
        TxMetaVariant::Slp { token_input, token_output, token_id, action } => {
            assert_eq!(token_input, 100);
            assert_eq!(token_output, 60);
            assert_eq!(token_id, tid);
            assert!(matches!(action, SlpAction::SlpV1Send));
        },
        _ => panic!("expected a valid token transaction"),
    }
}

#[test]
fn overfunded_send_is_invalid() {
    let tid = [3u8; 32];
    let s = slp_send_script(&tid, &[150]);
    let parse = parse_slp(s.as_slice());
    let inputs = vec![SlpTokenInput { token_id: Some(tid), amount: 100, is_mint_baton: false }];
    let v = classify(&parse, &inputs, &[9u8; 32]);
    match v {
        TxMetaVariant::InvalidSlp { token_id, token_input } => {
            assert_eq!(token_id, tid.to_vec());
            assert_eq!(token_input, 100);
        },
        _ => panic!("expected the invalid variant"),
    }
}

#[test]
fn plain_transaction_is_sats_only() {
    let parse = parse_slp(p2pkh_script(4).as_slice());
    let v = classify(&parse, &Vec::new(), &[9u8; 32]);
    assert!(matches!(v, TxMetaVariant::SatsOnly));
}

#[test]
fn apply_then_undo_restores_the_store() {
    let mut a = Store::new();
    let b0 = block_at(0, 0x10, [0u8; 32], vec![coinbase_tx(0x21, 1, 5000)]);
    let b1 = block_at(1, 0x11, [0x10; 32], vec![coinbase_tx(0x22, 2, 5000)]);
    assert!(matches!(apply_block(&mut a, &b0), Ok(ApplyOutcome::Applied)));
    let after_first = format!("{:?}", a);
    assert!(matches!(apply_block(&mut a, &b1), Ok(ApplyOutcome::Applied)));
    assert!(undo_block(&mut a).is_ok());
    assert_eq!(format!("{:?}", a), after_first);
}

#[test]
fn reingesting_an_applied_height_is_a_no_op() {
    let mut s = Store::new();
    let b0 = block_at(0, 0x10, [0u8; 32], vec![coinbase_tx(0x21, 1, 5000)]);
    assert!(matches!(apply_block(&mut s, &b0), Ok(ApplyOutcome::Applied)));
    let snapshot = format!("{:?}", s);
    assert!(matches!(apply_block(&mut s, &b0), Ok(ApplyOutcome::AlreadyKnown)));
    assert_eq!(format!("{:?}", s), snapshot);
}

#[test]
fn gapped_height_is_rejected() {
    let mut s = Store::new();
    let b5 = block_at(5, 0x10, [0u8; 32], vec![]);
    assert_eq!(apply_block(&mut s, &b5), Err(IngestError::HeightGap));
    assert_eq!(s.blocks.len(), 0);
}

#[test]
fn parent_mismatch_is_rejected() {
    let mut s = Store::new();
    let b0 = block_at(0, 0x10, [0u8; 32], vec![]);
    assert!(matches!(apply_block(&mut s, &b0), Ok(ApplyOutcome::Applied)));
    let b1 = block_at(1, 0x11, [0x77; 32], vec![]);
    assert_eq!(apply_block(&mut s, &b1), Err(IngestError::ParentMismatch));
}

#[test]
fn negative_output_value_is_rejected() {
    let mut s = Store::new();
    let b0 = block_at(0, 0x10, [0u8; 32], vec![coinbase_tx(0x21, 1, -1)]);
    assert_eq!(apply_block(&mut s, &b0), Err(IngestError::InvalidBlock));
}

#[test]
fn undo_on_empty_store_has_nothing_to_undo() {
    let mut s = Store::new();
    assert_eq!(undo_block(&mut s), Err(IngestError::NothingToUndo));
}

#[test]
fn conservation_across_spend() {
    // block 0 pays address 1; block 1 spends it to address 2
    let mut s = Store::new();
    let b0 = block_at(0, 0x10, [0u8; 32], vec![coinbase_tx(0x21, 1, 5000)]);
    assert!(matches!(apply_block(&mut s, &b0), Ok(ApplyOutcome::Applied)));
    let spend = TxData {
        hash: [0x22; 32],
        version: 1,
        lock_time: 0,
        size: 200,
        inputs: vec![InputData {
            outpoint_tx_hash: [0x21; 32],
            outpoint_out_idx: 0,
            signature_script: vec![],
            sequence: 0,
        }],
        outputs: vec![OutputData { sats_value: 5000, pubkey_script: p2pkh_script(2) }],
    };
    let b1 = block_at(1, 0x11, [0x10; 32], vec![coinbase_tx(0x23, 3, 5000), spend]);
    assert!(matches!(apply_block(&mut s, &b1), Ok(ApplyOutcome::Applied)));
    let srv = explorer_index::server::Server::new(s);
    // address 1 spent everything: ledger sums to zero, no live groups
    let hist1 = srv.address_history(&addr_key_of(1));
    let sum1: i64 = hist1.iter().map(|e| e.delta_sats).sum();
    assert_eq!(sum1, 0);
    assert_eq!(srv.address_balance(&addr_key_of(1)).len(), 0);
    // address 2 holds the 5000
    let groups = srv.address_balance(&addr_key_of(2));
    assert_eq!(groups.len(), 1);
    assert!(groups[0].token_id.is_none());
    assert_eq!(groups[0].sats_amount, 5000);
    let hist2 = srv.address_history(&addr_key_of(2));
    let sum2: i64 = hist2.iter().map(|e| e.delta_sats).sum();
    assert_eq!(sum2, 5000);
}

#[test]
fn genesis_block_at_high_height_indexes_the_token() {
    // a store opened behind an already-synced upstream, at height 500000
    let mut s = Store::new_at(500_000);
    let genesis_tx = TxData {
        hash: [0x44; 32],
        version: 1,
        lock_time: 0,
        size: 300,
        inputs: vec![InputData {
            outpoint_tx_hash: [0x01; 32],
            outpoint_out_idx: 0,
            signature_script: vec![],
            sequence: 0,
        }],
        outputs: vec![
            OutputData { sats_value: 0, pubkey_script: slp_genesis_script(b"FOO", 21_000) },
            OutputData { sats_value: 546, pubkey_script: p2pkh_script(1) },
        ],
    };
    let b = block_at(500_000, 0x50, [0u8; 32], vec![coinbase_tx(0x43, 9, 625_000_000), genesis_tx]);
    assert!(matches!(apply_block(&mut s, &b), Ok(ApplyOutcome::Applied)));
    assert_eq!(s.blocks[0].num_txs, 2);
    let srv = explorer_index::server::Server::new(s);
    let idx = srv.token_index(&[0x44; 32]).expect("token metadata must exist");
    assert_eq!(srv.store.tokens[idx].meta.token_ticker, b"FOO".to_vec());
    assert_eq!(srv.store.tokens.len(), 1);
    // no live output carries any other token id
    for e in srv.store.utxos.iter() {
        if let Some(tid) = e.token_id {
            assert_eq!(tid, [0x44; 32]);
        }
    }
}

#[test]
fn balance_groups_order_base_then_descending_height() {
    // base-currency group first, then tokens at heights 100 and 50
    let mut s = Store::new_at(50);
    let mut prev = [0u8; 32];
    for h in 50..=100i32 {
        let mut txs = vec![coinbase_tx(h as u8, 200, 5000)];
        if h == 50 || h == 100 {
            let marker = if h == 50 { 0x61 } else { 0x62 };
            txs.push(TxData {
                hash: [marker; 32],
                version: 1,
                lock_time: 0,
                size: 300,
                inputs: vec![InputData {
                    outpoint_tx_hash: [0x01; 32],
                    outpoint_out_idx: 0,
                    signature_script: vec![],
                    sequence: 0,
                }],
                outputs: vec![
                    OutputData { sats_value: 0, pubkey_script: slp_genesis_script(b"T", 10) },
                    OutputData { sats_value: 546, pubkey_script: p2pkh_script(7) },
                ],
            });
            txs.push(coinbase_tx(marker + 0x10, 7, 1000));
        }
        let b = block_at(h, h as u8 + 1, prev, txs);
        prev = [h as u8 + 1; 32];
        assert!(matches!(apply_block(&mut s, &b), Ok(ApplyOutcome::Applied)));
    }
    let srv = explorer_index::server::Server::new(s);
    let groups = srv.address_balance(&addr_key_of(7));
    assert_eq!(groups.len(), 3);
    assert!(groups[0].token_id.is_none());
    assert_eq!(groups[1].token_id, Some([0x62; 32]));
    assert_eq!(groups[1].utxos[0].utxo.block_height, 100);
    assert_eq!(groups[2].token_id, Some([0x61; 32]));
    assert_eq!(groups[2].utxos[0].utxo.block_height, 50);
}

#[test]
fn contiguous_heights_and_parent_links() {
    let mut s = Store::new();
    let b0 = block_at(0, 0x10, [0u8; 32], vec![]);
    let b1 = block_at(1, 0x11, [0x10; 32], vec![]);
    let b2 = block_at(2, 0x12, [0x11; 32], vec![]);
    assert!(matches!(apply_block(&mut s, &b0), Ok(ApplyOutcome::Applied)));
    assert!(matches!(apply_block(&mut s, &b1), Ok(ApplyOutcome::Applied)));
    assert!(matches!(apply_block(&mut s, &b2), Ok(ApplyOutcome::Applied)));
    for (i, b) in s.blocks.iter().enumerate() {
        assert_eq!(b.height, i as i32);
        if i > 0 {
            assert_eq!(b.previous_block, s.blocks[i - 1].hash);
        }
    }
}

fn slp_mint_script(token_id: &[u8; 32], qty: u64) -> Vec<u8> {
    let mut s = vec![0x6au8];
    s.extend_from_slice(&[0x04, 0x53, 0x4c, 0x50, 0x00]);
    s.extend_from_slice(&[0x01, 0x01]);
    s.extend_from_slice(&[0x04, 0x4d, 0x49, 0x4e, 0x54]);
    s.push(32);
    s.extend_from_slice(token_id);
    // keep the baton on output 2
    s.extend_from_slice(&[0x01, 0x02]);
    s.push(8);
    s.extend_from_slice(&qty.to_be_bytes());
    s
}

#[test]
fn mint_with_baton_is_valid() {
    let tid = [5u8; 32];
    let parse = parse_slp(slp_mint_script(&tid, 777).as_slice());
    let inputs = vec![SlpTokenInput { token_id: Some(tid), amount: 0, is_mint_baton: true }];
    let v = classify(&parse, &inputs, &[9u8; 32]);
    match v {
        TxMetaVariant::Slp { token_output, token_id, action, .. } => {
            assert_eq!(token_output, 777);
            assert_eq!(token_id, tid);
            assert!(matches!(action, SlpAction::SlpV1Mint));
        },
        _ => panic!("expected a valid mint"),
    }
}

#[test]
fn mint_without_baton_is_invalid() {
    let tid = [5u8; 32];
    let parse = parse_slp(slp_mint_script(&tid, 777).as_slice());
    let inputs = vec![SlpTokenInput { token_id: Some(tid), amount: 40, is_mint_baton: false }];
    let v = classify(&parse, &inputs, &[9u8; 32]);
    match v {
        TxMetaVariant::InvalidSlp { token_id, token_input } => {
            assert_eq!(token_id, tid.to_vec());
            assert_eq!(token_input, 40);
        },
        _ => panic!("expected the invalid variant"),
    }
}
