//! Core data model: blocks, transactions, token metadata, address ledger
//! entries and UTXO records as the index stores and serves them.

use vstd::prelude::*;

verus! {

/// Per-block record: header fields and derived aggregates. One per height on
/// the active chain; immutable unless the block is reorganized out.
#[derive(Debug, Clone)]
pub struct BlockMeta {
    pub hash: [u8; 32],
    pub height: i32,

    pub version: i32,
    pub previous_block: [u8; 32],
    pub merkle_root: [u8; 32],
    pub timestamp: i64,
    pub bits: u32,
    pub nonce: u32,

    pub total_sats_input: i64,
    pub total_sats_output: i64,

    pub median_time: i64,
    pub size: u64,
    pub num_txs: u64,
    pub coinbase_data: Vec<u8>,
}

/// Derived per-transaction record, assigned once at ingestion.
#[derive(Debug, Clone)]
pub struct TxMeta {
    pub block_height: i32,
    pub timestamp: i64,
    pub is_coinbase: bool,
    pub size: i32,
    pub num_inputs: u32,
    pub num_outputs: u32,
    pub sats_input: i64,
    pub sats_output: i64,
    pub variant: TxMetaVariant,
}

/// The token-protocol action a valid token transaction declares.
#[derive(Debug, Clone, Copy, PartialEq, Eq, Structural)]
pub enum SlpAction {
    SlpV1Genesis,
    SlpV1Mint,
    SlpV1Send,
    SlpNft1GroupGenesis,
    SlpNft1GroupMint,
    SlpNft1GroupSend,
    SlpNft1UniqueChildGenesis,
    SlpNft1UniqueChildSend,
}

/// Classification of a transaction against the token overlay protocol:
/// exactly one of plain, valid token, or invalid/burned token.
#[derive(Debug, Clone)]
pub enum TxMetaVariant {
    SatsOnly,
    Slp { action: SlpAction, token_input: u64, token_output: u64, token_id: [u8; 32] },
    InvalidSlp { token_id: Vec<u8>, token_input: u64 },
}

/// Mathematical image of a `TxMetaVariant`, with byte vectors as sequences.
pub enum TxMetaVariantV {
    SatsOnly,
    Slp { action: SlpAction, token_input: u64, token_output: u64, token_id: Seq<u8> },
    InvalidSlp { token_id: Seq<u8>, token_input: u64 },
}

impl View for TxMetaVariant {
    type V = TxMetaVariantV;

    open spec fn view(&self) -> TxMetaVariantV {
        match self {
            TxMetaVariant::SatsOnly => TxMetaVariantV::SatsOnly,
            TxMetaVariant::Slp { action, token_input, token_output, token_id } =>
                TxMetaVariantV::Slp {
                    action: *action,
                    token_input: *token_input,
                    token_output: *token_output,
                    token_id: token_id@,
                },
            TxMetaVariant::InvalidSlp { token_id, token_input } => TxMetaVariantV::InvalidSlp {
                token_id: token_id@,
                token_input: *token_input,
            },
        }
    }
}

/// Token summary handed to the presentation layer.
#[derive(Debug, Clone)]
pub struct Token {
    pub token_type: u32,
    pub token_ticker: Vec<u8>,
    pub token_name: Vec<u8>,
    pub decimals: u32,
    pub group_id: Option<[u8; 32]>,
}

/// A stored transaction: versioned inputs and outputs plus its position in
/// the chain.
#[derive(Debug, Clone)]
pub struct Tx {
    pub version: i32,
    pub inputs: Vec<TxInput>,
    pub outputs: Vec<TxOutput>,
    pub lock_time: u32,

    pub size: u64,
    pub timestamp: i64,
    pub block_height: i32,
    pub block_hash: [u8; 32],
}

/// A transaction input with the spent output's resolved script and values.
#[derive(Debug, Clone)]
pub struct TxInput {
    pub outpoint_tx_hash: [u8; 32],
    pub outpoint_out_idx: u32,
    pub signature_script: Vec<u8>,
    pub sequence: u32,
    pub sats_value: i64,
    pub previous_script: Vec<u8>,

    pub token_value: u64,
    pub is_mint_baton: bool,
}

/// A transaction output with its token assignment, if any.
#[derive(Debug, Clone)]
pub struct TxOutput {
    pub sats_value: i64,
    pub pubkey_script: Vec<u8>,

    pub token_value: u64,
    pub is_mint_baton: bool,
}

/// One ledger entry of an address's history: the signed value deltas one
/// transaction caused for that address. `delta_sats` tracks the base-currency
/// group (outputs that carry no token), `delta_tokens` the token amounts.
#[derive(Debug, Clone)]
pub struct AddressTx {
    pub timestamp: i64,
    pub block_height: i32,
    pub delta_sats: i64,
    pub delta_tokens: i64,
}

/// An unspent output as served to the presentation layer.
#[derive(Debug, Clone, Copy)]
pub struct Utxo {
    pub sats_amount: i64,
    pub token_amount: u64,
    pub is_coinbase: bool,
    pub block_height: i32,
    pub token_id: Option<[u8; 32]>,
}

/// Immutable token metadata, created at the token's genesis transaction and
/// keyed by its hash.
#[derive(Debug, Clone)]
pub struct TokenMeta {
    pub token_type: u32,
    pub token_ticker: Vec<u8>,
    pub token_name: Vec<u8>,
    pub token_document_url: Vec<u8>,
    pub token_document_hash: Vec<u8>,
    pub decimals: u32,
    pub group_id: Option<[u8; 32]>,
}

/// Records that a given output was spent, and by which transaction.
#[derive(Debug, Clone)]
pub struct TxOutSpend {
    pub by_tx_hash: [u8; 32],
    pub block_height: i32,
}

} // verus!
