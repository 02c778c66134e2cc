//! The index store: derived records for the active chain, held in four
//! families keyed by height, transaction hash, address and token id. All
//! writes belonging to one block are applied by one ingestion call and
//! retracted by one reorganization call, so readers between calls always see
//! a consistent snapshot.

use vstd::prelude::*;

use crate::primitives::{AddressTx, BlockMeta, TokenMeta, Tx, TxMeta, TxOutSpend};

verus! {

/// One output the chain created: its position, script, values, token
/// assignment, and — once a later block consumes it — its spend record.
/// The live UTXO set is exactly the entries with `spent == None`.
#[derive(Debug, Clone)]
pub struct UtxoEntry {
    pub tx_hash: [u8; 32],
    pub out_idx: u32,
    /// Address index key of the output script, if it decodes to one.
    pub addr: Option<Vec<u8>>,
    pub script: Vec<u8>,
    pub sats: i64,
    pub token_amount: u64,
    pub is_mint_baton: bool,
    pub is_coinbase: bool,
    /// Height of the block that created the output.
    pub height: i32,
    pub token_id: Option<[u8; 32]>,
    pub spent: Option<TxOutSpend>,
}

/// A stored transaction with its derived record.
#[derive(Debug, Clone)]
pub struct TxRecord {
    pub hash: [u8; 32],
    pub tx: Tx,
    pub meta: TxMeta,
}

/// Token metadata with the height of its genesis block.
#[derive(Debug, Clone)]
pub struct TokenRecord {
    pub token_id: [u8; 32],
    pub meta: TokenMeta,
    pub block_height: i32,
}

/// One address-history ledger entry.
#[derive(Debug, Clone)]
pub struct AddressTxRecord {
    pub addr: Vec<u8>,
    pub tx_hash: [u8; 32],
    pub entry: AddressTx,
}

/// The persistent index. Every family is append-ordered by block height, so
/// one block's records form a suffix and a reorganization step can retract
/// exactly them.
#[derive(Debug)]
pub struct Store {
    /// Height of the first indexed block; `blocks[i]` has height
    /// `base_height + i`.
    pub base_height: i32,
    pub blocks: Vec<BlockMeta>,
    pub txs: Vec<TxRecord>,
    pub utxos: Vec<UtxoEntry>,
    pub addr_txs: Vec<AddressTxRecord>,
    pub tokens: Vec<TokenRecord>,
}

/// Height of the next block the store expects.
pub open spec fn spec_next_height(s: Store) -> int {
    s.base_height + s.blocks@.len()
}

/// What one live base-currency entry of address `a` contributes to its
/// balance.
pub open spec fn entry_base_sats(e: UtxoEntry, a: Seq<u8>) -> int {
    if e.spent is None && e.token_id is None && (e.addr matches Some(k) && k@ == a) {
        e.sats as int
    } else {
        0
    }
}

/// Sum of the live base-currency amounts held by address `a`.
pub open spec fn utxo_base_sats(u: Seq<UtxoEntry>, a: Seq<u8>) -> int
    decreases u.len(),
{
    if u.len() == 0 {
        0
    } else {
        utxo_base_sats(u.drop_last(), a) + entry_base_sats(u.last(), a)
    }
}

/// Running sum of address `a`'s ledger deltas.
pub open spec fn ledger_sats(l: Seq<AddressTxRecord>, a: Seq<u8>) -> int
    decreases l.len(),
{
    if l.len() == 0 {
        0
    } else {
        ledger_sats(l.drop_last(), a) + (if l.last().addr@ == a {
            l.last().entry.delta_sats as int
        } else {
            0
        })
    }
}

/// Sum of all stored output values, spent or live.
pub open spec fn total_sats(u: Seq<UtxoEntry>) -> int
    decreases u.len(),
{
    if u.len() == 0 {
        0
    } else {
        total_sats(u.drop_last()) + u.last().sats
    }
}

/// Sum of the live output values.
pub open spec fn live_sats(u: Seq<UtxoEntry>) -> int
    decreases u.len(),
{
    if u.len() == 0 {
        0
    } else {
        live_sats(u.drop_last()) + (if u.last().spent is None {
            u.last().sats as int
        } else {
            0
        })
    }
}

/// The conservation invariant: for every address, the live base-currency
/// holdings equal the running sum of its ledger deltas.
pub open spec fn balanced(s: Store) -> bool {
    forall|a: Seq<u8>| #[trigger] utxo_base_sats(s.utxos@, a) == ledger_sats(s.addr_txs@, a)
}

/// Well-formedness of the store against an upper height bound `hi`: heights
/// are dense and linked from the base, every family is ordered by height and
/// stays below `hi`, spend marks point below `hi`, and value sums stay
/// within machine range. During ingestion of the block at height `hi - 1`
/// the bound runs one past the blocks already pushed.
pub open spec fn wf_upto(s: Store, hi: int) -> bool {
    let lo = s.base_height as int;
    &&& 0 <= lo
    &&& lo + s.blocks@.len() <= hi
    &&& hi <= i32::MAX
    &&& forall|i: int| 0 <= i < s.blocks@.len() ==> (#[trigger] s.blocks@[i]).height == lo + i
    &&& forall|i: int|
        1 <= i < s.blocks@.len() ==> (#[trigger] s.blocks@[i]).previous_block@ == s.blocks@[i
            - 1].hash@
    &&& forall|j: int|
        0 <= j < s.txs@.len() ==> lo <= (#[trigger] s.txs@[j]).meta.block_height < hi
    &&& forall|j: int, k: int|
        0 <= j < k < s.txs@.len() ==> s.txs@[j].meta.block_height <= s.txs@[k].meta.block_height
    &&& forall|j: int| 0 <= j < s.utxos@.len() ==> lo <= (#[trigger] s.utxos@[j]).height < hi
    &&& forall|j: int, k: int|
        0 <= j < k < s.utxos@.len() ==> s.utxos@[j].height <= s.utxos@[k].height
    &&& forall|j: int|
        0 <= j < s.utxos@.len() ==> ((#[trigger] s.utxos@[j]).spent matches Some(sp) ==> lo
            <= sp.block_height < hi)
    &&& forall|j: int| 0 <= j < s.utxos@.len() ==> (#[trigger] s.utxos@[j]).sats >= 0
    &&& total_sats(s.utxos@) <= i64::MAX
    &&& forall|j: int|
        0 <= j < s.addr_txs@.len() ==> lo <= (#[trigger] s.addr_txs@[j]).entry.block_height < hi
    &&& forall|j: int, k: int|
        0 <= j < k < s.addr_txs@.len() ==> s.addr_txs@[j].entry.block_height
            <= s.addr_txs@[k].entry.block_height
    &&& forall|j: int|
        0 <= j < s.tokens@.len() ==> lo <= (#[trigger] s.tokens@[j]).block_height < hi
    &&& forall|j: int, k: int|
        0 <= j < k < s.tokens@.len() ==> s.tokens@[j].block_height <= s.tokens@[k].block_height
}

/// Well-formedness of a store at rest: everything lies below the next
/// expected height.
pub open spec fn wf(s: Store) -> bool {
    wf_upto(s, spec_next_height(s))
}

impl Store {
    /// An empty store that will index from the genesis block.
    pub fn new() -> (s: Store)
        ensures
            wf(s),
            balanced(s),
            s.base_height == 0,
            s.blocks@.len() == 0,
            s.txs@.len() == 0,
            s.utxos@.len() == 0,
            s.addr_txs@.len() == 0,
            s.tokens@.len() == 0,
    {
        Store {
            base_height: 0,
            blocks: Vec::new(),
            txs: Vec::new(),
            utxos: Vec::new(),
            addr_txs: Vec::new(),
            tokens: Vec::new(),
        }
    }

    /// An empty store that will index from the given height, for a process
    /// that starts behind an already-synced upstream.
    pub fn new_at(base_height: i32) -> (s: Store)
        requires
            base_height >= 0,
        ensures
            wf(s),
            balanced(s),
            s.base_height == base_height,
            s.blocks@.len() == 0,
            s.txs@.len() == 0,
            s.utxos@.len() == 0,
            s.addr_txs@.len() == 0,
            s.tokens@.len() == 0,
    {
        Store {
            base_height,
            blocks: Vec::new(),
            txs: Vec::new(),
            utxos: Vec::new(),
            addr_txs: Vec::new(),
            tokens: Vec::new(),
        }
    }
}

/// First live entry for an outpoint, if the store holds one.
pub open spec fn spec_find_live(u: Seq<UtxoEntry>, h: Seq<u8>, idx: u32) -> Option<int>
    decreases u.len(),
{
    if u.len() == 0 {
        None
    } else {
        if u.first().spent is None && u.first().tx_hash@ == h && u.first().out_idx == idx {
            Some(0)
        } else {
            match spec_find_live(u.drop_first(), h, idx) {
                None => None,
                Some(j) => Some(j + 1),
            }
        }
    }
}

impl Store {
    /// Finds the live entry of an outpoint.
    pub fn find_live_utxo(&self, tx_hash: &[u8; 32], out_idx: u32) -> (r: Option<usize>)
        ensures
            match r {
                Some(j) => spec_find_live(self.utxos@, tx_hash@, out_idx) == Some(j as int) && 0
                    <= j < self.utxos@.len() && self.utxos@[j as int].spent is None
                    && self.utxos@[j as int].tx_hash@ == tx_hash@ && self.utxos@[j as int].out_idx
                    == out_idx,
                None => spec_find_live(self.utxos@, tx_hash@, out_idx) is None,
            },
    {
        let mut i: usize = 0;
        assert(self.utxos@.skip(0) =~= self.utxos@);
        while i < self.utxos.len()
            invariant
                0 <= i <= self.utxos@.len(),
                spec_find_live(self.utxos@, tx_hash@, out_idx) == (match spec_find_live(
                    self.utxos@.skip(i as int),
                    tx_hash@,
                    out_idx,
                ) {
                    None => None::<int>,
                    Some(j) => Some(j + i),
                }),
            decreases self.utxos@.len() - i,
        {
            let e = &self.utxos[i];
            proof {
                let tail = self.utxos@.skip(i as int);
                assert(tail.first() == self.utxos@[i as int]);
                assert(tail.drop_first() =~= self.utxos@.skip(i + 1));
            }
            if e.spent.is_none() && crate::bytes_eq(e.tx_hash.as_slice(), tx_hash.as_slice())
                && e.out_idx == out_idx {
                return Some(i);
            }
            i += 1;
        }
        assert(self.utxos@.skip(i as int) =~= Seq::<UtxoEntry>::empty());
        None
    }
}

/// How marking one entry spent, or appending one entry, moves each sum.
pub proof fn lemma_sums_update(u: Seq<UtxoEntry>, j: int, e: UtxoEntry, a: Seq<u8>)
    requires
        0 <= j < u.len(),
    ensures
        utxo_base_sats(u.update(j, e), a) == utxo_base_sats(u, a) - entry_base_sats(u[j], a)
            + entry_base_sats(e, a),
        total_sats(u.update(j, e)) == total_sats(u) - u[j].sats + e.sats,
        live_sats(u.update(j, e)) == live_sats(u) - (if u[j].spent is None {
            u[j].sats as int
        } else {
            0
        }) + (if e.spent is None {
            e.sats as int
        } else {
            0
        }),
    decreases u.len(),
{
    let v = u.update(j, e);
    if j == u.len() - 1 {
        assert(v.drop_last() =~= u.drop_last());
        assert(v.last() == e);
    } else {
        lemma_sums_update(u.drop_last(), j, e, a);
        assert(v.drop_last() =~= u.drop_last().update(j, e));
        assert(v.last() == u.last());
    }
}

/// Appending an entry adds exactly its own contribution to each sum.
pub proof fn lemma_sums_push(u: Seq<UtxoEntry>, e: UtxoEntry, a: Seq<u8>)
    ensures
        utxo_base_sats(u.push(e), a) == utxo_base_sats(u, a) + entry_base_sats(e, a),
        total_sats(u.push(e)) == total_sats(u) + e.sats,
        live_sats(u.push(e)) == live_sats(u) + (if e.spent is None {
            e.sats as int
        } else {
            0
        }),
{
    assert(u.push(e).drop_last() =~= u);
    assert(u.push(e).last() == e);
}

/// Appending a ledger record adds its delta to exactly its own address.
pub proof fn lemma_ledger_push(l: Seq<AddressTxRecord>, r: AddressTxRecord, a: Seq<u8>)
    ensures
        ledger_sats(l.push(r), a) == ledger_sats(l, a) + (if r.addr@ == a {
            r.entry.delta_sats as int
        } else {
            0
        }),
{
    assert(l.push(r).drop_last() =~= l);
    assert(l.push(r).last() == r);
}

/// Heights are contiguous from the genesis block: in a store synced from
/// height zero, the block at position `i` has height `i`, and every block
/// names its parent's hash, so heights run without gaps from 0 to the tip.
pub proof fn lemma_heights_contiguous(s: Store)
    requires
        wf(s),
        s.base_height == 0,
    ensures
        forall|i: int| 0 <= i < s.blocks@.len() ==> (#[trigger] s.blocks@[i]).height == i,
        forall|i: int|
            1 <= i < s.blocks@.len() ==> (#[trigger] s.blocks@[i]).previous_block@ == s.blocks@[i
                - 1].hash@,
{
}

/// With every stored value nonnegative, the live amounts cannot exceed the
/// total, and every address's base balance is within the live amounts.
pub proof fn lemma_sats_bounds(u: Seq<UtxoEntry>, a: Seq<u8>)
    requires
        forall|j: int| 0 <= j < u.len() ==> (#[trigger] u[j]).sats >= 0,
    ensures
        0 <= utxo_base_sats(u, a) <= live_sats(u) <= total_sats(u),
    decreases u.len(),
{
    if u.len() > 0 {
        lemma_sats_bounds(u.drop_last(), a);
    }
}

} // verus!
