//! Query facade: the read-only entry points the presentation layer calls.
//! Every method reads the store as it stands at call time and mutates
//! nothing; absence is a normal outcome and is answered with an optional or
//! empty result, never an error. Records are handed out by index into the
//! store's families, so that no copy weakens what the contracts pin down.

use vstd::prelude::*;

use crate::balance::{gather, group_sats, group_tokens, live_for, tid_eq, tid_match, BalanceGroup};
use crate::primitives::{AddressTx, TxOutSpend};
use crate::store::{wf, AddressTxRecord, Store, TokenRecord, TxRecord, UtxoEntry};

verus! {

/// The chain tip as currently indexed.
#[derive(Debug, Clone)]
pub struct ChainInfo {
    pub best_height: i32,
    pub best_hash: [u8; 32],
}

/// Spend status of one output.
#[derive(Debug, Clone)]
pub enum SpendStatus {
    /// The output is outside the indexed scope.
    Unknown,
    Unspent,
    SpentBy(TxOutSpend),
}

/// The query facade over the index store. The ingestion engine is the sole
/// writer of `store`; queries only read it.
pub struct Server {
    pub store: Store,
}

/// First transaction record with the given hash.
pub open spec fn spec_find_tx(txs: Seq<TxRecord>, h: Seq<u8>) -> Option<int>
    decreases txs.len(),
{
    if txs.len() == 0 {
        None
    } else if txs.first().hash@ == h {
        Some(0)
    } else {
        match spec_find_tx(txs.drop_first(), h) {
            None => None,
            Some(j) => Some(j + 1),
        }
    }
}

/// First token record with the given id.
pub open spec fn spec_find_token(ts: Seq<TokenRecord>, id: Seq<u8>) -> Option<int>
    decreases ts.len(),
{
    if ts.len() == 0 {
        None
    } else if ts.first().token_id@ == id {
        Some(0)
    } else {
        match spec_find_token(ts.drop_first(), id) {
            None => None,
            Some(j) => Some(j + 1),
        }
    }
}

/// First stored output with the given outpoint, spent or live.
pub open spec fn spec_find_outpoint(u: Seq<UtxoEntry>, h: Seq<u8>, idx: u32) -> Option<int>
    decreases u.len(),
{
    if u.len() == 0 {
        None
    } else if u.first().tx_hash@ == h && u.first().out_idx == idx {
        Some(0)
    } else {
        match spec_find_outpoint(u.drop_first(), h, idx) {
            None => None,
            Some(j) => Some(j + 1),
        }
    }
}

/// The ledger history of one address, in order of occurrence.
pub open spec fn spec_address_history(l: Seq<AddressTxRecord>, a: Seq<u8>) -> Seq<AddressTx>
    decreases l.len(),
{
    if l.len() == 0 {
        Seq::empty()
    } else {
        spec_address_history(l.drop_last(), a) + (if l.last().addr@ == a {
            seq![l.last().entry]
        } else {
            Seq::empty()
        })
    }
}

impl Server {
    /// A facade over a store.
    pub fn new(store: Store) -> (s: Server)
        ensures
            s.store == store,
    {
        Server { store }
    }

    /// The indexed chain tip, if any block is indexed.
    pub fn blockchain_info(&self) -> (r: Option<ChainInfo>)
        ensures
            match r {
                Some(ci) => self.store.blocks@.len() > 0 && ci.best_height
                    == self.store.blocks@.last().height && ci.best_hash@
                    == self.store.blocks@.last().hash@,
                None => self.store.blocks@.len() == 0,
            },
    {
        if self.store.blocks.len() == 0 {
            None
        } else {
            let last = &self.store.blocks[self.store.blocks.len() - 1];
            Some(ChainInfo { best_height: last.height, best_hash: last.hash })
        }
    }

    /// The index of the block at the given height; heights are dense, so
    /// this is a direct offset.
    pub fn block_index_by_height(&self, height: i32) -> (r: Option<usize>)
        requires
            wf(self.store),
        ensures
            match r {
                Some(i) => i < self.store.blocks@.len() && self.store.blocks@[i as int].height
                    == height,
                None => forall|i: int|
                    0 <= i < self.store.blocks@.len() ==> (#[trigger] self.store.blocks@[i]).height
                        != height,
            },
    {
        if height < self.store.base_height {
            return None;
        }
        let off = (height as i64) - (self.store.base_height as i64);
        if off >= self.store.blocks.len() as i64 {
            return None;
        }
        Some(off as usize)
    }

    /// The index of the block with the given hash.
    pub fn block_index_by_hash(&self, hash: &[u8; 32]) -> (r: Option<usize>)
        ensures
            match r {
                Some(i) => i < self.store.blocks@.len() && self.store.blocks@[i as int].hash@
                    == hash@,
                None => forall|i: int|
                    0 <= i < self.store.blocks@.len() ==> (#[trigger] self.store.blocks@[i]).hash@
                        != hash@,
            },
    {
        let mut i: usize = 0;
        while i < self.store.blocks.len()
            invariant
                0 <= i <= self.store.blocks@.len(),
                forall|j: int|
                    0 <= j < i ==> (#[trigger] self.store.blocks@[j]).hash@ != hash@,
            decreases self.store.blocks@.len() - i,
        {
            if crate::bytes_eq(self.store.blocks[i].hash.as_slice(), hash.as_slice()) {
                return Some(i);
            }
            i += 1;
        }
        None
    }

    /// The index of the transaction with the given hash.
    pub fn tx_index(&self, hash: &[u8; 32]) -> (r: Option<usize>)
        ensures
            match r {
                Some(i) => spec_find_tx(self.store.txs@, hash@) == Some(i as int) && i
                    < self.store.txs@.len() && self.store.txs@[i as int].hash@ == hash@,
                None => spec_find_tx(self.store.txs@, hash@) is None,
            },
    {
        let mut i: usize = 0;
        assert(self.store.txs@.skip(0) =~= self.store.txs@);
        while i < self.store.txs.len()
            invariant
                0 <= i <= self.store.txs@.len(),
                spec_find_tx(self.store.txs@, hash@) == (match spec_find_tx(
                    self.store.txs@.skip(i as int),
                    hash@,
                ) {
                    None => None::<int>,
                    Some(j) => Some(j + i),
                }),
            decreases self.store.txs@.len() - i,
        {
            proof {
                let tail = self.store.txs@.skip(i as int);
                assert(tail.first() == self.store.txs@[i as int]);
                assert(tail.drop_first() =~= self.store.txs@.skip(i + 1));
            }
            if crate::bytes_eq(self.store.txs[i].hash.as_slice(), hash.as_slice()) {
                return Some(i);
            }
            i += 1;
        }
        assert(self.store.txs@.skip(i as int) =~= Seq::<TxRecord>::empty());
        None
    }

    /// The indices of a block's transactions, in chain order.
    pub fn block_tx_indices(&self, height: i32) -> (r: Vec<usize>)
        ensures
            forall|k: int|
                0 <= k < r@.len() ==> (#[trigger] r@[k]) < self.store.txs@.len()
                    && self.store.txs@[r@[k] as int].meta.block_height == height,
            forall|k1: int, k2: int| 0 <= k1 < k2 < r@.len() ==> r@[k1] < r@[k2],
            forall|j: int|
                0 <= j < self.store.txs@.len() && (#[trigger] self.store.txs@[j]).meta.block_height
                    == height ==> exists|k: int| 0 <= k < r@.len() && r@[k] == j,
    {
        let mut out: Vec<usize> = Vec::new();
        let mut i: usize = 0;
        while i < self.store.txs.len()
            invariant
                0 <= i <= self.store.txs@.len(),
                forall|k: int|
                    0 <= k < out@.len() ==> (#[trigger] out@[k]) < i
                        && self.store.txs@[out@[k] as int].meta.block_height == height,
                forall|k1: int, k2: int| 0 <= k1 < k2 < out@.len() ==> out@[k1] < out@[k2],
                forall|j: int|
                    0 <= j < i && (#[trigger] self.store.txs@[j]).meta.block_height == height
                        ==> exists|k: int| 0 <= k < out@.len() && out@[k] == j,
            decreases self.store.txs@.len() - i,
        {
            let ghost pre = out@;
            if self.store.txs[i].meta.block_height == height {
                out.push(i);
                assert(out@[out@.len() - 1] == i);
            }
            proof {
                assert forall|j: int|
                    0 <= j < i + 1 && (#[trigger] self.store.txs@[j]).meta.block_height
                        == height implies exists|k: int| 0 <= k < out@.len() && out@[k] == j by {
                    if j < i {
                        let k = choose|k: int| 0 <= k < pre.len() && pre[k] == j;
                        assert(out@[k] == pre[k]);
                    } else {
                        assert(out@[out@.len() - 1] == j);
                    }
                }
            }
            i += 1;
        }
        out
    }

    /// The index of a token's metadata record.
    pub fn token_index(&self, token_id: &[u8; 32]) -> (r: Option<usize>)
        ensures
            match r {
                Some(i) => spec_find_token(self.store.tokens@, token_id@) == Some(i as int) && i
                    < self.store.tokens@.len() && self.store.tokens@[i as int].token_id@
                    == token_id@,
                None => spec_find_token(self.store.tokens@, token_id@) is None,
            },
    {
        let mut i: usize = 0;
        assert(self.store.tokens@.skip(0) =~= self.store.tokens@);
        while i < self.store.tokens.len()
            invariant
                0 <= i <= self.store.tokens@.len(),
                spec_find_token(self.store.tokens@, token_id@) == (match spec_find_token(
                    self.store.tokens@.skip(i as int),
                    token_id@,
                ) {
                    None => None::<int>,
                    Some(j) => Some(j + i),
                }),
            decreases self.store.tokens@.len() - i,
        {
            proof {
                let tail = self.store.tokens@.skip(i as int);
                assert(tail.first() == self.store.tokens@[i as int]);
                assert(tail.drop_first() =~= self.store.tokens@.skip(i + 1));
            }
            if crate::bytes_eq(self.store.tokens[i].token_id.as_slice(), token_id.as_slice()) {
                return Some(i);
            }
            i += 1;
        }
        assert(self.store.tokens@.skip(i as int) =~= Seq::<TokenRecord>::empty());
        None
    }

    /// Batched token lookup: one index per requested id.
    pub fn tokens(&self, ids: &Vec<[u8; 32]>) -> (r: Vec<Option<usize>>)
        ensures
            r@.len() == ids@.len(),
            forall|k: int|
                0 <= k < ids@.len() ==> (match #[trigger] r@[k] {
                    Some(i) => spec_find_token(self.store.tokens@, ids@[k]@) == Some(i as int) && i
                        < self.store.tokens@.len() && self.store.tokens@[i as int].token_id@
                        == ids@[k]@,
                    None => spec_find_token(self.store.tokens@, ids@[k]@) is None,
                }),
    {
        let mut out: Vec<Option<usize>> = Vec::new();
        let mut k: usize = 0;
        while k < ids.len()
            invariant
                0 <= k <= ids@.len(),
                out@.len() == k,
                forall|k2: int|
                    0 <= k2 < k ==> (match #[trigger] out@[k2] {
                        Some(i) => spec_find_token(self.store.tokens@, ids@[k2]@) == Some(i as int)
                            && i < self.store.tokens@.len()
                            && self.store.tokens@[i as int].token_id@ == ids@[k2]@,
                        None => spec_find_token(self.store.tokens@, ids@[k2]@) is None,
                    }),
            decreases ids@.len() - k,
        {
            let found = self.token_index(&ids[k]);
            out.push(found);
            k += 1;
        }
        out
    }

    /// Spend status of each of a transaction's first `n_out` outputs.
    /// Absence of the entry means the output is outside the indexed scope.
    pub fn tx_out_spends(&self, tx_hash: &[u8; 32], n_out: u32) -> (r: Vec<SpendStatus>)
        ensures
            r@.len() == n_out,
            forall|k: int|
                0 <= k < n_out ==> (match spec_find_outpoint(
                    self.store.utxos@,
                    tx_hash@,
                    k as u32,
                ) {
                    Some(j) => (match self.store.utxos@[j].spent {
                        Some(sp) => #[trigger] r@[k] matches SpendStatus::SpentBy(sp2) && sp2
                            == sp,
                        None => r@[k] is Unspent,
                    }),
                    None => r@[k] is Unknown,
                }),
    {
        let mut out: Vec<SpendStatus> = Vec::new();
        let mut k: u32 = 0;
        while k < n_out
            invariant
                0 <= k <= n_out,
                out@.len() == k,
                forall|k2: int|
                    0 <= k2 < k ==> (match spec_find_outpoint(
                        self.store.utxos@,
                        tx_hash@,
                        k2 as u32,
                    ) {
                        Some(j) => (match self.store.utxos@[j].spent {
                            Some(sp) => #[trigger] out@[k2] matches SpendStatus::SpentBy(sp2)
                                && sp2 == sp,
                            None => out@[k2] is Unspent,
                        }),
                        None => out@[k2] is Unknown,
                    }),
            decreases n_out - k,
        {
            let status = self.find_spend_status(tx_hash, k);
            out.push(status);
            proof {
                assert(out@[out@.len() - 1] == status);
                assert(forall|k2: int| 0 <= k2 < k ==> out@[k2] == out@.drop_last()[k2]);
            }
            k += 1;
        }
        out
    }

    /// Spend status of one output.
    fn find_spend_status(&self, tx_hash: &[u8; 32], out_idx: u32) -> (r: SpendStatus)
        ensures
            match spec_find_outpoint(self.store.utxos@, tx_hash@, out_idx) {
                Some(j) => (match self.store.utxos@[j].spent {
                    Some(sp) => r matches SpendStatus::SpentBy(sp2) && sp2 == sp,
                    None => r is Unspent,
                }),
                None => r is Unknown,
            },
    {
        let mut i: usize = 0;
        assert(self.store.utxos@.skip(0) =~= self.store.utxos@);
        while i < self.store.utxos.len()
            invariant
                0 <= i <= self.store.utxos@.len(),
                spec_find_outpoint(self.store.utxos@, tx_hash@, out_idx) == (match
                    spec_find_outpoint(self.store.utxos@.skip(i as int), tx_hash@, out_idx) {
                    None => None::<int>,
                    Some(j) => Some(j + i),
                }),
            decreases self.store.utxos@.len() - i,
        {
            proof {
                let tail = self.store.utxos@.skip(i as int);
                assert(tail.first() == self.store.utxos@[i as int]);
                assert(tail.drop_first() =~= self.store.utxos@.skip(i + 1));
            }
            let e = &self.store.utxos[i];
            if crate::bytes_eq(e.tx_hash.as_slice(), tx_hash.as_slice()) && e.out_idx == out_idx {
                return match &e.spent {
                    Some(sp) => SpendStatus::SpentBy(
                        TxOutSpend { by_tx_hash: sp.by_tx_hash, block_height: sp.block_height },
                    ),
                    None => SpendStatus::Unspent,
                };
            }
            i += 1;
        }
        assert(self.store.utxos@.skip(i as int) =~= Seq::<UtxoEntry>::empty());
        SpendStatus::Unknown
    }

    /// The address's ledger history, ordered by occurrence.
    pub fn address_history(&self, addr: &Vec<u8>) -> (r: Vec<AddressTx>)
        ensures
            r@ == spec_address_history(self.store.addr_txs@, addr@),
    {
        let mut out: Vec<AddressTx> = Vec::new();
        let mut i: usize = 0;
        proof {
            assert(self.store.addr_txs@.take(0) =~= Seq::<AddressTxRecord>::empty());
        }
        while i < self.store.addr_txs.len()
            invariant
                0 <= i <= self.store.addr_txs@.len(),
                out@ == spec_address_history(self.store.addr_txs@.take(i as int), addr@),
            decreases self.store.addr_txs@.len() - i,
        {
            proof {
                assert(self.store.addr_txs@.take(i + 1).drop_last() =~= self.store.addr_txs@.take(
                    i as int,
                ));
                assert(self.store.addr_txs@.take(i + 1).last() == self.store.addr_txs@[i as int]);
            }
            let rec = &self.store.addr_txs[i];
            if crate::bytes_eq(rec.addr.as_slice(), addr.as_slice()) {
                out.push(
                    AddressTx {
                        timestamp: rec.entry.timestamp,
                        block_height: rec.entry.block_height,
                        delta_sats: rec.entry.delta_sats,
                        delta_tokens: rec.entry.delta_tokens,
                    },
                );
                proof {
                    assert(out@ =~= out@.drop_last() + seq![self.store.addr_txs@[i as int].entry]);
                }
            } else {
                proof {
                    assert(out@ + Seq::<AddressTx>::empty() =~= out@);
                }
            }
            i += 1;
        }
        assert(self.store.addr_txs@.take(i as int) =~= self.store.addr_txs@);
        out
    }

    /// The address's balance summary: one group per token held live, plus
    /// the base-currency group, ordered for presentation.
    pub fn address_balance(&self, addr: &Vec<u8>) -> (r: Vec<BalanceGroup>)
        requires
            wf(self.store),
        ensures
            forall|i: int|
                0 <= i < r@.len() ==> {
                    let g = #[trigger] r@[i];
                    &&& g.utxos@ == gather(self.store.utxos@, addr@, g.token_id)
                    &&& g.sats_amount == group_sats(self.store.utxos@, addr@, g.token_id)
                    &&& g.token_amount == crate::slp::clamp_u64(
                        group_tokens(self.store.utxos@, addr@, g.token_id),
                    )
                },
            forall|i: int| 1 <= i < r@.len() ==> (#[trigger] r@[i]).token_id is Some
                && r@[i].utxos@.len() > 0,
            forall|i: int, j: int| 0 <= i < j < r@.len() ==> !tid_eq(
                (#[trigger] r@[i]).token_id,
                (#[trigger] r@[j]).token_id,
            ),
            forall|j: int|
                0 <= j < self.store.utxos@.len() && live_for(#[trigger] self.store.utxos@[j], addr@)
                    ==> exists|i: int|
                    0 <= i < r@.len() && tid_match(
                        self.store.utxos@[j],
                        (#[trigger] r@[i]).token_id,
                    ),
            forall|i: int, j: int|
                1 <= i < j < r@.len() ==> (#[trigger] r@[i]).utxos@[0].utxo.block_height >= (
                #[trigger] r@[j]).utxos@[0].utxo.block_height,
            forall|i: int, k1: int, k2: int|
                0 <= i < r@.len() && 0 <= k1 < k2 < r@[i].utxos@.len() ==> (
                #[trigger] r@[i].utxos@[k1]).utxo.block_height >= (
                #[trigger] r@[i].utxos@[k2]).utxo.block_height,
    {
        crate::balance::address_balance(&self.store, addr)
    }
}

} // verus!
