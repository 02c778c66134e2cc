//! Ingestion and reorganization: applying one block's derived records to
//! the store as a unit, and retracting exactly one block's records again.
//! Application preserves well-formedness and the per-address conservation
//! invariant; retraction is the exact inverse of application.

use vstd::prelude::*;

use crate::primitives::{AddressTx, BlockMeta, SlpAction, TokenMeta, Tx, TxInput, TxMeta, TxMetaVariant, TxMetaVariantV, TxOutSpend, TxOutput};
use crate::slp::{SlpParseV, SlpTokenInput};
use crate::store::{
    balanced, entry_base_sats, ledger_sats, live_sats, spec_find_live, spec_next_height,
    total_sats, utxo_base_sats, wf, wf_upto, AddressTxRecord, Store, TokenRecord, TxRecord,
    UtxoEntry,
};

verus! {

/// A raw output as the upstream node hands it over.
#[derive(Debug, Clone)]
pub struct OutputData {
    pub sats_value: i64,
    pub pubkey_script: Vec<u8>,
}

/// A raw input as the upstream node hands it over.
#[derive(Debug, Clone)]
pub struct InputData {
    pub outpoint_tx_hash: [u8; 32],
    pub outpoint_out_idx: u32,
    pub signature_script: Vec<u8>,
    pub sequence: u32,
}

/// A raw transaction as the upstream node hands it over.
#[derive(Debug, Clone)]
pub struct TxData {
    pub hash: [u8; 32],
    pub version: i32,
    pub lock_time: u32,
    pub size: i32,
    pub inputs: Vec<InputData>,
    pub outputs: Vec<OutputData>,
}

/// A raw block as the upstream node hands it over.
#[derive(Debug, Clone)]
pub struct BlockData {
    pub hash: [u8; 32],
    pub version: i32,
    pub previous_block: [u8; 32],
    pub merkle_root: [u8; 32],
    pub timestamp: i64,
    pub bits: u32,
    pub nonce: u32,
    pub size: u64,
    pub median_time: i64,
    pub height: i32,
    pub txs: Vec<TxData>,
}

/// What applying a block reported.
#[derive(Debug, Clone, Copy, PartialEq, Eq, Structural)]
pub enum ApplyOutcome {
    Applied,
    /// The block's height was already applied: ingestion was a no-op.
    AlreadyKnown,
}

/// Why a block was rejected, or why there was nothing to undo.
#[derive(Debug, Clone, Copy, PartialEq, Eq, Structural)]
pub enum IngestError {
    /// The block's height leaves a gap above the stored tip.
    HeightGap,
    /// The block does not extend the stored tip.
    ParentMismatch,
    /// The block is structurally invalid (negative or oversized values,
    /// counts beyond machine range); fatal, surfaced to the caller.
    InvalidBlock,
    /// A reorganization step was asked of an empty store.
    NothingToUndo,
}

pub open spec fn outs_sats(os: Seq<OutputData>) -> int
    decreases os.len(),
{
    if os.len() == 0 {
        0
    } else {
        outs_sats(os.drop_last()) + os.last().sats_value
    }
}

pub open spec fn tx_out_sats(t: TxData) -> int {
    outs_sats(t.outputs@)
}

pub open spec fn txs_out_sats(ts: Seq<TxData>) -> int
    decreases ts.len(),
{
    if ts.len() == 0 {
        0
    } else {
        txs_out_sats(ts.drop_last()) + tx_out_sats(ts.last())
    }
}

pub open spec fn outs_nonneg(os: Seq<OutputData>) -> bool {
    forall|i: int| 0 <= i < os.len() ==> (#[trigger] os[i]).sats_value >= 0
}

pub open spec fn tx_counts_ok(t: TxData) -> bool {
    t.inputs@.len() <= u32::MAX && t.outputs@.len() <= u32::MAX
}

/// A block the store accepts: the next height, linked to the stored tip,
/// with nonnegative values whose total still fits beside the stored total.
pub open spec fn block_ok(s: Store, b: BlockData) -> bool {
    &&& b.height == spec_next_height(s)
    &&& spec_next_height(s) + 1 <= i32::MAX
    &&& (s.blocks@.len() > 0 ==> b.previous_block@ == s.blocks@.last().hash@)
    &&& forall|i: int|
        0 <= i < b.txs@.len() ==> outs_nonneg((#[trigger] b.txs@[i]).outputs@) && tx_counts_ok(
            b.txs@[i])
    &&& total_sats(s.utxos@) + txs_out_sats(b.txs@) <= i64::MAX
}

/// The token contents of everything a transaction spends, resolved against
/// a store snapshot: classification is pure with respect to this snapshot.
pub open spec fn spec_token_inputs(u: Seq<UtxoEntry>, ins: Seq<InputData>) -> Seq<SlpTokenInput> {
    Seq::new(
        ins.len(),
        |i: int|
            match spec_find_live(u, ins[i].outpoint_tx_hash@, ins[i].outpoint_out_idx) {
                Some(j) => SlpTokenInput {
                    token_id: u[j].token_id,
                    amount: u[j].token_amount,
                    is_mint_baton: u[j].is_mint_baton,
                },
                None => SlpTokenInput { token_id: None, amount: 0, is_mint_baton: false },
            },
    )
}

/// The protocol message a transaction carries, read from its first output.
pub open spec fn spec_tx_parse(t: TxData) -> SlpParseV {
    if t.outputs@.len() > 0 {
        crate::slp::spec_parse_slp(t.outputs@[0].pubkey_script@)
    } else {
        SlpParseV::NotSlp
    }
}

/// `e` with its spend mark replaced.
pub open spec fn spent_as(e: UtxoEntry, sp: Option<TxOutSpend>) -> UtxoEntry {
    UtxoEntry { spent: sp, ..e }
}

/// Entry `b` is entry `a`, except that applying the block at height `hgt`
/// may have spent it.
pub open spec fn same_except_spent_at(a: UtxoEntry, b: UtxoEntry, hgt: int) -> bool {
    ||| b == a
    ||| {
        &&& a.spent is None
        &&& b.spent matches Some(sp) && sp.block_height == hgt
        &&& b == spent_as(a, b.spent)
    }
}

/// Store `s1` extends `s0` with records of height `hgt` only: every family
/// keeps its existing records (inputs possibly marked spent at `hgt`) and
/// appends records carrying height `hgt`.
pub open spec fn families_extend(s0: Store, s1: Store, hgt: int) -> bool {
    &&& s1.base_height == s0.base_height
    &&& s1.blocks@ == s0.blocks@
    &&& s1.txs@.len() >= s0.txs@.len()
    &&& s1.txs@.take(s0.txs@.len() as int) == s0.txs@
    &&& forall|j: int|
        s0.txs@.len() <= j < s1.txs@.len() ==> (#[trigger] s1.txs@[j]).meta.block_height == hgt
    &&& s1.utxos@.len() >= s0.utxos@.len()
    &&& forall|j: int|
        0 <= j < s0.utxos@.len() ==> same_except_spent_at(
            s0.utxos@[j],
            #[trigger] s1.utxos@[j],
            hgt,
        )
    &&& forall|j: int|
        s0.utxos@.len() <= j < s1.utxos@.len() ==> (#[trigger] s1.utxos@[j]).height == hgt
    &&& s1.addr_txs@.len() >= s0.addr_txs@.len()
    &&& s1.addr_txs@.take(s0.addr_txs@.len() as int) == s0.addr_txs@
    &&& forall|j: int|
        s0.addr_txs@.len() <= j < s1.addr_txs@.len() ==> (
        #[trigger] s1.addr_txs@[j]).entry.block_height == hgt
    &&& s1.tokens@.len() >= s0.tokens@.len()
    &&& s1.tokens@.take(s0.tokens@.len() as int) == s0.tokens@
    &&& forall|j: int|
        s0.tokens@.len() <= j < s1.tokens@.len() ==> (#[trigger] s1.tokens@[j]).block_height == hgt
}

/// Extension composes.
pub proof fn lemma_families_extend_trans(s0: Store, s1: Store, s2: Store, hgt: int)
    requires
        families_extend(s0, s1, hgt),
        families_extend(s1, s2, hgt),
    ensures
        families_extend(s0, s2, hgt),
{
    assert(s2.txs@.take(s0.txs@.len() as int) =~= s2.txs@.take(s1.txs@.len() as int).take(
        s0.txs@.len() as int,
    ));
    assert(s2.addr_txs@.take(s0.addr_txs@.len() as int) =~= s2.addr_txs@.take(
        s1.addr_txs@.len() as int,
    ).take(s0.addr_txs@.len() as int));
    assert(s2.tokens@.take(s0.tokens@.len() as int) =~= s2.tokens@.take(
        s1.tokens@.len() as int,
    ).take(s0.tokens@.len() as int));
    assert forall|j: int| 0 <= j < s0.utxos@.len() implies same_except_spent_at(
        s0.utxos@[j],
        #[trigger] s2.utxos@[j],
        hgt,
    ) by {
        assert(same_except_spent_at(s0.utxos@[j], s1.utxos@[j], hgt));
        assert(same_except_spent_at(s1.utxos@[j], s2.utxos@[j], hgt));
    }
    assert forall|j: int| s0.txs@.len() <= j < s2.txs@.len() implies (
    #[trigger] s2.txs@[j]).meta.block_height == hgt by {
        if j < s1.txs@.len() {
            assert(s2.txs@.take(s1.txs@.len() as int)[j] == s2.txs@[j]);
        }
    }
    assert forall|j: int| s0.utxos@.len() <= j < s2.utxos@.len() implies (
    #[trigger] s2.utxos@[j]).height == hgt by {
        if j < s1.utxos@.len() {
            assert(same_except_spent_at(s1.utxos@[j], s2.utxos@[j], hgt));
        }
    }
    assert forall|j: int| s0.addr_txs@.len() <= j < s2.addr_txs@.len() implies (
    #[trigger] s2.addr_txs@[j]).entry.block_height == hgt by {
        if j < s1.addr_txs@.len() {
            assert(s2.addr_txs@.take(s1.addr_txs@.len() as int)[j] == s2.addr_txs@[j]);
        }
    }
    assert forall|j: int| s0.tokens@.len() <= j < s2.tokens@.len() implies (
    #[trigger] s2.tokens@[j]).block_height == hgt by {
        if j < s1.tokens@.len() {
            assert(s2.tokens@.take(s1.tokens@.len() as int)[j] == s2.tokens@[j]);
        }
    }
}

/// A value movement one transaction caused for one address: an output
/// created for it, or a previous output of its that was spent.
pub struct TouchedValue {
    pub addr: Option<Vec<u8>>,
    pub sats: i64,
    pub token: u64,
    /// Whether the output belongs to the base-currency group (it carries no
    /// token id).
    pub base: bool,
}

/// Base-currency amounts moved for address `a`.
pub open spec fn touched_base(items: Seq<TouchedValue>, a: Seq<u8>) -> int
    decreases items.len(),
{
    if items.len() == 0 {
        0
    } else {
        touched_base(items.drop_last(), a) + (if items.last().addr matches Some(k) && k@ == a
            && items.last().base {
            items.last().sats as int
        } else {
            0
        })
    }
}

/// Token amounts moved for address `a`.
pub open spec fn touched_tokens(items: Seq<TouchedValue>, a: Seq<u8>) -> int
    decreases items.len(),
{
    if items.len() == 0 {
        0
    } else {
        touched_tokens(items.drop_last(), a) + (if items.last().addr matches Some(k) && k@ == a {
            items.last().token as int
        } else {
            0
        })
    }
}

/// All amounts moved, address-indexed or not.
pub open spec fn touched_sats(items: Seq<TouchedValue>) -> int
    decreases items.len(),
{
    if items.len() == 0 {
        0
    } else {
        touched_sats(items.drop_last()) + items.last().sats
    }
}

/// Whether address `a` occurs in the list at all.
pub open spec fn occurs(items: Seq<TouchedValue>, a: Seq<u8>) -> bool {
    exists|i: int|
        0 <= i < items.len() && ((#[trigger] items[i]).addr matches Some(k) && k@ == a)
}

/// Per-address movements stay within the list's total.
pub proof fn lemma_touched_bounds(items: Seq<TouchedValue>, a: Seq<u8>)
    requires
        forall|i: int| 0 <= i < items.len() ==> (#[trigger] items[i]).sats >= 0,
    ensures
        0 <= touched_base(items, a) <= touched_sats(items),
        0 <= touched_tokens(items, a),
    decreases items.len(),
{
    if items.len() > 0 {
        lemma_touched_bounds(items.drop_last(), a);
    }
}

/// An address that occurs nowhere in the list moved nothing.
pub proof fn lemma_not_occurs(items: Seq<TouchedValue>, a: Seq<u8>)
    requires
        !occurs(items, a),
    ensures
        touched_base(items, a) == 0,
        touched_tokens(items, a) == 0,
    decreases items.len(),
{
    if items.len() > 0 {
        assert(!occurs(items.drop_last(), a)) by {
            if occurs(items.drop_last(), a) {
                let i = choose|i: int|
                    0 <= i < items.drop_last().len() && ((#[trigger] items.drop_last()[i]).addr
                        matches Some(k) && k@ == a);
                assert(items[i] == items.drop_last()[i]);
            }
        }
        lemma_not_occurs(items.drop_last(), a);
        assert(!(items.last().addr matches Some(k) && k@ == a)) by {
            if items.last().addr matches Some(k) && k@ == a {
                assert(items[items.len() - 1] == items.last());
            }
        }
    }
}

/// A blank entry, swapped in while an entry is being re-marked.
fn empty_entry() -> UtxoEntry {
    UtxoEntry {
        tx_hash: [0u8; 32],
        out_idx: 0,
        addr: None,
        script: Vec::new(),
        sats: 0,
        token_amount: 0,
        is_mint_baton: false,
        is_coinbase: false,
        height: 0,
        token_id: None,
        spent: None,
    }
}

/// Spends each input's live entry, marking it with the spending transaction
/// and collecting what was moved; builds the resolved input records.
#[verifier::rlimit(100)]
fn process_inputs(store: &mut Store, t: &TxData, hgt: i32) -> (r: (
    Vec<TxInput>,
    Vec<TouchedValue>,
    i64,
))
    requires
        wf_upto(*old(store), hgt + 1),
        t.inputs@.len() <= u32::MAX,
    ensures
        final(store).base_height == old(store).base_height,
        final(store).blocks@ == old(store).blocks@,
        final(store).txs@ == old(store).txs@,
        final(store).addr_txs@ == old(store).addr_txs@,
        final(store).tokens@ == old(store).tokens@,
        final(store).utxos@.len() == old(store).utxos@.len(),
        forall|j: int|
            0 <= j < final(store).utxos@.len() ==> same_except_spent_at(
                old(store).utxos@[j],
                #[trigger] final(store).utxos@[j],
                hgt as int,
            ),
        wf_upto(*final(store), hgt + 1),
        forall|a: Seq<u8>|
            #[trigger] utxo_base_sats(final(store).utxos@, a) == utxo_base_sats(old(store).utxos@, a)
                - touched_base(r.1@, a),
        total_sats(final(store).utxos@) == total_sats(old(store).utxos@),
        live_sats(final(store).utxos@) == live_sats(old(store).utxos@) - touched_sats(r.1@),
        touched_sats(r.1@) == r.2,
        0 <= r.2 <= total_sats(old(store).utxos@),
        forall|i: int| 0 <= i < r.1@.len() ==> (#[trigger] r.1@[i]).sats >= 0,
        r.0@.len() == t.inputs@.len(),
{
    let ghost u0 = store.utxos@;
    let mut tx_inputs: Vec<TxInput> = Vec::new();
    let mut spent: Vec<TouchedValue> = Vec::new();
    let mut sats_in: i64 = 0;
    let mut i: usize = 0;
    proof {
        crate::store::lemma_sats_bounds(u0, Seq::empty());
    }
    while i < t.inputs.len()
        invariant
            0 <= i <= t.inputs@.len(),
            store.base_height == old(store).base_height,
            store.blocks@ == old(store).blocks@,
            store.txs@ == old(store).txs@,
            store.addr_txs@ == old(store).addr_txs@,
            store.tokens@ == old(store).tokens@,
            u0 == old(store).utxos@,
            wf_upto(*old(store), hgt + 1),
            store.utxos@.len() == u0.len(),
            forall|j: int|
                0 <= j < u0.len() ==> same_except_spent_at(
                    u0[j],
                    #[trigger] store.utxos@[j],
                    hgt as int,
                ),
            forall|a: Seq<u8>|
                #[trigger] utxo_base_sats(store.utxos@, a) == utxo_base_sats(u0, a) - touched_base(
                    spent@,
                    a,
                ),
            total_sats(store.utxos@) == total_sats(u0),
            live_sats(store.utxos@) == live_sats(u0) - touched_sats(spent@),
            touched_sats(spent@) == sats_in,
            0 <= sats_in,
            forall|k: int| 0 <= k < spent@.len() ==> (#[trigger] spent@[k]).sats >= 0,
            tx_inputs@.len() == i,
        decreases t.inputs@.len() - i,
    {
        let inp = &t.inputs[i];
        match store.find_live_utxo(&inp.outpoint_tx_hash, inp.outpoint_out_idx) {
            Some(j) => {
                let ghost cur = store.utxos@;
                let mut tmp = empty_entry();
                core::mem::swap(&mut store.utxos[j], &mut tmp);
                // tmp is the live entry, exactly as stored
                proof {
                    assert(same_except_spent_at(u0[j as int], tmp, hgt as int));
                    assert(tmp == u0[j as int]);
                }
                let addr_touched: Option<Vec<u8>> = match &tmp.addr {
                    Some(k) => Some(crate::slp::clone_bytes(k)),
                    None => None,
                };
                let prev_script = crate::slp::clone_bytes(&tmp.script);
                let e_sats = tmp.sats;
                let e_token = tmp.token_amount;
                let e_baton = tmp.is_mint_baton;
                let e_is_base = tmp.token_id.is_none();
                let e2 = UtxoEntry {
                    spent: Some(TxOutSpend { by_tx_hash: t.hash, block_height: hgt }),
                    ..tmp
                };
                store.utxos[j] = e2;
                proof {
                    assert(store.utxos@ =~= cur.update(j as int, e2));
                    assert(e2 == spent_as(u0[j as int], e2.spent));
                    assert forall|a: Seq<u8>|
                        #[trigger] utxo_base_sats(store.utxos@, a) == utxo_base_sats(u0, a)
                            - touched_base(
                            spent@.push(
                                TouchedValue {
                                    addr: (match u0[j as int].addr {
                                        Some(k) => Some(k),
                                        None => None,
                                    }),
                                    sats: e_sats,
                                    token: e_token,
                                    base: e_is_base,
                                },
                            ),
                            a,
                        ) by {
                        crate::store::lemma_sums_update(cur, j as int, e2, a);
                        assert(spent@.push(
                            TouchedValue {
                                addr: (match u0[j as int].addr {
                                    Some(k) => Some(k),
                                    None => None,
                                }),
                                sats: e_sats,
                                token: e_token,
                                base: e_is_base,
                            },
                        ).drop_last() =~= spent@);
                    }
                    crate::store::lemma_sums_update(cur, j as int, e2, Seq::empty());
                    crate::store::lemma_sats_bounds(store.utxos@, Seq::empty());
                    crate::store::lemma_sats_bounds(u0, Seq::empty());
                }
                let touched = TouchedValue {
                    addr: addr_touched,
                    sats: e_sats,
                    token: e_token,
                    base: e_is_base,
                };
                proof {
                    assert(touched.addr matches Some(k1) ==> (u0[j as int].addr matches Some(k0)
                        && k1@ == k0@));
                    assert(touched.addr is None <==> u0[j as int].addr is None);
                    assert forall|a: Seq<u8>| touched_base(spent@.push(touched), a) == touched_base(
                        spent@.push(
                            TouchedValue {
                                addr: (match u0[j as int].addr {
                                    Some(k) => Some(k),
                                    None => None,
                                }),
                                sats: e_sats,
                                token: e_token,
                                base: e_is_base,
                            },
                        ),
                        a,
                    ) by {
                        let t1 = spent@.push(touched);
                        let t2 = spent@.push(
                            TouchedValue {
                                addr: (match u0[j as int].addr {
                                    Some(k) => Some(k),
                                    None => None,
                                }),
                                sats: e_sats,
                                token: e_token,
                                base: e_is_base,
                            },
                        );
                        assert(t1.drop_last() =~= spent@);
                        assert(t2.drop_last() =~= spent@);
                    }
                    assert(spent@.push(touched).drop_last() =~= spent@);
                }
                spent.push(touched);
                assert(sats_in + e_sats <= i64::MAX);
                sats_in = sats_in + e_sats;
                tx_inputs.push(
                    TxInput {
                        outpoint_tx_hash: inp.outpoint_tx_hash,
                        outpoint_out_idx: inp.outpoint_out_idx,
                        signature_script: crate::slp::clone_bytes(&inp.signature_script),
                        sequence: inp.sequence,
                        sats_value: e_sats,
                        previous_script: prev_script,
                        token_value: e_token,
                        is_mint_baton: e_baton,
                    },
                );
            },
            None => {
                tx_inputs.push(
                    TxInput {
                        outpoint_tx_hash: inp.outpoint_tx_hash,
                        outpoint_out_idx: inp.outpoint_out_idx,
                        signature_script: crate::slp::clone_bytes(&inp.signature_script),
                        sequence: inp.sequence,
                        sats_value: 0,
                        previous_script: Vec::new(),
                        token_value: 0,
                        is_mint_baton: false,
                    },
                );
            },
        }
        i += 1;
    }
    proof {
        crate::store::lemma_sats_bounds(store.utxos@, Seq::empty());
        assert forall|j: int, k: int| 0 <= j < k < store.utxos@.len() implies store.utxos@[j].height
            <= store.utxos@[k].height by {
            assert(same_except_spent_at(u0[j], store.utxos@[j], hgt as int));
            assert(same_except_spent_at(u0[k], store.utxos@[k], hgt as int));
        }
        assert forall|j: int| 0 <= j < store.utxos@.len() implies old(store).base_height <= (
        #[trigger] store.utxos@[j]).height < hgt + 1 && store.utxos@[j].sats >= 0 && (
        store.utxos@[j].spent matches Some(sp) ==> old(store).base_height <= sp.block_height < hgt
            + 1) by {
            assert(same_except_spent_at(u0[j], store.utxos@[j], hgt as int));
        }
    }
    (tx_inputs, spent, sats_in)
}

/// Partial sums of nonnegative outputs stay within the whole sum.
proof fn lemma_outs_sats_prefix(os: Seq<OutputData>, i: int)
    requires
        outs_nonneg(os),
        0 <= i <= os.len(),
    ensures
        0 <= outs_sats(os.take(i)) <= outs_sats(os),
    decreases os.len() + i,
{
    if os.len() > 0 {
        if i == os.len() {
            assert(os.take(i) =~= os);
            lemma_outs_sats_prefix(os, i - 1);
            assert(os.take(i - 1) =~= os.drop_last().take(i - 1));
        } else {
            assert(outs_nonneg(os.drop_last()));
            lemma_outs_sats_prefix(os.drop_last(), i);
            assert(os.take(i) =~= os.drop_last().take(i));
        }
    }
}

/// Creates the entries for a transaction's outputs, assigning token amounts
/// under a valid message only, and collects what was created per address.
#[verifier::rlimit(100)]
fn process_outputs(
    store: &mut Store,
    t: &TxData,
    msg: &Option<crate::slp::SlpMessage>,
    tid: &Option<[u8; 32]>,
    hgt: i32,
    is_coinbase: bool,
) -> (r: (Vec<TxOutput>, Vec<TouchedValue>, i64))
    requires
        wf_upto(*old(store), hgt + 1),
        old(store).base_height <= hgt,
        outs_nonneg(t.outputs@),
        t.outputs@.len() <= u32::MAX,
        total_sats(old(store).utxos@) + outs_sats(t.outputs@) <= i64::MAX,
        msg matches Some(_) <==> tid matches Some(_),
    ensures
        final(store).base_height == old(store).base_height,
        final(store).blocks@ == old(store).blocks@,
        final(store).txs@ == old(store).txs@,
        final(store).addr_txs@ == old(store).addr_txs@,
        final(store).tokens@ == old(store).tokens@,
        final(store).utxos@.len() == old(store).utxos@.len() + t.outputs@.len(),
        final(store).utxos@.take(old(store).utxos@.len() as int) == old(store).utxos@,
        forall|k: int|
            old(store).utxos@.len() <= k < final(store).utxos@.len() ==> {
                let e = #[trigger] final(store).utxos@[k];
                &&& e.height == hgt
                &&& e.spent is None
                &&& e.tx_hash@ == t.hash@
                &&& e.sats == t.outputs@[k - old(store).utxos@.len()].sats_value
                &&& (tid is None ==> e.token_id is None && e.token_amount == 0
                    && !e.is_mint_baton)
                &&& (match (*msg, *tid) {
                    (Some(m), Some(ti)) => {
                        let a = crate::slp::spec_output_token(
                            m@,
                            k - old(store).utxos@.len(),
                        );
                        &&& e.token_amount == a.0
                        &&& e.is_mint_baton == a.1
                        &&& e.token_id == (if a.0 > 0 || a.1 {
                            Some(ti)
                        } else {
                            None::<[u8; 32]>
                        })
                    },
                    _ => true,
                })
            },
        wf_upto(*final(store), hgt + 1),
        forall|a: Seq<u8>|
            #[trigger] utxo_base_sats(final(store).utxos@, a) == utxo_base_sats(
                old(store).utxos@,
                a,
            ) + touched_base(r.1@, a),
        total_sats(final(store).utxos@) == total_sats(old(store).utxos@) + outs_sats(t.outputs@),
        r.2 == outs_sats(t.outputs@),
        touched_sats(r.1@) == outs_sats(t.outputs@),
        forall|i: int| 0 <= i < r.1@.len() ==> (#[trigger] r.1@[i]).sats >= 0,
        r.0@.len() == t.outputs@.len(),
{
    let ghost u0 = store.utxos@;
    let ghost len0 = store.utxos@.len() as int;
    let mut tx_outputs: Vec<TxOutput> = Vec::new();
    let mut created: Vec<TouchedValue> = Vec::new();
    let mut sats_out: i64 = 0;
    let mut i: usize = 0;
    proof {
        crate::store::lemma_sats_bounds(u0, Seq::empty());
        assert(t.outputs@.take(0) =~= Seq::<OutputData>::empty());
        assert(store.utxos@.take(len0) =~= u0);
    }
    while i < t.outputs.len()
        invariant
            0 <= i <= t.outputs@.len(),
            t.outputs@.len() <= u32::MAX,
            outs_nonneg(t.outputs@),
            total_sats(u0) + outs_sats(t.outputs@) <= i64::MAX,
            0 <= total_sats(u0),
            old(store).base_height <= hgt,
            wf_upto(*old(store), hgt + 1),
            msg matches Some(_) <==> tid matches Some(_),
            store.base_height == old(store).base_height,
            store.blocks@ == old(store).blocks@,
            store.txs@ == old(store).txs@,
            store.addr_txs@ == old(store).addr_txs@,
            store.tokens@ == old(store).tokens@,
            u0 == old(store).utxos@,
            len0 == u0.len(),
            store.utxos@.len() == len0 + i,
            store.utxos@.take(len0) == u0,
            forall|k: int|
                len0 <= k < store.utxos@.len() ==> {
                    let e = #[trigger] store.utxos@[k];
                    &&& e.height == hgt
                    &&& e.spent is None
                    &&& e.tx_hash@ == t.hash@
                    &&& e.sats == t.outputs@[k - len0].sats_value
                    &&& (tid is None ==> e.token_id is None && e.token_amount == 0
                        && !e.is_mint_baton)
                    &&& (match (*msg, *tid) {
                        (Some(m), Some(ti)) => {
                            let a = crate::slp::spec_output_token(m@, k - len0);
                            &&& e.token_amount == a.0
                            &&& e.is_mint_baton == a.1
                            &&& e.token_id == (if a.0 > 0 || a.1 {
                                Some(ti)
                            } else {
                                None::<[u8; 32]>
                            })
                        },
                        _ => true,
                    })
                },
            forall|a: Seq<u8>|
                #[trigger] utxo_base_sats(store.utxos@, a) == utxo_base_sats(u0, a) + touched_base(
                    created@,
                    a,
                ),
            total_sats(store.utxos@) == total_sats(u0) + outs_sats(t.outputs@.take(i as int)),
            sats_out == outs_sats(t.outputs@.take(i as int)),
            touched_sats(created@) == outs_sats(t.outputs@.take(i as int)),
            forall|k: int| 0 <= k < created@.len() ==> (#[trigger] created@[k]).sats >= 0,
            tx_outputs@.len() == i,
        decreases t.outputs@.len() - i,
    {
        let o = &t.outputs[i];
        let (amount, baton): (u64, bool) = match msg {
            Some(m) => crate::slp::output_token(m, i as u32),
            None => (0u64, false),
        };
        let token_id_out: Option<[u8; 32]> = match tid {
            Some(ti) => if amount > 0 || baton {
                Some(*ti)
            } else {
                None
            },
            None => None,
        };
        let addr = crate::script::addr_key(o.pubkey_script.as_slice());
        let addr_touched: Option<Vec<u8>> = match &addr {
            Some(k) => Some(crate::slp::clone_bytes(k)),
            None => None,
        };
        let e = UtxoEntry {
            tx_hash: t.hash,
            out_idx: i as u32,
            addr,
            script: crate::slp::clone_bytes(&o.pubkey_script),
            sats: o.sats_value,
            token_amount: amount,
            is_mint_baton: baton,
            is_coinbase,
            height: hgt,
            token_id: token_id_out,
            spent: None,
        };
        let item = TouchedValue {
            addr: addr_touched,
            sats: o.sats_value,
            token: amount,
            base: token_id_out.is_none(),
        };
        proof {
            lemma_outs_sats_prefix(t.outputs@, i + 1);
            assert(t.outputs@.take(i + 1).drop_last() =~= t.outputs@.take(i as int));
            assert(t.outputs@.take(i + 1).last() == t.outputs@[i as int]);
        }
        let ghost cur = store.utxos@;
        let ghost prev_created = created@;
        let ghost e_ghost = e;
        let ghost item_ghost = item;
        proof {
            assert(item_ghost.addr matches Some(k1) ==> (e_ghost.addr matches Some(k0) && k1@
                == k0@));
            assert(item_ghost.addr is None <==> e_ghost.addr is None);
        }
        store.utxos.push(e);
        created.push(item);
        sats_out = sats_out + o.sats_value;
        tx_outputs.push(
            TxOutput {
                sats_value: o.sats_value,
                pubkey_script: crate::slp::clone_bytes(&o.pubkey_script),
                token_value: amount,
                is_mint_baton: baton,
            },
        );
        proof {
            assert(store.utxos@.take(len0) =~= cur.take(len0));
            assert(created@.drop_last() =~= prev_created);
            assert(created@.last() == item_ghost);
            assert(touched_sats(created@) == touched_sats(prev_created) + item_ghost.sats);
            assert forall|a: Seq<u8>|
                #[trigger] utxo_base_sats(store.utxos@, a) == utxo_base_sats(u0, a) + touched_base(
                    created@,
                    a,
                ) by {
                crate::store::lemma_sums_push(cur, e_ghost, a);
                assert(touched_base(created@, a) == touched_base(prev_created, a) + (
                if item_ghost.addr matches Some(k) && k@ == a && item_ghost.base {
                    item_ghost.sats as int
                } else {
                    0
                }));
                assert(entry_base_sats(e_ghost, a) == (if item_ghost.addr matches Some(k) && k@
                    == a && item_ghost.base {
                    item_ghost.sats as int
                } else {
                    0
                }));
            }
            crate::store::lemma_sums_push(cur, e_ghost, Seq::empty());
        }
        i += 1;
    }
    proof {
        assert(t.outputs@.take(i as int) =~= t.outputs@);
        assert forall|j: int, k: int| 0 <= j < k < store.utxos@.len() implies store.utxos@[j].height
            <= store.utxos@[k].height by {
            if j < len0 {
                assert(store.utxos@.take(len0)[j] == store.utxos@[j]);
            }
            if k < len0 {
                assert(store.utxos@.take(len0)[k] == store.utxos@[k]);
            }
        }
        assert forall|j: int| 0 <= j < store.utxos@.len() implies {
            &&& old(store).base_height <= (#[trigger] store.utxos@[j]).height < hgt + 1
            &&& store.utxos@[j].sats >= 0
            &&& (store.utxos@[j].spent matches Some(sp) ==> old(store).base_height
                <= sp.block_height < hgt + 1)
        } by {
            if j < len0 {
                assert(store.utxos@.take(len0)[j] == store.utxos@[j]);
            }
        }
    }
    (tx_outputs, created, sats_out)
}

/// Partial sums of nonnegative movements stay within the whole sum.
proof fn lemma_touched_prefix(items: Seq<TouchedValue>, i: int)
    requires
        forall|k: int| 0 <= k < items.len() ==> (#[trigger] items[k]).sats >= 0,
        0 <= i <= items.len(),
    ensures
        0 <= touched_sats(items.take(i)) <= touched_sats(items),
    decreases items.len() + i,
{
    if items.len() > 0 {
        if i == items.len() {
            assert(items.take(i) =~= items);
            lemma_touched_prefix(items, i - 1);
            assert(items.take(i - 1) =~= items.drop_last().take(i - 1));
        } else {
            lemma_touched_prefix(items.drop_last(), i);
            assert(items.take(i) =~= items.drop_last().take(i));
        }
    }
}

/// Token movements are bounded by the list length times the amount range.
proof fn lemma_touched_token_bound(items: Seq<TouchedValue>, a: Seq<u8>)
    ensures
        0 <= touched_tokens(items, a) <= items.len() * (u64::MAX as int),
    decreases items.len(),
{
    if items.len() > 0 {
        lemma_touched_token_bound(items.drop_last(), a);
        assert((items.len() - 1) * (u64::MAX as int) + (u64::MAX as int) == items.len() * (
        u64::MAX as int)) by (nonlinear_arith);
    }
}

/// Sums the base-currency and token movements of one address.
fn sum_touched(items: &Vec<TouchedValue>, a: &Vec<u8>) -> (r: (i64, u128))
    requires
        forall|k: int| 0 <= k < items@.len() ==> (#[trigger] items@[k]).sats >= 0,
        touched_sats(items@) <= i64::MAX,
    ensures
        r.0 == touched_base(items@, a@),
        r.1 == touched_tokens(items@, a@),
        0 <= r.0,
{
    let mut acc_b: i64 = 0;
    let mut acc_t: u128 = 0;
    let mut i: usize = 0;
    proof {
        assert(items@.take(0) =~= Seq::<TouchedValue>::empty());
    }
    while i < items.len()
        invariant
            0 <= i <= items@.len(),
            forall|k: int| 0 <= k < items@.len() ==> (#[trigger] items@[k]).sats >= 0,
            touched_sats(items@) <= i64::MAX,
            acc_b == touched_base(items@.take(i as int), a@),
            acc_t == touched_tokens(items@.take(i as int), a@),
            0 <= acc_b,
        decreases items@.len() - i,
    {
        proof {
            let pre = items@.take(i as int);
            let post = items@.take(i + 1);
            assert(post.drop_last() =~= pre);
            assert(post.last() == items@[i as int]);
            lemma_touched_bounds(post, a@);
            assert(forall|k: int| 0 <= k < post.len() ==> (#[trigger] post[k]).sats >= 0);
            lemma_touched_prefix(items@, i + 1);
            lemma_touched_token_bound(post, a@);
            assert(post.len() * (u64::MAX as int) <= usize::MAX * (u64::MAX as int))
                by (nonlinear_arith)
                requires
                    post.len() <= usize::MAX,
            ;
        }
        let item = &items[i];
        let matched = match &item.addr {
            Some(k) => crate::bytes_eq(k.as_slice(), a.as_slice()),
            None => false,
        };
        if matched {
            if item.base {
                acc_b = acc_b + item.sats;
            }
            acc_t = acc_t + (item.token as u128);
        }
        i += 1;
    }
    assert(items@.take(i as int) =~= items@);
    (acc_b, acc_t)
}

/// Whether the key list already holds this address.
fn contains_addr(keys: &Vec<Vec<u8>>, a: &Vec<u8>) -> (r: bool)
    ensures
        r <==> exists|m: int| 0 <= m < keys@.len() && (#[trigger] keys@[m])@ == a@,
{
    let mut i: usize = 0;
    while i < keys.len()
        invariant
            0 <= i <= keys@.len(),
            forall|m: int| 0 <= m < i ==> (#[trigger] keys@[m])@ != a@,
        decreases keys@.len() - i,
    {
        if crate::bytes_eq(keys[i].as_slice(), a.as_slice()) {
            return true;
        }
        i += 1;
    }
    false
}

/// Collects, without duplicates, every address a movement list names.
fn collect_addrs(keys: &mut Vec<Vec<u8>>, items: &Vec<TouchedValue>)
    requires
        forall|m: int, n: int|
            0 <= m < n < old(keys)@.len() ==> (#[trigger] old(keys)@[m])@ != (
            #[trigger] old(keys)@[n])@,
    ensures
        forall|m: int, n: int|
            0 <= m < n < final(keys)@.len() ==> (#[trigger] final(keys)@[m])@ != (
            #[trigger] final(keys)@[n])@,
        forall|k: int|
            0 <= k < items@.len() ==> ((#[trigger] items@[k]).addr matches Some(ka) ==> exists|
                m: int,
            | 0 <= m < final(keys)@.len() && (#[trigger] final(keys)@[m])@ == ka@),
        final(keys)@.len() >= old(keys)@.len(),
        final(keys)@.take(old(keys)@.len() as int) == old(keys)@,
{
    let ghost keys0 = keys@;
    proof {
        assert(keys@.take(keys0.len() as int) =~= keys0);
    }
    let mut k: usize = 0;
    while k < items.len()
        invariant
            0 <= k <= items@.len(),
            keys0 == old(keys)@,
            forall|m: int, n: int|
                0 <= m < n < keys@.len() ==> (#[trigger] keys@[m])@ != (#[trigger] keys@[n])@,
            forall|j: int|
                0 <= j < k ==> ((#[trigger] items@[j]).addr matches Some(ka) ==> exists|m: int|
                    0 <= m < keys@.len() && (#[trigger] keys@[m])@ == ka@),
            keys@.len() >= keys0.len(),
            keys@.take(keys0.len() as int) == keys0,
        decreases items@.len() - k,
    {
        let ghost keys_pre = keys@;
        match &items[k].addr {
            Some(ka) => {
                if !contains_addr(keys, ka) {
                    keys.push(crate::slp::clone_bytes(ka));
                    proof {
                        assert(keys@[keys@.len() - 1]@ == ka@);
                        assert(keys@.take(keys0.len() as int) =~= keys_pre.take(
                            keys0.len() as int,
                        ));
                    }
                }
                assert(exists|m: int| 0 <= m < keys@.len() && (#[trigger] keys@[m])@ == ka@);
            },
            None => {},
        }
        proof {
            assert forall|j: int| 0 <= j < k + 1 implies ((#[trigger] items@[j]).addr matches Some(
                kb,
            ) ==> exists|m: int| 0 <= m < keys@.len() && (#[trigger] keys@[m])@ == kb@) by {
                match items@[j].addr {
                    Some(kb) => {
                        if j < k {
                            let m = choose|m: int|
                                0 <= m < keys_pre.len() && (#[trigger] keys_pre[m])@ == kb@;
                            assert(keys@[m] == keys_pre[m]);
                            assert(0 <= m < keys@.len() && keys@[m]@ == kb@);
                        }
                    },
                    None => {},
                }
            }
        }
        k += 1;
    }
}

/// Clamps an unbounded delta into a stored 64-bit delta.
pub open spec fn clamp_i64(x: int) -> i64 {
    if x > i64::MAX {
        i64::MAX
    } else if x < i64::MIN {
        i64::MIN
    } else {
        x as i64
    }
}

/// Appends one ledger entry per address the transaction touched, carrying
/// the address's net base-currency and token deltas.
#[verifier::rlimit(100)]
fn process_addr_deltas(
    store: &mut Store,
    spent: &Vec<TouchedValue>,
    created: &Vec<TouchedValue>,
    tx_hash: &[u8; 32],
    hgt: i32,
    timestamp: i64,
)
    requires
        wf_upto(*old(store), hgt + 1),
        old(store).base_height <= hgt,
        forall|k: int| 0 <= k < spent@.len() ==> (#[trigger] spent@[k]).sats >= 0,
        forall|k: int| 0 <= k < created@.len() ==> (#[trigger] created@[k]).sats >= 0,
        touched_sats(spent@) <= i64::MAX,
        touched_sats(created@) <= i64::MAX,
    ensures
        final(store).base_height == old(store).base_height,
        final(store).blocks@ == old(store).blocks@,
        final(store).txs@ == old(store).txs@,
        final(store).utxos@ == old(store).utxos@,
        final(store).tokens@ == old(store).tokens@,
        final(store).addr_txs@.len() >= old(store).addr_txs@.len(),
        final(store).addr_txs@.take(old(store).addr_txs@.len() as int) == old(store).addr_txs@,
        forall|j: int|
            old(store).addr_txs@.len() <= j < final(store).addr_txs@.len() ==> (
            #[trigger] final(store).addr_txs@[j]).entry.block_height == hgt,
        wf_upto(*final(store), hgt + 1),
        forall|a: Seq<u8>|
            #[trigger] ledger_sats(final(store).addr_txs@, a) == ledger_sats(
                old(store).addr_txs@,
                a,
            ) + touched_base(created@, a) - touched_base(spent@, a),
{
    let ghost l0 = store.addr_txs@;
    let mut keys: Vec<Vec<u8>> = Vec::new();
    collect_addrs(&mut keys, created);
    let ghost keys1 = keys@;
    collect_addrs(&mut keys, spent);
    proof {
        assert forall|k: int| 0 <= k < created@.len() implies ((#[trigger] created@[k]).addr
            matches Some(ka) ==> exists|m: int| 0 <= m < keys@.len() && (#[trigger] keys@[m])@
            == ka@) by {
            match created@[k].addr {
                Some(ka) => {
                    let m = choose|m: int| 0 <= m < keys1.len() && (#[trigger] keys1[m])@ == ka@;
                    assert(keys@.take(keys1.len() as int)[m] == keys@[m]);
                    assert(keys@[m]@ == ka@);
                },
                None => {},
            }
        }
    }
    let mut i: usize = 0;
    proof {
        assert(store.addr_txs@.take(l0.len() as int) =~= l0);
    }
    while i < keys.len()
        invariant
            0 <= i <= keys@.len(),
            wf_upto(*old(store), hgt + 1),
            old(store).base_height <= hgt,
            forall|k: int| 0 <= k < spent@.len() ==> (#[trigger] spent@[k]).sats >= 0,
            forall|k: int| 0 <= k < created@.len() ==> (#[trigger] created@[k]).sats >= 0,
            touched_sats(spent@) <= i64::MAX,
            touched_sats(created@) <= i64::MAX,
            store.base_height == old(store).base_height,
            store.blocks@ == old(store).blocks@,
            store.txs@ == old(store).txs@,
            store.utxos@ == old(store).utxos@,
            store.tokens@ == old(store).tokens@,
            l0 == old(store).addr_txs@,
            store.addr_txs@.len() >= l0.len(),
            store.addr_txs@.take(l0.len() as int) == l0,
            forall|j: int|
                l0.len() <= j < store.addr_txs@.len() ==> (
                #[trigger] store.addr_txs@[j]).entry.block_height == hgt,
            forall|m: int, n: int|
                0 <= m < n < keys@.len() ==> (#[trigger] keys@[m])@ != (#[trigger] keys@[n])@,
            forall|a: Seq<u8>|
                #[trigger] ledger_sats(store.addr_txs@, a) == ledger_sats(l0, a) + (if exists|
                    m: int,
                | 0 <= m < i && (#[trigger] keys@[m])@ == a {
                    touched_base(created@, a) - touched_base(spent@, a)
                } else {
                    0
                }),
        decreases keys@.len() - i,
    {
        let a = &keys[i];
        let (cb, ct) = sum_touched(created, a);
        let (sb, st) = sum_touched(spent, a);
        let delta_sats = cb - sb;
        let delta_tokens: i64 = if ct >= st {
            let d = ct - st;
            if d > (i64::MAX as u128) {
                i64::MAX
            } else {
                d as i64
            }
        } else {
            let d = st - ct;
            if d >= 0x8000000000000000u128 {
                i64::MIN
            } else {
                -(d as i64)
            }
        };
        assert(delta_tokens == clamp_i64(
            touched_tokens(created@, a@) - touched_tokens(spent@, a@),
        ));
        let rec = AddressTxRecord {
            addr: crate::slp::clone_bytes(a),
            tx_hash: *tx_hash,
            entry: AddressTx { timestamp, block_height: hgt, delta_sats, delta_tokens },
        };
        let ghost cur_l = store.addr_txs@;
        let ghost rec_ghost = rec;
        store.addr_txs.push(rec);
        proof {
            assert(store.addr_txs@.take(l0.len() as int) =~= cur_l.take(l0.len() as int));
            assert forall|aa: Seq<u8>|
                #[trigger] ledger_sats(store.addr_txs@, aa) == ledger_sats(l0, aa) + (if exists|
                    m: int,
                | 0 <= m < i + 1 && (#[trigger] keys@[m])@ == aa {
                    touched_base(created@, aa) - touched_base(spent@, aa)
                } else {
                    0
                }) by {
                crate::store::lemma_ledger_push(cur_l, rec_ghost, aa);
                if aa == keys@[i as int]@ {
                    assert(forall|m: int| 0 <= m < i ==> (#[trigger] keys@[m])@ != aa);
                    assert(0 <= i < i + 1 && keys@[i as int]@ == aa);
                } else {
                    assert(rec_ghost.addr@ != aa);
                    assert((exists|m: int| 0 <= m < i + 1 && (#[trigger] keys@[m])@ == aa) <==> (
                    exists|m: int| 0 <= m < i && (#[trigger] keys@[m])@ == aa));
                }
            }
        }
        i += 1;
    }
    proof {
        assert forall|a: Seq<u8>|
            #[trigger] ledger_sats(store.addr_txs@, a) == ledger_sats(l0, a) + touched_base(
                created@,
                a,
            ) - touched_base(spent@, a) by {
            if exists|m: int| 0 <= m < keys@.len() && (#[trigger] keys@[m])@ == a {
            } else {
                assert(!occurs(created@, a)) by {
                    if occurs(created@, a) {
                        let k = choose|k: int|
                            0 <= k < created@.len() && ((#[trigger] created@[k]).addr matches Some(
                                ka,
                            ) && ka@ == a);
                    }
                }
                assert(!occurs(spent@, a)) by {
                    if occurs(spent@, a) {
                        let k = choose|k: int|
                            0 <= k < spent@.len() && ((#[trigger] spent@[k]).addr matches Some(ka)
                                && ka@ == a);
                    }
                }
                lemma_not_occurs(created@, a);
                lemma_not_occurs(spent@, a);
            }
        }
        assert forall|j: int, k: int|
            0 <= j < k < store.addr_txs@.len() implies store.addr_txs@[j].entry.block_height
            <= store.addr_txs@[k].entry.block_height by {
            if j < l0.len() {
                assert(store.addr_txs@.take(l0.len() as int)[j] == store.addr_txs@[j]);
            }
            if k < l0.len() {
                assert(store.addr_txs@.take(l0.len() as int)[k] == store.addr_txs@[k]);
            }
        }
        assert forall|j: int| 0 <= j < store.addr_txs@.len() implies old(store).base_height <= (
        #[trigger] store.addr_txs@[j]).entry.block_height < hgt + 1 by {
            if j < l0.len() {
                assert(store.addr_txs@.take(l0.len() as int)[j] == store.addr_txs@[j]);
            }
        }
    }
}

/// The coinbase payload a block's records carry: the first transaction's
/// first signature script.
pub open spec fn spec_coinbase_data(b: BlockData) -> Seq<u8> {
    if b.txs@.len() > 0 && b.txs@[0].inputs@.len() > 0 {
        b.txs@[0].inputs@[0].signature_script@
    } else {
        Seq::empty()
    }
}

/// How a store that accepted block `b` relates to the store before it:
/// one block record pushed, and every family extended with records of the
/// block's height only; conservation and totals move exactly with the
/// block's outputs.
pub open spec fn apply_block_rel(s0: Store, b: BlockData, s1: Store) -> bool {
    let hgt = b.height as int;
    &&& s1.base_height == s0.base_height
    &&& s1.blocks@.len() == s0.blocks@.len() + 1
    &&& s1.blocks@.take(s0.blocks@.len() as int) == s0.blocks@
    &&& {
        let bm = s1.blocks@.last();
        &&& bm.hash@ == b.hash@
        &&& bm.height == b.height
        &&& bm.version == b.version
        &&& bm.previous_block@ == b.previous_block@
        &&& bm.merkle_root@ == b.merkle_root@
        &&& bm.timestamp == b.timestamp
        &&& bm.bits == b.bits
        &&& bm.nonce == b.nonce
        &&& bm.size == b.size
        &&& bm.median_time == b.median_time
        &&& bm.num_txs == b.txs@.len()
        &&& bm.total_sats_output == txs_out_sats(b.txs@)
        &&& bm.coinbase_data@ == spec_coinbase_data(b)
    }
    &&& s1.txs@.len() == s0.txs@.len() + b.txs@.len()
    &&& s1.txs@.take(s0.txs@.len() as int) == s0.txs@
    &&& forall|k: int|
        0 <= k < b.txs@.len() ==> (#[trigger] s1.txs@[s0.txs@.len() + k]).meta.block_height == hgt
            && s1.txs@[s0.txs@.len() + k].hash@ == b.txs@[k].hash@
    &&& s1.utxos@.len() >= s0.utxos@.len()
    &&& forall|j: int|
        0 <= j < s0.utxos@.len() ==> same_except_spent_at(
            s0.utxos@[j],
            #[trigger] s1.utxos@[j],
            hgt,
        )
    &&& forall|j: int|
        s0.utxos@.len() <= j < s1.utxos@.len() ==> (#[trigger] s1.utxos@[j]).height == hgt
    &&& s1.addr_txs@.len() >= s0.addr_txs@.len()
    &&& s1.addr_txs@.take(s0.addr_txs@.len() as int) == s0.addr_txs@
    &&& forall|j: int|
        s0.addr_txs@.len() <= j < s1.addr_txs@.len() ==> (
        #[trigger] s1.addr_txs@[j]).entry.block_height == hgt
    &&& s1.tokens@.len() >= s0.tokens@.len()
    &&& s1.tokens@.take(s0.tokens@.len() as int) == s0.tokens@
    &&& forall|j: int|
        s0.tokens@.len() <= j < s1.tokens@.len() ==> (#[trigger] s1.tokens@[j]).block_height == hgt
    &&& forall|a: Seq<u8>|
        #[trigger] utxo_base_sats(s1.utxos@, a) - ledger_sats(s1.addr_txs@, a) == utxo_base_sats(
            s0.utxos@,
            a,
        ) - ledger_sats(s0.addr_txs@, a)
    &&& total_sats(s1.utxos@) == total_sats(s0.utxos@) + txs_out_sats(b.txs@)
}

/// Partial sums of a nonnegative block's outputs stay within the whole.
proof fn lemma_txs_out_prefix(ts: Seq<TxData>, i: int)
    requires
        forall|k: int| 0 <= k < ts.len() ==> outs_nonneg((#[trigger] ts[k]).outputs@),
        0 <= i <= ts.len(),
    ensures
        0 <= txs_out_sats(ts.take(i)) <= txs_out_sats(ts),
    decreases ts.len() + i,
{
    if ts.len() > 0 {
        assert(tx_out_sats(ts.last()) >= 0) by {
            lemma_outs_sats_prefix(ts.last().outputs@, ts.last().outputs@.len() as int);
            assert(ts.last().outputs@.take(ts.last().outputs@.len() as int) =~= ts.last().outputs@);
        }
        if i == ts.len() {
            assert(ts.take(i) =~= ts);
            lemma_txs_out_prefix(ts, i - 1);
            assert(ts.take(i - 1) =~= ts.drop_last().take(i - 1));
        } else {
            assert(forall|k: int|
                0 <= k < ts.drop_last().len() ==> outs_nonneg(
                    (#[trigger] ts.drop_last()[k]).outputs@,
                ));
            lemma_txs_out_prefix(ts.drop_last(), i);
            assert(ts.take(i) =~= ts.drop_last().take(i));
        }
    }
}

/// Sums one transaction's outputs, rejecting negative or oversized values.
fn check_tx_outputs(t: &TxData) -> (r: Option<i64>)
    ensures
        match r {
            Some(v) => outs_nonneg(t.outputs@) && v == outs_sats(t.outputs@) && v >= 0,
            None => !(outs_nonneg(t.outputs@) && outs_sats(t.outputs@) <= i64::MAX),
        },
{
    let mut acc: i64 = 0;
    let mut i: usize = 0;
    proof {
        assert(t.outputs@.take(0) =~= Seq::<OutputData>::empty());
    }
    while i < t.outputs.len()
        invariant
            0 <= i <= t.outputs@.len(),
            outs_nonneg(t.outputs@.take(i as int)),
            acc == outs_sats(t.outputs@.take(i as int)),
            acc >= 0,
        decreases t.outputs@.len() - i,
    {
        let v = t.outputs[i].sats_value;
        proof {
            assert(t.outputs@.take(i + 1).drop_last() =~= t.outputs@.take(i as int));
            assert(t.outputs@.take(i + 1).last() == t.outputs@[i as int]);
        }
        if v < 0 {
            return None;
        }
        if acc > i64::MAX - v {
            proof {
                if outs_nonneg(t.outputs@) {
                    lemma_outs_sats_prefix(t.outputs@, i + 1);
                }
            }
            return None;
        }
        acc = acc + v;
        proof {
            assert forall|k: int| 0 <= k < i + 1 implies (#[trigger] t.outputs@.take(i + 1)[k])
                .sats_value >= 0 by {
                if k < i {
                    assert(t.outputs@.take(i as int)[k] == t.outputs@.take(i + 1)[k]);
                }
            }
        }
        i += 1;
    }
    assert(t.outputs@.take(i as int) =~= t.outputs@);
    Some(acc)
}

/// Sums a block's outputs and checks its counts, rejecting what cannot be
/// stored.
fn check_block_txs(b: &BlockData) -> (r: Option<i64>)
    ensures
        match r {
            Some(v) => (forall|i: int|
                0 <= i < b.txs@.len() ==> outs_nonneg((#[trigger] b.txs@[i]).outputs@)
                    && tx_counts_ok(b.txs@[i])) && v == txs_out_sats(b.txs@) && v >= 0,
            None => !((forall|i: int|
                0 <= i < b.txs@.len() ==> outs_nonneg((#[trigger] b.txs@[i]).outputs@)
                    && tx_counts_ok(b.txs@[i])) && txs_out_sats(b.txs@) <= i64::MAX),
        },
{
    let mut acc: i64 = 0;
    let mut i: usize = 0;
    proof {
        assert(b.txs@.take(0) =~= Seq::<TxData>::empty());
    }
    while i < b.txs.len()
        invariant
            0 <= i <= b.txs@.len(),
            forall|k: int|
                0 <= k < i ==> outs_nonneg((#[trigger] b.txs@[k]).outputs@) && tx_counts_ok(
                    b.txs@[k]),
            acc == txs_out_sats(b.txs@.take(i as int)),
            acc >= 0,
        decreases b.txs@.len() - i,
    {
        let t = &b.txs[i];
        if (t.inputs.len() as u64) > (u32::MAX as u64) || (t.outputs.len() as u64) > (u32::MAX
            as u64) {
            proof {
                assert(!tx_counts_ok(b.txs@[i as int]));
            }
            return None;
        }
        let v = match check_tx_outputs(t) {
            Some(v) => v,
            None => {
                proof {
                    if forall|k: int|
                        0 <= k < b.txs@.len() ==> outs_nonneg((#[trigger] b.txs@[k]).outputs@)
                            && tx_counts_ok(b.txs@[k]) {
                        lemma_txs_out_prefix(b.txs@, i + 1);
                        assert(b.txs@.take(i + 1).drop_last() =~= b.txs@.take(i as int));
                        assert(b.txs@.take(i + 1).last() == b.txs@[i as int]);
                    }
                }
                return None;
            },
        };
        proof {
            assert(b.txs@.take(i + 1).drop_last() =~= b.txs@.take(i as int));
            assert(b.txs@.take(i + 1).last() == b.txs@[i as int]);
        }
        if acc > i64::MAX - v {
            proof {
                if forall|k: int|
                    0 <= k < b.txs@.len() ==> outs_nonneg((#[trigger] b.txs@[k]).outputs@) {
                    lemma_txs_out_prefix(b.txs@, i + 1);
                }
            }
            return None;
        }
        acc = acc + v;
        i += 1;
    }
    assert(b.txs@.take(i as int) =~= b.txs@);
    Some(acc)
}

/// Sums every stored output value.
fn total_sats_exec(store: &Store) -> (r: i64)
    requires
        forall|j: int| 0 <= j < store.utxos@.len() ==> (#[trigger] store.utxos@[j]).sats >= 0,
        total_sats(store.utxos@) <= i64::MAX,
    ensures
        r == total_sats(store.utxos@),
        r >= 0,
{
    let mut acc: i64 = 0;
    let mut i: usize = 0;
    proof {
        assert(store.utxos@.take(0) =~= Seq::<UtxoEntry>::empty());
    }
    while i < store.utxos.len()
        invariant
            0 <= i <= store.utxos@.len(),
            forall|j: int| 0 <= j < store.utxos@.len() ==> (#[trigger] store.utxos@[j]).sats >= 0,
            total_sats(store.utxos@) <= i64::MAX,
            acc == total_sats(store.utxos@.take(i as int)),
            acc >= 0,
        decreases store.utxos@.len() - i,
    {
        proof {
            assert(store.utxos@.take(i + 1).drop_last() =~= store.utxos@.take(i as int));
            assert(store.utxos@.take(i + 1).last() == store.utxos@[i as int]);
            lemma_total_sats_prefix(store.utxos@, i + 1);
        }
        acc = acc + store.utxos[i].sats;
        i += 1;
    }
    assert(store.utxos@.take(i as int) =~= store.utxos@);
    acc
}

/// Partial sums of nonnegative stored values stay within the total.
proof fn lemma_total_sats_prefix(u: Seq<UtxoEntry>, i: int)
    requires
        forall|j: int| 0 <= j < u.len() ==> (#[trigger] u[j]).sats >= 0,
        0 <= i <= u.len(),
    ensures
        0 <= total_sats(u.take(i)) <= total_sats(u),
    decreases u.len() + i,
{
    if u.len() > 0 {
        if i == u.len() {
            assert(u.take(i) =~= u);
            lemma_total_sats_prefix(u, i - 1);
            assert(u.take(i - 1) =~= u.drop_last().take(i - 1));
        } else {
            lemma_total_sats_prefix(u.drop_last(), i);
            assert(u.take(i) =~= u.drop_last().take(i));
        }
    }
}

/// Applies one transaction at height `hgt`: classifies it against the
/// current snapshot, spends its inputs, creates its outputs, appends the
/// per-address ledger deltas and the transaction record, and records token
/// metadata at a valid genesis. Preserves well-formedness and moves every
/// address's live base-currency holdings and ledger sum by the same amount.
#[verifier::rlimit(100)]
pub fn apply_tx(store: &mut Store, t: &TxData, block_hash: &[u8; 32], hgt: i32, timestamp: i64) -> (r:
    (i64, i64))
    requires
        wf_upto(*old(store), hgt + 1),
        old(store).base_height <= hgt,
        tx_counts_ok(*t),
        outs_nonneg(t.outputs@),
        total_sats(old(store).utxos@) + tx_out_sats(*t) <= i64::MAX,
    ensures
        wf_upto(*final(store), hgt + 1),
        families_extend(*old(store), *final(store), hgt as int),
        forall|a: Seq<u8>|
            #[trigger] utxo_base_sats(final(store).utxos@, a) - ledger_sats(
                final(store).addr_txs@,
                a,
            ) == utxo_base_sats(old(store).utxos@, a) - ledger_sats(old(store).addr_txs@, a),
        total_sats(final(store).utxos@) == total_sats(old(store).utxos@) + tx_out_sats(*t),
        final(store).txs@.len() == old(store).txs@.len() + 1,
        final(store).txs@.last().hash@ == t.hash@,
        final(store).txs@.last().meta.variant@ == crate::slp::spec_classify(
            spec_tx_parse(*t),
            spec_token_inputs(old(store).utxos@, t.inputs@),
            t.hash@,
        ),
        !(final(store).txs@.last().meta.variant@ is Slp) ==> forall|j: int|
            old(store).utxos@.len() <= j < final(store).utxos@.len() ==> (
            #[trigger] final(store).utxos@[j]).token_id is None
                && final(store).utxos@[j].token_amount == 0
                && !final(store).utxos@[j].is_mint_baton,
        r.1 == tx_out_sats(*t),
        0 <= r.0,
{
    let ghost s0 = *store;
    let parse: crate::slp::SlpParse = if t.outputs.len() > 0 {
        crate::slp::parse_slp(t.outputs[0].pubkey_script.as_slice())
    } else {
        crate::slp::SlpParse::NotSlp
    };
    assert(parse@ == spec_tx_parse(*t));
    let token_inputs = gather_token_inputs(store, t);
    proof {
        if t.outputs@.len() > 0 {
            crate::slp::lemma_parse_slp_wf(t.outputs@[0].pubkey_script@);
        }
    }
    let variant = crate::slp::classify(&parse, &token_inputs, &t.hash);
    let tid_opt: Option<[u8; 32]> = match &variant {
        TxMetaVariant::Slp { token_id, .. } => Some(*token_id),
        _ => None,
    };
    let msg_opt: Option<crate::slp::SlpMessage> = match parse {
        crate::slp::SlpParse::Valid(m) => if tid_opt.is_some() {
            Some(m)
        } else {
            None
        },
        _ => None,
    };
    assert(msg_opt matches Some(_) <==> tid_opt matches Some(_));
    // a valid genesis creates the token's immutable metadata
    let ghost tokens_pre = store.tokens@;
    match &msg_opt {
        Some(m) => {
            let genesis = match m.action {
                SlpAction::SlpV1Genesis | SlpAction::SlpNft1GroupGenesis
                | SlpAction::SlpNft1UniqueChildGenesis => true,
                _ => false,
            };
            if genesis {
                let group_id = crate::slp::first_group_exec(&token_inputs);
                store.tokens.push(
                    TokenRecord {
                        token_id: t.hash,
                        meta: TokenMeta {
                            token_type: m.token_type,
                            token_ticker: crate::slp::clone_bytes(&m.ticker),
                            token_name: crate::slp::clone_bytes(&m.name),
                            token_document_url: crate::slp::clone_bytes(&m.doc_url),
                            token_document_hash: crate::slp::clone_bytes(&m.doc_hash),
                            decimals: m.decimals,
                            group_id,
                        },
                        block_height: hgt,
                    },
                );
                proof {
                    assert(store.tokens@.take(tokens_pre.len() as int) =~= tokens_pre);
                    assert forall|j: int, k: int|
                        0 <= j < k < store.tokens@.len() implies store.tokens@[j].block_height
                        <= store.tokens@[k].block_height by {
                        if j < tokens_pre.len() {
                            assert(store.tokens@.take(tokens_pre.len() as int)[j]
                                == store.tokens@[j]);
                        }
                    }
                    assert forall|j: int| 0 <= j < store.tokens@.len() implies s0.base_height <= (
                    #[trigger] store.tokens@[j]).block_height < hgt + 1 by {
                        if j < tokens_pre.len() {
                            assert(store.tokens@.take(tokens_pre.len() as int)[j]
                                == store.tokens@[j]);
                        }
                    }
                }
            }
        },
        None => {},
    }
    proof {
        assert(store.tokens@.take(tokens_pre.len() as int) =~= tokens_pre);
    }
    let ghost s1 = *store;
    // coinbase: one input spending the null outpoint
    let zero = [0u8; 32];
    let is_coinbase = t.inputs.len() == 1 && crate::bytes_eq(
        t.inputs[0].outpoint_tx_hash.as_slice(),
        zero.as_slice(),
    ) && t.inputs[0].outpoint_out_idx == 0xffff_ffff;
    let r_in = process_inputs(store, t, hgt);
    let tx_inputs = r_in.0;
    let spent_list = r_in.1;
    let sats_in = r_in.2;
    let ghost s2 = *store;
    let r_out = process_outputs(store, t, &msg_opt, &tid_opt, hgt, is_coinbase);
    let tx_outputs = r_out.0;
    let created_list = r_out.1;
    let sats_out = r_out.2;
    let ghost s3 = *store;
    process_addr_deltas(store, &spent_list, &created_list, &t.hash, hgt, timestamp);
    let ghost s4 = *store;
    let num_inputs = t.inputs.len() as u32;
    let num_outputs = t.outputs.len() as u32;
    let meta = TxMeta {
        block_height: hgt,
        timestamp,
        is_coinbase,
        size: t.size,
        num_inputs,
        num_outputs,
        sats_input: sats_in,
        sats_output: sats_out,
        variant,
    };
    let tx = Tx {
        version: t.version,
        inputs: tx_inputs,
        outputs: tx_outputs,
        lock_time: t.lock_time,
        size: if t.size >= 0 {
            t.size as u64
        } else {
            0
        },
        timestamp,
        block_height: hgt,
        block_hash: *block_hash,
    };
    let ghost txs_pre = store.txs@;
    store.txs.push(TxRecord { hash: t.hash, tx, meta });
    proof {
        assert(store.txs@.take(txs_pre.len() as int) =~= txs_pre);
        assert(store.txs@.last().meta.variant == meta.variant);
        // well-formedness of the transaction family after the push
        assert forall|j: int, k: int|
            0 <= j < k < store.txs@.len() implies store.txs@[j].meta.block_height
            <= store.txs@[k].meta.block_height by {
            if j < txs_pre.len() {
                assert(store.txs@.take(txs_pre.len() as int)[j] == store.txs@[j]);
            }
            if k < txs_pre.len() {
                assert(store.txs@.take(txs_pre.len() as int)[k] == store.txs@[k]);
            }
        }
        assert forall|j: int| 0 <= j < store.txs@.len() implies s0.base_height <= (
        #[trigger] store.txs@[j]).meta.block_height < hgt + 1 by {
            if j < txs_pre.len() {
                assert(store.txs@.take(txs_pre.len() as int)[j] == store.txs@[j]);
            }
        }
        // the extension relation, assembled across the steps
        assert(store.txs@.take(s0.txs@.len() as int) =~= s0.txs@);
        assert(store.utxos@.take(s2.utxos@.len() as int) == s2.utxos@);
        assert forall|j: int| 0 <= j < s0.utxos@.len() implies same_except_spent_at(
            s0.utxos@[j],
            #[trigger] store.utxos@[j],
            hgt as int,
        ) by {
            assert(same_except_spent_at(s0.utxos@[j], s2.utxos@[j], hgt as int));
            assert(store.utxos@.take(s2.utxos@.len() as int)[j] == store.utxos@[j]);
        }
        assert forall|j: int| s0.utxos@.len() <= j < store.utxos@.len() implies (
        #[trigger] store.utxos@[j]).height == hgt by {
            if j < s2.utxos@.len() {
                assert(store.utxos@.take(s2.utxos@.len() as int)[j] == store.utxos@[j]);
            }
        }
        assert(store.addr_txs@.take(s0.addr_txs@.len() as int) =~= s0.addr_txs@);
        assert(store.tokens@.take(s0.tokens@.len() as int) =~= s0.tokens@);
        assert forall|j: int| s0.tokens@.len() <= j < store.tokens@.len() implies (
        #[trigger] store.tokens@[j]).block_height == hgt by {}
        // conservation: both sides moved by created minus spent
        assert forall|a: Seq<u8>|
            #[trigger] utxo_base_sats(store.utxos@, a) - ledger_sats(store.addr_txs@, a)
                == utxo_base_sats(s0.utxos@, a) - ledger_sats(s0.addr_txs@, a) by {
            assert(utxo_base_sats(s2.utxos@, a) == utxo_base_sats(s0.utxos@, a) - touched_base(
                spent_list@,
                a,
            ));
            assert(utxo_base_sats(s3.utxos@, a) == utxo_base_sats(s2.utxos@, a) + touched_base(
                created_list@,
                a,
            ));
            assert(ledger_sats(s4.addr_txs@, a) == ledger_sats(s0.addr_txs@, a) + touched_base(
                created_list@,
                a,
            ) - touched_base(spent_list@, a));
        }
        if !(store.txs@.last().meta.variant@ is Slp) {
            assert(tid_opt is None);
            assert forall|j: int|
                s0.utxos@.len() <= j < store.utxos@.len() implies (
            #[trigger] store.utxos@[j]).token_id is None && store.utxos@[j].token_amount == 0
                && !store.utxos@[j].is_mint_baton by {
                assert(s2.utxos@.len() == s0.utxos@.len());
                assert(store.utxos@ == s3.utxos@);
                assert(s3.utxos@[j].token_id is None && s3.utxos@[j].token_amount == 0
                    && !s3.utxos@[j].is_mint_baton);
            }
        }
    }
    (sats_in, sats_out)
}

/// Ingests one block: classifies every transaction, spends and creates
/// outputs, appends ledger deltas and the block's aggregate record, all as
/// one call on the store. A block at an already-applied height is a no-op;
/// a gap, a parent mismatch or a structurally invalid block is rejected
/// with the store untouched. Preserves well-formedness and the conservation
/// invariant.
#[verifier::rlimit(100)]
pub fn apply_block(store: &mut Store, b: &BlockData) -> (r: Result<ApplyOutcome, IngestError>)
    requires
        wf(*old(store)),
    ensures
        wf(*final(store)),
        !(r matches Ok(o) && o == ApplyOutcome::Applied) ==> *final(store) == *old(store),
        (r matches Ok(o) && o == ApplyOutcome::AlreadyKnown) <==> (b.height as int)
            < spec_next_height(*old(store)),
        (r matches Ok(o) && o == ApplyOutcome::Applied) <==> block_ok(*old(store), *b),
        (r matches Err(e) && e == IngestError::HeightGap) <==> (b.height as int)
            > spec_next_height(*old(store)),
        (r matches Err(e) && e == IngestError::ParentMismatch) <==> ((b.height as int)
            == spec_next_height(*old(store)) && spec_next_height(*old(store)) + 1 <= i32::MAX
            && old(store).blocks@.len() > 0 && b.previous_block@ != old(store).blocks@.last().hash@),
        r matches Ok(o) && o == ApplyOutcome::Applied ==> apply_block_rel(
            *old(store),
            *b,
            *final(store),
        ),
        balanced(*old(store)) ==> balanced(*final(store)),
        r matches Ok(o) && o == ApplyOutcome::Applied && b.txs@.len() > 0 ==> final(store).txs@[old(store).txs@.len() as int].meta.variant@ == crate::slp::spec_classify(
            spec_tx_parse(b.txs@[0]),
            spec_token_inputs(old(store).utxos@, b.txs@[0].inputs@),
            b.txs@[0].hash@,
        ),
{
    let len_blocks = store.blocks.len();
    let next_i: i64 = store.base_height as i64 + len_blocks as i64;
    if (b.height as i64) < next_i {
        return Ok(ApplyOutcome::AlreadyKnown);
    }
    if (b.height as i64) > next_i {
        return Err(IngestError::HeightGap);
    }
    let hgt: i32 = b.height;
    if next_i + 1 > (i32::MAX as i64) {
        return Err(IngestError::InvalidBlock);
    }
    if len_blocks > 0 {
        let parent_ok = crate::bytes_eq(
            b.previous_block.as_slice(),
            store.blocks[len_blocks - 1].hash.as_slice(),
        );
        if !parent_ok {
            return Err(IngestError::ParentMismatch);
        }
    }
    proof {
        lemma_total_sats_prefix(store.utxos@, store.utxos@.len() as int);
        assert(store.utxos@.take(store.utxos@.len() as int) =~= store.utxos@);
    }
    let block_total = match check_block_txs(b) {
        Some(v) => v,
        None => {
            return Err(IngestError::InvalidBlock);
        },
    };
    let store_total = total_sats_exec(store);
    if block_total > i64::MAX - store_total {
        return Err(IngestError::InvalidBlock);
    }
    assert(block_ok(*old(store), *b));
    let ghost s_start = *store;
    let mut total_in: i64 = 0;
    let mut total_out: i64 = 0;
    let mut i: usize = 0;
    proof {
        assert(b.txs@.take(0) =~= Seq::<TxData>::empty());
        assert(store.txs@.take(store.txs@.len() as int) =~= store.txs@);
        assert(store.addr_txs@.take(store.addr_txs@.len() as int) =~= store.addr_txs@);
        assert(store.tokens@.take(store.tokens@.len() as int) =~= store.tokens@);
    }
    while i < b.txs.len()
        invariant
            0 <= i <= b.txs@.len(),
            s_start == *old(store),
            wf(s_start),
            block_ok(s_start, *b),
            hgt as int == spec_next_height(s_start),
            s_start.base_height <= hgt,
            hgt + 1 <= i32::MAX,
            i == 0 ==> *store == s_start,
            wf_upto(*store, hgt + 1),
            families_extend(s_start, *store, hgt as int),
            forall|a: Seq<u8>|
                #[trigger] utxo_base_sats(store.utxos@, a) - ledger_sats(store.addr_txs@, a)
                    == utxo_base_sats(s_start.utxos@, a) - ledger_sats(s_start.addr_txs@, a),
            total_sats(store.utxos@) == total_sats(s_start.utxos@) + txs_out_sats(
                b.txs@.take(i as int),
            ),
            total_out == txs_out_sats(b.txs@.take(i as int)),
            0 <= total_in,
            store.txs@.len() == s_start.txs@.len() + i,
            forall|k: int|
                0 <= k < i ==> (#[trigger] store.txs@[s_start.txs@.len() + k]).hash@
                    == b.txs@[k].hash@,
            i > 0 ==> store.txs@[s_start.txs@.len() as int].meta.variant@
                == crate::slp::spec_classify(
                spec_tx_parse(b.txs@[0]),
                spec_token_inputs(s_start.utxos@, b.txs@[0].inputs@),
                b.txs@[0].hash@,
            ),
        decreases b.txs@.len() - i,
    {
        let ghost s_mid = *store;
        proof {
            lemma_txs_out_prefix(b.txs@, i + 1);
            assert(b.txs@.take(i + 1).drop_last() =~= b.txs@.take(i as int));
            assert(b.txs@.take(i + 1).last() == b.txs@[i as int]);
            lemma_total_sats_prefix(s_start.utxos@, s_start.utxos@.len() as int);
            assert(s_start.utxos@.take(s_start.utxos@.len() as int) =~= s_start.utxos@);
        }
        let sums = apply_tx(store, &b.txs[i], &b.hash, hgt, b.timestamp);
        if total_in > i64::MAX - sums.0 {
            total_in = i64::MAX;
        } else {
            total_in = total_in + sums.0;
        }
        total_out = total_out + sums.1;
        proof {
            lemma_families_extend_trans(s_start, s_mid, *store, hgt as int);
            assert forall|k: int| 0 <= k < i + 1 implies (
            #[trigger] store.txs@[s_start.txs@.len() + k]).hash@ == b.txs@[k].hash@ by {
                if k < i {
                    assert(store.txs@.take(s_mid.txs@.len() as int)[s_start.txs@.len() + k]
                        == store.txs@[s_start.txs@.len() + k]);
                } else {
                    assert(store.txs@.last() == store.txs@[s_start.txs@.len() + k]);
                }
            }
            if i > 0 {
                assert(store.txs@.take(s_mid.txs@.len() as int)[s_start.txs@.len() as int]
                    == store.txs@[s_start.txs@.len() as int]);
            } else {
                assert(store.txs@.last() == store.txs@[s_start.txs@.len() as int]);
            }
        }
        i += 1;
    }
    proof {
        assert(b.txs@.take(i as int) =~= b.txs@);
    }
    let coinbase_data: Vec<u8> = if b.txs.len() > 0 && b.txs[0].inputs.len() > 0 {
        crate::slp::clone_bytes(&b.txs[0].inputs[0].signature_script)
    } else {
        Vec::new()
    };
    let bm = BlockMeta {
        hash: b.hash,
        height: hgt,
        version: b.version,
        previous_block: b.previous_block,
        merkle_root: b.merkle_root,
        timestamp: b.timestamp,
        bits: b.bits,
        nonce: b.nonce,
        total_sats_input: total_in,
        total_sats_output: total_out,
        median_time: b.median_time,
        size: b.size,
        num_txs: b.txs.len() as u64,
        coinbase_data,
    };
    let ghost blocks_pre = store.blocks@;
    store.blocks.push(bm);
    proof {
        assert(store.blocks@.take(blocks_pre.len() as int) =~= blocks_pre);
        assert(store.blocks@.take(s_start.blocks@.len() as int) =~= s_start.blocks@);
        assert forall|k: int| 0 <= k < store.blocks@.len() implies (
        #[trigger] store.blocks@[k]).height == store.base_height + k by {
            if k < blocks_pre.len() {
                assert(store.blocks@.take(blocks_pre.len() as int)[k] == store.blocks@[k]);
            }
        }
        assert forall|k: int|
            1 <= k < store.blocks@.len() implies (#[trigger] store.blocks@[k]).previous_block@
            == store.blocks@[k - 1].hash@ by {
            if k < blocks_pre.len() {
                assert(store.blocks@.take(blocks_pre.len() as int)[k] == store.blocks@[k]);
                assert(store.blocks@.take(blocks_pre.len() as int)[k - 1] == store.blocks@[k - 1]);
            } else {
                if k >= 1 {
                    assert(store.blocks@.take(blocks_pre.len() as int)[k - 1] == store.blocks@[k
                        - 1]);
                }
            }
        }
    }
    Ok(ApplyOutcome::Applied)
}

/// `e` with a spend mark of height `hgt` removed.
pub open spec fn clear_spent_at(e: UtxoEntry, hgt: int) -> UtxoEntry {
    if e.spent matches Some(sp) && sp.block_height == hgt {
        spent_as(e, None)
    } else {
        e
    }
}

/// How a store that retracted its top block relates to the store before:
/// the top block record and every record of its height are gone, and spend
/// marks it made are cleared.
pub open spec fn undo_rel(s1: Store, s2: Store) -> bool {
    let hgt = s1.base_height + s1.blocks@.len() - 1;
    &&& s1.blocks@.len() > 0
    &&& s2.base_height == s1.base_height
    &&& s2.blocks@ == s1.blocks@.drop_last()
    &&& s2.txs@.len() <= s1.txs@.len()
    &&& s2.txs@ == s1.txs@.take(s2.txs@.len() as int)
    &&& forall|j: int|
        0 <= j < s2.txs@.len() ==> (#[trigger] s1.txs@[j]).meta.block_height < hgt
    &&& forall|j: int|
        s2.txs@.len() <= j < s1.txs@.len() ==> (#[trigger] s1.txs@[j]).meta.block_height == hgt
    &&& s2.utxos@.len() <= s1.utxos@.len()
    &&& forall|j: int|
        0 <= j < s2.utxos@.len() ==> #[trigger] s2.utxos@[j] == clear_spent_at(
            s1.utxos@[j],
            hgt,
        ) && s1.utxos@[j].height < hgt
    &&& forall|j: int|
        s2.utxos@.len() <= j < s1.utxos@.len() ==> (#[trigger] s1.utxos@[j]).height == hgt
    &&& s2.addr_txs@.len() <= s1.addr_txs@.len()
    &&& s2.addr_txs@ == s1.addr_txs@.take(s2.addr_txs@.len() as int)
    &&& forall|j: int|
        0 <= j < s2.addr_txs@.len() ==> (#[trigger] s1.addr_txs@[j]).entry.block_height < hgt
    &&& forall|j: int|
        s2.addr_txs@.len() <= j < s1.addr_txs@.len() ==> (
        #[trigger] s1.addr_txs@[j]).entry.block_height == hgt
    &&& s2.tokens@.len() <= s1.tokens@.len()
    &&& s2.tokens@ == s1.tokens@.take(s2.tokens@.len() as int)
    &&& forall|j: int|
        0 <= j < s2.tokens@.len() ==> (#[trigger] s1.tokens@[j]).block_height < hgt
    &&& forall|j: int|
        s2.tokens@.len() <= j < s1.tokens@.len() ==> (#[trigger] s1.tokens@[j]).block_height
            == hgt
}

/// Sequences of equal length and values have equal value sums.
proof fn lemma_total_sats_pointwise(u: Seq<UtxoEntry>, v: Seq<UtxoEntry>)
    requires
        u.len() == v.len(),
        forall|j: int| 0 <= j < u.len() ==> (#[trigger] u[j]).sats == v[j].sats,
    ensures
        total_sats(u) == total_sats(v),
    decreases u.len(),
{
    if u.len() > 0 {
        lemma_total_sats_pointwise(u.drop_last(), v.drop_last());
        assert(u.drop_last().len() == v.drop_last().len());
    }
}

/// Retracts the top block: removes its block record, its transactions,
/// the outputs it created, its ledger entries and token records, and clears
/// the spend marks it made. The exact inverse of applying that block.
#[verifier::rlimit(100)]
#[verifier::loop_isolation(false)]
pub fn undo_block(store: &mut Store) -> (r: Result<(), IngestError>)
    requires
        wf(*old(store)),
    ensures
        wf(*final(store)),
        r matches Err(e) ==> e == IngestError::NothingToUndo && *final(store) == *old(store),
        (r matches Err(e)) <==> old(store).blocks@.len() == 0,
        r matches Ok(o) ==> undo_rel(*old(store), *final(store)),
{
    if store.blocks.len() == 0 {
        return Err(IngestError::NothingToUndo);
    }
    let ghost s1 = *store;
    let hgt: i32 = store.blocks[store.blocks.len() - 1].height;
    proof {
        assert(hgt as int == s1.base_height + s1.blocks@.len() - 1);
    }
    store.blocks.pop();
    // transactions of the top block form a suffix
    let ghost t0 = store.txs@;
    while store.txs.len() > 0 && store.txs[store.txs.len() - 1].meta.block_height == hgt
        invariant
            store.base_height == s1.base_height,
            store.blocks@ == s1.blocks@.drop_last(),
            store.utxos@ == s1.utxos@,
            store.addr_txs@ == s1.addr_txs@,
            store.tokens@ == s1.tokens@,
            store.txs@.len() <= t0.len(),
            store.txs@ == t0.take(store.txs@.len() as int),
            forall|j: int|
                store.txs@.len() <= j < t0.len() ==> (#[trigger] t0[j]).meta.block_height
                    == hgt,
        decreases store.txs@.len(),
    {
        store.txs.pop();
        proof {
            assert(store.txs@ =~= t0.take(store.txs@.len() as int));
        }
    }
    let ghost t1 = store.txs@;
    proof {
        assert forall|jj: int| 0 <= jj < t1.len() implies (#[trigger] s1.txs@[jj]).meta.block_height
            < hgt by {
            let klen_t = t1.len() as int;
            assert(store.txs@[klen_t - 1] == t0.take(klen_t)[klen_t - 1]);
            assert(t0[klen_t - 1].meta.block_height != hgt);
            assert(t0[klen_t - 1].meta.block_height < hgt + 1);
            assert(t0[jj].meta.block_height <= t0[klen_t - 1].meta.block_height);
        }
    }
    // outputs created by the top block form a suffix
    let ghost u0 = store.utxos@;
    while store.utxos.len() > 0 && store.utxos[store.utxos.len() - 1].height == hgt
        invariant
            store.base_height == s1.base_height,
            store.blocks@ == s1.blocks@.drop_last(),
            store.txs@ == t1,
            store.addr_txs@ == s1.addr_txs@,
            store.tokens@ == s1.tokens@,
            store.utxos@.len() <= u0.len(),
            store.utxos@ == u0.take(store.utxos@.len() as int),
            forall|j: int|
                store.utxos@.len() <= j < u0.len() ==> (#[trigger] u0[j]).height == hgt,
        decreases store.utxos@.len(),
    {
        store.utxos.pop();
        proof {
            assert(store.utxos@ =~= u0.take(store.utxos@.len() as int));
        }
    }
    let ghost u1 = store.utxos@;
    proof {
        assert forall|jj: int| 0 <= jj < u1.len() implies (#[trigger] s1.utxos@[jj]).height
            < hgt by {
            let klen_u = u1.len() as int;
            assert(store.utxos@[klen_u - 1] == u0.take(klen_u)[klen_u - 1]);
            assert(u0[klen_u - 1].height != hgt);
            assert(u0[klen_u - 1].height < hgt + 1);
            assert(u0[jj].height <= u0[klen_u - 1].height);
        }
    }
    // clear the spend marks the top block made
    let mut j: usize = 0;
    while j < store.utxos.len()
        invariant
            0 <= j <= store.utxos@.len(),
            store.base_height == s1.base_height,
            store.blocks@ == s1.blocks@.drop_last(),
            store.txs@ == t1,
            store.addr_txs@ == s1.addr_txs@,
            store.tokens@ == s1.tokens@,
            store.utxos@.len() == u1.len(),
            forall|k: int|
                0 <= k < j ==> #[trigger] store.utxos@[k] == clear_spent_at(u1[k], hgt as int),
            forall|k: int| j <= k < u1.len() ==> #[trigger] store.utxos@[k] == u1[k],
        decreases store.utxos@.len() - j,
    {
        let needs_clear = match &store.utxos[j].spent {
            Some(sp) => sp.block_height == hgt,
            None => false,
        };
        if needs_clear {
            let ghost cur = store.utxos@;
            let mut tmp = empty_entry();
            core::mem::swap(&mut store.utxos[j], &mut tmp);
            let e2 = UtxoEntry { spent: None, ..tmp };
            store.utxos[j] = e2;
            proof {
                assert(store.utxos@ =~= cur.update(j as int, e2));
            }
        }
        j += 1;
    }
    let ghost u2 = store.utxos@;
    // the suffix of ledger entries and token records at the top height
    let ghost l0 = store.addr_txs@;
    while store.addr_txs.len() > 0 && store.addr_txs[store.addr_txs.len()
        - 1].entry.block_height == hgt
        invariant
            store.base_height == s1.base_height,
            store.blocks@ == s1.blocks@.drop_last(),
            store.txs@ == t1,
            store.utxos@ == u2,
            store.tokens@ == s1.tokens@,
            store.addr_txs@.len() <= l0.len(),
            store.addr_txs@ == l0.take(store.addr_txs@.len() as int),
            forall|k: int|
                store.addr_txs@.len() <= k < l0.len() ==> (#[trigger] l0[k]).entry.block_height
                    == hgt,
        decreases store.addr_txs@.len(),
    {
        store.addr_txs.pop();
        proof {
            assert(store.addr_txs@ =~= l0.take(store.addr_txs@.len() as int));
        }
    }
    let ghost l1 = store.addr_txs@;
    proof {
        assert forall|jj: int| 0 <= jj < l1.len() implies (
        #[trigger] s1.addr_txs@[jj]).entry.block_height < hgt by {
            let klen_l = l1.len() as int;
            assert(store.addr_txs@[klen_l - 1] == l0.take(klen_l)[klen_l - 1]);
            assert(l0[klen_l - 1].entry.block_height != hgt);
            assert(l0[klen_l - 1].entry.block_height < hgt + 1);
            assert(l0[jj].entry.block_height <= l0[klen_l - 1].entry.block_height);
        }
    }
    let ghost k0 = store.tokens@;
    while store.tokens.len() > 0 && store.tokens[store.tokens.len() - 1].block_height == hgt
        invariant
            store.base_height == s1.base_height,
            store.blocks@ == s1.blocks@.drop_last(),
            store.txs@ == t1,
            store.utxos@ == u2,
            store.addr_txs@ == l1,
            store.tokens@.len() <= k0.len(),
            store.tokens@ == k0.take(store.tokens@.len() as int),
            forall|k: int|
                store.tokens@.len() <= k < k0.len() ==> (#[trigger] k0[k]).block_height == hgt,
        decreases store.tokens@.len(),
    {
        store.tokens.pop();
        proof {
            assert(store.tokens@ =~= k0.take(store.tokens@.len() as int));
        }
    }
    proof {
        assert forall|jj: int| 0 <= jj < store.tokens@.len() implies (
        #[trigger] s1.tokens@[jj]).block_height < hgt by {
            let klen_k = store.tokens@.len() as int;
            assert(store.tokens@[klen_k - 1] == k0.take(klen_k)[klen_k - 1]);
            assert(k0[klen_k - 1].block_height != hgt);
            assert(k0[klen_k - 1].block_height < hgt + 1);
            assert(k0[jj].block_height <= k0[klen_k - 1].block_height);
        }
        // well-formedness below the new bound
        assert forall|jj: int| 0 <= jj < store.blocks@.len() implies (
        #[trigger] store.blocks@[jj]).height == store.base_height + jj by {
            assert(store.blocks@[jj] == s1.blocks@[jj]);
        }
        assert forall|jj: int|
            1 <= jj < store.blocks@.len() implies (#[trigger] store.blocks@[jj]).previous_block@
            == store.blocks@[jj - 1].hash@ by {
            assert(store.blocks@[jj] == s1.blocks@[jj]);
            assert(store.blocks@[jj - 1] == s1.blocks@[jj - 1]);
        }
        assert forall|jj: int| 0 <= jj < store.utxos@.len() implies {
            &&& store.base_height <= (#[trigger] store.utxos@[jj]).height < hgt
            &&& store.utxos@[jj].sats >= 0
            &&& (store.utxos@[jj].spent matches Some(sp) ==> store.base_height <= sp.block_height
                < hgt)
        } by {
            assert(store.utxos@[jj] == clear_spent_at(u1[jj], hgt as int));
            assert(u1[jj] == u0[jj]);
        }
        assert(total_sats(store.utxos@) <= i64::MAX) by {
            assert forall|jj: int| 0 <= jj < store.utxos@.len() implies (
            #[trigger] store.utxos@[jj]).sats == u1[jj].sats by {
                assert(store.utxos@[jj] == clear_spent_at(u1[jj], hgt as int));
            }
            lemma_total_sats_pointwise(store.utxos@, u1);
            assert forall|jj: int| 0 <= jj < u0.len() implies (#[trigger] u0[jj]).sats >= 0 by {}
            lemma_total_sats_prefix(u0, u1.len() as int);
        }
    }
    Ok(())
}

/// Conservation: applying a block keeps every address's live base-currency
/// holdings equal to the running sum of its ledger deltas. Together with the
/// freshly opened store being balanced, every store reached by ingestion is
/// balanced.
pub proof fn lemma_apply_preserves_balance(s0: Store, b: BlockData, s1: Store)
    requires
        balanced(s0),
        apply_block_rel(s0, b, s1),
    ensures
        balanced(s1),
{
}

/// Retracting a block just applied restores the store exactly: applying
/// blocks up to a height and then reorganizing one step back leaves the
/// same store as never having applied the top block.
pub proof fn lemma_reorg_inverts_apply(s0: Store, b: BlockData, s1: Store, s2: Store)
    requires
        wf(s0),
        block_ok(s0, b),
        apply_block_rel(s0, b, s1),
        undo_rel(s1, s2),
    ensures
        s2.base_height == s0.base_height,
        s2.blocks@ == s0.blocks@,
        s2.txs@ == s0.txs@,
        s2.utxos@ == s0.utxos@,
        s2.addr_txs@ == s0.addr_txs@,
        s2.tokens@ == s0.tokens@,
{
    let hgt = b.height as int;
    assert(s1.base_height + s1.blocks@.len() - 1 == hgt);
    assert(s2.blocks@ =~= s0.blocks@) by {
        assert forall|j: int| 0 <= j < s0.blocks@.len() implies s1.blocks@.drop_last()[j]
            == s0.blocks@[j] by {
            assert(s1.blocks@.take(s0.blocks@.len() as int)[j] == s1.blocks@[j]);
        }
    }
    // the retracted suffixes are exactly the appended ones
    let k_t = s2.txs@.len() as int;
    let n_t = s0.txs@.len() as int;
    assert(k_t == n_t) by {
        if k_t < n_t {
            assert(s1.txs@.take(n_t)[k_t] == s1.txs@[k_t]);
            assert(s0.txs@[k_t].meta.block_height < hgt);
            assert(s1.txs@[k_t].meta.block_height == hgt);
        }
        if k_t > n_t {
            assert(s1.txs@[s0.txs@.len() as int + 0].meta.block_height == hgt);
            assert(s1.txs@[n_t].meta.block_height < hgt);
        }
    }
    assert(s2.txs@ =~= s0.txs@) by {
        assert forall|j: int| 0 <= j < n_t implies s2.txs@[j] == s0.txs@[j] by {
            assert(s2.txs@[j] == s1.txs@.take(k_t)[j]);
            assert(s1.txs@.take(n_t)[j] == s1.txs@[j]);
        }
    }
    let k_u = s2.utxos@.len() as int;
    let n_u = s0.utxos@.len() as int;
    assert(k_u == n_u) by {
        if k_u < n_u {
            assert(same_except_spent_at(s0.utxos@[k_u], s1.utxos@[k_u], hgt));
            assert(s0.utxos@[k_u].height < hgt);
            assert(s1.utxos@[k_u].height == hgt);
        }
        if k_u > n_u {
            assert(s1.utxos@[n_u].height == hgt);
            let e_trig = s2.utxos@[n_u];
            assert(s1.utxos@[n_u].height < hgt);
        }
    }
    assert(s2.utxos@ =~= s0.utxos@) by {
        assert forall|j: int| 0 <= j < n_u implies s2.utxos@[j] == s0.utxos@[j] by {
            assert(same_except_spent_at(s0.utxos@[j], s1.utxos@[j], hgt));
            assert(s2.utxos@[j] == clear_spent_at(s1.utxos@[j], hgt));
            if s1.utxos@[j] == s0.utxos@[j] {
                match s0.utxos@[j].spent {
                    Some(sp) => {
                        assert(sp.block_height < hgt);
                    },
                    None => {},
                }
            } else {
                assert(s1.utxos@[j] == spent_as(s0.utxos@[j], s1.utxos@[j].spent));
                assert(s2.utxos@[j] == spent_as(s1.utxos@[j], None));
                assert(s0.utxos@[j].spent is None);
            }
        }
    }
    let k_l = s2.addr_txs@.len() as int;
    let n_l = s0.addr_txs@.len() as int;
    assert(k_l == n_l) by {
        if k_l < n_l {
            assert(s1.addr_txs@.take(n_l)[k_l] == s1.addr_txs@[k_l]);
            assert(s0.addr_txs@[k_l].entry.block_height < hgt);
            assert(s1.addr_txs@[k_l].entry.block_height == hgt);
        }
        if k_l > n_l {
            assert(s1.addr_txs@[s0.addr_txs@.len() as int + 0].entry.block_height == hgt);
            assert(s1.addr_txs@[n_l].entry.block_height < hgt);
        }
    }
    assert(s2.addr_txs@ =~= s0.addr_txs@) by {
        assert forall|j: int| 0 <= j < n_l implies s2.addr_txs@[j] == s0.addr_txs@[j] by {
            assert(s2.addr_txs@[j] == s1.addr_txs@.take(k_l)[j]);
            assert(s1.addr_txs@.take(n_l)[j] == s1.addr_txs@[j]);
        }
    }
    let k_k = s2.tokens@.len() as int;
    let n_k = s0.tokens@.len() as int;
    assert(k_k == n_k) by {
        if k_k < n_k {
            assert(s1.tokens@.take(n_k)[k_k] == s1.tokens@[k_k]);
            assert(s0.tokens@[k_k].block_height < hgt);
            assert(s1.tokens@[k_k].block_height == hgt);
        }
        if k_k > n_k {
            assert(s1.tokens@[s0.tokens@.len() as int + 0].block_height == hgt);
            assert(s1.tokens@[n_k].block_height < hgt);
        }
    }
    assert(s2.tokens@ =~= s0.tokens@) by {
        assert forall|j: int| 0 <= j < n_k implies s2.tokens@[j] == s0.tokens@[j] by {
            assert(s2.tokens@[j] == s1.tokens@.take(k_k)[j]);
            assert(s1.tokens@.take(n_k)[j] == s1.tokens@[j]);
        }
    }
}

/// Resolves the token contents of a transaction's inputs against the
/// current snapshot.
fn gather_token_inputs(store: &Store, t: &TxData) -> (r: Vec<SlpTokenInput>)
    ensures
        r@ == spec_token_inputs(store.utxos@, t.inputs@),
{
    let mut out: Vec<SlpTokenInput> = Vec::new();
    let mut i: usize = 0;
    while i < t.inputs.len()
        invariant
            0 <= i <= t.inputs@.len(),
            out@ == spec_token_inputs(store.utxos@, t.inputs@).take(i as int),
        decreases t.inputs@.len() - i,
    {
        let inp = &t.inputs[i];
        let item = match store.find_live_utxo(&inp.outpoint_tx_hash, inp.outpoint_out_idx) {
            Some(j) => {
                let e = &store.utxos[j];
                SlpTokenInput { token_id: e.token_id, amount: e.token_amount, is_mint_baton: e.is_mint_baton }
            },
            None => SlpTokenInput { token_id: None, amount: 0, is_mint_baton: false },
        };
        out.push(item);
        assert(out@ =~= spec_token_inputs(store.utxos@, t.inputs@).take(i + 1));
        i += 1;
    }
    assert(out@ =~= spec_token_inputs(store.utxos@, t.inputs@));
    out
}

} // verus!
