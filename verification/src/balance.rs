//! Address ledger and balance aggregation: folds an address's live outputs
//! into one group per token (plus the base-currency group), each with its
//! live outputs ordered most-recent first, and the groups ordered with the
//! base currency first and token groups by descending latest height.

use vstd::prelude::*;

use crate::primitives::Utxo;
use crate::store::{Store, UtxoEntry};

verus! {

/// One live output as served to the presentation layer, with its outpoint.
#[derive(Debug, Clone, Copy)]
pub struct AddressUtxo {
    pub tx_hash: [u8; 32],
    pub out_idx: u32,
    pub utxo: Utxo,
}

/// One balance group of an address: the base-currency group (no token id)
/// or one token's group, with its live outputs and summed amounts.
#[derive(Debug, Clone)]
pub struct BalanceGroup {
    pub token_id: Option<[u8; 32]>,
    pub sats_amount: i64,
    pub token_amount: u64,
    pub utxos: Vec<AddressUtxo>,
}

/// Whether the entry is a live output of address `a`.
pub open spec fn live_for(e: UtxoEntry, a: Seq<u8>) -> bool {
    e.spent is None && (e.addr matches Some(k) && k@ == a)
}

/// Whether the entry belongs to the group keyed `t`.
pub open spec fn tid_match(e: UtxoEntry, t: Option<[u8; 32]>) -> bool {
    match (e.token_id, t) {
        (None, None) => true,
        (Some(x), Some(y)) => x@ == y@,
        _ => false,
    }
}

/// The served form of a stored entry.
pub open spec fn spec_address_utxo(e: UtxoEntry) -> AddressUtxo {
    AddressUtxo {
        tx_hash: e.tx_hash,
        out_idx: e.out_idx,
        utxo: Utxo {
            sats_amount: e.sats,
            token_amount: e.token_amount,
            is_coinbase: e.is_coinbase,
            block_height: e.height,
            token_id: e.token_id,
        },
    }
}

/// The live outputs of address `a` in group `t`, most recently stored
/// first.
pub open spec fn gather(u: Seq<UtxoEntry>, a: Seq<u8>, t: Option<[u8; 32]>) -> Seq<AddressUtxo>
    decreases u.len(),
{
    if u.len() == 0 {
        Seq::empty()
    } else {
        if live_for(u.last(), a) && tid_match(u.last(), t) {
            seq![spec_address_utxo(u.last())] + gather(u.drop_last(), a, t)
        } else {
            gather(u.drop_last(), a, t)
        }
    }
}

/// Summed value of the group.
pub open spec fn group_sats(u: Seq<UtxoEntry>, a: Seq<u8>, t: Option<[u8; 32]>) -> int
    decreases u.len(),
{
    if u.len() == 0 {
        0
    } else {
        group_sats(u.drop_last(), a, t) + (if live_for(u.last(), a) && tid_match(u.last(), t) {
            u.last().sats as int
        } else {
            0
        })
    }
}

/// Summed token amount of the group.
pub open spec fn group_tokens(u: Seq<UtxoEntry>, a: Seq<u8>, t: Option<[u8; 32]>) -> nat
    decreases u.len(),
{
    if u.len() == 0 {
        0
    } else {
        group_tokens(u.drop_last(), a, t) + (if live_for(u.last(), a) && tid_match(u.last(), t) {
            u.last().token_amount as nat
        } else {
            0
        })
    }
}

/// Builds one group's member list and sums, scanning newest first.
fn gather_group(store: &Store, a: &Vec<u8>, t: &Option<[u8; 32]>) -> (r: (
    Vec<AddressUtxo>,
    i64,
    u64,
))
    requires
        forall|j: int| 0 <= j < store.utxos@.len() ==> (#[trigger] store.utxos@[j]).sats >= 0,
        crate::store::total_sats(store.utxos@) <= i64::MAX,
    ensures
        r.0@ == gather(store.utxos@, a@, *t),
        r.1 == group_sats(store.utxos@, a@, *t),
        r.2 == crate::slp::clamp_u64(group_tokens(store.utxos@, a@, *t)),
{
    let u = &store.utxos;
    let mut out: Vec<AddressUtxo> = Vec::new();
    let mut sats: i64 = 0;
    let mut toks: u128 = 0;
    let mut i: usize = u.len();
    proof {
        assert(u@.take(u@.len() as int) =~= u@);
        assert(out@ + gather(u@, a@, *t) =~= gather(u@, a@, *t));
    }
    while i > 0
        invariant
            0 <= i <= u@.len(),
            u@.len() <= usize::MAX,
            u@ == store.utxos@,
            forall|j: int| 0 <= j < u@.len() ==> (#[trigger] u@[j]).sats >= 0,
            crate::store::total_sats(u@) <= i64::MAX,
            gather(u@, a@, *t) == out@ + gather(u@.take(i as int), a@, *t),
            group_sats(u@, a@, *t) == sats + group_sats(u@.take(i as int), a@, *t),
            group_tokens(u@, a@, *t) == toks + group_tokens(u@.take(i as int), a@, *t),
            0 <= sats,
        decreases i,
    {
        proof {
            assert(u@.take(i as int).drop_last() =~= u@.take(i - 1));
            assert(u@.take(i as int).last() == u@[i - 1]);
            lemma_group_bounds(u@, a@, *t, i - 1);
            lemma_group_bounds(u@, a@, *t, i as int);
            lemma_group_bounds(u@, a@, *t, u@.len() as int);
            assert(u@.take(u@.len() as int) =~= u@);
            crate::store::lemma_sats_bounds(u@, Seq::empty());
            assert(group_sats(u@, a@, *t) <= crate::store::total_sats(u@)) by {
                lemma_group_within_total(u@, a@, *t);
            }
            assert(u@.len() * (u64::MAX as int) <= u128::MAX - u64::MAX) by (nonlinear_arith)
                requires
                    u@.len() <= usize::MAX,
            ;
        }
        let e = &u[i - 1];
        let is_live = e.spent.is_none();
        let addr_hit = match &e.addr {
            Some(k) => crate::bytes_eq(k.as_slice(), a.as_slice()),
            None => false,
        };
        let tid_hit = match (&e.token_id, t) {
            (None, None) => true,
            (Some(x), Some(y)) => crate::bytes_eq(x.as_slice(), y.as_slice()),
            _ => false,
        };
        if is_live && addr_hit && tid_hit {
            out.push(
                AddressUtxo {
                    tx_hash: e.tx_hash,
                    out_idx: e.out_idx,
                    utxo: Utxo {
                        sats_amount: e.sats,
                        token_amount: e.token_amount,
                        is_coinbase: e.is_coinbase,
                        block_height: e.height,
                        token_id: e.token_id,
                    },
                },
            );
            sats = sats + e.sats;
            toks = toks + (e.token_amount as u128);
            proof {
                assert(out@ =~= out@.subrange(0, out@.len() - 1).push(
                    spec_address_utxo(u@[i - 1]),
                ));
                assert forall|r2: Seq<AddressUtxo>|
                    out@.subrange(0, out@.len() - 1) + (seq![spec_address_utxo(u@[i - 1])] + r2)
                        =~= out@ + r2 by {}
            }
        }
        i -= 1;
    }
    proof {
        assert(u@.take(0) =~= Seq::<UtxoEntry>::empty());
        assert(out@ + Seq::<AddressUtxo>::empty() =~= out@);
    }
    let tok_total = if toks > (u64::MAX as u128) {
        u64::MAX
    } else {
        toks as u64
    };
    (out, sats, tok_total)
}

/// The newest member of a group is the newest matching entry.
proof fn lemma_gather_first(u: Seq<UtxoEntry>, a: Seq<u8>, t: Option<[u8; 32]>, g: int)
    requires
        0 <= g < u.len(),
        live_for(u[g], a) && tid_match(u[g], t),
        forall|k: int| g < k < u.len() ==> !(live_for(#[trigger] u[k], a) && tid_match(u[k], t)),
    ensures
        gather(u, a, t).len() > 0,
        gather(u, a, t)[0] == spec_address_utxo(u[g]),
    decreases u.len(),
{
    if g == u.len() - 1 {
        assert(u.last() == u[g]);
    } else {
        assert(!(live_for(u[u.len() - 1], a) && tid_match(u[u.len() - 1], t)));
        assert(forall|k: int|
            g < k < u.drop_last().len() ==> !(live_for(#[trigger] u.drop_last()[k], a)
                && tid_match(u.drop_last()[k], t)));
        assert(u.drop_last()[g] == u[g]);
        lemma_gather_first(u.drop_last(), a, t, g);
    }
}

/// Two group keys denote the same group.
pub open spec fn tid_eq(x: Option<[u8; 32]>, y: Option<[u8; 32]>) -> bool {
    match (x, y) {
        (None, None) => true,
        (Some(p), Some(q)) => p@ == q@,
        _ => false,
    }
}

/// The balance summary of an address: one group per token ever held live,
/// plus the base-currency group, the base-currency group first and token
/// groups ordered by descending height of their most recent output; within
/// a group, outputs are ordered most recent first.
#[verifier::rlimit(100)]
#[verifier::loop_isolation(false)]
pub fn address_balance(store: &Store, addr: &Vec<u8>) -> (r: Vec<BalanceGroup>)
    requires
        crate::store::wf(*store),
    ensures
        forall|i: int|
            0 <= i < r@.len() ==> {
                let g = #[trigger] r@[i];
                &&& g.utxos@ == gather(store.utxos@, addr@, g.token_id)
                &&& g.sats_amount == group_sats(store.utxos@, addr@, g.token_id)
                &&& g.token_amount == crate::slp::clamp_u64(
                    group_tokens(store.utxos@, addr@, g.token_id),
                )
            },
        forall|i: int| 1 <= i < r@.len() ==> (#[trigger] r@[i]).token_id is Some
            && r@[i].utxos@.len() > 0,
        (exists|j: int|
            0 <= j < store.utxos@.len() && live_for(#[trigger] store.utxos@[j], addr@)
                && store.utxos@[j].token_id is None) <==> (r@.len() > 0 && r@[0].token_id is None),
        forall|i: int, j: int| 0 <= i < j < r@.len() ==> !tid_eq(
            (#[trigger] r@[i]).token_id,
            (#[trigger] r@[j]).token_id,
        ),
        forall|j: int|
            0 <= j < store.utxos@.len() && live_for(#[trigger] store.utxos@[j], addr@)
                ==> exists|i: int|
                0 <= i < r@.len() && tid_match(store.utxos@[j], (#[trigger] r@[i]).token_id),
        forall|i: int, j: int|
            1 <= i < j < r@.len() ==> (#[trigger] r@[i]).utxos@[0].utxo.block_height >= (
            #[trigger] r@[j]).utxos@[0].utxo.block_height,
        forall|i: int, k1: int, k2: int|
            0 <= i < r@.len() && 0 <= k1 < k2 < r@[i].utxos@.len() ==> (
            #[trigger] r@[i].utxos@[k1]).utxo.block_height >= (
            #[trigger] r@[i].utxos@[k2]).utxo.block_height,
{
    let u = &store.utxos;
    let ghost uv = store.utxos@;
    // discover the token groups, newest first, and whether a base group
    // exists
    let mut keys: Vec<[u8; 32]> = Vec::new();
    let ghost mut ps: Seq<int> = Seq::empty();
    let mut has_base = false;
    let ghost mut base_at: int = 0;
    let mut i: usize = u.len();
    while i > 0
        invariant
            0 <= i <= uv.len(),
            ps.len() == keys@.len(),
            forall|m: int|
                0 <= m < keys@.len() ==> {
                    let p = #[trigger] ps[m];
                    &&& i <= p < uv.len()
                    &&& live_for(uv[p], addr@)
                    &&& (uv[p].token_id matches Some(x) && x@ == keys@[m]@)
                    &&& forall|q: int|
                        p < q < uv.len() ==> !(live_for(#[trigger] uv[q], addr@) && tid_match(
                            uv[q],
                            Some(keys@[m]),
                        ))
                },
            forall|m: int, n: int| 0 <= m < n < keys@.len() ==> ps[m] > ps[n],
            forall|m: int, n: int|
                0 <= m < n < keys@.len() ==> (#[trigger] keys@[m])@ != (#[trigger] keys@[n])@,
            forall|q: int|
                i <= q < uv.len() && live_for(#[trigger] uv[q], addr@) && uv[q].token_id is Some
                    ==> exists|m: int|
                    0 <= m < keys@.len() && tid_match(uv[q], Some(#[trigger] keys@[m])),
            has_base <==> (exists|q: int|
                i <= q < uv.len() && live_for(#[trigger] uv[q], addr@)
                    && uv[q].token_id is None),
            has_base ==> i <= base_at < uv.len() && live_for(uv[base_at], addr@)
                && uv[base_at].token_id is None,
        decreases i,
    {
        let ghost keys_pre = keys@;
        let e = &u[i - 1];
        let is_live = e.spent.is_none();
        let addr_hit = match &e.addr {
            Some(k) => crate::bytes_eq(k.as_slice(), addr.as_slice()),
            None => false,
        };
        if is_live && addr_hit {
            match &e.token_id {
                Some(x) => {
                    let mut seen = false;
                    let mut m: usize = 0;
                    while m < keys.len()
                        invariant
                            0 <= m <= keys@.len(),
                            seen <==> (exists|n: int|
                                0 <= n < m && (#[trigger] keys@[n])@ == x@),
                        decreases keys@.len() - m,
                    {
                        if crate::bytes_eq(keys[m].as_slice(), x.as_slice()) {
                            seen = true;
                            proof {
                                assert(0 <= m < m + 1 && keys@[m as int]@ == x@);
                            }
                            break;
                        }
                        m += 1;
                    }
                    if !seen {
                        keys.push(*x);
                        proof {
                            ps = ps.push(i - 1);
                            assert(keys@[keys@.len() - 1]@ == x@);
                        }
                    }
                    proof {
                        assert(exists|m2: int|
                            0 <= m2 < keys@.len() && (#[trigger] keys@[m2])@ == x@);
                        let m2 = choose|m2: int|
                            0 <= m2 < keys@.len() && (#[trigger] keys@[m2])@ == x@;
                        assert(tid_match(uv[i - 1], Some(keys@[m2])));
                    }
                },
                None => {
                    if !has_base {
                        has_base = true;
                        proof {
                            base_at = i - 1;
                        }
                    }
                },
            }
        }
        proof {
            assert forall|q: int|
                i <= q < uv.len() && live_for(#[trigger] uv[q], addr@) && uv[q].token_id
                    is Some implies exists|m2: int|
                0 <= m2 < keys@.len() && tid_match(uv[q], Some(#[trigger] keys@[m2])) by {
                let m2 = choose|m2: int|
                    0 <= m2 < keys_pre.len() && tid_match(uv[q], Some(#[trigger] keys_pre[m2]));
                assert(keys@[m2] == keys_pre[m2]);
                assert(tid_match(uv[q], Some(keys@[m2])));
            }
        }
        i -= 1;
    }
    // assemble the groups: base currency first, then tokens newest first
    let mut out: Vec<BalanceGroup> = Vec::new();
    if has_base {
        let none_key: Option<[u8; 32]> = None;
        let g = gather_group(store, addr, &none_key);
        out.push(BalanceGroup { token_id: None, sats_amount: g.1, token_amount: g.2, utxos: g.0 });
    }
    let base_count = out.len();
    let mut m: usize = 0;
    while m < keys.len()
        invariant
            0 <= m <= keys@.len(),
            out@.len() == base_count + m,
            base_count == if has_base {
                1int
            } else {
                0int
            },
            has_base ==> out@.len() > 0 && out@[0].token_id is None,
            forall|n: int|
                base_count <= n < out@.len() ==> ((#[trigger] out@[n]).token_id matches Some(x)
                    && x@ == keys@[n - base_count]@) && out@[n].utxos@.len() > 0
                    && out@[n].utxos@[0].utxo.block_height == uv[ps[n - base_count]].height,
            forall|n: int|
                0 <= n < out@.len() ==> {
                    let g = #[trigger] out@[n];
                    &&& g.utxos@ == gather(uv, addr@, g.token_id)
                    &&& g.sats_amount == group_sats(uv, addr@, g.token_id)
                    &&& g.token_amount == crate::slp::clamp_u64(group_tokens(uv, addr@, g.token_id))
                },
        decreases keys@.len() - m,
    {
        let key: Option<[u8; 32]> = Some(keys[m]);
        let g = gather_group(store, addr, &key);
        proof {
            lemma_gather_first(uv, addr@, Some(keys@[m as int]), ps[m as int]);
        }
        out.push(
            BalanceGroup { token_id: key, sats_amount: g.1, token_amount: g.2, utxos: g.0 },
        );
        m += 1;
    }
    proof {
        assert forall|i2: int, j2: int| 1 <= i2 < j2 < out@.len() implies (
        #[trigger] out@[i2]).utxos@[0].utxo.block_height >= (
        #[trigger] out@[j2]).utxos@[0].utxo.block_height by {
            if i2 >= base_count && j2 >= base_count {
                let pi = ps[i2 - base_count];
                let pj = ps[j2 - base_count];
                assert(pi > pj);
            } else {
                assert(base_count == 1 && i2 >= 1);
                let pi = ps[i2 - 1];
                let pj = ps[j2 - 1];
                assert(pi > pj);
            }
        }
        assert forall|j2: int|
            0 <= j2 < uv.len() && live_for(#[trigger] uv[j2], addr@) implies exists|i2: int|
            0 <= i2 < out@.len() && tid_match(uv[j2], (#[trigger] out@[i2]).token_id) by {
            match uv[j2].token_id {
                Some(_) => {
                    let m2 = choose|m2: int|
                        0 <= m2 < keys@.len() && tid_match(uv[j2], Some(#[trigger] keys@[m2]));
                    assert(out@[base_count + m2].token_id matches Some(x) && x@ == keys@[m2]@);
                    assert(tid_match(uv[j2], out@[base_count + m2].token_id));
                },
                None => {
                    assert(has_base);
                    assert(tid_match(uv[j2], out@[0].token_id));
                },
            }
        }
        assert forall|i2: int, k1: int, k2: int|
            0 <= i2 < out@.len() && 0 <= k1 < k2 < out@[i2].utxos@.len() implies (
        #[trigger] out@[i2].utxos@[k1]).utxo.block_height >= (
        #[trigger] out@[i2].utxos@[k2]).utxo.block_height by {
            lemma_gather_sorted(uv, addr@, out@[i2].token_id);
        }
        assert forall|i2: int, j2: int| 0 <= i2 < j2 < out@.len() implies !tid_eq(
            (#[trigger] out@[i2]).token_id,
            (#[trigger] out@[j2]).token_id,
        ) by {
            if i2 >= base_count {
                assert(keys@[i2 - base_count]@ != keys@[j2 - base_count]@);
            }
        }
    }
    out
}

/// A group's value sum stays within the store's total.
proof fn lemma_group_within_total(u: Seq<UtxoEntry>, a: Seq<u8>, t: Option<[u8; 32]>)
    requires
        forall|j: int| 0 <= j < u.len() ==> (#[trigger] u[j]).sats >= 0,
    ensures
        group_sats(u, a, t) <= crate::store::total_sats(u),
    decreases u.len(),
{
    if u.len() > 0 {
        lemma_group_within_total(u.drop_last(), a, t);
    }
}

/// Any group's sums stay within the store's totals; token sums stay within
/// the accumulator.
proof fn lemma_group_bounds(u: Seq<UtxoEntry>, a: Seq<u8>, t: Option<[u8; 32]>, i: int)
    requires
        forall|j: int| 0 <= j < u.len() ==> (#[trigger] u[j]).sats >= 0,
        0 <= i <= u.len(),
    ensures
        0 <= group_sats(u.take(i), a, t),
        0 <= group_tokens(u.take(i), a, t) <= i * (u64::MAX as int),
    decreases i,
{
    if i > 0 {
        lemma_group_bounds(u, a, t, i - 1);
        assert(u.take(i).drop_last() =~= u.take(i - 1));
        assert(u.take(i).last() == u[i - 1]);
        assert((i - 1) * (u64::MAX as int) + (u64::MAX as int) == i * (u64::MAX as int))
            by (nonlinear_arith);
    } else {
        assert(u.take(0) =~= Seq::<UtxoEntry>::empty());
    }
}

/// The members of a group of a well-ordered store are ordered by
/// descending creation height, and none is newer than the store's last
/// entry.
proof fn lemma_gather_sorted(u: Seq<UtxoEntry>, a: Seq<u8>, t: Option<[u8; 32]>)
    requires
        forall|j: int, k: int| 0 <= j < k < u.len() ==> u[j].height <= u[k].height,
    ensures
        forall|i: int, j: int|
            0 <= i < j < gather(u, a, t).len() ==> gather(u, a, t)[i].utxo.block_height >= gather(
                u,
                a,
                t,
            )[j].utxo.block_height,
        forall|i: int|
            0 <= i < gather(u, a, t).len() && u.len() > 0 ==> gather(u, a, t)[i].utxo.block_height
                <= u.last().height,
    decreases u.len(),
{
    if u.len() > 0 {
        assert(forall|j: int, k: int|
            0 <= j < k < u.drop_last().len() ==> u.drop_last()[j].height
                <= u.drop_last()[k].height);
        lemma_gather_sorted(u.drop_last(), a, t);
        let g = gather(u, a, t);
        let gr = gather(u.drop_last(), a, t);
        if live_for(u.last(), a) && tid_match(u.last(), t) {
            assert(g == seq![spec_address_utxo(u.last())] + gr);
            assert forall|i: int| 0 <= i < g.len() && u.len() > 0 implies g[i].utxo.block_height
                <= u.last().height by {
                if i > 0 {
                    assert(g[i] == gr[i - 1]);
                    if u.drop_last().len() > 0 {
                        assert(gr[i - 1].utxo.block_height <= u.drop_last().last().height);
                        assert(u.drop_last().last() == u[u.len() - 2]);
                    }
                }
            }
            assert forall|i: int, j: int| 0 <= i < j < g.len() implies g[i].utxo.block_height
                >= g[j].utxo.block_height by {
                if i > 0 {
                    assert(g[i] == gr[i - 1]);
                    assert(g[j] == gr[j - 1]);
                } else {
                    assert(g[j] == gr[j - 1]);
                    if u.drop_last().len() > 0 {
                        assert(gr[j - 1].utxo.block_height <= u.drop_last().last().height);
                        assert(u.drop_last().last() == u[u.len() - 2]);
                        assert(u[u.len() - 2].height <= u.last().height);
                    }
                }
            }
        } else {
            assert(g == gr);
            assert forall|i: int| 0 <= i < g.len() && u.len() > 0 implies g[i].utxo.block_height
                <= u.last().height by {
                if u.drop_last().len() > 0 {
                    assert(u.drop_last().last() == u[u.len() - 2]);
                    assert(u[u.len() - 2].height <= u.last().height);
                }
            }
        }
    }
}

} // verus!
