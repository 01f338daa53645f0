//! The laws the ledger obeys, stated and proved over the transition
//! specifications: single pending bundle, idempotent settlement,
//! deterministic bundle selection, and the provenance of the UTXO set.

use vstd::prelude::*;
use crate::types::{BodyV, MainTxid, OutPoint, OutputV, TwoWayPegDataV, WithdrawalBundleStatus};
use crate::state::{
    apply_statuses, apply_txs, bundle_may_emerge, find_utxo, put_coinbase,
    put_tx_outputs, put_utxo, remove_inputs, remove_utxo, spec_collect_withdrawal_bundle,
    spec_connect_body, spec_connect_two_way_peg_data, StateV,
};
use crate::hashes::{body_inputs, spec_merkle_root, spec_txid};
use crate::peg::hex_ascii_of;
use crate::mainchain::main_tx_bytes_of;

verus! {

// ---------------------------------------------------------------------------
// Lookup characterisation of the store operations.
// ---------------------------------------------------------------------------

/// Binding a key changes exactly that key's lookup.
pub proof fn lemma_find_put(s: Seq<(OutPoint, OutputV)>, k: OutPoint, v: OutputV, q: OutPoint)
    ensures
        find_utxo(put_utxo(s, k, v), q) == if q == k {
            Some(v)
        } else {
            find_utxo(s, q)
        },
    decreases s.len(),
{
    if s.len() == 0 {
        let t = seq![(k, v)];
        assert(put_utxo(s, k, v) == t);
        assert(t[0] == (k, v));
        assert(t.skip(1) =~= Seq::<(OutPoint, OutputV)>::empty());
        if q != k {
            assert(find_utxo(t, q) == find_utxo(t.skip(1), q));
            assert(find_utxo(Seq::<(OutPoint, OutputV)>::empty(), q) is None);
        }
    } else if s[0].0 == k {
        let t = seq![(k, v)] + s.skip(1);
        assert(put_utxo(s, k, v) == t);
        assert(t[0] == (k, v));
        assert(t.skip(1) =~= s.skip(1));
        if q != k {
            assert(find_utxo(t, q) == find_utxo(s.skip(1), q));
            assert(find_utxo(s, q) == find_utxo(s.skip(1), q));
        } else {
            assert(find_utxo(t, q) == Some(v));
        }
    } else {
        lemma_find_put(s.skip(1), k, v, q);
        let t = seq![s[0]] + put_utxo(s.skip(1), k, v);
        assert(put_utxo(s, k, v) == t);
        assert(t[0] == s[0]);
        assert(t.skip(1) =~= put_utxo(s.skip(1), k, v));
        if s[0].0 == q {
            assert(find_utxo(t, q) == Some(s[0].1));
            assert(find_utxo(s, q) == Some(s[0].1));
        } else {
            assert(find_utxo(t, q) == find_utxo(put_utxo(s.skip(1), k, v), q));
            assert(find_utxo(s, q) == find_utxo(s.skip(1), q));
        }
    }
}

/// Removing a key changes exactly that key's lookup.
pub proof fn lemma_find_remove(s: Seq<(OutPoint, OutputV)>, k: OutPoint, q: OutPoint)
    ensures
        find_utxo(remove_utxo(s, k), q) == if q == k {
            None::<OutputV>
        } else {
            find_utxo(s, q)
        },
    decreases s.len(),
{
    if s.len() == 0 {
    } else if s[0].0 == k {
        lemma_find_remove(s.skip(1), k, q);
    } else {
        lemma_find_remove(s.skip(1), k, q);
        let t = seq![s[0]] + remove_utxo(s.skip(1), k);
        assert(t[0] == s[0]);
        assert(t.skip(1) =~= remove_utxo(s.skip(1), k));
    }
}

/// What a run of removals leaves: exactly the unremoved keys.
pub proof fn lemma_find_remove_inputs(
    s: Seq<(OutPoint, OutputV)>,
    inputs: Seq<OutPoint>,
    q: OutPoint,
)
    ensures
        find_utxo(remove_inputs(s, inputs), q) == if inputs.contains(q) {
            None::<OutputV>
        } else {
            find_utxo(s, q)
        },
    decreases inputs.len(),
{
    if inputs.len() == 0 {
        assert(!inputs.contains(q));
    } else {
        lemma_find_remove_inputs(s, inputs.drop_last(), q);
        lemma_find_remove(remove_inputs(s, inputs.drop_last()), inputs.last(), q);
        if inputs.contains(q) {
            if q != inputs.last() {
                let j = choose|j: int| 0 <= j < inputs.len() && inputs[j] == q;
                assert(inputs.drop_last()[j] == q);
                assert(inputs.drop_last().contains(q));
            }
        } else {
            assert(!inputs.drop_last().contains(q)) by {
                if inputs.drop_last().contains(q) {
                    let j = choose|j: int|
                        0 <= j < inputs.drop_last().len() && inputs.drop_last()[j] == q;
                    assert(inputs[j] == q);
                }
            }
        }
    }
}

/// What inserting a transaction's outputs binds: its own outpoints to its
/// outputs, everything else untouched.
pub proof fn lemma_find_put_tx_outputs(
    s: Seq<(OutPoint, OutputV)>,
    txid: crate::types::Txid,
    outs: Seq<OutputV>,
    q: OutPoint,
)
    requires
        outs.len() <= u32::MAX,
    ensures
        find_utxo(put_tx_outputs(s, txid, outs), q) == (match q {
            OutPoint::Regular { txid: qt, vout } => if qt == txid && vout < outs.len() {
                Some(outs[vout as int])
            } else {
                find_utxo(s, q)
            },
            _ => find_utxo(s, q),
        }),
    decreases outs.len(),
{
    if outs.len() == 0 {
    } else {
        lemma_find_put_tx_outputs(s, txid, outs.drop_last(), q);
        lemma_find_put(
            put_tx_outputs(s, txid, outs.drop_last()),
            OutPoint::Regular { txid, vout: (outs.len() - 1) as u32 },
            outs.last(),
            q,
        );
    }
}

/// What inserting a coinbase binds.
pub proof fn lemma_find_put_coinbase(
    s: Seq<(OutPoint, OutputV)>,
    merkle_root: crate::types::MerkleRoot,
    outs: Seq<OutputV>,
    q: OutPoint,
)
    requires
        outs.len() <= u32::MAX,
    ensures
        find_utxo(put_coinbase(s, merkle_root, outs), q) == (match q {
            OutPoint::Coinbase { merkle_root: qm, vout } => if qm == merkle_root && vout
                < outs.len() {
                Some(outs[vout as int])
            } else {
                find_utxo(s, q)
            },
            _ => find_utxo(s, q),
        }),
    decreases outs.len(),
{
    if outs.len() == 0 {
    } else {
        lemma_find_put_coinbase(s, merkle_root, outs.drop_last(), q);
        lemma_find_put(
            put_coinbase(s, merkle_root, outs.drop_last()),
            OutPoint::Coinbase { merkle_root, vout: (outs.len() - 1) as u32 },
            outs.last(),
            q,
        );
    }
}

// ---------------------------------------------------------------------------
// Law: provenance of the UTXO set across a block.
// ---------------------------------------------------------------------------

/// Whether an outpoint is created by one of a body's transactions: keyed by
/// some transaction's txid, at a position among its outputs.
pub open spec fn created_by_txs(txs: Seq<crate::types::TransactionV>, q: OutPoint) -> bool
    decreases txs.len(),
{
    if txs.len() == 0 {
        false
    } else {
        created_by_txs(txs.drop_last(), q) || (match q {
            OutPoint::Regular { txid, vout } => txid == spec_txid(txs.last()) && vout
                < txs.last().outputs.len(),
            _ => false,
        })
    }
}

/// Whether an outpoint is created by a body: by its coinbase or by one of
/// its transactions.
pub open spec fn created_by_body(b: BodyV, q: OutPoint) -> bool {
    ||| (match q {
        OutPoint::Coinbase { merkle_root, vout } => merkle_root == spec_merkle_root(
            b.coinbase,
            b.transactions,
        ) && vout < b.coinbase.len(),
        _ => false,
    })
    ||| created_by_txs(b.transactions, q)
}

/// After a run of transactions, an outpoint resolves exactly when one of
/// them created it, or it was already unspent and none of them spent it.
pub proof fn lemma_apply_txs_provenance(
    s: Seq<(OutPoint, OutputV)>,
    txs: Seq<crate::types::TransactionV>,
    q: OutPoint,
)
    requires
        forall|ti: int|
            0 <= ti < txs.len() ==> (#[trigger] txs[ti]).outputs.len() <= u32::MAX,
    ensures
        find_utxo(apply_txs(s, txs), q) is Some ==> created_by_txs(txs, q) || (find_utxo(s, q)
            is Some && !body_inputs(txs).contains(q)),
        find_utxo(apply_txs(s, txs), q) is None ==> !created_by_txs(txs, q) || body_inputs(
            txs,
        ).contains(q),
    decreases txs.len(),
{
    if txs.len() == 0 {
        assert(!created_by_txs(txs, q));
    } else {
        let prev = apply_txs(s, txs.drop_last());
        let t = txs.last();
        lemma_apply_txs_provenance(s, txs.drop_last(), q);
        lemma_find_remove_inputs(prev, t.inputs, q);
        lemma_find_put_tx_outputs(remove_inputs(prev, t.inputs), spec_txid(t), t.outputs, q);
        crate::hashes::lemma_body_inputs_push(txs.drop_last(), t);
        assert(txs.drop_last().push(t) =~= txs);
        assert(body_inputs(txs) == body_inputs(txs.drop_last()) + t.inputs);
        // Membership in the concatenated inputs splits over its parts.
        assert(body_inputs(txs).contains(q) <==> body_inputs(txs.drop_last()).contains(q)
            || t.inputs.contains(q)) by {
            let a = body_inputs(txs.drop_last());
            let b = t.inputs;
            if (a + b).contains(q) {
                let j = choose|j: int| 0 <= j < (a + b).len() && (a + b)[j] == q;
                if j < a.len() {
                    assert(a[j] == q);
                } else {
                    assert(b[j - a.len()] == q);
                }
            }
            if a.contains(q) {
                let j = choose|j: int| 0 <= j < a.len() && a[j] == q;
                assert((a + b)[j] == q);
            }
            if b.contains(q) {
                let j = choose|j: int| 0 <= j < b.len() && b[j] == q;
                assert((a + b)[a.len() + j] == q);
            }
        }
    }
}

/// Law: after a block body is applied, every unspent output was either
/// created by that body or was unspent before and not spent by it; and the
/// body's inputs are spent, provided the body did not itself recreate them.
pub proof fn lemma_connect_body_provenance(s: Seq<(OutPoint, OutputV)>, b: BodyV, q: OutPoint)
    requires
        b.coinbase.len() <= u32::MAX,
        forall|ti: int|
            0 <= ti < b.transactions.len() ==> (#[trigger] b.transactions[ti]).outputs.len()
                <= u32::MAX,
    ensures
        find_utxo(spec_connect_body(s, b), q) is Some ==> created_by_body(b, q) || (find_utxo(s, q)
            is Some && !body_inputs(b.transactions).contains(q)),
        body_inputs(b.transactions).contains(q) && !created_by_txs(b.transactions, q)
            ==> find_utxo(spec_connect_body(s, b), q) is None,
{
    let with_coinbase = put_coinbase(s, spec_merkle_root(b.coinbase, b.transactions), b.coinbase);
    lemma_find_put_coinbase(s, spec_merkle_root(b.coinbase, b.transactions), b.coinbase, q);
    lemma_apply_txs_provenance(with_coinbase, b.transactions, q);
}

// ---------------------------------------------------------------------------
// Law: at most one pending bundle.
// ---------------------------------------------------------------------------

/// Settlement never creates a bundle: afterwards the pending slot holds the
/// bundle it held before, or nothing.
pub proof fn lemma_apply_statuses_pending(
    s: StateV,
    statuses: Seq<(MainTxid, WithdrawalBundleStatus)>,
    block_height: u32,
)
    ensures
        apply_statuses(s, statuses, block_height).pending_withdrawal_bundle is Some ==> apply_statuses(
            s,
            statuses,
            block_height,
        ).pending_withdrawal_bundle == s.pending_withdrawal_bundle,
    decreases statuses.len(),
{
    if statuses.len() > 0 {
        lemma_apply_statuses_pending(s, statuses.drop_last(), block_height);
    }
}

/// Law: the pending slot holds at most one bundle, and a new bundle can
/// only emerge while the slot is empty. With a bundle already pending, peg
/// application leaves that same bundle or clears the slot; it never swaps
/// in another.
pub proof fn lemma_single_pending_bundle(s: StateV, data: TwoWayPegDataV, block_height: u32)
    requires
        s.pending_withdrawal_bundle is Some,
        spec_connect_two_way_peg_data(s, data, block_height) is Ok,
    ensures
        ({
            let s2 = spec_connect_two_way_peg_data(s, data, block_height)->Ok_0;
            s2.pending_withdrawal_bundle == s.pending_withdrawal_bundle
                || s2.pending_withdrawal_bundle is None
        }),
{
    let s1 = StateV {
        utxos: crate::state::apply_deposits(s.utxos, data.deposits),
        last_deposit_block: match data.deposit_block_hash {
            Some(h) => Some(h),
            None => s.last_deposit_block,
        },
        ..s
    };
    assert(!bundle_may_emerge(s1, block_height));
    lemma_apply_statuses_pending(s1, data.bundle_statuses, block_height);
}

// ---------------------------------------------------------------------------
// Law: settling the same Confirmed status twice is a no-op after the first.
// ---------------------------------------------------------------------------

pub proof fn lemma_confirmed_idempotent(s: StateV, txid: MainTxid, block_height: u32)
    ensures
        ({
            let once = apply_statuses(
                s,
                seq![(txid, WithdrawalBundleStatus::Confirmed)],
                block_height,
            );
            apply_statuses(once, seq![(txid, WithdrawalBundleStatus::Confirmed)], block_height)
                == once
        }),
{
    let stat = seq![(txid, WithdrawalBundleStatus::Confirmed)];
    assert(stat.drop_last() =~= Seq::<(MainTxid, WithdrawalBundleStatus)>::empty());
    assert(stat.last() == (txid, WithdrawalBundleStatus::Confirmed));
    assert(apply_statuses(s, stat.drop_last(), block_height) == s);
    let once = apply_statuses(s, stat, block_height);
    assert(apply_statuses(once, stat.drop_last(), block_height) == once);
    match s.pending_withdrawal_bundle {
        Some(b) => {
            if b.main_txid == txid {
                assert(once.pending_withdrawal_bundle is None);
                assert(apply_statuses(once, stat, block_height) =~= once);
            } else {
                assert(once == s);
                assert(apply_statuses(once, stat, block_height) =~= once);
            }
        }
        None => {
            assert(once == s);
            assert(apply_statuses(once, stat, block_height) =~= once);
        }
    }
}

// ---------------------------------------------------------------------------
// Law: bundle selection is deterministic.
// ---------------------------------------------------------------------------

/// Given equal UTXO sequences and equal heights, collection yields equal
/// results, and an emerged bundle's broadcast bytes are equal character for
/// character: the whole pipeline is a function of the ledger and the height.
pub proof fn lemma_bundle_selection_deterministic(
    u1: Seq<(OutPoint, OutputV)>,
    u2: Seq<(OutPoint, OutputV)>,
    h1: u32,
    h2: u32,
)
    requires
        u1 == u2,
        h1 == h2,
    ensures
        spec_collect_withdrawal_bundle(u1, h1) == spec_collect_withdrawal_bundle(u2, h2),
        (match (
            spec_collect_withdrawal_bundle(u1, h1),
            spec_collect_withdrawal_bundle(u2, h2),
        ) {
            (Ok(Some(b1)), Ok(Some(b2))) => hex_ascii_of(main_tx_bytes_of(b1.transaction))
                == hex_ascii_of(main_tx_bytes_of(b2.transaction)),
            _ => true,
        }),
{
}

} // verus!

verus! {

use crate::state::{filled_outputs, utxos_wf, all_inputs_found, distinct_outpoints, spec_total_fees};
use crate::hashes::{sum_output_values, lemma_sum_output_values_push};
use crate::types::TransactionV;

// ---------------------------------------------------------------------------
// Law: value conservation across a block body.
// ---------------------------------------------------------------------------

/// The total value of a UTXO list.
pub open spec fn sum_utxos(s: Seq<(OutPoint, OutputV)>) -> int
    decreases s.len(),
{
    if s.len() == 0 {
        0
    } else {
        sum_utxos(s.drop_last()) + s.last().1.value()
    }
}

/// An unbound key means no entry carries it.
pub proof fn lemma_find_none_keys(s: Seq<(OutPoint, OutputV)>, k: OutPoint)
    requires
        find_utxo(s, k) is None,
    ensures
        forall|j: int| 0 <= j < s.len() ==> (#[trigger] s[j]).0 != k,
    decreases s.len(),
{
    if s.len() > 0 {
        lemma_find_none_keys(s.skip(1), k);
        assert(forall|j: int| 1 <= j < s.len() ==> #[trigger] s[j] == s.skip(1)[j - 1]);
    }
}

/// Binding a fresh key adds exactly its value.
pub proof fn lemma_sum_put_fresh(s: Seq<(OutPoint, OutputV)>, k: OutPoint, v: OutputV)
    requires
        find_utxo(s, k) is None,
    ensures
        sum_utxos(put_utxo(s, k, v)) == sum_utxos(s) + v.value(),
        utxos_wf(s) ==> utxos_wf(put_utxo(s, k, v)),
{
    lemma_find_none_keys(s, k);
    crate::state::lemma_put_utxo_absent(s, k, v);
    assert(s.push((k, v)).drop_last() =~= s);
    if utxos_wf(s) {
        let t = s.push((k, v));
        assert(forall|j: int| 0 <= j < s.len() ==> t[j] == s[j]);
        assert(t[s.len() as int].0 == k);
        assert(utxos_wf(t));
    }
}

/// The sum unfolds at the front too.
pub proof fn lemma_sum_front(s: Seq<(OutPoint, OutputV)>)
    requires
        s.len() > 0,
    ensures
        sum_utxos(s) == s[0].1.value() + sum_utxos(s.skip(1)),
    decreases s.len(),
{
    if s.len() == 1 {
        assert(s.drop_last() =~= Seq::<(OutPoint, OutputV)>::empty());
        assert(s.skip(1) =~= Seq::<(OutPoint, OutputV)>::empty());
    } else {
        lemma_sum_front(s.drop_last());
        assert(s.drop_last()[0] == s[0]);
        assert(s.skip(1).drop_last() =~= s.drop_last().skip(1));
        assert(s.skip(1).last() == s.last());
    }
}

/// An entry's key is bound.
pub proof fn lemma_find_from_index(s: Seq<(OutPoint, OutputV)>, j: int)
    requires
        0 <= j < s.len(),
    ensures
        find_utxo(s, s[j].0) is Some,
    decreases j,
{
    if j > 0 && s[0].0 != s[j].0 {
        assert(s.skip(1)[j - 1] == s[j]);
        lemma_find_from_index(s.skip(1), j - 1);
    }
}

/// Removing a key subtracts exactly its value, under unique keys.
pub proof fn lemma_sum_remove(s: Seq<(OutPoint, OutputV)>, k: OutPoint)
    requires
        utxos_wf(s),
    ensures
        sum_utxos(remove_utxo(s, k)) == sum_utxos(s) - (match find_utxo(s, k) {
            Some(v) => v.value() as int,
            None => 0,
        }),
        utxos_wf(remove_utxo(s, k)),
    decreases s.len(),
{
    if s.len() == 0 {
    } else {
        assert(utxos_wf(s.skip(1))) by {
            assert(forall|j: int| 0 <= j < s.skip(1).len() ==> #[trigger] s.skip(1)[j] == s[j
                + 1]);
        }
        lemma_sum_remove(s.skip(1), k);
        lemma_sum_front(s);
        if s[0].0 == k {
            assert(forall|j: int|
                0 <= j < s.skip(1).len() ==> (#[trigger] s.skip(1)[j]).0 != k) by {
                assert(forall|j: int| 0 <= j < s.skip(1).len() ==> s.skip(1)[j] == s[j + 1]);
            }
            crate::state::lemma_find_utxo_none(s.skip(1), k);
            crate::state::lemma_remove_utxo_keyless(s.skip(1), k);
        } else {
            let t = seq![s[0]] + remove_utxo(s.skip(1), k);
            assert(t[0] == s[0]);
            assert(t.skip(1) =~= remove_utxo(s.skip(1), k));
            lemma_sum_front(t);
            assert(utxos_wf(t)) by {
                let r1 = remove_utxo(s.skip(1), k);
                assert(forall|j: int| 1 <= j < t.len() ==> #[trigger] t[j] == r1[j - 1]);
                assert forall|j: int| 1 <= j < t.len() implies t[j].0 != s[0].0 by {
                    if t[j].0 == s[0].0 {
                        lemma_find_from_index(r1, j - 1);
                        lemma_find_remove(s.skip(1), k, s[0].0);
                        lemma_find_some_index(s.skip(1), s[0].0);
                        let m = choose|m: int|
                            0 <= m < s.skip(1).len() && (#[trigger] s.skip(1)[m]).0 == s[0].0;
                        assert(s[m + 1].0 == s[0].0);
                    }
                }
            }
        }
    }
}

/// A bound key has an entry.
pub proof fn lemma_find_some_index(s: Seq<(OutPoint, OutputV)>, k: OutPoint)
    requires
        find_utxo(s, k) is Some,
    ensures
        exists|m: int| 0 <= m < s.len() && (#[trigger] s[m]).0 == k,
    decreases s.len(),
{
    if s.len() > 0 && s[0].0 != k {
        lemma_find_some_index(s.skip(1), k);
        let m = choose|m: int| 0 <= m < s.skip(1).len() && (#[trigger] s.skip(1)[m]).0 == k;
        assert(s[m + 1].0 == k);
    }
}

/// Dropping one entry subtracts its value./// Dropping one entry subtracts its value.
pub proof fn lemma_sum_drop_index(s: Seq<(OutPoint, OutputV)>, i: int)
    requires
        0 <= i < s.len(),
    ensures
        sum_utxos(s.subrange(0, i) + s.skip(i + 1)) == sum_utxos(s) - s[i].1.value(),
    decreases s.len(),
{
    if i == s.len() - 1 {
        assert(s.subrange(0, i) + s.skip(i + 1) =~= s.drop_last());
    } else {
        let t = s.subrange(0, i) + s.skip(i + 1);
        assert(t.drop_last() =~= s.drop_last().subrange(0, i) + s.drop_last().skip(i + 1));
        assert(t.last() == s.last());
        lemma_sum_drop_index(s.drop_last(), i);
    }
}

/// Removing distinct, bound inputs subtracts exactly their bound values.
pub proof fn lemma_sum_remove_inputs(s: Seq<(OutPoint, OutputV)>, inputs: Seq<OutPoint>)
    requires
        utxos_wf(s),
        distinct_outpoints(inputs),
        all_inputs_found(s, inputs),
    ensures
        sum_utxos(remove_inputs(s, inputs)) == sum_utxos(s) - sum_output_values(
            filled_outputs(s, inputs),
        ),
        utxos_wf(remove_inputs(s, inputs)),
    decreases inputs.len(),
{
    if inputs.len() == 0 {
        assert(filled_outputs(s, inputs) =~= Seq::<OutputV>::empty());
    } else {
        let front = inputs.drop_last();
        assert(distinct_outpoints(front)) by {
            assert(forall|j: int| 0 <= j < front.len() ==> #[trigger] front[j] == inputs[j]);
        }
        assert(all_inputs_found(s, front)) by {
            assert(forall|j: int| 0 <= j < front.len() ==> #[trigger] front[j] == inputs[j]);
        }
        lemma_sum_remove_inputs(s, front);
        let prev = remove_inputs(s, front);
        assert(!front.contains(inputs.last())) by {
            if front.contains(inputs.last()) {
                let j = choose|j: int| 0 <= j < front.len() && front[j] == inputs.last();
                assert(inputs[j] == inputs[inputs.len() - 1]);
            }
        }
        lemma_find_remove_inputs(s, front, inputs.last());
        assert(find_utxo(prev, inputs.last()) == find_utxo(s, inputs.last()));
        assert(find_utxo(s, inputs.last()) is Some) by {
            assert(inputs[inputs.len() - 1] == inputs.last());
        }
        lemma_sum_remove(prev, inputs.last());
        assert(filled_outputs(s, inputs) =~= filled_outputs(s, front).push(
            find_utxo(s, inputs.last()).unwrap(),
        )) by {
            assert(forall|j: int|
                0 <= j < front.len() ==> #[trigger] filled_outputs(s, front)[j] == filled_outputs(
                    s,
                    inputs,
                )[j]);
        }
        lemma_sum_output_values_push(
            filled_outputs(s, front),
            find_utxo(s, inputs.last()).unwrap(),
        );
    }
}

/// Inserting fresh transaction outputs adds exactly their values.
pub proof fn lemma_sum_put_tx_outputs(
    s: Seq<(OutPoint, OutputV)>,
    txid: crate::types::Txid,
    outs: Seq<OutputV>,
)
    requires
        outs.len() <= u32::MAX,
        forall|vout: int|
            0 <= vout < outs.len() ==> #[trigger] find_utxo(
                s,
                (OutPoint::Regular { txid, vout: vout as u32 }),
            ) is None,
        utxos_wf(s),
    ensures
        sum_utxos(put_tx_outputs(s, txid, outs)) == sum_utxos(s) + sum_output_values(outs),
        utxos_wf(put_tx_outputs(s, txid, outs)),
    decreases outs.len(),
{
    if outs.len() == 0 {
    } else {
        lemma_sum_put_tx_outputs(s, txid, outs.drop_last());
        let prev = put_tx_outputs(s, txid, outs.drop_last());
        let key = OutPoint::Regular { txid, vout: (outs.len() - 1) as u32 };
        lemma_find_put_tx_outputs(s, txid, outs.drop_last(), key);
        assert(find_utxo(prev, key) is None);
        lemma_sum_put_fresh(prev, key, outs.last());
        lemma_sum_output_values_push(outs.drop_last(), outs.last());
        assert(outs.drop_last().push(outs.last()) =~= outs);
    }
}

/// Inserting a fresh coinbase adds exactly its value.
pub proof fn lemma_sum_put_coinbase(
    s: Seq<(OutPoint, OutputV)>,
    merkle_root: crate::types::MerkleRoot,
    outs: Seq<OutputV>,
)
    requires
        outs.len() <= u32::MAX,
        forall|vout: int|
            0 <= vout < outs.len() ==> #[trigger] find_utxo(
                s,
                (OutPoint::Coinbase { merkle_root, vout: vout as u32 }),
            ) is None,
        utxos_wf(s),
    ensures
        sum_utxos(put_coinbase(s, merkle_root, outs)) == sum_utxos(s) + sum_output_values(outs),
        utxos_wf(put_coinbase(s, merkle_root, outs)),
    decreases outs.len(),
{
    if outs.len() == 0 {
    } else {
        lemma_sum_put_coinbase(s, merkle_root, outs.drop_last());
        let prev = put_coinbase(s, merkle_root, outs.drop_last());
        let key = OutPoint::Coinbase { merkle_root, vout: (outs.len() - 1) as u32 };
        lemma_find_put_coinbase(s, merkle_root, outs.drop_last(), key);
        assert(find_utxo(prev, key) is None);
        lemma_sum_put_fresh(prev, key, outs.last());
        lemma_sum_output_values_push(outs.drop_last(), outs.last());
        assert(outs.drop_last().push(outs.last()) =~= outs);
    }
}

} // verus!

verus! {

/// The total value a run of transactions creates.
pub open spec fn sum_txs_outputs(txs: Seq<TransactionV>) -> int
    decreases txs.len(),
{
    if txs.len() == 0 {
        0
    } else {
        sum_txs_outputs(txs.drop_last()) + sum_output_values(txs.last().outputs)
    }
}

/// The total value a run of transactions spends out of a UTXO set.
pub open spec fn sum_txs_inputs(utxos: Seq<(OutPoint, OutputV)>, txs: Seq<TransactionV>) -> int
    decreases txs.len(),
{
    if txs.len() == 0 {
        0
    } else {
        sum_txs_inputs(utxos, txs.drop_last()) + sum_output_values(
            filled_outputs(utxos, txs.last().inputs),
        )
    }
}

/// No transaction's created outpoints are already bound, and no two
/// transactions share a txid: the no-collision hypothesis under which value
/// is conserved exactly.
pub open spec fn fresh_outputs(utxos: Seq<(OutPoint, OutputV)>, txs: Seq<TransactionV>) -> bool {
    &&& forall|ti: int, vout: int|
        0 <= ti < txs.len() && 0 <= vout < txs[ti].outputs.len() ==> #[trigger] find_utxo(
            utxos,
            (OutPoint::Regular { txid: spec_txid(txs[ti]), vout: vout as u32 }),
        ) is None
    &&& forall|ti: int, tj: int|
        0 <= ti < tj < txs.len() ==> spec_txid(#[trigger] txs[ti]) != spec_txid(
            #[trigger] txs[tj],
        )
}

/// Law: across a run of transactions, the UTXO total moves by exactly the
/// created value minus the spent value — no value appears or vanishes
/// except through the transactions' own inputs and outputs.
pub proof fn lemma_apply_txs_sum(utxos: Seq<(OutPoint, OutputV)>, txs: Seq<TransactionV>)
    requires
        utxos_wf(utxos),
        all_inputs_found(utxos, body_inputs(txs)),
        distinct_outpoints(body_inputs(txs)),
        fresh_outputs(utxos, txs),
        forall|ti: int|
            0 <= ti < txs.len() ==> (#[trigger] txs[ti]).outputs.len() <= u32::MAX,
    ensures
        sum_utxos(apply_txs(utxos, txs)) == sum_utxos(utxos) - sum_txs_inputs(utxos, txs)
            + sum_txs_outputs(txs),
        utxos_wf(apply_txs(utxos, txs)),
        forall|q: OutPoint|
            #[trigger] find_utxo(apply_txs(utxos, txs), q) == (if body_inputs(txs).contains(q) {
                None::<OutputV>
            } else if created_by_txs(txs, q) {
                find_utxo(apply_txs(utxos, txs), q)
            } else {
                find_utxo(utxos, q)
            }),
    decreases txs.len(),
{
    if txs.len() == 0 {
        assert(forall|q: OutPoint| !body_inputs(txs).contains(q));
    } else {
        let front = txs.drop_last();
        let t = txs.last();
        crate::hashes::lemma_body_inputs_push(front, t);
        assert(front.push(t) =~= txs);
        assert(body_inputs(txs) == body_inputs(front) + t.inputs);
        // Split the hypotheses over the prefix.
        assert(all_inputs_found(utxos, body_inputs(front))) by {
            assert(forall|j: int|
                0 <= j < body_inputs(front).len() ==> #[trigger] body_inputs(front)[j]
                    == body_inputs(txs)[j]);
        }
        assert(distinct_outpoints(body_inputs(front))) by {
            assert(forall|j: int|
                0 <= j < body_inputs(front).len() ==> #[trigger] body_inputs(front)[j]
                    == body_inputs(txs)[j]);
        }
        assert(fresh_outputs(utxos, front)) by {
            assert(forall|ti: int| 0 <= ti < front.len() ==> #[trigger] front[ti] == txs[ti]);
        }
        lemma_apply_txs_sum(utxos, front);
        let prev = apply_txs(utxos, front);

        // The last transaction's inputs still resolve in `prev`, to the same
        // outputs as in the original set.
        assert(forall|j: int|
            0 <= j < t.inputs.len() ==> #[trigger] body_inputs(txs)[body_inputs(front).len() + j]
                == t.inputs[j]);
        assert forall|j: int| 0 <= j < t.inputs.len() implies #[trigger] find_utxo(
            prev,
            t.inputs[j],
        ) == find_utxo(utxos, t.inputs[j]) && find_utxo(utxos, t.inputs[j]) is Some by {
            let q = t.inputs[j];
            assert(body_inputs(txs).contains(q)) by {
                assert(body_inputs(txs)[body_inputs(front).len() + j] == q);
            }
            assert(!body_inputs(front).contains(q)) by {
                if body_inputs(front).contains(q) {
                    let m = choose|m: int|
                        0 <= m < body_inputs(front).len() && body_inputs(front)[m] == q;
                    assert(body_inputs(txs)[m] == q);
                    assert(body_inputs(txs)[body_inputs(front).len() + j] == q);
                }
            }
            assert(!created_by_txs(front, q)) by {
                if created_by_txs(front, q) {
                    lemma_created_by_txs_fresh(utxos, front, q);
                    assert(find_utxo(utxos, q) is None);
                }
            }
        }
        assert(all_inputs_found(prev, t.inputs));
        assert(distinct_outpoints(t.inputs)) by {
            assert forall|x: int, y: int| 0 <= x < y < t.inputs.len() implies (
            #[trigger] t.inputs[x]) != (#[trigger] t.inputs[y]) by {
                assert(body_inputs(txs)[body_inputs(front).len() + x] == t.inputs[x]);
                assert(body_inputs(txs)[body_inputs(front).len() + y] == t.inputs[y]);
            }
        }
        lemma_sum_remove_inputs(prev, t.inputs);
        let removed = remove_inputs(prev, t.inputs);
        assert(sum_output_values(filled_outputs(prev, t.inputs)) == sum_output_values(
            filled_outputs(utxos, t.inputs),
        )) by {
            assert(filled_outputs(prev, t.inputs) =~= filled_outputs(utxos, t.inputs));
        }

        // The last transaction's outputs are still fresh in `removed`.
        assert forall|vout: int| 0 <= vout < t.outputs.len() implies #[trigger] find_utxo(
            removed,
            (OutPoint::Regular { txid: spec_txid(t), vout: vout as u32 }),
        ) is None by {
            let q = OutPoint::Regular { txid: spec_txid(t), vout: vout as u32 };
            lemma_find_remove_inputs(prev, t.inputs, q);
            if !t.inputs.contains(q) {
                assert(txs[txs.len() - 1] == t);
                assert(find_utxo(
                    utxos,
                    (OutPoint::Regular {
                        txid: spec_txid(txs[txs.len() - 1]),
                        vout: vout as u32,
                    }),
                ) is None);
                assert(find_utxo(utxos, q) is None);
                if !body_inputs(front).contains(q) {
                    if created_by_txs(front, q) {
                        assert(forall|ti: int|
                            0 <= ti < txs.len() ==> #[trigger] txs[ti] == front.push(t)[ti]);
                        assert(forall|ti: int, tj: int|
                            0 <= ti < tj < front.push(t).len() ==> spec_txid(
                                #[trigger] front.push(t)[ti],
                            ) != spec_txid(#[trigger] front.push(t)[tj]));
                        lemma_created_last_txid(front, t, q);
                    }
                }
            }
        }
        lemma_sum_put_tx_outputs(removed, spec_txid(t), t.outputs);

        // Lookup characterisation for the whole run.
        assert forall|q: OutPoint| true implies #[trigger] find_utxo(apply_txs(utxos, txs), q)
            == (if body_inputs(txs).contains(q) {
            None::<OutputV>
        } else if created_by_txs(txs, q) {
            find_utxo(apply_txs(utxos, txs), q)
        } else {
            find_utxo(utxos, q)
        }) by {
            lemma_find_remove_inputs(prev, t.inputs, q);
            lemma_find_put_tx_outputs(removed, spec_txid(t), t.outputs, q);
            let a = body_inputs(front);
            let b = t.inputs;
            assert(body_inputs(txs).contains(q) <==> a.contains(q) || b.contains(q)) by {
                if (a + b).contains(q) {
                    let j = choose|j: int| 0 <= j < (a + b).len() && (a + b)[j] == q;
                    if j < a.len() {
                        assert(a[j] == q);
                    } else {
                        assert(b[j - a.len()] == q);
                    }
                }
                if a.contains(q) {
                    let j = choose|j: int| 0 <= j < a.len() && a[j] == q;
                    assert((a + b)[j] == q);
                }
                if b.contains(q) {
                    let j = choose|j: int| 0 <= j < b.len() && b[j] == q;
                    assert((a + b)[a.len() + j] == q);
                }
            }
            if body_inputs(txs).contains(q) {
                // A spent outpoint cannot be among the last transaction's
                // fresh outputs: it resolved in the original set.
                assert(find_utxo(utxos, q) is Some) by {
                    let m = choose|m: int|
                        0 <= m < body_inputs(txs).len() && body_inputs(txs)[m] == q;
                    assert(find_utxo(utxos, #[trigger] body_inputs(txs)[m]) is Some);
                }
                match q {
                    OutPoint::Regular { txid, vout } => {
                        if txid == spec_txid(t) && vout < t.outputs.len() {
                            assert(txs[txs.len() - 1] == t);
                            assert(find_utxo(
                                utxos,
                                (OutPoint::Regular {
                                    txid: spec_txid(txs[txs.len() - 1]),
                                    vout: ((vout as int)) as u32,
                                }),
                            ) is None);
                            assert(false);
                        }
                    },
                    _ => {},
                }
                if b.contains(q) {
                    assert(find_utxo(apply_txs(utxos, txs), q) is None);
                } else {
                    assert(a.contains(q));
                    assert(find_utxo(prev, q) is None);
                    assert(find_utxo(apply_txs(utxos, txs), q) is None);
                }
            } else if !created_by_txs(txs, q) {
                assert(txs.drop_last() =~= front);
                assert(!created_by_txs(front, q));
                assert(match q {
                    OutPoint::Regular { txid, vout } => !(txid == spec_txid(t) && vout
                        < t.outputs.len()),
                    _ => true,
                }) by {
                    assert(txs.last() == t);
                }
                assert(find_utxo(apply_txs(utxos, txs), q) == find_utxo(removed, q));
                assert(find_utxo(removed, q) == find_utxo(prev, q));
                assert(find_utxo(prev, q) == find_utxo(utxos, q));
            }
        }
    }
}

/// A prefix-created outpoint is not bound in the original set.
pub proof fn lemma_created_by_txs_fresh(
    utxos: Seq<(OutPoint, OutputV)>,
    txs: Seq<TransactionV>,
    q: OutPoint,
)
    requires
        created_by_txs(txs, q),
        forall|ti: int, vout: int|
            0 <= ti < txs.len() && 0 <= vout < txs[ti].outputs.len() ==> #[trigger] find_utxo(
                utxos,
                (OutPoint::Regular { txid: spec_txid(txs[ti]), vout: vout as u32 }),
            ) is None,
    ensures
        find_utxo(utxos, q) is None,
    decreases txs.len(),
{
    if txs.len() > 0 {
        if created_by_txs(txs.drop_last(), q) {
            assert(forall|ti: int|
                0 <= ti < txs.drop_last().len() ==> #[trigger] txs.drop_last()[ti] == txs[ti]);
            lemma_created_by_txs_fresh(utxos, txs.drop_last(), q);
        } else {
            match q {
                OutPoint::Regular { txid, vout } => {
                    assert(txs[txs.len() - 1] == txs.last());
                    assert(find_utxo(
                        utxos,
                        (OutPoint::Regular { txid: spec_txid(txs.last()), vout: vout }),
                    ) is None) by {
                        assert(0 <= vout < txs.last().outputs.len());
                        assert((vout as int) as u32 == vout);
                    }
                },
                _ => {
                    assert(false);
                },
            }
        }
    }
}

/// An outpoint created by a prefix transaction is not keyed by the last
/// transaction's txid, given distinct txids.
pub proof fn lemma_created_last_txid(front: Seq<TransactionV>, t: TransactionV, q: OutPoint)
    requires
        created_by_txs(front, q),
        forall|ti: int, tj: int|
            0 <= ti < tj < front.push(t).len() ==> spec_txid(#[trigger] front.push(t)[ti])
                != spec_txid(#[trigger] front.push(t)[tj]),
    ensures
        (match q {
            OutPoint::Regular { txid, .. } => txid != spec_txid(t),
            _ => true,
        }),
    decreases front.len(),
{
    if front.len() > 0 {
        if created_by_txs(front.drop_last(), q) {
            assert(forall|ti: int|
                0 <= ti < front.drop_last().push(t).len() ==> #[trigger] front.drop_last().push(
                    t,
                )[ti] == (if ti < front.len() - 1 {
                    front[ti]
                } else {
                    t
                }));
            assert(forall|ti: int|
                0 <= ti < front.push(t).len() ==> #[trigger] front.push(t)[ti] == (if ti
                    < front.len() {
                    front[ti]
                } else {
                    t
                }));
            let small = front.drop_last().push(t);
            let big = front.push(t);
            assert forall|ti: int, tj: int| 0 <= ti < tj < small.len() implies spec_txid(
                #[trigger] small[ti],
            ) != spec_txid(#[trigger] small[tj]) by {
                if tj < front.len() - 1 {
                    assert(spec_txid(big[ti]) != spec_txid(big[tj]));
                } else {
                    assert(small[tj] == t);
                    assert(spec_txid(big[ti]) != spec_txid(big[front.len() as int]));
                }
            }
            lemma_created_last_txid(front.drop_last(), t, q);
        } else {
            assert(front.push(t)[front.len() - 1] == front.last());
            assert(front.push(t)[front.len() as int] == t);
            assert(spec_txid(front.last()) != spec_txid(t));
        }
    }
}

} // verus!

verus! {

use crate::state::{spec_tx_fee, lemma_body_inputs_index};

/// The fee total is the spent total minus the created total.
pub proof fn lemma_total_fees_split(utxos: Seq<(OutPoint, OutputV)>, txs: Seq<TransactionV>)
    ensures
        spec_total_fees(utxos, txs) == sum_txs_inputs(utxos, txs) - sum_txs_outputs(txs),
    decreases txs.len(),
{
    if txs.len() > 0 {
        lemma_total_fees_split(utxos, txs.drop_last());
    }
}

/// Two UTXO sets that agree on every spent input fill identically.
pub proof fn lemma_sum_txs_inputs_agree(
    u1: Seq<(OutPoint, OutputV)>,
    u2: Seq<(OutPoint, OutputV)>,
    txs: Seq<TransactionV>,
)
    requires
        forall|j: int|
            0 <= j < body_inputs(txs).len() ==> find_utxo(u1, #[trigger] body_inputs(txs)[j])
                == find_utxo(u2, body_inputs(txs)[j]),
    ensures
        sum_txs_inputs(u1, txs) == sum_txs_inputs(u2, txs),
    decreases txs.len(),
{
    if txs.len() > 0 {
        let front = txs.drop_last();
        let t = txs.last();
        crate::hashes::lemma_body_inputs_push(front, t);
        assert(front.push(t) =~= txs);
        assert(forall|j: int|
            0 <= j < body_inputs(front).len() ==> #[trigger] body_inputs(front)[j] == body_inputs(
                txs,
            )[j]);
        lemma_sum_txs_inputs_agree(u1, u2, front);
        assert forall|j: int| 0 <= j < t.inputs.len() implies find_utxo(
            u1,
            #[trigger] t.inputs[j],
        ) == find_utxo(u2, t.inputs[j]) by {
            assert(body_inputs(txs)[body_inputs(front).len() + j] == t.inputs[j]);
            assert(find_utxo(u1, body_inputs(txs)[body_inputs(front).len() + j]) == find_utxo(
                u2,
                body_inputs(txs)[body_inputs(front).len() + j],
            ));
        }
        assert(filled_outputs(u1, t.inputs) =~= filled_outputs(u2, t.inputs));
    }
}

/// Law: value conservation across one block body. Under the no-collision
/// hypothesis, applying a validated body moves the UTXO total by exactly the
/// coinbase value minus the fees: deposits aside, value neither appears nor
/// vanishes except as the fees the body burns and the coinbase it mints.
pub proof fn lemma_connect_body_conservation(utxos: Seq<(OutPoint, OutputV)>, b: BodyV)
    requires
        utxos_wf(utxos),
        all_inputs_found(utxos, body_inputs(b.transactions)),
        distinct_outpoints(body_inputs(b.transactions)),
        fresh_outputs(utxos, b.transactions),
        b.coinbase.len() <= u32::MAX,
        forall|ti: int|
            0 <= ti < b.transactions.len() ==> (#[trigger] b.transactions[ti]).outputs.len()
                <= u32::MAX,
        forall|vout: int|
            0 <= vout < b.coinbase.len() ==> #[trigger] find_utxo(
                utxos,
                (OutPoint::Coinbase {
                    merkle_root: spec_merkle_root(b.coinbase, b.transactions),
                    vout: vout as u32,
                }),
            ) is None,
    ensures
        sum_utxos(spec_connect_body(utxos, b)) == sum_utxos(utxos) + sum_output_values(b.coinbase)
            - spec_total_fees(utxos, b.transactions),
        utxos_wf(spec_connect_body(utxos, b)),
{
    let mr = spec_merkle_root(b.coinbase, b.transactions);
    let with_cb = put_coinbase(utxos, mr, b.coinbase);
    lemma_sum_put_coinbase(utxos, mr, b.coinbase);

    // Coinbase insertion does not disturb the inputs or the fresh outputs.
    assert forall|q: OutPoint| find_utxo(utxos, q) is Some || (match q {
        OutPoint::Coinbase { .. } => false,
        _ => true,
    }) implies #[trigger] find_utxo(with_cb, q) == find_utxo(utxos, q) || find_utxo(
        utxos,
        q,
    ) is Some by {
        lemma_find_put_coinbase(utxos, mr, b.coinbase, q);
    }
    assert forall|j: int| 0 <= j < body_inputs(b.transactions).len() implies find_utxo(
        with_cb,
        #[trigger] body_inputs(b.transactions)[j],
    ) == find_utxo(utxos, body_inputs(b.transactions)[j]) by {
        let q = body_inputs(b.transactions)[j];
        lemma_find_put_coinbase(utxos, mr, b.coinbase, q);
        match q {
            OutPoint::Coinbase { merkle_root, vout } => {
                if merkle_root == mr && vout < b.coinbase.len() {
                    assert(find_utxo(
                        utxos,
                        (OutPoint::Coinbase { merkle_root: mr, vout: ((vout as int)) as u32 }),
                    ) is None);
                    assert(find_utxo(utxos, q) is Some);
                }
            },
            _ => {},
        }
    }
    assert(all_inputs_found(with_cb, body_inputs(b.transactions)));
    assert(fresh_outputs(with_cb, b.transactions)) by {
        assert forall|ti: int, vout: int|
            0 <= ti < b.transactions.len() && 0 <= vout < b.transactions[ti].outputs.len()
                implies #[trigger] find_utxo(
            with_cb,
            (OutPoint::Regular { txid: spec_txid(b.transactions[ti]), vout: vout as u32 }),
        ) is None by {
            let q = OutPoint::Regular { txid: spec_txid(b.transactions[ti]), vout: vout as u32 };
            lemma_find_put_coinbase(utxos, mr, b.coinbase, q);
        }
    }
    lemma_apply_txs_sum(with_cb, b.transactions);
    lemma_sum_txs_inputs_agree(with_cb, utxos, b.transactions);
    lemma_total_fees_split(utxos, b.transactions);
}

} // verus!

verus! {

// ---------------------------------------------------------------------------
// The laws lifted to a whole chain of accepted bodies.
// ---------------------------------------------------------------------------

/// A chain of bodies is cleanly applicable: each body's inputs resolve in
/// the ledger it meets, nothing is double-spent, and its created outpoints
/// are no-collision fresh there.
pub open spec fn chain_ok(utxos: Seq<(OutPoint, OutputV)>, bodies: Seq<BodyV>) -> bool
    decreases bodies.len(),
{
    if bodies.len() == 0 {
        true
    } else {
        let b = bodies[0];
        &&& all_inputs_found(utxos, body_inputs(b.transactions))
        &&& distinct_outpoints(body_inputs(b.transactions))
        &&& fresh_outputs(utxos, b.transactions)
        &&& b.coinbase.len() <= u32::MAX
        &&& (forall|ti: int|
            0 <= ti < b.transactions.len() ==> (#[trigger] b.transactions[ti]).outputs.len()
                <= u32::MAX)
        &&& (forall|vout: int|
            0 <= vout < b.coinbase.len() ==> #[trigger] find_utxo(
                utxos,
                (OutPoint::Coinbase {
                    merkle_root: spec_merkle_root(b.coinbase, b.transactions),
                    vout: vout as u32,
                }),
            ) is None)
        &&& chain_ok(spec_connect_body(utxos, b), bodies.skip(1))
    }
}

/// The ledger after a run of bodies.
pub open spec fn run_chain(utxos: Seq<(OutPoint, OutputV)>, bodies: Seq<BodyV>) -> Seq<
    (OutPoint, OutputV),
>
    decreases bodies.len(),
{
    if bodies.len() == 0 {
        utxos
    } else {
        run_chain(spec_connect_body(utxos, bodies[0]), bodies.skip(1))
    }
}

/// The coinbase value a run of bodies mints.
pub open spec fn chain_coinbase(bodies: Seq<BodyV>) -> int
    decreases bodies.len(),
{
    if bodies.len() == 0 {
        0
    } else {
        sum_output_values(bodies[0].coinbase) + chain_coinbase(bodies.skip(1))
    }
}

/// The fees a run of bodies burns, each measured against the ledger its
/// body meets.
pub open spec fn chain_fees(utxos: Seq<(OutPoint, OutputV)>, bodies: Seq<BodyV>) -> int
    decreases bodies.len(),
{
    if bodies.len() == 0 {
        0
    } else {
        spec_total_fees(utxos, bodies[0].transactions) + chain_fees(
            spec_connect_body(utxos, bodies[0]),
            bodies.skip(1),
        )
    }
}

/// Law: the peg-balance identity over any chain of accepted blocks, deposits
/// and withdrawals aside — the UTXO total after the chain is the starting
/// total plus every coinbase minted, minus every fee burned.
pub proof fn lemma_chain_value_conservation(utxos: Seq<(OutPoint, OutputV)>, bodies: Seq<BodyV>)
    requires
        utxos_wf(utxos),
        chain_ok(utxos, bodies),
    ensures
        sum_utxos(run_chain(utxos, bodies)) == sum_utxos(utxos) + chain_coinbase(bodies)
            - chain_fees(utxos, bodies),
        utxos_wf(run_chain(utxos, bodies)),
    decreases bodies.len(),
{
    if bodies.len() > 0 {
        let b = bodies[0];
        lemma_connect_body_conservation(utxos, b);
        lemma_chain_value_conservation(spec_connect_body(utxos, b), bodies.skip(1));
    }
}

/// Whether an outpoint is created by one of a run of bodies.
pub open spec fn created_by_chain(bodies: Seq<BodyV>, q: OutPoint) -> bool
    decreases bodies.len(),
{
    if bodies.len() == 0 {
        false
    } else {
        created_by_body(bodies[0], q) || created_by_chain(bodies.skip(1), q)
    }
}

/// Law: provenance over any chain of accepted blocks, deposits and
/// withdrawals aside — every outpoint the final ledger resolves was either
/// created by one of the accepted bodies, or was already unspent at the
/// start and spent by none of them.
pub proof fn lemma_chain_provenance(
    utxos: Seq<(OutPoint, OutputV)>,
    bodies: Seq<BodyV>,
    q: OutPoint,
)
    requires
        chain_ok(utxos, bodies),
    ensures
        find_utxo(run_chain(utxos, bodies), q) is Some ==> created_by_chain(bodies, q) || (
        find_utxo(utxos, q) is Some && (forall|i: int|
            0 <= i < bodies.len() ==> !body_inputs(
                (#[trigger] bodies[i]).transactions,
            ).contains(q))),
    decreases bodies.len(),
{
    if bodies.len() > 0 {
        let b = bodies[0];
        let after = spec_connect_body(utxos, b);
        lemma_chain_provenance(after, bodies.skip(1), q);
        lemma_connect_body_provenance(utxos, b, q);
        if find_utxo(run_chain(utxos, bodies), q) is Some {
            if !created_by_chain(bodies, q) {
                assert(!created_by_body(b, q));
                assert(!created_by_chain(bodies.skip(1), q));
                assert(find_utxo(after, q) is Some);
                assert(find_utxo(utxos, q) is Some && !body_inputs(b.transactions).contains(q));
                assert(forall|i: int|
                    1 <= i < bodies.len() ==> bodies[i] == bodies.skip(1)[i - 1]);
            }
        }
    }
}

} // verus!

verus! {

use crate::state::{agg_gt, bytes_lex_lt, insert_agg_desc, sort_aggs_desc};
use crate::types::AggregatedWithdrawalV;

// ---------------------------------------------------------------------------
// Law: the bundle's aggregate order is a strict descent.
// ---------------------------------------------------------------------------

/// The lexicographic byte order is asymmetric.
pub proof fn lemma_lex_asym(a: Seq<u8>, b: Seq<u8>)
    requires
        bytes_lex_lt(a, b),
    ensures
        !bytes_lex_lt(b, a),
    decreases a.len(),
{
    if a.len() > 0 && b.len() > 0 && a[0] == b[0] {
        lemma_lex_asym(a.skip(1), b.skip(1));
    }
}

/// Two byte strings neither of which precedes the other are equal.
pub proof fn lemma_lex_total(a: Seq<u8>, b: Seq<u8>)
    requires
        !bytes_lex_lt(a, b),
        !bytes_lex_lt(b, a),
    ensures
        a == b,
    decreases a.len(),
{
    if a.len() == 0 {
        assert(b.len() == 0);
        assert(a =~= b);
    } else {
        assert(b.len() > 0);
        assert(a[0] == b[0]);
        lemma_lex_total(a.skip(1), b.skip(1));
        assert(forall|i: int| 1 <= i < a.len() ==> #[trigger] a[i] == a.skip(1)[i - 1]);
        assert(forall|i: int| 1 <= i < b.len() ==> #[trigger] b[i] == b.skip(1)[i - 1]);
        assert(a =~= b);
    }
}

/// The descending aggregate order is asymmetric.
pub proof fn lemma_agg_gt_asym(a: AggregatedWithdrawalV, b: AggregatedWithdrawalV)
    requires
        agg_gt(a, b),
    ensures
        !agg_gt(b, a),
{
    if agg_gt(b, a) {
        if a.main_fee == b.main_fee && a.value == b.value {
            lemma_lex_asym(b.main_address, a.main_address);
        }
    }
}

/// Whatever lies between in the descending order transmits it: if `c`
/// outranks `a` but not `b`, then `b` outranks `a`.
pub proof fn lemma_agg_gt_step(
    a: AggregatedWithdrawalV,
    b: AggregatedWithdrawalV,
    c: AggregatedWithdrawalV,
)
    requires
        agg_gt(c, a),
        !agg_gt(c, b),
    ensures
        agg_gt(b, a),
{
    if c.main_fee > a.main_fee {
        if !(b.main_fee >= c.main_fee) {
            assert(agg_gt(c, b));
        }
    } else if c.main_fee == a.main_fee && c.value > a.value {
        if b.main_fee == c.main_fee && !(b.value >= c.value) {
            assert(agg_gt(c, b));
        }
    } else {
        assert(c.main_fee == a.main_fee && c.value == a.value && bytes_lex_lt(
            a.main_address,
            c.main_address,
        ));
        if b.main_fee == c.main_fee && b.value == c.value {
            if bytes_lex_lt(b.main_address, c.main_address) {
                assert(agg_gt(c, b));
            } else if bytes_lex_lt(c.main_address, b.main_address) {
                crate::mempool::lemma_lex_trans(a.main_address, c.main_address, b.main_address);
            } else {
                lemma_lex_total(c.main_address, b.main_address);
            }
        }
    }
}

/// No later entry outranks an earlier one.
pub open spec fn sorted_desc(s: Seq<AggregatedWithdrawalV>) -> bool {
    forall|i: int, j: int| 0 <= i < j < s.len() ==> !agg_gt(#[trigger] s[j], #[trigger] s[i])
}

/// Every entry of an insertion is the inserted one or one of the old ones.
pub proof fn lemma_insert_elements(
    s: Seq<AggregatedWithdrawalV>,
    x: AggregatedWithdrawalV,
    k: int,
)
    requires
        0 <= k < insert_agg_desc(s, x).len(),
    ensures
        insert_agg_desc(s, x)[k] == x || s.contains(insert_agg_desc(s, x)[k]),
    decreases s.len(),
{
    if s.len() == 0 {
    } else if agg_gt(s[0], x) {
        let t = seq![s[0]] + insert_agg_desc(s.skip(1), x);
        if k == 0 {
            assert(s.contains(s[0]));
        } else {
            lemma_insert_elements(s.skip(1), x, k - 1);
            assert(t[k] == insert_agg_desc(s.skip(1), x)[k - 1]);
            if s.skip(1).contains(t[k]) {
                let m = choose|m: int| 0 <= m < s.skip(1).len() && s.skip(1)[m] == t[k];
                assert(s[m + 1] == t[k]);
            }
        }
    } else {
        let t = seq![x] + s;
        if k > 0 {
            assert(t[k] == s[k - 1]);
        }
    }
}

/// Inserting into a descending list keeps it descending.
pub proof fn lemma_insert_sorted(s: Seq<AggregatedWithdrawalV>, x: AggregatedWithdrawalV)
    requires
        sorted_desc(s),
    ensures
        sorted_desc(insert_agg_desc(s, x)),
    decreases s.len(),
{
    if s.len() == 0 {
    } else if agg_gt(s[0], x) {
        assert(sorted_desc(s.skip(1))) by {
            assert(forall|i: int| 0 <= i < s.skip(1).len() ==> #[trigger] s.skip(1)[i] == s[i
                + 1]);
        }
        lemma_insert_sorted(s.skip(1), x);
        let rest = insert_agg_desc(s.skip(1), x);
        let t = seq![s[0]] + rest;
        assert forall|i: int, j: int| 0 <= i < j < t.len() implies !agg_gt(
            #[trigger] t[j],
            #[trigger] t[i],
        ) by {
            if i == 0 {
                lemma_insert_elements(s.skip(1), x, j - 1);
                assert(t[j] == rest[j - 1]);
                if rest[j - 1] == x {
                    lemma_agg_gt_asym(s[0], x);
                } else {
                    let m = choose|m: int| 0 <= m < s.skip(1).len() && s.skip(1)[m] == rest[j - 1];
                    assert(s[m + 1] == rest[j - 1]);
                    assert(!agg_gt(s[m + 1], s[0]));
                }
            } else {
                assert(t[i] == rest[i - 1] && t[j] == rest[j - 1]);
            }
        }
    } else {
        let t = seq![x] + s;
        assert forall|i: int, j: int| 0 <= i < j < t.len() implies !agg_gt(
            #[trigger] t[j],
            #[trigger] t[i],
        ) by {
            if i == 0 {
                assert(t[j] == s[j - 1]);
                if agg_gt(s[j - 1], x) {
                    if j == 1 {
                        assert(!agg_gt(s[0], x));
                    } else {
                        assert(!agg_gt(s[j - 1], s[0]));
                        lemma_agg_gt_step(x, s[0], s[j - 1]);
                        assert(agg_gt(s[0], x));
                    }
                }
            } else {
                assert(t[i] == s[i - 1] && t[j] == s[j - 1]);
            }
        }
    }
}

/// Law: the bundle's aggregates really come out in descending order —
/// higher fee first, then higher value, then the lexicographically greater
/// destination.
pub proof fn lemma_sort_aggs_descending(aggs: Seq<AggregatedWithdrawalV>)
    ensures
        sorted_desc(sort_aggs_desc(aggs)),
    decreases aggs.len(),
{
    if aggs.len() > 0 {
        lemma_sort_aggs_descending(aggs.drop_last());
        lemma_insert_sorted(sort_aggs_desc(aggs.drop_last()), aggs.last());
    }
}

} // verus!

verus! {

use crate::state::{apply_deposits, restore_spent};
use crate::address::spec_parse_address;
use crate::types::{DepositOutputV, MainOutPoint};

// ---------------------------------------------------------------------------
// Law: the peg's own value movements.
// ---------------------------------------------------------------------------

/// The value the accepted deposits of a report carry: records whose
/// destination parses.
pub open spec fn deposits_value(deposits: Seq<(MainOutPoint, DepositOutputV)>) -> int
    decreases deposits.len(),
{
    if deposits.len() == 0 {
        0
    } else {
        deposits_value(deposits.drop_last()) + (match spec_parse_address(
            deposits.last().1.address,
        ) {
            Some(_) => deposits.last().1.value as int,
            None => 0,
        })
    }
}

/// Ingesting deposits touches no other key.
pub proof fn lemma_find_apply_deposits_other(
    utxos: Seq<(OutPoint, OutputV)>,
    deposits: Seq<(MainOutPoint, DepositOutputV)>,
    q: OutPoint,
)
    requires
        forall|j: int|
            0 <= j < deposits.len() ==> OutPoint::Deposit((#[trigger] deposits[j]).0) != q,
    ensures
        find_utxo(apply_deposits(utxos, deposits), q) == find_utxo(utxos, q),
    decreases deposits.len(),
{
    if deposits.len() > 0 {
        assert(forall|j: int|
            0 <= j < deposits.drop_last().len() ==> OutPoint::Deposit(
                (#[trigger] deposits.drop_last()[j]).0,
            ) != q);
        lemma_find_apply_deposits_other(utxos, deposits.drop_last(), q);
        match spec_parse_address(deposits.last().1.address) {
            Some(address) => {
                assert(deposits[deposits.len() - 1] == deposits.last());
                lemma_find_put(
                    apply_deposits(utxos, deposits.drop_last()),
                    OutPoint::Deposit(deposits.last().0),
                    OutputV {
                        address,
                        content: crate::types::ContentV::Value(deposits.last().1.value),
                    },
                    q,
                );
            }
            None => {}
        }
    }
}

/// Law: a deposit report adds exactly the accepted deposits' value, when the
/// deposited outpoints are fresh and distinct.
pub proof fn lemma_apply_deposits_sum(
    utxos: Seq<(OutPoint, OutputV)>,
    deposits: Seq<(MainOutPoint, DepositOutputV)>,
)
    requires
        utxos_wf(utxos),
        forall|j: int|
            0 <= j < deposits.len() ==> find_utxo(
                utxos,
                OutPoint::Deposit((#[trigger] deposits[j]).0),
            ) is None,
        forall|i: int, j: int|
            0 <= i < j < deposits.len() ==> (#[trigger] deposits[i]).0 != (
            #[trigger] deposits[j]).0,
    ensures
        sum_utxos(apply_deposits(utxos, deposits)) == sum_utxos(utxos) + deposits_value(deposits),
        utxos_wf(apply_deposits(utxos, deposits)),
    decreases deposits.len(),
{
    if deposits.len() > 0 {
        let front = deposits.drop_last();
        assert(forall|j: int| 0 <= j < front.len() ==> #[trigger] front[j] == deposits[j]);
        lemma_apply_deposits_sum(utxos, front);
        let prev = apply_deposits(utxos, front);
        match spec_parse_address(deposits.last().1.address) {
            Some(address) => {
                let key = OutPoint::Deposit(deposits.last().0);
                assert(forall|j: int|
                    0 <= j < front.len() ==> OutPoint::Deposit((#[trigger] front[j]).0) != key)
                    by {
                    assert(deposits[deposits.len() - 1] == deposits.last());
                }
                lemma_find_apply_deposits_other(utxos, front, key);
                assert(find_utxo(prev, key) is None) by {
                    assert(deposits[deposits.len() - 1] == deposits.last());
                }
                lemma_sum_put_fresh(
                    prev,
                    key,
                    OutputV {
                        address,
                        content: crate::types::ContentV::Value(deposits.last().1.value),
                    },
                );
            }
            None => {}
        }
    }
}

/// The value a failed bundle's sweep holds.
pub open spec fn spent_value(spent: Seq<(OutPoint, OutputV)>) -> int
    decreases spent.len(),
{
    if spent.len() == 0 {
        0
    } else {
        spent_value(spent.drop_last()) + spent.last().1.value()
    }
}

/// Law: a bundle failure restores exactly the swept value, when the swept
/// outpoints are absent and distinct — as they are after the sweep removed
/// them.
pub proof fn lemma_restore_spent_sum(
    utxos: Seq<(OutPoint, OutputV)>,
    spent: Seq<(OutPoint, OutputV)>,
)
    requires
        utxos_wf(utxos),
        forall|j: int|
            0 <= j < spent.len() ==> find_utxo(utxos, (#[trigger] spent[j]).0) is None,
        forall|i: int, j: int|
            0 <= i < j < spent.len() ==> (#[trigger] spent[i]).0 != (#[trigger] spent[j]).0,
    ensures
        sum_utxos(restore_spent(utxos, spent)) == sum_utxos(utxos) + spent_value(spent),
        utxos_wf(restore_spent(utxos, spent)),
    decreases spent.len(),
{
    if spent.len() > 0 {
        let front = spent.drop_last();
        assert(forall|j: int| 0 <= j < front.len() ==> #[trigger] front[j] == spent[j]);
        lemma_restore_spent_sum(utxos, front);
        let prev = restore_spent(utxos, front);
        let (key, output) = spent.last();
        assert(find_utxo(prev, key) == find_utxo(utxos, key)) by {
            lemma_find_restore_other(utxos, front, key);
            assert(spent[spent.len() - 1] == spent.last());
        }
        assert(find_utxo(prev, key) is None) by {
            assert(spent[spent.len() - 1] == spent.last());
        }
        lemma_sum_put_fresh(prev, key, output);
    }
}

/// Restoring other outpoints touches no other key.
pub proof fn lemma_find_restore_other(
    utxos: Seq<(OutPoint, OutputV)>,
    spent: Seq<(OutPoint, OutputV)>,
    q: OutPoint,
)
    requires
        forall|j: int| 0 <= j < spent.len() ==> (#[trigger] spent[j]).0 != q,
    ensures
        find_utxo(restore_spent(utxos, spent), q) == find_utxo(utxos, q),
    decreases spent.len(),
{
    if spent.len() > 0 {
        assert(forall|j: int|
            0 <= j < spent.drop_last().len() ==> (#[trigger] spent.drop_last()[j]).0 != q);
        lemma_find_restore_other(utxos, spent.drop_last(), q);
        assert(spent[spent.len() - 1] == spent.last());
        lemma_find_put(
            restore_spent(utxos, spent.drop_last()),
            spent.last().0,
            spent.last().1,
            q,
        );
    }
}

} // verus!

verus! {

/// Law: re-applying the identical Confirmed settlement through the whole
/// peg entry is a no-op once the first application has cleared the pending
/// slot, provided the repeat carries nothing else and the failure gap has
/// not passed again — the one exclusion: with the gap passed, a fresh
/// bundle may lawfully emerge from the remaining withdrawals.
pub proof fn lemma_connect_confirmed_idempotent(s: StateV, txid: MainTxid, block_height: u32)
    requires
        s.pending_withdrawal_bundle is None,
        !(block_height + 1 - s.last_withdrawal_bundle_failure_height
            > crate::state::State::WITHDRAWAL_BUNDLE_FAILURE_GAP),
    ensures
        spec_connect_two_way_peg_data(
            s,
            TwoWayPegDataV {
                deposits: Seq::empty(),
                deposit_block_hash: None,
                bundle_statuses: seq![(txid, WithdrawalBundleStatus::Confirmed)],
            },
            block_height,
        ) == Ok::<StateV, crate::state::Error>(s),
{
    let data = TwoWayPegDataV {
        deposits: Seq::empty(),
        deposit_block_hash: None,
        bundle_statuses: seq![(txid, WithdrawalBundleStatus::Confirmed)],
    };
    let s1 = StateV {
        utxos: crate::state::apply_deposits(s.utxos, data.deposits),
        last_deposit_block: s.last_deposit_block,
        ..s
    };
    assert(s1 =~= s);
    assert(!bundle_may_emerge(s1, block_height));
    let stat = data.bundle_statuses;
    assert(stat.drop_last() =~= Seq::<(MainTxid, WithdrawalBundleStatus)>::empty());
    assert(stat.last() == (txid, WithdrawalBundleStatus::Confirmed));
    assert(apply_statuses(s, stat.drop_last(), block_height) == s);
    assert(apply_statuses(s, stat, block_height) == s);
}

} // verus!
