//! The authoritative UTXO set, the pending withdrawal bundle, and per-chain
//! peg bookkeeping: transaction and body validation, block application, and
//! withdrawal-bundle collection.
//!
//! The UTXO store is an association list with unique keys, iterated in
//! storage order; every transition is specified as a function of that list.

use vstd::prelude::*;
use crate::types::{
    Address, AggregatedWithdrawal, Body, BodyV, Content, ContentV, FilledTransaction,
    MainAddress, MainBlockHash, MainOutPoint, MainTransaction, MainTxid, MainTxIn, MainTxOut,
    MerkleRoot, OutPoint, Output, OutputV, Transaction, TransactionV, TwoWayPegData,
    TwoWayPegDataV, Txid, WithdrawalBundle, WithdrawalBundleStatus, WithdrawalBundleV,
};
use crate::hashes::{spec_txid, sum_output_values};

verus! {

/// What can go wrong while validating or applying ledger data.
#[derive(Clone, Copy, Debug, PartialEq, Eq)]
pub enum Error {
    /// A batch of authorizations does not verify, or does not pair with the
    /// body's inputs.
    AuthorizationError,
    /// An input does not resolve to an unspent output.
    NoUtxo { outpoint: OutPoint },
    /// A transaction's outputs carry more value than its inputs.
    NotEnoughValueIn,
    /// A body's coinbase claims more than the body's fees.
    NotEnoughFees,
    /// An outpoint is spent twice.
    UtxoDoubleSpent,
    /// An authorization's derived address is not the spent output's address.
    WrongPubKeyForAddress,
    /// The collected bundle transaction exceeds the mainchain weight limit.
    BundleTooHeavy { weight: u64, max_weight: u64 },
    /// A value sum left the 64-bit range.
    ValueOverflow,
}

// ---------------------------------------------------------------------------
// The UTXO association list: lookup, insert-or-replace, remove.
// ---------------------------------------------------------------------------

/// Unique keys: no outpoint occurs twice.
pub open spec fn utxos_wf(s: Seq<(OutPoint, OutputV)>) -> bool {
    forall|i: int, j: int| 0 <= i < j < s.len() ==> (#[trigger] s[i]).0 != (#[trigger] s[j]).0
}

/// The output stored under an outpoint, scanning in storage order.
pub open spec fn find_utxo(s: Seq<(OutPoint, OutputV)>, k: OutPoint) -> Option<OutputV>
    decreases s.len(),
{
    if s.len() == 0 {
        None
    } else if s[0].0 == k {
        Some(s[0].1)
    } else {
        find_utxo(s.skip(1), k)
    }
}

/// The list with every entry for `k` removed.
pub open spec fn remove_utxo(s: Seq<(OutPoint, OutputV)>, k: OutPoint) -> Seq<(OutPoint, OutputV)>
    decreases s.len(),
{
    if s.len() == 0 {
        s
    } else if s[0].0 == k {
        remove_utxo(s.skip(1), k)
    } else {
        seq![s[0]] + remove_utxo(s.skip(1), k)
    }
}

/// The list with `k` bound to `v`: replaced in place when present, appended
/// when absent.
pub open spec fn put_utxo(
    s: Seq<(OutPoint, OutputV)>,
    k: OutPoint,
    v: OutputV,
) -> Seq<(OutPoint, OutputV)>
    decreases s.len(),
{
    if s.len() == 0 {
        seq![(k, v)]
    } else if s[0].0 == k {
        seq![(k, v)] + s.skip(1)
    } else {
        seq![s[0]] + put_utxo(s.skip(1), k, v)
    }
}

pub proof fn lemma_find_utxo_index(s: Seq<(OutPoint, OutputV)>, k: OutPoint, i: int)
    requires
        0 <= i < s.len(),
        s[i].0 == k,
        forall|j: int| 0 <= j < i ==> (#[trigger] s[j]).0 != k,
    ensures
        find_utxo(s, k) == Some(s[i].1),
    decreases i,
{
    if i == 0 {
    } else {
        assert(s[0].0 != k);
        lemma_find_utxo_index(s.skip(1), k, i - 1);
    }
}

pub proof fn lemma_find_utxo_none(s: Seq<(OutPoint, OutputV)>, k: OutPoint)
    requires
        forall|j: int| 0 <= j < s.len() ==> (#[trigger] s[j]).0 != k,
    ensures
        find_utxo(s, k) is None,
    decreases s.len(),
{
    if s.len() > 0 {
        lemma_find_utxo_none(s.skip(1), k);
    }
}

/// With `k` first found at `i`, and keys unique, removal is deletion at `i`.
pub proof fn lemma_remove_utxo_index(s: Seq<(OutPoint, OutputV)>, k: OutPoint, i: int)
    requires
        utxos_wf(s),
        0 <= i < s.len(),
        s[i].0 == k,
        forall|j: int| 0 <= j < i ==> (#[trigger] s[j]).0 != k,
    ensures
        remove_utxo(s, k) == s.subrange(0, i) + s.skip(i + 1),
    decreases i,
{
    if i == 0 {
        assert(forall|j: int|
            0 <= j < s.skip(1).len() ==> (#[trigger] s.skip(1)[j]).0 != k) by {
            assert(forall|j: int| 0 <= j < s.skip(1).len() ==> s.skip(1)[j] == s[j + 1]);
        }
        lemma_remove_utxo_keyless(s.skip(1), k);
        assert(remove_utxo(s, k) == s.skip(1));
        assert(s.subrange(0, 0) + s.skip(1) =~= s.skip(1));
    } else {
        assert(s[0].0 != k);
        assert(utxos_wf(s.skip(1))) by {
            assert(forall|x: int, y: int|
                0 <= x < y < s.skip(1).len() ==> (#[trigger] s.skip(1)[x]).0 != (
                #[trigger] s.skip(1)[y]).0) by {
                assert(forall|j: int| 0 <= j < s.skip(1).len() ==> s.skip(1)[j] == s[j + 1]);
            }
        }
        lemma_remove_utxo_index(s.skip(1), k, i - 1);
        assert(s.skip(1).subrange(0, i - 1) =~= s.subrange(1, i));
        assert(s.skip(1).skip(i) =~= s.skip(i + 1));
        assert(seq![s[0]] + (s.subrange(1, i) + s.skip(i + 1)) =~= s.subrange(0, i) + s.skip(
            i + 1,
        ));
    }
}

/// Removing a key that is not bound changes nothing.
pub proof fn lemma_remove_utxo_keyless(s: Seq<(OutPoint, OutputV)>, k: OutPoint)
    requires
        forall|j: int| 0 <= j < s.len() ==> (#[trigger] s[j]).0 != k,
    ensures
        remove_utxo(s, k) == s,
    decreases s.len(),
{
    if s.len() > 0 {
        assert(forall|j: int|
            0 <= j < s.skip(1).len() ==> (#[trigger] s.skip(1)[j]).0 != k) by {
            assert(forall|j: int| 0 <= j < s.skip(1).len() ==> s.skip(1)[j] == s[j + 1]);
        }
        lemma_remove_utxo_keyless(s.skip(1), k);
        assert(seq![s[0]] + s.skip(1) =~= s);
    }
}

/// With `k` first found at `i`, insertion replaces in place.
pub proof fn lemma_put_utxo_index(s: Seq<(OutPoint, OutputV)>, k: OutPoint, v: OutputV, i: int)
    requires
        0 <= i < s.len(),
        s[i].0 == k,
        forall|j: int| 0 <= j < i ==> (#[trigger] s[j]).0 != k,
    ensures
        put_utxo(s, k, v) == s.update(i, (k, v)),
    decreases i,
{
    if i == 0 {
        assert(seq![(k, v)] + s.skip(1) =~= s.update(0, (k, v)));
    } else {
        assert(s[0].0 != k);
        lemma_put_utxo_index(s.skip(1), k, v, i - 1);
        assert(seq![s[0]] + s.skip(1).update(i - 1, (k, v)) =~= s.update(i, (k, v)));
    }
}

/// Inserting an unbound key appends.
pub proof fn lemma_put_utxo_absent(s: Seq<(OutPoint, OutputV)>, k: OutPoint, v: OutputV)
    requires
        forall|j: int| 0 <= j < s.len() ==> (#[trigger] s[j]).0 != k,
    ensures
        put_utxo(s, k, v) == s.push((k, v)),
    decreases s.len(),
{
    if s.len() == 0 {
        assert(seq![(k, v)] =~= s.push((k, v)));
    } else {
        assert(forall|j: int|
            0 <= j < s.skip(1).len() ==> (#[trigger] s.skip(1)[j]).0 != k) by {
            assert(forall|j: int| 0 <= j < s.skip(1).len() ==> s.skip(1)[j] == s[j + 1]);
        }
        lemma_put_utxo_absent(s.skip(1), k, v);
        assert(seq![s[0]] + s.skip(1).push((k, v)) =~= s.push((k, v)));
    }
}

} // verus!

verus! {

/// View of the exec pair list.
pub open spec fn pairs_view(s: Seq<(OutPoint, Output)>) -> Seq<(OutPoint, OutputV)> {
    s.map_values(|p: (OutPoint, Output)| (p.0, p.1@))
}

/// Find the storage index of an outpoint, if bound.
pub fn find_utxo_index(utxos: &Vec<(OutPoint, Output)>, k: &OutPoint) -> (r: Option<usize>)
    ensures
        match r {
            Some(i) => i < utxos@.len() && utxos@[i as int].0 == *k && forall|j: int|
                0 <= j < i ==> (#[trigger] utxos@[j]).0 != *k,
            None => forall|j: int| 0 <= j < utxos@.len() ==> (#[trigger] utxos@[j]).0 != *k,
        },
{
    let mut i: usize = 0;
    while i < utxos.len()
        invariant
            i <= utxos@.len(),
            forall|j: int| 0 <= j < i ==> (#[trigger] utxos@[j]).0 != *k,
        decreases utxos@.len() - i,
    {
        if crate::types::outpoint_eq(&utxos[i].0, k) {
            return Some(i);
        }
        i += 1;
    }
    None
}

/// Look an outpoint up in the list.
pub fn utxos_get<'a>(utxos: &'a Vec<(OutPoint, Output)>, k: &OutPoint) -> (r: Option<&'a Output>)
    ensures
        match r {
            Some(o) => find_utxo(pairs_view(utxos@), *k) == Some(o@),
            None => find_utxo(pairs_view(utxos@), *k) is None,
        },
{
    match find_utxo_index(utxos, k) {
        Some(i) => {
            proof {
                lemma_find_utxo_index(pairs_view(utxos@), *k, i as int);
            }
            Some(&utxos[i].1)
        }
        None => {
            proof {
                lemma_find_utxo_none(pairs_view(utxos@), *k);
            }
            None
        }
    }
}

/// Bind an outpoint to an output, replacing any previous binding.
pub fn utxos_put(utxos: &mut Vec<(OutPoint, Output)>, k: OutPoint, v: Output)
    requires
        utxos_wf(pairs_view(old(utxos)@)),
    ensures
        pairs_view(final(utxos)@) == put_utxo(pairs_view(old(utxos)@), k, v@),
        utxos_wf(pairs_view(final(utxos)@)),
{
    let ghost s = pairs_view(utxos@);
    match find_utxo_index(utxos, &k) {
        Some(i) => {
            proof {
                lemma_put_utxo_index(s, k, v@, i as int);
            }
            utxos.remove(i);
            utxos.insert(i, (k, v));
            proof {
                assert(pairs_view(utxos@) =~= s.update(i as int, (k, v@)));
                assert(utxos_wf(pairs_view(utxos@))) by {
                    let t = s.update(i as int, (k, v@));
                    assert(forall|x: int, y: int|
                        0 <= x < y < t.len() ==> (#[trigger] t[x]).0 != (#[trigger] t[y]).0) by {
                        assert(forall|x: int| 0 <= x < t.len() && x != i ==> t[x] == s[x]);
                        assert(t[i as int].0 == k && s[i as int].0 == k);
                    }
                }
            }
        }
        None => {
            proof {
                lemma_put_utxo_absent(s, k, v@);
            }
            utxos.push((k, v));
            proof {
                assert(pairs_view(utxos@) =~= s.push((k, v@)));
                assert(utxos_wf(pairs_view(utxos@))) by {
                    let t = s.push((k, v@));
                    assert(forall|x: int| 0 <= x < s.len() ==> t[x] == s[x]);
                    assert(t[s.len() as int].0 == k);
                }
            }
        }
    }
}

/// Drop an outpoint's binding, if any.
pub fn utxos_remove(utxos: &mut Vec<(OutPoint, Output)>, k: &OutPoint)
    requires
        utxos_wf(pairs_view(old(utxos)@)),
    ensures
        pairs_view(final(utxos)@) == remove_utxo(pairs_view(old(utxos)@), *k),
        utxos_wf(pairs_view(final(utxos)@)),
{
    let ghost s = pairs_view(utxos@);
    match find_utxo_index(utxos, k) {
        Some(i) => {
            proof {
                lemma_remove_utxo_index(s, *k, i as int);
            }
            utxos.remove(i);
            proof {
                assert(pairs_view(utxos@) =~= s.subrange(0, i as int) + s.skip(i + 1));
                assert(utxos_wf(pairs_view(utxos@))) by {
                    let t = s.subrange(0, i as int) + s.skip(i + 1);
                    assert(forall|x: int|
                        0 <= x < t.len() ==> t[x] == (if x < i {
                            s[x]
                        } else {
                            s[x + 1]
                        }));
                }
            }
        }
        None => {
            proof {
                lemma_remove_utxo_keyless(s, *k);
            }
        }
    }
}

// ---------------------------------------------------------------------------
// The State component.
// ---------------------------------------------------------------------------

/// View of [`State`].
#[verifier::ext_equal]
pub struct StateV {
    pub utxos: Seq<(OutPoint, OutputV)>,
    pub pending_withdrawal_bundle: Option<WithdrawalBundleV>,
    pub last_withdrawal_bundle_failure_height: u32,
    pub last_deposit_block: Option<MainBlockHash>,
}

/// The authoritative ledger state.
pub struct State {
    pub utxos: Vec<(OutPoint, Output)>,
    pub pending_withdrawal_bundle: Option<WithdrawalBundle>,
    pub last_withdrawal_bundle_failure_height: u32,
    pub last_deposit_block: Option<MainBlockHash>,
}

impl View for State {
    type V = StateV;

    open spec fn view(&self) -> StateV {
        StateV {
            utxos: pairs_view(self.utxos@),
            pending_withdrawal_bundle: match self.pending_withdrawal_bundle {
                Some(b) => Some(b@),
                None => None,
            },
            last_withdrawal_bundle_failure_height: self.last_withdrawal_bundle_failure_height,
            last_deposit_block: self.last_deposit_block,
        }
    }
}

/// The entries owned by one of the given addresses, in storage order.
pub open spec fn filter_owned(
    s: Seq<(OutPoint, OutputV)>,
    addrs: Seq<Address>,
) -> Seq<(OutPoint, OutputV)>
    decreases s.len(),
{
    if s.len() == 0 {
        s
    } else {
        let rest = filter_owned(s.drop_last(), addrs);
        if addrs.contains(s.last().1.address) {
            rest.push(s.last())
        } else {
            rest
        }
    }
}

/// Whether an input resolves for every input of the list.
pub open spec fn all_inputs_found(utxos: Seq<(OutPoint, OutputV)>, inputs: Seq<OutPoint>) -> bool {
    forall|i: int| 0 <= i < inputs.len() ==> find_utxo(utxos, #[trigger] inputs[i]) is Some
}

/// The outputs the inputs resolve to, in input order.
pub open spec fn filled_outputs(
    utxos: Seq<(OutPoint, OutputV)>,
    inputs: Seq<OutPoint>,
) -> Seq<OutputV> {
    Seq::new(inputs.len(), |i: int| find_utxo(utxos, inputs[i]).unwrap())
}

/// The value a filled transaction spends.
pub open spec fn spec_value_in(ft: crate::types::FilledTransactionV) -> int {
    sum_output_values(ft.spent_utxos)
}

/// The value a filled transaction creates.
pub open spec fn spec_value_out(ft: crate::types::FilledTransactionV) -> int {
    sum_output_values(ft.transaction.outputs)
}

impl State {
    /// The gap, in blocks, that must separate a bundle failure from the next
    /// bundle's emergence.
    pub const WITHDRAWAL_BUNDLE_FAILURE_GAP: u32 = 4;

    pub open spec fn wf(&self) -> bool {
        utxos_wf(self@.utxos)
    }

    /// A fresh, empty ledger.
    pub fn new() -> (r: State)
        ensures
            r.wf(),
            r@.utxos == Seq::<(OutPoint, OutputV)>::empty(),
            r@.pending_withdrawal_bundle is None,
            r@.last_withdrawal_bundle_failure_height == 0,
            r@.last_deposit_block is None,
    {
        let r = State {
            utxos: Vec::new(),
            pending_withdrawal_bundle: None,
            last_withdrawal_bundle_failure_height: 0,
            last_deposit_block: None,
        };
        proof {
            assert(r@.utxos =~= Seq::<(OutPoint, OutputV)>::empty());
        }
        r
    }

    /// Every unspent output, in storage order.
    pub fn get_utxos(&self) -> (r: Vec<(OutPoint, Output)>)
        ensures
            pairs_view(r@) == self@.utxos,
    {
        let mut r: Vec<(OutPoint, Output)> = Vec::new();
        let mut i: usize = 0;
        while i < self.utxos.len()
            invariant
                i <= self.utxos@.len(),
                r@.len() == i,
                forall|j: int|
                    0 <= j < i ==> (#[trigger] r@[j]).0 == self.utxos@[j].0 && r@[j].1@
                        == self.utxos@[j].1@,
            decreases self.utxos@.len() - i,
        {
            let entry = &self.utxos[i];
            r.push((entry.0, crate::types::clone_output(&entry.1)));
            i += 1;
        }
        proof {
            assert(pairs_view(r@) =~= self@.utxos);
        }
        r
    }

    /// The unspent outputs owned by one of the given addresses, in storage
    /// order.
    pub fn get_utxos_by_addresses(&self, addresses: &Vec<Address>) -> (r: Vec<(OutPoint, Output)>)
        ensures
            pairs_view(r@) == filter_owned(self@.utxos, addresses@),
    {
        let mut r: Vec<(OutPoint, Output)> = Vec::new();
        let mut i: usize = 0;
        while i < self.utxos.len()
            invariant
                i <= self.utxos@.len(),
                pairs_view(r@) == filter_owned(self@.utxos.take(i as int), addresses@),
            decreases self.utxos@.len() - i,
        {
            let entry = &self.utxos[i];
            let mut owned = false;
            let mut j: usize = 0;
            while j < addresses.len()
                invariant
                    j <= addresses@.len(),
                    i < self.utxos@.len(),
                    owned == exists|m: int| 0 <= m < j && addresses@[m] == entry.1.address,
                decreases addresses@.len() - j,
            {
                if crate::types::address_eq(&addresses[j], &entry.1.address) {
                    owned = true;
                }
                j += 1;
            }
            proof {
                assert(owned == addresses@.contains(entry.1.address));
                assert(self@.utxos.take(i + 1 as int).drop_last() =~= self@.utxos.take(i as int));
                assert(self@.utxos.take(i + 1 as int).last() == self@.utxos[i as int]);
            }
            if owned {
                r.push((entry.0, crate::types::clone_output(&entry.1)));
                proof {
                    assert(pairs_view(r@) =~= filter_owned(self@.utxos.take(i as int), addresses@)
                        .push(self@.utxos[i as int]));
                }
            }
            i += 1;
        }
        proof {
            assert(self@.utxos.take(self@.utxos.len() as int) =~= self@.utxos);
        }
        r
    }

    /// Resolve every input of a transaction against the UTXO set.
    pub fn fill_transaction(&self, transaction: &Transaction) -> (r: Result<
        FilledTransaction,
        Error,
    >)
        ensures
            match r {
                Ok(ft) => {
                    &&& all_inputs_found(self@.utxos, transaction@.inputs)
                    &&& ft@.transaction == transaction@
                    &&& ft@.spent_utxos == filled_outputs(self@.utxos, transaction@.inputs)
                },
                Err(Error::NoUtxo { outpoint }) => {
                    &&& !all_inputs_found(self@.utxos, transaction@.inputs)
                    &&& exists|i: int|
                        0 <= i < transaction@.inputs.len() && transaction@.inputs[i] == outpoint
                            && find_utxo(self@.utxos, #[trigger] transaction@.inputs[i]) is None
                },
                _ => false,
            },
    {
        let mut spent_utxos: Vec<Output> = Vec::new();
        let mut i: usize = 0;
        while i < transaction.inputs.len()
            invariant
                i <= transaction.inputs@.len(),
                spent_utxos@.len() == i,
                forall|j: int|
                    0 <= j < i ==> find_utxo(self@.utxos, #[trigger] transaction@.inputs[j])
                        == Some(spent_utxos@[j]@),
            decreases transaction.inputs@.len() - i,
        {
            let input = &transaction.inputs[i];
            match utxos_get(&self.utxos, input) {
                Some(output) => {
                    spent_utxos.push(crate::types::clone_output(output));
                }
                None => {
                    return Err(Error::NoUtxo { outpoint: *input });
                }
            }
            i += 1;
        }
        let ft = FilledTransaction {
            transaction: crate::types::clone_transaction(transaction),
            spent_utxos,
        };
        proof {
            assert(ft@.spent_utxos =~= filled_outputs(self@.utxos, transaction@.inputs));
        }
        Ok(ft)
    }

    /// The fee a filled transaction pays: spent value minus created value.
    pub fn validate_filled_transaction(&self, transaction: &FilledTransaction) -> (r: Result<
        u64,
        Error,
    >)
        ensures
            match r {
                Ok(fee) => {
                    &&& spec_value_in(transaction@) <= u64::MAX
                    &&& spec_value_out(transaction@) <= spec_value_in(transaction@)
                    &&& fee == spec_value_in(transaction@) - spec_value_out(transaction@)
                },
                Err(Error::ValueOverflow) => spec_value_in(transaction@) > u64::MAX,
                Err(Error::NotEnoughValueIn) => spec_value_in(transaction@) <= u64::MAX
                    && spec_value_out(transaction@) > spec_value_in(transaction@),
                _ => false,
            },
    {
        let value_in = match crate::hashes::sum_outputs(&transaction.spent_utxos) {
            Some(x) => x,
            None => {
                return Err(Error::ValueOverflow);
            },
        };
        let value_out = match crate::hashes::sum_outputs(&transaction.transaction.outputs) {
            Some(x) => x,
            None => {
                proof {
                    crate::hashes::lemma_sum_output_values_nonneg(transaction@.spent_utxos);
                }
                return Err(Error::NotEnoughValueIn);
            },
        };
        if value_out > value_in {
            Err(Error::NotEnoughValueIn)
        } else {
            Ok(value_in - value_out)
        }
    }
}

} // verus!

verus! {

// ---------------------------------------------------------------------------
// Body validation.
// ---------------------------------------------------------------------------

/// No outpoint occurs twice.
pub open spec fn distinct_outpoints(s: Seq<OutPoint>) -> bool {
    forall|i: int, j: int| 0 <= i < j < s.len() ==> (#[trigger] s[i]) != (#[trigger] s[j])
}

/// The fee one transaction pays out of the given UTXO set.
pub open spec fn spec_tx_fee(utxos: Seq<(OutPoint, OutputV)>, t: TransactionV) -> int {
    sum_output_values(filled_outputs(utxos, t.inputs)) - sum_output_values(t.outputs)
}

/// Whether one transaction's value sums are representable and non-negative.
pub open spec fn tx_fee_ok(utxos: Seq<(OutPoint, OutputV)>, t: TransactionV) -> bool {
    &&& sum_output_values(filled_outputs(utxos, t.inputs)) <= u64::MAX
    &&& sum_output_values(t.outputs) <= sum_output_values(filled_outputs(utxos, t.inputs))
}

/// The sum of all transactions' fees.
pub open spec fn spec_total_fees(utxos: Seq<(OutPoint, OutputV)>, txs: Seq<TransactionV>) -> int
    decreases txs.len(),
{
    if txs.len() == 0 {
        0
    } else {
        spec_total_fees(utxos, txs.drop_last()) + spec_tx_fee(utxos, txs.last())
    }
}

use crate::hashes::{body_inputs, lemma_body_inputs_push};

/// The messages of a prefix of the transactions form a prefix of the body's
/// flattened input list.
pub proof fn lemma_body_inputs_prefix(txs: Seq<TransactionV>, n: int)
    requires
        0 <= n <= txs.len(),
    ensures
        body_inputs(txs.take(n)).len() <= body_inputs(txs).len(),
        forall|k: int|
            0 <= k < body_inputs(txs.take(n)).len() ==> body_inputs(txs.take(n))[k]
                == body_inputs(txs)[k],
    decreases txs.len() - n,
{
    if n == txs.len() {
        assert(txs.take(n) =~= txs);
    } else {
        lemma_body_inputs_push(txs.take(n), txs[n]);
        assert(txs.take(n + 1) =~= txs.take(n).push(txs[n]));
        lemma_body_inputs_prefix(txs, n + 1);
    }
}

/// The flattened input at transaction `ti`, input `ii`.
pub proof fn lemma_body_inputs_index(txs: Seq<TransactionV>, ti: int, ii: int)
    requires
        0 <= ti < txs.len(),
        0 <= ii < txs[ti].inputs.len(),
    ensures
        body_inputs(txs).len() >= body_inputs(txs.take(ti)).len() + txs[ti].inputs.len(),
        body_inputs(txs)[body_inputs(txs.take(ti)).len() + ii] == txs[ti].inputs[ii],
{
    lemma_body_inputs_push(txs.take(ti), txs[ti]);
    assert(txs.take(ti + 1) =~= txs.take(ti).push(txs[ti]));
    lemma_body_inputs_prefix(txs, ti + 1);
}

/// Whether each authorization's derived address is the address of the output
/// its input spends, pairing the flat list positionally.
pub open spec fn spec_addresses_match(utxos: Seq<(OutPoint, OutputV)>, b: BodyV) -> bool {
    &&& b.authorizations.len() == body_inputs(b.transactions).len()
    &&& forall|j: int|
        0 <= j < b.authorizations.len() ==> crate::address::spec_pk_address(
            (#[trigger] b.authorizations[j]).public_key@,
        ) == filled_outputs(utxos, body_inputs(b.transactions))[j].address
}

/// The first value fault the fee pass meets, walking the transactions in
/// order with the running fee total: an unrepresentable input sum, an
/// overdraw, or a fee total leaving `u64`.
pub open spec fn spec_value_fault(
    utxos: Seq<(OutPoint, OutputV)>,
    txs: Seq<TransactionV>,
    acc: int,
) -> Option<Error>
    decreases txs.len(),
{
    if txs.len() == 0 {
        None
    } else {
        let t = txs[0];
        if sum_output_values(filled_outputs(utxos, t.inputs)) > u64::MAX {
            Some(Error::ValueOverflow)
        } else if sum_output_values(t.outputs) > sum_output_values(
            filled_outputs(utxos, t.inputs),
        ) {
            Some(Error::NotEnoughValueIn)
        } else if acc + spec_tx_fee(utxos, t) > u64::MAX {
            Some(Error::ValueOverflow)
        } else {
            spec_value_fault(utxos, txs.skip(1), acc + spec_tx_fee(utxos, t))
        }
    }
}

/// Everything `validate_body` checks.
pub open spec fn spec_validate_body_ok(utxos: Seq<(OutPoint, OutputV)>, b: BodyV) -> bool {
    &&& all_inputs_found(utxos, body_inputs(b.transactions))
    &&& distinct_outpoints(body_inputs(b.transactions))
    &&& forall|ti: int| 0 <= ti < b.transactions.len() ==> tx_fee_ok(utxos, #[trigger] b.transactions[ti])
    &&& spec_total_fees(utxos, b.transactions) <= u64::MAX
    &&& sum_output_values(b.coinbase) <= spec_total_fees(utxos, b.transactions)
    &&& spec_addresses_match(utxos, b)
    &&& crate::authorization::body_auths_valid(b)
}

/// Whether an outpoint occurs in the vector.
pub fn outpoints_contains(v: &Vec<OutPoint>, o: &OutPoint) -> (r: bool)
    ensures
        r == v@.contains(*o),
{
    let mut i: usize = 0;
    while i < v.len()
        invariant
            i <= v@.len(),
            forall|j: int| 0 <= j < i ==> v@[j] != *o,
        decreases v@.len() - i,
    {
        if crate::types::outpoint_eq(&v[i], o) {
            return true;
        }
        i += 1;
    }
    false
}

impl State {
    /// Validate a block body against the UTXO set: every input resolves, no
    /// outpoint is spent twice, the coinbase claims at most the fees, every
    /// authorization spends for the right address and verifies. Returns the
    /// body's total fees.
    /// The checks run in a fixed order — resolve the inputs, reject
    /// duplicates, balance each transaction and the fee total, bound the
    /// coinbase, pair the authorizations, verify the signatures — and the
    /// error names the first failing check.
    #[verifier::loop_isolation(false)]
    pub fn validate_body(&self, body: &Body) -> (r: Result<u64, Error>)
        requires
            self.wf(),
        ensures
            r is Ok <==> spec_validate_body_ok(self@.utxos, body@),
            !all_inputs_found(self@.utxos, body_inputs(body@.transactions)) ==> r is Err
                && r->Err_0 is NoUtxo,
            all_inputs_found(self@.utxos, body_inputs(body@.transactions))
                && !distinct_outpoints(body_inputs(body@.transactions)) ==> r == Err::<u64, Error>(
                Error::UtxoDoubleSpent,
            ),
            all_inputs_found(self@.utxos, body_inputs(body@.transactions)) && distinct_outpoints(
                body_inputs(body@.transactions),
            ) ==> (match spec_value_fault(self@.utxos, body@.transactions, 0) {
                Some(e) => r == Err::<u64, Error>(e),
                None => {
                    let fees = spec_total_fees(self@.utxos, body@.transactions);
                    let count_ok = body@.authorizations.len() == body_inputs(
                        body@.transactions,
                    ).len();
                    if sum_output_values(body@.coinbase) > fees {
                        r == Err::<u64, Error>(Error::NotEnoughFees)
                    } else if !count_ok {
                        r == Err::<u64, Error>(Error::AuthorizationError)
                    } else if !spec_addresses_match(self@.utxos, body@) {
                        r == Err::<u64, Error>(Error::WrongPubKeyForAddress)
                    } else if !crate::authorization::body_auths_valid(body@) {
                        r == Err::<u64, Error>(Error::AuthorizationError)
                    } else {
                        r is Ok
                    }
                },
            }),
            match r {
                Ok(fees) => fees == spec_total_fees(self@.utxos, body@.transactions),
                Err(Error::NoUtxo { outpoint }) => !all_inputs_found(
                    self@.utxos,
                    body_inputs(body@.transactions),
                ),
                Err(Error::UtxoDoubleSpent) => !distinct_outpoints(
                    body_inputs(body@.transactions),
                ),
                Err(Error::ValueOverflow) => !(forall|ti: int|
                    0 <= ti < body@.transactions.len() ==> tx_fee_ok(
                        self@.utxos,
                        #[trigger] body@.transactions[ti],
                    )) || spec_total_fees(self@.utxos, body@.transactions) > u64::MAX,
                Err(Error::NotEnoughValueIn) => !(forall|ti: int|
                    0 <= ti < body@.transactions.len() ==> tx_fee_ok(
                        self@.utxos,
                        #[trigger] body@.transactions[ti],
                    )),
                Err(Error::NotEnoughFees) => sum_output_values(body@.coinbase) > spec_total_fees(
                    self@.utxos,
                    body@.transactions,
                ),
                Err(Error::WrongPubKeyForAddress) => !spec_addresses_match(self@.utxos, body@),
                Err(Error::AuthorizationError) => !crate::authorization::body_auths_valid(body@),
                _ => false,
            },
    {
        let ghost utxos_v = self@.utxos;
        let ghost txs = body@.transactions;

        // Resolve every transaction's inputs.
        let mut filled: Vec<FilledTransaction> = Vec::new();
        let mut ti: usize = 0;
        while ti < body.transactions.len()
            invariant
                ti <= body.transactions@.len(),
                utxos_v == self@.utxos,
                txs == body@.transactions,
                txs.len() == body.transactions@.len(),
                forall|k: int| 0 <= k < txs.len() ==> txs[k] == body.transactions@[k]@,
                filled@.len() == ti,
                forall|k: int|
                    0 <= k < ti ==> (#[trigger] filled@[k]@).transaction == txs[k]
                        && filled@[k]@.spent_utxos == filled_outputs(utxos_v, txs[k].inputs),
                forall|k: int|
                    0 <= k < ti ==> all_inputs_found(utxos_v, (#[trigger] txs[k]).inputs),
            decreases body.transactions@.len() - ti,
        {
            match self.fill_transaction(&body.transactions[ti]) {
                Ok(ft) => {
                    filled.push(ft);
                }
                Err(e) => {
                    proof {
                        let missing = choose|i: int|
                            0 <= i < txs[ti as int].inputs.len() && find_utxo(
                                utxos_v,
                                #[trigger] txs[ti as int].inputs[i],
                            ) is None;
                        lemma_body_inputs_index(txs, ti as int, missing);
                        assert(!all_inputs_found(utxos_v, body_inputs(txs)));
                    }
                    match e {
                        Error::NoUtxo { outpoint } => {
                            return Err(Error::NoUtxo { outpoint });
                        }
                        _ => {
                            proof {
                                assert(false);
                            }
                            return Err(e);
                        }
                    }
                }
            }
            ti += 1;
        }
        proof {
            assert(all_inputs_found(utxos_v, body_inputs(txs))) by {
                assert forall|j: int| 0 <= j < body_inputs(txs).len() implies find_utxo(
                    utxos_v,
                    #[trigger] body_inputs(txs)[j],
                ) is Some by {
                    lemma_body_inputs_covered(txs, j);
                }
            }
        }

        // Reject duplicate inputs across the whole body.
        let mut seen: Vec<OutPoint> = Vec::new();
        let mut ti: usize = 0;
        while ti < body.transactions.len()
            invariant
                ti <= body.transactions@.len(),
                txs == body@.transactions,
                txs.len() == body.transactions@.len(),
                forall|k: int| 0 <= k < txs.len() ==> txs[k] == body.transactions@[k]@,
                seen@ == body_inputs(txs.take(ti as int)),
                distinct_outpoints(seen@),
            decreases body.transactions@.len() - ti,
        {
            let tx = &body.transactions[ti];
            let ghost before = body_inputs(txs.take(ti as int));
            proof {
                lemma_body_inputs_push(txs.take(ti as int), txs[ti as int]);
                assert(txs.take(ti + 1 as int) =~= txs.take(ti as int).push(txs[ti as int]));
            }
            let mut ii: usize = 0;
            while ii < tx.inputs.len()
                invariant
                    ii <= tx.inputs@.len(),
                    ti < txs.len(),
                    txs == body@.transactions,
                    tx@ == txs[ti as int],
                    tx.inputs@ == txs[ti as int].inputs,
                    before == body_inputs(txs.take(ti as int)),
                    body_inputs(txs.take(ti + 1 as int)) == before + txs[ti as int].inputs,
                    seen@ == before + txs[ti as int].inputs.take(ii as int),
                    distinct_outpoints(seen@),
                decreases tx.inputs@.len() - ii,
            {
                let input = &tx.inputs[ii];
                if outpoints_contains(&seen, input) {
                    proof {
                        let j = choose|j: int| 0 <= j < seen@.len() && seen@[j] == *input;
                        lemma_body_inputs_prefix(txs, ti + 1 as int);
                        assert(body_inputs(txs.take(ti + 1 as int))[j] == seen@[j]);
                        assert(body_inputs(txs.take(ti + 1 as int))[before.len() + ii] == *input);
                        assert(body_inputs(txs)[j] == *input);
                        assert(body_inputs(txs)[before.len() + ii] == *input);
                        assert(!distinct_outpoints(body_inputs(txs)));
                    }
                    return Err(Error::UtxoDoubleSpent);
                }
                seen.push(*input);
                proof {
                    assert(seen@ =~= before + txs[ti as int].inputs.take(ii + 1 as int));
                    assert(distinct_outpoints(seen@)) by {
                        assert(forall|x: int|
                            0 <= x < seen@.len() - 1 ==> #[trigger] seen@[x] != seen@[seen@.len()
                                - 1]);
                    }
                }
                ii += 1;
            }
            proof {
                assert(txs[ti as int].inputs.take(txs[ti as int].inputs.len() as int)
                    =~= txs[ti as int].inputs);
            }
            ti += 1;
        }
        proof {
            assert(txs.take(txs.len() as int) =~= txs);
            assert(distinct_outpoints(body_inputs(txs)));
        }

        // Sum the fees.
        let mut total_fees: u64 = 0;
        let mut ti: usize = 0;
        while ti < filled.len()
            invariant
                ti <= filled@.len(),
                utxos_v == self@.utxos,
                txs == body@.transactions,
                filled@.len() == txs.len(),
                forall|k: int|
                    0 <= k < txs.len() ==> (#[trigger] filled@[k]@).transaction == txs[k]
                        && filled@[k]@.spent_utxos == filled_outputs(utxos_v, txs[k].inputs),
                total_fees == spec_total_fees(utxos_v, txs.take(ti as int)),
                forall|k: int| 0 <= k < ti ==> tx_fee_ok(utxos_v, #[trigger] txs[k]),
                spec_value_fault(utxos_v, txs, 0) == spec_value_fault(
                    utxos_v,
                    txs.skip(ti as int),
                    total_fees as int,
                ),
            decreases filled@.len() - ti,
        {
            proof {
                assert(txs.skip(ti as int)[0] == txs[ti as int]);
                assert(txs.skip(ti as int).skip(1) =~= txs.skip(ti + 1));
                assert(filled@[ti as int]@.spent_utxos == filled_outputs(
                    utxos_v,
                    txs[ti as int].inputs,
                ));
            }
            let fee = match self.validate_filled_transaction(&filled[ti]) {
                Ok(f) => f,
                Err(e) => {
                    return match e {
                        Error::ValueOverflow => {
                            proof {
                                assert(spec_value_fault(utxos_v, txs, 0) == Some(
                                    Error::ValueOverflow,
                                ));
                            }
                            Err(Error::ValueOverflow)
                        },
                        _ => {
                            proof {
                                assert(e == Error::NotEnoughValueIn);
                                assert(spec_value_fault(utxos_v, txs, 0) == Some(
                                    Error::NotEnoughValueIn,
                                ));
                            }
                            Err(Error::NotEnoughValueIn)
                        },
                    };
                },
            };
            proof {
                assert(txs.take(ti + 1 as int).drop_last() =~= txs.take(ti as int));
                assert(txs.take(ti + 1 as int).last() == txs[ti as int]);
            }
            total_fees = match total_fees.checked_add(fee) {
                Some(x) => x,
                None => {
                    proof {
                        if forall|k: int|
                            0 <= k < txs.len() ==> tx_fee_ok(utxos_v, #[trigger] txs[k]) {
                            lemma_total_fees_partial_exceeds(utxos_v, txs, ti + 1 as int);
                        }
                        assert(spec_value_fault(utxos_v, txs, 0) == Some(Error::ValueOverflow));
                    }
                    return Err(Error::ValueOverflow);
                },
            };
            ti += 1;
        }
        proof {
            assert(txs.take(txs.len() as int) =~= txs);
            assert(txs.skip(txs.len() as int) =~= Seq::<TransactionV>::empty());
            assert(spec_value_fault(utxos_v, txs, 0) is None);
        }

        // The coinbase claims at most the fees.
        let coinbase_value = match crate::hashes::sum_outputs(&body.coinbase) {
            Some(x) => x,
            None => {
                return Err(Error::NotEnoughFees);
            },
        };
        if coinbase_value > total_fees {
            return Err(Error::NotEnoughFees);
        }

        // Each authorization's derived address is the spent output's address.
        if body.authorizations.len() != seen.len() {
            proof {
                assert(seen@.len() == body_inputs(txs).len());
                assert(!spec_addresses_match(utxos_v, body@));
                crate::authorization::lemma_body_auth_msgs_count(txs);
                assert(!crate::authorization::body_auths_valid(body@));
            }
            return Err(Error::AuthorizationError);
        }
        let mut j: usize = 0;
        let mut ti: usize = 0;
        while ti < filled.len()
            invariant
                ti <= filled@.len(),
                utxos_v == self@.utxos,
                txs == body@.transactions,
                filled@.len() == txs.len(),
                filled@.len() == filled.len(),
                forall|k: int|
                    0 <= k < txs.len() ==> (#[trigger] filled@[k]@).transaction == txs[k]
                        && filled@[k]@.spent_utxos == filled_outputs(utxos_v, txs[k].inputs),
                body@.authorizations.len() == body_inputs(txs).len(),
                body.authorizations@.len() == body@.authorizations.len(),
                j == body_inputs(txs.take(ti as int)).len(),
                j <= body@.authorizations.len(),
                forall|k: int|
                    0 <= k < j ==> crate::address::spec_pk_address(
                        (#[trigger] body@.authorizations[k]).public_key@,
                    ) == filled_outputs(utxos_v, body_inputs(txs))[k].address,
            decreases filled@.len() - ti,
        {
            let ghost before = body_inputs(txs.take(ti as int));
            proof {
                lemma_body_inputs_push(txs.take(ti as int), txs[ti as int]);
                assert(txs.take(ti + 1 as int) =~= txs.take(ti as int).push(txs[ti as int]));
                lemma_body_inputs_prefix(txs, ti + 1 as int);
            }
            proof {
                assert(filled@[ti as int]@.spent_utxos == filled_outputs(
                    utxos_v,
                    txs[ti as int].inputs,
                ));
                assert(filled@[ti as int].spent_utxos@.len() == txs[ti as int].inputs.len());
            }
            let tx_spent_len = filled[ti].spent_utxos.len();
            let mut ii: usize = 0;
            while ii < tx_spent_len
                invariant
                    ii <= tx_spent_len,
                    ti < filled@.len(),
                    utxos_v == self@.utxos,
                    txs == body@.transactions,
                    filled@.len() == txs.len(),
                    filled@.len() == filled.len(),
                    forall|k: int|
                        0 <= k < txs.len() ==> (#[trigger] filled@[k]@).transaction == txs[k]
                            && filled@[k]@.spent_utxos == filled_outputs(utxos_v, txs[k].inputs),
                    tx_spent_len == txs[ti as int].inputs.len(),
                    body@.authorizations.len() == body_inputs(txs).len(),
                    body.authorizations@.len() == body@.authorizations.len(),
                    before == body_inputs(txs.take(ti as int)),
                    j == before.len() + ii,
                    j <= body@.authorizations.len(),
                    forall|k: int|
                        0 <= k < j ==> crate::address::spec_pk_address(
                            (#[trigger] body@.authorizations[k]).public_key@,
                        ) == filled_outputs(utxos_v, body_inputs(txs))[k].address,
                decreases tx_spent_len - ii,
            {
                proof {
                    lemma_body_inputs_index(txs, ti as int, ii as int);
                    assert(j < body@.authorizations.len());
                    assert(filled@[ti as int].spent_utxos@.len() == txs[ti as int].inputs.len());
                }
                let auth = &body.authorizations[j];
                let derived = crate::address::get_address(&auth.public_key);
                let spent_address = filled[ti].spent_utxos[ii].address;
                proof {
                    assert(filled@[ti as int]@.spent_utxos[ii as int] == filled@[ti as int]
                        .spent_utxos@[ii as int]@);
                    assert(spent_address == filled@[ti as int]@.spent_utxos[ii as int].address);
                    assert(filled@[ti as int]@.spent_utxos[ii as int] == find_utxo(
                        utxos_v,
                        txs[ti as int].inputs[ii as int],
                    ).unwrap());
                    assert(body_inputs(txs)[j as int] == txs[ti as int].inputs[ii as int]);
                    assert(filled_outputs(utxos_v, body_inputs(txs))[j as int] == find_utxo(
                        utxos_v,
                        body_inputs(txs)[j as int],
                    ).unwrap());
                    assert(filled_outputs(utxos_v, body_inputs(txs))[j as int].address
                        == spent_address);
                }
                if !crate::types::address_eq(&derived, &spent_address) {
                    proof {
                        assert(!spec_addresses_match(utxos_v, body@));
                    }
                    return Err(Error::WrongPubKeyForAddress);
                }
                let auths_len = body.authorizations.len();
                proof {
                    assert(j < auths_len);
                }
                j += 1;
                ii += 1;
            }
            ti += 1;
        }
        proof {
            assert(txs.take(txs.len() as int) =~= txs);
            assert(spec_addresses_match(utxos_v, body@));
        }

        // Verify the signatures.
        if !crate::authorization::verify_authorizations(body) {
            return Err(Error::AuthorizationError);
        }
        Ok(total_fees)
    }
}

/// Every flattened input is some transaction's input.
pub proof fn lemma_body_inputs_covered(txs: Seq<TransactionV>, j: int)
    requires
        0 <= j < body_inputs(txs).len(),
    ensures
        exists|ti: int, ii: int|
            0 <= ti < txs.len() && 0 <= ii < txs[ti].inputs.len() && body_inputs(txs)[j]
                == txs[ti].inputs[ii] && #[trigger] dummy_pair(ti, ii),
    decreases txs.len(),
{
    assert(txs.len() > 0);
    if j < txs[0].inputs.len() {
        assert(body_inputs(txs)[j] == txs[0].inputs[j]);
        assert(dummy_pair(0, j));
    } else {
        lemma_body_inputs_covered(txs.skip(1), j - txs[0].inputs.len());
        let (ti0, ii0) = choose|ti: int, ii: int|
            0 <= ti < txs.skip(1).len() && 0 <= ii < txs.skip(1)[ti].inputs.len() && body_inputs(
                txs.skip(1),
            )[j - txs[0].inputs.len()] == txs.skip(1)[ti].inputs[ii] && #[trigger] dummy_pair(
                ti,
                ii,
            );
        assert(txs.skip(1)[ti0] == txs[ti0 + 1]);
        assert(body_inputs(txs)[j] == body_inputs(txs.skip(1))[j - txs[0].inputs.len()]);
        assert(dummy_pair(ti0 + 1, ii0));
    }
}

/// Trigger marker for pairs of indices.
pub open spec fn dummy_pair(ti: int, ii: int) -> bool {
    true
}

/// A partial fee sum that exceeds `u64::MAX` bounds the total below, given
/// the remaining transactions' fees are checked non-negative later... the
/// remaining fees are non-negative only when each transaction is fee-ok, so
/// this lemma takes that hypothesis for the remaining prefix.
pub proof fn lemma_total_fees_partial_exceeds(
    utxos: Seq<(OutPoint, OutputV)>,
    txs: Seq<TransactionV>,
    i: int,
)
    requires
        0 <= i <= txs.len(),
        spec_total_fees(utxos, txs.take(i)) > u64::MAX,
        forall|k: int| 0 <= k < txs.len() ==> tx_fee_ok(utxos, #[trigger] txs[k]),
    ensures
        spec_total_fees(utxos, txs) > u64::MAX,
    decreases txs.len() - i,
{
    if i < txs.len() {
        assert(txs.take(i + 1).drop_last() =~= txs.take(i));
        assert(txs.take(i + 1).last() == txs[i]);
        crate::hashes::lemma_sum_output_values_nonneg(txs[i].outputs);
        assert(spec_tx_fee(utxos, txs[i]) >= 0) by {
            assert(tx_fee_ok(utxos, txs[i]));
        }
        lemma_total_fees_partial_exceeds(utxos, txs, i + 1);
    } else {
        assert(txs.take(i) =~= txs);
    }
}

} // verus!

verus! {

// ---------------------------------------------------------------------------
// Body application.
// ---------------------------------------------------------------------------

/// Insert the coinbase outputs, keyed by the body's merkle root and their
/// position.
pub open spec fn put_coinbase(
    utxos: Seq<(OutPoint, OutputV)>,
    merkle_root: MerkleRoot,
    outs: Seq<OutputV>,
) -> Seq<(OutPoint, OutputV)>
    decreases outs.len(),
{
    if outs.len() == 0 {
        utxos
    } else {
        put_utxo(
            put_coinbase(utxos, merkle_root, outs.drop_last()),
            OutPoint::Coinbase { merkle_root, vout: (outs.len() - 1) as u32 },
            outs.last(),
        )
    }
}

/// Insert a transaction's outputs, keyed by its txid and their position.
pub open spec fn put_tx_outputs(
    utxos: Seq<(OutPoint, OutputV)>,
    txid: Txid,
    outs: Seq<OutputV>,
) -> Seq<(OutPoint, OutputV)>
    decreases outs.len(),
{
    if outs.len() == 0 {
        utxos
    } else {
        put_utxo(
            put_tx_outputs(utxos, txid, outs.drop_last()),
            OutPoint::Regular { txid, vout: (outs.len() - 1) as u32 },
            outs.last(),
        )
    }
}

/// Delete the given outpoints.
pub open spec fn remove_inputs(
    utxos: Seq<(OutPoint, OutputV)>,
    inputs: Seq<OutPoint>,
) -> Seq<(OutPoint, OutputV)>
    decreases inputs.len(),
{
    if inputs.len() == 0 {
        utxos
    } else {
        remove_utxo(remove_inputs(utxos, inputs.drop_last()), inputs.last())
    }
}

/// Apply one transaction: spend its inputs, create its outputs.
pub open spec fn apply_tx(utxos: Seq<(OutPoint, OutputV)>, t: TransactionV) -> Seq<
    (OutPoint, OutputV),
> {
    put_tx_outputs(remove_inputs(utxos, t.inputs), spec_txid(t), t.outputs)
}

/// Apply every transaction in order.
pub open spec fn apply_txs(utxos: Seq<(OutPoint, OutputV)>, txs: Seq<TransactionV>) -> Seq<
    (OutPoint, OutputV),
>
    decreases txs.len(),
{
    if txs.len() == 0 {
        utxos
    } else {
        apply_tx(apply_txs(utxos, txs.drop_last()), txs.last())
    }
}

/// What applying a body does to the UTXO set.
pub open spec fn spec_connect_body(utxos: Seq<(OutPoint, OutputV)>, b: BodyV) -> Seq<
    (OutPoint, OutputV),
> {
    apply_txs(
        put_coinbase(utxos, crate::hashes::spec_merkle_root(b.coinbase, b.transactions), b.coinbase),
        b.transactions,
    )
}

impl State {
    /// Apply a validated body: insert the coinbase outputs, then, for each
    /// transaction, delete its inputs and insert its outputs.
    pub fn connect_body(&mut self, body: &Body) -> (r: Result<(), Error>)
        requires
            old(self).wf(),
            body@.coinbase.len() <= u32::MAX,
            forall|ti: int|
                0 <= ti < body@.transactions.len() ==> (
                #[trigger] body@.transactions[ti]).outputs.len() <= u32::MAX,
        ensures
            r is Ok,
            final(self).wf(),
            final(self)@.utxos == spec_connect_body(old(self)@.utxos, body@),
            final(self)@.pending_withdrawal_bundle == old(self)@.pending_withdrawal_bundle,
            final(self)@.last_withdrawal_bundle_failure_height == old(
                self,
            )@.last_withdrawal_bundle_failure_height,
            final(self)@.last_deposit_block == old(self)@.last_deposit_block,
    {
        let ghost u0 = self@.utxos;
        let ghost cb = body@.coinbase;
        let ghost txs = body@.transactions;
        let merkle_root = body.compute_merkle_root();
        let mut i: usize = 0;
        while i < body.coinbase.len()
            invariant
                i <= body.coinbase@.len(),
                cb == body@.coinbase,
                txs == body@.transactions,
                cb.len() == body.coinbase@.len(),
                cb.len() <= u32::MAX,
                merkle_root == crate::hashes::spec_merkle_root(cb, txs),
                self.wf(),
                self@.utxos == put_coinbase(u0, merkle_root, cb.take(i as int)),
                self@.pending_withdrawal_bundle == old(self)@.pending_withdrawal_bundle,
                self@.last_withdrawal_bundle_failure_height == old(
                    self,
                )@.last_withdrawal_bundle_failure_height,
                self@.last_deposit_block == old(self)@.last_deposit_block,
            decreases body.coinbase@.len() - i,
        {
            let outpoint = OutPoint::Coinbase { merkle_root, vout: i as u32 };
            let output = crate::types::clone_output(&body.coinbase[i]);
            proof {
                assert(cb.take(i + 1 as int).drop_last() =~= cb.take(i as int));
                assert(cb.take(i + 1 as int).last() == cb[i as int]);
            }
            utxos_put(&mut self.utxos, outpoint, output);
            i += 1;
        }
        proof {
            assert(cb.take(cb.len() as int) =~= cb);
        }
        let ghost u1 = self@.utxos;
        let mut ti: usize = 0;
        while ti < body.transactions.len()
            invariant
                ti <= body.transactions@.len(),
                txs == body@.transactions,
                txs.len() == body.transactions@.len(),
                forall|k: int| 0 <= k < txs.len() ==> txs[k] == body.transactions@[k]@,
                forall|k: int|
                    0 <= k < txs.len() ==> (#[trigger] txs[k]).outputs.len() <= u32::MAX,
                self.wf(),
                self@.utxos == apply_txs(u1, txs.take(ti as int)),
                self@.pending_withdrawal_bundle == old(self)@.pending_withdrawal_bundle,
                self@.last_withdrawal_bundle_failure_height == old(
                    self,
                )@.last_withdrawal_bundle_failure_height,
                self@.last_deposit_block == old(self)@.last_deposit_block,
            decreases body.transactions@.len() - ti,
        {
            let tx = &body.transactions[ti];
            let txid = tx.txid();
            let ghost u_tx = self@.utxos;
            proof {
                assert(txs.take(ti + 1 as int).drop_last() =~= txs.take(ti as int));
                assert(txs.take(ti + 1 as int).last() == txs[ti as int]);
            }
            let mut k: usize = 0;
            while k < tx.inputs.len()
                invariant
                    k <= tx.inputs@.len(),
                    tx.inputs@ == txs[ti as int].inputs,
                    ti < txs.len(),
                    self.wf(),
                    self@.utxos == remove_inputs(u_tx, txs[ti as int].inputs.take(k as int)),
                    self@.pending_withdrawal_bundle == old(self)@.pending_withdrawal_bundle,
                    self@.last_withdrawal_bundle_failure_height == old(
                        self,
                    )@.last_withdrawal_bundle_failure_height,
                    self@.last_deposit_block == old(self)@.last_deposit_block,
                decreases tx.inputs@.len() - k,
            {
                proof {
                    assert(txs[ti as int].inputs.take(k + 1 as int).drop_last() =~= txs[
                    ti as int].inputs.take(k as int));
                    assert(txs[ti as int].inputs.take(k + 1 as int).last() == txs[
                    ti as int].inputs[k as int]);
                }
                utxos_remove(&mut self.utxos, &tx.inputs[k]);
                k += 1;
            }
            proof {
                assert(txs[ti as int].inputs.take(txs[ti as int].inputs.len() as int) =~= txs[
                ti as int].inputs);
            }
            let ghost u_out = self@.utxos;
            let mut k: usize = 0;
            while k < tx.outputs.len()
                invariant
                    k <= tx.outputs@.len(),
                    ti < txs.len(),
                    tx@ == txs[ti as int],
                    tx.outputs@.len() == txs[ti as int].outputs.len(),
                    forall|m: int|
                        0 <= m < tx.outputs@.len() ==> tx.outputs@[m]@ == txs[ti as int].outputs[m],
                    txs[ti as int].outputs.len() <= u32::MAX,
                    txid == spec_txid(txs[ti as int]),
                    self.wf(),
                    self@.utxos == put_tx_outputs(
                        u_out,
                        txid,
                        txs[ti as int].outputs.take(k as int),
                    ),
                    self@.pending_withdrawal_bundle == old(self)@.pending_withdrawal_bundle,
                    self@.last_withdrawal_bundle_failure_height == old(
                        self,
                    )@.last_withdrawal_bundle_failure_height,
                    self@.last_deposit_block == old(self)@.last_deposit_block,
                decreases tx.outputs@.len() - k,
            {
                let outpoint = OutPoint::Regular { txid, vout: k as u32 };
                let output = crate::types::clone_output(&tx.outputs[k]);
                proof {
                    assert(txs[ti as int].outputs.take(k + 1 as int).drop_last() =~= txs[
                    ti as int].outputs.take(k as int));
                    assert(txs[ti as int].outputs.take(k + 1 as int).last() == txs[
                    ti as int].outputs[k as int]);
                }
                utxos_put(&mut self.utxos, outpoint, output);
                k += 1;
            }
            proof {
                assert(txs[ti as int].outputs.take(txs[ti as int].outputs.len() as int) =~= txs[
                ti as int].outputs);
                assert(self@.utxos == apply_tx(u_tx, txs[ti as int]));
            }
            ti += 1;
        }
        proof {
            assert(txs.take(txs.len() as int) =~= txs);
        }
        Ok(())
    }

    /// The pending withdrawal bundle, if one exists. There is at most one at
    /// any time: the slot is a single optional value.
    pub fn get_pending_withdrawal_bundle(&self) -> (r: &Option<WithdrawalBundle>)
        ensures
            match r {
                Some(b) => self@.pending_withdrawal_bundle == Some(b@),
                None => self@.pending_withdrawal_bundle is None,
            },
    {
        &self.pending_withdrawal_bundle
    }

    /// The mainchain block up to which deposits have been ingested.
    pub fn get_last_deposit_block_hash(&self) -> (r: Option<MainBlockHash>)
        ensures
            r == self@.last_deposit_block,
    {
        self.last_deposit_block
    }
}

} // verus!

verus! {

// ---------------------------------------------------------------------------
// Withdrawal aggregation and ordering.
// ---------------------------------------------------------------------------

/// Lexicographic order on byte strings; a strict prefix comes first.
pub open spec fn bytes_lex_lt(a: Seq<u8>, b: Seq<u8>) -> bool
    decreases a.len(),
{
    if a.len() == 0 {
        b.len() > 0
    } else if b.len() == 0 {
        false
    } else if a[0] < b[0] {
        true
    } else if a[0] > b[0] {
        false
    } else {
        bytes_lex_lt(a.skip(1), b.skip(1))
    }
}

/// Compare two byte vectors lexicographically.
pub fn bytes_lex_lt_exec(a: &Vec<u8>, b: &Vec<u8>) -> (r: bool)
    ensures
        r == bytes_lex_lt(a@, b@),
{
    let mut i: usize = 0;
    proof {
        assert(a@.skip(0) =~= a@);
        assert(b@.skip(0) =~= b@);
    }
    loop
        invariant
            i <= a@.len(),
            i <= b@.len(),
            forall|j: int| 0 <= j < i ==> a@[j] == b@[j],
            bytes_lex_lt(a@, b@) == bytes_lex_lt(a@.skip(i as int), b@.skip(i as int)),
        decreases a@.len() - i,
    {
        if i >= a.len() {
            return b.len() > i;
        }
        if i >= b.len() {
            return false;
        }
        if a[i] < b[i] {
            return true;
        }
        if a[i] > b[i] {
            return false;
        }
        proof {
            assert(a@.skip(i as int)[0] == b@.skip(i as int)[0]);
            assert(a@.skip(i as int).skip(1) =~= a@.skip(i + 1 as int));
            assert(b@.skip(i as int).skip(1) =~= b@.skip(i + 1 as int));
        }
        i += 1;
    }
}

/// The descending order on aggregated withdrawals: higher fee first, then
/// higher value, then lexicographically greater destination.
pub open spec fn agg_gt(a: crate::types::AggregatedWithdrawalV, b: crate::types::AggregatedWithdrawalV) -> bool {
    ||| a.main_fee > b.main_fee
    ||| (a.main_fee == b.main_fee && a.value > b.value)
    ||| (a.main_fee == b.main_fee && a.value == b.value && bytes_lex_lt(b.main_address, a.main_address))
}

/// Compare two aggregated withdrawals in the descending bundle order.
pub fn agg_gt_exec(a: &AggregatedWithdrawal, b: &AggregatedWithdrawal) -> (r: bool)
    ensures
        r == agg_gt(a@, b@),
{
    if a.main_fee > b.main_fee {
        true
    } else if a.main_fee == b.main_fee && a.value > b.value {
        true
    } else if a.main_fee == b.main_fee && a.value == b.value {
        bytes_lex_lt_exec(&b.main_address.0, &a.main_address.0)
    } else {
        false
    }
}

/// Fold one withdrawal output into the per-destination aggregates: sum the
/// value, keep the highest fee, extend the swept set. Fails when a
/// destination's summed value leaves `u64`.
pub open spec fn agg_step(
    aggs: Seq<crate::types::AggregatedWithdrawalV>,
    op: OutPoint,
    o: OutputV,
    value: u64,
    main_fee: u64,
    main_address: Seq<u8>,
) -> Result<Seq<crate::types::AggregatedWithdrawalV>, Error>
    decreases aggs.len(),
{
    if aggs.len() == 0 {
        Ok(
            seq![
                crate::types::AggregatedWithdrawalV {
                    spent_utxos: seq![(op, o)],
                    main_address,
                    value,
                    main_fee,
                },
            ],
        )
    } else if aggs[0].main_address == main_address {
        if aggs[0].value + value > u64::MAX {
            Err(Error::ValueOverflow)
        } else {
            Ok(
                seq![
                    crate::types::AggregatedWithdrawalV {
                        spent_utxos: aggs[0].spent_utxos.push((op, o)),
                        main_address,
                        value: (aggs[0].value + value) as u64,
                        main_fee: if main_fee > aggs[0].main_fee {
                            main_fee
                        } else {
                            aggs[0].main_fee
                        },
                    },
                ] + aggs.skip(1),
            )
        }
    } else {
        match agg_step(aggs.skip(1), op, o, value, main_fee, main_address) {
            Ok(rest) => Ok(seq![aggs[0]] + rest),
            Err(e) => Err(e),
        }
    }
}

/// Aggregate every withdrawal output in the UTXO set, in storage order.
pub open spec fn aggregate_withdrawals(utxos: Seq<(OutPoint, OutputV)>) -> Result<
    Seq<crate::types::AggregatedWithdrawalV>,
    Error,
>
    decreases utxos.len(),
{
    if utxos.len() == 0 {
        Ok(Seq::empty())
    } else {
        match aggregate_withdrawals(utxos.drop_last()) {
            Ok(aggs) => {
                let (op, o) = utxos.last();
                match o.content {
                    ContentV::Withdrawal { value, main_fee, main_address } => agg_step(
                        aggs,
                        op,
                        o,
                        value,
                        main_fee,
                        main_address,
                    ),
                    ContentV::Value(_) => Ok(aggs),
                }
            },
            Err(e) => Err(e),
        }
    }
}

/// With the destination first found at `i`, the fold updates in place.
pub proof fn lemma_agg_step_index(
    aggs: Seq<crate::types::AggregatedWithdrawalV>,
    op: OutPoint,
    o: OutputV,
    value: u64,
    main_fee: u64,
    main_address: Seq<u8>,
    i: int,
)
    requires
        0 <= i < aggs.len(),
        aggs[i].main_address == main_address,
        forall|j: int| 0 <= j < i ==> (#[trigger] aggs[j]).main_address != main_address,
    ensures
        aggs[i].value + value > u64::MAX ==> agg_step(aggs, op, o, value, main_fee, main_address)
            == Result::<Seq<crate::types::AggregatedWithdrawalV>, Error>::Err(Error::ValueOverflow),
        aggs[i].value + value <= u64::MAX ==> agg_step(aggs, op, o, value, main_fee, main_address)
            == Result::<Seq<crate::types::AggregatedWithdrawalV>, Error>::Ok(
            aggs.update(
                i,
                crate::types::AggregatedWithdrawalV {
                    spent_utxos: aggs[i].spent_utxos.push((op, o)),
                    main_address,
                    value: (aggs[i].value + value) as u64,
                    main_fee: if main_fee > aggs[i].main_fee {
                        main_fee
                    } else {
                        aggs[i].main_fee
                    },
                },
            ),
        ),
    decreases i,
{
    if i == 0 {
        if aggs[0].value + value <= u64::MAX {
            let updated = crate::types::AggregatedWithdrawalV {
                spent_utxos: aggs[0].spent_utxos.push((op, o)),
                main_address,
                value: (aggs[0].value + value) as u64,
                main_fee: if main_fee > aggs[0].main_fee {
                    main_fee
                } else {
                    aggs[0].main_fee
                },
            };
            assert(seq![updated] + aggs.skip(1) =~= aggs.update(0, updated));
        }
    } else {
        assert(aggs[0].main_address != main_address);
        lemma_agg_step_index(aggs.skip(1), op, o, value, main_fee, main_address, i - 1);
        if aggs[i].value + value <= u64::MAX {
            let updated = crate::types::AggregatedWithdrawalV {
                spent_utxos: aggs[i].spent_utxos.push((op, o)),
                main_address,
                value: (aggs[i].value + value) as u64,
                main_fee: if main_fee > aggs[i].main_fee {
                    main_fee
                } else {
                    aggs[i].main_fee
                },
            };
            assert(aggs.skip(1)[i - 1] == aggs[i]);
            assert(seq![aggs[0]] + aggs.skip(1).update(i - 1, updated) =~= aggs.update(i, updated));
        }
    }
}

/// With the destination absent, the fold appends a fresh aggregate.
pub proof fn lemma_agg_step_absent(
    aggs: Seq<crate::types::AggregatedWithdrawalV>,
    op: OutPoint,
    o: OutputV,
    value: u64,
    main_fee: u64,
    main_address: Seq<u8>,
)
    requires
        forall|j: int| 0 <= j < aggs.len() ==> (#[trigger] aggs[j]).main_address != main_address,
    ensures
        agg_step(aggs, op, o, value, main_fee, main_address) == Result::<
            Seq<crate::types::AggregatedWithdrawalV>,
            Error,
        >::Ok(
            aggs.push(
                crate::types::AggregatedWithdrawalV {
                    spent_utxos: seq![(op, o)],
                    main_address,
                    value,
                    main_fee,
                },
            ),
        ),
    decreases aggs.len(),
{
    let fresh = crate::types::AggregatedWithdrawalV {
        spent_utxos: seq![(op, o)],
        main_address,
        value,
        main_fee,
    };
    if aggs.len() == 0 {
        assert(seq![fresh] =~= aggs.push(fresh));
    } else {
        assert(forall|j: int|
            0 <= j < aggs.skip(1).len() ==> (#[trigger] aggs.skip(1)[j]).main_address
                != main_address) by {
            assert(forall|j: int| 0 <= j < aggs.skip(1).len() ==> aggs.skip(1)[j] == aggs[j + 1]);
        }
        lemma_agg_step_absent(aggs.skip(1), op, o, value, main_fee, main_address);
        assert(seq![aggs[0]] + aggs.skip(1).push(fresh) =~= aggs.push(fresh));
    }
}

} // verus!

verus! {

use crate::types::AggregatedWithdrawalV;
use crate::types::{MainTransactionV, MainTxInV, MainTxOutV};
use crate::mainchain::{
    main_tx_weight_of, main_txid_of, spec_op_return, MAX_BUNDLE_OUTPUTS, MAX_STANDARD_TX_WEIGHT,
};
use crate::codec::{arr32_from, enc_outpoints, enc_u64};
use crate::hashes::blake3_of;

// ---------------------------------------------------------------------------
// Sorting the aggregates (descending) and the swept outpoints (ascending).
// ---------------------------------------------------------------------------

/// Insert into a descending-sorted list, after every strictly greater entry.
pub open spec fn insert_agg_desc(sorted: Seq<AggregatedWithdrawalV>, x: AggregatedWithdrawalV) -> Seq<
    AggregatedWithdrawalV,
>
    decreases sorted.len(),
{
    if sorted.len() == 0 {
        seq![x]
    } else if agg_gt(sorted[0], x) {
        seq![sorted[0]] + insert_agg_desc(sorted.skip(1), x)
    } else {
        seq![x] + sorted
    }
}

/// Insertion sort, descending.
pub open spec fn sort_aggs_desc(aggs: Seq<AggregatedWithdrawalV>) -> Seq<AggregatedWithdrawalV>
    decreases aggs.len(),
{
    if aggs.len() == 0 {
        aggs
    } else {
        insert_agg_desc(sort_aggs_desc(aggs.drop_last()), aggs.last())
    }
}

/// Insertion lands exactly after the strictly greater prefix.
pub proof fn lemma_insert_agg_desc_at(
    sorted: Seq<AggregatedWithdrawalV>,
    x: AggregatedWithdrawalV,
    i: int,
)
    requires
        0 <= i <= sorted.len(),
        forall|k: int| 0 <= k < i ==> agg_gt(#[trigger] sorted[k], x),
        i < sorted.len() ==> !agg_gt(sorted[i], x),
    ensures
        insert_agg_desc(sorted, x) == sorted.subrange(0, i) + seq![x] + sorted.skip(i),
    decreases i,
{
    if i == 0 {
        if sorted.len() == 0 {
            assert(seq![x] =~= sorted.subrange(0, 0) + seq![x] + sorted.skip(0));
        } else {
            assert(seq![x] + sorted =~= sorted.subrange(0, 0) + seq![x] + sorted.skip(0));
        }
    } else {
        assert(agg_gt(sorted[0], x));
        assert(forall|k: int|
            0 <= k < i - 1 ==> agg_gt(#[trigger] sorted.skip(1)[k], x)) by {
            assert(forall|k: int| 0 <= k < sorted.skip(1).len() ==> sorted.skip(1)[k] == sorted[k
                + 1]);
        }
        lemma_insert_agg_desc_at(sorted.skip(1), x, i - 1);
        assert(sorted.skip(1).subrange(0, i - 1) =~= sorted.subrange(1, i));
        assert(sorted.skip(1).skip(i - 1) =~= sorted.skip(i));
        assert(seq![sorted[0]] + (sorted.subrange(1, i) + seq![x] + sorted.skip(i))
            =~= sorted.subrange(0, i) + seq![x] + sorted.skip(i));
    }
}

/// The total order on outpoints used for the bundle commitment: by variant,
/// then by digest, then by position.
pub open spec fn outpoint_tag(o: OutPoint) -> int {
    match o {
        OutPoint::Regular { .. } => 0,
        OutPoint::Coinbase { .. } => 1,
        OutPoint::Deposit(_) => 2,
    }
}

pub open spec fn outpoint_digest(o: OutPoint) -> Seq<u8> {
    match o {
        OutPoint::Regular { txid, .. } => txid.0@,
        OutPoint::Coinbase { merkle_root, .. } => merkle_root.0@,
        OutPoint::Deposit(main) => main.txid.0@,
    }
}

pub open spec fn outpoint_vout(o: OutPoint) -> u32 {
    match o {
        OutPoint::Regular { vout, .. } => vout,
        OutPoint::Coinbase { vout, .. } => vout,
        OutPoint::Deposit(main) => main.vout,
    }
}

pub open spec fn outpoint_lt(a: OutPoint, b: OutPoint) -> bool {
    ||| outpoint_tag(a) < outpoint_tag(b)
    ||| (outpoint_tag(a) == outpoint_tag(b) && bytes_lex_lt(outpoint_digest(a), outpoint_digest(b)))
    ||| (outpoint_tag(a) == outpoint_tag(b) && outpoint_digest(a) == outpoint_digest(b)
        && outpoint_vout(a) < outpoint_vout(b))
}

/// Compare two outpoints in the commitment order.
pub fn outpoint_lt_exec(a: &OutPoint, b: &OutPoint) -> (r: bool)
    ensures
        r == outpoint_lt(*a, *b),
{
    let (ta, da, va): (u32, &[u8; 32], u32) = match a {
        OutPoint::Regular { txid, vout } => (0, &txid.0, *vout),
        OutPoint::Coinbase { merkle_root, vout } => (1, &merkle_root.0, *vout),
        OutPoint::Deposit(main) => (2, &main.txid.0, main.vout),
    };
    let (tb, db, vb): (u32, &[u8; 32], u32) = match b {
        OutPoint::Regular { txid, vout } => (0, &txid.0, *vout),
        OutPoint::Coinbase { merkle_root, vout } => (1, &merkle_root.0, *vout),
        OutPoint::Deposit(main) => (2, &main.txid.0, main.vout),
    };
    if ta < tb {
        true
    } else if ta > tb {
        false
    } else if bytes32_lex_lt_exec(da, db) {
        true
    } else if crate::types::bytes32_eq(da, db) {
        va < vb
    } else {
        false
    }
}

/// Compare two 32-byte digests lexicographically.
pub fn bytes32_lex_lt_exec(a: &[u8; 32], b: &[u8; 32]) -> (r: bool)
    ensures
        r == bytes_lex_lt(a@, b@),
{
    let mut i: usize = 0;
    proof {
        assert(a@.skip(0) =~= a@);
        assert(b@.skip(0) =~= b@);
    }
    loop
        invariant
            i <= 32,
            bytes_lex_lt(a@, b@) == bytes_lex_lt(a@.skip(i as int), b@.skip(i as int)),
        decreases 32 - i,
    {
        if i >= 32 {
            return false;
        }
        if a[i] < b[i] {
            return true;
        }
        if a[i] > b[i] {
            return false;
        }
        proof {
            assert(a@.skip(i as int)[0] == b@.skip(i as int)[0]);
            assert(a@.skip(i as int).skip(1) =~= a@.skip(i + 1 as int));
            assert(b@.skip(i as int).skip(1) =~= b@.skip(i + 1 as int));
        }
        i += 1;
    }
}

/// Insert into an ascending-sorted list, after every strictly smaller entry.
pub open spec fn insert_outpoint_asc(sorted: Seq<OutPoint>, x: OutPoint) -> Seq<OutPoint>
    decreases sorted.len(),
{
    if sorted.len() == 0 {
        seq![x]
    } else if outpoint_lt(sorted[0], x) {
        seq![sorted[0]] + insert_outpoint_asc(sorted.skip(1), x)
    } else {
        seq![x] + sorted
    }
}

/// Insertion sort, ascending.
pub open spec fn sort_outpoints_asc(s: Seq<OutPoint>) -> Seq<OutPoint>
    decreases s.len(),
{
    if s.len() == 0 {
        s
    } else {
        insert_outpoint_asc(sort_outpoints_asc(s.drop_last()), s.last())
    }
}

pub proof fn lemma_insert_outpoint_asc_at(sorted: Seq<OutPoint>, x: OutPoint, i: int)
    requires
        0 <= i <= sorted.len(),
        forall|k: int| 0 <= k < i ==> outpoint_lt(#[trigger] sorted[k], x),
        i < sorted.len() ==> !outpoint_lt(sorted[i], x),
    ensures
        insert_outpoint_asc(sorted, x) == sorted.subrange(0, i) + seq![x] + sorted.skip(i),
    decreases i,
{
    if i == 0 {
        if sorted.len() == 0 {
            assert(seq![x] =~= sorted.subrange(0, 0) + seq![x] + sorted.skip(0));
        } else {
            assert(seq![x] + sorted =~= sorted.subrange(0, 0) + seq![x] + sorted.skip(0));
        }
    } else {
        assert(outpoint_lt(sorted[0], x));
        assert(forall|k: int|
            0 <= k < i - 1 ==> outpoint_lt(#[trigger] sorted.skip(1)[k], x)) by {
            assert(forall|k: int| 0 <= k < sorted.skip(1).len() ==> sorted.skip(1)[k] == sorted[k
                + 1]);
        }
        lemma_insert_outpoint_asc_at(sorted.skip(1), x, i - 1);
        assert(sorted.skip(1).subrange(0, i - 1) =~= sorted.subrange(1, i));
        assert(sorted.skip(1).skip(i - 1) =~= sorted.skip(i));
        assert(seq![sorted[0]] + (sorted.subrange(1, i) + seq![x] + sorted.skip(i))
            =~= sorted.subrange(0, i) + seq![x] + sorted.skip(i));
    }
}

// ---------------------------------------------------------------------------
// Bundle selection and assembly.
// ---------------------------------------------------------------------------

/// All swept UTXOs of a run of aggregates, in order.
pub open spec fn concat_agg_spent(s: Seq<AggregatedWithdrawalV>) -> Seq<(OutPoint, OutputV)>
    decreases s.len(),
{
    if s.len() == 0 {
        Seq::empty()
    } else {
        concat_agg_spent(s.drop_last()) + s.last().spent_utxos
    }
}

/// The summed mainchain fee of a run of aggregates.
pub open spec fn sum_agg_fees(s: Seq<AggregatedWithdrawalV>) -> int
    decreases s.len(),
{
    if s.len() == 0 {
        0
    } else {
        sum_agg_fees(s.drop_last()) + s.last().main_fee
    }
}

/// A partial fee sum over `u64::MAX` bounds the total below.
pub proof fn lemma_sum_agg_fees_partial_exceeds(s: Seq<AggregatedWithdrawalV>, i: int)
    requires
        0 <= i <= s.len(),
        sum_agg_fees(s.take(i)) > u64::MAX,
    ensures
        sum_agg_fees(s) > u64::MAX,
    decreases s.len() - i,
{
    if i < s.len() {
        assert(s.take(i + 1).drop_last() =~= s.take(i));
        assert(s.take(i + 1).last() == s[i]);
        lemma_sum_agg_fees_partial_exceeds(s, i + 1);
    } else {
        assert(s.take(i) =~= s);
    }
}

/// One bundle output per selected aggregate: its summed value, paid to its
/// destination script.
pub open spec fn bundle_outputs_of(s: Seq<AggregatedWithdrawalV>) -> Seq<MainTxOutV> {
    Seq::new(s.len(), |i: int| MainTxOutV { value: s[i].value, script_pubkey: s[i].main_address })
}

/// The outpoints of the swept UTXOs, in sweep order.
pub open spec fn spent_keys(s: Seq<(OutPoint, OutputV)>) -> Seq<OutPoint> {
    Seq::new(s.len(), |i: int| s[i].0)
}

/// 32 zero bytes: the txid of the height-marker outpoint, and the null
/// previous output of the bundle's single input.
pub open spec fn zero_bytes32() -> Seq<u8> {
    Seq::new(32, |i: int| 0u8)
}

/// The bundle transaction assembled from a fee, a commitment digest, and the
/// selected outputs.
pub open spec fn spec_bundle_tx(
    fee: u64,
    commitment: Seq<u8>,
    outputs: Seq<MainTxOutV>,
) -> MainTransactionV {
    MainTransactionV {
        version: 2,
        lock_time: 0,
        inputs: seq![
            MainTxInV {
                prev_txid: MainTxid(arr32_from(zero_bytes32())),
                prev_vout: u32::MAX,
                script_sig: seq![0x00u8],
                sequence: u32::MAX,
            },
        ],
        outputs: seq![
            MainTxOutV { value: 0, script_pubkey: spec_op_return(seq![0x44u8]) },
            MainTxOutV { value: 0, script_pubkey: spec_op_return(enc_u64(fee)) },
            MainTxOutV { value: 0, script_pubkey: spec_op_return(commitment) },
        ] + outputs,
    }
}

/// What `collect_withdrawal_bundle` produces from a UTXO set and the height
/// the sweep is decided at: aggregate the withdrawals by destination, order
/// them, take at most `MAX_BUNDLE_OUTPUTS + 1`, commit to the sorted swept
/// outpoints and the height, and weigh the resulting transaction.
pub open spec fn spec_collect_withdrawal_bundle(
    utxos: Seq<(OutPoint, OutputV)>,
    block_height: u32,
) -> Result<Option<WithdrawalBundleV>, Error> {
    match aggregate_withdrawals(utxos) {
        Err(e) => Err(e),
        Ok(aggs) => if aggs.len() == 0 {
            Ok(None)
        } else {
            let sorted = sort_aggs_desc(aggs);
            let n = if sorted.len() <= MAX_BUNDLE_OUTPUTS + 1 {
                sorted.len() as int
            } else {
                MAX_BUNDLE_OUTPUTS + 1
            };
            let selected = sorted.take(n);
            let spent = concat_agg_spent(selected);
            if sum_agg_fees(selected) > u64::MAX {
                Err(Error::ValueOverflow)
            } else {
                let fee = sum_agg_fees(selected) as u64;
                let inputs = sort_outpoints_asc(spent_keys(spent)).push(
                    OutPoint::Regular { txid: Txid(arr32_from(zero_bytes32())), vout: block_height },
                );
                let commitment = blake3_of(enc_outpoints(inputs));
                let tx = spec_bundle_tx(fee, commitment, bundle_outputs_of(selected));
                if main_tx_weight_of(tx) > MAX_STANDARD_TX_WEIGHT {
                    Err(
                        Error::BundleTooHeavy {
                            weight: main_tx_weight_of(tx),
                            max_weight: MAX_STANDARD_TX_WEIGHT,
                        },
                    )
                } else {
                    Ok(
                        Some(
                            WithdrawalBundleV {
                                spent_utxos: spent,
                                transaction: tx,
                                main_txid: MainTxid(arr32_from(main_txid_of(tx))),
                            },
                        ),
                    )
                }
            }
        },
    }
}

} // verus!

verus! {



/// Once aggregation fails on a prefix, it fails on the whole list with the
/// same error.
pub proof fn lemma_aggregate_err_persists(utxos: Seq<(OutPoint, OutputV)>, i: int)
    requires
        0 <= i <= utxos.len(),
        aggregate_withdrawals(utxos.take(i)) is Err,
    ensures
        aggregate_withdrawals(utxos) == aggregate_withdrawals(utxos.take(i)),
    decreases utxos.len() - i,
{
    if i < utxos.len() {
        assert(utxos.take(i + 1).drop_last() =~= utxos.take(i));
        assert(utxos.take(i + 1).last() == utxos[i]);
        lemma_aggregate_err_persists(utxos, i + 1);
    } else {
        assert(utxos.take(i) =~= utxos);
    }
}

/// The index of the aggregate for a destination, if one exists.
fn find_agg_index(aggs: &Vec<AggregatedWithdrawal>, addr: &MainAddress) -> (r: Option<usize>)
    ensures
        match r {
            Some(i) => i < aggs@.len() && aggs@[i as int]@.main_address == addr@ && forall|k: int|
                0 <= k < i ==> (#[trigger] aggs@[k]@).main_address != addr@,
            None => forall|k: int|
                0 <= k < aggs@.len() ==> (#[trigger] aggs@[k]@).main_address != addr@,
        },
{
    let mut j: usize = 0;
    while j < aggs.len()
        invariant
            j <= aggs@.len(),
            forall|k: int| 0 <= k < j ==> (#[trigger] aggs@[k]@).main_address != addr@,
        decreases aggs@.len() - j,
    {
        if crate::types::bytes_eq(&aggs[j].main_address.0, &addr.0) {
            return Some(j);
        }
        j += 1;
    }
    None
}

/// Where a new aggregate lands in the descending order: after every strictly
/// greater entry.
fn agg_insert_position(sorted: &Vec<AggregatedWithdrawal>, x: &AggregatedWithdrawal) -> (r: usize)
    ensures
        r <= sorted@.len(),
        forall|k: int| 0 <= k < r ==> agg_gt((#[trigger] sorted@[k])@, x@),
        r < sorted@.len() ==> !agg_gt(sorted@[r as int]@, x@),
{
    let mut j: usize = 0;
    while j < sorted.len()
        invariant
            j <= sorted@.len(),
            forall|k: int| 0 <= k < j ==> agg_gt((#[trigger] sorted@[k])@, x@),
        decreases sorted@.len() - j,
    {
        if !agg_gt_exec(&sorted[j], x) {
            return j;
        }
        j += 1;
    }
    j
}

/// Where an outpoint lands in the ascending order: after every smaller entry.
fn outpoint_insert_position(sorted: &Vec<OutPoint>, x: &OutPoint) -> (r: usize)
    ensures
        r <= sorted@.len(),
        forall|k: int| 0 <= k < r ==> outpoint_lt(#[trigger] sorted@[k], *x),
        r < sorted@.len() ==> !outpoint_lt(sorted@[r as int], *x),
{
    let mut j: usize = 0;
    while j < sorted.len()
        invariant
            j <= sorted@.len(),
            forall|k: int| 0 <= k < j ==> outpoint_lt(#[trigger] sorted@[k], *x),
        decreases sorted@.len() - j,
    {
        if !outpoint_lt_exec(&sorted[j], x) {
            return j;
        }
        j += 1;
    }
    j
}

/// Collect the pending withdrawals of a UTXO list into a mainchain bundle
/// transaction, or `None` when there are no withdrawals at all.
pub fn collect_withdrawal_bundle_from(utxos: &Vec<(OutPoint, Output)>, block_height: u32) -> (r:
    Result<Option<WithdrawalBundle>, Error>)
    ensures
        match r {
            Ok(Some(b)) => spec_collect_withdrawal_bundle(pairs_view(utxos@), block_height)
                == Ok::<Option<WithdrawalBundleV>, Error>(Some(b@)),
            Ok(None) => spec_collect_withdrawal_bundle(pairs_view(utxos@), block_height) == Ok::<
                Option<WithdrawalBundleV>,
                Error,
            >(None),
            Err(e) => spec_collect_withdrawal_bundle(pairs_view(utxos@), block_height) == Err::<
                Option<WithdrawalBundleV>,
                Error,
            >(e),
        },
{
    let ghost uv = pairs_view(utxos@);

    // Aggregate the withdrawals by destination, in storage order.
    let mut aggs: Vec<AggregatedWithdrawal> = Vec::new();
    let mut i: usize = 0;
    proof {
        assert(uv.take(0) =~= Seq::<(OutPoint, OutputV)>::empty());
        assert(aggs@.map_values(|a: AggregatedWithdrawal| a@) =~= Seq::<
            crate::types::AggregatedWithdrawalV,
        >::empty());
    }
    while i < utxos.len()
        invariant
            i <= utxos@.len(),
            uv == pairs_view(utxos@),
            uv.len() == utxos@.len(),
            aggregate_withdrawals(uv.take(i as int)) == Ok::<
                Seq<crate::types::AggregatedWithdrawalV>,
                Error,
            >(aggs@.map_values(|a: AggregatedWithdrawal| a@)),
        decreases utxos@.len() - i,
    {
        let ghost aggs_v = aggs@.map_values(|a: AggregatedWithdrawal| a@);
        proof {
            assert(uv.take(i + 1 as int).drop_last() =~= uv.take(i as int));
            assert(uv.take(i + 1 as int).last() == uv[i as int]);
            assert(uv[i as int] == (utxos@[i as int].0, utxos@[i as int].1@));
        }
        let entry = &utxos[i];
        match &entry.1.content {
            Content::Value(_) => {}
            Content::Withdrawal { value, main_fee, main_address } => {
                // Find this destination's aggregate, if it exists.
                let found = find_agg_index(&aggs, main_address);
                proof {
                    assert(forall|k: int|
                        0 <= k < aggs@.len() ==> (#[trigger] aggs_v[k]) == aggs@[k]@);
                }
                match found {
                    Some(j) => {
                        proof {
                            lemma_agg_step_index(
                                aggs_v,
                                entry.0,
                                entry.1@,
                                *value,
                                *main_fee,
                                main_address@,
                                j as int,
                            );
                        }
                        match aggs[j].value.checked_add(*value) {
                            Some(new_value) => {
                                let mut a = aggs.remove(j);
                                a.value = new_value;
                                if *main_fee > a.main_fee {
                                    a.main_fee = *main_fee;
                                }
                                a.spent_utxos.push(
                                    (entry.0, crate::types::clone_output(&entry.1)),
                                );
                                aggs.insert(j, a);
                                proof {
                                    assert(aggs@.map_values(|a: AggregatedWithdrawal| a@)
                                        =~~= aggs_v.update(
                                        j as int,
                                        crate::types::AggregatedWithdrawalV {
                                            spent_utxos: aggs_v[j as int].spent_utxos.push(
                                                (entry.0, entry.1@),
                                            ),
                                            main_address: main_address@,
                                            value: (aggs_v[j as int].value + *value) as u64,
                                            main_fee: if *main_fee > aggs_v[j as int].main_fee {
                                                *main_fee
                                            } else {
                                                aggs_v[j as int].main_fee
                                            },
                                        },
                                    ));
                                }
                            }
                            None => {
                                proof {
                                    assert(aggregate_withdrawals(uv.take(i + 1 as int))
                                        == Err::<Seq<AggregatedWithdrawalV>, Error>(
                                        Error::ValueOverflow,
                                    ));
                                    lemma_aggregate_err_persists(uv, i + 1 as int);
                                }
                                return Err(Error::ValueOverflow);
                            }
                        }
                    }
                    None => {
                        proof {
                            lemma_agg_step_absent(
                                aggs_v,
                                entry.0,
                                entry.1@,
                                *value,
                                *main_fee,
                                main_address@,
                            );
                        }
                        let mut spent: Vec<(OutPoint, Output)> = Vec::new();
                        spent.push((entry.0, crate::types::clone_output(&entry.1)));
                        aggs.push(
                            AggregatedWithdrawal {
                                spent_utxos: spent,
                                main_address: crate::types::clone_main_address(main_address),
                                value: *value,
                                main_fee: *main_fee,
                            },
                        );
                        proof {
                            assert(aggs@.map_values(|a: AggregatedWithdrawal| a@) =~~= aggs_v.push(
                                crate::types::AggregatedWithdrawalV {
                                    spent_utxos: seq![(entry.0, entry.1@)],
                                    main_address: main_address@,
                                    value: *value,
                                    main_fee: *main_fee,
                                },
                            ));
                        }
                    }
                }
            }
        }
        i += 1;
    }
    proof {
        assert(uv.take(uv.len() as int) =~= uv);
    }
    let ghost aggs_v = aggs@.map_values(|a: AggregatedWithdrawal| a@);
    if aggs.len() == 0 {
        return Ok(None);
    }

    // Order the aggregates descending by fee, value, destination.
    let mut sorted: Vec<AggregatedWithdrawal> = Vec::new();
    let mut i: usize = 0;
    proof {
        assert(aggs_v.take(0) =~= Seq::<crate::types::AggregatedWithdrawalV>::empty());
        assert(sorted@.map_values(|a: AggregatedWithdrawal| a@) =~= Seq::<
            crate::types::AggregatedWithdrawalV,
        >::empty());
    }
    while i < aggs.len()
        invariant
            i <= aggs@.len(),
            aggs_v == aggs@.map_values(|a: AggregatedWithdrawal| a@),
            aggs_v.len() == aggs@.len(),
            sorted@.map_values(|a: AggregatedWithdrawal| a@) == sort_aggs_desc(
                aggs_v.take(i as int),
            ),
        decreases aggs@.len() - i,
    {
        let ghost sorted_v = sorted@.map_values(|a: AggregatedWithdrawal| a@);
        let x = crate::types::clone_aggregated_withdrawal(&aggs[i]);
        let j = agg_insert_position(&sorted, &x);
        proof {
            assert(forall|k: int|
                0 <= k < sorted@.len() ==> (#[trigger] sorted_v[k]) == sorted@[k]@);
            lemma_insert_agg_desc_at(sorted_v, x@, j as int);
            assert(aggs_v.take(i + 1 as int).drop_last() =~= aggs_v.take(i as int));
            assert(aggs_v.take(i + 1 as int).last() == aggs_v[i as int]);
        }
        sorted.insert(j, x);
        proof {
            assert(sorted@.map_values(|a: AggregatedWithdrawal| a@) =~= sorted_v.subrange(
                0,
                j as int,
            ) + seq![aggs_v[i as int]] + sorted_v.skip(j as int));
        }
        i += 1;
    }
    proof {
        assert(aggs_v.take(aggs_v.len() as int) =~= aggs_v);
    }
    let ghost sorted_v = sorted@.map_values(|a: AggregatedWithdrawal| a@);
    let ghost n = if sorted_v.len() <= MAX_BUNDLE_OUTPUTS + 1 {
        sorted_v.len() as int
    } else {
        MAX_BUNDLE_OUTPUTS + 1
    };

    // Select greedily while the output count stays within the cap.
    let mut spent: Vec<(OutPoint, Output)> = Vec::new();
    let mut bundle_outputs: Vec<MainTxOut> = Vec::new();
    let mut fee: u64 = 0;
    let mut si: usize = 0;
    proof {
        assert(sorted_v.take(0) =~= Seq::<crate::types::AggregatedWithdrawalV>::empty());
        assert(pairs_view(spent@) =~= Seq::<(OutPoint, OutputV)>::empty());
    }
    while si < sorted.len() && si <= MAX_BUNDLE_OUTPUTS
        invariant
            si <= sorted@.len(),
            si <= MAX_BUNDLE_OUTPUTS + 1,
            uv == pairs_view(utxos@),
            aggregate_withdrawals(uv) == Ok::<Seq<AggregatedWithdrawalV>, Error>(aggs_v),
            aggs_v.len() != 0,
            sorted_v == sort_aggs_desc(aggs_v),
            sorted_v == sorted@.map_values(|a: AggregatedWithdrawal| a@),
            sorted_v.len() == sorted@.len(),
            n == if sorted_v.len() <= MAX_BUNDLE_OUTPUTS + 1 {
                sorted_v.len() as int
            } else {
                MAX_BUNDLE_OUTPUTS + 1
            },
            pairs_view(spent@) == concat_agg_spent(sorted_v.take(si as int)),
            bundle_outputs@.len() == si,
            forall|k: int|
                0 <= k < si ==> #[trigger] bundle_outputs@[k]@ == (MainTxOutV {
                    value: sorted_v[k].value,
                    script_pubkey: sorted_v[k].main_address,
                }),
            fee == sum_agg_fees(sorted_v.take(si as int)),
        decreases sorted@.len() - si,
    {
        let a = &sorted[si];
        proof {
            assert(sorted_v.take(si + 1 as int).drop_last() =~= sorted_v.take(si as int));
            assert(sorted_v.take(si + 1 as int).last() == sorted_v[si as int]);
        }
        fee = match fee.checked_add(a.main_fee) {
            Some(x) => x,
            None => {
                proof {
                    let selected = sorted_v.take(n);
                    assert(si + 1 <= n);
                    assert(selected.take(si + 1 as int) =~= sorted_v.take(si + 1 as int));
                    lemma_sum_agg_fees_partial_exceeds(selected, si + 1 as int);
                    assert(aggregate_withdrawals(uv) == Ok::<Seq<AggregatedWithdrawalV>, Error>(
                        aggs_v,
                    ));
                    assert(aggs_v.len() != 0);
                    assert(sort_aggs_desc(aggs_v) == sorted_v);
                    assert(sum_agg_fees(selected) > u64::MAX);
                }
                return Err(Error::ValueOverflow);
            },
        };
        let ghost spent_before = pairs_view(spent@);
        let mut k: usize = 0;
        while k < a.spent_utxos.len()
            invariant
                k <= a.spent_utxos@.len(),
                si < sorted_v.len(),
                sorted_v == sorted@.map_values(|a: AggregatedWithdrawal| a@),
                a@ == sorted_v[si as int],
                a.spent_utxos@.len() == sorted_v[si as int].spent_utxos.len(),
                forall|m: int|
                    0 <= m < a.spent_utxos@.len() ==> (#[trigger] a.spent_utxos@[m]).0 == sorted_v[
                    si as int].spent_utxos[m].0 && a.spent_utxos@[m].1@ == sorted_v[
                    si as int].spent_utxos[m].1,
                spent_before == concat_agg_spent(sorted_v.take(si as int)),
                pairs_view(spent@) == spent_before + sorted_v[si as int].spent_utxos.take(k as int),
            decreases a.spent_utxos@.len() - k,
        {
            let pair = &a.spent_utxos[k];
            let cloned = crate::types::clone_output(&pair.1);
            let ghost sp_old = spent@;
            let ghost cv = cloned@;
            spent.push((pair.0, cloned));
            proof {
                assert(pairs_view(spent@) =~= pairs_view(sp_old).push((pair.0, cv)));
                assert((pair.0, cv) == sorted_v[si as int].spent_utxos[k as int]);
                assert(sorted_v[si as int].spent_utxos.take(k + 1 as int) =~= sorted_v[
                si as int].spent_utxos.take(k as int).push(sorted_v[si as int].spent_utxos[
                k as int]));
                assert(pairs_view(spent@) =~= spent_before + sorted_v[si as int].spent_utxos.take(
                    k + 1 as int,
                ));
            }
            k += 1;
        }
        proof {
            assert(sorted_v[si as int].spent_utxos.take(
                sorted_v[si as int].spent_utxos.len() as int,
            ) =~= sorted_v[si as int].spent_utxos);
        }
        bundle_outputs.push(
            MainTxOut {
                value: a.value,
                script_pubkey: crate::types::clone_bytes(&a.main_address.0),
            },
        );
        si += 1;
    }
    proof {
        assert(si == n);
        assert(bundle_outputs@.len() == n);
        assert(forall|k: int|
            0 <= k < n ==> #[trigger] bundle_outputs@[k]@ == bundle_outputs_of(sorted_v.take(n))[k]);
    }

    // Commit to the sorted swept outpoints and the deciding height.
    let ghost selected = sorted_v.take(n);
    let ghost spent_v = pairs_view(spent@);
    let mut inputs_sorted: Vec<OutPoint> = Vec::new();
    let mut i: usize = 0;
    proof {
        assert(spent_keys(spent_v).take(0) =~= Seq::<OutPoint>::empty());
        assert(inputs_sorted@ =~= Seq::<OutPoint>::empty());
    }
    while i < spent.len()
        invariant
            i <= spent@.len(),
            spent_v == pairs_view(spent@),
            spent_v.len() == spent@.len(),
            inputs_sorted@ == sort_outpoints_asc(spent_keys(spent_v).take(i as int)),
        decreases spent@.len() - i,
    {
        let x = spent[i].0;
        let ghost before = inputs_sorted@;
        let j = outpoint_insert_position(&inputs_sorted, &x);
        proof {
            lemma_insert_outpoint_asc_at(before, x, j as int);
            assert(spent_keys(spent_v).take(i + 1 as int).drop_last() =~= spent_keys(
                spent_v,
            ).take(i as int));
            assert(spent_keys(spent_v).take(i + 1 as int).last() == spent_v[i as int].0);
            assert(x == spent_v[i as int].0);
        }
        inputs_sorted.insert(j, x);
        proof {
            assert(inputs_sorted@ =~= before.subrange(0, j as int) + seq![x] + before.skip(
                j as int,
            ));
        }
        i += 1;
    }
    proof {
        assert(spent_keys(spent_v).take(spent_keys(spent_v).len() as int) =~= spent_keys(spent_v));
    }
    let zero: [u8; 32] = [0; 32];
    proof {
        assert(zero@ =~= zero_bytes32());
        crate::codec::lemma_arr32_from(zero);
    }
    inputs_sorted.push(OutPoint::Regular { txid: Txid(zero), vout: block_height });
    let mut commitment_input: Vec<u8> = Vec::new();
    crate::codec::encode_outpoints(&inputs_sorted, &mut commitment_input);
    proof {
        assert(Seq::<u8>::empty() + enc_outpoints(inputs_sorted@) =~= enc_outpoints(
            inputs_sorted@,
        ));
    }
    let commitment = crate::hashes::blake3_hash32(&commitment_input);

    // Assemble the bundle transaction.
    let mut marker_data: Vec<u8> = Vec::new();
    marker_data.push(0x44);
    let marker_script = crate::mainchain::op_return_script(&marker_data);
    let fee_bytes = vstd::bytes::u64_to_le_bytes(fee);
    let fee_script = crate::mainchain::op_return_script(&fee_bytes);
    let mut commitment_data: Vec<u8> = Vec::new();
    crate::codec::encode_arr32(&commitment, &mut commitment_data);
    let commitment_script = crate::mainchain::op_return_script(&commitment_data);
    let mut script_sig: Vec<u8> = Vec::new();
    script_sig.push(0x00);
    let mut tx_inputs: Vec<MainTxIn> = Vec::new();
    tx_inputs.push(
        MainTxIn {
            prev_txid: MainTxid(zero),
            prev_vout: u32::MAX,
            script_sig,
            sequence: u32::MAX,
        },
    );
    let mut tx_outputs: Vec<MainTxOut> = Vec::new();
    tx_outputs.push(MainTxOut { value: 0, script_pubkey: marker_script });
    tx_outputs.push(MainTxOut { value: 0, script_pubkey: fee_script });
    tx_outputs.push(MainTxOut { value: 0, script_pubkey: commitment_script });
    let mut bo = bundle_outputs;
    tx_outputs.append(&mut bo);
    let tx = MainTransaction { version: 2, lock_time: 0, inputs: tx_inputs, outputs: tx_outputs };
    proof {
        assert(marker_data@ =~= seq![0x44u8]);
        assert(tx@.outputs =~= seq![
            MainTxOutV { value: 0, script_pubkey: spec_op_return(seq![0x44u8]) },
            MainTxOutV { value: 0, script_pubkey: spec_op_return(enc_u64(fee)) },
            MainTxOutV {
                value: 0,
                script_pubkey: spec_op_return(blake3_of(enc_outpoints(inputs_sorted@))),
            },
        ] + bundle_outputs_of(selected));
        assert(tx@.inputs =~= seq![
            MainTxInV {
                prev_txid: MainTxid(arr32_from(zero_bytes32())),
                prev_vout: u32::MAX,
                script_sig: seq![0x00u8],
                sequence: u32::MAX,
            },
        ]);
        assert(tx@ =~= spec_bundle_tx(
            fee,
            blake3_of(enc_outpoints(inputs_sorted@)),
            bundle_outputs_of(selected),
        ));
    }

    let finalized = crate::mainchain::finalize_main_tx(&tx);
    let weight = finalized.2;
    if weight > MAX_STANDARD_TX_WEIGHT {
        return Err(Error::BundleTooHeavy { weight, max_weight: MAX_STANDARD_TX_WEIGHT });
    }
    proof {
        crate::codec::lemma_arr32_from(finalized.1);
    }
    Ok(
        Some(
            WithdrawalBundle {
                spent_utxos: spent,
                transaction: tx,
                main_txid: MainTxid(finalized.1),
            },
        ),
    )
}

} // verus!

verus! {

use crate::address::spec_parse_address;
use crate::types::DepositOutputV;

// ---------------------------------------------------------------------------
// Two-way-peg application.
// ---------------------------------------------------------------------------

/// Ingest deposits in report order; a destination that does not parse as a
/// sidechain address is dropped.
pub open spec fn apply_deposits(
    utxos: Seq<(OutPoint, OutputV)>,
    deposits: Seq<(MainOutPoint, DepositOutputV)>,
) -> Seq<(OutPoint, OutputV)>
    decreases deposits.len(),
{
    if deposits.len() == 0 {
        utxos
    } else {
        let u = apply_deposits(utxos, deposits.drop_last());
        let (mop, dep) = deposits.last();
        match spec_parse_address(dep.address) {
            Some(address) => put_utxo(
                u,
                OutPoint::Deposit(mop),
                OutputV { address, content: ContentV::Value(dep.value) },
            ),
            None => u,
        }
    }
}

/// Restore swept outputs after a bundle failure.
pub open spec fn restore_spent(
    utxos: Seq<(OutPoint, OutputV)>,
    spent: Seq<(OutPoint, OutputV)>,
) -> Seq<(OutPoint, OutputV)>
    decreases spent.len(),
{
    if spent.len() == 0 {
        utxos
    } else {
        put_utxo(restore_spent(utxos, spent.drop_last()), spent.last().0, spent.last().1)
    }
}

/// Settle reported bundle outcomes against the pending bundle, in report
/// order: `Failed` refunds the swept outputs and records the failure height;
/// `Confirmed` burns them.
pub open spec fn apply_statuses(
    s: StateV,
    statuses: Seq<(MainTxid, WithdrawalBundleStatus)>,
    block_height: u32,
) -> StateV
    decreases statuses.len(),
{
    if statuses.len() == 0 {
        s
    } else {
        let prev = apply_statuses(s, statuses.drop_last(), block_height);
        let (txid, status) = statuses.last();
        match prev.pending_withdrawal_bundle {
            Some(b) => if b.main_txid == txid {
                match status {
                    WithdrawalBundleStatus::Failed => StateV {
                        utxos: restore_spent(prev.utxos, b.spent_utxos),
                        pending_withdrawal_bundle: None,
                        last_withdrawal_bundle_failure_height: (block_height + 1) as u32,
                        last_deposit_block: prev.last_deposit_block,
                    },
                    WithdrawalBundleStatus::Confirmed => StateV {
                        pending_withdrawal_bundle: None,
                        ..prev
                    },
                }
            } else {
                prev
            },
            None => prev,
        }
    }
}

/// Whether a new bundle may emerge: enough blocks have passed since the last
/// failure, and no bundle is pending.
pub open spec fn bundle_may_emerge(s: StateV, block_height: u32) -> bool {
    &&& block_height + 1 - s.last_withdrawal_bundle_failure_height
        > State::WITHDRAWAL_BUNDLE_FAILURE_GAP
    &&& s.pending_withdrawal_bundle is None
}

/// What one block's peg application does to the state: ingest deposits,
/// possibly let a bundle emerge (sweeping its UTXOs), then settle the
/// reported bundle outcomes.
pub open spec fn spec_connect_two_way_peg_data(
    s: StateV,
    data: TwoWayPegDataV,
    block_height: u32,
) -> Result<StateV, Error> {
    let s1 = StateV {
        utxos: apply_deposits(s.utxos, data.deposits),
        last_deposit_block: match data.deposit_block_hash {
            Some(h) => Some(h),
            None => s.last_deposit_block,
        },
        ..s
    };
    let emerged = if bundle_may_emerge(s1, block_height) {
        match spec_collect_withdrawal_bundle(s1.utxos, (block_height + 1) as u32) {
            Err(e) => Err(e),
            Ok(None) => Ok(s1),
            Ok(Some(bundle)) => Ok(
                StateV {
                    utxos: remove_inputs(s1.utxos, spent_keys(bundle.spent_utxos)),
                    pending_withdrawal_bundle: Some(bundle),
                    ..s1
                },
            ),
        }
    } else {
        Ok(s1)
    };
    match emerged {
        Err(e) => Err(e),
        Ok(s2) => Ok(apply_statuses(s2, data.bundle_statuses, block_height)),
    }
}

impl State {
    /// Collect the pending withdrawals into a mainchain bundle transaction.
    pub fn collect_withdrawal_bundle(&self, block_height: u32) -> (r: Result<
        Option<WithdrawalBundle>,
        Error,
    >)
        ensures
            match r {
                Ok(Some(b)) => spec_collect_withdrawal_bundle(self@.utxos, block_height) == Ok::<
                    Option<WithdrawalBundleV>,
                    Error,
                >(Some(b@)),
                Ok(None) => spec_collect_withdrawal_bundle(self@.utxos, block_height) == Ok::<
                    Option<WithdrawalBundleV>,
                    Error,
                >(None),
                Err(e) => spec_collect_withdrawal_bundle(self@.utxos, block_height) == Err::<
                    Option<WithdrawalBundleV>,
                    Error,
                >(e),
            },
    {
        collect_withdrawal_bundle_from(&self.utxos, block_height)
    }

    /// Apply one block's two-way-peg data. On failure the state is unchanged.
    pub fn connect_two_way_peg_data(&mut self, data: &TwoWayPegData, block_height: u32) -> (r:
        Result<(), Error>)
        requires
            old(self).wf(),
            block_height < u32::MAX,
        ensures
            match r {
                Ok(()) => {
                    &&& spec_connect_two_way_peg_data(old(self)@, data@, block_height) == Ok::<
                        StateV,
                        Error,
                    >(final(self)@)
                    &&& final(self).wf()
                },
                Err(e) => {
                    &&& spec_connect_two_way_peg_data(old(self)@, data@, block_height) == Err::<
                        StateV,
                        Error,
                    >(e)
                    &&& final(self)@ == old(self)@
                },
            },
    {
        let ghost s0 = self@;
        let ghost deps = data@.deposits;

        // Ingest deposits into a working copy.
        let mut utxos2 = crate::types::clone_utxo_pairs(&self.utxos);
        proof {
            assert(pairs_view(utxos2@) =~= s0.utxos);
            assert(deps.take(0) =~= Seq::<(MainOutPoint, DepositOutputV)>::empty());
        }
        let mut i: usize = 0;
        while i < data.deposits.len()
            invariant
                i <= data.deposits@.len(),
                deps == data@.deposits,
                deps.len() == data.deposits@.len(),
                forall|k: int|
                    0 <= k < deps.len() ==> #[trigger] deps[k] == (
                    data.deposits@[k].0,
                    data.deposits@[k].1@,
                ),
                utxos_wf(pairs_view(utxos2@)),
                pairs_view(utxos2@) == apply_deposits(s0.utxos, deps.take(i as int)),
            decreases data.deposits@.len() - i,
        {
            let entry = &data.deposits[i];
            proof {
                assert(deps.take(i + 1 as int).drop_last() =~= deps.take(i as int));
                assert(deps.take(i + 1 as int).last() == deps[i as int]);
            }
            match Address::from_str(entry.1.address.as_str()) {
                Ok(address) => {
                    utxos_put(
                        &mut utxos2,
                        OutPoint::Deposit(entry.0),
                        Output { address, content: Content::Value(entry.1.value) },
                    );
                }
                Err(_) => {}
            }
            i += 1;
        }
        proof {
            assert(deps.take(deps.len() as int) =~= deps);
        }
        let last_deposit2 = match data.deposit_block_hash {
            Some(h) => Some(h),
            None => self.last_deposit_block,
        };
        let ghost s1 = StateV {
            utxos: pairs_view(utxos2@),
            last_deposit_block: last_deposit2,
            ..s0
        };

        // Let a bundle emerge if the failure gap has passed and none pends.
        let mut pending2 = match &self.pending_withdrawal_bundle {
            Some(b) => Some(crate::types::clone_withdrawal_bundle(b)),
            None => None,
        };
        let gap_passed = (block_height as u64) + 1 > (
        self.last_withdrawal_bundle_failure_height as u64) + (
        State::WITHDRAWAL_BUNDLE_FAILURE_GAP as u64);
        proof {
            assert(gap_passed == (block_height + 1 - s1.last_withdrawal_bundle_failure_height
                > State::WITHDRAWAL_BUNDLE_FAILURE_GAP));
        }
        if gap_passed && pending2.is_none() {
            match collect_withdrawal_bundle_from(&utxos2, block_height + 1) {
                Err(e) => {
                    return Err(e);
                }
                Ok(None) => {}
                Ok(Some(bundle)) => {
                    let ghost u_before = pairs_view(utxos2@);
                    let ghost spent = bundle@.spent_utxos;
                    let mut k: usize = 0;
                    proof {
                        assert(spent_keys(spent).take(0) =~= Seq::<OutPoint>::empty());
                    }
                    while k < bundle.spent_utxos.len()
                        invariant
                            k <= bundle.spent_utxos@.len(),
                            spent == bundle@.spent_utxos,
                            spent.len() == bundle.spent_utxos@.len(),
                            forall|m: int|
                                0 <= m < spent.len() ==> (#[trigger] spent[m]).0
                                    == bundle.spent_utxos@[m].0,
                            utxos_wf(pairs_view(utxos2@)),
                            pairs_view(utxos2@) == remove_inputs(
                                u_before,
                                spent_keys(spent).take(k as int),
                            ),
                        decreases bundle.spent_utxos@.len() - k,
                    {
                        proof {
                            assert(spent_keys(spent).take(k + 1 as int).drop_last() =~= spent_keys(
                                spent,
                            ).take(k as int));
                            assert(spent_keys(spent).take(k + 1 as int).last() == spent[
                            k as int].0);
                        }
                        utxos_remove(&mut utxos2, &bundle.spent_utxos[k].0);
                        k += 1;
                    }
                    proof {
                        assert(spent_keys(spent).take(spent_keys(spent).len() as int)
                            =~= spent_keys(spent));
                    }
                    pending2 = Some(bundle);
                }
            }
        }
        let ghost s2 = StateV {
            utxos: pairs_view(utxos2@),
            pending_withdrawal_bundle: match &pending2 {
                Some(b) => Some(b@),
                None => None,
            },
            ..s1
        };
        proof {
            assert(match spec_connect_two_way_peg_data(s0, data@, block_height) {
                Err(_) => false,
                Ok(_) => true,
            });
        }

        // Settle the reported bundle outcomes.
        let mut last_failure2 = self.last_withdrawal_bundle_failure_height;
        let ghost sts = data@.bundle_statuses;
        proof {
            assert(sts.take(0) =~= Seq::<(MainTxid, WithdrawalBundleStatus)>::empty());
        }
        let mut i: usize = 0;
        while i < data.bundle_statuses.len()
            invariant
                i <= data.bundle_statuses@.len(),
                sts == data@.bundle_statuses,
                sts.len() == data.bundle_statuses@.len(),
                block_height < u32::MAX,
                utxos_wf(pairs_view(utxos2@)),
                apply_statuses(s2, sts.take(i as int), block_height) == (StateV {
                    utxos: pairs_view(utxos2@),
                    pending_withdrawal_bundle: match &pending2 {
                        Some(b) => Some(b@),
                        None => None,
                    },
                    last_withdrawal_bundle_failure_height: last_failure2,
                    last_deposit_block: s2.last_deposit_block,
                }),
            decreases data.bundle_statuses@.len() - i,
        {
            let entry = &data.bundle_statuses[i];
            proof {
                assert(sts.take(i + 1 as int).drop_last() =~= sts.take(i as int));
                assert(sts.take(i + 1 as int).last() == sts[i as int]);
            }
            let matched = match &pending2 {
                Some(b) => crate::types::main_txid_eq(&b.main_txid, &entry.0),
                None => false,
            };
            if matched {
                match entry.1 {
                    WithdrawalBundleStatus::Failed => {
                        last_failure2 = block_height + 1;
                        let bundle = match pending2 {
                            Some(b) => b,
                            None => {
                                proof {
                                    assert(false);
                                }
                                return Err(Error::AuthorizationError);
                            },
                        };
                        pending2 = None;
                        let ghost u_before = pairs_view(utxos2@);
                        let ghost spent = bundle@.spent_utxos;
                        let mut k: usize = 0;
                        proof {
                            assert(spent.take(0) =~= Seq::<(OutPoint, OutputV)>::empty());
                        }
                        while k < bundle.spent_utxos.len()
                            invariant
                                k <= bundle.spent_utxos@.len(),
                                spent == bundle@.spent_utxos,
                                spent.len() == bundle.spent_utxos@.len(),
                                forall|m: int|
                                    0 <= m < spent.len() ==> (#[trigger] spent[m]).0
                                        == bundle.spent_utxos@[m].0 && spent[m].1
                                        == bundle.spent_utxos@[m].1@,
                                utxos_wf(pairs_view(utxos2@)),
                                pairs_view(utxos2@) == restore_spent(
                                    u_before,
                                    spent.take(k as int),
                                ),
                            decreases bundle.spent_utxos@.len() - k,
                        {
                            proof {
                                assert(spent.take(k + 1 as int).drop_last() =~= spent.take(
                                    k as int,
                                ));
                                assert(spent.take(k + 1 as int).last() == spent[k as int]);
                            }
                            let pair = &bundle.spent_utxos[k];
                            utxos_put(&mut utxos2, pair.0, crate::types::clone_output(&pair.1));
                            k += 1;
                        }
                        proof {
                            assert(spent.take(spent.len() as int) =~= spent);
                        }
                    }
                    WithdrawalBundleStatus::Confirmed => {
                        pending2 = None;
                    }
                }
            }
            i += 1;
        }
        proof {
            assert(sts.take(sts.len() as int) =~= sts);
        }

        // Commit.
        self.utxos = utxos2;
        self.pending_withdrawal_bundle = pending2;
        self.last_withdrawal_bundle_failure_height = last_failure2;
        self.last_deposit_block = last_deposit2;
        proof {
            assert(self@ =~= apply_statuses(s2, sts, block_height));
            assert(spec_connect_two_way_peg_data(s0, data@, block_height) == Ok::<StateV, Error>(
                self@,
            ));
        }
        Ok(())
    }
}

} // verus!

verus! {

impl FilledTransaction {
    /// The value the resolved inputs carry, when it fits `u64`.
    pub fn get_value_in(&self) -> (r: Option<u64>)
        ensures
            match r {
                Some(v) => v == spec_value_in(self@),
                None => spec_value_in(self@) > u64::MAX,
            },
    {
        crate::hashes::sum_outputs(&self.spent_utxos)
    }

    /// The value the outputs carry, when it fits `u64`.
    pub fn get_value_out(&self) -> (r: Option<u64>)
        ensures
            match r {
                Some(v) => v == spec_value_out(self@),
                None => spec_value_out(self@) > u64::MAX,
            },
    {
        crate::hashes::sum_outputs(&self.transaction.outputs)
    }

    /// The fee the transaction pays: `None` when it overdraws, or when a
    /// sum leaves `u64`.
    pub fn get_fee(&self) -> (r: Option<u64>)
        ensures
            match r {
                Some(fee) => spec_value_in(self@) <= u64::MAX && spec_value_out(self@)
                    <= spec_value_in(self@) && fee == spec_value_in(self@) - spec_value_out(
                    self@,
                ),
                None => spec_value_in(self@) > u64::MAX || spec_value_out(self@) > spec_value_in(
                    self@,
                ),
            },
    {
        let value_in = match self.get_value_in() {
            Some(v) => v,
            None => {
                return None;
            },
        };
        let value_out = match self.get_value_out() {
            Some(v) => v,
            None => {
                proof {
                    crate::hashes::lemma_sum_output_values_nonneg(self@.spent_utxos);
                }
                return None;
            },
        };
        if value_in < value_out {
            None
        } else {
            Some(value_in - value_out)
        }
    }
}

} // verus!
