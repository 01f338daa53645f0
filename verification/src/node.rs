//! The node: wires the state, the archive and the mempool together, and
//! carries the decision logic of the peer protocol. All I/O — the mainchain
//! RPC client and the datagram transport — stays outside; callers fetch the
//! peg data and pass it in, and send the responses this module decides on.

use vstd::prelude::*;
use crate::types::{
    AuthorizedTransaction, AuthorizedTransactionV, Body, BodyV, BlockHash, Header, OutPoint,
    Output, OutputV, Request, Response, TwoWayPegData, WithdrawalBundle,
};
use crate::state::{
    all_inputs_found, filled_outputs, find_utxo, pairs_view, spec_connect_body,
    spec_connect_two_way_peg_data, spec_tx_fee, spec_validate_body_ok, tx_fee_ok, State, StateV,
};
use crate::archive::{spec_best_hash, Archive};
use crate::mempool::{remove_entry, MemPool, MemPoolV};
use crate::hashes::{spec_merkle_root, spec_txid};
use crate::authorization::authorized_tx_valid;
use crate::address::spec_pk_address;

verus! {

/// Extension point for errors a sidechain deployment adds of its own.
pub trait CustomError {

}

/// What can go wrong at the node's surface.
#[derive(Clone, Copy, Debug, PartialEq, Eq)]
pub enum Error {
    State(crate::state::Error),
    Archive(crate::archive::Error),
    MemPool(crate::mempool::Error),
}

/// Everything `validate_transaction` checks: the inputs resolve, each input
/// has exactly one authorization, each authorization spends for the right
/// address and signs the transaction, and the values balance.
pub open spec fn spec_validate_transaction_ok(
    utxos: Seq<(OutPoint, OutputV)>,
    at: AuthorizedTransactionV,
) -> bool {
    &&& all_inputs_found(utxos, at.transaction.inputs)
    &&& at.authorizations.len() == at.transaction.inputs.len()
    &&& forall|i: int|
        0 <= i < at.authorizations.len() ==> spec_pk_address(
            (#[trigger] at.authorizations[i]).public_key@,
        ) == filled_outputs(utxos, at.transaction.inputs)[i].address
    &&& authorized_tx_valid(at)
    &&& tx_fee_ok(utxos, at.transaction)
}

/// The outpoints of a list that do not resolve to an unspent output, in
/// order.
pub open spec fn missing_outpoints(
    utxos: Seq<(OutPoint, OutputV)>,
    outpoints: Seq<OutPoint>,
) -> Seq<OutPoint>
    decreases outpoints.len(),
{
    if outpoints.len() == 0 {
        Seq::empty()
    } else {
        let rest = missing_outpoints(utxos, outpoints.drop_last());
        if find_utxo(utxos, outpoints.last()) is None {
            rest.push(outpoints.last())
        } else {
            rest
        }
    }
}

/// Everything mempool admission adds on top of validity: none of the
/// transaction's inputs is already spent by the pool, and the transaction
/// does not spend an outpoint twice itself.
pub open spec fn spec_admissible(m: MemPoolV, at: AuthorizedTransactionV) -> bool {
    &&& forall|k: int|
        0 <= k < at.transaction.inputs.len() ==> !m.spent_utxos.contains(
            #[trigger] at.transaction.inputs[k],
        )
    &&& crate::state::distinct_outpoints(at.transaction.inputs)
}

/// The node core.
pub struct Node {
    pub state: State,
    pub archive: Archive,
    pub mempool: MemPool,
}

impl Node {
    pub open spec fn wf(&self) -> bool {
        self.state.wf() && self.archive.wf() && self.mempool.wf()
    }

    /// A fresh node with an empty ledger, an empty chain and an empty pool.
    pub fn new() -> (r: Node)
        ensures
            r.wf(),
            r.state@.utxos.len() == 0,
            r.archive@.headers.len() == 0,
            r.mempool@.transactions.len() == 0,
    {
        Node { state: State::new(), archive: Archive::new(), mempool: MemPool::new() }
    }

    /// The chain height.
    pub fn get_height(&self) -> (r: u32)
        requires
            self.wf(),
        ensures
            r == self.archive@.headers.len(),
    {
        self.archive.get_height()
    }

    /// The hash of the best accepted header.
    pub fn get_best_hash(&self) -> (r: BlockHash)
        requires
            self.wf(),
        ensures
            r == spec_best_hash(self.archive@),
    {
        self.archive.get_best_hash()
    }

    /// Validate an authorized transaction against the UTXO set; returns its
    /// fee.
    pub fn validate_transaction(&self, transaction: &AuthorizedTransaction) -> (r: Result<
        u64,
        Error,
    >)
        requires
            self.wf(),
        ensures
            r is Ok <==> spec_validate_transaction_ok(self.state@.utxos, transaction@),
            r is Ok ==> r->Ok_0 == spec_tx_fee(self.state@.utxos, transaction@.transaction),
            r is Err ==> r->Err_0 is State,
    {
        let filled = match self.state.fill_transaction(&transaction.transaction) {
            Ok(f) => f,
            Err(e) => {
                return Err(Error::State(e));
            },
        };
        if transaction.authorizations.len() != transaction.transaction.inputs.len() {
            return Err(Error::State(crate::state::Error::WrongPubKeyForAddress));
        }
        let mut i: usize = 0;
        while i < transaction.authorizations.len()
            invariant
                i <= transaction.authorizations@.len(),
                transaction.authorizations@.len() == transaction@.transaction.inputs.len(),
                filled@.spent_utxos == filled_outputs(
                    self.state@.utxos,
                    transaction@.transaction.inputs,
                ),
                filled@.spent_utxos.len() == transaction@.transaction.inputs.len(),
                filled.spent_utxos@.len() == filled@.spent_utxos.len(),
                forall|k: int|
                    0 <= k < i ==> spec_pk_address(
                        (#[trigger] transaction@.authorizations[k]).public_key@,
                    ) == filled_outputs(
                        self.state@.utxos,
                        transaction@.transaction.inputs,
                    )[k].address,
            decreases transaction.authorizations@.len() - i,
        {
            let derived = crate::address::get_address(&transaction.authorizations[i].public_key);
            let spent_address = filled.spent_utxos[i].address;
            proof {
                assert(filled@.spent_utxos[i as int] == filled.spent_utxos@[i as int]@);
                assert(spent_address == filled_outputs(
                    self.state@.utxos,
                    transaction@.transaction.inputs,
                )[i as int].address);
            }
            if !crate::types::address_eq(&derived, &spent_address) {
                return Err(Error::State(crate::state::Error::WrongPubKeyForAddress));
            }
            i += 1;
        }
        if !crate::authorization::verify_authorized_transaction(transaction) {
            return Err(Error::State(crate::state::Error::AuthorizationError));
        }
        match self.state.validate_filled_transaction(&filled) {
            Ok(fee) => Ok(fee),
            Err(e) => Err(Error::State(e)),
        }
    }

    /// Validate a transaction and admit it to the mempool. The caller
    /// forwards it to peers on success.
    pub fn submit_transaction(&mut self, transaction: &AuthorizedTransaction) -> (r: Result<
        (),
        Error,
    >)
        requires
            old(self).wf(),
        ensures
            final(self).wf(),
            final(self).state@ == old(self).state@,
            final(self).archive@ == old(self).archive@,
            r is Ok <==> spec_validate_transaction_ok(old(self).state@.utxos, transaction@)
                && spec_admissible(old(self).mempool@, transaction@),
            match r {
                Ok(()) => {
                    &&& final(self).mempool@.transactions == crate::mempool::insert_entry(
                        old(self).mempool@.transactions,
                        (spec_txid(transaction@.transaction), transaction@),
                    )
                    &&& final(self).mempool@.spent_utxos == old(self).mempool@.spent_utxos
                        + transaction@.transaction.inputs
                },
                Err(_) => final(self).mempool@ == old(self).mempool@,
            },
    {
        match self.validate_transaction(transaction) {
            Ok(_) => {}
            Err(e) => {
                return Err(e);
            },
        }
        match self.mempool.put(transaction) {
            Ok(()) => Ok(()),
            Err(e) => Err(Error::MemPool(e)),
        }
    }

    /// The outpoints of the given list that do not resolve to an unspent
    /// output.
    pub fn get_spent_utxos(&self, outpoints: &Vec<OutPoint>) -> (r: Vec<OutPoint>)
        requires
            self.wf(),
        ensures
            r@ == missing_outpoints(self.state@.utxos, outpoints@),
    {
        let mut r: Vec<OutPoint> = Vec::new();
        let mut i: usize = 0;
        proof {
            assert(outpoints@.take(0) =~= Seq::<OutPoint>::empty());
        }
        while i < outpoints.len()
            invariant
                i <= outpoints@.len(),
                self.wf(),
                r@ == missing_outpoints(self.state@.utxos, outpoints@.take(i as int)),
            decreases outpoints@.len() - i,
        {
            proof {
                assert(outpoints@.take(i + 1 as int).drop_last() =~= outpoints@.take(i as int));
                assert(outpoints@.take(i + 1 as int).last() == outpoints@[i as int]);
            }
            match crate::state::utxos_get(&self.state.utxos, &outpoints[i]) {
                Some(_) => {}
                None => {
                    r.push(outpoints[i]);
                }
            }
            i += 1;
        }
        proof {
            assert(outpoints@.take(outpoints@.len() as int) =~= outpoints@);
        }
        r
    }

    /// The header at a height.
    pub fn get_header(&self, height: u32) -> (r: Option<Header>)
        requires
            self.wf(),
        ensures
            match r {
                Some(h) => 1 <= height <= self.archive@.headers.len() && h
                    == self.archive@.headers[height - 1],
                None => height == 0 || height > self.archive@.headers.len(),
            },
    {
        self.archive.get_header(height)
    }

    /// The body at a height.
    pub fn get_body(&self, height: u32) -> (r: Option<Body>)
        requires
            self.wf(),
        ensures
            match r {
                Some(b) => 1 <= height <= self.archive@.bodies.len()
                    && self.archive@.bodies[height - 1] == Some(b@),
                None => height == 0 || height > self.archive@.bodies.len()
                    || self.archive@.bodies[height - 1] is None,
            },
    {
        self.archive.get_body(height)
    }

    /// Every mempool transaction, in txid order.
    pub fn get_all_transactions(&self) -> (r: Vec<AuthorizedTransaction>)
        requires
            self.wf(),
        ensures
            r@.len() == self.mempool@.transactions.len(),
            forall|i: int|
                0 <= i < r@.len() ==> #[trigger] r@[i]@ == self.mempool@.transactions[i].1,
    {
        self.mempool.take_all()
    }

    /// The pending withdrawal bundle, if any.
    pub fn get_pending_withdrawal_bundle(&self) -> (r: Option<WithdrawalBundle>)
        requires
            self.wf(),
        ensures
            match r {
                Some(b) => self.state@.pending_withdrawal_bundle == Some(b@),
                None => self.state@.pending_withdrawal_bundle is None,
            },
    {
        match self.state.get_pending_withdrawal_bundle() {
            Some(b) => Some(crate::types::clone_withdrawal_bundle(b)),
            None => None,
        }
    }
}

} // verus!

verus! {

use crate::mempool::{find_entry, remove_outpoints};
use crate::types::{Txid, TransactionV};

/// One mempool deletion, at the view level.
pub open spec fn spec_mempool_delete(m: MemPoolV, txid: Txid) -> MemPoolV {
    MemPoolV {
        transactions: remove_entry(m.transactions, txid),
        spent_utxos: match find_entry(m.transactions, txid) {
            Some(tx) => remove_outpoints(m.spent_utxos, tx.transaction.inputs),
            None => m.spent_utxos,
        },
    }
}

/// Delete every given transaction from the pool, in order.
pub open spec fn spec_mempool_delete_txs(m: MemPoolV, txs: Seq<TransactionV>) -> MemPoolV
    decreases txs.len(),
{
    if txs.len() == 0 {
        m
    } else {
        spec_mempool_delete(spec_mempool_delete_txs(m, txs.drop_last()), spec_txid(txs.last()))
    }
}

/// Copy the ledger state.
pub fn clone_state(s: &State) -> (r: State)
    ensures
        r@ == s@,
{
    let r = State {
        utxos: crate::types::clone_utxo_pairs(&s.utxos),
        pending_withdrawal_bundle: match &s.pending_withdrawal_bundle {
            Some(b) => Some(crate::types::clone_withdrawal_bundle(b)),
            None => None,
        },
        last_withdrawal_bundle_failure_height: s.last_withdrawal_bundle_failure_height,
        last_deposit_block: s.last_deposit_block,
    };
    proof {
        assert(r@ =~= s@);
    }
    r
}

impl Node {
    /// The atomic submit-block path: validate the body, check that the
    /// header extends the chain and binds the body, apply the body and the
    /// peg data to the ledger, record the header and body, and drop the
    /// included transactions from the mempool. Nothing changes on failure.
    /// Returns the bundle pending after the block, for broadcast.
    #[verifier::loop_isolation(false)]
    #[verifier::rlimit(100)]
    pub fn submit_block(
        &mut self,
        header: &Header,
        body: &Body,
        two_way_peg_data: &TwoWayPegData,
    ) -> (r: Result<Option<WithdrawalBundle>, Error>)
        requires
            old(self).wf(),
            old(self).archive@.headers.len() < u32::MAX,
            body@.coinbase.len() <= u32::MAX,
            forall|ti: int|
                0 <= ti < body@.transactions.len() ==> (
                #[trigger] body@.transactions[ti]).outputs.len() <= u32::MAX,
        ensures
            final(self).wf(),
            r is Ok <==> {
                &&& spec_validate_body_ok(old(self).state@.utxos, body@)
                &&& header.prev_side_hash == spec_best_hash(old(self).archive@)
                &&& header.merkle_root == spec_merkle_root(body@.coinbase, body@.transactions)
                &&& spec_connect_two_way_peg_data(
                    StateV {
                        utxos: spec_connect_body(old(self).state@.utxos, body@),
                        ..old(self).state@
                    },
                    two_way_peg_data@,
                    old(self).archive@.headers.len() as u32,
                ) is Ok
            },
            r is Err ==> final(self).state@ == old(self).state@ && final(self).archive@ == old(
                self,
            ).archive@ && final(self).mempool@ == old(self).mempool@,
            r is Ok ==> {
                &&& Ok::<StateV, crate::state::Error>(final(self).state@)
                    == spec_connect_two_way_peg_data(
                    StateV {
                        utxos: spec_connect_body(old(self).state@.utxos, body@),
                        ..old(self).state@
                    },
                    two_way_peg_data@,
                    old(self).archive@.headers.len() as u32,
                )
                &&& final(self).archive@.headers == old(self).archive@.headers.push(*header)
                &&& exists|i: int|
                    #![trigger final(self).archive@.headers[i]]
                    {
                        let new_archive = final(self).archive@;
                        let old_bodies = old(self).archive@.bodies;
                        0 <= i < new_archive.headers.len() && new_archive.headers[i] == *header
                            && new_archive.bodies == old_bodies.push(None::<BodyV>).update(
                            i,
                            Some(body@),
                        )
                    }
                &&& final(self).mempool@ == spec_mempool_delete_txs(
                    old(self).mempool@,
                    body@.transactions,
                )
                &&& (match r->Ok_0 {
                    Some(b) => final(self).state@.pending_withdrawal_bundle == Some(b@),
                    None => final(self).state@.pending_withdrawal_bundle is None,
                })
            },
    {
        // Validation, against the untouched ledger.
        match self.state.validate_body(body) {
            Ok(_) => {}
            Err(e) => {
                return Err(Error::State(e));
            },
        }
        let best = self.archive.get_best_hash();
        if !crate::types::block_hash_eq(&header.prev_side_hash, &best) {
            return Err(Error::Archive(crate::archive::Error::InvalidPrevSideHash));
        }
        let root = body.compute_merkle_root();
        if !crate::types::bytes32_eq(&header.merkle_root.0, &root.0) {
            proof {
                if header.merkle_root == root {
                    assert(header.merkle_root.0@ == root.0@);
                }
            }
            return Err(Error::Archive(crate::archive::Error::InvalidMerkleRoot));
        }
        proof {
            assert(header.merkle_root.0 =~= root.0);
        }
        let height = self.archive.get_height();

        // Apply the block to a working copy of the ledger; commit at the end.
        let mut st = clone_state(&self.state);
        match st.connect_body(body) {
            Ok(()) => {}
            Err(_) => {
                proof {
                    assert(false);
                }
                return Err(Error::State(crate::state::Error::AuthorizationError));
            },
        }
        proof {
            assert(st@ =~= (StateV {
                utxos: spec_connect_body(old(self).state@.utxos, body@),
                ..old(self).state@
            }));
        }
        match st.connect_two_way_peg_data(two_way_peg_data, height) {
            Ok(()) => {}
            Err(e) => {
                return Err(Error::State(e));
            },
        }
        let bundle = match st.get_pending_withdrawal_bundle() {
            Some(b) => Some(crate::types::clone_withdrawal_bundle(b)),
            None => None,
        };

        // Record the header and the body.
        match self.archive.append_header(header) {
            Ok(()) => {}
            Err(_) => {
                proof {
                    assert(false);
                }
                return Err(Error::Archive(crate::archive::Error::InvalidPrevSideHash));
            },
        }
        match self.archive.put_body(header, body) {
            Ok(()) => {}
            Err(_) => {
                proof {
                    assert(self.archive@.headers[self.archive@.headers.len() - 1] == *header);
                    assert(false);
                }
                return Err(Error::Archive(crate::archive::Error::InvalidMerkleRoot));
            },
        }

        // Drop the included transactions from the mempool.
        let ghost archive_after = self.archive@;
        let ghost m0 = self.mempool@;
        let ghost txs = body@.transactions;
        let mut i: usize = 0;
        proof {
            assert(txs.take(0) =~= Seq::<TransactionV>::empty());
        }
        while i < body.transactions.len()
            invariant
                i <= body.transactions@.len(),
                self.mempool.wf(),
                self.archive.wf(),
                self.archive@ == archive_after,
                self.state@ == old(self).state@,
                self.mempool@ == spec_mempool_delete_txs(m0, txs.take(i as int)),
            decreases body.transactions@.len() - i,
        {
            proof {
                assert(txs.take(i + 1 as int).drop_last() =~= txs.take(i as int));
                assert(txs.take(i + 1 as int).last() == txs[i as int]);
            }
            let txid = body.transactions[i].txid();
            self.mempool.delete(&txid);
            i += 1;
        }
        proof {
            assert(txs.take(txs.len() as int) =~= txs);
        }

        // Commit the ledger.
        self.state = st;
        proof {
            assert(self.state.wf());
            assert(self.archive.wf());
            assert(self.mempool.wf());
        }
        Ok(bundle)
    }
}

} // verus!

verus! {

/// All inputs of a run of selected transactions.
pub open spec fn sel_inputs(s: Seq<AuthorizedTransactionV>) -> Seq<OutPoint>
    decreases s.len(),
{
    if s.len() == 0 {
        Seq::empty()
    } else {
        sel_inputs(s.drop_last()) + s.last().transaction.inputs
    }
}

/// One step of miner selection: a candidate that conflicts with an already
/// selected transaction, or does not validate, is dropped from the pool;
/// otherwise it is selected and its fee accrues.
pub open spec fn spec_take_step(
    utxos: Seq<(OutPoint, OutputV)>,
    acc: (Seq<AuthorizedTransactionV>, int, MemPoolV),
    t: AuthorizedTransactionV,
) -> (Seq<AuthorizedTransactionV>, int, MemPoolV) {
    let disjoint = forall|k: int|
        0 <= k < t.transaction.inputs.len() ==> !sel_inputs(acc.0).contains(
            #[trigger] t.transaction.inputs[k],
        );
    if disjoint && spec_validate_transaction_ok(utxos, t) {
        (acc.0.push(t), acc.1 + spec_tx_fee(utxos, t.transaction), acc.2)
    } else {
        (acc.0, acc.1, spec_mempool_delete(acc.2, spec_txid(t.transaction)))
    }
}

/// Fold the selection over the candidates, in pool order.
pub open spec fn spec_take_fold(
    utxos: Seq<(OutPoint, OutputV)>,
    cands: Seq<AuthorizedTransactionV>,
    m: MemPoolV,
) -> (Seq<AuthorizedTransactionV>, int, MemPoolV)
    decreases cands.len(),
{
    if cands.len() == 0 {
        (Seq::empty(), 0, m)
    } else {
        spec_take_step(utxos, spec_take_fold(utxos, cands.drop_last(), m), cands.last())
    }
}

impl Node {
    /// Draw up to `number` transactions from the mempool for a block: walk
    /// them in txid order, drop the ones that no longer validate or that
    /// conflict with an already chosen one, and sum the fees of the rest.
    #[verifier::loop_isolation(false)]
    pub fn get_transactions(&mut self, number: usize) -> (r: Result<
        (Vec<AuthorizedTransaction>, u64),
        Error,
    >)
        requires
            old(self).wf(),
        ensures
            final(self).wf(),
            final(self).state@ == old(self).state@,
            final(self).archive@ == old(self).archive@,
            ({
                let cands = Seq::new(
                    if number <= old(self).mempool@.transactions.len() {
                        number as nat
                    } else {
                        old(self).mempool@.transactions.len()
                    },
                    |i: int| old(self).mempool@.transactions[i].1,
                );
                let folded = spec_take_fold(old(self).state@.utxos, cands, old(self).mempool@);
                match r {
                    Ok((txs, fee)) => {
                        &&& txs@.map_values(|t: AuthorizedTransaction| t@) == folded.0
                        &&& fee == folded.1
                        &&& final(self).mempool@ == folded.2
                        &&& folded.1 <= u64::MAX
                    },
                    Err(_) => folded.1 > u64::MAX,
                }
            }),
    {
        let candidates = self.mempool.take(number);
        let ghost cands = Seq::new(
            if number <= old(self).mempool@.transactions.len() {
                number as nat
            } else {
                old(self).mempool@.transactions.len()
            },
            |i: int| old(self).mempool@.transactions[i].1,
        );
        proof {
            assert(candidates@.map_values(|t: AuthorizedTransaction| t@) =~= cands);
        }
        let mut returned: Vec<AuthorizedTransaction> = Vec::new();
        let mut spent_acc: Vec<OutPoint> = Vec::new();
        let mut fee: u64 = 0;
        let mut i: usize = 0;
        proof {
            assert(cands.take(0) =~= Seq::<AuthorizedTransactionV>::empty());
            assert(returned@.map_values(|t: AuthorizedTransaction| t@) =~= Seq::<
                AuthorizedTransactionV,
            >::empty());
        }
        while i < candidates.len()
            invariant
                i <= candidates@.len(),
                candidates@.map_values(|t: AuthorizedTransaction| t@) == cands,
                cands.len() == candidates@.len(),
                self.state@ == old(self).state@,
                self.archive@ == old(self).archive@,
                self.state.wf(),
                self.archive.wf(),
                self.mempool.wf(),
                spec_take_fold(old(self).state@.utxos, cands.take(i as int), old(self).mempool@)
                    == (
                returned@.map_values(|t: AuthorizedTransaction| t@),
                fee as int,
                self.mempool@,
                ),
                spent_acc@ == sel_inputs(returned@.map_values(|t: AuthorizedTransaction| t@)),
            decreases candidates@.len() - i,
        {
            let ghost sel_v = returned@.map_values(|t: AuthorizedTransaction| t@);
            proof {
                assert(cands.take(i + 1 as int).drop_last() =~= cands.take(i as int));
                assert(cands.take(i + 1 as int).last() == cands[i as int]);
                assert(candidates@[i as int]@ == cands[i as int]);
            }
            let tx = &candidates[i];
            // Conflict with an already selected transaction?
            let mut conflict = false;
            let mut k: usize = 0;
            while k < tx.transaction.inputs.len()
                invariant
                    k <= tx.transaction.inputs@.len(),
                    conflict ==> exists|x: int|
                        0 <= x < tx.transaction.inputs@.len() && sel_inputs(sel_v).contains(
                            #[trigger] tx.transaction.inputs@[x],
                        ),
                    !conflict ==> forall|x: int|
                        0 <= x < k ==> !sel_inputs(sel_v).contains(
                            #[trigger] tx.transaction.inputs@[x],
                        ),
                decreases tx.transaction.inputs@.len() - k,
            {
                if crate::state::outpoints_contains(&spent_acc, &tx.transaction.inputs[k]) {
                    conflict = true;
                }
                k += 1;
            }
            if conflict {
                let txid = tx.transaction.txid();
                self.mempool.delete(&txid);
                i += 1;
                continue;
            }
            match self.validate_transaction(tx) {
                Err(_) => {
                    let txid = tx.transaction.txid();
                    self.mempool.delete(&txid);
                    i += 1;
                    continue;
                }
                Ok(tx_fee) => {
                    fee = match fee.checked_add(tx_fee) {
                        Some(x) => x,
                        None => {
                            proof {
                                lemma_take_fold_fee_exceeds(
                                    old(self).state@.utxos,
                                    cands,
                                    i + 1 as int,
                                    old(self).mempool@,
                                );
                            }
                            return Err(Error::State(crate::state::Error::ValueOverflow));
                        },
                    };
                    let mut ins = crate::types::clone_outpoints(&tx.transaction.inputs);
                    spent_acc.append(&mut ins);
                    returned.push(crate::types::clone_authorized_transaction(tx));
                    proof {
                        assert(returned@.map_values(|t: AuthorizedTransaction| t@)
                            =~= sel_v.push(cands[i as int]));
                        assert(sel_inputs(sel_v.push(cands[i as int])) == sel_inputs(sel_v)
                            + cands[i as int].transaction.inputs) by {
                            assert(sel_v.push(cands[i as int]).drop_last() =~= sel_v);
                        }
                        assert(spent_acc@ =~= sel_inputs(sel_v.push(cands[i as int])));
                    }
                    i += 1;
                }
            }
        }
        proof {
            assert(cands.take(cands.len() as int) =~= cands);
        }
        Ok((returned, fee))
    }
}

/// When the accumulated fee already exceeds `u64::MAX`, so does the fold's.
pub proof fn lemma_take_fold_fee_exceeds(
    utxos: Seq<(OutPoint, OutputV)>,
    cands: Seq<AuthorizedTransactionV>,
    i: int,
    m: MemPoolV,
)
    requires
        0 <= i <= cands.len(),
        spec_take_fold(utxos, cands.take(i), m).1 > u64::MAX,
    ensures
        spec_take_fold(utxos, cands, m).1 > u64::MAX,
    decreases cands.len() - i,
{
    if i < cands.len() {
        assert(cands.take(i + 1).drop_last() =~= cands.take(i));
        assert(cands.take(i + 1).last() == cands[i]);
        let acc = spec_take_fold(utxos, cands.take(i), m);
        let t = cands[i];
        if spec_validate_transaction_ok(utxos, t) {
            crate::hashes::lemma_sum_output_values_nonneg(t.transaction.outputs);
        }
        lemma_take_fold_fee_exceeds(utxos, cands, i + 1, m);
    } else {
        assert(cands.take(i) =~= cands);
    }
}

impl Node {
    /// Answer one peer request. The second component says whether the
    /// caller should forward the pushed transaction to its other peers.
    pub fn handle_request(&mut self, request: &Request) -> (r: (Response, bool))
        requires
            old(self).wf(),
        ensures
            final(self).wf(),
            final(self).state@ == old(self).state@,
            final(self).archive@ == old(self).archive@,
            match request@ {
                crate::types::RequestV::GetBlock { height } => {
                    &&& final(self).mempool@ == old(self).mempool@
                    &&& r.1 == false
                    &&& (if 1 <= height <= old(self).archive@.headers.len() && old(
                        self,
                    ).archive@.bodies[height - 1] is Some {
                        r.0@ == (crate::types::ResponseV::Block {
                            header: old(self).archive@.headers[height - 1],
                            body: old(self).archive@.bodies[height - 1]->0,
                        })
                    } else {
                        r.0@ == crate::types::ResponseV::NoBlock
                    })
                },
                crate::types::RequestV::PushTransaction { transaction } => {
                    &&& (r.1 <==> spec_validate_transaction_ok(old(self).state@.utxos, transaction)
                        && spec_admissible(old(self).mempool@, transaction))
                    &&& if r.1 {
                        &&& r.0@ == crate::types::ResponseV::TransactionAccepted
                        &&& final(self).mempool@.transactions == crate::mempool::insert_entry(
                            old(self).mempool@.transactions,
                            (spec_txid(transaction.transaction), transaction),
                        )
                    } else {
                        &&& r.0@ == crate::types::ResponseV::TransactionRejected
                        &&& final(self).mempool@ == old(self).mempool@
                    }
                },
            },
    {
        match request {
            Request::GetBlock { height } => {
                let header = self.archive.get_header(*height);
                let body = self.archive.get_body(*height);
                match (header, body) {
                    (Some(header), Some(body)) => (Response::Block { header, body }, false),
                    _ => (Response::NoBlock, false),
                }
            }
            Request::PushTransaction { transaction } => {
                match self.submit_transaction(transaction) {
                    Ok(()) => (Response::TransactionAccepted, true),
                    Err(_) => (Response::TransactionRejected, false),
                }
            }
        }
    }

    /// Whether the catch-up loop should pull a block from a peer: the next
    /// height, when the peer is ahead.
    pub fn next_block_to_request(&self, peer_height: u32) -> (r: Option<u32>)
        requires
            self.wf(),
        ensures
            match r {
                Some(h) => peer_height > self.archive@.headers.len() && h
                    == self.archive@.headers.len() + 1,
                None => peer_height <= self.archive@.headers.len(),
            },
    {
        let height = self.archive.get_height();
        if peer_height > height {
            Some(height + 1)
        } else {
            None
        }
    }

    /// The unspent outputs owned by one of the given addresses.
    pub fn get_utxos_by_addresses(&self, addresses: &Vec<crate::types::Address>) -> (r: Vec<
        (OutPoint, Output),
    >)
        requires
            self.wf(),
        ensures
            pairs_view(r@) == crate::state::filter_owned(self.state@.utxos, addresses@),
    {
        self.state.get_utxos_by_addresses(addresses)
    }
}

} // verus!
