//! Content hashing: txids, merkle roots and block hashes are BLAKE3 digests
//! of the codec's byte form.

use vstd::prelude::*;
use crate::types::{
    Authorization, AuthorizedTransaction, AuthorizedTransactionV, BlockHash, Body, BodyV, Header,
    MerkleRoot, OutPoint,
    Output, OutputV, Transaction, TransactionV, Txid,
};
use crate::codec::{
    arr32_from, enc_block_pair, enc_header, enc_transaction, encode_block_pair, encode_header,
    encode_transaction, lemma_arr32_from,
};

verus! {

/// The 32-byte BLAKE3 digest of a byte string; a function of the input alone.
pub uninterp spec fn blake3_of(input: Seq<u8>) -> Seq<u8>;

/// Relies on `blake3::hash`: the digest is a deterministic function of the
/// input bytes, 32 bytes long.
#[verifier::external_body]
pub(crate) fn blake3_hash32(input: &Vec<u8>) -> (r: [u8; 32])
    ensures
        r@ == blake3_of(input@),
{
    *blake3::hash(input.as_slice()).as_bytes()
}

/// The txid of a transaction: the hash of its serialised form.
pub open spec fn spec_txid(t: TransactionV) -> Txid {
    Txid(arr32_from(blake3_of(enc_transaction(t))))
}

/// The merkle root bound into a header: the hash of the serialised
/// `(coinbase, transactions)` pair.
pub open spec fn spec_merkle_root(coinbase: Seq<OutputV>, transactions: Seq<TransactionV>) -> MerkleRoot {
    MerkleRoot(arr32_from(blake3_of(enc_block_pair(coinbase, transactions))))
}

/// The hash of a block header.
pub open spec fn spec_block_hash(h: Header) -> BlockHash {
    BlockHash(arr32_from(blake3_of(enc_header(h))))
}

impl Transaction {
    pub fn txid(&self) -> (r: Txid)
        ensures
            r == spec_txid(self@),
    {
        let bytes = encode_transaction(self);
        let digest = blake3_hash32(&bytes);
        proof {
            lemma_arr32_from(digest);
        }
        Txid(digest)
    }
}

impl Header {
    pub fn hash(&self) -> (r: BlockHash)
        ensures
            r == spec_block_hash(*self),
    {
        let bytes = encode_header(self);
        let digest = blake3_hash32(&bytes);
        proof {
            lemma_arr32_from(digest);
        }
        BlockHash(digest)
    }
}

/// The concatenation of each transaction's authorizations, in transaction
/// order: what a body's flat authorization list must hold.
pub open spec fn flatten_authorizations(s: Seq<AuthorizedTransactionV>) -> Seq<Authorization>
    decreases s.len(),
{
    if s.len() == 0 {
        Seq::empty()
    } else {
        s[0].authorizations + flatten_authorizations(s.skip(1))
    }
}

pub proof fn lemma_flatten_authorizations_push(s: Seq<AuthorizedTransactionV>, x: AuthorizedTransactionV)
    ensures
        flatten_authorizations(s.push(x)) == flatten_authorizations(s) + x.authorizations,
    decreases s.len(),
{
    if s.len() == 0 {
        assert(s.push(x)[0] == x);
        assert(s.push(x).skip(1) =~= Seq::<AuthorizedTransactionV>::empty());
        assert(flatten_authorizations(s.push(x)) == x.authorizations + flatten_authorizations(
            Seq::<AuthorizedTransactionV>::empty(),
        ));
        assert(x.authorizations + Seq::<Authorization>::empty() =~= x.authorizations);
        assert(Seq::<Authorization>::empty() + x.authorizations =~= x.authorizations);
    } else {
        assert(s.push(x)[0] == s[0]);
        assert(s.push(x).skip(1) =~= s.skip(1).push(x));
        lemma_flatten_authorizations_push(s.skip(1), x);
        assert(flatten_authorizations(s.push(x)) == s[0].authorizations + (flatten_authorizations(
            s.skip(1),
        ) + x.authorizations));
        assert(s[0].authorizations + (flatten_authorizations(s.skip(1)) + x.authorizations) =~= (
        s[0].authorizations + flatten_authorizations(s.skip(1))) + x.authorizations);
    }
}

impl Body {
    /// Bundle authorized transactions and a coinbase into a block body.
    pub fn new(authorized_transactions: Vec<AuthorizedTransaction>, coinbase: Vec<Output>) -> (r:
        Body)
        ensures
            r@.coinbase == coinbase@.map_values(|o: Output| o@),
            r@.transactions == authorized_transactions@.map_values(
                |t: AuthorizedTransaction| t@.transaction,
            ),
            r@.authorizations == flatten_authorizations(
                authorized_transactions@.map_values(|t: AuthorizedTransaction| t@),
            ),
    {
        let ghost ats = authorized_transactions@.map_values(|t: AuthorizedTransaction| t@);
        let mut transactions: Vec<Transaction> = Vec::new();
        let mut authorizations: Vec<Authorization> = Vec::new();
        let mut i: usize = 0;
        while i < authorized_transactions.len()
            invariant
                i <= authorized_transactions.len(),
                ats == authorized_transactions@.map_values(|t: AuthorizedTransaction| t@),
                transactions@.len() == i,
                forall|j: int| 0 <= j < i ==> #[trigger] transactions@[j]@ == ats[j].transaction,
                authorizations@ == flatten_authorizations(ats.take(i as int)),
            decreases authorized_transactions.len() - i,
        {
            let at = &authorized_transactions[i];
            transactions.push(crate::types::clone_transaction(&at.transaction));
            let mut auths = crate::types::clone_authorizations(&at.authorizations);
            authorizations.append(&mut auths);
            proof {
                lemma_flatten_authorizations_push(ats.take(i as int), ats[i as int]);
                assert(ats.take(i + 1 as int) =~= ats.take(i as int).push(ats[i as int]));
            }
            i += 1;
        }
        proof {
            assert(ats.take(ats.len() as int) =~= ats);
        }
        let r = Body { coinbase, transactions, authorizations };
        proof {
            assert(r@.transactions =~= authorized_transactions@.map_values(
                |t: AuthorizedTransaction| t@.transaction,
            ));
            assert(r@.coinbase =~= r.coinbase@.map_values(|o: Output| o@));
        }
        r
    }

    pub fn compute_merkle_root(&self) -> (r: MerkleRoot)
        ensures
            r == spec_merkle_root(self@.coinbase, self@.transactions),
    {
        let bytes = encode_block_pair(&self.coinbase, &self.transactions);
        let digest = blake3_hash32(&bytes);
        proof {
            lemma_arr32_from(digest);
        }
        MerkleRoot(digest)
    }

    /// All inputs spent by the body's transactions, in transaction-then-input
    /// order.
    pub fn get_inputs(&self) -> (r: Vec<OutPoint>)
        ensures
            r@ == body_inputs(self@.transactions),
    {
        let ghost txs = self@.transactions;
        let mut r: Vec<OutPoint> = Vec::new();
        let mut i: usize = 0;
        while i < self.transactions.len()
            invariant
                i <= self.transactions.len(),
                txs == self@.transactions,
                txs.len() == self.transactions.len(),
                forall|j: int| 0 <= j < txs.len() ==> txs[j] == self.transactions@[j]@,
                r@ == body_inputs(txs.take(i as int)),
            decreases self.transactions.len() - i,
        {
            let mut ins = crate::types::clone_outpoints(&self.transactions[i].inputs);
            r.append(&mut ins);
            proof {
                lemma_body_inputs_push(txs.take(i as int), txs[i as int]);
                assert(txs.take(i + 1 as int) =~= txs.take(i as int).push(txs[i as int]));
            }
            i += 1;
        }
        proof {
            assert(txs.take(txs.len() as int) =~= txs);
        }
        r
    }

    pub fn get_coinbase_value(&self) -> (r: Option<u64>)
        ensures
            match r {
                Some(v) => v == sum_output_values(self@.coinbase),
                None => sum_output_values(self@.coinbase) > u64::MAX,
            },
    {
        sum_outputs(&self.coinbase)
    }
}

/// All inputs of a sequence of transactions, in order.
pub open spec fn body_inputs(s: Seq<TransactionV>) -> Seq<OutPoint>
    decreases s.len(),
{
    if s.len() == 0 {
        Seq::empty()
    } else {
        s[0].inputs + body_inputs(s.skip(1))
    }
}

pub proof fn lemma_body_inputs_push(s: Seq<TransactionV>, x: TransactionV)
    ensures
        body_inputs(s.push(x)) == body_inputs(s) + x.inputs,
    decreases s.len(),
{
    if s.len() == 0 {
        assert(s.push(x)[0] == x);
        assert(s.push(x).skip(1) =~= Seq::<TransactionV>::empty());
        assert(body_inputs(s.push(x)) == x.inputs + body_inputs(Seq::<TransactionV>::empty()));
        assert(x.inputs + Seq::<OutPoint>::empty() =~= x.inputs);
        assert(Seq::<OutPoint>::empty() + x.inputs =~= x.inputs);
    } else {
        assert(s.push(x)[0] == s[0]);
        assert(s.push(x).skip(1) =~= s.skip(1).push(x));
        lemma_body_inputs_push(s.skip(1), x);
        assert(body_inputs(s.push(x)) == s[0].inputs + (body_inputs(s.skip(1)) + x.inputs));
        assert(s[0].inputs + (body_inputs(s.skip(1)) + x.inputs) =~= (s[0].inputs + body_inputs(
            s.skip(1),
        )) + x.inputs);
    }
}

/// The mathematical sum of a sequence of outputs' values.
pub open spec fn sum_output_values(s: Seq<OutputV>) -> int
    decreases s.len(),
{
    if s.len() == 0 {
        0
    } else {
        s[0].value() + sum_output_values(s.skip(1))
    }
}

pub proof fn lemma_sum_output_values_push(s: Seq<OutputV>, x: OutputV)
    ensures
        sum_output_values(s.push(x)) == sum_output_values(s) + x.value(),
    decreases s.len(),
{
    if s.len() == 0 {
        assert(s.push(x)[0] == x);
        assert(s.push(x).skip(1) =~= Seq::<OutputV>::empty());
        assert(sum_output_values(s.push(x)) == x.value() + sum_output_values(
            Seq::<OutputV>::empty(),
        ));
        assert(sum_output_values(Seq::<OutputV>::empty()) == 0);
        assert(sum_output_values(s) == 0);
    } else {
        assert(s.push(x)[0] == s[0]);
        assert(s.push(x).skip(1) =~= s.skip(1).push(x));
        lemma_sum_output_values_push(s.skip(1), x);
        assert(sum_output_values(s.push(x)) == s[0].value() + sum_output_values(s.skip(1).push(x)));
        assert(sum_output_values(s) == s[0].value() + sum_output_values(s.skip(1)));
    }
}

pub proof fn lemma_sum_output_values_nonneg(s: Seq<OutputV>)
    ensures
        sum_output_values(s) >= 0,
    decreases s.len(),
{
    if s.len() > 0 {
        lemma_sum_output_values_nonneg(s.skip(1));
    }
}

/// Sum a vector of outputs' values, reporting when the sum leaves `u64`.
pub fn sum_outputs(v: &Vec<Output>) -> (r: Option<u64>)
    ensures
        match r {
            Some(x) => x == sum_output_values(v@.map_values(|o: Output| o@)),
            None => sum_output_values(v@.map_values(|o: Output| o@)) > u64::MAX,
        },
{
    let ghost s = v@.map_values(|o: Output| o@);
    let mut acc: u64 = 0;
    let mut i: usize = 0;
    while i < v.len()
        invariant
            i <= v.len(),
            s == v@.map_values(|o: Output| o@),
            s.len() == v@.len(),
            forall|j: int| 0 <= j < s.len() ==> s[j] == v@[j]@,
            acc == sum_output_values(s.take(i as int)),
        decreases v.len() - i,
    {
        let value = crate::types::GetValue::get_value(&v[i]);
        proof {
            lemma_sum_output_values_push(s.take(i as int), s[i as int]);
            assert(s.take(i + 1 as int) =~= s.take(i as int).push(s[i as int]));
        }
        acc = match acc.checked_add(value) {
            Some(x) => x,
            None => {
                proof {
                    lemma_sum_partial_exceeds(s, i + 1 as int);
                }
                return None;
            },
        };
        i += 1;
    }
    proof {
        assert(s.take(s.len() as int) =~= s);
    }
    Some(acc)
}

/// A prefix sum that already exceeds `u64::MAX` bounds the whole sum below.
pub proof fn lemma_sum_partial_exceeds(s: Seq<OutputV>, i: int)
    requires
        0 <= i <= s.len(),
        sum_output_values(s.take(i)) > u64::MAX,
    ensures
        sum_output_values(s) > u64::MAX,
    decreases s.len() - i,
{
    if i < s.len() {
        lemma_sum_output_values_push(s.take(i), s[i]);
        assert(s.take(i + 1) =~= s.take(i).push(s[i]));
        lemma_sum_partial_exceeds(s, i + 1);
    } else {
        assert(s.take(i) =~= s);
    }
}

} // verus!

verus! {

/// The outpoints a coinbase creates, keyed by the merkle root and position.
pub open spec fn coinbase_entries(merkle_root: MerkleRoot, outs: Seq<OutputV>) -> Seq<
    (OutPoint, OutputV),
> {
    Seq::new(
        outs.len(),
        |i: int| (OutPoint::Coinbase { merkle_root, vout: i as u32 }, outs[i]),
    )
}

/// The outpoints one transaction creates, keyed by its txid and position.
pub open spec fn tx_entries(txid: crate::types::Txid, outs: Seq<OutputV>) -> Seq<
    (OutPoint, OutputV),
> {
    Seq::new(outs.len(), |i: int| (OutPoint::Regular { txid, vout: i as u32 }, outs[i]))
}

/// The outpoints a run of transactions creates, in order.
pub open spec fn txs_entries(txs: Seq<TransactionV>) -> Seq<(OutPoint, OutputV)>
    decreases txs.len(),
{
    if txs.len() == 0 {
        Seq::empty()
    } else {
        txs_entries(txs.drop_last()) + tx_entries(spec_txid(txs.last()), txs.last().outputs)
    }
}

/// Every output a body creates, with its outpoint: the coinbase outputs
/// first, then each transaction's, in order.
pub open spec fn spec_body_outputs(b: BodyV) -> Seq<(OutPoint, OutputV)> {
    coinbase_entries(spec_merkle_root(b.coinbase, b.transactions), b.coinbase) + txs_entries(
        b.transactions,
    )
}

impl Body {
    /// Every output this body creates, keyed by its outpoint.
    #[verifier::loop_isolation(false)]
    pub fn get_outputs(&self) -> (r: Vec<(OutPoint, Output)>)
        requires
            self@.coinbase.len() <= u32::MAX,
            forall|ti: int|
                0 <= ti < self@.transactions.len() ==> (
                #[trigger] self@.transactions[ti]).outputs.len() <= u32::MAX,
        ensures
            r@.map_values(|p: (OutPoint, Output)| (p.0, p.1@)) == spec_body_outputs(self@),
    {
        let ghost cb = self@.coinbase;
        let ghost txs = self@.transactions;
        let merkle_root = self.compute_merkle_root();
        let mut r: Vec<(OutPoint, Output)> = Vec::new();
        let mut i: usize = 0;
        while i < self.coinbase.len()
            invariant
                i <= self.coinbase@.len(),
                r@.len() == i,
                forall|k: int|
                    0 <= k < i ==> (#[trigger] r@[k]).0 == (OutPoint::Coinbase {
                        merkle_root,
                        vout: k as u32,
                    }) && r@[k].1@ == cb[k],
            decreases self.coinbase@.len() - i,
        {
            r.push(
                (
                    OutPoint::Coinbase { merkle_root, vout: i as u32 },
                    crate::types::clone_output(&self.coinbase[i]),
                ),
            );
            i += 1;
        }
        proof {
            assert(r@.map_values(|p: (OutPoint, Output)| (p.0, p.1@)) =~= coinbase_entries(
                merkle_root,
                cb,
            ));
            assert(txs_entries(txs.take(0)) =~= Seq::<(OutPoint, OutputV)>::empty());
        }
        let ghost head = coinbase_entries(merkle_root, cb);
        let mut ti: usize = 0;
        while ti < self.transactions.len()
            invariant
                ti <= self.transactions@.len(),
                r@.map_values(|p: (OutPoint, Output)| (p.0, p.1@)) == head + txs_entries(
                    txs.take(ti as int),
                ),
            decreases self.transactions@.len() - ti,
        {
            let tx = &self.transactions[ti];
            let txid = tx.txid();
            let ghost before = r@.map_values(|p: (OutPoint, Output)| (p.0, p.1@));
            proof {
                assert(txs.take(ti + 1 as int).drop_last() =~= txs.take(ti as int));
                assert(txs.take(ti + 1 as int).last() == txs[ti as int]);
                assert(tx@ == txs[ti as int]);
            }
            let mut k: usize = 0;
            while k < tx.outputs.len()
                invariant
                    k <= tx.outputs@.len(),
                    txid == spec_txid(txs[ti as int]),
                    tx.outputs@.len() == txs[ti as int].outputs.len(),
                    forall|m: int|
                        0 <= m < tx.outputs@.len() ==> tx.outputs@[m]@ == txs[
                        ti as int].outputs[m],
                    r@.map_values(|p: (OutPoint, Output)| (p.0, p.1@)) == before + tx_entries(
                        txid,
                        txs[ti as int].outputs,
                    ).take(k as int),
                decreases tx.outputs@.len() - k,
            {
                let op = OutPoint::Regular { txid, vout: k as u32 };
                let out = crate::types::clone_output(&tx.outputs[k]);
                let ghost ov = out@;
                proof {
                    assert(ov == txs[ti as int].outputs[k as int]);
                }
                let ghost old_map = r@.map_values(|p: (OutPoint, Output)| (p.0, p.1@));
                r.push((op, out));
                proof {
                    let entries = tx_entries(txid, txs[ti as int].outputs);
                    assert(entries[k as int] == (op, ov));
                    assert(entries.take(k + 1 as int) =~= entries.take(k as int).push((op, ov)));
                    let new_map = r@.map_values(|p: (OutPoint, Output)| (p.0, p.1@));
                    assert(new_map.len() == old_map.len() + 1);
                    assert(forall|j: int| 0 <= j < old_map.len() ==> #[trigger] new_map[j]
                        == old_map[j]);
                    assert(new_map[new_map.len() - 1] == (op, ov));
                    assert(new_map =~= old_map.push((op, ov)));
                    assert(new_map =~= before + entries.take(k + 1 as int));
                }
                k += 1;
            }
            proof {
                assert(tx_entries(txid, txs[ti as int].outputs).take(
                    tx_entries(txid, txs[ti as int].outputs).len() as int,
                ) =~= tx_entries(txid, txs[ti as int].outputs));
                assert(before + tx_entries(txid, txs[ti as int].outputs) =~= head + txs_entries(
                    txs.take(ti + 1 as int),
                ));
            }
            ti += 1;
        }
        proof {
            assert(txs.take(txs.len() as int) =~= txs);
        }
        r
    }
}

} // verus!
