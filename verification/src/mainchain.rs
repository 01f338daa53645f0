//! The mainchain bundle transaction: script construction, consensus bytes,
//! txid and weight (the last three through the mainchain library).

use vstd::prelude::*;
use crate::types::{MainTransaction, MainTransactionV};
use bitcoin::consensus::Encodable;
use bitcoin::hashes::Hash as MainDigest;
use bitcoin::{OutPoint as BtcOutPoint, ScriptBuf, Sequence, Transaction as BtcTransaction};
use bitcoin::{TxIn, TxOut, Txid as BtcTxid, Witness};
use bitcoin::absolute::LockTime;

verus! {

/// The mainchain's standard-transaction weight limit, in weight units.
pub const MAX_STANDARD_TX_WEIGHT: u64 = 400000;

/// Weight of a bundle transaction with no bundle outputs.
pub const BUNDLE_0_WEIGHT: u64 = 504;

/// Weight of a single bundle output.
pub const OUTPUT_WEIGHT: u64 = 128;

/// How many aggregated outputs a bundle accepts before it stops taking more.
pub const MAX_BUNDLE_OUTPUTS: usize = ((MAX_STANDARD_TX_WEIGHT - BUNDLE_0_WEIGHT)
    / OUTPUT_WEIGHT) as usize;

/// The consensus serialisation of a mainchain transaction; a function of the
/// transaction's fields alone.
pub uninterp spec fn main_tx_bytes_of(t: MainTransactionV) -> Seq<u8>;

/// The txid of a mainchain transaction; a function of its fields alone.
pub uninterp spec fn main_txid_of(t: MainTransactionV) -> Seq<u8>;

/// The weight of a mainchain transaction, in weight units; a function of its
/// fields alone.
pub uninterp spec fn main_tx_weight_of(t: MainTransactionV) -> u64;

/// Relies on the mainchain library's `Transaction`: `consensus_encode`
/// (serialisation), `txid` and `weight` are deterministic functions of the
/// transaction's fields, which this library's `MainTransaction` carries
/// one for one.
#[verifier::external_body]
pub fn finalize_main_tx(tx: &MainTransaction) -> (r: (Vec<u8>, [u8; 32], u64))
    ensures
        r.0@ == main_tx_bytes_of(tx@),
        r.1@ == main_txid_of(tx@),
        r.2 == main_tx_weight_of(tx@),
{
    let t = BtcTransaction {
        version: tx.version,
        lock_time: LockTime::from_consensus(tx.lock_time),
        input: tx.inputs.iter().map(|i| TxIn {
            previous_output: BtcOutPoint { txid: BtcTxid::from_byte_array(i.prev_txid.0), vout: i.prev_vout },
            script_sig: ScriptBuf::from_bytes(i.script_sig.clone()),
            sequence: Sequence(i.sequence), witness: Witness::new(),
        }).collect(),
        output: tx.outputs.iter().map(
            |o| TxOut { value: o.value, script_pubkey: ScriptBuf::from_bytes(o.script_pubkey.clone()) },
        ).collect(),
    };
    let mut raw = vec![];
    t.consensus_encode(&mut raw).unwrap();
    (raw, t.txid().to_byte_array(), t.weight().to_wu())
}

/// The bytes of an `OP_RETURN` script carrying a short data push.
pub open spec fn spec_op_return(data: Seq<u8>) -> Seq<u8> {
    seq![0x6au8, data.len() as u8] + data
}

/// Build an `OP_RETURN` script carrying up to 75 bytes of data.
pub fn op_return_script(data: &Vec<u8>) -> (r: Vec<u8>)
    requires
        data@.len() <= 75,
    ensures
        r@ == spec_op_return(data@),
{
    let mut r: Vec<u8> = Vec::new();
    r.push(0x6a);
    r.push(data.len() as u8);
    let mut i: usize = 0;
    while i < data.len()
        invariant
            i <= data@.len(),
            r@ == seq![0x6au8, data@.len() as u8] + data@.take(i as int),
        decreases data@.len() - i,
    {
        r.push(data[i]);
        proof {
            assert(data@.take(i + 1 as int) =~= data@.take(i as int).push(data@[i as int]));
            assert(r@ =~= seq![0x6au8, data@.len() as u8] + data@.take(i + 1 as int));
        }
        i += 1;
    }
    proof {
        assert(data@.take(data@.len() as int) =~= data@);
    }
    r
}

} // verus!
