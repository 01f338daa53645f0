//! The mainchain peg computations: deriving deposit outputs from the
//! mainchain's deposit reports, assembling bundle statuses, and preparing a
//! bundle transaction for broadcast. The RPC calls that feed and consume
//! these stay outside; they hand over plain records.

use vstd::prelude::*;
use crate::types::{
    DepositOutput, DepositOutputV, MainBlockHash, MainOutPoint, MainTransaction, MainTxid,
    WithdrawalBundleStatus,
};

verus! {

/// What can go wrong while deriving deposits.
#[derive(Clone, Copy, Debug, PartialEq, Eq)]
pub enum Error {
    /// A deposit's transaction hex does not decode.
    Hex,
    /// A deposit's transaction bytes do not parse as a mainchain transaction.
    BadTransaction,
    /// A deposit's burn index points past the transaction's outputs.
    BadBurnIndex,
}

// ---------------------------------------------------------------------------
// Hex, written out: the broadcast path encodes, the deposit path decodes.
// ---------------------------------------------------------------------------

/// The ASCII code of a nibble's lowercase hex digit.
pub open spec fn hex_digit(n: u8) -> u8 {
    if n < 10 {
        (0x30 + n) as u8
    } else {
        (0x57 + n) as u8
    }
}

/// Lowercase hex, two digits per byte.
pub open spec fn hex_ascii_of(b: Seq<u8>) -> Seq<u8>
    decreases b.len(),
{
    if b.len() == 0 {
        Seq::empty()
    } else {
        hex_ascii_of(b.drop_last()) + seq![
            hex_digit(b.last() / 16),
            hex_digit(b.last() % 16),
        ]
    }
}

/// The value of one hex digit, upper or lower case.
pub open spec fn hex_val(c: u8) -> Option<u8> {
    if 0x30 <= c <= 0x39 {
        Some((c - 0x30) as u8)
    } else if 0x61 <= c <= 0x66 {
        Some((c - 0x57) as u8)
    } else if 0x41 <= c <= 0x46 {
        Some((c - 0x37) as u8)
    } else {
        None
    }
}

/// The bytes a hex string denotes; `None` on an odd length or a bad digit.
pub open spec fn hex_decode_of(s: Seq<u8>) -> Option<Seq<u8>>
    decreases s.len(),
{
    if s.len() == 0 {
        Some(Seq::empty())
    } else if s.len() == 1 {
        None
    } else {
        match (hex_val(s[0]), hex_val(s[1])) {
            (Some(hi), Some(lo)) => match hex_decode_of(s.skip(2)) {
                Some(rest) => Some(seq![(hi * 16 + lo) as u8] + rest),
                None => None,
            },
            _ => None,
        }
    }
}

/// Encode bytes as lowercase hex.
pub fn hex_encode(bytes: &Vec<u8>) -> (r: Vec<u8>)
    ensures
        r@ == hex_ascii_of(bytes@),
{
    let mut r: Vec<u8> = Vec::new();
    let mut i: usize = 0;
    proof {
        assert(bytes@.take(0) =~= Seq::<u8>::empty());
        assert(r@ =~= hex_ascii_of(bytes@.take(0)));
    }
    while i < bytes.len()
        invariant
            i <= bytes@.len(),
            r@ == hex_ascii_of(bytes@.take(i as int)),
        decreases bytes@.len() - i,
    {
        let b = bytes[i];
        proof {
            assert(bytes@.take(i + 1 as int).drop_last() =~= bytes@.take(i as int));
            assert(bytes@.take(i + 1 as int).last() == bytes@[i as int]);
        }
        let hi = b / 16;
        let lo = b % 16;
        r.push(if hi < 10 {
            0x30 + hi
        } else {
            0x57 + hi
        });
        r.push(if lo < 10 {
            0x30 + lo
        } else {
            0x57 + lo
        });
        proof {
            assert(r@ =~= hex_ascii_of(bytes@.take(i + 1 as int)));
        }
        i += 1;
    }
    proof {
        assert(bytes@.take(bytes@.len() as int) =~= bytes@);
    }
    r
}

/// Decode a hex string's bytes.
pub fn hex_decode(s: &[u8]) -> (r: Option<Vec<u8>>)
    ensures
        match r {
            Some(v) => hex_decode_of(s@) == Some(v@),
            None => hex_decode_of(s@) is None,
        },
{
    if s.len() % 2 != 0 {
        proof {
            lemma_hex_decode_odd(s@);
        }
        return None;
    }
    let mut r: Vec<u8> = Vec::new();
    let mut i: usize = 0;
    proof {
        assert(s@.skip(0) =~= s@);
        assert(r@ =~= Seq::<u8>::empty());
        if hex_decode_of(s@) is Some {
            assert(r@ + hex_decode_of(s@)->0 =~= hex_decode_of(s@)->0);
        }
    }
    while i < s.len()
        invariant
            i <= s@.len(),
            i % 2 == 0,
            s@.len() % 2 == 0,
            match hex_decode_of(s@.skip(i as int)) {
                Some(rest) => hex_decode_of(s@) == Some(r@ + rest),
                None => hex_decode_of(s@) is None,
            },
        decreases s@.len() - i,
    {
        proof {
            assert(s@.skip(i as int)[0] == s@[i as int]);
            assert(s@.skip(i as int)[1] == s@[i + 1]);
            assert(s@.skip(i as int).skip(2) =~= s@.skip(i + 2));
            assert(s@.skip(i as int).len() >= 2);
        }
        let hi = match hex_val_exec(s[i]) {
            Some(x) => x,
            None => {
                proof {
                    assert(hex_decode_of(s@.skip(i as int)) is None);
                }
                return None;
            },
        };
        let lo = match hex_val_exec(s[i + 1]) {
            Some(x) => x,
            None => {
                proof {
                    assert(hex_decode_of(s@.skip(i as int)) is None);
                }
                return None;
            },
        };
        let b = hi * 16 + lo;
        proof {
            match hex_decode_of(s@.skip(i + 2)) {
                Some(tail) => {
                    assert(hex_decode_of(s@.skip(i as int)) == Some(seq![b] + tail));
                    assert(r@ + (seq![b] + tail) =~= r@.push(b) + tail);
                }
                None => {
                    assert(hex_decode_of(s@.skip(i as int)) is None);
                }
            }
        }
        r.push(b);
        i += 1;
        i += 1;
    }
    proof {
        assert(s@.skip(s@.len() as int) =~= Seq::<u8>::empty());
        assert(hex_decode_of(Seq::<u8>::empty()) == Some(Seq::<u8>::empty()));
        assert(r@ + Seq::<u8>::empty() =~= r@);
    }
    Some(r)
}

/// The value of one hex digit.
fn hex_val_exec(c: u8) -> (r: Option<u8>)
    ensures
        r == hex_val(c),
{
    if 0x30 <= c && c <= 0x39 {
        Some(c - 0x30)
    } else if 0x61 <= c && c <= 0x66 {
        Some(c - 0x57)
    } else if 0x41 <= c && c <= 0x46 {
        Some(c - 0x37)
    } else {
        None
    }
}

pub proof fn lemma_hex_decode_odd(s: Seq<u8>)
    requires
        s.len() % 2 == 1,
    ensures
        hex_decode_of(s) is None,
    decreases s.len(),
{
    if s.len() > 1 {
        lemma_hex_decode_odd(s.skip(2));
    }
}

/// A decodable string has even length.
pub proof fn lemma_hex_decode_even(s: Seq<u8>)
    requires
        hex_decode_of(s) is Some,
    ensures
        s.len() % 2 == 0,
    decreases s.len(),
{
    if s.len() > 1 {
        lemma_hex_decode_even(s.skip(2));
    }
}

/// Law: hex decoding inverts hex encoding.
pub proof fn lemma_hex_round_trip(b: Seq<u8>)
    ensures
        hex_decode_of(hex_ascii_of(b)) == Some(b),
    decreases b.len(),
{
    if b.len() == 0 {
        assert(hex_ascii_of(b) =~= Seq::<u8>::empty());
        assert(Seq::<u8>::empty() =~= b);
    } else {
        lemma_hex_round_trip(b.drop_last());
        lemma_hex_append_pair(b.drop_last(), b.last());
        assert(b.drop_last().push(b.last()) =~= b);
    }
}

/// Appending one byte appends its two digits, and the decode follows.
pub proof fn lemma_hex_append_pair(b: Seq<u8>, x: u8)
    requires
        hex_decode_of(hex_ascii_of(b)) == Some(b),
    ensures
        hex_decode_of(hex_ascii_of(b.push(x))) == Some(b.push(x)),
    decreases b.len(),
{
    assert(b.push(x).drop_last() =~= b);
    assert(b.push(x).last() == x);
    let digits = seq![hex_digit(x / 16), hex_digit(x % 16)];
    assert(hex_ascii_of(b.push(x)) == hex_ascii_of(b) + digits);
    lemma_hex_decode_append(hex_ascii_of(b), b, x);
}

/// Decoding distributes over appending one digit pair.
pub proof fn lemma_hex_decode_append(s: Seq<u8>, b: Seq<u8>, x: u8)
    requires
        hex_decode_of(s) == Some(b),
    ensures
        hex_decode_of(s + seq![hex_digit(x / 16), hex_digit(x % 16)]) == Some(b.push(x)),
    decreases s.len(),
{
    let digits = seq![hex_digit(x / 16), hex_digit(x % 16)];
    if s.len() == 0 {
        let t = s + digits;
        assert(t.len() == 2);
        assert(t[0] == hex_digit(x / 16));
        assert(t[1] == hex_digit(x % 16));
        assert(hex_val(hex_digit(x / 16)) == Some((x / 16) as u8));
        assert(hex_val(hex_digit(x % 16)) == Some((x % 16) as u8));
        assert(t.skip(2) =~= Seq::<u8>::empty());
        assert((x / 16) * 16 + (x % 16) == x);
        assert(b =~= Seq::<u8>::empty());
        assert(seq![x] + Seq::<u8>::empty() =~= b.push(x));
        assert(hex_decode_of(t) == Some(seq![((x / 16) * 16 + (x % 16)) as u8] + hex_decode_of(
            t.skip(2),
        )->0));
        assert(hex_decode_of(t) == Some(b.push(x)));
    } else {
        lemma_hex_decode_even(s);
        assert(s.len() >= 2);
        let t = s + digits;
        assert(t[0] == s[0]);
        assert(t[1] == s[1]);
        assert(t.skip(2) =~= s.skip(2) + digits);
        match (hex_val(s[0]), hex_val(s[1])) {
            (Some(hi), Some(lo)) => {
                match hex_decode_of(s.skip(2)) {
                    Some(rest) => {
                        assert(b == seq![(hi * 16 + lo) as u8] + rest);
                        lemma_hex_decode_append(s.skip(2), rest, x);
                        assert(hex_decode_of(t.skip(2)) == Some(rest.push(x)));
                        assert(hex_decode_of(t) == Some(seq![(hi * 16 + lo) as u8] + rest.push(
                            x,
                        )));
                        assert(seq![(hi * 16 + lo) as u8] + rest.push(x) =~= b.push(x));
                    }
                    None => {
                        assert(false);
                    }
                }
            }
            _ => {
                assert(false);
            }
        }
    }
}

} // verus!

verus! {

/// One deposit as reported by `listsidechaindepositsbyblock`: the raw
/// transaction's hex bytes, the mainchain block it confirmed in, the burn
/// output's index, and the destination string.
#[derive(Clone, Debug, PartialEq, Eq)]
pub struct DepositRecord {
    pub txhex: Vec<u8>,
    pub hashblock: MainBlockHash,
    pub nburnindex: usize,
    pub strdest: String,
}

/// View of [`DepositRecord`].
#[verifier::ext_equal]
pub struct DepositRecordV {
    pub txhex: Seq<u8>,
    pub hashblock: MainBlockHash,
    pub nburnindex: usize,
    pub strdest: Seq<char>,
}

impl View for DepositRecord {
    type V = DepositRecordV;

    open spec fn view(&self) -> DepositRecordV {
        DepositRecordV {
            txhex: self.txhex@,
            hashblock: self.hashblock,
            nburnindex: self.nburnindex,
            strdest: self.strdest@,
        }
    }
}

/// What parsing a mainchain transaction's consensus bytes yields: its txid
/// and its outputs' values, or nothing. A function of the bytes alone.
pub uninterp spec fn main_tx_parse_of(b: Seq<u8>) -> Option<(Seq<u8>, Seq<u64>)>;

/// Relies on the mainchain library's `Transaction::consensus_decode` and
/// `Transaction::txid`: both are deterministic functions of the input bytes.
#[verifier::external_body]
fn parse_main_tx(bytes: &Vec<u8>) -> (r: Option<(MainTxid, Vec<u64>)>)
    ensures
        match r {
            Some((txid, values)) => main_tx_parse_of(bytes@) == Some((txid.0@, values@)),
            None => main_tx_parse_of(bytes@) is None,
        },
{
    let tx = match <bitcoin::Transaction as bitcoin::consensus::Decodable>::consensus_decode(
        &mut std::io::Cursor::new(bytes),
    ) {
        Ok(tx) => tx,
        Err(_) => return None,
    };
    let txid = <bitcoin::Txid as bitcoin::hashes::Hash>::to_byte_array(tx.txid());
    let values = tx.output.iter().map(|o| o.value).collect();
    Some((MainTxid(txid), values))
}

/// The state the deposit fold carries: the outputs derived so far, the
/// running burn total, and the last deposit block seen.
#[verifier::ext_equal]
pub struct DepositAcc {
    pub outputs: Seq<(MainOutPoint, DepositOutputV)>,
    pub last_total: u64,
    pub last_block_hash: Option<MainBlockHash>,
}

/// Fold one deposit report: the start block's record resets the baseline;
/// a falling total resets it too; otherwise the increment is the deposited
/// value, and a destination that does not parse forfeits the record.
pub open spec fn spec_deposit_step(
    acc: DepositAcc,
    rec: DepositRecordV,
    start: Option<MainBlockHash>,
) -> Result<DepositAcc, Error> {
    match hex_decode_of(rec.txhex) {
        None => Err(Error::Hex),
        Some(txbytes) => match main_tx_parse_of(txbytes) {
            None => Err(Error::BadTransaction),
            Some((txid_bytes, values)) => if rec.nburnindex >= values.len() || rec.nburnindex
                > u32::MAX {
                Err(Error::BadBurnIndex)
            } else {
                let total = values[rec.nburnindex as int];
                if start == Some(rec.hashblock) {
                    Ok(DepositAcc { last_total: total, ..acc })
                } else if total < acc.last_total {
                    Ok(DepositAcc { last_total: total, ..acc })
                } else {
                    let value = (total - acc.last_total) as u64;
                    let outpoint = MainOutPoint {
                        txid: MainTxid(crate::codec::arr32_from(txid_bytes)),
                        vout: rec.nburnindex as u32,
                    };
                    let moved = DepositAcc {
                        outputs: acc.outputs,
                        last_total: total,
                        last_block_hash: Some(rec.hashblock),
                    };
                    match crate::address::spec_parse_address(rec.strdest) {
                        None => Ok(moved),
                        Some(_) => Ok(
                            DepositAcc {
                                outputs: moved.outputs.push(
                                    (
                                        outpoint,
                                        DepositOutputV { address: rec.strdest, value },
                                    ),
                                ),
                                ..moved
                            },
                        ),
                    }
                }
            },
        },
    }
}

/// Fold all deposit reports, in report order.
pub open spec fn spec_deposit_fold(
    records: Seq<DepositRecordV>,
    start: Option<MainBlockHash>,
) -> Result<DepositAcc, Error>
    decreases records.len(),
{
    if records.len() == 0 {
        Ok(DepositAcc { outputs: Seq::empty(), last_total: 0, last_block_hash: None })
    } else {
        match spec_deposit_fold(records.drop_last(), start) {
            Ok(acc) => spec_deposit_step(acc, records.last(), start),
            Err(e) => Err(e),
        }
    }
}

/// Once the deposit fold fails on a prefix, it fails on the whole list with
/// the same error.
pub proof fn lemma_deposit_fold_err_persists(
    records: Seq<DepositRecordV>,
    start: Option<MainBlockHash>,
    i: int,
)
    requires
        0 <= i <= records.len(),
        spec_deposit_fold(records.take(i), start) is Err,
    ensures
        spec_deposit_fold(records, start) == spec_deposit_fold(records.take(i), start),
    decreases records.len() - i,
{
    if i < records.len() {
        assert(records.take(i + 1).drop_last() =~= records.take(i));
        assert(records.take(i + 1).last() == records[i]);
        lemma_deposit_fold_err_persists(records, start, i + 1);
    } else {
        assert(records.take(i) =~= records);
    }
}

/// Derive the deposit outputs of a mainchain hash range from the reported
/// records: each record's burn total minus the previous one, keyed by the
/// burn output, destined to the record's string.
#[verifier::loop_isolation(false)]
pub fn get_deposit_outputs(records: &Vec<DepositRecord>, start: Option<MainBlockHash>) -> (r:
    Result<(Vec<(MainOutPoint, DepositOutput)>, Option<MainBlockHash>), Error>)
    ensures
        ({
            let recs = records@.map_values(|d: DepositRecord| d@);
            match r {
                Ok((outputs, last_block_hash)) => match spec_deposit_fold(recs, start) {
                    Ok(acc) => {
                        &&& outputs@.map_values(|p: (MainOutPoint, DepositOutput)| (p.0, p.1@))
                            == acc.outputs
                        &&& last_block_hash == acc.last_block_hash
                    },
                    Err(_) => false,
                },
                Err(e) => spec_deposit_fold(recs, start) == Err::<DepositAcc, Error>(e),
            }
        }),
{
    let ghost recs = records@.map_values(|d: DepositRecord| d@);
    let mut outputs: Vec<(MainOutPoint, DepositOutput)> = Vec::new();
    let mut last_total: u64 = 0;
    let mut last_block_hash: Option<MainBlockHash> = None;
    let mut i: usize = 0;
    proof {
        assert(recs.take(0) =~= Seq::<DepositRecordV>::empty());
        assert(outputs@.map_values(|p: (MainOutPoint, DepositOutput)| (p.0, p.1@)) =~= Seq::<
            (MainOutPoint, DepositOutputV),
        >::empty());
    }
    while i < records.len()
        invariant
            i <= records@.len(),
            spec_deposit_fold(recs.take(i as int), start) == Ok::<DepositAcc, Error>(
                DepositAcc {
                    outputs: outputs@.map_values(
                        |p: (MainOutPoint, DepositOutput)| (p.0, p.1@),
                    ),
                    last_total: last_total,
                    last_block_hash: last_block_hash,
                },
            ),
        decreases records@.len() - i,
    {
        let ghost out_v = outputs@.map_values(|p: (MainOutPoint, DepositOutput)| (p.0, p.1@));
        proof {
            assert(recs.take(i + 1 as int).drop_last() =~= recs.take(i as int));
            assert(recs.take(i + 1 as int).last() == recs[i as int]);
            assert(recs[i as int] == records@[i as int]@);
        }
        let rec = &records[i];
        let txbytes = match hex_decode(rec.txhex.as_slice()) {
            Some(b) => b,
            None => {
                proof {
                    lemma_deposit_fold_err_persists(recs, start, i + 1 as int);
                }
                return Err(Error::Hex);
            },
        };
        let (txid, values) = match parse_main_tx(&txbytes) {
            Some(x) => x,
            None => {
                proof {
                    lemma_deposit_fold_err_persists(recs, start, i + 1 as int);
                }
                return Err(Error::BadTransaction);
            },
        };
        if rec.nburnindex >= values.len() || rec.nburnindex > u32::MAX as usize {
            proof {
                lemma_deposit_fold_err_persists(recs, start, i + 1 as int);
            }
            return Err(Error::BadBurnIndex);
        }
        let total = values[rec.nburnindex];
        let is_start = match (&start, &rec.hashblock) {
            (Some(s), h) => crate::types::main_block_hash_eq(s, h),
            (None, _) => false,
        };
        proof {
            assert(is_start == (start == Some(recs[i as int].hashblock)));
            crate::codec::lemma_arr32_from(txid.0);
        }
        if is_start {
            last_total = total;
        } else if total < last_total {
            last_total = total;
        } else {
            let value = total - last_total;
            let outpoint = MainOutPoint { txid, vout: rec.nburnindex as u32 };
            last_total = total;
            last_block_hash = Some(rec.hashblock);
            match crate::types::Address::from_str(rec.strdest.as_str()) {
                Ok(_) => {
                    let dest = rec.strdest.clone();
                    proof {
                        assert(dest@ == recs[i as int].strdest);
                    }
                    outputs.push((outpoint, DepositOutput { address: dest, value }));
                    proof {
                        assert(outputs@.map_values(
                            |p: (MainOutPoint, DepositOutput)| (p.0, p.1@),
                        ) =~= out_v.push(
                            (
                                outpoint,
                                DepositOutputV { address: recs[i as int].strdest, value },
                            ),
                        ));
                    }
                }
                Err(_) => {}
            }
        }
        i += 1;
    }
    proof {
        assert(recs.take(recs.len() as int) =~= recs);
    }
    Ok((outputs, last_block_hash))
}

/// A spent (confirmed) withdrawal bundle as reported by the mainchain.
#[derive(Clone, Copy, Debug, PartialEq, Eq)]
pub struct SpentWithdrawal {
    pub hash: MainTxid,
    pub nsidechain: u8,
}

/// A failed withdrawal bundle as reported by the mainchain.
#[derive(Clone, Copy, Debug, PartialEq, Eq)]
pub struct FailedWithdrawal {
    pub hash: MainTxid,
}

/// Bind a status to a txid, overwriting an earlier binding.
pub open spec fn put_status(
    s: Seq<(MainTxid, WithdrawalBundleStatus)>,
    txid: MainTxid,
    status: WithdrawalBundleStatus,
) -> Seq<(MainTxid, WithdrawalBundleStatus)>
    decreases s.len(),
{
    if s.len() == 0 {
        seq![(txid, status)]
    } else if s[0].0 == txid {
        seq![(txid, status)] + s.skip(1)
    } else {
        seq![s[0]] + put_status(s.skip(1), txid, status)
    }
}

pub proof fn lemma_put_status_index(
    s: Seq<(MainTxid, WithdrawalBundleStatus)>,
    txid: MainTxid,
    status: WithdrawalBundleStatus,
    i: int,
)
    requires
        0 <= i < s.len(),
        s[i].0 == txid,
        forall|j: int| 0 <= j < i ==> (#[trigger] s[j]).0 != txid,
    ensures
        put_status(s, txid, status) == s.update(i, (txid, status)),
    decreases i,
{
    if i == 0 {
        assert(seq![(txid, status)] + s.skip(1) =~= s.update(0, (txid, status)));
    } else {
        lemma_put_status_index(s.skip(1), txid, status, i - 1);
        assert(seq![s[0]] + s.skip(1).update(i - 1, (txid, status)) =~= s.update(
            i,
            (txid, status),
        ));
    }
}

pub proof fn lemma_put_status_absent(
    s: Seq<(MainTxid, WithdrawalBundleStatus)>,
    txid: MainTxid,
    status: WithdrawalBundleStatus,
)
    requires
        forall|j: int| 0 <= j < s.len() ==> (#[trigger] s[j]).0 != txid,
    ensures
        put_status(s, txid, status) == s.push((txid, status)),
    decreases s.len(),
{
    if s.len() == 0 {
        assert(seq![(txid, status)] =~= s.push((txid, status)));
    } else {
        assert(forall|j: int|
            0 <= j < s.skip(1).len() ==> (#[trigger] s.skip(1)[j]).0 != txid) by {
            assert(forall|j: int| 0 <= j < s.skip(1).len() ==> s.skip(1)[j] == s[j + 1]);
        }
        lemma_put_status_absent(s.skip(1), txid, status);
        assert(seq![s[0]] + s.skip(1).push((txid, status)) =~= s.push((txid, status)));
    }
}

/// The confirmed bundles of this sidechain, folded in report order.
pub open spec fn spec_spent_fold(
    s: Seq<SpentWithdrawal>,
    this_sidechain: u8,
) -> Seq<(MainTxid, WithdrawalBundleStatus)>
    decreases s.len(),
{
    if s.len() == 0 {
        Seq::empty()
    } else {
        let prev = spec_spent_fold(s.drop_last(), this_sidechain);
        if s.last().nsidechain == this_sidechain {
            put_status(prev, s.last().hash, WithdrawalBundleStatus::Confirmed)
        } else {
            prev
        }
    }
}

/// The failed bundles folded on top, overriding confirmed entries.
pub open spec fn spec_failed_fold(
    acc: Seq<(MainTxid, WithdrawalBundleStatus)>,
    s: Seq<FailedWithdrawal>,
) -> Seq<(MainTxid, WithdrawalBundleStatus)>
    decreases s.len(),
{
    if s.len() == 0 {
        acc
    } else {
        put_status(
            spec_failed_fold(acc, s.drop_last()),
            s.last().hash,
            WithdrawalBundleStatus::Failed,
        )
    }
}

/// Assemble the bundle statuses from the mainchain's spent and failed
/// withdrawal reports: spent bundles of this sidechain are confirmed, and a
/// failure report overrides.
#[verifier::loop_isolation(false)]
pub fn get_withdrawal_bundle_statuses(
    spent: &Vec<SpentWithdrawal>,
    failed: &Vec<FailedWithdrawal>,
    this_sidechain: u8,
) -> (r: Vec<(MainTxid, WithdrawalBundleStatus)>)
    ensures
        r@ == spec_failed_fold(spec_spent_fold(spent@, this_sidechain), failed@),
{
    let mut statuses: Vec<(MainTxid, WithdrawalBundleStatus)> = Vec::new();
    let mut i: usize = 0;
    proof {
        assert(spent@.take(0) =~= Seq::<SpentWithdrawal>::empty());
        assert(statuses@ =~= Seq::<(MainTxid, WithdrawalBundleStatus)>::empty());
    }
    while i < spent.len()
        invariant
            i <= spent@.len(),
            statuses@ == spec_spent_fold(spent@.take(i as int), this_sidechain),
        decreases spent@.len() - i,
    {
        proof {
            assert(spent@.take(i + 1 as int).drop_last() =~= spent@.take(i as int));
            assert(spent@.take(i + 1 as int).last() == spent@[i as int]);
        }
        if spent[i].nsidechain == this_sidechain {
            statuses_put(&mut statuses, spent[i].hash, WithdrawalBundleStatus::Confirmed);
        }
        i += 1;
    }
    proof {
        assert(spent@.take(spent@.len() as int) =~= spent@);
    }
    let ghost base = statuses@;
    let mut i: usize = 0;
    proof {
        assert(failed@.take(0) =~= Seq::<FailedWithdrawal>::empty());
    }
    while i < failed.len()
        invariant
            i <= failed@.len(),
            statuses@ == spec_failed_fold(base, failed@.take(i as int)),
        decreases failed@.len() - i,
    {
        proof {
            assert(failed@.take(i + 1 as int).drop_last() =~= failed@.take(i as int));
            assert(failed@.take(i + 1 as int).last() == failed@[i as int]);
        }
        statuses_put(&mut statuses, failed[i].hash, WithdrawalBundleStatus::Failed);
        i += 1;
    }
    proof {
        assert(failed@.take(failed@.len() as int) =~= failed@);
    }
    statuses
}

/// Bind a status in the vector, overwriting an earlier binding.
#[verifier::loop_isolation(false)]
fn statuses_put(
    statuses: &mut Vec<(MainTxid, WithdrawalBundleStatus)>,
    txid: MainTxid,
    status: WithdrawalBundleStatus,
)
    ensures
        final(statuses)@ == put_status(old(statuses)@, txid, status),
{
    let ghost s0 = statuses@;
    let mut j: usize = 0;
    while j < statuses.len()
        invariant
            j <= statuses@.len(),
            statuses@ == s0,
            forall|k: int| 0 <= k < j ==> (#[trigger] s0[k]).0 != txid,
        decreases statuses@.len() - j,
    {
        if crate::types::main_txid_eq(&statuses[j].0, &txid) {
            proof {
                lemma_put_status_index(s0, txid, status, j as int);
            }
            let _ = statuses.remove(j);
            statuses.insert(j, (txid, status));
            proof {
                assert(statuses@ =~= s0.update(j as int, (txid, status)));
            }
            return ;
        }
        j += 1;
    }
    proof {
        lemma_put_status_absent(s0, txid, status);
    }
    statuses.push((txid, status));
}

/// The lowercase hex of a bundle transaction's consensus bytes: what
/// `receivewithdrawalbundle` is handed.
pub fn bundle_raw_tx_hex(transaction: &MainTransaction) -> (r: Vec<u8>)
    ensures
        r@ == hex_ascii_of(crate::mainchain::main_tx_bytes_of(transaction@)),
{
    let finalized = crate::mainchain::finalize_main_tx(transaction);
    hex_encode(&finalized.0)
}

} // verus!
