//! The byte codec of the peer wire protocol and of content hashing.
//!
//! Fixed-width integers are little-endian; sequences carry a `u64`
//! element count; enums carry a `u32` variant tag; fixed-size digests and
//! keys are raw bytes. Every decoder is proved to invert the matching
//! encoder (the round-trip lemmas at the end of this file).

use vstd::prelude::*;
use vstd::bytes::*;
use crate::types::{
    Address, Authorization, AuthorizedTransaction, AuthorizedTransactionV, BlockHash, Body, BodyV,
    Content, ContentV, Header, MainAddress, MainBlockHash, MainOutPoint, MainTxid, MerkleRoot,
    OutPoint, Output,
    OutputV, PeerState, Request, RequestV, Response, ResponseV, Transaction, TransactionV, Txid,
};

verus! {

// ---------------------------------------------------------------------------
// Reconstructing fixed-size arrays from their byte views.
// ---------------------------------------------------------------------------

pub open spec fn arr20_from(s: Seq<u8>) -> [u8; 20] {
    choose|a: [u8; 20]| a@ == s
}

pub open spec fn arr32_from(s: Seq<u8>) -> [u8; 32] {
    choose|a: [u8; 32]| a@ == s
}

pub open spec fn arr64_from(s: Seq<u8>) -> [u8; 64] {
    choose|a: [u8; 64]| a@ == s
}

pub proof fn lemma_arr20_from(a: [u8; 20])
    ensures
        arr20_from(a@) == a,
{
    let b = arr20_from(a@);
    assert(a@ == a@);
    assert(b@ == a@);
    assert(b =~= a);
}

pub proof fn lemma_arr32_from(a: [u8; 32])
    ensures
        arr32_from(a@) == a,
{
    let b = arr32_from(a@);
    assert(a@ == a@);
    assert(b@ == a@);
    assert(b =~= a);
}

pub proof fn lemma_arr64_from(a: [u8; 64])
    ensures
        arr64_from(a@) == a,
{
    let b = arr64_from(a@);
    assert(a@ == a@);
    assert(b@ == a@);
    assert(b =~= a);
}

// ---------------------------------------------------------------------------
// Specification: encoders.
// ---------------------------------------------------------------------------

pub open spec fn enc_u32(x: u32) -> Seq<u8> {
    spec_u32_to_le_bytes(x)
}

pub open spec fn enc_u64(x: u64) -> Seq<u8> {
    spec_u64_to_le_bytes(x)
}

/// Variable-length byte string: count, then the bytes.
pub open spec fn enc_byte_seq(s: Seq<u8>) -> Seq<u8> {
    enc_u64(s.len() as u64) + s
}

pub open spec fn enc_outpoint(o: OutPoint) -> Seq<u8> {
    match o {
        OutPoint::Regular { txid, vout } => enc_u32(0) + txid.0@ + enc_u32(vout),
        OutPoint::Coinbase { merkle_root, vout } => enc_u32(1) + merkle_root.0@ + enc_u32(vout),
        OutPoint::Deposit(main) => enc_u32(2) + main.txid.0@ + enc_u32(main.vout),
    }
}

pub open spec fn enc_content(c: ContentV) -> Seq<u8> {
    match c {
        ContentV::Value(value) => enc_u32(0) + enc_u64(value),
        ContentV::Withdrawal { value, main_fee, main_address } => enc_u32(1) + enc_u64(value)
            + enc_u64(main_fee) + enc_byte_seq(main_address),
    }
}

pub open spec fn enc_output(o: OutputV) -> Seq<u8> {
    o.address.0@ + enc_content(o.content)
}

pub open spec fn enc_authorization(a: Authorization) -> Seq<u8> {
    a.public_key@ + a.signature@
}

pub open spec fn enc_outpoints_items(s: Seq<OutPoint>) -> Seq<u8>
    decreases s.len(),
{
    if s.len() == 0 {
        Seq::empty()
    } else {
        enc_outpoint(s[0]) + enc_outpoints_items(s.skip(1))
    }
}

pub open spec fn enc_outpoints(s: Seq<OutPoint>) -> Seq<u8> {
    enc_u64(s.len() as u64) + enc_outpoints_items(s)
}

pub open spec fn enc_outputs_items(s: Seq<OutputV>) -> Seq<u8>
    decreases s.len(),
{
    if s.len() == 0 {
        Seq::empty()
    } else {
        enc_output(s[0]) + enc_outputs_items(s.skip(1))
    }
}

pub open spec fn enc_outputs(s: Seq<OutputV>) -> Seq<u8> {
    enc_u64(s.len() as u64) + enc_outputs_items(s)
}

pub open spec fn enc_transaction(t: TransactionV) -> Seq<u8> {
    enc_outpoints(t.inputs) + enc_outputs(t.outputs)
}

pub open spec fn enc_transactions_items(s: Seq<TransactionV>) -> Seq<u8>
    decreases s.len(),
{
    if s.len() == 0 {
        Seq::empty()
    } else {
        enc_transaction(s[0]) + enc_transactions_items(s.skip(1))
    }
}

pub open spec fn enc_transactions(s: Seq<TransactionV>) -> Seq<u8> {
    enc_u64(s.len() as u64) + enc_transactions_items(s)
}

pub open spec fn enc_authorizations_items(s: Seq<Authorization>) -> Seq<u8>
    decreases s.len(),
{
    if s.len() == 0 {
        Seq::empty()
    } else {
        enc_authorization(s[0]) + enc_authorizations_items(s.skip(1))
    }
}

pub open spec fn enc_authorizations(s: Seq<Authorization>) -> Seq<u8> {
    enc_u64(s.len() as u64) + enc_authorizations_items(s)
}

pub open spec fn enc_authorized_transaction(t: AuthorizedTransactionV) -> Seq<u8> {
    enc_transaction(t.transaction) + enc_authorizations(t.authorizations)
}

/// The `(coinbase, transactions)` pair whose hash is a body's merkle root.
pub open spec fn enc_block_pair(coinbase: Seq<OutputV>, transactions: Seq<TransactionV>) -> Seq<
    u8,
> {
    enc_outputs(coinbase) + enc_transactions(transactions)
}

pub open spec fn enc_body(b: BodyV) -> Seq<u8> {
    enc_outputs(b.coinbase) + enc_transactions(b.transactions) + enc_authorizations(
        b.authorizations,
    )
}

pub open spec fn enc_header(h: Header) -> Seq<u8> {
    h.merkle_root.0@ + h.prev_side_hash.0@ + h.prev_main_hash.0@
}

pub open spec fn enc_peer_state(p: PeerState) -> Seq<u8> {
    enc_u32(p.block_height)
}

pub open spec fn enc_request(r: RequestV) -> Seq<u8> {
    match r {
        RequestV::GetBlock { height } => enc_u32(0) + enc_u32(height),
        RequestV::PushTransaction { transaction } => enc_u32(1) + enc_authorized_transaction(
            transaction,
        ),
    }
}

pub open spec fn enc_response(r: ResponseV) -> Seq<u8> {
    match r {
        ResponseV::Block { header, body } => enc_u32(0) + enc_header(header) + enc_body(body),
        ResponseV::NoBlock => enc_u32(1),
        ResponseV::TransactionAccepted => enc_u32(2),
        ResponseV::TransactionRejected => enc_u32(3),
    }
}

// ---------------------------------------------------------------------------
// Specification: well-formedness needed for a value to be encodable
// (every sequence length must fit the u64 count).
// ---------------------------------------------------------------------------

pub open spec fn content_wf(c: ContentV) -> bool {
    match c {
        ContentV::Value(_) => true,
        ContentV::Withdrawal { main_address, .. } => main_address.len() <= u64::MAX,
    }
}

pub open spec fn output_wf(o: OutputV) -> bool {
    o.address.0@.len() == 20 && content_wf(o.content)
}

pub open spec fn transaction_wf(t: TransactionV) -> bool {
    &&& t.inputs.len() <= u64::MAX
    &&& t.outputs.len() <= u64::MAX
    &&& forall|i: int| 0 <= i < t.outputs.len() ==> output_wf(#[trigger] t.outputs[i])
}

pub open spec fn authorized_transaction_wf(t: AuthorizedTransactionV) -> bool {
    transaction_wf(t.transaction) && t.authorizations.len() <= u64::MAX
}

pub open spec fn body_wf(b: BodyV) -> bool {
    &&& b.coinbase.len() <= u64::MAX
    &&& b.transactions.len() <= u64::MAX
    &&& b.authorizations.len() <= u64::MAX
    &&& forall|i: int| 0 <= i < b.coinbase.len() ==> output_wf(#[trigger] b.coinbase[i])
    &&& forall|i: int| 0 <= i < b.transactions.len() ==> transaction_wf(#[trigger] b.transactions[i])
}

pub open spec fn request_wf(r: RequestV) -> bool {
    match r {
        RequestV::GetBlock { .. } => true,
        RequestV::PushTransaction { transaction } => authorized_transaction_wf(transaction),
    }
}

pub open spec fn response_wf(r: ResponseV) -> bool {
    match r {
        ResponseV::Block { body, .. } => body_wf(body),
        _ => true,
    }
}

// ---------------------------------------------------------------------------
// Specification: decoders. Each takes the remaining bytes and returns the
// decoded value plus what is left, or `None` when the bytes do not parse.
// ---------------------------------------------------------------------------

pub open spec fn dec_u32(s: Seq<u8>) -> Option<(u32, Seq<u8>)> {
    if s.len() >= 4 {
        Some((spec_u32_from_le_bytes(s.take(4)), s.skip(4)))
    } else {
        None
    }
}

pub open spec fn dec_u64(s: Seq<u8>) -> Option<(u64, Seq<u8>)> {
    if s.len() >= 8 {
        Some((spec_u64_from_le_bytes(s.take(8)), s.skip(8)))
    } else {
        None
    }
}

pub open spec fn dec_arr20(s: Seq<u8>) -> Option<([u8; 20], Seq<u8>)> {
    if s.len() >= 20 {
        Some((arr20_from(s.take(20)), s.skip(20)))
    } else {
        None
    }
}

pub open spec fn dec_arr32(s: Seq<u8>) -> Option<([u8; 32], Seq<u8>)> {
    if s.len() >= 32 {
        Some((arr32_from(s.take(32)), s.skip(32)))
    } else {
        None
    }
}

pub open spec fn dec_arr64(s: Seq<u8>) -> Option<([u8; 64], Seq<u8>)> {
    if s.len() >= 64 {
        Some((arr64_from(s.take(64)), s.skip(64)))
    } else {
        None
    }
}

pub open spec fn dec_byte_seq(s: Seq<u8>) -> Option<(Seq<u8>, Seq<u8>)> {
    match dec_u64(s) {
        Some((n, r)) => if r.len() >= n {
            Some((r.take(n as int), r.skip(n as int)))
        } else {
            None
        },
        None => None,
    }
}

pub open spec fn dec_outpoint(s: Seq<u8>) -> Option<(OutPoint, Seq<u8>)> {
    match dec_u32(s) {
        Some((tag, r)) => match dec_arr32(r) {
            Some((digest, r)) => match dec_u32(r) {
                Some((vout, r)) => if tag == 0 {
                    Some((OutPoint::Regular { txid: Txid(digest), vout }, r))
                } else if tag == 1 {
                    Some((OutPoint::Coinbase { merkle_root: MerkleRoot(digest), vout }, r))
                } else if tag == 2 {
                    Some((OutPoint::Deposit(MainOutPoint { txid: MainTxid(digest), vout }), r))
                } else {
                    None
                },
                None => None,
            },
            None => None,
        },
        None => None,
    }
}

pub open spec fn dec_content(s: Seq<u8>) -> Option<(ContentV, Seq<u8>)> {
    match dec_u32(s) {
        Some((tag, r)) => if tag == 0 {
            match dec_u64(r) {
                Some((value, r)) => Some((ContentV::Value(value), r)),
                None => None,
            }
        } else if tag == 1 {
            match dec_u64(r) {
                Some((value, r)) => match dec_u64(r) {
                    Some((main_fee, r)) => match dec_byte_seq(r) {
                        Some((main_address, r)) => Some(
                            (ContentV::Withdrawal { value, main_fee, main_address }, r),
                        ),
                        None => None,
                    },
                    None => None,
                },
                None => None,
            }
        } else {
            None
        },
        None => None,
    }
}

pub open spec fn dec_output(s: Seq<u8>) -> Option<(OutputV, Seq<u8>)> {
    match dec_arr20(s) {
        Some((addr, r)) => match dec_content(r) {
            Some((content, r)) => Some((OutputV { address: Address(addr), content }, r)),
            None => None,
        },
        None => None,
    }
}

pub open spec fn dec_authorization(s: Seq<u8>) -> Option<(Authorization, Seq<u8>)> {
    match dec_arr32(s) {
        Some((public_key, r)) => match dec_arr64(r) {
            Some((signature, r)) => Some((Authorization { public_key, signature }, r)),
            None => None,
        },
        None => None,
    }
}

pub open spec fn dec_outpoints_items(s: Seq<u8>, n: nat) -> Option<(Seq<OutPoint>, Seq<u8>)>
    decreases n,
{
    if n == 0 {
        Some((Seq::empty(), s))
    } else {
        match dec_outpoint(s) {
            Some((v, r)) => match dec_outpoints_items(r, (n - 1) as nat) {
                Some((vs, r2)) => Some((seq![v] + vs, r2)),
                None => None,
            },
            None => None,
        }
    }
}

pub open spec fn dec_outpoints(s: Seq<u8>) -> Option<(Seq<OutPoint>, Seq<u8>)> {
    match dec_u64(s) {
        Some((n, r)) => dec_outpoints_items(r, n as nat),
        None => None,
    }
}

pub open spec fn dec_outputs_items(s: Seq<u8>, n: nat) -> Option<(Seq<OutputV>, Seq<u8>)>
    decreases n,
{
    if n == 0 {
        Some((Seq::empty(), s))
    } else {
        match dec_output(s) {
            Some((v, r)) => match dec_outputs_items(r, (n - 1) as nat) {
                Some((vs, r2)) => Some((seq![v] + vs, r2)),
                None => None,
            },
            None => None,
        }
    }
}

pub open spec fn dec_outputs(s: Seq<u8>) -> Option<(Seq<OutputV>, Seq<u8>)> {
    match dec_u64(s) {
        Some((n, r)) => dec_outputs_items(r, n as nat),
        None => None,
    }
}

pub open spec fn dec_transaction(s: Seq<u8>) -> Option<(TransactionV, Seq<u8>)> {
    match dec_outpoints(s) {
        Some((inputs, r)) => match dec_outputs(r) {
            Some((outputs, r)) => Some((TransactionV { inputs, outputs }, r)),
            None => None,
        },
        None => None,
    }
}

pub open spec fn dec_transactions_items(s: Seq<u8>, n: nat) -> Option<(Seq<TransactionV>, Seq<u8>)>
    decreases n,
{
    if n == 0 {
        Some((Seq::empty(), s))
    } else {
        match dec_transaction(s) {
            Some((v, r)) => match dec_transactions_items(r, (n - 1) as nat) {
                Some((vs, r2)) => Some((seq![v] + vs, r2)),
                None => None,
            },
            None => None,
        }
    }
}

pub open spec fn dec_transactions(s: Seq<u8>) -> Option<(Seq<TransactionV>, Seq<u8>)> {
    match dec_u64(s) {
        Some((n, r)) => dec_transactions_items(r, n as nat),
        None => None,
    }
}

pub open spec fn dec_authorizations_items(s: Seq<u8>, n: nat) -> Option<
    (Seq<Authorization>, Seq<u8>),
>
    decreases n,
{
    if n == 0 {
        Some((Seq::empty(), s))
    } else {
        match dec_authorization(s) {
            Some((v, r)) => match dec_authorizations_items(r, (n - 1) as nat) {
                Some((vs, r2)) => Some((seq![v] + vs, r2)),
                None => None,
            },
            None => None,
        }
    }
}

pub open spec fn dec_authorizations(s: Seq<u8>) -> Option<(Seq<Authorization>, Seq<u8>)> {
    match dec_u64(s) {
        Some((n, r)) => dec_authorizations_items(r, n as nat),
        None => None,
    }
}

pub open spec fn dec_authorized_transaction(s: Seq<u8>) -> Option<
    (AuthorizedTransactionV, Seq<u8>),
> {
    match dec_transaction(s) {
        Some((transaction, r)) => match dec_authorizations(r) {
            Some((authorizations, r)) => Some(
                (AuthorizedTransactionV { transaction, authorizations }, r),
            ),
            None => None,
        },
        None => None,
    }
}

pub open spec fn dec_body(s: Seq<u8>) -> Option<(BodyV, Seq<u8>)> {
    match dec_outputs(s) {
        Some((coinbase, r)) => match dec_transactions(r) {
            Some((transactions, r)) => match dec_authorizations(r) {
                Some((authorizations, r)) => Some(
                    (BodyV { coinbase, transactions, authorizations }, r),
                ),
                None => None,
            },
            None => None,
        },
        None => None,
    }
}

pub open spec fn dec_header(s: Seq<u8>) -> Option<(Header, Seq<u8>)> {
    match dec_arr32(s) {
        Some((merkle_root, r)) => match dec_arr32(r) {
            Some((prev_side_hash, r)) => match dec_arr32(r) {
                Some((prev_main_hash, r)) => Some(
                    (
                        Header {
                            merkle_root: MerkleRoot(merkle_root),
                            prev_side_hash: BlockHash(prev_side_hash),
                            prev_main_hash: MainBlockHash(prev_main_hash),
                        },
                        r,
                    ),
                ),
                None => None,
            },
            None => None,
        },
        None => None,
    }
}

pub open spec fn dec_peer_state(s: Seq<u8>) -> Option<(PeerState, Seq<u8>)> {
    match dec_u32(s) {
        Some((block_height, r)) => Some((PeerState { block_height }, r)),
        None => None,
    }
}

pub open spec fn dec_request(s: Seq<u8>) -> Option<(RequestV, Seq<u8>)> {
    match dec_u32(s) {
        Some((tag, r)) => if tag == 0 {
            match dec_u32(r) {
                Some((height, r)) => Some((RequestV::GetBlock { height }, r)),
                None => None,
            }
        } else if tag == 1 {
            match dec_authorized_transaction(r) {
                Some((transaction, r)) => Some((RequestV::PushTransaction { transaction }, r)),
                None => None,
            }
        } else {
            None
        },
        None => None,
    }
}

pub open spec fn dec_response(s: Seq<u8>) -> Option<(ResponseV, Seq<u8>)> {
    match dec_u32(s) {
        Some((tag, r)) => if tag == 0 {
            match dec_header(r) {
                Some((header, r)) => match dec_body(r) {
                    Some((body, r)) => Some((ResponseV::Block { header, body }, r)),
                    None => None,
                },
                None => None,
            }
        } else if tag == 1 {
            Some((ResponseV::NoBlock, r))
        } else if tag == 2 {
            Some((ResponseV::TransactionAccepted, r))
        } else if tag == 3 {
            Some((ResponseV::TransactionRejected, r))
        } else {
            None
        },
        None => None,
    }
}

} // verus!

verus! {

// ---------------------------------------------------------------------------
// Round-trip lemmas: every decoder inverts the matching encoder. These are
// the codec's correctness statements; the wire lemmas at the end are the
// public laws for Header, Body, AuthorizedTransaction, OutPoint and Content.
// ---------------------------------------------------------------------------

pub proof fn lemma_rt_u32(x: u32, rest: Seq<u8>)
    ensures
        dec_u32(enc_u32(x) + rest) == Some((x, rest)),
{
    lemma_auto_spec_u32_to_from_le_bytes();
    assert((enc_u32(x) + rest).take(4) =~= enc_u32(x));
    assert((enc_u32(x) + rest).skip(4) =~= rest);
}

pub proof fn lemma_rt_u64(x: u64, rest: Seq<u8>)
    ensures
        dec_u64(enc_u64(x) + rest) == Some((x, rest)),
{
    lemma_auto_spec_u64_to_from_le_bytes();
    assert((enc_u64(x) + rest).take(8) =~= enc_u64(x));
    assert((enc_u64(x) + rest).skip(8) =~= rest);
}

pub proof fn lemma_rt_arr20(a: [u8; 20], rest: Seq<u8>)
    ensures
        dec_arr20(a@ + rest) == Some((a, rest)),
{
    assert((a@ + rest).take(20) =~= a@);
    assert((a@ + rest).skip(20) =~= rest);
    lemma_arr20_from(a);
}

pub proof fn lemma_rt_arr32(a: [u8; 32], rest: Seq<u8>)
    ensures
        dec_arr32(a@ + rest) == Some((a, rest)),
{
    assert((a@ + rest).take(32) =~= a@);
    assert((a@ + rest).skip(32) =~= rest);
    lemma_arr32_from(a);
}

pub proof fn lemma_rt_arr64(a: [u8; 64], rest: Seq<u8>)
    ensures
        dec_arr64(a@ + rest) == Some((a, rest)),
{
    assert((a@ + rest).take(64) =~= a@);
    assert((a@ + rest).skip(64) =~= rest);
    lemma_arr64_from(a);
}

pub proof fn lemma_rt_byte_seq(s: Seq<u8>, rest: Seq<u8>)
    requires
        s.len() <= u64::MAX,
    ensures
        dec_byte_seq(enc_byte_seq(s) + rest) == Some((s, rest)),
{
    let n = s.len() as u64;
    assert(enc_byte_seq(s) + rest =~= enc_u64(n) + (s + rest));
    lemma_rt_u64(n, s + rest);
    assert((s + rest).take(n as int) =~= s);
    assert((s + rest).skip(n as int) =~= rest);
}

pub proof fn lemma_rt_outpoint(o: OutPoint, rest: Seq<u8>)
    ensures
        dec_outpoint(enc_outpoint(o) + rest) == Some((o, rest)),
{
    match o {
        OutPoint::Regular { txid, vout } => {
            assert(enc_outpoint(o) + rest =~= enc_u32(0) + (txid.0@ + (enc_u32(vout) + rest)));
            lemma_rt_u32(0, txid.0@ + (enc_u32(vout) + rest));
            lemma_rt_arr32(txid.0, enc_u32(vout) + rest);
            lemma_rt_u32(vout, rest);
        }
        OutPoint::Coinbase { merkle_root, vout } => {
            assert(enc_outpoint(o) + rest =~= enc_u32(1) + (merkle_root.0@ + (enc_u32(vout)
                + rest)));
            lemma_rt_u32(1, merkle_root.0@ + (enc_u32(vout) + rest));
            lemma_rt_arr32(merkle_root.0, enc_u32(vout) + rest);
            lemma_rt_u32(vout, rest);
        }
        OutPoint::Deposit(main) => {
            assert(enc_outpoint(o) + rest =~= enc_u32(2) + (main.txid.0@ + (enc_u32(main.vout)
                + rest)));
            lemma_rt_u32(2, main.txid.0@ + (enc_u32(main.vout) + rest));
            lemma_rt_arr32(main.txid.0, enc_u32(main.vout) + rest);
            lemma_rt_u32(main.vout, rest);
        }
    }
}

pub proof fn lemma_rt_content(c: ContentV, rest: Seq<u8>)
    requires
        content_wf(c),
    ensures
        dec_content(enc_content(c) + rest) == Some((c, rest)),
{
    match c {
        ContentV::Value(value) => {
            assert(enc_content(c) + rest =~= enc_u32(0) + (enc_u64(value) + rest));
            lemma_rt_u32(0, enc_u64(value) + rest);
            lemma_rt_u64(value, rest);
        }
        ContentV::Withdrawal { value, main_fee, main_address } => {
            assert(enc_content(c) + rest =~= enc_u32(1) + (enc_u64(value) + (enc_u64(main_fee) + (
            enc_byte_seq(main_address) + rest))));
            lemma_rt_u32(1, enc_u64(value) + (enc_u64(main_fee) + (enc_byte_seq(main_address)
                + rest)));
            lemma_rt_u64(value, enc_u64(main_fee) + (enc_byte_seq(main_address) + rest));
            lemma_rt_u64(main_fee, enc_byte_seq(main_address) + rest);
            lemma_rt_byte_seq(main_address, rest);
        }
    }
}

pub proof fn lemma_rt_output(o: OutputV, rest: Seq<u8>)
    requires
        output_wf(o),
    ensures
        dec_output(enc_output(o) + rest) == Some((o, rest)),
{
    assert(enc_output(o) + rest =~= o.address.0@ + (enc_content(o.content) + rest));
    lemma_rt_arr20(o.address.0, enc_content(o.content) + rest);
    lemma_rt_content(o.content, rest);
}

pub proof fn lemma_rt_authorization(a: Authorization, rest: Seq<u8>)
    ensures
        dec_authorization(enc_authorization(a) + rest) == Some((a, rest)),
{
    assert(enc_authorization(a) + rest =~= a.public_key@ + (a.signature@ + rest));
    lemma_rt_arr32(a.public_key, a.signature@ + rest);
    lemma_rt_arr64(a.signature, rest);
}

pub proof fn lemma_rt_outpoints_items(s: Seq<OutPoint>, rest: Seq<u8>)
    ensures
        dec_outpoints_items(enc_outpoints_items(s) + rest, s.len()) == Some((s, rest)),
    decreases s.len(),
{
    if s.len() == 0 {
        assert(enc_outpoints_items(s) + rest =~= rest);
        assert(Seq::<OutPoint>::empty() =~= s);
    } else {
        let tail = s.skip(1);
        assert(enc_outpoints_items(s) + rest =~= enc_outpoint(s[0]) + (enc_outpoints_items(tail)
            + rest));
        lemma_rt_outpoint(s[0], enc_outpoints_items(tail) + rest);
        lemma_rt_outpoints_items(tail, rest);
        assert(seq![s[0]] + tail =~= s);
    }
}

pub proof fn lemma_rt_outpoints(s: Seq<OutPoint>, rest: Seq<u8>)
    requires
        s.len() <= u64::MAX,
    ensures
        dec_outpoints(enc_outpoints(s) + rest) == Some((s, rest)),
{
    let n = s.len() as u64;
    assert(enc_outpoints(s) + rest =~= enc_u64(n) + (enc_outpoints_items(s) + rest));
    lemma_rt_u64(n, enc_outpoints_items(s) + rest);
    lemma_rt_outpoints_items(s, rest);
}

pub proof fn lemma_rt_outputs_items(s: Seq<OutputV>, rest: Seq<u8>)
    requires
        forall|i: int| 0 <= i < s.len() ==> output_wf(#[trigger] s[i]),
    ensures
        dec_outputs_items(enc_outputs_items(s) + rest, s.len()) == Some((s, rest)),
    decreases s.len(),
{
    if s.len() == 0 {
        assert(enc_outputs_items(s) + rest =~= rest);
        assert(Seq::<OutputV>::empty() =~= s);
    } else {
        let tail = s.skip(1);
        assert(enc_outputs_items(s) + rest =~= enc_output(s[0]) + (enc_outputs_items(tail)
            + rest));
        lemma_rt_output(s[0], enc_outputs_items(tail) + rest);
        lemma_rt_outputs_items(tail, rest);
        assert(seq![s[0]] + tail =~= s);
    }
}

pub proof fn lemma_rt_outputs(s: Seq<OutputV>, rest: Seq<u8>)
    requires
        s.len() <= u64::MAX,
        forall|i: int| 0 <= i < s.len() ==> output_wf(#[trigger] s[i]),
    ensures
        dec_outputs(enc_outputs(s) + rest) == Some((s, rest)),
{
    let n = s.len() as u64;
    assert(enc_outputs(s) + rest =~= enc_u64(n) + (enc_outputs_items(s) + rest));
    lemma_rt_u64(n, enc_outputs_items(s) + rest);
    lemma_rt_outputs_items(s, rest);
}

pub proof fn lemma_rt_transaction(t: TransactionV, rest: Seq<u8>)
    requires
        transaction_wf(t),
    ensures
        dec_transaction(enc_transaction(t) + rest) == Some((t, rest)),
{
    assert(enc_transaction(t) + rest =~= enc_outpoints(t.inputs) + (enc_outputs(t.outputs)
        + rest));
    lemma_rt_outpoints(t.inputs, enc_outputs(t.outputs) + rest);
    lemma_rt_outputs(t.outputs, rest);
    assert(TransactionV { inputs: t.inputs, outputs: t.outputs } =~= t);
}

pub proof fn lemma_rt_transactions_items(s: Seq<TransactionV>, rest: Seq<u8>)
    requires
        forall|i: int| 0 <= i < s.len() ==> transaction_wf(#[trigger] s[i]),
    ensures
        dec_transactions_items(enc_transactions_items(s) + rest, s.len()) == Some((s, rest)),
    decreases s.len(),
{
    if s.len() == 0 {
        assert(enc_transactions_items(s) + rest =~= rest);
        assert(Seq::<TransactionV>::empty() =~= s);
    } else {
        let tail = s.skip(1);
        assert(enc_transactions_items(s) + rest =~= enc_transaction(s[0]) + (
        enc_transactions_items(tail) + rest));
        lemma_rt_transaction(s[0], enc_transactions_items(tail) + rest);
        lemma_rt_transactions_items(tail, rest);
        assert(seq![s[0]] + tail =~= s);
    }
}

pub proof fn lemma_rt_transactions(s: Seq<TransactionV>, rest: Seq<u8>)
    requires
        s.len() <= u64::MAX,
        forall|i: int| 0 <= i < s.len() ==> transaction_wf(#[trigger] s[i]),
    ensures
        dec_transactions(enc_transactions(s) + rest) == Some((s, rest)),
{
    let n = s.len() as u64;
    assert(enc_transactions(s) + rest =~= enc_u64(n) + (enc_transactions_items(s) + rest));
    lemma_rt_u64(n, enc_transactions_items(s) + rest);
    lemma_rt_transactions_items(s, rest);
}

pub proof fn lemma_rt_authorizations_items(s: Seq<Authorization>, rest: Seq<u8>)
    ensures
        dec_authorizations_items(enc_authorizations_items(s) + rest, s.len()) == Some((s, rest)),
    decreases s.len(),
{
    if s.len() == 0 {
        assert(enc_authorizations_items(s) + rest =~= rest);
        assert(Seq::<Authorization>::empty() =~= s);
    } else {
        let tail = s.skip(1);
        assert(enc_authorizations_items(s) + rest =~= enc_authorization(s[0]) + (
        enc_authorizations_items(tail) + rest));
        lemma_rt_authorization(s[0], enc_authorizations_items(tail) + rest);
        lemma_rt_authorizations_items(tail, rest);
        assert(seq![s[0]] + tail =~= s);
    }
}

pub proof fn lemma_rt_authorizations(s: Seq<Authorization>, rest: Seq<u8>)
    requires
        s.len() <= u64::MAX,
    ensures
        dec_authorizations(enc_authorizations(s) + rest) == Some((s, rest)),
{
    let n = s.len() as u64;
    assert(enc_authorizations(s) + rest =~= enc_u64(n) + (enc_authorizations_items(s) + rest));
    lemma_rt_u64(n, enc_authorizations_items(s) + rest);
    lemma_rt_authorizations_items(s, rest);
}

/// Law: decoding inverts encoding for an authorized transaction.
pub proof fn lemma_rt_authorized_transaction(t: AuthorizedTransactionV, rest: Seq<u8>)
    requires
        authorized_transaction_wf(t),
    ensures
        dec_authorized_transaction(enc_authorized_transaction(t) + rest) == Some((t, rest)),
{
    assert(enc_authorized_transaction(t) + rest =~= enc_transaction(t.transaction) + (
    enc_authorizations(t.authorizations) + rest));
    lemma_rt_transaction(t.transaction, enc_authorizations(t.authorizations) + rest);
    lemma_rt_authorizations(t.authorizations, rest);
    assert(AuthorizedTransactionV {
        transaction: t.transaction,
        authorizations: t.authorizations,
    } =~= t);
}

/// Law: decoding inverts encoding for a block body.
pub proof fn lemma_rt_body(b: BodyV, rest: Seq<u8>)
    requires
        body_wf(b),
    ensures
        dec_body(enc_body(b) + rest) == Some((b, rest)),
{
    assert(enc_body(b) + rest =~= enc_outputs(b.coinbase) + (enc_transactions(b.transactions) + (
    enc_authorizations(b.authorizations) + rest)));
    lemma_rt_outputs(b.coinbase, enc_transactions(b.transactions) + (enc_authorizations(
        b.authorizations,
    ) + rest));
    lemma_rt_transactions(b.transactions, enc_authorizations(b.authorizations) + rest);
    lemma_rt_authorizations(b.authorizations, rest);
    assert(BodyV {
        coinbase: b.coinbase,
        transactions: b.transactions,
        authorizations: b.authorizations,
    } =~= b);
}

/// Law: decoding inverts encoding for a header.
pub proof fn lemma_rt_header(h: Header, rest: Seq<u8>)
    ensures
        dec_header(enc_header(h) + rest) == Some((h, rest)),
{
    assert(enc_header(h) + rest =~= h.merkle_root.0@ + (h.prev_side_hash.0@ + (h.prev_main_hash.0@
        + rest)));
    lemma_rt_arr32(h.merkle_root.0, h.prev_side_hash.0@ + (h.prev_main_hash.0@ + rest));
    lemma_rt_arr32(h.prev_side_hash.0, h.prev_main_hash.0@ + rest);
    lemma_rt_arr32(h.prev_main_hash.0, rest);
}

pub proof fn lemma_rt_peer_state(p: PeerState, rest: Seq<u8>)
    ensures
        dec_peer_state(enc_peer_state(p) + rest) == Some((p, rest)),
{
    lemma_rt_u32(p.block_height, rest);
}

pub proof fn lemma_rt_request(r: RequestV, rest: Seq<u8>)
    requires
        request_wf(r),
    ensures
        dec_request(enc_request(r) + rest) == Some((r, rest)),
{
    match r {
        RequestV::GetBlock { height } => {
            assert(enc_request(r) + rest =~= enc_u32(0) + (enc_u32(height) + rest));
            lemma_rt_u32(0, enc_u32(height) + rest);
            lemma_rt_u32(height, rest);
        }
        RequestV::PushTransaction { transaction } => {
            assert(enc_request(r) + rest =~= enc_u32(1) + (enc_authorized_transaction(transaction)
                + rest));
            lemma_rt_u32(1, enc_authorized_transaction(transaction) + rest);
            lemma_rt_authorized_transaction(transaction, rest);
        }
    }
}

pub proof fn lemma_rt_response(r: ResponseV, rest: Seq<u8>)
    requires
        response_wf(r),
    ensures
        dec_response(enc_response(r) + rest) == Some((r, rest)),
{
    match r {
        ResponseV::Block { header, body } => {
            assert(enc_response(r) + rest =~= enc_u32(0) + (enc_header(header) + (enc_body(body)
                + rest)));
            lemma_rt_u32(0, enc_header(header) + (enc_body(body) + rest));
            lemma_rt_header(header, enc_body(body) + rest);
            lemma_rt_body(body, rest);
        }
        ResponseV::NoBlock => {
            assert(enc_response(r) + rest =~= enc_u32(1) + rest);
            lemma_rt_u32(1, rest);
        }
        ResponseV::TransactionAccepted => {
            assert(enc_response(r) + rest =~= enc_u32(2) + rest);
            lemma_rt_u32(2, rest);
        }
        ResponseV::TransactionRejected => {
            assert(enc_response(r) + rest =~= enc_u32(3) + rest);
            lemma_rt_u32(3, rest);
        }
    }
}

} // verus!

verus! {

// ---------------------------------------------------------------------------
// Unfolding lemmas used by the encoder loops.
// ---------------------------------------------------------------------------

pub proof fn lemma_enc_outpoints_items_push(s: Seq<OutPoint>, x: OutPoint)
    ensures
        enc_outpoints_items(s.push(x)) == enc_outpoints_items(s) + enc_outpoint(x),
    decreases s.len(),
{
    if s.len() == 0 {
        assert(s.push(x)[0] == x);
        assert(s.push(x).skip(1) =~= Seq::<OutPoint>::empty());
        assert(enc_outpoints_items(s.push(x)) == enc_outpoint(x) + enc_outpoints_items(Seq::<OutPoint>::empty()));
        assert(enc_outpoint(x) + Seq::<u8>::empty() =~= enc_outpoint(x));
        assert(Seq::<u8>::empty() + enc_outpoint(x) =~= enc_outpoint(x));
    } else {
        assert(s.push(x)[0] == s[0]);
        assert(s.push(x).skip(1) =~= s.skip(1).push(x));
        lemma_enc_outpoints_items_push(s.skip(1), x);
        assert(enc_outpoints_items(s.push(x)) == enc_outpoint(s[0]) + (enc_outpoints_items(s.skip(1)) + enc_outpoint(x)));
        assert(enc_outpoint(s[0]) + (enc_outpoints_items(s.skip(1)) + enc_outpoint(x)) =~= (enc_outpoint(s[0])
            + enc_outpoints_items(s.skip(1))) + enc_outpoint(x));
    }
}

pub proof fn lemma_enc_outputs_items_push(s: Seq<OutputV>, x: OutputV)
    ensures
        enc_outputs_items(s.push(x)) == enc_outputs_items(s) + enc_output(x),
    decreases s.len(),
{
    if s.len() == 0 {
        assert(s.push(x)[0] == x);
        assert(s.push(x).skip(1) =~= Seq::<OutputV>::empty());
        assert(enc_outputs_items(s.push(x)) == enc_output(x) + enc_outputs_items(Seq::<OutputV>::empty()));
        assert(enc_output(x) + Seq::<u8>::empty() =~= enc_output(x));
        assert(Seq::<u8>::empty() + enc_output(x) =~= enc_output(x));
    } else {
        assert(s.push(x)[0] == s[0]);
        assert(s.push(x).skip(1) =~= s.skip(1).push(x));
        lemma_enc_outputs_items_push(s.skip(1), x);
        assert(enc_outputs_items(s.push(x)) == enc_output(s[0]) + (enc_outputs_items(s.skip(1)) + enc_output(x)));
        assert(enc_output(s[0]) + (enc_outputs_items(s.skip(1)) + enc_output(x)) =~= (enc_output(s[0])
            + enc_outputs_items(s.skip(1))) + enc_output(x));
    }
}

pub proof fn lemma_enc_transactions_items_push(s: Seq<TransactionV>, x: TransactionV)
    ensures
        enc_transactions_items(s.push(x)) == enc_transactions_items(s) + enc_transaction(x),
    decreases s.len(),
{
    if s.len() == 0 {
        assert(s.push(x)[0] == x);
        assert(s.push(x).skip(1) =~= Seq::<TransactionV>::empty());
        assert(enc_transactions_items(s.push(x)) == enc_transaction(x) + enc_transactions_items(Seq::<TransactionV>::empty()));
        assert(enc_transaction(x) + Seq::<u8>::empty() =~= enc_transaction(x));
        assert(Seq::<u8>::empty() + enc_transaction(x) =~= enc_transaction(x));
    } else {
        assert(s.push(x)[0] == s[0]);
        assert(s.push(x).skip(1) =~= s.skip(1).push(x));
        lemma_enc_transactions_items_push(s.skip(1), x);
        assert(enc_transactions_items(s.push(x)) == enc_transaction(s[0]) + (enc_transactions_items(s.skip(1)) + enc_transaction(x)));
        assert(enc_transaction(s[0]) + (enc_transactions_items(s.skip(1)) + enc_transaction(x)) =~= (enc_transaction(s[0])
            + enc_transactions_items(s.skip(1))) + enc_transaction(x));
    }
}

pub proof fn lemma_enc_authorizations_items_push(s: Seq<Authorization>, x: Authorization)
    ensures
        enc_authorizations_items(s.push(x)) == enc_authorizations_items(s) + enc_authorization(x),
    decreases s.len(),
{
    if s.len() == 0 {
        assert(s.push(x)[0] == x);
        assert(s.push(x).skip(1) =~= Seq::<Authorization>::empty());
        assert(enc_authorizations_items(s.push(x)) == enc_authorization(x) + enc_authorizations_items(Seq::<Authorization>::empty()));
        assert(enc_authorization(x) + Seq::<u8>::empty() =~= enc_authorization(x));
        assert(Seq::<u8>::empty() + enc_authorization(x) =~= enc_authorization(x));
    } else {
        assert(s.push(x)[0] == s[0]);
        assert(s.push(x).skip(1) =~= s.skip(1).push(x));
        lemma_enc_authorizations_items_push(s.skip(1), x);
        assert(enc_authorizations_items(s.push(x)) == enc_authorization(s[0]) + (enc_authorizations_items(s.skip(1)) + enc_authorization(x)));
        assert(enc_authorization(s[0]) + (enc_authorizations_items(s.skip(1)) + enc_authorization(x)) =~= (enc_authorization(s[0])
            + enc_authorizations_items(s.skip(1))) + enc_authorization(x));
    }
}

// ---------------------------------------------------------------------------
// Executable encoders.
// ---------------------------------------------------------------------------

pub fn encode_u32(x: u32, out: &mut Vec<u8>)
    ensures
        final(out)@ == old(out)@ + enc_u32(x),
{
    let mut b = u32_to_le_bytes(x);
    out.append(&mut b);
}

pub fn encode_u64(x: u64, out: &mut Vec<u8>)
    ensures
        final(out)@ == old(out)@ + enc_u64(x),
{
    let mut b = u64_to_le_bytes(x);
    out.append(&mut b);
}

pub fn encode_arr20(a: &[u8; 20], out: &mut Vec<u8>)
    ensures
        final(out)@ == old(out)@ + a@,
{
    let mut i: usize = 0;
    while i < 20
        invariant
            i <= 20,
            out@ == old(out)@ + a@.take(i as int),
        decreases 20 - i,
    {
        out.push(a[i]);
        assert(a@.take(i + 1 as int) =~= a@.take(i as int).push(a@[i as int]));
        i += 1;
    }
    assert(a@.take(20) =~= a@);
}

pub fn encode_arr32(a: &[u8; 32], out: &mut Vec<u8>)
    ensures
        final(out)@ == old(out)@ + a@,
{
    let mut i: usize = 0;
    while i < 32
        invariant
            i <= 32,
            out@ == old(out)@ + a@.take(i as int),
        decreases 32 - i,
    {
        out.push(a[i]);
        assert(a@.take(i + 1 as int) =~= a@.take(i as int).push(a@[i as int]));
        i += 1;
    }
    assert(a@.take(32) =~= a@);
}

pub fn encode_arr64(a: &[u8; 64], out: &mut Vec<u8>)
    ensures
        final(out)@ == old(out)@ + a@,
{
    let mut i: usize = 0;
    while i < 64
        invariant
            i <= 64,
            out@ == old(out)@ + a@.take(i as int),
        decreases 64 - i,
    {
        out.push(a[i]);
        assert(a@.take(i + 1 as int) =~= a@.take(i as int).push(a@[i as int]));
        i += 1;
    }
    assert(a@.take(64) =~= a@);
}

pub fn encode_byte_vec(v: &Vec<u8>, out: &mut Vec<u8>)
    ensures
        final(out)@ == old(out)@ + enc_byte_seq(v@),
{
    encode_u64(v.len() as u64, out);
    let ghost mid = out@;
    let mut i: usize = 0;
    while i < v.len()
        invariant
            i <= v.len(),
            out@ == mid + v@.take(i as int),
        decreases v.len() - i,
    {
        out.push(v[i]);
        assert(v@.take(i + 1 as int) =~= v@.take(i as int).push(v@[i as int]));
        i += 1;
    }
    assert(v@.take(v@.len() as int) =~= v@);
    assert(out@ =~= old(out)@ + enc_byte_seq(v@));
}

pub fn encode_outpoint(o: &OutPoint, out: &mut Vec<u8>)
    ensures
        final(out)@ == old(out)@ + enc_outpoint(*o),
{
    match o {
        OutPoint::Regular { txid, vout } => {
            encode_u32(0, out);
            encode_arr32(&txid.0, out);
            encode_u32(*vout, out);
            assert(out@ =~= old(out)@ + enc_outpoint(*o));
        }
        OutPoint::Coinbase { merkle_root, vout } => {
            encode_u32(1, out);
            encode_arr32(&merkle_root.0, out);
            encode_u32(*vout, out);
            assert(out@ =~= old(out)@ + enc_outpoint(*o));
        }
        OutPoint::Deposit(main) => {
            encode_u32(2, out);
            encode_arr32(&main.txid.0, out);
            encode_u32(main.vout, out);
            assert(out@ =~= old(out)@ + enc_outpoint(*o));
        }
    }
}

pub fn encode_content(c: &Content, out: &mut Vec<u8>)
    ensures
        final(out)@ == old(out)@ + enc_content(c@),
{
    match c {
        Content::Value(value) => {
            encode_u32(0, out);
            encode_u64(*value, out);
            assert(out@ =~= old(out)@ + enc_content(c@));
        }
        Content::Withdrawal { value, main_fee, main_address } => {
            encode_u32(1, out);
            encode_u64(*value, out);
            encode_u64(*main_fee, out);
            encode_byte_vec(&main_address.0, out);
            assert(out@ =~= old(out)@ + enc_content(c@));
        }
    }
}

pub fn encode_output(o: &Output, out: &mut Vec<u8>)
    ensures
        final(out)@ == old(out)@ + enc_output(o@),
{
    encode_arr20(&o.address.0, out);
    encode_content(&o.content, out);
    assert(out@ =~= old(out)@ + enc_output(o@));
}

pub fn encode_authorization(a: &Authorization, out: &mut Vec<u8>)
    ensures
        final(out)@ == old(out)@ + enc_authorization(*a),
{
    encode_arr32(&a.public_key, out);
    encode_arr64(&a.signature, out);
    assert(out@ =~= old(out)@ + enc_authorization(*a));
}

pub fn encode_outpoints(v: &Vec<OutPoint>, out: &mut Vec<u8>)
    ensures
        final(out)@ == old(out)@ + enc_outpoints(v@),
{
    encode_u64(v.len() as u64, out);
    let ghost mid = out@;
    let mut i: usize = 0;
    while i < v.len()
        invariant
            i <= v.len(),
            out@ == mid + enc_outpoints_items(v@.take(i as int)),
        decreases v.len() - i,
    {
        encode_outpoint(&v[i], out);
        proof {
            lemma_enc_outpoints_items_push(v@.take(i as int), v@[i as int]);
            assert(v@.take(i + 1 as int) =~= v@.take(i as int).push(v@[i as int]));
        }
        i += 1;
    }
    assert(v@.take(v@.len() as int) =~= v@);
    assert(out@ =~= old(out)@ + enc_outpoints(v@));
}

pub fn encode_outputs(v: &Vec<Output>, out: &mut Vec<u8>)
    ensures
        final(out)@ == old(out)@ + enc_outputs(v@.map_values(|o: Output| o@)),
{
    encode_u64(v.len() as u64, out);
    let ghost view_seq = v@.map_values(|o: Output| o@);
    let ghost mid = out@;
    let mut i: usize = 0;
    while i < v.len()
        invariant
            i <= v.len(),
            view_seq == v@.map_values(|o: Output| o@),
            out@ == mid + enc_outputs_items(view_seq.take(i as int)),
        decreases v.len() - i,
    {
        encode_output(&v[i], out);
        proof {
            lemma_enc_outputs_items_push(view_seq.take(i as int), view_seq[i as int]);
            assert(view_seq.take(i + 1 as int) =~= view_seq.take(i as int).push(
                view_seq[i as int],
            ));
            assert(view_seq[i as int] == v@[i as int]@);
        }
        i += 1;
    }
    assert(view_seq.take(view_seq.len() as int) =~= view_seq);
    assert(out@ =~= old(out)@ + enc_outputs(view_seq));
}

pub fn encode_transaction_into(t: &Transaction, out: &mut Vec<u8>)
    ensures
        final(out)@ == old(out)@ + enc_transaction(t@),
{
    encode_outpoints(&t.inputs, out);
    encode_outputs(&t.outputs, out);
    assert(out@ =~= old(out)@ + enc_transaction(t@));
}

pub fn encode_transactions(v: &Vec<Transaction>, out: &mut Vec<u8>)
    ensures
        final(out)@ == old(out)@ + enc_transactions(v@.map_values(|t: Transaction| t@)),
{
    encode_u64(v.len() as u64, out);
    let ghost view_seq = v@.map_values(|t: Transaction| t@);
    let ghost mid = out@;
    let mut i: usize = 0;
    while i < v.len()
        invariant
            i <= v.len(),
            view_seq == v@.map_values(|t: Transaction| t@),
            out@ == mid + enc_transactions_items(view_seq.take(i as int)),
        decreases v.len() - i,
    {
        encode_transaction_into(&v[i], out);
        proof {
            lemma_enc_transactions_items_push(view_seq.take(i as int), view_seq[i as int]);
            assert(view_seq.take(i + 1 as int) =~= view_seq.take(i as int).push(
                view_seq[i as int],
            ));
            assert(view_seq[i as int] == v@[i as int]@);
        }
        i += 1;
    }
    assert(view_seq.take(view_seq.len() as int) =~= view_seq);
    assert(out@ =~= old(out)@ + enc_transactions(view_seq));
}

pub fn encode_authorizations(v: &Vec<Authorization>, out: &mut Vec<u8>)
    ensures
        final(out)@ == old(out)@ + enc_authorizations(v@),
{
    encode_u64(v.len() as u64, out);
    let ghost mid = out@;
    let mut i: usize = 0;
    while i < v.len()
        invariant
            i <= v.len(),
            out@ == mid + enc_authorizations_items(v@.take(i as int)),
        decreases v.len() - i,
    {
        encode_authorization(&v[i], out);
        proof {
            lemma_enc_authorizations_items_push(v@.take(i as int), v@[i as int]);
            assert(v@.take(i + 1 as int) =~= v@.take(i as int).push(v@[i as int]));
        }
        i += 1;
    }
    assert(v@.take(v@.len() as int) =~= v@);
    assert(out@ =~= old(out)@ + enc_authorizations(v@));
}

/// Serialise a transaction; this byte string is also what `txid` hashes and
/// what each authorization signs.
pub fn encode_transaction(t: &Transaction) -> (r: Vec<u8>)
    ensures
        r@ == enc_transaction(t@),
{
    let mut out: Vec<u8> = Vec::new();
    encode_transaction_into(t, &mut out);
    out
}

pub fn encode_authorized_transaction(t: &AuthorizedTransaction) -> (r: Vec<u8>)
    ensures
        r@ == enc_authorized_transaction(t@),
{
    let mut out: Vec<u8> = Vec::new();
    encode_transaction_into(&t.transaction, &mut out);
    encode_authorizations(&t.authorizations, &mut out);
    assert(out@ =~= enc_authorized_transaction(t@));
    out
}

/// Serialise the `(coinbase, transactions)` pair whose hash is the body's
/// merkle root.
pub fn encode_block_pair(coinbase: &Vec<Output>, transactions: &Vec<Transaction>) -> (r: Vec<u8>)
    ensures
        r@ == enc_block_pair(
            coinbase@.map_values(|o: Output| o@),
            transactions@.map_values(|t: Transaction| t@),
        ),
{
    let mut out: Vec<u8> = Vec::new();
    encode_outputs(coinbase, &mut out);
    encode_transactions(transactions, &mut out);
    assert(out@ =~= enc_block_pair(
        coinbase@.map_values(|o: Output| o@),
        transactions@.map_values(|t: Transaction| t@),
    ));
    out
}

pub fn encode_body(b: &Body) -> (r: Vec<u8>)
    ensures
        r@ == enc_body(b@),
{
    let mut out: Vec<u8> = Vec::new();
    encode_outputs(&b.coinbase, &mut out);
    encode_transactions(&b.transactions, &mut out);
    encode_authorizations(&b.authorizations, &mut out);
    assert(out@ =~= enc_body(b@));
    out
}

pub fn encode_header(h: &Header) -> (r: Vec<u8>)
    ensures
        r@ == enc_header(*h),
{
    let mut out: Vec<u8> = Vec::new();
    encode_arr32(&h.merkle_root.0, &mut out);
    encode_arr32(&h.prev_side_hash.0, &mut out);
    encode_arr32(&h.prev_main_hash.0, &mut out);
    assert(out@ =~= enc_header(*h));
    out
}

pub fn encode_peer_state(p: &PeerState) -> (r: Vec<u8>)
    ensures
        r@ == enc_peer_state(*p),
{
    let mut out: Vec<u8> = Vec::new();
    encode_u32(p.block_height, &mut out);
    assert(out@ =~= enc_peer_state(*p));
    out
}

pub fn encode_request(r: &Request) -> (res: Vec<u8>)
    ensures
        res@ == enc_request(r@),
{
    let mut out: Vec<u8> = Vec::new();
    match r {
        Request::GetBlock { height } => {
            encode_u32(0, &mut out);
            encode_u32(*height, &mut out);
        }
        Request::PushTransaction { transaction } => {
            encode_u32(1, &mut out);
            encode_transaction_into(&transaction.transaction, &mut out);
            encode_authorizations(&transaction.authorizations, &mut out);
        }
    }
    assert(out@ =~= enc_request(r@));
    out
}

pub fn encode_response(r: &Response) -> (res: Vec<u8>)
    ensures
        res@ == enc_response(r@),
{
    let mut out: Vec<u8> = Vec::new();
    match r {
        Response::Block { header, body } => {
            encode_u32(0, &mut out);
            encode_arr32(&header.merkle_root.0, &mut out);
            encode_arr32(&header.prev_side_hash.0, &mut out);
            encode_arr32(&header.prev_main_hash.0, &mut out);
            encode_outputs(&body.coinbase, &mut out);
            encode_transactions(&body.transactions, &mut out);
            encode_authorizations(&body.authorizations, &mut out);
        }
        Response::NoBlock => {
            encode_u32(1, &mut out);
        }
        Response::TransactionAccepted => {
            encode_u32(2, &mut out);
        }
        Response::TransactionRejected => {
            encode_u32(3, &mut out);
        }
    }
    assert(out@ =~= enc_response(r@));
    out
}

} // verus!

verus! {

// ---------------------------------------------------------------------------
// Executable decoders. Each works at a byte position and returns the decoded
// value and the next position; the contract ties it exactly to the matching
// specification decoder.
// ---------------------------------------------------------------------------

// Prepending already-decoded items to the outcome of decoding the remainder.

pub open spec fn prepend_outpoints(
    prefix: Seq<OutPoint>,
    o: Option<(Seq<OutPoint>, Seq<u8>)>,
) -> Option<(Seq<OutPoint>, Seq<u8>)> {
    match o {
        Some((vs, r)) => Some((prefix + vs, r)),
        None => None,
    }
}

pub open spec fn prepend_outputs(
    prefix: Seq<OutputV>,
    o: Option<(Seq<OutputV>, Seq<u8>)>,
) -> Option<(Seq<OutputV>, Seq<u8>)> {
    match o {
        Some((vs, r)) => Some((prefix + vs, r)),
        None => None,
    }
}

pub open spec fn prepend_transactions(
    prefix: Seq<TransactionV>,
    o: Option<(Seq<TransactionV>, Seq<u8>)>,
) -> Option<(Seq<TransactionV>, Seq<u8>)> {
    match o {
        Some((vs, r)) => Some((prefix + vs, r)),
        None => None,
    }
}

pub open spec fn prepend_authorizations(
    prefix: Seq<Authorization>,
    o: Option<(Seq<Authorization>, Seq<u8>)>,
) -> Option<(Seq<Authorization>, Seq<u8>)> {
    match o {
        Some((vs, r)) => Some((prefix + vs, r)),
        None => None,
    }
}

pub fn decode_u32(bytes: &Vec<u8>, pos: usize) -> (r: Option<(u32, usize)>)
    requires
        pos <= bytes@.len(),
    ensures
        match r {
            Some((v, p)) => pos <= p <= bytes@.len() && dec_u32(bytes@.skip(pos as int)) == Some(
                (v, bytes@.skip(p as int)),
            ),
            None => dec_u32(bytes@.skip(pos as int)) is None,
        },
{
    if bytes.len() - pos >= 4 {
        let s = vstd::slice::slice_subrange(bytes.as_slice(), pos, pos + 4);
        let x = u32_from_le_bytes(s);
        proof {
            assert(bytes@.skip(pos as int).take(4) =~= bytes@.subrange(pos as int, pos + 4 as int));
            assert(bytes@.skip(pos as int).skip(4) =~= bytes@.skip(pos + 4 as int));
        }
        Some((x, pos + 4))
    } else {
        None
    }
}

pub fn decode_u64(bytes: &Vec<u8>, pos: usize) -> (r: Option<(u64, usize)>)
    requires
        pos <= bytes@.len(),
    ensures
        match r {
            Some((v, p)) => pos <= p <= bytes@.len() && dec_u64(bytes@.skip(pos as int)) == Some(
                (v, bytes@.skip(p as int)),
            ),
            None => dec_u64(bytes@.skip(pos as int)) is None,
        },
{
    if bytes.len() - pos >= 8 {
        let s = vstd::slice::slice_subrange(bytes.as_slice(), pos, pos + 8);
        let x = u64_from_le_bytes(s);
        proof {
            assert(bytes@.skip(pos as int).take(8) =~= bytes@.subrange(pos as int, pos + 8 as int));
            assert(bytes@.skip(pos as int).skip(8) =~= bytes@.skip(pos + 8 as int));
        }
        Some((x, pos + 8))
    } else {
        None
    }
}

pub fn decode_arr20(bytes: &Vec<u8>, pos: usize) -> (r: Option<([u8; 20], usize)>)
    requires
        pos <= bytes@.len(),
    ensures
        match r {
            Some((v, p)) => pos <= p <= bytes@.len() && dec_arr20(bytes@.skip(pos as int)) == Some(
                (v, bytes@.skip(p as int)),
            ),
            None => dec_arr20(bytes@.skip(pos as int)) is None,
        },
{
    if bytes.len() - pos >= 20 {
        let mut a: [u8; 20] = [0; 20];
        let mut i: usize = 0;
        while i < 20
            invariant
                i <= 20,
                pos + 20 <= bytes@.len(),
                bytes@.len() <= usize::MAX,
                forall|j: int| 0 <= j < i ==> a@[j] == bytes@[pos + j],
            decreases 20 - i,
        {
            a[i] = bytes[pos + i];
            i += 1;
        }
        proof {
            assert(a@ =~= bytes@.skip(pos as int).take(20));
            lemma_arr20_from(a);
            assert(bytes@.skip(pos as int).skip(20) =~= bytes@.skip(pos + 20 as int));
        }
        Some((a, pos + 20))
    } else {
        None
    }
}

pub fn decode_arr32(bytes: &Vec<u8>, pos: usize) -> (r: Option<([u8; 32], usize)>)
    requires
        pos <= bytes@.len(),
    ensures
        match r {
            Some((v, p)) => pos <= p <= bytes@.len() && dec_arr32(bytes@.skip(pos as int)) == Some(
                (v, bytes@.skip(p as int)),
            ),
            None => dec_arr32(bytes@.skip(pos as int)) is None,
        },
{
    if bytes.len() - pos >= 32 {
        let mut a: [u8; 32] = [0; 32];
        let mut i: usize = 0;
        while i < 32
            invariant
                i <= 32,
                pos + 32 <= bytes@.len(),
                bytes@.len() <= usize::MAX,
                forall|j: int| 0 <= j < i ==> a@[j] == bytes@[pos + j],
            decreases 32 - i,
        {
            a[i] = bytes[pos + i];
            i += 1;
        }
        proof {
            assert(a@ =~= bytes@.skip(pos as int).take(32));
            lemma_arr32_from(a);
            assert(bytes@.skip(pos as int).skip(32) =~= bytes@.skip(pos + 32 as int));
        }
        Some((a, pos + 32))
    } else {
        None
    }
}

pub fn decode_arr64(bytes: &Vec<u8>, pos: usize) -> (r: Option<([u8; 64], usize)>)
    requires
        pos <= bytes@.len(),
    ensures
        match r {
            Some((v, p)) => pos <= p <= bytes@.len() && dec_arr64(bytes@.skip(pos as int)) == Some(
                (v, bytes@.skip(p as int)),
            ),
            None => dec_arr64(bytes@.skip(pos as int)) is None,
        },
{
    if bytes.len() - pos >= 64 {
        let mut a: [u8; 64] = [0; 64];
        let mut i: usize = 0;
        while i < 64
            invariant
                i <= 64,
                pos + 64 <= bytes@.len(),
                bytes@.len() <= usize::MAX,
                forall|j: int| 0 <= j < i ==> a@[j] == bytes@[pos + j],
            decreases 64 - i,
        {
            a[i] = bytes[pos + i];
            i += 1;
        }
        proof {
            assert(a@ =~= bytes@.skip(pos as int).take(64));
            lemma_arr64_from(a);
            assert(bytes@.skip(pos as int).skip(64) =~= bytes@.skip(pos + 64 as int));
        }
        Some((a, pos + 64))
    } else {
        None
    }
}

pub fn decode_byte_vec(bytes: &Vec<u8>, pos: usize) -> (r: Option<(Vec<u8>, usize)>)
    requires
        pos <= bytes@.len(),
    ensures
        match r {
            Some((v, p)) => pos <= p <= bytes@.len() && dec_byte_seq(bytes@.skip(pos as int))
                == Some((v@, bytes@.skip(p as int))),
            None => dec_byte_seq(bytes@.skip(pos as int)) is None,
        },
{
    match decode_u64(bytes, pos) {
        Some((n, cur)) => {
            if n <= (bytes.len() - cur) as u64 {
                let n = n as usize;
                let mut v: Vec<u8> = Vec::new();
                let mut i: usize = 0;
                while i < n
                    invariant
                        i <= n,
                        cur + n <= bytes@.len(),
                        bytes@.len() <= usize::MAX,
                        v@ =~= bytes@.subrange(cur as int, cur + i as int),
                    decreases n - i,
                {
                    v.push(bytes[cur + i]);
                    assert(v@ =~= bytes@.subrange(cur as int, cur + i + 1 as int));
                    i += 1;
                }
                proof {
                    assert(v@ =~= bytes@.skip(cur as int).take(n as int));
                    assert(bytes@.skip(cur as int).skip(n as int) =~= bytes@.skip(cur + n as int));
                }
                Some((v, cur + n))
            } else {
                None
            }
        }
        None => None,
    }
}

pub fn decode_outpoint(bytes: &Vec<u8>, pos: usize) -> (r: Option<(OutPoint, usize)>)
    requires
        pos <= bytes@.len(),
    ensures
        match r {
            Some((v, p)) => pos <= p <= bytes@.len() && dec_outpoint(bytes@.skip(pos as int))
                == Some((v, bytes@.skip(p as int))),
            None => dec_outpoint(bytes@.skip(pos as int)) is None,
        },
{
    let (tag, cur) = match decode_u32(bytes, pos) {
        Some(x) => x,
        None => {
            return None;
        },
    };
    let (digest, cur) = match decode_arr32(bytes, cur) {
        Some(x) => x,
        None => {
            return None;
        },
    };
    let (vout, cur) = match decode_u32(bytes, cur) {
        Some(x) => x,
        None => {
            return None;
        },
    };
    if tag == 0 {
        Some((OutPoint::Regular { txid: Txid(digest), vout }, cur))
    } else if tag == 1 {
        Some((OutPoint::Coinbase { merkle_root: MerkleRoot(digest), vout }, cur))
    } else if tag == 2 {
        Some((OutPoint::Deposit(MainOutPoint { txid: MainTxid(digest), vout }), cur))
    } else {
        None
    }
}

pub fn decode_content(bytes: &Vec<u8>, pos: usize) -> (r: Option<(Content, usize)>)
    requires
        pos <= bytes@.len(),
    ensures
        match r {
            Some((v, p)) => pos <= p <= bytes@.len() && dec_content(bytes@.skip(pos as int))
                == Some((v@, bytes@.skip(p as int))),
            None => dec_content(bytes@.skip(pos as int)) is None,
        },
{
    let (tag, cur) = match decode_u32(bytes, pos) {
        Some(x) => x,
        None => {
            return None;
        },
    };
    if tag == 0 {
        let (value, cur) = match decode_u64(bytes, cur) {
            Some(x) => x,
            None => {
                return None;
            },
        };
        Some((Content::Value(value), cur))
    } else if tag == 1 {
        let (value, cur) = match decode_u64(bytes, cur) {
            Some(x) => x,
            None => {
                return None;
            },
        };
        let (main_fee, cur) = match decode_u64(bytes, cur) {
            Some(x) => x,
            None => {
                return None;
            },
        };
        let (addr, cur) = match decode_byte_vec(bytes, cur) {
            Some(x) => x,
            None => {
                return None;
            },
        };
        Some((Content::Withdrawal { value, main_fee, main_address: MainAddress(addr) }, cur))
    } else {
        None
    }
}

pub fn decode_output(bytes: &Vec<u8>, pos: usize) -> (r: Option<(Output, usize)>)
    requires
        pos <= bytes@.len(),
    ensures
        match r {
            Some((v, p)) => pos <= p <= bytes@.len() && dec_output(bytes@.skip(pos as int)) == Some(
                (v@, bytes@.skip(p as int)),
            ),
            None => dec_output(bytes@.skip(pos as int)) is None,
        },
{
    let (addr, cur) = match decode_arr20(bytes, pos) {
        Some(x) => x,
        None => {
            return None;
        },
    };
    let (content, cur) = match decode_content(bytes, cur) {
        Some(x) => x,
        None => {
            return None;
        },
    };
    Some((Output { address: Address(addr), content }, cur))
}

pub fn decode_authorization(bytes: &Vec<u8>, pos: usize) -> (r: Option<(Authorization, usize)>)
    requires
        pos <= bytes@.len(),
    ensures
        match r {
            Some((v, p)) => pos <= p <= bytes@.len() && dec_authorization(bytes@.skip(pos as int))
                == Some((v, bytes@.skip(p as int))),
            None => dec_authorization(bytes@.skip(pos as int)) is None,
        },
{
    let (public_key, cur) = match decode_arr32(bytes, pos) {
        Some(x) => x,
        None => {
            return None;
        },
    };
    let (signature, cur) = match decode_arr64(bytes, cur) {
        Some(x) => x,
        None => {
            return None;
        },
    };
    Some((Authorization { public_key, signature }, cur))
}

} // verus!

verus! {

pub proof fn lemma_prepend_empty_outpoints(o: Option<(Seq<OutPoint>, Seq<u8>)>)
    ensures
        prepend_outpoints(Seq::<OutPoint>::empty(), o) == o,
{
    match o {
        Some((vs, r)) => {
            assert(Seq::<OutPoint>::empty() + vs =~= vs);
        }
        None => {}
    }
}

pub proof fn lemma_prepend_push_outpoints(a: Seq<OutPoint>, v: OutPoint, o: Option<(Seq<OutPoint>, Seq<u8>)>)
    ensures
        prepend_outpoints(a, prepend_outpoints(seq![v], o)) == prepend_outpoints(a.push(v), o),
{
    match o {
        Some((vs, r)) => {
            assert(a + (seq![v] + vs) =~= a.push(v) + vs);
        }
        None => {}
    }
}

pub fn decode_outpoints(bytes: &Vec<u8>, pos: usize) -> (r: Option<(Vec<OutPoint>, usize)>)
    requires
        pos <= bytes@.len(),
    ensures
        match r {
            Some((v, p)) => pos <= p <= bytes@.len() && dec_outpoints(bytes@.skip(pos as int)) == Some(
                (v@, bytes@.skip(p as int)),
            ),
            None => dec_outpoints(bytes@.skip(pos as int)) is None,
        },
{
    let (n, start) = match decode_u64(bytes, pos) {
        Some(x) => x,
        None => {
            return None;
        },
    };
    let ghost s0 = bytes@.skip(start as int);
    let mut acc: Vec<OutPoint> = Vec::new();
    let mut cur: usize = start;
    let mut i: u64 = 0;
    proof {
        lemma_prepend_empty_outpoints(dec_outpoints_items(s0, n as nat));
        assert(acc@ =~= Seq::<OutPoint>::empty());
    }
    while i < n
        invariant
            i <= n,
            pos <= cur <= bytes@.len(),
            acc@.len() == i,
            s0 == bytes@.skip(start as int),
            dec_u64(bytes@.skip(pos as int)) == Some((n, s0)),
            dec_outpoints_items(s0, n as nat) == prepend_outpoints(
                acc@,
                dec_outpoints_items(bytes@.skip(cur as int), (n - i) as nat),
            ),
        decreases n - i,
    {
        match decode_outpoint(bytes, cur) {
            Some((v, p)) => {
                proof {
                    let rem = bytes@.skip(cur as int);
                    let k = (n - i) as nat;
                    let inner = dec_outpoints_items(bytes@.skip(p as int), (k - 1) as nat);
                    assert(dec_outpoints_items(rem, k) == prepend_outpoints(seq![v], inner));
                    lemma_prepend_push_outpoints(acc@, v, inner);
                    assert(acc@.push(v) =~= acc@.push(v));
                }
                acc.push(v);
                cur = p;
                i = i + 1;
            }
            None => {
                proof {
                    let k = (n - i) as nat;
                    assert(dec_outpoints_items(bytes@.skip(cur as int), k) is None);
                }
                return None;
            }
        }
    }
    proof {
        assert(dec_outpoints_items(bytes@.skip(cur as int), 0) == Some(
            (Seq::<OutPoint>::empty(), bytes@.skip(cur as int)),
        ));
        assert(acc@ + Seq::<OutPoint>::empty() =~= acc@);
    }
    Some((acc, cur))
}

pub proof fn lemma_prepend_empty_outputs(o: Option<(Seq<OutputV>, Seq<u8>)>)
    ensures
        prepend_outputs(Seq::<OutputV>::empty(), o) == o,
{
    match o {
        Some((vs, r)) => {
            assert(Seq::<OutputV>::empty() + vs =~= vs);
        }
        None => {}
    }
}

pub proof fn lemma_prepend_push_outputs(a: Seq<OutputV>, v: OutputV, o: Option<(Seq<OutputV>, Seq<u8>)>)
    ensures
        prepend_outputs(a, prepend_outputs(seq![v], o)) == prepend_outputs(a.push(v), o),
{
    match o {
        Some((vs, r)) => {
            assert(a + (seq![v] + vs) =~= a.push(v) + vs);
        }
        None => {}
    }
}

pub fn decode_outputs(bytes: &Vec<u8>, pos: usize) -> (r: Option<(Vec<Output>, usize)>)
    requires
        pos <= bytes@.len(),
    ensures
        match r {
            Some((v, p)) => pos <= p <= bytes@.len() && dec_outputs(bytes@.skip(pos as int)) == Some(
                (v@.map_values(|o: Output| o@), bytes@.skip(p as int)),
            ),
            None => dec_outputs(bytes@.skip(pos as int)) is None,
        },
{
    let (n, start) = match decode_u64(bytes, pos) {
        Some(x) => x,
        None => {
            return None;
        },
    };
    let ghost s0 = bytes@.skip(start as int);
    let mut acc: Vec<Output> = Vec::new();
    let mut cur: usize = start;
    let mut i: u64 = 0;
    proof {
        lemma_prepend_empty_outputs(dec_outputs_items(s0, n as nat));
        assert(acc@.map_values(|o: Output| o@) =~= Seq::<OutputV>::empty());
    }
    while i < n
        invariant
            i <= n,
            pos <= cur <= bytes@.len(),
            acc@.len() == i,
            s0 == bytes@.skip(start as int),
            dec_u64(bytes@.skip(pos as int)) == Some((n, s0)),
            dec_outputs_items(s0, n as nat) == prepend_outputs(
                acc@.map_values(|o: Output| o@),
                dec_outputs_items(bytes@.skip(cur as int), (n - i) as nat),
            ),
        decreases n - i,
    {
        match decode_output(bytes, cur) {
            Some((v, p)) => {
                proof {
                    let rem = bytes@.skip(cur as int);
                    let k = (n - i) as nat;
                    let inner = dec_outputs_items(bytes@.skip(p as int), (k - 1) as nat);
                    assert(dec_outputs_items(rem, k) == prepend_outputs(seq![v@], inner));
                    lemma_prepend_push_outputs(acc@.map_values(|o: Output| o@), v@, inner);
                    assert(acc@.map_values(|o: Output| o@).push(v@) =~= acc@.push(v).map_values(|o: Output| o@));
                }
                acc.push(v);
                cur = p;
                i = i + 1;
            }
            None => {
                proof {
                    let k = (n - i) as nat;
                    assert(dec_outputs_items(bytes@.skip(cur as int), k) is None);
                }
                return None;
            }
        }
    }
    proof {
        assert(dec_outputs_items(bytes@.skip(cur as int), 0) == Some(
            (Seq::<OutputV>::empty(), bytes@.skip(cur as int)),
        ));
        assert(acc@.map_values(|o: Output| o@) + Seq::<OutputV>::empty() =~= acc@.map_values(|o: Output| o@));
    }
    Some((acc, cur))
}

pub proof fn lemma_prepend_empty_authorizations(o: Option<(Seq<Authorization>, Seq<u8>)>)
    ensures
        prepend_authorizations(Seq::<Authorization>::empty(), o) == o,
{
    match o {
        Some((vs, r)) => {
            assert(Seq::<Authorization>::empty() + vs =~= vs);
        }
        None => {}
    }
}

pub proof fn lemma_prepend_push_authorizations(a: Seq<Authorization>, v: Authorization, o: Option<(Seq<Authorization>, Seq<u8>)>)
    ensures
        prepend_authorizations(a, prepend_authorizations(seq![v], o)) == prepend_authorizations(a.push(v), o),
{
    match o {
        Some((vs, r)) => {
            assert(a + (seq![v] + vs) =~= a.push(v) + vs);
        }
        None => {}
    }
}

pub fn decode_authorizations(bytes: &Vec<u8>, pos: usize) -> (r: Option<(Vec<Authorization>, usize)>)
    requires
        pos <= bytes@.len(),
    ensures
        match r {
            Some((v, p)) => pos <= p <= bytes@.len() && dec_authorizations(bytes@.skip(pos as int)) == Some(
                (v@, bytes@.skip(p as int)),
            ),
            None => dec_authorizations(bytes@.skip(pos as int)) is None,
        },
{
    let (n, start) = match decode_u64(bytes, pos) {
        Some(x) => x,
        None => {
            return None;
        },
    };
    let ghost s0 = bytes@.skip(start as int);
    let mut acc: Vec<Authorization> = Vec::new();
    let mut cur: usize = start;
    let mut i: u64 = 0;
    proof {
        lemma_prepend_empty_authorizations(dec_authorizations_items(s0, n as nat));
        assert(acc@ =~= Seq::<Authorization>::empty());
    }
    while i < n
        invariant
            i <= n,
            pos <= cur <= bytes@.len(),
            acc@.len() == i,
            s0 == bytes@.skip(start as int),
            dec_u64(bytes@.skip(pos as int)) == Some((n, s0)),
            dec_authorizations_items(s0, n as nat) == prepend_authorizations(
                acc@,
                dec_authorizations_items(bytes@.skip(cur as int), (n - i) as nat),
            ),
        decreases n - i,
    {
        match decode_authorization(bytes, cur) {
            Some((v, p)) => {
                proof {
                    let rem = bytes@.skip(cur as int);
                    let k = (n - i) as nat;
                    let inner = dec_authorizations_items(bytes@.skip(p as int), (k - 1) as nat);
                    assert(dec_authorizations_items(rem, k) == prepend_authorizations(seq![v], inner));
                    lemma_prepend_push_authorizations(acc@, v, inner);
                    assert(acc@.push(v) =~= acc@.push(v));
                }
                acc.push(v);
                cur = p;
                i = i + 1;
            }
            None => {
                proof {
                    let k = (n - i) as nat;
                    assert(dec_authorizations_items(bytes@.skip(cur as int), k) is None);
                }
                return None;
            }
        }
    }
    proof {
        assert(dec_authorizations_items(bytes@.skip(cur as int), 0) == Some(
            (Seq::<Authorization>::empty(), bytes@.skip(cur as int)),
        ));
        assert(acc@ + Seq::<Authorization>::empty() =~= acc@);
    }
    Some((acc, cur))
}

} // verus!

verus! {

pub fn decode_transaction(bytes: &Vec<u8>, pos: usize) -> (r: Option<(Transaction, usize)>)
    requires
        pos <= bytes@.len(),
    ensures
        match r {
            Some((v, p)) => pos <= p <= bytes@.len() && dec_transaction(bytes@.skip(pos as int))
                == Some((v@, bytes@.skip(p as int))),
            None => dec_transaction(bytes@.skip(pos as int)) is None,
        },
{
    let (inputs, cur) = match decode_outpoints(bytes, pos) {
        Some(x) => x,
        None => {
            return None;
        },
    };
    let (outputs, cur) = match decode_outputs(bytes, cur) {
        Some(x) => x,
        None => {
            return None;
        },
    };
    let t = Transaction { inputs, outputs };
    assert(dec_transaction(bytes@.skip(pos as int)) == Some((t@, bytes@.skip(cur as int))));
    Some((t, cur))
}

pub proof fn lemma_prepend_empty_transactions(o: Option<(Seq<TransactionV>, Seq<u8>)>)
    ensures
        prepend_transactions(Seq::<TransactionV>::empty(), o) == o,
{
    match o {
        Some((vs, r)) => {
            assert(Seq::<TransactionV>::empty() + vs =~= vs);
        }
        None => {}
    }
}

pub proof fn lemma_prepend_push_transactions(
    a: Seq<TransactionV>,
    v: TransactionV,
    o: Option<(Seq<TransactionV>, Seq<u8>)>,
)
    ensures
        prepend_transactions(a, prepend_transactions(seq![v], o)) == prepend_transactions(
            a.push(v),
            o,
        ),
{
    match o {
        Some((vs, r)) => {
            assert(a + (seq![v] + vs) =~= a.push(v) + vs);
        }
        None => {}
    }
}

pub fn decode_transactions(bytes: &Vec<u8>, pos: usize) -> (r: Option<(Vec<Transaction>, usize)>)
    requires
        pos <= bytes@.len(),
    ensures
        match r {
            Some((v, p)) => pos <= p <= bytes@.len() && dec_transactions(bytes@.skip(pos as int))
                == Some((v@.map_values(|t: Transaction| t@), bytes@.skip(p as int))),
            None => dec_transactions(bytes@.skip(pos as int)) is None,
        },
{
    let (n, start) = match decode_u64(bytes, pos) {
        Some(x) => x,
        None => {
            return None;
        },
    };
    let ghost s0 = bytes@.skip(start as int);
    let mut acc: Vec<Transaction> = Vec::new();
    let mut cur: usize = start;
    let mut i: u64 = 0;
    proof {
        lemma_prepend_empty_transactions(dec_transactions_items(s0, n as nat));
        assert(acc@.map_values(|t: Transaction| t@) =~= Seq::<TransactionV>::empty());
    }
    while i < n
        invariant
            i <= n,
            pos <= cur <= bytes@.len(),
            acc@.len() == i,
            s0 == bytes@.skip(start as int),
            dec_u64(bytes@.skip(pos as int)) == Some((n, s0)),
            dec_transactions_items(s0, n as nat) == prepend_transactions(
                acc@.map_values(|t: Transaction| t@),
                dec_transactions_items(bytes@.skip(cur as int), (n - i) as nat),
            ),
        decreases n - i,
    {
        match decode_transaction(bytes, cur) {
            Some((v, p)) => {
                proof {
                    let rem = bytes@.skip(cur as int);
                    let k = (n - i) as nat;
                    let inner = dec_transactions_items(bytes@.skip(p as int), (k - 1) as nat);
                    assert(dec_transactions_items(rem, k) == prepend_transactions(
                        seq![v@],
                        inner,
                    ));
                    lemma_prepend_push_transactions(acc@.map_values(|t: Transaction| t@), v@, inner);
                    assert(acc@.map_values(|t: Transaction| t@).push(v@) =~= acc@.push(
                        v,
                    ).map_values(|t: Transaction| t@));
                }
                acc.push(v);
                cur = p;
                i = i + 1;
            }
            None => {
                proof {
                    let k = (n - i) as nat;
                    assert(dec_transactions_items(bytes@.skip(cur as int), k) is None);
                }
                return None;
            }
        }
    }
    proof {
        assert(dec_transactions_items(bytes@.skip(cur as int), 0) == Some(
            (Seq::<TransactionV>::empty(), bytes@.skip(cur as int)),
        ));
        assert(acc@.map_values(|t: Transaction| t@) + Seq::<TransactionV>::empty()
            =~= acc@.map_values(|t: Transaction| t@));
    }
    Some((acc, cur))
}

pub fn decode_authorized_transaction(bytes: &Vec<u8>, pos: usize) -> (r: Option<
    (AuthorizedTransaction, usize),
>)
    requires
        pos <= bytes@.len(),
    ensures
        match r {
            Some((v, p)) => pos <= p <= bytes@.len() && dec_authorized_transaction(
                bytes@.skip(pos as int),
            ) == Some((v@, bytes@.skip(p as int))),
            None => dec_authorized_transaction(bytes@.skip(pos as int)) is None,
        },
{
    let (transaction, cur) = match decode_transaction(bytes, pos) {
        Some(x) => x,
        None => {
            return None;
        },
    };
    let (authorizations, cur) = match decode_authorizations(bytes, cur) {
        Some(x) => x,
        None => {
            return None;
        },
    };
    let t = AuthorizedTransaction { transaction, authorizations };
    assert(dec_authorized_transaction(bytes@.skip(pos as int)) == Some(
        (t@, bytes@.skip(cur as int)),
    ));
    Some((t, cur))
}

pub fn decode_body(bytes: &Vec<u8>, pos: usize) -> (r: Option<(Body, usize)>)
    requires
        pos <= bytes@.len(),
    ensures
        match r {
            Some((v, p)) => pos <= p <= bytes@.len() && dec_body(bytes@.skip(pos as int)) == Some(
                (v@, bytes@.skip(p as int)),
            ),
            None => dec_body(bytes@.skip(pos as int)) is None,
        },
{
    let (coinbase, cur) = match decode_outputs(bytes, pos) {
        Some(x) => x,
        None => {
            return None;
        },
    };
    let (transactions, cur) = match decode_transactions(bytes, cur) {
        Some(x) => x,
        None => {
            return None;
        },
    };
    let (authorizations, cur) = match decode_authorizations(bytes, cur) {
        Some(x) => x,
        None => {
            return None;
        },
    };
    let b = Body { coinbase, transactions, authorizations };
    assert(dec_body(bytes@.skip(pos as int)) == Some((b@, bytes@.skip(cur as int))));
    Some((b, cur))
}

pub fn decode_header(bytes: &Vec<u8>, pos: usize) -> (r: Option<(Header, usize)>)
    requires
        pos <= bytes@.len(),
    ensures
        match r {
            Some((v, p)) => pos <= p <= bytes@.len() && dec_header(bytes@.skip(pos as int)) == Some(
                (v, bytes@.skip(p as int)),
            ),
            None => dec_header(bytes@.skip(pos as int)) is None,
        },
{
    let (merkle_root, cur) = match decode_arr32(bytes, pos) {
        Some(x) => x,
        None => {
            return None;
        },
    };
    let (prev_side_hash, cur) = match decode_arr32(bytes, cur) {
        Some(x) => x,
        None => {
            return None;
        },
    };
    let (prev_main_hash, cur) = match decode_arr32(bytes, cur) {
        Some(x) => x,
        None => {
            return None;
        },
    };
    Some(
        (
            Header {
                merkle_root: MerkleRoot(merkle_root),
                prev_side_hash: BlockHash(prev_side_hash),
                prev_main_hash: MainBlockHash(prev_main_hash),
            },
            cur,
        ),
    )
}

pub fn decode_peer_state(bytes: &Vec<u8>, pos: usize) -> (r: Option<(PeerState, usize)>)
    requires
        pos <= bytes@.len(),
    ensures
        match r {
            Some((v, p)) => pos <= p <= bytes@.len() && dec_peer_state(bytes@.skip(pos as int))
                == Some((v, bytes@.skip(p as int))),
            None => dec_peer_state(bytes@.skip(pos as int)) is None,
        },
{
    match decode_u32(bytes, pos) {
        Some((block_height, cur)) => Some((PeerState { block_height }, cur)),
        None => None,
    }
}

pub fn decode_request(bytes: &Vec<u8>, pos: usize) -> (r: Option<(Request, usize)>)
    requires
        pos <= bytes@.len(),
    ensures
        match r {
            Some((v, p)) => pos <= p <= bytes@.len() && dec_request(bytes@.skip(pos as int))
                == Some((v@, bytes@.skip(p as int))),
            None => dec_request(bytes@.skip(pos as int)) is None,
        },
{
    let (tag, cur) = match decode_u32(bytes, pos) {
        Some(x) => x,
        None => {
            return None;
        },
    };
    if tag == 0 {
        match decode_u32(bytes, cur) {
            Some((height, cur)) => Some((Request::GetBlock { height }, cur)),
            None => None,
        }
    } else if tag == 1 {
        match decode_authorized_transaction(bytes, cur) {
            Some((transaction, cur)) => Some((Request::PushTransaction { transaction }, cur)),
            None => None,
        }
    } else {
        None
    }
}

pub fn decode_response(bytes: &Vec<u8>, pos: usize) -> (r: Option<(Response, usize)>)
    requires
        pos <= bytes@.len(),
    ensures
        match r {
            Some((v, p)) => pos <= p <= bytes@.len() && dec_response(bytes@.skip(pos as int))
                == Some((v@, bytes@.skip(p as int))),
            None => dec_response(bytes@.skip(pos as int)) is None,
        },
{
    let (tag, cur) = match decode_u32(bytes, pos) {
        Some(x) => x,
        None => {
            return None;
        },
    };
    if tag == 0 {
        let (header, cur) = match decode_header(bytes, cur) {
            Some(x) => x,
            None => {
                return None;
            },
        };
        let (body, cur) = match decode_body(bytes, cur) {
            Some(x) => x,
            None => {
                return None;
            },
        };
        Some((Response::Block { header, body }, cur))
    } else if tag == 1 {
        Some((Response::NoBlock, cur))
    } else if tag == 2 {
        Some((Response::TransactionAccepted, cur))
    } else if tag == 3 {
        Some((Response::TransactionRejected, cur))
    } else {
        None
    }
}

} // verus!
