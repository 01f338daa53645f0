//! Transaction authorization: ed25519 signatures over the serialised
//! transaction, one per input.

use vstd::prelude::*;
use crate::types::{
    Address, Authorization, AuthorizedTransaction, AuthorizedTransactionV, Body, BodyV, GetAddress,
    Transaction, TransactionV,
};
use crate::codec::{enc_transaction, encode_transaction};
use crate::address::{get_address, spec_pk_address};
use ed25519_dalek::Verifier;

verus! {

/// Whether `sig` is a valid ed25519 signature on `msg` under the public key
/// `pk`; a function of the three byte strings alone. Malformed keys or
/// signatures validate nothing.
pub uninterp spec fn ed25519_valid(pk: Seq<u8>, msg: Seq<u8>, sig: Seq<u8>) -> bool;

/// Relies on `ed25519_dalek::PublicKey::verify`: acceptance is a pure
/// function of the key bytes, the message, and the signature bytes.
#[verifier::external_body]
fn ed25519_verify(pk: &[u8; 32], msg: &Vec<u8>, sig: &[u8; 64]) -> (r: bool)
    ensures
        r == ed25519_valid(pk@, msg@, sig@),
{
    let pk = match ed25519_dalek::PublicKey::from_bytes(pk) {
        Ok(k) => k,
        Err(_) => return false,
    };
    let sig = match ed25519_dalek::Signature::try_from(&sig[..]) {
        Ok(s) => s,
        Err(_) => return false,
    };
    pk.verify(msg.as_slice(), &sig).is_ok()
}

/// An ed25519 keypair of the outside signature library, carried opaquely.
#[verifier::external_type_specification]
#[verifier::external_body]
pub struct ExKeypair(ed25519_dalek::Keypair);

/// Relies on `ed25519_dalek::ExpandedSecretKey::sign` and RFC 8032: signing
/// with a secret key, against the public key derived from that same secret,
/// yields a signature that verifies under that public key, whose bytes are
/// returned alongside. The keypair's stored public half is not trusted: a
/// caller may have paired a secret with a foreign public key, under which
/// the signature would not verify.
#[verifier::external_body]
fn sign_with(keypair: &ed25519_dalek::Keypair, msg: &Vec<u8>) -> (r: ([u8; 32], [u8; 64]))
    ensures
        ed25519_valid(r.0@, msg@, r.1@),
{
    let public = ed25519_dalek::PublicKey::from(&keypair.secret);
    let expanded = ed25519_dalek::ExpandedSecretKey::from(&keypair.secret);
    let sig = expanded.sign(msg.as_slice(), &public);
    (public.to_bytes(), sig.to_bytes())
}

impl GetAddress for Authorization {
    open spec fn spec_get_address(&self) -> Seq<u8> {
        spec_pk_address(self.public_key@)@
    }

    fn get_address(&self) -> (r: Address) {
        get_address(&self.public_key)
    }
}

/// Whether an authorization validates a given message.
pub open spec fn auth_valid_for(a: Authorization, msg: Seq<u8>) -> bool {
    ed25519_valid(a.public_key@, msg, a.signature@)
}

/// Whether every authorization of the transaction signs its serialised form.
pub open spec fn authorized_tx_valid(t: AuthorizedTransactionV) -> bool {
    forall|i: int|
        0 <= i < t.authorizations.len() ==> auth_valid_for(
            #[trigger] t.authorizations[i],
            enc_transaction(t.transaction),
        )
}

/// The message each of a body's authorizations must sign: each transaction's
/// serialised form, repeated once per input of that transaction, in order.
pub open spec fn body_auth_msgs(txs: Seq<TransactionV>) -> Seq<Seq<u8>>
    decreases txs.len(),
{
    if txs.len() == 0 {
        Seq::empty()
    } else {
        Seq::new(txs[0].inputs.len(), |i: int| enc_transaction(txs[0])) + body_auth_msgs(
            txs.skip(1),
        )
    }
}

/// Whether a body's flat authorization list validates, pairing each
/// authorization with its transaction's serialised form.
pub open spec fn body_auths_valid(b: BodyV) -> bool {
    &&& b.authorizations.len() == body_auth_msgs(b.transactions).len()
    &&& forall|j: int|
        0 <= j < b.authorizations.len() ==> auth_valid_for(
            #[trigger] b.authorizations[j],
            body_auth_msgs(b.transactions)[j],
        )
}

pub proof fn lemma_body_auth_msgs_push(txs: Seq<TransactionV>, x: TransactionV)
    ensures
        body_auth_msgs(txs.push(x)) == body_auth_msgs(txs) + Seq::new(
            x.inputs.len(),
            |i: int| enc_transaction(x),
        ),
    decreases txs.len(),
{
    let piece = Seq::new(x.inputs.len(), |i: int| enc_transaction(x));
    if txs.len() == 0 {
        assert(txs.push(x)[0] == x);
        assert(txs.push(x).skip(1) =~= Seq::<TransactionV>::empty());
        assert(body_auth_msgs(txs.push(x)) == piece + body_auth_msgs(
            Seq::<TransactionV>::empty(),
        ));
        assert(piece + Seq::<Seq<u8>>::empty() =~= piece);
        assert(Seq::<Seq<u8>>::empty() + piece =~= piece);
    } else {
        let head = Seq::new(txs[0].inputs.len(), |i: int| enc_transaction(txs[0]));
        assert(txs.push(x)[0] == txs[0]);
        assert(txs.push(x).skip(1) =~= txs.skip(1).push(x));
        lemma_body_auth_msgs_push(txs.skip(1), x);
        assert(body_auth_msgs(txs.push(x)) == head + (body_auth_msgs(txs.skip(1)) + piece));
        assert(head + (body_auth_msgs(txs.skip(1)) + piece) =~= (head + body_auth_msgs(
            txs.skip(1),
        )) + piece);
    }
}

/// Verify every authorization of a transaction against its serialised form.
pub fn verify_authorized_transaction(transaction: &AuthorizedTransaction) -> (r: bool)
    ensures
        r == authorized_tx_valid(transaction@),
{
    let msg = encode_transaction(&transaction.transaction);
    let mut i: usize = 0;
    while i < transaction.authorizations.len()
        invariant
            i <= transaction.authorizations.len(),
            msg@ == enc_transaction(transaction@.transaction),
            forall|j: int|
                0 <= j < i ==> auth_valid_for(
                    #[trigger] transaction@.authorizations[j],
                    enc_transaction(transaction@.transaction),
                ),
        decreases transaction.authorizations.len() - i,
    {
        let a = &transaction.authorizations[i];
        if !ed25519_verify(&a.public_key, &msg, &a.signature) {
            proof {
                assert(transaction@.authorizations[i as int] == *a);
                assert(!auth_valid_for(
                    transaction@.authorizations[i as int],
                    enc_transaction(transaction@.transaction),
                ));
            }
            return false;
        }
        i += 1;
    }
    true
}

/// Verify a body's authorizations: the flat list must pair exactly with the
/// concatenated inputs of its transactions, each signing its transaction.
pub fn verify_authorizations(body: &Body) -> (r: bool)
    ensures
        r == body_auths_valid(body@),
{
    let ghost txs = body@.transactions;
    let ghost msgs = body_auth_msgs(txs);
    let mut j: usize = 0;
    let mut ti: usize = 0;
    while ti < body.transactions.len()
        invariant
            ti <= body.transactions.len(),
            txs == body@.transactions,
            msgs == body_auth_msgs(txs),
            txs.len() == body.transactions.len(),
            forall|k: int| 0 <= k < txs.len() ==> txs[k] == body.transactions@[k]@,
            j <= body.authorizations.len(),
            j == body_auth_msgs(txs.take(ti as int)).len(),
            forall|k: int|
                0 <= k < j ==> auth_valid_for(
                    #[trigger] body@.authorizations[k],
                    body_auth_msgs(txs.take(ti as int))[k],
                ),
            forall|k: int|
                0 <= k < j ==> body_auth_msgs(txs.take(ti as int))[k] == msgs[k],
        decreases body.transactions.len() - ti,
    {
        let tx = &body.transactions[ti];
        let msg = encode_transaction(tx);
        let ghost before = body_auth_msgs(txs.take(ti as int));
        let ghost piece = Seq::new(txs[ti as int].inputs.len(), |i: int| enc_transaction(
            txs[ti as int],
        ));
        proof {
            lemma_body_auth_msgs_push(txs.take(ti as int), txs[ti as int]);
            assert(txs.take(ti + 1 as int) =~= txs.take(ti as int).push(txs[ti as int]));
            assert(body_auth_msgs(txs.take(ti + 1 as int)) == before + piece);
        }
        let mut ii: usize = 0;
        while ii < tx.inputs.len()
            invariant
                ii <= tx.inputs.len(),
                txs == body@.transactions,
                msgs == body_auth_msgs(txs),
                ti < txs.len(),
                tx@ == txs[ti as int],
                tx.inputs.len() == txs[ti as int].inputs.len(),
                msg@ == enc_transaction(txs[ti as int]),
                before == body_auth_msgs(txs.take(ti as int)),
                piece == Seq::new(txs[ti as int].inputs.len(), |i: int| enc_transaction(
                    txs[ti as int],
                )),
                body_auth_msgs(txs.take(ti + 1 as int)) == before + piece,
                j == before.len() + ii,
                j <= body.authorizations.len(),
                forall|k: int|
                    0 <= k < before.len() ==> auth_valid_for(
                        #[trigger] body@.authorizations[k],
                        before[k],
                    ),
                forall|k: int|
                    before.len() <= k < j ==> auth_valid_for(
                        #[trigger] body@.authorizations[k],
                        enc_transaction(txs[ti as int]),
                    ),
                forall|k: int| 0 <= k < before.len() ==> before[k] == msgs[k],
            decreases tx.inputs.len() - ii,
        {
            if j >= body.authorizations.len() {
                proof {
                    lemma_body_auth_msgs_len_lower(txs, ti as int);
                }
                return false;
            }
            let a = &body.authorizations[j];
            if !ed25519_verify(&a.public_key, &msg, &a.signature) {
                proof {
                    lemma_body_auth_msgs_index(txs, ti as int, ii as int);
                }
                return false;
            }
            j += 1;
            ii += 1;
        }
        proof {
            assert(forall|k: int|
                before.len() <= k < j ==> #[trigger] body_auth_msgs(txs.take(ti + 1 as int))[k]
                    == enc_transaction(txs[ti as int]));
            assert(forall|k: int|
                0 <= k < j ==> auth_valid_for(
                    #[trigger] body@.authorizations[k],
                    body_auth_msgs(txs.take(ti + 1 as int))[k],
                ));
            lemma_body_auth_msgs_prefix(txs, ti + 1 as int);
        }
        ti += 1;
    }
    proof {
        assert(txs.take(txs.len() as int) =~= txs);
    }
    if j != body.authorizations.len() {
        return false;
    }
    true
}

/// The messages of a prefix of the transactions form a prefix of the whole
/// message list.
pub proof fn lemma_body_auth_msgs_prefix(txs: Seq<TransactionV>, n: int)
    requires
        0 <= n <= txs.len(),
    ensures
        body_auth_msgs(txs.take(n)).len() <= body_auth_msgs(txs).len(),
        forall|k: int|
            0 <= k < body_auth_msgs(txs.take(n)).len() ==> body_auth_msgs(txs.take(n))[k]
                == body_auth_msgs(txs)[k],
    decreases txs.len() - n,
{
    if n == txs.len() {
        assert(txs.take(n) =~= txs);
    } else {
        lemma_body_auth_msgs_push(txs.take(n), txs[n]);
        assert(txs.take(n + 1) =~= txs.take(n).push(txs[n]));
        lemma_body_auth_msgs_prefix(txs, n + 1);
    }
}

/// A transaction that still follows contributes its input count to the
/// total message count.
pub proof fn lemma_body_auth_msgs_len_lower(txs: Seq<TransactionV>, ti: int)
    requires
        0 <= ti < txs.len(),
    ensures
        body_auth_msgs(txs).len() >= body_auth_msgs(txs.take(ti)).len() + txs[ti].inputs.len(),
{
    lemma_body_auth_msgs_push(txs.take(ti), txs[ti]);
    assert(txs.take(ti + 1) =~= txs.take(ti).push(txs[ti]));
    lemma_body_auth_msgs_prefix(txs, ti + 1);
}

/// The message at a position inside transaction `ti`'s block of inputs is
/// that transaction's serialised form.
pub proof fn lemma_body_auth_msgs_index(txs: Seq<TransactionV>, ti: int, ii: int)
    requires
        0 <= ti < txs.len(),
        0 <= ii < txs[ti].inputs.len(),
    ensures
        body_auth_msgs(txs).len() > body_auth_msgs(txs.take(ti)).len() + ii,
        body_auth_msgs(txs)[body_auth_msgs(txs.take(ti)).len() + ii] == enc_transaction(txs[ti]),
{
    lemma_body_auth_msgs_push(txs.take(ti), txs[ti]);
    assert(txs.take(ti + 1) =~= txs.take(ti).push(txs[ti]));
    lemma_body_auth_msgs_prefix(txs, ti + 1);
}

/// A body has exactly one authorization message per input.
pub proof fn lemma_body_auth_msgs_count(txs: Seq<TransactionV>)
    ensures
        body_auth_msgs(txs).len() == crate::hashes::body_inputs(txs).len(),
    decreases txs.len(),
{
    if txs.len() > 0 {
        lemma_body_auth_msgs_count(txs.skip(1));
    }
}

/// Why signing a transaction failed.
#[derive(Clone, Copy, Debug, PartialEq, Eq)]
pub enum AuthorizationError {
    /// The keypair offered for an address does not hash to it.
    WrongKeypairForAddress { address: Address, hash_public_key: Address },
}

/// Sign a transaction with a keypair; returns the keypair's public key bytes
/// and the signature, which validates the serialised transaction.
pub fn sign(keypair: &ed25519_dalek::Keypair, transaction: &Transaction) -> (r: ([u8; 32], [u8; 64]))
    ensures
        ed25519_valid(r.0@, enc_transaction(transaction@), r.1@),
{
    let msg = encode_transaction(transaction);
    sign_with(keypair, &msg)
}

/// Authorize a transaction: sign it once per input with the keypair offered
/// for that input's address, refusing a keypair that does not hash to its
/// address. On success every authorization validates the transaction and
/// spends for the given address.
pub fn authorize(
    addresses_keypairs: &Vec<(Address, ed25519_dalek::Keypair)>,
    transaction: Transaction,
) -> (r: Result<AuthorizedTransaction, AuthorizationError>)
    ensures
        match r {
            Ok(at) => {
                &&& at@.transaction == transaction@
                &&& at@.authorizations.len() == addresses_keypairs@.len()
                &&& authorized_tx_valid(at@)
                &&& forall|i: int|
                    0 <= i < addresses_keypairs@.len()
                        ==> spec_pk_address(#[trigger] at@.authorizations[i].public_key@)
                        == addresses_keypairs@[i].0
            },
            Err(AuthorizationError::WrongKeypairForAddress { address, hash_public_key }) => {
                &&& address != hash_public_key
                &&& exists|i: int|
                    0 <= i < addresses_keypairs@.len() && (
                    #[trigger] addresses_keypairs@[i]).0 == address
            },
        },
{
    let msg = encode_transaction(&transaction);
    let mut authorizations: Vec<Authorization> = Vec::new();
    let mut i: usize = 0;
    while i < addresses_keypairs.len()
        invariant
            i <= addresses_keypairs.len(),
            msg@ == enc_transaction(transaction@),
            authorizations@.len() == i,
            forall|k: int|
                0 <= k < i ==> auth_valid_for(
                    #[trigger] authorizations@[k],
                    enc_transaction(transaction@),
                ),
            forall|k: int|
                0 <= k < i ==> spec_pk_address(#[trigger] authorizations@[k].public_key@)
                    == addresses_keypairs@[k].0,
        decreases addresses_keypairs.len() - i,
    {
        let (public_key, signature) = sign_with(&addresses_keypairs[i].1, &msg);
        let hash_public_key = get_address(&public_key);
        if !crate::types::address_eq(&addresses_keypairs[i].0, &hash_public_key) {
            proof {
                assert(addresses_keypairs@[i as int].0 == addresses_keypairs@[i as int].0);
            }
            return Err(AuthorizationError::WrongKeypairForAddress {
                address: addresses_keypairs[i].0,
                hash_public_key,
            });
        }
        authorizations.push(Authorization { public_key, signature });
        i += 1;
    }
    Ok(AuthorizedTransaction { transaction, authorizations })
}

} // verus!
