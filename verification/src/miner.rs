//! The miner's pending-block slot. The BMM commitment itself is placed and
//! checked over the mainchain RPC by the caller; this module carries the
//! block between the attempt and its confirmation.

use vstd::prelude::*;
use crate::types::{
    Address, AuthorizedTransaction, Body, BodyV, BlockHash, Content, ContentV, Header,
    MainBlockHash, Output, OutputV,
};
use crate::hashes::{flatten_authorizations, spec_merkle_root};

verus! {

/// How many mempool transactions a block draws at most.
pub const NUM_TRANSACTIONS: usize = 1000;

/// The BMM bribe offered for a block that carries no fees.
pub const EMPTY_BLOCK_BMM_BRIBE: u64 = 1000;

/// The block assembly policy: the drawn transactions and their aggregate
/// fee become a body whose coinbase claims the fee (empty when there is
/// none), under a header that binds the body and extends the chain; the BMM
/// bribe is the fee, or a constant for an empty block.
pub fn assemble_block(
    transactions: Vec<AuthorizedTransaction>,
    fee: u64,
    coinbase_address: Address,
    prev_side_hash: BlockHash,
    prev_main_hash: MainBlockHash,
) -> (r: (Header, Body, u64))
    ensures
        r.2 == if fee > 0 {
            fee
        } else {
            EMPTY_BLOCK_BMM_BRIBE
        },
        r.1@.coinbase == if fee > 0 {
            seq![OutputV { address: coinbase_address, content: ContentV::Value(fee) }]
        } else {
            Seq::<OutputV>::empty()
        },
        r.1@.transactions == transactions@.map_values(
            |t: AuthorizedTransaction| t@.transaction,
        ),
        r.1@.authorizations == flatten_authorizations(
            transactions@.map_values(|t: AuthorizedTransaction| t@),
        ),
        r.0.merkle_root == spec_merkle_root(r.1@.coinbase, r.1@.transactions),
        r.0.prev_side_hash == prev_side_hash,
        r.0.prev_main_hash == prev_main_hash,
{
    let coinbase = if fee > 0 {
        vec![Output { address: coinbase_address, content: Content::Value(fee) }]
    } else {
        Vec::new()
    };
    let ghost coinbase_v = coinbase@.map_values(|o: Output| o@);
    proof {
        if fee > 0 {
            assert(coinbase_v =~= seq![
                OutputV { address: coinbase_address, content: ContentV::Value(fee) },
            ]);
        } else {
            assert(coinbase_v =~= Seq::<OutputV>::empty());
        }
    }
    let body = Body::new(transactions, coinbase);
    let merkle_root = body.compute_merkle_root();
    let header = Header { merkle_root, prev_side_hash, prev_main_hash };
    let bribe = if fee > 0 {
        fee
    } else {
        EMPTY_BLOCK_BMM_BRIBE
    };
    (header, body, bribe)
}

/// The miner: at most one proposed block awaiting its BMM confirmation.
pub struct Miner {
    pub block: Option<(Header, Body)>,
}

impl Miner {
    pub open spec fn view_block(&self) -> Option<(Header, BodyV)> {
        match self.block {
            Some((h, b)) => Some((h, b@)),
            None => None,
        }
    }

    /// A miner with no block pending.
    pub fn new() -> (r: Miner)
        ensures
            r.view_block() is None,
    {
        Miner { block: None }
    }

    /// Record a proposed block once its BMM commitment transaction has been
    /// placed on the mainchain. The header must bind the body.
    pub fn attempt_bmm(&mut self, header: Header, body: Body)
        requires
            header.merkle_root == spec_merkle_root(body@.coinbase, body@.transactions),
        ensures
            final(self).view_block() == Some((header, body@)),
    {
        self.block = Some((header, body));
    }

    /// Hand the stored block out once the caller has verified, against the
    /// mainchain, that the BMM commitment was included; the slot is cleared.
    /// Without verification the block stays for a later attempt.
    pub fn confirm_bmm(&mut self, bmm_verified: bool) -> (r: Option<(Header, Body)>)
        ensures
            match old(self).view_block() {
                Some((h, b)) => if bmm_verified {
                    &&& final(self).view_block() is None
                    &&& r is Some
                    &&& (r->0).0 == h
                    &&& ((r->0).1)@ == b
                } else {
                    &&& final(self).view_block() == old(self).view_block()
                    &&& r is None
                },
                None => final(self).view_block() == old(self).view_block() && r is None,
            },
    {
        if !bmm_verified {
            return None;
        }
        let mut taken: Option<(Header, Body)> = None;
        std::mem::swap(&mut taken, &mut self.block);
        taken
    }
}

} // verus!
