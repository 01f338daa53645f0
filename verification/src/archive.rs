//! The append-only log of accepted headers and bodies: a strictly linear
//! chain, with a hash index over the headers.
//!
//! Well-formedness carries the chain invariants: every header's
//! `prev_side_hash` is the previous header's hash, every stored body's merkle
//! root is bound into its header, and the hash index mirrors the headers.

use vstd::prelude::*;
use crate::types::{BlockHash, Body, BodyV, Header};
use crate::hashes::{spec_block_hash, spec_merkle_root};

verus! {

/// What can go wrong while extending the chain.
#[derive(Clone, Copy, Debug, PartialEq, Eq)]
pub enum Error {
    /// The header does not extend the current best header.
    InvalidPrevSideHash,
    /// The body's merkle root is not the header's.
    InvalidMerkleRoot,
    /// No header with this hash has been appended.
    NoHeader(BlockHash),
}

/// View of [`Archive`].
#[verifier::ext_equal]
pub struct ArchiveV {
    pub headers: Seq<Header>,
    pub bodies: Seq<Option<BodyV>>,
    pub hash_to_height: Seq<(BlockHash, u32)>,
}

/// The chain archive. The header at height `i` (heights start at 1) is
/// `headers[i - 1]`; its body, once stored, is `bodies[i - 1]`.
pub struct Archive {
    pub headers: Vec<Header>,
    pub bodies: Vec<Option<Body>>,
    pub hash_to_height: Vec<(BlockHash, u32)>,
}

impl View for Archive {
    type V = ArchiveV;

    open spec fn view(&self) -> ArchiveV {
        ArchiveV {
            headers: self.headers@,
            bodies: self.bodies@.map_values(
                |b: Option<Body>| match b {
                    Some(body) => Some(body@),
                    None => None,
                },
            ),
            hash_to_height: self.hash_to_height@,
        }
    }
}

/// The hash that an empty chain extends from.
pub open spec fn spec_zero_block_hash() -> BlockHash {
    BlockHash(crate::codec::arr32_from(crate::state::zero_bytes32()))
}

/// The hash the next header must name: the last header's, or the zero hash
/// on an empty chain.
pub open spec fn spec_best_hash(a: ArchiveV) -> BlockHash {
    if a.headers.len() == 0 {
        spec_zero_block_hash()
    } else {
        spec_block_hash(a.headers.last())
    }
}

impl Archive {
    /// The chain invariants.
    pub open spec fn wf(&self) -> bool {
        &&& self@.bodies.len() == self@.headers.len()
        &&& self@.hash_to_height.len() == self@.headers.len()
        &&& self@.headers.len() <= u32::MAX
        // The hash index mirrors the headers positionally.
        &&& forall|i: int|
            0 <= i < self@.headers.len() ==> #[trigger] self@.hash_to_height[i] == (
            spec_block_hash(self@.headers[i]),
            (i + 1) as u32,
            )
        // Each header extends its predecessor; the first extends the zero hash.
        &&& forall|i: int|
            0 < i < self@.headers.len() ==> (#[trigger] self@.headers[i]).prev_side_hash
                == spec_block_hash(self@.headers[i - 1])
        &&& self@.headers.len() > 0 ==> self@.headers[0].prev_side_hash == spec_zero_block_hash()
        // Each stored body's merkle root is its header's.
        &&& forall|i: int|
            0 <= i < self@.bodies.len() && self@.bodies[i] is Some ==> (
            #[trigger] self@.headers[i]).merkle_root == spec_merkle_root(
                self@.bodies[i]->0.coinbase,
                self@.bodies[i]->0.transactions,
            )
    }

    /// An empty chain.
    pub fn new() -> (r: Archive)
        ensures
            r.wf(),
            r@.headers.len() == 0,
            r@.bodies.len() == 0,
            r@.hash_to_height.len() == 0,
    {
        let r = Archive { headers: Vec::new(), bodies: Vec::new(), hash_to_height: Vec::new() };
        proof {
            assert(r@.bodies =~= Seq::<Option<BodyV>>::empty());
        }
        r
    }

    /// The header at a height, if the chain reaches it. Height 0 is the
    /// empty-chain marker and holds no header.
    pub fn get_header(&self, height: u32) -> (r: Option<Header>)
        requires
            self.wf(),
        ensures
            match r {
                Some(h) => 1 <= height <= self@.headers.len() && h == self@.headers[height - 1],
                None => height == 0 || height > self@.headers.len(),
            },
    {
        if height == 0 || height as usize > self.headers.len() {
            None
        } else {
            Some(self.headers[height as usize - 1])
        }
    }

    /// The body at a height, if it has been stored.
    pub fn get_body(&self, height: u32) -> (r: Option<Body>)
        requires
            self.wf(),
        ensures
            match r {
                Some(b) => 1 <= height <= self@.bodies.len() && self@.bodies[height - 1] == Some(
                    b@,
                ),
                None => height == 0 || height > self@.bodies.len() || self@.bodies[height - 1]
                    is None,
            },
    {
        if height == 0 || height as usize > self.bodies.len() {
            None
        } else {
            match &self.bodies[height as usize - 1] {
                Some(b) => Some(crate::types::clone_body(b)),
                None => None,
            }
        }
    }

    /// The hash of the last accepted header, or the zero hash on an empty
    /// chain.
    pub fn get_best_hash(&self) -> (r: BlockHash)
        requires
            self.wf(),
        ensures
            r == spec_best_hash(self@),
    {
        if self.headers.len() == 0 {
            let zero: [u8; 32] = [0; 32];
            proof {
                assert(zero@ =~= crate::state::zero_bytes32());
                crate::codec::lemma_arr32_from(zero);
            }
            BlockHash(zero)
        } else {
            self.headers[self.headers.len() - 1].hash()
        }
    }

    /// The height of the chain: how many headers have ever been appended.
    pub fn get_height(&self) -> (r: u32)
        requires
            self.wf(),
        ensures
            r == self@.headers.len(),
    {
        self.headers.len() as u32
    }

    /// Append a header that extends the current best header; index its hash.
    pub fn append_header(&mut self, header: &Header) -> (r: Result<(), Error>)
        requires
            old(self).wf(),
            old(self)@.headers.len() < u32::MAX,
        ensures
            match r {
                Ok(()) => {
                    &&& header.prev_side_hash == spec_best_hash(old(self)@)
                    &&& final(self).wf()
                    &&& final(self)@.headers == old(self)@.headers.push(*header)
                    &&& final(self)@.bodies == old(self)@.bodies.push(None::<BodyV>)
                    &&& final(self)@.hash_to_height == old(self)@.hash_to_height.push(
                        (spec_block_hash(*header), (old(self)@.headers.len() + 1) as u32),
                    )
                },
                Err(Error::InvalidPrevSideHash) => {
                    &&& header.prev_side_hash != spec_best_hash(old(self)@)
                    &&& final(self)@ == old(self)@
                },
                _ => false,
            },
    {
        let best_hash = self.get_best_hash();
        if !crate::types::block_hash_eq(&header.prev_side_hash, &best_hash) {
            return Err(Error::InvalidPrevSideHash);
        }
        let new_height = self.headers.len() as u32 + 1;
        let hash = header.hash();
        self.headers.push(*header);
        self.bodies.push(None);
        self.hash_to_height.push((hash, new_height));
        proof {
            assert(self@.bodies =~= old(self)@.bodies.push(None::<BodyV>));
        }
        Ok(())
    }

    /// Store the body of an already-appended header, after checking that the
    /// header binds it. The header is looked up through the hash index. The
    /// merkle root is checked first: a mismatch is refused as
    /// `InvalidMerkleRoot` even for an unknown header, and `NoHeader` comes
    /// only with a matching root.
    pub fn put_body(&mut self, header: &Header, body: &Body) -> (r: Result<(), Error>)
        requires
            old(self).wf(),
        ensures
            final(self).wf(),
            header.merkle_root != spec_merkle_root(body@.coinbase, body@.transactions) ==> r
                == Err::<(), Error>(Error::InvalidMerkleRoot),
            match r {
                Ok(()) => {
                    &&& header.merkle_root == spec_merkle_root(body@.coinbase, body@.transactions)
                    &&& exists|i: int|
                        0 <= i < old(self)@.headers.len() && #[trigger] old(self)@.headers[i]
                            == *header && final(self)@.bodies == old(self)@.bodies.update(
                            i,
                            Some(body@),
                        )
                    &&& final(self)@.headers == old(self)@.headers
                    &&& final(self)@.hash_to_height == old(self)@.hash_to_height
                },
                Err(Error::InvalidMerkleRoot) => {
                    &&& header.merkle_root != spec_merkle_root(body@.coinbase, body@.transactions)
                    &&& final(self)@ == old(self)@
                },
                Err(Error::NoHeader(h)) => {
                    &&& h == spec_block_hash(*header)
                    &&& header.merkle_root == spec_merkle_root(body@.coinbase, body@.transactions)
                    &&& forall|i: int|
                        0 <= i < old(self)@.headers.len() ==> #[trigger] old(self)@.headers[i]
                            != *header
                    &&& final(self)@ == old(self)@
                },
                _ => false,
            },
    {
        let root = body.compute_merkle_root();
        if !crate::types::bytes32_eq(&header.merkle_root.0, &root.0) {
            proof {
                if header.merkle_root == root {
                    assert(header.merkle_root.0@ == root.0@);
                }
            }
            return Err(Error::InvalidMerkleRoot);
        }
        proof {
            assert(header.merkle_root.0 =~= root.0);
        }
        let hash = header.hash();
        let mut i: usize = 0;
        while i < self.hash_to_height.len()
            invariant
                i <= self@.hash_to_height.len(),
                self.wf(),
                self@ == old(self)@,
                hash == spec_block_hash(*header),
                header.merkle_root == spec_merkle_root(body@.coinbase, body@.transactions),
                forall|k: int| 0 <= k < i ==> #[trigger] self@.headers[k] != *header,
            decreases self@.hash_to_height.len() - i,
        {
            if crate::types::block_hash_eq(&self.hash_to_height[i].0, &hash)
                && crate::types::header_eq(&self.headers[i], header) {
                let height_index = i;
                let _ = self.bodies.remove(height_index);
                self.bodies.insert(height_index, Some(crate::types::clone_body(body)));
                proof {
                    assert(self@.bodies =~= old(self)@.bodies.update(i as int, Some(body@)));
                    assert(self@.headers == old(self)@.headers);
                    assert(self.wf());
                }
                return Ok(());
            }
            proof {
                if self@.headers[i as int] == *header {
                    assert(self@.hash_to_height[i as int].0 == spec_block_hash(
                        self@.headers[i as int],
                    ));
                }
            }
            i += 1;
        }
        Err(Error::NoHeader(hash))
    }
}

/// Law: the hash index names exactly the accepted headers. When no two
/// accepted headers share a hash, `hash_to_height` holds `(h, i)` exactly
/// when the header at height `i` hashes to `h`.
pub proof fn lemma_hash_index_exact(a: ArchiveV, h: BlockHash, i: u32)
    requires
        a.bodies.len() == a.headers.len(),
        a.hash_to_height.len() == a.headers.len(),
        a.headers.len() <= u32::MAX,
        forall|k: int|
            0 <= k < a.headers.len() ==> #[trigger] a.hash_to_height[k] == (
            spec_block_hash(a.headers[k]),
            (k + 1) as u32,
            ),
        forall|x: int, y: int|
            0 <= x < y < a.headers.len() ==> spec_block_hash(#[trigger] a.headers[x])
                != spec_block_hash(#[trigger] a.headers[y]),
    ensures
        a.hash_to_height.contains((h, i)) <==> (1 <= i <= a.headers.len() && spec_block_hash(
            a.headers[i - 1],
        ) == h),
{
    if a.hash_to_height.contains((h, i)) {
        let k = choose|k: int| 0 <= k < a.hash_to_height.len() && a.hash_to_height[k] == (h, i);
        assert(a.hash_to_height[k] == (spec_block_hash(a.headers[k]), (k + 1) as u32));
    }
    if 1 <= i <= a.headers.len() && spec_block_hash(a.headers[i - 1]) == h {
        assert(a.hash_to_height[i - 1] == (h, i));
    }
}

} // verus!
