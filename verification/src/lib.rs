//! Core consensus engine of a UTXO-based sidechain that is pegged to a
//! Bitcoin-like mainchain through blind merged mining.
//!
//! The library keeps the authoritative ledger state in memory and verifies
//! the rules that govern it: block validation and application, two-way-peg
//! bookkeeping, withdrawal-bundle aggregation, mempool admission, and the
//! byte codec of the peer wire protocol.

pub mod types;
pub mod codec;
pub mod hashes;
pub mod address;
pub mod authorization;
pub mod state;
pub mod mainchain;
pub mod archive;
pub mod mempool;
pub mod node;
pub mod miner;
pub mod peg;
pub mod laws;
pub mod explorer;
pub mod wallet;

use vstd::prelude::*;

verus! {

/// The lowercase hex of the SHA-256 digest of a byte string; a function of
/// the input alone.
pub uninterp spec fn sha256_hex_of(input: Seq<u8>) -> Seq<u8>;

/// Relies on the sha256 crate's `digest`: the lowercase hex form of the
/// SHA-256 of the input, 64 characters, a function of the input alone.
#[verifier::external_body]
fn sha256_hex(input: &Vec<u8>) -> (r: Vec<u8>)
    ensures
        r@ == sha256_hex_of(input@),
        r@.len() == 64,
{
    sha256::digest(input.as_slice()).into_bytes()
}

/// The ASCII decimal form of a byte.
pub open spec fn dec_digits(n: u8) -> Seq<u8> {
    if n < 10 {
        seq![(0x30 + n) as u8]
    } else if n < 100 {
        seq![(0x30 + n / 10) as u8, (0x30 + n % 10) as u8]
    } else {
        seq![(0x30 + n / 100) as u8, (0x30 + (n / 10) % 10) as u8, (0x30 + n % 10) as u8]
    }
}

/// The address text a depositor is shown, before its checksum:
/// `s<sidechain>_<destination>_`.
pub open spec fn spec_deposit_address_prefix(this_sidechain: u8, str_dest: Seq<u8>) -> Seq<u8> {
    seq![0x73u8] + dec_digits(this_sidechain) + seq![0x5fu8] + str_dest + seq![0x5fu8]
}

/// The full deposit address: the prefix followed by the first 6 hex
/// characters of its SHA-256, as ASCII bytes.
pub open spec fn spec_format_deposit_address(this_sidechain: u8, str_dest: Seq<u8>) -> Seq<u8> {
    spec_deposit_address_prefix(this_sidechain, str_dest) + sha256_hex_of(
        spec_deposit_address_prefix(this_sidechain, str_dest),
    ).take(6)
}

/// Format a destination with the `s<sidechain>_` prefix and a checksum
/// postfix for `createsidechaindeposit`, as ASCII bytes.
pub fn format_deposit_address(this_sidechain: u8, str_dest: &Vec<u8>) -> (r: Vec<u8>)
    ensures
        r@ == spec_format_deposit_address(this_sidechain, str_dest@),
{
    let mut prefix: Vec<u8> = Vec::new();
    prefix.push(0x73);
    if this_sidechain >= 100 {
        prefix.push(0x30 + this_sidechain / 100);
        prefix.push(0x30 + (this_sidechain / 10) % 10);
        prefix.push(0x30 + this_sidechain % 10);
    } else if this_sidechain >= 10 {
        prefix.push(0x30 + this_sidechain / 10);
        prefix.push(0x30 + this_sidechain % 10);
    } else {
        prefix.push(0x30 + this_sidechain);
    }
    prefix.push(0x5f);
    proof {
        assert(str_dest@.take(0) =~= Seq::<u8>::empty());
        assert(prefix@ =~= seq![0x73u8] + dec_digits(this_sidechain) + seq![0x5fu8]
            + str_dest@.take(0));
    }
    let mut i: usize = 0;
    while i < str_dest.len()
        invariant
            i <= str_dest@.len(),
            prefix@ == seq![0x73u8] + dec_digits(this_sidechain) + seq![0x5fu8] + str_dest@.take(
                i as int,
            ),
        decreases str_dest@.len() - i,
    {
        prefix.push(str_dest[i]);
        proof {
            assert(str_dest@.take(i + 1 as int) =~= str_dest@.take(i as int).push(
                str_dest@[i as int],
            ));
            assert(prefix@ =~= seq![0x73u8] + dec_digits(this_sidechain) + seq![0x5fu8]
                + str_dest@.take(i + 1 as int));
        }
        i += 1;
    }
    proof {
        assert(str_dest@.take(str_dest@.len() as int) =~= str_dest@);
    }
    prefix.push(0x5f);
    proof {
        assert(prefix@ =~= spec_deposit_address_prefix(this_sidechain, str_dest@));
    }
    let digest = sha256_hex(&prefix);
    let mut r = prefix;
    let ghost before = r@;
    let mut i: usize = 0;
    proof {
        assert(r@ =~= before + digest@.take(0));
    }
    while i < 6
        invariant
            i <= 6,
            digest@.len() == 64,
            digest@ == sha256_hex_of(spec_deposit_address_prefix(this_sidechain, str_dest@)),
            before == spec_deposit_address_prefix(this_sidechain, str_dest@),
            r@ == before + digest@.take(i as int),
        decreases 6 - i,
    {
        r.push(digest[i]);
        proof {
            assert(digest@.take(i + 1 as int) =~= digest@.take(i as int).push(
                digest@[i as int],
            ));
            assert(r@ =~= before + digest@.take(i + 1 as int));
        }
        i += 1;
    }
    r
}

} // verus!
