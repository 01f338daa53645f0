//! Sidechain addresses: derivation from an ed25519 public key, and the
//! Base58Check text form.

use vstd::prelude::*;
use crate::types::Address;
use crate::codec::{arr20_from, lemma_arr20_from};

verus! {

/// Base58Check of a byte string with the Bitcoin alphabet: the base-58 text
/// of the bytes followed by their 4-byte double-SHA256 checksum. A function
/// of the bytes alone.
pub uninterp spec fn base58check_of(b: Seq<u8>) -> Seq<char>;

/// The first 20 bytes of the BLAKE3 extended output of a byte string; a
/// function of the input alone.
pub uninterp spec fn blake3_xof20_of(input: Seq<u8>) -> Seq<u8>;

/// Relies on `bs58::encode` with the Bitcoin alphabet and a checksum.
#[verifier::external_body]
fn base58check_encode(b: &[u8; 20]) -> (r: String)
    ensures
        r@ == base58check_of(b@),
{
    bs58::encode(b).with_alphabet(bs58::Alphabet::BITCOIN).with_check().into_string()
}

/// Relies on `bs58::decode` with the Bitcoin alphabet and a checksum: it
/// returns exactly the bytes whose Base58Check form the input is, and fails
/// on every other string.
#[verifier::external_body]
fn base58check_decode(s: &str) -> (r: Option<Vec<u8>>)
    ensures
        match r {
            Some(v) => s@ == base58check_of(v@),
            None => true,
        },
        forall|b: Seq<u8>| s@ == base58check_of(b) ==> r is Some && r->0@ == b,
{
    bs58::decode(s).with_alphabet(bs58::Alphabet::BITCOIN).with_check(None).into_vec().ok()
}

/// Relies on BLAKE3's extendable output (`finalize_xof`): the stream is a
/// deterministic function of the input; we take its first 20 bytes.
#[verifier::external_body]
fn blake3_xof20(input: &[u8; 32]) -> (r: [u8; 20])
    ensures
        r@ == blake3_xof20_of(input@),
{
    let mut hasher = blake3::Hasher::new();
    let mut reader = hasher.update(input).finalize_xof();
    let mut out: [u8; 20] = [0; 20];
    reader.fill(&mut out);
    out
}

/// The address that a public key spends for.
pub open spec fn spec_pk_address(pk: Seq<u8>) -> Address {
    Address(arr20_from(blake3_xof20_of(pk)))
}

/// Derive the sidechain address of an ed25519 public key.
pub fn get_address(public_key: &[u8; 32]) -> (r: Address)
    ensures
        r == spec_pk_address(public_key@),
{
    let digest = blake3_xof20(public_key);
    proof {
        lemma_arr20_from(digest);
    }
    Address(digest)
}

/// The address a string parses to, when it is the Base58Check form of a
/// 20-byte payload.
pub open spec fn spec_parse_address(s: Seq<char>) -> Option<Address> {
    if exists|b: Seq<u8>| b.len() == 20 && base58check_of(b) == s {
        Some(Address(arr20_from(choose|b: Seq<u8>| b.len() == 20 && base58check_of(b) == s)))
    } else {
        None
    }
}

/// Why an address string did not parse.
#[derive(Clone, Copy, Debug, PartialEq, Eq)]
pub enum AddressParseError {
    /// Not Base58Check at all.
    Bs58,
    /// Base58Check of a payload of the wrong length.
    WrongLength(usize),
}

impl Address {
    /// The Base58Check text form of this address.
    pub fn to_base58(&self) -> (r: String)
        ensures
            r@ == base58check_of(self@),
    {
        base58check_encode(&self.0)
    }

    /// Parse the Base58Check text form of an address. Succeeds exactly on
    /// the Base58Check form of a 20-byte payload, and returns that payload.
    pub fn from_str(s: &str) -> (r: Result<Address, AddressParseError>)
        ensures
            match r {
                Ok(a) => s@ == base58check_of(a@),
                Err(AddressParseError::WrongLength(n)) => n != 20 && exists|b: Seq<u8>|
                    b.len() == n && s@ == base58check_of(b),
                Err(AddressParseError::Bs58) => forall|b: Seq<u8>| s@ != base58check_of(b),
            },
            forall|b: Seq<u8>|
                b.len() == 20 && s@ == base58check_of(b) ==> r is Ok && (r->Ok_0)@ == b,
            match r {
                Ok(a) => spec_parse_address(s@) == Some(a),
                Err(_) => spec_parse_address(s@) is None,
            },
    {
        match base58check_decode(s) {
            Some(v) => {
                if v.len() == 20 {
                    let mut a: [u8; 20] = [0; 20];
                    let mut i: usize = 0;
                    while i < 20
                        invariant
                            i <= 20,
                            v@.len() == 20,
                            forall|j: int| 0 <= j < i ==> a@[j] == v@[j],
                        decreases 20 - i,
                    {
                        a[i] = v[i];
                        i += 1;
                    }
                    proof {
                        assert(a@ =~= v@);
                        assert(s@ == base58check_of(a@));
                        let b0 = choose|b: Seq<u8>| b.len() == 20 && base58check_of(b) == s@;
                        assert(b0.len() == 20 && base58check_of(b0) == s@);
                        assert(a@ == b0);
                        lemma_arr20_from(a);
                        assert(arr20_from(b0) == a);
                    }
                    Ok(Address(a))
                } else {
                    proof {
                        if exists|b: Seq<u8>| b.len() == 20 && base58check_of(b) == s@ {
                            let b0 = choose|b: Seq<u8>| b.len() == 20 && base58check_of(b) == s@;
                            assert(b0.len() == 20 && s@ == base58check_of(b0));
                            assert(false);
                        }
                    }
                    Err(AddressParseError::WrongLength(v.len()))
                }
            }
            None => {
                proof {
                    if exists|b: Seq<u8>| b.len() == 20 && base58check_of(b) == s@ {
                        let b0 = choose|b: Seq<u8>| b.len() == 20 && base58check_of(b) == s@;
                        assert(b0.len() == 20 && s@ == base58check_of(b0));
                        assert(false);
                    }
                }
                Err(AddressParseError::Bs58)
            },
        }
    }
}

/// Law: the Base58Check form of an address parses back to the same address.
/// The returned value equals the argument, and the parse cannot fail.
pub fn address_round_trip(a: Address) -> (r: Address)
    ensures
        r == a,
{
    let s = a.to_base58();
    match Address::from_str(s.as_str()) {
        Ok(b) => {
            proof {
                assert(b.0@ == a.0@);
                assert(b.0 =~= a.0);
            }
            b
        }
        Err(_) => {
            proof {
                assert(s@ == base58check_of(a.0@));
                assert(false);
            }
            a
        }
    }
}

} // verus!
