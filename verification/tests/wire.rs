//! The wire codec, addresses, hex, deposit parsing and broadcast bytes,
//! exercised against the real outside libraries.

use sidechain_core::address::{address_round_trip, get_address, AddressParseError};
use sidechain_core::codec::{
    decode_authorized_transaction, decode_body, decode_content, decode_header, decode_outpoint,
    decode_peer_state, decode_request, decode_response, encode_authorized_transaction, encode_body,
    encode_header, encode_peer_state, encode_request, encode_response,
};
use sidechain_core::format_deposit_address;
use sidechain_core::peg::{
    bundle_raw_tx_hex, get_deposit_outputs, get_withdrawal_bundle_statuses, hex_decode, hex_encode,
    DepositRecord, FailedWithdrawal, SpentWithdrawal,
};
use sidechain_core::types::{
    Address, Authorization, AuthorizedTransaction, Body, Content, Header, MainAddress,
    MainBlockHash, MainOutPoint, MainTransaction, MainTxid, MainTxIn, MainTxOut, MerkleRoot,
    OutPoint, Output, PeerState, Request, Response, Transaction, Txid, WithdrawalBundleStatus,
};

fn sample_address(seed: u8) -> Address {
    let secret = ed25519_dalek::SecretKey::from_bytes(&[seed; 32]).unwrap();
    let public = ed25519_dalek::PublicKey::from(&secret);
    get_address(&public.to_bytes())
}

fn sample_transaction() -> Transaction {
    Transaction {
        inputs: vec![
            OutPoint::Regular { txid: Txid([1; 32]), vout: 3 },
            OutPoint::Coinbase { merkle_root: MerkleRoot([2; 32]), vout: 0 },
            OutPoint::Deposit(MainOutPoint { txid: MainTxid([3; 32]), vout: 7 }),
        ],
        outputs: vec![
            Output { address: sample_address(1), content: Content::Value(42) },
            Output {
                address: sample_address(2),
                content: Content::Withdrawal {
                    value: 9,
                    main_fee: 2,
                    main_address: MainAddress(vec![0xaa, 0xbb]),
                },
            },
        ],
    }
}

fn sample_body() -> Body {
    let tx = sample_transaction();
    let at = AuthorizedTransaction {
        transaction: tx,
        authorizations: vec![
            Authorization { public_key: [4; 32], signature: [5; 64] },
            Authorization { public_key: [6; 32], signature: [7; 64] },
            Authorization { public_key: [8; 32], signature: [9; 64] },
        ],
    };
    Body::new(
        vec![at],
        vec![Output { address: sample_address(3), content: Content::Value(11) }],
    )
}

#[test]
fn header_round_trip() {
    let h = Header {
        merkle_root: MerkleRoot([1; 32]),
        prev_side_hash: sidechain_core::types::BlockHash([2; 32]),
        prev_main_hash: MainBlockHash([3; 32]),
    };
    let bytes = encode_header(&h);
    assert_eq!(bytes.len(), 96);
    let (decoded, used) = decode_header(&bytes, 0).unwrap();
    assert_eq!(decoded, h);
    assert_eq!(used, bytes.len());
    // Truncated input does not parse.
    let short = bytes[..95].to_vec();
    assert!(decode_header(&short, 0).is_none());
}

#[test]
fn outpoint_and_content_round_trip() {
    for op in [
        OutPoint::Regular { txid: Txid([1; 32]), vout: 9 },
        OutPoint::Coinbase { merkle_root: MerkleRoot([2; 32]), vout: 0 },
        OutPoint::Deposit(MainOutPoint { txid: MainTxid([3; 32]), vout: u32::MAX }),
    ] {
        let mut bytes = Vec::new();
        sidechain_core::codec::encode_outpoint(&op, &mut bytes);
        let (decoded, used) = decode_outpoint(&bytes, 0).unwrap();
        assert_eq!(decoded, op);
        assert_eq!(used, bytes.len());
    }
    for c in [
        Content::Value(7),
        Content::Withdrawal { value: 1, main_fee: 2, main_address: MainAddress(vec![9, 8, 7]) },
    ] {
        let mut bytes = Vec::new();
        sidechain_core::codec::encode_content(&c, &mut bytes);
        let (decoded, used) = decode_content(&bytes, 0).unwrap();
        assert_eq!(decoded, c);
        assert_eq!(used, bytes.len());
    }
    // An unknown variant tag does not parse.
    let mut bad = Vec::new();
    sidechain_core::codec::encode_u32(3, &mut bad);
    bad.extend_from_slice(&[0; 36]);
    assert!(decode_outpoint(&bad, 0).is_none());
}

#[test]
fn body_and_transaction_round_trip() {
    let body = sample_body();
    let bytes = encode_body(&body);
    let (decoded, used) = decode_body(&bytes, 0).unwrap();
    assert_eq!(decoded, body);
    assert_eq!(used, bytes.len());

    let at = AuthorizedTransaction {
        transaction: sample_transaction(),
        authorizations: vec![Authorization { public_key: [1; 32], signature: [2; 64] }],
    };
    let bytes = encode_authorized_transaction(&at);
    let (decoded, used) = decode_authorized_transaction(&bytes, 0).unwrap();
    assert_eq!(decoded, at);
    assert_eq!(used, bytes.len());
}

#[test]
fn message_round_trips() {
    let ps = PeerState { block_height: 77 };
    let bytes = encode_peer_state(&ps);
    assert_eq!(decode_peer_state(&bytes, 0).unwrap().0, ps);

    let reqs = vec![
        Request::GetBlock { height: 5 },
        Request::PushTransaction {
            transaction: AuthorizedTransaction {
                transaction: sample_transaction(),
                authorizations: vec![],
            },
        },
    ];
    for r in reqs {
        let bytes = encode_request(&r);
        let (decoded, used) = decode_request(&bytes, 0).unwrap();
        assert_eq!(decoded, r);
        assert_eq!(used, bytes.len());
    }

    let resps = vec![
        Response::Block {
            header: Header {
                merkle_root: MerkleRoot([1; 32]),
                prev_side_hash: sidechain_core::types::BlockHash([2; 32]),
                prev_main_hash: MainBlockHash([3; 32]),
            },
            body: sample_body(),
        },
        Response::NoBlock,
        Response::TransactionAccepted,
        Response::TransactionRejected,
    ];
    for r in resps {
        let bytes = encode_response(&r);
        let (decoded, used) = decode_response(&bytes, 0).unwrap();
        assert_eq!(decoded, r);
        assert_eq!(used, bytes.len());
    }
}

#[test]
fn address_base58_round_trip() {
    let a = sample_address(1);
    let text = a.to_base58();
    assert_eq!(Address::from_str(&text), Ok(a));
    assert_eq!(address_round_trip(a), a);

    // A checksum error is refused.
    let mut corrupted = text.clone().into_bytes();
    let last = corrupted.len() - 1;
    corrupted[last] = if corrupted[last] == b'2' { b'3' } else { b'2' };
    let corrupted = String::from_utf8(corrupted).unwrap();
    assert_eq!(Address::from_str(&corrupted), Err(AddressParseError::Bs58));

    // A payload of the wrong length is refused with its length.
    let short = bs58::encode(&[1u8, 2, 3, 4]).with_check().into_string();
    assert_eq!(Address::from_str(&short), Err(AddressParseError::WrongLength(4)));
}

#[test]
fn address_derivation_matches_blake3() {
    // The derived address is the first 20 bytes of BLAKE3's extended output.
    let pk = [7u8; 32];
    let a = get_address(&pk);
    let mut hasher = blake3::Hasher::new();
    let mut reader = hasher.update(&pk).finalize_xof();
    let mut expected = [0u8; 20];
    reader.fill(&mut expected);
    assert_eq!(a.0, expected);
}

#[test]
fn hex_round_trips() {
    let data = vec![0x00, 0x0f, 0xf0, 0xff, 0x12];
    let encoded = hex_encode(&data);
    assert_eq!(encoded, b"000ff0ff12".to_vec());
    assert_eq!(hex_decode(&encoded).unwrap(), data);
    assert_eq!(hex_decode(b"ABCDEF").unwrap(), vec![0xab, 0xcd, 0xef]);
    assert!(hex_decode(b"abc").is_none());
    assert!(hex_decode(b"zz").is_none());
}

#[test]
fn deposit_address_checksum() {
    // The postfix is the first 6 hex characters of the SHA-256 of the prefix.
    let out = format_deposit_address(13, &b"destination".to_vec());
    let prefix = b"s13_destination_".to_vec();
    let digest = sha256::digest(prefix.as_slice());
    let mut expected = prefix.clone();
    expected.extend_from_slice(&digest.as_bytes()[..6]);
    assert_eq!(out, expected);
}

#[test]
fn bundle_hex_matches_mainchain_library() {
    // The broadcast bytes must be the mainchain library's own serialisation.
    let tx = MainTransaction {
        version: 2,
        lock_time: 0,
        inputs: vec![
            MainTxIn {
                prev_txid: MainTxid([0; 32]),
                prev_vout: u32::MAX,
                script_sig: vec![0x00],
                sequence: u32::MAX,
            },
        ],
        outputs: vec![MainTxOut { value: 7, script_pubkey: vec![0x6a, 1, 0x44] }],
    };
    let ours = bundle_raw_tx_hex(&tx);
    let reference = {
        let t = bitcoin::Transaction {
            version: 2,
            lock_time: bitcoin::absolute::LockTime::from_consensus(0),
            input: vec![bitcoin::TxIn {
                previous_output: bitcoin::OutPoint {
                    txid: <bitcoin::Txid as bitcoin::hashes::Hash>::from_byte_array([0; 32]),
                    vout: u32::MAX,
                },
                script_sig: bitcoin::ScriptBuf::from_bytes(vec![0x00]),
                sequence: bitcoin::Sequence(u32::MAX),
                witness: bitcoin::Witness::new(),
            }],
            output: vec![bitcoin::TxOut {
                value: 7,
                script_pubkey: bitcoin::ScriptBuf::from_bytes(vec![0x6a, 1, 0x44]),
            }],
        };
        let mut raw = Vec::new();
        bitcoin::consensus::Encodable::consensus_encode(&t, &mut raw).unwrap();
        hex::encode(raw).into_bytes()
    };
    assert_eq!(ours, reference);
}

#[test]
fn deposit_outputs_from_mainchain_reports() {
    // Two deposits: totals 100 then 250, so the second deposits 150.
    let make_tx = |value: u64| {
        let t = bitcoin::Transaction {
            version: 2,
            lock_time: bitcoin::absolute::LockTime::from_consensus(0),
            input: vec![],
            output: vec![bitcoin::TxOut {
                value,
                script_pubkey: bitcoin::ScriptBuf::new(),
            }],
        };
        let mut raw = Vec::new();
        bitcoin::consensus::Encodable::consensus_encode(&t, &mut raw).unwrap();
        let txid = <bitcoin::Txid as bitcoin::hashes::Hash>::to_byte_array(t.txid());
        (hex::encode(raw).into_bytes(), txid)
    };
    let dest = sample_address(1).to_base58();
    let (hex1, txid1) = make_tx(100);
    let (hex2, txid2) = make_tx(250);
    let records = vec![
        DepositRecord {
            txhex: hex1,
            hashblock: MainBlockHash([1; 32]),
            nburnindex: 0,
            strdest: dest.clone(),
        },
        DepositRecord {
            txhex: hex2,
            hashblock: MainBlockHash([2; 32]),
            nburnindex: 0,
            strdest: "not an address".to_string(),
        },
    ];
    let (outputs, last_block) = get_deposit_outputs(&records, None).unwrap();
    // The second record's destination does not parse: forfeited, but it
    // still advances the burn baseline and the last block hash.
    assert_eq!(outputs.len(), 1);
    assert_eq!(outputs[0].0, MainOutPoint { txid: MainTxid(txid1), vout: 0 });
    assert_eq!(outputs[0].1.value, 100);
    assert_eq!(outputs[0].1.address, dest);
    assert_eq!(last_block, Some(MainBlockHash([2; 32])));
    let _ = txid2;

    // With the first block as the baseline, only the increment counts.
    let (outputs, _) = get_deposit_outputs(&records, Some(MainBlockHash([1; 32]))).unwrap();
    assert_eq!(outputs.len(), 0);

    // Undecodable hex is an error.
    let bad = vec![DepositRecord {
        txhex: b"zz".to_vec(),
        hashblock: MainBlockHash([1; 32]),
        nburnindex: 0,
        strdest: dest,
    }];
    assert!(get_deposit_outputs(&bad, None).is_err());
}

#[test]
fn bundle_statuses_fold() {
    let spent = vec![
        SpentWithdrawal { hash: MainTxid([1; 32]), nsidechain: 0 },
        SpentWithdrawal { hash: MainTxid([2; 32]), nsidechain: 5 },
    ];
    let failed = vec![FailedWithdrawal { hash: MainTxid([1; 32]) }];
    let statuses = get_withdrawal_bundle_statuses(&spent, &failed, 0);
    // The other sidechain's bundle is ignored; the failure overrides.
    assert_eq!(statuses, vec![(MainTxid([1; 32]), WithdrawalBundleStatus::Failed)]);
}
