//! End-to-end ledger scenarios: deposits, spending, bundle emergence and
//! failure, mempool screening, chain archiving, and block submission.

use sidechain_core::address::get_address;
use sidechain_core::archive::{Archive, Error as ArchiveError};
use sidechain_core::authorization::authorize;
use sidechain_core::hashes::sum_outputs;
use sidechain_core::mempool::{Error as MemPoolError, MemPool};
use sidechain_core::miner::{assemble_block, Miner, EMPTY_BLOCK_BMM_BRIBE};
use sidechain_core::node::Node;
use sidechain_core::explorer::BlockExplorer;
use sidechain_core::state::{utxos_get, Error as StateError, State};
use sidechain_core::wallet;
use sidechain_core::types::{
    Address, AuthorizedTransaction, Body, Content, DepositOutput, FilledTransaction, Header,
    MainAddress,
    MainBlockHash, MainOutPoint, MainTxid, OutPoint, Output, Request, Response, Transaction,
    TwoWayPegData, WithdrawalBundleStatus,
};

fn keypair(seed: u8) -> ed25519_dalek::Keypair {
    let secret = ed25519_dalek::SecretKey::from_bytes(&[seed; 32]).unwrap();
    let public = ed25519_dalek::PublicKey::from(&secret);
    ed25519_dalek::Keypair { secret, public }
}

fn addr_of(kp: &ed25519_dalek::Keypair) -> Address {
    get_address(&kp.public.to_bytes())
}

fn empty_peg() -> TwoWayPegData {
    TwoWayPegData { deposits: vec![], deposit_block_hash: None, bundle_statuses: vec![] }
}

#[test]
fn deposit_then_spend() {
    // S1: a deposit to Alice, spent to Bob with a miner coinbase.
    let alice = keypair(1);
    let bob = keypair(2);
    let miner = keypair(3);
    let alice_addr = addr_of(&alice);
    let bob_addr = addr_of(&bob);
    let miner_addr = addr_of(&miner);

    let mut state = State::new();
    let op1 = MainOutPoint { txid: MainTxid([7; 32]), vout: 0 };
    let peg = TwoWayPegData {
        deposits: vec![
            (op1, DepositOutput { address: alice_addr.to_base58(), value: 100 }),
        ],
        deposit_block_hash: Some(MainBlockHash([9; 32])),
        bundle_statuses: vec![],
    };
    state.connect_two_way_peg_data(&peg, 0).unwrap();
    assert_eq!(state.utxos.len(), 1);
    let deposited = utxos_get(&state.utxos, &OutPoint::Deposit(op1)).unwrap();
    assert_eq!(deposited.address, alice_addr);
    assert_eq!(deposited.content, Content::Value(100));

    let tx = Transaction {
        inputs: vec![OutPoint::Deposit(op1)],
        outputs: vec![Output { address: bob_addr, content: Content::Value(90) }],
    };
    let txid = tx.txid();
    let at = authorize(&vec![(alice_addr, alice)], tx).unwrap();
    let coinbase = vec![Output { address: miner_addr, content: Content::Value(10) }];
    let body = Body::new(vec![at], coinbase);
    let fees = state.validate_body(&body).unwrap();
    assert_eq!(fees, 10);
    let merkle_root = body.compute_merkle_root();
    state.connect_body(&body).unwrap();

    assert_eq!(state.utxos.len(), 2);
    let to_bob = utxos_get(&state.utxos, &OutPoint::Regular { txid, vout: 0 }).unwrap();
    assert_eq!(to_bob.address, bob_addr);
    assert_eq!(to_bob.content, Content::Value(90));
    let to_miner = utxos_get(&state.utxos, &OutPoint::Coinbase { merkle_root, vout: 0 }).unwrap();
    assert_eq!(to_miner.address, miner_addr);
    assert_eq!(to_miner.content, Content::Value(10));
    assert!(utxos_get(&state.utxos, &OutPoint::Deposit(op1)).is_none());
}

#[test]
fn body_validation_errors() {
    let alice = keypair(1);
    let mallory = keypair(4);
    let alice_addr = addr_of(&alice);

    let mut state = State::new();
    let op1 = MainOutPoint { txid: MainTxid([7; 32]), vout: 0 };
    let peg = TwoWayPegData {
        deposits: vec![
            (op1, DepositOutput { address: alice_addr.to_base58(), value: 100 }),
        ],
        deposit_block_hash: None,
        bundle_statuses: vec![],
    };
    state.connect_two_way_peg_data(&peg, 0).unwrap();

    // Spending more than the input carries.
    let overdraw = Transaction {
        inputs: vec![OutPoint::Deposit(op1)],
        outputs: vec![Output { address: alice_addr, content: Content::Value(101) }],
    };
    let at = authorize(&vec![(alice_addr, keypair(1))], overdraw).unwrap();
    let body = Body::new(vec![at], vec![]);
    assert_eq!(state.validate_body(&body), Err(StateError::NotEnoughValueIn));

    // A missing input.
    let ghost_op = MainOutPoint { txid: MainTxid([8; 32]), vout: 1 };
    let missing = Transaction {
        inputs: vec![OutPoint::Deposit(ghost_op)],
        outputs: vec![],
    };
    let at = authorize(&vec![(alice_addr, keypair(1))], missing).unwrap();
    let body = Body::new(vec![at], vec![]);
    assert_eq!(
        state.validate_body(&body),
        Err(StateError::NoUtxo { outpoint: OutPoint::Deposit(ghost_op) }),
    );

    // The same outpoint spent twice in one body.
    let spend = Transaction {
        inputs: vec![OutPoint::Deposit(op1)],
        outputs: vec![Output { address: alice_addr, content: Content::Value(50) }],
    };
    let at1 = authorize(&vec![(alice_addr, keypair(1))], spend.clone()).unwrap();
    let at2 = authorize(&vec![(alice_addr, keypair(1))], spend).unwrap();
    let body = Body::new(vec![at1, at2], vec![]);
    assert_eq!(state.validate_body(&body), Err(StateError::UtxoDoubleSpent));

    // A coinbase that claims more than the fees.
    let spend = Transaction {
        inputs: vec![OutPoint::Deposit(op1)],
        outputs: vec![Output { address: alice_addr, content: Content::Value(90) }],
    };
    let at = authorize(&vec![(alice_addr, keypair(1))], spend).unwrap();
    let body = Body::new(
        vec![at],
        vec![Output { address: alice_addr, content: Content::Value(11) }],
    );
    assert_eq!(state.validate_body(&body), Err(StateError::NotEnoughFees));

    // The wrong key for the spent address.
    let spend = Transaction {
        inputs: vec![OutPoint::Deposit(op1)],
        outputs: vec![Output { address: alice_addr, content: Content::Value(90) }],
    };
    let at = authorize(&vec![(addr_of(&mallory), mallory)], spend).unwrap();
    let body = Body::new(vec![at], vec![]);
    assert_eq!(state.validate_body(&body), Err(StateError::WrongPubKeyForAddress));

    // A broken signature.
    let spend = Transaction {
        inputs: vec![OutPoint::Deposit(op1)],
        outputs: vec![Output { address: alice_addr, content: Content::Value(90) }],
    };
    let mut at = authorize(&vec![(alice_addr, keypair(1))], spend).unwrap();
    at.authorizations[0].signature[0] ^= 1;
    let body = Body::new(vec![at], vec![]);
    assert_eq!(state.validate_body(&body), Err(StateError::AuthorizationError));
}

#[test]
fn mempool_double_spend_rejected() {
    // S2: two transactions spending the same outpoint.
    let alice_addr = addr_of(&keypair(1));
    let u = OutPoint::Deposit(MainOutPoint { txid: MainTxid([7; 32]), vout: 0 });
    let t1 = AuthorizedTransaction {
        transaction: Transaction {
            inputs: vec![u],
            outputs: vec![Output { address: alice_addr, content: Content::Value(1) }],
        },
        authorizations: vec![],
    };
    let t2 = AuthorizedTransaction {
        transaction: Transaction {
            inputs: vec![u],
            outputs: vec![Output { address: alice_addr, content: Content::Value(2) }],
        },
        authorizations: vec![],
    };
    let mut pool = MemPool::new();
    pool.put(&t1).unwrap();
    assert_eq!(pool.put(&t2), Err(MemPoolError::UtxoDoubleSpent));

    // Deleting the first frees the outpoint again.
    pool.delete(&t1.transaction.txid());
    assert!(pool.put(&t2).is_ok());
    assert_eq!(pool.take(10).len(), 1);
}

#[test]
fn withdrawal_bundle_emergence_and_failure() {
    // S3: two withdrawals to one destination aggregate into one bundle.
    let alice = keypair(1);
    let alice_addr = addr_of(&alice);
    let mut state = State::new();
    let dest = MainAddress(vec![0x51]);
    let w1 = OutPoint::Regular { txid: sidechain_core::types::Txid([1; 32]), vout: 0 };
    let w2 = OutPoint::Regular { txid: sidechain_core::types::Txid([2; 32]), vout: 0 };
    state.utxos.push((
        w1,
        Output {
            address: alice_addr,
            content: Content::Withdrawal { value: 50, main_fee: 1, main_address: dest.clone() },
        },
    ));
    state.utxos.push((
        w2,
        Output {
            address: alice_addr,
            content: Content::Withdrawal { value: 70, main_fee: 1, main_address: dest.clone() },
        },
    ));

    state.connect_two_way_peg_data(&empty_peg(), 10).unwrap();
    let bundle = state.pending_withdrawal_bundle.clone().expect("a bundle must emerge");
    assert_eq!(bundle.spent_utxos.len(), 2);
    assert_eq!(state.utxos.len(), 0);
    // Three marker outputs, then the single aggregated output.
    assert_eq!(bundle.transaction.outputs.len(), 4);
    assert_eq!(bundle.transaction.outputs[0].script_pubkey, vec![0x6a, 1, 0x44]);
    // One destination: the bundle fee is the destination's highest offer.
    let mut fee_script = vec![0x6a, 8];
    fee_script.extend_from_slice(&1u64.to_le_bytes());
    assert_eq!(bundle.transaction.outputs[1].script_pubkey, fee_script);
    assert_eq!(bundle.transaction.outputs[3].value, 120);
    assert_eq!(bundle.transaction.outputs[3].script_pubkey, vec![0x51]);

    // S4: the bundle fails on the mainchain; the UTXOs come back.
    let failure = TwoWayPegData {
        deposits: vec![],
        deposit_block_hash: None,
        bundle_statuses: vec![(bundle.main_txid, WithdrawalBundleStatus::Failed)],
    };
    state.connect_two_way_peg_data(&failure, 11).unwrap();
    assert!(state.pending_withdrawal_bundle.is_none());
    assert_eq!(state.last_withdrawal_bundle_failure_height, 12);
    assert_eq!(state.utxos.len(), 2);
    let restored = utxos_get(&state.utxos, &w1).unwrap();
    assert_eq!(
        restored.content,
        Content::Withdrawal { value: 50, main_fee: 1, main_address: dest.clone() },
    );

    // The failure gap holds the next bundle back until it has passed.
    state.connect_two_way_peg_data(&empty_peg(), 12).unwrap();
    assert!(state.pending_withdrawal_bundle.is_none());
    state.connect_two_way_peg_data(&empty_peg(), 16).unwrap();
    assert!(state.pending_withdrawal_bundle.is_some());

    // Idempotence: re-applying the identical Confirmed status is a no-op.
    let bundle2 = state.pending_withdrawal_bundle.clone().unwrap();
    let confirm = TwoWayPegData {
        deposits: vec![],
        deposit_block_hash: None,
        bundle_statuses: vec![(bundle2.main_txid, WithdrawalBundleStatus::Confirmed)],
    };
    state.connect_two_way_peg_data(&confirm, 17).unwrap();
    assert!(state.pending_withdrawal_bundle.is_none());
    let utxos_after = state.utxos.clone();
    state.connect_two_way_peg_data(&confirm, 18).unwrap();
    assert!(state.pending_withdrawal_bundle.is_none());
    assert_eq!(state.utxos, utxos_after);
}

#[test]
fn deterministic_bundle_selection() {
    // P-law check on concrete values: the same ledger yields the same bundle.
    let alice_addr = addr_of(&keypair(1));
    let build = || {
        let mut state = State::new();
        for i in 0..3u8 {
            state.utxos.push((
                OutPoint::Regular { txid: sidechain_core::types::Txid([i; 32]), vout: 0 },
                Output {
                    address: alice_addr,
                    content: Content::Withdrawal {
                        value: 10 + i as u64,
                        main_fee: i as u64,
                        main_address: MainAddress(vec![0x50 + i]),
                    },
                },
            ));
        }
        state
    };
    let b1 = build().collect_withdrawal_bundle(11).unwrap().unwrap();
    let b2 = build().collect_withdrawal_bundle(11).unwrap().unwrap();
    assert_eq!(b1, b2);
    assert_eq!(
        sidechain_core::peg::bundle_raw_tx_hex(&b1.transaction),
        sidechain_core::peg::bundle_raw_tx_hex(&b2.transaction),
    );
    // Descending by fee: the highest-fee destination comes first.
    assert_eq!(b1.transaction.outputs[3].script_pubkey, vec![0x52]);
    assert_eq!(b1.transaction.outputs[4].script_pubkey, vec![0x51]);
    assert_eq!(b1.transaction.outputs[5].script_pubkey, vec![0x50]);
}

#[test]
fn archive_linear_chain() {
    let mut archive = Archive::new();
    assert_eq!(archive.get_height(), 0);
    assert_eq!(archive.get_best_hash().0, [0; 32]);

    let body = Body::new(vec![], vec![]);
    let h1 = Header {
        merkle_root: body.compute_merkle_root(),
        prev_side_hash: archive.get_best_hash(),
        prev_main_hash: MainBlockHash([1; 32]),
    };
    archive.append_header(&h1).unwrap();
    assert_eq!(archive.get_height(), 1);
    assert_eq!(archive.get_best_hash(), h1.hash());

    // A header that does not extend the chain is refused.
    let stray = Header {
        merkle_root: body.compute_merkle_root(),
        prev_side_hash: sidechain_core::types::BlockHash([5; 32]),
        prev_main_hash: MainBlockHash([1; 32]),
    };
    assert_eq!(archive.append_header(&stray), Err(ArchiveError::InvalidPrevSideHash));

    // A body whose merkle root is not the header's is refused.
    let wrong_body = Body::new(
        vec![],
        vec![Output { address: addr_of(&keypair(1)), content: Content::Value(1) }],
    );
    assert_eq!(archive.put_body(&h1, &wrong_body), Err(ArchiveError::InvalidMerkleRoot));
    assert!(archive.get_body(1).is_none());

    archive.put_body(&h1, &body).unwrap();
    let stored = archive.get_body(1).unwrap();
    assert_eq!(stored.compute_merkle_root(), h1.merkle_root);
    assert_eq!(archive.get_header(1).unwrap(), h1);
    assert!(archive.get_header(2).is_none());
}

#[test]
fn node_submit_block_and_catch_up() {
    // S5's local half: a submitted block advances the chain and empties the
    // pool, and the catch-up rule asks for exactly the next height.
    let alice = keypair(1);
    let alice_addr = addr_of(&alice);
    let bob_addr = addr_of(&keypair(2));

    let mut node = Node::new();
    let op1 = MainOutPoint { txid: MainTxid([7; 32]), vout: 0 };
    let peg = TwoWayPegData {
        deposits: vec![
            (op1, DepositOutput { address: alice_addr.to_base58(), value: 100 }),
        ],
        deposit_block_hash: None,
        bundle_statuses: vec![],
    };
    // First block carries the deposit.
    let body0 = Body::new(vec![], vec![]);
    let h0 = Header {
        merkle_root: body0.compute_merkle_root(),
        prev_side_hash: node.get_best_hash(),
        prev_main_hash: MainBlockHash([1; 32]),
    };
    node.submit_block(&h0, &body0, &peg).unwrap();
    assert_eq!(node.get_height(), 1);

    // Admit a spending transaction through the peer path.
    let tx = Transaction {
        inputs: vec![OutPoint::Deposit(op1)],
        outputs: vec![Output { address: bob_addr, content: Content::Value(90) }],
    };
    let at = authorize(&vec![(alice_addr, alice)], tx).unwrap();
    let (resp, forward) = node.handle_request(&Request::PushTransaction { transaction: at.clone() });
    assert_eq!(resp, Response::TransactionAccepted);
    assert!(forward);
    let (resp, forward) = node.handle_request(&Request::PushTransaction { transaction: at });
    assert_eq!(resp, Response::TransactionRejected);
    assert!(!forward);

    // The miner draws it with its fee.
    let (txs, fee) = node.get_transactions(1000).unwrap();
    assert_eq!(txs.len(), 1);
    assert_eq!(fee, 10);

    // The block containing it is accepted and clears the pool.
    let body1 = Body::new(txs, vec![Output { address: alice_addr, content: Content::Value(10) }]);
    let h1 = Header {
        merkle_root: body1.compute_merkle_root(),
        prev_side_hash: node.get_best_hash(),
        prev_main_hash: MainBlockHash([2; 32]),
    };
    node.submit_block(&h1, &body1, &empty_peg()).unwrap();
    assert_eq!(node.get_height(), 2);
    assert_eq!(node.get_all_transactions().len(), 0);

    // Serving blocks to a peer.
    let (resp, _) = node.handle_request(&Request::GetBlock { height: 2 });
    match resp {
        Response::Block { header, .. } => assert_eq!(header, h1),
        other => panic!("expected a block, got {:?}", other),
    }
    let (resp, _) = node.handle_request(&Request::GetBlock { height: 3 });
    assert_eq!(resp, Response::NoBlock);

    // Catch-up: pull exactly the next height while behind.
    assert_eq!(node.next_block_to_request(5), Some(3));
    assert_eq!(node.next_block_to_request(2), None);

    // A block with a bad previous hash leaves everything unchanged.
    let bad = Header {
        merkle_root: body0.compute_merkle_root(),
        prev_side_hash: sidechain_core::types::BlockHash([9; 32]),
        prev_main_hash: MainBlockHash([3; 32]),
    };
    assert!(node.submit_block(&bad, &body0, &empty_peg()).is_err());
    assert_eq!(node.get_height(), 2);
}

#[test]
fn miner_commit_confirm() {
    // S6: the stored block comes out exactly once, on verification.
    let body = Body::new(vec![], vec![]);
    let header = Header {
        merkle_root: body.compute_merkle_root(),
        prev_side_hash: sidechain_core::types::BlockHash([0; 32]),
        prev_main_hash: MainBlockHash([1; 32]),
    };
    let mut miner = Miner::new();
    assert!(miner.confirm_bmm(true).is_none());
    miner.attempt_bmm(header, body);
    assert!(miner.confirm_bmm(false).is_none());
    let (h, b) = miner.confirm_bmm(true).unwrap();
    assert_eq!(h, header);
    assert_eq!(b.compute_merkle_root(), header.merkle_root);
    assert!(miner.confirm_bmm(true).is_none());
}

#[test]
fn coinbase_value_sums() {
    let a = addr_of(&keypair(1));
    let outs = vec![
        Output { address: a, content: Content::Value(3) },
        Output { address: a, content: Content::Value(4) },
    ];
    assert_eq!(sum_outputs(&outs), Some(7));
    let huge = vec![
        Output { address: a, content: Content::Value(u64::MAX) },
        Output { address: a, content: Content::Value(1) },
    ];
    assert_eq!(sum_outputs(&huge), None);
}

#[test]
fn wallet_coin_selection() {
    let a = addr_of(&keypair(1));
    let coin = |seed: u8, value: u64| {
        (
            OutPoint::Regular { txid: sidechain_core::types::Txid([seed; 32]), vout: 0 },
            Output { address: a, content: Content::Value(value) },
        )
    };
    let mut utxos = vec![coin(1, 50), coin(2, 5), coin(3, 20)];
    // A pending withdrawal is not spendable.
    utxos.push((
        OutPoint::Regular { txid: sidechain_core::types::Txid([4; 32]), vout: 0 },
        Output {
            address: a,
            content: Content::Withdrawal {
                value: 1000,
                main_fee: 1,
                main_address: MainAddress(vec![0x51]),
            },
        },
    ));
    assert_eq!(wallet::get_balance(&utxos), Some(1075));

    // Coins are gathered smallest-first until the total passes the target.
    let (total, coins) = wallet::select_coins(&utxos, 6).unwrap();
    assert_eq!(total, 25);
    assert_eq!(coins.len(), 2);
    assert_eq!(coins[0].1.content, Content::Value(5));
    assert_eq!(coins[1].1.content, Content::Value(20));

    assert_eq!(
        wallet::select_coins(&utxos, 76).map(|_| ()),
        Err(wallet::Error::NotEnoughFunds),
    );

    let change_addr = addr_of(&keypair(5));
    let to = addr_of(&keypair(6));
    let tx = wallet::create_transaction(&utxos, to, change_addr, 6, 1).unwrap();
    assert_eq!(tx.outputs[0], Output { address: to, content: Content::Value(6) });
    assert_eq!(tx.outputs[1], Output { address: change_addr, content: Content::Value(18) });
    assert_eq!(tx.inputs.len(), 2);
}

#[test]
fn explorer_cursor() {
    let mut cursor = BlockExplorer::new(0);
    cursor.back();
    assert_eq!(cursor.height, 0);
    cursor.forward(2);
    cursor.forward(2);
    cursor.forward(2);
    assert_eq!(cursor.height, 2);
    cursor.back();
    assert_eq!(cursor.height, 1);
    cursor.latest(7);
    assert_eq!(cursor.height, 7);
}

#[test]
fn deposit_address_format() {
    // The prefix is text; the postfix is 6 hex characters.
    let out = sidechain_core::format_deposit_address(0, &b"abc".to_vec());
    assert_eq!(&out[..6], b"s0_abc");
    assert_eq!(out[6], b'_');
    assert_eq!(out.len(), 13);
    assert!(out[7..].iter().all(|c| c.is_ascii_hexdigit()));
}

#[test]
fn filled_transaction_fee() {
    let a = addr_of(&keypair(1));
    let ft = FilledTransaction {
        transaction: Transaction {
            inputs: vec![OutPoint::Deposit(MainOutPoint { txid: MainTxid([1; 32]), vout: 0 })],
            outputs: vec![Output { address: a, content: Content::Value(90) }],
        },
        spent_utxos: vec![Output { address: a, content: Content::Value(100) }],
    };
    assert_eq!(ft.get_value_in(), Some(100));
    assert_eq!(ft.get_value_out(), Some(90));
    assert_eq!(ft.get_fee(), Some(10));
    let overdrawn = FilledTransaction {
        transaction: Transaction {
            inputs: vec![],
            outputs: vec![Output { address: a, content: Content::Value(90) }],
        },
        spent_utxos: vec![],
    };
    assert_eq!(overdrawn.get_fee(), None);
}

#[test]
fn block_assembly_policy() {
    let alice = keypair(1);
    let alice_addr = addr_of(&alice);
    let bob_addr = addr_of(&keypair(2));

    // A node with one spendable deposit and one pooled transaction.
    let mut node = Node::new();
    let op1 = MainOutPoint { txid: MainTxid([7; 32]), vout: 0 };
    let peg = TwoWayPegData {
        deposits: vec![
            (op1, DepositOutput { address: alice_addr.to_base58(), value: 100 }),
        ],
        deposit_block_hash: None,
        bundle_statuses: vec![],
    };
    let body0 = Body::new(vec![], vec![]);
    let h0 = Header {
        merkle_root: body0.compute_merkle_root(),
        prev_side_hash: node.get_best_hash(),
        prev_main_hash: MainBlockHash([1; 32]),
    };
    node.submit_block(&h0, &body0, &peg).unwrap();
    let tx = Transaction {
        inputs: vec![OutPoint::Deposit(op1)],
        outputs: vec![Output { address: bob_addr, content: Content::Value(90) }],
    };
    let at = authorize(&vec![(alice_addr, alice)], tx).unwrap();
    node.submit_transaction(&at).unwrap();

    // With fees, the coinbase claims them and the bribe equals them.
    let (txs, fee) = node.get_transactions(1000).unwrap();
    assert_eq!(fee, 10);
    let (header, body, bribe) =
        assemble_block(txs, fee, alice_addr, node.get_best_hash(), MainBlockHash([2; 32]));
    assert_eq!(bribe, 10);
    assert_eq!(
        body.coinbase,
        vec![Output { address: alice_addr, content: Content::Value(10) }],
    );
    assert_eq!(header.merkle_root, body.compute_merkle_root());

    // The assembled block goes through the miner slot and is accepted.
    let mut miner = Miner::new();
    miner.attempt_bmm(header, body);
    let (h, b) = miner.confirm_bmm(true).unwrap();
    node.submit_block(&h, &b, &empty_peg()).unwrap();
    assert_eq!(node.get_height(), 2);
    assert_eq!(node.get_all_transactions().len(), 0);

    // Without fees, the coinbase is empty and the bribe is the constant.
    let (header, body, bribe) = assemble_block(
        vec![],
        0,
        alice_addr,
        node.get_best_hash(),
        MainBlockHash([3; 32]),
    );
    assert_eq!(bribe, EMPTY_BLOCK_BMM_BRIBE);
    assert!(body.coinbase.is_empty());
    assert_eq!(header.merkle_root, body.compute_merkle_root());
}

#[test]
fn body_created_outputs() {
    let alice = keypair(1);
    let alice_addr = addr_of(&alice);
    let bob_addr = addr_of(&keypair(2));
    let tx = Transaction {
        inputs: vec![OutPoint::Deposit(MainOutPoint { txid: MainTxid([7; 32]), vout: 0 })],
        outputs: vec![Output { address: bob_addr, content: Content::Value(90) }],
    };
    let txid = tx.txid();
    let at = AuthorizedTransaction { transaction: tx, authorizations: vec![] };
    let body = Body::new(
        vec![at],
        vec![Output { address: alice_addr, content: Content::Value(10) }],
    );
    let outputs = body.get_outputs();
    assert_eq!(outputs.len(), 2);
    assert_eq!(
        outputs[0].0,
        OutPoint::Coinbase { merkle_root: body.compute_merkle_root(), vout: 0 },
    );
    assert_eq!(outputs[0].1.content, Content::Value(10));
    assert_eq!(outputs[1].0, OutPoint::Regular { txid, vout: 0 });
    assert_eq!(outputs[1].1.content, Content::Value(90));
}

#[test]
fn mismatched_keypair_cannot_authorize_spends() {
    // A keypair whose public half is foreign still signs under its own
    // derived key: the authorization spends for the secret's address, not
    // the claimed one.
    let honest = keypair(1);
    let honest_addr = addr_of(&honest);
    let foreign_public = keypair(2).public;
    let mismatched = ed25519_dalek::Keypair {
        secret: ed25519_dalek::SecretKey::from_bytes(&[1; 32]).unwrap(),
        public: foreign_public,
    };
    let tx = Transaction {
        inputs: vec![OutPoint::Deposit(MainOutPoint { txid: MainTxid([7; 32]), vout: 0 })],
        outputs: vec![],
    };
    // Offered for the foreign address, the mismatched pair is refused.
    let refused = authorize(&vec![(addr_of(&keypair(2)), mismatched)], tx.clone());
    assert!(refused.is_err());
    // Offered for the secret's own address, it authorizes validly.
    let mismatched = ed25519_dalek::Keypair {
        secret: ed25519_dalek::SecretKey::from_bytes(&[1; 32]).unwrap(),
        public: foreign_public,
    };
    let at = authorize(&vec![(honest_addr, mismatched)], tx).unwrap();
    assert_eq!(get_address(&at.authorizations[0].public_key), honest_addr);
}
