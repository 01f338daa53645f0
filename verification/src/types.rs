//! Core data model: identifiers, outputs, transactions, blocks, and the
//! messages of the peer wire protocol.
//!
//! Every type that owns a `Vec` or a `String` has a mathematical view
//! (the `...V` structs); contracts speak of those views.

use vstd::prelude::*;

verus! {

/// A sidechain address: the first 20 bytes of the extendable-output hash of
/// an ed25519 public key.
#[derive(Clone, Copy, Debug, PartialEq, Eq, Hash)]
pub struct Address(pub [u8; 20]);

impl View for Address {
    type V = Seq<u8>;

    open spec fn view(&self) -> Seq<u8> {
        self.0@
    }
}

/// Content hash of a sidechain transaction.
#[derive(Clone, Copy, Debug, PartialEq, Eq, Hash)]
pub struct Txid(pub [u8; 32]);

/// Content hash of a block body's `(coinbase, transactions)` pair.
#[derive(Clone, Copy, Debug, PartialEq, Eq, Hash)]
pub struct MerkleRoot(pub [u8; 32]);

/// Content hash of a sidechain block header.
#[derive(Clone, Copy, Debug, PartialEq, Eq, Hash)]
pub struct BlockHash(pub [u8; 32]);

/// Hash of a mainchain block, carried through without interpretation.
#[derive(Clone, Copy, Debug, PartialEq, Eq, Hash)]
pub struct MainBlockHash(pub [u8; 32]);

/// Txid of a mainchain transaction, carried through without interpretation.
#[derive(Clone, Copy, Debug, PartialEq, Eq, Hash)]
pub struct MainTxid(pub [u8; 32]);

/// A mainchain outpoint: the deposit-creating output on the mainchain.
#[derive(Clone, Copy, Debug, PartialEq, Eq, Hash)]
pub struct MainOutPoint {
    pub txid: MainTxid,
    pub vout: u32,
}

/// A mainchain destination, held as its script-pubkey bytes. Aggregation
/// groups withdrawals by this value and orders ties lexicographically on it.
#[derive(Clone, Debug, PartialEq, Eq, Hash)]
pub struct MainAddress(pub Vec<u8>);

impl View for MainAddress {
    type V = Seq<u8>;

    open spec fn view(&self) -> Seq<u8> {
        self.0@
    }
}

/// Identifies a UTXO across the lifetime of the chain.
#[derive(Clone, Copy, Debug, PartialEq, Eq, Hash)]
pub enum OutPoint {
    /// Created by a sidechain transaction.
    Regular { txid: Txid, vout: u32 },
    /// Created by a block body's coinbase.
    Coinbase { merkle_root: MerkleRoot, vout: u32 },
    /// Created by a mainchain deposit.
    Deposit(MainOutPoint),
}

/// View of [`Content`].
#[verifier::ext_equal]
pub enum ContentV {
    Value(u64),
    Withdrawal { value: u64, main_fee: u64, main_address: Seq<u8> },
}

impl ContentV {
    pub open spec fn value(&self) -> u64 {
        match self {
            ContentV::Value(value) => *value,
            ContentV::Withdrawal { value, .. } => *value,
        }
    }

    pub open spec fn is_withdrawal(&self) -> bool {
        self is Withdrawal
    }
}

/// What an output carries: plain value, or a pending mainchain withdrawal.
#[derive(Clone, Debug, PartialEq, Eq)]
pub enum Content {
    Value(u64),
    Withdrawal { value: u64, main_fee: u64, main_address: MainAddress },
}

impl View for Content {
    type V = ContentV;

    open spec fn view(&self) -> ContentV {
        match self {
            Content::Value(value) => ContentV::Value(*value),
            Content::Withdrawal { value, main_fee, main_address } => ContentV::Withdrawal {
                value: *value,
                main_fee: *main_fee,
                main_address: main_address@,
            },
        }
    }
}

impl Content {
    pub fn is_value(&self) -> (r: bool)
        ensures
            r == !self@.is_withdrawal(),
    {
        matches!(self, Content::Value(_))
    }

    pub fn is_withdrawal(&self) -> (r: bool)
        ensures
            r == self@.is_withdrawal(),
    {
        matches!(self, Content::Withdrawal { .. })
    }
}

/// View of [`Output`].
#[verifier::ext_equal]
pub struct OutputV {
    pub address: Address,
    pub content: ContentV,
}

impl OutputV {
    pub open spec fn value(&self) -> u64 {
        self.content.value()
    }
}

/// A spendable output: who owns it and what it carries.
#[derive(Clone, Debug, PartialEq, Eq)]
pub struct Output {
    pub address: Address,
    pub content: Content,
}

impl View for Output {
    type V = OutputV;

    open spec fn view(&self) -> OutputV {
        OutputV { address: self.address, content: self.content@ }
    }
}

/// Carriers of a satoshi value.
pub trait GetValue {
    spec fn spec_get_value(&self) -> u64;

    fn get_value(&self) -> (r: u64)
        ensures
            r == self.spec_get_value(),
    ;
}

impl GetValue for Content {
    open spec fn spec_get_value(&self) -> u64 {
        self@.value()
    }

    fn get_value(&self) -> (r: u64) {
        match self {
            Content::Value(value) => *value,
            Content::Withdrawal { value, .. } => *value,
        }
    }
}

impl GetValue for Output {
    open spec fn spec_get_value(&self) -> u64 {
        self@.value()
    }

    fn get_value(&self) -> (r: u64) {
        self.content.get_value()
    }
}

/// Carriers of a spending address.
pub trait GetAddress {
    spec fn spec_get_address(&self) -> Seq<u8>;

    fn get_address(&self) -> (r: Address)
        ensures
            r@ == self.spec_get_address(),
    ;
}

/// View of [`Transaction`].
#[verifier::ext_equal]
pub struct TransactionV {
    pub inputs: Seq<OutPoint>,
    pub outputs: Seq<OutputV>,
}

/// A sidechain transaction. Its authorizations travel separately, in the
/// same order as its inputs.
#[derive(Clone, Debug, PartialEq, Eq)]
pub struct Transaction {
    pub inputs: Vec<OutPoint>,
    pub outputs: Vec<Output>,
}

impl View for Transaction {
    type V = TransactionV;

    open spec fn view(&self) -> TransactionV {
        TransactionV {
            inputs: self.inputs@,
            outputs: self.outputs@.map_values(|o: Output| o@),
        }
    }
}

/// View of [`FilledTransaction`].
#[verifier::ext_equal]
pub struct FilledTransactionV {
    pub transaction: TransactionV,
    pub spent_utxos: Seq<OutputV>,
}

/// A transaction together with the outputs its inputs resolved to,
/// in input order.
#[derive(Debug)]
pub struct FilledTransaction {
    pub transaction: Transaction,
    pub spent_utxos: Vec<Output>,
}

impl View for FilledTransaction {
    type V = FilledTransactionV;

    open spec fn view(&self) -> FilledTransactionV {
        FilledTransactionV {
            transaction: self.transaction@,
            spent_utxos: self.spent_utxos@.map_values(|o: Output| o@),
        }
    }
}

/// One input's witness: an ed25519 public key and a signature over the
/// serialised transaction.
#[derive(Clone, Copy, Debug, PartialEq, Eq)]
pub struct Authorization {
    pub public_key: [u8; 32],
    pub signature: [u8; 64],
}

/// View of [`AuthorizedTransaction`].
#[verifier::ext_equal]
pub struct AuthorizedTransactionV {
    pub transaction: TransactionV,
    pub authorizations: Seq<Authorization>,
}

/// A transaction plus one authorization per input, in input order.
#[derive(Clone, Debug, PartialEq, Eq)]
pub struct AuthorizedTransaction {
    pub transaction: Transaction,
    pub authorizations: Vec<Authorization>,
}

impl View for AuthorizedTransaction {
    type V = AuthorizedTransactionV;

    open spec fn view(&self) -> AuthorizedTransactionV {
        AuthorizedTransactionV {
            transaction: self.transaction@,
            authorizations: self.authorizations@,
        }
    }
}

/// View of [`Body`].
#[verifier::ext_equal]
pub struct BodyV {
    pub coinbase: Seq<OutputV>,
    pub transactions: Seq<TransactionV>,
    pub authorizations: Seq<Authorization>,
}

/// A block body. The authorization list is the concatenation of each
/// transaction's authorizations, in transaction order.
#[derive(Clone, Debug, PartialEq, Eq)]
pub struct Body {
    pub coinbase: Vec<Output>,
    pub transactions: Vec<Transaction>,
    pub authorizations: Vec<Authorization>,
}

impl View for Body {
    type V = BodyV;

    open spec fn view(&self) -> BodyV {
        BodyV {
            coinbase: self.coinbase@.map_values(|o: Output| o@),
            transactions: self.transactions@.map_values(|t: Transaction| t@),
            authorizations: self.authorizations@,
        }
    }
}

/// A block header. `prev_side_hash` binds the linear chain; `prev_main_hash`
/// names the mainchain block the header's peg data range ends at.
#[derive(Clone, Copy, Debug, PartialEq, Eq)]
pub struct Header {
    pub merkle_root: MerkleRoot,
    pub prev_side_hash: BlockHash,
    pub prev_main_hash: MainBlockHash,
}

/// Outcome of a broadcast withdrawal bundle, as reported by the mainchain.
#[derive(Clone, Copy, Debug, PartialEq, Eq)]
pub enum WithdrawalBundleStatus {
    Failed,
    Confirmed,
}

/// View of [`MainTxOut`].
#[verifier::ext_equal]
pub struct MainTxOutV {
    pub value: u64,
    pub script_pubkey: Seq<u8>,
}

/// One output of the mainchain bundle transaction.
#[derive(Clone, Debug, PartialEq, Eq)]
pub struct MainTxOut {
    pub value: u64,
    pub script_pubkey: Vec<u8>,
}

impl View for MainTxOut {
    type V = MainTxOutV;

    open spec fn view(&self) -> MainTxOutV {
        MainTxOutV { value: self.value, script_pubkey: self.script_pubkey@ }
    }
}

/// View of [`MainTxIn`].
#[verifier::ext_equal]
pub struct MainTxInV {
    pub prev_txid: MainTxid,
    pub prev_vout: u32,
    pub script_sig: Seq<u8>,
    pub sequence: u32,
}

/// One input of the mainchain bundle transaction.
#[derive(Clone, Debug, PartialEq, Eq)]
pub struct MainTxIn {
    pub prev_txid: MainTxid,
    pub prev_vout: u32,
    pub script_sig: Vec<u8>,
    pub sequence: u32,
}

impl View for MainTxIn {
    type V = MainTxInV;

    open spec fn view(&self) -> MainTxInV {
        MainTxInV {
            prev_txid: self.prev_txid,
            prev_vout: self.prev_vout,
            script_sig: self.script_sig@,
            sequence: self.sequence,
        }
    }
}

/// View of [`MainTransaction`].
#[verifier::ext_equal]
pub struct MainTransactionV {
    pub version: i32,
    pub lock_time: u32,
    pub inputs: Seq<MainTxInV>,
    pub outputs: Seq<MainTxOutV>,
}

/// The mainchain bundle transaction, held as plain values. A trusted
/// wrapper turns it into consensus bytes, its txid, and its weight.
#[derive(Clone, Debug, PartialEq, Eq)]
pub struct MainTransaction {
    pub version: i32,
    pub lock_time: u32,
    pub inputs: Vec<MainTxIn>,
    pub outputs: Vec<MainTxOut>,
}

impl View for MainTransaction {
    type V = MainTransactionV;

    open spec fn view(&self) -> MainTransactionV {
        MainTransactionV {
            version: self.version,
            lock_time: self.lock_time,
            inputs: self.inputs@.map_values(|i: MainTxIn| i@),
            outputs: self.outputs@.map_values(|o: MainTxOut| o@),
        }
    }
}

/// View of [`WithdrawalBundle`].
#[verifier::ext_equal]
pub struct WithdrawalBundleV {
    pub spent_utxos: Seq<(OutPoint, OutputV)>,
    pub transaction: MainTransactionV,
    pub main_txid: MainTxid,
}

/// A pending withdrawal bundle: the sidechain UTXOs it sweeps and the
/// mainchain transaction that sweeps them.
#[derive(Clone, Debug, PartialEq, Eq)]
pub struct WithdrawalBundle {
    pub spent_utxos: Vec<(OutPoint, Output)>,
    pub transaction: MainTransaction,
    pub main_txid: MainTxid,
}

impl View for WithdrawalBundle {
    type V = WithdrawalBundleV;

    open spec fn view(&self) -> WithdrawalBundleV {
        WithdrawalBundleV {
            spent_utxos: self.spent_utxos@.map_values(|p: (OutPoint, Output)| (p.0, p.1@)),
            transaction: self.transaction@,
            main_txid: self.main_txid,
        }
    }
}

/// View of [`DepositOutput`].
#[verifier::ext_equal]
pub struct DepositOutputV {
    pub address: Seq<char>,
    pub value: u64,
}

/// A deposit as reported by the mainchain: the destination string and the
/// deposited value.
#[derive(Clone, Debug, PartialEq, Eq)]
pub struct DepositOutput {
    pub address: String,
    pub value: u64,
}

impl View for DepositOutput {
    type V = DepositOutputV;

    open spec fn view(&self) -> DepositOutputV {
        DepositOutputV { address: self.address@, value: self.value }
    }
}

/// View of [`TwoWayPegData`].
#[verifier::ext_equal]
pub struct TwoWayPegDataV {
    pub deposits: Seq<(MainOutPoint, DepositOutputV)>,
    pub deposit_block_hash: Option<MainBlockHash>,
    pub bundle_statuses: Seq<(MainTxid, WithdrawalBundleStatus)>,
}

/// Everything one block's peg application needs from the mainchain.
#[derive(Debug)]
pub struct TwoWayPegData {
    pub deposits: Vec<(MainOutPoint, DepositOutput)>,
    pub deposit_block_hash: Option<MainBlockHash>,
    pub bundle_statuses: Vec<(MainTxid, WithdrawalBundleStatus)>,
}

impl View for TwoWayPegData {
    type V = TwoWayPegDataV;

    open spec fn view(&self) -> TwoWayPegDataV {
        TwoWayPegDataV {
            deposits: self.deposits@.map_values(|p: (MainOutPoint, DepositOutput)| (p.0, p.1@)),
            deposit_block_hash: self.deposit_block_hash,
            bundle_statuses: self.bundle_statuses@,
        }
    }
}

/// View of [`AggregatedWithdrawal`].
#[verifier::ext_equal]
pub struct AggregatedWithdrawalV {
    pub spent_utxos: Seq<(OutPoint, OutputV)>,
    pub main_address: Seq<u8>,
    pub value: u64,
    pub main_fee: u64,
}

/// Withdrawals to one mainchain destination, merged: the summed value, the
/// highest fee offered, and the swept UTXOs.
#[derive(Clone, Debug, PartialEq, Eq)]
pub struct AggregatedWithdrawal {
    pub spent_utxos: Vec<(OutPoint, Output)>,
    pub main_address: MainAddress,
    pub value: u64,
    pub main_fee: u64,
}

impl View for AggregatedWithdrawal {
    type V = AggregatedWithdrawalV;

    open spec fn view(&self) -> AggregatedWithdrawalV {
        AggregatedWithdrawalV {
            spent_utxos: self.spent_utxos@.map_values(|p: (OutPoint, Output)| (p.0, p.1@)),
            main_address: self.main_address@,
            value: self.value,
            main_fee: self.main_fee,
        }
    }
}

/// Heartbeat datagram payload.
#[derive(Clone, Copy, Debug, PartialEq, Eq)]
pub struct PeerState {
    pub block_height: u32,
}

impl Default for PeerState {
    fn default() -> (r: Self)
        ensures
            r.block_height == 0,
    {
        PeerState { block_height: 0 }
    }
}

/// View of [`Request`].
#[verifier::ext_equal]
pub enum RequestV {
    GetBlock { height: u32 },
    PushTransaction { transaction: AuthorizedTransactionV },
}

/// A peer request, one per bidirectional stream.
#[derive(Clone, Debug, PartialEq, Eq)]
pub enum Request {
    GetBlock { height: u32 },
    PushTransaction { transaction: AuthorizedTransaction },
}

impl View for Request {
    type V = RequestV;

    open spec fn view(&self) -> RequestV {
        match self {
            Request::GetBlock { height } => RequestV::GetBlock { height: *height },
            Request::PushTransaction { transaction } => RequestV::PushTransaction {
                transaction: transaction@,
            },
        }
    }
}

/// View of [`Response`].
#[verifier::ext_equal]
pub enum ResponseV {
    Block { header: Header, body: BodyV },
    NoBlock,
    TransactionAccepted,
    TransactionRejected,
}

/// The reply to a peer request.
#[derive(Clone, Debug, PartialEq, Eq)]
pub enum Response {
    Block { header: Header, body: Body },
    NoBlock,
    TransactionAccepted,
    TransactionRejected,
}

impl View for Response {
    type V = ResponseV;

    open spec fn view(&self) -> ResponseV {
        match self {
            Response::Block { header, body } => ResponseV::Block {
                header: *header,
                body: body@,
            },
            Response::NoBlock => ResponseV::NoBlock,
            Response::TransactionAccepted => ResponseV::TransactionAccepted,
            Response::TransactionRejected => ResponseV::TransactionRejected,
        }
    }
}

// Exec equality helpers. Verus does not read derived `PartialEq` impls, so
// verified code compares through these.

pub fn bytes32_eq(a: &[u8; 32], b: &[u8; 32]) -> (r: bool)
    ensures
        r == (a@ == b@),
{
    let mut i: usize = 0;
    while i < 32
        invariant
            i <= 32,
            forall|j: int| 0 <= j < i ==> a@[j] == b@[j],
        decreases 32 - i,
    {
        if a[i] != b[i] {
            assert(a@ != b@);
            return false;
        }
        i += 1;
    }
    assert(a@ =~= b@);
    true
}

pub fn bytes20_eq(a: &[u8; 20], b: &[u8; 20]) -> (r: bool)
    ensures
        r == (a@ == b@),
{
    let mut i: usize = 0;
    while i < 20
        invariant
            i <= 20,
            forall|j: int| 0 <= j < i ==> a@[j] == b@[j],
        decreases 20 - i,
    {
        if a[i] != b[i] {
            assert(a@ != b@);
            return false;
        }
        i += 1;
    }
    assert(a@ =~= b@);
    true
}

pub fn bytes_eq(a: &Vec<u8>, b: &Vec<u8>) -> (r: bool)
    ensures
        r == (a@ == b@),
{
    if a.len() != b.len() {
        assert(a@ != b@);
        return false;
    }
    let mut i: usize = 0;
    while i < a.len()
        invariant
            i <= a.len(),
            a.len() == b.len(),
            forall|j: int| 0 <= j < i ==> a@[j] == b@[j],
        decreases a.len() - i,
    {
        if a[i] != b[i] {
            assert(a@ != b@);
            return false;
        }
        i += 1;
    }
    assert(a@ =~= b@);
    true
}

pub fn address_eq(a: &Address, b: &Address) -> (r: bool)
    ensures
        r == (a == b),
{
    let r = bytes20_eq(&a.0, &b.0);
    proof {
        if a.0@ == b.0@ {
            assert(a.0 =~= b.0);
        }
    }
    r
}

pub fn txid_eq(a: &Txid, b: &Txid) -> (r: bool)
    ensures
        r == (a == b),
{
    let r = bytes32_eq(&a.0, &b.0);
    proof {
        if a.0@ == b.0@ {
            assert(a.0 =~= b.0);
        }
    }
    r
}

pub fn main_txid_eq(a: &MainTxid, b: &MainTxid) -> (r: bool)
    ensures
        r == (a == b),
{
    let r = bytes32_eq(&a.0, &b.0);
    proof {
        if a.0@ == b.0@ {
            assert(a.0 =~= b.0);
        }
    }
    r
}

pub fn main_block_hash_eq(a: &MainBlockHash, b: &MainBlockHash) -> (r: bool)
    ensures
        r == (a == b),
{
    let r = bytes32_eq(&a.0, &b.0);
    proof {
        if a.0@ == b.0@ {
            assert(a.0 =~= b.0);
        }
    }
    r
}

pub fn block_hash_eq(a: &BlockHash, b: &BlockHash) -> (r: bool)
    ensures
        r == (a == b),
{
    let r = bytes32_eq(&a.0, &b.0);
    proof {
        if a.0@ == b.0@ {
            assert(a.0 =~= b.0);
        }
    }
    r
}

pub fn outpoint_eq(a: &OutPoint, b: &OutPoint) -> (r: bool)
    ensures
        r == (a == b),
{
    match (a, b) {
        (OutPoint::Regular { txid: ta, vout: va }, OutPoint::Regular { txid: tb, vout: vb }) => {
            txid_eq(ta, tb) && va == vb
        }
        (
            OutPoint::Coinbase { merkle_root: ma, vout: va },
            OutPoint::Coinbase { merkle_root: mb, vout: vb },
        ) => {
            let r = bytes32_eq(&ma.0, &mb.0);
            proof {
                if ma.0@ == mb.0@ {
                    assert(ma.0 =~= mb.0);
                }
            }
            r && va == vb
        }
        (OutPoint::Deposit(pa), OutPoint::Deposit(pb)) => {
            main_txid_eq(&pa.txid, &pb.txid) && pa.vout == pb.vout
        }
        _ => false,
    }
}

// Exec clone helpers with full contracts. A derived `Clone` on a type with a
// `Vec` field tells Verus nothing, so verified code copies through these.

pub fn clone_bytes(v: &Vec<u8>) -> (r: Vec<u8>)
    ensures
        r@ == v@,
{
    let mut r: Vec<u8> = Vec::new();
    let mut i: usize = 0;
    while i < v.len()
        invariant
            i <= v.len(),
            r@ == v@.subrange(0, i as int),
        decreases v.len() - i,
    {
        r.push(v[i]);
        i += 1;
    }
    assert(r@ =~= v@);
    r
}

pub fn clone_main_address(a: &MainAddress) -> (r: MainAddress)
    ensures
        r@ == a@,
{
    MainAddress(clone_bytes(&a.0))
}

pub fn clone_content(c: &Content) -> (r: Content)
    ensures
        r@ == c@,
{
    match c {
        Content::Value(value) => Content::Value(*value),
        Content::Withdrawal { value, main_fee, main_address } => Content::Withdrawal {
            value: *value,
            main_fee: *main_fee,
            main_address: clone_main_address(main_address),
        },
    }
}

pub fn clone_output(o: &Output) -> (r: Output)
    ensures
        r@ == o@,
{
    Output { address: o.address, content: clone_content(&o.content) }
}

pub fn clone_outputs(v: &Vec<Output>) -> (r: Vec<Output>)
    ensures
        r@.map_values(|o: Output| o@) == v@.map_values(|o: Output| o@),
        r@.len() == v@.len(),
{
    let mut r: Vec<Output> = Vec::new();
    let mut i: usize = 0;
    while i < v.len()
        invariant
            i <= v.len(),
            r@.len() == i,
            forall|j: int| 0 <= j < i ==> #[trigger] r@[j]@ == v@[j]@,
        decreases v.len() - i,
    {
        r.push(clone_output(&v[i]));
        i += 1;
    }
    assert(r@.map_values(|o: Output| o@) =~= v@.map_values(|o: Output| o@));
    r
}

pub fn clone_outpoints(v: &Vec<OutPoint>) -> (r: Vec<OutPoint>)
    ensures
        r@ == v@,
{
    let mut r: Vec<OutPoint> = Vec::new();
    let mut i: usize = 0;
    while i < v.len()
        invariant
            i <= v.len(),
            r@ == v@.subrange(0, i as int),
        decreases v.len() - i,
    {
        r.push(v[i]);
        i += 1;
    }
    assert(r@ =~= v@);
    r
}

pub fn clone_transaction(t: &Transaction) -> (r: Transaction)
    ensures
        r@ == t@,
{
    let r = Transaction { inputs: clone_outpoints(&t.inputs), outputs: clone_outputs(&t.outputs) };
    assert(r@ =~= t@);
    r
}

pub fn clone_transactions(v: &Vec<Transaction>) -> (r: Vec<Transaction>)
    ensures
        r@.map_values(|t: Transaction| t@) == v@.map_values(|t: Transaction| t@),
        r@.len() == v@.len(),
{
    let mut r: Vec<Transaction> = Vec::new();
    let mut i: usize = 0;
    while i < v.len()
        invariant
            i <= v.len(),
            r@.len() == i,
            forall|j: int| 0 <= j < i ==> #[trigger] r@[j]@ == v@[j]@,
        decreases v.len() - i,
    {
        r.push(clone_transaction(&v[i]));
        i += 1;
    }
    assert(r@.map_values(|t: Transaction| t@) =~= v@.map_values(|t: Transaction| t@));
    r
}

pub fn clone_authorizations(v: &Vec<Authorization>) -> (r: Vec<Authorization>)
    ensures
        r@ == v@,
{
    let mut r: Vec<Authorization> = Vec::new();
    let mut i: usize = 0;
    while i < v.len()
        invariant
            i <= v.len(),
            r@ == v@.subrange(0, i as int),
        decreases v.len() - i,
    {
        r.push(v[i]);
        i += 1;
    }
    assert(r@ =~= v@);
    r
}

pub fn clone_authorized_transaction(t: &AuthorizedTransaction) -> (r: AuthorizedTransaction)
    ensures
        r@ == t@,
{
    let r = AuthorizedTransaction {
        transaction: clone_transaction(&t.transaction),
        authorizations: clone_authorizations(&t.authorizations),
    };
    assert(r@ =~= t@);
    r
}

pub fn clone_body(b: &Body) -> (r: Body)
    ensures
        r@ == b@,
{
    let r = Body {
        coinbase: clone_outputs(&b.coinbase),
        transactions: clone_transactions(&b.transactions),
        authorizations: clone_authorizations(&b.authorizations),
    };
    assert(r@ =~= b@);
    r
}

} // verus!

verus! {

pub fn clone_utxo_pairs(v: &Vec<(OutPoint, Output)>) -> (r: Vec<(OutPoint, Output)>)
    ensures
        r@.map_values(|p: (OutPoint, Output)| (p.0, p.1@)) == v@.map_values(
            |p: (OutPoint, Output)| (p.0, p.1@),
        ),
        r@.len() == v@.len(),
{
    let mut r: Vec<(OutPoint, Output)> = Vec::new();
    let mut i: usize = 0;
    while i < v.len()
        invariant
            i <= v@.len(),
            r@.len() == i,
            forall|j: int|
                0 <= j < i ==> (#[trigger] r@[j]).0 == v@[j].0 && r@[j].1@ == v@[j].1@,
        decreases v@.len() - i,
    {
        let entry = &v[i];
        r.push((entry.0, clone_output(&entry.1)));
        i += 1;
    }
    assert(r@.map_values(|p: (OutPoint, Output)| (p.0, p.1@)) =~= v@.map_values(
        |p: (OutPoint, Output)| (p.0, p.1@),
    ));
    r
}

pub fn clone_aggregated_withdrawal(a: &AggregatedWithdrawal) -> (r: AggregatedWithdrawal)
    ensures
        r@ == a@,
{
    let r = AggregatedWithdrawal {
        spent_utxos: clone_utxo_pairs(&a.spent_utxos),
        main_address: clone_main_address(&a.main_address),
        value: a.value,
        main_fee: a.main_fee,
    };
    assert(r@ =~= a@);
    r
}

pub fn clone_main_tx_in(t: &MainTxIn) -> (r: MainTxIn)
    ensures
        r@ == t@,
{
    MainTxIn {
        prev_txid: t.prev_txid,
        prev_vout: t.prev_vout,
        script_sig: clone_bytes(&t.script_sig),
        sequence: t.sequence,
    }
}

pub fn clone_main_tx_out(t: &MainTxOut) -> (r: MainTxOut)
    ensures
        r@ == t@,
{
    MainTxOut { value: t.value, script_pubkey: clone_bytes(&t.script_pubkey) }
}

pub fn clone_main_transaction(t: &MainTransaction) -> (r: MainTransaction)
    ensures
        r@ == t@,
{
    let mut inputs: Vec<MainTxIn> = Vec::new();
    let mut i: usize = 0;
    while i < t.inputs.len()
        invariant
            i <= t.inputs@.len(),
            inputs@.len() == i,
            forall|j: int| 0 <= j < i ==> #[trigger] inputs@[j]@ == t.inputs@[j]@,
        decreases t.inputs@.len() - i,
    {
        inputs.push(clone_main_tx_in(&t.inputs[i]));
        i += 1;
    }
    let mut outputs: Vec<MainTxOut> = Vec::new();
    let mut i: usize = 0;
    while i < t.outputs.len()
        invariant
            i <= t.outputs@.len(),
            outputs@.len() == i,
            forall|j: int| 0 <= j < i ==> #[trigger] outputs@[j]@ == t.outputs@[j]@,
        decreases t.outputs@.len() - i,
    {
        outputs.push(clone_main_tx_out(&t.outputs[i]));
        i += 1;
    }
    let r = MainTransaction { version: t.version, lock_time: t.lock_time, inputs, outputs };
    assert(r@ =~= t@);
    r
}

pub fn clone_withdrawal_bundle(b: &WithdrawalBundle) -> (r: WithdrawalBundle)
    ensures
        r@ == b@,
{
    let r = WithdrawalBundle {
        spent_utxos: clone_utxo_pairs(&b.spent_utxos),
        transaction: clone_main_transaction(&b.transaction),
        main_txid: b.main_txid,
    };
    assert(r@ =~= b@);
    r
}

} // verus!

verus! {

pub fn header_eq(a: &Header, b: &Header) -> (r: bool)
    ensures
        r == (a == b),
{
    let r = bytes32_eq(&a.merkle_root.0, &b.merkle_root.0) && bytes32_eq(
        &a.prev_side_hash.0,
        &b.prev_side_hash.0,
    ) && bytes32_eq(&a.prev_main_hash.0, &b.prev_main_hash.0);
    proof {
        if a.merkle_root.0@ == b.merkle_root.0@ && a.prev_side_hash.0@ == b.prev_side_hash.0@
            && a.prev_main_hash.0@ == b.prev_main_hash.0@ {
            assert(a.merkle_root.0 =~= b.merkle_root.0);
            assert(a.prev_side_hash.0 =~= b.prev_side_hash.0);
            assert(a.prev_main_hash.0 =~= b.prev_main_hash.0);
        }
    }
    r
}

} // verus!
