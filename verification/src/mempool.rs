//! The mempool: unconfirmed authorized transactions keyed by txid, plus the
//! set of outpoints they would spend, for double-spend screening.

use vstd::prelude::*;
use crate::types::{AuthorizedTransaction, AuthorizedTransactionV, OutPoint, Txid};
use crate::hashes::spec_txid;
use crate::state::{bytes_lex_lt, distinct_outpoints, outpoints_contains};

verus! {

/// What can go wrong while admitting a transaction.
#[derive(Clone, Copy, Debug, PartialEq, Eq)]
pub enum Error {
    /// An input is already spent by a transaction in the pool.
    UtxoDoubleSpent,
}

/// The order transactions are stored and handed out in: ascending txid.
pub open spec fn txid_lt(a: Txid, b: Txid) -> bool {
    bytes_lex_lt(a.0@, b.0@)
}

/// View of [`MemPool`].
#[verifier::ext_equal]
pub struct MemPoolV {
    pub transactions: Seq<(Txid, AuthorizedTransactionV)>,
    pub spent_utxos: Seq<OutPoint>,
}

/// The mempool.
pub struct MemPool {
    pub transactions: Vec<(Txid, AuthorizedTransaction)>,
    pub spent_utxos: Vec<OutPoint>,
}

impl View for MemPool {
    type V = MemPoolV;

    open spec fn view(&self) -> MemPoolV {
        MemPoolV {
            transactions: self.transactions@.map_values(
                |p: (Txid, AuthorizedTransaction)| (p.0, p.1@),
            ),
            spent_utxos: self.spent_utxos@,
        }
    }
}

/// Insert an entry in txid order, replacing an entry with the same txid.
pub open spec fn insert_entry(
    s: Seq<(Txid, AuthorizedTransactionV)>,
    x: (Txid, AuthorizedTransactionV),
) -> Seq<(Txid, AuthorizedTransactionV)>
    decreases s.len(),
{
    if s.len() == 0 {
        seq![x]
    } else if txid_lt(s[0].0, x.0) {
        seq![s[0]] + insert_entry(s.skip(1), x)
    } else if s[0].0 == x.0 {
        seq![x] + s.skip(1)
    } else {
        seq![x] + s
    }
}

/// Remove every occurrence of the given outpoints.
pub open spec fn remove_outpoints(s: Seq<OutPoint>, remove: Seq<OutPoint>) -> Seq<OutPoint>
    decreases s.len(),
{
    if s.len() == 0 {
        s
    } else if remove.contains(s[0]) {
        remove_outpoints(s.skip(1), remove)
    } else {
        seq![s[0]] + remove_outpoints(s.skip(1), remove)
    }
}

/// Remove the entry with the given txid, if present.
pub open spec fn remove_entry(
    s: Seq<(Txid, AuthorizedTransactionV)>,
    txid: Txid,
) -> Seq<(Txid, AuthorizedTransactionV)>
    decreases s.len(),
{
    if s.len() == 0 {
        s
    } else if s[0].0 == txid {
        remove_entry(s.skip(1), txid)
    } else {
        seq![s[0]] + remove_entry(s.skip(1), txid)
    }
}

impl MemPool {
    /// The pool invariants: entries strictly ascending by txid, each keyed by
    /// its transaction's txid, and no duplicate spent outpoint.
    pub open spec fn wf(&self) -> bool {
        &&& forall|i: int, j: int|
            0 <= i < j < self@.transactions.len() ==> txid_lt(
                (#[trigger] self@.transactions[i]).0,
                (#[trigger] self@.transactions[j]).0,
            )
        &&& forall|i: int|
            0 <= i < self@.transactions.len() ==> (#[trigger] self@.transactions[i]).0
                == spec_txid(self@.transactions[i].1.transaction)
        &&& distinct_outpoints(self@.spent_utxos)
    }

    /// An empty pool.
    pub fn new() -> (r: MemPool)
        ensures
            r.wf(),
            r@.transactions.len() == 0,
            r@.spent_utxos.len() == 0,
    {
        let r = MemPool { transactions: Vec::new(), spent_utxos: Vec::new() };
        proof {
            assert(r@.transactions =~= Seq::<(Txid, AuthorizedTransactionV)>::empty());
        }
        r
    }

    /// Admit a transaction: refused when any input is already spent by the
    /// pool, or spent twice by the transaction itself. On success the
    /// transaction is stored under its txid and its inputs join the spent
    /// set, in input order.
    #[verifier::loop_isolation(false)]
    pub fn put(&mut self, transaction: &AuthorizedTransaction) -> (r: Result<(), Error>)
        requires
            old(self).wf(),
        ensures
            match r {
                Ok(()) => {
                    &&& final(self).wf()
                    &&& (forall|k: int|
                        0 <= k < transaction@.transaction.inputs.len() ==> !old(
                            self,
                        )@.spent_utxos.contains(#[trigger] transaction@.transaction.inputs[k]))
                    &&& distinct_outpoints(transaction@.transaction.inputs)
                    &&& final(self)@.transactions == insert_entry(
                        old(self)@.transactions,
                        (spec_txid(transaction@.transaction), transaction@),
                    )
                    &&& final(self)@.spent_utxos == old(self)@.spent_utxos
                        + transaction@.transaction.inputs
                },
                Err(Error::UtxoDoubleSpent) => {
                    &&& final(self)@ == old(self)@
                    &&& !((forall|k: int|
                        0 <= k < transaction@.transaction.inputs.len() ==> !old(
                            self,
                        )@.spent_utxos.contains(#[trigger] transaction@.transaction.inputs[k]))
                        && distinct_outpoints(transaction@.transaction.inputs))
                },
            },
    {
        let ghost m0 = self@;
        let inputs = &transaction.transaction.inputs;
        let mut k: usize = 0;
        while k < inputs.len()
            invariant
                k <= inputs@.len(),
                self@ == m0,
                self.wf(),
                inputs@ == transaction@.transaction.inputs,
                forall|x: int|
                    0 <= x < k ==> !m0.spent_utxos.contains(#[trigger] inputs@[x]),
                forall|x: int, y: int| 0 <= x < y < k ==> inputs@[x] != inputs@[y],
            decreases inputs@.len() - k,
        {
            if outpoints_contains(&self.spent_utxos, &inputs[k]) {
                return Err(Error::UtxoDoubleSpent);
            }
            let mut x: usize = 0;
            while x < k
                invariant
                    x <= k,
                    k < inputs@.len(),
                    forall|y: int| 0 <= y < x ==> inputs@[y] != inputs@[k as int],
                decreases k - x,
            {
                if crate::types::outpoint_eq(&inputs[x], &inputs[k]) {
                    proof {
                        assert(inputs@[x as int] == inputs@[k as int]);
                        assert(!distinct_outpoints(transaction@.transaction.inputs)) by {
                            if distinct_outpoints(transaction@.transaction.inputs) {
                                assert(transaction@.transaction.inputs[x as int]
                                    != transaction@.transaction.inputs[k as int]);
                            }
                        }
                    }
                    return Err(Error::UtxoDoubleSpent);
                }
                x += 1;
            }
            k += 1;
        }
        // Record the spent outpoints.
        let ghost spent0 = self.spent_utxos@;
        let mut k: usize = 0;
        while k < inputs.len()
            invariant
                k <= inputs@.len(),
                inputs@ == transaction@.transaction.inputs,
                self@.transactions == m0.transactions,
                self.spent_utxos@ == spent0 + inputs@.take(k as int),
                forall|x: int|
                    0 <= x < inputs@.len() ==> !spent0.contains(#[trigger] inputs@[x]),
                forall|x: int, y: int| 0 <= x < y < inputs@.len() ==> inputs@[x] != inputs@[y],
                spent0 == m0.spent_utxos,
                distinct_outpoints(self.spent_utxos@),
            decreases inputs@.len() - k,
        {
            let ghost sp = self.spent_utxos@;
            self.spent_utxos.push(inputs[k]);
            proof {
                assert(inputs@.take(k + 1 as int) =~= inputs@.take(k as int).push(
                    inputs@[k as int],
                ));
                assert(self.spent_utxos@ =~= spent0 + inputs@.take(k + 1 as int));
                assert(distinct_outpoints(self.spent_utxos@)) by {
                    assert(forall|x: int|
                        0 <= x < sp.len() ==> #[trigger] sp[x] != inputs@[k as int]) by {
                        assert(forall|x: int|
                            0 <= x < sp.len() ==> sp[x] == (if x < spent0.len() {
                                spent0[x]
                            } else {
                                inputs@.take(k as int)[x - spent0.len()]
                            }));
                    }
                }
            }
            k += 1;
        }
        proof {
            assert(inputs@.take(inputs@.len() as int) =~= inputs@);
        }
        // Store the transaction under its txid, in key order.
        let txid = transaction.transaction.txid();
        let j = entry_insert_position(&self.transactions, &txid);
        let ghost txs0 = self@.transactions;
        let replace = j < self.transactions.len() && crate::types::txid_eq(
            &self.transactions[j].0,
            &txid,
        );
        proof {
            assert(forall|x: int|
                0 <= x < txs0.len() ==> (#[trigger] txs0[x]).0 == self.transactions@[x].0);
        }
        if replace {
            let _ = self.transactions.remove(j);
            self.transactions.insert(j, (txid, crate::types::clone_authorized_transaction(transaction)));
            proof {
                lemma_insert_entry_at(txs0, (txid, transaction@), j as int, true);
                assert(self@.transactions =~= txs0.subrange(0, j as int) + seq![
                    (txid, transaction@),
                ] + txs0.skip(j + 1 as int));
            }
        } else {
            self.transactions.insert(j, (txid, crate::types::clone_authorized_transaction(transaction)));
            proof {
                lemma_insert_entry_at(txs0, (txid, transaction@), j as int, false);
                assert(self@.transactions =~= txs0.subrange(0, j as int) + seq![
                    (txid, transaction@),
                ] + txs0.skip(j as int));
            }
        }
        proof {
            lemma_wf_after_insert(m0.transactions, (txid, transaction@), j as int, replace);
        }
        Ok(())
    }

    /// Remove a transaction by txid, clearing its inputs from the spent set
    /// so the outpoints can be offered again.
    #[verifier::loop_isolation(false)]
    pub fn delete(&mut self, txid: &Txid) -> (r: ())
        requires
            old(self).wf(),
        ensures
            final(self).wf(),
            final(self)@.transactions == remove_entry(old(self)@.transactions, *txid),
            match find_entry(old(self)@.transactions, *txid) {
                Some(tx) => final(self)@.spent_utxos == remove_outpoints(
                    old(self)@.spent_utxos,
                    tx.transaction.inputs,
                ),
                None => final(self)@.spent_utxos == old(self)@.spent_utxos,
            },
    {
        let ghost m0 = self@;
        let mut i: usize = 0;
        while i < self.transactions.len()
            invariant
                i <= self@.transactions.len(),
                self@ == m0,
                self.wf(),
                forall|k: int| 0 <= k < i ==> (#[trigger] m0.transactions[k]).0 != *txid,
            decreases self@.transactions.len() - i,
        {
            if crate::types::txid_eq(&self.transactions[i].0, txid) {
                let entry = self.transactions.remove(i);
                proof {
                    assert forall|x: int, y: int|
                        0 <= x < y < m0.transactions.len() implies (
                    #[trigger] m0.transactions[x]).0 != (#[trigger] m0.transactions[y]).0 by {
                        if m0.transactions[x].0 == m0.transactions[y].0 {
                            lemma_lex_irrefl(m0.transactions[x].0.0@);
                        }
                    }
                    assert(m0.transactions[i as int].0 == *txid);
                    lemma_remove_entry_at(m0.transactions, *txid, i as int);
                    lemma_find_entry_at(m0.transactions, *txid, i as int);
                    assert(self@.transactions =~= m0.transactions.subrange(0, i as int)
                        + m0.transactions.skip(i + 1 as int));
                }
                // Clear the inputs from the spent set.
                let inputs = &entry.1.transaction.inputs;
                let ghost sp0 = self.spent_utxos@;
                let ghost ins = entry.1@.transaction.inputs;
                let mut out: Vec<OutPoint> = Vec::new();
                let mut k: usize = 0;
                proof {
                    assert(sp0.take(0) =~= Seq::<OutPoint>::empty());
                    assert(remove_outpoints(Seq::<OutPoint>::empty(), ins) =~= Seq::<
                        OutPoint,
                    >::empty());
                    assert(out@ =~= Seq::<OutPoint>::empty());
                }
                while k < self.spent_utxos.len()
                    invariant
                        k <= sp0.len(),
                        sp0 == self.spent_utxos@,
                        ins == entry.1@.transaction.inputs,
                        inputs@ == entry.1.transaction.inputs@,
                        out@ == remove_outpoints(sp0.take(k as int), ins),
                        distinct_outpoints(sp0),
                    decreases sp0.len() - k,
                {
                    let op = self.spent_utxos[k];
                    let keep = !outpoints_contains(inputs, &op);
                    proof {
                        lemma_remove_outpoints_take(sp0, ins, k as int);
                    }
                    if keep {
                        out.push(op);
                    }
                    k += 1;
                }
                proof {
                    assert(sp0.take(sp0.len() as int) =~= sp0);
                }
                self.spent_utxos = out;
                proof {
                    lemma_remove_outpoints_distinct(sp0, ins);
                    lemma_wf_after_remove(m0.transactions, i as int);
                    assert(sp0 == m0.spent_utxos);
                    assert(find_entry(m0.transactions, *txid) == Some(entry.1@));
                    assert(entry.1@.transaction.inputs == ins);
                    assert(self@.spent_utxos == remove_outpoints(m0.spent_utxos, ins));
                    assert(self@.transactions == remove_entry(m0.transactions, *txid));
                }
                return ();
            }
            i += 1;
        }
        proof {
            lemma_remove_entry_absent(m0.transactions, *txid);
            lemma_find_entry_absent(m0.transactions, *txid);
        }
    }

    /// Up to `number` transactions, in ascending txid order.
    pub fn take(&self, number: usize) -> (r: Vec<AuthorizedTransaction>)
        requires
            self.wf(),
        ensures
            r@.len() == if number <= self@.transactions.len() {
                number as int
            } else {
                self@.transactions.len() as int
            },
            forall|i: int| 0 <= i < r@.len() ==> #[trigger] r@[i]@ == self@.transactions[i].1,
    {
        let mut r: Vec<AuthorizedTransaction> = Vec::new();
        let mut i: usize = 0;
        while i < self.transactions.len() && i < number
            invariant
                i <= self@.transactions.len(),
                i <= number,
                i < number || i == number,
                r@.len() == i,
                i == r@.len(),
                number > self@.transactions.len() ==> i <= self@.transactions.len(),
                forall|k: int| 0 <= k < i ==> #[trigger] r@[k]@ == self@.transactions[k].1,
            decreases self@.transactions.len() - i,
        {
            r.push(crate::types::clone_authorized_transaction(&self.transactions[i].1));
            i += 1;
        }
        r
    }

    /// Every transaction, in ascending txid order.
    pub fn take_all(&self) -> (r: Vec<AuthorizedTransaction>)
        requires
            self.wf(),
        ensures
            r@.len() == self@.transactions.len(),
            forall|i: int| 0 <= i < r@.len() ==> #[trigger] r@[i]@ == self@.transactions[i].1,
    {
        self.take(self.transactions.len())
    }
}


/// Where an entry with this txid lands: after every strictly smaller key.
fn entry_insert_position(transactions: &Vec<(Txid, AuthorizedTransaction)>, txid: &Txid) -> (r:
    usize)
    ensures
        r <= transactions@.len(),
        forall|x: int|
            0 <= x < r ==> txid_lt((#[trigger] transactions@[x]).0, *txid),
        r < transactions@.len() ==> !txid_lt(transactions@[r as int].0, *txid),
{
    let mut j: usize = 0;
    while j < transactions.len()
        invariant
            j <= transactions@.len(),
            forall|x: int|
                0 <= x < j ==> txid_lt((#[trigger] transactions@[x]).0, *txid),
        decreases transactions@.len() - j,
    {
        if !crate::state::bytes32_lex_lt_exec(&transactions[j].0.0, &txid.0) {
            return j;
        }
        j += 1;
    }
    j
}

/// The stored transaction under a txid, if any.
pub open spec fn find_entry(s: Seq<(Txid, AuthorizedTransactionV)>, txid: Txid) -> Option<
    AuthorizedTransactionV,
>
    decreases s.len(),
{
    if s.len() == 0 {
        None
    } else if s[0].0 == txid {
        Some(s[0].1)
    } else {
        find_entry(s.skip(1), txid)
    }
}

pub proof fn lemma_find_entry_at(s: Seq<(Txid, AuthorizedTransactionV)>, txid: Txid, i: int)
    requires
        0 <= i < s.len(),
        s[i].0 == txid,
        forall|k: int| 0 <= k < i ==> (#[trigger] s[k]).0 != txid,
    ensures
        find_entry(s, txid) == Some(s[i].1),
    decreases i,
{
    if i > 0 {
        lemma_find_entry_at(s.skip(1), txid, i - 1);
    }
}

pub proof fn lemma_find_entry_absent(s: Seq<(Txid, AuthorizedTransactionV)>, txid: Txid)
    requires
        forall|k: int| 0 <= k < s.len() ==> (#[trigger] s[k]).0 != txid,
    ensures
        find_entry(s, txid) is None,
    decreases s.len(),
{
    if s.len() > 0 {
        lemma_find_entry_absent(s.skip(1), txid);
    }
}

pub proof fn lemma_remove_entry_at(s: Seq<(Txid, AuthorizedTransactionV)>, txid: Txid, i: int)
    requires
        0 <= i < s.len(),
        s[i].0 == txid,
        forall|k: int| 0 <= k < i ==> (#[trigger] s[k]).0 != txid,
        forall|x: int, y: int|
            0 <= x < y < s.len() ==> txid_lt((#[trigger] s[x]).0, (#[trigger] s[y]).0),
        forall|x: int, y: int| 0 <= x < y < s.len() ==> (#[trigger] s[x]).0 != (#[trigger] s[y]).0,
    ensures
        remove_entry(s, txid) == s.subrange(0, i) + s.skip(i + 1),
    decreases i,
{
    if i == 0 {
        assert(forall|k: int|
            0 <= k < s.skip(1).len() ==> (#[trigger] s.skip(1)[k]).0 != txid) by {
            assert(forall|k: int| 0 <= k < s.skip(1).len() ==> s.skip(1)[k] == s[k + 1]);
        }
        lemma_remove_entry_absent(s.skip(1), txid);
        assert(s.subrange(0, 0) + s.skip(1) =~= s.skip(1));
    } else {
        assert(forall|x: int, y: int|
            0 <= x < y < s.skip(1).len() ==> txid_lt(
                (#[trigger] s.skip(1)[x]).0,
                (#[trigger] s.skip(1)[y]).0,
            ) && (s.skip(1)[x]).0 != (s.skip(1)[y]).0) by {
            assert(forall|k: int| 0 <= k < s.skip(1).len() ==> s.skip(1)[k] == s[k + 1]);
        }
        lemma_remove_entry_at(s.skip(1), txid, i - 1);
        assert(s.skip(1).subrange(0, i - 1) =~= s.subrange(1, i));
        assert(s.skip(1).skip(i) =~= s.skip(i + 1));
        assert(seq![s[0]] + (s.subrange(1, i) + s.skip(i + 1)) =~= s.subrange(0, i) + s.skip(
            i + 1,
        ));
    }
}

pub proof fn lemma_remove_entry_absent(s: Seq<(Txid, AuthorizedTransactionV)>, txid: Txid)
    requires
        forall|k: int| 0 <= k < s.len() ==> (#[trigger] s[k]).0 != txid,
    ensures
        remove_entry(s, txid) == s,
    decreases s.len(),
{
    if s.len() > 0 {
        assert(forall|k: int|
            0 <= k < s.skip(1).len() ==> (#[trigger] s.skip(1)[k]).0 != txid) by {
            assert(forall|k: int| 0 <= k < s.skip(1).len() ==> s.skip(1)[k] == s[k + 1]);
        }
        lemma_remove_entry_absent(s.skip(1), txid);
        assert(seq![s[0]] + s.skip(1) =~= s);
    }
}

/// Filtering a longer prefix extends the filtered result by at most the new
/// element.
pub proof fn lemma_remove_outpoints_take(s: Seq<OutPoint>, remove: Seq<OutPoint>, k: int)
    requires
        0 <= k < s.len(),
    ensures
        remove_outpoints(s.take(k + 1), remove) == if remove.contains(s[k]) {
            remove_outpoints(s.take(k), remove)
        } else {
            remove_outpoints(s.take(k), remove).push(s[k])
        },
    decreases k,
{
    if k == 0 {
        assert(s.take(1) =~= seq![s[0]]);
        assert(seq![s[0]].skip(1) =~= Seq::<OutPoint>::empty());
        assert(s.take(0) =~= Seq::<OutPoint>::empty());
        if !remove.contains(s[0]) {
            assert(seq![s[0]] + Seq::<OutPoint>::empty() =~= Seq::<OutPoint>::empty().push(s[0]));
        }
    } else {
        assert(s.take(k + 1)[0] == s[0]);
        assert(s.take(k + 1).skip(1) =~= s.skip(1).take(k));
        assert(s.take(k)[0] == s[0]);
        assert(s.take(k).skip(1) =~= s.skip(1).take(k - 1));
        assert(s.skip(1)[k - 1] == s[k]);
        lemma_remove_outpoints_take(s.skip(1), remove, k - 1);
        if remove.contains(s[0]) {
        } else {
            if remove.contains(s[k]) {
            } else {
                assert(seq![s[0]] + remove_outpoints(s.skip(1).take(k - 1), remove).push(s[k])
                    =~= (seq![s[0]] + remove_outpoints(s.skip(1).take(k - 1), remove)).push(s[k]));
            }
        }
    }
}

/// Filtering keeps distinctness.
pub proof fn lemma_remove_outpoints_distinct(s: Seq<OutPoint>, remove: Seq<OutPoint>)
    requires
        distinct_outpoints(s),
    ensures
        distinct_outpoints(remove_outpoints(s, remove)),
        forall|op: OutPoint|
            #[trigger] remove_outpoints(s, remove).contains(op) ==> s.contains(op),
    decreases s.len(),
{
    if s.len() > 0 {
        assert(forall|x: int, y: int|
            0 <= x < y < s.skip(1).len() ==> (#[trigger] s.skip(1)[x]) != (
            #[trigger] s.skip(1)[y])) by {
            assert(forall|k: int| 0 <= k < s.skip(1).len() ==> s.skip(1)[k] == s[k + 1]);
        }
        lemma_remove_outpoints_distinct(s.skip(1), remove);
        let r = remove_outpoints(s, remove);
        let r1 = remove_outpoints(s.skip(1), remove);
        if !remove.contains(s[0]) {
            assert(r == seq![s[0]] + r1);
            assert(forall|op: OutPoint| #[trigger] r1.contains(op) ==> s.skip(1).contains(op));
            assert(forall|op: OutPoint| s.skip(1).contains(op) ==> s.contains(op)) by {
                assert(forall|k: int| 0 <= k < s.skip(1).len() ==> s.skip(1)[k] == s[k + 1]);
            }
            assert(!s.skip(1).contains(s[0])) by {
                assert(forall|k: int| 0 <= k < s.skip(1).len() ==> s.skip(1)[k] == s[k + 1]);
            }
            assert(distinct_outpoints(r)) by {
                assert(forall|y: int| 1 <= y < r.len() ==> r[y] == r1[y - 1]);
                assert(forall|y: int| 1 <= y < r.len() ==> r1.contains(#[trigger] r1[y - 1]));
            }
            assert forall|op: OutPoint| #[trigger] r.contains(op) implies s.contains(op) by {
                let k = choose|k: int| 0 <= k < r.len() && r[k] == op;
                if k == 0 {
                    assert(s[0] == op);
                } else {
                    assert(r[k] == r1[k - 1]);
                    assert(r1.contains(op));
                    assert(s.skip(1).contains(op));
                    let m = choose|m: int| 0 <= m < s.skip(1).len() && s.skip(1)[m] == op;
                    assert(s[m + 1] == op);
                }
            }
        } else {
            assert(forall|op: OutPoint| s.skip(1).contains(op) ==> s.contains(op)) by {
                assert(forall|k: int| 0 <= k < s.skip(1).len() ==> s.skip(1)[k] == s[k + 1]);
            }
        }
    }
}

/// The txid order is a strict total order on distinct 32-byte digests.
pub proof fn lemma_lex_trichotomy(a: Seq<u8>, b: Seq<u8>)
    requires
        a.len() == b.len(),
        !bytes_lex_lt(a, b),
        !bytes_lex_lt(b, a),
    ensures
        a == b,
    decreases a.len(),
{
    if a.len() > 0 {
        assert(a[0] == b[0]);
        lemma_lex_trichotomy(a.skip(1), b.skip(1));
        assert(forall|i: int| 1 <= i < a.len() ==> #[trigger] a[i] == a.skip(1)[i - 1]);
        assert(forall|i: int| 1 <= i < b.len() ==> #[trigger] b[i] == b.skip(1)[i - 1]);
        assert(a =~= b);
    } else {
        assert(a =~= b);
    }
}

/// The lexicographic order is irreflexive.
pub proof fn lemma_lex_irrefl(a: Seq<u8>)
    ensures
        !bytes_lex_lt(a, a),
    decreases a.len(),
{
    if a.len() > 0 {
        lemma_lex_irrefl(a.skip(1));
    }
}

pub proof fn lemma_lex_trans(a: Seq<u8>, b: Seq<u8>, c: Seq<u8>)
    requires
        bytes_lex_lt(a, b),
        bytes_lex_lt(b, c),
    ensures
        bytes_lex_lt(a, c),
    decreases a.len(),
{
    if a.len() > 0 && b.len() > 0 && c.len() > 0 {
        if a[0] == b[0] && b[0] == c[0] {
            lemma_lex_trans(a.skip(1), b.skip(1), c.skip(1));
        }
    }
}

/// Inserting at the scan position keeps the pool sorted and keyed.
pub proof fn lemma_insert_entry_at(
    s: Seq<(Txid, AuthorizedTransactionV)>,
    x: (Txid, AuthorizedTransactionV),
    j: int,
    replace: bool,
)
    requires
        0 <= j <= s.len(),
        forall|k: int| 0 <= k < j ==> txid_lt((#[trigger] s[k]).0, x.0),
        j < s.len() ==> !txid_lt(s[j].0, x.0),
        replace <==> (j < s.len() && s[j].0 == x.0),
    ensures
        replace ==> insert_entry(s, x) == s.subrange(0, j) + seq![x] + s.skip(j + 1),
        !replace ==> insert_entry(s, x) == s.subrange(0, j) + seq![x] + s.skip(j),
    decreases j,
{
    if j == 0 {
        if s.len() == 0 {
            assert(seq![x] =~= s.subrange(0, 0) + seq![x] + s.skip(0));
        } else if s[0].0 == x.0 {
            assert(seq![x] + s.skip(1) =~= s.subrange(0, 0) + seq![x] + s.skip(1));
        } else {
            assert(seq![x] + s =~= s.subrange(0, 0) + seq![x] + s.skip(0));
        }
    } else {
        assert(txid_lt(s[0].0, x.0));
        assert(forall|k: int|
            0 <= k < j - 1 ==> txid_lt((#[trigger] s.skip(1)[k]).0, x.0)) by {
            assert(forall|k: int| 0 <= k < s.skip(1).len() ==> s.skip(1)[k] == s[k + 1]);
        }
        lemma_insert_entry_at(s.skip(1), x, j - 1, replace);
        assert(s.skip(1).subrange(0, j - 1) =~= s.subrange(1, j));
        if replace {
            assert(s.skip(1).skip(j) =~= s.skip(j + 1));
            assert(seq![s[0]] + (s.subrange(1, j) + seq![x] + s.skip(j + 1)) =~= s.subrange(0, j)
                + seq![x] + s.skip(j + 1));
        } else {
            assert(s.skip(1).skip(j - 1) =~= s.skip(j));
            assert(seq![s[0]] + (s.subrange(1, j) + seq![x] + s.skip(j)) =~= s.subrange(0, j)
                + seq![x] + s.skip(j));
        }
    }
}

/// The pool stays well-formed after the insertion.
pub proof fn lemma_wf_after_insert(
    s: Seq<(Txid, AuthorizedTransactionV)>,
    x: (Txid, AuthorizedTransactionV),
    j: int,
    replace: bool,
)
    requires
        0 <= j <= s.len(),
        forall|k: int| 0 <= k < j ==> txid_lt((#[trigger] s[k]).0, x.0),
        j < s.len() ==> !txid_lt(s[j].0, x.0),
        replace <==> (j < s.len() && s[j].0 == x.0),
        forall|a: int, b: int|
            0 <= a < b < s.len() ==> txid_lt((#[trigger] s[a]).0, (#[trigger] s[b]).0),
    ensures
        replace ==> sorted_entries(s.subrange(0, j) + seq![x] + s.skip(j + 1)),
        !replace ==> sorted_entries(s.subrange(0, j) + seq![x] + s.skip(j)),
{
    if replace {
        let t = s.subrange(0, j) + seq![x] + s.skip(j + 1);
        assert(sorted_entries(t)) by {
            assert(forall|k: int| 0 <= k < t.len() ==> #[trigger] t[k] == (if k < j {
                s[k]
            } else if k == j {
                x
            } else {
                s[k]
            }));
            assert(forall|a: int, b: int|
                0 <= a < b < t.len() && a != j && b != j ==> txid_lt(
                    (#[trigger] t[a]).0,
                    (#[trigger] t[b]).0,
                ));
            assert(forall|b: int| j < b < t.len() ==> txid_lt(x.0, (#[trigger] t[b]).0)) by {
                assert(forall|b: int| j < b < s.len() ==> txid_lt((s[j]).0, (#[trigger] s[b]).0));
            }
        }
    } else {
        let t = s.subrange(0, j) + seq![x] + s.skip(j);
        assert(sorted_entries(t)) by {
            assert(forall|k: int| 0 <= k < t.len() ==> #[trigger] t[k] == (if k < j {
                s[k]
            } else if k == j {
                x
            } else {
                s[k - 1]
            }));
            if j < s.len() {
                assert(!txid_lt(s[j].0, x.0) && s[j].0 != x.0);
                lemma_lex_trichotomy_txid(x.0, s[j].0);
                assert(txid_lt(x.0, s[j].0));
                assert(forall|b: int|
                    j < b < s.len() ==> txid_lt(x.0, (#[trigger] s[b]).0)) by {
                    assert(forall|b: int|
                        j < b < s.len() ==> txid_lt((#[trigger] s[j]).0, s[b].0));
                    assert forall|b: int| j < b < s.len() implies txid_lt(
                        x.0,
                        (#[trigger] s[b]).0,
                    ) by {
                        lemma_lex_trans(x.0.0@, s[j].0.0@, s[b].0.0@);
                    }
                }
            }
        }
    }
}

/// Two distinct txids are strictly ordered one way.
pub proof fn lemma_lex_trichotomy_txid(a: Txid, b: Txid)
    requires
        a != b,
    ensures
        txid_lt(a, b) || txid_lt(b, a),
{
    if !txid_lt(a, b) && !txid_lt(b, a) {
        lemma_lex_trichotomy(a.0@, b.0@);
        assert(a.0 =~= b.0);
    }
}

pub open spec fn sorted_entries(s: Seq<(Txid, AuthorizedTransactionV)>) -> bool {
    forall|a: int, b: int|
        0 <= a < b < s.len() ==> txid_lt((#[trigger] s[a]).0, (#[trigger] s[b]).0)
}

/// Removing an entry keeps the pool sorted.
pub proof fn lemma_wf_after_remove(s: Seq<(Txid, AuthorizedTransactionV)>, i: int)
    requires
        0 <= i < s.len(),
        sorted_entries(s),
    ensures
        sorted_entries(s.subrange(0, i) + s.skip(i + 1)),
{
    let t = s.subrange(0, i) + s.skip(i + 1);
    assert(forall|k: int| 0 <= k < t.len() ==> #[trigger] t[k] == (if k < i {
        s[k]
    } else {
        s[k + 1]
    }));
}

} // verus!
