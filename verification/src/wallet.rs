//! The wallet's ledger arithmetic: coin selection and transaction building
//! over a plain list of owned outputs. Key storage, derivation and signing
//! happen outside; the builders take the derived addresses as arguments.

use vstd::prelude::*;
use crate::types::{Address, Content, MainAddress, OutPoint, Output, OutputV, Transaction};
use crate::hashes::sum_output_values;
use crate::state::pairs_view;

verus! {

/// What can go wrong while building a transaction.
#[derive(Clone, Copy, Debug, PartialEq, Eq)]
pub enum Error {
    /// The spendable outputs do not reach the requested value.
    NotEnoughFunds,
    /// A value sum left the 64-bit range.
    ValueOverflow,
}

/// Insert into an ascending-by-value sorted list, after every entry of
/// smaller or equal value.
pub open spec fn insert_by_value(
    sorted: Seq<(OutPoint, OutputV)>,
    x: (OutPoint, OutputV),
) -> Seq<(OutPoint, OutputV)>
    decreases sorted.len(),
{
    if sorted.len() == 0 {
        seq![x]
    } else if sorted[0].1.value() <= x.1.value() {
        seq![sorted[0]] + insert_by_value(sorted.skip(1), x)
    } else {
        seq![x] + sorted
    }
}

/// Insertion sort by value, ascending: the order coins are gathered in.
pub open spec fn sort_by_value(s: Seq<(OutPoint, OutputV)>) -> Seq<(OutPoint, OutputV)>
    decreases s.len(),
{
    if s.len() == 0 {
        s
    } else {
        insert_by_value(sort_by_value(s.drop_last()), s.last())
    }
}

pub proof fn lemma_insert_by_value_at(
    sorted: Seq<(OutPoint, OutputV)>,
    x: (OutPoint, OutputV),
    i: int,
)
    requires
        0 <= i <= sorted.len(),
        forall|k: int| 0 <= k < i ==> (#[trigger] sorted[k]).1.value() <= x.1.value(),
        i < sorted.len() ==> sorted[i].1.value() > x.1.value(),
    ensures
        insert_by_value(sorted, x) == sorted.subrange(0, i) + seq![x] + sorted.skip(i),
    decreases i,
{
    if i == 0 {
        if sorted.len() == 0 {
            assert(seq![x] =~= sorted.subrange(0, 0) + seq![x] + sorted.skip(0));
        } else {
            assert(seq![x] + sorted =~= sorted.subrange(0, 0) + seq![x] + sorted.skip(0));
        }
    } else {
        assert(forall|k: int|
            0 <= k < i - 1 ==> (#[trigger] sorted.skip(1)[k]).1.value() <= x.1.value()) by {
            assert(forall|k: int| 0 <= k < sorted.skip(1).len() ==> sorted.skip(1)[k] == sorted[k
                + 1]);
        }
        lemma_insert_by_value_at(sorted.skip(1), x, i - 1);
        assert(sorted.skip(1).subrange(0, i - 1) =~= sorted.subrange(1, i));
        assert(sorted.skip(1).skip(i - 1) =~= sorted.skip(i));
        assert(seq![sorted[0]] + (sorted.subrange(1, i) + seq![x] + sorted.skip(i))
            =~= sorted.subrange(0, i) + seq![x] + sorted.skip(i));
    }
}

/// Gather coins smallest-first, skipping withdrawals, until the total
/// passes the target; the fold mirrors the selection loop.
pub open spec fn spec_gather(
    sorted: Seq<(OutPoint, OutputV)>,
    target: u64,
) -> (int, Seq<(OutPoint, OutputV)>)
    decreases sorted.len(),
{
    if sorted.len() == 0 {
        (0, Seq::empty())
    } else {
        let (total, picked) = spec_gather(sorted.drop_last(), target);
        if total > target {
            (total, picked)
        } else if sorted.last().1.content.is_withdrawal() {
            (total, picked)
        } else {
            (total + sorted.last().1.value(), picked.push(sorted.last()))
        }
    }
}

/// Where a coin of this value lands in the ascending order.
fn value_insert_position(sorted: &Vec<(OutPoint, Output)>, v: u64) -> (r: usize)
    ensures
        r <= sorted@.len(),
        forall|k: int|
            0 <= k < r ==> (#[trigger] pairs_view(sorted@)[k]).1.value() <= v,
        r < sorted@.len() ==> pairs_view(sorted@)[r as int].1.value() > v,
{
    let mut j: usize = 0;
    while j < sorted.len()
        invariant
            j <= sorted@.len(),
            forall|k: int|
                0 <= k < j ==> (#[trigger] pairs_view(sorted@)[k]).1.value() <= v,
        decreases sorted@.len() - j,
    {
        if crate::types::GetValue::get_value(&sorted[j].1) > v {
            proof {
                assert(pairs_view(sorted@)[j as int].1.value() == sorted@[j as int].1@.value());
            }
            return j;
        }
        proof {
            assert(pairs_view(sorted@)[j as int].1.value() == sorted@[j as int].1@.value());
        }
        j += 1;
    }
    j
}

/// Pick spendable coins for a target value: the owned outputs are walked in
/// ascending value order and gathered until the total passes the target.
#[verifier::loop_isolation(false)]
pub fn select_coins(utxos: &Vec<(OutPoint, Output)>, value: u64) -> (r: Result<
    (u64, Vec<(OutPoint, Output)>),
    Error,
>)
    ensures
        ({
            let gathered = spec_gather(sort_by_value(pairs_view(utxos@)), value);
            match r {
                Ok((total, coins)) => {
                    &&& gathered.0 <= u64::MAX
                    &&& total == gathered.0
                    &&& total >= value
                    &&& pairs_view(coins@) == gathered.1
                },
                Err(Error::ValueOverflow) => gathered.0 > u64::MAX,
                Err(Error::NotEnoughFunds) => gathered.0 <= u64::MAX && gathered.0 < value,
            }
        }),
{
    let ghost uv = pairs_view(utxos@);
    // Order the coins by value, ascending.
    let mut sorted: Vec<(OutPoint, Output)> = Vec::new();
    let mut i: usize = 0;
    proof {
        assert(uv.take(0) =~= Seq::<(OutPoint, OutputV)>::empty());
        assert(pairs_view(sorted@) =~= Seq::<(OutPoint, OutputV)>::empty());
    }
    while i < utxos.len()
        invariant
            i <= utxos@.len(),
            uv == pairs_view(utxos@),
            uv.len() == utxos@.len(),
            pairs_view(sorted@) == sort_by_value(uv.take(i as int)),
        decreases utxos@.len() - i,
    {
        let ghost sv = pairs_view(sorted@);
        let entry = &utxos[i];
        let x = (entry.0, crate::types::clone_output(&entry.1));
        let value_of_x = crate::types::GetValue::get_value(&x.1);
        let j = value_insert_position(&sorted, value_of_x);
        proof {
            lemma_insert_by_value_at(sv, (x.0, x.1@), j as int);
            assert(uv.take(i + 1 as int).drop_last() =~= uv.take(i as int));
            assert(uv.take(i + 1 as int).last() == uv[i as int]);
            assert((x.0, x.1@) == uv[i as int]);
        }
        sorted.insert(j, x);
        proof {
            assert(pairs_view(sorted@) =~= sv.subrange(0, j as int) + seq![uv[i as int]] + sv.skip(
                j as int,
            ));
        }
        i += 1;
    }
    proof {
        assert(uv.take(uv.len() as int) =~= uv);
    }
    let ghost sorted_v = pairs_view(sorted@);

    // Gather smallest-first until the total passes the target.
    let mut total: u64 = 0;
    let mut picked: Vec<(OutPoint, Output)> = Vec::new();
    let mut i: usize = 0;
    proof {
        assert(sorted_v.take(0) =~= Seq::<(OutPoint, OutputV)>::empty());
        assert(pairs_view(picked@) =~= Seq::<(OutPoint, OutputV)>::empty());
    }
    while i < sorted.len() && total <= value
        invariant
            i <= sorted@.len(),
            sorted_v == pairs_view(sorted@),
            sorted_v.len() == sorted@.len(),
            spec_gather(sorted_v.take(i as int), value) == (total as int, pairs_view(picked@)),
        decreases sorted@.len() - i,
    {
        let ghost pv = pairs_view(picked@);
        proof {
            assert(sorted_v.take(i + 1 as int).drop_last() =~= sorted_v.take(i as int));
            assert(sorted_v.take(i + 1 as int).last() == sorted_v[i as int]);
        }
        let entry = &sorted[i];
        if !entry.1.content.is_withdrawal() {
            let v = crate::types::GetValue::get_value(&entry.1);
            total = match total.checked_add(v) {
                Some(x) => x,
                None => {
                    proof {
                        lemma_gather_overflow(sorted_v, value, i + 1 as int);
                    }
                    return Err(Error::ValueOverflow);
                },
            };
            picked.push((entry.0, crate::types::clone_output(&entry.1)));
            proof {
                assert(pairs_view(picked@) =~= pv.push(sorted_v[i as int]));
            }
        }
        i += 1;
    }
    proof {
        if total > value {
            lemma_gather_stops(sorted_v, value, i as int, total as int, pairs_view(picked@));
        } else {
            assert(sorted_v.take(sorted_v.len() as int) =~= sorted_v);
        }
    }
    if total < value {
        return Err(Error::NotEnoughFunds);
    }
    Ok((total, picked))
}

/// Once the running total passes the target, later steps change nothing.
pub proof fn lemma_gather_stops(
    sorted: Seq<(OutPoint, OutputV)>,
    target: u64,
    i: int,
    total: int,
    picked: Seq<(OutPoint, OutputV)>,
)
    requires
        0 <= i <= sorted.len(),
        spec_gather(sorted.take(i), target) == (total, picked),
        total > target,
    ensures
        spec_gather(sorted, target) == (total, picked),
    decreases sorted.len() - i,
{
    if i < sorted.len() {
        assert(sorted.take(i + 1).drop_last() =~= sorted.take(i));
        assert(sorted.take(i + 1).last() == sorted[i]);
        lemma_gather_stops(sorted, target, i + 1, total, picked);
    } else {
        assert(sorted.take(i) =~= sorted);
    }
}

/// A total that already left `u64` stays past it.
pub proof fn lemma_gather_overflow(sorted: Seq<(OutPoint, OutputV)>, target: u64, i: int)
    requires
        0 <= i <= sorted.len(),
        spec_gather(sorted.take(i), target).0 > u64::MAX,
    ensures
        spec_gather(sorted, target).0 > u64::MAX,
    decreases sorted.len() - i,
{
    if i < sorted.len() {
        assert(sorted.take(i + 1).drop_last() =~= sorted.take(i));
        assert(sorted.take(i + 1).last() == sorted[i]);
        lemma_gather_overflow(sorted, target, i + 1);
    } else {
        assert(sorted.take(i) =~= sorted);
    }
}

/// Build a plain transfer: the selected coins in, the paid value and the
/// change back to the given change address.
pub fn create_transaction(
    utxos: &Vec<(OutPoint, Output)>,
    address: Address,
    change_address: Address,
    value: u64,
    fee: u64,
) -> (r: Result<Transaction, Error>)
    requires
        value + fee <= u64::MAX,
    ensures
        ({
            let gathered = spec_gather(sort_by_value(pairs_view(utxos@)), (value + fee) as u64);
            match r {
                Ok(tx) => {
                    &&& gathered.0 <= u64::MAX
                    &&& gathered.0 >= value + fee
                    &&& tx@.outputs.len() == 2
                    &&& tx@.outputs[0] == (OutputV {
                        address,
                        content: crate::types::ContentV::Value(value),
                    })
                    &&& tx@.outputs[1].address == change_address
                    &&& sum_output_values(tx@.outputs) + fee == gathered.0
                    &&& tx@.inputs == crate::state::spent_keys(gathered.1)
                },
                Err(Error::ValueOverflow) => gathered.0 > u64::MAX,
                Err(Error::NotEnoughFunds) => gathered.0 <= u64::MAX && gathered.0 < value + fee,
            }
        }),
{
    let (total, coins) = match select_coins(utxos, value + fee) {
        Ok(x) => x,
        Err(e) => {
            return Err(e);
        },
    };
    let change = total - (value + fee);
    let mut inputs: Vec<OutPoint> = Vec::new();
    let mut i: usize = 0;
    while i < coins.len()
        invariant
            i <= coins@.len(),
            inputs@.len() == i,
            forall|k: int| 0 <= k < i ==> #[trigger] inputs@[k] == coins@[k].0,
        decreases coins@.len() - i,
    {
        inputs.push(coins[i].0);
        i += 1;
    }
    let outputs = vec![
        Output { address, content: Content::Value(value) },
        Output { address: change_address, content: Content::Value(change) },
    ];
    let tx = Transaction { inputs, outputs };
    proof {
        assert(tx@.inputs =~= crate::state::spent_keys(
            spec_gather(sort_by_value(pairs_view(utxos@)), (value + fee) as u64).1,
        ));
        let o0 = OutputV { address, content: crate::types::ContentV::Value(value) };
        let o1 = OutputV {
            address: change_address,
            content: crate::types::ContentV::Value(change),
        };
        assert(tx@.outputs =~= seq![o0, o1]);
        assert(seq![o0] =~= Seq::<OutputV>::empty().push(o0));
        assert(seq![o0, o1] =~= seq![o0].push(o1));
        assert(sum_output_values(Seq::<OutputV>::empty()) == 0);
        crate::hashes::lemma_sum_output_values_push(Seq::<OutputV>::empty(), o0);
        crate::hashes::lemma_sum_output_values_push(seq![o0], o1);
        assert(sum_output_values(seq![o0, o1]) == value + change);
    }
    Ok(tx)
}

/// Build a withdrawal: the swept value and its mainchain fee to the
/// mainchain destination, the change back to the given change address.
pub fn create_withdrawal(
    utxos: &Vec<(OutPoint, Output)>,
    main_address: MainAddress,
    withdrawal_address: Address,
    change_address: Address,
    value: u64,
    main_fee: u64,
    fee: u64,
) -> (r: Result<Transaction, Error>)
    requires
        value + fee + main_fee <= u64::MAX,
    ensures
        ({
            let gathered = spec_gather(
                sort_by_value(pairs_view(utxos@)),
                (value + fee + main_fee) as u64,
            );
            match r {
                Ok(tx) => {
                    &&& gathered.0 <= u64::MAX
                    &&& gathered.0 >= value + fee + main_fee
                    &&& tx@.outputs.len() == 2
                    &&& tx@.outputs[0] == (OutputV {
                        address: withdrawal_address,
                        content: crate::types::ContentV::Withdrawal {
                            value,
                            main_fee,
                            main_address: main_address@,
                        },
                    })
                    &&& tx@.outputs[1].address == change_address
                    &&& sum_output_values(tx@.outputs) + fee + main_fee == gathered.0
                    &&& tx@.inputs == crate::state::spent_keys(gathered.1)
                },
                Err(Error::ValueOverflow) => gathered.0 > u64::MAX,
                Err(Error::NotEnoughFunds) => gathered.0 <= u64::MAX && gathered.0 < value + fee
                    + main_fee,
            }
        }),
{
    let (total, coins) = match select_coins(utxos, value + fee + main_fee) {
        Ok(x) => x,
        Err(e) => {
            return Err(e);
        },
    };
    let change = total - (value + fee + main_fee);
    let mut inputs: Vec<OutPoint> = Vec::new();
    let mut i: usize = 0;
    while i < coins.len()
        invariant
            i <= coins@.len(),
            inputs@.len() == i,
            forall|k: int| 0 <= k < i ==> #[trigger] inputs@[k] == coins@[k].0,
        decreases coins@.len() - i,
    {
        inputs.push(coins[i].0);
        i += 1;
    }
    let outputs = vec![
        Output {
            address: withdrawal_address,
            content: Content::Withdrawal { value, main_fee, main_address },
        },
        Output { address: change_address, content: Content::Value(change) },
    ];
    let tx = Transaction { inputs, outputs };
    proof {
        assert(tx@.inputs =~= crate::state::spent_keys(
            spec_gather(sort_by_value(pairs_view(utxos@)), (value + fee + main_fee) as u64).1,
        ));
        let o0 = OutputV {
            address: withdrawal_address,
            content: crate::types::ContentV::Withdrawal {
                value,
                main_fee,
                main_address: main_address@,
            },
        };
        let o1 = OutputV {
            address: change_address,
            content: crate::types::ContentV::Value(change),
        };
        assert(tx@.outputs =~= seq![o0, o1]);
        assert(seq![o0] =~= Seq::<OutputV>::empty().push(o0));
        assert(seq![o0, o1] =~= seq![o0].push(o1));
        assert(sum_output_values(Seq::<OutputV>::empty()) == 0);
        crate::hashes::lemma_sum_output_values_push(Seq::<OutputV>::empty(), o0);
        crate::hashes::lemma_sum_output_values_push(seq![o0], o1);
        assert(sum_output_values(seq![o0, o1]) == value + change);
    }
    Ok(tx)
}

/// The total value the wallet holds.
pub fn get_balance(utxos: &Vec<(OutPoint, Output)>) -> (r: Option<u64>)
    ensures
        ({
            let values = pairs_view(utxos@).map_values(|p: (OutPoint, OutputV)| p.1);
            match r {
                Some(total) => total == sum_output_values(values),
                None => sum_output_values(values) > u64::MAX,
            }
        }),
{
    let mut outputs: Vec<Output> = Vec::new();
    let mut i: usize = 0;
    while i < utxos.len()
        invariant
            i <= utxos@.len(),
            outputs@.len() == i,
            forall|k: int| 0 <= k < i ==> #[trigger] outputs@[k]@ == utxos@[k].1@,
        decreases utxos@.len() - i,
    {
        outputs.push(crate::types::clone_output(&utxos[i].1));
        i += 1;
    }
    proof {
        assert(outputs@.map_values(|o: Output| o@) =~= pairs_view(utxos@).map_values(
            |p: (OutPoint, OutputV)| p.1,
        ));
    }
    crate::hashes::sum_outputs(&outputs)
}

} // verus!
