//! The set of unspent transaction outputs: a store from transaction ids to
//! their unspent outputs, kept in the byte order of its keys.
use crate::block::{transactions_model, Block};
use crate::address::{address_body_spec, decodable_shape, decode_address_body, has_decodable_shape};
use crate::bytes::str_equal;
use crate::keyorder::{bytes_less, lemma_lt_irreflexive, lemma_lt_total, lemma_lt_transitive, seq_lt};
use crate::transaction::{is_coinbase_spec, TransactionModel};
use crate::tx::{clone_outputs, outputs_model, InputModel, OutputModel, TXOutput, TXOutputs};
use vstd::prelude::*;
use vstd::utf8::{encode_utf8, encode_utf8_decode_utf8};

verus! {

/// One entry of the store: a transaction id and its unspent outputs.
pub type EntryModel = (Seq<char>, Seq<OutputModel>);

/// The bytes under which a key is stored.
pub open spec fn key_bytes(k: Seq<char>) -> Seq<u8> {
    encode_utf8(k)
}

/// Whether the entries' keys are in strictly increasing byte order.
pub open spec fn sorted_keys(entries: Seq<EntryModel>) -> bool {
    forall|i: int, j: int|
        0 <= i < j < entries.len() ==> seq_lt(
            key_bytes(#[trigger] entries[i].0),
            key_bytes(#[trigger] entries[j].0),
        )
}

/// The values of the stored entries.
pub open spec fn entries_model(entries: Seq<(String, TXOutputs)>) -> Seq<EntryModel> {
    entries.map_values(|e: (String, TXOutputs)| (e.0@, e.1@))
}

/// A position of an entry with key `k`, where there is one.
pub open spec fn position_of(entries: Seq<EntryModel>, k: Seq<char>) -> int {
    choose|i: int| 0 <= i < entries.len() && #[trigger] entries[i].0 == k
}

/// The map from transaction ids to unspent outputs that the entries hold.
pub open spec fn store_map(entries: Seq<EntryModel>) -> Map<Seq<char>, Seq<OutputModel>> {
    Map::new(
        |k: Seq<char>| exists|i: int| 0 <= i < entries.len() && #[trigger] entries[i].0 == k,
        |k: Seq<char>| entries[position_of(entries, k)].1,
    )
}

/// Different keys have different bytes.
pub proof fn lemma_key_bytes_injective(a: Seq<char>, b: Seq<char>)
    requires
        key_bytes(a) == key_bytes(b),
    ensures
        a == b,
{
    encode_utf8_decode_utf8(a);
    encode_utf8_decode_utf8(b);
}

/// In sorted entries each entry is what the map holds at its key.
pub proof fn lemma_store_map_at(entries: Seq<EntryModel>, i: int)
    requires
        sorted_keys(entries),
        0 <= i < entries.len(),
    ensures
        store_map(entries).contains_key(entries[i].0),
        store_map(entries)[entries[i].0] == entries[i].1,
{
    let k = entries[i].0;
    assert(exists|j: int| 0 <= j < entries.len() && #[trigger] entries[j].0 == k);
    let j: int = position_of(entries, k);
    assert(entries[j].0 == k);
    if j != i {
        lemma_lt_irreflexive(key_bytes(k));
        if j < i {
            assert(seq_lt(key_bytes(entries[j].0), key_bytes(entries[i].0)));
        } else {
            assert(seq_lt(key_bytes(entries[i].0), key_bytes(entries[j].0)));
        }
        assert(false);
    }
}

/// The outputs of a transaction that remain once its output `vout` is spent.
pub open spec fn spent_outputs(outs: Seq<OutputModel>, vout: i32) -> Seq<OutputModel> {
    if 0 <= vout < outs.len() {
        outs.remove(vout as int)
    } else {
        outs
    }
}

/// The store once the output that `vin` refers to is spent: the entry of
/// its transaction loses that output and goes when none remain.
pub open spec fn spend_input(m: Map<Seq<char>, Seq<OutputModel>>, vin: InputModel) -> Map<
    Seq<char>,
    Seq<OutputModel>,
> {
    let kept = spent_outputs(m[vin.txid], vin.vout);
    if kept.len() == 0 {
        m.remove(vin.txid)
    } else {
        m.insert(vin.txid, kept)
    }
}

/// The store once the inputs are spent in order.
pub open spec fn spend_inputs(m: Map<Seq<char>, Seq<OutputModel>>, vins: Seq<InputModel>) -> Map<
    Seq<char>,
    Seq<OutputModel>,
>
    decreases vins.len(),
{
    if vins.len() == 0 {
        m
    } else {
        spend_input(spend_inputs(m, vins.drop_last()), vins.last())
    }
}

/// Whether each input, in its turn, refers to a transaction still in the store.
pub open spec fn inputs_spendable(m: Map<Seq<char>, Seq<OutputModel>>, vins: Seq<InputModel>) -> bool
    decreases vins.len(),
{
    vins.len() == 0 || (inputs_spendable(m, vins.drop_last()) && spend_inputs(
        m,
        vins.drop_last(),
    ).contains_key(vins.last().txid))
}

/// The store once a transaction is applied: its inputs (unless it is a
/// coinbase) are spent, and its outputs are stored under its id.
pub open spec fn apply_transaction(m: Map<Seq<char>, Seq<OutputModel>>, tx: TransactionModel) -> Map<
    Seq<char>,
    Seq<OutputModel>,
> {
    let after = if is_coinbase_spec(tx) {
        m
    } else {
        spend_inputs(m, tx.vin)
    };
    after.insert(tx.id, tx.vout)
}

/// Whether a transaction can be applied: it is a coinbase or its inputs are spendable.
pub open spec fn transaction_applicable(m: Map<Seq<char>, Seq<OutputModel>>, tx: TransactionModel) -> bool {
    is_coinbase_spec(tx) || inputs_spendable(m, tx.vin)
}

/// The store once the transactions are applied in order.
pub open spec fn apply_transactions(
    m: Map<Seq<char>, Seq<OutputModel>>,
    txs: Seq<TransactionModel>,
) -> Map<Seq<char>, Seq<OutputModel>>
    decreases txs.len(),
{
    if txs.len() == 0 {
        m
    } else {
        apply_transaction(apply_transactions(m, txs.drop_last()), txs.last())
    }
}

/// Whether each transaction, in its turn, can be applied.
pub open spec fn transactions_applicable(
    m: Map<Seq<char>, Seq<OutputModel>>,
    txs: Seq<TransactionModel>,
) -> bool
    decreases txs.len(),
{
    txs.len() == 0 || (transactions_applicable(m, txs.drop_last()) && transaction_applicable(
        apply_transactions(m, txs.drop_last()),
        txs.last(),
    ))
}

/// The outputs of `outs` locked to `pub_key_hash`, in order.
pub open spec fn unlockable_in(outs: Seq<OutputModel>, pub_key_hash: Seq<u8>) -> Seq<OutputModel>
    decreases outs.len(),
{
    if outs.len() == 0 {
        Seq::empty()
    } else {
        unlockable_in(outs.drop_last(), pub_key_hash) + if outs.last().pub_key_hash == pub_key_hash {
            seq![outs.last()]
        } else {
            Seq::empty()
        }
    }
}

/// The outputs of all entries locked to `pub_key_hash`, in store order.
pub open spec fn unlockable_outputs(entries: Seq<EntryModel>, pub_key_hash: Seq<u8>) -> Seq<OutputModel>
    decreases entries.len(),
{
    if entries.len() == 0 {
        Seq::empty()
    } else {
        unlockable_outputs(entries.drop_last(), pub_key_hash) + unlockable_in(
            entries.last().1,
            pub_key_hash,
        )
    }
}

/// Scanning the outputs of one transaction with `acc` gathered so far: an
/// output is taken when it is locked to `address` and less than `amount` has
/// been gathered before it. Gives the new total and the indices taken.
pub open spec fn select_outputs(outs: Seq<OutputModel>, address: Seq<u8>, amount: i32, acc: int) -> (
    int,
    Seq<i32>,
)
    decreases outs.len(),
{
    if outs.len() == 0 {
        (acc, Seq::empty())
    } else {
        let (a, idxs) = select_outputs(outs.drop_last(), address, amount, acc);
        let o = outs.last();
        if o.pub_key_hash == address && a < amount {
            (a + o.value, idxs.push((outs.len() - 1) as i32))
        } else {
            (a, idxs)
        }
    }
}

/// Whether every running total of `select_outputs` fits an `i32`.
pub open spec fn select_in_range(outs: Seq<OutputModel>, address: Seq<u8>, amount: i32, acc: int) -> bool
    decreases outs.len(),
{
    if outs.len() == 0 {
        i32::MIN <= acc <= i32::MAX
    } else {
        let (a, idxs) = select_outputs(outs.drop_last(), address, amount, acc);
        let o = outs.last();
        &&& select_in_range(outs.drop_last(), address, amount, acc)
        &&& (o.pub_key_hash == address && a < amount) ==> i32::MIN <= a + o.value <= i32::MAX
    }
}

/// Scanning all entries in store order: the total gathered, and for each
/// transaction with outputs taken, its id and the indices taken.
pub open spec fn spendable(entries: Seq<EntryModel>, address: Seq<u8>, amount: i32) -> (
    int,
    Seq<(Seq<char>, Seq<i32>)>,
)
    decreases entries.len(),
{
    if entries.len() == 0 {
        (0, Seq::empty())
    } else {
        let (acc, taken) = spendable(entries.drop_last(), address, amount);
        let (acc2, idxs) = select_outputs(entries.last().1, address, amount, acc);
        (acc2, if idxs.len() > 0 {
            taken.push((entries.last().0, idxs))
        } else {
            taken
        })
    }
}

/// Whether every running total of `spendable` fits an `i32`.
pub open spec fn spendable_in_range(entries: Seq<EntryModel>, address: Seq<u8>, amount: i32) -> bool
    decreases entries.len(),
{
    entries.len() == 0 || {
        let (acc, taken) = spendable(entries.drop_last(), address, amount);
        &&& spendable_in_range(entries.drop_last(), address, amount)
        &&& select_in_range(entries.last().1, address, amount, acc)
    }
}

/// A prefix of spendable inputs is spendable.
pub proof fn lemma_inputs_spendable_prefix(m: Map<Seq<char>, Seq<OutputModel>>, vins: Seq<InputModel>, j: int)
    requires
        inputs_spendable(m, vins),
        0 <= j <= vins.len(),
    ensures
        inputs_spendable(m, vins.take(j)),
    decreases vins.len(),
{
    if j < vins.len() {
        assert(vins.drop_last().take(j) =~= vins.take(j));
        lemma_inputs_spendable_prefix(m, vins.drop_last(), j);
    } else {
        assert(vins.take(j) =~= vins);
    }
}

/// A prefix of applicable transactions is applicable.
pub proof fn lemma_transactions_applicable_prefix(
    m: Map<Seq<char>, Seq<OutputModel>>,
    txs: Seq<TransactionModel>,
    j: int,
)
    requires
        transactions_applicable(m, txs),
        0 <= j <= txs.len(),
    ensures
        transactions_applicable(m, txs.take(j)),
    decreases txs.len(),
{
    if j < txs.len() {
        assert(txs.drop_last().take(j) =~= txs.take(j));
        lemma_transactions_applicable_prefix(m, txs.drop_last(), j);
    } else {
        assert(txs.take(j) =~= txs);
    }
}

/// A prefix of a scan that stays in range stays in range.
pub proof fn lemma_select_in_range_prefix(outs: Seq<OutputModel>, address: Seq<u8>, amount: i32, acc: int, j: int)
    requires
        select_in_range(outs, address, amount, acc),
        0 <= j <= outs.len(),
    ensures
        select_in_range(outs.take(j), address, amount, acc),
    decreases outs.len(),
{
    if j < outs.len() {
        assert(outs.drop_last().take(j) =~= outs.take(j));
        lemma_select_in_range_prefix(outs.drop_last(), address, amount, acc, j);
    } else {
        assert(outs.take(j) =~= outs);
    }
}

/// A prefix of a store scan that stays in range stays in range.
pub proof fn lemma_spendable_in_range_prefix(entries: Seq<EntryModel>, address: Seq<u8>, amount: i32, j: int)
    requires
        spendable_in_range(entries, address, amount),
        0 <= j <= entries.len(),
    ensures
        spendable_in_range(entries.take(j), address, amount),
    decreases entries.len(),
{
    if j < entries.len() {
        assert(entries.drop_last().take(j) =~= entries.take(j));
        lemma_spendable_in_range_prefix(entries.drop_last(), address, amount, j);
    } else {
        assert(entries.take(j) =~= entries);
    }
}

/// The map that storing each entry in turn into `m` gives.
pub open spec fn insert_all(m: Map<Seq<char>, Seq<OutputModel>>, entries: Seq<EntryModel>) -> Map<
    Seq<char>,
    Seq<OutputModel>,
>
    decreases entries.len(),
{
    if entries.len() == 0 {
        m
    } else {
        insert_all(m, entries.drop_last()).insert(entries.last().0, entries.last().1)
    }
}

/// The total value of a sequence of outputs.
pub open spec fn total_value(outs: Seq<OutputModel>) -> int
    decreases outs.len(),
{
    if outs.len() == 0 {
        0
    } else {
        total_value(outs.drop_last()) + outs.last().value
    }
}

/// The total of two sequences of outputs placed end to end.
pub proof fn lemma_total_value_concat(a: Seq<OutputModel>, b: Seq<OutputModel>)
    ensures
        total_value(a + b) == total_value(a) + total_value(b),
    decreases b.len(),
{
    if b.len() > 0 {
        assert((a + b).drop_last() =~= a + b.drop_last());
        lemma_total_value_concat(a, b.drop_last());
    } else {
        assert(a + b =~= a);
    }
}

/// Once the running total of a scan reaches `amount`, nothing more is taken
/// and the total stays; while it stays below, every output locked to
/// `address` is taken.
pub proof fn lemma_select_shortfall(outs: Seq<OutputModel>, address: Seq<u8>, amount: i32, acc: int)
    ensures
        acc >= amount ==> select_outputs(outs, address, amount, acc).0 == acc,
        select_outputs(outs, address, amount, acc).0 < amount ==> select_outputs(
            outs,
            address,
            amount,
            acc,
        ).0 == acc + total_value(unlockable_in(outs, address)),
    decreases outs.len(),
{
    if outs.len() > 0 {
        lemma_select_shortfall(outs.drop_last(), address, amount, acc);
        let o = outs.last();
        let single = if o.pub_key_hash == address { seq![o] } else { Seq::<OutputModel>::empty() };
        lemma_total_value_concat(unlockable_in(outs.drop_last(), address), single);
        reveal_with_fuel(total_value, 2);
    }
}

/// Where the outputs gathered for a payment fall short of the amount, the
/// total gathered is the whole balance of the address: the total value of
/// the outputs that `find_UTXO` finds for it.
pub proof fn lemma_shortfall_is_balance(entries: Seq<EntryModel>, address: Seq<u8>, amount: i32)
    ensures
        spendable(entries, address, amount).0 < amount ==> spendable(entries, address, amount).0
            == total_value(unlockable_outputs(entries, address)),
        spendable(entries, address, amount).0 >= amount || spendable(entries, address, amount).0
            == total_value(unlockable_outputs(entries, address)),
    decreases entries.len(),
{
    if entries.len() > 0 {
        lemma_shortfall_is_balance(entries.drop_last(), address, amount);
        let (acc, taken) = spendable(entries.drop_last(), address, amount);
        lemma_select_shortfall(entries.last().1, address, amount, acc);
        lemma_total_value_concat(
            unlockable_outputs(entries.drop_last(), address),
            unlockable_in(entries.last().1, address),
        );
    }
}

/// Every output found for a key hash is locked to that key hash.
pub proof fn lemma_unlockable_outputs_locked(entries: Seq<EntryModel>, pub_key_hash: Seq<u8>, i: int)
    requires
        0 <= i < unlockable_outputs(entries, pub_key_hash).len(),
    ensures
        unlockable_outputs(entries, pub_key_hash)[i].pub_key_hash == pub_key_hash,
    decreases entries.len(),
{
    if entries.len() > 0 {
        let front = unlockable_outputs(entries.drop_last(), pub_key_hash);
        if i < front.len() {
            lemma_unlockable_outputs_locked(entries.drop_last(), pub_key_hash, i);
        } else {
            lemma_unlockable_in_locked(entries.last().1, pub_key_hash, i - front.len());
        }
    }
}

/// Every output of one transaction found for a key hash is locked to it.
pub proof fn lemma_unlockable_in_locked(outs: Seq<OutputModel>, pub_key_hash: Seq<u8>, i: int)
    requires
        0 <= i < unlockable_in(outs, pub_key_hash).len(),
    ensures
        unlockable_in(outs, pub_key_hash)[i].pub_key_hash == pub_key_hash,
    decreases outs.len(),
{
    if outs.len() > 0 {
        let front = unlockable_in(outs.drop_last(), pub_key_hash);
        if i < front.len() {
            lemma_unlockable_in_locked(outs.drop_last(), pub_key_hash, i);
        }
    }
}

/// After a block is applied, its last transaction's outputs are stored under
/// its id.
pub proof fn lemma_update_records_last(m: Map<Seq<char>, Seq<OutputModel>>, txs: Seq<TransactionModel>)
    requires
        txs.len() > 0,
    ensures
        apply_transactions(m, txs).contains_key(txs.last().id),
        apply_transactions(m, txs)[txs.last().id] == txs.last().vout,
{
}

/// Every index that a scan of one transaction's outputs takes is the index
/// of an output locked to `address`.
pub proof fn lemma_select_picks_locked(outs: Seq<OutputModel>, address: Seq<u8>, amount: i32, acc: int, k: int)
    requires
        outs.len() <= i32::MAX,
        0 <= k < select_outputs(outs, address, amount, acc).1.len(),
    ensures
        0 <= select_outputs(outs, address, amount, acc).1[k] < outs.len(),
        outs[select_outputs(outs, address, amount, acc).1[k] as int].pub_key_hash == address,
    decreases outs.len(),
{
    if outs.len() > 0 {
        let front = select_outputs(outs.drop_last(), address, amount, acc).1;
        if k < front.len() {
            lemma_select_picks_locked(outs.drop_last(), address, amount, acc, k);
            assert(outs.drop_last()[front[k] as int] == outs[front[k] as int]);
        }
    }
}

/// Every output that `find_spendable_outputs` takes exists in the store and
/// is locked to the paying address: its transaction id is the key of an
/// entry, and its index is that of an output locked to the address.
pub proof fn lemma_spendable_picks_locked(entries: Seq<EntryModel>, address: Seq<u8>, amount: i32, k: int, t: int)
    requires
        forall|i: int| 0 <= i < entries.len() ==> (#[trigger] entries[i]).1.len() <= i32::MAX,
        0 <= k < spendable(entries, address, amount).1.len(),
        0 <= t < spendable(entries, address, amount).1[k].1.len(),
    ensures
        exists|i: int|
            0 <= i < entries.len() && #[trigger] entries[i].0 == spendable(entries, address, amount).1[k].0 && {
                let idx = spendable(entries, address, amount).1[k].1[t];
                &&& 0 <= idx < entries[i].1.len()
                &&& entries[i].1[idx as int].pub_key_hash == address
            },
    decreases entries.len(),
{
    if entries.len() > 0 {
        let (acc, taken) = spendable(entries.drop_last(), address, amount);
        let last = entries.len() - 1;
        if k < taken.len() {
            lemma_spendable_picks_locked(entries.drop_last(), address, amount, k, t);
            let i = choose|i: int|
                0 <= i < entries.drop_last().len() && #[trigger] entries.drop_last()[i].0 == taken[k].0 && {
                    let idx = taken[k].1[t];
                    &&& 0 <= idx < entries.drop_last()[i].1.len()
                    &&& entries.drop_last()[i].1[idx as int].pub_key_hash == address
                };
            assert(entries[i] == entries.drop_last()[i]);
        } else {
            assert(entries[last] == entries.last());
            lemma_select_picks_locked(entries.last().1, address, amount, acc, t);
        }
    }
}

/// Whether every running total of the outputs' values fits an `i32`.
pub open spec fn totals_in_range(outs: Seq<OutputModel>) -> bool
    decreases outs.len(),
{
    outs.len() == 0 || (totals_in_range(outs.drop_last()) && i32::MIN <= total_value(outs)
        <= i32::MAX)
}

/// Whether every output locked to `address` has a value of at least zero.
pub open spec fn locked_values_nonnegative(outs: Seq<OutputModel>, address: Seq<u8>) -> bool {
    forall|k: int| 0 <= k < outs.len() && #[trigger] outs[k].pub_key_hash == address ==> outs[k].value >= 0
}

/// A prefix of outputs whose running totals fit an `i32` has running totals that fit.
pub proof fn lemma_totals_in_range_prefix(outs: Seq<OutputModel>, j: int)
    requires
        totals_in_range(outs),
        0 <= j <= outs.len(),
    ensures
        totals_in_range(outs.take(j)),
    decreases outs.len(),
{
    if j < outs.len() {
        assert(outs.drop_last().take(j) =~= outs.take(j));
        lemma_totals_in_range_prefix(outs.drop_last(), j);
    } else {
        assert(outs.take(j) =~= outs);
    }
}

/// Whether the running totals of the outputs' values fit an `i32`.
pub fn totals_fit(outs: &Vec<TXOutput>) -> (r: bool)
    ensures
        r == totals_in_range(outputs_model(outs@)),
{
    let ghost model = outputs_model(outs@);
    let n: usize = outs.len();
    let mut sum: i64 = 0;
    let mut j: usize = 0;
    assert(model.take(0) =~= Seq::<OutputModel>::empty());
    while j < n
        invariant
            n == outs@.len(),
            model == outputs_model(outs@),
            j <= n,
            sum == total_value(model.take(j as int)),
            totals_in_range(model.take(j as int)),
            i32::MIN <= sum <= i32::MAX,
        decreases n - j,
    {
        assert(model.take(j + 1).drop_last() =~= model.take(j as int));
        assert(model.take(j + 1).last() == outs@[j as int]@);
        let next: i64 = sum + outs[j].value as i64;
        if next < i32::MIN as i64 || next > i32::MAX as i64 {
            proof {
                if totals_in_range(model) {
                    lemma_totals_in_range_prefix(model, j + 1);
                }
            }
            return false;
        }
        sum = next;
        j = j + 1;
    }
    assert(model.take(n as int) =~= model);
    true
}

/// With values of at least zero and a total below `amount`, scanning one
/// transaction's outputs from `acc` stays in range and takes every output
/// locked to `address`.
pub proof fn lemma_select_takes_all(outs: Seq<OutputModel>, address: Seq<u8>, amount: i32, acc: int)
    requires
        locked_values_nonnegative(outs, address),
        0 <= acc,
        acc + total_value(unlockable_in(outs, address)) < amount,
    ensures
        total_value(unlockable_in(outs, address)) >= 0,
        select_in_range(outs, address, amount, acc),
        select_outputs(outs, address, amount, acc).0 == acc + total_value(unlockable_in(outs, address)),
        select_outputs(outs, address, amount, acc).1.len() == unlockable_in(outs, address).len(),
    decreases outs.len(),
{
    if outs.len() > 0 {
        let front = outs.drop_last();
        let o = outs.last();
        let single = if o.pub_key_hash == address { seq![o] } else { Seq::<OutputModel>::empty() };
        lemma_total_value_concat(unlockable_in(front, address), single);
        reveal_with_fuel(total_value, 2);
        assert forall|k: int| 0 <= k < front.len() && #[trigger] front[k].pub_key_hash == address implies front[k].value >= 0 by {
            assert(front[k] == outs[k]);
        }
        if o.pub_key_hash == address {
            assert(outs[outs.len() - 1] == o);
        }
        lemma_select_takes_all(front, address, amount, acc);
    }
}

/// The outputs locked to `address` total at least zero where each has a
/// value of at least zero.
pub proof fn lemma_unlockable_in_total_nonnegative(outs: Seq<OutputModel>, address: Seq<u8>)
    requires
        locked_values_nonnegative(outs, address),
    ensures
        total_value(unlockable_in(outs, address)) >= 0,
    decreases outs.len(),
{
    if outs.len() > 0 {
        let front = outs.drop_last();
        let o = outs.last();
        let single = if o.pub_key_hash == address { seq![o] } else { Seq::<OutputModel>::empty() };
        lemma_total_value_concat(unlockable_in(front, address), single);
        reveal_with_fuel(total_value, 2);
        assert forall|k: int| 0 <= k < front.len() && #[trigger] front[k].pub_key_hash == address implies front[k].value >= 0 by {
            assert(front[k] == outs[k]);
        }
        if o.pub_key_hash == address {
            assert(outs[outs.len() - 1] == o);
        }
        lemma_unlockable_in_total_nonnegative(front, address);
    }
}

/// The number of outputs a selection names.
pub open spec fn selected_count(sel: Seq<(Seq<char>, Seq<i32>)>) -> nat
    decreases sel.len(),
{
    if sel.len() == 0 {
        0
    } else {
        selected_count(sel.drop_last()) + sel.last().1.len()
    }
}

/// Where every output locked to `address` has a value of at least zero and
/// their total (the balance) is below `amount`, `find_spendable_outputs` is
/// admitted on the store, gathers exactly the balance, and takes every
/// output locked to `address`.
pub proof fn lemma_spendable_takes_all(entries: Seq<EntryModel>, address: Seq<u8>, amount: i32)
    requires
        forall|i: int| 0 <= i < entries.len() ==> locked_values_nonnegative(#[trigger] entries[i].1, address),
        total_value(unlockable_outputs(entries, address)) < amount,
    ensures
        total_value(unlockable_outputs(entries, address)) >= 0,
        spendable_in_range(entries, address, amount),
        spendable(entries, address, amount).0 == total_value(unlockable_outputs(entries, address)),
        selected_count(spendable(entries, address, amount).1) == unlockable_outputs(entries, address).len(),
    decreases entries.len(),
{
    if entries.len() > 0 {
        let front = entries.drop_last();
        let last = entries.last();
        assert(last == entries[entries.len() - 1]);
        assert forall|i: int| 0 <= i < front.len() implies locked_values_nonnegative(#[trigger] front[i].1, address) by {
            assert(front[i] == entries[i]);
        }
        lemma_total_value_concat(unlockable_outputs(front, address), unlockable_in(last.1, address));
        lemma_unlockable_in_total_nonnegative(last.1, address);
        lemma_spendable_takes_all(front, address, amount);
        let (acc, taken) = spendable(front, address, amount);
        lemma_select_takes_all(last.1, address, amount, acc);
        let (acc2, idxs) = select_outputs(last.1, address, amount, acc);
        if idxs.len() > 0 {
            assert(taken.push((last.0, idxs)).drop_last() =~= taken);
        }
    }
}

/// Placing `y` after `x` and keeping `x.len() + j` elements keeps all of `x`
/// and the first `j` of `y`.
pub proof fn lemma_take_concat(x: Seq<OutputModel>, y: Seq<OutputModel>, j: int)
    requires
        0 <= j <= y.len(),
    ensures
        (x + y).take(x.len() + j) == x + y.take(j),
{
    assert((x + y).take(x.len() + j) =~= x + y.take(j));
}

/// Scanning one transaction's outputs from a total `acc`: where `acc` has
/// reached `amount` nothing is taken; otherwise the outputs taken are the
/// first ones locked to `address`, each taken while the total gathered
/// before it is below `amount`, and the scan stops taking only once the
/// total has reached `amount`.
pub proof fn lemma_select_prefix(outs: Seq<OutputModel>, address: Seq<u8>, amount: i32, acc: int)
    ensures
        acc >= amount ==> select_outputs(outs, address, amount, acc).0 == acc && select_outputs(
            outs,
            address,
            amount,
            acc,
        ).1.len() == 0,
        acc < amount ==> {
            let a = select_outputs(outs, address, amount, acc).0;
            let n = select_outputs(outs, address, amount, acc).1.len();
            let u = unlockable_in(outs, address);
            &&& n <= u.len()
            &&& a == acc + total_value(u.take(n as int))
            &&& forall|k: int| 0 <= k < n ==> acc + total_value(#[trigger] u.take(k)) < amount
            &&& n < u.len() ==> a >= amount
        },
    decreases outs.len(),
{
    if outs.len() > 0 {
        let f = outs.drop_last();
        let o = outs.last();
        lemma_select_prefix(f, address, amount, acc);
        let uf = unlockable_in(f, address);
        let u = unlockable_in(outs, address);
        let single = if o.pub_key_hash == address { seq![o] } else { Seq::<OutputModel>::empty() };
        assert(u == uf + single);
        if acc < amount {
            let a1 = select_outputs(f, address, amount, acc).0;
            let n1 = select_outputs(f, address, amount, acc).1.len();
            assert(forall|k: int| 0 <= k <= n1 ==> #[trigger] u.take(k) == uf.take(k)) by {
                assert forall|k: int| 0 <= k <= n1 implies #[trigger] u.take(k) == uf.take(k) by {
                    assert(u.take(k) =~= uf.take(k));
                }
            }
            if n1 == uf.len() && o.pub_key_hash == address && a1 < amount {
                assert(u.take(n1 as int + 1) =~= u);
                assert(u.drop_last() =~= uf);
                assert(uf.take(n1 as int) =~= uf);
            }
        }
    }
}

/// What `find_spendable_outputs` gathers, stated over the outputs locked to
/// the address in store order (the outputs `find_UTXO` finds): it takes a
/// prefix of them, its total is the total of that prefix, every output it
/// takes is taken while the total gathered before it is below `amount`, and
/// it stops short of the whole list only once the total has reached `amount`.
pub proof fn lemma_spendable_stops_at_amount(entries: Seq<EntryModel>, address: Seq<u8>, amount: i32)
    ensures
        ({
            let acc = spendable(entries, address, amount).0;
            let n = selected_count(spendable(entries, address, amount).1);
            let l = unlockable_outputs(entries, address);
            &&& n <= l.len()
            &&& acc == total_value(l.take(n as int))
            &&& forall|k: int| 0 <= k < n ==> total_value(#[trigger] l.take(k)) < amount
            &&& n < l.len() ==> acc >= amount
        }),
    decreases entries.len(),
{
    let l = unlockable_outputs(entries, address);
    if entries.len() == 0 {
        assert(l.take(0) =~= Seq::<OutputModel>::empty());
    } else {
        let front = entries.drop_last();
        let last = entries.last();
        lemma_spendable_stops_at_amount(front, address, amount);
        let (acc1, taken) = spendable(front, address, amount);
        let n1 = selected_count(taken);
        let l1 = unlockable_outputs(front, address);
        let u = unlockable_in(last.1, address);
        assert(l == l1 + u);
        lemma_select_prefix(last.1, address, amount, acc1);
        let (acc2, idxs) = select_outputs(last.1, address, amount, acc1);
        let sel = spendable(entries, address, amount).1;
        if idxs.len() > 0 {
            assert(sel.drop_last() =~= taken);
        }
        assert(selected_count(sel) == n1 + idxs.len());
        assert forall|k: int| 0 <= k <= n1 implies #[trigger] l.take(k) == l1.take(k) by {
            assert(l.take(k) =~= l1.take(k));
        }
        if n1 == l1.len() {
            assert(l1.take(n1 as int) =~= l1);
            if acc1 < amount {
                lemma_take_concat(l1, u, idxs.len() as int);
                lemma_total_value_concat(l1, u.take(idxs.len() as int));
                assert forall|k: int| 0 <= k < n1 + idxs.len() implies total_value(#[trigger] l.take(k)) < amount by {
                    if k >= n1 {
                        let j = k - n1;
                        lemma_take_concat(l1, u, j);
                        lemma_total_value_concat(l1, u.take(j));
                        assert(acc1 + total_value(u.take(j)) < amount);
                    }
                }
            }
        }
    }
}

/// Spending an input changes only the entry of the transaction it refers to.
/// Where `vout` is an index of that entry's outputs, exactly that output goes:
/// the others stay, in order, so one fewer remain, and the entry goes once
/// none remain. Where `vout` is no index of them, all of them stay.
pub proof fn lemma_spend_input_removes_one(m: Map<Seq<char>, Seq<OutputModel>>, vin: InputModel)
    requires
        m.contains_key(vin.txid),
    ensures
        ({
            let outs = m[vin.txid];
            let r = spend_input(m, vin);
            &&& forall|k: Seq<char>|
                k != vin.txid ==> (#[trigger] r.contains_key(k) == m.contains_key(k) && (m.contains_key(k)
                    ==> r[k] == m[k]))
            &&& 0 <= vin.vout < outs.len() && outs.len() == 1 ==> !r.contains_key(vin.txid)
            &&& 0 <= vin.vout < outs.len() && outs.len() > 1 ==> {
                &&& r.contains_key(vin.txid)
                &&& r[vin.txid].len() == outs.len() - 1
                &&& forall|i: int| 0 <= i < vin.vout ==> #[trigger] r[vin.txid][i] == outs[i]
                &&& forall|i: int| vin.vout <= i < outs.len() - 1 ==> #[trigger] r[vin.txid][i] == outs[i + 1]
            }
            &&& !(0 <= vin.vout < outs.len()) && outs.len() > 0 ==> r == m
            &&& outs.len() == 0 ==> !r.contains_key(vin.txid)
        }),
{
    let outs = m[vin.txid];
    if !(0 <= vin.vout < outs.len()) && outs.len() > 0 {
        assert(m.insert(vin.txid, outs) =~= m);
    }
}

/// The unspent outputs, by transaction id, in the byte order of the ids.
pub struct UTXOSet {
    utxos: Vec<(String, TXOutputs)>,
}

impl View for UTXOSet {
    type V = Seq<EntryModel>;

    closed spec fn view(&self) -> Seq<EntryModel> {
        entries_model(self.utxos@)
    }
}

/// The values of a list of `(id, indices)` pairs.
pub open spec fn selection_model(s: Seq<(String, Vec<i32>)>) -> Seq<(Seq<char>, Seq<i32>)> {
    s.map_values(|p: (String, Vec<i32>)| (p.0@, p.1@))
}

impl UTXOSet {
    /// The ids are stored in strictly increasing byte order.
    #[verifier::type_invariant]
    spec fn well_formed(self) -> bool {
        sorted_keys(entries_model(self.utxos@))
    }

    /// An empty store.
    pub fn new() -> (r: UTXOSet)
        ensures
            r@ == Seq::<EntryModel>::empty(),
            sorted_keys(r@),
    {
        let r = UTXOSet { utxos: Vec::new() };
        assert(r@ =~= Seq::<EntryModel>::empty());
        r
    }

    /// The entries in store order.
    pub fn get_entries(&self) -> (r: &Vec<(String, TXOutputs)>)
        ensures
            entries_model(r@) == self@,
            sorted_keys(self@),
    {
        proof {
            use_type_invariant(self);
        }
        &self.utxos
    }

    /// Where `key` is or would go: every entry before `pos` has a smaller
    /// key, and `found` tells whether the entry at `pos` has `key` itself.
    fn locate(&self, key: &str) -> (r: (bool, usize))
        ensures
            r.1 <= self@.len(),
            forall|k: int| 0 <= k < r.1 ==> seq_lt(key_bytes(#[trigger] self@[k].0), key_bytes(key@)),
            r.0 ==> r.1 < self@.len() && self@[r.1 as int].0 == key@,
            !r.0 ==> r.1 == self@.len() || seq_lt(key_bytes(key@), key_bytes(self@[r.1 as int].0)),
    {
        proof {
            use_type_invariant(self);
        }
        let n: usize = self.utxos.len();
        let mut i: usize = 0;
        while i < n
            invariant
                n == self.utxos@.len(),
                i <= n,
                forall|k: int| 0 <= k < i ==> seq_lt(key_bytes(#[trigger] self@[k].0), key_bytes(key@)),
            decreases n - i,
        {
            let here = self.utxos[i].0.as_str();
            assert(here@ == self@[i as int].0);
            if !bytes_less(here.as_bytes(), key.as_bytes()) {
                if str_equal(here, key) {
                    return (true, i);
                }
                proof {
                    if key_bytes(key@) == key_bytes(here@) {
                        lemma_key_bytes_injective(key@, here@);
                    }
                    lemma_lt_total(key_bytes(key@), key_bytes(here@));
                }
                return (false, i);
            }
            i = i + 1;
        }
        (false, n)
    }

    /// The outputs stored under `key`, if any.
    pub fn get(&self, key: &str) -> (r: Option<&TXOutputs>)
        ensures
            r is Some <==> store_map(self@).contains_key(key@),
            r is Some ==> r->Some_0@ == store_map(self@)[key@],
    {
        proof {
            use_type_invariant(self);
        }
        let (found, pos) = self.locate(key);
        if found {
            proof {
                lemma_store_map_at(self@, pos as int);
            }
            Some(&self.utxos[pos].1)
        } else {
            proof {
                if store_map(self@).contains_key(key@) {
                    let j: int = choose|j: int| 0 <= j < self@.len() && #[trigger] self@[j].0 == key@;
                    lemma_lt_irreflexive(key_bytes(key@));
                    if j >= pos {
                        if j > pos {
                            lemma_lt_transitive(key_bytes(key@), key_bytes(self@[pos as int].0), key_bytes(self@[j].0));
                        }
                    }
                }
            }
            None
        }
    }

    /// Stores `outs` under `key`, replacing what was stored there.
    pub fn put(&mut self, key: String, outs: TXOutputs)
        ensures
            store_map(final(self)@) == store_map(old(self)@).insert(key@, outs@),
            sorted_keys(final(self)@),
    {
        proof {
            use_type_invariant(&*self);
        }
        let ghost old_entries = self@;
        let ghost k = key@;
        let ghost v = outs@;
        let (found, pos) = self.locate(key.as_str());
        let mut entries = Vec::new();
        std::mem::swap(&mut entries, &mut self.utxos);
        assert(entries_model(entries@) == old_entries);
        if found {
            entries.set(pos, (key, outs));
        } else {
            entries.insert(pos, (key, outs));
        }
        let ghost new_entries = entries_model(entries@);
        proof {
            let p: int = pos as int;
            if found {
                assert(new_entries =~= old_entries.update(p, (k, v)));
                assert(sorted_keys(new_entries));
            } else {
                assert(new_entries =~= old_entries.insert(p, (k, v)));
                assert forall|i: int, j: int| 0 <= i < j < new_entries.len() implies seq_lt(
                    key_bytes(#[trigger] new_entries[i].0),
                    key_bytes(#[trigger] new_entries[j].0),
                ) by {
                    if j == p {
                        assert(new_entries[i] == old_entries[i]);
                    } else if i == p {
                        assert(new_entries[j] == old_entries[j - 1]);
                        if j - 1 > p {
                            lemma_lt_transitive(key_bytes(k), key_bytes(old_entries[p].0), key_bytes(old_entries[j - 1].0));
                        }
                    } else if i < p && j < p {
                    } else if i < p {
                        assert(new_entries[j] == old_entries[j - 1]);
                    } else {
                        assert(new_entries[i] == old_entries[i - 1]);
                        assert(new_entries[j] == old_entries[j - 1]);
                    }
                }
            }
            assert forall|key2: Seq<char>|
                store_map(new_entries).contains_key(key2) <==> (key2 == k || store_map(old_entries).contains_key(key2)) by {
                if key2 == k {
                    lemma_store_map_at(new_entries, p);
                }
                if store_map(old_entries).contains_key(key2) {
                    let j: int = choose|j: int| 0 <= j < old_entries.len() && #[trigger] old_entries[j].0 == key2;
                    if found {
                        lemma_store_map_at(new_entries, j);
                    } else if j < p {
                        lemma_store_map_at(new_entries, j);
                    } else {
                        assert(new_entries[j + 1] == old_entries[j]);
                        lemma_store_map_at(new_entries, j + 1);
                    }
                }
                if store_map(new_entries).contains_key(key2) && key2 != k {
                    let j: int = choose|j: int| 0 <= j < new_entries.len() && #[trigger] new_entries[j].0 == key2;
                    if found {
                        assert(old_entries[j].0 == key2);
                    } else if j < p {
                        assert(old_entries[j].0 == key2);
                    } else {
                        assert(old_entries[j - 1].0 == key2);
                    }
                }
            }
            assert forall|key2: Seq<char>| #[trigger] store_map(new_entries).contains_key(key2) implies store_map(
                new_entries,
            )[key2] == store_map(old_entries).insert(k, v)[key2] by {
                let j: int = choose|j: int| 0 <= j < new_entries.len() && #[trigger] new_entries[j].0 == key2;
                lemma_store_map_at(new_entries, j);
                if j != p {
                    assert(new_entries[p].0 == k);
                    if key2 == k {
                        lemma_lt_irreflexive(key_bytes(k));
                        if j < p {
                            assert(seq_lt(key_bytes(new_entries[j].0), key_bytes(new_entries[p].0)));
                        } else {
                            assert(seq_lt(key_bytes(new_entries[p].0), key_bytes(new_entries[j].0)));
                        }
                    }
                    if found || j < p {
                        assert(new_entries[j] == old_entries[j]);
                        lemma_store_map_at(old_entries, j);
                    } else {
                        assert(new_entries[j] == old_entries[j - 1]);
                        lemma_store_map_at(old_entries, j - 1);
                    }
                }
            }
            assert(store_map(new_entries) =~= store_map(old_entries).insert(k, v));
        }
        self.utxos = entries;
        proof {
            use_type_invariant(&*self);
        }
    }

    /// Removes what is stored under `key`.
    pub fn remove_key(&mut self, key: &str)
        ensures
            store_map(final(self)@) == store_map(old(self)@).remove(key@),
            sorted_keys(final(self)@),
    {
        proof {
            use_type_invariant(&*self);
        }
        let ghost old_entries = self@;
        let ghost k = key@;
        let (found, pos) = self.locate(key);
        if !found {
            proof {
                assert forall|key2: Seq<char>|
                    store_map(old_entries).contains_key(key2) implies key2 != k by {
                    let j: int = choose|j: int| 0 <= j < old_entries.len() && #[trigger] old_entries[j].0 == key2;
                    if key2 == k {
                        lemma_lt_irreflexive(key_bytes(k));
                        if j > pos {
                            lemma_lt_transitive(key_bytes(k), key_bytes(old_entries[pos as int].0), key_bytes(old_entries[j].0));
                        }
                    }
                }
                assert(store_map(old_entries) =~= store_map(old_entries).remove(k));
            }
            proof {
                use_type_invariant(&*self);
            }
            return;
        }
        let mut entries = Vec::new();
        std::mem::swap(&mut entries, &mut self.utxos);
        assert(entries_model(entries@) == old_entries);
        let _removed = entries.remove(pos);
        let ghost new_entries = entries_model(entries@);
        proof {
            let p: int = pos as int;
            assert(new_entries =~= old_entries.remove(p));
            assert forall|i: int, j: int| 0 <= i < j < new_entries.len() implies seq_lt(
                key_bytes(#[trigger] new_entries[i].0),
                key_bytes(#[trigger] new_entries[j].0),
            ) by {
                let oi: int = if i < p { i } else { i + 1 };
                let oj: int = if j < p { j } else { j + 1 };
                assert(new_entries[i] == old_entries[oi]);
                assert(new_entries[j] == old_entries[oj]);
            }
            assert forall|key2: Seq<char>|
                store_map(new_entries).contains_key(key2) <==> (key2 != k && store_map(old_entries).contains_key(key2)) by {
                if store_map(old_entries).contains_key(key2) && key2 != k {
                    let j: int = choose|j: int| 0 <= j < old_entries.len() && #[trigger] old_entries[j].0 == key2;
                    if j < p {
                        lemma_store_map_at(new_entries, j);
                    } else {
                        assert(j != p);
                        assert(new_entries[j - 1] == old_entries[j]);
                        lemma_store_map_at(new_entries, j - 1);
                    }
                }
                if store_map(new_entries).contains_key(key2) {
                    let j: int = choose|j: int| 0 <= j < new_entries.len() && #[trigger] new_entries[j].0 == key2;
                    let oj: int = if j < p { j } else { j + 1 };
                    assert(old_entries[oj].0 == key2);
                    lemma_store_map_at(old_entries, oj);
                    lemma_store_map_at(old_entries, p);
                    if key2 == k {
                        lemma_lt_irreflexive(key_bytes(k));
                        assert(oj != p);
                    }
                }
            }
            assert forall|key2: Seq<char>| #[trigger] store_map(new_entries).contains_key(key2) implies store_map(
                new_entries,
            )[key2] == store_map(old_entries)[key2] by {
                let j: int = choose|j: int| 0 <= j < new_entries.len() && #[trigger] new_entries[j].0 == key2;
                let oj: int = if j < p { j } else { j + 1 };
                lemma_store_map_at(new_entries, j);
                lemma_store_map_at(old_entries, oj);
            }
            assert(store_map(new_entries) =~= store_map(old_entries).remove(k));
        }
        self.utxos = entries;
        proof {
            use_type_invariant(&*self);
        }
    }
    /// A store holding the given unspent outputs by transaction id (a later
    /// entry for the same id replaces an earlier one).
    pub fn from_utxos(utxos: Vec<(String, TXOutputs)>) -> (r: UTXOSet)
        ensures
            store_map(r@) == insert_all(Map::empty(), entries_model(utxos@)),
            sorted_keys(r@),
    {
        let mut set = UTXOSet::new();
        let ghost all = entries_model(utxos@);
        assert(store_map(set@) =~= Map::<Seq<char>, Seq<OutputModel>>::empty());
        assert(all.take(0) =~= Seq::<EntryModel>::empty());
        let n: usize = utxos.len();
        let mut i: usize = 0;
        while i < n
            invariant
                n == utxos@.len(),
                all == entries_model(utxos@),
                i <= n,
                store_map(set@) == insert_all(Map::empty(), all.take(i as int)),
            decreases n - i,
        {
            let entry = &utxos[i];
            assert(all.take(i + 1).drop_last() =~= all.take(i as int));
            assert(all.take(i + 1).last() == (entry.0@, entry.1@));
            set.put(entry.0.clone(), entry.1.clone());
            i = i + 1;
        }
        assert(all.take(n as int) =~= all);
        proof {
            use_type_invariant(&set);
        }
        set
    }

    /// The number of transactions with unspent outputs.
    pub fn count_transactions(&self) -> (r: i32)
        requires
            self@.len() <= i32::MAX,
        ensures
            r == self@.len(),
    {
        let n: usize = self.utxos.len();
        let mut counter: i32 = 0;
        let mut i: usize = 0;
        while i < n
            invariant
                n == self@.len(),
                n <= i32::MAX,
                i <= n,
                counter == i,
            decreases n - i,
        {
            counter = counter + 1;
            i = i + 1;
        }
        counter
    }

    /// All unspent outputs locked to `pub_key_hash`, in store order.
    pub fn find_UTXO(&self, pub_key_hash: &[u8]) -> (r: TXOutputs)
        ensures
            r@ == unlockable_outputs(self@, pub_key_hash@),
    {
        let mut utxos = TXOutputs { outputs: Vec::new() };
        let n: usize = self.utxos.len();
        let mut i: usize = 0;
        assert(self@.take(0) =~= Seq::<EntryModel>::empty());
        assert(utxos@ =~= Seq::<OutputModel>::empty());
        while i < n
            invariant
                n == self@.len(),
                i <= n,
                utxos@ == unlockable_outputs(self@.take(i as int), pub_key_hash@),
            decreases n - i,
        {
            let outs = &self.utxos[i].1;
            let ghost before = utxos@;
            let ghost outs_model = outs@;
            assert(outs_model == self@[i as int].1);
            let m: usize = outs.outputs.len();
            let mut j: usize = 0;
            assert(outs_model.take(0) =~= Seq::<OutputModel>::empty());
            assert(before + unlockable_in(outs_model.take(0), pub_key_hash@) =~= before);
            while j < m
                invariant
                    m == outs.outputs@.len(),
                    outs_model == outputs_model(outs.outputs@),
                    j <= m,
                    utxos@ == before + unlockable_in(outs_model.take(j as int), pub_key_hash@),
                decreases m - j,
            {
                let out = &outs.outputs[j];
                assert(outs_model.take(j + 1).drop_last() =~= outs_model.take(j as int));
                assert(outs_model.take(j + 1).last() == out@);
                if out.can_be_unlock_with(pub_key_hash) {
                    let ghost prev = utxos.outputs@;
                    utxos.outputs.push(out.clone());
                    assert(utxos.outputs@ == prev.push(utxos.outputs@[prev.len() as int]));
                    assert(utxos@ =~= outputs_model(prev).push(out@));
                    assert(unlockable_in(outs_model.take(j + 1), pub_key_hash@) =~= unlockable_in(
                        outs_model.take(j as int),
                        pub_key_hash@,
                    ).push(out@));
                    assert(utxos@ =~= before + unlockable_in(outs_model.take(j + 1), pub_key_hash@));
                } else {
                    assert(utxos@ =~= before + unlockable_in(outs_model.take(j + 1), pub_key_hash@));
                }
                j = j + 1;
            }
            assert(outs_model.take(m as int) =~= outs_model);
            assert(self@.take(i + 1).drop_last() =~= self@.take(i as int));
            assert(self@.take(i + 1).last() == self@[i as int]);
            i = i + 1;
        }
        assert(self@.take(n as int) =~= self@);
        utxos
    }

    /// The balance of `address`: the total value of the unspent outputs
    /// locked to the key hash that the address decodes to; `None` where the
    /// address does not decode. The running total must fit an `i32`.
    pub fn balance(&self, address: &str) -> (r: Option<i32>)
        requires
            decodable_shape(address@) && address_body_spec(address@) is Some ==> totals_in_range(
                unlockable_outputs(self@, address_body_spec(address@)->Some_0),
            ),
        ensures
            !decodable_shape(address@) ==> r is None,
            decodable_shape(address@) && address_body_spec(address@) is None ==> r is None,
            decodable_shape(address@) && address_body_spec(address@) is Some ==> r == Some(
                total_value(unlockable_outputs(self@, address_body_spec(address@)->Some_0)) as i32,
            ),
    {
        if !has_decodable_shape(address) {
            return None;
        }
        let pub_key_hash = match decode_address_body(address) {
            Some(b) => b,
            None => {
                return None;
            },
        };
        let utxos = self.find_UTXO(pub_key_hash.as_slice());
        let ghost model = utxos@;
        let n: usize = utxos.outputs.len();
        let mut blance: i32 = 0;
        let mut j: usize = 0;
        assert(model.take(0) =~= Seq::<OutputModel>::empty());
        while j < n
            invariant
                n == utxos.outputs@.len(),
                model == outputs_model(utxos.outputs@),
                totals_in_range(model),
                j <= n,
                blance == total_value(model.take(j as int)),
            decreases n - j,
        {
            proof {
                lemma_totals_in_range_prefix(model, j + 1);
                assert(model.take(j + 1).drop_last() =~= model.take(j as int));
                assert(model.take(j + 1).last() == utxos.outputs@[j as int]@);
            }
            blance = blance + utxos.outputs[j].value;
            j = j + 1;
        }
        assert(model.take(n as int) =~= model);
        Some(blance)
    }

    /// The balance of `address`, or `None` where the address does not decode
    /// or where a running total of the balance leaves the `i32` range.
    pub fn balance_checked(&self, address: &str) -> (r: Option<i32>)
        ensures
            !decodable_shape(address@) ==> r is None,
            decodable_shape(address@) && address_body_spec(address@) is None ==> r is None,
            decodable_shape(address@) && address_body_spec(address@) is Some ==> {
                let outs = unlockable_outputs(self@, address_body_spec(address@)->Some_0);
                &&& !totals_in_range(outs) ==> r is None
                &&& totals_in_range(outs) ==> r == Some(total_value(outs) as i32)
            },
    {
        if !has_decodable_shape(address) {
            return None;
        }
        match decode_address_body(address) {
            Some(pub_key_hash) => {
                let utxos = self.find_UTXO(pub_key_hash.as_slice());
                if totals_fit(&utxos.outputs) {
                    self.balance(address)
                } else {
                    None
                }
            },
            None => None,
        }
    }

    /// Gathers unspent outputs locked to `address`, in store order, taking
    /// each one while less than `amount` has been gathered. Returns the total
    /// gathered and, for each transaction with outputs taken, its id and the
    /// indices of the outputs taken.
    pub fn find_spendable_outputs(&self, address: &[u8], amount: i32) -> (r: (i32, Vec<(String, Vec<i32>)>))
        requires
            spendable_in_range(self@, address@, amount),
        ensures
            r.0 == spendable(self@, address@, amount).0,
            selection_model(r.1@) == spendable(self@, address@, amount).1,
    {
        let mut unspent_outputs: Vec<(String, Vec<i32>)> = Vec::new();
        let mut accumulated: i32 = 0;
        let n: usize = self.utxos.len();
        let mut i: usize = 0;
        assert(self@.take(0) =~= Seq::<EntryModel>::empty());
        assert(selection_model(unspent_outputs@) =~= Seq::<(Seq<char>, Seq<i32>)>::empty());
        while i < n
            invariant
                n == self@.len(),
                i <= n,
                spendable_in_range(self@, address@, amount),
                accumulated == spendable(self@.take(i as int), address@, amount).0,
                selection_model(unspent_outputs@) == spendable(self@.take(i as int), address@, amount).1,
            decreases n - i,
        {
            let txid = &self.utxos[i].0;
            let outs = &self.utxos[i].1;
            let ghost outs_model = outs@;
            let ghost acc0 = accumulated as int;
            assert(outs_model == self@[i as int].1);
            proof {
                lemma_spendable_in_range_prefix(self@, address@, amount, i + 1);
                assert(self@.take(i + 1).drop_last() =~= self@.take(i as int));
                assert(self@.take(i + 1).last() == self@[i as int]);
                lemma_select_in_range_prefix(outs_model, address@, amount, acc0, 0);
            }
            let m: usize = outs.outputs.len();
            let mut picked: Vec<i32> = Vec::new();
            let mut j: usize = 0;
            assert(outs_model.take(0) =~= Seq::<OutputModel>::empty());
            assert(picked@ =~= Seq::<i32>::empty());
            while j < m
                invariant
                    m == outs.outputs@.len(),
                    outs_model == outputs_model(outs.outputs@),
                    j <= m,
                    select_in_range(outs_model, address@, amount, acc0),
                    accumulated == select_outputs(outs_model.take(j as int), address@, amount, acc0).0,
                    picked@ == select_outputs(outs_model.take(j as int), address@, amount, acc0).1,
                decreases m - j,
            {
                let out = &outs.outputs[j];
                proof {
                    lemma_select_in_range_prefix(outs_model, address@, amount, acc0, j + 1);
                    assert(outs_model.take(j + 1).drop_last() =~= outs_model.take(j as int));
                    assert(outs_model.take(j + 1).last() == out@);
                }
                if out.can_be_unlock_with(address) && accumulated < amount {
                    accumulated = accumulated + out.value;
                    picked.push(j as i32);
                }
                j = j + 1;
            }
            assert(outs_model.take(m as int) =~= outs_model);
            if picked.len() > 0 {
                unspent_outputs.push((txid.clone(), picked));
                assert(selection_model(unspent_outputs@) =~= spendable(self@.take(i + 1), address@, amount).1);
            }
            i = i + 1;
        }
        assert(self@.take(n as int) =~= self@);
        (accumulated, unspent_outputs)
    }
    /// The outputs of `outs` that remain once output `vout` is spent.
    fn without_output(outs: &TXOutputs, vout: i32) -> (r: TXOutputs)
        ensures
            r@ == spent_outputs(outs@, vout),
    {
        let mut update_outputs = TXOutputs { outputs: Vec::new() };
        let n: usize = outs.outputs.len();
        let mut out_idx: usize = 0;
        while out_idx < n
            invariant
                n == outs@.len(),
                out_idx <= n,
                update_outputs@ =~= if 0 <= vout < out_idx {
                    outs@.take(out_idx as int).remove(vout as int)
                } else {
                    outs@.take(out_idx as int)
                },
            decreases n - out_idx,
        {
            let ghost before = update_outputs@;
            let ghost item = outs@[out_idx as int];
            assert(outs@.take(out_idx + 1) =~= outs@.take(out_idx as int).push(item));
            if vout < 0 || out_idx != vout as usize {
                let ghost prev = update_outputs.outputs@;
                update_outputs.outputs.push(outs.outputs[out_idx].clone());
                assert(update_outputs.outputs@ == prev.push(update_outputs.outputs@[prev.len() as int]));
                assert(update_outputs@ =~= before.push(item));
                proof {
                    if 0 <= vout < out_idx {
                        assert(outs@.take(out_idx + 1).remove(vout as int) =~= outs@.take(
                            out_idx as int,
                        ).remove(vout as int).push(item));
                    }
                }
            } else {
                assert(outs@.take(out_idx + 1).remove(vout as int) =~= outs@.take(out_idx as int));
            }
            out_idx = out_idx + 1;
        }
        assert(outs@.take(n as int) =~= outs@);
        update_outputs
    }

    /// Updates the store with the transactions of `block`, in order: each
    /// transaction that is not a coinbase spends the outputs its inputs refer
    /// to, and each transaction's outputs are stored under its id. Each input
    /// must, in its turn, refer to a transaction in the store.
    pub fn update(&mut self, block: &Block)
        requires
            transactions_applicable(store_map(old(self)@), block@.transactions),
        ensures
            store_map(final(self)@) == apply_transactions(store_map(old(self)@), block@.transactions),
            sorted_keys(final(self)@),
    {
        let ghost m0 = store_map(self@);
        let txs = block.get_transaction();
        let ghost all = block@.transactions;
        let n: usize = txs.len();
        let mut i: usize = 0;
        assert(all.take(0) =~= Seq::<TransactionModel>::empty());
        while i < n
            invariant
                n == txs@.len(),
                all == transactions_model(txs@),
                i <= n,
                transactions_applicable(m0, all),
                store_map(self@) == apply_transactions(m0, all.take(i as int)),
            decreases n - i,
        {
            let tx = &txs[i];
            let ghost t = tx@;
            let ghost m_start = store_map(self@);
            proof {
                lemma_transactions_applicable_prefix(m0, all, i + 1);
                assert(all.take(i + 1).drop_last() =~= all.take(i as int));
                assert(all.take(i + 1).last() == t);
            }
            if !tx.is_coinbase() {
                let k: usize = tx.vin.len();
                let mut j: usize = 0;
                assert(t.vin.take(0) =~= Seq::<InputModel>::empty());
                while j < k
                    invariant
                        k == tx.vin@.len(),
                        t == tx@,
                        j <= k,
                        inputs_spendable(m_start, t.vin),
                        store_map(self@) == spend_inputs(m_start, t.vin.take(j as int)),
                    decreases k - j,
                {
                    let vin = &tx.vin[j];
                    proof {
                        lemma_inputs_spendable_prefix(m_start, t.vin, j + 1);
                        assert(t.vin.take(j + 1).drop_last() =~= t.vin.take(j as int));
                        assert(t.vin.take(j + 1).last() == vin@);
                    }
                    let update_outputs = match self.get(vin.txid.as_str()) {
                        Some(outs) => UTXOSet::without_output(outs, vin.vout),
                        None => TXOutputs { outputs: Vec::new() },
                    };
                    if update_outputs.outputs.len() == 0 {
                        self.remove_key(vin.txid.as_str());
                    } else {
                        self.put(vin.txid.clone(), update_outputs);
                    }
                    j = j + 1;
                }
                assert(t.vin.take(k as int) =~= t.vin);
            }
            let new_outputs = TXOutputs { outputs: clone_outputs(&tx.vout) };
            self.put(tx.id.clone(), new_outputs);
            i = i + 1;
        }
        assert(all.take(n as int) =~= all);
        proof {
            use_type_invariant(&*self);
        }
    }
}

} // verus!