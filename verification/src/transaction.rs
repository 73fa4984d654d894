//! Transactions: inputs that spend earlier outputs, and new outputs.
use crate::bytes::copy_bytes;
use crate::codec::{bincode_transaction, serialize_transaction_record};
use crate::digest::{hex_chars, sha256_hex, sha256_spec};
use crate::error::BlockchainError;
use crate::tx::{clone_inputs, clone_outputs, inputs_model, outputs_model, InputModel, OutputModel, TXInput, TXOutput};
use vstd::prelude::*;

verus! {

/// The value of a transaction: its id, inputs and outputs.
pub struct TransactionModel {
    pub id: Seq<char>,
    pub vin: Seq<InputModel>,
    pub vout: Seq<OutputModel>,
}

/// A transaction.
#[derive(Debug)]
pub struct Transaction {
    pub id: String,
    pub vin: Vec<TXInput>,
    pub vout: Vec<TXOutput>,
}

impl View for Transaction {
    type V = TransactionModel;

    open spec fn view(&self) -> TransactionModel {
        TransactionModel { id: self.id@, vin: inputs_model(self.vin@), vout: outputs_model(self.vout@) }
    }
}

impl Clone for Transaction {
    fn clone(&self) -> (r: Self)
        ensures
            r@ == self@,
    {
        Transaction {
            id: self.id.clone(),
            vin: clone_inputs(&self.vin),
            vout: clone_outputs(&self.vout),
        }
    }
}

/// The fields of an input in the order in which they are serialized.
pub open spec fn input_record(i: InputModel) -> (Seq<char>, i32, Seq<u8>, Seq<u8>) {
    (i.txid, i.vout, i.signature, i.pub_key)
}

/// The fields of an output in the order in which they are serialized.
pub open spec fn output_record(o: OutputModel) -> (i32, Seq<u8>) {
    (o.value, o.pub_key_hash)
}

/// The bytes that identify a transaction: the transaction serialized with
/// an empty id.
pub open spec fn transaction_bytes(t: TransactionModel) -> Seq<u8> {
    bincode_transaction(
        Seq::empty(),
        t.vin.map_values(|i: InputModel| input_record(i)),
        t.vout.map_values(|o: OutputModel| output_record(o)),
    )
}

/// The hash of a transaction: the lowercase hex SHA-256 of `transaction_bytes`.
pub open spec fn transaction_hash_spec(t: TransactionModel) -> Seq<char> {
    hex_chars(sha256_spec(transaction_bytes(t)))
}

/// Whether a transaction is a coinbase: one input, spending no transaction
/// (empty id) at output index -1.
pub open spec fn is_coinbase_spec(t: TransactionModel) -> bool {
    t.vin.len() == 1 && t.vin[0].txid.len() == 0 && t.vin[0].vout == -1
}

impl Transaction {
    /// Whether the transaction is a coinbase transaction.
    pub fn is_coinbase(&self) -> (r: bool)
        ensures
            r == is_coinbase_spec(self@),
    {
        self.vin.len() == 1 && self.vin[0].txid.as_str().is_empty() && self.vin[0].vout == -1
    }

    /// The hash of the transaction, taken over its serialization with the
    /// id left empty.
    pub fn hash(&self) -> (r: Result<String, BlockchainError>)
        ensures
            r is Ok,
            r->Ok_0@ == transaction_hash_spec(self@),
    {
        let mut ins: Vec<(String, i32, Vec<u8>, Vec<u8>)> = Vec::new();
        let n: usize = self.vin.len();
        let mut i: usize = 0;
        while i < n
            invariant
                n == self.vin@.len(),
                i <= n,
                ins@.len() == i,
                forall|k: int|
                    0 <= k < i ==> #[trigger] ins@[k].deep_view() == input_record(
                        self.vin@[k]@,
                    ),
            decreases n - i,
        {
            let input = &self.vin[i];
            ins.push(
                (
                    input.txid.clone(),
                    input.vout,
                    copy_bytes(input.signature.as_slice()),
                    copy_bytes(input.pub_key.as_slice()),
                ),
            );
            i = i + 1;
        }
        let mut outs: Vec<(i32, Vec<u8>)> = Vec::new();
        let m: usize = self.vout.len();
        let mut j: usize = 0;
        while j < m
            invariant
                m == self.vout@.len(),
                j <= m,
                outs@.len() == j,
                forall|k: int|
                    0 <= k < j ==> #[trigger] outs@[k].deep_view() == output_record(
                        self.vout@[k]@,
                    ),
            decreases m - j,
        {
            let output = &self.vout[j];
            outs.push((output.value, copy_bytes(output.pub_key_hash.as_slice())));
            j = j + 1;
        }
        assert(ins.deep_view() =~= self@.vin.map_values(|i: InputModel| input_record(i)));
        assert(outs.deep_view() =~= self@.vout.map_values(|o: OutputModel| output_record(o)));
        let empty_id = String::new();
        match serialize_transaction_record(&empty_id, &ins, &outs) {
            Ok(data) => Ok(sha256_hex(data.as_slice())),
            Err(_) => Ok(String::new()),
        }
    }
}

} // verus!
