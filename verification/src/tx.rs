//! Transaction inputs and outputs, and the locks that tie an output to the
//! hash of a public key.
use crate::address::{address_body_spec, decodable_shape, decode_address_body, has_decodable_shape};
use crate::bytes::{bytes_equal, copy_bytes};
use crate::error::BlockchainError;
use crate::wallet::{hash_pub_key, hash_pub_key_spec};
use vstd::prelude::*;

verus! {

/// The value of a transaction input: the output it spends, the signature
/// and the public key of the spender.
pub struct InputModel {
    pub txid: Seq<char>,
    pub vout: i32,
    pub signature: Seq<u8>,
    pub pub_key: Seq<u8>,
}

/// The value of a transaction output: an amount and the public-key hash
/// that locks it.
pub struct OutputModel {
    pub value: i32,
    pub pub_key_hash: Seq<u8>,
}

/// `TXOutputs` collects `TXOutput`s.
#[derive(Debug)]
pub struct TXOutputs {
    pub outputs: Vec<TXOutput>,
}

/// `TXInput` represents a transaction input.
#[derive(Debug)]
pub struct TXInput {
    pub txid: String,
    pub vout: i32,
    pub signature: Vec<u8>,
    pub pub_key: Vec<u8>,
}

/// `TXOutput` represents a transaction output.
#[derive(Debug)]
pub struct TXOutput {
    pub value: i32,
    pub pub_key_hash: Vec<u8>,
}

impl View for TXInput {
    type V = InputModel;

    open spec fn view(&self) -> InputModel {
        InputModel {
            txid: self.txid@,
            vout: self.vout,
            signature: self.signature@,
            pub_key: self.pub_key@,
        }
    }
}

impl View for TXOutput {
    type V = OutputModel;

    open spec fn view(&self) -> OutputModel {
        OutputModel { value: self.value, pub_key_hash: self.pub_key_hash@ }
    }
}

/// The values of a sequence of outputs.
pub open spec fn outputs_model(outputs: Seq<TXOutput>) -> Seq<OutputModel> {
    outputs.map_values(|o: TXOutput| o@)
}

/// The values of a sequence of inputs.
pub open spec fn inputs_model(inputs: Seq<TXInput>) -> Seq<InputModel> {
    inputs.map_values(|i: TXInput| i@)
}

impl View for TXOutputs {
    type V = Seq<OutputModel>;

    open spec fn view(&self) -> Seq<OutputModel> {
        outputs_model(self.outputs@)
    }
}

impl Clone for TXInput {
    fn clone(&self) -> (r: Self)
        ensures
            r@ == self@,
    {
        TXInput {
            txid: self.txid.clone(),
            vout: self.vout,
            signature: copy_bytes(self.signature.as_slice()),
            pub_key: copy_bytes(self.pub_key.as_slice()),
        }
    }
}

impl Clone for TXOutput {
    fn clone(&self) -> (r: Self)
        ensures
            r@ == self@,
    {
        TXOutput { value: self.value, pub_key_hash: copy_bytes(self.pub_key_hash.as_slice()) }
    }
}

/// A copy of a vector of outputs.
pub fn clone_outputs(outputs: &Vec<TXOutput>) -> (r: Vec<TXOutput>)
    ensures
        outputs_model(r@) == outputs_model(outputs@),
{
    let mut r: Vec<TXOutput> = Vec::new();
    let n: usize = outputs.len();
    let mut i: usize = 0;
    while i < n
        invariant
            n == outputs@.len(),
            i <= n,
            r@.len() == i,
            forall|k: int| 0 <= k < i ==> #[trigger] r@[k]@ == outputs@[k]@,
        decreases n - i,
    {
        r.push(outputs[i].clone());
        i = i + 1;
    }
    assert(outputs_model(r@) =~= outputs_model(outputs@));
    r
}

/// A copy of a vector of inputs.
pub fn clone_inputs(inputs: &Vec<TXInput>) -> (r: Vec<TXInput>)
    ensures
        inputs_model(r@) == inputs_model(inputs@),
{
    let mut r: Vec<TXInput> = Vec::new();
    let n: usize = inputs.len();
    let mut i: usize = 0;
    while i < n
        invariant
            n == inputs@.len(),
            i <= n,
            r@.len() == i,
            forall|k: int| 0 <= k < i ==> #[trigger] r@[k]@ == inputs@[k]@,
        decreases n - i,
    {
        r.push(inputs[i].clone());
        i = i + 1;
    }
    assert(inputs_model(r@) =~= inputs_model(inputs@));
    r
}

impl Clone for TXOutputs {
    fn clone(&self) -> (r: Self)
        ensures
            r@ == self@,
    {
        TXOutputs { outputs: clone_outputs(&self.outputs) }
    }
}

impl TXInput {
    /// Whether this input was signed by the owner of the key hash
    /// `unlocking_data`: the hash of the input's public key equals it.
    pub fn can_unlock_output_with(&self, unlocking_data: &[u8]) -> (r: bool)
        requires
            self.pub_key@.len() >= 32,
        ensures
            r == (hash_pub_key_spec(self.pub_key@) == unlocking_data@),
            r ==> unlocking_data@.len() == 20,
    {
        let mut pubkeyhash = copy_bytes(self.pub_key.as_slice());
        hash_pub_key(&mut pubkeyhash);
        bytes_equal(pubkeyhash.as_slice(), unlocking_data)
    }
}

impl TXOutput {
    /// Whether the output can be unlocked with the key hash `unlocking_data`.
    pub fn can_be_unlock_with(&self, unlocking_data: &[u8]) -> (r: bool)
        ensures
            r == (self.pub_key_hash@ == unlocking_data@),
    {
        bytes_equal(self.pub_key_hash.as_slice(), unlocking_data)
    }

    /// Locks the output to the key hash that `address` encodes.
    fn lock(&mut self, address: &str) -> (r: Result<(), BlockchainError>)
        requires
            decodable_shape(address@),
            address_body_spec(address@) is Some,
        ensures
            r is Ok,
            final(self).value == old(self).value,
            final(self).pub_key_hash@ == address_body_spec(address@)->Some_0,
    {
        match decode_address_body(address) {
            Some(pub_key_hash) => {
                self.pub_key_hash = pub_key_hash;
            },
            None => {},
        }
        Ok(())
    }

    /// A new output of `value` locked to the key hash in `address`, which
    /// must decode.
    pub fn new(value: i32, address: String) -> (r: Result<Self, BlockchainError>)
        requires
            decodable_shape(address@),
            address_body_spec(address@) is Some,
        ensures
            r is Ok,
            r->Ok_0.value == value,
            r->Ok_0.pub_key_hash@ == address_body_spec(address@)->Some_0,
    {
        let mut txo = TXOutput { value, pub_key_hash: Vec::new() };
        txo.lock(address.as_str())?;
        Ok(txo)
    }

    /// A new output of `value` locked to `address`, or `None` where the
    /// address does not decode (or has a CashAddr payload too short to be
    /// an address).
    pub fn new_checked(value: i32, address: String) -> (r: Option<Self>)
        ensures
            !decodable_shape(address@) ==> r is None,
            decodable_shape(address@) && address_body_spec(address@) is None ==> r is None,
            decodable_shape(address@) && address_body_spec(address@) is Some ==> r is Some
                && r->Some_0.value == value && r->Some_0.pub_key_hash@ == address_body_spec(
                address@,
            )->Some_0,
    {
        if !has_decodable_shape(address.as_str()) {
            return None;
        }
        match decode_address_body(address.as_str()) {
            None => None,
            Some(_) => match TXOutput::new(value, address) {
                Ok(txo) => Some(txo),
                Err(_) => None,
            },
        }
    }
}

} // verus!
