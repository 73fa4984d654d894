//! Wallets: ed25519 key pairs and the Base58 addresses of their key hashes.
use crate::address::{address_body_spec, decodable_shape, encode_script_address, script_address_spec};
use crate::bytes::{copy_bytes, str_equal};
use crate::digest::{ripemd160_digest, ripemd160_spec, sha256_digest, sha256_spec};
use rand::rngs::OsRng;
use rand::RngCore;
use vstd::prelude::*;

verus! {

/// The key hash that `hash_pub_key` leaves in a buffer holding `pub_key`:
/// SHA-256 overwrites the first 32 bytes, RIPEMD-160 hashes the whole
/// buffer, and its 20-byte digest is what remains.
pub open spec fn hash_pub_key_spec(pub_key: Seq<u8>) -> Seq<u8> {
    ripemd160_spec(sha256_spec(pub_key) + pub_key.skip(32))
}

/// Replaces a public key (at least 32 bytes, the size of a SHA-256 digest
/// written over its start) by its 20-byte key hash.
pub fn hash_pub_key(pub_key: &mut Vec<u8>)
    requires
        old(pub_key)@.len() >= 32,
    ensures
        final(pub_key)@ == hash_pub_key_spec(old(pub_key)@),
        final(pub_key)@.len() == 20,
{
    let first = sha256_digest(pub_key.as_slice());
    let mut buffer = first;
    let n: usize = pub_key.len();
    let mut i: usize = 32;
    while i < n
        invariant
            32 <= i <= n,
            n == pub_key@.len(),
            pub_key@ == old(pub_key)@,
            buffer@ =~= sha256_spec(old(pub_key)@) + old(pub_key)@.subrange(32, i as int),
        decreases n - i,
    {
        buffer.push(pub_key[i]);
        i = i + 1;
    }
    assert(old(pub_key)@.subrange(32, n as int) =~= old(pub_key)@.skip(32));
    let second = ripemd160_digest(buffer.as_slice());
    *pub_key = copy_bytes(second.as_slice());
}

/// The ed25519 public key that `crypto::ed25519::keypair` derives from `seed`.
pub uninterp spec fn ed25519_public_key_spec(seed: Seq<u8>) -> Seq<u8>;

/// Fills 32 bytes from the operating system's random source (`OsRng`).
/// Nothing is stated of the bytes but their number: they are random.
/// (`fill_bytes` panics where the operating system's source fails.)
#[verifier::external_body]
pub(crate) fn random_seed() -> (r: Vec<u8>)
    ensures
        r@.len() == 32,
{
    let mut key: [u8; 32] = [0; 32];
    OsRng.fill_bytes(&mut key);
    key.to_vec()
}

/// Calls `crypto::ed25519::keypair` on a 32-byte seed.
/// Trusted: the public key is the named key of `seed`, 32 bytes long, and
/// the 64-byte secret key is the seed followed by the public key (the source
/// copies the seed into the first half and the public key into the second).
#[verifier::external_body]
pub(crate) fn ed25519_keypair(seed: &[u8]) -> (r: (Vec<u8>, Vec<u8>))
    requires
        seed@.len() == 32,
    ensures
        r.1@ == ed25519_public_key_spec(seed@),
        r.1@.len() == 32,
        r.0@ == seed@ + r.1@,
{
    let (secret_key, public_key) = crypto::ed25519::keypair(seed);
    (secret_key.to_vec(), public_key.to_vec())
}

/// The value of a wallet: its key pair.
pub struct WalletModel {
    pub secret_key: Seq<u8>,
    pub public_key: Seq<u8>,
}

/// An ed25519 key pair.
#[derive(Debug, PartialEq, Eq)]
pub struct Wallet {
    pub secret_key: Vec<u8>,
    pub public_key: Vec<u8>,
}

impl View for Wallet {
    type V = WalletModel;

    open spec fn view(&self) -> WalletModel {
        WalletModel { secret_key: self.secret_key@, public_key: self.public_key@ }
    }
}

impl Clone for Wallet {
    fn clone(&self) -> (r: Self)
        ensures
            r@ == self@,
    {
        Wallet {
            secret_key: copy_bytes(self.secret_key.as_slice()),
            public_key: copy_bytes(self.public_key.as_slice()),
        }
    }
}

/// Whether `w` is a key pair derived from some 32-byte seed.
pub open spec fn is_generated_wallet(w: WalletModel) -> bool {
    exists|seed: Seq<u8>|
        seed.len() == 32 && #[trigger] ed25519_public_key_spec(seed) == w.public_key
            && w.secret_key == seed + w.public_key
}

/// The address of a public key: the Base58 script address of its key hash.
pub open spec fn address_of(public_key: Seq<u8>) -> Seq<char> {
    script_address_spec(hash_pub_key_spec(public_key))
}

impl Wallet {
    /// A new wallet, with a key pair from a random seed.
    pub fn new() -> (r: Wallet)
        ensures
            is_generated_wallet(r@),
            r@.public_key.len() == 32,
    {
        let key = random_seed();
        let r = Wallet::from_seed(key.as_slice());
        assert(ed25519_public_key_spec(key@) == r@.public_key);
        r
    }

    /// The wallet whose ed25519 key pair is derived from the 32-byte `seed`:
    /// the secret key is the seed followed by the public key.
    pub fn from_seed(seed: &[u8]) -> (r: Wallet)
        requires
            seed@.len() == 32,
        ensures
            r@.public_key == ed25519_public_key_spec(seed@),
            r@.public_key.len() == 32,
            r@.secret_key == seed@ + r@.public_key,
    {
        let (secret_key, public_key) = ed25519_keypair(seed);
        Wallet { secret_key, public_key }
    }

    /// The address of the wallet: the Base58 script address of the hash of
    /// its public key. Decoding the address gives back that key hash.
    pub fn get_address(&self) -> (r: String)
        requires
            self.public_key@.len() >= 32,
        ensures
            r@ == address_of(self.public_key@),
            address_body_spec(r@) == Some(hash_pub_key_spec(self.public_key@)),
            decodable_shape(r@),
    {
        let mut pub_hash = copy_bytes(self.public_key.as_slice());
        hash_pub_key(&mut pub_hash);
        encode_script_address(&pub_hash)
    }
}

/// Whether no address occurs twice among the entries.
pub open spec fn keys_distinct(entries: Seq<(String, Wallet)>) -> bool {
    forall|i: int, j: int|
        0 <= i < j < entries.len() ==> #[trigger] entries[i].0@ != #[trigger] entries[j].0@
}

/// The map from addresses to wallets that the entries hold.
pub open spec fn entries_map(entries: Seq<(String, Wallet)>) -> Map<Seq<char>, WalletModel> {
    Map::new(
        |k: Seq<char>| exists|i: int| 0 <= i < entries.len() && #[trigger] entries[i].0@ == k,
        |k: Seq<char>|
            entries[choose|i: int| 0 <= i < entries.len() && #[trigger] entries[i].0@ == k].1@,
    )
}

/// With distinct addresses, each entry is what the map holds at its address.
pub proof fn lemma_entries_map_at(entries: Seq<(String, Wallet)>, i: int)
    requires
        keys_distinct(entries),
        0 <= i < entries.len(),
    ensures
        entries_map(entries).contains_key(entries[i].0@),
        entries_map(entries)[entries[i].0@] == entries[i].1@,
{
    let k = entries[i].0@;
    assert(exists|j: int| 0 <= j < entries.len() && #[trigger] entries[j].0@ == k);
    let j: int = choose|j: int| 0 <= j < entries.len() && #[trigger] entries[j].0@ == k;
    if j != i {
        if j < i {
            assert(entries[j].0@ != entries[i].0@);
        } else {
            assert(entries[i].0@ != entries[j].0@);
        }
    }
}

/// A collection of wallets, each under its address.
pub struct Wallets {
    wallets: Vec<(String, Wallet)>,
}

impl View for Wallets {
    type V = Map<Seq<char>, WalletModel>;

    closed spec fn view(&self) -> Map<Seq<char>, WalletModel> {
        entries_map(self.wallets@)
    }
}

impl Wallets {
    /// No address is stored twice.
    #[verifier::type_invariant]
    spec fn well_formed(self) -> bool {
        keys_distinct(self.wallets@)
    }

    /// A collection with no wallets.
    pub fn empty() -> (r: Wallets)
        ensures
            r@ == Map::<Seq<char>, WalletModel>::empty(),
    {
        let r = Wallets { wallets: Vec::new() };
        assert(r@ =~= Map::<Seq<char>, WalletModel>::empty());
        r
    }

    /// The position of the entry for `address`, if there is one.
    fn find(&self, address: &str) -> (r: Option<usize>)
        ensures
            match r {
                Some(i) => i < self.wallets@.len() && self.wallets@[i as int].0@ == address@,
                None => forall|i: int|
                    0 <= i < self.wallets@.len() ==> #[trigger] self.wallets@[i].0@ != address@,
            },
    {
        let n: usize = self.wallets.len();
        let mut i: usize = 0;
        while i < n
            invariant
                n == self.wallets@.len(),
                i <= n,
                forall|k: int| 0 <= k < i ==> #[trigger] self.wallets@[k].0@ != address@,
            decreases n - i,
        {
            if str_equal(self.wallets[i].0.as_str(), address) {
                return Some(i);
            }
            i = i + 1;
        }
        None
    }

    /// Stores `wallet` under `address`, replacing any wallet stored there.
    pub fn insert(&mut self, address: String, wallet: Wallet)
        ensures
            final(self)@ == old(self)@.insert(address@, wallet@),
    {
        proof {
            use_type_invariant(&*self);
        }
        let ghost old_entries = self.wallets@;
        let ghost k = address@;
        let ghost v = wallet@;
        match self.find(address.as_str()) {
            Some(i) => {
                let mut entries = Vec::new();
                std::mem::swap(&mut entries, &mut self.wallets);
                entries.set(i, (address, wallet));
                let ghost new_entries = entries@;
                assert(keys_distinct(new_entries));
                proof {
                    assert forall|key: Seq<char>|
                        entries_map(new_entries).contains_key(key)
                            <==> (key == k || entries_map(old_entries).contains_key(key)) by {
                        if key == k {
                            lemma_entries_map_at(new_entries, i as int);
                        }
                        if entries_map(old_entries).contains_key(key) {
                            let j: int = choose|j: int| 0 <= j < old_entries.len() && #[trigger] old_entries[j].0@ == key;
                            lemma_entries_map_at(new_entries, j);
                        }
                    }
                    assert forall|key: Seq<char>| #[trigger] entries_map(new_entries).contains_key(key) implies
                        entries_map(new_entries)[key] == entries_map(old_entries).insert(k, v)[key] by {
                        let j: int = choose|j: int| 0 <= j < new_entries.len() && #[trigger] new_entries[j].0@ == key;
                        lemma_entries_map_at(new_entries, j);
                        if j != i {
                            lemma_entries_map_at(old_entries, j);
                        }
                    }
                    assert(entries_map(new_entries) =~= entries_map(old_entries).insert(k, v));
                }
                self.wallets = entries;
            },
            None => {
                let mut entries = Vec::new();
                std::mem::swap(&mut entries, &mut self.wallets);
                entries.push((address, wallet));
                let ghost new_entries = entries@;
                assert(keys_distinct(new_entries));
                proof {
                    let last = old_entries.len() as int;
                    assert forall|key: Seq<char>|
                        entries_map(new_entries).contains_key(key)
                            <==> (key == k || entries_map(old_entries).contains_key(key)) by {
                        if key == k {
                            lemma_entries_map_at(new_entries, last);
                        }
                        if entries_map(old_entries).contains_key(key) {
                            let j: int = choose|j: int| 0 <= j < old_entries.len() && #[trigger] old_entries[j].0@ == key;
                            lemma_entries_map_at(new_entries, j);
                        }
                        if entries_map(new_entries).contains_key(key) && key != k {
                            let j: int = choose|j: int| 0 <= j < new_entries.len() && #[trigger] new_entries[j].0@ == key;
                            assert(old_entries[j].0@ == key);
                        }
                    }
                    assert forall|key: Seq<char>| #[trigger] entries_map(new_entries).contains_key(key) implies
                        entries_map(new_entries)[key] == entries_map(old_entries).insert(k, v)[key] by {
                        let j: int = choose|j: int| 0 <= j < new_entries.len() && #[trigger] new_entries[j].0@ == key;
                        lemma_entries_map_at(new_entries, j);
                        if j != last {
                            lemma_entries_map_at(old_entries, j);
                        }
                    }
                    assert(entries_map(new_entries) =~= entries_map(old_entries).insert(k, v));
                }
                self.wallets = entries;
            },
        }
    }

    /// Creates a wallet, stores it under its address and returns the address.
    pub fn create_wallet(&mut self) -> (r: String)
        ensures
            exists|w: WalletModel|
                #![trigger is_generated_wallet(w)]
                is_generated_wallet(w) && w.public_key.len() == 32 && r@ == address_of(w.public_key)
                    && address_body_spec(r@) == Some(hash_pub_key_spec(w.public_key))
                    && decodable_shape(r@)
                    && final(self)@ == old(self)@.insert(r@, w),
    {
        let wallet = Wallet::new();
        let address = wallet.get_address();
        let ghost w = wallet@;
        self.insert(address.clone(), wallet);
        assert(is_generated_wallet(w));
        address
    }

    /// The addresses of all stored wallets, each once.
    pub fn get_all_address(&self) -> (r: Vec<String>)
        ensures
            forall|i: int, j: int| 0 <= i < j < r@.len() ==> #[trigger] r@[i]@ != #[trigger] r@[j]@,
            forall|k: Seq<char>|
                self@.contains_key(k) <==> exists|i: int| 0 <= i < r@.len() && #[trigger] r@[i]@ == k,
    {
        proof {
            use_type_invariant(self);
        }
        let mut addresses: Vec<String> = Vec::new();
        let n: usize = self.wallets.len();
        let mut i: usize = 0;
        while i < n
            invariant
                n == self.wallets@.len(),
                i <= n,
                addresses@.len() == i,
                forall|k: int| 0 <= k < i ==> #[trigger] addresses@[k]@ == self.wallets@[k].0@,
            decreases n - i,
        {
            addresses.push(self.wallets[i].0.clone());
            i = i + 1;
        }
        proof {
            assert forall|a: int, b: int| 0 <= a < b < addresses@.len() implies #[trigger] addresses@[a]@
                != #[trigger] addresses@[b]@ by {
                assert(self.wallets@[a].0@ != self.wallets@[b].0@);
            }
            assert forall|k: Seq<char>|
                self@.contains_key(k) <==> exists|j: int| 0 <= j < addresses@.len() && #[trigger] addresses@[j]@ == k by {
                if self@.contains_key(k) {
                    let j: int = choose|j: int| 0 <= j < self.wallets@.len() && #[trigger] self.wallets@[j].0@ == k;
                    assert(addresses@[j]@ == k);
                }
                if exists|j: int| 0 <= j < addresses@.len() && #[trigger] addresses@[j]@ == k {
                    let j: int = choose|j: int| 0 <= j < addresses@.len() && #[trigger] addresses@[j]@ == k;
                    lemma_entries_map_at(self.wallets@, j);
                }
            }
        }
        addresses
    }

    /// The wallet stored under `address`, if any.
    pub fn get_wallet(&self, address: &str) -> (r: Option<&Wallet>)
        ensures
            r is Some <==> self@.contains_key(address@),
            r is Some ==> r->Some_0@ == self@[address@],
    {
        proof {
            use_type_invariant(self);
        }
        match self.find(address) {
            Some(i) => {
                proof {
                    lemma_entries_map_at(self.wallets@, i as int);
                }
                Some(&self.wallets[i].1)
            },
            None => {
                proof {
                    if self@.contains_key(address@) {
                        let j: int = choose|j: int| 0 <= j < self.wallets@.len() && #[trigger] self.wallets@[j].0@ == address@;
                        assert(self.wallets@[j].0@ != address@);
                    }
                }
                None
            },
        }
    }
}

} // verus!
