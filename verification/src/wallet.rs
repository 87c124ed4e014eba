//! Addresses: how a public key becomes an address, and how an address gives
//! back the hash of the key that owns it.
//!
//! An address is the Base58 text of a version byte, the hash of a public key,
//! and a four-byte checksum.

use crate::codec::append_bytes;
use crate::digest::{ripemd160, ripemd160_digest, sha256, sha256_digest, RIPEMD160_LEN};
use ring::rand::SystemRandom;
use ring::signature::{Ed25519KeyPair, KeyPair, UnparsedPublicKey, ED25519};
use vstd::prelude::*;
use vstd::slice::*;
use vstd::string::*;

verus! {

/// Address version number.
pub const ADDR_VERSION: u8 = 0;

/// Address checksum length.
pub const ADDR_CHECKSUM_LEN: u8 = 4;

/// Why an address gives no key hash.
#[derive(Debug, Clone, Copy, PartialEq, Eq, Structural)]
pub enum AddressError {
    /// The text is not Base58.
    NotBase58,
    /// The decoded bytes are too few to hold a version byte and a checksum.
    TooShort,
}

/// The bytes that the Base58 text `text` stands for in the Bitcoin alphabet,
/// or `None` where the text holds a character outside that alphabet.
pub uninterp spec fn base58_decoded(text: Seq<char>) -> Option<Seq<u8>>;

/// The Base58 text of `bytes` in the Bitcoin alphabet.
pub uninterp spec fn base58_encoded(bytes: Seq<u8>) -> Seq<char>;

#[verifier::external_type_specification]
#[verifier::external_body]
pub struct ExBase58DecodeError(bs58::decode::Error);

/// Decodes Base58 text with `bs58::decode(..).into_vec()`.
///
/// Trusted: the outcome is a function of the text alone; it is an error
/// exactly where the text is not Base58, and otherwise the decoded bytes.
#[verifier::external_body]
fn base58_decode(text: &str) -> (decoded: Result<Vec<u8>, bs58::decode::Error>)
    ensures
        decoded matches Ok(bytes) ==> base58_decoded(text@) == Some(bytes@),
        decoded is Err ==> base58_decoded(text@) is None,
{
    bs58::decode(text).into_vec()
}

/// Encodes bytes as Base58 text with `bs58::encode(..).into_string()`.
///
/// Trusted: the text is a function of the bytes alone.
#[verifier::external_body]
fn base58_encode(bytes: &[u8]) -> (text: String)
    ensures
        text@ == base58_encoded(bytes@),
{
    bs58::encode(bytes).into_string()
}

/// The hash that stands for a public key: RIPEMD-160 of its SHA-256.
pub open spec fn pub_key_hash(pub_key: Seq<u8>) -> Seq<u8> {
    ripemd160_digest(sha256_digest(pub_key))
}

/// Calculates the hash of a public key: RIPEMD-160 of its SHA-256.
pub fn hash_pub_key(pub_key: &[u8]) -> (hash: Vec<u8>)
    ensures
        hash@ == pub_key_hash(pub_key@),
        hash@.len() == RIPEMD160_LEN,
{
    let inner = sha256(pub_key);
    ripemd160(inner.as_slice())
}

/// The key hash inside decoded address bytes: what lies between the version
/// byte and the checksum. There is none where the bytes are fewer than five.
pub open spec fn payload_key_hash(raw: Seq<u8>) -> Option<Seq<u8>> {
    if raw.len() > ADDR_CHECKSUM_LEN {
        Some(raw.subrange(1, raw.len() - ADDR_CHECKSUM_LEN))
    } else {
        None
    }
}

/// The key hash that an address names, where it names one.
pub open spec fn address_key_hash(address: Seq<char>) -> Option<Seq<u8>> {
    match base58_decoded(address) {
        Some(raw) => payload_key_hash(raw),
        None => None,
    }
}

/// Takes the key hash out of decoded address bytes: drops the version byte in
/// front and the checksum at the end. Neither is checked.
pub fn strip_version_and_checksum(raw: &[u8]) -> (hash: Option<Vec<u8>>)
    ensures
        hash matches Some(h) ==> payload_key_hash(raw@) == Some(h@),
        hash is None ==> payload_key_hash(raw@) is None,
{
    if raw.len() <= ADDR_CHECKSUM_LEN as usize {
        return None;
    }
    let end: usize = raw.len() - ADDR_CHECKSUM_LEN as usize;
    Some(slice_to_vec(slice_subrange(raw, 1, end)))
}

/// Extracts the public key hash from an address.
///
/// Fails with `NotBase58` exactly where the address is not Base58 text, and
/// with `TooShort` exactly where it decodes to fewer than five bytes.
pub fn extract_pub_key_hash(address: &str) -> (found: Result<Vec<u8>, AddressError>)
    ensures
        found matches Ok(h) ==> address_key_hash(address@) == Some(h@),
        found is Err ==> address_key_hash(address@) is None,
        found == Err::<Vec<u8>, AddressError>(AddressError::NotBase58) <==> base58_decoded(
            address@,
        ) is None,
        found == Err::<Vec<u8>, AddressError>(AddressError::TooShort) <==> (base58_decoded(
            address@,
        ) matches Some(raw) && raw.len() <= ADDR_CHECKSUM_LEN),
{
    match base58_decode(address) {
        Ok(raw) => match strip_version_and_checksum(raw.as_slice()) {
            Some(hash) => Ok(hash),
            None => Err(AddressError::TooShort),
        },
        Err(_) => Err(AddressError::NotBase58),
    }
}

/// The checksum of an address: the first four bytes of the SHA-256 of the
/// SHA-256 of the version byte followed by the key hash.
pub open spec fn address_checksum(key_hash: Seq<u8>) -> Seq<u8> {
    sha256_digest(sha256_digest(seq![ADDR_VERSION] + key_hash)).take(ADDR_CHECKSUM_LEN as int)
}

/// The bytes of an address before they are turned into text: the version
/// byte, the key hash, the checksum.
pub open spec fn address_payload(key_hash: Seq<u8>) -> Seq<u8> {
    seq![ADDR_VERSION] + key_hash + address_checksum(key_hash)
}

/// The address of a public key.
pub open spec fn address_text(pub_key: Seq<u8>) -> Seq<char> {
    base58_encoded(address_payload(pub_key_hash(pub_key)))
}

/// Assembles the bytes of the address of a key hash.
pub fn build_address_payload(key_hash: &[u8]) -> (payload: Vec<u8>)
    ensures
        payload@ == address_payload(key_hash@),
        payload_key_hash(payload@) == Some(key_hash@),
{
    let mut versioned: Vec<u8> = Vec::new();
    versioned.push(ADDR_VERSION);
    append_bytes(&mut versioned, key_hash);
    let first = sha256(versioned.as_slice());
    let second = sha256(first.as_slice());
    let checksum = slice_subrange(second.as_slice(), 0, ADDR_CHECKSUM_LEN as usize);
    let mut payload = versioned;
    append_bytes(&mut payload, checksum);
    proof {
        assert(versioned@ =~= seq![ADDR_VERSION] + key_hash@);
        assert(checksum@ =~= address_checksum(key_hash@));
        assert(payload@.subrange(1, payload@.len() - ADDR_CHECKSUM_LEN) =~= key_hash@);
    }
    payload
}

/// The address of a public key: the Base58 text of its version byte, key hash
/// and checksum.
pub fn address_of(pub_key: &[u8]) -> (address: String)
    ensures
        address@ == address_text(pub_key@),
{
    let key_hash = hash_pub_key(pub_key);
    let payload = build_address_payload(key_hash.as_slice());
    base58_encode(payload.as_slice())
}

/// The public key of the Ed25519 key pair that a PKCS#8 document holds, or
/// `None` where the document does not hold one.
pub uninterp spec fn ed25519_public_key(document: Seq<u8>) -> Option<Seq<u8>>;

/// The Ed25519 signature of `data` under the key pair that a PKCS#8 document
/// holds, or `None` where the document does not hold one.
pub uninterp spec fn ed25519_signature(document: Seq<u8>, data: Seq<u8>) -> Option<Seq<u8>>;

/// Whether `signature` is a valid Ed25519 signature of `data` under
/// `public_key`.
pub uninterp spec fn ed25519_verifies(public_key: Seq<u8>, data: Seq<u8>, signature: Seq<u8>) -> bool;

/// Generates a key pair with `ring`'s `Ed25519KeyPair::generate_pkcs8` and the
/// system's random numbers.
///
/// Trusted, and nothing is claimed of the document: it is random. `None`
/// stands for a random source that failed.
#[verifier::external_body]
fn generate_key_document() -> (document: Option<Vec<u8>>) {
    match Ed25519KeyPair::generate_pkcs8(&SystemRandom::new()) {
        Ok(document) => Some(document.as_ref().to_vec()),
        Err(_) => None,
    }
}

/// Parses a PKCS#8 document with `ring`'s `Ed25519KeyPair::from_pkcs8` and
/// takes the public key of the pair.
///
/// Trusted: the outcome is a function of the document alone; it is `None`
/// exactly where the document is rejected.
#[verifier::external_body]
fn read_public_key(document: &[u8]) -> (key: Option<Vec<u8>>)
    ensures
        key matches Some(k) ==> ed25519_public_key(document@) == Some(k@),
        key is None ==> ed25519_public_key(document@) is None,
{
    match Ed25519KeyPair::from_pkcs8(document) {
        Ok(pair) => Some(pair.public_key().as_ref().to_vec()),
        Err(_) => None,
    }
}

/// Signs `data` with `ring`'s `Ed25519KeyPair::sign`, under the key pair that
/// the PKCS#8 document holds.
///
/// Trusted: the outcome is a function of the document and the data alone; it
/// is `None` exactly where the document is rejected.
#[verifier::external_body]
fn sign_with_document(document: &[u8], data: &[u8]) -> (signature: Option<Vec<u8>>)
    ensures
        signature matches Some(s) ==> ed25519_signature(document@, data@) == Some(s@),
        signature is None ==> ed25519_signature(document@, data@) is None,
{
    match Ed25519KeyPair::from_pkcs8(document) {
        Ok(pair) => Some(pair.sign(data).as_ref().to_vec()),
        Err(_) => None,
    }
}

/// Checks a signature with `ring`'s `UnparsedPublicKey::verify` for Ed25519.
///
/// Trusted: the answer is a function of the key, the data and the signature
/// alone.
#[verifier::external_body]
fn check_signature(public_key: &[u8], data: &[u8], signature: &[u8]) -> (valid: bool)
    ensures
        valid == ed25519_verifies(public_key@, data@, signature@),
{
    UnparsedPublicKey::new(&ED25519, public_key).verify(data, signature).is_ok()
}

/// A key pair, and the address that stands for it.
#[derive(Debug, Clone, PartialEq, Eq)]
pub struct Wallet {
    key_pair: Vec<u8>,
    public_key: Vec<u8>,
}

impl Wallet {
    /// The PKCS#8 document of the key pair.
    pub closed spec fn document(&self) -> Seq<u8> {
        self.key_pair@
    }

    /// The public key as the wallet holds it.
    pub closed spec fn key(&self) -> Seq<u8> {
        self.public_key@
    }

    /// The public key that the wallet holds is the one of its key pair.
    pub open spec fn well_formed(&self) -> bool {
        ed25519_public_key(self.document()) == Some(self.key())
    }

    /// Creates the bytes of a new key pair: a PKCS#8 document. The document
    /// is read back before it is handed out, so what is returned holds a key
    /// pair that `Wallet::new` accepts. `None` where the system gave no random
    /// numbers, or where what was generated cannot be read back.
    pub fn create_key_pair() -> (document: Option<Vec<u8>>)
        ensures
            document matches Some(d) ==> ed25519_public_key(d@) is Some,
    {
        match generate_key_document() {
            Some(document) => match read_public_key(document.as_slice()) {
                Some(_) => Some(document),
                None => None,
            },
            None => None,
        }
    }

    /// The wallet of a key pair, given as a PKCS#8 document. `None` exactly
    /// where the document holds no Ed25519 key pair.
    pub fn new(key_pair: &[u8]) -> (made: Option<Wallet>)
        ensures
            made matches Some(wallet) ==> wallet.well_formed() && wallet.document() == key_pair@,
            made is None ==> ed25519_public_key(key_pair@) is None,
    {
        match read_public_key(key_pair) {
            Some(public_key) => Some(Wallet { key_pair: slice_to_vec(key_pair), public_key }),
            None => None,
        }
    }

    /// The public key.
    pub fn public_key(&self) -> (key: &[u8])
        ensures
            key@ == self.key(),
    {
        self.public_key.as_slice()
    }

    /// Signs `data`. `None` only where the wallet is not well formed.
    pub fn sign(&self, data: &[u8]) -> (signature: Option<Vec<u8>>)
        ensures
            signature matches Some(s) ==> ed25519_signature(self.document(), data@) == Some(s@),
            signature is None ==> ed25519_signature(self.document(), data@) is None,
    {
        sign_with_document(self.key_pair.as_slice(), data)
    }

    /// Checks that `signature` is a signature of `data` under this wallet's
    /// public key.
    pub fn verify(&self, data: &Vec<u8>, signature: &[u8]) -> (valid: bool)
        ensures
            valid == ed25519_verifies(self.key(), data@, signature@),
    {
        check_signature(self.public_key.as_slice(), data.as_slice(), signature)
    }

    /// The address of the wallet: the Base58 text of the version byte, the
    /// hash of the public key and the checksum.
    pub fn get_address(&self) -> (address: String)
        ensures
            address@ == address_text(self.key()),
    {
        address_of(self.public_key.as_slice())
    }
}

/// The key pair kept for one address.
#[derive(Debug, Clone, PartialEq, Eq)]
pub struct WalletEntry {
    pub address: String,
    pub key_pair: Vec<u8>,
}

/// The key pairs of the addresses that were created here.
#[derive(Debug, Clone, PartialEq, Eq)]
pub struct Wallets {
    wallets: Vec<WalletEntry>,
}

/// Where `address` stands among the entries, if it does.
pub open spec fn position_of(entries: Seq<WalletEntry>, address: Seq<char>) -> Option<int> {
    if exists|i: int| 0 <= i < entries.len() && (#[trigger] entries[i]).address@ == address {
        Some(choose|i: int| 0 <= i < entries.len() && (#[trigger] entries[i]).address@ == address)
    } else {
        None
    }
}

/// No address stands twice among the entries.
pub open spec fn distinct_addresses(entries: Seq<WalletEntry>) -> bool {
    forall|i: int, j: int|
        0 <= i < j < entries.len() ==> (#[trigger] entries[i]).address@ != (
        #[trigger] entries[j]).address@
}

/// Where no address stands twice, an address found at a position stands at
/// that position and nowhere else.
pub proof fn lemma_position_unique(entries: Seq<WalletEntry>, address: Seq<char>, at: int)
    requires
        0 <= at < entries.len(),
        entries[at].address@ == address,
        distinct_addresses(entries),
    ensures
        position_of(entries, address) == Some(at),
{
    let found = position_of(entries, address);
    assert(found is Some);
    let i = found->0;
    if i < at {
        assert(entries[i].address@ != entries[at].address@);
    } else if at < i {
        assert(entries[at].address@ != entries[i].address@);
    }
}

impl Wallets {
    /// The entries, in the order in which their addresses first came.
    pub closed spec fn entries(&self) -> Seq<WalletEntry> {
        self.wallets@
    }

    /// No address stands twice.
    pub open spec fn well_formed(&self) -> bool {
        distinct_addresses(self.entries())
    }

    /// An empty collection.
    pub fn new() -> (wallets: Wallets)
        ensures
            wallets.entries().len() == 0,
            wallets.well_formed(),
    {
        Wallets { wallets: Vec::new() }
    }

    /// The position of `address` among the entries.
    fn find(&self, address: &String) -> (found: Option<usize>)
        ensures
            found matches Some(i) ==> i < self.entries().len() && self.entries()[i as int].address@
                == address@,
            found is None ==> position_of(self.entries(), address@) is None,
    {
        let mut i: usize = 0;
        while i < self.wallets.len()
            invariant
                i <= self.wallets.len(),
                forall|k: int| 0 <= k < i ==> (#[trigger] self.wallets@[k]).address@ != address@,
            decreases self.wallets.len() - i,
        {
            if self.wallets[i].address == *address {
                return Some(i);
            }
            i += 1;
        }
        None
    }

    /// Keeps `key_pair` for `address`: in place of the one kept before, where
    /// there was one, and else as a new entry at the end.
    pub fn insert(&mut self, address: String, key_pair: Vec<u8>)
        requires
            old(self).well_formed(),
        ensures
            final(self).well_formed(),
            final(self).entries() == match position_of(old(self).entries(), address@) {
                Some(i) => old(self).entries().update(i, WalletEntry { address, key_pair }),
                None => old(self).entries().push(WalletEntry { address, key_pair }),
            },
    {
        match self.find(&address) {
            Some(i) => {
                proof {
                    lemma_position_unique(self.wallets@, address@, i as int);
                }
                self.wallets.set(i, WalletEntry { address, key_pair });
            },
            None => {
                self.wallets.push(WalletEntry { address, key_pair });
            },
        }
    }

    /// Keeps a key pair, given as a PKCS#8 document, under the address of its
    /// public key, and returns that address: in place of the key pair kept for
    /// the address before, where there was one, and else as a new entry at the
    /// end.
    ///
    /// `None`, with nothing changed, exactly where the document holds no
    /// Ed25519 key pair.
    pub fn keep_key_pair(&mut self, key_pair: Vec<u8>) -> (kept: Option<String>)
        requires
            old(self).well_formed(),
        ensures
            final(self).well_formed(),
            match ed25519_public_key(key_pair@) {
                None => kept is None && final(self).entries() == old(self).entries(),
                Some(key) => kept matches Some(address) && address@ == address_text(key)
                    && final(self).entries() == match position_of(
                    old(self).entries(),
                    address@,
                ) {
                    Some(i) => old(self).entries().update(i, WalletEntry { address, key_pair }),
                    None => old(self).entries().push(WalletEntry { address, key_pair }),
                },
            },
    {
        let wallet = match Wallet::new(key_pair.as_slice()) {
            Some(wallet) => wallet,
            None => {
                return None;
            },
        };
        let address = wallet.get_address();
        self.insert(address.clone(), key_pair);
        Some(address)
    }

    /// Creates a new wallet, keeps its key pair, and returns its address.
    ///
    /// The key pair is a fresh one; it is kept as `keep_key_pair` keeps any
    /// key pair. `None`, with nothing changed, where no key pair could be
    /// made: that is for the source of random numbers to decide.
    pub fn create_wallet(&mut self) -> (created: Option<String>)
        requires
            old(self).well_formed(),
        ensures
            final(self).well_formed(),
            created is None ==> final(self).entries() == old(self).entries(),
            created matches Some(address) ==> exists|key_pair: Vec<u8>|
                #![trigger ed25519_public_key(key_pair@)]
                {
                    &&& ed25519_public_key(key_pair@) matches Some(key) && address@
                        == address_text(key)
                    &&& final(self).entries() == match position_of(
                        old(self).entries(),
                        address@,
                    ) {
                        Some(i) => old(self).entries().update(
                            i,
                            WalletEntry { address, key_pair },
                        ),
                        None => old(self).entries().push(WalletEntry { address, key_pair }),
                    }
                },
    {
        match Wallet::create_key_pair() {
            Some(document) => {
                let ghost fresh = document;
                let kept = self.keep_key_pair(document);
                proof {
                    assert(ed25519_public_key(fresh@) is Some);
                }
                kept
            },
            None => None,
        }
    }

    /// The addresses of the wallets kept, in the order of the entries.
    pub fn get_addresses(&self) -> (addresses: Vec<String>)
        ensures
            addresses@.len() == self.entries().len(),
            forall|i: int|
                0 <= i < addresses@.len() ==> (#[trigger] addresses@[i])@
                    == self.entries()[i].address@,
    {
        let mut addresses: Vec<String> = Vec::new();
        let mut i: usize = 0;
        while i < self.wallets.len()
            invariant
                i <= self.wallets.len(),
                addresses@.len() == i,
                forall|k: int|
                    0 <= k < i ==> (#[trigger] addresses@[k])@ == self.wallets@[k].address@,
            decreases self.wallets.len() - i,
        {
            addresses.push(self.wallets[i].address.clone());
            i += 1;
        }
        addresses
    }

    /// The number of wallets kept.
    pub fn len(&self) -> (count: usize)
        ensures
            count == self.entries().len(),
    {
        self.wallets.len()
    }

    /// The entry at position `index`.
    pub fn entry_at(&self, index: usize) -> (entry: &WalletEntry)
        requires
            index < self.entries().len(),
        ensures
            *entry == self.entries()[index as int],
    {
        &self.wallets[index]
    }

    /// The wallet for `address`: `None` where no key pair is kept for it, or
    /// where what is kept holds no Ed25519 key pair.
    pub fn get_wallet(&self, address: &str) -> (found: Option<Wallet>)
        requires
            self.well_formed(),
        ensures
            found matches Some(wallet) ==> (position_of(self.entries(), address@) matches Some(i)
                && wallet.document() == self.entries()[i].key_pair@ && wallet.well_formed()),
            found is None ==> match position_of(self.entries(), address@) {
                Some(i) => ed25519_public_key(self.entries()[i].key_pair@) is None,
                None => true,
            },
    {
        let name = String::from_str(address);
        match self.find(&name) {
            Some(i) => {
                proof {
                    lemma_position_unique(self.wallets@, address@, i as int);
                }
                Wallet::new(self.wallets[i].key_pair.as_slice())
            },
            None => None,
        }
    }
}

} // verus!
