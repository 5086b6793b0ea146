//! Packet protection: the key schedule and the authenticated cipher.
//!
//! Keys are AES-128-GCM keys, derived with HKDF over SHA-256. Both
//! primitives come from `ring`; what they compute is named here and never
//! spelled out.

use crate::codec::{be_bytes, lemma_be_bytes_len, put_be, put_bytes};
use crate::error::{CryptoError, Error};
use crate::types::{ConnectionId, PacketNumber};
use ring::aead::{Aad, LessSafeKey, Nonce, UnboundKey, AES_128_GCM};
use ring::digest::SHA256_OUTPUT_LEN;
use ring::error::Unspecified;
use ring::hkdf::{Prk, Salt, HKDF_SHA256};
use vstd::prelude::*;
use vstd::slice::{slice_subrange, slice_to_vec};

verus! {

/// Length of a bulk cipher key.
pub const KEY_LEN: usize = 16;

/// Length of an initialization-vector seed, and of a nonce.
pub const IV_LEN: usize = 12;

/// Length of one block of key-derivation output.
pub const HASH_LEN: usize = 32;

/// Longest secret that key derivation accepts: the most that one
/// extract-then-expand can itself put out.
pub const MAX_SECRET_LEN: usize = 8160;

/// Public, version-specific salt of the initial key derivation.
pub const INITIAL_SALT: [u8; 20] = [
    0x9c, 0x10, 0x8f, 0x98, 0x52, 0x0a, 0x5c, 0x5c, 0x32, 0x96,
    0x8e, 0x95, 0x0e, 0x8a, 0x2c, 0x5f, 0xe0, 0x6d, 0x6c, 0x38,
];

/// `"QUIC "`, which starts every derivation label.
pub const LABEL_PREFIX: [u8; 5] = [0x51, 0x55, 0x49, 0x43, 0x20];

/// `"client in"`: the client's secret of the initial epoch.
pub const LABEL_CLIENT_INITIAL: [u8; 9] = [0x63, 0x6c, 0x69, 0x65, 0x6e, 0x74, 0x20, 0x69, 0x6e];

/// `"server in"`: the server's secret of the initial epoch.
pub const LABEL_SERVER_INITIAL: [u8; 9] = [0x73, 0x65, 0x72, 0x76, 0x65, 0x72, 0x20, 0x69, 0x6e];

/// `"client hs"`: the client's secret of the handshake epoch.
pub const LABEL_CLIENT_HANDSHAKE: [u8; 9] = [0x63, 0x6c, 0x69, 0x65, 0x6e, 0x74, 0x20, 0x68, 0x73];

/// `"server hs"`: the server's secret of the handshake epoch.
pub const LABEL_SERVER_HANDSHAKE: [u8; 9] = [0x73, 0x65, 0x72, 0x76, 0x65, 0x72, 0x20, 0x68, 0x73];

/// `"key"`: the bulk cipher key under a secret.
pub const LABEL_KEY: [u8; 3] = [0x6b, 0x65, 0x79];

/// `"iv"`: the initialization-vector seed under a secret.
pub const LABEL_IV: [u8; 2] = [0x69, 0x76];

#[verifier::external_type_specification]
#[verifier::external_body]
pub struct ExUnspecified(Unspecified);

/// What AES-128-GCM sealing of `plaintext` gives under `key` and `nonce`
/// with associated data `aad`: ciphertext followed by tag, or `None` where
/// the cipher refuses its input.
pub uninterp spec fn aes128gcm_seal(
    key: Seq<u8>,
    nonce: Seq<u8>,
    aad: Seq<u8>,
    plaintext: Seq<u8>,
) -> Option<Seq<u8>>;

/// What AES-128-GCM opening of `sealed` gives under `key` and `nonce` with
/// associated data `aad`: the plaintext, or `None` where the tag does not
/// verify or the cipher refuses its input.
pub uninterp spec fn aes128gcm_open(
    key: Seq<u8>,
    nonce: Seq<u8>,
    aad: Seq<u8>,
    sealed: Seq<u8>,
) -> Option<Seq<u8>>;

/// First block of HKDF-SHA-256 output: extract from `secret` under `salt`,
/// then expand with `info`.
pub uninterp spec fn hkdf_sha256(salt: Seq<u8>, secret: Seq<u8>, info: Seq<u8>) -> Seq<u8>;

/// First block of HKDF-SHA-256 expansion of the pseudorandom key `prk`
/// with `info`.
pub uninterp spec fn hkdf_sha256_expand(prk: Seq<u8>, info: Seq<u8>) -> Seq<u8>;

/// The bytes of a successful result.
pub open spec fn ok_bytes(r: Result<Vec<u8>, Unspecified>) -> Option<Seq<u8>> {
    match r {
        Ok(v) => Some(v@),
        Err(_) => None,
    }
}

/// `ring::aead::LessSafeKey::seal_in_place_append_tag` under an
/// AES-128-GCM key made of `key` and a nonce made of `nonce`.
///
/// Trusted: the outcome is a function of the four inputs, and what was
/// sealed opens again, under the same key, nonce and associated data, to
/// the plaintext.
#[verifier::external_body]
fn seal_aes128gcm(key: &[u8], nonce: &[u8], aad: &[u8], plaintext: &[u8]) -> (r: Result<
    Vec<u8>,
    Unspecified,
>)
    ensures
        ok_bytes(r) == aes128gcm_seal(key@, nonce@, aad@, plaintext@),
        r matches Ok(sealed) ==> aes128gcm_open(key@, nonce@, aad@, sealed@) == Some(plaintext@),
{
    let key = LessSafeKey::new(UnboundKey::new(&AES_128_GCM, key)?);
    let nonce = Nonce::try_assume_unique_for_key(nonce)?;
    let mut in_out = plaintext.to_vec();
    key.seal_in_place_append_tag(nonce, Aad::from(aad), &mut in_out)?;
    Ok(in_out)
}

/// `ring::aead::LessSafeKey::open_in_place` under an AES-128-GCM key made
/// of `key` and a nonce made of `nonce`.
///
/// Trusted: the outcome is a function of the four inputs.
#[verifier::external_body]
fn open_aes128gcm(key: &[u8], nonce: &[u8], aad: &[u8], sealed: &[u8]) -> (r: Result<
    Vec<u8>,
    Unspecified,
>)
    ensures
        ok_bytes(r) == aes128gcm_open(key@, nonce@, aad@, sealed@),
{
    let key = LessSafeKey::new(UnboundKey::new(&AES_128_GCM, key)?);
    let nonce = Nonce::try_assume_unique_for_key(nonce)?;
    let mut in_out = sealed.to_vec();
    let plaintext = key.open_in_place(nonce, Aad::from(aad), &mut in_out)?;
    Ok(plaintext.to_vec())
}

/// `ring::hkdf::Salt::extract` under `salt`, then `Prk::expand` with `info`
/// to the length of one SHA-256 output and `Okm::fill`.
///
/// Trusted: the output is a function of the three inputs and 32 bytes
/// long; one block is always within the length that HKDF can expand to, so
/// the call succeeds. The bounds keep the inputs far below the length at
/// which the hash gives up.
#[verifier::external_body]
fn hkdf_extract_expand(salt: &[u8], secret: &[u8], info: &[u8]) -> (r: Result<Vec<u8>, Unspecified>)
    requires
        salt@.len() <= MAX_SECRET_LEN,
        secret@.len() <= MAX_SECRET_LEN,
        info@.len() <= MAX_SECRET_LEN,
    ensures
        ok_bytes(r) == Some(hkdf_sha256(salt@, secret@, info@)),
        r matches Ok(okm) ==> okm@.len() == HASH_LEN,
{
    let prk = Salt::new(HKDF_SHA256, salt).extract(secret);
    let mut okm = vec![0u8; SHA256_OUTPUT_LEN];
    prk.expand(&[info], HKDF_SHA256)?.fill(&mut okm)?;
    Ok(okm)
}

/// `ring::hkdf::Prk::new_less_safe` on `prk`, then `Prk::expand` with
/// `info` to the length of one SHA-256 output and `Okm::fill`.
///
/// Trusted: as for the extracting form.
#[verifier::external_body]
fn hkdf_expand(prk: &[u8], info: &[u8]) -> (r: Result<Vec<u8>, Unspecified>)
    requires
        prk@.len() <= MAX_SECRET_LEN,
        info@.len() <= MAX_SECRET_LEN,
    ensures
        ok_bytes(r) == Some(hkdf_sha256_expand(prk@, info@)),
        r matches Ok(okm) ==> okm@.len() == HASH_LEN,
{
    let prk = Prk::new_less_safe(HKDF_SHA256, prk);
    let mut okm = vec![0u8; SHA256_OUTPUT_LEN];
    prk.expand(&[info], HKDF_SHA256)?.fill(&mut okm)?;
    Ok(okm)
}

/// Mathematical value of a [`PacketKey`].
pub struct PacketKeyView {
    pub key: Seq<u8>,
    pub iv: Seq<u8>,
}

impl PacketKeyView {
    pub open spec fn well_formed(self) -> bool {
        self.key.len() == KEY_LEN && self.iv.len() == IV_LEN
    }
}

/// Key material of one direction in one protection epoch: the bulk cipher
/// key and the seed from which each packet's nonce is made.
#[derive(Debug, PartialEq, Eq)]
pub struct PacketKey {
    key: Vec<u8>,
    iv: Vec<u8>,
}

/// The two directional keys of one protection epoch.
#[derive(Clone, Debug, PartialEq, Eq)]
pub struct KeyPair {
    pub client_write: PacketKey,
    pub server_write: PacketKey,
}

/// Mathematical value of a [`KeyPair`].
pub struct KeyPairView {
    pub client_write: PacketKeyView,
    pub server_write: PacketKeyView,
}

impl View for PacketKey {
    type V = PacketKeyView;

    closed spec fn view(&self) -> PacketKeyView {
        PacketKeyView { key: self.key@, iv: self.iv@ }
    }
}

impl Clone for PacketKey {
    fn clone(&self) -> (k: PacketKey)
        ensures
            k@ == self@,
    {
        proof {
            use_type_invariant(self);
        }
        PacketKey { key: slice_to_vec(self.key.as_slice()), iv: slice_to_vec(self.iv.as_slice()) }
    }
}

impl View for KeyPair {
    type V = KeyPairView;

    open spec fn view(&self) -> KeyPairView {
        KeyPairView { client_write: self.client_write@, server_write: self.server_write@ }
    }
}

/// The `info` input that names a derivation: the output length in two
/// bytes, the length of prefix and label in one, the prefix, the label.
pub open spec fn label_info(label: Seq<u8>, len: nat) -> Seq<u8> {
    be_bytes(len, 2) + (seq![(LABEL_PREFIX@.len() + label.len()) as u8] + (LABEL_PREFIX@ + label))
}

/// The `len` bytes derived from `secret` under `label`.
pub open spec fn expand_label(secret: Seq<u8>, label: Seq<u8>, len: nat) -> Seq<u8> {
    hkdf_sha256_expand(secret, label_info(label, len)).take(len as int)
}

/// The directional secret that `label` names, extracted from `secret`
/// under the public salt.
pub open spec fn epoch_secret(secret: Seq<u8>, label: Seq<u8>) -> Seq<u8> {
    hkdf_sha256(INITIAL_SALT@, secret, label_info(label, HASH_LEN as nat))
}

/// Cipher key and nonce seed under a directional secret.
pub open spec fn directional_key(secret: Seq<u8>) -> PacketKeyView {
    PacketKeyView {
        key: expand_label(secret, LABEL_KEY@, KEY_LEN as nat),
        iv: expand_label(secret, LABEL_IV@, IV_LEN as nat),
    }
}

/// The keys of the initial epoch: a function of the connection id and the
/// public salt alone, so both endpoints arrive at the same keys.
pub open spec fn initial_keys(conn_id: ConnectionId) -> KeyPairView {
    let id = be_bytes(conn_id as nat, 8);
    KeyPairView {
        client_write: directional_key(epoch_secret(id, LABEL_CLIENT_INITIAL@)),
        server_write: directional_key(epoch_secret(id, LABEL_SERVER_INITIAL@)),
    }
}

/// The keys of the handshake epoch under a secret that the TLS engine
/// exported.
pub open spec fn handshake_keys(secret: Seq<u8>) -> KeyPairView {
    KeyPairView {
        client_write: directional_key(epoch_secret(secret, LABEL_CLIENT_HANDSHAKE@)),
        server_write: directional_key(epoch_secret(secret, LABEL_SERVER_HANDSHAKE@)),
    }
}

/// Whether key derivation accepts a secret of this length.
pub open spec fn secret_len_accepted(len: nat) -> bool {
    0 < len <= MAX_SECRET_LEN
}

/// A packet's nonce: the seed, with the packet number, written as twelve
/// big-endian bytes, xor-ed in.
pub open spec fn packet_nonce(iv: Seq<u8>, number: PacketNumber) -> Seq<u8> {
    Seq::new(IV_LEN as nat, |i: int| iv[i] ^ be_bytes(number as nat, IV_LEN as nat)[i])
}

/// The protected form of `plaintext` in packet `number`, authenticated
/// together with `aad`.
pub open spec fn protect(
    key: PacketKeyView,
    number: PacketNumber,
    aad: Seq<u8>,
    plaintext: Seq<u8>,
) -> Option<Seq<u8>> {
    aes128gcm_seal(key.key, packet_nonce(key.iv, number), aad, plaintext)
}

/// The plaintext under `sealed` in packet `number`, if it is authentic
/// together with `aad`.
pub open spec fn unprotect(
    key: PacketKeyView,
    number: PacketNumber,
    aad: Seq<u8>,
    sealed: Seq<u8>,
) -> Option<Seq<u8>> {
    aes128gcm_open(key.key, packet_nonce(key.iv, number), aad, sealed)
}

/// Distinct connection ids enter the initial key derivation as distinct
/// secrets. (That the derived keys differ as well is a property of the hash
/// and not a theorem.)
pub proof fn lemma_initial_secret_injective(c1: ConnectionId, c2: ConnectionId)
    requires
        c1 != c2,
    ensures
        be_bytes(c1 as nat, 8) != be_bytes(c2 as nat, 8),
{
    crate::codec::lemma_pow256_values();
    crate::codec::lemma_be_round_trip(c1 as nat, 8);
    crate::codec::lemma_be_round_trip(c2 as nat, 8);
}

/// The block that a derivation put out.
fn derived_block(r: Result<Vec<u8>, Unspecified>) -> (okm: Vec<u8>)
    requires
        r is Ok,
    ensures
        Some(okm@) == ok_bytes(r),
{
    match r {
        Ok(okm) => okm,
        Err(_) => Vec::new(),
    }
}

fn make_label_info(label: &[u8], len: usize) -> (info: Vec<u8>)
    requires
        label@.len() <= 250,
        len <= 0xFFFF,
    ensures
        info@ == label_info(label@, len as nat),
        info@.len() <= 258,
{
    let mut info: Vec<u8> = Vec::new();
    put_be(&mut info, len as u64, 2);
    info.push((LABEL_PREFIX.len() + label.len()) as u8);
    put_bytes(&mut info, LABEL_PREFIX.as_slice());
    put_bytes(&mut info, label);
    proof {
        lemma_be_bytes_len(len as nat, 2);
    }
    info
}

fn derive_label(secret: &[u8], label: &[u8], len: usize) -> (out: Vec<u8>)
    requires
        secret@.len() <= MAX_SECRET_LEN,
        label@.len() <= 250,
        len <= HASH_LEN,
    ensures
        out@ == expand_label(secret@, label@, len as nat),
        out@.len() == len,
{
    let info = make_label_info(label, len);
    let block = derived_block(hkdf_expand(secret, info.as_slice()));
    slice_to_vec(slice_subrange(block.as_slice(), 0, len))
}

fn derive_epoch_secret(secret: &[u8], label: &[u8]) -> (out: Vec<u8>)
    requires
        secret@.len() <= MAX_SECRET_LEN,
        label@.len() <= 250,
    ensures
        out@ == epoch_secret(secret@, label@),
        out@.len() == HASH_LEN,
{
    let info = make_label_info(label, HASH_LEN);
    derived_block(hkdf_extract_expand(INITIAL_SALT.as_slice(), secret, info.as_slice()))
}

fn derive_directional_key(secret: &[u8]) -> (key: PacketKey)
    requires
        secret@.len() <= MAX_SECRET_LEN,
    ensures
        key@ == directional_key(secret@),
        key@.well_formed(),
{
    let key = derive_label(secret, LABEL_KEY.as_slice(), KEY_LEN);
    let iv = derive_label(secret, LABEL_IV.as_slice(), IV_LEN);
    PacketKey { key, iv }
}

fn derive_keys(secret: &[u8], client_label: &[u8], server_label: &[u8]) -> (keys: KeyPair)
    requires
        secret@.len() <= MAX_SECRET_LEN,
        client_label@.len() <= 250,
        server_label@.len() <= 250,
    ensures
        keys@.client_write == directional_key(epoch_secret(secret@, client_label@)),
        keys@.server_write == directional_key(epoch_secret(secret@, server_label@)),
        keys@.client_write.well_formed(),
        keys@.server_write.well_formed(),
{
    let client_secret = derive_epoch_secret(secret, client_label);
    let server_secret = derive_epoch_secret(secret, server_label);
    let client_write = derive_directional_key(client_secret.as_slice());
    let server_write = derive_directional_key(server_secret.as_slice());
    KeyPair { client_write, server_write }
}

/// Derives the keys of the initial epoch from the connection id. Any two
/// calls with one id return the same keys.
pub fn derive_initial_keys(conn_id: ConnectionId) -> (keys: KeyPair)
    ensures
        keys@ == initial_keys(conn_id),
        keys@.client_write.well_formed(),
        keys@.server_write.well_formed(),
{
    let mut id: Vec<u8> = Vec::new();
    put_be(&mut id, conn_id, 8);
    proof {
        lemma_be_bytes_len(conn_id as nat, 8);
    }
    derive_keys(
        id.as_slice(),
        LABEL_CLIENT_INITIAL.as_slice(),
        LABEL_SERVER_INITIAL.as_slice(),
    )
}

/// Derives the keys of the handshake epoch from a secret that the TLS
/// engine exported. Fails on a secret that is empty or longer than
/// `MAX_SECRET_LEN`, and on nothing else.
pub fn derive_handshake_keys(secret: &[u8]) -> (r: Result<KeyPair, Error>)
    ensures
        match r {
            Ok(keys) => secret_len_accepted(secret@.len()) && keys@ == handshake_keys(secret@)
                && keys@.client_write.well_formed() && keys@.server_write.well_formed(),
            Err(e) => !secret_len_accepted(secret@.len()) && e == Error::Crypto(
                CryptoError::InvalidLength,
            ),
        },
{
    if secret.len() == 0 || secret.len() > MAX_SECRET_LEN {
        return Err(Error::Crypto(CryptoError::InvalidLength));
    }
    Ok(
        derive_keys(
            secret,
            LABEL_CLIENT_HANDSHAKE.as_slice(),
            LABEL_SERVER_HANDSHAKE.as_slice(),
        ),
    )
}

impl PacketKey {
    #[verifier::type_invariant]
    spec fn lengths_fixed(&self) -> bool {
        self.key@.len() == KEY_LEN && self.iv@.len() == IV_LEN
    }

    /// A key made of given material. Fails unless `key` is `KEY_LEN` and
    /// `iv` is `IV_LEN` bytes long.
    pub fn new(key: &[u8], iv: &[u8]) -> (r: Result<PacketKey, Error>)
        ensures
            match r {
                Ok(k) => k@ == (PacketKeyView { key: key@, iv: iv@ }) && k@.well_formed(),
                Err(e) => !(key@.len() == KEY_LEN && iv@.len() == IV_LEN) && e == Error::Crypto(
                    CryptoError::InvalidLength,
                ),
            },
    {
        if key.len() != KEY_LEN || iv.len() != IV_LEN {
            return Err(Error::Crypto(CryptoError::InvalidLength));
        }
        Ok(PacketKey { key: slice_to_vec(key), iv: slice_to_vec(iv) })
    }

    /// The bulk cipher key.
    pub fn key(&self) -> (k: &[u8])
        ensures
            k@ == self@.key,
            self@.well_formed(),
    {
        proof {
            use_type_invariant(self);
        }
        self.key.as_slice()
    }

    /// The seed of the nonces.
    pub fn iv(&self) -> (iv: &[u8])
        ensures
            iv@ == self@.iv,
            self@.well_formed(),
    {
        proof {
            use_type_invariant(self);
        }
        self.iv.as_slice()
    }

    /// The nonce of packet `number` under this key.
    pub fn nonce(&self, number: PacketNumber) -> (nonce: Vec<u8>)
        ensures
            nonce@ == packet_nonce(self@.iv, number),
            self@.well_formed(),
    {
        proof {
            use_type_invariant(self);
        }
        let mut padded: Vec<u8> = Vec::new();
        put_be(&mut padded, 0, 4);
        put_be(&mut padded, number as u64, 8);
        proof {
            lemma_be_bytes_len(number as nat, 12);
            lemma_padded_number(number);
        }
        let mut nonce: Vec<u8> = Vec::new();
        let mut i: usize = 0;
        while i < IV_LEN
            invariant
                i <= IV_LEN,
                self.iv@.len() == IV_LEN,
                padded@ == be_bytes(number as nat, IV_LEN as nat),
                padded@.len() == IV_LEN,
                nonce@.len() == i,
                forall|j: int| 0 <= j < i ==> nonce@[j] == self.iv@[j] ^ padded@[j],
            decreases IV_LEN - i,
        {
            nonce.push(self.iv[i] ^ padded[i]);
            i = i + 1;
        }
        nonce
    }

    /// Protects `plaintext` for packet `number`, with `aad` authenticated
    /// along: ciphertext, then tag.
    pub fn seal(&self, number: PacketNumber, aad: &[u8], plaintext: &[u8]) -> (r: Result<
        Vec<u8>,
        Error,
    >)
        ensures
            self@.well_formed(),
            match protect(self@, number, aad@, plaintext@) {
                Some(sealed) => r matches Ok(v) && v@ == sealed && unprotect(
                    self@,
                    number,
                    aad@,
                    sealed,
                ) == Some(plaintext@),
                None => r matches Err(e) && e == Error::Crypto(CryptoError::InvalidLength),
            },
    {
        let nonce = self.nonce(number);
        match seal_aes128gcm(self.key.as_slice(), nonce.as_slice(), aad, plaintext) {
            Ok(sealed) => Ok(sealed),
            Err(_) => Err(Error::Crypto(CryptoError::InvalidLength)),
        }
    }

    /// Authenticates `sealed` together with `aad` for packet `number` and
    /// returns the plaintext. Nothing of the plaintext is returned unless the
    /// tag verifies.
    pub fn open(&self, number: PacketNumber, aad: &[u8], sealed: &[u8]) -> (r: Result<
        Vec<u8>,
        Error,
    >)
        ensures
            self@.well_formed(),
            match unprotect(self@, number, aad@, sealed@) {
                Some(plaintext) => r matches Ok(v) && v@ == plaintext,
                None => r matches Err(e) && e == Error::Crypto(CryptoError::AuthenticationFailure),
            },
    {
        let nonce = self.nonce(number);
        match open_aes128gcm(self.key.as_slice(), nonce.as_slice(), aad, sealed) {
            Ok(plaintext) => Ok(plaintext),
            Err(_) => Err(Error::Crypto(CryptoError::AuthenticationFailure)),
        }
    }
}

/// A 32-bit number in twelve bytes is four zero bytes and the number in
/// eight.
proof fn lemma_padded_number(number: PacketNumber)
    ensures
        be_bytes(0, 4) + be_bytes(number as nat, 8) == be_bytes(number as nat, 12),
{
    reveal_with_fuel(be_bytes, 13);
}

} // verus!
