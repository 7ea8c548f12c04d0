//! The confidential execution context: per-contract storage encryption.
//!
//! A committing transaction's storage traffic passes through a context bound
//! to one contract: values are sealed under the contract's state key before
//! persistence and opened on read. Without a context (the simulation path)
//! storage operations pass through unmodified. The contract identifier is
//! the hash of the contract's address; key bundles come from the key
//! manager, created on first access.
use vstd::prelude::*;

use crate::bytes::copy_whole;
use crate::crypto::aead_open;
use crate::crypto::aead_seal;
use crate::crypto::keccak256;
use crate::crypto::keccak_of;
use crate::crypto::open_of;
use crate::crypto::random_bytes;
use crate::crypto::seal_of;
use crate::keymanager::ck_eq;
use crate::keymanager::ck_wf;
use crate::keymanager::key_of;
use crate::keymanager::ContractKey;
use crate::keymanager::MockClient;
use crate::rlp::append_bytes;
use crate::rlp::copy_range;
use crate::storage::MemoryMKVS;

verus! {

/// The encrypted-at-rest shape of a stored value: a 12-byte nonce followed
/// by the plaintext sealed under `key` and that nonce.
pub open spec fn sealed_shape(key: Seq<u8>, stored: Seq<u8>, plaintext: Seq<u8>) -> bool {
    &&& stored.len() >= 12
    &&& stored.subrange(12, stored.len() as int) == seal_of(
        key,
        stored.subrange(0, 12),
        plaintext,
    )
}

/// Execution context for one confidential contract.
pub struct ConfidentialCtx {
    /// The 32-byte contract identifier: the hash of the contract address.
    pub contract_id: Vec<u8>,
    /// The contract's key bundle, from the key manager.
    pub keys: ContractKey,
}

impl ConfidentialCtx {
    pub open spec fn wf(&self) -> bool {
        &&& self.contract_id@.len() == 32
        &&& ck_wf(self.keys)
    }

    /// Opens a context for the contract at `contract`: derives the contract
    /// identifier by hashing the address, and obtains (creating it on first
    /// access) the contract's key bundle from the key manager.
    pub fn new(contract: &Vec<u8>, km: &mut MockClient) -> (r: Self)
        requires
            old(km).wf(),
        ensures
            final(km).wf(),
            r.wf(),
            r.contract_id@ == keccak_of(contract@),
            (key_of(final(km).keys_view(), keccak_of(contract@)) matches Some(k) && ck_eq(
                k,
                r.keys,
            )),
    {
        let contract_id = keccak256(contract);
        let keys = km.get_or_create_keys(&contract_id);
        ConfidentialCtx { contract_id, keys }
    }

    /// Seals a storage value under the contract's state key: a fresh random
    /// nonce, followed by the sealed bytes. Fails only when the plaintext
    /// reaches the cipher's length limit.
    pub fn encrypt_storage_value(&self, plaintext: &Vec<u8>) -> (r: Option<Vec<u8>>)
        requires
            self.wf(),
        ensures
            r matches Some(c) ==> sealed_shape(self.keys.state_key@, c@, plaintext@),
            r is None ==> plaintext@.len() >= crate::crypto::AEAD_PLAINTEXT_LIMIT,
    {
        let nonce = random_bytes(12);
        match aead_seal(&self.keys.state_key, &nonce, plaintext) {
            Some(ct) => {
                let mut out = nonce;
                let ghost nonce_view = out@;
                append_bytes(&mut out, &ct);
                proof {
                    assert(out@.subrange(0, 12) =~= nonce_view);
                    assert(out@.subrange(12, out@.len() as int) =~= ct@);
                }
                Some(out)
            },
            None => None,
        }
    }

    /// Opens a stored value under the contract's state key. Whatever was
    /// sealed under this key is given back: opening a value of the sealed
    /// shape yields exactly the plaintext that was sealed.
    pub fn decrypt_storage_value(&self, stored: &Vec<u8>) -> (r: Option<Vec<u8>>)
        requires
            self.wf(),
        ensures
            forall|pt: Seq<u8>|
                sealed_shape(self.keys.state_key@, stored@, pt) ==> (r matches Some(p) && p@
                    == pt),
            r matches Some(p) ==> stored@.len() >= 12 && open_of(
                self.keys.state_key@,
                stored@.subrange(0, 12),
                stored@.subrange(12, stored@.len() as int),
            ) == Some(p@),
    {
        if stored.len() < 12 {
            return None;
        }
        let nonce = copy_range(stored, 0, 12);
        let ct = copy_range(stored, 12, stored.len());
        aead_open(&self.keys.state_key, &nonce, &ct)
    }
}

/// Writes a storage value through an optional confidential context: absent
/// a context the value is persisted as it stands; under one it is sealed
/// first. Fails (leaving the store untouched) only when the cipher rejects
/// the plaintext.
pub fn write_storage(
    ctx: Option<&ConfidentialCtx>,
    mkvs: &mut MemoryMKVS,
    key: Vec<u8>,
    value: &Vec<u8>,
) -> (r: bool)
    requires
        old(mkvs).wf(),
        ctx matches Some(c) ==> c.wf(),
    ensures
        final(mkvs).wf(),
        !r ==> final(mkvs)@ == old(mkvs)@ && ctx is Some && value@.len()
            >= crate::crypto::AEAD_PLAINTEXT_LIMIT,
        r ==> final(mkvs)@.contains_key(key@) && final(mkvs)@ == old(mkvs)@.insert(
            key@,
            final(mkvs)@[key@],
        ),
        (r && ctx is None) ==> final(mkvs)@[key@] == value@,
        r ==> (ctx matches Some(c) ==> sealed_shape(
            c.keys.state_key@,
            final(mkvs)@[key@],
            value@,
        )),
{
    match ctx {
        None => {
            mkvs.insert(key, copy_whole(value));
            proof {
                assert(final(mkvs)@ =~= old(mkvs)@.insert(key@, final(mkvs)@[key@]));
            }
            true
        },
        Some(c) => match c.encrypt_storage_value(value) {
            Some(sealed) => {
                mkvs.insert(key, sealed);
                proof {
                    assert(final(mkvs)@ =~= old(mkvs)@.insert(key@, final(mkvs)@[key@]));
                }
                true
            },
            None => false,
        },
    }
}

/// Reads a storage value through an optional confidential context: absent a
/// context the stored bytes are returned as they stand; under one, a value
/// of the sealed shape yields the plaintext that was sealed.
pub fn read_storage(ctx: Option<&ConfidentialCtx>, mkvs: &MemoryMKVS, key: &Vec<u8>) -> (r: Option<
    Vec<u8>,
>)
    requires
        mkvs.wf(),
        ctx matches Some(c) ==> c.wf(),
    ensures
        !mkvs@.contains_key(key@) ==> r is None,
        (ctx is None && mkvs@.contains_key(key@)) ==> (r matches Some(v) && v@ == mkvs@[key@]),
        mkvs@.contains_key(key@) ==> (ctx matches Some(c) ==> forall|pt: Seq<u8>|
            sealed_shape(c.keys.state_key@, mkvs@[key@], pt) ==> (r matches Some(p) && p@ == pt)),
{
    match mkvs.get(key) {
        None => None,
        Some(stored) => match ctx {
            None => Some(copy_whole(stored)),
            Some(c) => c.decrypt_storage_value(stored),
        },
    }
}

/// The public-key payload the RPC surface hands out for a contract.
pub struct PublicKeyPayload {
    pub public_key: Vec<u8>,
    pub checksum: Vec<u8>,
    pub signature: Vec<u8>,
}

/// The attested public key of the contract at `contract`: the contract
/// identifier is the hash of the address, and the key manager answers with
/// the bundle's public key (creating the bundle on first access). The mock
/// key manager's checksum and signature are empty placeholders.
pub fn public_key(km: &mut MockClient, contract: &Vec<u8>) -> (r: Option<PublicKeyPayload>)
    requires
        old(km).wf(),
    ensures
        final(km).wf(),
        match r {
            Some(p) => {
                &&& (key_of(final(km).keys_view(), keccak_of(contract@)) matches Some(k)
                    && p.public_key@ == k.input_keypair.pk_view())
                &&& p.public_key@.len() == 32
                &&& p.checksum@.len() == 0
                &&& p.signature@.len() == 0
            },
            None => false,
        },
{
    let contract_id = keccak256(contract);
    match km.get_public_key(&contract_id) {
        Some(signed) => Some(
            PublicKeyPayload {
                public_key: signed.key,
                checksum: signed.checksum,
                signature: signed.signature,
            },
        ),
        None => None,
    }
}

} // verus!
