//! The mock key manager: per-contract key bundles, created on first access
//! and cached for the life of the process, never rotated or deleted.
//!
//! The bundles are cryptographically weak and local to the process; the
//! component exists so the confidential execution path has a key source to
//! talk to during development.
use vstd::prelude::*;

use crate::bytes::bytes_eq;
use crate::bytes::copy_whole;
use crate::crypto::random_bytes;
use crate::crypto::x25519_pk_of;
use crate::crypto::x25519_public;

verus! {

/// The key pair under which a contract receives encrypted call inputs.
pub struct InputKeyPair {
    pk: Vec<u8>,
    sk: Vec<u8>,
}

impl InputKeyPair {
    pub closed spec fn pk_view(&self) -> Seq<u8> {
        self.pk@
    }

    pub closed spec fn sk_view(&self) -> Seq<u8> {
        self.sk@
    }

    pub fn new(pk: Vec<u8>, sk: Vec<u8>) -> (r: Self)
        ensures
            r.pk_view() == pk@,
            r.sk_view() == sk@,
    {
        Self { pk, sk }
    }

    pub fn get_pk(&self) -> (r: &Vec<u8>)
        ensures
            r@ == self.pk_view(),
    {
        &self.pk
    }

    pub fn get_sk(&self) -> (r: &Vec<u8>)
        ensures
            r@ == self.sk_view(),
    {
        &self.sk
    }
}

/// Keys for a contract: input key pair, storage encryption key, and the
/// checksum of the key-manager state that issued them.
pub struct ContractKey {
    pub input_keypair: InputKeyPair,
    pub state_key: Vec<u8>,
    pub checksum: Vec<u8>,
}

/// Two bundles carrying the same key material.
pub open spec fn ck_eq(a: ContractKey, b: ContractKey) -> bool {
    &&& a.input_keypair.pk_view() == b.input_keypair.pk_view()
    &&& a.input_keypair.sk_view() == b.input_keypair.sk_view()
    &&& a.state_key@ == b.state_key@
    &&& a.checksum@ == b.checksum@
}

/// A bundle whose keys have the widths the ciphers expect.
pub open spec fn ck_wf(k: ContractKey) -> bool {
    &&& k.input_keypair.pk_view().len() == 32
    &&& k.input_keypair.sk_view().len() == 32
    &&& k.state_key@.len() == 32
}

impl ContractKey {
    /// Generates a fresh random bundle (for testing): a Curve25519 input
    /// key pair and a random 32-byte state key, with an empty checksum.
    pub fn generate_mock() -> (r: Self)
        ensures
            ck_wf(r),
            r.input_keypair.pk_view() == x25519_pk_of(r.input_keypair.sk_view()),
            r.checksum@.len() == 0,
    {
        let sk = random_bytes(32);
        let pk = x25519_public(&sk);
        let state_key = random_bytes(32);
        ContractKey::new(pk, sk, state_key, Vec::new())
    }

    /// Assembles a bundle from its parts.
    pub fn new(pk: Vec<u8>, sk: Vec<u8>, k: Vec<u8>, sum: Vec<u8>) -> (r: Self)
        ensures
            r.input_keypair.pk_view() == pk@,
            r.input_keypair.sk_view() == sk@,
            r.state_key@ == k@,
            r.checksum@ == sum@,
    {
        Self { input_keypair: InputKeyPair::new(pk, sk), state_key: k, checksum: sum }
    }

    /// A bundle holding only the public half; private key and state key are
    /// all zero.
    pub fn from_public_key(k: Vec<u8>, sum: Vec<u8>) -> (r: Self)
        ensures
            r.input_keypair.pk_view() == k@,
            r.input_keypair.sk_view() == Seq::new(32, |i: int| 0u8),
            r.state_key@ == Seq::new(32, |i: int| 0u8),
            r.checksum@ == sum@,
    {
        let zeros = zero_bytes32();
        let zeros2 = zero_bytes32();
        ContractKey::new(k, zeros, zeros2, sum)
    }

    /// Copies the bundle.
    pub fn duplicate(&self) -> (r: Self)
        ensures
            ck_eq(r, *self),
    {
        let pk = copy_whole(&self.input_keypair.pk);
        let sk = copy_whole(&self.input_keypair.sk);
        let state_key = copy_whole(&self.state_key);
        let checksum = copy_whole(&self.checksum);
        ContractKey::new(pk, sk, state_key, checksum)
    }
}

/// Thirty-two zero bytes.
fn zero_bytes32() -> (r: Vec<u8>)
    ensures
        r@ == Seq::new(32, |i: int| 0u8),
{
    let mut out: Vec<u8> = Vec::new();
    let mut i: usize = 0;
    while i < 32
        invariant
            i <= 32,
            out@ =~= Seq::new(i as nat, |j: int| 0u8),
        decreases 32 - i,
    {
        out.push(0);
        assert(out@ =~= Seq::new((i + 1) as nat, |j: int| 0u8));
        i += 1;
    }
    out
}

/// A public key attested by the key manager. In this mock the checksum and
/// signature are empty placeholders, acceptable only outside production.
pub struct SignedPublicKey {
    pub key: Vec<u8>,
    pub checksum: Vec<u8>,
    pub signature: Vec<u8>,
}

/// Mock key manager client which stores everything locally.
pub struct MockClient {
    keys: Vec<(Vec<u8>, ContractKey)>,
}

/// The bundle stored for a contract identifier, if any.
pub open spec fn key_of(s: Seq<(Vec<u8>, ContractKey)>, id: Seq<u8>) -> Option<ContractKey>
    decreases s.len(),
{
    if s.len() == 0 {
        None
    } else if s[0].0@ == id {
        Some(s[0].1)
    } else {
        key_of(s.drop_first(), id)
    }
}

impl MockClient {
    /// The stored bundles, in creation order.
    pub closed spec fn keys_view(&self) -> Seq<(Vec<u8>, ContractKey)> {
        self.keys@
    }

    /// Every stored bundle carries keys of the widths the ciphers expect.
    pub open spec fn wf(&self) -> bool {
        forall|j: int| 0 <= j < self.keys_view().len() ==> ck_wf((#[trigger] self.keys_view()[j]).1)
    }

    /// Creates a new mock key manager client with no bundles.
    pub fn new() -> (r: Self)
        ensures
            r.keys_view().len() == 0,
            r.wf(),
    {
        Self { keys: Vec::new() }
    }

    /// Index of the bundle for `contract_id`, if one exists.
    fn find(&self, contract_id: &Vec<u8>) -> (r: Option<usize>)
        ensures
            match r {
                Some(i) => {
                    &&& i < self.keys_view().len()
                    &&& self.keys_view()[i as int].0@ == contract_id@
                    &&& key_of(self.keys_view(), contract_id@) is Some
                    &&& forall|j: int|
                        0 <= j < i ==> (#[trigger] self.keys_view()[j]).0@ != contract_id@
                },
                None => key_of(self.keys_view(), contract_id@) is None && forall|j: int|
                    0 <= j < self.keys_view().len() ==> (#[trigger] self.keys_view()[j]).0@
                        != contract_id@,
            },
    {
        let n = self.keys.len();
        let mut i: usize = 0;
        while i < n
            invariant
                i <= n,
                n == self.keys_view().len(),
                forall|j: int| 0 <= j < i ==> (#[trigger] self.keys_view()[j]).0@ != contract_id@,
            decreases n - i,
        {
            if bytes_eq(&self.keys[i].0, contract_id) {
                proof {
                    lemma_key_of_found(self.keys_view(), contract_id@, i as int);
                }
                return Some(i);
            }
            i += 1;
        }
        proof {
            lemma_key_of_absent(self.keys_view(), contract_id@);
        }
        None
    }

    /// The bundle for a contract, created on first access: asking twice for
    /// one contract returns the same key material, and a creation adds
    /// exactly that one bundle.
    pub fn get_or_create_keys(&mut self, contract_id: &Vec<u8>) -> (r: ContractKey)
        requires
            old(self).wf(),
        ensures
            final(self).wf(),
            ck_wf(r),
            key_of(final(self).keys_view(), contract_id@) matches Some(k2) && ck_eq(k2, r),
            match key_of(old(self).keys_view(), contract_id@) {
                Some(k) => final(self).keys_view() == old(self).keys_view() && ck_eq(r, k),
                None => {
                    &&& ck_wf(r)
                    &&& final(self).keys_view().len() == old(self).keys_view().len() + 1
                    &&& final(self).keys_view().drop_last() == old(self).keys_view()
                    &&& final(self).keys_view().last().0@ == contract_id@
                    &&& ck_eq(final(self).keys_view().last().1, r)
                },
            },
    {
        match self.find(contract_id) {
            Some(i) => {
                proof {
                    lemma_key_of_at(self.keys_view(), contract_id@, i as int);
                    assert(ck_wf(self.keys_view()[i as int].1));
                }
                self.keys[i].1.duplicate()
            },
            None => {
                let key = ContractKey::generate_mock();
                let id = copy_whole(contract_id);
                self.keys.push((id, key.duplicate()));
                proof {
                    assert(self.keys_view().drop_last() =~= old(self).keys_view());
                    assert forall|j: int| 0 <= j < self.keys_view().len() - 1 implies (
                    #[trigger] self.keys_view()[j]).0@ != contract_id@ by {
                        assert(self.keys_view()[j] == old(self).keys_view()[j]);
                    }
                    lemma_key_of_found(
                        self.keys_view(),
                        contract_id@,
                        self.keys_view().len() - 1,
                    );
                    lemma_key_of_at(self.keys_view(), contract_id@, self.keys_view().len() - 1);
                    assert forall|j: int| 0 <= j < self.keys_view().len() implies ck_wf(
                        (#[trigger] self.keys_view()[j]).1,
                    ) by {
                        if j < self.keys_view().len() - 1 {
                            assert(self.keys_view()[j] == old(self).keys_view()[j]);
                        }
                    }
                }
                key
            },
        }
    }

    /// The signed public key for a contract, creating its bundle on first
    /// access. The mock always answers, with an empty checksum and an empty
    /// signature.
    pub fn get_public_key(&mut self, contract_id: &Vec<u8>) -> (r: Option<SignedPublicKey>)
        requires
            old(self).wf(),
        ensures
            final(self).wf(),
            match r {
                Some(p) => {
                    &&& (key_of(final(self).keys_view(), contract_id@) matches Some(k) && p.key@
                        == k.input_keypair.pk_view())
                    &&& p.key@.len() == 32
                    &&& p.checksum@.len() == 0
                    &&& p.signature@.len() == 0
                },
                None => false,
            },
    {
        let bundle = self.get_or_create_keys(contract_id);
        Some(
            SignedPublicKey {
                key: bundle.input_keypair.pk,
                checksum: Vec::new(),
                signature: Vec::new(),
            },
        )
    }
}

/// A hit at the first matching index is what `key_of` denotes.
proof fn lemma_key_of_found(s: Seq<(Vec<u8>, ContractKey)>, id: Seq<u8>, i: int)
    requires
        0 <= i < s.len(),
        s[i].0@ == id,
        forall|j: int| 0 <= j < i ==> (#[trigger] s[j]).0@ != id,
    ensures
        key_of(s, id) is Some,
    decreases s.len(),
{
    if i > 0 {
        assert(s.drop_first()[i - 1] == s[i]);
        assert(forall|j: int| 0 <= j < i - 1 ==> (#[trigger] s.drop_first()[j]).0@ != id);
        lemma_key_of_found(s.drop_first(), id, i - 1);
    }
}

proof fn lemma_key_of_at(s: Seq<(Vec<u8>, ContractKey)>, id: Seq<u8>, i: int)
    requires
        0 <= i < s.len(),
        s[i].0@ == id,
        forall|j: int| 0 <= j < i ==> (#[trigger] s[j]).0@ != id,
    ensures
        key_of(s, id) == Some(s[i].1),
    decreases s.len(),
{
    if i > 0 {
        assert(s.drop_first()[i - 1] == s[i]);
        assert(forall|j: int| 0 <= j < i - 1 ==> (#[trigger] s.drop_first()[j]).0@ != id);
        lemma_key_of_at(s.drop_first(), id, i - 1);
    }
}

/// No matching entry means `key_of` denotes nothing.
proof fn lemma_key_of_absent(s: Seq<(Vec<u8>, ContractKey)>, id: Seq<u8>)
    requires
        forall|j: int| 0 <= j < s.len() ==> (#[trigger] s[j]).0@ != id,
    ensures
        key_of(s, id) is None,
    decreases s.len(),
{
    if s.len() > 0 {
        assert(forall|j: int| 0 <= j < s.len() - 1 ==> (#[trigger] s.drop_first()[j]).0@ != id);
        lemma_key_of_absent(s.drop_first(), id);
    }
}

} // verus!
