use crate::digest::{sha256_digest, sha256_of};
use crate::errors::LedgerError;
use vstd::prelude::*;

verus! {

/// The base58 rendering of a byte string, as the bs58 crate encodes it: a
/// function of the bytes alone.
pub uninterp spec fn base58_of(bytes: Seq<u8>) -> Seq<char>;

/// What the bs58 crate decodes a string to: the byte string it renders, or
/// nothing for a string that renders none.
pub uninterp spec fn base58_decode_of(s: Seq<char>) -> Option<Seq<u8>>;

/// The RIPEMD-160 digest of a byte string, as the bitcoin_hashes crate
/// computes it: a function of the bytes alone.
pub uninterp spec fn ripemd160_of(bytes: Seq<u8>) -> Seq<u8>;

/// The 32-byte ed25519 verifying (public) key that ed25519_dalek derives from
/// a 32-byte signing (secret) key: a function of the secret key alone.
pub uninterp spec fn ed25519_public_of(secret: Seq<u8>) -> Seq<u8>;

/// Relies on `bs58::encode` (`into_string`): the base58 rendering of the
/// bytes, which `bs58::decode` maps back to them.
#[verifier::external_body]
fn base58_encode(bytes: &Vec<u8>) -> (r: String)
    ensures
        r@ == base58_of(bytes@),
        base58_decode_of(r@) == Option::Some(bytes@),
{
    bs58::encode(bytes.as_slice()).into_string()
}

/// Relies on `bs58::decode` (`into_vec`): the bytes a base58 string renders,
/// or an error for a string that renders none; a function of the input alone.
#[verifier::external_body]
fn base58_decode(s: &str) -> (r: Option<Vec<u8>>)
    ensures
        match r {
            Option::Some(v) => base58_decode_of(s@) == Option::Some(v@),
            Option::None => base58_decode_of(s@) is None,
        },
{
    match bs58::decode(s).into_vec() {
        Ok(v) => Some(v),
        Err(_) => None,
    }
}

/// Relies on `bitcoin_hashes::ripemd160::Hash::hash`: the 20-byte RIPEMD-160
/// digest of the input, a function of the input alone.
#[verifier::external_body]
fn ripemd160_digest(data: &[u8]) -> (r: Vec<u8>)
    ensures
        r@ == ripemd160_of(data@),
        r@.len() == 20,
{
    bitcoin_hashes::ripemd160::Hash::hash(data).to_byte_array().to_vec()
}

/// Relies on `ed25519_dalek::SigningKey::generate` seeded from
/// `rand_core::OsRng`, on `verifying_key`, and on `to_bytes` of both keys: a
/// fresh random key pair as (secret, public). Both encodings are 32 bytes and
/// the public key is the verifying key the secret key determines; the secret
/// key itself is random, so nothing else is promised.
#[verifier::external_body]
fn generate_keypair() -> (r: (Vec<u8>, Vec<u8>))
    ensures
        r.0@.len() == 32,
        r.1@.len() == 32,
        r.1@ == ed25519_public_of(r.0@),
{
    let signing_key = ed25519_dalek::SigningKey::generate(&mut rand_core::OsRng);
    let secret = signing_key.to_bytes().to_vec();
    let public = signing_key.verifying_key().to_bytes().to_vec();
    (secret, public)
}

/// The one-byte network version followed by the RIPEMD-160 of the SHA-256 of
/// the public key.
pub open spec fn versioned_payload_of(public_key: Seq<u8>) -> Seq<u8> {
    seq![0u8] + ripemd160_of(sha256_of(public_key))
}

/// The payload an address encodes: the versioned hash with the leading four
/// bytes of its double SHA-256 appended as a checksum.
pub open spec fn address_payload_of(public_key: Seq<u8>) -> Seq<u8> {
    versioned_payload_of(public_key) + sha256_of(
        sha256_of(versioned_payload_of(public_key)),
    ).take(4)
}

/// The address a public key derives: the base58 rendering of its payload.
pub open spec fn spec_address_of(public_key: Seq<u8>) -> Seq<char> {
    base58_of(address_payload_of(public_key))
}

/// An address string decodes to a payload whose trailing four bytes equal the
/// leading four bytes of the double SHA-256 of the rest.
pub open spec fn spec_valid_address(a: Seq<char>) -> bool {
    match base58_decode_of(a) {
        Option::Some(p) => p.len() >= 4 && p.skip(p.len() - 4) == sha256_of(
            sha256_of(p.take(p.len() - 4)),
        ).take(4),
        Option::None => false,
    }
}

/// Copies a byte vector; byte for byte.
fn copy_bytes(v: &Vec<u8>) -> (r: Vec<u8>)
    ensures
        r@ == v@,
{
    let mut r: Vec<u8> = Vec::new();
    let mut i: usize = 0;
    while i < v.len()
        invariant
            i <= v@.len(),
            r@ == v@.take(i as int),
        decreases v@.len() - i,
    {
        r.push(v[i]);
        proof {
            assert(r@ =~= v@.take(i + 1));
        }
        i = i + 1;
    }
    proof {
        assert(v@.take(v@.len() as int) =~= v@);
    }
    r
}

/// A key pair and the address its public key derives. The address is set
/// once, at creation, and never changes.
#[derive(Debug, PartialEq)]
pub struct Wallet {
    secret_key: Vec<u8>,
    public_key: Vec<u8>,
    pub address: String,
}

impl Clone for Wallet {
    fn clone(&self) -> (r: Self)
        ensures
            r.spec_secret_key() == self.spec_secret_key(),
            r.spec_public_key() == self.spec_public_key(),
            r.spec_address() == self.spec_address(),
    {
        Wallet {
            secret_key: copy_bytes(&self.secret_key),
            public_key: copy_bytes(&self.public_key),
            address: self.address.clone(),
        }
    }
}

impl Wallet {
    pub closed spec fn spec_address(&self) -> Seq<char> {
        self.address@
    }

    pub closed spec fn spec_secret_key(&self) -> Seq<u8> {
        self.secret_key@
    }

    pub closed spec fn spec_public_key(&self) -> Seq<u8> {
        self.public_key@
    }

    /// Derives the address of a public key: SHA-256 of the key, RIPEMD-160 of
    /// that digest, a version byte in front, the first four bytes of the
    /// double SHA-256 of the versioned hash appended as a checksum, and the
    /// whole payload base58-encoded. Every derived address passes
    /// `validate_address`.
    pub fn generate_address(public_key: &Vec<u8>) -> (r: String)
        ensures
            r@ == spec_address_of(public_key@),
            base58_decode_of(r@) == Option::Some(address_payload_of(public_key@)),
            spec_valid_address(r@),
    {
        let sha = sha256_digest(public_key.as_slice());
        let r160 = ripemd160_digest(sha.as_slice());
        let mut payload: Vec<u8> = Vec::new();
        payload.push(0u8);
        let mut i: usize = 0;
        while i < r160.len()
            invariant
                i <= r160@.len(),
                r160@ == ripemd160_of(sha256_of(public_key@)),
                r160@.len() == 20,
                payload@ == seq![0u8] + r160@.take(i as int),
            decreases r160@.len() - i,
        {
            payload.push(r160[i]);
            proof {
                assert(payload@ =~= seq![0u8] + r160@.take(i + 1));
            }
            i = i + 1;
        }
        proof {
            assert(r160@.take(r160@.len() as int) =~= r160@);
            assert(payload@ =~= versioned_payload_of(public_key@));
        }
        let ghost vp = versioned_payload_of(public_key@);
        let c1 = sha256_digest(payload.as_slice());
        let c2 = sha256_digest(c1.as_slice());
        let mut j: usize = 0;
        while j < 4
            invariant
                j <= 4,
                c2@ == sha256_of(sha256_of(vp)),
                c2@.len() == 32,
                payload@ == vp + c2@.take(j as int),
                vp.len() == 21,
            decreases 4 - j,
        {
            payload.push(c2[j]);
            proof {
                assert(payload@ =~= vp + c2@.take(j + 1));
            }
            j = j + 1;
        }
        proof {
            assert(payload@ =~= address_payload_of(public_key@));
        }
        let addr = base58_encode(&payload);
        proof {
            assert(payload@.len() == 25);
            assert(payload@.take(payload@.len() - 4) =~= vp);
            assert(payload@.skip(payload@.len() - 4) =~= c2@.take(4));
        }
        addr
    }

    /// Generates a fresh key pair and derives its address: the public key is
    /// the verifying key of the secret key, and the address is derived from
    /// the public key once, at creation.
    pub fn new() -> (r: Wallet)
        ensures
            r.spec_secret_key().len() == 32,
            r.spec_public_key().len() == 32,
            r.spec_public_key() == ed25519_public_of(r.spec_secret_key()),
            r.spec_address() == spec_address_of(r.spec_public_key()),
            spec_valid_address(r.spec_address()),
    {
        let kp = generate_keypair();
        let address = Self::generate_address(&kp.1);
        Wallet { secret_key: kp.0, public_key: kp.1, address }
    }

    pub fn get_address(&self) -> (r: String)
        ensures
            r@ == self.spec_address(),
    {
        self.address.clone()
    }

    pub fn get_public_key(&self) -> (r: &Vec<u8>)
        ensures
            r@ == self.spec_public_key(),
    {
        &self.public_key
    }

    pub fn get_secret_key(&self) -> (r: &Vec<u8>)
        ensures
            r@ == self.spec_secret_key(),
    {
        &self.secret_key
    }

    /// Reassembles a wallet from stored fields, exactly as they were read.
    pub fn from_parts(secret_key: Vec<u8>, public_key: Vec<u8>, address: String) -> (r: Wallet)
        ensures
            r.spec_secret_key() == secret_key@,
            r.spec_public_key() == public_key@,
            r.spec_address() == address@,
    {
        Wallet { secret_key, public_key, address }
    }
}

/// Checks the checksum structure of an address string: it must decode, and
/// its trailing four bytes must equal the leading four bytes of the double
/// SHA-256 of the preceding bytes.
pub fn validate_address(address: &str) -> (r: bool)
    ensures
        r == spec_valid_address(address@),
{
    match base58_decode(address) {
        None => false,
        Some(p) => {
            if p.len() < 4 {
                return false;
            }
            let cut = p.len() - 4;
            let mut prefix: Vec<u8> = Vec::new();
            let mut i: usize = 0;
            while i < cut
                invariant
                    cut <= p@.len(),
                    i <= cut,
                    prefix@ == p@.take(i as int),
                decreases cut - i,
            {
                prefix.push(p[i]);
                proof {
                    assert(prefix@ =~= p@.take(i + 1));
                }
                i = i + 1;
            }
            let c1 = sha256_digest(prefix.as_slice());
            let c2 = sha256_digest(c1.as_slice());
            let mut k: usize = 0;
            while k < 4
                invariant
                    k <= 4,
                    cut + 4 == p@.len(),
                    p@.len() <= usize::MAX,
                    base58_decode_of(address@) == Option::Some(p@),
                    prefix@ == p@.take(cut as int),
                    c2@ == sha256_of(sha256_of(p@.take(p@.len() - 4))),
                    c2@.len() == 32,
                    forall|m: int| 0 <= m < k ==> p@[cut + m] == c2@[m],
                decreases 4 - k,
            {
                if p[cut + k] != c2[k] {
                    proof {
                        let lhs = p@.skip(p@.len() - 4);
                        let rhs = sha256_of(sha256_of(p@.take(p@.len() - 4))).take(4);
                        assert(lhs[k as int] == p@[cut + k]);
                        assert(rhs[k as int] == c2@[k as int]);
                        assert(lhs != rhs) by {
                            if lhs == rhs {
                                assert(lhs[k as int] == rhs[k as int]);
                            }
                        }
                    }
                    return false;
                }
                k = k + 1;
            }
            proof {
                assert(p@.skip(p@.len() - 4) =~= sha256_of(
                    sha256_of(p@.take(p@.len() - 4)),
                ).take(4));
            }
            true
        },
    }
}

/// The first wallet of a list whose address is `a`.
pub open spec fn wallet_lookup(ws: Seq<Wallet>, a: Seq<char>) -> Option<Wallet>
    decreases ws.len(),
{
    if ws.len() == 0 {
        Option::None
    } else if ws[0].spec_address() == a {
        Option::Some(ws[0])
    } else {
        wallet_lookup(ws.skip(1), a)
    }
}

/// Dropping an entry whose address is not `a` does not change what `a` finds.
pub proof fn lemma_wallet_lookup_remove(ws: Seq<Wallet>, i: int, a: Seq<char>)
    requires
        0 <= i < ws.len(),
        ws[i].spec_address() != a,
    ensures
        wallet_lookup(ws.remove(i), a) == wallet_lookup(ws, a),
    decreases ws.len(),
{
    if i == 0 {
        assert(ws.remove(0) =~= ws.skip(1));
    } else {
        assert(ws.remove(i)[0] == ws[0]);
        if ws[0].spec_address() == a {
        } else {
            assert(ws.remove(i).skip(1) =~= ws.skip(1).remove(i - 1));
            lemma_wallet_lookup_remove(ws.skip(1), i - 1, a);
        }
    }
}

/// The wallet collection: wallets keyed by their addresses, which stay
/// pairwise distinct. The persistence layer around the library reads and
/// writes it through `insert_wallet` and `get_wallets`.
pub struct Wallets {
    wallets: Vec<Wallet>,
}

impl Wallets {
    pub closed spec fn spec_wallets(&self) -> Seq<Wallet> {
        self.wallets@
    }

    /// Stored addresses are pairwise distinct.
    pub open spec fn wf(&self) -> bool {
        forall|i: int, j: int|
            0 <= i < j < self.spec_wallets().len() ==> (
            #[trigger] self.spec_wallets()[i]).spec_address() != (
            #[trigger] self.spec_wallets()[j]).spec_address()
    }

    /// A fresh, empty wallet collection.
    pub fn new() -> (r: Result<Wallets, LedgerError>)
        ensures
            r matches Ok(w) && w.spec_wallets().len() == 0 && w.wf(),
    {
        Ok(Wallets { wallets: Vec::new() })
    }

    /// Stores a wallet under its address, replacing any wallet that held the
    /// same address; every other address keeps its wallet.
    pub fn insert_wallet(&mut self, w: Wallet)
        requires
            old(self).wf(),
        ensures
            final(self).wf(),
            wallet_lookup(final(self).spec_wallets(), w.spec_address()) == Option::Some(w),
            forall|a: Seq<char>|
                a != w.spec_address() ==> #[trigger] wallet_lookup(final(self).spec_wallets(), a)
                    == wallet_lookup(old(self).spec_wallets(), a),
    {
        let ghost olds = self.wallets@;
        let n = self.wallets.len();
        let mut i: usize = 0;
        while i < n
            invariant
                n == self.wallets@.len(),
                self.wallets@ == olds,
                olds == old(self).spec_wallets(),
                old(self).wf(),
                i <= n,
                forall|k: int| 0 <= k < i ==> (#[trigger] olds[k]).spec_address() != w.spec_address(),
            decreases n - i,
        {
            if self.wallets[i].address.eq(&w.address) {
                self.wallets.remove(i);
                let ghost removed = self.wallets@;
                proof {
                    assert(removed == olds.remove(i as int));
                    olds.remove_ensures(i as int);
                    assert forall|a2: int, b2: int|
                        0 <= a2 < b2 < removed.len() implies (#[trigger] removed[a2]).spec_address()
                        != (#[trigger] removed[b2]).spec_address() by {
                        if a2 < i {
                            assert(removed[a2] == olds[a2]);
                        } else {
                            assert(removed[a2] == olds[a2 + 1]);
                        }
                        if b2 < i {
                            assert(removed[b2] == olds[b2]);
                        } else {
                            assert(removed[b2] == olds[b2 + 1]);
                        }
                    }
                    assert forall|k: int| 0 <= k < removed.len() implies (
                    #[trigger] removed[k]).spec_address() != w.spec_address() by {
                        if k < i {
                            assert(removed[k] == olds[k]);
                        } else {
                            assert(removed[k] == olds[k + 1]);
                        }
                    }
                }
                self.wallets.insert(0, w);
                proof {
                    assert(self.wallets@ =~= seq![w] + removed);
                    assert(self.wallets@.skip(1) =~= removed);
                    assert forall|a: Seq<char>| a != w.spec_address() implies #[trigger] wallet_lookup(
                        self.wallets@,
                        a,
                    ) == wallet_lookup(olds, a) by {
                        lemma_wallet_lookup_remove(olds, i as int, a);
                    }
                }
                return ;
            }
            i = i + 1;
        }
        self.wallets.insert(0, w);
        proof {
            assert(self.wallets@ =~= seq![w] + olds);
            assert(self.wallets@.skip(1) =~= olds);
        }
    }

    /// Generates a fresh wallet, stores it, and returns its address.
    pub fn create_wallet(&mut self) -> (r: String)
        requires
            old(self).wf(),
        ensures
            final(self).wf(),
            spec_valid_address(r@),
            exists|w: Wallet|
                {
                    &&& r@ == w.spec_address()
                    &&& w.spec_public_key().len() == 32
                    &&& #[trigger] wallet_lookup(final(self).spec_wallets(), w.spec_address())
                        == Option::Some(w)
                    &&& forall|a: Seq<char>|
                        a != w.spec_address() ==> #[trigger] wallet_lookup(
                            final(self).spec_wallets(),
                            a,
                        ) == wallet_lookup(old(self).spec_wallets(), a)
                },
    {
        let w = Wallet::new();
        let address = w.get_address();
        let ghost gw = w;
        self.insert_wallet(w);
        proof {
            assert(wallet_lookup(self.spec_wallets(), gw.spec_address()) == Option::Some(gw));
        }
        address
    }

    /// Every stored address, in storage order.
    pub fn get_all_addresses(&self) -> (r: Vec<String>)
        ensures
            r@.len() == self.spec_wallets().len(),
            forall|i: int|
                0 <= i < r@.len() ==> (#[trigger] r@[i])@ == self.spec_wallets()[i].spec_address(),
    {
        let mut addresses: Vec<String> = Vec::new();
        let mut i: usize = 0;
        while i < self.wallets.len()
            invariant
                i <= self.wallets@.len(),
                addresses@.len() == i,
                forall|k: int|
                    0 <= k < i ==> (#[trigger] addresses@[k])@ == self.wallets@[k].spec_address(),
            decreases self.wallets@.len() - i,
        {
            addresses.push(self.wallets[i].get_address());
            i = i + 1;
        }
        addresses
    }

    /// The wallet an address keys, if any.
    pub fn get_wallet(&self, address: &str) -> (r: Option<&Wallet>)
        ensures
            match r {
                Option::Some(w) => wallet_lookup(self.spec_wallets(), address@) == Option::Some(
                    *w,
                ),
                Option::None => wallet_lookup(self.spec_wallets(), address@) is None,
            },
    {
        let key: String = address.to_owned();
        let mut i: usize = 0;
        proof {
            assert(self.wallets@.skip(0) =~= self.wallets@);
        }
        while i < self.wallets.len()
            invariant
                key@ == address@,
                i <= self.wallets@.len(),
                wallet_lookup(self.spec_wallets(), address@) == wallet_lookup(
                    self.wallets@.skip(i as int),
                    address@,
                ),
            decreases self.wallets@.len() - i,
        {
            proof {
                assert(self.wallets@.skip(i as int)[0] == self.wallets@[i as int]);
                assert(self.wallets@.skip(i as int).skip(1) =~= self.wallets@.skip(i + 1));
            }
            if self.wallets[i].address.eq(&key) {
                return Some(&self.wallets[i]);
            }
            i = i + 1;
        }
        None
    }

    /// Every stored wallet, for the persistence layer to write out.
    pub fn get_wallets(&self) -> (r: &Vec<Wallet>)
        ensures
            r@ == self.spec_wallets(),
    {
        &self.wallets
    }
}

} // verus!
