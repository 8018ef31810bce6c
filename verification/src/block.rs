use crate::digest::{sha256_digest, sha256_of};
use crate::encoding::{hex_of, hex_string, push_str_encoding, push_u64_le, str_encoding, u64_le};
use crate::errors::LedgerError;
use crate::transaction::{push_tx, tx_bytes, tx_eqv, txs_eqv, Transaction};
use vstd::prelude::*;
use vstd::string::StrSliceExecFns;

verus! {

/// How many leading hex characters of a block hash must be '0'.
pub const TARGET_HEXS: usize = 4;

/// One sealed unit of the chain: a transaction batch, the parent hash (empty
/// for genesis), the proof-of-work hash and nonce, a timestamp, and the
/// block's height above genesis. Blocks are never mutated once sealed.
#[derive(Debug)]
pub struct Block {
    timestamp: u64,
    transactions: Vec<Transaction>,
    prev_block_hash: String,
    hash: String,
    nonce: u64,
    height: u32,
}

/// The transactions of a block, encoded in order.
pub open spec fn txs_bytes(s: Seq<Transaction>) -> Seq<u8>
    decreases s.len(),
{
    if s.len() == 0 {
        Seq::empty()
    } else {
        txs_bytes(s.drop_last()) + tx_bytes(s.last())
    }
}

/// The nonce-independent part of what a block hash commits to: parent hash,
/// counted transactions, timestamp and difficulty.
pub open spec fn block_content_prefix(
    prev: Seq<char>,
    txs: Seq<Transaction>,
    timestamp: u64,
    difficulty: u64,
) -> Seq<u8> {
    str_encoding(prev) + u64_le(txs.len() as u64) + txs_bytes(txs) + u64_le(timestamp) + u64_le(
        difficulty,
    )
}

/// What a block hash commits to: the content prefix, then the nonce.
pub open spec fn block_content(
    prev: Seq<char>,
    txs: Seq<Transaction>,
    timestamp: u64,
    difficulty: u64,
    nonce: u64,
) -> Seq<u8> {
    block_content_prefix(prev, txs, timestamp, difficulty) + u64_le(nonce)
}

/// The hex digest a block with these fields must carry.
pub open spec fn block_hash_of(
    prev: Seq<char>,
    txs: Seq<Transaction>,
    timestamp: u64,
    difficulty: u64,
    nonce: u64,
) -> Seq<char> {
    hex_of(sha256_of(block_content(prev, txs, timestamp, difficulty, nonce)))
}

/// The first `d` characters of `s` are all '0'.
pub open spec fn leading_zeros(s: Seq<char>, d: int) -> bool {
    forall|i: int| 0 <= i < d ==> s[i] == '0'
}

/// No nonce in the whole search space seals this content at this difficulty.
pub open spec fn no_nonce_seals(
    prev: Seq<char>,
    txs: Seq<Transaction>,
    timestamp: u64,
    difficulty: u64,
) -> bool {
    forall|m: u64|
        !leading_zeros(
            #[trigger] block_hash_of(prev, txs, timestamp, difficulty, m),
            difficulty as int,
        )
}

impl Block {
    pub closed spec fn spec_timestamp(&self) -> u64 {
        self.timestamp
    }

    pub closed spec fn spec_transactions(&self) -> Seq<Transaction> {
        self.transactions@
    }

    pub closed spec fn spec_prev_hash(&self) -> Seq<char> {
        self.prev_block_hash@
    }

    pub closed spec fn spec_hash(&self) -> Seq<char> {
        self.hash@
    }

    pub closed spec fn spec_nonce(&self) -> u64 {
        self.nonce
    }

    pub closed spec fn spec_height(&self) -> u32 {
        self.height
    }

    /// The hash a block's own fields demand at the configured difficulty.
    pub open spec fn spec_recomputed_hash(&self) -> Seq<char> {
        block_hash_of(
            self.spec_prev_hash(),
            self.spec_transactions(),
            self.spec_timestamp(),
            TARGET_HEXS as u64,
            self.spec_nonce(),
        )
    }

    /// A block the sealer produced: its stored hash is the digest of its own
    /// fields and meets the difficulty target.
    pub open spec fn spec_sealed(&self) -> bool {
        &&& self.spec_hash() == self.spec_recomputed_hash()
        &&& leading_zeros(self.spec_hash(), TARGET_HEXS as int)
    }

    /// The stored nonce is the least that seals the block's other fields:
    /// every smaller nonce misses the difficulty target.
    pub open spec fn spec_min_nonce(&self) -> bool {
        forall|m: u64|
            m < self.spec_nonce() ==> !leading_zeros(
                #[trigger] block_hash_of(
                    self.spec_prev_hash(),
                    self.spec_transactions(),
                    self.spec_timestamp(),
                    TARGET_HEXS as u64,
                    m,
                ),
                TARGET_HEXS as int,
            )
    }

    /// What `validate` checks: the digest recomputed from the stored fields
    /// meets the difficulty target.
    pub open spec fn spec_validate(&self) -> bool {
        leading_zeros(self.spec_recomputed_hash(), TARGET_HEXS as int)
    }
}

/// Two blocks carry the same data, field for field.
pub open spec fn block_eqv(a: Block, b: Block) -> bool {
    &&& a.spec_timestamp() == b.spec_timestamp()
    &&& txs_eqv(a.spec_transactions(), b.spec_transactions())
    &&& a.spec_prev_hash() == b.spec_prev_hash()
    &&& a.spec_hash() == b.spec_hash()
    &&& a.spec_nonce() == b.spec_nonce()
    &&& a.spec_height() == b.spec_height()
}

impl Clone for Block {
    fn clone(&self) -> (r: Self)
        ensures
            block_eqv(r, *self),
    {
        let mut txs: Vec<Transaction> = Vec::new();
        let mut i: usize = 0;
        while i < self.transactions.len()
            invariant
                i <= self.transactions@.len(),
                txs@.len() == i,
                forall|j: int| 0 <= j < i ==> tx_eqv(txs@[j], self.transactions@[j]),
            decreases self.transactions@.len() - i,
        {
            txs.push(self.transactions[i].clone());
            i = i + 1;
        }
        Block {
            timestamp: self.timestamp,
            transactions: txs,
            prev_block_hash: self.prev_block_hash.clone(),
            hash: self.hash.clone(),
            nonce: self.nonce,
            height: self.height,
        }
    }
}

pub(crate) fn block_prefix_encode(
    prev: &str,
    txs: &Vec<Transaction>,
    timestamp: u64,
    difficulty: u64,
) -> (r: Vec<u8>)
    ensures
        r@ == block_content_prefix(prev@, txs@, timestamp, difficulty),
{
    let mut buf: Vec<u8> = Vec::new();
    push_str_encoding(&mut buf, prev);
    push_u64_le(&mut buf, txs.len() as u64);
    let ghost pre: Seq<u8> = buf@;
    let mut i: usize = 0;
    while i < txs.len()
        invariant
            i <= txs@.len(),
            buf@ == pre + txs_bytes(txs@.take(i as int)),
        decreases txs@.len() - i,
    {
        push_tx(&mut buf, &txs[i]);
        proof {
            assert(txs@.take(i + 1).drop_last() =~= txs@.take(i as int));
            assert(buf@ =~= pre + txs_bytes(txs@.take(i + 1)));
        }
        i = i + 1;
    }
    proof {
        assert(txs@.take(txs@.len() as int) =~= txs@);
    }
    push_u64_le(&mut buf, timestamp);
    push_u64_le(&mut buf, difficulty);
    proof {
        assert(buf@ =~= block_content_prefix(prev@, txs@, timestamp, difficulty));
    }
    buf
}

pub(crate) fn block_content_encode(
    prev: &str,
    txs: &Vec<Transaction>,
    timestamp: u64,
    difficulty: u64,
    nonce: u64,
) -> (r: Vec<u8>)
    ensures
        r@ == block_content(prev@, txs@, timestamp, difficulty, nonce),
{
    let mut buf = block_prefix_encode(prev, txs, timestamp, difficulty);
    push_u64_le(&mut buf, nonce);
    buf
}

/// Copies encoded bytes into a fresh buffer, byte for byte.
fn copy_content(v: &Vec<u8>) -> (r: Vec<u8>)
    ensures
        r@ == v@,
{
    let mut r: Vec<u8> = Vec::with_capacity(v.len());
    let mut i: usize = 0;
    while i < v.len()
        invariant
            i <= v@.len(),
            r@ == v@.take(i as int),
        decreases v@.len() - i,
    {
        r.push(v[i]);
        proof {
            assert(r@ =~= v@.take(i + 1));
        }
        i = i + 1;
    }
    proof {
        assert(v@.take(v@.len() as int) =~= v@);
    }
    r
}

/// Recomputes the hex digest a block with these fields must carry.
pub(crate) fn compute_block_hash(
    prev: &str,
    txs: &Vec<Transaction>,
    timestamp: u64,
    difficulty: u64,
    nonce: u64,
) -> (r: String)
    ensures
        r@ == block_hash_of(prev@, txs@, timestamp, difficulty, nonce),
        r@.len() == 64,
{
    let content = block_content_encode(prev, txs, timestamp, difficulty, nonce);
    let digest = sha256_digest(content.as_slice());
    let h = hex_string(digest.as_slice());
    proof {
        crate::encoding::lemma_hex_len(digest@);
    }
    h
}

pub(crate) fn check_leading_zeros(h: &str, d: usize) -> (r: bool)
    requires
        d <= h@.len(),
    ensures
        r == leading_zeros(h@, d as int),
{
    let mut i: usize = 0;
    while i < d
        invariant
            i <= d,
            d <= h@.len(),
            forall|j: int| 0 <= j < i ==> h@[j] == '0',
        decreases d - i,
    {
        let c = h.get_char(i);
        if c != '0' {
            return false;
        }
        i = i + 1;
    }
    true
}

/// Searches nonces from zero upward until the digest of the encoded content
/// meets the difficulty target: the proof-of-work seal. Returns the hash and
/// the least nonce that meets the target, or `None` exactly in the
/// practically unreachable case that no nonce in the whole search space does.
pub fn seal(prev: &str, txs: &Vec<Transaction>, timestamp: u64, difficulty: usize) -> (r: Option<
    (String, u64),
>)
    requires
        difficulty <= 64,
    ensures
        r matches Some(p) ==> {
            &&& p.0@ == block_hash_of(prev@, txs@, timestamp, difficulty as u64, p.1)
            &&& leading_zeros(p.0@, difficulty as int)
            &&& forall|m: u64|
                m < p.1 ==> !leading_zeros(
                    #[trigger] block_hash_of(prev@, txs@, timestamp, difficulty as u64, m),
                    difficulty as int,
                )
        },
        r is None ==> no_nonce_seals(prev@, txs@, timestamp, difficulty as u64),
{
    let prefix = block_prefix_encode(prev, txs, timestamp, difficulty as u64);
    let mut nonce: u64 = 0;
    loop
        invariant
            difficulty <= 64,
            prefix@ == block_content_prefix(prev@, txs@, timestamp, difficulty as u64),
            forall|m: u64|
                m < nonce ==> !leading_zeros(
                    #[trigger] block_hash_of(prev@, txs@, timestamp, difficulty as u64, m),
                    difficulty as int,
                ),
        decreases u64::MAX - nonce,
    {
        let mut content = copy_content(&prefix);
        push_u64_le(&mut content, nonce);
        let digest = sha256_digest(content.as_slice());
        let h = hex_string(digest.as_slice());
        proof {
            crate::encoding::lemma_hex_len(digest@);
            assert(h@ == block_hash_of(prev@, txs@, timestamp, difficulty as u64, nonce));
        }
        if check_leading_zeros(h.as_str(), difficulty) {
            return Some((h, nonce));
        }
        if nonce == u64::MAX {
            return None;
        }
        nonce = nonce + 1;
    }
}

/// Relies on `std::time::SystemTime::now` and `duration_since`: the
/// milliseconds since the Unix epoch, or `None` when the clock reads earlier
/// than the epoch. The result depends on the machine's clock, so nothing is
/// promised of it.
#[verifier::external_body]
fn current_time_millis() -> (r: Option<u64>) {
    match std::time::SystemTime::now().duration_since(std::time::SystemTime::UNIX_EPOCH) {
        Ok(d) => Some(d.as_millis() as u64),
        Err(_) => None,
    }
}

impl Block {
    pub fn get_hash(&self) -> (r: String)
        ensures
            r@ == self.spec_hash(),
    {
        self.hash.clone()
    }

    pub fn get_prev_hash(&self) -> (r: String)
        ensures
            r@ == self.spec_prev_hash(),
    {
        self.prev_block_hash.clone()
    }

    pub fn get_transactions(&self) -> (r: &Vec<Transaction>)
        ensures
            r@ == self.spec_transactions(),
    {
        &self.transactions
    }

    pub fn get_height(&self) -> (r: u32)
        ensures
            r == self.spec_height(),
    {
        self.height
    }

    pub fn get_timestamp(&self) -> (r: u64)
        ensures
            r == self.spec_timestamp(),
    {
        self.timestamp
    }

    pub fn get_nonce(&self) -> (r: u64)
        ensures
            r == self.spec_nonce(),
    {
        self.nonce
    }

    /// Reassembles a block from stored fields, exactly as they were read.
    /// Nothing is checked here: `validate` says whether the fields seal.
    pub fn from_parts(
        timestamp: u64,
        transactions: Vec<Transaction>,
        prev_block_hash: String,
        hash: String,
        nonce: u64,
        height: u32,
    ) -> (r: Block)
        ensures
            r.spec_timestamp() == timestamp,
            r.spec_transactions() == transactions@,
            r.spec_prev_hash() == prev_block_hash@,
            r.spec_hash() == hash@,
            r.spec_nonce() == nonce,
            r.spec_height() == height,
    {
        Block { timestamp, transactions, prev_block_hash, hash, nonce, height }
    }

    /// Seals a new block over the given transactions at the given timestamp,
    /// with the least qualifying nonce. It fails, with `NonceExhausted`, only
    /// when no nonce in the whole search space seals this content.
    pub fn new_block_with_time(
        data: Vec<Transaction>,
        prev_block_hash: String,
        height: u32,
        timestamp: u64,
    ) -> (r: Result<Block, LedgerError>)
        ensures
            r matches Ok(b) ==> {
                &&& b.spec_sealed()
                &&& b.spec_min_nonce()
                &&& b.spec_transactions() == data@
                &&& b.spec_prev_hash() == prev_block_hash@
                &&& b.spec_height() == height
                &&& b.spec_timestamp() == timestamp
            },
            r matches Err(e) ==> e == LedgerError::NonceExhausted && no_nonce_seals(
                prev_block_hash@,
                data@,
                timestamp,
                TARGET_HEXS as u64,
            ),
    {
        match seal(prev_block_hash.as_str(), &data, timestamp, TARGET_HEXS) {
            Some((hash, nonce)) => Ok(
                Block {
                    timestamp,
                    transactions: data,
                    prev_block_hash,
                    hash,
                    nonce,
                    height,
                },
            ),
            None => Err(LedgerError::NonceExhausted),
        }
    }

    /// Stamps the current time and seals a new block with the least
    /// qualifying nonce. Fails with `Clock` when the system time cannot be
    /// read, and with `NonceExhausted` only when no nonce seals the content
    /// at the stamped time.
    pub fn new_block(data: Vec<Transaction>, prev_block_hash: String, height: u32) -> (r: Result<
        Block,
        LedgerError,
    >)
        ensures
            r matches Ok(b) ==> {
                &&& b.spec_sealed()
                &&& b.spec_min_nonce()
                &&& b.spec_transactions() == data@
                &&& b.spec_prev_hash() == prev_block_hash@
                &&& b.spec_height() == height
            },
            r matches Err(e) ==> (e == LedgerError::Clock || (e == LedgerError::NonceExhausted
                && exists|ts: u64|
                #[trigger] no_nonce_seals(prev_block_hash@, data@, ts, TARGET_HEXS as u64))),
    {
        match current_time_millis() {
            Some(timestamp) => {
                let r = Self::new_block_with_time(data, prev_block_hash, height, timestamp);
                proof {
                    if r is Err {
                        assert(no_nonce_seals(
                            prev_block_hash@,
                            data@,
                            timestamp,
                            TARGET_HEXS as u64,
                        ));
                    }
                }
                r
            },
            None => Err(LedgerError::Clock),
        }
    }

    /// Seals the genesis block: empty parent hash, height zero, holding only
    /// the given coinbase transaction, with the least qualifying nonce.
    pub fn new_genesis_block(coinbase: Transaction) -> (r: Result<Block, LedgerError>)
        ensures
            r matches Ok(b) ==> {
                &&& b.spec_sealed()
                &&& b.spec_min_nonce()
                &&& b.spec_transactions() =~= seq![coinbase]
                &&& b.spec_prev_hash() == Seq::<char>::empty()
                &&& b.spec_height() == 0
            },
            r matches Err(e) ==> (e == LedgerError::Clock || (e == LedgerError::NonceExhausted
                && exists|ts: u64|
                #[trigger] no_nonce_seals(
                    Seq::<char>::empty(),
                    seq![coinbase],
                    ts,
                    TARGET_HEXS as u64,
                ))),
    {
        let mut data: Vec<Transaction> = Vec::new();
        data.push(coinbase);
        proof {
            assert(data@ =~= seq![coinbase]);
        }
        let prev = String::new();
        let ghost gdata = data@;
        let r = Self::new_block(data, prev, 0);
        proof {
            if r is Err && r->Err_0 == LedgerError::NonceExhausted {
                let ts = choose|ts: u64|
                    #[trigger] no_nonce_seals(Seq::<char>::empty(), gdata, ts, TARGET_HEXS as u64);
                assert(no_nonce_seals(Seq::<char>::empty(), seq![coinbase], ts, TARGET_HEXS as u64));
            }
        }
        r
    }

    /// Recomputes the digest from the stored fields and re-checks the
    /// difficulty prefix; independent of how the block was produced.
    pub fn validate(&self) -> (r: bool)
        ensures
            r == self.spec_validate(),
    {
        let h = compute_block_hash(
            self.prev_block_hash.as_str(),
            &self.transactions,
            self.timestamp,
            TARGET_HEXS as u64,
            self.nonce,
        );
        check_leading_zeros(h.as_str(), TARGET_HEXS)
    }
}

/// Every block the sealer produces validates, and recomputing the digest from
/// its stored fields reproduces its stored hash exactly.
pub proof fn lemma_sealed_block_validates(b: Block)
    requires
        b.spec_sealed(),
    ensures
        b.spec_validate(),
        b.spec_recomputed_hash() == b.spec_hash(),
{
}

} // verus!
