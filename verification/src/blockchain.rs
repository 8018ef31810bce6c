use crate::block::{block_eqv, no_nonce_seals, Block, TARGET_HEXS};
use crate::errors::LedgerError;
use crate::transaction::{spec_is_coinbase, Transaction};
use crate::transaction::{tx_eqv, txs_eqv};
use crate::utxo::{
    entries_match, greedy_n, greedy_stop, lemma_entries_match_extend, lemma_greedy, lemma_sum_upto_bound,
    lemma_sum_upto_monotone, lemma_txs_eqv_extend, scan_tx, sum_values, sum_values_upto,
    tx_entries, tx_spends, txs_entries, txs_spent, txs_unspent, SpentSet, UtxoEntry,
};
use vstd::prelude::*;
use vstd::string::StringExecFns;

verus! {

/// The first stored block whose hash is `h`, scanning from position `i`.
pub open spec fn lookup_from(store: Seq<Block>, h: Seq<char>, i: int) -> Option<Block>
    decreases store.len() - i,
{
    if i < 0 || i >= store.len() {
        Option::None
    } else if store[i].spec_hash() == h {
        Option::Some(store[i])
    } else {
        lookup_from(store, h, i + 1)
    }
}

/// The stored block a hash resolves to, if any.
pub open spec fn lookup(store: Seq<Block>, h: Seq<char>) -> Option<Block> {
    lookup_from(store, h, 0)
}

/// Whether some stored block carries this hash.
pub open spec fn contains_hash(store: Seq<Block>, h: Seq<char>) -> bool {
    lookup(store, h) is Some
}

/// No two stored blocks share a hash: the store behaves as a map keyed by it.
pub open spec fn hashes_unique(store: Seq<Block>) -> bool {
    forall|i: int, j: int|
        0 <= i < j < store.len() ==> (#[trigger] store[i]).spec_hash() != (
        #[trigger] store[j]).spec_hash()
}

/// A lookup is `None` exactly when no block from position `i` on matches, and
/// a found block really is a stored one carrying the hash.
pub proof fn lemma_lookup_from_props(store: Seq<Block>, h: Seq<char>, i: int)
    requires
        0 <= i <= store.len(),
    ensures
        (lookup_from(store, h, i) is None) <==> (forall|j: int|
            i <= j < store.len() ==> (#[trigger] store[j]).spec_hash() != h),
        lookup_from(store, h, i) matches Some(b) ==> b.spec_hash() == h && exists|j: int|
            i <= j < store.len() && store[j] == b,
    decreases store.len() - i,
{
    if i < store.len() && store[i].spec_hash() != h {
        lemma_lookup_from_props(store, h, i + 1);
    }
}

/// How a lookup behaves after one block is appended: anything found before is
/// still found first; a fresh hash finds the new block.
pub proof fn lemma_lookup_push(store: Seq<Block>, b: Block, h: Seq<char>, i: int)
    requires
        0 <= i <= store.len(),
    ensures
        lookup_from(store.push(b), h, i) == (if lookup_from(store, h, i) is Some {
            lookup_from(store, h, i)
        } else if b.spec_hash() == h {
            Option::Some(b)
        } else {
            Option::<Block>::None
        }),
    decreases store.len() - i,
{
    let pushed = store.push(b);
    assert(pushed.len() == store.len() + 1);
    if i < store.len() {
        assert(pushed[i] == store[i]);
        if store[i].spec_hash() != h {
            lemma_lookup_push(store, b, h, i + 1);
        }
    } else {
        assert(pushed[i] == b);
    }
}

/// The chain a traversal from `h` yields: each step resolves the hash in the
/// store and follows the block's parent link, for at most `fuel` steps. A
/// store holds each hash once, so a terminating walk never needs more steps
/// than the store has blocks.
pub open spec fn chain_from(store: Seq<Block>, h: Seq<char>, fuel: nat) -> Seq<Block>
    decreases fuel,
{
    if fuel == 0 {
        Seq::empty()
    } else {
        match lookup(store, h) {
            Option::Some(b) => seq![b] + chain_from(store, b.spec_prev_hash(), (fuel - 1) as nat),
            Option::None => Seq::empty(),
        }
    }
}

/// The unspent entries a chain contributes for an address, newest block
/// first, threading the spent-set block to block.
pub open spec fn chain_entries(
    chain: Seq<Block>,
    addr: Seq<char>,
    spent: Set<(Seq<char>, int)>,
) -> Seq<(Seq<char>, int, crate::transaction::TXOutput)>
    decreases chain.len(),
{
    if chain.len() == 0 {
        Seq::empty()
    } else {
        txs_entries(chain[0].spec_transactions(), addr, spent) + chain_entries(
            chain.skip(1),
            addr,
            txs_spent(chain[0].spec_transactions(), addr, spent),
        )
    }
}

/// The transactions along a chain that hold at least one unspent entry for
/// the address, newest block first.
pub open spec fn chain_unspent(
    chain: Seq<Block>,
    addr: Seq<char>,
    spent: Set<(Seq<char>, int)>,
) -> Seq<Transaction>
    decreases chain.len(),
{
    if chain.len() == 0 {
        Seq::empty()
    } else {
        txs_unspent(chain[0].spec_transactions(), addr, spent) + chain_unspent(
            chain.skip(1),
            addr,
            txs_spent(chain[0].spec_transactions(), addr, spent),
        )
    }
}

/// All unspent entries the scan of a chain returns for an address.
pub open spec fn utxos_of(chain: Seq<Block>, addr: Seq<char>) -> Seq<
    (Seq<char>, int, crate::transaction::TXOutput),
> {
    chain_entries(chain, addr, Set::empty())
}

/// All transactions the scan reports as holding unspent outputs.
pub open spec fn unspent_txs_of(chain: Seq<Block>, addr: Seq<char>) -> Seq<Transaction> {
    chain_unspent(chain, addr, Set::empty())
}

/// The height of the block the tip points at, or -1 for an empty store.
pub open spec fn best_height_of(store: Seq<Block>, tip: Seq<char>) -> int {
    if store.len() == 0 {
        -1
    } else {
        match lookup(store, tip) {
            Option::Some(b) => b.spec_height() as int,
            Option::None => -1,
        }
    }
}

/// What storing one block does: nothing when its hash is already present;
/// otherwise the block is appended and the tip advances to it exactly when
/// its height exceeds the present best height.
pub open spec fn spec_add_block(store: Seq<Block>, tip: Seq<char>, b: Block) -> (
    Seq<Block>,
    Seq<char>,
) {
    if contains_hash(store, b.spec_hash()) {
        (store, tip)
    } else {
        (
            store.push(b),
            if b.spec_height() as int > best_height_of(store, tip) {
                b.spec_hash()
            } else {
                tip
            },
        )
    }
}

/// Storing the same block twice leaves the store and the tip exactly as the
/// first storing left them.
pub proof fn lemma_add_block_idempotent(store: Seq<Block>, tip: Seq<char>, b: Block)
    ensures
        ({
            let once = spec_add_block(store, tip, b);
            spec_add_block(once.0, once.1, b) == once
        }),
{
    let once = spec_add_block(store, tip, b);
    if !contains_hash(store, b.spec_hash()) {
        lemma_lookup_push(store, b, b.spec_hash(), 0);
    }
}

/// The in-memory ledger store: blocks keyed by their hash, plus the tip
/// pointer. The persistence layer around the library reads and writes this
/// through `from_parts` and the getters.
#[derive(Debug)]
pub struct Blockchain {
    blocks: Vec<Block>,
    current_hash: String,
}

/// A cursor for backward traversal: it holds the hash to resolve next and
/// walks parent links until a lookup fails.
pub struct BlockchainIter<'a> {
    current_hash: String,
    bc: &'a Blockchain,
}

impl Blockchain {
    pub closed spec fn store(&self) -> Seq<Block> {
        self.blocks@
    }

    pub closed spec fn tip(&self) -> Seq<char> {
        self.current_hash@
    }

    /// The store is a map: hashes are unique, and the tip resolves (an empty
    /// store carries an empty tip).
    pub open spec fn wf(&self) -> bool {
        &&& hashes_unique(self.store())
        &&& (self.store().len() == 0 ==> self.tip() == Seq::<char>::empty())
        &&& (self.store().len() > 0 ==> contains_hash(self.store(), self.tip()))
    }

    /// The chain the backward traversal yields from the tip.
    pub open spec fn chain_of(&self) -> Seq<Block> {
        chain_from(self.store(), self.tip(), self.store().len() as nat)
    }

    pub open spec fn spec_best_height(&self) -> int {
        best_height_of(self.store(), self.tip())
    }

    /// The spendable total of an address: the summed values of the unspent
    /// entries the chain scan yields for it.
    pub open spec fn spec_balance(&self, addr: Seq<char>) -> int {
        sum_values(utxos_of(self.chain_of(), addr))
    }

    /// The first stored block carrying this hash, if any.
    fn find_block(&self, h: &str) -> (r: Option<&Block>)
        ensures
            match r {
                Option::Some(b) => lookup(self.store(), h@) == Option::Some(*b),
                Option::None => lookup(self.store(), h@) is None,
            },
    {
        let key: String = h.to_owned();
        let mut i: usize = 0;
        while i < self.blocks.len()
            invariant
                i <= self.blocks@.len(),
                key@ == h@,
                lookup(self.store(), h@) == lookup_from(self.store(), h@, i as int),
            decreases self.blocks@.len() - i,
        {
            let bh = self.blocks[i].get_hash();
            if bh.eq(&key) {
                return Some(&self.blocks[i]);
            }
            i = i + 1;
        }
        None
    }

    /// Finds a block by its hash; `NotFound` when the store has no such key.
    pub fn get_block(&self, block_hash: &str) -> (r: Result<Block, LedgerError>)
        ensures
            r matches Ok(b) ==> lookup(self.store(), block_hash@) matches Some(sb) && block_eqv(
                b,
                sb,
            ),
            r matches Err(e) ==> e == LedgerError::NotFound && lookup(
                self.store(),
                block_hash@,
            ) is None,
            r is Ok <==> contains_hash(self.store(), block_hash@),
    {
        match self.find_block(block_hash) {
            Some(b) => Ok(b.clone()),
            None => Err(LedgerError::NotFound),
        }
    }

    /// The height of the tip block, or -1 when the store is empty.
    pub fn get_best_height(&self) -> (r: Result<i64, LedgerError>)
        requires
            self.wf(),
        ensures
            r matches Ok(h) && h == self.spec_best_height(),
    {
        if self.blocks.len() == 0 {
            return Ok(-1);
        }
        match self.find_block(self.current_hash.as_str()) {
            Some(b) => Ok(b.get_height() as i64),
            None => {
                proof {
                    assert(false);
                }
                Err(LedgerError::NotFound)
            },
        }
    }

    /// Opens a fresh ledger: mints the genesis coinbase for `address` with
    /// the fixed genesis memo, seals the genesis block with the least
    /// qualifying nonce, and points the tip at it. `NonceExhausted` can come
    /// only when no nonce seals a genesis over such a coinbase.
    #[verifier::rlimit(50)]
    pub fn create_blockchain(address: String) -> (r: Result<Blockchain, LedgerError>)
        ensures
            r matches Ok(bc) ==> ({
                &&& bc.wf()
                &&& bc.store().len() == 1
                &&& bc.chain_of() =~= bc.store()
                &&& bc.store()[0].spec_sealed()
                &&& bc.store()[0].spec_min_nonce()
                &&& bc.store()[0].spec_height() == 0
                &&& bc.store()[0].spec_prev_hash().len() == 0
                &&& bc.tip() == bc.store()[0].spec_hash()
                &&& ({
                    let txs = bc.store()[0].spec_transactions();
                    &&& txs.len() == 1
                    &&& spec_is_coinbase(txs[0])
                    &&& txs[0].vin@[0].script_sig@ == "GENESIS_COINBASE_DATA"@
                    &&& txs[0].vout@.len() == 1
                    &&& txs[0].vout@[0].value == crate::transaction::REWARD
                    &&& txs[0].vout@[0].script_pub_key@ == address@
                })
            }),
            r matches Err(e) ==> (e == LedgerError::Clock || (e == LedgerError::NonceExhausted
                && exists|tx: Transaction, ts: u64|
                spec_is_coinbase(tx) && tx.vout@.len() == 1 && tx.vout@[0].script_pub_key@
                    == address@ && #[trigger] no_nonce_seals(
                    Seq::<char>::empty(),
                    seq![tx],
                    ts,
                    TARGET_HEXS as u64,
                ))),
    {
        let data = String::from_str("GENESIS_COINBASE_DATA");
        proof {
            reveal_strlit("GENESIS_COINBASE_DATA");
            assert(data@.len() != 0);
        }
        let cbtx = match Transaction::new_coinbase(address, data) {
            Ok(t) => t,
            Err(e) => {
                proof {
                    assert(false);
                }
                return Err(e);
            },
        };
        let ghost gcb = cbtx;
        let genesis = match Block::new_genesis_block(cbtx) {
            Ok(g) => g,
            Err(e) => {
                proof {
                    if e == LedgerError::NonceExhausted {
                        let ts = choose|ts: u64|
                            #[trigger] no_nonce_seals(
                                Seq::<char>::empty(),
                                seq![gcb],
                                ts,
                                TARGET_HEXS as u64,
                            );
                        assert(spec_is_coinbase(gcb) && gcb.vout@.len() == 1
                            && gcb.vout@[0].script_pub_key@ == address@ && no_nonce_seals(
                            Seq::<char>::empty(),
                            seq![gcb],
                            ts,
                            TARGET_HEXS as u64,
                        ));
                    }
                }
                return Err(e);
            },
        };
        let h = genesis.get_hash();
        let mut blocks: Vec<Block> = Vec::new();
        blocks.push(genesis);
        let bc = Blockchain { blocks, current_hash: h };
        proof {
            assert(bc.store().len() == 1);
            assert(lookup_from(bc.store(), bc.tip(), 0) == Option::Some(bc.store()[0]));
            assert(bc.chain_of() == chain_from(bc.store(), bc.tip(), 1nat));
            assert(chain_from(bc.store(), bc.store()[0].spec_prev_hash(), 0nat)
                =~= Seq::<Block>::empty());
            assert(bc.chain_of() =~= bc.store());
        }
        Ok(bc)
    }

    /// Whether a tip string is consistent with a store: an empty store takes
    /// only the empty tip; otherwise the tip must resolve.
    pub open spec fn tip_ok(store: Seq<Block>, tip: Seq<char>) -> bool {
        if store.len() == 0 {
            tip.len() == 0
        } else {
            contains_hash(store, tip)
        }
    }

    /// Reassembles a store from persisted blocks and the persisted tip,
    /// validating that the blocks carry pairwise distinct hashes and that the
    /// tip resolves. `Encoding` reports duplicate hashes, `NotFound` a tip
    /// that no stored block carries.
    pub fn from_parts(blocks: Vec<Block>, tip: String) -> (r: Result<Blockchain, LedgerError>)
        ensures
            r matches Ok(bc) ==> bc.wf() && bc.store() == blocks@ && bc.tip() == tip@,
            r is Ok <==> hashes_unique(blocks@) && Self::tip_ok(blocks@, tip@),
            !hashes_unique(blocks@) ==> r == Err::<Blockchain, LedgerError>(LedgerError::Encoding),
            hashes_unique(blocks@) && !Self::tip_ok(blocks@, tip@) ==> r == Err::<
                Blockchain,
                LedgerError,
            >(LedgerError::NotFound),
    {
        let n = blocks.len();
        let mut i: usize = 0;
        while i < n
            invariant
                n == blocks@.len(),
                i <= n,
                forall|a: int, b: int|
                    0 <= a < b < n && a < i ==> (#[trigger] blocks@[a]).spec_hash() != (
                    #[trigger] blocks@[b]).spec_hash(),
            decreases n - i,
        {
            let hi = blocks[i].get_hash();
            let mut j: usize = i + 1;
            while j < n
                invariant
                    n == blocks@.len(),
                    i + 1 <= j <= n,
                    i < n,
                    hi@ == blocks@[i as int].spec_hash(),
                    forall|b: int| i < b < j ==> (#[trigger] blocks@[b]).spec_hash() != hi@,
                decreases n - j,
            {
                let hj = blocks[j].get_hash();
                if hj.eq(&hi) {
                    proof {
                        assert(blocks@[i as int].spec_hash() == blocks@[j as int].spec_hash());
                        assert(!hashes_unique(blocks@));
                    }
                    return Err(LedgerError::Encoding);
                }
                j = j + 1;
            }
            i = i + 1;
        }
        proof {
            assert(hashes_unique(blocks@));
        }
        let bc = Blockchain { blocks, current_hash: tip };
        if bc.blocks.len() == 0 {
            if bc.current_hash.as_str().is_empty() {
                proof {
                    assert(bc.tip() =~= Seq::<char>::empty());
                }
                Ok(bc)
            } else {
                Err(LedgerError::NotFound)
            }
        } else {
            let found = bc.find_block_exists();
            if found {
                Ok(bc)
            } else {
                Err(LedgerError::NotFound)
            }
        }
    }

    /// Whether the tip hash resolves in the store.
    fn find_block_exists(&self) -> (r: bool)
        ensures
            r == contains_hash(self.store(), self.tip()),
    {
        let r = self.find_block(self.current_hash.as_str());
        r.is_some()
    }

    /// Stores a block under its hash. A duplicate hash makes this a no-op;
    /// otherwise the block is appended, and the tip advances to it exactly
    /// when its height exceeds the present best height.
    pub fn add_block(&mut self, block: Block) -> (r: Result<(), LedgerError>)
        requires
            old(self).wf(),
        ensures
            r is Ok,
            final(self).wf(),
            (final(self).store(), final(self).tip()) == spec_add_block(
                old(self).store(),
                old(self).tip(),
                block,
            ),
    {
        let h = block.get_hash();
        let dup = self.find_block(h.as_str()).is_some();
        if dup {
            return Ok(());
        }
        let best: i64 = match self.get_best_height() {
            Ok(v) => v,
            Err(_) => {
                proof {
                    assert(false);
                }
                return Err(LedgerError::NotFound);
            },
        };
        let advance = (block.get_height() as i64) > best;
        proof {
            lemma_lookup_from_props(self.store(), block.spec_hash(), 0);
        }
        let ghost oldstore = self.store();
        let ghost oldtip = self.tip();
        self.blocks.push(block);
        if advance {
            self.current_hash = h;
        }
        proof {
            let b = oldstore.len() as int;
            assert(self.store() == oldstore.push(block));
            assert forall|a: int, c: int|
                0 <= a < c < self.store().len() implies (#[trigger] self.store()[a]).spec_hash()
                != (#[trigger] self.store()[c]).spec_hash() by {
                if c < oldstore.len() {
                    assert(self.store()[a] == oldstore[a]);
                    assert(self.store()[c] == oldstore[c]);
                } else {
                    assert(self.store()[c] == block);
                    assert(self.store()[a] == oldstore[a]);
                }
            }
            if advance {
                lemma_lookup_push(oldstore, block, block.spec_hash(), 0);
            } else {
                assert(oldstore.len() > 0);
                lemma_lookup_push(oldstore, block, oldtip, 0);
            }
        }
        Ok(())
    }

    /// Mines a block holding `transactions` on top of the tip (parent = tip
    /// hash, height = best height + 1, least qualifying nonce) and stores it.
    /// `NonceExhausted` can come only when no nonce seals this content at
    /// some stamped time; the store is untouched on any failure.
    pub fn add_block_with_tx(&mut self, transactions: Vec<Transaction>) -> (r: Result<
        (),
        LedgerError,
    >)
        requires
            old(self).wf(),
            old(self).spec_best_height() < u32::MAX as int,
        ensures
            final(self).wf(),
            r matches Ok(_) ==> exists|b: Block|
                {
                    &&& #[trigger] b.spec_sealed()
                    &&& b.spec_min_nonce()
                    &&& b.spec_transactions() == transactions@
                    &&& b.spec_prev_hash() == old(self).tip()
                    &&& b.spec_height() as int == old(self).spec_best_height() + 1
                    &&& (final(self).store(), final(self).tip()) == spec_add_block(
                        old(self).store(),
                        old(self).tip(),
                        b,
                    )
                },
            r matches Err(e) ==> (e == LedgerError::Clock || (e == LedgerError::NonceExhausted
                && exists|ts: u64|
                #[trigger] no_nonce_seals(old(self).tip(), transactions@, ts, TARGET_HEXS as u64)))
                && final(self).store() == old(self).store() && final(self).tip() == old(
                self,
            ).tip(),
    {
        let best: i64 = match self.get_best_height() {
            Ok(v) => v,
            Err(_) => {
                proof {
                    assert(false);
                }
                return Err(LedgerError::NotFound);
            },
        };
        let prev = self.current_hash.clone();
        let ghost gprev = prev@;
        let height: u32 = (best + 1) as u32;
        let block = match Block::new_block(transactions, prev, height) {
            Ok(b) => b,
            Err(e) => {
                proof {
                    if e == LedgerError::NonceExhausted {
                        let ts = choose|ts: u64|
                            #[trigger] no_nonce_seals(gprev, transactions@, ts, TARGET_HEXS as u64);
                        assert(no_nonce_seals(old(self).tip(), transactions@, ts, TARGET_HEXS as u64));
                    }
                }
                return Err(e);
            },
        };
        let ghost gb = block;
        let r = self.add_block(block);
        proof {
            assert(gb.spec_sealed());
        }
        r
    }

    /// Every stored block, in storage order, for the persistence layer to
    /// write out.
    pub fn get_blocks(&self) -> (r: &Vec<Block>)
        ensures
            r@ == self.store(),
    {
        &self.blocks
    }

    /// The tip hash, for the persistence layer to write out.
    pub fn get_tip_hash(&self) -> (r: String)
        ensures
            r@ == self.tip(),
    {
        self.current_hash.clone()
    }

    /// A cursor over the chain, starting at the tip.
    pub fn iter(&self) -> (r: BlockchainIter)
        ensures
            r.spec_bc() == *self,
            r.spec_cur() == self.tip(),
    {
        BlockchainIter { current_hash: self.current_hash.clone(), bc: self }
    }
}

impl<'a> BlockchainIter<'a> {
    pub closed spec fn spec_cur(&self) -> Seq<char> {
        self.current_hash@
    }

    pub closed spec fn spec_bc(&self) -> Blockchain {
        *self.bc
    }

    /// One traversal step: resolve the held hash; when a block is found,
    /// yield it and hold its parent hash next. A failed lookup ends the walk.
    pub fn next(&mut self) -> (r: Option<Block>)
        ensures
            final(self).spec_bc() == old(self).spec_bc(),
            match lookup(old(self).spec_bc().store(), old(self).spec_cur()) {
                Option::Some(b) => {
                    &&& r matches Some(rb) && block_eqv(rb, b)
                    &&& final(self).spec_cur() == b.spec_prev_hash()
                },
                Option::None => r is None && final(self).spec_cur() == old(self).spec_cur(),
            },
    {
        match self.bc.find_block(self.current_hash.as_str()) {
            Some(b) => {
                let rb = b.clone();
                self.current_hash = b.get_prev_hash();
                Some(rb)
            },
            None => None,
        }
    }
}


/// The first transaction in a batch whose id is `id`.
pub open spec fn find_tx_in_txs(txs: Seq<Transaction>, id: Seq<char>) -> Option<Transaction>
    decreases txs.len(),
{
    if txs.len() == 0 {
        Option::None
    } else if txs[0].id@ == id {
        Option::Some(txs[0])
    } else {
        find_tx_in_txs(txs.skip(1), id)
    }
}

/// The first transaction along a chain whose id is `id`, newest block first.
pub open spec fn find_tx_in_chain(chain: Seq<Block>, id: Seq<char>) -> Option<Transaction>
    decreases chain.len(),
{
    if chain.len() == 0 {
        Option::None
    } else {
        match find_tx_in_txs(chain[0].spec_transactions(), id) {
            Option::Some(t) => Option::Some(t),
            Option::None => find_tx_in_chain(chain.skip(1), id),
        }
    }
}

impl Blockchain {
    /// Walks the chain from the tip and collects, for the address, every
    /// unspent entry and every transaction holding one.
    fn scan(&self, address: &str) -> (r: (Vec<UtxoEntry>, Vec<Transaction>))
        ensures
            entries_match(r.0@, utxos_of(self.chain_of(), address@)),
            txs_eqv(r.1@, unspent_txs_of(self.chain_of(), address@)),
    {
        let addr: String = address.to_owned();
        let mut entries: Vec<UtxoEntry> = Vec::new();
        let mut utxs: Vec<Transaction> = Vec::new();
        let mut spent = SpentSet::new();
        let mut cur: String = self.current_hash.clone();
        let mut fuel: usize = self.blocks.len();
        let ghost mut done_e: Seq<(Seq<char>, int, crate::transaction::TXOutput)> = Seq::empty();
        let ghost mut done_t: Seq<Transaction> = Seq::empty();
        proof {
            assert(done_e + chain_entries(self.chain_of(), address@, spent@) =~= chain_entries(
                self.chain_of(),
                address@,
                spent@,
            ));
            assert(done_t + chain_unspent(self.chain_of(), address@, spent@) =~= chain_unspent(
                self.chain_of(),
                address@,
                spent@,
            ));
        }
        loop
            invariant
                addr@ == address@,
                entries_match(entries@, done_e),
                txs_eqv(utxs@, done_t),
                utxos_of(self.chain_of(), address@) == done_e + chain_entries(
                    chain_from(self.store(), cur@, fuel as nat),
                    address@,
                    spent@,
                ),
                unspent_txs_of(self.chain_of(), address@) == done_t + chain_unspent(
                    chain_from(self.store(), cur@, fuel as nat),
                    address@,
                    spent@,
                ),
            ensures
                entries_match(entries@, utxos_of(self.chain_of(), address@)),
                txs_eqv(utxs@, unspent_txs_of(self.chain_of(), address@)),
            decreases fuel,
        {
            if fuel == 0 {
                proof {
                    assert(chain_from(self.store(), cur@, fuel as nat) =~= Seq::<Block>::empty());
                    assert(done_e + chain_entries(
                        chain_from(self.store(), cur@, fuel as nat),
                        address@,
                        spent@,
                    ) =~= done_e);
                    assert(done_t + chain_unspent(
                        chain_from(self.store(), cur@, fuel as nat),
                        address@,
                        spent@,
                    ) =~= done_t);
                }
                break;
            }
            let ob = self.find_block(cur.as_str());
            match ob {
                Option::None => {
                    proof {
                        assert(chain_from(self.store(), cur@, fuel as nat)
                            =~= Seq::<Block>::empty());
                        assert(done_e + chain_entries(
                            chain_from(self.store(), cur@, fuel as nat),
                            address@,
                            spent@,
                        ) =~= done_e);
                        assert(done_t + chain_unspent(
                            chain_from(self.store(), cur@, fuel as nat),
                            address@,
                            spent@,
                        ) =~= done_t);
                    }
                    break;
                },
                Option::Some(b) => {
                    let ghost cf = chain_from(self.store(), cur@, fuel as nat);
                    let ghost rest = chain_from(
                        self.store(),
                        b.spec_prev_hash(),
                        (fuel - 1) as nat,
                    );
                    proof {
                        assert(cf == seq![*b] + rest);
                        assert(cf[0] == *b);
                        assert(cf.skip(1) =~= rest);
                        assert(chain_entries(cf, address@, spent@) == txs_entries(
                            b.spec_transactions(),
                            address@,
                            spent@,
                        ) + chain_entries(
                            rest,
                            address@,
                            txs_spent(b.spec_transactions(), address@, spent@),
                        ));
                        assert(chain_unspent(cf, address@, spent@) == txs_unspent(
                            b.spec_transactions(),
                            address@,
                            spent@,
                        ) + chain_unspent(
                            rest,
                            address@,
                            txs_spent(b.spec_transactions(), address@, spent@),
                        ));
                    }
                    let txs = b.get_transactions();
                    let ghost btxs = txs@;
                    let mut j: usize = 0;
                    proof {
                        assert(btxs.skip(0) =~= btxs);
                        assert(utxos_of(self.chain_of(), address@) =~= done_e + txs_entries(
                            btxs.skip(0),
                            address@,
                            spent@,
                        ) + chain_entries(
                            rest,
                            address@,
                            txs_spent(btxs.skip(0), address@, spent@),
                        ));
                        assert(unspent_txs_of(self.chain_of(), address@) =~= done_t + txs_unspent(
                            btxs.skip(0),
                            address@,
                            spent@,
                        ) + chain_unspent(
                            rest,
                            address@,
                            txs_spent(btxs.skip(0), address@, spent@),
                        ));
                    }
                    while j < txs.len()
                        invariant
                            addr@ == address@,
                            j <= btxs.len(),
                            txs@ == btxs,
                            entries_match(entries@, done_e),
                            txs_eqv(utxs@, done_t),
                            utxos_of(self.chain_of(), address@) == done_e + txs_entries(
                                btxs.skip(j as int),
                                address@,
                                spent@,
                            ) + chain_entries(
                                rest,
                                address@,
                                txs_spent(btxs.skip(j as int), address@, spent@),
                            ),
                            unspent_txs_of(self.chain_of(), address@) == done_t + txs_unspent(
                                btxs.skip(j as int),
                                address@,
                                spent@,
                            ) + chain_unspent(
                                rest,
                                address@,
                                txs_spent(btxs.skip(j as int), address@, spent@),
                            ),
                        decreases btxs.len() - j,
                    {
                        let ghost sj = btxs.skip(j as int);
                        let ghost spentj = spent@;
                        let ghost spentnext = spentj.union(tx_spends(btxs[j as int], address@));
                        proof {
                            assert(sj[0] == btxs[j as int]);
                            assert(sj.skip(1) =~= btxs.skip(j + 1));
                            assert(txs_entries(sj, address@, spentj) == tx_entries(
                                btxs[j as int],
                                address@,
                                spentj,
                            ) + txs_entries(btxs.skip(j + 1), address@, spentnext));
                            assert(txs_unspent(sj, address@, spentj) == (if tx_entries(
                                btxs[j as int],
                                address@,
                                spentj,
                            ).len() > 0 {
                                seq![btxs[j as int]]
                            } else {
                                Seq::<Transaction>::empty()
                            }) + txs_unspent(btxs.skip(j + 1), address@, spentnext));
                            assert(txs_spent(sj, address@, spentj) == txs_spent(
                                btxs.skip(j + 1),
                                address@,
                                spentnext,
                            ));
                        }
                        let ghost e0 = entries@;
                        let ghost t0 = utxs@;
                        scan_tx(&txs[j], &addr, &mut spent, &mut entries, &mut utxs);
                        proof {
                            let tpart = tx_entries(btxs[j as int], address@, spentj);
                            assert(entries@.take(e0.len() as int) == e0);
                            assert(entries_match(entries@.take(e0.len() as int), done_e));
                            lemma_entries_match_extend(entries@, e0.len() as int, done_e, tpart);
                            done_e = done_e + tpart;
                            let upart = if tpart.len() > 0 {
                                seq![btxs[j as int]]
                            } else {
                                Seq::<Transaction>::empty()
                            };
                            assert(utxs@.take(t0.len() as int) == t0);
                            assert(txs_eqv(utxs@.take(t0.len() as int), done_t));
                            lemma_txs_eqv_extend(utxs@, t0.len() as int, done_t, upart);
                            done_t = done_t + upart;
                            assert(spent@ == spentnext);
                            assert(utxos_of(self.chain_of(), address@) =~= done_e + txs_entries(
                                btxs.skip(j + 1),
                                address@,
                                spent@,
                            ) + chain_entries(
                                rest,
                                address@,
                                txs_spent(btxs.skip(j + 1), address@, spent@),
                            ));
                            assert(unspent_txs_of(self.chain_of(), address@) =~= done_t
                                + txs_unspent(btxs.skip(j + 1), address@, spent@) + chain_unspent(
                                rest,
                                address@,
                                txs_spent(btxs.skip(j + 1), address@, spent@),
                            ));
                        }
                        j = j + 1;
                    }
                    proof {
                        assert(btxs.skip(btxs.len() as int) =~= Seq::<Transaction>::empty());
                        assert(txs_entries(
                            btxs.skip(btxs.len() as int),
                            address@,
                            spent@,
                        ) =~= Seq::<(Seq<char>, int, crate::transaction::TXOutput)>::empty());
                        assert(txs_spent(btxs.skip(btxs.len() as int), address@, spent@)
                            == spent@);
                        assert(txs_unspent(btxs.skip(btxs.len() as int), address@, spent@)
                            =~= Seq::<Transaction>::empty());
                        assert(utxos_of(self.chain_of(), address@) =~= done_e + chain_entries(
                            rest,
                            address@,
                            spent@,
                        ));
                        assert(unspent_txs_of(self.chain_of(), address@) =~= done_t
                            + chain_unspent(rest, address@, spent@));
                    }
                    cur = b.get_prev_hash();
                    fuel = fuel - 1;
                },
            }
        }
        (entries, utxs)
    }

    /// Every unspent output the chain holds for the address, newest first:
    /// the mapping from transaction id and output index to the output.
    pub fn find_unspent_outputs_for(&self, address: &str) -> (r: Vec<UtxoEntry>)
        ensures
            entries_match(r@, utxos_of(self.chain_of(), address@)),
    {
        let r = self.scan(address);
        r.0
    }

    /// The transactions that hold at least one unspent output for the
    /// address, newest first.
    pub fn find_unspent_transactions(&self, address: &str) -> (r: Vec<Transaction>)
        ensures
            txs_eqv(r@, unspent_txs_of(self.chain_of(), address@)),
    {
        let r = self.scan(address);
        r.1
    }

    /// The unspent outputs themselves, in scan order.
    #[allow(non_snake_case)]
    pub fn find_UTXO(&self, address: &str) -> (r: Vec<crate::transaction::TXOutput>)
        ensures
            ({
                let ms = utxos_of(self.chain_of(), address@);
                &&& r@.len() == ms.len()
                &&& forall|i: int| 0 <= i < ms.len() ==> r@[i] == ms[i].2
            }),
    {
        let entries = self.find_unspent_outputs_for(address);
        let ghost ms = utxos_of(self.chain_of(), address@);
        let mut outs: Vec<crate::transaction::TXOutput> = Vec::new();
        let mut i: usize = 0;
        while i < entries.len()
            invariant
                entries_match(entries@, ms),
                i <= entries@.len(),
                outs@.len() == i,
                forall|k: int| 0 <= k < i ==> outs@[k] == ms[k].2,
            decreases entries@.len() - i,
        {
            outs.push(entries[i].output.clone());
            i = i + 1;
        }
        outs
    }

    /// The spendable total of the address: the values of all its unspent
    /// outputs, summed.
    pub fn balance(&self, address: &str) -> (r: u128)
        ensures
            r as int == self.spec_balance(address@),
    {
        let entries = self.find_unspent_outputs_for(address);
        let ghost ms = utxos_of(self.chain_of(), address@);
        let mut acc: u128 = 0;
        let mut i: usize = 0;
        while i < entries.len()
            invariant
                entries_match(entries@, ms),
                i <= entries@.len(),
                acc as int == sum_values_upto(ms, i as int),
            decreases entries@.len() - i,
        {
            proof {
                lemma_sum_upto_bound(ms, i as int);
                assert((i as int) * (u64::MAX as int) + (u64::MAX as int) == (i + 1) * (
                u64::MAX as int)) by (nonlinear_arith);
                assert((i + 1) * (u64::MAX as int) <= (u64::MAX as int) * (u64::MAX as int))
                    by (nonlinear_arith)
                    requires
                        0 <= i + 1 <= u64::MAX as int,
                ;
                assert((u64::MAX as int) * (u64::MAX as int) < u128::MAX as int)
                    by (nonlinear_arith);
            }
            acc = acc + (entries[i].output.value as u128);
            i = i + 1;
        }
        acc
    }

    /// Greedily accumulates the address's unspent outputs in scan order until
    /// the amount is covered or the outputs run out, returning the
    /// accumulated total and the selection. The total reaches the amount
    /// exactly when the whole balance does; when it falls short it is the
    /// whole balance.
    pub fn find_spendable_outputs(&self, address: &str, amount: u64) -> (r: (u128, Vec<UtxoEntry>))
        ensures
            ({
                let ms = utxos_of(self.chain_of(), address@);
                let n = greedy_n(ms, amount as int);
                &&& r.0 as int == sum_values_upto(ms, n)
                &&& r.1@.len() == n
                &&& entries_match(r.1@, ms.take(n))
                &&& (r.0 as int >= amount as int <==> sum_values(ms) >= amount as int)
                &&& ((r.0 as int) < (amount as int) ==> r.0 as int == sum_values(ms))
                &&& forall|j: int| 0 <= j < n ==> sum_values_upto(ms, j) < amount as int
            }),
    {
        let entries = self.find_unspent_outputs_for(address);
        let ghost ms = utxos_of(self.chain_of(), address@);
        let mut acc: u128 = 0;
        let mut sel: Vec<UtxoEntry> = Vec::new();
        let mut i: usize = 0;
        while i < entries.len() && acc < amount as u128
            invariant
                entries_match(entries@, ms),
                i <= entries@.len(),
                sel@.len() == i,
                entries_match(sel@, ms.take(i as int)),
                acc as int == sum_values_upto(ms, i as int),
                greedy_stop(ms, amount as int, i as int) == greedy_n(ms, amount as int),
            decreases entries@.len() - i,
        {
            acc = acc + (entries[i].output.value as u128);
            sel.push(entries[i].clone());
            proof {
                assert forall|k: int| 0 <= k < sel@.len() implies crate::utxo::entry_matches(
                    sel@[k],
                    ms.take(i + 1)[k],
                ) by {
                    if k < i {
                        assert(sel@[k] == sel@.drop_last()[k]);
                    }
                }
            }
            i = i + 1;
        }
        proof {
            lemma_greedy(ms, amount as int, 0);
            lemma_greedy(ms, amount as int, i as int);
            lemma_sum_upto_monotone(ms, i as int, ms.len() as int);
            if acc >= amount as u128 {
                assert(greedy_stop(ms, amount as int, i as int) == i as int);
            } else {
                assert(i as int == ms.len());
                assert(greedy_stop(ms, amount as int, i as int) == i as int);
            }
        }
        (acc, sel)
    }

    /// Finds a transaction anywhere along the chain by its id; `NotFound`
    /// when no block of the chain holds it.
    pub fn find_transacton(&self, id: &str) -> (r: Result<Transaction, LedgerError>)
        ensures
            r matches Ok(t) ==> (find_tx_in_chain(self.chain_of(), id@) matches Some(st) && tx_eqv(
                t,
                st,
            )),
            r matches Err(e) ==> e == LedgerError::NotFound && find_tx_in_chain(
                self.chain_of(),
                id@,
            ) is None,
    {
        let key: String = id.to_owned();
        let mut cur: String = self.current_hash.clone();
        let mut fuel: usize = self.blocks.len();
        loop
            invariant
                key@ == id@,
                find_tx_in_chain(self.chain_of(), id@) == find_tx_in_chain(
                    chain_from(self.store(), cur@, fuel as nat),
                    id@,
                ),
            ensures
                find_tx_in_chain(self.chain_of(), id@) is None,
            decreases fuel,
        {
            if fuel == 0 {
                proof {
                    assert(chain_from(self.store(), cur@, fuel as nat) =~= Seq::<Block>::empty());
                }
                break;
            }
            match self.find_block(cur.as_str()) {
                Option::None => {
                    proof {
                        assert(chain_from(self.store(), cur@, fuel as nat)
                            =~= Seq::<Block>::empty());
                    }
                    break;
                },
                Option::Some(b) => {
                    let ghost cf = chain_from(self.store(), cur@, fuel as nat);
                    let ghost rest = chain_from(
                        self.store(),
                        b.spec_prev_hash(),
                        (fuel - 1) as nat,
                    );
                    proof {
                        assert(cf == seq![*b] + rest);
                        assert(cf[0] == *b);
                        assert(cf.skip(1) =~= rest);
                    }
                    let txs = b.get_transactions();
                    let ghost btxs = txs@;
                    let mut j: usize = 0;
                    proof {
                        assert(btxs.skip(0) =~= btxs);
                    }
                    while j < txs.len()
                        invariant
                            key@ == id@,
                            j <= btxs.len(),
                            txs@ == btxs,
                            find_tx_in_chain(self.chain_of(), id@) == find_tx_in_chain(cf, id@),
                            cf == seq![*b] + rest,
                            cf[0] == *b,
                            cf.skip(1) == rest,
                            btxs == b.spec_transactions(),
                            find_tx_in_txs(b.spec_transactions(), id@) == find_tx_in_txs(
                                btxs.skip(j as int),
                                id@,
                            ),
                        decreases btxs.len() - j,
                    {
                        proof {
                            assert(btxs.skip(j as int)[0] == btxs[j as int]);
                            assert(btxs.skip(j as int).skip(1) =~= btxs.skip(j + 1));
                        }
                        if txs[j].id.eq(&key) {
                            return Ok(txs[j].clone());
                        }
                        j = j + 1;
                    }
                    proof {
                        assert(btxs.skip(btxs.len() as int) =~= Seq::<Transaction>::empty());
                        assert(find_tx_in_txs(b.spec_transactions(), id@) is None);
                    }
                    cur = b.get_prev_hash();
                    fuel = fuel - 1;
                },
            }
        }
        Err(LedgerError::NotFound)
    }
}


/// An honestly mined store: every stored block with a parent link names a
/// stored parent exactly one height below it, and every stored block without
/// one sits at height zero.
pub open spec fn links_decreasing(store: Seq<Block>) -> bool {
    forall|i: int|
        0 <= i < store.len() && (#[trigger] store[i]).spec_prev_hash().len() != 0 ==> (lookup(
            store,
            store[i].spec_prev_hash(),
        ) matches Some(p) && p.spec_height() as int == store[i].spec_height() as int - 1)
}

/// Every stored block with an empty parent hash sits at height zero.
pub open spec fn genesis_grounded(store: Seq<Block>) -> bool {
    forall|i: int|
        0 <= i < store.len() && (#[trigger] store[i]).spec_prev_hash().len() == 0 ==> store[
            i
        ].spec_height() == 0
}

/// The honest-store hypotheses of the genesis-reachability law survive
/// `add_block`: storing a block whose hash is non-empty and whose parent link
/// resolves one height down (or which carries no parent link and height zero)
/// preserves all three.
pub proof fn lemma_add_block_preserves_honesty(store: Seq<Block>, tip: Seq<char>, b: Block)
    requires
        links_decreasing(store),
        genesis_grounded(store),
        !contains_hash(store, Seq::<char>::empty()),
        b.spec_hash().len() != 0,
        b.spec_prev_hash().len() != 0 ==> (lookup(store, b.spec_prev_hash()) matches Some(p)
            && p.spec_height() as int == b.spec_height() as int - 1),
        b.spec_prev_hash().len() == 0 ==> b.spec_height() == 0,
    ensures
        ({
            let after = spec_add_block(store, tip, b).0;
            &&& links_decreasing(after)
            &&& genesis_grounded(after)
            &&& !contains_hash(after, Seq::<char>::empty())
        }),
{
    if !contains_hash(store, b.spec_hash()) {
        let after = store.push(b);
        lemma_lookup_push(store, b, Seq::<char>::empty(), 0);
        assert forall|i: int|
            0 <= i < after.len() && (#[trigger] after[i]).spec_prev_hash().len()
                != 0 implies (lookup(after, after[i].spec_prev_hash()) matches Some(p)
            && p.spec_height() as int == after[i].spec_height() as int - 1) by {
            lemma_lookup_push(store, b, after[i].spec_prev_hash(), 0);
            if i < store.len() {
                assert(after[i] == store[i]);
            } else {
                assert(after[i] == b);
            }
        }
        assert forall|i: int|
            0 <= i < after.len() && (#[trigger] after[i]).spec_prev_hash().len()
                == 0 implies after[i].spec_height() == 0 by {
            if i < store.len() {
                assert(after[i] == store[i]);
            } else {
                assert(after[i] == b);
            }
        }
    }
}

/// The parent path from a resolvable hash visits one distinct stored block
/// per height, so the store holds at least height-plus-one blocks.
proof fn lemma_path_blocks(store: Seq<Block>, h: Seq<char>) -> (s: Set<Block>)
    requires
        links_decreasing(store),
        genesis_grounded(store),
        lookup(store, h) is Some,
    ensures
        s.finite(),
        s.len() == lookup(store, h)->0.spec_height() + 1,
        s.subset_of(store.to_set()),
        forall|x: Block| s.contains(x) ==> x.spec_height() <= lookup(store, h)->0.spec_height(),
    decreases lookup(store, h)->0.spec_height(),
{
    let b = lookup(store, h)->0;
    lemma_lookup_from_props(store, h, 0);
    let j = choose|j: int| 0 <= j < store.len() && store[j] == b;
    assert(store.contains(b));
    assert(store.to_set().contains(b));
    if b.spec_prev_hash().len() == 0 {
        assert(b.spec_height() == 0);
        let s = Set::<Block>::empty().insert(b);
        assert(s.len() == 1);
        s
    } else {
        assert(lookup(store, b.spec_prev_hash()) matches Some(p) && p.spec_height() as int
            == b.spec_height() as int - 1);
        let s0 = lemma_path_blocks(store, b.spec_prev_hash());
        assert(!s0.contains(b));
        let s = s0.insert(b);
        s
    }
}

/// With enough fuel, the traversal from a resolvable hash walks one block per
/// height and ends at a block whose parent hash is empty.
proof fn lemma_chain_from_genesis(store: Seq<Block>, h: Seq<char>, fuel: nat)
    requires
        links_decreasing(store),
        genesis_grounded(store),
        !contains_hash(store, Seq::<char>::empty()),
        lookup(store, h) is Some,
        fuel > lookup(store, h)->0.spec_height(),
    ensures
        ({
            let c = chain_from(store, h, fuel);
            &&& c.len() == lookup(store, h)->0.spec_height() + 1
            &&& c.last().spec_prev_hash().len() == 0
        }),
    decreases fuel,
{
    let b = lookup(store, h)->0;
    let rest = chain_from(store, b.spec_prev_hash(), (fuel - 1) as nat);
    assert(chain_from(store, h, fuel) == seq![b] + rest);
    lemma_lookup_from_props(store, h, 0);
    let j = choose|j: int| 0 <= j < store.len() && store[j] == b;
    if b.spec_prev_hash().len() == 0 {
        assert(b.spec_height() == 0);
        assert(b.spec_prev_hash() =~= Seq::<char>::empty());
        assert(lookup(store, b.spec_prev_hash()) is None);
        assert(rest =~= Seq::<Block>::empty());
        assert((seq![b] + rest).last() == b);
    } else {
        assert(lookup(store, b.spec_prev_hash()) matches Some(p) && p.spec_height() as int
            == b.spec_height() as int - 1);
        lemma_chain_from_genesis(store, b.spec_prev_hash(), (fuel - 1) as nat);
        assert(rest.len() > 0);
        assert((seq![b] + rest).last() == rest.last());
    }
}

/// Iterating any chain from the tip reaches genesis in finitely many steps:
/// in a well-formed store whose blocks link one height down to stored
/// parents, whose parentless blocks sit at height zero, and in which no block
/// carries the empty hash, the traversal from the tip yields exactly
/// best-height-plus-one blocks and ends at a block with an empty parent hash.
/// The store `create_blockchain` mints satisfies the three hypotheses, and
/// `lemma_add_block_preserves_honesty` shows that storing an honestly linked
/// block keeps them; `add_block` itself accepts arbitrary blocks, so they are
/// hypotheses here, not invariants.
pub proof fn lemma_chain_reaches_genesis(bc: Blockchain)
    requires
        bc.wf(),
        bc.store().len() > 0,
        links_decreasing(bc.store()),
        genesis_grounded(bc.store()),
        !contains_hash(bc.store(), Seq::<char>::empty()),
    ensures
        bc.chain_of().len() == bc.spec_best_height() + 1,
        bc.chain_of().last().spec_prev_hash().len() == 0,
{
    let store = bc.store();
    let s = lemma_path_blocks(store, bc.tip());
    store.lemma_cardinality_of_set();
    vstd::seq_lib::seq_to_set_is_finite::<Block>(store);
    vstd::set_lib::lemma_len_subset(s, store.to_set());
    lemma_chain_from_genesis(store, bc.tip(), store.len() as nat);
}

/// The balance of an address is the summed values of exactly the outputs the
/// unspent scan returns for it.
pub proof fn lemma_balance_is_utxo_sum(bc: Blockchain, addr: Seq<char>)
    ensures
        bc.spec_balance(addr) == sum_values(utxos_of(bc.chain_of(), addr)),
{
}

} // verus!
