use crate::transaction::{spec_is_coinbase, tx_eqv, TXInput, TXOutput, Transaction};
use vstd::prelude::*;

verus! {

// The unspent-output scan walks the chain from the tip toward genesis. For
// each transaction it first marks every output locked to the queried address
// as unspent unless the accumulated spent-set already holds its (txid, index)
// pair, then records the spends of the transaction's own inputs (never for a
// coinbase, and only when the input's unlock data matches the address).

/// One unspent output the scan found: the id of the transaction that carries
/// it, its index among that transaction's outputs, and the output itself.
#[derive(Debug)]
pub struct UtxoEntry {
    pub txid: String,
    pub index: usize,
    pub output: TXOutput,
}

impl Clone for UtxoEntry {
    fn clone(&self) -> (r: Self)
        ensures
            r == *self,
    {
        UtxoEntry { txid: self.txid.clone(), index: self.index, output: self.output.clone() }
    }
}

/// An executable entry carries the same data as a model entry.
pub open spec fn entry_matches(e: UtxoEntry, m: (Seq<char>, int, TXOutput)) -> bool {
    &&& e.txid@ == m.0
    &&& e.index as int == m.1
    &&& e.output == m.2
}

/// The collected entries carry the model's data, position for position.
pub open spec fn entries_match(es: Seq<UtxoEntry>, ms: Seq<(Seq<char>, int, TXOutput)>) -> bool {
    &&& es.len() == ms.len()
    &&& forall|i: int| 0 <= i < es.len() ==> entry_matches(es[i], ms[i])
}

/// Splitting a matching sequence at any point matches the split model.
pub proof fn lemma_entries_match_extend(
    whole: Seq<UtxoEntry>,
    n: int,
    ma: Seq<(Seq<char>, int, TXOutput)>,
    mb: Seq<(Seq<char>, int, TXOutput)>,
)
    requires
        0 <= n <= whole.len(),
        entries_match(whole.take(n), ma),
        entries_match(whole.skip(n), mb),
    ensures
        entries_match(whole, ma + mb),
{
    assert forall|i: int| 0 <= i < whole.len() implies entry_matches(
        whole[i],
        (ma + mb)[i],
    ) by {
        if i < n {
            assert(whole.take(n)[i] == whole[i]);
        } else {
            assert(whole.skip(n)[i - n] == whole[i]);
        }
    }
}

/// The same, for transaction lists carried up to equivalence.
pub proof fn lemma_txs_eqv_extend(
    whole: Seq<Transaction>,
    n: int,
    ma: Seq<Transaction>,
    mb: Seq<Transaction>,
)
    requires
        0 <= n <= whole.len(),
        crate::transaction::txs_eqv(whole.take(n), ma),
        crate::transaction::txs_eqv(whole.skip(n), mb),
    ensures
        crate::transaction::txs_eqv(whole, ma + mb),
{
    assert forall|i: int| 0 <= i < whole.len() implies tx_eqv(whole[i], (ma + mb)[i]) by {
        if i < n {
            assert(whole.take(n)[i] == whole[i]);
        } else {
            assert(whole.skip(n)[i - n] == whole[i]);
        }
    }
}

/// The (source id, source index) pair one input spends, when the scan credits
/// it to `addr`: nothing for an input whose unlock data is someone else's or
/// that names no source output.
pub open spec fn input_spend(i: TXInput, addr: Seq<char>) -> Set<(Seq<char>, int)> {
    match i.vout {
        Option::Some(k) => if i.script_sig@ == addr {
            set![(i.txid@, k as int)]
        } else {
            Set::empty()
        },
        Option::None => Set::empty(),
    }
}

/// The spends of the first `j` inputs of a transaction.
pub open spec fn tx_spends_upto(tx: Transaction, addr: Seq<char>, j: int) -> Set<(Seq<char>, int)>
    decreases j,
{
    if j <= 0 {
        Set::empty()
    } else {
        tx_spends_upto(tx, addr, j - 1).union(input_spend(tx.vin@[j - 1], addr))
    }
}

/// Everything a transaction spends for `addr`: nothing for a coinbase.
pub open spec fn tx_spends(tx: Transaction, addr: Seq<char>) -> Set<(Seq<char>, int)> {
    if spec_is_coinbase(tx) {
        Set::empty()
    } else {
        tx_spends_upto(tx, addr, tx.vin@.len() as int)
    }
}

/// The unspent entries among the first `k` outputs of a transaction: those
/// locked to `addr` whose (txid, index) pair is not in the spent-set.
pub open spec fn tx_entries_upto(
    tx: Transaction,
    addr: Seq<char>,
    spent: Set<(Seq<char>, int)>,
    k: int,
) -> Seq<(Seq<char>, int, TXOutput)>
    decreases k,
{
    if k <= 0 {
        Seq::empty()
    } else {
        tx_entries_upto(tx, addr, spent, k - 1) + if tx.vout@[k - 1].script_pub_key@ == addr
            && !spent.contains((tx.id@, k - 1)) {
            seq![(tx.id@, k - 1, tx.vout@[k - 1])]
        } else {
            Seq::empty()
        }
    }
}

/// The unspent entries of one transaction, against a given spent-set.
pub open spec fn tx_entries(tx: Transaction, addr: Seq<char>, spent: Set<(Seq<char>, int)>) -> Seq<
    (Seq<char>, int, TXOutput),
> {
    tx_entries_upto(tx, addr, spent, tx.vout@.len() as int)
}

/// The accumulated spent-set of the scan: a pair is in it exactly when one of
/// the recorded (source id, source index) pairs equals it.
pub(crate) struct SpentSet {
    items: Vec<(String, usize)>,
}

impl View for SpentSet {
    type V = Set<(Seq<char>, int)>;

    closed spec fn view(&self) -> Set<(Seq<char>, int)> {
        Set::new(
            |p: (Seq<char>, int)|
                exists|i: int|
                    0 <= i < self.items@.len() && (#[trigger] self.items@[i]).0@ == p.0
                        && self.items@[i].1 as int == p.1,
        )
    }
}

impl SpentSet {
    pub(crate) fn new() -> (r: SpentSet)
        ensures
            r@ == Set::<(Seq<char>, int)>::empty(),
    {
        let r = SpentSet { items: Vec::new() };
        proof {
            assert(r@ =~= Set::<(Seq<char>, int)>::empty());
        }
        r
    }

    pub(crate) fn contains(&self, txid: &String, k: usize) -> (r: bool)
        ensures
            r == self@.contains((txid@, k as int)),
    {
        let mut i: usize = 0;
        while i < self.items.len()
            invariant
                i <= self.items@.len(),
                forall|j: int|
                    0 <= j < i ==> !((#[trigger] self.items@[j]).0@ == txid@ && self.items@[j].1
                        as int == k as int),
            decreases self.items@.len() - i,
        {
            if self.items[i].0.eq(txid) && self.items[i].1 == k {
                return true;
            }
            i = i + 1;
        }
        proof {
            assert(!self@.contains((txid@, k as int)));
        }
        false
    }

    pub(crate) fn insert(&mut self, txid: String, k: usize)
        ensures
            final(self)@ == old(self)@.insert((txid@, k as int)),
    {
        let ghost oldview = self@;
        let ghost olditems = self.items@;
        self.items.push((txid, k));
        proof {
            assert forall|p: (Seq<char>, int)|
                self@.contains(p) <==> oldview.insert((txid@, k as int)).contains(p) by {
                if p == (txid@, k as int) {
                    assert(self.items@[olditems.len() as int].0@ == txid@);
                    assert(self@.contains(p));
                } else {
                    if self@.contains(p) {
                        let i = choose|i: int|
                            0 <= i < self.items@.len() && (#[trigger] self.items@[i]).0@ == p.0
                                && self.items@[i].1 as int == p.1;
                        assert(i < olditems.len());
                        assert(olditems[i] == self.items@[i]);
                        assert(oldview.contains(p));
                    }
                    if oldview.contains(p) {
                        let i = choose|i: int|
                            0 <= i < olditems.len() && (#[trigger] olditems[i]).0@ == p.0
                                && olditems[i].1 as int == p.1;
                        assert(self.items@[i] == olditems[i]);
                        assert(self@.contains(p));
                    }
                }
            }
            assert(self@ =~= oldview.insert((txid@, k as int)));
        }
    }
}

/// Processes one transaction of the scan: appends its unspent entries for the
/// address, records its spends into the spent-set, and appends the
/// transaction itself to the list when it contributed at least one entry.
pub(crate) fn scan_tx(
    tx: &Transaction,
    address: &String,
    spent: &mut SpentSet,
    entries: &mut Vec<UtxoEntry>,
    utxs: &mut Vec<Transaction>,
)
    ensures
        final(entries)@.len() == old(entries)@.len() + tx_entries(*tx, address@, old(spent)@).len(),
        final(entries)@.take(old(entries)@.len() as int) == old(entries)@,
        entries_match(
            final(entries)@.skip(old(entries)@.len() as int),
            tx_entries(*tx, address@, old(spent)@),
        ),
        final(spent)@ == old(spent)@.union(tx_spends(*tx, address@)),
        final(utxs)@.len() >= old(utxs)@.len(),
        final(utxs)@.take(old(utxs)@.len() as int) == old(utxs)@,
        crate::transaction::txs_eqv(
            final(utxs)@.skip(old(utxs)@.len() as int),
            if tx_entries(*tx, address@, old(spent)@).len() > 0 {
                seq![*tx]
            } else {
                Seq::<Transaction>::empty()
            },
        ),
{
    let base = entries.len();
    let ghost spent0 = spent@;
    let mut k: usize = 0;
    while k < tx.vout.len()
        invariant
            k <= tx.vout@.len(),
            base <= entries@.len(),
            spent@ == spent0,
            base == old(entries)@.len(),
            entries@.take(base as int) == old(entries)@,
            entries_match(
                entries@.skip(base as int),
                tx_entries_upto(*tx, address@, spent0, k as int),
            ),
        decreases tx.vout@.len() - k,
    {
        let ghost pre = entries@;
        let locked = tx.vout[k].can_be_unlock_with(address.as_str());
        if locked && !spent.contains(&tx.id, k) {
            entries.push(UtxoEntry { txid: tx.id.clone(), index: k, output: tx.vout[k].clone() });
        }
        proof {
            let prev_m = tx_entries_upto(*tx, address@, spent0, k as int);
            let m = tx_entries_upto(*tx, address@, spent0, k + 1);
            if tx.vout@[k as int].script_pub_key@ == address@ && !spent0.contains(
                (tx.id@, k as int),
            ) {
                assert(m == prev_m + seq![(tx.id@, k as int, tx.vout@[k as int])]);
                assert(entries@.take(base as int) =~= pre.take(base as int));
                assert(entries@.skip(base as int) =~= pre.skip(base as int) + seq![
                    entries@.last(),
                ]);
                assert(entry_matches(entries@.last(), (tx.id@, k as int, tx.vout@[k as int])));
                assert forall|i: int| 0 <= i < entries@.skip(base as int).len() implies
                    entry_matches(entries@.skip(base as int)[i], m[i]) by {
                    if i < prev_m.len() {
                        assert(entries@.skip(base as int)[i] == pre.skip(base as int)[i]);
                    } else {
                        assert(entries@.skip(base as int)[i] == entries@.last());
                    }
                }
                assert(entries_match(entries@.skip(base as int), m));
            } else {
                assert(m =~= prev_m);
                assert(entries@ == pre);
            }
        }
        k = k + 1;
    }
    proof {
        assert(tx_entries_upto(*tx, address@, spent0, tx.vout@.len() as int) == tx_entries(
            *tx,
            address@,
            spent0,
        ));
    }
    let ghost utxs0 = utxs@;
    if entries.len() > base {
        utxs.push(tx.clone());
        proof {
            assert(utxs@.take(utxs0.len() as int) =~= utxs0);
            assert(utxs@.skip(utxs0.len() as int) =~= seq![utxs@.last()]);
        }
    } else {
        proof {
            assert(utxs@.take(utxs0.len() as int) =~= utxs0);
            assert(utxs@.skip(utxs0.len() as int) =~= Seq::<Transaction>::empty());
        }
    }
    let cb = tx.is_coinbase();
    if !cb {
        proof {
            assert(spent@ =~= spent0.union(tx_spends_upto(*tx, address@, 0)));
        }
        let mut j: usize = 0;
        while j < tx.vin.len()
            invariant
                j <= tx.vin@.len(),
                !spec_is_coinbase(*tx),
                spent@ == spent0.union(tx_spends_upto(*tx, address@, j as int)),
            decreases tx.vin@.len() - j,
        {
            let unlocks = tx.vin[j].can_unlock_output_with(address.as_str());
            if unlocks {
                match tx.vin[j].vout {
                    Option::Some(k2) => {
                        spent.insert(tx.vin[j].txid.clone(), k2);
                    },
                    Option::None => {},
                }
            }
            proof {
                assert(spent@ =~= spent0.union(tx_spends_upto(*tx, address@, j + 1)));
            }
            j = j + 1;
        }
        proof {
            assert(spent@ == spent0.union(tx_spends(*tx, address@)));
        }
    } else {
        proof {
            assert(spent@ =~= spent0.union(tx_spends(*tx, address@)));
        }
    }
}


/// The unspent entries a whole transaction batch contributes, threading the
/// spent-set from each transaction to the next.
pub open spec fn txs_entries(
    txs: Seq<Transaction>,
    addr: Seq<char>,
    spent: Set<(Seq<char>, int)>,
) -> Seq<(Seq<char>, int, TXOutput)>
    decreases txs.len(),
{
    if txs.len() == 0 {
        Seq::empty()
    } else {
        tx_entries(txs[0], addr, spent) + txs_entries(
            txs.skip(1),
            addr,
            spent.union(tx_spends(txs[0], addr)),
        )
    }
}

/// The spent-set after a whole transaction batch has been scanned.
pub open spec fn txs_spent(
    txs: Seq<Transaction>,
    addr: Seq<char>,
    spent: Set<(Seq<char>, int)>,
) -> Set<(Seq<char>, int)>
    decreases txs.len(),
{
    if txs.len() == 0 {
        spent
    } else {
        txs_spent(txs.skip(1), addr, spent.union(tx_spends(txs[0], addr)))
    }
}

/// The transactions of a batch that contribute at least one unspent entry,
/// in batch order.
pub open spec fn txs_unspent(
    txs: Seq<Transaction>,
    addr: Seq<char>,
    spent: Set<(Seq<char>, int)>,
) -> Seq<Transaction>
    decreases txs.len(),
{
    if txs.len() == 0 {
        Seq::empty()
    } else {
        (if tx_entries(txs[0], addr, spent).len() > 0 {
            seq![txs[0]]
        } else {
            Seq::<Transaction>::empty()
        }) + txs_unspent(txs.skip(1), addr, spent.union(tx_spends(txs[0], addr)))
    }
}

/// The summed values of the first `n` entries.
pub open spec fn sum_values_upto(ms: Seq<(Seq<char>, int, TXOutput)>, n: int) -> int
    decreases n,
{
    if n <= 0 {
        0
    } else {
        sum_values_upto(ms, n - 1) + ms[n - 1].2.value
    }
}

/// The summed values of all entries.
pub open spec fn sum_values(ms: Seq<(Seq<char>, int, TXOutput)>) -> int {
    sum_values_upto(ms, ms.len() as int)
}

/// Partial sums only grow: output values are unsigned.
pub proof fn lemma_sum_upto_monotone(ms: Seq<(Seq<char>, int, TXOutput)>, a: int, b: int)
    requires
        0 <= a <= b <= ms.len(),
    ensures
        sum_values_upto(ms, a) <= sum_values_upto(ms, b),
    decreases b,
{
    if a < b {
        lemma_sum_upto_monotone(ms, a, b - 1);
    }
}

/// Partial sums are bounded by the count of entries times the largest value.
pub proof fn lemma_sum_upto_bound(ms: Seq<(Seq<char>, int, TXOutput)>, n: int)
    requires
        0 <= n <= ms.len(),
    ensures
        0 <= sum_values_upto(ms, n) <= n * (u64::MAX as int),
    decreases n,
{
    if n > 0 {
        lemma_sum_upto_bound(ms, n - 1);
        assert(n * (u64::MAX as int) == (n - 1) * (u64::MAX as int) + (u64::MAX as int))
            by (nonlinear_arith);
    }
}

/// Where the greedy selection scanning from position `i` stops: the first
/// position whose partial sum reaches the requested amount, or the end.
pub open spec fn greedy_stop(ms: Seq<(Seq<char>, int, TXOutput)>, amount: int, i: int) -> int
    decreases ms.len() - i,
{
    if sum_values_upto(ms, i) >= amount {
        i
    } else if i < 0 || i >= ms.len() {
        i
    } else {
        greedy_stop(ms, amount, i + 1)
    }
}

/// How many entries the greedy selection takes, scanning from the front.
pub open spec fn greedy_n(ms: Seq<(Seq<char>, int, TXOutput)>, amount: int) -> int {
    greedy_stop(ms, amount, 0)
}

/// The greedy stop lies between `i` and the end; its partial sum reaches the
/// amount unless the entries ran out; every earlier partial sum falls short.
pub proof fn lemma_greedy(ms: Seq<(Seq<char>, int, TXOutput)>, amount: int, i: int)
    requires
        0 <= i <= ms.len(),
    ensures
        i <= greedy_stop(ms, amount, i) <= ms.len(),
        sum_values_upto(ms, greedy_stop(ms, amount, i)) >= amount || greedy_stop(ms, amount, i)
            == ms.len(),
        forall|j: int|
            i <= j < greedy_stop(ms, amount, i) ==> sum_values_upto(ms, j) < amount,
    decreases ms.len() - i,
{
    if sum_values_upto(ms, i) >= amount {
    } else if i < ms.len() {
        lemma_greedy(ms, amount, i + 1);
    }
}

} // verus!
