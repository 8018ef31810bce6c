use crate::digest::{sha256_digest, sha256_of};
use crate::encoding::{
    hex_of, hex_string, push_str_encoding, push_u64_le, str_encoding, u64_le,
};
use crate::errors::LedgerError;
use vstd::prelude::*;
use vstd::string::StringExecFns;

verus! {

/// The value a coinbase transaction mints for the miner.
pub const REWARD: u64 = 100;

/// One spend of an earlier output. `vout` is `None` only on the synthetic
/// input of a coinbase transaction, which consumes nothing.
#[derive(Debug)]
pub struct TXInput {
    pub txid: String,
    pub vout: Option<usize>,
    pub script_sig: String,
}

/// One spendable output: a value locked to an address.
#[derive(Debug)]
pub struct TXOutput {
    pub value: u64,
    pub script_pub_key: String,
}

/// A batch of outputs.
#[derive(Debug)]
pub struct TXOutputs {
    pub outputs: Vec<TXOutput>,
}

/// A value transfer: inputs consuming earlier outputs, and fresh outputs.
/// `id` commits to the inputs and outputs only, never to itself.
#[derive(Debug)]
pub struct Transaction {
    pub id: String,
    pub vin: Vec<TXInput>,
    pub vout: Vec<TXOutput>,
}

impl Clone for TXInput {
    fn clone(&self) -> (r: Self)
        ensures
            r == *self,
    {
        TXInput { txid: self.txid.clone(), vout: self.vout, script_sig: self.script_sig.clone() }
    }
}

impl Clone for TXOutput {
    fn clone(&self) -> (r: Self)
        ensures
            r == *self,
    {
        TXOutput { value: self.value, script_pub_key: self.script_pub_key.clone() }
    }
}

/// Two transactions carry the same data: equal ids, inputs and outputs.
pub open spec fn tx_eqv(a: Transaction, b: Transaction) -> bool {
    &&& a.id@ == b.id@
    &&& a.vin@ == b.vin@
    &&& a.vout@ == b.vout@
}

/// Two transaction batches carry the same data, position for position.
pub open spec fn txs_eqv(a: Seq<Transaction>, b: Seq<Transaction>) -> bool {
    &&& a.len() == b.len()
    &&& forall|i: int| 0 <= i < a.len() ==> tx_eqv(a[i], b[i])
}

impl Clone for Transaction {
    fn clone(&self) -> (r: Self)
        ensures
            tx_eqv(r, *self),
    {
        let mut vin: Vec<TXInput> = Vec::new();
        let mut i: usize = 0;
        while i < self.vin.len()
            invariant
                i <= self.vin@.len(),
                vin@ =~= self.vin@.take(i as int),
            decreases self.vin@.len() - i,
        {
            vin.push(self.vin[i].clone());
            proof {
                assert(vin@ =~= self.vin@.take(i + 1));
            }
            i = i + 1;
        }
        let mut vout: Vec<TXOutput> = Vec::new();
        let mut j: usize = 0;
        while j < self.vout.len()
            invariant
                j <= self.vout@.len(),
                vout@ =~= self.vout@.take(j as int),
            decreases self.vout@.len() - j,
        {
            vout.push(self.vout[j].clone());
            proof {
                assert(vout@ =~= self.vout@.take(j + 1));
            }
            j = j + 1;
        }
        proof {
            assert(vin@ =~= self.vin@);
            assert(vout@ =~= self.vout@);
        }
        Transaction { id: self.id.clone(), vin, vout }
    }
}

/// A coinbase transaction: exactly one input that consumes nothing.
pub open spec fn spec_is_coinbase(tx: Transaction) -> bool {
    &&& tx.vin@.len() == 1
    &&& tx.vin@[0].txid@.len() == 0
    &&& tx.vin@[0].vout is None
}

/// The encoding of an optional output index: a presence byte, then the index.
pub open spec fn vout_ref_bytes(v: Option<usize>) -> Seq<u8> {
    match v {
        Option::None => seq![0u8],
        Option::Some(k) => seq![1u8] + u64_le(k as u64),
    }
}

/// The encoding of one input.
pub open spec fn txin_bytes(i: TXInput) -> Seq<u8> {
    str_encoding(i.txid@) + vout_ref_bytes(i.vout) + str_encoding(i.script_sig@)
}

/// The encoding of one output.
pub open spec fn txout_bytes(o: TXOutput) -> Seq<u8> {
    u64_le(o.value) + str_encoding(o.script_pub_key@)
}

/// The inputs of a transaction, encoded in order.
pub open spec fn txins_bytes(s: Seq<TXInput>) -> Seq<u8>
    decreases s.len(),
{
    if s.len() == 0 {
        Seq::empty()
    } else {
        txins_bytes(s.drop_last()) + txin_bytes(s.last())
    }
}

/// The outputs of a transaction, encoded in order.
pub open spec fn txouts_bytes(s: Seq<TXOutput>) -> Seq<u8>
    decreases s.len(),
{
    if s.len() == 0 {
        Seq::empty()
    } else {
        txouts_bytes(s.drop_last()) + txout_bytes(s.last())
    }
}

/// What a transaction id commits to: the counted inputs and outputs.
pub open spec fn tx_body_encoding(vin: Seq<TXInput>, vout: Seq<TXOutput>) -> Seq<u8> {
    u64_le(vin.len() as u64) + txins_bytes(vin) + u64_le(vout.len() as u64) + txouts_bytes(vout)
}

/// The id of a transaction: the hex digest of its encoded inputs and outputs.
pub open spec fn tx_id_of(vin: Seq<TXInput>, vout: Seq<TXOutput>) -> Seq<char> {
    hex_of(sha256_of(tx_body_encoding(vin, vout)))
}

/// A whole transaction, id included, as the block encoding embeds it.
pub open spec fn tx_bytes(tx: Transaction) -> Seq<u8> {
    str_encoding(tx.id@) + tx_body_encoding(tx.vin@, tx.vout@)
}

pub(crate) fn push_txin(buf: &mut Vec<u8>, i: &TXInput)
    ensures
        final(buf)@ == old(buf)@ + txin_bytes(*i),
{
    push_str_encoding(buf, i.txid.as_str());
    match i.vout {
        Option::None => {
            buf.push(0u8);
        },
        Option::Some(k) => {
            buf.push(1u8);
            push_u64_le(buf, k as u64);
        },
    }
    push_str_encoding(buf, i.script_sig.as_str());
    proof {
        assert(buf@ =~= old(buf)@ + txin_bytes(*i));
    }
}

pub(crate) fn push_txout(buf: &mut Vec<u8>, o: &TXOutput)
    ensures
        final(buf)@ == old(buf)@ + txout_bytes(*o),
{
    push_u64_le(buf, o.value);
    push_str_encoding(buf, o.script_pub_key.as_str());
    proof {
        assert(buf@ =~= old(buf)@ + txout_bytes(*o));
    }
}

pub(crate) fn tx_body_encode(vin: &Vec<TXInput>, vout: &Vec<TXOutput>) -> (r: Vec<u8>)
    ensures
        r@ == tx_body_encoding(vin@, vout@),
{
    let mut buf: Vec<u8> = Vec::new();
    push_u64_le(&mut buf, vin.len() as u64);
    let mut i: usize = 0;
    while i < vin.len()
        invariant
            i <= vin@.len(),
            buf@ == u64_le(vin@.len() as u64) + txins_bytes(vin@.take(i as int)),
        decreases vin@.len() - i,
    {
        push_txin(&mut buf, &vin[i]);
        proof {
            assert(vin@.take(i + 1).drop_last() =~= vin@.take(i as int));
            assert(buf@ =~= u64_le(vin@.len() as u64) + txins_bytes(vin@.take(i + 1)));
        }
        i = i + 1;
    }
    proof {
        assert(vin@.take(vin@.len() as int) =~= vin@);
    }
    push_u64_le(&mut buf, vout.len() as u64);
    let ghost pre: Seq<u8> = buf@;
    let mut j: usize = 0;
    while j < vout.len()
        invariant
            j <= vout@.len(),
            buf@ == pre + txouts_bytes(vout@.take(j as int)),
        decreases vout@.len() - j,
    {
        push_txout(&mut buf, &vout[j]);
        proof {
            assert(vout@.take(j + 1).drop_last() =~= vout@.take(j as int));
            assert(buf@ =~= pre + txouts_bytes(vout@.take(j + 1)));
        }
        j = j + 1;
    }
    proof {
        assert(vout@.take(vout@.len() as int) =~= vout@);
        assert(buf@ =~= tx_body_encoding(vin@, vout@));
    }
    buf
}

pub(crate) fn push_tx(buf: &mut Vec<u8>, tx: &Transaction)
    ensures
        final(buf)@ == old(buf)@ + tx_bytes(*tx),
{
    push_str_encoding(buf, tx.id.as_str());
    let mut body = tx_body_encode(&tx.vin, &tx.vout);
    buf.append(&mut body);
    proof {
        assert(buf@ =~= old(buf)@ + tx_bytes(*tx));
    }
}

/// The default memo a coinbase carries when the caller supplies none.
pub open spec fn coinbase_memo(to: Seq<char>) -> Seq<char> {
    "Reward to '"@ + to + "'"@
}

impl Transaction {
    /// The hex digest of this transaction's inputs and outputs, the value its
    /// id is assigned at construction.
    pub fn hash(&self) -> (r: Result<String, LedgerError>)
        ensures
            r matches Ok(h) && h@ == tx_id_of(self.vin@, self.vout@),
    {
        let body = tx_body_encode(&self.vin, &self.vout);
        let digest = sha256_digest(body.as_slice());
        Ok(hex_string(digest.as_slice()))
    }

    /// Mints the mining reward: one input that consumes nothing, unlocked by
    /// the memo (or a default one naming the recipient), and one output of
    /// `REWARD` locked to `to`.
    pub fn new_coinbase(to: String, data: String) -> (r: Result<Transaction, LedgerError>)
        ensures
            r matches Ok(tx) ==> {
                &&& spec_is_coinbase(tx)
                &&& tx.vin@[0].script_sig@ == (if data@.len() == 0 {
                    coinbase_memo(to@)
                } else {
                    data@
                })
                &&& tx.vout@.len() == 1
                &&& tx.vout@[0].value == REWARD
                &&& tx.vout@[0].script_pub_key@ == to@
                &&& tx.id@ == tx_id_of(tx.vin@, tx.vout@)
            },
            r is Ok,
    {
        let memo: String = if data.as_str().is_empty() {
            let mut m = String::from_str("Reward to '");
            m.append(to.as_str());
            m.append("'");
            m
        } else {
            data
        };
        let mut vin: Vec<TXInput> = Vec::new();
        vin.push(TXInput { txid: String::new(), vout: None, script_sig: memo });
        let mut vout: Vec<TXOutput> = Vec::new();
        vout.push(TXOutput { value: REWARD, script_pub_key: to });
        let body = tx_body_encode(&vin, &vout);
        let digest = sha256_digest(body.as_slice());
        let id = hex_string(digest.as_slice());
        Ok(Transaction { id, vin, vout })
    }

    /// A coinbase has exactly one input, which names no source transaction
    /// and no output index.
    pub fn is_coinbase(&self) -> (r: bool)
        ensures
            r == spec_is_coinbase(*self),
    {
        self.vin.len() == 1 && self.vin[0].txid.as_str().is_empty() && self.vin[0].vout.is_none()
    }
}


impl Transaction {
    /// Builds a transfer of `amount` from `from` to `to`: one input per
    /// greedily selected unspent output of `from` (each unlocked with `from`),
    /// one output of `amount` locked to `to`, and a change output back to
    /// `from` when the selection overshoots. Fails with `InsufficientFunds`,
    /// carrying the whole available balance, exactly when the balance of
    /// `from` falls short of `amount`; the store is never touched.
    #[allow(non_snake_case)]
    #[verifier::rlimit(50)]
    pub fn new_UTXO(from: &str, to: &str, amount: u64, bc: &crate::blockchain::Blockchain) -> (r:
        Result<Transaction, LedgerError>)
        ensures
            ({
                let ms = crate::blockchain::utxos_of(bc.chain_of(), from@);
                let n = crate::utxo::greedy_n(ms, amount as int);
                let acc = crate::utxo::sum_values_upto(ms, n);
                &&& (r is Ok <==> bc.spec_balance(from@) >= amount as int)
                &&& (r matches Err(e) ==> e matches LedgerError::InsufficientFunds(avail)
                    && avail as int == bc.spec_balance(from@))
                &&& (r matches Ok(tx) ==> {
                    &&& tx.vin@.len() == n
                    &&& forall|i: int|
                        0 <= i < n ==> {
                            &&& (#[trigger] tx.vin@[i]).txid@ == ms[i].0
                            &&& tx.vin@[i].vout == Option::Some(ms[i].1 as usize)
                            &&& tx.vin@[i].script_sig@ == from@
                        }
                    &&& tx.vout@.len() == (if acc > amount as int {
                        2int
                    } else {
                        1int
                    })
                    &&& tx.vout@[0].value == amount
                    &&& tx.vout@[0].script_pub_key@ == to@
                    &&& (acc > amount as int ==> tx.vout@[1].value as int == acc - amount as int
                        && tx.vout@[1].script_pub_key@ == from@)
                    &&& tx.id@ == tx_id_of(tx.vin@, tx.vout@)
                })
            }),
    {
        let ghost ms = crate::blockchain::utxos_of(bc.chain_of(), from@);
        let ghost n = crate::utxo::greedy_n(ms, amount as int);
        let acc_sel = bc.find_spendable_outputs(from, amount);
        let acc = acc_sel.0;
        let sel = acc_sel.1;
        if acc < amount as u128 {
            return Err(LedgerError::InsufficientFunds(acc));
        }
        let from_s: String = from.to_owned();
        let mut vin: Vec<TXInput> = Vec::new();
        let mut i: usize = 0;
        while i < sel.len()
            invariant
                from_s@ == from@,
                i <= sel@.len(),
                sel@.len() == n,
                crate::utxo::entries_match(sel@, ms.take(n)),
                0 <= n <= ms.len(),
                vin@.len() == i,
                forall|k: int|
                    0 <= k < i ==> {
                        &&& (#[trigger] vin@[k]).txid@ == ms[k].0
                        &&& vin@[k].vout == Option::Some(ms[k].1 as usize)
                        &&& vin@[k].script_sig@ == from@
                    },
            decreases sel@.len() - i,
        {
            proof {
                assert(crate::utxo::entry_matches(sel@[i as int], ms.take(n)[i as int]));
                assert(ms.take(n)[i as int] == ms[i as int]);
            }
            vin.push(
                TXInput {
                    txid: sel[i].txid.clone(),
                    vout: Some(sel[i].index),
                    script_sig: from_s.clone(),
                },
            );
            i = i + 1;
        }
        let mut vout: Vec<TXOutput> = Vec::new();
        vout.push(TXOutput { value: amount, script_pub_key: to.to_owned() });
        if acc > amount as u128 {
            proof {
                if n == 0 {
                    assert(crate::utxo::sum_values_upto(ms, 0) == 0);
                }
                assert(crate::utxo::sum_values_upto(ms, n) == crate::utxo::sum_values_upto(
                    ms,
                    n - 1,
                ) + ms[n - 1].2.value);
                assert(crate::utxo::sum_values_upto(ms, n - 1) < amount as int);
                assert(acc as int - (amount as int) <= u64::MAX as int);
            }
            let change = acc - (amount as u128);
            vout.push(TXOutput { value: change as u64, script_pub_key: from_s });
        }
        let body = tx_body_encode(&vin, &vout);
        let digest = sha256_digest(body.as_slice());
        let id = hex_string(digest.as_slice());
        Ok(Transaction { id, vin, vout })
    }
}

impl TXInput {
    /// Whether this input is unlocked by `unlocking_data`: the literal
    /// string-equality ownership check that stands in for a signature.
    pub fn can_unlock_output_with(&self, unlocking_data: &str) -> (r: bool)
        ensures
            r == (self.script_sig@ == unlocking_data@),
    {
        self.script_sig.eq(&unlocking_data.to_owned())
    }
}

impl TXOutput {
    /// Whether this output is locked to `unlocking_data`.
    pub fn can_be_unlock_with(&self, unlocking_data: &str) -> (r: bool)
        ensures
            r == (self.script_pub_key@ == unlocking_data@),
    {
        self.script_pub_key.eq(&unlocking_data.to_owned())
    }
}

} // verus!
