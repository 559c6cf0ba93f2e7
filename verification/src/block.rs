//! Transactions and blocks: ordered inputs and outputs with a derived
//! transaction id, and blocks whose hash is derived from their header fields.

use vstd::prelude::*;

verus! {

use crate::decimal::{dec_of, u64_to_dec};
use crate::hashing::{content_hash, content_hash_of};

/// A spendable unit: an amount owed to an address. Immutable once created.
pub struct TxOut {
    pub public_address: String,
    pub satoshis: u64,
}

pub ghost struct TxOutV {
    pub public_address: Seq<char>,
    pub satoshis: u64,
}

impl View for TxOut {
    type V = TxOutV;

    open spec fn view(&self) -> TxOutV {
        TxOutV { public_address: self.public_address@, satoshis: self.satoshis }
    }
}

impl DeepView for TxOut {
    type V = TxOutV;

    open spec fn deep_view(&self) -> TxOutV {
        self@
    }
}

impl Clone for TxOut {
    fn clone(&self) -> (res: Self)
        ensures
            res == *self,
    {
        TxOut { public_address: self.public_address.clone(), satoshis: self.satoshis }
    }
}

impl TxOut {
    pub fn new(public_address: String, satoshis: u64) -> (r: Self)
        ensures
            r@ == (TxOutV { public_address: public_address@, satoshis }),
    {
        TxOut { public_address, satoshis }
    }
}

/// A reference to a previously created output that is being consumed. The
/// signature is an opaque proof of the right to spend; this core never
/// inspects it.
pub struct TxIn {
    pub prev_txid: String,
    pub out: usize,
    pub signature: String,
}

pub ghost struct TxInV {
    pub prev_txid: Seq<char>,
    pub out: usize,
    pub signature: Seq<char>,
}

impl View for TxIn {
    type V = TxInV;

    open spec fn view(&self) -> TxInV {
        TxInV { prev_txid: self.prev_txid@, out: self.out, signature: self.signature@ }
    }
}

impl DeepView for TxIn {
    type V = TxInV;

    open spec fn deep_view(&self) -> TxInV {
        self@
    }
}

impl Clone for TxIn {
    fn clone(&self) -> (res: Self)
        ensures
            res == *self,
    {
        TxIn {
            prev_txid: self.prev_txid.clone(),
            out: self.out,
            signature: self.signature.clone(),
        }
    }
}

impl TxIn {
    pub fn new(prev_txid: String, out: usize, signature: String) -> (r: Self)
        ensures
            r@ == (TxInV { prev_txid: prev_txid@, out, signature: signature@ }),
    {
        TxIn { prev_txid, out, signature }
    }
}

/// Canonical serialization of one input: its source txid, the output index
/// in decimal, and the signature, in that order.
pub open spec fn txin_ser(t: TxInV) -> Seq<char> {
    t.prev_txid + dec_of(t.out as nat) + t.signature
}

/// Canonical serialization of the inputs, in sequence order.
pub open spec fn txins_ser(s: Seq<TxInV>) -> Seq<char>
    decreases s.len(),
{
    if s.len() == 0 {
        Seq::empty()
    } else {
        txin_ser(s[0]) + txins_ser(s.drop_first())
    }
}

/// Canonical serialization of one output: the address and the amount in
/// decimal, in that order.
pub open spec fn txout_ser(t: TxOutV) -> Seq<char> {
    t.public_address + dec_of(t.satoshis as nat)
}

/// Canonical serialization of the outputs, in sequence order.
pub open spec fn txouts_ser(s: Seq<TxOutV>) -> Seq<char>
    decreases s.len(),
{
    if s.len() == 0 {
        Seq::empty()
    } else {
        txout_ser(s[0]) + txouts_ser(s.drop_first())
    }
}

/// Canonical serialization of a whole transaction: all inputs, then all
/// outputs, each in sequence order.
pub open spec fn tx_ser(inputs: Seq<TxInV>, outputs: Seq<TxOutV>) -> Seq<char> {
    txins_ser(inputs) + txouts_ser(outputs)
}

/// The id of a transaction: the content hash of its canonical serialization.
pub open spec fn tx_id_of(inputs: Seq<TxInV>, outputs: Seq<TxOutV>) -> Seq<char> {
    content_hash_of(tx_ser(inputs, outputs))
}

pub proof fn lemma_txins_ser_push(s: Seq<TxInV>, t: TxInV)
    ensures
        txins_ser(s.push(t)) == txins_ser(s) + txin_ser(t),
    decreases s.len(),
{
    if s.len() == 0 {
        assert(s.push(t)[0] == t);
        assert(s.push(t).drop_first() =~= Seq::<TxInV>::empty());
        assert(txins_ser(Seq::<TxInV>::empty()) == Seq::<char>::empty());
        assert(txins_ser(s.push(t)) == txin_ser(t) + Seq::<char>::empty());
        assert(txin_ser(t) + Seq::<char>::empty() =~= Seq::<char>::empty() + txin_ser(t));
    } else {
        assert(s.push(t)[0] == s[0]);
        assert(s.push(t).drop_first() =~= s.drop_first().push(t));
        lemma_txins_ser_push(s.drop_first(), t);
        assert(txins_ser(s.push(t)) == txin_ser(s[0]) + (txins_ser(s.drop_first()) + txin_ser(
            t,
        )));
        assert(txin_ser(s[0]) + (txins_ser(s.drop_first()) + txin_ser(t)) =~= (txin_ser(s[0])
            + txins_ser(s.drop_first())) + txin_ser(t));
        assert(txins_ser(s) == txin_ser(s[0]) + txins_ser(s.drop_first()));
    }
}

pub proof fn lemma_txouts_ser_push(s: Seq<TxOutV>, t: TxOutV)
    ensures
        txouts_ser(s.push(t)) == txouts_ser(s) + txout_ser(t),
    decreases s.len(),
{
    if s.len() == 0 {
        assert(s.push(t)[0] == t);
        assert(s.push(t).drop_first() =~= Seq::<TxOutV>::empty());
        assert(txouts_ser(Seq::<TxOutV>::empty()) == Seq::<char>::empty());
        assert(txouts_ser(s.push(t)) == txout_ser(t) + Seq::<char>::empty());
        assert(txout_ser(t) + Seq::<char>::empty() =~= Seq::<char>::empty() + txout_ser(t));
    } else {
        assert(s.push(t)[0] == s[0]);
        assert(s.push(t).drop_first() =~= s.drop_first().push(t));
        lemma_txouts_ser_push(s.drop_first(), t);
        assert(txouts_ser(s.push(t)) == txout_ser(s[0]) + (txouts_ser(s.drop_first()) + txout_ser(
            t,
        )));
        assert(txout_ser(s[0]) + (txouts_ser(s.drop_first()) + txout_ser(t)) =~= (txout_ser(s[0])
            + txouts_ser(s.drop_first())) + txout_ser(t));
        assert(txouts_ser(s) == txout_ser(s[0]) + txouts_ser(s.drop_first()));
    }
}

/// An ordered list of inputs and outputs with a derived id.
pub struct Transaction {
    pub inputs: Vec<TxIn>,
    pub outputs: Vec<TxOut>,
    pub txid: String,
}

pub ghost struct TxV {
    pub inputs: Seq<TxInV>,
    pub outputs: Seq<TxOutV>,
    pub txid: Seq<char>,
}

impl View for Transaction {
    type V = TxV;

    open spec fn view(&self) -> TxV {
        TxV {
            inputs: self.inputs.deep_view(),
            outputs: self.outputs.deep_view(),
            txid: self.txid@,
        }
    }
}

impl DeepView for Transaction {
    type V = TxV;

    open spec fn deep_view(&self) -> TxV {
        self@
    }
}

/// A transaction is well formed when its stored id is the content hash of
/// its current inputs and outputs.
pub open spec fn tx_wf(t: TxV) -> bool {
    t.txid == tx_id_of(t.inputs, t.outputs)
}

/// Law: the id is a pure function of a transaction's contents, so
/// recomputing it from the current inputs and outputs of a well-formed
/// transaction yields exactly the stored id.
pub proof fn lemma_txid_recomputable(t: TxV)
    requires
        tx_wf(t),
    ensures
        tx_id_of(t.inputs, t.outputs) == t.txid,
{
}

impl Clone for Transaction {
    fn clone(&self) -> (res: Self)
        ensures
            res@ == self@,
    {
        let res = Transaction {
            inputs: self.inputs.clone(),
            outputs: self.outputs.clone(),
            txid: self.txid.clone(),
        };
        proof {
            assert(res.inputs@ =~= self.inputs@);
            assert(res.outputs@ =~= self.outputs@);
            assert(res.inputs.deep_view() =~= self.inputs.deep_view());
            assert(res.outputs.deep_view() =~= self.outputs.deep_view());
        }
        res
    }
}

impl Transaction {
    /// Stores the inputs and outputs in the given order and derives the id
    /// from their canonical serialization.
    pub fn new(inputs: Vec<TxIn>, outputs: Vec<TxOut>) -> (r: Self)
        ensures
            r@.inputs == inputs.deep_view(),
            r@.outputs == outputs.deep_view(),
            tx_wf(r@),
    {
        let mut tx = Transaction { txid: String::new(), inputs, outputs };
        let id = tx.calculate_txid();
        tx.txid = id;
        tx
    }

    /// Recomputes the id from the current inputs and outputs, so that a
    /// caller never has to trust a cached value.
    pub fn calculate_txid(&self) -> (r: String)
        ensures
            r@ == tx_id_of(self@.inputs, self@.outputs),
    {
        let mut s = String::new();
        let mut i: usize = 0;
        while i < self.inputs.len()
            invariant
                i <= self.inputs.len(),
                s@ == txins_ser(self@.inputs.take(i as int)),
            decreases self.inputs.len() - i,
        {
            let inp = &self.inputs[i];
            s.append(inp.prev_txid.as_str());
            let d = u64_to_dec(inp.out as u64);
            s.append(d.as_str());
            s.append(inp.signature.as_str());
            proof {
                assert(self@.inputs.take(i + 1) =~= self@.inputs.take(i as int).push(
                    self@.inputs[i as int],
                ));
                lemma_txins_ser_push(self@.inputs.take(i as int), self@.inputs[i as int]);
                assert(s@ =~= txins_ser(self@.inputs.take(i + 1)));
            }
            i += 1;
        }
        proof {
            assert(self@.inputs.take(self.inputs.len() as int) =~= self@.inputs);
        }
        let mut j: usize = 0;
        while j < self.outputs.len()
            invariant
                j <= self.outputs.len(),
                s@ == txins_ser(self@.inputs) + txouts_ser(self@.outputs.take(j as int)),
            decreases self.outputs.len() - j,
        {
            let outp = &self.outputs[j];
            s.append(outp.public_address.as_str());
            let d = u64_to_dec(outp.satoshis);
            s.append(d.as_str());
            proof {
                assert(self@.outputs.take(j + 1) =~= self@.outputs.take(j as int).push(
                    self@.outputs[j as int],
                ));
                lemma_txouts_ser_push(self@.outputs.take(j as int), self@.outputs[j as int]);
                assert(s@ =~= txins_ser(self@.inputs) + txouts_ser(self@.outputs.take(j + 1)));
            }
            j += 1;
        }
        proof {
            assert(self@.outputs.take(self.outputs.len() as int) =~= self@.outputs);
        }
        content_hash(s.as_str())
    }
}

/// Canonical serialization of a block header: the height in decimal, the
/// previous block's hash, and the nonce in decimal, in that order.
pub open spec fn block_ser(height: u64, prev_hash: Seq<char>, nonce: u64) -> Seq<char> {
    dec_of(height as nat) + prev_hash + dec_of(nonce as nat)
}

/// The hash of a block: the content hash of its header fields alone.
/// Transaction content deliberately does not participate.
pub open spec fn block_hash_of(height: u64, prev_hash: Seq<char>, nonce: u64) -> Seq<char> {
    content_hash_of(block_ser(height, prev_hash, nonce))
}

/// An ordered list of transactions with a derived hash and a link to the
/// previous block's hash.
pub struct Block {
    pub hash: String,
    pub height: u64,
    pub transactions: Vec<Transaction>,
    pub prev_hash: String,
    pub nonce: u64,
}

pub ghost struct BlockV {
    pub hash: Seq<char>,
    pub height: u64,
    pub transactions: Seq<TxV>,
    pub prev_hash: Seq<char>,
    pub nonce: u64,
}

impl View for Block {
    type V = BlockV;

    open spec fn view(&self) -> BlockV {
        BlockV {
            hash: self.hash@,
            height: self.height,
            transactions: self.transactions.deep_view(),
            prev_hash: self.prev_hash@,
            nonce: self.nonce,
        }
    }
}

impl DeepView for Block {
    type V = BlockV;

    open spec fn deep_view(&self) -> BlockV {
        self@
    }
}

/// The result a block's transaction lookup owes: `t` is the first
/// transaction in stored order whose id equals `id`.
pub open spec fn found_tx_in_block(b: BlockV, id: Seq<char>, t: TxV) -> bool {
    t.txid == id && exists|j: int|
        0 <= j < b.transactions.len() && #[trigger] b.transactions[j] == t && (forall|j2: int|
            0 <= j2 < j ==> b.transactions[j2].txid != id)
}

/// Law: at most one transaction of a block is the first one carrying a
/// given id, so the lookup's result is determined by the block's contents.
pub proof fn lemma_tx_in_block_deterministic(b: BlockV, id: Seq<char>, t1: TxV, t2: TxV)
    requires
        found_tx_in_block(b, id, t1),
        found_tx_in_block(b, id, t2),
    ensures
        t1 == t2,
{
    let j1 = choose|j: int|
        0 <= j < b.transactions.len() && #[trigger] b.transactions[j] == t1 && (forall|j2: int|
            0 <= j2 < j ==> b.transactions[j2].txid != id);
    let j2 = choose|j: int|
        0 <= j < b.transactions.len() && #[trigger] b.transactions[j] == t2 && (forall|j2: int|
            0 <= j2 < j ==> b.transactions[j2].txid != id);
    if j1 < j2 {
        assert(b.transactions[j1].txid != id);
        assert(false);
    }
    if j2 < j1 {
        assert(b.transactions[j2].txid != id);
        assert(false);
    }
}

/// A block is well formed when its stored hash is the content hash of its
/// current header fields.
pub open spec fn block_wf(b: BlockV) -> bool {
    b.hash == block_hash_of(b.height, b.prev_hash, b.nonce)
}

/// Law: the block hash covers height, previous hash and nonce alone, so two
/// blocks agreeing on those three fields hash identically, whatever their
/// transactions hold.
pub proof fn lemma_block_hash_ignores_transactions(b1: BlockV, b2: BlockV)
    requires
        b1.height == b2.height,
        b1.prev_hash == b2.prev_hash,
        b1.nonce == b2.nonce,
    ensures
        block_hash_of(b1.height, b1.prev_hash, b1.nonce) == block_hash_of(
            b2.height,
            b2.prev_hash,
            b2.nonce,
        ),
{
}

/// Law: recomputing the hash of a well-formed block from its current header
/// fields yields exactly the stored hash.
pub proof fn lemma_block_hash_recomputable(b: BlockV)
    requires
        block_wf(b),
    ensures
        block_hash_of(b.height, b.prev_hash, b.nonce) == b.hash,
{
}

impl Clone for Block {
    fn clone(&self) -> (res: Self)
        ensures
            res@ == self@,
    {
        let res = Block {
            hash: self.hash.clone(),
            height: self.height,
            transactions: self.transactions.clone(),
            prev_hash: self.prev_hash.clone(),
            nonce: self.nonce,
        };
        proof {
            assert forall|k: int|
                0 <= k < self.transactions@.len() implies #[trigger] res.transactions.deep_view()[k]
                == self.transactions.deep_view()[k] by {
                assert(cloned::<Transaction>(self.transactions[k], res.transactions[k]));
                assert(res.transactions@[k]@ == self.transactions@[k]@);
            }
            assert(res.transactions.deep_view() =~= self.transactions.deep_view());
        }
        res
    }
}

impl Block {
    /// An empty block linking to the given previous hash. The stored hash
    /// stays empty until the first transaction is added.
    pub fn new(prev_hash: String) -> (r: Self)
        ensures
            r@ == (BlockV {
                hash: Seq::<char>::empty(),
                height: 0,
                transactions: Seq::<TxV>::empty(),
                prev_hash: prev_hash@,
                nonce: 0,
            }),
    {
        let r = Block {
            hash: String::new(),
            height: 0,
            transactions: Vec::new(),
            prev_hash,
            nonce: 0,
        };
        proof {
            assert(r.transactions.deep_view() =~= Seq::<TxV>::empty());
        }
        r
    }

    /// Recomputes the hash from the current header fields.
    pub fn calculate_hash(&self) -> (r: String)
        ensures
            r@ == block_hash_of(self.height, self.prev_hash@, self.nonce),
    {
        let mut s = u64_to_dec(self.height);
        s.append(self.prev_hash.as_str());
        let d = u64_to_dec(self.nonce);
        s.append(d.as_str());
        content_hash(s.as_str())
    }

    /// Inserts the transaction at the front of the block's transaction list
    /// and recomputes the stored hash.
    pub fn add_transaction(&mut self, transaction: Transaction)
        ensures
            final(self)@.transactions == seq![transaction@] + old(self)@.transactions,
            final(self)@.hash == block_hash_of(
                old(self)@.height,
                old(self)@.prev_hash,
                old(self)@.nonce,
            ),
            final(self)@.height == old(self)@.height,
            final(self)@.prev_hash == old(self)@.prev_hash,
            final(self)@.nonce == old(self)@.nonce,
            block_wf(final(self)@),
    {
        self.transactions.insert(0, transaction);
        let h = self.calculate_hash();
        self.hash = h;
        proof {
            assert(final(self).transactions.deep_view() =~= seq![transaction@] + old(
                self,
            ).transactions.deep_view());
        }
    }

    /// The first transaction, in stored order, whose id equals the given
    /// one, if any.
    pub fn get_transaction(&self, txid: &str) -> (r: Option<&Transaction>)
        ensures
            match r {
                Some(t) => found_tx_in_block(self@, txid@, t@),
                None => forall|i: int|
                    0 <= i < self@.transactions.len() ==> self@.transactions[i].txid != txid@,
            },
    {
        let key = txid.to_owned();
        let mut i: usize = 0;
        while i < self.transactions.len()
            invariant
                key@ == txid@,
                i <= self.transactions.len(),
                forall|j: int| 0 <= j < i ==> self@.transactions[j].txid != txid@,
            decreases self.transactions.len() - i,
        {
            if self.transactions[i].txid == key {
                let t = &self.transactions[i];
                proof {
                    assert(self@.transactions[i as int] == t@);
                    assert(t@.txid == txid@);
                }
                return Some(t);
            }
            i += 1;
        }
        None
    }
}

} // verus!
