//! The chain: the ordered sequence of accepted blocks, the acceptance rule,
//! and the read queries. Accepting a block atomically updates the block
//! list, the height counter and the UTXO index.

use vstd::prelude::*;

verus! {

use crate::block::{
    Block, BlockV, Transaction, TxInV, TxOut, TxOutV, TxV, found_tx_in_block,
    lemma_tx_in_block_deterministic, tx_id_of,
};
use crate::utxo::UtxoIndex;

/// The UTXO key consumed by an input: the source transaction's id and the
/// position of the output being spent.
pub open spec fn utxo_key(t: TxInV) -> (Seq<char>, int) {
    (t.prev_txid, t.out as int)
}

/// The map after the entries referenced by the inputs are removed, in
/// sequence order. Absent entries are ignored.
pub open spec fn remove_inputs(
    m: Map<(Seq<char>, int), TxOutV>,
    inputs: Seq<TxInV>,
) -> Map<(Seq<char>, int), TxOutV>
    decreases inputs.len(),
{
    if inputs.len() == 0 {
        m
    } else {
        remove_inputs(m.remove(utxo_key(inputs[0])), inputs.drop_first())
    }
}

/// The map after an entry is inserted for each output, keyed by the
/// creating transaction's id and the output's position, counted from
/// `start`.
pub open spec fn insert_outputs(
    m: Map<(Seq<char>, int), TxOutV>,
    txid: Seq<char>,
    outputs: Seq<TxOutV>,
    start: int,
) -> Map<(Seq<char>, int), TxOutV>
    decreases outputs.len(),
{
    if outputs.len() == 0 {
        m
    } else {
        insert_outputs(m.insert((txid, start), outputs[0]), txid, outputs.drop_first(), start + 1)
    }
}

/// The UTXO effect of one transaction: its inputs' entries removed first,
/// then one entry inserted per output under the recomputed id.
pub open spec fn apply_tx(m: Map<(Seq<char>, int), TxOutV>, tx: TxV) -> Map<
    (Seq<char>, int),
    TxOutV,
> {
    insert_outputs(remove_inputs(m, tx.inputs), tx_id_of(tx.inputs, tx.outputs), tx.outputs, 0)
}

/// The UTXO effect of a block's transactions, applied in order.
pub open spec fn apply_txs(m: Map<(Seq<char>, int), TxOutV>, txs: Seq<TxV>) -> Map<
    (Seq<char>, int),
    TxOutV,
>
    decreases txs.len(),
{
    if txs.len() == 0 {
        m
    } else {
        apply_txs(apply_tx(m, txs[0]), txs.drop_first())
    }
}

/// The UTXO effect of accepting one block.
pub open spec fn apply_block(m: Map<(Seq<char>, int), TxOutV>, b: BlockV) -> Map<
    (Seq<char>, int),
    TxOutV,
> {
    apply_txs(m, b.transactions)
}

/// The UTXO set determined by a sequence of accepted blocks: outputs
/// created minus outputs consumed, in acceptance order, starting empty.
pub open spec fn utxo_of(blocks: Seq<BlockV>) -> Map<(Seq<char>, int), TxOutV>
    decreases blocks.len(),
{
    if blocks.len() == 0 {
        Map::empty()
    } else {
        apply_block(utxo_of(blocks.drop_last()), blocks.last())
    }
}

/// The acceptance rule: a block at height 0 is a genesis block and always
/// valid; any other block is valid exactly when some accepted block's hash
/// equals its prev_hash.
pub open spec fn spec_is_valid(blocks: Seq<BlockV>, b: BlockV) -> bool {
    b.height > 0 ==> exists|i: int| 0 <= i < blocks.len() && blocks[i].hash == b.prev_hash
}

/// Every block except a genesis block links to the hash of a block accepted
/// before it.
pub open spec fn chain_linked(blocks: Seq<BlockV>) -> bool {
    forall|i: int|
        0 <= i < blocks.len() && (#[trigger] blocks[i]).height > 0 ==> exists|j: int|
            0 <= j < i && blocks[j].hash == blocks[i].prev_hash
}

/// Whether some transaction of the block carries the given id.
pub open spec fn block_contains_txid(b: BlockV, id: Seq<char>) -> bool {
    exists|j: int| 0 <= j < b.transactions.len() && b.transactions[j].txid == id
}

/// The result `get_block_by_hash` owes: `b` is the first accepted block
/// whose hash equals `h`.
pub open spec fn found_block_by_hash(blocks: Seq<BlockV>, h: Seq<char>, b: BlockV) -> bool {
    b.hash == h && exists|i: int|
        0 <= i < blocks.len() && #[trigger] blocks[i] == b && (forall|j: int|
            0 <= j < i ==> blocks[j].hash != h)
}

/// The result `get_transaction` owes: `t` is the first transaction carrying
/// the id, taking the blocks in acceptance order and each block's
/// transactions in stored order.
pub open spec fn found_transaction(blocks: Seq<BlockV>, id: Seq<char>, t: TxV) -> bool {
    exists|i: int|
        0 <= i < blocks.len() && #[trigger] found_tx_in_block(blocks[i], id, t) && (forall|i2: int|
            0 <= i2 < i ==> !block_contains_txid(blocks[i2], id))
}

/// Law: the block-by-hash query is deterministic — its contract admits only
/// one result for a given chain and hash, so repeating the query without an
/// intervening mutation returns an equal block.
pub proof fn lemma_block_by_hash_deterministic(
    blocks: Seq<BlockV>,
    h: Seq<char>,
    b1: BlockV,
    b2: BlockV,
)
    requires
        found_block_by_hash(blocks, h, b1),
        found_block_by_hash(blocks, h, b2),
    ensures
        b1 == b2,
{
    let i1 = choose|i: int|
        0 <= i < blocks.len() && #[trigger] blocks[i] == b1 && (forall|j: int|
            0 <= j < i ==> blocks[j].hash != h);
    let i2 = choose|i: int|
        0 <= i < blocks.len() && #[trigger] blocks[i] == b2 && (forall|j: int|
            0 <= j < i ==> blocks[j].hash != h);
    if i1 < i2 {
        assert(blocks[i1].hash != h);
        assert(false);
    }
    if i2 < i1 {
        assert(blocks[i2].hash != h);
        assert(false);
    }
}

/// Law: the transaction-by-id query is deterministic — its contract admits
/// only one result for a given chain and id, so repeating the query without
/// an intervening mutation returns an equal transaction.
pub proof fn lemma_transaction_by_id_deterministic(
    blocks: Seq<BlockV>,
    id: Seq<char>,
    t1: TxV,
    t2: TxV,
)
    requires
        found_transaction(blocks, id, t1),
        found_transaction(blocks, id, t2),
    ensures
        t1 == t2,
{
    let i1 = choose|i: int|
        0 <= i < blocks.len() && #[trigger] found_tx_in_block(blocks[i], id, t1) && (forall|
            i2: int,
        |
            0 <= i2 < i ==> !block_contains_txid(blocks[i2], id));
    let i2 = choose|i: int|
        0 <= i < blocks.len() && #[trigger] found_tx_in_block(blocks[i], id, t2) && (forall|
            i2: int,
        |
            0 <= i2 < i ==> !block_contains_txid(blocks[i2], id));
    assert(block_contains_txid(blocks[i1], id)) by {
        let j = choose|j: int|
            0 <= j < blocks[i1].transactions.len() && #[trigger] blocks[i1].transactions[j] == t1
                && (forall|j2: int| 0 <= j2 < j ==> blocks[i1].transactions[j2].txid != id);
        assert(blocks[i1].transactions[j].txid == id);
    }
    assert(block_contains_txid(blocks[i2], id)) by {
        let j = choose|j: int|
            0 <= j < blocks[i2].transactions.len() && #[trigger] blocks[i2].transactions[j] == t2
                && (forall|j2: int| 0 <= j2 < j ==> blocks[i2].transactions[j2].txid != id);
        assert(blocks[i2].transactions[j].txid == id);
    }
    if i1 < i2 {
        assert(!block_contains_txid(blocks[i1], id));
        assert(false);
    }
    if i2 < i1 {
        assert(!block_contains_txid(blocks[i2], id));
        assert(false);
    }
    lemma_tx_in_block_deterministic(blocks[i1], id, t1, t2);
}

/// Law: UTXO bookkeeping for a transaction with one input and two outputs.
/// Its effect on any UTXO map is exactly: the entry the input references is
/// removed, and two entries keyed by the transaction's id and the output
/// positions 0 and 1 are inserted.
pub proof fn lemma_utxo_bookkeeping(m: Map<(Seq<char>, int), TxOutV>, tx: TxV)
    requires
        tx.inputs.len() == 1,
        tx.outputs.len() == 2,
    ensures
        apply_tx(m, tx) == m.remove(utxo_key(tx.inputs[0])).insert(
            (tx_id_of(tx.inputs, tx.outputs), 0),
            tx.outputs[0],
        ).insert((tx_id_of(tx.inputs, tx.outputs), 1), tx.outputs[1]),
{
    let k0 = utxo_key(tx.inputs[0]);
    let m1 = m.remove(k0);
    assert(tx.inputs.drop_first().len() == 0);
    assert(remove_inputs(m1, tx.inputs.drop_first()) == m1);
    assert(remove_inputs(m, tx.inputs) == m1);
    let id = tx_id_of(tx.inputs, tx.outputs);
    let m2 = m1.insert((id, 0), tx.outputs[0]);
    let m3 = m2.insert((id, 1), tx.outputs[1]);
    assert(tx.outputs.drop_first()[0] == tx.outputs[1]);
    assert(tx.outputs.drop_first().drop_first().len() == 0);
    assert(insert_outputs(m3, id, tx.outputs.drop_first().drop_first(), 2) == m3);
    assert(insert_outputs(m2, id, tx.outputs.drop_first(), 1) == m3);
    assert(insert_outputs(m1, id, tx.outputs, 0) == m3);
}

/// Law: genesis acceptance. A block at height 0 is valid against any chain,
/// whatever its prev_hash holds.
pub proof fn lemma_genesis_always_valid(blocks: Seq<BlockV>, b: BlockV)
    requires
        b.height == 0,
    ensures
        spec_is_valid(blocks, b),
{
}

/// Law: linkage acceptance. A candidate whose prev_hash equals the hash of
/// a block already in the chain is valid.
pub proof fn lemma_linkage_acceptance(blocks: Seq<BlockV>, i: int, b: BlockV)
    requires
        0 <= i < blocks.len(),
        b.prev_hash == blocks[i].hash,
    ensures
        spec_is_valid(blocks, b),
{
    assert(blocks[i].hash == b.prev_hash);
}

/// Law: linkage rejection. A non-genesis candidate whose prev_hash matches
/// no accepted block's hash is invalid, and `add_block` then leaves the
/// chain unchanged.
pub proof fn lemma_linkage_rejection(blocks: Seq<BlockV>, b: BlockV)
    requires
        b.height > 0,
        forall|i: int| 0 <= i < blocks.len() ==> (#[trigger] blocks[i]).hash != b.prev_hash,
    ensures
        !spec_is_valid(blocks, b),
{
}

proof fn lemma_remove_inputs_push(m: Map<(Seq<char>, int), TxOutV>, s: Seq<TxInV>, t: TxInV)
    ensures
        remove_inputs(m, s.push(t)) == remove_inputs(m, s).remove(utxo_key(t)),
    decreases s.len(),
{
    if s.len() == 0 {
        assert(s.push(t)[0] == t);
        assert(s.push(t).drop_first() =~= Seq::<TxInV>::empty());
        assert(remove_inputs(m.remove(utxo_key(t)), Seq::<TxInV>::empty()) == m.remove(
            utxo_key(t),
        ));
    } else {
        assert(s.push(t)[0] == s[0]);
        assert(s.push(t).drop_first() =~= s.drop_first().push(t));
        lemma_remove_inputs_push(m.remove(utxo_key(s[0])), s.drop_first(), t);
    }
}

proof fn lemma_insert_outputs_push(
    m: Map<(Seq<char>, int), TxOutV>,
    txid: Seq<char>,
    s: Seq<TxOutV>,
    t: TxOutV,
    start: int,
)
    ensures
        insert_outputs(m, txid, s.push(t), start) == insert_outputs(m, txid, s, start).insert(
            (txid, start + s.len()),
            t,
        ),
    decreases s.len(),
{
    if s.len() == 0 {
        assert(s.push(t)[0] == t);
        assert(s.push(t).drop_first() =~= Seq::<TxOutV>::empty());
        assert(insert_outputs(m.insert((txid, start), t), txid, Seq::<TxOutV>::empty(), start + 1)
            == m.insert((txid, start), t));
    } else {
        assert(s.push(t)[0] == s[0]);
        assert(s.push(t).drop_first() =~= s.drop_first().push(t));
        lemma_insert_outputs_push(
            m.insert((txid, start), s[0]),
            txid,
            s.drop_first(),
            t,
            start + 1,
        );
    }
}

proof fn lemma_apply_txs_push(m: Map<(Seq<char>, int), TxOutV>, txs: Seq<TxV>, tx: TxV)
    ensures
        apply_txs(m, txs.push(tx)) == apply_tx(apply_txs(m, txs), tx),
    decreases txs.len(),
{
    if txs.len() == 0 {
        assert(txs.push(tx)[0] == tx);
        assert(txs.push(tx).drop_first() =~= Seq::<TxV>::empty());
        assert(apply_txs(apply_tx(m, tx), Seq::<TxV>::empty()) == apply_tx(m, tx));
    } else {
        assert(txs.push(tx)[0] == txs[0]);
        assert(txs.push(tx).drop_first() =~= txs.drop_first().push(tx));
        lemma_apply_txs_push(apply_tx(m, txs[0]), txs.drop_first(), tx);
    }
}

proof fn lemma_utxo_of_push(blocks: Seq<BlockV>, b: BlockV)
    ensures
        utxo_of(blocks.push(b)) == apply_block(utxo_of(blocks), b),
{
    assert(blocks.push(b).drop_last() =~= blocks);
    assert(blocks.push(b).last() == b);
}

/// The in-memory chain: accepted blocks, the height counter, and the UTXO
/// index, owned together so that acceptance updates them atomically.
pub struct BlockChain {
    blocks: Vec<Block>,
    height: u128,
    utxo_set: UtxoIndex,
}

pub ghost struct ChainV {
    pub blocks: Seq<BlockV>,
    pub height: u128,
    pub utxo: Map<(Seq<char>, int), TxOutV>,
}

impl View for BlockChain {
    type V = ChainV;

    closed spec fn view(&self) -> ChainV {
        ChainV {
            blocks: self.blocks.deep_view(),
            height: self.height,
            utxo: self.utxo_set.as_map(),
        }
    }
}

impl BlockChain {
    /// The representation invariant of the UTXO index.
    pub closed spec fn wf_repr(self) -> bool {
        self.utxo_set.wf()
    }

    /// The chain invariant: the height counter equals the number of
    /// accepted blocks, every non-genesis block links to the hash of a
    /// block accepted before it, and the UTXO index is exactly the set of
    /// outputs created minus outputs consumed by the accepted blocks, in
    /// acceptance order.
    pub open spec fn wf(self) -> bool {
        &&& self.wf_repr()
        &&& self@.height == self@.blocks.len()
        &&& chain_linked(self@.blocks)
        &&& self@.utxo == utxo_of(self@.blocks)
    }

    /// An empty chain: no blocks, height 0, empty UTXO index.
    pub fn new() -> (r: Self)
        ensures
            r.wf(),
            r@.blocks == Seq::<BlockV>::empty(),
            r@.height == 0,
            r@.utxo == Map::<(Seq<char>, int), TxOutV>::empty(),
    {
        let r = BlockChain { blocks: Vec::new(), height: 0, utxo_set: UtxoIndex::new() };
        proof {
            assert(r.blocks.deep_view() =~= Seq::<BlockV>::empty());
        }
        r
    }

    /// Whether the candidate may extend the chain: the pure linkage check.
    pub fn is_valid_block(&self, block: &Block) -> (r: bool)
        ensures
            r == spec_is_valid(self@.blocks, block@),
    {
        if block.height > 0 {
            self.get_block_by_hash(block.prev_hash.as_str()).is_some()
        } else {
            true
        }
    }

    /// The first accepted block whose hash equals the given one, if any.
    pub fn get_block_by_hash(&self, hash: &str) -> (r: Option<&Block>)
        ensures
            match r {
                Some(b) => found_block_by_hash(self@.blocks, hash@, b@),
                None => forall|i: int|
                    0 <= i < self@.blocks.len() ==> (#[trigger] self@.blocks[i]).hash != hash@,
            },
    {
        let key = hash.to_owned();
        let mut i: usize = 0;
        while i < self.blocks.len()
            invariant
                key@ == hash@,
                i <= self.blocks.len(),
                forall|j: int| 0 <= j < i ==> (#[trigger] self@.blocks[j]).hash != hash@,
            decreases self.blocks.len() - i,
        {
            if self.blocks[i].hash == key {
                let b = &self.blocks[i];
                proof {
                    assert(self@.blocks[i as int] == b@);
                    assert(b@.hash == hash@);
                }
                return Some(b);
            }
            proof {
                assert((self@.blocks[i as int]).hash != hash@);
            }
            i += 1;
        }
        None
    }

    /// The block at the given position in acceptance order, if any.
    pub fn get_block_by_height(&self, height: usize) -> (r: Option<&Block>)
        ensures
            match r {
                Some(b) => height < self@.blocks.len() && b@ == self@.blocks[height as int],
                None => height >= self@.blocks.len(),
            },
    {
        if height < self.blocks.len() {
            let b = &self.blocks[height];
            proof {
                assert(self@.blocks[height as int] == b@);
            }
            Some(b)
        } else {
            None
        }
    }

    /// The number of accepted blocks.
    pub fn get_block_count(&self) -> (r: usize)
        ensures
            r == self@.blocks.len(),
    {
        self.blocks.len()
    }

    /// The first transaction carrying the given id, scanning the blocks in
    /// acceptance order and each block's transactions in stored order.
    pub fn get_transaction(&self, txid: &str) -> (r: Option<&Transaction>)
        ensures
            match r {
                Some(t) => found_transaction(self@.blocks, txid@, t@),
                None => forall|i: int|
                    0 <= i < self@.blocks.len() ==> !block_contains_txid(self@.blocks[i], txid@),
            },
    {
        let mut i: usize = 0;
        while i < self.blocks.len()
            invariant
                i <= self.blocks.len(),
                forall|i2: int| 0 <= i2 < i ==> !block_contains_txid(self@.blocks[i2], txid@),
            decreases self.blocks.len() - i,
        {
            let found = self.blocks[i].get_transaction(txid);
            match found {
                Some(t) => {
                    proof {
                        assert(self@.blocks[i as int] == self.blocks[i as int]@);
                        assert(found_tx_in_block(self@.blocks[i as int], txid@, t@));
                    }
                    return Some(t);
                },
                None => {
                    proof {
                        assert(self@.blocks[i as int] == self.blocks[i as int]@);
                        if block_contains_txid(self@.blocks[i as int], txid@) {
                            let j = choose|j: int|
                                0 <= j < self@.blocks[i as int].transactions.len()
                                    && self@.blocks[i as int].transactions[j].txid == txid@;
                            assert(self@.blocks[i as int].transactions[j].txid == txid@);
                            assert(false);
                        }
                    }
                },
            }
            i += 1;
        }
        None
    }

    /// The hash of the most recently accepted block, or absent on an empty
    /// chain.
    pub fn get_best_block_hash(&self) -> (r: Option<&str>)
        ensures
            match r {
                Some(h) => self@.blocks.len() > 0 && h@ == self@.blocks.last().hash,
                None => self@.blocks.len() == 0,
            },
    {
        if self.blocks.len() == 0 {
            None
        } else {
            let b = &self.blocks[self.blocks.len() - 1];
            proof {
                assert(self@.blocks[self.blocks@.len() - 1] == b@);
            }
            Some(b.hash.as_str())
        }
    }

    /// Read-only lookup into the UTXO index, usable by balance and wallet
    /// queries.
    pub fn get_utxo(&self, txid: &str, index: usize) -> (r: Option<&TxOut>)
        requires
            self.wf(),
        ensures
            match r {
                Some(o) => self@.utxo.contains_key((txid@, index as int)) && o@ == self@.utxo[
                    (txid@, index as int)
                ],
                None => !self@.utxo.contains_key((txid@, index as int)),
            },
    {
        self.utxo_set.get(txid, index)
    }

    /// Accepts the block if the linkage check passes: removes the UTXO
    /// entries its inputs consume, inserts an entry for every output it
    /// creates, appends the block and advances the height, all as one unit.
    /// An invalid block is discarded and the chain is unchanged.
    pub fn add_block(&mut self, block: Block)
        requires
            old(self).wf(),
        ensures
            final(self).wf(),
            spec_is_valid(old(self)@.blocks, block@) ==> final(self)@.blocks == old(
                self,
            )@.blocks.push(block@) && final(self)@.utxo == apply_block(old(self)@.utxo, block@)
                && final(self)@.height == old(self)@.height + 1,
            !spec_is_valid(old(self)@.blocks, block@) ==> final(self)@ == old(self)@,
    {
        let valid = self.is_valid_block(&block);
        if !valid {
            return ;
        }
        let ghost m0 = old(self)@.utxo;
        let ghost txs = block@.transactions;
        let mut i: usize = 0;
        while i < block.transactions.len()
            invariant
                i <= block.transactions.len(),
                txs == block@.transactions,
                self.blocks == old(self).blocks,
                self.height == old(self).height,
                self.utxo_set.wf(),
                self.utxo_set.as_map() == apply_txs(m0, txs.take(i as int)),
                m0 == old(self)@.utxo,
            decreases block.transactions.len() - i,
        {
            let tx = &block.transactions[i];
            let ghost m_tx = self.utxo_set.as_map();
            proof {
                assert(tx@ == txs[i as int]);
            }
            let mut j: usize = 0;
            while j < tx.inputs.len()
                invariant
                    j <= tx.inputs.len(),
                    self.blocks == old(self).blocks,
                    self.height == old(self).height,
                    self.utxo_set.wf(),
                    self.utxo_set.as_map() == remove_inputs(m_tx, tx@.inputs.take(j as int)),
                decreases tx.inputs.len() - j,
            {
                let txin = &tx.inputs[j];
                proof {
                    assert(txin@ == tx@.inputs[j as int]);
                }
                self.utxo_set.remove(txin.prev_txid.as_str(), txin.out);
                proof {
                    assert(tx@.inputs.take(j + 1) =~= tx@.inputs.take(j as int).push(
                        tx@.inputs[j as int],
                    ));
                    lemma_remove_inputs_push(m_tx, tx@.inputs.take(j as int), tx@.inputs[j as int]);
                    assert(utxo_key(tx@.inputs[j as int]) == (txin.prev_txid@, txin.out as int));
                }
                j += 1;
            }
            proof {
                assert(tx@.inputs.take(tx.inputs.len() as int) =~= tx@.inputs);
            }
            let txid = tx.calculate_txid();
            let ghost m_in = self.utxo_set.as_map();
            let mut p: usize = 0;
            while p < tx.outputs.len()
                invariant
                    p <= tx.outputs.len(),
                    self.blocks == old(self).blocks,
                    self.height == old(self).height,
                    self.utxo_set.wf(),
                    txid@ == tx_id_of(tx@.inputs, tx@.outputs),
                    self.utxo_set.as_map() == insert_outputs(
                        m_in,
                        txid@,
                        tx@.outputs.take(p as int),
                        0,
                    ),
                decreases tx.outputs.len() - p,
            {
                let txout = &tx.outputs[p];
                proof {
                    assert(txout@ == tx@.outputs[p as int]);
                }
                self.utxo_set.insert(txid.clone(), p, txout.clone());
                proof {
                    assert(tx@.outputs.take(p + 1) =~= tx@.outputs.take(p as int).push(
                        tx@.outputs[p as int],
                    ));
                    lemma_insert_outputs_push(
                        m_in,
                        txid@,
                        tx@.outputs.take(p as int),
                        tx@.outputs[p as int],
                        0,
                    );
                    assert(tx@.outputs.take(p as int).len() == p as int);
                }
                p += 1;
            }
            proof {
                assert(tx@.outputs.take(tx.outputs.len() as int) =~= tx@.outputs);
                assert(self.utxo_set.as_map() == apply_tx(m_tx, tx@));
                assert(txs.take(i + 1) =~= txs.take(i as int).push(txs[i as int]));
                lemma_apply_txs_push(m0, txs.take(i as int), txs[i as int]);
            }
            i += 1;
        }
        proof {
            assert(txs.take(block.transactions.len() as int) =~= txs);
        }
        let ghost pre_push = *self;
        self.blocks.push(block);
        proof {
            assert(old(self).blocks.len() == old(self).blocks@.len());
            assert(old(self)@.blocks.len() == old(self).blocks@.len());
            assert(self.height <= usize::MAX as u128);
        }
        self.height = self.height + 1;
        proof {
            assert(self.blocks.deep_view() =~= pre_push.blocks.deep_view().push(block@));
            assert(pre_push.blocks.deep_view() == old(self)@.blocks);
            lemma_utxo_of_push(old(self)@.blocks, block@);
            assert(final(self)@.blocks == old(self)@.blocks.push(block@));
            assert(final(self)@.utxo == apply_block(old(self)@.utxo, block@));
            // linkage is preserved: old blocks keep their earlier witnesses,
            // and the new block, if not genesis, links by the validity check
            let obs = old(self)@.blocks;
            let nbs = final(self)@.blocks;
            assert forall|q: int|
                0 <= q < nbs.len() && (#[trigger] nbs[q]).height > 0 implies exists|j: int|
                0 <= j < q && nbs[j].hash == nbs[q].prev_hash by {
                if q < obs.len() {
                    assert(nbs[q] == obs[q]);
                    assert(obs[q].height > 0);
                    let j = choose|j: int| 0 <= j < q && obs[j].hash == obs[q].prev_hash;
                    assert(nbs[j] == obs[j]);
                    assert(0 <= j < q && nbs[j].hash == nbs[q].prev_hash);
                } else {
                    assert(nbs[q] == block@);
                    let j = choose|j: int|
                        0 <= j < obs.len() && obs[j].hash == block@.prev_hash;
                    assert(nbs[j] == obs[j]);
                    assert(0 <= j < q && nbs[j].hash == nbs[q].prev_hash);
                }
            }
        }
    }
}

} // verus!
