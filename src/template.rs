//! Block templates for miners, and the miner fees of a candidate block.
use vstd::prelude::*;
use crate::chain::{Blockchain, MempoolEntryView, pool_sorted, precedes};
use crate::crypto::PublicKey;
use crate::error::BtcError;
use crate::merkle::merkle_root_of;
use crate::rules::{
    UtxoMap, block_reward, block_reward_at, input_values, inputs_exist, inputs_value,
    sum_output_values, sum_outputs, u64_max,
};
use crate::BLOCK_TRANSACTION_CAP;
use crate::types::{
    Block, BlockHeader, BlockView, MerkleRoot, Transaction, TransactionOutput, TransactionView, header_hash,
    is_coinbase, txs_view,
};

verus! {

/// The total fee of the spending transactions, or `None` where one of them
/// spends a missing output or pays out more than it spends.
pub open spec fn miner_fees_of(m: UtxoMap, txs: Seq<TransactionView>) -> Option<int>
    decreases txs.len(),
{
    if txs.len() == 0 {
        Some(0)
    } else {
        match miner_fees_of(m, txs.drop_last()) {
            None => None,
            Some(s) => {
                let t = txs.last();
                if is_coinbase(t) {
                    Some(s)
                } else if !inputs_exist(m, t.inputs) || inputs_value(m, t.inputs) < sum_outputs(
                    t.outputs,
                ) {
                    None
                } else {
                    Some(s + inputs_value(m, t.inputs) - sum_outputs(t.outputs))
                }
            },
        }
    }
}

/// The hash that the next block must name as its predecessor.
pub open spec fn tip_hash(chain: Seq<BlockView>) -> crate::hash::Hash {
    if chain.len() == 0 {
        crate::hash::zero_hash()
    } else {
        header_hash(chain.last().header)
    }
}

pub open spec fn coinbase_view(payee: PublicKey, unique_id: u128, value: u64) -> TransactionView {
    TransactionView {
        inputs: seq![],
        outputs: seq![TransactionOutput { value, unique_id, public_key: payee }],
    }
}

/// How many mempool transactions a template takes.
pub open spec fn template_count(pool_len: nat) -> nat {
    if pool_len < BLOCK_TRANSACTION_CAP {
        pool_len
    } else {
        BLOCK_TRANSACTION_CAP as nat
    }
}

pub open spec fn pool_txs(pool: Seq<MempoolEntryView>) -> Seq<TransactionView> {
    pool.map_values(|e: MempoolEntryView| e.transaction)
}

/// A template's transactions: the coinbase, then the first mempool entries.
pub open spec fn template_txs(
    pool: Seq<MempoolEntryView>,
    payee: PublicKey,
    unique_id: u128,
    value: u64,
) -> Seq<TransactionView> {
    seq![coinbase_view(payee, unique_id, value)] + pool_txs(
        pool.take(template_count(pool.len()) as int),
    )
}

/// The template that the chain's state gives for `payee`, or `None` where the
/// fees cannot be computed or the coinbase payment does not fit.
pub open spec fn template_of(
    chain: Seq<BlockView>,
    m: UtxoMap,
    pool: Seq<MempoolEntryView>,
    target: crate::u256::Uint256,
    payee: PublicKey,
    unique_id: u128,
    now: u64,
) -> Option<BlockView> {
    let reward = block_reward_at(chain.len());
    match miner_fees_of(m, template_txs(pool, payee, unique_id, 0)) {
        Some(f) => if f + reward <= u64_max() {
            let txs = template_txs(pool, payee, unique_id, (f + reward) as u64);
            Some(
                BlockView {
                    header: BlockHeader {
                        timestamp: now,
                        nonce: 0,
                        prev_block_hash: tip_hash(chain),
                        merkle_root: merkle_root_of(txs),
                        target,
                    },
                    transactions: txs,
                },
            )
        } else {
            None
        },
        None => None,
    }
}

impl Block {
    /// The total fee of the block's spending transactions, their inputs
    /// looked up among the unspent outputs.
    pub fn calculate_miner_fees(&self, utxos: &crate::utxo::UtxoSet) -> (r: Result<u64, BtcError>)
        ensures
            match miner_fees_of(utxos@, self@.transactions) {
                Some(f) => if f <= u64_max() {
                    r == Ok::<u64, BtcError>(f as u64)
                } else {
                    r == Err::<u64, BtcError>(BtcError::InvalidTransaction)
                },
                None => r == Err::<u64, BtcError>(BtcError::InvalidTransaction),
            },
    {
        let ghost tv = self@.transactions;
        let ghost m = utxos@;
        let mut total: u64 = 0;
        let mut big = false;
        let mut i: usize = 0;
        while i < self.transactions.len()
            invariant
                i <= self.transactions@.len(),
                tv == self@.transactions,
                m == utxos@,
                miner_fees_of(m, tv.take(i as int)) is Some,
                !big ==> miner_fees_of(m, tv.take(i as int)) == Some(total as int),
                big ==> miner_fees_of(m, tv.take(i as int)).unwrap() > u64_max(),
            decreases self.transactions@.len() - i,
        {
            let t = &self.transactions[i];
            proof {
                assert(tv.take(i + 1).drop_last() =~= tv.take(i as int));
                assert(tv.take(i + 1).last() == t@);
            }
            if t.inputs.len() != 0 {
                let ins = match input_values(utxos, &t.inputs) {
                    None => {
                        proof {
                            lemma_fees_none_prefix(m, tv, i + 1);
                        }
                        return Err(BtcError::InvalidTransaction);
                    },
                    Some(v) => v,
                };
                let outs = sum_output_values(&t.outputs);
                if ins < outs {
                    proof {
                        lemma_fees_none_prefix(m, tv, i + 1);
                    }
                    return Err(BtcError::InvalidTransaction);
                }
                let fee = ins - outs;
                if !big {
                    if fee > (u64::MAX - total) as u128 {
                        big = true;
                    } else {
                        total = total + fee as u64;
                    }
                }
            }
            i = i + 1;
        }
        assert(tv.take(i as int) =~= tv);
        if big {
            Err(BtcError::InvalidTransaction)
        } else {
            Ok(total)
        }
    }
}

/// A total fee is never negative.
pub proof fn lemma_fees_nonneg(m: UtxoMap, txs: Seq<TransactionView>)
    ensures
        miner_fees_of(m, txs) is Some ==> miner_fees_of(m, txs).unwrap() >= 0,
    decreases txs.len(),
{
    if txs.len() > 0 {
        lemma_fees_nonneg(m, txs.drop_last());
    }
}

/// Once a prefix has no total fee, neither has the whole list.
proof fn lemma_fees_none_prefix(m: UtxoMap, txs: Seq<TransactionView>, k: int)
    requires
        0 <= k <= txs.len(),
        miner_fees_of(m, txs.take(k)) is None,
    ensures
        miner_fees_of(m, txs) is None,
    decreases txs.len() - k,
{
    if k < txs.len() {
        assert(txs.drop_last().take(k) =~= txs.take(k));
        lemma_fees_none_prefix(m, txs.drop_last(), k);
    } else {
        assert(txs.take(k) =~= txs);
    }
}

impl Blockchain {
    /// The hash that the next block must name as its predecessor.
    pub fn tip_hash(&self) -> (r: crate::hash::Hash)
        ensures
            r == tip_hash(self.chain()),
    {
        let n = self.blocks.len();
        if n == 0 {
            crate::hash::Hash::zero()
        } else {
            assert(self.chain().last() == self.blocks@[n - 1]@);
            self.blocks[n - 1].header.hash()
        }
    }

    /// Whether a template still extends the chain's last block.
    pub fn template_is_current(&self, block: &Block) -> (r: bool)
        ensures
            r == (block.header.prev_block_hash == tip_hash(self.chain())),
    {
        block.header.prev_block_hash == self.tip_hash()
    }

    /// A candidate block paying `payee`: a coinbase with the given id, then
    /// the first mempool transactions; stamped `now`, nonce zero, the
    /// current target; the coinbase pays the reward and the fees. Fails
    /// where the fees cannot be computed or the payment does not fit.
    pub fn build_template(&self, payee: PublicKey, unique_id: u128, now: u64) -> (r: Result<Block, BtcError>)
        ensures
            match template_of(self.chain(), self.utxos@, self.pool(), self.target, payee, unique_id, now) {
                Some(b) => r is Ok && r.unwrap()@ == b,
                None => r == Err::<Block, BtcError>(BtcError::InvalidTransaction),
            },
    {
        let txs0 = self.template_transactions(payee, unique_id, 0);
        let probe = Block {
            header: BlockHeader {
                timestamp: now,
                nonce: 0,
                prev_block_hash: crate::hash::Hash::zero(),
                merkle_root: MerkleRoot(crate::hash::Hash::zero()),
                target: self.target,
            },
            transactions: txs0,
        };
        let fees = match probe.calculate_miner_fees(&self.utxos) {
            Err(e) => {
                return Err(e);
            },
            Ok(f) => f,
        };
        let reward = self.calculate_block_reward();
        proof {
            lemma_fees_nonneg(self.utxos@, probe@.transactions);
        }
        if fees > u64::MAX - reward {
            return Err(BtcError::InvalidTransaction);
        }
        let value = reward + fees;
        let txs = self.template_transactions(payee, unique_id, value);
        let merkle_root = MerkleRoot::calculate(&txs);
        let header = BlockHeader {
            timestamp: now,
            nonce: 0,
            prev_block_hash: self.tip_hash(),
            merkle_root,
            target: self.target,
        };
        Ok(Block { header, transactions: txs })
    }

    /// The coinbase paying `value` to `payee`, then the first mempool
    /// transactions.
    fn template_transactions(&self, payee: PublicKey, unique_id: u128, value: u64) -> (r: Vec<
        Transaction,
    >)
        ensures
            txs_view(r@) == template_txs(self.pool(), payee, unique_id, value),
    {
        let n = if self.mempool.len() < BLOCK_TRANSACTION_CAP {
            self.mempool.len()
        } else {
            BLOCK_TRANSACTION_CAP
        };
        let ghost pool = self.pool();
        let mut txs: Vec<Transaction> = Vec::new();
        let mut outputs: Vec<TransactionOutput> = Vec::new();
        outputs.push(TransactionOutput { value, unique_id, public_key: payee });
        let coinbase = Transaction { inputs: Vec::new(), outputs };
        assert(coinbase@.inputs =~= coinbase_view(payee, unique_id, value).inputs);
        assert(coinbase@.outputs =~= coinbase_view(payee, unique_id, value).outputs);
        txs.push(coinbase);
        assert(pool.take(0) =~= Seq::<MempoolEntryView>::empty());
        let mut i: usize = 0;
        while i < n
            invariant
                n == template_count(pool.len()),
                n <= self.mempool@.len(),
                pool == self.pool(),
                i <= n,
                txs_view(txs@) =~= seq![coinbase_view(payee, unique_id, value)] + pool_txs(
                    pool.take(i as int),
                ),
            decreases n - i,
        {
            let t = self.mempool[i].transaction.copy();
            let ghost before = txs_view(txs@);
            assert(t@ == pool[i as int].transaction);
            txs.push(t);
            assert(txs_view(txs@) =~= before.push(pool[i as int].transaction));
            assert(pool_txs(pool.take(i + 1)) =~= pool_txs(pool.take(i as int)).push(
                pool[i as int].transaction,
            ));
            i = i + 1;
        }
        assert(txs_view(txs@) =~= template_txs(pool, payee, unique_id, value));
        txs
    }

    /// A template for `payee`, stamped with the current time and a fresh
    /// coinbase id: the template that the chain's state gives for some id and
    /// time. It fails exactly where the fees cannot be computed or the
    /// coinbase payment does not fit, which neither the id nor the time
    /// decides.
    pub fn fetch_template(&self, payee: PublicKey) -> (r: Result<Block, BtcError>)
        ensures
            r is Ok ==> exists|id: u128, t: u64|
                #[trigger] template_of(self.chain(), self.utxos@, self.pool(), self.target, payee, id, t)
                    == Some(r.unwrap()@),
            r is Ok ==> r.unwrap().header.prev_block_hash == tip_hash(self.chain())
                && r.unwrap().header.nonce == 0 && r.unwrap().header.target == self.target
                && r.unwrap().header.merkle_root == merkle_root_of(r.unwrap()@.transactions),
            match miner_fees_of(self.utxos@, template_txs(self.pool(), payee, 0, 0)) {
                Some(f) => f + block_reward_at(self.chain().len()) <= u64_max() <==> r is Ok,
                None => r is Err,
            },
    {
        let id = crate::clock::new_unique_id();
        let now = crate::clock::now();
        let r = self.build_template(payee, id, now);
        proof {
            lemma_fees_ignore_coinbase(self.utxos@, self.pool(), payee, id, 0);
            if r is Ok {
                assert(template_of(self.chain(), self.utxos@, self.pool(), self.target, payee, id, now)
                    == Some(r.unwrap()@));
            }
        }
        r
    }
}

/// A template takes the first entries of an ordered mempool: no entry left
/// out comes before one taken.
pub proof fn lemma_template_takes_best(pool: Seq<MempoolEntryView>, i: int, j: int)
    requires
        pool_sorted(pool),
        0 <= i < template_count(pool.len()) <= j < pool.len(),
    ensures
        precedes(pool[i], pool[j]),
{
}

/// The coinbase's id plays no part in the fees.
proof fn lemma_fees_ignore_coinbase(
    m: UtxoMap,
    pool: Seq<MempoolEntryView>,
    payee: PublicKey,
    a: u128,
    b: u128,
)
    ensures
        miner_fees_of(m, template_txs(pool, payee, a, 0)) == miner_fees_of(
            m,
            template_txs(pool, payee, b, 0),
        ),
{
    lemma_fees_same_rest(m, template_txs(pool, payee, a, 0), template_txs(pool, payee, b, 0));
}

proof fn lemma_fees_same_rest(m: UtxoMap, x: Seq<TransactionView>, y: Seq<TransactionView>)
    requires
        x.len() == y.len(),
        x.len() >= 1,
        is_coinbase(x[0]),
        is_coinbase(y[0]),
        forall|k: int| 1 <= k < x.len() ==> x[k] == y[k],
    ensures
        miner_fees_of(m, x) == miner_fees_of(m, y),
    decreases x.len(),
{
    reveal_with_fuel(miner_fees_of, 2);
    let xd = x.drop_last();
    let yd = y.drop_last();
    if x.len() > 1 {
        assert(xd[0] == x[0]);
        assert(yd[0] == y[0]);
        assert forall|k: int| 1 <= k < x.len() - 1 implies x.drop_last()[k] == y.drop_last()[k] by {
            assert(x[k] == y[k]);
        }
        lemma_fees_same_rest(m, x.drop_last(), y.drop_last());
        assert(x.last() == y.last());
    } else {
        assert(x.drop_last().len() == 0);
        assert(y.drop_last().len() == 0);
        assert(x.last() == x[0]);
        assert(y.last() == y[0]);
    }
}

} // verus!
