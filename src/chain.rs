//! The chain engine: blocks, unspent outputs, mempool and difficulty target.
use vstd::prelude::*;
use crate::error::BtcError;
use crate::types::MerkleRoot;
use crate::rules::{
    UtxoMap, add_outputs, apply_txs, as_result, block_error, block_prevs, sum_outputs, block_reward, block_reward_at,
    chain_valid, check_transaction, collect_prevs, fees_sum, has_duplicates, inputs_exist,
    inputs_signed, inputs_value, replay, same_outputs, spend_inputs, sum_output_values, tx_error,
    tx_fee, txs_error,
};
use crate::hash::zero_hash;
use crate::merkle::merkle_root_of;
use crate::types::{
    Block, BlockView, Transaction, TransactionView, header_hash, is_coinbase, transaction_hash,
    txs_view,
};
use crate::u256::{Uint256, min_target_value, u256_bound};
use crate::utxo::{UtxoSet, map_remark};
use crate::{DIFFICULTY_UPDATE_INTERVAL, EXPECTED_WINDOW_TIME, MAX_WINDOW_TIME, MIN_WINDOW_TIME};

verus! {

/// A mempool transaction: when it was admitted, and the fee it pays.
pub struct MempoolEntry {
    pub admitted_at: u64,
    pub fee: u128,
    pub transaction: Transaction,
}

pub struct MempoolEntryView {
    pub admitted_at: u64,
    pub fee: u128,
    pub transaction: TransactionView,
}

impl View for MempoolEntry {
    type V = MempoolEntryView;

    open spec fn view(&self) -> MempoolEntryView {
        MempoolEntryView {
            admitted_at: self.admitted_at,
            fee: self.fee,
            transaction: self.transaction@,
        }
    }
}

impl MempoolEntry {
    pub fn copy(&self) -> (r: MempoolEntry)
        ensures
            r@ == self@,
    {
        MempoolEntry {
            admitted_at: self.admitted_at,
            fee: self.fee,
            transaction: self.transaction.copy(),
        }
    }
}

pub open spec fn blocks_view(s: Seq<Block>) -> Seq<BlockView> {
    s.map_values(|b: Block| b@)
}

pub open spec fn pool_view(s: Seq<MempoolEntry>) -> Seq<MempoolEntryView> {
    s.map_values(|e: MempoolEntry| e@)
}

/// The hashes of a block's transactions.
pub open spec fn block_tx_hashes(b: BlockView) -> Seq<crate::hash::Hash> {
    b.transactions.map_values(|t: TransactionView| transaction_hash(t))
}

/// The entries that satisfy `p`, in order.
pub open spec fn keep(pool: Seq<MempoolEntryView>, p: spec_fn(MempoolEntryView) -> bool) -> Seq<
    MempoolEntryView,
>
    decreases pool.len(),
{
    if pool.len() == 0 {
        seq![]
    } else if p(pool.last()) {
        keep(pool.drop_last(), p).push(pool.last())
    } else {
        keep(pool.drop_last(), p)
    }
}

/// The mempool entries whose transaction is not among the hashes.
pub open spec fn unconfirmed(pool: Seq<MempoolEntryView>, hs: Seq<crate::hash::Hash>) -> Seq<
    MempoolEntryView,
> {
    keep(pool, |e: MempoolEntryView| !hs.contains(transaction_hash(e.transaction)))
}

/// Mempool order: higher fee first, then earlier admission.
pub open spec fn precedes(a: MempoolEntryView, b: MempoolEntryView) -> bool {
    a.fee > b.fee || (a.fee == b.fee && a.admitted_at <= b.admitted_at)
}

/// The entries are in mempool order.
pub open spec fn pool_sorted(pool: Seq<MempoolEntryView>) -> bool {
    forall|i: int, j: int| 0 <= i < j < pool.len() ==> precedes(#[trigger] pool[i], #[trigger] pool[j])
}

/// What holds of every entry holds of every entry kept.
pub proof fn lemma_keep_all(
    pool: Seq<MempoolEntryView>,
    p: spec_fn(MempoolEntryView) -> bool,
    q: spec_fn(MempoolEntryView) -> bool,
)
    requires
        forall|i: int| 0 <= i < pool.len() ==> q(#[trigger] pool[i]),
    ensures
        forall|k: int| 0 <= k < keep(pool, p).len() ==> q(#[trigger] keep(pool, p)[k]),
    decreases pool.len(),
{
    if pool.len() > 0 {
        let d = pool.drop_last();
        assert forall|i: int| 0 <= i < d.len() implies q(#[trigger] d[i]) by {
            assert(d[i] == pool[i]);
        }
        lemma_keep_all(d, p, q);
        let sub = keep(d, p);
        let r = keep(pool, p);
        assert forall|k: int| 0 <= k < r.len() implies q(#[trigger] r[k]) by {
            if k < sub.len() {
                assert(r[k] == sub[k]);
            } else {
                assert(r[k] == pool[pool.len() - 1]);
            }
        }
    }
}

/// Every entry kept satisfies the predicate.
pub proof fn lemma_keep_pred(pool: Seq<MempoolEntryView>, p: spec_fn(MempoolEntryView) -> bool)
    ensures
        forall|k: int| 0 <= k < keep(pool, p).len() ==> p(#[trigger] keep(pool, p)[k]),
    decreases pool.len(),
{
    if pool.len() > 0 {
        let d = pool.drop_last();
        lemma_keep_pred(d, p);
        let sub = keep(d, p);
        let r = keep(pool, p);
        assert forall|k: int| 0 <= k < r.len() implies p(#[trigger] r[k]) by {
            if k < sub.len() {
                assert(r[k] == sub[k]);
            }
        }
    }
}

/// Keeping entries keeps them in order.
pub proof fn lemma_keep_sorted(pool: Seq<MempoolEntryView>, p: spec_fn(MempoolEntryView) -> bool)
    requires
        pool_sorted(pool),
    ensures
        pool_sorted(keep(pool, p)),
    decreases pool.len(),
{
    if pool.len() > 0 {
        let d = pool.drop_last();
        let last = pool.last();
        assert(pool_sorted(d)) by {
            assert forall|i: int, j: int| 0 <= i < j < d.len() implies precedes(
                #[trigger] d[i],
                #[trigger] d[j],
            ) by {
                assert(d[i] == pool[i] && d[j] == pool[j]);
            }
        }
        lemma_keep_sorted(d, p);
        let before_last = |e: MempoolEntryView| precedes(e, last);
        assert forall|i: int| 0 <= i < d.len() implies before_last(#[trigger] d[i]) by {
            assert(d[i] == pool[i]);
            assert(pool[pool.len() - 1] == last);
        }
        lemma_keep_all(d, p, before_last);
        let sub = keep(d, p);
        let r = keep(pool, p);
        assert forall|i: int, j: int| 0 <= i < j < r.len() implies precedes(
            #[trigger] r[i],
            #[trigger] r[j],
        ) by {
            if j < sub.len() {
                assert(r[i] == sub[i] && r[j] == sub[j]);
            } else {
                assert(r[i] == sub[i]);
                assert(r[j] == last);
                assert(before_last(sub[i]));
            }
        }
    }
}

/// Keeping every entry keeps the list; keeping none leaves nothing.
pub proof fn lemma_keep_every(pool: Seq<MempoolEntryView>, p: spec_fn(MempoolEntryView) -> bool)
    ensures
        (forall|i: int| 0 <= i < pool.len() ==> p(#[trigger] pool[i])) ==> keep(pool, p) == pool,
        (forall|i: int| 0 <= i < pool.len() ==> !p(#[trigger] pool[i])) ==> keep(pool, p).len()
            == 0,
    decreases pool.len(),
{
    if pool.len() > 0 {
        let d = pool.drop_last();
        lemma_keep_every(d, p);
        if forall|i: int| 0 <= i < pool.len() ==> p(#[trigger] pool[i]) {
            assert forall|i: int| 0 <= i < d.len() implies p(#[trigger] d[i]) by {
                assert(d[i] == pool[i]);
            }
            assert(p(pool[pool.len() - 1]));
            assert(d.push(pool.last()) =~= pool);
        }
        if forall|i: int| 0 <= i < pool.len() ==> !p(#[trigger] pool[i]) {
            assert forall|i: int| 0 <= i < d.len() implies !p(#[trigger] d[i]) by {
                assert(d[i] == pool[i]);
            }
            assert(!p(pool[pool.len() - 1]));
        }
    }
}

/// The flags of the inputs' outputs set to `b`, one input after another.
pub open spec fn set_marks(m: UtxoMap, ins: Seq<crate::types::TransactionInput>, b: bool) -> UtxoMap
    decreases ins.len(),
{
    if ins.len() == 0 {
        m
    } else {
        map_remark(set_marks(m, ins.drop_last(), b), ins.last().prev_transaction_output_hash, b)
    }
}

/// The outputs that the mempool's transactions spend, reserved.
pub open spec fn mark_pool(m: UtxoMap, pool: Seq<MempoolEntryView>) -> UtxoMap
    decreases pool.len(),
{
    if pool.len() == 0 {
        m
    } else {
        set_marks(mark_pool(m, pool.drop_last()), pool.last().transaction.inputs, true)
    }
}

/// The seconds between the first and the last block of the last window.
pub open spec fn window_time(chain: Seq<BlockView>) -> int {
    chain[chain.len() - 1].header.timestamp - chain[chain.len() - DIFFICULTY_UPDATE_INTERVAL].header.timestamp
}

pub open spec fn clamp_time(actual: int) -> int {
    if actual < MIN_WINDOW_TIME {
        MIN_WINDOW_TIME as int
    } else if actual > MAX_WINDOW_TIME {
        MAX_WINDOW_TIME as int
    } else {
        actual
    }
}

/// The target scaled by the observed over the expected window time,
/// that ratio kept within [1/4, 4], the result kept within [1, MIN_TARGET].
pub open spec fn adjusted_target(target: nat, actual: int) -> nat {
    let t = (target * clamp_time(actual) as nat) / EXPECTED_WINDOW_TIME as nat;
    if t < 1 {
        1
    } else if t > min_target_value() {
        min_target_value()
    } else {
        t
    }
}

/// An adjusted target is the old one scaled by the observed over the ideal
/// window time, that ratio kept within [1/4, 4], and it stays within
/// [1, MIN_TARGET].
pub proof fn lemma_adjusted_target(target: nat, actual: int)
    ensures
        1 <= adjusted_target(target, actual) <= min_target_value(),
        EXPECTED_WINDOW_TIME / 4 <= clamp_time(actual) <= EXPECTED_WINDOW_TIME * 4,
        ({
            let t = target * (clamp_time(actual) as nat) / (EXPECTED_WINDOW_TIME as nat);
            adjusted_target(target, actual) == if t < 1 {
                1
            } else if t > min_target_value() {
                min_target_value()
            } else {
                t
            }
        }),
        1 <= target <= min_target_value() ==> target / 4 <= adjusted_target(target, actual)
            <= target * 4,
        actual < MIN_WINDOW_TIME && target <= min_target_value() ==> adjusted_target(target, actual)
            == if target / 4 < 1 {
            1
        } else {
            target / 4
        },
{
    let c = clamp_time(actual) as nat;
    let t = target * c / 500;
    assert(target * 125 <= target * c <= target * 2000) by (nonlinear_arith)
        requires 125 <= c <= 2000;
    vstd::arithmetic::div_mod::lemma_div_is_ordered((target * 125) as int, (target * c) as int, 500);
    vstd::arithmetic::div_mod::lemma_div_is_ordered((target * c) as int, (target * 2000) as int, 500);
    assert((target * 125) / 500 == target / 4) by {
        vstd::arithmetic::div_mod::lemma_div_denominator((target * 125) as int, 125, 4);
        vstd::arithmetic::div_mod::lemma_div_by_multiple(target as int, 125);
    }
    assert((target * 2000) / 500 == target * 4) by {
        vstd::arithmetic::div_mod::lemma_div_by_multiple((target * 4) as int, 500);
        assert(target * 2000 == target * 4 * 500) by (nonlinear_arith);
    }
}

/// The target after a chain reaches its length: adjusted where the length is
/// a positive multiple of the update interval.
pub open spec fn target_after(chain: Seq<BlockView>, target: Uint256) -> nat {
    if chain.len() >= DIFFICULTY_UPDATE_INTERVAL && chain.len() % DIFFICULTY_UPDATE_INTERVAL as nat == 0 {
        adjusted_target(target.value(), window_time(chain))
    } else {
        target.value()
    }
}

proof fn lemma_inputs_value_same(a: UtxoMap, b: UtxoMap, ins: Seq<crate::types::TransactionInput>)
    requires
        same_outputs(a, b),
        inputs_exist(a, ins),
    ensures
        inputs_value(a, ins) == inputs_value(b, ins),
    decreases ins.len(),
{
    if ins.len() > 0 {
        assert(a.contains_key(ins[ins.len() - 1].prev_transaction_output_hash));
        lemma_inputs_value_same(a, b, ins.drop_last());
    }
}

proof fn lemma_exist_same(a: UtxoMap, b: UtxoMap, ins: Seq<crate::types::TransactionInput>)
    requires
        same_outputs(a, b),
    ensures
        inputs_exist(a, ins) == inputs_exist(b, ins),
{
    if inputs_exist(a, ins) {
        assert forall|i: int| 0 <= i < ins.len() implies b.contains_key(
            #[trigger] ins[i].prev_transaction_output_hash,
        ) by {
            assert(a.contains_key(ins[i].prev_transaction_output_hash));
            assert(a.dom().contains(ins[i].prev_transaction_output_hash));
        }
    } else {
        let i = choose|i: int|
            0 <= i < ins.len() && !a.contains_key(#[trigger] ins[i].prev_transaction_output_hash);
        assert(!a.dom().contains(ins[i].prev_transaction_output_hash));
        assert(!b.contains_key(ins[i].prev_transaction_output_hash));
    }
}

proof fn lemma_signed_same(a: UtxoMap, b: UtxoMap, ins: Seq<crate::types::TransactionInput>)
    requires
        same_outputs(a, b),
        inputs_exist(a, ins),
    ensures
        inputs_signed(a, ins) == inputs_signed(b, ins),
{
    assert forall|i: int| 0 <= i < ins.len() implies a[(
    #[trigger] ins[i]).prev_transaction_output_hash].1 == b[ins[i].prev_transaction_output_hash].1 by {
        assert(a.contains_key(ins[i].prev_transaction_output_hash));
    }
}

proof fn lemma_tx_error_same(a: UtxoMap, b: UtxoMap, t: TransactionView, kind: BtcError)
    requires
        same_outputs(a, b),
    ensures
        tx_error(a, t, kind) == tx_error(b, t, kind),
        tx_error(a, t, kind) is None ==> tx_fee(a, t) == tx_fee(b, t),
{
    lemma_exist_same(a, b, t.inputs);
    if inputs_exist(a, t.inputs) {
        lemma_signed_same(a, b, t.inputs);
        lemma_inputs_value_same(a, b, t.inputs);
    }
}

proof fn lemma_txs_same(a: UtxoMap, b: UtxoMap, txs: Seq<TransactionView>)
    requires
        same_outputs(a, b),
    ensures
        txs_error(a, txs) == txs_error(b, txs),
        txs_error(a, txs) is None ==> fees_sum(a, txs) == fees_sum(b, txs),
    decreases txs.len(),
{
    if txs.len() > 0 {
        lemma_txs_same(a, b, txs.drop_last());
        lemma_tx_error_same(a, b, txs.last(), BtcError::InvalidBlock);
    }
}

/// Validation looks at outputs alone, not at the reservation flags.
pub proof fn lemma_block_error_same(chain: Seq<BlockView>, a: UtxoMap, b: UtxoMap, blk: BlockView)
    requires
        same_outputs(a, b),
    ensures
        block_error(chain, a, blk) == block_error(chain, b, blk),
{
    lemma_txs_same(a, b, blk.transactions.skip(1));
}

proof fn lemma_spend_same(a: UtxoMap, b: UtxoMap, ins: Seq<crate::types::TransactionInput>)
    requires
        same_outputs(a, b),
    ensures
        same_outputs(spend_inputs(a, ins), spend_inputs(b, ins)),
    decreases ins.len(),
{
    if ins.len() > 0 {
        lemma_spend_same(a, b, ins.drop_last());
        let x = spend_inputs(a, ins.drop_last());
        let y = spend_inputs(b, ins.drop_last());
        let h = ins.last().prev_transaction_output_hash;
        assert(x.remove(h).dom() =~= y.remove(h).dom());
    }
}

proof fn lemma_add_same(a: UtxoMap, b: UtxoMap, outs: Seq<crate::types::TransactionOutput>)
    requires
        same_outputs(a, b),
    ensures
        same_outputs(add_outputs(a, outs), add_outputs(b, outs)),
    decreases outs.len(),
{
    if outs.len() > 0 {
        lemma_add_same(a, b, outs.drop_last());
        let x = add_outputs(a, outs.drop_last());
        let y = add_outputs(b, outs.drop_last());
        let h = crate::types::output_hash(outs.last());
        assert(x.insert(h, (false, outs.last())).dom() =~= y.insert(h, (false, outs.last())).dom());
    }
}

pub proof fn lemma_apply_same(a: UtxoMap, b: UtxoMap, txs: Seq<TransactionView>)
    requires
        same_outputs(a, b),
    ensures
        same_outputs(apply_txs(a, txs), apply_txs(b, txs)),
    decreases txs.len(),
{
    if txs.len() > 0 {
        lemma_apply_same(a, b, txs.drop_last());
        let t = txs.last();
        let x = apply_txs(a, txs.drop_last());
        let y = apply_txs(b, txs.drop_last());
        lemma_spend_same(x, y, t.inputs);
        lemma_add_same(spend_inputs(x, t.inputs), spend_inputs(y, t.inputs), t.outputs);
    }
}

pub proof fn lemma_set_marks_same(m: UtxoMap, ins: Seq<crate::types::TransactionInput>, b: bool)
    ensures
        same_outputs(set_marks(m, ins, b), m),
    decreases ins.len(),
{
    if ins.len() > 0 {
        lemma_set_marks_same(m, ins.drop_last(), b);
        let x = set_marks(m, ins.drop_last(), b);
        let h = ins.last().prev_transaction_output_hash;
        assert(map_remark(x, h, b).dom() =~= x.dom());
    }
}

pub proof fn lemma_mark_pool_same(m: UtxoMap, pool: Seq<MempoolEntryView>)
    ensures
        same_outputs(mark_pool(m, pool), m),
    decreases pool.len(),
{
    if pool.len() > 0 {
        lemma_mark_pool_same(m, pool.drop_last());
        lemma_set_marks_same(mark_pool(m, pool.drop_last()), pool.last().transaction.inputs, true);
    }
}

/// An error among the first transactions is the error of the whole list.
proof fn lemma_txs_error_prefix(m: UtxoMap, t: Seq<TransactionView>, k: int)
    requires
        0 <= k <= t.len(),
        txs_error(m, t.take(k)) is Some,
    ensures
        txs_error(m, t) == txs_error(m, t.take(k)),
    decreases t.len() - k,
{
    if k < t.len() {
        assert(t.drop_last().take(k) =~= t.take(k));
        lemma_txs_error_prefix(m, t.drop_last(), k);
    } else {
        assert(t.take(k) =~= t);
    }
}

proof fn lemma_txs_error_none(m: UtxoMap, txs: Seq<TransactionView>, j: int)
    requires
        txs_error(m, txs) is None,
        0 <= j < txs.len(),
    ensures
        tx_error(m, txs[j], BtcError::InvalidBlock) is None,
    decreases txs.len(),
{
    if j < txs.len() - 1 {
        lemma_txs_error_none(m, txs.drop_last(), j);
    }
}

/// The invariants of a chain that the engine accepted, block by block: the
/// first block follows the zero hash; each later block follows its
/// predecessor's hash and is later than it; every block meets its own target
/// and commits to its transactions; every input of a spending transaction
/// refers to an output unspent before the block, and no output is referred to
/// twice in a block; the one coinbase comes first and pays the reward and the
/// fees.
pub proof fn lemma_chain_invariants(blocks: Seq<BlockView>)
    requires
        chain_valid(blocks),
    ensures
        blocks.len() > 0 ==> blocks[0].header.prev_block_hash == zero_hash(),
        forall|i: int|
            0 < i < blocks.len() ==> (#[trigger] blocks[i]).header.prev_block_hash == header_hash(
                blocks[i - 1].header,
            ),
        forall|i: int|
            0 <= i < blocks.len() ==> header_hash((#[trigger] blocks[i]).header).0.value()
                <= blocks[i].header.target.value(),
        forall|i: int|
            0 <= i < blocks.len() ==> (#[trigger] blocks[i]).header.merkle_root == merkle_root_of(
                blocks[i].transactions,
            ),
        forall|i: int|
            0 < i < blocks.len() ==> (#[trigger] blocks[i]).header.timestamp > blocks[i
                - 1].header.timestamp,
        forall|i: int, j: int, k: int|
            0 <= i < blocks.len() && 1 <= j < blocks[i].transactions.len() && 0 <= k
                < blocks[i].transactions[j].inputs.len() ==> replay(blocks.take(i)).contains_key(
                (#[trigger] blocks[i].transactions[j].inputs[k]).prev_transaction_output_hash,
            ),
        forall|i: int|
            0 <= i < blocks.len() ==> block_prevs((#[trigger] blocks[i]).transactions).no_duplicates(),
        forall|i: int|
            0 <= i < blocks.len() ==> (#[trigger] blocks[i]).transactions.len() >= 1
                && is_coinbase(blocks[i].transactions[0]),
        forall|i: int, j: int|
            0 <= i < blocks.len() && 1 <= j < blocks[i].transactions.len() ==> !is_coinbase(
                #[trigger] blocks[i].transactions[j],
            ),
        forall|i: int|
            0 <= i < blocks.len() ==> sum_outputs((#[trigger] blocks[i]).transactions[0].outputs)
                == block_reward_at(i as nat) + fees_sum(
                replay(blocks.take(i)),
                blocks[i].transactions.skip(1),
            ),
{
    assert forall|i: int| 0 < i < blocks.len() implies (#[trigger] blocks[i]).header.prev_block_hash
        == header_hash(blocks[i - 1].header) && header_hash(blocks[i].header).0.value()
        <= blocks[i].header.target.value() && blocks[i].header.merkle_root == merkle_root_of(
        blocks[i].transactions,
    ) && blocks[i].header.timestamp > blocks[i - 1].header.timestamp by {
        assert(block_error(blocks.take(i), replay(blocks.take(i)), blocks[i]) is None);
        assert(blocks.take(i).last() == blocks[i - 1]);
    }
    assert forall|i: int| 0 <= i < blocks.len() implies header_hash(
        (#[trigger] blocks[i]).header,
    ).0.value() <= blocks[i].header.target.value() && blocks[i].header.merkle_root
        == merkle_root_of(blocks[i].transactions) by {
        assert(block_error(blocks.take(i), replay(blocks.take(i)), blocks[i]) is None);
    }
    assert forall|i: int, j: int|
        0 <= i < blocks.len() && 1 <= j < blocks[i].transactions.len() implies tx_error(
        replay(blocks.take(i)),
        #[trigger] blocks[i].transactions[j],
        BtcError::InvalidBlock,
    ) is None by {
        assert(block_error(blocks.take(i), replay(blocks.take(i)), blocks[i]) is None);
        let rest = blocks[i].transactions.skip(1);
        lemma_txs_error_none(replay(blocks.take(i)), rest, j - 1);
        assert(rest[j - 1] == blocks[i].transactions[j]);
    }
    assert forall|i: int, j: int, k: int|
        0 <= i < blocks.len() && 1 <= j < blocks[i].transactions.len() && 0 <= k
            < blocks[i].transactions[j].inputs.len() implies replay(blocks.take(i)).contains_key(
        (#[trigger] blocks[i].transactions[j].inputs[k]).prev_transaction_output_hash,
    ) by {
        assert(tx_error(replay(blocks.take(i)), blocks[i].transactions[j], BtcError::InvalidBlock)
            is None);
    }
    assert forall|i: int| 0 <= i < blocks.len() implies block_prevs(
        (#[trigger] blocks[i]).transactions,
    ).no_duplicates() && blocks[i].transactions.len() >= 1 && is_coinbase(
        blocks[i].transactions[0],
    ) && sum_outputs(blocks[i].transactions[0].outputs) == block_reward_at(i as nat) + fees_sum(
        replay(blocks.take(i)),
        blocks[i].transactions.skip(1),
    ) by {
        assert(block_error(blocks.take(i), replay(blocks.take(i)), blocks[i]) is None);
    }
    if blocks.len() > 0 {
        assert(block_error(blocks.take(0), replay(blocks.take(0)), blocks[0]) is None);
    }
}

/// A new mempool whose reservations match the outputs keeps a chain well
/// formed.
pub proof fn lemma_marks_keep_wf(before: Blockchain, after: Blockchain)
    requires
        before.wf(),
        after.blocks@ == before.blocks@,
        after.utxos@ == mark_pool(replay(after.chain()), after.pool()),
        crate::reservations::pool_disjoint(after.pool()),
        after.utxos.unique(),
        pool_sorted(after.pool()),
        after.target == before.target,
    ensures
        after.wf(),
{
    assert(after.chain() == before.chain());
}

pub struct Blockchain {
    pub blocks: Vec<Block>,
    pub utxos: UtxoSet,
    /// Sorted by descending fee, ties by earlier admission.
    pub mempool: Vec<MempoolEntry>,
    pub target: Uint256,
}

impl Blockchain {
    pub open spec fn chain(&self) -> Seq<BlockView> {
        blocks_view(self.blocks@)
    }

    pub open spec fn pool(&self) -> Seq<MempoolEntryView> {
        pool_view(self.mempool@)
    }

    /// Every block was valid when appended; the unspent outputs are those
    /// that replaying the chain leaves, reserved exactly where a mempool
    /// entry spends them, each held once; the mempool is in mempool order and no two of its
    /// entries spend a common output; the target lies within [1, MIN_TARGET].
    pub open spec fn wf(&self) -> bool {
        &&& chain_valid(self.chain())
        &&& self.utxos@ == mark_pool(replay(self.chain()), self.pool())
        &&& pool_sorted(self.pool())
        &&& crate::reservations::pool_disjoint(self.pool())
        &&& self.utxos.unique()
        &&& 1 <= self.target.value() <= min_target_value()
    }

    /// Two states that agree on blocks, unspent outputs, mempool and target.
    pub open spec fn same_state(&self, other: &Blockchain) -> bool {
        &&& self.chain() == other.chain()
        &&& self.utxos@ == other.utxos@
        &&& self.pool() == other.pool()
        &&& self.target == other.target
    }

    /// `new` is the state that appending `b` to `self` leaves: unchanged
    /// where `b` breaks a rule; else `b` appended, its transactions applied to
    /// the unspent outputs (what they spend removed, what they pay added),
    /// the reservations those of the remaining mempool, what it confirms
    /// dropped from the mempool, and the target adjusted after a full window.
    pub open spec fn block_added(&self, new: &Blockchain, b: BlockView) -> bool {
        match block_error(self.chain(), self.utxos@, b) {
            Some(_) => new.same_state(self),
            None => {
                &&& new.chain() == self.chain().push(b)
                &&& same_outputs(new.utxos@, apply_txs(self.utxos@, b.transactions))
                &&& new.utxos@ == mark_pool(replay(new.chain()), new.pool())
                &&& new.pool() == unconfirmed(self.pool(), block_tx_hashes(b))
                &&& new.target.value() == target_after(new.chain(), self.target)
            },
        }
    }

    /// An empty chain with the easiest target.
    pub fn new() -> (r: Blockchain)
        ensures
            r.wf(),
            r.chain().len() == 0,
            r.pool().len() == 0,
            r.utxos@ == Map::<crate::hash::Hash, (bool, crate::types::TransactionOutput)>::empty(),
            r.target.value() == min_target_value(),
    {
        let r = Blockchain {
            blocks: Vec::new(),
            utxos: UtxoSet::new(),
            mempool: Vec::new(),
            target: Uint256::min_target(),
        };
        assert(r.chain() =~= Seq::<BlockView>::empty());
        assert(r.pool() =~= Seq::<MempoolEntryView>::empty());
        assert(r.utxos@.dom() =~= replay(r.chain()).dom());
        r
    }

    pub fn block_height(&self) -> (r: usize)
        ensures
            r == self.chain().len(),
    {
        self.blocks.len()
    }

    pub fn blocks(&self) -> (r: &Vec<Block>)
        ensures
            blocks_view(r@) == self.chain(),
    {
        &self.blocks
    }

    pub fn utxos(&self) -> (r: &UtxoSet)
        ensures
            r@ == self.utxos@,
    {
        &self.utxos
    }

    pub fn mempool(&self) -> (r: &Vec<MempoolEntry>)
        ensures
            pool_view(r@) == self.pool(),
    {
        &self.mempool
    }

    pub fn target(&self) -> (r: Uint256)
        ensures
            r == self.target,
    {
        self.target
    }

    /// The reward of the next block.
    pub fn calculate_block_reward(&self) -> (r: u64)
        ensures
            r == block_reward_at(self.chain().len()),
    {
        block_reward(self.blocks.len())
    }

    /// Checks a block against the chain and the unspent outputs, in order:
    /// the header, the coinbase's place, each spending transaction, double
    /// references, the coinbase amount.
    pub fn validate_block(&self, block: &Block) -> (r: Result<(), BtcError>)
        ensures
            r == as_result(block_error(self.chain(), self.utxos@, block@)),
    {
        let n = self.blocks.len();
        let prev = if n == 0 {
            crate::hash::Hash::zero()
        } else {
            assert(self.chain().last().header == self.blocks@[n - 1].header);
            self.blocks[n - 1].header.hash()
        };
        if block.header.prev_block_hash != prev {
            return Err(BtcError::InvalidBlock);
        }
        if !block.header.hash().matches_target(&block.header.target) {
            return Err(BtcError::InvalidBlock);
        }
        if MerkleRoot::calculate(&block.transactions) != block.header.merkle_root {
            return Err(BtcError::InvalidMerkleRoot);
        }
        if n > 0 && block.header.timestamp <= self.blocks[n - 1].header.timestamp {
            return Err(BtcError::InvalidBlock);
        }
        let txs = &block.transactions;
        let ghost bt = block@.transactions;
        let ghost m = self.utxos@;
        if txs.len() == 0 || txs[0].inputs.len() != 0 {
            return Err(BtcError::InvalidBlock);
        }
        let spending = check_spending(&self.utxos, txs);
        let fees = match spending {
            Err(e) => {
                return Err(e);
            },
            Ok(f) => f,
        };
        let prevs = collect_prevs(txs);
        if has_duplicates(&prevs) {
            return Err(BtcError::InvalidBlock);
        }
        let coinbase_value = sum_output_values(&txs[0].outputs);
        let reward = block_reward(n) as u128;
        match fees {
            None => Err(BtcError::InvalidBlock),
            Some(f) => {
                if coinbase_value < reward || coinbase_value - reward != f {
                    Err(BtcError::InvalidBlock)
                } else {
                    Ok(())
                }
            },
        }
    }

    /// Spends the transactions' inputs and adds their outputs, in order.
    fn apply_transactions(utxos: &mut UtxoSet, txs: &Vec<Transaction>)
        ensures
            final(utxos)@ == apply_txs(old(utxos)@, txs_view(txs@)),
            old(utxos).unique() ==> final(utxos).unique(),
    {
        let ghost tv = txs_view(txs@);
        let ghost m0 = utxos@;
        let mut i: usize = 0;
        while i < txs.len()
            invariant
                i <= txs@.len(),
                tv == txs_view(txs@),
                utxos@ == apply_txs(m0, tv.take(i as int)),
                old(utxos).unique() ==> utxos.unique(),
            decreases txs@.len() - i,
        {
            let t = &txs[i];
            let ghost base = utxos@;
            let mut j: usize = 0;
            while j < t.inputs.len()
                invariant
                    j <= t.inputs@.len(),
                    utxos@ == spend_inputs(base, t.inputs@.take(j as int)),
                    old(utxos).unique() ==> utxos.unique(),
                decreases t.inputs@.len() - j,
            {
                utxos.remove(&t.inputs[j].prev_transaction_output_hash);
                proof {
                    assert(t.inputs@.take(j + 1).drop_last() =~= t.inputs@.take(j as int));
                }
                j = j + 1;
            }
            assert(t.inputs@.take(j as int) =~= t.inputs@);
            let ghost spent = utxos@;
            let mut k: usize = 0;
            while k < t.outputs.len()
                invariant
                    k <= t.outputs@.len(),
                    utxos@ == add_outputs(spent, t.outputs@.take(k as int)),
                    old(utxos).unique() ==> utxos.unique(),
                decreases t.outputs@.len() - k,
            {
                let out = t.outputs[k];
                let h = out.hash();
                utxos.insert(h, false, out);
                proof {
                    assert(t.outputs@.take(k + 1).drop_last() =~= t.outputs@.take(k as int));
                }
                k = k + 1;
            }
            assert(t.outputs@.take(k as int) =~= t.outputs@);
            proof {
                assert(tv.take(i + 1).drop_last() =~= tv.take(i as int));
            }
            i = i + 1;
        }
        assert(tv.take(i as int) =~= tv);
    }

    /// Drops the mempool entries whose transaction the block confirms.
    fn remove_confirmed(&mut self, block: &Block)
        ensures
            final(self).pool() == unconfirmed(old(self).pool(), block_tx_hashes(block@)),
            final(self).blocks@ == old(self).blocks@,
            final(self).utxos@ == old(self).utxos@,
            final(self).target == old(self).target,
    {
        let mut hashes: Vec<crate::hash::Hash> = Vec::new();
        let mut i: usize = 0;
        while i < block.transactions.len()
            invariant
                i <= block.transactions@.len(),
                hashes@ == block_tx_hashes(block@).take(i as int),
            decreases block.transactions@.len() - i,
        {
            let h = block.transactions[i].hash();
            hashes.push(h);
            i = i + 1;
            assert(hashes@ =~= block_tx_hashes(block@).take(i as int));
        }
        assert(hashes@ =~= block_tx_hashes(block@));
        let ghost pool = self.pool();
        let mut kept: Vec<MempoolEntry> = Vec::new();
        let mut j: usize = 0;
        while j < self.mempool.len()
            invariant
                j <= self.mempool@.len(),
                pool == self.pool(),
                pool_view(kept@) == unconfirmed(pool.take(j as int), hashes@),
            decreases self.mempool@.len() - j,
        {
            let h = self.mempool[j].transaction.hash();
            let found = contains_hash(&hashes, &h);
            proof {
                assert(pool.take(j + 1).drop_last() =~= pool.take(j as int));
                assert(pool.take(j + 1).last() == pool[j as int]);
            }
            if !found {
                let e = self.mempool[j].copy();
                let ghost before = kept@;
                kept.push(e);
                assert(pool_view(kept@) =~= pool_view(before).push(e@));
            }
            j = j + 1;
        }
        assert(pool.take(j as int) =~= pool);
        self.mempool = kept;
    }

    /// Scales the target after each full window of blocks by how long the
    /// window took against the ideal time.
    pub fn try_adjust_target(&mut self)
        ensures
            final(self).target.value() == target_after(old(self).chain(), old(self).target),
            !(old(self).chain().len() >= DIFFICULTY_UPDATE_INTERVAL && old(self).chain().len()
                % DIFFICULTY_UPDATE_INTERVAL as nat == 0) ==> final(self).target == old(self).target,
            final(self).blocks@ == old(self).blocks@,
            final(self).utxos@ == old(self).utxos@,
            final(self).mempool@ == old(self).mempool@,
            old(self).wf() ==> final(self).wf(),
    {
        proof {
            lemma_adjusted_target(self.target.value(), window_time(self.chain()));
        }
        let n = self.blocks.len();
        let w = DIFFICULTY_UPDATE_INTERVAL as usize;
        if n < w || n % w != 0 {
            return;
        }
        let first = self.blocks[n - w].header.timestamp;
        let last = self.blocks[n - 1].header.timestamp;
        let actual: u64 = if last >= first {
            last - first
        } else {
            0
        };
        let clamped: u64 = if actual < MIN_WINDOW_TIME {
            MIN_WINDOW_TIME
        } else if actual > MAX_WINDOW_TIME {
            MAX_WINDOW_TIME
        } else {
            actual
        };
        assert(clamped == clamp_time(window_time(self.chain())));
        let ceiling = Uint256::min_target();
        let new_target = match crate::u256::checked_mul(&self.target, &Uint256::from_u64(clamped)) {
            None => {
                proof {
                    let x = self.target.value() * clamped as nat;
                    let mt = min_target_value();
                    assert(mt * 500 <= u256_bound());
                    vstd::arithmetic::div_mod::lemma_div_is_ordered((mt * 500) as int, x as int, 500);
                    vstd::arithmetic::div_mod::lemma_div_by_multiple(mt as int, 500);
                }
                ceiling
            },
            Some(p) => {
                let q = crate::u256::div(&p, &Uint256::from_u64(EXPECTED_WINDOW_TIME));
                if crate::u256::le(&q, &Uint256::zero()) {
                    Uint256::from_u64(1)
                } else if crate::u256::le(&q, &ceiling) {
                    q
                } else {
                    ceiling
                }
            },
        };
        self.target = new_target;
    }

    /// Rebuilds the unspent outputs by replaying the chain, then reserves the
    /// outputs that mempool transactions spend.
    pub fn rebuild_utxos(&mut self)
        requires
            old(self).wf(),
        ensures
            final(self).wf(),
            final(self).utxos@ == mark_pool(replay(old(self).chain()), old(self).pool()),
            final(self).blocks@ == old(self).blocks@,
            final(self).mempool@ == old(self).mempool@,
            final(self).target == old(self).target,
    {
        let ghost replayed = replay(self.chain());
        let ghost pool = self.pool();
        let mut u = replay_blocks(&self.blocks);
        mark_mempool(&mut u, &self.mempool);
        self.utxos = u;
        proof {
            lemma_mark_pool_same(replayed, pool);
        }
    }

    /// Appends a block after full validation, applies its transactions to the
    /// unspent outputs, drops what it confirms from the mempool, and adjusts
    /// the target after each full window.
    pub fn add_block(&mut self, block: Block) -> (r: Result<(), BtcError>)
        requires
            old(self).wf(),
        ensures
            final(self).wf(),
            r == as_result(block_error(old(self).chain(), old(self).utxos@, block@)),
            old(self).block_added(&*final(self), block@),
    {
        let checked = self.validate_block(&block);
        if checked.is_err() {
            return checked;
        }
        let ghost chain = self.chain();
        let ghost m = self.utxos@;
        let ghost pool = self.pool();
        self.remove_confirmed(&block);
        let ghost bv = block@;
        self.blocks.push(block);
        let mut u = replay_blocks(&self.blocks);
        mark_mempool(&mut u, &self.mempool);
        self.utxos = u;
        proof {
            lemma_mark_pool_same(replay(chain), pool);
            lemma_mark_pool_same(replay(self.chain()), self.pool());
            assert(self.chain() =~= chain.push(bv));
            assert(self.chain().drop_last() =~= chain);
            lemma_block_error_same(chain, m, replay(chain), bv);
            let hs = block_tx_hashes(bv);
            lemma_keep_sorted(
                pool,
                |e: MempoolEntryView| !hs.contains(transaction_hash(e.transaction)),
            );
            lemma_apply_same(m, replay(chain), bv.transactions);
            crate::reservations::lemma_same_outputs_trans(
                self.utxos@,
                replay(self.chain()),
                apply_txs(m, bv.transactions),
            );
            crate::reservations::lemma_keep_disjoint(
                pool,
                |e: MempoolEntryView| !hs.contains(transaction_hash(e.transaction)),
            );
            assert forall|i: int| 0 <= i < self.chain().len() implies block_error(
                self.chain().take(i),
                replay(self.chain().take(i)),
                #[trigger] self.chain()[i],
            ) is None by {
                if i < chain.len() {
                    assert(self.chain().take(i) =~= chain.take(i));
                } else {
                    assert(self.chain().take(i) =~= chain);
                }
            }
        }
        self.try_adjust_target();
        Ok(())
    }
}

fn contains_hash(v: &Vec<crate::hash::Hash>, h: &crate::hash::Hash) -> (r: bool)
    ensures
        r == v@.contains(*h),
{
    let mut i: usize = 0;
    while i < v.len()
        invariant
            i <= v@.len(),
            forall|k: int| 0 <= k < i ==> v@[k] != *h,
        decreases v@.len() - i,
    {
        if v[i] == *h {
            return true;
        }
        i = i + 1;
    }
    false
}

/// The unspent outputs that replaying the blocks leaves.
fn replay_blocks(blocks: &Vec<Block>) -> (r: UtxoSet)
    ensures
        r@ == replay(blocks_view(blocks@)),
        r.unique(),
{
    let ghost chain = blocks_view(blocks@);
    let mut u = UtxoSet::new();
    let mut i: usize = 0;
    while i < blocks.len()
        invariant
            i <= blocks@.len(),
            chain == blocks_view(blocks@),
            u@ == replay(chain.take(i as int)),
            u.unique(),
        decreases blocks@.len() - i,
    {
        Blockchain::apply_transactions(&mut u, &blocks[i].transactions);
        proof {
            assert(chain.take(i + 1).drop_last() =~= chain.take(i as int));
        }
        i = i + 1;
    }
    assert(chain.take(i as int) =~= chain);
    u
}

/// Reserves the outputs that the mempool's transactions spend.
fn mark_mempool(u: &mut UtxoSet, mempool: &Vec<MempoolEntry>)
    ensures
        final(u)@ == mark_pool(old(u)@, pool_view(mempool@)),
        old(u).unique() ==> final(u).unique(),
{
    let ghost pool = pool_view(mempool@);
    let ghost start = u@;
    let mut j: usize = 0;
    while j < mempool.len()
        invariant
            j <= mempool@.len(),
            pool == pool_view(mempool@),
            u@ == mark_pool(start, pool.take(j as int)),
            old(u).unique() ==> u.unique(),
        decreases mempool@.len() - j,
    {
        let t = &mempool[j].transaction;
        let ghost base = u@;
        let mut k: usize = 0;
        while k < t.inputs.len()
            invariant
                k <= t.inputs@.len(),
                u@ == set_marks(base, t.inputs@.take(k as int), true),
                old(u).unique() ==> u.unique(),
            decreases t.inputs@.len() - k,
        {
            u.set_marked(&t.inputs[k].prev_transaction_output_hash, true);
            proof {
                assert(t.inputs@.take(k + 1).drop_last() =~= t.inputs@.take(k as int));
            }
            k = k + 1;
        }
        proof {
            assert(t.inputs@.take(k as int) =~= t.inputs@);
            assert(pool.take(j + 1).drop_last() =~= pool.take(j as int));
        }
        j = j + 1;
    }
    assert(pool.take(j as int) =~= pool);
}

/// Checks the spending transactions of a block (all but the first) in order;
/// their total fee, or `None` where it does not fit in 128 bits.
fn check_spending(utxos: &UtxoSet, txs: &Vec<Transaction>) -> (r: Result<Option<u128>, BtcError>)
    requires
        txs@.len() >= 1,
    ensures
        match txs_error(utxos@, txs_view(txs@).skip(1)) {
            Some(e) => r == Err::<Option<u128>, BtcError>(e),
            None => r is Ok && match r.unwrap() {
                Some(f) => f == fees_sum(utxos@, txs_view(txs@).skip(1)),
                None => fees_sum(utxos@, txs_view(txs@).skip(1))
                    >= 0x1_0000_0000_0000_0000_0000_0000_0000_0000,
            },
        },
{
    let ghost m = utxos@;
    let ghost rest = txs_view(txs@).skip(1);
    let mut fees: u128 = 0;
    let mut overflow = false;
    let mut i: usize = 1;
    while i < txs.len()
        invariant
            1 <= i <= txs@.len(),
            rest == txs_view(txs@).skip(1),
            m == utxos@,
            txs_error(m, rest.take(i - 1)) is None,
            !overflow ==> fees == fees_sum(m, rest.take(i - 1)),
            overflow ==> fees_sum(m, rest.take(i - 1)) >= 0x1_0000_0000_0000_0000_0000_0000_0000_0000,
        decreases txs@.len() - i,
    {
        let checked = check_transaction(utxos, &txs[i], BtcError::InvalidBlock);
        proof {
            assert(rest.take(i as int).drop_last() =~= rest.take(i - 1));
            assert(rest.take(i as int).last() == txs@[i as int]@);
        }
        match checked {
            Err(e) => {
                proof {
                    lemma_txs_error_prefix(m, rest, i as int);
                }
                return Err(e);
            },
            Ok(fee) => {
                if !overflow {
                    if fee > u128::MAX - fees {
                        overflow = true;
                    } else {
                        fees = fees + fee;
                    }
                }
            },
        }
        i = i + 1;
    }
    assert(rest.take(i - 1) =~= rest);
    if overflow {
        Ok(None)
    } else {
        Ok(Some(fees))
    }
}

} // verus!
