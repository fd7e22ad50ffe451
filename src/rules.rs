//! The validation rules of transactions and blocks, as spec functions over
//! the unspent outputs that a block is checked against.
use vstd::prelude::*;
use vstd::arithmetic::power2::pow2;
use crate::crypto::signature_valid;
use crate::error::BtcError;
use crate::hash::zero_hash;
use crate::merkle::merkle_root_of;
use crate::types::{
    BlockView, Transaction, TransactionInput, TransactionOutput, TransactionView, header_hash,
    is_coinbase, txs_view,
};
use crate::utxo::UtxoSet;
use crate::{HALVING_INTERVAL, INITIAL_REWARD_SATS};

verus! {

pub type UtxoMap = Map<crate::hash::Hash, (bool, TransactionOutput)>;

pub open spec fn sum_outputs(s: Seq<TransactionOutput>) -> int
    decreases s.len(),
{
    if s.len() == 0 {
        0
    } else {
        sum_outputs(s.drop_last()) + s.last().value
    }
}

/// The total value of the outputs that the inputs spend.
pub open spec fn inputs_value(m: UtxoMap, ins: Seq<TransactionInput>) -> int
    decreases ins.len(),
{
    if ins.len() == 0 {
        0
    } else {
        inputs_value(m, ins.drop_last()) + m[ins.last().prev_transaction_output_hash].1.value
    }
}

pub open spec fn inputs_exist(m: UtxoMap, ins: Seq<TransactionInput>) -> bool {
    forall|i: int|
        0 <= i < ins.len() ==> m.contains_key(#[trigger] ins[i].prev_transaction_output_hash)
}

/// Each input's signature signs the hash it spends, under that output's key.
pub open spec fn inputs_signed(m: UtxoMap, ins: Seq<TransactionInput>) -> bool {
    forall|i: int|
        0 <= i < ins.len() ==> signature_valid(
            (#[trigger] ins[i]).signature,
            ins[i].prev_transaction_output_hash,
            m[ins[i].prev_transaction_output_hash].1.public_key,
        )
}

/// The miner fee of a transaction: what its inputs spend less what it pays out.
pub open spec fn tx_fee(m: UtxoMap, t: TransactionView) -> int {
    inputs_value(m, t.inputs) - sum_outputs(t.outputs)
}

/// The first rule that a spending transaction breaks; `kind` is the error for
/// all but a bad signature.
pub open spec fn tx_error(m: UtxoMap, t: TransactionView, kind: BtcError) -> Option<BtcError> {
    if is_coinbase(t) {
        Some(kind)
    } else if !inputs_exist(m, t.inputs) {
        Some(kind)
    } else if !inputs_signed(m, t.inputs) {
        Some(BtcError::InvalidSignature)
    } else if inputs_value(m, t.inputs) < sum_outputs(t.outputs) {
        Some(kind)
    } else {
        None
    }
}

/// The first error among spending transactions, checked in order.
pub open spec fn txs_error(m: UtxoMap, txs: Seq<TransactionView>) -> Option<BtcError>
    decreases txs.len(),
{
    if txs.len() == 0 {
        None
    } else if txs_error(m, txs.drop_last()) is Some {
        txs_error(m, txs.drop_last())
    } else {
        tx_error(m, txs.last(), BtcError::InvalidBlock)
    }
}

pub open spec fn fees_sum(m: UtxoMap, txs: Seq<TransactionView>) -> int
    decreases txs.len(),
{
    if txs.len() == 0 {
        0
    } else {
        fees_sum(m, txs.drop_last()) + tx_fee(m, txs.last())
    }
}

/// Every output hash that the transactions' inputs refer to, in order.
pub open spec fn block_prevs(txs: Seq<TransactionView>) -> Seq<crate::hash::Hash>
    decreases txs.len(),
{
    if txs.len() == 0 {
        seq![]
    } else {
        block_prevs(txs.drop_last()) + txs.last().inputs.map_values(
            |i: TransactionInput| i.prev_transaction_output_hash,
        )
    }
}

/// The reward of the block at a height: 50 coins, halved every 210 blocks.
pub open spec fn block_reward_at(height: nat) -> nat {
    INITIAL_REWARD_SATS as nat / pow2(height / HALVING_INTERVAL as nat)
}

/// The hash that a block after the chain must name as its predecessor.
pub open spec fn expected_prev(chain: Seq<BlockView>) -> crate::hash::Hash {
    if chain.len() == 0 {
        zero_hash()
    } else {
        header_hash(chain.last().header)
    }
}

/// The first header rule that a block breaks after the chain: its
/// predecessor, its proof of work, its Merkle root, and, after a first block,
/// its timestamp.
pub open spec fn header_error(chain: Seq<BlockView>, b: BlockView) -> Option<BtcError> {
    if b.header.prev_block_hash != expected_prev(chain) {
        Some(BtcError::InvalidBlock)
    } else if header_hash(b.header).0.value() > b.header.target.value() {
        Some(BtcError::InvalidBlock)
    } else if merkle_root_of(b.transactions) != b.header.merkle_root {
        Some(BtcError::InvalidMerkleRoot)
    } else if chain.len() > 0 && b.header.timestamp <= chain.last().header.timestamp {
        Some(BtcError::InvalidBlock)
    } else {
        None
    }
}

/// The first rule that a block breaks after the chain, with `m` the unspent
/// outputs before it; `None` where it may be appended.
pub open spec fn block_error(chain: Seq<BlockView>, m: UtxoMap, b: BlockView) -> Option<
    BtcError,
> {
    let txs = b.transactions;
    if header_error(chain, b) is Some {
        header_error(chain, b)
    } else if txs.len() == 0 || !is_coinbase(txs[0]) {
        Some(BtcError::InvalidBlock)
    } else if txs_error(m, txs.skip(1)) is Some {
        txs_error(m, txs.skip(1))
    } else if !block_prevs(txs).no_duplicates() {
        Some(BtcError::InvalidBlock)
    } else if sum_outputs(txs[0].outputs) != block_reward_at(chain.len()) + fees_sum(
        m,
        txs.skip(1),
    ) {
        Some(BtcError::InvalidBlock)
    } else {
        None
    }
}

pub open spec fn as_result(e: Option<BtcError>) -> Result<(), BtcError> {
    match e {
        Some(x) => Err(x),
        None => Ok(()),
    }
}

/// The outputs after spending the inputs one by one.
pub open spec fn spend_inputs(m: UtxoMap, ins: Seq<TransactionInput>) -> UtxoMap
    decreases ins.len(),
{
    if ins.len() == 0 {
        m
    } else {
        spend_inputs(m, ins.drop_last()).remove(ins.last().prev_transaction_output_hash)
    }
}

/// The outputs after adding new ones, not reserved, under their hashes.
pub open spec fn add_outputs(m: UtxoMap, outs: Seq<TransactionOutput>) -> UtxoMap
    decreases outs.len(),
{
    if outs.len() == 0 {
        m
    } else {
        add_outputs(m, outs.drop_last()).insert(
            crate::types::output_hash(outs.last()),
            (false, outs.last()),
        )
    }
}

pub open spec fn apply_tx(m: UtxoMap, t: TransactionView) -> UtxoMap {
    add_outputs(spend_inputs(m, t.inputs), t.outputs)
}

pub open spec fn apply_txs(m: UtxoMap, txs: Seq<TransactionView>) -> UtxoMap
    decreases txs.len(),
{
    if txs.len() == 0 {
        m
    } else {
        apply_tx(apply_txs(m, txs.drop_last()), txs.last())
    }
}

/// The unspent outputs that a chain leaves, none reserved.
pub open spec fn replay(blocks: Seq<BlockView>) -> UtxoMap
    decreases blocks.len(),
{
    if blocks.len() == 0 {
        Map::empty()
    } else {
        apply_txs(replay(blocks.drop_last()), blocks.last().transactions)
    }
}

/// Two maps that agree but for the reservation flags.
pub open spec fn same_outputs(a: UtxoMap, b: UtxoMap) -> bool {
    &&& a.dom() == b.dom()
    &&& forall|h: crate::hash::Hash| #[trigger] a.contains_key(h) ==> a[h].1 == b[h].1
}

/// Every block of the chain was valid after the blocks before it.
pub open spec fn chain_valid(blocks: Seq<BlockView>) -> bool {
    forall|i: int|
        0 <= i < blocks.len() ==> block_error(
            blocks.take(i),
            replay(blocks.take(i)),
            #[trigger] blocks[i],
        ) is None
}


pub open spec fn u64_max() -> int {
    0xFFFF_FFFF_FFFF_FFFF
}

proof fn lemma_sum_step(acc: int, i: int, v: int)
    requires
        0 <= acc <= i * u64_max(),
        0 <= i < 0x1_0000_0000_0000_0000,
        0 <= v <= u64_max(),
    ensures
        acc + v <= (i + 1) * u64_max(),
        (i + 1) * u64_max() < 0x1_0000_0000_0000_0000_0000_0000_0000_0000,
{
    assert((i + 1) * u64_max() <= 0x1_0000_0000_0000_0000 * u64_max()) by (nonlinear_arith)
        requires i + 1 <= 0x1_0000_0000_0000_0000;
}

/// The sum of the outputs' values.
pub fn sum_output_values(outs: &Vec<TransactionOutput>) -> (r: u128)
    ensures
        r == sum_outputs(outs@),
        r <= outs@.len() * u64_max(),
{
    let mut acc: u128 = 0;
    let mut i: usize = 0;
    while i < outs.len()
        invariant
            i <= outs@.len(),
            acc == sum_outputs(outs@.take(i as int)),
            acc <= i * u64_max(),
        decreases outs@.len() - i,
    {
        proof {
            lemma_sum_step(acc as int, i as int, outs@[i as int].value as int);
            assert(outs@.take(i + 1).drop_last() =~= outs@.take(i as int));
        }
        acc = acc + outs[i].value as u128;
        i = i + 1;
    }
    assert(outs@.take(i as int) =~= outs@);
    acc
}

/// The total value that the inputs spend, or `None` where one of them
/// refers to no unspent output.
pub fn input_values(utxos: &UtxoSet, ins: &Vec<TransactionInput>) -> (r: Option<u128>)
    ensures
        r is Some <==> inputs_exist(utxos@, ins@),
        r is Some ==> r.unwrap() == inputs_value(utxos@, ins@) && r.unwrap() <= ins@.len()
            * u64_max(),
{
    let mut acc: u128 = 0;
    let mut i: usize = 0;
    while i < ins.len()
        invariant
            i <= ins@.len(),
            inputs_exist(utxos@, ins@.take(i as int)),
            acc == inputs_value(utxos@, ins@.take(i as int)),
            acc <= i * u64_max(),
        decreases ins@.len() - i,
    {
        match utxos.get(&ins[i].prev_transaction_output_hash) {
            None => {
                assert(!utxos@.contains_key(ins@[i as int].prev_transaction_output_hash));
                return None;
            },
            Some((_, out)) => {
                proof {
                    lemma_sum_step(acc as int, i as int, out.value as int);
                    assert(ins@.take(i + 1).drop_last() =~= ins@.take(i as int));
                    assert forall|k: int| 0 <= k < i + 1 implies utxos@.contains_key(
                        #[trigger] ins@.take(i + 1)[k].prev_transaction_output_hash,
                    ) by {
                        if k < i {
                            assert(ins@.take(i + 1)[k] == ins@.take(i as int)[k]);
                        }
                    }
                }
                acc = acc + out.value as u128;
                i = i + 1;
            },
        }
    }
    assert(ins@.take(i as int) =~= ins@);
    Some(acc)
}

/// Whether every input's signature verifies.
pub fn check_signatures(utxos: &UtxoSet, ins: &Vec<TransactionInput>) -> (r: bool)
    requires
        inputs_exist(utxos@, ins@),
    ensures
        r == inputs_signed(utxos@, ins@),
{
    let mut i: usize = 0;
    while i < ins.len()
        invariant
            i <= ins@.len(),
            inputs_exist(utxos@, ins@),
            forall|k: int|
                0 <= k < i ==> signature_valid(
                    (#[trigger] ins@[k]).signature,
                    ins@[k].prev_transaction_output_hash,
                    utxos@[ins@[k].prev_transaction_output_hash].1.public_key,
                ),
        decreases ins@.len() - i,
    {
        let input = ins[i];
        let found = utxos.get(&input.prev_transaction_output_hash);
        assert(utxos@.contains_key(ins@[i as int].prev_transaction_output_hash));
        let (_, out) = found.unwrap();
        if !input.signature.verify(&input.prev_transaction_output_hash, &out.public_key) {
            return false;
        }
        i = i + 1;
    }
    true
}

/// Checks a spending transaction; its fee where it passes.
pub fn check_transaction(utxos: &UtxoSet, t: &Transaction, kind: BtcError) -> (r: Result<
    u128,
    BtcError,
>)
    ensures
        match tx_error(utxos@, t@, kind) {
            Some(e) => r == Err::<u128, BtcError>(e),
            None => r is Ok && r.unwrap() == tx_fee(utxos@, t@),
        },
        r is Ok ==> r.unwrap() <= t@.inputs.len() * u64_max(),
{
    if t.inputs.len() == 0 {
        return Err(kind);
    }
    let total_in = match input_values(utxos, &t.inputs) {
        None => {
            return Err(kind);
        },
        Some(v) => v,
    };
    if !check_signatures(utxos, &t.inputs) {
        return Err(BtcError::InvalidSignature);
    }
    let total_out = sum_output_values(&t.outputs);
    if total_in < total_out {
        return Err(kind);
    }
    Ok(total_in - total_out)
}

/// The output hashes that the transactions' inputs refer to.
pub fn collect_prevs(txs: &Vec<Transaction>) -> (r: Vec<crate::hash::Hash>)
    ensures
        r@ == block_prevs(txs_view(txs@)),
{
    let ghost v = txs_view(txs@);
    let mut out: Vec<crate::hash::Hash> = Vec::new();
    let mut i: usize = 0;
    while i < txs.len()
        invariant
            i <= txs@.len(),
            v == txs_view(txs@),
            out@ == block_prevs(v.take(i as int)),
        decreases txs@.len() - i,
    {
        let t = &txs[i];
        let ghost before = out@;
        let mut j: usize = 0;
        while j < t.inputs.len()
            invariant
                j <= t.inputs@.len(),
                out@ == before + t.inputs@.take(j as int).map_values(
                    |x: TransactionInput| x.prev_transaction_output_hash,
                ),
            decreases t.inputs@.len() - j,
        {
            out.push(t.inputs[j].prev_transaction_output_hash);
            j = j + 1;
            assert(out@ =~= before + t.inputs@.take(j as int).map_values(
                |x: TransactionInput| x.prev_transaction_output_hash,
            ));
        }
        proof {
            assert(t.inputs@.take(j as int) =~= t.inputs@);
            assert(v.take(i + 1).drop_last() =~= v.take(i as int));
        }
        i = i + 1;
    }
    assert(v.take(i as int) =~= v);
    out
}

/// Whether some hash occurs twice.
pub fn has_duplicates(v: &Vec<crate::hash::Hash>) -> (r: bool)
    ensures
        r == !v@.no_duplicates(),
{
    let mut i: usize = 0;
    while i < v.len()
        invariant
            i <= v@.len(),
            forall|a: int, b: int| 0 <= a < i && 0 <= b < i && a != b ==> v@[a] != v@[b],
        decreases v@.len() - i,
    {
        let mut j: usize = 0;
        while j < i
            invariant
                j <= i < v@.len(),
                forall|a: int| 0 <= a < j ==> v@[a] != v@[i as int],
            decreases i - j,
        {
            if v[j] == v[i] {
                return true;
            }
            j = j + 1;
        }
        i = i + 1;
    }
    false
}

/// The reward of the block at a height, in satoshis.
pub fn block_reward(height: usize) -> (r: u64)
    ensures
        r == block_reward_at(height as nat),
{
    let halvings = height / HALVING_INTERVAL as usize;
    let steps = if halvings < 33 {
        halvings
    } else {
        33
    };
    let mut r: u64 = INITIAL_REWARD_SATS;
    let mut i: usize = 0;
    proof {
        vstd::arithmetic::power2::lemma2_to64();
    }
    while i < steps
        invariant
            i <= steps <= 33,
            r == 5_000_000_000nat / pow2(i as nat),
        decreases steps - i,
    {
        proof {
            vstd::arithmetic::power2::lemma_pow2_unfold((i + 1) as nat);
            vstd::arithmetic::power2::lemma_pow2_pos(i as nat);
            vstd::arithmetic::div_mod::lemma_div_denominator(
                5_000_000_000int,
                pow2(i as nat) as int,
                2,
            );
        }
        r = r / 2;
        i = i + 1;
    }
    proof {
        if halvings >= 33 {
            vstd::arithmetic::power2::lemma2_to64();
            vstd::arithmetic::power2::lemma_pow2_unfold(33);
            assert(5_000_000_000nat < pow2(33));
            if halvings > 33 {
                vstd::arithmetic::power2::lemma_pow2_strictly_increases(33, halvings as nat);
            }
            vstd::arithmetic::div_mod::lemma_basic_div(5_000_000_000int, pow2(33) as int);
            vstd::arithmetic::div_mod::lemma_basic_div(
                5_000_000_000int,
                pow2(halvings as nat) as int,
            );
        }
    }
    r
}

} // verus!
