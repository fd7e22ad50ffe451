//! Which outputs the mempool reserves: the flags that the engine keeps are
//! those of the outputs that some mempool entry spends, and no two entries
//! spend a common output.
use vstd::prelude::*;
use crate::chain::{MempoolEntryView, keep, mark_pool, set_marks};
use crate::mempool::{
    by_conflict, by_order, new_entry, pool_after_admission, shares_input, unmark_entries,
    utxos_after_admission,
};
use crate::chain::precedes;
use crate::rules::{UtxoMap, add_outputs, apply_txs, replay, spend_inputs};
use crate::types::{BlockView, TransactionInput, TransactionOutput, TransactionView};
use crate::utxo::map_remark;

verus! {

/// Whether one of the inputs spends the output `h`.
pub open spec fn input_of(ins: Seq<TransactionInput>, h: crate::hash::Hash) -> bool {
    exists|j: int| 0 <= j < ins.len() && (#[trigger] ins[j]).prev_transaction_output_hash == h
}

/// Whether some entry of the mempool spends the output `h`.
pub open spec fn reserved_by(pool: Seq<MempoolEntryView>, h: crate::hash::Hash) -> bool {
    exists|e: MempoolEntryView| #[trigger] pool.contains(e) && input_of(e.transaction.inputs, h)
}

/// No two distinct entries spend a common output.
pub open spec fn pool_disjoint(pool: Seq<MempoolEntryView>) -> bool {
    forall|x: MempoolEntryView, y: MempoolEntryView|
        #[trigger] pool.contains(x) && #[trigger] pool.contains(y) && x != y ==> !shares_input(
            x.transaction,
            y.transaction,
        )
}

/// No output carries a reservation.
pub open spec fn unreserved(m: UtxoMap) -> bool {
    forall|h: crate::hash::Hash| #[trigger] m.contains_key(h) ==> !m[h].0
}

proof fn lemma_input_of_last(ins: Seq<TransactionInput>, h: crate::hash::Hash)
    requires
        ins.len() > 0,
    ensures
        input_of(ins, h) == (input_of(ins.drop_last(), h) || ins.last().prev_transaction_output_hash
            == h),
{
    let d = ins.drop_last();
    if input_of(d, h) {
        let j = choose|j: int| 0 <= j < d.len() && (#[trigger] d[j]).prev_transaction_output_hash == h;
        assert(ins[j] == d[j]);
    }
    if ins.last().prev_transaction_output_hash == h {
        assert(ins[ins.len() - 1] == ins.last());
    }
    if input_of(ins, h) {
        let j = choose|j: int| 0 <= j < ins.len() && (#[trigger] ins[j]).prev_transaction_output_hash == h;
        if j < ins.len() - 1 {
            assert(d[j] == ins[j]);
        }
    }
}

pub proof fn lemma_set_marks_at(m: UtxoMap, ins: Seq<TransactionInput>, b: bool, h: crate::hash::Hash)
    ensures
        set_marks(m, ins, b).dom() == m.dom(),
        m.contains_key(h) ==> set_marks(m, ins, b)[h] == (
            if input_of(ins, h) {
                b
            } else {
                m[h].0
            },
            m[h].1,
        ),
    decreases ins.len(),
{
    if ins.len() > 0 {
        lemma_set_marks_at(m, ins.drop_last(), b, h);
        lemma_input_of_last(ins, h);
        let x = set_marks(m, ins.drop_last(), b);
        assert(map_remark(x, ins.last().prev_transaction_output_hash, b).dom() =~= x.dom());
    } else {
        assert(!input_of(ins, h));
    }
}

proof fn lemma_contains_last(pool: Seq<MempoolEntryView>, e: MempoolEntryView)
    requires
        pool.len() > 0,
    ensures
        pool.contains(e) == (pool.drop_last().contains(e) || pool.last() == e),
{
    let d = pool.drop_last();
    if d.contains(e) {
        let k = choose|k: int| 0 <= k < d.len() && d[k] == e;
        assert(pool[k] == d[k]);
    }
    if pool.last() == e {
        assert(pool[pool.len() - 1] == e);
    }
    if pool.contains(e) {
        let k = choose|k: int| 0 <= k < pool.len() && pool[k] == e;
        if k < pool.len() - 1 {
            assert(d[k] == pool[k]);
        }
    }
}

proof fn lemma_reserved_last(pool: Seq<MempoolEntryView>, h: crate::hash::Hash)
    requires
        pool.len() > 0,
    ensures
        reserved_by(pool, h) == (reserved_by(pool.drop_last(), h) || input_of(
            pool.last().transaction.inputs,
            h,
        )),
{
    let d = pool.drop_last();
    if reserved_by(d, h) {
        let e = choose|e: MempoolEntryView| #[trigger] d.contains(e) && input_of(e.transaction.inputs, h);
        lemma_contains_last(pool, e);
    }
    if input_of(pool.last().transaction.inputs, h) {
        lemma_contains_last(pool, pool.last());
    }
    if reserved_by(pool, h) {
        let e = choose|e: MempoolEntryView| #[trigger] pool.contains(e) && input_of(e.transaction.inputs, h);
        lemma_contains_last(pool, e);
    }
}

/// The flags of `mark_pool`: an output is reserved where it was, or where a
/// mempool entry spends it.
pub proof fn lemma_mark_pool_at(m: UtxoMap, pool: Seq<MempoolEntryView>, h: crate::hash::Hash)
    ensures
        mark_pool(m, pool).dom() == m.dom(),
        m.contains_key(h) ==> mark_pool(m, pool)[h] == (m[h].0 || reserved_by(pool, h), m[h].1),
    decreases pool.len(),
{
    if pool.len() > 0 {
        lemma_mark_pool_at(m, pool.drop_last(), h);
        lemma_reserved_last(pool, h);
        lemma_set_marks_at(mark_pool(m, pool.drop_last()), pool.last().transaction.inputs, true, h);
    } else {
        assert(!reserved_by(pool, h));
    }
}

/// The flags of `unmark_entries`: an output stays reserved where it was and
/// no released entry spends it.
pub proof fn lemma_unmark_at(m: UtxoMap, es: Seq<MempoolEntryView>, h: crate::hash::Hash)
    ensures
        unmark_entries(m, es).dom() == m.dom(),
        m.contains_key(h) ==> unmark_entries(m, es)[h] == (m[h].0 && !reserved_by(es, h), m[h].1),
    decreases es.len(),
{
    if es.len() > 0 {
        lemma_unmark_at(m, es.drop_last(), h);
        lemma_reserved_last(es, h);
        lemma_set_marks_at(unmark_entries(m, es.drop_last()), es.last().transaction.inputs, false, h);
    } else {
        assert(!reserved_by(es, h));
    }
}

/// An entry is kept exactly where it is in the mempool and meets `p`.
pub proof fn lemma_keep_contains(pool: Seq<MempoolEntryView>, p: spec_fn(MempoolEntryView) -> bool, e: MempoolEntryView)
    ensures
        keep(pool, p).contains(e) == (pool.contains(e) && p(e)),
    decreases pool.len(),
{
    if pool.len() > 0 {
        lemma_keep_contains(pool.drop_last(), p, e);
        lemma_contains_last(pool, e);
        let sub = keep(pool.drop_last(), p);
        if p(pool.last()) {
            let r = sub.push(pool.last());
            assert(r.drop_last() =~= sub);
            lemma_contains_last(r, e);
        }
    }
}

/// Two entries that spend a common output share an input.
proof fn lemma_spend_same(x: MempoolEntryView, y: MempoolEntryView, h: crate::hash::Hash)
    requires
        input_of(x.transaction.inputs, h),
        input_of(y.transaction.inputs, h),
    ensures
        shares_input(x.transaction, y.transaction),
{
    reveal(shares_input);
    let i = choose|j: int| 0 <= j < x.transaction.inputs.len() && (#[trigger] x.transaction.inputs[j]).prev_transaction_output_hash == h;
    let j = choose|j: int| 0 <= j < y.transaction.inputs.len() && (#[trigger] y.transaction.inputs[j]).prev_transaction_output_hash == h;
    assert(x.transaction.inputs[i].prev_transaction_output_hash == y.transaction.inputs[j].prev_transaction_output_hash);
}

/// Releasing the outputs of the entries that fail `p` and keeping those that
/// meet it leaves the reservations of the kept entries, where no two entries
/// spend a common output.
pub proof fn lemma_release_split(
    r: UtxoMap,
    pool: Seq<MempoolEntryView>,
    p: spec_fn(MempoolEntryView) -> bool,
    q: spec_fn(MempoolEntryView) -> bool,
)
    requires
        unreserved(r),
        pool_disjoint(pool),
        forall|x: MempoolEntryView| #[trigger] q(x) == !p(x),
    ensures
        unmark_entries(mark_pool(r, pool), keep(pool, q)) == mark_pool(r, keep(pool, p)),
        pool_disjoint(keep(pool, p)),
{
    let m = mark_pool(r, pool);
    let gone = keep(pool, q);
    let stay = keep(pool, p);
    assert forall|h: crate::hash::Hash| #[trigger] r.contains_key(h) implies unmark_entries(m, gone)[h]
        == mark_pool(r, stay)[h] by {
        lemma_mark_pool_at(r, pool, h);
        lemma_mark_pool_at(r, stay, h);
        lemma_unmark_at(m, gone, h);
        if reserved_by(stay, h) {
            let x = choose|x: MempoolEntryView| #[trigger] stay.contains(x) && input_of(x.transaction.inputs, h);
            lemma_keep_contains(pool, p, x);
            if reserved_by(gone, h) {
                let y = choose|y: MempoolEntryView| #[trigger] gone.contains(y) && input_of(y.transaction.inputs, h);
                lemma_keep_contains(pool, q, y);
                lemma_spend_same(x, y, h);
            }
        }
        if reserved_by(pool, h) && !reserved_by(gone, h) {
            let x = choose|x: MempoolEntryView| #[trigger] pool.contains(x) && input_of(x.transaction.inputs, h);
            lemma_keep_contains(pool, p, x);
            lemma_keep_contains(pool, q, x);
        }
    }
    lemma_mark_pool_at(r, pool, crate::hash::zero_hash());
    lemma_mark_pool_at(r, stay, crate::hash::zero_hash());
    lemma_unmark_at(m, gone, crate::hash::zero_hash());
    assert(unmark_entries(m, gone) =~= mark_pool(r, stay));
    assert forall|x: MempoolEntryView, y: MempoolEntryView|
        #[trigger] stay.contains(x) && #[trigger] stay.contains(y) && x != y implies !shares_input(
        x.transaction,
        y.transaction,
    ) by {
        lemma_keep_contains(pool, p, x);
        lemma_keep_contains(pool, p, y);
    }
}

proof fn lemma_spend_unreserved(m: UtxoMap, ins: Seq<TransactionInput>)
    requires
        unreserved(m),
    ensures
        unreserved(spend_inputs(m, ins)),
    decreases ins.len(),
{
    if ins.len() > 0 {
        lemma_spend_unreserved(m, ins.drop_last());
    }
}

proof fn lemma_add_unreserved(m: UtxoMap, outs: Seq<TransactionOutput>)
    requires
        unreserved(m),
    ensures
        unreserved(add_outputs(m, outs)),
    decreases outs.len(),
{
    if outs.len() > 0 {
        lemma_add_unreserved(m, outs.drop_last());
    }
}

proof fn lemma_apply_unreserved(m: UtxoMap, txs: Seq<TransactionView>)
    requires
        unreserved(m),
    ensures
        unreserved(apply_txs(m, txs)),
    decreases txs.len(),
{
    if txs.len() > 0 {
        lemma_apply_unreserved(m, txs.drop_last());
        let x = apply_txs(m, txs.drop_last());
        lemma_spend_unreserved(x, txs.last().inputs);
        lemma_add_unreserved(spend_inputs(x, txs.last().inputs), txs.last().outputs);
    }
}

/// Replaying a chain reserves nothing.
pub proof fn lemma_replay_unreserved(blocks: Seq<BlockView>)
    ensures
        unreserved(replay(blocks)),
    decreases blocks.len(),
{
    if blocks.len() > 0 {
        lemma_replay_unreserved(blocks.drop_last());
        lemma_apply_unreserved(replay(blocks.drop_last()), blocks.last().transactions);
    }
}

proof fn lemma_shares_symmetric(a: TransactionView, b: TransactionView)
    ensures
        shares_input(a, b) == shares_input(b, a),
{
    reveal(shares_input);
    if shares_input(a, b) {
        let (i, j) = choose|i: int, j: int|
            0 <= i < a.inputs.len() && 0 <= j < b.inputs.len() && (#[trigger] a.inputs[i]).prev_transaction_output_hash
                == (#[trigger] b.inputs[j]).prev_transaction_output_hash;
        assert(b.inputs[j].prev_transaction_output_hash == a.inputs[i].prev_transaction_output_hash);
    }
    if shares_input(b, a) {
        let (i, j) = choose|i: int, j: int|
            0 <= i < b.inputs.len() && 0 <= j < a.inputs.len() && (#[trigger] b.inputs[i]).prev_transaction_output_hash
                == (#[trigger] a.inputs[j]).prev_transaction_output_hash;
        assert(a.inputs[j].prev_transaction_output_hash == b.inputs[i].prev_transaction_output_hash);
    }
}

proof fn lemma_contains_split(a: Seq<MempoolEntryView>, e: MempoolEntryView, b: Seq<MempoolEntryView>, x: MempoolEntryView)
    ensures
        (a.push(e) + b).contains(x) == (a.contains(x) || x == e || b.contains(x)),
{
    let r = a.push(e) + b;
    if a.contains(x) {
        let k = choose|k: int| 0 <= k < a.len() && a[k] == x;
        assert(r[k] == x);
    }
    if x == e {
        assert(r[a.len() as int] == x);
    }
    if b.contains(x) {
        let k = choose|k: int| 0 <= k < b.len() && b[k] == x;
        assert(r[a.len() + 1 + k] == x);
    }
    if r.contains(x) {
        let k = choose|k: int| 0 <= k < r.len() && r[k] == x;
        if k < a.len() {
            assert(a[k] == x);
        } else if k > a.len() {
            assert(b[k - a.len() - 1] == x);
        }
    }
}

/// Admitting a transaction that spends something leaves exactly the
/// reservations of the new mempool, and no two of its entries spend a common
/// output.
pub proof fn lemma_admission_reserves(
    r: UtxoMap,
    pool: Seq<MempoolEntryView>,
    t: TransactionView,
    now: u64,
)
    requires
        unreserved(r),
        pool_disjoint(pool),
        t.inputs.len() > 0,
    ensures
        utxos_after_admission(mark_pool(r, pool), pool, t) == mark_pool(
            r,
            pool_after_admission(mark_pool(r, pool), pool, t, now),
        ),
        pool_disjoint(pool_after_admission(mark_pool(r, pool), pool, t, now)),
{
    let m = mark_pool(r, pool);
    let pk = |x: MempoolEntryView| shares_input(x.transaction, t) == false;
    let pe = |x: MempoolEntryView| shares_input(x.transaction, t) == true;
    lemma_release_split(r, pool, pk, pe);
    let kept = by_conflict(pool, t, false);
    let e = new_entry(m, t, now);
    let pa = |x: MempoolEntryView| precedes(x, e) == true;
    let pb = |x: MempoolEntryView| precedes(x, e) == false;
    let a = by_order(kept, e, true);
    let b = by_order(kept, e, false);
    let np = pool_after_admission(m, pool, t, now);
    assert(np == a.push(e) + b);
    assert forall|x: MempoolEntryView| #[trigger] np.contains(x) == (kept.contains(x) || x == e) by {
        lemma_contains_split(a, e, b, x);
        lemma_keep_contains(kept, pa, x);
        lemma_keep_contains(kept, pb, x);
    }
    let base = mark_pool(r, kept);
    assert forall|h: crate::hash::Hash| #[trigger] r.contains_key(h) implies set_marks(base, t.inputs, true)[h]
        == mark_pool(r, np)[h] by {
        lemma_mark_pool_at(r, kept, h);
        lemma_mark_pool_at(r, np, h);
        lemma_set_marks_at(base, t.inputs, true, h);
        if reserved_by(kept, h) {
            let x = choose|x: MempoolEntryView| #[trigger] kept.contains(x) && input_of(x.transaction.inputs, h);
            assert(np.contains(x));
        }
        if input_of(t.inputs, h) {
            assert(np.contains(e));
        }
        if reserved_by(np, h) {
            let x = choose|x: MempoolEntryView| #[trigger] np.contains(x) && input_of(x.transaction.inputs, h);
            assert(kept.contains(x) || x == e);
        }
    }
    lemma_mark_pool_at(r, kept, crate::hash::zero_hash());
    lemma_mark_pool_at(r, np, crate::hash::zero_hash());
    lemma_set_marks_at(base, t.inputs, true, crate::hash::zero_hash());
    assert(set_marks(base, t.inputs, true) =~= mark_pool(r, np));
    assert(shares_input(t, t)) by {
        reveal(shares_input);
        assert(t.inputs[0].prev_transaction_output_hash == t.inputs[0].prev_transaction_output_hash);
    }
    assert forall|x: MempoolEntryView, y: MempoolEntryView|
        #[trigger] np.contains(x) && #[trigger] np.contains(y) && x != y implies !shares_input(
        x.transaction,
        y.transaction,
    ) by {
        lemma_keep_contains(pool, pk, x);
        lemma_keep_contains(pool, pk, y);
        if x == e {
            lemma_shares_symmetric(t, y.transaction);
        }
    }
}

/// Keeping entries keeps them disjoint.
pub proof fn lemma_keep_disjoint(pool: Seq<MempoolEntryView>, p: spec_fn(MempoolEntryView) -> bool)
    requires
        pool_disjoint(pool),
    ensures
        pool_disjoint(keep(pool, p)),
{
    let k = keep(pool, p);
    assert forall|x: MempoolEntryView, y: MempoolEntryView|
        #[trigger] k.contains(x) && #[trigger] k.contains(y) && x != y implies !shares_input(
        x.transaction,
        y.transaction,
    ) by {
        lemma_keep_contains(pool, p, x);
        lemma_keep_contains(pool, p, y);
    }
}

/// Agreement but for the flags is symmetric and transitive.
pub proof fn lemma_same_outputs_trans(a: UtxoMap, b: UtxoMap, c: UtxoMap)
    requires
        crate::rules::same_outputs(a, b),
        crate::rules::same_outputs(c, b),
    ensures
        crate::rules::same_outputs(a, c),
{
    assert forall|h: crate::hash::Hash| #[trigger] a.contains_key(h) implies a[h].1 == c[h].1 by {
        assert(b.contains_key(h));
        assert(c.contains_key(h));
    }
}

} // verus!
