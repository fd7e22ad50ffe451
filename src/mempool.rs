//! Mempool admission, replacement by fee, ordering and ageing.
use vstd::prelude::*;
use crate::chain::{
    Blockchain, MempoolEntry, MempoolEntryView, keep, lemma_keep_all, lemma_keep_every,
    lemma_keep_pred, lemma_keep_sorted, lemma_set_marks_same, pool_sorted, pool_view, precedes,
    set_marks,
};
use crate::rules::same_outputs;
use crate::error::BtcError;
use crate::rules::{UtxoMap, check_transaction, tx_error, tx_fee};
use crate::types::{Transaction, TransactionView};
use crate::MAX_MEMPOOL_TRANSACTION_AGE;

verus! {

/// Whether two transactions spend a common output.
#[verifier::opaque]
pub open spec fn shares_input(a: TransactionView, b: TransactionView) -> bool {
    exists|i: int, j: int|
        0 <= i < a.inputs.len() && 0 <= j < b.inputs.len() && (#[trigger] a.inputs[i]).prev_transaction_output_hash
            == (#[trigger] b.inputs[j]).prev_transaction_output_hash
}

/// The entries that share an input with `t` (`c`), or those that do not.
pub open spec fn by_conflict(pool: Seq<MempoolEntryView>, t: TransactionView, c: bool) -> Seq<
    MempoolEntryView,
> {
    keep(pool, |x: MempoolEntryView| shares_input(x.transaction, t) == c)
}

/// The entries that come before `e` in mempool order (`before`), or after it.
pub open spec fn by_order(pool: Seq<MempoolEntryView>, e: MempoolEntryView, before: bool) -> Seq<
    MempoolEntryView,
> {
    keep(pool, |x: MempoolEntryView| precedes(x, e) == before)
}

/// An entry expires once more than the maximal age has passed since its admission.
pub open spec fn expired(e: MempoolEntryView, now: u64) -> bool {
    e.admitted_at + MAX_MEMPOOL_TRANSACTION_AGE < now
}

/// The expired entries (`gone`), or those that stay.
pub open spec fn by_age(pool: Seq<MempoolEntryView>, now: u64, gone: bool) -> Seq<
    MempoolEntryView,
> {
    keep(pool, |x: MempoolEntryView| expired(x, now) == gone)
}

/// The flags of the outputs that the entries spend, cleared.
pub open spec fn unmark_entries(m: UtxoMap, es: Seq<MempoolEntryView>) -> UtxoMap
    decreases es.len(),
{
    if es.len() == 0 {
        m
    } else {
        set_marks(unmark_entries(m, es.drop_last()), es.last().transaction.inputs, false)
    }
}

/// Every entry that shares an input with `t` pays a lower fee than `fee`.
pub open spec fn outbids(pool: Seq<MempoolEntryView>, t: TransactionView, fee: int) -> bool {
    forall|k: int|
        0 <= k < pool.len() && shares_input((#[trigger] pool[k]).transaction, t) ==> pool[k].fee
            < fee
}

/// Why the mempool refuses a transaction, if it does: the rules of a spending
/// transaction, then replacement, which needs a strictly higher fee than every
/// entry that spends one of the same outputs.
pub open spec fn admission_error(m: UtxoMap, pool: Seq<MempoolEntryView>, t: TransactionView) -> Option<
    BtcError,
> {
    if tx_error(m, t, BtcError::InvalidTransaction) is Some {
        tx_error(m, t, BtcError::InvalidTransaction)
    } else if !outbids(pool, t, tx_fee(m, t)) {
        Some(BtcError::InvalidTransaction)
    } else {
        None
    }
}

pub open spec fn new_entry(m: UtxoMap, t: TransactionView, now: u64) -> MempoolEntryView {
    MempoolEntryView { admitted_at: now, fee: tx_fee(m, t) as u128, transaction: t }
}

/// The mempool after admitting `t`: the entries it outbids leave, and it goes
/// in at its place in mempool order.
pub open spec fn pool_after_admission(
    m: UtxoMap,
    pool: Seq<MempoolEntryView>,
    t: TransactionView,
    now: u64,
) -> Seq<MempoolEntryView> {
    let kept = by_conflict(pool, t, false);
    let e = new_entry(m, t, now);
    by_order(kept, e, true).push(e) + by_order(kept, e, false)
}

/// The unspent outputs after admitting `t`: those of the evicted entries are
/// released, then those of `t` reserved.
pub open spec fn utxos_after_admission(m: UtxoMap, pool: Seq<MempoolEntryView>, t: TransactionView) -> UtxoMap {
    set_marks(unmark_entries(m, by_conflict(pool, t, true)), t.inputs, true)
}

/// Whether two transactions spend a common output.
pub fn transactions_share_input(a: &Transaction, b: &Transaction) -> (r: bool)
    ensures
        r == shares_input(a@, b@),
{
    let mut i: usize = 0;
    while i < a.inputs.len()
        invariant
            i <= a.inputs@.len(),
            forall|x: int, y: int|
                0 <= x < i && 0 <= y < b.inputs@.len() ==> (#[trigger] a.inputs@[x]).prev_transaction_output_hash
                    != (#[trigger] b.inputs@[y]).prev_transaction_output_hash,
        decreases a.inputs@.len() - i,
    {
        let mut j: usize = 0;
        while j < b.inputs.len()
            invariant
                i < a.inputs@.len(),
                j <= b.inputs@.len(),
                forall|x: int, y: int|
                    0 <= x < i && 0 <= y < b.inputs@.len() ==> (#[trigger] a.inputs@[x]).prev_transaction_output_hash
                        != (#[trigger] b.inputs@[y]).prev_transaction_output_hash,
                forall|y: int|
                    0 <= y < j ==> a.inputs@[i as int].prev_transaction_output_hash
                        != (#[trigger] b.inputs@[y]).prev_transaction_output_hash,
            decreases b.inputs@.len() - j,
        {
            if a.inputs[i].prev_transaction_output_hash == b.inputs[j].prev_transaction_output_hash {
                proof {
                    reveal(shares_input);
                    let x = i as int;
                    let y = j as int;
                    assert(a@.inputs[x].prev_transaction_output_hash
                        == b@.inputs[y].prev_transaction_output_hash);
                }
                return true;
            }
            j = j + 1;
        }
        i = i + 1;
    }
    proof {
        reveal(shares_input);
    }
    false
}

fn set_input_marks(utxos: &mut crate::utxo::UtxoSet, t: &Transaction, b: bool)
    ensures
        final(utxos)@ == set_marks(old(utxos)@, t.inputs@, b),
        old(utxos).unique() ==> final(utxos).unique(),
{
    let ghost base = utxos@;
    let mut k: usize = 0;
    while k < t.inputs.len()
        invariant
            k <= t.inputs@.len(),
            utxos@ == set_marks(base, t.inputs@.take(k as int), b),
            old(utxos).unique() ==> utxos.unique(),
        decreases t.inputs@.len() - k,
    {
        utxos.set_marked(&t.inputs[k].prev_transaction_output_hash, b);
        proof {
            assert(t.inputs@.take(k + 1).drop_last() =~= t.inputs@.take(k as int));
        }
        k = k + 1;
    }
    assert(t.inputs@.take(k as int) =~= t.inputs@);
}

/// Whether `tx` pays more than every entry it shares an input with.
fn outbids_all(mempool: &Vec<MempoolEntry>, tx: &Transaction, fee: u128) -> (r: bool)
    ensures
        r == outbids(pool_view(mempool@), tx@, fee as int),
{
    let ghost pool = pool_view(mempool@);
    let mut k: usize = 0;
    while k < mempool.len()
        invariant
            k <= mempool@.len(),
            pool == pool_view(mempool@),
            forall|x: int|
                0 <= x < k && shares_input((#[trigger] pool[x]).transaction, tx@) ==> pool[x].fee
                    < fee,
        decreases mempool@.len() - k,
    {
        if transactions_share_input(&mempool[k].transaction, tx) && mempool[k].fee >= fee {
            assert(pool[k as int] == mempool@[k as int]@);
            assert(shares_input(pool[k as int].transaction, tx@));
            return false;
        }
        k = k + 1;
    }
    true
}

/// The entries that share no input with `tx`; the outputs of the others are
/// released.
fn evict_conflicts(
    mempool: &Vec<MempoolEntry>,
    utxos: &mut crate::utxo::UtxoSet,
    tx: &Transaction,
) -> (kept: Vec<MempoolEntry>)
    ensures
        pool_view(kept@) == by_conflict(pool_view(mempool@), tx@, false),
        final(utxos)@ == unmark_entries(old(utxos)@, by_conflict(pool_view(mempool@), tx@, true)),
        old(utxos).unique() ==> final(utxos).unique(),
{
    let ghost pool = pool_view(mempool@);
    let ghost m = utxos@;
    let mut kept: Vec<MempoolEntry> = Vec::new();
    let mut j: usize = 0;
    while j < mempool.len()
        invariant
            j <= mempool@.len(),
            pool == pool_view(mempool@),
            pool_view(kept@) == by_conflict(pool.take(j as int), tx@, false),
            utxos@ == unmark_entries(m, by_conflict(pool.take(j as int), tx@, true)),
            old(utxos).unique() ==> utxos.unique(),
        decreases mempool@.len() - j,
    {
        proof {
            assert(pool.take(j + 1).drop_last() =~= pool.take(j as int));
            assert(pool.take(j + 1).last() == pool[j as int]);
        }
        if transactions_share_input(&mempool[j].transaction, tx) {
            set_input_marks(utxos, &mempool[j].transaction, false);
            proof {
                let ev = by_conflict(pool.take(j + 1), tx@, true);
                assert(ev.drop_last() =~= by_conflict(pool.take(j as int), tx@, true));
            }
        } else {
            let e = mempool[j].copy();
            let ghost before = kept@;
            kept.push(e);
            assert(pool_view(kept@) =~= pool_view(before).push(e@));
        }
        j = j + 1;
    }
    assert(pool.take(j as int) =~= pool);
    kept
}

/// The entries with `entry` put in at its place in mempool order.
fn insert_in_order(kept: &Vec<MempoolEntry>, entry: MempoolEntry) -> (r: Vec<MempoolEntry>)
    ensures
        pool_view(r@) == by_order(pool_view(kept@), entry@, true).push(entry@) + by_order(
            pool_view(kept@),
            entry@,
            false,
        ),
{
    let ghost ev = entry@;
    let ghost kv = pool_view(kept@);
    let mut first: Vec<MempoolEntry> = Vec::new();
    let mut i: usize = 0;
    while i < kept.len()
        invariant
            i <= kept@.len(),
            kv == pool_view(kept@),
            ev == entry@,
            pool_view(first@) == by_order(kv.take(i as int), ev, true),
        decreases kept@.len() - i,
    {
        proof {
            assert(kv.take(i + 1).drop_last() =~= kv.take(i as int));
            assert(kv.take(i + 1).last() == kv[i as int]);
        }
        let goes_before = kept[i].fee > entry.fee || (kept[i].fee == entry.fee
            && kept[i].admitted_at <= entry.admitted_at);
        assert(kv[i as int] == kept@[i as int]@);
        assert(goes_before == precedes(kv[i as int], ev));
        if goes_before {
            let e = kept[i].copy();
            let ghost before = first@;
            first.push(e);
            assert(pool_view(first@) =~= pool_view(before).push(e@));
        }
        i = i + 1;
    }
    assert(kv.take(i as int) =~= kv);
    let mut second: Vec<MempoolEntry> = Vec::new();
    let mut i2: usize = 0;
    while i2 < kept.len()
        invariant
            i2 <= kept@.len(),
            kv == pool_view(kept@),
            ev == entry@,
            pool_view(second@) == by_order(kv.take(i2 as int), ev, false),
        decreases kept@.len() - i2,
    {
        proof {
            assert(kv.take(i2 + 1).drop_last() =~= kv.take(i2 as int));
            assert(kv.take(i2 + 1).last() == kv[i2 as int]);
        }
        let goes_before = kept[i2].fee > entry.fee || (kept[i2].fee == entry.fee
            && kept[i2].admitted_at <= entry.admitted_at);
        assert(kv[i2 as int] == kept@[i2 as int]@);
        assert(goes_before == precedes(kv[i2 as int], ev));
        if !goes_before {
            let e = kept[i2].copy();
            let ghost before = second@;
            second.push(e);
            assert(pool_view(second@) =~= pool_view(before).push(e@));
        }
        i2 = i2 + 1;
    }
    assert(kv.take(i2 as int) =~= kv);
    let ghost fv = pool_view(first@);
    first.push(entry);
    first.append(&mut second);
    assert(pool_view(first@) =~= fv.push(ev) + by_order(kv, ev, false));
    first
}

impl Blockchain {
    /// `new` is the state that admitting `t` at `now` to `self` leaves:
    /// unchanged where the mempool refuses `t`; else the chain and target as
    /// they were, the outputs and the mempool as admission leaves them.
    pub open spec fn tx_admitted(&self, new: &Blockchain, t: TransactionView, now: u64) -> bool {
        match admission_error(self.utxos@, self.pool(), t) {
            Some(_) => new.same_state(self),
            None => {
                &&& new.chain() == self.chain()
                &&& new.target == self.target
                &&& new.utxos@ == utxos_after_admission(self.utxos@, self.pool(), t)
                &&& new.pool() == pool_after_admission(self.utxos@, self.pool(), t, now)
            },
        }
    }

    /// Admits a spending transaction into the mempool at time `now`, evicting
    /// the entries it outbids, and reserves the outputs it spends.
    pub fn add_to_mempool(&mut self, tx: Transaction, now: u64) -> (r: Result<(), BtcError>)
        requires
            old(self).wf(),
        ensures
            final(self).wf(),
            r == crate::rules::as_result(admission_error(old(self).utxos@, old(self).pool(), tx@)),
            final(self).blocks@ == old(self).blocks@,
            old(self).tx_admitted(&*final(self), tx@, now),
    {
        let ghost m = self.utxos@;
        let ghost pool = self.pool();
        let fee = match check_transaction(&self.utxos, &tx, BtcError::InvalidTransaction) {
            Err(e) => {
                return Err(e);
            },
            Ok(f) => f,
        };
        if !outbids_all(&self.mempool, &tx, fee) {
            return Err(BtcError::InvalidTransaction);
        }
        let kept = evict_conflicts(&self.mempool, &mut self.utxos, &tx);
        set_input_marks(&mut self.utxos, &tx, true);
        let entry = MempoolEntry { admitted_at: now, fee, transaction: tx };
        assert(entry@ == new_entry(m, tx@, now));
        self.mempool = insert_in_order(&kept, entry);
        proof {
            let r = crate::rules::replay(self.chain());
            crate::reservations::lemma_replay_unreserved(self.chain());
            crate::reservations::lemma_admission_reserves(r, pool, tx@, now);
            lemma_admission_sorted(m, pool, tx@, now);
            crate::chain::lemma_marks_keep_wf(*old(self), *self);
        }
        Ok(())
    }

    /// Drops the entries older than the maximal age at time `now`, releasing
    /// the outputs they had reserved.
    pub fn cleanup_mempool(&mut self, now: u64)
        requires
            old(self).wf(),
        ensures
            final(self).wf(),
            final(self).pool() == by_age(old(self).pool(), now, false),
            final(self).utxos@ == unmark_entries(old(self).utxos@, by_age(old(self).pool(), now, true)),
            final(self).blocks@ == old(self).blocks@,
            final(self).target == old(self).target,
    {
        let ghost m = self.utxos@;
        let ghost pool = self.pool();
        let mut kept: Vec<MempoolEntry> = Vec::new();
        let mut j: usize = 0;
        while j < self.mempool.len()
            invariant
                j <= self.mempool@.len(),
                pool == self.pool(),
                self.blocks@ == old(self).blocks@,
                self.target == old(self).target,
                pool_view(kept@) == by_age(pool.take(j as int), now, false),
                self.utxos@ == unmark_entries(m, by_age(pool.take(j as int), now, true)),
                self.utxos.unique(),
            decreases self.mempool@.len() - j,
        {
            proof {
                assert(pool.take(j + 1).drop_last() =~= pool.take(j as int));
                assert(pool.take(j + 1).last() == pool[j as int]);
            }
            if now > MAX_MEMPOOL_TRANSACTION_AGE && self.mempool[j].admitted_at < now
                - MAX_MEMPOOL_TRANSACTION_AGE {
                set_input_marks(&mut self.utxos, &self.mempool[j].transaction, false);
                proof {
                    let ev = by_age(pool.take(j + 1), now, true);
                    assert(ev.drop_last() =~= by_age(pool.take(j as int), now, true));
                }
            } else {
                let e = self.mempool[j].copy();
                let ghost before = kept@;
                kept.push(e);
                assert(pool_view(kept@) =~= pool_view(before).push(e@));
            }
            j = j + 1;
        }
        assert(pool.take(j as int) =~= pool);
        self.mempool = kept;
        proof {
            let r = crate::rules::replay(self.chain());
            crate::reservations::lemma_replay_unreserved(self.chain());
            crate::reservations::lemma_release_split(
                r,
                pool,
                |x: MempoolEntryView| expired(x, now) == false,
                |x: MempoolEntryView| expired(x, now) == true,
            );
            lemma_keep_sorted(pool, |x: MempoolEntryView| expired(x, now) == false);
            crate::chain::lemma_marks_keep_wf(*old(self), *self);
        }
    }
}

/// Clearing flags keeps cleared flags clear, and clears those of the inputs.
proof fn lemma_set_marks_clear(m: UtxoMap, ins: Seq<crate::types::TransactionInput>, h: crate::hash::Hash)
    requires
        (exists|j: int| 0 <= j < ins.len() && (#[trigger] ins[j]).prev_transaction_output_hash == h)
            || (m.contains_key(h) ==> !m[h].0),
    ensures
        set_marks(m, ins, false).contains_key(h) ==> !set_marks(m, ins, false)[h].0,
        set_marks(m, ins, false).dom() == m.dom(),
    decreases ins.len(),
{
    if ins.len() > 0 {
        let last = ins.last().prev_transaction_output_hash;
        if last != h {
            if exists|j: int| 0 <= j < ins.len() && (#[trigger] ins[j]).prev_transaction_output_hash == h {
                let j = choose|j: int| 0 <= j < ins.len() && (#[trigger] ins[j]).prev_transaction_output_hash == h;
                assert(ins.drop_last()[j] == ins[j]);
            }
            lemma_set_marks_clear(m, ins.drop_last(), h);
        } else {
            lemma_set_marks_dom(m, ins.drop_last(), false);
        }
        let x = set_marks(m, ins.drop_last(), false);
        lemma_set_marks_dom(m, ins.drop_last(), false);
        assert(crate::utxo::map_remark(x, last, false).dom() =~= x.dom());
    }
}

proof fn lemma_set_marks_dom(m: UtxoMap, ins: Seq<crate::types::TransactionInput>, b: bool)
    ensures
        set_marks(m, ins, b).dom() == m.dom(),
    decreases ins.len(),
{
    if ins.len() > 0 {
        lemma_set_marks_dom(m, ins.drop_last(), b);
        let x = set_marks(m, ins.drop_last(), b);
        assert(crate::utxo::map_remark(x, ins.last().prev_transaction_output_hash, b).dom()
            =~= x.dom());
    }
}

/// Releasing the outputs of entries releases those of the entry at `idx`.
proof fn lemma_unmark_entries_clear(m: UtxoMap, es: Seq<MempoolEntryView>, idx: int, j: int)
    requires
        0 <= idx < es.len(),
        0 <= j < es[idx].transaction.inputs.len(),
    ensures
        ({
            let h = es[idx].transaction.inputs[j].prev_transaction_output_hash;
            unmark_entries(m, es).contains_key(h) ==> !unmark_entries(m, es)[h].0
        }),
    decreases es.len(),
{
    let h = es[idx].transaction.inputs[j].prev_transaction_output_hash;
    let x = unmark_entries(m, es.drop_last());
    if idx < es.len() - 1 {
        assert(es.drop_last()[idx] == es[idx]);
        lemma_unmark_entries_clear(m, es.drop_last(), idx, j);
        lemma_set_marks_clear(x, es.last().transaction.inputs, h);
    } else {
        assert(es.last().transaction.inputs[j].prev_transaction_output_hash == h);
        lemma_set_marks_clear(x, es.last().transaction.inputs, h);
    }
}

/// Admission keeps the mempool in order: the new entry goes after every
/// entry that precedes it and before all the others.
pub proof fn lemma_admission_sorted(
    m: UtxoMap,
    pool: Seq<MempoolEntryView>,
    t: TransactionView,
    now: u64,
)
    requires
        pool_sorted(pool),
    ensures
        pool_sorted(pool_after_admission(m, pool, t, now)),
{
    let kept = by_conflict(pool, t, false);
    let e = new_entry(m, t, now);
    lemma_keep_sorted(pool, |x: MempoolEntryView| shares_input(x.transaction, t) == false);
    let pa = |x: MempoolEntryView| precedes(x, e) == true;
    let pb = |x: MempoolEntryView| precedes(x, e) == false;
    lemma_keep_sorted(kept, pa);
    lemma_keep_sorted(kept, pb);
    lemma_keep_pred(kept, pa);
    lemma_keep_pred(kept, pb);
    let a = by_order(kept, e, true);
    let b = by_order(kept, e, false);
    let r = a.push(e) + b;
    assert(r == pool_after_admission(m, pool, t, now));
    let n = a.len() as int;
    assert forall|i: int, j: int| 0 <= i < j < r.len() implies precedes(
        #[trigger] r[i],
        #[trigger] r[j],
    ) by {
        if j < n {
            assert(r[i] == a[i] && r[j] == a[j]);
        } else if j == n {
            assert(r[i] == a[i] && r[j] == e);
            assert(pa(a[i]));
        } else if i < n {
            assert(r[i] == a[i] && r[j] == b[j - n - 1]);
            assert(pa(a[i]));
            assert(pb(b[j - n - 1]));
        } else if i == n {
            assert(r[i] == e && r[j] == b[j - n - 1]);
            assert(pb(b[j - n - 1]));
        } else {
            assert(r[i] == b[i - n - 1] && r[j] == b[j - n - 1]);
        }
    }
}


/// Admitting a transaction into a mempool none of whose entries is younger,
/// then cleaning up more than the maximal age later, leaves the mempool empty
/// and every output that the transaction spent released.
pub proof fn lemma_admit_then_expire(
    m: UtxoMap,
    pool: Seq<MempoolEntryView>,
    t: TransactionView,
    now: u64,
)
    requires
        admission_error(m, pool, t) is None,
        forall|k: int| 0 <= k < pool.len() ==> (#[trigger] pool[k]).admitted_at <= now,
        now + 601 <= u64::MAX,
    ensures
        ({
            let later = (now + 601) as u64;
            let admitted = pool_after_admission(m, pool, t, now);
            let m2 = unmark_entries(utxos_after_admission(m, pool, t), by_age(admitted, later, true));
            &&& by_age(admitted, later, false).len() == 0
            &&& forall|j: int|
                0 <= j < t.inputs.len() && m2.contains_key(
                    (#[trigger] t.inputs[j]).prev_transaction_output_hash,
                ) ==> !m2[t.inputs[j].prev_transaction_output_hash].0
        }),
{
    let later = (now + 601) as u64;
    let kept = by_conflict(pool, t, false);
    let e = new_entry(m, t, now);
    let a = by_order(kept, e, true);
    let b = by_order(kept, e, false);
    let admitted = pool_after_admission(m, pool, t, now);
    let early = |x: MempoolEntryView| x.admitted_at <= now;
    assert forall|i: int| 0 <= i < pool.len() implies early(#[trigger] pool[i]) by {}
    lemma_keep_all(pool, |x: MempoolEntryView| shares_input(x.transaction, t) == false, early);
    lemma_keep_all(kept, |x: MempoolEntryView| precedes(x, e) == true, early);
    lemma_keep_all(kept, |x: MempoolEntryView| precedes(x, e) == false, early);
    assert forall|k: int| 0 <= k < admitted.len() implies expired(#[trigger] admitted[k], later) by {
        if k < a.len() {
            assert(admitted[k] == a[k]);
        } else if k > a.len() {
            assert(admitted[k] == b[k - a.len() - 1]);
        }
    }
    lemma_keep_every(admitted, |x: MempoolEntryView| expired(x, later) == false);
    lemma_keep_every(admitted, |x: MempoolEntryView| expired(x, later) == true);
    let m1 = utxos_after_admission(m, pool, t);
    assert(admitted[a.len() as int] == e);
    assert forall|j: int|
        0 <= j < t.inputs.len() && unmark_entries(m1, by_age(admitted, later, true)).contains_key(
            (#[trigger] t.inputs[j]).prev_transaction_output_hash,
        ) implies !unmark_entries(m1, by_age(admitted, later, true))[t.inputs[j].prev_transaction_output_hash].0 by {
        lemma_unmark_entries_clear(m1, admitted, a.len() as int, j);
    }
}

} // verus!
