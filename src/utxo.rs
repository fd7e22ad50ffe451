//! The set of unspent transaction outputs, keyed by output hash, each with a
//! flag that says whether a mempool transaction has reserved it.
use vstd::prelude::*;
use crate::crypto::PublicKey;
use crate::types::TransactionOutput;

verus! {

#[derive(Clone, Copy, Debug, PartialEq, Eq, Structural)]
pub struct Utxo {
    pub hash: crate::hash::Hash,
    pub marked: bool,
    pub output: TransactionOutput,
}

/// What a list of entries stands for: a map in which a later entry of a key
/// overrides an earlier one.
pub open spec fn utxo_map(s: Seq<Utxo>) -> Map<crate::hash::Hash, (bool, TransactionOutput)>
    decreases s.len(),
{
    if s.len() == 0 {
        Map::empty()
    } else {
        utxo_map(s.drop_last()).insert(s.last().hash, (s.last().marked, s.last().output))
    }
}

/// The entries without those of key `h`.
pub open spec fn without(s: Seq<Utxo>, h: crate::hash::Hash) -> Seq<Utxo>
    decreases s.len(),
{
    if s.len() == 0 {
        seq![]
    } else if s.last().hash == h {
        without(s.drop_last(), h)
    } else {
        without(s.drop_last(), h).push(s.last())
    }
}

/// The entries with the flag of key `h` set to `b`.
pub open spec fn remark(s: Seq<Utxo>, h: crate::hash::Hash, b: bool) -> Seq<Utxo>
    decreases s.len(),
{
    if s.len() == 0 {
        seq![]
    } else {
        let e = s.last();
        remark(s.drop_last(), h, b).push(
            if e.hash == h {
                Utxo { hash: e.hash, marked: b, output: e.output }
            } else {
                e
            },
        )
    }
}

/// The outputs of the entries that a key owns, with their flags, in order.
pub open spec fn owned_by(s: Seq<Utxo>, key: PublicKey) -> Seq<(TransactionOutput, bool)>
    decreases s.len(),
{
    if s.len() == 0 {
        seq![]
    } else if s.last().output.public_key == key {
        owned_by(s.drop_last(), key).push((s.last().output, s.last().marked))
    } else {
        owned_by(s.drop_last(), key)
    }
}

/// The map `m` with the flag of `h`, if `h` is there, set to `b`.
pub open spec fn map_remark(
    m: Map<crate::hash::Hash, (bool, TransactionOutput)>,
    h: crate::hash::Hash,
    b: bool,
) -> Map<crate::hash::Hash, (bool, TransactionOutput)> {
    if m.contains_key(h) {
        m.insert(h, (b, m[h].1))
    } else {
        m
    }
}

/// No two entries hold the same key.
pub open spec fn keys_unique(s: Seq<Utxo>) -> bool {
    forall|i: int, j: int| 0 <= i < j < s.len() ==> (#[trigger] s[i]).hash != (#[trigger] s[j]).hash
}

proof fn lemma_without_avoids(s: Seq<Utxo>, h: crate::hash::Hash, x: crate::hash::Hash)
    requires
        forall|i: int| 0 <= i < s.len() ==> (#[trigger] s[i]).hash != x,
    ensures
        forall|k: int| 0 <= k < without(s, h).len() ==> (#[trigger] without(s, h)[k]).hash != x,
    decreases s.len(),
{
    if s.len() > 0 {
        let d = s.drop_last();
        assert forall|i: int| 0 <= i < d.len() implies (#[trigger] d[i]).hash != x by {
            assert(d[i] == s[i]);
        }
        lemma_without_avoids(d, h, x);
        let sub = without(d, h);
        let r = without(s, h);
        assert forall|k: int| 0 <= k < r.len() implies (#[trigger] r[k]).hash != x by {
            if k < sub.len() {
                assert(r[k] == sub[k]);
            } else {
                assert(r[k] == s[s.len() - 1]);
            }
        }
    }
}

/// Dropping a key keeps the others unique, and leaves no entry of that key.
pub proof fn lemma_without_unique(s: Seq<Utxo>, h: crate::hash::Hash)
    ensures
        keys_unique(s) ==> keys_unique(without(s, h)),
        forall|k: int| 0 <= k < without(s, h).len() ==> (#[trigger] without(s, h)[k]).hash != h,
    decreases s.len(),
{
    if s.len() > 0 {
        let d = s.drop_last();
        lemma_without_unique(d, h);
        let sub = without(d, h);
        let r = without(s, h);
        if keys_unique(s) {
            assert(keys_unique(d)) by {
                assert forall|i: int, j: int| 0 <= i < j < d.len() implies (#[trigger] d[i]).hash
                    != (#[trigger] d[j]).hash by {
                    assert(d[i] == s[i] && d[j] == s[j]);
                }
            }
            let x = s.last().hash;
            assert forall|i: int| 0 <= i < d.len() implies (#[trigger] d[i]).hash != x by {
                assert(d[i] == s[i]);
                assert(s[s.len() - 1] == s.last());
            }
            lemma_without_avoids(d, h, x);
            assert forall|i: int, j: int| 0 <= i < j < r.len() implies (#[trigger] r[i]).hash
                != (#[trigger] r[j]).hash by {
                assert(r[i] == sub[i]);
                if j < sub.len() {
                    assert(r[j] == sub[j]);
                } else {
                    assert(r[j] == s.last());
                }
            }
        }
        assert forall|k: int| 0 <= k < r.len() implies (#[trigger] r[k]).hash != h by {
            if k < sub.len() {
                assert(r[k] == sub[k]);
            }
        }
    }
}

/// Setting flags keeps every entry's key in its place.
pub proof fn lemma_remark_keys(s: Seq<Utxo>, h: crate::hash::Hash, b: bool)
    ensures
        remark(s, h, b).len() == s.len(),
        forall|i: int| 0 <= i < s.len() ==> (#[trigger] remark(s, h, b)[i]).hash == s[i].hash,
    decreases s.len(),
{
    if s.len() > 0 {
        lemma_remark_keys(s.drop_last(), h, b);
        let r = remark(s, h, b);
        assert forall|i: int| 0 <= i < s.len() implies (#[trigger] r[i]).hash == s[i].hash by {
            if i < s.len() - 1 {
                assert(r[i] == remark(s.drop_last(), h, b)[i]);
                assert(s.drop_last()[i] == s[i]);
            }
        }
    }
}

pub proof fn lemma_without(s: Seq<Utxo>, h: crate::hash::Hash)
    ensures
        utxo_map(without(s, h)) =~= utxo_map(s).remove(h),
    decreases s.len(),
{
    if s.len() > 0 {
        lemma_without(s.drop_last(), h);
        if s.last().hash != h {
            assert(without(s, h).drop_last() =~= without(s.drop_last(), h));
        }
    }
}

pub proof fn lemma_remark(s: Seq<Utxo>, h: crate::hash::Hash, b: bool)
    ensures
        utxo_map(remark(s, h, b)) =~= map_remark(utxo_map(s), h, b),
    decreases s.len(),
{
    if s.len() > 0 {
        lemma_remark(s.drop_last(), h, b);
        assert(remark(s, h, b).drop_last() =~= remark(s.drop_last(), h, b));
    }
}

/// Entries after position `i` that do not hold key `h` leave its lookup as
/// the first `i` entries give it.
proof fn lemma_suffix(s: Seq<Utxo>, i: int, h: crate::hash::Hash)
    requires
        0 <= i <= s.len(),
        forall|j: int| i <= j < s.len() ==> (#[trigger] s[j]).hash != h,
    ensures
        utxo_map(s).contains_key(h) == utxo_map(s.take(i)).contains_key(h),
        utxo_map(s).contains_key(h) ==> utxo_map(s)[h] == utxo_map(s.take(i))[h],
    decreases s.len() - i,
{
    if i < s.len() {
        let t = s.drop_last();
        assert(t.take(i) =~= s.take(i));
        lemma_suffix(t, i, h);
    } else {
        assert(s.take(i) =~= s);
    }
}

pub struct UtxoSet {
    pub entries: Vec<Utxo>,
}

impl View for UtxoSet {
    type V = Map<crate::hash::Hash, (bool, TransactionOutput)>;

    open spec fn view(&self) -> Map<crate::hash::Hash, (bool, TransactionOutput)> {
        utxo_map(self.entries@)
    }
}

impl UtxoSet {
    pub open spec fn entries_view(&self) -> Seq<Utxo> {
        self.entries@
    }

    /// Each key is held by one entry at most.
    pub open spec fn unique(&self) -> bool {
        keys_unique(self.entries@)
    }

    pub fn new() -> (r: UtxoSet)
        ensures
            r@ == Map::<crate::hash::Hash, (bool, TransactionOutput)>::empty(),
            r.unique(),
    {
        UtxoSet { entries: Vec::new() }
    }

    pub fn len(&self) -> (r: usize)
        ensures
            r == self.entries_view().len(),
    {
        self.entries.len()
    }

    /// The entries, in the order they were stored.
    pub fn entries(&self) -> (r: &Vec<Utxo>)
        ensures
            r@ == self.entries_view(),
            utxo_map(r@) == self@,
    {
        &self.entries
    }

    pub fn get(&self, h: &crate::hash::Hash) -> (r: Option<(bool, TransactionOutput)>)
        ensures
            r == (if self@.contains_key(*h) {
                Some(self@[*h])
            } else {
                None
            }),
    {
        let mut i: usize = self.entries.len();
        while i > 0
            invariant
                i <= self.entries@.len(),
                forall|j: int| i <= j < self.entries@.len() ==> (#[trigger] self.entries@[j]).hash
                    != *h,
            decreases i,
        {
            let e = self.entries[i - 1];
            if e.hash == *h {
                proof {
                    lemma_suffix(self.entries@, i as int, *h);
                    assert(self.entries@.take(i as int).drop_last() =~= self.entries@.take(
                        i - 1,
                    ));
                }
                return Some((e.marked, e.output));
            }
            i = i - 1;
        }
        proof {
            lemma_suffix(self.entries@, 0, *h);
        }
        None
    }

    pub fn contains(&self, h: &crate::hash::Hash) -> (r: bool)
        ensures
            r == self@.contains_key(*h),
    {
        self.get(h).is_some()
    }

    pub fn remove(&mut self, h: &crate::hash::Hash)
        ensures
            final(self)@ == old(self)@.remove(*h),
            final(self).entries_view() == without(old(self).entries_view(), *h),
            old(self).unique() ==> final(self).unique(),
    {
        let ghost s = self.entries@;
        let mut out: Vec<Utxo> = Vec::new();
        let mut i: usize = 0;
        while i < self.entries.len()
            invariant
                s == self.entries@,
                i <= s.len(),
                out@ == without(s.take(i as int), *h),
            decreases s.len() - i,
        {
            let e = self.entries[i];
            if e.hash != *h {
                out.push(e);
            }
            proof {
                assert(s.take(i + 1).drop_last() =~= s.take(i as int));
            }
            i = i + 1;
        }
        proof {
            assert(s.take(i as int) =~= s);
            lemma_without(s, *h);
            lemma_without_unique(s, *h);
        }
        self.entries = out;
    }

    /// Stores an output under a key, replacing what the key held.
    pub fn insert(&mut self, h: crate::hash::Hash, marked: bool, output: TransactionOutput)
        ensures
            final(self)@ == old(self)@.insert(h, (marked, output)),
            old(self).unique() ==> final(self).unique(),
    {
        self.remove(&h);
        let ghost mid = self.entries@;
        proof {
            lemma_without_unique(old(self).entries@, h);
        }
        self.entries.push(Utxo { hash: h, marked, output });
        proof {
            assert(self.entries@.drop_last() =~= mid);
            let s = self.entries@;
            if old(self).unique() {
                assert forall|i: int, j: int| 0 <= i < j < s.len() implies (#[trigger] s[i]).hash
                    != (#[trigger] s[j]).hash by {
                    assert(s[i] == mid[i]);
                    if j < mid.len() {
                        assert(s[j] == mid[j]);
                    }
                }
            }
        }
        assert(self@ =~= old(self)@.insert(h, (marked, output)));
    }

    /// Sets the flag of key `h`, where it is present.
    pub fn set_marked(&mut self, h: &crate::hash::Hash, b: bool)
        ensures
            final(self)@ == map_remark(old(self)@, *h, b),
            old(self).unique() ==> final(self).unique(),
    {
        let ghost s = self.entries@;
        let mut out: Vec<Utxo> = Vec::new();
        let mut i: usize = 0;
        while i < self.entries.len()
            invariant
                s == self.entries@,
                i <= s.len(),
                out@ == remark(s.take(i as int), *h, b),
            decreases s.len() - i,
        {
            let e = self.entries[i];
            if e.hash == *h {
                out.push(Utxo { hash: e.hash, marked: b, output: e.output });
            } else {
                out.push(e);
            }
            proof {
                assert(s.take(i + 1).drop_last() =~= s.take(i as int));
            }
            i = i + 1;
        }
        proof {
            assert(s.take(i as int) =~= s);
            lemma_remark(s, *h, b);
            lemma_remark_keys(s, *h, b);
        }
        self.entries = out;
    }

    /// The outputs that a key owns, with their flags, in the order stored.
    pub fn owned_by(&self, key: &PublicKey) -> (r: Vec<(TransactionOutput, bool)>)
        ensures
            r@ == owned_by(self.entries_view(), *key),
    {
        let ghost s = self.entries@;
        let mut out: Vec<(TransactionOutput, bool)> = Vec::new();
        let mut i: usize = 0;
        while i < self.entries.len()
            invariant
                s == self.entries@,
                i <= s.len(),
                out@ == owned_by(s.take(i as int), *key),
            decreases s.len() - i,
        {
            let e = self.entries[i];
            if e.output.public_key == *key {
                out.push((e.output, e.marked));
            }
            proof {
                assert(s.take(i + 1).drop_last() =~= s.take(i as int));
            }
            i = i + 1;
        }
        proof {
            assert(s.take(i as int) =~= s);
        }
        out
    }
}

} // verus!
