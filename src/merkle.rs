//! Merkle roots of transaction lists.
use vstd::prelude::*;
use crate::hash::{cbor_array_head, cbor_u256, digest_hash, push_array_head, push_u256, zero_hash};
use crate::types::{MerkleRoot, Transaction, TransactionView, transaction_hash, txs_view};

verus! {

pub open spec fn pair_encoding(l: crate::hash::Hash, r: crate::hash::Hash) -> Seq<u8> {
    cbor_array_head(2) + cbor_u256(l.0) + cbor_u256(r.0)
}

/// The hash of the two-element array `[l, r]`.
pub open spec fn pair_hash(l: crate::hash::Hash, r: crate::hash::Hash) -> crate::hash::Hash {
    digest_hash(pair_encoding(l, r))
}

/// One level up the tree: neighbours are hashed in pairs, and a last element
/// without a partner is paired with itself.
pub open spec fn merkle_next(l: Seq<crate::hash::Hash>) -> Seq<crate::hash::Hash> {
    Seq::new(
        ((l.len() + 1) / 2) as nat,
        |i: int|
            pair_hash(
                l[2 * i],
                if 2 * i + 1 < l.len() {
                    l[2 * i + 1]
                } else {
                    l[2 * i]
                },
            ),
    )
}

/// The root that a layer reduces to: the single element of a one-element
/// layer, the zero hash for an empty one.
pub open spec fn merkle_reduce(l: Seq<crate::hash::Hash>) -> crate::hash::Hash
    decreases l.len(),
{
    if l.len() == 0 {
        zero_hash()
    } else if l.len() == 1 {
        l[0]
    } else {
        merkle_reduce(merkle_next(l))
    }
}

pub open spec fn leaf_hashes(txs: Seq<TransactionView>) -> Seq<crate::hash::Hash> {
    txs.map_values(|t: TransactionView| transaction_hash(t))
}

/// The Merkle root of a transaction list.
pub open spec fn merkle_root_of(txs: Seq<TransactionView>) -> MerkleRoot {
    MerkleRoot(merkle_reduce(leaf_hashes(txs)))
}

fn pair(l: &crate::hash::Hash, r: &crate::hash::Hash) -> (h: crate::hash::Hash)
    ensures
        h == pair_hash(*l, *r),
{
    let mut out: Vec<u8> = Vec::new();
    push_array_head(&mut out, 2);
    push_u256(&mut out, &l.0);
    push_u256(&mut out, &r.0);
    assert(out@ =~= pair_encoding(*l, *r));
    crate::hash::Hash::hash(&out)
}

fn next_layer(layer: &Vec<crate::hash::Hash>) -> (r: Vec<crate::hash::Hash>)
    requires
        layer@.len() >= 2,
    ensures
        r@ == merkle_next(layer@),
{
    let n = layer.len();
    let m = (n - 1) / 2 + 1;
    let mut out: Vec<crate::hash::Hash> = Vec::new();
    let mut k: usize = 0;
    while k < m
        invariant
            n == layer@.len(),
            n >= 2,
            m == (n + 1) / 2,
            k <= m,
            out@ == merkle_next(layer@).take(k as int),
        decreases m - k,
    {
        let left = layer[2 * k];
        let right = if 2 * k + 1 < n {
            layer[2 * k + 1]
        } else {
            left
        };
        let h = pair(&left, &right);
        out.push(h);
        k = k + 1;
        assert(out@ =~= merkle_next(layer@).take(k as int));
    }
    assert(out@ =~= merkle_next(layer@));
    out
}

impl MerkleRoot {
    /// Reduces the transactions' hashes layer by layer to one root; the root
    /// of no transactions is the zero hash.
    pub fn calculate(transactions: &Vec<Transaction>) -> (r: MerkleRoot)
        ensures
            r == merkle_root_of(txs_view(transactions@)),
    {
        let ghost leaves = leaf_hashes(txs_view(transactions@));
        let mut layer: Vec<crate::hash::Hash> = Vec::new();
        let mut i: usize = 0;
        while i < transactions.len()
            invariant
                i <= transactions@.len(),
                leaves == leaf_hashes(txs_view(transactions@)),
                layer@ == leaves.take(i as int),
            decreases transactions@.len() - i,
        {
            let h = transactions[i].hash();
            layer.push(h);
            i = i + 1;
            assert(layer@ =~= leaves.take(i as int));
        }
        assert(layer@ =~= leaves);
        while layer.len() > 1
            invariant
                merkle_reduce(layer@) == merkle_reduce(leaves),
            decreases layer@.len(),
        {
            let next = next_layer(&layer);
            layer = next;
        }
        if layer.len() == 1 {
            MerkleRoot(layer[0])
        } else {
            MerkleRoot(crate::hash::Hash::zero())
        }
    }
}

/// The root of a single transaction is that transaction's own hash, paired
/// with nothing.
pub proof fn lemma_merkle_singleton(t: TransactionView)
    ensures
        merkle_root_of(seq![t]) == MerkleRoot(transaction_hash(t)),
{
    assert(leaf_hashes(seq![t]).len() == 1);
}

/// Repeating the last transaction of a list of odd length, three or more,
/// leaves the root as it was: the last hash is paired with itself either way.
pub proof fn lemma_merkle_duplicate_last(txs: Seq<TransactionView>)
    requires
        txs.len() % 2 == 1,
        txs.len() >= 3,
    ensures
        merkle_root_of(txs.push(txs.last())) == merkle_root_of(txs),
{
    let l = leaf_hashes(txs);
    let l2 = leaf_hashes(txs.push(txs.last()));
    let n = l.len();
    assert(l2 =~= l.push(l[n - 1]));
    let a = merkle_next(l);
    let b = merkle_next(l2);
    assert(a.len() == (n + 1) / 2);
    assert(b.len() == (n + 2) / 2);
    assert(a.len() == b.len());
    assert forall|i: int| 0 <= i < a.len() implies a[i] == b[i] by {
        assert(l2[2 * i] == l[2 * i]);
        if 2 * i + 1 < n {
            assert(l2[2 * i + 1] == l[2 * i + 1]);
        } else {
            assert(2 * i == n - 1);
            assert(l2[2 * i + 1] == l[n - 1]);
        }
    }
    assert(a =~= b);
    assert(merkle_reduce(l) == merkle_reduce(a));
    assert(merkle_reduce(l2) == merkle_reduce(b));
}

} // verus!
