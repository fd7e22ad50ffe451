//! Transactions, block headers and blocks, with their canonical encodings and
//! content hashes.
use vstd::prelude::*;
use crate::crypto::{PublicKey, Signature};
use crate::hash::{
    cbor_array_head, cbor_u256, cbor_uint, digest_hash, push_array_head, push_u256, push_uint,
};
use crate::u256::Uint256;

verus! {

/// An input: the hash of the output it spends, and the signature of that hash
/// under the output's public key.
#[derive(Clone, Copy, Debug, PartialEq, Eq, Structural)]
pub struct TransactionInput {
    pub prev_transaction_output_hash: crate::hash::Hash,
    pub signature: Signature,
}

/// An output: an amount in satoshis, a unique id (a v4 UUID as a number) that
/// keeps equal outputs apart, and the key that may spend it.
#[derive(Clone, Copy, Debug, PartialEq, Eq, Structural)]
pub struct TransactionOutput {
    pub value: u64,
    pub unique_id: u128,
    pub public_key: PublicKey,
}

pub struct Transaction {
    pub inputs: Vec<TransactionInput>,
    pub outputs: Vec<TransactionOutput>,
}

pub struct TransactionView {
    pub inputs: Seq<TransactionInput>,
    pub outputs: Seq<TransactionOutput>,
}

impl View for Transaction {
    type V = TransactionView;

    open spec fn view(&self) -> TransactionView {
        TransactionView { inputs: self.inputs@, outputs: self.outputs@ }
    }
}

/// The Merkle root of a block's transactions.
#[derive(Clone, Copy, Debug, PartialEq, Eq, Structural)]
pub struct MerkleRoot(pub crate::hash::Hash);

#[derive(Clone, Copy, Debug, PartialEq, Eq, Structural)]
pub struct BlockHeader {
    /// Creation time, in seconds since the Unix epoch.
    pub timestamp: u64,
    /// Number used once, incremented while mining.
    pub nonce: u64,
    /// Hash of the previous block's header; zero for the first block.
    pub prev_block_hash: crate::hash::Hash,
    pub merkle_root: MerkleRoot,
    /// The header's hash must not exceed this number.
    pub target: Uint256,
}

pub struct Block {
    pub header: BlockHeader,
    pub transactions: Vec<Transaction>,
}

pub struct BlockView {
    pub header: BlockHeader,
    pub transactions: Seq<TransactionView>,
}

pub open spec fn txs_view(s: Seq<Transaction>) -> Seq<TransactionView> {
    s.map_values(|t: Transaction| t@)
}

impl View for Block {
    type V = BlockView;

    open spec fn view(&self) -> BlockView {
        BlockView { header: self.header, transactions: txs_view(self.transactions@) }
    }
}

pub open spec fn encode_public_key(k: PublicKey) -> Seq<u8> {
    cbor_array_head(2) + cbor_uint(k.prefix as u64) + cbor_u256(k.x)
}

pub open spec fn encode_signature(s: Signature) -> Seq<u8> {
    cbor_array_head(2) + cbor_u256(s.r) + cbor_u256(s.s)
}

pub open spec fn encode_output(o: TransactionOutput) -> Seq<u8> {
    cbor_array_head(3) + cbor_uint(o.value) + cbor_array_head(2) + cbor_uint(
        (o.unique_id >> 64u128) as u64,
    ) + cbor_uint(o.unique_id as u64) + encode_public_key(o.public_key)
}

pub open spec fn encode_input(i: TransactionInput) -> Seq<u8> {
    cbor_array_head(2) + cbor_u256(i.prev_transaction_output_hash.0) + encode_signature(
        i.signature,
    )
}

pub open spec fn encode_inputs(s: Seq<TransactionInput>) -> Seq<u8>
    decreases s.len(),
{
    if s.len() == 0 {
        seq![]
    } else {
        encode_inputs(s.drop_last()) + encode_input(s.last())
    }
}

pub open spec fn encode_outputs(s: Seq<TransactionOutput>) -> Seq<u8>
    decreases s.len(),
{
    if s.len() == 0 {
        seq![]
    } else {
        encode_outputs(s.drop_last()) + encode_output(s.last())
    }
}

pub open spec fn encode_transaction(t: TransactionView) -> Seq<u8> {
    cbor_array_head(2) + cbor_array_head(t.inputs.len() as u64) + encode_inputs(t.inputs)
        + cbor_array_head(t.outputs.len() as u64) + encode_outputs(t.outputs)
}

pub open spec fn encode_header(h: BlockHeader) -> Seq<u8> {
    cbor_array_head(5) + cbor_uint(h.timestamp) + cbor_uint(h.nonce) + cbor_u256(
        h.prev_block_hash.0,
    ) + cbor_u256(h.merkle_root.0.0) + cbor_u256(h.target)
}

pub open spec fn output_hash(o: TransactionOutput) -> crate::hash::Hash {
    digest_hash(encode_output(o))
}

pub open spec fn transaction_hash(t: TransactionView) -> crate::hash::Hash {
    digest_hash(encode_transaction(t))
}

pub open spec fn header_hash(h: BlockHeader) -> crate::hash::Hash {
    digest_hash(encode_header(h))
}

/// A coinbase transaction mints coins: it has no inputs.
pub open spec fn is_coinbase(t: TransactionView) -> bool {
    t.inputs.len() == 0
}

fn push_public_key(out: &mut Vec<u8>, k: &PublicKey)
    ensures
        final(out)@ == old(out)@ + encode_public_key(*k),
{
    push_array_head(out, 2);
    push_uint(out, k.prefix as u64);
    push_u256(out, &k.x);
    assert(out@ =~= old(out)@ + encode_public_key(*k));
}

fn push_output(out: &mut Vec<u8>, o: &TransactionOutput)
    ensures
        final(out)@ == old(out)@ + encode_output(*o),
{
    push_array_head(out, 3);
    push_uint(out, o.value);
    push_array_head(out, 2);
    push_uint(out, (o.unique_id >> 64u128) as u64);
    push_uint(out, o.unique_id as u64);
    push_public_key(out, &o.public_key);
    assert(out@ =~= old(out)@ + encode_output(*o));
}

fn push_input(out: &mut Vec<u8>, i: &TransactionInput)
    ensures
        final(out)@ == old(out)@ + encode_input(*i),
{
    push_array_head(out, 2);
    push_u256(out, &i.prev_transaction_output_hash.0);
    push_array_head(out, 2);
    push_u256(out, &i.signature.r);
    push_u256(out, &i.signature.s);
    assert(out@ =~= old(out)@ + encode_input(*i));
}

impl TransactionOutput {
    pub fn encode(&self) -> (r: Vec<u8>)
        ensures
            r@ == encode_output(*self),
    {
        let mut out: Vec<u8> = Vec::new();
        push_output(&mut out, self);
        assert(out@ =~= encode_output(*self));
        out
    }

    pub fn hash(&self) -> (r: crate::hash::Hash)
        ensures
            r == output_hash(*self),
    {
        crate::hash::Hash::hash(&self.encode())
    }
}

impl Transaction {
    pub fn new(inputs: Vec<TransactionInput>, outputs: Vec<TransactionOutput>) -> (r: Self)
        ensures
            r@ == (TransactionView { inputs: inputs@, outputs: outputs@ }),
    {
        Transaction { inputs, outputs }
    }

    /// An equal transaction.
    pub fn copy(&self) -> (r: Self)
        ensures
            r@ == self@,
    {
        let mut inputs: Vec<TransactionInput> = Vec::new();
        let mut i: usize = 0;
        while i < self.inputs.len()
            invariant
                i <= self.inputs@.len(),
                inputs@ == self.inputs@.take(i as int),
            decreases self.inputs@.len() - i,
        {
            inputs.push(self.inputs[i]);
            i = i + 1;
            assert(inputs@ =~= self.inputs@.take(i as int));
        }
        let mut outputs: Vec<TransactionOutput> = Vec::new();
        let mut j: usize = 0;
        while j < self.outputs.len()
            invariant
                j <= self.outputs@.len(),
                outputs@ == self.outputs@.take(j as int),
            decreases self.outputs@.len() - j,
        {
            outputs.push(self.outputs[j]);
            j = j + 1;
            assert(outputs@ =~= self.outputs@.take(j as int));
        }
        assert(inputs@ =~= self.inputs@);
        assert(outputs@ =~= self.outputs@);
        Transaction { inputs, outputs }
    }

    pub fn encode(&self) -> (r: Vec<u8>)
        ensures
            r@ == encode_transaction(self@),
    {
        let mut out: Vec<u8> = Vec::new();
        push_array_head(&mut out, 2);
        push_array_head(&mut out, self.inputs.len() as u64);
        let ghost start = out@;
        let mut i: usize = 0;
        while i < self.inputs.len()
            invariant
                i <= self.inputs@.len(),
                out@ == start + encode_inputs(self.inputs@.take(i as int)),
            decreases self.inputs@.len() - i,
        {
            push_input(&mut out, &self.inputs[i]);
            proof {
                assert(self.inputs@.take(i + 1).drop_last() =~= self.inputs@.take(i as int));
            }
            i = i + 1;
        }
        assert(self.inputs@.take(i as int) =~= self.inputs@);
        push_array_head(&mut out, self.outputs.len() as u64);
        let ghost mid = out@;
        let mut j: usize = 0;
        while j < self.outputs.len()
            invariant
                j <= self.outputs@.len(),
                out@ == mid + encode_outputs(self.outputs@.take(j as int)),
            decreases self.outputs@.len() - j,
        {
            push_output(&mut out, &self.outputs[j]);
            proof {
                assert(self.outputs@.take(j + 1).drop_last() =~= self.outputs@.take(j as int));
            }
            j = j + 1;
        }
        assert(self.outputs@.take(j as int) =~= self.outputs@);
        assert(out@ =~= encode_transaction(self@));
        out
    }

    pub fn hash(&self) -> (r: crate::hash::Hash)
        ensures
            r == transaction_hash(self@),
    {
        crate::hash::Hash::hash(&self.encode())
    }
}

impl BlockHeader {
    pub fn new(
        timestamp: u64,
        nonce: u64,
        prev_block_hash: crate::hash::Hash,
        merkle_root: MerkleRoot,
        target: Uint256,
    ) -> (r: Self)
        ensures
            r == (BlockHeader { timestamp, nonce, prev_block_hash, merkle_root, target }),
    {
        BlockHeader { timestamp, nonce, prev_block_hash, merkle_root, target }
    }

    pub fn encode(&self) -> (r: Vec<u8>)
        ensures
            r@ == encode_header(*self),
    {
        let mut out: Vec<u8> = Vec::new();
        push_array_head(&mut out, 5);
        push_uint(&mut out, self.timestamp);
        push_uint(&mut out, self.nonce);
        push_u256(&mut out, &self.prev_block_hash.0);
        push_u256(&mut out, &self.merkle_root.0.0);
        push_u256(&mut out, &self.target);
        assert(out@ =~= encode_header(*self));
        out
    }

    /// The proof-of-work digest of the header.
    pub fn hash(&self) -> (r: crate::hash::Hash)
        ensures
            r == header_hash(*self),
    {
        crate::hash::Hash::hash(&self.encode())
    }
}

impl Block {
    pub fn new(header: BlockHeader, transactions: Vec<Transaction>) -> (r: Self)
        ensures
            r.header == header,
            r.transactions@ == transactions@,
    {
        Block { header, transactions }
    }

    /// An equal block.
    pub fn copy(&self) -> (r: Self)
        ensures
            r@ == self@,
    {
        let mut txs: Vec<Transaction> = Vec::new();
        let mut i: usize = 0;
        while i < self.transactions.len()
            invariant
                i <= self.transactions@.len(),
                txs@.len() == i,
                forall|k: int| 0 <= k < i ==> (#[trigger] txs@[k])@ == self.transactions@[k]@,
            decreases self.transactions@.len() - i,
        {
            let t = self.transactions[i].copy();
            txs.push(t);
            i = i + 1;
        }
        assert(txs_view(txs@) =~= txs_view(self.transactions@));
        Block { header: self.header, transactions: txs }
    }

    /// A block's hash is its header's.
    pub fn hash(&self) -> (r: crate::hash::Hash)
        ensures
            r == header_hash(self.header),
    {
        self.header.hash()
    }
}

} // verus!
