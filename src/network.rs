//! The messages of the protocol, and their framing on a byte stream: each
//! encoded message goes out behind its length as eight big-endian bytes.
use vstd::prelude::*;
use crate::crypto::{PublicKey, be_word};
use crate::hash::be8;
use crate::types::{Block, Transaction, TransactionOutput};

verus! {

pub enum Message {
    /// Asks how many blocks the peer has beyond the given height.
    AskDifference(u32),
    /// Reply to `AskDifference`: the peer's height less the asked one.
    Difference(i32),
    /// Asks a node to connect back to the first address and list its peers.
    DiscoverNodes(String, String),
    /// Asks for the block at a height.
    FetchBlock(usize),
    /// Asks for a block template whose coinbase pays the key.
    FetchTemplate(PublicKey),
    /// Asks for the unspent outputs that a key owns.
    FetchUTXOs(PublicKey),
    /// A block, broadcast or sent on request.
    NewBlock(Block),
    /// A transaction, broadcast to peers.
    NewTransaction(Transaction),
    /// Reply to `DiscoverNodes`: the addresses of the known peers.
    NodeList(Vec<String>),
    /// A mined block, with the key of the miner.
    SubmitTemplate(Block, PublicKey),
    /// A transaction from a wallet.
    SubmitTransaction(Transaction),
    /// Reply to `FetchTemplate`.
    Template(Block),
    /// Reply to `ValidateTemplate`: whether the template still extends the chain.
    TemplateValidity(bool),
    /// Reply to `FetchUTXOs`: outputs with their reservation flags.
    UTXOs(Vec<(TransactionOutput, bool)>),
    /// Asks whether a template still extends the chain.
    ValidateTemplate(Block),
}

/// A payload behind its length.
pub open spec fn frame(payload: Seq<u8>) -> Seq<u8> {
    be8(payload.len() as u64) + payload
}

/// The first frame of a byte string and the bytes after it, if a whole frame
/// is there.
pub open spec fn read_frame(bytes: Seq<u8>) -> Option<(Seq<u8>, Seq<u8>)> {
    if bytes.len() < 8 {
        None
    } else {
        let n = be_word(bytes.take(8)) as int;
        if bytes.len() - 8 < n {
            None
        } else {
            Some((bytes.subrange(8, 8 + n), bytes.skip(8 + n)))
        }
    }
}

/// Frames one payload after another.
pub open spec fn frames(ps: Seq<Seq<u8>>) -> Seq<u8>
    decreases ps.len(),
{
    if ps.len() == 0 {
        seq![]
    } else {
        frame(ps[0]) + frames(ps.drop_first())
    }
}

/// Reads frames until the bytes run out or a frame is cut short.
pub open spec fn read_frames(bytes: Seq<u8>) -> Seq<Seq<u8>>
    decreases bytes.len(),
{
    match read_frame(bytes) {
        Some((p, rest)) => if rest.len() < bytes.len() {
            seq![p] + read_frames(rest)
        } else {
            seq![]
        },
        None => seq![],
    }
}

proof fn lemma_be_word_be8(x: u64)
    ensures
        be_word(be8(x)) == x,
{
    let s = be8(x);
    assert(be_word(s) == ((((x >> 56u64) as u8) as u64) << 56u64) | ((((x >> 48u64) as u8) as u64)
        << 48u64) | ((((x >> 40u64) as u8) as u64) << 40u64) | ((((x >> 32u64) as u8) as u64)
        << 32u64) | ((((x >> 24u64) as u8) as u64) << 24u64) | ((((x >> 16u64) as u8) as u64)
        << 16u64) | ((((x >> 8u64) as u8) as u64) << 8u64) | ((x as u8) as u64));
    assert(((((x >> 56u64) as u8) as u64) << 56u64) | ((((x >> 48u64) as u8) as u64) << 48u64) | ((((
    x >> 40u64) as u8) as u64) << 40u64) | ((((x >> 32u64) as u8) as u64) << 32u64) | ((((x
        >> 24u64) as u8) as u64) << 24u64) | ((((x >> 16u64) as u8) as u64) << 16u64) | ((((x
        >> 8u64) as u8) as u64) << 8u64) | ((x as u8) as u64) == x) by (bit_vector);
}

/// Reading the first frame of a framed payload gives the payload back, and
/// what followed the frame.
pub proof fn lemma_read_frame(payload: Seq<u8>, rest: Seq<u8>)
    requires
        payload.len() <= u64::MAX,
    ensures
        read_frame(frame(payload) + rest) == Some((payload, rest)),
{
    let b = frame(payload) + rest;
    lemma_be_word_be8(payload.len() as u64);
    assert(b.take(8) =~= be8(payload.len() as u64));
    assert(b.subrange(8, 8 + payload.len() as int) =~= payload);
    assert(b.skip(8 + payload.len() as int) =~= rest);
}

/// Framing payloads one after another and reading the frames back gives the
/// same payloads, in order.
pub proof fn lemma_frames_round_trip(ps: Seq<Seq<u8>>)
    requires
        forall|i: int| 0 <= i < ps.len() ==> (#[trigger] ps[i]).len() <= u64::MAX,
    ensures
        read_frames(frames(ps)) == ps,
    decreases ps.len(),
{
    if ps.len() > 0 {
        let rest = frames(ps.drop_first());
        assert forall|i: int| 0 <= i < ps.drop_first().len() implies (
        #[trigger] ps.drop_first()[i]).len() <= u64::MAX by {
            assert(ps.drop_first()[i] == ps[i + 1]);
        }
        lemma_frames_round_trip(ps.drop_first());
        lemma_read_frame(ps[0], rest);
        let b = frames(ps);
        assert(b == frame(ps[0]) + rest);
        assert(read_frame(b) == Some((ps[0], rest)));
        assert(rest.len() < b.len());
        assert(read_frames(b) == seq![ps[0]] + read_frames(rest));
        assert(seq![ps[0]] + ps.drop_first() =~= ps);
    }
}

/// The frame of an encoded message.
pub fn encode_frame(payload: &Vec<u8>) -> (r: Vec<u8>)
    ensures
        r@ == frame(payload@),
{
    let mut out: Vec<u8> = Vec::new();
    crate::hash::push_be8(&mut out, payload.len() as u64);
    let ghost head = out@;
    let mut i: usize = 0;
    while i < payload.len()
        invariant
            i <= payload@.len(),
            out@ == head + payload@.take(i as int),
        decreases payload@.len() - i,
    {
        out.push(payload[i]);
        i = i + 1;
        assert(out@ =~= head + payload@.take(i as int));
    }
    assert(payload@.take(i as int) =~= payload@);
    out
}

/// The length that a frame's first eight bytes announce.
pub fn frame_length(head: &Vec<u8>) -> (r: u64)
    requires
        head@.len() >= 8,
    ensures
        r == be_word(head@.take(8)),
{
    let r = crate::crypto::read_be_word(head, 0);
    assert(head@.subrange(0, 8) =~= head@.take(8));
    r
}

/// Splits the first whole frame off a byte string: its payload, and how many
/// bytes it took.
pub fn decode_frame(bytes: &Vec<u8>) -> (r: Option<(Vec<u8>, usize)>)
    ensures
        match read_frame(bytes@) {
            Some((p, rest)) => r is Some && r.unwrap().0@ == p && r.unwrap().1 == bytes@.len()
                - rest.len(),
            None => r is None,
        },
{
    if bytes.len() < 8 {
        return None;
    }
    let n = frame_length(bytes);
    if ((bytes.len() - 8) as u64) < n {
        return None;
    }
    let n = n as usize;
    let len = bytes.len();
    let mut payload: Vec<u8> = Vec::new();
    let mut i: usize = 0;
    while i < n
        invariant
            len == bytes@.len(),
            i <= n,
            8 + n <= bytes@.len(),
            payload@ == bytes@.subrange(8, 8 + i),
        decreases n - i,
    {
        payload.push(bytes[8 + i]);
        i = i + 1;
        assert(payload@ =~= bytes@.subrange(8, 8 + i));
    }
    Some((payload, 8 + n))
}

} // verus!
