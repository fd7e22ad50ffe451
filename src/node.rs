//! The decisions of a node: what it does with each message of a peer, and
//! which peer it downloads the chain from at startup.
use vstd::prelude::*;
use crate::chain::{Blockchain, block_tx_hashes, mark_pool, target_after, unconfirmed};
use crate::error::BtcError;
use crate::mempool::{admission_error, pool_after_admission, utxos_after_admission};
use crate::network::Message;
use crate::rules::{apply_txs, block_error, replay};
use crate::template::{template_of, tip_hash};
use crate::types::Block;
use crate::utxo::owned_by;

verus! {

/// What the connection handler does after a message.
pub enum Action {
    /// Send this message back on the connection.
    Reply(Message),
    /// Send this message to every known peer.
    Broadcast(Message),
    /// Connect to this address, register it as a peer, and reply with the
    /// list of peers.
    ConnectBack(String),
    /// Close the connection.
    Close,
    /// Read the next message.
    Continue,
}

impl Blockchain {
    /// `new` is the state that a mined block leaves: unchanged where `b`
    /// breaks a rule; else as appending it leaves, with the unspent outputs
    /// rebuilt from the chain and the mempool's reservations.
    pub open spec fn template_submitted(&self, new: &Blockchain, b: crate::types::BlockView) -> bool {
        match block_error(self.chain(), self.utxos@, b) {
            Some(_) => new.same_state(self),
            None => {
                &&& new.chain() == self.chain().push(b)
                &&& new.utxos@ == mark_pool(replay(new.chain()), new.pool())
                &&& new.pool() == unconfirmed(self.pool(), block_tx_hashes(b))
                &&& new.target.value() == target_after(new.chain(), self.target)
            },
        }
    }
}

/// The local height less the asked one, kept within `i32`.
pub open spec fn height_difference(local: int, asked: int) -> i32 {
    let d = local - asked;
    if d > i32::MAX {
        i32::MAX
    } else if d < i32::MIN {
        i32::MIN
    } else {
        d as i32
    }
}

fn difference(local: usize, asked: u32) -> (r: i32)
    ensures
        r == height_difference(local as int, asked as int),
{
    if local > asked as usize {
        let d = local - asked as usize;
        if d > i32::MAX as usize {
            i32::MAX
        } else {
            d as i32
        }
    } else {
        let d = asked as usize - local;
        if d > 0x8000_0000usize {
            i32::MIN
        } else if d == 0x8000_0000usize {
            i32::MIN
        } else {
            -(d as i32)
        }
    }
}

/// Handles one message of a peer at time `now`; `unique_id` is the id that
/// a template's coinbase gets.
pub fn handle_message(chain: &mut Blockchain, message: Message, now: u64, unique_id: u128) -> (r:
    Action)
    requires
        old(chain).wf(),
    ensures
        final(chain).wf(),
        match message {
            Message::AskDifference(h) => *final(chain) == *old(chain) && r == Action::Reply(
                Message::Difference(height_difference(old(chain).chain().len() as int, h as int)),
            ),
            Message::FetchBlock(h) => *final(chain) == *old(chain) && if h < old(
                chain,
            ).chain().len() {
                match r {
                    Action::Reply(Message::NewBlock(b)) => b@ == old(chain).chain()[h as int],
                    _ => false,
                }
            } else {
                r is Close
            },
            Message::FetchUTXOs(k) => *final(chain) == *old(chain) && match r {
                Action::Reply(Message::UTXOs(v)) => v@ == owned_by(
                    old(chain).utxos.entries_view(),
                    k,
                ),
                _ => false,
            },
            Message::FetchTemplate(k) => *final(chain) == *old(chain) && match template_of(
                old(chain).chain(),
                old(chain).utxos@,
                old(chain).pool(),
                old(chain).target,
                k,
                unique_id,
                now,
            ) {
                Some(t) => match r {
                    Action::Reply(Message::Template(b)) => b@ == t,
                    _ => false,
                },
                None => r is Close,
            },
            Message::ValidateTemplate(b) => *final(chain) == *old(chain) && r == Action::Reply(
                Message::TemplateValidity(b.header.prev_block_hash == tip_hash(old(chain).chain())),
            ),
            Message::SubmitTemplate(b, _) => old(chain).template_submitted(&*final(chain), b@)
                && match block_error(old(chain).chain(), old(chain).utxos@, b@) {
                Some(_) => r is Close,
                None => match r {
                    Action::Broadcast(Message::NewBlock(c)) => c@ == b@,
                    _ => false,
                },
            },
            Message::NewBlock(b) => r is Continue && old(chain).block_added(&*final(chain), b@),
            Message::SubmitTransaction(t) => old(chain).tx_admitted(&*final(chain), t@, now)
                && match admission_error(old(chain).utxos@, old(chain).pool(), t@) {
                Some(_) => r is Close,
                None => match r {
                    Action::Broadcast(Message::NewTransaction(u)) => u@ == t@,
                    _ => false,
                },
            },
            Message::NewTransaction(t) => old(chain).tx_admitted(&*final(chain), t@, now)
                && match admission_error(old(chain).utxos@, old(chain).pool(), t@) {
                Some(_) => r is Close,
                None => match r {
                    Action::Broadcast(Message::NewTransaction(u)) => u@ == t@,
                    _ => false,
                },
            },
            Message::DiscoverNodes(dialer, _) => *final(chain) == *old(chain) && r
                == Action::ConnectBack(dialer),
            Message::UTXOs(_) => *final(chain) == *old(chain) && r is Close,
            Message::Template(_) => *final(chain) == *old(chain) && r is Close,
            Message::Difference(_) => *final(chain) == *old(chain) && r is Close,
            Message::TemplateValidity(_) => *final(chain) == *old(chain) && r is Close,
            Message::NodeList(_) => *final(chain) == *old(chain) && r is Close,
        },
{
    match message {
        Message::AskDifference(h) => {
            Action::Reply(Message::Difference(difference(chain.blocks.len(), h)))
        },
        Message::FetchBlock(h) => {
            if h < chain.blocks.len() {
                let b = chain.blocks[h].copy();
                Action::Reply(Message::NewBlock(b))
            } else {
                Action::Close
            }
        },
        Message::FetchUTXOs(k) => Action::Reply(Message::UTXOs(chain.utxos.owned_by(&k))),
        Message::FetchTemplate(k) => match chain.build_template(k, unique_id, now) {
            Ok(b) => Action::Reply(Message::Template(b)),
            Err(_) => Action::Close,
        },
        Message::ValidateTemplate(b) => Action::Reply(
            Message::TemplateValidity(chain.template_is_current(&b)),
        ),
        Message::SubmitTemplate(b, _) => {
            let copy = b.copy();
            match chain.add_block(b) {
                Err(_) => Action::Close,
                Ok(()) => {
                    chain.rebuild_utxos();
                    Action::Broadcast(Message::NewBlock(copy))
                },
            }
        },
        Message::NewBlock(b) => {
            let _ = chain.add_block(b);
            Action::Continue
        },
        Message::SubmitTransaction(t) => accept_transaction(chain, t, now),
        Message::NewTransaction(t) => accept_transaction(chain, t, now),
        Message::DiscoverNodes(dialer, _) => Action::ConnectBack(dialer),
        Message::UTXOs(_) => Action::Close,
        Message::Template(_) => Action::Close,
        Message::Difference(_) => Action::Close,
        Message::TemplateValidity(_) => Action::Close,
        Message::NodeList(_) => Action::Close,
    }
}

fn accept_transaction(chain: &mut Blockchain, t: crate::types::Transaction, now: u64) -> (r: Action)
    requires
        old(chain).wf(),
    ensures
        final(chain).wf(),
        old(chain).tx_admitted(&*final(chain), t@, now),
        match admission_error(old(chain).utxos@, old(chain).pool(), t@) {
            Some(_) => r is Close,
            None => match r {
                Action::Broadcast(Message::NewTransaction(u)) => u@ == t@,
                _ => false,
            },
        },
{
    let copy = t.copy();
    let result = chain.add_to_mempool(t, now);
    match result {
        Err(_) => Action::Close,
        Ok(()) => Action::Broadcast(Message::NewTransaction(copy)),
    }
}

/// The peer with the longest chain: the first of those that report the
/// largest positive difference, with that difference.
pub fn longest_chain_peer(differences: &Vec<i32>) -> (r: Option<(usize, u32)>)
    ensures
        match r {
            None => forall|i: int| 0 <= i < differences@.len() ==> differences@[i] <= 0,
            Some((i, c)) => {
                &&& i < differences@.len()
                &&& differences@[i as int] as int == c as int
                &&& c > 0
                &&& forall|j: int| 0 <= j < differences@.len() ==> differences@[j] <= c
                &&& forall|j: int| 0 <= j < i ==> differences@[j] < c
            },
        },
{
    let mut best: i32 = 0;
    let mut index: usize = 0;
    let mut k: usize = 0;
    while k < differences.len()
        invariant
            k <= differences@.len(),
            best >= 0,
            forall|j: int| 0 <= j < k ==> differences@[j] <= best,
            best > 0 ==> index < k && differences@[index as int] == best && forall|j: int|
                0 <= j < index ==> differences@[j] < best,
        decreases differences@.len() - k,
    {
        if differences[k] > best {
            best = differences[k];
            index = k;
        }
        k = k + 1;
    }
    if best > 0 {
        Some((index, best as u32))
    } else {
        None
    }
}

} // verus!
