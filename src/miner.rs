//! The miner: the nonce search, and the controller's decisions between
//! template requests, validity checks and submissions.
use vstd::prelude::*;
use crate::crypto::PublicKey;
use crate::network::Message;
use crate::types::{Block, BlockHeader, header_hash};

verus! {

/// The nonce after `k` steps from `n`, wrapping around.
pub open spec fn nonce_after(n: u64, k: int) -> int {
    (n + k) % 0x1_0000_0000_0000_0000
}

impl BlockHeader {
    /// Tries up to `steps` nonces: each step advances the nonce, stamps the
    /// current time, and stops once the hash meets the target.
    pub fn mine(&mut self, steps: usize) -> (r: bool)
        ensures
            final(self).prev_block_hash == old(self).prev_block_hash,
            final(self).merkle_root == old(self).merkle_root,
            final(self).target == old(self).target,
            r ==> header_hash(*final(self)).0.value() <= final(self).target.value(),
            r ==> exists|k: int|
                1 <= k <= steps && final(self).nonce == #[trigger] nonce_after(old(self).nonce, k),
            !r ==> final(self).nonce == (old(self).nonce + steps) % 0x1_0000_0000_0000_0000,
            !r && steps > 0 ==> header_hash(*final(self)).0.value() > final(self).target.value(),
            steps == 0 ==> !r,
    {
        let mut i: usize = 0;
        while i < steps
            invariant
                i <= steps,
                self.prev_block_hash == old(self).prev_block_hash,
                self.merkle_root == old(self).merkle_root,
                self.target == old(self).target,
                self.nonce == (old(self).nonce + i) % 0x1_0000_0000_0000_0000,
                i > 0 ==> header_hash(*self).0.value() > self.target.value(),
            decreases steps - i,
        {
            self.nonce = if self.nonce == u64::MAX {
                0
            } else {
                self.nonce + 1
            };
            self.timestamp = crate::clock::now();
            if self.hash().matches_target(&self.target) {
                assert(self.nonce == nonce_after(old(self).nonce, i + 1));
                return true;
            }
            i = i + 1;
        }
        false
    }
}

/// The reply the controller waits for.
#[derive(Clone, Copy, Debug, PartialEq, Eq, Structural)]
pub enum Pending {
    Template,
    Validity,
}

/// What the controller does with a reply.
pub enum MinerUpdate {
    /// Mine this template.
    Install(Block),
    /// The template is stale: stop, and fetch another at the next tick.
    StopMining,
    /// The template is still good.
    KeepMining,
    /// The node answered out of turn: the miner stops with an error.
    Fail,
}

/// The request of a timer tick: a template when not mining, else a check of
/// the current template, if there is one.
pub fn tick_request(mining: bool, template: &Option<Block>, public_key: PublicKey) -> (r: Option<
    (Message, Pending),
>)
    ensures
        !mining ==> r == Some((Message::FetchTemplate(public_key), Pending::Template)),
        mining && template is None ==> r is None,
        mining && template is Some ==> match r {
            Some((Message::ValidateTemplate(b), Pending::Validity)) => b@ == template.unwrap()@,
            _ => false,
        },
{
    if !mining {
        Some((Message::FetchTemplate(public_key), Pending::Template))
    } else {
        match template {
            None => None,
            Some(b) => Some((Message::ValidateTemplate(b.copy()), Pending::Validity)),
        }
    }
}

/// What a reply to a pending request means for the miner.
pub fn on_reply(pending: Pending, reply: Message) -> (r: MinerUpdate)
    ensures
        match (pending, reply) {
            (Pending::Template, Message::Template(b)) => r == MinerUpdate::Install(b),
            (Pending::Validity, Message::TemplateValidity(true)) => r is KeepMining,
            (Pending::Validity, Message::TemplateValidity(false)) => r is StopMining,
            _ => r is Fail,
        },
{
    match (pending, reply) {
        (Pending::Template, Message::Template(b)) => MinerUpdate::Install(b),
        (Pending::Validity, Message::TemplateValidity(valid)) => {
            if valid {
                MinerUpdate::KeepMining
            } else {
                MinerUpdate::StopMining
            }
        },
        _ => MinerUpdate::Fail,
    }
}

} // verus!
