//! The wallet's view of its coins: amounts in coins as text, and balances.
use vstd::prelude::*;
use crate::crypto::{PrivateKey, PublicKey, Signature, be32, be_u256, ecdsa_signature};
use crate::hash::hash_le_bytes;
use crate::SATS_PER_COIN;
use crate::rules::{sum_output_values, sum_outputs};
use crate::types::{Transaction, TransactionInput, TransactionOutput, output_hash};

verus! {

/// The decimal digits of `n`, as ASCII.
pub open spec fn decimal(n: nat) -> Seq<u8>
    decreases n,
{
    if n < 10 {
        seq![(48 + n) as u8]
    } else {
        decimal(n / 10).push((48 + n % 10) as u8)
    }
}

/// The last `k` decimal digits of `n`, zeros in front, as ASCII.
pub open spec fn padded(n: nat, k: nat) -> Seq<u8>
    decreases k,
{
    if k == 0 {
        seq![]
    } else {
        padded(n / 10, (k - 1) as nat).push((48 + n % 10) as u8)
    }
}

/// The text without its trailing ASCII zeros.
pub open spec fn trim_zeros(s: Seq<u8>) -> Seq<u8>
    decreases s.len(),
{
    if s.len() > 0 && s.last() == 48 {
        trim_zeros(s.drop_last())
    } else {
        s
    }
}

/// An amount in satoshis written in coins: the whole coins, then, where
/// there is a remainder, a point and its eight digits without trailing
/// zeros, then " BTC".
pub open spec fn btc_text(sats: nat) -> Seq<u8> {
    let whole = sats / SATS_PER_COIN as nat;
    let frac = sats % SATS_PER_COIN as nat;
    decimal(whole) + (if frac == 0 {
        seq![]
    } else {
        seq![46u8] + trim_zeros(padded(frac, 8))
    }) + seq![32u8, 66u8, 84u8, 67u8]
}

fn push_decimal(out: &mut Vec<u8>, n: u64)
    ensures
        final(out)@ == old(out)@ + decimal(n as nat),
    decreases n,
{
    if n >= 10 {
        push_decimal(out, n / 10);
    }
    out.push((48 + n % 10) as u8);
    assert(out@ =~= old(out)@ + decimal(n as nat));
}

fn push_padded(out: &mut Vec<u8>, n: u64, k: u64)
    ensures
        final(out)@ == old(out)@ + padded(n as nat, k as nat),
    decreases k,
{
    if k > 0 {
        push_padded(out, n / 10, k - 1);
        out.push((48 + n % 10) as u8);
    }
    assert(out@ =~= old(out)@ + padded(n as nat, k as nat));
}

fn trimmed(s: &Vec<u8>) -> (r: Vec<u8>)
    ensures
        r@ == trim_zeros(s@),
{
    let mut end: usize = s.len();
    assert(s@.take(end as int) =~= s@);
    while end > 0 && s[end - 1] == 48
        invariant
            end <= s@.len(),
            trim_zeros(s@.take(end as int)) == trim_zeros(s@),
        decreases end,
    {
        assert(s@.take(end as int).drop_last() =~= s@.take(end - 1));
        end = end - 1;
    }
    let mut r: Vec<u8> = Vec::new();
    let mut i: usize = 0;
    while i < end
        invariant
            i <= end <= s@.len(),
            r@ == s@.take(i as int),
        decreases end - i,
    {
        r.push(s[i]);
        i = i + 1;
        assert(r@ =~= s@.take(i as int));
    }
    r
}

pub open spec fn is_ascii_text(s: Seq<u8>) -> bool {
    forall|i: int| 0 <= i < s.len() ==> (#[trigger] s[i]) < 128
}

pub open spec fn ascii_chars(s: Seq<u8>) -> Seq<char> {
    s.map_values(|b: u8| b as char)
}

/// Relies on `String::from_utf8`, which takes ASCII bytes as they are, one
/// character each.
#[verifier::external_body]
fn ascii_string(bytes: Vec<u8>) -> (r: String)
    requires
        is_ascii_text(bytes@),
    ensures
        r@ == ascii_chars(bytes@),
{
    String::from_utf8(bytes).unwrap_or_default()
}

proof fn lemma_decimal_ascii(n: nat)
    ensures
        is_ascii_text(decimal(n)),
    decreases n,
{
    if n >= 10 {
        lemma_decimal_ascii(n / 10);
    }
}

proof fn lemma_padded_ascii(n: nat, k: nat)
    ensures
        is_ascii_text(padded(n, k)),
    decreases k,
{
    if k > 0 {
        lemma_padded_ascii(n / 10, (k - 1) as nat);
    }
}

proof fn lemma_trim_ascii(s: Seq<u8>)
    requires
        is_ascii_text(s),
    ensures
        is_ascii_text(trim_zeros(s)),
    decreases s.len(),
{
    if s.len() > 0 && s.last() == 48 {
        lemma_trim_ascii(s.drop_last());
    }
}

/// An amount in satoshis as coins, such as `1.5 BTC`.
pub fn sats_to_btc(sats: u64) -> (r: String)
    ensures
        r@ == ascii_chars(btc_text(sats as nat)),
{
    let whole = sats / SATS_PER_COIN;
    let frac = sats % SATS_PER_COIN;
    let mut out: Vec<u8> = Vec::new();
    push_decimal(&mut out, whole);
    let ghost head = out@;
    if frac != 0 {
        out.push(46);
        let mut digits: Vec<u8> = Vec::new();
        push_padded(&mut digits, frac, 8);
        let t = trimmed(&digits);
        let mut i: usize = 0;
        let ghost mid = out@;
        while i < t.len()
            invariant
                i <= t@.len(),
                out@ == mid + t@.take(i as int),
            decreases t@.len() - i,
        {
            out.push(t[i]);
            i = i + 1;
            assert(out@ =~= mid + t@.take(i as int));
        }
        assert(t@.take(i as int) =~= t@);
    }
    out.push(32);
    out.push(66);
    out.push(84);
    out.push(67);
    assert(out@ =~= btc_text(sats as nat));
    proof {
        lemma_decimal_ascii(whole as nat);
        lemma_padded_ascii(frac as nat, 8);
        lemma_trim_ascii(padded(frac as nat, 8));
        assert forall|i: int| 0 <= i < out@.len() implies (#[trigger] out@[i]) < 128 by {
            let d = decimal(whole as nat);
            if i < d.len() {
                assert(out@[i] == d[i]);
            }
        }
    }
    ascii_string(out)
}

/// What `text_to_ascii_art::to_art` draws of a text in the standard font,
/// 80 columns of leading space, gaps of 8 and 1 trailing; `None` where the
/// text holds a character that the font lacks.
pub uninterp spec fn ascii_art_of(text: Seq<char>) -> Option<Seq<char>>;

/// Relies on `text_to_ascii_art::to_art` with the standard font.
#[verifier::external_body]
fn draw(text: String) -> (r: Option<String>)
    ensures
        match r {
            Some(a) => ascii_art_of(text@) == Some(a@),
            None => ascii_art_of(text@) is None,
        },
{
    text_to_ascii_art::to_art(text, "standard", 80, 8, 1).ok()
}

/// A balance in coins, drawn large.
pub fn big_mode_btc(sats: u64) -> (r: Option<String>)
    ensures
        match ascii_art_of(ascii_chars(btc_text(sats as nat))) {
            Some(a) => r is Some && r.unwrap()@ == a,
            None => r is None,
        },
{
    draw(sats_to_btc(sats))
}

pub open spec fn total_value(s: Seq<(TransactionOutput, bool)>) -> int
    decreases s.len(),
{
    if s.len() == 0 {
        0
    } else {
        total_value(s.drop_last()) + s.last().0.value
    }
}

/// The balance of a wallet: the value of all its outputs, reserved or not.
pub fn balance(utxos: &Vec<(TransactionOutput, bool)>) -> (r: u128)
    ensures
        r == total_value(utxos@),
{
    let mut acc: u128 = 0;
    let mut i: usize = 0;
    while i < utxos.len()
        invariant
            i <= utxos@.len(),
            acc == total_value(utxos@.take(i as int)),
            acc <= i * 0xFFFF_FFFF_FFFF_FFFF,
        decreases utxos@.len() - i,
    {
        proof {
            assert(utxos@.take(i + 1).drop_last() =~= utxos@.take(i as int));
            assert((i + 1) * 0xFFFF_FFFF_FFFF_FFFF <= 0x1_0000_0000_0000_0000 * 0xFFFF_FFFF_FFFF_FFFFint) by (nonlinear_arith)
                requires i + 1 <= 0x1_0000_0000_0000_0000int;
        }
        acc = acc + utxos[i].0.value as u128;
        i = i + 1;
    }
    assert(utxos@.take(i as int) =~= utxos@);
    acc
}

/// How the wallet prices a transaction.
#[derive(Clone, Copy, Debug, PartialEq, Eq, Structural)]
pub enum FeeType {
    /// A fixed fee, in satoshis.
    Fixed,
    /// A share of the amount sent, in hundredths of a percent.
    Percent,
}

#[derive(Clone, Copy, Debug, PartialEq, Eq, Structural)]
pub struct FeeConfig {
    pub fee_type: FeeType,
    pub value: u64,
}

pub open spec fn fee_of(config: FeeConfig, amount: nat) -> nat {
    match config.fee_type {
        FeeType::Fixed => config.value as nat,
        FeeType::Percent => {
            let f = (amount * config.value / 10_000) as nat;
            if f > 0xFFFF_FFFF_FFFF_FFFF {
                0xFFFF_FFFF_FFFF_FFFF
            } else {
                f
            }
        },
    }
}

/// The fee of sending `amount`, kept within `u64`.
pub fn calculate_fee(config: &FeeConfig, amount: u64) -> (r: u64)
    ensures
        r == fee_of(*config, amount as nat),
{
    match config.fee_type {
        FeeType::Fixed => config.value,
        FeeType::Percent => {
            proof {
                let a = amount as int;
                let v = config.value as int;
                assert(a * v <= 0xFFFF_FFFF_FFFF_FFFF * 0xFFFF_FFFF_FFFF_FFFFint) by (nonlinear_arith)
                    requires
                        0 <= a <= 0xFFFF_FFFF_FFFF_FFFFint,
                        0 <= v <= 0xFFFF_FFFF_FFFF_FFFFint,
                ;
            }
            let p = amount as u128 * config.value as u128;
            let f = p / 10_000;
            if f > u64::MAX as u128 {
                u64::MAX
            } else {
                f as u64
            }
        },
    }
}

#[derive(Clone, Copy, Debug, PartialEq, Eq, Structural)]
pub enum WalletError {
    /// The unreserved outputs do not cover the amount and the fee.
    InsufficientFunds,
    /// The private key cannot sign.
    InvalidKey,
}

/// The outputs that no mempool transaction has reserved, in order.
pub open spec fn spendable(s: Seq<(TransactionOutput, bool)>) -> Seq<TransactionOutput>
    decreases s.len(),
{
    if s.len() == 0 {
        seq![]
    } else if s.last().1 {
        spendable(s.drop_last())
    } else {
        spendable(s.drop_last()).push(s.last().0)
    }
}

/// The signature that the key makes of an output hash, where it can sign.
pub open spec fn signed_by(owner: PrivateKey, h: crate::hash::Hash) -> Option<Signature> {
    match ecdsa_signature(be32(owner.scalar), hash_le_bytes(h)) {
        Some(b) => Some(Signature { r: be_u256(b, 0), s: be_u256(b, 32) }),
        None => None,
    }
}

/// The payment, then the change back to the sender where some is left.
pub open spec fn payment_outputs(
    amount: u64,
    payment_id: u128,
    recipient: PublicKey,
    change: int,
    change_id: u128,
    owner_key: PublicKey,
) -> Seq<TransactionOutput> {
    seq![TransactionOutput { value: amount, unique_id: payment_id, public_key: recipient }] + if change
        > 0 {
        seq![TransactionOutput { value: change as u64, unique_id: change_id, public_key: owner_key }]
    } else {
        seq![]
    }
}

/// The shortest run of first outputs whose unreserved ones cover `need`.
pub open spec fn covers_first(s: Seq<(TransactionOutput, bool)>, k: int, need: int) -> bool {
    &&& 0 <= k <= s.len()
    &&& sum_outputs(spendable(s.take(k))) >= need
    &&& forall|j: int| 0 <= j < k ==> sum_outputs(spendable(#[trigger] s.take(j))) < need
}

/// Pays `amount` to `recipient` with `fee` left to the miner: spends the
/// first unreserved outputs that cover both, signs each input with `owner`,
/// and sends what is left back to `owner_key`.
pub fn compose_transaction(
    utxos: &Vec<(TransactionOutput, bool)>,
    owner: &PrivateKey,
    owner_key: PublicKey,
    recipient: PublicKey,
    amount: u64,
    fee: u64,
    payment_id: u128,
    change_id: u128,
) -> (r: Result<Transaction, WalletError>)
    ensures
        r == Err::<Transaction, WalletError>(WalletError::InsufficientFunds) <==> sum_outputs(
            spendable(utxos@),
        ) < amount + fee,
        r == Err::<Transaction, WalletError>(WalletError::InvalidKey) ==> exists|k: int|
            #![trigger spendable(utxos@.take(k))]
            covers_first(utxos@, k, amount + fee) && exists|x: int|
                0 <= x < spendable(utxos@.take(k)).len() && signed_by(
                    *owner,
                    #[trigger] output_hash(spendable(utxos@.take(k))[x]),
                ) is None,
        sum_outputs(spendable(utxos@)) >= amount + fee && (forall|k: int|
            #![trigger spendable(utxos@.take(k))]
            covers_first(utxos@, k, amount + fee) ==> forall|x: int|
                0 <= x < spendable(utxos@.take(k)).len() ==> signed_by(
                    *owner,
                    #[trigger] output_hash(spendable(utxos@.take(k))[x]),
                ) is Some) ==> r is Ok,
        r is Ok ==> exists|k: int|
            #![trigger spendable(utxos@.take(k))]
            {
                let sel = spendable(utxos@.take(k));
                &&& covers_first(utxos@, k, amount + fee)
                &&& r.unwrap()@.inputs.len() == sel.len()
                &&& forall|i: int|
                    0 <= i < sel.len() ==> (#[trigger] r.unwrap()@.inputs[i]).prev_transaction_output_hash
                        == output_hash(sel[i]) && signed_by(*owner, output_hash(sel[i])) == Some(
                        r.unwrap()@.inputs[i].signature,
                    )
                &&& r.unwrap()@.outputs == payment_outputs(
                    amount,
                    payment_id,
                    recipient,
                    sum_outputs(sel) - amount - fee,
                    change_id,
                    owner_key,
                )
            },
{
    let need: u128 = amount as u128 + fee as u128;
    let mut chosen: Vec<TransactionOutput> = Vec::new();
    let mut i: usize = 0;
    let mut total: u128 = 0;
    assert(utxos@.take(0) =~= Seq::<(TransactionOutput, bool)>::empty());
    while i < utxos.len() && total < need
        invariant
            i <= utxos@.len(),
            chosen@ == spendable(utxos@.take(i as int)),
            total == sum_outputs(chosen@),
            total <= i * 0xFFFF_FFFF_FFFF_FFFF,
            total < need + 0x1_0000_0000_0000_0000,
            need == amount + fee,
            forall|j: int| 0 <= j < i ==> sum_outputs(spendable(#[trigger] utxos@.take(j))) < need,
        decreases utxos@.len() - i,
    {
        proof {
            assert(utxos@.take(i + 1).drop_last() =~= utxos@.take(i as int));
            assert((i + 1) * 0xFFFF_FFFF_FFFF_FFFF <= 0x1_0000_0000_0000_0000 * 0xFFFF_FFFF_FFFF_FFFFint) by (nonlinear_arith)
                requires i + 1 <= 0x1_0000_0000_0000_0000int;
        }
        let (out, reserved) = utxos[i];
        if !reserved {
            let ghost before = chosen@;
            chosen.push(out);
            assert(chosen@.drop_last() =~= before);
            total = total + out.value as u128;
        }
        i = i + 1;
    }
    if total < need {
        proof {
            assert(utxos@.take(i as int) =~= utxos@);
        }
        return Err(WalletError::InsufficientFunds);
    }
    proof {
        lemma_spendable_grows(utxos@, i as int);
    }
    let inputs = match sign_inputs(&chosen, owner) {
        None => {
            assert(covers_first(utxos@, i as int, amount + fee));
            return Err(WalletError::InvalidKey);
        },
        Some(v) => v,
    };
    let mut outputs: Vec<TransactionOutput> = Vec::new();
    outputs.push(TransactionOutput { value: amount, unique_id: payment_id, public_key: recipient });
    let change = total - need;
    if change > 0 {
        outputs.push(TransactionOutput { value: change as u64, unique_id: change_id, public_key: owner_key });
    }
    let ghost sel = chosen@;
    assert(outputs@ =~= payment_outputs(amount, payment_id, recipient, sum_outputs(sel) - amount - fee, change_id, owner_key));
    assert(covers_first(utxos@, i as int, amount + fee));
    Ok(Transaction { inputs, outputs })
}

/// Inputs that spend the outputs, each signed by `owner`; `None` where the
/// key cannot sign.
fn sign_inputs(chosen: &Vec<TransactionOutput>, owner: &PrivateKey) -> (r: Option<Vec<TransactionInput>>)
    ensures
        r is Some ==> r.unwrap()@.len() == chosen@.len() && forall|x: int|
            0 <= x < chosen@.len() ==> (#[trigger] r.unwrap()@[x]).prev_transaction_output_hash
                == output_hash(chosen@[x]) && signed_by(*owner, output_hash(chosen@[x])) == Some(
                r.unwrap()@[x].signature,
            ),
        r is None ==> exists|x: int|
            0 <= x < chosen@.len() && signed_by(*owner, #[trigger] output_hash(chosen@[x])) is None,
{
    let mut inputs: Vec<TransactionInput> = Vec::new();
    let mut k: usize = 0;
    while k < chosen.len()
        invariant
            k <= chosen@.len(),
            inputs@.len() == k,
            forall|x: int|
                0 <= x < k ==> (#[trigger] inputs@[x]).prev_transaction_output_hash == output_hash(
                    chosen@[x],
                ) && signed_by(*owner, output_hash(chosen@[x])) == Some(inputs@[x].signature),
        decreases chosen@.len() - k,
    {
        let h = chosen[k].hash();
        match Signature::sign_output(&h, owner) {
            None => {
                assert(signed_by(*owner, output_hash(chosen@[k as int])) is None);
                return None;
            },
            Some(signature) => {
                assert(signed_by(*owner, h) == Some(signature));
                inputs.push(TransactionInput { prev_transaction_output_hash: h, signature });
            },
        }
        k = k + 1;
    }
    Some(inputs)
}

/// Leaving out outputs never lowers what the unreserved ones cover.
proof fn lemma_spendable_grows(s: Seq<(TransactionOutput, bool)>, k: int)
    requires
        0 <= k <= s.len(),
    ensures
        sum_outputs(spendable(s.take(k))) <= sum_outputs(spendable(s)),
    decreases s.len() - k,
{
    if k < s.len() {
        assert(s.drop_last().take(k) =~= s.take(k));
        lemma_spendable_grows(s.drop_last(), k);
        if !s.last().1 {
            assert(spendable(s).drop_last() =~= spendable(s.drop_last()));
        }
    } else {
        assert(s.take(k) =~= s);
    }
}

} // verus!
