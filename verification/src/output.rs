//! Unspent transaction outputs.

use vstd::prelude::*;

use crate::crypto::fee_a;
use crate::crypto::fr_times_g;
use crate::crypto::mix64;
use crate::crypto::mix64_exec;
use crate::crypto::pt_add;
use crate::crypto::AccountKey;
use crate::crypto::AccountSecret;
use crate::crypto::Fr;
use crate::crypto::Digest;
use crate::crypto::NetworkKey;
use crate::crypto::Pt;
use crate::crypto::MIX_SEED;

verus! {

/// A payment with a confidential amount.  The commitment hides the amount;
/// the amount and the blinding factor stand for the encrypted payload that
/// only the recipient can open.
#[derive(Clone, Copy, PartialEq, Eq, Structural, Debug)]
pub struct PaymentOutput {
    pub recipient: AccountKey,
    pub commitment: Pt,
    pub amount: i64,
    pub payload_gamma: Fr,
}

/// A payment with a cleartext amount.
#[derive(Clone, Copy, PartialEq, Eq, Structural, Debug)]
pub struct PublicPaymentOutput {
    pub recipient: AccountKey,
    pub amount: i64,
}

/// A stake bound to a validator's network key, owned by an account.
#[derive(Clone, Copy, PartialEq, Eq, Structural, Debug)]
pub struct StakeOutput {
    pub validator: NetworkKey,
    pub recipient: AccountKey,
    pub amount: i64,
}

/// Any unspent transaction output.
#[derive(Clone, Copy, PartialEq, Eq, Structural, Debug)]
pub enum Output {
    PaymentOutput(PaymentOutput),
    PublicPaymentOutput(PublicPaymentOutput),
    StakeOutput(StakeOutput),
}

impl PaymentOutput {
    /// Commit to `amount` with blinding factor `gamma` for `recipient`.
    pub fn new(recipient: AccountKey, amount: i64, gamma: Fr) -> (r: PaymentOutput)
        ensures
            r.recipient == recipient,
            r.amount == amount,
            r.payload_gamma == gamma,
            r.commitment == pt_add(fee_a(amount), fr_times_g(gamma)),
    {
        let commitment = crate::crypto::fee_a_exec(amount).add(gamma.times_g());
        PaymentOutput { recipient, commitment, amount, payload_gamma: gamma }
    }
}

/// The Pedersen commitment an output carries.
pub open spec fn spec_pedersen_commitment(o: Output) -> Pt {
    match o {
        Output::PaymentOutput(p) => p.commitment,
        Output::PublicPaymentOutput(p) => fee_a(p.amount),
        Output::StakeOutput(s) => fee_a(s.amount),
    }
}

/// The account an output pays or stakes to.
pub open spec fn spec_output_recipient(o: Output) -> AccountKey {
    match o {
        Output::PaymentOutput(p) => p.recipient,
        Output::PublicPaymentOutput(p) => p.recipient,
        Output::StakeOutput(s) => s.recipient,
    }
}

/// The digest of an output.
pub open spec fn spec_output_digest(o: Output) -> Digest {
    match o {
        Output::PaymentOutput(p) => Digest {
            value: mix64(
                mix64(
                    mix64(
                        mix64(mix64(MIX_SEED, 1), p.recipient.value),
                        p.commitment.value,
                    ),
                    p.amount as u64,
                ),
                p.payload_gamma.value,
            ),
        },
        Output::PublicPaymentOutput(p) => Digest {
            value: mix64(mix64(mix64(MIX_SEED, 2), p.recipient.value), p.amount as u64),
        },
        Output::StakeOutput(s) => Digest {
            value: mix64(
                mix64(mix64(mix64(MIX_SEED, 3), s.validator.value), s.recipient.value),
                s.amount as u64,
            ),
        },
    }
}

impl Output {
    /// The Pedersen commitment this output carries.
    pub fn pedersen_commitment(&self) -> (r: Pt)
        ensures
            r == spec_pedersen_commitment(*self),
    {
        match self {
            Output::PaymentOutput(p) => p.commitment,
            Output::PublicPaymentOutput(p) => crate::crypto::fee_a_exec(p.amount),
            Output::StakeOutput(s) => crate::crypto::fee_a_exec(s.amount),
        }
    }

    /// The account this output pays or stakes to.
    pub fn recipient(&self) -> (r: AccountKey)
        ensures
            r == spec_output_recipient(*self),
    {
        match self {
            Output::PaymentOutput(p) => p.recipient,
            Output::PublicPaymentOutput(p) => p.recipient,
            Output::StakeOutput(s) => s.recipient,
        }
    }

    /// Whether the holder of `skey`/`pkey` can open this output.
    pub fn is_my_utxo(&self, skey: &AccountSecret, pkey: &AccountKey) -> (r: bool)
        ensures
            r == (spec_output_recipient(*self) == *pkey && skey.value == pkey.value),
    {
        let mine = skey.unlocks(pkey);
        let recipient = self.recipient();
        mine && recipient.value == pkey.value
    }

    /// The digest of this output.
    pub fn digest(&self) -> (r: Digest)
        ensures
            r == spec_output_digest(*self),
    {
        match self {
            Output::PaymentOutput(p) => {
                let a = mix64_exec(MIX_SEED, 1);
                let b = mix64_exec(a, p.recipient.value);
                let c = mix64_exec(b, p.commitment.value);
                let d = mix64_exec(c, p.amount as u64);
                Digest { value: mix64_exec(d, p.payload_gamma.value) }
            },
            Output::PublicPaymentOutput(p) => {
                let a = mix64_exec(MIX_SEED, 2);
                let b = mix64_exec(a, p.recipient.value);
                Digest { value: mix64_exec(b, p.amount as u64) }
            },
            Output::StakeOutput(s) => {
                let a = mix64_exec(MIX_SEED, 3);
                let b = mix64_exec(a, s.validator.value);
                let c = mix64_exec(b, s.recipient.value);
                Digest { value: mix64_exec(c, s.amount as u64) }
            },
        }
    }
}

/// Locator of a live output inside the block log: the position of the block
/// that created it and the position of the output within that block.
#[derive(Clone, Copy, PartialEq, Eq, Structural, Debug)]
pub enum OutputKey {
    MacroBlock { epoch: u64, output_id: u32 },
    MicroBlock { epoch: u64, offset: u32, tx_id: u32, txout_id: u32 },
}

} // verus!
