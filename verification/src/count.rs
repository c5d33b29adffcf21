//! How the length of a literal is coded.
//!
//! A length below sixteen is one nibble. A longer one is written as its excess
//! over sixteen: first the bit length of the excess, in one nibble or two, and
//! then the bits below its top bit, four at a time from the top.

use vstd::prelude::*;
use vstd::std_specs::bits::{axiom_u32_leading_zeros, u32_leading_zeros};
use crate::interface::BillingDesignation;
use crate::literal::LiteralSubstate;
use crate::priors::LiteralNibblePrior;
use crate::probability::{Speed, NIBBLE_VALUES};

verus! {

/// Shorter literals have their length coded in one nibble.
pub const SHORT_LITERAL: u32 = 16;

/// The longest literal whose length can be coded: the bit length of its
/// excess takes two nibbles, of which the second is at most fifteen.
pub const MAX_LITERAL_LEN: u32 = 0x4000_000f;

/// What a nibble of the length leads to.
#[derive(Copy, Clone, Debug, PartialEq, Eq, Structural)]
pub enum CountStep {
    /// More of the length is to come.
    Next(LiteralSubstate),
    /// The length is known.
    Length(u64),
}

/// The number of bits that `n` takes.
pub open spec fn bit_length(n: nat) -> nat
    decreases n,
{
    if n == 0 {
        0
    } else {
        1 + bit_length(n / 2)
    }
}

/// The excess of a length over sixteen, in the width that it is coded in.
pub open spec fn excess(literal_len: u32) -> u32 {
    if literal_len >= SHORT_LITERAL {
        (literal_len - SHORT_LITERAL) as u32
    } else {
        (literal_len + 0x1_0000_0000 - SHORT_LITERAL) as u32
    }
}

/// The next multiple of four.
pub open spec fn next_multiple_of_4(val: u8) -> u8 {
    ((val + 3) / 4 * 4) as u8
}

/// Rounds `val` up to a multiple of four.
pub fn round_up_mod_4(val: u8) -> (rounded: u8)
    requires
        1 <= val <= 252,
    ensures
        rounded == next_multiple_of_4(val),
        val <= rounded < val + 4,
        rounded % 4 == 0,
{
    assert((((val - 1) as u8) | 3) + 1 == (val + 3) / 4 * 4) by (bit_vector)
        requires
            1 <= val <= 252,
    ;
    ((val - 1) | 3) + 1
}

proof fn lemma_bit_length_by_top_bit(n: u32, k: u32)
    requires
        1 <= k <= 32,
        n >> ((k - 1) as u32) == 1,
    ensures
        bit_length(n as nat) == k,
    decreases k,
{
    assert(n > 0) by (bit_vector)
        requires
            1 <= k <= 32,
            n >> ((k - 1) as u32) == 1,
    ;
    if k == 1 {
        assert(n == 1) by (bit_vector)
            requires
                n >> 0u32 == 1,
        ;
        assert(bit_length(0) == 0);
    } else {
        let half = n / 2;
        let k1 = (k - 1) as u32;
        assert((n / 2) >> ((k1 - 1) as u32) == 1) by (bit_vector)
            requires
                1 <= k1 <= 31,
                n >> k1 == 1,
        ;
        lemma_bit_length_by_top_bit(half, k1);
    }
}

/// The top bit of a number is where its bit length says.
pub proof fn lemma_top_bit(n: u32)
    ensures
        bit_length(n as nat) == 32 - u32_leading_zeros(n),
        bit_length(n as nat) <= 32,
        n == 0 <==> bit_length(n as nat) == 0,
        n > 0 ==> n >> ((bit_length(n as nat) - 1) as u32) == 1,
{
    axiom_u32_leading_zeros(n);
    if n > 0 {
        let k = (32 - u32_leading_zeros(n)) as u32;
        assert(n >> ((k - 1) as u32) == 1) by (bit_vector)
            requires
                1 <= k <= 32,
                n >> k == 0,
                (n >> ((k - 1) as u32)) & 1 != 0,
        ;
        lemma_bit_length_by_top_bit(n, k);
    }
}

/// Counts the bits that `n` takes.
pub fn count_bits(n: u32) -> (bits: u8)
    ensures
        bits == bit_length(n as nat),
        bits <= 32,
{
    proof {
        lemma_top_bit(n);
    }
    (32 - n.leading_zeros()) as u8
}

impl LiteralSubstate {
    /// Whether a nibble of the length is to be coded.
    ///
    /// The bits that are still to come are a positive number of nibbles, and
    /// no more than a length has.
    pub open spec fn counts(self) -> bool {
        match self {
            LiteralSubstate::LiteralCountSmall => true,
            LiteralSubstate::LiteralCountFirst => true,
            LiteralSubstate::LiteralCountLengthGreater14Less25 => true,
            LiteralSubstate::LiteralCountMantissaNibbles(len_remaining, _) => 4 <= len_remaining
                <= 32 && len_remaining % 4 == 0,
            _ => false,
        }
    }

    /// The nibble that codes this part of the length `literal_len`.
    pub open spec fn count_nibble_of(self, literal_len: u32) -> u8 {
        let bits = bit_length(excess(literal_len) as nat);
        match self {
            LiteralSubstate::LiteralCountSmall => if 1 <= literal_len < SHORT_LITERAL {
                (literal_len - 1) as u8
            } else {
                15
            },
            LiteralSubstate::LiteralCountFirst => if bits < 15 {
                bits as u8
            } else {
                15
            },
            LiteralSubstate::LiteralCountLengthGreater14Less25 => if bits >= 15 {
                (bits - 15) as u8
            } else {
                (bits + 241) as u8
            },
            LiteralSubstate::LiteralCountMantissaNibbles(len_remaining, decoded_so_far) => ((excess(
                literal_len,
            ) ^ decoded_so_far) >> ((len_remaining - 4) as u32)) as u8,
            _ => 0,
        }
    }

    /// What `nibble` leads to as this part of a length.
    pub open spec fn counted(self, nibble: u8) -> CountStep {
        match self {
            LiteralSubstate::LiteralCountSmall => if nibble == 15 {
                CountStep::Next(LiteralSubstate::LiteralCountFirst)
            } else {
                CountStep::Length((nibble + 1) as u64)
            },
            LiteralSubstate::LiteralCountFirst => if nibble == 15 {
                CountStep::Next(LiteralSubstate::LiteralCountLengthGreater14Less25)
            } else if nibble <= 1 {
                CountStep::Length((SHORT_LITERAL + nibble) as u64)
            } else {
                CountStep::Next(
                    LiteralSubstate::LiteralCountMantissaNibbles(
                        next_multiple_of_4((nibble - 1) as u8),
                        1u32 << ((nibble - 1) as u32),
                    ),
                )
            },
            LiteralSubstate::LiteralCountLengthGreater14Less25 => CountStep::Next(
                LiteralSubstate::LiteralCountMantissaNibbles(
                    next_multiple_of_4((nibble + 14) as u8),
                    1u32 << ((nibble + 14) as u32),
                ),
            ),
            LiteralSubstate::LiteralCountMantissaNibbles(len_remaining, decoded_so_far) => {
                let decoded = decoded_so_far | ((nibble as u32) << ((len_remaining - 4) as u32));
                if len_remaining == 4 {
                    CountStep::Length((decoded + SHORT_LITERAL) as u64)
                } else {
                    CountStep::Next(
                        LiteralSubstate::LiteralCountMantissaNibbles(
                            (len_remaining - 4) as u8,
                            decoded,
                        ),
                    )
                }
            },
            _ => CountStep::Next(self),
        }
    }

    /// Whether coding the length `literal_len` leads here.
    ///
    /// The bits that were coded are bits of the excess, and the others lie
    /// below those that are still to come.
    pub open spec fn is_part_of(self, literal_len: u32) -> bool {
        match self {
            LiteralSubstate::LiteralCountSmall => true,
            LiteralSubstate::LiteralCountFirst => literal_len >= SHORT_LITERAL,
            LiteralSubstate::LiteralCountLengthGreater14Less25 => literal_len >= SHORT_LITERAL
                && bit_length(excess(literal_len) as nat) >= 15,
            LiteralSubstate::LiteralCountMantissaNibbles(len_remaining, decoded_so_far) => {
                &&& literal_len >= SHORT_LITERAL
                &&& decoded_so_far & excess(literal_len) == decoded_so_far
                &&& ((excess(literal_len) ^ decoded_so_far) as u64) >> (len_remaining as u64) == 0
            },
            _ => false,
        }
    }

    /// The distribution that this part of a length is coded with.
    pub open spec fn count_prior(self, block_type: u8) -> LiteralNibblePrior {
        match self {
            LiteralSubstate::LiteralCountSmall => LiteralNibblePrior::CountSmall { block_type },
            LiteralSubstate::LiteralCountFirst => LiteralNibblePrior::SizeBegNib { block_type },
            LiteralSubstate::LiteralCountLengthGreater14Less25 =>
                LiteralNibblePrior::SizeLastNib { block_type },
            _ => LiteralNibblePrior::SizeMantissaNib { block_type },
        }
    }

    /// How fast that distribution adapts.
    pub open spec fn count_speed(self) -> Speed {
        match self {
            LiteralSubstate::LiteralCountSmall => Speed::MED,
            _ => Speed::MUD,
        }
    }

    /// What this part of a length is billed to.
    pub open spec fn count_billing(self) -> BillingDesignation {
        BillingDesignation::LiteralCommand(
            match self {
                LiteralSubstate::LiteralCountMantissaNibbles(_, _) =>
                    LiteralSubstate::LiteralCountMantissaNibbles(0, 0),
                _ => self,
            },
        )
    }

    /// Finds the distribution that this part of a length is coded with, how
    /// fast it adapts, and what the nibble is billed to.
    pub fn count_model(self, block_type: u8) -> (model: (
        LiteralNibblePrior,
        Speed,
        BillingDesignation,
    ))
        requires
            self.counts(),
        ensures
            model == (self.count_prior(block_type), self.count_speed(), self.count_billing()),
            model.0.valid(),
    {
        match self {
            LiteralSubstate::LiteralCountSmall => (
                LiteralNibblePrior::CountSmall { block_type },
                Speed::MED,
                BillingDesignation::LiteralCommand(self),
            ),
            LiteralSubstate::LiteralCountFirst => (
                LiteralNibblePrior::SizeBegNib { block_type },
                Speed::MUD,
                BillingDesignation::LiteralCommand(self),
            ),
            LiteralSubstate::LiteralCountLengthGreater14Less25 => (
                LiteralNibblePrior::SizeLastNib { block_type },
                Speed::MUD,
                BillingDesignation::LiteralCommand(self),
            ),
            _ => (
                LiteralNibblePrior::SizeMantissaNib { block_type },
                Speed::MUD,
                BillingDesignation::LiteralCommand(
                    LiteralSubstate::LiteralCountMantissaNibbles(0, 0),
                ),
            ),
        }
    }

    /// Finds the nibble that codes this part of the length `literal_len`.
    pub fn offer_count_nibble(self, literal_len: u32) -> (nibble: u8)
        requires
            self.counts(),
        ensures
            nibble == self.count_nibble_of(literal_len),
    {
        let serialized_large_literal_len: u32 = literal_len.wrapping_sub(SHORT_LITERAL);
        let lllen: u8 = count_bits(serialized_large_literal_len);
        match self {
            LiteralSubstate::LiteralCountSmall => {
                let short: u32 = literal_len.wrapping_sub(1);
                if short < 15 {
                    short as u8
                } else {
                    15
                }
            },
            LiteralSubstate::LiteralCountFirst => if lllen < 15 {
                lllen
            } else {
                15
            },
            LiteralSubstate::LiteralCountLengthGreater14Less25 => lllen.wrapping_sub(15),
            LiteralSubstate::LiteralCountMantissaNibbles(len_remaining, decoded_so_far) => {
                let next_len_remaining: u8 = len_remaining - 4;
                let rest: u32 = serialized_large_literal_len ^ decoded_so_far;
                #[verifier::truncate]
                ((rest >> (next_len_remaining as u32)) as u8)
            },
            _ => 0,
        }
    }

    /// Takes `nibble` as this part of a length.
    pub fn take_count_nibble(self, nibble: u8) -> (step: CountStep)
        requires
            self.counts(),
            nibble < NIBBLE_VALUES,
        ensures
            step == self.counted(nibble),
            match step {
                CountStep::Next(state) => state.counts(),
                CountStep::Length(len) => 1 <= len <= 0x1_0000_000f,
            },
    {
        match self {
            LiteralSubstate::LiteralCountSmall => if nibble == 15 {
                CountStep::Next(LiteralSubstate::LiteralCountFirst)
            } else {
                CountStep::Length(nibble as u64 + 1)
            },
            LiteralSubstate::LiteralCountFirst => if nibble == 15 {
                CountStep::Next(LiteralSubstate::LiteralCountLengthGreater14Less25)
            } else if nibble <= 1 {
                CountStep::Length(16 + nibble as u64)
            } else {
                CountStep::Next(
                    LiteralSubstate::LiteralCountMantissaNibbles(
                        round_up_mod_4(nibble - 1),
                        1u32 << ((nibble - 1) as u32),
                    ),
                )
            },
            LiteralSubstate::LiteralCountLengthGreater14Less25 => CountStep::Next(
                LiteralSubstate::LiteralCountMantissaNibbles(
                    round_up_mod_4(nibble + 14),
                    1u32 << ((nibble + 14) as u32),
                ),
            ),
            LiteralSubstate::LiteralCountMantissaNibbles(len_remaining, decoded_so_far) => {
                let next_len_remaining: u8 = len_remaining - 4;
                let next_decoded_so_far: u32 = decoded_so_far | ((nibble as u32) << (
                next_len_remaining as u32));
                if next_len_remaining == 0 {
                    CountStep::Length(next_decoded_so_far as u64 + 16)
                } else {
                    CountStep::Next(
                        LiteralSubstate::LiteralCountMantissaNibbles(
                            next_len_remaining,
                            next_decoded_so_far,
                        ),
                    )
                }
            },
            _ => CountStep::Next(self),
        }
    }
}

/// The bits of `s` below its top bit are still to come once the bit length is known.
proof fn lemma_mantissa_starts(s: u32, bits: u32, len_remaining: u8)
    requires
        1 <= bits <= 32,
        bits == bit_length(s as nat),
        bits - 1 <= len_remaining <= 32,
    ensures
        (1u32 << ((bits - 1) as u32)) & s == 1u32 << ((bits - 1) as u32),
        ((s ^ (1u32 << ((bits - 1) as u32))) as u64) >> (len_remaining as u64) == 0,
{
    lemma_top_bit(s);
    let k = (bits - 1) as u32;
    assert((1u32 << k) & s == 1u32 << k && ((s ^ (1u32 << k)) as u64) >> (len_remaining as u64)
        == 0) by (bit_vector)
        requires
            s >> k == 1,
            k < 32,
            k <= len_remaining <= 32,
    ;
}

/// Coding a length that is not zero and not too long takes nibbles all the
/// way, each leads to the next part of the same length, and the last one gives
/// the length back.
pub proof fn law_length_is_restored(state: LiteralSubstate, literal_len: u32)
    requires
        state.counts(),
        state.is_part_of(literal_len),
        1 <= literal_len <= MAX_LITERAL_LEN,
    ensures
        state.count_nibble_of(literal_len) < NIBBLE_VALUES,
        match state.counted(state.count_nibble_of(literal_len)) {
            CountStep::Next(next) => next.counts() && next.is_part_of(literal_len),
            CountStep::Length(len) => len == literal_len,
        },
{
    let s = excess(literal_len);
    let bits = bit_length(s as nat);
    lemma_top_bit(s);
    let nibble = state.count_nibble_of(literal_len);
    match state {
        LiteralSubstate::LiteralCountSmall => {},
        LiteralSubstate::LiteralCountFirst => {
            if bits == 1 {
                assert(s == 1) by (bit_vector)
                    requires
                        s >> 0u32 == 1,
                ;
            }
            if 2 <= bits <= 14 {
                let len_remaining = next_multiple_of_4((nibble - 1) as u8);
                lemma_mantissa_starts(s, bits as u32, len_remaining);
            }
        },
        LiteralSubstate::LiteralCountLengthGreater14Less25 => {
            let k = (bits - 1) as u32;
            assert(k < 30) by (bit_vector)
                requires
                    s >> k == 1,
                    k < 32,
                    s < 0x4000_0000,
            ;
            let len_remaining = next_multiple_of_4((nibble + 14) as u8);
            lemma_mantissa_starts(s, bits as u32, len_remaining);
        },
        LiteralSubstate::LiteralCountMantissaNibbles(len_remaining, d) => {
            let r = (len_remaining - 4) as u32;
            let n = ((s ^ d) >> r) as u8;
            let d2 = d | ((n as u32) << r);
            assert(n < 16 && d2 & s == d2 && ((s ^ d2) as u64) >> (r as u64) == 0) by (bit_vector)
                requires
                    r <= 28,
                    d & s == d,
                    ((s ^ d) as u64) >> ((r + 4) as u64) == 0,
                    n == ((s ^ d) >> r) as u8,
                    d2 == d | ((n as u32) << r),
            ;
            if r == 0 {
                assert(d2 == s) by (bit_vector)
                    requires
                        ((s ^ d2) as u64) >> 0u64 == 0,
                ;
            }
        },
        _ => {},
    }
}

} // verus!
