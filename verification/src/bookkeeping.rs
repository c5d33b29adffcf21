//! The state that a codec keeps from one command to the next.

use vstd::prelude::*;
use crate::context::{mode_context, NUM_CONTEXTS};
use crate::interface::{CodecTraits, LiteralPredictionModeNibble};
use crate::priors::{
    LiteralCommandPriors, LiteralCommandPriorsCM, LiteralContextPrior, LiteralNibblePrior,
    NUM_STRIDES,
};
use crate::probability::Speed;

verus! {

/// What is known about a byte before it is coded.
#[derive(Copy, Clone, Debug, PartialEq, Eq, Structural)]
pub struct ByteContext {
    /// The context that the last two bytes select.
    pub actual_context: u8,
    /// The byte one stride back.
    pub stride_byte: u8,
}

/// The learnt distributions, the bytes last coded, and the settings in force.
pub struct CrossCommandBookKeeping<C, W> {
    /// The last eight bytes, the latest on top.
    pub last_8_literals: u64,
    /// The length of the last literal.
    pub last_llen: u32,
    /// How many bytes back the stride model looks.
    pub stride: u8,
    pub literal_block_type: u8,
    pub command_block_type: u8,
    /// Whether `literal_context_map` is in use.
    pub materialized_prediction_mode: bool,
    pub combine_literal_predictions: bool,
    pub literal_prediction_mode: LiteralPredictionModeNibble,
    /// What the last byte adds to the context.
    pub literal_lut0: [u8; 256],
    /// What the second last byte adds to the context.
    pub literal_lut1: [u8; 256],
    /// Sixty-four contexts for each literal block type.
    pub literal_context_map: Vec<u8>,
    pub literal_adaptation: Speed,
    /// The mixing weights of low and of high nibbles.
    pub model_weights: [W; 2],
    pub lit_priors: LiteralCommandPriors<C>,
    pub lit_cm_priors: LiteralCommandPriorsCM<C>,
}

/// The contents of a [`CrossCommandBookKeeping`].
#[verifier::ext_equal]
pub struct BookKeepingView<C, W> {
    pub last_8_literals: u64,
    pub last_llen: u32,
    pub stride: u8,
    pub literal_block_type: u8,
    pub command_block_type: u8,
    pub materialized_prediction_mode: bool,
    pub combine_literal_predictions: bool,
    pub literal_prediction_mode: LiteralPredictionModeNibble,
    pub literal_lut0: Seq<u8>,
    pub literal_lut1: Seq<u8>,
    pub literal_context_map: Seq<u8>,
    pub literal_adaptation: Speed,
    pub model_weights: Seq<W>,
    pub lit_priors: Map<LiteralNibblePrior, C>,
    pub lit_cm_priors: Map<LiteralContextPrior, C>,
}

impl<C, W> View for CrossCommandBookKeeping<C, W> {
    type V = BookKeepingView<C, W>;

    open spec fn view(&self) -> BookKeepingView<C, W> {
        BookKeepingView {
            last_8_literals: self.last_8_literals,
            last_llen: self.last_llen,
            stride: self.stride,
            literal_block_type: self.literal_block_type,
            command_block_type: self.command_block_type,
            materialized_prediction_mode: self.materialized_prediction_mode,
            combine_literal_predictions: self.combine_literal_predictions,
            literal_prediction_mode: self.literal_prediction_mode,
            literal_lut0: self.literal_lut0@,
            literal_lut1: self.literal_lut1@,
            literal_context_map: self.literal_context_map@,
            literal_adaptation: self.literal_adaptation,
            model_weights: self.model_weights@,
            lit_priors: self.lit_priors@,
            lit_cm_priors: self.lit_cm_priors@,
        }
    }
}

/// The byte `distance` back, where one back is the byte coded last.
pub open spec fn recent_byte(last_8_literals: u64, distance: u8) -> u8 {
    ((last_8_literals >> (64 - 8 * distance) as u64) & 0xff) as u8
}

/// The bytes last coded, once `byte` follows them.
pub open spec fn with_byte(last_8_literals: u64, byte: u8) -> u64 {
    (last_8_literals >> 8) | ((byte as u64) << 56)
}

/// The last eight bytes are the base-256 digits of the number that keeps them,
/// the latest first.
pub proof fn law_bytes_are_digits(last_8_literals: u64)
    ensures
        recent_byte(last_8_literals, 1) == last_8_literals / 0x100_0000_0000_0000,
        recent_byte(last_8_literals, 2) == last_8_literals / 0x1_0000_0000_0000 % 0x100,
        recent_byte(last_8_literals, 3) == last_8_literals / 0x100_0000_0000 % 0x100,
        recent_byte(last_8_literals, 4) == last_8_literals / 0x1_0000_0000 % 0x100,
        recent_byte(last_8_literals, 5) == last_8_literals / 0x100_0000 % 0x100,
        recent_byte(last_8_literals, 6) == last_8_literals / 0x1_0000 % 0x100,
        recent_byte(last_8_literals, 7) == last_8_literals / 0x100 % 0x100,
        recent_byte(last_8_literals, 8) == last_8_literals % 0x100,
{
    let l = last_8_literals;
    assert(((l >> 56u64) & 0xff) as u8 == l / 0x100_0000_0000_0000 && ((l >> 48u64) & 0xff) as u8
        == l / 0x1_0000_0000_0000 % 0x100 && ((l >> 40u64) & 0xff) as u8 == l / 0x100_0000_0000
        % 0x100 && ((l >> 32u64) & 0xff) as u8 == l / 0x1_0000_0000 % 0x100 && ((l >> 24u64)
        & 0xff) as u8 == l / 0x100_0000 % 0x100 && ((l >> 16u64) & 0xff) as u8 == l / 0x1_0000
        % 0x100 && ((l >> 8u64) & 0xff) as u8 == l / 0x100 % 0x100 && ((l >> 0u64) & 0xff) as u8
        == l % 0x100) by (bit_vector);
}

/// A byte that is coded becomes the first digit, and the last one is forgotten.
pub proof fn law_byte_goes_on_top(last_8_literals: u64, byte: u8)
    ensures
        with_byte(last_8_literals, byte) == last_8_literals / 0x100 + 0x100_0000_0000_0000 * byte,
{
    let l = last_8_literals;
    assert(((l >> 8) | ((byte as u64) << 56)) == l / 0x100 + 0x100_0000_0000_0000 * byte)
        by (bit_vector);
}

impl<C, W> BookKeepingView<C, W> {
    /// The number of bytes that the stride model looks back: the stride, but
    /// no less than one and no more than the bytes that are kept.
    pub open spec fn reach(self) -> u8 {
        if self.stride == 0 {
            1
        } else if self.stride > NUM_STRIDES {
            NUM_STRIDES
        } else {
            self.stride
        }
    }

    /// The stride, as the main table counts it.
    pub open spec fn stride_slot(self) -> u8 {
        if self.stride < NUM_STRIDES {
            self.stride
        } else {
            (NUM_STRIDES - 1) as u8
        }
    }

    /// The byte that the stride model looks at.
    pub open spec fn stride_byte(self) -> u8 {
        recent_byte(self.last_8_literals, self.reach())
    }

    /// The context that the lookup tables select.
    pub open spec fn table_context(self) -> u8 {
        self.literal_lut0[recent_byte(self.last_8_literals, 1) as int]
            | self.literal_lut1[recent_byte(self.last_8_literals, 2) as int]
    }

    /// The context that the prediction mode selects.
    pub open spec fn mode_context(self) -> u8 {
        mode_context(
            self.literal_prediction_mode,
            recent_byte(self.last_8_literals, 1),
            recent_byte(self.last_8_literals, 2),
        )
    }

    /// The place of a selected context in the context map.
    pub open spec fn map_index(self, selected: u8) -> int {
        selected + NUM_CONTEXTS * self.literal_block_type
    }

    /// What `selected` stands for, with the context map or without.
    pub open spec fn actual_context(self, selected: u8, materialized: bool) -> u8 {
        if materialized {
            self.literal_context_map[self.map_index(selected)]
        } else {
            selected
        }
    }

    /// What is known about the next byte to code that is specialised for `traits`.
    pub open spec fn byte_context(self, traits: CodecTraits) -> ByteContext {
        ByteContext {
            actual_context: self.actual_context(
                self.table_context(),
                traits.materialized_prediction_mode,
            ),
            stride_byte: self.stride_byte(),
        }
    }

    /// What is known about the next byte to code that consults the prediction mode.
    pub open spec fn mode_byte_context(self) -> ByteContext {
        ByteContext {
            actual_context: self.actual_context(
                self.mode_context(),
                self.materialized_prediction_mode,
            ),
            stride_byte: self.stride_byte(),
        }
    }

    /// Whether the context map answers for every context that the lookup
    /// tables can select.
    pub open spec fn map_covers_tables(self) -> bool {
        forall|a: u8, b: u8|
            self.map_index(
                #[trigger] self.literal_lut0[a as int] | #[trigger] self.literal_lut1[b as int],
            ) < self.literal_context_map.len()
    }

    /// Whether the context map answers for every context that the prediction
    /// mode can select.
    pub open spec fn map_covers_modes(self) -> bool {
        NUM_CONTEXTS * (self.literal_block_type + 1) <= self.literal_context_map.len()
    }

    /// The state once `byte` was coded.
    pub open spec fn pushed(self, byte: u8) -> Self {
        BookKeepingView { last_8_literals: with_byte(self.last_8_literals, byte), ..self }
    }
}

impl<C, W> CrossCommandBookKeeping<C, W> {
    /// Whether the tables are whole.
    pub open spec fn wf(&self) -> bool {
        &&& self.lit_priors.wf()
        &&& self.lit_cm_priors.wf()
    }

    /// The literal block type in force.
    pub fn get_literal_block_type(&self) -> (block_type: u8)
        ensures
            block_type == self@.literal_block_type,
            block_type == self.literal_block_type,
    {
        self.literal_block_type
    }

    /// The command block type in force.
    pub fn get_command_block_type(&self) -> (block_type: u8)
        ensures
            block_type == self@.command_block_type,
            block_type == self.command_block_type,
    {
        self.command_block_type
    }

    /// Whether a context map is in use.
    pub fn materialized_prediction_mode(&self) -> (materialized: bool)
        ensures
            materialized == self@.materialized_prediction_mode,
            materialized == self.materialized_prediction_mode,
    {
        self.materialized_prediction_mode
    }

    /// Remembers `byte` as the one coded last.
    pub fn push_literal_byte(&mut self, byte: u8)
        ensures
            final(self)@ == old(self)@.pushed(byte),
            final(self).wf() == old(self).wf(),
            final(self).last_8_literals == old(self).last_8_literals / 0x100
                + 0x100_0000_0000_0000 * byte,
    {
        proof {
            law_byte_goes_on_top(self.last_8_literals, byte);
        }
        self.last_8_literals = (self.last_8_literals >> 8) | ((byte as u64) << 56);
    }

    /// The number of bytes that the stride model looks back.
    pub fn stride_reach(&self) -> (reach: u8)
        ensures
            reach == self@.reach(),
            1 <= reach <= NUM_STRIDES,
            reach == if self.stride < 1 {
                1
            } else if self.stride > 8 {
                8
            } else {
                self.stride
            },
    {
        if self.stride == 0 {
            1
        } else if self.stride > NUM_STRIDES {
            NUM_STRIDES
        } else {
            self.stride
        }
    }

    /// The stride, as the main table counts it.
    pub fn stride_index(&self) -> (slot: u8)
        ensures
            slot == self@.stride_slot(),
            slot < NUM_STRIDES,
            slot == if self.stride < 7 {
                self.stride
            } else {
                7
            },
    {
        if self.stride < NUM_STRIDES {
            self.stride
        } else {
            NUM_STRIDES - 1
        }
    }

    /// The byte `distance` back.
    pub fn literal_back(&self, distance: u8) -> (byte: u8)
        requires
            1 <= distance <= NUM_STRIDES,
        ensures
            byte == recent_byte(self@.last_8_literals, distance),
    {
        ((self.last_8_literals >> (64 - 8 * distance as u64)) & 0xff) as u8
    }
}

/// All that a command is coded with.
pub struct CrossCommandState<C, W, A, S> {
    pub coder: A,
    pub specialization: S,
    pub bk: CrossCommandBookKeeping<C, W>,
}

} // verus!
