//! What literal coding shares with the rest of a codec: commands, results, the
//! arithmetic coder, and the source of the bytes to be coded.

use vstd::prelude::*;
use crate::literal::LiteralSubstate;
use crate::probability::{CDF16, NibbleCdf, ProbRange, NIBBLE_VALUES};

verus! {

/// What a coding step asks of its caller.
#[derive(Copy, Clone, Debug, PartialEq, Eq, Structural)]
pub enum BrotliResult {
    ResultSuccess,
    NeedsMoreInput,
    NeedsMoreOutput,
    ResultFailure,
}

/// Bytes that are inserted verbatim, and the bit probabilities that came with
/// them: eight per byte, or none.
#[derive(Clone, Debug)]
pub struct LiteralCommand {
    pub data: Vec<u8>,
    pub prob: Vec<u8>,
}

/// How the bytes before a literal select its context.
#[derive(Copy, Clone, Debug, PartialEq, Eq, Structural)]
pub struct LiteralPredictionModeNibble(pub u8);

pub const LITERAL_PREDICTION_MODE_SIGN: u8 = 3;

pub const LITERAL_PREDICTION_MODE_UTF8: u8 = 2;

pub const LITERAL_PREDICTION_MODE_MSB6: u8 = 1;

pub const LITERAL_PREDICTION_MODE_LSB6: u8 = 0;

impl LiteralPredictionModeNibble {
    /// Whether the mode has no more than its two bits.
    pub open spec fn well_formed(self) -> bool {
        self.0 <= LITERAL_PREDICTION_MODE_SIGN
    }
}

/// The part of the format that a coded nibble is billed to.
#[derive(Copy, Clone, Debug, PartialEq, Eq, Structural)]
pub enum BillingDesignation {
    LiteralCommand(LiteralSubstate),
}

/// The choices among prediction models that a coding routine is specialised for.
#[derive(Copy, Clone, Debug, PartialEq, Eq, Structural)]
pub struct CodecTraits {
    /// Whether a context map is in use.
    pub materialized_prediction_mode: bool,
    /// Whether the context model is mixed with the stride model.
    pub combine_literal_predictions: bool,
    /// Whether the mixing weights adapt.
    pub should_mix: bool,
}

/// The byte buffers that a coder drains to and fills from.
#[verifier::ext_equal]
pub struct Buffers {
    pub input: Seq<u8>,
    pub input_offset: usize,
    pub output: Seq<u8>,
    pub output_offset: usize,
}

/// One call of an arithmetic coder, with what it was given and what it gave back.
#[verifier::ext_equal]
pub enum CoderEvent<C> {
    /// The internal buffer was drained or filled.
    Drained { before: Buffers, after: Buffers, result: BrotliResult },
    /// A nibble was coded: `request` was asked for and `reply` came back.
    Coded { request: NibbleRequest<C>, reply: NibbleReply },
}

/// What is handed to a coder with a nibble.
#[verifier::ext_equal]
pub struct NibbleRequest<C> {
    /// The nibble to put. A decoder does not look at it.
    pub offered: u8,
    pub cdf: NibbleCdf<C>,
    pub billing: BillingDesignation,
}

/// What a coder makes of a nibble.
#[verifier::ext_equal]
pub struct NibbleReply {
    /// The nibble that was put or got.
    pub nibble: u8,
    /// Its range in the distribution that it was coded with.
    pub range: ProbRange,
}

/// The calls of a coder, in their order.
pub type CoderHistory<C> = Seq<CoderEvent<C>>;

/// An arithmetic coder: an encoder puts the nibbles that it is offered, a
/// decoder replaces them with those that it reads.
///
/// Nothing is said of how a coder codes. It records its calls, one event for
/// each, and it hands back nibbles; an encoder hands back those it was given.
pub trait ArithmeticEncoderOrDecoder<C: CDF16>: Sized {
    /// The calls made so far.
    spec fn history(&self) -> CoderHistory<C>;

    /// Whether offered nibbles are replaced.
    spec fn decoding(&self) -> bool;

    /// Codes one nibble.
    fn get_or_put_nibble(
        &mut self,
        nibble: &mut u8,
        prob: &NibbleCdf<C>,
        billing: BillingDesignation,
    ) -> (range: ProbRange)
        requires
            old(self).decoding() || *old(nibble) < NIBBLE_VALUES,
        ensures
            final(self).decoding() == old(self).decoding(),
            *final(nibble) < NIBBLE_VALUES,
            !old(self).decoding() ==> *final(nibble) == *old(nibble),
            final(self).history() == old(self).history().push(
                CoderEvent::Coded {
                    request: (NibbleRequest { offered: *old(nibble), cdf: *prob, billing }),
                    reply: (NibbleReply { nibble: *final(nibble), range }),
                },
            ),
    ;

    /// Moves bytes between the coder and the caller's buffers, so that the
    /// next nibble can be coded. Any other result than success asks the
    /// caller to come back.
    fn drain_or_fill_internal_buffer(
        &mut self,
        input_bytes: &[u8],
        input_offset: &mut usize,
        output_bytes: &mut [u8],
        output_offset: &mut usize,
    ) -> (result: BrotliResult)
        ensures
            final(self).decoding() == old(self).decoding(),
            final(self).history() == old(self).history().push(
                CoderEvent::Drained {
                    before: (Buffers {
                        input: input_bytes@,
                        input_offset: *old(input_offset),
                        output: old(output_bytes)@,
                        output_offset: *old(output_offset),
                    }),
                    after: (Buffers {
                        input: input_bytes@,
                        input_offset: *final(input_offset),
                        output: final(output_bytes)@,
                        output_offset: *final(output_offset),
                    }),
                    result,
                },
            ),
    ;
}

/// Where the bytes to be coded come from.
pub trait EncoderOrDecoderSpecialization: Sized {
    /// Whether byte `index` can be asked for.
    spec fn has_literal_byte(&self, literal: Seq<u8>, index: int) -> bool;

    /// Byte `index`.
    spec fn literal_byte(&self, literal: Seq<u8>, index: int) -> u8;

    /// Reads byte `index` of the command's literal.
    fn get_literal_byte(&self, in_cmd: &LiteralCommand, index: usize) -> (byte: u8)
        requires
            self.has_literal_byte(in_cmd.data@, index as int),
        ensures
            byte == self.literal_byte(in_cmd.data@, index as int),
    ;
}

/// An encoder codes the bytes of the command that it is given.
#[derive(Copy, Clone, Debug)]
pub struct EncoderSpecialization;

impl EncoderOrDecoderSpecialization for EncoderSpecialization {
    open spec fn has_literal_byte(&self, literal: Seq<u8>, index: int) -> bool {
        0 <= index < literal.len()
    }

    open spec fn literal_byte(&self, literal: Seq<u8>, index: int) -> u8 {
        literal[index]
    }

    fn get_literal_byte(&self, in_cmd: &LiteralCommand, index: usize) -> (byte: u8) {
        in_cmd.data[index]
    }
}

/// A decoder has no bytes yet, and offers zeros in their place.
#[derive(Copy, Clone, Debug)]
pub struct DecoderSpecialization;

impl EncoderOrDecoderSpecialization for DecoderSpecialization {
    open spec fn has_literal_byte(&self, literal: Seq<u8>, index: int) -> bool {
        true
    }

    open spec fn literal_byte(&self, literal: Seq<u8>, index: int) -> u8 {
        0
    }

    fn get_literal_byte(&self, in_cmd: &LiteralCommand, index: usize) -> (byte: u8) {
        0
    }
}

} // verus!
