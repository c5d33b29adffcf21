//! Coders that leave nibbles as they are, one to a byte, with models that
//! know nothing. They show that the contracts of this crate's traits can be
//! met, and give a stream that is easy to read.

use vstd::prelude::*;
use crate::interface::{
    ArithmeticEncoderOrDecoder, BillingDesignation, BrotliResult, Buffers, CoderEvent, CoderHistory,
    NibbleReply, NibbleRequest,
};
use crate::probability::{
    CDF16, ModelWeights, NibbleCdf, Prob, ProbRange, Speed, SymStartFreq, NIBBLE_VALUES,
};

verus! {

/// The width of a nibble's range where all are as likely.
pub const UNIFORM_FREQ: Prob = 2048;

/// The range of `sym` where all nibbles are as likely.
pub open spec fn uniform_range(sym: u8) -> ProbRange {
    ProbRange { start: (UNIFORM_FREQ * (sym % NIBBLE_VALUES)) as i16, freq: UNIFORM_FREQ }
}

/// Finds the range of `sym` where all nibbles are as likely.
fn find_uniform_range(sym: u8) -> (range: ProbRange)
    ensures
        range == uniform_range(sym),
{
    ProbRange { start: UNIFORM_FREQ * (sym % NIBBLE_VALUES) as i16, freq: UNIFORM_FREQ }
}

/// The ranges of the nibbles follow each other without a gap, all as wide, and
/// fill what a probability can hold.
pub proof fn law_uniform_ranges_tile(sym: u8)
    requires
        sym < 16,
    ensures
        uniform_range(0).start == 0,
        sym < 15 ==> uniform_range((sym + 1) as u8).start == uniform_range(sym).start
            + uniform_range(sym).freq,
        uniform_range(sym).freq == uniform_range(0).freq,
        uniform_range(15).start + uniform_range(15).freq == 0x8000,
{
}

/// The distribution in which all nibbles are as likely, whatever was seen.
#[derive(Copy, Clone, Debug, PartialEq, Eq)]
pub struct UniformCDF16;

impl CDF16 for UniformCDF16 {
    open spec fn blended(self, symbol: u8, speed: Speed) -> Self {
        self
    }

    open spec fn averaged(self, other: Self, mix_rate: i32) -> Self {
        self
    }

    open spec fn symbol_range(self, symbol: u8) -> SymStartFreq {
        SymStartFreq { range: uniform_range(symbol), sym: symbol }
    }

    fn blend(&mut self, symbol: u8, speed: Speed) {
    }

    fn average(&self, other: &Self, mix_rate: i32) -> (mixed: Self) {
        *self
    }

    fn sym_to_start_and_freq(&self, sym: u8) -> (found: SymStartFreq) {
        SymStartFreq { range: find_uniform_range(sym), sym }
    }
}

/// Weights that stay as they are.
#[derive(Copy, Clone, Debug, PartialEq, Eq)]
pub struct FixedWeights {
    pub share: Prob,
}

impl ModelWeights for FixedWeights {
    open spec fn share(&self) -> Prob {
        self.share
    }

    open spec fn adapts(&self) -> bool {
        false
    }

    open spec fn updated(
        &self,
        context_freq: Prob,
        stride_freq: Prob,
        weighted_freq: Prob,
    ) -> Self {
        *self
    }

    fn norm_weight(&self) -> (weight: Prob) {
        self.share
    }

    fn should_mix(&self) -> (adapts: bool) {
        false
    }

    fn update(&mut self, model_probs: [Prob; 2], weighted_prob: Prob) {
    }
}

/// The models neither learn nor mix.
pub proof fn law_plain_models_stay(
    cdf: UniformCDF16,
    weights: FixedWeights,
    symbol: u8,
    speed: Speed,
    freq: Prob,
)
    ensures
        cdf.blended(symbol, speed) == cdf,
        cdf.symbol_range(symbol).sym == symbol,
        cdf.symbol_range(symbol).range == uniform_range(symbol),
        weights.updated(freq, freq, freq) == weights,
        ModelWeights::share(&weights) == weights.share,
        !weights.adapts(),
{
}

/// The room in `len` bytes of which `offset` are taken.
pub open spec fn room_after(offset: usize, len: nat) -> int {
    if offset < len {
        len - offset
    } else {
        0
    }
}

/// `bytes` with `written` from `offset` on.
pub open spec fn written_at(bytes: Seq<u8>, offset: int, written: Seq<u8>) -> Seq<u8> {
    Seq::new(
        bytes.len(),
        |i: int|
            if offset <= i < offset + written.len() {
                written[i - offset]
            } else {
                bytes[i]
            },
    )
}

/// What is written stands where it was to be written, and all around it stays.
pub proof fn law_writing_is_local(bytes: Seq<u8>, offset: int, written: Seq<u8>, i: int)
    requires
        0 <= offset,
        offset + written.len() <= bytes.len(),
        0 <= i < bytes.len(),
    ensures
        written_at(bytes, offset, written).len() == bytes.len(),
        written_at(bytes, offset, written).subrange(offset, offset + written.len()) == written,
        !(offset <= i < offset + written.len()) ==> written_at(bytes, offset, written)[i]
            == bytes[i],
{
    assert(written_at(bytes, offset, written).subrange(offset, offset + written.len())
        =~= written);
}

/// What is taken and the room after it make up the whole.
pub proof fn law_room_is_the_rest(offset: usize, len: nat)
    ensures
        offset <= len ==> offset + room_after(offset, len) == len,
        offset > len ==> room_after(offset, len) == 0,
{
}

/// Writes nibbles out as they are put.
pub struct PlainEncoder<C> {
    waiting: Vec<u8>,
    calls: Ghost<CoderHistory<C>>,
}

impl<C> PlainEncoder<C> {
    /// The nibbles that were put and not written out yet.
    pub closed spec fn waiting(&self) -> Seq<u8> {
        self.waiting@
    }
}

impl<C: CDF16> PlainEncoder<C> {
    /// An encoder that was not used yet.
    pub fn new() -> (coder: Self)
        ensures
            coder.history() == Seq::<CoderEvent<C>>::empty(),
            coder.waiting() == Seq::<u8>::empty(),
    {
        PlainEncoder { waiting: Vec::new(), calls: Ghost(Seq::empty()) }
    }
}

impl<C: CDF16> ArithmeticEncoderOrDecoder<C> for PlainEncoder<C> {
    closed spec fn history(&self) -> CoderHistory<C> {
        self.calls@
    }

    open spec fn decoding(&self) -> bool {
        false
    }

    fn get_or_put_nibble(
        &mut self,
        nibble: &mut u8,
        prob: &NibbleCdf<C>,
        billing: BillingDesignation,
    ) -> (range: ProbRange)
        ensures
            range == uniform_range(*old(nibble)),
            final(self).waiting() == old(self).waiting().push(*old(nibble)),
    {
        let range: ProbRange = find_uniform_range(*nibble);
        self.waiting.push(*nibble);
        self.calls = Ghost(
            self.calls@.push(
                CoderEvent::Coded {
                    request: NibbleRequest { offered: *nibble, cdf: *prob, billing },
                    reply: NibbleReply { nibble: *nibble, range },
                },
            ),
        );
        range
    }

    fn drain_or_fill_internal_buffer(
        &mut self,
        input_bytes: &[u8],
        input_offset: &mut usize,
        output_bytes: &mut [u8],
        output_offset: &mut usize,
    ) -> (result: BrotliResult)
        ensures
            *final(input_offset) == *old(input_offset),
            ({
                let room = room_after(*old(output_offset), old(output_bytes)@.len());
                let written = if old(self).waiting().len() < room {
                    old(self).waiting().len() as int
                } else {
                    room
                };
                &&& *final(output_offset) == *old(output_offset) + written
                &&& final(output_bytes)@ == written_at(
                    old(output_bytes)@,
                    *old(output_offset) as int,
                    old(self).waiting().take(written),
                )
                &&& final(self).waiting() == old(self).waiting().skip(written)
            }),
            result == if final(self).waiting().len() == 0 {
                BrotliResult::ResultSuccess
            } else {
                BrotliResult::NeedsMoreOutput
            },
    {
        let ghost before = Buffers {
            input: input_bytes@,
            input_offset: *input_offset,
            output: output_bytes@,
            output_offset: *output_offset,
        };
        let ghost mut written: int = 0;
        while self.waiting.len() > 0 && *output_offset < output_bytes.len()
            invariant
                self.calls == old(self).calls,
                *input_offset == *old(input_offset),
                0 <= written <= old(self).waiting@.len(),
                written <= room_after(*old(output_offset), old(output_bytes)@.len()),
                output_bytes@.len() == old(output_bytes)@.len(),
                *output_offset == *old(output_offset) + written,
                self.waiting@ == old(self).waiting@.skip(written),
                output_bytes@ == written_at(
                    old(output_bytes)@,
                    *old(output_offset) as int,
                    old(self).waiting@.take(written),
                ),
            decreases self.waiting.len(),
        {
            let nibble: u8 = self.waiting.remove(0);
            output_bytes[*output_offset] = nibble;
            *output_offset = *output_offset + 1;
            proof {
                written = written + 1;
            }
        }
        let result: BrotliResult = if self.waiting.len() == 0 {
            BrotliResult::ResultSuccess
        } else {
            BrotliResult::NeedsMoreOutput
        };
        self.calls = Ghost(
            self.calls@.push(
                CoderEvent::Drained {
                    before,
                    after: Buffers {
                        input: input_bytes@,
                        input_offset: *input_offset,
                        output: output_bytes@,
                        output_offset: *output_offset,
                    },
                    result,
                },
            ),
        );
        result
    }
}

/// Reads nibbles as they are asked for.
pub struct PlainDecoder<C> {
    ahead: Option<u8>,
    calls: Ghost<CoderHistory<C>>,
}

impl<C> PlainDecoder<C> {
    /// The nibble that was read and not handed out yet.
    pub closed spec fn ahead(&self) -> Option<u8> {
        self.ahead
    }
}

impl<C: CDF16> PlainDecoder<C> {
    /// A decoder that was not used yet.
    pub fn new() -> (coder: Self)
        ensures
            coder.history() == Seq::<CoderEvent<C>>::empty(),
            coder.ahead() is None,
    {
        PlainDecoder { ahead: None, calls: Ghost(Seq::empty()) }
    }
}

impl<C: CDF16> ArithmeticEncoderOrDecoder<C> for PlainDecoder<C> {
    closed spec fn history(&self) -> CoderHistory<C> {
        self.calls@
    }

    open spec fn decoding(&self) -> bool {
        true
    }

    fn get_or_put_nibble(
        &mut self,
        nibble: &mut u8,
        prob: &NibbleCdf<C>,
        billing: BillingDesignation,
    ) -> (range: ProbRange)
        ensures
            range == uniform_range(*final(nibble)),
            *final(nibble) == (match old(self).ahead() {
                Some(byte) => byte % NIBBLE_VALUES,
                None => 0,
            }),
            final(self).ahead() is None,
    {
        let ghost offered = *nibble;
        *nibble = match self.ahead {
            Some(byte) => byte % NIBBLE_VALUES,
            None => 0,
        };
        self.ahead = None;
        let range: ProbRange = find_uniform_range(*nibble);
        self.calls = Ghost(
            self.calls@.push(
                CoderEvent::Coded {
                    request: NibbleRequest { offered, cdf: *prob, billing },
                    reply: NibbleReply { nibble: *nibble, range },
                },
            ),
        );
        range
    }

    fn drain_or_fill_internal_buffer(
        &mut self,
        input_bytes: &[u8],
        input_offset: &mut usize,
        output_bytes: &mut [u8],
        output_offset: &mut usize,
    ) -> (result: BrotliResult)
        ensures
            final(output_bytes)@ == old(output_bytes)@,
            *final(output_offset) == *old(output_offset),
            result == if final(self).ahead() is Some {
                BrotliResult::ResultSuccess
            } else {
                BrotliResult::NeedsMoreInput
            },
            old(self).ahead() is Some ==> final(self).ahead() == old(self).ahead()
                && *final(input_offset) == *old(input_offset),
            old(self).ahead() is None && *old(input_offset) < input_bytes@.len()
                ==> final(self).ahead() == Some(input_bytes@[*old(input_offset) as int])
                && *final(input_offset) == *old(input_offset) + 1,
            old(self).ahead() is None && *old(input_offset) >= input_bytes@.len()
                ==> final(self).ahead() is None && *final(input_offset) == *old(input_offset),
    {
        let ghost before = Buffers {
            input: input_bytes@,
            input_offset: *input_offset,
            output: output_bytes@,
            output_offset: *output_offset,
        };
        if self.ahead.is_none() && *input_offset < input_bytes.len() {
            self.ahead = Some(input_bytes[*input_offset]);
            *input_offset = *input_offset + 1;
        }
        let result: BrotliResult = if self.ahead.is_some() {
            BrotliResult::ResultSuccess
        } else {
            BrotliResult::NeedsMoreInput
        };
        self.calls = Ghost(
            self.calls@.push(
                CoderEvent::Drained {
                    before,
                    after: Buffers {
                        input: input_bytes@,
                        input_offset: *input_offset,
                        output: output_bytes@,
                        output_offset: *output_offset,
                    },
                    result,
                },
            ),
        );
        result
    }
}

} // verus!
