//! What nibbles make of a literal: its bytes, what is remembered of them, and
//! where coding goes next.

use vstd::prelude::*;
use crate::bookkeeping::{
    law_byte_goes_on_top, recent_byte, BookKeepingView, CrossCommandBookKeeping,
};
use crate::count::CountStep;
use crate::interface::{
    BrotliResult, CodecTraits, DecoderSpecialization, EncoderSpecialization, LiteralCommand,
    NibbleReply,
};
use crate::laws::law_bytes_move_back;
use crate::literal::{job_of, LiteralState, LiteralSubstate};
use crate::machine::{Coding, Job};
use crate::probability::{CDF16, ModelWeights};

verus! {

/// Two nibbles make a byte, the high half first, and no other byte changes.
///
/// The byte counts as the one coded last once both halves are there, and not
/// before. The length of the literal is noted. The last byte ends the literal
/// well; any other leads to the next byte, if its nibbles can be counted.
pub proof fn law_two_halves_make_a_byte<C: CDF16, W: ModelWeights>(
    coding: Coding<C, W>,
    job: Job,
    index: u32,
    high: NibbleReply,
    low: NibbleReply,
)
    requires
        coding.state == LiteralSubstate::LiteralNibbleIndex(index),
        coding.valid(),
        high.nibble < 16,
        low.nibble < 16,
    ensures
        ({
            let b = (index / 2) as int;
            let first = coding.step(job, high);
            let between = first.after;
            let second = between.step(job, low);
            let after = second.after;
            let byte = 16 * high.nibble + low.nibble;
            &&& first.verdict is None
            &&& between.data == coding.data.update(b, (16 * high.nibble) as u8)
            &&& between.state == LiteralSubstate::LiteralNibbleLowerHalf((index + 1) as u32)
            &&& between.bk.last_8_literals == coding.bk.last_8_literals
            &&& between.bk.last_llen == coding.data.len() % 0x1_0000_0000
            &&& after.data == coding.data.update(b, byte as u8)
            &&& after.bk.last_8_literals == coding.bk.last_8_literals / 0x100
                + 0x100_0000_0000_0000 * byte
            &&& after.bk.last_llen == coding.data.len() % 0x1_0000_0000
            &&& b + 1 == coding.data.len() ==> after.state is FullyDecoded && second.verdict
                == Some(BrotliResult::ResultSuccess)
            &&& b + 1 != coding.data.len() && index < 0xffff_fffe ==> after.state
                == LiteralSubstate::LiteralNibbleIndex((index + 2) as u32) && second.verdict is None
            &&& b + 1 != coding.data.len() && index == 0xffff_fffe ==> after.state
                == LiteralSubstate::LiteralNibbleLowerHalf(0xffff_ffff) && second.verdict == Some(
                BrotliResult::ResultFailure,
            )
        }),
{
    let between = coding.step(job, high).after;
    law_waiting_byte_is_completed(between, job, (index + 1) as u32, high.nibble, low);
    let after = between.step(job, low).after;
    assert(after.data =~= coding.data.update(
        (index / 2) as int,
        (16 * high.nibble + low.nibble) as u8,
    ));
}

/// The low half completes a byte whose high half is waiting.
pub proof fn law_waiting_byte_is_completed<C: CDF16, W: ModelWeights>(
    coding: Coding<C, W>,
    job: Job,
    index: u32,
    high: u8,
    low: NibbleReply,
)
    requires
        coding.state == LiteralSubstate::LiteralNibbleLowerHalf(index),
        coding.valid(),
        coding.data[(index / 2) as int] == 16 * high,
        low.nibble < 16,
    ensures
        ({
            let b = (index / 2) as int;
            let stepped = coding.step(job, low);
            let after = stepped.after;
            let byte = 16 * high + low.nibble;
            &&& after.data == coding.data.update(b, byte as u8)
            &&& after.bk.last_8_literals == coding.bk.last_8_literals / 0x100
                + 0x100_0000_0000_0000 * byte
            &&& after.bk.last_llen == coding.bk.last_llen
            &&& b + 1 == coding.data.len() ==> after.state is FullyDecoded && stepped.verdict
                == Some(BrotliResult::ResultSuccess)
            &&& b + 1 != coding.data.len() && index < 0xffff_ffff ==> after.state
                == LiteralSubstate::LiteralNibbleIndex((index + 1) as u32) && stepped.verdict
                is None
            &&& b + 1 != coding.data.len() && index == 0xffff_ffff ==> after.state == coding.state
                && stepped.verdict == Some(BrotliResult::ResultFailure)
        }),
{
    lemma_halves_add_up(high, low.nibble);
    law_byte_goes_on_top(coding.bk.last_8_literals, (16 * high + low.nibble) as u8);
}

proof fn lemma_halves_add_up(high: u8, low: u8)
    requires
        high < 16,
        low < 16,
    ensures
        ((16 * high) as u8) | low == 16 * high + low,
{
    assert(((16 * high) as u8) | low == 16 * high + low) by (bit_vector)
        requires
            high < 16,
            low < 16,
    ;
}

/// With bit probabilities, too, two nibbles make a byte. The literal ends where
/// its nibbles, counted in 32 bits, are all there.
pub proof fn law_two_supplied_halves_make_a_byte<C: CDF16, W: ModelWeights>(
    coding: Coding<C, W>,
    job: Job,
    index: u32,
    high: NibbleReply,
    low: NibbleReply,
)
    requires
        coding.state == LiteralSubstate::LiteralNibbleIndexWithECDF(index),
        coding.valid(),
        index % 2 == 0,
        high.nibble < 16,
        low.nibble < 16,
    ensures
        ({
            let b = (index / 2) as int;
            let nibbles = (2 * coding.data.len()) % 0x1_0000_0000;
            let first = coding.step(job, high);
            let between = first.after;
            let second = between.step(job, low);
            let after = second.after;
            let byte = 16 * high.nibble + low.nibble;
            &&& first.verdict is None
            &&& between.data == coding.data.update(b, (16 * high.nibble) as u8)
            &&& between.state == LiteralSubstate::LiteralNibbleIndexWithECDF((index + 1) as u32)
            &&& between.bk.last_8_literals == coding.bk.last_8_literals
            &&& between.bk.last_llen == coding.data.len() % 0x1_0000_0000
            &&& after.data == coding.data.update(b, byte as u8)
            &&& after.bk.last_8_literals == coding.bk.last_8_literals / 0x100
                + 0x100_0000_0000_0000 * byte
            &&& after.bk.last_llen == coding.data.len() % 0x1_0000_0000
            &&& index == 0xffff_fffe ==> after.state == between.state && second.verdict == Some(
                BrotliResult::ResultFailure,
            )
            &&& index < 0xffff_fffe && index + 2 == nibbles ==> after.state is FullyDecoded
                && second.verdict == Some(BrotliResult::ResultSuccess)
            &&& index < 0xffff_fffe && index + 2 != nibbles ==> after.state
                == LiteralSubstate::LiteralNibbleIndexWithECDF((index + 2) as u32)
                && second.verdict is None
        }),
{
    let between = coding.step(job, high).after;
    let after = between.step(job, low).after;
    let byte = (16 * high.nibble + low.nibble) as u8;
    lemma_halves_add_up(high.nibble, low.nibble);
    law_byte_goes_on_top(coding.bk.last_8_literals, byte);
    assert((2 * coding.data.len()) % 0x1_0000_0000 % 2 == 0);
    assert(after.data =~= coding.data.update((index / 2) as int, byte));
}

/// A low half joins the bits that stand in its byte.
pub proof fn law_low_half_joins_its_byte<C: CDF16, W: ModelWeights>(
    coding: Coding<C, W>,
    job: Job,
    index: u32,
    low: NibbleReply,
)
    requires
        coding.valid(),
        index % 2 == 1,
        coding.state == LiteralSubstate::LiteralNibbleLowerHalf(index) || coding.state
            == LiteralSubstate::LiteralNibbleIndexWithECDF(index),
    ensures
        ({
            let b = (index / 2) as int;
            let byte = coding.data[b] | low.nibble;
            let after = coding.step(job, low).after;
            &&& after.data == coding.data.update(b, byte)
            &&& after.bk.last_8_literals == coding.bk.last_8_literals / 0x100
                + 0x100_0000_0000_0000 * byte
        }),
{
    law_byte_goes_on_top(
        coding.bk.last_8_literals,
        coding.data[(index / 2) as int] | low.nibble,
    );
}

/// With bit probabilities, a low half ends the literal where its nibbles,
/// counted in 32 bits, are all there, and leads to the next nibble elsewhere.
pub proof fn law_supplied_low_half_leads_on<C: CDF16, W: ModelWeights>(
    coding: Coding<C, W>,
    job: Job,
    index: u32,
    low: NibbleReply,
)
    requires
        coding.state == LiteralSubstate::LiteralNibbleIndexWithECDF(index),
        index % 2 == 1,
    ensures
        ({
            let nibbles = (2 * coding.data.len()) % 0x1_0000_0000;
            let stepped = coding.step(job, low);
            &&& stepped.after.bk.last_llen == coding.data.len() % 0x1_0000_0000
            &&& index == 0xffff_ffff ==> stepped.after.state == coding.state && stepped.verdict
                == Some(BrotliResult::ResultFailure)
            &&& index < 0xffff_ffff && index + 1 == nibbles ==> stepped.after.state is FullyDecoded
                && stepped.verdict == Some(BrotliResult::ResultSuccess)
            &&& index < 0xffff_ffff && index + 1 != nibbles ==> stepped.after.state
                == LiteralSubstate::LiteralNibbleIndexWithECDF((index + 1) as u32)
                && stepped.verdict is None
        }),
{
}

/// Coding a nibble leaves the settings as they are.
pub proof fn law_settings_stay<C: CDF16, W: ModelWeights>(
    coding: Coding<C, W>,
    job: Job,
    reply: NibbleReply,
)
    ensures
        ({
            let after = coding.step(job, reply).after.bk;
            let bk = coding.bk;
            &&& after.stride == bk.stride
            &&& after.literal_block_type == bk.literal_block_type
            &&& after.command_block_type == bk.command_block_type
            &&& after.materialized_prediction_mode == bk.materialized_prediction_mode
            &&& after.combine_literal_predictions == bk.combine_literal_predictions
            &&& after.literal_prediction_mode == bk.literal_prediction_mode
            &&& after.literal_lut0 == bk.literal_lut0
            &&& after.literal_lut1 == bk.literal_lut1
            &&& after.literal_context_map == bk.literal_context_map
            &&& after.literal_adaptation == bk.literal_adaptation
        }),
{
}

/// A length that is known makes room for as many bytes, and the first nibble of
/// the first byte comes next. A length that memory cannot hold is a failure,
/// and the bytes stay as they are.
pub proof fn law_length_makes_room<C: CDF16, W: ModelWeights>(
    coding: Coding<C, W>,
    job: Job,
    reply: NibbleReply,
    len: u64,
)
    requires
        coding.state.counts(),
        coding.state.counted(reply.nibble) == CountStep::Length(len),
    ensures
        ({
            let stepped = coding.step(job, reply);
            let after = stepped.after;
            &&& len <= usize::MAX ==> {
                &&& stepped.verdict is None
                &&& after.data.len() == len
                &&& forall|i: int| 0 <= i < len ==> after.data[i] == 0
                &&& job.prob.len() == 0 ==> after.state == LiteralSubstate::LiteralNibbleIndex(0)
                &&& job.prob.len() > 0 ==> after.state
                    == LiteralSubstate::LiteralNibbleIndexWithECDF(0)
            }
            &&& len > usize::MAX ==> {
                &&& stepped.verdict == Some(BrotliResult::ResultFailure)
                &&& after.data == coding.data
                &&& after.state == coding.state
            }
        }),
{
}

/// A nibble that does not complete the length leaves the bytes as they are.
pub proof fn law_length_goes_on<C: CDF16, W: ModelWeights>(
    coding: Coding<C, W>,
    job: Job,
    reply: NibbleReply,
    next: LiteralSubstate,
)
    requires
        coding.state.counts(),
        coding.state.counted(reply.nibble) == CountStep::Next(next),
    ensures
        coding.step(job, reply).verdict is None,
        coding.step(job, reply).after.data == coding.data,
        coding.step(job, reply).after.state == next,
{
}

impl<C, W> BookKeepingView<C, W> {
    /// The state once all of `bytes` were coded.
    pub open spec fn pushed_all(self, bytes: Seq<u8>) -> Self
        decreases bytes.len(),
    {
        if bytes.len() == 0 {
            self
        } else {
            self.pushed_all(bytes.drop_last()).pushed(bytes.last())
        }
    }
}

/// The byte that was coded `distance` bytes ago is found that far back.
pub proof fn law_bytes_are_remembered<C, W>(
    bk: BookKeepingView<C, W>,
    bytes: Seq<u8>,
    distance: u8,
)
    requires
        1 <= distance <= 8,
        distance <= bytes.len(),
    ensures
        recent_byte(bk.pushed_all(bytes).last_8_literals, distance) == bytes[bytes.len()
            - distance],
    decreases bytes.len(),
{
    let earlier = bk.pushed_all(bytes.drop_last());
    if distance == 1 {
        law_bytes_move_back(earlier.last_8_literals, bytes.last(), 1);
    } else {
        law_bytes_are_remembered(bk, bytes.drop_last(), (distance - 1) as u8);
        law_bytes_move_back(earlier.last_8_literals, bytes.last(), (distance - 1) as u8);
    }
}

proof fn lemma_pushing_keeps_settings<C, W>(bk: BookKeepingView<C, W>, bytes: Seq<u8>)
    ensures
        bk.pushed_all(bytes) == (BookKeepingView {
            last_8_literals: bk.pushed_all(bytes).last_8_literals,
            ..bk
        }),
    decreases bytes.len(),
{
    if bytes.len() > 0 {
        lemma_pushing_keeps_settings(bk, bytes.drop_last());
    }
}

/// The stride model looks back one stride: it sees the byte that was coded so
/// many bytes ago. No stride counts as one, and a stride beyond the bytes that
/// are kept counts as eight.
pub proof fn law_stride_looks_back<C, W>(
    bk: BookKeepingView<C, W>,
    bytes: Seq<u8>,
    traits: CodecTraits,
)
    ensures
        bk.stride == 0 && bytes.len() >= 1 ==> {
            &&& bk.pushed_all(bytes).byte_context(traits).stride_byte == bytes[bytes.len() - 1]
            &&& bk.pushed_all(bytes).mode_byte_context().stride_byte == bytes[bytes.len() - 1]
        },
        1 <= bk.stride <= 8 && bytes.len() >= bk.stride ==> {
            &&& bk.pushed_all(bytes).byte_context(traits).stride_byte == bytes[bytes.len()
                - bk.stride]
            &&& bk.pushed_all(bytes).mode_byte_context().stride_byte == bytes[bytes.len()
                - bk.stride]
        },
        bk.stride > 8 && bytes.len() >= 8 ==> {
            &&& bk.pushed_all(bytes).byte_context(traits).stride_byte == bytes[bytes.len() - 8]
            &&& bk.pushed_all(bytes).mode_byte_context().stride_byte == bytes[bytes.len() - 8]
        },
{
    lemma_pushing_keeps_settings(bk, bytes);
    if bk.stride == 0 && bytes.len() >= 1 {
        law_bytes_are_remembered(bk, bytes, 1);
    }
    if 1 <= bk.stride <= 8 && bytes.len() >= bk.stride {
        law_bytes_are_remembered(bk, bytes, bk.stride);
    }
    if bk.stride > 8 && bytes.len() >= 8 {
        law_bytes_are_remembered(bk, bytes, 8);
    }
}

/// The context comes from the last two bytes: the tables' answers are joined,
/// and where a context map is in use, it is asked in the sixty-four entries of
/// the literal block type.
pub proof fn law_context_comes_from_the_last_two_bytes<C, W>(
    bk: BookKeepingView<C, W>,
    bytes: Seq<u8>,
    traits: CodecTraits,
)
    requires
        bytes.len() >= 2,
    ensures
        ({
            let last = bytes[bytes.len() - 1] as int;
            let second_last = bytes[bytes.len() - 2] as int;
            let selected = bk.literal_lut0[last] | bk.literal_lut1[second_last];
            let context = bk.pushed_all(bytes).byte_context(traits).actual_context;
            &&& !traits.materialized_prediction_mode ==> context == selected
            &&& traits.materialized_prediction_mode ==> context == bk.literal_context_map[selected
                + 64 * bk.literal_block_type]
        }),
{
    lemma_pushing_keeps_settings(bk, bytes);
    law_bytes_are_remembered(bk, bytes, 1);
    law_bytes_are_remembered(bk, bytes, 2);
}

/// Where bit probabilities are supplied, the context comes from the last two
/// bytes by the prediction mode and the settings in force.
pub proof fn law_mode_context_comes_from_the_last_two_bytes<C, W>(
    bk: BookKeepingView<C, W>,
    bytes: Seq<u8>,
)
    requires
        bytes.len() >= 2,
    ensures
        ({
            let selected = crate::context::mode_context(
                bk.literal_prediction_mode,
                bytes[bytes.len() - 1],
                bytes[bytes.len() - 2],
            );
            let context = bk.pushed_all(bytes).mode_byte_context().actual_context;
            &&& !bk.materialized_prediction_mode ==> context == selected
            &&& bk.materialized_prediction_mode ==> context == bk.literal_context_map[selected + 64
                * bk.literal_block_type]
        }),
{
    lemma_pushing_keeps_settings(bk, bytes);
    law_bytes_are_remembered(bk, bytes, 1);
    law_bytes_are_remembered(bk, bytes, 2);
}

/// A literal with eight bit probabilities for each of its bytes can be encoded
/// from its beginning, in every prediction mode.
pub proof fn law_what_can_be_coded_with_probabilities<C: CDF16, W: ModelWeights>(
    coding: Coding<C, W>,
    job: Job,
)
    requires
        coding.state is Begin,
        1 <= job.literal.len() <= 0x4000_000f,
        job.prob.len() == 8 * job.literal.len(),
        coding.bk.literal_prediction_mode.0 <= 3,
        coding.bk.literal_context_map.len() >= 64 * (coding.bk.literal_block_type + 1),
    ensures
        coding.can_run(job, EncoderSpecialization, false),
        coding.can_run(job, DecoderSpecialization, true),
{
}

/// The model speaks of what is there: the job is the command, the literal at
/// hand is the state's, and the view holds each field under its name.
pub proof fn law_model_is_the_state<C, W>(
    literal: LiteralState,
    in_cmd: &LiteralCommand,
    ctraits: &CodecTraits,
    bk: CrossCommandBookKeeping<C, W>,
)
    ensures
        job_of(in_cmd, ctraits).literal == in_cmd.data@,
        job_of(in_cmd, ctraits).prob == in_cmd.prob@,
        job_of(in_cmd, ctraits).traits == *ctraits,
        literal.coding(bk@).data == literal.lc.data@,
        literal.coding(bk@).state == literal.state,
        literal.coding(bk@).bk == bk@,
        bk@.last_8_literals == bk.last_8_literals,
        bk@.last_llen == bk.last_llen,
        bk@.stride == bk.stride,
        bk@.literal_block_type == bk.literal_block_type,
        bk@.command_block_type == bk.command_block_type,
        bk@.materialized_prediction_mode == bk.materialized_prediction_mode,
        bk@.combine_literal_predictions == bk.combine_literal_predictions,
        bk@.literal_prediction_mode == bk.literal_prediction_mode,
        bk@.literal_lut0 == bk.literal_lut0@,
        bk@.literal_lut1 == bk.literal_lut1@,
        bk@.literal_context_map == bk.literal_context_map@,
        bk@.literal_adaptation == bk.literal_adaptation,
        bk@.model_weights == bk.model_weights@,
        bk@.lit_priors == bk.lit_priors@,
        bk@.lit_cm_priors == bk.lit_cm_priors@,
{
}

/// Every literal of 1 to 2^30 + 15 bytes can be encoded from its beginning, and
/// anything can be decoded, wherever each context has its place in the map.
pub proof fn law_what_can_be_coded<C: CDF16, W: ModelWeights>(coding: Coding<C, W>, job: Job)
    requires
        coding.state is Begin,
        job.prob.len() == 0,
        forall|b: u8| #[trigger] coding.bk.literal_lut0[b as int] < 64,
        forall|b: u8| #[trigger] coding.bk.literal_lut1[b as int] < 64,
        coding.bk.literal_context_map.len() >= 64 * (coding.bk.literal_block_type + 1),
    ensures
        1 <= job.literal.len() <= 0x4000_000f ==> coding.can_run(job, EncoderSpecialization, false),
        coding.can_run(job, DecoderSpecialization, true),
{
    assert forall|a: u8, b: u8|
        coding.bk.map_index(
            #[trigger] coding.bk.literal_lut0[a as int]
                | #[trigger] coding.bk.literal_lut1[b as int],
        ) < coding.bk.literal_context_map.len() by {
        let x = coding.bk.literal_lut0[a as int];
        let y = coding.bk.literal_lut1[b as int];
        assert(x | y < 64) by (bit_vector)
            requires
                x < 64,
                y < 64,
        ;
    }
}

} // verus!
