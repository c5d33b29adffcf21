//! What a nibble is predicted from, and what it teaches, in terms of the tables
//! alone.

use vstd::prelude::*;
use crate::bookkeeping::BookKeepingView;
use crate::interface::{
    BillingDesignation, DecoderSpecialization, EncoderOrDecoderSpecialization, NibbleReply,
};
use crate::literal::LiteralSubstate;
use crate::machine::{Coding, Job};
use crate::priors::{LiteralContextPrior, LiteralNibblePrior};
use crate::probability::{CDF16, ExternalProbCDF16, ModelWeights, NibbleCdf, ProbRange, Speed};

verus! {

/// The high half of a byte is coded with the tables' entries for the byte one
/// stride back and the context, and adapts those and no others.
///
/// Without a context map the main table predicts; with one the context table
/// does, alone or mixed with the main table by its own share. Where the weights
/// adapt, they are told what the context table gave the nibble, what the main
/// table gave it, and what it was coded with.
pub proof fn law_high_half_is_predicted<
    C: CDF16,
    W: ModelWeights,
    S: EncoderOrDecoderSpecialization,
>(coding: Coding<C, W>, job: Job, source: S, index: u32, reply: NibbleReply)
    requires
        coding.state == LiteralSubstate::LiteralNibbleIndex(index),
    ensures
        ({
            let bk = coding.bk;
            let seen = bk.byte_context(job.traits);
            let main = LiteralNibblePrior::FirstNibble {
                stride_byte: seen.stride_byte,
                context: seen.actual_context,
                stride: if bk.stride < 7 {
                    bk.stride
                } else {
                    7
                },
            };
            let cm = LiteralContextPrior::FirstNibble { context: seen.actual_context };
            let weights = bk.model_weights[1];
            let request = coding.request(job, source);
            let after = coding.step(job, reply).after.bk;
            &&& request.offered == source.literal_byte(job.literal, (index / 2) as int) / 16
            &&& request.billing == BillingDesignation::LiteralCommand(
                LiteralSubstate::LiteralNibbleIndex(1),
            )
            &&& !job.traits.materialized_prediction_mode ==> request.cdf == NibbleCdf::Learnt(
                bk.lit_priors[main],
            )
            &&& job.traits.materialized_prediction_mode && !job.traits.combine_literal_predictions
                ==> request.cdf == NibbleCdf::Learnt(bk.lit_cm_priors[cm])
            &&& job.traits.materialized_prediction_mode && job.traits.combine_literal_predictions
                ==> request.cdf == NibbleCdf::Learnt(
                bk.lit_cm_priors[cm].averaged(
                    bk.lit_priors[main],
                    weights.share() as u16 as i32,
                ),
            )
            &&& after.lit_priors == bk.lit_priors.insert(
                main,
                bk.lit_priors[main].blended(reply.nibble, bk.literal_adaptation),
            )
            &&& after.lit_cm_priors == bk.lit_cm_priors.insert(
                cm,
                bk.lit_cm_priors[cm].blended(reply.nibble, Speed::GLACIAL),
            )
            &&& job.traits.materialized_prediction_mode && job.traits.combine_literal_predictions
                && job.traits.should_mix ==> after.model_weights == bk.model_weights.update(
                1,
                weights.updated(
                    bk.lit_cm_priors[cm].symbol_range(reply.nibble).range.freq,
                    bk.lit_priors[main].symbol_range(reply.nibble).range.freq,
                    reply.range.freq,
                ),
            )
            &&& !(job.traits.materialized_prediction_mode && job.traits.combine_literal_predictions
                && job.traits.should_mix) ==> after.model_weights == bk.model_weights
        }),
{
}

/// The low half of a byte whose high half is `high` is coded with the tables'
/// entries for that high half, and adapts those and no others. What else is
/// said of a high half holds of it too.
pub proof fn law_low_half_is_predicted<
    C: CDF16,
    W: ModelWeights,
    S: EncoderOrDecoderSpecialization,
>(coding: Coding<C, W>, job: Job, source: S, index: u32, high: u8, reply: NibbleReply)
    requires
        coding.state == LiteralSubstate::LiteralNibbleLowerHalf(index),
        16 * high <= coding.data[(index / 2) as int] < 16 * high + 16,
    ensures
        ({
            let bk = coding.bk;
            let seen = bk.byte_context(job.traits);
            let main = LiteralNibblePrior::SecondNibble {
                stride_byte: seen.stride_byte,
                high_nibble: high,
                stride: if bk.stride < 7 {
                    bk.stride
                } else {
                    7
                },
            };
            let cm = LiteralContextPrior::SecondNibble {
                high_nibble: high,
                context: seen.actual_context,
            };
            let weights = bk.model_weights[0];
            let request = coding.request(job, source);
            let after = coding.step(job, reply).after.bk;
            &&& request.offered == source.literal_byte(job.literal, (index / 2) as int) % 16
            &&& request.billing == BillingDesignation::LiteralCommand(
                LiteralSubstate::LiteralNibbleIndex(0),
            )
            &&& !job.traits.materialized_prediction_mode ==> request.cdf == NibbleCdf::Learnt(
                bk.lit_priors[main],
            )
            &&& job.traits.materialized_prediction_mode && !job.traits.combine_literal_predictions
                ==> request.cdf == NibbleCdf::Learnt(bk.lit_cm_priors[cm])
            &&& job.traits.materialized_prediction_mode && job.traits.combine_literal_predictions
                ==> request.cdf == NibbleCdf::Learnt(
                bk.lit_cm_priors[cm].averaged(
                    bk.lit_priors[main],
                    weights.share() as u16 as i32,
                ),
            )
            &&& after.lit_priors == bk.lit_priors.insert(
                main,
                bk.lit_priors[main].blended(reply.nibble, bk.literal_adaptation),
            )
            &&& after.lit_cm_priors == bk.lit_cm_priors.insert(
                cm,
                bk.lit_cm_priors[cm].blended(reply.nibble, Speed::GLACIAL),
            )
            &&& job.traits.materialized_prediction_mode && job.traits.combine_literal_predictions
                && job.traits.should_mix ==> after.model_weights == bk.model_weights.update(
                0,
                weights.updated(
                    bk.lit_cm_priors[cm].symbol_range(reply.nibble).range.freq,
                    bk.lit_priors[main].symbol_range(reply.nibble).range.freq,
                    reply.range.freq,
                ),
            )
            &&& !(job.traits.materialized_prediction_mode && job.traits.combine_literal_predictions
                && job.traits.should_mix) ==> after.model_weights == bk.model_weights
        }),
{
}

/// Whatever comes back as the high half of a byte is what its low half is
/// predicted from: what the tables hold for any other high half is neither
/// consulted nor touched.
pub proof fn law_low_half_follows_its_high_half<
    C: CDF16,
    W: ModelWeights,
    S: EncoderOrDecoderSpecialization,
>(coding: Coding<C, W>, job: Job, source: S, index: u32, high: NibbleReply, low: NibbleReply)
    requires
        coding.state == LiteralSubstate::LiteralNibbleIndex(index),
        coding.valid(),
        coding.bk.model_weights.len() == 2,
        high.nibble < 16,
    ensures
        ({
            let between = coding.step(job, high).after;
            let after = between.step(job, low).after;
            let seen = coding.bk.byte_context(job.traits);
            let main = LiteralNibblePrior::SecondNibble {
                stride_byte: seen.stride_byte,
                high_nibble: high.nibble,
                stride: if coding.bk.stride < 7 {
                    coding.bk.stride
                } else {
                    7
                },
            };
            let cm = LiteralContextPrior::SecondNibble {
                high_nibble: high.nibble,
                context: seen.actual_context,
            };
            &&& between.state == LiteralSubstate::LiteralNibbleLowerHalf((index + 1) as u32)
            &&& !job.traits.materialized_prediction_mode ==> between.request(job, source).cdf
                == NibbleCdf::Learnt(coding.bk.lit_priors[main])
            &&& job.traits.materialized_prediction_mode && !job.traits.combine_literal_predictions
                ==> between.request(job, source).cdf == NibbleCdf::Learnt(
                coding.bk.lit_cm_priors[cm],
            )
            &&& job.traits.materialized_prediction_mode && job.traits.combine_literal_predictions
                ==> between.request(job, source).cdf == NibbleCdf::Learnt(
                coding.bk.lit_cm_priors[cm].averaged(
                    coding.bk.lit_priors[main],
                    coding.bk.model_weights[0].share() as u16 as i32,
                ),
            )
            &&& after.bk.lit_cm_priors[cm] == coding.bk.lit_cm_priors[cm].blended(
                low.nibble,
                Speed::GLACIAL,
            )
            &&& after.bk.lit_priors[main] == coding.bk.lit_priors[main].blended(
                low.nibble,
                coding.bk.literal_adaptation,
            )
            &&& forall|other: u8, context: u8|
                other != high.nibble ==> #[trigger] after.bk.lit_cm_priors[(
                LiteralContextPrior::SecondNibble { high_nibble: other, context })]
                    == coding.bk.lit_cm_priors[(LiteralContextPrior::SecondNibble {
                    high_nibble: other,
                    context,
                })]
            &&& forall|other: u8, stride_byte: u8, stride: u8|
                other != high.nibble ==> #[trigger] after.bk.lit_priors[(
                LiteralNibblePrior::SecondNibble { stride_byte, high_nibble: other, stride })]
                    == coding.bk.lit_priors[(LiteralNibblePrior::SecondNibble {
                    stride_byte,
                    high_nibble: other,
                    stride,
                })]
        }),
{
    let between = coding.step(job, high).after;
    assert(between.data[(index / 2) as int] == 16 * high.nibble);
    law_high_half_is_predicted(coding, job, source, index, high);
    law_low_half_is_predicted(between, job, source, (index + 1) as u32, high.nibble, low);
    assert(between.bk.byte_context(job.traits) == coding.bk.byte_context(job.traits));
    assert(between.bk.model_weights[0] == coding.bk.model_weights[0]);
}

/// A share that gives all to one model makes it predict alone: to the context
/// table if the mix at that rate is its first operand, to the main table if it
/// is the second.
pub proof fn law_whole_share_is_one_model<
    C: CDF16,
    W: ModelWeights,
    S: EncoderOrDecoderSpecialization,
>(coding: Coding<C, W>, job: Job, source: S, index: u32)
    requires
        coding.state == LiteralSubstate::LiteralNibbleIndex(index),
        job.traits.materialized_prediction_mode,
        job.traits.combine_literal_predictions,
    ensures
        ({
            let bk = coding.bk;
            let seen = bk.byte_context(job.traits);
            let rate = bk.model_weights[1].share() as u16 as i32;
            let main = LiteralNibblePrior::FirstNibble {
                stride_byte: seen.stride_byte,
                context: seen.actual_context,
                stride: if bk.stride < 7 {
                    bk.stride
                } else {
                    7
                },
            };
            let cm = LiteralContextPrior::FirstNibble { context: seen.actual_context };
            &&& (forall|x: C, y: C| #[trigger] x.averaged(y, rate) == x) ==> coding.request(
                job,
                source,
            ).cdf == NibbleCdf::Learnt(bk.lit_cm_priors[cm])
            &&& (forall|x: C, y: C| #[trigger] x.averaged(y, rate) == y) ==> coding.request(
                job,
                source,
            ).cdf == NibbleCdf::Learnt(bk.lit_priors[main])
        }),
{
    law_high_half_is_predicted(coding, job, source, index, NibbleReply {
        nibble: 0,
        range: ProbRange { start: 0, freq: 0 },
    });
}

/// The high half of a byte that came with bit probabilities is coded with the
/// last four of its eight, leaning on the main table's entry, or with what was
/// learnt if they do not reach so far. The tables learn from it as from any
/// other nibble, by the settings in force.
pub proof fn law_supplied_high_half_is_predicted<
    C: CDF16,
    W: ModelWeights,
    S: EncoderOrDecoderSpecialization,
>(coding: Coding<C, W>, job: Job, source: S, index: u32, reply: NibbleReply)
    requires
        coding.state == LiteralSubstate::LiteralNibbleIndexWithECDF(index),
        index % 2 == 0,
    ensures
        ({
            let bk = coding.bk;
            let seen = bk.mode_byte_context();
            let main = LiteralNibblePrior::FirstNibble {
                stride_byte: seen.stride_byte,
                context: seen.actual_context,
                stride: if bk.stride < 7 {
                    bk.stride
                } else {
                    7
                },
            };
            let cm = LiteralContextPrior::FirstNibble { context: seen.actual_context };
            let weights = bk.model_weights[1];
            let request = coding.request(job, source);
            let after = coding.step(job, reply).after.bk;
            let first = 4 * index + 4;
            &&& request.offered == source.literal_byte(job.literal, (index / 2) as int) / 16
            &&& request.billing == BillingDesignation::LiteralCommand(
                LiteralSubstate::LiteralNibbleIndex(0),
            )
            &&& first + 4 <= job.prob.len() ==> request.cdf == NibbleCdf::External(
                ExternalProbCDF16 {
                    nibble: request.offered,
                    probs: [
                        job.prob[first],
                        job.prob[first + 1],
                        job.prob[first + 2],
                        job.prob[first + 3],
                    ],
                    learnt: bk.lit_priors[main],
                },
            )
            &&& first + 4 > job.prob.len() && !bk.materialized_prediction_mode ==> request.cdf
                == NibbleCdf::Learnt(bk.lit_priors[main])
            &&& first + 4 > job.prob.len() && bk.materialized_prediction_mode
                && !bk.combine_literal_predictions ==> request.cdf == NibbleCdf::Learnt(
                bk.lit_cm_priors[cm],
            )
            &&& first + 4 > job.prob.len() && bk.materialized_prediction_mode
                && bk.combine_literal_predictions ==> request.cdf == NibbleCdf::Learnt(
                bk.lit_cm_priors[cm].averaged(
                    bk.lit_priors[main],
                    weights.share() as u16 as i32,
                ),
            )
            &&& after.lit_priors == bk.lit_priors.insert(
                main,
                bk.lit_priors[main].blended(reply.nibble, bk.literal_adaptation),
            )
            &&& after.lit_cm_priors == bk.lit_cm_priors.insert(
                cm,
                bk.lit_cm_priors[cm].blended(reply.nibble, Speed::GLACIAL),
            )
            &&& bk.materialized_prediction_mode && weights.adapts() ==> after.model_weights
                == bk.model_weights.update(
                1,
                weights.updated(
                    bk.lit_cm_priors[cm].symbol_range(reply.nibble).range.freq,
                    bk.lit_priors[main].symbol_range(reply.nibble).range.freq,
                    reply.range.freq,
                ),
            )
            &&& !(bk.materialized_prediction_mode && weights.adapts()) ==> after.model_weights
                == bk.model_weights
        }),
{
}

/// The low half of a byte that came with bit probabilities is coded with the
/// first four of its eight. What else is said of its high half holds of it
/// too, with the tables' entries for that high half.
pub proof fn law_supplied_low_half_is_predicted<
    C: CDF16,
    W: ModelWeights,
    S: EncoderOrDecoderSpecialization,
>(coding: Coding<C, W>, job: Job, source: S, index: u32, high: u8, reply: NibbleReply)
    requires
        coding.state == LiteralSubstate::LiteralNibbleIndexWithECDF(index),
        index % 2 == 1,
        16 * high <= coding.data[(index / 2) as int] < 16 * high + 16,
    ensures
        ({
            let bk = coding.bk;
            let seen = bk.mode_byte_context();
            let main = LiteralNibblePrior::SecondNibble {
                stride_byte: seen.stride_byte,
                high_nibble: high,
                stride: if bk.stride < 7 {
                    bk.stride
                } else {
                    7
                },
            };
            let cm = LiteralContextPrior::SecondNibble {
                high_nibble: high,
                context: seen.actual_context,
            };
            let weights = bk.model_weights[0];
            let request = coding.request(job, source);
            let after = coding.step(job, reply).after.bk;
            let first = 4 * index - 4;
            &&& request.offered == source.literal_byte(job.literal, (index / 2) as int) % 16
            &&& request.billing == BillingDesignation::LiteralCommand(
                LiteralSubstate::LiteralNibbleIndex(1),
            )
            &&& first + 4 <= job.prob.len() ==> request.cdf == NibbleCdf::External(
                ExternalProbCDF16 {
                    nibble: request.offered,
                    probs: [
                        job.prob[first],
                        job.prob[first + 1],
                        job.prob[first + 2],
                        job.prob[first + 3],
                    ],
                    learnt: bk.lit_priors[main],
                },
            )
            &&& first + 4 > job.prob.len() && !bk.materialized_prediction_mode ==> request.cdf
                == NibbleCdf::Learnt(bk.lit_priors[main])
            &&& first + 4 > job.prob.len() && bk.materialized_prediction_mode
                && !bk.combine_literal_predictions ==> request.cdf == NibbleCdf::Learnt(
                bk.lit_cm_priors[cm],
            )
            &&& first + 4 > job.prob.len() && bk.materialized_prediction_mode
                && bk.combine_literal_predictions ==> request.cdf == NibbleCdf::Learnt(
                bk.lit_cm_priors[cm].averaged(
                    bk.lit_priors[main],
                    weights.share() as u16 as i32,
                ),
            )
            &&& after.lit_priors == bk.lit_priors.insert(
                main,
                bk.lit_priors[main].blended(reply.nibble, bk.literal_adaptation),
            )
            &&& after.lit_cm_priors == bk.lit_cm_priors.insert(
                cm,
                bk.lit_cm_priors[cm].blended(reply.nibble, Speed::GLACIAL),
            )
            &&& bk.materialized_prediction_mode && weights.adapts() ==> after.model_weights
                == bk.model_weights.update(
                0,
                weights.updated(
                    bk.lit_cm_priors[cm].symbol_range(reply.nibble).range.freq,
                    bk.lit_priors[main].symbol_range(reply.nibble).range.freq,
                    reply.range.freq,
                ),
            )
            &&& !(bk.materialized_prediction_mode && weights.adapts()) ==> after.model_weights
                == bk.model_weights
        }),
{
}

/// Whatever comes back as the high half of a byte with bit probabilities is
/// what its low half is predicted from and what it teaches.
pub proof fn law_supplied_low_half_follows_its_high_half<
    C: CDF16,
    W: ModelWeights,
    S: EncoderOrDecoderSpecialization,
>(coding: Coding<C, W>, job: Job, source: S, index: u32, high: NibbleReply, low: NibbleReply)
    requires
        coding.state == LiteralSubstate::LiteralNibbleIndexWithECDF(index),
        coding.valid(),
        index % 2 == 0,
        high.nibble < 16,
    ensures
        ({
            let between = coding.step(job, high).after;
            let after = between.step(job, low).after;
            let seen = coding.bk.mode_byte_context();
            let main = LiteralNibblePrior::SecondNibble {
                stride_byte: seen.stride_byte,
                high_nibble: high.nibble,
                stride: if coding.bk.stride < 7 {
                    coding.bk.stride
                } else {
                    7
                },
            };
            let cm = LiteralContextPrior::SecondNibble {
                high_nibble: high.nibble,
                context: seen.actual_context,
            };
            &&& between.state == LiteralSubstate::LiteralNibbleIndexWithECDF((index + 1) as u32)
            &&& between.request(job, source).cdf is External ==> between.request(
                job,
                source,
            ).cdf->External_0.learnt == coding.bk.lit_priors[main]
            &&& after.bk.lit_cm_priors[cm] == coding.bk.lit_cm_priors[cm].blended(
                low.nibble,
                Speed::GLACIAL,
            )
            &&& after.bk.lit_priors[main] == coding.bk.lit_priors[main].blended(
                low.nibble,
                coding.bk.literal_adaptation,
            )
        }),
{
    let between = coding.step(job, high).after;
    assert(between.data[(index / 2) as int] == 16 * high.nibble);
    law_supplied_high_half_is_predicted(coding, job, source, index, high);
    law_supplied_low_half_is_predicted(between, job, source, (index + 1) as u32, high.nibble, low);
    assert(between.bk.mode_byte_context() == coding.bk.mode_byte_context());
}

/// A nibble of the length is coded with the entry for its part of the length
/// under the command's block type, is billed to that part, and adapts that
/// entry and nothing else.
pub proof fn law_length_nibble_is_predicted<
    C: CDF16,
    W: ModelWeights,
    S: EncoderOrDecoderSpecialization,
>(coding: Coding<C, W>, job: Job, source: S, reply: NibbleReply)
    requires
        coding.state.counts(),
    ensures
        ({
            let bk = coding.bk;
            let block_type = bk.command_block_type;
            let small = LiteralNibblePrior::CountSmall { block_type };
            let beg = LiteralNibblePrior::SizeBegNib { block_type };
            let last = LiteralNibblePrior::SizeLastNib { block_type };
            let mantissa = LiteralNibblePrior::SizeMantissaNib { block_type };
            let request = coding.request(job, source);
            let after = coding.step(job, reply).after.bk;
            &&& coding.state is LiteralCountSmall ==> request.cdf == NibbleCdf::Learnt(
                bk.lit_priors[small],
            ) && request.billing == BillingDesignation::LiteralCommand(
                LiteralSubstate::LiteralCountSmall,
            ) && after.lit_priors == bk.lit_priors.insert(
                small,
                bk.lit_priors[small].blended(reply.nibble, Speed::MED),
            )
            &&& coding.state is LiteralCountFirst ==> request.cdf == NibbleCdf::Learnt(
                bk.lit_priors[beg],
            ) && request.billing == BillingDesignation::LiteralCommand(
                LiteralSubstate::LiteralCountFirst,
            ) && after.lit_priors == bk.lit_priors.insert(
                beg,
                bk.lit_priors[beg].blended(reply.nibble, Speed::MUD),
            )
            &&& coding.state is LiteralCountLengthGreater14Less25 ==> request.cdf
                == NibbleCdf::Learnt(bk.lit_priors[last]) && request.billing
                == BillingDesignation::LiteralCommand(
                LiteralSubstate::LiteralCountLengthGreater14Less25,
            ) && after.lit_priors == bk.lit_priors.insert(
                last,
                bk.lit_priors[last].blended(reply.nibble, Speed::MUD),
            )
            &&& coding.state is LiteralCountMantissaNibbles ==> request.cdf == NibbleCdf::Learnt(
                bk.lit_priors[mantissa],
            ) && request.billing == BillingDesignation::LiteralCommand(
                LiteralSubstate::LiteralCountMantissaNibbles(0, 0),
            ) && after.lit_priors == bk.lit_priors.insert(
                mantissa,
                bk.lit_priors[mantissa].blended(reply.nibble, Speed::MUD),
            )
            &&& after == (BookKeepingView { lit_priors: after.lit_priors, ..bk })
        }),
{
}

/// A decoder offers zeros for the bytes that it does not know yet.
pub proof fn law_decoder_offers_zeros<C: CDF16, W: ModelWeights>(coding: Coding<C, W>, job: Job)
    requires
        !coding.state.counts(),
    ensures
        coding.request(job, DecoderSpecialization).offered == 0,
{
}

} // verus!
