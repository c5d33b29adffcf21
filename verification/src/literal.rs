//! Coding of literals, one nibble at a time.

use vstd::prelude::*;
use crate::bookkeeping::{
    law_bytes_are_digits, recent_byte, BookKeepingView, ByteContext, CrossCommandBookKeeping,
    CrossCommandState,
};
use crate::context::{lemma_mode_context_bound, select_context};
use crate::count::CountStep;
use crate::interface::{
    ArithmeticEncoderOrDecoder, BillingDesignation, BrotliResult, Buffers, CodecTraits, CoderEvent,
    EncoderOrDecoderSpecialization, LiteralCommand,
};
use crate::machine::{
    conversed, lemma_conversed_nothing, lemma_conversed_on, lemma_conversed_once,
    lemma_offered_is_nibble, lemma_took_step, low_32_bits, nibble_code_state, stands_at, took_step,
    Coding, Conversation, Job,
};
use crate::nibble::{last_reply, HalfByte};
use crate::priors::{LiteralContextPrior, LiteralNibblePrior};
use crate::probability::{
    CDF16, ExternalProbCDF16, ModelWeights, NibbleCdf, Prob, ProbRange, Speed, NIBBLE_VALUES,
};

verus! {

/// What is coded next.
#[derive(Copy, Clone, Debug, PartialEq, Eq, Hash, Structural)]
pub enum LiteralSubstate {
    Begin,
    LiteralCountSmall,
    LiteralCountFirst,
    LiteralCountLengthGreater14Less25,
    LiteralCountMantissaNibbles(u8, u32),
    LiteralNibbleIndex(u32),
    LiteralNibbleLowerHalf(u32),
    LiteralNibbleIndexWithECDF(u32),
    FullyDecoded,
}

/// A literal on its way through the coder: what was coded of it, and what comes next.
pub struct LiteralState {
    pub lc: LiteralCommand,
    pub state: LiteralSubstate,
}

/// Gathers what the bytes before the next one tell about it.
pub fn get_prev_word_context<C: CDF16, W>(
    bk: &CrossCommandBookKeeping<C, W>,
    ctraits: &CodecTraits,
) -> (context: ByteContext)
    requires
        ctraits.materialized_prediction_mode ==> bk@.map_index(bk@.table_context())
            < bk@.literal_context_map.len(),
    ensures
        context == bk@.byte_context(*ctraits),
        ({
            let reach: u8 = if bk.stride < 1 {
                1
            } else if bk.stride > 8 {
                8
            } else {
                bk.stride
            };
            let last = bk.last_8_literals / 0x100_0000_0000_0000;
            let second_last = bk.last_8_literals / 0x1_0000_0000_0000 % 0x100;
            let selected = bk.literal_lut0@[last as int] | bk.literal_lut1@[second_last as int];
            &&& context.stride_byte == recent_byte(bk.last_8_literals, reach)
            &&& context.actual_context == if ctraits.materialized_prediction_mode {
                bk.literal_context_map@[selected + 64 * bk.literal_block_type]
            } else {
                selected
            }
        }),
{
    proof {
        law_bytes_are_digits(bk.last_8_literals);
    }
    let stride_byte: u8 = bk.literal_back(bk.stride_reach());
    let prev_byte: u8 = bk.literal_back(1);
    let prev_prev_byte: u8 = bk.literal_back(2);
    let selected_context: u8 = bk.literal_lut0[prev_byte as usize]
        | bk.literal_lut1[prev_prev_byte as usize];
    let actual_context: u8 = if ctraits.materialized_prediction_mode {
        let cmap_index: usize = selected_context as usize + 64
            * bk.get_literal_block_type() as usize;
        bk.literal_context_map[cmap_index]
    } else {
        selected_context
    };
    ByteContext { actual_context, stride_byte }
}

impl LiteralState {
    /// Codes one half of a byte with what was learnt so far, and learns from it.
    pub fn code_nibble<C: CDF16, W: ModelWeights, A: ArithmeticEncoderOrDecoder<C>, S>(
        &mut self,
        high_nibble: bool,
        cur_nibble: u8,
        byte_context: ByteContext,
        cur_byte_prior: u8,
        ctraits: &CodecTraits,
        superstate: &mut CrossCommandState<C, W, A, S>,
    ) -> (coded: u8)
        requires
            old(superstate).bk.wf(),
            high_nibble || cur_byte_prior < NIBBLE_VALUES,
            old(superstate).coder.decoding() || cur_nibble < NIBBLE_VALUES,
        ensures
            *final(self) == *old(self),
            coded < NIBBLE_VALUES,
            !old(superstate).coder.decoding() ==> coded == cur_nibble,
            coded == last_reply(final(superstate).coder.history()).nibble,
            ({
                let half = HalfByte { high_nibble, byte_context, cur_byte_prior };
                let reply = last_reply(final(superstate).coder.history());
                &&& final(superstate).coder.history() == old(superstate).coder.history().push(
                    CoderEvent::Coded {
                        request: old(superstate).bk@.half_byte_request(
                            half,
                            *ctraits,
                            cur_nibble,
                        ),
                        reply,
                    },
                )
                &&& final(superstate).bk@ == old(superstate).bk@.learnt_by(half, *ctraits, reply)
            }),
            ({
                let bk = old(superstate).bk;
                let reply = last_reply(final(superstate).coder.history());
                let stride: u8 = if bk.stride < 7 {
                    bk.stride
                } else {
                    7
                };
                let main = if high_nibble {
                    LiteralNibblePrior::FirstNibble {
                        stride_byte: byte_context.stride_byte,
                        context: byte_context.actual_context,
                        stride,
                    }
                } else {
                    LiteralNibblePrior::SecondNibble {
                        stride_byte: byte_context.stride_byte,
                        high_nibble: cur_byte_prior,
                        stride,
                    }
                };
                let cm = if high_nibble {
                    LiteralContextPrior::FirstNibble { context: byte_context.actual_context }
                } else {
                    LiteralContextPrior::SecondNibble {
                        high_nibble: cur_byte_prior,
                        context: byte_context.actual_context,
                    }
                };
                let side: int = if high_nibble {
                    1
                } else {
                    0
                };
                let by_context = bk.lit_cm_priors@[cm];
                let by_stride = bk.lit_priors@[main];
                let weights = bk.model_weights@[side];
                let asked = final(superstate).coder.history().last()->request;
                &&& asked.offered == cur_nibble
                &&& asked.billing == BillingDesignation::LiteralCommand(
                    LiteralSubstate::LiteralNibbleIndex(side as u32),
                )
                &&& !ctraits.materialized_prediction_mode ==> asked.cdf == NibbleCdf::Learnt(
                    by_stride,
                )
                &&& ctraits.materialized_prediction_mode && !ctraits.combine_literal_predictions
                    ==> asked.cdf == NibbleCdf::Learnt(by_context)
                &&& ctraits.materialized_prediction_mode && ctraits.combine_literal_predictions
                    ==> asked.cdf == NibbleCdf::Learnt(
                    by_context.averaged(by_stride, weights.share() as u16 as i32),
                )
                &&& final(superstate).bk.lit_cm_priors@ == bk.lit_cm_priors@.insert(
                    cm,
                    by_context.blended(coded, Speed::GLACIAL),
                )
                &&& final(superstate).bk.lit_priors@ == bk.lit_priors@.insert(
                    main,
                    by_stride.blended(coded, bk.literal_adaptation),
                )
                &&& final(superstate).bk.model_weights@ == if ctraits.materialized_prediction_mode
                    && ctraits.combine_literal_predictions && ctraits.should_mix {
                    bk.model_weights@.update(
                        side,
                        weights.updated(
                            by_context.symbol_range(coded).range.freq,
                            by_stride.symbol_range(coded).range.freq,
                            reply.range.freq,
                        ),
                    )
                } else {
                    bk.model_weights@
                }
            }),
            final(superstate).bk.wf(),
            final(superstate).coder.decoding() == old(superstate).coder.decoding(),
            final(superstate).specialization == old(superstate).specialization,
    {
        let mut cur_nibble: u8 = cur_nibble;
        let stride: u8 = superstate.bk.stride_index();
        let nibble_prob = superstate.bk.lit_priors.get(
            if high_nibble {
                LiteralNibblePrior::FirstNibble {
                    stride_byte: byte_context.stride_byte,
                    context: byte_context.actual_context,
                    stride,
                }
            } else {
                LiteralNibblePrior::SecondNibble {
                    stride_byte: byte_context.stride_byte,
                    high_nibble: cur_byte_prior,
                    stride,
                }
            },
        );
        let cm_prob = superstate.bk.lit_cm_priors.get(
            if high_nibble {
                LiteralContextPrior::FirstNibble { context: byte_context.actual_context }
            } else {
                LiteralContextPrior::SecondNibble {
                    high_nibble: cur_byte_prior,
                    context: byte_context.actual_context,
                }
            },
        );
        let weights_index: usize = if high_nibble { 1 } else { 0 };
        let prob: C = if ctraits.materialized_prediction_mode {
            if ctraits.combine_literal_predictions {
                cm_prob.average(
                    nibble_prob,
                    superstate.bk.model_weights[weights_index].norm_weight() as u16 as i32,
                )
            } else {
                *cm_prob
            }
        } else {
            *nibble_prob
        };
        let weighted_prob_range: ProbRange = superstate.coder.get_or_put_nibble(
            &mut cur_nibble,
            &NibbleCdf::Learnt(prob),
            BillingDesignation::LiteralCommand(
                LiteralSubstate::LiteralNibbleIndex(if high_nibble { 1 } else { 0 }),
            ),
        );
        if ctraits.materialized_prediction_mode && ctraits.combine_literal_predictions
            && ctraits.should_mix {
            let model_probs: [Prob; 2] = [
                cm_prob.sym_to_start_and_freq(cur_nibble).range.freq,
                nibble_prob.sym_to_start_and_freq(cur_nibble).range.freq,
            ];
            superstate.bk.model_weights[weights_index].update(
                model_probs,
                weighted_prob_range.freq,
            );
        }
        nibble_prob.blend(cur_nibble, superstate.bk.literal_adaptation);
        cm_prob.blend(cur_nibble, Speed::GLACIAL);
        cur_nibble
    }

    /// Codes nibble `nibble_index` of a literal that came with bit probabilities,
    /// and learns from it. Where the probabilities do not reach the nibble, it
    /// is coded with what was learnt so far.
    pub fn code_nibble_with_ecdf<C: CDF16, W: ModelWeights, A: ArithmeticEncoderOrDecoder<C>, S>(
        &mut self,
        nibble_index: u32,
        cur_nibble: u8,
        cur_byte_prior: u8,
        superstate: &mut CrossCommandState<C, W, A, S>,
        in_cmd_prob_slice: &[u8],
    ) -> (coded: u8)
        requires
            old(superstate).bk.wf(),
            old(superstate).bk@.literal_prediction_mode.well_formed(),
            old(superstate).bk@.materialized_prediction_mode ==> old(superstate).bk@.map_index(
                old(superstate).bk@.mode_context(),
            ) < old(superstate).bk@.literal_context_map.len(),
            nibble_index % 2 == 0 || cur_byte_prior < NIBBLE_VALUES,
            old(superstate).coder.decoding() || cur_nibble < NIBBLE_VALUES,
        ensures
            *final(self) == *old(self),
            coded < NIBBLE_VALUES,
            !old(superstate).coder.decoding() ==> coded == cur_nibble,
            coded == last_reply(final(superstate).coder.history()).nibble,
            ({
                let half = HalfByte {
                    high_nibble: nibble_index % 2 == 0,
                    byte_context: old(superstate).bk@.mode_byte_context(),
                    cur_byte_prior,
                };
                let reply = last_reply(final(superstate).coder.history());
                &&& final(superstate).coder.history() == old(superstate).coder.history().push(
                    CoderEvent::Coded {
                        request: old(superstate).bk@.supplied_request(
                            half,
                            nibble_index,
                            in_cmd_prob_slice@,
                            cur_nibble,
                        ),
                        reply,
                    },
                )
                &&& final(superstate).bk@ == old(superstate).bk@.learnt_in_force(half, reply)
            }),
            ({
                let bk = old(superstate).bk;
                let reply = last_reply(final(superstate).coder.history());
                let stride: u8 = if bk.stride < 7 {
                    bk.stride
                } else {
                    7
                };
                let seen = bk@.mode_byte_context();
                let main = if nibble_index % 2 == 0 {
                    LiteralNibblePrior::FirstNibble {
                        stride_byte: seen.stride_byte,
                        context: seen.actual_context,
                        stride,
                    }
                } else {
                    LiteralNibblePrior::SecondNibble {
                        stride_byte: seen.stride_byte,
                        high_nibble: cur_byte_prior,
                        stride,
                    }
                };
                let cm = if nibble_index % 2 == 0 {
                    LiteralContextPrior::FirstNibble { context: seen.actual_context }
                } else {
                    LiteralContextPrior::SecondNibble {
                        high_nibble: cur_byte_prior,
                        context: seen.actual_context,
                    }
                };
                let side: int = 1 - nibble_index % 2;
                let first: int = 8 * (nibble_index / 2) + 4 * side;
                let by_context = bk.lit_cm_priors@[cm];
                let by_stride = bk.lit_priors@[main];
                let weights = bk.model_weights@[side];
                let asked = final(superstate).coder.history().last()->request;
                &&& asked.offered == cur_nibble
                &&& asked.billing == BillingDesignation::LiteralCommand(
                    LiteralSubstate::LiteralNibbleIndex(nibble_index % 2),
                )
                &&& first + 4 <= in_cmd_prob_slice@.len() ==> asked.cdf == NibbleCdf::External(
                    ExternalProbCDF16 {
                        nibble: cur_nibble,
                        probs: [
                            in_cmd_prob_slice@[first],
                            in_cmd_prob_slice@[first + 1],
                            in_cmd_prob_slice@[first + 2],
                            in_cmd_prob_slice@[first + 3],
                        ],
                        learnt: by_stride,
                    },
                )
                &&& first + 4 > in_cmd_prob_slice@.len() ==> asked.cdf == NibbleCdf::Learnt(
                    if !bk.materialized_prediction_mode {
                        by_stride
                    } else if !bk.combine_literal_predictions {
                        by_context
                    } else {
                        by_context.averaged(by_stride, weights.share() as u16 as i32)
                    },
                )
                &&& final(superstate).bk.lit_cm_priors@ == bk.lit_cm_priors@.insert(
                    cm,
                    by_context.blended(coded, Speed::GLACIAL),
                )
                &&& final(superstate).bk.lit_priors@ == bk.lit_priors@.insert(
                    main,
                    by_stride.blended(coded, bk.literal_adaptation),
                )
                &&& final(superstate).bk.model_weights@ == if bk.materialized_prediction_mode
                    && weights.adapts() {
                    bk.model_weights@.update(
                        side,
                        weights.updated(
                            by_context.symbol_range(coded).range.freq,
                            by_stride.symbol_range(coded).range.freq,
                            reply.range.freq,
                        ),
                    )
                } else {
                    bk.model_weights@
                }
            }),
            final(superstate).bk.wf(),
            final(superstate).coder.decoding() == old(superstate).coder.decoding(),
            final(superstate).specialization == old(superstate).specialization,
    {
        let mut cur_nibble: u8 = cur_nibble;
        let high_nibble: bool = nibble_index % 2 == 0;
        let stride: u8 = superstate.bk.stride_index();
        let stride_byte: u8 = superstate.bk.literal_back(superstate.bk.stride_reach());
        let prev_byte: u8 = superstate.bk.literal_back(1);
        let prev_prev_byte: u8 = superstate.bk.literal_back(2);
        let selected_context: u8 = select_context(
            superstate.bk.literal_prediction_mode,
            prev_byte,
            prev_prev_byte,
        );
        let materialized_prediction_mode: bool = superstate.bk.materialized_prediction_mode();
        let actual_context: u8 = if materialized_prediction_mode {
            let cmap_index: usize = selected_context as usize + 64
                * superstate.bk.get_literal_block_type() as usize;
            superstate.bk.literal_context_map[cmap_index]
        } else {
            selected_context
        };
        let nibble_prob = superstate.bk.lit_priors.get(
            if high_nibble {
                LiteralNibblePrior::FirstNibble { stride_byte, context: actual_context, stride }
            } else {
                LiteralNibblePrior::SecondNibble {
                    stride_byte,
                    high_nibble: cur_byte_prior,
                    stride,
                }
            },
        );
        let cm_prob = superstate.bk.lit_cm_priors.get(
            if high_nibble {
                LiteralContextPrior::FirstNibble { context: actual_context }
            } else {
                LiteralContextPrior::SecondNibble {
                    high_nibble: cur_byte_prior,
                    context: actual_context,
                }
            },
        );
        let weights_index: usize = if high_nibble { 1 } else { 0 };
        let prob: C = if materialized_prediction_mode {
            if superstate.bk.combine_literal_predictions {
                cm_prob.average(
                    nibble_prob,
                    superstate.bk.model_weights[weights_index].norm_weight() as u16 as i32,
                )
            } else {
                *cm_prob
            }
        } else {
            *nibble_prob
        };
        let shift_offset: u64 = if high_nibble { 4 } else { 0 };
        let start: u64 = (nibble_index as u64 / 2) * 8 + shift_offset;
        let cdf: NibbleCdf<C> = if start + 4 <= in_cmd_prob_slice.len() as u64 {
            let st: usize = start as usize;
            let probs: [u8; 4] = [
                in_cmd_prob_slice[st],
                in_cmd_prob_slice[st + 1],
                in_cmd_prob_slice[st + 2],
                in_cmd_prob_slice[st + 3],
            ];
            NibbleCdf::External(
                ExternalProbCDF16 { nibble: cur_nibble, probs, learnt: *nibble_prob },
            )
        } else {
            NibbleCdf::Learnt(prob)
        };
        let weighted_prob_range: ProbRange = superstate.coder.get_or_put_nibble(
            &mut cur_nibble,
            &cdf,
            BillingDesignation::LiteralCommand(
                LiteralSubstate::LiteralNibbleIndex(nibble_index % 2),
            ),
        );
        if materialized_prediction_mode && superstate.bk.model_weights[weights_index].should_mix() {
            let model_probs: [Prob; 2] = [
                cm_prob.sym_to_start_and_freq(cur_nibble).range.freq,
                nibble_prob.sym_to_start_and_freq(cur_nibble).range.freq,
            ];
            superstate.bk.model_weights[weights_index].update(
                model_probs,
                weighted_prob_range.freq,
            );
        }
        nibble_prob.blend(cur_nibble, superstate.bk.literal_adaptation);
        cm_prob.blend(cur_nibble, Speed::GLACIAL);
        cur_nibble
    }

    /// This literal as the machine sees it, with what was learnt.
    pub open spec fn coding<C, W>(&self, bk: BookKeepingView<C, W>) -> Coding<C, W> {
        Coding { data: self.lc.data@, state: self.state, bk }
    }

    /// The state in which nibble `index` of the command's literal is coded.
    pub fn get_nibble_code_state(&self, index: u32, in_cmd: &LiteralCommand) -> (state:
        LiteralSubstate)
        ensures
            state == nibble_code_state(index, in_cmd.prob@),
            in_cmd.prob@.len() == 0 ==> state == LiteralSubstate::LiteralNibbleIndex(index),
            in_cmd.prob@.len() > 0 ==> state == LiteralSubstate::LiteralNibbleIndexWithECDF(index),
    {
        if in_cmd.prob.len() == 0 {
            LiteralSubstate::LiteralNibbleIndex(index)
        } else {
            LiteralSubstate::LiteralNibbleIndexWithECDF(index)
        }
    }

    /// Codes one nibble of the literal's length.
    fn code_count_nibble<
        C: CDF16,
        W: ModelWeights,
        A: ArithmeticEncoderOrDecoder<C>,
        S: EncoderOrDecoderSpecialization,
    >(
        &mut self,
        in_cmd: &LiteralCommand,
        ctraits: &CodecTraits,
        superstate: &mut CrossCommandState<C, W, A, S>,
    ) -> (verdict: Option<BrotliResult>)
        requires
            old(superstate).bk.wf(),
            old(self).state.counts(),
            old(superstate).coder.decoding() || old(self).state.count_nibble_of(
                job_of(in_cmd, ctraits).literal_len(),
            ) < NIBBLE_VALUES,
        ensures
            took_step(
                old(self).coding(old(superstate).bk@),
                old(superstate).coder.history(),
                job_of(in_cmd, ctraits),
                old(superstate).specialization,
                old(superstate).coder.decoding(),
                final(self).coding(final(superstate).bk@),
                final(superstate).coder.history(),
                verdict,
            ),
            final(self).lc.prob == old(self).lc.prob,
            final(superstate).bk.wf(),
            final(superstate).coder.decoding() == old(superstate).coder.decoding(),
            final(superstate).specialization == old(superstate).specialization,
    {
        proof {
            reveal(took_step);
        }
        let literal_len: u32 = length_word(in_cmd.data.len());
        let state: LiteralSubstate = self.state;
        let mut nibble: u8 = state.offer_count_nibble(literal_len);
        let (prior, speed, billing) = state.count_model(superstate.bk.get_command_block_type());
        let nibble_prob = superstate.bk.lit_priors.get(prior);
        let cdf: NibbleCdf<C> = NibbleCdf::Learnt(*nibble_prob);
        superstate.coder.get_or_put_nibble(&mut nibble, &cdf, billing);
        nibble_prob.blend(nibble, speed);
        match state.take_count_nibble(nibble) {
            CountStep::Next(next) => {
                self.state = next;
                None
            },
            CountStep::Length(len) => {
                if len <= usize::MAX as u64 {
                    self.lc.data = zeroed(len as usize);
                    self.state = self.get_nibble_code_state(0, in_cmd);
                    None
                } else {
                    Some(BrotliResult::ResultFailure)
                }
            },
        }
    }

    /// Codes the low half of the byte whose high half was coded before the
    /// caller was sent for more.
    fn code_lower_half<
        C: CDF16,
        W: ModelWeights,
        A: ArithmeticEncoderOrDecoder<C>,
        S: EncoderOrDecoderSpecialization,
    >(
        &mut self,
        nibble_index: u32,
        in_cmd: &LiteralCommand,
        ctraits: &CodecTraits,
        superstate: &mut CrossCommandState<C, W, A, S>,
    ) -> (verdict: Option<BrotliResult>)
        requires
            old(superstate).bk.wf(),
            old(self).state == LiteralSubstate::LiteralNibbleLowerHalf(nibble_index),
            old(self).coding(old(superstate).bk@).can_run(
                job_of(in_cmd, ctraits),
                old(superstate).specialization,
                old(superstate).coder.decoding(),
            ),
        ensures
            took_step(
                old(self).coding(old(superstate).bk@),
                old(superstate).coder.history(),
                job_of(in_cmd, ctraits),
                old(superstate).specialization,
                old(superstate).coder.decoding(),
                final(self).coding(final(superstate).bk@),
                final(superstate).coder.history(),
                verdict,
            ),
            final(self).lc.prob == old(self).lc.prob,
            final(superstate).bk.wf(),
            final(superstate).coder.decoding() == old(superstate).coder.decoding(),
            final(superstate).specialization == old(superstate).specialization,
    {
        proof {
            reveal(took_step);
        }
        let byte_index: usize = (nibble_index / 2) as usize;
        let byte_to_encode_val: u8 = superstate.specialization.get_literal_byte(in_cmd, byte_index);
        let byte_context: ByteContext = get_prev_word_context(&superstate.bk, ctraits);
        let prior_nibble: u8 = self.lc.data[byte_index];
        let cur_nibble: u8 = self.code_nibble(
            false,
            byte_to_encode_val % 16,
            byte_context,
            prior_nibble / 16,
            ctraits,
            superstate,
        );
        let cur_byte: u8 = prior_nibble | cur_nibble;
        self.lc.data[byte_index] = cur_byte;
        superstate.bk.push_literal_byte(cur_byte);
        if byte_index + 1 == self.lc.data.len() {
            self.state = LiteralSubstate::FullyDecoded;
            Some(BrotliResult::ResultSuccess)
        } else if nibble_index < u32::MAX {
            self.state = LiteralSubstate::LiteralNibbleIndex(nibble_index + 1);
            None
        } else {
            Some(BrotliResult::ResultFailure)
        }
    }

    /// Codes one nibble of a literal that came with bit probabilities.
    fn code_ecdf_nibble<
        C: CDF16,
        W: ModelWeights,
        A: ArithmeticEncoderOrDecoder<C>,
        S: EncoderOrDecoderSpecialization,
    >(
        &mut self,
        nibble_index: u32,
        in_cmd: &LiteralCommand,
        ctraits: &CodecTraits,
        superstate: &mut CrossCommandState<C, W, A, S>,
    ) -> (verdict: Option<BrotliResult>)
        requires
            old(superstate).bk.wf(),
            old(self).state == LiteralSubstate::LiteralNibbleIndexWithECDF(nibble_index),
            old(self).coding(old(superstate).bk@).can_run(
                job_of(in_cmd, ctraits),
                old(superstate).specialization,
                old(superstate).coder.decoding(),
            ),
        ensures
            took_step(
                old(self).coding(old(superstate).bk@),
                old(superstate).coder.history(),
                job_of(in_cmd, ctraits),
                old(superstate).specialization,
                old(superstate).coder.decoding(),
                final(self).coding(final(superstate).bk@),
                final(superstate).coder.history(),
                verdict,
            ),
            final(self).lc.prob == old(self).lc.prob,
            final(superstate).bk.wf(),
            final(superstate).coder.decoding() == old(superstate).coder.decoding(),
            final(superstate).specialization == old(superstate).specialization,
    {
        proof {
            reveal(took_step);
        }
        superstate.bk.last_llen = length_word(self.lc.data.len());
        let byte_index: usize = (nibble_index / 2) as usize;
        let high_nibble: bool = nibble_index % 2 == 0;
        let byte_to_encode_val: u8 = superstate.specialization.get_literal_byte(in_cmd, byte_index);
        let offered: u8 = if high_nibble {
            byte_to_encode_val / 16
        } else {
            byte_to_encode_val % 16
        };
        let prior_nibble: u8 = self.lc.data[byte_index];
        proof {
            lemma_mode_context_bound(
                superstate.bk.literal_prediction_mode,
                recent_byte(superstate.bk.last_8_literals, 1),
                recent_byte(superstate.bk.last_8_literals, 2),
            );
        }
        let cur_nibble: u8 = self.code_nibble_with_ecdf(
            nibble_index,
            offered,
            prior_nibble / 16,
            superstate,
            in_cmd.prob.as_slice(),
        );
        let cur_byte: u8 = if high_nibble {
            16 * cur_nibble
        } else {
            prior_nibble | cur_nibble
        };
        self.lc.data[byte_index] = cur_byte;
        if !high_nibble {
            superstate.bk.push_literal_byte(cur_byte);
        }
        if nibble_index == u32::MAX {
            Some(BrotliResult::ResultFailure)
        } else if nibble_index + 1 == nibble_count(self.lc.data.len()) {
            self.state = LiteralSubstate::FullyDecoded;
            Some(BrotliResult::ResultSuccess)
        } else {
            self.state = LiteralSubstate::LiteralNibbleIndexWithECDF(nibble_index + 1);
            None
        }
    }

    /// Codes the high half of a byte, and leaves it to the caller to keep it.
    fn begin_byte<
        C: CDF16,
        W: ModelWeights,
        A: ArithmeticEncoderOrDecoder<C>,
        S: EncoderOrDecoderSpecialization,
    >(
        &mut self,
        nibble_index: u32,
        byte_to_encode_val: u8,
        byte_context: ByteContext,
        in_cmd: &LiteralCommand,
        ctraits: &CodecTraits,
        superstate: &mut CrossCommandState<C, W, A, S>,
    ) -> (cur_nibble: u8)
        requires
            old(superstate).bk.wf(),
            old(self).state == LiteralSubstate::LiteralNibbleIndex(nibble_index),
            nibble_index % 2 == 0,
            nibble_index / 2 < old(self).lc.data@.len(),
            byte_to_encode_val == old(superstate).specialization.literal_byte(
                in_cmd.data@,
                (nibble_index / 2) as int,
            ),
            byte_context == old(superstate).bk@.byte_context(*ctraits),
        ensures
            cur_nibble < NIBBLE_VALUES,
            *final(self) == *old(self),
            took_step(
                old(self).coding(old(superstate).bk@),
                old(superstate).coder.history(),
                job_of(in_cmd, ctraits),
                old(superstate).specialization,
                old(superstate).coder.decoding(),
                final(self).coding(final(superstate).bk@).with_high_half(nibble_index, cur_nibble),
                final(superstate).coder.history(),
                None,
            ),
            byte_context == final(superstate).bk@.byte_context(*ctraits),
            final(superstate).bk.wf(),
            final(superstate).coder.decoding() == old(superstate).coder.decoding(),
            final(superstate).specialization == old(superstate).specialization,
    {
        proof {
            reveal(took_step);
        }
        superstate.bk.last_llen = length_word(self.lc.data.len());
        self.code_nibble(true, byte_to_encode_val / 16, byte_context, 0, ctraits, superstate)
    }

    /// Codes the low half of a byte right after its high half, `cur_nibble`.
    fn finish_byte<
        C: CDF16,
        W: ModelWeights,
        A: ArithmeticEncoderOrDecoder<C>,
        S: EncoderOrDecoderSpecialization,
    >(
        &mut self,
        nibble_index: u32,
        cur_nibble: u8,
        byte_to_encode_val: u8,
        byte_context: ByteContext,
        in_cmd: &LiteralCommand,
        ctraits: &CodecTraits,
        superstate: &mut CrossCommandState<C, W, A, S>,
    ) -> (verdict: Option<BrotliResult>)
        requires
            old(superstate).bk.wf(),
            cur_nibble < NIBBLE_VALUES,
            nibble_index % 2 == 0,
            nibble_index / 2 < old(self).lc.data@.len(),
            byte_to_encode_val == old(superstate).specialization.literal_byte(
                in_cmd.data@,
                (nibble_index / 2) as int,
            ),
            byte_context == old(superstate).bk@.byte_context(*ctraits),
        ensures
            took_step(
                old(self).coding(old(superstate).bk@).with_high_half(nibble_index, cur_nibble),
                old(superstate).coder.history(),
                job_of(in_cmd, ctraits),
                old(superstate).specialization,
                old(superstate).coder.decoding(),
                final(self).coding(final(superstate).bk@),
                final(superstate).coder.history(),
                verdict,
            ),
            final(self).lc.prob == old(self).lc.prob,
            final(superstate).bk.wf(),
            final(superstate).coder.decoding() == old(superstate).coder.decoding(),
            final(superstate).specialization == old(superstate).specialization,
    {
        proof {
            reveal(took_step);
        }
        let ghost between = self.coding(superstate.bk@).with_high_half(nibble_index, cur_nibble);
        let byte_index: usize = (nibble_index / 2) as usize;
        let low_nibble: u8 = self.code_nibble(
            false,
            byte_to_encode_val % 16,
            byte_context,
            cur_nibble,
            ctraits,
            superstate,
        );
        let cur_byte: u8 = (16 * cur_nibble) | low_nibble;
        self.lc.data[byte_index] = cur_byte;
        superstate.bk.push_literal_byte(cur_byte);
        assert(self.lc.data@ == between.data.update(byte_index as int, cur_byte));
        if byte_index + 1 == self.lc.data.len() {
            self.state = LiteralSubstate::FullyDecoded;
            Some(BrotliResult::ResultSuccess)
        } else if nibble_index < u32::MAX - 1 {
            self.state = LiteralSubstate::LiteralNibbleIndex(nibble_index + 2);
            None
        } else {
            self.state = LiteralSubstate::LiteralNibbleLowerHalf(nibble_index + 1);
            Some(BrotliResult::ResultFailure)
        }
    }

    /// Codes a whole byte, unless the coder needs the caller between its halves.
    fn code_byte<
        C: CDF16,
        W: ModelWeights,
        A: ArithmeticEncoderOrDecoder<C>,
        S: EncoderOrDecoderSpecialization,
    >(
        &mut self,
        nibble_index: u32,
        superstate: &mut CrossCommandState<C, W, A, S>,
        in_cmd: &LiteralCommand,
        input_bytes: &[u8],
        input_offset: &mut usize,
        output_bytes: &mut [u8],
        output_offset: &mut usize,
        ctraits: &CodecTraits,
    ) -> (verdict: Option<BrotliResult>)
        requires
            old(superstate).bk.wf(),
            old(self).state == LiteralSubstate::LiteralNibbleIndex(nibble_index),
            old(self).coding(old(superstate).bk@).can_run(
                job_of(in_cmd, ctraits),
                old(superstate).specialization,
                old(superstate).coder.decoding(),
            ),
        ensures
            conversed(
                Conversation::AwaitingNibble {
                    coding: old(self).coding(old(superstate).bk@),
                    io: Buffers {
                        input: input_bytes@,
                        input_offset: *old(input_offset),
                        output: old(output_bytes)@,
                        output_offset: *old(output_offset),
                    },
                },
                old(superstate).coder.history(),
                job_of(in_cmd, ctraits),
                old(superstate).specialization,
                old(superstate).coder.decoding(),
                stands_at(
                    final(self).coding(final(superstate).bk@),
                    Buffers {
                        input: input_bytes@,
                        input_offset: *final(input_offset),
                        output: final(output_bytes)@,
                        output_offset: *final(output_offset),
                    },
                    verdict,
                ),
                final(superstate).coder.history(),
            ),
            final(self).coding(final(superstate).bk@).can_run(
                job_of(in_cmd, ctraits),
                old(superstate).specialization,
                old(superstate).coder.decoding(),
            ),
            verdict is None ==> final(self).coding(final(superstate).bk@).closer_than(
                old(self).coding(old(superstate).bk@),
            ),
            final(self).lc.prob == old(self).lc.prob,
            final(superstate).bk.wf(),
            final(superstate).coder.decoding() == old(superstate).coder.decoding(),
            final(superstate).specialization == old(superstate).specialization,
    {
        let ghost job = job_of(in_cmd, ctraits);
        let ghost source = superstate.specialization;
        let ghost decoding = superstate.coder.decoding();
        let ghost before = self.coding(superstate.bk@);
        let ghost io = Buffers {
            input: input_bytes@,
            input_offset: *input_offset,
            output: output_bytes@,
            output_offset: *output_offset,
        };
        let ghost history = superstate.coder.history();
        let byte_index: usize = (nibble_index / 2) as usize;
        let byte_to_encode_val: u8 = superstate.specialization.get_literal_byte(in_cmd, byte_index);
        let byte_context: ByteContext = get_prev_word_context(&superstate.bk, ctraits);
        let cur_nibble: u8 = self.begin_byte(
            nibble_index,
            byte_to_encode_val,
            byte_context,
            in_cmd,
            ctraits,
            superstate,
        );
        let ghost between = self.coding(superstate.bk@).with_high_half(nibble_index, cur_nibble);
        let ghost high_history = superstate.coder.history();
        proof {
            lemma_took_step(
                before,
                history,
                job,
                source,
                decoding,
                between,
                high_history,
                None,
                io,
            );
        }
        let refilled: BrotliResult = superstate.coder.drain_or_fill_internal_buffer(
            input_bytes,
            input_offset,
            output_bytes,
            output_offset,
        );
        let ghost refilled_io = Buffers {
            input: input_bytes@,
            input_offset: *input_offset,
            output: output_bytes@,
            output_offset: *output_offset,
        };
        let ghost refilled_history = superstate.coder.history();
        let ghost drained = Conversation::AwaitingDrain { coding: between, io }.next(
            job,
            source,
            refilled_history.last(),
        );
        proof {
            lemma_conversed_once(
                Conversation::AwaitingDrain { coding: between, io },
                high_history,
                job,
                source,
                decoding,
                refilled_history.last(),
            );
            lemma_conversed_on(
                Conversation::AwaitingNibble { coding: before, io },
                history,
                job,
                source,
                decoding,
                Conversation::AwaitingDrain { coding: between, io },
                high_history,
                drained,
                refilled_history,
            );
        }
        match refilled {
            BrotliResult::ResultSuccess => {},
            need_something => {
                return Some(self.fallback_byte_encode(cur_nibble, nibble_index, need_something));
            },
        }
        let verdict: Option<BrotliResult> = self.finish_byte(
            nibble_index,
            cur_nibble,
            byte_to_encode_val,
            byte_context,
            in_cmd,
            ctraits,
            superstate,
        );
        proof {
            let after = self.coding(superstate.bk@);
            let low_history = superstate.coder.history();
            lemma_took_step(
                between,
                refilled_history,
                job,
                source,
                decoding,
                after,
                low_history,
                verdict,
                refilled_io,
            );
            lemma_conversed_on(
                Conversation::AwaitingNibble { coding: before, io },
                history,
                job,
                source,
                decoding,
                Conversation::AwaitingNibble { coding: between, io: refilled_io },
                refilled_history,
                stands_at(after, refilled_io, verdict),
                low_history,
            );
        }
        verdict
    }

    /// Codes the literal of `in_cmd` from where it stands, until it is done or
    /// the coder needs the caller.
    ///
    /// With an encoder the literal of the command is put. With a decoder the
    /// literal that is read builds up in `lc`. Called again with the same
    /// command, the coding goes on where it stopped.
    pub fn encode_or_decode<
        C: CDF16,
        W: ModelWeights,
        A: ArithmeticEncoderOrDecoder<C>,
        S: EncoderOrDecoderSpecialization,
    >(
        &mut self,
        superstate: &mut CrossCommandState<C, W, A, S>,
        in_cmd: &LiteralCommand,
        input_bytes: &[u8],
        input_offset: &mut usize,
        output_bytes: &mut [u8],
        output_offset: &mut usize,
        ctraits: &CodecTraits,
    ) -> (result: BrotliResult)
        requires
            old(superstate).bk.wf(),
            old(self).coding(old(superstate).bk@).can_run(
                job_of(in_cmd, ctraits),
                old(superstate).specialization,
                old(superstate).coder.decoding(),
            ),
        ensures
            conversed(
                Conversation::AwaitingDrain {
                    coding: old(self).coding(old(superstate).bk@),
                    io: Buffers {
                        input: input_bytes@,
                        input_offset: *old(input_offset),
                        output: old(output_bytes)@,
                        output_offset: *old(output_offset),
                    },
                },
                old(superstate).coder.history(),
                job_of(in_cmd, ctraits),
                old(superstate).specialization,
                old(superstate).coder.decoding(),
                Conversation::Finished {
                    coding: final(self).coding(final(superstate).bk@),
                    io: Buffers {
                        input: input_bytes@,
                        input_offset: *final(input_offset),
                        output: final(output_bytes)@,
                        output_offset: *final(output_offset),
                    },
                    result,
                },
                final(superstate).coder.history(),
            ),
            final(self).coding(final(superstate).bk@).can_run(
                job_of(in_cmd, ctraits),
                old(superstate).specialization,
                old(superstate).coder.decoding(),
            ),
            final(self).lc.prob == old(self).lc.prob,
            final(superstate).bk.wf(),
            final(superstate).coder.decoding() == old(superstate).coder.decoding(),
            final(superstate).specialization == old(superstate).specialization,
    {
        let ghost job = job_of(in_cmd, ctraits);
        let ghost source = superstate.specialization;
        let ghost decoding = superstate.coder.decoding();
        let ghost earlier = superstate.coder.history();
        let ghost start = Conversation::AwaitingDrain {
            coding: self.coding(superstate.bk@),
            io: Buffers {
                input: input_bytes@,
                input_offset: *input_offset,
                output: output_bytes@,
                output_offset: *output_offset,
            },
        };
        proof {
            lemma_conversed_nothing(start, earlier, job, source, decoding);
        }
        loop
            invariant
                job == job_of(in_cmd, ctraits),
                superstate.bk.wf(),
                superstate.specialization == source,
                superstate.coder.decoding() == decoding,
                conversed(
                    start,
                    earlier,
                    job,
                    source,
                    decoding,
                    Conversation::AwaitingDrain {
                        coding: self.coding(superstate.bk@),
                        io: Buffers {
                            input: input_bytes@,
                            input_offset: *input_offset,
                            output: output_bytes@,
                            output_offset: *output_offset,
                        },
                    },
                    superstate.coder.history(),
                ),
                self.coding(superstate.bk@).can_run(job, source, decoding),
                self.lc.prob == old(self).lc.prob,
                source == old(superstate).specialization,
                decoding == old(superstate).coder.decoding(),
                earlier == old(superstate).coder.history(),
                start == (Conversation::AwaitingDrain {
                    coding: old(self).coding(old(superstate).bk@),
                    io: Buffers {
                        input: input_bytes@,
                        input_offset: *old(input_offset),
                        output: old(output_bytes)@,
                        output_offset: *old(output_offset),
                    },
                }),
            decreases
                self.coding(superstate.bk@).phases_left(),
                self.coding(superstate.bk@).left_in_phase(),
        {
            let ghost before = self.coding(superstate.bk@);
            let ghost waiting = Conversation::AwaitingDrain {
                coding: before,
                io: Buffers {
                    input: input_bytes@,
                    input_offset: *input_offset,
                    output: output_bytes@,
                    output_offset: *output_offset,
                },
            };
            let ghost history = superstate.coder.history();
            let drained: BrotliResult = superstate.coder.drain_or_fill_internal_buffer(
                input_bytes,
                input_offset,
                output_bytes,
                output_offset,
            );
            let ghost io = Buffers {
                input: input_bytes@,
                input_offset: *input_offset,
                output: output_bytes@,
                output_offset: *output_offset,
            };
            let ghost drained_history = superstate.coder.history();
            let ghost answered = waiting.next(job, source, drained_history.last());
            proof {
                lemma_conversed_once(
                    waiting,
                    history,
                    job,
                    source,
                    decoding,
                    drained_history.last(),
                );
                lemma_conversed_on(
                    start,
                    earlier,
                    job,
                    source,
                    decoding,
                    waiting,
                    history,
                    answered,
                    drained_history,
                );
            }
            match drained {
                BrotliResult::ResultSuccess => {},
                need_something => {
                    return need_something;
                },
            }
            let verdict: Option<BrotliResult> = match self.state {
                LiteralSubstate::Begin => {
                    self.state = LiteralSubstate::LiteralCountSmall;
                    continue;
                },
                LiteralSubstate::FullyDecoded => {
                    return BrotliResult::ResultSuccess;
                },
                LiteralSubstate::LiteralNibbleIndex(nibble_index) => {
                    self.code_byte(
                        nibble_index,
                        superstate,
                        in_cmd,
                        input_bytes,
                        input_offset,
                        output_bytes,
                        output_offset,
                        ctraits,
                    )
                },
                LiteralSubstate::LiteralNibbleLowerHalf(nibble_index) => {
                    let verdict: Option<BrotliResult> = self.code_lower_half(
                        nibble_index,
                        in_cmd,
                        ctraits,
                        superstate,
                    );
                    proof {
                        lemma_took_step(
                            before,
                            drained_history,
                            job,
                            source,
                            decoding,
                            self.coding(superstate.bk@),
                            superstate.coder.history(),
                            verdict,
                            io,
                        );
                    }
                    verdict
                },
                LiteralSubstate::LiteralNibbleIndexWithECDF(nibble_index) => {
                    let verdict: Option<BrotliResult> = self.code_ecdf_nibble(
                        nibble_index,
                        in_cmd,
                        ctraits,
                        superstate,
                    );
                    proof {
                        lemma_took_step(
                            before,
                            drained_history,
                            job,
                            source,
                            decoding,
                            self.coding(superstate.bk@),
                            superstate.coder.history(),
                            verdict,
                            io,
                        );
                    }
                    verdict
                },
                _ => {
                    proof {
                        if !decoding {
                            lemma_offered_is_nibble(before, job, source);
                        }
                    }
                    let verdict: Option<BrotliResult> = self.code_count_nibble(
                        in_cmd,
                        ctraits,
                        superstate,
                    );
                    proof {
                        lemma_took_step(
                            before,
                            drained_history,
                            job,
                            source,
                            decoding,
                            self.coding(superstate.bk@),
                            superstate.coder.history(),
                            verdict,
                            io,
                        );
                    }
                    verdict
                },
            };
            proof {
                let reached = stands_at(
                    self.coding(superstate.bk@),
                    Buffers {
                        input: input_bytes@,
                        input_offset: *input_offset,
                        output: output_bytes@,
                        output_offset: *output_offset,
                    },
                    verdict,
                );
                lemma_conversed_on(
                    start,
                    earlier,
                    job,
                    source,
                    decoding,
                    answered,
                    drained_history,
                    reached,
                    superstate.coder.history(),
                );
            }
            if let Some(result) = verdict {
                return result;
            }
        }
    }

    /// Keeps a high half for later, and hands on why its low half has to wait.
    fn fallback_byte_encode(
        &mut self,
        cur_nibble: u8,
        nibble_index: u32,
        res: BrotliResult,
    ) -> (result: BrotliResult)
        requires
            nibble_index / 2 < old(self).lc.data@.len(),
            nibble_index < u32::MAX,
        ensures
            result == res,
            final(self).lc.data@ == old(self).lc.data@.update(
                (nibble_index / 2) as int,
                ((16 * cur_nibble) % 256) as u8,
            ),
            final(self).lc.prob == old(self).lc.prob,
            final(self).state == LiteralSubstate::LiteralNibbleLowerHalf((nibble_index + 1) as u32),
    {
        assert(cur_nibble << 4u8 == (16 * cur_nibble) % 256) by (bit_vector);
        self.lc.data[(nibble_index / 2) as usize] = cur_nibble << 4u8;
        self.state = LiteralSubstate::LiteralNibbleLowerHalf(nibble_index + 1);
        res
    }
}

/// The job that a command and the models in use make up.
pub open spec fn job_of(in_cmd: &LiteralCommand, ctraits: &CodecTraits) -> Job {
    Job { literal: in_cmd.data@, prob: in_cmd.prob@, traits: *ctraits }
}

/// The length `len` in the width that lengths are kept in.
fn length_word(len: usize) -> (word: u32)
    ensures
        word == low_32_bits(len as nat),
{
    let len: u64 = len as u64;
    assert(len as u32 == len % 0x1_0000_0000) by (bit_vector);
    #[verifier::truncate]
    (len as u32)
}

/// The number of nibbles in `len` bytes, in the width that nibbles are counted in.
fn nibble_count(len: usize) -> (count: u32)
    ensures
        count == low_32_bits(2 * len as nat),
{
    let len: u64 = len as u64;
    assert((len << 1u64) as u32 as int == (2 * len) % 0x1_0000_0000) by (bit_vector);
    #[verifier::truncate]
    ((len << 1u64) as u32)
}

/// Room for `len` bytes.
fn zeroed(len: usize) -> (bytes: Vec<u8>)
    ensures
        bytes@ == Seq::new(len as nat, |i: int| 0u8),
{
    vec![0u8; len]
}

} // verus!
