//! How one nibble of a literal is predicted, and what is learnt from it.

use vstd::prelude::*;
use crate::bookkeeping::{BookKeepingView, ByteContext};
use crate::interface::{BillingDesignation, CodecTraits, CoderEvent, NibbleReply, NibbleRequest};
use crate::literal::LiteralSubstate;
use crate::priors::{LiteralContextPrior, LiteralNibblePrior};
use crate::probability::{CDF16, ExternalProbCDF16, ModelWeights, NibbleCdf, Speed};

verus! {

/// The reply of the coder's last call, which coded a nibble.
pub open spec fn last_reply<C>(history: Seq<CoderEvent<C>>) -> NibbleReply {
    history.last()->reply
}

/// One half of a byte, and what is known of the byte.
#[verifier::ext_equal]
pub struct HalfByte {
    /// Whether it is the high half.
    pub high_nibble: bool,
    pub byte_context: ByteContext,
    /// The high half, where the low one is at hand.
    pub cur_byte_prior: u8,
}

impl HalfByte {
    /// The entry of the main table for this half.
    pub open spec fn stride_prior(self, stride_slot: u8) -> LiteralNibblePrior {
        if self.high_nibble {
            LiteralNibblePrior::FirstNibble {
                stride_byte: self.byte_context.stride_byte,
                context: self.byte_context.actual_context,
                stride: stride_slot,
            }
        } else {
            LiteralNibblePrior::SecondNibble {
                stride_byte: self.byte_context.stride_byte,
                high_nibble: self.cur_byte_prior,
                stride: stride_slot,
            }
        }
    }

    /// The entry of the context table for this half.
    pub open spec fn context_prior(self) -> LiteralContextPrior {
        if self.high_nibble {
            LiteralContextPrior::FirstNibble { context: self.byte_context.actual_context }
        } else {
            LiteralContextPrior::SecondNibble {
                high_nibble: self.cur_byte_prior,
                context: self.byte_context.actual_context,
            }
        }
    }

    /// The place of the weights for this half.
    pub open spec fn weights_index(self) -> int {
        if self.high_nibble {
            1
        } else {
            0
        }
    }
}

impl<C: CDF16, W: ModelWeights> BookKeepingView<C, W> {
    /// What the stride model expects of `half`.
    pub open spec fn stride_cdf(self, half: HalfByte) -> C {
        self.lit_priors[half.stride_prior(self.stride_slot())]
    }

    /// What the context model expects of `half`.
    pub open spec fn context_cdf(self, half: HalfByte) -> C {
        self.lit_cm_priors[half.context_prior()]
    }

    /// The learnt distribution of `half`: that of the stride model without a
    /// context map, and with one that of the context model, alone or mixed.
    pub open spec fn learnt_cdf(self, half: HalfByte, materialized: bool, combined: bool) -> C {
        if !materialized {
            self.stride_cdf(half)
        } else if !combined {
            self.context_cdf(half)
        } else {
            self.context_cdf(half).averaged(
                self.stride_cdf(half),
                self.model_weights[half.weights_index()].share() as u16 as i32,
            )
        }
    }

    /// What the coder is asked to do with `half` by code that is specialised for `traits`.
    pub open spec fn half_byte_request(
        self,
        half: HalfByte,
        traits: CodecTraits,
        offered: u8,
    ) -> NibbleRequest<C> {
        NibbleRequest {
            offered,
            cdf: NibbleCdf::Learnt(
                self.learnt_cdf(
                    half,
                    traits.materialized_prediction_mode,
                    traits.combine_literal_predictions,
                ),
            ),
            billing: BillingDesignation::LiteralCommand(
                LiteralSubstate::LiteralNibbleIndex(if half.high_nibble { 1 } else { 0 }),
            ),
        }
    }

    /// What the coder is asked to do with `half`, nibble `nibble_index` of a
    /// literal that came with the bit probabilities `prob`.
    pub open spec fn supplied_request(
        self,
        half: HalfByte,
        nibble_index: u32,
        prob: Seq<u8>,
        offered: u8,
    ) -> NibbleRequest<C> {
        NibbleRequest {
            offered,
            cdf: supplied_or(
                nibble_index,
                offered,
                prob,
                self.stride_cdf(half),
                self.learnt_cdf(
                    half,
                    self.materialized_prediction_mode,
                    self.combine_literal_predictions,
                ),
            ),
            billing: BillingDesignation::LiteralCommand(
                LiteralSubstate::LiteralNibbleIndex(nibble_index % 2),
            ),
        }
    }

    /// The state once `half` was coded. Both models move towards the nibble,
    /// and where `mixes` the weights are updated by how well each did.
    pub open spec fn learnt(self, half: HalfByte, mixes: bool, reply: NibbleReply) -> Self {
        let stride_cdf = self.stride_cdf(half);
        let context_cdf = self.context_cdf(half);
        let weights = self.model_weights[half.weights_index()].updated(
            context_cdf.symbol_range(reply.nibble).range.freq,
            stride_cdf.symbol_range(reply.nibble).range.freq,
            reply.range.freq,
        );
        BookKeepingView {
            model_weights: if mixes {
                self.model_weights.update(half.weights_index(), weights)
            } else {
                self.model_weights
            },
            lit_priors: self.lit_priors.insert(
                half.stride_prior(self.stride_slot()),
                stride_cdf.blended(reply.nibble, self.literal_adaptation),
            ),
            lit_cm_priors: self.lit_cm_priors.insert(
                half.context_prior(),
                context_cdf.blended(reply.nibble, Speed::GLACIAL),
            ),
            ..self
        }
    }

    /// The state once `half` was coded by code that is specialised for `traits`.
    pub open spec fn learnt_by(
        self,
        half: HalfByte,
        traits: CodecTraits,
        reply: NibbleReply,
    ) -> Self {
        self.learnt(
            half,
            traits.materialized_prediction_mode && traits.combine_literal_predictions
                && traits.should_mix,
            reply,
        )
    }

    /// The state once `half` was coded by code that consults the settings in force.
    pub open spec fn learnt_in_force(self, half: HalfByte, reply: NibbleReply) -> Self {
        self.learnt(
            half,
            self.materialized_prediction_mode
                && self.model_weights[half.weights_index()].adapts(),
            reply,
        )
    }
}

/// The place of a nibble's four bit probabilities: those of a low half come first.
pub open spec fn bit_probabilities_start(nibble_index: u32) -> int {
    8 * (nibble_index / 2) + (if nibble_index % 2 == 0 { 4int } else { 0int })
}

/// The distribution of nibble `nibble_index`: the one supplied with the literal,
/// or `learnt` where there is none.
pub open spec fn supplied_or<C>(
    nibble_index: u32,
    cur_nibble: u8,
    prob: Seq<u8>,
    stride_cdf: C,
    learnt: C,
) -> NibbleCdf<C> {
    let start = bit_probabilities_start(nibble_index);
    if start + 4 <= prob.len() {
        NibbleCdf::External(
            ExternalProbCDF16 {
                nibble: cur_nibble,
                probs: [prob[start], prob[start + 1], prob[start + 2], prob[start + 3]],
                learnt: stride_cdf,
            },
        )
    } else {
        NibbleCdf::Learnt(learnt)
    }
}

} // verus!
