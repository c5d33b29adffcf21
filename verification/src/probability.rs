//! Adaptive nibble distributions and the weights that mix two of them.

use vstd::prelude::*;

verus! {

/// A probability, or the width of a probability range, in the coder's fixed point.
pub type Prob = i16;

/// The number of values of a nibble.
pub const NIBBLE_VALUES: u8 = 16;

/// How fast a distribution converges on the symbols that it is shown.
///
/// Three rates are fixed by the format. A stream may tune the rate of its
/// literals: the increment given to a symbol, and the limit at which the
/// counts are halved.
#[derive(Copy, Clone, Debug, PartialEq, Eq, Structural)]
pub enum Speed {
    GLACIAL,
    MUD,
    MED,
    Tuned { inc: i16, lim: i16 },
}

/// The part of the unit interval that belongs to one symbol.
#[derive(Copy, Clone, Debug, PartialEq, Eq, Structural)]
pub struct ProbRange {
    pub start: Prob,
    pub freq: Prob,
}

/// A symbol's range, as a distribution reports it.
#[derive(Copy, Clone, Debug, PartialEq, Eq, Structural)]
pub struct SymStartFreq {
    pub range: ProbRange,
    pub sym: u8,
}

/// A distribution over the sixteen values of a nibble.
///
/// The three specification functions only name what the three methods compute,
/// so every contract of this crate holds for any distribution whose methods
/// depend on their arguments alone.
pub trait CDF16: Copy + Sized {
    /// The distribution after `symbol` was seen.
    spec fn blended(self, symbol: u8, speed: Speed) -> Self;

    /// The mix of two distributions.
    spec fn averaged(self, other: Self, mix_rate: i32) -> Self;

    /// The range of `symbol`.
    spec fn symbol_range(self, symbol: u8) -> SymStartFreq;

    /// Moves the distribution towards `symbol`.
    fn blend(&mut self, symbol: u8, speed: Speed)
        requires
            symbol < NIBBLE_VALUES,
        ensures
            *final(self) == old(self).blended(symbol, speed),
    ;

    /// Mixes `self` and `other`.
    fn average(&self, other: &Self, mix_rate: i32) -> (mixed: Self)
        ensures
            mixed == self.averaged(*other, mix_rate),
    ;

    /// Looks up the range of `sym`.
    fn sym_to_start_and_freq(&self, sym: u8) -> (found: SymStartFreq)
        requires
            sym < NIBBLE_VALUES,
        ensures
            found == self.symbol_range(sym),
    ;
}

/// The weights by which the context model and the stride model are mixed.
///
/// As with [`CDF16`], the specification functions name what the methods compute.
pub trait ModelWeights: Sized {
    /// The share of the context model.
    spec fn share(&self) -> Prob;

    /// Whether the weights adapt.
    spec fn adapts(&self) -> bool;

    /// The weights after a symbol to which the context model gave `context_freq`,
    /// the stride model `stride_freq` and the mix `weighted_freq`.
    spec fn updated(&self, context_freq: Prob, stride_freq: Prob, weighted_freq: Prob) -> Self;

    /// The share of the context model.
    fn norm_weight(&self) -> (weight: Prob)
        ensures
            weight == self.share(),
    ;

    /// Whether the weights adapt.
    fn should_mix(&self) -> (adapts: bool)
        ensures
            adapts == self.adapts(),
    ;

    /// Rewards the model that predicted the last symbol better.
    fn update(&mut self, model_probs: [Prob; 2], weighted_prob: Prob)
        ensures
            *final(self) == old(self).updated(model_probs@[0], model_probs@[1], weighted_prob),
    ;
}

/// A distribution that was supplied with the literal instead of being learnt:
/// the nibble at hand, its four bit probabilities, and the learnt
/// distribution to lean on.
#[derive(Copy, Clone, Debug)]
pub struct ExternalProbCDF16<C> {
    pub nibble: u8,
    pub probs: [u8; 4],
    pub learnt: C,
}

/// The distribution that a nibble is coded with.
#[derive(Copy, Clone, Debug)]
pub enum NibbleCdf<C> {
    Learnt(C),
    External(ExternalProbCDF16<C>),
}

} // verus!
