use literal_codec::bookkeeping::{ByteContext, CrossCommandBookKeeping, CrossCommandState};
use literal_codec::context::{
    select_context, signed_3_bit_context, utf8_last_byte_context, utf8_second_last_byte_context,
};
use literal_codec::interface::{
    ArithmeticEncoderOrDecoder, BillingDesignation, BrotliResult, CodecTraits, CoderHistory,
    DecoderSpecialization, EncoderOrDecoderSpecialization, EncoderSpecialization, LiteralCommand,
    LiteralPredictionModeNibble, LITERAL_PREDICTION_MODE_LSB6, LITERAL_PREDICTION_MODE_MSB6,
    LITERAL_PREDICTION_MODE_SIGN, LITERAL_PREDICTION_MODE_UTF8,
};
use literal_codec::literal::{get_prev_word_context, LiteralState, LiteralSubstate};
use literal_codec::plain::{FixedWeights, PlainDecoder, PlainEncoder, UniformCDF16};
use literal_codec::priors::{
    LiteralCommandPriors, LiteralCommandPriorsCM, LiteralContextPrior, LiteralNibblePrior,
};
use literal_codec::probability::{
    CDF16, ExternalProbCDF16, ModelWeights, NibbleCdf, Prob, ProbRange, Speed, SymStartFreq,
};

/// A distribution that remembers what it was told.
#[derive(Copy, Clone, Debug, PartialEq, Eq)]
struct Diary {
    symbols: u64,
    mixed: i32,
    glacial: bool,
}

const BLANK: Diary = Diary { symbols: 1, mixed: 0, glacial: false };

impl CDF16 for Diary {
    fn blended(self, _symbol: u8, _speed: Speed) -> Self {
        unreachable!()
    }

    fn averaged(self, _other: Self, _mix_rate: i32) -> Self {
        unreachable!()
    }

    fn symbol_range(self, _symbol: u8) -> SymStartFreq {
        unreachable!()
    }

    fn blend(&mut self, symbol: u8, speed: Speed) {
        self.symbols = self.symbols.wrapping_mul(16) + symbol as u64;
        self.glacial = speed == Speed::GLACIAL;
    }

    fn average(&self, other: &Self, mix_rate: i32) -> Self {
        Diary { symbols: self.symbols ^ other.symbols.wrapping_mul(3), mixed: mix_rate, glacial: false }
    }

    fn sym_to_start_and_freq(&self, sym: u8) -> SymStartFreq {
        let freq = (self.symbols % 1000) as i16 + sym as i16;
        SymStartFreq { range: ProbRange { start: 0, freq }, sym }
    }
}

/// Weights that remember their last update.
#[derive(Copy, Clone, Debug, PartialEq, Eq)]
struct Scales {
    share: Prob,
    adapt: bool,
    told: (Prob, Prob, Prob),
}

impl ModelWeights for Scales {
    fn share(&self) -> Prob {
        unreachable!()
    }

    fn adapts(&self) -> bool {
        unreachable!()
    }

    fn updated(&self, _context_freq: Prob, _stride_freq: Prob, _weighted_freq: Prob) -> Self {
        unreachable!()
    }

    fn norm_weight(&self) -> Prob {
        self.share
    }

    fn should_mix(&self) -> bool {
        self.adapt
    }

    fn update(&mut self, model_probs: [Prob; 2], weighted_prob: Prob) {
        self.told = (model_probs[0], model_probs[1], weighted_prob);
    }
}

#[derive(Clone, Debug, PartialEq, Eq)]
enum Seen {
    Learnt(Diary),
    External(u8, [u8; 4], Diary),
}

/// A coder that follows a script and keeps a record.
struct Script {
    decoding: bool,
    replies: Vec<u8>,
    drains: Vec<BrotliResult>,
    record: Vec<(u8, Seen, BillingDesignation, u8)>,
    drained: usize,
    /// Whether ranges follow from the distributions.
    ranged: bool,
}

impl ArithmeticEncoderOrDecoder<Diary> for Script {
    fn history(&self) -> CoderHistory<Diary> {
        unreachable!()
    }

    fn decoding(&self) -> bool {
        unreachable!()
    }

    fn get_or_put_nibble(
        &mut self,
        nibble: &mut u8,
        prob: &NibbleCdf<Diary>,
        billing: BillingDesignation,
    ) -> ProbRange {
        let offered = *nibble;
        if self.decoding {
            *nibble = self.replies.remove(0);
        }
        let seen = match prob {
            NibbleCdf::Learnt(cdf) => Seen::Learnt(*cdf),
            NibbleCdf::External(ExternalProbCDF16 { nibble, probs, learnt }) => {
                Seen::External(*nibble, *probs, *learnt)
            }
        };
        self.record.push((offered, seen, billing, *nibble));
        match prob {
            NibbleCdf::Learnt(cdf) if self.ranged => cdf.sym_to_start_and_freq(*nibble).range,
            _ => ProbRange { start: 0, freq: 77 },
        }
    }

    fn drain_or_fill_internal_buffer(
        &mut self,
        _input_bytes: &[u8],
        _input_offset: &mut usize,
        _output_bytes: &mut [u8],
        _output_offset: &mut usize,
    ) -> BrotliResult {
        self.drained += 1;
        if self.drains.is_empty() {
            BrotliResult::ResultSuccess
        } else {
            self.drains.remove(0)
        }
    }
}

fn encoder() -> Script {
    Script { decoding: false, replies: vec![], drains: vec![], record: vec![], drained: 0, ranged: false }
}

fn decoder(replies: Vec<u8>) -> Script {
    Script { decoding: true, replies, drains: vec![], record: vec![], drained: 0, ranged: false }
}

fn identity_lut() -> [u8; 256] {
    let mut lut = [0u8; 256];
    for i in 0..256 {
        lut[i] = (i % 64) as u8;
    }
    lut
}

fn book<C: CDF16, W: Copy>(cdf: C, weights: W) -> CrossCommandBookKeeping<C, W> {
    CrossCommandBookKeeping {
        last_8_literals: 0x0807_0605_0403_0201,
        last_llen: 0,
        stride: 1,
        literal_block_type: 0,
        command_block_type: 5,
        materialized_prediction_mode: false,
        combine_literal_predictions: false,
        literal_prediction_mode: LiteralPredictionModeNibble(0),
        literal_lut0: identity_lut(),
        literal_lut1: [0; 256],
        literal_context_map: (0..256 * 64).map(|i| (i / 64 + i % 64) as u8).collect(),
        literal_adaptation: Speed::Tuned { inc: 32, lim: 4096 },
        model_weights: [weights; 2],
        lit_priors: LiteralCommandPriors::new(cdf),
        lit_cm_priors: LiteralCommandPriorsCM::new(cdf),
    }
}

const SCALES: Scales = Scales { share: -2, adapt: true, told: (0, 0, 0) };

fn state_with<A, S>(coder: A, specialization: S) -> CrossCommandState<Diary, Scales, A, S> {
    CrossCommandState { coder, specialization, bk: book(BLANK, SCALES) }
}

fn command(data: &[u8], prob: &[u8]) -> LiteralCommand {
    LiteralCommand { data: data.to_vec(), prob: prob.to_vec() }
}

fn fresh() -> LiteralState {
    LiteralState { lc: command(&[], &[]), state: LiteralSubstate::Begin }
}

const PLAIN_TRAITS: CodecTraits = CodecTraits {
    materialized_prediction_mode: false,
    combine_literal_predictions: false,
    should_mix: false,
};

fn run<S: EncoderOrDecoderSpecialization>(
    literal: &mut LiteralState,
    state: &mut CrossCommandState<Diary, Scales, Script, S>,
    cmd: &LiteralCommand,
    traits: &CodecTraits,
) -> BrotliResult {
    let mut input_offset = 0;
    let mut output_offset = 0;
    literal.encode_or_decode(
        state,
        cmd,
        &[],
        &mut input_offset,
        &mut [],
        &mut output_offset,
        traits,
    )
}

fn coded(state: &Script) -> Vec<u8> {
    state.record.iter().map(|r| r.3).collect()
}

#[test]
fn word_context_follows_the_last_two_bytes_and_the_stride() {
    let mut bk = book(BLANK, SCALES);
    bk.literal_lut1[7] = 0x30;
    assert_eq!(
        get_prev_word_context(&bk, &PLAIN_TRAITS),
        ByteContext { actual_context: 0x38, stride_byte: 8 }
    );
    bk.stride = 3;
    assert_eq!(get_prev_word_context(&bk, &PLAIN_TRAITS).stride_byte, 6);
    bk.stride = 0;
    assert_eq!(get_prev_word_context(&bk, &PLAIN_TRAITS).stride_byte, 8);
    bk.stride = 8;
    assert_eq!(get_prev_word_context(&bk, &PLAIN_TRAITS).stride_byte, 1);
    bk.stride = 255;
    assert_eq!(get_prev_word_context(&bk, &PLAIN_TRAITS).stride_byte, 1);
}

#[test]
fn word_context_goes_through_the_context_map() {
    let mut bk = book(BLANK, SCALES);
    bk.literal_block_type = 2;
    let traits = CodecTraits { materialized_prediction_mode: true, ..PLAIN_TRAITS };
    assert_eq!(
        get_prev_word_context(&bk, &traits),
        ByteContext { actual_context: 2 + 8, stride_byte: 8 }
    );
}

#[test]
fn pushed_bytes_move_back() {
    let mut bk = book(BLANK, SCALES);
    bk.push_literal_byte(0xaa);
    assert_eq!(bk.last_8_literals, 0xaa08_0706_0504_0302);
    assert_eq!(bk.literal_back(1), 0xaa);
    assert_eq!(bk.literal_back(2), 8);
    assert_eq!(bk.literal_back(8), 2);
}

#[test]
fn strides_are_clamped() {
    let mut bk = book(BLANK, SCALES);
    for (stride, reach, index) in [(0u8, 1u8, 0u8), (1, 1, 1), (7, 7, 7), (8, 8, 7), (200, 8, 7)] {
        bk.stride = stride;
        assert_eq!(bk.stride_reach(), reach);
        assert_eq!(bk.stride_index(), index);
    }
    assert_eq!(bk.get_command_block_type(), 5);
    assert_eq!(bk.get_literal_block_type(), 0);
    assert!(!bk.materialized_prediction_mode());
}

#[test]
fn modes_select_their_contexts() {
    let lsb6 = LiteralPredictionModeNibble(LITERAL_PREDICTION_MODE_LSB6);
    let msb6 = LiteralPredictionModeNibble(LITERAL_PREDICTION_MODE_MSB6);
    let utf8 = LiteralPredictionModeNibble(LITERAL_PREDICTION_MODE_UTF8);
    let sign = LiteralPredictionModeNibble(LITERAL_PREDICTION_MODE_SIGN);
    assert_eq!(select_context(lsb6, 0xc7, 0), 0x07);
    assert_eq!(select_context(msb6, 0xff, 0), 0x3f);
    assert_eq!(select_context(msb6, 0x07, 0xff), 1);
    assert_eq!(select_context(utf8, b'a', b'b'), 56 | 3);
    assert_eq!(select_context(sign, 255, 16), 7 * 8 + 2);
}

#[test]
fn mode_tables_stand_for_the_mode() {
    for mode in 0..4u8 {
        let mut bk = book(BLANK, SCALES);
        bk.literal_prediction_mode = LiteralPredictionModeNibble(mode);
        for b in 0..=255u8 {
            let i = b as usize;
            bk.literal_lut0[i] = match mode {
                3 => signed_3_bit_context(b) << 3,
                2 => utf8_last_byte_context(b),
                1 => b >> 2,
                _ => b & 0x3f,
            };
            bk.literal_lut1[i] = match mode {
                3 => signed_3_bit_context(b),
                2 => utf8_second_last_byte_context(b),
                _ => 0,
            };
        }
        for (last, second_last) in [(0u8, 0u8), (b'e', b'T'), (b' ', b'.'), (0xc3, 0xe2), (17, 250)] {
            bk.last_8_literals = ((last as u64) << 56) | ((second_last as u64) << 48);
            assert_eq!(
                get_prev_word_context(&bk, &PLAIN_TRAITS).actual_context,
                select_context(LiteralPredictionModeNibble(mode), last, second_last)
            );
        }
    }
}

#[test]
fn prior_tables_keep_entries_apart() {
    let mut priors = LiteralCommandPriors::new(BLANK);
    let a = LiteralNibblePrior::FirstNibble { stride_byte: 255, context: 255, stride: 7 };
    let b = LiteralNibblePrior::FirstNibble { stride_byte: 255, context: 255, stride: 6 };
    let c = LiteralNibblePrior::SecondNibble { stride_byte: 255, high_nibble: 15, stride: 7 };
    priors.get(a).blend(9, Speed::MUD);
    assert_eq!(priors.get(a).symbols, 16 + 9);
    assert_eq!(*priors.get(b), BLANK);
    assert_eq!(*priors.get(c), BLANK);
    let mut cm = LiteralCommandPriorsCM::new(BLANK);
    cm.get(LiteralContextPrior::SecondNibble { high_nibble: 15, context: 255 }).blend(1, Speed::MED);
    assert_eq!(
        *cm.get(LiteralContextPrior::SecondNibble { high_nibble: 14, context: 255 }),
        BLANK
    );
    assert_eq!(
        cm.get(LiteralContextPrior::SecondNibble { high_nibble: 15, context: 255 }).symbols,
        17
    );
}

#[test]
fn high_nibble_is_coded_with_the_stride_model() {
    let mut state = state_with(encoder(), EncoderSpecialization);
    let context = ByteContext { actual_context: 9, stride_byte: 33 };
    let mut literal = fresh();
    let nibble = literal.code_nibble(true, 6, context, 0, &PLAIN_TRAITS, &mut state);
    assert_eq!(nibble, 6);
    assert_eq!(
        state.coder.record,
        vec![(
            6,
            Seen::Learnt(BLANK),
            BillingDesignation::LiteralCommand(LiteralSubstate::LiteralNibbleIndex(1)),
            6
        )]
    );
    let prior = LiteralNibblePrior::FirstNibble { stride_byte: 33, context: 9, stride: 1 };
    assert_eq!(*state.bk.lit_priors.get(prior), Diary { symbols: 22, mixed: 0, glacial: false });
    let cm_prior = LiteralContextPrior::FirstNibble { context: 9 };
    assert_eq!(*state.bk.lit_cm_priors.get(cm_prior), Diary { symbols: 22, mixed: 0, glacial: true });
    assert_eq!(state.bk.model_weights, [SCALES; 2]);
}

#[test]
fn low_nibble_is_coded_with_the_mix() {
    let mut state = state_with(decoder(vec![12]), DecoderSpecialization);
    let traits = CodecTraits {
        materialized_prediction_mode: true,
        combine_literal_predictions: true,
        should_mix: true,
    };
    let context = ByteContext { actual_context: 200, stride_byte: 1 };
    let nibble = fresh().code_nibble(false, 0, context, 11, &traits, &mut state);
    assert_eq!(nibble, 12);
    assert_eq!(
        state.coder.record,
        vec![(
            0,
            Seen::Learnt(Diary { symbols: 1 ^ 3, mixed: 65534, glacial: false }),
            BillingDesignation::LiteralCommand(LiteralSubstate::LiteralNibbleIndex(0)),
            12
        )]
    );
    assert_eq!(state.bk.model_weights[0].told, (13, 13, 77));
    assert_eq!(state.bk.model_weights[1], SCALES);
    let prior = LiteralNibblePrior::SecondNibble { stride_byte: 1, high_nibble: 11, stride: 1 };
    assert_eq!(state.bk.lit_priors.get(prior).symbols, 28);
    let cm_prior = LiteralContextPrior::SecondNibble { high_nibble: 11, context: 200 };
    assert_eq!(state.bk.lit_cm_priors.get(cm_prior).symbols, 28);
}

#[test]
fn context_model_alone_is_used_where_models_are_not_combined() {
    let mut state = state_with(encoder(), EncoderSpecialization);
    let cm_prior = LiteralContextPrior::FirstNibble { context: 3 };
    state.bk.lit_cm_priors.get(cm_prior).blend(5, Speed::MED);
    let traits = CodecTraits { materialized_prediction_mode: true, ..PLAIN_TRAITS };
    let context = ByteContext { actual_context: 3, stride_byte: 0 };
    fresh().code_nibble(true, 1, context, 0, &traits, &mut state);
    assert_eq!(
        state.coder.record[0].1,
        Seen::Learnt(Diary { symbols: 21, mixed: 0, glacial: false })
    );
    assert_eq!(state.bk.model_weights[1], SCALES);
}

#[test]
fn supplied_probabilities_are_used_where_they_reach() {
    let prob: Vec<u8> = (100..116).collect();
    let mut state = state_with(encoder(), EncoderSpecialization);
    let mut literal = fresh();
    assert_eq!(literal.code_nibble_with_ecdf(2, 4, 0, &mut state, &prob), 4);
    assert_eq!(literal.code_nibble_with_ecdf(3, 5, 4, &mut state, &prob), 5);
    assert_eq!(literal.code_nibble_with_ecdf(4, 6, 0, &mut state, &prob), 6);
    let record = &state.coder.record;
    assert_eq!(record[0].1, Seen::External(4, [112, 113, 114, 115], BLANK));
    assert_eq!(record[1].1, Seen::External(5, [108, 109, 110, 111], BLANK));
    assert_eq!(record[2].1, Seen::Learnt(Diary { symbols: 20, mixed: 0, glacial: false }));
    assert_eq!(
        record[0].2,
        BillingDesignation::LiteralCommand(LiteralSubstate::LiteralNibbleIndex(0))
    );
    assert_eq!(
        record[1].2,
        BillingDesignation::LiteralCommand(LiteralSubstate::LiteralNibbleIndex(1))
    );
}

#[test]
fn settings_in_force_rule_where_probabilities_are_supplied() {
    let mut state = state_with(encoder(), EncoderSpecialization);
    state.bk.materialized_prediction_mode = true;
    state.bk.literal_block_type = 1;
    let mut literal = fresh();
    literal.code_nibble_with_ecdf(0, 4, 0, &mut state, &[]);
    let cm_prior = LiteralContextPrior::FirstNibble { context: 1 + 8 };
    assert_eq!(state.bk.lit_cm_priors.get(cm_prior).symbols, 20);
    assert_eq!(state.bk.model_weights[1].told, (5, 5, 77));
    state.bk.combine_literal_predictions = true;
    literal.code_nibble_with_ecdf(1, 4, 4, &mut state, &[]);
    assert_eq!(
        state.coder.record[1].1,
        Seen::Learnt(Diary { symbols: 1 ^ 3, mixed: 65534, glacial: false })
    );
}

#[test]
fn both_ways_of_coding_agree() {
    let traits = CodecTraits {
        materialized_prediction_mode: true,
        combine_literal_predictions: true,
        should_mix: true,
    };
    let mut one = state_with(encoder(), EncoderSpecialization);
    let mut other = state_with(encoder(), EncoderSpecialization);
    other.bk.materialized_prediction_mode = true;
    other.bk.combine_literal_predictions = true;
    let context = get_prev_word_context(&one.bk, &traits);
    fresh().code_nibble(true, 7, context, 0, &traits, &mut one);
    fresh().code_nibble_with_ecdf(0, 7, 0, &mut other, &[]);
    assert_eq!(one.coder.record[0].1, other.coder.record[0].1);
    assert_eq!(one.bk.model_weights, other.bk.model_weights);
    let prior = LiteralNibblePrior::FirstNibble {
        stride_byte: context.stride_byte,
        context: context.actual_context,
        stride: 1,
    };
    assert_eq!(*one.bk.lit_priors.get(prior), *other.bk.lit_priors.get(prior));
}

#[test]
fn probabilities_decide_how_nibbles_are_coded() {
    let literal = fresh();
    assert_eq!(
        literal.get_nibble_code_state(6, &command(&[1], &[])),
        LiteralSubstate::LiteralNibbleIndex(6)
    );
    assert_eq!(
        literal.get_nibble_code_state(6, &command(&[1], &[0; 8])),
        LiteralSubstate::LiteralNibbleIndexWithECDF(6)
    );
}

#[test]
fn short_literal_is_its_length_and_its_nibbles() {
    let mut state = state_with(encoder(), EncoderSpecialization);
    let mut literal = fresh();
    let cmd = command(&[0x12, 0xab, 0x0f], &[]);
    assert_eq!(run(&mut literal, &mut state, &cmd, &PLAIN_TRAITS), BrotliResult::ResultSuccess);
    assert_eq!(coded(&state.coder), vec![2, 1, 2, 10, 11, 0, 15]);
    assert_eq!(literal.lc.data, cmd.data);
    assert_eq!(literal.state, LiteralSubstate::FullyDecoded);
    assert_eq!(state.bk.last_llen, 3);
    assert_eq!(state.bk.last_8_literals, 0x0fab_1208_0706_0504);
    assert_eq!(
        state.coder.record[0].2,
        BillingDesignation::LiteralCommand(LiteralSubstate::LiteralCountSmall)
    );
    assert_eq!(
        state.bk.lit_priors.get(LiteralNibblePrior::CountSmall { block_type: 5 }).symbols,
        18
    );
    // one drain to begin, and one before every nibble
    assert_eq!(state.coder.drained, 8);
}

fn length_nibbles(len: usize) -> Vec<u8> {
    let mut state = state_with(encoder(), EncoderSpecialization);
    let mut literal = fresh();
    let cmd = command(&vec![0x5a; len], &[]);
    assert_eq!(run(&mut literal, &mut state, &cmd, &PLAIN_TRAITS), BrotliResult::ResultSuccess);
    assert_eq!(literal.lc.data.len(), len);
    let nibbles = coded(&state.coder);
    nibbles[..nibbles.len() - 2 * len].to_vec()
}

#[test]
fn lengths_are_coded_by_their_excess() {
    assert_eq!(length_nibbles(1), vec![0]);
    assert_eq!(length_nibbles(15), vec![14]);
    assert_eq!(length_nibbles(16), vec![15, 0]);
    assert_eq!(length_nibbles(17), vec![15, 1]);
    assert_eq!(length_nibbles(18), vec![15, 2, 0]);
    assert_eq!(length_nibbles(19), vec![15, 2, 1]);
    assert_eq!(length_nibbles(1000), vec![15, 10, 1, 13, 8]);
    assert_eq!(length_nibbles(16 + 0x2000), vec![15, 14, 0, 0, 0, 0]);
    assert_eq!(length_nibbles(16 + 0x4000), vec![15, 15, 0, 0, 0, 0, 0]);
    assert_eq!(length_nibbles(100_000), vec![15, 15, 2, 8, 6, 9, 0]);
}

#[test]
fn long_length_is_decoded() {
    let mut replies = vec![15, 15, 2, 8, 6, 9, 0];
    replies.extend(vec![3; 200_000]);
    let mut state = state_with(decoder(replies), DecoderSpecialization);
    let mut literal = fresh();
    let result = run(&mut literal, &mut state, &command(&[], &[]), &PLAIN_TRAITS);
    assert_eq!(result, BrotliResult::ResultSuccess);
    assert_eq!(literal.lc.data, vec![0x33; 100_000]);
    assert_eq!(
        state.coder.record[4].2,
        BillingDesignation::LiteralCommand(LiteralSubstate::LiteralCountMantissaNibbles(0, 0))
    );
}

#[test]
fn decoder_restores_the_literal_and_learns_the_same() {
    let cmd = command(b"the quick brown fox jumps over the lazy dog", &[]);
    let traits = CodecTraits {
        materialized_prediction_mode: true,
        combine_literal_predictions: true,
        should_mix: true,
    };
    let mut encoding = state_with(encoder(), EncoderSpecialization);
    let mut sent = fresh();
    assert_eq!(run(&mut sent, &mut encoding, &cmd, &traits), BrotliResult::ResultSuccess);
    let mut decoding = state_with(decoder(coded(&encoding.coder)), DecoderSpecialization);
    let mut received = fresh();
    received.lc.data = vec![9; 5];
    let result = run(&mut received, &mut decoding, &command(&[], &[]), &traits);
    assert_eq!(result, BrotliResult::ResultSuccess);
    assert_eq!(received.lc.data, cmd.data);
    assert_eq!(decoding.bk.model_weights, encoding.bk.model_weights);
    assert_eq!(decoding.bk.last_8_literals, encoding.bk.last_8_literals);
    for (e, d) in encoding.coder.record.iter().zip(decoding.coder.record.iter()) {
        assert_eq!((&e.1, e.2, e.3), (&d.1, d.2, d.3));
    }
}

#[test]
fn interruptions_make_no_difference() {
    let cmd = command(b"interrupted", &[]);
    let mut whole = state_with(encoder(), EncoderSpecialization);
    let mut at_once = fresh();
    assert_eq!(run(&mut at_once, &mut whole, &cmd, &PLAIN_TRAITS), BrotliResult::ResultSuccess);

    let mut state = state_with(encoder(), EncoderSpecialization);
    let mut literal = fresh();
    let mut stops = 0;
    loop {
        // let one call through, and stop at the next
        state.coder.drains = vec![BrotliResult::ResultSuccess, BrotliResult::NeedsMoreOutput];
        match run(&mut literal, &mut state, &cmd, &PLAIN_TRAITS) {
            BrotliResult::NeedsMoreOutput => stops += 1,
            result => {
                assert_eq!(result, BrotliResult::ResultSuccess);
                break;
            }
        }
    }
    assert!(stops > 20);
    assert_eq!(state.coder.record, whole.coder.record);
    assert_eq!(literal.lc.data, at_once.lc.data);
    assert_eq!(literal.state, at_once.state);
    assert_eq!(state.bk.last_8_literals, whole.bk.last_8_literals);
}

#[test]
fn same_replies_give_the_same_literal() {
    let replies = vec![2, 6, 1, 6, 2, 6, 3];
    let mut one = state_with(decoder(replies.clone()), DecoderSpecialization);
    let mut first = fresh();
    let none = command(&[], &[]);
    assert_eq!(run(&mut first, &mut one, &none, &PLAIN_TRAITS), BrotliResult::ResultSuccess);

    let mut other = state_with(decoder(replies), DecoderSpecialization);
    let mut second = LiteralState { lc: command(&[9; 7], &[]), state: LiteralSubstate::Begin };
    let unrelated = command(b"something else", &[]);
    loop {
        other.coder.drains = vec![BrotliResult::ResultSuccess, BrotliResult::NeedsMoreInput];
        match run(&mut second, &mut other, &unrelated, &PLAIN_TRAITS) {
            BrotliResult::NeedsMoreInput => {}
            result => {
                assert_eq!(result, BrotliResult::ResultSuccess);
                break;
            }
        }
    }
    assert_eq!(first.lc.data, b"abc".to_vec());
    assert_eq!(second.lc.data, first.lc.data);
    assert_eq!(second.state, first.state);
    assert_eq!(other.bk.last_8_literals, one.bk.last_8_literals);
    for (a, b) in one.coder.record.iter().zip(other.coder.record.iter()) {
        assert_eq!((&a.1, a.2, a.3), (&b.1, b.2, b.3));
    }
}

#[test]
fn nibbles_alone_restore_the_literal_and_the_weights() {
    let cmd = command(b"only nibbles travel", &[]);
    let traits = CodecTraits {
        materialized_prediction_mode: true,
        combine_literal_predictions: true,
        should_mix: true,
    };
    let mut encoding = state_with(encoder(), EncoderSpecialization);
    encoding.coder.ranged = true;
    let mut sent = fresh();
    assert_eq!(run(&mut sent, &mut encoding, &cmd, &traits), BrotliResult::ResultSuccess);

    let mut decoding = state_with(decoder(coded(&encoding.coder)), DecoderSpecialization);
    decoding.coder.ranged = true;
    let mut received = fresh();
    loop {
        decoding.coder.drains = vec![BrotliResult::ResultSuccess, BrotliResult::NeedsMoreInput];
        match run(&mut received, &mut decoding, &command(&[], &[]), &traits) {
            BrotliResult::NeedsMoreInput => {}
            result => {
                assert_eq!(result, BrotliResult::ResultSuccess);
                break;
            }
        }
    }
    assert!(decoding.coder.replies.is_empty());
    assert_eq!(received.lc.data, cmd.data);
    assert_ne!(encoding.bk.model_weights, [SCALES; 2]);
    assert_eq!(decoding.bk.model_weights, encoding.bk.model_weights);
}

#[test]
fn a_high_half_waits_for_its_low_half() {
    let mut state = state_with(decoder(vec![1, 7, 4, 2, 9]), DecoderSpecialization);
    let mut literal = fresh();
    let ok = BrotliResult::ResultSuccess;
    state.coder.drains = vec![ok, ok, ok, BrotliResult::NeedsMoreInput];
    let cmd = command(&[], &[]);
    assert_eq!(run(&mut literal, &mut state, &cmd, &PLAIN_TRAITS), BrotliResult::NeedsMoreInput);
    assert_eq!(literal.state, LiteralSubstate::LiteralNibbleLowerHalf(1));
    assert_eq!(literal.lc.data, vec![0x70, 0]);
    assert_eq!(run(&mut literal, &mut state, &cmd, &PLAIN_TRAITS), BrotliResult::ResultSuccess);
    assert_eq!(literal.lc.data, vec![0x74, 0x29]);
}

#[test]
fn failures_of_the_coder_are_handed_on() {
    for said in [
        BrotliResult::NeedsMoreInput,
        BrotliResult::NeedsMoreOutput,
        BrotliResult::ResultFailure,
    ] {
        let mut state = state_with(encoder(), EncoderSpecialization);
        state.coder.drains = vec![said];
        let mut literal = fresh();
        assert_eq!(run(&mut literal, &mut state, &command(&[1], &[]), &PLAIN_TRAITS), said);
        assert_eq!(literal.state, LiteralSubstate::Begin);
        assert!(state.coder.record.is_empty());
    }
}

#[test]
fn a_finished_literal_stays_finished() {
    let mut state = state_with(encoder(), EncoderSpecialization);
    let mut literal = LiteralState { lc: command(&[1, 2], &[]), state: LiteralSubstate::FullyDecoded };
    let cmd = command(&[1, 2], &[]);
    assert_eq!(run(&mut literal, &mut state, &cmd, &PLAIN_TRAITS), BrotliResult::ResultSuccess);
    assert!(state.coder.record.is_empty());
    assert_eq!(state.coder.drained, 1);
}

#[test]
fn literal_with_probabilities_is_coded_with_them() {
    let cmd = command(&[0x3c, 0xd2], &(0..16).collect::<Vec<u8>>());
    let mut state = state_with(encoder(), EncoderSpecialization);
    let mut literal = fresh();
    assert_eq!(run(&mut literal, &mut state, &cmd, &PLAIN_TRAITS), BrotliResult::ResultSuccess);
    assert_eq!(coded(&state.coder), vec![1, 3, 12, 13, 2]);
    assert_eq!(literal.lc.data, cmd.data);
    assert_eq!(literal.state, LiteralSubstate::FullyDecoded);
    let record = &state.coder.record;
    assert_eq!(record[1].1, Seen::External(3, [4, 5, 6, 7], BLANK));
    assert_eq!(record[2].1, Seen::External(12, [0, 1, 2, 3], BLANK));
    assert_eq!(record[4].1, Seen::External(2, [8, 9, 10, 11], BLANK));
    assert_eq!(state.bk.last_llen, 2);
    assert_eq!(state.bk.last_8_literals, 0xd23c_0807_0605_0403);
}

#[test]
fn literal_with_probabilities_survives_interruptions() {
    let prob: Vec<u8> = (0..24).collect();
    let cmd = command(&[0x3c, 0xd2, 0x07], &prob);
    let mut encoding = state_with(encoder(), EncoderSpecialization);
    let mut sent = fresh();
    assert_eq!(run(&mut sent, &mut encoding, &cmd, &PLAIN_TRAITS), BrotliResult::ResultSuccess);

    let mut decoding = state_with(decoder(coded(&encoding.coder)), DecoderSpecialization);
    let mut received = fresh();
    let blank = command(&[0, 0, 0], &prob);
    loop {
        decoding.coder.drains = vec![BrotliResult::ResultSuccess, BrotliResult::NeedsMoreInput];
        match run(&mut received, &mut decoding, &blank, &PLAIN_TRAITS) {
            BrotliResult::NeedsMoreInput => {}
            result => {
                assert_eq!(result, BrotliResult::ResultSuccess);
                break;
            }
        }
    }
    assert_eq!(received.lc.data, cmd.data);
    assert_eq!(received.state, LiteralSubstate::FullyDecoded);
    assert_eq!(decoding.bk.last_8_literals, encoding.bk.last_8_literals);
    // a decoder has no nibble to offer
    assert_eq!(decoding.coder.record[1].1, Seen::External(0, [4, 5, 6, 7], BLANK));
}

#[test]
fn nibbles_beyond_counting_are_a_failure() {
    let mut state = state_with(decoder(vec![5]), DecoderSpecialization);
    let mut literal = LiteralState {
        lc: LiteralCommand { data: vec![0; (1 << 31) + 1], prob: vec![] },
        state: LiteralSubstate::LiteralNibbleLowerHalf(u32::MAX),
    };
    let result = run(&mut literal, &mut state, &command(&[], &[]), &PLAIN_TRAITS);
    assert_eq!(result, BrotliResult::ResultFailure);
    assert_eq!(literal.lc.data[(1 << 31) - 1], 5);
    assert_eq!(literal.state, LiteralSubstate::LiteralNibbleLowerHalf(u32::MAX));
}

#[test]
fn plain_coders_carry_a_literal() {
    let cmd = command(b"plain and simple", &[]);
    let mut encoding = CrossCommandState {
        coder: PlainEncoder::new(),
        specialization: EncoderSpecialization,
        bk: book(UniformCDF16, FixedWeights { share: 16384 }),
    };
    let mut sent = fresh();
    let mut stream = [0xffu8; 64];
    let (mut from, mut to) = (0, 0);
    // a few bytes of room at a time
    let mut room = 0;
    loop {
        room += 3;
        match sent.encode_or_decode(
            &mut encoding,
            &cmd,
            &[],
            &mut from,
            &mut stream[..room],
            &mut to,
            &PLAIN_TRAITS,
        ) {
            BrotliResult::NeedsMoreOutput => {}
            result => {
                assert_eq!(result, BrotliResult::ResultSuccess);
                break;
            }
        }
    }
    let flushed = encoding.coder.drain_or_fill_internal_buffer(&[], &mut from, &mut stream, &mut to);
    assert_eq!(flushed, BrotliResult::ResultSuccess);
    assert_eq!(to, 2 + 32);
    assert_eq!(stream[..4], [15, 0, 7, 0]);

    let mut decoding = CrossCommandState {
        coder: PlainDecoder::new(),
        specialization: DecoderSpecialization,
        bk: book(UniformCDF16, FixedWeights { share: 16384 }),
    };
    let mut received = fresh();
    let (mut from, mut none) = (0, 0);
    let result = received.encode_or_decode(
        &mut decoding,
        &command(&[], &[]),
        &stream[..10],
        &mut from,
        &mut [],
        &mut none,
        &PLAIN_TRAITS,
    );
    assert_eq!(result, BrotliResult::NeedsMoreInput);
    assert_eq!(from, 10);
    let result = received.encode_or_decode(
        &mut decoding,
        &command(&[], &[]),
        &stream[..to],
        &mut from,
        &mut [],
        &mut none,
        &PLAIN_TRAITS,
    );
    assert_eq!(result, BrotliResult::ResultSuccess);
    assert_eq!(from, to);
    assert_eq!(received.lc.data, cmd.data);
}

#[test]
fn plain_models_know_nothing() {
    let mut cdf = UniformCDF16;
    cdf.blend(3, Speed::MED);
    assert_eq!(
        cdf.average(&UniformCDF16, 5).sym_to_start_and_freq(15),
        SymStartFreq { range: ProbRange { start: 30720, freq: 2048 }, sym: 15 }
    );
    let mut weights = FixedWeights { share: 9 };
    weights.update([1, 2], 3);
    assert_eq!(weights.norm_weight(), 9);
    assert!(!weights.should_mix());
}
