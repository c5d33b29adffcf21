//! The coding of a literal as a machine: what it asks of the coder next, and
//! where each answer takes it.

use vstd::prelude::*;
use crate::bookkeeping::BookKeepingView;
use crate::count::{CountStep, MAX_LITERAL_LEN};
use crate::interface::{
    BrotliResult, Buffers, CodecTraits, CoderEvent, EncoderOrDecoderSpecialization, NibbleReply,
    NibbleRequest,
};
use crate::literal::LiteralSubstate;
use crate::nibble::{last_reply, HalfByte};
use crate::probability::{CDF16, ModelWeights, NibbleCdf, NIBBLE_VALUES};

verus! {

/// What is to be coded: the literal, its bit probabilities, and the models in use.
#[verifier::ext_equal]
pub struct Job {
    pub literal: Seq<u8>,
    pub prob: Seq<u8>,
    pub traits: CodecTraits,
}

/// The low 32 bits of a number.
pub open spec fn low_32_bits(n: nat) -> u32 {
    (n % 0x1_0000_0000) as u32
}

/// The state in which nibble `index` of a literal with bit probabilities `prob` is coded.
pub open spec fn nibble_code_state(index: u32, prob: Seq<u8>) -> LiteralSubstate {
    if prob.len() == 0 {
        LiteralSubstate::LiteralNibbleIndex(index)
    } else {
        LiteralSubstate::LiteralNibbleIndexWithECDF(index)
    }
}

impl Job {
    /// The length that is coded.
    pub open spec fn literal_len(self) -> u32 {
        low_32_bits(self.literal.len())
    }

    /// Whether the bit probabilities are none, or eight for each byte.
    pub open spec fn prob_fits(self) -> bool {
        self.prob.len() == 0 || self.prob.len() == 8 * self.literal.len()
    }
}

/// A literal that is being coded: the bytes so far, what comes next, and what was learnt.
#[verifier::ext_equal]
pub struct Coding<C, W> {
    pub data: Seq<u8>,
    pub state: LiteralSubstate,
    pub bk: BookKeepingView<C, W>,
}

/// Where a nibble leads: the literal after it, and the result if coding ends there.
#[verifier::ext_equal]
pub struct Stepped<C, W> {
    pub after: Coding<C, W>,
    pub verdict: Option<BrotliResult>,
}

impl LiteralSubstate {
    /// Whether the length is not known yet.
    pub open spec fn before_data(self) -> bool {
        self is Begin || self.counts()
    }
}

impl<C: CDF16, W: ModelWeights> Coding<C, W> {
    /// Whether the state fits the bytes: a nibble that comes next is one of theirs.
    pub open spec fn valid(self) -> bool {
        match self.state {
            LiteralSubstate::Begin => true,
            LiteralSubstate::FullyDecoded => true,
            LiteralSubstate::LiteralNibbleIndex(index) => index % 2 == 0 && index / 2
                < self.data.len(),
            LiteralSubstate::LiteralNibbleLowerHalf(index) => index % 2 == 1 && index / 2
                < self.data.len(),
            LiteralSubstate::LiteralNibbleIndexWithECDF(index) => index / 2 < self.data.len(),
            _ => self.state.counts(),
        }
    }

    /// The byte that a nibble belongs to.
    pub open spec fn byte_index(self) -> int {
        match self.state {
            LiteralSubstate::LiteralNibbleIndex(index) => (index / 2) as int,
            LiteralSubstate::LiteralNibbleLowerHalf(index) => (index / 2) as int,
            LiteralSubstate::LiteralNibbleIndexWithECDF(index) => (index / 2) as int,
            _ => 0,
        }
    }

    /// The half of a byte that comes next.
    pub open spec fn half(self, traits: CodecTraits) -> HalfByte {
        let cur_byte_prior = self.data[self.byte_index()] / 16;
        match self.state {
            LiteralSubstate::LiteralNibbleIndex(_) => HalfByte {
                high_nibble: true,
                byte_context: self.bk.byte_context(traits),
                cur_byte_prior: 0,
            },
            LiteralSubstate::LiteralNibbleIndexWithECDF(index) => HalfByte {
                high_nibble: index % 2 == 0,
                byte_context: self.bk.mode_byte_context(),
                cur_byte_prior,
            },
            _ => HalfByte {
                high_nibble: false,
                byte_context: self.bk.byte_context(traits),
                cur_byte_prior,
            },
        }
    }

    /// The nibble that an encoder puts next.
    pub open spec fn offered<S: EncoderOrDecoderSpecialization>(self, job: Job, source: S) -> u8 {
        if self.state.counts() {
            self.state.count_nibble_of(job.literal_len())
        } else {
            let byte = source.literal_byte(job.literal, self.byte_index());
            if self.half(job.traits).high_nibble {
                byte / 16
            } else {
                byte % 16
            }
        }
    }

    /// What the coder is asked to do next.
    pub open spec fn request<S: EncoderOrDecoderSpecialization>(
        self,
        job: Job,
        source: S,
    ) -> NibbleRequest<C> {
        let offered = self.offered(job, source);
        match self.state {
            LiteralSubstate::LiteralNibbleIndex(_) => self.bk.half_byte_request(
                self.half(job.traits),
                job.traits,
                offered,
            ),
            LiteralSubstate::LiteralNibbleLowerHalf(_) => self.bk.half_byte_request(
                self.half(job.traits),
                job.traits,
                offered,
            ),
            LiteralSubstate::LiteralNibbleIndexWithECDF(index) => self.bk.supplied_request(
                self.half(job.traits),
                index,
                job.prob,
                offered,
            ),
            _ => NibbleRequest {
                offered,
                cdf: NibbleCdf::Learnt(
                    self.bk.lit_priors[self.state.count_prior(self.bk.command_block_type)],
                ),
                billing: self.state.count_billing(),
            },
        }
    }

    /// What is learnt from a nibble of the length.
    pub open spec fn count_learnt(self, nibble: u8) -> BookKeepingView<C, W> {
        let prior = self.state.count_prior(self.bk.command_block_type);
        BookKeepingView {
            lit_priors: self.bk.lit_priors.insert(
                prior,
                self.bk.lit_priors[prior].blended(nibble, self.state.count_speed()),
            ),
            ..self.bk
        }
    }

    /// The state once the length of the literal at hand was noted.
    pub open spec fn length_noted(self) -> BookKeepingView<C, W> {
        BookKeepingView { last_llen: low_32_bits(self.data.len()), ..self.bk }
    }

    /// Takes a nibble of the length. A length that memory cannot hold is a failure.
    pub open spec fn count_step(self, job: Job, nibble: u8) -> Stepped<C, W> {
        let bk = self.count_learnt(nibble);
        match self.state.counted(nibble) {
            CountStep::Next(state) => Stepped {
                after: Coding { state, bk, ..self },
                verdict: None,
            },
            CountStep::Length(len) => if len <= usize::MAX {
                Stepped {
                    after: Coding {
                        data: Seq::new(len as nat, |i: int| 0u8),
                        state: nibble_code_state(0, job.prob),
                        bk,
                    },
                    verdict: None,
                }
            } else {
                Stepped {
                    after: Coding { bk, ..self },
                    verdict: Some(BrotliResult::ResultFailure),
                }
            },
        }
    }

    /// The same literal with `nibble` as the high half of byte `index / 2`,
    /// whose low half comes next.
    pub open spec fn with_high_half(self, index: u32, nibble: u8) -> Self {
        Coding {
            data: self.data.update((index / 2) as int, (16 * nibble) as u8),
            state: LiteralSubstate::LiteralNibbleLowerHalf((index + 1) as u32),
            ..self
        }
    }

    /// Takes the high half of byte `index / 2`.
    pub open spec fn high_half_step(
        self,
        job: Job,
        index: u32,
        reply: NibbleReply,
    ) -> Stepped<C, W> {
        Stepped {
            after: Coding {
                data: self.data.update(self.byte_index(), (16 * reply.nibble) as u8),
                state: LiteralSubstate::LiteralNibbleLowerHalf((index + 1) as u32),
                bk: self.length_noted().learnt_by(self.half(job.traits), job.traits, reply),
            },
            verdict: None,
        }
    }

    /// Takes the low half of byte `index / 2`. More nibbles than can be
    /// counted are a failure.
    pub open spec fn low_half_step(
        self,
        job: Job,
        index: u32,
        reply: NibbleReply,
    ) -> Stepped<C, W> {
        let byte = self.data[self.byte_index()] | reply.nibble;
        let after = Coding {
            data: self.data.update(self.byte_index(), byte),
            bk: self.bk.learnt_by(self.half(job.traits), job.traits, reply).pushed(byte),
            ..self
        };
        if index / 2 + 1 == self.data.len() {
            Stepped {
                after: Coding { state: LiteralSubstate::FullyDecoded, ..after },
                verdict: Some(BrotliResult::ResultSuccess),
            }
        } else if index < u32::MAX {
            Stepped {
                after: Coding {
                    state: LiteralSubstate::LiteralNibbleIndex((index + 1) as u32),
                    ..after
                },
                verdict: None,
            }
        } else {
            Stepped { after, verdict: Some(BrotliResult::ResultFailure) }
        }
    }

    /// Takes nibble `index` of a literal that came with bit probabilities.
    /// More nibbles than can be counted are a failure.
    pub open spec fn ecdf_step(self, job: Job, index: u32, reply: NibbleReply) -> Stepped<C, W> {
        let half = self.half(job.traits);
        let byte = if half.high_nibble {
            (16 * reply.nibble) as u8
        } else {
            self.data[self.byte_index()] | reply.nibble
        };
        let bk = self.length_noted().learnt_in_force(half, reply);
        let after = Coding {
            data: self.data.update(self.byte_index(), byte),
            bk: if half.high_nibble {
                bk
            } else {
                bk.pushed(byte)
            },
            ..self
        };
        if index == u32::MAX {
            Stepped { after, verdict: Some(BrotliResult::ResultFailure) }
        } else if index + 1 == low_32_bits(2 * self.data.len()) {
            Stepped {
                after: Coding { state: LiteralSubstate::FullyDecoded, ..after },
                verdict: Some(BrotliResult::ResultSuccess),
            }
        } else {
            Stepped {
                after: Coding {
                    state: LiteralSubstate::LiteralNibbleIndexWithECDF((index + 1) as u32),
                    ..after
                },
                verdict: None,
            }
        }
    }

    /// Takes the coder's answer to [`Coding::request`].
    pub open spec fn step(self, job: Job, reply: NibbleReply) -> Stepped<C, W> {
        match self.state {
            LiteralSubstate::LiteralNibbleIndex(index) => self.high_half_step(job, index, reply),
            LiteralSubstate::LiteralNibbleLowerHalf(index) => self.low_half_step(job, index, reply),
            LiteralSubstate::LiteralNibbleIndexWithECDF(index) => self.ecdf_step(job, index, reply),
            _ => self.count_step(job, reply.nibble),
        }
    }

    /// Whether the literal can be coded to its end.
    ///
    /// Every context that comes up has its place in the context map, every byte
    /// that comes up can be read, and an encoder is offered nothing but nibbles.
    pub open spec fn can_run<S: EncoderOrDecoderSpecialization>(
        self,
        job: Job,
        source: S,
        decoding: bool,
    ) -> bool {
        &&& self.valid()
        &&& self.models_fit(job)
        &&& self.bytes_fit(job, source, decoding)
    }

    /// The part of [`Coding::can_run`] that speaks of the models.
    pub open spec fn models_fit(self, job: Job) -> bool {
        match self.state {
            LiteralSubstate::FullyDecoded => true,
            LiteralSubstate::LiteralNibbleIndex(_) => self.tables_fit(job),
            LiteralSubstate::LiteralNibbleLowerHalf(_) => self.tables_fit(job),
            LiteralSubstate::LiteralNibbleIndexWithECDF(_) => self.modes_fit(job),
            _ => if job.prob.len() == 0 {
                self.tables_fit(job)
            } else {
                self.modes_fit(job)
            },
        }
    }

    /// Whether learnt distributions alone can be used.
    pub open spec fn tables_fit(self, job: Job) -> bool {
        job.traits.materialized_prediction_mode ==> self.bk.map_covers_tables()
    }

    /// Whether bit probabilities can be used.
    pub open spec fn modes_fit(self, job: Job) -> bool {
        &&& job.prob_fits()
        &&& self.bk.literal_prediction_mode.well_formed()
        &&& self.bk.materialized_prediction_mode ==> self.bk.map_covers_modes()
    }

    /// The part of [`Coding::can_run`] that speaks of the bytes.
    pub open spec fn bytes_fit<S: EncoderOrDecoderSpecialization>(
        self,
        job: Job,
        source: S,
        decoding: bool,
    ) -> bool {
        if self.state is FullyDecoded {
            true
        } else if !self.state.before_data() {
            forall|i: int|
                self.byte_index() <= i < self.data.len() ==> #[trigger] source.has_literal_byte(
                    job.literal,
                    i,
                )
        } else if decoding {
            forall|i: int| 0 <= i ==> #[trigger] source.has_literal_byte(job.literal, i)
        } else {
            &&& 1 <= job.literal_len() <= MAX_LITERAL_LEN
            &&& self.state is Begin || self.state.is_part_of(job.literal_len())
            &&& forall|i: int|
                0 <= i < job.literal_len() ==> #[trigger] source.has_literal_byte(job.literal, i)
        }
    }

    /// How many more kinds of nibble can come.
    pub open spec fn phases_left(self) -> nat {
        match self.state {
            LiteralSubstate::Begin => 5,
            LiteralSubstate::LiteralCountSmall => 4,
            LiteralSubstate::LiteralCountFirst => 3,
            LiteralSubstate::LiteralCountLengthGreater14Less25 => 2,
            LiteralSubstate::LiteralCountMantissaNibbles(_, _) => 1,
            _ => 0,
        }
    }

    /// How much is left of the phase at hand.
    pub open spec fn left_in_phase(self) -> nat {
        match self.state {
            LiteralSubstate::LiteralCountMantissaNibbles(len_remaining, _) => len_remaining as nat,
            LiteralSubstate::LiteralNibbleIndex(index) => (2 * self.data.len() - index) as nat,
            LiteralSubstate::LiteralNibbleLowerHalf(index) => (2 * self.data.len() - index) as nat,
            LiteralSubstate::LiteralNibbleIndexWithECDF(index) => (2 * self.data.len()
                - index) as nat,
            _ => 0,
        }
    }

    /// Whether less is left than of `other`.
    pub open spec fn closer_than(self, other: Self) -> bool {
        ||| self.phases_left() < other.phases_left()
        ||| self.phases_left() == other.phases_left() && self.left_in_phase()
            < other.left_in_phase()
    }
}

/// A conversation with the coder, as far as it went.
#[verifier::ext_equal]
pub enum Conversation<C, W> {
    /// The coder is to be drained or filled.
    AwaitingDrain { coding: Coding<C, W>, io: Buffers },
    /// The coder is to code the next nibble.
    AwaitingNibble { coding: Coding<C, W>, io: Buffers },
    /// There is nothing left to say.
    Finished { coding: Coding<C, W>, io: Buffers, result: BrotliResult },
    /// Something else was said than the machine asks for.
    Broken,
}

impl<C: CDF16, W: ModelWeights> Conversation<C, W> {
    /// A conversation that is about to begin or to go on.
    pub open spec fn open(coding: Coding<C, W>, io: Buffers) -> Self {
        Conversation::AwaitingDrain { coding, io }
    }

    /// The conversation after one more call of the coder.
    ///
    /// The coder is drained before every nibble, and a result other than
    /// success ends the conversation there and then.
    pub open spec fn next<S: EncoderOrDecoderSpecialization>(
        self,
        job: Job,
        source: S,
        event: CoderEvent<C>,
    ) -> Self {
        match (self, event) {
            (
                Conversation::AwaitingDrain { coding, io },
                CoderEvent::Drained { before, after, result },
            ) => if before != io {
                Conversation::Broken
            } else if result != BrotliResult::ResultSuccess || coding.state is FullyDecoded {
                Conversation::Finished { coding, io: after, result }
            } else if coding.state is Begin {
                Conversation::AwaitingDrain {
                    coding: Coding { state: LiteralSubstate::LiteralCountSmall, ..coding },
                    io: after,
                }
            } else {
                Conversation::AwaitingNibble { coding, io: after }
            },
            (
                Conversation::AwaitingNibble { coding, io },
                CoderEvent::Coded { request, reply },
            ) => if request != coding.request(job, source) || reply.nibble >= NIBBLE_VALUES {
                Conversation::Broken
            } else {
                let stepped = coding.step(job, reply);
                match stepped.verdict {
                    None => Conversation::AwaitingDrain { coding: stepped.after, io },
                    Some(result) => Conversation::Finished { coding: stepped.after, io, result },
                }
            },
            _ => Conversation::Broken,
        }
    }

    /// The conversation after the calls `events`.
    pub open spec fn after<S: EncoderOrDecoderSpecialization>(
        self,
        job: Job,
        source: S,
        events: Seq<CoderEvent<C>>,
    ) -> Self
        decreases events.len(),
    {
        if events.len() == 0 {
            self
        } else {
            self.after(job, source, events.drop_last()).next(job, source, events.last())
        }
    }
}

/// Whether every nibble of `events` came back as it was offered.
pub open spec fn nibbles_were_put<C>(events: Seq<CoderEvent<C>>) -> bool {
    forall|i: int|
        0 <= i < events.len() ==> (#[trigger] events[i] matches CoderEvent::Coded { request, reply }
            ==> reply.nibble == request.offered)
}

/// A literal that can be coded to its end still can after each nibble, and the
/// end comes closer.
pub proof fn lemma_step_keeps_running<C: CDF16, W: ModelWeights, S: EncoderOrDecoderSpecialization>(
    coding: Coding<C, W>,
    job: Job,
    source: S,
    decoding: bool,
    reply: NibbleReply,
)
    requires
        coding.can_run(job, source, decoding),
        !(coding.state is Begin),
        !(coding.state is FullyDecoded),
        reply.nibble < NIBBLE_VALUES,
        !decoding ==> reply.nibble == coding.offered(job, source),
    ensures
        coding.step(job, reply).after.can_run(job, source, decoding),
        coding.step(job, reply).verdict is None ==> coding.step(job, reply).after.closer_than(
            coding,
        ),
{
    let after = coding.step(job, reply).after;
    if coding.state.counts() {
        if !decoding {
            crate::count::law_length_is_restored(coding.state, job.literal_len());
        }
        match coding.state.counted(reply.nibble) {
            CountStep::Next(next) => {
                assert(next.counts());
            },
            CountStep::Length(len) => {
                assert(len >= 1);
            },
        }
    }
    assert(after.bk.literal_context_map == coding.bk.literal_context_map);
    assert(after.bk.literal_lut0 == coding.bk.literal_lut0);
    assert(after.bk.literal_lut1 == coding.bk.literal_lut1);
    assert(after.bk.map_covers_tables() == coding.bk.map_covers_tables());
}

/// An encoder is offered nothing but nibbles.
pub proof fn lemma_offered_is_nibble<C: CDF16, W: ModelWeights, S: EncoderOrDecoderSpecialization>(
    coding: Coding<C, W>,
    job: Job,
    source: S,
)
    requires
        coding.can_run(job, source, false),
        !(coding.state is Begin),
    ensures
        coding.offered(job, source) < NIBBLE_VALUES,
{
    if coding.state.counts() {
        crate::count::law_length_is_restored(coding.state, job.literal_len());
    }
}

/// Whether the calls that took the coder's history from `history_before` to
/// `history_after` took the conversation from `from` to `to`. An encoder put
/// every nibble that it was offered.
pub open spec fn conversed<C: CDF16, W: ModelWeights, S: EncoderOrDecoderSpecialization>(
    from: Conversation<C, W>,
    history_before: Seq<CoderEvent<C>>,
    job: Job,
    source: S,
    decoding: bool,
    to: Conversation<C, W>,
    history_after: Seq<CoderEvent<C>>,
) -> bool {
    let events = history_after.skip(history_before.len() as int);
    &&& history_before.is_prefix_of(history_after)
    &&& from.after(job, source, events) == to
    &&& !decoding ==> nibbles_were_put(events)
}

/// Where a conversation stands after a nibble.
pub open spec fn stands_at<C, W>(
    coding: Coding<C, W>,
    io: Buffers,
    verdict: Option<BrotliResult>,
) -> Conversation<C, W> {
    match verdict {
        None => Conversation::AwaitingDrain { coding, io },
        Some(result) => Conversation::Finished { coding, io, result },
    }
}

/// The calls `first` and then `second` have the effect of all of them.
pub proof fn lemma_after_concat<C: CDF16, W: ModelWeights, S: EncoderOrDecoderSpecialization>(
    start: Conversation<C, W>,
    job: Job,
    source: S,
    first: Seq<CoderEvent<C>>,
    second: Seq<CoderEvent<C>>,
)
    ensures
        start.after(job, source, first + second) == start.after(job, source, first).after(
            job,
            source,
            second,
        ),
    decreases second.len(),
{
    if second.len() == 0 {
        assert(first + second == first);
    } else {
        assert((first + second).drop_last() == first + second.drop_last());
        lemma_after_concat(start, job, source, first, second.drop_last());
    }
}

/// Nothing was said where nothing was called.
pub proof fn lemma_conversed_nothing<C: CDF16, W: ModelWeights, S: EncoderOrDecoderSpecialization>(
    from: Conversation<C, W>,
    history: Seq<CoderEvent<C>>,
    job: Job,
    source: S,
    decoding: bool,
)
    ensures
        conversed(from, history, job, source, decoding, from, history),
{
}

/// One call is one step of the conversation.
pub proof fn lemma_conversed_once<C: CDF16, W: ModelWeights, S: EncoderOrDecoderSpecialization>(
    from: Conversation<C, W>,
    history: Seq<CoderEvent<C>>,
    job: Job,
    source: S,
    decoding: bool,
    event: CoderEvent<C>,
)
    requires
        !decoding ==> (event matches CoderEvent::Coded { request, reply } ==> reply.nibble
            == request.offered),
    ensures
        conversed(
            from,
            history,
            job,
            source,
            decoding,
            from.next(job, source, event),
            history.push(event),
        ),
{
    let events = history.push(event).skip(history.len() as int);
    assert(events == seq![event]);
    assert(events.drop_last() == Seq::<CoderEvent<C>>::empty());
    assert(from.after(job, source, events.drop_last()) == from);
}

/// Two conversations, of which one goes on where the other stopped, are one.
pub proof fn lemma_conversed_on<C: CDF16, W: ModelWeights, S: EncoderOrDecoderSpecialization>(
    first: Conversation<C, W>,
    first_history: Seq<CoderEvent<C>>,
    job: Job,
    source: S,
    decoding: bool,
    second: Conversation<C, W>,
    second_history: Seq<CoderEvent<C>>,
    third: Conversation<C, W>,
    third_history: Seq<CoderEvent<C>>,
)
    requires
        conversed(first, first_history, job, source, decoding, second, second_history),
        conversed(second, second_history, job, source, decoding, third, third_history),
    ensures
        conversed(first, first_history, job, source, decoding, third, third_history),
{
    let earlier = second_history.skip(first_history.len() as int);
    let later = third_history.skip(second_history.len() as int);
    assert(third_history.skip(first_history.len() as int) == earlier + later);
    lemma_after_concat(first, job, source, earlier, later);
}

/// Whether the coder's last call took `before` to `after`.
#[verifier::opaque]
pub open spec fn took_step<C: CDF16, W: ModelWeights, S: EncoderOrDecoderSpecialization>(
    before: Coding<C, W>,
    history_before: Seq<CoderEvent<C>>,
    job: Job,
    source: S,
    decoding: bool,
    after: Coding<C, W>,
    history_after: Seq<CoderEvent<C>>,
    verdict: Option<BrotliResult>,
) -> bool {
    let request = before.request(job, source);
    let reply = last_reply(history_after);
    &&& history_after == history_before.push(CoderEvent::Coded { request, reply })
    &&& reply.nibble < NIBBLE_VALUES
    &&& !decoding ==> reply.nibble == request.offered
    &&& before.step(job, reply) == Stepped { after, verdict }
}

/// A nibble that the machine asked for takes the conversation on, and the end
/// comes closer.
pub proof fn lemma_took_step<C: CDF16, W: ModelWeights, S: EncoderOrDecoderSpecialization>(
    before: Coding<C, W>,
    history_before: Seq<CoderEvent<C>>,
    job: Job,
    source: S,
    decoding: bool,
    after: Coding<C, W>,
    history_after: Seq<CoderEvent<C>>,
    verdict: Option<BrotliResult>,
    io: Buffers,
)
    requires
        before.can_run(job, source, decoding),
        !(before.state is Begin),
        !(before.state is FullyDecoded),
        took_step(
            before,
            history_before,
            job,
            source,
            decoding,
            after,
            history_after,
            verdict,
        ),
    ensures
        conversed(
            Conversation::AwaitingNibble { coding: before, io },
            history_before,
            job,
            source,
            decoding,
            stands_at(after, io, verdict),
            history_after,
        ),
        after.can_run(job, source, decoding),
        verdict is None ==> after.closer_than(before),
{
    reveal(took_step);
    let reply = last_reply(history_after);
    lemma_step_keeps_running(before, job, source, decoding, reply);
    let event = CoderEvent::Coded { request: before.request(job, source), reply };
    lemma_conversed_once(
        Conversation::AwaitingNibble { coding: before, io },
        history_before,
        job,
        source,
        decoding,
        event,
    );
}

} // verus!
