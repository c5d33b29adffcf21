//! What holds of literal coding as a whole.

use vstd::prelude::*;
use crate::bookkeeping::{recent_byte, with_byte, BookKeepingView};
use crate::context::{signed_class, utf8_last_class, utf8_second_last_class};
use crate::count::{
    bit_length, excess, next_multiple_of_4, CountStep, MAX_LITERAL_LEN, SHORT_LITERAL,
};
use crate::interface::{
    BrotliResult, Buffers, CodecTraits, CoderEvent, EncoderOrDecoderSpecialization,
    EncoderSpecialization, LiteralPredictionModeNibble, NibbleReply, NibbleRequest,
    LITERAL_PREDICTION_MODE_MSB6, LITERAL_PREDICTION_MODE_SIGN, LITERAL_PREDICTION_MODE_UTF8,
};
use crate::literal::LiteralSubstate;
use crate::machine::{nibbles_were_put, Coding, Conversation, Job};
use crate::nibble::HalfByte;
use crate::probability::{
    CDF16, ExternalProbCDF16, ModelWeights, NibbleCdf, ProbRange, NIBBLE_VALUES,
};

verus! {

/// The coder's replies among `events`, in order.
pub open spec fn replies_of<C>(events: Seq<CoderEvent<C>>) -> Seq<NibbleReply>
    decreases events.len(),
{
    if events.len() == 0 {
        Seq::empty()
    } else {
        let earlier = replies_of(events.drop_last());
        match events.last() {
            CoderEvent::Coded { request, reply } => earlier.push(reply),
            CoderEvent::Drained { before, after, result } => earlier,
        }
    }
}

/// What the coder was asked among `events`, in order.
pub open spec fn requests_of<C>(events: Seq<CoderEvent<C>>) -> Seq<NibbleRequest<C>>
    decreases events.len(),
{
    if events.len() == 0 {
        Seq::empty()
    } else {
        let earlier = requests_of(events.drop_last());
        match events.last() {
            CoderEvent::Coded { request, reply } => earlier.push(request),
            CoderEvent::Drained { before, after, result } => earlier,
        }
    }
}

/// One call of the coding routine: the buffers that it was given, and the
/// calls of the coder that it made.
#[verifier::ext_equal]
pub struct Call<C> {
    pub io: Buffers,
    pub events: Seq<CoderEvent<C>>,
}

/// The coder's replies during `calls`, in order.
pub open spec fn replies_over<C>(calls: Seq<Call<C>>) -> Seq<NibbleReply>
    decreases calls.len(),
{
    if calls.len() == 0 {
        Seq::empty()
    } else {
        replies_over(calls.drop_last()) + replies_of(calls.last().events)
    }
}

/// What the coder was asked during `calls`, in order.
pub open spec fn requests_over<C>(calls: Seq<Call<C>>) -> Seq<NibbleRequest<C>>
    decreases calls.len(),
{
    if calls.len() == 0 {
        Seq::empty()
    } else {
        requests_over(calls.drop_last()) + requests_of(calls.last().events)
    }
}

/// Whether every nibble came back as it was offered, in each of `calls`.
pub open spec fn nibbles_were_put_over<C>(calls: Seq<Call<C>>) -> bool {
    forall|i: int| 0 <= i < calls.len() ==> nibbles_were_put((#[trigger] calls[i]).events)
}

impl<C> NibbleRequest<C> {
    /// The same request with `nibble` in place of the offered one.
    pub open spec fn offering(self, nibble: u8) -> Self {
        NibbleRequest {
            offered: nibble,
            cdf: match self.cdf {
                NibbleCdf::Learnt(learnt) => NibbleCdf::Learnt(learnt),
                NibbleCdf::External(external) => NibbleCdf::External(
                    ExternalProbCDF16 { nibble, ..external },
                ),
            },
            billing: self.billing,
        }
    }

    /// The learnt distribution that a nibble is coded with or that its
    /// supplied probabilities lean on.
    pub open spec fn learnt(self) -> C {
        match self.cdf {
            NibbleCdf::Learnt(learnt) => learnt,
            NibbleCdf::External(external) => external.learnt,
        }
    }
}

/// Whether `one` asks what `other` asks, but for the nibbles that are offered.
///
/// The billing is the same. If as many bit probabilities were supplied, so are
/// the learnt distributions. If the very same were supplied, all is the same.
pub open spec fn asked_alike<C>(
    one: NibbleRequest<C>,
    one_job: Job,
    other: NibbleRequest<C>,
    other_job: Job,
) -> bool {
    &&& other.billing == one.billing
    &&& other_job.prob.len() == one_job.prob.len() ==> other.learnt() == one.learnt()
        && (other.cdf is External <==> one.cdf is External)
    &&& other_job.prob == one_job.prob ==> other == one.offering(other.offered)
}

/// Whether request by request `one` asks what `other` asks, but for the
/// nibbles that are offered.
pub open spec fn all_asked_alike<C>(
    one: Seq<NibbleRequest<C>>,
    one_job: Job,
    other: Seq<NibbleRequest<C>>,
    other_job: Job,
) -> bool {
    &&& other.len() == one.len()
    &&& forall|k: int|
        #![trigger one[k]]
        #![trigger other[k]]
        0 <= k < one.len() ==> asked_alike(one[k], one_job, other[k], other_job)
}

impl<C: CDF16, W: ModelWeights> Coding<C, W> {
    /// The same literal, past the state that codes nothing.
    pub open spec fn ready(self) -> Self {
        if self.state is Begin {
            Coding { state: LiteralSubstate::LiteralCountSmall, ..self }
        } else {
            self
        }
    }

    /// Whether no nibble after this one can be counted.
    pub open spec fn counter_is_full(self) -> bool {
        ||| self.state == LiteralSubstate::LiteralNibbleLowerHalf(u32::MAX)
        ||| self.state == LiteralSubstate::LiteralNibbleIndexWithECDF(u32::MAX)
    }

    /// Whether `nibble` completes a length that memory cannot hold.
    pub open spec fn length_is_too_much(self, nibble: u8) -> bool {
        self.state.counts() && (self.state.counted(nibble) matches CountStep::Length(len) && len
            > usize::MAX)
    }

    /// The literal after `replies`, with nothing in between.
    pub open spec fn replay(self, job: Job, replies: Seq<NibbleReply>) -> Self
        decreases replies.len(),
    {
        if replies.len() == 0 {
            self
        } else {
            self.replay(job, replies.drop_last()).ready().step(job, replies.last()).after
        }
    }

    /// What is asked on the way through `replies`.
    pub open spec fn asked<S: EncoderOrDecoderSpecialization>(
        self,
        job: Job,
        source: S,
        replies: Seq<NibbleReply>,
    ) -> Seq<NibbleRequest<C>>
        decreases replies.len(),
    {
        if replies.len() == 0 {
            Seq::empty()
        } else {
            let earlier = replies.drop_last();
            self.asked(job, source, earlier).push(
                self.replay(job, earlier).ready().request(job, source),
            )
        }
    }

    /// Where the last of `calls` ends, if each goes on where the one before it stopped.
    pub open spec fn last_call<S: EncoderOrDecoderSpecialization>(
        self,
        job: Job,
        source: S,
        calls: Seq<Call<C>>,
    ) -> Conversation<C, W>
        recommends
            calls.len() > 0,
        decreases calls.len(), 0nat,
    {
        if calls.len() == 0 {
            Conversation::Broken
        } else {
            Conversation::open(
                self.after_calls(job, source, calls.drop_last()),
                calls.last().io,
            ).after(job, source, calls.last().events)
        }
    }

    /// The literal after `calls`, each of which goes on where the one before it stopped.
    pub open spec fn after_calls<S: EncoderOrDecoderSpecialization>(
        self,
        job: Job,
        source: S,
        calls: Seq<Call<C>>,
    ) -> Self
        decreases calls.len(), 1nat,
    {
        if calls.len() == 0 {
            self
        } else {
            self.last_call(job, source, calls).coding()
        }
    }

    /// Whether each of `calls` came to its end.
    pub open spec fn calls_finish<S: EncoderOrDecoderSpecialization>(
        self,
        job: Job,
        source: S,
        calls: Seq<Call<C>>,
    ) -> bool
        decreases calls.len(),
    {
        calls.len() == 0 || (self.calls_finish(job, source, calls.drop_last()) && self.last_call(
            job,
            source,
            calls,
        ).finished())
    }

    /// Whether this is the literal of `job`, as far as it was coded.
    pub open spec fn mirrors(self, job: Job) -> bool {
        let literal = job.literal;
        &&& self.valid()
        &&& 1 <= literal.len() <= MAX_LITERAL_LEN
        &&& match self.state {
            LiteralSubstate::Begin => true,
            LiteralSubstate::FullyDecoded => self.data == literal,
            LiteralSubstate::LiteralNibbleIndex(index) => self.mirrors_nibbles(literal, index),
            LiteralSubstate::LiteralNibbleLowerHalf(index) => self.mirrors_nibbles(literal, index),
            LiteralSubstate::LiteralNibbleIndexWithECDF(index) => self.mirrors_nibbles(
                literal,
                index,
            ),
            _ => self.state.is_part_of(job.literal_len()),
        }
    }

    /// Whether the first `index` nibbles are those of `literal`.
    pub open spec fn mirrors_nibbles(self, literal: Seq<u8>, index: u32) -> bool {
        &&& self.data.len() == literal.len()
        &&& forall|i: int| 0 <= i < index / 2 ==> self.data[i] == literal[i]
        &&& index % 2 == 1 ==> self.data[(index / 2) as int] == 16 * (literal[(index / 2) as int]
            / 16)
    }

    /// How many nibbles are still to be put.
    pub open spec fn nibbles_left(self, job: Job) -> int {
        let bytes: int = 2 * job.literal.len() as int;
        let bits = bit_length(excess(job.literal_len()) as nat);
        let mantissa = next_multiple_of_4((bits - 1) as u8) / 4;
        match self.state {
            LiteralSubstate::LiteralCountMantissaNibbles(len_remaining, _) => len_remaining / 4
                + bytes,
            LiteralSubstate::LiteralCountLengthGreater14Less25 => 1 + mantissa + bytes,
            LiteralSubstate::LiteralCountFirst => if bits <= 1 {
                1 + bytes
            } else if bits < 15 {
                1 + mantissa + bytes
            } else {
                2 + mantissa + bytes
            },
            LiteralSubstate::LiteralNibbleIndex(index) => bytes - index,
            LiteralSubstate::LiteralNibbleLowerHalf(index) => bytes - index,
            LiteralSubstate::LiteralNibbleIndexWithECDF(index) => bytes - index,
            LiteralSubstate::FullyDecoded => 0,
            _ => if job.literal.len() < SHORT_LITERAL {
                1 + bytes
            } else if bits <= 1 {
                2 + bytes
            } else if bits < 15 {
                2 + mantissa + bytes
            } else {
                3 + mantissa + bytes
            },
        }
    }
}

/// An encoder that has put some of a literal's nibbles has put those of the
/// literal, every further nibble leaves one less to put, and nothing but the
/// last one ends the coding.
pub proof fn law_encoder_puts_the_literal<C: CDF16, W: ModelWeights>(
    coding: Coding<C, W>,
    job: Job,
    reply: NibbleReply,
)
    requires
        coding.mirrors(job),
        !(coding.state is Begin),
        !(coding.state is FullyDecoded),
        reply.nibble == coding.offered(job, EncoderSpecialization),
    ensures
        reply.nibble < NIBBLE_VALUES,
        coding.step(job, reply).after.mirrors(job),
        coding.step(job, reply).after.nibbles_left(job) == coding.nibbles_left(job) - 1,
        match coding.step(job, reply).verdict {
            None => !(coding.step(job, reply).after.state is FullyDecoded),
            Some(result) => result == BrotliResult::ResultSuccess
                && coding.step(job, reply).after.state is FullyDecoded,
        },
{
    let after = coding.step(job, reply).after;
    if coding.state.counts() {
        crate::count::law_length_is_restored(coding.state, job.literal_len());
        crate::count::lemma_top_bit(excess(job.literal_len()));
    } else {
        let b = coding.byte_index();
        let byte = job.literal[b];
        assert(((16 * (byte / 16)) as u8) | (byte % 16) == byte) by (bit_vector);
        assert(after.data.len() == job.literal.len());
        assert(forall|i: int| 0 <= i < b ==> after.data[i] == job.literal[i]);
        if after.state is FullyDecoded {
            assert(after.data =~= job.literal);
        }
    }
}

impl<C: CDF16, W: ModelWeights> Conversation<C, W> {
    /// The literal as far as it was coded.
    pub open spec fn coding(self) -> Coding<C, W>
        recommends
            !(self is Broken),
    {
        match self {
            Conversation::AwaitingDrain { coding, io } => coding,
            Conversation::AwaitingNibble { coding, io } => coding,
            Conversation::Finished { coding, io, result } => coding,
            Conversation::Broken => arbitrary(),
        }
    }

    /// Whether there is nothing left to say.
    pub open spec fn finished(self) -> bool {
        self is Finished
    }

    /// Whether the conversation ended with the whole literal coded.
    pub open spec fn succeeded(self) -> bool {
        self matches Conversation::Finished { coding, io, result } && result
            == BrotliResult::ResultSuccess
    }
}

/// What becomes of a literal and what the coder is asked depend on the coder's
/// replies alone: neither the buffers nor how often the coder was drained make a
/// difference.
pub proof fn law_only_replies_matter<C: CDF16, W: ModelWeights, S: EncoderOrDecoderSpecialization>(
    coding: Coding<C, W>,
    io: Buffers,
    job: Job,
    source: S,
    events: Seq<CoderEvent<C>>,
)
    ensures
        ({
            let reached = Conversation::open(coding, io).after(job, source, events);
            &&& !(reached is Broken) ==> reached.coding().ready() == coding.replay(
                job,
                replies_of(events),
            ).ready()
            &&& !(reached is Broken) ==> requests_of(events) == coding.asked(
                job,
                source,
                replies_of(events),
            )
            &&& reached is AwaitingNibble ==> !(reached.coding().state is Begin)
        }),
    decreases events.len(),
{
    if events.len() > 0 {
        law_only_replies_matter(coding, io, job, source, events.drop_last());
        let replies = replies_of(events);
        if events.last() is Coded {
            assert(replies.drop_last() == replies_of(events.drop_last()));
        }
    }
}

/// A call succeeds only where the literal is coded to its end. Any other result
/// is what the coder said when it was last drained, unless there are more
/// nibbles than can be counted or a length is more than memory can hold: those
/// are failures.
pub proof fn law_other_results_are_the_coders<
    C: CDF16,
    W: ModelWeights,
    S: EncoderOrDecoderSpecialization,
>(coding: Coding<C, W>, io: Buffers, job: Job, source: S, events: Seq<CoderEvent<C>>)
    ensures
        Conversation::open(coding, io).after(job, source, events) matches Conversation::Finished {
            coding: end,
            io: end_io,
            result,
        } ==> if result == BrotliResult::ResultSuccess {
            end.state is FullyDecoded
        } else {
            match events.last() {
                CoderEvent::Drained { before, after, result: said } => said == result,
                CoderEvent::Coded { request, reply } => result == BrotliResult::ResultFailure && (
                end.counter_is_full() || end.length_is_too_much(reply.nibble)),
            }
        },
{
}

/// Nothing but nibbles comes back in a conversation.
proof fn lemma_replies_are_nibbles<C: CDF16, W: ModelWeights, S: EncoderOrDecoderSpecialization>(
    start: Conversation<C, W>,
    job: Job,
    source: S,
    events: Seq<CoderEvent<C>>,
)
    requires
        !(start.after(job, source, events) is Broken),
    ensures
        forall|i: int|
            0 <= i < replies_of(events).len() ==> (#[trigger] replies_of(events)[i]).nibble
                < NIBBLE_VALUES,
    decreases events.len(),
{
    if events.len() > 0 {
        let earlier = replies_of(events.drop_last());
        lemma_replies_are_nibbles(start, job, source, events.drop_last());
        assert forall|i: int| 0 <= i < replies_of(events).len() implies (
        #[trigger] replies_of(events)[i]).nibble < NIBBLE_VALUES by {
            if i < earlier.len() {
                assert(replies_of(events)[i] == earlier[i]);
            }
        }
    }
}

/// A replay goes on where another stopped.
proof fn lemma_replay_concat<C: CDF16, W: ModelWeights>(
    coding: Coding<C, W>,
    resumed: Coding<C, W>,
    job: Job,
    first: Seq<NibbleReply>,
    second: Seq<NibbleReply>,
)
    requires
        resumed.ready() == coding.replay(job, first).ready(),
    ensures
        resumed.replay(job, second).ready() == coding.replay(job, first + second).ready(),
    decreases second.len(),
{
    if second.len() == 0 {
        assert(first + second == first);
    } else {
        assert((first + second).drop_last() == first + second.drop_last());
        lemma_replay_concat(coding, resumed, job, first, second.drop_last());
    }
}

/// What is asked goes on where the replies before stopped.
proof fn lemma_asked_concat<C: CDF16, W: ModelWeights, S: EncoderOrDecoderSpecialization>(
    coding: Coding<C, W>,
    resumed: Coding<C, W>,
    job: Job,
    source: S,
    first: Seq<NibbleReply>,
    second: Seq<NibbleReply>,
)
    requires
        resumed.ready() == coding.replay(job, first).ready(),
    ensures
        coding.asked(job, source, first + second) == coding.asked(job, source, first)
            + resumed.asked(job, source, second),
    decreases second.len(),
{
    if second.len() == 0 {
        assert(first + second == first);
    } else {
        let earlier = second.drop_last();
        assert((first + second).drop_last() == first + earlier);
        lemma_asked_concat(coding, resumed, job, source, first, earlier);
        lemma_replay_concat(coding, resumed, job, first, earlier);
    }
}

/// Any number of calls, each of which goes on where the one before it stopped,
/// do what their replies together do, and ask what those replies lead to.
pub proof fn law_calls_add_up<C: CDF16, W: ModelWeights, S: EncoderOrDecoderSpecialization>(
    coding: Coding<C, W>,
    job: Job,
    source: S,
    calls: Seq<Call<C>>,
)
    requires
        coding.calls_finish(job, source, calls),
    ensures
        coding.after_calls(job, source, calls).ready() == coding.replay(
            job,
            replies_over(calls),
        ).ready(),
        requests_over(calls) == coding.asked(job, source, replies_over(calls)),
    decreases calls.len(),
{
    if calls.len() > 0 {
        let earlier = calls.drop_last();
        let call = calls.last();
        let resumed = coding.after_calls(job, source, earlier);
        law_calls_add_up(coding, job, source, earlier);
        law_only_replies_matter(resumed, call.io, job, source, call.events);
        lemma_replay_concat(coding, resumed, job, replies_over(earlier), replies_of(call.events));
        lemma_asked_concat(
            coding,
            resumed,
            job,
            source,
            replies_over(earlier),
            replies_of(call.events),
        );
    }
}

/// Interruptions do not matter: however the coding of a literal is spread over
/// calls, if the coder's replies are the same, so are the bytes, the state and
/// all that was learnt, and the same nibbles were offered with the same
/// distributions and billing in the same order.
pub proof fn law_interruptions_do_not_matter<
    C: CDF16,
    W: ModelWeights,
    S: EncoderOrDecoderSpecialization,
>(
    coding: Coding<C, W>,
    job: Job,
    source: S,
    one_calls: Seq<Call<C>>,
    other_calls: Seq<Call<C>>,
)
    requires
        coding.calls_finish(job, source, one_calls),
        coding.calls_finish(job, source, other_calls),
        replies_over(one_calls) == replies_over(other_calls),
    ensures
        coding.after_calls(job, source, one_calls).ready() == coding.after_calls(
            job,
            source,
            other_calls,
        ).ready(),
        requests_over(one_calls) == requests_over(other_calls),
{
    law_calls_add_up(coding, job, source, one_calls);
    law_calls_add_up(coding, job, source, other_calls);
}

/// Whether two literals are at the same point, with the same learnt. Bytes
/// that will be replaced once the length is known do not count.
pub open spec fn in_step<C: CDF16, W: ModelWeights>(
    one: Coding<C, W>,
    other: Coding<C, W>,
) -> bool {
    &&& one.state == other.state
    &&& one.bk == other.bk
    &&& one.state.before_data() || one.data == other.data
}

/// The same reply keeps two literals in step.
proof fn lemma_step_in_step<C: CDF16, W: ModelWeights>(
    one: Coding<C, W>,
    other: Coding<C, W>,
    one_job: Job,
    other_job: Job,
    reply: NibbleReply,
)
    requires
        in_step(one, other),
        !(one.state is Begin),
        one_job.traits == other_job.traits,
        one_job.prob.len() == 0 <==> other_job.prob.len() == 0,
        reply.nibble < NIBBLE_VALUES,
    ensures
        in_step(one.step(one_job, reply).after, other.step(other_job, reply).after),
        one.step(one_job, reply).verdict == other.step(other_job, reply).verdict,
{
    if one.state.counts() {
        assert(one.count_learnt(reply.nibble) == other.count_learnt(reply.nibble));
        match one.state.counted(reply.nibble) {
            CountStep::Next(next) => {
                assert(next.counts());
            },
            CountStep::Length(len) => {},
        }
    } else {
        assert(one == other);
    }
}

/// The same replies keep two literals in step, whatever their commands hold.
proof fn lemma_replay_in_step<C: CDF16, W: ModelWeights>(
    one: Coding<C, W>,
    other: Coding<C, W>,
    one_job: Job,
    other_job: Job,
    replies: Seq<NibbleReply>,
)
    requires
        in_step(one, other),
        one_job.traits == other_job.traits,
        one_job.prob.len() == 0 <==> other_job.prob.len() == 0,
        forall|i: int| 0 <= i < replies.len() ==> (#[trigger] replies[i]).nibble < NIBBLE_VALUES,
    ensures
        in_step(one.replay(one_job, replies), other.replay(other_job, replies)),
    decreases replies.len(),
{
    if replies.len() > 0 {
        let reply = replies.last();
        lemma_replay_in_step(one, other, one_job, other_job, replies.drop_last());
        let one_before = one.replay(one_job, replies.drop_last()).ready();
        let other_before = other.replay(other_job, replies.drop_last()).ready();
        lemma_step_in_step(one_before, other_before, one_job, other_job, reply);
    }
}

/// Two literals that are in step ask alike.
proof fn lemma_request_in_step<
    C: CDF16,
    W: ModelWeights,
    S: EncoderOrDecoderSpecialization,
    T: EncoderOrDecoderSpecialization,
>(
    one: Coding<C, W>,
    other: Coding<C, W>,
    one_job: Job,
    other_job: Job,
    one_source: S,
    other_source: T,
)
    requires
        in_step(one, other),
        one_job.traits == other_job.traits,
    ensures
        asked_alike(
            one.request(one_job, one_source),
            one_job,
            other.request(other_job, other_source),
            other_job,
        ),
{
    if !one.state.before_data() {
        assert(one == other);
    }
}

/// The same replies make two literals ask alike all the way.
proof fn lemma_asked_in_step<
    C: CDF16,
    W: ModelWeights,
    S: EncoderOrDecoderSpecialization,
    T: EncoderOrDecoderSpecialization,
>(
    one: Coding<C, W>,
    other: Coding<C, W>,
    one_job: Job,
    other_job: Job,
    one_source: S,
    other_source: T,
    replies: Seq<NibbleReply>,
)
    requires
        in_step(one, other),
        one_job.traits == other_job.traits,
        one_job.prob.len() == 0 <==> other_job.prob.len() == 0,
        forall|i: int| 0 <= i < replies.len() ==> (#[trigger] replies[i]).nibble < NIBBLE_VALUES,
    ensures
        all_asked_alike(
            one.asked(one_job, one_source, replies),
            one_job,
            other.asked(other_job, other_source, replies),
            other_job,
        ),
    decreases replies.len(),
{
    if replies.len() > 0 {
        let earlier = replies.drop_last();
        lemma_asked_in_step(one, other, one_job, other_job, one_source, other_source, earlier);
        lemma_replay_in_step(one, other, one_job, other_job, earlier);
        lemma_request_in_step(
            one.replay(one_job, earlier).ready(),
            other.replay(other_job, earlier).ready(),
            one_job,
            other_job,
            one_source,
            other_source,
        );
    }
}

/// Nothing but nibbles comes back over calls that came to their end.
proof fn lemma_replies_over_are_nibbles<
    C: CDF16,
    W: ModelWeights,
    S: EncoderOrDecoderSpecialization,
>(coding: Coding<C, W>, job: Job, source: S, calls: Seq<Call<C>>)
    requires
        coding.calls_finish(job, source, calls),
    ensures
        forall|i: int|
            0 <= i < replies_over(calls).len() ==> (#[trigger] replies_over(calls)[i]).nibble
                < NIBBLE_VALUES,
    decreases calls.len(),
{
    if calls.len() > 0 {
        let earlier = calls.drop_last();
        let call = calls.last();
        lemma_replies_over_are_nibbles(coding, job, source, earlier);
        lemma_replies_are_nibbles(
            Conversation::open(coding.after_calls(job, source, earlier), call.io),
            job,
            source,
            call.events,
        );
        let first = replies_over(earlier);
        let second = replies_of(call.events);
        assert forall|i: int| 0 <= i < replies_over(calls).len() implies (
        #[trigger] replies_over(calls)[i]).nibble < NIBBLE_VALUES by {
            if i < first.len() {
                assert(replies_over(calls)[i] == first[i]);
            } else {
                assert(replies_over(calls)[i] == second[i - first.len()]);
            }
        }
    }
}

/// Two literals that start in step and get the same replies, over however many
/// calls each, end in step, and the coder is asked alike for both. What their
/// commands hold and where their bytes come from make no difference, nor do
/// stale bytes of a literal whose length is not known yet.
///
/// They are specialised alike, and both come with bit probabilities or neither.
pub proof fn law_same_replies_same_literal<
    C: CDF16,
    W: ModelWeights,
    S: EncoderOrDecoderSpecialization,
    T: EncoderOrDecoderSpecialization,
>(
    one: Coding<C, W>,
    one_job: Job,
    one_source: S,
    one_calls: Seq<Call<C>>,
    other: Coding<C, W>,
    other_job: Job,
    other_source: T,
    other_calls: Seq<Call<C>>,
)
    requires
        in_step(one, other),
        one_job.traits == other_job.traits,
        one_job.prob.len() == 0 <==> other_job.prob.len() == 0,
        one.calls_finish(one_job, one_source, one_calls),
        other.calls_finish(other_job, other_source, other_calls),
        replies_over(one_calls) == replies_over(other_calls),
    ensures
        in_step(
            one.after_calls(one_job, one_source, one_calls).ready(),
            other.after_calls(other_job, other_source, other_calls).ready(),
        ),
        all_asked_alike(
            requests_over(one_calls),
            one_job,
            requests_over(other_calls),
            other_job,
        ),
{
    let replies = replies_over(one_calls);
    law_calls_add_up(one, one_job, one_source, one_calls);
    law_calls_add_up(other, other_job, other_source, other_calls);
    lemma_replies_over_are_nibbles(one, one_job, one_source, one_calls);
    lemma_replay_in_step(one, other, one_job, other_job, replies);
    lemma_asked_in_step(one, other, one_job, other_job, one_source, other_source, replies);
}

/// An encoder's literal is the command's as far as it was put, and every nibble
/// that was put is one less to put. Coding succeeds when all of it was put, and
/// ends before that only where the coder asks for the caller, with what the
/// coder said.
pub proof fn law_encoder_ends_well<C: CDF16, W: ModelWeights>(
    coding: Coding<C, W>,
    io: Buffers,
    job: Job,
    events: Seq<CoderEvent<C>>,
)
    requires
        coding.mirrors(job),
        nibbles_were_put(events),
    ensures
        ({
            let reached = Conversation::open(coding, io).after(
                job,
                EncoderSpecialization,
                events,
            );
            &&& !(reached is Broken) ==> reached.coding().mirrors(job)
                && reached.coding().nibbles_left(job) == coding.nibbles_left(job) - replies_of(
                events,
            ).len()
            &&& reached is AwaitingNibble ==> !(reached.coding().state is Begin)
                && !(reached.coding().state is FullyDecoded)
            &&& reached matches Conversation::Finished { coding: end, io: end_io, result }
                ==> if result == BrotliResult::ResultSuccess {
                end.state is FullyDecoded && end.data == job.literal
            } else {
                events.last() matches CoderEvent::Drained { before, after, result: said }
                    && said == result
            }
        }),
    decreases events.len(),
{
    if events.len() > 0 {
        let earlier = events.drop_last();
        assert(nibbles_were_put(earlier)) by {
            assert forall|i: int| 0 <= i < earlier.len() implies (
            #[trigger] earlier[i] matches CoderEvent::Coded { request, reply } ==> reply.nibble
                == request.offered) by {
                assert(earlier[i] == events[i]);
            }
        }
        law_encoder_ends_well(coding, io, job, earlier);
        let before = Conversation::open(coding, io).after(
            job,
            EncoderSpecialization,
            earlier,
        );
        if let CoderEvent::Coded { request, reply } = events.last() {
            assert(events[events.len() - 1] == events.last());
            if before is AwaitingNibble && request == before.coding().request(
                job,
                EncoderSpecialization,
            ) {
                assert(request.offered == before.coding().offered(job, EncoderSpecialization));
                law_encoder_puts_the_literal(before.coding(), job, reply);
            }
        }
    }
}

/// Whether `replies` are the nibbles that an encoder puts, in order.
pub open spec fn puts<C: CDF16, W: ModelWeights>(
    coding: Coding<C, W>,
    job: Job,
    replies: Seq<NibbleReply>,
) -> bool {
    forall|k: int|
        0 <= k < replies.len() ==> (#[trigger] replies[k]).nibble == coding.replay(
            job,
            replies.take(k),
        ).ready().offered(job, EncoderSpecialization)
}

/// What is asked at each point is what the replies before it lead to.
proof fn lemma_asked_at<C: CDF16, W: ModelWeights, S: EncoderOrDecoderSpecialization>(
    coding: Coding<C, W>,
    job: Job,
    source: S,
    replies: Seq<NibbleReply>,
)
    ensures
        coding.asked(job, source, replies).len() == replies.len(),
        forall|k: int|
            0 <= k < replies.len() ==> #[trigger] coding.asked(job, source, replies)[k]
                == coding.replay(job, replies.take(k)).ready().request(job, source),
    decreases replies.len(),
{
    if replies.len() > 0 {
        let earlier = replies.drop_last();
        lemma_asked_at(coding, job, source, earlier);
        assert forall|k: int| 0 <= k < replies.len() implies #[trigger] coding.asked(
            job,
            source,
            replies,
        )[k] == coding.replay(job, replies.take(k)).ready().request(job, source) by {
            if k < earlier.len() {
                assert(coding.asked(job, source, replies)[k] == coding.asked(
                    job,
                    source,
                    earlier,
                )[k]);
                assert(earlier.take(k) == replies.take(k));
            } else {
                assert(replies.take(k) == earlier);
            }
        }
    }
}

/// Where every nibble came back as it was offered, the replies are what was offered.
proof fn lemma_offered_came_back<C>(events: Seq<CoderEvent<C>>)
    requires
        nibbles_were_put(events),
    ensures
        requests_of(events).len() == replies_of(events).len(),
        forall|k: int|
            0 <= k < replies_of(events).len() ==> (#[trigger] replies_of(events)[k]).nibble
                == requests_of(events)[k].offered,
    decreases events.len(),
{
    if events.len() > 0 {
        let earlier = events.drop_last();
        assert(nibbles_were_put(earlier)) by {
            assert forall|i: int| 0 <= i < earlier.len() implies (
            #[trigger] earlier[i] matches CoderEvent::Coded { request, reply } ==> reply.nibble
                == request.offered) by {
                assert(earlier[i] == events[i]);
            }
        }
        lemma_offered_came_back(earlier);
        assert(events[events.len() - 1] == events.last());
        assert forall|k: int| 0 <= k < replies_of(events).len() implies (
        #[trigger] replies_of(events)[k]).nibble == requests_of(events)[k].offered by {
            if k < replies_of(earlier).len() {
                assert(replies_of(events)[k] == replies_of(earlier)[k]);
            }
        }
    }
}

/// Over calls in which every nibble came back as it was offered, the replies
/// are what was offered.
proof fn lemma_offered_came_back_over<C>(calls: Seq<Call<C>>)
    requires
        nibbles_were_put_over(calls),
    ensures
        requests_over(calls).len() == replies_over(calls).len(),
        forall|k: int|
            0 <= k < replies_over(calls).len() ==> (#[trigger] replies_over(calls)[k]).nibble
                == requests_over(calls)[k].offered,
    decreases calls.len(),
{
    if calls.len() > 0 {
        let earlier = calls.drop_last();
        let events = calls.last().events;
        lemma_earlier_were_put(calls);
        lemma_offered_came_back_over(earlier);
        lemma_offered_came_back(events);
        let n = replies_over(earlier).len();
        assert forall|k: int| 0 <= k < replies_over(calls).len() implies (
        #[trigger] replies_over(calls)[k]).nibble == requests_over(calls)[k].offered by {
            if k < n {
                assert(replies_over(calls)[k] == replies_over(earlier)[k]);
            } else {
                assert(replies_over(calls)[k] == replies_of(events)[k - n]);
            }
        }
    }
}

/// Where all calls put what they were offered, so did the last one and those before it.
proof fn lemma_earlier_were_put<C>(calls: Seq<Call<C>>)
    requires
        nibbles_were_put_over(calls),
        calls.len() > 0,
    ensures
        nibbles_were_put_over(calls.drop_last()),
        nibbles_were_put(calls.last().events),
{
    let earlier = calls.drop_last();
    assert forall|i: int| 0 <= i < earlier.len() implies nibbles_were_put(
        (#[trigger] earlier[i]).events,
    ) by {
        assert(earlier[i] == calls[i]);
    }
    assert(nibbles_were_put(calls[calls.len() - 1].events));
}

/// Over any number of calls, an encoder puts the literal's nibbles in order. Its
/// literal is the command's as far as it was put, every nibble that was put is
/// one less to put, and a call that succeeds has put the last one.
pub proof fn law_encoder_ends_well_over_calls<C: CDF16, W: ModelWeights>(
    coding: Coding<C, W>,
    job: Job,
    calls: Seq<Call<C>>,
)
    requires
        coding.mirrors(job),
        coding.calls_finish(job, EncoderSpecialization, calls),
        nibbles_were_put_over(calls),
    ensures
        coding.after_calls(job, EncoderSpecialization, calls).mirrors(job),
        coding.after_calls(job, EncoderSpecialization, calls).nibbles_left(job)
            == coding.nibbles_left(job) - replies_over(calls).len(),
        coding.last_call(job, EncoderSpecialization, calls).succeeded() ==> coding.after_calls(
            job,
            EncoderSpecialization,
            calls,
        ).state is FullyDecoded,
        puts(coding, job, replies_over(calls)),
    decreases calls.len(),
{
    let replies = replies_over(calls);
    law_calls_add_up(coding, job, EncoderSpecialization, calls);
    lemma_asked_at(coding, job, EncoderSpecialization, replies);
    lemma_offered_came_back_over(calls);
    assert forall|k: int| 0 <= k < replies.len() implies (#[trigger] replies[k]).nibble
        == coding.replay(job, replies.take(k)).ready().offered(job, EncoderSpecialization) by {
        let asked = coding.asked(job, EncoderSpecialization, replies)[k];
        assert(asked.offered == coding.replay(job, replies.take(k)).ready().offered(
            job,
            EncoderSpecialization,
        ));
    }
    if calls.len() > 0 {
        let earlier = calls.drop_last();
        let call = calls.last();
        lemma_earlier_were_put(calls);
        law_encoder_ends_well_over_calls(coding, job, earlier);
        law_encoder_ends_well(
            coding.after_calls(job, EncoderSpecialization, earlier),
            call.io,
            job,
            call.events,
        );
    }
}

/// A decoder that gets from its coder what an encoder put has the encoder's
/// literal as far as it was put, and has learnt what the encoder learnt. Once
/// the encoder succeeds, the decoder has all of the literal. On the way the
/// decoder asks with the distributions and the billing that the encoder asked with.
///
/// Both start in step, and are specialised alike; where the literal comes with
/// bit probabilities, the decoder's does too. What else the decoder is given
/// makes no difference, nor over how many calls either of them goes.
pub proof fn law_decoder_restores_the_literal<
    C: CDF16,
    W: ModelWeights,
    S: EncoderOrDecoderSpecialization,
>(
    encoder: Coding<C, W>,
    encoder_job: Job,
    encoder_calls: Seq<Call<C>>,
    decoder: Coding<C, W>,
    decoder_job: Job,
    decoder_source: S,
    decoder_calls: Seq<Call<C>>,
)
    requires
        encoder.mirrors(encoder_job),
        encoder.calls_finish(encoder_job, EncoderSpecialization, encoder_calls),
        nibbles_were_put_over(encoder_calls),
        in_step(encoder, decoder),
        decoder_job.traits == encoder_job.traits,
        decoder_job.prob.len() == 0 <==> encoder_job.prob.len() == 0,
        decoder.calls_finish(decoder_job, decoder_source, decoder_calls),
        replies_over(decoder_calls) == replies_over(encoder_calls),
    ensures
        ({
            let encoded = encoder.after_calls(encoder_job, EncoderSpecialization, encoder_calls);
            let decoded = decoder.after_calls(decoder_job, decoder_source, decoder_calls);
            &&& in_step(encoded.ready(), decoded.ready())
            &&& decoded.mirrors(encoder_job)
            &&& decoded.state is FullyDecoded ==> decoded.data == encoder_job.literal
            &&& encoder.last_call(
                encoder_job,
                EncoderSpecialization,
                encoder_calls,
            ).succeeded() ==> decoded.state is FullyDecoded
        }),
        all_asked_alike(
            requests_over(encoder_calls),
            encoder_job,
            requests_over(decoder_calls),
            decoder_job,
        ),
{
    law_encoder_ends_well_over_calls(encoder, encoder_job, encoder_calls);
    law_same_replies_same_literal(
        encoder,
        encoder_job,
        EncoderSpecialization,
        encoder_calls,
        decoder,
        decoder_job,
        decoder_source,
        decoder_calls,
    );
}

/// Whether every reply's range is `range_of` the distribution that was asked
/// with and the nibble that came back.
pub open spec fn ranges_follow<C>(
    requests: Seq<NibbleRequest<C>>,
    replies: Seq<NibbleReply>,
    range_of: spec_fn(NibbleCdf<C>, u8) -> ProbRange,
) -> bool {
    forall|k: int|
        0 <= k < replies.len() ==> (#[trigger] replies[k]).range == range_of(
            requests[k].cdf,
            replies[k].nibble,
        )
}

/// Whether the nibbles of `one` and `other` agree as far as both go.
pub open spec fn nibbles_agree(one: Seq<NibbleReply>, other: Seq<NibbleReply>) -> bool {
    forall|k: int|
        #![trigger one[k]]
        #![trigger other[k]]
        0 <= k < one.len() && k < other.len() ==> one[k].nibble == other[k].nibble
}

/// Whether `one` and `other` agree as far as both go.
pub open spec fn replies_agree(one: Seq<NibbleReply>, other: Seq<NibbleReply>) -> bool {
    forall|k: int|
        #![trigger one[k]]
        #![trigger other[k]]
        0 <= k < one.len() && k < other.len() ==> one[k] == other[k]
}

/// Whether `range_of` looks at a supplied distribution's probabilities and not
/// at the nibble that it was supplied for.
pub open spec fn ignores_offered<C>(range_of: spec_fn(NibbleCdf<C>, u8) -> ProbRange) -> bool {
    forall|request: NibbleRequest<C>, offered: u8, nibble: u8|
        #[trigger] range_of(request.offering(offered).cdf, nibble) == range_of(request.cdf, nibble)
}

/// Whether all `replies` hold nibbles.
spec fn hold_nibbles(replies: Seq<NibbleReply>) -> bool {
    forall|i: int| 0 <= i < replies.len() ==> (#[trigger] replies[i]).nibble < NIBBLE_VALUES
}

/// The range of `nibble`, if it comes after `replies`.
spec fn range_after<C: CDF16, W: ModelWeights, S: EncoderOrDecoderSpecialization>(
    coding: Coding<C, W>,
    job: Job,
    source: S,
    range_of: spec_fn(NibbleCdf<C>, u8) -> ProbRange,
    replies: Seq<NibbleReply>,
    nibble: u8,
) -> ProbRange {
    range_of(coding.replay(job, replies).ready().request(job, source).cdf, nibble)
}

/// No nibble is coded once a literal was coded to its end.
proof fn lemma_no_reply_after_end<C: CDF16, W: ModelWeights, S: EncoderOrDecoderSpecialization>(
    coding: Coding<C, W>,
    io: Buffers,
    job: Job,
    source: S,
    events: Seq<CoderEvent<C>>,
)
    requires
        !(Conversation::open(coding, io).after(job, source, events) is Broken),
    ensures
        Conversation::open(coding, io).after(job, source, events) is AwaitingNibble ==> !(
        Conversation::open(coding, io).after(job, source, events).coding().state is FullyDecoded),
        forall|k: int|
            0 <= k < replies_of(events).len() ==> !((#[trigger] coding.replay(
                job,
                replies_of(events).take(k),
            )).state is FullyDecoded),
    decreases events.len(),
{
    if events.len() > 0 {
        let earlier = events.drop_last();
        let replies = replies_of(events);
        lemma_no_reply_after_end(coding, io, job, source, earlier);
        law_only_replies_matter(coding, io, job, source, earlier);
        assert forall|k: int| 0 <= k < replies.len() implies !((#[trigger] coding.replay(
            job,
            replies.take(k),
        )).state is FullyDecoded) by {
            if k < replies_of(earlier).len() {
                assert(replies.take(k) == replies_of(earlier).take(k));
            } else {
                assert(replies.take(k) == replies_of(earlier));
            }
        }
    }
}

/// No nibble is coded once a literal was coded to its end, by whichever call.
proof fn lemma_no_reply_after_end_over<
    C: CDF16,
    W: ModelWeights,
    S: EncoderOrDecoderSpecialization,
>(coding: Coding<C, W>, job: Job, source: S, calls: Seq<Call<C>>)
    requires
        coding.calls_finish(job, source, calls),
    ensures
        forall|k: int|
            0 <= k < replies_over(calls).len() ==> !((#[trigger] coding.replay(
                job,
                replies_over(calls).take(k),
            )).state is FullyDecoded),
    decreases calls.len(),
{
    if calls.len() > 0 {
        let earlier = calls.drop_last();
        let call = calls.last();
        let resumed = coding.after_calls(job, source, earlier);
        let first = replies_over(earlier);
        let second = replies_of(call.events);
        lemma_no_reply_after_end_over(coding, job, source, earlier);
        law_calls_add_up(coding, job, source, earlier);
        lemma_no_reply_after_end(resumed, call.io, job, source, call.events);
        assert forall|k: int| 0 <= k < replies_over(calls).len() implies !((
        #[trigger] coding.replay(job, replies_over(calls).take(k))).state is FullyDecoded) by {
            if k < first.len() {
                assert(replies_over(calls).take(k) == first.take(k));
            } else {
                let more = second.take(k - first.len());
                assert(replies_over(calls).take(k) == first + more);
                lemma_replay_concat(coding, resumed, job, first, more);
                assert(!(resumed.replay(job, more).state is FullyDecoded));
            }
        }
    }
}

/// Where the same nibbles have the same ranges at the same point, nibbles that
/// agree make for replies that agree.
proof fn lemma_replies_agree<
    C: CDF16,
    W: ModelWeights,
    S: EncoderOrDecoderSpecialization,
    T: EncoderOrDecoderSpecialization,
>(
    one: Coding<C, W>,
    one_job: Job,
    one_source: S,
    one_calls: Seq<Call<C>>,
    other: Coding<C, W>,
    other_job: Job,
    other_source: T,
    other_calls: Seq<Call<C>>,
    range_of: spec_fn(NibbleCdf<C>, u8) -> ProbRange,
    n: nat,
)
    requires
        one.calls_finish(one_job, one_source, one_calls),
        other.calls_finish(other_job, other_source, other_calls),
        ranges_follow(requests_over(one_calls), replies_over(one_calls), range_of),
        ranges_follow(requests_over(other_calls), replies_over(other_calls), range_of),
        nibbles_agree(replies_over(one_calls), replies_over(other_calls)),
        forall|replies: Seq<NibbleReply>, nibble: u8|
            hold_nibbles(replies) ==> #[trigger] range_after(
                one,
                one_job,
                one_source,
                range_of,
                replies,
                nibble,
            ) == range_after(other, other_job, other_source, range_of, replies, nibble),
        n <= replies_over(one_calls).len(),
        n <= replies_over(other_calls).len(),
    ensures
        replies_over(one_calls).take(n as int) == replies_over(other_calls).take(n as int),
    decreases n,
{
    let one_replies = replies_over(one_calls);
    let other_replies = replies_over(other_calls);
    if n > 0 {
        let last = n - 1;
        lemma_replies_agree(
            one,
            one_job,
            one_source,
            one_calls,
            other,
            other_job,
            other_source,
            other_calls,
            range_of,
            last as nat,
        );
        let earlier = one_replies.take(last);
        let nibble = one_replies[last].nibble;
        law_calls_add_up(one, one_job, one_source, one_calls);
        law_calls_add_up(other, other_job, other_source, other_calls);
        lemma_asked_at(one, one_job, one_source, one_replies);
        lemma_asked_at(other, other_job, other_source, other_replies);
        lemma_replies_over_are_nibbles(one, one_job, one_source, one_calls);
        assert(hold_nibbles(earlier)) by {
            assert forall|i: int| 0 <= i < earlier.len() implies (#[trigger] earlier[i]).nibble
                < NIBBLE_VALUES by {
                assert(earlier[i] == one_replies[i]);
            }
        }
        assert(other_replies[last].nibble == nibble);
        assert(one_replies[last].range == range_after(
            one,
            one_job,
            one_source,
            range_of,
            earlier,
            nibble,
        )) by {
            assert(requests_over(one_calls)[last] == one.asked(
                one_job,
                one_source,
                one_replies,
            )[last]);
        }
        assert(other_replies[last].range == range_after(
            other,
            other_job,
            other_source,
            range_of,
            earlier,
            nibble,
        )) by {
            assert(requests_over(other_calls)[last] == other.asked(
                other_job,
                other_source,
                other_replies,
            )[last]);
        }
        assert(one_replies[last] == other_replies[last]);
        assert(one_replies.take(n as int) == earlier.push(one_replies[last]));
        assert(other_replies.take(n as int) == earlier.push(other_replies[last]));
    }
}

/// Replies that agree are as many on both sides, if both literals were coded to their end.
proof fn lemma_same_number_of_replies<
    C: CDF16,
    W: ModelWeights,
    S: EncoderOrDecoderSpecialization,
    T: EncoderOrDecoderSpecialization,
>(
    one: Coding<C, W>,
    one_job: Job,
    one_source: S,
    one_calls: Seq<Call<C>>,
    other: Coding<C, W>,
    other_job: Job,
    other_source: T,
    other_calls: Seq<Call<C>>,
)
    requires
        in_step(one, other),
        one_job.traits == other_job.traits,
        one_job.prob.len() == 0 <==> other_job.prob.len() == 0,
        one.calls_finish(one_job, one_source, one_calls),
        other.calls_finish(other_job, other_source, other_calls),
        one.after_calls(one_job, one_source, one_calls).state is FullyDecoded,
        replies_over(one_calls).len() <= replies_over(other_calls).len(),
        replies_over(one_calls) == replies_over(other_calls).take(
            replies_over(one_calls).len() as int,
        ),
    ensures
        replies_over(one_calls).len() == replies_over(other_calls).len(),
{
    let replies = replies_over(one_calls);
    law_calls_add_up(one, one_job, one_source, one_calls);
    lemma_replies_over_are_nibbles(one, one_job, one_source, one_calls);
    lemma_replay_in_step(one, other, one_job, other_job, replies);
    lemma_no_reply_after_end_over(other, other_job, other_source, other_calls);
    assert(other.replay(other_job, replies).state is FullyDecoded);
}

/// What [`lemma_replies_agree`] and [`lemma_same_number_of_replies`] come to.
proof fn lemma_nibbles_fix_replies<
    C: CDF16,
    W: ModelWeights,
    S: EncoderOrDecoderSpecialization,
    T: EncoderOrDecoderSpecialization,
>(
    one: Coding<C, W>,
    one_job: Job,
    one_source: S,
    one_calls: Seq<Call<C>>,
    other: Coding<C, W>,
    other_job: Job,
    other_source: T,
    other_calls: Seq<Call<C>>,
    range_of: spec_fn(NibbleCdf<C>, u8) -> ProbRange,
)
    requires
        in_step(one, other),
        one_job.traits == other_job.traits,
        one_job.prob.len() == 0 <==> other_job.prob.len() == 0,
        one.calls_finish(one_job, one_source, one_calls),
        other.calls_finish(other_job, other_source, other_calls),
        ranges_follow(requests_over(one_calls), replies_over(one_calls), range_of),
        ranges_follow(requests_over(other_calls), replies_over(other_calls), range_of),
        nibbles_agree(replies_over(one_calls), replies_over(other_calls)),
        forall|replies: Seq<NibbleReply>, nibble: u8|
            hold_nibbles(replies) ==> #[trigger] range_after(
                one,
                one_job,
                one_source,
                range_of,
                replies,
                nibble,
            ) == range_after(other, other_job, other_source, range_of, replies, nibble),
    ensures
        replies_agree(replies_over(one_calls), replies_over(other_calls)),
        one.after_calls(one_job, one_source, one_calls).state is FullyDecoded
            && other.after_calls(other_job, other_source, other_calls).state is FullyDecoded
            ==> replies_over(one_calls) == replies_over(other_calls),
{
    let one_replies = replies_over(one_calls);
    let other_replies = replies_over(other_calls);
    let n = if one_replies.len() <= other_replies.len() {
        one_replies.len()
    } else {
        other_replies.len()
    };
    lemma_replies_agree(
        one,
        one_job,
        one_source,
        one_calls,
        other,
        other_job,
        other_source,
        other_calls,
        range_of,
        n,
    );
    assert forall|k: int|
        #![trigger one_replies[k]]
        #![trigger other_replies[k]]
        0 <= k < one_replies.len() && k < other_replies.len() implies one_replies[k]
        == other_replies[k] by {
        assert(one_replies.take(n as int)[k] == other_replies.take(n as int)[k]);
    }
    if one.after_calls(one_job, one_source, one_calls).state is FullyDecoded && other.after_calls(
        other_job,
        other_source,
        other_calls,
    ).state is FullyDecoded {
        if n == one_replies.len() {
            assert(one_replies.take(n as int) == one_replies);
            lemma_same_number_of_replies(
                one,
                one_job,
                one_source,
                one_calls,
                other,
                other_job,
                other_source,
                other_calls,
            );
        } else {
            assert(other_replies.take(n as int) == other_replies);
            lemma_same_number_of_replies(
                other,
                other_job,
                other_source,
                other_calls,
                one,
                one_job,
                one_source,
                one_calls,
            );
        }
        assert(one_replies == other_replies);
    }
}

/// Only nibbles travel through a stream, and they are enough: where ranges
/// follow from distributions and nibbles, two literals that start in step and
/// get the same nibbles get the same replies. If both are coded to their end,
/// they get equally many.
///
/// They are specialised alike and come with the same bit probabilities. If
/// there are any, ranges must not follow from the nibble that an encoder knows
/// and a decoder does not.
pub proof fn law_nibbles_fix_replies<
    C: CDF16,
    W: ModelWeights,
    S: EncoderOrDecoderSpecialization,
    T: EncoderOrDecoderSpecialization,
>(
    one: Coding<C, W>,
    one_job: Job,
    one_source: S,
    one_calls: Seq<Call<C>>,
    other: Coding<C, W>,
    other_job: Job,
    other_source: T,
    other_calls: Seq<Call<C>>,
    range_of: spec_fn(NibbleCdf<C>, u8) -> ProbRange,
)
    requires
        in_step(one, other),
        one_job.traits == other_job.traits,
        one_job.prob == other_job.prob,
        one_job.prob.len() == 0 || ignores_offered(range_of),
        one.calls_finish(one_job, one_source, one_calls),
        other.calls_finish(other_job, other_source, other_calls),
        ranges_follow(requests_over(one_calls), replies_over(one_calls), range_of),
        ranges_follow(requests_over(other_calls), replies_over(other_calls), range_of),
        nibbles_agree(replies_over(one_calls), replies_over(other_calls)),
    ensures
        replies_agree(replies_over(one_calls), replies_over(other_calls)),
        one.after_calls(one_job, one_source, one_calls).state is FullyDecoded
            && other.after_calls(other_job, other_source, other_calls).state is FullyDecoded
            ==> replies_over(one_calls) == replies_over(other_calls),
{
    assert forall|replies: Seq<NibbleReply>, nibble: u8|
        hold_nibbles(replies) implies #[trigger] range_after(
        one,
        one_job,
        one_source,
        range_of,
        replies,
        nibble,
    ) == range_after(other, other_job, other_source, range_of, replies, nibble) by {
        lemma_replay_in_step(one, other, one_job, other_job, replies);
        let one_before = one.replay(one_job, replies).ready();
        let other_before = other.replay(other_job, replies).ready();
        lemma_request_in_step(
            one_before,
            other_before,
            one_job,
            other_job,
            one_source,
            other_source,
        );
        let one_request = one_before.request(one_job, one_source);
        let other_request = other_before.request(other_job, other_source);
        assert(other_request == one_request.offering(other_request.offered));
        if one_job.prob.len() == 0 {
            assert(one_request.cdf is Learnt);
        } else {
            assert(range_of(one_request.offering(other_request.offered).cdf, nibble) == range_of(
                one_request.cdf,
                nibble,
            ));
        }
    }
    lemma_nibbles_fix_replies(
        one,
        one_job,
        one_source,
        one_calls,
        other,
        other_job,
        other_source,
        other_calls,
        range_of,
    );
}

/// A stream restores the literal: where ranges follow from distributions and
/// nibbles, a decoder that reads the nibbles of an encoder that succeeded ends
/// with the encoder's literal and with what the encoder learnt, over however
/// many calls either of them goes. It has read them all once it is done, and is
/// done once it has read as many as were put.
///
/// What is asked of bit probabilities is what [`law_nibbles_fix_replies`] asks.
pub proof fn law_stream_restores_the_literal<
    C: CDF16,
    W: ModelWeights,
    S: EncoderOrDecoderSpecialization,
>(
    encoder: Coding<C, W>,
    encoder_job: Job,
    encoder_calls: Seq<Call<C>>,
    decoder: Coding<C, W>,
    decoder_job: Job,
    decoder_source: S,
    decoder_calls: Seq<Call<C>>,
    range_of: spec_fn(NibbleCdf<C>, u8) -> ProbRange,
)
    requires
        encoder.mirrors(encoder_job),
        encoder.calls_finish(encoder_job, EncoderSpecialization, encoder_calls),
        nibbles_were_put_over(encoder_calls),
        encoder.last_call(encoder_job, EncoderSpecialization, encoder_calls).succeeded(),
        in_step(encoder, decoder),
        decoder_job.traits == encoder_job.traits,
        decoder_job.prob == encoder_job.prob,
        encoder_job.prob.len() == 0 || ignores_offered(range_of),
        decoder.calls_finish(decoder_job, decoder_source, decoder_calls),
        ranges_follow(requests_over(encoder_calls), replies_over(encoder_calls), range_of),
        ranges_follow(requests_over(decoder_calls), replies_over(decoder_calls), range_of),
        nibbles_agree(replies_over(encoder_calls), replies_over(decoder_calls)),
    ensures
        ({
            let encoded = encoder.after_calls(encoder_job, EncoderSpecialization, encoder_calls);
            let decoded = decoder.after_calls(decoder_job, decoder_source, decoder_calls);
            &&& decoded.state is FullyDecoded <==> replies_over(decoder_calls).len()
                == replies_over(encoder_calls).len()
            &&& decoded.state is FullyDecoded ==> decoded.data == encoder_job.literal && decoded.bk
                == encoded.bk && all_asked_alike(
                requests_over(encoder_calls),
                encoder_job,
                requests_over(decoder_calls),
                decoder_job,
            )
        }),
{
    let decoded = decoder.after_calls(decoder_job, decoder_source, decoder_calls);
    law_encoder_ends_well_over_calls(encoder, encoder_job, encoder_calls);
    law_nibbles_fix_replies(
        encoder,
        encoder_job,
        EncoderSpecialization,
        encoder_calls,
        decoder,
        decoder_job,
        decoder_source,
        decoder_calls,
        range_of,
    );
    if decoded.state is FullyDecoded || replies_over(decoder_calls).len() == replies_over(
        encoder_calls,
    ).len() {
        assert(replies_over(decoder_calls) == replies_over(encoder_calls));
        law_decoder_restores_the_literal(
            encoder,
            encoder_job,
            encoder_calls,
            decoder,
            decoder_job,
            decoder_source,
            decoder_calls,
        );
    }
}

/// Interruptions do not matter to a stream: where ranges follow from
/// distributions and nibbles, and the coding of a literal is spread over calls
/// in two ways that code the same nibbles, the replies are the same as far as
/// both go. If both come to the end of the literal, all is the same: the
/// replies, the bytes, all that was learnt, and what was asked.
pub proof fn law_interruptions_do_not_matter_to_a_stream<
    C: CDF16,
    W: ModelWeights,
    S: EncoderOrDecoderSpecialization,
>(
    coding: Coding<C, W>,
    job: Job,
    source: S,
    one_calls: Seq<Call<C>>,
    other_calls: Seq<Call<C>>,
    range_of: spec_fn(NibbleCdf<C>, u8) -> ProbRange,
)
    requires
        coding.calls_finish(job, source, one_calls),
        coding.calls_finish(job, source, other_calls),
        ranges_follow(requests_over(one_calls), replies_over(one_calls), range_of),
        ranges_follow(requests_over(other_calls), replies_over(other_calls), range_of),
        nibbles_agree(replies_over(one_calls), replies_over(other_calls)),
    ensures
        replies_agree(replies_over(one_calls), replies_over(other_calls)),
        coding.after_calls(job, source, one_calls).state is FullyDecoded && coding.after_calls(
            job,
            source,
            other_calls,
        ).state is FullyDecoded ==> replies_over(one_calls) == replies_over(other_calls)
            && coding.after_calls(job, source, one_calls) == coding.after_calls(
            job,
            source,
            other_calls,
        ) && requests_over(one_calls) == requests_over(other_calls),
{
    lemma_nibbles_fix_replies(
        coding,
        job,
        source,
        one_calls,
        coding,
        job,
        source,
        other_calls,
        range_of,
    );
    if replies_over(one_calls) == replies_over(other_calls) {
        law_interruptions_do_not_matter(coding, job, source, one_calls, other_calls);
    }
}

/// As many nibbles as were put are no longer left.
#[verifier::spinoff_prover]
proof fn lemma_puts<C: CDF16, W: ModelWeights>(
    coding: Coding<C, W>,
    job: Job,
    replies: Seq<NibbleReply>,
)
    requires
        coding.mirrors(job),
        puts(coding, job, replies),
        replies.len() <= coding.nibbles_left(job),
    ensures
        coding.replay(job, replies).mirrors(job),
        coding.replay(job, replies).nibbles_left(job) == coding.nibbles_left(job) - replies.len(),
        forall|k: int| 0 <= k < replies.len() ==> (#[trigger] replies[k]).nibble < NIBBLE_VALUES,
    decreases replies.len(),
{
    if replies.len() > 0 {
        let earlier = replies.drop_last();
        let last = replies.len() - 1;
        assert(puts(coding, job, earlier)) by {
            assert forall|k: int| 0 <= k < earlier.len() implies (#[trigger] earlier[k]).nibble
                == coding.replay(job, earlier.take(k)).ready().offered(
                job,
                EncoderSpecialization,
            ) by {
                assert(earlier.take(k) == replies.take(k));
                assert(earlier[k] == replies[k]);
            }
        }
        lemma_puts(coding, job, earlier);
        assert(replies.take(last) == earlier);
        assert(replies[last] == replies.last());
        let before = coding.replay(job, earlier).ready();
        assert(before.mirrors(job));
        assert(before.nibbles_left(job) == coding.replay(job, earlier).nibbles_left(job));
        law_encoder_puts_the_literal(before, job, replies.last());
        assert forall|k: int| 0 <= k < replies.len() implies (#[trigger] replies[k]).nibble
            < NIBBLE_VALUES by {
            if k < last {
                assert(earlier[k] == replies[k]);
            }
        }
    }
}

/// A literal survives: an encoder is done when it has put the nibbles that were
/// left, no sooner and no later, and whoever takes those nibbles from the same
/// point on ends with the encoder's literal and with what the encoder learnt.
///
/// It makes no difference over how many calls the nibbles were put and taken.
pub proof fn law_literal_survives<C: CDF16, W: ModelWeights>(
    encoder: Coding<C, W>,
    encoder_job: Job,
    decoder: Coding<C, W>,
    decoder_job: Job,
    replies: Seq<NibbleReply>,
)
    requires
        encoder.mirrors(encoder_job),
        puts(encoder, encoder_job, replies),
        replies.len() <= encoder.nibbles_left(encoder_job),
        in_step(encoder, decoder),
        decoder_job.traits == encoder_job.traits,
        decoder_job.prob.len() == 0 <==> encoder_job.prob.len() == 0,
    ensures
        in_step(
            encoder.replay(encoder_job, replies),
            decoder.replay(decoder_job, replies),
        ),
        decoder.replay(decoder_job, replies).state is FullyDecoded <==> replies.len()
            == encoder.nibbles_left(encoder_job),
        decoder.replay(decoder_job, replies).state is FullyDecoded ==> decoder.replay(
            decoder_job,
            replies,
        ).data == encoder_job.literal,
{
    lemma_puts(encoder, encoder_job, replies);
    lemma_replay_in_step(encoder, decoder, encoder_job, decoder_job, replies);
}

/// What the last byte adds to the context in `mode`.
pub open spec fn mode_lut0(mode: LiteralPredictionModeNibble, byte: u8) -> u8 {
    if mode.0 == LITERAL_PREDICTION_MODE_SIGN {
        (8 * signed_class(byte)) as u8
    } else if mode.0 == LITERAL_PREDICTION_MODE_UTF8 {
        utf8_last_class(byte)
    } else if mode.0 == LITERAL_PREDICTION_MODE_MSB6 {
        byte / 4
    } else {
        byte % 64
    }
}

/// What the second last byte adds to the context in `mode`.
pub open spec fn mode_lut1(mode: LiteralPredictionModeNibble, byte: u8) -> u8 {
    if mode.0 == LITERAL_PREDICTION_MODE_SIGN {
        signed_class(byte)
    } else if mode.0 == LITERAL_PREDICTION_MODE_UTF8 {
        utf8_second_last_class(byte)
    } else {
        0
    }
}

/// With the lookup tables of a prediction mode, the tables select the context
/// that the mode selects, and both ways of coding know the same of a byte.
pub proof fn law_tables_stand_for_the_mode<C: CDF16, W: ModelWeights>(
    bk: BookKeepingView<C, W>,
    traits: CodecTraits,
)
    requires
        forall|b: u8|
            #[trigger] bk.literal_lut0[b as int] == mode_lut0(bk.literal_prediction_mode, b),
        forall|b: u8|
            #[trigger] bk.literal_lut1[b as int] == mode_lut1(bk.literal_prediction_mode, b),
        traits.materialized_prediction_mode == bk.materialized_prediction_mode,
    ensures
        bk.table_context() == bk.mode_context(),
        bk.byte_context(traits) == bk.mode_byte_context(),
{
    let prev_byte = recent_byte(bk.last_8_literals, 1);
    let prev_prev_byte = recent_byte(bk.last_8_literals, 2);
    let last = signed_class(prev_byte);
    let second_last = signed_class(prev_prev_byte);
    assert(((8 * last) as u8) | second_last == 8 * last + second_last) by (bit_vector)
        requires
            last < 8,
            second_last < 8,
    ;
    let six_bits = mode_lut0(bk.literal_prediction_mode, prev_byte);
    assert(six_bits | 0 == six_bits) by (bit_vector);
}

/// Code that is specialised for the settings in force expects what code that
/// consults them expects, and learns the same. Weights that adapt without
/// being used to mix are the exception: only the consulting code updates them.
pub proof fn law_specialised_code_agrees<C: CDF16, W: ModelWeights>(
    bk: BookKeepingView<C, W>,
    half: HalfByte,
    traits: CodecTraits,
    nibble_index: u32,
    offered: u8,
    reply: NibbleReply,
)
    requires
        traits.materialized_prediction_mode == bk.materialized_prediction_mode,
        traits.combine_literal_predictions == bk.combine_literal_predictions,
        traits.should_mix == bk.model_weights[half.weights_index()].adapts(),
        bk.combine_literal_predictions || !traits.should_mix,
    ensures
        bk.half_byte_request(half, traits, offered).cdf == bk.supplied_request(
            half,
            nibble_index,
            Seq::empty(),
            offered,
        ).cdf,
        bk.learnt_by(half, traits, reply) == bk.learnt_in_force(half, reply),
{
}

/// A byte that is coded becomes the last one, and those before it move back.
pub proof fn law_bytes_move_back(last_8_literals: u64, byte: u8, distance: u8)
    requires
        1 <= distance < 8,
    ensures
        recent_byte(with_byte(last_8_literals, byte), 1) == byte,
        recent_byte(with_byte(last_8_literals, byte), (distance + 1) as u8) == recent_byte(
            last_8_literals,
            distance,
        ),
{
    let l = last_8_literals;
    let s = (64 - 8 * distance) as u64;
    assert((((((l >> 8) | ((byte as u64) << 56)) >> 56u64) & 0xff) as u8) == byte) by (bit_vector);
    assert((((((l >> 8) | ((byte as u64) << 56)) >> ((s - 8) as u64)) & 0xff) as u8) == ((l >> s)
        & 0xff) as u8) by (bit_vector)
        requires
            8 <= s <= 56,
    ;
}

} // verus!
