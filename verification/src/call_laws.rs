//! The order in which the coder is called.

use vstd::prelude::*;
use crate::interface::{
    BrotliResult, Buffers, CoderEvent, EncoderOrDecoderSpecialization, NibbleReply,
};
use crate::literal::LiteralSubstate;
use crate::machine::{Coding, Conversation, Job};
use crate::probability::{CDF16, ModelWeights};

verus! {

impl<C, W> Conversation<C, W> {
    /// The buffers as the coder left them.
    pub open spec fn io(self) -> Buffers
        recommends
            !(self is Broken),
    {
        match self {
            Conversation::AwaitingDrain { coding, io } => io,
            Conversation::AwaitingNibble { coding, io } => io,
            Conversation::Finished { coding, io, result } => io,
            Conversation::Broken => arbitrary(),
        }
    }
}

/// The coder is drained before every nibble. A literal that is taken up midway
/// is drained for and coded in turns; one that begins is drained for once more;
/// one that was coded to its end is drained for, and that is all.
pub proof fn law_drained_before_every_nibble<
    C: CDF16,
    W: ModelWeights,
    S: EncoderOrDecoderSpecialization,
>(coding: Coding<C, W>, io: Buffers, job: Job, source: S, events: Seq<CoderEvent<C>>)
    requires
        !(Conversation::open(coding, io).after(job, source, events) is Broken),
    ensures
        forall|k: int|
            0 <= k < events.len() ==> ((#[trigger] events[k]) is Coded <==> if coding.state
                is Begin {
                k >= 2 && k % 2 == 0
            } else {
                k % 2 == 1
            }),
        coding.state is FullyDecoded ==> events.len() <= 1,
{
    lemma_turns(coding, io, job, source, events);
}

proof fn lemma_turns<C: CDF16, W: ModelWeights, S: EncoderOrDecoderSpecialization>(
    coding: Coding<C, W>,
    io: Buffers,
    job: Job,
    source: S,
    events: Seq<CoderEvent<C>>,
)
    requires
        !(Conversation::open(coding, io).after(job, source, events) is Broken),
    ensures
        forall|k: int|
            0 <= k < events.len() ==> ((#[trigger] events[k]) is Coded <==> if coding.state
                is Begin {
                k >= 2 && k % 2 == 0
            } else {
                k % 2 == 1
            }),
        coding.state is FullyDecoded ==> events.len() <= 1,
        ({
            let reached = Conversation::open(coding, io).after(job, source, events);
            let n = events.len();
            &&& n == 0 ==> reached == Conversation::open(coding, io)
            &&& n > 0 && coding.state is FullyDecoded ==> reached is Finished
            &&& n > 0 && reached is AwaitingDrain ==> !(reached.coding().state is Begin)
            &&& reached is AwaitingNibble ==> if coding.state is Begin {
                n >= 2 && n % 2 == 0
            } else {
                n % 2 == 1
            }
            &&& reached is AwaitingDrain ==> if coding.state is Begin {
                n == 0 || n % 2 == 1
            } else {
                n % 2 == 0
            }
        }),
    decreases events.len(),
{
    if events.len() > 0 {
        let earlier = events.drop_last();
        lemma_turns(coding, io, job, source, earlier);
        assert forall|k: int| 0 <= k < events.len() implies ((#[trigger] events[k]) is Coded
            <==> if coding.state is Begin {
            k >= 2 && k % 2 == 0
        } else {
            k % 2 == 1
        }) by {
            if k < earlier.len() {
                assert(events[k] == earlier[k]);
            }
        }
        lemma_begin_is_left(coding, io, job, source, events);
    }
}

proof fn lemma_begin_is_left<C: CDF16, W: ModelWeights, S: EncoderOrDecoderSpecialization>(
    coding: Coding<C, W>,
    io: Buffers,
    job: Job,
    source: S,
    events: Seq<CoderEvent<C>>,
)
    requires
        events.len() > 0,
    ensures
        ({
            let reached = Conversation::open(coding, io).after(job, source, events);
            &&& reached is AwaitingDrain ==> !(reached.coding().state is Begin)
            &&& reached is AwaitingNibble ==> !(reached.coding().state is Begin)
        }),
    decreases events.len(),
{
    let earlier = events.drop_last();
    if earlier.len() > 0 {
        lemma_begin_is_left(coding, io, job, source, earlier);
    } else {
        assert(Conversation::open(coding, io).after(job, source, earlier) == Conversation::open(
            coding,
            io,
        ));
    }
}

/// A drain that does not succeed is the last call, and its result is handed on.
pub proof fn law_nothing_follows_an_interruption<
    C: CDF16,
    W: ModelWeights,
    S: EncoderOrDecoderSpecialization,
>(coding: Coding<C, W>, io: Buffers, job: Job, source: S, events: Seq<CoderEvent<C>>, k: int)
    requires
        !(Conversation::open(coding, io).after(job, source, events) is Broken),
        0 <= k < events.len(),
        events[k] is Drained,
        events[k]->result != BrotliResult::ResultSuccess,
    ensures
        k == events.len() - 1,
        ({
            let reached = Conversation::open(coding, io).after(job, source, events);
            &&& reached is Finished
            &&& reached->result == events[k]->result
            &&& events.len() == 1 ==> reached.coding() == coding
        }),
    decreases events.len(),
{
    let earlier = events.drop_last();
    if k < earlier.len() {
        assert(earlier[k] == events[k]);
        law_nothing_follows_an_interruption(coding, io, job, source, earlier, k);
    } else {
        assert(events.last() == events[k]);
        if events.len() == 1 {
            assert(Conversation::open(coding, io).after(job, source, earlier)
                == Conversation::open(coding, io));
        }
    }
}

/// A drain that succeeds leads on: to a nibble, unless the literal has only
/// begun or is coded to its end. It changes nothing of the literal but that.
pub proof fn law_success_leads_on<
    C: CDF16,
    W: ModelWeights,
    S: EncoderOrDecoderSpecialization,
>(coding: Coding<C, W>, io: Buffers, job: Job, source: S, left: Buffers)
    ensures
        ({
            let event = CoderEvent::Drained {
                before: io,
                after: left,
                result: BrotliResult::ResultSuccess,
            };
            let next = Conversation::open(coding, io).next(job, source, event);
            &&& next.io() == left
            &&& coding.state is Begin ==> next is AwaitingDrain && next.coding() == (Coding {
                state: LiteralSubstate::LiteralCountSmall,
                ..coding
            })
            &&& coding.state is FullyDecoded ==> next is Finished && next->result
                == BrotliResult::ResultSuccess && next.coding() == coding
            &&& !(coding.state is Begin) && !(coding.state is FullyDecoded) ==> next
                is AwaitingNibble && next.coding() == coding
        }),
{
}

/// A nibble that was asked for takes the literal one step on. Coding goes on
/// with a drain, unless the step ends it.
pub proof fn law_nibble_leads_on<C: CDF16, W: ModelWeights, S: EncoderOrDecoderSpecialization>(
    coding: Coding<C, W>,
    io: Buffers,
    job: Job,
    source: S,
    reply: NibbleReply,
)
    requires
        reply.nibble < 16,
    ensures
        ({
            let request = coding.request(job, source);
            let event = CoderEvent::Coded { request, reply };
            let next = Conversation::AwaitingNibble { coding, io }.next(job, source, event);
            let stepped = coding.step(job, reply);
            &&& next.io() == io
            &&& next.coding() == stepped.after
            &&& stepped.verdict is None ==> next is AwaitingDrain
            &&& stepped.verdict is Some ==> next is Finished && next->result == stepped.verdict->0
        }),
{
}

/// The coder is handed the caller's buffers, and after that what it left of
/// them; the caller gets what the coder left last.
pub proof fn law_buffers_are_handed_on<
    C: CDF16,
    W: ModelWeights,
    S: EncoderOrDecoderSpecialization,
>(coding: Coding<C, W>, io: Buffers, job: Job, source: S, events: Seq<CoderEvent<C>>)
    requires
        !(Conversation::open(coding, io).after(job, source, events) is Broken),
    ensures
        Conversation::open(coding, io).after(job, source, events).io() == left_over(io, events),
        forall|k: int|
            0 <= k < events.len() && (#[trigger] events[k]) is Drained ==> events[k]->before
                == left_over(io, events.take(k)),
    decreases events.len(),
{
    if events.len() > 0 {
        let earlier = events.drop_last();
        law_buffers_are_handed_on(coding, io, job, source, earlier);
        assert forall|k: int|
            0 <= k < events.len() && (#[trigger] events[k]) is Drained implies events[k]->before
            == left_over(io, events.take(k)) by {
            if k < earlier.len() {
                assert(earlier[k] == events[k]);
                assert(earlier.take(k) == events.take(k));
            } else {
                assert(events.take(k) == earlier);
                assert(events.last() == events[k]);
            }
        }
    }
}

/// The buffers as the last drain among `events` left them, or `io` if there was none.
pub open spec fn left_over<C>(io: Buffers, events: Seq<CoderEvent<C>>) -> Buffers
    decreases events.len(),
{
    if events.len() == 0 {
        io
    } else {
        match events.last() {
            CoderEvent::Drained { before, after, result } => after,
            CoderEvent::Coded { request, reply } => left_over(io, events.drop_last()),
        }
    }
}

} // verus!
