//! How a reader is fed into a compressing writer: what to do after each
//! operation, however it went.

use vstd::prelude::*;

verus! {

/// How an operation on a stream went.
#[derive(Copy, Clone, Debug, PartialEq, Eq, Structural)]
pub enum IoReport {
    /// It was done, for so many bytes.
    Done(usize),
    /// It was interrupted, and nothing was done.
    Interrupted,
    /// It failed.
    Failed,
}

/// What to do next.
#[derive(Copy, Clone, Debug, PartialEq, Eq, Structural)]
pub enum FeedStep {
    /// Fill the buffer from the reader.
    Read,
    /// Write the first bytes of the buffer, all of them.
    Write(usize),
    /// Flush the writer.
    Flush,
    /// Everything was fed.
    Finish,
    /// Give up, with the error at hand.
    Abort,
}

impl FeedStep {
    /// The step after this one, once it went as `report` says.
    ///
    /// A read or a flush that was interrupted leads to another read. A read of
    /// nothing means that the reader is exhausted: the writer is flushed, and
    /// that is the end.
    pub open spec fn followed_by(self, report: IoReport) -> FeedStep {
        match (self, report) {
            (FeedStep::Read, IoReport::Done(size)) => if size == 0 {
                FeedStep::Flush
            } else {
                FeedStep::Write(size)
            },
            (FeedStep::Read, IoReport::Interrupted) => FeedStep::Read,
            (FeedStep::Write(_), IoReport::Done(_)) => FeedStep::Read,
            (FeedStep::Flush, IoReport::Done(_)) => FeedStep::Finish,
            (FeedStep::Flush, IoReport::Interrupted) => FeedStep::Read,
            (FeedStep::Finish, _) => FeedStep::Finish,
            _ => FeedStep::Abort,
        }
    }

    /// Decides on the step after this one, once it went as `report` says.
    pub fn after(self, report: IoReport) -> (step: FeedStep)
        ensures
            step == self.followed_by(report),
    {
        match self {
            FeedStep::Read => match report {
                IoReport::Done(size) => if size == 0 {
                    FeedStep::Flush
                } else {
                    FeedStep::Write(size)
                },
                IoReport::Interrupted => FeedStep::Read,
                IoReport::Failed => FeedStep::Abort,
            },
            FeedStep::Write(_) => match report {
                IoReport::Done(_) => FeedStep::Read,
                _ => FeedStep::Abort,
            },
            FeedStep::Flush => match report {
                IoReport::Done(_) => FeedStep::Finish,
                IoReport::Interrupted => FeedStep::Read,
                IoReport::Failed => FeedStep::Abort,
            },
            FeedStep::Finish => FeedStep::Finish,
            FeedStep::Abort => FeedStep::Abort,
        }
    }
}

/// The step after `reports`, the first of which is on a read.
pub open spec fn fed(reports: Seq<IoReport>) -> FeedStep
    decreases reports.len(),
{
    if reports.len() == 0 {
        FeedStep::Read
    } else {
        fed(reports.drop_last()).followed_by(reports.last())
    }
}

/// How many bytes were read.
pub open spec fn bytes_read(reports: Seq<IoReport>) -> nat
    decreases reports.len(),
{
    if reports.len() == 0 {
        0
    } else {
        let earlier = reports.drop_last();
        bytes_read(earlier) + match (fed(earlier), reports.last()) {
            (FeedStep::Read, IoReport::Done(size)) => size as nat,
            _ => 0,
        }
    }
}

/// How many bytes the writes that were done were to write.
pub open spec fn bytes_written(reports: Seq<IoReport>) -> nat
    decreases reports.len(),
{
    if reports.len() == 0 {
        0
    } else {
        let earlier = reports.drop_last();
        bytes_written(earlier) + match (fed(earlier), reports.last()) {
            (FeedStep::Write(size), IoReport::Done(_)) => size as nat,
            _ => 0,
        }
    }
}

/// However the operations go, all that was read was written, but for what is to
/// be written next. Nothing else is written.
pub proof fn law_all_that_is_read_is_written(reports: Seq<IoReport>)
    ensures
        match fed(reports) {
            FeedStep::Write(size) => bytes_read(reports) == bytes_written(reports) + size,
            FeedStep::Abort => true,
            _ => bytes_read(reports) == bytes_written(reports),
        },
    decreases reports.len(),
{
    if reports.len() > 0 {
        law_all_that_is_read_is_written(reports.drop_last());
    }
}

/// An operation that was done never makes the feed give up, whatever its size;
/// a write that was done is followed by a read.
pub proof fn law_done_goes_on(step: FeedStep, size: usize)
    ensures
        step is Write ==> step.followed_by(IoReport::Done(size)) is Read,
        !(step is Abort) ==> !(step.followed_by(IoReport::Done(size)) is Abort),
{
}

/// An interrupted read or flush leads to another read. Anything else that is
/// not done makes the feed give up, and it stays that way; what is finished
/// stays finished.
pub proof fn law_errors_end_the_feed(step: FeedStep, report: IoReport)
    ensures
        (step is Read || step is Flush) && report is Interrupted ==> step.followed_by(
            report,
        ) is Read,
        (step is Read || step is Flush) && report is Failed ==> step.followed_by(report) is Abort,
        step is Write && !(report is Done) ==> step.followed_by(report) is Abort,
        step is Abort ==> step.followed_by(report) is Abort,
        step is Finish ==> step.followed_by(report) is Finish,
{
}

/// Reads of `sizes`, each with the write that follows it, all done.
pub open spec fn all_done(sizes: Seq<usize>, written: Seq<usize>) -> Seq<IoReport>
    recommends
        written.len() == sizes.len(),
    decreases sizes.len(),
{
    if sizes.len() == 0 {
        Seq::empty()
    } else {
        all_done(sizes.drop_last(), written.drop_last()).push(IoReport::Done(sizes.last())).push(
            IoReport::Done(written.last()),
        )
    }
}

/// A feed in which every operation is done reads on until the reader is
/// exhausted, then flushes, and finishes.
pub proof fn law_feed_finishes(sizes: Seq<usize>, written: Seq<usize>, flushed: usize)
    requires
        written.len() == sizes.len(),
        forall|i: int| 0 <= i < sizes.len() ==> #[trigger] sizes[i] > 0,
    ensures
        fed(all_done(sizes, written)) is Read,
        fed(all_done(sizes, written).push(IoReport::Done(0))) is Flush,
        fed(all_done(sizes, written).push(IoReport::Done(0)).push(IoReport::Done(flushed)))
            is Finish,
    decreases sizes.len(),
{
    let reports = all_done(sizes, written);
    if sizes.len() > 0 {
        let earlier = all_done(sizes.drop_last(), written.drop_last());
        law_feed_finishes(sizes.drop_last(), written.drop_last(), flushed);
        let read = earlier.push(IoReport::Done(sizes.last()));
        assert(read.drop_last() == earlier);
        assert(sizes.last() == sizes[sizes.len() - 1]);
        assert(fed(read) == FeedStep::Write(sizes.last()));
        assert(reports.drop_last() == read);
    }
    let exhausted = reports.push(IoReport::Done(0));
    assert(exhausted.drop_last() == reports);
    assert(exhausted.push(IoReport::Done(flushed)).drop_last() == exhausted);
}

/// Whatever is read is written before anything else is done, and nothing is
/// flushed before the reader is exhausted.
pub proof fn law_nothing_read_is_dropped(step: FeedStep, report: IoReport)
    ensures
        step.followed_by(report) is Flush ==> step is Read && report == IoReport::Done(0),
        step is Read && (report matches IoReport::Done(size) && size > 0) ==> step.followed_by(
            report,
        ) == FeedStep::Write(report->Done_0),
        step.followed_by(report) is Finish ==> step is Finish || (step is Flush && report is Done),
{
}

} // verus!
