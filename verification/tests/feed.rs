use literal_codec::feed::{FeedStep, IoReport};

#[test]
fn reads_are_written_and_the_end_is_flushed() {
    assert_eq!(FeedStep::Read.after(IoReport::Done(7)), FeedStep::Write(7));
    assert_eq!(FeedStep::Write(7).after(IoReport::Done(7)), FeedStep::Read);
    assert_eq!(FeedStep::Read.after(IoReport::Done(0)), FeedStep::Flush);
    assert_eq!(FeedStep::Flush.after(IoReport::Done(0)), FeedStep::Finish);
    assert_eq!(FeedStep::Finish.after(IoReport::Failed), FeedStep::Finish);
}

#[test]
fn interruptions_lead_to_another_read() {
    assert_eq!(FeedStep::Read.after(IoReport::Interrupted), FeedStep::Read);
    assert_eq!(FeedStep::Flush.after(IoReport::Interrupted), FeedStep::Read);
}

#[test]
fn errors_end_the_feed() {
    for step in [FeedStep::Read, FeedStep::Write(1), FeedStep::Flush, FeedStep::Abort] {
        assert_eq!(step.after(IoReport::Failed), FeedStep::Abort);
    }
    assert_eq!(FeedStep::Write(1).after(IoReport::Interrupted), FeedStep::Abort);
}
