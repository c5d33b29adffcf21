use literal_codec::count::{count_bits, round_up_mod_4, CountStep};
use literal_codec::interface::BillingDesignation;
use literal_codec::literal::LiteralSubstate;
use literal_codec::priors::LiteralNibblePrior;
use literal_codec::probability::Speed;

#[test]
fn numbers_are_rounded_up_to_fours() {
    let rounded: Vec<u8> = (1..=9).map(round_up_mod_4).collect();
    assert_eq!(rounded, vec![4, 4, 4, 4, 8, 8, 8, 8, 12]);
    assert_eq!(round_up_mod_4(29), 32);
}

#[test]
fn bits_are_counted() {
    assert_eq!(count_bits(0), 0);
    assert_eq!(count_bits(1), 1);
    assert_eq!(count_bits(255), 8);
    assert_eq!(count_bits(256), 9);
    assert_eq!(count_bits(u32::MAX), 32);
}

#[test]
fn every_length_is_restored() {
    let mut lengths: Vec<u32> = (1..5000).collect();
    for shift in 12..30 {
        for delta in [0u32, 1, 15, 16, 17, 12345] {
            lengths.push((1 << shift) + delta);
        }
    }
    lengths.push(0x4000_000f);
    for len in lengths {
        let mut state = LiteralSubstate::LiteralCountSmall;
        let mut nibbles = 0;
        loop {
            let nibble = state.offer_count_nibble(len);
            assert!(nibble < 16);
            nibbles += 1;
            match state.take_count_nibble(nibble) {
                CountStep::Next(next) => state = next,
                CountStep::Length(counted) => {
                    assert_eq!(counted, len as u64);
                    break;
                }
            }
        }
        assert!(nibbles <= 11);
    }
}

#[test]
fn lengths_that_do_not_fit_are_not_offered_as_nibbles() {
    let state = LiteralSubstate::LiteralCountLengthGreater14Less25;
    assert_eq!(state.offer_count_nibble(0x4000_000f), 15);
    assert_eq!(state.offer_count_nibble(0x4000_0010), 16);
    assert_eq!(LiteralSubstate::LiteralCountSmall.offer_count_nibble(0), 15);
    assert_eq!(state.offer_count_nibble(0), 17);
    assert_eq!(state.offer_count_nibble(16), 241);
}

#[test]
fn length_nibbles_lead_on() {
    assert_eq!(
        LiteralSubstate::LiteralCountFirst.take_count_nibble(10),
        CountStep::Next(LiteralSubstate::LiteralCountMantissaNibbles(12, 512))
    );
    assert_eq!(LiteralSubstate::LiteralCountFirst.take_count_nibble(1), CountStep::Length(17));
    assert_eq!(
        LiteralSubstate::LiteralCountLengthGreater14Less25.take_count_nibble(15),
        CountStep::Next(LiteralSubstate::LiteralCountMantissaNibbles(32, 1 << 29))
    );
    assert_eq!(
        LiteralSubstate::LiteralCountMantissaNibbles(12, 512).take_count_nibble(1),
        CountStep::Next(LiteralSubstate::LiteralCountMantissaNibbles(8, 768))
    );
    assert_eq!(
        LiteralSubstate::LiteralCountMantissaNibbles(4, u32::MAX).take_count_nibble(0),
        CountStep::Length(0x1_0000_000f)
    );
}

#[test]
fn length_nibbles_have_their_models() {
    assert_eq!(
        LiteralSubstate::LiteralCountSmall.count_model(3),
        (
            LiteralNibblePrior::CountSmall { block_type: 3 },
            Speed::MED,
            BillingDesignation::LiteralCommand(LiteralSubstate::LiteralCountSmall)
        )
    );
    assert_eq!(
        LiteralSubstate::LiteralCountMantissaNibbles(8, 9).count_model(3),
        (
            LiteralNibblePrior::SizeMantissaNib { block_type: 3 },
            Speed::MUD,
            BillingDesignation::LiteralCommand(LiteralSubstate::LiteralCountMantissaNibbles(0, 0))
        )
    );
    assert_eq!(
        LiteralSubstate::LiteralCountFirst.count_model(3).0,
        LiteralNibblePrior::SizeBegNib { block_type: 3 }
    );
    assert_eq!(
        LiteralSubstate::LiteralCountLengthGreater14Less25.count_model(3).0,
        LiteralNibblePrior::SizeLastNib { block_type: 3 }
    );
}
