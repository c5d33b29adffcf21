//! The contexts that the last two bytes of a stream give the next one.

use vstd::prelude::*;
use crate::interface::{
    LiteralPredictionModeNibble, LITERAL_PREDICTION_MODE_MSB6, LITERAL_PREDICTION_MODE_SIGN,
    LITERAL_PREDICTION_MODE_UTF8,
};

verus! {

/// The number of contexts that a prediction mode tells apart.
pub const NUM_CONTEXTS: u8 = 64;

/// Whether `b` is an upper case ASCII vowel.
pub open spec fn is_upper_vowel(b: u8) -> bool {
    b == 65 || b == 69 || b == 73 || b == 79 || b == 85
}

/// The part of a UTF-8 context that the last byte gives: the class of an ASCII
/// character, or the low bits of a byte of a longer character.
pub open spec fn utf8_last_class(b: u8) -> u8 {
    if b == 9 || b == 10 || b == 13 {
        4
    } else if b < 32 || b == 127 {
        0
    } else if b == 32 {
        8
    } else if b == 34 || b == 39 {
        16
    } else if b == 37 {
        20
    } else if b == 40 || b == 60 || b == 91 || b == 123 {
        24
    } else if b == 41 || b == 62 || b == 93 || b == 125 {
        28
    } else if b == 44 || b == 58 || b == 59 {
        32
    } else if b == 46 {
        36
    } else if b == 61 {
        40
    } else if 48 <= b <= 57 {
        44
    } else if 65 <= b <= 90 {
        if is_upper_vowel(b) {
            48
        } else {
            52
        }
    } else if 97 <= b <= 122 {
        if is_upper_vowel((b - 32) as u8) {
            56
        } else {
            60
        }
    } else if b < 128 {
        12
    } else if b < 192 {
        b % 2
    } else {
        (2 + b % 2) as u8
    }
}

/// The part of a UTF-8 context that the second last byte gives.
pub open spec fn utf8_second_last_class(b: u8) -> u8 {
    if b <= 32 || 127 <= b < 224 {
        0
    } else if 48 <= b <= 57 || 65 <= b <= 90 || b >= 224 {
        2
    } else if 97 <= b <= 122 {
        3
    } else {
        1
    }
}

/// The magnitude class of a byte that is read as a signed number.
pub open spec fn signed_class(b: u8) -> u8 {
    if b == 0 {
        0
    } else if b < 16 {
        1
    } else if b < 64 {
        2
    } else if b < 128 {
        3
    } else if b < 192 {
        4
    } else if b < 240 {
        5
    } else if b < 255 {
        6
    } else {
        7
    }
}

/// The context that `mode` gives the byte after `prev_prev_byte` and `prev_byte`.
pub open spec fn mode_context(
    mode: LiteralPredictionModeNibble,
    prev_byte: u8,
    prev_prev_byte: u8,
) -> u8 {
    if mode.0 == LITERAL_PREDICTION_MODE_SIGN {
        (8 * signed_class(prev_byte) + signed_class(prev_prev_byte)) as u8
    } else if mode.0 == LITERAL_PREDICTION_MODE_UTF8 {
        utf8_last_class(prev_byte) | utf8_second_last_class(prev_prev_byte)
    } else if mode.0 == LITERAL_PREDICTION_MODE_MSB6 {
        prev_byte / 4
    } else {
        prev_byte % 64
    }
}

/// Every mode tells apart no more contexts than a block type has in the context map.
pub proof fn lemma_mode_context_bound(
    mode: LiteralPredictionModeNibble,
    prev_byte: u8,
    prev_prev_byte: u8,
)
    ensures
        mode_context(mode, prev_byte, prev_prev_byte) < NUM_CONTEXTS,
{
    let last = utf8_last_class(prev_byte);
    let second_last = utf8_second_last_class(prev_prev_byte);
    assert(last | second_last < 64) by (bit_vector)
        requires
            last < 64,
            second_last < 4,
    ;
}

/// The upper six bits, the lower six bits, or the two magnitude classes: each
/// mode gives the byte before its own place in the context.
pub proof fn law_modes_keep_their_bits(prev_byte: u8, prev_prev_byte: u8)
    ensures
        ({
            let msb6 = mode_context(LiteralPredictionModeNibble(1), prev_byte, prev_prev_byte);
            4 * msb6 <= prev_byte < 4 * msb6 + 4
        }),
        ({
            let lsb6 = mode_context(LiteralPredictionModeNibble(0), prev_byte, prev_prev_byte);
            lsb6 < 64 && (prev_byte - lsb6) % 64 == 0
        }),
        ({
            let sign = mode_context(LiteralPredictionModeNibble(3), prev_byte, prev_prev_byte);
            sign / 8 == signed_class(prev_byte) && sign % 8 == signed_class(prev_prev_byte)
        }),
        ({
            let utf8 = mode_context(LiteralPredictionModeNibble(2), prev_byte, prev_prev_byte);
            &&& utf8_last_class(prev_byte) >= 4 ==> utf8 == utf8_last_class(prev_byte)
                + utf8_second_last_class(prev_prev_byte)
            &&& utf8 / 4 == utf8_last_class(prev_byte) / 4
            &&& utf8 == utf8_last_class(prev_byte) | utf8_second_last_class(prev_prev_byte)
        }),
{
    let last = utf8_last_class(prev_byte);
    let second_last = utf8_second_last_class(prev_prev_byte);
    assert((last >= 4 ==> last | second_last == last + second_last) && (last | second_last) / 4
        == last / 4) by (bit_vector)
        requires
            second_last < 4,
            last < 64,
            last >= 4 ==> last % 4 == 0,
    ;
}

/// Magnitude classes grow with the byte, and a byte and its complement mirror
/// each other. The first half of the bytes has the classes below four.
pub proof fn law_signed_classes_are_symmetric(a: u8, b: u8)
    ensures
        a <= b ==> signed_class(a) <= signed_class(b),
        signed_class((255 - a) as u8) == 7 - signed_class(a),
        signed_class(a) < 4 <==> a < 128,
        signed_class(a) == 0 <==> a == 0,
        signed_class(a) <= 1 <==> a < 16,
        signed_class(a) <= 2 <==> a < 64,
{
}

/// A letter's class tells upper from lower case and vowels from consonants;
/// other bytes never have the class of a letter, and bytes of longer
/// characters keep their low bits.
pub proof fn law_letters_have_their_classes(b: u8)
    ensures
        65 <= b <= 90 ==> utf8_last_class((b + 32) as u8) == utf8_last_class(b) + 8,
        utf8_last_class(b) >= 48 <==> (65 <= b <= 90 || 97 <= b <= 122),
        utf8_last_class(b) == 44 <==> 48 <= b <= 57,
        b >= 128 ==> utf8_last_class(b) % 2 == b % 2 && utf8_last_class(b) / 2 == (if b < 192 {
            0int
        } else {
            1int
        }),
        utf8_second_last_class(b) == 3 <==> 97 <= b <= 122,
{
}

/// Looks up [`utf8_last_class`].
pub fn utf8_last_byte_context(b: u8) -> (class: u8)
    ensures
        class == utf8_last_class(b),
        class < NUM_CONTEXTS,
{
    match b {
        9 | 10 | 13 => 4,
        0..=31 | 127 => 0,
        32 => 8,
        34 | 39 => 16,
        37 => 20,
        40 | 60 | 91 | 123 => 24,
        41 | 62 | 93 | 125 => 28,
        44 | 58 | 59 => 32,
        46 => 36,
        61 => 40,
        48..=57 => 44,
        65 | 69 | 73 | 79 | 85 => 48,
        65..=90 => 52,
        97 | 101 | 105 | 111 | 117 => 56,
        97..=122 => 60,
        0..=127 => 12,
        128..=191 => b % 2,
        192..=255 => 2 + b % 2,
    }
}

/// Looks up [`utf8_second_last_class`].
pub fn utf8_second_last_byte_context(b: u8) -> (class: u8)
    ensures
        class == utf8_second_last_class(b),
        class < 4,
{
    match b {
        0..=32 | 127..=223 => 0,
        48..=57 | 65..=90 | 224..=255 => 2,
        97..=122 => 3,
        _ => 1,
    }
}

/// Looks up [`signed_class`].
pub fn signed_3_bit_context(b: u8) -> (class: u8)
    ensures
        class == signed_class(b),
        class < 8,
{
    match b {
        0 => 0,
        1..=15 => 1,
        16..=63 => 2,
        64..=127 => 3,
        128..=191 => 4,
        192..=239 => 5,
        240..=254 => 6,
        255 => 7,
    }
}

/// Finds the context that `mode` gives the next byte.
pub fn select_context(
    mode: LiteralPredictionModeNibble,
    prev_byte: u8,
    prev_prev_byte: u8,
) -> (context: u8)
    requires
        mode.well_formed(),
    ensures
        context == mode_context(mode, prev_byte, prev_prev_byte),
        context < NUM_CONTEXTS,
{
    proof {
        lemma_mode_context_bound(mode, prev_byte, prev_prev_byte);
    }
    if mode.0 == LITERAL_PREDICTION_MODE_SIGN {
        let last: u8 = signed_3_bit_context(prev_byte);
        let second_last: u8 = signed_3_bit_context(prev_prev_byte);
        assert(last << 3u8 | second_last == 8 * last + second_last) by (bit_vector)
            requires
                last < 8,
                second_last < 8,
        ;
        (last << 3u8) | second_last
    } else if mode.0 == LITERAL_PREDICTION_MODE_UTF8 {
        let last: u8 = utf8_last_byte_context(prev_byte);
        let second_last: u8 = utf8_second_last_byte_context(prev_prev_byte);
        last | second_last
    } else if mode.0 == LITERAL_PREDICTION_MODE_MSB6 {
        assert(prev_byte >> 2u8 == prev_byte / 4) by (bit_vector);
        prev_byte >> 2u8
    } else {
        assert(prev_byte & 0x3f == prev_byte % 64) by (bit_vector);
        prev_byte & 0x3f
    }
}

} // verus!
