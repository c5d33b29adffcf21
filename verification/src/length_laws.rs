//! What the nibbles of a length say of it.

use vstd::arithmetic::power2::{
    lemma2_to64, lemma_pow2_adds, lemma_pow2_pos, lemma_pow2_unfold, pow2,
};
use vstd::prelude::*;
use crate::count::{bit_length, excess, lemma_top_bit, CountStep};
use crate::literal::LiteralSubstate;
use crate::machine::Job;

verus! {

/// The length that is coded is the literal's, in 32 bits.
pub proof fn law_coded_length_is_the_literals(job: Job)
    ensures
        job.literal_len() == job.literal.len() % 0x1_0000_0000,
{
}

/// A length from 1 to 15 is one nibble, one less than the length. Any other has
/// a fifteen in its place, which says that more is to come.
pub proof fn law_short_lengths(literal_len: u32, nibble: u8)
    ensures
        1 <= literal_len <= 15 ==> LiteralSubstate::LiteralCountSmall.count_nibble_of(literal_len)
            == literal_len - 1,
        literal_len == 0 || literal_len >= 16
            ==> LiteralSubstate::LiteralCountSmall.count_nibble_of(literal_len) == 15,
        nibble < 15 ==> LiteralSubstate::LiteralCountSmall.counted(nibble) == CountStep::Length(
            (nibble + 1) as u64,
        ),
        LiteralSubstate::LiteralCountSmall.counted(15) == CountStep::Next(
            LiteralSubstate::LiteralCountFirst,
        ),
{
}

proof fn lemma_bit_length_bounds(n: nat)
    ensures
        n < pow2(bit_length(n)),
        n > 0 ==> bit_length(n) > 0 && pow2((bit_length(n) - 1) as nat) <= n,
    decreases n,
{
    lemma2_to64();
    if n > 0 {
        lemma_bit_length_bounds(n / 2);
        lemma_pow2_unfold(bit_length(n));
        if n / 2 > 0 {
            lemma_pow2_unfold(bit_length(n / 2));
        }
    }
}

/// The nibble after the first says how many bits the excess of the length over
/// sixteen takes, if those are fewer than fifteen, and is fifteen otherwise.
pub proof fn law_bit_length_comes_first(literal_len: u32)
    requires
        literal_len >= 16,
    ensures
        ({
            let over = (literal_len - 16) as nat;
            let nibble = LiteralSubstate::LiteralCountFirst.count_nibble_of(literal_len);
            &&& nibble < 15 ==> over < pow2(nibble as nat) && (nibble > 0 ==> pow2(
                (nibble - 1) as nat,
            ) <= over)
            &&& nibble <= 15
            &&& nibble == 15 <==> over >= 0x4000
        }),
{
    let over = (literal_len - 16) as nat;
    lemma_bit_length_bounds(over);
    lemma2_to64();
    let k = bit_length(over);
    if k >= 15 {
        lemma_pow2_grows(14, (k - 1) as nat);
    } else {
        lemma_pow2_grows(k, 14);
    }
}

proof fn lemma_pow2_grows(a: nat, b: nat)
    requires
        a <= b,
    ensures
        pow2(a) <= pow2(b),
{
    lemma_pow2_adds(a, (b - a) as nat);
    lemma_pow2_pos((b - a) as nat);
    let x = pow2(a);
    let y = pow2((b - a) as nat);
    assert(x <= x * y) by (nonlinear_arith)
        requires
            y >= 1,
    ;
}

/// Where the excess takes fifteen bits or more, the next nibble says how many
/// more than fifteen.
pub proof fn law_long_bit_length_comes_second(literal_len: u32)
    requires
        0x4010 <= literal_len <= 0x4000_000f,
    ensures
        ({
            let over = (literal_len - 16) as nat;
            let state = LiteralSubstate::LiteralCountLengthGreater14Less25;
            let nibble = state.count_nibble_of(literal_len);
            &&& nibble <= 15
            &&& pow2((nibble + 14) as nat) <= over < pow2((nibble + 15) as nat)
        }),
{
    let over = (literal_len - 16) as nat;
    lemma_bit_length_bounds(over);
    lemma2_to64();
    let k = bit_length(over);
    if k < 15 {
        lemma_pow2_grows(k, 14);
    }
    if k >= 31 {
        lemma_pow2_grows(30, (k - 1) as nat);
    }
}

/// Lengths that cannot be coded are offered all the same where nothing looks at
/// what is offered: the excess wraps around in 32 bits, and the nibbles in eight.
pub proof fn law_any_length_is_offered(literal_len: u32, len_remaining: u8, known: u32)
    requires
        4 <= len_remaining <= 32,
    ensures
        ({
            let over = if literal_len >= 16 {
                (literal_len - 16) as u32
            } else {
                (literal_len + 0xffff_fff0) as u32
            };
            let first = LiteralSubstate::LiteralCountFirst.count_nibble_of(literal_len);
            let second = LiteralSubstate::LiteralCountLengthGreater14Less25.count_nibble_of(
                literal_len,
            );
            let bits = ((second + 15) % 256) as nat;
            let rest = LiteralSubstate::LiteralCountMantissaNibbles(
                len_remaining,
                known,
            ).count_nibble_of(literal_len);
            &&& over < pow2(bits)
            &&& over > 0 ==> bits > 0 && pow2((bits - 1) as nat) <= over
            &&& first == if bits < 15 {
                bits
            } else {
                15
            }
            &&& rest == ((over ^ known) as nat / pow2((len_remaining - 4) as nat)) % 256
        }),
{
    let over = excess(literal_len);
    lemma_bit_length_bounds(over as nat);
    lemma_top_bit(over);
    let r = (len_remaining - 4) as u32;
    let shifted = (over ^ known) >> r;
    vstd::bits::lemma_u32_shr_is_div(over ^ known, r);
    assert(shifted as u8 == shifted % 256) by (bit_vector);
}

/// What the bit length leads to: its top bit is known, and the bits below it
/// are still to come, rounded up to whole nibbles. An excess of zero or one
/// needs none.
pub proof fn law_bit_length_is_taken(nibble: u8)
    requires
        nibble < 16,
    ensures
        ({
            let first = LiteralSubstate::LiteralCountFirst.counted(nibble);
            let second = LiteralSubstate::LiteralCountLengthGreater14Less25.counted(nibble);
            &&& nibble <= 1 ==> first == CountStep::Length((16 + nibble) as u64)
            &&& nibble == 15 ==> first == CountStep::Next(
                LiteralSubstate::LiteralCountLengthGreater14Less25,
            )
            &&& 2 <= nibble <= 14 ==> {
                &&& first is Next
                &&& first->Next_0 is LiteralCountMantissaNibbles
                &&& first->Next_0->LiteralCountMantissaNibbles_0 % 4 == 0
                &&& nibble - 1 <= first->Next_0->LiteralCountMantissaNibbles_0 < nibble + 3
                &&& first->Next_0->LiteralCountMantissaNibbles_1 == pow2((nibble - 1) as nat)
            }
            &&& second is Next
            &&& second->Next_0 is LiteralCountMantissaNibbles
            &&& second->Next_0->LiteralCountMantissaNibbles_0 % 4 == 0
            &&& nibble + 14 <= second->Next_0->LiteralCountMantissaNibbles_0 < nibble + 18
            &&& second->Next_0->LiteralCountMantissaNibbles_1 == pow2((nibble + 14) as nat)
        }),
{
    if 2 <= nibble <= 14 {
        lemma_one_shifted((nibble - 1) as u32);
    }
    lemma_one_shifted((nibble + 14) as u32);
}

proof fn lemma_one_shifted(k: u32)
    requires
        k < 32,
    ensures
        1u32 << k == pow2(k as nat),
{
    vstd::bits::lemma_u32_pow2_no_overflow(k as nat);
    vstd::bits::lemma_u32_shl_is_mul(1, k);
}

/// The bits of the excess come four at a time from the top: each nibble is how
/// often its place value goes into what is still missing, which leaves less
/// than that place value. What is known then grows by as much, and when
/// nothing is left to come, it is the excess.
pub proof fn law_bits_come_from_the_top(literal_len: u32, len_remaining: u8, known: u32)
    requires
        LiteralSubstate::LiteralCountMantissaNibbles(len_remaining, known).counts(),
        LiteralSubstate::LiteralCountMantissaNibbles(len_remaining, known).is_part_of(literal_len),
    ensures
        ({
            let state = LiteralSubstate::LiteralCountMantissaNibbles(len_remaining, known);
            let over = literal_len - 16;
            let nibble = state.count_nibble_of(literal_len);
            let place = pow2((len_remaining - 4) as nat);
            &&& known <= over
            &&& nibble * place <= over - known < (nibble + 1) * place
            &&& nibble < 16
            &&& len_remaining > 4 ==> state.counted(nibble) == CountStep::Next(
                LiteralSubstate::LiteralCountMantissaNibbles(
                    (len_remaining - 4) as u8,
                    (known + nibble * place) as u32,
                ),
            )
            &&& len_remaining == 4 ==> state.counted(nibble) == CountStep::Length(
                literal_len as u64,
            ) && known + nibble == over
        }),
{
    let s = excess(literal_len);
    let d = known;
    let r = (len_remaining - 4) as u32;
    let n = ((s ^ d) >> r) as u8;
    let grown = d | ((n as u32) << r);
    let missing = (s ^ d) as u64;
    assert(n < 16 && d <= s && s ^ d == s - d && grown == d + (n as u64) * (1u64 << (r as u64))
        && (n as u64) * (1u64 << (r as u64)) <= missing && missing < (n as u64 + 1) * (1u64 << (
    r as u64))) by (bit_vector)
        requires
            r <= 28,
            d & s == d,
            missing == (s ^ d) as u64,
            missing >> ((r + 4) as u64) == 0,
            n == ((s ^ d) >> r) as u8,
            grown == d | ((n as u32) << r),
    ;
    vstd::bits::lemma_u64_pow2_no_overflow(r as nat);
    vstd::bits::lemma_u64_shl_is_mul(1, r as u64);
    lemma2_to64();
    let state = LiteralSubstate::LiteralCountMantissaNibbles(len_remaining, known);
    let nibble = state.count_nibble_of(literal_len);
    let place = pow2((len_remaining - 4) as nat);
    let shifted = 1u64 << (r as u64);
    assert(nibble == n);
    assert(shifted == place);
    assert((n as u64) * shifted == nibble * place);
    assert((n as u64 + 1) * shifted == (nibble + 1) * place);
    assert(grown == known + nibble * place);
    if len_remaining == 4 {
        assert(place == 1);
        assert(nibble * place == nibble) by (nonlinear_arith)
            requires
                place == 1,
        ;
        assert((nibble + 1) * place == nibble + 1) by (nonlinear_arith)
            requires
                place == 1,
        ;
        assert(grown == s);
    }
}

/// Whatever nibble is read, its bits join those that are known at their place.
pub proof fn law_bits_join(len_remaining: u8, known: u32, nibble: u8)
    requires
        LiteralSubstate::LiteralCountMantissaNibbles(len_remaining, known).counts(),
        nibble < 16,
    ensures
        ({
            let state = LiteralSubstate::LiteralCountMantissaNibbles(len_remaining, known);
            let bits = nibble * pow2((len_remaining - 4) as nat);
            let joined = known | (bits as u32);
            &&& bits <= u32::MAX
            &&& state.counted(nibble) == if len_remaining == 4 {
                CountStep::Length((joined + 16) as u64)
            } else {
                CountStep::Next(
                    LiteralSubstate::LiteralCountMantissaNibbles((len_remaining - 4) as u8, joined),
                )
            }
        }),
{
    let r = (len_remaining - 4) as u32;
    vstd::bits::lemma_u32_pow2_no_overflow(r as nat);
    lemma_one_shifted(r);
    lemma2_to64();
    assert((nibble as u32) << r == nibble * (1u32 << r)) by (bit_vector)
        requires
            r <= 28,
            nibble < 16,
    ;
}

} // verus!
