//! The tables of learnt distributions that literals are coded with.

use vstd::prelude::*;
use crate::probability::CDF16;

verus! {

/// The number of bytes that a stride can reach back.
pub const NUM_STRIDES: u8 = 8;

/// Names one distribution of the main table.
#[derive(Copy, Clone, Debug, PartialEq, Eq, Structural)]
pub enum LiteralNibblePrior {
    /// The high half of a byte.
    FirstNibble { stride_byte: u8, context: u8, stride: u8 },
    /// The low half of a byte whose high half is known.
    SecondNibble { stride_byte: u8, high_nibble: u8, stride: u8 },
    /// The length of a short literal.
    CountSmall { block_type: u8 },
    /// The bit length of a longer literal's length.
    SizeBegNib { block_type: u8 },
    /// The bit length of a long literal's length, where the first nibble
    /// cannot hold it.
    SizeLastNib { block_type: u8 },
    /// The bits of a literal's length.
    SizeMantissaNib { block_type: u8 },
}

impl LiteralNibblePrior {
    /// Whether the table has such an entry.
    pub open spec fn valid(self) -> bool {
        match self {
            LiteralNibblePrior::FirstNibble { stride, .. } => stride < NUM_STRIDES,
            LiteralNibblePrior::SecondNibble { high_nibble, stride, .. } => high_nibble < 16
                && stride < NUM_STRIDES,
            _ => true,
        }
    }
}

/// The main table: distributions that follow the byte one stride back.
///
/// The nibbles of a byte have one for each byte one stride back, each context
/// or high half, and each stride. Those of a length have one for each block type.
pub struct LiteralCommandPriors<C> {
    first_nibble: Vec<C>,
    second_nibble: Vec<C>,
    count_small: Vec<C>,
    size_beg_nib: Vec<C>,
    size_last_nib: Vec<C>,
    size_mantissa_nib: Vec<C>,
}

impl<C> LiteralCommandPriors<C> {
    /// Whether every entry has its place.
    pub closed spec fn wf(&self) -> bool {
        &&& self.first_nibble@.len() == 524288
        &&& self.second_nibble@.len() == 32768
        &&& self.count_small@.len() == 256
        &&& self.size_beg_nib@.len() == 256
        &&& self.size_last_nib@.len() == 256
        &&& self.size_mantissa_nib@.len() == 256
    }

    spec fn entry(&self, prior: LiteralNibblePrior) -> C {
        match prior {
            LiteralNibblePrior::FirstNibble { stride_byte, context, stride } =>
                self.first_nibble@[(stride_byte * 256 + context) * 8 + stride],
            LiteralNibblePrior::SecondNibble { stride_byte, high_nibble, stride } =>
                self.second_nibble@[(stride_byte * 16 + high_nibble) * 8 + stride],
            LiteralNibblePrior::CountSmall { block_type } => self.count_small@[block_type as int],
            LiteralNibblePrior::SizeBegNib { block_type } => self.size_beg_nib@[block_type as int],
            LiteralNibblePrior::SizeLastNib { block_type } =>
                self.size_last_nib@[block_type as int],
            LiteralNibblePrior::SizeMantissaNib { block_type } =>
                self.size_mantissa_nib@[block_type as int],
        }
    }
}

impl<C> View for LiteralCommandPriors<C> {
    type V = Map<LiteralNibblePrior, C>;

    closed spec fn view(&self) -> Map<LiteralNibblePrior, C> {
        Map::new(
            |prior: LiteralNibblePrior| prior.valid(),
            |prior: LiteralNibblePrior| self.entry(prior),
        )
    }
}

impl<C: CDF16> LiteralCommandPriors<C> {
    /// A table whose entries are all `initial`.
    pub fn new(initial: C) -> (table: Self)
        ensures
            table.wf(),
            forall|prior: LiteralNibblePrior|
                #![trigger table@.dom().contains(prior)]
                #![trigger table@[prior]]
                prior.valid() ==> table@.dom().contains(prior) && table@[prior] == initial,
            forall|prior: LiteralNibblePrior| table@.dom().contains(prior) ==> prior.valid(),
    {
        LiteralCommandPriors {
            first_nibble: filled(initial, 524288),
            second_nibble: filled(initial, 32768),
            count_small: filled(initial, 256),
            size_beg_nib: filled(initial, 256),
            size_last_nib: filled(initial, 256),
            size_mantissa_nib: filled(initial, 256),
        }
    }

    /// The entry `prior`, to be read and adapted.
    pub fn get(&mut self, prior: LiteralNibblePrior) -> (cdf: &mut C)
        requires
            old(self).wf(),
            prior.valid(),
        ensures
            *cdf == old(self)@[prior],
            final(self).wf(),
            final(self)@ == old(self)@.insert(prior, *final(cdf)),
    {
        match prior {
            LiteralNibblePrior::FirstNibble { stride_byte, context, stride } =>
                &mut self.first_nibble[(stride_byte as usize * 256 + context as usize) * 8
                    + stride as usize],
            LiteralNibblePrior::SecondNibble { stride_byte, high_nibble, stride } =>
                &mut self.second_nibble[(stride_byte as usize * 16 + high_nibble as usize) * 8
                    + stride as usize],
            LiteralNibblePrior::CountSmall { block_type } =>
                &mut self.count_small[block_type as usize],
            LiteralNibblePrior::SizeBegNib { block_type } =>
                &mut self.size_beg_nib[block_type as usize],
            LiteralNibblePrior::SizeLastNib { block_type } =>
                &mut self.size_last_nib[block_type as usize],
            LiteralNibblePrior::SizeMantissaNib { block_type } =>
                &mut self.size_mantissa_nib[block_type as usize],
        }
    }
}

/// Names one distribution of the context table.
#[derive(Copy, Clone, Debug, PartialEq, Eq, Structural)]
pub enum LiteralContextPrior {
    /// The high half of a byte.
    FirstNibble { context: u8 },
    /// The low half of a byte whose high half is known.
    SecondNibble { high_nibble: u8, context: u8 },
}

impl LiteralContextPrior {
    /// Whether the table has such an entry.
    pub open spec fn valid(self) -> bool {
        match self {
            LiteralContextPrior::FirstNibble { .. } => true,
            LiteralContextPrior::SecondNibble { high_nibble, .. } => high_nibble < 16,
        }
    }
}

/// The context table: distributions that follow the context alone.
pub struct LiteralCommandPriorsCM<C> {
    first_nibble: Vec<C>,
    second_nibble: Vec<C>,
}

impl<C> LiteralCommandPriorsCM<C> {
    /// Whether every entry has its place.
    pub closed spec fn wf(&self) -> bool {
        &&& self.first_nibble@.len() == 256
        &&& self.second_nibble@.len() == 4096
    }

    spec fn entry(&self, prior: LiteralContextPrior) -> C {
        match prior {
            LiteralContextPrior::FirstNibble { context } => self.first_nibble@[context as int],
            LiteralContextPrior::SecondNibble { high_nibble, context } =>
                self.second_nibble@[high_nibble * 256 + context],
        }
    }
}

impl<C> View for LiteralCommandPriorsCM<C> {
    type V = Map<LiteralContextPrior, C>;

    closed spec fn view(&self) -> Map<LiteralContextPrior, C> {
        Map::new(
            |prior: LiteralContextPrior| prior.valid(),
            |prior: LiteralContextPrior| self.entry(prior),
        )
    }
}

impl<C: CDF16> LiteralCommandPriorsCM<C> {
    /// A table whose entries are all `initial`.
    pub fn new(initial: C) -> (table: Self)
        ensures
            table.wf(),
            forall|prior: LiteralContextPrior|
                #![trigger table@.dom().contains(prior)]
                #![trigger table@[prior]]
                prior.valid() ==> table@.dom().contains(prior) && table@[prior] == initial,
            forall|prior: LiteralContextPrior| table@.dom().contains(prior) ==> prior.valid(),
    {
        LiteralCommandPriorsCM {
            first_nibble: filled(initial, 256),
            second_nibble: filled(initial, 4096),
        }
    }

    /// The entry `prior`, to be read and adapted.
    pub fn get(&mut self, prior: LiteralContextPrior) -> (cdf: &mut C)
        requires
            old(self).wf(),
            prior.valid(),
        ensures
            *cdf == old(self)@[prior],
            final(self).wf(),
            final(self)@ == old(self)@.insert(prior, *final(cdf)),
    {
        match prior {
            LiteralContextPrior::FirstNibble { context } =>
                &mut self.first_nibble[context as usize],
            LiteralContextPrior::SecondNibble { high_nibble, context } =>
                &mut self.second_nibble[high_nibble as usize * 256 + context as usize],
        }
    }
}

/// `len` copies of `initial`.
fn filled<C: CDF16>(initial: C, len: usize) -> (entries: Vec<C>)
    ensures
        entries@ == Seq::new(len as nat, |i: int| initial),
{
    let mut entries: Vec<C> = Vec::new();
    let mut i: usize = 0;
    while i < len
        invariant
            i <= len,
            entries@ == Seq::new(i as nat, |j: int| initial),
        decreases len - i,
    {
        entries.push(initial);
        i = i + 1;
    }
    entries
}

} // verus!
