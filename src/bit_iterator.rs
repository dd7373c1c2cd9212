use vstd::prelude::*;
use crate::FixedWidth;

verus! {

/// Bit `i` of `v`, counting from the least significant.
pub open spec fn bit_of(v: nat, i: nat) -> u8 {
    if (v / vstd::arithmetic::power2::pow2(i)) % 2 == 0 {
        0
    } else {
        1
    }
}

/// The bits of a value, taken from the low end with `next` and from the high end with
/// `next_back`; each end yields every bit of the value's width once.
pub struct BitIterator {
    value: u64,
    low_bit_index: usize,
    high_bit_index: usize,
    bit_count: usize,
}

impl BitIterator {
    pub closed spec fn value(&self) -> nat {
        self.value as nat
    }

    pub closed spec fn bit_count(&self) -> nat {
        self.bit_count as nat
    }

    pub closed spec fn low(&self) -> nat {
        self.low_bit_index as nat
    }

    pub closed spec fn high(&self) -> nat {
        self.high_bit_index as nat
    }

    pub closed spec fn wf(&self) -> bool {
        self.bit_count <= 64 && self.low_bit_index <= self.bit_count && self.high_bit_index
            <= self.bit_count
    }

    /// Iterates the bits of `value`, as many as its type holds.
    pub fn new<T: FixedWidth>(value: T) -> (r: BitIterator)
        ensures
            r.wf(),
            r.value() == value.spec_value(),
            r.bit_count() == 8 * T::spec_bytes(),
            r.low() == 0,
            r.high() == 0,
    {
        BitIterator {
            value: value.to_u64(),
            low_bit_index: 0,
            high_bit_index: 0,
            bit_count: T::byte_width() * 8,
        }
    }

    /// The next bit from the low end, or `None` once all have been taken from that end.
    pub fn next(&mut self) -> (r: Option<u8>)
        requires
            old(self).wf(),
        ensures
            final(self).wf(),
            final(self).value() == old(self).value(),
            final(self).bit_count() == old(self).bit_count(),
            final(self).high() == old(self).high(),
            old(self).low() < old(self).bit_count() ==> r == Some(bit_of(old(self).value(), old(self).low()))
                && final(self).low() == old(self).low() + 1,
            old(self).low() >= old(self).bit_count() ==> r is None && final(self).low() == old(self).low(),
    {
        if self.low_bit_index < self.bit_count {
            let b = Self::bit_at(self.value, self.low_bit_index);
            self.low_bit_index += 1;
            Some(b)
        } else {
            None
        }
    }

    /// The next bit from the high end, or `None` once all have been taken from that end.
    pub fn next_back(&mut self) -> (r: Option<u8>)
        requires
            old(self).wf(),
        ensures
            final(self).wf(),
            final(self).value() == old(self).value(),
            final(self).bit_count() == old(self).bit_count(),
            final(self).low() == old(self).low(),
            old(self).high() < old(self).bit_count() ==> r == Some(bit_of(old(self).value(), (old(self).bit_count() - old(self).high() - 1) as nat))
                && final(self).high() == old(self).high() + 1,
            old(self).high() >= old(self).bit_count() ==> r is None && final(self).high() == old(self).high(),
    {
        if self.high_bit_index < self.bit_count {
            let b = Self::bit_at(self.value, self.bit_count - self.high_bit_index - 1);
            self.high_bit_index += 1;
            Some(b)
        } else {
            None
        }
    }

    fn bit_at(value: u64, i: usize) -> (r: u8)
        requires
            i < 64,
        ensures
            r == bit_of(value as nat, i as nat),
    {
        let shifted: u64 = value >> (i as u64);
        proof {
            vstd::bits::lemma_u64_shr_is_div(value, i as u64);
        }
        if shifted % 2 == 0 {
            0
        } else {
            1
        }
    }
}

} // verus!
