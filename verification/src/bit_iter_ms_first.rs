//! Bits of bytes in most-significant-first order, as the bitplane image
//! data stores its pixels.

use vstd::prelude::*;

verus! {

/// Bit `i` of the most-significant-first bit sequence of one byte.
pub open spec fn msb_bit(b: u8, i: int) -> u8
    recommends
        0 <= i < 8,
{
    (b >> ((7 - i) as u8)) & 1
}

/// Every bit of `data` in order: byte after byte, each byte's bits from the
/// most significant down.
pub open spec fn msb_bits(data: Seq<u8>) -> Seq<u8> {
    Seq::new(data.len() * 8, |i: int| msb_bit(data[i / 8], i % 8))
}

/// Yields the bits of one byte, most significant first.
pub struct BitIterMsFirst {
    bit: i8,
    byte: u8,
}

impl BitIterMsFirst {
    /// Which bit index (into the most-significant-first order) comes next;
    /// eight or more means the byte is exhausted.
    pub closed spec fn emitted(self) -> int {
        7 - self.bit
    }

    /// The byte whose bits are yielded.
    pub closed spec fn source(self) -> u8 {
        self.byte
    }

    pub closed spec fn wf(self) -> bool {
        -1 <= self.bit <= 7
    }

    pub fn new(byte: &u8) -> (it: BitIterMsFirst)
        ensures
            it.wf(),
            it.emitted() == 0,
            it.source() == *byte,
    {
        BitIterMsFirst { bit: 7, byte: *byte }
    }

    /// The next bit as `0` or `1`, or `None` after all eight.
    pub fn next(&mut self) -> (r: Option<u8>)
        requires
            old(self).wf(),
        ensures
            final(self).wf(),
            final(self).source() == old(self).source(),
            old(self).emitted() < 8 ==> r == Some(
                msb_bit(old(self).source(), old(self).emitted()),
            ) && final(self).emitted() == old(self).emitted() + 1,
            old(self).emitted() >= 8 ==> r == None::<u8> && *final(self) == *old(self),
    {
        let this_bit = self.bit;
        if this_bit >= 0 {
            self.bit = self.bit - 1;
            Some((self.byte >> (this_bit as u8)) & 1)
        } else {
            None
        }
    }
}

/// All bits of `arr` in most-significant-first order, one byte per bit.
pub fn iterate(arr: &[u8]) -> (r: Vec<u8>)
    requires
        arr@.len() * 8 <= usize::MAX,
    ensures
        r@ == msb_bits(arr@),
{
    let mut r: Vec<u8> = Vec::new();
    let mut i: usize = 0;
    while i < arr.len()
        invariant
            i <= arr@.len(),
            arr@.len() * 8 <= usize::MAX,
            r@.len() == 8 * i,
            forall|k: int| 0 <= k < r@.len() ==> r@[k] == msb_bits(arr@)[k],
        decreases arr@.len() - i,
    {
        let byte = arr[i];
        let mut b: usize = 0;
        while b < 8
            invariant
                b <= 8,
                i < arr@.len(),
                arr@.len() * 8 <= usize::MAX,
                byte == arr@[i as int],
                r@.len() == 8 * i + b,
                forall|k: int| 0 <= k < r@.len() ==> r@[k] == msb_bits(arr@)[k],
            decreases 8 - b,
        {
            let shift: u8 = (7 - b) as u8;
            let bit = (byte >> shift) & 1;
            proof {
                let k = (8 * i + b) as int;
                assert(k / 8 == i && k % 8 == b as int) by (nonlinear_arith)
                    requires
                        0 <= b < 8,
                        0 <= i,
                        k == 8 * i + b,
                ;
                assert(msb_bits(arr@)[k] == msb_bit(arr@[i as int], b as int));
            }
            r.push(bit);
            b = b + 1;
        }
        i = i + 1;
    }
    proof {
        assert(r@ =~= msb_bits(arr@));
    }
    r
}

} // verus!
