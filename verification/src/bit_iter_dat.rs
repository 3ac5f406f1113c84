//! Bit source over a byte slice in the traversal order used by the DAT
//! compression: bytes are visited from the last byte of the slice toward the
//! first, bits within a byte from the least significant upward, and only the
//! low `starting_byte_bits` bits of the first-visited byte carry stream
//! content. `starting_byte_bits == 0` marks a specially framed section whose
//! last byte is skipped entirely.

use vstd::prelude::*;

verus! {

/// True when bit `i` (counted from the least significant end) of `b` is set.
pub open spec fn bit_of(b: u8, i: u8) -> bool
    recommends
        i < 8,
{
    (b >> i) & 1 == 1
}

/// The eight bits of one byte, least significant first.
pub open spec fn byte_bits_lsb(b: u8) -> Seq<bool> {
    Seq::new(8, |i: int| bit_of(b, i as u8))
}

/// The bits of the bytes below index `j`, visited from `data[j - 1]` down to
/// `data[0]`, each byte contributing its bits least significant first.
pub open spec fn bytes_bits_desc(data: Seq<u8>, j: int) -> Seq<bool>
    decreases j,
{
    if j <= 0 {
        Seq::empty()
    } else {
        byte_bits_lsb(data[j - 1]) + bytes_bits_desc(data, j - 1)
    }
}

/// The whole bit sequence a `BitIterDat` over `data` yields: the low
/// `starting_byte_bits` bits of the last byte, then every byte below it in
/// descending order. A zero `starting_byte_bits` skips the last byte.
pub open spec fn dat_bit_stream(data: Seq<u8>, starting_byte_bits: u8) -> Seq<bool>
    recommends
        starting_byte_bits <= 8,
{
    if starting_byte_bits == 0 {
        if data.len() >= 2 {
            bytes_bits_desc(data, data.len() - 1)
        } else {
            Seq::empty()
        }
    } else if data.len() == 0 {
        Seq::empty()
    } else {
        byte_bits_lsb(data.last()).take(starting_byte_bits as int) + bytes_bits_desc(
            data,
            data.len() - 1,
        )
    }
}

/// The byte assembled from the eight stream bits at `p`, first-read bit as
/// the most significant bit of the result.
pub open spec fn stream_byte(s: Seq<bool>, p: int) -> u8
    recommends
        0 <= p,
        p + 8 <= s.len(),
{
    (128 * bit_val(s[p]) + 64 * bit_val(s[p + 1]) + 32 * bit_val(s[p + 2]) + 16 * bit_val(
        s[p + 3],
    ) + 8 * bit_val(s[p + 4]) + 4 * bit_val(s[p + 5]) + 2 * bit_val(s[p + 6]) + bit_val(
        s[p + 7],
    )) as u8
}

/// A bit as the numeric value it contributes.
pub open spec fn bit_val(b: bool) -> u8 {
    if b {
        1
    } else {
        0
    }
}

pub proof fn lemma_bytes_bits_desc_len(data: Seq<u8>, j: int)
    requires
        0 <= j <= data.len(),
    ensures
        bytes_bits_desc(data, j).len() == 8 * j,
    decreases j,
{
    if j > 0 {
        lemma_bytes_bits_desc_len(data, j - 1);
    }
}

pub proof fn lemma_bytes_bits_desc_index(data: Seq<u8>, j: int, k: int, b: int)
    requires
        0 <= k < j <= data.len(),
        0 <= b < 8,
    ensures
        bytes_bits_desc(data, j)[8 * k + b] == bit_of(data[j - 1 - k], b as u8),
    decreases k,
{
    lemma_bytes_bits_desc_len(data, j - 1);
    if k == 0 {
    } else {
        lemma_bytes_bits_desc_index(data, j - 1, k - 1, b);
    }
}

/// Cursor over the bits of a byte slice in DAT traversal order. The byte
/// currently being read is `data[byte_pos - 1]`; `byte_pos == 0` means the
/// stream is exhausted.
pub struct BitIterDat<'a> {
    data: &'a [u8],
    byte_pos: usize,
    bit: u8,
    start_pos: usize,
    first_bits: u8,
}

impl<'a> BitIterDat<'a> {
    /// Internal consistency of the cursor fields.
    pub closed spec fn wf(self) -> bool {
        &&& self.start_pos <= self.data@.len()
        &&& self.byte_pos <= self.start_pos
        &&& 1 <= self.first_bits <= 8
        &&& (self.byte_pos == self.start_pos ==> self.bit < self.first_bits)
        &&& (self.byte_pos < self.start_pos ==> self.bit < 8)
        &&& (self.byte_pos == 0 ==> self.bit == 0)
    }

    /// The full bit sequence this cursor traverses, from its first bit.
    pub closed spec fn stream(self) -> Seq<bool> {
        if self.start_pos == 0 {
            Seq::empty()
        } else {
            byte_bits_lsb(self.data@[self.start_pos - 1]).take(self.first_bits as int)
                + bytes_bits_desc(self.data@, self.start_pos - 1)
        }
    }

    /// How many bits have been consumed so far.
    pub closed spec fn taken(self) -> nat {
        if self.start_pos == 0 {
            0
        } else if self.byte_pos == self.start_pos {
            self.bit as nat
        } else {
            (self.first_bits + 8 * (self.start_pos - 1 - self.byte_pos) + self.bit) as nat
        }
    }

    proof fn lemma_stream_len(self)
        requires
            self.wf(),
        ensures
            self.start_pos == 0 ==> self.stream().len() == 0,
            self.start_pos > 0 ==> self.stream().len() == self.first_bits + 8 * (self.start_pos
                - 1),
            self.taken() <= self.stream().len(),
    {
        if self.start_pos > 0 {
            lemma_bytes_bits_desc_len(self.data@, self.start_pos - 1);
        }
    }

    /// A well-formed cursor never claims to have consumed more bits than
    /// its stream holds.
    pub proof fn lemma_taken_le_len(self)
        requires
            self.wf(),
        ensures
            self.taken() <= self.stream().len(),
    {
        self.lemma_stream_len();
    }

    pub fn new(data: &'a [u8], starting_byte_bits: u8) -> (it: BitIterDat<'a>)
        requires
            starting_byte_bits <= 8,
        ensures
            it.wf(),
            it.taken() == 0,
            it.stream() == dat_bit_stream(data@, starting_byte_bits),
    {
        if starting_byte_bits == 0 {
            // Skip the final byte for the specially framed sections; the byte
            // below it is read as a full 8-bit byte.
            if data.len() < 2 {
                let it = BitIterDat { data, byte_pos: 0, bit: 0, start_pos: 0, first_bits: 8 };
                proof {
                    assert(it.stream() =~= dat_bit_stream(data@, starting_byte_bits));
                }
                it
            } else {
                let it = BitIterDat {
                    data,
                    byte_pos: data.len() - 1,
                    bit: 0,
                    start_pos: data.len() - 1,
                    first_bits: 8,
                };
                proof {
                    assert(byte_bits_lsb(data@[data@.len() - 2]).take(8) =~= byte_bits_lsb(
                        data@[data@.len() - 2],
                    ));
                    assert(it.stream() =~= dat_bit_stream(data@, starting_byte_bits));
                }
                it
            }
        } else if data.len() == 0 {
            let it = BitIterDat {
                data,
                byte_pos: 0,
                bit: 0,
                start_pos: 0,
                first_bits: starting_byte_bits,
            };
            proof {
                assert(it.stream() =~= dat_bit_stream(data@, starting_byte_bits));
            }
            it
        } else {
            let it = BitIterDat {
                data,
                byte_pos: data.len(),
                bit: 0,
                start_pos: data.len(),
                first_bits: starting_byte_bits,
            };
            proof {
                assert(it.stream() =~= dat_bit_stream(data@, starting_byte_bits));
            }
            it
        }
    }

    /// One bit in traversal order, or `None` once the slice is exhausted.
    pub fn next(&mut self) -> (r: Option<bool>)
        requires
            old(self).wf(),
        ensures
            final(self).wf(),
            final(self).stream() == old(self).stream(),
            old(self).taken() < old(self).stream().len() ==> r == Some(
                old(self).stream()[old(self).taken() as int],
            ) && final(self).taken() == old(self).taken() + 1,
            old(self).taken() >= old(self).stream().len() ==> r == None::<bool> && *final(self)
                == *old(self),
    {
        proof {
            old(self).lemma_stream_len();
        }
        if self.byte_pos == 0 {
            proof {
                if self.start_pos > 0 {
                    assert(self.taken() == self.stream().len());
                }
            }
            return None;
        }
        let byte = self.data[self.byte_pos - 1];
        let is_set = (byte >> self.bit) & 1 == 1;
        proof {
            let s = *self;
            if s.byte_pos == s.start_pos {
                assert(s.stream()[s.taken() as int] == byte_bits_lsb(s.data@[s.start_pos - 1]).take(
                    s.first_bits as int,
                )[s.bit as int]);
                assert(s.stream()[s.taken() as int] == bit_of(byte, s.bit));
            } else {
                let k = s.start_pos - 1 - s.byte_pos;
                let idx = s.taken() - s.first_bits;
                assert(idx == 8 * k + s.bit);
                lemma_bytes_bits_desc_index(s.data@, s.start_pos - 1, k, s.bit as int);
                assert(s.stream()[s.taken() as int] == bytes_bits_desc(s.data@, s.start_pos - 1)[
                    idx as int
                ]);
                assert(s.stream()[s.taken() as int] == bit_of(byte, s.bit));
            }
        }
        self.bit = self.bit + 1;
        let max_bits: u8 = if self.byte_pos == self.start_pos {
            self.first_bits
        } else {
            8
        };
        if self.bit >= max_bits {
            self.byte_pos = self.byte_pos - 1;
            self.bit = 0;
        }
        Some(is_set)
    }

    /// One bit as `0` or `1`.
    pub fn next_bit(&mut self) -> (r: Option<u8>)
        requires
            old(self).wf(),
        ensures
            final(self).wf(),
            final(self).stream() == old(self).stream(),
            old(self).taken() < old(self).stream().len() ==> r == Some(
                bit_val(old(self).stream()[old(self).taken() as int]),
            ) && final(self).taken() == old(self).taken() + 1,
            old(self).taken() >= old(self).stream().len() ==> r == None::<u8> && *final(self)
                == *old(self),
    {
        match self.next() {
            Some(b) => if b {
                Some(1)
            } else {
                Some(0)
            },
            None => None,
        }
    }

    /// Eight bits reassembled into one byte, first-read bit as the most
    /// significant. Returns `None` once the slice runs out mid-byte, having
    /// then consumed every remaining bit.
    #[verifier::rlimit(60)]
    pub fn next_byte(&mut self) -> (r: Option<u8>)
        requires
            old(self).wf(),
        ensures
            final(self).wf(),
            final(self).stream() == old(self).stream(),
            old(self).taken() + 8 <= old(self).stream().len() ==> r == Some(
                stream_byte(old(self).stream(), old(self).taken() as int),
            ) && final(self).taken() == old(self).taken() + 8,
            old(self).taken() + 8 > old(self).stream().len() ==> r == None::<u8>
                && final(self).taken() == old(self).stream().len(),
    {
        proof {
            old(self).lemma_stream_len();
        }
        let b1 = match self.next_bit() {
            Some(b) => b,
            None => {
                return None;
            },
        };
        let b2 = match self.next_bit() {
            Some(b) => b,
            None => {
                return None;
            },
        };
        let b3 = match self.next_bit() {
            Some(b) => b,
            None => {
                return None;
            },
        };
        let b4 = match self.next_bit() {
            Some(b) => b,
            None => {
                return None;
            },
        };
        let b5 = match self.next_bit() {
            Some(b) => b,
            None => {
                return None;
            },
        };
        let b6 = match self.next_bit() {
            Some(b) => b,
            None => {
                return None;
            },
        };
        let b7 = match self.next_bit() {
            Some(b) => b,
            None => {
                return None;
            },
        };
        let b8 = match self.next_bit() {
            Some(b) => b,
            None => {
                return None;
            },
        };
        Some(
            b1 * 128 + b2 * 64 + b3 * 32 + b4 * 16 + b5 * 8 + b6 * 4 + b7 * 2 + b8,
        )
    }
}

} // verus!
