//! Decompression of DAT containers: a container is a run of sections, each
//! framed by a ten-byte header and compressed with a six-command LZ scheme
//! over the reversed-order bitstream of `bit_iter_dat`. The decoder rebuilds
//! each section's bytes in reverse order, back-references reading from the
//! tail of the growing buffer, and reverses the buffer once at the end.

use vstd::prelude::*;
use crate::bit_iter_dat::{bit_val, dat_bit_stream, stream_byte, BitIterDat};

verus! {

/// Why decoding a container or one of its sections failed.
#[derive(Clone, Copy, Debug, PartialEq, Eq, Structural)]
pub enum DecompressError {
    /// A section header could not be read: fewer than ten bytes remained at
    /// a section boundary, the first-byte bit count exceeds eight, or the
    /// declared compressed size is smaller than the header itself.
    MalformedHeader,
    /// The declared compressed size runs past the end of the container.
    TruncatedSection,
    /// A command needed more bits than the section payload holds.
    BitStreamExhausted,
    /// A copy command's offset reaches behind the start of the output
    /// built so far.
    InvalidBackReference,
}

/// The mathematical content of one framed section.
pub struct SectionModel {
    pub first_byte_bits: u8,
    pub checksum: u8,
    pub decompressed_size: u16,
    pub compressed_size: u16,
    pub payload: Seq<u8>,
}

/// A big-endian 16-bit field at byte offset `off`.
pub open spec fn be16(d: Seq<u8>, off: int) -> u16
    recommends
        0 <= off,
        off + 2 <= d.len(),
{
    (256 * d[off] + d[off + 1]) as u16
}

/// The section whose header starts at `off`, or the framing error there.
pub open spec fn section_at(dat: Seq<u8>, off: int) -> Result<SectionModel, DecompressError>
    recommends
        0 <= off,
{
    if off + 10 > dat.len() {
        Err(DecompressError::MalformedHeader)
    } else if dat[off] > 8 {
        Err(DecompressError::MalformedHeader)
    } else if be16(dat, off + 8) < 10 {
        Err(DecompressError::MalformedHeader)
    } else if off + be16(dat, off + 8) > dat.len() {
        Err(DecompressError::TruncatedSection)
    } else {
        Ok(
            SectionModel {
                first_byte_bits: dat[off],
                checksum: dat[off + 1],
                decompressed_size: be16(dat, off + 4),
                compressed_size: be16(dat, off + 8),
                payload: dat.subrange(off + 10, off + be16(dat, off + 8)),
            },
        )
    }
}

/// All sections of the container from offset `off` on. An empty remainder
/// holds no further section; otherwise one section is framed at `off` and
/// the walk continues right behind its payload.
pub open spec fn frame_sections(dat: Seq<u8>, off: int) -> Result<
    Seq<SectionModel>,
    DecompressError,
>
    recommends
        0 <= off,
    decreases dat.len() - off,
{
    if off >= dat.len() {
        Ok(Seq::empty())
    } else {
        match section_at(dat, off) {
            Err(e) => Err(e),
            Ok(m) => match frame_sections(dat, off + m.compressed_size) {
                Err(e) => Err(e),
                Ok(rest) => Ok(seq![m] + rest),
            },
        }
    }
}

/// The byte `offset` positions before the end of the in-progress output:
/// offset zero is the most recently appended byte.
pub open spec fn from_end(out: Seq<u8>, offset: int) -> u8
    recommends
        0 <= offset < out.len(),
{
    out[out.len() - 1 - offset]
}

/// `n` appends, each re-reading `offset` positions from the current end, so
/// that a copy may pick up bytes it appended itself.
pub open spec fn copy_from_end(out: Seq<u8>, offset: int, n: nat) -> Seq<u8>
    recommends
        0 <= offset < out.len(),
    decreases n,
{
    if n == 0 {
        out
    } else {
        copy_from_end(out.push(from_end(out, offset)), offset, (n - 1) as nat)
    }
}

/// `n` raw bytes read from the bitstream starting at `p`, appended in order.
pub open spec fn push_literals(s: Seq<bool>, p: int, out: Seq<u8>, n: nat) -> Seq<u8>
    decreases n,
{
    if n == 0 {
        out
    } else {
        push_literals(s, p + 8, out.push(stream_byte(s, p)), (n - 1) as nat)
    }
}

/// The LZ command loop over the bitstream `s`, starting at bit `pos` with
/// the bytes `out` already produced: commands run while fewer than `target`
/// bytes exist, and each either appends literal bytes or re-reads bytes from
/// the tail of `out`. A command found mid-stream may append past `target`;
/// the check happens only between commands.
pub open spec fn lz_decode_from(s: Seq<bool>, pos: int, out: Seq<u8>, target: nat) -> Result<
    Seq<u8>,
    DecompressError,
>
    decreases s.len() - pos,
{
    if out.len() >= target {
        Ok(out)
    } else if pos < 0 || pos + 2 > s.len() {
        Err(DecompressError::BitStreamExhausted)
    } else if !s[pos] {
        if !s[pos + 1] {
            // short literal run: three bits give the count minus one
            if pos + 5 > s.len() {
                Err(DecompressError::BitStreamExhausted)
            } else {
                let n = (4 * bit_val(s[pos + 2]) + 2 * bit_val(s[pos + 3]) + bit_val(s[pos + 4])
                    + 1) as nat;
                if pos + 5 + 8 * n > s.len() {
                    Err(DecompressError::BitStreamExhausted)
                } else {
                    lz_decode_from(s, pos + 5 + 8 * n, push_literals(s, pos + 5, out, n), target)
                }
            }
        } else {
            // copy two bytes from an eight-bit offset
            if pos + 10 > s.len() {
                Err(DecompressError::BitStreamExhausted)
            } else {
                let off = stream_byte(s, pos + 2) as int;
                if off >= out.len() {
                    Err(DecompressError::InvalidBackReference)
                } else {
                    lz_decode_from(s, pos + 10, copy_from_end(out, off, 2), target)
                }
            }
        }
    } else if pos + 3 > s.len() {
        Err(DecompressError::BitStreamExhausted)
    } else if !s[pos + 1] && !s[pos + 2] {
        // copy three bytes from a nine-bit offset
        if pos + 12 > s.len() {
            Err(DecompressError::BitStreamExhausted)
        } else {
            let off = 256 * bit_val(s[pos + 3]) + stream_byte(s, pos + 4) as int;
            if off >= out.len() {
                Err(DecompressError::InvalidBackReference)
            } else {
                lz_decode_from(s, pos + 12, copy_from_end(out, off, 3), target)
            }
        }
    } else if !s[pos + 1] && s[pos + 2] {
        // copy four bytes from a ten-bit offset
        if pos + 13 > s.len() {
            Err(DecompressError::BitStreamExhausted)
        } else {
            let off = 512 * bit_val(s[pos + 3]) + 256 * bit_val(s[pos + 4]) + stream_byte(
                s,
                pos + 5,
            ) as int;
            if off >= out.len() {
                Err(DecompressError::InvalidBackReference)
            } else {
                lz_decode_from(s, pos + 13, copy_from_end(out, off, 4), target)
            }
        }
    } else if s[pos + 1] && !s[pos + 2] {
        // copy a counted run from a twelve-bit offset
        if pos + 23 > s.len() {
            Err(DecompressError::BitStreamExhausted)
        } else {
            let n = (stream_byte(s, pos + 3) + 1) as nat;
            let off = 2048 * bit_val(s[pos + 11]) + 1024 * bit_val(s[pos + 12]) + 512 * bit_val(
                s[pos + 13],
            ) + 256 * bit_val(s[pos + 14]) + stream_byte(s, pos + 15) as int;
            if off >= out.len() {
                Err(DecompressError::InvalidBackReference)
            } else {
                lz_decode_from(s, pos + 23, copy_from_end(out, off, n), target)
            }
        }
    } else {
        // long literal run: a length byte gives the count minus nine
        if pos + 11 > s.len() {
            Err(DecompressError::BitStreamExhausted)
        } else {
            let n = (stream_byte(s, pos + 3) + 9) as nat;
            if pos + 11 + 8 * n > s.len() {
                Err(DecompressError::BitStreamExhausted)
            } else {
                lz_decode_from(s, pos + 11 + 8 * n, push_literals(s, pos + 11, out, n), target)
            }
        }
    }
}

/// What decoding one section yields: the command loop runs over the
/// section's bit stream until `decompressed_size` bytes exist, and the
/// buffer is reversed once at the end.
pub open spec fn decode_section(m: SectionModel) -> Result<Seq<u8>, DecompressError> {
    match lz_decode_from(
        dat_bit_stream(m.payload, m.first_byte_bits),
        0,
        Seq::empty(),
        m.decompressed_size as nat,
    ) {
        Ok(o) => Ok(o.reverse()),
        Err(e) => Err(e),
    }
}

/// Every section decoded in order; the first failure aborts the container.
pub open spec fn decode_sections(ms: Seq<SectionModel>) -> Result<Seq<Seq<u8>>, DecompressError>
    decreases ms.len(),
{
    if ms.len() == 0 {
        Ok(Seq::empty())
    } else {
        match decode_section(ms[0]) {
            Err(e) => Err(e),
            Ok(b) => match decode_sections(ms.drop_first()) {
                Err(e) => Err(e),
                Ok(rest) => Ok(seq![b] + rest),
            },
        }
    }
}

/// The whole container: framed into sections, then each section decoded.
pub open spec fn decompress_spec(dat: Seq<u8>) -> Result<Seq<Seq<u8>>, DecompressError> {
    match frame_sections(dat, 0) {
        Err(e) => Err(e),
        Ok(ms) => decode_sections(ms),
    }
}

/// Decoding a section is a function of its payload, its first-byte bit
/// count and its declared size alone: the advisory checksum and the
/// compressed size have no influence, and equal inputs always decode to
/// byte-identical output.
pub proof fn lemma_decode_deterministic(a: SectionModel, b: SectionModel)
    requires
        a.payload == b.payload,
        a.first_byte_bits == b.first_byte_bits,
        a.decompressed_size == b.decompressed_size,
    ensures
        decode_section(a) == decode_section(b),
{
}

/// A back-reference offset of zero resolves to the most recently appended
/// byte of the in-progress buffer.
pub proof fn lemma_offset_zero_is_last(out: Seq<u8>)
    requires
        out.len() > 0,
    ensures
        from_end(out, 0) == out.last(),
{
}

/// A copy command with offset zero therefore appends pure repetition: each
/// of its appends re-reads the byte it just wrote, so the run extends the
/// buffer with copies of the last byte.
pub proof fn lemma_copy_offset_zero(out: Seq<u8>, n: nat)
    requires
        out.len() > 0,
    ensures
        copy_from_end(out, 0, n) == out + Seq::new(n, |i: int| out.last()),
    decreases n,
{
    if n == 0 {
        assert(copy_from_end(out, 0, n) =~= out + Seq::new(0nat, |i: int| out.last()));
    } else {
        let pushed = out.push(out.last());
        assert(pushed.last() == out.last());
        lemma_copy_offset_zero(pushed, (n - 1) as nat);
        assert(pushed + Seq::new((n - 1) as nat, |i: int| pushed.last()) =~= out + Seq::new(
            n,
            |i: int| out.last(),
        ));
    }
}

/// Appending `n` literals grows the buffer by exactly `n` bytes.
proof fn lemma_push_literals_len(s: Seq<bool>, p: int, out: Seq<u8>, n: nat)
    ensures
        push_literals(s, p, out, n).len() == out.len() + n,
    decreases n,
{
    if n > 0 {
        lemma_push_literals_len(s, p + 8, out.push(stream_byte(s, p)), (n - 1) as nat);
    }
}

/// A copy run grows the buffer by exactly `n` bytes.
proof fn lemma_copy_from_end_len(out: Seq<u8>, offset: int, n: nat)
    ensures
        copy_from_end(out, offset, n).len() == out.len() + n,
    decreases n,
{
    if n > 0 {
        lemma_copy_from_end_len(out.push(from_end(out, offset)), offset, (n - 1) as nat);
    }
}

/// The command loop can overshoot its target by at most one command's
/// worth of bytes: a successful decode is never more than 263 bytes longer
/// than the declared size.
pub proof fn lemma_lz_output_len(s: Seq<bool>, pos: int, out: Seq<u8>, target: nat)
    requires
        out.len() <= target + 263,
    ensures
        lz_decode_from(s, pos, out, target) matches Ok(o) ==> o.len() <= target + 263,
    decreases s.len() - pos,
{
    if out.len() >= target {
    } else if pos < 0 || pos + 2 > s.len() {
    } else if !s[pos] {
        if !s[pos + 1] {
            if pos + 5 > s.len() {
            } else {
                let n = (4 * bit_val(s[pos + 2]) + 2 * bit_val(s[pos + 3]) + bit_val(s[pos + 4])
                    + 1) as nat;
                if pos + 5 + 8 * n > s.len() {
                } else {
                    lemma_push_literals_len(s, pos + 5, out, n);
                    lemma_lz_output_len(s, pos + 5 + 8 * n, push_literals(s, pos + 5, out, n), target);
                }
            }
        } else {
            if pos + 10 > s.len() {
            } else {
                let off = stream_byte(s, pos + 2) as int;
                if off >= out.len() {
                } else {
                    lemma_copy_from_end_len(out, off, 2);
                    lemma_lz_output_len(s, pos + 10, copy_from_end(out, off, 2), target);
                }
            }
        }
    } else if pos + 3 > s.len() {
    } else if !s[pos + 1] && !s[pos + 2] {
        if pos + 12 > s.len() {
        } else {
            let off = 256 * bit_val(s[pos + 3]) + stream_byte(s, pos + 4) as int;
            if off >= out.len() {
            } else {
                lemma_copy_from_end_len(out, off, 3);
                lemma_lz_output_len(s, pos + 12, copy_from_end(out, off, 3), target);
            }
        }
    } else if !s[pos + 1] && s[pos + 2] {
        if pos + 13 > s.len() {
        } else {
            let off = 512 * bit_val(s[pos + 3]) + 256 * bit_val(s[pos + 4]) + stream_byte(
                s,
                pos + 5,
            ) as int;
            if off >= out.len() {
            } else {
                lemma_copy_from_end_len(out, off, 4);
                lemma_lz_output_len(s, pos + 13, copy_from_end(out, off, 4), target);
            }
        }
    } else if s[pos + 1] && !s[pos + 2] {
        if pos + 23 > s.len() {
        } else {
            let n = (stream_byte(s, pos + 3) + 1) as nat;
            let off = 2048 * bit_val(s[pos + 11]) + 1024 * bit_val(s[pos + 12]) + 512 * bit_val(
                s[pos + 13],
            ) + 256 * bit_val(s[pos + 14]) + stream_byte(s, pos + 15) as int;
            if off >= out.len() {
            } else {
                lemma_copy_from_end_len(out, off, n);
                lemma_lz_output_len(s, pos + 23, copy_from_end(out, off, n), target);
            }
        }
    } else {
        if pos + 11 > s.len() {
        } else {
            let n = (stream_byte(s, pos + 3) + 9) as nat;
            if pos + 11 + 8 * n > s.len() {
            } else {
                lemma_push_literals_len(s, pos + 11, out, n);
                lemma_lz_output_len(s, pos + 11 + 8 * n, push_literals(s, pos + 11, out, n), target);
            }
        }
    }
}

/// A decoded section is never more than 263 bytes longer than its
/// sixteen-bit declared size.
pub proof fn lemma_decode_section_len(m: SectionModel)
    ensures
        decode_section(m) matches Ok(b) ==> b.len() <= 65798,
{
    lemma_lz_output_len(
        dat_bit_stream(m.payload, m.first_byte_bits),
        0,
        Seq::empty(),
        m.decompressed_size as nat,
    );
}

/// Every buffer a container decompresses to fits the bound of
/// `lemma_decode_section_len`.
pub proof fn lemma_decode_sections_len(ms: Seq<SectionModel>)
    ensures
        decode_sections(ms) matches Ok(bs) ==> forall|j: int|
            0 <= j < bs.len() ==> (#[trigger] bs[j]).len() <= 65798,
    decreases ms.len(),
{
    if ms.len() > 0 {
        lemma_decode_section_len(ms[0]);
        lemma_decode_sections_len(ms.drop_first());
    }
}

/// One compressed section, as cut out of a container: the header fields and
/// a copy of the payload bytes.
pub struct CompressedSection {
    pub num_bits_in_first_byte: u8,
    pub checksum: u8,
    pub decompressed_data_size: usize,
    /// Includes the ten header bytes.
    pub compressed_data_size: usize,
    pub data: Vec<u8>,
}

impl View for CompressedSection {
    type V = SectionModel;

    open spec fn view(&self) -> SectionModel {
        SectionModel {
            first_byte_bits: self.num_bits_in_first_byte,
            checksum: self.checksum,
            decompressed_size: self.decompressed_data_size as u16,
            compressed_size: self.compressed_data_size as u16,
            payload: self.data@,
        }
    }
}

impl CompressedSection {
    /// The fields fit their sixteen-bit header encoding and the payload has
    /// exactly the declared length.
    pub open spec fn wf(self) -> bool {
        &&& self.num_bits_in_first_byte <= 8
        &&& 10 <= self.compressed_data_size < 0x10000
        &&& self.decompressed_data_size < 0x10000
        &&& self.data@.len() == self.compressed_data_size - 10
    }

    /// Frames the section that starts at the front of `data`.
    pub fn new(data: &[u8]) -> (r: Result<CompressedSection, DecompressError>)
        ensures
            match r {
                Ok(s) => s.wf() && section_at(data@, 0) == Ok::<SectionModel, DecompressError>(s@),
                Err(e) => section_at(data@, 0) == Err::<SectionModel, DecompressError>(e),
            },
    {
        if data.len() < 10 {
            return Err(DecompressError::MalformedHeader);
        }
        let num_bits_in_first_byte = data[0];
        if num_bits_in_first_byte > 8 {
            return Err(DecompressError::MalformedHeader);
        }
        let checksum = data[1];
        let decompressed_data_size: usize = 256 * (data[4] as usize) + (data[5] as usize);
        let compressed_data_size: usize = 256 * (data[8] as usize) + (data[9] as usize);
        if compressed_data_size < 10 {
            return Err(DecompressError::MalformedHeader);
        }
        if compressed_data_size > data.len() {
            return Err(DecompressError::TruncatedSection);
        }
        let payload = vstd::slice::slice_to_vec(vstd::slice::slice_subrange(
            data,
            10,
            compressed_data_size,
        ));
        let s = CompressedSection {
            num_bits_in_first_byte,
            checksum,
            decompressed_data_size,
            compressed_data_size,
            data: payload,
        };
        proof {
            assert(section_at(data@, 0) == Ok::<SectionModel, DecompressError>(s@)) by {
                assert(s@.payload =~= data@.subrange(10, compressed_data_size as int));
            }
        }
        Ok(s)
    }

    /// Decodes this section to its declared-size buffer, in documented byte
    /// order.
    pub fn decompress(&self) -> (r: Result<Vec<u8>, DecompressError>)
        requires
            self.wf(),
        ensures
            match r {
                Ok(v) => decode_section(self@) == Ok::<Seq<u8>, DecompressError>(v@),
                Err(e) => decode_section(self@) == Err::<Seq<u8>, DecompressError>(e),
            },
    {
        let ghost s = dat_bit_stream(self.data@, self.num_bits_in_first_byte);
        let ghost t = self.decompressed_data_size as nat;
        let target: usize = self.decompressed_data_size;
        let mut bits = BitIterDat::new(self.data.as_slice(), self.num_bits_in_first_byte);
        let mut out: Vec<u8> = Vec::new();
        while out.len() < target
            invariant
                self.wf(),
                s == dat_bit_stream(self.data@, self.num_bits_in_first_byte),
                t == self.decompressed_data_size as nat,
                bits.wf(),
                bits.stream() == s,
                bits.taken() <= s.len(),
                target == t,
                lz_decode_from(s, 0, Seq::empty(), t) == lz_decode_from(
                    s,
                    bits.taken() as int,
                    out@,
                    t,
                ),
            decreases s.len() - bits.taken(),
        {
            match step_command(&mut bits, &mut out, Ghost(t)) {
                Ok(()) => (),
                Err(e) => {
                    return Err(e);
                },
            }
            proof {
                bits.lemma_taken_le_len();
            }
        }
        let r = reversed(&out);
        Ok(r)
    }
}

/// Reads one command at the cursor and performs it: the prefix bits select
/// among two literal-run and four copy encodings. On success the relation
/// between the command loop at the old and at the new cursor position is
/// preserved; on failure the loop's result from the old position is exactly
/// the returned error.
fn step_command(bits: &mut BitIterDat<'_>, out: &mut Vec<u8>, Ghost(t): Ghost<nat>) -> (r: Result<
    (),
    DecompressError,
>)
    requires
        old(bits).wf(),
        old(out)@.len() < t,
    ensures
        final(bits).wf(),
        final(bits).stream() == old(bits).stream(),
        match r {
            Ok(()) => old(bits).taken() < final(bits).taken() && lz_decode_from(
                old(bits).stream(),
                old(bits).taken() as int,
                old(out)@,
                t,
            ) == lz_decode_from(
                old(bits).stream(),
                final(bits).taken() as int,
                final(out)@,
                t,
            ),
            Err(e) => lz_decode_from(old(bits).stream(), old(bits).taken() as int, old(out)@, t)
                == Err::<Seq<u8>, DecompressError>(e),
        },
{
    let ghost s = old(bits).stream();
    let ghost pos = old(bits).taken() as int;
    proof {
        old(bits).lemma_taken_le_len();
    }
    let b0 = match bits.next() {
        Some(b) => b,
        None => {
            return Err(DecompressError::BitStreamExhausted);
        },
    };
    let b1 = match bits.next() {
        Some(b) => b,
        None => {
            return Err(DecompressError::BitStreamExhausted);
        },
    };
    if !b0 {
        if !b1 {
            cmd_literal_short(bits, out, Ghost(pos), Ghost(t))
        } else {
            cmd_copy_two(bits, out, Ghost(pos), Ghost(t))
        }
    } else {
        let b2 = match bits.next() {
            Some(b) => b,
            None => {
                return Err(DecompressError::BitStreamExhausted);
            },
        };
        if !b1 && !b2 {
            cmd_copy_three(bits, out, Ghost(pos), Ghost(t))
        } else if !b1 && b2 {
            cmd_copy_four(bits, out, Ghost(pos), Ghost(t))
        } else if b1 && !b2 {
            cmd_copy_many(bits, out, Ghost(pos), Ghost(t))
        } else {
            cmd_literal_long(bits, out, Ghost(pos), Ghost(t))
        }
    }
}

/// The short literal run: three bits give the byte count minus one.
fn cmd_literal_short(
    bits: &mut BitIterDat<'_>,
    out: &mut Vec<u8>,
    Ghost(pos): Ghost<int>,
    Ghost(t): Ghost<nat>,
) -> (r: Result<(), DecompressError>)
    requires
        old(bits).wf(),
        0 <= pos,
        pos + 2 <= old(bits).stream().len(),
        old(bits).taken() == pos + 2,
        !old(bits).stream()[pos],
        !old(bits).stream()[pos + 1],
        old(out)@.len() < t,
    ensures
        final(bits).wf(),
        final(bits).stream() == old(bits).stream(),
        match r {
            Ok(()) => old(bits).taken() < final(bits).taken() && lz_decode_from(
                old(bits).stream(),
                pos,
                old(out)@,
                t,
            ) == lz_decode_from(
                old(bits).stream(),
                final(bits).taken() as int,
                final(out)@,
                t,
            ),
            Err(e) => lz_decode_from(old(bits).stream(), pos, old(out)@, t) == Err::<
                Seq<u8>,
                DecompressError,
            >(e),
        },
{
    let ghost s = old(bits).stream();
    let n1 = match bits.next_bit() {
        Some(b) => b,
        None => {
            return Err(DecompressError::BitStreamExhausted);
        },
    };
    let n2 = match bits.next_bit() {
        Some(b) => b,
        None => {
            return Err(DecompressError::BitStreamExhausted);
        },
    };
    let n3 = match bits.next_bit() {
        Some(b) => b,
        None => {
            return Err(DecompressError::BitStreamExhausted);
        },
    };
    let n: usize = (4 * n1 + 2 * n2 + n3 + 1) as usize;
    if !read_literals(bits, out, n) {
        return Err(DecompressError::BitStreamExhausted);
    }
    Ok(())
}

/// The long literal run: a length byte gives the byte count minus nine.
fn cmd_literal_long(
    bits: &mut BitIterDat<'_>,
    out: &mut Vec<u8>,
    Ghost(pos): Ghost<int>,
    Ghost(t): Ghost<nat>,
) -> (r: Result<(), DecompressError>)
    requires
        old(bits).wf(),
        0 <= pos,
        pos + 3 <= old(bits).stream().len(),
        old(bits).taken() == pos + 3,
        old(bits).stream()[pos],
        old(bits).stream()[pos + 1],
        old(bits).stream()[pos + 2],
        old(out)@.len() < t,
    ensures
        final(bits).wf(),
        final(bits).stream() == old(bits).stream(),
        match r {
            Ok(()) => old(bits).taken() < final(bits).taken() && lz_decode_from(
                old(bits).stream(),
                pos,
                old(out)@,
                t,
            ) == lz_decode_from(
                old(bits).stream(),
                final(bits).taken() as int,
                final(out)@,
                t,
            ),
            Err(e) => lz_decode_from(old(bits).stream(), pos, old(out)@, t) == Err::<
                Seq<u8>,
                DecompressError,
            >(e),
        },
{
    let len_byte = match bits.next_byte() {
        Some(b) => b,
        None => {
            return Err(DecompressError::BitStreamExhausted);
        },
    };
    let n: usize = (len_byte as usize) + 9;
    if !read_literals(bits, out, n) {
        return Err(DecompressError::BitStreamExhausted);
    }
    Ok(())
}

/// Copy two bytes from an eight-bit offset.
fn cmd_copy_two(
    bits: &mut BitIterDat<'_>,
    out: &mut Vec<u8>,
    Ghost(pos): Ghost<int>,
    Ghost(t): Ghost<nat>,
) -> (r: Result<(), DecompressError>)
    requires
        old(bits).wf(),
        0 <= pos,
        pos + 2 <= old(bits).stream().len(),
        old(bits).taken() == pos + 2,
        !old(bits).stream()[pos],
        old(bits).stream()[pos + 1],
        old(out)@.len() < t,
    ensures
        final(bits).wf(),
        final(bits).stream() == old(bits).stream(),
        match r {
            Ok(()) => old(bits).taken() < final(bits).taken() && lz_decode_from(
                old(bits).stream(),
                pos,
                old(out)@,
                t,
            ) == lz_decode_from(
                old(bits).stream(),
                final(bits).taken() as int,
                final(out)@,
                t,
            ),
            Err(e) => lz_decode_from(old(bits).stream(), pos, old(out)@, t) == Err::<
                Seq<u8>,
                DecompressError,
            >(e),
        },
{
    let off_byte = match bits.next_byte() {
        Some(b) => b,
        None => {
            return Err(DecompressError::BitStreamExhausted);
        },
    };
    if !copy_run(out, off_byte as usize, 2) {
        return Err(DecompressError::InvalidBackReference);
    }
    Ok(())
}

/// Copy three bytes from a nine-bit offset.
fn cmd_copy_three(
    bits: &mut BitIterDat<'_>,
    out: &mut Vec<u8>,
    Ghost(pos): Ghost<int>,
    Ghost(t): Ghost<nat>,
) -> (r: Result<(), DecompressError>)
    requires
        old(bits).wf(),
        0 <= pos,
        pos + 3 <= old(bits).stream().len(),
        old(bits).taken() == pos + 3,
        old(bits).stream()[pos],
        !old(bits).stream()[pos + 1],
        !old(bits).stream()[pos + 2],
        old(out)@.len() < t,
    ensures
        final(bits).wf(),
        final(bits).stream() == old(bits).stream(),
        match r {
            Ok(()) => old(bits).taken() < final(bits).taken() && lz_decode_from(
                old(bits).stream(),
                pos,
                old(out)@,
                t,
            ) == lz_decode_from(
                old(bits).stream(),
                final(bits).taken() as int,
                final(out)@,
                t,
            ),
            Err(e) => lz_decode_from(old(bits).stream(), pos, old(out)@, t) == Err::<
                Seq<u8>,
                DecompressError,
            >(e),
        },
{
    let m1 = match bits.next_bit() {
        Some(b) => b,
        None => {
            return Err(DecompressError::BitStreamExhausted);
        },
    };
    let m2 = match bits.next_byte() {
        Some(b) => b,
        None => {
            return Err(DecompressError::BitStreamExhausted);
        },
    };
    let offset: usize = 256 * (m1 as usize) + (m2 as usize);
    if !copy_run(out, offset, 3) {
        return Err(DecompressError::InvalidBackReference);
    }
    Ok(())
}

/// Copy four bytes from a ten-bit offset.
fn cmd_copy_four(
    bits: &mut BitIterDat<'_>,
    out: &mut Vec<u8>,
    Ghost(pos): Ghost<int>,
    Ghost(t): Ghost<nat>,
) -> (r: Result<(), DecompressError>)
    requires
        old(bits).wf(),
        0 <= pos,
        pos + 3 <= old(bits).stream().len(),
        old(bits).taken() == pos + 3,
        old(bits).stream()[pos],
        !old(bits).stream()[pos + 1],
        old(bits).stream()[pos + 2],
        old(out)@.len() < t,
    ensures
        final(bits).wf(),
        final(bits).stream() == old(bits).stream(),
        match r {
            Ok(()) => old(bits).taken() < final(bits).taken() && lz_decode_from(
                old(bits).stream(),
                pos,
                old(out)@,
                t,
            ) == lz_decode_from(
                old(bits).stream(),
                final(bits).taken() as int,
                final(out)@,
                t,
            ),
            Err(e) => lz_decode_from(old(bits).stream(), pos, old(out)@, t) == Err::<
                Seq<u8>,
                DecompressError,
            >(e),
        },
{
    let m1 = match bits.next_bit() {
        Some(b) => b,
        None => {
            return Err(DecompressError::BitStreamExhausted);
        },
    };
    let m2 = match bits.next_bit() {
        Some(b) => b,
        None => {
            return Err(DecompressError::BitStreamExhausted);
        },
    };
    let m3 = match bits.next_byte() {
        Some(b) => b,
        None => {
            return Err(DecompressError::BitStreamExhausted);
        },
    };
    let offset: usize = 512 * (m1 as usize) + 256 * (m2 as usize) + (m3 as usize);
    if !copy_run(out, offset, 4) {
        return Err(DecompressError::InvalidBackReference);
    }
    Ok(())
}

/// Copy a counted run from a twelve-bit offset: a length byte gives the
/// count minus one.
fn cmd_copy_many(
    bits: &mut BitIterDat<'_>,
    out: &mut Vec<u8>,
    Ghost(pos): Ghost<int>,
    Ghost(t): Ghost<nat>,
) -> (r: Result<(), DecompressError>)
    requires
        old(bits).wf(),
        0 <= pos,
        pos + 3 <= old(bits).stream().len(),
        old(bits).taken() == pos + 3,
        old(bits).stream()[pos],
        old(bits).stream()[pos + 1],
        !old(bits).stream()[pos + 2],
        old(out)@.len() < t,
    ensures
        final(bits).wf(),
        final(bits).stream() == old(bits).stream(),
        match r {
            Ok(()) => old(bits).taken() < final(bits).taken() && lz_decode_from(
                old(bits).stream(),
                pos,
                old(out)@,
                t,
            ) == lz_decode_from(
                old(bits).stream(),
                final(bits).taken() as int,
                final(out)@,
                t,
            ),
            Err(e) => lz_decode_from(old(bits).stream(), pos, old(out)@, t) == Err::<
                Seq<u8>,
                DecompressError,
            >(e),
        },
{
    let len_byte = match bits.next_byte() {
        Some(b) => b,
        None => {
            return Err(DecompressError::BitStreamExhausted);
        },
    };
    let count: usize = (len_byte as usize) + 1;
    let m1 = match bits.next_bit() {
        Some(b) => b,
        None => {
            return Err(DecompressError::BitStreamExhausted);
        },
    };
    let m2 = match bits.next_bit() {
        Some(b) => b,
        None => {
            return Err(DecompressError::BitStreamExhausted);
        },
    };
    let m3 = match bits.next_bit() {
        Some(b) => b,
        None => {
            return Err(DecompressError::BitStreamExhausted);
        },
    };
    let m4 = match bits.next_bit() {
        Some(b) => b,
        None => {
            return Err(DecompressError::BitStreamExhausted);
        },
    };
    let m5 = match bits.next_byte() {
        Some(b) => b,
        None => {
            return Err(DecompressError::BitStreamExhausted);
        },
    };
    let offset: usize = 2048 * (m1 as usize) + 1024 * (m2 as usize) + 512 * (m3 as usize) + 256 * (
    m4 as usize) + (m5 as usize);
    if !copy_run(out, offset, count) {
        return Err(DecompressError::InvalidBackReference);
    }
    Ok(())
}


/// Reads `n` bytes from the bitstream and appends each to `out`. Returns
/// false when the stream runs out first, having then consumed it entirely.
fn read_literals(bits: &mut BitIterDat<'_>, out: &mut Vec<u8>, n: usize) -> (ok: bool)
    requires
        old(bits).wf(),
    ensures
        final(bits).wf(),
        final(bits).stream() == old(bits).stream(),
        ok ==> old(bits).taken() + 8 * n <= old(bits).stream().len() && final(bits).taken() == old(
            bits,
        ).taken() + 8 * n && final(out)@ == push_literals(
            old(bits).stream(),
            old(bits).taken() as int,
            old(out)@,
            n as nat,
        ),
        !ok ==> old(bits).taken() + 8 * n > old(bits).stream().len() && final(bits).taken() == old(
            bits,
        ).stream().len(),
{
    let ghost s = old(bits).stream();
    let ghost p0 = old(bits).taken() as int;
    let ghost out0 = old(out)@;
    let mut i: usize = 0;
    while i < n
        invariant
            bits.wf(),
            bits.stream() == s,
            s == old(bits).stream(),
            p0 == old(bits).taken(),
            out0 == old(out)@,
            i <= n,
            bits.taken() == p0 + 8 * i,
            push_literals(s, p0, out0, n as nat) == push_literals(
                s,
                p0 + 8 * i,
                out@,
                (n - i) as nat,
            ),
        decreases n - i,
    {
        proof {
            bits.lemma_taken_le_len();
        }
        let b = match bits.next_byte() {
            Some(b) => b,
            None => {
                return false;
            },
        };
        out.push(b);
        i = i + 1;
    }
    proof {
        bits.lemma_taken_le_len();
        assert(push_literals(s, p0 + 8 * n, out@, 0nat) == out@);
    }
    true
}

/// Appends `n` bytes, each read `offset` positions from the current end of
/// `out`. Returns false, leaving `out` unchanged, when the offset does not
/// reach into the bytes produced so far.
fn copy_run(out: &mut Vec<u8>, offset: usize, n: usize) -> (ok: bool)
    ensures
        ok == (offset < old(out)@.len()),
        ok ==> final(out)@ == copy_from_end(old(out)@, offset as int, n as nat),
        !ok ==> final(out)@ == old(out)@,
{
    if offset >= out.len() {
        return false;
    }
    let ghost out0 = out@;
    let mut i: usize = 0;
    while i < n
        invariant
            i <= n,
            offset < out@.len(),
            out0 == old(out)@,
            copy_from_end(out0, offset as int, n as nat) == copy_from_end(
                out@,
                offset as int,
                (n - i) as nat,
            ),
        decreases n - i,
    {
        let b = out[out.len() - 1 - offset];
        out.push(b);
        i = i + 1;
    }
    proof {
        assert(copy_from_end(out@, offset as int, 0nat) == out@);
    }
    true
}

/// The bytes of `v` in reverse order.
fn reversed(v: &Vec<u8>) -> (r: Vec<u8>)
    ensures
        r@ == v@.reverse(),
{
    let mut r: Vec<u8> = Vec::new();
    let mut i: usize = v.len();
    while i > 0
        invariant
            i <= v@.len(),
            r@.len() == v@.len() - i,
            forall|j: int| 0 <= j < r@.len() ==> r@[j] == v@[v@.len() - 1 - j],
        decreases i,
    {
        i = i - 1;
        let b = v[i];
        r.push(b);
    }
    proof {
        assert(r@ =~= v@.reverse());
    }
    r
}

/// Splits a container into its compressed sections, in order.
pub fn decompose_into_compressed_sections(dat: &[u8]) -> (r: Result<
    Vec<CompressedSection>,
    DecompressError,
>)
    ensures
        match r {
            Ok(secs) => frame_sections(dat@, 0) == Ok::<Seq<SectionModel>, DecompressError>(
                secs@.map_values(|s: CompressedSection| s@),
            ) && forall|i: int| 0 <= i < secs@.len() ==> (#[trigger] secs@[i]).wf(),
            Err(e) => frame_sections(dat@, 0) == Err::<Seq<SectionModel>, DecompressError>(e),
        },
{
    let mut secs: Vec<CompressedSection> = Vec::new();
    let mut offset: usize = 0;
    while offset < dat.len()
        invariant
            offset <= dat@.len(),
            forall|i: int| 0 <= i < secs@.len() ==> (#[trigger] secs@[i]).wf(),
            match frame_sections(dat@, offset as int) {
                Ok(rest) => frame_sections(dat@, 0) == Ok::<Seq<SectionModel>, DecompressError>(
                    secs@.map_values(|s: CompressedSection| s@) + rest,
                ),
                Err(e) => frame_sections(dat@, 0) == Err::<Seq<SectionModel>, DecompressError>(e),
            },
        decreases dat@.len() - offset,
    {
        let tail = vstd::slice::slice_subrange(dat, offset, dat.len());
        proof {
            lemma_section_at_shift(dat@, offset as int);
        }
        let sec = match CompressedSection::new(tail) {
            Ok(s) => s,
            Err(e) => {
                return Err(e);
            },
        };
        let ghost old_secs = secs@;
        let step = sec.compressed_data_size;
        secs.push(sec);
        offset = offset + step;
        proof {
            assert(secs@.map_values(|s: CompressedSection| s@) =~= old_secs.map_values(
                |s: CompressedSection| s@,
            ).push(sec@));
            match frame_sections(dat@, offset as int) {
                Ok(rest) => {
                    assert(old_secs.map_values(|s: CompressedSection| s@) + (seq![sec@] + rest)
                        =~= secs@.map_values(|s: CompressedSection| s@) + rest);
                },
                Err(e) => {},
            }
        }
    }
    proof {
        assert(secs@.map_values(|s: CompressedSection| s@) + Seq::<SectionModel>::empty()
            =~= secs@.map_values(|s: CompressedSection| s@));
    }
    Ok(secs)
}

/// Framing a section at `off` in the whole container is the same as framing
/// it at the front of the container's tail.
proof fn lemma_section_at_shift(dat: Seq<u8>, off: int)
    requires
        0 <= off <= dat.len(),
    ensures
        section_at(dat.subrange(off, dat.len() as int), 0) == section_at(dat, off),
{
    let tail = dat.subrange(off, dat.len() as int);
    if off + 10 > dat.len() {
    } else if dat[off] > 8 {
    } else if be16(dat, off + 8) < 10 {
    } else if off + be16(dat, off + 8) > dat.len() {
    } else {
        let c = be16(dat, off + 8) as int;
        assert(tail.subrange(10, c) =~= dat.subrange(off + 10, off + c));
    }
}

/// Decompresses a whole DAT container into one buffer per section, in
/// section order.
pub fn decompress(dat: &[u8]) -> (r: Result<Vec<Vec<u8>>, DecompressError>)
    ensures
        match r {
            Ok(bufs) => decompress_spec(dat@) == Ok::<Seq<Seq<u8>>, DecompressError>(
                bufs.deep_view(),
            ),
            Err(e) => decompress_spec(dat@) == Err::<Seq<Seq<u8>>, DecompressError>(e),
        },
{
    let secs = match decompose_into_compressed_sections(dat) {
        Ok(s) => s,
        Err(e) => {
            return Err(e);
        },
    };
    let ghost models = secs@.map_values(|s: CompressedSection| s@);
    let mut bufs: Vec<Vec<u8>> = Vec::new();
    let mut i: usize = 0;
    proof {
        assert(models.skip(0) =~= models);
        assert(bufs.deep_view() =~~= Seq::<Seq<u8>>::empty());
        match decode_sections(models) {
            Ok(all) => {
                assert(bufs.deep_view() + all =~~= all);
            },
            Err(e) => {},
        }
    }
    while i < secs.len()
        invariant
            i <= secs@.len(),
            models == secs@.map_values(|s: CompressedSection| s@),
            frame_sections(dat@, 0) == Ok::<Seq<SectionModel>, DecompressError>(models),
            forall|k: int| 0 <= k < secs@.len() ==> (#[trigger] secs@[k]).wf(),
            match decode_sections(models.skip(i as int)) {
                Ok(rest) => decode_sections(models) == Ok::<Seq<Seq<u8>>, DecompressError>(
                    bufs.deep_view() + rest,
                ),
                Err(e) => decode_sections(models) == Err::<Seq<Seq<u8>>, DecompressError>(e),
            },
        decreases secs@.len() - i,
    {
        let ghost old_bufs = bufs.deep_view();
        let buf = match secs[i].decompress() {
            Ok(b) => b,
            Err(e) => {
                proof {
                    assert(models.skip(i as int)[0] == models[i as int]);
                }
                return Err(e);
            },
        };
        let ghost old_vec = bufs@;
        bufs.push(buf);
        i = i + 1;
        proof {
            assert(models.skip(i - 1)[0] == models[i - 1]);
            assert(models.skip(i - 1).drop_first() =~= models.skip(i as int));
            assert(bufs@ == old_vec.push(buf));
            assert(bufs.deep_view() =~~= old_bufs.push(buf@));
            match decode_sections(models.skip(i as int)) {
                Ok(rest) => {
                    assert(old_bufs + (seq![buf@] + rest) =~~= bufs.deep_view() + rest);
                },
                Err(e) => {},
            }
        }
    }
    proof {
        assert(models.skip(secs@.len() as int) =~= Seq::<SectionModel>::empty());
        assert(bufs.deep_view() + Seq::<Seq<u8>>::empty() =~~= bufs.deep_view());
    }
    Ok(bufs)
}

} // verus!
