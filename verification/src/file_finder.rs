//! The asset-file descriptor handed in by the directory-walking front end,
//! and the pure text helpers of file discovery: pulling the embedded
//! number out of a file name, and flattening a level name into something a
//! file system accepts.

use vstd::prelude::*;
use vstd::string::StringSliceAdditionalSpecFns;

verus! {

/// One asset file: its path, bare name, the number embedded in the name
/// (`vgagr3.dat` carries 3) and its raw bytes.
pub struct File {
    pub path: String,
    pub name: String,
    pub number: u32,
    pub data: Vec<u8>,
}

/// The mathematical content of a `File`.
pub struct FileModel {
    pub path: Seq<char>,
    pub name: Seq<char>,
    pub number: u32,
    pub data: Seq<u8>,
}

impl View for File {
    type V = FileModel;

    open spec fn view(&self) -> FileModel {
        FileModel { path: self.path@, name: self.name@, number: self.number, data: self.data@ }
    }
}

/// An ASCII decimal digit.
pub open spec fn is_digit_byte(b: u8) -> bool {
    48 <= b <= 57
}

/// An ASCII letter or digit.
pub open spec fn is_alnum_byte(b: u8) -> bool {
    is_digit_byte(b) || (65 <= b <= 90) || (97 <= b <= 122)
}

/// The number spelled by the decimal digits of `bytes` in order, every
/// other byte ignored.
pub open spec fn number_from_bytes(bytes: Seq<u8>) -> nat
    decreases bytes.len(),
{
    if bytes.len() == 0 {
        0
    } else {
        let prefix = number_from_bytes(bytes.drop_last());
        if is_digit_byte(bytes.last()) {
            prefix * 10 + (bytes.last() - 48) as nat
        } else {
            prefix
        }
    }
}

/// Reading one more byte never makes the number smaller.
proof fn lemma_number_step(bytes: Seq<u8>)
    requires
        bytes.len() > 0,
    ensures
        number_from_bytes(bytes.drop_last()) <= number_from_bytes(bytes),
{
}

/// The number of a prefix never exceeds the number of the whole name.
proof fn lemma_number_prefix_le(bytes: Seq<u8>, i: int)
    requires
        0 <= i <= bytes.len(),
    ensures
        number_from_bytes(bytes.take(i)) <= number_from_bytes(bytes),
    decreases bytes.len() - i,
{
    if i < bytes.len() {
        lemma_number_prefix_le(bytes, i + 1);
        assert(bytes.take(i + 1).drop_last() =~= bytes.take(i));
        lemma_number_step(bytes.take(i + 1));
    } else {
        assert(bytes.take(i) =~= bytes);
    }
}

/// The number embedded in a file name: its decimal digits read in order,
/// wherever they stand, non-digits skipped. `foo123bar` carries 123.
pub fn number_ignoring_non_digits(s: &str) -> (r: u32)
    requires
        number_from_bytes(s.spec_bytes()) <= u32::MAX,
    ensures
        r == number_from_bytes(s.spec_bytes()),
{
    let bytes = s.as_bytes();
    let ghost all = s.spec_bytes();
    let mut value: u32 = 0;
    let mut i: usize = 0;
    while i < bytes.len()
        invariant
            i <= bytes@.len(),
            bytes@ == all,
            number_from_bytes(all) <= u32::MAX,
            value == number_from_bytes(all.take(i as int)),
        decreases bytes@.len() - i,
    {
        let b = bytes[i];
        proof {
            lemma_number_prefix_le(all, i + 1);
            assert(all.take(i + 1).drop_last() =~= all.take(i as int));
            assert(all.take(i + 1).last() == b);
        }
        if 48 <= b && b <= 57 {
            let digit = (b - 48) as u32;
            value = value * 10 + digit;
        }
        i = i + 1;
    }
    proof {
        assert(all.take(all.len() as int) =~= all);
    }
    value
}

/// The file-safe form of a name: its ASCII letters and digits in order,
/// each maximal run of other characters that stands between two kept
/// characters collapsed into a single space. `sep_pending` says whether
/// such a run is open.
pub open spec fn safe_bytes(bytes: Seq<u8>, sep_pending: bool) -> Seq<u8>
    decreases bytes.len(),
{
    if bytes.len() == 0 {
        Seq::empty()
    } else if is_alnum_byte(bytes[0]) {
        (if sep_pending {
            seq![32u8]
        } else {
            Seq::empty()
        }) + seq![bytes[0]] + safe_bytes(bytes.skip(1), false)
    } else {
        safe_bytes(bytes.skip(1), true)
    }
}

/// ASCII bytes reinterpreted as the characters they encode.
pub open spec fn chars_of_bytes(bytes: Seq<u8>) -> Seq<char> {
    Seq::new(bytes.len(), |i: int| bytes[i] as char)
}

/// Every byte a sanitized name holds is an ASCII letter, digit or space.
proof fn lemma_safe_bytes_ascii(bytes: Seq<u8>, sep_pending: bool)
    ensures
        forall|i: int|
            0 <= i < safe_bytes(bytes, sep_pending).len() ==> #[trigger] safe_bytes(
                bytes,
                sep_pending,
            )[i] < 128,
    decreases bytes.len(),
{
    if bytes.len() > 0 {
        lemma_safe_bytes_ascii(bytes.skip(1), false);
        lemma_safe_bytes_ascii(bytes.skip(1), true);
        if is_alnum_byte(bytes[0]) {
            let pre = if sep_pending {
                seq![32u8]
            } else {
                Seq::<u8>::empty()
            };
            let tail = safe_bytes(bytes.skip(1), false);
            let whole = pre + seq![bytes[0]] + tail;
            assert(safe_bytes(bytes, sep_pending) == whole);
            assert forall|i: int|
                0 <= i < safe_bytes(bytes, sep_pending).len() implies #[trigger] safe_bytes(
                bytes,
                sep_pending,
            )[i] < 128 by {
                assert(safe_bytes(bytes, sep_pending)[i] == whole[i]);
                if i < pre.len() {
                    assert(whole[i] == 32);
                } else if i == pre.len() {
                    assert(whole[i] == bytes[0]);
                } else {
                    assert(whole[i] == tail[i - pre.len() - 1]);
                }
            }
        } else {
            assert(safe_bytes(bytes, sep_pending) == safe_bytes(bytes.skip(1), true));
            assert forall|i: int|
                0 <= i < safe_bytes(bytes, sep_pending).len() implies #[trigger] safe_bytes(
                bytes,
                sep_pending,
            )[i] < 128 by {
                assert(safe_bytes(bytes, sep_pending)[i] == safe_bytes(bytes.skip(1), true)[i]);
            }
        }
    }
}

/// Flattens a level name for use inside an output file name: only ASCII
/// letters and digits survive, runs of anything else between them become
/// one space each.
pub fn file_safe_string(s: &str) -> (r: String)
    ensures
        r@ == chars_of_bytes(safe_bytes(s.spec_bytes(), false)),
{
    let bytes = s.as_bytes();
    let ghost all = s.spec_bytes();
    let mut out: Vec<u8> = Vec::new();
    let mut was_nonprintable = false;
    let mut i: usize = 0;
    proof {
        assert(all.skip(0) =~= all);
        assert(out@ + safe_bytes(all.skip(0), false) =~= safe_bytes(all, false));
    }
    while i < bytes.len()
        invariant
            i <= bytes@.len(),
            bytes@ == all,
            safe_bytes(all, false) == out@ + safe_bytes(all.skip(i as int), was_nonprintable),
            forall|j: int| 0 <= j < out@.len() ==> out@[j] < 128,
        decreases bytes@.len() - i,
    {
        let b = bytes[i];
        let ghost rest = all.skip(i as int);
        proof {
            assert(rest[0] == b);
            assert(rest.skip(1) =~= all.skip(i + 1));
        }
        let is_alnum = (48 <= b && b <= 57) || (65 <= b && b <= 90) || (97 <= b && b <= 122);
        if is_alnum {
            let ghost before = out@;
            if was_nonprintable {
                out.push(32);
            }
            out.push(b);
            was_nonprintable = false;
            proof {
                if safe_bytes(all, false) == before + safe_bytes(rest, true) {
                    assert(before + (seq![32u8] + seq![b] + safe_bytes(rest.skip(1), false))
                        =~= out@ + safe_bytes(all.skip(i + 1), false));
                } else {
                    assert(before + (seq![b] + safe_bytes(rest.skip(1), false)) =~= out@
                        + safe_bytes(all.skip(i + 1), false));
                }
            }
        } else {
            was_nonprintable = true;
            proof {
                assert(safe_bytes(rest, false) == safe_bytes(rest.skip(1), true));
                assert(safe_bytes(rest, true) == safe_bytes(rest.skip(1), true));
            }
        }
        i = i + 1;
    }
    proof {
        assert(all.skip(all.len() as int) =~= Seq::<u8>::empty());
        assert(safe_bytes(all, false) =~= out@);
    }
    ascii_string(out)
}

/// Relies on String::from_utf8: bytes below 128 are valid UTF-8 and decode
/// one character per byte.
#[verifier::external_body]
fn ascii_string(bytes: Vec<u8>) -> (r: String)
    requires
        forall|i: int| 0 <= i < bytes@.len() ==> bytes@[i] < 128,
    ensures
        r@ == chars_of_bytes(bytes@),
{
    match String::from_utf8(bytes) {
        Ok(s) => s,
        Err(_) => String::new(),
    }
}

} // verus!
