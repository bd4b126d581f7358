//! How far a download has come, and where it goes on.
//!
//! A partial file is given its full length up front, so its size does not tell how much of it was
//! fetched. The count of contiguous bytes that a sidecar file records does.

use vstd::prelude::*;
use vstd::utf8::{
    decode_utf8, encode_utf8, encode_utf8_decode_utf8, encode_utf8_valid_utf8, valid_utf8,
};

use crate::text::{
    concat2, decimal, is_digit, lemma_decimal_is_read_back, lemma_decimal_value,
    lemma_only_digits_are_numbers, lemma_trimmed, parse_u64, trim_text, trimmed, u64_of, u64_text,
    white_space,
};

verus! {

/// The size of the pieces that a file is fetched in.
pub const DOWNLOAD_CHUNK_SIZE: u64 = 0x8_0000;

/// How many milliseconds pass between two reports of a download's progress.
pub const PROGRESS_REPORT_MILLIS: u64 = 2000;

/// What `String::from_utf8_lossy` makes of some bytes.
pub uninterp spec fn utf8_lossy(bytes: Seq<u8>) -> Seq<char>;

/// `String::from_utf8_lossy`: the text that the bytes encode, where they are valid UTF-8; of
/// other bytes the result is named `utf8_lossy`.
#[verifier::external_body]
fn lossy_text(bytes: &Vec<u8>) -> (r: String)
    ensures
        valid_utf8(bytes@) ==> r@ == decode_utf8(bytes@),
        !valid_utf8(bytes@) ==> r@ == utf8_lossy(bytes@),
{
    String::from_utf8_lossy(bytes).into_owned()
}

/// The text that bytes stand for; what is not valid UTF-8 in them is replaced.
pub open spec fn text_of_bytes(bytes: Seq<u8>) -> Seq<char> {
    if valid_utf8(bytes) {
        decode_utf8(bytes)
    } else {
        utf8_lossy(bytes)
    }
}

/// The path of the sidecar that records how many contiguous bytes of a partial file were fetched.
pub fn progress_path(temp_path: &str) -> (r: String)
    ensures
        r@ == temp_path@ + ".progress"@,
{
    concat2(temp_path, ".progress")
}

/// The count that a sidecar records: zero where there is no sidecar, or where it holds no number.
pub open spec fn recorded(sidecar: Option<Seq<u8>>) -> u64 {
    match sidecar {
        Some(bytes) => match u64_of(trimmed(text_of_bytes(bytes))) {
            Some(n) => n,
            None => 0,
        },
        None => 0,
    }
}

/// The bytes of a file, where there is one.
pub open spec fn file_bytes(file: Option<Vec<u8>>) -> Option<Seq<u8>> {
    match file {
        Some(bytes) => Some(bytes@),
        None => None,
    }
}

/// The number that the text of a sidecar denotes, or zero.
pub fn progress_in_text(text: &str) -> (r: u64)
    ensures
        r == match u64_of(trimmed(text@)) {
            Some(n) => n,
            None => 0,
        },
{
    match parse_u64(trim_text(text).as_str()) {
        Some(n) => n,
        None => 0,
    }
}

/// Reads the count of contiguous bytes from a sidecar; `None` stands for one that cannot be read.
pub fn read_progress(sidecar: &Option<Vec<u8>>) -> (r: u64)
    ensures
        r == recorded(file_bytes(*sidecar)),
{
    match sidecar {
        Some(bytes) => progress_in_text(lossy_text(bytes).as_str()),
        None => 0,
    }
}

/// What a sidecar holds to record `n` contiguous bytes.
pub fn write_progress(n: u64) -> (r: Vec<u8>)
    ensures
        r@ == encode_utf8(decimal(n as nat)),
{
    u64_text(n).as_str().as_bytes_vec()
}

/// The position from which a download goes on, given the length of the partial file (`None`
/// where there is none), the recorded count and the size of the whole.
pub open spec fn resume_at(len: Option<u64>, valid: u64, total: u64) -> int {
    match len {
        None => 0,
        Some(n) => if total > 0 && valid >= total {
            total as int
        } else {
            let aligned = valid - valid % DOWNLOAD_CHUNK_SIZE;
            if aligned <= n {
                aligned
            } else {
                n as int
            }
        },
    }
}

/// Where a download goes on, and what becomes of its sidecar.
#[derive(Debug, Clone, Copy, PartialEq, Eq, Structural)]
pub struct Resume {
    /// The position of the first byte to fetch.
    pub offset: u64,
    /// Whether the sidecar belongs to no file and is to be removed.
    pub stale: bool,
}

/// The position from which a download goes on: the whole size where the sidecar marks the file as
/// complete, the last recorded chunk boundary where it is partial, and zero where there is no
/// partial file; a sidecar is stale then. The position never lies behind the end of the file.
pub fn resume_offset(len: Option<u64>, sidecar: &Option<Vec<u8>>, total: u64) -> (r: Resume)
    ensures
        r.offset == resume_at(len, recorded(file_bytes(*sidecar)), total),
        r.stale == (len is None),
{
    match len {
        None => Resume { offset: 0, stale: true },
        Some(n) => {
            let valid = read_progress(sidecar);
            if total > 0 && valid >= total {
                return Resume { offset: total, stale: false };
            }
            let aligned: u64 = valid - valid % DOWNLOAD_CHUNK_SIZE;
            Resume { offset: if aligned <= n { aligned } else { n }, stale: false }
        },
    }
}

/// A recorded count is read back as it was written.
pub proof fn lemma_progress_is_read_back(n: u64)
    ensures
        recorded(Some(encode_utf8(decimal(n as nat)))) == n,
{
    let digits = decimal(n as nat);
    encode_utf8_valid_utf8(digits);
    encode_utf8_decode_utf8(digits);
    lemma_decimal_value(n as nat);
    lemma_decimal_is_read_back(n);
    assert(is_digit(digits[0]) && is_digit(digits.last()));
    assert(trimmed(digits) =~= digits);
}

/// A download that recorded how far it came, and whose partial file is that long, goes on at the
/// last chunk boundary before that point, or is complete.
pub proof fn lemma_resume_after_record(len: u64, n: u64, total: u64)
    requires
        n <= len,
    ensures
        ({
            let at = resume_at(Some(len), recorded(Some(encode_utf8(decimal(n as nat)))), total);
            if total > 0 && n >= total {
                at == total
            } else {
                at % DOWNLOAD_CHUNK_SIZE as int == 0 && at <= n < at + DOWNLOAD_CHUNK_SIZE
            }
        }),
{
    lemma_progress_is_read_back(n);
}

/// A download never goes on behind what was recorded, nor behind the end of the partial file,
/// unless the record marks it as complete.
pub proof fn lemma_resume_skips_nothing(len: Option<u64>, valid: u64, total: u64)
    ensures
        ({
            let at = resume_at(len, valid, total);
            &&& 0 <= at
            &&& at == total || match len {
                Some(n) => at <= n && at <= valid,
                None => at == 0,
            }
        }),
{
}

/// Where a download goes on: at the start without a partial file, at the end where the record says
/// that it is complete, and else at the last multiple of 512 KiB within what is recorded, as far as
/// the partial file reaches.
pub proof fn lemma_resume_positions(len: u64, valid: u64, total: u64, k: int)
    requires
        0 <= k * 0x8_0000 <= valid < (k + 1) * 0x8_0000,
    ensures
        resume_at(None, valid, total) == 0,
        total > 0 && valid >= total ==> resume_at(Some(len), valid, total) == total,
        (total == 0 || valid < total) && k * 0x8_0000 <= len ==> resume_at(Some(len), valid, total)
            == k * 0x8_0000,
        (total == 0 || valid < total) && k * 0x8_0000 > len ==> resume_at(Some(len), valid, total)
            == len,
{
    assert(valid as int / 0x8_0000 == k);
}

/// The answer to where a download goes on lies at what the sidecar records; without a partial file
/// a sidecar is stale, and only then.
pub proof fn lemma_resume_offset(len: Option<u64>, sidecar: &Option<Vec<u8>>, total: u64, r: Resume)
    requires
        call_ensures(resume_offset, (len, sidecar, total), r),
    ensures
        r.stale <==> len is None,
        len is None ==> r.offset == 0,
        sidecar is None && (len is Some) ==> r.offset == 0,
        match (len, *sidecar) {
            (Some(n), Some(bytes)) => forall|m: u64|
                bytes@ == #[trigger] encode_utf8(decimal(m as nat)) ==> if total > 0 && m >= total {
                    r.offset == total
                } else {
                    r.offset <= m && r.offset <= n && (r.offset == n || m < r.offset + 0x8_0000)
                },
            _ => true,
        },
{
    if let (Some(n), Some(bytes)) = (len, *sidecar) {
        assert forall|m: u64|
            bytes@ == #[trigger] encode_utf8(decimal(m as nat)) implies if total > 0 && m >= total {
            r.offset == total
        } else {
            r.offset <= m && r.offset <= n && (r.offset == n || m < r.offset + 0x8_0000)
        } by {
            lemma_progress_is_read_back(m);
        }
    }
}

/// What is recorded and read back through the two functions is the count that was recorded.
pub proof fn lemma_write_then_read(n: u64, bytes: Vec<u8>, r: u64)
    requires
        call_ensures(write_progress, (n,), bytes),
        call_ensures(read_progress, (&Some(bytes),), r),
    ensures
        r == n,
{
    lemma_progress_is_read_back(n);
}

/// The sidecar of a partial file lies beside it, under its name with `.progress` behind.
pub proof fn lemma_sidecar_lies_beside(temp_path: &str, r: String)
    requires
        call_ensures(progress_path, (temp_path,), r),
    ensures
        r@ == temp_path@ + ".progress"@,
        r@ != temp_path@,
{
    reveal_strlit(".progress");
}

/// A record that is no number counts as none, and so does no record at all; white space around the
/// number does not matter.
pub proof fn lemma_records_are_read(n: u64, text: Seq<char>, i: int)
    ensures
        recorded(None) == 0,
        recorded(Some(encode_utf8(decimal(n as nat) + "\n"@))) == n,
        0 <= i < trimmed(text).len() && !('0' <= trimmed(text)[i] && trimmed(text)[i] <= '9') && (i
            > 0 || trimmed(text)[i] != '+') ==> recorded(Some(encode_utf8(text))) == 0,
        PROGRESS_REPORT_MILLIS == 2 * 1000,
{
    let digits = decimal(n as nat);
    let line = digits + "\n"@;
    reveal_strlit("\n");
    encode_utf8_valid_utf8(line);
    encode_utf8_decode_utf8(line);
    encode_utf8_valid_utf8(text);
    encode_utf8_decode_utf8(text);
    lemma_decimal_value(n as nat);
    lemma_decimal_is_read_back(n);
    lemma_trimmed(line);
    let (a, b) = choose|a: int, b: int|
        #![trigger line.subrange(a, b)]
        {
            &&& 0 <= a <= b <= line.len()
            &&& trimmed(line) == line.subrange(a, b)
            &&& forall|k: int| 0 <= k < a || b <= k < line.len() ==> white_space(#[trigger] line[k])
        };
    let d = digits.len() as int;
    assert(line[0] == digits[0] && is_digit(digits[0]));
    assert(line[d - 1] == digits[d - 1] && is_digit(digits[d - 1]));
    assert(line[d] == '\n');
    assert(a == 0);
    assert(b >= d);
    assert(b == d) by {
        if b == d + 1 {
            assert(trimmed(line).last() == '\n');
        }
    }
    assert(trimmed(line) =~= digits);
    if 0 <= i < trimmed(text).len() && !('0' <= trimmed(text)[i] && trimmed(text)[i] <= '9') && (i
        > 0 || trimmed(text)[i] != '+') {
        lemma_only_digits_are_numbers(trimmed(text), i);
    }
}

} // verus!
