use vstd::prelude::*;
use vstd::string::StrSliceExecFns;
use vstd::string::StringExecFns;

use crate::error::Error;
use crate::text::chars_of;

verus! {

/// The SHA-512 digest of a text's UTF-8 bytes.
pub uninterp spec fn sha512_of(text: Seq<char>) -> Seq<u8>;

/// The sixteen digits a digest is written with, by value.
pub open spec fn hex_digits() -> Seq<char> {
    "0123456789abcdef"@
}

/// A byte sequence written as lower-case hexadecimal, two digits per byte,
/// the high half first.
pub open spec fn hex_of(bytes: Seq<u8>) -> Seq<char> {
    Seq::new(
        2 * bytes.len(),
        |i: int|
            if i % 2 == 0 {
                hex_digits()[bytes[i / 2] as int / 16]
            } else {
                hex_digits()[bytes[i / 2] as int % 16]
            },
    )
}

/// The value of one hexadecimal digit of either case; `None` for any other
/// character.
pub open spec fn hex_value(c: char) -> Option<int> {
    if '0' <= c <= '9' {
        Some(c as int - '0' as int)
    } else if 'a' <= c <= 'f' {
        Some(c as int - 'a' as int + 10)
    } else if 'A' <= c <= 'F' {
        Some(c as int - 'A' as int + 10)
    } else {
        None
    }
}

/// Whether a text holds hexadecimal digits only.
pub open spec fn is_hex(s: Seq<char>) -> bool {
    forall|i: int| 0 <= i < s.len() ==> (#[trigger] hex_value(s[i])) is Some
}

/// The number a text of hexadecimal digits stands for, its first digit
/// weighing most.
pub open spec fn hex_number(s: Seq<char>) -> int
    decreases s.len(),
{
    if s.len() == 0 {
        0
    } else {
        16 * hex_number(s.drop_last()) + hex_value(s.last()).unwrap()
    }
}

/// What one chunk of a digest parses to: its number, where the chunk is
/// not empty, holds hexadecimal digits only and its number fits an `i64`.
pub open spec fn parse_chunk(s: Seq<char>) -> Option<i64> {
    if s.len() > 0 && is_hex(s) && hex_number(s) <= i64::MAX {
        Some(hex_number(s) as i64)
    } else {
        None
    }
}

/// The width of each of `chunks` equal chunks of a text of `len`
/// characters. What is left over after the last chunk is dropped.
pub open spec fn chunk_width(len: int, chunks: int) -> int {
    if chunks <= 0 {
        0
    } else {
        len / chunks
    }
}

/// The `i`-th of `chunks` equal chunks of a text, counted from its start.
pub open spec fn chunk_of(hash: Seq<char>, chunks: int, i: int) -> Seq<char> {
    let width = chunk_width(hash.len() as int, chunks);
    hash.subrange(i * width, (i + 1) * width)
}

/// Whether every one of `chunks` chunks of a text parses.
pub open spec fn all_chunks_parse(hash: Seq<char>, chunks: int) -> bool {
    forall|i: int| 0 <= i < chunks ==> (#[trigger] parse_chunk(chunk_of(hash, chunks, i))) is Some
}

/// The index array of a digest: the numbers of its chunks, in the order of
/// the chunks in the text.
pub open spec fn indices_of(hash: Seq<char>, chunks: int) -> Seq<i64> {
    Seq::new(chunks as nat, |i: int| parse_chunk(chunk_of(hash, chunks, i)).unwrap())
}

/// Whether a sequence can serve as an index array: none of its elements is
/// negative.
pub open spec fn is_index_array(indices: Seq<i64>) -> bool {
    forall|i: int| 0 <= i < indices.len() ==> #[trigger] indices[i] >= 0
}

/// Calls `sha2::Sha512::digest` on the UTF-8 bytes of `text`. The contract
/// names the digest and claims its length: SHA-512 yields 64 bytes.
#[verifier::external_body]
fn sha512(text: &str) -> (digest: Vec<u8>)
    ensures
        digest@ == sha512_of(text@),
        digest@.len() == 64,
{
    <sha2::Sha512 as sha2::Digest>::digest(text.as_bytes()).to_vec()
}

/// One hexadecimal digit as a text of its own.
fn hex_digit(value: u8) -> (digit: &'static str)
    requires
        value < 16,
    ensures
        digit@ == seq![hex_digits()[value as int]],
{
    proof {
        reveal_strlit("0123456789abcdef");
    }
    let digits = "0123456789abcdef";
    let digit = digits.substring_ascii(value as usize, value as usize + 1);
    assert(digit@ =~= seq![hex_digits()[value as int]]);
    digit
}

/// Writes bytes as lower-case hexadecimal.
pub fn to_hex(bytes: &Vec<u8>) -> (text: String)
    ensures
        text@ == hex_of(bytes@),
{
    let mut text = String::new();
    let mut i: usize = 0;
    while i < bytes.len()
        invariant
            i <= bytes.len(),
            text@ == hex_of(bytes@.take(i as int)),
        decreases bytes.len() - i,
    {
        let byte = bytes[i];
        text.append(hex_digit(byte / 16));
        text.append(hex_digit(byte % 16));
        i += 1;
        assert(text@ =~= hex_of(bytes@.take(i as int)));
    }
    assert(bytes@.take(i as int) =~= bytes@);
    text
}

/// The digest of a text: its SHA-512 hash as 128 lower-case hexadecimal
/// digits.
pub fn sha512_digest(text: &str) -> (digest: String)
    ensures
        digest@ == hex_of(sha512_of(text@)),
        digest@.len() == 128,
{
    let bytes = sha512(text);
    to_hex(&bytes)
}

/// The power of sixteen that bounds the numbers of `digits` digits.
pub open spec fn sixteen_to(digits: nat) -> int
    decreases digits,
{
    if digits == 0 {
        1
    } else {
        16 * sixteen_to((digits - 1) as nat)
    }
}

/// A text of hexadecimal digits stands for a number that is not negative
/// and lies below sixteen to the number of its digits.
pub proof fn hex_number_is_bounded(s: Seq<char>)
    requires
        is_hex(s),
    ensures
        0 <= hex_number(s) < sixteen_to(s.len()),
    decreases s.len(),
{
    if s.len() > 0 {
        let front = s.drop_last();
        assert forall|i: int| 0 <= i < front.len() implies (#[trigger] hex_value(front[i])) is Some by {
            assert(front[i] == s[i]);
        }
        hex_number_is_bounded(front);
        assert(hex_value(s[s.len() - 1]) is Some);
    }
}

/// The number of a text of hexadecimal digits is at least the number of
/// each of its prefixes.
proof fn hex_number_grows(s: Seq<char>, k: int)
    requires
        is_hex(s),
        0 <= k <= s.len(),
    ensures
        is_hex(s.take(k)),
        0 <= hex_number(s.take(k)) <= hex_number(s),
    decreases s.len() - k,
{
    assert forall|i: int| 0 <= i < k implies (#[trigger] hex_value(s.take(k)[i])) is Some by {
        assert(s.take(k)[i] == s[i]);
    }
    hex_number_is_bounded(s.take(k));
    if k < s.len() {
        hex_number_grows(s, k + 1);
        assert(s.take(k + 1).drop_last() =~= s.take(k));
        assert(hex_value(s[k]) is Some);
        assert(s.take(k + 1).last() == s[k]);
    } else {
        assert(s.take(k) =~= s);
    }
}

/// The value of one character as a hexadecimal digit.
fn digit_value(c: char) -> (value: Option<u8>)
    ensures
        match value {
            Some(d) => hex_value(c) == Some(d as int) && d < 16,
            None => hex_value(c) is None,
        },
{
    if '0' <= c && c <= '9' {
        Some((c as u32 - '0' as u32) as u8)
    } else if 'a' <= c && c <= 'f' {
        Some((c as u32 - 'a' as u32 + 10) as u8)
    } else if 'A' <= c && c <= 'F' {
        Some((c as u32 - 'A' as u32 + 10) as u8)
    } else {
        None
    }
}

/// Parses the characters from `from` up to `to` as one chunk.
pub fn parse_hex(digits: &Vec<char>, from: usize, to: usize) -> (value: Option<i64>)
    requires
        from <= to <= digits.len(),
    ensures
        value == parse_chunk(digits@.subrange(from as int, to as int)),
{
    let ghost chunk = digits@.subrange(from as int, to as int);
    if from == to {
        return None;
    }
    let mut value: i64 = 0;
    let mut i: usize = from;
    while i < to
        invariant
            from <= i <= to <= digits.len(),
            chunk == digits@.subrange(from as int, to as int),
            is_hex(chunk.take(i - from)),
            value == hex_number(chunk.take(i - from)),
            0 <= value,
        decreases to - i,
    {
        let ghost seen = chunk.take(i - from);
        let ghost next = chunk.take(i - from + 1);
        proof {
            assert(next.drop_last() =~= seen);
            assert(next.last() == chunk[i - from]);
            assert(chunk[i - from] == digits@[i as int]);
        }
        match digit_value(digits[i]) {
            None => {
                assert(hex_value(chunk[i - from]) is None);
                return None;
            },
            Some(d) => {
                assert forall|k: int| 0 <= k < next.len() implies (#[trigger] hex_value(next[k])) is Some by {
                    if k < seen.len() {
                        assert(next[k] == seen[k]);
                    }
                }
                if value > (i64::MAX - d as i64) / 16 {
                    proof {
                        if is_hex(chunk) {
                            hex_number_grows(chunk, i - from + 1);
                        }
                    }
                    return None;
                }
                value = value * 16 + d as i64;
            },
        }
        i += 1;
    }
    assert(chunk.take(i - from) =~= chunk);
    Some(value)
}

/// Splits a digest into `chunks` chunks of equal width and parses each as a
/// hexadecimal number. Fails where a chunk is empty, holds another
/// character than a hexadecimal digit, or stands for a number beyond
/// `i64::MAX`.
pub fn split_hash(hash: &str, chunks: usize) -> (indices: Result<Vec<i64>, Error>)
    ensures
        match indices {
            Ok(list) => {
                &&& all_chunks_parse(hash@, chunks as int)
                &&& list@ == indices_of(hash@, chunks as int)
                &&& is_index_array(list@)
            },
            Err(error) => !all_chunks_parse(hash@, chunks as int) && error == Error::ParseIntError,
        },
{
    let digits = chars_of(hash);
    let mut list: Vec<i64> = Vec::new();
    if chunks == 0 {
        assert(list@ =~= indices_of(hash@, 0));
        return Ok(list);
    }
    let width = digits.len() / chunks;
    let mut i: usize = 0;
    let mut start: usize = 0;
    while i < chunks
        invariant
            0 < chunks,
            i <= chunks,
            digits@ == hash@,
            width == chunk_width(hash@.len() as int, chunks as int),
            start == i * width,
            list@ == indices_of(hash@, chunks as int).take(i as int),
            is_index_array(list@),
            forall|j: int|
                0 <= j < i ==> (#[trigger] parse_chunk(chunk_of(hash@, chunks as int, j))) is Some,
        decreases chunks - i,
    {
        assert((i + 1) * width <= digits.len()) by (nonlinear_arith)
            requires
                i < chunks,
                width == digits.len() / chunks,
                0 < chunks,
        ;
        assert((i + 1) * width == start + width) by (nonlinear_arith)
            requires
                start == i * width,
        ;
        let end = start + width;
        match parse_hex(&digits, start, end) {
            None => {
                assert(parse_chunk(chunk_of(hash@, chunks as int, i as int)) is None);
                return Err(Error::ParseIntError);
            },
            Some(value) => {
                proof {
                    let chunk = chunk_of(hash@, chunks as int, i as int);
                    hex_number_is_bounded(chunk);
                }
                list.push(value);
            },
        }
        i += 1;
        start = end;
        assert(list@ =~= indices_of(hash@, chunks as int).take(i as int));
    }
    assert(list@ =~= indices_of(hash@, chunks as int));
    Ok(list)
}

/// Every character of a text written by `hex_of` is a hexadecimal digit.
pub proof fn hex_of_is_hex(bytes: Seq<u8>)
    ensures
        is_hex(hex_of(bytes)),
        hex_of(bytes).len() == 2 * bytes.len(),
{
    reveal_strlit("0123456789abcdef");
    assert forall|i: int| 0 <= i < hex_of(bytes).len() implies (#[trigger] hex_value(
        hex_of(bytes)[i],
    )) is Some by {
        let byte = bytes[i / 2] as int;
        assert(0 <= byte / 16 < 16 && 0 <= byte % 16 < 16);
    }
}

/// Sixteen to a number of digits grows with that number.
proof fn sixteen_to_grows(a: nat, b: nat)
    requires
        a <= b,
    ensures
        0 < sixteen_to(a) <= sixteen_to(b),
    decreases b,
{
    if a < b {
        sixteen_to_grows(a, (b - 1) as nat);
    } else if a > 0 {
        sixteen_to_grows((a - 1) as nat, (a - 1) as nat);
    }
}

/// Chunks of one to fifteen hexadecimal digits always parse: such a chunk
/// is not empty and its number fits an `i64`.
pub proof fn hex_chunks_parse(hash: Seq<char>, chunks: int)
    requires
        is_hex(hash),
        0 < chunk_width(hash.len() as int, chunks) <= 15,
    ensures
        all_chunks_parse(hash, chunks),
        forall|i: int|
            0 <= i < chunks ==> parse_chunk(#[trigger] chunk_of(hash, chunks, i)) == Some(
                hex_number(chunk_of(hash, chunks, i)) as i64,
            ),
{
    let width = chunk_width(hash.len() as int, chunks);
    assert forall|i: int| 0 <= i < chunks implies parse_chunk(
        #[trigger] chunk_of(hash, chunks, i),
    ) == Some(hex_number(chunk_of(hash, chunks, i)) as i64) by {
        let chunk = chunk_of(hash, chunks, i);
        let from = i * width;
        let to = (i + 1) * width;
        assert(0 <= from && to == from + width && to <= hash.len()) by (nonlinear_arith)
            requires
                0 <= i < chunks,
                width == hash.len() as int / chunks,
                0 < width,
                from == i * width,
                to == (i + 1) * width,
        ;
        assert(chunk == hash.subrange(from, to));
        assert forall|k: int| 0 <= k < chunk.len() implies (#[trigger] hex_value(chunk[k])) is Some by {
            assert(chunk[k] == hash[from + k]);
        }
        hex_number_is_bounded(chunk);
        sixteen_to_grows(chunk.len(), 15);
        assert(sixteen_to(15) == 1152921504606846976) by {
            reveal_with_fuel(sixteen_to, 16);
        }
    }
}

/// A digest of 128 hexadecimal digits cut into eleven chunks gives eleven
/// indices, each the number of the eleven digits of its chunk; the last
/// seven digits are dropped.
pub proof fn index_array_of_a_digest(hash: Seq<char>)
    requires
        hash.len() == 128,
        is_hex(hash),
    ensures
        all_chunks_parse(hash, 11),
        indices_of(hash, 11).len() == 11,
        is_index_array(indices_of(hash, 11)),
        forall|i: int|
            0 <= i < 11 ==> {
                &&& #[trigger] chunk_of(hash, 11, i) == hash.subrange(11 * i, 11 * i + 11)
                &&& indices_of(hash, 11)[i] == hex_number(chunk_of(hash, 11, i))
            },
{
    hex_chunks_parse(hash, 11);
    assert forall|i: int| 0 <= i < 11 implies {
        &&& #[trigger] chunk_of(hash, 11, i) == hash.subrange(11 * i, 11 * i + 11)
        &&& indices_of(hash, 11)[i] == hex_number(chunk_of(hash, 11, i))
    } by {
        let chunk = chunk_of(hash, 11, i);
        let width = chunk_width(128, 11);
        assert(i * width == 11 * i && (i + 1) * width == 11 * i + 11) by (nonlinear_arith)
            requires
                width == 11,
        ;
        assert(chunk == hash.subrange(11 * i, 11 * i + 11));
        assert(parse_chunk(chunk) is Some);
        assert forall|k: int| 0 <= k < chunk.len() implies (#[trigger] hex_value(chunk[k])) is Some by {
            assert(chunk[k] == hash[11 * i + k]);
        }
        hex_number_is_bounded(chunk);
    }
    assert forall|i: int| 0 <= i < 11 implies #[trigger] indices_of(hash, 11)[i] >= 0 by {
        hex_number_is_bounded(chunk_of(hash, 11, i));
    }
}

} // verus!
