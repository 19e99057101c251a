//! Reading the answer to the metadata probe: the status of the response and
//! the value of its content-length header.

use vstd::prelude::*;

use crate::error::DownloadError;
use crate::status::{
    is_client_error,
    is_server_error,
    status_is_client_error,
    status_is_server_error,
};

verus! {

/// What the probe found out about the resource.
#[derive(Clone, Copy, Debug, PartialEq, Eq, Structural)]
pub struct ResourceMetadata {
    pub total_size_bytes: i64,
}

/// The byte is an ASCII digit.
pub open spec fn is_digit(byte: u8) -> bool {
    48 <= byte <= 57
}

/// The number that the digit stands for; 0 for any other byte.
pub open spec fn digit_value(byte: u8) -> nat {
    if is_digit(byte) {
        (byte - 48) as nat
    } else {
        0
    }
}

/// The number that a run of digits stands for, most significant digit first.
pub open spec fn digits_value(digits: Seq<u8>) -> nat
    decreases digits.len(),
{
    if digits.len() == 0 {
        0
    } else {
        digits_value(digits.drop_last()) * 10 + digit_value(digits.last())
    }
}

/// The text without the plus sign that may lead it.
pub open spec fn unsigned_part(text: Seq<u8>) -> Seq<u8> {
    if text.len() > 0 && text[0] == 43 {
        text.subrange(1, text.len() as int)
    } else {
        text
    }
}

/// The text is a decimal number: one or more digits, after at most one
/// plus sign, and nothing else.
pub open spec fn is_decimal(text: Seq<u8>) -> bool {
    let digits = unsigned_part(text);
    digits.len() > 0 && forall|i: int| 0 <= i < digits.len() ==> is_digit(#[trigger] digits[i])
}

/// The length that a content-length header value states, where it is a
/// decimal number that fits the machine's signed 64 bits.
pub open spec fn content_length_of(text: Seq<u8>) -> Option<int> {
    if is_decimal(text) && digits_value(unsigned_part(text)) <= i64::MAX {
        Some(digits_value(unsigned_part(text)) as int)
    } else {
        None
    }
}

/// More digits never give a smaller number.
proof fn lemma_digits_value_prefix(digits: Seq<u8>, k: int)
    requires
        0 <= k <= digits.len(),
    ensures
        digits_value(digits.take(k)) <= digits_value(digits),
    decreases digits.len(),
{
    if k == digits.len() {
        assert(digits.take(k) =~= digits);
    } else {
        lemma_digits_value_prefix(digits.drop_last(), k);
        assert(digits.drop_last().take(k) =~= digits.take(k));
    }
}

/// Reads a content-length header value.
pub fn parse_content_length(text: &[u8]) -> (length: Option<i64>)
    ensures
        match content_length_of(text@) {
            Some(n) => length == Some(n as i64),
            None => length is None,
        },
        length matches Some(n) ==> n >= 0,
{
    let n = text.len();
    let start: usize = if n > 0 && text[0] == 43 {
        1
    } else {
        0
    };
    if start == n {
        return None;
    }
    let ghost digits = unsigned_part(text@);
    assert(digits =~= text@.subrange(start as int, n as int));
    let mut value: i64 = 0;
    let mut i: usize = start;
    assert(digits.take(0) =~= Seq::<u8>::empty());
    while i < n
        invariant
            n == text@.len(),
            start <= i <= n,
            start < n,
            digits == text@.subrange(start as int, n as int),
            digits == unsigned_part(text@),
            forall|k: int| 0 <= k < i - start ==> is_digit(#[trigger] digits[k]),
            0 <= value,
            value == digits_value(digits.take(i - start)),
        decreases n - i,
    {
        let byte = text[i];
        assert(byte == digits[i - start]);
        if byte < 48 || byte > 57 {
            return None;
        }
        let digit: i64 = (byte - 48) as i64;
        proof {
            let longer = digits.take(i - start + 1);
            assert(longer.drop_last() =~= digits.take(i - start));
            assert(longer.last() == byte);
            assert(digits_value(longer) == value * 10 + digit);
            lemma_digits_value_prefix(digits, i - start + 1);
        }
        if value > (i64::MAX - digit) / 10 {
            return None;
        }
        value = value * 10 + digit;
        i = i + 1;
    }
    assert(digits.take(n - start) =~= digits);
    Some(value)
}

/// What the answer to the probe means, status first: an error status rules
/// the download out whatever the headers say.
pub open spec fn probe_outcome(status: u16, content_length: Option<Seq<u8>>) -> Result<
    ResourceMetadata,
    DownloadError,
> {
    if is_client_error(status) || is_server_error(status) {
        Err(DownloadError::RemoteError(status))
    } else {
        match content_length {
            None => Err(DownloadError::MissingLengthError),
            Some(text) => match content_length_of(text) {
                None => Err(DownloadError::MalformedLengthError),
                Some(n) => Ok(ResourceMetadata { total_size_bytes: n as i64 }),
            },
        }
    }
}

/// The header value as plain bytes.
pub open spec fn header_bytes(content_length: Option<&[u8]>) -> Option<Seq<u8>> {
    match content_length {
        None => None,
        Some(text) => Some(text@),
    }
}

/// Reads the answer to the metadata probe: `status` is the status code of
/// the response and `content_length` the value of its content-length
/// header, where it has one.
pub fn interpret_probe(status: u16, content_length: Option<&[u8]>) -> (result: Result<
    ResourceMetadata,
    DownloadError,
>)
    ensures
        result == probe_outcome(status, header_bytes(content_length)),
        result matches Ok(metadata) ==> metadata.total_size_bytes >= 0,
{
    if status_is_client_error(status) || status_is_server_error(status) {
        return Err(DownloadError::RemoteError(status));
    }
    match content_length {
        None => Err(DownloadError::MissingLengthError),
        Some(text) => match parse_content_length(text) {
            None => Err(DownloadError::MalformedLengthError),
            Some(total_size_bytes) => Ok(ResourceMetadata { total_size_bytes }),
        },
    }
}

} // verus!
