//! The decisions of probing a file over HTTP range requests. The requests
//! themselves are made by the caller, which hands over what came back.
use vstd::prelude::*;
use crate::error::{ErrorModel, InspectError};
use crate::header::{fault_message, fault_text, HeaderFault};
use crate::input::{optional_text, outcome_is, RemoteUrl};
use crate::layout::{le_u64, le_value, HEADER_PREFIX_LEN, MAX_HEADER_SIZE};
use crate::text::{
    after_last_slash, append_decimal, decimal, last_segment, parse_u64, parse_u64_text, push_char,
};

verus! {

/// The status of a response that carries a byte range.
pub const PARTIAL_CONTENT: u16 = 206;

/// The `Range` value that asks for the bytes from `start` to `end`, both included.
pub open spec fn range_value(start: nat, end: nat) -> Seq<char> {
    "bytes="@ + decimal(start) + "-"@ + decimal(end)
}

/// The `Range` header value for the bytes from `start` to `end`.
pub fn range_header(start: u64, end: u64) -> (value: String)
    ensures
        value@ == range_value(start as nat, end as nat),
{
    let mut value = String::new();
    value.append("bytes=");
    append_decimal(&mut value, start as u128);
    value.append("-");
    append_decimal(&mut value, end as u128);
    value
}

/// A ranged response must come back as partial content; any other status
/// means that the server ignores ranges.
pub fn check_partial_content(status: u16, url: &RemoteUrl) -> (res: Result<(), InspectError>)
    ensures
        status == PARTIAL_CONTENT ==> res is Ok,
        status != PARTIAL_CONTENT ==> (res matches Err(e) && e@ == ErrorModel::RangeUnsupported(url@.0)),
{
    if status != PARTIAL_CONTENT {
        return Err(InspectError::RangeUnsupported(url.as_str().to_owned()));
    }
    Ok(())
}

/// A byte that a header value may hold as text: visible ASCII or tab.
pub open spec fn visible_ascii(b: u8) -> bool {
    (32 <= b && b < 127) || b == 9
}

/// A header value as text, where all its bytes are visible ASCII
/// (`HeaderValue::to_str`).
pub open spec fn header_text(bytes: Seq<u8>) -> Option<Seq<char>> {
    if forall|i: int| 0 <= i < bytes.len() ==> visible_ascii(#[trigger] bytes[i]) {
        Some(bytes.map_values(|b: u8| b as char))
    } else {
        None
    }
}

/// Reads a header value as text.
pub fn header_value_text(bytes: &[u8]) -> (text: Option<String>)
    ensures
        optional_text(text) == header_text(bytes@),
{
    let mut out = String::new();
    let mut i: usize = 0;
    while i < bytes.len()
        invariant
            i <= bytes@.len(),
            forall|j: int| 0 <= j < i ==> visible_ascii(#[trigger] bytes@[j]),
            out@ =~= bytes@.take(i as int).map_values(|b: u8| b as char),
        decreases bytes@.len() - i,
    {
        let b = bytes[i];
        if !((32 <= b && b < 127) || b == 9) {
            return None;
        }
        push_char(&mut out, b as char);
        i = i + 1;
    }
    proof {
        assert(bytes@.take(bytes@.len() as int) =~= bytes@);
    }
    Some(out)
}

/// The total size that a `Content-Range` value gives after its last `/`, or
/// the reason it gives none.
pub open spec fn total_size_outcome(content_range: Seq<char>) -> Result<u64, Seq<char>> {
    match parse_u64_text(last_segment(content_range)) {
        Some(total) => Ok(total),
        None => Err("invalid total size in Content-Range header"@),
    }
}

/// Reads the total size of the file from a `Content-Range` value such as
/// `bytes 0-7/17246524772`: the decimal number after its last `/`.
pub fn parse_total_size_from_content_range(content_range: &str) -> (res: Result<u64, String>)
    ensures
        match total_size_outcome(content_range@) {
            Ok(total) => res == Ok::<u64, String>(total),
            Err(reason) => res matches Err(e) && e@ == reason,
        },
{
    let total = after_last_slash(content_range);
    match parse_u64(total) {
        Some(value) => Ok(value),
        None => Err("invalid total size in Content-Range header".to_owned()),
    }
}

/// The total size of the file that a response's `Content-Range` header gives,
/// by the header's bytes where it is present.
pub open spec fn content_range_outcome(header: Option<Seq<u8>>, url: Seq<char>) -> Result<
    u64,
    ErrorModel,
> {
    match header {
        None => Err(ErrorModel::InvalidRemoteResponse { url, reason: "missing Content-Range header"@ }),
        Some(bytes) => match header_text(bytes) {
            None => Err(
                ErrorModel::InvalidRemoteResponse { url, reason: "invalid Content-Range header"@ },
            ),
            Some(text) => match total_size_outcome(text) {
                Ok(total) => Ok(total),
                Err(reason) => Err(ErrorModel::InvalidRemoteResponse { url, reason }),
            },
        },
    }
}

/// Reads the total size of the file from a response's `Content-Range` header.
pub fn parse_total_size(content_range: Option<&[u8]>, url: &RemoteUrl) -> (res: Result<
    u64,
    InspectError,
>)
    ensures
        outcome_is(
            res,
            content_range_outcome(
                match content_range {
                    Some(b) => Some(b@),
                    None => None,
                },
                url@.0,
            ),
        ),
{
    let bytes = match content_range {
        Some(bytes) => bytes,
        None => {
            return Err(
                InspectError::InvalidRemoteResponse {
                    url: url.as_str().to_owned(),
                    reason: "missing Content-Range header".to_owned(),
                },
            );
        },
    };
    let text = match header_value_text(bytes) {
        Some(text) => text,
        None => {
            return Err(
                InspectError::InvalidRemoteResponse {
                    url: url.as_str().to_owned(),
                    reason: "invalid Content-Range header".to_owned(),
                },
            );
        },
    };
    match parse_total_size_from_content_range(text.as_str()) {
        Ok(total) => Ok(total),
        Err(reason) => Err(InspectError::InvalidRemoteResponse { url: url.as_str().to_owned(), reason }),
    }
}

/// The reason given for a body of `got` bytes where `expected` were asked for.
pub open spec fn length_mismatch(expected: nat, got: nat) -> Seq<char> {
    "expected "@ + decimal(expected) + " bytes, got "@ + decimal(got)
}

/// What reading a response body gives: the bytes where exactly the expected
/// number came, else an error with the reason.
pub open spec fn body_outcome(
    body: Result<Seq<u8>, Seq<char>>,
    expected_len: nat,
    url: Seq<char>,
) -> Result<Seq<u8>, ErrorModel> {
    match body {
        Err(reason) => Err(
            ErrorModel::InvalidRemoteResponse {
                url,
                reason: "failed reading response body ("@ + reason + ")"@,
            },
        ),
        Ok(bytes) => if bytes.len() != expected_len {
            Err(ErrorModel::InvalidRemoteResponse { url, reason: length_mismatch(expected_len, bytes.len()) })
        } else {
            Ok(bytes)
        },
    }
}

/// Checks what reading a response body gave: its bytes, or the display text
/// of the read error.
pub fn check_response_bytes(
    body: Result<Vec<u8>, String>,
    expected_len: usize,
    url: &RemoteUrl,
) -> (res: Result<Vec<u8>, InspectError>)
    ensures
        outcome_is(
            res,
            body_outcome(
                match body {
                    Ok(b) => Ok(b@),
                    Err(e) => Err(e@),
                },
                expected_len as nat,
                url@.0,
            ),
        ),
{
    match body {
        Err(reason) => {
            let mut text = String::new();
            text.append("failed reading response body (");
            text.append(reason.as_str());
            text.append(")");
            Err(InspectError::InvalidRemoteResponse { url: url.as_str().to_owned(), reason: text })
        },
        Ok(bytes) => {
            if bytes.len() != expected_len {
                let mut text = String::new();
                text.append("expected ");
                append_decimal(&mut text, expected_len as u128);
                text.append(" bytes, got ");
                append_decimal(&mut text, bytes.len() as u128);
                Err(InspectError::InvalidRemoteResponse { url: url.as_str().to_owned(), reason: text })
            } else {
                Ok(bytes)
            }
        },
    }
}

/// Reads the header length from the eight prefix bytes: the little-endian
/// number, where it fits in a `usize`.
pub fn decode_header_len(prefix: &[u8], url: &RemoteUrl) -> (res: Result<usize, InspectError>)
    requires
        prefix@.len() == 8,
    ensures
        le_value(prefix@) <= usize::MAX ==> res == Ok::<usize, InspectError>(le_value(prefix@) as usize),
        le_value(prefix@) > usize::MAX ==> (res matches Err(e) && e@ == (ErrorModel::InvalidSafetensors {
            path: url@.0,
            reason: fault_message(HeaderFault::TooLarge),
        })),
{
    let value = le_u64(prefix);
    if value <= usize::MAX as u64 {
        Ok(value as usize)
    } else {
        Err(
            InspectError::InvalidSafetensors {
                path: url.as_str().to_owned(),
                reason: fault_text(HeaderFault::TooLarge),
            },
        )
    }
}

/// The byte range of a header of `header_len` bytes, right after the prefix.
pub open spec fn header_range_outcome(header_len: nat, url: Seq<char>) -> Result<
    (u64, u64),
    ErrorModel,
> {
    if HEADER_PREFIX_LEN + header_len > u64::MAX || HEADER_PREFIX_LEN + header_len == 0 {
        Err(ErrorModel::InvalidRemoteResponse { url, reason: "invalid header range"@ })
    } else {
        Ok((HEADER_PREFIX_LEN, (HEADER_PREFIX_LEN + header_len - 1) as u64))
    }
}

/// The first and last byte of the header, for a ranged request.
pub fn header_bytes_range(header_len: usize, url: &RemoteUrl) -> (res: Result<
    (u64, u64),
    InspectError,
>)
    ensures
        outcome_is(res, header_range_outcome(header_len as nat, url@.0)),
{
    let start = HEADER_PREFIX_LEN;
    let past = match start.checked_add(header_len as u64) {
        Some(v) => v,
        None => {
            return Err(
                InspectError::InvalidRemoteResponse {
                    url: url.as_str().to_owned(),
                    reason: "invalid header range".to_owned(),
                },
            );
        },
    };
    match past.checked_sub(1) {
        Some(end) => Ok((start, end)),
        None => Err(
            InspectError::InvalidRemoteResponse {
                url: url.as_str().to_owned(),
                reason: "invalid header range".to_owned(),
            },
        ),
    }
}

/// A header longer than `MAX_HEADER_SIZE` is refused before it is fetched.
pub fn check_header_size(input: &str, header_len: usize) -> (res: Result<(), InspectError>)
    ensures
        header_len <= MAX_HEADER_SIZE ==> res is Ok,
        header_len > MAX_HEADER_SIZE ==> (res matches Err(e) && e@ == (ErrorModel::InvalidSafetensors {
            path: input@,
            reason: fault_message(HeaderFault::TooLarge),
        })),
{
    if header_len > MAX_HEADER_SIZE {
        return Err(
            InspectError::InvalidSafetensors {
                path: input.to_owned(),
                reason: fault_text(HeaderFault::TooLarge),
            },
        );
    }
    Ok(())
}

/// Whether prefix, header and data section make up a file of `file_size`
/// bytes; the fault where they do not.
pub open spec fn size_check(header_len: nat, data_len: nat, file_size: nat) -> Option<HeaderFault> {
    if HEADER_PREFIX_LEN + header_len + data_len > u64::MAX {
        Some(HeaderFault::ValidationOverflow)
    } else if HEADER_PREFIX_LEN + header_len + data_len != file_size {
        Some(HeaderFault::IncompleteBuffer)
    } else {
        None
    }
}

/// Checks that the prefix, a header of `header_len` bytes and a data section
/// of `data_len` bytes make up the whole remote file of `file_size` bytes.
pub fn check_remote_size(
    input: &str,
    header_len: usize,
    data_len: usize,
    file_size: u64,
) -> (res: Result<(), InspectError>)
    ensures
        match size_check(header_len as nat, data_len as nat, file_size as nat) {
            None => res is Ok,
            Some(fault) => res matches Err(e) && e@ == (ErrorModel::InvalidSafetensors {
                path: input@,
                reason: fault_message(fault),
            }),
        },
{
    let with_header = match HEADER_PREFIX_LEN.checked_add(header_len as u64) {
        Some(v) => v,
        None => {
            return Err(
                InspectError::InvalidSafetensors {
                    path: input.to_owned(),
                    reason: fault_text(HeaderFault::ValidationOverflow),
                },
            );
        },
    };
    let expected_size = match with_header.checked_add(data_len as u64) {
        Some(v) => v,
        None => {
            return Err(
                InspectError::InvalidSafetensors {
                    path: input.to_owned(),
                    reason: fault_text(HeaderFault::ValidationOverflow),
                },
            );
        },
    };
    if expected_size != file_size {
        return Err(
            InspectError::InvalidSafetensors {
                path: input.to_owned(),
                reason: fault_text(HeaderFault::IncompleteBuffer),
            },
        );
    }
    Ok(())
}

} // verus!
