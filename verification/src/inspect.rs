//! Inspecting a safetensors file: from the bytes of a whole local file, or
//! from the header of a remote one.
use vstd::prelude::*;
use safetensors::tensor::Metadata;
use crate::error::{ErrorModel, InspectError};
use vstd::utf8::valid_utf8;
use crate::header::{
    data_end, data_len, describes, entry_record, fault_message, fault_text, header_bytes,
    header_entries, header_json_accepts, header_well_formed, is_json_fault_text,
    is_metadata_fault_text, is_utf8, is_utf8_fault_text, metadata_strings, metadata_tensors,
    parse_header_json, prefix_fault, prefix_len, read_metadata, tensor_index, HeaderFault,
    TensorRecord,
};
use crate::layout::{le_u64, le_value, HEADER_PREFIX_LEN, MAX_HEADER_SIZE};
use crate::remote::{check_remote_size, size_check};
use crate::report::{build_report, is_report, tensor_names, tensor_pass, Report};

verus! {

/// What `build_report` gives for a header: the report on its tensors, or the
/// first error.
pub open spec fn report_outcome(
    res: Result<Report, InspectError>,
    input: Seq<char>,
    file_size: u64,
    m: Metadata,
) -> bool {
    match tensor_pass(tensor_names(metadata_tensors(m)), metadata_tensors(m)) {
        Err(e) => res matches Err(err) && err@ == e,
        Ok((summaries, params, bytes)) => res matches Ok(r) && is_report(
            r@,
            input,
            file_size,
            summaries,
            params,
            bytes,
            metadata_strings(m),
        ),
    }
}

/// A name that no tensor has is found nowhere.
proof fn lemma_tensor_index_absent(ts: Seq<TensorRecord>, name: Seq<char>)
    requires
        forall|i: int| 0 <= i < ts.len() ==> (#[trigger] ts[i]).0 != name,
    ensures
        tensor_index(ts, name) is None,
    decreases ts.len(),
{
    if ts.len() > 0 {
        lemma_tensor_index_absent(ts.drop_last(), name);
    }
}

/// Where names are distinct, each tensor is found by its own name.
proof fn lemma_tensor_index_own(ts: Seq<TensorRecord>, k: int)
    requires
        0 <= k < ts.len(),
        forall|i: int, j: int|
            0 <= i < ts.len() && 0 <= j < ts.len() && i != j ==> (#[trigger] ts[i]).0 != (#[trigger] ts[j]).0,
    ensures
        tensor_index(ts, ts[k].0) == Some(k),
    decreases ts.len(),
{
    let rest = ts.drop_last();
    if k < ts.len() - 1 {
        assert(rest[k] == ts[k]);
        lemma_tensor_index_own(rest, k);
    } else {
        assert forall|i: int| 0 <= i < rest.len() implies (#[trigger] rest[i]).0 != ts[k].0 by {
            assert(rest[i] == ts[i]);
        }
        lemma_tensor_index_absent(rest, ts[k].0);
    }
}

/// Over a well-formed header, the tensors summarized so far cover the data
/// section up to the end of the last of them.
proof fn lemma_pass_bytes_prefix(ts: Seq<TensorRecord>, k: int)
    requires
        header_well_formed(ts),
        0 <= k <= ts.len(),
    ensures
        tensor_pass(tensor_names(ts).take(k), ts) matches Ok((summaries, params, bytes)) ==> {
            &&& bytes == if k == 0 {
                0
            } else {
                ts[k - 1].4 as nat
            }
            &&& summaries.len() == k
        },
    decreases k,
{
    if k > 0 {
        let names = tensor_names(ts);
        assert(names.take(k).drop_last() =~= names.take(k - 1));
        lemma_pass_bytes_prefix(ts, k - 1);
        lemma_tensor_index_own(ts, k - 1);
        assert(names.take(k).last() == ts[k - 1].0);
    }
}

/// For a well-formed header, a report counts every tensor, and its tensor
/// bytes are exactly the data section.
pub proof fn lemma_report_covers_data(ts: Seq<TensorRecord>)
    requires
        header_well_formed(ts),
    ensures
        tensor_pass(tensor_names(ts), ts) matches Ok((summaries, params, bytes)) ==> bytes
            == data_end(ts) && summaries.len() == ts.len(),
{
    lemma_pass_bytes_prefix(ts, ts.len() as int);
    assert(tensor_names(ts).take(ts.len() as int) =~= tensor_names(ts));
}

/// Over a well-formed header every tensor's information is found, so that the
/// only error a report can meet is an overflow.
pub proof fn lemma_pass_never_missing(ts: Seq<TensorRecord>)
    requires
        header_well_formed(ts),
    ensures
        tensor_pass(tensor_names(ts), ts) matches Err(e) ==> e is Overflow,
{
    lemma_pass_never_missing_prefix(ts, ts.len() as int);
    assert(tensor_names(ts).take(ts.len() as int) =~= tensor_names(ts));
}

proof fn lemma_pass_never_missing_prefix(ts: Seq<TensorRecord>, k: int)
    requires
        header_well_formed(ts),
        0 <= k <= ts.len(),
    ensures
        tensor_pass(tensor_names(ts).take(k), ts) matches Err(e) ==> e is Overflow,
    decreases k,
{
    if k > 0 {
        let names = tensor_names(ts);
        assert(names.take(k).drop_last() =~= names.take(k - 1));
        lemma_pass_never_missing_prefix(ts, k - 1);
        lemma_tensor_index_own(ts, k - 1);
        assert(names.take(k).last() == ts[k - 1].0);
    }
}

/// What the tensors of a parsed header `m`, of `header_len` bytes, give where
/// prefix, header and data section must make up `total_len` bytes: the fault
/// in the sizes, or else the report on a file of `file_size` bytes.
pub open spec fn parsed_outcome(
    res: Result<Report, InspectError>,
    input: Seq<char>,
    file_size: u64,
    header_len: nat,
    total_len: nat,
    m: Metadata,
) -> bool {
    match size_check(header_len, data_end(metadata_tensors(m)), total_len) {
        Some(fault) => res matches Err(e) && e@ == (ErrorModel::InvalidSafetensors {
            path: input,
            reason: fault_message(fault),
        }),
        None => report_outcome(res, input, file_size, m),
    }
}

/// What inspecting a file from its header bytes `header`, of `header_len`
/// bytes, gives: where the header is no valid JSON header, an error that says
/// so; otherwise what the tensors it describes give. Where two tensors share
/// their offsets, the header leaves their order open, and so does this.
pub open spec fn header_outcome(
    res: Result<Report, InspectError>,
    input: Seq<char>,
    file_size: u64,
    header_len: nat,
    total_len: nat,
    header: Seq<u8>,
) -> bool {
    if !header_json_accepts(header) {
        res matches Err(e) && e@ matches ErrorModel::InvalidSafetensors { path, reason } && path
            == input && is_json_fault_text(reason)
    } else {
        exists|m: Metadata|
            #[trigger] describes(m, header) && header_well_formed(metadata_tensors(m)) && parsed_outcome(
                res,
                input,
                file_size,
                header_len,
                total_len,
                m,
            )
    }
}

/// The error that reports a header fault in the file named `input`.
pub open spec fn fault_error(input: Seq<char>, fault: HeaderFault) -> ErrorModel {
    ErrorModel::InvalidSafetensors { path: input, reason: fault_message(fault) }
}

/// Where prefix, header of `header_len` bytes and a data section of
/// `data_len` bytes do not make up a whole file of `total_len` bytes: their sum
/// passes `usize::MAX`, or is not the file's length.
pub open spec fn local_size_check(header_len: nat, data_len: nat, total_len: nat) -> Option<
    HeaderFault,
> {
    if HEADER_PREFIX_LEN + header_len + data_len > usize::MAX {
        Some(HeaderFault::ValidationOverflow)
    } else if HEADER_PREFIX_LEN + header_len + data_len != total_len {
        Some(HeaderFault::IncompleteBuffer)
    } else {
        None
    }
}

/// What inspecting a whole local file `buffer` gives, as the safetensors
/// crate reads it: the fault of its length prefix; an error where its header
/// is no UTF-8, or no valid header; the fault in the sizes; or else the report
/// on the tensors its header describes.
pub open spec fn local_outcome(
    res: Result<Report, InspectError>,
    input: Seq<char>,
    file_size: u64,
    buffer: Seq<u8>,
) -> bool {
    match prefix_fault(buffer) {
        Some(f) => res matches Err(e) && e@ == fault_error(input, f),
        None => {
            let header = header_bytes(buffer);
            if !valid_utf8(header) {
                res matches Err(e) && e@ matches ErrorModel::InvalidSafetensors { path, reason }
                    && path == input && is_utf8_fault_text(reason)
            } else if !header_json_accepts(header) {
                res matches Err(e) && e@ matches ErrorModel::InvalidSafetensors { path, reason }
                    && path == input && is_metadata_fault_text(reason)
            } else {
                exists|m: Metadata|
                    #[trigger] describes(m, header) && header_well_formed(metadata_tensors(m))
                        && match local_size_check(
                        prefix_len(buffer),
                        data_end(metadata_tensors(m)),
                        buffer.len(),
                    ) {
                        Some(f) => res matches Err(e) && e@ == fault_error(input, f),
                        None => report_outcome(res, input, file_size, m),
                    }
            }
        },
    }
}

/// In a well-formed header, each tensor ends where or before a later one begins.
pub(crate) proof fn lemma_ends_before_starts(ts: Seq<TensorRecord>, i: int, j: int)
    requires
        header_well_formed(ts),
        0 <= i < j < ts.len(),
    ensures
        ts[i].4 <= ts[j].3,
    decreases j - i,
{
    if j > i + 1 {
        lemma_ends_before_starts(ts, i, j - 1);
        assert(ts[j - 1].3 <= ts[j - 1].4);
    }
    assert(ts[j].3 == ts[j - 1].4);
}

/// In a well-formed header, no tensor ends past the data section.
proof fn lemma_entries_end_within(m: Metadata, header: Seq<u8>)
    requires
        describes(m, header),
        header_well_formed(metadata_tensors(m)),
    ensures
        forall|k: Seq<char>|
            #[trigger] header_entries(header).contains_key(k) ==> header_entries(header)[k].3
                <= data_end(metadata_tensors(m)),
{
    let ts = metadata_tensors(m);
    let entries = header_entries(header);
    assert forall|k: Seq<char>| #[trigger] entries.contains_key(k) implies entries[k].3 <= data_end(
        ts,
    ) by {
        let i = choose|i: int| 0 <= i < ts.len() && (#[trigger] ts[i]).0 == k;
        assert(ts[i] == entry_record(k, entries[k]));
        let last = ts.len() - 1;
        if i < last {
            lemma_ends_before_starts(ts, i, last);
        }
        assert(ts[last].3 <= ts[last].4);
    }
}

fn fault_report(input: &str, fault: HeaderFault) -> (e: InspectError)
    ensures
        e@ == fault_error(input@, fault),
{
    InspectError::InvalidSafetensors { path: input.to_owned(), reason: fault_text(fault) }
}

/// Builds the report from a parsed header of `header_len` bytes, after
/// checking that prefix, header and data section make up `total_len` bytes.
pub fn report_from_header(
    input: &str,
    file_size: u64,
    header_len: usize,
    total_len: u64,
    metadata: &Metadata,
) -> (res: Result<Report, InspectError>)
    ensures
        parsed_outcome(res, input@, file_size, header_len as nat, total_len as nat, *metadata),
{
    let data_len = data_len(metadata);
    match check_remote_size(input, header_len, data_len, total_len) {
        Ok(()) => {},
        Err(e) => {
            return Err(e);
        },
    }
    build_report(input, file_size, metadata)
}

/// Builds the report on a remote file of `file_size` bytes from its parsed
/// header of `header_len` bytes, after checking that prefix, header and data
/// section make up the file.
pub fn report_from_remote_header(
    input: &str,
    file_size: u64,
    header_len: usize,
    metadata: &Metadata,
) -> (res: Result<Report, InspectError>)
    ensures
        parsed_outcome(res, input@, file_size, header_len as nat, file_size as nat, *metadata),
{
    report_from_header(input, file_size, header_len, file_size, metadata)
}

/// Inspects a file from its header bytes `header`, of `header_len` bytes,
/// where prefix, header and data section must make up `total_len` bytes; the
/// report names a file of `file_size` bytes.
pub fn inspect_header(
    input: &str,
    file_size: u64,
    header_len: usize,
    total_len: u64,
    header: &[u8],
) -> (res: Result<Report, InspectError>)
    ensures
        header_outcome(res, input@, file_size, header_len as nat, total_len as nat, header@),
{
    let metadata = match parse_header_json(header) {
        Ok(metadata) => metadata,
        Err(reason) => {
            return Err(InspectError::InvalidSafetensors { path: input.to_owned(), reason });
        },
    };
    let res = report_from_header(input, file_size, header_len, total_len, &metadata);
    proof {
        assert(describes(metadata, header@));
    }
    res
}

/// Inspects a remote file of `file_size` bytes from the bytes of its header,
/// whose length is `header_len`.
pub fn inspect_remote_header(
    input: &str,
    file_size: u64,
    header_len: usize,
    header: &[u8],
) -> (res: Result<Report, InspectError>)
    ensures
        header_outcome(res, input@, file_size, header_len as nat, file_size as nat, header@),
{
    inspect_header(input, file_size, header_len, file_size, header)
}

/// Inspects a local file of `file_size` bytes from all its bytes (`buffer`),
/// as `SafeTensors::read_metadata` reads them. That call adds the end of the
/// data section to the header's length without overflow checks, so a header
/// whose data section would end past `usize::MAX` is refused first: it is
/// parsed on its own, and reported as an overflow where it is UTF-8.
pub fn inspect_local_buffer(input: &str, file_size: u64, buffer: &[u8]) -> (res: Result<
    Report,
    InspectError,
>)
    ensures
        local_outcome(res, input@, file_size, buffer@),
{
    let ghost mut parsed: Option<Metadata> = None;
    if buffer.len() >= 8 {
        let (prefix, rest) = buffer.split_at(8);
        let header_len = le_u64(prefix);
        proof {
            assert(prefix@ =~= buffer@.subrange(0, 8));
        }
        if header_len <= MAX_HEADER_SIZE as u64 && header_len as usize <= rest.len() {
            let (header, _) = rest.split_at(header_len as usize);
            proof {
                assert(header@ =~= header_bytes(buffer@));
            }
            match parse_header_json(header) {
                Ok(metadata) => {
                    let end = data_len(&metadata);
                    proof {
                        lemma_entries_end_within(metadata, header@);
                        parsed = Some(metadata);
                    }
                    let room = usize::MAX - 8 - header_len as usize;
                    if end > room && is_utf8(header) {
                        proof {
                            assert(describes(metadata, header_bytes(buffer@)));
                        }
                        return Err(fault_report(input, HeaderFault::ValidationOverflow));
                    }
                },
                Err(_) => {},
            }
        }
    }
    proof {
        if prefix_fault(buffer@) is None {
            assert(buffer@.len() >= 8);
        }
    }
    match read_metadata(buffer) {
        Ok((_, metadata)) => {
            proof {
                assert(describes(metadata, header_bytes(buffer@)));
            }
            build_report(input, file_size, &metadata)
        },
        Err(reason) => {
            proof {
                let header = header_bytes(buffer@);
                if prefix_fault(buffer@) is None && valid_utf8(header) && header_json_accepts(header) {
                    let m = parsed->0;
                    assert(describes(m, header));
                }
            }
            Err(InspectError::InvalidSafetensors { path: input.to_owned(), reason })
        },
    }
}

} // verus!
