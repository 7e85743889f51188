//! The safetensors header as the `safetensors` crate reads it: the functions
//! here that call into `safetensors` and `serde_json` are trusted, and their
//! contracts, stated over the spec functions beside them, say what those
//! crates' sources show.
use vstd::prelude::*;
use vstd::utf8::valid_utf8;
use safetensors::tensor::Metadata;
use crate::layout::{le_value, HEADER_PREFIX_LEN, MAX_HEADER_SIZE};

verus! {

/// A parsed safetensors header (`safetensors::tensor::Metadata`).
#[verifier::external_type_specification]
#[verifier::external_body]
pub struct ExMetadata(safetensors::tensor::Metadata);

/// One tensor of a header: name, dtype name, shape, and the begin and end
/// offsets of its bytes in the data section.
pub type TensorRecord = (Seq<char>, Seq<char>, Seq<usize>, usize, usize);

/// The tensors of a parsed header, in the order of their data offsets: each
/// name that the header maps, with the tensor information it maps to.
pub uninterp spec fn metadata_tensors(m: Metadata) -> Seq<TensorRecord>;

/// The free-form string metadata of a parsed header (its `__metadata__`
/// object), where it has one.
pub uninterp spec fn metadata_strings(m: Metadata) -> Option<Map<Seq<char>, Seq<char>>>;

/// Whether `serde_json::from_slice` accepts header bytes as a `Metadata`.
pub uninterp spec fn header_json_accepts(header: Seq<u8>) -> bool;

/// The tensors that accepted header bytes describe: each name with its dtype
/// name, shape, and begin and end offsets.
pub uninterp spec fn header_entries(header: Seq<u8>) -> Map<Seq<char>, (Seq<char>, Seq<usize>, usize, usize)>;

/// The string metadata (`__metadata__`) that accepted header bytes hold, where
/// they hold one.
pub uninterp spec fn header_strings(header: Seq<u8>) -> Option<Map<Seq<char>, Seq<char>>>;

/// Faults in a header that this library detects itself; each is reported with
/// the text of the matching `SafeTensorError`.
#[derive(PartialEq, Eq, Structural, Clone, Copy, Debug)]
pub enum HeaderFault {
    /// `SafeTensorError::HeaderTooSmall`
    TooSmall,
    /// `SafeTensorError::HeaderTooLarge`
    TooLarge,
    /// `SafeTensorError::InvalidHeaderLength`
    InvalidLength,
    /// `SafeTensorError::ValidationOverflow`
    ValidationOverflow,
    /// `SafeTensorError::MetadataIncompleteBuffer`
    IncompleteBuffer,
}

/// The display text of the `SafeTensorError` that a header fault stands for.
pub open spec fn fault_message(fault: HeaderFault) -> Seq<char> {
    match fault {
        HeaderFault::TooSmall => "header too small"@,
        HeaderFault::TooLarge => "header too large"@,
        HeaderFault::InvalidLength => "invalid header length"@,
        HeaderFault::ValidationOverflow => "overflow computing buffer size from shape and/or element type"@,
        HeaderFault::IncompleteBuffer => "incomplete metadata, file not fully covered"@,
    }
}

/// The text of a header that is no valid JSON `Metadata`: the display text of
/// `SafeTensorError::InvalidHeaderDeserialization`, which opens with this prefix.
pub open spec fn is_json_fault_text(text: Seq<char>) -> bool {
    "invalid JSON in header: "@.is_prefix_of(text)
}

/// The texts of the errors for a UTF-8 header that is no valid `Metadata`:
/// the JSON error, or the failed check of the tensors
/// (`SafeTensorError::InvalidOffset`, `ValidationOverflow`, `TensorInvalidInfo`
/// and `MisalignedSlice`).
pub open spec fn is_metadata_fault_text(text: Seq<char>) -> bool {
    ||| is_json_fault_text(text)
    ||| "invalid offset for tensor `"@.is_prefix_of(text)
    ||| text == fault_message(HeaderFault::ValidationOverflow)
    ||| text == "invalid shape, data type, or offset for tensor"@
    ||| text
        == "The slice is slicing for subbytes dtypes, and the slice does not end up at a byte boundary, this is invalid."@
}

/// The text of `SafeTensorError::InvalidHeader`, a header that is no UTF-8.
pub open spec fn is_utf8_fault_text(text: Seq<char>) -> bool {
    "invalid UTF-8 in header: "@.is_prefix_of(text)
}

/// The fault in the length prefix of a whole file: too short for a prefix, a
/// header longer than `MAX_HEADER_SIZE`, or longer than the file holds.
pub open spec fn prefix_fault(buffer: Seq<u8>) -> Option<HeaderFault> {
    if buffer.len() < HEADER_PREFIX_LEN {
        Some(HeaderFault::TooSmall)
    } else if le_value(buffer.subrange(0, 8)) > MAX_HEADER_SIZE {
        Some(HeaderFault::TooLarge)
    } else if HEADER_PREFIX_LEN + le_value(buffer.subrange(0, 8)) > buffer.len() {
        Some(HeaderFault::InvalidLength)
    } else {
        None
    }
}

/// The header length that the prefix of a whole file gives.
pub open spec fn prefix_len(buffer: Seq<u8>) -> nat {
    le_value(buffer.subrange(0, 8))
}

/// The header bytes of a whole file, after its prefix.
pub open spec fn header_bytes(buffer: Seq<u8>) -> Seq<u8> {
    buffer.subrange(8, HEADER_PREFIX_LEN + prefix_len(buffer))
}

/// Whether the header of a whole file describes a tensor that ends so far
/// into the data section that prefix, header and data section together pass
/// `usize::MAX`.
pub open spec fn data_end_overflows(buffer: Seq<u8>) -> bool {
    &&& prefix_fault(buffer) is None
    &&& valid_utf8(header_bytes(buffer))
    &&& header_json_accepts(header_bytes(buffer))
    &&& exists|k: Seq<char>|
        #[trigger] header_entries(header_bytes(buffer)).contains_key(k) && HEADER_PREFIX_LEN
            + prefix_len(buffer) + header_entries(header_bytes(buffer))[k].3 > usize::MAX
}

/// The end offset of the last tensor: the length of the data section that the
/// tensors cover (`0` without tensors).
pub open spec fn data_end(ts: Seq<TensorRecord>) -> nat {
    if ts.len() == 0 {
        0
    } else {
        ts.last().4 as nat
    }
}

/// Each tensor's offsets are ordered.
pub open spec fn offsets_ordered(ts: Seq<TensorRecord>) -> bool {
    forall|i: int| 0 <= i < ts.len() ==> (#[trigger] ts[i]).3 <= ts[i].4
}

/// What `Metadata` validation guarantees of the tensors: distinct names, and
/// offsets that are ordered and cover the data section from `0` without gaps.
pub open spec fn header_well_formed(ts: Seq<TensorRecord>) -> bool {
    &&& offsets_ordered(ts)
    &&& ts.len() > 0 ==> ts[0].3 == 0
    &&& forall|i: int| 0 < i < ts.len() ==> (#[trigger] ts[i]).3 == ts[i - 1].4
    &&& forall|i: int, j: int|
        0 <= i < ts.len() && 0 <= j < ts.len() && i != j ==> (#[trigger] ts[i]).0 != (#[trigger] ts[j]).0
}

/// What holds of the tensors of every `Metadata`: distinct names, ordered
/// offsets, and tensors that follow one another in the data section without
/// overlap.
pub open spec fn header_ordered(ts: Seq<TensorRecord>) -> bool {
    &&& offsets_ordered(ts)
    &&& forall|i: int, j: int|
        0 <= i < ts.len() && 0 <= j < ts.len() && i != j ==> (#[trigger] ts[i]).0 != (#[trigger] ts[j]).0
    &&& forall|i: int, j: int| 0 <= i < j < ts.len() ==> (#[trigger] ts[i]).4 <= (#[trigger] ts[j]).3
}

/// A tensor of a header, as a record: its name and what the header maps it to.
pub open spec fn entry_record(
    name: Seq<char>,
    info: (Seq<char>, Seq<usize>, usize, usize),
) -> TensorRecord {
    (name, info.0, info.1, info.2, info.3)
}

/// `m` is the parsed form of the header bytes `header`: its tensors are those
/// the header describes, each once, and its string metadata is the header's.
pub open spec fn describes(m: Metadata, header: Seq<u8>) -> bool {
    let ts = metadata_tensors(m);
    let entries = header_entries(header);
    &&& forall|i: int|
        0 <= i < ts.len() ==> entries.contains_key((#[trigger] ts[i]).0) && ts[i] == entry_record(
            ts[i].0,
            entries[ts[i].0],
        )
    &&& forall|k: Seq<char>|
        #[trigger] entries.contains_key(k) ==> exists|i: int| 0 <= i < ts.len() && (#[trigger] ts[i]).0 == k
    &&& metadata_strings(m) == header_strings(header)
}

/// The position of the first tensor named `name`.
pub open spec fn tensor_index(ts: Seq<TensorRecord>, name: Seq<char>) -> Option<int>
    decreases ts.len(),
{
    if ts.len() == 0 {
        None
    } else {
        match tensor_index(ts.drop_last(), name) {
            Some(i) => Some(i),
            None => if ts.last().0 == name {
                Some(ts.len() - 1)
            } else {
                None
            },
        }
    }
}

/// What a header holds about one tensor, as plain values.
pub(crate) struct TensorFacts {
    pub dtype: String,
    pub shape: Vec<usize>,
    pub start: usize,
    pub end: usize,
}

/// Reads the header of a whole safetensors file (`SafeTensors::read_metadata`).
/// It checks the length prefix, decodes the header as UTF-8, parses it as JSON
/// the way `serde_json::from_slice` does, validates the tensors, and checks that
/// prefix, header and data section make up the buffer. That last check adds
/// without overflow checks, so buffers whose data end would overflow it are
/// left out. The texts of JSON and validation errors are stated by their
/// kind, not in full: they can name either of two tensors that share their
/// offsets, as the crate's hash map is walked.
#[verifier::external_body]
pub(crate) fn read_metadata(buffer: &[u8]) -> (res: Result<(usize, Metadata), String>)
    requires
        !data_end_overflows(buffer@),
    ensures
        match res {
            Ok((n, m)) => {
                &&& prefix_fault(buffer@) is None
                &&& n == prefix_len(buffer@)
                &&& valid_utf8(header_bytes(buffer@))
                &&& header_json_accepts(header_bytes(buffer@))
                &&& describes(m, header_bytes(buffer@))
                &&& header_well_formed(metadata_tensors(m))
                &&& HEADER_PREFIX_LEN + n + data_end(metadata_tensors(m)) == buffer@.len()
            },
            Err(text) => match prefix_fault(buffer@) {
                Some(fault) => text@ == fault_message(fault),
                None => if !valid_utf8(header_bytes(buffer@)) {
                    is_utf8_fault_text(text@)
                } else if !header_json_accepts(header_bytes(buffer@)) {
                    is_metadata_fault_text(text@)
                } else {
                    &&& text@ == fault_message(HeaderFault::IncompleteBuffer)
                    &&& forall|m: Metadata|
                        #[trigger] describes(m, header_bytes(buffer@)) && header_well_formed(
                            metadata_tensors(m),
                        ) ==> HEADER_PREFIX_LEN + prefix_len(buffer@) + data_end(metadata_tensors(m))
                            != buffer@.len()
                },
            },
        },
{
    match safetensors::SafeTensors::read_metadata(buffer) {
        Ok(found) => Ok(found),
        Err(e) => Err(e.to_string()),
    }
}

/// Whether bytes are UTF-8 (`std::str::from_utf8` accepts them).
#[verifier::external_body]
pub(crate) fn is_utf8(bytes: &[u8]) -> (ok: bool)
    ensures
        ok == valid_utf8(bytes@),
{
    std::str::from_utf8(bytes).is_ok()
}

/// Deserializes header bytes into a `Metadata` (`serde_json::from_slice`).
/// Its `Deserialize` impl validates the tensors, so that an accepted header
/// describes tensors that cover the data section from its start without gaps.
/// On failure, the display text of the error as
/// `SafeTensorError::InvalidHeaderDeserialization`: its prefix is stated, not
/// the text of the `serde_json` error that follows, which can name either of
/// two tensors that share their offsets, as the crate's hash map is walked.
#[verifier::external_body]
pub(crate) fn parse_header_json(header: &[u8]) -> (res: Result<Metadata, String>)
    ensures
        match res {
            Ok(m) => {
                &&& header_json_accepts(header@)
                &&& forall|i: int|
                    0 <= i < metadata_tensors(m).len() ==> header_entries(header@).contains_key(
                        (#[trigger] metadata_tensors(m)[i]).0,
                    ) && metadata_tensors(m)[i] == entry_record(
                        metadata_tensors(m)[i].0,
                        header_entries(header@)[metadata_tensors(m)[i].0],
                    )
                &&& forall|k: Seq<char>|
                    #[trigger] header_entries(header@).contains_key(k) ==> exists|i: int|
                        0 <= i < metadata_tensors(m).len() && (#[trigger] metadata_tensors(m)[i]).0 == k
                &&& metadata_strings(m) == header_strings(header@)
                &&& header_well_formed(metadata_tensors(m))
            },
            Err(text) => !header_json_accepts(header@) && is_json_fault_text(text@),
        },
{
    match serde_json::from_slice::<Metadata>(header) {
        Ok(m) => Ok(m),
        Err(e) => Err(safetensors::SafeTensorError::InvalidHeaderDeserialization(e).to_string()),
    }
}

/// The tensor names ordered by offset (`Metadata::offset_keys`). Every
/// `Metadata` was validated when it was made, so that its tensors follow one
/// another in the data section, each name once.
#[verifier::external_body]
pub(crate) fn offset_keys(m: &Metadata) -> (keys: Vec<String>)
    ensures
        keys@.len() == metadata_tensors(*m).len(),
        forall|i: int| 0 <= i < keys@.len() ==> (#[trigger] keys@[i])@ == metadata_tensors(*m)[i].0,
        forall|i: int, j: int|
            0 <= i < keys@.len() && 0 <= j < keys@.len() && i != j ==> (#[trigger] keys@[i])@
                != (#[trigger] keys@[j])@,
        forall|i: int|
            0 <= i < keys@.len() ==> (#[trigger] metadata_tensors(*m)[i]).3 <= metadata_tensors(*m)[i].4,
        forall|i: int, j: int|
            0 <= i < j < keys@.len() ==> (#[trigger] metadata_tensors(*m)[i]).4 <= (#[trigger] metadata_tensors(
                *m,
            )[j]).3,
{
    m.offset_keys()
}

/// The information on the tensor named `name` (`Metadata::info`), with its
/// dtype by display name (`Dtype`'s `Display`).
#[verifier::external_body]
pub(crate) fn tensor_info(m: &Metadata, name: &str) -> (res: Option<TensorFacts>)
    ensures
        match tensor_index(metadata_tensors(*m), name@) {
            None => res is None,
            Some(i) => res matches Some(facts) && {
                let t = metadata_tensors(*m)[i];
                &&& facts.dtype@ == t.1
                &&& facts.shape@ == t.2
                &&& facts.start == t.3
                &&& facts.end == t.4
            },
        },
{
    match m.info(name) {
        Some(info) => Some(
            TensorFacts {
                dtype: info.dtype.to_string(),
                shape: info.shape.clone(),
                start: info.data_offsets.0,
                end: info.data_offsets.1,
            },
        ),
        None => None,
    }
}

/// The length of the data section that the tensors cover (`Metadata::data_len`).
#[verifier::external_body]
pub(crate) fn data_len(m: &Metadata) -> (len: usize)
    ensures
        len as nat == data_end(metadata_tensors(*m)),
{
    m.data_len()
}

/// The string metadata as key-value pairs (`Metadata::metadata`), in the
/// unspecified order in which its hash map is walked.
#[verifier::external_body]
pub(crate) fn metadata_entries(m: &Metadata) -> (res: Option<Vec<(String, String)>>)
    ensures
        match metadata_strings(*m) {
            None => res is None,
            Some(map) => res matches Some(entries) && {
                &&& forall|i: int, j: int|
                    0 <= i < entries@.len() && 0 <= j < entries@.len() && i != j
                        ==> (#[trigger] entries@[i]).0@ != (#[trigger] entries@[j]).0@
                &&& forall|i: int|
                    0 <= i < entries@.len() ==> map.contains_key((#[trigger] entries@[i]).0@)
                        && map[entries@[i].0@] == entries@[i].1@
                &&& forall|k: Seq<char>|
                    #[trigger] map.contains_key(k) ==> exists|i: int|
                        0 <= i < entries@.len() && (#[trigger] entries@[i]).0@ == k
            },
        },
{
    match m.metadata() {
        Some(map) => {
            let mut entries = Vec::new();
            for (key, value) in map {
                entries.push((key.clone(), value.clone()));
            }
            Some(entries)
        },
        None => None,
    }
}

/// The display text of the `SafeTensorError` that `fault` stands for.
#[verifier::external_body]
pub(crate) fn fault_text(fault: HeaderFault) -> (text: String)
    ensures
        text@ == fault_message(fault),
{
    match fault {
        HeaderFault::TooSmall => safetensors::SafeTensorError::HeaderTooSmall.to_string(),
        HeaderFault::TooLarge => safetensors::SafeTensorError::HeaderTooLarge.to_string(),
        HeaderFault::InvalidLength => safetensors::SafeTensorError::InvalidHeaderLength.to_string(),
        HeaderFault::ValidationOverflow => safetensors::SafeTensorError::ValidationOverflow.to_string(),
        HeaderFault::IncompleteBuffer => safetensors::SafeTensorError::MetadataIncompleteBuffer.to_string(),
    }
}

} // verus!
