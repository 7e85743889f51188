//! Properties of the library that span its functions.
use vstd::prelude::*;
use safetensors::tensor::Metadata;
use crate::error::InspectError;
use crate::header::{
    tensor_index,
    data_end, describes, entry_record, header_bytes, header_entries, header_json_accepts,
    header_well_formed, metadata_strings, metadata_tensors, prefix_fault, prefix_len, TensorRecord,
};
use vstd::utf8::valid_utf8;
use crate::inspect::{
    fault_error, header_outcome, lemma_ends_before_starts, local_outcome, local_size_check,
    parsed_outcome, report_outcome,
};
use crate::layout::{le_value, HEADER_PREFIX_LEN, MAX_HEADER_SIZE};
use crate::probe::{event_fits, probe_next, EventModel, ProbeModel, ProbeStage};
use crate::remote::{header_range_outcome, range_value, total_size_outcome};
use crate::report::{
    breakdown_complete, breakdown_listed, breakdown_sums, dtype_bytes, dtypes_of, is_dtype_breakdown,
    is_metadata_listing, is_report, keys_increasing, pair_keys, rendered_report, tensor_names,
    tensor_pass, Report, ReportModel, SummaryModel,
};
use crate::input::authorization_for;
use crate::shape::{checked_numel, joined_dims, shape_product, shape_text};
use crate::text::{
    all_digits, decimal, digit_char, digits_value, is_digit, last_segment,
    lemma_text_less_irreflexive, lemma_text_less_total, text_less, unsigned_digits,
};

verus! {

/// The element counts of tensors, added up.
pub open spec fn numel_total(ts: Seq<SummaryModel>) -> nat
    decreases ts.len(),
{
    if ts.len() == 0 {
        0
    } else {
        numel_total(ts.drop_last()) + ts.last().numel as nat
    }
}

/// The byte sizes of tensors, added up.
pub open spec fn bytes_total(ts: Seq<SummaryModel>) -> nat
    decreases ts.len(),
{
    if ts.len() == 0 {
        0
    } else {
        bytes_total(ts.drop_last()) + ts.last().bytes as nat
    }
}

/// The byte counts of a dtype breakdown, added up.
pub open spec fn breakdown_total(bd: Seq<(Seq<char>, u128)>) -> nat
    decreases bd.len(),
{
    if bd.len() == 0 {
        0
    } else {
        breakdown_total(bd.drop_last()) + bd.last().1 as nat
    }
}

/// The element count of a tensor, where it fits, is the product of its
/// dimensions.
pub proof fn numel_is_product(shape: Seq<usize>)
    ensures
        checked_numel(shape) matches Some(n) ==> n == shape_product(shape),
    decreases shape.len(),
{
    if shape.len() > 0 {
        numel_is_product(shape.drop_last());
    }
}

/// The pass over the tensors summarizes each named tensor once, in order, and
/// its totals are the sums of the element counts and of the byte sizes.
pub proof fn pass_totals_are_sums(names: Seq<Seq<char>>, ts: Seq<TensorRecord>)
    ensures
        tensor_pass(names, ts) matches Ok((summaries, params, bytes)) ==> {
            &&& summaries.len() == names.len()
            &&& forall|i: int| 0 <= i < names.len() ==> (#[trigger] summaries[i]).name == names[i]
            &&& params == numel_total(summaries)
            &&& bytes == bytes_total(summaries)
        },
    decreases names.len(),
{
    if names.len() > 0 {
        pass_totals_are_sums(names.drop_last(), ts);
        if let Ok((summaries, params, bytes)) = tensor_pass(names, ts) {
            let (done, p0, b0) = tensor_pass(names.drop_last(), ts)->Ok_0;
            assert(summaries.drop_last() =~= done);
            assert forall|i: int| 0 <= i < names.len() implies (#[trigger] summaries[i]).name == names[i] by {
                if i < names.len() - 1 {
                    assert(summaries[i] == done[i]);
                }
            }
        }
    }
}

/// The bytes of the listed dtypes of `keys`, added up.
spec fn bytes_of_keys(keys: Seq<Seq<char>>, ts: Seq<SummaryModel>) -> nat
    decreases keys.len(),
{
    if keys.len() == 0 {
        0
    } else {
        bytes_of_keys(keys.drop_last(), ts) + dtype_bytes(ts, keys.last())
    }
}

/// How often `key` occurs in `keys`.
spec fn occurrences(keys: Seq<Seq<char>>, key: Seq<char>) -> nat
    decreases keys.len(),
{
    if keys.len() == 0 {
        0
    } else {
        occurrences(keys.drop_last(), key) + if keys.last() == key {
            1nat
        } else {
            0
        }
    }
}

proof fn lemma_bytes_of_keys_push(keys: Seq<Seq<char>>, ts: Seq<SummaryModel>, s: SummaryModel)
    ensures
        bytes_of_keys(keys, ts.push(s)) == bytes_of_keys(keys, ts) + occurrences(keys, s.dtype)
            * s.bytes,
    decreases keys.len(),
{
    assert(ts.push(s).drop_last() =~= ts);
    if keys.len() > 0 {
        lemma_bytes_of_keys_push(keys.drop_last(), ts, s);
        let o = occurrences(keys, s.dtype);
        let o1 = occurrences(keys.drop_last(), s.dtype);
        let c: nat = if keys.last() == s.dtype {
            1
        } else {
            0
        };
        assert(o == o1 + c);
        assert(o * s.bytes == o1 * s.bytes + c * s.bytes) by (nonlinear_arith)
            requires
                o == o1 + c,
        ;
        assert(c * s.bytes == if keys.last() == s.dtype {
            s.bytes as int
        } else {
            0
        });
        assert(dtype_bytes(ts.push(s), keys.last()) == dtype_bytes(ts, keys.last()) + c * s.bytes);
        assert(bytes_of_keys(keys, ts.push(s)) == bytes_of_keys(keys.drop_last(), ts.push(s))
            + dtype_bytes(ts.push(s), keys.last()));
        assert(bytes_of_keys(keys, ts) == bytes_of_keys(keys.drop_last(), ts) + dtype_bytes(ts, keys.last()));
        assert(bytes_of_keys(keys, ts.push(s)) == bytes_of_keys(keys, ts) + o * s.bytes);
    } else {
        assert(occurrences(keys, s.dtype) == 0);
        assert(occurrences(keys, s.dtype) * s.bytes == 0);
    }
}

proof fn lemma_bytes_of_keys_empty(keys: Seq<Seq<char>>, ts: Seq<SummaryModel>)
    requires
        ts.len() == 0,
    ensures
        bytes_of_keys(keys, ts) == 0,
    decreases keys.len(),
{
    if keys.len() > 0 {
        lemma_bytes_of_keys_empty(keys.drop_last(), ts);
    }
}

proof fn lemma_occurs_once(keys: Seq<Seq<char>>, key: Seq<char>)
    requires
        keys_increasing(keys),
        keys.contains(key),
    ensures
        occurrences(keys, key) == 1,
    decreases keys.len(),
{
    let rest = keys.drop_last();
    assert(keys_increasing(rest)) by {
        assert forall|i: int, j: int| 0 <= i < j < rest.len() implies crate::text::text_less(
            #[trigger] rest[i],
            #[trigger] rest[j],
        ) by {
            assert(rest[i] == keys[i] && rest[j] == keys[j]);
        }
    }
    if keys.last() == key {
        assert forall|i: int| 0 <= i < rest.len() implies rest[i] != key by {
            assert(crate::text::text_less(keys[i], keys[keys.len() - 1]));
            lemma_text_less_irreflexive(key);
        }
        lemma_occurs_never(rest, key);
    } else {
        let i = choose|i: int| 0 <= i < keys.len() && keys[i] == key;
        assert(rest[i] == key);
        lemma_occurs_once(rest, key);
    }
}

proof fn lemma_occurs_never(keys: Seq<Seq<char>>, key: Seq<char>)
    requires
        forall|i: int| 0 <= i < keys.len() ==> keys[i] != key,
    ensures
        occurrences(keys, key) == 0,
    decreases keys.len(),
{
    if keys.len() > 0 {
        lemma_occurs_never(keys.drop_last(), key);
    }
}

/// Keys that include the dtype of every tensor account for all its bytes.
proof fn lemma_keys_cover_bytes(keys: Seq<Seq<char>>, ts: Seq<SummaryModel>)
    requires
        keys_increasing(keys),
        forall|t: int| 0 <= t < ts.len() ==> keys.contains((#[trigger] ts[t]).dtype),
    ensures
        bytes_of_keys(keys, ts) == bytes_total(ts),
    decreases ts.len(),
{
    if ts.len() == 0 {
        lemma_bytes_of_keys_empty(keys, ts);
    } else {
        let rest = ts.drop_last();
        assert forall|t: int| 0 <= t < rest.len() implies keys.contains((#[trigger] rest[t]).dtype) by {
            assert(rest[t] == ts[t]);
        }
        lemma_keys_cover_bytes(keys, rest);
        assert(rest.push(ts.last()) =~= ts);
        lemma_bytes_of_keys_push(keys, rest, ts.last());
        assert(keys.contains(ts[ts.len() - 1].dtype));
        lemma_occurs_once(keys, ts.last().dtype);
    }
}

proof fn lemma_breakdown_total_by_keys(bd: Seq<(Seq<char>, u128)>, ts: Seq<SummaryModel>)
    requires
        forall|j: int| 0 <= j < bd.len() ==> (#[trigger] bd[j]).1 as nat == dtype_bytes(ts, bd[j].0),
    ensures
        breakdown_total(bd) == bytes_of_keys(pair_keys(bd), ts),
    decreases bd.len(),
{
    if bd.len() > 0 {
        let rest = bd.drop_last();
        assert(pair_keys(rest) =~= pair_keys(bd).drop_last());
        assert forall|j: int| 0 <= j < rest.len() implies (#[trigger] rest[j]).1 as nat == dtype_bytes(
            ts,
            rest[j].0,
        ) by {
            assert(rest[j] == bd[j]);
        }
        lemma_breakdown_total_by_keys(rest, ts);
        assert(bd[bd.len() - 1].1 as nat == dtype_bytes(ts, bd[bd.len() - 1].0));
    }
}

/// The bytes of a dtype breakdown add up to the bytes of all tensors.
pub proof fn breakdown_adds_up(bd: Seq<(Seq<char>, u128)>, ts: Seq<SummaryModel>)
    requires
        is_dtype_breakdown(bd, ts),
    ensures
        breakdown_total(bd) == bytes_total(ts),
{
    reveal(breakdown_sums);
    reveal(breakdown_complete);
    lemma_breakdown_total_by_keys(bd, ts);
    lemma_keys_cover_bytes(pair_keys(bd), ts);
}

/// In a report, the tensor count is the number of tensors, the parameters are
/// the sum of their element counts, and the tensor bytes are the sum of their
/// byte sizes, which the dtype breakdown adds up to as well.
pub proof fn report_totals_agree(
    r: ReportModel,
    path: Seq<char>,
    file_size: u64,
    names: Seq<Seq<char>>,
    ts: Seq<TensorRecord>,
    strings: Option<Map<Seq<char>, Seq<char>>>,
)
    requires
        tensor_pass(names, ts) matches Ok((summaries, params, bytes)) && is_report(
            r,
            path,
            file_size,
            summaries,
            params,
            bytes,
            strings,
        ),
    ensures
        r.tensor_count == r.tensors.len(),
        r.total_parameters == numel_total(r.tensors),
        r.total_tensor_bytes == bytes_total(r.tensors),
        breakdown_total(r.dtype_breakdown) == r.total_tensor_bytes,
{
    pass_totals_are_sums(names, ts);
    breakdown_adds_up(r.dtype_breakdown, r.tensors);
}

/// The decimal representation of a number consists of digits, and stands for
/// the number.
pub proof fn decimal_digits(n: nat)
    ensures
        decimal(n).len() > 0,
        all_digits(decimal(n)),
        digits_value(decimal(n)) == n,
    decreases n,
{
    if n >= 10 {
        decimal_digits(n / 10);
        let d = decimal(n);
        assert(d.drop_last() =~= decimal(n / 10));
        assert forall|i: int| 0 <= i < d.len() implies is_digit(#[trigger] d[i]) by {
            if i < d.len() - 1 {
                assert(d[i] == decimal(n / 10)[i]);
            }
        }
    }
    let r = n % 10;
    assert(r < 10);
    assert(((r + 48) as u8) as nat == r + 48);
    assert((digit_char(r) as nat) == r + 48);
    if n >= 10 {
        assert((n / 10) * 10 + r == n);
        assert(decimal(n).last() == digit_char(r));
        assert(decimal(n).drop_last() =~= decimal(n / 10));
        assert(digits_value(decimal(n)) == digits_value(decimal(n / 10)) * 10 + r);
    } else {
        assert(r == n);
        assert(decimal(n).drop_last() =~= Seq::<char>::empty());
        assert(decimal(n).last() == digit_char(n));
        assert(digits_value(Seq::<char>::empty()) == 0);
        assert(digits_value(decimal(n)) == n);
    }
}

/// What follows the last `/` is the segment after an appended `/`.
proof fn lemma_last_segment_after_slash(prefix: Seq<char>, tail: Seq<char>)
    requires
        forall|i: int| 0 <= i < tail.len() ==> tail[i] != '/',
    ensures
        last_segment(prefix.push('/') + tail) == tail,
    decreases tail.len(),
{
    let whole = prefix.push('/') + tail;
    if tail.len() == 0 {
        assert(whole =~= prefix.push('/'));
    } else {
        assert(whole.drop_last() =~= prefix.push('/') + tail.drop_last());
        lemma_last_segment_after_slash(prefix, tail.drop_last());
        assert(tail.drop_last().push(tail.last()) =~= tail);
    }
}

/// A `Content-Range` value that ends in `/` and the decimal total size gives
/// back that size, whatever comes before.
pub proof fn content_range_gives_total(prefix: Seq<char>, total: u64)
    ensures
        total_size_outcome(prefix.push('/') + decimal(total as nat)) == Ok::<u64, Seq<char>>(total),
{
    let d = decimal(total as nat);
    decimal_digits(total as nat);
    assert forall|i: int| 0 <= i < d.len() implies d[i] != '/' by {
        assert(is_digit(d[i]));
    }
    lemma_last_segment_after_slash(prefix, d);
    assert(is_digit(d[0]));
    assert(unsigned_digits(d) == d);
}

/// Increasing keys hold no key twice.
proof fn lemma_increasing_unique_key(keys: Seq<Seq<char>>, i: int, j: int)
    requires
        keys_increasing(keys),
        0 <= i < keys.len(),
        0 <= j < keys.len(),
        keys[i] == keys[j],
    ensures
        i == j,
{
    if i < j {
        assert(text_less(keys[i], keys[j]));
        lemma_text_less_irreflexive(keys[i]);
    } else if j < i {
        assert(text_less(keys[j], keys[i]));
        lemma_text_less_irreflexive(keys[j]);
    }
}

/// Two increasing sequences of keys with the same keys are the same.
pub proof fn increasing_keys_unique(a: Seq<Seq<char>>, b: Seq<Seq<char>>)
    requires
        keys_increasing(a),
        keys_increasing(b),
        forall|k: Seq<char>| a.contains(k) <==> b.contains(k),
    ensures
        a == b,
    decreases a.len(),
{
    if a.len() == 0 {
        if b.len() > 0 {
            assert(b.contains(b[0]));
        }
        assert(a =~= b);
    } else {
        assert(a.contains(a[0]));
        assert(b.len() > 0);
        assert(b.contains(b[0]));
        if a[0] != b[0] {
            let i = choose|i: int| 0 <= i < a.len() && a[i] == b[0];
            let j = choose|j: int| 0 <= j < b.len() && b[j] == a[0];
            assert(i != 0 && j != 0);
            assert(text_less(a[0], a[i]));
            assert(text_less(b[0], b[j]));
            lemma_text_less_total(a[0], b[0]);
        }
        let ra = a.drop_first();
        let rb = b.drop_first();
        assert(keys_increasing(ra)) by {
            assert forall|i: int, j: int| 0 <= i < j < ra.len() implies text_less(
                #[trigger] ra[i],
                #[trigger] ra[j],
            ) by {
                assert(text_less(a[i + 1], a[j + 1]));
            }
        }
        assert(keys_increasing(rb)) by {
            assert forall|i: int, j: int| 0 <= i < j < rb.len() implies text_less(
                #[trigger] rb[i],
                #[trigger] rb[j],
            ) by {
                assert(text_less(b[i + 1], b[j + 1]));
            }
        }
        assert forall|k: Seq<char>| ra.contains(k) <==> rb.contains(k) by {
            if ra.contains(k) {
                let i = choose|i: int| 0 <= i < ra.len() && ra[i] == k;
                assert(a[i + 1] == k);
                assert(a.contains(k));
                let j = choose|j: int| 0 <= j < b.len() && b[j] == k;
                if j == 0 {
                    lemma_increasing_unique_key(a, 0, i + 1);
                }
                assert(rb[j - 1] == k);
            }
            if rb.contains(k) {
                let j = choose|j: int| 0 <= j < rb.len() && rb[j] == k;
                assert(b[j + 1] == k);
                assert(b.contains(k));
                let i = choose|i: int| 0 <= i < a.len() && a[i] == k;
                if i == 0 {
                    lemma_increasing_unique_key(b, 0, j + 1);
                }
                assert(ra[i - 1] == k);
            }
        }
        increasing_keys_unique(ra, rb);
        assert(a =~= seq![a[0]] + ra);
        assert(b =~= seq![b[0]] + rb);
    }
}

/// The dtype breakdown of a report is determined by its tensors: two
/// breakdowns of the same tensors are the same.
pub proof fn dtype_breakdown_unique(
    x: Seq<(Seq<char>, u128)>,
    y: Seq<(Seq<char>, u128)>,
    ts: Seq<SummaryModel>,
)
    requires
        is_dtype_breakdown(x, ts),
        is_dtype_breakdown(y, ts),
    ensures
        x == y,
{
    reveal(breakdown_sums);
    reveal(breakdown_listed);
    reveal(breakdown_complete);
    let kx = pair_keys(x);
    let ky = pair_keys(y);
    assert forall|k: Seq<char>| kx.contains(k) <==> ky.contains(k) by {
        if kx.contains(k) {
            let j = choose|j: int| 0 <= j < kx.len() && kx[j] == k;
            assert(dtypes_of(ts).contains(x[j].0));
            let t = choose|t: int| 0 <= t < dtypes_of(ts).len() && dtypes_of(ts)[t] == k;
            assert(ky.contains(ts[t].dtype));
        }
        if ky.contains(k) {
            let j = choose|j: int| 0 <= j < ky.len() && ky[j] == k;
            assert(dtypes_of(ts).contains(y[j].0));
            let t = choose|t: int| 0 <= t < dtypes_of(ts).len() && dtypes_of(ts)[t] == k;
            assert(kx.contains(ts[t].dtype));
        }
    }
    increasing_keys_unique(kx, ky);
    assert(x.len() == kx.len() && y.len() == ky.len());
    assert forall|j: int| 0 <= j < x.len() implies x[j] == y[j] by {
        assert(kx[j] == ky[j]);
        assert(x[j].1 as nat == dtype_bytes(ts, x[j].0));
        assert(y[j].1 as nat == dtype_bytes(ts, y[j].0));
    }
    assert(x =~= y);
}

/// The metadata listing of a report is determined by the string metadata:
/// two listings of the same metadata are the same.
pub proof fn metadata_listing_unique(
    x: Seq<(Seq<char>, Seq<char>)>,
    y: Seq<(Seq<char>, Seq<char>)>,
    strings: Option<Map<Seq<char>, Seq<char>>>,
)
    requires
        is_metadata_listing(x, strings),
        is_metadata_listing(y, strings),
    ensures
        x == y,
{
    match strings {
        None => {
            assert(x =~= y);
        },
        Some(map) => {
            let kx = pair_keys(x);
            let ky = pair_keys(y);
            assert forall|k: Seq<char>| kx.contains(k) <==> ky.contains(k) by {
                if kx.contains(k) {
                    let j = choose|j: int| 0 <= j < kx.len() && kx[j] == k;
                    assert(map.contains_key(x[j].0));
                    let i = choose|i: int| 0 <= i < y.len() && (#[trigger] y[i]).0 == k;
                    assert(ky[i] == k);
                }
                if ky.contains(k) {
                    let j = choose|j: int| 0 <= j < ky.len() && ky[j] == k;
                    assert(map.contains_key(y[j].0));
                    let i = choose|i: int| 0 <= i < x.len() && (#[trigger] x[i]).0 == k;
                    assert(kx[i] == k);
                }
            }
            increasing_keys_unique(kx, ky);
            assert forall|j: int| 0 <= j < x.len() implies x[j] == y[j] by {
                assert(kx[j] == ky[j]);
            }
            assert(x =~= y);
        },
    }
}

/// The header is fetched with a single range that starts right after the
/// length prefix and asks for exactly the header's bytes.
pub proof fn header_range_is_exact(header_len: nat, url: Seq<char>)
    requires
        HEADER_PREFIX_LEN + header_len <= u64::MAX,
    ensures
        header_range_outcome(header_len, url) matches Ok((start, end)) && start == HEADER_PREFIX_LEN
            && end - start + 1 == header_len,
{
}

/// How many steps a probe at a stage may still take.
pub open spec fn stages_left(stage: ProbeStage) -> nat {
    match stage {
        ProbeStage::Prefix => 4,
        ProbeStage::PrefixBody { .. } => 3,
        ProbeStage::Header { .. } => 2,
        ProbeStage::HeaderBody { .. } => 1,
        ProbeStage::Finished => 0,
    }
}

/// Every step of a probe moves it forward, so that a probe ends after at most
/// four steps; it ends exactly where it fails or has the whole header.
pub proof fn probe_moves_forward(p: ProbeModel, event: EventModel)
    requires
        event_fits(p.stage, event),
    ensures
        stages_left(probe_next(p, event).0) < stages_left(p.stage),
        probe_next(p, event).0 is Finished <==> (probe_next(p, event).1 is Fail
            || probe_next(p, event).1 is Complete),
{
}

/// Besides the request for the length prefix, a probe asks for one range
/// only: the header, right after the prefix, of at most `MAX_HEADER_SIZE`
/// bytes. No tensor data is ever requested.
pub proof fn probe_fetches_only_the_header(p: ProbeModel, event: EventModel)
    requires
        event_fits(p.stage, event),
    ensures
        probe_next(p, event).1 is Fetch ==> (probe_next(p, event).0 matches ProbeStage::Header {
            header_len,
            ..
        } && header_len <= MAX_HEADER_SIZE && probe_next(p, event).1->Fetch_range == range_value(
            HEADER_PREFIX_LEN as nat,
            (HEADER_PREFIX_LEN + header_len - 1) as nat,
        )),
{
}

/// `a` comes before `b` in the data section: it begins earlier, or at the
/// same offset and ends earlier.
pub open spec fn span_less(a: TensorRecord, b: TensorRecord) -> bool {
    a.3 < b.3 || (a.3 == b.3 && a.4 < b.4)
}

/// The tensors come in strictly increasing order of their offsets.
pub open spec fn spans_increasing(ts: Seq<TensorRecord>) -> bool {
    forall|i: int, j: int| 0 <= i < j < ts.len() ==> span_less(#[trigger] ts[i], #[trigger] ts[j])
}

/// No two tensors of a header have both offsets in common.
pub open spec fn spans_distinct(
    entries: Map<Seq<char>, (Seq<char>, Seq<usize>, usize, usize)>,
) -> bool {
    forall|a: Seq<char>, b: Seq<char>|
        #[trigger] entries.contains_key(a) && #[trigger] entries.contains_key(b) && a != b
            ==> entries[a].2 != entries[b].2 || entries[a].3 != entries[b].3
}

/// Two sequences of tensors in strictly increasing order of their offsets,
/// with the same tensors, are the same.
proof fn lemma_increasing_spans_unique(s1: Seq<TensorRecord>, s2: Seq<TensorRecord>)
    requires
        spans_increasing(s1),
        spans_increasing(s2),
        forall|i: int| 0 <= i < s1.len() ==> s2.contains(#[trigger] s1[i]),
        forall|j: int| 0 <= j < s2.len() ==> s1.contains(#[trigger] s2[j]),
    ensures
        s1 == s2,
    decreases s1.len(),
{
    if s1.len() == 0 {
        if s2.len() > 0 {
            assert(s1.contains(s2[0]));
        }
        assert(s1 =~= s2);
    } else {
        if s2.len() == 0 {
            assert(s2.contains(s1[0]));
        }
        assert(s2.contains(s1[0]));
        assert(s1.contains(s2[0]));
        let j = choose|j: int| 0 <= j < s2.len() && s2[j] == s1[0];
        let k = choose|k: int| 0 <= k < s1.len() && s1[k] == s2[0];
        if k > 0 {
            assert(span_less(s1[0], s1[k]));
            if j > 0 {
                assert(span_less(s2[0], s2[j]));
            }
        }
        assert(s1[0] == s2[0]);
        let r1 = s1.drop_first();
        let r2 = s2.drop_first();
        assert forall|i: int| 0 <= i < r1.len() implies r2.contains(#[trigger] r1[i]) by {
            assert(r1[i] == s1[i + 1]);
            assert(s2.contains(s1[i + 1]));
            let m = choose|m: int| 0 <= m < s2.len() && s2[m] == s1[i + 1];
            assert(span_less(s1[0], s1[i + 1]));
            assert(m != 0);
            assert(r2[m - 1] == s2[m]);
        }
        assert forall|i: int| 0 <= i < r2.len() implies r1.contains(#[trigger] r2[i]) by {
            assert(r2[i] == s2[i + 1]);
            assert(s1.contains(s2[i + 1]));
            let m = choose|m: int| 0 <= m < s1.len() && s1[m] == s2[i + 1];
            assert(span_less(s2[0], s2[i + 1]));
            assert(m != 0);
            assert(r1[m - 1] == s1[m]);
        }
        lemma_increasing_spans_unique(r1, r2);
        assert(s1 =~= seq![s1[0]] + r1);
        assert(s2 =~= seq![s2[0]] + r2);
    }
}

/// The tensors of a parsed header whose tensors have distinct offsets come in
/// strictly increasing order of their offsets.
proof fn lemma_parsed_spans_increasing(m: Metadata, header: Seq<u8>)
    requires
        describes(m, header),
        header_well_formed(metadata_tensors(m)),
        spans_distinct(header_entries(header)),
    ensures
        spans_increasing(metadata_tensors(m)),
{
    let ts = metadata_tensors(m);
    let entries = header_entries(header);
    assert forall|i: int, j: int| 0 <= i < j < ts.len() implies span_less(
        #[trigger] ts[i],
        #[trigger] ts[j],
    ) by {
        lemma_ends_before_starts(ts, i, j);
        assert(ts[i].0 != ts[j].0);
        assert(entries.contains_key(ts[i].0) && entries.contains_key(ts[j].0));
        assert(ts[i] == entry_record(ts[i].0, entries[ts[i].0]));
        assert(ts[j] == entry_record(ts[j].0, entries[ts[j].0]));
    }
}

/// Two parsed forms of the same header, whose tensors have distinct offsets,
/// hold the same tensors in the same order.
proof fn lemma_parsed_tensors_unique(m1: Metadata, m2: Metadata, header: Seq<u8>)
    requires
        describes(m1, header),
        describes(m2, header),
        header_well_formed(metadata_tensors(m1)),
        header_well_formed(metadata_tensors(m2)),
        spans_distinct(header_entries(header)),
    ensures
        metadata_tensors(m1) == metadata_tensors(m2),
{
    let t1 = metadata_tensors(m1);
    let t2 = metadata_tensors(m2);
    let entries = header_entries(header);
    lemma_parsed_spans_increasing(m1, header);
    lemma_parsed_spans_increasing(m2, header);
    assert forall|i: int| 0 <= i < t1.len() implies t2.contains(#[trigger] t1[i]) by {
        let k = t1[i].0;
        assert(entries.contains_key(k));
        let j = choose|j: int| 0 <= j < t2.len() && (#[trigger] t2[j]).0 == k;
        assert(t2[j] == entry_record(k, entries[k]));
    }
    assert forall|j: int| 0 <= j < t2.len() implies t1.contains(#[trigger] t2[j]) by {
        let k = t2[j].0;
        assert(entries.contains_key(k));
        let i = choose|i: int| 0 <= i < t1.len() && (#[trigger] t1[i]).0 == k;
        assert(t1[i] == entry_record(k, entries[k]));
    }
    lemma_increasing_spans_unique(t1, t2);
}

/// Inspecting a file locally, from all its bytes, and remotely, from its
/// header with the file's length as its total size, gives the same outcome:
/// both succeed or both fail, and the two reports agree in everything but the
/// name of the file. The file's prefix must frame a header that is UTF-8,
/// which a local read checks before it parses; and where tensors share both
/// offsets, their order is left open by the header, so such files are left out.
pub proof fn local_and_remote_agree(
    local: Result<Report, InspectError>,
    remote: Result<Report, InspectError>,
    path: Seq<char>,
    url: Seq<char>,
    buffer: Seq<u8>,
)
    requires
        buffer.len() <= usize::MAX,
        prefix_fault(buffer) is None,
        valid_utf8(header_bytes(buffer)),
        spans_distinct(header_entries(header_bytes(buffer))),
        local_outcome(local, path, buffer.len() as u64, buffer),
        header_outcome(
            remote,
            url,
            buffer.len() as u64,
            prefix_len(buffer),
            buffer.len(),
            header_bytes(buffer),
        ),
    ensures
        local is Ok <==> remote is Ok,
        local matches Ok(a) ==> remote matches Ok(b) ==> {
            &&& a@.file_path == path
            &&& b@.file_path == url
            &&& a@.file_size == b@.file_size
            &&& a@.tensor_count == b@.tensor_count
            &&& a@.total_parameters == b@.total_parameters
            &&& a@.total_tensor_bytes == b@.total_tensor_bytes
            &&& a@.metadata == b@.metadata
            &&& a@.dtype_breakdown == b@.dtype_breakdown
            &&& a@.tensors == b@.tensors
        },
{
    let n = prefix_len(buffer);
    let header = header_bytes(buffer);
    let size = buffer.len() as u64;
    if header_json_accepts(header) {
        let m1 = choose|m: Metadata|
            #[trigger] describes(m, header) && header_well_formed(metadata_tensors(m)) && match local_size_check(
                n,
                data_end(metadata_tensors(m)),
                buffer.len(),
            ) {
                Some(f) => local matches Err(e) && e@ == fault_error(path, f),
                None => report_outcome(local, path, size, m),
            };
        let m2 = choose|m: Metadata|
            #[trigger] describes(m, header) && header_well_formed(metadata_tensors(m))
                && parsed_outcome(remote, url, size, n, buffer.len(), m);
        lemma_parsed_tensors_unique(m1, m2, header);
        let ts = metadata_tensors(m1);
        assert(metadata_strings(m1) == metadata_strings(m2));
        if let Ok((summaries, params, bytes)) = tensor_pass(tensor_names(ts), ts) {
            if local is Ok && remote is Ok {
                let a = local->Ok_0;
                let b = remote->Ok_0;
                assert(is_report(a@, path, size, summaries, params, bytes, metadata_strings(m1)));
                assert(is_report(b@, url, size, summaries, params, bytes, metadata_strings(m1)));
                metadata_listing_unique(a@.metadata, b@.metadata, metadata_strings(m1));
                dtype_breakdown_unique(a@.dtype_breakdown, b@.dtype_breakdown, summaries);
            }
        }
    }
}

/// Taking one dimension out of a shape divides its product by that dimension.
proof fn lemma_product_remove(s: Seq<usize>, k: int)
    requires
        0 <= k < s.len(),
    ensures
        shape_product(s) == shape_product(s.remove(k)) * (s[k] as nat),
    decreases s.len(),
{
    if k < s.len() - 1 {
        let d = s.drop_last();
        lemma_product_remove(d, k);
        assert(s.remove(k).drop_last() =~= d.remove(k));
        assert(s.remove(k).last() == s.last());
        let a = shape_product(d.remove(k));
        let x = s[k] as nat;
        let y = s.last() as nat;
        assert(a * x * y == a * y * x) by (nonlinear_arith);
    } else {
        assert(s.remove(k) =~= s.drop_last());
    }
}

/// Shapes with the same dimensions in any order have the same product.
proof fn lemma_product_permutation(s: Seq<usize>, p: Seq<usize>)
    requires
        s.to_multiset() == p.to_multiset(),
    ensures
        shape_product(s) == shape_product(p),
    decreases s.len(),
{
    broadcast use vstd::seq_lib::group_to_multiset_ensures;

    vstd::seq_lib::to_multiset_len(s);
    vstd::seq_lib::to_multiset_len(p);
    if s.len() == 0 {
        assert(p =~= s);
    } else {
        let last = s.len() - 1;
        assert(s.remove(last) =~= s.drop_last());
        assert(s.to_multiset().count(s[last]) > 0);
        assert(p.contains(s[last]));
        let k = choose|k: int| 0 <= k < p.len() && p[k] == s[last];
        assert(p.remove(k).to_multiset() == s.drop_last().to_multiset());
        lemma_product_permutation(s.drop_last(), p.remove(k));
        lemma_product_remove(p, k);
    }
}

/// Where every dimension is positive, the element count is the product of the
/// dimensions exactly when that product fits in a `u128`.
proof fn lemma_numel_of_positive_dims(s: Seq<usize>)
    requires
        forall|i: int| 0 <= i < s.len() ==> #[trigger] s[i] > 0,
    ensures
        checked_numel(s) == if shape_product(s) <= u128::MAX {
            Some(shape_product(s))
        } else {
            None
        },
    decreases s.len(),
{
    if s.len() > 0 {
        let d = s.drop_last();
        lemma_numel_of_positive_dims(d);
        let p = shape_product(d);
        let x = s.last() as nat;
        assert(x >= 1);
        assert(p * x >= p) by (nonlinear_arith)
            requires
                x >= 1,
        ;
    }
}

/// The element count of a tensor whose dimensions are all positive does not
/// depend on their order: any permutation of the shape gives the same count,
/// or overflows as well.
pub proof fn numel_ignores_dimension_order(shape: Seq<usize>, perm: Seq<usize>)
    requires
        forall|i: int| 0 <= i < shape.len() ==> #[trigger] shape[i] > 0,
        shape.to_multiset() == perm.to_multiset(),
    ensures
        checked_numel(shape) == checked_numel(perm),
{
    broadcast use vstd::seq_lib::group_to_multiset_ensures;

    assert forall|j: int| 0 <= j < perm.len() implies #[trigger] perm[j] > 0 by {
        assert(perm.to_multiset().count(perm[j]) > 0);
        assert(shape.contains(perm[j]));
    }
    lemma_product_permutation(shape, perm);
    lemma_numel_of_positive_dims(shape);
    lemma_numel_of_positive_dims(perm);
}

/// A text made of a part, `, ` and then digits is split at that separator in
/// one way only.
proof fn lemma_split_at_last_separator(x: Seq<char>, dx: Seq<char>, y: Seq<char>, dy: Seq<char>)
    requires
        all_digits(dx),
        all_digits(dy),
        x + ", "@ + dx == y + ", "@ + dy,
    ensures
        dx == dy,
        x == y,
{
    reveal_strlit(", ");
    let t = x + ", "@ + dx;
    let u = y + ", "@ + dy;
    let l = t.len() as int;
    if dx.len() < dy.len() {
        let p = l - dx.len() - 1;
        assert(t[p] == ' ');
        assert(u[p] == dy[p - (l - dy.len())]);
        assert(is_digit(dy[p - (l - dy.len())]));
    } else if dy.len() < dx.len() {
        let p = l - dy.len() - 1;
        assert(u[p] == ' ');
        assert(t[p] == dx[p - (l - dx.len())]);
        assert(is_digit(dx[p - (l - dx.len())]));
    }
    assert(dx =~= t.subrange(l - dx.len(), l));
    assert(dy =~= u.subrange(l - dy.len(), l));
    assert(x =~= t.subrange(0, x.len() as int));
    assert(y =~= u.subrange(0, y.len() as int));
}

/// A text with `, ` in it is not all digits.
proof fn lemma_separated_not_digits(y: Seq<char>, dy: Seq<char>)
    ensures
        !all_digits(y + ", "@ + dy),
{
    reveal_strlit(", ");
    assert((y + ", "@ + dy)[y.len() as int] == ',');
}

/// The dimensions of a shape, joined, are never empty but for an empty shape.
proof fn lemma_joined_dims_empty(a: Seq<usize>)
    ensures
        joined_dims(a).len() == 0 <==> a.len() == 0,
{
    reveal_strlit(", ");
    if a.len() > 0 {
        decimal_digits(a.last() as nat);
    }
}

/// Shapes whose dimensions join to the same text are the same.
proof fn lemma_joined_dims_injective(a: Seq<usize>, b: Seq<usize>)
    requires
        joined_dims(a) == joined_dims(b),
    ensures
        a == b,
    decreases a.len(),
{
    lemma_joined_dims_empty(a);
    lemma_joined_dims_empty(b);
    if a.len() == 0 {
        assert(a =~= b);
    } else {
        decimal_digits(a.last() as nat);
        decimal_digits(b.last() as nat);
        if a.len() == 1 && b.len() > 1 {
            lemma_separated_not_digits(joined_dims(b.drop_last()), decimal(b.last() as nat));
        } else if b.len() == 1 && a.len() > 1 {
            lemma_separated_not_digits(joined_dims(a.drop_last()), decimal(a.last() as nat));
        } else if a.len() == 1 {
            assert(a[0] == b[0]);
            assert(a =~= b);
        } else {
            lemma_split_at_last_separator(
                joined_dims(a.drop_last()),
                decimal(a.last() as nat),
                joined_dims(b.drop_last()),
                decimal(b.last() as nat),
            );
            lemma_joined_dims_injective(a.drop_last(), b.drop_last());
            assert(a.last() == b.last());
            assert(a =~= a.drop_last().push(a.last()));
            assert(b =~= b.drop_last().push(b.last()));
        }
    }
}

/// The text of a shape determines the shape: two shapes are shown alike only
/// where they are the same.
pub proof fn shape_text_identifies_shape(a: Seq<usize>, b: Seq<usize>)
    requires
        shape_text(a) == shape_text(b),
    ensures
        a == b,
{
    reveal_strlit("[");
    reveal_strlit("]");
    let t = shape_text(a);
    assert(joined_dims(a) =~= t.subrange(1, t.len() - 1));
    assert(joined_dims(b) =~= shape_text(b).subrange(1, t.len() - 1));
    lemma_joined_dims_injective(a, b);
}

/// The position of the last `,` in a text, or `-1` where it has none.
pub open spec fn last_comma(t: Seq<char>) -> int
    decreases t.len(),
{
    if t.len() == 0 {
        -1
    } else if t.last() == ',' {
        t.len() - 1
    } else {
        last_comma(t.drop_last())
    }
}

/// The last `,` of a text lies within it.
pub proof fn lemma_last_comma_bound(t: Seq<char>)
    ensures
        -1 <= last_comma(t) < t.len(),
    decreases t.len(),
{
    if t.len() > 0 {
        lemma_last_comma_bound(t.drop_last());
    }
}

/// Reads dimensions back from their text: what follows the last `, ` is the
/// last dimension, in decimal, and what comes before it the others.
pub open spec fn parse_dims(t: Seq<char>) -> Seq<nat>
    decreases t.len(),
{
    if t.len() == 0 {
        Seq::empty()
    } else if last_comma(t) < 0 {
        seq![digits_value(t)]
    } else {
        proof {
            lemma_last_comma_bound(t);
        }
        parse_dims(t.subrange(0, last_comma(t))).push(
            digits_value(t.subrange(last_comma(t) + 2, t.len() as int)),
        )
    }
}

/// Reads a shape back from its text: the dimensions between the brackets.
pub open spec fn parse_shape_text(text: Seq<char>) -> Seq<nat> {
    parse_dims(text.subrange(1, text.len() - 1))
}

/// The dimensions of a shape, as numbers.
pub open spec fn dims_of(shape: Seq<usize>) -> Seq<nat> {
    shape.map_values(|d: usize| d as nat)
}

/// Digits after a text hold no `,`.
proof fn lemma_last_comma_before_digits(p: Seq<char>, d: Seq<char>)
    requires
        all_digits(d),
    ensures
        last_comma(p + d) == last_comma(p),
    decreases d.len(),
{
    if d.len() == 0 {
        assert(p + d =~= p);
    } else {
        assert((p + d).drop_last() =~= p + d.drop_last());
        assert(is_digit(d[d.len() - 1]));
        lemma_last_comma_before_digits(p, d.drop_last());
    }
}

/// The dimensions of a shape, joined, read back as the shape.
proof fn lemma_parse_joined_dims(shape: Seq<usize>)
    ensures
        parse_dims(joined_dims(shape)) == dims_of(shape),
    decreases shape.len(),
{
    reveal_strlit(", ");
    lemma_joined_dims_empty(shape);
    if shape.len() == 0 {
        assert(dims_of(shape) =~= Seq::<nat>::empty());
    } else {
        let x = shape.last() as nat;
        decimal_digits(x);
        let d = decimal(x);
        if shape.len() == 1 {
            lemma_last_comma_before_digits(Seq::<char>::empty(), d);
            assert(Seq::<char>::empty() + d =~= d);
            assert(dims_of(shape) =~= seq![x]);
        } else {
            let rest = shape.drop_last();
            let j = joined_dims(rest);
            let t = joined_dims(shape);
            assert(t == j + ", "@ + d);
            lemma_last_comma_before_digits(j + ", "@, d);
            reveal_strlit(",");
            let sep = j + ", "@;
            assert(sep.last() == ' ');
            assert(sep.drop_last() =~= j + ","@);
            assert((j + ","@).last() == ',');
            assert(last_comma(j + ","@) == j.len());
            assert(last_comma(sep) == last_comma(sep.drop_last()));
            assert(last_comma(t) == j.len());
            assert(t.subrange(0, j.len() as int) =~= j);
            assert(t.subrange(j.len() as int + 2, t.len() as int) =~= d);
            lemma_parse_joined_dims(rest);
            assert(dims_of(shape) =~= dims_of(rest).push(x));
        }
    }
}

/// The text of a shape reads back as the shape: between the brackets, its
/// dimensions in decimal, separated by `, `.
pub proof fn shape_text_parses_back(shape: Seq<usize>)
    ensures
        parse_shape_text(shape_text(shape)) == dims_of(shape),
{
    reveal_strlit("[");
    reveal_strlit("]");
    let t = shape_text(shape);
    assert(t.subrange(1, t.len() - 1) =~= joined_dims(shape));
    lemma_parse_joined_dims(shape);
}

/// Each tensor of a successful pass is summarized from its own header record:
/// its dtype and shape as the header gives them, its byte size the span of
/// its offsets, and its element count the product of its dimensions (`1` for
/// a scalar, whose shape is empty).
pub proof fn pass_summarizes_each_tensor(names: Seq<Seq<char>>, ts: Seq<TensorRecord>)
    ensures
        tensor_pass(names, ts) matches Ok((summaries, params, bytes)) ==> forall|i: int|
            0 <= i < summaries.len() ==> {
                &&& (#[trigger] summaries[i]).numel as nat == shape_product(summaries[i].shape)
                &&& tensor_index(ts, names[i]) matches Some(j) && 0 <= j < ts.len() && ts[j].0
                    == names[i] && summaries[i].dtype == ts[j].1 && summaries[i].shape == ts[j].2
                    && (ts[j].3 <= ts[j].4 ==> summaries[i].bytes as int == ts[j].4 - ts[j].3)
            },
    decreases names.len(),
{
    if names.len() > 0 {
        pass_summarizes_each_tensor(names.drop_last(), ts);
        pass_totals_are_sums(names.drop_last(), ts);
        pass_totals_are_sums(names, ts);
        if let Ok((summaries, params, bytes)) = tensor_pass(names, ts) {
            let (done, p0, b0) = tensor_pass(names.drop_last(), ts)->Ok_0;
            let name = names.last();
            let j = tensor_index(ts, name)->Some_0;
            lemma_tensor_index_found(ts, name);
            numel_is_product(ts[j].2);
            assert(summaries.drop_last() =~= done);
            assert forall|i: int| 0 <= i < summaries.len() implies {
                &&& (#[trigger] summaries[i]).numel as nat == shape_product(summaries[i].shape)
                &&& tensor_index(ts, names[i]) matches Some(j) && 0 <= j < ts.len() && ts[j].0
                    == names[i] && summaries[i].dtype == ts[j].1 && summaries[i].shape == ts[j].2
                    && (ts[j].3 <= ts[j].4 ==> summaries[i].bytes as int == ts[j].4 - ts[j].3)
            } by {
                if i < summaries.len() - 1 {
                    assert(summaries[i] == done[i]);
                    assert(names.drop_last()[i] == names[i]);
                }
            }
        }
    }
}

/// Where a tensor is found by name, it is one of the tensors, of that name.
proof fn lemma_tensor_index_found(ts: Seq<TensorRecord>, name: Seq<char>)
    ensures
        tensor_index(ts, name) matches Some(i) ==> 0 <= i < ts.len() && ts[i].0 == name,
    decreases ts.len(),
{
    if ts.len() > 0 {
        lemma_tensor_index_found(ts.drop_last(), name);
    }
}

/// `needle` occurs in `text`.
pub open spec fn has_text(text: Seq<char>, needle: Seq<char>) -> bool {
    exists|k: int| 0 <= k && k + needle.len() <= text.len() && #[trigger] text.subrange(k, k + needle.len()) == needle
}

proof fn lemma_has_text_here(a: Seq<char>, needle: Seq<char>, b: Seq<char>)
    ensures
        has_text(a + needle + b, needle),
{
    let t = a + needle + b;
    assert(t.subrange(a.len() as int, a.len() as int + needle.len()) =~= needle);
}

proof fn lemma_has_text_in_left(a: Seq<char>, b: Seq<char>, needle: Seq<char>)
    requires
        has_text(a, needle),
    ensures
        has_text(a + b, needle),
{
    let k = choose|k: int| 0 <= k && k + needle.len() <= a.len() && #[trigger] a.subrange(k, k + needle.len()) == needle;
    assert((a + b).subrange(k, k + needle.len()) =~= a.subrange(k, k + needle.len()));
}

proof fn lemma_has_text_in_right(a: Seq<char>, b: Seq<char>, needle: Seq<char>)
    requires
        has_text(b, needle),
    ensures
        has_text(a + b, needle),
{
    let k = choose|k: int| 0 <= k && k + needle.len() <= b.len() && #[trigger] b.subrange(k, k + needle.len()) == needle;
    assert((a + b).subrange(a.len() + k, a.len() + k + needle.len()) =~= b.subrange(k, k + needle.len()));
}

/// The lines shown for one tensor: its name, then its dtype, shape, element
/// count and byte size, each on its own line.
pub open spec fn tensor_lines(t: SummaryModel) -> Seq<char> {
    "  "@ + t.name + "\n"@ + "    dtype: "@ + t.dtype + "\n"@ + "    shape: "@ + shape_text(t.shape)
        + "\n"@ + "    numel: "@ + decimal(t.numel as nat) + "\n"@ + "    bytes: "@ + decimal(
        t.bytes as nat,
    ) + "\n"@
}

/// The line shown for one dtype of the breakdown.
pub open spec fn dtype_line(e: (Seq<char>, u128)) -> Seq<char> {
    "  "@ + e.0 + ": "@ + decimal(e.1 as nat) + " bytes\n"@
}

/// The line shown for one entry of the string metadata.
pub open spec fn metadata_entry_line(e: (Seq<char>, Seq<char>)) -> Seq<char> {
    "  "@ + e.0 + " = "@ + e.1 + "\n"@
}

/// The rendering of a report opens with the file's name, its size, the tensor
/// count and the totals, each on its own line.
pub proof fn rendering_opens_with_totals(r: ReportModel)
    ensures
        ("File: "@ + r.file_path + "\n"@ + "Size: "@ + decimal(r.file_size as nat) + " bytes\n"@
            + "Tensors: "@ + decimal(r.tensor_count as nat) + "\n"@ + "Parameters: "@ + decimal(
            r.total_parameters as nat,
        ) + "\n"@ + "Tensor-Bytes: "@ + decimal(r.total_tensor_bytes as nat) + "\n"@).is_prefix_of(
            rendered_report(r),
        ),
{
    let head = "File: "@ + r.file_path + "\n"@ + "Size: "@ + decimal(r.file_size as nat) + " bytes\n"@
        + "Tensors: "@ + decimal(r.tensor_count as nat) + "\n"@ + "Parameters: "@ + decimal(
        r.total_parameters as nat,
    ) + "\n"@ + "Tensor-Bytes: "@ + decimal(r.total_tensor_bytes as nat) + "\n"@;
    assert(rendered_report(r).subrange(0, head.len() as int) =~= head);
}

/// The rendering of a report shows every tensor, with its own name, dtype,
/// shape (its dimensions in their order), element count and byte size.
pub proof fn rendering_shows_each_tensor(r: ReportModel)
    ensures
        forall|i: int|
            0 <= i < r.tensors.len() ==> has_text(rendered_report(r), tensor_lines(#[trigger] r.tensors[i])),
{
    let ts = r.tensors;
    assert forall|i: int| 0 <= i < ts.len() implies has_text(
        rendered_report(r),
        tensor_lines(#[trigger] ts[i]),
    ) by {
        lemma_blocks_show_tensor(ts, i);
        let body = crate::report::tensors_section(ts);
        assert(body == crate::report::tensor_blocks(ts));
        let front = before_breakdown(r) + "DType Breakdown:\n"@ + crate::report::breakdown_section(
            r.dtype_breakdown,
        ) + "\n"@ + "Tensors:\n"@;
        lemma_rendered_parts(r);
        assert(rendered_report(r) =~= front + body);
        lemma_has_text_in_right(front, body, tensor_lines(ts[i]));
    }
}

proof fn lemma_blocks_show_tensor(ts: Seq<SummaryModel>, i: int)
    requires
        0 <= i < ts.len(),
    ensures
        has_text(crate::report::tensor_blocks(ts), tensor_lines(ts[i])),
    decreases ts.len(),
{
    let before = crate::report::tensor_blocks(ts.drop_last()) + (if ts.len() > 1 {
        "\n"@
    } else {
        Seq::empty()
    });
    assert(crate::report::tensor_blocks(ts) == before + crate::report::tensor_block(ts.last()));
    if i == ts.len() - 1 {
        assert(crate::report::tensor_block(ts.last()) =~= tensor_lines(ts[i]));
        lemma_has_text_here(before, tensor_lines(ts[i]), Seq::empty());
        assert(before + tensor_lines(ts[i]) + Seq::<char>::empty() =~= before + tensor_lines(ts[i]));
    } else {
        lemma_blocks_show_tensor(ts.drop_last(), i);
        assert(ts.drop_last()[i] == ts[i]);
        lemma_has_text_in_left(
            crate::report::tensor_blocks(ts.drop_last()),
            (if ts.len() > 1 {
                "\n"@
            } else {
                Seq::empty()
            }),
            tensor_lines(ts[i]),
        );
        lemma_has_text_in_left(before, crate::report::tensor_block(ts.last()), tensor_lines(ts[i]));
    }
}

proof fn lemma_breakdown_lines_show(bd: Seq<(Seq<char>, u128)>, j: int)
    requires
        0 <= j < bd.len(),
    ensures
        has_text(crate::report::breakdown_lines(bd), dtype_line(bd[j])),
    decreases bd.len(),
{
    let before = crate::report::breakdown_lines(bd.drop_last());
    let last = crate::report::breakdown_line(bd.last());
    if j == bd.len() - 1 {
        assert(last =~= dtype_line(bd[j]));
        lemma_has_text_here(before, dtype_line(bd[j]), Seq::empty());
        assert(before + dtype_line(bd[j]) + Seq::<char>::empty() =~= before + last);
    } else {
        lemma_breakdown_lines_show(bd.drop_last(), j);
        assert(bd.drop_last()[j] == bd[j]);
        lemma_has_text_in_left(before, last, dtype_line(bd[j]));
    }
}

proof fn lemma_metadata_lines_show(es: Seq<(Seq<char>, Seq<char>)>, j: int)
    requires
        0 <= j < es.len(),
    ensures
        has_text(crate::report::metadata_lines(es), metadata_entry_line(es[j])),
    decreases es.len(),
{
    let before = crate::report::metadata_lines(es.drop_last());
    let last = crate::report::metadata_line(es.last());
    if j == es.len() - 1 {
        assert(last =~= metadata_entry_line(es[j]));
        lemma_has_text_here(before, metadata_entry_line(es[j]), Seq::empty());
        assert(before + metadata_entry_line(es[j]) + Seq::<char>::empty() =~= before + last);
    } else {
        lemma_metadata_lines_show(es.drop_last(), j);
        assert(es.drop_last()[j] == es[j]);
        lemma_has_text_in_left(before, last, metadata_entry_line(es[j]));
    }
}

/// What a rendering shows before its metadata lines.
spec fn before_metadata(r: ReportModel) -> Seq<char> {
    crate::report::report_head(r) + "Metadata:\n"@
}

/// What a rendering shows after its metadata section, up to its breakdown.
spec fn before_breakdown(r: ReportModel) -> Seq<char> {
    before_metadata(r) + crate::report::metadata_section(r.metadata) + "\n"@
}

/// What a rendering shows after its breakdown section.
spec fn after_breakdown(r: ReportModel) -> Seq<char> {
    "\n"@ + "Tensors:\n"@ + crate::report::tensors_section(r.tensors)
}

proof fn lemma_rendered_parts(r: ReportModel)
    ensures
        rendered_report(r) == before_breakdown(r) + "DType Breakdown:\n"@
            + crate::report::breakdown_section(r.dtype_breakdown) + after_breakdown(r),
        rendered_report(r) == before_metadata(r) + crate::report::metadata_section(r.metadata) + (
        "\n"@ + "DType Breakdown:\n"@ + crate::report::breakdown_section(r.dtype_breakdown)
            + after_breakdown(r)),
{
    assert(rendered_report(r) =~= before_breakdown(r) + "DType Breakdown:\n"@
        + crate::report::breakdown_section(r.dtype_breakdown) + after_breakdown(r));
    assert(rendered_report(r) =~= before_metadata(r) + crate::report::metadata_section(r.metadata) + (
    "\n"@ + "DType Breakdown:\n"@ + crate::report::breakdown_section(r.dtype_breakdown)
        + after_breakdown(r)));
}

/// The rendering of a report shows, under its heading, a line for every dtype
/// of the breakdown with its bytes, opening with the first dtype's line, and
/// `  (none)` where the breakdown is empty.
pub proof fn rendering_shows_breakdown(r: ReportModel)
    ensures
        forall|j: int|
            0 <= j < r.dtype_breakdown.len() ==> has_text(
                rendered_report(r),
                dtype_line(#[trigger] r.dtype_breakdown[j]),
            ),
        r.dtype_breakdown.len() == 0 ==> has_text(
            rendered_report(r),
            "DType Breakdown:\n"@ + "  (none)\n"@,
        ),
        r.dtype_breakdown.len() > 0 ==> has_text(
            rendered_report(r),
            "DType Breakdown:\n"@ + dtype_line(r.dtype_breakdown[0]),
        ),
{
    let bd = r.dtype_breakdown;
    let pre = before_breakdown(r);
    let bds = crate::report::breakdown_section(bd);
    let tail = after_breakdown(r);
    lemma_rendered_parts(r);
    assert forall|j: int| 0 <= j < bd.len() implies has_text(
        rendered_report(r),
        dtype_line(#[trigger] bd[j]),
    ) by {
        lemma_breakdown_lines_show(bd, j);
        lemma_has_text_in_right(pre + "DType Breakdown:\n"@, bds, dtype_line(bd[j]));
        lemma_has_text_in_left(pre + "DType Breakdown:\n"@ + bds, tail, dtype_line(bd[j]));
    }
    if bd.len() == 0 {
        assert(rendered_report(r) =~= pre + ("DType Breakdown:\n"@ + "  (none)\n"@) + tail);
        lemma_has_text_here(pre, "DType Breakdown:\n"@ + "  (none)\n"@, tail);
    } else {
        let first = dtype_line(bd[0]);
        lemma_breakdown_lines_first(bd);
        let rest = bds.subrange(first.len() as int, bds.len() as int);
        assert(bds =~= first + rest);
        assert(rendered_report(r) =~= pre + ("DType Breakdown:\n"@ + first) + (rest + tail));
        lemma_has_text_here(pre, "DType Breakdown:\n"@ + first, rest + tail);
    }
}

/// The rendering of a report shows, under its heading, a line for every entry
/// of the string metadata, and `  (none)` where there is none.
pub proof fn rendering_shows_metadata(r: ReportModel)
    ensures
        forall|j: int|
            0 <= j < r.metadata.len() ==> has_text(
                rendered_report(r),
                metadata_entry_line(#[trigger] r.metadata[j]),
            ),
        r.metadata.len() == 0 ==> has_text(rendered_report(r), "Metadata:\n"@ + "  (none)\n"@),
{
    let pre = before_metadata(r);
    let meta = crate::report::metadata_section(r.metadata);
    let rest = "\n"@ + "DType Breakdown:\n"@ + crate::report::breakdown_section(r.dtype_breakdown)
        + after_breakdown(r);
    lemma_rendered_parts(r);
    assert forall|j: int| 0 <= j < r.metadata.len() implies has_text(
        rendered_report(r),
        metadata_entry_line(#[trigger] r.metadata[j]),
    ) by {
        lemma_metadata_lines_show(r.metadata, j);
        lemma_has_text_in_right(pre, meta, metadata_entry_line(r.metadata[j]));
        lemma_has_text_in_left(pre + meta, rest, metadata_entry_line(r.metadata[j]));
    }
    if r.metadata.len() == 0 {
        let head = crate::report::report_head(r);
        assert(rendered_report(r) =~= head + ("Metadata:\n"@ + "  (none)\n"@) + rest);
        lemma_has_text_here(head, "Metadata:\n"@ + "  (none)\n"@, rest);
    }
}

/// The breakdown lines open with the line of the first dtype.
proof fn lemma_breakdown_lines_first(bd: Seq<(Seq<char>, u128)>)
    requires
        bd.len() > 0,
    ensures
        dtype_line(bd[0]).is_prefix_of(crate::report::breakdown_lines(bd)),
    decreases bd.len(),
{
    if bd.len() == 1 {
        assert(crate::report::breakdown_lines(bd.drop_last()) =~= Seq::<char>::empty());
        assert(crate::report::breakdown_lines(bd) =~= dtype_line(bd[0]));
    } else {
        lemma_breakdown_lines_first(bd.drop_last());
        assert(bd.drop_last()[0] == bd[0]);
        let before = crate::report::breakdown_lines(bd.drop_last());
        let n = dtype_line(bd[0]).len() as int;
        assert((before + crate::report::breakdown_line(bd.last())).subrange(0, n) =~= before.subrange(0, n));
    }
}

/// After an eight-byte length prefix of at most `MAX_HEADER_SIZE`, the probe
/// always asks for the header: exactly the range of that many bytes right
/// after the prefix, with the probe's authorization.
pub proof fn probe_fetches_every_header_within_limit(p: ProbeModel, prefix: Seq<u8>)
    requires
        p.stage is PrefixBody,
        prefix.len() == 8,
        le_value(prefix) <= MAX_HEADER_SIZE,
    ensures
        probe_next(p, EventModel::Body(Ok(prefix))) == (
            ProbeStage::Header {
                file_size: p.stage->PrefixBody_file_size,
                header_len: le_value(prefix) as usize,
            },
            crate::probe::StepModel::Fetch {
                range: range_value(8, (8 + le_value(prefix) - 1) as nat),
                authorization: p.authorization,
            },
        ),
{
    assert(MAX_HEADER_SIZE <= usize::MAX);
}

/// The Hugging Face token goes, as a bearer token, to `huggingface.co` and
/// `www.huggingface.co` whenever it is not empty, and to no other host.
pub proof fn token_goes_to_hugging_face_only(
    url: (Seq<char>, Seq<char>, Option<Seq<char>>),
    token: Option<Seq<char>>,
)
    ensures
        (url.2 == Some("huggingface.co"@) || url.2 == Some("www.huggingface.co"@)) ==> (token matches Some(t)
            ==> (t.len() > 0 ==> authorization_for(url, token) == Some("Bearer "@ + t))),
        !(url.2 == Some("huggingface.co"@) || url.2 == Some("www.huggingface.co"@)) ==> authorization_for(
            url,
            token,
        ) is None,
        token is None ==> authorization_for(url, token) is None,
        token == Some(Seq::<char>::empty()) ==> authorization_for(url, token) is None,
{
}

} // verus!
