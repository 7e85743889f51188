use vstd::prelude::*;
use safetensors::tensor::Metadata;
use crate::error::{ErrorModel, InspectError};
use crate::header::{
    metadata_entries, metadata_strings, metadata_tensors, offset_keys, header_ordered,
    tensor_index, tensor_info, TensorRecord,
};
use crate::shape::{checked_numel, format_shape, numel, shape_text};
use crate::text::{
    append_decimal, decimal,
    lemma_text_less_irreflexive, lemma_text_less_transitive, order_text,
    text_less, TextOrder,
};

verus! {

/// What the report says of one tensor.
#[derive(Debug)]
pub struct TensorSummary {
    name: String,
    dtype: String,
    shape: Vec<usize>,
    numel: u128,
    bytes: u128,
}

/// The model of a [`TensorSummary`].
pub struct SummaryModel {
    pub name: Seq<char>,
    pub dtype: Seq<char>,
    pub shape: Seq<usize>,
    pub numel: u128,
    pub bytes: u128,
}

impl View for TensorSummary {
    type V = SummaryModel;

    closed spec fn view(&self) -> SummaryModel {
        SummaryModel {
            name: self.name@,
            dtype: self.dtype@,
            shape: self.shape@,
            numel: self.numel,
            bytes: self.bytes,
        }
    }
}

/// The summary of a safetensors file.
#[derive(Debug)]
pub struct Report {
    file_path: String,
    file_size: u64,
    tensor_count: usize,
    total_parameters: u128,
    total_tensor_bytes: u128,
    metadata: Vec<(String, String)>,
    dtype_breakdown: Vec<(String, u128)>,
    tensors: Vec<TensorSummary>,
}

/// The model of a [`Report`].
pub struct ReportModel {
    pub file_path: Seq<char>,
    pub file_size: u64,
    pub tensor_count: usize,
    pub total_parameters: u128,
    pub total_tensor_bytes: u128,
    pub metadata: Seq<(Seq<char>, Seq<char>)>,
    pub dtype_breakdown: Seq<(Seq<char>, u128)>,
    pub tensors: Seq<SummaryModel>,
}

/// The models of a sequence of tensor summaries.
pub open spec fn summary_models(ts: Seq<TensorSummary>) -> Seq<SummaryModel> {
    ts.map_values(|t: TensorSummary| t@)
}

/// The texts of a sequence of string pairs.
pub open spec fn pair_models(es: Seq<(String, String)>) -> Seq<(Seq<char>, Seq<char>)> {
    es.map_values(|e: (String, String)| (e.0@, e.1@))
}

/// The texts of a sequence of keyed counts.
pub open spec fn count_models(es: Seq<(String, u128)>) -> Seq<(Seq<char>, u128)> {
    es.map_values(|e: (String, u128)| (e.0@, e.1))
}

impl View for Report {
    type V = ReportModel;

    closed spec fn view(&self) -> ReportModel {
        ReportModel {
            file_path: self.file_path@,
            file_size: self.file_size,
            tensor_count: self.tensor_count,
            total_parameters: self.total_parameters,
            total_tensor_bytes: self.total_tensor_bytes,
            metadata: pair_models(self.metadata@),
            dtype_breakdown: count_models(self.dtype_breakdown@),
            tensors: summary_models(self.tensors@),
        }
    }
}

/// The tensor names of a header, in offset order.
pub open spec fn tensor_names(ts: Seq<TensorRecord>) -> Seq<Seq<char>> {
    ts.map_values(|t: TensorRecord| t.0)
}

/// Summarizes the tensors named by `names`, in order, looking each up in `ts`:
/// the summaries with the running totals of parameters and bytes, or the first
/// error. A name without information is `MissingTensorInfo`; a tensor whose
/// element count, or a total that would not fit in a `u128`, is `Overflow`.
pub open spec fn tensor_pass(names: Seq<Seq<char>>, ts: Seq<TensorRecord>) -> Result<
    (Seq<SummaryModel>, nat, nat),
    ErrorModel,
>
    decreases names.len(),
{
    if names.len() == 0 {
        Ok((Seq::empty(), 0, 0))
    } else {
        match tensor_pass(names.drop_last(), ts) {
            Err(e) => Err(e),
            Ok((done, params, bytes)) => {
                let name = names.last();
                match tensor_index(ts, name) {
                    None => Err(ErrorModel::MissingTensorInfo { tensor: name }),
                    Some(i) => match checked_numel(ts[i].2) {
                        None => Err(ErrorModel::Overflow { tensor: name }),
                        Some(count) => {
                            let size = (ts[i].4 - ts[i].3) as nat;
                            if params + count > u128::MAX || bytes + size > u128::MAX {
                                Err(ErrorModel::Overflow { tensor: name })
                            } else {
                                Ok(
                                    (
                                        done.push(
                                            SummaryModel {
                                                name,
                                                dtype: ts[i].1,
                                                shape: ts[i].2,
                                                numel: count as u128,
                                                bytes: size as u128,
                                            },
                                        ),
                                        params + count,
                                        bytes + size,
                                    ),
                                )
                            }
                        },
                    },
                }
            },
        }
    }
}

/// The bytes of all tensors of dtype `dtype`.
pub open spec fn dtype_bytes(ts: Seq<SummaryModel>, dtype: Seq<char>) -> nat
    decreases ts.len(),
{
    if ts.len() == 0 {
        0
    } else {
        dtype_bytes(ts.drop_last(), dtype) + if ts.last().dtype == dtype {
            ts.last().bytes as nat
        } else {
            0
        }
    }
}

/// The keys come in strictly increasing order.
pub open spec fn keys_increasing(keys: Seq<Seq<char>>) -> bool {
    forall|i: int, j: int| 0 <= i < j < keys.len() ==> text_less(#[trigger] keys[i], #[trigger] keys[j])
}

/// The keys of a sequence of keyed pairs.
pub open spec fn pair_keys<V>(es: Seq<(Seq<char>, V)>) -> Seq<Seq<char>> {
    es.map_values(|e: (Seq<char>, V)| e.0)
}

/// Each listed dtype carries the bytes of all tensors of that dtype.
#[verifier::opaque]
pub open spec fn breakdown_sums(bd: Seq<(Seq<char>, u128)>, ts: Seq<SummaryModel>) -> bool {
    forall|j: int| 0 <= j < bd.len() ==> (#[trigger] bd[j]).1 as nat == dtype_bytes(ts, bd[j].0)
}

/// The dtypes of a sequence of tensors.
pub open spec fn dtypes_of(ts: Seq<SummaryModel>) -> Seq<Seq<char>> {
    ts.map_values(|t: SummaryModel| t.dtype)
}

/// Each listed dtype is the dtype of some tensor.
#[verifier::opaque]
pub open spec fn breakdown_listed(bd: Seq<(Seq<char>, u128)>, ts: Seq<SummaryModel>) -> bool {
    forall|j: int| 0 <= j < bd.len() ==> dtypes_of(ts).contains((#[trigger] bd[j]).0)
}

/// The dtype of each tensor is listed.
#[verifier::opaque]
pub open spec fn breakdown_complete(bd: Seq<(Seq<char>, u128)>, ts: Seq<SummaryModel>) -> bool {
    forall|t: int| 0 <= t < ts.len() ==> pair_keys(bd).contains((#[trigger] ts[t]).dtype)
}

/// `bd` lists each dtype of the tensors once, in increasing order, with the
/// bytes of all its tensors.
pub open spec fn is_dtype_breakdown(bd: Seq<(Seq<char>, u128)>, ts: Seq<SummaryModel>) -> bool {
    &&& keys_increasing(pair_keys(bd))
    &&& breakdown_sums(bd, ts)
    &&& breakdown_listed(bd, ts)
    &&& breakdown_complete(bd, ts)
}

/// `es` lists the entries of the string metadata once each, in increasing
/// order of key (nothing where there is no metadata).
pub open spec fn is_metadata_listing(
    es: Seq<(Seq<char>, Seq<char>)>,
    strings: Option<Map<Seq<char>, Seq<char>>>,
) -> bool {
    &&& keys_increasing(pair_keys(es))
    &&& match strings {
        None => es.len() == 0,
        Some(map) => {
            &&& forall|j: int|
                0 <= j < es.len() ==> map.contains_key((#[trigger] es[j]).0) && map[es[j].0]
                    == es[j].1
            &&& forall|k: Seq<char>|
                #[trigger] map.contains_key(k) ==> exists|j: int| 0 <= j < es.len() && (#[trigger] es[j]).0 == k
        },
    }
}

/// The report on a file named `path` of `file_size` bytes whose tensors give
/// `summaries` and the totals, and whose string metadata is `strings`.
pub open spec fn is_report(
    r: ReportModel,
    path: Seq<char>,
    file_size: u64,
    summaries: Seq<SummaryModel>,
    params: nat,
    bytes: nat,
    strings: Option<Map<Seq<char>, Seq<char>>>,
) -> bool {
    &&& r.file_path == path
    &&& r.file_size == file_size
    &&& r.tensor_count as nat == summaries.len()
    &&& r.total_parameters as nat == params
    &&& r.total_tensor_bytes as nat == bytes
    &&& r.tensors == summaries
    &&& is_metadata_listing(r.metadata, strings)
    &&& is_dtype_breakdown(r.dtype_breakdown, summaries)
}

/// Where `key` belongs in a vector whose keys increase: the position, and
/// whether the key is there already.
fn find_slot<V>(entries: &Vec<(String, V)>, key: &str) -> (slot: (usize, bool))
    requires
        forall|i: int, j: int|
            0 <= i < j < entries@.len() ==> text_less(
                #[trigger] entries@[i].0@,
                #[trigger] entries@[j].0@,
            ),
    ensures
        slot.0 <= entries@.len(),
        slot.1 ==> slot.0 < entries@.len() && entries@[slot.0 as int].0@ == key@,
        forall|i: int| 0 <= i < slot.0 ==> text_less(#[trigger] entries@[i].0@, key@),
        !slot.1 ==> forall|i: int|
            slot.0 <= i < entries@.len() ==> text_less(key@, #[trigger] entries@[i].0@),
{
    let mut i: usize = 0;
    while i < entries.len()
        invariant
            i <= entries@.len(),
            forall|a: int, b: int|
                0 <= a < b < entries@.len() ==> text_less(
                    #[trigger] entries@[a].0@,
                    #[trigger] entries@[b].0@,
                ),
            forall|j: int| 0 <= j < i ==> text_less(#[trigger] entries@[j].0@, key@),
        decreases entries@.len() - i,
    {
        match order_text(key, entries[i].0.as_str()) {
            TextOrder::Less => {
                proof {
                    assert forall|j: int| i <= j < entries@.len() implies text_less(
                        key@,
                        #[trigger] entries@[j].0@,
                    ) by {
                        if j > i {
                            lemma_text_less_transitive(key@, entries@[i as int].0@, entries@[j].0@);
                        }
                    }
                }
                return (i, false);
            },
            TextOrder::Equal => {
                return (i, true);
            },
            TextOrder::Greater => {},
        }
        i = i + 1;
    }
    (i, false)
}

/// Keys that increase are distinct.
proof fn lemma_increasing_distinct(keys: Seq<Seq<char>>, i: int, j: int)
    requires
        keys_increasing(keys),
        0 <= i < keys.len(),
        0 <= j < keys.len(),
        i != j,
    ensures
        keys[i] != keys[j],
{
    if i < j {
        assert(text_less(keys[i], keys[j]));
        lemma_text_less_irreflexive(keys[i]);
    } else {
        assert(text_less(keys[j], keys[i]));
        lemma_text_less_irreflexive(keys[j]);
    }
}

/// Tensors of another dtype add no bytes to a dtype.
proof fn lemma_dtype_bytes_absent(ts: Seq<SummaryModel>, dtype: Seq<char>)
    requires
        forall|t: int| 0 <= t < ts.len() ==> (#[trigger] ts[t]).dtype != dtype,
    ensures
        dtype_bytes(ts, dtype) == 0,
    decreases ts.len(),
{
    if ts.len() > 0 {
        lemma_dtype_bytes_absent(ts.drop_last(), dtype);
    }
}

/// Inserting a key between the smaller and the larger keys keeps them increasing.
proof fn lemma_insert_increasing<V>(s: Seq<(Seq<char>, V)>, pos: int, e: (Seq<char>, V))
    requires
        keys_increasing(pair_keys(s)),
        0 <= pos <= s.len(),
        forall|i: int| 0 <= i < pos ==> text_less((#[trigger] s[i]).0, e.0),
        forall|i: int| pos <= i < s.len() ==> text_less(e.0, (#[trigger] s[i]).0),
    ensures
        keys_increasing(pair_keys(s.insert(pos, e))),
{
    let t = s.insert(pos, e);
    assert forall|a: int, b: int| 0 <= a < b < pair_keys(t).len() implies text_less(
        #[trigger] pair_keys(t)[a],
        #[trigger] pair_keys(t)[b],
    ) by {
        if b < pos {
            assert(text_less(pair_keys(s)[a], pair_keys(s)[b]));
        } else if b == pos {
        } else if a < pos {
            lemma_text_less_transitive(s[a].0, e.0, s[b - 1].0);
        } else if a == pos {
        } else {
            assert(text_less(pair_keys(s)[a - 1], pair_keys(s)[b - 1]));
        }
    }
}

/// The elements of a sequence after an insertion.
proof fn lemma_insert_to_set<A>(s: Seq<A>, pos: int, e: A)
    requires
        0 <= pos <= s.len(),
    ensures
        s.insert(pos, e).to_set() == s.to_set().insert(e),
{
    let t = s.insert(pos, e);
    assert forall|x: A| t.to_set().contains(x) <==> s.to_set().insert(e).contains(x) by {
        if t.contains(x) {
            let j = choose|j: int| 0 <= j < t.len() && t[j] == x;
            if j < pos {
                assert(s[j] == x);
            } else if j > pos {
                assert(s[j - 1] == x);
            }
        }
        if s.contains(x) {
            let j = choose|j: int| 0 <= j < s.len() && s[j] == x;
            if j < pos {
                assert(t[j] == x);
            } else {
                assert(t[j + 1] == x);
            }
        }
        if x == e {
            assert(t[pos] == x);
        }
    }
    assert(t.to_set() =~= s.to_set().insert(e));
}

/// The elements of a longer prefix.
proof fn lemma_take_to_set<A>(s: Seq<A>, i: int)
    requires
        0 <= i < s.len(),
    ensures
        s.take(i + 1).to_set() == s.take(i).to_set().insert(s[i]),
{
    assert(s.take(i + 1) =~= s.take(i).insert(i, s[i]));
    lemma_insert_to_set(s.take(i), i, s[i]);
}

/// Sorts string pairs with distinct keys by key.
fn sort_by_key(entries: &Vec<(String, String)>) -> (sorted: Vec<(String, String)>)
    requires
        forall|i: int, j: int|
            0 <= i < entries@.len() && 0 <= j < entries@.len() && i != j
                ==> (#[trigger] entries@[i]).0@ != (#[trigger] entries@[j]).0@,
    ensures
        keys_increasing(pair_keys(pair_models(sorted@))),
        pair_models(sorted@).to_set() == pair_models(entries@).to_set(),
{
    let ghost em = pair_models(entries@);
    let mut out: Vec<(String, String)> = Vec::new();
    let mut i: usize = 0;
    proof {
        assert(pair_models(out@).to_set() =~= em.take(0).to_set());
    }
    while i < entries.len()
        invariant
            i <= entries@.len(),
            em == pair_models(entries@),
            forall|a: int, b: int|
                0 <= a < em.len() && 0 <= b < em.len() && a != b ==> (#[trigger] em[a]).0 != (
                #[trigger] em[b]).0,
            keys_increasing(pair_keys(pair_models(out@))),
            pair_models(out@).to_set() == em.take(i as int).to_set(),
        decreases entries@.len() - i,
    {
        let ghost pm = pair_models(out@);
        proof {
            assert forall|a: int, b: int| 0 <= a < b < out@.len() implies text_less(
                #[trigger] out@[a].0@,
                #[trigger] out@[b].0@,
            ) by {
                assert(text_less(pair_keys(pm)[a], pair_keys(pm)[b]));
            }
        }
        let (pos, found) = find_slot(&out, entries[i].0.as_str());
        proof {
            if found {
                assert(pm.to_set().contains(pm[pos as int]));
                assert(em.take(i as int).contains(pm[pos as int]));
                let k = choose|k: int| 0 <= k < i && em.take(i as int)[k] == pm[pos as int];
                assert(em[k].0 == em[i as int].0);
            }
        }
        let entry = (entries[i].0.clone(), entries[i].1.clone());
        out.insert(pos, entry);
        proof {
            assert(pair_models(out@) =~= pm.insert(pos as int, em[i as int]));
            lemma_insert_increasing(pm, pos as int, em[i as int]);
            lemma_insert_to_set(pm, pos as int, em[i as int]);
            lemma_take_to_set(em, i as int);
        }
        i = i + 1;
    }
    proof {
        assert(em.take(entries@.len() as int) =~= em);
    }
    out
}

/// Once the pass over a prefix of the names fails, the pass over any longer
/// prefix fails with the same error.
proof fn lemma_tensor_pass_error_stays(names: Seq<Seq<char>>, ts: Seq<TensorRecord>, j: int, k: int)
    requires
        0 <= j <= k <= names.len(),
        tensor_pass(names.take(j), ts) is Err,
    ensures
        tensor_pass(names.take(k), ts) == tensor_pass(names.take(j), ts),
    decreases k - j,
{
    if j < k {
        lemma_tensor_pass_error_stays(names, ts, j, k - 1);
        assert(names.take(k).drop_last() =~= names.take(k - 1));
    }
}

/// Where a tensor is found by name, and under which name.
proof fn lemma_tensor_index(ts: Seq<TensorRecord>, name: Seq<char>)
    ensures
        tensor_index(ts, name) matches Some(i) ==> 0 <= i < ts.len() && ts[i].0 == name,
    decreases ts.len(),
{
    if ts.len() > 0 {
        lemma_tensor_index(ts.drop_last(), name);
    }
}

/// The bytes per dtype after one more tensor.
proof fn lemma_dtype_bytes_push(ts: Seq<SummaryModel>, s: SummaryModel, dtype: Seq<char>)
    ensures
        dtype_bytes(ts.push(s), dtype) == dtype_bytes(ts, dtype) + if s.dtype == dtype {
            s.bytes as nat
        } else {
            0
        },
{
    assert(ts.push(s).drop_last() =~= ts);
}

/// Adding a tensor whose dtype is listed already at `pos`.
proof fn lemma_breakdown_add_existing(
    bm: Seq<(Seq<char>, u128)>,
    ms: Seq<SummaryModel>,
    s: SummaryModel,
    pos: int,
)
    requires
        is_dtype_breakdown(bm, ms),
        0 <= pos < bm.len(),
        bm[pos].1 + s.bytes <= u128::MAX,
        bm[pos].0 == s.dtype,
    ensures
        is_dtype_breakdown(bm.update(pos, (s.dtype, (bm[pos].1 + s.bytes) as u128)), ms.push(s)),
{
    let bm2 = bm.update(pos, (s.dtype, (bm[pos].1 + s.bytes) as u128));
    let ms2 = ms.push(s);
    assert(pair_keys(bm2) =~= pair_keys(bm));
    assert(breakdown_sums(bm2, ms2)) by {
        reveal(breakdown_sums);
        assert forall|j: int| 0 <= j < bm2.len() implies (#[trigger] bm2[j]).1 as nat == dtype_bytes(
            ms2,
            bm2[j].0,
        ) by {
            lemma_dtype_bytes_push(ms, s, bm2[j].0);
            if j != pos {
                lemma_increasing_distinct(pair_keys(bm), j, pos);
            }
        }
    }
    assert(breakdown_listed(bm2, ms2)) by {
        reveal(breakdown_listed);
        assert forall|j: int| 0 <= j < bm2.len() implies dtypes_of(ms2).contains(
            (#[trigger] bm2[j]).0,
        ) by {
            assert(bm2[j].0 == bm[j].0);
            assert(dtypes_of(ms).contains(bm[j].0));
            let t = choose|t: int| 0 <= t < dtypes_of(ms).len() && dtypes_of(ms)[t] == bm[j].0;
            assert(dtypes_of(ms2)[t] == dtypes_of(ms)[t]);
        }
    }
    assert(breakdown_complete(bm2, ms2)) by {
        reveal(breakdown_complete);
        assert forall|t: int| 0 <= t < ms2.len() implies pair_keys(bm2).contains(
            (#[trigger] ms2[t]).dtype,
        ) by {
            if t < ms.len() {
                assert(ms2[t] == ms[t]);
                assert(pair_keys(bm).contains(ms[t].dtype));
                let j = choose|j: int| 0 <= j < pair_keys(bm).len() && pair_keys(bm)[j] == ms[t].dtype;
                assert(pair_keys(bm2)[j] == pair_keys(bm)[j]);
            } else {
                assert(pair_keys(bm2)[pos] == ms2[t].dtype);
            }
        }
    }
}

/// Adding a tensor of a dtype that is not listed yet, inserted at `pos`.
proof fn lemma_breakdown_add_new(
    bm: Seq<(Seq<char>, u128)>,
    ms: Seq<SummaryModel>,
    s: SummaryModel,
    pos: int,
)
    requires
        is_dtype_breakdown(bm, ms),
        0 <= pos <= bm.len(),
        forall|i: int| 0 <= i < pos ==> text_less((#[trigger] bm[i]).0, s.dtype),
        forall|i: int| pos <= i < bm.len() ==> text_less(s.dtype, (#[trigger] bm[i]).0),
    ensures
        is_dtype_breakdown(bm.insert(pos, (s.dtype, s.bytes)), ms.push(s)),
{
    let bm2 = bm.insert(pos, (s.dtype, s.bytes));
    let ms2 = ms.push(s);
    lemma_insert_increasing(bm, pos, (s.dtype, s.bytes));
    assert forall|j: int| 0 <= j < bm.len() implies (#[trigger] bm[j]).0 != s.dtype by {
        lemma_text_less_irreflexive(s.dtype);
    }
    assert forall|t: int| 0 <= t < ms.len() implies (#[trigger] ms[t]).dtype != s.dtype by {
        reveal(breakdown_complete);
        assert(pair_keys(bm).contains(ms[t].dtype));
        let j = choose|j: int| 0 <= j < pair_keys(bm).len() && pair_keys(bm)[j] == ms[t].dtype;
        assert(bm[j].0 != s.dtype);
    }
    lemma_dtype_bytes_absent(ms, s.dtype);
    assert(breakdown_sums(bm2, ms2)) by {
        reveal(breakdown_sums);
        assert forall|j: int| 0 <= j < bm2.len() implies (#[trigger] bm2[j]).1 as nat == dtype_bytes(
            ms2,
            bm2[j].0,
        ) by {
            lemma_dtype_bytes_push(ms, s, bm2[j].0);
            if j < pos {
                assert(bm2[j] == bm[j]);
            } else if j > pos {
                assert(bm2[j] == bm[j - 1]);
            }
        }
    }
    assert(breakdown_listed(bm2, ms2)) by {
        reveal(breakdown_listed);
        assert forall|j: int| 0 <= j < bm2.len() implies dtypes_of(ms2).contains(
            (#[trigger] bm2[j]).0,
        ) by {
            if j == pos {
                assert(dtypes_of(ms2)[ms.len() as int] == bm2[j].0);
            } else {
                let k = if j < pos {
                    j
                } else {
                    j - 1
                };
                assert(bm2[j] == bm[k]);
                assert(dtypes_of(ms).contains(bm[k].0));
                let t = choose|t: int| 0 <= t < dtypes_of(ms).len() && dtypes_of(ms)[t] == bm[k].0;
                assert(dtypes_of(ms2)[t] == dtypes_of(ms)[t]);
            }
        }
    }
    assert(breakdown_complete(bm2, ms2)) by {
        reveal(breakdown_complete);
        assert forall|t: int| 0 <= t < ms2.len() implies pair_keys(bm2).contains(
            (#[trigger] ms2[t]).dtype,
        ) by {
            if t < ms.len() {
                assert(ms2[t] == ms[t]);
                assert(pair_keys(bm).contains(ms[t].dtype));
                let j = choose|j: int| 0 <= j < pair_keys(bm).len() && pair_keys(bm)[j] == ms[t].dtype;
                if j < pos {
                    assert(pair_keys(bm2)[j] == pair_keys(bm)[j]);
                } else {
                    assert(pair_keys(bm2)[j + 1] == pair_keys(bm)[j]);
                }
            } else {
                assert(pair_keys(bm2)[pos] == ms2[t].dtype);
            }
        }
    }
}

/// Adds the bytes of one more tensor, of dtype `dtype`, to the breakdown.
fn add_to_breakdown(
    breakdown: &mut Vec<(String, u128)>,
    dtype: String,
    size: u128,
    Ghost(ms): Ghost<Seq<SummaryModel>>,
    Ghost(s): Ghost<SummaryModel>,
    Ghost(total): Ghost<nat>,
)
    requires
        is_dtype_breakdown(count_models(old(breakdown)@), ms),
        forall|j: int| 0 <= j < old(breakdown)@.len() ==> (#[trigger] old(breakdown)@[j]).1 <= total,
        total + size <= u128::MAX,
        s.dtype == dtype@,
        s.bytes == size,
    ensures
        is_dtype_breakdown(count_models(final(breakdown)@), ms.push(s)),
        forall|j: int|
            0 <= j < final(breakdown)@.len() ==> (#[trigger] final(breakdown)@[j]).1 <= total + size,
{
    let ghost bm = count_models(breakdown@);
    let ghost before = breakdown@;
    proof {
        assert forall|a: int, b: int| 0 <= a < b < breakdown@.len() implies text_less(
            #[trigger] breakdown@[a].0@,
            #[trigger] breakdown@[b].0@,
        ) by {
            assert(text_less(pair_keys(bm)[a], pair_keys(bm)[b]));
        }
    }
    let (pos, found) = find_slot(breakdown, dtype.as_str());
    if found {
        let current = breakdown[pos].1;
        proof {
            lemma_breakdown_add_existing(bm, ms, s, pos as int);
        }
        breakdown.set(pos, (dtype, current + size));
        proof {
            assert(count_models(breakdown@) =~= bm.update(
                pos as int,
                (s.dtype, (bm[pos as int].1 + s.bytes) as u128),
            ));
            assert forall|j: int| 0 <= j < breakdown@.len() implies (#[trigger] breakdown@[j]).1
                <= total + size by {
                if j != pos {
                    assert(breakdown@[j] == before[j]);
                }
            }
        }
    } else {
        proof {
            lemma_breakdown_add_new(bm, ms, s, pos as int);
        }
        breakdown.insert(pos, (dtype, size));
        proof {
            assert(count_models(breakdown@) =~= bm.insert(pos as int, (s.dtype, s.bytes)));
            assert forall|j: int| 0 <= j < breakdown@.len() implies (#[trigger] breakdown@[j]).1
                <= total + size by {
                if j < pos {
                    assert(breakdown@[j] == before[j]);
                } else if j > pos {
                    assert(breakdown@[j] == before[j - 1]);
                }
            }
        }
    }
}

/// Sorted pairs with the same elements as the metadata entries list the
/// string metadata.
proof fn lemma_metadata_listing(
    sorted: Seq<(Seq<char>, Seq<char>)>,
    entries: Seq<(Seq<char>, Seq<char>)>,
    map: Map<Seq<char>, Seq<char>>,
)
    requires
        keys_increasing(pair_keys(sorted)),
        sorted.to_set() == entries.to_set(),
        forall|i: int|
            0 <= i < entries.len() ==> map.contains_key((#[trigger] entries[i]).0) && map[entries[i].0]
                == entries[i].1,
        forall|k: Seq<char>|
            #[trigger] map.contains_key(k) ==> exists|i: int|
                0 <= i < entries.len() && (#[trigger] entries[i]).0 == k,
    ensures
        is_metadata_listing(sorted, Some(map)),
{
    assert forall|j: int| 0 <= j < sorted.len() implies map.contains_key((#[trigger] sorted[j]).0)
        && map[sorted[j].0] == sorted[j].1 by {
        assert(sorted.to_set().contains(sorted[j]));
        assert(entries.contains(sorted[j]));
    }
    assert forall|k: Seq<char>| #[trigger] map.contains_key(k) implies exists|j: int|
        0 <= j < sorted.len() && (#[trigger] sorted[j]).0 == k by {
        let i = choose|i: int| 0 <= i < entries.len() && (#[trigger] entries[i]).0 == k;
        assert(entries.to_set().contains(entries[i]));
        assert(sorted.contains(entries[i]));
    }
}

/// Builds the report on a file named `input` of `file_size` bytes from its
/// parsed header: each tensor in offset order with its element count and byte
/// size, the totals, the string metadata sorted by key, and the bytes per
/// dtype in dtype order. It fails with the first tensor that has no
/// information or whose counts overflow.
pub fn build_report(input: &str, file_size: u64, metadata: &Metadata) -> (res: Result<
    Report,
    InspectError,
>)
    ensures
        res matches Ok(r) ==> {
            &&& r@.tensors.len() == metadata_tensors(*metadata).len()
            &&& forall|i: int|
                0 <= i < r@.tensors.len() ==> (#[trigger] r@.tensors[i]).name == metadata_tensors(
                    *metadata,
                )[i].0
            &&& header_ordered(metadata_tensors(*metadata))
        },
        match tensor_pass(tensor_names(metadata_tensors(*metadata)), metadata_tensors(*metadata)) {
            Err(e) => res matches Err(err) && err@ == e,
            Ok((summaries, params, bytes)) => res matches Ok(r) && is_report(
                r@,
                input@,
                file_size,
                summaries,
                params,
                bytes,
                metadata_strings(*metadata),
            ),
        },
{
    let ghost ts = metadata_tensors(*metadata);
    let ghost names = tensor_names(ts);
    let keys = offset_keys(metadata);
    proof {
        assert forall|a: int, b: int|
            0 <= a < ts.len() && 0 <= b < ts.len() && a != b implies (#[trigger] ts[a]).0 != (
            #[trigger] ts[b]).0 by {
            assert(keys@[a]@ != keys@[b]@);
        }
    }
    let mut total_parameters: u128 = 0;
    let mut total_tensor_bytes: u128 = 0;
    let mut tensors: Vec<TensorSummary> = Vec::new();
    let mut dtype_breakdown: Vec<(String, u128)> = Vec::new();
    let mut i: usize = 0;
    proof {
        assert(names.take(0) =~= Seq::<Seq<char>>::empty());
        assert(summary_models(tensors@) =~= Seq::<SummaryModel>::empty());
        assert(count_models(dtype_breakdown@) =~= Seq::<(Seq<char>, u128)>::empty());
        reveal(breakdown_sums);
        reveal(breakdown_listed);
        reveal(breakdown_complete);
    }
    while i < keys.len()
        invariant
            ts == metadata_tensors(*metadata),
            names == tensor_names(ts),
            header_ordered(ts),
            keys@.len() == ts.len(),
            tensors@.len() == i,
            forall|j: int| 0 <= j < i ==> (#[trigger] summary_models(tensors@)[j]).name == ts[j].0,
            forall|j: int| 0 <= j < keys@.len() ==> (#[trigger] keys@[j])@ == ts[j].0,
            i <= keys@.len(),
            tensor_pass(names.take(i as int), ts) == Ok::<
                (Seq<SummaryModel>, nat, nat),
                ErrorModel,
            >((summary_models(tensors@), total_parameters as nat, total_tensor_bytes as nat)),
            is_dtype_breakdown(count_models(dtype_breakdown@), summary_models(tensors@)),
            forall|j: int|
                0 <= j < dtype_breakdown@.len() ==> (#[trigger] dtype_breakdown@[j]).1
                    <= total_tensor_bytes,
        decreases keys@.len() - i,
    {
        let ghost ms = summary_models(tensors@);
        let name = keys[i].clone();
        proof {
            assert(names.take(i + 1).drop_last() =~= names.take(i as int));
            assert(names.take(i + 1).last() == name@);
        }
        let info = match tensor_info(metadata, name.as_str()) {
            Some(facts) => facts,
            None => {
                proof {
                    lemma_tensor_pass_error_stays(names, ts, i + 1, names.len() as int);
                    assert(names.take(names.len() as int) =~= names);
                }
                return Err(InspectError::MissingTensorInfo { tensor: name });
            },
        };
        proof {
            lemma_tensor_index(ts, name@);
        }
        let ghost index = tensor_index(ts, name@)->0;
        let count = match numel(info.shape.as_slice(), name.as_str()) {
            Ok(n) => n,
            Err(e) => {
                proof {
                    lemma_tensor_pass_error_stays(names, ts, i + 1, names.len() as int);
                    assert(names.take(names.len() as int) =~= names);
                }
                return Err(e);
            },
        };
        assert(ts[index].3 <= ts[index].4);
        let size: u128 = (info.end - info.start) as u128;
        let new_parameters = match total_parameters.checked_add(count) {
            Some(v) => v,
            None => {
                proof {
                    lemma_tensor_pass_error_stays(names, ts, i + 1, names.len() as int);
                    assert(names.take(names.len() as int) =~= names);
                }
                return Err(InspectError::Overflow { tensor: name });
            },
        };
        let new_bytes = match total_tensor_bytes.checked_add(size) {
            Some(v) => v,
            None => {
                proof {
                    lemma_tensor_pass_error_stays(names, ts, i + 1, names.len() as int);
                    assert(names.take(names.len() as int) =~= names);
                }
                return Err(InspectError::Overflow { tensor: name });
            },
        };
        let dtype = info.dtype;
        let summary = TensorSummary {
            name,
            dtype: dtype.clone(),
            shape: info.shape,
            numel: count,
            bytes: size,
        };
        let ghost s = summary@;
        add_to_breakdown(
            &mut dtype_breakdown,
            dtype,
            size,
            Ghost(ms),
            Ghost(s),
            Ghost(total_tensor_bytes as nat),
        );
        tensors.push(summary);
        proof {
            assert(summary_models(tensors@) =~= ms.push(s));
        }
        total_parameters = new_parameters;
        total_tensor_bytes = new_bytes;
        i = i + 1;
    }
    proof {
        assert(names.take(keys@.len() as int) =~= names);
    }
    let metadata_listing = match metadata_entries(metadata) {
        Some(entries) => {
            let sorted = sort_by_key(&entries);
            proof {
                let map = metadata_strings(*metadata)->0;
                let em = pair_models(entries@);
                assert forall|j: int| 0 <= j < em.len() implies map.contains_key((#[trigger] em[j]).0)
                    && map[em[j].0] == em[j].1 by {
                    assert(em[j].0 == entries@[j].0@);
                }
                assert forall|k: Seq<char>| #[trigger] map.contains_key(k) implies exists|j: int|
                    0 <= j < em.len() && (#[trigger] em[j]).0 == k by {
                    let j = choose|j: int| 0 <= j < entries@.len() && (#[trigger] entries@[j]).0@ == k;
                    assert(em[j].0 == k);
                }
                lemma_metadata_listing(pair_models(sorted@), em, map);
            }
            sorted
        },
        None => {
            let empty: Vec<(String, String)> = Vec::new();
            proof {
                assert(pair_models(empty@) =~= Seq::<(Seq<char>, Seq<char>)>::empty());
            }
            empty
        },
    };
    let tensor_count = tensors.len();
    Ok(
        Report {
            file_path: input.to_owned(),
            file_size,
            tensor_count,
            total_parameters,
            total_tensor_bytes,
            metadata: metadata_listing,
            dtype_breakdown,
            tensors,
        },
    )
}

/// One line of the string metadata: `  key = value`.
pub open spec fn metadata_line(e: (Seq<char>, Seq<char>)) -> Seq<char> {
    "  "@ + e.0 + " = "@ + e.1 + "\n"@
}

/// The lines of the string metadata, in order.
pub open spec fn metadata_lines(es: Seq<(Seq<char>, Seq<char>)>) -> Seq<char>
    decreases es.len(),
{
    if es.len() == 0 {
        Seq::empty()
    } else {
        metadata_lines(es.drop_last()) + metadata_line(es.last())
    }
}

/// The body of the metadata section: its lines, or `  (none)`.
pub open spec fn metadata_section(es: Seq<(Seq<char>, Seq<char>)>) -> Seq<char> {
    if es.len() == 0 {
        "  (none)\n"@
    } else {
        metadata_lines(es)
    }
}

/// One line of the dtype breakdown: `  DTYPE: N bytes`.
pub open spec fn breakdown_line(e: (Seq<char>, u128)) -> Seq<char> {
    "  "@ + e.0 + ": "@ + decimal(e.1 as nat) + " bytes\n"@
}

/// The lines of the dtype breakdown, in order.
pub open spec fn breakdown_lines(bd: Seq<(Seq<char>, u128)>) -> Seq<char>
    decreases bd.len(),
{
    if bd.len() == 0 {
        Seq::empty()
    } else {
        breakdown_lines(bd.drop_last()) + breakdown_line(bd.last())
    }
}

/// The body of the dtype breakdown section: its lines, or `  (none)`.
pub open spec fn breakdown_section(bd: Seq<(Seq<char>, u128)>) -> Seq<char> {
    if bd.len() == 0 {
        "  (none)\n"@
    } else {
        breakdown_lines(bd)
    }
}

/// The block of lines on one tensor.
pub open spec fn tensor_block(t: SummaryModel) -> Seq<char> {
    "  "@ + t.name + "\n"@ + "    dtype: "@ + t.dtype + "\n"@ + "    shape: "@ + shape_text(t.shape)
        + "\n"@ + "    numel: "@ + decimal(t.numel as nat) + "\n"@ + "    bytes: "@ + decimal(
        t.bytes as nat,
    ) + "\n"@
}

/// The blocks on the tensors, in order, separated by empty lines.
pub open spec fn tensor_blocks(ts: Seq<SummaryModel>) -> Seq<char>
    decreases ts.len(),
{
    if ts.len() == 0 {
        Seq::empty()
    } else {
        tensor_blocks(ts.drop_last()) + (if ts.len() > 1 {
            "\n"@
        } else {
            Seq::empty()
        }) + tensor_block(ts.last())
    }
}

/// The body of the tensors section: its blocks, or `  (none)`.
pub open spec fn tensors_section(ts: Seq<SummaryModel>) -> Seq<char> {
    if ts.len() == 0 {
        "  (none)\n"@
    } else {
        tensor_blocks(ts)
    }
}

/// The opening lines of a report: path, size, counts and totals.
pub open spec fn report_head(r: ReportModel) -> Seq<char> {
    "File: "@ + r.file_path + "\n"@ + "Size: "@ + decimal(r.file_size as nat) + " bytes\n"@
        + "Tensors: "@ + decimal(r.tensor_count as nat) + "\n"@ + "Parameters: "@ + decimal(
        r.total_parameters as nat,
    ) + "\n"@ + "Tensor-Bytes: "@ + decimal(r.total_tensor_bytes as nat) + "\n"@ + "\n"@
}

/// The plain-text rendering of a report.
pub open spec fn rendered_report(r: ReportModel) -> Seq<char> {
    report_head(r) + "Metadata:\n"@ + metadata_section(r.metadata) + "\n"@ + "DType Breakdown:\n"@
        + breakdown_section(r.dtype_breakdown) + "\n"@ + "Tensors:\n"@ + tensors_section(r.tensors)
}

fn append_metadata_section(out: &mut String, entries: &Vec<(String, String)>)
    ensures
        final(out)@ == old(out)@ + metadata_section(pair_models(entries@)),
{
    let ghost es = pair_models(entries@);
    if entries.len() == 0 {
        out.append("  (none)\n");
        return;
    }
    let ghost start = out@;
    let mut i: usize = 0;
    proof {
        assert(es.take(0) =~= Seq::<(Seq<char>, Seq<char>)>::empty());
        assert(out@ =~= start + metadata_lines(es.take(0)));
    }
    while i < entries.len()
        invariant
            es == pair_models(entries@),
            i <= entries@.len(),
            out@ == start + metadata_lines(es.take(i as int)),
        decreases entries@.len() - i,
    {
        let ghost before = out@;
        out.append("  ");
        out.append(entries[i].0.as_str());
        out.append(" = ");
        out.append(entries[i].1.as_str());
        out.append("\n");
        proof {
            assert(es.take(i + 1).drop_last() =~= es.take(i as int));
            assert(es.take(i + 1).last() == es[i as int]);
            assert(out@ =~= before + metadata_line(es[i as int]));
            assert(out@ =~= start + metadata_lines(es.take(i + 1)));
        }
        i = i + 1;
    }
    proof {
        assert(es.take(entries@.len() as int) =~= es);
    }
}

fn append_breakdown_section(out: &mut String, breakdown: &Vec<(String, u128)>)
    ensures
        final(out)@ == old(out)@ + breakdown_section(count_models(breakdown@)),
{
    let ghost bd = count_models(breakdown@);
    if breakdown.len() == 0 {
        out.append("  (none)\n");
        return;
    }
    let ghost start = out@;
    let mut i: usize = 0;
    proof {
        assert(bd.take(0) =~= Seq::<(Seq<char>, u128)>::empty());
        assert(out@ =~= start + breakdown_lines(bd.take(0)));
    }
    while i < breakdown.len()
        invariant
            bd == count_models(breakdown@),
            i <= breakdown@.len(),
            out@ == start + breakdown_lines(bd.take(i as int)),
        decreases breakdown@.len() - i,
    {
        let ghost before = out@;
        out.append("  ");
        out.append(breakdown[i].0.as_str());
        out.append(": ");
        append_decimal(out, breakdown[i].1);
        out.append(" bytes\n");
        proof {
            assert(bd.take(i + 1).drop_last() =~= bd.take(i as int));
            assert(bd.take(i + 1).last() == bd[i as int]);
            assert(out@ =~= before + breakdown_line(bd[i as int]));
            assert(out@ =~= start + breakdown_lines(bd.take(i + 1)));
        }
        i = i + 1;
    }
    proof {
        assert(bd.take(breakdown@.len() as int) =~= bd);
    }
}

fn append_tensor_block(out: &mut String, tensor: &TensorSummary)
    ensures
        final(out)@ == old(out)@ + tensor_block(tensor@),
{
    let ghost before = out@;
    out.append("  ");
    out.append(tensor.name.as_str());
    out.append("\n");
    out.append("    dtype: ");
    out.append(tensor.dtype.as_str());
    out.append("\n");
    out.append("    shape: ");
    let shape = format_shape(tensor.shape.as_slice());
    out.append(shape.as_str());
    out.append("\n");
    out.append("    numel: ");
    append_decimal(out, tensor.numel);
    out.append("\n");
    out.append("    bytes: ");
    append_decimal(out, tensor.bytes);
    out.append("\n");
    proof {
        assert(out@ =~= before + tensor_block(tensor@));
    }
}

fn append_tensors_section(out: &mut String, tensors: &Vec<TensorSummary>)
    ensures
        final(out)@ == old(out)@ + tensors_section(summary_models(tensors@)),
{
    let ghost ts = summary_models(tensors@);
    if tensors.len() == 0 {
        out.append("  (none)\n");
        return;
    }
    let ghost start = out@;
    let mut i: usize = 0;
    proof {
        assert(ts.take(0) =~= Seq::<SummaryModel>::empty());
        assert(out@ =~= start + tensor_blocks(ts.take(0)));
    }
    while i < tensors.len()
        invariant
            ts == summary_models(tensors@),
            i <= tensors@.len(),
            out@ == start + tensor_blocks(ts.take(i as int)),
        decreases tensors@.len() - i,
    {
        let ghost before = out@;
        if i > 0 {
            out.append("\n");
        }
        let ghost separated = out@;
        append_tensor_block(out, &tensors[i]);
        proof {
            let next = ts.take(i + 1);
            assert(next.drop_last() =~= ts.take(i as int));
            assert(next.last() == ts[i as int]);
            assert(next.len() > 1 <==> i > 0);
            if i > 0 {
                assert(out@ =~= before + "\n"@ + tensor_block(ts[i as int]));
            } else {
                assert(out@ =~= before + Seq::<char>::empty() + tensor_block(ts[i as int]));
            }
            assert(out@ =~= start + tensor_blocks(next));
        }
        i = i + 1;
    }
    proof {
        assert(ts.take(tensors@.len() as int) =~= ts);
    }
}

/// Renders a report as plain text: the head lines, then the metadata, the
/// dtype breakdown and the tensors, each section under its title.
pub fn render_report(report: &Report) -> (text: String)
    ensures
        text@ == rendered_report(report@),
{
    let mut output = String::new();
    output.append("File: ");
    output.append(report.file_path.as_str());
    output.append("\n");
    output.append("Size: ");
    append_decimal(&mut output, report.file_size as u128);
    output.append(" bytes\n");
    output.append("Tensors: ");
    append_decimal(&mut output, report.tensor_count as u128);
    output.append("\n");
    output.append("Parameters: ");
    append_decimal(&mut output, report.total_parameters);
    output.append("\n");
    output.append("Tensor-Bytes: ");
    append_decimal(&mut output, report.total_tensor_bytes);
    output.append("\n");
    output.append("\n");
    proof {
        assert(output@ =~= report_head(report@));
    }
    output.append("Metadata:\n");
    append_metadata_section(&mut output, &report.metadata);
    output.append("\n");
    output.append("DType Breakdown:\n");
    append_breakdown_section(&mut output, &report.dtype_breakdown);
    output.append("\n");
    output.append("Tensors:\n");
    append_tensors_section(&mut output, &report.tensors);
    output
}

} // verus!
