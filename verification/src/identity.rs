//! The metric identity builder: derives, from one record and its resolved
//! dimension schema, the deterministic series family name, the stable
//! ordered label list, and the label values of every observation the record
//! yields. Each aggregate present becomes a distinct name-suffixed family —
//! a policy choice over the alternative of one family with an aggregate
//! label.

use vstd::prelude::*;
use vstd::string::{StrSliceExecFns, StringExecFns};
use crate::errors::MetricsError;
use crate::schema::{canonical_label, canonicalize_label, DimensionSchema, strictly_sorted};
use crate::structs::{CloudWatchMetric, MetricRecordV, MetricValue};
use crate::text::{
    clone_string_vec, find_char, find_char_from, lemma_lex_lt_total, lemma_lex_lt_transitive,
    lex_lt, lower_of, lowercase, sanitize_metric_name, sanitized, str_eq,
};
use crate::units::{MetricUnit, unit_suffix};

verus! {

/// The aggregate of a record's value that one observation carries; each
/// aggregate present becomes a distinct name-suffixed series family.
#[derive(Clone, Copy, Debug, PartialEq, Eq, Structural)]
pub enum AggregateKind {
    Max,
    Min,
    Sum,
    Count,
}

/// The family-name suffix of an aggregate.
pub open spec fn aggregate_suffix(k: AggregateKind) -> Seq<char> {
    match k {
        AggregateKind::Max => "_max"@,
        AggregateKind::Min => "_min"@,
        AggregateKind::Sum => "_sum"@,
        AggregateKind::Count => "_count"@,
    }
}

/// One observation the builder derived: everything the registry needs to
/// register the family (once) and record the measurement.
#[derive(Debug)]
pub struct ObservationRequest {
    pub family_name: String,
    pub label_names: Vec<String>,
    pub label_values: Vec<String>,
    pub timestamp_ms: i64,
    pub value_bits: u64,
}

#[verifier::ext_equal]
pub ghost struct ObservationV {
    pub family_name: Seq<char>,
    pub label_names: Seq<Seq<char>>,
    pub label_values: Seq<Seq<char>>,
    pub timestamp_ms: int,
    pub value_bits: u64,
}

impl View for ObservationRequest {
    type V = ObservationV;

    open spec fn view(&self) -> ObservationV {
        ObservationV {
            family_name: self.family_name@,
            label_names: self.label_names.deep_view(),
            label_values: self.label_values.deep_view(),
            timestamp_ms: self.timestamp_ms as int,
            value_bits: self.value_bits,
        }
    }
}

impl DeepView for ObservationRequest {
    type V = ObservationV;

    open spec fn deep_view(&self) -> ObservationV {
        self.view()
    }
}

/// The tail of a namespace: the segment between the first `/` and the next
/// one (or the end), or nothing when the namespace holds no `/`.
pub open spec fn namespace_tail(ns: Seq<char>) -> Option<Seq<char>> {
    let i = find_char(ns, '/', 0);
    if i == ns.len() {
        None
    } else {
        Some(ns.subrange(i + 1, find_char(ns, '/', i + 1)))
    }
}

/// Extracts the namespace tail of a record.
pub fn extract_namespace_tail(ns: &str) -> (r: Option<String>)
    ensures
        match r {
            Some(t) => namespace_tail(ns@) == Some(t@),
            None => namespace_tail(ns@) is None,
        },
{
    let len = ns.unicode_len();
    let i = find_char_from(ns, '/', 0);
    if i == len {
        None
    } else {
        let j = find_char_from(ns, '/', i + 1);
        let t = ns.substring_char(i + 1, j);
        Some(String::from_str(t))
    }
}

/// The base family name of a record:
/// `{namespace-tail-lowercased}_{sanitized-lowercased-metric-name}_{unit}`.
pub open spec fn family_base_name(r: MetricRecordV) -> Seq<char>
    recommends
        namespace_tail(r.namespace) is Some,
{
    lower_of(namespace_tail(r.namespace).unwrap()) + "_"@ + sanitized(lower_of(r.metric_name))
        + "_"@ + unit_suffix(r.unit)
}

/// The full family name of one observation: the base name plus the
/// aggregate's suffix.
pub open spec fn family_name(r: MetricRecordV, k: AggregateKind) -> Seq<char> {
    family_base_name(r) + aggregate_suffix(k)
}

/// Builds the base family name of a record, or nothing when the namespace
/// holds no tail to derive it from.
pub fn build_family_base(record: &CloudWatchMetric) -> (r: Option<String>)
    ensures
        match r {
            Some(s) => namespace_tail(record@.namespace) is Some && s@ == family_base_name(
                record@,
            ),
            None => namespace_tail(record@.namespace) is None,
        },
{
    let tail_opt = extract_namespace_tail(record.namespace.as_str());
    match tail_opt {
        None => None,
        Some(tail) => {
            let mut name = lowercase(tail.as_str());
            name.append("_");
            let ml = lowercase(record.metric_name.as_str());
            let sm = sanitize_metric_name(ml);
            name.append(sm.as_str());
            name.append("_");
            let sfx = record.unit.suffix();
            name.append(sfx.as_str());
            proof {
                assert(name@ =~= family_base_name(record@));
            }
            Some(name)
        },
    }
}

/// Inserts a label name into a strictly sorted sequence, keeping it sorted
/// and deduplicated.
pub open spec fn spec_insert_sorted(s: Seq<Seq<char>>, l: Seq<char>) -> Seq<Seq<char>>
    decreases s.len(),
{
    if s.len() == 0 {
        seq![l]
    } else if s[0] == l {
        s
    } else if lex_lt(s[0], l) {
        seq![s[0]] + spec_insert_sorted(s.drop_first(), l)
    } else {
        seq![l] + s
    }
}

pub proof fn lemma_spec_insert_sorted_props(s: Seq<Seq<char>>, l: Seq<char>)
    requires
        strictly_sorted(s),
    ensures
        strictly_sorted(spec_insert_sorted(s, l)),
        spec_insert_sorted(s, l).contains(l),
        forall|m: Seq<char>| spec_insert_sorted(s, l).contains(m) <==> (s.contains(m) || m == l),
    decreases s.len(),
{
    let out = spec_insert_sorted(s, l);
    if s.len() == 0 {
        assert(out[0] == l);
        assert(out.contains(l));
        assert forall|m: Seq<char>| out.contains(m) <==> (s.contains(m) || m == l) by {
            if out.contains(m) {
                let i = choose|i: int| 0 <= i < out.len() && out[i] == m;
                assert(i == 0);
            }
        }
    } else if s[0] == l {
        assert(out[0] == l);
        assert(out.contains(l));
        assert(s.contains(l));
    } else if lex_lt(s[0], l) {
        let st = s.drop_first();
        assert forall|p: int, q: int| 0 <= p < q < st.len() implies lex_lt(st[p], st[q]) by {
            assert(st[p] == s[p + 1] && st[q] == s[q + 1]);
        }
        lemma_spec_insert_sorted_props(st, l);
        let rec = spec_insert_sorted(st, l);
        assert(out == seq![s[0]] + rec);
        assert(out.len() == rec.len() + 1);
        assert(out.contains(l)) by {
            let w = choose|w: int| 0 <= w < rec.len() && rec[w] == l;
            assert(out[w + 1] == l);
        }
        assert forall|p: int, q: int| 0 <= p < q < out.len() implies lex_lt(out[p], out[q]) by {
            if p == 0 {
                assert(out[q] == rec[q - 1]);
                assert(rec.contains(rec[q - 1]));
                if st.contains(rec[q - 1]) {
                    let w = choose|w: int| 0 <= w < st.len() && st[w] == rec[q - 1];
                    assert(s[w + 1] == rec[q - 1]);
                    assert(lex_lt(s[0], s[w + 1]));
                } else {
                    assert(rec[q - 1] == l);
                }
            } else {
                assert(out[p] == rec[p - 1] && out[q] == rec[q - 1]);
            }
        }
        assert forall|m: Seq<char>| out.contains(m) <==> (s.contains(m) || m == l) by {
            if out.contains(m) {
                let i = choose|i: int| 0 <= i < out.len() && out[i] == m;
                if i == 0 {
                    assert(s[0] == m);
                    assert(s.contains(m));
                } else {
                    assert(rec[i - 1] == m);
                    assert(rec.contains(m));
                    if st.contains(m) {
                        let w = choose|w: int| 0 <= w < st.len() && st[w] == m;
                        assert(s[w + 1] == m);
                        assert(s.contains(m));
                    }
                }
            }
            if s.contains(m) {
                let i = choose|i: int| 0 <= i < s.len() && s[i] == m;
                if i == 0 {
                    assert(out[0] == m);
                } else {
                    assert(st[i - 1] == m);
                    assert(st.contains(m));
                    assert(rec.contains(m));
                    let w = choose|w: int| 0 <= w < rec.len() && rec[w] == m;
                    assert(out[w + 1] == m);
                }
                assert(out.contains(m));
            }
            if m == l {
                assert(rec.contains(l));
                let w = choose|w: int| 0 <= w < rec.len() && rec[w] == l;
                assert(out[w + 1] == m);
                assert(out.contains(m));
            }
        }
    } else {
        lemma_lex_lt_total(s[0], l);
        assert(lex_lt(l, s[0]));
        assert(out == seq![l] + s);
        assert(out[0] == l);
        assert(out.contains(l));
        assert forall|p: int, q: int| 0 <= p < q < out.len() implies lex_lt(out[p], out[q]) by {
            if p == 0 {
                assert(out[q] == s[q - 1]);
                if q - 1 > 0 {
                    assert(lex_lt(s[0], s[q - 1]));
                    lemma_lex_lt_transitive(l, s[0], s[q - 1]);
                }
            } else {
                assert(out[p] == s[p - 1] && out[q] == s[q - 1]);
            }
        }
        assert forall|m: Seq<char>| out.contains(m) <==> (s.contains(m) || m == l) by {
            if out.contains(m) {
                let i = choose|i: int| 0 <= i < out.len() && out[i] == m;
                if i > 0 {
                    assert(s[i - 1] == m);
                    assert(s.contains(m));
                }
            }
            if s.contains(m) {
                let i = choose|i: int| 0 <= i < s.len() && s[i] == m;
                assert(out[i + 1] == m);
                assert(out.contains(m));
            }
            if m == l {
                assert(out[0] == m);
                assert(out.contains(m));
            }
        }
    }
}

/// The stable ordered label list of a family: the fixed labels and the
/// schema's dimension labels, sorted lexicographically and deduplicated.
pub open spec fn ordered_union(schema: Seq<Seq<char>>) -> Seq<Seq<char>> {
    spec_insert_sorted(
        spec_insert_sorted(spec_insert_sorted(schema, "account_id"@), "metric_stream_name"@),
        "region"@,
    )
}

/// Builds the ordered label list of a family from its resolved schema.
pub fn build_ordered_labels(schema: &DimensionSchema) -> (r: Vec<String>)
    requires
        schema.wf(),
    ensures
        r.deep_view() == ordered_union(schema@),
        strictly_sorted(r.deep_view()),
{
    let mut labels: Vec<String> = Vec::new();
    let n = schema.len();
    let mut i: usize = 0;
    while i < n
        invariant
            i <= n,
            n == schema@.len(),
            schema.wf(),
            labels@.len() == i,
            forall|j: int| 0 <= j < i ==> #[trigger] labels@[j]@ == schema@[j],
        decreases n - i,
    {
        let l = schema.label_at(i).clone();
        labels.push(l);
        i = i + 1;
    }
    proof {
        assert forall|j: int|
            0 <= j < labels@.len() implies #[trigger] labels.deep_view()[j] == schema@[j] by {
            assert(labels@[j]@ == schema@[j]);
        }
        assert(labels.deep_view() =~= schema@);
    }
    crate::schema::insert_label_sorted(&mut labels, String::from_str("account_id"));
    crate::schema::insert_label_sorted(&mut labels, String::from_str("metric_stream_name"));
    crate::schema::insert_label_sorted(&mut labels, String::from_str("region"));
    proof {
        let s0 = schema@;
        let s1 = spec_insert_sorted(s0, "account_id"@);
        let s2 = spec_insert_sorted(s1, "metric_stream_name"@);
        let s3 = spec_insert_sorted(s2, "region"@);
        lemma_spec_insert_sorted_props(s0, "account_id"@);
        lemma_spec_insert_sorted_props(s1, "metric_stream_name"@);
        lemma_spec_insert_sorted_props(s2, "region"@);
        crate::schema::lemma_sorted_unique(labels.deep_view(), s3);
    }
    labels
}

/// The value of the dimension whose canonical label is `label`, taking the
/// last matching entry (a later entry overwrites an earlier one), or the
/// empty string when no entry matches.
pub open spec fn dim_lookup(dims: Seq<(Seq<char>, Seq<char>)>, label: Seq<char>) -> Seq<char>
    decreases dims.len(),
{
    if dims.len() == 0 {
        Seq::empty()
    } else if canonical_label(dims.last().0) == label {
        dims.last().1
    } else {
        dim_lookup(dims.drop_last(), label)
    }
}

/// Whether some dimension of the record canonicalizes to `label`.
pub open spec fn dim_has(dims: Seq<(Seq<char>, Seq<char>)>, label: Seq<char>) -> bool {
    exists|i: int| 0 <= i < dims.len() && canonical_label((#[trigger] dims[i]).0) == label
}

/// The value a label carries in an observation of the record: the matching
/// dimension's value when one exists, else the record's fixed field for the
/// three fixed labels, else empty.
pub open spec fn label_value_for(r: MetricRecordV, label: Seq<char>) -> Seq<char> {
    if dim_has(r.dimensions, label) {
        dim_lookup(r.dimensions, label)
    } else if label == "metric_stream_name"@ {
        r.metric_stream_name
    } else if label == "account_id"@ {
        r.account_id
    } else if label == "region"@ {
        r.region
    } else {
        Seq::empty()
    }
}

/// Looks up the value one label carries in an observation of the record.
#[verifier::loop_isolation(false)]
pub fn lookup_label_value(record: &CloudWatchMetric, label: &String) -> (v: String)
    ensures
        v@ == label_value_for(record@, label@),
{
    let dims = &record.dimensions;
    let n = dims.len();
    let mut found: Option<String> = None;
    let mut i: usize = 0;
    while i < n
        invariant
            i <= n,
            match found {
                Some(v) => dim_has(record@.dimensions.subrange(0, i as int), label@) && v@
                    == dim_lookup(record@.dimensions.subrange(0, i as int), label@),
                None => !dim_has(record@.dimensions.subrange(0, i as int), label@),
            },
        decreases n - i,
    {
        let e = dims.entry_at(i);
        let c = canonicalize_label(e.0.as_str());
        proof {
            let pre = record@.dimensions.subrange(0, i as int);
            let post = record@.dimensions.subrange(0, i + 1);
            assert(post.drop_last() =~= pre);
            assert(post.last() == record@.dimensions[i as int]);
            assert forall|p: int|
                0 <= p < post.len() implies #[trigger] post[p] == record@.dimensions[p] by {}
            if dim_has(pre, label@) {
                let w = choose|w: int|
                    0 <= w < pre.len() && canonical_label((#[trigger] pre[w]).0) == label@;
                assert(canonical_label(post[w].0) == label@);
                assert(dim_has(post, label@));
            }
        }
        if str_eq(c.as_str(), label.as_str()) {
            found = Some(e.1.clone());
            proof {
                let post = record@.dimensions.subrange(0, i + 1);
                assert(canonical_label(post[i as int].0) == label@);
                assert(dim_has(post, label@));
            }
        } else {
            proof {
                let pre = record@.dimensions.subrange(0, i as int);
                let post = record@.dimensions.subrange(0, i + 1);
                if dim_has(post, label@) {
                    let w = choose|w: int|
                        0 <= w < post.len() && canonical_label((#[trigger] post[w]).0) == label@;
                    assert(w < i);
                    assert(pre[w] == post[w]);
                    assert(dim_has(pre, label@));
                }
            }
        }
        i = i + 1;
    }
    proof {
        assert(record@.dimensions.subrange(0, n as int) =~= record@.dimensions);
    }
    match found {
        Some(v) => v,
        None => {
            if str_eq(label.as_str(), "metric_stream_name") {
                record.metric_stream_name.clone()
            } else if str_eq(label.as_str(), "account_id") {
                record.account_id.clone()
            } else if str_eq(label.as_str(), "region") {
                record.region.clone()
            } else {
                String::new()
            }
        },
    }
}

/// Builds the ordered label values of an observation: one value per ordered
/// label name, in that exact order.
pub fn build_label_values(record: &CloudWatchMetric, ordered_labels: &Vec<String>) -> (r: Vec<
    String,
>)
    ensures
        r.deep_view() == Seq::new(
            ordered_labels.deep_view().len(),
            |i: int| label_value_for(record@, ordered_labels.deep_view()[i]),
        ),
{
    let mut out: Vec<String> = Vec::new();
    let mut i: usize = 0;
    while i < ordered_labels.len()
        invariant
            i <= ordered_labels.len(),
            out@.len() == i,
            forall|j: int|
                0 <= j < i ==> #[trigger] out@[j]@ == label_value_for(
                    record@,
                    ordered_labels.deep_view()[j],
                ),
        decreases ordered_labels.len() - i,
    {
        let v = lookup_label_value(record, &ordered_labels[i]);
        out.push(v);
        proof {
            assert(ordered_labels.deep_view()[i as int] == ordered_labels@[i as int]@);
        }
        i = i + 1;
    }
    proof {
        let target = Seq::new(
            ordered_labels.deep_view().len(),
            |i: int| label_value_for(record@, ordered_labels.deep_view()[i]),
        );
        assert forall|j: int|
            0 <= j < out@.len() implies #[trigger] out.deep_view()[j] == target[j] by {
            assert(out@[j]@ == label_value_for(record@, ordered_labels.deep_view()[j]));
        }
        assert(out.deep_view() =~= target);
    }
    out
}

/// The aggregates present in a record's value, in the fixed order max, min,
/// sum, count, each with the bit pattern it carries.
pub open spec fn spec_aggregates(v: MetricValue) -> Seq<(AggregateKind, u64)> {
    (if v.max is Some {
        seq![(AggregateKind::Max, v.max.unwrap())]
    } else {
        Seq::empty()
    }) + (if v.min is Some {
        seq![(AggregateKind::Min, v.min.unwrap())]
    } else {
        Seq::empty()
    }) + (if v.sum is Some {
        seq![(AggregateKind::Sum, v.sum.unwrap())]
    } else {
        Seq::empty()
    }) + (if v.count is Some {
        seq![(AggregateKind::Count, v.count.unwrap())]
    } else {
        Seq::empty()
    })
}

/// The observation one aggregate of a record yields, under the family's
/// ordered labels.
pub open spec fn spec_observation(
    r: MetricRecordV,
    ordered: Seq<Seq<char>>,
    k: AggregateKind,
    bits: u64,
) -> ObservationV {
    ObservationV {
        family_name: family_name(r, k),
        label_names: ordered,
        label_values: Seq::new(ordered.len(), |i: int| label_value_for(r, ordered[i])),
        timestamp_ms: r.timestamp,
        value_bits: bits,
    }
}

/// The raw dimension keys of a record whose canonical label is not among
/// the family's ordered labels: such a dimension is dropped from the
/// observation, never silently appended.
pub open spec fn dropped_dims(
    dims: Seq<(Seq<char>, Seq<char>)>,
    labels: Seq<Seq<char>>,
) -> Seq<Seq<char>> {
    dims.map_values(|e: (Seq<char>, Seq<char>)| e.0).filter(
        |k: Seq<char>| !labels.contains(canonical_label(k)),
    )
}

proof fn lemma_dropped_dims_push(
    dims: Seq<(Seq<char>, Seq<char>)>,
    e: (Seq<char>, Seq<char>),
    labels: Seq<Seq<char>>,
)
    ensures
        dropped_dims(dims.push(e), labels) == if !labels.contains(canonical_label(e.0)) {
            dropped_dims(dims, labels).push(e.0)
        } else {
            dropped_dims(dims, labels)
        },
{
    reveal(Seq::filter);
    let m0 = dims.map_values(|d: (Seq<char>, Seq<char>)| d.0);
    let m1 = dims.push(e).map_values(|d: (Seq<char>, Seq<char>)| d.0);
    assert(m1 =~= m0.push(e.0));
    assert(m1.drop_last() =~= m0);
    assert(m1.last() == e.0);
}

/// Lists the raw dimension keys of the record that are dropped from its
/// observations because their canonical label is not among the ordered
/// labels — for the caller to warn about.
#[verifier::loop_isolation(false)]
pub fn dropped_dimensions(record: &CloudWatchMetric, ordered_labels: &Vec<String>) -> (r: Vec<
    String,
>)
    ensures
        r.deep_view() == dropped_dims(record@.dimensions, ordered_labels.deep_view()),
{
    let dims = &record.dimensions;
    let n = dims.len();
    let mut out: Vec<String> = Vec::new();
    let mut i: usize = 0;
    while i < n
        invariant
            i <= n,
            n == record@.dimensions.len(),
            out.deep_view() == dropped_dims(
                record@.dimensions.subrange(0, i as int),
                ordered_labels.deep_view(),
            ),
        decreases n - i,
    {
        let e = dims.entry_at(i);
        let c = canonicalize_label(e.0.as_str());
        let keep_out = !crate::text::vec_contains_str(ordered_labels, c.as_str());
        if keep_out {
            out.push(e.0.clone());
        }
        proof {
            let pre = record@.dimensions.subrange(0, i as int);
            let post = record@.dimensions.subrange(0, i + 1);
            assert(post =~= pre.push(record@.dimensions[i as int]));
            lemma_dropped_dims_push(
                pre,
                record@.dimensions[i as int],
                ordered_labels.deep_view(),
            );
            if keep_out {
                assert(out.deep_view() =~= dropped_dims(pre, ordered_labels.deep_view()).push(
                    record@.dimensions[i as int].0,
                ));
            }
        }
        i = i + 1;
    }
    proof {
        assert(record@.dimensions.subrange(0, n as int) =~= record@.dimensions);
    }
    out
}

/// Label order stability: every observation the builder emits carries
/// exactly one value per ordered label, and the value at each position is
/// the one its label name resolves to — never truncated, padded or
/// reordered. Together with the registry's cardinality check this keeps
/// every series of a family on the label order fixed at registration.
pub proof fn lemma_label_order_stability(
    r: MetricRecordV,
    ordered: Seq<Seq<char>>,
    k: AggregateKind,
    bits: u64,
)
    ensures
        ({
            let o = spec_observation(r, ordered, k, bits);
            o.label_values.len() == o.label_names.len() && (forall|i: int|
                0 <= i < o.label_names.len() ==> o.label_values[i] == label_value_for(
                    r,
                    o.label_names[i],
                ))
        }),
{
}

/// What the builder yields for one record and its resolved schema: one
/// observation per aggregate present, or the error that drops the record. A
/// record with zero aggregates yields zero observations, which is not an
/// error.
pub open spec fn spec_build(r: MetricRecordV, schema: Seq<Seq<char>>) -> Result<
    Seq<ObservationV>,
    MetricsError,
> {
    if r.unit is Unknown {
        Result::Err(MetricsError::UnknownUnit)
    } else if namespace_tail(r.namespace) is None {
        Result::Err(MetricsError::MalformedNamespace)
    } else {
        let aggs = spec_aggregates(r.value);
        Result::Ok(
            Seq::new(
                aggs.len(),
                |i: int| spec_observation(r, ordered_union(schema), aggs[i].0, aggs[i].1),
            ),
        )
    }
}

/// Derives every observation a record yields: a record whose unit is
/// outside the enumeration, or whose namespace holds no tail, is rejected
/// with the exact error; otherwise one observation per aggregate present,
/// in the order max, min, sum, count, all sharing one family base name, one
/// ordered label list and one value tuple.
pub fn build_observations(record: &CloudWatchMetric, schema: &DimensionSchema) -> (r: Result<
    Vec<ObservationRequest>,
    MetricsError,
>)
    requires
        schema.wf(),
    ensures
        match r {
            Ok(reqs) => spec_build(record@, schema@) == Result::<Seq<ObservationV>, MetricsError>::Ok(
                reqs.deep_view(),
            ),
            Err(e) => spec_build(record@, schema@) == Result::<
                Seq<ObservationV>,
                MetricsError,
            >::Err(e),
        },
{
    if !record.unit.is_known() {
        return Err(MetricsError::UnknownUnit);
    }
    let base = match build_family_base(record) {
        None => {
            return Err(MetricsError::MalformedNamespace);
        },
        Some(b) => b,
    };
    let ordered = build_ordered_labels(schema);
    let values = build_label_values(record, &ordered);
    let ghost aggs = spec_aggregates(record@.value);
    let ghost target = Seq::new(
        aggs.len(),
        |i: int| spec_observation(record@, ordered_union(schema@), aggs[i].0, aggs[i].1),
    );
    let mut reqs: Vec<ObservationRequest> = Vec::new();
    if let Some(bits) = record.value.max {
        let mut name = base.clone();
        name.append("_max");
        reqs.push(
            ObservationRequest {
                family_name: name,
                label_names: clone_string_vec(&ordered),
                label_values: clone_string_vec(&values),
                timestamp_ms: record.timestamp,
                value_bits: bits,
            },
        );
        proof {
            assert(aggs[reqs@.len() - 1] == (AggregateKind::Max, bits));
            assert(reqs.deep_view()[reqs@.len() - 1] =~= target[reqs@.len() - 1]);
            assert(reqs.deep_view() =~= target.subrange(0, reqs@.len() as int));
        }
    }
    if let Some(bits) = record.value.min {
        let mut name = base.clone();
        name.append("_min");
        let ghost len0 = reqs@.len() as int;
        reqs.push(
            ObservationRequest {
                family_name: name,
                label_names: clone_string_vec(&ordered),
                label_values: clone_string_vec(&values),
                timestamp_ms: record.timestamp,
                value_bits: bits,
            },
        );
        proof {
            assert(aggs[len0] == (AggregateKind::Min, bits));
            assert(reqs.deep_view()[len0] =~= target[len0]);
            assert(reqs.deep_view() =~= target.subrange(0, reqs@.len() as int));
        }
    }
    if let Some(bits) = record.value.sum {
        let mut name = base.clone();
        name.append("_sum");
        let ghost len0 = reqs@.len() as int;
        reqs.push(
            ObservationRequest {
                family_name: name,
                label_names: clone_string_vec(&ordered),
                label_values: clone_string_vec(&values),
                timestamp_ms: record.timestamp,
                value_bits: bits,
            },
        );
        proof {
            assert(aggs[len0] == (AggregateKind::Sum, bits));
            assert(reqs.deep_view()[len0] =~= target[len0]);
            assert(reqs.deep_view() =~= target.subrange(0, reqs@.len() as int));
        }
    }
    if let Some(bits) = record.value.count {
        let mut name = base.clone();
        name.append("_count");
        let ghost len0 = reqs@.len() as int;
        reqs.push(
            ObservationRequest {
                family_name: name,
                label_names: clone_string_vec(&ordered),
                label_values: clone_string_vec(&values),
                timestamp_ms: record.timestamp,
                value_bits: bits,
            },
        );
        proof {
            assert(aggs[len0] == (AggregateKind::Count, bits));
            assert(reqs.deep_view()[len0] =~= target[len0]);
            assert(reqs.deep_view() =~= target.subrange(0, reqs@.len() as int));
        }
    }
    proof {
        assert(reqs@.len() == aggs.len());
        assert(reqs.deep_view() =~= target);
    }
    Ok(reqs)
}

} // verus!
