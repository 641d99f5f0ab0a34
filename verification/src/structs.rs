//! The data model of the translation core: one incoming metric-stream
//! record, its dimension map, and the inbound batch envelope. All values are
//! plain; the aggregate values of a record are carried as IEEE 754 bit
//! patterns so that the core itself stays free of floating point.

use vstd::prelude::*;
use vstd::string::StringExecFns;
use crate::schema::{canonical_label, canonicalize_label};
use crate::units::MetricUnit;

verus! {

/// The raw dimension key/value pairs of one record. Keys are unordered and
/// unique, as in the map the record was parsed from; `insert` replaces the
/// value of a key that is already present.
#[derive(Debug)]
pub struct DimensionMap {
    entries: Vec<(String, String)>,
}

impl View for DimensionMap {
    type V = Seq<(Seq<char>, Seq<char>)>;

    closed spec fn view(&self) -> Seq<(Seq<char>, Seq<char>)> {
        self.entries.deep_view()
    }
}

impl Clone for DimensionMap {
    fn clone(&self) -> (r: Self)
        ensures
            r@ == self@,
    {
        let mut entries: Vec<(String, String)> = Vec::new();
        let mut i: usize = 0;
        while i < self.entries.len()
            invariant
                i <= self.entries.len(),
                entries@.len() == i,
                forall|j: int|
                    0 <= j < i ==> #[trigger] entries@[j].0@ == self.entries@[j].0@
                        && entries@[j].1@ == self.entries@[j].1@,
            decreases self.entries.len() - i,
        {
            let k = self.entries[i].0.clone();
            let v = self.entries[i].1.clone();
            entries.push((k, v));
            i = i + 1;
        }
        proof {
            assert forall|j: int|
                0 <= j < entries@.len() implies #[trigger] entries.deep_view()[j]
                == self.entries.deep_view()[j] by {
                assert(entries.deep_view()[j] == (entries@[j].0@, entries@[j].1@));
                assert(self.entries.deep_view()[j]
                    == (self.entries@[j].0@, self.entries@[j].1@));
            }
            assert(entries.deep_view() =~= self.entries.deep_view());
        }
        DimensionMap { entries }
    }
}

/// The first index holding key `k`, or the length when `k` is absent.
pub open spec fn dim_find(es: Seq<(Seq<char>, Seq<char>)>, k: Seq<char>, from: int) -> int
    decreases es.len() - from
        when 0 <= from <= es.len()
{
    if from >= es.len() {
        es.len() as int
    } else if es[from].0 == k {
        from
    } else {
        dim_find(es, k, from + 1)
    }
}

/// The joined `key=value` rendering of the entries, separated by commas.
pub open spec fn kv_join(es: Seq<(Seq<char>, Seq<char>)>) -> Seq<char>
    decreases es.len(),
{
    if es.len() == 0 {
        Seq::empty()
    } else if es.len() == 1 {
        es[0].0 + "="@ + es[0].1
    } else {
        kv_join(es.drop_last()) + ","@ + es.last().0 + "="@ + es.last().1
    }
}

impl DimensionMap {
    /// An empty dimension map.
    pub fn new() -> (r: DimensionMap)
        ensures
            r@ == Seq::<(Seq<char>, Seq<char>)>::empty(),
    {
        DimensionMap { entries: Vec::new() }
    }

    /// The number of entries.
    pub fn len(&self) -> (r: usize)
        ensures
            r == self@.len(),
    {
        self.entries.len()
    }

    /// The entry at position `i`.
    pub fn entry_at(&self, i: usize) -> (r: &(String, String))
        requires
            i < self@.len(),
        ensures
            r.0@ == self@[i as int].0,
            r.1@ == self@[i as int].1,
    {
        &self.entries[i]
    }

    /// Adds a key/value pair; a key already present has its value replaced,
    /// as in the map the record carries.
    pub fn insert(&mut self, k: String, v: String)
        ensures
            final(self)@ == (if dim_find(old(self)@, k@, 0) < old(self)@.len() {
                old(self)@.update(dim_find(old(self)@, k@, 0), (k@, v@))
            } else {
                old(self)@.push((k@, v@))
            }),
    {
        let mut i: usize = 0;
        while i < self.entries.len()
            invariant
                i <= self.entries.len(),
                self@ == old(self)@,
                dim_find(old(self)@, k@, 0) == dim_find(old(self)@, k@, i as int),
            decreases self.entries.len() - i,
        {
            proof {
                assert(self@[i as int].0 == self.entries@[i as int].0@);
            }
            if str_eq_pair(&self.entries[i].0, &k) {
                proof {
                    assert(dim_find(old(self)@, k@, i as int) == i as int);
                }
                self.entries[i] = (k, v);
                proof {
                    assert(self@ =~= old(self)@.update(i as int, (k@, v@)));
                }
                return ;
            }
            proof {
                assert(dim_find(old(self)@, k@, i as int) == dim_find(old(self)@, k@, i + 1));
            }
            i = i + 1;
        }
        self.entries.push((k, v));
        proof {
            assert(dim_find(old(self)@, k@, 0) == old(self)@.len());
            assert(self@ =~= old(self)@.push((k@, v@)));
        }
    }

    /// Renders the entries as `key=value` pairs joined with commas, in the
    /// stored order.
    pub fn to_kv(&self) -> (r: String)
        ensures
            r@ == kv_join(self@),
    {
        let mut out = String::new();
        let mut i: usize = 0;
        while i < self.entries.len()
            invariant
                i <= self.entries.len(),
                self@.len() == self.entries@.len(),
                out@ == kv_join(self@.subrange(0, i as int)),
                forall|j: int|
                    0 <= j < self@.len() ==> #[trigger] self@[j]
                        == (self.entries@[j].0@, self.entries@[j].1@),
            decreases self.entries.len() - i,
        {
            if i > 0 {
                out.append(",");
            }
            out.append(self.entries[i].0.as_str());
            out.append("=");
            out.append(self.entries[i].1.as_str());
            proof {
                let pre = self@.subrange(0, i as int);
                let post = self@.subrange(0, i + 1);
                assert(post.drop_last() =~= pre);
                assert(post.last() == self@[i as int]);
                if i == 0 {
                    assert(out@ =~= kv_join(post));
                } else {
                    assert(out@ =~= kv_join(pre) + ","@ + post.last().0 + "="@ + post.last().1);
                }
            }
            i = i + 1;
        }
        proof {
            assert(self@.subrange(0, self@.len() as int) =~= self@);
        }
        out
    }

    /// Canonicalizes every entry's key, pairing it with the entry's value,
    /// in the stored order.
    pub fn to_labels_values(&self) -> (r: Vec<LabelsValues>)
        ensures
            r@.len() == self@.len(),
            forall|i: int|
                0 <= i < r@.len() ==> (#[trigger] r@[i]).key@ == canonical_label(self@[i].0)
                    && r@[i].value@ == self@[i].1,
    {
        let mut out: Vec<LabelsValues> = Vec::new();
        let mut i: usize = 0;
        while i < self.entries.len()
            invariant
                i <= self.entries.len(),
                self@.len() == self.entries@.len(),
                out@.len() == i,
                forall|j: int|
                    0 <= j < self@.len() ==> #[trigger] self@[j]
                        == (self.entries@[j].0@, self.entries@[j].1@),
                forall|j: int|
                    0 <= j < i ==> (#[trigger] out@[j]).key@ == canonical_label(self@[j].0)
                        && out@[j].value@ == self@[j].1,
            decreases self.entries.len() - i,
        {
            let key = canonicalize_label(self.entries[i].0.as_str());
            let value = self.entries[i].1.clone();
            out.push(LabelsValues { key, value });
            proof {
                assert(self@[i as int] == (self.entries@[i as int].0@, self.entries@[i as int].1@));
                assert(out@[i as int].key@ == canonical_label(self@[i as int].0));
                assert(out@[i as int].value@ == self@[i as int].1);
            }
            i = i + 1;
        }
        out
    }
}

/// Compares two owned strings character by character.
fn str_eq_pair(a: &String, b: &String) -> (r: bool)
    ensures
        r == (a@ == b@),
{
    crate::text::str_eq(a.as_str(), b.as_str())
}

/// One resolved label: a canonical label name and the value it carries.
#[derive(Debug)]
pub struct LabelsValues {
    pub key: String,
    pub value: String,
}

impl Clone for LabelsValues {
    fn clone(&self) -> (r: Self)
        ensures
            r.key@ == self.key@,
            r.value@ == self.value@,
    {
        LabelsValues { key: self.key.clone(), value: self.value.clone() }
    }
}

/// The aggregate values of one record. Each aggregate is optional; a present
/// value is the bit pattern of the IEEE 754 double the storage backend will
/// receive, converted at the process edge.
#[derive(Clone, Copy, Debug, PartialEq, Eq, Structural)]
pub struct MetricValue {
    pub max: Option<u64>,
    pub min: Option<u64>,
    pub sum: Option<u64>,
    pub count: Option<u64>,
}

/// One incoming metric-stream record, parsed from a single JSON line by the
/// ingestion front door.
#[derive(Clone, Debug)]
pub struct CloudWatchMetric {
    pub metric_stream_name: String,
    pub account_id: String,
    pub region: String,
    pub namespace: String,
    pub metric_name: String,
    pub dimensions: DimensionMap,
    pub timestamp: i64,
    pub value: MetricValue,
    pub unit: MetricUnit,
}

#[verifier::ext_equal]
pub ghost struct MetricRecordV {
    pub metric_stream_name: Seq<char>,
    pub account_id: Seq<char>,
    pub region: Seq<char>,
    pub namespace: Seq<char>,
    pub metric_name: Seq<char>,
    pub dimensions: Seq<(Seq<char>, Seq<char>)>,
    pub timestamp: int,
    pub value: MetricValue,
    pub unit: MetricUnit,
}

impl View for CloudWatchMetric {
    type V = MetricRecordV;

    open spec fn view(&self) -> MetricRecordV {
        MetricRecordV {
            metric_stream_name: self.metric_stream_name@,
            account_id: self.account_id@,
            region: self.region@,
            namespace: self.namespace@,
            metric_name: self.metric_name@,
            dimensions: self.dimensions@,
            timestamp: self.timestamp as int,
            value: self.value,
            unit: self.unit,
        }
    }
}

/// One base64-wrapped record of the inbound batch envelope.
#[derive(Clone, Debug)]
pub struct FirehoseData {
    pub data: String,
}

impl View for FirehoseData {
    type V = Seq<char>;

    open spec fn view(&self) -> Seq<char> {
        self.data@
    }
}

impl DeepView for FirehoseData {
    type V = Seq<char>;

    open spec fn deep_view(&self) -> Seq<char> {
        self.data@
    }
}

/// The inbound batch envelope: either base64-wrapped records or an already
/// decoded message, plus identifying metadata the core does not interpret.
#[derive(Debug)]
pub struct Firehose {
    pub message: Option<String>,
    pub records: Option<Vec<FirehoseData>>,
    pub request_id: Option<String>,
    pub source_arn: Option<String>,
    pub source_type: Option<String>,
    pub timestamp: Option<u64>,
}

} // verus!
