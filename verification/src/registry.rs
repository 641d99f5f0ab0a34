//! The series registry: at most one registered collector per series family,
//! a label order fixed at registration, and gauge-style last-write-wins
//! observations under exact label-value tuples.

use vstd::prelude::*;
use crate::errors::MetricsError;
use crate::text::{clone_string_vec, str_eq};

verus! {

/// One recorded measurement of a series: the label values that identify the
/// series inside its family, the source timestamp in milliseconds, and the
/// gauge value as an IEEE 754 bit pattern.
#[derive(Debug)]
pub struct Sample {
    pub label_values: Vec<String>,
    pub timestamp_ms: i64,
    pub value_bits: u64,
}

#[verifier::ext_equal]
pub ghost struct SampleV {
    pub label_values: Seq<Seq<char>>,
    pub timestamp_ms: int,
    pub value_bits: u64,
}

impl View for Sample {
    type V = SampleV;

    open spec fn view(&self) -> SampleV {
        SampleV {
            label_values: self.label_values.deep_view(),
            timestamp_ms: self.timestamp_ms as int,
            value_bits: self.value_bits,
        }
    }
}

impl DeepView for Sample {
    type V = SampleV;

    open spec fn deep_view(&self) -> SampleV {
        self.view()
    }
}

impl Clone for Sample {
    fn clone(&self) -> (r: Self)
        ensures
            r@ == self@,
    {
        Sample {
            label_values: clone_string_vec(&self.label_values),
            timestamp_ms: self.timestamp_ms,
            value_bits: self.value_bits,
        }
    }
}

/// One series family: its name, the label names fixed at registration, and
/// the samples observed since the last clear.
#[derive(Debug)]
pub struct Collector {
    pub name: String,
    pub label_names: Vec<String>,
    pub samples: Vec<Sample>,
}

#[verifier::ext_equal]
pub ghost struct CollectorV {
    pub name: Seq<char>,
    pub label_names: Seq<Seq<char>>,
    pub samples: Seq<SampleV>,
}

impl View for Collector {
    type V = CollectorV;

    open spec fn view(&self) -> CollectorV {
        CollectorV {
            name: self.name@,
            label_names: self.label_names.deep_view(),
            samples: self.samples.deep_view(),
        }
    }
}

impl DeepView for Collector {
    type V = CollectorV;

    open spec fn deep_view(&self) -> CollectorV {
        self.view()
    }
}

impl Clone for Collector {
    fn clone(&self) -> (r: Self)
        ensures
            r@ == self@,
    {
        let mut samples: Vec<Sample> = Vec::new();
        let mut i: usize = 0;
        while i < self.samples.len()
            invariant
                i <= self.samples.len(),
                samples@.len() == i,
                forall|j: int| 0 <= j < i ==> #[trigger] samples@[j]@ == self.samples@[j]@,
            decreases self.samples.len() - i,
        {
            let s = self.samples[i].clone();
            samples.push(s);
            i = i + 1;
        }
        proof {
            assert forall|j: int|
                0 <= j < samples@.len() implies #[trigger] samples.deep_view()[j]
                == self.samples.deep_view()[j] by {
                assert(samples@[j]@ == self.samples@[j]@);
            }
            assert(samples.deep_view() =~= self.samples.deep_view());
        }
        Collector {
            name: self.name.clone(),
            label_names: clone_string_vec(&self.label_names),
            samples,
        }
    }
}

/// Compares two vectors of strings for equality of their character
/// sequences.
pub fn string_vecs_equal(a: &Vec<String>, b: &Vec<String>) -> (r: bool)
    ensures
        r == (a.deep_view() == b.deep_view()),
{
    if a.len() != b.len() {
        proof {
            assert(a.deep_view().len() != b.deep_view().len());
        }
        return false;
    }
    let mut i: usize = 0;
    while i < a.len()
        invariant
            i <= a.len(),
            a@.len() == b@.len(),
            forall|j: int| 0 <= j < i ==> #[trigger] a.deep_view()[j] == b.deep_view()[j],
        decreases a.len() - i,
    {
        if !str_eq(a[i].as_str(), b[i].as_str()) {
            proof {
                assert(a.deep_view()[i as int] != b.deep_view()[i as int]);
            }
            return false;
        }
        i = i + 1;
    }
    proof {
        assert(a.deep_view() =~= b.deep_view());
    }
    true
}

/// The last-write-wins observation map held by a sequence of samples: each
/// label-value tuple is bound to the timestamp and value that arrived last.
pub open spec fn samples_map(ss: Seq<SampleV>) -> Map<Seq<Seq<char>>, (int, u64)>
    decreases ss.len(),
{
    if ss.len() == 0 {
        Map::empty()
    } else {
        samples_map(ss.drop_last()).insert(
            ss.last().label_values,
            (ss.last().timestamp_ms, ss.last().value_bits),
        )
    }
}

/// The index of the first sample with the given label-value tuple at or
/// after `from`, or the number of samples when the tuple is new.
pub open spec fn sample_find(ss: Seq<SampleV>, lv: Seq<Seq<char>>, from: int) -> int
    decreases ss.len() - from
        when 0 <= from <= ss.len()
{
    if from >= ss.len() {
        ss.len() as int
    } else if ss[from].label_values == lv {
        from
    } else {
        sample_find(ss, lv, from + 1)
    }
}

pub proof fn lemma_sample_find_unique(ss: Seq<SampleV>, lv: Seq<Seq<char>>, f: int)
    requires
        0 <= f <= ss.len(),
        forall|j: int| 0 <= j < f ==> (#[trigger] ss[j]).label_values != lv,
        f < ss.len() ==> ss[f].label_values == lv,
    ensures
        sample_find(ss, lv, 0) == f,
{
    lemma_sample_find_step(ss, lv, 0, f);
}

proof fn lemma_sample_find_step(ss: Seq<SampleV>, lv: Seq<Seq<char>>, from: int, f: int)
    requires
        0 <= from <= f <= ss.len(),
        forall|j: int| from <= j < f ==> (#[trigger] ss[j]).label_values != lv,
        f < ss.len() ==> ss[f].label_values == lv,
    ensures
        sample_find(ss, lv, from) == f,
    decreases f - from,
{
    if from < f {
        lemma_sample_find_step(ss, lv, from + 1, f);
    }
}

/// The samples after one observation of the tuple `lv`: the first sample
/// with that tuple is overwritten, or a new sample is appended when the
/// tuple was not yet observed.
pub open spec fn spec_observe_samples(
    ss: Seq<SampleV>,
    lv: Seq<Seq<char>>,
    ts: int,
    bits: u64,
) -> Seq<SampleV> {
    let f = sample_find(ss, lv, 0);
    let sv = SampleV { label_values: lv, timestamp_ms: ts, value_bits: bits };
    if f < ss.len() {
        ss.update(f, sv)
    } else {
        ss.push(sv)
    }
}

/// A collector is well formed when its sample tuples are unique and every
/// sample carries exactly one value per registered label.
pub open spec fn collector_wf(c: CollectorV) -> bool {
    &&& forall|i: int, j: int|
        0 <= i < j < c.samples.len() ==> (#[trigger] c.samples[i]).label_values != (
        #[trigger] c.samples[j]).label_values
    &&& forall|i: int|
        0 <= i < c.samples.len() ==> (#[trigger] c.samples[i]).label_values.len()
            == c.label_names.len()
}

/// A registry is well formed when family names are unique and every
/// collector is well formed.
pub open spec fn registry_wf(regv: Seq<CollectorV>) -> bool {
    &&& forall|i: int, j: int|
        0 <= i < j < regv.len() ==> (#[trigger] regv[i]).name != (#[trigger] regv[j]).name
    &&& forall|i: int| 0 <= i < regv.len() ==> collector_wf(#[trigger] regv[i])
}

/// The process-wide set of registered collectors, cleared after every push
/// cycle. Callers serialize access; the registry itself is a plain owned
/// value.
#[derive(Debug)]
pub struct Registry {
    pub collectors: Vec<Collector>,
}

impl View for Registry {
    type V = Seq<CollectorV>;

    open spec fn view(&self) -> Seq<CollectorV> {
        self.collectors.deep_view()
    }
}

impl Registry {
    pub open spec fn wf(&self) -> bool {
        registry_wf(self@)
    }

    /// An empty registry: no families, no observations.
    pub fn new() -> (r: Registry)
        ensures
            r@ == Seq::<CollectorV>::empty(),
            r.wf(),
    {
        let r = Registry { collectors: Vec::new() };
        proof {
            assert(r@ =~= Seq::<CollectorV>::empty());
        }
        r
    }
}

/// An immutable copy of all registered families and their observations,
/// taken at the start of a push cycle.
#[derive(Debug)]
pub struct PushSnapshot {
    pub collectors: Vec<Collector>,
}

impl View for PushSnapshot {
    type V = Seq<CollectorV>;

    open spec fn view(&self) -> Seq<CollectorV> {
        self.collectors.deep_view()
    }
}

/// Captures every registered family and its current observations, leaving
/// the registry untouched.
pub fn snapshot(registry: &Registry) -> (r: PushSnapshot)
    ensures
        r@ == registry@,
{
    let mut collectors: Vec<Collector> = Vec::new();
    let mut i: usize = 0;
    while i < registry.collectors.len()
        invariant
            i <= registry.collectors.len(),
            collectors@.len() == i,
            forall|j: int| 0 <= j < i ==> #[trigger] collectors@[j]@ == registry.collectors@[j]@,
        decreases registry.collectors.len() - i,
    {
        let c = registry.collectors[i].clone();
        collectors.push(c);
        i = i + 1;
    }
    proof {
        assert forall|j: int|
            0 <= j < collectors@.len() implies #[trigger] collectors.deep_view()[j]
            == registry.collectors.deep_view()[j] by {
            assert(collectors@[j]@ == registry.collectors@[j]@);
        }
        assert(collectors.deep_view() =~= registry.collectors.deep_view());
    }
    PushSnapshot { collectors }
}

/// The index of the first collector named `name` at or after `from`, or the
/// number of collectors when the family is not registered.
pub open spec fn reg_find(regv: Seq<CollectorV>, name: Seq<char>, from: int) -> int
    decreases regv.len() - from
        when 0 <= from <= regv.len()
{
    if from >= regv.len() {
        regv.len() as int
    } else if regv[from].name == name {
        from
    } else {
        reg_find(regv, name, from + 1)
    }
}

pub proof fn lemma_reg_find_props(regv: Seq<CollectorV>, name: Seq<char>, from: int)
    requires
        0 <= from <= regv.len(),
    ensures
        from <= reg_find(regv, name, from) <= regv.len(),
        forall|j: int| from <= j < reg_find(regv, name, from) ==> (#[trigger] regv[j]).name != name,
        reg_find(regv, name, from) < regv.len() ==> regv[reg_find(regv, name, from)].name == name,
    decreases regv.len() - from,
{
    if from < regv.len() && regv[from].name != name {
        lemma_reg_find_props(regv, name, from + 1);
    }
}

pub proof fn lemma_reg_find_unique(regv: Seq<CollectorV>, name: Seq<char>, f: int)
    requires
        0 <= f <= regv.len(),
        forall|j: int| 0 <= j < f ==> (#[trigger] regv[j]).name != name,
        f < regv.len() ==> regv[f].name == name,
    ensures
        reg_find(regv, name, 0) == f,
{
    lemma_reg_find_step(regv, name, 0, f);
}

proof fn lemma_reg_find_step(regv: Seq<CollectorV>, name: Seq<char>, from: int, f: int)
    requires
        0 <= from <= f <= regv.len(),
        forall|j: int| from <= j < f ==> (#[trigger] regv[j]).name != name,
        f < regv.len() ==> regv[f].name == name,
    ensures
        reg_find(regv, name, from) == f,
    decreases f - from,
{
    if from < f {
        lemma_reg_find_step(regv, name, from + 1, f);
    }
}

/// What registering a family does to the registry: an already-registered
/// name is found and reused, any other name is bound to a fresh collector
/// with the given label order and no samples.
pub open spec fn spec_get_or_register(
    regv: Seq<CollectorV>,
    name: Seq<char>,
    labels: Seq<Seq<char>>,
) -> (Seq<CollectorV>, int) {
    let f = reg_find(regv, name, 0);
    if f < regv.len() {
        (regv, f)
    } else {
        (
            regv.push(CollectorV { name, label_names: labels, samples: Seq::empty() }),
            regv.len() as int,
        )
    }
}

/// At-most-one registration: registering the same family again finds the
/// first registration — it returns the same handle and leaves the registry
/// unchanged, so any number of callers racing on one family name share one
/// collector and one underlying registration.
pub proof fn lemma_at_most_one_registration(
    regv: Seq<CollectorV>,
    name: Seq<char>,
    labels: Seq<Seq<char>>,
)
    ensures
        ({
            let (r1, h1) = spec_get_or_register(regv, name, labels);
            let (r2, h2) = spec_get_or_register(r1, name, labels);
            r2 == r1 && h2 == h1
        }),
{
    lemma_reg_find_props(regv, name, 0);
    let f = reg_find(regv, name, 0);
    if f >= regv.len() {
        let fresh = CollectorV { name, label_names: labels, samples: Seq::empty() };
        let r1 = regv.push(fresh);
        assert forall|j: int| 0 <= j < regv.len() implies (#[trigger] r1[j]).name != name by {
            assert(r1[j] == regv[j]);
        }
        assert(r1[regv.len() as int].name == name);
        lemma_reg_find_unique(r1, name, regv.len() as int);
    }
}

/// Returns the handle of the family named `metric_name`, registering a
/// fresh collector scoped to `ordered_labels` when the name is new. The
/// same family name is never registered twice, and a registered family
/// keeps the label order of its first registration. A handle addresses its
/// family until the next clear.
#[verifier::loop_isolation(false)]
pub fn get_or_register_metric(
    registry: &mut Registry,
    metric_name: String,
    ordered_labels: &Vec<String>,
) -> (h: usize)
    requires
        old(registry).wf(),
    ensures
        final(registry).wf(),
        ({
            let (rv, hs) = spec_get_or_register(
                old(registry)@,
                metric_name@,
                ordered_labels.deep_view(),
            );
            final(registry)@ == rv && h as int == hs
        }),
        h < final(registry)@.len(),
        final(registry)@[h as int].name == metric_name@,
{
    let ghost regv0 = registry@;
    let n = registry.collectors.len();
    let mut i: usize = 0;
    while i < n
        invariant
            i <= n,
            forall|j: int| 0 <= j < i ==> (#[trigger] regv0[j]).name != metric_name@,
        decreases n - i,
    {
        if str_eq(registry.collectors[i].name.as_str(), metric_name.as_str()) {
            proof {
                assert(regv0[i as int].name == metric_name@);
                lemma_reg_find_unique(regv0, metric_name@, i as int);
            }
            return i;
        }
        i = i + 1;
    }
    proof {
        lemma_reg_find_unique(regv0, metric_name@, regv0.len() as int);
    }
    let labels = clone_string_vec(ordered_labels);
    let fresh = Collector { name: metric_name, label_names: labels, samples: Vec::new() };
    registry.collectors.push(fresh);
    proof {
        let freshv = CollectorV {
            name: metric_name@,
            label_names: ordered_labels.deep_view(),
            samples: Seq::empty(),
        };
        assert(registry.collectors@[regv0.len() as int]@ =~= freshv);
        assert forall|j: int|
            0 <= j < registry@.len() implies #[trigger] registry@[j] == regv0.push(freshv)[j] by {
            if j < regv0.len() {
                assert(registry.collectors@[j] == old(registry).collectors@[j]);
            }
        }
        assert(registry@ =~= regv0.push(freshv));
        assert(collector_wf(freshv));
        assert forall|p: int, q: int|
            0 <= p < q < registry@.len() implies (#[trigger] registry@[p]).name != (
        #[trigger] registry@[q]).name by {
            if q < regv0.len() {
                assert(regv0[p].name != regv0[q].name);
            } else {
                assert(regv0[p].name != metric_name@);
            }
        }
    }
    n
}

/// Records one gauge-style measurement for the exact label tuple `values`:
/// a tuple already observed in this cycle is overwritten (last write wins),
/// a new tuple is added. A call whose tuple width differs from the family's
/// registered label count fails with `CardinalityMismatch` and leaves the
/// registry untouched — values are never truncated or padded, so every
/// successful observation supplies exactly one value per registered label,
/// in the registered order.
#[verifier::loop_isolation(false)]
pub fn observe(
    registry: &mut Registry,
    handle: usize,
    values: Vec<String>,
    timestamp_ms: i64,
    value_bits: u64,
) -> (r: Result<(), MetricsError>)
    requires
        old(registry).wf(),
        handle < old(registry)@.len(),
    ensures
        final(registry).wf(),
        final(registry)@.len() == old(registry)@.len(),
        match r {
            Ok(()) => {
                &&& values.deep_view().len() == old(registry)@[handle as int].label_names.len()
                &&& final(registry)@[handle as int].name == old(registry)@[handle as int].name
                &&& final(registry)@[handle as int].label_names == old(
                    registry,
                )@[handle as int].label_names
                &&& samples_map(final(registry)@[handle as int].samples) == samples_map(
                    old(registry)@[handle as int].samples,
                ).insert(values.deep_view(), (timestamp_ms as int, value_bits))
                &&& final(registry)@[handle as int].samples == spec_observe_samples(
                    old(registry)@[handle as int].samples,
                    values.deep_view(),
                    timestamp_ms as int,
                    value_bits,
                )
                &&& forall|j: int|
                    0 <= j < final(registry)@.len() && j != handle
                        ==> final(registry)@[j] == old(registry)@[j]
            },
            Err(e) => {
                &&& final(registry)@ == old(registry)@
                &&& values.deep_view().len() != old(registry)@[handle as int].label_names.len()
                &&& e == (MetricsError::CardinalityMismatch {
                    expected: old(registry)@[handle as int].label_names.len() as usize,
                    got: values@.len() as usize,
                })
            },
        },
{
    let ghost regv0 = registry@;
    let ghost cv0 = registry@[handle as int];
    let ghost vdv = values.deep_view();
    let expected = registry.collectors[handle].label_names.len();
    let got = values.len();
    if got != expected {
        return Err(MetricsError::CardinalityMismatch { expected, got });
    }
    let n = registry.collectors[handle].samples.len();
    let mut j: usize = 0;
    let mut found_idx: Option<usize> = None;
    while j < n
        invariant
            j <= n,
            match found_idx {
                Some(p) => p < j && cv0.samples[p as int].label_values == vdv && (forall|q: int|
                    0 <= q < p ==> (#[trigger] cv0.samples[q]).label_values != vdv),
                None => forall|p: int|
                    0 <= p < j ==> (#[trigger] cv0.samples[p]).label_values != vdv,
            },
        decreases n - j,
    {
        if found_idx.is_none() && string_vecs_equal(
            &registry.collectors[handle].samples[j].label_values,
            &values,
        ) {
            found_idx = Some(j);
        }
        j = j + 1;
    }
    let s = Sample { label_values: values, timestamp_ms, value_bits };
    let ghost sv = SampleV { label_values: vdv, timestamp_ms: timestamp_ms as int, value_bits };
    match found_idx {
        Some(p) => {
            registry.collectors[handle].samples[p] = s;
            proof {
                let cv1 = registry@[handle as int];
                assert(cv1.samples =~= cv0.samples.update(p as int, sv));
                lemma_sample_find_unique(cv0.samples, vdv, p as int);
                assert(cv1.samples == spec_observe_samples(
                    cv0.samples,
                    vdv,
                    timestamp_ms as int,
                    value_bits,
                ));
                assert(sv.label_values == cv0.samples[p as int].label_values);
                lemma_samples_map_update(cv0.samples, p as int, sv);
                assert(collector_wf(cv1));
                lemma_registry_update(regv0, handle as int, cv1);
                assert(registry@ =~= regv0.update(handle as int, cv1));
            }
            Ok(())
        },
        None => {
            registry.collectors[handle].samples.push(s);
            proof {
                let cv1 = registry@[handle as int];
                assert(cv1.samples =~= cv0.samples.push(sv));
                lemma_sample_find_unique(cv0.samples, vdv, cv0.samples.len() as int);
                assert(cv1.samples == spec_observe_samples(
                    cv0.samples,
                    vdv,
                    timestamp_ms as int,
                    value_bits,
                ));
                assert(cv1.samples.drop_last() =~= cv0.samples);
                assert(collector_wf(cv1));
                lemma_registry_update(regv0, handle as int, cv1);
                assert(registry@ =~= regv0.update(handle as int, cv1));
            }
            Ok(())
        },
    }
}

proof fn lemma_samples_map_update(ss: Seq<SampleV>, j: int, s: SampleV)
    requires
        0 <= j < ss.len(),
        s.label_values == ss[j].label_values,
        forall|p: int, q: int|
            0 <= p < q < ss.len() ==> (#[trigger] ss[p]).label_values != (
            #[trigger] ss[q]).label_values,
    ensures
        samples_map(ss.update(j, s)) == samples_map(ss).insert(
            s.label_values,
            (s.timestamp_ms, s.value_bits),
        ),
    decreases ss.len(),
{
    let ss2 = ss.update(j, s);
    if j == ss.len() - 1 {
        assert(ss2.drop_last() =~= ss.drop_last());
        assert(ss2.last() == s);
        assert(samples_map(ss.drop_last()).insert(
            ss.last().label_values,
            (ss.last().timestamp_ms, ss.last().value_bits),
        ).insert(s.label_values, (s.timestamp_ms, s.value_bits)) =~= samples_map(
            ss.drop_last(),
        ).insert(s.label_values, (s.timestamp_ms, s.value_bits)));
    } else {
        assert(ss2.drop_last() =~= ss.drop_last().update(j, s));
        assert forall|p: int, q: int|
            0 <= p < q < ss.drop_last().len() implies (#[trigger] ss.drop_last()[p]).label_values
            != (#[trigger] ss.drop_last()[q]).label_values by {
            assert(ss.drop_last()[p] == ss[p] && ss.drop_last()[q] == ss[q]);
        }
        assert(ss.drop_last()[j] == ss[j]);
        lemma_samples_map_update(ss.drop_last(), j, s);
        assert(ss2.last() == ss.last());
        assert(ss.last().label_values != s.label_values);
        assert(samples_map(ss.drop_last()).insert(
            s.label_values,
            (s.timestamp_ms, s.value_bits),
        ).insert(ss.last().label_values, (ss.last().timestamp_ms, ss.last().value_bits))
            =~= samples_map(ss.drop_last()).insert(
            ss.last().label_values,
            (ss.last().timestamp_ms, ss.last().value_bits),
        ).insert(s.label_values, (s.timestamp_ms, s.value_bits)));
    }
}

proof fn lemma_registry_update(regv: Seq<CollectorV>, h: int, c: CollectorV)
    requires
        0 <= h < regv.len(),
        registry_wf(regv),
        c.name == regv[h].name,
        collector_wf(c),
    ensures
        registry_wf(regv.update(h, c)),
{
    let regv2 = regv.update(h, c);
    assert forall|p: int, q: int|
        0 <= p < q < regv2.len() implies (#[trigger] regv2[p]).name != (
    #[trigger] regv2[q]).name by {
        assert(regv[p].name != regv[q].name);
        assert(regv2[p].name == regv[p].name);
        assert(regv2[q].name == regv[q].name);
    }
    assert forall|p: int| 0 <= p < regv2.len() implies collector_wf(#[trigger] regv2[p]) by {
        if p != h {
            assert(regv2[p] == regv[p]);
        }
    }
}

/// Unregisters every family and discards all observations, returning the
/// registry to empty. Clearing an already-empty registry changes nothing,
/// and a snapshot taken after a clear holds no families.
pub fn clear_collectors(registry: &mut Registry)
    ensures
        final(registry)@ == Seq::<CollectorV>::empty(),
        final(registry).wf(),
        old(registry)@.len() == 0 ==> final(registry)@ == old(registry)@,
{
    registry.collectors.clear();
    proof {
        assert(registry@ =~= Seq::<CollectorV>::empty());
        if old(registry)@.len() == 0 {
            assert(old(registry)@ =~= Seq::<CollectorV>::empty());
        }
    }
}

/// Idempotent clear, seen end to end: whatever state a clear leaves is the
/// empty registry, so a second clear leaves it identical, and a snapshot of
/// it — which `snapshot` promises to mirror exactly — holds no families
/// and no observations.
pub proof fn lemma_clear_idempotent(cleared: Seq<CollectorV>, snap: Seq<CollectorV>)
    requires
        cleared == Seq::<CollectorV>::empty(),
        snap == cleared,
    ensures
        cleared.len() == 0,
        snap.len() == 0,
        registry_wf(cleared),
{
}

} // verus!
