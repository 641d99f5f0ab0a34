//! The ingestion pipeline of the core: decoding the batch payload,
//! recording every observation a record yields, and the owned process-wide
//! state that ties registry, schema cache and counters together.

use vstd::prelude::*;
use vstd::utf8::{decode_utf8, encode_utf8, valid_utf8};
use base64::Engine;
use crate::errors::MetricsError;
use crate::identity::{build_observations, spec_build, ObservationV};
use crate::push::Counters;
use crate::registry::{
    get_or_register_metric, observe, spec_get_or_register, spec_observe_samples, CollectorV,
    Registry,
};
use crate::schema::{DimensionSchema, SchemaCache};
use crate::structs::{CloudWatchMetric, Firehose, FirehoseData, MetricRecordV};
use crate::text::clone_string_vec;

verus! {

/// What one observation does to the registry: the family is registered if
/// absent, then the measurement is recorded under its tuple — unless the
/// tuple's width differs from the family's registered label count, which
/// surfaces the cardinality mismatch and leaves the observations alone.
pub open spec fn apply_observation(regv: Seq<CollectorV>, o: ObservationV) -> (
    Seq<CollectorV>,
    Option<MetricsError>,
) {
    let (rv, h) = spec_get_or_register(regv, o.family_name, o.label_names);
    let c = rv[h];
    if o.label_values.len() == c.label_names.len() {
        (
            rv.update(
                h,
                CollectorV {
                    name: c.name,
                    label_names: c.label_names,
                    samples: spec_observe_samples(
                        c.samples,
                        o.label_values,
                        o.timestamp_ms,
                        o.value_bits,
                    ),
                },
            ),
            None,
        )
    } else {
        (
            rv,
            Some(
                MetricsError::CardinalityMismatch {
                    expected: c.label_names.len() as usize,
                    got: o.label_values.len() as usize,
                },
            ),
        )
    }
}

/// Applies observations in order, stopping at the first error; the state
/// reached so far — the failing family's registration included — is kept.
pub open spec fn apply_observations(regv: Seq<CollectorV>, obs: Seq<ObservationV>) -> (
    Seq<CollectorV>,
    Option<MetricsError>,
)
    decreases obs.len(),
{
    if obs.len() == 0 {
        (regv, None)
    } else {
        let (r1, e1) = apply_observation(regv, obs[0]);
        if e1 is Some {
            (r1, e1)
        } else {
            apply_observations(r1, obs.drop_first())
        }
    }
}

/// What recording one record does to the registry: nothing when the
/// builder rejects the record, else its observations applied in order.
pub open spec fn apply_record(
    regv: Seq<CollectorV>,
    r: MetricRecordV,
    schema: Seq<Seq<char>>,
) -> (Seq<CollectorV>, Option<MetricsError>) {
    match spec_build(r, schema) {
        Result::Err(e) => (regv, Some(e)),
        Result::Ok(obs) => apply_observations(regv, obs),
    }
}

pub proof fn lemma_apply_split(a: Seq<CollectorV>, s: Seq<ObservationV>, i: int)
    requires
        0 <= i <= s.len(),
        apply_observations(a, s.subrange(0, i)).1 is None,
    ensures
        apply_observations(a, s) == apply_observations(
            apply_observations(a, s.subrange(0, i)).0,
            s.skip(i),
        ),
    decreases i,
{
    if i == 0 {
        assert(s.subrange(0, 0) =~= Seq::<ObservationV>::empty());
        assert(s.skip(0) =~= s);
    } else {
        let pre = s.subrange(0, i);
        let (a1, e1) = apply_observation(a, s[0]);
        assert(pre[0] == s[0]);
        if e1 is Some {
            assert(apply_observations(a, pre) == (a1, e1));
            assert(false);
        }
        assert(pre.drop_first() =~= s.drop_first().subrange(0, i - 1));
        assert(apply_observations(a, pre) == apply_observations(a1, pre.drop_first()));
        lemma_apply_split(a1, s.drop_first(), i - 1);
        assert(s.drop_first().skip(i - 1) =~= s.skip(i));
        assert(apply_observations(a, s) == apply_observations(a1, s.drop_first()));
    }
}

/// Records every observation one record yields: registers each family once,
/// then observes. The first error ends the record — observations already
/// applied stay, the registry is otherwise untouched, and the error says
/// exactly why the rest of the record was dropped.
#[verifier::loop_isolation(false)]
pub fn record_metric(
    registry: &mut Registry,
    record: &CloudWatchMetric,
    schema: &DimensionSchema,
) -> (r: Result<(), MetricsError>)
    requires
        old(registry).wf(),
        schema.wf(),
    ensures
        final(registry).wf(),
        ({
            let (rv, err) = apply_record(old(registry)@, record@, schema@);
            final(registry)@ == rv && (match err {
                Some(e) => r == Result::<(), MetricsError>::Err(e),
                None => r == Result::<(), MetricsError>::Ok(()),
            })
        }),
{
    let reqs = match build_observations(record, schema) {
        Err(e) => {
            return Err(e);
        },
        Ok(v) => v,
    };
    let ghost obs = reqs.deep_view();
    let mut i: usize = 0;
    while i < reqs.len()
        invariant
            i <= reqs@.len(),
            obs.len() == reqs@.len(),
            registry.wf(),
            apply_observations(old(registry)@, obs.subrange(0, i as int)) == (
                registry@,
                Option::<MetricsError>::None,
            ),
        decreases reqs.len() - i,
    {
        let ghost regv_pre = registry@;
        let req = &reqs[i];
        proof {
            assert(obs[i as int] == reqs@[i as int]@);
        }
        let h = get_or_register_metric(registry, req.family_name.clone(), &req.label_names);
        let ghost (rv, hs) = spec_get_or_register(
            regv_pre,
            obs[i as int].family_name,
            obs[i as int].label_names,
        );
        let vals = clone_string_vec(&req.label_values);
        let res = observe(registry, h, vals, req.timestamp_ms, req.value_bits);
        match res {
            Err(e) => {
                proof {
                    let (ra, ea) = apply_observation(regv_pre, obs[i as int]);
                    assert(registry@ == rv);
                    assert(ra == rv && ea == Some(e));
                    lemma_apply_split(old(registry)@, obs, i as int);
                    assert(obs.skip(i as int)[0] == obs[i as int]);
                    assert(apply_observations(regv_pre, obs.skip(i as int)) == (rv, Some(e)));
                    assert(apply_observations(old(registry)@, obs) == (rv, Some(e)));
                }
                return Err(e);
            },
            Ok(()) => {
                proof {
                    let (ra, ea) = apply_observation(regv_pre, obs[i as int]);
                    assert(ea is None);
                    assert forall|j: int|
                        0 <= j < registry@.len() implies #[trigger] registry@[j] == ra[j] by {
                        if j == hs {
                            assert(registry@[j] =~= ra[j]);
                        } else {
                            assert(registry@[j] == rv[j]);
                        }
                    }
                    assert(registry@ =~= ra);
                    let pre1 = obs.subrange(0, i + 1);
                    assert(pre1.subrange(0, i as int) =~= obs.subrange(0, i as int));
                    lemma_apply_split(old(registry)@, pre1, i as int);
                    assert(pre1.skip(i as int) =~= seq![obs[i as int]]);
                    assert(seq![obs[i as int]][0] == obs[i as int]);
                    assert(seq![obs[i as int]].drop_first().len() == 0);
                    assert(apply_observations(ra, seq![obs[i as int]].drop_first()) == (
                        ra,
                        Option::<MetricsError>::None,
                    ));
                    assert(apply_observations(regv_pre, seq![obs[i as int]]) == (
                        registry@,
                        Option::<MetricsError>::None,
                    ));
                    assert(apply_observations(old(registry)@, pre1) == (
                        registry@,
                        Option::<MetricsError>::None,
                    ));
                }
            },
        }
        i = i + 1;
    }
    proof {
        assert(obs.subrange(0, reqs@.len() as int) =~= obs);
    }
    Ok(())
}

/// What base64 standard decoding yields for `s`: the decoded bytes, or
/// nothing when `s` is not valid base64. A function of the characters
/// alone.
pub uninterp spec fn b64_decode_of(s: Seq<char>) -> Option<Seq<u8>>;

/// Decodes standard base64.
/// Relies on base64's `Engine::decode` with the standard engine: the result
/// is a function of the input characters alone.
#[verifier::external_body]
fn base64_decode(s: &str) -> (r: Option<Vec<u8>>)
    ensures
        match r {
            Some(v) => b64_decode_of(s@) == Some(v@),
            None => b64_decode_of(s@) is None,
        },
{
    match base64::engine::general_purpose::STANDARD.decode(s) {
        Ok(v) => Some(v),
        Err(_) => None,
    }
}

/// Converts decoded bytes to text.
/// Relies on `String::from_utf8`: it returns a string holding exactly the
/// given bytes when they are valid UTF-8, and an error otherwise.
#[verifier::external_body]
fn bytes_to_string(v: Vec<u8>) -> (r: Option<String>)
    ensures
        match r {
            Some(s) => valid_utf8(v@) && s@ == decode_utf8(v@) && encode_utf8(s@) == v@,
            None => !valid_utf8(v@),
        },
{
    match String::from_utf8(v) {
        Ok(s) => Some(s),
        Err(_) => None,
    }
}

/// The text one record of the batch envelope contributes: the UTF-8 reading
/// of its base64 payload, or nothing when either decoding fails.
pub open spec fn payload_text(data: Seq<char>) -> Option<Seq<char>> {
    match b64_decode_of(data) {
        Some(bytes) => if valid_utf8(bytes) {
            Some(decode_utf8(bytes))
        } else {
            None
        },
        None => None,
    }
}

/// The concatenated text of a batch's records, or nothing when any record
/// fails to decode.
pub open spec fn payloads_text(records: Seq<Seq<char>>) -> Option<Seq<char>>
    decreases records.len(),
{
    if records.len() == 0 {
        Some(Seq::empty())
    } else {
        match (payloads_text(records.drop_last()), payload_text(records.last())) {
            (Some(a), Some(b)) => Some(a + b),
            _ => None,
        }
    }
}

proof fn lemma_payloads_text_none(records: Seq<Seq<char>>, i: int)
    requires
        0 <= i < records.len(),
        payload_text(records[i]) is None,
    ensures
        payloads_text(records) is None,
    decreases records.len(),
{
    if i == records.len() - 1 {
    } else {
        assert(records.drop_last()[i] == records[i]);
        lemma_payloads_text_none(records.drop_last(), i);
    }
}

/// Unwraps the base64 records of a batch envelope into the newline-delimited
/// text the core splits into records, in order; a record that does not
/// decode fails the whole batch, which the front door rejects.
pub fn decode_payloads(records: &Vec<FirehoseData>) -> (r: Option<String>)
    ensures
        match r {
            Some(s) => payloads_text(records.deep_view()) == Some(s@),
            None => payloads_text(records.deep_view()) is None,
        },
{
    let ghost rv = records.deep_view();
    let mut out = String::new();
    let mut i: usize = 0;
    while i < records.len()
        invariant
            i <= records.len(),
            rv == records.deep_view(),
            rv.len() == records@.len(),
            payloads_text(rv.subrange(0, i as int)) == Some(out@),
        decreases records.len() - i,
    {
        proof {
            assert(rv[i as int] == records@[i as int].data@);
        }
        let decoded = match base64_decode(records[i].data.as_str()) {
            Some(v) => v,
            None => {
                proof {
                    lemma_payloads_text_none(rv, i as int);
                }
                return None;
            },
        };
        let text = match bytes_to_string(decoded) {
            Some(t) => t,
            None => {
                proof {
                    lemma_payloads_text_none(rv, i as int);
                }
                return None;
            },
        };
        out.append(text.as_str());
        proof {
            let pre = rv.subrange(0, i as int);
            let post = rv.subrange(0, i + 1);
            assert(post.drop_last() =~= pre);
            assert(post.last() == rv[i as int]);
        }
        i = i + 1;
    }
    proof {
        assert(rv.subrange(0, records@.len() as int) =~= rv);
    }
    Some(out)
}

/// The newline-delimited text of one inbound batch envelope: an inline
/// message verbatim when one is present, else the concatenated decoded
/// records, else empty. A record that fails to decode fails the whole
/// batch.
pub fn batch_text(f: &Firehose) -> (r: Option<String>)
    ensures
        match f.message {
            Some(m) => r matches Some(t) && t@ == m@,
            None => match f.records {
                Some(rs) => (match r {
                    Some(t) => payloads_text(rs.deep_view()) == Some(t@),
                    None => payloads_text(rs.deep_view()) is None,
                }),
                None => r matches Some(t) && t@.len() == 0,
            },
        },
{
    match &f.message {
        Some(m) => Some(m.clone()),
        None => match &f.records {
            Some(rs) => decode_payloads(rs),
            None => Some(String::new()),
        },
    }
}

/// The owned process-wide state of the translation core: the series
/// registry, the dimension schema cache and the observability counters.
/// The surrounding process shares it behind its own synchronization and
/// hands it in by reference.
#[derive(Debug)]
pub struct AppState {
    pub registry: Registry,
    pub schema_cache: SchemaCache,
    pub counters: Counters,
}

impl AppState {
    /// A fresh state: empty registry, empty cache, zeroed counters.
    pub fn new() -> (r: AppState)
        ensures
            r.registry@ == Seq::<CollectorV>::empty(),
            r.registry.wf(),
            r.schema_cache@ == Map::<
                crate::schema::SchemaKeyV,
                Seq<Seq<char>>,
            >::empty(),
            r.schema_cache.wf(),
            r.counters == Counters::spec_zero(),
    {
        AppState {
            registry: Registry::new(),
            schema_cache: SchemaCache::new(),
            counters: Counters::new(),
        }
    }
}

/// Dropped-unit isolation: a record whose unit is outside the enumeration
/// leaves the registry exactly as it was, so a batch that interleaves such
/// a record between two valid ones yields the same registry as the batch
/// without it, and the valid records' label resolution is untouched.
pub proof fn lemma_dropped_unit_isolation(
    regv: Seq<CollectorV>,
    r1: MetricRecordV,
    s1: Seq<Seq<char>>,
    bad: MetricRecordV,
    sbad: Seq<Seq<char>>,
    r2: MetricRecordV,
    s2: Seq<Seq<char>>,
)
    requires
        bad.unit is Unknown,
    ensures
        apply_record(regv, bad, sbad) == (regv, Some(MetricsError::UnknownUnit)),
        ({
            let a1 = apply_record(regv, r1, s1).0;
            let ab = apply_record(a1, bad, sbad).0;
            apply_record(ab, r2, s2) == apply_record(a1, r2, s2)
        }),
{
}

} // verus!
