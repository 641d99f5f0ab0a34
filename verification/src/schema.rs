//! Dimension schemas: the canonical, ordered, deduplicated label names of a
//! metric, and the cache that memoizes one schema per
//! (region, namespace, metric name) key.

use vstd::prelude::*;
use vstd::string::StringExecFns;
use crate::text::{
    lex_lt, lemma_lex_lt_asymmetric, lemma_lex_lt_total, lemma_lex_lt_transitive, snake_of,
    str_eq, str_lt, to_snake_case,
};

verus! {

/// The canonical label name of a raw dimension key: the key in snake_case,
/// renamed when it would collide with the reserved `region` label.
pub open spec fn canonical_label(raw: Seq<char>) -> Seq<char> {
    if snake_of(raw) == "region"@ {
        "dimension_region"@
    } else {
        snake_of(raw)
    }
}

/// Canonicalizes one raw dimension key.
pub fn canonicalize_label(raw: &str) -> (r: String)
    ensures
        r@ == canonical_label(raw@),
{
    let s = to_snake_case(raw);
    if str_eq(s.as_str(), "region") {
        String::from_str("dimension_region")
    } else {
        s
    }
}

/// A strictly increasing — hence deduplicated — sequence of label names.
pub open spec fn strictly_sorted(labels: Seq<Seq<char>>) -> bool {
    forall|i: int, j: int| 0 <= i < j < labels.len() ==> lex_lt(labels[i], labels[j])
}

/// Inserts `x` into a strictly sorted vector of label names, keeping it
/// strictly sorted; a name already present is not duplicated.
pub fn insert_label_sorted(v: &mut Vec<String>, x: String)
    requires
        strictly_sorted(old(v).deep_view()),
    ensures
        strictly_sorted(final(v).deep_view()),
        forall|l: Seq<char>|
            final(v).deep_view().contains(l) <==> (old(v).deep_view().contains(l) || l == x@),
{
    let ghost dv0 = v.deep_view();
    let mut pos: usize = 0;
    while pos < v.len() && str_lt(v[pos].as_str(), x.as_str())
        invariant
            pos <= v.len(),
            v.deep_view() == dv0,
            strictly_sorted(dv0),
            forall|i: int| 0 <= i < pos ==> lex_lt(dv0[i], x@),
        decreases v.len() - pos,
    {
        pos = pos + 1;
    }
    if pos < v.len() && str_eq(v[pos].as_str(), x.as_str()) {
        proof {
            assert(v.deep_view()[pos as int] == x@);
            assert(v.deep_view().contains(x@));
        }
        return ;
    }
    proof {
        if pos < dv0.len() {
            lemma_lex_lt_total(dv0[pos as int], x@);
            assert(lex_lt(x@, dv0[pos as int]));
        }
    }
    v.insert(pos, x);
    proof {
        let dv1 = v.deep_view();
        assert(dv1.len() == dv0.len() + 1);
        assert forall|i: int| 0 <= i < dv1.len() implies #[trigger] dv1[i] == (if i < pos {
            dv0[i]
        } else if i == pos {
            x@
        } else {
            dv0[i - 1]
        }) by {
            assert(v@.len() == dv1.len());
            if i < pos {
                assert(v@[i] == old(v)@[i]);
            } else if i > pos {
                assert(v@[i] == old(v)@[i - 1]);
            }
        }
        assert forall|i: int, j: int| 0 <= i < j < dv1.len() implies lex_lt(dv1[i], dv1[j]) by {
            if i < pos && j == pos {
                assert(lex_lt(dv0[i], x@));
            } else if i == pos && j > pos {
                assert(lex_lt(x@, dv0[pos as int]));
                if j - 1 > pos {
                    lemma_lex_lt_transitive(x@, dv0[pos as int], dv0[j - 1]);
                }
            } else if i < pos && j > pos {
                if j - 1 == i {
                    assert(false);
                } else {
                    assert(lex_lt(dv0[i], dv0[j - 1]));
                }
            }
        }
        assert forall|l: Seq<char>|
            dv1.contains(l) <==> (dv0.contains(l) || l == x@) by {
            if dv1.contains(l) {
                let i = choose|i: int| 0 <= i < dv1.len() && dv1[i] == l;
                if i < pos {
                    assert(dv0[i] == l);
                } else if i > pos {
                    assert(dv0[i - 1] == l);
                }
            }
            if dv0.contains(l) {
                let i = choose|i: int| 0 <= i < dv0.len() && dv0[i] == l;
                if i < pos {
                    assert(dv1[i] == l);
                } else {
                    assert(dv1[i + 1] == l);
                }
            }
            if l == x@ {
                assert(dv1[pos as int] == l);
            }
        }
    }
}

/// The canonical, sorted, deduplicated dimension label names of one metric.
#[derive(Debug)]
pub struct DimensionSchema {
    labels: Vec<String>,
}

impl View for DimensionSchema {
    type V = Seq<Seq<char>>;

    closed spec fn view(&self) -> Seq<Seq<char>> {
        self.labels.deep_view()
    }
}

/// The membership a schema built from `raw` dimension names must have: its
/// labels are exactly the canonical forms of the raw names.
pub open spec fn schema_covers(labels: Seq<Seq<char>>, raw: Seq<Seq<char>>) -> bool {
    forall|l: Seq<char>|
        labels.contains(l) <==> (exists|i: int| 0 <= i < raw.len() && canonical_label(#[trigger] raw[i]) == l)
}

impl DimensionSchema {
    /// A schema is well formed when its label names are strictly sorted.
    pub open spec fn wf(&self) -> bool {
        strictly_sorted(self@)
    }

    /// Builds the schema for the raw dimension names of one metric:
    /// canonicalizes each name, sorts them, drops duplicates.
    pub fn from_raw(raw: &Vec<String>) -> (r: DimensionSchema)
        ensures
            r.wf(),
            schema_covers(r@, raw.deep_view()),
    {
        let mut labels: Vec<String> = Vec::new();
        let mut i: usize = 0;
        while i < raw.len()
            invariant
                i <= raw.len(),
                strictly_sorted(labels.deep_view()),
                forall|l: Seq<char>|
                    labels.deep_view().contains(l) <==> (exists|j: int|
                        0 <= j < i && canonical_label(#[trigger] raw.deep_view()[j]) == l),
            decreases raw.len() - i,
        {
            let c = canonicalize_label(raw[i].as_str());
            proof {
                assert(raw.deep_view()[i as int] == raw@[i as int]@);
            }
            insert_label_sorted(&mut labels, c);
            i = i + 1;
        }
        DimensionSchema { labels }
    }

    /// The number of dimension labels.
    pub fn len(&self) -> (r: usize)
        ensures
            r == self@.len(),
    {
        self.labels.len()
    }

    /// The label name at position `i`.
    pub fn label_at(&self, i: usize) -> (r: &String)
        requires
            i < self@.len(),
        ensures
            r@ == self@[i as int],
    {
        &self.labels[i]
    }
}

impl Clone for DimensionSchema {
    fn clone(&self) -> (r: Self)
        ensures
            r@ == self@,
    {
        let mut labels: Vec<String> = Vec::new();
        let mut i: usize = 0;
        while i < self.labels.len()
            invariant
                i <= self.labels.len(),
                labels@.len() == i,
                forall|j: int| 0 <= j < i ==> #[trigger] labels@[j]@ == self.labels@[j]@,
            decreases self.labels.len() - i,
        {
            let l = self.labels[i].clone();
            labels.push(l);
            i = i + 1;
        }
        proof {
            assert forall|j: int|
                0 <= j < labels@.len() implies #[trigger] labels.deep_view()[j]
                == self.labels.deep_view()[j] by {
                assert(labels@[j]@ == self.labels@[j]@);
            }
            assert(labels.deep_view() =~= self.labels.deep_view());
        }
        DimensionSchema { labels }
    }
}

/// Two strictly sorted label-name sequences with the same members are the
/// same sequence; a schema is determined by the set of its labels.
pub proof fn lemma_sorted_unique(a: Seq<Seq<char>>, b: Seq<Seq<char>>)
    requires
        strictly_sorted(a),
        strictly_sorted(b),
        forall|l: Seq<char>| a.contains(l) <==> b.contains(l),
    ensures
        a == b,
    decreases a.len(),
{
    if a.len() == 0 {
        if b.len() > 0 {
            assert(b.contains(b[0]));
            assert(false);
        }
        assert(a =~= b);
    } else if b.len() == 0 {
        assert(a.contains(a[0]));
        assert(false);
    } else {
        assert(a.contains(a[0]));
        assert(b.contains(b[0]));
        let i = choose|i: int| 0 <= i < a.len() && a[i] == b[0];
        let j = choose|j: int| 0 <= j < b.len() && b[j] == a[0];
        if i > 0 && j > 0 {
            assert(lex_lt(a[0], a[i]));
            assert(lex_lt(b[0], b[j]));
            lemma_lex_lt_asymmetric(a[0], b[0]);
            assert(false);
        }
        assert(a[0] == b[0]);
        let at = a.drop_first();
        let bt = b.drop_first();
        assert forall|p: int, q: int| 0 <= p < q < at.len() implies lex_lt(at[p], at[q]) by {
            assert(at[p] == a[p + 1] && at[q] == a[q + 1]);
        }
        assert forall|p: int, q: int| 0 <= p < q < bt.len() implies lex_lt(bt[p], bt[q]) by {
            assert(bt[p] == b[p + 1] && bt[q] == b[q + 1]);
        }
        assert forall|l: Seq<char>| at.contains(l) <==> bt.contains(l) by {
            lemma_tail_membership(a, l);
            lemma_tail_membership(b, l);
        }
        lemma_sorted_unique(at, bt);
        assert forall|p: int| 0 <= p < a.len() implies a[p] == b[p] by {
            if p > 0 {
                assert(at[p - 1] == bt[p - 1]);
            }
        }
        assert(a =~= b);
    }
}

proof fn lemma_tail_membership(a: Seq<Seq<char>>, l: Seq<char>)
    requires
        strictly_sorted(a),
        a.len() > 0,
    ensures
        a.drop_first().contains(l) <==> (a.contains(l) && l != a[0]),
{
    let at = a.drop_first();
    if at.contains(l) {
        let i = choose|i: int| 0 <= i < at.len() && at[i] == l;
        assert(a[i + 1] == l);
        assert(lex_lt(a[0], a[i + 1]));
        lemma_lex_lt_asymmetric(a[0], l);
        lemma_lex_lt_total(a[0], l);
        assert(a.contains(l));
    }
    if a.contains(l) && l != a[0] {
        let i = choose|i: int| 0 <= i < a.len() && a[i] == l;
        assert(i > 0);
        assert(at[i - 1] == l);
        assert(at.contains(l));
    }
}

/// The lookup key of one cached schema: (region, namespace, metric name).
pub type SchemaKeyV = (Seq<char>, Seq<char>, Seq<char>);

/// The association map held by a sequence of cache rows; a later row with
/// the same key wins.
pub open spec fn entries_map(es: Seq<(SchemaKeyV, Seq<Seq<char>>)>) -> Map<
    SchemaKeyV,
    Seq<Seq<char>>,
>
    decreases es.len(),
{
    if es.len() == 0 {
        Map::empty()
    } else {
        entries_map(es.drop_last()).insert(es.last().0, es.last().1)
    }
}

proof fn lemma_entries_map_contains(es: Seq<(SchemaKeyV, Seq<Seq<char>>)>, k: SchemaKeyV)
    ensures
        entries_map(es).contains_key(k) <==> (exists|i: int|
            0 <= i < es.len() && (#[trigger] es[i]).0 == k),
    decreases es.len(),
{
    if es.len() > 0 {
        lemma_entries_map_contains(es.drop_last(), k);
        if entries_map(es).contains_key(k) {
            if es.last().0 == k {
                assert(es[es.len() - 1].0 == k);
            } else {
                let i = choose|i: int|
                    0 <= i < es.drop_last().len() && (#[trigger] es.drop_last()[i]).0 == k;
                assert(es[i].0 == k);
            }
        }
        if exists|i: int| 0 <= i < es.len() && (#[trigger] es[i]).0 == k {
            let i = choose|i: int| 0 <= i < es.len() && (#[trigger] es[i]).0 == k;
            if i < es.len() - 1 {
                assert(es.drop_last()[i].0 == k);
            }
        }
    }
}

proof fn lemma_entries_map_at(es: Seq<(SchemaKeyV, Seq<Seq<char>>)>, i: int)
    requires
        0 <= i < es.len(),
        forall|j: int| i < j < es.len() ==> (#[trigger] es[j]).0 != es[i].0,
    ensures
        entries_map(es).contains_key(es[i].0),
        entries_map(es)[es[i].0] == es[i].1,
    decreases es.len(),
{
    if i == es.len() - 1 {
    } else {
        assert forall|j: int|
            i < j < es.drop_last().len() implies (#[trigger] es.drop_last()[j]).0 != es.drop_last()[
            i].0 by {
            assert(es.drop_last()[j] == es[j]);
        }
        lemma_entries_map_at(es.drop_last(), i);
        assert(es.last().0 != es[i].0);
    }
}

/// Memoizes, per (region, namespace, metric name) key, the canonical sorted
/// dimension label names of that metric. A hit is answered from the cache
/// with no external call; only a resolved lookup result is ever stored, so a
/// failed lookup never poisons the cache.
#[derive(Debug)]
pub struct SchemaCache {
    entries: Vec<(String, String, String, DimensionSchema)>,
}

impl View for SchemaCache {
    type V = Map<SchemaKeyV, Seq<Seq<char>>>;

    closed spec fn view(&self) -> Map<SchemaKeyV, Seq<Seq<char>>> {
        entries_map(self.kvs())
    }
}

impl SchemaCache {
    /// The cache rows as key/schema pairs, in insertion order.
    closed spec fn kvs(&self) -> Seq<(SchemaKeyV, Seq<Seq<char>>)> {
        Seq::new(
            self.entries@.len(),
            |i: int|
                (
                    (self.entries@[i].0@, self.entries@[i].1@, self.entries@[i].2@),
                    self.entries@[i].3@,
                ),
        )
    }

    /// A cache is well formed when its keys are unique and every stored
    /// schema is strictly sorted.
    pub closed spec fn wf(&self) -> bool {
        &&& forall|i: int, j: int|
            0 <= i < j < self.kvs().len() ==> (#[trigger] self.kvs()[i]).0 != (
            #[trigger] self.kvs()[j]).0
        &&& forall|i: int|
            0 <= i < self.kvs().len() ==> strictly_sorted((#[trigger] self.kvs()[i]).1)
    }

    /// An empty cache.
    pub fn new() -> (r: SchemaCache)
        ensures
            r.wf(),
            r@ == Map::<SchemaKeyV, Seq<Seq<char>>>::empty(),
    {
        let r = SchemaCache { entries: Vec::new() };
        proof {
            assert(r.kvs().len() == 0);
            assert(r@ =~= Map::<SchemaKeyV, Seq<Seq<char>>>::empty());
        }
        r
    }

    /// Answers a resolve from the cache alone: the schema stored for the
    /// key, or `None` when the key was never resolved.
    pub fn lookup(&self, region: &str, namespace: &str, metric_name: &str) -> (r: Option<
        DimensionSchema,
    >)
        requires
            self.wf(),
        ensures
            match r {
                Some(s) => self@.contains_key((region@, namespace@, metric_name@)) && s@ == self@[(
                    region@,
                    namespace@,
                    metric_name@,
                )] && s.wf(),
                None => !self@.contains_key((region@, namespace@, metric_name@)),
            },
    {
        let ghost k: SchemaKeyV = (region@, namespace@, metric_name@);
        let mut i: usize = 0;
        while i < self.entries.len()
            invariant
                i <= self.entries.len(),
                self.kvs().len() == self.entries@.len(),
                self.wf(),
                k == (region@, namespace@, metric_name@),
                forall|j: int| 0 <= j < i ==> (#[trigger] self.kvs()[j]).0 != k,
            decreases self.entries.len() - i,
        {
            let row = &self.entries[i];
            if str_eq(row.0.as_str(), region) && str_eq(row.1.as_str(), namespace) && str_eq(
                row.2.as_str(),
                metric_name,
            ) {
                proof {
                    assert(self.kvs()[i as int].0 == k);
                    lemma_entries_map_at(self.kvs(), i as int);
                }
                return Some(self.entries[i].3.clone());
            }
            proof {
                assert(self.kvs()[i as int].0 != k);
            }
            i = i + 1;
        }
        proof {
            lemma_entries_map_contains(self.kvs(), k);
        }
        None
    }

    /// Stores the schema resolved from one external lookup: canonicalizes,
    /// sorts and deduplicates the raw dimension names, then binds the result
    /// to the key, overwriting a concurrent resolve of the same key.
    #[verifier::loop_isolation(false)]
    pub fn insert_resolved(
        &mut self,
        region: &str,
        namespace: &str,
        metric_name: &str,
        raw_names: &Vec<String>,
    ) -> (r: DimensionSchema)
        requires
            old(self).wf(),
        ensures
            final(self).wf(),
            final(self)@ == old(self)@.insert((region@, namespace@, metric_name@), r@),
            r.wf(),
            schema_covers(r@, raw_names.deep_view()),
    {
        let schema = DimensionSchema::from_raw(raw_names);
        let r = schema.clone();
        let ghost k: SchemaKeyV = (region@, namespace@, metric_name@);
        let mut i: usize = 0;
        while i < self.entries.len()
            invariant
                i <= self.entries.len(),
                self.kvs().len() == self.entries@.len(),
                self.wf(),
                *self == *old(self),
                k == (region@, namespace@, metric_name@),
                forall|j: int| 0 <= j < i ==> (#[trigger] self.kvs()[j]).0 != k,
            decreases self.entries.len() - i,
        {
            let row = &self.entries[i];
            if str_eq(row.0.as_str(), region) && str_eq(row.1.as_str(), namespace) && str_eq(
                row.2.as_str(),
                metric_name,
            ) {
                proof {
                    assert(self.kvs()[i as int].0 == k);
                }
                let region_owned = String::from_str(region);
                let namespace_owned = String::from_str(namespace);
                let metric_name_owned = String::from_str(metric_name);
                self.entries[i] = (region_owned, namespace_owned, metric_name_owned, schema);
                proof {
                    let old_kvs = old(self).kvs();
                    assert forall|j: int|
                        0 <= j < self.kvs().len() implies #[trigger] self.kvs()[j]
                        == old_kvs.update(i as int, (k, r@))[j] by {
                        if j != i {
                            assert(self.entries@[j] == old(self).entries@[j]);
                        } else {
                            assert(self.entries@[j].0@ == region@);
                            assert(self.entries@[j].1@ == namespace@);
                            assert(self.entries@[j].2@ == metric_name@);
                            assert(self.entries@[j].3@ == r@);
                        }
                    }
                    assert(self.kvs() =~= old_kvs.update(i as int, (k, r@)));
                    lemma_entries_map_update(old_kvs, i as int, (k, r@));
                    assert(self@ == old(self)@.insert(k, r@));
                    assert forall|p: int, q: int|
                        0 <= p < q < self.kvs().len() implies (#[trigger] self.kvs()[p]).0 != (
                    #[trigger] self.kvs()[q]).0 by {
                        assert(old_kvs[p].0 != old_kvs[q].0);
                        assert(self.kvs()[p].0 == old_kvs[p].0);
                        assert(self.kvs()[q].0 == old_kvs[q].0);
                    }
                    assert forall|p: int|
                        0 <= p < self.kvs().len() implies strictly_sorted(
                        (#[trigger] self.kvs()[p]).1,
                    ) by {
                        if p != i {
                            assert(self.kvs()[p].1 == old_kvs[p].1);
                        }
                    }
                }
                return r;
            }
            proof {
                assert(self.kvs()[i as int].0 != k);
            }
            i = i + 1;
        }
        let region_owned = String::from_str(region);
        let namespace_owned = String::from_str(namespace);
        let metric_name_owned = String::from_str(metric_name);
        self.entries.push((region_owned, namespace_owned, metric_name_owned, schema));
        proof {
            let old_kvs = old(self).kvs();
            let n = old_kvs.len() as int;
            assert forall|j: int|
                0 <= j < self.kvs().len() implies #[trigger] self.kvs()[j] == old_kvs.push(
                (k, r@),
            )[j] by {
                if j < n {
                    assert(self.entries@[j] == old(self).entries@[j]);
                } else {
                    assert(self.entries@[j].0@ == region@);
                    assert(self.entries@[j].1@ == namespace@);
                    assert(self.entries@[j].2@ == metric_name@);
                    assert(self.entries@[j].3@ == r@);
                }
            }
            assert(self.kvs() =~= old_kvs.push((k, r@)));
            assert(self.kvs().drop_last() =~= old_kvs);
            assert(self@ == old(self)@.insert(k, r@));
            assert forall|p: int, q: int|
                0 <= p < q < self.kvs().len() implies (#[trigger] self.kvs()[p]).0 != (
            #[trigger] self.kvs()[q]).0 by {
                if q < n {
                    assert(old_kvs[p].0 != old_kvs[q].0);
                } else {
                    assert(old_kvs[p].0 != k);
                }
            }
            assert forall|p: int|
                0 <= p < self.kvs().len() implies strictly_sorted((#[trigger] self.kvs()[p]).1) by {
                if p < n {
                    assert(self.kvs()[p].1 == old_kvs[p].1);
                }
            }
        }
        r
    }
}

proof fn lemma_entries_map_update(
    es: Seq<(SchemaKeyV, Seq<Seq<char>>)>,
    i: int,
    row: (SchemaKeyV, Seq<Seq<char>>),
)
    requires
        0 <= i < es.len(),
        row.0 == es[i].0,
        forall|p: int, q: int| 0 <= p < q < es.len() ==> (#[trigger] es[p]).0 != (#[trigger] es[q]).0,
    ensures
        entries_map(es.update(i, row)) == entries_map(es).insert(row.0, row.1),
    decreases es.len(),
{
    let es2 = es.update(i, row);
    if i == es.len() - 1 {
        assert(es2.drop_last() =~= es.drop_last());
        assert(es2.last() == row);
        assert(entries_map(es.drop_last()).insert(es.last().0, es.last().1).insert(row.0, row.1)
            =~= entries_map(es.drop_last()).insert(row.0, row.1));
    } else {
        assert(es2.drop_last() =~= es.drop_last().update(i, row));
        assert forall|p: int, q: int|
            0 <= p < q < es.drop_last().len() implies (#[trigger] es.drop_last()[p]).0 != (
        #[trigger] es.drop_last()[q]).0 by {
            assert(es.drop_last()[p] == es[p] && es.drop_last()[q] == es[q]);
        }
        assert(es.drop_last()[i] == es[i]);
        lemma_entries_map_update(es.drop_last(), i, row);
        assert(es2.last() == es.last());
        assert(es.last().0 != row.0);
        assert(entries_map(es.drop_last()).insert(row.0, row.1).insert(es.last().0, es.last().1)
            =~= entries_map(es.drop_last()).insert(es.last().0, es.last().1).insert(
            row.0,
            row.1,
        ));
    }
}

/// Cache memoization: once a key is bound to a schema, resolving that key
/// again is answered by exactly that schema, and re-storing the very same
/// schema leaves the cache as it was. Together with `lemma_sorted_unique`
/// this makes two resolves of one key byte-identical.
pub proof fn lemma_cache_memoization(
    m: Map<SchemaKeyV, Seq<Seq<char>>>,
    k: SchemaKeyV,
    s: Seq<Seq<char>>,
)
    ensures
        m.insert(k, s).contains_key(k),
        m.insert(k, s)[k] == s,
        m.insert(k, s).insert(k, s) == m.insert(k, s),
{
    assert(m.insert(k, s).insert(k, s) =~= m.insert(k, s));
}

} // verus!
