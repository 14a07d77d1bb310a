//! Grouped aggregation: rows per (operation, size bucket) and summaries
//! per named operation category, all computed from raw records.

use vstd::prelude::*;
use crate::bucket::{bucket_for_ordinal, bucket_ordinal_of, ByteBucket};
use crate::lexorder::{lemma_lex_le_antisymmetric, lemma_lex_le_total, lemma_lex_le_transitive,
    lex_le, str_eq, str_le};
use crate::record::{category_of_op, categorize, OpCategory, OperationRecord, RecordModel};
use crate::seqfacts::{lemma_filter_map_push, lemma_filter_push, lemma_map_values_push};
use crate::stats::{bytes_of, durations_of, finalize_stats, group_stats_match, push_if_absent,
    thread_ids_of, GroupStats};
use crate::window::{category_records, EffectiveTimes};

verus! {

/// What selects the records of one group.
pub enum GroupSelector {
    /// One (size bucket, operation) cell of the main report.
    Key(ByteBucket, String),
    /// One named operation category, over all buckets.
    Category(OpCategory),
    /// One client, over all operations.
    Client(String),
    /// One endpoint, over all operations.
    Endpoint(String),
    /// One client restricted to one category.
    ClientCategory(String, OpCategory),
    /// One endpoint restricted to one category.
    EndpointCategory(String, OpCategory),
}

/// The mathematical form of a selector.
pub enum SelectorModel {
    Key(ByteBucket, Seq<char>),
    Category(OpCategory),
    Client(Seq<char>),
    Endpoint(Seq<char>),
    ClientCategory(Seq<char>, OpCategory),
    EndpointCategory(Seq<char>, OpCategory),
}

impl DeepView for GroupSelector {
    type V = SelectorModel;

    open spec fn deep_view(&self) -> SelectorModel {
        match self {
            GroupSelector::Key(b, op) => SelectorModel::Key(*b, op@),
            GroupSelector::Category(c) => SelectorModel::Category(*c),
            GroupSelector::Client(v) => SelectorModel::Client(v@),
            GroupSelector::Endpoint(v) => SelectorModel::Endpoint(v@),
            GroupSelector::ClientCategory(v, c) => SelectorModel::ClientCategory(v@, *c),
            GroupSelector::EndpointCategory(v, c) => SelectorModel::EndpointCategory(v@, *c),
        }
    }
}

/// Whether a record belongs to the group that the selector describes.
pub open spec fn selects(sel: SelectorModel, r: RecordModel) -> bool {
    match sel {
        SelectorModel::Key(b, op) => bucket_ordinal_of(r.bytes) == b.ordinal_spec() && r.op
            == op,
        SelectorModel::Category(c) => category_of_op(r.op) == c,
        SelectorModel::Client(v) => r.client_id == Some(v),
        SelectorModel::Endpoint(v) => r.endpoint == Some(v),
        SelectorModel::ClientCategory(v, c) => r.client_id == Some(v) && category_of_op(r.op)
            == c,
        SelectorModel::EndpointCategory(v, c) => r.endpoint == Some(v) && category_of_op(r.op)
            == c,
    }
}

/// The predicate "is selected by `sel`".
pub open spec fn selector_pred(sel: SelectorModel) -> spec_fn(RecordModel) -> bool {
    |r: RecordModel| selects(sel, r)
}

/// The records of the selector's group, in record order.
pub open spec fn group_records(g: Seq<RecordModel>, sel: SelectorModel) -> Seq<RecordModel> {
    g.filter(selector_pred(sel))
}

fn record_matches(r: &OperationRecord, sel: &GroupSelector) -> (b: bool)
    ensures
        b == selects(sel.deep_view(), r@),
{
    match sel {
        GroupSelector::Key(bucket, op) => {
            let rb = ByteBucket::from_bytes(r.bytes);
            rb.to_bucket_number() == bucket.to_bucket_number() && str_eq(
                r.op.as_str(),
                op.as_str(),
            )
        },
        GroupSelector::Category(c) => categorize(r.op.as_str()) == *c,
        GroupSelector::Client(v) => match &r.client_id {
            Some(c) => str_eq(c.as_str(), v.as_str()),
            None => false,
        },
        GroupSelector::Endpoint(v) => match &r.endpoint {
            Some(e) => str_eq(e.as_str(), v.as_str()),
            None => false,
        },
        GroupSelector::ClientCategory(v, c) => {
            let same_client = match &r.client_id {
                Some(cl) => str_eq(cl.as_str(), v.as_str()),
                None => false,
            };
            same_client && categorize(r.op.as_str()) == *c
        },
        GroupSelector::EndpointCategory(v, c) => {
            let same_endpoint = match &r.endpoint {
                Some(e) => str_eq(e.as_str(), v.as_str()),
                None => false,
            };
            same_endpoint && categorize(r.op.as_str()) == *c
        },
    }
}

/// Collect the latency samples, byte sizes and distinct thread
/// identifiers of the selector's group.
fn collect_group(records: &Vec<OperationRecord>, sel: &GroupSelector) -> (out: (Vec<u64>, Vec<
    u64>, Vec<u64>))
    ensures
        ({
            let grp = group_records(records.deep_view(), sel.deep_view());
            &&& out.0@ == durations_of(grp)
            &&& out.1@ == bytes_of(grp)
            &&& out.2@.no_duplicates()
            &&& out.2@.to_set() == thread_ids_of(grp).to_set()
        }),
{
    let ghost g = records.deep_view();
    let ghost sm = sel.deep_view();
    let ghost pred = selector_pred(sm);
    let mut durations: Vec<u64> = Vec::new();
    let mut bytes: Vec<u64> = Vec::new();
    let mut threads: Vec<u64> = Vec::new();
    proof {
        assert(g.take(0) =~= Seq::<RecordModel>::empty());
        assert(g.take(0).filter(pred) =~= Seq::<RecordModel>::empty());
        assert(durations@ =~= durations_of(g.take(0).filter(pred)));
        assert(bytes@ =~= bytes_of(g.take(0).filter(pred)));
        assert(threads@.to_set() =~= thread_ids_of(g.take(0).filter(pred)).to_set());
    }
    let mut i: usize = 0;
    while i < records.len()
        invariant
            g == records.deep_view(),
            g.len() == records@.len(),
            sm == sel.deep_view(),
            pred == selector_pred(sm),
            0 <= i <= g.len(),
            durations@ == durations_of(g.take(i as int).filter(pred)),
            bytes@ == bytes_of(g.take(i as int).filter(pred)),
            threads@.no_duplicates(),
            threads@.to_set() == thread_ids_of(g.take(i as int).filter(pred)).to_set(),
        decreases g.len() - i,
    {
        broadcast use vstd::set::group_set_axioms;

        let r = &records[i];
        let ghost rm = g[i as int];
        proof {
            assert(rm == records@[i as int].deep_view());
            assert(g.take(i + 1) =~= g.take(i as int).push(rm));
            lemma_filter_push(g.take(i as int), rm, pred);
        }
        if record_matches(r, sel) {
            let ghost grp = g.take(i as int).filter(pred);
            proof {
                lemma_map_values_push(grp, rm, crate::stats::record_duration());
                lemma_map_values_push(grp, rm, crate::stats::record_bytes());
                lemma_filter_map_push(grp, rm, crate::stats::record_thread());
            }
            durations.push(r.duration_ns);
            bytes.push(r.bytes);
            match r.thread_id {
                Some(t) => {
                    push_if_absent(&mut threads, t);
                    proof {
                        assert(thread_ids_of(grp.push(rm)) =~= thread_ids_of(grp).push(t));
                        assert(thread_ids_of(grp).push(t).to_set() =~= thread_ids_of(
                            grp,
                        ).to_set().insert(t)) by {
                            let s = thread_ids_of(grp);
                            assert(forall|y: u64| #[trigger] s.push(t).contains(y) <==> (
                            s.contains(y) || y == t)) by {
                                assert(forall|j: int| 0 <= j < s.len() ==> s.push(t)[j] == s[j]);
                                assert(s.push(t).last() == t);
                            }
                        }
                    }
                },
                None => {
                    proof {
                        assert(thread_ids_of(grp.push(rm)) =~= thread_ids_of(grp));
                    }
                },
            }
        }
        i += 1;
    }
    proof {
        assert(g.take(g.len() as int) =~= g);
    }
    (durations, bytes, threads)
}

/// The statistics of the selector's group, or nothing when the group is
/// empty.
pub fn group_stats_for(records: &Vec<OperationRecord>, sel: &GroupSelector) -> (s: Option<
    GroupStats>)
    ensures
        ({
            let grp = group_records(records.deep_view(), sel.deep_view());
            match s {
                None => grp.len() == 0,
                Some(st) => group_stats_match(grp, st),
            }
        }),
{
    let (durations, bytes, threads) = collect_group(records, sel);
    let ghost grp = group_records(records.deep_view(), sel.deep_view());
    if durations.len() == 0 {
        proof {
            assert(durations_of(grp).len() == grp.len());
        }
        None
    } else {
        let st = finalize_stats(&durations, &bytes, &threads);
        proof {
            assert(durations_of(grp).len() == grp.len());
            threads@.lemma_cardinality_of_empty_set_is_0();
            thread_ids_of(grp).lemma_cardinality_of_empty_set_is_0();
            assert(threads@.len() == 0 <==> thread_ids_of(grp).len() == 0);
        }
        Some(st)
    }
}

/// The grouping key of one record: its size bucket and operation tag.
pub open spec fn record_key(r: RecordModel) -> (ByteBucket, Seq<char>) {
    (bucket_for_ordinal(bucket_ordinal_of(r.bytes)), r.op)
}

/// The strict order of report rows: bucket ordinal ascending, then
/// operation tag ascending lexicographically.
pub open spec fn key_lt(a: (ByteBucket, Seq<char>), b: (ByteBucket, Seq<char>)) -> bool {
    ||| a.0.ordinal_spec() < b.0.ordinal_spec()
    ||| (a.0 == b.0 && a.1 != b.1 && lex_le(a.1, b.1))
}

/// Keys are strictly ascending: sorted with no duplicates.
pub open spec fn keys_sorted(ks: Seq<(ByteBucket, Seq<char>)>) -> bool {
    forall|i: int, j: int| 0 <= i < j < ks.len() ==> key_lt(ks[i], ks[j])
}

proof fn lemma_key_lt_trichotomy(a: (ByteBucket, Seq<char>), b: (ByteBucket, Seq<char>))
    ensures
        a == b || key_lt(a, b) || key_lt(b, a),
        key_lt(a, b) ==> !key_lt(b, a) && a != b,
{
    if a.0 == b.0 {
        lemma_lex_le_total(a.1, b.1);
        if lex_le(a.1, b.1) && lex_le(b.1, a.1) {
            lemma_lex_le_antisymmetric(a.1, b.1);
        }
    }
}

proof fn lemma_key_lt_transitive(a: (ByteBucket, Seq<char>), b: (ByteBucket, Seq<char>), c: (
    ByteBucket,
    Seq<char>,
))
    requires
        key_lt(a, b),
        key_lt(b, c),
    ensures
        key_lt(a, c),
{
    if a.0 == b.0 && b.0 == c.0 {
        lemma_lex_le_transitive(a.1, b.1, c.1);
        if a.1 == c.1 {
            lemma_lex_le_antisymmetric(a.1, b.1);
        }
    }
}

fn key_lt_exec(a_bucket: ByteBucket, a_op: &String, b_bucket: ByteBucket, b_op: &String) -> (r:
    bool)
    ensures
        r == key_lt((a_bucket, a_op@), (b_bucket, b_op@)),
{
    let ao = a_bucket.to_bucket_number();
    let bo = b_bucket.to_bucket_number();
    if ao < bo {
        true
    } else if bo < ao {
        false
    } else {
        proof {
            assert(a_bucket == b_bucket);
        }
        if str_eq(a_op.as_str(), b_op.as_str()) {
            false
        } else {
            str_le(a_op.as_str(), b_op.as_str())
        }
    }
}

/// Record a key in the strictly-sorted key list, keeping it sorted and
/// duplicate-free.
fn insert_key(keys: &mut Vec<(ByteBucket, String)>, bucket: ByteBucket, op: &String)
    requires
        keys_sorted(old(keys).deep_view()),
    ensures
        keys_sorted(final(keys).deep_view()),
        forall|k: (ByteBucket, Seq<char>)|
            final(keys).deep_view().contains(k) <==> (old(keys).deep_view().contains(k) || k
                == (bucket, op@)),
{
    let ghost km = keys.deep_view();
    let ghost newk = (bucket, op@);
    let mut p: usize = 0;
    while p < keys.len() && key_lt_exec(keys[p].0, &keys[p].1, bucket, op)
        invariant
            km == keys.deep_view(),
            km.len() == keys@.len(),
            0 <= p <= km.len(),
            newk == (bucket, op@),
            forall|a: int| 0 <= a < p ==> key_lt(#[trigger] km[a], newk),
        decreases km.len() - p,
    {
        proof {
            assert(km[p as int] == (keys@[p as int].0, keys@[p as int].1@));
        }
        p += 1;
    }
    proof {
        assert(forall|a: int|
            0 <= a < km.len() ==> km[a] == (keys@[a].0, #[trigger] keys@[a].1@));
    }
    if p < keys.len() {
        let same_bucket = keys[p].0.to_bucket_number() == bucket.to_bucket_number();
        if same_bucket && str_eq(keys[p].1.as_str(), op.as_str()) {
            proof {
                assert(km[p as int] == newk);
            }
            return ;
        }
        proof {
            assert(km[p as int] != newk);
            lemma_key_lt_trichotomy(km[p as int], newk);
            assert(key_lt(newk, km[p as int]));
        }
    }
    let ghost before = keys.deep_view();
    keys.insert(p, (bucket, op.clone()));
    proof {
        let after = keys.deep_view();
        assert(after.len() == before.len() + 1);
        assert(after[p as int] == newk);
        assert(forall|a: int| 0 <= a < p ==> after[a] == #[trigger] before[a]);
        assert(forall|a: int|
            p < a < after.len() ==> after[a] == #[trigger] before[a - 1]) by {
            assert(forall|a: int|
                p < a < after.len() ==> keys@[a] == #[trigger] old(keys)@[a - 1]);
        }
        assert(keys_sorted(after)) by {
            assert forall|i: int, j: int| 0 <= i < j < after.len() implies key_lt(
                after[i],
                after[j],
            ) by {
                if i < p && j == p {
                } else if i == p && j > p {
                    assert(after[j] == before[j - 1]);
                    if j - 1 > p {
                        assert(key_lt(before[p as int], before[j - 1]));
                        lemma_key_lt_transitive(newk, before[p as int], before[j - 1]);
                    }
                } else if i < p && j > p {
                    assert(after[i] == before[i]);
                    assert(after[j] == before[j - 1]);
                    if i < j - 1 {
                        assert(key_lt(before[i], before[j - 1]));
                    } else {
                        lemma_key_lt_transitive(before[i], newk, before[j - 1]);
                    }
                }
            }
        }
        assert forall|k: (ByteBucket, Seq<char>)| #[trigger] after.contains(k) <==> (
        before.contains(k) || k == newk) by {
            if after.contains(k) {
                let i = choose|i: int| 0 <= i < after.len() && after[i] == k;
                if i < p {
                    assert(before[i] == k);
                } else if i > p {
                    assert(before[i - 1] == k);
                }
            }
            if before.contains(k) {
                let i = choose|i: int| 0 <= i < before.len() && before[i] == k;
                if i < p {
                    assert(after[i] == k);
                } else {
                    assert(after[i + 1] == k);
                }
            }
            if k == newk {
                assert(after[p as int] == k);
            }
        }
    }
}

/// Collect the distinct grouping keys of a record set, strictly sorted.
fn collect_keys(records: &Vec<OperationRecord>) -> (keys: Vec<(ByteBucket, String)>)
    ensures
        keys_sorted(keys.deep_view()),
        forall|k: (ByteBucket, Seq<char>)|
            keys.deep_view().contains(k) <==> exists|j: int|
                0 <= j < records.deep_view().len() && record_key(
                    #[trigger] records.deep_view()[j],
                ) == k,
{
    let ghost g = records.deep_view();
    let mut keys: Vec<(ByteBucket, String)> = Vec::new();
    let mut i: usize = 0;
    while i < records.len()
        invariant
            g == records.deep_view(),
            g.len() == records@.len(),
            0 <= i <= g.len(),
            keys_sorted(keys.deep_view()),
            forall|k: (ByteBucket, Seq<char>)|
                keys.deep_view().contains(k) <==> exists|j: int|
                    0 <= j < i && record_key(#[trigger] g[j]) == k,
        decreases g.len() - i,
    {
        let r = &records[i];
        let bucket = ByteBucket::from_bytes(r.bytes);
        proof {
            assert(g[i as int] == records@[i as int].deep_view());
            assert((bucket, r.op@) == record_key(g[i as int]));
        }
        insert_key(&mut keys, bucket, &r.op);
        i += 1;
    }
    keys
}

/// One row of the grouped report: the statistics of one (operation, size
/// bucket) group, together with the effective duration its throughput is
/// measured against.
pub struct AggregateRow {
    pub op: String,
    pub bucket: ByteBucket,
    pub stats: GroupStats,
    pub eff_duration_ns: u64,
}

/// The mathematical content of a report row.
pub struct RowModel {
    pub op: Seq<char>,
    pub bucket: ByteBucket,
    pub stats: GroupStats,
    pub eff_duration_ns: u64,
}

impl View for AggregateRow {
    type V = RowModel;

    open spec fn view(&self) -> RowModel {
        RowModel {
            op: self.op@,
            bucket: self.bucket,
            stats: self.stats,
            eff_duration_ns: self.eff_duration_ns,
        }
    }
}

impl DeepView for AggregateRow {
    type V = RowModel;

    open spec fn deep_view(&self) -> RowModel {
        self.view()
    }
}

/// The key of a report row.
pub open spec fn row_key(r: RowModel) -> (ByteBucket, Seq<char>) {
    (r.bucket, r.op)
}

/// Whether one row correctly describes its group within `g`.
pub open spec fn row_matches(g: Seq<RecordModel>, et: EffectiveTimes, row: RowModel) -> bool {
    &&& group_stats_match(group_records(g, SelectorModel::Key(row.bucket, row.op)), row.stats)
    &&& row.eff_duration_ns == et.for_category(category_of_op(row.op))
}

/// The keys of a row sequence, in row order.
pub open spec fn row_keys(rows: Seq<RowModel>) -> Seq<(ByteBucket, Seq<char>)> {
    rows.map_values(|r: RowModel| row_key(r))
}

/// What the grouped report states: rows strictly ascending by (bucket
/// ordinal, operation), each row the exact statistics of its non-empty
/// group with the category's effective duration, and a row present for
/// every record's key. This determines the row sequence uniquely.
pub open spec fn rows_match_records(
    g: Seq<RecordModel>,
    et: EffectiveTimes,
    rows: Seq<RowModel>,
) -> bool {
    &&& forall|i: int, j: int|
        0 <= i < j < rows.len() ==> key_lt(row_key(rows[i]), row_key(rows[j]))
    &&& forall|i: int| 0 <= i < rows.len() ==> row_matches(g, et, #[trigger] rows[i])
    &&& forall|j: int|
        0 <= j < g.len() ==> #[trigger] row_keys(rows).contains(record_key(g[j]))
}

/// Group the records by (operation, size bucket) and compute each group's
/// statistics, ordered by bucket ordinal and then operation tag. Groups
/// are exactly the non-empty ones, so no zero-count row appears.
pub fn aggregate_by_bucket(records: &Vec<OperationRecord>, et: &EffectiveTimes) -> (rows: Vec<
    AggregateRow>)
    ensures
        rows_match_records(records.deep_view(), *et, rows.deep_view()),
{
    let ghost g = records.deep_view();
    let keys = collect_keys(records);
    let ghost km = keys.deep_view();
    let mut rows: Vec<AggregateRow> = Vec::new();
    let mut t: usize = 0;
    while t < keys.len()
        invariant
            g == records.deep_view(),
            km == keys.deep_view(),
            km.len() == keys@.len(),
            keys_sorted(km),
            forall|k: (ByteBucket, Seq<char>)|
                km.contains(k) <==> exists|j: int|
                    0 <= j < g.len() && record_key(#[trigger] g[j]) == k,
            0 <= t <= km.len(),
            rows.deep_view().len() == t,
            forall|i: int|
                0 <= i < t ==> row_key(#[trigger] rows.deep_view()[i]) == km[i],
            forall|i: int|
                0 <= i < t ==> row_matches(g, *et, #[trigger] rows.deep_view()[i]),
        decreases km.len() - t,
    {
        let bucket = keys[t].0;
        let op = &keys[t].1;
        proof {
            assert(km[t as int] == (keys@[t as int].0, keys@[t as int].1@));
        }
        let sel = GroupSelector::Key(bucket, op.clone());
        let stats_opt = group_stats_for(records, &sel);
        let ghost grp = group_records(g, sel.deep_view());
        proof {
            assert(km.contains(km[t as int]));
            let j = choose|j: int| 0 <= j < g.len() && record_key(g[j]) == km[t as int];
            assert(bucket_for_ordinal(bucket_ordinal_of(g[j].bytes)) == bucket);
            assert(bucket_ordinal_of(g[j].bytes) == bucket.ordinal_spec());
            assert(selects(sel.deep_view(), g[j]));
            g.lemma_filter_contains(selector_pred(sel.deep_view()), j);
            assert(grp.len() > 0);
        }
        match stats_opt {
            Some(st) => {
                let eff = eff_for_op(et, op.as_str());
                let ghost before = rows.deep_view();
                let row = AggregateRow { op: op.clone(), bucket, stats: st, eff_duration_ns: eff };
                let ghost rowm = row@;
                rows.push(row);
                proof {
                    assert(rows.deep_view() =~= before.push(rowm));
                }
            },
            None => {
                proof {
                    assert(false);
                }
            },
        }
        t += 1;
    }
    proof {
        let rm = rows.deep_view();
        assert forall|j: int|
            0 <= j < g.len() implies #[trigger] row_keys(rm).contains(record_key(g[j])) by {
            assert(km.contains(record_key(g[j])));
            let i = choose|i: int| 0 <= i < km.len() && #[trigger] km[i] == record_key(g[j]);
            assert(row_keys(rm)[i] == row_key(rm[i]));
            assert(row_keys(rm)[i] == record_key(g[j]));
        }
    }
    rows
}

proof fn lemma_sorted_keys_unique(ks1: Seq<(ByteBucket, Seq<char>)>, ks2: Seq<(ByteBucket, Seq<
    char>)>)
    requires
        keys_sorted(ks1),
        keys_sorted(ks2),
        forall|k: (ByteBucket, Seq<char>)| ks1.contains(k) <==> ks2.contains(k),
    ensures
        ks1 == ks2,
    decreases ks1.len(),
{
    if ks1.len() == 0 {
        if ks2.len() > 0 {
            assert(ks2.contains(ks2[0]));
            assert(ks1.contains(ks2[0]));
        }
        assert(ks1 =~= ks2);
    } else if ks2.len() == 0 {
        assert(ks1.contains(ks1[0]));
        assert(ks2.contains(ks1[0]));
    } else {
        let a = ks1[0];
        let b = ks2[0];
        assert(ks1.contains(a));
        assert(ks2.contains(a));
        assert(ks2.contains(b));
        assert(ks1.contains(b));
        let i = choose|i: int| 0 <= i < ks2.len() && ks2[i] == a;
        let j = choose|j: int| 0 <= j < ks1.len() && ks1[j] == b;
        if a != b {
            assert(i > 0);
            assert(key_lt(b, a));
            assert(j > 0);
            assert(key_lt(a, b));
            lemma_key_lt_trichotomy(a, b);
        }
        let t1 = ks1.drop_first();
        let t2 = ks2.drop_first();
        assert(forall|x: int| 0 <= x < t1.len() ==> #[trigger] t1[x] == ks1[x + 1]);
        assert(forall|x: int| 0 <= x < t2.len() ==> #[trigger] t2[x] == ks2[x + 1]);
        assert(keys_sorted(t1));
        assert(keys_sorted(t2));
        assert forall|k: (ByteBucket, Seq<char>)| t1.contains(k) <==> t2.contains(k) by {
            assert forall|k: (ByteBucket, Seq<char>)| #[trigger] t1.contains(k) implies
                ks1.contains(k) && k != a by {
                let x = choose|x: int| 0 <= x < t1.len() && t1[x] == k;
                assert(ks1[x + 1] == k);
                assert(key_lt(a, k));
                lemma_key_lt_trichotomy(a, k);
            }
            assert forall|k: (ByteBucket, Seq<char>)| #[trigger] t2.contains(k) implies
                ks2.contains(k) && k != b by {
                let x = choose|x: int| 0 <= x < t2.len() && t2[x] == k;
                assert(ks2[x + 1] == k);
                assert(key_lt(b, k));
                lemma_key_lt_trichotomy(b, k);
            }
            assert forall|k: (ByteBucket, Seq<char>)|
                ks1.contains(k) && k != a implies #[trigger] t1.contains(k) by {
                let x = choose|x: int| 0 <= x < ks1.len() && ks1[x] == k;
                assert(x > 0);
                assert(t1[x - 1] == k);
            }
            assert forall|k: (ByteBucket, Seq<char>)|
                ks2.contains(k) && k != b implies #[trigger] t2.contains(k) by {
                let x = choose|x: int| 0 <= x < ks2.len() && ks2[x] == k;
                assert(x > 0);
                assert(t2[x - 1] == k);
            }
        }
        lemma_sorted_keys_unique(t1, t2);
        assert(ks1 =~= ks2) by {
            assert(ks1.len() == t1.len() + 1);
            assert(ks2.len() == t2.len() + 1);
            assert(forall|x: int| 1 <= x < ks1.len() ==> #[trigger] ks1[x] == t1[x - 1]);
            assert(forall|x: int| 1 <= x < ks2.len() ==> #[trigger] ks2[x] == t2[x - 1]);
        }
    }
}

/// Grouped aggregation is stable under shuffling of the input records:
/// any two row sequences that the aggregation contract admits for record
/// sets holding the same records (as a multiset) are equal. Together
/// with the contract's ordering clause, the grouped report is a function
/// of the records alone, in ascending (bucket ordinal, operation) order,
/// whatever order the records arrive in.
pub proof fn lemma_aggregation_shuffle_invariant(
    g1: Seq<RecordModel>,
    g2: Seq<RecordModel>,
    et: EffectiveTimes,
    rows1: Seq<RowModel>,
    rows2: Seq<RowModel>,
)
    requires
        g1.to_multiset() == g2.to_multiset(),
        rows_match_records(g1, et, rows1),
        rows_match_records(g2, et, rows2),
    ensures
        rows1 == rows2,
{
    broadcast use vstd::seq_lib::group_filter_ensures;

    let ks1 = row_keys(rows1);
    let ks2 = row_keys(rows2);
    assert(forall|i: int| 0 <= i < ks1.len() ==> #[trigger] ks1[i] == row_key(rows1[i]));
    assert(forall|i: int| 0 <= i < ks2.len() ==> #[trigger] ks2[i] == row_key(rows2[i]));
    assert(keys_sorted(ks1));
    assert(keys_sorted(ks2));
    crate::seqfacts::lemma_multiset_same_contains(g1, g2);
    assert forall|k: (ByteBucket, Seq<char>)| #[trigger] ks1.contains(k) implies ks2.contains(
        k,
    ) by {
        let i = choose|i: int| 0 <= i < ks1.len() && ks1[i] == k;
        let row = rows1[i];
        let grp = group_records(g1, SelectorModel::Key(row.bucket, row.op));
        assert(grp.len() > 0);
        assert(grp.contains(grp[0]));
        g1.lemma_filter_contains_rev(selector_pred(SelectorModel::Key(row.bucket, row.op)),
            grp[0]);
        assert(selector_pred(SelectorModel::Key(row.bucket, row.op))(grp[0]));
        assert(g1.contains(grp[0]));
        assert(record_key(grp[0]) == k) by {
            assert(bucket_ordinal_of(grp[0].bytes) == row.bucket.ordinal_spec());
            assert(bucket_for_ordinal(row.bucket.ordinal_spec()) == row.bucket);
        }
        assert(g2.contains(grp[0]));
        let j = choose|j: int| 0 <= j < g2.len() && g2[j] == grp[0];
        assert(row_keys(rows2).contains(record_key(g2[j])));
    }
    assert forall|k: (ByteBucket, Seq<char>)| #[trigger] ks2.contains(k) implies ks1.contains(
        k,
    ) by {
        let i = choose|i: int| 0 <= i < ks2.len() && ks2[i] == k;
        let row = rows2[i];
        let grp = group_records(g2, SelectorModel::Key(row.bucket, row.op));
        assert(grp.len() > 0);
        assert(grp.contains(grp[0]));
        g2.lemma_filter_contains_rev(selector_pred(SelectorModel::Key(row.bucket, row.op)),
            grp[0]);
        assert(selector_pred(SelectorModel::Key(row.bucket, row.op))(grp[0]));
        assert(g2.contains(grp[0]));
        assert(record_key(grp[0]) == k) by {
            assert(bucket_ordinal_of(grp[0].bytes) == row.bucket.ordinal_spec());
            assert(bucket_for_ordinal(row.bucket.ordinal_spec()) == row.bucket);
        }
        assert(g1.contains(grp[0]));
        let j = choose|j: int| 0 <= j < g1.len() && g1[j] == grp[0];
        assert(row_keys(rows1).contains(record_key(g1[j])));
    }
    lemma_sorted_keys_unique(ks1, ks2);
    assert(rows1.len() == rows2.len());
    assert forall|i: int| 0 <= i < rows1.len() implies rows1[i] == rows2[i] by {
        assert(ks1[i] == ks2[i]);
        assert(rows1[i].bucket == rows2[i].bucket);
        assert(rows1[i].op == rows2[i].op);
        let sel = SelectorModel::Key(rows1[i].bucket, rows1[i].op);
        crate::seqfacts::lemma_filter_multiset(g1, g2, selector_pred(sel));
        crate::stats::lemma_group_stats_permutation(
            group_records(g1, sel),
            group_records(g2, sel),
            rows1[i].stats,
            rows2[i].stats,
        );
        assert(rows1[i].eff_duration_ns == rows2[i].eff_duration_ns);
    }
    assert(rows1 =~= rows2);
}

/// The sum of the rows' operation counts.
pub open spec fn rows_total_count(rows: Seq<RowModel>) -> int
    decreases rows.len(),
{
    if rows.len() == 0 {
        0
    } else {
        rows_total_count(rows.drop_last()) + rows.last().stats.count
    }
}

/// The sum, over the given keys, of the sizes of their groups in `g`.
spec fn keys_group_total(g: Seq<RecordModel>, ks: Seq<(ByteBucket, Seq<char>)>) -> int
    decreases ks.len(),
{
    if ks.len() == 0 {
        0
    } else {
        keys_group_total(g, ks.drop_last()) + group_records(
            g,
            SelectorModel::Key(ks.last().0, ks.last().1),
        ).len()
    }
}

proof fn lemma_group_total_empty(ks: Seq<(ByteBucket, Seq<char>)>)
    ensures
        keys_group_total(Seq::<RecordModel>::empty(), ks) == 0,
    decreases ks.len(),
{
    reveal(Seq::filter);
    if ks.len() > 0 {
        lemma_group_total_empty(ks.drop_last());
    }
}

proof fn lemma_group_total_push(
    g: Seq<RecordModel>,
    r: RecordModel,
    ks: Seq<(ByteBucket, Seq<char>)>,
)
    requires
        ks.no_duplicates(),
    ensures
        keys_group_total(g.push(r), ks) == keys_group_total(g, ks) + if ks.contains(
            record_key(r),
        ) {
            1int
        } else {
            0int
        },
    decreases ks.len(),
{
    if ks.len() > 0 {
        let k = ks.last();
        let rest = ks.drop_last();
        assert(rest.no_duplicates()) by {
            assert(forall|i: int| 0 <= i < rest.len() ==> rest[i] == #[trigger] ks[i]);
        }
        lemma_group_total_push(g, r, rest);
        crate::seqfacts::lemma_filter_push(g, r, selector_pred(SelectorModel::Key(k.0, k.1)));
        assert(selects(SelectorModel::Key(k.0, k.1), r) <==> record_key(r) == k) by {
            if selects(SelectorModel::Key(k.0, k.1), r) {
                assert(bucket_for_ordinal(k.0.ordinal_spec()) == k.0);
            }
            if record_key(r) == k {
                assert(bucket_for_ordinal(bucket_ordinal_of(r.bytes)) == k.0);
                assert(bucket_ordinal_of(r.bytes) == k.0.ordinal_spec());
            }
        }
        assert(ks.contains(record_key(r)) <==> (rest.contains(record_key(r)) || record_key(r)
            == k)) by {
            if ks.contains(record_key(r)) {
                let i = choose|i: int| 0 <= i < ks.len() && ks[i] == record_key(r);
                if i < ks.len() - 1 {
                    assert(rest[i] == record_key(r));
                }
            }
            if rest.contains(record_key(r)) {
                let i = choose|i: int| 0 <= i < rest.len() && rest[i] == record_key(r);
                assert(ks[i] == record_key(r));
            }
        }
        if record_key(r) == k {
            assert(!rest.contains(k)) by {
                if rest.contains(k) {
                    let i = choose|i: int| 0 <= i < rest.len() && rest[i] == k;
                    assert(ks[i] == ks[ks.len() - 1]);
                }
            }
        }
    }
}

proof fn lemma_groups_partition(g: Seq<RecordModel>, ks: Seq<(ByteBucket, Seq<char>)>)
    requires
        ks.no_duplicates(),
        forall|j: int| 0 <= j < g.len() ==> ks.contains(record_key(#[trigger] g[j])),
    ensures
        keys_group_total(g, ks) == g.len(),
    decreases g.len(),
{
    if g.len() == 0 {
        assert(g =~= Seq::<RecordModel>::empty());
        lemma_group_total_empty(ks);
    } else {
        let g0 = g.drop_last();
        let r = g.last();
        assert(forall|j: int| 0 <= j < g0.len() ==> g0[j] == #[trigger] g[j]);
        lemma_groups_partition(g0, ks);
        lemma_group_total_push(g0, r, ks);
        assert(g0.push(r) =~= g);
        assert(ks.contains(record_key(g[g.len() - 1])));
    }
}

proof fn lemma_rows_total_eq(g: Seq<RecordModel>, et: EffectiveTimes, rows: Seq<RowModel>)
    requires
        forall|i: int| 0 <= i < rows.len() ==> row_matches(g, et, #[trigger] rows[i]),
    ensures
        rows_total_count(rows) == keys_group_total(g, row_keys(rows)),
    decreases rows.len(),
{
    if rows.len() > 0 {
        let rest = rows.drop_last();
        assert(forall|i: int| 0 <= i < rest.len() ==> rest[i] == #[trigger] rows[i]);
        lemma_rows_total_eq(g, et, rest);
        assert(row_keys(rest) =~= row_keys(rows).drop_last());
        let row = rows.last();
        assert(row_matches(g, et, row));
        assert(row_keys(rows).last() == row_key(row));
    }
}

/// Every record is counted exactly once across the grouped rows: the
/// rows' operation counts sum to the number of records, so the
/// grand-total line agrees with the rows it stands under.
pub proof fn lemma_rows_counts_partition_records(
    g: Seq<RecordModel>,
    et: EffectiveTimes,
    rows: Seq<RowModel>,
)
    requires
        rows_match_records(g, et, rows),
    ensures
        rows_total_count(rows) == g.len(),
{
    let ks = row_keys(rows);
    assert(forall|i: int| 0 <= i < ks.len() ==> #[trigger] ks[i] == row_key(rows[i]));
    assert(ks.no_duplicates()) by {
        assert forall|i: int, j: int|
            0 <= i < ks.len() && 0 <= j < ks.len() && i != j implies ks[i] != ks[j] by {
            if i < j {
                assert(key_lt(row_key(rows[i]), row_key(rows[j])));
                lemma_key_lt_trichotomy(ks[i], ks[j]);
            } else {
                assert(key_lt(row_key(rows[j]), row_key(rows[i])));
                lemma_key_lt_trichotomy(ks[j], ks[i]);
            }
        }
    }
    lemma_rows_total_eq(g, et, rows);
    lemma_groups_partition(g, ks);
}

/// The effective duration that applies to an operation: its category's.
pub fn eff_for_op(et: &EffectiveTimes, op: &str) -> (d: u64)
    ensures
        d == et.for_category(category_of_op(op@)),
{
    match categorize(op) {
        OpCategory::Meta => et.meta_ns,
        OpCategory::Get => et.get_ns,
        OpCategory::Put => et.put_ns,
        OpCategory::Other => et.other_ns,
    }
}

/// The sentinel sort ordinal of a category summary; 97 through 99 place
/// the summaries after every real bucket ordinal (which is at most 8).
pub open spec fn category_sort_ordinal(c: OpCategory) -> int {
    match c {
        OpCategory::Meta => 97,
        OpCategory::Get => 98,
        OpCategory::Put => 99,
        OpCategory::Other => 0,
    }
}

/// The statistics of one named operation category over the raw records
/// of that category (not recombined from per-bucket rows), with the
/// category's effective duration.
#[derive(Clone, Copy, Debug, PartialEq, Eq, Structural)]
pub struct CategorySummary {
    pub category: OpCategory,
    pub sort_ordinal: u8,
    pub stats: GroupStats,
    pub eff_duration_ns: u64,
}

/// Compute the summary of one category from all its raw records. Absent
/// exactly when the category has no records, so an empty category
/// produces no row at all.
pub fn aggregate_category(records: &Vec<OperationRecord>, category: OpCategory,
    et: &EffectiveTimes) -> (r: Option<CategorySummary>)
    ensures
        match r {
            None => category_records(records.deep_view(), category).len() == 0,
            Some(s) => {
                &&& group_stats_match(category_records(records.deep_view(), category), s.stats)
                &&& s.category == category
                &&& s.sort_ordinal == category_sort_ordinal(category)
                &&& s.eff_duration_ns == et.for_category(category)
            },
        },
{
    let sel = GroupSelector::Category(category);
    proof {
        assert(selector_pred(SelectorModel::Category(category)) =~= crate::window::category_pred(
            category,
        ));
    }
    let stats_opt = group_stats_for(records, &sel);
    match stats_opt {
        None => None,
        Some(st) => {
            let sort_ordinal: u8 = match category {
                OpCategory::Meta => 97,
                OpCategory::Get => 98,
                OpCategory::Put => 99,
                OpCategory::Other => 0,
            };
            let eff = match category {
                OpCategory::Meta => et.meta_ns,
                OpCategory::Get => et.get_ns,
                OpCategory::Put => et.put_ns,
                OpCategory::Other => et.other_ns,
            };
            Some(CategorySummary { category, sort_ordinal, stats: st, eff_duration_ns: eff })
        },
    }
}

} // verus!
