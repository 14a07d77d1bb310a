//! Auxiliary breakdowns: the same aggregation keyed by client or
//! endpoint instead of size bucket, with a nested pass per (dimension
//! value, operation category).

use vstd::prelude::*;
use crate::aggregate::{category_sort_ordinal, group_records, group_stats_for, selects,
    GroupSelector, SelectorModel};
use crate::lexorder::{lemma_lex_le_antisymmetric, lemma_lex_le_total, lemma_lex_le_transitive,
    lex_le, str_eq, str_le};
use crate::record::{category_of_op, OpCategory, OperationRecord, RecordModel};
use crate::seqfacts::lemma_filter_map_contains;
use crate::stats::{group_stats_match, GroupStats};
use crate::window::EffectiveTimes;

verus! {

/// The auxiliary grouping dimension.
#[derive(Clone, Copy, Debug, PartialEq, Eq, Structural)]
pub enum Dimension {
    Client,
    Endpoint,
}

/// The dimension's value on one record, when the record carries one.
pub open spec fn dimension_value(r: RecordModel, d: Dimension) -> Option<Seq<char>> {
    match d {
        Dimension::Client => r.client_id,
        Dimension::Endpoint => r.endpoint,
    }
}

/// All dimension values present in a record set, in record order.
pub open spec fn dimension_values(g: Seq<RecordModel>, d: Dimension) -> Seq<Seq<char>> {
    g.filter_map(|r: RecordModel| dimension_value(r, d))
}

/// The selector of one dimension value's group.
pub open spec fn dim_selector(d: Dimension, v: Seq<char>) -> SelectorModel {
    match d {
        Dimension::Client => SelectorModel::Client(v),
        Dimension::Endpoint => SelectorModel::Endpoint(v),
    }
}

/// The selector of one (dimension value, category) group.
pub open spec fn dim_cat_selector(d: Dimension, v: Seq<char>, c: OpCategory) -> SelectorModel {
    match d {
        Dimension::Client => SelectorModel::ClientCategory(v, c),
        Dimension::Endpoint => SelectorModel::EndpointCategory(v, c),
    }
}

/// Strictly ascending lexicographically: sorted with no duplicates.
pub open spec fn values_sorted(vs: Seq<Seq<char>>) -> bool {
    forall|i: int, j: int|
        0 <= i < j < vs.len() ==> vs[i] != vs[j] && lex_le(#[trigger] vs[i], #[trigger] vs[j])
}

/// One row of a breakdown: the statistics of all records that carry one
/// dimension value. Its throughput denominator is the overall run
/// duration (operations of every category mix in one such row).
pub struct DimensionRow {
    pub value: String,
    pub stats: GroupStats,
    pub eff_duration_ns: u64,
}

/// The mathematical content of a breakdown row.
pub struct DimensionRowModel {
    pub value: Seq<char>,
    pub stats: GroupStats,
    pub eff_duration_ns: u64,
}

impl View for DimensionRow {
    type V = DimensionRowModel;

    open spec fn view(&self) -> DimensionRowModel {
        DimensionRowModel {
            value: self.value@,
            stats: self.stats,
            eff_duration_ns: self.eff_duration_ns,
        }
    }
}

impl DeepView for DimensionRow {
    type V = DimensionRowModel;

    open spec fn deep_view(&self) -> DimensionRowModel {
        self.view()
    }
}

/// One nested row: the statistics of one dimension value restricted to
/// one named category, with that category's effective duration.
pub struct DimensionCategoryRow {
    pub value: String,
    pub category: OpCategory,
    pub sort_ordinal: u8,
    pub stats: GroupStats,
    pub eff_duration_ns: u64,
}

/// The mathematical content of a nested breakdown row.
pub struct DimensionCategoryRowModel {
    pub value: Seq<char>,
    pub category: OpCategory,
    pub sort_ordinal: u8,
    pub stats: GroupStats,
    pub eff_duration_ns: u64,
}

impl View for DimensionCategoryRow {
    type V = DimensionCategoryRowModel;

    open spec fn view(&self) -> DimensionCategoryRowModel {
        DimensionCategoryRowModel {
            value: self.value@,
            category: self.category,
            sort_ordinal: self.sort_ordinal,
            stats: self.stats,
            eff_duration_ns: self.eff_duration_ns,
        }
    }
}

impl DeepView for DimensionCategoryRow {
    type V = DimensionCategoryRowModel;

    open spec fn deep_view(&self) -> DimensionCategoryRowModel {
        self.view()
    }
}

/// A whole breakdown: one row per dimension value, and one nested row
/// per (value, named category) with records.
pub struct DimensionBreakdown {
    pub rows: Vec<DimensionRow>,
    pub category_rows: Vec<DimensionCategoryRow>,
}

/// The values of a breakdown's rows, in row order.
pub open spec fn dim_row_values(rows: Seq<DimensionRowModel>) -> Seq<Seq<char>> {
    rows.map_values(|r: DimensionRowModel| r.value)
}

/// What the per-value rows state: strictly ascending by value, each row
/// the exact statistics of its non-empty group measured against the
/// overall duration, and a row for every value that occurs.
pub open spec fn dim_rows_match(
    g: Seq<RecordModel>,
    d: Dimension,
    et: EffectiveTimes,
    rows: Seq<DimensionRowModel>,
) -> bool {
    &&& values_sorted(dim_row_values(rows))
    &&& forall|i: int|
        0 <= i < rows.len() ==> group_stats_match(
            group_records(g, dim_selector(d, (#[trigger] rows[i]).value)),
            rows[i].stats,
        ) && rows[i].eff_duration_ns == et.overall_ns
    &&& forall|j: int|
        0 <= j < g.len() && dimension_value(#[trigger] g[j], d) is Some
            ==> dim_row_values(rows).contains(dimension_value(g[j], d)->Some_0)
}

/// Every nested row is sound: its statistics are exactly those of its
/// non-empty (value, named category) group, with the category's sentinel
/// ordinal and effective duration.
pub open spec fn crows_ok(
    g: Seq<RecordModel>,
    d: Dimension,
    et: EffectiveTimes,
    crows: Seq<DimensionCategoryRowModel>,
) -> bool {
    forall|i: int|
        0 <= i < crows.len() ==> {
            let row = #[trigger] crows[i];
            &&& group_stats_match(
                group_records(g, dim_cat_selector(d, row.value, row.category)),
                row.stats,
            )
            &&& row.category != OpCategory::Other
            &&& row.sort_ordinal == category_sort_ordinal(row.category)
            &&& row.eff_duration_ns == et.for_category(row.category)
        }
}

/// The (value, category) keys of the nested rows, in row order.
pub open spec fn dim_category_keys(crows: Seq<DimensionCategoryRowModel>) -> Seq<
    (Seq<char>, OpCategory),
> {
    crows.map_values(|r: DimensionCategoryRowModel| (r.value, r.category))
}

/// What the nested rows state: each is sound, and such a row exists for
/// every record that carries a dimension value and belongs to a named
/// category.
pub open spec fn dim_category_rows_match(
    g: Seq<RecordModel>,
    d: Dimension,
    et: EffectiveTimes,
    crows: Seq<DimensionCategoryRowModel>,
) -> bool {
    &&& crows_ok(g, d, et, crows)
    &&& forall|j: int|
        0 <= j < g.len() && dimension_value(#[trigger] g[j], d) is Some && category_of_op(
            g[j].op,
        ) != OpCategory::Other ==> dim_category_keys(crows).contains(
            (dimension_value(g[j], d)->Some_0, category_of_op(g[j].op)),
        )
}

/// Record a value in the strictly-sorted value list, keeping it sorted
/// and duplicate-free.
fn insert_value(values: &mut Vec<String>, v: &String)
    requires
        values_sorted(old(values).deep_view()),
    ensures
        values_sorted(final(values).deep_view()),
        forall|k: Seq<char>|
            final(values).deep_view().contains(k) <==> (old(values).deep_view().contains(k)
                || k == v@),
{
    let ghost vm = values.deep_view();
    let mut p: usize = 0;
    while p < values.len() && str_le(values[p].as_str(), v.as_str()) && !str_eq(
        values[p].as_str(),
        v.as_str(),
    )
        invariant
            vm == values.deep_view(),
            vm.len() == values@.len(),
            0 <= p <= vm.len(),
            forall|a: int| 0 <= a < p ==> #[trigger] vm[a] != v@ && lex_le(vm[a], v@),
        decreases vm.len() - p,
    {
        proof {
            assert(vm[p as int] == values@[p as int]@);
        }
        p += 1;
    }
    proof {
        assert(forall|a: int| 0 <= a < vm.len() ==> vm[a] == #[trigger] values@[a]@);
    }
    if p < values.len() {
        if str_eq(values[p].as_str(), v.as_str()) {
            proof {
                assert(vm[p as int] == v@);
            }
            return ;
        }
        proof {
            assert(vm[p as int] != v@);
            lemma_lex_le_total(vm[p as int], v@);
            if lex_le(vm[p as int], v@) && lex_le(v@, vm[p as int]) {
                lemma_lex_le_antisymmetric(vm[p as int], v@);
            }
            assert(lex_le(v@, vm[p as int]));
        }
    }
    let ghost before = values.deep_view();
    values.insert(p, v.clone());
    proof {
        let after = values.deep_view();
        assert(after.len() == before.len() + 1);
        assert(after[p as int] == v@);
        assert(forall|a: int| 0 <= a < p ==> after[a] == #[trigger] before[a]);
        assert(forall|a: int|
            p < a < after.len() ==> after[a] == #[trigger] before[a - 1]) by {
            assert(forall|a: int|
                p < a < after.len() ==> values@[a] == #[trigger] old(values)@[a - 1]);
        }
        assert forall|i: int, j: int| 0 <= i < j < after.len() implies after[i] != after[j]
            && lex_le(after[i], after[j]) by {
            if j < p {
                assert(after[i] == before[i] && after[j] == before[j]);
                assert(values_sorted(before));
                assert(before[i] != before[j] && lex_le(before[i], before[j]));
            } else if i < p && j == p {
                assert(after[i] == before[i]);
            } else if i == p && j > p {
                assert(after[j] == before[j - 1]);
                if j - 1 > p {
                    assert(before[p as int] != before[j - 1] && lex_le(
                        before[p as int],
                        before[j - 1],
                    ));
                    lemma_lex_le_transitive(v@, before[p as int], before[j - 1]);
                    if v@ == before[j - 1] {
                        lemma_lex_le_antisymmetric(v@, before[p as int]);
                    }
                }
            } else if i < p && j > p {
                assert(after[i] == before[i]);
                assert(after[j] == before[j - 1]);
                if i < j - 1 {
                    assert(before[i] != before[j - 1] && lex_le(before[i], before[j - 1]));
                } else {
                    lemma_lex_le_transitive(before[i], v@, before[j - 1]);
                    if before[i] == before[j - 1] {
                        lemma_lex_le_antisymmetric(before[i], v@);
                    }
                }
            } else {
                assert(i > p && j > p);
                assert(after[i] == before[i - 1] && after[j] == before[j - 1]);
                assert(before[i - 1] != before[j - 1] && lex_le(before[i - 1], before[j - 1]));
            }
        }
        assert forall|k: Seq<char>| #[trigger] after.contains(k) <==> (before.contains(k) || k
            == v@) by {
            if after.contains(k) {
                let i = choose|i: int| 0 <= i < after.len() && after[i] == k;
                if i < p {
                    assert(before[i] == k);
                } else if i > p {
                    assert(before[i - 1] == k);
                }
            }
            if before.contains(k) {
                let i = choose|i: int| 0 <= i < before.len() && before[i] == k;
                if i < p {
                    assert(after[i] == k);
                } else {
                    assert(after[i + 1] == k);
                }
            }
            if k == v@ {
                assert(after[p as int] == k);
            }
        }
    }
}

fn dimension_value_of(r: &OperationRecord, d: Dimension) -> (v: Option<&String>)
    ensures
        match v {
            Some(s) => dimension_value(r@, d) == Some(s@),
            None => dimension_value(r@, d) is None,
        },
{
    match d {
        Dimension::Client => match &r.client_id {
            Some(c) => Some(c),
            None => None,
        },
        Dimension::Endpoint => match &r.endpoint {
            Some(e) => Some(e),
            None => None,
        },
    }
}

/// Collect the distinct dimension values of a record set, strictly
/// sorted.
fn collect_values(records: &Vec<OperationRecord>, d: Dimension) -> (values: Vec<String>)
    ensures
        values_sorted(values.deep_view()),
        forall|k: Seq<char>|
            values.deep_view().contains(k) <==> exists|j: int|
                0 <= j < records.deep_view().len() && dimension_value(
                    #[trigger] records.deep_view()[j],
                    d,
                ) == Some(k),
{
    let ghost g = records.deep_view();
    let mut values: Vec<String> = Vec::new();
    let mut i: usize = 0;
    while i < records.len()
        invariant
            g == records.deep_view(),
            g.len() == records@.len(),
            0 <= i <= g.len(),
            values_sorted(values.deep_view()),
            forall|k: Seq<char>|
                values.deep_view().contains(k) <==> exists|j: int|
                    0 <= j < i && dimension_value(#[trigger] g[j], d) == Some(k),
        decreases g.len() - i,
    {
        let r = &records[i];
        proof {
            assert(g[i as int] == records@[i as int].deep_view());
        }
        match dimension_value_of(r, d) {
            Some(v) => {
                insert_value(&mut values, v);
            },
            None => {},
        }
        i += 1;
    }
    values
}

/// Append the nested row of one (value, category) pair if the pair has
/// records; an empty pair adds nothing.
fn push_category_row(
    records: &Vec<OperationRecord>,
    d: Dimension,
    value: &String,
    cat: OpCategory,
    et: &EffectiveTimes,
    category_rows: &mut Vec<DimensionCategoryRow>,
)
    requires
        cat != OpCategory::Other,
        crows_ok(records.deep_view(), d, *et, old(category_rows).deep_view()),
    ensures
        crows_ok(records.deep_view(), d, *et, final(category_rows).deep_view()),
        group_records(records.deep_view(), dim_cat_selector(d, value@, cat)).len() > 0
            ==> dim_category_keys(final(category_rows).deep_view()) == dim_category_keys(
            old(category_rows).deep_view(),
        ).push((value@, cat)),
        group_records(records.deep_view(), dim_cat_selector(d, value@, cat)).len() == 0
            ==> final(category_rows).deep_view() == old(category_rows).deep_view(),
{
    let ghost g = records.deep_view();
    let sel = match d {
        Dimension::Client => GroupSelector::ClientCategory(value.clone(), cat),
        Dimension::Endpoint => GroupSelector::EndpointCategory(value.clone(), cat),
    };
    proof {
        assert(sel.deep_view() == dim_cat_selector(d, value@, cat));
    }
    match group_stats_for(records, &sel) {
        Some(st) => {
            let ghost before = category_rows.deep_view();
            let sort_ordinal: u8 = match cat {
                OpCategory::Meta => 97,
                OpCategory::Get => 98,
                OpCategory::Put => 99,
                OpCategory::Other => 0,
            };
            let eff = match cat {
                OpCategory::Meta => et.meta_ns,
                OpCategory::Get => et.get_ns,
                OpCategory::Put => et.put_ns,
                OpCategory::Other => et.other_ns,
            };
            let row = DimensionCategoryRow {
                value: value.clone(),
                category: cat,
                sort_ordinal,
                stats: st,
                eff_duration_ns: eff,
            };
            let ghost rowm = row@;
            category_rows.push(row);
            proof {
                assert(category_rows.deep_view() =~= before.push(rowm));
                assert(dim_category_keys(category_rows.deep_view()) =~= dim_category_keys(
                    before,
                ).push((value@, cat)));
            }
        },
        None => {},
    }
}

/// Group the records of a dataset by client or endpoint and compute each
/// value's statistics, plus a nested pass per (value, named category).
///
/// Skipped (nothing returned) exactly when fewer than two distinct
/// dimension values occur: when the dimension is absent from the records
/// altogether, or when a single value carries them all, there is nothing
/// to compare.
#[verifier::rlimit(60)]
pub fn aggregate_by_dimension(records: &Vec<OperationRecord>, d: Dimension,
    et: &EffectiveTimes) -> (r: Option<DimensionBreakdown>)
    ensures
        match r {
            None => dimension_values(records.deep_view(), d).to_set().len() <= 1,
            Some(b) => {
                &&& dimension_values(records.deep_view(), d).to_set().len() >= 2
                &&& dim_rows_match(records.deep_view(), d, *et, b.rows.deep_view())
                &&& dim_category_rows_match(
                    records.deep_view(),
                    d,
                    *et,
                    b.category_rows.deep_view(),
                )
            },
        },
{
    let ghost g = records.deep_view();
    let values = collect_values(records, d);
    let ghost vm = values.deep_view();
    proof {
        assert(vm.no_duplicates()) by {
            assert forall|i: int, j: int|
                0 <= i < vm.len() && 0 <= j < vm.len() && i != j implies vm[i] != vm[j] by {
                if i < j {
                    assert(vm[i] != vm[j] && lex_le(vm[i], vm[j]));
                } else {
                    assert(vm[j] != vm[i] && lex_le(vm[j], vm[i]));
                }
            }
        }
        vm.unique_seq_to_set();
        assert(vm.to_set() =~= dimension_values(g, d).to_set()) by {
            assert forall|k: Seq<char>| #[trigger] vm.to_set().contains(k) implies
                dimension_values(g, d).to_set().contains(k) by {
                lemma_filter_map_contains(g, |r: RecordModel| dimension_value(r, d), k);
                assert(dimension_values(g, d).contains(k));
            }
            assert forall|k: Seq<char>| #[trigger] dimension_values(g, d).to_set().contains(
                k,
            ) implies vm.to_set().contains(k) by {
                lemma_filter_map_contains(g, |r: RecordModel| dimension_value(r, d), k);
                assert(vm.contains(k));
            }
        }
    }
    if values.len() <= 1 {
        return None;
    }
    let mut rows: Vec<DimensionRow> = Vec::new();
    let mut category_rows: Vec<DimensionCategoryRow> = Vec::new();
    let mut t: usize = 0;
    while t < values.len()
        invariant
            g == records.deep_view(),
            vm == values.deep_view(),
            vm.len() == values@.len(),
            values_sorted(vm),
            forall|k: Seq<char>|
                vm.contains(k) <==> exists|j: int|
                    0 <= j < g.len() && dimension_value(#[trigger] g[j], d) == Some(k),
            0 <= t <= vm.len(),
            rows.deep_view().len() == t,
            forall|i: int|
                0 <= i < t ==> (#[trigger] rows.deep_view()[i]).value == vm[i],
            forall|i: int|
                0 <= i < t ==> group_stats_match(
                    group_records(g, dim_selector(d, (#[trigger] rows.deep_view()[i]).value)),
                    rows.deep_view()[i].stats,
                ) && rows.deep_view()[i].eff_duration_ns == et.overall_ns,
            crows_ok(g, d, *et, category_rows.deep_view()),
            forall|v: Seq<char>, c: OpCategory|
                vm.take(t as int).contains(v) && (c == OpCategory::Meta || c == OpCategory::Get
                    || c == OpCategory::Put) && #[trigger] group_records(
                    g,
                    dim_cat_selector(d, v, c),
                ).len() > 0 ==> dim_category_keys(category_rows.deep_view()).contains((v, c)),
        decreases vm.len() - t,
    {
        let value = &values[t];
        proof {
            assert(vm[t as int] == values@[t as int]@);
            assert(vm.contains(vm[t as int]));
            let j = choose|j: int|
                0 <= j < g.len() && dimension_value(#[trigger] g[j], d) == Some(vm[t as int]);
            assert(selects(dim_selector(d, vm[t as int]), g[j]));
            g.lemma_filter_contains(crate::aggregate::selector_pred(dim_selector(d, vm[t as int])), j);
            assert(group_records(g, dim_selector(d, vm[t as int])).len() > 0);
        }
        let sel = match d {
            Dimension::Client => GroupSelector::Client(value.clone()),
            Dimension::Endpoint => GroupSelector::Endpoint(value.clone()),
        };
        match group_stats_for(records, &sel) {
            Some(st) => {
                let ghost before = rows.deep_view();
                let row = DimensionRow {
                    value: value.clone(),
                    stats: st,
                    eff_duration_ns: et.overall_ns,
                };
                let ghost rowm = row@;
                rows.push(row);
                proof {
                    assert(rows.deep_view() =~= before.push(rowm));
                }
            },
            None => {
                proof {
                    assert(false);
                }
            },
        }
        let ghost keys0 = dim_category_keys(category_rows.deep_view());
        push_category_row(records, d, value, OpCategory::Meta, et, &mut category_rows);
        let ghost keys1 = dim_category_keys(category_rows.deep_view());
        push_category_row(records, d, value, OpCategory::Get, et, &mut category_rows);
        let ghost keys2 = dim_category_keys(category_rows.deep_view());
        push_category_row(records, d, value, OpCategory::Put, et, &mut category_rows);
        let ghost keys3 = dim_category_keys(category_rows.deep_view());
        proof {
            let v0 = vm[t as int];
            assert forall|k: (Seq<char>, OpCategory)|
                keys0.contains(k) implies #[trigger] keys1.contains(k) by {
                let i = choose|i: int| 0 <= i < keys0.len() && keys0[i] == k;
                assert(keys1[i] == k);
            }
            assert forall|k: (Seq<char>, OpCategory)|
                keys1.contains(k) implies #[trigger] keys2.contains(k) by {
                let i = choose|i: int| 0 <= i < keys1.len() && keys1[i] == k;
                assert(keys2[i] == k);
            }
            assert forall|k: (Seq<char>, OpCategory)|
                keys2.contains(k) implies #[trigger] keys3.contains(k) by {
                let i = choose|i: int| 0 <= i < keys2.len() && keys2[i] == k;
                assert(keys3[i] == k);
            }
            if group_records(g, dim_cat_selector(d, v0, OpCategory::Meta)).len() > 0 {
                assert(keys1.last() == (v0, OpCategory::Meta));
                assert(keys1.contains((v0, OpCategory::Meta)));
            }
            if group_records(g, dim_cat_selector(d, v0, OpCategory::Get)).len() > 0 {
                assert(keys2.last() == (v0, OpCategory::Get));
                assert(keys2.contains((v0, OpCategory::Get)));
            }
            if group_records(g, dim_cat_selector(d, v0, OpCategory::Put)).len() > 0 {
                assert(keys3.last() == (v0, OpCategory::Put));
                assert(keys3.contains((v0, OpCategory::Put)));
            }
            assert(vm.take(t + 1) =~= vm.take(t as int).push(v0));
            assert forall|v: Seq<char>, c: OpCategory|
                vm.take(t + 1).contains(v) && (c == OpCategory::Meta || c == OpCategory::Get
                    || c == OpCategory::Put) && #[trigger] group_records(
                    g,
                    dim_cat_selector(d, v, c),
                ).len() > 0 implies keys3.contains((v, c)) by {
                if v != v0 {
                    assert(vm.take(t as int).contains(v));
                    assert(keys0.contains((v, c)));
                }
            }
        }
        t += 1;
    }
    proof {
        let rm = rows.deep_view();
        assert(dim_row_values(rm) =~= vm) by {
            assert(forall|i: int|
                0 <= i < rm.len() ==> dim_row_values(rm)[i] == (#[trigger] rm[i]).value);
        }
        assert forall|j: int|
            0 <= j < g.len() && dimension_value(#[trigger] g[j], d) is Some implies
            dim_row_values(rm).contains(dimension_value(g[j], d)->Some_0) by {
            let v = dimension_value(g[j], d)->Some_0;
            assert(vm.contains(v));
        }
        let cm = category_rows.deep_view();
        assert(vm.take(vm.len() as int) =~= vm);
        assert forall|j: int|
            0 <= j < g.len() && dimension_value(#[trigger] g[j], d) is Some && category_of_op(
                g[j].op,
            ) != OpCategory::Other implies dim_category_keys(cm).contains(
            (dimension_value(g[j], d)->Some_0, category_of_op(g[j].op)),
        ) by {
            let v = dimension_value(g[j], d)->Some_0;
            let c = category_of_op(g[j].op);
            assert(vm.contains(v));
            assert(selects(dim_cat_selector(d, v, c), g[j]));
            g.lemma_filter_contains(crate::aggregate::selector_pred(dim_cat_selector(d, v, c)), j);
            assert(group_records(g, dim_cat_selector(d, v, c)).len() > 0);
        }
        assert(dimension_values(g, d).to_set().len() >= 2);
    }
    Some(DimensionBreakdown { rows, category_rows })
}

} // verus!
