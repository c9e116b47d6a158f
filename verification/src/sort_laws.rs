//! What holds of the sorted order for every collection of rows.

use crate::entities::{FieldMetadata, Row, SortCondition, SortSpecification};
use crate::index::{identity, length};
use crate::laws::{
    chains, lemma_inert_specification, lemma_missing_value_order, lemma_row_order_antisymmetric,
    lemma_row_order_transitive,
};
use crate::row::{invert, is_comparable, resolve_field, row_order};
use crate::sort::{
    arranged, insert_position, is_permutation, is_stable_sort, is_total_order_on,
    lemma_insert_position, lemma_insert_position_is, lemma_sort_permutation_len,
    sort_permutation, sorted_rows,
};
use std::cmp::Ordering;
use vstd::prelude::*;

verus! {

/// Whether no row is greater than the row that follows it.
pub open spec fn is_ordered(
    rows: Seq<Row>,
    sorts: Seq<SortSpecification>,
    fields: Seq<FieldMetadata>,
) -> bool {
    forall|i: int, j: int|
        0 <= i && j == i + 1 && j < rows.len() ==> row_order(
            #[trigger] rows[i],
            #[trigger] rows[j],
            sorts,
            fields,
        ) != Ordering::Greater
}

/// Whether no row is greater than any row behind it.
pub open spec fn is_ordered_throughout(
    rows: Seq<Row>,
    sorts: Seq<SortSpecification>,
    fields: Seq<FieldMetadata>,
) -> bool {
    forall|i: int, j: int|
        0 <= i < j < rows.len() ==> row_order(#[trigger] rows[i], #[trigger] rows[j], sorts, fields)
            != Ordering::Greater
}

/// Whether an arrangement changes the input order of two rows only where
/// the one that it puts first is less than the other.
pub open spec fn keeps_input_order(
    rows: Seq<Row>,
    order: Seq<int>,
    sorts: Seq<SortSpecification>,
    fields: Seq<FieldMetadata>,
) -> bool {
    forall|i: int, j: int|
        0 <= i < j < order.len() ==> #[trigger] order[i] < #[trigger] order[j] || row_order(
            rows[order[i]],
            rows[order[j]],
            sorts,
            fields,
        ) == Ordering::Less
}

/// The arrangement by insertion lists each index once.
pub proof fn lemma_sort_permutation_is_permutation(
    rows: Seq<Row>,
    sorts: Seq<SortSpecification>,
    fields: Seq<FieldMetadata>,
    n: int,
)
    requires
        0 <= n,
    ensures
        is_permutation(sort_permutation(rows, sorts, fields, n), n),
    decreases n,
{
    if n > 0 {
        lemma_sort_permutation_is_permutation(rows, sorts, fields, n - 1);
        let p = sort_permutation(rows, sorts, fields, n - 1);
        let j = insert_position(p, n - 1, rows, sorts, fields);
        lemma_insert_position(p, n - 1, rows, sorts, fields);
        let q = p.insert(j, n - 1);
        assert(q == sort_permutation(rows, sorts, fields, n));
        assert forall|v: int| 0 <= v < n implies #[trigger] q.contains(v) by {
            if v == n - 1 {
                assert(q[j] == v);
            } else {
                assert(p.contains(v));
                let i = choose|i: int| 0 <= i < p.len() && p[i] == v;
                if i < j {
                    assert(q[i] == v);
                } else {
                    assert(q[i + 1] == v);
                }
            }
        }
        assert forall|a: int, b: int| 0 <= a < b < n implies #[trigger] q[a] != #[trigger] q[b] by {
            let a0 = if a < j { a } else { a - 1 };
            let b0 = if b < j { b } else { b - 1 };
            if a != j && b != j {
                assert(q[a] == p[a0] && q[b] == p[b0]);
            } else if a == j {
                assert(q[b] == p[b0]);
            } else {
                assert(q[a] == p[a0]);
            }
        }
    }
}

/// In the arrangement by insertion no row is greater than the next one.
pub proof fn lemma_sort_permutation_is_ordered(
    rows: Seq<Row>,
    sorts: Seq<SortSpecification>,
    fields: Seq<FieldMetadata>,
    n: int,
)
    requires
        0 <= n,
    ensures
        is_ordered(arranged(rows, sort_permutation(rows, sorts, fields, n)), sorts, fields),
    decreases n,
{
    if n > 0 {
        lemma_sort_permutation_is_ordered(rows, sorts, fields, n - 1);
        lemma_sort_permutation_len(rows, sorts, fields, n - 1);
        let p = sort_permutation(rows, sorts, fields, n - 1);
        let j = insert_position(p, n - 1, rows, sorts, fields);
        lemma_insert_position(p, n - 1, rows, sorts, fields);
        let q = p.insert(j, n - 1);
        let before = arranged(rows, p);
        let after = arranged(rows, q);
        assert forall|i: int, i1: int| 0 <= i && i1 == i + 1 && i1 < after.len() implies row_order(
            #[trigger] after[i],
            #[trigger] after[i1],
            sorts,
            fields,
        ) != Ordering::Greater by {
            if i + 1 < j {
                assert(after[i] == before[i] && after[i + 1] == before[i + 1]);
            } else if i + 1 == j {
                assert(after[i] == rows[p[j - 1]]);
            } else if i == j {
                assert(after[i + 1] == rows[p[j]]);
                lemma_row_order_antisymmetric(rows[n - 1], rows[p[j]], sorts, fields);
            } else {
                assert(after[i] == before[i - 1] && after[i + 1] == before[i]);
            }
        }
    }
}

/// The arrangement by insertion keeps the input order of two rows unless
/// the one that it puts first is less than the other.
pub proof fn lemma_sort_permutation_keeps_input_order(
    rows: Seq<Row>,
    sorts: Seq<SortSpecification>,
    fields: Seq<FieldMetadata>,
    n: int,
)
    requires
        0 <= n,
    ensures
        keeps_input_order(rows, sort_permutation(rows, sorts, fields, n), sorts, fields),
    decreases n,
{
    if n > 0 {
        lemma_sort_permutation_keeps_input_order(rows, sorts, fields, n - 1);
        lemma_sort_permutation_is_permutation(rows, sorts, fields, n - 1);
        let p = sort_permutation(rows, sorts, fields, n - 1);
        let j = insert_position(p, n - 1, rows, sorts, fields);
        lemma_insert_position(p, n - 1, rows, sorts, fields);
        let q = p.insert(j, n - 1);
        assert forall|a: int, b: int| 0 <= a < b < q.len() implies #[trigger] q[a] < #[trigger] q[b]
            || row_order(rows[q[a]], rows[q[b]], sorts, fields) == Ordering::Less by {
            let a0 = if a < j { a } else { a - 1 };
            let b0 = if b < j { b } else { b - 1 };
            if a != j && b != j {
                assert(q[a] == p[a0] && q[b] == p[b0]);
            } else if a == j {
                assert(q[b] == p[b0]);
                lemma_row_order_antisymmetric(rows[n - 1], rows[p[b0]], sorts, fields);
            } else {
                assert(q[a] == p[a0]);
            }
        }
    }
}

/// A sorted collection holds the rows of the input, each once, with no row
/// greater than the next one, and with rows that are equal, or that the
/// specifications cannot tell apart, in their input order.
pub proof fn lemma_sorted_rows_is_stable_arrangement(
    rows: Seq<Row>,
    sorts: Seq<SortSpecification>,
    fields: Seq<FieldMetadata>,
)
    ensures
        sorted_rows(rows, sorts, fields).len() == rows.len(),
        is_permutation(sort_permutation(rows, sorts, fields, length(rows)), length(rows)),
        sorted_rows(rows, sorts, fields) == arranged(
            rows,
            sort_permutation(rows, sorts, fields, length(rows)),
        ),
        is_ordered(sorted_rows(rows, sorts, fields), sorts, fields),
        keeps_input_order(
            rows,
            sort_permutation(rows, sorts, fields, length(rows)),
            sorts,
            fields,
        ),
{
    lemma_sort_permutation_is_permutation(rows, sorts, fields, length(rows));
    lemma_sort_permutation_is_ordered(rows, sorts, fields, length(rows));
    lemma_sort_permutation_keeps_input_order(rows, sorts, fields, length(rows));
}

/// Where every specification can read every row, no row of the sorted
/// collection is greater than any row behind it.
pub proof fn lemma_sorted_rows_is_ordered_throughout(
    rows: Seq<Row>,
    sorts: Seq<SortSpecification>,
    fields: Seq<FieldMetadata>,
)
    requires
        forall|i: int| 0 <= i < rows.len() ==> is_comparable(#[trigger] rows[i], sorts, fields),
    ensures
        is_ordered_throughout(sorted_rows(rows, sorts, fields), sorts, fields),
{
    let sorted = sorted_rows(rows, sorts, fields);
    lemma_sorted_rows_is_stable_arrangement(rows, sorts, fields);
    assert forall|i: int, j: int| 0 <= i < j < sorted.len() implies row_order(
        #[trigger] sorted[i],
        #[trigger] sorted[j],
        sorts,
        fields,
    ) != Ordering::Greater by {
        lemma_ordered_reaches(rows, sorts, fields, i, j);
    }
}

/// One step of [`lemma_sorted_rows_is_ordered_throughout`]: from a row of
/// the sorted collection to a row behind it.
proof fn lemma_ordered_reaches(
    rows: Seq<Row>,
    sorts: Seq<SortSpecification>,
    fields: Seq<FieldMetadata>,
    i: int,
    j: int,
)
    requires
        forall|i: int| 0 <= i < rows.len() ==> is_comparable(#[trigger] rows[i], sorts, fields),
        0 <= i < j < rows.len(),
    ensures
        row_order(
            sorted_rows(rows, sorts, fields)[i],
            sorted_rows(rows, sorts, fields)[j],
            sorts,
            fields,
        ) != Ordering::Greater,
    decreases j - i,
{
    let sorted = sorted_rows(rows, sorts, fields);
    let p = sort_permutation(rows, sorts, fields, length(rows));
    lemma_sorted_rows_is_stable_arrangement(rows, sorts, fields);
    assert(sorted[j - 1] == rows[p[j - 1]]);
    assert(sorted[i] == rows[p[i]]);
    assert(sorted[j] == rows[p[j]]);
    assert(row_order(sorted[j - 1], sorted[j], sorts, fields) != Ordering::Greater);
    if i < j - 1 {
        lemma_ordered_reaches(rows, sorts, fields, i, j - 1);
        lemma_row_order_transitive(sorted[i], sorted[j - 1], sorted[j], sorts, fields);
    }
}

/// The arrangement by insertion of rows that are in order already leaves
/// each where it is.
pub proof fn lemma_ordered_rows_keep_their_places(
    rows: Seq<Row>,
    sorts: Seq<SortSpecification>,
    fields: Seq<FieldMetadata>,
    n: int,
)
    requires
        is_ordered(rows, sorts, fields),
        0 <= n <= rows.len(),
    ensures
        sort_permutation(rows, sorts, fields, n) == identity(n),
    decreases n,
{
    if n > 0 {
        lemma_ordered_rows_keep_their_places(rows, sorts, fields, n - 1);
        let p = sort_permutation(rows, sorts, fields, n - 1);
        if n > 1 {
            assert(p.last() == n - 2);
            assert(row_order(rows[n - 2], rows[n - 1], sorts, fields) != Ordering::Greater);
        }
        assert(insert_position(p, n - 1, rows, sorts, fields) == n - 1);
        assert(p.insert(n - 1, n - 1) =~= identity(n));
    }
}

/// Sorting rows that are in order already changes nothing.
pub proof fn lemma_sorting_ordered_rows(
    rows: Seq<Row>,
    sorts: Seq<SortSpecification>,
    fields: Seq<FieldMetadata>,
)
    requires
        is_ordered(rows, sorts, fields),
    ensures
        sorted_rows(rows, sorts, fields) == rows,
{
    lemma_ordered_rows_keep_their_places(rows, sorts, fields, length(rows));
    assert(sorted_rows(rows, sorts, fields) =~= rows);
}

/// Sorting again under the same specifications changes nothing.
pub proof fn lemma_sorting_twice(
    rows: Seq<Row>,
    sorts: Seq<SortSpecification>,
    fields: Seq<FieldMetadata>,
)
    ensures
        sorted_rows(sorted_rows(rows, sorts, fields), sorts, fields) == sorted_rows(
            rows,
            sorts,
            fields,
        ),
{
    lemma_sorted_rows_is_stable_arrangement(rows, sorts, fields);
    lemma_sorting_ordered_rows(sorted_rows(rows, sorts, fields), sorts, fields);
}

/// Missing values in the sorted order: of two rows, one with a cell for the
/// field of the one specification and one without, the row with the cell
/// comes first when ascending and last when descending, whichever came
/// first in the input.
pub proof fn lemma_missing_value_sorts_by_direction(
    present: Row,
    absent: Row,
    sort: SortSpecification,
    fields: Seq<FieldMetadata>,
)
    requires
        resolve_field(fields, sort.field_id@) is Some,
        present.cell(sort.field_id@) is Some,
        absent.cell(sort.field_id@) is None,
    ensures
        sort.condition == SortCondition::Ascending ==> sorted_rows(
            seq![absent, present],
            seq![sort],
            fields,
        ) == seq![present, absent] && sorted_rows(seq![present, absent], seq![sort], fields)
            == seq![present, absent],
        sort.condition == SortCondition::Descending ==> sorted_rows(
            seq![absent, present],
            seq![sort],
            fields,
        ) == seq![absent, present] && sorted_rows(seq![present, absent], seq![sort], fields)
            == seq![absent, present],
{
    lemma_missing_value_order(present, absent, sort, fields);
    lemma_two_rows_sorted(absent, present, seq![sort], fields);
    lemma_two_rows_sorted(present, absent, seq![sort], fields);
}

/// Two rows change places when sorted if the first is greater than the
/// second, and not otherwise.
pub proof fn lemma_two_rows_sorted(
    first: Row,
    second: Row,
    sorts: Seq<SortSpecification>,
    fields: Seq<FieldMetadata>,
)
    ensures
        sorted_rows(seq![first, second], sorts, fields) == if row_order(
            first,
            second,
            sorts,
            fields,
        ) == Ordering::Greater {
            seq![second, first]
        } else {
            seq![first, second]
        },
{
    let rows = seq![first, second];
    let none = sort_permutation(rows, sorts, fields, 0);
    let one = sort_permutation(rows, sorts, fields, 1);
    let two = sort_permutation(rows, sorts, fields, 2);
    assert(none =~= Seq::<int>::empty());
    assert(insert_position(none, 0, rows, sorts, fields) == 0);
    assert(one =~= seq![0int]) by {
        assert(one == none.insert(0, 0));
    }
    assert(one.last() == 0 && one.drop_last() =~= Seq::<int>::empty());
    assert(rows[0] == first && rows[1] == second);
    assert(two == one.insert(insert_position(one, 1, rows, sorts, fields), 1));
    if row_order(first, second, sorts, fields) == Ordering::Greater {
        assert(insert_position(one.drop_last(), 1, rows, sorts, fields) == 0);
        assert(insert_position(one, 1, rows, sorts, fields) == 0);
        assert(two =~= seq![1int, 0int]);
        assert(sorted_rows(rows, sorts, fields) =~= seq![second, first]);
    } else {
        assert(insert_position(one, 1, rows, sorts, fields) == 1);
        assert(two =~= seq![0int, 1int]);
        assert(sorted_rows(rows, sorts, fields) =~= seq![first, second]);
    }
}

/// Whether `order` arranges the first `n` rows as a stable sort does.
pub open spec fn is_stable_arrangement(
    rows: Seq<Row>,
    order: Seq<int>,
    sorts: Seq<SortSpecification>,
    fields: Seq<FieldMetadata>,
    n: int,
) -> bool {
    &&& is_permutation(order, n)
    &&& forall|i: int, j: int|
        0 <= i < j < n ==> row_order(
            rows[#[trigger] order[i]],
            rows[#[trigger] order[j]],
            sorts,
            fields,
        ) != Ordering::Greater
    &&& forall|i: int, j: int|
        0 <= i < j < n && row_order(
            rows[#[trigger] order[i]],
            rows[#[trigger] order[j]],
            sorts,
            fields,
        ) == Ordering::Equal ==> order[i] < order[j]
}

/// Taking the greatest index out of a list of `0 .. n` leaves a list of
/// `0 .. n - 1`.
proof fn lemma_permutation_without_greatest(order: Seq<int>, n: int, k: int)
    requires
        is_permutation(order, n),
        0 <= k < n,
        order[k] == n - 1,
    ensures
        is_permutation(order.remove(k), n - 1),
{
    let rest = order.remove(k);
    assert forall|i: int| 0 <= i < n - 1 implies 0 <= #[trigger] rest[i] < n - 1 by {
        if i < k {
            assert(rest[i] == order[i]);
            assert(order[i] != order[k]);
        } else {
            assert(rest[i] == order[i + 1]);
            assert(order[k] != order[i + 1]);
        }
    }
    assert forall|i: int, j: int| 0 <= i < j < n - 1 implies #[trigger] rest[i]
        != #[trigger] rest[j] by {
        let i0 = if i < k { i } else { i + 1 };
        let j0 = if j < k { j } else { j + 1 };
        assert(rest[i] == order[i0] && rest[j] == order[j0]);
    }
    assert forall|v: int| 0 <= v < n - 1 implies #[trigger] rest.contains(v) by {
        assert(order.contains(v));
        let i = choose|i: int| 0 <= i < order.len() && order[i] == v;
        if i < k {
            assert(rest[i] == v);
        } else {
            assert(rest[i - 1] == v);
        }
    }
}

/// Taking the last row out of a stable arrangement leaves a stable
/// arrangement of the rows before it.
proof fn lemma_stable_arrangement_without_last(
    rows: Seq<Row>,
    order: Seq<int>,
    sorts: Seq<SortSpecification>,
    fields: Seq<FieldMetadata>,
    n: int,
    k: int,
)
    requires
        is_stable_arrangement(rows, order, sorts, fields, n),
        0 <= k < n,
        order[k] == n - 1,
    ensures
        is_stable_arrangement(rows, order.remove(k), sorts, fields, n - 1),
{
    let rest = order.remove(k);
    lemma_permutation_without_greatest(order, n, k);
    assert forall|i: int, j: int| 0 <= i < j < n - 1 implies row_order(
        rows[#[trigger] rest[i]],
        rows[#[trigger] rest[j]],
        sorts,
        fields,
    ) != Ordering::Greater && (row_order(rows[rest[i]], rows[rest[j]], sorts, fields)
        == Ordering::Equal ==> rest[i] < rest[j]) by {
        let i0 = if i < k { i } else { i + 1 };
        let j0 = if j < k { j } else { j + 1 };
        assert(rest[i] == order[i0] && rest[j] == order[j0]);
        assert(row_order(rows[order[i0]], rows[order[j0]], sorts, fields) != Ordering::Greater);
    }
}

/// In a stable arrangement the last row of the input stands behind the
/// last row that is not greater than it.
proof fn lemma_last_row_stands_at_insert_position(
    rows: Seq<Row>,
    order: Seq<int>,
    sorts: Seq<SortSpecification>,
    fields: Seq<FieldMetadata>,
    n: int,
    k: int,
)
    requires
        is_stable_arrangement(rows, order, sorts, fields, n),
        0 <= k < n,
        order[k] == n - 1,
    ensures
        insert_position(order.remove(k), n - 1, rows, sorts, fields) == k,
{
    let rest = order.remove(k);
    assert forall|t: int| k <= t < rest.len() implies row_order(
        rows[#[trigger] rest[t]],
        rows[n - 1],
        sorts,
        fields,
    ) == Ordering::Greater by {
        assert(rest[t] == order[t + 1]);
        assert(order[k] != order[t + 1]);
        assert(row_order(rows[order[k]], rows[order[t + 1]], sorts, fields) != Ordering::Greater);
        lemma_row_order_antisymmetric(rows[order[t + 1]], rows[n - 1], sorts, fields);
    }
    if k > 0 {
        assert(rest[k - 1] == order[k - 1]);
        assert(row_order(rows[order[k - 1]], rows[order[k]], sorts, fields) != Ordering::Greater);
    }
    lemma_insert_position_is(rest, n - 1, rows, sorts, fields, k);
}

/// There is one stable arrangement of the first `n` rows at most: the
/// arrangement by insertion.
pub proof fn lemma_stable_arrangement_is_unique(
    rows: Seq<Row>,
    order: Seq<int>,
    sorts: Seq<SortSpecification>,
    fields: Seq<FieldMetadata>,
    n: int,
)
    requires
        0 <= n,
        is_stable_arrangement(rows, order, sorts, fields, n),
    ensures
        order == sort_permutation(rows, sorts, fields, n),
    decreases n,
{
    if n == 0 {
        assert(order =~= Seq::<int>::empty());
    } else {
        assert(order.contains(n - 1));
        let k = choose|k: int| 0 <= k < order.len() && order[k] == n - 1;
        let rest = order.remove(k);
        lemma_stable_arrangement_without_last(rows, order, sorts, fields, n, k);
        lemma_stable_arrangement_is_unique(rows, rest, sorts, fields, n - 1);
        lemma_last_row_stands_at_insert_position(rows, order, sorts, fields, n, k);
        assert(rest.insert(k, n - 1) =~= order);
    }
}

/// A stable sort of rows under a total order gives the sorted order: there
/// is no other way to put equal rows in input order and others in theirs.
pub proof fn lemma_stable_sort_is_unique(
    rows: Seq<Row>,
    order: Seq<int>,
    sorts: Seq<SortSpecification>,
    fields: Seq<FieldMetadata>,
)
    requires
        is_stable_sort(rows, order, sorts, fields),
    ensures
        order == sort_permutation(rows, sorts, fields, length(rows)),
        arranged(rows, order) == sorted_rows(rows, sorts, fields),
{
    lemma_stable_arrangement_is_unique(rows, order, sorts, fields, length(rows));
}

/// Rows that every specification can read are totally ordered.
pub proof fn lemma_comparable_rows_are_totally_ordered(
    rows: Seq<Row>,
    sorts: Seq<SortSpecification>,
    fields: Seq<FieldMetadata>,
)
    requires
        forall|i: int| 0 <= i < rows.len() ==> is_comparable(#[trigger] rows[i], sorts, fields),
    ensures
        is_total_order_on(rows, sorts, fields),
{
    assert forall|i: int, j: int| 0 <= i < rows.len() && 0 <= j < rows.len() implies row_order(
        #[trigger] rows[i],
        #[trigger] rows[j],
        sorts,
        fields,
    ) == invert(row_order(rows[j], rows[i], sorts, fields)) by {
        lemma_row_order_antisymmetric(rows[i], rows[j], sorts, fields);
    }
    assert forall|i: int, j: int, k: int|
        0 <= i < rows.len() && 0 <= j < rows.len() && 0 <= k < rows.len() implies chains(
        row_order(#[trigger] rows[i], #[trigger] rows[j], sorts, fields),
        row_order(rows[j], #[trigger] rows[k], sorts, fields),
        row_order(rows[i], rows[k], sorts, fields),
    ) by {
        lemma_row_order_transitive(rows[i], rows[j], rows[k], sorts, fields);
    }
}

/// The place of a new row depends on the specifications only through the
/// order that they give the rows.
pub proof fn lemma_insert_position_follows_row_order(
    order: Seq<int>,
    x: int,
    rows: Seq<Row>,
    sorts: Seq<SortSpecification>,
    fields: Seq<FieldMetadata>,
    other_sorts: Seq<SortSpecification>,
    other_fields: Seq<FieldMetadata>,
)
    requires
        0 <= x < rows.len(),
        forall|i: int| 0 <= i < order.len() ==> 0 <= #[trigger] order[i] < rows.len(),
        forall|i: int, j: int|
            0 <= i < rows.len() && 0 <= j < rows.len() ==> row_order(
                #[trigger] rows[i],
                #[trigger] rows[j],
                sorts,
                fields,
            ) == row_order(rows[i], rows[j], other_sorts, other_fields),
    ensures
        insert_position(order, x, rows, sorts, fields) == insert_position(
            order,
            x,
            rows,
            other_sorts,
            other_fields,
        ),
    decreases order.len(),
{
    if order.len() > 0 {
        let shorter = order.drop_last();
        assert(0 <= order[order.len() - 1] < rows.len());
        assert forall|i: int| 0 <= i < shorter.len() implies 0 <= #[trigger] shorter[i]
            < rows.len() by {
            assert(shorter[i] == order[i]);
        }
        lemma_insert_position_follows_row_order(
            shorter,
            x,
            rows,
            sorts,
            fields,
            other_sorts,
            other_fields,
        );
    }
}

/// The sorted order depends on the specifications only through the order
/// that they give the rows: two lists under which all rows compare alike
/// sort them alike.
pub proof fn lemma_sort_follows_row_order(
    rows: Seq<Row>,
    sorts: Seq<SortSpecification>,
    fields: Seq<FieldMetadata>,
    other_sorts: Seq<SortSpecification>,
    other_fields: Seq<FieldMetadata>,
    n: int,
)
    requires
        0 <= n <= rows.len(),
        forall|i: int, j: int|
            0 <= i < rows.len() && 0 <= j < rows.len() ==> row_order(
                #[trigger] rows[i],
                #[trigger] rows[j],
                sorts,
                fields,
            ) == row_order(rows[i], rows[j], other_sorts, other_fields),
    ensures
        sort_permutation(rows, sorts, fields, n) == sort_permutation(
            rows,
            other_sorts,
            other_fields,
            n,
        ),
    decreases n,
{
    if n > 0 {
        lemma_sort_follows_row_order(rows, sorts, fields, other_sorts, other_fields, n - 1);
        lemma_sort_permutation_is_permutation(rows, sorts, fields, n - 1);
        lemma_insert_position_follows_row_order(
            sort_permutation(rows, sorts, fields, n - 1),
            n - 1,
            rows,
            sorts,
            fields,
            other_sorts,
            other_fields,
        );
    }
}

/// Degradation: a specification whose field has no metadata has no effect
/// on the sorted order, which is the same without it.
pub proof fn lemma_sort_ignores_inert_specification(
    rows: Seq<Row>,
    sorts: Seq<SortSpecification>,
    fields: Seq<FieldMetadata>,
    k: int,
)
    requires
        0 <= k < sorts.len(),
        resolve_field(fields, sorts[k].field_id@) is None,
    ensures
        sorted_rows(rows, sorts.remove(k), fields) == sorted_rows(rows, sorts, fields),
{
    assert forall|i: int, j: int| 0 <= i < rows.len() && 0 <= j < rows.len() implies row_order(
        #[trigger] rows[i],
        #[trigger] rows[j],
        sorts.remove(k),
        fields,
    ) == row_order(rows[i], rows[j], sorts, fields) by {
        lemma_inert_specification(rows[i], rows[j], sorts, fields, k);
    }
    lemma_sort_follows_row_order(rows, sorts.remove(k), fields, sorts, fields, length(rows));
}

} // verus!
