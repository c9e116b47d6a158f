//! Sorting a collection of rows by the row comparator.
//!
//! The order that a sort produces is defined by insertion: the rows are
//! taken in their input order, and each goes behind the last row, among
//! those already placed, that is not greater than it. Rows that compare
//! equal therefore stay in their input order, and a collection that is
//! already in order stays as it is.

use crate::cell::{comparator_reads, has_comparator, holds_value_of};
use crate::entities::{FieldMetadata, Row, SortSpecification};
use crate::index::{length, position};
use crate::row::{
    find_field, invert, is_comparable, resolve_field, row_order, sort_reads_row, RowComparator,
};
use crate::sort_laws::{lemma_comparable_rows_are_totally_ordered, lemma_stable_sort_is_unique};
use rayon::slice::ParallelSliceMut;
use std::cmp::Ordering;
use vstd::prelude::*;

verus! {

/// Where the row at index `x` enters `order`, an arrangement of the indices
/// of earlier rows: behind the last of them that is not greater than it.
pub open spec fn insert_position(
    order: Seq<int>,
    x: int,
    rows: Seq<Row>,
    sorts: Seq<SortSpecification>,
    fields: Seq<FieldMetadata>,
) -> int
    decreases order.len(),
{
    if order.len() == 0 {
        0
    } else if row_order(rows[order.last()], rows[x], sorts, fields) == Ordering::Greater {
        insert_position(order.drop_last(), x, rows, sorts, fields)
    } else {
        length(order)
    }
}

/// The arrangement of the first `n` rows by insertion: at each place the
/// index that the row there had in `rows`.
pub open spec fn sort_permutation(
    rows: Seq<Row>,
    sorts: Seq<SortSpecification>,
    fields: Seq<FieldMetadata>,
    n: int,
) -> Seq<int>
    decreases n,
{
    if n <= 0 {
        Seq::empty()
    } else {
        let earlier = sort_permutation(rows, sorts, fields, n - 1);
        earlier.insert(insert_position(earlier, n - 1, rows, sorts, fields), n - 1)
    }
}

/// The rows at the indices that `order` lists.
pub open spec fn arranged(rows: Seq<Row>, order: Seq<int>) -> Seq<Row> {
    Seq::new(order.len(), |i: int| rows[order[i]])
}

/// The rows in sorted order.
pub open spec fn sorted_rows(
    rows: Seq<Row>,
    sorts: Seq<SortSpecification>,
    fields: Seq<FieldMetadata>,
) -> Seq<Row> {
    arranged(rows, sort_permutation(rows, sorts, fields, length(rows)))
}

/// Whether `order` lists each of the indices `0 .. n` once.
pub open spec fn is_permutation(order: Seq<int>, n: int) -> bool {
    &&& order.len() == n
    &&& forall|i: int| 0 <= i < n ==> 0 <= #[trigger] order[i] < n
    &&& forall|i: int, j: int| 0 <= i < j < n ==> #[trigger] order[i] != #[trigger] order[j]
    &&& forall|v: int| 0 <= v < n ==> #[trigger] order.contains(v)
}

/// Whether the specifications order the rows totally: exchanging two rows
/// inverts their order, and less, equal and greater are each transitive.
pub open spec fn is_total_order_on(
    rows: Seq<Row>,
    sorts: Seq<SortSpecification>,
    fields: Seq<FieldMetadata>,
) -> bool {
    &&& forall|i: int, j: int|
        0 <= i < rows.len() && 0 <= j < rows.len() ==> row_order(
            #[trigger] rows[i],
            #[trigger] rows[j],
            sorts,
            fields,
        ) == invert(row_order(rows[j], rows[i], sorts, fields))
    &&& forall|i: int, j: int, k: int|
        0 <= i < rows.len() && 0 <= j < rows.len() && 0 <= k < rows.len() ==> {
            let ij = row_order(#[trigger] rows[i], #[trigger] rows[j], sorts, fields);
            let jk = row_order(rows[j], #[trigger] rows[k], sorts, fields);
            let ik = row_order(rows[i], rows[k], sorts, fields);
            &&& ij == Ordering::Less && jk == Ordering::Less ==> ik == Ordering::Less
            &&& ij == Ordering::Equal && jk == Ordering::Equal ==> ik == Ordering::Equal
            &&& ij == Ordering::Greater && jk == Ordering::Greater ==> ik == Ordering::Greater
        }
}

/// Whether `order` is a stable sort of the rows: it lists each index once,
/// puts no row before one that it is greater than, and leaves rows that
/// compare equal in their input order.
pub open spec fn is_stable_sort(
    rows: Seq<Row>,
    order: Seq<int>,
    sorts: Seq<SortSpecification>,
    fields: Seq<FieldMetadata>,
) -> bool {
    &&& is_permutation(order, length(rows))
    &&& forall|i: int, j: int|
        0 <= i < j < rows.len() ==> row_order(
            rows[#[trigger] order[i]],
            rows[#[trigger] order[j]],
            sorts,
            fields,
        ) != Ordering::Greater
    &&& forall|i: int, j: int|
        0 <= i < j < rows.len() && row_order(
            rows[#[trigger] order[i]],
            rows[#[trigger] order[j]],
            sorts,
            fields,
        ) == Ordering::Equal ==> order[i] < order[j]
}

/// The rows with the first `k` of them sorted among themselves and the
/// others where they were.
pub open spec fn sorted_prefix(
    rows: Seq<Row>,
    sorts: Seq<SortSpecification>,
    fields: Seq<FieldMetadata>,
    k: int,
) -> Seq<Row> {
    Seq::new(
        rows.len(),
        |i: int|
            if i < k {
                rows[sort_permutation(rows, sorts, fields, k)[i]]
            } else {
                rows[i]
            },
    )
}

/// The place that [`insert_position`] names lies within the arrangement,
/// every row behind it is greater than the new row, and the row before it
/// is not.
pub proof fn lemma_insert_position(
    order: Seq<int>,
    x: int,
    rows: Seq<Row>,
    sorts: Seq<SortSpecification>,
    fields: Seq<FieldMetadata>,
)
    ensures
        0 <= insert_position(order, x, rows, sorts, fields) <= order.len(),
        forall|t: int|
            insert_position(order, x, rows, sorts, fields) <= t < order.len() ==> row_order(
                rows[#[trigger] order[t]],
                rows[x],
                sorts,
                fields,
            ) == Ordering::Greater,
        insert_position(order, x, rows, sorts, fields) > 0 ==> row_order(
            rows[order[insert_position(order, x, rows, sorts, fields) - 1]],
            rows[x],
            sorts,
            fields,
        ) != Ordering::Greater,
    decreases order.len(),
{
    if order.len() > 0 && row_order(rows[order.last()], rows[x], sorts, fields)
        == Ordering::Greater {
        let shorter = order.drop_last();
        lemma_insert_position(shorter, x, rows, sorts, fields);
        let j = insert_position(shorter, x, rows, sorts, fields);
        assert forall|t: int| j <= t < order.len() implies row_order(
            rows[#[trigger] order[t]],
            rows[x],
            sorts,
            fields,
        ) == Ordering::Greater by {
            if t < shorter.len() {
                assert(shorter[t] == order[t]);
            }
        }
        if j > 0 {
            assert(shorter[j - 1] == order[j - 1]);
        }
    }
}

/// The only place with the three marks of [`lemma_insert_position`] is the
/// one that [`insert_position`] names.
pub proof fn lemma_insert_position_is(
    order: Seq<int>,
    x: int,
    rows: Seq<Row>,
    sorts: Seq<SortSpecification>,
    fields: Seq<FieldMetadata>,
    j: int,
)
    requires
        0 <= j <= order.len(),
        forall|t: int|
            j <= t < order.len() ==> row_order(rows[#[trigger] order[t]], rows[x], sorts, fields)
                == Ordering::Greater,
        j > 0 ==> row_order(rows[order[j - 1]], rows[x], sorts, fields) != Ordering::Greater,
    ensures
        insert_position(order, x, rows, sorts, fields) == j,
    decreases order.len(),
{
    if order.len() > 0 {
        if j < order.len() {
            let shorter = order.drop_last();
            assert(order[order.len() - 1] == order.last());
            assert forall|t: int| j <= t < shorter.len() implies row_order(
                rows[#[trigger] shorter[t]],
                rows[x],
                sorts,
                fields,
            ) == Ordering::Greater by {
                assert(shorter[t] == order[t]);
            }
            if j > 0 {
                assert(shorter[j - 1] == order[j - 1]);
            }
            lemma_insert_position_is(shorter, x, rows, sorts, fields, j);
        }
    }
}

/// The arrangement of the first `n` rows has `n` places.
pub proof fn lemma_sort_permutation_len(
    rows: Seq<Row>,
    sorts: Seq<SortSpecification>,
    fields: Seq<FieldMetadata>,
    n: int,
)
    requires
        0 <= n,
    ensures
        sort_permutation(rows, sorts, fields, n).len() == n,
    decreases n,
{
    if n > 0 {
        lemma_sort_permutation_len(rows, sorts, fields, n - 1);
        lemma_insert_position(
            sort_permutation(rows, sorts, fields, n - 1),
            n - 1,
            rows,
            sorts,
            fields,
        );
    }
}

/// Sorts the rows in place, one after the other, each moved to its place
/// among those before it.
pub fn insertion_sort(rows: &mut Vec<Row>, sorts: &[SortSpecification], fields: &[FieldMetadata])
    ensures
        final(rows)@ == sorted_rows(old(rows)@, sorts@, fields@),
{
    let comparator = RowComparator::new(sorts, fields);
    let ghost input = rows@;
    let mut k: usize = 0;
    assert(rows@ =~= sorted_prefix(input, sorts@, fields@, 0));
    while k < rows.len()
        invariant
            k <= rows.len(),
            rows.len() == input.len(),
            comparator.sorts() == sorts@,
            comparator.fields() == fields@,
            rows@ == sorted_prefix(input, sorts@, fields@, position(k)),
        decreases rows.len() - k,
    {
        let ghost earlier = sort_permutation(input, sorts@, fields@, position(k));
        proof {
            lemma_sort_permutation_len(input, sorts@, fields@, position(k));
        }
        let mut j: usize = k;
        let mut scanning = true;
        while scanning && j > 0
            invariant
                j <= k < rows.len(),
                rows.len() == input.len(),
                comparator.sorts() == sorts@,
                comparator.fields() == fields@,
                earlier.len() == k,
                rows@ == sorted_prefix(input, sorts@, fields@, position(k)),
                earlier == sort_permutation(input, sorts@, fields@, position(k)),
                forall|t: int|
                    j <= t < k ==> row_order(
                        input[#[trigger] earlier[t]],
                        input[position(k)],
                        sorts@,
                        fields@,
                    ) == Ordering::Greater,
                !scanning ==> j > 0 && row_order(
                    input[earlier[j - 1]],
                    input[position(k)],
                    sorts@,
                    fields@,
                ) != Ordering::Greater,
            decreases j + (if scanning { 1int } else { 0int }),
        {
            match comparator.compare(&rows[j - 1], &rows[k]) {
                Ordering::Greater => {
                    j -= 1;
                },
                _ => {
                    scanning = false;
                },
            }
        }
        proof {
            lemma_insert_position_is(earlier, position(k), input, sorts@, fields@, position(j));
            lemma_sort_permutation_len(input, sorts@, fields@, k + 1);
        }
        let ghost before = rows@;
        let row = rows.remove(k);
        rows.insert(j, row);
        k += 1;
        proof {
            let later = sort_permutation(input, sorts@, fields@, position(k));
            assert(later == earlier.insert(position(j), k - 1));
            assert(rows@ =~= sorted_prefix(input, sorts@, fields@, position(k)));
        }
    }
    proof {
        lemma_sort_permutation_len(input, sorts@, fields@, length(input));
        assert(rows@ =~= sorted_rows(input, sorts@, fields@));
    }
}

/// The number of rows above which a collection is sorted in parallel.
pub const PARALLEL_SORT_THRESHOLD: usize = 512;

/// Sorts the rows in parallel with rayon's `par_sort_by`, which is handed
/// [`RowComparator::compare`].
///
/// Taken on trust from rayon's documentation: where the comparator orders
/// the rows of the slice totally, the call leaves the same rows in the
/// slice, in an order in which no row is greater than any row behind it and
/// rows that compare equal stand as they stood before.
#[verifier::external_body]
fn par_sort_rows(rows: &mut Vec<Row>, comparator: &RowComparator)
    requires
        is_total_order_on(old(rows)@, comparator.sorts(), comparator.fields()),
    ensures
        exists|order: Seq<int>| #[trigger]
            is_stable_sort(old(rows)@, order, comparator.sorts(), comparator.fields())
                && final(rows)@ == arranged(old(rows)@, order),
{
    rows.par_sort_by(|left, right| comparator.compare(left, right));
}

/// Whether every specification can read every row: no row holds, for the
/// field of a specification with a comparator, a cell that the comparator
/// cannot read.
pub fn all_comparable(rows: &Vec<Row>, sorts: &[SortSpecification], fields: &[FieldMetadata]) -> (yes:
    bool)
    ensures
        yes == (forall|i: int|
            0 <= i < rows@.len() ==> is_comparable(#[trigger] rows@[i], sorts@, fields@)),
{
    let mut s: usize = 0;
    while s < sorts.len()
        invariant
            s <= sorts.len(),
            forall|i: int, t: int|
                0 <= i < rows@.len() && 0 <= t < s ==> sort_reads_row(
                    #[trigger] rows@[i],
                    #[trigger] sorts@[t],
                    fields@,
                ),
        decreases sorts.len() - s,
    {
        let sort = &sorts[s];
        match find_field(fields, &sort.field_id) {
            None => {},
            Some(field) => {
                if comparator_reads(sort.field_type, field.options) {
                    let mut r: usize = 0;
                    while r < rows.len()
                        invariant
                            r <= rows.len(),
                            s < sorts.len(),
                            *sort == sorts@[position(s)],
                            resolve_field(fields@, sort.field_id@) == Some(*field),
                            has_comparator(sort.field_type, field.options),
                            forall|i: int|
                                0 <= i < r ==> sort_reads_row(#[trigger] rows@[i], *sort, fields@),
                        decreases rows.len() - r,
                    {
                        match rows[r].get_cell(sort.field_id.as_str()) {
                            None => {},
                            Some(cell) => {
                                if !holds_value_of(cell, sort.field_type) {
                                    assert(!sort_reads_row(
                                        rows@[position(r)],
                                        sorts@[position(s)],
                                        fields@,
                                    ));
                                    assert(!is_comparable(rows@[position(r)], sorts@, fields@));
                                    return false;
                                }
                            },
                        }
                        r += 1;
                    }
                }
            },
        }
        s += 1;
    }
    true
}

/// Sorts the rows under a list of specifications.
///
/// A collection of more than [`PARALLEL_SORT_THRESHOLD`] rows is sorted in
/// parallel, provided that every specification can read every row: the
/// rows are then totally ordered, and the parallel sort can give no other
/// order than the sequential one. Every other collection is sorted by
/// insertion, which takes time quadratic in the number of rows at worst
/// and linear where they are in order already.
pub fn sort_rows(rows: &mut Vec<Row>, sorts: &[SortSpecification], fields: &[FieldMetadata])
    ensures
        final(rows)@ == sorted_rows(old(rows)@, sorts@, fields@),
{
    if rows.len() > PARALLEL_SORT_THRESHOLD && all_comparable(rows, sorts, fields) {
        let ghost input = rows@;
        proof {
            lemma_comparable_rows_are_totally_ordered(input, sorts@, fields@);
        }
        let comparator = RowComparator::new(sorts, fields);
        par_sort_rows(rows, &comparator);
        proof {
            let order = choose|order: Seq<int>| #[trigger]
                is_stable_sort(input, order, sorts@, fields@) && rows@ == arranged(
                    input,
                    order,
                );
            lemma_stable_sort_is_unique(input, order, sorts@, fields@);
        }
    } else {
        insertion_sort(rows, sorts, fields);
    }
}

} // verus!
