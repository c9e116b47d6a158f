//! What holds of the row order for all rows and all lists of
//! specifications.

use crate::cell::{cell_order, text_order};
use crate::entities::{CellValue, FieldMetadata, FieldType, Row, SortCondition, SortSpecification};
use crate::row::{
    directed, field_order, invert, is_comparable, resolve_field, row_order, sort_order,
    sort_reads_row,
};
use std::cmp::Ordering;
use vstd::prelude::*;

verus! {

/// Three results `ab`, `bc`, `ac` that fit the comparison of three items
/// `a`, `b`, `c` under one total preorder.
pub open spec fn chains(ab: Ordering, bc: Ordering, ac: Ordering) -> bool {
    &&& ab != Ordering::Greater && bc != Ordering::Greater ==> ac != Ordering::Greater
    &&& ab != Ordering::Less && bc != Ordering::Less ==> ac != Ordering::Less
    &&& ab != Ordering::Greater && bc != Ordering::Greater && (ab == Ordering::Less || bc
        == Ordering::Less) ==> ac == Ordering::Less
    &&& ab != Ordering::Less && bc != Ordering::Less && (ab == Ordering::Greater || bc
        == Ordering::Greater) ==> ac == Ordering::Greater
}

/// Exchanging two texts inverts their order.
pub proof fn lemma_text_order_antisymmetric(a: Seq<char>, b: Seq<char>, case_sensitive: bool)
    ensures
        text_order(a, b, case_sensitive) == invert(text_order(b, a, case_sensitive)),
    decreases a.len(),
{
    if a.len() > 0 && b.len() > 0 {
        lemma_text_order_antisymmetric(a.drop_first(), b.drop_first(), case_sensitive);
    }
}

/// The order of texts is transitive.
pub proof fn lemma_text_order_transitive(
    a: Seq<char>,
    b: Seq<char>,
    c: Seq<char>,
    case_sensitive: bool,
)
    ensures
        chains(
            text_order(a, b, case_sensitive),
            text_order(b, c, case_sensitive),
            text_order(a, c, case_sensitive),
        ),
    decreases a.len(),
{
    if a.len() > 0 && b.len() > 0 && c.len() > 0 {
        lemma_text_order_transitive(
            a.drop_first(),
            b.drop_first(),
            c.drop_first(),
            case_sensitive,
        );
    }
}

/// Exchanging two cells inverts their order, whatever the cells hold.
pub proof fn lemma_cell_order_antisymmetric(
    left: CellValue,
    right: CellValue,
    field: FieldMetadata,
    field_type: FieldType,
)
    ensures
        cell_order(left, right, field, field_type) == invert(
            cell_order(right, left, field, field_type),
        ),
{
    match (left, right) {
        (CellValue::Text(a), CellValue::Text(b)) => {
            lemma_text_order_antisymmetric(a@, b@, true);
            lemma_text_order_antisymmetric(a@, b@, false);
        },
        _ => {},
    }
}

/// Exchanging two rows inverts what one specification finds between them.
pub proof fn lemma_field_order_antisymmetric(
    a: Row,
    b: Row,
    sort: SortSpecification,
    fields: Seq<FieldMetadata>,
)
    ensures
        field_order(a, b, sort, fields) == invert(field_order(b, a, sort, fields)),
        sort_order(a, b, sort, fields) == invert(sort_order(b, a, sort, fields)),
{
    match (resolve_field(fields, sort.field_id@), a.cell(sort.field_id@), b.cell(sort.field_id@)) {
        (Some(field), Some(l), Some(r)) => {
            lemma_cell_order_antisymmetric(l, r, field, sort.field_type);
        },
        _ => {},
    }
}

/// Antisymmetry: exchanging two rows inverts their order, for all rows and
/// every list of specifications.
pub proof fn lemma_row_order_antisymmetric(
    a: Row,
    b: Row,
    sorts: Seq<SortSpecification>,
    fields: Seq<FieldMetadata>,
)
    ensures
        row_order(a, b, sorts, fields) == invert(row_order(b, a, sorts, fields)),
    decreases sorts.len(),
{
    if sorts.len() > 0 {
        lemma_field_order_antisymmetric(a, b, sorts[0], fields);
        lemma_row_order_antisymmetric(a, b, sorts.drop_first(), fields);
    }
}

/// A row is equal to itself under every list of specifications.
pub proof fn lemma_row_order_reflexive(
    a: Row,
    sorts: Seq<SortSpecification>,
    fields: Seq<FieldMetadata>,
)
    ensures
        row_order(a, a, sorts, fields) == Ordering::Equal,
{
    lemma_row_order_antisymmetric(a, a, sorts, fields);
}

/// What one specification contributes is transitive over three rows that
/// it can read.
pub proof fn lemma_sort_order_transitive(
    a: Row,
    b: Row,
    c: Row,
    sort: SortSpecification,
    fields: Seq<FieldMetadata>,
)
    requires
        sort_reads_row(a, sort, fields),
        sort_reads_row(b, sort, fields),
        sort_reads_row(c, sort, fields),
    ensures
        chains(
            sort_order(a, b, sort, fields),
            sort_order(b, c, sort, fields),
            sort_order(a, c, sort, fields),
        ),
{
    match (a.cell(sort.field_id@), b.cell(sort.field_id@), c.cell(sort.field_id@)) {
        (Some(CellValue::Text(x)), Some(CellValue::Text(y)), Some(CellValue::Text(z))) => {
            lemma_text_order_transitive(x@, y@, z@, true);
            lemma_text_order_transitive(x@, y@, z@, false);
        },
        _ => {},
    }
}

/// Transitivity: over three rows whose cells every specification can read,
/// the row order is that of a total preorder. In particular less follows
/// from less and less, and equal from equal and equal.
pub proof fn lemma_row_order_transitive(
    a: Row,
    b: Row,
    c: Row,
    sorts: Seq<SortSpecification>,
    fields: Seq<FieldMetadata>,
)
    requires
        is_comparable(a, sorts, fields),
        is_comparable(b, sorts, fields),
        is_comparable(c, sorts, fields),
    ensures
        chains(
            row_order(a, b, sorts, fields),
            row_order(b, c, sorts, fields),
            row_order(a, c, sorts, fields),
        ),
        row_order(a, b, sorts, fields) == Ordering::Less && row_order(b, c, sorts, fields)
            == Ordering::Less ==> row_order(a, c, sorts, fields) == Ordering::Less,
        row_order(a, b, sorts, fields) == Ordering::Equal && row_order(b, c, sorts, fields)
            == Ordering::Equal ==> row_order(a, c, sorts, fields) == Ordering::Equal,
        row_order(a, b, sorts, fields) == Ordering::Greater && row_order(b, c, sorts, fields)
            == Ordering::Greater ==> row_order(a, c, sorts, fields) == Ordering::Greater,
    decreases sorts.len(),
{
    if sorts.len() > 0 {
        let rest = sorts.drop_first();
        assert(sort_reads_row(a, sorts[0], fields));
        assert(sort_reads_row(b, sorts[0], fields));
        assert(sort_reads_row(c, sorts[0], fields));
        lemma_sort_order_transitive(a, b, c, sorts[0], fields);
        assert forall|i: int| 0 <= i < rest.len() implies sort_reads_row(
            a,
            #[trigger] rest[i],
            fields,
        ) && sort_reads_row(b, rest[i], fields) && sort_reads_row(c, rest[i], fields) by {
            assert(rest[i] == sorts[i + 1]);
        }
        lemma_row_order_transitive(a, b, c, rest, fields);
    }
}

/// A specification that tells each of three rows from the two others can
/// read all three.
pub proof fn lemma_decided_rows_are_read(
    a: Row,
    b: Row,
    c: Row,
    sort: SortSpecification,
    fields: Seq<FieldMetadata>,
)
    requires
        sort_order(a, b, sort, fields) != Ordering::Equal,
        sort_order(b, c, sort, fields) != Ordering::Equal,
        sort_order(a, c, sort, fields) != Ordering::Equal,
    ensures
        sort_reads_row(a, sort, fields),
        sort_reads_row(b, sort, fields),
        sort_reads_row(c, sort, fields),
{
}

/// Transitivity where every outcome is decided: over three rows of which
/// every specification tells each from the two others, the row order is
/// that of a total order: less follows from less and less, greater from
/// greater and greater.
pub proof fn lemma_decided_row_order_transitive(
    a: Row,
    b: Row,
    c: Row,
    sorts: Seq<SortSpecification>,
    fields: Seq<FieldMetadata>,
)
    requires
        forall|i: int|
            0 <= i < sorts.len() ==> sort_order(a, b, #[trigger] sorts[i], fields)
                != Ordering::Equal && sort_order(b, c, sorts[i], fields) != Ordering::Equal
                && sort_order(a, c, sorts[i], fields) != Ordering::Equal,
    ensures
        chains(
            row_order(a, b, sorts, fields),
            row_order(b, c, sorts, fields),
            row_order(a, c, sorts, fields),
        ),
        row_order(a, b, sorts, fields) == Ordering::Less && row_order(b, c, sorts, fields)
            == Ordering::Less ==> row_order(a, c, sorts, fields) == Ordering::Less,
        row_order(a, b, sorts, fields) == Ordering::Greater && row_order(b, c, sorts, fields)
            == Ordering::Greater ==> row_order(a, c, sorts, fields) == Ordering::Greater,
{
    assert forall|i: int| 0 <= i < sorts.len() implies sort_reads_row(
        a,
        #[trigger] sorts[i],
        fields,
    ) && sort_reads_row(b, sorts[i], fields) && sort_reads_row(c, sorts[i], fields) by {
        lemma_decided_rows_are_read(a, b, c, sorts[i], fields);
    }
    lemma_row_order_transitive(a, b, c, sorts, fields);
}

/// Priority: the first specification that does not find two rows equal
/// decides their order, whatever the specifications after it find.
pub proof fn lemma_first_difference_decides(
    a: Row,
    b: Row,
    sorts: Seq<SortSpecification>,
    fields: Seq<FieldMetadata>,
    k: int,
)
    requires
        0 <= k < sorts.len(),
        forall|j: int| 0 <= j < k ==> sort_order(a, b, #[trigger] sorts[j], fields) == Ordering::Equal,
        sort_order(a, b, sorts[k], fields) != Ordering::Equal,
    ensures
        row_order(a, b, sorts, fields) == sort_order(a, b, sorts[k], fields),
    decreases k,
{
    if k > 0 {
        let rest = sorts.drop_first();
        assert forall|j: int| 0 <= j < k - 1 implies sort_order(a, b, #[trigger] rest[j], fields)
            == Ordering::Equal by {
            assert(rest[j] == sorts[j + 1]);
        }
        assert(sort_order(a, b, sorts[0], fields) == Ordering::Equal);
        lemma_first_difference_decides(a, b, rest, fields, k - 1);
    }
}

/// Priority of the primary key: where the first specification does not find
/// two rows equal, the row order is its contribution.
pub proof fn lemma_primary_key_decides(
    a: Row,
    b: Row,
    sorts: Seq<SortSpecification>,
    fields: Seq<FieldMetadata>,
)
    requires
        sorts.len() > 0,
        sort_order(a, b, sorts[0], fields) != Ordering::Equal,
    ensures
        row_order(a, b, sorts, fields) == directed(
            field_order(a, b, sorts[0], fields),
            sorts[0].condition,
        ),
{
}

/// Specifications that find two rows equal leave the decision to the rest
/// of the list.
pub proof fn lemma_ties_fall_through(
    a: Row,
    b: Row,
    sorts: Seq<SortSpecification>,
    fields: Seq<FieldMetadata>,
)
    requires
        forall|j: int| 0 <= j < sorts.len() ==> sort_order(a, b, #[trigger] sorts[j], fields)
            == Ordering::Equal,
    ensures
        row_order(a, b, sorts, fields) == Ordering::Equal,
    decreases sorts.len(),
{
    if sorts.len() > 0 {
        let rest = sorts.drop_first();
        assert forall|j: int| 0 <= j < rest.len() implies sort_order(a, b, #[trigger] rest[j], fields)
            == Ordering::Equal by {
            assert(rest[j] == sorts[j + 1]);
        }
        assert(sort_order(a, b, sorts[0], fields) == Ordering::Equal);
        lemma_ties_fall_through(a, b, rest, fields);
    }
}

/// Missing values: under a specification whose field exists, a row with a
/// cell for the field comes before a row without one when ascending, and
/// after it when descending.
pub proof fn lemma_missing_value_order(
    present: Row,
    absent: Row,
    sort: SortSpecification,
    fields: Seq<FieldMetadata>,
)
    requires
        resolve_field(fields, sort.field_id@) is Some,
        present.cell(sort.field_id@) is Some,
        absent.cell(sort.field_id@) is None,
    ensures
        sort.condition == SortCondition::Ascending ==> row_order(
            present,
            absent,
            seq![sort],
            fields,
        ) == Ordering::Less,
        sort.condition == SortCondition::Descending ==> row_order(
            present,
            absent,
            seq![sort],
            fields,
        ) == Ordering::Greater,
        row_order(absent, present, seq![sort], fields) == invert(
            row_order(present, absent, seq![sort], fields),
        ),
{
    assert(seq![sort][0] == sort);
    lemma_row_order_antisymmetric(absent, present, seq![sort], fields);
}

/// Degradation: a specification whose field has no metadata contributes
/// nothing, and the row order is the same without it.
pub proof fn lemma_inert_specification(
    a: Row,
    b: Row,
    sorts: Seq<SortSpecification>,
    fields: Seq<FieldMetadata>,
    k: int,
)
    requires
        0 <= k < sorts.len(),
        resolve_field(fields, sorts[k].field_id@) is None,
    ensures
        sort_order(a, b, sorts[k], fields) == Ordering::Equal,
        row_order(a, b, sorts.remove(k), fields) == row_order(a, b, sorts, fields),
    decreases k,
{
    if k == 0 {
        assert(sorts.remove(0) =~= sorts.drop_first());
    } else {
        let rest = sorts.drop_first();
        assert(sorts.remove(k).drop_first() =~= rest.remove(k - 1));
        assert(sorts.remove(k)[0] == sorts[0]);
        assert(rest[k - 1] == sorts[k]);
        lemma_inert_specification(a, b, rest, fields, k - 1);
    }
}

} // verus!
