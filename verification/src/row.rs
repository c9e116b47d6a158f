//! The row comparator: the per-field comparators of a list of sort
//! specifications, composed into one lexicographic order over whole rows.

use crate::cell::{cell_order, cmp_cell, has_comparator, is_concrete};
use crate::entities::{FieldMetadata, Row, SortCondition, SortSpecification};
use crate::index::{lemma_suffix_end, lemma_suffix_start, lemma_suffix_step, suffix};
use std::cmp::Ordering;
use vstd::prelude::*;

verus! {

/// The opposite order.
pub open spec fn invert(order: Ordering) -> Ordering {
    match order {
        Ordering::Less => Ordering::Greater,
        Ordering::Equal => Ordering::Equal,
        Ordering::Greater => Ordering::Less,
    }
}

/// An order as a specification's direction shows it: as it is when
/// ascending, inverted when descending.
pub open spec fn directed(order: Ordering, condition: SortCondition) -> Ordering {
    match condition {
        SortCondition::Ascending => order,
        SortCondition::Descending => invert(order),
    }
}

/// The metadata of a field: the first entry of `fields` with that
/// identifier. A field that was deleted has none.
pub open spec fn resolve_field(fields: Seq<FieldMetadata>, field_id: Seq<char>) -> Option<
    FieldMetadata,
>
    decreases fields.len(),
{
    if fields.len() == 0 {
        None
    } else if fields[0].id@ == field_id {
        Some(fields[0])
    } else {
        resolve_field(fields.drop_first(), field_id)
    }
}

/// What one specification finds between two rows, before its direction is
/// applied, given the metadata of its field.
///
/// A specification whose field has no metadata finds nothing. Otherwise two
/// present cells are ordered by the registry, under the field type that the
/// specification recorded; a present cell is less than an absent one; two
/// absent cells are equal.
pub open spec fn resolved_order(
    left: Row,
    right: Row,
    sort: SortSpecification,
    field: Option<FieldMetadata>,
) -> Ordering {
    match field {
        None => Ordering::Equal,
        Some(field) => match (left.cell(sort.field_id@), right.cell(sort.field_id@)) {
            (Some(l), Some(r)) => cell_order(l, r, field, sort.field_type),
            (Some(_), None) => Ordering::Less,
            (None, Some(_)) => Ordering::Greater,
            (None, None) => Ordering::Equal,
        },
    }
}

/// What one specification finds between two rows, before its direction is
/// applied: [`resolved_order`] with the metadata that `fields` holds for
/// its field.
pub open spec fn field_order(
    left: Row,
    right: Row,
    sort: SortSpecification,
    fields: Seq<FieldMetadata>,
) -> Ordering {
    resolved_order(left, right, sort, resolve_field(fields, sort.field_id@))
}

/// What one specification contributes to the order of two rows: what it
/// finds, in its direction.
pub open spec fn sort_order(
    left: Row,
    right: Row,
    sort: SortSpecification,
    fields: Seq<FieldMetadata>,
) -> Ordering {
    directed(field_order(left, right, sort, fields), sort.condition)
}

/// The order of two rows under a list of specifications: the contribution
/// of the first specification that does not find them equal, and equal when
/// every specification does.
pub open spec fn row_order(
    left: Row,
    right: Row,
    sorts: Seq<SortSpecification>,
    fields: Seq<FieldMetadata>,
) -> Ordering
    decreases sorts.len(),
{
    if sorts.len() == 0 {
        Ordering::Equal
    } else {
        let first = sort_order(left, right, sorts[0], fields);
        if first != Ordering::Equal {
            first
        } else {
            row_order(left, right, sorts.drop_first(), fields)
        }
    }
}

/// Whether a specification can order a row against every other row that
/// meets this condition too: the specification is without effect or without
/// a comparator, or the row has no cell for its field, or a cell that the
/// comparator reads.
pub open spec fn sort_reads_row(row: Row, sort: SortSpecification, fields: Seq<FieldMetadata>) -> bool {
    match resolve_field(fields, sort.field_id@) {
        None => true,
        Some(field) => !has_comparator(sort.field_type, field.options) || match row.cell(
            sort.field_id@,
        ) {
            None => true,
            Some(cell) => is_concrete(cell, sort.field_type),
        },
    }
}

/// Whether every specification of a list can read a row (see
/// [`sort_reads_row`]).
pub open spec fn is_comparable(
    row: Row,
    sorts: Seq<SortSpecification>,
    fields: Seq<FieldMetadata>,
) -> bool {
    forall|i: int| 0 <= i < sorts.len() ==> sort_reads_row(row, #[trigger] sorts[i], fields)
}

/// Computes [`invert`].
pub fn reverse(order: Ordering) -> (inverse: Ordering)
    ensures
        inverse == invert(order),
{
    match order {
        Ordering::Less => Ordering::Greater,
        Ordering::Equal => Ordering::Equal,
        Ordering::Greater => Ordering::Less,
    }
}

/// Looks a field up by its identifier.
pub fn find_field<'a>(fields: &'a [FieldMetadata], field_id: &String) -> (field: Option<
    &'a FieldMetadata,
>)
    ensures
        match field {
            Some(found) => resolve_field(fields@, field_id@) == Some(*found),
            None => resolve_field(fields@, field_id@) is None,
        },
{
    let mut i: usize = 0;
    proof {
        lemma_suffix_start(fields@);
    }
    while i < fields.len()
        invariant
            i <= fields.len(),
            resolve_field(fields@, field_id@) == resolve_field(suffix(fields@, i), field_id@),
        decreases fields.len() - i,
    {
        proof {
            lemma_suffix_step(fields@, i);
        }
        if fields[i].id == *field_id {
            return Some(&fields[i]);
        }
        i += 1;
    }
    proof {
        lemma_suffix_end(fields@, i);
    }
    None
}

/// A borrowed field as a value.
pub open spec fn owned(field: Option<&FieldMetadata>) -> Option<FieldMetadata> {
    match field {
        Some(found) => Some(*found),
        None => None,
    }
}

/// Orders two rows by one specification whose field was looked up,
/// direction not yet applied.
pub fn cmp_resolved(
    left: &Row,
    right: &Row,
    sort: &SortSpecification,
    field: Option<&FieldMetadata>,
) -> (order: Ordering)
    ensures
        order == resolved_order(*left, *right, *sort, owned(field)),
{
    match field {
        None => Ordering::Equal,
        Some(field) => match (
            left.get_cell(sort.field_id.as_str()),
            right.get_cell(sort.field_id.as_str()),
        ) {
            (Some(left_cell), Some(right_cell)) => cmp_cell(
                left_cell,
                right_cell,
                field,
                sort.field_type,
            ),
            (Some(_), None) => Ordering::Less,
            (None, Some(_)) => Ordering::Greater,
            (None, None) => Ordering::Equal,
        },
    }
}

/// Orders two rows by one specification, direction not yet applied.
pub fn cmp_field(left: &Row, right: &Row, sort: &SortSpecification, fields: &[FieldMetadata]) -> (order:
    Ordering)
    ensures
        order == field_order(*left, *right, *sort, fields@),
{
    cmp_resolved(left, right, sort, find_field(fields, &sort.field_id))
}

/// Gives an order the direction of a specification.
pub fn direct(order: Ordering, condition: SortCondition) -> (shown: Ordering)
    ensures
        shown == directed(order, condition),
{
    match condition {
        SortCondition::Ascending => order,
        SortCondition::Descending => reverse(order),
    }
}

/// Orders two rows under a list of specifications, the first of which has
/// the highest priority.
pub fn cmp_row(left: &Row, right: &Row, sorts: &[SortSpecification], fields: &[FieldMetadata]) -> (order:
    Ordering)
    ensures
        order == row_order(*left, *right, sorts@, fields@),
{
    let mut i: usize = 0;
    proof {
        lemma_suffix_start(sorts@);
    }
    while i < sorts.len()
        invariant
            i <= sorts.len(),
            row_order(*left, *right, sorts@, fields@) == row_order(
                *left,
                *right,
                suffix(sorts@, i),
                fields@,
            ),
        decreases sorts.len() - i,
    {
        proof {
            lemma_suffix_step(sorts@, i);
        }
        let found = cmp_field(left, right, &sorts[i], fields);
        match found {
            Ordering::Equal => {},
            _ => {
                return direct(found, sorts[i].condition);
            },
        }
        i += 1;
    }
    proof {
        lemma_suffix_end(sorts@, i);
    }
    Ordering::Equal
}

/// The row comparator of one sort: the specifications, each with the
/// metadata of its field looked up once. It is made for a sort and dropped
/// after it, and keeps no state from one comparison to the next.
pub struct RowComparator<'a> {
    sorts: &'a [SortSpecification],
    fields: &'a [FieldMetadata],
    resolved: Vec<Option<&'a FieldMetadata>>,
}

impl<'a> RowComparator<'a> {
    #[verifier::type_invariant]
    spec fn well_formed(self) -> bool {
        &&& self.resolved@.len() == self.sorts@.len()
        &&& forall|i: int|
            0 <= i < self.sorts@.len() ==> owned(#[trigger] self.resolved@[i]) == resolve_field(
                self.fields@,
                self.sorts@[i].field_id@,
            )
    }

    /// The specifications that the comparator goes by.
    pub closed spec fn sorts(self) -> Seq<SortSpecification> {
        self.sorts@
    }

    /// The fields among which the comparator looked the metadata up.
    pub closed spec fn fields(self) -> Seq<FieldMetadata> {
        self.fields@
    }

    /// The comparator of a list of specifications, the first of which has
    /// the highest priority, over the given fields.
    pub fn new(sorts: &'a [SortSpecification], fields: &'a [FieldMetadata]) -> (comparator: Self)
        ensures
            comparator.sorts() == sorts@,
            comparator.fields() == fields@,
    {
        let mut resolved: Vec<Option<&'a FieldMetadata>> = Vec::new();
        let mut i: usize = 0;
        while i < sorts.len()
            invariant
                i <= sorts.len(),
                resolved@.len() == i,
                forall|k: int|
                    0 <= k < i ==> owned(#[trigger] resolved@[k]) == resolve_field(
                        fields@,
                        sorts@[k].field_id@,
                    ),
            decreases sorts.len() - i,
        {
            resolved.push(find_field(fields, &sorts[i].field_id));
            i += 1;
        }
        RowComparator { sorts, fields, resolved }
    }

    /// Orders two rows.
    pub fn compare(&self, left: &Row, right: &Row) -> (order: Ordering)
        ensures
            order == row_order(*left, *right, self.sorts(), self.fields()),
    {
        proof {
            use_type_invariant(self);
            lemma_suffix_start(self.sorts@);
        }
        let mut i: usize = 0;
        while i < self.sorts.len()
            invariant
                i <= self.sorts.len(),
                self.resolved@.len() == self.sorts@.len(),
                forall|k: int|
                    0 <= k < self.sorts@.len() ==> owned(#[trigger] self.resolved@[k])
                        == resolve_field(self.fields@, self.sorts@[k].field_id@),
                row_order(*left, *right, self.sorts@, self.fields@) == row_order(
                    *left,
                    *right,
                    suffix(self.sorts@, i),
                    self.fields@,
                ),
            decreases self.sorts.len() - i,
        {
            proof {
                lemma_suffix_step(self.sorts@, i);
            }
            let found = cmp_resolved(left, right, &self.sorts[i], self.resolved[i]);
            match found {
                Ordering::Equal => {},
                _ => {
                    return direct(found, self.sorts[i].condition);
                },
            }
            i += 1;
        }
        proof {
            lemma_suffix_end(self.sorts@, i);
        }
        Ordering::Equal
    }
}

} // verus!
