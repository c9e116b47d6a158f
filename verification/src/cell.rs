//! The comparator registry: for each field type, how two cells of that
//! type are ordered.

use crate::entities::{CellValue, FieldMetadata, FieldType, TypeOptions};
use crate::text::{char_key, fold_char};
use std::cmp::Ordering;
use vstd::prelude::*;
use vstd::std_specs::iter::IteratorSpec;

verus! {

/// The order of two cell numbers.
pub open spec fn number_order(a: i64, b: i64) -> Ordering {
    if a < b {
        Ordering::Less
    } else if a > b {
        Ordering::Greater
    } else {
        Ordering::Equal
    }
}

/// The order of two integers.
pub open spec fn int_order(a: int, b: int) -> Ordering {
    if a < b {
        Ordering::Less
    } else if a > b {
        Ordering::Greater
    } else {
        Ordering::Equal
    }
}

/// The order of two texts: lexicographic by [`char_key`], a proper prefix
/// before the longer text.
pub open spec fn text_order(a: Seq<char>, b: Seq<char>, case_sensitive: bool) -> Ordering
    decreases a.len(),
{
    if a.len() == 0 {
        if b.len() == 0 {
            Ordering::Equal
        } else {
            Ordering::Less
        }
    } else if b.len() == 0 {
        Ordering::Greater
    } else {
        let head = int_order(char_key(a[0], case_sensitive), char_key(b[0], case_sensitive));
        if head != Ordering::Equal {
            head
        } else {
            text_order(a.drop_first(), b.drop_first(), case_sensitive)
        }
    }
}

/// The registry as a function. A comparator applies when the field type
/// recorded in the specification has an ordering, the field's options are
/// those of that type, and both cells hold a value of that type. In every
/// other case the two cells count as equal.
pub open spec fn cell_order(
    left: CellValue,
    right: CellValue,
    field: FieldMetadata,
    field_type: FieldType,
) -> Ordering {
    match (field_type, field.options, left, right) {
        (
            FieldType::RichText,
            TypeOptions::RichText { case_sensitive },
            CellValue::Text(a),
            CellValue::Text(b),
        ) => text_order(a@, b@, case_sensitive),
        (FieldType::Number, TypeOptions::Number, CellValue::Number(a), CellValue::Number(b)) => number_order(
            a,
            b,
        ),
        (
            FieldType::DateTime,
            TypeOptions::DateTime,
            CellValue::DateTime(a),
            CellValue::DateTime(b),
        ) => number_order(a, b),
        _ => Ordering::Equal,
    }
}

/// Whether the registry holds an ordering for a field type that can read
/// the given options.
pub open spec fn has_comparator(field_type: FieldType, options: TypeOptions) -> bool {
    match (field_type, options) {
        (FieldType::RichText, TypeOptions::RichText { .. }) => true,
        (FieldType::Number, TypeOptions::Number) => true,
        (FieldType::DateTime, TypeOptions::DateTime) => true,
        _ => false,
    }
}

/// Whether a cell holds a value that the comparator of a field type
/// reads.
pub open spec fn is_concrete(cell: CellValue, field_type: FieldType) -> bool {
    match (field_type, cell) {
        (FieldType::RichText, CellValue::Text(_)) => true,
        (FieldType::Number, CellValue::Number(_)) => true,
        (FieldType::DateTime, CellValue::DateTime(_)) => true,
        _ => false,
    }
}

/// Computes [`has_comparator`].
pub fn comparator_reads(field_type: FieldType, options: TypeOptions) -> (yes: bool)
    ensures
        yes == has_comparator(field_type, options),
{
    match (field_type, options) {
        (FieldType::RichText, TypeOptions::RichText { .. }) => true,
        (FieldType::Number, TypeOptions::Number) => true,
        (FieldType::DateTime, TypeOptions::DateTime) => true,
        _ => false,
    }
}

/// Computes [`is_concrete`].
pub fn holds_value_of(cell: &CellValue, field_type: FieldType) -> (yes: bool)
    ensures
        yes == is_concrete(*cell, field_type),
{
    match (field_type, cell) {
        (FieldType::RichText, CellValue::Text(_)) => true,
        (FieldType::Number, CellValue::Number(_)) => true,
        (FieldType::DateTime, CellValue::DateTime(_)) => true,
        _ => false,
    }
}

/// Orders two numbers.
pub fn cmp_number(a: i64, b: i64) -> (order: Ordering)
    ensures
        order == number_order(a, b),
{
    if a < b {
        Ordering::Less
    } else if a > b {
        Ordering::Greater
    } else {
        Ordering::Equal
    }
}

/// Orders two texts.
pub fn cmp_text(a: &str, b: &str, case_sensitive: bool) -> (order: Ordering)
    ensures
        order == text_order(a@, b@, case_sensitive),
{
    broadcast use {vstd::string::axiom_spec_iter, vstd::string::next_postcondition};

    let mut left = a.chars();
    let mut right = b.chars();
    loop
        invariant
            text_order(a@, b@, case_sensitive) == text_order(
                left.remaining(),
                right.remaining(),
                case_sensitive,
            ),
            left.decrease() is Some,
        decreases left.decrease()->0,
    {
        let l = left.next();
        let r = right.next();
        match (l, r) {
            (None, None) => {
                return Ordering::Equal;
            },
            (None, Some(_)) => {
                return Ordering::Less;
            },
            (Some(_), None) => {
                return Ordering::Greater;
            },
            (Some(x), Some(y)) => {
                let kx = fold_char(x, case_sensitive);
                let ky = fold_char(y, case_sensitive);
                if kx < ky {
                    return Ordering::Less;
                } else if kx > ky {
                    return Ordering::Greater;
                }
            },
        }
    }
}

/// Orders two cells of one field by the comparator of `field_type`.
pub fn cmp_cell(
    left: &CellValue,
    right: &CellValue,
    field: &FieldMetadata,
    field_type: FieldType,
) -> (order: Ordering)
    ensures
        order == cell_order(*left, *right, *field, field_type),
{
    match field_type {
        FieldType::RichText => match (field.options, left, right) {
            (TypeOptions::RichText { case_sensitive }, CellValue::Text(a), CellValue::Text(b)) => {
                cmp_text(a.as_str(), b.as_str(), case_sensitive)
            },
            _ => Ordering::Equal,
        },
        FieldType::Number => match (field.options, left, right) {
            (TypeOptions::Number, CellValue::Number(a), CellValue::Number(b)) => cmp_number(*a, *b),
            _ => Ordering::Equal,
        },
        FieldType::DateTime => match (field.options, left, right) {
            (TypeOptions::DateTime, CellValue::DateTime(a), CellValue::DateTime(b)) => cmp_number(
                *a,
                *b,
            ),
            _ => Ordering::Equal,
        },
        _ => Ordering::Equal,
    }
}

} // verus!
