//! The data that a sort reads: specifications, field metadata, rows, cells.

use vstd::hash_map::StringHashMap;
use vstd::prelude::*;

verus! {

/// The data type of a field. Every type has an entry in the comparator
/// registry; for the types without an ordering of their own that entry
/// answers "equal".
#[derive(Clone, Copy, Debug, PartialEq, Eq, Structural)]
pub enum FieldType {
    RichText,
    Number,
    DateTime,
    SingleSelect,
    MultiSelect,
    Checkbox,
    URL,
    Checklist,
}

/// The direction of one sort specification.
#[derive(Clone, Copy, Debug, PartialEq, Eq, Structural)]
pub enum SortCondition {
    Ascending,
    Descending,
}

/// One sort specification. Its place in the list of specifications is its
/// priority: the first entry is the primary key.
///
/// `field_type` is a copy taken when the specification was made and may
/// differ from the type that the field has now.
#[derive(Debug, PartialEq, Eq)]
pub struct SortSpecification {
    pub id: String,
    pub field_id: String,
    pub field_type: FieldType,
    pub condition: SortCondition,
}

/// What a comparator needs to know, beyond the data type, to read the cells
/// of a field.
#[derive(Clone, Copy, Debug, PartialEq, Eq, Structural)]
pub enum TypeOptions {
    /// Text; without `case_sensitive`, the ASCII letters compare without
    /// regard to case.
    RichText { case_sensitive: bool },
    /// Whole numbers.
    Number,
    /// Points in time, as seconds since the epoch.
    DateTime,
    /// The options of a field type that has no ordering.
    Other,
}

/// The metadata of one field of the grid.
#[derive(Debug, PartialEq, Eq)]
pub struct FieldMetadata {
    pub id: String,
    pub field_type: FieldType,
    pub options: TypeOptions,
}

impl Clone for SortSpecification {
    fn clone(&self) -> (copy: SortSpecification)
        ensures
            copy == *self,
    {
        SortSpecification {
            id: self.id.clone(),
            field_id: self.field_id.clone(),
            field_type: self.field_type,
            condition: self.condition,
        }
    }
}

impl Clone for FieldMetadata {
    fn clone(&self) -> (copy: FieldMetadata)
        ensures
            copy == *self,
    {
        FieldMetadata { id: self.id.clone(), field_type: self.field_type, options: self.options }
    }
}

/// The content of one cell, already read from storage.
#[derive(Clone, Debug, PartialEq, Eq)]
pub enum CellValue {
    Text(String),
    Number(i64),
    /// Seconds since the epoch.
    DateTime(i64),
    /// Content without a typed reading: storage that could not be parsed,
    /// or the value of a field type that has no ordering.
    Opaque,
}

/// One row: its identifier and its cells by field identifier. A field
/// without an entry in `cells` has no value in this row.
pub struct Row {
    pub id: String,
    pub cells: StringHashMap<CellValue>,
}

impl Row {
    /// The cell of this row for a field, if the row has one.
    pub open spec fn cell(self, field_id: Seq<char>) -> Option<CellValue> {
        if self.cells@.contains_key(field_id) {
            Some(self.cells@[field_id])
        } else {
            None
        }
    }

    /// A row without cells.
    pub fn new(id: &str) -> (row: Row)
        ensures
            row.id@ == id@,
            row.cells@ == Map::<Seq<char>, CellValue>::empty(),
    {
        Row { id: id.to_owned(), cells: StringHashMap::new() }
    }

    /// Gives the row a cell for a field, in place of the one it had.
    pub fn set_cell(&mut self, field_id: &str, value: CellValue)
        ensures
            final(self).id == old(self).id,
            final(self).cells@ == old(self).cells@.insert(field_id@, value),
    {
        self.cells.insert(field_id.to_owned(), value);
    }

    /// The cell for a field, if the row has one.
    pub fn get_cell(&self, field_id: &str) -> (cell: Option<&CellValue>)
        ensures
            match cell {
                Some(value) => self.cell(field_id@) == Some(*value),
                None => self.cell(field_id@) is None,
            },
    {
        self.cells.get(field_id)
    }
}

} // verus!
