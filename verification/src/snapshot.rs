//! A delegate that answers from a fixed list of specifications and a fixed
//! list of fields: what a view held at one moment.

use crate::changeset::texts;
use crate::controller::SortDelegate;
use crate::entities::{FieldMetadata, SortSpecification};
use crate::row::{find_field, resolve_field};
use vstd::prelude::*;

verus! {

/// The sort specifications and the fields of one view at one moment.
pub struct SortSnapshot {
    pub sorts: Vec<SortSpecification>,
    pub fields: Vec<FieldMetadata>,
}

/// Those of the first `n` fields whose identifier is among `ids`, in their
/// order.
pub open spec fn fields_among(fields: Seq<FieldMetadata>, ids: Seq<Seq<char>>, n: int) -> Seq<
    FieldMetadata,
>
    decreases n,
{
    if n <= 0 {
        Seq::empty()
    } else if ids.contains(fields[n - 1].id@) {
        fields_among(fields, ids, n - 1).push(fields[n - 1])
    } else {
        fields_among(fields, ids, n - 1)
    }
}

/// Copies a list of specifications.
pub fn copy_sorts(sorts: &Vec<SortSpecification>) -> (copy: Vec<SortSpecification>)
    ensures
        copy@ == sorts@,
{
    let mut copy: Vec<SortSpecification> = Vec::new();
    let mut i: usize = 0;
    while i < sorts.len()
        invariant
            i <= sorts.len(),
            copy@ == sorts@.take(i as int),
        decreases sorts.len() - i,
    {
        copy.push(sorts[i].clone());
        i += 1;
        assert(copy@ =~= sorts@.take(i as int));
    }
    assert(sorts@.take(i as int) =~= sorts@);
    copy
}

/// Whether a list of identifiers holds a given one.
pub fn holds_id(ids: &Vec<String>, id: &String) -> (yes: bool)
    ensures
        yes == texts(ids@).contains(id@),
{
    let mut i: usize = 0;
    while i < ids.len()
        invariant
            i <= ids.len(),
            forall|k: int| 0 <= k < i ==> texts(ids@)[k] != id@,
        decreases ids.len() - i,
    {
        if ids[i] == *id {
            assert(texts(ids@)[i as int] == id@);
            return true;
        }
        i += 1;
    }
    false
}

impl SortDelegate for SortSnapshot {
    /// The specifications of the snapshot, which is that of one view
    /// whatever the identifier asked for.
    fn get_sort_rev(&self, view_id: &str) -> (sorts: Vec<SortSpecification>)
        ensures
            sorts@ == self.sorts@,
    {
        copy_sorts(&self.sorts)
    }

    /// The first field of the snapshot with the identifier.
    fn get_field_rev(&self, field_id: &str) -> (field: Option<FieldMetadata>)
        ensures
            field == resolve_field(self.fields@, field_id@),
    {
        let wanted = field_id.to_owned();
        match find_field(self.fields.as_slice(), &wanted) {
            Some(found) => Some(found.clone()),
            None => None,
        }
    }

    /// The fields of the snapshot whose identifier is asked for, in the
    /// order of the snapshot, and all of them where none is named.
    fn get_field_revs(&self, field_ids: Option<Vec<String>>) -> (fields: Vec<FieldMetadata>)
        ensures
            match field_ids {
                None => fields@ == self.fields@,
                Some(ids) => fields@ == fields_among(
                    self.fields@,
                    texts(ids@),
                    self.fields@.len() as int,
                ),
            },
    {
        let mut fields: Vec<FieldMetadata> = Vec::new();
        let mut i: usize = 0;
        while i < self.fields.len()
            invariant
                i <= self.fields.len(),
                match field_ids {
                    None => fields@ == self.fields@.take(i as int),
                    Some(ids) => fields@ == fields_among(self.fields@, texts(ids@), i as int),
                },
            decreases self.fields.len() - i,
        {
            let wanted = match &field_ids {
                None => true,
                Some(ids) => holds_id(ids, &self.fields[i].id),
            };
            if wanted {
                fields.push(self.fields[i].clone());
            }
            i += 1;
            proof {
                if field_ids is None {
                    assert(fields@ =~= self.fields@.take(i as int));
                }
            }
        }
        assert(self.fields@.take(i as int) =~= self.fields@);
        fields
    }
}

} // verus!
