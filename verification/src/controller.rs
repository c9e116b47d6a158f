//! The sort controller: the one component with a state of its own.
//!
//! A controller is made for one view, becomes active when its handler is
//! registered with the task scheduler, and is closed once. While it is
//! active it sorts row collections under the specifications that its
//! delegate gives it, and tells what a change did to the order of the rows.
//! Registering and unregistering are the work of the caller: the controller
//! decides when they are due.

use crate::changeset::{
    diff_orders, inserted_rows, lemma_same_order, removed_rows, reordered_rows, same_order, texts,
    SortChangeset, SortChangesetNotification,
};
use crate::entities::{FieldMetadata, Row, SortSpecification};
use crate::sort::{sort_rows, sorted_rows};
use crate::sort_laws::lemma_sorting_twice;
use crate::store::{without_id, SortStore};
use vstd::prelude::*;

verus! {

/// Where a controller stands in its life.
#[derive(Clone, Copy, Debug, PartialEq, Eq, Structural)]
pub enum ControllerState {
    /// Made, its handler not yet registered.
    Created,
    /// Registered: the one state in which it sorts and takes changes.
    Active,
    /// Closed for good.
    Closed,
}

/// Why a controller refuses to sort or to take a change.
#[derive(Clone, Copy, Debug, PartialEq, Eq, Structural)]
pub enum SortError {
    /// The controller is not active yet.
    NotActive,
    /// The controller was closed.
    Closed,
}

/// Where the controller gets the sort specifications and the field
/// metadata from. Nothing is asked of an answer: the controller works with
/// whatever comes back.
pub trait SortDelegate {
    /// The sort specifications of a view, first priority first.
    fn get_sort_rev(&self, view_id: &str) -> Vec<SortSpecification>;

    /// The metadata of a field, if the field exists.
    fn get_field_rev(&self, field_id: &str) -> Option<FieldMetadata>;

    /// The metadata of the fields with the given identifiers, or of all
    /// fields where none are given.
    fn get_field_revs(&self, field_ids: Option<Vec<String>>) -> Vec<FieldMetadata>;
}

/// A controller as the contracts see it.
pub struct ControllerView<D> {
    pub view_id: Seq<char>,
    pub handler_id: Seq<char>,
    pub delegate: D,
    pub state: ControllerState,
    /// The specifications of the last sort.
    pub sorts: Seq<SortSpecification>,
    /// The field metadata of the last sort.
    pub fields: Seq<FieldMetadata>,
    /// The row identifiers in the order of the last sort.
    pub row_orders: Seq<Seq<char>>,
}

/// The sort controller of one view.
pub struct SortController<D: SortDelegate> {
    view_id: String,
    handler_id: String,
    delegate: D,
    state: ControllerState,
    sorts: SortStore,
    fields: Vec<FieldMetadata>,
    row_orders: Vec<String>,
}

/// The identifiers of a collection of rows, in its order.
pub open spec fn ids_of(rows: Seq<Row>) -> Seq<Seq<char>> {
    Seq::new(rows.len(), |i: int| rows[i].id@)
}

/// The list of specifications after a change: an inserted specification is
/// appended, a deleted one is taken out, an edit of rows leaves the list as
/// it is.
pub open spec fn applied(sorts: Seq<SortSpecification>, changeset: SortChangeset) -> Seq<
    SortSpecification,
> {
    match changeset {
        SortChangeset::InsertSort(sort) => sorts.push(sort),
        SortChangeset::DeleteSort(id) => without_id(sorts, id@),
        SortChangeset::UpdateRows => sorts,
    }
}

/// The error with which a controller that is not active refuses.
pub open spec fn refusal(state: ControllerState) -> SortError {
    if state == ControllerState::Closed {
        SortError::Closed
    } else {
        SortError::NotActive
    }
}

/// Whether a notification tells what became of the order `before` when the
/// rows took the order `after`: nothing where the two are the same, and
/// else the rows inserted, removed and reordered.
pub open spec fn tells_change(
    notification: Option<SortChangesetNotification>,
    view_id: Seq<char>,
    before: Seq<Seq<char>>,
    after: Seq<Seq<char>>,
) -> bool {
    match notification {
        None => same_order(before, after),
        Some(told) => {
            &&& !same_order(before, after)
            &&& told.view_id@ == view_id
            &&& texts(told.inserted@) == inserted_rows(before, after)
            &&& texts(told.removed@) == removed_rows(before, after)
            &&& texts(told.reordered@) == reordered_rows(before, after)
        },
    }
}

/// Sorting again what a sort left, under the same specifications, leaves
/// an order of which a notification has nothing to tell, provided that no
/// two rows share an identifier.
pub proof fn lemma_sorting_again_tells_nothing(
    rows: Seq<Row>,
    sorts: Seq<SortSpecification>,
    fields: Seq<FieldMetadata>,
)
    requires
        ids_of(sorted_rows(rows, sorts, fields)).no_duplicates(),
    ensures
        sorted_rows(sorted_rows(rows, sorts, fields), sorts, fields) == sorted_rows(
            rows,
            sorts,
            fields,
        ),
        same_order(
            ids_of(sorted_rows(rows, sorts, fields)),
            ids_of(sorted_rows(sorted_rows(rows, sorts, fields), sorts, fields)),
        ),
{
    lemma_sorting_twice(rows, sorts, fields);
    lemma_same_order(
        ids_of(sorted_rows(rows, sorts, fields)),
        ids_of(sorted_rows(rows, sorts, fields)),
    );
}

/// Copies the identifiers of the rows.
pub fn row_ids(rows: &Vec<Row>) -> (ids: Vec<String>)
    ensures
        texts(ids@) == ids_of(rows@),
{
    let mut ids: Vec<String> = Vec::new();
    let mut i: usize = 0;
    while i < rows.len()
        invariant
            i <= rows.len(),
            ids@.len() == i,
            forall|k: int| 0 <= k < i ==> (#[trigger] ids@[k])@ == rows@[k].id@,
        decreases rows.len() - i,
    {
        ids.push(rows[i].id.clone());
        i += 1;
    }
    assert(texts(ids@) =~= ids_of(rows@));
    ids
}

/// Copies the field identifiers of the specifications.
pub fn field_ids(sorts: &[SortSpecification]) -> (ids: Vec<String>)
    ensures
        ids@.len() == sorts@.len(),
        forall|k: int| 0 <= k < sorts@.len() ==> (#[trigger] ids@[k])@ == sorts@[k].field_id@,
{
    let mut ids: Vec<String> = Vec::new();
    let mut i: usize = 0;
    while i < sorts.len()
        invariant
            i <= sorts.len(),
            ids@.len() == i,
            forall|k: int| 0 <= k < i ==> (#[trigger] ids@[k])@ == sorts@[k].field_id@,
        decreases sorts.len() - i,
    {
        ids.push(sorts[i].field_id.clone());
        i += 1;
    }
    ids
}

impl<D: SortDelegate> View for SortController<D> {
    type V = ControllerView<D>;

    closed spec fn view(&self) -> ControllerView<D> {
        ControllerView {
            view_id: self.view_id@,
            handler_id: self.handler_id@,
            delegate: self.delegate,
            state: self.state,
            sorts: self.sorts@,
            fields: self.fields@,
            row_orders: texts(self.row_orders@),
        }
    }
}

impl<D: SortDelegate> SortController<D> {
    /// A controller for a view, not yet active. Its handler is to be
    /// registered with the task scheduler under `handler_id`; once that is
    /// done, [`SortController::activate`] says so.
    pub fn new(view_id: &str, handler_id: &str, delegate: D) -> (controller: Self)
        ensures
            controller@ == (ControllerView {
                view_id: view_id@,
                handler_id: handler_id@,
                delegate,
                state: ControllerState::Created,
                sorts: Seq::empty(),
                fields: Seq::empty(),
                row_orders: Seq::empty(),
            }),
    {
        let controller = SortController {
            view_id: view_id.to_owned(),
            handler_id: handler_id.to_owned(),
            delegate,
            state: ControllerState::Created,
            sorts: SortStore::new(),
            fields: Vec::new(),
            row_orders: Vec::new(),
        };
        assert(texts(controller.row_orders@) =~= Seq::<Seq<char>>::empty());
        controller
    }

    /// The state of the controller.
    pub fn state(&self) -> (state: ControllerState)
        ensures
            state == self@.state,
    {
        self.state
    }

    /// The view that the controller sorts.
    pub fn view_id(&self) -> (id: &String)
        ensures
            id@ == self@.view_id,
    {
        &self.view_id
    }

    /// The identifier under which the controller's handler is registered.
    pub fn handler_id(&self) -> (id: &String)
        ensures
            id@ == self@.handler_id,
    {
        &self.handler_id
    }

    /// The delegate.
    pub fn delegate(&self) -> (delegate: &D)
        ensures
            *delegate == self@.delegate,
    {
        &self.delegate
    }

    /// Puts another delegate in the place of the present one.
    pub fn set_delegate(&mut self, delegate: D)
        ensures
            final(self)@ == (ControllerView { delegate, ..old(self)@ }),
    {
        self.delegate = delegate;
    }

    /// The specifications of the last sort, first priority first.
    pub fn sorts(&self) -> (sorts: &[SortSpecification])
        ensures
            sorts@ == self@.sorts,
    {
        self.sorts.sorts()
    }

    /// The row identifiers in the order of the last sort.
    pub fn row_orders(&self) -> (ids: &Vec<String>)
        ensures
            texts(ids@) == self@.row_orders,
    {
        &self.row_orders
    }

    /// Takes note that the handler was registered: a controller that was
    /// just made becomes active. Any other controller stays as it is, so
    /// that a handler counts as registered once in a controller's life.
    pub fn activate(&mut self) -> (activated: bool)
        ensures
            activated == (old(self)@.state == ControllerState::Created),
            activated ==> final(self)@ == (ControllerView {
                state: ControllerState::Active,
                ..old(self)@
            }),
            !activated ==> final(self)@ == old(self)@,
    {
        match self.state {
            ControllerState::Created => {
                self.state = ControllerState::Active;
                true
            },
            _ => false,
        }
    }

    /// Closes an active controller and hands out the identifier of the
    /// handler that is now to be unregistered. A controller that is not
    /// active stays as it is and hands out nothing: of two calls only the
    /// first unregisters.
    pub fn close(&mut self) -> (unregister: Option<String>)
        ensures
            unregister is Some <==> old(self)@.state == ControllerState::Active,
            unregister is Some ==> unregister->0@ == old(self)@.handler_id,
            unregister is Some ==> final(self)@ == (ControllerView {
                state: ControllerState::Closed,
                ..old(self)@
            }),
            unregister is None ==> final(self)@ == old(self)@,
    {
        match self.state {
            ControllerState::Active => {
                self.state = ControllerState::Closed;
                Some(self.handler_id.clone())
            },
            _ => None,
        }
    }

    /// Sorts the rows under the given specifications and field metadata,
    /// and keeps both, with the order of the rows, as the last sort.
    ///
    /// A controller that is not active refuses and changes nothing.
    pub fn sort_rows_with(
        &mut self,
        sorts: Vec<SortSpecification>,
        fields: Vec<FieldMetadata>,
        rows: &mut Vec<Row>,
    ) -> (result: Result<(), SortError>)
        ensures
            result is Ok <==> old(self)@.state == ControllerState::Active,
            result is Ok ==> final(rows)@ == sorted_rows(old(rows)@, sorts@, fields@),
            result is Ok ==> final(self)@ == (ControllerView {
                sorts: sorts@,
                fields: fields@,
                row_orders: ids_of(final(rows)@),
                ..old(self)@
            }),
            result is Err ==> result->Err_0 == refusal(old(self)@.state),
            result is Err ==> final(self)@ == old(self)@ && final(rows)@ == old(rows)@,
    {
        match self.state {
            ControllerState::Active => {
                sort_rows(rows, sorts.as_slice(), fields.as_slice());
                self.sorts = SortStore::from_sorts(sorts);
                self.fields = fields;
                self.row_orders = row_ids(rows);
                Ok(())
            },
            ControllerState::Created => Err(SortError::NotActive),
            ControllerState::Closed => Err(SortError::Closed),
        }
    }

    /// Sorts the rows under the specifications that the delegate gives for
    /// the controller's view, with the metadata that the delegate gives for
    /// the field of each, and keeps both, with the order of the rows, as
    /// the last sort.
    ///
    /// A controller that is not active refuses, asks the delegate nothing
    /// and changes nothing.
    pub fn sort_rows(&mut self, rows: &mut Vec<Row>) -> (result: Result<(), SortError>)
        ensures
            result is Ok <==> old(self)@.state == ControllerState::Active,
            result is Ok ==> final(rows)@ == sorted_rows(
                old(rows)@,
                final(self)@.sorts,
                final(self)@.fields,
            ),
            result is Ok ==> final(self)@ == (ControllerView {
                sorts: final(self)@.sorts,
                fields: final(self)@.fields,
                row_orders: ids_of(final(rows)@),
                ..old(self)@
            }),
            result is Err ==> result->Err_0 == refusal(old(self)@.state),
            result is Err ==> final(self)@ == old(self)@ && final(rows)@ == old(rows)@,
    {
        match self.state {
            ControllerState::Active => {
                let sorts = self.delegate.get_sort_rev(self.view_id.as_str());
                let mut fields: Vec<FieldMetadata> = Vec::new();
                let mut i: usize = 0;
                while i < sorts.len()
                    invariant
                        i <= sorts.len(),
                    decreases sorts.len() - i,
                {
                    match self.delegate.get_field_rev(sorts[i].field_id.as_str()) {
                        Some(field) => {
                            fields.push(field);
                        },
                        None => {},
                    }
                    i += 1;
                }
                self.sort_rows_with(sorts, fields, rows)
            },
            ControllerState::Created => Err(SortError::NotActive),
            ControllerState::Closed => Err(SortError::Closed),
        }
    }

    /// Brings the list of specifications up to date with a change.
    fn apply(&mut self, changeset: SortChangeset)
        ensures
            final(self)@ == (ControllerView {
                sorts: applied(old(self)@.sorts, changeset),
                ..old(self)@
            }),
    {
        match changeset {
            SortChangeset::InsertSort(sort) => {
                self.sorts.append(sort);
            },
            SortChangeset::DeleteSort(id) => {
                self.sorts.remove(&id);
            },
            SortChangeset::UpdateRows => {},
        }
    }

    /// Sorts the rows under the controller's list of specifications and
    /// tells how their order differs from that of the last sort.
    fn sort_again(&mut self, fields: Vec<FieldMetadata>, rows: &mut Vec<Row>) -> (notification:
        Option<SortChangesetNotification>)
        ensures
            final(rows)@ == sorted_rows(old(rows)@, old(self)@.sorts, fields@),
            final(self)@ == (ControllerView {
                fields: fields@,
                row_orders: ids_of(final(rows)@),
                ..old(self)@
            }),
            tells_change(
                notification,
                old(self)@.view_id,
                old(self)@.row_orders,
                ids_of(final(rows)@),
            ),
    {
        sort_rows(rows, self.sorts.sorts(), fields.as_slice());
        self.fields = fields;
        let after = row_ids(rows);
        let notification = diff_orders(&self.view_id, &self.row_orders, &after);
        self.row_orders = after;
        if notification.is_empty() {
            None
        } else {
            Some(notification)
        }
    }

    /// Takes a change: brings the list of specifications up to date, sorts
    /// the rows under it with the given field metadata, and tells how the
    /// order of the rows differs from that of the last sort.
    ///
    /// A controller that is not active refuses and changes nothing.
    pub fn did_receive_changes_with(
        &mut self,
        changeset: SortChangeset,
        fields: Vec<FieldMetadata>,
        rows: &mut Vec<Row>,
    ) -> (result: Result<Option<SortChangesetNotification>, SortError>)
        ensures
            result is Ok <==> old(self)@.state == ControllerState::Active,
            result is Ok ==> final(rows)@ == sorted_rows(
                old(rows)@,
                applied(old(self)@.sorts, changeset),
                fields@,
            ),
            result is Ok ==> final(self)@ == (ControllerView {
                sorts: applied(old(self)@.sorts, changeset),
                fields: fields@,
                row_orders: ids_of(final(rows)@),
                ..old(self)@
            }),
            result is Ok ==> tells_change(
                result->Ok_0,
                old(self)@.view_id,
                old(self)@.row_orders,
                ids_of(final(rows)@),
            ),
            result is Err ==> result->Err_0 == refusal(old(self)@.state),
            result is Err ==> final(self)@ == old(self)@ && final(rows)@ == old(rows)@,
    {
        match self.state {
            ControllerState::Active => {
                self.apply(changeset);
                Ok(self.sort_again(fields, rows))
            },
            ControllerState::Created => Err(SortError::NotActive),
            ControllerState::Closed => Err(SortError::Closed),
        }
    }

    /// Takes a change: brings the list of specifications up to date, asks
    /// the delegate for the metadata of their fields, sorts the rows, and
    /// tells how their order differs from that of the last sort.
    ///
    /// A controller that is not active refuses, asks the delegate nothing
    /// and changes nothing.
    pub fn did_receive_changes(&mut self, changeset: SortChangeset, rows: &mut Vec<Row>) -> (result:
        Result<Option<SortChangesetNotification>, SortError>)
        ensures
            result is Ok <==> old(self)@.state == ControllerState::Active,
            result is Ok ==> final(rows)@ == sorted_rows(
                old(rows)@,
                applied(old(self)@.sorts, changeset),
                final(self)@.fields,
            ),
            result is Ok ==> final(self)@ == (ControllerView {
                sorts: applied(old(self)@.sorts, changeset),
                fields: final(self)@.fields,
                row_orders: ids_of(final(rows)@),
                ..old(self)@
            }),
            result is Ok ==> tells_change(
                result->Ok_0,
                old(self)@.view_id,
                old(self)@.row_orders,
                ids_of(final(rows)@),
            ),
            result is Err ==> result->Err_0 == refusal(old(self)@.state),
            result is Err ==> final(self)@ == old(self)@ && final(rows)@ == old(rows)@,
    {
        match self.state {
            ControllerState::Active => {
                self.apply(changeset);
                let wanted = field_ids(self.sorts.sorts());
                let fields = self.delegate.get_field_revs(Some(wanted));
                Ok(self.sort_again(fields, rows))
            },
            ControllerState::Created => Err(SortError::NotActive),
            ControllerState::Closed => Err(SortError::Closed),
        }
    }
}

} // verus!
