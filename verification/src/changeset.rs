//! What a change does to the order of the rows: the changes that a
//! controller is told of, and the notification that it gives out.

use crate::entities::SortSpecification;
use vstd::hash_map::StringHashMap;
use vstd::prelude::*;

verus! {

/// A change that a controller is told of.
#[derive(Clone, Debug, PartialEq, Eq)]
pub enum SortChangeset {
    /// A sort specification was added; it gets the lowest priority.
    InsertSort(SortSpecification),
    /// The sort specification with this identifier was removed.
    DeleteSort(String),
    /// Cells were edited, or rows were added or removed.
    UpdateRows,
}

/// What a change did to the order of the rows of a view, by row
/// identifier.
#[derive(Clone, Debug, PartialEq, Eq)]
pub struct SortChangesetNotification {
    pub view_id: String,
    /// The rows that the order did not hold before, in their new order.
    pub inserted: Vec<String>,
    /// The rows that the order holds no more, in their former order.
    pub removed: Vec<String>,
    /// The rows that stand at another place than before, in their new
    /// order.
    pub reordered: Vec<String>,
}

/// The texts of a list of strings.
pub open spec fn texts(ids: Seq<String>) -> Seq<Seq<char>> {
    Seq::new(ids.len(), |i: int| ids[i]@)
}

/// The last place at which a list holds an identifier, and -1 where it
/// does not hold it.
pub open spec fn last_place(ids: Seq<Seq<char>>, id: Seq<char>) -> int
    decreases ids.len(),
{
    if ids.len() == 0 {
        -1
    } else if ids.last() == id {
        ids.len() - 1
    } else {
        last_place(ids.drop_last(), id)
    }
}

/// Those of the first `n` identifiers of `ids` that `other` does not hold,
/// in their order.
pub open spec fn missing_from(ids: Seq<Seq<char>>, other: Seq<Seq<char>>, n: int) -> Seq<Seq<char>>
    decreases n,
{
    if n <= 0 {
        Seq::empty()
    } else if other.contains(ids[n - 1]) {
        missing_from(ids, other, n - 1)
    } else {
        missing_from(ids, other, n - 1).push(ids[n - 1])
    }
}

/// Those of the first `n` identifiers of `after` that `before` holds at
/// another place, in their order.
pub open spec fn displaced(before: Seq<Seq<char>>, after: Seq<Seq<char>>, n: int) -> Seq<Seq<char>>
    decreases n,
{
    if n <= 0 {
        Seq::empty()
    } else if before.contains(after[n - 1]) && last_place(before, after[n - 1]) != n - 1 {
        displaced(before, after, n - 1).push(after[n - 1])
    } else {
        displaced(before, after, n - 1)
    }
}

/// The rows of the order `after` that the order `before` did not hold.
pub open spec fn inserted_rows(before: Seq<Seq<char>>, after: Seq<Seq<char>>) -> Seq<Seq<char>> {
    missing_from(after, before, after.len() as int)
}

/// The rows of the order `before` that the order `after` holds no more.
pub open spec fn removed_rows(before: Seq<Seq<char>>, after: Seq<Seq<char>>) -> Seq<Seq<char>> {
    missing_from(before, after, before.len() as int)
}

/// The rows that both orders hold, at different places.
pub open spec fn reordered_rows(before: Seq<Seq<char>>, after: Seq<Seq<char>>) -> Seq<Seq<char>> {
    displaced(before, after, after.len() as int)
}

/// Whether two orders are the same: nothing inserted, nothing removed,
/// nothing at another place.
pub open spec fn same_order(before: Seq<Seq<char>>, after: Seq<Seq<char>>) -> bool {
    &&& inserted_rows(before, after).len() == 0
    &&& removed_rows(before, after).len() == 0
    &&& reordered_rows(before, after).len() == 0
}

/// A list holds an identifier exactly where it has a last place for it,
/// and holds it there and nowhere behind.
pub proof fn lemma_last_place(ids: Seq<Seq<char>>, id: Seq<char>)
    ensures
        ids.contains(id) <==> last_place(ids, id) >= 0,
        -1 <= last_place(ids, id) < ids.len(),
        last_place(ids, id) >= 0 ==> ids[last_place(ids, id)] == id,
        forall|j: int| last_place(ids, id) < j < ids.len() ==> #[trigger] ids[j] != id,
    decreases ids.len(),
{
    if ids.len() > 0 {
        let shorter = ids.drop_last();
        lemma_last_place(shorter, id);
        if ids.last() == id {
            assert(ids[ids.len() - 1] == id);
        } else {
            if shorter.contains(id) {
                let i = choose|i: int| 0 <= i < shorter.len() && shorter[i] == id;
                assert(ids[i] == id);
            }
            if ids.contains(id) {
                let i = choose|i: int| 0 <= i < ids.len() && ids[i] == id;
                assert(shorter[i] == id);
            }
            assert forall|j: int| last_place(ids, id) < j < ids.len() implies #[trigger] ids[j]
                != id by {
                if j < shorter.len() {
                    assert(shorter[j] == ids[j]);
                }
            }
        }
    }
}

/// Nothing of the first `n` identifiers is missing exactly where `other`
/// holds each of them.
pub proof fn lemma_nothing_missing(ids: Seq<Seq<char>>, other: Seq<Seq<char>>, n: int)
    requires
        0 <= n <= ids.len(),
    ensures
        missing_from(ids, other, n).len() == 0 <==> (forall|i: int|
            0 <= i < n ==> other.contains(#[trigger] ids[i])),
    decreases n,
{
    if n > 0 {
        lemma_nothing_missing(ids, other, n - 1);
        if !other.contains(ids[n - 1]) {
            assert(missing_from(ids, other, n).len() > 0);
        }
    }
}

/// None of the first `n` identifiers is displaced exactly where each of
/// them that `before` holds has its last place there at its own index.
pub proof fn lemma_nothing_displaced(before: Seq<Seq<char>>, after: Seq<Seq<char>>, n: int)
    requires
        0 <= n <= after.len(),
    ensures
        displaced(before, after, n).len() == 0 <==> (forall|i: int|
            0 <= i < n && before.contains(#[trigger] after[i]) ==> last_place(before, after[i])
                == i),
    decreases n,
{
    if n > 0 {
        lemma_nothing_displaced(before, after, n - 1);
        if before.contains(after[n - 1]) && last_place(before, after[n - 1]) != n - 1 {
            assert(displaced(before, after, n).len() > 0);
        }
    }
}

/// Two orders are the same, so that a notification has nothing to tell,
/// exactly where they hold the same identifiers at the same places, each
/// once.
pub proof fn lemma_same_order(before: Seq<Seq<char>>, after: Seq<Seq<char>>)
    ensures
        same_order(before, after) <==> (before == after && before.no_duplicates()),
{
    lemma_nothing_missing(after, before, after.len() as int);
    lemma_nothing_missing(before, after, before.len() as int);
    lemma_nothing_displaced(before, after, after.len() as int);
    if before == after && before.no_duplicates() {
        assert forall|i: int| 0 <= i < after.len() implies before.contains(#[trigger] after[i])
            && last_place(before, after[i]) == i by {
            assert(before[i] == after[i]);
            lemma_last_place(before, after[i]);
            let place = last_place(before, after[i]);
            if place < i {
                assert(before[i] == after[i]);
            }
        }
    }
    if same_order(before, after) {
        assert forall|i: int| 0 <= i < after.len() implies i < before.len() && before[i]
            == #[trigger] after[i] by {
            assert(before.contains(after[i]));
            lemma_last_place(before, after[i]);
        }
        if before.len() > after.len() {
            let k = after.len() as int;
            assert(after.contains(before[k]));
            let j = choose|j: int| 0 <= j < after.len() && after[j] == before[k];
            assert(before.contains(after[j]));
            lemma_last_place(before, after[j]);
            assert(before[k] == after[j]);
        }
        assert(before =~= after);
        assert forall|i: int, j: int| 0 <= i < before.len() && 0 <= j < before.len() && i
            != j implies before[i] != before[j] by {
            let low = if i < j { i } else { j };
            let high = if i < j { j } else { i };
            assert(before.contains(after[low]));
            lemma_last_place(before, after[low]);
            assert(before[high] != after[low]);
        }
    }
}

/// The places of the identifiers of a list: for each the last place at
/// which the list holds it.
fn places(ids: &Vec<String>) -> (map: StringHashMap<usize>)
    ensures
        forall|id: Seq<char>| #[trigger] map@.contains_key(id) <==> texts(ids@).contains(id),
        forall|id: Seq<char>|
            map@.contains_key(id) ==> (#[trigger] map@[id]) == last_place(texts(ids@), id),
{
    let mut map: StringHashMap<usize> = StringHashMap::new();
    let mut i: usize = 0;
    while i < ids.len()
        invariant
            i <= ids.len(),
            forall|id: Seq<char>| #[trigger]
                map@.contains_key(id) <==> texts(ids@).take(i as int).contains(id),
            forall|id: Seq<char>|
                map@.contains_key(id) ==> (#[trigger] map@[id]) == last_place(
                    texts(ids@).take(i as int),
                    id,
                ),
        decreases ids.len() - i,
    {
        let ghost seen = texts(ids@).take(i as int);
        let ghost next = texts(ids@).take(i + 1);
        proof {
            assert(next.drop_last() =~= seen);
            assert(next.last() == ids@[i as int]@);
            assert forall|id: Seq<char>| next.contains(id) <==> (seen.contains(id) || id
                == ids@[i as int]@) by {
                lemma_last_place(next, id);
                lemma_last_place(seen, id);
            }
        }
        map.insert(ids[i].clone(), i);
        i += 1;
    }
    proof {
        assert(texts(ids@).take(i as int) =~= texts(ids@));
    }
    map
}

/// Compares the order that the rows of a view had with the order that they
/// have now.
pub fn diff_orders(view_id: &String, before: &Vec<String>, after: &Vec<String>) -> (notification:
    SortChangesetNotification)
    ensures
        notification.view_id@ == view_id@,
        texts(notification.inserted@) == inserted_rows(texts(before@), texts(after@)),
        texts(notification.removed@) == removed_rows(texts(before@), texts(after@)),
        texts(notification.reordered@) == reordered_rows(texts(before@), texts(after@)),
{
    let places_before = places(before);
    let places_after = places(after);
    let mut inserted: Vec<String> = Vec::new();
    let mut reordered: Vec<String> = Vec::new();
    let mut i: usize = 0;
    assert(texts(inserted@) =~= Seq::<Seq<char>>::empty());
    assert(texts(reordered@) =~= Seq::<Seq<char>>::empty());
    while i < after.len()
        invariant
            i <= after.len(),
            forall|id: Seq<char>| #[trigger]
                places_before@.contains_key(id) <==> texts(before@).contains(id),
            forall|id: Seq<char>|
                places_before@.contains_key(id) ==> (#[trigger] places_before@[id]) == last_place(
                    texts(before@),
                    id,
                ),
            texts(inserted@) == missing_from(texts(after@), texts(before@), i as int),
            texts(reordered@) == displaced(texts(before@), texts(after@), i as int),
        decreases after.len() - i,
    {
        let ghost id = after@[i as int]@;
        assert(texts(after@)[i as int] == id);
        match places_before.get(after[i].as_str()) {
            None => {
                let ghost was = texts(inserted@);
                inserted.push(after[i].clone());
                assert(texts(inserted@) =~= was.push(id));
            },
            Some(place) => {
                assert(*place == places_before@[id]);
                if *place != i {
                    let ghost was = texts(reordered@);
                    reordered.push(after[i].clone());
                    assert(texts(reordered@) =~= was.push(id));
                }
            },
        }
        i += 1;
    }
    let mut removed: Vec<String> = Vec::new();
    let mut j: usize = 0;
    assert(texts(removed@) =~= Seq::<Seq<char>>::empty());
    while j < before.len()
        invariant
            j <= before.len(),
            forall|id: Seq<char>| #[trigger]
                places_after@.contains_key(id) <==> texts(after@).contains(id),
            texts(removed@) == missing_from(texts(before@), texts(after@), j as int),
        decreases before.len() - j,
    {
        let ghost id = before@[j as int]@;
        assert(texts(before@)[j as int] == id);
        if !places_after.contains_key(before[j].as_str()) {
            let ghost was = texts(removed@);
            removed.push(before[j].clone());
            assert(texts(removed@) =~= was.push(id));
        }
        j += 1;
    }
    SortChangesetNotification { view_id: view_id.clone(), inserted, removed, reordered }
}

impl SortChangesetNotification {
    /// Whether the notification names no row.
    pub fn is_empty(&self) -> (empty: bool)
        ensures
            empty == (self.inserted@.len() == 0 && self.removed@.len() == 0
                && self.reordered@.len() == 0),
    {
        self.inserted.len() == 0 && self.removed.len() == 0 && self.reordered.len() == 0
    }
}

} // verus!
