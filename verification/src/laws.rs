//! Laws relating the store's operations to its listings, stated over the
//! abstract maps and the listing predicate that the operations' contracts
//! use.

use vstd::prelude::*;

use crate::{TodoStatus, TodoView, TodoWithId, listing_matches};

verus! {

/// A listing of a map holds exactly one entry for each stored identifier:
/// one exists, any two coincide, and each shows the stored record.
pub proof fn lemma_listing_exactly_one(ls: Seq<TodoWithId>, m: Map<u64, TodoView>, k: u64)
    requires
        listing_matches(ls, m),
        m.dom().contains(k),
    ensures
        exists|i: int| 0 <= i < ls.len() && #[trigger] ls[i].todo_id == k,
        forall|i: int| 0 <= i < ls.len() && #[trigger] ls[i].todo_id == k ==> ls[i].todo@ == m[k],
        forall|i: int, j: int|
            0 <= i < ls.len() && 0 <= j < ls.len() && #[trigger] ls[i].todo_id == k
                && #[trigger] ls[j].todo_id == k ==> i == j,
{
    assert forall|i: int, j: int|
        0 <= i < ls.len() && 0 <= j < ls.len() && #[trigger] ls[i].todo_id == k
            && #[trigger] ls[j].todo_id == k implies i == j by {
        if i < j {
            assert(ls[i].todo_id != ls[j].todo_id);
        } else if j < i {
            assert(ls[j].todo_id != ls[i].todo_id);
        }
    }
}

/// Round trip: after storing a record with the given text under a fresh
/// identifier `k`, any listing of the resulting store holds exactly one
/// entry with identifier `k`, and it shows that text with status `Pending`.
pub proof fn lemma_create_round_trip(
    before: Map<u64, TodoView>,
    after: Map<u64, TodoView>,
    ls: Seq<TodoWithId>,
    k: u64,
    text: Seq<char>,
)
    requires
        after == before.insert(k, TodoView { text, status: TodoStatus::Pending }),
        listing_matches(ls, after),
    ensures
        exists|i: int| 0 <= i < ls.len() && #[trigger] ls[i].todo_id == k,
        forall|i: int|
            0 <= i < ls.len() && #[trigger] ls[i].todo_id == k ==> ls[i].todo@ == (TodoView {
                text,
                status: TodoStatus::Pending,
            }),
        forall|i: int, j: int|
            0 <= i < ls.len() && 0 <= j < ls.len() && #[trigger] ls[i].todo_id == k
                && #[trigger] ls[j].todo_id == k ==> i == j,
{
    lemma_listing_exactly_one(ls, after, k);
}

/// Status-update visibility: after overwriting the status of the record
/// stored under `k` while keeping its text, any listing of the resulting
/// store holds exactly one entry with identifier `k`, showing the new status
/// and the unchanged text.
pub proof fn lemma_update_status_round_trip(
    before: Map<u64, TodoView>,
    after: Map<u64, TodoView>,
    ls: Seq<TodoWithId>,
    k: u64,
    status: TodoStatus,
)
    requires
        before.dom().contains(k),
        after == before.insert(k, TodoView { text: before[k].text, status }),
        listing_matches(ls, after),
    ensures
        exists|i: int| 0 <= i < ls.len() && #[trigger] ls[i].todo_id == k,
        forall|i: int|
            0 <= i < ls.len() && #[trigger] ls[i].todo_id == k ==> ls[i].todo@ == (TodoView {
                text: before[k].text,
                status,
            }),
        forall|i: int, j: int|
            0 <= i < ls.len() && 0 <= j < ls.len() && #[trigger] ls[i].todo_id == k
                && #[trigger] ls[j].todo_id == k ==> i == j,
{
    lemma_listing_exactly_one(ls, after, k);
}

/// Deletion removes: after removing identifier `k` from the map, no listing
/// of the resulting store holds an entry with identifier `k`.
pub proof fn lemma_delete_removes(
    before: Map<u64, TodoView>,
    after: Map<u64, TodoView>,
    ls: Seq<TodoWithId>,
    k: u64,
)
    requires
        after == before.remove(k),
        listing_matches(ls, after),
    ensures
        forall|i: int| 0 <= i < ls.len() ==> #[trigger] ls[i].todo_id != k,
{
    assert forall|i: int| 0 <= i < ls.len() implies #[trigger] ls[i].todo_id != k by {
        assert(after.dom().contains(ls[i].todo_id));
    }
}

/// Deletion is idempotent: removing an identifier a second time leaves the
/// map exactly as the first removal left it.
pub proof fn lemma_delete_idempotent(m: Map<u64, TodoView>, k: u64)
    ensures
        m.remove(k).remove(k) == m.remove(k),
{
    assert(m.remove(k).remove(k) =~= m.remove(k));
}

} // verus!
