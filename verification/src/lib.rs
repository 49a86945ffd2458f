//! An in-memory record store: text payloads with a two-state status flag,
//! keyed by monotonically minted 64-bit identifiers.
//!
//! The store owns a mapping from identifiers to records and a counter that
//! mints the next identifier. Identifiers are never reused, even after a
//! deletion. Contracts speak of the store through its abstract map of
//! identifiers to record views and the value of the counter.

use vstd::prelude::*;

pub mod laws;

verus! {

/// A record's status: exactly two states are representable.
#[derive(Clone, Copy, PartialEq, Eq, Structural, Debug)]
pub enum TodoStatus {
    Pending,
    Completed,
}

/// A stored record: an arbitrary text payload plus its status.
pub struct Todo {
    pub text: String,
    pub status: TodoStatus,
}

/// A record paired with its identifier, as returned by a listing.
pub struct TodoWithId {
    pub todo_id: u64,
    pub todo: Todo,
}

/// The one error the store can signal: an edit addressed a missing identifier.
#[derive(Clone, Copy, PartialEq, Eq, Structural, Debug)]
pub enum TodoError {
    NotFound,
}

/// Mathematical image of a record: its text as a sequence of characters,
/// plus its status.
#[verifier::ext_equal]
pub ghost struct TodoView {
    pub text: Seq<char>,
    pub status: TodoStatus,
}

impl View for Todo {
    type V = TodoView;

    open spec fn view(&self) -> TodoView {
        TodoView { text: self.text@, status: self.status }
    }
}

impl Clone for Todo {
    fn clone(&self) -> (res: Self)
        ensures
            res == *self,
    {
        Todo { text: self.text.clone(), status: self.status }
    }
}

/// Whether some entry of `s` carries the identifier `k`.
pub open spec fn has_key(s: Seq<(u64, Todo)>, k: u64) -> bool {
    exists|i: int| 0 <= i < s.len() && s[i].0 == k
}

/// An index of `s` whose entry carries the identifier `k`
/// (meaningful only when `has_key(s, k)` holds).
pub open spec fn key_index(s: Seq<(u64, Todo)>, k: u64) -> int {
    choose|i: int| 0 <= i < s.len() && s[i].0 == k
}

/// No identifier occurs twice among the entries of `s`.
pub open spec fn distinct_keys(s: Seq<(u64, Todo)>) -> bool {
    forall|i: int, j: int| 0 <= i < j < s.len() ==> s[i].0 != s[j].0
}

/// The finite map that a sequence of identifier/record entries denotes.
pub open spec fn entries_map(s: Seq<(u64, Todo)>) -> Map<u64, TodoView> {
    Map::new(|k: u64| has_key(s, k), |k: u64| s[key_index(s, k)].1@)
}

/// What a listing promises about the store it was taken from: entries carry
/// pairwise distinct identifiers, every entry shows a stored record exactly
/// as the map has it, and every stored identifier shows up. Together these
/// say the listing holds each stored record exactly once, in some order the
/// store does not promise.
pub open spec fn listing_matches(ls: Seq<TodoWithId>, m: Map<u64, TodoView>) -> bool {
    &&& forall|i: int, j: int| 0 <= i < j < ls.len() ==> ls[i].todo_id != ls[j].todo_id
    &&& forall|i: int|
        0 <= i < ls.len() ==> #[trigger] m.dom().contains(ls[i].todo_id) && m[ls[i].todo_id]
            == ls[i].todo@
    &&& forall|k: u64|
        m.dom().contains(k) ==> exists|i: int| 0 <= i < ls.len() && #[trigger] ls[i].todo_id == k
}

/// When identifiers are distinct, the index chosen for an identifier is the
/// only index carrying it.
proof fn lemma_key_index_unique(s: Seq<(u64, Todo)>, k: u64, i: int)
    requires
        distinct_keys(s),
        0 <= i < s.len(),
        s[i].0 == k,
    ensures
        has_key(s, k),
        key_index(s, k) == i,
{
    assert(has_key(s, k));
    let j = key_index(s, k);
    assert(0 <= j < s.len() && s[j].0 == k);
    if i < j {
        assert(s[i].0 != s[j].0);
    } else if j < i {
        assert(s[j].0 != s[i].0);
    }
}

/// Appending an entry under a fresh identifier inserts it into the map.
proof fn lemma_entries_map_push(s: Seq<(u64, Todo)>, k: u64, t: Todo)
    requires
        distinct_keys(s),
        !has_key(s, k),
    ensures
        distinct_keys(s.push((k, t))),
        entries_map(s.push((k, t))) =~= entries_map(s).insert(k, t@),
{
    let s2 = s.push((k, t));
    assert forall|i: int, j: int| 0 <= i < j < s2.len() implies s2[i].0 != s2[j].0 by {
        if j < s.len() {
            assert(s[i].0 != s[j].0);
        } else {
            assert(s2[j].0 == k);
            if s2[i].0 == k {
                assert(s[i].0 == k);
                assert(has_key(s, k));
            }
        }
    }
    assert forall|kk: u64| #[trigger] has_key(s2, kk) implies has_key(s, kk) || kk == k by {
        let i = choose|i: int| 0 <= i < s2.len() && s2[i].0 == kk;
        if i < s.len() {
            assert(s[i].0 == kk);
            assert(has_key(s, kk));
        }
    }
    assert forall|kk: u64| #[trigger] has_key(s, kk) implies has_key(s2, kk) by {
        let i = choose|i: int| 0 <= i < s.len() && s[i].0 == kk;
        assert(s2[i].0 == kk);
    }
    assert(has_key(s2, k)) by {
        assert(s2[s.len() as int].0 == k);
    }
    assert forall|kk: u64| has_key(s2, kk) implies entries_map(s2)[kk] == entries_map(s).insert(
        k,
        t@,
    )[kk] by {
        if kk == k {
            lemma_key_index_unique(s2, k, s.len() as int);
            assert(entries_map(s2)[k] == t@);
        } else {
            let i = choose|i: int| 0 <= i < s.len() && s[i].0 == kk;
            lemma_key_index_unique(s, kk, i);
            lemma_key_index_unique(s2, kk, i);
        }
    }
}

/// Replacing the record at an index, keeping its identifier, updates the map
/// at that identifier.
proof fn lemma_entries_map_update(s: Seq<(u64, Todo)>, i: int, t: Todo)
    requires
        distinct_keys(s),
        0 <= i < s.len(),
    ensures
        distinct_keys(s.update(i, (s[i].0, t))),
        entries_map(s.update(i, (s[i].0, t))) =~= entries_map(s).insert(s[i].0, t@),
{
    let k = s[i].0;
    let s2 = s.update(i, (k, t));
    assert(forall|j: int| 0 <= j < s.len() ==> s2[j].0 == s[j].0);
    assert forall|kk: u64| #[trigger] has_key(s2, kk) == has_key(s, kk) by {
        if has_key(s2, kk) {
            let j = choose|j: int| 0 <= j < s2.len() && s2[j].0 == kk;
            assert(s[j].0 == kk);
        }
        if has_key(s, kk) {
            let j = choose|j: int| 0 <= j < s.len() && s[j].0 == kk;
            assert(s2[j].0 == kk);
        }
    }
    assert forall|kk: u64| has_key(s2, kk) implies entries_map(s2)[kk] == entries_map(s).insert(
        k,
        t@,
    )[kk] by {
        if kk == k {
            lemma_key_index_unique(s2, k, i);
            assert(entries_map(s2)[k] == t@);
        } else {
            let j = choose|j: int| 0 <= j < s.len() && s[j].0 == kk;
            lemma_key_index_unique(s, kk, j);
            lemma_key_index_unique(s2, kk, j);
        }
    }
}

/// Swapping the last entry into an index and dropping the tail removes the
/// identifier stored at that index from the map, and nothing else.
proof fn lemma_entries_map_swap_remove(s: Seq<(u64, Todo)>, i: int)
    requires
        distinct_keys(s),
        0 <= i < s.len(),
    ensures
        distinct_keys(s.update(i, s.last()).drop_last()),
        entries_map(s.update(i, s.last()).drop_last()) =~= entries_map(s).remove(s[i].0),
{
    let k = s[i].0;
    let n = s.len() as int;
    let s2 = s.update(i, s.last()).drop_last();
    assert(s2.len() == n - 1);
    assert(forall|j: int| 0 <= j < n - 1 && j != i ==> s2[j] == s[j]);
    if i < n - 1 {
        assert(s2[i] == s[n - 1]);
    }
    assert forall|j1: int, j2: int| 0 <= j1 < j2 < s2.len() implies s2[j1].0 != s2[j2].0 by {
        let o1: int = if j1 == i { n - 1 } else { j1 };
        let o2: int = if j2 == i { n - 1 } else { j2 };
        assert(s2[j1] == s[o1]);
        assert(s2[j2] == s[o2]);
        if o1 < o2 {
            assert(s[o1].0 != s[o2].0);
        } else {
            assert(s[o2].0 != s[o1].0);
        }
    }
    assert forall|kk: u64| #[trigger] has_key(s2, kk) implies has_key(s, kk) && kk != k by {
        let j = choose|j: int| 0 <= j < s2.len() && s2[j].0 == kk;
        let o: int = if j == i { n - 1 } else { j };
        assert(s[o].0 == kk);
        if o == i {
            assert(kk == k);
        } else if o < i {
            assert(s[o].0 != s[i].0);
        } else {
            assert(s[i].0 != s[o].0);
        }
    }
    assert forall|kk: u64| has_key(s, kk) && kk != k implies has_key(s2, kk) by {
        let j = choose|j: int| 0 <= j < s.len() && s[j].0 == kk;
        if j == n - 1 {
            if i < n - 1 {
                assert(s2[i].0 == kk);
            }
        } else if j != i {
            assert(s2[j].0 == kk);
        }
    }
    assert forall|kk: u64| has_key(s2, kk) implies entries_map(s2)[kk] == entries_map(s).remove(
        k,
    )[kk] by {
        let j = choose|j: int| 0 <= j < s2.len() && s2[j].0 == kk;
        let o: int = if j == i { n - 1 } else { j };
        assert(s2[j] == s[o]);
        lemma_key_index_unique(s2, kk, j);
        lemma_key_index_unique(s, kk, o);
        assert(entries_map(s2)[kk] == s2[j].1@);
        assert(entries_map(s)[kk] == s[o].1@);
    }
}

/// The in-memory record store.
pub struct Contract {
    todos: Vec<(u64, Todo)>,
    next_todo_id: u64,
}

impl Contract {
    /// Abstract contents: the map from live identifiers to record views.
    pub closed spec fn records(self) -> Map<u64, TodoView> {
        entries_map(self.todos@)
    }

    /// The identifier the next successful `add_todo` will mint.
    pub closed spec fn next_id(self) -> u64 {
        self.next_todo_id
    }

    /// Well-formedness: identifiers are unique and all lie below `next_id`,
    /// so a freshly minted identifier never collides with a stored one.
    pub closed spec fn wf(self) -> bool {
        &&& distinct_keys(self.todos@)
        &&& forall|i: int| 0 <= i < self.todos@.len() ==> self.todos@[i].0 < self.next_todo_id
    }

    /// An empty store: no records, and the counter starts at zero.
    pub fn new() -> (s: Self)
        ensures
            s.wf(),
            s.records() == Map::<u64, TodoView>::empty(),
            s.next_id() == 0,
    {
        let s = Contract { todos: Vec::new(), next_todo_id: 0 };
        proof {
            assert(s.records() =~= Map::<u64, TodoView>::empty());
        }
        s
    }

    /// Store a new record with the given text and status `Pending` under a
    /// freshly minted identifier, and return that identifier. The identifier
    /// equals the counter before the call, which moves up by one, so minted
    /// identifiers are strictly increasing and never repeat.
    pub fn add_todo(&mut self, text: String) -> (todo_id: u64)
        requires
            old(self).wf(),
            old(self).next_id() < u64::MAX,
        ensures
            final(self).wf(),
            todo_id == old(self).next_id(),
            !old(self).records().dom().contains(todo_id),
            final(self).records() == old(self).records().insert(
                todo_id,
                TodoView { text: text@, status: TodoStatus::Pending },
            ),
            final(self).next_id() == old(self).next_id() + 1,
    {
        let todo = Todo { text, status: TodoStatus::Pending };
        let todo_id = self.next_todo_id;
        proof {
            if has_key(self.todos@, todo_id) {
                let i = choose|i: int|
                    0 <= i < self.todos@.len() && self.todos@[i].0 == todo_id;
                assert(self.todos@[i].0 < self.next_todo_id);
            }
            lemma_entries_map_push(self.todos@, todo_id, todo);
        }
        self.todos.push((todo_id, todo));
        self.next_todo_id = self.next_todo_id + 1;
        todo_id
    }

    /// The counter's current value: the identifier the next `add_todo` will
    /// mint. A host checks it against `u64::MAX` before adding, since the
    /// counter must never wrap.
    pub fn next_id_value(&self) -> (r: u64)
        ensures
            r == self.next_id(),
    {
        self.next_todo_id
    }

    /// Every stored record, paired with its identifier. Each stored
    /// identifier appears exactly once; the order is not part of the
    /// contract.
    pub fn list_todos(&self) -> (r: Vec<TodoWithId>)
        requires
            self.wf(),
        ensures
            listing_matches(r@, self.records()),
    {
        let mut r: Vec<TodoWithId> = Vec::new();
        let mut i: usize = 0;
        while i < self.todos.len()
            invariant
                self.wf(),
                i <= self.todos@.len(),
                r@.len() == i,
                forall|j: int|
                    0 <= j < i ==> #[trigger] r@[j].todo_id == self.todos@[j].0 && r@[j].todo@
                        == self.todos@[j].1@,
            decreases self.todos@.len() - i,
        {
            let todo_id = self.todos[i].0;
            let todo = self.todos[i].1.clone();
            r.push(TodoWithId { todo_id, todo });
            i = i + 1;
        }
        proof {
            let s = self.todos@;
            let m = self.records();
            assert forall|j: int|
                0 <= j < r@.len() implies #[trigger] m.dom().contains(r@[j].todo_id) && m[r@[
                j].todo_id] == r@[j].todo@ by {
                lemma_key_index_unique(s, s[j].0, j);
            }
            assert forall|k: u64| m.dom().contains(k) implies exists|j: int|
                0 <= j < r@.len() && #[trigger] r@[j].todo_id == k by {
                let j = choose|j: int| 0 <= j < s.len() && s[j].0 == k;
                assert(r@[j].todo_id == k);
            }
        }
        r
    }

    /// If the identifier is stored, overwrite the record's status and keep
    /// its text; if it is not, do nothing at all. The counter never moves.
    pub fn complete_todo_status(&mut self, todo_id: u64, status: TodoStatus)
        requires
            old(self).wf(),
        ensures
            final(self).wf(),
            final(self).next_id() == old(self).next_id(),
            old(self).records().dom().contains(todo_id) ==> final(self).records() == old(
                self,
            ).records().insert(
                todo_id,
                TodoView { text: old(self).records()[todo_id].text, status },
            ),
            !old(self).records().dom().contains(todo_id) ==> final(self).records() == old(
                self,
            ).records(),
    {
        match find_index(&self.todos, todo_id) {
            Some(i) => {
                let text = self.todos[i].1.text.clone();
                let todo = Todo { text, status };
                proof {
                    lemma_key_index_unique(self.todos@, todo_id, i as int);
                    lemma_entries_map_update(self.todos@, i as int, todo);
                }
                self.todos.set(i, (todo_id, todo));
            },
            None => {},
        }
    }

    /// If the identifier is stored, overwrite the record's text and keep its
    /// status. If it is not, change nothing and report `NotFound`: the one
    /// failure the store can signal, for the host to escalate as a fatal
    /// abort of the invocation. The counter never moves.
    pub fn edit_todo_text(&mut self, todo_id: u64, text: String) -> (r: Result<(), TodoError>)
        requires
            old(self).wf(),
        ensures
            final(self).wf(),
            final(self).next_id() == old(self).next_id(),
            r is Ok <==> old(self).records().dom().contains(todo_id),
            r is Ok ==> final(self).records() == old(self).records().insert(
                todo_id,
                TodoView { text: text@, status: old(self).records()[todo_id].status },
            ),
            r is Err ==> r == Err::<(), TodoError>(TodoError::NotFound) && final(self).records()
                == old(self).records(),
    {
        match find_index(&self.todos, todo_id) {
            Some(i) => {
                let status = self.todos[i].1.status;
                let todo = Todo { text, status };
                proof {
                    lemma_key_index_unique(self.todos@, todo_id, i as int);
                    lemma_entries_map_update(self.todos@, i as int, todo);
                }
                self.todos.set(i, (todo_id, todo));
                Ok(())
            },
            None => Err(TodoError::NotFound),
        }
    }

    /// Remove the record stored under the identifier, if any. Removing an
    /// absent identifier changes nothing, so deletion is idempotent and never
    /// signals failure. The counter never moves: identifiers of deleted
    /// records are not reused.
    pub fn delete_todo(&mut self, todo_id: u64)
        requires
            old(self).wf(),
        ensures
            final(self).wf(),
            final(self).next_id() == old(self).next_id(),
            final(self).records() == old(self).records().remove(todo_id),
            !old(self).records().dom().contains(todo_id) ==> final(self).records() == old(
                self,
            ).records(),
    {
        match find_index(&self.todos, todo_id) {
            Some(i) => {
                proof {
                    lemma_entries_map_swap_remove(self.todos@, i as int);
                }
                self.todos.swap_remove(i);
            },
            None => {
                proof {
                    assert(self.records().remove(todo_id) =~= self.records());
                }
            },
        }
    }
}

/// The position of the entry stored under `todo_id`, if there is one.
fn find_index(todos: &Vec<(u64, Todo)>, todo_id: u64) -> (r: Option<usize>)
    ensures
        match r {
            Some(i) => i < todos@.len() && todos@[i as int].0 == todo_id,
            None => !has_key(todos@, todo_id),
        },
{
    let mut i: usize = 0;
    while i < todos.len()
        invariant
            i <= todos@.len(),
            forall|j: int| 0 <= j < i ==> todos@[j].0 != todo_id,
        decreases todos@.len() - i,
    {
        if todos[i].0 == todo_id {
            return Some(i);
        }
        i = i + 1;
    }
    None
}

/// Identifiers are monotone: every identifier stored in a well-formed store
/// lies strictly below the counter. Since `add_todo` returns the counter's
/// current value and moves it up, while no other operation moves it,
/// identifiers minted by successive `add_todo` calls are strictly
/// increasing, however the calls are interleaved with deletions.
pub proof fn lemma_stored_id_below_next(s: Contract, k: u64)
    requires
        s.wf(),
        s.records().dom().contains(k),
    ensures
        k < s.next_id(),
{
    let i = choose|i: int| 0 <= i < s.todos@.len() && s.todos@[i].0 == k;
    assert(s.todos@[i].0 < s.next_todo_id);
}

/// Identifiers are never reused: the identifier the next `add_todo` will
/// mint is absent from a well-formed store, even if an earlier record was
/// deleted.
pub proof fn lemma_minted_id_fresh(s: Contract)
    requires
        s.wf(),
    ensures
        !s.records().dom().contains(s.next_id()),
{
    if s.records().dom().contains(s.next_id()) {
        lemma_stored_id_below_next(s, s.next_id());
    }
}

} // verus!
