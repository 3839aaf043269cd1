//! The repository owning the authoritative set of todo records: create,
//! list, fetch, search, partial update, delete, and clear, over an ordered
//! in-memory sequence with a monotonic identifier counter.

use vstd::prelude::*;
use crate::text::{contains_str, lower_of, match_at, title_matches, to_lowercase};

verus! {

/// One stored todo record.
pub struct Todo {
    /// Unique identifier, immutable once assigned.
    pub id: i32,
    /// Free-form text, required on creation, mutable.
    pub title: String,
    /// Defaults to false on creation, mutable.
    pub completed: bool,
    /// Caller-supplied sort hint, optional, never interpreted here.
    pub order: Option<i32>,
}

/// The mathematical content of one stored record.
pub ghost struct TodoView {
    pub id: int,
    pub title: Seq<char>,
    pub completed: bool,
    pub order: Option<int>,
}

impl View for Todo {
    type V = TodoView;

    open spec fn view(&self) -> TodoView {
        TodoView {
            id: self.id as int,
            title: self.title@,
            completed: self.completed,
            order: match self.order {
                Some(n) => Some(n as int),
                None => None,
            },
        }
    }
}

impl Clone for Todo {
    fn clone(&self) -> (res: Todo)
        ensures
            res@ == self@,
    {
        Todo {
            id: self.id,
            title: self.title.clone(),
            completed: self.completed,
            order: self.order,
        }
    }
}

/// The fields a caller supplies when creating a record.
pub struct TodoCreate {
    /// Title of the new record.
    pub title: String,
    /// Optional sort hint of the new record.
    pub order: Option<i32>,
}

/// The mathematical content of a creation request.
pub ghost struct TodoCreateView {
    pub title: Seq<char>,
    pub order: Option<int>,
}

impl View for TodoCreate {
    type V = TodoCreateView;

    open spec fn view(&self) -> TodoCreateView {
        TodoCreateView {
            title: self.title@,
            order: match self.order {
                Some(n) => Some(n as int),
                None => None,
            },
        }
    }
}

/// A partial update: a field that is `None` leaves the stored value
/// untouched.
pub struct TodoUpdate {
    /// Replacement title, if any.
    pub title: Option<String>,
    /// Replacement completion flag, if any.
    pub completed: Option<bool>,
    /// Replacement sort hint, if any.
    pub order: Option<i32>,
}

/// The mathematical content of a partial update.
pub ghost struct TodoUpdateView {
    pub title: Option<Seq<char>>,
    pub completed: Option<bool>,
    pub order: Option<int>,
}

impl View for TodoUpdate {
    type V = TodoUpdateView;

    open spec fn view(&self) -> TodoUpdateView {
        TodoUpdateView {
            title: match self.title {
                Some(ref s) => Some(s@),
                None => None,
            },
            completed: self.completed,
            order: match self.order {
                Some(n) => Some(n as int),
                None => None,
            },
        }
    }
}

/// Why a repository operation failed.
#[derive(Clone, Copy, Debug, PartialEq, Eq, Structural)]
pub enum Error {
    /// No record has the requested identifier.
    NotFound,
    /// The storage backend cannot take the record; here, the identifier
    /// counter is exhausted.
    StorageError,
}

/// The views of a sequence of stored records, in order.
pub open spec fn views_of(s: Seq<Todo>) -> Seq<TodoView> {
    s.map_values(|t: Todo| t@)
}

/// No two records share an identifier.
pub open spec fn ids_distinct(s: Seq<TodoView>) -> bool {
    forall|i: int, j: int|
        #![trigger s[i].id, s[j].id]
        0 <= i < j < s.len() ==> s[i].id != s[j].id
}

/// Some record carries the identifier `id`.
pub open spec fn contains_id(s: Seq<TodoView>, id: int) -> bool {
    exists|i: int| 0 <= i < s.len() && #[trigger] s[i].id == id
}

/// The position of the record carrying `id`; meaningful only when
/// `contains_id(s, id)` holds and, with `ids_distinct(s)`, unique.
pub open spec fn index_of_id(s: Seq<TodoView>, id: int) -> int {
    choose|i: int| 0 <= i < s.len() && #[trigger] s[i].id == id
}

/// The record carrying `id`, if any.
pub open spec fn find_todo(s: Seq<TodoView>, id: int) -> Option<TodoView> {
    if contains_id(s, id) {
        Some(s[index_of_id(s, id)])
    } else {
        None
    }
}

/// The record that a creation request with identifier `id` stores.
pub open spec fn created_view(id: int, req: TodoCreateView) -> TodoView {
    TodoView { id: id, title: req.title, completed: false, order: req.order }
}

/// The record `t` after the partial update `u`: exactly the fields present
/// in `u` change, and the identifier never does.
pub open spec fn apply_update(t: TodoView, u: TodoUpdateView) -> TodoView {
    TodoView {
        id: t.id,
        title: match u.title {
            Some(s) => s,
            None => t.title,
        },
        completed: match u.completed {
            Some(b) => b,
            None => t.completed,
        },
        order: match u.order {
            Some(n) => Some(n),
            None => t.order,
        },
    }
}

/// The records of `s` whose titles contain `term` as a case-insensitive
/// substring, in their order in `s`.
pub open spec fn matching_titles(s: Seq<TodoView>, term: Seq<char>) -> Seq<TodoView> {
    s.filter(|t: TodoView| title_matches(t.title, term))
}

/// The repository: an ordered sequence of records and the identifier the
/// next created record receives.
pub struct TodoList {
    todos: Vec<Todo>,
    next_id: i32,
}

impl View for TodoList {
    type V = Seq<TodoView>;

    closed spec fn view(&self) -> Seq<TodoView> {
        views_of(self.todos@)
    }
}

impl TodoList {
    /// The identifier the next created record receives.
    pub closed spec fn spec_next_id(&self) -> int {
        self.next_id as int
    }

    /// Every stored identifier is positive, below the counter, and unique.
    pub open spec fn well_formed(&self) -> bool {
        &&& ids_distinct(self@)
        &&& forall|i: int| 0 <= i < self@.len() ==> 1 <= #[trigger] self@[i].id < self.spec_next_id()
        &&& 1 <= self.spec_next_id() <= i32::MAX
    }

    /// An empty repository whose first created record receives identifier 1.
    pub fn new() -> (l: TodoList)
        ensures
            l@ == Seq::<TodoView>::empty(),
            l.spec_next_id() == 1,
            l.well_formed(),
    {
        let l = TodoList { todos: Vec::new(), next_id: 1 };
        proof {
            assert(l@ =~= Seq::<TodoView>::empty());
        }
        l
    }

    /// A copy of every stored record, in storage order. In-memory storage
    /// has no failing backend, so this always succeeds.
    pub fn all(&self) -> (r: Result<Vec<Todo>, Error>)
        ensures
            r matches Ok(v) && views_of(v@) == self@,
    {
        let mut out: Vec<Todo> = Vec::new();
        let mut i: usize = 0;
        while i < self.todos.len()
            invariant
                0 <= i <= self.todos.len(),
                out@.len() == i,
                forall|k: int| 0 <= k < i ==> out@[k]@ == #[trigger] self.todos@[k]@,
            decreases self.todos.len() - i,
        {
            out.push(self.todos[i].clone());
            i = i + 1;
        }
        proof {
            assert(views_of(out@) =~= self@);
        }
        Ok(out)
    }

    /// Stores a new record with a fresh identifier, the requested title and
    /// sort hint, and `completed` false, and returns a copy of it. Fails,
    /// leaving the repository unchanged, exactly when the identifier counter
    /// is exhausted.
    pub fn create_todo(&mut self, request: &TodoCreate) -> (r: Result<Todo, Error>)
        requires
            old(self).well_formed(),
        ensures
            final(self).well_formed(),
            match r {
                Ok(t) => {
                    &&& old(self).spec_next_id() < i32::MAX
                    &&& t@ == created_view(old(self).spec_next_id(), request@)
                    &&& !contains_id(old(self)@, t@.id)
                    &&& final(self)@ == old(self)@.push(t@)
                    &&& final(self).spec_next_id() == old(self).spec_next_id() + 1
                },
                Err(e) => {
                    &&& e == Error::StorageError
                    &&& old(self).spec_next_id() == i32::MAX
                    &&& final(self)@ == old(self)@
                    &&& final(self).spec_next_id() == old(self).spec_next_id()
                },
            },
    {
        if self.next_id == i32::MAX {
            return Err(Error::StorageError);
        }
        let id: i32 = self.next_id;
        self.next_id = self.next_id + 1;
        let stored = Todo {
            id: id,
            title: request.title.clone(),
            completed: false,
            order: request.order,
        };
        let returned = stored.clone();
        proof {
            assert(views_of(self.todos@.push(stored)) =~= self@.push(stored@));
            assert(!contains_id(self@, id as int));
        }
        self.todos.push(stored);
        Ok(returned)
    }

    /// A copy of the record carrying `todo_id`; fails with `NotFound`
    /// exactly when no record carries it.
    pub fn get_todo(&self, todo_id: i32) -> (r: Result<Todo, Error>)
        requires
            self.well_formed(),
        ensures
            match r {
                Ok(t) => {
                    &&& contains_id(self@, todo_id as int)
                    &&& find_todo(self@, todo_id as int) == Some(t@)
                },
                Err(e) => {
                    &&& e == Error::NotFound
                    &&& !contains_id(self@, todo_id as int)
                },
            },
    {
        let mut i: usize = 0;
        while i < self.todos.len()
            invariant
                self.well_formed(),
                0 <= i <= self.todos.len(),
                forall|k: int| 0 <= k < i ==> #[trigger] self@[k].id != todo_id as int,
            decreases self.todos.len() - i,
        {
            if self.todos[i].id == todo_id {
                let t = self.todos[i].clone();
                proof {
                    lemma_distinct_index(self@, todo_id as int, i as int);
                }
                return Ok(t);
            }
            i = i + 1;
        }
        Err(Error::NotFound)
    }

    /// Applies exactly the fields present in `todo_update` to the record
    /// carrying `todo_id` and returns a copy of the updated record; fails
    /// with `NotFound`, changing nothing, exactly when no record carries it.
    pub fn update_todo(&mut self, todo_id: i32, todo_update: TodoUpdate) -> (r: Result<Todo, Error>)
        requires
            old(self).well_formed(),
        ensures
            final(self).well_formed(),
            final(self).spec_next_id() == old(self).spec_next_id(),
            match r {
                Ok(t) => {
                    &&& contains_id(old(self)@, todo_id as int)
                    &&& t@ == apply_update(
                        old(self)@[index_of_id(old(self)@, todo_id as int)],
                        todo_update@,
                    )
                    &&& final(self)@ == old(self)@.update(
                        index_of_id(old(self)@, todo_id as int),
                        t@,
                    )
                },
                Err(e) => {
                    &&& e == Error::NotFound
                    &&& !contains_id(old(self)@, todo_id as int)
                    &&& final(self)@ == old(self)@
                },
            },
    {
        let mut i: usize = 0;
        while i < self.todos.len()
            invariant
                *self == *old(self),
                self.well_formed(),
                0 <= i <= self.todos.len(),
                forall|k: int| 0 <= k < i ==> #[trigger] self@[k].id != todo_id as int,
            decreases self.todos.len() - i,
        {
            if self.todos[i].id == todo_id {
                let new_title = match &todo_update.title {
                    Some(s) => s.clone(),
                    None => self.todos[i].title.clone(),
                };
                let new_completed = match todo_update.completed {
                    Some(b) => b,
                    None => self.todos[i].completed,
                };
                let new_order = match todo_update.order {
                    Some(n) => Some(n),
                    None => self.todos[i].order,
                };
                let updated = Todo {
                    id: todo_id,
                    title: new_title,
                    completed: new_completed,
                    order: new_order,
                };
                let returned = updated.clone();
                proof {
                    lemma_distinct_index(self@, todo_id as int, i as int);
                    assert(updated@ == apply_update(self@[i as int], todo_update@));
                    assert(views_of(self.todos@.update(i as int, updated)) =~= self@.update(
                        i as int,
                        updated@,
                    ));
                    lemma_update_same_id_well_formed(self@, i as int, updated@);
                }
                self.todos[i] = updated;
                return Ok(returned);
            }
            i = i + 1;
        }
        Err(Error::NotFound)
    }

    /// Removes the record carrying `todo_id` if one exists; removing an
    /// absent identifier is a success that changes nothing.
    pub fn delete_todo(&mut self, todo_id: i32) -> (r: Result<(), Error>)
        requires
            old(self).well_formed(),
        ensures
            final(self).well_formed(),
            final(self).spec_next_id() == old(self).spec_next_id(),
            r == Ok::<(), Error>(()),
            !contains_id(final(self)@, todo_id as int),
            contains_id(old(self)@, todo_id as int) ==> final(self)@ == old(self)@.remove(
                index_of_id(old(self)@, todo_id as int),
            ) && final(self)@.len() == old(self)@.len() - 1,
            !contains_id(old(self)@, todo_id as int) ==> final(self)@ == old(self)@,
    {
        let mut i: usize = 0;
        while i < self.todos.len()
            invariant
                *self == *old(self),
                self.well_formed(),
                0 <= i <= self.todos.len(),
                forall|k: int| 0 <= k < i ==> #[trigger] self@[k].id != todo_id as int,
            decreases self.todos.len() - i,
        {
            if self.todos[i].id == todo_id {
                proof {
                    lemma_distinct_index(self@, todo_id as int, i as int);
                    lemma_delete_removes_exactly_one(self@, todo_id as int);
                    assert(views_of(self.todos@.remove(i as int)) =~= self@.remove(i as int));
                    lemma_remove_well_formed(self@, i as int);
                }
                self.todos.remove(i);
                return Ok(());
            }
            i = i + 1;
        }
        Ok(())
    }

    /// Copies of the records whose titles contain `search` as a
    /// case-insensitive substring, in storage order; an empty term matches
    /// every record. In-memory storage has no failing backend, so this
    /// always succeeds.
    pub fn search_todo(&self, search: &str) -> (r: Result<Vec<Todo>, Error>)
        ensures
            r matches Ok(v) && views_of(v@) == matching_titles(self@, search@) && (search@.len()
                == 0 ==> v@.len() == self@.len()),
    {
        let folded_term = to_lowercase(search);
        let mut out: Vec<Todo> = Vec::new();
        let mut i: usize = 0;
        while i < self.todos.len()
            invariant
                0 <= i <= self.todos.len(),
                folded_term@ == lower_of(search@),
                search@.len() == 0 ==> folded_term@.len() == 0,
                views_of(out@) == matching_titles(self@.subrange(0, i as int), search@),
            decreases self.todos.len() - i,
        {
            let folded_title = to_lowercase(self.todos[i].title.as_str());
            let is_match = contains_str(folded_title.as_str(), folded_term.as_str());
            proof {
                assert(is_match == title_matches(self@[i as int].title, search@));
                assert(self@.subrange(0, i + 1) =~= self@.subrange(0, i as int) + seq![
                    self@[i as int],
                ]);
                lemma_matching_append(self@.subrange(0, i as int), seq![self@[i as int]], search@);
                lemma_matching_one(self@[i as int], search@);
            }
            if is_match {
                let found = self.todos[i].clone();
                proof {
                    assert(views_of(out@.push(found)) =~= views_of(out@).push(found@));
                    assert(matching_titles(self@.subrange(0, i as int), search@).push(
                        self@[i as int],
                    ) =~= matching_titles(self@.subrange(0, i as int), search@) + seq![
                        self@[i as int],
                    ]);
                }
                out.push(found);
            } else {
                proof {
                    assert(matching_titles(self@.subrange(0, i as int), search@)
                        + Seq::<TodoView>::empty() =~= matching_titles(
                        self@.subrange(0, i as int),
                        search@,
                    ));
                }
            }
            i = i + 1;
        }
        proof {
            assert(self@.subrange(0, self@.len() as int) =~= self@);
            if search@.len() == 0 {
                assert forall|k: int| 0 <= k < self@.len() implies title_matches(
                    #[trigger] self@[k].title,
                    search@,
                ) by {
                    assert(lower_of(self@[k].title).subrange(0, 0) =~= lower_of(search@));
                    assert(match_at(lower_of(self@[k].title), lower_of(search@), 0));
                }
                lemma_matching_all(self@, search@);
            }
        }
        Ok(out)
    }

    /// Removes every record unconditionally; the identifier counter keeps
    /// running, so identifiers are never reused.
    pub fn clear(&mut self) -> (r: Result<(), Error>)
        requires
            old(self).well_formed(),
        ensures
            final(self).well_formed(),
            final(self).spec_next_id() == old(self).spec_next_id(),
            r == Ok::<(), Error>(()),
            final(self)@ == Seq::<TodoView>::empty(),
    {
        self.todos.clear();
        proof {
            assert(self@ =~= Seq::<TodoView>::empty());
        }
        Ok(())
    }
}

/// When identifiers are distinct and position `i` carries `id`, the lookup
/// specs single out exactly that position.
proof fn lemma_distinct_index(s: Seq<TodoView>, id: int, i: int)
    requires
        ids_distinct(s),
        0 <= i < s.len(),
        s[i].id == id,
    ensures
        contains_id(s, id),
        index_of_id(s, id) == i,
        find_todo(s, id) == Some(s[i]),
{
    assert(contains_id(s, id));
    let j = index_of_id(s, id);
    assert(0 <= j < s.len() && s[j].id == id);
    if i != j {
        assert(s[i].id != s[j].id);
    }
}

/// Replacing the record at position `i` with one carrying the same
/// identifier disturbs no well-formedness fact about the identifiers.
proof fn lemma_update_same_id_well_formed(s: Seq<TodoView>, i: int, t: TodoView)
    requires
        ids_distinct(s),
        0 <= i < s.len(),
        t.id == s[i].id,
    ensures
        ids_distinct(s.update(i, t)),
        forall|k: int|
            0 <= k < s.update(i, t).len() ==> #[trigger] s.update(i, t)[k].id == s[k].id,
{
    let u = s.update(i, t);
    assert forall|k: int| 0 <= k < u.len() implies #[trigger] u[k].id == s[k].id by {
        if k != i {
            assert(u[k] == s[k]);
        }
    };
}

/// Removing one position keeps the remaining identifiers distinct.
proof fn lemma_remove_well_formed(s: Seq<TodoView>, i: int)
    requires
        ids_distinct(s),
        0 <= i < s.len(),
    ensures
        ids_distinct(s.remove(i)),
        forall|k: int|
            0 <= k < s.remove(i).len() ==> contains_id(s, #[trigger] s.remove(i)[k].id),
    decreases s.len(),
{
    s.remove_ensures(i);
    let r = s.remove(i);
    assert forall|a: int, b: int|
        #![trigger r[a].id, r[b].id]
        0 <= a < b < r.len() implies r[a].id != r[b].id by {
        let sa: int = if a < i { a } else { a + 1 };
        let sb: int = if b < i { b } else { b + 1 };
        assert(r[a] == s[sa]);
        assert(r[b] == s[sb]);
        assert(s[sa].id != s[sb].id);
    };
    assert forall|k: int| 0 <= k < r.len() implies contains_id(s, #[trigger] r[k].id) by {
        let sk: int = if k < i { k } else { k + 1 };
        assert(r[k] == s[sk]);
        assert(s[sk].id == r[k].id);
    };
}

/// Filtering by title distributes over concatenation of record sequences.
proof fn lemma_matching_append(a: Seq<TodoView>, b: Seq<TodoView>, term: Seq<char>)
    ensures
        matching_titles(a + b, term) == matching_titles(a, term) + matching_titles(b, term),
{
    broadcast use Seq::filter_distributes_over_add;

    assert(matching_titles(a + b, term) == matching_titles(a, term) + matching_titles(b, term));
}

/// Filtering a single record keeps it exactly when its title matches.
proof fn lemma_matching_one(t: TodoView, term: Seq<char>)
    ensures
        title_matches(t.title, term) ==> matching_titles(seq![t], term) == seq![t],
        !title_matches(t.title, term) ==> matching_titles(seq![t], term)
            == Seq::<TodoView>::empty(),
{
    reveal_with_fuel(Seq::<TodoView>::filter, 2);
    assert(seq![t].drop_last() =~= Seq::<TodoView>::empty());
    assert(seq![t].last() == t);
    assert(Seq::<TodoView>::empty().push(t) =~= seq![t]);
}

/// When every title matches the term, filtering keeps the whole sequence.
proof fn lemma_matching_all(s: Seq<TodoView>, term: Seq<char>)
    requires
        forall|k: int| 0 <= k < s.len() ==> title_matches(#[trigger] s[k].title, term),
    ensures
        matching_titles(s, term) == s,
    decreases s.len(),
{
    reveal_with_fuel(Seq::<TodoView>::filter, 1);
    if s.len() == 0 {
        assert(matching_titles(s, term) =~= s);
    } else {
        assert(forall|k: int|
            0 <= k < s.drop_last().len() ==> #[trigger] s.drop_last()[k] == s[k]);
        lemma_matching_all(s.drop_last(), term);
        assert(title_matches(s.last().title, term));
        assert(matching_titles(s, term) == s.drop_last().push(s.last()));
        assert(s.drop_last().push(s.last()) =~= s);
    }
}

/// Creating then fetching: a record appended under a fresh identifier is
/// exactly what a lookup of that identifier afterwards finds.
pub proof fn lemma_create_then_get(s: Seq<TodoView>, t: TodoView)
    requires
        !contains_id(s, t.id),
    ensures
        contains_id(s.push(t), t.id),
        find_todo(s.push(t), t.id) == Some(t),
{
    let p = s.push(t);
    assert(p[s.len() as int] == t);
    assert(contains_id(p, t.id));
    let j = index_of_id(p, t.id);
    assert(0 <= j < p.len() && p[j].id == t.id);
    if j < s.len() {
        assert(p[j] == s[j]);
        assert(contains_id(s, t.id));
    }
}

/// Update partiality: a field absent from the update leaves the stored
/// value untouched, each field independently; a field present replaces the
/// stored value; the identifier never changes.
pub proof fn lemma_update_partiality(t: TodoView, u: TodoUpdateView)
    ensures
        apply_update(t, u).id == t.id,
        u.title is None ==> apply_update(t, u).title == t.title,
        u.completed is None ==> apply_update(t, u).completed == t.completed,
        u.order is None ==> apply_update(t, u).order == t.order,
        u.title matches Some(x) ==> apply_update(t, u).title == x,
        u.completed matches Some(b) ==> apply_update(t, u).completed == b,
        u.order matches Some(n) ==> apply_update(t, u).order == Some(n),
{
}

/// Uniqueness: appending a record whose identifier no stored record carries
/// keeps all identifiers pairwise distinct.
pub proof fn lemma_create_keeps_ids_distinct(s: Seq<TodoView>, t: TodoView)
    requires
        ids_distinct(s),
        !contains_id(s, t.id),
    ensures
        ids_distinct(s.push(t)),
{
    let p = s.push(t);
    assert forall|i: int, j: int|
        #![trigger p[i].id, p[j].id]
        0 <= i < j < p.len() implies p[i].id != p[j].id by {
        if j < s.len() {
            assert(p[i] == s[i]);
            assert(p[j] == s[j]);
        } else {
            assert(p[j] == t);
            assert(p[i] == s[i]);
            assert(s[i].id != t.id);
        }
    };
}

/// Deletion removes exactly one record: after the record carrying `id` is
/// removed, no record carries `id` any more, and the length has gone down by
/// exactly one.
pub proof fn lemma_delete_removes_exactly_one(s: Seq<TodoView>, id: int)
    requires
        ids_distinct(s),
        contains_id(s, id),
    ensures
        !contains_id(s.remove(index_of_id(s, id)), id),
        s.remove(index_of_id(s, id)).len() == s.len() - 1,
{
    let i = index_of_id(s, id);
    assert(0 <= i < s.len() && s[i].id == id);
    s.remove_ensures(i);
    let r = s.remove(i);
    assert forall|k: int| 0 <= k < r.len() implies #[trigger] r[k].id != id by {
        if k < i {
            assert(r[k] == s[k]);
            assert(s[k].id != s[i].id);
        } else {
            assert(r[k] == s[k + 1]);
            assert(s[k + 1].id != s[i].id);
        }
    };
}

} // verus!
