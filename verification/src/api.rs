//! The adapter over the repository: rewrites each stored record into a
//! wire-facing record whose public URL is the configured base URL followed
//! by a slash and the record's identifier in decimal.

use vstd::prelude::*;
use vstd::string::StringExecFns;
use crate::todo_list;
use crate::todo_list::{
    contains_id, created_view, apply_update, find_todo, index_of_id, matching_titles, views_of,
    Error, TodoCreate, TodoUpdate, TodoView,
};

verus! {

/// The decimal digit character for `d`.
pub open spec fn digit_char(d: int) -> char {
    if d == 0 {
        '0'
    } else if d == 1 {
        '1'
    } else if d == 2 {
        '2'
    } else if d == 3 {
        '3'
    } else if d == 4 {
        '4'
    } else if d == 5 {
        '5'
    } else if d == 6 {
        '6'
    } else if d == 7 {
        '7'
    } else if d == 8 {
        '8'
    } else {
        '9'
    }
}

/// The decimal digits of `n`, most significant first, with no leading zero
/// except for `n == 0` itself.
pub open spec fn dec_digits(n: nat) -> Seq<char>
    decreases n,
{
    if n < 10 {
        seq![digit_char(n as int)]
    } else {
        dec_digits(n / 10).push(digit_char((n % 10) as int))
    }
}

/// The decimal rendering of `n`, with a leading minus sign when negative.
pub open spec fn dec_i32(n: int) -> Seq<char> {
    if n < 0 {
        seq!['-'] + dec_digits((-n) as nat)
    } else {
        dec_digits(n as nat)
    }
}

/// The public URL of the record carrying `id`: the base URL, a slash, and
/// the identifier in decimal.
pub open spec fn spec_todo_url(base: Seq<char>, id: int) -> Seq<char> {
    base + seq!['/'] + dec_i32(id)
}

/// The one-character string holding the decimal digit for `d`.
fn digit_str(d: u32) -> (r: &'static str)
    requires
        d < 10,
    ensures
        r@ == seq![digit_char(d as int)],
{
    proof {
        reveal_strlit("0");
        reveal_strlit("1");
        reveal_strlit("2");
        reveal_strlit("3");
        reveal_strlit("4");
        reveal_strlit("5");
        reveal_strlit("6");
        reveal_strlit("7");
        reveal_strlit("8");
        reveal_strlit("9");
        assert("0"@ =~= seq!['0']);
        assert("1"@ =~= seq!['1']);
        assert("2"@ =~= seq!['2']);
        assert("3"@ =~= seq!['3']);
        assert("4"@ =~= seq!['4']);
        assert("5"@ =~= seq!['5']);
        assert("6"@ =~= seq!['6']);
        assert("7"@ =~= seq!['7']);
        assert("8"@ =~= seq!['8']);
        assert("9"@ =~= seq!['9']);
    }
    if d == 0 {
        "0"
    } else if d == 1 {
        "1"
    } else if d == 2 {
        "2"
    } else if d == 3 {
        "3"
    } else if d == 4 {
        "4"
    } else if d == 5 {
        "5"
    } else if d == 6 {
        "6"
    } else if d == 7 {
        "7"
    } else if d == 8 {
        "8"
    } else {
        "9"
    }
}

/// Appends the decimal digits of `n` to `s`.
fn append_dec_digits(s: &mut String, n: u32)
    ensures
        final(s)@ == old(s)@ + dec_digits(n as nat),
    decreases n,
{
    if n < 10 {
        s.append(digit_str(n));
        proof {
            assert(old(s)@ + seq![digit_char(n as int)] =~= old(s)@ + dec_digits(n as nat));
        }
    } else {
        let q: u32 = n / 10;
        let d: u32 = n % 10;
        append_dec_digits(s, q);
        s.append(digit_str(d));
        proof {
            assert(dec_digits(n as nat) == dec_digits(n as nat / 10).push(
                digit_char((n as nat % 10) as int),
            ));
            assert((old(s)@ + dec_digits(q as nat)) + seq![digit_char(d as int)] =~= old(s)@
                + dec_digits(n as nat));
        }
    }
}

/// The public URL of the record carrying `todo_id`, under `base_url`.
pub fn todo_url(base_url: &str, todo_id: i32) -> (r: String)
    ensures
        r@ == spec_todo_url(base_url@, todo_id as int),
{
    let mut r = base_url.to_owned();
    r.append("/");
    proof {
        reveal_strlit("/");
        assert("/"@ =~= seq!['/']);
    }
    if todo_id < 0 {
        r.append("-");
        proof {
            reveal_strlit("-");
            assert("-"@ =~= seq!['-']);
        }
        let m: u32 = (-(todo_id as i64)) as u32;
        proof {
            assert(m as nat == (-(todo_id as int)) as nat);
        }
        append_dec_digits(&mut r, m);
        proof {
            assert(r@ =~= spec_todo_url(base_url@, todo_id as int));
        }
    } else {
        append_dec_digits(&mut r, todo_id as u32);
        proof {
            assert(r@ =~= spec_todo_url(base_url@, todo_id as int));
        }
    }
    r
}

/// One wire-facing todo record: the stored record with its identifier
/// replaced by a public URL.
pub struct Todo {
    /// The record's public URL.
    pub url: String,
    /// Title, copied verbatim from the stored record.
    pub title: String,
    /// Completion flag, copied verbatim from the stored record.
    pub completed: bool,
    /// Sort hint, copied verbatim from the stored record.
    pub order: Option<i32>,
}

/// The mathematical content of one wire-facing record.
pub ghost struct WireTodoView {
    pub url: Seq<char>,
    pub title: Seq<char>,
    pub completed: bool,
    pub order: Option<int>,
}

impl View for Todo {
    type V = WireTodoView;

    open spec fn view(&self) -> WireTodoView {
        WireTodoView {
            url: self.url@,
            title: self.title@,
            completed: self.completed,
            order: match self.order {
                Some(n) => Some(n as int),
                None => None,
            },
        }
    }
}

/// The wire-facing record for the stored record `t` under the base URL
/// `base`: the URL is derived from the identifier, every other field is
/// copied verbatim.
pub open spec fn adapt_view(base: Seq<char>, t: TodoView) -> WireTodoView {
    WireTodoView {
        url: spec_todo_url(base, t.id),
        title: t.title,
        completed: t.completed,
        order: t.order,
    }
}

/// The wire-facing records for a sequence of stored records, in order.
pub open spec fn adapt_seq(base: Seq<char>, s: Seq<TodoView>) -> Seq<WireTodoView> {
    s.map_values(|t: TodoView| adapt_view(base, t))
}

/// The views of a sequence of wire-facing records, in order.
pub open spec fn wire_views_of(s: Seq<Todo>) -> Seq<WireTodoView> {
    s.map_values(|t: Todo| t@)
}

/// The adapter: a repository together with the externally configured base
/// URL under which its records are published.
pub struct TodoList {
    base_url: String,
    todo_list: todo_list::TodoList,
}

impl TodoList {
    /// The configured base URL.
    pub closed spec fn spec_base_url(&self) -> Seq<char> {
        self.base_url@
    }

    /// The stored records, in storage order.
    pub closed spec fn todos(&self) -> Seq<TodoView> {
        self.todo_list@
    }

    /// The identifier the next created record receives.
    pub closed spec fn spec_next_id(&self) -> int {
        self.todo_list.spec_next_id()
    }

    /// The wrapped repository is well formed.
    pub closed spec fn well_formed(&self) -> bool {
        self.todo_list.well_formed()
    }

    /// An adapter over a new, empty repository.
    pub fn new(base_url: String) -> (l: TodoList)
        ensures
            l.spec_base_url() == base_url@,
            l.todos() == Seq::<TodoView>::empty(),
            l.spec_next_id() == 1,
            l.well_formed(),
    {
        TodoList { base_url: base_url, todo_list: todo_list::TodoList::new() }
    }

    /// Every stored record, adapted, in storage order.
    pub fn all(&self) -> (r: Result<Vec<Todo>, Error>)
        ensures
            r matches Ok(v) && wire_views_of(v@) == adapt_seq(self.spec_base_url(), self.todos()),
    {
        self.adapt_list(self.todo_list.all())
    }

    /// Stores a new record and returns it adapted; fails exactly as the
    /// repository's create does.
    pub fn create_todo(&mut self, request: &TodoCreate) -> (r: Result<Todo, Error>)
        requires
            old(self).well_formed(),
        ensures
            final(self).well_formed(),
            final(self).spec_base_url() == old(self).spec_base_url(),
            match r {
                Ok(t) => {
                    &&& old(self).spec_next_id() < i32::MAX
                    &&& !contains_id(old(self).todos(), old(self).spec_next_id())
                    &&& final(self).todos() == old(self).todos().push(
                        created_view(old(self).spec_next_id(), request@),
                    )
                    &&& t@ == adapt_view(
                        old(self).spec_base_url(),
                        created_view(old(self).spec_next_id(), request@),
                    )
                    &&& final(self).spec_next_id() == old(self).spec_next_id() + 1
                },
                Err(e) => {
                    &&& e == Error::StorageError
                    &&& old(self).spec_next_id() == i32::MAX
                    &&& final(self).todos() == old(self).todos()
                    &&& final(self).spec_next_id() == old(self).spec_next_id()
                },
            },
    {
        let inner = self.todo_list.create_todo(request);
        self.adapt_single(inner)
    }

    /// The record carrying `todo_id`, adapted; fails with `NotFound` exactly
    /// when no record carries it.
    pub fn get_todo(&self, todo_id: i32) -> (r: Result<Todo, Error>)
        requires
            self.well_formed(),
        ensures
            match r {
                Ok(t) => {
                    &&& contains_id(self.todos(), todo_id as int)
                    &&& find_todo(self.todos(), todo_id as int) matches Some(st) && t@
                        == adapt_view(self.spec_base_url(), st)
                },
                Err(e) => {
                    &&& e == Error::NotFound
                    &&& !contains_id(self.todos(), todo_id as int)
                },
            },
    {
        let inner = self.todo_list.get_todo(todo_id);
        self.adapt_single(inner)
    }

    /// The records whose titles contain `search_term` as a case-insensitive
    /// substring, adapted, in storage order; an empty term matches every
    /// record.
    pub fn search_todo(&self, search_term: &str) -> (r: Result<Vec<Todo>, Error>)
        ensures
            r matches Ok(v) && wire_views_of(v@) == adapt_seq(
                self.spec_base_url(),
                matching_titles(self.todos(), search_term@),
            ) && (search_term@.len() == 0 ==> v@.len() == self.todos().len()),
    {
        self.adapt_list(self.todo_list.search_todo(search_term))
    }

    /// Applies a partial update to the record carrying `todo_id` and returns
    /// the updated record adapted; fails with `NotFound`, changing nothing,
    /// exactly when no record carries it.
    pub fn update_todo(&mut self, todo_id: i32, todo_update: TodoUpdate) -> (r: Result<
        Todo,
        Error,
    >)
        requires
            old(self).well_formed(),
        ensures
            final(self).well_formed(),
            final(self).spec_base_url() == old(self).spec_base_url(),
            final(self).spec_next_id() == old(self).spec_next_id(),
            match r {
                Ok(t) => {
                    &&& contains_id(old(self).todos(), todo_id as int)
                    &&& final(self).todos() == old(self).todos().update(
                        index_of_id(old(self).todos(), todo_id as int),
                        apply_update(
                            old(self).todos()[index_of_id(old(self).todos(), todo_id as int)],
                            todo_update@,
                        ),
                    )
                    &&& t@ == adapt_view(
                        old(self).spec_base_url(),
                        apply_update(
                            old(self).todos()[index_of_id(old(self).todos(), todo_id as int)],
                            todo_update@,
                        ),
                    )
                },
                Err(e) => {
                    &&& e == Error::NotFound
                    &&& !contains_id(old(self).todos(), todo_id as int)
                    &&& final(self).todos() == old(self).todos()
                },
            },
    {
        let inner = self.todo_list.update_todo(todo_id, todo_update);
        self.adapt_single(inner)
    }

    /// Removes the record carrying `todo_id` if one exists; removing an
    /// absent identifier is a success that changes nothing.
    pub fn delete_todo(&mut self, todo_id: i32) -> (r: Result<(), Error>)
        requires
            old(self).well_formed(),
        ensures
            final(self).well_formed(),
            final(self).spec_base_url() == old(self).spec_base_url(),
            final(self).spec_next_id() == old(self).spec_next_id(),
            r == Ok::<(), Error>(()),
            !contains_id(final(self).todos(), todo_id as int),
            contains_id(old(self).todos(), todo_id as int) ==> final(self).todos() == old(
                self,
            ).todos().remove(index_of_id(old(self).todos(), todo_id as int)),
            !contains_id(old(self).todos(), todo_id as int) ==> final(self).todos() == old(
                self,
            ).todos(),
    {
        self.todo_list.delete_todo(todo_id)
    }

    /// Removes every record unconditionally; identifiers are never reused.
    pub fn clear(&mut self) -> (r: Result<(), Error>)
        requires
            old(self).well_formed(),
        ensures
            final(self).well_formed(),
            final(self).spec_base_url() == old(self).spec_base_url(),
            final(self).spec_next_id() == old(self).spec_next_id(),
            r == Ok::<(), Error>(()),
            final(self).todos() == Seq::<TodoView>::empty(),
    {
        self.todo_list.clear()
    }

    /// The wire-facing record for one stored record.
    fn adapt(&self, todo: &todo_list::Todo) -> (r: Todo)
        ensures
            r@ == adapt_view(self.spec_base_url(), todo@),
    {
        Todo {
            title: todo.title.clone(),
            completed: todo.completed,
            url: todo_url(self.base_url.as_str(), todo.id),
            order: todo.order,
        }
    }

    /// Adapts every record of a listing result, keeping its error.
    fn adapt_list(&self, result: Result<Vec<todo_list::Todo>, Error>) -> (r: Result<
        Vec<Todo>,
        Error,
    >)
        ensures
            match result {
                Ok(v) => r matches Ok(w) && wire_views_of(w@) == adapt_seq(
                    self.spec_base_url(),
                    views_of(v@),
                ) && w@.len() == v@.len(),
                Err(e) => r == Err::<Vec<Todo>, Error>(e),
            },
    {
        match result {
            Ok(todos) => {
                let mut out: Vec<Todo> = Vec::new();
                let mut i: usize = 0;
                while i < todos.len()
                    invariant
                        0 <= i <= todos.len(),
                        out@.len() == i,
                        forall|k: int|
                            0 <= k < i ==> out@[k]@ == adapt_view(
                                self.spec_base_url(),
                                #[trigger] todos@[k]@,
                            ),
                    decreases todos.len() - i,
                {
                    let adapted = self.adapt(&todos[i]);
                    out.push(adapted);
                    i = i + 1;
                }
                proof {
                    assert(wire_views_of(out@) =~= adapt_seq(self.spec_base_url(), views_of(
                        todos@,
                    )));
                }
                Ok(out)
            },
            Err(e) => Err(e),
        }
    }

    /// Adapts the record of a single-record result, keeping its error.
    fn adapt_single(&self, result: Result<todo_list::Todo, Error>) -> (r: Result<Todo, Error>)
        ensures
            match result {
                Ok(t) => r matches Ok(w) && w@ == adapt_view(self.spec_base_url(), t@),
                Err(e) => r == Err::<Todo, Error>(e),
            },
    {
        match result {
            Ok(t) => Ok(self.adapt(&t)),
            Err(e) => Err(e),
        }
    }
}

} // verus!
