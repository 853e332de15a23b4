//! The in-memory store: an ordered sequence of items addressed by
//! position, with create / update / delete / toggle operations and
//! filtered views (all, active, completed).

use vstd::prelude::*;

verus! {

/// One stored item: its text, held as bytes, and whether it is marked done.
pub struct Todo {
    pub message: Vec<u8>,
    pub marked: bool,
}

/// The mathematical image of a [`Todo`].
#[verifier::ext_equal]
pub ghost struct TodoView {
    pub message: Seq<u8>,
    pub marked: bool,
}

impl View for Todo {
    type V = TodoView;

    open spec fn view(&self) -> TodoView {
        TodoView { message: self.message@, marked: self.marked }
    }
}

impl DeepView for Todo {
    type V = TodoView;

    open spec fn deep_view(&self) -> TodoView {
        self@
    }
}

/// A read-only view selector over the store.
#[derive(Clone, Copy)]
pub enum Filter {
    All,
    Active,
    Completed,
}

/// The subsequence of `s` that the filter keeps, in store order.
pub open spec fn filtered(s: Seq<TodoView>, f: Filter) -> Seq<TodoView> {
    match f {
        Filter::All => s,
        Filter::Active => s.filter(|t: TodoView| !t.marked),
        Filter::Completed => s.filter(|t: TodoView| t.marked),
    }
}

/// Creation appends a fresh unmarked item; an empty message is refused
/// silently and leaves the store as it was.
pub open spec fn create_spec(s: Seq<TodoView>, m: Seq<u8>) -> Seq<TodoView> {
    if m.len() == 0 {
        s
    } else {
        s.push(TodoView { message: m, marked: false })
    }
}

/// Updating overwrites the message at `i`, keeping the mark; out of
/// range it is a no-op.
pub open spec fn update_spec(s: Seq<TodoView>, i: int, m: Seq<u8>) -> Seq<TodoView> {
    if 0 <= i < s.len() {
        s.update(i, TodoView { message: m, marked: s[i].marked })
    } else {
        s
    }
}

/// Toggling flips the mark at `i`, keeping the message; out of range it
/// is a no-op.
pub open spec fn toggle_spec(s: Seq<TodoView>, i: int) -> Seq<TodoView> {
    if 0 <= i < s.len() {
        s.update(i, TodoView { message: s[i].message, marked: !s[i].marked })
    } else {
        s
    }
}

/// Deletion removes the item at `i`, shifting all later items down by
/// one; out of range it is a no-op.
pub open spec fn delete_spec(s: Seq<TodoView>, i: int) -> Seq<TodoView> {
    if 0 <= i < s.len() {
        s.remove(i)
    } else {
        s
    }
}

/// Appends `{message, marked: false}` unless the message is empty.
pub fn create(todos: &mut Vec<Todo>, message: Vec<u8>)
    ensures
        final(todos).deep_view() == create_spec(old(todos).deep_view(), message@),
{
    if message.len() > 0 {
        let ghost pre = todos.deep_view();
        let ghost mv = message@;
        todos.push(Todo { message, marked: false });
        proof {
            assert(todos.deep_view() =~= pre.push(TodoView { message: mv, marked: false }));
        }
    }
}

/// Overwrites the message at `index`, leaving the mark untouched; a
/// no-op when `index` is out of range.
pub fn update(todos: &mut Vec<Todo>, index: usize, message: Vec<u8>)
    ensures
        final(todos).deep_view() == update_spec(old(todos).deep_view(), index as int, message@),
{
    if index < todos.len() {
        let ghost pre = todos.deep_view();
        let ghost mv = message@;
        let marked = todos[index].marked;
        todos[index] = Todo { message, marked };
        proof {
            assert(todos.deep_view() =~= pre.update(
                index as int,
                TodoView { message: mv, marked: pre[index as int].marked },
            ));
        }
    }
}

/// Flips the mark at `index`, leaving the message untouched; a no-op
/// when `index` is out of range.
pub fn toggle_mark(todos: &mut Vec<Todo>, index: usize)
    ensures
        final(todos).deep_view() == toggle_spec(old(todos).deep_view(), index as int),
{
    if index < todos.len() {
        let ghost pre = todos.deep_view();
        let message = todos[index].message.clone();
        let marked = todos[index].marked;
        todos[index] = Todo { message, marked: !marked };
        proof {
            assert(todos.deep_view() =~= pre.update(
                index as int,
                TodoView { message: pre[index as int].message, marked: !pre[index as int].marked },
            ));
        }
    }
}

/// Removes the item at `index`; every later item shifts down by one.
/// A no-op when `index` is out of range.
pub fn delete(todos: &mut Vec<Todo>, index: usize)
    ensures
        final(todos).deep_view() == delete_spec(old(todos).deep_view(), index as int),
        index < old(todos)@.len() ==> {
            &&& final(todos)@.len() == old(todos)@.len() - 1
            &&& forall|j: int| 0 <= j < index ==> final(todos).deep_view()[j]
                == old(todos).deep_view()[j]
            &&& forall|j: int| index <= j < final(todos)@.len() ==> final(todos).deep_view()[j]
                == old(todos).deep_view()[j + 1]
        },
        index >= old(todos)@.len() ==> final(todos).deep_view() == old(todos).deep_view(),
{
    if index < todos.len() {
        let ghost pre = todos.deep_view();
        todos.remove(index);
        proof {
            assert(todos.deep_view() =~= pre.remove(index as int));
        }
    }
}

/// How many items the active view holds.
pub fn count_active(todos: &[Todo]) -> (n: usize)
    ensures
        n == filtered(todos.deep_view(), Filter::Active).len(),
{
    let ghost s = todos.deep_view();
    let mut n: usize = 0;
    let mut i: usize = 0;
    while i < todos.len()
        invariant
            i <= todos.len(),
            s == todos.deep_view(),
            s.len() == todos.len(),
            n == filtered(s.subrange(0, i as int), Filter::Active).len(),
            n <= i,
        decreases todos.len() - i,
    {
        proof {
            assert(s.subrange(0, i as int + 1).drop_last() =~= s.subrange(0, i as int));
            reveal(Seq::filter);
        }
        if !todos[i].marked {
            n = n + 1;
        }
        i = i + 1;
    }
    proof {
        assert(s.subrange(0, todos.len() as int) =~= s);
    }
    n
}

/// Clones the items that the filter keeps, in store order.
pub fn filtered_todos(todos: &[Todo], f: Filter) -> (r: Vec<Todo>)
    ensures
        r.deep_view() == filtered(todos.deep_view(), f),
{
    let ghost s = todos.deep_view();
    let mut r: Vec<Todo> = Vec::new();
    let mut i: usize = 0;
    while i < todos.len()
        invariant
            i <= todos.len(),
            s == todos.deep_view(),
            s.len() == todos.len(),
            r.deep_view() == filtered(s.subrange(0, i as int), f),
        decreases todos.len() - i,
    {
        proof {
            assert(s.subrange(0, i as int + 1).drop_last() =~= s.subrange(0, i as int));
            reveal(Seq::filter);
        }
        let keep = match f {
            Filter::All => true,
            Filter::Active => !todos[i].marked,
            Filter::Completed => todos[i].marked,
        };
        if keep {
            let ghost pre = r.deep_view();
            r.push(Todo { message: todos[i].message.clone(), marked: todos[i].marked });
            proof {
                assert(r.deep_view() =~= pre.push(s[i as int]));
            }
        }
        i = i + 1;
    }
    proof {
        assert(s.subrange(0, todos.len() as int) =~= s);
    }
    r
}

} // verus!
