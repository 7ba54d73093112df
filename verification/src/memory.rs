use vstd::prelude::*;

use std::collections::HashMap;

use crate::error::RepositoryError;
use crate::todo::{fresh_todo, CreateTodo, TodoEntity, TodoEntityView, UpdateTodo};
use crate::todo::{updated_completed, updated_text};

verus! {

broadcast use vstd::std_specs::hash::group_hash_axioms;

/// The operations of a store of todos. Every implementation may fail, but
/// what it returns on success, and when it reports `NotFound`, agrees with
/// the todos it stores.
pub trait TodoRepository: Sized {
    /// The stored todos, by id.
    spec fn todos(&self) -> Map<i32, TodoEntityView>;

    /// Stores a new todo, not completed, with the payload's text, and returns it.
    fn create(&mut self, payload: CreateTodo) -> (r: Result<TodoEntity, RepositoryError>)
        ensures
            r matches Ok(t) ==> {
                &&& t.text@ == payload.text@
                &&& !t.completed
                &&& final(self).todos() == old(self).todos().insert(t.id, t@)
            },
    ;

    /// The todo with the given id.
    fn find(&self, id: i32) -> (r: Result<TodoEntity, RepositoryError>)
        ensures
            r matches Ok(t) ==> self.todos().contains_key(id) && t@ == self.todos()[id],
            r matches Err(RepositoryError::NotFound(x)) ==> x == id && !self.todos().contains_key(id),
    ;

    /// All stored todos.
    fn all(&self) -> (r: Result<Vec<TodoEntity>, RepositoryError>)
        ensures
            r matches Ok(list) ==> {
                &&& forall|i: int|
                    0 <= i < list.len() ==> self.todos().contains_key(#[trigger] list@[i].id)
                        && self.todos()[list@[i].id] == list@[i]@
                &&& forall|id: i32|
                    #[trigger] self.todos().contains_key(id) ==> lists_id(list@, id)
            },
    ;

    /// Applies the payload to the todo with the given id and returns the result.
    fn update(&mut self, id: i32, payload: UpdateTodo) -> (r: Result<TodoEntity, RepositoryError>)
        ensures
            r matches Ok(u) ==> {
                &&& old(self).todos().contains_key(id)
                &&& u.id == id
                &&& u.text@ == updated_text(payload.text, old(self).todos()[id].text)
                &&& u.completed == updated_completed(payload.completed, old(self).todos()[id].completed)
                &&& final(self).todos() == old(self).todos().insert(id, u@)
            },
            r matches Err(RepositoryError::NotFound(x)) ==> {
                &&& x == id
                &&& !old(self).todos().contains_key(id)
                &&& final(self).todos() == old(self).todos()
            },
    ;

    /// Removes the todo with the given id.
    fn delete(&mut self, id: i32) -> (r: Result<(), RepositoryError>)
        ensures
            r is Ok ==> final(self).todos() == old(self).todos().remove(id),
            r matches Err(RepositoryError::NotFound(x)) ==> {
                &&& x == id
                &&& !old(self).todos().contains_key(id)
                &&& final(self).todos() == old(self).todos()
            },
    ;
}

/// Whether some todo of the list has the id `id`.
pub open spec fn lists_id(list: Seq<TodoEntity>, id: i32) -> bool {
    exists|i: int| 0 <= i < list.len() && (#[trigger] list[i]).id == id
}

/// A todo repository that keeps its todos in memory, keyed by id.
#[derive(Debug)]
pub struct TodoRepositoryForMemory {
    store: HashMap<i32, TodoEntity>,
}

/// The id that a repository holding `count` todos gives the next todo it
/// creates: one more than the count, as an `i32`.
pub open spec fn next_id(count: nat) -> i32 {
    (count + 1) as i32
}

/// The todos after creating one with the given text: a fresh todo filed
/// under [`next_id`] of the current count, in place of any todo filed there.
pub open spec fn after_create(m: Map<i32, TodoEntityView>, text: Seq<char>) -> Map<i32, TodoEntityView> {
    m.insert(next_id(m.len()), fresh_todo(next_id(m.len()), text))
}

/// A todo after an update: same id, text and completion from the payload
/// where given and from the todo otherwise, and no labels.
pub open spec fn updated_todo(
    t: TodoEntityView,
    text: Option<String>,
    completed: Option<bool>,
) -> TodoEntityView {
    TodoEntityView {
        id: t.id,
        text: updated_text(text, t.text),
        completed: updated_completed(completed, t.completed),
        labels: Seq::empty(),
    }
}

/// The todos after updating the todo `id`; unchanged when there is none.
pub open spec fn after_update(
    m: Map<i32, TodoEntityView>,
    id: i32,
    text: Option<String>,
    completed: Option<bool>,
) -> Map<i32, TodoEntityView> {
    if m.contains_key(id) {
        m.insert(id, updated_todo(m[id], text, completed))
    } else {
        m
    }
}

impl View for TodoRepositoryForMemory {
    type V = Map<i32, TodoEntityView>;

    closed spec fn view(&self) -> Map<i32, TodoEntityView> {
        self.store@.map_values(|t: TodoEntity| t@)
    }
}

impl TodoRepositoryForMemory {
    /// Every stored todo is filed under its own id.
    #[verifier::type_invariant]
    closed spec fn filed_by_id(self) -> bool {
        forall|k: i32| #[trigger] self.store@.contains_key(k) ==> self.store@[k].id == k
    }

    /// An empty repository.
    pub fn new() -> (r: TodoRepositoryForMemory)
        ensures
            r@ == Map::<i32, TodoEntityView>::empty(),
    {
        let r = TodoRepositoryForMemory { store: HashMap::new() };
        proof {
            assert(r@ =~= Map::<i32, TodoEntityView>::empty());
        }
        r
    }

    /// The number of stored todos.
    pub fn len(&self) -> (n: usize)
        ensures
            n == self@.len(),
    {
        proof {
            assert(self@.dom() =~= self.store@.dom());
        }
        self.store.len()
    }
}

impl TodoRepository for TodoRepositoryForMemory {
    open spec fn todos(&self) -> Map<i32, TodoEntityView> {
        self@
    }

    /// Stores a fresh todo with the payload's text under the id
    /// [`next_id`] of the current count, replacing any todo filed there; the
    /// payload's label ids are not kept.
    fn create(&mut self, payload: CreateTodo) -> (r: Result<TodoEntity, RepositoryError>)
        ensures
            r matches Ok(t) && t@ == fresh_todo(next_id(old(self)@.len()), payload.text@),
            final(self)@ == after_create(old(self)@, payload.text@),
            r matches Ok(t) && t.text@ == payload.text@ && !t.completed && t.labels.len() == 0,
            old(self)@.len() < i32::MAX ==> (r matches Ok(t) && t.id == old(self)@.len() + 1),
            r matches Ok(t) && final(self)@.contains_key(t.id) && final(self)@[t.id] == t@,
            r matches Ok(t) && forall|k: i32|
                k != t.id && #[trigger] old(self)@.contains_key(k) ==> final(self)@.contains_key(k)
                    && final(self)@[k] == old(self)@[k],
    {
        proof {
            use_type_invariant(&*self);
            assert(self@.dom() =~= self.store@.dom());
        }
        let count: usize = self.store.len();
        let id: i32 = #[verifier::truncate] ((count as u128 + 1) as i32);
        let todo = TodoEntity::new(id, payload.text);
        proof {
            assert(todo.labels@.len() == todo@.labels.len());
        }
        let mut store = HashMap::new();
        std::mem::swap(&mut store, &mut self.store);
        let ghost before = store@;
        store.insert(id, todo.duplicate());
        self.store = store;
        proof {
            assert(self@ =~= before.map_values(|t: TodoEntity| t@).insert(id, todo@));
        }
        Ok(todo)
    }

    /// The todo filed under `id`, or `NotFound(id)`.
    fn find(&self, id: i32) -> (r: Result<TodoEntity, RepositoryError>)
        ensures
            self@.contains_key(id) ==> (r matches Ok(t) && t@ == self@[id] && t.id == id),
            !self@.contains_key(id) ==> r == Err::<TodoEntity, RepositoryError>(
                RepositoryError::NotFound(id),
            ),
    {
        proof {
            use_type_invariant(self);
        }
        match self.store.get(&id) {
            Some(t) => Ok(t.duplicate()),
            None => Err(RepositoryError::NotFound(id)),
        }
    }

    /// Every stored todo once, in the order in which the map is walked.
    fn all(&self) -> (r: Result<Vec<TodoEntity>, RepositoryError>)
        ensures
            r matches Ok(todos) && {
                &&& todos.len() == self@.len()
                &&& forall|i: int|
                    0 <= i < todos.len() ==> self@.contains_key(#[trigger] todos@[i].id)
                        && self@[todos@[i].id] == todos@[i]@
                &&& forall|id: i32| #[trigger] self@.contains_key(id) ==> lists_id(todos@, id)
                &&& forall|a: int, b: int|
                    0 <= a < b < todos.len() ==> (#[trigger] todos@[a]).id != (#[trigger] todos@[b]).id
            },
    {
        proof {
            use_type_invariant(self);
        }
        let mut todos: Vec<TodoEntity> = Vec::new();
        let ghost items = vstd::std_specs::iter::IteratorSpec::remaining(
            &vstd::std_specs::hash::spec_hash_map_iter(&self.store),
        );
        for entry in it: self.store.iter()
            invariant
                it.seq() == items,
                todos.len() == it.index(),
                forall|i: int|
                    0 <= i < todos.len() ==> #[trigger] todos@[i]@ == (*it.seq()[i].1)@,
        {
            let (_, t) = entry;
            todos.push(t.duplicate());
        }
        proof {
            assert(items.no_duplicates());
            assert forall|a: int, b: int| 0 <= a < b < todos.len() implies (#[trigger] todos@[a]).id
                != (#[trigger] todos@[b]).id by {
                let ka: i32 = *items[a].0;
                let kb: i32 = *items[b].0;
                assert(self.store@.contains_key(ka) && self.store@[ka] == *items[a].1);
                assert(self.store@.contains_key(kb) && self.store@[kb] == *items[b].1);
                assert(self.store@[ka].id == ka);
                assert(self.store@[kb].id == kb);
                assert(todos@[a]@ == (*items[a].1)@);
                assert(todos@[b]@ == (*items[b].1)@);
                if ka == kb {
                    assert(items[a] == items[b]);
                }
            }
            assert(todos.len() == items.len());
            assert(items.len() == self.store@.dom().len());
            assert(self@.dom() =~= self.store@.dom());
            assert forall|i: int| 0 <= i < todos.len() implies self@.contains_key(
                #[trigger] todos@[i].id,
            ) && self@[todos@[i].id] == todos@[i]@ by {
                let k: i32 = *items[i].0;
                assert(self.store@.contains_key(k));
                assert(self.store@[k] == *items[i].1);
                assert(todos@[i]@ == (*items[i].1)@);
                assert(self.store@[k].id == k);
                assert(self@[k] == self.store@[k]@);
            }
            assert forall|id: i32| #[trigger] self@.contains_key(id) implies lists_id(todos@, id) by {
                assert(self.store@.contains_key(id));
                assert(items.contains((&id, &self.store@[id])));
                let i: int = choose|i: int| 0 <= i < items.len() && items[i] == (&id, &self.store@[id]);
                assert(todos@[i].id == id);
            }
        }
        Ok(todos)
    }

    /// Replaces the todo filed under `id` with one of the same id whose text
    /// and completion come from the payload where given and from the todo
    /// otherwise, and whose labels are emptied; `NotFound(id)` when no todo
    /// is filed there.
    fn update(&mut self, id: i32, payload: UpdateTodo) -> (r: Result<TodoEntity, RepositoryError>)
        ensures
            final(self)@ == after_update(old(self)@, id, payload.text, payload.completed),
            old(self)@.contains_key(id) ==> (r matches Ok(u) && u@ == updated_todo(
                old(self)@[id],
                payload.text,
                payload.completed,
            )),
            !old(self)@.contains_key(id) ==> r == Err::<TodoEntity, RepositoryError>(
                RepositoryError::NotFound(id),
            ),
            old(self)@.contains_key(id) ==> (r matches Ok(u) && {
                &&& u.id == id
                &&& u.labels.len() == 0
                &&& (payload.text matches Some(t) ==> u.text@ == t@)
                &&& (payload.text is None ==> u.text@ == old(self)@[id].text)
                &&& (payload.completed matches Some(c) ==> u.completed == c)
                &&& (payload.completed is None ==> u.completed == old(self)@[id].completed)
                &&& final(self)@.contains_key(id) && final(self)@[id] == u@
            }),
            final(self)@.dom() == old(self)@.dom(),
            forall|k: i32|
                k != id && #[trigger] old(self)@.contains_key(k) ==> final(self)@[k] == old(self)@[k],
    {
        proof {
            use_type_invariant(&*self);
        }
        let (text, completed) = match self.store.get(&id) {
            Some(current) => payload.merged_fields(current),
            None => {
                proof {
                    assert(!self.store@.contains_key(id));
                }
                return Err(RepositoryError::NotFound(id));
            },
        };
        let todo = TodoEntity { id, text, completed, labels: Vec::new() };
        let mut store = HashMap::new();
        std::mem::swap(&mut store, &mut self.store);
        let ghost before = store@;
        store.insert(id, todo.duplicate());
        self.store = store;
        proof {
            assert(todo@.labels =~= Seq::empty());
            assert(self@ =~= before.map_values(|t: TodoEntity| t@).insert(id, todo@));
        }
        Ok(todo)
    }

    /// Removes the todo filed under `id`, or reports `NotFound(id)` and
    /// changes nothing.
    fn delete(&mut self, id: i32) -> (r: Result<(), RepositoryError>)
        ensures
            old(self)@.contains_key(id) ==> r is Ok && final(self)@ == old(self)@.remove(id),
            !old(self)@.contains_key(id) ==> r == Err::<(), RepositoryError>(
                RepositoryError::NotFound(id),
            ) && final(self)@ == old(self)@,
    {
        proof {
            use_type_invariant(&*self);
        }
        let mut store = HashMap::new();
        std::mem::swap(&mut store, &mut self.store);
        let ghost before = store@;
        let removed = store.remove(&id);
        self.store = store;
        proof {
            assert(self@ =~= before.map_values(|t: TodoEntity| t@).remove(id));
        }
        match removed {
            Some(_) => Ok(()),
            None => {
                proof {
                    assert(self@ =~= before.map_values(|t: TodoEntity| t@));
                }
                Err(RepositoryError::NotFound(id))
            },
        }
    }
}

/// The id for the next todo is one more than the number of todos held.
pub proof fn lemma_next_id_follows_count(count: nat)
    requires
        count < i32::MAX,
    ensures
        next_id(count) == count + 1,
{
}

/// On a repository whose ids are among 1..=n for its n todos, creating a
/// todo files it under n + 1, adds exactly one todo, and keeps every other.
pub proof fn lemma_create_on_counted_ids(m: Map<i32, TodoEntityView>, text: Seq<char>)
    requires
        m.dom().finite(),
        m.len() < i32::MAX,
        forall|k: i32| #[trigger] m.contains_key(k) ==> 1 <= k <= m.len(),
    ensures
        next_id(m.len()) == m.len() + 1,
        !m.contains_key(next_id(m.len())),
        after_create(m, text).len() == m.len() + 1,
        after_create(m, text)[next_id(m.len())] == fresh_todo(next_id(m.len()), text),
        forall|k: i32|
            #[trigger] m.contains_key(k) ==> after_create(m, text).contains_key(k)
                && after_create(m, text)[k] == m[k],
{
}

/// A created todo is found under the id it was given, as a fresh todo with
/// the payload's text.
pub proof fn lemma_find_after_create(m: Map<i32, TodoEntityView>, text: Seq<char>)
    ensures
        after_create(m, text).contains_key(next_id(m.len())),
        after_create(m, text)[next_id(m.len())] == fresh_todo(next_id(m.len()), text),
{
}

/// Creating a todo leaves every todo filed under another id as it was, and,
/// when no todo is filed under the new id yet, adds exactly one todo.
pub proof fn lemma_create_keeps_other_todos(m: Map<i32, TodoEntityView>, text: Seq<char>)
    requires
        m.dom().finite(),
    ensures
        forall|k: i32|
            k != next_id(m.len()) ==> (#[trigger] after_create(m, text).contains_key(k)
                <==> m.contains_key(k)),
        forall|k: i32|
            k != next_id(m.len()) && m.contains_key(k) ==> #[trigger] after_create(m, text)[k]
                == m[k],
        !m.contains_key(next_id(m.len())) ==> after_create(m, text).len() == m.len() + 1,
{
}

/// An updated todo is found with the payload's fields applied, and no other
/// todo changes; no todo appears or disappears.
pub proof fn lemma_find_after_update(
    m: Map<i32, TodoEntityView>,
    id: i32,
    text: Option<String>,
    completed: Option<bool>,
)
    ensures
        after_update(m, id, text, completed).dom() == m.dom(),
        m.contains_key(id) ==> after_update(m, id, text, completed)[id] == updated_todo(
            m[id],
            text,
            completed,
        ),
        forall|k: i32|
            k != id && m.contains_key(k) ==> #[trigger] after_update(m, id, text, completed)[k]
                == m[k],
{
    if m.contains_key(id) {
        assert(after_update(m, id, text, completed).dom() =~= m.dom());
    }
}

/// A deleted todo is no longer found, and no other todo changes.
pub proof fn lemma_find_after_delete(m: Map<i32, TodoEntityView>, id: i32)
    ensures
        !m.remove(id).contains_key(id),
        forall|k: i32| k != id ==> (#[trigger] m.remove(id).contains_key(k) <==> m.contains_key(k)),
        forall|k: i32| k != id && m.contains_key(k) ==> #[trigger] m.remove(id)[k] == m[k],
{
}

} // verus!
