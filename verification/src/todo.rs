use vstd::prelude::*;

use crate::label::{duplicate_labels, labels_view, Label, LabelView};

verus! {

/// One row of the join of todos with their labels: a todo's own columns and,
/// when the todo has a label, that label's id and name.
#[derive(Debug, Clone, PartialEq, Eq)]
pub struct TodoWithLabelFromRow {
    pub id: i32,
    pub text: String,
    pub completed: bool,
    pub label_id: Option<i32>,
    pub label_name: Option<String>,
}

/// The mathematical model of a [`TodoWithLabelFromRow`].
pub struct RowView {
    pub id: i32,
    pub text: Seq<char>,
    pub completed: bool,
    pub label_id: Option<i32>,
    pub label_name: Option<Seq<char>>,
}

impl View for TodoWithLabelFromRow {
    type V = RowView;

    open spec fn view(&self) -> RowView {
        RowView {
            id: self.id,
            text: self.text@,
            completed: self.completed,
            label_id: self.label_id,
            label_name: match self.label_name {
                Some(n) => Some(n@),
                None => None,
            },
        }
    }
}

/// The view of a sequence of rows, element by element.
pub open spec fn rows_view(rows: Seq<TodoWithLabelFromRow>) -> Seq<RowView> {
    rows.map_values(|r: TodoWithLabelFromRow| r@)
}

/// A todo together with all of its labels.
#[derive(Debug, Clone, PartialEq, Eq)]
pub struct TodoEntity {
    pub id: i32,
    pub text: String,
    pub completed: bool,
    pub labels: Vec<Label>,
}

/// The mathematical model of a [`TodoEntity`].
pub struct TodoEntityView {
    pub id: i32,
    pub text: Seq<char>,
    pub completed: bool,
    pub labels: Seq<LabelView>,
}

impl View for TodoEntity {
    type V = TodoEntityView;

    open spec fn view(&self) -> TodoEntityView {
        TodoEntityView {
            id: self.id,
            text: self.text@,
            completed: self.completed,
            labels: labels_view(self.labels@),
        }
    }
}

/// The view of a sequence of entities, element by element.
pub open spec fn entities_view(todos: Seq<TodoEntity>) -> Seq<TodoEntityView> {
    todos.map_values(|t: TodoEntity| t@)
}

/// A fresh todo: not completed and without labels.
pub open spec fn fresh_todo(id: i32, text: Seq<char>) -> TodoEntityView {
    TodoEntityView { id, text, completed: false, labels: Seq::empty() }
}

impl TodoEntity {
    /// A todo with the given id and text, not completed and without labels.
    pub fn new(id: i32, text: String) -> (t: TodoEntity)
        ensures
            t@ == fresh_todo(id, text@),
    {
        let labels: Vec<Label> = Vec::new();
        let t = TodoEntity { id, text, completed: false, labels };
        proof {
            assert(labels_view(t.labels@) =~= Seq::<LabelView>::empty());
        }
        t
    }

    /// A copy of this todo.
    pub fn duplicate(&self) -> (t: TodoEntity)
        ensures
            t@ == self@,
    {
        TodoEntity {
            id: self.id,
            text: self.text.clone(),
            completed: self.completed,
            labels: duplicate_labels(&self.labels),
        }
    }
}

/// The payload that creates a todo: its text and the ids of its labels.
#[derive(Debug, Clone, PartialEq, Eq)]
pub struct CreateTodo {
    pub text: String,
    pub labels: Vec<i32>,
}

impl CreateTodo {
    /// A payload with the given text and label ids.
    pub fn new(text: String, labels: Vec<i32>) -> (p: CreateTodo)
        ensures
            p.text@ == text@,
            p.labels@ == labels@,
    {
        CreateTodo { text, labels }
    }
}

/// The payload that updates a todo: each field that is present replaces the
/// todo's current value.
#[derive(Debug, Clone, PartialEq, Eq)]
pub struct UpdateTodo {
    pub text: Option<String>,
    pub completed: Option<bool>,
    pub labels: Option<Vec<i32>>,
}

/// The text that an update gives a todo whose current text is `current`.
pub open spec fn updated_text(payload_text: Option<String>, current: Seq<char>) -> Seq<char> {
    match payload_text {
        Some(t) => t@,
        None => current,
    }
}

/// The completion flag that an update gives a todo whose current flag is `current`.
pub open spec fn updated_completed(payload_completed: Option<bool>, current: bool) -> bool {
    match payload_completed {
        Some(c) => c,
        None => current,
    }
}

/// An update sets exactly the fields that its payload carries: a given text
/// or flag replaces the current one whatever both are, and an absent one
/// keeps the current one.
pub proof fn lemma_update_sets_given_fields(
    text: Option<String>,
    completed: Option<bool>,
    current_text: Seq<char>,
    current_completed: bool,
)
    ensures
        text matches Some(t) ==> updated_text(text, current_text) == t@,
        text is None ==> updated_text(text, current_text) == current_text,
        completed matches Some(c) ==> updated_completed(completed, current_completed) == c,
        completed is None ==> updated_completed(completed, current_completed) == current_completed,
{
}

impl UpdateTodo {
    /// The text and completion flag that this update gives `current`: each
    /// field of the payload that is present, otherwise the todo's own.
    pub fn merged_fields(&self, current: &TodoEntity) -> (r: (String, bool))
        ensures
            r.0@ == updated_text(self.text, current.text@),
            r.1 == updated_completed(self.completed, current.completed),
            self.text matches Some(t) ==> r.0@ == t@,
            self.text is None ==> r.0@ == current.text@,
            self.completed matches Some(c) ==> r.1 == c,
            self.completed is None ==> r.1 == current.completed,
    {
        let text = match &self.text {
            Some(t) => t.clone(),
            None => current.text.clone(),
        };
        let completed = match self.completed {
            Some(c) => c,
            None => current.completed,
        };
        (text, completed)
    }
}

} // verus!
