use vstd::prelude::*;

use crate::error::RepositoryError;
use crate::label::{labels_view, Label, LabelView};
use crate::todo::{
    entities_view, rows_view, RowView, TodoEntity, TodoEntityView, TodoWithLabelFromRow,
};

verus! {

/// The label that a row carries (meaningful when the row has a label).
pub open spec fn row_label(r: RowView) -> LabelView {
    LabelView { id: r.label_id.unwrap(), name: r.label_name.unwrap() }
}

/// The rows that belong to the todo `id`, in their order.
pub open spec fn rows_with_id(rows: Seq<RowView>, id: i32) -> Seq<RowView> {
    rows.filter(|r: RowView| r.id == id)
}

/// The rows that belong to the todo `id` and carry a label, in their order.
pub open spec fn labelled_rows_with_id(rows: Seq<RowView>, id: i32) -> Seq<RowView> {
    rows.filter(|r: RowView| r.id == id && r.label_id is Some)
}

/// The distinct todo ids of the rows, in the order of their first row.
pub open spec fn todo_ids(rows: Seq<RowView>) -> Seq<i32>
    decreases rows.len(),
{
    if rows.len() == 0 {
        Seq::empty()
    } else {
        let before = todo_ids(rows.drop_last());
        if before.contains(rows.last().id) {
            before
        } else {
            before.push(rows.last().id)
        }
    }
}

/// The todo `id` as the rows describe it: text and completion from its first
/// row, and the labels of its rows that carry one, in row order.
pub open spec fn todo_of(rows: Seq<RowView>, id: i32) -> TodoEntityView {
    let first = rows_with_id(rows, id)[0];
    TodoEntityView {
        id,
        text: first.text,
        completed: first.completed,
        labels: labelled_rows_with_id(rows, id).map_values(|r: RowView| row_label(r)),
    }
}

/// The todos that the rows describe: one per distinct id, in the order of
/// each id's first row.
pub open spec fn folded(rows: Seq<RowView>) -> Seq<TodoEntityView> {
    todo_ids(rows).map_values(|id: i32| todo_of(rows, id))
}

/// Whether the rows can be folded: every row with a label id has a label
/// name, and every row of a todo after that todo's first row has a label.
pub open spec fn foldable(rows: Seq<RowView>) -> bool {
    &&& forall|i: int|
        0 <= i < rows.len() && (#[trigger] rows[i]).label_id is Some ==> rows[i].label_name is Some
    &&& forall|i: int, j: int|
        0 <= j < i < rows.len() && (#[trigger] rows[j]).id == (#[trigger] rows[i]).id
            ==> rows[i].label_id is Some
}

proof fn lemma_filters_push(p: Seq<RowView>, r: RowView, id: i32)
    ensures
        rows_with_id(p.push(r), id) == (if r.id == id {
            rows_with_id(p, id).push(r)
        } else {
            rows_with_id(p, id)
        }),
        labelled_rows_with_id(p.push(r), id) == (if r.id == id && r.label_id is Some {
            labelled_rows_with_id(p, id).push(r)
        } else {
            labelled_rows_with_id(p, id)
        }),
{
    reveal(Seq::filter);
    assert(p.push(r).drop_last() =~= p);
}

proof fn lemma_todo_ids(rows: Seq<RowView>)
    ensures
        todo_ids(rows).no_duplicates(),
        forall|id: i32|
            #![trigger todo_ids(rows).contains(id)]
            todo_ids(rows).contains(id) <==> rows_with_id(rows, id).len() > 0,
        forall|id: i32|
            #![trigger rows_with_id(rows, id)]
            rows_with_id(rows, id).len() > 0 <==> exists|i: int|
                0 <= i < rows.len() && (#[trigger] rows[i]).id == id,
    decreases rows.len(),
{
    if rows.len() == 0 {
        reveal(Seq::filter);
    } else {
        let p = rows.drop_last();
        let r = rows.last();
        assert(rows =~= p.push(r));
        lemma_todo_ids(p);
        assert forall|id: i32|
            #![trigger todo_ids(rows).contains(id)]
            todo_ids(rows).contains(id) <==> rows_with_id(rows, id).len() > 0 by {
            lemma_filters_push(p, r, id);
            assert(todo_ids(p).contains(id) <==> rows_with_id(p, id).len() > 0);
            if todo_ids(p).contains(r.id) {
                assert(todo_ids(rows) == todo_ids(p));
                if r.id == id {
                    assert(rows_with_id(rows, id).len() > 0);
                } else {
                    assert(rows_with_id(rows, id) == rows_with_id(p, id));
                }
            } else {
                assert(todo_ids(rows) == todo_ids(p).push(r.id));
                if id == r.id {
                    assert(todo_ids(rows)[todo_ids(p).len() as int] == id);
                } else if todo_ids(rows).contains(id) {
                    let k: int = choose|k: int| 0 <= k < todo_ids(rows).len() && todo_ids(rows)[k] == id;
                    assert(todo_ids(p)[k] == id);
                } else if todo_ids(p).contains(id) {
                    let k: int = choose|k: int| 0 <= k < todo_ids(p).len() && todo_ids(p)[k] == id;
                    assert(todo_ids(rows)[k] == id);
                }
            }
        }
        assert forall|id: i32|
            #![trigger rows_with_id(rows, id)]
            rows_with_id(rows, id).len() > 0 <==> exists|i: int|
                0 <= i < rows.len() && (#[trigger] rows[i]).id == id by {
            lemma_filters_push(p, r, id);
            if rows_with_id(rows, id).len() > 0 {
                if r.id == id {
                    assert(rows[rows.len() - 1].id == id);
                } else {
                    assert(rows_with_id(p, id).len() > 0);
                    let i: int = choose|i: int| 0 <= i < p.len() && (#[trigger] p[i]).id == id;
                    assert(rows[i].id == id);
                }
            } else {
                if exists|i: int| 0 <= i < rows.len() && (#[trigger] rows[i]).id == id {
                    let i: int = choose|i: int| 0 <= i < rows.len() && (#[trigger] rows[i]).id == id;
                    if i < p.len() {
                        assert(p[i].id == id);
                    }
                }
            }
        }
        if !todo_ids(p).contains(r.id) {
            assert forall|a: int, b: int|
                0 <= a < b < todo_ids(rows).len() implies todo_ids(rows)[a] != todo_ids(rows)[b] by {
                if b == todo_ids(p).len() {
                    assert(todo_ids(p)[a] == todo_ids(rows)[a]);
                }
            }
        }
    }
}

proof fn lemma_no_labelled_rows(rows: Seq<RowView>, id: i32)
    requires
        rows_with_id(rows, id).len() == 0,
    ensures
        labelled_rows_with_id(rows, id).len() == 0,
    decreases rows.len(),
{
    if rows.len() > 0 {
        let p = rows.drop_last();
        let r = rows.last();
        assert(rows =~= p.push(r));
        lemma_filters_push(p, r, id);
        lemma_no_labelled_rows(p, id);
    } else {
        reveal(Seq::filter);
    }
}

/// The todo that a todo's first row describes on its own.
pub open spec fn first_row_todo(r: RowView) -> TodoEntityView {
    TodoEntityView {
        id: r.id,
        text: r.text,
        completed: r.completed,
        labels: if r.label_id is Some {
            seq![row_label(r)]
        } else {
            Seq::empty()
        },
    }
}

/// A todo with one more label at the end.
pub open spec fn with_label(t: TodoEntityView, l: LabelView) -> TodoEntityView {
    TodoEntityView { labels: t.labels.push(l), ..t }
}

/// A todo after folding one more of its rows: that row's label appended
/// when the row carries one, otherwise unchanged.
pub open spec fn with_row_label(t: TodoEntityView, r: RowView) -> TodoEntityView {
    if r.label_id is Some {
        with_label(t, row_label(r))
    } else {
        t
    }
}

/// Folding one more row whose todo is already among the folded ones adds that
/// row's label, if it has one, to that todo and changes nothing else.
pub proof fn lemma_fold_row_of_known_todo(rows: Seq<RowView>, r: RowView, k: int)
    requires
        0 <= k < folded(rows).len(),
        folded(rows)[k].id == r.id,
    ensures
        folded(rows.push(r)) == folded(rows).update(k, with_row_label(folded(rows)[k], r)),
{
    let q = rows.push(r);
    assert(q.drop_last() =~= rows);
    lemma_todo_ids(rows);
    assert(todo_ids(rows)[k] == r.id);
    assert(todo_ids(rows).contains(r.id));
    assert(todo_ids(q) == todo_ids(rows));
    assert forall|m: int| 0 <= m < todo_ids(rows).len() implies #[trigger] todo_of(
        q,
        todo_ids(rows)[m],
    ) == (if m == k {
        with_row_label(todo_of(rows, todo_ids(rows)[m]), r)
    } else {
        todo_of(rows, todo_ids(rows)[m])
    }) by {
        let id: i32 = todo_ids(rows)[m];
        lemma_filters_push(rows, r, id);
        if m == k {
            assert(todo_ids(rows).contains(id));
            assert(rows_with_id(rows, id).len() > 0);
            assert(rows_with_id(q, id)[0] == rows_with_id(rows, id)[0]);
            if r.label_id is Some {
                assert(labelled_rows_with_id(q, id).map_values(|x: RowView| row_label(x))
                    =~= labelled_rows_with_id(rows, id).map_values(|x: RowView| row_label(x)).push(
                    row_label(r),
                ));
            }
        } else {
            assert(id != r.id);
        }
    }
    assert(folded(q) =~= folded(rows).update(k, with_row_label(folded(rows)[k], r)));
}

/// Folding one more row whose todo is not among the folded ones appends the
/// todo that this row describes on its own.
pub proof fn lemma_fold_row_of_new_todo(rows: Seq<RowView>, r: RowView)
    requires
        forall|k: int| 0 <= k < folded(rows).len() ==> (#[trigger] folded(rows)[k]).id != r.id,
    ensures
        folded(rows.push(r)) == folded(rows).push(first_row_todo(r)),
{
    let q = rows.push(r);
    assert(q.drop_last() =~= rows);
    lemma_todo_ids(rows);
    if todo_ids(rows).contains(r.id) {
        let k: int = choose|k: int| 0 <= k < todo_ids(rows).len() && todo_ids(rows)[k] == r.id;
        assert(folded(rows)[k].id == r.id);
    }
    assert(todo_ids(q) == todo_ids(rows).push(r.id));
    assert forall|m: int| 0 <= m < todo_ids(rows).len() implies #[trigger] todo_of(
        q,
        todo_ids(rows)[m],
    ) == todo_of(rows, todo_ids(rows)[m]) by {
        let id: i32 = todo_ids(rows)[m];
        lemma_filters_push(rows, r, id);
        assert(folded(rows)[m].id == id);
    }
    lemma_filters_push(rows, r, r.id);
    assert(rows_with_id(rows, r.id).len() == 0);
    lemma_no_labelled_rows(rows, r.id);
    assert(rows_with_id(q, r.id)[0] == r);
    assert(labelled_rows_with_id(q, r.id).map_values(|x: RowView| row_label(x))
        =~= first_row_todo(r).labels);
    assert(folded(q) =~= folded(rows).push(first_row_todo(r)));
}

/// The index of the first todo with the given id, if any.
fn position_of(todos: &Vec<TodoEntity>, id: i32) -> (pos: Option<usize>)
    ensures
        match pos {
            Some(j) => j < todos.len() && todos@[j as int].id == id,
            None => forall|k: int| 0 <= k < todos.len() ==> (#[trigger] todos@[k]).id != id,
        },
{
    let mut j: usize = 0;
    while j < todos.len()
        invariant
            j <= todos.len(),
            forall|k: int| 0 <= k < j ==> (#[trigger] todos@[k]).id != id,
        decreases todos.len() - j,
    {
        if todos[j].id == id {
            return Some(j);
        }
        j = j + 1;
    }
    None
}

/// The label that a labelled row carries.
fn label_of_row(row: &TodoWithLabelFromRow) -> (l: Label)
    requires
        row.label_id is Some,
        row.label_name is Some,
    ensures
        l@ == row_label(row@),
{
    let id: i32 = row.label_id.unwrap();
    let name = row.label_name.as_ref().unwrap().clone();
    Label { id, name }
}

/// Whether the rows can be folded (see [`foldable`]).
pub fn rows_are_foldable(rows: &Vec<TodoWithLabelFromRow>) -> (ok: bool)
    ensures
        ok == foldable(rows_view(rows@)),
{
    let ghost rv = rows_view(rows@);
    let mut i: usize = 0;
    while i < rows.len()
        invariant
            i <= rows.len(),
            rv == rows_view(rows@),
            forall|a: int|
                0 <= a < i && (#[trigger] rv[a]).label_id is Some ==> rv[a].label_name is Some,
            forall|a: int, b: int|
                0 <= a < b < i && (#[trigger] rv[a]).id == (#[trigger] rv[b]).id
                    ==> rv[b].label_id is Some,
        decreases rows.len() - i,
    {
        proof {
            assert(rv[i as int] == rows@[i as int]@);
        }
        if rows[i].label_id.is_some() && rows[i].label_name.is_none() {
            return false;
        }
        if rows[i].label_id.is_none() {
            let mut j: usize = 0;
            while j < i
                invariant
                    j <= i < rows.len(),
                    rv == rows_view(rows@),
                    rv[i as int].label_id is None,
                    forall|a: int| 0 <= a < j ==> (#[trigger] rv[a]).id != rv[i as int].id,
                decreases i - j,
            {
                proof {
                    assert(rv[j as int] == rows@[j as int]@);
                }
                if rows[j].id == rows[i].id {
                    return false;
                }
                j = j + 1;
            }
        }
        i = i + 1;
    }
    true
}

/// Folds joined todo/label rows into todos: one todo per distinct id, in the
/// order of each id's first row, with the labels of that todo's rows in row
/// order.
pub fn fold_entities(rows: Vec<TodoWithLabelFromRow>) -> (todos: Vec<TodoEntity>)
    requires
        foldable(rows_view(rows@)),
    ensures
        entities_view(todos@) == folded(rows_view(rows@)),
        forall|i: int, k: int|
            is_first_row(rows_view(rows@), i) && 0 <= k < todos.len() && (#[trigger] todos@[k]).id
                == (#[trigger] rows@[i]).id ==> {
                &&& todos@[k].text@ == rows@[i].text@
                &&& todos@[k].completed == rows@[i].completed
            },
{
    let ghost rv = rows_view(rows@);
    let mut accum: Vec<TodoEntity> = Vec::new();
    let mut i: usize = 0;
    proof {
        assert(rv.take(0) =~= Seq::<RowView>::empty());
        assert(entities_view(accum@) =~= folded(rv.take(0)));
    }
    while i < rows.len()
        invariant
            i <= rows.len(),
            rv == rows_view(rows@),
            foldable(rv),
            entities_view(accum@) == folded(rv.take(i as int)),
        decreases rows.len() - i,
    {
        let row = &rows[i];
        let ghost p = rv.take(i as int);
        let ghost r = rv[i as int];
        proof {
            assert(rv.take(i as int + 1) =~= p.push(r));
            assert(r == row@);
        }
        match position_of(&accum, row.id) {
            Some(j) => {
                proof {
                    assert(entities_view(accum@).len() == accum@.len());
                    assert(entities_view(accum@)[j as int].id == row.id);
                    lemma_todo_ids(p);
                    assert(todo_ids(p).len() == folded(p).len());
                    assert(folded(p)[j as int] == todo_of(p, todo_ids(p)[j as int]));
                    assert(todo_ids(p)[j as int] == row.id);
                    assert(todo_ids(p).contains(row.id));
                    assert(rows_with_id(p, row.id).len() > 0);
                    let e: int = choose|e: int| 0 <= e < p.len() && (#[trigger] p[e]).id == row.id;
                    assert(rv[e].id == rv[i as int].id);
                    lemma_fold_row_of_known_todo(p, r, j as int);
                }
                let l = label_of_row(row);
                let ghost before = accum@;
                accum[j].labels.push(l);
                proof {
                    assert(accum@ =~= before.update(j as int, accum@[j as int]));
                    assert(labels_view(accum@[j as int].labels@) =~= labels_view(
                        before[j as int].labels@,
                    ).push(l@));
                    assert(entities_view(accum@) =~= folded(p.push(r)));
                }
            },
            None => {
                proof {
                    assert forall|k: int| 0 <= k < folded(p).len() implies (#[trigger] folded(
                        p,
                    )[k]).id != r.id by {
                        assert(entities_view(accum@)[k].id == accum@[k].id);
                    }
                    lemma_fold_row_of_new_todo(p, r);
                }
                let mut labels: Vec<Label> = Vec::new();
                if row.label_id.is_some() {
                    let l = label_of_row(row);
                    labels.push(l);
                }
                let todo = TodoEntity {
                    id: row.id,
                    text: row.text.clone(),
                    completed: row.completed,
                    labels,
                };
                proof {
                    assert(todo@.labels =~= first_row_todo(r).labels);
                }
                let ghost before = accum@;
                accum.push(todo);
                proof {
                    assert(entities_view(accum@) =~= entities_view(before).push(todo@));
                }
            },
        }
        i = i + 1;
    }
    proof {
        assert(rv.take(rows.len() as int) =~= rv);
        assert forall|i: int, k: int|
            is_first_row(rv, i) && 0 <= k < accum.len() && (#[trigger] accum@[k]).id
                == (#[trigger] rows@[i]).id implies {
                &&& accum@[k].text@ == rows@[i].text@
                &&& accum@[k].completed == rows@[i].completed
            } by {
            lemma_folded_todo_takes_first_row(rv, i);
            assert(rv[i] == rows@[i]@);
            assert(entities_view(accum@)[k] == accum@[k]@);
        }
    }
    accum
}

/// Whether some row belongs to the todo `id`.
pub open spec fn rows_mention(rows: Seq<RowView>, id: i32) -> bool {
    exists|i: int| 0 <= i < rows.len() && (#[trigger] rows[i]).id == id
}

/// Whether some todo has the id `id`.
pub open spec fn todos_mention(todos: Seq<TodoEntityView>, id: i32) -> bool {
    exists|k: int| 0 <= k < todos.len() && (#[trigger] todos[k]).id == id
}

/// Folding yields exactly one todo per distinct id of the rows, and each
/// todo carries one label per row of that todo that has a label; there are
/// no todos without rows.
pub proof fn lemma_folded_todos_are_the_rows_todos(rows: Seq<RowView>)
    ensures
        forall|a: int, b: int|
            0 <= a < b < folded(rows).len() ==> (#[trigger] folded(rows)[a]).id != (#[trigger] folded(
                rows,
            )[b]).id,
        forall|id: i32|
            #![trigger todos_mention(folded(rows), id)]
            #![trigger rows_mention(rows, id)]
            todos_mention(folded(rows), id) <==> rows_mention(rows, id),
        forall|k: int|
            0 <= k < folded(rows).len() ==> (#[trigger] folded(rows)[k]).labels.len()
                == labelled_rows_with_id(rows, folded(rows)[k].id).len(),
        folded(rows).len() == 0 <==> rows.len() == 0,
{
    lemma_todo_ids(rows);
    let ids = todo_ids(rows);
    assert forall|a: int, b: int| 0 <= a < b < folded(rows).len() implies (#[trigger] folded(
        rows,
    )[a]).id != (#[trigger] folded(rows)[b]).id by {
        assert(folded(rows)[a].id == ids[a]);
        assert(folded(rows)[b].id == ids[b]);
    }
    assert forall|id: i32|
        #![trigger todos_mention(folded(rows), id)]
        #![trigger rows_mention(rows, id)]
        todos_mention(folded(rows), id) <==> rows_mention(rows, id) by {
        assert(rows_with_id(rows, id).len() > 0 <==> exists|i: int|
            0 <= i < rows.len() && (#[trigger] rows[i]).id == id);
        if exists|k: int| 0 <= k < folded(rows).len() && (#[trigger] folded(rows)[k]).id == id {
            let k: int = choose|k: int| 0 <= k < folded(rows).len() && (#[trigger] folded(rows)[k]).id == id;
            assert(ids[k] == id);
            assert(ids.contains(id));
        }
        if exists|i: int| 0 <= i < rows.len() && (#[trigger] rows[i]).id == id {
            assert(ids.contains(id));
            let k: int = choose|k: int| 0 <= k < ids.len() && ids[k] == id;
            assert(folded(rows)[k].id == id);
        }
    }
    if rows.len() > 0 {
        assert(rows_mention(rows, rows[0].id));
        assert(ids.contains(rows[0].id));
    } else {
        assert(ids.len() == 0);
    }
}

/// Whether no todo id has rows in both lists.
pub open spec fn ids_disjoint(a: Seq<RowView>, b: Seq<RowView>) -> bool {
    forall|i: int, j: int|
        0 <= i < a.len() && 0 <= j < b.len() ==> (#[trigger] a[i]).id != (#[trigger] b[j]).id
}

proof fn lemma_foldable_concat(a: Seq<RowView>, b: Seq<RowView>)
    requires
        ids_disjoint(a, b),
    ensures
        foldable(a + b) <==> foldable(a) && foldable(b),
{
    let c = a + b;
    let n = a.len();
    if foldable(c) {
        assert forall|i: int, j: int|
            0 <= j < i < a.len() && (#[trigger] a[j]).id == (#[trigger] a[i]).id implies a[i].label_id is Some by {
            assert(c[j] == a[j] && c[i] == a[i]);
        }
        assert forall|i: int| 0 <= i < a.len() && (#[trigger] a[i]).label_id is Some implies a[i].label_name is Some by {
            assert(c[i] == a[i]);
        }
        assert forall|i: int, j: int|
            0 <= j < i < b.len() && (#[trigger] b[j]).id == (#[trigger] b[i]).id implies b[i].label_id is Some by {
            assert(c[n + j] == b[j] && c[n + i] == b[i]);
        }
        assert forall|i: int| 0 <= i < b.len() && (#[trigger] b[i]).label_id is Some implies b[i].label_name is Some by {
            assert(c[n + i] == b[i]);
        }
    }
    if foldable(a) && foldable(b) {
        assert forall|i: int, j: int|
            0 <= j < i < c.len() && (#[trigger] c[j]).id == (#[trigger] c[i]).id implies c[i].label_id is Some by {
            if i < n {
                assert(c[j] == a[j] && c[i] == a[i]);
            } else if j >= n {
                assert(c[j] == b[j - n] && c[i] == b[i - n]);
            } else {
                assert(c[j] == a[j] && c[i] == b[i - n]);
                assert(a[j].id != b[i - n].id);
            }
        }
        assert forall|i: int| 0 <= i < c.len() && (#[trigger] c[i]).label_id is Some implies c[i].label_name is Some by {
            if i < n {
                assert(c[i] == a[i]);
            } else {
                assert(c[i] == b[i - n]);
            }
        }
    }
}

/// Rows of two lists that share no todo id fold, one after the other, into
/// the todos of the first list followed by those of the second; and they can
/// be folded together exactly when each list can be folded on its own.
pub proof fn lemma_fold_concat(a: Seq<RowView>, b: Seq<RowView>)
    requires
        ids_disjoint(a, b),
    ensures
        folded(a + b) == folded(a) + folded(b),
        foldable(a + b) <==> foldable(a) && foldable(b),
    decreases b.len(),
{
    lemma_foldable_concat(a, b);
    if b.len() == 0 {
        assert(a + b =~= a);
        assert(folded(b) =~= Seq::<TodoEntityView>::empty());
        assert(folded(a) + folded(b) =~= folded(a));
    } else {
        let b0 = b.drop_last();
        let r = b.last();
        assert(b =~= b0.push(r));
        assert(a + b =~= (a + b0).push(r));
        assert forall|i: int, j: int|
            0 <= i < a.len() && 0 <= j < b0.len() implies (#[trigger] a[i]).id != (#[trigger] b0[j]).id by {
            assert(b0[j] == b[j]);
        }
        lemma_fold_concat(a, b0);
        lemma_folded_todos_are_the_rows_todos(a);
        lemma_folded_todos_are_the_rows_todos(b0);
        let fa = folded(a);
        let fb0 = folded(b0);
        assert(folded(a + b0) == fa + fb0);
        if todos_mention(fb0, r.id) {
            let k: int = choose|k: int| 0 <= k < fb0.len() && (#[trigger] fb0[k]).id == r.id;
            lemma_fold_row_of_known_todo(b0, r, k);
            assert((fa + fb0)[fa.len() + k] == fb0[k]);
            lemma_fold_row_of_known_todo(a + b0, r, fa.len() + k);
            assert(folded(a + b) =~= fa + folded(b));
        } else {
            assert forall|k: int| 0 <= k < fb0.len() implies (#[trigger] fb0[k]).id != r.id by {
                if fb0[k].id == r.id {
                    assert(todos_mention(fb0, r.id));
                }
            }
            lemma_fold_row_of_new_todo(b0, r);
            assert forall|k: int| 0 <= k < folded(a + b0).len() implies (#[trigger] folded(
                a + b0,
            )[k]).id != r.id by {
                if k < fa.len() {
                    assert(folded(a + b0)[k] == fa[k]);
                    if fa[k].id == r.id {
                        assert(todos_mention(fa, r.id));
                        assert(rows_mention(a, r.id));
                        let i: int = choose|i: int| 0 <= i < a.len() && (#[trigger] a[i]).id == r.id;
                        assert(b[b.len() - 1] == r);
                        assert(a[i].id != b[b.len() - 1].id);
                    }
                } else {
                    assert(folded(a + b0)[k] == fb0[k - fa.len()]);
                }
            }
            lemma_fold_row_of_new_todo(a + b0, r);
            assert(folded(a + b) =~= fa + folded(b));
        }
    }
}

/// The same law for row values: folding the rows of two lists with no todo id
/// in common, one list after the other, gives what folding each list gives,
/// one after the other.
pub proof fn lemma_fold_entities_concat(a: Seq<TodoWithLabelFromRow>, b: Seq<TodoWithLabelFromRow>)
    requires
        ids_disjoint(rows_view(a), rows_view(b)),
    ensures
        folded(rows_view(a + b)) == folded(rows_view(a)) + folded(rows_view(b)),
        foldable(rows_view(a + b)) <==> foldable(rows_view(a)) && foldable(rows_view(b)),
{
    assert(rows_view(a + b) =~= rows_view(a) + rows_view(b));
    lemma_fold_concat(rows_view(a), rows_view(b));
}

/// Whether row `i` is the first row of its todo.
pub open spec fn is_first_row(rows: Seq<RowView>, i: int) -> bool {
    &&& 0 <= i < rows.len()
    &&& forall|j: int| 0 <= j < i ==> (#[trigger] rows[j]).id != rows[i].id
}

proof fn lemma_first_row_of_id(rows: Seq<RowView>, i: int)
    requires
        is_first_row(rows, i),
    ensures
        rows_with_id(rows, rows[i].id).len() > 0,
        rows_with_id(rows, rows[i].id)[0] == rows[i],
    decreases rows.len(),
{
    let p = rows.drop_last();
    let r = rows.last();
    let id = rows[i].id;
    assert(rows =~= p.push(r));
    lemma_filters_push(p, r, id);
    if i < rows.len() - 1 {
        assert forall|j: int| 0 <= j < i implies (#[trigger] p[j]).id != p[i].id by {
            assert(p[j] == rows[j]);
        }
        lemma_first_row_of_id(p, i);
        assert(p[i] == rows[i]);
    } else {
        lemma_todo_ids(p);
        if rows_with_id(p, id).len() > 0 {
            let j: int = choose|j: int| 0 <= j < p.len() && (#[trigger] p[j]).id == id;
            assert(rows[j].id == id);
        }
        assert(rows_with_id(p, id).len() == 0);
    }
}

proof fn lemma_todo_ids_start(rows: Seq<RowView>)
    requires
        rows.len() > 0,
    ensures
        todo_ids(rows).len() > 0,
        todo_ids(rows)[0] == rows[0].id,
    decreases rows.len(),
{
    let p = rows.drop_last();
    if p.len() == 0 {
        assert(todo_ids(p) =~= Seq::<i32>::empty());
    } else {
        lemma_todo_ids_start(p);
        assert(p[0] == rows[0]);
    }
}

/// Every todo folded from the rows takes its text and its completion flag
/// from the first row of its id, whatever label that row carries; and the
/// first row of the rows gives the first todo.
pub proof fn lemma_folded_todo_takes_first_row(rows: Seq<RowView>, i: int)
    requires
        is_first_row(rows, i),
    ensures
        todos_mention(folded(rows), rows[i].id),
        forall|k: int|
            0 <= k < folded(rows).len() && (#[trigger] folded(rows)[k]).id == rows[i].id ==> {
                &&& folded(rows)[k].text == rows[i].text
                &&& folded(rows)[k].completed == rows[i].completed
            },
        folded(rows)[0].id == rows[0].id,
        folded(rows)[0].text == rows[0].text,
        folded(rows)[0].completed == rows[0].completed,
{
    lemma_first_row_of_id(rows, i);
    lemma_folded_todos_are_the_rows_todos(rows);
    assert(rows_mention(rows, rows[i].id));
    lemma_todo_ids(rows);
    assert forall|k: int|
        0 <= k < folded(rows).len() && (#[trigger] folded(rows)[k]).id == rows[i].id implies {
            &&& folded(rows)[k].text == rows[i].text
            &&& folded(rows)[k].completed == rows[i].completed
        } by {
        assert(folded(rows)[k] == todo_of(rows, todo_ids(rows)[k]));
    }
    lemma_todo_ids_start(rows);
    assert(is_first_row(rows, 0));
    lemma_first_row_of_id(rows, 0);
    assert(folded(rows)[0] == todo_of(rows, todo_ids(rows)[0]));
}

proof fn lemma_todo_ids_order(rows: Seq<RowView>, i: int, j: int, a: int, b: int)
    requires
        is_first_row(rows, i),
        is_first_row(rows, j),
        i < j,
        0 <= a < todo_ids(rows).len(),
        0 <= b < todo_ids(rows).len(),
        todo_ids(rows)[a] == rows[i].id,
        todo_ids(rows)[b] == rows[j].id,
    ensures
        a < b,
    decreases rows.len(),
{
    let p = rows.drop_last();
    let r = rows.last();
    assert(rows =~= p.push(r));
    lemma_todo_ids(p);
    lemma_todo_ids(rows);
    assert forall|x: int| 0 <= x < i implies (#[trigger] p[x]).id != p[i].id by {
        assert(p[x] == rows[x]);
    }
    assert(p[i] == rows[i]);
    assert(rows_mention(p, rows[i].id));
    assert(rows_with_id(p, rows[i].id).len() > 0);
    assert(todo_ids(p).contains(rows[i].id));
    let a0: int = choose|a0: int| 0 <= a0 < todo_ids(p).len() && todo_ids(p)[a0] == rows[i].id;
    if j < rows.len() - 1 {
        assert forall|x: int| 0 <= x < j implies (#[trigger] p[x]).id != p[j].id by {
            assert(p[x] == rows[x]);
        }
        assert(p[j] == rows[j]);
        assert(rows_mention(p, rows[j].id));
        assert(rows_with_id(p, rows[j].id).len() > 0);
        assert(todo_ids(p).contains(rows[j].id));
        let b0: int = choose|b0: int| 0 <= b0 < todo_ids(p).len() && todo_ids(p)[b0] == rows[j].id;
        lemma_todo_ids_order(p, i, j, a0, b0);
        assert(todo_ids(rows)[a0] == rows[i].id);
        assert(todo_ids(rows)[b0] == rows[j].id);
    } else {
        if rows_mention(p, r.id) {
            let x: int = choose|x: int| 0 <= x < p.len() && (#[trigger] p[x]).id == r.id;
            assert(rows[x].id == rows[j].id);
        }
        assert(!todo_ids(p).contains(r.id));
        assert(todo_ids(rows) == todo_ids(p).push(r.id));
        assert(todo_ids(rows)[a0] == rows[i].id);
        assert(todo_ids(rows)[todo_ids(p).len() as int] == rows[j].id);
    }
}

/// The todos come in the order of their first rows: when a todo's first row
/// comes before another todo's first row, that todo comes first.
pub proof fn lemma_folded_order_follows_first_rows(rows: Seq<RowView>, i: int, j: int, a: int, b: int)
    requires
        is_first_row(rows, i),
        is_first_row(rows, j),
        i < j,
        0 <= a < folded(rows).len(),
        0 <= b < folded(rows).len(),
        folded(rows)[a].id == rows[i].id,
        folded(rows)[b].id == rows[j].id,
    ensures
        a < b,
{
    assert(folded(rows)[a] == todo_of(rows, todo_ids(rows)[a]));
    assert(folded(rows)[b] == todo_of(rows, todo_ids(rows)[b]));
    lemma_todo_ids_order(rows, i, j, a, b);
}

/// Rows that all belong to one todo and all carry a label fold into that one
/// todo, with one label per row, in row order.
pub proof fn lemma_fold_one_labelled_todo(rows: Seq<RowView>)
    requires
        rows.len() > 0,
        forall|m: int| 0 <= m < rows.len() ==> (#[trigger] rows[m]).id == rows[0].id,
        forall|m: int| 0 <= m < rows.len() ==> (#[trigger] rows[m]).label_id is Some,
    ensures
        folded(rows).len() == 1,
        folded(rows)[0].id == rows[0].id,
        folded(rows)[0].labels.len() == rows.len(),
        forall|m: int|
            0 <= m < rows.len() ==> (#[trigger] folded(rows)[0].labels[m]).id
                == rows[m].label_id.unwrap() && folded(rows)[0].labels[m].name
                == rows[m].label_name.unwrap(),
    decreases rows.len(),
{
    let p = rows.drop_last();
    let r = rows.last();
    assert(rows =~= p.push(r));
    if p.len() == 0 {
        assert(folded(p) =~= Seq::<TodoEntityView>::empty());
        lemma_fold_row_of_new_todo(p, r);
        assert(rows[0] == r);
    } else {
        assert forall|m: int| 0 <= m < p.len() implies (#[trigger] p[m]).id == p[0].id by {
            assert(p[m] == rows[m]);
        }
        assert forall|m: int| 0 <= m < p.len() implies (#[trigger] p[m]).label_id is Some by {
            assert(p[m] == rows[m]);
        }
        lemma_fold_one_labelled_todo(p);
        assert(p[0] == rows[0]);
        assert(r.id == rows[0].id);
        lemma_fold_row_of_known_todo(p, r, 0);
        assert forall|m: int|
            0 <= m < rows.len() implies (#[trigger] folded(rows)[0].labels[m]).id
                == rows[m].label_id.unwrap() && folded(rows)[0].labels[m].name
                == rows[m].label_name.unwrap() by {
            if m < p.len() {
                assert(folded(rows)[0].labels[m] == folded(p)[0].labels[m]);
                assert(p[m] == rows[m]);
            }
        }
    }
}

/// The todo that a single row describes.
pub fn fold_entity(row: TodoWithLabelFromRow) -> (todo: TodoEntity)
    requires
        row.label_id is Some ==> row.label_name is Some,
    ensures
        todo@ == first_row_todo(row@),
        todo.id == row.id,
        todo.text@ == row.text@,
        todo.completed == row.completed,
        row.label_id is None ==> todo.labels.len() == 0,
        row.label_id is Some ==> {
            &&& todo.labels.len() == 1
            &&& todo.labels[0].id == row.label_id.unwrap()
            &&& Some(todo.labels[0].name@) == row@.label_name
        },
{
    let ghost r = row@;
    let rows = vec![row];
    proof {
        assert(rows_view(rows@) =~= Seq::<RowView>::empty().push(r));
        assert(folded(Seq::<RowView>::empty()) =~= Seq::<TodoEntityView>::empty());
        lemma_fold_row_of_new_todo(Seq::<RowView>::empty(), r);
    }
    let todos = fold_entities(rows);
    proof {
        assert(entities_view(todos@).len() == todos@.len());
        assert(entities_view(todos@)[0] == todos@[0]@);
    }
    let todo = todos[0].duplicate();
    proof {
        assert(todo@.labels.len() == todo.labels@.len());
        if row.label_id is Some {
            assert(todo@.labels[0] == todo.labels@[0]@);
        }
    }
    todo
}

/// The todo `id` out of the rows that a query for it returned: the first todo
/// that the rows fold into, or `NotFound(id)` when there is none.
pub fn find_in_rows(id: i32, rows: Vec<TodoWithLabelFromRow>) -> (found: Result<
    TodoEntity,
    RepositoryError,
>)
    requires
        foldable(rows_view(rows@)),
    ensures
        match found {
            Ok(t) => {
                &&& rows@.len() > 0
                &&& t@ == folded(rows_view(rows@))[0]
                &&& t.id == rows@[0].id
                &&& t.text@ == rows@[0].text@
                &&& t.completed == rows@[0].completed
            },
            Err(e) => rows@.len() == 0 && e == RepositoryError::NotFound(id),
        },
{
    let ghost rv = rows_view(rows@);
    proof {
        lemma_folded_todos_are_the_rows_todos(rv);
        if rv.len() > 0 {
            lemma_folded_todo_takes_first_row(rv, 0);
            assert(rv[0] == rows@[0]@);
        }
    }
    let todos = fold_entities(rows);
    if todos.len() == 0 {
        Err(RepositoryError::NotFound(id))
    } else {
        proof {
            assert(entities_view(todos@)[0] == todos@[0]@);
        }
        Ok(todos[0].duplicate())
    }
}

} // verus!
