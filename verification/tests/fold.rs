use todo_app::error::RepositoryError;
use todo_app::fold::{find_in_rows, fold_entities, fold_entity, rows_are_foldable};
use todo_app::label::Label;
use todo_app::todo::{TodoEntity, TodoWithLabelFromRow};

fn row(id: i32, text: &str, label: Option<&Label>) -> TodoWithLabelFromRow {
    TodoWithLabelFromRow {
        id,
        text: String::from(text),
        completed: false,
        label_id: label.map(|l| l.id),
        label_name: label.map(|l| l.name.clone()),
    }
}

#[test]
fn fold_entities_test() {
    let label_l = Label {
        id: 1,
        name: String::from("label 1"),
    };
    let label_2 = Label {
        id: 3,
        name: String::from("label 2"),
    };

    let rows = vec![
        TodoWithLabelFromRow {
            id: 1,
            text: String::from("todo 1"),
            completed: false,
            label_id: Some(label_l.id),
            label_name: Some(label_l.name.clone()),
        },
        TodoWithLabelFromRow {
            id: 1,
            text: String::from("todo 1"),
            completed: false,
            label_id: Some(label_2.id),
            label_name: Some(label_2.name.clone()),
        },
        TodoWithLabelFromRow {
            id: 2,
            text: String::from("todo 2"),
            completed: false,
            label_id: Some(label_l.id),
            label_name: Some(label_l.name.clone()),
        },
    ];
    let res = fold_entities(rows);
    assert_eq!(
        res,
        vec![
            TodoEntity {
                id: 1,
                text: String::from("todo 1"),
                completed: false,
                labels: vec![label_l.clone(), label_2.clone()],
            },
            TodoEntity {
                id: 2,
                text: String::from("todo 2"),
                completed: false,
                labels: vec![label_l.clone()],
            },
        ]
    );
}

#[test]
fn fold_entities_of_no_rows_is_empty() {
    assert_eq!(fold_entities(vec![]), vec![]);
}

#[test]
fn fold_entities_keeps_first_row_order_and_fields() {
    let a = Label::new(7, String::from("a"));
    let b = Label::new(8, String::from("b"));
    let mut first = row(5, "five", None);
    first.completed = true;
    let rows = vec![
        first,
        row(2, "two", Some(&a)),
        row(5, "ignored text", Some(&b)),
        row(2, "two again", Some(&b)),
        row(9, "nine", None),
    ];
    let res = fold_entities(rows);
    assert_eq!(
        res,
        vec![
            TodoEntity {
                id: 5,
                text: String::from("five"),
                completed: true,
                labels: vec![b.clone()],
            },
            TodoEntity {
                id: 2,
                text: String::from("two"),
                completed: false,
                labels: vec![a.clone(), b.clone()],
            },
            TodoEntity {
                id: 9,
                text: String::from("nine"),
                completed: false,
                labels: vec![],
            },
        ]
    );
}

#[test]
fn fold_entity_with_label() {
    let l = Label::new(4, String::from("work"));
    let todo = fold_entity(row(3, "write", Some(&l)));
    assert_eq!(
        todo,
        TodoEntity {
            id: 3,
            text: String::from("write"),
            completed: false,
            labels: vec![l],
        }
    );
}

#[test]
fn fold_entity_without_label() {
    let todo = fold_entity(row(3, "write", None));
    assert_eq!(todo, TodoEntity::new(3, String::from("write")));
}

#[test]
fn find_in_rows_returns_first_todo() {
    let l = Label::new(1, String::from("x"));
    let found = find_in_rows(6, vec![row(6, "six", Some(&l)), row(6, "six", Some(&l))]);
    assert_eq!(
        found,
        Ok(TodoEntity {
            id: 6,
            text: String::from("six"),
            completed: false,
            labels: vec![l.clone(), l.clone()],
        })
    );
}

#[test]
fn find_in_rows_without_rows_is_not_found() {
    assert_eq!(find_in_rows(6, vec![]), Err(RepositoryError::NotFound(6)));
}

#[test]
fn query_failure_errors() {
    assert_eq!(
        RepositoryError::for_query_failure(4, true, String::from("no rows")),
        RepositoryError::NotFound(4)
    );
    assert_eq!(
        RepositoryError::for_query_failure(4, false, String::from("connection reset")),
        RepositoryError::Unexpected(String::from("connection reset"))
    );
}

#[test]
fn foldable_rows() {
    let l = Label::new(1, String::from("x"));
    assert!(rows_are_foldable(&vec![]));
    assert!(rows_are_foldable(&vec![row(1, "a", None), row(2, "b", Some(&l))]));
    assert!(rows_are_foldable(&vec![row(1, "a", None), row(1, "a", Some(&l))]));
    // a later row of the same todo without a label
    assert!(!rows_are_foldable(&vec![row(1, "a", Some(&l)), row(1, "a", None)]));
    // a label id without a name
    let mut nameless = row(1, "a", Some(&l));
    nameless.label_name = None;
    assert!(!rows_are_foldable(&vec![nameless]));
}

#[test]
fn fold_of_disjoint_row_lists_concatenates() {
    let l = Label::new(1, String::from("x"));
    let m = Label::new(2, String::from("y"));
    let a = vec![row(1, "a", Some(&l)), row(3, "c", None), row(1, "a", Some(&m))];
    let b = vec![row(2, "b", Some(&m)), row(4, "d", None), row(2, "b", Some(&l))];
    let mut both = a.clone();
    both.extend(b.clone());
    let mut separately = fold_entities(a);
    separately.extend(fold_entities(b));
    assert_eq!(fold_entities(both), separately);
}
