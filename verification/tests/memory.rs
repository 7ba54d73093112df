use todo_app::error::RepositoryError;
use todo_app::memory::{TodoRepository, TodoRepositoryForMemory};
use todo_app::todo::{CreateTodo, TodoEntity, UpdateTodo};

#[test]
fn todo_todo_crud_scenario() {
    let text = "todo text".to_string();
    let id = 1;
    let expected = TodoEntity::new(id, text.clone());

    // create
    let labels = vec![];

    let mut repository = TodoRepositoryForMemory::new();
    let todo = repository
        .create(CreateTodo { text, labels })
        .expect("failed create todo");
    assert_eq!(expected, todo);

    // find
    let todo = repository.find(todo.id).unwrap();
    assert_eq!(expected, todo);

    // all
    let todo = repository.all().expect("failed get all todo");
    assert_eq!(vec![expected], todo);

    // update
    let text = "update todo text".to_string();
    let todo = repository
        .update(
            1,
            UpdateTodo {
                text: Some(text.clone()),
                completed: Some(true),
                labels: Some(vec![]),
            },
        )
        .expect("failed update todo.");
    assert_eq!(
        TodoEntity {
            id,
            text,
            completed: true,
            labels: vec![],
        },
        todo
    );

    // delete
    let res = repository.delete(id);
    assert!(res.is_ok())
}

#[test]
fn find_after_create_and_delete() {
    let mut repository = TodoRepositoryForMemory::new();
    let a = repository
        .create(CreateTodo::new(String::from("a"), vec![3]))
        .unwrap();
    let b = repository
        .create(CreateTodo::new(String::from("b"), vec![]))
        .unwrap();
    assert_eq!(a, TodoEntity::new(1, String::from("a")));
    assert_eq!(b, TodoEntity::new(2, String::from("b")));
    assert_eq!(repository.len(), 2);
    assert_eq!(repository.find(1), Ok(a.clone()));
    assert_eq!(repository.delete(1), Ok(()));
    assert_eq!(repository.find(1), Err(RepositoryError::NotFound(1)));
    assert_eq!(repository.delete(1), Err(RepositoryError::NotFound(1)));
    assert_eq!(repository.find(2), Ok(b));
}

#[test]
fn create_after_delete_reuses_the_count_as_id() {
    let mut repository = TodoRepositoryForMemory::new();
    repository.create(CreateTodo::new(String::from("a"), vec![])).unwrap();
    repository.create(CreateTodo::new(String::from("b"), vec![])).unwrap();
    repository.delete(1).unwrap();
    let c = repository
        .create(CreateTodo::new(String::from("c"), vec![]))
        .unwrap();
    assert_eq!(c.id, 2);
    assert_eq!(repository.len(), 1);
    assert_eq!(repository.find(2), Ok(TodoEntity::new(2, String::from("c"))));
}

#[test]
fn update_keeps_unset_fields_and_drops_labels() {
    let mut repository = TodoRepositoryForMemory::new();
    repository.create(CreateTodo::new(String::from("keep"), vec![])).unwrap();
    let done = repository
        .update(
            1,
            UpdateTodo {
                text: None,
                completed: Some(true),
                labels: None,
            },
        )
        .unwrap();
    assert_eq!(
        done,
        TodoEntity {
            id: 1,
            text: String::from("keep"),
            completed: true,
            labels: vec![],
        }
    );
    let renamed = repository
        .update(
            1,
            UpdateTodo {
                text: Some(String::from("new")),
                completed: None,
                labels: None,
            },
        )
        .unwrap();
    assert_eq!(renamed.text, "new");
    assert!(renamed.completed);
    assert_eq!(repository.find(1), Ok(renamed));
}

#[test]
fn update_of_missing_todo_is_not_found() {
    let mut repository = TodoRepositoryForMemory::new();
    let res = repository.update(
        9,
        UpdateTodo {
            text: Some(String::from("x")),
            completed: None,
            labels: None,
        },
    );
    assert_eq!(res, Err(RepositoryError::NotFound(9)));
    assert_eq!(repository.len(), 0);
    assert_eq!(repository.all(), Ok(vec![]));
}

#[test]
fn all_lists_every_todo_once() {
    let mut repository = TodoRepositoryForMemory::new();
    for t in ["a", "b", "c"] {
        repository.create(CreateTodo::new(String::from(t), vec![])).unwrap();
    }
    let mut all = repository.all().unwrap();
    all.sort_by_key(|t| t.id);
    assert_eq!(
        all,
        vec![
            TodoEntity::new(1, String::from("a")),
            TodoEntity::new(2, String::from("b")),
            TodoEntity::new(3, String::from("c")),
        ]
    );
}

#[test]
fn merged_fields_of_update() {
    let current = TodoEntity::new(1, String::from("old"));
    let keep = UpdateTodo {
        text: None,
        completed: None,
        labels: None,
    };
    assert_eq!(keep.merged_fields(&current), (String::from("old"), false));
    let change = UpdateTodo {
        text: Some(String::from("new")),
        completed: Some(true),
        labels: None,
    };
    assert_eq!(change.merged_fields(&current), (String::from("new"), true));
}

fn create_and_read_back<T: TodoRepository>(repository: &mut T, text: &str) -> (TodoEntity, TodoEntity) {
    let created = repository
        .create(CreateTodo::new(String::from(text), vec![]))
        .unwrap();
    let found = repository.find(created.id).unwrap();
    (created, found)
}

#[test]
fn generic_repository_reads_back_what_it_created() {
    let mut repository = TodoRepositoryForMemory::new();
    let (created, found) = create_and_read_back(&mut repository, "generic");
    assert_eq!(created, found);
    assert_eq!(found.text, "generic");
    assert!(!found.completed);
}
