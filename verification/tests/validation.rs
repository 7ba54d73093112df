use todo_app::todo::{CreateTodo, UpdateTodo};
use todo_app::validation::{TextValidationError, TEXT_MAX_CHARS, TEXT_MIN_CHARS};

#[test]
fn create_payload_bounds() {
    assert_eq!(TEXT_MIN_CHARS, 1);
    assert_eq!(TEXT_MAX_CHARS, 100);
    let empty = CreateTodo::new(String::new(), vec![]);
    assert_eq!(empty.validate(), Err(TextValidationError::Empty));
    let one = CreateTodo::new(String::from("a"), vec![1]);
    assert_eq!(one.validate(), Ok(()));
    let hundred = CreateTodo::new("x".repeat(100), vec![]);
    assert_eq!(hundred.validate(), Ok(()));
    let too_long = CreateTodo::new("x".repeat(101), vec![]);
    assert_eq!(too_long.validate(), Err(TextValidationError::TooLong));
}

#[test]
fn create_payload_counts_chars_not_bytes() {
    // 100 three-byte characters: 300 bytes, but within the bound.
    let wide = CreateTodo::new("日".repeat(100), vec![]);
    assert_eq!(wide.validate(), Ok(()));
    let wider = CreateTodo::new("日".repeat(101), vec![]);
    assert_eq!(wider.validate(), Err(TextValidationError::TooLong));
}

#[test]
fn update_payload_bounds() {
    let nothing = UpdateTodo {
        text: None,
        completed: Some(true),
        labels: None,
    };
    assert_eq!(nothing.validate(), Ok(()));
    let empty = UpdateTodo {
        text: Some(String::new()),
        completed: None,
        labels: None,
    };
    assert_eq!(empty.validate(), Err(TextValidationError::Empty));
    let long = UpdateTodo {
        text: Some("y".repeat(101)),
        completed: None,
        labels: Some(vec![]),
    };
    assert_eq!(long.validate(), Err(TextValidationError::TooLong));
}

#[test]
fn validation_messages() {
    assert_eq!(TextValidationError::Empty.message(), "Can not be empty");
    assert_eq!(TextValidationError::TooLong.message(), "Over text length");
}
