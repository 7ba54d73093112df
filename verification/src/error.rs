use vstd::prelude::*;

verus! {

/// The errors that a todo repository reports.
#[derive(Debug, Clone, PartialEq, Eq)]
pub enum RepositoryError {
    /// Something went wrong that the repository does not classify; the text describes it.
    Unexpected(String),
    /// No todo has the given id.
    NotFound(i32),
}

impl RepositoryError {
    /// The error for a failed query about the todo `id`: `NotFound(id)` when the
    /// query found no row, otherwise `Unexpected` with the failure's description.
    pub fn for_query_failure(id: i32, row_not_found: bool, description: String) -> (e: RepositoryError)
        ensures
            row_not_found ==> e == RepositoryError::NotFound(id),
            !row_not_found ==> (e matches RepositoryError::Unexpected(d) && d@ == description@),
    {
        if row_not_found {
            RepositoryError::NotFound(id)
        } else {
            RepositoryError::Unexpected(description)
        }
    }
}

} // verus!
