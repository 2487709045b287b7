//! The decisions between the pipeline's stages: judging the catalog
//! reply, validating one-based menu choices, naming each stage's failure,
//! and joining the reported output folder onto the download root.
use vstd::prelude::*;

verus! {

/// An out-of-range user choice.
#[derive(Debug, PartialEq, Eq, Clone, Copy)]
pub enum SelectionError {
    InvalidSelection,
}

/// What went wrong before a transfer could start.
#[derive(Debug, PartialEq, Eq, Clone, Copy)]
pub enum SearchError {
    SearchFailed,
    NoMoviesFound,
    NoVariantsFound,
}

/// How a transfer failed: the engine session could not be opened, the
/// descriptor was rejected on submission, or the wait for completion
/// ended in an I/O error.
#[derive(Debug, PartialEq, Eq, Clone, Copy)]
pub enum TransferError {
    SessionFailed,
    SubmissionFailed,
    IoFailed,
}

/// Judges the catalog's reply: a non-ok status fails the search, an
/// absent or empty movie list finds no movies, and anything else yields
/// the number of movies listed.
pub fn search_outcome(status_ok: bool, movie_count: Option<usize>) -> (r: Result<
    usize,
    SearchError,
>)
    ensures
        !status_ok ==> r == Err::<usize, SearchError>(SearchError::SearchFailed),
        status_ok && (movie_count is None || movie_count == Some(0usize)) ==> r == Err::<
            usize,
            SearchError,
        >(SearchError::NoMoviesFound),
        status_ok && (movie_count matches Some(n) && n > 0) ==> r == Ok::<usize, SearchError>(
            movie_count->0,
        ),
{
    if !status_ok {
        Err(SearchError::SearchFailed)
    } else {
        match movie_count {
            None => Err(SearchError::NoMoviesFound),
            Some(n) => if n == 0 {
                Err(SearchError::NoMoviesFound)
            } else {
                Ok(n)
            },
        }
    }
}

/// Checks that the chosen movie offers at least one download variant.
pub fn check_variants(count: usize) -> (r: Result<(), SearchError>)
    ensures
        count == 0 ==> r == Err::<(), SearchError>(SearchError::NoVariantsFound),
        count > 0 ==> r == Ok::<(), SearchError>(()),
{
    if count == 0 {
        Err(SearchError::NoVariantsFound)
    } else {
        Ok(())
    }
}

/// Turns a one-based menu choice into a zero-based index, rejecting zero
/// and anything past the end of the list, so a selection can never index
/// out of bounds.
pub fn validate_selection(len: usize, choice: usize) -> (r: Result<usize, SelectionError>)
    ensures
        1 <= choice <= len ==> r == Ok::<usize, SelectionError>((choice - 1) as usize),
        !(1 <= choice <= len) ==> r == Err::<usize, SelectionError>(
            SelectionError::InvalidSelection,
        ),
        r matches Ok(i) ==> i < len,
{
    if choice >= 1 && choice <= len {
        Ok(choice - 1)
    } else {
        Err(SelectionError::InvalidSelection)
    }
}

/// Joins the transfer's reported root folder name onto the download root.
pub fn join_path(root: &str, folder: &str) -> (r: String)
    ensures
        r@ == root@ + "/"@ + folder@,
{
    let mut out = String::from_str(root);
    out.append("/");
    out.append(folder);
    out
}

} // verus!
