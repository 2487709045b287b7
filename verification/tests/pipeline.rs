use mover::keys::keybindings;
use mover::pipeline::{
    check_variants, join_path, search_outcome, validate_selection, SearchError, SelectionError,
};

#[test]
fn selection_zero_is_invalid() {
    assert_eq!(
        validate_selection(5, 0),
        Err(SelectionError::InvalidSelection)
    );
}

#[test]
fn selection_past_the_end_is_invalid() {
    assert_eq!(
        validate_selection(5, 6),
        Err(SelectionError::InvalidSelection)
    );
    assert_eq!(
        validate_selection(0, 1),
        Err(SelectionError::InvalidSelection)
    );
}

#[test]
fn selection_in_range_maps_to_zero_based_index() {
    assert_eq!(validate_selection(5, 1), Ok(0));
    assert_eq!(validate_selection(5, 5), Ok(4));
}

#[test]
fn non_ok_status_fails_the_search() {
    assert_eq!(search_outcome(false, Some(3)), Err(SearchError::SearchFailed));
}

#[test]
fn missing_or_empty_movie_list_finds_no_movies() {
    assert_eq!(search_outcome(true, None), Err(SearchError::NoMoviesFound));
    assert_eq!(search_outcome(true, Some(0)), Err(SearchError::NoMoviesFound));
}

#[test]
fn movies_found_yields_their_count() {
    assert_eq!(search_outcome(true, Some(12)), Ok(12));
}

#[test]
fn variantless_movie_is_rejected() {
    assert_eq!(check_variants(0), Err(SearchError::NoVariantsFound));
    assert_eq!(check_variants(2), Ok(()));
}

#[test]
fn join_path_inserts_one_separator() {
    assert_eq!(join_path("/downloads", "Movie.2020"), "/downloads/Movie.2020");
}

#[test]
fn keybindings_cover_the_fixed_table() {
    let b = keybindings();
    assert_eq!(b.len(), 17);
    assert_eq!(b[0], "\"ESC\" \"quit\"");
    assert_eq!(b[1], "\"SPACE\" \"cycle pause\"");
    assert_eq!(b[12], "\"CTRL+LEFT\" \"seek -10\"");
    assert_eq!(b[16], "\"f\" \"cycle fullscreen\"");
}
