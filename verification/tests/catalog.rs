use watchlist::catalog::Catalog;
use watchlist::error::ServiceError;
use watchlist::movie::NewMovie;
use watchlist::query::PaginationAndSorting;

fn item(title: &str) -> NewMovie {
    NewMovie {
        title: title.to_string(),
        genre: None,
        release_year: None,
        rating: None,
        watched: None,
    }
}

fn page(sort_by: Option<&str>, order: Option<&str>, limit: Option<usize>, page: Option<usize>)
    -> PaginationAndSorting {
    PaginationAndSorting {
        sort_by: sort_by.map(|s| s.to_string()),
        order: order.map(|s| s.to_string()),
        limit,
        page,
    }
}

#[test]
fn add_then_listed_once_with_supplied_fields() {
    let mut c = Catalog::new();
    let added = NewMovie {
        title: "Heat".to_string(),
        genre: Some("crime".to_string()),
        release_year: Some(1995),
        rating: Some(875),
        watched: None,
    };
    let id = c.add(added).unwrap();

    let listed = c.list(&page(None, None, None, None));
    assert_eq!(listed.len(), 1);
    assert_eq!(listed[0].id, id);
    assert_eq!(listed[0].title, "Heat");
    assert_eq!(listed[0].genre.as_deref(), Some("crime"));
    assert_eq!(listed[0].release_year, Some(1995));
    assert_eq!(listed[0].rating, Some(875));
    assert!(!listed[0].watched);

    let unwatched = c.list_by_status(false);
    assert_eq!(unwatched.len(), 1);
    assert_eq!(unwatched[0].id, id);
    assert_eq!(c.list_by_status(true).len(), 0);
}

#[test]
fn empty_title_is_rejected_without_a_visible_row() {
    let mut c = Catalog::new();
    assert_eq!(c.add(item("")), Err(ServiceError::InvalidInput));
    assert_eq!(c.list(&page(None, None, None, None)).len(), 0);
    assert_eq!(c.list_by_status(false).len(), 0);
}

#[test]
fn mark_watched_twice_is_idempotent() {
    let mut c = Catalog::new();
    let id = c.add(item("Ran")).unwrap();

    assert_eq!(c.mark_watched(id, true), Ok(()));
    let after_once: Vec<_> =
        c.list(&page(None, None, None, None)).into_iter().map(|m| (m.id, m.watched)).collect();

    assert_eq!(c.mark_watched(id, true), Ok(()));
    let after_twice: Vec<_> =
        c.list(&page(None, None, None, None)).into_iter().map(|m| (m.id, m.watched)).collect();

    assert_eq!(after_once, after_twice);
    assert_eq!(c.list_by_status(true).len(), 1);
    assert_eq!(c.list_by_status(false).len(), 0);
}

#[test]
fn mark_watched_unknown_id_is_not_found() {
    let mut c = Catalog::new();
    let id = c.add(item("Alien")).unwrap();
    assert_eq!(c.mark_watched(id.wrapping_add(1), true), Err(ServiceError::NotFound));
    assert!(!c.list_by_status(false).is_empty());
}

#[test]
fn delete_then_delete_again_is_ack_then_not_found() {
    let mut c = Catalog::new();
    let id = c.add(item("Solaris")).unwrap();
    assert_eq!(c.delete(id), Ok(()));
    assert_eq!(c.delete(id), Err(ServiceError::NotFound));
    assert_eq!(c.list(&page(None, None, None, None)).len(), 0);
}

#[test]
fn racing_update_and_delete_leave_one_clean_outcome() {
    // Update commits first: the delete still removes the row.
    let mut c = Catalog::new();
    let id = c.add(item("Stalker")).unwrap();
    assert_eq!(c.mark_watched(id, true), Ok(()));
    assert_eq!(c.delete(id), Ok(()));
    assert_eq!(c.list(&page(None, None, None, None)).len(), 0);

    // Delete commits first: the update observes NotFound.
    let mut c = Catalog::new();
    let id = c.add(item("Stalker")).unwrap();
    assert_eq!(c.delete(id), Ok(()));
    assert_eq!(c.mark_watched(id, true), Err(ServiceError::NotFound));
    assert_eq!(c.list(&page(None, None, None, None)).len(), 0);
}

#[test]
fn listing_sorts_titles_ascending_by_default() {
    let mut c = Catalog::new();
    c.add(item("banana")).unwrap();
    c.add(item("cherry")).unwrap();
    c.add(item("apple")).unwrap();

    let titles: Vec<String> = c
        .list(&page(Some("title"), Some("asc"), None, None))
        .into_iter()
        .map(|m| m.title)
        .collect();
    assert_eq!(titles, vec!["apple", "banana", "cherry"]);

    let default_titles: Vec<String> =
        c.list(&page(None, None, None, None)).into_iter().map(|m| m.title).collect();
    assert_eq!(default_titles, vec!["apple", "banana", "cherry"]);

    let desc_titles: Vec<String> = c
        .list(&page(Some("title"), Some("desc"), None, None))
        .into_iter()
        .map(|m| m.title)
        .collect();
    assert_eq!(desc_titles, vec!["cherry", "banana", "apple"]);
}

#[test]
fn unrecognized_sort_values_fall_back_to_the_default() {
    let mut c = Catalog::new();
    c.add(item("banana")).unwrap();
    c.add(item("apple")).unwrap();

    // A hostile sort key never reaches the query shape; it sorts as the
    // default (title ascending) instead.
    let titles: Vec<String> = c
        .list(&page(Some("title; DROP TABLE movies"), Some("sideways"), None, None))
        .into_iter()
        .map(|m| m.title)
        .collect();
    assert_eq!(titles, vec!["apple", "banana"]);
}

#[test]
fn listing_sorts_by_year_rating_and_watched() {
    let mut c = Catalog::new();
    let mut with_year = item("b");
    with_year.release_year = Some(1999);
    with_year.rating = Some(700);
    c.add(with_year).unwrap();
    let mut older = item("a");
    older.release_year = Some(1950);
    older.rating = Some(900);
    c.add(older).unwrap();
    let mut no_year = item("c");
    no_year.watched = Some(true);
    c.add(no_year).unwrap();

    let by_year: Vec<String> = c
        .list(&page(Some("release_year"), None, None, None))
        .into_iter()
        .map(|m| m.title)
        .collect();
    // Absent years sort last in ascending order.
    assert_eq!(by_year, vec!["a", "b", "c"]);

    let by_rating: Vec<String> = c
        .list(&page(Some("rating"), Some("desc"), None, None))
        .into_iter()
        .map(|m| m.title)
        .collect();
    // Descending: absent ratings come first, then high to low.
    assert_eq!(by_rating, vec!["c", "a", "b"]);

    let by_watched: Vec<String> = c
        .list(&page(Some("watched"), None, None, None))
        .into_iter()
        .map(|m| m.title)
        .collect();
    // Unwatched (false) sorts before watched (true); ties keep no promise,
    // but here the unwatched pair is ordered by nothing else, so only the
    // last element is pinned.
    assert_eq!(by_watched[2], "c");
}

#[test]
fn second_page_of_size_one_returns_the_second_item() {
    let mut c = Catalog::new();
    c.add(item("alpha")).unwrap();
    c.add(item("beta")).unwrap();

    let second = c.list(&page(Some("title"), Some("asc"), Some(1), Some(2)));
    assert_eq!(second.len(), 1);
    assert_eq!(second[0].title, "beta");
}

#[test]
fn a_page_past_the_end_is_empty_not_an_error() {
    let mut c = Catalog::new();
    c.add(item("only")).unwrap();
    let far = c.list(&page(None, None, Some(10), Some(100)));
    assert_eq!(far.len(), 0);
}

#[test]
fn page_below_one_is_clamped_to_the_first_page() {
    let mut c = Catalog::new();
    c.add(item("alpha")).unwrap();
    c.add(item("beta")).unwrap();
    let first = c.list(&page(Some("title"), None, Some(1), Some(0)));
    assert_eq!(first.len(), 1);
    assert_eq!(first[0].title, "alpha");
}

#[test]
fn inserting_a_taken_id_is_a_store_level_failure() {
    let mut c = Catalog::new();
    assert_eq!(c.insert(42, item("first")), Ok(42));
    assert_eq!(c.insert(42, item("second")), Err(ServiceError::StoreUnavailable));
    // The failed insert left nothing behind.
    let listed = c.list(&page(None, None, None, None));
    assert_eq!(listed.len(), 1);
    assert_eq!(listed[0].title, "first");
}

#[test]
fn generated_ids_are_distinct() {
    let mut c = Catalog::new();
    let a = c.add(item("one")).unwrap();
    let b = c.add(item("two")).unwrap();
    assert_ne!(a, b);
    assert_eq!(c.list(&page(None, None, None, None)).len(), 2);
}
