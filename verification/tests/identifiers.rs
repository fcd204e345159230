use book_catalog::error::CatalogError;
use book_catalog::identifier::{classify, get_identifier_type, is_ean13, IdentifierKind};
use book_catalog::names::{all_distinct, ascending, place, within};
use book_catalog::settings::AppSettings;
use book_catalog::text::{contains_ignoring_case, join, sorted_order, text_precedes};

fn list(items: &[&str]) -> Vec<String> {
    items.iter().map(|s| s.to_string()).collect()
}

#[test]
fn ten_digits_are_an_isbn_10() {
    assert_eq!(get_identifier_type("0306406152"), Ok("ISBN_10"));
    assert_eq!(classify("0306406152"), Ok(IdentifierKind::Isbn10));
}

#[test]
fn thirteen_digits_with_checksum_are_an_ean_13() {
    assert_eq!(get_identifier_type("9780306406157"), Ok("EAN_13"));
    assert_eq!(classify("9780306406157"), Ok(IdentifierKind::Ean13));
    assert!(is_ean13("9780306406157"));
}

#[test]
fn thirteen_digits_without_checksum_are_an_isbn_13() {
    assert_eq!(get_identifier_type("9780306406158"), Ok("ISBN_13"));
    assert_eq!(classify("9780306406158"), Ok(IdentifierKind::Isbn13));
    assert!(!is_ean13("9780306406158"));
}

#[test]
fn other_digit_counts_are_rejected() {
    assert_eq!(get_identifier_type("123"), Err(CatalogError::InvalidIdentifierLength));
    assert_eq!(get_identifier_type(""), Err(CatalogError::InvalidIdentifierLength));
    assert_eq!(get_identifier_type("12345678901"), Err(CatalogError::InvalidIdentifierLength));
    assert_eq!(get_identifier_type("97803064061570"), Err(CatalogError::InvalidIdentifierLength));
    assert_eq!(classify("no digits"), Err(CatalogError::InvalidIdentifierLength));
}

#[test]
fn only_digits_count() {
    assert_eq!(get_identifier_type("978-0-306-40615-7"), Ok("EAN_13"));
    assert_eq!(get_identifier_type("ISBN 0-306-40615-2"), Ok("ISBN_10"));
    assert!(is_ean13("978 0306 406157"));
}

#[test]
fn check_digit_zero_is_recognised() {
    // 4 0 0 6 3 8 1 3 3 3 9 3: weighted sum 89, check digit 1
    assert!(is_ean13("4006381333931"));
    // weighted sum of 1 2 3 4 5 6 7 8 9 0 1 2 is 92, check digit 8
    assert!(is_ean13("1234567890128"));
    assert!(!is_ean13("1234567890123"));
    // all zeros: sum 0, check digit 0
    assert!(is_ean13("0000000000000"));
}

#[test]
fn is_ean13_needs_thirteen_digits() {
    assert!(!is_ean13("0306406152"));
    assert!(!is_ean13(""));
}

#[test]
fn kinds_have_their_stored_names() {
    assert_eq!(IdentifierKind::Isbn10.as_str(), "ISBN_10");
    assert_eq!(IdentifierKind::Isbn13.as_str(), "ISBN_13");
    assert_eq!(IdentifierKind::Ean13.as_str(), "EAN_13");
    assert_eq!(IdentifierKind::Unknown.as_str(), "UNKNOWN");
}

#[test]
fn search_ignores_letter_case() {
    assert!(contains_ignoring_case("The Hobbit", "hobbit"));
    assert!(contains_ignoring_case("the hobbit", "HOB"));
    assert!(contains_ignoring_case("abc", ""));
    assert!(contains_ignoring_case("", ""));
    assert!(contains_ignoring_case("abc", "abc"));
    assert!(!contains_ignoring_case("abc", "abcd"));
    assert!(!contains_ignoring_case("The Hobbit", "rabbit"));
    assert!(contains_ignoring_case("xxabc", "ABC"));
}

#[test]
fn texts_are_ordered_by_character() {
    assert!(text_precedes("a", "b"));
    assert!(text_precedes("a", "ab"));
    assert!(text_precedes("", "a"));
    assert!(text_precedes("B", "a"));
    assert!(!text_precedes("b", "a"));
    assert!(!text_precedes("a", "a"));
    assert!(!text_precedes("ab", "a"));
}

#[test]
fn join_puts_the_separator_between_parts() {
    assert_eq!(join(&list(&[]), "; "), "");
    assert_eq!(join(&list(&["a"]), "; "), "a");
    assert_eq!(join(&list(&["a", "b", "c"]), "; "), "a; b; c");
}

#[test]
fn sorted_order_keeps_equal_keys_in_place() {
    assert_eq!(sorted_order(&list(&["b", "a", "b", "a"])), vec![1, 3, 0, 2]);
    assert_eq!(sorted_order(&list(&[])), Vec::<usize>::new());
    assert_eq!(sorted_order(&list(&["c", "b", "a"])), vec![2, 1, 0]);
}

#[test]
fn a_name_given_again_moves_to_its_later_place() {
    assert_eq!(place(&list(&["A", "B", "A"])), list(&["B", "A"]));
    assert_eq!(place(&list(&["A", "B", "C"])), list(&["A", "B", "C"]));
    assert_eq!(place(&list(&[])), list(&[]));
}

#[test]
fn repeated_names_are_noticed() {
    assert!(all_distinct(&list(&["a", "b"])));
    assert!(all_distinct(&list(&[])));
    assert!(!all_distinct(&list(&["a", "b", "a"])));
}

#[test]
fn ascending_lists_are_recognised() {
    assert!(ascending(&list(&[])));
    assert!(ascending(&list(&["a"])));
    assert!(ascending(&list(&["a", "b", "c"])));
    assert!(!ascending(&list(&["a", "a"])));
    assert!(!ascending(&list(&["a", "c", "b"])));
}

#[test]
fn names_are_looked_up_in_a_table() {
    assert!(within(&list(&["a", "b"]), &list(&["b", "c", "a"])));
    assert!(within(&list(&[]), &list(&[])));
    assert!(!within(&list(&["a", "d"]), &list(&["b", "c", "a"])));
}

#[test]
fn a_missing_key_is_a_configuration_error() {
    let settings = AppSettings::default();
    assert_eq!(settings.api_key(), Err(CatalogError::ConfigurationMissing));
    let settings = AppSettings { google_books_api_key: Some("k".to_string()) };
    assert_eq!(settings.api_key(), Ok("k".to_string()));
}

#[test]
fn errors_say_what_went_wrong() {
    assert_eq!(CatalogError::InvalidIdentifierLength.message(), "Invalid identifier length");
    assert_eq!(
        CatalogError::ConfigurationMissing.message(),
        "Google Books API key not configured"
    );
    assert_eq!(
        CatalogError::LookupFailed("timeout".to_string()).message(),
        "Failed to import book: timeout"
    );
    assert_eq!(CatalogError::NotFound.message(), "No results found");
    assert_eq!(CatalogError::ConstraintViolation.message(), "Constraint violated");
    assert_eq!(CatalogError::IoFailure("disk full".to_string()).message(), "File error: disk full");
}
