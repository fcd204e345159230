use book_catalog::book::{CustomFieldValue, UpdateBookPayload};
use book_catalog::catalog::{Catalog, ImportSignal, Record};
use book_catalog::error::CatalogError;
use book_catalog::listing::{thumbnail_file_name, Thumbnail};
use book_catalog::lookup::{
    AccessInfo, Availability, ImageLinks, SaleInfo, Volume, VolumeInfo, VolumesResponse,
};
use book_catalog::book::Identifier;

fn strings(items: &[&str]) -> Vec<String> {
    items.iter().map(|s| s.to_string()).collect()
}

fn field(name: &str, value: &str) -> CustomFieldValue {
    CustomFieldValue { name: name.to_string(), value: value.to_string() }
}

fn volume(id: &str, title: &str) -> Volume {
    Volume {
        id: id.to_string(),
        volume_info: VolumeInfo {
            title: title.to_string(),
            authors: None,
            publisher: None,
            published_date: None,
            description: None,
            page_count: None,
            print_type: None,
            categories: None,
            maturity_rating: None,
            language: None,
            preview_link: None,
            info_link: None,
            canonical_volume_link: None,
            image_links: None,
            industry_identifiers: None,
        },
        sale_info: None,
        access_info: None,
    }
}

fn answer(items: Vec<Volume>) -> VolumesResponse {
    VolumesResponse { items: Some(items) }
}

fn payload(id: &str, title: &str) -> UpdateBookPayload {
    UpdateBookPayload {
        volume_id: id.to_string(),
        title: title.to_string(),
        number: None,
        publisher: None,
        published_date: None,
        description: None,
        page_count: None,
        language: None,
        authors: vec![],
        groups: vec![],
        custom_fields: vec![],
    }
}

fn authors_of(c: &Catalog, id: &str) -> Vec<String> {
    let record = c.records().iter().find(|r| r.book.volume_id == id).unwrap();
    record.authors.clone()
}

#[test]
fn an_inserted_book_is_read_back_as_given() {
    let mut c = Catalog::new();
    let id = c
        .insert_book(
            "Dune",
            Some(3),
            &strings(&["Frank Herbert", "Someone Else"]),
            &strings(&["scifi", "classics"]),
            Some("Ace"),
            Some("1965"),
            Some("9780306406157"),
            &vec![field("shelf", "B2"), field("condition", "good")],
        )
        .unwrap();
    let book = c.get_book(&id).unwrap();
    assert_eq!(book.volume_id, id);
    assert_eq!(book.title, "Dune");
    assert_eq!(book.number, Some(3));
    assert_eq!(book.publisher, Some("Ace".to_string()));
    assert_eq!(book.published_date, Some("1965".to_string()));
    assert_eq!(book.description, None);
    assert_eq!(book.page_count, None);
    assert_eq!(book.language, None);
    assert_eq!(book.is_ebook, None);
    assert_eq!(book.groups, strings(&["classics", "scifi"]));
    assert_eq!(book.custom_fields.len(), 2);
    assert_eq!(book.custom_fields[0].name, "shelf");
    assert_eq!(book.custom_fields[0].value, "B2");
    assert_eq!(book.custom_fields[1].name, "condition");
    assert_eq!(book.custom_fields[1].value, "good");
    assert_eq!(authors_of(&c, &id), strings(&["Frank Herbert", "Someone Else"]));
    let record = &c.records()[0];
    assert_eq!(record.identifiers.len(), 1);
    assert_eq!(record.identifiers[0].type_, "EAN_13");
    assert_eq!(record.identifiers[0].identifier, "9780306406157");
    assert!(record.categories.is_empty());
}

#[test]
fn fresh_ids_are_hyphenated_and_differ() {
    let mut c = Catalog::new();
    let none: Vec<String> = vec![];
    let a = c.insert_book("A", None, &none, &none, None, None, None, &vec![]).unwrap();
    let b = c.insert_book("A", None, &none, &none, None, None, None, &vec![]).unwrap();
    assert_eq!(a.chars().count(), 36);
    assert_eq!(b.chars().count(), 36);
    assert_eq!(a.chars().filter(|ch| *ch == '-').count(), 4);
    assert_ne!(a, b);
    assert_eq!(c.records().len(), 2);
}

#[test]
fn an_empty_identifier_is_refused() {
    let mut c = Catalog::new();
    let none: Vec<String> = vec![];
    let r = c.insert_book("A", None, &none, &none, None, None, Some(""), &vec![]);
    assert_eq!(r, Err(CatalogError::InvalidIdentifierLength));
    assert!(c.records().is_empty());
    let r = c.insert_book_as("v1".to_string(), "A", None, &none, &none, None, None, Some(""), &vec![]);
    assert_eq!(r, Err(CatalogError::InvalidIdentifierLength));
    assert!(c.records().is_empty());
}

#[test]
fn a_book_without_identifier_has_none() {
    let mut c = Catalog::new();
    let none: Vec<String> = vec![];
    let id = c.insert_book("A", None, &none, &none, None, None, None, &vec![]).unwrap();
    assert!(c.records()[0].identifiers.is_empty());
    assert!(c.get_book(&id).is_ok());
}

#[test]
fn an_identifier_without_kind_refuses_the_book() {
    let mut c = Catalog::new();
    let none: Vec<String> = vec![];
    let r = c.insert_book("A", None, &strings(&["X"]), &none, None, None, Some("12345"), &vec![]);
    assert_eq!(r, Err(CatalogError::InvalidIdentifierLength));
    assert!(c.records().is_empty());
    assert!(c.get_all_groups().is_empty());
}

#[test]
fn a_taken_id_refuses_the_book() {
    let mut c = Catalog::new();
    let none: Vec<String> = vec![];
    assert_eq!(
        c.insert_book_as("v1".to_string(), "A", None, &none, &none, None, None, None, &vec![]),
        Ok(())
    );
    assert_eq!(
        c.insert_book_as("v1".to_string(), "B", None, &none, &none, None, None, None, &vec![]),
        Err(CatalogError::ConstraintViolation)
    );
    assert_eq!(c.records().len(), 1);
    assert_eq!(c.get_book("v1").unwrap().title, "A");
}

#[test]
fn a_group_named_twice_refuses_the_book() {
    let mut c = Catalog::new();
    let none: Vec<String> = vec![];
    let r = c.insert_book_as(
        "v1".to_string(),
        "A",
        None,
        &none,
        &strings(&["g", "g"]),
        None,
        None,
        None,
        &vec![],
    );
    assert_eq!(r, Err(CatalogError::ConstraintViolation));
    assert!(c.records().is_empty());
    let r = c.insert_book_as(
        "v1".to_string(),
        "A",
        None,
        &none,
        &none,
        None,
        None,
        None,
        &vec![field("f", "1"), field("f", "2")],
    );
    assert_eq!(r, Err(CatalogError::ConstraintViolation));
    assert!(c.records().is_empty());
    assert!(c.get_all_custom_fields().is_empty());
}

#[test]
fn an_author_named_twice_moves_to_the_later_position() {
    let mut c = Catalog::new();
    let none: Vec<String> = vec![];
    c.insert_book_as(
        "v1".to_string(),
        "A",
        None,
        &strings(&["X", "Y", "X"]),
        &none,
        None,
        None,
        None,
        &vec![],
    )
    .unwrap();
    assert_eq!(authors_of(&c, "v1"), strings(&["Y", "X"]));
}

#[test]
fn a_book_that_is_not_held_is_not_found() {
    let c = Catalog::new();
    assert_eq!(c.get_book("nope").err(), Some(CatalogError::NotFound));
}

#[test]
fn an_update_without_authors_removes_all_authors() {
    let mut c = Catalog::new();
    let none: Vec<String> = vec![];
    c.insert_book_as(
        "v1".to_string(),
        "A",
        None,
        &strings(&["X", "Y"]),
        &strings(&["g"]),
        None,
        None,
        None,
        &vec![field("f", "1")],
    )
    .unwrap();
    assert_eq!(c.update_book(payload("v1", "A2")), Ok(()));
    assert!(authors_of(&c, "v1").is_empty());
    let book = c.get_book("v1").unwrap();
    assert_eq!(book.title, "A2");
    assert!(book.groups.is_empty());
    assert!(book.custom_fields.is_empty());
    // names stay in their tables
    assert_eq!(c.get_all_groups(), strings(&["g"]));
    assert_eq!(c.get_all_custom_fields(), strings(&["f"]));
    let _ = none;
}

#[test]
fn an_update_overwrites_its_fields_and_replaces_the_lists() {
    let mut c = Catalog::new();
    c.fetch_and_store_by_isbn(&answer(vec![{
        let mut v = volume("v1", "Old");
        v.volume_info.print_type = Some("BOOK".to_string());
        v.volume_info.authors = Some(strings(&["X"]));
        v
    }]));
    let mut p = payload("v1", "New");
    p.number = Some(7);
    p.publisher = Some("P".to_string());
    p.published_date = Some("2001".to_string());
    p.description = Some("D".to_string());
    p.page_count = Some(99);
    p.language = Some("en".to_string());
    p.authors = strings(&["B", "A"]);
    p.groups = strings(&["z", "a"]);
    p.custom_fields = vec![field("k", "v")];
    assert_eq!(c.update_book(p), Ok(()));
    let book = c.get_book("v1").unwrap();
    assert_eq!(book.title, "New");
    assert_eq!(book.number, Some(7));
    assert_eq!(book.publisher, Some("P".to_string()));
    assert_eq!(book.published_date, Some("2001".to_string()));
    assert_eq!(book.description, Some("D".to_string()));
    assert_eq!(book.page_count, Some(99));
    assert_eq!(book.language, Some("en".to_string()));
    assert_eq!(book.print_type, Some("BOOK".to_string()));
    assert_eq!(book.groups, strings(&["a", "z"]));
    assert_eq!(book.custom_fields[0].value, "v");
    assert_eq!(authors_of(&c, "v1"), strings(&["B", "A"]));
}

#[test]
fn an_update_of_a_book_that_is_not_held() {
    let mut c = Catalog::new();
    assert_eq!(c.update_book(payload("v1", "A")), Ok(()));
    assert!(c.records().is_empty());
    let mut p = payload("v1", "A");
    p.authors = strings(&["X"]);
    assert_eq!(c.update_book(p), Err(CatalogError::ConstraintViolation));
    assert!(c.records().is_empty());
    let mut p = payload("v1", "A");
    p.groups = strings(&["g", "g"]);
    assert_eq!(c.update_book(p), Err(CatalogError::ConstraintViolation));
    assert!(c.get_all_groups().is_empty());
}

#[test]
fn a_copy_equals_its_source_but_for_the_id() {
    let mut c = Catalog::new();
    let mut v = volume("v1", "Saga");
    v.volume_info.authors = Some(strings(&["B", "A"]));
    v.volume_info.categories = Some(strings(&["Comics"]));
    v.volume_info.industry_identifiers = Some(vec![
        Identifier { type_: "ISBN_10".to_string(), identifier: "0306406152".to_string() },
        Identifier { type_: "ISBN_13".to_string(), identifier: "9780306406157".to_string() },
    ]);
    v.volume_info.page_count = Some(120);
    c.store_volume(&v);
    c.set_book_groups("v1", &strings(&["g2", "g1"])).unwrap();
    let mut p = payload("v1", "Saga");
    p.authors = strings(&["B", "A"]);
    p.groups = strings(&["g2", "g1"]);
    p.custom_fields = vec![field("shelf", "A1")];
    p.page_count = Some(120);
    c.update_book(p).unwrap();

    let new_id = c.clone_book("v1").unwrap();
    assert_ne!(new_id, "v1");
    assert_eq!(c.records().len(), 2);
    let source = &c.records()[0];
    let copy = &c.records()[1];
    assert_eq!(copy.book.volume_id, new_id);
    assert_eq!(copy.book.title, source.book.title);
    assert_eq!(copy.book.page_count, Some(120));
    assert_eq!(copy.authors, source.authors);
    assert_eq!(copy.authors, strings(&["B", "A"]));
    assert_eq!(copy.categories, strings(&["Comics"]));
    assert_eq!(copy.book.groups, strings(&["g1", "g2"]));
    assert_eq!(copy.identifiers.len(), 2);
    assert_eq!(copy.identifiers[1].identifier, "9780306406157");
    assert_eq!(copy.book.custom_fields[0].name, "shelf");
    assert_eq!(copy.book.custom_fields[0].value, "A1");
    assert_eq!(source.book.volume_id, "v1");
}

#[test]
fn a_copy_needs_its_source_and_a_free_id() {
    let mut c = Catalog::new();
    assert_eq!(c.clone_book("v1"), Err(CatalogError::NotFound));
    c.store_volume(&volume("v1", "A"));
    c.store_volume(&volume("v2", "B"));
    assert_eq!(c.clone_book_as("v1", "v2".to_string()), Err(CatalogError::ConstraintViolation));
    assert_eq!(c.clone_book_as("v1", "v1".to_string()), Err(CatalogError::ConstraintViolation));
    assert_eq!(c.clone_book_as("v9", "v3".to_string()), Err(CatalogError::NotFound));
    assert_eq!(c.records().len(), 2);
    assert_eq!(c.clone_book_as("v1", "v3".to_string()), Ok(()));
    assert_eq!(c.get_book("v3").unwrap().title, "A");
}

#[test]
fn an_answer_without_volumes_is_not_found_and_changes_nothing() {
    let mut c = Catalog::new();
    c.store_volume(&volume("v1", "A"));
    let r = c.fetch_isbn(&answer(vec![]));
    assert!(matches!(r, Err(CatalogError::NotFound)));
    assert_eq!(c.records().len(), 1);
    let r = c.fetch_isbn(&VolumesResponse { items: None });
    assert!(matches!(r, Err(CatalogError::NotFound)));
    assert_eq!(c.records().len(), 1);
    assert_eq!(c.fetch_and_store_by_isbn(&answer(vec![])), None);
    assert_eq!(c.get_book("v1").unwrap().title, "A");
}

#[test]
fn the_same_title_twice_signals_a_series() {
    let mut c = Catalog::new();
    let first = c.fetch_isbn(&answer(vec![volume("v1", "Spider-Man")])).unwrap();
    match first {
        ImportSignal::BookAdded(id) => assert_eq!(id, "v1"),
        ImportSignal::PossibleComic(_) => panic!("a single title is a plain addition"),
    }
    let second = c.fetch_isbn(&answer(vec![volume("v2", "Spider-Man"), volume("v3", "X")])).unwrap();
    match second {
        ImportSignal::PossibleComic(book) => {
            assert_eq!(book.volume_id, "v2");
            assert_eq!(book.title, "Spider-Man");
        }
        ImportSignal::BookAdded(_) => panic!("the same title twice is a collision"),
    }
    assert_eq!(c.records().len(), 2);
    let third = c.fetch_isbn(&answer(vec![volume("v4", "Batman")])).unwrap();
    assert!(matches!(third, ImportSignal::BookAdded(_)));
}

#[test]
fn a_title_contained_in_another_signals_a_series() {
    let mut c = Catalog::new();
    c.store_volume(&volume("v1", "The Amazing SPIDER-MAN"));
    let r = c.fetch_isbn(&answer(vec![volume("v2", "Spider-Man")])).unwrap();
    assert!(matches!(r, ImportSignal::PossibleComic(_)));
    assert!(matches!(c.import_signal("v1"), Ok(ImportSignal::BookAdded(_))));
    assert!(matches!(c.import_signal("zz"), Err(CatalogError::NotFound)));
}

#[test]
fn a_volume_maps_onto_the_fields_of_a_book() {
    let mut v = volume("g1", "Title");
    v.volume_info.publisher = Some("Pub".to_string());
    v.volume_info.published_date = Some("2020-01-01".to_string());
    v.volume_info.description = Some("Desc".to_string());
    v.volume_info.page_count = Some(321);
    v.volume_info.print_type = Some("BOOK".to_string());
    v.volume_info.maturity_rating = Some("NOT_MATURE".to_string());
    v.volume_info.language = Some("it".to_string());
    v.volume_info.preview_link = Some("p".to_string());
    v.volume_info.info_link = Some("i".to_string());
    v.volume_info.canonical_volume_link = Some("c".to_string());
    v.volume_info.image_links = Some(ImageLinks {
        small_thumbnail: Some("s.jpg".to_string()),
        thumbnail: Some("t.jpg".to_string()),
    });
    v.sale_info = Some(SaleInfo {
        country: None,
        saleability: Some("FOR_SALE".to_string()),
        is_ebook: Some(true),
    });
    v.access_info = Some(AccessInfo {
        country: Some("IT".to_string()),
        viewability: Some("PARTIAL".to_string()),
        embeddable: Some(false),
        public_domain: None,
        text_to_speech_permission: Some("ALLOWED".to_string()),
        epub: Some(Availability { is_available: Some(true) }),
        pdf: None,
        web_reader_link: Some("w".to_string()),
        access_view_status: Some("SAMPLE".to_string()),
        quote_sharing_allowed: Some(true),
    });
    let mut c = Catalog::new();
    assert_eq!(c.store_volume(&v), "g1");
    let b = c.get_book("g1").unwrap();
    assert_eq!(b.title, "Title");
    assert_eq!(b.number, None);
    assert_eq!(b.publisher, Some("Pub".to_string()));
    assert_eq!(b.published_date, Some("2020-01-01".to_string()));
    assert_eq!(b.description, Some("Desc".to_string()));
    assert_eq!(b.page_count, Some(321));
    assert_eq!(b.print_type, Some("BOOK".to_string()));
    assert_eq!(b.maturity_rating, Some("NOT_MATURE".to_string()));
    assert_eq!(b.language, Some("it".to_string()));
    assert_eq!(b.preview_link, Some("p".to_string()));
    assert_eq!(b.info_link, Some("i".to_string()));
    assert_eq!(b.canonical_link, Some("c".to_string()));
    assert_eq!(b.small_thumbnail, Some("s.jpg".to_string()));
    assert_eq!(b.thumbnail, Some("t.jpg".to_string()));
    assert_eq!(b.country, Some("IT".to_string()));
    assert_eq!(b.saleability, Some("FOR_SALE".to_string()));
    assert_eq!(b.is_ebook, Some(1));
    assert_eq!(b.viewability, Some("PARTIAL".to_string()));
    assert_eq!(b.embeddable, Some(0));
    assert_eq!(b.public_domain, Some(0));
    assert_eq!(b.text_to_speech_permission, Some("ALLOWED".to_string()));
    assert_eq!(b.epub_available, Some(1));
    assert_eq!(b.pdf_available, Some(0));
    assert_eq!(b.web_reader_link, Some("w".to_string()));
    assert_eq!(b.access_view_status, Some("SAMPLE".to_string()));
    assert_eq!(b.quote_sharing_allowed, Some(1));

    let plain = volume("g2", "Plain");
    c.store_volume(&plain);
    let b = c.get_book("g2").unwrap();
    assert_eq!(b.is_ebook, None);
    assert_eq!(b.embeddable, None);
    assert_eq!(b.country, None);
}

#[test]
fn the_country_of_the_sale_comes_first() {
    let mut v = volume("g1", "T");
    v.sale_info = Some(SaleInfo { country: Some("US".to_string()), saleability: None, is_ebook: None });
    v.access_info = Some(AccessInfo {
        country: Some("IT".to_string()),
        viewability: None,
        embeddable: None,
        public_domain: None,
        text_to_speech_permission: None,
        epub: None,
        pdf: None,
        web_reader_link: None,
        access_view_status: None,
        quote_sharing_allowed: None,
    });
    let mut c = Catalog::new();
    c.store_volume(&v);
    let b = c.get_book("g1").unwrap();
    assert_eq!(b.country, Some("US".to_string()));
    assert_eq!(b.is_ebook, Some(0));
}

#[test]
fn a_second_import_overwrites_fields_and_keeps_what_was_added_by_hand() {
    let mut c = Catalog::new();
    let mut v = volume("g1", "First");
    v.volume_info.authors = Some(strings(&["A", "B"]));
    v.volume_info.categories = Some(strings(&["Fiction"]));
    v.volume_info.publisher = Some("P1".to_string());
    v.volume_info.industry_identifiers =
        Some(vec![Identifier { type_: "ISBN_10".to_string(), identifier: "1".to_string() }]);
    c.store_volume(&v);
    c.set_book_number("g1", 5);
    c.set_book_groups("g1", &strings(&["mine"])).unwrap();

    let mut again = volume("g1", "Second");
    again.volume_info.authors = Some(strings(&["C"]));
    again.volume_info.categories = Some(strings(&["Drama", "Fiction"]));
    again.volume_info.industry_identifiers =
        Some(vec![Identifier { type_: "ISBN_10".to_string(), identifier: "1".to_string() }]);
    c.store_volume(&again);

    assert_eq!(c.records().len(), 1);
    let b = c.get_book("g1").unwrap();
    assert_eq!(b.title, "Second");
    assert_eq!(b.publisher, None);
    assert_eq!(b.number, Some(5));
    assert_eq!(b.groups, strings(&["mine"]));
    let record = &c.records()[0];
    assert_eq!(record.authors, strings(&["C"]));
    assert_eq!(record.categories, strings(&["Fiction", "Drama"]));
    assert_eq!(record.identifiers.len(), 2);

    let mut silent = volume("g1", "Third");
    silent.volume_info.authors = None;
    c.store_volume(&silent);
    assert!(c.records()[0].authors.is_empty());
    assert_eq!(c.records()[0].categories, strings(&["Fiction", "Drama"]));
    assert_eq!(c.records()[0].identifiers.len(), 2);
    assert_eq!(c.author_table(), &strings(&["A", "B", "C"]));
}

#[test]
fn the_number_of_a_book_can_be_set() {
    let mut c = Catalog::new();
    c.store_volume(&volume("v1", "A"));
    c.set_book_number("v1", 12);
    assert_eq!(c.get_book("v1").unwrap().number, Some(12));
    c.set_book_number("v2", 3);
    assert_eq!(c.records().len(), 1);
    assert_eq!(c.get_book("v1").unwrap().number, Some(12));
}

#[test]
fn groups_are_replaced_whole() {
    let mut c = Catalog::new();
    c.store_volume(&volume("v1", "A"));
    assert_eq!(c.set_book_groups("v1", &strings(&["b", "a"])), Ok(()));
    assert_eq!(c.get_book("v1").unwrap().groups, strings(&["a", "b"]));
    assert_eq!(c.set_book_groups("v1", &strings(&["c"])), Ok(()));
    assert_eq!(c.get_book("v1").unwrap().groups, strings(&["c"]));
    assert_eq!(c.get_all_groups(), strings(&["a", "b", "c"]));
    assert_eq!(c.set_book_groups("v1", &strings(&["c", "c"])), Err(CatalogError::ConstraintViolation));
    assert_eq!(c.get_book("v1").unwrap().groups, strings(&["c"]));
    assert_eq!(c.set_book_groups("v2", &strings(&["d"])), Err(CatalogError::ConstraintViolation));
    assert_eq!(c.set_book_groups("v2", &strings(&[])), Ok(()));
    assert_eq!(c.get_all_groups(), strings(&["a", "b", "c"]));
}

#[test]
fn codes_are_found_whatever_their_kind() {
    let mut c = Catalog::new();
    let none: Vec<String> = vec![];
    c.insert_book_as("v1".to_string(), "A", None, &none, &none, None, None, Some("0306406152"), &vec![])
        .unwrap();
    c.insert_book_as("v2".to_string(), "B", None, &none, &none, None, None, Some("9780306406157"), &vec![])
        .unwrap();
    c.insert_book_as("v3".to_string(), "C", None, &none, &none, None, None, Some("9780306406157"), &vec![])
        .unwrap();
    assert!(c.isbn_exists("0306406152"));
    assert!(c.isbn_exists("9780306406157"));
    assert!(!c.isbn_exists("9780306406158"));
    assert_eq!(c.find_comic_by_ean("9780306406157").unwrap().volume_id, "v2");
    assert!(c.find_comic_by_ean("0306406152").is_none());
    assert!(c.find_comic_by_ean("nothing").is_none());
}

#[test]
fn titles_are_searched_in_the_order_of_the_books() {
    let mut c = Catalog::new();
    c.store_volume(&volume("v1", "Dune Messiah"));
    c.store_volume(&volume("v2", "Emma"));
    c.store_volume(&volume("v3", "Children of DUNE"));
    let found = c.find_books_containing_title("dune");
    assert_eq!(found.len(), 2);
    assert_eq!(found[0].volume_id, "v1");
    assert_eq!(found[1].volume_id, "v3");
    assert_eq!(c.find_books_containing_title("").len(), 3);
    assert!(c.find_books_containing_title("zzz").is_empty());
}

#[test]
fn the_listing_shows_every_book_with_its_relations() {
    let mut c = Catalog::new();
    let mut v = volume("v1", "A");
    v.volume_info.authors = Some(strings(&["Y", "X"]));
    v.volume_info.industry_identifiers = Some(vec![
        Identifier { type_: "ISBN_10".to_string(), identifier: "ten".to_string() },
        Identifier { type_: "ISBN_13".to_string(), identifier: "thirteen".to_string() },
        Identifier { type_: "EAN_13".to_string(), identifier: "ean".to_string() },
    ]);
    c.store_volume(&v);
    c.store_volume(&volume("v2", "B"));
    let thumbnails = vec![
        Thumbnail { volume_id: "v2".to_string(), path: "/books/v2.jpg".to_string() },
        Thumbnail { volume_id: "v2".to_string(), path: "/other/v2.jpg".to_string() },
        Thumbnail { volume_id: "v9".to_string(), path: "/books/v9.jpg".to_string() },
    ];
    let all = c.fetch_all_books(&thumbnails);
    assert_eq!(all.len(), 2);
    assert_eq!(all[0].book.volume_id, "v1");
    let names: Vec<String> = all[0].authors.iter().map(|a| a.name.clone()).collect();
    assert_eq!(names, strings(&["Y", "X"]));
    assert_eq!(all[0].isbns, strings(&["thirteen", "ten", "ean"]));
    assert_eq!(all[0].thumbnail, None);
    assert_eq!(all[1].book.volume_id, "v2");
    assert!(all[1].isbns.is_empty());
    assert_eq!(all[1].thumbnail, Some("/books/v2.jpg".to_string()));
}

#[test]
fn cover_images_are_named_by_the_id() {
    assert_eq!(thumbnail_file_name("abc"), "abc.jpg");
}

#[test]
fn a_catalog_is_assembled_from_parts_that_keep_the_rules() {
    let mut c = Catalog::new();
    let mut v = volume("v1", "A");
    v.volume_info.authors = Some(strings(&["X"]));
    v.volume_info.categories = Some(strings(&["Fiction"]));
    c.store_volume(&v);
    c.set_book_groups("v1", &strings(&["b", "a"])).unwrap();
    assert!(c.is_valid());
    let records: Vec<Record> = c.records().clone();
    let again = Catalog::from_parts(
        records.clone(),
        c.author_table().clone(),
        c.category_table().clone(),
        c.group_table().clone(),
        c.custom_field_table().clone(),
    )
    .ok()
    .unwrap();
    assert_eq!(again.get_book("v1").unwrap().groups, strings(&["a", "b"]));
    assert_eq!(again.group_table(), &strings(&["b", "a"]));

    // a group that is in no table
    let r = Catalog::from_parts(
        records.clone(),
        c.author_table().clone(),
        c.category_table().clone(),
        strings(&["a"]),
        vec![],
    );
    assert_eq!(r.err(), Some(CatalogError::ConstraintViolation));

    // the same book twice
    let mut twice = records.clone();
    twice.push(records[0].clone());
    let r = Catalog::from_parts(
        twice,
        c.author_table().clone(),
        c.category_table().clone(),
        c.group_table().clone(),
        vec![],
    );
    assert_eq!(r.err(), Some(CatalogError::ConstraintViolation));

    // groups out of order
    let mut unordered = records.clone();
    unordered[0].book.groups = strings(&["b", "a"]);
    let r = Catalog::from_parts(
        unordered,
        c.author_table().clone(),
        c.category_table().clone(),
        c.group_table().clone(),
        vec![],
    );
    assert_eq!(r.err(), Some(CatalogError::ConstraintViolation));

    // a name twice in a table
    let r = Catalog::from_parts(vec![], strings(&["X", "X"]), vec![], vec![], vec![]);
    assert_eq!(r.err(), Some(CatalogError::ConstraintViolation));
}

#[test]
fn a_copy_has_no_cover_image_of_its_own() {
    let mut c = Catalog::new();
    c.store_volume(&volume("v1", "A"));
    c.clone_book_as("v1", "v2".to_string()).unwrap();
    let thumbnails = vec![Thumbnail { volume_id: "v1".to_string(), path: "/books/v1.jpg".to_string() }];
    let all = c.fetch_all_books(&thumbnails);
    assert_eq!(all.len(), 2);
    assert_eq!(all[0].thumbnail, Some("/books/v1.jpg".to_string()));
    assert_eq!(all[1].book.volume_id, "v2");
    assert_eq!(all[1].book.title, "A");
    assert_eq!(all[1].thumbnail, None);
}

#[test]
fn an_import_replaces_the_authors_whole() {
    let mut c = Catalog::new();
    let mut v = volume("g1", "T");
    v.volume_info.authors = Some(strings(&["A", "B"]));
    c.store_volume(&v);
    assert_eq!(c.records()[0].authors, strings(&["A", "B"]));

    let r = c.fetch_and_store_by_isbn(&answer(vec![volume("g1", "T")]));
    assert_eq!(r, Some("g1".to_string()));
    assert!(c.records()[0].authors.is_empty());

    let mut empty = volume("g1", "T");
    empty.volume_info.authors = Some(vec![]);
    v.volume_info.authors = Some(strings(&["B", "A", "B"]));
    c.store_volume(&v);
    assert_eq!(c.records()[0].authors, strings(&["A", "B"]));
    c.store_volume(&empty);
    assert!(c.records()[0].authors.is_empty());
}
