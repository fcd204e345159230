use book_catalog::book::{CustomFieldValue, Identifier, UpdateBookPayload};
use book_catalog::catalog::Catalog;
use book_catalog::export::{export_header, export_row};
use book_catalog::lookup::{SaleInfo, Volume, VolumeInfo};
use book_catalog::numeral::decimal;

const FIXED: &str = "volume_id,title,number,authors,categories,identifiers,groups,publisher,\
published_date,description,page_count,print_type,maturity_rating,language,preview_link,\
info_link,canonical_link,small_thumbnail,thumbnail,country,saleability,is_ebook,viewability,\
embeddable,public_domain,text_to_speech_permission,epub_available,pdf_available,\
web_reader_link,access_view_status,quote_sharing_allowed";

fn names(items: &[&str]) -> Vec<String> {
    items.iter().map(|s| s.to_string()).collect()
}

fn simple(id: &str, title: &str) -> Volume {
    Volume {
        id: id.to_string(),
        volume_info: VolumeInfo {
            title: title.to_string(),
            authors: None,
            publisher: None,
            published_date: None,
            description: None,
            page_count: None,
            print_type: None,
            categories: None,
            maturity_rating: None,
            language: None,
            preview_link: None,
            info_link: None,
            canonical_volume_link: None,
            image_links: None,
            industry_identifiers: None,
        },
        sale_info: None,
        access_info: None,
    }
}

fn with_fields(c: &mut Catalog, id: &str, title: &str, fields: &[(&str, &str)]) {
    let none: Vec<String> = vec![];
    let fields: Vec<CustomFieldValue> = fields
        .iter()
        .map(|(n, v)| CustomFieldValue { name: n.to_string(), value: v.to_string() })
        .collect();
    c.insert_book_as(id.to_string(), title, None, &none, &none, None, None, None, &fields).unwrap();
}

#[test]
fn the_header_has_the_fixed_columns_then_the_custom_fields() {
    let header = export_header(&names(&["shelf", "state"]));
    assert_eq!(header.len(), 33);
    assert_eq!(header.join(","), format!("{},shelf,state", FIXED));
    assert_eq!(export_header(&names(&[])).join(","), FIXED);
}

#[test]
fn an_empty_catalog_exports_its_header() {
    let c = Catalog::new();
    let table = c.export_table();
    assert_eq!(table.len(), 1);
    assert_eq!(table[0].len(), 31);
    let bytes = c.export_books_to_csv().unwrap();
    assert_eq!(String::from_utf8(bytes).unwrap(), format!("{}\n", FIXED));
}

#[test]
fn rows_come_by_ascending_title_with_a_column_per_custom_field() {
    let mut c = Catalog::new();
    with_fields(&mut c, "v1", "Zebra", &[("shelf", "A")]);
    with_fields(&mut c, "v2", "Apple", &[("state", "new"), ("shelf", "B")]);
    with_fields(&mut c, "v3", "Mango", &[]);
    with_fields(&mut c, "v4", "Apple", &[]);
    let table = c.export_table();
    assert_eq!(table.len(), 5);
    assert_eq!(table[0][31..].to_vec(), names(&["shelf", "state"]));
    let ids: Vec<String> = table[1..].iter().map(|r| r[0].clone()).collect();
    assert_eq!(ids, names(&["v2", "v4", "v3", "v1"]));
    let titles: Vec<String> = table[1..].iter().map(|r| r[1].clone()).collect();
    assert_eq!(titles, names(&["Apple", "Apple", "Mango", "Zebra"]));
    for row in &table {
        assert_eq!(row.len(), 33);
    }
    assert_eq!(table[1][31..].to_vec(), names(&["B", "new"]));
    assert_eq!(table[2][31..].to_vec(), names(&["", ""]));
    assert_eq!(table[3][31..].to_vec(), names(&["", ""]));
    assert_eq!(table[4][31..].to_vec(), names(&["A", ""]));
}

#[test]
fn a_custom_field_that_no_book_uses_any_more_keeps_its_column() {
    let mut c = Catalog::new();
    with_fields(&mut c, "v1", "A", &[("old", "x")]);
    c.update_book(UpdateBookPayload {
        volume_id: "v1".to_string(),
        title: "A".to_string(),
        number: None,
        publisher: None,
        published_date: None,
        description: None,
        page_count: None,
        language: None,
        authors: vec![],
        groups: vec![],
        custom_fields: vec![],
    })
    .unwrap();
    let table = c.export_table();
    assert_eq!(table[0][31..].to_vec(), names(&["old"]));
    assert_eq!(table[1][31..].to_vec(), names(&[""]));
}

#[test]
fn a_row_writes_lists_joined_and_numbers_in_decimal() {
    let mut c = Catalog::new();
    let mut v = simple("v1", "Title");
    v.volume_info.authors = Some(names(&["A One", "B Two"]));
    v.volume_info.categories = Some(names(&["Fiction", "Drama"]));
    v.volume_info.industry_identifiers = Some(vec![
        Identifier { type_: "ISBN_10".to_string(), identifier: "0306406152".to_string() },
        Identifier { type_: "ISBN_13".to_string(), identifier: "9780306406157".to_string() },
    ]);
    v.volume_info.page_count = Some(1042);
    v.volume_info.publisher = Some("Pub".to_string());
    v.sale_info = Some(SaleInfo { country: None, saleability: None, is_ebook: Some(true) });
    c.store_volume(&v);
    c.set_book_number("v1", -7);
    c.set_book_groups("v1", &names(&["g2", "g1"])).unwrap();
    let row = export_row(&c.records()[0], &names(&["shelf"]));
    assert_eq!(row.len(), 32);
    assert_eq!(row[0], "v1");
    assert_eq!(row[1], "Title");
    assert_eq!(row[2], "-7");
    assert_eq!(row[3], "A One; B Two");
    assert_eq!(row[4], "Fiction; Drama");
    assert_eq!(row[5], "ISBN_10:0306406152; ISBN_13:9780306406157");
    assert_eq!(row[6], "g1; g2");
    assert_eq!(row[7], "Pub");
    assert_eq!(row[8], "");
    assert_eq!(row[10], "1042");
    assert_eq!(row[21], "1");
    assert_eq!(row[23], "");
    assert_eq!(row[31], "");
}

#[test]
fn numbers_at_the_ends_of_their_range_are_written_out() {
    let mut c = Catalog::new();
    c.store_volume(&simple("v1", "T"));
    c.set_book_number("v1", i64::MIN);
    assert_eq!(export_row(&c.records()[0], &vec![])[2], "-9223372036854775808");
    c.set_book_number("v1", i64::MAX);
    assert_eq!(export_row(&c.records()[0], &vec![])[2], "9223372036854775807");
    c.set_book_number("v1", 0);
    assert_eq!(export_row(&c.records()[0], &vec![])[2], "0");
    c.set_book_number("v1", 10);
    assert_eq!(export_row(&c.records()[0], &vec![])[2], "10");
}

#[test]
fn the_export_is_written_as_csv() {
    let mut c = Catalog::new();
    with_fields(&mut c, "v2", "B, the second", &[("note", "say \"hi\"")]);
    with_fields(&mut c, "v1", "A", &[]);
    let text = String::from_utf8(c.export_books_to_csv().unwrap()).unwrap();
    let empty = ",".repeat(28);
    let expected = format!(
        "{},note\nv1,A,{},\nv2,\"B, the second\",{},\"say \"\"hi\"\"\"\n",
        FIXED, empty, empty
    );
    assert_eq!(text, expected);
}

#[test]
fn numerals_are_decimal() {
    assert_eq!(decimal(0), "0");
    assert_eq!(decimal(7), "7");
    assert_eq!(decimal(10), "10");
    assert_eq!(decimal(-1), "-1");
    assert_eq!(decimal(1234567890), "1234567890");
    assert_eq!(decimal(-9000), "-9000");
    assert_eq!(decimal(i64::MAX), i64::MAX.to_string());
    assert_eq!(decimal(i64::MIN), i64::MIN.to_string());
}
