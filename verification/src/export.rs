//! The flat export of the catalog: one header row, then one row per book by
//! ascending title, with one column per custom field.

use vstd::prelude::*;
use vstd::string::*;
use crate::book::{CustomFieldValue, Identifier, field_pairs, identifier_pairs};
use crate::catalog::{Catalog, Record, record_views};
use crate::model::{CatalogView, RecordView};
use crate::error::CatalogError;
use crate::names::lists_names_of;
use crate::numeral::{int_text, decimal};
use crate::outside::{csv_open, csv_put, csv_close, csv_intact, csv_records, csv_text};
use crate::text::{texts, joined, join, is_sorted_order, sorted_order, same_text};

verus! {

/// The columns that every export has, in order.
pub open spec fn fixed_columns() -> Seq<Seq<char>> {
    seq![
        "volume_id"@,
        "title"@,
        "number"@,
        "authors"@,
        "categories"@,
        "identifiers"@,
        "groups"@,
        "publisher"@,
        "published_date"@,
        "description"@,
        "page_count"@,
        "print_type"@,
        "maturity_rating"@,
        "language"@,
        "preview_link"@,
        "info_link"@,
        "canonical_link"@,
        "small_thumbnail"@,
        "thumbnail"@,
        "country"@,
        "saleability"@,
        "is_ebook"@,
        "viewability"@,
        "embeddable"@,
        "public_domain"@,
        "text_to_speech_permission"@,
        "epub_available"@,
        "pdf_available"@,
        "web_reader_link"@,
        "access_view_status"@,
        "quote_sharing_allowed"@,
    ]
}

/// The cell of an optional number: its decimal numeral, or nothing.
pub open spec fn number_cell(n: Option<i64>) -> Seq<char> {
    match n {
        Some(v) => int_text(v as int),
        None => Seq::empty(),
    }
}

/// The cell of an optional text: the text, or nothing.
pub open spec fn text_cell(o: Option<Seq<char>>) -> Seq<char> {
    match o {
        Some(s) => s,
        None => Seq::empty(),
    }
}

/// Each identifier written as its kind, a colon and its code.
pub open spec fn identifier_texts(ids: Seq<(Seq<char>, Seq<char>)>) -> Seq<Seq<char>> {
    ids.map_values(|p: (Seq<char>, Seq<char>)| p.0 + ":"@ + p.1)
}

/// The value that `fields` gives under `name`; nothing where it gives none.
pub open spec fn field_value(fields: Seq<(Seq<char>, Seq<char>)>, name: Seq<char>) -> Seq<char>
    decreases fields.len(),
{
    if fields.len() == 0 {
        Seq::empty()
    } else if fields.last().0 == name {
        fields.last().1
    } else {
        field_value(fields.drop_last(), name)
    }
}

/// The cells of a record under the fixed columns.
pub open spec fn fixed_cells(r: RecordView) -> Seq<Seq<char>> {
    seq![
        r.book.volume_id,
        r.book.title,
        number_cell(r.book.number),
        joined(r.authors, "; "@),
        joined(r.categories, "; "@),
        joined(identifier_texts(r.identifiers), "; "@),
        joined(r.book.groups, "; "@),
        text_cell(r.book.publisher),
        text_cell(r.book.published_date),
        text_cell(r.book.description),
        number_cell(r.book.page_count),
        text_cell(r.book.print_type),
        text_cell(r.book.maturity_rating),
        text_cell(r.book.language),
        text_cell(r.book.preview_link),
        text_cell(r.book.info_link),
        text_cell(r.book.canonical_link),
        text_cell(r.book.small_thumbnail),
        text_cell(r.book.thumbnail),
        text_cell(r.book.country),
        text_cell(r.book.saleability),
        number_cell(r.book.is_ebook),
        text_cell(r.book.viewability),
        number_cell(r.book.embeddable),
        number_cell(r.book.public_domain),
        text_cell(r.book.text_to_speech_permission),
        number_cell(r.book.epub_available),
        number_cell(r.book.pdf_available),
        text_cell(r.book.web_reader_link),
        text_cell(r.book.access_view_status),
        number_cell(r.book.quote_sharing_allowed),
    ]
}

/// The cells of a record under the custom-field columns `columns`.
pub open spec fn custom_cells(r: RecordView, columns: Seq<Seq<char>>) -> Seq<Seq<char>> {
    columns.map_values(|c: Seq<char>| field_value(r.book.custom_fields, c))
}

/// The row of a record: its fixed cells, then its custom-field cells.
pub open spec fn row_of(r: RecordView, columns: Seq<Seq<char>>) -> Seq<Seq<char>> {
    fixed_cells(r) + custom_cells(r, columns)
}

/// The titles of a list of records, in order.
pub open spec fn titles(records: Seq<RecordView>) -> Seq<Seq<char>> {
    records.map_values(|r: RecordView| r.book.title)
}

/// The texts of a table of strings.
pub open spec fn table_texts(t: Seq<Vec<String>>) -> Seq<Seq<Seq<char>>> {
    t.map_values(|row: Vec<String>| texts(row@))
}

/// Whether `t` is the export of `c` with its rows along `order`: the header
/// holds the fixed columns and then the names of all custom fields in
/// ascending order; `order` sorts the books by title, equal titles in the
/// order in which the books were added; and each further row is the row of
/// the book that `order` puts there.
pub open spec fn is_export(c: CatalogView, t: Seq<Seq<Seq<char>>>, order: Seq<usize>) -> bool {
    &&& t.len() == c.records.len() + 1
    &&& t[0].len() >= 31
    &&& t[0] == fixed_columns() + t[0].subrange(31, t[0].len() as int)
    &&& lists_names_of(t[0].subrange(31, t[0].len() as int), c.custom_fields)
    &&& is_sorted_order(titles(c.records), order)
    &&& forall|k: int|
        0 <= k < c.records.len() ==> #[trigger] t[k + 1] == row_of(
            c.records[order[k] as int],
            t[0].subrange(31, t[0].len() as int),
        )
}

/// The cell of an optional number.
fn number_text(n: Option<i64>) -> (r: String)
    ensures
        r@ == number_cell(n),
{
    match n {
        Some(v) => decimal(v),
        None => String::new(),
    }
}

/// The cell of an optional text.
fn text_of(o: &Option<String>) -> (r: String)
    ensures
        r@ == text_cell(crate::book::opt_text(*o)),
{
    match o {
        Some(s) => s.clone(),
        None => String::new(),
    }
}

/// Each identifier written as its kind, a colon and its code.
fn identifier_strings(ids: &Vec<Identifier>) -> (r: Vec<String>)
    ensures
        texts(r@) == identifier_texts(identifier_pairs(ids@)),
{
    let mut out: Vec<String> = Vec::new();
    let mut i: usize = 0;
    while i < ids.len()
        invariant
            0 <= i <= ids@.len(),
            out@.len() == i,
            forall|k: int|
                0 <= k < i ==> #[trigger] out@[k]@ == ids@[k].type_@ + ":"@ + ids@[k].identifier@,
        decreases ids@.len() - i,
    {
        let mut cell = ids[i].type_.clone();
        cell.append(":");
        cell.append(ids[i].identifier.as_str());
        out.push(cell);
        i = i + 1;
    }
    assert(texts(out@) =~= identifier_texts(identifier_pairs(ids@)));
    out
}

/// The value that `fields` gives under `name`.
fn value_of(fields: &Vec<CustomFieldValue>, name: &String) -> (r: String)
    ensures
        r@ == field_value(field_pairs(fields@), name@),
{
    let ghost all = field_pairs(fields@);
    let mut value = String::new();
    let mut i: usize = 0;
    assert(all.subrange(0, 0) =~= Seq::<(Seq<char>, Seq<char>)>::empty());
    while i < fields.len()
        invariant
            0 <= i <= fields@.len(),
            all == field_pairs(fields@),
            value@ == field_value(all.subrange(0, i as int), name@),
        decreases fields@.len() - i,
    {
        proof {
            let next = all.subrange(0, i + 1);
            assert(next.drop_last() =~= all.subrange(0, i as int));
            assert(next.last() == all[i as int]);
        }
        if same_text(&fields[i].name, name) {
            value = fields[i].value.clone();
        }
        i = i + 1;
    }
    assert(all.subrange(0, fields@.len() as int) =~= all);
    value
}

/// The header of an export with the custom-field columns `columns`.
pub fn export_header(columns: &Vec<String>) -> (r: Vec<String>)
    ensures
        texts(r@) == fixed_columns() + texts(columns@),
{
    let mut out: Vec<String> = Vec::new();
    out.push(String::from_str("volume_id"));
    out.push(String::from_str("title"));
    out.push(String::from_str("number"));
    out.push(String::from_str("authors"));
    out.push(String::from_str("categories"));
    out.push(String::from_str("identifiers"));
    out.push(String::from_str("groups"));
    out.push(String::from_str("publisher"));
    out.push(String::from_str("published_date"));
    out.push(String::from_str("description"));
    out.push(String::from_str("page_count"));
    out.push(String::from_str("print_type"));
    out.push(String::from_str("maturity_rating"));
    out.push(String::from_str("language"));
    out.push(String::from_str("preview_link"));
    out.push(String::from_str("info_link"));
    out.push(String::from_str("canonical_link"));
    out.push(String::from_str("small_thumbnail"));
    out.push(String::from_str("thumbnail"));
    out.push(String::from_str("country"));
    out.push(String::from_str("saleability"));
    out.push(String::from_str("is_ebook"));
    out.push(String::from_str("viewability"));
    out.push(String::from_str("embeddable"));
    out.push(String::from_str("public_domain"));
    out.push(String::from_str("text_to_speech_permission"));
    out.push(String::from_str("epub_available"));
    out.push(String::from_str("pdf_available"));
    out.push(String::from_str("web_reader_link"));
    out.push(String::from_str("access_view_status"));
    out.push(String::from_str("quote_sharing_allowed"));
    assert(texts(out@) =~= fixed_columns());
    let mut i: usize = 0;
    while i < columns.len()
        invariant
            0 <= i <= columns@.len(),
            texts(out@) == fixed_columns() + texts(columns@).subrange(0, i as int),
        decreases columns@.len() - i,
    {
        let ghost before = texts(out@);
        out.push(columns[i].clone());
        assert(texts(out@) =~= before.push(columns@[i as int]@));
        assert(texts(out@) =~= fixed_columns() + texts(columns@).subrange(0, i + 1));
        i = i + 1;
    }
    assert(texts(columns@).subrange(0, columns@.len() as int) =~= texts(columns@));
    out
}

/// The row of `record` in an export with the custom-field columns `columns`.
pub fn export_row(record: &Record, columns: &Vec<String>) -> (r: Vec<String>)
    ensures
        texts(r@) == row_of(record@, texts(columns@)),
{
    let book = &record.book;
    let mut out: Vec<String> = Vec::new();
    out.push(book.volume_id.clone());
    out.push(book.title.clone());
    out.push(number_text(book.number));
    out.push(join(&record.authors, "; "));
    out.push(join(&record.categories, "; "));
    out.push(join(&identifier_strings(&record.identifiers), "; "));
    out.push(join(&book.groups, "; "));
    out.push(text_of(&book.publisher));
    out.push(text_of(&book.published_date));
    out.push(text_of(&book.description));
    out.push(number_text(book.page_count));
    out.push(text_of(&book.print_type));
    out.push(text_of(&book.maturity_rating));
    out.push(text_of(&book.language));
    out.push(text_of(&book.preview_link));
    out.push(text_of(&book.info_link));
    out.push(text_of(&book.canonical_link));
    out.push(text_of(&book.small_thumbnail));
    out.push(text_of(&book.thumbnail));
    out.push(text_of(&book.country));
    out.push(text_of(&book.saleability));
    out.push(number_text(book.is_ebook));
    out.push(text_of(&book.viewability));
    out.push(number_text(book.embeddable));
    out.push(number_text(book.public_domain));
    out.push(text_of(&book.text_to_speech_permission));
    out.push(number_text(book.epub_available));
    out.push(number_text(book.pdf_available));
    out.push(text_of(&book.web_reader_link));
    out.push(text_of(&book.access_view_status));
    out.push(number_text(book.quote_sharing_allowed));
    assert(texts(out@) =~= fixed_cells(record@));
    let ghost cells = custom_cells(record@, texts(columns@));
    let mut i: usize = 0;
    while i < columns.len()
        invariant
            0 <= i <= columns@.len(),
            cells == custom_cells(record@, texts(columns@)),
            texts(out@) == fixed_cells(record@) + cells.subrange(0, i as int),
        decreases columns@.len() - i,
    {
        let ghost before = texts(out@);
        out.push(value_of(&record.book.custom_fields, &columns[i]));
        assert(texts(out@) =~= before.push(cells[i as int]));
        assert(texts(out@) =~= fixed_cells(record@) + cells.subrange(0, i + 1));
        i = i + 1;
    }
    assert(cells.subrange(0, columns@.len() as int) =~= cells);
    out
}

impl Catalog {
    /// The export as a table of cells: the header, then one row per book
    /// by ascending title.
    pub fn export_table(&self) -> (r: Vec<Vec<String>>)
        requires
            self.wf(),
        ensures
            exists|order: Seq<usize>| is_export(self@, table_texts(r@), order),
    {
        let columns = self.get_all_custom_fields();
        let records = self.records();
        let mut names: Vec<String> = Vec::new();
        let mut i: usize = 0;
        while i < records.len()
            invariant
                0 <= i <= records@.len(),
                names@.len() == i,
                forall|k: int| 0 <= k < i ==> #[trigger] names@[k]@ == records@[k].book.title@,
            decreases records@.len() - i,
        {
            names.push(records[i].book.title.clone());
            i = i + 1;
        }
        assert(texts(names@) =~= titles(self@.records));
        let order = sorted_order(&names);
        let mut out: Vec<Vec<String>> = Vec::new();
        out.push(export_header(&columns));
        let ghost head = texts(out@[0]@);
        assert(head.subrange(31, head.len() as int) =~= texts(columns@));
        let mut k: usize = 0;
        while k < order.len()
            invariant
                0 <= k <= order@.len(),
                record_views(records@) == self@.records,
                is_sorted_order(titles(self@.records), order@),
                out@.len() == k + 1,
                texts(out@[0]@) == head,
                forall|m: int|
                    0 <= m < k ==> texts((#[trigger] out@[m + 1])@) == row_of(
                        self@.records[order@[m] as int],
                        texts(columns@),
                    ),
            decreases order@.len() - k,
        {
            let at: usize = order[k];
            assert(records@[at as int]@ == self@.records[at as int]);
            out.push(export_row(&records[at], &columns));
            k = k + 1;
        }
        proof {
            let t = table_texts(out@);
            assert(t[0] == head);
            assert forall|m: int| 0 <= m < self@.records.len() implies #[trigger] t[m + 1]
                == row_of(
                self@.records[order@[m] as int],
                t[0].subrange(31, t[0].len() as int),
            ) by {
                assert(t[m + 1] == texts(out@[m + 1]@));
            }
            assert(is_export(self@, t, order@));
        }
        out
    }

    /// The export as the bytes of a CSV file.
    pub fn export_books_to_csv(&self) -> (r: Result<Vec<u8>, CatalogError>)
        requires
            self.wf(),
        ensures
            r is Ok,
            exists|t: Seq<Seq<Seq<char>>>, order: Seq<usize>|
                is_export(self@, t, order) && r->Ok_0@ == csv_text(t),
    {
        let table = self.export_table();
        let ghost t = table_texts(table@);
        let ghost order = choose|order: Seq<usize>| is_export(self@, t, order);
        let mut writer = csv_open();
        assert(csv_records(writer) =~= t.subrange(0, 0));
        let mut i: usize = 0;
        while i < table.len()
            invariant
                0 <= i <= table@.len(),
                t == table_texts(table@),
                is_export(self@, t, order),
                csv_intact(writer),
                csv_records(writer) == t.subrange(0, i as int),
            decreases table@.len() - i,
        {
            assert(t[i as int] == texts(table@[i as int]@));
            if i > 0 {
                assert(t.subrange(0, i as int)[0] == t[0]);
                assert(t[(i - 1) + 1].len() == t[0].len());
            }
            match csv_put(&mut writer, &table[i]) {
                Ok(()) => {
                    assert(csv_records(writer) =~= t.subrange(0, i + 1));
                },
                Err(_) => {
                    return Err(
                        CatalogError::IoFailure(String::from_str("the export could not be written")),
                    );
                },
            }
            i = i + 1;
        }
        assert(t.subrange(0, table@.len() as int) =~= t);
        match csv_close(writer) {
            Some(bytes) => Ok(bytes),
            None => Err(
                CatalogError::IoFailure(String::from_str("the export could not be written")),
            ),
        }
    }
}

} // verus!
