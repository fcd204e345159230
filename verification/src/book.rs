//! The records of the catalog and their mathematical views.

use vstd::prelude::*;
use crate::text::texts;

verus! {

/// The text of an optional string.
pub open spec fn opt_text(o: Option<String>) -> Option<Seq<char>> {
    match o {
        Some(s) => Some(s@),
        None => None,
    }
}

/// A value attached to a book under a custom field.
#[derive(Debug, Clone)]
pub struct CustomFieldValue {
    pub name: String,
    pub value: String,
}

/// The names and values of a list of custom-field values, in order.
pub open spec fn field_pairs(v: Seq<CustomFieldValue>) -> Seq<(Seq<char>, Seq<char>)> {
    v.map_values(|f: CustomFieldValue| (f.name@, f.value@))
}

/// The names of a list of name-value pairs, in order.
pub open spec fn pair_names(v: Seq<(Seq<char>, Seq<char>)>) -> Seq<Seq<char>> {
    v.map_values(|p: (Seq<char>, Seq<char>)| p.0)
}

/// A bibliographic code attached to a book, with the name of its kind.
#[derive(Debug, Clone)]
pub struct Identifier {
    pub type_: String,
    pub identifier: String,
}

/// The kinds and codes of a list of identifiers, in order.
pub open spec fn identifier_pairs(v: Seq<Identifier>) -> Seq<(Seq<char>, Seq<char>)> {
    v.map_values(|i: Identifier| (i.type_@, i.identifier@))
}

/// A row of the table of custom fields.
#[derive(Debug, Clone)]
pub struct CustomField {
    pub field_id: i64,
    pub name: String,
}

/// An author, as listed with a book.
#[derive(Debug, Clone)]
pub struct Author {
    pub name: String,
}

/// The names of a list of authors, in order.
pub open spec fn author_names(v: Seq<Author>) -> Seq<Seq<char>> {
    v.map_values(|a: Author| a.name@)
}

/// One catalog entry: a book or a comic issue, with its groups and custom fields.
#[derive(Debug, Clone)]
pub struct Book {
    pub volume_id: String,
    pub title: String,
    pub number: Option<i64>,
    pub publisher: Option<String>,
    pub published_date: Option<String>,
    pub description: Option<String>,
    pub page_count: Option<i64>,
    pub print_type: Option<String>,
    pub maturity_rating: Option<String>,
    pub language: Option<String>,
    pub preview_link: Option<String>,
    pub info_link: Option<String>,
    pub canonical_link: Option<String>,
    pub small_thumbnail: Option<String>,
    pub thumbnail: Option<String>,
    pub country: Option<String>,
    pub saleability: Option<String>,
    pub is_ebook: Option<i64>,
    pub viewability: Option<String>,
    pub embeddable: Option<i64>,
    pub public_domain: Option<i64>,
    pub text_to_speech_permission: Option<String>,
    pub epub_available: Option<i64>,
    pub pdf_available: Option<i64>,
    pub web_reader_link: Option<String>,
    pub access_view_status: Option<String>,
    pub quote_sharing_allowed: Option<i64>,
    pub groups: Vec<String>,
    pub custom_fields: Vec<CustomFieldValue>,
}

/// What a book says, as plain mathematical values.
pub struct BookView {
    pub volume_id: Seq<char>,
    pub title: Seq<char>,
    pub number: Option<i64>,
    pub publisher: Option<Seq<char>>,
    pub published_date: Option<Seq<char>>,
    pub description: Option<Seq<char>>,
    pub page_count: Option<i64>,
    pub print_type: Option<Seq<char>>,
    pub maturity_rating: Option<Seq<char>>,
    pub language: Option<Seq<char>>,
    pub preview_link: Option<Seq<char>>,
    pub info_link: Option<Seq<char>>,
    pub canonical_link: Option<Seq<char>>,
    pub small_thumbnail: Option<Seq<char>>,
    pub thumbnail: Option<Seq<char>>,
    pub country: Option<Seq<char>>,
    pub saleability: Option<Seq<char>>,
    pub is_ebook: Option<i64>,
    pub viewability: Option<Seq<char>>,
    pub embeddable: Option<i64>,
    pub public_domain: Option<i64>,
    pub text_to_speech_permission: Option<Seq<char>>,
    pub epub_available: Option<i64>,
    pub pdf_available: Option<i64>,
    pub web_reader_link: Option<Seq<char>>,
    pub access_view_status: Option<Seq<char>>,
    pub quote_sharing_allowed: Option<i64>,
    pub groups: Seq<Seq<char>>,
    pub custom_fields: Seq<(Seq<char>, Seq<char>)>,
}

impl View for Book {
    type V = BookView;

    open spec fn view(&self) -> BookView {
        BookView {
            volume_id: self.volume_id@,
            title: self.title@,
            number: self.number,
            publisher: opt_text(self.publisher),
            published_date: opt_text(self.published_date),
            description: opt_text(self.description),
            page_count: self.page_count,
            print_type: opt_text(self.print_type),
            maturity_rating: opt_text(self.maturity_rating),
            language: opt_text(self.language),
            preview_link: opt_text(self.preview_link),
            info_link: opt_text(self.info_link),
            canonical_link: opt_text(self.canonical_link),
            small_thumbnail: opt_text(self.small_thumbnail),
            thumbnail: opt_text(self.thumbnail),
            country: opt_text(self.country),
            saleability: opt_text(self.saleability),
            is_ebook: self.is_ebook,
            viewability: opt_text(self.viewability),
            embeddable: self.embeddable,
            public_domain: self.public_domain,
            text_to_speech_permission: opt_text(self.text_to_speech_permission),
            epub_available: self.epub_available,
            pdf_available: self.pdf_available,
            web_reader_link: opt_text(self.web_reader_link),
            access_view_status: opt_text(self.access_view_status),
            quote_sharing_allowed: self.quote_sharing_allowed,
            groups: texts(self.groups@),
            custom_fields: field_pairs(self.custom_fields@),
        }
    }
}

/// A book as the full listing shows it.
#[derive(Debug, Clone)]
pub struct BookWithThumbnail {
    pub book: Book,
    pub authors: Vec<Author>,
    pub isbns: Vec<String>,
    pub thumbnail: Option<String>,
}

/// The new content of a book, as an update hands it in.
#[derive(Debug, Clone)]
pub struct UpdateBookPayload {
    pub volume_id: String,
    pub title: String,
    pub number: Option<i64>,
    pub publisher: Option<String>,
    pub published_date: Option<String>,
    pub description: Option<String>,
    pub page_count: Option<i64>,
    pub language: Option<String>,
    pub authors: Vec<String>,
    pub groups: Vec<String>,
    pub custom_fields: Vec<CustomFieldValue>,
}

/// Copies an optional string.
pub fn copy_opt(o: &Option<String>) -> (r: Option<String>)
    ensures
        opt_text(r) == opt_text(*o),
{
    match o {
        Some(s) => Some(s.clone()),
        None => None,
    }
}

/// Copies a list of strings.
pub fn copy_names(v: &Vec<String>) -> (r: Vec<String>)
    ensures
        texts(r@) == texts(v@),
{
    let mut out: Vec<String> = Vec::new();
    let mut i: usize = 0;
    while i < v.len()
        invariant
            0 <= i <= v@.len(),
            out@.len() == i,
            forall|k: int| 0 <= k < i ==> #[trigger] out@[k]@ == v@[k]@,
        decreases v@.len() - i,
    {
        out.push(v[i].clone());
        i = i + 1;
    }
    assert(texts(out@) =~= texts(v@));
    out
}

/// Copies a list of custom-field values.
pub fn copy_fields(v: &Vec<CustomFieldValue>) -> (r: Vec<CustomFieldValue>)
    ensures
        field_pairs(r@) == field_pairs(v@),
{
    let mut out: Vec<CustomFieldValue> = Vec::new();
    let mut i: usize = 0;
    while i < v.len()
        invariant
            0 <= i <= v@.len(),
            out@.len() == i,
            forall|k: int|
                0 <= k < i ==> (#[trigger] out@[k]).name@ == v@[k].name@ && out@[k].value@
                    == v@[k].value@,
        decreases v@.len() - i,
    {
        out.push(CustomFieldValue { name: v[i].name.clone(), value: v[i].value.clone() });
        i = i + 1;
    }
    assert(field_pairs(out@) =~= field_pairs(v@));
    out
}

/// Copies a list of identifiers.
pub fn copy_identifiers(v: &Vec<Identifier>) -> (r: Vec<Identifier>)
    ensures
        identifier_pairs(r@) == identifier_pairs(v@),
{
    let mut out: Vec<Identifier> = Vec::new();
    let mut i: usize = 0;
    while i < v.len()
        invariant
            0 <= i <= v@.len(),
            out@.len() == i,
            forall|k: int|
                0 <= k < i ==> (#[trigger] out@[k]).type_@ == v@[k].type_@ && out@[k].identifier@
                    == v@[k].identifier@,
        decreases v@.len() - i,
    {
        out.push(Identifier { type_: v[i].type_.clone(), identifier: v[i].identifier.clone() });
        i = i + 1;
    }
    assert(identifier_pairs(out@) =~= identifier_pairs(v@));
    out
}

impl Book {
    /// A book that says the same as this one.
    pub fn duplicate(&self) -> (r: Book)
        ensures
            r@ == self@,
    {
        Book {
            volume_id: self.volume_id.clone(),
            title: self.title.clone(),
            number: self.number,
            publisher: copy_opt(&self.publisher),
            published_date: copy_opt(&self.published_date),
            description: copy_opt(&self.description),
            page_count: self.page_count,
            print_type: copy_opt(&self.print_type),
            maturity_rating: copy_opt(&self.maturity_rating),
            language: copy_opt(&self.language),
            preview_link: copy_opt(&self.preview_link),
            info_link: copy_opt(&self.info_link),
            canonical_link: copy_opt(&self.canonical_link),
            small_thumbnail: copy_opt(&self.small_thumbnail),
            thumbnail: copy_opt(&self.thumbnail),
            country: copy_opt(&self.country),
            saleability: copy_opt(&self.saleability),
            is_ebook: self.is_ebook,
            viewability: copy_opt(&self.viewability),
            embeddable: self.embeddable,
            public_domain: self.public_domain,
            text_to_speech_permission: copy_opt(&self.text_to_speech_permission),
            epub_available: self.epub_available,
            pdf_available: self.pdf_available,
            web_reader_link: copy_opt(&self.web_reader_link),
            access_view_status: copy_opt(&self.access_view_status),
            quote_sharing_allowed: self.quote_sharing_allowed,
            groups: copy_names(&self.groups),
            custom_fields: copy_fields(&self.custom_fields),
        }
    }
}

} // verus!
