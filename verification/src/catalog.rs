//! The catalog store: books with their relations, the tables of names they
//! refer to, and the rules that every change keeps.

use vstd::prelude::*;
use vstd::string::*;
use crate::book::{
    Book, BookView, CustomFieldValue, Identifier, UpdateBookPayload, copy_names, copy_fields,
    copy_identifiers, copy_opt, field_pairs, identifier_pairs, pair_names, opt_text,
};
use crate::error::CatalogError;
use crate::model::{
    CatalogView, RecordView, appended, answer_items, blank, catalog_wf, clone_outcome,
    distinct_ids, grown, groups_outcome, has_code, has_ean, holds, insert_outcome, lemma_grown,
    lemma_listing, lemma_slot, lemma_stored_holds, merged, numbered, opt_str, record_wf,
    series_collision, slot, stands_at, stored, titled, update_outcome, with_record, bare,
};
use crate::names::{
    all_distinct, ascending, ensure_names, lemma_placed_in, lemma_with_names, lists_names_of,
    place, sorted_names, within,
};
use crate::identifier::{classify, kind_name};
use crate::lookup::{Volume, book_from_volume};
use crate::text::{texts, same_text, contains_ignoring_case};
use crate::outside::fresh_id;
use crate::identifier::IdentifierKind;
use crate::lookup::VolumesResponse;

verus! {

/// A book together with what the catalog relates to it.
#[derive(Debug, Clone)]
pub struct Record {
    pub book: Book,
    /// The authors, each at the index that is its position.
    pub authors: Vec<String>,
    pub categories: Vec<String>,
    pub identifiers: Vec<Identifier>,
}

impl View for Record {
    type V = RecordView;

    open spec fn view(&self) -> RecordView {
        RecordView {
            book: self.book@,
            authors: texts(self.authors@),
            categories: texts(self.categories@),
            identifiers: identifier_pairs(self.identifiers@),
        }
    }
}

/// The catalog: the books in the order in which they were added, and the
/// tables of author, category, group and custom-field names, each in the
/// order in which its names were first used. Names are never removed.
pub struct Catalog {
    records: Vec<Record>,
    authors: Vec<String>,
    categories: Vec<String>,
    groups: Vec<String>,
    custom_fields: Vec<String>,
}

/// The views of a list of records.
pub open spec fn record_views(v: Seq<Record>) -> Seq<RecordView> {
    v.map_values(|r: Record| r@)
}

impl Record {
    /// A record that says the same as this one.
    pub fn duplicate(&self) -> (r: Record)
        ensures
            r@ == self@,
    {
        Record {
            book: self.book.duplicate(),
            authors: copy_names(&self.authors),
            categories: copy_names(&self.categories),
            identifiers: copy_identifiers(&self.identifiers),
        }
    }

    /// Whether this record carries an identifier with the code `code`.
    fn carries(&self, code: &String) -> (r: bool)
        ensures
            r == has_code(self@, code@),
    {
        let mut j: usize = 0;
        while j < self.identifiers.len()
            invariant
                0 <= j <= self.identifiers@.len(),
                forall|m: int| 0 <= m < j ==> (#[trigger] self@.identifiers[m]).1 != code@,
            decreases self.identifiers@.len() - j,
        {
            if same_text(&self.identifiers[j].identifier, code) {
                assert(self@.identifiers[j as int].1 == code@);
                return true;
            }
            j = j + 1;
        }
        false
    }
}

impl View for Catalog {
    type V = CatalogView;

    closed spec fn view(&self) -> CatalogView {
        CatalogView {
            records: record_views(self.records@),
            authors: texts(self.authors@),
            categories: texts(self.categories@),
            groups: texts(self.groups@),
            custom_fields: texts(self.custom_fields@),
        }
    }
}

impl Catalog {
    /// Whether this catalog keeps its rules.
    pub open spec fn wf(&self) -> bool {
        catalog_wf(self@)
    }

    /// A catalog without books and without names.
    pub fn new() -> (r: Catalog)
        ensures
            r.wf(),
            r@.records.len() == 0,
            r@.authors.len() == 0,
            r@.categories.len() == 0,
            r@.groups.len() == 0,
            r@.custom_fields.len() == 0,
    {
        Catalog {
            records: Vec::new(),
            authors: Vec::new(),
            categories: Vec::new(),
            groups: Vec::new(),
            custom_fields: Vec::new(),
        }
    }

    /// The records of the catalog, in the order in which the books were added.
    pub fn records(&self) -> (r: &Vec<Record>)
        ensures
            record_views(r@) == self@.records,
    {
        &self.records
    }

    /// The index of the book `id`, if the catalog holds it.
    fn find(&self, id: &String) -> (r: Option<usize>)
        ensures
            match r {
                Some(i) => i < self.records@.len() && stands_at(self@, id@, i as int),
                None => !holds(self@, id@),
            },
    {
        let mut i: usize = 0;
        while i < self.records.len()
            invariant
                0 <= i <= self.records@.len(),
                forall|k: int| 0 <= k < i ==> !stands_at(self@, id@, k),
            decreases self.records@.len() - i,
        {
            if same_text(&self.records[i].book.volume_id, id) {
                return Some(i);
            }
            i = i + 1;
        }
        None
    }

    /// Puts `record` in the place of the record at index `i`.
    fn replace(&mut self, i: usize, record: Record)
        requires
            i < old(self).records@.len(),
        ensures
            final(self)@ == with_record(old(self)@, i as int, record@),
            final(self).authors == old(self).authors,
            final(self).categories == old(self).categories,
            final(self).groups == old(self).groups,
            final(self).custom_fields == old(self).custom_fields,
    {
        let _ = self.records.remove(i);
        self.records.insert(i, record);
        assert(record_views(self.records@) =~= record_views(old(self).records@).update(
            i as int,
            record@,
        ));
    }

    /// The book `volume_id` with its groups and custom fields.
    pub fn get_book(&self, volume_id: &str) -> (r: Result<Book, CatalogError>)
        requires
            self.wf(),
        ensures
            holds(self@, volume_id@) ==> r is Ok && r->Ok_0@ == self@.records[slot(
                self@,
                volume_id@,
            )].book,
            !holds(self@, volume_id@) ==> r matches Err(CatalogError::NotFound),
    {
        let id = String::from_str(volume_id);
        match self.find(&id) {
            Some(i) => {
                proof {
                    lemma_slot(self@, volume_id@, i as int);
                }
                Ok(self.records[i].book.duplicate())
            },
            None => Err(CatalogError::NotFound),
        }
    }

    /// Sets the series number of the book `volume_id`; a catalog that does
    /// not hold the book stays as it is.
    pub fn set_book_number(&mut self, volume_id: &str, number: i64)
        requires
            old(self).wf(),
        ensures
            final(self).wf(),
            holds(old(self)@, volume_id@) ==> final(self)@ == with_record(
                old(self)@,
                slot(old(self)@, volume_id@),
                numbered(old(self)@.records[slot(old(self)@, volume_id@)], number),
            ),
            !holds(old(self)@, volume_id@) ==> final(self)@ == old(self)@,
    {
        let id = String::from_str(volume_id);
        match self.find(&id) {
            Some(i) => {
                proof {
                    lemma_slot(self@, volume_id@, i as int);
                }
                let mut record = self.records[i].duplicate();
                record.book.number = Some(number);
                self.replace(i, record);
            },
            None => {},
        }
    }

    /// Whether some book carries an identifier with the code `isbn`, of whatever kind.
    pub fn isbn_exists(&self, isbn: &str) -> (r: bool)
        ensures
            r == exists|i: int|
                0 <= i < self@.records.len() && has_code(#[trigger] self@.records[i], isbn@),
    {
        let code = String::from_str(isbn);
        let mut i: usize = 0;
        while i < self.records.len()
            invariant
                0 <= i <= self.records@.len(),
                code@ == isbn@,
                forall|k: int| 0 <= k < i ==> !has_code(#[trigger] self@.records[k], isbn@),
            decreases self.records@.len() - i,
        {
            if self.records[i].carries(&code) {
                assert(has_code(self@.records[i as int], isbn@));
                return true;
            }
            i = i + 1;
        }
        false
    }
}

impl Catalog {
    /// Makes the tables hold the given names, then puts `record` in the
    /// place `found`, or after the records where no place is given.
    fn commit(
        &mut self,
        found: Option<usize>,
        record: Record,
        authors: &Vec<String>,
        categories: &Vec<String>,
        groups: &Vec<String>,
        fields: &Vec<String>,
    )
        requires
            old(self).wf(),
            match found {
                Some(i) => stands_at(old(self)@, record@.book.volume_id, i as int),
                None => !holds(old(self)@, record@.book.volume_id),
            },
            record_wf(
                record@,
                grown(
                    old(self)@,
                    texts(authors@),
                    texts(categories@),
                    texts(groups@),
                    texts(fields@),
                ),
            ),
        ensures
            final(self).wf(),
            final(self)@ == (match found {
                Some(i) => with_record(
                    grown(
                        old(self)@,
                        texts(authors@),
                        texts(categories@),
                        texts(groups@),
                        texts(fields@),
                    ),
                    i as int,
                    record@,
                ),
                None => appended(
                    grown(
                        old(self)@,
                        texts(authors@),
                        texts(categories@),
                        texts(groups@),
                        texts(fields@),
                    ),
                    record@,
                ),
            }),
    {
        let ghost before = self@;
        let ghost g = grown(
            before,
            texts(authors@),
            texts(categories@),
            texts(groups@),
            texts(fields@),
        );
        proof {
            lemma_grown(before, texts(authors@), texts(categories@), texts(groups@), texts(fields@));
        }
        ensure_names(&mut self.authors, authors);
        ensure_names(&mut self.categories, categories);
        ensure_names(&mut self.groups, groups);
        ensure_names(&mut self.custom_fields, fields);
        assert(self@ == g);
        match found {
            Some(i) => {
                self.replace(i, record);
                proof {
                    let after = self@;
                    assert(after == with_record(g, i as int, record@));
                    assert forall|k: int| 0 <= k < after.records.len() implies record_wf(
                        #[trigger] after.records[k],
                        after,
                    ) by {
                        if k != i {
                            assert(record_wf(g.records[k], g));
                        }
                    }
                    assert forall|a: int, b: int| 0 <= a < b < after.records.len() implies (
                    #[trigger] after.records[a]).book.volume_id
                        != (#[trigger] after.records[b]).book.volume_id by {
                        assert(g.records[a].book.volume_id != g.records[b].book.volume_id);
                    }
                }
            },
            None => {
                self.records.push(record);
                proof {
                    let after = self@;
                    assert(after.records =~= g.records.push(record@));
                    assert(after == appended(g, record@));
                    assert forall|k: int| 0 <= k < after.records.len() implies record_wf(
                        #[trigger] after.records[k],
                        after,
                    ) by {
                        if k < g.records.len() {
                            assert(record_wf(g.records[k], g));
                        }
                    }
                    assert forall|a: int, b: int| 0 <= a < b < after.records.len() implies (
                    #[trigger] after.records[a]).book.volume_id
                        != (#[trigger] after.records[b]).book.volume_id by {
                        if b < g.records.len() {
                            assert(g.records[a].book.volume_id != g.records[b].book.volume_id);
                        } else {
                            assert(!stands_at(before, record@.book.volume_id, a));
                        }
                    }
                }
            },
        }
    }
}

/// The names of a list of custom-field values.
pub fn field_names(fields: &Vec<CustomFieldValue>) -> (r: Vec<String>)
    ensures
        texts(r@) == pair_names(field_pairs(fields@)),
{
    let mut out: Vec<String> = Vec::new();
    let mut i: usize = 0;
    while i < fields.len()
        invariant
            0 <= i <= fields@.len(),
            out@.len() == i,
            forall|k: int| 0 <= k < i ==> #[trigger] out@[k]@ == fields@[k].name@,
        decreases fields@.len() - i,
    {
        out.push(fields[i].name.clone());
        i = i + 1;
    }
    assert(texts(out@) =~= pair_names(field_pairs(fields@)));
    out
}

/// Adds copies of `more` after `list`.
fn append_identifiers(list: &mut Vec<Identifier>, more: &Vec<Identifier>)
    ensures
        identifier_pairs(final(list)@) == identifier_pairs(old(list)@) + identifier_pairs(more@),
{
    let mut i: usize = 0;
    assert(identifier_pairs(list@) =~= identifier_pairs(old(list)@) + identifier_pairs(
        more@,
    ).subrange(0, 0));
    while i < more.len()
        invariant
            0 <= i <= more@.len(),
            identifier_pairs(list@) == identifier_pairs(old(list)@) + identifier_pairs(
                more@,
            ).subrange(0, i as int),
        decreases more@.len() - i,
    {
        let ghost before = identifier_pairs(list@);
        list.push(
            Identifier { type_: more[i].type_.clone(), identifier: more[i].identifier.clone() },
        );
        assert(identifier_pairs(list@) =~= before.push(identifier_pairs(more@)[i as int]));
        assert(identifier_pairs(list@) =~= identifier_pairs(old(list)@) + identifier_pairs(
            more@,
        ).subrange(0, i + 1));
        i = i + 1;
    }
    assert(identifier_pairs(more@).subrange(0, more@.len() as int) =~= identifier_pairs(more@));
}

impl Catalog {
    /// Stores the looked-up volume `v` under the id that the service gave
    /// it: a book already held under that id has its descriptive fields
    /// overwritten and its authors replaced by those of the volume, a new
    /// one is added after the others. Returns the id.
    pub fn store_volume(&mut self, v: &Volume) -> (id: String)
        requires
            old(self).wf(),
        ensures
            final(self).wf(),
            final(self)@ == stored(old(self)@, *v),
            id@ == v.id@,
    {
        let none: Vec<String> = Vec::new();
        let ghost before = self@;
        let found = self.find(&v.id);
        let mut book = book_from_volume(v);
        let mut categories: Vec<String> = Vec::new();
        let mut identifiers: Vec<Identifier> = Vec::new();
        let ghost base = blank(*v);
        match found {
            Some(i) => {
                proof {
                    lemma_slot(self@, v.id@, i as int);
                    base = self@.records[i as int];
                }
                let held = &self.records[i];
                book.number = held.book.number;
                book.groups = copy_names(&held.book.groups);
                book.custom_fields = copy_fields(&held.book.custom_fields);
                categories = copy_names(&held.categories);
                identifiers = copy_identifiers(&held.identifiers);
            },
            None => {
                assert(texts(categories@) =~= base.categories);
                assert(identifier_pairs(identifiers@) =~= base.identifiers);
            },
        }
        let named: &Vec<String> = match &v.volume_info.authors {
            Some(a) => a,
            None => &none,
        };
        let sorts: &Vec<String> = match &v.volume_info.categories {
            Some(c) => c,
            None => &none,
        };
        assert(texts(none@) =~= Seq::<Seq<char>>::empty());
        let authors = place(named);
        ensure_names(&mut categories, sorts);
        match &v.volume_info.industry_identifiers {
            Some(ids) => {
                append_identifiers(&mut identifiers, ids);
            },
            None => {
                assert(identifier_pairs(identifiers@) =~= base.identifiers + Seq::<
                    (Seq<char>, Seq<char>),
                >::empty());
            },
        }
        let record = Record { book, authors, categories, identifiers };
        proof {
            let g = grown(before, texts(named@), texts(sorts@), texts(none@), texts(none@));
            lemma_grown(before, texts(named@), texts(sorts@), texts(none@), texts(none@));
            assert(record@ == merged(base, *v));
            if found is Some {
                assert(record_wf(base, before));
            }
            lemma_with_names(before.authors, texts(named@));
            lemma_with_names(before.categories, texts(sorts@));
            lemma_with_names(base.categories, texts(sorts@));
            lemma_placed_in(texts(named@), g.authors);
            assert forall|k: int| 0 <= k < record@.categories.len() implies g.categories.contains(
                #[trigger] record@.categories[k],
            ) by {
                let x = record@.categories[k];
                assert(record@.categories.contains(x));
                if base.categories.contains(x) {
                    let m = choose|m: int| 0 <= m < base.categories.len() && base.categories[m] == x;
                    assert(before.categories.contains(base.categories[m]));
                } else {
                    let m = choose|m: int| 0 <= m < texts(sorts@).len() && texts(sorts@)[m] == x;
                    assert(g.categories.contains(texts(sorts@)[m]));
                }
            }
            assert(record_wf(record@, g));
        }
        self.commit(found, record, named, sorts, &none, &none);
        v.id.clone()
    }
}

/// An owned copy of a list of strings.
fn copy_slice(v: &[String]) -> (r: Vec<String>)
    ensures
        texts(r@) == texts(v@),
{
    let mut out: Vec<String> = Vec::new();
    let mut i: usize = 0;
    while i < v.len()
        invariant
            0 <= i <= v@.len(),
            out@.len() == i,
            forall|k: int| 0 <= k < i ==> #[trigger] out@[k]@ == v@[k]@,
        decreases v@.len() - i,
    {
        out.push(v[i].clone());
        i = i + 1;
    }
    assert(texts(out@) =~= texts(v@));
    out
}

/// An owned copy of an optional string slice.
fn own(o: Option<&str>) -> (r: Option<String>)
    ensures
        opt_text(r) == opt_str(o),
{
    match o {
        Some(s) => Some(String::from_str(s)),
        None => None,
    }
}

/// A book that says nothing but its id and title.
fn bare_book(volume_id: String, title: String) -> (r: Book)
    ensures
        r@ == bare(volume_id@, title@),
{
    let book = Book {
        volume_id,
        title,
        number: None,
        publisher: None,
        published_date: None,
        description: None,
        page_count: None,
        print_type: None,
        maturity_rating: None,
        language: None,
        preview_link: None,
        info_link: None,
        canonical_link: None,
        small_thumbnail: None,
        thumbnail: None,
        country: None,
        saleability: None,
        is_ebook: None,
        viewability: None,
        embeddable: None,
        public_domain: None,
        text_to_speech_permission: None,
        epub_available: None,
        pdf_available: None,
        web_reader_link: None,
        access_view_status: None,
        quote_sharing_allowed: None,
        groups: Vec::new(),
        custom_fields: Vec::new(),
    };
    assert(book@.groups =~= Seq::<Seq<char>>::empty());
    assert(book@.custom_fields =~= Seq::<(Seq<char>, Seq<char>)>::empty());
    book
}

impl Catalog {
    /// Adds a book by hand under the id `volume_id`. The book gets the
    /// fields given and no others; an `identifier`, where one is given, is
    /// classified and kept under the name of its kind. Nothing is changed
    /// where the book is refused.
    pub fn insert_book_as(
        &mut self,
        volume_id: String,
        title: &str,
        number: Option<i64>,
        authors: &[String],
        groups: &[String],
        publisher: Option<&str>,
        year: Option<&str>,
        identifier: Option<&str>,
        custom_fields: &Vec<CustomFieldValue>,
    ) -> (r: Result<(), CatalogError>)
        requires
            old(self).wf(),
        ensures
            final(self).wf(),
            insert_outcome(
                old(self)@,
                volume_id@,
                title@,
                number,
                texts(authors@),
                texts(groups@),
                opt_str(publisher),
                opt_str(year),
                opt_str(identifier),
                field_pairs(custom_fields@),
                final(self)@,
                r,
            ),
    {
        let none: Vec<String> = Vec::new();
        assert(texts(none@) =~= Seq::<Seq<char>>::empty());
        let authors = copy_slice(authors);
        let groups = copy_slice(groups);
        if self.find(&volume_id).is_some() {
            return Err(CatalogError::ConstraintViolation);
        }
        if !all_distinct(&groups) {
            return Err(CatalogError::ConstraintViolation);
        }
        let mut identifiers: Vec<Identifier> = Vec::new();
        assert(identifier_pairs(identifiers@) =~= Seq::<(Seq<char>, Seq<char>)>::empty());
        match identifier {
            Some(code) => {
                match classify(code) {
                    Ok(kind) => {
                        identifiers.push(
                            Identifier {
                                type_: String::from_str(kind.as_str()),
                                identifier: String::from_str(code),
                            },
                        );
                        assert(identifier_pairs(identifiers@) =~= seq![(kind_name(kind), code@)]);
                    },
                    Err(e) => {
                        return Err(e);
                    },
                }
            },
            None => {},
        }
        let names = field_names(custom_fields);
        if !all_distinct(&names) {
            return Err(CatalogError::ConstraintViolation);
        }
        let mut book = bare_book(volume_id, String::from_str(title));
        book.number = number;
        book.publisher = own(publisher);
        book.published_date = own(year);
        book.groups = sorted_names(&groups);
        book.custom_fields = copy_fields(custom_fields);
        let record = Record { book, authors: place(&authors), categories: Vec::new(), identifiers };
        proof {
            let g = grown(self@, texts(authors@), texts(none@), texts(groups@), texts(names@));
            lemma_grown(self@, texts(authors@), texts(none@), texts(groups@), texts(names@));
            lemma_placed_in(texts(authors@), g.authors);
            lemma_listing(record@.book.groups, texts(groups@), g.groups);
            assert(record@.categories =~= Seq::<Seq<char>>::empty());
            assert(record_wf(record@, g));
        }
        self.commit(None, record, &authors, &none, &groups, &names);
        Ok(())
    }
}

impl Catalog {
    /// Overwrites the fields of a book that an update carries and replaces
    /// its authors, its groups and its custom fields by those given. An
    /// update without authors, groups and custom fields for a book that the
    /// catalog does not hold changes nothing and succeeds.
    pub fn update_book(&mut self, payload: UpdateBookPayload) -> (r: Result<(), CatalogError>)
        requires
            old(self).wf(),
        ensures
            final(self).wf(),
            update_outcome(old(self)@, payload, final(self)@, r),
    {
        let none: Vec<String> = Vec::new();
        assert(texts(none@) =~= Seq::<Seq<char>>::empty());
        if !all_distinct(&payload.groups) {
            return Err(CatalogError::ConstraintViolation);
        }
        let names = field_names(&payload.custom_fields);
        if !all_distinct(&names) {
            return Err(CatalogError::ConstraintViolation);
        }
        match self.find(&payload.volume_id) {
            None => {
                if payload.authors.len() > 0 || payload.groups.len() > 0
                    || payload.custom_fields.len() > 0 {
                    Err(CatalogError::ConstraintViolation)
                } else {
                    Ok(())
                }
            },
            Some(i) => {
                proof {
                    lemma_slot(self@, payload.volume_id@, i as int);
                }
                let mut record = self.records[i].duplicate();
                record.book.title = payload.title.clone();
                record.book.number = payload.number;
                record.book.publisher = copy_opt(&payload.publisher);
                record.book.published_date = copy_opt(&payload.published_date);
                record.book.description = copy_opt(&payload.description);
                record.book.page_count = payload.page_count;
                record.book.language = copy_opt(&payload.language);
                record.book.groups = sorted_names(&payload.groups);
                record.book.custom_fields = copy_fields(&payload.custom_fields);
                record.authors = place(&payload.authors);
                proof {
                    let g = grown(
                        self@,
                        texts(payload.authors@),
                        texts(none@),
                        texts(payload.groups@),
                        texts(names@),
                    );
                    lemma_grown(
                        self@,
                        texts(payload.authors@),
                        texts(none@),
                        texts(payload.groups@),
                        texts(names@),
                    );
                    assert(record_wf(g.records[i as int], g));
                    lemma_placed_in(texts(payload.authors@), g.authors);
                    lemma_listing(record@.book.groups, texts(payload.groups@), g.groups);
                    assert(record_wf(record@, g));
                }
                self.commit(Some(i), record, &payload.authors, &none, &payload.groups, &names);
                Ok(())
            },
        }
    }

    /// Copies the book `volume_id`, with everything related to it, under
    /// the id `new_id`, after the other books.
    pub fn clone_book_as(&mut self, volume_id: &str, new_id: String) -> (r: Result<
        (),
        CatalogError,
    >)
        requires
            old(self).wf(),
        ensures
            final(self).wf(),
            clone_outcome(old(self)@, volume_id@, new_id@, final(self)@, r),
    {
        let none: Vec<String> = Vec::new();
        assert(texts(none@) =~= Seq::<Seq<char>>::empty());
        let id = String::from_str(volume_id);
        match self.find(&id) {
            None => Err(CatalogError::NotFound),
            Some(i) => {
                if self.find(&new_id).is_some() {
                    return Err(CatalogError::ConstraintViolation);
                }
                proof {
                    lemma_slot(self@, volume_id@, i as int);
                }
                let mut record = self.records[i].duplicate();
                record.book.volume_id = new_id;
                proof {
                    let g = grown(self@, texts(none@), texts(none@), texts(none@), texts(none@));
                    lemma_grown(self@, texts(none@), texts(none@), texts(none@), texts(none@));
                    assert(g == self@);
                    assert(record_wf(g.records[i as int], g));
                }
                self.commit(None, record, &none, &none, &none, &none);
                Ok(())
            },
        }
    }

    /// Replaces the groups of the book `volume_id` by `groups`. No groups
    /// for a book that the catalog does not hold changes nothing and succeeds.
    pub fn set_book_groups(&mut self, volume_id: &str, groups: &[String]) -> (r: Result<
        (),
        CatalogError,
    >)
        requires
            old(self).wf(),
        ensures
            final(self).wf(),
            groups_outcome(old(self)@, volume_id@, texts(groups@), final(self)@, r),
    {
        let none: Vec<String> = Vec::new();
        assert(texts(none@) =~= Seq::<Seq<char>>::empty());
        let groups = copy_slice(groups);
        if !all_distinct(&groups) {
            return Err(CatalogError::ConstraintViolation);
        }
        let id = String::from_str(volume_id);
        match self.find(&id) {
            None => {
                if groups.len() > 0 {
                    Err(CatalogError::ConstraintViolation)
                } else {
                    Ok(())
                }
            },
            Some(i) => {
                proof {
                    lemma_slot(self@, volume_id@, i as int);
                }
                let mut record = self.records[i].duplicate();
                record.book.groups = sorted_names(&groups);
                proof {
                    let g = grown(self@, texts(none@), texts(none@), texts(groups@), texts(none@));
                    lemma_grown(self@, texts(none@), texts(none@), texts(groups@), texts(none@));
                    assert(record_wf(g.records[i as int], g));
                    lemma_listing(record@.book.groups, texts(groups@), g.groups);
                    assert(record_wf(record@, g));
                }
                self.commit(Some(i), record, &none, &none, &groups, &none);
                Ok(())
            },
        }
    }
}

/// The views of a list of books.
pub open spec fn book_views(v: Seq<Book>) -> Seq<BookView> {
    v.map_values(|b: Book| b@)
}

/// What a successful import tells its caller.
#[derive(Debug, Clone)]
pub enum ImportSignal {
    /// The book with this id was added and no other title contains its title.
    BookAdded(String),
    /// Another title contains the title of this book: it is probably an
    /// issue of a series and needs a number given by hand.
    PossibleComic(Book),
}

/// The signal for the book `id` of `c`.
pub open spec fn signals(c: CatalogView, id: Seq<char>, signal: ImportSignal) -> bool {
    if series_collision(c, id) {
        signal matches ImportSignal::PossibleComic(b) && b@ == c.records[slot(c, id)].book
    } else {
        signal matches ImportSignal::BookAdded(added) && added@ == id
    }
}

impl Record {
    /// Whether this record carries the code `ean` under the kind named `kind`.
    fn carries_as(&self, kind: &String, ean: &String) -> (r: bool)
        ensures
            r == exists|j: int|
                0 <= j < self@.identifiers.len() && #[trigger] self@.identifiers[j] == (
                    kind@,
                    ean@,
                ),
    {
        let mut j: usize = 0;
        while j < self.identifiers.len()
            invariant
                0 <= j <= self.identifiers@.len(),
                forall|m: int| 0 <= m < j ==> #[trigger] self@.identifiers[m] != (kind@, ean@),
            decreases self.identifiers@.len() - j,
        {
            if same_text(&self.identifiers[j].type_, kind) && same_text(
                &self.identifiers[j].identifier,
                ean,
            ) {
                assert(self@.identifiers[j as int] == (kind@, ean@));
                return true;
            }
            j = j + 1;
        }
        false
    }
}

impl Catalog {
    /// Adds a book by hand under a fresh random id of 36 characters and
    /// returns the id. The book gets the fields given and no others; an
    /// `identifier`, where one is given, is classified and kept under the
    /// name of its kind. Nothing is changed where the book is refused,
    /// which it also is where the random id is already taken.
    pub fn insert_book(
        &mut self,
        title: &str,
        number: Option<i64>,
        authors: &[String],
        groups: &[String],
        publisher: Option<&str>,
        year: Option<&str>,
        identifier: Option<&str>,
        custom_fields: &Vec<CustomFieldValue>,
    ) -> (r: Result<String, CatalogError>)
        requires
            old(self).wf(),
        ensures
            final(self).wf(),
            match r {
                Ok(id) => id@.len() == 36 && !holds(old(self)@, id@) && insert_outcome(
                    old(self)@,
                    id@,
                    title@,
                    number,
                    texts(authors@),
                    texts(groups@),
                    opt_str(publisher),
                    opt_str(year),
                    opt_str(identifier),
                    field_pairs(custom_fields@),
                    final(self)@,
                    Ok(()),
                ),
                Err(e) => exists|id: Seq<char>|
                    insert_outcome(
                        old(self)@,
                        id,
                        title@,
                        number,
                        texts(authors@),
                        texts(groups@),
                        opt_str(publisher),
                        opt_str(year),
                        opt_str(identifier),
                        field_pairs(custom_fields@),
                        final(self)@,
                        Err(e),
                    ),
            },
            r is Err ==> final(self)@ == old(self)@,
    {
        let id = fresh_id();
        let handed = id.clone();
        match self.insert_book_as(
            id,
            title,
            number,
            authors,
            groups,
            publisher,
            year,
            identifier,
            custom_fields,
        ) {
            Ok(()) => Ok(handed),
            Err(e) => {
                assert(insert_outcome(
                    old(self)@,
                    handed@,
                    title@,
                    number,
                    texts(authors@),
                    texts(groups@),
                    opt_str(publisher),
                    opt_str(year),
                    opt_str(identifier),
                    field_pairs(custom_fields@),
                    self@,
                    Err(e),
                ));
                Err(e)
            },
        }
    }

    /// Copies the book `volume_id`, with everything related to it, under a
    /// fresh random id, after the other books, and returns the new id.
    pub fn clone_book(&mut self, volume_id: &str) -> (r: Result<String, CatalogError>)
        requires
            old(self).wf(),
        ensures
            final(self).wf(),
            match r {
                Ok(id) => id@.len() == 36 && id@ != volume_id@ && clone_outcome(
                    old(self)@,
                    volume_id@,
                    id@,
                    final(self)@,
                    Ok(()),
                ),
                Err(e) => exists|id: Seq<char>|
                    clone_outcome(old(self)@, volume_id@, id, final(self)@, Err(e)),
            },
            r is Err ==> final(self)@ == old(self)@,
            !holds(old(self)@, volume_id@) ==> r matches Err(CatalogError::NotFound),
    {
        let id = fresh_id();
        let handed = id.clone();
        match self.clone_book_as(volume_id, id) {
            Ok(()) => Ok(handed),
            Err(e) => {
                assert(clone_outcome(old(self)@, volume_id@, handed@, self@, Err(e)));
                Err(e)
            },
        }
    }

    /// The books whose title contains `title`, letter case aside, in the
    /// order in which they were added, each with its groups and custom fields.
    pub fn find_books_containing_title(&self, title: &str) -> (r: Vec<Book>)
        ensures
            book_views(r@) == titled(self@.records, title@, self@.records.len()),
    {
        let mut out: Vec<Book> = Vec::new();
        let mut i: usize = 0;
        assert(book_views(out@) =~= titled(self@.records, title@, 0));
        while i < self.records.len()
            invariant
                0 <= i <= self.records@.len(),
                book_views(out@) == titled(self@.records, title@, i as nat),
            decreases self.records@.len() - i,
        {
            if contains_ignoring_case(self.records[i].book.title.as_str(), title) {
                let ghost before = book_views(out@);
                out.push(self.records[i].book.duplicate());
                assert(book_views(out@) =~= before.push(self@.records[i as int].book));
            }
            i = i + 1;
        }
        out
    }

    /// The first book, in the order in which the books were added, that
    /// carries the code `ean` as an EAN-13.
    pub fn find_comic_by_ean(&self, ean: &str) -> (r: Option<Book>)
        ensures
            match r {
                Some(b) => exists|i: int|
                    0 <= i < self@.records.len() && has_ean(#[trigger] self@.records[i], ean@)
                        && b@ == self@.records[i].book && forall|k: int|
                        0 <= k < i ==> !has_ean(#[trigger] self@.records[k], ean@),
                None => forall|i: int|
                    0 <= i < self@.records.len() ==> !has_ean(#[trigger] self@.records[i], ean@),
            },
    {
        let kind = String::from_str(IdentifierKind::Ean13.as_str());
        let code = String::from_str(ean);
        let mut i: usize = 0;
        while i < self.records.len()
            invariant
                0 <= i <= self.records@.len(),
                kind@ == kind_name(IdentifierKind::Ean13),
                code@ == ean@,
                forall|k: int| 0 <= k < i ==> !has_ean(#[trigger] self@.records[k], ean@),
            decreases self.records@.len() - i,
        {
            if self.records[i].carries_as(&kind, &code) {
                assert(has_ean(self@.records[i as int], ean@));
                return Some(self.records[i].book.duplicate());
            }
            i = i + 1;
        }
        None
    }

    /// The names of all groups ever used, in ascending order.
    pub fn get_all_groups(&self) -> (r: Vec<String>)
        requires
            self.wf(),
        ensures
            lists_names_of(texts(r@), self@.groups),
            r@.len() == self@.groups.len(),
    {
        sorted_names(&self.groups)
    }

    /// The names of all custom fields ever used, in ascending order.
    pub fn get_all_custom_fields(&self) -> (r: Vec<String>)
        requires
            self.wf(),
        ensures
            lists_names_of(texts(r@), self@.custom_fields),
            r@.len() == self@.custom_fields.len(),
    {
        sorted_names(&self.custom_fields)
    }

    /// Tells whether the book `volume_id` looks like an issue of a series:
    /// it does where more than one title, its own included, contains its title.
    pub fn import_signal(&self, volume_id: &str) -> (r: Result<ImportSignal, CatalogError>)
        requires
            self.wf(),
        ensures
            !holds(self@, volume_id@) ==> r matches Err(CatalogError::NotFound),
            holds(self@, volume_id@) ==> r is Ok && signals(self@, volume_id@, r->Ok_0),
    {
        let id = String::from_str(volume_id);
        match self.find(&id) {
            None => Err(CatalogError::NotFound),
            Some(i) => {
                proof {
                    lemma_slot(self@, volume_id@, i as int);
                }
                let book = self.records[i].book.duplicate();
                let books = self.find_books_containing_title(book.title.as_str());
                assert(book_views(books@).len() == books@.len());
                if books.len() > 1 {
                    Ok(ImportSignal::PossibleComic(book))
                } else {
                    Ok(ImportSignal::BookAdded(id))
                }
            },
        }
    }

    /// Stores the first volume of a lookup answer and returns its id; an
    /// answer without volumes changes nothing.
    pub fn fetch_and_store_by_isbn(&mut self, response: &VolumesResponse) -> (r: Option<String>)
        requires
            old(self).wf(),
        ensures
            final(self).wf(),
            answer_items(*response).len() == 0 ==> r is None && final(self)@ == old(self)@,
            answer_items(*response).len() > 0 ==> r is Some && r->Some_0@ == answer_items(
                *response,
            )[0].id@ && final(self)@ == stored(old(self)@, answer_items(*response)[0]),
    {
        match &response.items {
            None => None,
            Some(items) => {
                if items.len() == 0 {
                    None
                } else {
                    Some(self.store_volume(&items[0]))
                }
            },
        }
    }

    /// Imports a lookup answer: stores its first volume, then tells
    /// whether the book looks like an issue of a series. An answer without
    /// volumes is reported as not found and changes nothing.
    pub fn fetch_isbn(&mut self, response: &VolumesResponse) -> (r: Result<
        ImportSignal,
        CatalogError,
    >)
        requires
            old(self).wf(),
        ensures
            final(self).wf(),
            answer_items(*response).len() == 0 ==> (r matches Err(CatalogError::NotFound))
                && final(self)@ == old(self)@,
            answer_items(*response).len() > 0 ==> r is Ok && final(self)@ == stored(
                old(self)@,
                answer_items(*response)[0],
            ) && signals(final(self)@, answer_items(*response)[0].id@, r->Ok_0),
    {
        match self.fetch_and_store_by_isbn(response) {
            None => Err(CatalogError::NotFound),
            Some(id) => {
                proof {
                    lemma_stored_holds(old(self)@, answer_items(*response)[0]);
                }
                self.import_signal(id.as_str())
            },
        }
    }
}

/// The catalog made of the given records and tables.
pub open spec fn assembled(
    records: Seq<Record>,
    authors: Seq<String>,
    categories: Seq<String>,
    groups: Seq<String>,
    custom_fields: Seq<String>,
) -> CatalogView {
    CatalogView {
        records: record_views(records),
        authors: texts(authors),
        categories: texts(categories),
        groups: texts(groups),
        custom_fields: texts(custom_fields),
    }
}

impl Catalog {
    /// The names of all authors ever used, in the order of their first use.
    pub fn author_table(&self) -> (r: &Vec<String>)
        ensures
            texts(r@) == self@.authors,
    {
        &self.authors
    }

    /// The names of all categories ever used, in the order of their first use.
    pub fn category_table(&self) -> (r: &Vec<String>)
        ensures
            texts(r@) == self@.categories,
    {
        &self.categories
    }

    /// The names of all groups ever used, in the order of their first use.
    pub fn group_table(&self) -> (r: &Vec<String>)
        ensures
            texts(r@) == self@.groups,
    {
        &self.groups
    }

    /// The names of all custom fields ever used, in the order of their first use.
    pub fn custom_field_table(&self) -> (r: &Vec<String>)
        ensures
            texts(r@) == self@.custom_fields,
    {
        &self.custom_fields
    }

    /// Whether the record at index `i` keeps the rules on records.
    fn record_is_valid(&self, i: usize) -> (r: bool)
        requires
            i < self@.records.len(),
        ensures
            r == record_wf(self@.records[i as int], self@),
    {
        let record = &self.records[i];
        assert(record@ == self@.records[i as int]);
        let names = field_names(&record.book.custom_fields);
        ascending(&record.book.groups) && all_distinct(&names) && all_distinct(&record.authors)
            && all_distinct(&record.categories) && within(&record.book.groups, &self.groups)
            && within(&names, &self.custom_fields) && within(&record.authors, &self.authors)
            && within(&record.categories, &self.categories)
    }

    /// Whether no two records are the same book.
    fn ids_are_distinct(&self) -> (r: bool)
        ensures
            r == distinct_ids(self@.records),
    {
        let mut ids: Vec<String> = Vec::new();
        let mut i: usize = 0;
        while i < self.records.len()
            invariant
                0 <= i <= self.records@.len(),
                ids@.len() == i,
                forall|k: int| 0 <= k < i ==> #[trigger] ids@[k]@ == self@.records[k].book.volume_id,
            decreases self.records@.len() - i,
        {
            ids.push(self.records[i].book.volume_id.clone());
            i = i + 1;
        }
        let distinct = all_distinct(&ids);
        proof {
            let all = texts(ids@);
            let records = self@.records;
            if distinct {
                assert forall|a: int, b: int| 0 <= a < b < records.len() implies (
                #[trigger] records[a]).book.volume_id != (#[trigger] records[b]).book.volume_id by {
                    assert(all[a] != all[b]);
                }
            } else {
                if distinct_ids(records) {
                    assert forall|a: int, b: int|
                        0 <= a < all.len() && 0 <= b < all.len() && a != b implies all[a]
                        != all[b] by {
                        if a < b {
                            assert(records[a].book.volume_id != records[b].book.volume_id);
                        } else {
                            assert(records[b].book.volume_id != records[a].book.volume_id);
                        }
                    }
                    assert(false);
                }
            }
        }
        distinct
    }

    /// Whether this catalog keeps its rules.
    pub fn is_valid(&self) -> (r: bool)
        ensures
            r == self.wf(),
    {
        if !self.ids_are_distinct() || !all_distinct(&self.authors) || !all_distinct(
            &self.categories,
        ) || !all_distinct(&self.groups) || !all_distinct(&self.custom_fields) {
            return false;
        }
        let mut i: usize = 0;
        while i < self.records.len()
            invariant
                0 <= i <= self.records@.len(),
                forall|k: int| 0 <= k < i ==> record_wf(#[trigger] self@.records[k], self@),
            decreases self.records@.len() - i,
        {
            if !self.record_is_valid(i) {
                assert(!record_wf(self@.records[i as int], self@));
                return false;
            }
            i = i + 1;
        }
        true
    }

    /// The catalog made of the given records and tables, where these keep
    /// the rules of the catalog; a constraint violation where they do not.
    pub fn from_parts(
        records: Vec<Record>,
        authors: Vec<String>,
        categories: Vec<String>,
        groups: Vec<String>,
        custom_fields: Vec<String>,
    ) -> (r: Result<Catalog, CatalogError>)
        ensures
            match r {
                Ok(c) => c.wf() && c@ == assembled(
                    records@,
                    authors@,
                    categories@,
                    groups@,
                    custom_fields@,
                ),
                Err(e) => e == CatalogError::ConstraintViolation && !catalog_wf(
                    assembled(records@, authors@, categories@, groups@, custom_fields@),
                ),
            },
    {
        let catalog = Catalog { records, authors, categories, groups, custom_fields };
        if catalog.is_valid() {
            Ok(catalog)
        } else {
            Err(CatalogError::ConstraintViolation)
        }
    }
}

} // verus!
