//! What a catalog holds, as plain mathematical values: its rules, and what
//! each operation makes of it.

use vstd::prelude::*;
use crate::book::{
    BookView, Identifier, UpdateBookPayload, field_pairs, identifier_pairs, pair_names, opt_text,
};
use crate::error::CatalogError;
use crate::identifier::{IdentifierKind, classify_spec, kind_name};
use crate::lookup::{Volume, VolumesResponse, imported_book};
use crate::names::{
    all_in, strictly_ascending, with_names, lemma_with_names, placed, lists_names_of,
    lemma_placed_in,
};
use crate::text::{texts, contains_folded};

verus! {

/// What a record says, as plain mathematical values.
pub struct RecordView {
    pub book: BookView,
    pub authors: Seq<Seq<char>>,
    pub categories: Seq<Seq<char>>,
    pub identifiers: Seq<(Seq<char>, Seq<char>)>,
}

/// What a catalog holds, as plain mathematical values.
pub struct CatalogView {
    pub records: Seq<RecordView>,
    pub authors: Seq<Seq<char>>,
    pub categories: Seq<Seq<char>>,
    pub groups: Seq<Seq<char>>,
    pub custom_fields: Seq<Seq<char>>,
}

/// Whether the record at index `i` of `c` is the book `id`.
pub open spec fn stands_at(c: CatalogView, id: Seq<char>, i: int) -> bool {
    0 <= i < c.records.len() && c.records[i].book.volume_id == id
}

/// Whether `c` holds a book `id`.
pub open spec fn holds(c: CatalogView, id: Seq<char>) -> bool {
    exists|i: int| stands_at(c, id, i)
}

/// The index of the book `id` in `c`, where `c` holds it.
pub open spec fn slot(c: CatalogView, id: Seq<char>) -> int {
    choose|i: int| stands_at(c, id, i)
}

/// Whether no two records are the same book.
pub open spec fn distinct_ids(records: Seq<RecordView>) -> bool {
    forall|i: int, j: int|
        0 <= i < j < records.len() ==> (#[trigger] records[i]).book.volume_id
            != (#[trigger] records[j]).book.volume_id
}

/// The rules on one record: its groups ascend, none of its authors,
/// categories or custom fields stands twice, and each name it uses stands
/// in the table for it.
pub open spec fn record_wf(r: RecordView, c: CatalogView) -> bool {
    &&& strictly_ascending(r.book.groups)
    &&& pair_names(r.book.custom_fields).no_duplicates()
    &&& r.authors.no_duplicates()
    &&& r.categories.no_duplicates()
    &&& all_in(r.book.groups, c.groups)
    &&& all_in(pair_names(r.book.custom_fields), c.custom_fields)
    &&& all_in(r.authors, c.authors)
    &&& all_in(r.categories, c.categories)
}

/// The rules of the catalog: book ids are unique, the names of each table
/// are unique, and every record keeps the rules on records.
pub open spec fn catalog_wf(c: CatalogView) -> bool {
    &&& distinct_ids(c.records)
    &&& c.authors.no_duplicates()
    &&& c.categories.no_duplicates()
    &&& c.groups.no_duplicates()
    &&& c.custom_fields.no_duplicates()
    &&& forall|i: int| 0 <= i < c.records.len() ==> record_wf(#[trigger] c.records[i], c)
}

/// Under unique ids, a book stands at one index only.
pub proof fn lemma_slot(c: CatalogView, id: Seq<char>, i: int)
    requires
        distinct_ids(c.records),
        stands_at(c, id, i),
    ensures
        holds(c, id),
        slot(c, id) == i,
{
    let k = slot(c, id);
    assert(stands_at(c, id, k));
    if k < i {
        assert(c.records[k].book.volume_id != c.records[i].book.volume_id);
    } else if i < k {
        assert(c.records[i].book.volume_id != c.records[k].book.volume_id);
    }
}

/// The catalog `c` with the record at index `i` replaced by `r`.
pub open spec fn with_record(c: CatalogView, i: int, r: RecordView) -> CatalogView {
    CatalogView { records: c.records.update(i, r), ..c }
}

/// The record `r` with the series number `number`.
pub open spec fn numbered(r: RecordView, number: i64) -> RecordView {
    RecordView { book: BookView { number: Some(number), ..r.book }, ..r }
}

/// Whether `r` carries an identifier with the code `code`, of whatever kind.
pub open spec fn has_code(r: RecordView, code: Seq<char>) -> bool {
    exists|j: int| 0 <= j < r.identifiers.len() && (#[trigger] r.identifiers[j]).1 == code
}

/// The catalog `c` after its tables have been made to hold the given names.
pub open spec fn grown(
    c: CatalogView,
    authors: Seq<Seq<char>>,
    categories: Seq<Seq<char>>,
    groups: Seq<Seq<char>>,
    fields: Seq<Seq<char>>,
) -> CatalogView {
    CatalogView {
        records: c.records,
        authors: with_names(c.authors, authors),
        categories: with_names(c.categories, categories),
        groups: with_names(c.groups, groups),
        custom_fields: with_names(c.custom_fields, fields),
    }
}

/// The catalog `c` with the record `r` added after its records.
pub open spec fn appended(c: CatalogView, r: RecordView) -> CatalogView {
    CatalogView { records: c.records.push(r), ..c }
}

/// A catalog that keeps its rules keeps them when its tables grow.
pub proof fn lemma_grown(
    c: CatalogView,
    authors: Seq<Seq<char>>,
    categories: Seq<Seq<char>>,
    groups: Seq<Seq<char>>,
    fields: Seq<Seq<char>>,
)
    requires
        catalog_wf(c),
    ensures
        catalog_wf(grown(c, authors, categories, groups, fields)),
        all_in(authors, grown(c, authors, categories, groups, fields).authors),
        all_in(categories, grown(c, authors, categories, groups, fields).categories),
        all_in(groups, grown(c, authors, categories, groups, fields).groups),
        all_in(fields, grown(c, authors, categories, groups, fields).custom_fields),
{
    let g = grown(c, authors, categories, groups, fields);
    lemma_with_names(c.authors, authors);
    lemma_with_names(c.categories, categories);
    lemma_with_names(c.groups, groups);
    lemma_with_names(c.custom_fields, fields);
    assert forall|i: int| 0 <= i < g.records.len() implies record_wf(#[trigger] g.records[i], g) by {
        assert(record_wf(c.records[i], c));
    }
}

/// The names that an optional list gives: none where there is no list.
pub open spec fn opt_names(o: Option<Vec<String>>) -> Seq<Seq<char>> {
    match o {
        Some(v) => texts(v@),
        None => Seq::empty(),
    }
}

/// The identifiers that an optional list gives: none where there is no list.
pub open spec fn opt_identifiers(o: Option<Vec<Identifier>>) -> Seq<(Seq<char>, Seq<char>)> {
    match o {
        Some(v) => identifier_pairs(v@),
        None => Seq::empty(),
    }
}

/// The text of an optional string slice.
pub open spec fn opt_str(o: Option<&str>) -> Option<Seq<char>> {
    match o {
        Some(s) => Some(s@),
        None => None,
    }
}

/// The record of a volume that the catalog has not held before.
pub open spec fn blank(v: Volume) -> RecordView {
    RecordView {
        book: imported_book(v),
        authors: Seq::empty(),
        categories: Seq::empty(),
        identifiers: Seq::empty(),
    }
}

/// The record `base` after the volume `v` has been merged into it: the
/// descriptive fields are those of the volume; series number, groups and
/// custom fields stay; the volume's identifiers are added; its authors
/// replace the old ones, so that a volume without authors leaves the book
/// without any; its categories are added to those already there.
pub open spec fn merged(base: RecordView, v: Volume) -> RecordView {
    RecordView {
        book: BookView {
            number: base.book.number,
            groups: base.book.groups,
            custom_fields: base.book.custom_fields,
            ..imported_book(v)
        },
        authors: placed(opt_names(v.volume_info.authors)),
        categories: with_names(base.categories, opt_names(v.volume_info.categories)),
        identifiers: base.identifiers + opt_identifiers(v.volume_info.industry_identifiers),
    }
}

/// The catalog `c` after the volume `v` has been stored in it.
pub open spec fn stored(c: CatalogView, v: Volume) -> CatalogView {
    let g = grown(
        c,
        opt_names(v.volume_info.authors),
        opt_names(v.volume_info.categories),
        Seq::empty(),
        Seq::empty(),
    );
    if holds(c, v.id@) {
        with_record(g, slot(c, v.id@), merged(c.records[slot(c, v.id@)], v))
    } else {
        appended(g, merged(blank(v), v))
    }
}

/// A book that says nothing but its id and title.
pub open spec fn bare(id: Seq<char>, title: Seq<char>) -> BookView {
    BookView {
        volume_id: id,
        title: title,
        number: None,
        publisher: None,
        published_date: None,
        description: None,
        page_count: None,
        print_type: None,
        maturity_rating: None,
        language: None,
        preview_link: None,
        info_link: None,
        canonical_link: None,
        small_thumbnail: None,
        thumbnail: None,
        country: None,
        saleability: None,
        is_ebook: None,
        viewability: None,
        embeddable: None,
        public_domain: None,
        text_to_speech_permission: None,
        epub_available: None,
        pdf_available: None,
        web_reader_link: None,
        access_view_status: None,
        quote_sharing_allowed: None,
        groups: Seq::empty(),
        custom_fields: Seq::empty(),
    }
}

/// Why a book would not be added, if it would not: its id is taken, a
/// group or a custom field is named twice, or an identifier is given that
/// has no kind, as one without digits has none.
pub open spec fn insert_refusal(
    c: CatalogView,
    id: Seq<char>,
    groups: Seq<Seq<char>>,
    identifier: Option<Seq<char>>,
    fields: Seq<(Seq<char>, Seq<char>)>,
) -> Option<CatalogError> {
    if holds(c, id) {
        Some(CatalogError::ConstraintViolation)
    } else if !groups.no_duplicates() {
        Some(CatalogError::ConstraintViolation)
    } else if identifier is Some && classify_spec(identifier->Some_0) is Err {
        Some(CatalogError::InvalidIdentifierLength)
    } else if !pair_names(fields).no_duplicates() {
        Some(CatalogError::ConstraintViolation)
    } else {
        None
    }
}

/// The identifiers of a book added with `identifier`: the one given, under
/// the name of its kind.
pub open spec fn inserted_identifiers(identifier: Option<Seq<char>>) -> Seq<
    (Seq<char>, Seq<char>),
> {
    match identifier {
        Some(code) => match classify_spec(code) {
            Ok(k) => seq![(kind_name(k), code)],
            Err(_) => Seq::empty(),
        },
        None => Seq::empty(),
    }
}

/// The record of a book added by hand; `listing` is how its groups are kept.
pub open spec fn inserted_record(
    id: Seq<char>,
    title: Seq<char>,
    number: Option<i64>,
    authors: Seq<Seq<char>>,
    listing: Seq<Seq<char>>,
    publisher: Option<Seq<char>>,
    year: Option<Seq<char>>,
    identifier: Option<Seq<char>>,
    fields: Seq<(Seq<char>, Seq<char>)>,
) -> RecordView {
    RecordView {
        book: BookView {
            number: number,
            publisher: publisher,
            published_date: year,
            groups: listing,
            custom_fields: fields,
            ..bare(id, title)
        },
        authors: placed(authors),
        categories: Seq::empty(),
        identifiers: inserted_identifiers(identifier),
    }
}

/// What adding a book by hand under the id `id` does to the catalog `pre`:
/// refused, it leaves the catalog as it was; else the book stands after the
/// others with the fields given and no others, its authors as placed, its
/// groups in ascending order, and the tables hold every name it uses.
pub open spec fn insert_outcome(
    pre: CatalogView,
    id: Seq<char>,
    title: Seq<char>,
    number: Option<i64>,
    authors: Seq<Seq<char>>,
    groups: Seq<Seq<char>>,
    publisher: Option<Seq<char>>,
    year: Option<Seq<char>>,
    identifier: Option<Seq<char>>,
    fields: Seq<(Seq<char>, Seq<char>)>,
    post: CatalogView,
    result: Result<(), CatalogError>,
) -> bool {
    match insert_refusal(pre, id, groups, identifier, fields) {
        Some(e) => result == Err::<(), CatalogError>(e) && post == pre,
        None => {
            let rec = post.records.last();
            &&& result is Ok
            &&& post.records.len() == pre.records.len() + 1
            &&& post == appended(
                grown(pre, authors, Seq::empty(), groups, pair_names(fields)),
                rec,
            )
            &&& rec == inserted_record(
                id,
                title,
                number,
                authors,
                rec.book.groups,
                publisher,
                year,
                identifier,
                fields,
            )
            &&& lists_names_of(rec.book.groups, groups)
        },
    }
}

/// A listing in ascending order names nothing twice and stays within any
/// table that holds the names it lists.
pub proof fn lemma_listing(listing: Seq<Seq<char>>, names: Seq<Seq<char>>, table: Seq<Seq<char>>)
    requires
        lists_names_of(listing, names),
        all_in(names, table),
    ensures
        all_in(listing, table),
{
    assert forall|i: int| 0 <= i < listing.len() implies table.contains(#[trigger] listing[i]) by {
        assert(listing.contains(listing[i]));
        let m = choose|m: int| 0 <= m < names.len() && names[m] == listing[i];
        assert(table.contains(names[m]));
    }
}

/// Whether an update is refused: it names a group or a custom field twice,
/// or it relates names to a book that the catalog does not hold.
pub open spec fn update_refused(c: CatalogView, p: UpdateBookPayload) -> bool {
    ||| !texts(p.groups@).no_duplicates()
    ||| !pair_names(field_pairs(p.custom_fields@)).no_duplicates()
    ||| (!holds(c, p.volume_id@) && (p.authors@.len() > 0 || p.groups@.len() > 0
        || p.custom_fields@.len() > 0))
}

/// The record `r` after the update `p`; `listing` is how its groups are
/// kept. The fields that an update carries are overwritten, the lists of
/// authors, groups and custom fields are replaced whole, the rest stays.
pub open spec fn updated_record(
    r: RecordView,
    p: UpdateBookPayload,
    listing: Seq<Seq<char>>,
) -> RecordView {
    RecordView {
        book: BookView {
            title: p.title@,
            number: p.number,
            publisher: opt_text(p.publisher),
            published_date: opt_text(p.published_date),
            description: opt_text(p.description),
            page_count: p.page_count,
            language: opt_text(p.language),
            groups: listing,
            custom_fields: field_pairs(p.custom_fields@),
            ..r.book
        },
        authors: placed(texts(p.authors@)),
        ..r
    }
}

/// What the update `p` does to the catalog `pre`.
pub open spec fn update_outcome(
    pre: CatalogView,
    p: UpdateBookPayload,
    post: CatalogView,
    result: Result<(), CatalogError>,
) -> bool {
    if update_refused(pre, p) {
        result == Err::<(), CatalogError>(CatalogError::ConstraintViolation) && post == pre
    } else if !holds(pre, p.volume_id@) {
        result is Ok && post == pre
    } else {
        let i = slot(pre, p.volume_id@);
        let rec = post.records[i];
        &&& result is Ok
        &&& post == with_record(
            grown(
                pre,
                texts(p.authors@),
                Seq::empty(),
                texts(p.groups@),
                pair_names(field_pairs(p.custom_fields@)),
            ),
            i,
            rec,
        )
        &&& rec == updated_record(pre.records[i], p, rec.book.groups)
        &&& lists_names_of(rec.book.groups, texts(p.groups@))
    }
}

/// The record `r` under the id `id`.
pub open spec fn renamed(r: RecordView, id: Seq<char>) -> RecordView {
    RecordView { book: BookView { volume_id: id, ..r.book }, ..r }
}

/// What copying the book `source` under the id `id` does to the catalog `pre`.
pub open spec fn clone_outcome(
    pre: CatalogView,
    source: Seq<char>,
    id: Seq<char>,
    post: CatalogView,
    result: Result<(), CatalogError>,
) -> bool {
    if !holds(pre, source) {
        result == Err::<(), CatalogError>(CatalogError::NotFound) && post == pre
    } else if holds(pre, id) {
        result == Err::<(), CatalogError>(CatalogError::ConstraintViolation) && post == pre
    } else {
        result is Ok && post == appended(pre, renamed(pre.records[slot(pre, source)], id))
    }
}

/// Whether new groups for the book `id` are refused: a group is named
/// twice, or groups are given for a book that the catalog does not hold.
pub open spec fn groups_refused(c: CatalogView, id: Seq<char>, groups: Seq<Seq<char>>) -> bool {
    !groups.no_duplicates() || (!holds(c, id) && groups.len() > 0)
}

/// The record `r` with the groups `listing`.
pub open spec fn regrouped(r: RecordView, listing: Seq<Seq<char>>) -> RecordView {
    RecordView { book: BookView { groups: listing, ..r.book }, ..r }
}

/// What giving the book `id` the groups `groups` does to the catalog `pre`.
pub open spec fn groups_outcome(
    pre: CatalogView,
    id: Seq<char>,
    groups: Seq<Seq<char>>,
    post: CatalogView,
    result: Result<(), CatalogError>,
) -> bool {
    if groups_refused(pre, id, groups) {
        result == Err::<(), CatalogError>(CatalogError::ConstraintViolation) && post == pre
    } else if !holds(pre, id) {
        result is Ok && post == pre
    } else {
        let i = slot(pre, id);
        let rec = post.records[i];
        &&& result is Ok
        &&& post == with_record(
            grown(pre, Seq::empty(), Seq::empty(), groups, Seq::empty()),
            i,
            rec,
        )
        &&& rec == regrouped(pre.records[i], rec.book.groups)
        &&& lists_names_of(rec.book.groups, groups)
    }
}

/// Of the first `n` records, the books whose title contains `text`, letter
/// case aside, in the order of the records.
pub open spec fn titled(records: Seq<RecordView>, text: Seq<char>, n: nat) -> Seq<BookView>
    decreases n,
{
    if n == 0 {
        Seq::empty()
    } else if contains_folded(records[n - 1].book.title, text) {
        titled(records, text, (n - 1) as nat).push(records[n - 1].book)
    } else {
        titled(records, text, (n - 1) as nat)
    }
}

/// Whether `r` carries the code `ean` as an EAN-13.
pub open spec fn has_ean(r: RecordView, ean: Seq<char>) -> bool {
    exists|j: int|
        0 <= j < r.identifiers.len() && #[trigger] r.identifiers[j] == (
            kind_name(IdentifierKind::Ean13),
            ean,
        )
}

/// Whether the title of the book `id` is contained in the title of more
/// than one book of `c`, itself included.
pub open spec fn series_collision(c: CatalogView, id: Seq<char>) -> bool {
    titled(c.records, c.records[slot(c, id)].book.title, c.records.len()).len() > 1
}

/// The volumes of an answer: none where it lists none.
pub open spec fn answer_items(response: VolumesResponse) -> Seq<Volume> {
    match response.items {
        Some(v) => v@,
        None => Seq::empty(),
    }
}

/// Storing a volume keeps the rules of the catalog.
pub proof fn lemma_stored_wf(c: CatalogView, v: Volume)
    requires
        catalog_wf(c),
    ensures
        catalog_wf(stored(c, v)),
{
    let a = opt_names(v.volume_info.authors);
    let cats = opt_names(v.volume_info.categories);
    let e = Seq::<Seq<char>>::empty();
    let g = grown(c, a, cats, e, e);
    lemma_grown(c, a, cats, e, e);
    let post = stored(c, v);
    let base = if holds(c, v.id@) {
        c.records[slot(c, v.id@)]
    } else {
        blank(v)
    };
    let rec = merged(base, v);
    if holds(c, v.id@) {
        let i = slot(c, v.id@);
        assert(stands_at(c, v.id@, i));
        assert(record_wf(g.records[i], g));
    }
    lemma_with_names(c.categories, cats);
    lemma_with_names(base.categories, cats);
    lemma_placed_in(a, g.authors);
    assert forall|k: int| 0 <= k < rec.categories.len() implies g.categories.contains(
        #[trigger] rec.categories[k],
    ) by {
        let x = rec.categories[k];
        assert(rec.categories.contains(x));
        if base.categories.contains(x) {
            let m = choose|m: int| 0 <= m < base.categories.len() && base.categories[m] == x;
            assert(c.categories.contains(base.categories[m]));
        } else {
            let m = choose|m: int| 0 <= m < cats.len() && cats[m] == x;
            assert(g.categories.contains(cats[m]));
        }
    }
    assert(record_wf(rec, g));
    assert forall|k: int| 0 <= k < post.records.len() implies record_wf(
        #[trigger] post.records[k],
        post,
    ) by {
        if k < g.records.len() {
            assert(record_wf(g.records[k], g));
        }
    }
    assert forall|x: int, y: int| 0 <= x < y < post.records.len() implies (
    #[trigger] post.records[x]).book.volume_id != (#[trigger] post.records[y]).book.volume_id by {
        if y < c.records.len() {
            assert(c.records[x].book.volume_id != c.records[y].book.volume_id);
        } else {
            assert(!stands_at(c, v.id@, x));
        }
    }
}

/// A catalog holds a volume once the volume has been stored in it.
pub proof fn lemma_stored_holds(c: CatalogView, v: Volume)
    requires
        catalog_wf(c),
    ensures
        holds(stored(c, v), v.id@),
{
    let post = stored(c, v);
    if holds(c, v.id@) {
        let i = slot(c, v.id@);
        assert(stands_at(c, v.id@, i));
        assert(stands_at(post, v.id@, i));
    } else {
        assert(stands_at(post, v.id@, c.records.len() as int));
    }
}

} // verus!
