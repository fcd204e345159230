//! The full listing of the catalog: every book with its authors, its
//! identifier codes and the place of its cover image, where it has one.

use vstd::prelude::*;
use vstd::string::*;
use crate::book::{Author, BookView, BookWithThumbnail, Identifier, author_names, identifier_pairs};
use crate::catalog::{Catalog, record_views};
use crate::model::RecordView;
use crate::text::{texts, is_sorted_order, sorted_order, same_text};

verus! {

/// The file that holds the cover image of a book.
#[derive(Debug, Clone)]
pub struct Thumbnail {
    pub volume_id: String,
    pub path: String,
}

/// The ids and paths of a list of cover images, in order.
pub open spec fn thumbnail_pairs(v: Seq<Thumbnail>) -> Seq<(Seq<char>, Seq<char>)> {
    v.map_values(|t: Thumbnail| (t.volume_id@, t.path@))
}

/// The path that `entries` gives for the book `id`: that of the first
/// entry for it, if there is one.
pub open spec fn first_path(entries: Seq<(Seq<char>, Seq<char>)>, id: Seq<char>) -> Option<
    Seq<char>,
>
    decreases entries.len(),
{
    if entries.len() == 0 {
        None
    } else if first_path(entries.drop_last(), id) is Some {
        first_path(entries.drop_last(), id)
    } else if entries.last().0 == id {
        Some(entries.last().1)
    } else {
        None
    }
}

/// The name of the file that holds the cover image of the book `id`.
pub open spec fn thumbnail_name(id: Seq<char>) -> Seq<char> {
    id + ".jpg"@
}

/// What an entry of the full listing says, as plain mathematical values.
pub struct ListedView {
    pub book: BookView,
    pub authors: Seq<Seq<char>>,
    pub isbns: Seq<Seq<char>>,
    pub thumbnail: Option<Seq<char>>,
}

impl View for BookWithThumbnail {
    type V = ListedView;

    open spec fn view(&self) -> ListedView {
        ListedView {
            book: self.book@,
            authors: author_names(self.authors@),
            isbns: texts(self.isbns@),
            thumbnail: match self.thumbnail {
                Some(p) => Some(p@),
                None => None,
            },
        }
    }
}

/// The kinds of a list of identifiers, in order.
pub open spec fn kinds(identifiers: Seq<(Seq<char>, Seq<char>)>) -> Seq<Seq<char>> {
    identifiers.map_values(|p: (Seq<char>, Seq<char>)| p.0)
}

/// Whether `codes` are the codes of `identifiers` taken backwards along
/// `order`, which sorts the identifiers by kind.
pub open spec fn codes_along(
    identifiers: Seq<(Seq<char>, Seq<char>)>,
    order: Seq<usize>,
    codes: Seq<Seq<char>>,
) -> bool {
    &&& is_sorted_order(kinds(identifiers), order)
    &&& codes.len() == identifiers.len()
    &&& forall|k: int|
        0 <= k < codes.len() ==> #[trigger] codes[k] == identifiers[order[codes.len() - 1
            - k] as int].1
}

/// Whether `codes` are the codes of `identifiers`, each once, by descending kind.
pub open spec fn lists_codes_of(codes: Seq<Seq<char>>, identifiers: Seq<(Seq<char>, Seq<char>)>) -> bool {
    exists|order: Seq<usize>| codes_along(identifiers, order, codes)
}

/// Whether `l` lists the record `r`, the cover images being `entries`.
pub open spec fn lists_record(
    l: ListedView,
    r: RecordView,
    entries: Seq<(Seq<char>, Seq<char>)>,
) -> bool {
    &&& l.book == r.book
    &&& l.authors == r.authors
    &&& lists_codes_of(l.isbns, r.identifiers)
    &&& l.thumbnail == first_path(entries, r.book.volume_id)
}

/// The name of the file that holds the cover image of the book `volume_id`.
pub fn thumbnail_file_name(volume_id: &str) -> (r: String)
    ensures
        r@ == thumbnail_name(volume_id@),
{
    let mut name = String::from_str(volume_id);
    name.append(".jpg");
    name
}

/// The path that `thumbnails` gives for the book `id`.
fn path_of(thumbnails: &Vec<Thumbnail>, id: &String) -> (r: Option<String>)
    ensures
        match r {
            Some(p) => first_path(thumbnail_pairs(thumbnails@), id@) == Some(p@),
            None => first_path(thumbnail_pairs(thumbnails@), id@) is None,
        },
{
    let ghost all = thumbnail_pairs(thumbnails@);
    let mut found: Option<String> = None;
    let mut i: usize = 0;
    assert(all.subrange(0, 0) =~= Seq::<(Seq<char>, Seq<char>)>::empty());
    while i < thumbnails.len()
        invariant
            0 <= i <= thumbnails@.len(),
            all == thumbnail_pairs(thumbnails@),
            match found {
                Some(p) => first_path(all.subrange(0, i as int), id@) == Some(p@),
                None => first_path(all.subrange(0, i as int), id@) is None,
            },
        decreases thumbnails@.len() - i,
    {
        proof {
            let next = all.subrange(0, i + 1);
            assert(next.drop_last() =~= all.subrange(0, i as int));
            assert(next.last() == all[i as int]);
        }
        if found.is_none() && same_text(&thumbnails[i].volume_id, id) {
            found = Some(thumbnails[i].path.clone());
        }
        i = i + 1;
    }
    assert(all.subrange(0, thumbnails@.len() as int) =~= all);
    found
}

/// The codes of `identifiers` by descending kind.
fn codes_of(identifiers: &Vec<Identifier>) -> (r: Vec<String>)
    ensures
        lists_codes_of(texts(r@), identifier_pairs(identifiers@)),
{
    let ghost all = identifier_pairs(identifiers@);
    let mut types: Vec<String> = Vec::new();
    let mut i: usize = 0;
    while i < identifiers.len()
        invariant
            0 <= i <= identifiers@.len(),
            types@.len() == i,
            forall|k: int| 0 <= k < i ==> #[trigger] types@[k]@ == identifiers@[k].type_@,
        decreases identifiers@.len() - i,
    {
        types.push(identifiers[i].type_.clone());
        i = i + 1;
    }
    assert(texts(types@) =~= kinds(all));
    let order = sorted_order(&types);
    let n: usize = identifiers.len();
    let mut out: Vec<String> = Vec::new();
    let mut k: usize = 0;
    while k < n
        invariant
            0 <= k <= n,
            n == identifiers@.len(),
            all == identifier_pairs(identifiers@),
            is_sorted_order(kinds(all), order@),
            out@.len() == k,
            forall|m: int| 0 <= m < k ==> #[trigger] out@[m]@ == all[order@[n - 1 - m] as int].1,
        decreases n - k,
    {
        let at: usize = order[n - 1 - k];
        out.push(identifiers[at].identifier.clone());
        k = k + 1;
    }
    assert(codes_along(all, order@, texts(out@)));
    out
}

/// The authors named by `names`.
fn authors_of(names: &Vec<String>) -> (r: Vec<Author>)
    ensures
        author_names(r@) == texts(names@),
{
    let mut out: Vec<Author> = Vec::new();
    let mut i: usize = 0;
    while i < names.len()
        invariant
            0 <= i <= names@.len(),
            out@.len() == i,
            forall|k: int| 0 <= k < i ==> (#[trigger] out@[k]).name@ == names@[k]@,
        decreases names@.len() - i,
    {
        out.push(Author { name: names[i].clone() });
        i = i + 1;
    }
    assert(author_names(out@) =~= texts(names@));
    out
}

impl Catalog {
    /// Every book, in the order in which the books were added, with its
    /// groups and custom fields, its authors by position, its identifier
    /// codes by descending kind, and the path of its cover image where
    /// `thumbnails` names one for it.
    pub fn fetch_all_books(&self, thumbnails: &Vec<Thumbnail>) -> (r: Vec<BookWithThumbnail>)
        ensures
            r@.len() == self@.records.len(),
            forall|i: int|
                0 <= i < r@.len() ==> lists_record(
                    (#[trigger] r@[i])@,
                    self@.records[i],
                    thumbnail_pairs(thumbnails@),
                ),
    {
        let records = self.records();
        let mut out: Vec<BookWithThumbnail> = Vec::new();
        let mut i: usize = 0;
        while i < records.len()
            invariant
                0 <= i <= records@.len(),
                record_views(records@) == self@.records,
                out@.len() == i,
                forall|k: int|
                    0 <= k < i ==> lists_record(
                        (#[trigger] out@[k])@,
                        self@.records[k],
                        thumbnail_pairs(thumbnails@),
                    ),
            decreases records@.len() - i,
        {
            let record = &records[i];
            assert(record@ == self@.records[i as int]);
            let listed = BookWithThumbnail {
                book: record.book.duplicate(),
                authors: authors_of(&record.authors),
                isbns: codes_of(&record.identifiers),
                thumbnail: path_of(thumbnails, &record.book.volume_id),
            };
            out.push(listed);
            i = i + 1;
        }
        out
    }
}

} // verus!
