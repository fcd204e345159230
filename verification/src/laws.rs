//! Laws of the catalog: what holds of every catalog that keeps its rules,
//! stated over the outcomes that the operations promise.

use vstd::prelude::*;
use crate::book::{UpdateBookPayload, pair_names};
use crate::model::{
    CatalogView, RecordView, catalog_wf, distinct_ids, holds, slot, stands_at, lemma_slot,
    insert_outcome, update_outcome, clone_outcome, renamed, bare, stored, series_collision, titled,
    merged, blank, lemma_stored_wf, opt_names,
};
use crate::error::CatalogError;
use crate::export::{is_export, row_of, field_value, custom_cells, titles};
use crate::identifier::{IdentifierKind, classify_spec, digits_of, is_ean13_digits};
use crate::lookup::Volume;
use crate::names::{lemma_placed_distinct, lists_names_of, placed, strictly_ascending};
use crate::text::{
    contains_folded, occurs_at, text_le, text_lt, is_sorted_order, lemma_text_lt_asymmetric,
};

verus! {

/// Thirteen digits are an EAN-13 where the last one is the check digit of
/// the others, and an ISBN-13 where it is not.
pub proof fn law_thirteen_digits(s: Seq<char>)
    requires
        digits_of(s).len() == 13,
    ensures
        is_ean13_digits(digits_of(s)) ==> classify_spec(s) == Ok::<IdentifierKind, CatalogError>(
            IdentifierKind::Ean13,
        ),
        !is_ean13_digits(digits_of(s)) ==> classify_spec(s) == Ok::<IdentifierKind, CatalogError>(
            IdentifierKind::Isbn13,
        ),
{
}

/// A text with neither ten nor thirteen digits has no kind.
pub proof fn law_other_lengths(s: Seq<char>)
    requires
        digits_of(s).len() != 10,
        digits_of(s).len() != 13,
    ensures
        classify_spec(s) == Err::<IdentifierKind, CatalogError>(
            CatalogError::InvalidIdentifierLength,
        ),
{
}

/// A book added by hand is read back as it was given: its fields, its
/// custom fields in order, its groups as a set and, where no author is
/// named twice, its authors in order.
pub proof fn law_insert_then_get(
    pre: CatalogView,
    id: Seq<char>,
    title: Seq<char>,
    number: Option<i64>,
    authors: Seq<Seq<char>>,
    groups: Seq<Seq<char>>,
    publisher: Option<Seq<char>>,
    year: Option<Seq<char>>,
    identifier: Option<Seq<char>>,
    fields: Seq<(Seq<char>, Seq<char>)>,
    post: CatalogView,
)
    requires
        catalog_wf(pre),
        insert_outcome(
            pre,
            id,
            title,
            number,
            authors,
            groups,
            publisher,
            year,
            identifier,
            fields,
            post,
            Ok(()),
        ),
    ensures
        holds(post, id),
        ({
            let rec = post.records[slot(post, id)];
            &&& rec.book.volume_id == id
            &&& rec.book.title == title
            &&& rec.book.number == number
            &&& rec.book.publisher == publisher
            &&& rec.book.published_date == year
            &&& rec.book.custom_fields == fields
            &&& forall|x: Seq<char>| rec.book.groups.contains(x) <==> groups.contains(x)
            &&& authors.no_duplicates() ==> rec.authors == authors
            &&& rec.book == (crate::book::BookView {
                number: number,
                publisher: publisher,
                published_date: year,
                groups: rec.book.groups,
                custom_fields: fields,
                ..bare(id, title)
            })
        }),
{
    let at = pre.records.len() as int;
    assert(stands_at(post, id, at));
    lemma_appended_distinct(pre, post.records[at]);
    lemma_slot(post, id, at);
    if authors.no_duplicates() {
        lemma_placed_distinct(authors, authors.len());
        assert(authors.subrange(0, authors.len() as int) =~= authors);
    }
}

/// A book whose identifier has neither ten nor thirteen digits is refused
/// for that reason and nothing is changed, where its id is free and none
/// of its groups is named twice.
pub proof fn law_bad_identifier_refused(
    pre: CatalogView,
    id: Seq<char>,
    title: Seq<char>,
    number: Option<i64>,
    authors: Seq<Seq<char>>,
    groups: Seq<Seq<char>>,
    publisher: Option<Seq<char>>,
    year: Option<Seq<char>>,
    code: Seq<char>,
    fields: Seq<(Seq<char>, Seq<char>)>,
    post: CatalogView,
    result: Result<(), CatalogError>,
)
    requires
        !holds(pre, id),
        groups.no_duplicates(),
        digits_of(code).len() != 10,
        digits_of(code).len() != 13,
        insert_outcome(
            pre,
            id,
            title,
            number,
            authors,
            groups,
            publisher,
            year,
            Some(code),
            fields,
            post,
            result,
        ),
    ensures
        result == Err::<(), CatalogError>(CatalogError::InvalidIdentifierLength),
        post == pre,
{
}

/// A record added under an id that the catalog does not hold leaves the ids unique.
pub proof fn lemma_appended_distinct(c: CatalogView, r: RecordView)
    requires
        distinct_ids(c.records),
        !holds(c, r.book.volume_id),
    ensures
        distinct_ids(c.records.push(r)),
{
    let after = c.records.push(r);
    assert forall|a: int, b: int| 0 <= a < b < after.len() implies (#[trigger] after[a]).book.volume_id
        != (#[trigger] after[b]).book.volume_id by {
        if b < c.records.len() {
            assert(c.records[a].book.volume_id != c.records[b].book.volume_id);
        } else {
            assert(!stands_at(c, r.book.volume_id, a));
        }
    }
}

/// A book is never added under the id of a book that the catalog holds,
/// and the books held stay: the ids of two books in one catalog differ.
pub proof fn law_fresh_ids_differ(
    first: Seq<char>,
    mid: CatalogView,
    second: Seq<char>,
    title: Seq<char>,
    number: Option<i64>,
    authors: Seq<Seq<char>>,
    groups: Seq<Seq<char>>,
    publisher: Option<Seq<char>>,
    year: Option<Seq<char>>,
    identifier: Option<Seq<char>>,
    fields: Seq<(Seq<char>, Seq<char>)>,
    end: CatalogView,
)
    requires
        holds(mid, first),
        insert_outcome(
            mid,
            second,
            title,
            number,
            authors,
            groups,
            publisher,
            year,
            identifier,
            fields,
            end,
            Ok(()),
        ),
    ensures
        first != second,
        holds(end, first),
        holds(end, second),
{
    let i = slot(mid, first);
    assert(stands_at(mid, first, i));
    assert(stands_at(end, first, i));
    assert(stands_at(end, second, mid.records.len() as int));
}

/// An update without authors leaves the book without authors.
pub proof fn law_update_clears_authors(pre: CatalogView, p: UpdateBookPayload, post: CatalogView)
    requires
        catalog_wf(pre),
        holds(pre, p.volume_id@),
        p.authors@.len() == 0,
        update_outcome(pre, p, post, Ok(())),
    ensures
        holds(post, p.volume_id@),
        post.records[slot(post, p.volume_id@)].authors.len() == 0,
{
    let i = slot(pre, p.volume_id@);
    assert(stands_at(pre, p.volume_id@, i));
    assert(stands_at(post, p.volume_id@, i));
    assert forall|a: int, b: int| 0 <= a < b < post.records.len() implies (
    #[trigger] post.records[a]).book.volume_id != (#[trigger] post.records[b]).book.volume_id by {
        assert(pre.records[a].book.volume_id != pre.records[b].book.volume_id);
    }
    lemma_slot(post, p.volume_id@, i);
}

/// A copy has another id than its source and is otherwise equal to it:
/// fields, authors with their positions, categories, groups, identifiers
/// and custom fields. The source stays as it was.
pub proof fn law_clone_copies(pre: CatalogView, source: Seq<char>, id: Seq<char>, post: CatalogView)
    requires
        catalog_wf(pre),
        clone_outcome(pre, source, id, post, Ok(())),
    ensures
        id != source,
        holds(post, id),
        holds(post, source),
        post.records[slot(post, id)] == renamed(pre.records[slot(pre, source)], id),
        post.records[slot(post, source)] == pre.records[slot(pre, source)],
{
    let i = slot(pre, source);
    let at = pre.records.len() as int;
    assert(stands_at(pre, source, i));
    let copy = renamed(pre.records[i], id);
    lemma_appended_distinct(pre, copy);
    assert(stands_at(post, id, at));
    assert(stands_at(post, source, i));
    lemma_slot(post, id, at);
    lemma_slot(post, source, i);
}

/// Where none of the first `n` titles contains `text`, no book is found.
proof fn lemma_titled_none(records: Seq<RecordView>, text: Seq<char>, n: nat)
    requires
        n <= records.len(),
        forall|k: int| 0 <= k < n ==> !contains_folded((#[trigger] records[k]).book.title, text),
    ensures
        titled(records, text, n).len() == 0,
    decreases n,
{
    if n > 0 {
        lemma_titled_none(records, text, (n - 1) as nat);
    }
}

/// Where exactly one of the first `n` titles contains `text`, one book is found.
proof fn lemma_titled_one(records: Seq<RecordView>, text: Seq<char>, n: nat, i: int)
    requires
        n <= records.len(),
        0 <= i < n,
        forall|k: int|
            0 <= k < n ==> (contains_folded((#[trigger] records[k]).book.title, text) <==> k == i),
    ensures
        titled(records, text, n).len() == 1,
    decreases n,
{
    if n - 1 == i {
        lemma_titled_none(records, text, (n - 1) as nat);
    } else {
        lemma_titled_one(records, text, (n - 1) as nat, i);
    }
}

/// Where one of the first `n` titles contains `text`, a book is found.
proof fn lemma_titled_some(records: Seq<RecordView>, text: Seq<char>, n: nat, i: int)
    requires
        n <= records.len(),
        0 <= i < n,
        contains_folded(records[i].book.title, text),
    ensures
        titled(records, text, n).len() >= 1,
    decreases n,
{
    if n - 1 != i {
        lemma_titled_some(records, text, (n - 1) as nat, i);
    }
}

/// Where two of the first `n` titles contain `text`, more than one book is found.
proof fn lemma_titled_two(records: Seq<RecordView>, text: Seq<char>, n: nat, i: int, j: int)
    requires
        n <= records.len(),
        0 <= i < j < n,
        contains_folded(records[i].book.title, text),
        contains_folded(records[j].book.title, text),
    ensures
        titled(records, text, n).len() >= 2,
    decreases n,
{
    if n - 1 == j {
        lemma_titled_some(records, text, (n - 1) as nat, i);
    } else {
        lemma_titled_two(records, text, (n - 1) as nat, i, j);
    }
}

/// Every text contains itself.
proof fn lemma_contains_itself(t: Seq<char>)
    ensures
        contains_folded(t, t),
{
    assert(occurs_at(t, t, 0));
}

/// A stored volume stands in the catalog under its id and with its title,
/// and every other book stands where it stood, with the title it had.
proof fn lemma_stored_titles(c: CatalogView, v: Volume)
    requires
        catalog_wf(c),
    ensures
        stored(c, v).records.len() >= c.records.len(),
        holds(stored(c, v), v.id@),
        0 <= slot(stored(c, v), v.id@) < stored(c, v).records.len(),
        stored(c, v).records[slot(stored(c, v), v.id@)].book.volume_id == v.id@,
        stored(c, v).records[slot(stored(c, v), v.id@)].book.title == v.volume_info.title@,
        distinct_ids(stored(c, v).records),
        forall|i: int|
            0 <= i < c.records.len() && c.records[i].book.volume_id != v.id@ ==> (
            #[trigger] stored(c, v).records[i]).book == c.records[i].book,
        forall|i: int|
            0 <= i < stored(c, v).records.len() && i != slot(stored(c, v), v.id@) ==> i
                < c.records.len() && (#[trigger] stored(c, v).records[i]).book
                == c.records[i].book,
{
    let post = stored(c, v);
    if holds(c, v.id@) {
        let i = slot(c, v.id@);
        assert(stands_at(c, v.id@, i));
        assert(stands_at(post, v.id@, i));
        assert forall|a: int, b: int| 0 <= a < b < post.records.len() implies (
        #[trigger] post.records[a]).book.volume_id != (
        #[trigger] post.records[b]).book.volume_id by {
            assert(c.records[a].book.volume_id != c.records[b].book.volume_id);
        }
        lemma_slot(post, v.id@, i);
    } else {
        let at = c.records.len() as int;
        lemma_appended_distinct(c, merged(blank(v), v));
        assert(stands_at(post, v.id@, at));
        lemma_slot(post, v.id@, at);
        assert forall|i: int|
            0 <= i < c.records.len() implies c.records[i].book.volume_id != v.id@ by {
            assert(!stands_at(c, v.id@, i));
        }
    }
}

/// A stored volume's authors replace those that the book had: the book has
/// the authors of the volume as placed, and none where the volume lists none.
pub proof fn law_import_replaces_authors(c: CatalogView, v: Volume)
    requires
        catalog_wf(c),
    ensures
        holds(stored(c, v), v.id@),
        stored(c, v).records[slot(stored(c, v), v.id@)].authors == placed(
            opt_names(v.volume_info.authors),
        ),
        v.volume_info.authors is None ==> stored(c, v).records[slot(
            stored(c, v),
            v.id@,
        )].authors.len() == 0,
{
    let post = stored(c, v);
    lemma_stored_titles(c, v);
    if holds(c, v.id@) {
        let i = slot(c, v.id@);
        assert(stands_at(c, v.id@, i));
        assert(stands_at(post, v.id@, i));
        lemma_slot(post, v.id@, i);
    } else {
        let at = c.records.len() as int;
        assert(stands_at(post, v.id@, at));
        lemma_slot(post, v.id@, at);
    }
}

/// After two volumes with different ids and the same title have been
/// stored, the second is signalled as a probable issue of a series.
pub proof fn law_same_title_collides(c: CatalogView, first: Volume, second: Volume)
    requires
        catalog_wf(c),
        first.id@ != second.id@,
        first.volume_info.title@ == second.volume_info.title@,
    ensures
        series_collision(stored(stored(c, first), second), second.id@),
{
    let mid = stored(c, first);
    let post = stored(mid, second);
    let title = second.volume_info.title@;
    lemma_stored_wf(c, first);
    lemma_stored_titles(c, first);
    lemma_stored_titles(mid, second);
    let i = slot(mid, first.id@);
    let j = slot(post, second.id@);
    assert(stands_at(mid, first.id@, i));
    assert(post.records[i].book == mid.records[i].book);
    assert(i != j);
    lemma_contains_itself(title);
    if i < j {
        lemma_titled_two(post.records, title, post.records.len(), i, j);
    } else {
        lemma_titled_two(post.records, title, post.records.len(), j, i);
    }
}

/// After a volume has been stored whose title no other book's title
/// contains, the volume is signalled as a plain addition.
pub proof fn law_unique_title_is_plain(c: CatalogView, v: Volume)
    requires
        catalog_wf(c),
        forall|i: int|
            0 <= i < c.records.len() && (#[trigger] c.records[i]).book.volume_id != v.id@
                ==> !contains_folded(c.records[i].book.title, v.volume_info.title@),
    ensures
        !series_collision(stored(c, v), v.id@),
{
    let post = stored(c, v);
    let title = v.volume_info.title@;
    lemma_stored_titles(c, v);
    let j = slot(post, v.id@);
    lemma_contains_itself(title);
    assert forall|k: int| 0 <= k < post.records.len() implies (contains_folded(
        (#[trigger] post.records[k]).book.title,
        title,
    ) <==> k == j) by {
        if k != j {
            assert(post.records[k].book == c.records[k].book);
            if c.records[k].book.volume_id == v.id@ {
                assert(stands_at(post, v.id@, k));
                lemma_slot(post, v.id@, k);
            }
        }
    }
    lemma_titled_one(post.records, title, post.records.len(), j);
}

/// A book without a value under a name has an empty cell under it.
pub proof fn lemma_field_absent(fields: Seq<(Seq<char>, Seq<char>)>, name: Seq<char>)
    requires
        !pair_names(fields).contains(name),
    ensures
        field_value(fields, name).len() == 0,
    decreases fields.len(),
{
    if fields.len() > 0 {
        let front = fields.drop_last();
        assert(pair_names(fields)[fields.len() - 1] == fields.last().0);
        assert forall|k: int| 0 <= k < front.len() implies pair_names(front)[k] != name by {
            assert(pair_names(fields)[k] == pair_names(front)[k]);
        }
        lemma_field_absent(front, name);
    }
}

/// An export has one row per book, each book once, by ascending title;
/// after the fixed columns it has one column per custom-field name of the
/// catalog, each name once; and a book without a value under a name has an
/// empty cell in that column.
pub proof fn law_export(c: CatalogView, t: Seq<Seq<Seq<char>>>, order: Seq<usize>)
    requires
        catalog_wf(c),
        is_export(c, t, order),
    ensures
        t.len() == c.records.len() + 1,
        forall|b: usize| b < c.records.len() ==> #[trigger] order.contains(b),
        forall|i: int, j: int| 0 <= i < j < order.len() ==> order[i] != order[j],
        forall|i: int, j: int|
            0 <= i < j < c.records.len() ==> text_le(
                (#[trigger] t[i + 1])[1],
                (#[trigger] t[j + 1])[1],
            ),
        forall|k: int|
            0 <= k < c.records.len() ==> (#[trigger] t[k + 1]).len() == t[0].len() && t[k + 1][0]
                == c.records[order[k] as int].book.volume_id,
        forall|name: Seq<char>|
            c.custom_fields.contains(name) <==> t[0].subrange(31, t[0].len() as int).contains(
                name,
            ),
        t[0].subrange(31, t[0].len() as int).no_duplicates(),
        forall|k: int, m: int|
            0 <= k < c.records.len() && 31 <= m < t[0].len() && !pair_names(
                c.records[order[k] as int].book.custom_fields,
            ).contains(t[0][m]) ==> (#[trigger] t[k + 1][m]).len() == 0,
{
    let columns = t[0].subrange(31, t[0].len() as int);
    let ts = titles(c.records);
    assert forall|b: usize| b < c.records.len() implies #[trigger] order.contains(b) by {
        assert(b < ts.len());
    }
    assert forall|i: int, j: int| 0 <= i < j < c.records.len() implies text_le(
        (#[trigger] t[i + 1])[1],
        (#[trigger] t[j + 1])[1],
    ) by {
        assert(t[i + 1] == row_of(c.records[order[i] as int], columns));
        assert(t[j + 1] == row_of(c.records[order[j] as int], columns));
        assert(text_le(ts[order[i] as int], ts[order[j] as int]));
    }
    assert forall|a: int, b: int| 0 <= a < b < columns.len() implies columns[a] != columns[b] by {
        lemma_text_lt_asymmetric(columns[a], columns[b]);
    }
    assert forall|k: int, m: int|
        0 <= k < c.records.len() && 31 <= m < t[0].len() && !pair_names(
            c.records[order[k] as int].book.custom_fields,
        ).contains(t[0][m]) implies (#[trigger] t[k + 1][m]).len() == 0 by {
        let r = c.records[order[k] as int];
        assert(t[k + 1] == row_of(r, columns));
        assert(columns[m - 31] == t[0][m]);
        assert(row_of(r, columns)[m] == custom_cells(r, columns)[m - 31]);
        lemma_field_absent(r.book.custom_fields, t[0][m]);
    }
    assert forall|k: int| 0 <= k < c.records.len() implies (#[trigger] t[k + 1]).len()
        == t[0].len() && t[k + 1][0] == c.records[order[k] as int].book.volume_id by {
        assert(t[k + 1] == row_of(c.records[order[k] as int], columns));
    }
}

/// There is one ascending listing of given names and no other.
pub proof fn law_one_listing(a: Seq<Seq<char>>, b: Seq<Seq<char>>, names: Seq<Seq<char>>)
    requires
        lists_names_of(a, names),
        lists_names_of(b, names),
    ensures
        a == b,
    decreases a.len(),
{
    if a.len() == 0 {
        if b.len() > 0 {
            assert(b.contains(b[0]));
            assert(names.contains(b[0]));
            assert(a.contains(b[0]));
        }
        assert(a =~= b);
    } else {
        assert(a.contains(a.last()));
        assert(names.contains(a.last()));
        assert(b.contains(a.last()));
        let j = choose|j: int| 0 <= j < b.len() && b[j] == a.last();
        assert(b.contains(b.last()));
        assert(names.contains(b.last()));
        assert(a.contains(b.last()));
        let i = choose|i: int| 0 <= i < a.len() && a[i] == b.last();
        if a.last() != b.last() {
            assert(text_lt(b[j], b[b.len() - 1]));
            assert(text_lt(a[i], a[a.len() - 1]));
            lemma_text_lt_asymmetric(a.last(), b.last());
        }
        let a2 = a.drop_last();
        let b2 = b.drop_last();
        assert forall|x: Seq<char>| b2.contains(x) <==> a2.contains(x) by {
            if b2.contains(x) {
                let k = choose|k: int| 0 <= k < b2.len() && b2[k] == x;
                assert(text_lt(b[k], b[b.len() - 1]));
                lemma_text_lt_asymmetric(x, b.last());
                assert(b.contains(b[k]));
                assert(names.contains(x));
                assert(a.contains(x));
                let m = choose|m: int| 0 <= m < a.len() && a[m] == x;
                assert(a2[m] == x);
            }
            if a2.contains(x) {
                let k = choose|k: int| 0 <= k < a2.len() && a2[k] == x;
                assert(text_lt(a[k], a[a.len() - 1]));
                lemma_text_lt_asymmetric(x, a.last());
                assert(a.contains(a[k]));
                assert(names.contains(x));
                assert(b.contains(x));
                let m = choose|m: int| 0 <= m < b.len() && b[m] == x;
                assert(b2[m] == x);
            }
        }
        assert(strictly_ascending(a2)) by {
            assert forall|x: int, y: int| 0 <= x < y < a2.len() implies text_lt(
                #[trigger] a2[x],
                #[trigger] a2[y],
            ) by {
                assert(text_lt(a[x], a[y]));
            }
        }
        assert(strictly_ascending(b2)) by {
            assert forall|x: int, y: int| 0 <= x < y < b2.len() implies text_lt(
                #[trigger] b2[x],
                #[trigger] b2[y],
            ) by {
                assert(text_lt(b[x], b[y]));
            }
        }
        law_one_listing(a2, b2, a2);
        assert(a =~= a2.push(a.last()));
        assert(b =~= b2.push(b.last()));
    }
}

/// Whether the key at index `i` comes before the key at index `j`: it is
/// the smaller, or the two are equal and `i` is the smaller index.
pub open spec fn comes_before(keys: Seq<Seq<char>>, i: usize, j: usize) -> bool {
    text_lt(keys[i as int], keys[j as int]) || (keys[i as int] == keys[j as int] && i < j)
}

/// Whether each index of `order` comes before the next.
pub open spec fn ascending_indices(keys: Seq<Seq<char>>, order: Seq<usize>) -> bool {
    forall|a: int, b: int|
        0 <= a < b < order.len() ==> comes_before(keys, #[trigger] order[a], #[trigger] order[b])
}

/// Two ascending lists of the same indices are equal.
proof fn lemma_one_ascending(keys: Seq<Seq<char>>, p: Seq<usize>, q: Seq<usize>)
    requires
        ascending_indices(keys, p),
        ascending_indices(keys, q),
        forall|x: usize| p.contains(x) <==> q.contains(x),
    ensures
        p == q,
    decreases p.len(),
{
    if p.len() == 0 {
        if q.len() > 0 {
            assert(q.contains(q[0]));
            assert(p.contains(q[0]));
        }
        assert(p =~= q);
    } else {
        assert(p.contains(p.last()));
        assert(q.contains(p.last()));
        let j = choose|j: int| 0 <= j < q.len() && q[j] == p.last();
        assert(q.contains(q.last()));
        assert(p.contains(q.last()));
        let i = choose|i: int| 0 <= i < p.len() && p[i] == q.last();
        if p.last() != q.last() {
            assert(comes_before(keys, q[j], q[q.len() - 1]));
            assert(comes_before(keys, p[i], p[p.len() - 1]));
            if text_lt(keys[p.last() as int], keys[q.last() as int]) {
                lemma_text_lt_asymmetric(keys[p.last() as int], keys[q.last() as int]);
            }
            if text_lt(keys[q.last() as int], keys[p.last() as int]) {
                lemma_text_lt_asymmetric(keys[q.last() as int], keys[p.last() as int]);
            }
        }
        let p2 = p.drop_last();
        let q2 = q.drop_last();
        assert forall|x: usize| p2.contains(x) <==> q2.contains(x) by {
            if q2.contains(x) {
                let k = choose|k: int| 0 <= k < q2.len() && q2[k] == x;
                assert(comes_before(keys, q[k], q[q.len() - 1]));
                if text_lt(keys[x as int], keys[q.last() as int]) {
                    lemma_text_lt_asymmetric(keys[x as int], keys[q.last() as int]);
                }
                assert(q.contains(q[k]));
                assert(p.contains(x));
                let m = choose|m: int| 0 <= m < p.len() && p[m] == x;
                assert(p2[m] == x);
            }
            if p2.contains(x) {
                let k = choose|k: int| 0 <= k < p2.len() && p2[k] == x;
                assert(comes_before(keys, p[k], p[p.len() - 1]));
                if text_lt(keys[x as int], keys[p.last() as int]) {
                    lemma_text_lt_asymmetric(keys[x as int], keys[p.last() as int]);
                }
                assert(p.contains(p[k]));
                assert(q.contains(x));
                let m = choose|m: int| 0 <= m < q.len() && q[m] == x;
                assert(q2[m] == x);
            }
        }
        assert(ascending_indices(keys, p2)) by {
            assert forall|x: int, y: int| 0 <= x < y < p2.len() implies comes_before(
                keys,
                #[trigger] p2[x],
                #[trigger] p2[y],
            ) by {
                assert(comes_before(keys, p[x], p[y]));
            }
        }
        assert(ascending_indices(keys, q2)) by {
            assert forall|x: int, y: int| 0 <= x < y < q2.len() implies comes_before(
                keys,
                #[trigger] q2[x],
                #[trigger] q2[y],
            ) by {
                assert(comes_before(keys, q[x], q[y]));
            }
        }
        lemma_one_ascending(keys, p2, q2);
        assert(p =~= p2.push(p.last()));
        assert(q =~= q2.push(q.last()));
    }
}

/// There is one order that sorts given keys and keeps equal keys in place,
/// and no other.
pub proof fn law_one_order(keys: Seq<Seq<char>>, p: Seq<usize>, q: Seq<usize>)
    requires
        is_sorted_order(keys, p),
        is_sorted_order(keys, q),
    ensures
        p == q,
{
    assert forall|x: usize| p.contains(x) <==> q.contains(x) by {
        if p.contains(x) {
            let k = choose|k: int| 0 <= k < p.len() && p[k] == x;
            assert((p[k] as int) < keys.len());
        }
        if q.contains(x) {
            let k = choose|k: int| 0 <= k < q.len() && q[k] == x;
            assert((q[k] as int) < keys.len());
        }
    }
    lemma_one_ascending(keys, p, q);
}

} // verus!
