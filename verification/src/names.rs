//! Tables of unique names and the lists of names that books refer to them by.

use vstd::prelude::*;
use vstd::string::*;
use crate::text::{
    texts, text_lt, text_le, text_precedes, sorted_order, is_sorted_order, same_text,
    lemma_text_lt_transitive,
};

verus! {

/// The table `t` with `x` added at its end, unless `t` holds it already.
pub open spec fn with_name(t: Seq<Seq<char>>, x: Seq<char>) -> Seq<Seq<char>> {
    if t.contains(x) {
        t
    } else {
        t.push(x)
    }
}

/// The table `t` after each of `names`, in order, has been looked up and,
/// where absent, added at the end.
pub open spec fn with_names(t: Seq<Seq<char>>, names: Seq<Seq<char>>) -> Seq<Seq<char>>
    decreases names.len(),
{
    if names.len() == 0 {
        t
    } else {
        with_name(with_names(t, names.drop_last()), names.last())
    }
}

/// Whether every one of `names` stands in `table`.
pub open spec fn all_in(names: Seq<Seq<char>>, table: Seq<Seq<char>>) -> bool {
    forall|i: int| 0 <= i < names.len() ==> table.contains(#[trigger] names[i])
}

/// Adding names keeps a table free of repetitions, keeps what it held in
/// place, and makes it hold each added name and nothing else.
pub proof fn lemma_with_names(t: Seq<Seq<char>>, names: Seq<Seq<char>>)
    requires
        t.no_duplicates(),
    ensures
        with_names(t, names).no_duplicates(),
        t.len() <= with_names(t, names).len(),
        forall|i: int| 0 <= i < t.len() ==> with_names(t, names)[i] == #[trigger] t[i],
        forall|x: Seq<char>| t.contains(x) ==> with_names(t, names).contains(x),
        all_in(names, with_names(t, names)),
        forall|x: Seq<char>| #[trigger]
            with_names(t, names).contains(x) ==> t.contains(x) || names.contains(x),
    decreases names.len(),
{
    if names.len() > 0 {
        let front = names.drop_last();
        let mid = with_names(t, front);
        let out = with_names(t, names);
        lemma_with_names(t, front);
        assert forall|x: Seq<char>| mid.contains(x) implies out.contains(x) by {
            let k = choose|k: int| 0 <= k < mid.len() && mid[k] == x;
            assert(out[k] == x);
        }
        assert(out.contains(names.last())) by {
            if !mid.contains(names.last()) {
                assert(out[mid.len() as int] == names.last());
            }
        }
        assert forall|i: int| 0 <= i < names.len() implies out.contains(#[trigger] names[i]) by {
            if i < names.len() - 1 {
                assert(front[i] == names[i]);
            }
        }
        assert forall|x: Seq<char>| #[trigger] out.contains(x) implies t.contains(x)
            || names.contains(x) by {
            let k = choose|k: int| 0 <= k < out.len() && out[k] == x;
            if k < mid.len() {
                assert(mid.contains(x));
                if front.contains(x) {
                    let m = choose|m: int| 0 <= m < front.len() && front[m] == x;
                    assert(names[m] == x);
                }
            } else {
                assert(names[names.len() - 1] == x);
            }
        }
        assert forall|x: Seq<char>| t.contains(x) implies out.contains(x) by {
            assert(mid.contains(x));
        }
    }
}

/// Where `name` stands in `table`, if it does.
pub fn position_of(table: &Vec<String>, name: &String) -> (r: Option<usize>)
    ensures
        match r {
            Some(k) => k < table@.len() && table@[k as int]@ == name@,
            None => !texts(table@).contains(name@),
        },
{
    let mut i: usize = 0;
    while i < table.len()
        invariant
            0 <= i <= table@.len(),
            forall|k: int| 0 <= k < i ==> table@[k]@ != name@,
        decreases table@.len() - i,
    {
        if same_text(&table[i], name) {
            return Some(i);
        }
        i = i + 1;
    }
    None
}

/// Makes sure that `table` holds each of `names`, adding the absent ones at the end.
pub fn ensure_names(table: &mut Vec<String>, names: &Vec<String>)
    ensures
        texts(final(table)@) == with_names(texts(old(table)@), texts(names@)),
{
    let ghost start = texts(table@);
    let ghost all = texts(names@);
    let mut i: usize = 0;
    assert(all.subrange(0, 0) =~= Seq::<Seq<char>>::empty());
    while i < names.len()
        invariant
            0 <= i <= names@.len(),
            all == texts(names@),
            texts(table@) == with_names(start, all.subrange(0, i as int)),
        decreases names@.len() - i,
    {
        proof {
            let next = all.subrange(0, i + 1);
            assert(next.drop_last() =~= all.subrange(0, i as int));
            assert(next.last() == names@[i as int]@);
        }
        let ghost before = texts(table@);
        match position_of(table, &names[i]) {
            Some(k) => {
                assert(before[k as int] == names@[i as int]@);
            },
            None => {
                table.push(names[i].clone());
                assert(texts(table@) =~= before.push(names@[i as int]@));
            },
        }
        i = i + 1;
    }
    assert(all.subrange(0, names@.len() as int) =~= all);
}

/// Whether the name at index `i` of `names` stands again further on.
pub open spec fn occurs_later(names: Seq<Seq<char>>, i: int) -> bool {
    exists|j: int| i < j < names.len() && names[j] == names[i]
}

/// Of the first `n` of `names`, those that do not stand again further on in
/// `names`, in order: each name once, placed where it was named last.
pub open spec fn last_occurrences(names: Seq<Seq<char>>, n: nat) -> Seq<Seq<char>>
    decreases n,
{
    if n == 0 {
        Seq::empty()
    } else if occurs_later(names, n - 1) {
        last_occurrences(names, (n - 1) as nat)
    } else {
        last_occurrences(names, (n - 1) as nat).push(names[n - 1])
    }
}

/// The order in which the authors named by `names` stand with a book: a name
/// given again moves to its later place.
pub open spec fn placed(names: Seq<Seq<char>>) -> Seq<Seq<char>> {
    last_occurrences(names, names.len())
}

/// Every placed name is one of the names given, at a place after which it
/// is not given again; so no name is placed twice.
pub proof fn lemma_last_occurrences(names: Seq<Seq<char>>, n: nat)
    requires
        n <= names.len(),
    ensures
        last_occurrences(names, n).no_duplicates(),
        last_occurrences(names, n).len() <= n,
        forall|k: int|
            0 <= k < last_occurrences(names, n).len() ==> exists|i: int|
                0 <= i < n && !occurs_later(names, i) && names[i] == #[trigger] last_occurrences(
                    names,
                    n,
                )[k],
    decreases n,
{
    if n > 0 {
        lemma_last_occurrences(names, (n - 1) as nat);
        let prev = last_occurrences(names, (n - 1) as nat);
        let cur = last_occurrences(names, n);
        if !occurs_later(names, n - 1) {
            assert forall|k: int| 0 <= k < cur.len() implies exists|i: int|
                0 <= i < n && !occurs_later(names, i) && names[i] == #[trigger] cur[k] by {
                if k < prev.len() {
                    let i = choose|i: int|
                        0 <= i < n - 1 && !occurs_later(names, i) && names[i] == prev[k];
                    assert(0 <= i < n && !occurs_later(names, i) && names[i] == cur[k]);
                } else {
                    assert(0 <= n - 1 < n && !occurs_later(names, n - 1) && names[n - 1]
                        == cur[k]);
                }
            }
            assert forall|a: int, b: int| 0 <= a < b < cur.len() implies cur[a] != cur[b] by {
                if b == prev.len() {
                    let i = choose|i: int|
                        0 <= i < n - 1 && !occurs_later(names, i) && names[i] == prev[a];
                    if cur[a] == cur[b] {
                        assert(i < n - 1 < names.len() && names[n - 1] == names[i]);
                        assert(occurs_later(names, i));
                    }
                }
            }
        }
    }
}

/// Names given without repetition are placed as given.
pub proof fn lemma_placed_distinct(names: Seq<Seq<char>>, n: nat)
    requires
        names.no_duplicates(),
        n <= names.len(),
    ensures
        last_occurrences(names, n) == names.subrange(0, n as int),
    decreases n,
{
    if n > 0 {
        lemma_placed_distinct(names, (n - 1) as nat);
        assert(!occurs_later(names, n - 1));
        assert(names.subrange(0, n - 1).push(names[n - 1]) =~= names.subrange(0, n as int));
    } else {
        assert(names.subrange(0, 0) =~= Seq::<Seq<char>>::empty());
    }
}

/// Every placed name is one of the names given.
pub proof fn lemma_placed_in(names: Seq<Seq<char>>, table: Seq<Seq<char>>)
    requires
        all_in(names, table),
    ensures
        all_in(placed(names), table),
        placed(names).no_duplicates(),
{
    lemma_last_occurrences(names, names.len());
}

/// Places `names` as the authors of a book.
pub fn place(names: &Vec<String>) -> (r: Vec<String>)
    ensures
        texts(r@) == placed(texts(names@)),
{
    let ghost all = texts(names@);
    let mut out: Vec<String> = Vec::new();
    let mut i: usize = 0;
    while i < names.len()
        invariant
            0 <= i <= names@.len(),
            all == texts(names@),
            texts(out@) == last_occurrences(all, i as nat),
        decreases names@.len() - i,
    {
        let mut j: usize = i + 1;
        let mut again = false;
        while j < names.len() && !again
            invariant
                i < names@.len(),
                i + 1 <= j <= names@.len(),
                all == texts(names@),
                again ==> occurs_later(all, i as int),
                !again ==> forall|m: int| i < m < j ==> all[m] != all[i as int],
            decreases names@.len() - j + (if again { 0int } else { 1int }),
        {
            if same_text(&names[j], &names[i]) {
                assert(all[j as int] == all[i as int]);
                again = true;
            } else {
                j = j + 1;
            }
        }
        if !again {
            let ghost before = texts(out@);
            out.push(names[i].clone());
            assert(texts(out@) =~= before.push(all[i as int]));
        }
        i = i + 1;
    }
    out
}

/// Whether no name stands twice in `names`.
pub fn all_distinct(names: &Vec<String>) -> (r: bool)
    ensures
        r == texts(names@).no_duplicates(),
{
    let ghost all = texts(names@);
    let mut i: usize = 0;
    while i < names.len()
        invariant
            0 <= i <= names@.len(),
            all == texts(names@),
            forall|a: int, b: int| 0 <= a < b < names@.len() && a < i ==> all[a] != all[b],
        decreases names@.len() - i,
    {
        let mut j: usize = i + 1;
        while j < names.len()
            invariant
                i < names@.len(),
                i + 1 <= j <= names@.len(),
                all == texts(names@),
                forall|b: int| i < b < j ==> all[i as int] != all[b],
            decreases names@.len() - j,
        {
            if same_text(&names[i], &names[j]) {
                assert(all[i as int] == all[j as int]);
                return false;
            }
            j = j + 1;
        }
        i = i + 1;
    }
    assert forall|a: int, b: int| 0 <= a < all.len() && 0 <= b < all.len() && a != b implies all[a]
        != all[b] by {
        if a < b {
        } else {
            assert(all[b] != all[a]);
        }
    }
    true
}

/// Whether each name of `s` precedes the next.
pub open spec fn strictly_ascending(s: Seq<Seq<char>>) -> bool {
    forall|i: int, j: int| 0 <= i < j < s.len() ==> text_lt(#[trigger] s[i], #[trigger] s[j])
}

/// Whether `listing` holds exactly the names of `names`, each once, in ascending order.
pub open spec fn lists_names_of(listing: Seq<Seq<char>>, names: Seq<Seq<char>>) -> bool {
    &&& strictly_ascending(listing)
    &&& forall|x: Seq<char>| listing.contains(x) <==> names.contains(x)
}

/// Whether each name of `names` precedes the next.
pub fn ascending(names: &Vec<String>) -> (r: bool)
    ensures
        r == strictly_ascending(texts(names@)),
{
    let ghost all = texts(names@);
    if names.len() < 2 {
        return true;
    }
    let mut i: usize = 1;
    while i < names.len()
        invariant
            1 <= i <= names@.len(),
            all == texts(names@),
            forall|a: int, b: int| 0 <= a < b < i ==> text_lt(#[trigger] all[a], #[trigger] all[b]),
        decreases names@.len() - i,
    {
        if !text_precedes(names[i - 1].as_str(), names[i].as_str()) {
            assert(!text_lt(all[i - 1], all[i as int]));
            return false;
        }
        assert forall|a: int, b: int| 0 <= a < b < i + 1 implies text_lt(
            #[trigger] all[a],
            #[trigger] all[b],
        ) by {
            if b == i && a < i - 1 {
                lemma_text_lt_transitive(all[a], all[i - 1], all[i as int]);
            }
        }
        i = i + 1;
    }
    true
}

/// Whether every one of `names` stands in `table`.
pub fn within(names: &Vec<String>, table: &Vec<String>) -> (r: bool)
    ensures
        r == all_in(texts(names@), texts(table@)),
{
    let mut i: usize = 0;
    while i < names.len()
        invariant
            0 <= i <= names@.len(),
            forall|k: int| 0 <= k < i ==> texts(table@).contains(#[trigger] texts(names@)[k]),
        decreases names@.len() - i,
    {
        match position_of(table, &names[i]) {
            Some(k) => {
                assert(texts(table@)[k as int] == texts(names@)[i as int]);
            },
            None => {
                assert(!texts(table@).contains(texts(names@)[i as int]));
                return false;
            },
        }
        i = i + 1;
    }
    true
}

/// The names of `names` in ascending order.
pub(crate) fn sorted_names(names: &Vec<String>) -> (r: Vec<String>)
    requires
        texts(names@).no_duplicates(),
    ensures
        lists_names_of(texts(r@), texts(names@)),
        r@.len() == names@.len(),
{
    let ghost all = texts(names@);
    let order = sorted_order(names);
    let mut out: Vec<String> = Vec::new();
    let mut i: usize = 0;
    while i < order.len()
        invariant
            0 <= i <= order@.len(),
            all == texts(names@),
            is_sorted_order(all, order@),
            out@.len() == i,
            forall|k: int| 0 <= k < i ==> #[trigger] out@[k]@ == all[order@[k] as int],
        decreases order@.len() - i,
    {
        out.push(names[order[i]].clone());
        i = i + 1;
    }
    proof {
        let listing = texts(out@);
        assert forall|a: int, b: int| 0 <= a < b < listing.len() implies text_lt(
            #[trigger] listing[a],
            #[trigger] listing[b],
        ) by {
            assert(listing[a] == all[order@[a] as int]);
            assert(listing[b] == all[order@[b] as int]);
            assert(text_le(all[order@[a] as int], all[order@[b] as int]));
        }
        assert forall|x: Seq<char>| listing.contains(x) <==> all.contains(x) by {
            if listing.contains(x) {
                let k = choose|k: int| 0 <= k < listing.len() && listing[k] == x;
                assert(all[order@[k] as int] == x);
            }
            if all.contains(x) {
                let k = choose|k: int| 0 <= k < all.len() && all[k] == x;
                assert(order@.contains(k as usize));
                let p = choose|p: int| 0 <= p < order@.len() && order@[p] == k as usize;
                assert(listing[p] == x);
            }
        }
    }
    out
}

} // verus!
