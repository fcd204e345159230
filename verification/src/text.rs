//! Text primitives of the catalog: ordering and searching of names and
//! titles, joining of lists, and the order in which sorted listings come out.

use vstd::prelude::*;
use vstd::string::*;

verus! {

/// The code of `c` with the upper-case Latin letters folded onto the lower-case ones.
pub open spec fn folded(c: char) -> int {
    if 'A' <= c && c <= 'Z' {
        c as int + 32
    } else {
        c as int
    }
}

/// Whether `needle` stands in `hay` at offset `at`, letter case aside.
pub open spec fn occurs_at(hay: Seq<char>, needle: Seq<char>, at: int) -> bool {
    &&& 0 <= at
    &&& at + needle.len() <= hay.len()
    &&& forall|j: int| 0 <= j < needle.len() ==> folded(#[trigger] hay[at + j]) == folded(needle[j])
}

/// Whether `needle` occurs somewhere in `hay`, letter case aside.
pub open spec fn contains_folded(hay: Seq<char>, needle: Seq<char>) -> bool {
    exists|at: int| occurs_at(hay, needle, at)
}

/// Whether `k` is where `a` first falls below `b`: the two agree before `k`,
/// and there `a` ends while `b` goes on, or `a` holds the smaller character.
pub open spec fn falls_below_at(a: Seq<char>, b: Seq<char>, k: int) -> bool {
    &&& 0 <= k <= a.len()
    &&& k <= b.len()
    &&& forall|j: int| 0 <= j < k ==> #[trigger] a[j] == b[j]
    &&& if k == a.len() {
        k < b.len()
    } else {
        k < b.len() && a[k] < b[k]
    }
}

/// Strict lexicographic order of texts by character code.
pub open spec fn text_lt(a: Seq<char>, b: Seq<char>) -> bool {
    exists|k: int| falls_below_at(a, b, k)
}

/// Lexicographic order of texts by character code.
pub open spec fn text_le(a: Seq<char>, b: Seq<char>) -> bool {
    a == b || text_lt(a, b)
}

/// The order is transitive.
pub proof fn lemma_text_le_transitive(a: Seq<char>, b: Seq<char>, c: Seq<char>)
    requires
        text_le(a, b),
        text_le(b, c),
    ensures
        text_le(a, c),
{
    if a != b && b != c {
        let k1 = choose|k: int| falls_below_at(a, b, k);
        let k2 = choose|k: int| falls_below_at(b, c, k);
        let k = if k1 <= k2 { k1 } else { k2 };
        assert(falls_below_at(a, c, k));
    }
}

/// The strict order is transitive.
pub proof fn lemma_text_lt_transitive(a: Seq<char>, b: Seq<char>, c: Seq<char>)
    requires
        text_lt(a, b),
        text_lt(b, c),
    ensures
        text_lt(a, c),
{
    let k1 = choose|k: int| falls_below_at(a, b, k);
    let k2 = choose|k: int| falls_below_at(b, c, k);
    let k = if k1 <= k2 { k1 } else { k2 };
    assert(falls_below_at(a, c, k));
}

/// Nothing precedes itself, and no two texts precede each other.
pub proof fn lemma_text_lt_asymmetric(a: Seq<char>, b: Seq<char>)
    requires
        text_lt(a, b),
    ensures
        a != b,
        !text_lt(b, a),
{
    let k1 = choose|k: int| falls_below_at(a, b, k);
    if text_lt(b, a) {
        let k2 = choose|k: int| falls_below_at(b, a, k);
        assert(false);
    }
}

/// The characters of `s`, for indexed reading.
pub fn chars_of(s: &str) -> (r: Vec<char>)
    ensures
        r@ == s@,
{
    let n: usize = s.unicode_len();
    let mut out: Vec<char> = Vec::new();
    let mut i: usize = 0;
    while i < n
        invariant
            n == s@.len(),
            0 <= i <= n,
            out@ == s@.subrange(0, i as int),
        decreases n - i,
    {
        let c: char = s.get_char(i);
        out.push(c);
        assert(out@ =~= s@.subrange(0, i + 1));
        i = i + 1;
    }
    assert(s@.subrange(0, n as int) =~= s@);
    out
}

/// Decides the strict order of two texts.
pub fn text_precedes(a: &str, b: &str) -> (r: bool)
    ensures
        r == text_lt(a@, b@),
        !r ==> text_le(b@, a@),
{
    let x = chars_of(a);
    let y = chars_of(b);
    let mut k: usize = 0;
    while k < x.len() && k < y.len() && x[k] == y[k]
        invariant
            0 <= k <= x@.len(),
            k <= y@.len(),
            forall|j: int| 0 <= j < k ==> #[trigger] x@[j] == y@[j],
        decreases x@.len() - k,
    {
        k = k + 1;
    }
    if k == x.len() {
        if k < y.len() {
            assert(falls_below_at(x@, y@, k as int));
            true
        } else {
            assert(x@ =~= y@);
            assert forall|m: int| !falls_below_at(x@, y@, m) by {}
            false
        }
    } else if k == y.len() {
        assert(falls_below_at(y@, x@, k as int));
        assert forall|m: int| !falls_below_at(x@, y@, m) by {
            if falls_below_at(x@, y@, m) {
                if m > k {
                    assert(x@[k as int] == y@[k as int]);
                }
            }
        }
        false
    } else if x[k] < y[k] {
        assert(falls_below_at(x@, y@, k as int));
        true
    } else {
        assert(falls_below_at(y@, x@, k as int));
        assert forall|m: int| !falls_below_at(x@, y@, m) by {
            if falls_below_at(x@, y@, m) {
                if m > k {
                    assert(x@[k as int] == y@[k as int]);
                } else if m < k {
                    assert(x@[m] == y@[m]);
                }
            }
        }
        false
    }
}

/// The folded code of `c`.
fn fold(c: char) -> (r: u32)
    ensures
        r as int == folded(c),
{
    let v: u32 = c as u32;
    if c >= 'A' && c <= 'Z' {
        v + 32
    } else {
        v
    }
}

/// Whether `needle` stands in `hay` at `at`, letter case aside.
fn occurs(hay: &Vec<char>, needle: &Vec<char>, at: usize) -> (r: bool)
    requires
        at + needle@.len() <= hay@.len(),
    ensures
        r == occurs_at(hay@, needle@, at as int),
{
    let total: usize = hay.len();
    let mut j: usize = 0;
    while j < needle.len()
        invariant
            0 <= j <= needle@.len(),
            total == hay@.len(),
            at + needle@.len() <= hay@.len(),
            forall|m: int| 0 <= m < j ==> folded(#[trigger] hay@[at + m]) == folded(needle@[m]),
        decreases needle@.len() - j,
    {
        if fold(hay[at + j]) != fold(needle[j]) {
            return false;
        }
        j = j + 1;
    }
    true
}

/// Decides whether `needle` occurs in `hay`, letter case aside.
pub fn contains_ignoring_case(hay: &str, needle: &str) -> (r: bool)
    ensures
        r == contains_folded(hay@, needle@),
{
    let h = chars_of(hay);
    let n = chars_of(needle);
    if n.len() > h.len() {
        assert forall|at: int| !occurs_at(hay@, needle@, at) by {}
        return false;
    }
    let last: usize = h.len() - n.len();
    let mut at: usize = 0;
    while at < last
        invariant
            h@ == hay@,
            n@ == needle@,
            last == h@.len() - n@.len(),
            0 <= at <= last,
            forall|m: int| 0 <= m < at ==> !occurs_at(hay@, needle@, m),
        decreases last - at,
    {
        if occurs(&h, &n, at) {
            return true;
        }
        at = at + 1;
    }
    let found = occurs(&h, &n, last);
    assert(!found ==> forall|m: int| !occurs_at(hay@, needle@, m));
    found
}

/// The views of a list of strings.
pub open spec fn texts(v: Seq<String>) -> Seq<Seq<char>> {
    v.map_values(|s: String| s@)
}

/// The parts of `parts` written one after another with `sep` between neighbours.
pub open spec fn joined(parts: Seq<Seq<char>>, sep: Seq<char>) -> Seq<char>
    decreases parts.len(),
{
    if parts.len() == 0 {
        Seq::empty()
    } else if parts.len() == 1 {
        parts[0]
    } else {
        joined(parts.drop_last(), sep) + sep + parts.last()
    }
}

/// Joins `parts` with `sep` between neighbours.
pub fn join(parts: &Vec<String>, sep: &str) -> (r: String)
    ensures
        r@ == joined(texts(parts@), sep@),
{
    let mut out = String::new();
    let mut i: usize = 0;
    let ghost all = texts(parts@);
    assert(all.subrange(0, 0) =~= Seq::<Seq<char>>::empty());
    while i < parts.len()
        invariant
            0 <= i <= parts@.len(),
            all == texts(parts@),
            out@ == joined(all.subrange(0, i as int), sep@),
        decreases parts@.len() - i,
    {
        proof {
            let next = all.subrange(0, i + 1);
            assert(next.drop_last() =~= all.subrange(0, i as int));
            assert(next.last() == parts@[i as int]@);
            if i == 0 {
                assert(out@ =~= Seq::<char>::empty());
                assert(out@ + parts@[0]@ =~= parts@[0]@);
            }
        }
        if i > 0 {
            out.append(sep);
        }
        out.append(parts[i].as_str());
        i = i + 1;
    }
    assert(all.subrange(0, parts@.len() as int) =~= all);
    out
}

/// Whether `order` lists every index of `keys` once, by ascending key, equal
/// keys in the order in which they stand in `keys`.
pub open spec fn is_sorted_order(keys: Seq<Seq<char>>, order: Seq<usize>) -> bool {
    &&& order.len() == keys.len()
    &&& forall|i: int| 0 <= i < order.len() ==> (#[trigger] order[i] as int) < keys.len()
    &&& forall|k: usize| k < keys.len() ==> #[trigger] order.contains(k)
    &&& forall|i: int, j: int|
        0 <= i < j < order.len() ==> {
            &&& text_le(keys[#[trigger] order[i] as int], keys[#[trigger] order[j] as int])
            &&& keys[order[i] as int] == keys[order[j] as int] ==> order[i] < order[j]
        }
}

/// The indices of `keys` by ascending key; equal keys keep their order.
pub fn sorted_order(keys: &Vec<String>) -> (order: Vec<usize>)
    ensures
        is_sorted_order(texts(keys@), order@),
{
    let ghost ks = texts(keys@);
    let mut out: Vec<usize> = Vec::new();
    let mut i: usize = 0;
    while i < keys.len()
        invariant
            0 <= i <= keys@.len(),
            ks == texts(keys@),
            out@.len() == i,
            forall|a: int| 0 <= a < out@.len() ==> (#[trigger] out@[a] as int) < i,
            forall|k: usize| k < i ==> #[trigger] out@.contains(k),
            forall|a: int, b: int|
                0 <= a < b < out@.len() ==> {
                    &&& text_le(ks[#[trigger] out@[a] as int], ks[#[trigger] out@[b] as int])
                    &&& ks[out@[a] as int] == ks[out@[b] as int] ==> out@[a] < out@[b]
                },
        decreases keys@.len() - i,
    {
        let mut p: usize = out.len();
        while p > 0 && text_precedes(keys[i].as_str(), keys[out[p - 1]].as_str())
            invariant
                0 <= p <= out@.len(),
                i < keys@.len(),
                ks == texts(keys@),
                forall|a: int| 0 <= a < out@.len() ==> (#[trigger] out@[a] as int) < i,
                forall|b: int| p <= b < out@.len() ==> text_lt(ks[i as int], ks[#[trigger] out@[b] as int]),
            decreases p,
        {
            p = p - 1;
        }
        let ghost before = out@;
        out.insert(p, i);
        proof {
            let after = out@;
            assert forall|k: usize| k < i + 1 implies #[trigger] after.contains(k) by {
                if k == i {
                    assert(after[p as int] == i);
                } else {
                    assert(before.contains(k));
                    let a = choose|a: int| 0 <= a < before.len() && before[a] == k;
                    if a < p {
                        assert(after[a] == k);
                    } else {
                        assert(after[a + 1] == k);
                    }
                }
            }
            assert forall|a: int, b: int| 0 <= a < b < after.len() implies {
                &&& text_le(ks[#[trigger] after[a] as int], ks[#[trigger] after[b] as int])
                &&& ks[after[a] as int] == ks[after[b] as int] ==> after[a] < after[b]
            } by {
                if b < p {
                } else if b == p {
                    assert(text_le(ks[before[p - 1] as int], ks[i as int]));
                    if a < p - 1 {
                        assert(text_le(ks[before[a] as int], ks[before[p - 1] as int]));
                        lemma_text_le_transitive(
                            ks[before[a] as int],
                            ks[before[p - 1] as int],
                            ks[i as int],
                        );
                    }
                } else if a == p {
                    assert(text_lt(ks[i as int], ks[before[b - 1] as int]));
                    lemma_text_lt_asymmetric(ks[i as int], ks[before[b - 1] as int]);
                } else if a < p {
                    assert(after[a] == before[a] && after[b] == before[b - 1]);
                } else {
                    assert(after[a] == before[a - 1] && after[b] == before[b - 1]);
                }
            }
        }
        i = i + 1;
    }
    out
}

/// Whether `a` and `b` hold the same text.
pub fn same_text(a: &String, b: &String) -> (r: bool)
    ensures
        r == (a@ == b@),
{
    *a == *b
}

} // verus!
