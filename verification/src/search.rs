//! Ranking of name searches.
//!
//! A search keeps the names that contain the filter, ignoring case, and
//! orders them best match first: the exact name, then the name equal to
//! the filter ignoring case, then shorter names, then names in
//! character order; equal names keep their order of arrival.

use vstd::prelude::*;
use crate::client::ascii_lower;
use crate::text::{chars_of, same_chars};
use vstd::utf8::encode_utf8;

verus! {

/// The lower-case form of a text that holds a character beyond ASCII
/// (Unicode case mapping).
pub uninterp spec fn lowercase_beyond_ascii(s: Seq<char>) -> Seq<char>;

/// Whether every character of `s` is ASCII.
pub open spec fn all_ascii(s: Seq<char>) -> bool {
    forall|i: int| 0 <= i < s.len() ==> (#[trigger] s[i] as u32) < 128
}

/// The lower-case form of a text (`str::to_lowercase`): for an all-ASCII
/// text, the text with `A`-`Z` made `a`-`z`.
pub open spec fn lowercase(s: Seq<char>) -> Seq<char> {
    if all_ascii(s) {
        ascii_lower(s)
    } else {
        lowercase_beyond_ascii(s)
    }
}

/// Lower-cases a text (std `str::to_lowercase`, Unicode case mapping).
/// Stated: for an all-ASCII text the result is the text with `A`-`Z` made
/// `a`-`z`; for any other text it is named, and the mapping of characters
/// beyond ASCII is left unsaid.
#[verifier::external_body]
pub(crate) fn to_lowercase(s: &str) -> (r: String)
    ensures
        r@ == lowercase(s@),
        !all_ascii(s@) ==> r@ == lowercase_beyond_ascii(s@),
{
    s.to_lowercase()
}

/// Whether `needle` occurs in `hay` as a run of consecutive characters.
pub open spec fn contains_text(hay: Seq<char>, needle: Seq<char>) -> bool {
    exists|i: int|
        0 <= i && i + needle.len() <= hay.len() && #[trigger] hay.subrange(i, i + needle.len())
            == needle
}

/// Whether `a` comes before `b` in character order.
pub open spec fn chars_lt(a: Seq<char>, b: Seq<char>) -> bool
    decreases a.len(),
{
    if a.len() == 0 {
        b.len() > 0
    } else if b.len() == 0 {
        false
    } else if a[0] != b[0] {
        a[0] < b[0]
    } else {
        chars_lt(a.drop_first(), b.drop_first())
    }
}

/// The length of a text in UTF-8 bytes, as std `str::len` reports it.
pub open spec fn utf8_len(s: Seq<char>) -> usize {
    encode_utf8(s).len() as usize
}

/// Whether the name at `i` matches the filter: it contains the filter,
/// both lower-cased.
pub open spec fn name_matches(names: Seq<String>, filter: Seq<char>, i: int) -> bool {
    contains_text(lowercase(names[i]@), lowercase(filter))
}

/// Whether the name at `i` ranks before the name at `j`: an exact match
/// first, then a match ignoring case, then the shorter name, then the
/// name first in character order, then the earlier position.
pub open spec fn ranks_before(names: Seq<String>, filter: Seq<char>, i: int, j: int) -> bool {
    let a = names[i]@;
    let b = names[j]@;
    let ea = a == filter;
    let eb = b == filter;
    let ca = lowercase(a) == lowercase(filter);
    let cb = lowercase(b) == lowercase(filter);
    if ea != eb {
        ea
    } else if ca != cb {
        ca
    } else if utf8_len(a) != utf8_len(b) {
        utf8_len(a) < utf8_len(b)
    } else if a != b {
        chars_lt(a, b)
    } else {
        i < j
    }
}

/// Whether `r` lists the positions of the matching names, each once,
/// best match first.
pub open spec fn is_search_result(names: Seq<String>, filter: Seq<char>, r: Seq<usize>) -> bool {
    &&& forall|k: int| 0 <= k < r.len() ==> r[k] < names.len() && name_matches(names, filter, #[trigger] r[k] as int)
    &&& forall|i: int| 0 <= i < names.len() && name_matches(names, filter, i) ==> r.contains(i as usize)
    &&& forall|k: int, l: int| 0 <= k < l < r.len() ==> ranks_before(names, filter, #[trigger] r[k] as int, #[trigger] r[l] as int)
}

proof fn lemma_chars_lt_irreflexive(a: Seq<char>)
    ensures
        !chars_lt(a, a),
    decreases a.len(),
{
    if a.len() > 0 {
        lemma_chars_lt_irreflexive(a.drop_first());
    }
}

proof fn lemma_chars_lt_total(a: Seq<char>, b: Seq<char>)
    requires
        a != b,
    ensures
        chars_lt(a, b) || chars_lt(b, a),
    decreases a.len(),
{
    if a.len() == 0 && b.len() == 0 {
        assert(a =~= b);
    } else if a.len() > 0 && b.len() > 0 && a[0] == b[0] {
        if a.drop_first() =~= b.drop_first() {
            assert(a =~= seq![a[0]] + a.drop_first());
            assert(b =~= seq![b[0]] + b.drop_first());
            assert(a =~= b);
        } else {
            lemma_chars_lt_total(a.drop_first(), b.drop_first());
        }
    }
}

proof fn lemma_chars_lt_asymmetric(a: Seq<char>, b: Seq<char>)
    requires
        chars_lt(a, b),
    ensures
        !chars_lt(b, a),
    decreases a.len(),
{
    if a.len() > 0 && b.len() > 0 && a[0] == b[0] {
        lemma_chars_lt_asymmetric(a.drop_first(), b.drop_first());
    }
}

proof fn lemma_chars_lt_transitive(a: Seq<char>, b: Seq<char>, c: Seq<char>)
    requires
        chars_lt(a, b),
        chars_lt(b, c),
    ensures
        chars_lt(a, c),
    decreases a.len(),
{
    if a.len() > 0 && b.len() > 0 && c.len() > 0 && a[0] == b[0] && b[0] == c[0] {
        lemma_chars_lt_transitive(a.drop_first(), b.drop_first(), c.drop_first());
    }
}

/// Ranking is a strict order on positions: irreflexive, asymmetric and
/// transitive, and any two different positions are ranked one way.
pub proof fn lemma_ranking_is_strict_total_order(names: Seq<String>, filter: Seq<char>, i: int, j: int, k: int)
    ensures
        !ranks_before(names, filter, i, i),
        ranks_before(names, filter, i, j) ==> !ranks_before(names, filter, j, i),
        i != j ==> ranks_before(names, filter, i, j) || ranks_before(names, filter, j, i),
        ranks_before(names, filter, i, j) && ranks_before(names, filter, j, k) ==> ranks_before(
            names,
            filter,
            i,
            k,
        ),
{
    let a = names[i]@;
    let b = names[j]@;
    let c = names[k]@;
    lemma_chars_lt_irreflexive(a);
    if a != b {
        lemma_chars_lt_total(a, b);
    }
    if chars_lt(a, b) {
        lemma_chars_lt_asymmetric(a, b);
    }
    if chars_lt(b, a) {
        lemma_chars_lt_asymmetric(b, a);
    }
    if chars_lt(a, b) && chars_lt(b, c) {
        lemma_chars_lt_transitive(a, b, c);
    }
    if ranks_before(names, filter, i, j) && ranks_before(names, filter, j, k) {
        if a == c && a != b {
            lemma_chars_lt_asymmetric(a, b);
        }
    }
}

proof fn lemma_insert_keeps_ranking(names: Seq<String>, filter: Seq<char>, s: Seq<usize>, p: int, x: usize)
    requires
        0 <= p <= s.len(),
        forall|k: int, l: int| 0 <= k < l < s.len() ==> ranks_before(names, filter, #[trigger] s[k] as int, #[trigger] s[l] as int),
        forall|k: int| 0 <= k < s.len() ==> #[trigger] s[k] != x,
        forall|k: int| 0 <= k < p ==> !ranks_before(names, filter, x as int, #[trigger] s[k] as int),
        p < s.len() ==> ranks_before(names, filter, x as int, s[p] as int),
    ensures
        forall|k: int, l: int| 0 <= k < l < s.insert(p, x).len() ==> ranks_before(names, filter, #[trigger] s.insert(p, x)[k] as int, #[trigger] s.insert(p, x)[l] as int),
{
    let t = s.insert(p, x);
    s.insert_ensures(p, x);
    assert forall|k: int, l: int| 0 <= k < l < t.len() implies ranks_before(names, filter, #[trigger] t[k] as int, #[trigger] t[l] as int) by {
        if l == p {
            let y = s[k];
            assert(t[k] == y);
            assert(!ranks_before(names, filter, x as int, y as int));
            lemma_ranking_is_strict_total_order(names, filter, y as int, x as int, x as int);
        } else if k == p {
            let z = s[l - 1];
            assert(t[l] == z);
            if l - 1 > p {
                assert(ranks_before(names, filter, s[p] as int, s[l - 1] as int));
            }
            lemma_ranking_is_strict_total_order(names, filter, x as int, s[p] as int, z as int);
        } else {
            let kk = if k < p { k } else { k - 1 };
            let ll = if l < p { l } else { l - 1 };
            assert(t[k] == s[kk]);
            assert(t[l] == s[ll]);
        }
    }
}

proof fn lemma_insert_members(s: Seq<usize>, m: Seq<usize>, p: int, x: usize)
    requires
        0 <= p <= s.len(),
        forall|y: usize| s.contains(y) <==> m.contains(y),
    ensures
        forall|y: usize| s.insert(p, x).contains(y) <==> m.push(x).contains(y),
{
    let t = s.insert(p, x);
    s.insert_ensures(p, x);
    assert forall|y: usize| t.contains(y) <==> m.push(x).contains(y) by {
        if t.contains(y) {
            let j = choose|j: int| 0 <= j < t.len() && t[j] == y;
            if j == p {
                assert(m.push(x)[m.len() as int] == y);
            } else {
                let jj = if j < p { j } else { j - 1 };
                assert(s[jj] == y);
                assert(s.contains(y));
                let i = choose|i: int| 0 <= i < m.len() && m[i] == y;
                assert(m.push(x)[i] == y);
            }
        }
        if m.push(x).contains(y) {
            let i = choose|i: int| 0 <= i < m.len() + 1 && m.push(x)[i] == y;
            if i == m.len() {
                assert(t[p] == y);
            } else {
                assert(m[i] == y);
                assert(m.contains(y));
                let j = choose|j: int| 0 <= j < s.len() && s[j] == y;
                if j < p {
                    assert(t[j] == y);
                } else {
                    assert(t[j + 1] == y);
                }
            }
        }
    }
}

/// Decides whether `needle` occurs in `hay`.
pub(crate) fn contains_chars(hay: &Vec<char>, needle: &Vec<char>) -> (b: bool)
    ensures
        b == contains_text(hay@, needle@),
{
    if needle.len() > hay.len() {
        return false;
    }
    let last = hay.len() - needle.len();
    let mut i: usize = 0;
    while i <= last
        invariant
            last == hay.len() - needle.len(),
            i <= last + 1,
            forall|p: int| 0 <= p < i ==> #[trigger] hay@.subrange(p, p + needle@.len()) != needle@,
        decreases last + 1 - i,
    {
        let mut k: usize = 0;
        let mut same = true;
        while k < needle.len()
            invariant
                last == hay.len() - needle.len(),
                i <= last,
                k <= needle.len(),
                same == forall|q: int| 0 <= q < k ==> hay@[i + q] == needle@[q],
            decreases needle.len() - k,
        {
            if hay[i + k] != needle[k] {
                same = false;
            }
            k = k + 1;
        }
        if same {
            assert(hay@.subrange(i as int, i + needle@.len()) =~= needle@);
            return true;
        }
        proof {
            let q = choose|q: int| 0 <= q < needle.len() && hay@[i + q] != needle@[q];
            assert(hay@.subrange(i as int, i + needle@.len())[q] != needle@[q]);
        }
        i = i + 1;
    }
    assert forall|p: int| 0 <= p && p + needle@.len() <= hay@.len() implies #[trigger] hay@.subrange(
        p,
        p + needle@.len(),
    ) != needle@ by {}
    false
}

/// Decides character order.
fn chars_before(a: &Vec<char>, b: &Vec<char>) -> (r: bool)
    ensures
        r == chars_lt(a@, b@),
{
    let mut i: usize = 0;
    assert(a@.skip(0) =~= a@);
    assert(b@.skip(0) =~= b@);
    while i < a.len() && i < b.len()
        invariant
            i <= a.len(),
            i <= b.len(),
            chars_lt(a@, b@) == chars_lt(a@.skip(i as int), b@.skip(i as int)),
        decreases a.len() - i,
    {
        if a[i] != b[i] {
            assert(a@.skip(i as int)[0] == a@[i as int]);
            assert(b@.skip(i as int)[0] == b@[i as int]);
            return a[i] < b[i];
        }
        assert(a@.skip(i as int).drop_first() =~= a@.skip(i + 1));
        assert(b@.skip(i as int).drop_first() =~= b@.skip(i + 1));
        i = i + 1;
    }
    i == a.len() && i < b.len()
}

/// What ranking reads of one name.
struct NameKey {
    exact: bool,
    exact_ignoring_case: bool,
    byte_len: usize,
    chars: Vec<char>,
}

/// Whether `key` describes the name at `i`.
spec fn key_of(names: Seq<String>, filter: Seq<char>, i: int, key: NameKey) -> bool {
    &&& key.exact == (names[i]@ == filter)
    &&& key.exact_ignoring_case == (lowercase(names[i]@) == lowercase(filter))
    &&& key.byte_len == utf8_len(names[i]@)
    &&& key.chars@ == names[i]@
}

/// Decides whether the name at `i` ranks before the name at `j`.
fn before(keys: &Vec<NameKey>, i: usize, j: usize, Ghost(names): Ghost<Seq<String>>, Ghost(filter): Ghost<Seq<char>>) -> (r: bool)
    requires
        i < keys.len(),
        j < keys.len(),
        keys.len() == names.len(),
        forall|k: int| 0 <= k < keys.len() ==> key_of(names, filter, k, #[trigger] keys@[k]),
    ensures
        r == ranks_before(names, filter, i as int, j as int),
{
    let a = &keys[i];
    let b = &keys[j];
    assert(key_of(names, filter, i as int, *a));
    assert(key_of(names, filter, j as int, *b));
    if a.exact != b.exact {
        a.exact
    } else if a.exact_ignoring_case != b.exact_ignoring_case {
        a.exact_ignoring_case
    } else if a.byte_len != b.byte_len {
        a.byte_len < b.byte_len
    } else if !same_chars(&a.chars, &b.chars) {
        chars_before(&a.chars, &b.chars)
    } else {
        i < j
    }
}

/// Filter names by the search text, ignoring case, and give the positions
/// of the matches best match first (see the module documentation).
pub fn filter_and_sort_by_name(names: &Vec<String>, filter: &str) -> (r: Vec<usize>)
    ensures
        is_search_result(names@, filter@, r@),
{
    let ghost gn = names@;
    let ghost gf = filter@;
    let filter_chars = chars_of(filter);
    let filter_lower = chars_of(to_lowercase(filter).as_str());
    let mut keys: Vec<NameKey> = Vec::new();
    let mut matching: Vec<usize> = Vec::new();
    let mut i: usize = 0;
    while i < names.len()
        invariant
            gn == names@,
            gf == filter@,
            filter_chars@ == filter@,
            filter_lower@ == lowercase(filter@),
            i <= names.len(),
            keys.len() == i,
            forall|k: int| 0 <= k < i ==> key_of(gn, gf, k, #[trigger] keys@[k]),
            forall|k: int| 0 <= k < matching.len() ==> #[trigger] matching@[k] < i && name_matches(gn, gf, matching@[k] as int),
            forall|k: int, l: int| 0 <= k < l < matching.len() ==> #[trigger] matching@[k] < #[trigger] matching@[l],
            forall|p: int| 0 <= p < i && name_matches(gn, gf, p) ==> matching@.contains(p as usize),
        decreases names.len() - i,
    {
        let name = names[i].as_str();
        let chars = chars_of(name);
        let lower = chars_of(to_lowercase(name).as_str());
        let exact = same_chars(&chars, &filter_chars);
        let exact_ignoring_case = same_chars(&lower, &filter_lower);
        let byte_len = name.len();
        let key = NameKey { exact, exact_ignoring_case, byte_len, chars };
        assert(key_of(gn, gf, i as int, key));
        keys.push(key);
        let ghost old_matching = matching@;
        if contains_chars(&lower, &filter_lower) {
            matching.push(i);
            assert(matching@[matching.len() - 1] == i);
        }
        proof {
            assert forall|p: int| 0 <= p < i + 1 && name_matches(gn, gf, p) implies matching@.contains(p as usize) by {
                if p == i {
                    assert(matching@[matching.len() - 1] == i);
                } else {
                    assert(old_matching.contains(p as usize));
                    let j = choose|j: int| 0 <= j < old_matching.len() && old_matching[j] == p as usize;
                    assert(matching@[j] == p as usize);
                }
            }
        }
        i = i + 1;
    }
    let mut sorted: Vec<usize> = Vec::new();
    let mut t: usize = 0;
    while t < matching.len()
        invariant
            gn == names@,
            gf == filter@,
            keys.len() == names.len(),
            forall|k: int| 0 <= k < keys.len() ==> key_of(gn, gf, k, #[trigger] keys@[k]),
            forall|k: int| 0 <= k < matching.len() ==> #[trigger] matching@[k] < names.len() && name_matches(gn, gf, matching@[k] as int),
            forall|k: int, l: int| 0 <= k < l < matching.len() ==> #[trigger] matching@[k] < #[trigger] matching@[l],
            t <= matching.len(),
            forall|x: usize| sorted@.contains(x) <==> matching@.take(t as int).contains(x),
            forall|k: int| 0 <= k < sorted.len() ==> #[trigger] sorted@[k] < names.len(),
            forall|k: int, l: int| 0 <= k < l < sorted.len() ==> ranks_before(gn, gf, #[trigger] sorted@[k] as int, #[trigger] sorted@[l] as int),
        decreases matching.len() - t,
    {
        let x = matching[t];
        proof {
            assert forall|k: int| 0 <= k < sorted.len() implies #[trigger] sorted@[k] != x by {
                assert(sorted@.contains(sorted@[k]));
                let j = choose|j: int| 0 <= j < t && matching@.take(t as int)[j] == sorted@[k];
                assert(matching@[j] < matching@[t as int]);
            }
        }
        let mut p: usize = 0;
        while p < sorted.len() && !before(&keys, x, sorted[p], Ghost(gn), Ghost(gf))
            invariant
                gn == names@,
                p <= sorted.len(),
                x < keys.len(),
                keys.len() == names.len(),
                forall|k: int| 0 <= k < keys.len() ==> key_of(gn, gf, k, #[trigger] keys@[k]),
                forall|k: int| 0 <= k < sorted.len() ==> #[trigger] sorted@[k] < names.len(),
                forall|k: int| 0 <= k < p ==> !ranks_before(gn, gf, x as int, #[trigger] sorted@[k] as int),
            decreases sorted.len() - p,
        {
            p = p + 1;
        }
        let ghost old_sorted = sorted@;
        sorted.insert(p, x);
        proof {
            assert(sorted@ == old_sorted.insert(p as int, x));
            lemma_insert_keeps_ranking(gn, gf, old_sorted, p as int, x);
            lemma_insert_members(old_sorted, matching@.take(t as int), p as int, x);
            assert(matching@.take(t + 1) =~= matching@.take(t as int).push(x));
        }
        t = t + 1;
    }
    proof {
        assert(matching@.take(matching.len() as int) =~= matching@);
        assert forall|k: int| 0 <= k < sorted.len() implies #[trigger] sorted@[k] < names.len() && name_matches(gn, gf, sorted@[k] as int) by {
            assert(sorted@.contains(sorted@[k]));
            let j = choose|j: int| 0 <= j < matching.len() && matching@[j] == sorted@[k];
        }
    }
    sorted
}

/// A name that equals the search text exactly is found, and then the best
/// result is such a name.
pub proof fn lemma_exact_match_ranks_first(names: Seq<String>, filter: Seq<char>, r: Seq<usize>, i: usize)
    requires
        is_search_result(names, filter, r),
        i < names.len(),
        names[i as int]@ == filter,
    ensures
        r.len() > 0,
        names[r[0] as int]@ == filter,
{
    let lf = lowercase(filter);
    assert(lowercase(names[i as int]@) == lf);
    assert(lf.subrange(0, 0 + lf.len() as int) =~= lf);
    assert(contains_text(lf, lf));
    assert(name_matches(names, filter, i as int));
    assert(r.contains(i));
    let k = choose|k: int| 0 <= k < r.len() && r[k] == i;
    if k > 0 {
        assert(ranks_before(names, filter, r[0] as int, r[k] as int));
    }
}

/// Of two matching names, one equal to the search text ignoring case and
/// one that is not, the first is ranked first unless the second is the
/// exact text.
pub proof fn lemma_case_insensitive_match_ranks_before_substring(
    names: Seq<String>,
    filter: Seq<char>,
    r: Seq<usize>,
    k: int,
    l: int,
)
    requires
        is_search_result(names, filter, r),
        0 <= k < r.len(),
        0 <= l < r.len(),
        lowercase(names[r[k] as int]@) == lowercase(filter),
        lowercase(names[r[l] as int]@) != lowercase(filter),
        names[r[l] as int]@ != filter,
    ensures
        k < l,
{
    if l < k {
        assert(ranks_before(names, filter, r[l] as int, r[k] as int));
    }
    if l == k {
        assert(false);
    }
}

} // verus!
