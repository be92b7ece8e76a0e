//! Lexicographic order on character sequences, by Unicode scalar value,
//! with the executable comparison, binary search and sorted insertion that
//! the library index is built on.
use vstd::prelude::*;
use vstd::utf8::char_u32_cast;

verus! {

/// Strict lexicographic order on character sequences: characters are
/// compared by scalar value, and a proper prefix comes first.
pub open spec fn lex_lt(a: Seq<char>, b: Seq<char>) -> bool
    decreases a.len(),
{
    if b.len() == 0 {
        false
    } else if a.len() == 0 {
        true
    } else if (a[0] as u32) < (b[0] as u32) {
        true
    } else if (a[0] as u32) == (b[0] as u32) {
        lex_lt(a.drop_first(), b.drop_first())
    } else {
        false
    }
}

/// The views of a sequence of owned strings.
pub open spec fn views_of(v: Seq<String>) -> Seq<Seq<char>> {
    Seq::new(v.len(), |i: int| v[i]@)
}

/// A sequence is strictly ascending under `lex_lt`; this also means it
/// holds no duplicates.
pub open spec fn strictly_sorted(s: Seq<Seq<char>>) -> bool {
    forall|i: int, j: int| 0 <= i < j < s.len() ==> lex_lt(s[i], s[j])
}

/// `lex_lt` is irreflexive and asymmetric, and two sequences that each
/// fail to come before the other are equal: the order is total.
pub proof fn lemma_lex_total(a: Seq<char>, b: Seq<char>)
    ensures
        lex_lt(a, b) ==> !lex_lt(b, a),
        lex_lt(a, b) ==> a != b,
        !lex_lt(a, b) && !lex_lt(b, a) ==> a == b,
    decreases a.len(),
{
    if a.len() > 0 && b.len() > 0 {
        if (a[0] as u32) == (b[0] as u32) {
            char_u32_cast(a[0], a[0] as u32);
            char_u32_cast(b[0], b[0] as u32);
            assert(a[0] == b[0]);
            lemma_lex_total(a.drop_first(), b.drop_first());
            if !lex_lt(a, b) && !lex_lt(b, a) {
                assert(a.drop_first() == b.drop_first());
                assert(a.len() == b.len());
                assert forall|i: int| 0 <= i < a.len() implies a[i] == b[i] by {
                    if i >= 1 {
                        assert(a[i] == a.drop_first()[i - 1]);
                        assert(b[i] == b.drop_first()[i - 1]);
                    }
                }
                assert(a =~= b);
            }
            if lex_lt(a, b) && a == b {
                assert(lex_lt(b, a));
                assert(false);
            }
        }
    } else if a.len() == 0 && b.len() == 0 {
        assert(a =~= b);
    }
}

/// A strictly ascending list holds no duplicates: so the derived album
/// and artist name lists name everything exactly once.
pub proof fn lemma_strictly_sorted_distinct(s: Seq<Seq<char>>)
    requires
        strictly_sorted(s),
    ensures
        forall|i: int, j: int| 0 <= i < j < s.len() ==> s[i] != s[j],
{
    assert forall|i: int, j: int| 0 <= i < j < s.len() implies s[i] != s[j] by {
        lemma_lex_total(s[i], s[j]);
    }
}

/// `lex_lt` is transitive.
pub proof fn lemma_lex_transitive(a: Seq<char>, b: Seq<char>, c: Seq<char>)
    requires
        lex_lt(a, b),
        lex_lt(b, c),
    ensures
        lex_lt(a, c),
    decreases a.len(),
{
    if a.len() > 0 && b.len() > 0 && c.len() > 0 {
        char_u32_cast(a[0], a[0] as u32);
        char_u32_cast(b[0], b[0] as u32);
        char_u32_cast(c[0], c[0] as u32);
        if (a[0] as u32) == (b[0] as u32) && (b[0] as u32) == (c[0] as u32) {
            lemma_lex_transitive(a.drop_first(), b.drop_first(), c.drop_first());
        }
    }
}

/// Dropping an equal prefix on both sides keeps the order.
proof fn lemma_lex_lt_skip(a: Seq<char>, b: Seq<char>, i: int)
    requires
        0 <= i <= a.len(),
        i <= b.len(),
        forall|j: int| 0 <= j < i ==> a[j] == b[j],
    ensures
        lex_lt(a, b) == lex_lt(a.skip(i), b.skip(i)),
    decreases i,
{
    if i == 0 {
        assert(a.skip(0) =~= a);
        assert(b.skip(0) =~= b);
    } else {
        assert(a.len() > 0 && b.len() > 0 && a[0] == b[0]);
        lemma_lex_lt_skip(a.drop_first(), b.drop_first(), i - 1);
        assert(a.drop_first().skip(i - 1) =~= a.skip(i));
        assert(b.drop_first().skip(i - 1) =~= b.skip(i));
    }
}

/// Whether `a` comes strictly before `b` in the library's order.
pub fn str_lt(a: &str, b: &str) -> (r: bool)
    ensures
        r == lex_lt(a@, b@),
{
    let alen = a.unicode_len();
    let blen = b.unicode_len();
    let mut i: usize = 0;
    loop
        invariant
            i <= alen,
            i <= blen,
            alen == a@.len(),
            blen == b@.len(),
            forall|j: int| 0 <= j < i ==> a@[j] == b@[j],
        decreases alen - i,
    {
        if i >= alen || i >= blen {
            proof {
                lemma_lex_lt_skip(a@, b@, i as int);
                if i >= alen {
                    assert(a@.skip(i as int).len() == 0);
                } else {
                    assert(b@.skip(i as int).len() == 0);
                }
            }
            return alen < blen;
        }
        let ca = a.get_char(i);
        let cb = b.get_char(i);
        let cau = ca as u32;
        let cbu = cb as u32;
        proof {
            lemma_lex_lt_skip(a@, b@, i as int);
            assert(a@.skip(i as int)[0] == a@[i as int]);
            assert(b@.skip(i as int)[0] == b@[i as int]);
            assert(a@.skip(i as int).drop_first() =~= a@.skip(i + 1));
            assert(b@.skip(i as int).drop_first() =~= b@.skip(i + 1));
        }
        if cau < cbu {
            return true;
        }
        if cbu < cau {
            return false;
        }
        proof {
            char_u32_cast(ca, cau);
            char_u32_cast(cb, cbu);
        }
        i += 1;
    }
}

/// Whether `a` and `b` hold the same characters.
pub fn str_eq(a: &str, b: &str) -> (r: bool)
    ensures
        r == (a@ == b@),
{
    let lt = str_lt(a, b);
    let gt = str_lt(b, a);
    proof {
        lemma_lex_total(a@, b@);
    }
    !lt && !gt
}

/// Binary search for membership in a strictly sorted string list; this is
/// how an album's artist set is consulted.
pub fn sorted_contains(v: &Vec<String>, key: &str) -> (r: bool)
    requires
        strictly_sorted(views_of(v@)),
    ensures
        r == views_of(v@).contains(key@),
{
    let mut lo: usize = 0;
    let mut hi: usize = v.len();
    while lo < hi
        invariant
            lo <= hi <= v@.len(),
            strictly_sorted(views_of(v@)),
            forall|j: int| 0 <= j < lo ==> lex_lt(#[trigger] views_of(v@)[j], key@),
            forall|j: int| hi <= j < v@.len() ==> lex_lt(key@, #[trigger] views_of(v@)[j]),
        decreases hi - lo,
    {
        let mid = lo + (hi - lo) / 2;
        if str_lt(v[mid].as_str(), key) {
            proof {
                assert forall|j: int| 0 <= j <= mid implies lex_lt(
                    #[trigger] views_of(v@)[j],
                    key@,
                ) by {
                    if j < mid {
                        lemma_lex_transitive(views_of(v@)[j], views_of(v@)[mid as int], key@);
                    }
                }
            }
            lo = mid + 1;
        } else {
            let gt = str_lt(key, v[mid].as_str());
            if gt {
                proof {
                    assert forall|j: int| mid <= j < v@.len() implies lex_lt(
                        key@,
                        #[trigger] views_of(v@)[j],
                    ) by {
                        if j > mid {
                            lemma_lex_transitive(key@, views_of(v@)[mid as int], views_of(v@)[j]);
                        }
                    }
                }
                hi = mid;
            } else {
                proof {
                    lemma_lex_total(views_of(v@)[mid as int], key@);
                    assert(views_of(v@)[mid as int] == key@);
                }
                return true;
            }
        }
    }
    proof {
        assert forall|j: int| 0 <= j < v@.len() implies #[trigger] views_of(v@)[j] != key@ by {
            lemma_lex_total(views_of(v@)[j], key@);
        }
        if views_of(v@).contains(key@) {
            let j = choose|j: int| 0 <= j < views_of(v@).len() && views_of(v@)[j] == key@;
            assert(views_of(v@)[j] == key@);
            assert(false);
        }
    }
    false
}

/// The first position in a strictly sorted list whose entry does not come
/// before `x`.
fn lower_bound(v: &Vec<String>, x: &str) -> (i: usize)
    requires
        strictly_sorted(views_of(v@)),
    ensures
        i <= v@.len(),
        forall|j: int| 0 <= j < i ==> lex_lt(#[trigger] views_of(v@)[j], x@),
        i < v@.len() ==> !lex_lt(views_of(v@)[i as int], x@),
{
    let mut i: usize = 0;
    loop
        invariant
            i <= v@.len(),
            strictly_sorted(views_of(v@)),
            forall|j: int| 0 <= j < i ==> lex_lt(#[trigger] views_of(v@)[j], x@),
        decreases v@.len() - i,
    {
        if i >= v.len() {
            return i;
        }
        if !str_lt(v[i].as_str(), x) {
            return i;
        }
        i += 1;
    }
}

/// Insert a string into a strictly sorted list, keeping it strictly
/// sorted; a string already present is not added again.
pub fn insert_sorted(v: &mut Vec<String>, x: &String)
    requires
        strictly_sorted(views_of(old(v)@)),
    ensures
        strictly_sorted(views_of(final(v)@)),
        forall|t: Seq<char>|
            views_of(final(v)@).contains(t) == (views_of(old(v)@).contains(t) || t == x@),
{
    let ghost orig = v@;
    let i = lower_bound(v, x.as_str());
    if i < v.len() {
        let same = str_eq(v[i].as_str(), x.as_str());
        if same {
            proof {
                assert(views_of(v@)[i as int] == x@);
                assert(views_of(v@).contains(x@));
            }
            return ;
        }
    }
    proof {
        if i < v@.len() {
            lemma_lex_total(views_of(v@)[i as int], x@);
            assert(lex_lt(x@, views_of(v@)[i as int]));
        }
    }
    v.insert(i, x.clone());
    proof {
        let new_views = views_of(v@);
        let old_views = views_of(orig);
        assert(v@ == orig.insert(i as int, *x));
        assert(forall|j: int| 0 <= j < i ==> new_views[j] == old_views[j]);
        assert(new_views[i as int] == x@);
        assert(forall|j: int|
            i < j < new_views.len() ==> new_views[j] == #[trigger] old_views[j - 1]);
        assert forall|p: int, q: int| 0 <= p < q < new_views.len() implies lex_lt(
            new_views[p],
            new_views[q],
        ) by {
            let p0: int = if p < i { p } else { p - 1 };
            let q0: int = if q < i { q } else { q - 1 };
            if p == i {
                // x comes before everything from the insertion point on.
                assert(i <= q - 1 < old_views.len());
                assert(new_views[q] == old_views[q - 1]);
                assert(lex_lt(x@, old_views[i as int]));
                if q - 1 > i {
                    lemma_lex_transitive(x@, old_views[i as int], old_views[q - 1]);
                }
            } else if q == i {
                assert(new_views[p] == old_views[p]);
                assert(lex_lt(old_views[p], x@));
            } else {
                assert(new_views[p] == old_views[p0]);
                assert(new_views[q] == old_views[q0]);
                assert(lex_lt(old_views[p0], old_views[q0]));
            }
        }
        assert forall|t: Seq<char>| #[trigger]
            new_views.contains(t) == (old_views.contains(t) || t == x@) by {
            if new_views.contains(t) {
                let k = choose|k: int| 0 <= k < new_views.len() && new_views[k] == t;
                if k != i {
                    let k0: int = if k < i { k } else { k - 1 };
                    assert(old_views[k0] == t);
                    assert(old_views.contains(t));
                }
            }
            if old_views.contains(t) {
                let k = choose|k: int| 0 <= k < old_views.len() && old_views[k] == t;
                let k1: int = if k < i { k } else { k + 1 };
                assert(new_views[k1] == t);
                assert(new_views.contains(t));
            }
            if t == x@ {
                assert(new_views[i as int] == t);
                assert(new_views.contains(t));
            }
        }
    }
}

} // verus!
