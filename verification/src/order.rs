//! Lexicographic order on strings, the order in which `String`'s `Ord`
//! compares them (UTF-8 byte order agrees with code point order), and a
//! sort of string lists by it.

use vstd::prelude::*;
use crate::numbers::chars_of;

verus! {

/// `a` comes strictly before `b` in lexicographic order of characters.
pub open spec fn seq_lt(a: Seq<char>, b: Seq<char>) -> bool
    decreases a.len(),
{
    if b.len() == 0 {
        false
    } else if a.len() == 0 {
        true
    } else if a[0] != b[0] {
        (a[0] as int) < (b[0] as int)
    } else {
        seq_lt(a.drop_first(), b.drop_first())
    }
}

/// Every string of `s` is no greater than every later one.
pub open spec fn sorted_strings(s: Seq<Seq<char>>) -> bool {
    forall|i: int, j: int| 0 <= i < j < s.len() ==> !seq_lt(#[trigger] s[j], #[trigger] s[i])
}

/// The lexicographic order is transitive.
pub proof fn lemma_seq_lt_transitive(a: Seq<char>, b: Seq<char>, c: Seq<char>)
    requires
        seq_lt(a, b),
        seq_lt(b, c),
    ensures
        seq_lt(a, c),
    decreases a.len(),
{
    if a.len() > 0 && a[0] == b[0] && b[0] == c[0] {
        lemma_seq_lt_transitive(a.drop_first(), b.drop_first(), c.drop_first());
    }
}

/// The lexicographic order is irreflexive.
pub proof fn lemma_seq_lt_irreflexive(a: Seq<char>)
    ensures
        !seq_lt(a, a),
    decreases a.len(),
{
    if a.len() > 0 {
        lemma_seq_lt_irreflexive(a.drop_first());
    }
}

/// Of two different strings, one comes before the other.
pub proof fn lemma_seq_lt_total(a: Seq<char>, b: Seq<char>)
    requires
        a != b,
    ensures
        seq_lt(a, b) || seq_lt(b, a),
    decreases a.len(),
{
    if a.len() == 0 && b.len() == 0 {
        assert(a =~= b);
    }
    if a.len() > 0 && b.len() > 0 && a[0] == b[0] {
        if a.drop_first() == b.drop_first() {
            assert(a =~= seq![a[0]] + a.drop_first());
            assert(b =~= seq![b[0]] + b.drop_first());
        }
        lemma_seq_lt_total(a.drop_first(), b.drop_first());
    }
}

/// `a` comes strictly before `b` in lexicographic order of components, each
/// compared as a string: the order in which paths compare by their
/// components.
pub open spec fn path_lt(a: Seq<Seq<char>>, b: Seq<Seq<char>>) -> bool
    decreases a.len(),
{
    if b.len() == 0 {
        false
    } else if a.len() == 0 {
        true
    } else if a[0] != b[0] {
        seq_lt(a[0], b[0])
    } else {
        path_lt(a.drop_first(), b.drop_first())
    }
}

/// The order of paths is transitive.
pub proof fn lemma_path_lt_transitive(a: Seq<Seq<char>>, b: Seq<Seq<char>>, c: Seq<Seq<char>>)
    requires
        path_lt(a, b),
        path_lt(b, c),
    ensures
        path_lt(a, c),
    decreases a.len(),
{
    if a.len() > 0 && c.len() > 0 {
        if a[0] == b[0] && b[0] == c[0] {
            lemma_path_lt_transitive(a.drop_first(), b.drop_first(), c.drop_first());
        } else if a[0] != b[0] && b[0] != c[0] {
            lemma_seq_lt_transitive(a[0], b[0], c[0]);
            if a[0] == c[0] {
                lemma_seq_lt_irreflexive(a[0]);
            }
        }
    }
}

/// The order of paths is irreflexive.
pub proof fn lemma_path_lt_irreflexive(a: Seq<Seq<char>>)
    ensures
        !path_lt(a, a),
    decreases a.len(),
{
    if a.len() > 0 {
        lemma_path_lt_irreflexive(a.drop_first());
    }
}

/// Of two different paths, one comes before the other.
pub proof fn lemma_path_lt_total(a: Seq<Seq<char>>, b: Seq<Seq<char>>)
    requires
        a != b,
    ensures
        path_lt(a, b) || path_lt(b, a),
    decreases a.len(),
{
    if a.len() == 0 && b.len() == 0 {
        assert(a =~= b);
    }
    if a.len() > 0 && b.len() > 0 {
        if a[0] == b[0] {
            if a.drop_first() == b.drop_first() {
                assert(a =~= seq![a[0]] + a.drop_first());
                assert(b =~= seq![b[0]] + b.drop_first());
            }
            lemma_path_lt_total(a.drop_first(), b.drop_first());
        } else {
            lemma_seq_lt_total(a[0], b[0]);
        }
    }
}

/// Whether `a` comes strictly before `b`.
pub fn string_lt(a: &String, b: &String) -> (r: bool)
    ensures
        r == seq_lt(a@, b@),
{
    let x = chars_of(a.as_str());
    let y = chars_of(b.as_str());
    let mut i: usize = 0;
    assert(a@.skip(0) =~= a@);
    assert(b@.skip(0) =~= b@);
    while i < x.len() && i < y.len() && x[i] == y[i]
        invariant
            x@ == a@,
            y@ == b@,
            i <= x@.len(),
            i <= y@.len(),
            seq_lt(a@, b@) == seq_lt(a@.skip(i as int), b@.skip(i as int)),
        decreases x@.len() - i,
    {
        let ghost sa = a@.skip(i as int);
        let ghost sb = b@.skip(i as int);
        assert(sa.drop_first() =~= a@.skip(i + 1));
        assert(sb.drop_first() =~= b@.skip(i + 1));
        i = i + 1;
    }
    let ghost sa = a@.skip(i as int);
    let ghost sb = b@.skip(i as int);
    if i == y.len() {
        assert(sb.len() == 0);
        false
    } else if i == x.len() {
        assert(sa.len() == 0 && sb.len() > 0);
        true
    } else {
        assert(sa[0] == x@[i as int] && sb[0] == y@[i as int]);
        x[i] < y[i]
    }
}

/// Whether the path with components `a` comes strictly before the one with
/// components `b`.
pub fn path_less(a: &Vec<String>, b: &Vec<String>) -> (r: bool)
    ensures
        r == path_lt(a.deep_view(), b.deep_view()),
{
    let mut i: usize = 0;
    assert(a.deep_view().skip(0) =~= a.deep_view());
    assert(b.deep_view().skip(0) =~= b.deep_view());
    while i < a.len() && i < b.len() && a[i] == b[i]
        invariant
            i <= a@.len(),
            i <= b@.len(),
            path_lt(a.deep_view(), b.deep_view()) == path_lt(
                a.deep_view().skip(i as int),
                b.deep_view().skip(i as int),
            ),
        decreases a@.len() - i,
    {
        let ghost sa = a.deep_view().skip(i as int);
        let ghost sb = b.deep_view().skip(i as int);
        assert(sa[0] == a@[i as int]@ && sb[0] == b@[i as int]@);
        assert(sa.drop_first() =~= a.deep_view().skip(i + 1));
        assert(sb.drop_first() =~= b.deep_view().skip(i + 1));
        i = i + 1;
    }
    let ghost sa = a.deep_view().skip(i as int);
    let ghost sb = b.deep_view().skip(i as int);
    if i == b.len() {
        assert(sb.len() == 0);
        false
    } else if i == a.len() {
        assert(sa.len() == 0 && sb.len() > 0);
        true
    } else {
        assert(sa[0] == a@[i as int]@ && sb[0] == b@[i as int]@);
        string_lt(&a[i], &b[i])
    }
}

/// `v` put in lexicographic order: the same strings, each as often.
pub fn sort_strings(v: Vec<String>) -> (r: Vec<String>)
    ensures
        sorted_strings(r.deep_view()),
        r.deep_view().to_multiset() == v.deep_view().to_multiset(),
        r@.len() == v@.len(),
{
    let mut r: Vec<String> = Vec::new();
    let mut k: usize = 0;
    let n = v.len();
    assert(r.deep_view() =~= v.deep_view().take(0));
    while k < n
        invariant
            n == v@.len(),
            k <= n,
            r@.len() == k,
            sorted_strings(r.deep_view()),
            r.deep_view().to_multiset() == v.deep_view().take(k as int).to_multiset(),
        decreases n - k,
    {
        let x = v[k].clone();
        let mut i: usize = 0;
        while i < r.len() && !string_lt(&x, &r[i])
            invariant
                i <= r@.len(),
                forall|j: int| 0 <= j < i ==> !seq_lt(x@, #[trigger] r.deep_view()[j]),
            decreases r@.len() - i,
        {
            i = i + 1;
        }
        let ghost old_r = r.deep_view();
        r.insert(i, x);
        proof {
            let nr = r.deep_view();
            assert(nr =~= old_r.insert(i as int, x@));
            assert forall|p: int, q: int| 0 <= p < q < nr.len() implies !seq_lt(
                #[trigger] nr[q],
                #[trigger] nr[p],
            ) by {
                if p < i && q == i {
                } else if p == i && q > i {
                    // x < r[i] <= r[q - 1]
                    assert(seq_lt(x@, old_r[i as int]));
                    if seq_lt(old_r[q - 1], x@) {
                        lemma_seq_lt_transitive(old_r[q - 1], x@, old_r[i as int]);
                        if q - 1 == i {
                            lemma_seq_lt_irreflexive(old_r[i as int]);
                        } else {
                            assert(!seq_lt(old_r[q - 1], old_r[i as int]));
                        }
                    }
                } else if p < i && q > i {
                    assert(nr[p] == old_r[p] && nr[q] == old_r[q - 1]);
                } else if q < i {
                    assert(nr[p] == old_r[p] && nr[q] == old_r[q]);
                } else {
                    assert(nr[p] == old_r[p - 1] && nr[q] == old_r[q - 1]);
                }
            }
            assert(v.deep_view().take(k + 1) =~= v.deep_view().take(k as int).push(x@));
            vstd::seq_lib::to_multiset_insert(old_r, i as int, x@);
            vstd::seq_lib::to_multiset_build(v.deep_view().take(k as int), x@);
        }
        k = k + 1;
    }
    assert(v.deep_view().take(n as int) =~= v.deep_view());
    r
}

} // verus!
