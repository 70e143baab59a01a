//! Lists of names in strictly ascending order. A graph lists its nodes this
//! way, so that a node's index is the rank of its name and a name is found by
//! bisection.

use crate::text::{
    lemma_lex_asymmetric, lemma_lex_irreflexive, lemma_lex_total, lemma_lex_transitive, lex_lt,
    rank, Rank,
};
use vstd::prelude::*;

verus! {

/// Each name comes before all names that follow it.
pub open spec fn strictly_sorted(s: Seq<Seq<char>>) -> bool {
    forall|i: int, j: int| 0 <= i < j < s.len() ==> lex_lt(#[trigger] s[i], #[trigger] s[j])
}

/// A strictly ascending list with one more name: `n` is put at its place,
/// unless the list holds it already.
pub open spec fn sorted_insert(s: Seq<Seq<char>>, n: Seq<char>) -> Seq<Seq<char>>
    decreases s.len(),
{
    if s.len() == 0 {
        seq![n]
    } else if s.last() == n {
        s
    } else if lex_lt(s.last(), n) {
        s.push(n)
    } else {
        sorted_insert(s.drop_last(), n).push(s.last())
    }
}

/// The names of `s` in strictly ascending order, each once.
pub open spec fn sorted_unique(s: Seq<Seq<char>>) -> Seq<Seq<char>>
    decreases s.len(),
{
    if s.len() == 0 {
        Seq::empty()
    } else {
        sorted_insert(sorted_unique(s.drop_last()), s.last())
    }
}

/// Adding a name behind a list adds it to the list's `sorted_unique`.
pub proof fn lemma_sorted_unique_push(s: Seq<Seq<char>>, n: Seq<char>)
    ensures
        sorted_unique(s.push(n)) == sorted_insert(sorted_unique(s), n),
{
    assert(s.push(n).drop_last() =~= s);
}

/// A strictly ascending list holds no name twice.
pub proof fn lemma_sorted_distinct(s: Seq<Seq<char>>)
    requires
        strictly_sorted(s),
    ensures
        forall|i: int, j: int| 0 <= i < s.len() && 0 <= j < s.len() && i != j ==> s[i] != s[j],
{
    assert forall|i: int, j: int| 0 <= i < s.len() && 0 <= j < s.len() && i != j implies s[i]
        != s[j] by {
        lemma_lex_irreflexive(s[i]);
        if i < j {
            assert(lex_lt(s[i], s[j]));
        } else {
            assert(lex_lt(s[j], s[i]));
        }
    }
}

/// Where `n` goes in a strictly ascending list: `p` parts the names before `n`
/// from the others.
pub open spec fn is_lower_bound(s: Seq<Seq<char>>, n: Seq<char>, p: int) -> bool {
    &&& 0 <= p <= s.len()
    &&& forall|i: int| 0 <= i < p ==> lex_lt(#[trigger] s[i], n)
    &&& forall|i: int| p <= i < s.len() ==> !lex_lt(#[trigger] s[i], n)
}

/// `sorted_insert` puts the name at its lower bound.
pub proof fn lemma_sorted_insert_at(s: Seq<Seq<char>>, n: Seq<char>, p: int)
    requires
        strictly_sorted(s),
        is_lower_bound(s, n, p),
    ensures
        sorted_insert(s, n) == if p < s.len() && s[p] == n {
            s
        } else {
            s.insert(p, n)
        },
        p < s.len() && s[p] == n <==> s.contains(n),
    decreases s.len(),
{
    lemma_sorted_distinct(s);
    if s.len() == 0 {
        assert(s.insert(0, n) =~= seq![n]);
    } else if s.last() == n {
        lemma_lex_irreflexive(n);
        if p < s.len() - 1 {
            assert(lex_lt(s[p], s[s.len() - 1]));
        }
        assert(p == s.len() - 1);
    } else if lex_lt(s.last(), n) {
        assert(p == s.len());
        assert(s.insert(p, n) =~= s.push(n));
        assert forall|i: int| 0 <= i < s.len() implies s[i] != n by {
            lemma_lex_irreflexive(n);
        }
    } else {
        let t = s.drop_last();
        lemma_lex_total(s.last(), n);
        assert(lex_lt(n, s.last()));
        assert(p <= s.len() - 1);
        assert(is_lower_bound(t, n, p));
        lemma_sorted_insert_at(t, n, p);
        if p < t.len() && t[p] == n {
            assert(t.push(s.last()) =~= s);
            assert(s.contains(n));
        } else {
            assert(t.insert(p, n).push(s.last()) =~= s.insert(p, n));
            if s.contains(n) {
                let k = choose|k: int| 0 <= k < s.len() && s[k] == n;
                assert(t[k] == n);
                assert(t.contains(n));
            }
        }
    }
}

/// `sorted_insert` keeps the list strictly ascending and adds `n` to what it
/// holds.
pub proof fn lemma_sorted_insert(s: Seq<Seq<char>>, n: Seq<char>)
    requires
        strictly_sorted(s),
    ensures
        strictly_sorted(sorted_insert(s, n)),
        forall|x: Seq<char>|
            #![trigger sorted_insert(s, n).contains(x)]
            #![trigger s.contains(x)]
            sorted_insert(s, n).contains(x) <==> s.contains(x) || x == n,
    decreases s.len(),
{
    let r = sorted_insert(s, n);
    if s.len() == 0 {
        assert(r[0] == n);
    } else if s.last() == n {
        assert(s[s.len() - 1] == n);
    } else if lex_lt(s.last(), n) {
        assert forall|i: int, j: int| 0 <= i < j < r.len() implies lex_lt(r[i], r[j]) by {
            if j == s.len() && i < s.len() - 1 {
                lemma_lex_transitive(s[i], s.last(), n);
            }
        }
        assert(r[s.len() as int] == n);
        assert forall|x: Seq<char>| r.contains(x) implies s.contains(x) || x == n by {
            let k = choose|k: int| 0 <= k < r.len() && r[k] == x;
            if k < s.len() {
                assert(s[k] == x);
            }
        }
        assert forall|x: Seq<char>| s.contains(x) implies r.contains(x) by {
            let k = choose|k: int| 0 <= k < s.len() && s[k] == x;
            assert(r[k] == x);
        }
    } else {
        let t = s.drop_last();
        let u = sorted_insert(t, n);
        lemma_sorted_insert(t, n);
        lemma_lex_total(s.last(), n);
        assert forall|i: int, j: int| 0 <= i < j < r.len() implies lex_lt(r[i], r[j]) by {
            if j == u.len() {
                assert(u.contains(u[i]));
                if u[i] == n {
                } else {
                    let k = choose|k: int| 0 <= k < t.len() && t[k] == u[i];
                    assert(lex_lt(s[k], s[s.len() - 1]));
                }
            }
        }
        assert forall|x: Seq<char>| r.contains(x) implies s.contains(x) || x == n by {
            let k = choose|k: int| 0 <= k < r.len() && r[k] == x;
            if k < u.len() {
                assert(u.contains(x));
                if x != n {
                    let m = choose|m: int| 0 <= m < t.len() && t[m] == x;
                    assert(s[m] == x);
                }
            } else {
                assert(s[s.len() - 1] == x);
            }
        }
        assert forall|x: Seq<char>| s.contains(x) || x == n implies r.contains(x) by {
            if x == n {
                assert(u.contains(n));
                let k = choose|k: int| 0 <= k < u.len() && u[k] == n;
                assert(r[k] == n);
            } else {
                let k = choose|k: int| 0 <= k < s.len() && s[k] == x;
                if k < t.len() {
                    assert(t[k] == x);
                    assert(t.contains(x));
                    assert(u.contains(x));
                    let m = choose|m: int| 0 <= m < u.len() && u[m] == x;
                    assert(r[m] == x);
                } else {
                    assert(r[u.len() as int] == x);
                }
            }
        }
    }
}

/// `sorted_unique` is strictly ascending and holds the names of `s`.
pub proof fn lemma_sorted_unique(s: Seq<Seq<char>>)
    ensures
        strictly_sorted(sorted_unique(s)),
        forall|x: Seq<char>|
            #![trigger sorted_unique(s).contains(x)]
            #![trigger s.contains(x)]
            sorted_unique(s).contains(x) <==> s.contains(x),
    decreases s.len(),
{
    if s.len() > 0 {
        let t = s.drop_last();
        lemma_sorted_unique(t);
        lemma_sorted_insert(sorted_unique(t), s.last());
        assert forall|x: Seq<char>| sorted_unique(s).contains(x) implies s.contains(x) by {
            if x == s.last() {
                assert(s[s.len() - 1] == x);
            } else {
                assert(t.contains(x));
                let k = choose|k: int| 0 <= k < t.len() && t[k] == x;
                assert(s[k] == x);
            }
        }
        assert forall|x: Seq<char>| s.contains(x) implies sorted_unique(s).contains(x) by {
            let k = choose|k: int| 0 <= k < s.len() && s[k] == x;
            if k < t.len() {
                assert(t[k] == x);
                assert(t.contains(x));
            }
        }
    }
}

/// The index at which `name` stands in a strictly ascending list, or would
/// stand if it were added.
pub fn lower_bound(names: &Vec<String>, name: &str) -> (p: usize)
    requires
        strictly_sorted(names.deep_view()),
    ensures
        is_lower_bound(names.deep_view(), name@, p as int),
{
    let ghost s = names.deep_view();
    let mut lo: usize = 0;
    let mut hi: usize = names.len();
    while lo < hi
        invariant
            s == names.deep_view(),
            strictly_sorted(s),
            lo <= hi <= names.len(),
            forall|i: int| 0 <= i < lo ==> lex_lt(#[trigger] s[i], name@),
            forall|i: int| hi <= i < s.len() ==> !lex_lt(#[trigger] s[i], name@),
        decreases hi - lo,
    {
        let mid: usize = lo + (hi - lo) / 2;
        assert(s[mid as int] == names[mid as int]@);
        match rank(names[mid].as_str(), name) {
            Rank::Before => {
                assert forall|i: int| 0 <= i < mid + 1 implies lex_lt(#[trigger] s[i], name@) by {
                    if i < mid {
                        lemma_lex_transitive(s[i], s[mid as int], name@);
                    }
                }
                lo = mid + 1;
            },
            Rank::Same => {
                proof {
                    lemma_lex_irreflexive(name@);
                    assert forall|i: int| mid <= i < s.len() implies !lex_lt(
                        #[trigger] s[i],
                        name@,
                    ) by {
                        if i > mid {
                            lemma_lex_asymmetric(s[mid as int], s[i]);
                        }
                    }
                }
                return mid;
            },
            Rank::After => {
                assert forall|i: int| mid <= i < s.len() implies !lex_lt(
                    #[trigger] s[i],
                    name@,
                ) by {
                    if lex_lt(s[i], name@) {
                        lemma_lex_transitive(s[i], name@, s[mid as int]);
                        if i > mid {
                            lemma_lex_asymmetric(s[mid as int], s[i]);
                        } else {
                            lemma_lex_irreflexive(s[i]);
                        }
                    }
                }
                hi = mid;
            },
        }
    }
    lo
}

/// Looks `name` up in a strictly ascending list.
pub fn find(names: &Vec<String>, name: &str) -> (r: Option<usize>)
    requires
        strictly_sorted(names.deep_view()),
    ensures
        match r {
            Some(i) => i < names.len() && names.deep_view()[i as int] == name@,
            None => !names.deep_view().contains(name@),
        },
{
    let p = lower_bound(names, name);
    proof {
        lemma_sorted_insert_at(names.deep_view(), name@, p as int);
    }
    if p < names.len() {
        assert(names.deep_view()[p as int] == names[p as int]@);
        match rank(names[p].as_str(), name) {
            Rank::Same => Some(p),
            _ => None,
        }
    } else {
        None
    }
}

/// Adds `name` to a strictly ascending list, unless the list holds it.
pub fn insert_sorted(names: &mut Vec<String>, name: &str)
    requires
        strictly_sorted(old(names).deep_view()),
    ensures
        final(names).deep_view() == sorted_insert(old(names).deep_view(), name@),
        strictly_sorted(final(names).deep_view()),
{
    let ghost s = names.deep_view();
    let p = lower_bound(names, name);
    proof {
        lemma_sorted_insert_at(s, name@, p as int);
        lemma_sorted_insert(s, name@);
    }
    if p < names.len() {
        assert(s[p as int] == names[p as int]@);
        match rank(names[p].as_str(), name) {
            Rank::Same => {
                return ;
            },
            _ => {},
        }
    }
    names.insert(p, name.to_owned());
    assert(names.deep_view() =~= s.insert(p as int, name@));
}

/// Whether a list of names, in any order, holds `name`.
pub fn contains(list: &Vec<String>, name: &str) -> (r: bool)
    ensures
        r == list.deep_view().contains(name@),
{
    let ghost s = list.deep_view();
    let mut i: usize = 0;
    while i < list.len()
        invariant
            s == list.deep_view(),
            i <= list.len(),
            forall|k: int| 0 <= k < i ==> s[k] != name@,
        decreases list.len() - i,
    {
        assert(s[i as int] == list[i as int]@);
        match rank(list[i].as_str(), name) {
            Rank::Same => {
                return true;
            },
            _ => {},
        }
        i += 1;
    }
    false
}

/// The names of a list in strictly ascending order, each once.
pub fn sorted_copy(list: &Vec<String>) -> (sorted: Vec<String>)
    ensures
        sorted.deep_view() == sorted_unique(list.deep_view()),
        strictly_sorted(sorted.deep_view()),
        forall|x: Seq<char>| sorted.deep_view().contains(x) <==> list.deep_view().contains(x),
{
    let ghost all = list.deep_view();
    let mut sorted: Vec<String> = Vec::new();
    let mut i: usize = 0;
    assert(all.take(0) =~= Seq::<Seq<char>>::empty());
    assert(sorted.deep_view() =~= Seq::<Seq<char>>::empty());
    while i < list.len()
        invariant
            i <= list.len(),
            all == list.deep_view(),
            sorted.deep_view() == sorted_unique(all.take(i as int)),
            strictly_sorted(sorted.deep_view()),
        decreases list.len() - i,
    {
        insert_sorted(&mut sorted, list[i].as_str());
        proof {
            assert(all.take(i + 1).drop_last() =~= all.take(i as int));
            assert(all.take(i + 1).last() == list[i as int]@);
        }
        i += 1;
    }
    proof {
        assert(all.take(i as int) =~= all);
        lemma_sorted_unique(all);
    }
    sorted
}

/// Whether a strictly ascending list holds `name`.
pub fn holds(sorted: &Vec<String>, name: &str) -> (r: bool)
    requires
        strictly_sorted(sorted.deep_view()),
    ensures
        r == sorted.deep_view().contains(name@),
{
    match find(sorted, name) {
        Some(i) => {
            assert(sorted.deep_view()[i as int] == name@);
            true
        },
        None => false,
    }
}

/// An ascending list with one more name: `n` is put behind the names that
/// do not come after it.
pub open spec fn ordered_insert(s: Seq<Seq<char>>, n: Seq<char>) -> Seq<Seq<char>>
    decreases s.len(),
{
    if s.len() == 0 {
        seq![n]
    } else if !lex_lt(n, s.last()) {
        s.push(n)
    } else {
        ordered_insert(s.drop_last(), n).push(s.last())
    }
}

/// The names of `s` in ascending order, each as often as `s` holds it.
pub open spec fn sorted_all(s: Seq<Seq<char>>) -> Seq<Seq<char>>
    decreases s.len(),
{
    if s.len() == 0 {
        Seq::empty()
    } else {
        ordered_insert(sorted_all(s.drop_last()), s.last())
    }
}

/// `ordered_insert` puts the name behind the last name that does not come
/// after it.
proof fn lemma_ordered_insert_at(s: Seq<Seq<char>>, n: Seq<char>, p: int)
    requires
        0 <= p <= s.len(),
        forall|i: int| p <= i < s.len() ==> lex_lt(n, #[trigger] s[i]),
        p > 0 ==> !lex_lt(n, s[p - 1]),
    ensures
        ordered_insert(s, n) == s.insert(p, n),
    decreases s.len(),
{
    if s.len() == 0 {
        assert(s.insert(0, n) =~= seq![n]);
    } else if p == s.len() {
        assert(s.insert(p, n) =~= s.push(n));
    } else {
        assert(lex_lt(n, s[s.len() - 1]));
        lemma_ordered_insert_at(s.drop_last(), n, p);
        assert(s.drop_last().insert(p, n).push(s.last()) =~= s.insert(p, n));
    }
}

/// Adds `name` to an ascending list, behind the names that do not come
/// after it.
pub fn insert_ordered(names: &mut Vec<String>, name: &str)
    ensures
        final(names).deep_view() == ordered_insert(old(names).deep_view(), name@),
{
    let ghost s = names.deep_view();
    let mut p: usize = names.len();
    let mut placed = false;
    while p > 0 && !placed
        invariant
            p <= names.len(),
            s == names.deep_view(),
            forall|i: int| p <= i < s.len() ==> lex_lt(name@, #[trigger] s[i]),
            placed ==> p > 0 && !lex_lt(name@, s[p - 1]),
        decreases p + if placed { 0int } else { 1int },
    {
        assert(s[p - 1] == names[p - 1]@);
        match rank(name, names[p - 1].as_str()) {
            Rank::Before => {
                p -= 1;
            },
            _ => {
                proof {
                    lemma_lex_irreflexive(name@);
                    if lex_lt(name@, s[p - 1]) {
                        lemma_lex_asymmetric(name@, s[p - 1]);
                    }
                }
                placed = true;
            },
        }
    }
    proof {
        lemma_ordered_insert_at(s, name@, p as int);
    }
    names.insert(p, name.to_owned());
    assert(names.deep_view() =~= s.insert(p as int, name@));
}

/// The names of a list in ascending order.
pub fn sort_names(list: &Vec<String>) -> (sorted: Vec<String>)
    ensures
        sorted.deep_view() == sorted_all(list.deep_view()),
{
    let ghost all = list.deep_view();
    let mut sorted: Vec<String> = Vec::new();
    let mut i: usize = 0;
    assert(all.take(0) =~= Seq::<Seq<char>>::empty());
    assert(sorted.deep_view() =~= Seq::<Seq<char>>::empty());
    while i < list.len()
        invariant
            i <= list.len(),
            all == list.deep_view(),
            sorted.deep_view() == sorted_all(all.take(i as int)),
        decreases list.len() - i,
    {
        insert_ordered(&mut sorted, list[i].as_str());
        proof {
            assert(all.take(i + 1).drop_last() =~= all.take(i as int));
            assert(all.take(i + 1).last() == list[i as int]@);
        }
        i += 1;
    }
    assert(all.take(i as int) =~= all);
    sorted
}

/// In a strictly ascending list no name comes after the last.
proof fn lemma_last_is_greatest(s: Seq<Seq<char>>, x: Seq<char>)
    requires
        strictly_sorted(s),
        s.contains(x),
    ensures
        x == s.last() || lex_lt(x, s.last()),
{
    let k = choose|k: int| 0 <= k < s.len() && s[k] == x;
    if k < s.len() - 1 {
        assert(lex_lt(s[k], s[s.len() - 1]));
    }
}

/// Two strictly ascending lists that hold the same names are the same list.
pub proof fn lemma_sorted_same_names(a: Seq<Seq<char>>, b: Seq<Seq<char>>)
    requires
        strictly_sorted(a),
        strictly_sorted(b),
        forall|x: Seq<char>| a.contains(x) <==> b.contains(x),
    ensures
        a == b,
    decreases a.len(),
{
    if a.len() == 0 {
        if b.len() > 0 {
            assert(b.contains(b[0]));
        }
        assert(a =~= b);
    } else {
        assert(a.contains(a.last())) by {
            assert(a[a.len() - 1] == a.last());
        }
        assert(b.len() > 0) by {
            let k = choose|k: int| 0 <= k < b.len() && b[k] == a.last();
        }
        assert(b.contains(b.last())) by {
            assert(b[b.len() - 1] == b.last());
        }
        lemma_last_is_greatest(a, b.last());
        lemma_last_is_greatest(b, a.last());
        if a.last() != b.last() {
            lemma_lex_asymmetric(a.last(), b.last());
        }
        let a0 = a.drop_last();
        let b0 = b.drop_last();
        lemma_sorted_distinct(a);
        lemma_sorted_distinct(b);
        assert forall|x: Seq<char>| a0.contains(x) <==> b0.contains(x) by {
            if a0.contains(x) {
                let k = choose|k: int| 0 <= k < a0.len() && a0[k] == x;
                assert(a[k] == x);
                assert(a.contains(x));
                let m = choose|m: int| 0 <= m < b.len() && b[m] == x;
                assert(x != a.last());
                assert(b0[m] == x);
            }
            if b0.contains(x) {
                let k = choose|k: int| 0 <= k < b0.len() && b0[k] == x;
                assert(b[k] == x);
                assert(b.contains(x));
                let m = choose|m: int| 0 <= m < a.len() && a[m] == x;
                assert(x != b.last());
                assert(a0[m] == x);
            }
        }
        lemma_sorted_same_names(a0, b0);
        assert(a =~= a0.push(a.last()));
        assert(b =~= b0.push(b.last()));
    }
}

} // verus!
