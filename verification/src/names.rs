//! Texts in increasing order, as the tables list the names they add.

use vstd::prelude::*;

use crate::text::chars_eq;

verus! {

/// Whether text `a` comes before text `b`: compared character by character by
/// code point, a proper prefix first, as Rust orders `String`s.
pub open spec fn str_lt(a: Seq<char>, b: Seq<char>) -> bool
    decreases a.len(),
{
    if a.len() == 0 {
        b.len() > 0
    } else if b.len() == 0 {
        false
    } else if a[0] != b[0] {
        (a[0] as int) < (b[0] as int)
    } else {
        str_lt(a.drop_first(), b.drop_first())
    }
}

/// No text comes before itself.
pub proof fn lemma_str_lt_irreflexive(a: Seq<char>)
    ensures
        !str_lt(a, a),
    decreases a.len(),
{
    if a.len() > 0 {
        lemma_str_lt_irreflexive(a.drop_first());
    }
}

/// The order of texts is transitive.
pub proof fn lemma_str_lt_transitive(a: Seq<char>, b: Seq<char>, c: Seq<char>)
    requires
        str_lt(a, b),
        str_lt(b, c),
    ensures
        str_lt(a, c),
    decreases a.len(),
{
    if a.len() > 0 && b.len() > 0 && c.len() > 0 {
        if a[0] == b[0] && b[0] == c[0] {
            lemma_str_lt_transitive(a.drop_first(), b.drop_first(), c.drop_first());
        }
    }
}

/// Of two different texts, one comes before the other.
pub proof fn lemma_str_lt_total(a: Seq<char>, b: Seq<char>)
    requires
        a != b,
    ensures
        str_lt(a, b) || str_lt(b, a),
    decreases a.len(),
{
    if a.len() > 0 && b.len() > 0 {
        if a[0] == b[0] {
            if a.drop_first() == b.drop_first() {
                assert(a =~= seq![a[0]] + a.drop_first());
                assert(b =~= seq![b[0]] + b.drop_first());
            }
            lemma_str_lt_total(a.drop_first(), b.drop_first());
        } else {
            assert(a[0] as int != b[0] as int);
        }
    } else if a.len() == 0 && b.len() == 0 {
        assert(a =~= b);
    }
}

/// Whether a list of texts is in strictly increasing order (so without repeats).
pub open spec fn strictly_sorted(r: Seq<Seq<char>>) -> bool {
    forall|i: int, j: int| 0 <= i < j < r.len() ==> str_lt(#[trigger] r[i], #[trigger] r[j])
}

/// The texts of a set, in increasing order.
pub open spec fn sorted_names(s: Set<Seq<char>>) -> Seq<Seq<char>> {
    choose|r: Seq<Seq<char>>| strictly_sorted(r) && r.to_set() == s
}

/// A strictly sorted list is determined by its set of texts.
pub proof fn lemma_sorted_unique(a: Seq<Seq<char>>, b: Seq<Seq<char>>)
    requires
        strictly_sorted(a),
        strictly_sorted(b),
        a.to_set() == b.to_set(),
    ensures
        a == b,
    decreases a.len(),
{
    if a.len() == 0 {
        if b.len() > 0 {
            assert(b.to_set().contains(b[0]));
        }
        assert(a =~= b);
    } else if b.len() == 0 {
        assert(a.to_set().contains(a[0]));
    } else {
        assert(a.to_set().contains(a[0]));
        assert(b.to_set().contains(b[0]));
        if a[0] != b[0] {
            let k = choose|k: int| 0 <= k < b.len() && b[k] == a[0];
            let m = choose|m: int| 0 <= m < a.len() && a[m] == b[0];
            assert(k > 0 && m > 0 ==> str_lt(b[0], b[k]) && str_lt(a[0], a[m]));
            if k > 0 && m > 0 {
                lemma_str_lt_transitive(a[0], b[0], a[0]);
                lemma_str_lt_irreflexive(a[0]);
            }
        }
        lemma_first_not_in_rest(a);
        lemma_first_not_in_rest(b);
        assert(a.drop_first().to_set() =~= a.to_set().remove(a[0])) by {
            lemma_drop_first_set(a);
        }
        assert(b.drop_first().to_set() =~= b.to_set().remove(b[0])) by {
            lemma_drop_first_set(b);
        }
        lemma_sorted_unique(a.drop_first(), b.drop_first());
        assert(a =~= seq![a[0]] + a.drop_first());
        assert(b =~= seq![b[0]] + b.drop_first());
    }
}

proof fn lemma_first_not_in_rest(a: Seq<Seq<char>>)
    requires
        strictly_sorted(a),
        a.len() > 0,
    ensures
        !a.drop_first().contains(a[0]),
        strictly_sorted(a.drop_first()),
{
    if a.drop_first().contains(a[0]) {
        let k = choose|k: int| 0 <= k < a.drop_first().len() && a.drop_first()[k] == a[0];
        assert(str_lt(a[0], a[k + 1]));
        lemma_str_lt_irreflexive(a[0]);
    }
    assert forall|i: int, j: int| 0 <= i < j < a.drop_first().len() implies str_lt(
        #[trigger] a.drop_first()[i],
        #[trigger] a.drop_first()[j],
    ) by {
        assert(str_lt(a[i + 1], a[j + 1]));
    }
}

proof fn lemma_drop_first_set(a: Seq<Seq<char>>)
    requires
        a.len() > 0,
        !a.drop_first().contains(a[0]),
    ensures
        a.drop_first().to_set() == a.to_set().remove(a[0]),
{
    assert forall|x: Seq<char>| a.drop_first().to_set().contains(x) <==> a.to_set().remove(
        a[0],
    ).contains(x) by {
        if a.drop_first().to_set().contains(x) {
            let k = choose|k: int| 0 <= k < a.drop_first().len() && a.drop_first()[k] == x;
            assert(a[k + 1] == x);
        }
        if a.to_set().remove(a[0]).contains(x) {
            let k = choose|k: int| 0 <= k < a.len() && a[k] == x;
            assert(k != 0);
            assert(a.drop_first()[k - 1] == x);
        }
    }
    assert(a.drop_first().to_set() =~= a.to_set().remove(a[0]));
}

/// A strictly sorted list with the texts of `s` is `sorted_names(s)`.
pub proof fn lemma_sorted_names(r: Seq<Seq<char>>, s: Set<Seq<char>>)
    requires
        strictly_sorted(r),
        r.to_set() == s,
    ensures
        sorted_names(s) == r,
{
    let c = sorted_names(s);
    assert(strictly_sorted(c) && c.to_set() == s);
    lemma_sorted_unique(c, r);
}

/// `r` with the text `x` put in its place, where `r` lacks it.
pub open spec fn insert_name(r: Seq<Seq<char>>, x: Seq<char>) -> Seq<Seq<char>>
    decreases r.len(),
{
    if r.len() == 0 {
        seq![x]
    } else if r[0] == x {
        r
    } else if str_lt(x, r[0]) {
        seq![x] + r
    } else {
        seq![r[0]] + insert_name(r.drop_first(), x)
    }
}

/// Putting a text in its place keeps a list strictly sorted and adds the text
/// to its set.
proof fn lemma_insert_name(r: Seq<Seq<char>>, x: Seq<char>)
    requires
        strictly_sorted(r),
    ensures
        strictly_sorted(insert_name(r, x)),
        insert_name(r, x).to_set() == r.to_set().insert(x),
        forall|y: Seq<char>| #[trigger] insert_name(r, x).contains(y) ==> y == x || r.contains(y),
    decreases r.len(),
{
    let t = insert_name(r, x);
    if r.len() == 0 {
        assert(t.to_set() =~= r.to_set().insert(x)) by {
            assert forall|y: Seq<char>| t.to_set().contains(y) <==> r.to_set().insert(x).contains(y) by {
                if y == x {
                    assert(t[0] == y);
                }
            }
        }
    } else if r[0] == x {
        assert(r.to_set().contains(x));
        assert(t.to_set() =~= r.to_set().insert(x));
    } else if str_lt(x, r[0]) {
        assert forall|i: int, j: int| 0 <= i < j < t.len() implies str_lt(
            #[trigger] t[i],
            #[trigger] t[j],
        ) by {
            if i == 0 {
                assert(t[j] == r[j - 1]);
                if j - 1 > 0 {
                    assert(str_lt(r[0], r[j - 1]));
                    lemma_str_lt_transitive(x, r[0], r[j - 1]);
                }
            } else {
                assert(t[i] == r[i - 1] && t[j] == r[j - 1]);
            }
        }
        assert(t.to_set() =~= r.to_set().insert(x)) by {
            assert forall|y: Seq<char>| t.to_set().contains(y) <==> r.to_set().insert(x).contains(y) by {
                if t.to_set().contains(y) {
                    let k = choose|k: int| 0 <= k < t.len() && t[k] == y;
                    if k > 0 {
                        assert(r[k - 1] == y);
                    }
                }
                if r.to_set().contains(y) {
                    let k = choose|k: int| 0 <= k < r.len() && r[k] == y;
                    assert(t[k + 1] == y);
                }
                if y == x {
                    assert(t[0] == y);
                }
            }
        }
        assert forall|y: Seq<char>| #[trigger] t.contains(y) implies y == x || r.contains(y) by {
            let k = choose|k: int| 0 <= k < t.len() && t[k] == y;
            if k > 0 {
                assert(r[k - 1] == y);
            }
        }
    } else {
        lemma_str_lt_total(x, r[0]);
        let rest = r.drop_first();
        lemma_first_not_in_rest(r);
        lemma_insert_name(rest, x);
        let u = insert_name(rest, x);
        assert(t == seq![r[0]] + u);
        assert forall|j: int| 0 <= j < u.len() implies str_lt(r[0], #[trigger] u[j]) by {
            assert(u.contains(u[j]));
            if u[j] != x {
                let k = choose|k: int| 0 <= k < rest.len() && rest[k] == u[j];
                assert(str_lt(r[0], r[k + 1]));
            }
        }
        assert forall|i: int, j: int| 0 <= i < j < t.len() implies str_lt(
            #[trigger] t[i],
            #[trigger] t[j],
        ) by {
            if i == 0 {
                assert(t[j] == u[j - 1]);
            } else {
                assert(t[i] == u[i - 1] && t[j] == u[j - 1]);
            }
        }
        lemma_drop_first_set(r);
        assert(t.to_set() =~= r.to_set().insert(x)) by {
            assert forall|y: Seq<char>| t.to_set().contains(y) <==> r.to_set().insert(x).contains(y) by {
                if t.to_set().contains(y) {
                    let k = choose|k: int| 0 <= k < t.len() && t[k] == y;
                    if k > 0 {
                        assert(u[k - 1] == y);
                        assert(u.to_set().contains(y));
                        if y != x {
                            assert(rest.to_set().contains(y));
                        }
                    }
                }
                if r.to_set().contains(y) && y != r[0] {
                    assert(rest.to_set().contains(y));
                    assert(u.to_set().contains(y));
                    let k = choose|k: int| 0 <= k < u.len() && u[k] == y;
                    assert(t[k + 1] == y);
                }
                if y == x {
                    assert(u.to_set().contains(y));
                    let k = choose|k: int| 0 <= k < u.len() && u[k] == y;
                    assert(t[k + 1] == y);
                }
                if y == r[0] {
                    assert(t[0] == y);
                }
            }
        }
        assert forall|y: Seq<char>| #[trigger] t.contains(y) implies y == x || r.contains(y) by {
            let k = choose|k: int| 0 <= k < t.len() && t[k] == y;
            if k > 0 {
                assert(u[k - 1] == y);
                assert(u.contains(y));
                if y != x {
                    let m = choose|m: int| 0 <= m < rest.len() && rest[m] == y;
                    assert(r[m + 1] == y);
                }
            }
        }
    }
}

/// The texts of a list, without repeats, in increasing order.
pub open spec fn sort_names(q: Seq<Seq<char>>) -> Seq<Seq<char>>
    decreases q.len(),
{
    if q.len() == 0 {
        Seq::empty()
    } else {
        insert_name(sort_names(q.drop_last()), q.last())
    }
}

proof fn lemma_sort_names(q: Seq<Seq<char>>)
    ensures
        strictly_sorted(sort_names(q)),
        sort_names(q).to_set() == q.to_set(),
    decreases q.len(),
{
    if q.len() == 0 {
        assert(sort_names(q).to_set() =~= q.to_set());
    } else {
        lemma_sort_names(q.drop_last());
        lemma_insert_name(sort_names(q.drop_last()), q.last());
        assert(q =~= q.drop_last().push(q.last()));
        lemma_push_to_set(q.drop_last(), q.last());
    }
}

/// For a finite set of texts, `sorted_names` lists exactly its texts in strictly
/// increasing order.
pub proof fn lemma_sorted_names_of(s: Set<Seq<char>>)
    requires
        s.finite(),
    ensures
        strictly_sorted(sorted_names(s)),
        sorted_names(s).to_set() == s,
{
    s.lemma_to_seq_to_set_id();
    let q = s.to_seq();
    lemma_sort_names(q);
    lemma_sorted_names(sort_names(q), s);
}

proof fn lemma_push_to_set(s: Seq<Seq<char>>, x: Seq<char>)
    ensures
        s.push(x).to_set() == s.to_set().insert(x),
{
    assert forall|y: Seq<char>| s.push(x).to_set().contains(y) <==> s.to_set().insert(x).contains(
        y,
    ) by {
        if s.push(x).to_set().contains(y) {
            let k = choose|k: int| 0 <= k < s.push(x).len() && s.push(x)[k] == y;
            if k < s.len() {
                assert(s[k] == y);
            }
        }
        if s.to_set().contains(y) {
            let k = choose|k: int| 0 <= k < s.len() && s[k] == y;
            assert(s.push(x)[k] == y);
        }
        if y == x {
            assert(s.push(x)[s.len() as int] == y);
        }
    }
    assert(s.push(x).to_set() =~= s.to_set().insert(x));
}

/// The views of a list of character vectors.
pub open spec fn names_view(v: Seq<Vec<char>>) -> Seq<Seq<char>> {
    v.map_values(|x: Vec<char>| x@)
}

/// Whether text `a` comes before text `b`, as `str_lt` describes.
pub(crate) fn chars_lt(a: &[char], b: &[char]) -> (r: bool)
    ensures
        r == str_lt(a@, b@),
{
    let mut i: usize = 0;
    proof {
        assert(a@.skip(0) =~= a@);
        assert(b@.skip(0) =~= b@);
    }
    while i < a.len() && i < b.len() && a[i] == b[i]
        invariant
            i <= a@.len(),
            i <= b@.len(),
            str_lt(a@, b@) == str_lt(a@.skip(i as int), b@.skip(i as int)),
        decreases a.len() - i,
    {
        proof {
            assert(a@.skip(i as int).drop_first() =~= a@.skip(i + 1));
            assert(b@.skip(i as int).drop_first() =~= b@.skip(i + 1));
        }
        i = i + 1;
    }
    proof {
        if i < a@.len() {
            assert(a@.skip(i as int)[0] == a@[i as int]);
        }
        if i < b@.len() {
            assert(b@.skip(i as int)[0] == b@[i as int]);
        }
    }
    if i == a.len() {
        i < b.len()
    } else if i == b.len() {
        false
    } else {
        a[i] < b[i]
    }
}

/// Whether `s` holds the text `x`.
pub(crate) fn contains_name(s: &Vec<Vec<char>>, x: &[char]) -> (r: bool)
    ensures
        r == names_view(s@).contains(x@),
{
    let mut i: usize = 0;
    while i < s.len()
        invariant
            i <= s@.len(),
            forall|k: int| 0 <= k < i ==> s@[k]@ != x@,
        decreases s.len() - i,
    {
        if chars_eq(s[i].as_slice(), x) {
            proof {
                assert(names_view(s@)[i as int] == x@);
            }
            return true;
        }
        i = i + 1;
    }
    proof {
        if names_view(s@).contains(x@) {
            let k = choose|k: int| 0 <= k < names_view(s@).len() && names_view(s@)[k] == x@;
            assert(s@[k]@ == x@);
        }
    }
    false
}

/// The texts of `cands` that `existing` does not hold, without repeats, in
/// increasing order.
pub(crate) fn missing_sorted(existing: &Vec<Vec<char>>, cands: &Vec<Vec<char>>) -> (r: Vec<Vec<char>>)
    ensures
        names_view(r@) == sorted_names(
            names_view(cands@).to_set().difference(names_view(existing@).to_set()),
        ),
        strictly_sorted(names_view(r@)),
        names_view(r@).to_set() == names_view(cands@).to_set().difference(
            names_view(existing@).to_set(),
        ),
        r@.len() <= cands@.len(),
{
    let mut r: Vec<Vec<char>> = Vec::new();
    let mut i: usize = 0;
    proof {
        assert(names_view(r@).to_set() =~= names_view(cands@).take(0).to_set().difference(
            names_view(existing@).to_set(),
        ));
    }
    while i < cands.len()
        invariant
            i <= cands@.len(),
            strictly_sorted(names_view(r@)),
            names_view(r@).to_set() == names_view(cands@).take(i as int).to_set().difference(
                names_view(existing@).to_set(),
            ),
        decreases cands.len() - i,
    {
        let c = &cands[i];
        let ghost cv = c@;
        let ghost rv = names_view(r@);
        proof {
            assert(names_view(cands@).take(i + 1) =~= names_view(cands@).take(i as int).push(cv));
            lemma_push_to_set(names_view(cands@).take(i as int), cv);
        }
        if contains_name(existing, c.as_slice()) || contains_name(&r, c.as_slice()) {
            proof {
                assert(names_view(r@).to_set() =~= names_view(cands@).take(i + 1).to_set().difference(
                    names_view(existing@).to_set(),
                ));
            }
        } else {
            // find the place of c
            let mut p: usize = 0;
            while p < r.len() && chars_lt(r[p].as_slice(), c.as_slice())
                invariant
                    p <= r@.len(),
                    rv == names_view(r@),
                    cv == c@,
                    forall|k: int| 0 <= k < p ==> str_lt(#[trigger] rv[k], cv),
                decreases r.len() - p,
            {
                proof {
                    assert(rv[p as int] == r@[p as int]@);
                }
                p = p + 1;
            }
            proof {
                assert(!rv.contains(cv));
                if p < rv.len() {
                    assert(rv[p as int] != cv);
                    lemma_str_lt_total(rv[p as int], cv);
                    assert(str_lt(cv, rv[p as int]));
                }
            }
            let cc = c.clone();
            r.insert(p, cc);
            proof {
                let nv = names_view(r@);
                assert(nv =~= rv.insert(p as int, cv));
                assert forall|a: int, b: int| 0 <= a < b < nv.len() implies str_lt(
                    #[trigger] nv[a],
                    #[trigger] nv[b],
                ) by {
                    if a < p && b < p {
                        assert(nv[a] == rv[a] && nv[b] == rv[b]);
                    } else if a < p && b == p {
                    } else if a < p && b > p {
                        assert(nv[b] == rv[b - 1]);
                        if b - 1 > a {
                            assert(str_lt(rv[a], rv[b - 1]));
                        }
                        if (p as int) < rv.len() {
                            assert(str_lt(cv, rv[p as int]));
                            if b - 1 > p {
                                assert(str_lt(rv[p as int], rv[b - 1]));
                                lemma_str_lt_transitive(cv, rv[p as int], rv[b - 1]);
                            }
                            lemma_str_lt_transitive(rv[a], cv, rv[b - 1]);
                        }
                    } else if a == p {
                        assert(nv[b] == rv[b - 1]);
                        if b - 1 > p {
                            assert(str_lt(rv[p as int], rv[b - 1]));
                            lemma_str_lt_transitive(cv, rv[p as int], rv[b - 1]);
                        }
                    } else {
                        assert(nv[a] == rv[a - 1] && nv[b] == rv[b - 1]);
                    }
                }
                assert(nv.to_set() =~= rv.to_set().insert(cv)) by {
                    assert forall|x: Seq<char>| nv.to_set().contains(x) <==> rv.to_set().insert(
                        cv,
                    ).contains(x) by {
                        if nv.to_set().contains(x) {
                            let k = choose|k: int| 0 <= k < nv.len() && nv[k] == x;
                            if k < p {
                                assert(rv[k] == x);
                            } else if k > p {
                                assert(rv[k - 1] == x);
                            }
                        }
                        if rv.to_set().contains(x) {
                            let k = choose|k: int| 0 <= k < rv.len() && rv[k] == x;
                            if k < p {
                                assert(nv[k] == x);
                            } else {
                                assert(nv[k + 1] == x);
                            }
                        }
                        if x == cv {
                            assert(nv[p as int] == x);
                        }
                    }
                }
                assert(names_view(r@).to_set() =~= names_view(cands@).take(i + 1).to_set().difference(
                    names_view(existing@).to_set(),
                ));
            }
        }
        i = i + 1;
    }
    proof {
        assert(names_view(cands@).take(cands@.len() as int) =~= names_view(cands@));
        lemma_sorted_names(
            names_view(r@),
            names_view(cands@).to_set().difference(names_view(existing@).to_set()),
        );
        lemma_missing_len(names_view(r@), names_view(cands@), names_view(existing@));
    }
    r
}

/// The missing texts are no more than the candidates.
proof fn lemma_missing_len(r: Seq<Seq<char>>, cands: Seq<Seq<char>>, existing: Seq<Seq<char>>)
    requires
        strictly_sorted(r),
        r.to_set() == cands.to_set().difference(existing.to_set()),
    ensures
        r.len() <= cands.len(),
{
    assert(r.no_duplicates()) by {
        assert forall|i: int, j: int| 0 <= i < r.len() && 0 <= j < r.len() && i != j implies r[i]
            != r[j] by {
            if i < j {
                assert(str_lt(r[i], r[j]));
                lemma_str_lt_irreflexive(r[i]);
            } else {
                assert(str_lt(r[j], r[i]));
                lemma_str_lt_irreflexive(r[j]);
            }
        }
    }
    r.unique_seq_to_set();
    vstd::seq_lib::seq_to_set_is_finite(cands);
    vstd::set_lib::lemma_len_subset(r.to_set(), cands.to_set());
    cands.lemma_cardinality_of_set();
}

} // verus!
