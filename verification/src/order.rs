//! The order of texts, and lists put in that order.

use vstd::prelude::*;

use crate::text::{chars_of, same, views};

verus! {

/// Whether `a` comes before `b`, where they are equal up to `i`.
pub open spec fn precedes_from(a: Seq<char>, b: Seq<char>, i: int) -> bool
    decreases a.len() - i,
{
    if i >= b.len() {
        false
    } else if i >= a.len() {
        true
    } else if a[i] != b[i] {
        a[i] < b[i]
    } else {
        precedes_from(a, b, i + 1)
    }
}

/// Whether `a` comes strictly before `b`: by the first character in which
/// they differ, and a text before those that extend it.
pub open spec fn precedes(a: Seq<char>, b: Seq<char>) -> bool {
    precedes_from(a, b, 0)
}

/// Whether `s` comes before `t`.
pub fn comes_before(s: &str, t: &str) -> (r: bool)
    ensures
        r == precedes(s@, t@),
{
    let a = chars_of(s);
    let b = chars_of(t);
    let mut i: usize = 0;
    while i < a.len() && i < b.len() && a[i] == b[i]
        invariant
            i <= a.len(),
            i <= b.len(),
            precedes(a@, b@) == precedes_from(a@, b@, i as int),
        decreases a.len() - i,
    {
        i += 1;
    }
    if i >= b.len() {
        false
    } else if i >= a.len() {
        true
    } else {
        a[i] < b[i]
    }
}

proof fn lemma_precedes_from_total(a: Seq<char>, b: Seq<char>, i: int)
    requires
        0 <= i <= a.len(),
        i <= b.len(),
        a.take(i) == b.take(i),
    ensures
        precedes_from(a, b, i) || precedes_from(b, a, i) || a == b,
        !(precedes_from(a, b, i) && precedes_from(b, a, i)),
        a == b ==> !precedes_from(a, b, i),
    decreases a.len() - i,
{
    if i < a.len() && i < b.len() && a[i] == b[i] {
        assert(a.take(i + 1) =~= a.take(i).push(a[i]));
        assert(b.take(i + 1) =~= b.take(i).push(b[i]));
        lemma_precedes_from_total(a, b, i + 1);
    } else if i == a.len() && i == b.len() {
        assert(a.take(i) =~= a);
        assert(b.take(i) =~= b);
    }
}

/// Of two texts one comes before the other or they are the same, never two
/// of these at once.
pub proof fn precedes_is_total(a: Seq<char>, b: Seq<char>)
    ensures
        precedes(a, b) || precedes(b, a) || a == b,
        !(precedes(a, b) && precedes(b, a)),
        a == b ==> !precedes(a, b),
{
    assert(a.take(0) =~= b.take(0));
    lemma_precedes_from_total(a, b, 0);
}

proof fn lemma_precedes_from_transitive(a: Seq<char>, b: Seq<char>, c: Seq<char>, i: int)
    requires
        0 <= i,
        precedes_from(a, b, i),
        precedes_from(b, c, i),
    ensures
        precedes_from(a, c, i),
    decreases a.len() - i,
{
    if i < a.len() && i < b.len() && i < c.len() && a[i] == b[i] && b[i] == c[i] {
        lemma_precedes_from_transitive(a, b, c, i + 1);
    }
}

/// What comes before what comes before a text comes before it.
pub proof fn precedes_is_transitive(a: Seq<char>, b: Seq<char>, c: Seq<char>)
    requires
        precedes(a, b),
        precedes(b, c),
    ensures
        precedes(a, c),
{
    lemma_precedes_from_transitive(a, b, c, 0);
}

/// Whether no text of the list comes before an earlier one.
pub open spec fn is_sorted(s: Seq<Seq<char>>) -> bool {
    forall|i: int, j: int| 0 <= i < j < s.len() ==> !precedes(#[trigger] s[j], #[trigger] s[i])
}

/// Whether `p` names each of the first `n` indices once.
pub open spec fn is_permutation(p: Seq<usize>, n: nat) -> bool {
    &&& p.len() == n
    &&& forall|i: int| 0 <= i < n ==> (#[trigger] p[i]) < n
    &&& forall|i: int, j: int| 0 <= i < j < n ==> #[trigger] p[i] != #[trigger] p[j]
}

/// Whether key `x` stands ahead of key `y` in the order of `keys`: by the
/// text, and of equal texts the earlier first.
pub open spec fn ahead(keys: Seq<Seq<char>>, x: int, y: int) -> bool {
    precedes(keys[x], keys[y]) || (keys[x] == keys[y] && x < y)
}

/// Whether `p` lists the indices of `keys` in the order of the texts, equal
/// texts in the order they stood in.
pub open spec fn is_order(keys: Seq<Seq<char>>, p: Seq<usize>) -> bool {
    &&& is_permutation(p, keys.len())
    &&& forall|i: int, j: int|
        0 <= i < j < p.len() ==> ahead(keys, (#[trigger] p[i]) as int, (#[trigger] p[j]) as int)
}

/// The indices of `keys`, in the order of the texts they name.
pub fn order_of(keys: &Vec<String>) -> (p: Vec<usize>)
    ensures
        is_order(views(keys@), p@),
{
    let ghost k = views(keys@);
    let mut p: Vec<usize> = Vec::new();
    let mut n: usize = 0;
    while n < keys.len()
        invariant
            n <= keys.len(),
            k == views(keys@),
            is_permutation(p@, n as nat),
            forall|i: int, j: int|
                0 <= i < j < p@.len() ==> ahead(k, (#[trigger] p@[i]) as int, (#[trigger] p@[j]) as int),
        decreases keys.len() - n,
    {
        let mut at: usize = n;
        while at > 0 && comes_before(keys[n].as_str(), keys[p[at - 1]].as_str())
            invariant
                at <= n < keys.len(),
                k == views(keys@),
                p@.len() == n,
                is_permutation(p@, n as nat),
                forall|j: int| at <= j < n ==> precedes(k[n as int], k[(#[trigger] p@[j]) as int]),
            decreases at,
        {
            at -= 1;
        }
        let ghost before = p@;
        p.insert(at, n);
        proof {
            assert(p@ == before.insert(at as int, n));
            assert forall|i: int, j: int| 0 <= i < j < p@.len() implies ahead(
                k,
                (#[trigger] p@[i]) as int,
                (#[trigger] p@[j]) as int,
            ) && p@[i] != p@[j] by {
                let bi = if i < at { i } else { i - 1 };
                let bj = if j < at { j } else { j - 1 };
                if i != at && j != at {
                    assert(p@[i] == before[bi] && p@[j] == before[bj]);
                } else if j == at {
                    // An earlier key that is not after the new one.
                    assert(p@[i] == before[i]);
                    let last = before[at - 1] as int;
                    precedes_is_total(k[n as int], k[last]);
                    if i < at - 1 {
                        assert(ahead(k, before[i] as int, before[at - 1] as int));
                        if precedes(k[before[i] as int], k[last]) && precedes(k[last], k[n as int]) {
                            precedes_is_transitive(k[before[i] as int], k[last], k[n as int]);
                        }
                    }
                } else {
                    assert(p@[j] == before[j - 1]);
                }
            }
            assert forall|i: int| 0 <= i < n + 1 implies (#[trigger] p@[i]) < n + 1 by {
                if i < at {
                    assert(p@[i] == before[i]);
                } else if i > at {
                    assert(p@[i] == before[i - 1]);
                }
            }
        }
        n += 1;
    }
    p
}

/// `order_of` leaves no choice: only one listing is in order.
pub proof fn order_is_unique(keys: Seq<Seq<char>>, p: Seq<usize>, q: Seq<usize>)
    requires
        is_order(keys, p),
        is_order(keys, q),
    ensures
        p == q,
{
    lemma_orders_agree(keys, p, q, p.len() as int);
    assert(p.take(p.len() as int) =~= p);
    assert(q.take(p.len() as int) =~= q);
}

proof fn lemma_orders_agree(keys: Seq<Seq<char>>, p: Seq<usize>, q: Seq<usize>, n: int)
    requires
        is_order(keys, p),
        is_order(keys, q),
        0 <= n <= p.len(),
    ensures
        p.take(n) == q.take(n),
    decreases n,
{
    if n > 0 {
        let m = n - 1;
        lemma_orders_agree(keys, p, q, m);
        assert forall|j: int| 0 <= j < m implies p[j] == q[j] by {
            assert(p.take(m)[j] == q.take(m)[j]);
        }
        if p[m] != q[m] {
            lemma_permutation_hits(p, keys.len(), q[m]);
            lemma_permutation_hits(q, keys.len(), p[m]);
            let i = choose|i: int| 0 <= i < p.len() && p[i] == q[m];
            let j = choose|j: int| 0 <= j < q.len() && q[j] == p[m];
            assert(i > m);
            assert(j > m);
            assert(ahead(keys, p[m] as int, p[i] as int));
            assert(ahead(keys, q[m] as int, q[j] as int));
            precedes_is_total(keys[p[m] as int], keys[q[m] as int]);
        }
        assert(p.take(n) =~= p.take(m).push(p[m]));
        assert(q.take(n) =~= q.take(m).push(q[m]));
    }
}

/// What is permuted by machine numbers is no more than there are of them.
proof fn lemma_permutation_fits(p: Seq<usize>, n: nat)
    requires
        is_permutation(p, n),
    ensures
        n <= usize::MAX + 1,
{
    let values = p.map_values(|v: usize| v as int);
    assert(values.no_duplicates());
    values.unique_seq_to_set();
    let all = vstd::set_lib::set_int_range(0, usize::MAX + 1);
    vstd::set_lib::lemma_int_range(0, usize::MAX + 1);
    assert(values.to_set().subset_of(all)) by {
        assert forall|v: int| values.to_set().contains(v) implies all.contains(v) by {
            let i = choose|i: int| 0 <= i < values.len() && values[i] == v;
            assert(values[i] == p[i] as int);
        }
    }
    vstd::set_lib::lemma_len_subset(values.to_set(), all);
}

proof fn lemma_permutation_hits(p: Seq<usize>, n: nat, x: usize)
    requires
        is_permutation(p, n),
        x < n,
    ensures
        exists|i: int| 0 <= i < n && p[i] == x,
{
    if forall|i: int| 0 <= i < n ==> p[i] != x {
        // `n` different indices would have to fit in one place fewer.
        let values = p.map_values(|v: usize| v as int);
        assert(values.no_duplicates());
        values.unique_seq_to_set();
        let all = vstd::set_lib::set_int_range(0, n as int);
        vstd::set_lib::lemma_int_range(0, n as int);
        let fewer = all.remove(x as int);
        assert(values.to_set().subset_of(fewer)) by {
            assert forall|v: int| values.to_set().contains(v) implies fewer.contains(v) by {
                let i = choose|i: int| 0 <= i < values.len() && values[i] == v;
                assert(values[i] == p[i] as int);
            }
        }
        vstd::set_lib::lemma_len_subset(values.to_set(), fewer);
    }
}

/// `x` put where it belongs in `s`: after every text it does not come before.
pub open spec fn insert_text(s: Seq<Seq<char>>, x: Seq<char>) -> Seq<Seq<char>>
    decreases s.len(),
{
    if s.len() > 0 && precedes(x, s.last()) {
        insert_text(s.drop_last(), x).push(s.last())
    } else {
        s.push(x)
    }
}

/// The texts of `s` in order.
pub open spec fn sorted(s: Seq<Seq<char>>) -> Seq<Seq<char>>
    decreases s.len(),
{
    if s.len() == 0 {
        s
    } else {
        insert_text(sorted(s.drop_last()), s.last())
    }
}

proof fn lemma_insert_text(s: Seq<Seq<char>>, x: Seq<char>)
    requires
        is_sorted(s),
    ensures
        is_sorted(insert_text(s, x)),
        insert_text(s, x).to_multiset() == s.to_multiset().insert(x),
        insert_text(s, x).len() == s.len() + 1,
    decreases s.len(),
{
    let r = insert_text(s, x);
    if s.len() > 0 && precedes(x, s.last()) {
        let front = s.drop_last();
        let inner = insert_text(front, x);
        lemma_insert_text(front, x);
        assert(front.push(s.last()) =~= s);
        front.to_multiset_ensures();
        inner.to_multiset_ensures();
        assert(r.to_multiset() =~= s.to_multiset().insert(x));
        assert forall|i: int, j: int| 0 <= i < j < r.len() implies !precedes(
            #[trigger] r[j],
            #[trigger] r[i],
        ) by {
            if j == r.len() - 1 {
                assert(inner.contains(r[i]));
                assert(inner.to_multiset().contains(r[i]));
                precedes_is_total(x, s.last());
                if r[i] != x {
                    assert(front.to_multiset().contains(r[i]));
                    assert(front.contains(r[i]));
                    let k = choose|k: int| 0 <= k < front.len() && front[k] == r[i];
                    assert(s[k] == r[i]);
                }
            } else {
                assert(r[i] == inner[i] && r[j] == inner[j]);
            }
        }
    } else {
        s.to_multiset_ensures();
        assert forall|i: int, j: int| 0 <= i < j < r.len() implies !precedes(
            #[trigger] r[j],
            #[trigger] r[i],
        ) by {
            if j == r.len() - 1 {
                assert(r[i] == s[i]);
                if i < s.len() - 1 {
                    let last = s.last();
                    assert(!precedes(s[s.len() - 1], s[i]));
                    precedes_is_total(s[i], last);
                    precedes_is_total(x, last);
                    precedes_is_total(x, s[i]);
                    if precedes(x, s[i]) && precedes(s[i], last) {
                        precedes_is_transitive(x, s[i], last);
                    }
                }
            } else {
                assert(r[i] == s[i] && r[j] == s[j]);
            }
        }
    }
}

/// A sorted list is in order and holds what the list held, as often.
pub proof fn sorted_is_in_order(s: Seq<Seq<char>>)
    ensures
        is_sorted(sorted(s)),
        sorted(s).to_multiset() == s.to_multiset(),
        sorted(s).len() == s.len(),
        forall|x: Seq<char>| #[trigger] sorted(s).contains(x) <==> s.contains(x),
    decreases s.len(),
{
    if s.len() > 0 {
        sorted_is_in_order(s.drop_last());
        lemma_insert_text(sorted(s.drop_last()), s.last());
        s.drop_last().to_multiset_ensures();
        assert(s.drop_last().push(s.last()) =~= s);
        assert(sorted(s).to_multiset() =~= s.to_multiset());
    }
    s.to_multiset_ensures();
    sorted(s).to_multiset_ensures();
    assert forall|x: Seq<char>| #[trigger] sorted(s).contains(x) <==> s.contains(x) by {
        assert(s.contains(x) <==> s.to_multiset().count(x) > 0);
        assert(sorted(s).contains(x) <==> sorted(s).to_multiset().count(x) > 0);
    }
}

/// Two sorted lists that hold the same texts are the same list.
pub proof fn sorted_lists_agree(a: Seq<Seq<char>>, b: Seq<Seq<char>>)
    requires
        is_sorted(a),
        is_sorted(b),
        a.to_multiset() == b.to_multiset(),
    ensures
        a == b,
    decreases a.len(),
{
    a.to_multiset_ensures();
    b.to_multiset_ensures();
    assert(a.len() == b.len());
    if a.len() > 0 {
        let x = a.last();
        let y = b.last();
        assert(b.contains(x)) by {
            assert(a.contains(x));
            assert(b.to_multiset().count(x) > 0);
        }
        assert(a.contains(y)) by {
            assert(b.contains(y));
            assert(a.to_multiset().count(y) > 0);
        }
        let i = choose|i: int| 0 <= i < b.len() && b[i] == x;
        let j = choose|j: int| 0 <= j < a.len() && a[j] == y;
        precedes_is_total(x, y);
        if i < b.len() - 1 {
            assert(!precedes(b[b.len() - 1], b[i]));
        }
        if j < a.len() - 1 {
            assert(!precedes(a[a.len() - 1], a[j]));
        }
        assert(x == y);
        let fa = a.drop_last();
        let fb = b.drop_last();
        fa.to_multiset_ensures();
        fb.to_multiset_ensures();
        assert(fa.push(x) =~= a);
        assert(fb.push(x) =~= b);
        assert(fa.to_multiset() =~= a.to_multiset().remove(x));
        assert(fb.to_multiset() =~= b.to_multiset().remove(x));
        sorted_lists_agree(fa, fb);
    }
    assert(a =~= b);
}

/// The texts of `v` in order.
pub fn sort_texts(v: &Vec<String>) -> (r: Vec<String>)
    ensures
        views(r@) == sorted(views(v@)),
{
    let mut r: Vec<String> = Vec::new();
    let mut n: usize = 0;
    proof {
        assert(views(v@).take(0) =~= views(r@));
        assert(sorted(views(r@)) == views(r@));
    }
    while n < v.len()
        invariant
            n <= v.len(),
            r@.len() == n,
            views(r@) == sorted(views(v@).take(n as int)),
        decreases v.len() - n,
    {
        let mut at: usize = n;
        let ghost x = v@[n as int]@;
        let ghost s = views(r@);
        proof {
            assert(s.take(n as int) =~= s);
            assert(s.skip(n as int) =~= seq![]);
            assert(insert_text(s, x) =~= insert_text(s.take(n as int), x) + s.skip(n as int));
        }
        while at > 0 && comes_before(v[n].as_str(), r[at - 1].as_str())
            invariant
                at <= n < v.len(),
                n == r@.len(),
                s == views(r@),
                x == v@[n as int]@,
                insert_text(s, x) == insert_text(s.take(at as int), x) + s.skip(at as int),
            decreases at,
        {
            proof {
                let front = s.take(at as int);
                assert(front.last() == s[at - 1]);
                assert(front.drop_last() =~= s.take(at - 1));
                assert(insert_text(front, x) == insert_text(front.drop_last(), x).push(front.last()));
                assert(insert_text(front, x) + s.skip(at as int) =~= insert_text(s.take(at - 1), x)
                    + s.skip(at - 1));
            }
            at -= 1;
        }
        proof {
            if at > 0 {
                assert(s.take(at as int).last() == s[at - 1]);
            }
            assert(insert_text(s.take(at as int), x) == s.take(at as int).push(x));
        }
        r.insert(at, v[n].clone());
        proof {
            assert(views(r@) =~= s.take(at as int).push(x) + s.skip(at as int));
            assert(views(v@).take(n + 1).drop_last() =~= views(v@).take(n as int));
            assert(views(v@).take(n + 1).last() == x);
        }
        n += 1;
    }
    proof {
        assert(views(v@).take(n as int) =~= views(v@));
    }
    r
}

/// `s` with each text that equals the one before it left out.
pub open spec fn deduped(s: Seq<Seq<char>>) -> Seq<Seq<char>>
    decreases s.len(),
{
    if s.len() == 0 {
        s
    } else if s.len() > 1 && s.last() == s[s.len() - 2] {
        deduped(s.drop_last())
    } else {
        deduped(s.drop_last()).push(s.last())
    }
}

/// `v` with each text that equals the one before it left out.
pub fn dedup_texts(v: &Vec<String>) -> (r: Vec<String>)
    ensures
        views(r@) == deduped(views(v@)),
{
    let mut r: Vec<String> = Vec::new();
    let mut n: usize = 0;
    let ghost s = views(v@);
    proof {
        assert(s.take(0) =~= views(r@));
    }
    while n < v.len()
        invariant
            n <= v.len(),
            s == views(v@),
            views(r@) == deduped(s.take(n as int)),
        decreases v.len() - n,
    {
        let ghost front = s.take(n + 1);
        proof {
            assert(front.drop_last() =~= s.take(n as int));
            assert(front.last() == v@[n as int]@);
        }
        let ghost before = views(r@);
        if n == 0 || !same(v[n].as_str(), v[n - 1].as_str()) {
            r.push(v[n].clone());
            proof {
                assert(views(r@) =~= before.push(v@[n as int]@));
            }
        }
        n += 1;
    }
    proof {
        assert(s.take(n as int) =~= s);
    }
    r
}

/// Without its repeats a sorted list is strictly increasing and holds the
/// same texts.
pub proof fn deduped_is_strict(s: Seq<Seq<char>>)
    requires
        is_sorted(s),
    ensures
        forall|i: int, j: int|
            0 <= i < j < deduped(s).len() ==> precedes(
                #[trigger] deduped(s)[i],
                #[trigger] deduped(s)[j],
            ),
        forall|x: Seq<char>| #[trigger] deduped(s).contains(x) <==> s.contains(x),
        s.len() > 0 ==> deduped(s).len() > 0 && deduped(s).last() == s.last(),
    decreases s.len(),
{
    let d = deduped(s);
    if s.len() > 0 {
        let front = s.drop_last();
        let df = deduped(front);
        deduped_is_strict(front);
        assert forall|x: Seq<char>| #[trigger] d.contains(x) <==> s.contains(x) by {
            if s.contains(x) {
                let k = choose|k: int| 0 <= k < s.len() && s[k] == x;
                if k < s.len() - 1 {
                    assert(front[k] == x);
                    assert(df.contains(x));
                    let m = choose|m: int| 0 <= m < df.len() && df[m] == x;
                    assert(d[m] == x);
                } else {
                    if s.len() > 1 && s.last() == s[s.len() - 2] {
                        assert(front.last() == x);
                        assert(d[d.len() - 1] == x);
                    } else {
                        assert(d[d.len() - 1] == x);
                    }
                }
            }
            if d.contains(x) {
                let m = choose|m: int| 0 <= m < d.len() && d[m] == x;
                if m < df.len() {
                    assert(df[m] == x);
                    assert(df.contains(x));
                    assert(front.contains(x));
                    let k = choose|k: int| 0 <= k < front.len() && front[k] == x;
                    assert(s[k] == x);
                } else {
                    assert(s[s.len() - 1] == x);
                }
            }
        }
        if !(s.len() > 1 && s.last() == s[s.len() - 2]) {
            assert forall|i: int, j: int| 0 <= i < j < d.len() implies precedes(
                #[trigger] d[i],
                #[trigger] d[j],
            ) by {
                if j == d.len() - 1 {
                    // The last of the front, then everything before it.
                    let l = front.last();
                    assert(l == s[s.len() - 2]);
                    assert(!precedes(s[s.len() - 1], s[s.len() - 2]));
                    precedes_is_total(l, s.last());
                    if i < df.len() - 1 {
                        assert(precedes(df[i], df[df.len() - 1]));
                        precedes_is_transitive(df[i], l, s.last());
                    }
                } else {
                    assert(d[i] == df[i] && d[j] == df[j]);
                }
            }
        }
    }
}

// ---------------------------------------------------------------------------
// Items arranged by a text of theirs
// ---------------------------------------------------------------------------
/// Items, listed in the order of `p`.
pub open spec fn picked<T>(items: Seq<T>, p: Seq<usize>) -> Seq<T> {
    Seq::new(p.len(), |i: int| items[p[i] as int])
}

/// The key of each item, in order.
pub open spec fn keys_of<T>(items: Seq<T>, key: spec_fn(T) -> Seq<char>) -> Seq<Seq<char>> {
    Seq::new(items.len(), |i: int| key(items[i]))
}

/// Whether every item's key comes strictly before the next one's.
spec fn ascends<T>(items: Seq<T>, key: spec_fn(T) -> Seq<char>) -> bool {
    forall|i: int, j: int|
        0 <= i < j < items.len() ==> precedes(key(#[trigger] items[i]), key(#[trigger] items[j]))
}

proof fn lemma_ascending_lists_agree<T>(a: Seq<T>, b: Seq<T>, key: spec_fn(T) -> Seq<char>)
    requires
        ascends(a, key),
        ascends(b, key),
        forall|x: T| a.contains(x) <==> b.contains(x),
    ensures
        a == b,
    decreases a.len(),
{
    if a.len() == 0 {
        if b.len() > 0 {
            assert(b.contains(b[0]));
        }
        assert(a =~= b);
    } else {
        let x = a.last();
        assert(a.contains(x));
        let k = choose|k: int| 0 <= k < b.len() && b[k] == x;
        let y = b.last();
        assert(b.contains(y));
        let m = choose|m: int| 0 <= m < a.len() && a[m] == y;
        precedes_is_total(key(x), key(y));
        precedes_is_total(key(x), key(x));
        if k < b.len() - 1 {
            assert(precedes(key(b[k]), key(b[b.len() - 1])));
            if m < a.len() - 1 {
                assert(precedes(key(a[m]), key(a[a.len() - 1])));
            }
        }
        assert(x == y);
        let fa = a.drop_last();
        let fb = b.drop_last();
        assert forall|f: T| fa.contains(f) <==> fb.contains(f) by {
            if fa.contains(f) {
                let i = choose|i: int| 0 <= i < fa.len() && fa[i] == f;
                assert(precedes(key(a[i]), key(a[a.len() - 1])));
                assert(a[i] == f);
                assert(a.contains(f));
                let j = choose|j: int| 0 <= j < b.len() && b[j] == f;
                assert(fb[j] == f);
            }
            if fb.contains(f) {
                let i = choose|i: int| 0 <= i < fb.len() && fb[i] == f;
                assert(precedes(key(b[i]), key(b[b.len() - 1])));
                assert(b[i] == f);
                assert(b.contains(f));
                let j = choose|j: int| 0 <= j < a.len() && a[j] == f;
                assert(fa[j] == f);
            }
        }
        lemma_ascending_lists_agree(fa, fb, key);
        assert(a =~= fa.push(x));
        assert(b =~= fb.push(x));
    }
}

proof fn lemma_picked<T>(items: Seq<T>, p: Seq<usize>, key: spec_fn(T) -> Seq<char>)
    requires
        is_order(keys_of(items, key), p),
        keys_of(items, key).no_duplicates(),
    ensures
        ascends(picked(items, p), key),
        forall|x: T| picked(items, p).contains(x) <==> items.contains(x),
{
    let r = picked(items, p);
    let keys = keys_of(items, key);
    assert forall|i: int, j: int| 0 <= i < j < r.len() implies precedes(
        key(#[trigger] r[i]),
        key(#[trigger] r[j]),
    ) by {
        assert(ahead(keys, p[i] as int, p[j] as int));
        assert(p[i] != p[j]);
        assert(keys[p[i] as int] != keys[p[j] as int]);
    }
    assert forall|x: T| r.contains(x) <==> items.contains(x) by {
        if r.contains(x) {
            let i = choose|i: int| 0 <= i < r.len() && r[i] == x;
            assert(items[p[i] as int] == x);
        }
        if items.contains(x) {
            let k = choose|k: int| 0 <= k < items.len() && items[k] == x;
            lemma_permutation_fits(p, items.len());
            lemma_permutation_hits(p, items.len(), k as usize);
            let i = choose|i: int| 0 <= i < items.len() && p[i] == k as usize;
            assert(r[i] == x);
        }
    }
}

/// Items with different keys are arranged in one way, whatever order they came
/// in.
pub proof fn arrangement_is_unique<T>(
    one: Seq<T>,
    other: Seq<T>,
    p: Seq<usize>,
    q: Seq<usize>,
    key: spec_fn(T) -> Seq<char>,
)
    requires
        is_order(keys_of(one, key), p),
        is_order(keys_of(other, key), q),
        keys_of(one, key).no_duplicates(),
        keys_of(other, key).no_duplicates(),
        forall|x: T| one.contains(x) <==> other.contains(x),
    ensures
        picked(one, p) == picked(other, q),
{
    lemma_picked(one, p, key);
    lemma_picked(other, q, key);
    assert forall|x: T| picked(one, p).contains(x) <==> picked(other, q).contains(x) by {
        assert(picked(one, p).contains(x) <==> one.contains(x));
        assert(picked(other, q).contains(x) <==> other.contains(x));
    }
    lemma_ascending_lists_agree(picked(one, p), picked(other, q), key);
}

} // verus!
