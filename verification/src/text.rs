//! Text as a sequence of characters: the few operations the daemon needs on
//! names, paths and the small files it keeps, each with its meaning stated
//! over `Seq<char>`.

use vstd::prelude::*;
use vstd::string::*;

verus! {

/// `String::push`: the text grows by one character at its end.
pub assume_specification[ String::push ](s: &mut String, c: char)
    ensures
        final(s)@ == old(s)@.push(c),
;

/// What the texts of a list say, in order.
pub open spec fn views(v: Seq<String>) -> Seq<Seq<char>> {
    Seq::new(v.len(), |i: int| v[i]@)
}

/// What an optional text says.
pub open spec fn opt_view(s: Option<&str>) -> Option<Seq<char>> {
    match s {
        Some(t) => Some(t@),
        None => None,
    }
}

/// What an optional text of one's own says.
pub open spec fn opt_text(s: Option<String>) -> Option<Seq<char>> {
    match s {
        Some(t) => Some(t@),
        None => None,
    }
}

/// What a text or an error in its place says.
pub open spec fn result_view<E>(r: Result<String, E>) -> Result<Seq<char>, E> {
    match r {
        Ok(t) => Ok(t@),
        Err(e) => Err(e),
    }
}

/// The characters of `s`, in order.
pub fn chars_of(s: &str) -> (v: Vec<char>)
    ensures
        v@ == s@,
{
    let mut v: Vec<char> = Vec::new();
    for c in iter: s.chars()
        invariant
            v@ == s@.take(iter.index()),
            iter.seq() == s@,
    {
        v.push(c);
        proof {
            assert(s@.take(iter.index() + 1) =~= s@.take(iter.index()).push(c));
        }
    }
    proof {
        assert(s@.take(s@.len() as int) =~= s@);
    }
    v
}

/// The text of the characters of `v` from `from` up to `to`.
pub fn slice_text(v: &Vec<char>, from: usize, to: usize) -> (s: String)
    requires
        from <= to <= v@.len(),
    ensures
        s@ == v@.subrange(from as int, to as int),
{
    let mut s = String::new();
    let mut i: usize = from;
    proof {
        assert(s@ =~= v@.subrange(from as int, from as int));
    }
    while i < to
        invariant
            from <= i <= to <= v@.len(),
            s@ == v@.subrange(from as int, i as int),
        decreases to - i,
    {
        s.push(v[i]);
        proof {
            assert(v@.subrange(from as int, i as int + 1) =~= v@.subrange(from as int, i as int).push(
                v@[i as int],
            ));
        }
        i += 1;
    }
    s
}

/// Whether two texts are the same.
pub fn same(a: &str, b: &str) -> (r: bool)
    ensures
        r == (a@ == b@),
{
    let x: String = a.to_owned();
    let y: String = b.to_owned();
    x == y
}

/// A copy of a list of texts.
pub fn copy_texts(v: &Vec<String>) -> (r: Vec<String>)
    ensures
        views(r@) == views(v@),
        r@ == v@,
{
    let mut r: Vec<String> = Vec::new();
    let mut i: usize = 0;
    while i < v.len()
        invariant
            i <= v.len(),
            r@ == v@.take(i as int),
        decreases v.len() - i,
    {
        r.push(v[i].clone());
        proof {
            assert(v@.take(i as int + 1) =~= v@.take(i as int).push(v@[i as int]));
        }
        i += 1;
    }
    proof {
        assert(v@.take(v@.len() as int) =~= v@);
    }
    r
}

/// Whether `name` is one of the texts of `v`.
pub fn contains_text(v: &Vec<String>, name: &str) -> (r: bool)
    ensures
        r == views(v@).contains(name@),
{
    let mut i: usize = 0;
    while i < v.len()
        invariant
            i <= v.len(),
            forall|j: int| 0 <= j < i ==> views(v@)[j] != name@,
        decreases v.len() - i,
    {
        if same(v[i].as_str(), name) {
            proof {
                assert(views(v@)[i as int] == name@);
            }
            return true;
        }
        i += 1;
    }
    false
}

/// `head` followed by `tail`.
pub fn joined(head: &str, tail: &str) -> (r: String)
    ensures
        r@ == head@ + tail@,
{
    let mut r: String = head.to_owned();
    r.append(tail);
    r
}

// ---------------------------------------------------------------------------
// White space
// ---------------------------------------------------------------------------
/// Whether `c` has the Unicode property White_Space.
pub open spec fn is_space(c: char) -> bool {
    let n = c as u32;
    ||| 0x9 <= n <= 0xd
    ||| n == 0x20
    ||| n == 0x85
    ||| n == 0xa0
    ||| n == 0x1680
    ||| 0x2000 <= n <= 0x200a
    ||| n == 0x2028
    ||| n == 0x2029
    ||| n == 0x202f
    ||| n == 0x205f
    ||| n == 0x3000
}

/// `s` without the white space it starts with.
pub open spec fn trim_start(s: Seq<char>) -> Seq<char>
    decreases s.len(),
{
    if s.len() > 0 && is_space(s[0]) {
        trim_start(s.drop_first())
    } else {
        s
    }
}

/// `s` without the white space it ends with.
pub open spec fn trim_end(s: Seq<char>) -> Seq<char>
    decreases s.len(),
{
    if s.len() > 0 && is_space(s.last()) {
        trim_end(s.drop_last())
    } else {
        s
    }
}

/// `s` without the white space at either end.
pub open spec fn trimmed(s: Seq<char>) -> Seq<char> {
    trim_end(trim_start(s))
}

fn has_space(c: char) -> (r: bool)
    ensures
        r == is_space(c),
{
    let n: u32 = c as u32;
    (0x9 <= n && n <= 0xd) || n == 0x20 || n == 0x85 || n == 0xa0 || n == 0x1680 || (0x2000 <= n && n
        <= 0x200a) || n == 0x2028 || n == 0x2029 || n == 0x202f || n == 0x205f || n == 0x3000
}

/// `s` without the white space at either end.
pub fn trim(s: &str) -> (r: String)
    ensures
        r@ == trimmed(s@),
{
    let v = chars_of(s);
    let mut from: usize = 0;
    proof {
        assert(s@.skip(0) =~= s@);
    }
    while from < v.len() && has_space(v[from])
        invariant
            from <= v.len(),
            v@ == s@,
            trim_start(s@) == trim_start(s@.skip(from as int)),
        decreases v.len() - from,
    {
        proof {
            assert(s@.skip(from as int).drop_first() =~= s@.skip(from as int + 1));
        }
        from += 1;
    }
    let mut to: usize = v.len();
    proof {
        assert(s@.skip(from as int) =~= s@.subrange(from as int, to as int));
        assert(trim_start(s@) == s@.subrange(from as int, to as int));
    }
    while to > from && has_space(v[to - 1])
        invariant
            from <= to <= v.len(),
            v@ == s@,
            trimmed(s@) == trim_end(s@.subrange(from as int, to as int)),
        decreases to - from,
    {
        proof {
            let w = s@.subrange(from as int, to as int);
            assert(w.last() == s@[to - 1]);
            assert(w.drop_last() =~= s@.subrange(from as int, to - 1));
        }
        to -= 1;
    }
    proof {
        let w = s@.subrange(from as int, to as int);
        if to > from {
            assert(w.last() == s@[to - 1]);
        }
    }
    slice_text(&v, from, to)
}

// ---------------------------------------------------------------------------
// Prefixes, suffixes, parts
// ---------------------------------------------------------------------------
/// Whether the characters of `v` from `at` on start with `part`.
fn part_at(v: &Vec<char>, at: usize, part: &Vec<char>) -> (r: bool)
    requires
        at + part@.len() <= v@.len(),
    ensures
        r == (v@.subrange(at as int, at + part@.len()) == part@),
{
    let mut i: usize = 0;
    while i < part.len()
        invariant
            at + part@.len() <= v.len(),
            i <= part@.len(),
            forall|j: int| 0 <= j < i ==> v@[at + j] == part@[j],
        decreases part@.len() - i,
    {
        if v[at + i] != part[i] {
            proof {
                assert(v@.subrange(at as int, at + part@.len())[i as int] != part@[i as int]);
            }
            return false;
        }
        i += 1;
    }
    proof {
        assert(v@.subrange(at as int, at + part@.len()) =~= part@);
    }
    true
}

/// What follows `prefix` in `s`, if `s` starts with it.
pub fn strip_prefix(s: &str, prefix: &str) -> (r: Option<String>)
    ensures
        r is Some <==> prefix@.is_prefix_of(s@),
        r matches Some(rest) ==> rest@ == s@.skip(prefix@.len() as int) && s@ == prefix@ + rest@,
{
    let v = chars_of(s);
    let p = chars_of(prefix);
    if p.len() > v.len() {
        return None;
    }
    if part_at(&v, 0, &p) {
        proof {
            assert(v@.subrange(p@.len() as int, v@.len() as int) =~= s@.skip(p@.len() as int));
            assert(s@ =~= prefix@ + s@.skip(p@.len() as int));
        }
        Some(slice_text(&v, p.len(), v.len()))
    } else {
        None
    }
}

/// What precedes `suffix` in `s`, if `s` ends with it.
pub fn strip_suffix(s: &str, suffix: &str) -> (r: Option<String>)
    ensures
        r is Some <==> suffix@.is_suffix_of(s@),
        r matches Some(rest) ==> rest@ == s@.take(s@.len() - suffix@.len()) && s@ == rest@ + suffix@,
{
    let v = chars_of(s);
    let p = chars_of(suffix);
    if p.len() > v.len() {
        return None;
    }
    let at: usize = v.len() - p.len();
    if part_at(&v, at, &p) {
        proof {
            assert(v@.subrange(0, at as int) =~= s@.take(at as int));
            assert(s@ =~= s@.take(at as int) + suffix@);
        }
        Some(slice_text(&v, 0, at))
    } else {
        None
    }
}

/// Whether `part` stands anywhere in `s`.
pub open spec fn holds_part(s: Seq<char>, part: Seq<char>) -> bool {
    exists|at: int|
        0 <= at && at + part.len() <= s.len() && #[trigger] s.subrange(at, at + part.len()) == part
}

/// Whether `part` stands anywhere in `s`.
pub fn contains_part(s: &str, part: &str) -> (r: bool)
    ensures
        r == holds_part(s@, part@),
{
    let v = chars_of(s);
    let p = chars_of(part);
    if p.len() > v.len() {
        return false;
    }
    let last: usize = v.len() - p.len();
    let mut at: usize = 0;
    loop
        invariant
            v@ == s@,
            p@ == part@,
            last == v@.len() - p@.len(),
            at <= last,
            forall|j: int| 0 <= j < at ==> #[trigger] s@.subrange(j, j + part@.len()) != part@,
        decreases last - at,
    {
        if part_at(&v, at, &p) {
            return true;
        }
        if at == last {
            return false;
        }
        at += 1;
    }
}

/// Where `c` first stands in `s`; the length of `s` if it does not.
pub open spec fn position(s: Seq<char>, c: char) -> nat
    decreases s.len(),
{
    if s.len() == 0 || s[0] == c {
        0
    } else {
        1 + position(s.drop_first(), c)
    }
}

/// `position` is the first occurrence: what stands before it is not `c`.
pub proof fn lemma_position(s: Seq<char>, c: char)
    ensures
        position(s, c) <= s.len(),
        position(s, c) < s.len() ==> s[position(s, c) as int] == c,
        forall|j: int| 0 <= j < position(s, c) ==> s[j] != c,
        position(s, c) == s.len() <==> !s.contains(c),
    decreases s.len(),
{
    if s.len() > 0 && s[0] != c {
        let t = s.drop_first();
        lemma_position(t, c);
        assert forall|j: int| 0 <= j < position(s, c) implies s[j] != c by {
            if j > 0 {
                assert(s[j] == t[j - 1]);
            }
        }
        if s.contains(c) {
            let k = choose|k: int| 0 <= k < s.len() && s[k] == c;
            assert(t[k - 1] == c);
        }
        if t.contains(c) {
            let k = choose|k: int| 0 <= k < t.len() && t[k] == c;
            assert(s[k + 1] == c);
        }
    }
}

/// The first occurrence is wherever `c` stands with no `c` before it.
pub proof fn lemma_position_is(s: Seq<char>, c: char, at: int)
    requires
        0 <= at <= s.len(),
        at < s.len() ==> s[at] == c,
        forall|j: int| 0 <= j < at ==> s[j] != c,
    ensures
        position(s, c) == at,
{
    lemma_position(s, c);
    let p = position(s, c) as int;
    if p < at {
        assert(s[p] != c);
    }
}

/// The index of the first `c` of `v` from `from` on; the length if there is none.
fn find_from(v: &Vec<char>, from: usize, c: char) -> (at: usize)
    requires
        from <= v@.len(),
    ensures
        from <= at <= v@.len(),
        at - from == position(v@.skip(from as int), c),
{
    let mut at: usize = from;
    while at < v.len() && v[at] != c
        invariant
            from <= at <= v@.len(),
            forall|j: int| from <= j < at ==> v@[j] != c,
        decreases v@.len() - at,
    {
        at += 1;
    }
    proof {
        lemma_position_is(v@.skip(from as int), c, at - from);
    }
    at
}

/// The parts of `s` between the `c`s in it, in order; never empty.
pub open spec fn split(s: Seq<char>, c: char) -> Seq<Seq<char>>
    decreases s.len(),
    via split_decreases
{
    let p = position(s, c) as int;
    if p < s.len() {
        seq![s.take(p)] + split(s.skip(p + 1), c)
    } else {
        seq![s]
    }
}

#[via_fn]
proof fn split_decreases(s: Seq<char>, c: char) {
    lemma_position(s, c);
}

/// The parts of `s` between the `c`s in it.
pub fn split_on(s: &str, c: char) -> (r: Vec<String>)
    ensures
        views(r@) == split(s@, c),
{
    let v = chars_of(s);
    let mut r: Vec<String> = Vec::new();
    let mut from: usize = 0;
    proof {
        assert(s@.skip(0) =~= s@);
        assert(views(r@) + split(s@, c) =~= split(s@, c));
    }
    loop
        invariant
            v@ == s@,
            from <= v@.len(),
            views(r@) + split(s@.skip(from as int), c) == split(s@, c),
        decreases v@.len() - from,
    {
        let at = find_from(&v, from, c);
        let ghost before = views(r@);
        let ghost rest = s@.skip(from as int);
        r.push(slice_text(&v, from, at));
        proof {
            lemma_position(rest, c);
            assert(v@.subrange(from as int, at as int) =~= rest.take(at - from));
            assert(views(r@) =~= before.push(rest.take(at - from)));
        }
        if at == v.len() {
            proof {
                assert(rest.take(at - from) =~= rest);
                assert(views(r@) =~= before + seq![rest]);
            }
            return r;
        }
        proof {
            assert(rest.skip(at - from + 1) =~= s@.skip(at + 1));
            assert(views(r@) + split(s@.skip(at + 1), c) =~= before + (seq![rest.take(at - from)]
                + split(s@.skip(at + 1), c)));
        }
        from = at + 1;
    }
}

/// What stands before and after the first `c` of `s`.
pub open spec fn split_once(s: Seq<char>, c: char) -> Option<(Seq<char>, Seq<char>)> {
    let p = position(s, c) as int;
    if p < s.len() {
        Some((s.take(p), s.skip(p + 1)))
    } else {
        None
    }
}

/// What stands before and after the first `c` of `s`.
pub fn split_first(s: &str, c: char) -> (r: Option<(String, String)>)
    ensures
        r is Some <==> split_once(s@, c) is Some,
        r matches Some(parts) ==> split_once(s@, c) == Some((parts.0@, parts.1@)),
{
    let v = chars_of(s);
    proof {
        assert(v@.skip(0) =~= s@);
    }
    let at = find_from(&v, 0, c);
    if at < v.len() {
        proof {
            assert(v@.subrange(0, at as int) =~= s@.take(at as int));
            assert(v@.subrange(at + 1, v@.len() as int) =~= s@.skip(at + 1));
        }
        Some((slice_text(&v, 0, at), slice_text(&v, at + 1, v.len())))
    } else {
        None
    }
}

/// A line's text without the carriage return it may end with.
pub open spec fn without_cr(line: Seq<char>) -> Seq<char> {
    if line.len() > 0 && line.last() == '\r' {
        line.drop_last()
    } else {
        line
    }
}

/// The lines of `s`: what ends in a line feed, or in a carriage return and a
/// line feed, and what follows the last of them if that is not empty.
pub open spec fn lines(s: Seq<char>) -> Seq<Seq<char>>
    decreases s.len(),
    via lines_decreases
{
    let p = position(s, '\n') as int;
    if p < s.len() {
        seq![without_cr(s.take(p))] + lines(s.skip(p + 1))
    } else if s.len() > 0 {
        seq![s]
    } else {
        seq![]
    }
}

#[via_fn]
proof fn lines_decreases(s: Seq<char>) {
    lemma_position(s, '\n');
}

/// The lines of `s`.
pub fn lines_of(s: &str) -> (r: Vec<String>)
    ensures
        views(r@) == lines(s@),
{
    let v = chars_of(s);
    let mut r: Vec<String> = Vec::new();
    let mut from: usize = 0;
    proof {
        assert(s@.skip(0) =~= s@);
        assert(views(r@) + lines(s@) =~= lines(s@));
    }
    loop
        invariant
            v@ == s@,
            from <= v@.len(),
            views(r@) + lines(s@.skip(from as int)) == lines(s@),
        decreases v@.len() - from,
    {
        let at = find_from(&v, from, '\n');
        let ghost before = views(r@);
        let ghost rest = s@.skip(from as int);
        proof {
            lemma_position(rest, '\n');
        }
        if at == v.len() {
            if from < at {
                r.push(slice_text(&v, from, at));
                proof {
                    assert(v@.subrange(from as int, at as int) =~= rest);
                    assert(views(r@) =~= before + seq![rest]);
                }
            } else {
                proof {
                    assert(views(r@) =~= before + seq![]);
                }
            }
            return r;
        }
        let ghost line = rest.take(at - from);
        let mut to: usize = at;
        if from < at && v[at - 1] == '\r' {
            to = at - 1;
        }
        r.push(slice_text(&v, from, to));
        proof {
            if from < at {
                assert(line.last() == v@[at - 1]);
            }
            assert(v@.subrange(from as int, to as int) =~= without_cr(line));
            assert(views(r@) =~= before.push(without_cr(line)));
            assert(rest.skip(at - from + 1) =~= s@.skip(at + 1));
            assert(views(r@) + lines(s@.skip(at + 1)) =~= before + (seq![without_cr(line)] + lines(
                s@.skip(at + 1),
            )));
        }
        from = at + 1;
    }
}

/// The texts of `parts` one after the other, with `between` between them.
pub open spec fn joined_with(parts: Seq<Seq<char>>, between: Seq<char>) -> Seq<char>
    decreases parts.len(),
{
    if parts.len() == 0 {
        seq![]
    } else if parts.len() == 1 {
        parts[0]
    } else {
        joined_with(parts.drop_last(), between) + between + parts.last()
    }
}

/// The texts of `parts` one after the other, with `between` between them.
pub fn join_texts(parts: &Vec<String>, between: &str) -> (r: String)
    ensures
        r@ == joined_with(views(parts@), between@),
{
    let mut r = String::new();
    let mut i: usize = 0;
    let ghost all = views(parts@);
    proof {
        assert(all.take(0) =~= seq![]);
        assert(r@ =~= seq![]);
    }
    while i < parts.len()
        invariant
            i <= parts.len(),
            all == views(parts@),
            r@ == joined_with(all.take(i as int), between@),
        decreases parts.len() - i,
    {
        proof {
            assert(all.take(i + 1).drop_last() =~= all.take(i as int));
            assert(all.take(i + 1).last() == parts@[i as int]@);
        }
        if i > 0 {
            r.append(between);
        }
        r.append(parts[i].as_str());
        proof {
            if i == 0 {
                assert(r@ =~= parts@[0]@);
            }
        }
        i += 1;
    }
    proof {
        assert(all.take(i as int) =~= all);
    }
    r
}

/// What stands on the two sides of a `c` is split apart.
pub proof fn lemma_split_around(a: Seq<char>, c: char, b: Seq<char>)
    ensures
        split(a.push(c) + b, c) == split(a, c) + split(b, c),
    decreases a.len(),
{
    let whole = a.push(c) + b;
    let p = position(a, c) as int;
    lemma_position(a, c);
    if p < a.len() {
        lemma_position_is(whole, c, p);
        assert(whole.take(p) =~= a.take(p));
        assert(whole.skip(p + 1) =~= a.skip(p + 1).push(c) + b);
        lemma_split_around(a.skip(p + 1), c, b);
        assert(split(whole, c) =~= split(a, c) + split(b, c));
    } else {
        lemma_position_is(whole, c, a.len() as int);
        assert(whole.take(a.len() as int) =~= a);
        assert(whole.skip(a.len() as int + 1) =~= b);
        assert(split(whole, c) =~= split(a, c) + split(b, c));
    }
}

/// A text without `c` is one part.
pub proof fn lemma_split_whole(s: Seq<char>, c: char)
    requires
        !s.contains(c),
    ensures
        split(s, c) == seq![s],
{
    lemma_position(s, c);
}

/// No part holds what was split at.
pub proof fn lemma_split_parts(s: Seq<char>, c: char)
    ensures
        split(s, c).len() > 0,
        forall|i: int| 0 <= i < split(s, c).len() ==> !(#[trigger] split(s, c)[i]).contains(c),
    decreases s.len(),
{
    let p = position(s, c) as int;
    lemma_position(s, c);
    if p < s.len() {
        let rest = split(s.skip(p + 1), c);
        lemma_split_parts(s.skip(p + 1), c);
        assert forall|i: int| 0 <= i < split(s, c).len() implies !(#[trigger] split(s, c)[i]).contains(c) by {
            if i == 0 {
                if s.take(p).contains(c) {
                    let k = choose|k: int| 0 <= k < p && s.take(p)[k] == c;
                    assert(s[k] == c);
                }
            } else {
                assert(split(s, c)[i] == rest[i - 1]);
            }
        }
    }
}

/// What was put together with `c` between comes apart again.
pub proof fn lemma_split_joined(parts: Seq<Seq<char>>, between: Seq<char>, c: char)
    requires
        between == seq![c],
        parts.len() > 0,
        forall|i: int| 0 <= i < parts.len() ==> !(#[trigger] parts[i]).contains(c),
    ensures
        split(joined_with(parts, between), c) == parts,
    decreases parts.len(),
{
    let last = parts.last();
    assert(last == parts[parts.len() - 1]);
    lemma_split_whole(last, c);
    if parts.len() == 1 {
        assert(parts =~= seq![parts[0]]);
    } else {
        let front = parts.drop_last();
        assert forall|i: int| 0 <= i < front.len() implies !(#[trigger] front[i]).contains(c) by {
            assert(front[i] == parts[i]);
        }
        lemma_split_joined(front, between, c);
        let text = joined_with(front, between);
        assert(joined_with(parts, between) =~= text.push(c) + last);
        lemma_split_around(text, c, last);
        assert(front + seq![last] =~= parts);
    }
}

} // verus!
