//! What holds of paths that are taken apart and put together: a path is its
//! directory and its name, and what is looked up from a directory lies in it.

use vstd::prelude::*;
use vstd::string::*;

use crate::path::{
    anchor, bare, below_anchor, body, components, ends_in_nothing, file_name, has_drive,
    has_extended_drive, has_extended_share, is_drive_itself, is_extended, is_name, is_rooted, join,
    last_start, leading, lemma_anchor, lemma_bare, lemma_last_start_bound, lemma_part_end, name_start, names,
    parent, part_end, parts, prefix_len, prefix_text, resolved, separation, share_end, slashed,
    trimmed_path, wire_path, PathStyle, Separation,
};
use crate::text::{
    joined_with, lemma_split_around, lemma_split_joined, lemma_split_parts, lemma_split_whole, split,
};

verus! {

// ---------------------------------------------------------------------------
// Parts and names
// ---------------------------------------------------------------------------
proof fn lemma_names_concat(a: Seq<Seq<char>>, b: Seq<Seq<char>>, dots: bool)
    ensures
        names(a + b, dots) == names(a, dots) + names(b, dots),
    decreases b.len(),
{
    if b.len() == 0 {
        assert(a + b =~= a);
        assert(names(a, dots) + names(b, dots) =~= names(a, dots));
    } else {
        lemma_names_concat(a, b.drop_last(), dots);
        assert((a + b).drop_last() =~= a + b.drop_last());
        assert((a + b).last() == b.last());
        assert(names(a + b, dots) =~= names(a, dots) + names(b, dots));
    }
}

proof fn lemma_names_one(part: Seq<char>, dots: bool)
    ensures
        names(seq![part], dots) == if part.len() == 0 || (part == "."@ && !dots) {
            Seq::<Seq<char>>::empty()
        } else {
            seq![part]
        },
{
    let one = seq![part];
    assert(one.drop_last() =~= seq![]);
    assert(one.last() == part);
    assert(names(one.drop_last(), dots) =~= seq![]);
    assert(Seq::<Seq<char>>::empty().push(part) =~= one);
}

/// Where every part names something, all of them stay.
proof fn lemma_names_all(all: Seq<Seq<char>>, dots: bool)
    requires
        forall|i: int|
            0 <= i < all.len() ==> (#[trigger] all[i]).len() > 0 && (dots || all[i] != "."@),
    ensures
        names(all, dots) == all,
    decreases all.len(),
{
    if all.len() > 0 {
        let front = all.drop_last();
        assert forall|i: int| 0 <= i < front.len() implies (#[trigger] front[i]).len() > 0 && (dots
            || front[i] != "."@) by {
            assert(front[i] == all[i]);
        }
        lemma_names_all(front, dots);
        assert(all.last() == all[all.len() - 1]);
        assert(front.push(all.last()) =~= all);
    } else {
        assert(names(all, dots) =~= all);
    }
}

/// What names something is some text that holds no separator.
proof fn lemma_names_are(all: Seq<Seq<char>>, dots: bool, c: char)
    requires
        forall|i: int| 0 <= i < all.len() ==> !(#[trigger] all[i]).contains(c),
    ensures
        forall|i: int|
            0 <= i < names(all, dots).len() ==> (#[trigger] names(all, dots)[i]).len() > 0 && (dots || names(
                all,
                dots,
            )[i] != "."@) && !names(all, dots)[i].contains(c),
    decreases all.len(),
{
    if all.len() > 0 {
        let front = all.drop_last();
        assert forall|i: int| 0 <= i < front.len() implies !(#[trigger] front[i]).contains(c) by {
            assert(front[i] == all[i]);
        }
        lemma_names_are(front, dots, c);
        assert(all.last() == all[all.len() - 1]);
        let r = names(all, dots);
        let n = names(front, dots);
        assert forall|i: int| 0 <= i < r.len() implies (#[trigger] r[i]).len() > 0 && (dots || r[i] != "."@)
            && !r[i].contains(c) by {
            if i < n.len() {
                assert(r[i] == n[i]);
            }
        }
    }
}

/// The character that a path's parts are told apart by.
spec fn mark(sep: Separation) -> char {
    if sep == Separation::Backslash {
        '\\'
    } else {
        '/'
    }
}

/// What stands on the two sides of a separator are different parts.
proof fn lemma_parts_around(a: Seq<char>, c: char, b: Seq<char>, sep: Separation)
    requires
        sep.separates(c),
    ensures
        parts(a.push(c) + b, sep) == parts(a, sep) + parts(b, sep),
        parts(a, sep).len() > 0,
        parts(b, sep).len() > 0,
{
    if sep == Separation::Backslash {
        lemma_split_around(a, c, b);
        lemma_split_parts(a, c);
        lemma_split_parts(b, c);
    } else {
        let (sa, sb) = (slashed(a, sep), slashed(b, sep));
        assert(slashed(a.push(c) + b, sep) =~= sa.push('/') + sb);
        lemma_split_around(sa, '/', sb);
        lemma_split_parts(sa, '/');
        lemma_split_parts(sb, '/');
    }
}

/// A text without separators is one part.
proof fn lemma_parts_whole(a: Seq<char>, sep: Separation)
    requires
        forall|i: int| 0 <= i < a.len() ==> !sep.separates(#[trigger] a[i]),
    ensures
        parts(a, sep) == seq![a],
{
    if a.contains(mark(sep)) {
        let k = choose|k: int| 0 <= k < a.len() && a[k] == mark(sep);
        assert(!sep.separates(a[k]));
    }
    if sep == Separation::Backslash {
        lemma_split_whole(a, '\\');
    } else {
        assert(slashed(a, sep) =~= a);
        lemma_split_whole(a, '/');
    }
}

proof fn lemma_empty_parts(sep: Separation, dots: bool)
    ensures
        parts(Seq::<char>::empty(), sep) == seq![Seq::<char>::empty()],
        names(parts(Seq::<char>::empty(), sep), dots) == Seq::<Seq<char>>::empty(),
{
    lemma_parts_whole(Seq::<char>::empty(), sep);
    lemma_names_one(Seq::<char>::empty(), dots);
}

/// Whether a part of a path counts its `.` components.
spec fn counts_dots(sep: Separation) -> bool {
    sep == Separation::Backslash
}

/// What names nothing at the end of a path takes no component with it.
proof fn lemma_bare_keeps_names(p: Seq<char>, keep: int, sep: Separation)
    requires
        0 <= keep <= p.len(),
    ensures
        names(parts(bare(p, keep, sep).skip(keep), sep), counts_dots(sep)) == names(
            parts(p.skip(keep), sep),
            counts_dots(sep),
        ),
    decreases p.len(),
{
    let dots = counts_dots(sep);
    if p.len() > keep && ends_in_nothing(p, sep) {
        let q = p.drop_last();
        let rest = p.skip(keep);
        if sep.separates(p.last()) {
            assert(rest =~= q.skip(keep).push(p.last()) + Seq::<char>::empty());
            lemma_parts_around(q.skip(keep), p.last(), Seq::<char>::empty(), sep);
            lemma_empty_parts(sep, dots);
            lemma_names_concat(parts(q.skip(keep), sep), parts(Seq::<char>::empty(), sep), dots);
            assert(names(parts(q.skip(keep), sep), dots) + Seq::<Seq<char>>::empty() =~= names(
                parts(q.skip(keep), sep),
                dots,
            ));
        } else {
            // A `.` behind a separator.
            reveal_strlit(".");
            assert("."@ =~= seq!['.']);
            let dot = seq!['.'];
            lemma_parts_whole(dot, sep);
            lemma_names_one(dot, dots);
            if p.len() == keep + 1 {
                assert(rest =~= dot);
                assert(q.skip(keep) =~= Seq::<char>::empty());
                lemma_empty_parts(sep, dots);
            } else {
                let x = p.take(p.len() - 2).skip(keep);
                let c = p[p.len() - 2];
                assert(rest =~= x.push(c) + dot);
                assert(q.skip(keep) =~= x.push(c) + Seq::<char>::empty());
                lemma_parts_around(x, c, dot, sep);
                lemma_parts_around(x, c, Seq::<char>::empty(), sep);
                lemma_empty_parts(sep, dots);
                lemma_names_concat(parts(x, sep), parts(dot, sep), dots);
                lemma_names_concat(parts(x, sep), parts(Seq::<char>::empty(), sep), dots);
            }
        }
        lemma_bare_keeps_names(q, keep, sep);
    }
}

/// Nor does it change whether a path that starts with neither a root nor a drive
/// starts with a `.`.
proof fn lemma_bare_keeps_first(p: Seq<char>, sep: Separation)
    requires
        p.len() > 0 ==> !sep.separates(p[0]),
        sep != Separation::Backslash,
    ensures
        parts(bare(p, 0, sep), sep)[0] == parts(p, sep)[0],
    decreases p.len(),
{
    if p.len() > 0 && ends_in_nothing(p, sep) {
        let q = p.drop_last();
        if sep.separates(p.last()) {
            assert(p =~= q.push(p.last()) + Seq::<char>::empty());
            lemma_parts_around(q, p.last(), Seq::<char>::empty(), sep);
        } else {
            let x = p.take(p.len() - 2);
            let c = p[p.len() - 2];
            assert(p =~= x.push(c) + seq!['.']);
            assert(q =~= x.push(c) + Seq::<char>::empty());
            lemma_parts_around(x, c, seq!['.'], sep);
            lemma_parts_around(x, c, Seq::<char>::empty(), sep);
        }
        lemma_bare_keeps_first(q, sep);
    }
}

// ---------------------------------------------------------------------------
// What a path starts with
// ---------------------------------------------------------------------------
/// Where a component ends is seen from what stands up to there.
proof fn lemma_part_end_of_take(p: Seq<char>, k: int, from: int, sep: Separation)
    requires
        0 <= from,
        part_end(p, from, sep) <= k <= p.len(),
    ensures
        part_end(p.take(k), from, sep) == part_end(p, from, sep),
    decreases p.len() - from,
{
    lemma_part_end(p, from, sep);
    if from < k && !sep.separates(p[from]) {
        lemma_part_end_of_take(p, k, from + 1, sep);
    }
}

/// A path starts as it did when something is cut off its end.
proof fn lemma_start_of_take(p: Seq<char>, k: int, style: PathStyle)
    requires
        anchor(p, style) <= k <= p.len(),
    ensures
        prefix_len(p.take(k), style) == prefix_len(p, style),
        anchor(p.take(k), style) == anchor(p, style),
        is_extended(p.take(k), style) == is_extended(p, style),
        prefix_text(p.take(k), style) == prefix_text(p, style),
{
    let q = p.take(k);
    lemma_anchor(p, style);
    lemma_anchor(q, style);
    if style == PathStyle::Windows {
        if is_extended(p, style) {
            let sep = Separation::Backslash;
            lemma_part_end(p, 4, sep);
            lemma_part_end(p, 8, sep);
            let server = part_end(p, 8, sep);
            lemma_part_end(p, server + 1, sep);
            if has_extended_share(p) {
                lemma_part_end_of_take(p, k, 8, sep);
                assert(has_extended_share(q));
                match share_end(p, 8, sep) {
                    Some(share) => {
                        lemma_part_end_of_take(p, k, server + 1, sep);
                    },
                    None => {
                        lemma_part_end(q, server + 1, sep);
                        if server + 1 < q.len() {
                            assert(server + 1 < p.len());
                            assert(sep.separates(p[server + 1]));
                        }
                    },
                }
            } else if has_extended_drive(p) {
                assert(has_extended_drive(q));
            } else {
                lemma_part_end_of_take(p, k, 4, sep);
                if has_extended_drive(q) && !has_extended_drive(p) {
                    // The name goes on behind the colon.
                    assert(p.len() > 6);
                    assert(part_end(p, 4, sep) > 6) by {
                        assert(!sep.separates(p[4]) && !sep.separates(p[5]) && !sep.separates(p[6]));
                        assert(part_end(p, 4, sep) == part_end(p, 5, sep));
                        assert(part_end(p, 5, sep) == part_end(p, 6, sep));
                        lemma_part_end(p, 7, sep);
                    }
                }
            }
        } else {
            let sep = Separation::Either;
            assert(!is_extended(q, style));
            lemma_part_end(p, 2, sep);
            lemma_part_end(p, 4, sep);
            let server = part_end(p, 2, sep);
            lemma_part_end(p, server + 1, sep);
            if p.len() >= 2 && sep.separates(p[0]) && sep.separates(p[1]) {
                if p.len() >= 4 && p[2] == '.' && sep.separates(p[3]) {
                    lemma_part_end_of_take(p, k, 4, sep);
                } else if prefix_len(p, style) > 0 {
                    lemma_part_end_of_take(p, k, 2, sep);
                    lemma_part_end_of_take(p, k, server + 1, sep);
                } else if q.len() >= 2 {
                    lemma_no_share_of_take(p, k);
                }
            }
        }
    }
    assert(prefix_len(q, style) == prefix_len(p, style));
    assert(p.take(prefix_len(p, style)) =~= q.take(prefix_len(p, style)));
    assert(prefix_text(q, style) =~= prefix_text(p, style));
}

/// A path without a share has none when something is cut off its end.
proof fn lemma_no_share_of_take(p: Seq<char>, k: int)
    requires
        2 <= k <= p.len(),
        !(share_end(p, 2, Separation::Either) is Some && part_end(p, 2, Separation::Either) > 2),
    ensures
        !(share_end(p.take(k), 2, Separation::Either) is Some && part_end(p.take(k), 2, Separation::Either)
            > 2),
{
    let sep = Separation::Either;
    let q = p.take(k);
    let server = part_end(p, 2, sep);
    lemma_part_end(p, 2, sep);
    lemma_part_end(q, 2, sep);
    if server <= k {
        lemma_part_end_of_take(p, k, 2, sep);
        lemma_part_end(p, server + 1, sep);
        lemma_part_end(q, server + 1, sep);
        if server > 2 && server + 1 < q.len() {
            assert(sep.separates(p[server + 1]));
        }
    } else {
        let e = part_end(q, 2, sep);
        if e < q.len() {
            assert(sep.separates(q[e]));
            assert(q[e] == p[e]);
        }
        lemma_part_end(q, e + 1, sep);
    }
}

// ---------------------------------------------------------------------------
// A path is its directory and its name
// ---------------------------------------------------------------------------
/// The last part of a path stands behind all others.
proof fn lemma_names_end(b: Seq<char>, keep: int, start: int, sep: Separation)
    requires
        0 <= keep <= start <= b.len(),
        start > keep ==> sep.separates(b[start - 1]),
        forall|i: int| start <= i < b.len() ==> !sep.separates(#[trigger] b[i]),
    ensures
        names(parts(b.skip(keep), sep), counts_dots(sep)) == names(
            parts(b.take(start).skip(keep), sep),
            counts_dots(sep),
        ) + names(seq![b.skip(start)], counts_dots(sep)),
        start > keep ==> parts(b.skip(keep), sep)[0] == parts(b.take(start).skip(keep), sep)[0],
{
    let dots = counts_dots(sep);
    let name = b.skip(start);
    let none = Seq::<char>::empty();
    assert forall|i: int| 0 <= i < name.len() implies !sep.separates(#[trigger] name[i]) by {
        assert(name[i] == b[start + i]);
    }
    lemma_parts_whole(name, sep);
    lemma_empty_parts(sep, dots);
    if start > keep {
        let x = b.take(start - 1).skip(keep);
        let c = b[start - 1];
        assert(b.skip(keep) =~= x.push(c) + name);
        assert(b.take(start).skip(keep) =~= x.push(c) + none);
        lemma_parts_around(x, c, name, sep);
        lemma_parts_around(x, c, none, sep);
        lemma_names_concat(parts(x, sep), parts(name, sep), dots);
        lemma_names_concat(parts(x, sep), parts(none, sep), dots);
        assert(names(parts(x, sep), dots) + Seq::<Seq<char>>::empty() =~= names(parts(x, sep), dots));
    } else {
        assert(b.skip(keep) =~= name);
        assert(b.take(start).skip(keep) =~= none);
        assert(Seq::<Seq<char>>::empty() + names(seq![name], dots) =~= names(seq![name], dots));
    }
}

/// Where a path's directory ends and its name starts.
proof fn lemma_cut(p: Seq<char>, style: PathStyle)
    requires
        file_name(p, style) is Some,
    ensures
        parent(p, style) is Some,
        ({
            let b = trimmed_path(p, style);
            let keep = anchor(p, style);
            let start = name_start(p, style) as int;
            let dir = parent(p, style)->0;
            &&& 0 <= keep <= start < b.len() <= p.len()
            &&& b == p.take(b.len() as int)
            &&& start > keep ==> separation(p, style).separates(b[start - 1])
            &&& forall|i: int| start <= i < b.len() ==> !separation(p, style).separates(#[trigger] b[i])
            &&& dir == bare(b.take(start), keep, separation(p, style))
            &&& keep <= dir.len() <= start
            &&& dir == p.take(dir.len() as int)
        }),
{
    let sep = separation(p, style);
    let keep = anchor(p, style);
    let b = trimmed_path(p, style);
    let start = name_start(p, style) as int;
    lemma_anchor(p, style);
    lemma_bare(p, keep, sep);
    lemma_last_start_bound(b, keep, sep);
    if is_drive_itself(p, style) {
        assert(b.skip(keep) =~= seq!['.']);
        assert(b.skip(keep + 1) =~= seq![]);
    }
    let cut = b.take(start);
    lemma_bare(cut, keep, sep);
    let dir = bare(cut, keep, sep);
    assert(dir =~= p.take(dir.len() as int));
}

proof fn lemma_leading_of_directory(p: Seq<char>, style: PathStyle)
    requires
        file_name(p, style) is Some,
    ensures
        leading(p, style) == leading(parent(p, style)->0, style),
{
    let sep = separation(p, style);
    let keep = anchor(p, style);
    let b = trimmed_path(p, style);
    let start = name_start(p, style) as int;
    let dir = parent(p, style)->0;
    lemma_cut(p, style);
    lemma_anchor(p, style);
    lemma_start_of_take(p, dir.len() as int, style);
    if prefix_len(p, style) == 0 && !is_rooted(p, style) {
        let cut = b.take(start);
        reveal_strlit(".");
        assert("."@ =~= seq!['.']);
        assert(keep == 0);
        assert(p.skip(0) =~= p);
        assert(b.skip(0) =~= b);
        assert(cut.skip(0) =~= cut);
        assert(dir.skip(0) =~= dir);
        assert(b[0] == p[0]);
        lemma_bare_keeps_first(p, sep);
        if start > 0 {
            assert(cut[0] == p[0]);
            lemma_bare_keeps_first(cut, sep);
            lemma_names_end(b, 0, start, sep);
        } else {
            assert(b.skip(start) =~= b);
            assert(dir =~= Seq::<char>::empty());
            lemma_empty_parts(sep, false);
            lemma_parts_whole(b, sep);
        }
    }
}

/// A path with a file name is its directory and that name: it has the
/// components of the one, and the other behind them.
pub proof fn a_path_is_its_directory_and_its_name(p: Seq<char>, style: PathStyle)
    requires
        file_name(p, style) is Some,
    ensures
        parent(p, style) is Some,
        components(p, style) == components(parent(p, style)->0, style).push(file_name(p, style)->0),
{
    let sep = separation(p, style);
    let dots = is_extended(p, style);
    let keep = anchor(p, style);
    let b = trimmed_path(p, style);
    let start = name_start(p, style) as int;
    let dir = parent(p, style)->0;
    let name = b.skip(start);
    lemma_cut(p, style);
    lemma_anchor(p, style);
    lemma_start_of_take(p, dir.len() as int, style);
    lemma_leading_of_directory(p, style);
    lemma_bare_keeps_names(p, keep, sep);
    lemma_bare_keeps_names(b.take(start), keep, sep);
    lemma_names_end(b, keep, start, sep);
    reveal_strlit(".");
    assert("."@ =~= seq!['.']);
    lemma_names_one(name, dots);
    assert(body(p, style) =~= body(dir, style).push(name));
    assert(components(p, style) =~= components(dir, style).push(name));
}

// ---------------------------------------------------------------------------
// What is looked up from a directory lies in it
// ---------------------------------------------------------------------------
/// Whether `part` can be a component: some text without separators that is not
/// `.` and does not start with a drive.
pub open spec fn is_part(part: Seq<char>, style: PathStyle) -> bool {
    &&& part.len() > 0
    &&& forall|i: int| 0 <= i < part.len() ==> !style.separates(#[trigger] part[i])
    &&& part != "."@
    &&& style == PathStyle::Windows ==> !has_drive(part)
}

/// Whether every one of these can be a component.
pub open spec fn are_parts(ps: Seq<Seq<char>>, style: PathStyle) -> bool {
    forall|i: int| 0 <= i < ps.len() ==> is_part(#[trigger] ps[i], style)
}

/// Whether `name` is what an entry of a directory can be called: a component
/// that is not `..`.
pub open spec fn is_plain(name: Seq<char>, style: PathStyle) -> bool {
    is_part(name, style) && is_name(name)
}

/// Whether every one of these is what an entry can be called.
pub open spec fn are_plain(ns: Seq<Seq<char>>, style: PathStyle) -> bool {
    forall|i: int| 0 <= i < ns.len() ==> is_plain(#[trigger] ns[i], style)
}

proof fn lemma_plain_are_parts(ns: Seq<Seq<char>>, style: PathStyle)
    requires
        are_plain(ns, style),
    ensures
        are_parts(ns, style),
{
    assert forall|i: int| 0 <= i < ns.len() implies is_part(#[trigger] ns[i], style) by {
        assert(is_plain(ns[i], style));
    }
}

/// What texts are put together to starts with the first of them.
proof fn lemma_joined_start(ns: Seq<Seq<char>>, c: char)
    requires
        ns.len() > 0,
    ensures
        ({
            let j = joined_with(ns, seq![c]);
            &&& j.len() >= ns[0].len()
            &&& forall|i: int| 0 <= i < ns[0].len() ==> #[trigger] j[i] == ns[0][i]
            &&& j.len() > ns[0].len() ==> j[ns[0].len() as int] == c
        }),
    decreases ns.len(),
{
    if ns.len() > 1 {
        let front = ns.drop_last();
        lemma_joined_start(front, c);
        let f = joined_with(front, seq![c]);
        let j = joined_with(ns, seq![c]);
        assert(j == f + seq![c] + ns.last());
        assert forall|i: int| 0 <= i < ns[0].len() implies #[trigger] j[i] == ns[0][i] by {
            assert(j[i] == f[i]);
        }
        if f.len() > ns[0].len() {
            assert(j[ns[0].len() as int] == f[ns[0].len() as int]);
        }
    }
}

proof fn lemma_slashed_joined(ns: Seq<Seq<char>>, style: PathStyle, sep: Separation)
    requires
        are_parts(ns, style),
        sep != Separation::Backslash,
        sep == Separation::Either ==> style == PathStyle::Windows,
    ensures
        slashed(joined_with(ns, seq!['/']), sep) == joined_with(ns, seq!['/']),
    decreases ns.len(),
{
    let j = joined_with(ns, seq!['/']);
    if ns.len() > 0 {
        let last = ns.last();
        assert(last == ns[ns.len() - 1]);
        assert(is_part(last, style));
        assert(slashed(last, sep) =~= last);
        if ns.len() > 1 {
            let front = ns.drop_last();
            assert forall|i: int| 0 <= i < front.len() implies is_part(#[trigger] front[i], style) by {
                assert(front[i] == ns[i]);
            }
            lemma_slashed_joined(front, style, sep);
            let f = joined_with(front, seq!['/']);
            assert(j == f + seq!['/'] + last);
            assert(slashed(j, sep) =~= slashed(f, sep) + seq!['/'] + slashed(last, sep));
        }
    } else {
        assert(slashed(j, sep) =~= j);
    }
}

/// What names are put together to has them as its components, and nothing else.
proof fn lemma_rest(ns: Seq<Seq<char>>, style: PathStyle)
    requires
        are_parts(ns, style),
        ns.len() > 0,
    ensures
        ({
            let rest = joined_with(ns, "/"@);
            &&& rest.len() > 0
            &&& !style.separates(rest[0])
            &&& prefix_len(rest, style) == 0
            &&& !is_extended(rest, style)
            &&& anchor(rest, style) == 0
            &&& separation(rest, style) != Separation::Backslash
            &&& parts(rest, separation(rest, style)) == ns
            &&& body(rest, style) == ns
        }),
{
    reveal_strlit("/");
    reveal_strlit(".");
    assert("/"@ =~= seq!['/']);
    let rest = joined_with(ns, "/"@);
    let sep = separation(rest, style);
    lemma_joined_start(ns, '/');
    assert(is_part(ns[0], style));
    assert(rest[0] == ns[0][0]);
    assert(!style.separates(ns[0][0]));
    if style == PathStyle::Windows && has_drive(rest) {
        assert(rest[1] == ':');
        if ns[0].len() >= 2 {
            assert(rest[1] == ns[0][1]);
            assert(has_drive(ns[0]));
        }
    }
    lemma_slashed_joined(ns, style, sep);
    assert forall|i: int| 0 <= i < ns.len() implies !(#[trigger] ns[i]).contains('/') by {
        assert(is_part(ns[i], style));
        if ns[i].contains('/') {
            let k = choose|k: int| 0 <= k < ns[i].len() && ns[i][k] == '/';
            assert(!style.separates(ns[i][k]));
        }
    }
    lemma_split_joined(ns, "/"@, '/');
    assert forall|i: int| 0 <= i < ns.len() implies (#[trigger] ns[i]).len() > 0 && (false || ns[i] != "."@) by {
        assert(is_part(ns[i], style));
    }
    lemma_names_all(ns, false);
    assert(rest.skip(0) =~= rest);
}

/// Names lead on, whatever was there.
proof fn lemma_resolved_names(at: Seq<Seq<char>>, ns: Seq<Seq<char>>, style: PathStyle)
    requires
        are_plain(ns, style),
    ensures
        resolved(at, ns) == at + ns,
    decreases ns.len(),
{
    if ns.len() > 0 {
        let front = ns.drop_last();
        assert forall|i: int| 0 <= i < front.len() implies is_plain(#[trigger] front[i], style) by {
            assert(front[i] == ns[i]);
        }
        lemma_resolved_names(at, front, style);
        assert(is_plain(ns[ns.len() - 1], style));
        assert((at + front).push(ns.last()) =~= at + ns);
    } else {
        assert(at + ns =~= at);
    }
}

/// Whether `q` starts as `p` does: with the same drive or share, and the same
/// root.
pub open spec fn starts_alike(p: Seq<char>, q: Seq<char>, style: PathStyle) -> bool {
    prefix_len(q, style) == prefix_len(p, style) && anchor(q, style) == anchor(p, style)
}

/// The components that a path which starts as an extended-length one does has
/// first are the same.
proof fn lemma_extended_alike(p: Seq<char>, q: Seq<char>, style: PathStyle)
    requires
        is_extended(p, style),
        is_extended(q, style),
        starts_alike(p, q, style),
        anchor(p, style) > prefix_len(p, style),
        p.take(prefix_len(p, style)) == q.take(prefix_len(p, style)),
    ensures
        leading(q, style) == leading(p, style),
{
    let n = prefix_len(p, style);
    lemma_anchor(p, style);
    lemma_anchor(q, style);
    let sep = Separation::Backslash;
    lemma_part_end(p, 8, sep);
    lemma_part_end(q, 8, sep);
    lemma_part_end(p, part_end(p, 8, sep) + 1, sep);
    lemma_part_end(q, part_end(q, 8, sep) + 1, sep);
    assert(forall|i: int| 0 <= i < n ==> p[i] == p.take(n)[i] && q[i] == q.take(n)[i]);
    assert(forall|i: int| 0 <= i < n ==> #[trigger] p[i] == q[i]);
    assert(style.separates(p[n]) && style.separates(q[n]));
    assert(prefix_text(q, style) =~= prefix_text(p, style));
}

/// The components of a path that starts as it does with names behind.
proof fn lemma_join_extended(base: Seq<char>, ns: Seq<Seq<char>>, style: PathStyle)
    requires
        is_extended(base, style),
        are_plain(ns, style),
        ns.len() > 0,
        starts_alike(base, join(base, joined_with(ns, "/"@), style), style),
    ensures
        components(join(base, joined_with(ns, "/"@), style), style) == components(base, style) + ns,
{
    let rest = joined_with(ns, "/"@);
    let j = join(base, rest, style);
    let n = prefix_len(base, style);
    let sep = Separation::Backslash;
    lemma_plain_are_parts(ns, style);
    lemma_rest(ns, style);
    lemma_anchor(base, style);
    lemma_resolved_names(body(base, style), ns, style);
    let all = body(base, style) + ns;
    reveal_strlit("\\");
    assert("\\"@ =~= seq!['\\']);
    let prefix = base.take(n);
    assert(j == prefix.push('\\') + joined_with(all, "\\"@));
    assert(j.take(n) =~= prefix);
    assert(j[n] == '\\');
    assert(forall|i: int| 0 <= i < 4 ==> j[i] == prefix[i] && base[i] == prefix[i]);
    assert(is_extended(j, style));
    lemma_split_parts(base.skip(anchor(base, style)), '\\');
    lemma_names_are(below_anchor(base, style), true, '\\');
    assert forall|i: int| 0 <= i < all.len() implies (#[trigger] all[i]).len() > 0 && !all[i].contains(
        '\\',
    ) by {
        if i < body(base, style).len() {
            assert(all[i] == body(base, style)[i]);
        } else {
            let k = i - body(base, style).len();
            assert(all[i] == ns[k]);
            assert(is_plain(ns[k], style));
            if ns[k].contains('\\') {
                let m = choose|m: int| 0 <= m < ns[k].len() && ns[k][m] == '\\';
                assert(!style.separates(ns[k][m]));
            }
        }
    }
    lemma_split_joined(all, "\\"@, '\\');
    lemma_names_all(all, true);
    assert(j.skip(n + 1) =~= joined_with(all, "\\"@));
    assert(anchor(j, style) == n + 1);
    lemma_extended_alike(base, j, style);
    assert(components(j, style) =~= components(base, style) + ns);
}

/// What is looked up from a path that is not extended is put behind it, with a
/// separator between where none is there.
spec fn put_behind(base: Seq<char>, rest: Seq<char>, style: PathStyle) -> Seq<char> {
    if base.len() == 0 || style.separates(base.last()) || (has_drive(base) && base.len() == 2 && style
        == PathStyle::Windows) {
        base + rest
    } else {
        base.push(style.separator()) + rest
    }
}

proof fn lemma_put_behind(base: Seq<char>, ns: Seq<Seq<char>>, style: PathStyle)
    requires
        are_parts(ns, style),
        !is_extended(base, style) || ns.len() == 0,
    ensures
        join(base, joined_with(ns, "/"@), style) == put_behind(base, joined_with(ns, "/"@), style),
{
    if ns.len() > 0 {
        lemma_rest(ns, style);
    } else {
        let rest = joined_with(ns, "/"@);
        assert(rest.len() == 0);
        lemma_anchor(rest, style);
    }
}

/// The parts of what is put behind a path are the parts of both.
proof fn lemma_names_behind(base: Seq<char>, rest: Seq<char>, style: PathStyle, sep: Separation)
    requires
        0 <= anchor(base, style) <= base.len(),
        sep.separates(style.separator()),
        forall|c: char| style.separates(c) <==> sep.separates(c),
        has_drive(base) && base.len() == 2 && style == PathStyle::Windows ==> anchor(base, style) == 2,
    ensures
        ({
            let j = put_behind(base, rest, style);
            let n = anchor(base, style);
            &&& names(parts(j.skip(n), sep), counts_dots(sep)) == names(
                parts(base.skip(n), sep),
                counts_dots(sep),
            ) + names(parts(rest, sep), counts_dots(sep))
            &&& base.len() > n ==> parts(j.skip(n), sep)[0] == parts(base.skip(n), sep)[0]
            &&& base.len() == 0 ==> j == rest
        }),
{
    let dots = counts_dots(sep);
    let n = anchor(base, style);
    let j = put_behind(base, rest, style);
    let none = Seq::<char>::empty();
    lemma_empty_parts(sep, dots);
    if base.len() == n {
        assert(base.skip(n) =~= none);
        if j == base + rest {
            assert(j.skip(n) =~= rest);
            assert(Seq::<Seq<char>>::empty() + names(parts(rest, sep), dots) =~= names(
                parts(rest, sep),
                dots,
            ));
            if base.len() == 0 {
                assert(j =~= rest);
            }
        } else {
            let c = style.separator();
            assert(j.skip(n) =~= none.push(c) + rest);
            lemma_parts_around(none, c, rest, sep);
            lemma_names_concat(parts(none, sep), parts(rest, sep), dots);
        }
    } else if style.separates(base.last()) {
        let y = base.drop_last().skip(n);
        let c = base.last();
        assert(base.skip(n) =~= y.push(c) + none);
        assert(j.skip(n) =~= y.push(c) + rest);
        lemma_parts_around(y, c, none, sep);
        lemma_parts_around(y, c, rest, sep);
        lemma_names_concat(parts(y, sep), parts(none, sep), dots);
        lemma_names_concat(parts(y, sep), parts(rest, sep), dots);
        assert(names(parts(y, sep), dots) + Seq::<Seq<char>>::empty() =~= names(parts(y, sep), dots));
    } else {
        let c = style.separator();
        assert(j.skip(n) =~= base.skip(n).push(c) + rest);
        lemma_parts_around(base.skip(n), c, rest, sep);
        lemma_names_concat(parts(base.skip(n), sep), parts(rest, sep), dots);
    }
}

proof fn lemma_join_plain(base: Seq<char>, ns: Seq<Seq<char>>, style: PathStyle)
    requires
        !is_extended(base, style),
        are_parts(ns, style),
        starts_alike(base, join(base, joined_with(ns, "/"@), style), style),
    ensures
        components(join(base, joined_with(ns, "/"@), style), style) == components(base, style) + ns,
{
    let rest = joined_with(ns, "/"@);
    let j = join(base, rest, style);
    let n = anchor(base, style);
    let sep = separation(base, style);
    lemma_anchor(base, style);
    lemma_anchor(j, style);
    lemma_put_behind(base, ns, style);
    if is_extended(j, style) {
        assert(base.len() >= 4);
        assert(forall|i: int| 0 <= i < 4 ==> j[i] == base[i]);
    }
    assert(separation(j, style) == sep);
    lemma_names_behind(base, rest, style, sep);
    lemma_empty_parts(sep, false);
    if ns.len() > 0 {
        lemma_rest(ns, style);
        assert(rest.skip(0) =~= rest);
        assert(body(rest, style) == names(parts(rest, sep), false));
    } else {
        assert(rest =~= Seq::<char>::empty());
    }
    assert(names(parts(rest, sep), false) =~= ns);
    assert(body(j, style) == body(base, style) + ns);
    assert(leading(j, style) == leading(base, style)) by {
        let m = prefix_len(base, style);
        assert(j.take(m) =~= base.take(m));
        if m == 2 {
            assert(j[0] == base[0]);
        }
        assert(prefix_text(j, style) =~= prefix_text(base, style));
        reveal_strlit(".");
        if base.len() == 0 && ns.len() > 0 {
            assert(is_part(ns[0], style));
            assert(base.skip(0) =~= base);
            assert(j.skip(0) =~= j);
        }
    }
    assert(components(j, style) =~= components(base, style) + ns);
}

/// The components of what is looked up from a path: those of the path, and the
/// names behind them. (Where the path's drive or share is not whole, what is
/// looked up may become a part of it.)
proof fn lemma_join_components(base: Seq<char>, ns: Seq<Seq<char>>, style: PathStyle)
    requires
        are_parts(ns, style),
        is_extended(base, style) ==> are_plain(ns, style),
        starts_alike(base, join(base, joined_with(ns, "/"@), style), style),
    ensures
        components(join(base, joined_with(ns, "/"@), style), style) == components(base, style) + ns,
{
    if !is_extended(base, style) {
        lemma_join_plain(base, ns, style);
    } else if ns.len() > 0 {
        lemma_join_extended(base, ns, style);
    } else {
        let rest = joined_with(ns, "/"@);
        let j = join(base, rest, style);
        assert(rest =~= Seq::<char>::empty());
        lemma_anchor(base, style);
        lemma_put_behind(base, ns, style);
        if j.len() == base.len() {
            assert(j =~= base);
        } else {
            let n = anchor(base, style);
            let sep = Separation::Backslash;
            assert(j =~= base.push('\\'));
            assert(is_extended(j, style));
            assert(j.take(prefix_len(base, style)) =~= base.take(prefix_len(base, style)));
            if n == prefix_len(base, style) {
                lemma_anchor_of_push(base, style);
            }
            lemma_extended_alike(base, j, style);
            assert(j.skip(n) =~= base.skip(n).push('\\') + rest);
            lemma_parts_around(base.skip(n), '\\', rest, sep);
            lemma_empty_parts(sep, true);
            lemma_names_concat(parts(base.skip(n), sep), parts(rest, sep), true);
            assert(body(j, style) =~= body(base, style));
        }
        assert(components(j, style) =~= components(base, style) + ns);
    }
}

/// A separator behind an extended-length path without a root is its root, or
/// it is a part of what stands for its drive.
proof fn lemma_anchor_of_push(p: Seq<char>, style: PathStyle)
    requires
        is_extended(p, style),
        anchor(p, style) == prefix_len(p, style),
    ensures
        !starts_alike(p, p.push('\\'), style),
{
    let q = p.push('\\');
    let sep = Separation::Backslash;
    lemma_anchor(p, style);
    lemma_anchor(q, style);
    lemma_part_end(p, 4, sep);
    lemma_part_end(p, 8, sep);
    lemma_part_end(p, part_end(p, 8, sep) + 1, sep);
    assert(prefix_len(p, style) == p.len());
    if starts_alike(p, q, style) {
        assert(q[p.len() as int] == '\\');
    }
}

/// Whether a path starts at the root of a whole drive or share, so that what is
/// looked up from it does too. On Unix every path keeps its start.
pub open spec fn is_anchored(p: Seq<char>, style: PathStyle) -> bool {
    style == PathStyle::Unix || {
        &&& anchor(p, style) > prefix_len(p, style) > 0
        &&& is_extended(p, style) && has_extended_share(p) ==> share_end(p, 8, Separation::Backslash) is Some
    }
}

/// Where a component ends is seen from what stands up to there and the
/// separator behind it.
proof fn lemma_part_end_alike(p: Seq<char>, q: Seq<char>, from: int, sep: Separation)
    requires
        0 <= from,
        part_end(p, from, sep) < p.len(),
        part_end(p, from, sep) < q.len(),
        forall|i: int| from <= i < part_end(p, from, sep) ==> p[i] == q[i],
        sep.separates(q[part_end(p, from, sep)]),
    ensures
        part_end(q, from, sep) == part_end(p, from, sep),
    decreases p.len() - from,
{
    lemma_part_end(p, from, sep);
    if from < p.len() && !sep.separates(p[from]) {
        lemma_part_end(p, from + 1, sep);
        lemma_part_end_alike(p, q, from + 1, sep);
    }
}

/// Whatever starts with the same drive or share and a root behind it starts
/// alike.
proof fn lemma_anchored(p: Seq<char>, q: Seq<char>, style: PathStyle)
    requires
        style == PathStyle::Windows,
        is_anchored(p, style),
        q.len() > prefix_len(p, style),
        forall|i: int| 0 <= i < prefix_len(p, style) ==> p[i] == q[i],
        q[prefix_len(p, style)] == p[prefix_len(p, style)] || q[prefix_len(p, style)] == '\\',
    ensures
        starts_alike(p, q, style),
        is_extended(q, style) == is_extended(p, style),
        is_anchored(q, style),
{
    let n = prefix_len(p, style);
    lemma_anchor(p, style);
    lemma_anchor(q, style);
    assert(style.separates(p[n]) && style.separates(q[n]));
    if is_extended(p, style) {
        let sep = Separation::Backslash;
        assert(is_extended(q, style));
        lemma_part_end(p, 4, sep);
        lemma_part_end(p, 8, sep);
        let server = part_end(p, 8, sep);
        lemma_part_end(p, server + 1, sep);
        if has_extended_share(p) {
            assert(has_extended_share(q));
            lemma_part_end_alike(p, q, 8, sep);
            lemma_part_end_alike(p, q, server + 1, sep);
        } else if has_extended_drive(p) {
            assert(has_extended_drive(q));
            assert(!has_extended_share(q));
        } else {
            lemma_part_end_alike(p, q, 4, sep);
            assert(sep.separates(p[n]));
            if has_extended_share(q) {
                assert(n >= 7);
                assert(n == 7);
                assert(has_extended_share(p));
            }
            if has_extended_drive(q) {
                assert(n >= 6);
                assert(n == 6);
                assert(has_extended_drive(p));
            }
        }
    } else {
        let sep = Separation::Either;
        lemma_part_end(p, 2, sep);
        lemma_part_end(p, 4, sep);
        let server = part_end(p, 2, sep);
        lemma_part_end(p, server + 1, sep);
        if has_drive(p) && n == 2 {
            assert(has_drive(q));
            assert(!sep.separates(q[0]));
            assert(!is_extended(q, style));
        } else {
            assert(n >= 4);
            assert(!is_extended(q, style));
            if p[2] == '.' && sep.separates(p[3]) {
                lemma_part_end_alike(p, q, 4, sep);
            } else {
                lemma_part_end_alike(p, q, 2, sep);
                lemma_part_end_alike(p, q, server + 1, sep);
            }
        }
    }
}

/// What is looked up from an anchored path starts as that does.
pub proof fn lemma_join_anchored(base: Seq<char>, ns: Seq<Seq<char>>, style: PathStyle)
    requires
        is_anchored(base, style),
        are_parts(ns, style),
        is_extended(base, style) ==> are_plain(ns, style),
    ensures
        starts_alike(base, join(base, joined_with(ns, "/"@), style), style),
        is_anchored(join(base, joined_with(ns, "/"@), style), style),
{
    let rest = joined_with(ns, "/"@);
    let j = join(base, rest, style);
    lemma_anchor(base, style);
    if ns.len() > 0 {
        lemma_rest(ns, style);
    } else {
        assert(rest =~= Seq::<char>::empty());
    }
    if style == PathStyle::Unix {
        lemma_put_behind(base, ns, style);
        if base.len() > 0 {
            assert(j[0] == base[0]);
        } else {
            assert(j =~= rest);
        }
    } else {
        let n = prefix_len(base, style);
        if is_extended(base, style) && ns.len() > 0 {
            assert(j[n] == '\\');
        } else {
            lemma_put_behind(base, ns, style);
            assert(j[n] == base[n]);
        }
        assert(forall|i: int| 0 <= i < n ==> j[i] == base[i]);
        lemma_anchored(base, j, style);
    }
}

/// On Unix a file name is what an entry of a directory can be called.
pub proof fn lemma_file_name_is_plain(p: Seq<char>)
    requires
        file_name(p, PathStyle::Unix) is Some,
    ensures
        is_plain(file_name(p, PathStyle::Unix)->0, PathStyle::Unix),
{
    let style = PathStyle::Unix;
    let b = trimmed_path(p, style);
    let start = name_start(p, style) as int;
    let name = b.skip(start);
    lemma_cut(p, style);
    reveal_strlit(".");
    reveal_strlit("..");
    assert("."@ =~= seq!['.']);
    assert(".."@ =~= seq!['.', '.']);
    assert forall|i: int| 0 <= i < name.len() implies !style.separates(#[trigger] name[i]) by {
        assert(name[i] == b[start + i]);
    }
}

/// What is looked up from a directory lies in it: names, put together with `/`,
/// are looked up from a path as that path's components and the names behind
/// them.
pub proof fn what_is_looked_up_lies_below(base: Seq<char>, ns: Seq<Seq<char>>, style: PathStyle)
    requires
        is_anchored(base, style),
        are_plain(ns, style),
    ensures
        components(join(base, joined_with(ns, "/"@), style), style) == components(base, style) + ns,
        is_anchored(join(base, joined_with(ns, "/"@), style), style),
{
    lemma_plain_are_parts(ns, style);
    lemma_join_anchored(base, ns, style);
    lemma_join_components(base, ns, style);
}

/// A plain name joined to a directory stands at the end, behind a separator or
/// what the path starts with.
proof fn lemma_joined_shape(dir: Seq<char>, name: Seq<char>, style: PathStyle)
    requires
        is_plain(name, style),
        starts_alike(dir, join(dir, name, style), style),
    ensures
        ({
            let j = join(dir, name, style);
            let from = j.len() - name.len();
            &&& 0 <= anchor(j, style) <= from
            &&& from == anchor(j, style) || separation(j, style).separates(j[from - 1])
            &&& j.skip(from) == name
        }),
{
    let d = before_name(dir, style);
    let j = join(dir, name, style);
    let sep = separation(j, style);
    lemma_before_name(dir, name, style);
    lemma_before_ends(dir, style);
    lemma_anchor(dir, style);
    lemma_anchor(j, style);
    assert(j.skip(j.len() - name.len()) =~= name);
    assert(!style.separates(name[0]));
    if d.len() > 0 && style.separates(d.last()) {
        lemma_sibling_prefix(d, name, name, style);
        assert(j[d.len() - 1] == d.last());
    } else if d.len() == 0 {
        let ns = seq![name];
        assert(j =~= name);
        assert(joined_with(ns, "/"@) == name);
        assert(is_plain(ns[0], style));
        lemma_plain_are_parts(ns, style);
        lemma_rest(ns, style);
    } else {
        assert(j[0] == d[0] && j[1] == d[1] && j[2] == name[0]);
    }
}

/// What stands before a name ends in a separator, or it is nothing, or a drive.
proof fn lemma_before_ends(dir: Seq<char>, style: PathStyle)
    ensures
        ({
            let d = before_name(dir, style);
            &&& d.len() >= prefix_len(dir, style)
            &&& is_extended(dir, style) ==> d.len() > prefix_len(dir, style)
            &&& d.len() > 0 && !style.separates(d.last()) ==> style == PathStyle::Windows && has_drive(d)
                && d.len() == 2
            &&& is_extended(d, style) ==> d.last() == '\\'
        }),
{
    let d = before_name(dir, style);
    reveal_strlit("\\");
    assert("\\"@ =~= seq!['\\']);
    lemma_anchor(dir, style);
    if !is_extended(dir, style) {
        assert(d =~= dir || d =~= dir.push(style.separator()));
    }
}

/// A name at the end of a path is its file name.
proof fn lemma_file_name_at_end(j: Seq<char>, name: Seq<char>, style: PathStyle)
    requires
        is_plain(name, style),
        j.len() >= name.len(),
        0 <= anchor(j, style) <= j.len() - name.len(),
        j.len() - name.len() == anchor(j, style) || separation(j, style).separates(
            j[j.len() - name.len() - 1],
        ),
        j.skip(j.len() - name.len()) == name,
    ensures
        trimmed_path(j, style) == j,
        name_start(j, style) == j.len() - name.len(),
        file_name(j, style) == Some(name),
{
    let from = j.len() - name.len();
    let keep = anchor(j, style);
    let sep = separation(j, style);
    reveal_strlit(".");
    reveal_strlit("..");
    assert("."@ =~= seq!['.']);
    assert(".."@ =~= seq!['.', '.']);
    assert(forall|i: int| 0 <= i < name.len() ==> #[trigger] name[i] == j[from + i]);
    assert(forall|i: int| from <= i < j.len() ==> #[trigger] j[i] == name[i - from]);
    assert(!ends_in_nothing(j, sep)) by {
        assert(j.last() == name[name.len() - 1]);
        if name.len() == 1 && name[0] == '.' {
            assert(name =~= seq!['.']);
        }
        if name.len() > 1 {
            assert(j[j.len() - 2] == name[name.len() - 2]);
        }
    }
    assert forall|i: int| from <= i < j.len() implies !sep.separates(#[trigger] j[i]) by {
        assert(!style.separates(name[i - from]));
    }
    lemma_last_start_is(j, keep, from, sep);
}

/// A plain name joined to a directory is that path's file name, and the
/// directory is its parent, component for component, unless the name becomes a
/// part of the path's drive or share.
pub proof fn a_joined_name_is_the_file_name(dir: Seq<char>, name: Seq<char>, style: PathStyle)
    requires
        is_plain(name, style),
        starts_alike(dir, join(dir, name, style), style),
    ensures
        file_name(join(dir, name, style), style) == Some(name),
        parent(join(dir, name, style), style) is Some,
        components(parent(join(dir, name, style), style)->0, style) == components(dir, style),
{
    let ns = seq![name];
    let j = join(dir, name, style);
    assert(joined_with(ns, "/"@) == name);
    assert(is_plain(ns[0], style));
    lemma_plain_are_parts(ns, style);
    lemma_join_components(dir, ns, style);
    lemma_joined_shape(dir, name, style);
    lemma_file_name_at_end(j, name, style);
    a_path_is_its_directory_and_its_name(j, style);
    let own = components(parent(j, style)->0, style);
    assert(own.push(name) == components(dir, style) + ns);
    assert(own =~= own.push(name).drop_last());
    assert((components(dir, style) + ns).drop_last() =~= components(dir, style));
}

proof fn lemma_last_start_is(p: Seq<char>, keep: int, from: int, sep: Separation)
    requires
        0 <= keep <= from <= p.len(),
        from == keep || sep.separates(p[from - 1]),
        forall|j: int| from <= j < p.len() ==> !sep.separates(#[trigger] p[j]),
    ensures
        last_start(p, keep, sep) == from,
    decreases p.len(),
{
    if p.len() > from {
        assert(!sep.separates(p[p.len() - 1]));
        let front = p.drop_last();
        assert forall|j: int| from <= j < front.len() implies !sep.separates(#[trigger] front[j]) by {
            assert(front[j] == p[j]);
        }
        lemma_last_start_is(front, keep, from, sep);
    }
}

// ---------------------------------------------------------------------------
// A path below a root
// ---------------------------------------------------------------------------
/// No component of the body of a path that is not extended holds a `/` or is
/// `.`.
proof fn lemma_body_names(p: Seq<char>, style: PathStyle)
    requires
        !is_extended(p, style),
    ensures
        forall|i: int|
            0 <= i < body(p, style).len() ==> (#[trigger] body(p, style)[i]).len() > 0 && body(
                p,
                style,
            )[i] != "."@ && !body(p, style)[i].contains('/') && (style == PathStyle::Windows ==> !body(
                p,
                style,
            )[i].contains('\\')),
{
    let sep = separation(p, style);
    let rest = slashed(p.skip(anchor(p, style)), sep);
    lemma_split_parts(rest, '/');
    lemma_names_are(split(rest, '/'), false, '/');
    if style == PathStyle::Windows {
        assert forall|i: int| 0 <= i < rest.len() implies #[trigger] rest[i] != '\\' by {}
        lemma_split_holds_no_other(rest, '/', '\\');
        lemma_names_are(split(rest, '/'), false, '\\');
    }
}

/// Parts hold nothing that the whole does not.
proof fn lemma_split_holds_no_other(s: Seq<char>, c: char, other: char)
    requires
        forall|i: int| 0 <= i < s.len() ==> #[trigger] s[i] != other,
    ensures
        forall|i: int| 0 <= i < split(s, c).len() ==> !(#[trigger] split(s, c)[i]).contains(other),
    decreases s.len(),
{
    let p = crate::text::position(s, c) as int;
    crate::text::lemma_position(s, c);
    if p < s.len() {
        let rest = s.skip(p + 1);
        assert forall|i: int| 0 <= i < rest.len() implies #[trigger] rest[i] != other by {
            assert(rest[i] == s[p + 1 + i]);
        }
        lemma_split_holds_no_other(rest, c, other);
        assert forall|i: int| 0 <= i < split(s, c).len() implies !(#[trigger] split(s, c)[i]).contains(
            other,
        ) by {
            if i > 0 {
                assert(split(s, c)[i] == split(rest, c)[i - 1]);
            } else if s.take(p).contains(other) {
                let k = choose|k: int| 0 <= k < p && s.take(p)[k] == other;
                assert(s[k] == other);
            }
        }
    }
}

/// What lies below a root starts as the root does.
proof fn lemma_leading_shared(root: Seq<char>, absolute: Seq<char>, style: PathStyle)
    requires
        is_anchored(root, style),
        components(root, style).is_prefix_of(components(absolute, style)),
        components(root, style).len() > 0,
    ensures
        leading(absolute, style) == leading(root, style),
{
    let r = components(root, style);
    let a = components(absolute, style);
    reveal_strlit("/");
    reveal_strlit(".");
    assert("/"@[0] == '/');
    assert("."@[0] == '.');
    lemma_anchor(absolute, style);
    assert(r =~= a.take(r.len() as int));
    assert(r[0] == a.take(r.len() as int)[0]);
    assert(r[0] == a[0]);
    if style == PathStyle::Unix {
        lemma_body_names(root, style);
        lemma_body_names(absolute, style);
        if leading(root, style).len() == 0 {
            assert(r[0] == body(root, style)[0]);
        }
        if leading(absolute, style).len() == 0 {
            assert(a[0] == body(absolute, style)[0]);
        }
        if "/"@ == r[0] {
            assert(r[0].contains('/'));
        }
        assert(leading(absolute, style) =~= leading(root, style));
    } else {
        assert(leading(root, style) == seq![prefix_text(root, style), "/"@]);
        assert(r[1] == "/"@);
        assert(r[1] == a.take(r.len() as int)[1]);
        assert(a[1] == "/"@);
        assert("/"@.contains('/'));
        if leading(absolute, style).len() < 2 {
            if is_extended(absolute, style) {
                // Without a root there is nothing behind what stands for a drive.
                lemma_unrooted_extended(absolute, style);
                assert(a.len() == 1);
            } else {
                lemma_body_names(absolute, style);
                let k = 1 - leading(absolute, style).len();
                assert(a[1] == body(absolute, style)[k]);
            }
        }
        assert(leading(absolute, style) =~= leading(root, style));
    }
}

proof fn lemma_unrooted_extended(p: Seq<char>, style: PathStyle)
    requires
        is_extended(p, style),
        !is_rooted(p, style),
    ensures
        body(p, style).len() == 0,
{
    let sep = Separation::Backslash;
    lemma_anchor(p, style);
    lemma_part_end(p, 4, sep);
    lemma_part_end(p, 8, sep);
    lemma_part_end(p, part_end(p, 8, sep) + 1, sep);
    assert(anchor(p, style) == p.len());
    assert(p.skip(p.len() as int) =~= Seq::<char>::empty());
    lemma_empty_parts(sep, true);
}

/// Texts are put together from the front as from the end.
proof fn lemma_joined_front(x: Seq<char>, rest: Seq<Seq<char>>, between: Seq<char>)
    requires
        rest.len() > 0,
    ensures
        joined_with(seq![x] + rest, between) == x + between + joined_with(rest, between),
    decreases rest.len(),
{
    let all = seq![x] + rest;
    assert(all.last() == rest.last());
    if rest.len() == 1 {
        let one = seq![x];
        assert(all.drop_last() =~= one);
        assert(joined_with(one, between) == x);
        assert(joined_with(rest, between) == rest[0]);
        assert(joined_with(all, between) == joined_with(all.drop_last(), between) + between + all.last());
    } else {
        assert(all.drop_last() =~= seq![x] + rest.drop_last());
        lemma_joined_front(x, rest.drop_last(), between);
        assert(joined_with(all, between) =~= x + between + joined_with(rest, between));
    }
}

/// On Unix the components of a path, put together with `/`, name it again.
proof fn lemma_components_name_the_path(p: Seq<char>)
    ensures
        components(joined_with(components(p, PathStyle::Unix), "/"@), PathStyle::Unix) == components(
            p,
            PathStyle::Unix,
        ),
{
    let style = PathStyle::Unix;
    let sep = Separation::Slash;
    let lead = leading(p, style);
    let rest = body(p, style);
    let all = components(p, style);
    let w = joined_with(all, "/"@);
    let none = Seq::<char>::empty();
    reveal_strlit("/");
    reveal_strlit(".");
    assert("/"@ =~= seq!['/']);
    assert("."@ =~= seq!['.']);
    lemma_body_names(p, style);
    lemma_parts_of_body(p);
    lemma_empty_parts(sep, false);
    lemma_parts_whole("."@, sep);
    lemma_names_one("."@, false);
    if lead.len() == 0 {
        assert(all =~= rest);
        lemma_join_anchored(none, rest, style);
        lemma_put_behind(none, rest, style);
        assert(put_behind(none, w, style) =~= w);
        lemma_join_components(none, rest, style);
        assert(none.skip(0) =~= none);
        assert(components(none, style) + rest =~= rest);
    } else {
        let x = lead[0];
        let inner = joined_with(rest, "/"@);
        assert(all =~= seq![x] + rest);
        if rest.len() > 0 {
            lemma_joined_front(x, rest, "/"@);
            lemma_rest(rest, style);
            assert(inner.skip(0) =~= inner);
            assert(w =~= x.push('/') + inner);
            assert(names(parts(inner, sep), false) == rest);
        } else {
            assert(all =~= seq![x]);
            assert(w == x);
        }
        if x == "/"@ {
            assert(anchor(w, style) == 1);
            if rest.len() > 0 {
                assert(w.skip(1) =~= none.push('/') + inner);
                lemma_parts_around(none, '/', inner, sep);
                lemma_names_concat(parts(none, sep), parts(inner, sep), false);
            } else {
                assert(w.skip(1) =~= none);
            }
            assert(body(w, style) =~= rest);
        } else {
            assert(x == "."@);
            assert(anchor(w, style) == 0);
            assert(w.skip(0) =~= w);
            if rest.len() > 0 {
                lemma_parts_around(x, '/', inner, sep);
                lemma_names_concat(parts(x, sep), parts(inner, sep), false);
            }
            assert(body(w, style) =~= rest);
        }
        assert(components(w, style) =~= all);
    }
}

/// On Unix what stands behind the root of a path can be a component of any.
proof fn lemma_parts_of_body(p: Seq<char>)
    ensures
        are_parts(body(p, PathStyle::Unix), PathStyle::Unix),
{
    let style = PathStyle::Unix;
    let ns = body(p, style);
    lemma_body_names(p, style);
    assert forall|i: int| 0 <= i < ns.len() implies is_part(#[trigger] ns[i], style) by {
        assert forall|j: int| 0 <= j < ns[i].len() implies !style.separates(#[trigger] ns[i][j]) by {
            if ns[i][j] == '/' {
                assert(ns[i].contains('/'));
            }
        }
    }
}

/// A path below a root is found again from there: the root joined with the
/// path as the project knows it names what the path names, component for
/// component. On Windows the root has a whole drive or share and a root, no
/// component below it looks like a drive, and below an extended-length root
/// each is a plain name.
pub proof fn a_wire_path_leads_back(root: Seq<char>, absolute: Seq<char>, style: PathStyle)
    requires
        wire_path(root, absolute, style) is Some,
        is_anchored(root, style),
        style == PathStyle::Windows ==> are_parts(
            components(absolute, style).skip(components(root, style).len() as int),
            style,
        ),
        is_extended(root, style) ==> are_plain(
            components(absolute, style).skip(components(root, style).len() as int),
            style,
        ),
    ensures
        components(join(root, wire_path(root, absolute, style)->0, style), style) == components(
            absolute,
            style,
        ),
{
    let r = components(root, style);
    let a = components(absolute, style);
    let below = a.skip(r.len() as int);
    if r.len() == 0 {
        lemma_anchor(root, style);
        assert(style == PathStyle::Unix);
        lemma_no_components(root);
        assert(below =~= a);
        lemma_components_name_the_path(absolute);
        let w = joined_with(a, "/"@);
        assert(join(root, w, style) =~= w);
    } else {
        lemma_leading_shared(root, absolute, style);
        if style == PathStyle::Unix {
            lemma_parts_of_body(absolute);
            assert forall|i: int| 0 <= i < below.len() implies is_part(#[trigger] below[i], style) by {
                let k = r.len() + i - leading(absolute, style).len();
                assert(below[i] == a[r.len() + i]);
                assert(below[i] == body(absolute, style)[k]);
            }
        }
        lemma_join_anchored(root, below, style);
        lemma_join_components(root, below, style);
        assert(r + below =~= a) by {
            assert(r =~= a.take(r.len() as int));
        }
    }
}

/// On Unix only the empty path has no components.
proof fn lemma_no_components(p: Seq<char>)
    requires
        components(p, PathStyle::Unix).len() == 0,
    ensures
        p.len() == 0,
{
    let style = PathStyle::Unix;
    let sep = Separation::Slash;
    if p.len() > 0 {
        // Its first part is some text, and either a name or a leading `.`.
        assert(anchor(p, style) == 0);
        assert(p.skip(0) =~= p);
        let e = part_end(p, 0, sep);
        lemma_part_end(p, 0, sep);
        let first = p.take(e);
        assert forall|i: int| 0 <= i < first.len() implies !sep.separates(#[trigger] first[i]) by {
            assert(first[i] == p[i]);
        }
        lemma_parts_whole(first, sep);
        lemma_names_one(first, false);
        if e < p.len() {
            let rest = p.skip(e + 1);
            assert(p =~= first.push(p[e]) + rest);
            lemma_parts_around(first, p[e], rest, sep);
            lemma_names_concat(parts(first, sep), parts(rest, sep), false);
        } else {
            assert(first =~= p);
        }
    }
}

// ---------------------------------------------------------------------------
// Names in one directory
// ---------------------------------------------------------------------------
/// A component that starts in `d` ends in it, and one that starts behind it is
/// the name behind it.
proof fn lemma_part_end_behind(d: Seq<char>, x: Seq<char>, from: int, sep: Separation)
    requires
        0 <= from <= d.len(),
        d.len() > 0,
        sep.separates(d.last()),
        forall|i: int| 0 <= i < x.len() ==> !sep.separates(#[trigger] x[i]),
    ensures
        from < d.len() ==> part_end(d + x, from, sep) == part_end(d, from, sep) < d.len(),
        from == d.len() ==> part_end(d + x, from, sep) == d.len() + x.len(),
    decreases d.len() + x.len() - from,
{
    let j = d + x;
    if from < d.len() {
        lemma_part_end(d, from, sep);
        if part_end(d, from, sep) >= d.len() {
            assert(!sep.separates(d[d.len() - 1]));
        }
        lemma_part_end_alike(d, j, from, sep);
    } else {
        lemma_part_end(j, from, sep);
        let e = part_end(j, from, sep);
        if e < j.len() {
            assert(j[e] == x[e - d.len()]);
        }
    }
}

/// Where the drive or share of a path ends does not depend on its last name,
/// unless that name is a part of it.
spec fn ends_before(d: Seq<char>, x: Seq<char>, y: Seq<char>, style: PathStyle) -> bool {
    ||| prefix_len(d + x, style) == d.len() + x.len() && prefix_len(d + y, style) == d.len() + y.len()
    ||| prefix_len(d + x, style) == prefix_len(d + y, style) < d.len()
}

proof fn lemma_sibling_prefix(d: Seq<char>, x: Seq<char>, y: Seq<char>, style: PathStyle)
    requires
        is_plain(x, style),
        is_plain(y, style),
        d.len() > 0,
        style.separates(d.last()),
        is_extended(d, style) ==> d.last() == '\\',
    ensures
        ends_before(d, x, y, style),
        is_extended(d + x, style) == is_extended(d, style),
        is_extended(d + y, style) == is_extended(d, style),
{
    let (p, q) = (d + x, d + y);
    if style == PathStyle::Windows {
        assert(!style.separates(x[0]) && !style.separates(y[0]));
        assert(forall|i: int| 0 <= i < d.len() ==> p[i] == d[i] && q[i] == d[i]);
        assert(forall|i: int| d.len() <= i < p.len() ==> #[trigger] p[i] == x[i - d.len()]);
        assert(forall|i: int| d.len() <= i < q.len() ==> #[trigger] q[i] == y[i - d.len()]);
        assert(forall|i: int| d.len() <= i < p.len() ==> !style.separates(#[trigger] p[i]));
        assert(forall|i: int| d.len() <= i < q.len() ==> !style.separates(#[trigger] q[i]));
        if is_extended(d, style) {
            let sep = Separation::Backslash;
            lemma_part_end_behind(d, x, 4, sep);
            lemma_part_end_behind(d, y, 4, sep);
            if has_extended_share(d) {
                lemma_part_end_behind(d, x, 8, sep);
                lemma_part_end_behind(d, y, 8, sep);
                let server = part_end(d, 8, sep);
                lemma_part_end(d, 8, sep);
                if d.len() > 8 {
                    lemma_part_end(d, server + 1, sep);
                    lemma_part_end_behind(d, x, server + 1, sep);
                    lemma_part_end_behind(d, y, server + 1, sep);
                } else {
                    lemma_part_end(p, p.len() as int + 1, sep);
                    lemma_part_end(q, q.len() as int + 1, sep);
                }
            } else {
                assert(!has_extended_share(p) && !has_extended_share(q));
                if d.len() > 6 {
                    assert(has_extended_drive(p) == has_extended_drive(d));
                    assert(has_extended_drive(q) == has_extended_drive(d));
                } else {
                    assert(!has_extended_drive(p)) by {
                        if has_extended_drive(p) && d.len() == 4 {
                            assert(p[4] == x[0] && p[5] == x[1]);
                            assert(has_drive(x));
                        }
                    }
                    assert(!has_extended_drive(q)) by {
                        if has_extended_drive(q) && d.len() == 4 {
                            assert(q[4] == y[0] && q[5] == y[1]);
                            assert(has_drive(y));
                        }
                    }
                }
            }
        } else {
            let sep = Separation::Either;
            if d.len() >= 2 {
                lemma_part_end_behind(d, x, 2, sep);
                lemma_part_end_behind(d, y, 2, sep);
                if d.len() >= 4 {
                    lemma_part_end_behind(d, x, 4, sep);
                    lemma_part_end_behind(d, y, 4, sep);
                }
                if d.len() > 2 {
                    let server = part_end(d, 2, sep);
                    lemma_part_end(d, 2, sep);
                    lemma_part_end_behind(d, x, server + 1, sep);
                    lemma_part_end_behind(d, y, server + 1, sep);
                } else {
                    lemma_part_end(p, p.len() as int + 1, sep);
                    lemma_part_end(q, q.len() as int + 1, sep);
                }
            }
        }
    }
}

proof fn lemma_parent_of_name(d: Seq<char>, x: Seq<char>, style: PathStyle)
    requires
        is_plain(x, style),
        anchor(d + x, style) <= d.len(),
        d.len() == anchor(d + x, style) || separation(d + x, style).separates(d.last()),
    ensures
        parent(d + x, style) == Some(
            bare(d, anchor(d + x, style), separation(d + x, style)),
        ),
{
    let j = d + x;
    lemma_anchor(j, style);
    assert(j.skip(j.len() - x.len()) =~= x);
    lemma_file_name_at_end(j, x, style);
    reveal_strlit(".");
    assert("."@ =~= seq!['.']);
    if is_drive_itself(j, style) {
        assert(x.len() == 1);
        assert(x =~= seq!['.']);
    }
    assert(j.take(d.len() as int) =~= d);
}

/// What stands before a name that is looked up from `dir`.
spec fn before_name(dir: Seq<char>, style: PathStyle) -> Seq<char> {
    if is_extended(dir, style) {
        if body(dir, style).len() > 0 {
            dir.take(prefix_len(dir, style)).push('\\') + joined_with(body(dir, style), "\\"@) + "\\"@
        } else {
            dir.take(prefix_len(dir, style)).push('\\')
        }
    } else {
        put_behind(dir, Seq::<char>::empty(), style)
    }
}

proof fn lemma_before_name(dir: Seq<char>, name: Seq<char>, style: PathStyle)
    requires
        is_plain(name, style),
    ensures
        join(dir, name, style) == before_name(dir, style) + name,
{
    let ns = seq![name];
    assert(joined_with(ns, "/"@) == name);
    assert(is_plain(ns[0], style));
    lemma_plain_are_parts(ns, style);
    lemma_rest(ns, style);
    let j = join(dir, name, style);
    if is_extended(dir, style) {
        let at = body(dir, style);
        lemma_resolved_names(at, ns, style);
        let all = at + ns;
        assert(all.drop_last() =~= at);
        assert(all.last() == name);
        assert(j =~= before_name(dir, style) + name);
    } else {
        lemma_put_behind(dir, ns, style);
        assert(j =~= before_name(dir, style) + name);
    }
}

/// What lies in one directory has one parent, and different names are different
/// paths.
pub proof fn names_in_one_directory_have_one_parent(
    dir: Seq<char>,
    one: Seq<char>,
    other: Seq<char>,
    style: PathStyle,
)
    requires
        is_plain(one, style),
        is_plain(other, style),
    ensures
        parent(join(dir, one, style), style) == parent(join(dir, other, style), style),
        one != other ==> join(dir, one, style) != join(dir, other, style),
{
    let d = before_name(dir, style);
    lemma_before_name(dir, one, style);
    lemma_before_name(dir, other, style);
    let (p, q) = (d + one, d + other);
    if p == q {
        assert(p.skip(d.len() as int) =~= one);
        assert(q.skip(d.len() as int) =~= other);
    }
    lemma_before_ends(dir, style);
    lemma_anchor(p, style);
    lemma_anchor(q, style);
    assert(!style.separates(one[0]) && !style.separates(other[0]));
    if d.len() > 0 && style.separates(d.last()) {
        lemma_sibling_prefix(d, one, other, style);
        let n = prefix_len(p, style);
        if n == d.len() + one.len() {
            lemma_anchor(p, style);
            lemma_no_parent(p, style);
            lemma_no_parent(q, style);
        } else {
            assert(p[n] == d[n] && q[n] == d[n]);
            assert(anchor(p, style) == anchor(q, style));
            assert(separation(p, style) == separation(q, style));
            lemma_parent_of_name(d, one, style);
            lemma_parent_of_name(d, other, style);
        }
    } else if d.len() == 0 {
        assert(p =~= one);
        assert(q =~= other);
        let (a, b) = (seq![one], seq![other]);
        assert(is_plain(a[0], style) && is_plain(b[0], style));
        lemma_plain_are_parts(a, style);
        lemma_plain_are_parts(b, style);
        lemma_rest(a, style);
        lemma_rest(b, style);
        assert(joined_with(a, "/"@) == one && joined_with(b, "/"@) == other);
        lemma_parent_of_name(d, one, style);
        lemma_parent_of_name(d, other, style);
    } else {
        assert(style == PathStyle::Windows && has_drive(d) && d.len() == 2);
        assert(p[0] == d[0] && p[1] == d[1] && p[2] == one[0]);
        assert(q[0] == d[0] && q[1] == d[1] && q[2] == other[0]);
        lemma_parent_of_name(d, one, style);
        lemma_parent_of_name(d, other, style);
    }
}

proof fn lemma_no_parent(p: Seq<char>, style: PathStyle)
    requires
        prefix_len(p, style) == p.len(),
    ensures
        parent(p, style) is None,
{
    lemma_anchor(p, style);
    lemma_bare(p, anchor(p, style), separation(p, style));
}

} // verus!
