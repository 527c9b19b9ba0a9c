//! What holds of the paths that a walk reports: no two of them are the same
//! relative path, and each absolute path is its relative path looked up from
//! the root.

use vstd::prelude::*;
use vstd::string::*;

use crate::candidates::{
    Directory, Entry, Found, Limits, Progress, Spot, Tree, a_walk_finds_the_candidates, at_start, child_rel,
    child_spot, effort, has_entry, is_candidate, is_entered, is_listed, is_marked, lemma_effort, listing_in,
    lists, reads, reads_all, rel_paths, reported, run,
};
use crate::path::{PathStyle, components, join};
use crate::path_laws::{are_plain, is_anchored, is_plain, what_is_looked_up_lies_below};
use crate::text::joined_with;

verus! {

/// Whether a listing is what a directory can hold: its directories have plain
/// names, and no two of them the same.
pub open spec fn is_listing(entries: Seq<Entry>, style: PathStyle) -> bool {
    &&& forall|i: int|
        0 <= i < entries.len() && (#[trigger] entries[i]) is Dir ==> is_plain(entries[i]->name@, style)
    &&& forall|i: int, j: int|
        0 <= i < j < entries.len() && (#[trigger] entries[i]) is Dir && (#[trigger] entries[j]) is Dir
            ==> entries[i]->name@ != entries[j]->name@
}

/// Whether every listing of a tree is what a directory can hold.
pub open spec fn is_tree(tree: Tree) -> bool {
    forall|i: int|
        0 <= i < tree.dirs@.len() ==> is_listing((#[trigger] tree.dirs@[i]).entries@, tree.style)
}

pub proof fn lemma_listing(dirs: Seq<Directory>, path: Seq<char>, style: PathStyle)
    requires
        forall|i: int| 0 <= i < dirs.len() ==> is_listing((#[trigger] dirs[i]).entries@, style),
        listing_in(dirs, path) is Some,
    ensures
        is_listing(listing_in(dirs, path)->0, style),
    decreases dirs.len(),
{
    if dirs[0].path@ == path {
        assert(is_listing(dirs[0].entries@, style));
    } else {
        let rest = dirs.drop_first();
        assert forall|i: int| 0 <= i < rest.len() implies is_listing((#[trigger] rest[i]).entries@, style) by {
            assert(rest[i] == dirs[i + 1]);
        }
        lemma_listing(rest, path, style);
    }
}

// ---------------------------------------------------------------------------
// Relative paths
// ---------------------------------------------------------------------------
/// A relative path tells which directory it is in, and under which name.
proof fn lemma_child_rel(a: Seq<char>, m: Seq<char>, b: Seq<char>, n: Seq<char>)
    requires
        child_rel(a, m) == child_rel(b, n),
        m.len() > 0,
        n.len() > 0,
        !m.contains('/'),
        !n.contains('/'),
    ensures
        a == b,
        m == n,
        child_rel(a, m).len() > 0,
{
    reveal_strlit("/");
    assert("/"@ =~= seq!['/']);
    let c = child_rel(a, m);
    if a.len() > 0 {
        assert(c == a + "/"@ + m);
        assert(c[a.len() as int] == '/');
        assert(c.skip(a.len() as int + 1) =~= m);
        assert(c.take(a.len() as int) =~= a);
    }
    if b.len() > 0 {
        assert(c == b + "/"@ + n);
        assert(c[b.len() as int] == '/');
        assert(c.skip(b.len() as int + 1) =~= n);
        assert(c.take(b.len() as int) =~= b);
    }
    if a.len() == 0 && b.len() > 0 {
        assert(m[b.len() as int] == '/');
        assert(m.contains('/'));
    }
    if b.len() == 0 && a.len() > 0 {
        assert(n[a.len() as int] == '/');
        assert(n.contains('/'));
    }
    if a.len() > 0 && b.len() > 0 && a.len() < b.len() {
        assert(c[b.len() as int] == m[b.len() - a.len() - 1]);
        assert(m.contains('/'));
    }
    if a.len() > 0 && b.len() > 0 && b.len() < a.len() {
        assert(c[a.len() as int] == n[a.len() - b.len() - 1]);
        assert(n.contains('/'));
    }
    if a.len() == 0 && b.len() == 0 {
        assert(a =~= b);
    }
}

proof fn lemma_plain_has_no_slash(name: Seq<char>, style: PathStyle)
    requires
        is_plain(name, style),
    ensures
        !name.contains('/'),
        name.len() > 0,
{
    if name.contains('/') {
        let k = choose|k: int| 0 <= k < name.len() && name[k] == '/';
        assert(!style.separates(name[k]));
    }
}

/// Whether no two of these are the same.
spec fn are_apart(rels: Seq<Seq<char>>) -> bool {
    forall|i: int, j: int| 0 <= i < j < rels.len() ==> #[trigger] rels[i] != #[trigger] rels[j]
}

/// The relative paths of places.
spec fn spot_rels(spots: Seq<Spot>) -> Seq<Seq<char>> {
    Seq::new(spots.len(), |i: int| spots[i].rel)
}

/// Whether `rel` is the path of a directory of `at` that is entry `i`.
spec fn is_child(rel: Seq<char>, at: Seq<char>, entries: Seq<Entry>, i: int) -> bool {
    0 <= i < entries.len() && entries[i] is Dir && rel == child_rel(at, entries[i]->name@)
}

/// Whether `rel` is the path of a directory of `at` that is one of the first
/// `n` entries.
spec fn is_one_of(rel: Seq<char>, at: Seq<char>, entries: Seq<Entry>, n: int) -> bool {
    exists|i: int| i < n && #[trigger] is_child(rel, at, entries, i)
}

/// Whether `rels` are paths of different directories of `at`, each one of the
/// first `n` entries.
spec fn are_children(rels: Seq<Seq<char>>, at: Seq<char>, entries: Seq<Entry>, n: int) -> bool {
    &&& are_apart(rels)
    &&& forall|k: int| 0 <= k < rels.len() ==> is_one_of(#[trigger] rels[k], at, entries, n)
}

/// What one more entry adds is a directory of its own.
proof fn lemma_child_added(
    rels: Seq<Seq<char>>,
    at: Seq<char>,
    entries: Seq<Entry>,
    n: int,
    style: PathStyle,
)
    requires
        is_listing(entries, style),
        are_children(rels, at, entries, n),
        0 <= n < entries.len(),
        entries[n] is Dir,
    ensures
        are_children(rels.push(child_rel(at, entries[n]->name@)), at, entries, n + 1),
{
    let rel = child_rel(at, entries[n]->name@);
    let all = rels.push(rel);
    lemma_plain_has_no_slash(entries[n]->name@, style);
    assert forall|k: int| 0 <= k < rels.len() implies rels[k] != rel by {
        assert(is_one_of(rels[k], at, entries, n));
        let i = choose|i: int| i < n && #[trigger] is_child(rels[k], at, entries, i);
        lemma_plain_has_no_slash(entries[i]->name@, style);
        if rels[k] == rel {
            lemma_child_rel(at, entries[i]->name@, at, entries[n]->name@);
        }
    }
    assert forall|k: int| 0 <= k < all.len() implies is_one_of(#[trigger] all[k], at, entries, n + 1) by {
        if k < rels.len() {
            assert(is_one_of(rels[k], at, entries, n));
            let i = choose|i: int| i < n && #[trigger] is_child(rels[k], at, entries, i);
            assert(is_child(all[k], at, entries, i));
        } else {
            assert(is_child(all[k], at, entries, n));
        }
    }
    assert forall|i: int, j: int| 0 <= i < j < all.len() implies #[trigger] all[i] != #[trigger] all[j] by {
        if j < rels.len() {
            assert(rels[i] != rels[j]);
        } else {
            assert(all[i] == rels[i]);
        }
    }
}

/// Whether `r` is `s` with directories of `at` added, to what was found and to
/// what is to be listed.
spec fn adds_children(s: Progress, r: Progress, at: Seq<char>, entries: Seq<Entry>, n: int) -> bool {
    &&& s.found.len() <= r.found.len()
    &&& s.queue.len() <= r.queue.len()
    &&& r.found.take(s.found.len() as int) == s.found
    &&& r.queue.take(s.queue.len() as int) == s.queue
    &&& are_children(rel_paths(r.found.skip(s.found.len() as int)), at, entries, n)
    &&& are_children(spot_rels(r.queue.skip(s.queue.len() as int)), at, entries, n)
}

proof fn lemma_more_entries(rels: Seq<Seq<char>>, at: Seq<char>, entries: Seq<Entry>, n: int)
    requires
        are_children(rels, at, entries, n),
    ensures
        are_children(rels, at, entries, n + 1),
{
    assert forall|k: int| 0 <= k < rels.len() implies is_one_of(#[trigger] rels[k], at, entries, n + 1) by {
        let i = choose|i: int| i < n && #[trigger] is_child(rels[k], at, entries, i);
        assert(is_child(rels[k], at, entries, i));
    }
}

/// Reading a listing adds directories of the place it is of, each once.
proof fn lemma_reads_children(
    s: Progress,
    limits: Limits,
    at: Spot,
    entries: Seq<Entry>,
    n: int,
    style: PathStyle,
)
    requires
        is_listing(entries, style),
        0 <= n <= entries.len(),
    ensures
        adds_children(s, reads_all(s, limits, at, entries.take(n)), at.rel, entries, n),
    decreases n,
{
    let r = reads_all(s, limits, at, entries.take(n));
    let f0 = s.found.len() as int;
    let q0 = s.queue.len() as int;
    if n == 0 {
        assert(entries.take(0) =~= seq![]);
        assert(r.found.take(f0) =~= s.found);
        assert(r.queue.take(q0) =~= s.queue);
        assert(rel_paths(r.found.skip(f0)) =~= seq![]);
        assert(spot_rels(r.queue.skip(q0)) =~= seq![]);
    } else {
        lemma_reads_children(s, limits, at, entries, n - 1, style);
        let b = reads_all(s, limits, at, entries.take(n - 1));
        let entry = entries[n - 1];
        assert(entries.take(n).drop_last() =~= entries.take(n - 1));
        assert(entries.take(n).last() == entry);
        assert(r == reads(b, limits, at, entry));
        let bf = rel_paths(b.found.skip(f0));
        let bq = spot_rels(b.queue.skip(q0));
        lemma_more_entries(bf, at.rel, entries, n - 1);
        lemma_more_entries(bq, at.rel, entries, n - 1);
        if entry is Dir {
            lemma_child_added(bf, at.rel, entries, n - 1, style);
            lemma_child_added(bq, at.rel, entries, n - 1, style);
            let rel = child_rel(at.rel, entry->name@);
            if r.found.len() > b.found.len() {
                assert(rel_paths(r.found.skip(f0)) =~= bf.push(rel));
                assert(r.found.take(f0) =~= b.found.take(f0));
            } else {
                assert(r.found == b.found);
            }
            if r.queue.len() > b.queue.len() {
                assert(spot_rels(r.queue.skip(q0)) =~= bq.push(rel));
                assert(r.queue.take(q0) =~= b.queue.take(q0));
            } else {
                assert(r.queue == b.queue);
            }
        } else {
            assert(r.found == b.found && r.queue == b.queue);
        }
    }
}

/// Whether `rel` is the path of a plain name in a place that is done.
spec fn is_below_done(rel: Seq<char>, done: Seq<Spot>, k: int, name: Seq<char>, style: PathStyle) -> bool {
    0 <= k < done.len() && is_plain(name, style) && rel == child_rel(done[k].rel, name)
}

spec fn comes_from(rel: Seq<char>, done: Seq<Spot>, style: PathStyle) -> bool {
    exists|k: int, name: Seq<char>| #[trigger] is_below_done(rel, done, k, name, style)
}

/// Whether no place is listed twice and nothing is found twice, because
/// everything was come upon in a place that is done.
spec fn is_apart(s: Progress, done: Seq<Spot>, style: PathStyle) -> bool {
    let places = spot_rels(done + s.queue);
    &&& are_apart(places)
    &&& are_apart(rel_paths(s.found))
    &&& forall|i: int|
        0 <= i < places.len() ==> (#[trigger] places[i]).len() == 0 || comes_from(places[i], done, style)
    &&& forall|i: int|
        0 <= i < s.found.len() ==> comes_from((#[trigger] rel_paths(s.found)[i]), done, style)
}

/// A directory of a place that was not done before is none that was come upon
/// before.
proof fn lemma_new_child(
    rel: Seq<char>,
    done: Seq<Spot>,
    at: Seq<char>,
    entries: Seq<Entry>,
    i: int,
    old: Seq<char>,
    style: PathStyle,
)
    requires
        is_listing(entries, style),
        is_child(rel, at, entries, i),
        old.len() == 0 || comes_from(old, done, style),
        forall|k: int| 0 <= k < done.len() ==> (#[trigger] done[k]).rel != at,
    ensures
        rel != old,
        rel.len() > 0,
{
    lemma_plain_has_no_slash(entries[i]->name@, style);
    lemma_child_rel(at, entries[i]->name@, at, entries[i]->name@);
    if rel == old {
        let (k, name) = choose|k: int, name: Seq<char>| #[trigger] is_below_done(old, done, k, name, style);
        lemma_plain_has_no_slash(name, style);
        lemma_child_rel(at, entries[i]->name@, done[k].rel, name);
        assert(done[k].rel == at);
    }
}

proof fn lemma_comes_from_more(rel: Seq<char>, done: Seq<Spot>, at: Spot, style: PathStyle)
    requires
        comes_from(rel, done, style),
    ensures
        comes_from(rel, done.push(at), style),
{
    let (k, name) = choose|k: int, name: Seq<char>| #[trigger] is_below_done(rel, done, k, name, style);
    assert(is_below_done(rel, done.push(at), k, name, style));
}

proof fn lemma_child_comes_from(
    rel: Seq<char>,
    done: Seq<Spot>,
    at: Spot,
    entries: Seq<Entry>,
    i: int,
    style: PathStyle,
)
    requires
        is_listing(entries, style),
        is_child(rel, at.rel, entries, i),
    ensures
        comes_from(rel, done.push(at), style),
{
    assert(done.push(at)[done.len() as int] == at);
    assert(is_plain(entries[i]->name@, style));
    assert(is_below_done(rel, done.push(at), done.len() as int, entries[i]->name@, style));
}

/// Paths that are apart stay so with new directories behind them.
proof fn lemma_apart_with(
    olds: Seq<Seq<char>>,
    news: Seq<Seq<char>>,
    done: Seq<Spot>,
    at: Spot,
    entries: Seq<Entry>,
    style: PathStyle,
)
    requires
        is_listing(entries, style),
        are_apart(olds),
        are_children(news, at.rel, entries, entries.len() as int),
        forall|i: int|
            0 <= i < olds.len() ==> (#[trigger] olds[i]).len() == 0 || comes_from(olds[i], done, style),
        forall|k: int| 0 <= k < done.len() ==> (#[trigger] done[k]).rel != at.rel,
    ensures
        are_apart(olds + news),
        forall|i: int|
            0 <= i < (olds + news).len() ==> (#[trigger] (olds + news)[i]).len() == 0 || comes_from(
                (olds + news)[i],
                done.push(at),
                style,
            ),
        forall|i: int|
            0 <= i < news.len() ==> comes_from((#[trigger] news[i]), done.push(at), style),
{
    let all = olds + news;
    let n = entries.len() as int;
    assert forall|i: int, j: int| 0 <= i < j < all.len() implies #[trigger] all[i] != #[trigger] all[j] by {
        if j < olds.len() {
            assert(olds[i] != olds[j]);
        } else {
            let b = j - olds.len();
            assert(all[j] == news[b]);
            if i >= olds.len() {
                assert(all[i] == news[i - olds.len()]);
            } else {
                assert(is_one_of(news[b], at.rel, entries, n));
                let e = choose|e: int| e < n && #[trigger] is_child(news[b], at.rel, entries, e);
                lemma_new_child(news[b], done, at.rel, entries, e, olds[i], style);
            }
        }
    }
    assert forall|i: int| 0 <= i < news.len() implies comes_from((#[trigger] news[i]), done.push(at), style) by {
        assert(is_one_of(news[i], at.rel, entries, n));
        let e = choose|e: int| e < n && #[trigger] is_child(news[i], at.rel, entries, e);
        lemma_child_comes_from(news[i], done, at, entries, e, style);
    }
    assert forall|i: int| 0 <= i < all.len() implies (#[trigger] all[i]).len() == 0 || comes_from(
        all[i],
        done.push(at),
        style,
    ) by {
        if i < olds.len() {
            assert(all[i] == olds[i]);
            if olds[i].len() > 0 {
                lemma_comes_from_more(olds[i], done, at, style);
            }
        } else {
            assert(all[i] == news[i - olds.len()]);
        }
    }
}

proof fn lemma_lists_apart(
    s: Progress,
    done: Seq<Spot>,
    limits: Limits,
    entries: Option<Seq<Entry>>,
    style: PathStyle,
)
    requires
        is_apart(s, done, style),
        s.queue.len() > 0,
        entries is Some ==> is_listing(entries->0, style),
    ensures
        is_apart(lists(s, limits, entries), done.push(s.queue[0]), style),
{
    let at = s.queue[0];
    let next = lists(s, limits, entries);
    let rest = Progress { queue: s.queue.drop_first(), ..s };
    let listed: Seq<Entry> = match entries {
        Some(e) => e,
        None => seq![],
    };
    assert(listed.take(listed.len() as int) =~= listed);
    if entries is None {
        assert(next == reads_all(rest, limits, at, listed));
    }
    lemma_reads_children(rest, limits, at, listed, listed.len() as int, style);
    let places = spot_rels(done + s.queue);
    assert forall|k: int| 0 <= k < done.len() implies (#[trigger] done[k]).rel != at.rel by {
        assert(places[k] == done[k].rel);
        assert(places[done.len() as int] == at.rel);
    }
    let new_spots = next.queue.skip(rest.queue.len() as int);
    let new_found = next.found.skip(s.found.len() as int);
    assert(done.push(at) + next.queue =~= (done + s.queue) + new_spots) by {
        assert(next.queue =~= next.queue.take(rest.queue.len() as int) + new_spots);
    }
    assert(spot_rels(done.push(at) + next.queue) =~= places + spot_rels(new_spots));
    lemma_apart_with(places, spot_rels(new_spots), done, at, listed, style);
    let olds = rel_paths(s.found);
    assert(rel_paths(next.found) =~= olds + rel_paths(new_found)) by {
        assert(next.found =~= next.found.take(s.found.len() as int) + new_found);
    }
    lemma_apart_with(olds, rel_paths(new_found), done, at, listed, style);
    assert forall|i: int| 0 <= i < next.found.len() implies comes_from(
        (#[trigger] rel_paths(next.found)[i]),
        done.push(at),
        style,
    ) by {
        if i < s.found.len() {
            assert(rel_paths(next.found)[i] == olds[i]);
            lemma_comes_from_more(olds[i], done, at, style);
        } else {
            assert(rel_paths(next.found)[i] == rel_paths(new_found)[i - s.found.len()]);
        }
    }
}

proof fn lemma_run_apart(tree: Tree, limits: Limits, s: Progress, done: Seq<Spot>)
    requires
        is_tree(tree),
        is_apart(s, done, tree.style),
        s.read <= limits.max_entries,
    ensures
        are_apart(rel_paths(run(tree, limits, s).found)),
    decreases effort(s, limits),
{
    if !s.truncated && s.queue.len() > 0 {
        let entries = tree.listing(s.queue[0].abs);
        if entries is Some {
            lemma_listing(tree.dirs@, s.queue[0].abs, tree.style);
        }
        lemma_lists_apart(s, done, limits, entries, tree.style);
        lemma_effort(limits, s, entries);
        lemma_run_apart(tree, limits, lists(s, limits, entries), done.push(s.queue[0]));
    }
}

/// A walk reports no relative path twice, where no directory lists a name
/// twice.
pub proof fn candidates_have_different_paths(tree: Tree, limits: Limits)
    requires
        is_tree(tree),
    ensures
        rel_paths(run(tree, limits, at_start(tree.root@, limits, tree.style)).found).no_duplicates(),
{
    let start = at_start(tree.root@, limits, tree.style);
    let done = Seq::<Spot>::empty();
    let places = spot_rels(done + start.queue);
    assert forall|i: int| 0 <= i < places.len() implies (#[trigger] places[i]).len() == 0 by {
        assert(places[i] == start.queue[i].rel);
    }
    lemma_run_apart(tree, limits, start, done);
    let rels = rel_paths(run(tree, limits, start).found);
    assert forall|i: int, j: int| 0 <= i < rels.len() && 0 <= j < rels.len() && i != j implies rels[i]
        != rels[j] by {
        if i < j {
            assert(rels[i] != rels[j]);
        } else {
            assert(rels[j] != rels[i]);
        }
    }
}

// ---------------------------------------------------------------------------
// Absolute paths
// ---------------------------------------------------------------------------
/// Whether a directory lies below the root by these names: its relative path
/// is made of them, and its absolute path has them behind the root's
/// components.
spec fn lies_by(root: Seq<char>, rel: Seq<char>, abs: Seq<char>, ns: Seq<Seq<char>>, style: PathStyle) -> bool {
    &&& are_plain(ns, style)
    &&& rel == joined_with(ns, "/"@)
    &&& components(abs, style) == components(root, style) + ns
    &&& is_anchored(abs, style)
}

proof fn lemma_lies_by(
    root: Seq<char>,
    rel: Seq<char>,
    abs: Seq<char>,
    ns: Seq<Seq<char>>,
    name: Seq<char>,
    style: PathStyle,
)
    requires
        lies_by(root, rel, abs, ns, style),
        is_plain(name, style),
    ensures
        lies_by(root, child_rel(rel, name), join(abs, name, style), ns.push(name), style),
{
    let all = ns.push(name);
    let one = seq![name];
    assert(joined_with(one, "/"@) == name);
    assert forall|i: int| 0 <= i < one.len() implies is_plain(#[trigger] one[i], style) by {}
    what_is_looked_up_lies_below(abs, one, style);
    assert forall|i: int| 0 <= i < all.len() implies is_plain(#[trigger] all[i], style) by {
        if i < ns.len() {
            assert(all[i] == ns[i]);
        }
    }
    assert(components(root, style) + ns + one =~= components(root, style) + all);
    assert(all.drop_last() =~= ns);
    assert(child_rel(rel, name) == joined_with(all, "/"@)) by {
        if ns.len() == 0 {
            assert(rel.len() == 0);
        } else {
            lemma_joined_is_some(ns, style);
        }
    }
}

proof fn lemma_joined_is_some(ns: Seq<Seq<char>>, style: PathStyle)
    requires
        ns.len() > 0,
        are_plain(ns, style),
    ensures
        joined_with(ns, "/"@).len() > 0,
{
    assert(is_plain(ns[ns.len() - 1], style));
    assert(ns.last() == ns[ns.len() - 1]);
}

proof fn lemma_listed_lies(tree: Tree, limits: Limits, at: Spot, steps: nat) -> (ns: Seq<Seq<char>>)
    requires
        is_tree(tree),
        is_anchored(tree.root@, tree.style),
        is_listed(tree, limits, at, steps),
    ensures
        lies_by(tree.root@, at.rel, at.abs, ns, tree.style),
        at.style == tree.style,
    decreases steps,
{
    if steps == 0 {
        let ns = Seq::<Seq<char>>::empty();
        assert(components(tree.root@, tree.style) + ns =~= components(tree.root@, tree.style));
        assert(at.rel =~= joined_with(ns, "/"@));
        ns
    } else {
        let (from, i) = choose|from: Spot, i: int|
            is_listed(tree, limits, from, (steps - 1) as nat) && has_entry(tree, from, i)
                && #[trigger] is_entered(limits, from, tree.listing(from.abs)->0[i]) && at
                == child_spot(from, tree.listing(from.abs)->0[i]->name@);
        let before = lemma_listed_lies(tree, limits, from, (steps - 1) as nat);
        let entries = tree.listing(from.abs)->0;
        lemma_listing(tree.dirs@, from.abs, tree.style);
        let name = entries[i]->name@;
        assert(entries[i] is Dir);
        lemma_lies_by(tree.root@, from.rel, from.abs, before, name, tree.style);
        before.push(name)
    }
}

/// Every candidate's absolute path names what its relative path names from the
/// root, component for component. The names in the directories are plain, and
/// on Windows the root has a whole drive or share and a root.
pub proof fn a_candidate_is_found_from_the_root(tree: Tree, limits: Limits, f: Found)
    requires
        is_tree(tree),
        is_anchored(tree.root@, tree.style),
        run(tree, limits, at_start(tree.root@, limits, tree.style)).found.contains(f),
    ensures
        components(f.abs, tree.style) == components(join(tree.root@, f.rel, tree.style), tree.style),
{
    a_walk_finds_the_candidates(tree, limits);
    assert(is_candidate(tree, limits, f));
    let (at, steps, i) = choose|at: Spot, steps: nat, i: int|
        #[trigger] is_listed(tree, limits, at, steps) && has_entry(tree, at, i) && #[trigger] is_marked(
            tree.listing(at.abs)->0[i],
        ) && f == reported(at, tree.listing(at.abs)->0[i]);
    let ns = lemma_listed_lies(tree, limits, at, steps);
    let entries = tree.listing(at.abs)->0;
    lemma_listing(tree.dirs@, at.abs, tree.style);
    let name = entries[i]->name@;
    assert(entries[i] is Dir);
    lemma_lies_by(tree.root@, at.rel, at.abs, ns, name, tree.style);
    what_is_looked_up_lies_below(tree.root@, ns.push(name), tree.style);
}

} // verus!
