//! What holds of where a file goes: which language indexes it, which manifest
//! can keep it out, and what is told of a file that nobody claims.

use vstd::prelude::*;

use crate::manifest::{
    DiscoveredPlugins, Fault, ManifestError, PluginManifest, RawPlugin, Scan, claims, conflicting, excluded,
    fault_of, first_claim, first_refusal, glob_match, holds_manifest, is_compilable, is_parsable, languages, lookup,
    open_behind, reads_as, roots, routed_extension, scan, winners,
};
use crate::path::{PathStyle, file_name, join, parent};
use crate::registry::{Way, hit_languages, source_way, watches};
use crate::spelling::{CommandError, has_separator};
use crate::text::{joined_with, lemma_split_joined, split, views};

verus! {

// ---------------------------------------------------------------------------
// Which manifest counts
// ---------------------------------------------------------------------------
/// A file is kept out by a directory on its way from the project root, whatever
/// the depth, and never by its own name.
pub proof fn a_file_is_kept_out_by_a_directory_on_its_way(
    on_the_way: Seq<Seq<char>>,
    name: Seq<char>,
    dirs: Seq<Seq<char>>,
)
    requires
        !name.contains('/'),
        forall|i: int| 0 <= i < on_the_way.len() ==> !(#[trigger] on_the_way[i]).contains('/'),
    ensures
        excluded(joined_with(on_the_way.push(name), seq!['/']), dirs) <==> exists|i: int|
            0 <= i < on_the_way.len() && dirs.contains(#[trigger] on_the_way[i]),
{
    let parts = on_the_way.push(name);
    let file = joined_with(parts, seq!['/']);
    lemma_split_joined(parts, seq!['/'], '/');
    assert(split(file, '/') == parts);
    if excluded(file, dirs) {
        let i = choose|i: int|
            0 <= i < split(file, '/').len() - 1 && dirs.contains(#[trigger] split(file, '/')[i]);
        assert(on_the_way[i] == parts[i]);
    }
    if exists|i: int| 0 <= i < on_the_way.len() && dirs.contains(#[trigger] on_the_way[i]) {
        let i = choose|i: int| 0 <= i < on_the_way.len() && dirs.contains(#[trigger] on_the_way[i]);
        assert(split(file, '/')[i] == on_the_way[i]);
    }
}

/// A file that a language claims is indexed by it unless that language's own
/// manifest keeps the file out.
pub proof fn only_its_own_manifest_keeps_a_file_out(d: DiscoveredPlugins, i: int, file: Seq<char>)
    requires
        languages(d.manifests@).no_duplicates(),
        0 <= i < d.manifests@.len(),
        d.claimant(file) == Some(d.manifests@[i].language@),
    ensures
        d.indexer(file) is None <==> excluded(file, views(d.manifests@[i].workspace.exclude_dirs@)),
        d.indexer(file) is Some ==> d.indexer(file) == Some(d.manifests@[i].language@),
{
    let ms = d.manifests@;
    let language = ms[i].language@;
    assert forall|j: int| 0 <= j < ms.len() && j != i implies (#[trigger] ms[j]).language@ != language by {
        assert(languages(ms)[j] == ms[j].language@);
        assert(languages(ms)[i] == language);
    }
    if d.keeps_out(language, file) {
        let k = choose|k: int|
            0 <= k < ms.len() && (#[trigger] ms[k]).language@ == language && (forall|j: int|
                0 <= j < k ==> (#[trigger] ms[j]).language@ != language) && excluded(
                file,
                views(ms[k].workspace.exclude_dirs@),
            );
        assert(k == i);
    }
}

/// What the other languages' manifests keep out changes nothing for a file:
/// two sets of plugins that route alike, and agree on what the file's own
/// language keeps out, index it alike.
pub proof fn other_manifests_keep_nothing_out(
    d: DiscoveredPlugins,
    e: DiscoveredPlugins,
    i: int,
    file: Seq<char>,
)
    requires
        languages(d.manifests@).no_duplicates(),
        languages(e.manifests@) == languages(d.manifests@),
        e.routing == d.routing,
        e.style == d.style,
        0 <= i < d.manifests@.len(),
        d.claimant(file) == Some(d.manifests@[i].language@),
        views(e.manifests@[i].workspace.exclude_dirs@) == views(d.manifests@[i].workspace.exclude_dirs@),
    ensures
        e.indexer(file) == d.indexer(file),
{
    assert(languages(d.manifests@)[i] == d.manifests@[i].language@);
    assert(languages(e.manifests@).len() == e.manifests@.len());
    assert(languages(d.manifests@).len() == d.manifests@.len());
    assert(languages(e.manifests@)[i] == e.manifests@[i].language@);
    only_its_own_manifest_keeps_a_file_out(d, i, file);
    only_its_own_manifest_keeps_a_file_out(e, i, file);
}

/// A file that no language claims is indexed by none.
pub proof fn an_unclaimed_file_is_not_indexed(d: DiscoveredPlugins, file: Seq<char>)
    ensures
        d.claimant(file) is None ==> d.indexer(file) is None,
        d.indexer(file) is Some ==> d.claimant(file) == d.indexer(file),
        routed_extension(file, d.style) is None ==> d.claimant(file) is None,
{
}

/// Two files with one extension, spelt alike once it is in lower case, are
/// claimed by the same language.
pub proof fn one_extension_has_one_claimant(d: DiscoveredPlugins, file: Seq<char>, other: Seq<char>)
    requires
        routed_extension(file, d.style) == routed_extension(other, d.style),
    ensures
        d.claimant(file) == d.claimant(other),
{
}

/// What is looked up is the first entry under that key.
pub proof fn the_first_entry_counts(pairs: Seq<(String, String)>, key: Seq<char>)
    ensures
        lookup(pairs, key) is None <==> forall|i: int| 0 <= i < pairs.len() ==> (#[trigger] pairs[i]).0@ != key,
        lookup(pairs, key) matches Some(value) ==> exists|i: int|
            0 <= i < pairs.len() && (#[trigger] pairs[i]).0@ == key && pairs[i].1@ == value && forall|j: int|
                0 <= j < i ==> (#[trigger] pairs[j]).0@ != key,
    decreases pairs.len(),
{
    if pairs.len() > 0 {
        let front = pairs.drop_last();
        the_first_entry_counts(front, key);
        match lookup(front, key) {
            Some(value) => {
                let i = choose|i: int|
                    0 <= i < front.len() && (#[trigger] front[i]).0@ == key && front[i].1@ == value
                        && forall|j: int| 0 <= j < i ==> (#[trigger] front[j]).0@ != key;
                assert(pairs[i] == front[i]);
                assert forall|j: int| 0 <= j < i implies (#[trigger] pairs[j]).0@ != key by {
                    assert(front[j] == pairs[j]);
                }
            },
            None => {
                assert forall|j: int| 0 <= j < front.len() implies (#[trigger] pairs[j]).0@ != key by {
                    assert(front[j] == pairs[j]);
                }
                assert(pairs[pairs.len() - 1] == pairs.last());
            },
        }
    }
}

/// Whether these are the plugins that are put together out of what was found.
pub open spec fn is_put_together(d: DiscoveredPlugins, found: Seq<PluginManifest>) -> bool {
    &&& d.manifests@ == winners(found)
    &&& !conflicting(winners(found))
    &&& forall|ext: Seq<char>| #[trigger] lookup(d.routing@, ext) == first_claim(winners(found), ext)
}

proof fn lemma_claimed(ms: Seq<PluginManifest>, ext: Seq<char>) -> (i: int)
    requires
        first_claim(ms, ext) is Some,
    ensures
        0 <= i < ms.len(),
        claims(ms[i], ext),
        first_claim(ms, ext) == Some(ms[i].language@),
    decreases ms.len(),
{
    if first_claim(ms.drop_last(), ext) is Some {
        let i = lemma_claimed(ms.drop_last(), ext);
        assert(ms.drop_last()[i] == ms[i]);
        i
    } else {
        assert(ms.last() == ms[ms.len() - 1]);
        ms.len() - 1
    }
}

/// Of the plugins that were found, a file goes to the one that claims its
/// extension and does not keep it out; where none does, it goes to none.
pub proof fn a_file_goes_to_the_plugin_that_claims_it(
    d: DiscoveredPlugins,
    found: Seq<PluginManifest>,
    file: Seq<char>,
    ext: Seq<char>,
    i: int,
)
    requires
        is_put_together(d, found),
        routed_extension(file, d.style) == Some(ext),
    ensures
        0 <= i < d.manifests@.len() && views(d.manifests@[i].extensions@).contains(ext) ==> d.indexer(file)
            == (if excluded(file, views(d.manifests@[i].workspace.exclude_dirs@)) {
            None
        } else {
            Some(d.manifests@[i].language@)
        }),
        (forall|k: int|
            0 <= k < d.manifests@.len() ==> !views((#[trigger] d.manifests@[k]).extensions@).contains(ext))
            ==> d.indexer(file) is None,
{
    let ms = d.manifests@;
    assert(lookup(d.routing@, ext) == first_claim(ms, ext));
    if 0 <= i < ms.len() && views(ms[i].extensions@).contains(ext) {
        crate::manifest::an_extension_has_one_language(ms, i, ext);
        crate::manifest::earlier_roots_shadow_later_ones(found);
        assert(languages(ms).no_duplicates()) by {
            assert forall|a: int, b: int| 0 <= a < languages(ms).len() && 0 <= b < languages(ms).len() && a
                != b implies languages(ms)[a] != languages(ms)[b] by {
                assert(ms[a].language@ == languages(ms)[a]);
                assert(ms[b].language@ == languages(ms)[b]);
                if a < b {
                    assert(winners(found)[a].language@ != winners(found)[b].language@);
                } else {
                    assert(winners(found)[b].language@ != winners(found)[a].language@);
                }
            }
        }
        only_its_own_manifest_keeps_a_file_out(d, i, file);
    }
    if forall|k: int| 0 <= k < ms.len() ==> !views((#[trigger] ms[k]).extensions@).contains(ext) {
        if first_claim(ms, ext) is Some {
            let k = lemma_claimed(ms, ext);
            assert(!views(ms[k].extensions@).contains(ext));
        }
    }
}

// ---------------------------------------------------------------------------
// Which way a change goes
// ---------------------------------------------------------------------------
/// A changed file goes to the language that indexes it. One that is claimed and
/// kept out is passed over. One that nobody claims is told of the first time
/// its extension is seen, and never again; and nothing else is remembered.
pub proof fn an_unclaimed_extension_is_told_of_once(
    d: DiscoveredPlugins,
    known: Seq<Seq<char>>,
    file: Seq<char>,
    other: Seq<char>,
)
    ensures
        ({
            let (way, then) = source_way(d, known, file);
            let (again, _) = source_way(d, then, other);
            &&& way matches Way::Source(language) ==> d.indexer(file) == Some(language)
            &&& d.indexer(file) matches Some(language) ==> way == Way::Source(language)
            &&& way is Excluded <==> d.claimant(file) is Some && d.indexer(file) is None
            &&& way is Unclaimed <==> d.claimant(file) is None
            &&& !(way is Workspace)
            &&& !(way is Unclaimed) ==> then == known
            &&& way is Unclaimed && routed_extension(file, d.style) == routed_extension(other, d.style)
                ==> again == Way::Unclaimed(None)
            &&& way == Way::Unclaimed(None) ==> then == known
            &&& known.is_prefix_of(then)
            &&& then.len() <= known.len() + 1
            &&& then.len() == known.len() + 1 <==> way is Unclaimed && way->Unclaimed_0 is Some
            &&& way is Unclaimed && known.len() == 0 ==> way->Unclaimed_0 is Some
        }),
{
    let (way, then) = source_way(d, known, file);
    if then != known {
        assert(then[known.len() as int] == then.last());
        assert(then.contains(then.last()));
    }
}

/// The languages that a workspace file touches come in the order of their
/// manifests, each as often as it has a manifest that watches the file and does
/// not keep it out.
pub proof fn a_workspace_file_touches_each_manifest_that_watches_it(
    ms: Seq<PluginManifest>,
    hits: Seq<bool>,
    more: PluginManifest,
    hit: bool,
    file: Seq<char>,
)
    ensures
        hit_languages(ms.push(more), hits.push(hit), file) == if hit && !excluded(
            file,
            views(more.workspace.exclude_dirs@),
        ) {
            hit_languages(ms, hits, file).push(more.language@)
        } else {
            hit_languages(ms, hits, file)
        },
        hit_languages(seq![], seq![], file) == Seq::<Seq<char>>::empty(),
{
    assert(ms.push(more).drop_last() =~= ms);
    assert(hits.push(hit).drop_last() =~= hits);
}

// ---------------------------------------------------------------------------
// Which manifests are accepted
// ---------------------------------------------------------------------------
/// The pattern that is named is the first that is refused, with its own reason;
/// none is named exactly where none is refused.
pub proof fn the_first_refused_pattern_is_named(
    patterns: Seq<Seq<char>>,
    refusals: Seq<Option<Seq<char>>>,
)
    requires
        patterns.len() == refusals.len(),
    ensures
        first_refusal(patterns, refusals) is None <==> forall|i: int|
            0 <= i < refusals.len() ==> (#[trigger] refusals[i]) is None,
        first_refusal(patterns, refusals) matches Some((pattern, reason)) ==> exists|i: int|
            0 <= i < refusals.len() && #[trigger] refusals[i] == Some(reason) && patterns[i] == pattern
                && forall|j: int| 0 <= j < i ==> (#[trigger] refusals[j]) is None,
    decreases patterns.len(),
{
    if patterns.len() > 0 {
        let ps = patterns.drop_last();
        let rs = refusals.drop_last();
        the_first_refused_pattern_is_named(ps, rs);
        assert(refusals[refusals.len() - 1] == refusals.last());
        match first_refusal(ps, rs) {
            Some((pattern, reason)) => {
                let i = choose|i: int|
                    0 <= i < rs.len() && #[trigger] rs[i] == Some(reason) && ps[i] == pattern && forall|j: int|
                        0 <= j < i ==> (#[trigger] rs[j]) is None;
                assert(refusals[i] == rs[i]);
                assert(patterns[i] == ps[i]);
                assert forall|j: int| 0 <= j < i implies (#[trigger] refusals[j]) is None by {
                    assert(rs[j] == refusals[j]);
                }
            },
            None => {
                assert forall|j: int| 0 <= j < rs.len() implies (#[trigger] refusals[j]) is None by {
                    assert(rs[j] == refusals[j]);
                }
            },
        }
    }
}

/// A manifest is accepted exactly where it stands in a directory named after
/// its language, speaks the daemon's protocol, has a command that can be run
/// and no pattern that is refused. What is told of one that is not is the first
/// of these, in this order, that does not hold.
pub proof fn a_manifest_is_refused_for_the_first_thing_wrong_with_it(
    raw: RawPlugin,
    dir: Seq<char>,
    protocol: u32,
    command: Result<Seq<char>, CommandError>,
    refusals: Seq<Option<Seq<char>>>,
    style: PathStyle,
)
    requires
        refusals.len() == raw.watch_files@.len(),
    ensures
        ({
            let fault = fault_of(raw, dir, protocol, command, refusals, style);
            let named = file_name(dir, style) is Some;
            let of_language = named && file_name(dir, style)->0 == raw.language@;
            let of_protocol = raw.protocol_version == protocol;
            let runs = command is Ok;
            let watches = forall|i: int| 0 <= i < refusals.len() ==> (#[trigger] refusals[i]) is None;
            &&& fault is None <==> of_language && of_protocol && runs && watches
            &&& fault == Some(Fault::NoDirectoryName) <==> !named
            &&& fault is Some && fault->0 is Language <==> named && !of_language
            &&& fault is Some && fault->0 is Protocol <==> of_language && !of_protocol
            &&& fault is Some && fault->0 is Command <==> of_language && of_protocol && !runs
            &&& fault is Some && fault->0 is Glob <==> of_language && of_protocol && runs && !watches
            &&& fault is Some && fault->0 is Language ==> fault->0->Language_declared == raw.language@
                && Some(fault->0->dir_name) == file_name(dir, style)
            &&& fault is Some && fault->0 is Protocol ==> fault->0->Protocol_declared
                == raw.protocol_version && fault->0->expected == protocol
            &&& fault is Some && fault->0 is Command ==> command == Err::<Seq<char>, CommandError>(
                fault->0->Command_0,
            )
        }),
{
    the_first_refused_pattern_is_named(views(raw.watch_files@), refusals);
}

// ---------------------------------------------------------------------------
// Where plugins are looked for
// ---------------------------------------------------------------------------
/// A root that is given stands alone. Otherwise the plugins of the home
/// directory come before the installed ones, and those of the checkout come
/// last: so what was installed by hand shadows what came with the daemon.
pub proof fn earlier_roots_are_closer_to_the_user(
    over: Seq<char>,
    home: Option<Seq<char>>,
    dir: Seq<char>,
    exe: Option<Seq<char>>,
    checkout: Seq<char>,
    style: PathStyle,
)
    ensures
        roots(Some(over), home, exe, checkout, style) == seq![over],
        roots(None, Some(dir), exe, checkout, style) == seq![
            join(join(dir, ".g-mesh"@, style), "plugins"@, style),
        ] + roots(None, None, exe, checkout, style),
        roots(None, home, exe, checkout, style).last() == join(checkout, "../plugins"@, style),
        roots(None, None, None, checkout, style).len() == 1,
        exe is Some && parent(exe->0, style) is Some ==> roots(None, None, exe, checkout, style) == seq![
            join(parent(exe->0, style)->0, "plugins"@, style),
        ] + roots(None, None, None, checkout, style),
        exe is Some && parent(exe->0, style) is None ==> roots(None, None, exe, checkout, style) == roots(
            None,
            None,
            None,
            checkout,
            style,
        ),
{
    let bare = roots(None, None, None, checkout, style);
    if exe is Some && parent(exe->0, style) is Some {
        assert(roots(None, None, exe, checkout, style) =~= seq![
            join(parent(exe->0, style)->0, "plugins"@, style),
        ] + bare);
    }
}

// ---------------------------------------------------------------------------
// What a manifest holds
// ---------------------------------------------------------------------------
/// A manifest that was read claims, keeps out, watches and can do exactly what
/// was declared; its arguments that are paths start from its own directory, and
/// the others are as they were declared.
pub proof fn a_manifest_holds_what_was_declared(
    m: PluginManifest,
    raw: RawPlugin,
    dir: Seq<char>,
    command: Seq<char>,
    style: PathStyle,
    ext: Seq<char>,
    file: Seq<char>,
    i: int,
)
    requires
        holds_manifest(m, raw, dir, command, style),
    ensures
        m.language@ == raw.language@,
        m.command@ == command,
        m.manifest_dir@ == dir,
        m.protocol_version == raw.protocol_version,
        m.plugin_version@ == raw.plugin_version@,
        claims(m, ext) <==> views(raw.extensions@).contains(ext),
        excluded(file, views(m.workspace.exclude_dirs@)) <==> excluded(file, views(raw.exclude_dirs@)),
        views(m.workspace.watch_files@) == views(raw.watch_files@),
        views(m.workspace.entry_points@) == views(raw.entry_points@),
        views(m.fingerprint_ignore@) == views(raw.fingerprint_ignore@),
        m.capabilities == raw.capabilities,
        m.args@.len() == raw.args@.len(),
        0 <= i < raw.args@.len() ==> m.args@[i]@ == (if has_separator(raw.args@[i]@, style) {
            join(dir, raw.args@[i]@, style)
        } else {
            raw.args@[i]@
        }),
{
    assert(views(m.args@).len() == m.args@.len());
    if 0 <= i < raw.args@.len() {
        assert(views(m.args@)[i] == m.args@[i]@);
    }
}

// ---------------------------------------------------------------------------
// How deep a pattern nests
// ---------------------------------------------------------------------------
/// Outside of a class, and where nothing is escaped, a brace opens or closes
/// one more alternation; in a class it does neither. A bracket opens a class,
/// and the next one that is not its first character closes it. Nothing else
/// changes how deep a pattern nests.
pub proof fn braces_nest_outside_of_classes(before: Seq<char>, escapes: bool, c: char)
    ensures
        ({
            let depth = open_behind(before, escapes);
            let then = open_behind(before.push(c), escapes);
            let outside = scan(before, escapes) == Scan::Outside;
            let at = scan(before.push(c), escapes);
            &&& open_behind(seq![], escapes) == 0
            &&& scan(seq![], escapes) == Scan::Outside
            &&& outside && c == '{' ==> then == depth + 1
            &&& outside && c == '}' ==> then == if depth > 0 {
                depth - 1
            } else {
                0
            }
            &&& !outside || (c != '{' && c != '}') ==> then == depth
            &&& outside && c != '[' && !(c == '\\' && escapes) ==> at == Scan::Outside
            &&& outside && c == '[' ==> at == Scan::ClassOpened
            &&& scan(before, escapes) == Scan::InClass ==> (at == Scan::Outside <==> c == ']')
            &&& scan(before, escapes) == Scan::InClass && c != ']' ==> at == Scan::InClass
            &&& scan(before, escapes) == Scan::ClassOpened || scan(before, escapes) == Scan::ClassNegated
                ==> at != Scan::Outside
            &&& scan(before, escapes) == Scan::ClassOpened && c != '!' && c != '^' ==> at == Scan::InClass
            &&& scan(before, escapes) == Scan::ClassNegated ==> at == Scan::InClass
            &&& scan(before, escapes) == Scan::Escaped ==> at == Scan::Outside
            &&& outside && c == '\\' && escapes ==> at == Scan::Escaped
        }),
{
    assert(before.push(c).drop_last() =~= before);
}

/// A pattern can be used exactly where it is not too long and nests, with
/// escapes or without, nowhere too deep.
pub proof fn a_pattern_is_bounded_in_length_and_depth(pattern: Seq<char>, n: int, escapes: bool)
    ensures
        is_compilable(pattern) ==> pattern.len() <= 16_384 && is_parsable(pattern),
        is_compilable(pattern) && 0 <= n <= pattern.len() ==> open_behind(pattern.take(n), escapes) <= 81,
        is_parsable(pattern) && 0 <= n <= pattern.len() ==> open_behind(pattern.take(n), escapes) <= 1_000,
        0 <= n <= pattern.len() && open_behind(pattern.take(n), escapes) > 1_000 ==> !is_parsable(pattern),
        0 <= n <= pattern.len() && open_behind(pattern.take(n), escapes) > 81 ==> !is_compilable(pattern),
        pattern.len() <= 81 ==> is_compilable(pattern),
{
    if pattern.len() <= 81 {
        assert forall|k: int, e: bool| 0 <= k <= pattern.len() implies #[trigger] open_behind(
            pattern.take(k),
            e,
        ) <= 81 by {
            lemma_no_deeper_than_long(pattern.take(k), e);
        }
    }
}

proof fn lemma_no_deeper_than_long(pattern: Seq<char>, escapes: bool)
    ensures
        open_behind(pattern, escapes) <= pattern.len(),
    decreases pattern.len(),
{
    if pattern.len() > 0 {
        lemma_no_deeper_than_long(pattern.drop_last(), escapes);
    }
}

/// What is read is a manifest exactly where nothing is wrong with it, and else
/// what is wrong.
pub proof fn a_manifest_or_what_is_wrong_with_it(
    r: Result<PluginManifest, ManifestError>,
    raw: RawPlugin,
    dir: Seq<char>,
    protocol: u32,
    command: Result<Seq<char>, CommandError>,
    refusals: Seq<Option<Seq<char>>>,
    style: PathStyle,
)
    requires
        reads_as(r, raw, dir, protocol, command, refusals, style),
    ensures
        r is Ok <==> fault_of(raw, dir, protocol, command, refusals, style) is None,
        r matches Ok(m) ==> command is Ok && holds_manifest(m, raw, dir, command->Ok_0, style),
        r matches Err(e) ==> fault_of(raw, dir, protocol, command, refusals, style) == Some(e.fault()),
{
}

/// A manifest watches a name exactly where one of its patterns matches it; one
/// without patterns watches nothing, and one pattern more never takes a name
/// away.
pub proof fn a_manifest_watches_what_its_patterns_match(
    m: PluginManifest,
    more: PluginManifest,
    pattern: String,
    name: Seq<char>,
)
    requires
        more.workspace.watch_files@ == m.workspace.watch_files@.push(pattern),
        !pattern@.contains('\\'),
    ensures
        m.workspace.watch_files@.len() == 0 ==> !watches(m, name),
        watches(more, name) <==> watches(m, name) || glob_match(pattern@, name),
{
    let ps = m.workspace.watch_files@;
    let qs = more.workspace.watch_files@;
    if watches(more, name) {
        let k = choose|k: int|
            0 <= k < qs.len() && !(#[trigger] qs[k])@.contains('\\') && glob_match(qs[k]@, name);
        if k < ps.len() {
            assert(ps[k] == qs[k]);
        }
    }
    if watches(m, name) {
        let k = choose|k: int|
            0 <= k < ps.len() && !(#[trigger] ps[k])@.contains('\\') && glob_match(ps[k]@, name);
        assert(qs[k] == ps[k]);
    }
    if glob_match(pattern@, name) {
        assert(qs[ps.len() as int] == pattern);
    }
}

} // verus!
