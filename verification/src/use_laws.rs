//! What holds for whoever uses the library: of a status that is asked and told,
//! of files that are routed, of plugins that are discovered and put to sleep,
//! and of streams that are taken in.

use vstd::prelude::*;

use crate::bulk_index::{Batch, BulkIndexSummary, Ingest, Ingested, Item};
use crate::candidates::{Detection, Limits, Mode, Tree, decide};
use crate::detection_laws::{a_root_is_a_front_of_two_projects_or_more, has_marker};
use crate::indexing_status::{IndexingStatus, Moment, Phase, Writes};
use crate::manifest::{
    DiscoveredPlugins, ExtensionConflict, PluginManifest, claims, conflicting, discover,
    earlier_roots_shadow_later_ones, excluded, languages, manifest_path, routed_extension, winners,
};
use crate::lock::{DaemonLock, LockProbe, inspect_daemon_lock_in};
use crate::memory::ProcessTreeSample;
use crate::number::decimal;
use crate::order::{is_order, is_permutation, sorted};
use crate::path::{PathStyle, join};
use crate::registry::{
    FreshRoute, Member, PluginRegistry, Route, Row, StateEntry, Way, a_workspace_file_matters_to_every_language_it_touches,
    answers, clear_stale_suspension_markers, hit_languages, is_touched, last_segment, marker_rows, members,
    row_languages, says, source_way, waiting, watches,
};
use crate::registry_laws::{
    changes_that_wait_are_told_of, has_file, has_waiting, is_put_to_sleep, only_what_is_due_is_ended,
    the_files_of_each_language_are_found,
};
use crate::routing_laws::{
    a_file_goes_to_the_plugin_that_claims_it, an_unclaimed_extension_is_told_of_once, is_put_together,
};
use crate::text::views;
use crate::text_set::TextSet;
use crate::time::Duration;

verus! {

// ---------------------------------------------------------------------------
// The status of an index
// ---------------------------------------------------------------------------
/// Of all who ask for an index one is told to build it; after the build failed,
/// the next one is. A change of phase is told to whoever has a file for it.
pub proof fn one_of_all_who_ask_builds(
    s: &mut IndexingStatus,
    t: &mut IndexingStatus,
    u: &mut IndexingStatus,
    v: &mut IndexingStatus,
    at: Moment,
    message: String,
    first: (bool, Option<Writes>),
    second: (bool, Option<Writes>),
    failed: Writes,
    third: (bool, Option<Writes>),
)
    requires
        s.trigger_attached,
        !s.requested,
        call_ensures(IndexingStatus::request_activation, (s, at), first),
        *t == *final(s),
        call_ensures(IndexingStatus::request_activation, (t, at), second),
        *u == *final(t),
        call_ensures(IndexingStatus::activation_failed, (u, message, at), failed),
        *v == *final(u),
        call_ensures(IndexingStatus::request_activation, (v, at), third),
    ensures
        first.0,
        !second.0,
        third.0,
        final(t)@ == final(s)@,
        old(s)@.stage is Unindexed || old(s)@.stage is Failed ==> final(s)@.stage is Walking,
        old(s)@.stage is Ready ==> final(s)@.stage is Ready,
        final(u)@.stage is Failed && final(u)@.stage->Failed_0 == message@,
        failed.phase is Some <==> old(u)@.phase_file is Some,
        final(v)@.stage is Walking,
{
}

/// A phase that is set is the phase from then on, and is told where there is a
/// file for it; no counter changes with it.
pub proof fn a_phase_that_is_set_is_told(s: &mut IndexingStatus, phase: Phase, at: Moment, w: Writes)
    requires
        call_ensures(IndexingStatus::set_phase, (s, phase, at), w),
    ensures
        final(s)@.stage == phase@,
        final(s)@.since == at.now,
        final(s)@.items == old(s)@.items,
        final(s)@.languages_done == old(s)@.languages_done,
        final(s)@.embed_done == old(s)@.embed_done,
        final(s)@.requested == old(s)@.requested,
        w.phase is Some <==> old(s)@.phase_file is Some,
        w.phase matches Some((path, word)) ==> Some(path@) == old(s)@.phase_file && word@ == phase@.word(),
        w.progress is Some <==> old(s)@.progress_file is Some,
{
}

// ---------------------------------------------------------------------------
// Files
// ---------------------------------------------------------------------------
/// A change to a file goes to the language that indexes it. One that nobody
/// claims is told of once, and the next file with its extension is not; no
/// plugin is started for any of this.
pub proof fn a_change_is_routed(
    r: &mut PluginRegistry,
    t: &mut PluginRegistry,
    file: &str,
    other: &str,
    way: Route,
    again: Route,
    indexer: Option<&str>,
)
    requires
        routed_extension(file@, r.discovered.style) == routed_extension(other@, r.discovered.style),
        call_ensures(DiscoveredPlugins::indexing_language, (&r.discovered, file), indexer),
        call_ensures(PluginRegistry::file_changed, (r, file), way),
        *t == *final(r),
        call_ensures(PluginRegistry::file_changed, (t, other), again),
    ensures
        way is Source <==> indexer is Some,
        way matches Route::Source { language } ==> language@ == indexer->0@,
        way is Unclaimed <==> old(r).discovered.claimant(file@) is None,
        way is Excluded <==> old(r).discovered.claimant(file@) is Some && indexer is None,
        way is Unclaimed ==> again is Unclaimed && again->notice is None,
        final(t).supervisors == old(r).supervisors,
        final(t).discovered == old(r).discovered,
{
    an_unclaimed_extension_is_told_of_once(r.discovered, views(r.unroutable@), file@, other@);
}

/// A query about a file that nobody claims asks nobody; nor does one about a
/// file that is current. One about a stale file asks the language that claims
/// it, even where the file is kept out of the index.
pub proof fn a_query_asks_whoever_claims_the_file(
    r: &mut PluginRegistry,
    file: &str,
    stale: bool,
    route: FreshRoute,
)
    requires
        call_ensures(PluginRegistry::ensure_fresh, (r, file, stale), route),
    ensures
        route is Unclaimed <==> old(r).discovered.claimant(file@) is None,
        route is AlreadyFresh <==> old(r).discovered.claimant(file@) is Some && !stale,
        route matches FreshRoute::Ask { language, .. } ==> Some(language@) == old(r).discovered.claimant(
            file@,
        ) && stale,
        !(route is Ask) ==> final(r).supervisors@ == old(r).supervisors@,
{
}

/// The plugins that were found route each file to the one that claims its
/// extension, unless that one keeps it out.
pub proof fn discovered_plugins_route_each_file(
    found: Vec<PluginManifest>,
    style: PathStyle,
    r: Result<DiscoveredPlugins, ExtensionConflict>,
    file: &str,
    ext: Seq<char>,
    i: int,
    indexer: Option<&str>,
)
    requires
        call_ensures(discover, (found, style), r),
        r is Ok,
        routed_extension(file@, style) == Some(ext),
        0 <= i < r->Ok_0.manifests@.len(),
        views(r->Ok_0.manifests@[i].extensions@).contains(ext),
        call_ensures(DiscoveredPlugins::indexing_language, (&r->Ok_0, file), indexer),
    ensures
        indexer is None <==> excluded(file@, views(r->Ok_0.manifests@[i].workspace.exclude_dirs@)),
        indexer is Some ==> indexer->0@ == r->Ok_0.manifests@[i].language@,
        r->Ok_0.style == style,
{
    let d = r->Ok_0;
    assert(is_put_together(d, found@));
    a_file_goes_to_the_plugin_that_claims_it(d, found@, file@, ext, i);
}

/// No two languages that were found may claim one extension: where two do, what
/// was found is refused, and the conflict names an extension that both of them
/// claim, and both of their manifests.
pub proof fn no_two_languages_claim_one_extension(
    found: Vec<PluginManifest>,
    style: PathStyle,
    r: Result<DiscoveredPlugins, ExtensionConflict>,
    i: int,
    j: int,
    ext: Seq<char>,
)
    requires
        call_ensures(discover, (found, style), r),
    ensures
        0 <= i < j < winners(found@).len() && claims(winners(found@)[i], ext) && claims(
            winners(found@)[j],
            ext,
        ) ==> r is Err,
        r matches Err(conflict) ==> conflict.first_language@ != conflict.second_language@ && exists|a: int, b: int|
            #![trigger winners(found@)[a], winners(found@)[b]]
            0 <= a < b < winners(found@).len() && claims(winners(found@)[a], conflict.extension@) && claims(
                winners(found@)[b],
                conflict.extension@,
            ) && winners(found@)[a].language@ == conflict.first_language@ && winners(found@)[b].language@
                == conflict.second_language@ && conflict.first_manifest@ == join(
                winners(found@)[a].manifest_dir@,
                "plugin.toml"@,
                style,
            ) && conflict.second_manifest@ == join(
                winners(found@)[b].manifest_dir@,
                "plugin.toml"@,
                style,
            ),
{
    let ms = winners(found@);
    earlier_roots_shadow_later_ones(found@);
    if 0 <= i < j < ms.len() && claims(ms[i], ext) && claims(ms[j], ext) {
        assert(ms[i].language@ != ms[j].language@);
        assert(conflicting(ms));
    }
    if r is Err {
        let conflict = r->Err_0;
        let (a, b) = choose|a: int, b: int|
            #![trigger ms[a], ms[b]]
            0 <= a < b < ms.len() && ms[a].language@ != ms[b].language@ && claims(ms[a], conflict.extension@)
                && claims(ms[b], conflict.extension@) && conflict.first_language@ == ms[a].language@
                && conflict.first_manifest@ == manifest_path(ms[a], style) && conflict.second_language@
                == ms[b].language@ && conflict.second_manifest@ == manifest_path(ms[b], style);
        assert(ms[a].language@ == conflict.first_language@);
    }
}

// ---------------------------------------------------------------------------
// Sleep
// ---------------------------------------------------------------------------
/// Putting every plugin to sleep ends every process there is, and leaves no
/// plugin with one.
pub proof fn everything_can_be_put_to_sleep(
    r: &mut PluginRegistry,
    ended: Vec<(String, u32)>,
    i: int,
)
    requires
        call_ensures(PluginRegistry::sleep_all_now, (r,), ended),
        0 <= i < r.supervisors@.len(),
        r.supervisors@[i].1 is Running,
    ensures
        final(r).supervisors@.len() == old(r).supervisors@.len(),
        final(r).supervisors@[i].1 is Running,
        final(r).supervisors@[i].1->Running_0.process is None,
        final(r).supervisors@[i].1->Running_0@.dirty == old(r).supervisors@[i].1->Running_0@.dirty,
        old(r).supervisors@[i].1->Running_0.process matches Some(pid) ==> members(ended@).contains(
            Member { language: old(r).supervisors@[i].0@, pid },
        ),
{
    let slots = r.supervisors@;
    assert(final(r).supervisors@[i].0 == slots[i].0);
    if slots[i].1->Running_0.process is Some {
        let m = Member { language: slots[i].0@, pid: slots[i].1->Running_0.process->0 };
        only_what_is_due_is_ended(slots, None, m);
        assert(is_put_to_sleep(slots, i, None, m));
    }
}

/// A file that shapes a language's workspace, and that the language does not
/// keep out, goes to that language's reindex before it goes anywhere as a
/// source file. Where no plugin watches any file, every file is a source file.
pub proof fn a_workspace_file_is_no_source_file(
    r: &mut PluginRegistry,
    t: &mut PluginRegistry,
    file: &str,
    i: int,
    way: Route,
    as_source: Route,
)
    requires
        call_ensures(PluginRegistry::route_settled_path, (r, file), way),
        *t == *r,
        call_ensures(PluginRegistry::file_changed, (t, file), as_source),
        languages(r.discovered.manifests@).no_duplicates(),
        0 <= i < r.discovered.manifests@.len(),
    ensures
        ({
            let m = old(r).discovered.manifests@[i];
            let name = last_segment(file@);
            !name.contains('\\') && watches(m, name) && !excluded(file@, views(m.workspace.exclude_dirs@))
                ==> way is Workspace && views(way->languages@).contains(m.language@)
        }),
        (forall|k: int|
            0 <= k < old(r).discovered.manifests@.len() ==> (
            #[trigger] old(r).discovered.manifests@[k]).workspace.watch_files@.len() == 0) ==> way@
            == as_source@,
        way is Workspace ==> views(final(r).unroutable@) == views(old(r).unroutable@),
        final(r).supervisors == old(r).supervisors,
{
    let ms = r.discovered.manifests@;
    let hits = choose|hits: Seq<bool>| #[trigger]
        answers(ms, hits, file@) && ({
            let matched = sorted(hit_languages(ms, hits, file@));
            (way@, views(final(r).unroutable@)) == (if matched.len() > 0 {
                (Way::Workspace(matched), views(r.unroutable@))
            } else {
                source_way(r.discovered, views(r.unroutable@), file@)
            })
        });
    let matched = sorted(hit_languages(ms, hits, file@));
    let m = ms[i];
    let name = last_segment(file@);
    a_workspace_file_matters_to_every_language_it_touches(ms, hits, file@);
    assert(says(ms[i], name, hits[i]));
    if !name.contains('\\') && watches(m, name) && !excluded(file@, views(m.workspace.exclude_dirs@)) {
        assert(is_touched(ms, hits, file@, m.language@, i));
        assert(matched.contains(m.language@));
    }
    if forall|k: int| 0 <= k < ms.len() ==> (#[trigger] ms[k]).workspace.watch_files@.len() == 0 {
        if matched.len() > 0 {
            let language = matched[0];
            assert(matched.contains(language));
            let k = choose|k: int| is_touched(ms, hits, file@, language, k);
            assert(says(ms[k], name, hits[k]));
        }
    }
}

/// Something is pending exactly where changes wait for some plugin.
pub proof fn something_is_pending_where_changes_wait(r: &PluginRegistry, pending: bool, i: int)
    requires
        call_ensures(PluginRegistry::has_pending, (r,), pending),
    ensures
        0 <= i < r.supervisors@.len() && r.supervisors@[i].1 is Running
            && r.supervisors@[i].1->Running_0@.dirty.len() > 0 ==> pending,
        pending ==> exists|k: int, text: Seq<char>| #[trigger] has_waiting(r.supervisors@, k, text),
{
    let slots = r.supervisors@;
    if 0 <= i < slots.len() && slots[i].1 is Running && slots[i].1->Running_0@.dirty.len() > 0 {
        let s = slots[i].1->Running_0;
        let n = s@.dirty.len();
        let text = s.manifest.language@ + " ("@ + decimal(n) + (if n == 1 {
            " file)"@
        } else {
            " files)"@
        });
        assert(has_waiting(slots, i, text));
        changes_that_wait_are_told_of(slots, text);
    }
    if pending {
        let text = waiting(slots)[0];
        assert(waiting(slots).contains(text));
        changes_that_wait_are_told_of(slots, text);
    }
}

/// Every suspension that a daemon before this one left behind is cleared, and
/// no other file.
pub proof fn stale_suspensions_are_cleared(
    entries: &Vec<StateEntry>,
    cleared: Vec<String>,
    language: Seq<char>,
    path: Seq<char>,
    i: int,
)
    requires
        call_ensures(clear_stale_suspension_markers, (entries,), cleared),
    ensures
        has_file(entries@, i, "plugin-"@ + language + ".suspended"@, path) ==> views(cleared@).contains(path),
        cleared@.len() == marker_rows(entries@).len(),
        0 <= i < cleared@.len() ==> exists|row: Row|
            #[trigger] marker_rows(entries@).contains(row) && row.text == cleared@[i]@,
{
    let rs = marker_rows(entries@);
    let p = choose|p: Seq<usize>| #[trigger]
        is_order(row_languages(rs), p) && views(cleared@) == Seq::new(
            p.len(),
            |k: int| rs[p[k] as int].text,
        );
    assert(views(cleared@).len() == cleared@.len());
    if has_file(entries@, i, "plugin-"@ + language + ".suspended"@, path) {
        the_files_of_each_language_are_found(entries@, language, path);
        let row = Row { language, text: path };
        let k = choose|k: int| 0 <= k < rs.len() && rs[k] == row;
        let at = lemma_reached(p, rs.len(), k);
        assert(views(cleared@)[at] == path);
    }
    if 0 <= i < cleared@.len() {
        assert(views(cleared@)[i] == rs[p[i] as int].text);
        assert(rs.contains(rs[p[i] as int]));
    }
}

proof fn lemma_reached(p: Seq<usize>, n: nat, k: int) -> (at: int)
    requires
        is_permutation(p, n),
        0 <= k < n,
    ensures
        0 <= at < p.len(),
        p[at] == k,
{
    let ints = p.map_values(|x: usize| x as int);
    let all = Set::new(|x: int| 0 <= x < n);
    assert(ints.no_duplicates()) by {
        assert forall|i: int, j: int| 0 <= i < ints.len() && 0 <= j < ints.len() && i != j implies ints[i]
            != ints[j] by {
            if i < j {
                assert(p[i] != p[j]);
            } else {
                assert(p[j] != p[i]);
            }
        }
    }
    ints.unique_seq_to_set();
    vstd::set_lib::lemma_int_range(0, n as int);
    assert(vstd::set_lib::set_int_range(0, n as int) =~= all);
    assert forall|x: int| ints.to_set().contains(x) implies #[trigger] all.contains(x) by {
        let i = choose|i: int| 0 <= i < ints.len() && ints[i] == x;
        assert(p[i] < n);
    }
    vstd::set_lib::lemma_subset_equality(ints.to_set(), all);
    assert(all.contains(k));
    choose|i: int| 0 <= i < ints.len() && ints[i] == k
}

/// Whoever answers holds the lock, whatever trying it came to; and a lock that
/// cannot be tried is an error only where nobody answers.
pub proof fn whoever_answers_holds_the_lock(
    listening: bool,
    probe: LockProbe,
    record: Option<&str>,
    alive: &Vec<u32>,
    r: Result<DaemonLock, String>,
)
    requires
        call_ensures(inspect_daemon_lock_in, (listening, probe, record, alive), r),
    ensures
        listening ==> r == Ok::<DaemonLock, String>(DaemonLock::Serving),
        r is Err <==> !listening && probe is Tried && probe->0 is Failed,
        !listening && (probe is Unopenable || probe->0 is Taken) ==> r == Ok::<DaemonLock, String>(
            DaemonLock::Free,
        ),
        !listening && probe is Tried && probe->0 is WouldBlock ==> r is Ok && (r->Ok_0 is Starting
            || r->Ok_0 is Wedged),
{
}

// ---------------------------------------------------------------------------
// Streams
// ---------------------------------------------------------------------------
/// An item that can be read is taken in, and whoever takes it in goes on or
/// commits a whole batch; what cannot be read any further ends the stream and
/// changes nothing. What is left in the end is handed over, if there is any.
pub proof fn a_stream_is_taken_in_item_by_item<N, E>(
    ingest: &mut Ingest<N, E>,
    item: Item<N, E>,
    r: Ingested<N, E>,
    whole: Ingest<N, E>,
    end: (Option<Batch<N, E>>, BulkIndexSummary, TextSet),
)
    requires
        call_ensures(Ingest::<N, E>::ingest, (ingest, item), r),
        call_ensures(Ingest::<N, E>::finish, (whole,), end),
    ensures
        r is Stop <==> item is ReadFailed,
        item is ReadFailed ==> final(ingest).summary == old(ingest).summary && final(ingest).batch.nodes@
            == old(ingest).batch.nodes@ && final(ingest).batch.edges@ == old(ingest).batch.edges@,
        r is Continue && item is Node ==> final(ingest).batch.nodes@ == old(ingest).batch.nodes@.push(
            item->Node_record,
        ) && final(ingest).batch.edges@ == old(ingest).batch.edges@,
        r is Continue && item is Edge ==> final(ingest).batch.edges@ == old(ingest).batch.edges@.push(
            item->Edge_record,
        ) && final(ingest).batch.nodes@ == old(ingest).batch.nodes@,
        r is Continue && item is Malformed ==> final(ingest).batch.nodes@ == old(ingest).batch.nodes@
            && final(ingest).batch.edges@ == old(ingest).batch.edges@,
        r matches Ingested::Commit { batch } ==> batch.nodes@.len() + batch.edges@.len() >= 2_000
            && final(ingest).batch.nodes@.len() + final(ingest).batch.edges@.len() == 0
            && old(ingest).batch.nodes@.is_prefix_of(batch.nodes@) && old(ingest).batch.edges@.is_prefix_of(
            batch.edges@,
        ),
        r is Continue ==> final(ingest).batch.nodes@.len() + final(ingest).batch.edges@.len() < 2_000,
        end.0 is Some <==> whole.batch.nodes@.len() + whole.batch.edges@.len() > 0,
        end.0 matches Some(batch) ==> batch.nodes@ == whole.batch.nodes@ && batch.edges@ == whole.batch.edges@,
        end.1 == whole.summary,
{
}

// ---------------------------------------------------------------------------
// Detection and memory
// ---------------------------------------------------------------------------
/// A root with a marker of its own is one project and is not walked; so is one
/// with a complete index. Any other is the front of its projects where there
/// are two or more.
pub proof fn a_marked_root_is_one_project(
    tree: &Tree,
    index: Option<bool>,
    limits: Limits,
    elapsed: Duration,
    d: Detection,
)
    requires
        call_ensures(decide, (tree, index, limits, elapsed), d),
    ensures
        has_marker(tree.root_probe) ==> d.mode is Single && !d.walked,
        index == Some(true) ==> d.mode is Single && !d.walked,
        d.mode == Mode::Multi <==> d.walked && d.candidates@.len() >= 2,
        d.elapsed == elapsed,
{
    a_root_is_a_front_of_two_projects_or_more(d, *tree, index, limits);
}

/// Memory is told in whole mebibytes, rounded down.
pub proof fn memory_is_told_in_mebibytes(sample: &ProcessTreeSample, bytes: u64, mb: u64)
    requires
        call_ensures(ProcessTreeSample::rss_bytes, (sample,), bytes),
        call_ensures(ProcessTreeSample::rss_mb, (sample,), mb),
    ensures
        bytes == sample.total_bytes,
        1_048_576 * mb <= bytes < 1_048_576 * (mb + 1),
{
}

/// On Unix an absolute path stands for itself wherever it is looked up, and any
/// other is put behind the directory, with one slash between unless there is
/// one.
pub proof fn a_path_is_put_behind_its_directory(base: Seq<char>, rest: Seq<char>)
    ensures
        ({
            let r = join(base, rest, PathStyle::Unix);
            &&& rest.len() > 0 && rest[0] == '/' ==> r == rest
            &&& (rest.len() == 0 || rest[0] != '/') && base.len() > 0 && base.last() != '/' ==> r == base
                + seq!['/'] + rest
            &&& (rest.len() == 0 || rest[0] != '/') && (base.len() == 0 || base.last() == '/') ==> r == base
                + rest
        }),
{
    assert(base.take(0) + rest =~= rest);
    assert(base.push('/') + rest =~= base + seq!['/'] + rest);
}

} // verus!
