//! What holds of the plugins that a daemon has started: who is told to start
//! one, which are put to sleep or looked at, and what their files say.

use vstd::prelude::*;
use vstd::string::*;

use crate::manifest::{PluginManifest, languages};
use crate::number::decimal;
use crate::order::sorted;
use crate::path::{Separation, join, last_start};
use crate::registry::{
    GetOrSpawn, Member, PluginRegistry, Row, StateEntry, SupervisorSlot, all_entry_points, encoded_language,
    ending, got, is_slept, last_segment, marker_reason, marker_rows, panicked_text, pid_rows, reason_rows,
    sampled, slot_in, total_replayed, unclaimed_text, unknown_text, waited_text, waiting,
};
use crate::text::{holds_part, joined_with, trimmed, views};
use crate::time::Duration;

verus! {

// ---------------------------------------------------------------------------
// Files in the state directory
// ---------------------------------------------------------------------------
/// A file belongs to a language exactly where its name is the language's,
/// between what every such name begins and ends with.
pub proof fn a_file_is_named_after_its_language(name: Seq<char>, suffix: Seq<char>, language: Seq<char>)
    ensures
        encoded_language(name, suffix) == Some(language) <==> name == "plugin-"@ + language + suffix,
{
    let prefix = "plugin-"@;
    let n = prefix.len() as int;
    let rest = name.skip(n);
    if encoded_language(name, suffix) == Some(language) {
        assert(name =~= prefix + rest) by {
            assert(name.take(n) =~= prefix);
        }
        let m = rest.len() - suffix.len();
        assert(rest.skip(m) =~= suffix);
        assert(rest =~= rest.take(m) + suffix);
        assert(name =~= prefix + language + suffix);
    }
    if name == prefix + language + suffix {
        assert(name.take(n) =~= prefix);
        assert(rest =~= language + suffix);
        assert(rest.skip(rest.len() - suffix.len()) =~= suffix);
        assert(rest.take(rest.len() - suffix.len()) =~= language);
    }
}

/// Whether a directory lists a file with this name, this path and these
/// contents.
pub open spec fn has_file(
    entries: Seq<StateEntry>,
    i: int,
    name: Seq<char>,
    path: Seq<char>,
) -> bool {
    0 <= i < entries.len() && entries[i].name@ == name && entries[i].path@ == path
}

/// The pid files that are found are those of the directory that are named after
/// a language, each under that language and with its own path; so are the files
/// that tell of a suspension.
pub proof fn the_files_of_each_language_are_found(
    entries: Seq<StateEntry>,
    language: Seq<char>,
    path: Seq<char>,
)
    ensures
        pid_rows(entries).contains(Row { language, text: path }) <==> exists|i: int| #[trigger]
            has_file(entries, i, "plugin-"@ + language + ".pid"@, path),
        marker_rows(entries).contains(Row { language, text: path }) <==> exists|i: int| #[trigger]
            has_file(entries, i, "plugin-"@ + language + ".suspended"@, path),
    decreases entries.len(),
{
    let row = Row { language, text: path };
    let pid = "plugin-"@ + language + ".pid"@;
    let suspended = "plugin-"@ + language + ".suspended"@;
    if entries.len() > 0 {
        let front = entries.drop_last();
        let last = entries.last();
        let n = entries.len() - 1;
        the_files_of_each_language_are_found(front, language, path);
        a_file_is_named_after_its_language(last.name@, ".pid"@, language);
        a_file_is_named_after_its_language(last.name@, ".suspended"@, language);
        assert forall|i: int, name: Seq<char>| #[trigger] has_file(entries, i, name, path) <==> has_file(
            front,
            i,
            name,
            path,
        ) || (i == n && last.name@ == name && last.path@ == path) by {
            if 0 <= i < n {
                assert(front[i] == entries[i]);
            }
        }
        if encoded_language(last.name@, ".pid"@) is Some {
            vstd::seq_lib::lemma_seq_contains_after_push(
                pid_rows(front),
                Row { language: encoded_language(last.name@, ".pid"@)->0, text: last.path@ },
                row,
            );
        }
        if encoded_language(last.name@, ".suspended"@) is Some {
            vstd::seq_lib::lemma_seq_contains_after_push(
                marker_rows(front),
                Row { language: encoded_language(last.name@, ".suspended"@)->0, text: last.path@ },
                row,
            );
        }
        if exists|i: int| #[trigger] has_file(front, i, pid, path) {
            let i = choose|i: int| #[trigger] has_file(front, i, pid, path);
            assert(has_file(entries, i, pid, path));
        }
        if exists|i: int| #[trigger] has_file(front, i, suspended, path) {
            let i = choose|i: int| #[trigger] has_file(front, i, suspended, path);
            assert(has_file(entries, i, suspended, path));
        }
        if last.path@ == path && last.name@ == pid {
            assert(has_file(entries, n, pid, path));
        }
        if last.path@ == path && last.name@ == suspended {
            assert(has_file(entries, n, suspended, path));
        }
    }
}

/// The reasons for the suspensions stand in the order of the files that tell of
/// them, one for each: what the file says, without the white space around it,
/// or that it cannot be read.
pub proof fn each_suspension_has_its_reason(entries: Seq<StateEntry>)
    ensures
        reason_rows(entries).len() == marker_rows(entries).len(),
        forall|k: int|
            0 <= k < marker_rows(entries).len() ==> (#[trigger] reason_rows(entries)[k]).language
                == marker_rows(entries)[k].language,
        forall|k: int|
            0 <= k < marker_rows(entries).len() ==> exists|i: int|
                0 <= i < entries.len() && (#[trigger] entries[i]).path@ == (
                #[trigger] marker_rows(entries)[k]).text && reason_rows(entries)[k].text == (
                match entries[i].contents {
                    Some(text) => trimmed(text@),
                    None => "(unreadable)"@,
                }),
    decreases entries.len(),
{
    if entries.len() > 0 {
        let front = entries.drop_last();
        let last = entries.last();
        each_suspension_has_its_reason(front);
        let ms = marker_rows(entries);
        let rs = reason_rows(entries);
        let fm = marker_rows(front);
        let fr = reason_rows(front);
        assert forall|k: int| 0 <= k < ms.len() implies exists|i: int|
            0 <= i < entries.len() && (#[trigger] entries[i]).path@ == (#[trigger] ms[k]).text && rs[k].text
                == (match entries[i].contents {
                Some(text) => trimmed(text@),
                None => "(unreadable)"@,
            }) by {
            if k < fm.len() {
                assert(ms[k] == fm[k] && rs[k] == fr[k]);
                let i = choose|i: int|
                    0 <= i < front.len() && (#[trigger] front[i]).path@ == fm[k].text && fr[k].text == (
                    match front[i].contents {
                        Some(text) => trimmed(text@),
                        None => "(unreadable)"@,
                    });
                assert(entries[i] == front[i]);
            } else {
                assert(entries[entries.len() - 1] == last);
                assert(rs[k].text == marker_reason(last.contents));
            }
        }
    }
}

// ---------------------------------------------------------------------------
// Starting
// ---------------------------------------------------------------------------
/// One caller is told to start a language's plugin, and everyone who asks until
/// that is settled is told to wait; one whose plugin is there gets it; one for
/// which none was found is told so, and nothing is kept of that. No other
/// language is touched.
pub proof fn one_caller_starts_a_plugin(
    before: PluginRegistry,
    between: PluginRegistry,
    after: PluginRegistry,
    language: Seq<char>,
    first: GetOrSpawn,
    second: GetOrSpawn,
)
    requires
        got(before, between, language, first),
        got(between, after, language, second),
        between.discovered == before.discovered,
    ensures
        first is Spawn ==> second is Wait,
        first is Wait ==> second is Wait,
        first is Running ==> second is Running,
        first is Unknown ==> second is Unknown,
        first is Spawn <==> before.slot(language) is None && languages(
            before.discovered.manifests@,
        ).contains(language),
        first is Unknown <==> before.slot(language) is None && !languages(
            before.discovered.manifests@,
        ).contains(language),
        first is Running <==> before.slot(language) is Some && before.slot(language)->0 is Running,
        after.supervisors@ == between.supervisors@ || first is Unknown,
        first matches GetOrSpawn::Spawn { manifest, pid_file } ==> {
            &&& manifest < before.discovered.manifests@.len()
            &&& before.discovered.manifests@[manifest as int].language@ == language
            &&& pid_file@ == join(before.state_dir@, "plugin-"@ + language + ".pid"@, before.style)
        },
        forall|other: Seq<char>|
            other != language ==> #[trigger] between.slot(other) == before.slot(other),
{
    if !(first is Spawn) {
        assert(between.supervisors@ == before.supervisors@);
    }
}

/// What a language's slot holds is what stands under its name, where no name
/// stands twice.
pub proof fn a_slot_is_found_by_its_name(slots: Seq<(String, SupervisorSlot)>, language: Seq<char>)
    ensures
        slot_in(slots, language) is None <==> forall|i: int|
            0 <= i < slots.len() ==> (#[trigger] slots[i]).0@ != language,
        slot_in(slots, language) is Some ==> exists|i: int|
            0 <= i < slots.len() && (#[trigger] slots[i]).0@ == language && Some(slots[i].1) == slot_in(
                slots,
                language,
            ) && forall|j: int| 0 <= j < i ==> (#[trigger] slots[j]).0@ != language,
    decreases slots.len(),
{
    if slots.len() > 0 {
        let front = slots.drop_last();
        a_slot_is_found_by_its_name(front, language);
        assert(slots[slots.len() - 1] == slots.last());
        if slot_in(front, language) is Some {
            let i = choose|i: int|
                0 <= i < front.len() && (#[trigger] front[i]).0@ == language && Some(front[i].1) == slot_in(
                    front,
                    language,
                ) && forall|j: int| 0 <= j < i ==> (#[trigger] front[j]).0@ != language;
            assert(slots[i] == front[i]);
            assert forall|j: int| 0 <= j < i implies (#[trigger] slots[j]).0@ != language by {
                assert(front[j] == slots[j]);
            }
        } else {
            assert forall|j: int| 0 <= j < front.len() implies (#[trigger] slots[j]).0@ != language by {
                assert(front[j] == slots[j]);
            }
        }
    }
}

// ---------------------------------------------------------------------------
// Sleep and memory
// ---------------------------------------------------------------------------
/// Whether the plugin in this slot has this process, and is to be put to sleep:
/// all are where no time is given, and else those with a timer that has run out
/// since they last did anything.
pub open spec fn is_put_to_sleep(
    slots: Seq<(String, SupervisorSlot)>,
    i: int,
    now: Option<Duration>,
    m: Member,
) -> bool {
    &&& 0 <= i < slots.len()
    &&& slots[i].0@ == m.language
    &&& slots[i].1 matches SupervisorSlot::Running(s) && s.process == Some(m.pid) && (now is None || (
    s.idle_timeout matches Some(timeout) && (now->0 >= s.last_activity + timeout || timeout == 0)))
}

/// Whether the plugin in this slot has this process and a limit on its memory.
pub open spec fn is_looked_at(slots: Seq<(String, SupervisorSlot)>, i: int, m: Member) -> bool {
    &&& 0 <= i < slots.len()
    &&& slots[i].0@ == m.language
    &&& slots[i].1 matches SupervisorSlot::Running(s) && s.process == Some(m.pid) && s.memory_limit_mb is Some
}

/// The processes that are ended are exactly those of the plugins that are to be
/// put to sleep, and those whose memory is looked at are exactly those of the
/// plugins with a limit on it.
pub proof fn only_what_is_due_is_ended(slots: Seq<(String, SupervisorSlot)>, now: Option<Duration>, m: Member)
    ensures
        ending(slots, now).contains(m) <==> exists|i: int| #[trigger] is_put_to_sleep(slots, i, now, m),
        sampled(slots).contains(m) <==> exists|i: int| #[trigger] is_looked_at(slots, i, m),
    decreases slots.len(),
{
    if slots.len() > 0 {
        let front = slots.drop_last();
        let last = slots.last();
        let n = slots.len() - 1;
        assert(slots[n] == last);
        only_what_is_due_is_ended(front, now, m);
        assert forall|i: int| 0 <= i < n implies #[trigger] is_put_to_sleep(slots, i, now, m)
            == is_put_to_sleep(front, i, now, m) by {
            assert(front[i] == slots[i]);
        }
        assert forall|i: int| 0 <= i < n implies #[trigger] is_looked_at(slots, i, m) == is_looked_at(
            front,
            i,
            m,
        ) by {
            assert(front[i] == slots[i]);
        }
        let e = ending(front, now);
        let a = sampled(front);
        match last.1 {
            SupervisorSlot::Running(s) => {
                if s@.process is Some {
                    let one = Member { language: last.0@, pid: s@.process->0 };
                    vstd::seq_lib::lemma_seq_contains_after_push(e, one, m);
                    vstd::seq_lib::lemma_seq_contains_after_push(a, one, m);
                }
            },
            SupervisorSlot::Spawning => {},
        }
        assert(is_put_to_sleep(slots, n, now, m) ==> ending(slots, now).contains(m));
        assert(is_looked_at(slots, n, m) ==> sampled(slots).contains(m));
        if exists|i: int| #[trigger] is_put_to_sleep(front, i, now, m) {
            let i = choose|i: int| #[trigger] is_put_to_sleep(front, i, now, m);
            assert(is_put_to_sleep(slots, i, now, m));
        }
        if exists|i: int| #[trigger] is_looked_at(front, i, m) {
            let i = choose|i: int| #[trigger] is_looked_at(front, i, m);
            assert(is_looked_at(slots, i, m));
        }
        if ending(slots, now).contains(m) && !e.contains(m) {
            assert(is_put_to_sleep(slots, n, now, m));
        }
        if sampled(slots).contains(m) && !a.contains(m) {
            assert(is_looked_at(slots, n, m));
        }
    }
}

/// Whether the plugin in this slot has so many changes that wait for it.
pub open spec fn has_waiting(slots: Seq<(String, SupervisorSlot)>, i: int, text: Seq<char>) -> bool {
    &&& 0 <= i < slots.len()
    &&& slots[i].1 matches SupervisorSlot::Running(s) && s@.dirty.len() > 0 && text == s.manifest.language@
        + " ("@ + decimal(s@.dirty.len()) + (if s@.dirty.len() == 1 {
        " file)"@
    } else {
        " files)"@
    })
}

/// What is told to be waiting is told of exactly the plugins for which changes
/// wait, with how many there are.
pub proof fn changes_that_wait_are_told_of(slots: Seq<(String, SupervisorSlot)>, text: Seq<char>)
    ensures
        waiting(slots).contains(text) <==> exists|i: int| #[trigger] has_waiting(slots, i, text),
    decreases slots.len(),
{
    if slots.len() > 0 {
        let front = slots.drop_last();
        let last = slots.last();
        let n = slots.len() - 1;
        assert(slots[n] == last);
        changes_that_wait_are_told_of(front, text);
        assert forall|i: int| 0 <= i < n implies #[trigger] has_waiting(slots, i, text) == has_waiting(
            front,
            i,
            text,
        ) by {
            assert(front[i] == slots[i]);
        }
        match last.1 {
            SupervisorSlot::Running(s) => {
                if s@.dirty.len() > 0 {
                    let count = s@.dirty.len();
                    let told = crate::registry::waiting_text(s.manifest.language@, count);
                    reveal_strlit(" ");
                    reveal_strlit("file");
                    reveal_strlit("files");
                    reveal_strlit(")");
                    reveal_strlit(" file)");
                    reveal_strlit(" files)");
                    assert(" "@ + "file"@ + ")"@ =~= " file)"@);
                    assert(" "@ + "files"@ + ")"@ =~= " files)"@);
                    assert(told =~= s.manifest.language@ + " ("@ + decimal(count) + (if count == 1 {
                        " file)"@
                    } else {
                        " files)"@
                    }));
                    vstd::seq_lib::lemma_seq_contains_after_push(waiting(front), told, text);
                }
            },
            SupervisorSlot::Spawning => {},
        }
        assert(has_waiting(slots, n, text) ==> waiting(slots).contains(text));
        if exists|i: int| #[trigger] has_waiting(front, i, text) {
            let i = choose|i: int| #[trigger] has_waiting(front, i, text);
            assert(has_waiting(slots, i, text));
        }
        if waiting(slots).contains(text) && !waiting(front).contains(text) {
            assert(has_waiting(slots, n, text));
        }
    }
}

// ---------------------------------------------------------------------------
// Sums
// ---------------------------------------------------------------------------
/// What two lists of replays come to is what each of them comes to, and one
/// that was not made comes to nothing; the entry points of two lists of
/// manifests are those of the one and then those of the other.
pub proof fn lists_add_up(
    a: Seq<Option<usize>>,
    b: Seq<Option<usize>>,
    n: usize,
    ms: Seq<PluginManifest>,
    ns: Seq<PluginManifest>,
    m: PluginManifest,
)
    ensures
        total_replayed(a + b) == total_replayed(a) + total_replayed(b),
        total_replayed(seq![Some(n)]) == n,
        total_replayed(seq![None]) == 0,
        all_entry_points(ms + ns) == all_entry_points(ms) + all_entry_points(ns),
        all_entry_points(seq![m]) == views(m.workspace.entry_points@),
{
    lemma_replays(a, b);
    lemma_entry_points(ms, ns);
    assert(seq![Some(n)].drop_last() =~= seq![]);
    assert(seq![None::<usize>].drop_last() =~= seq![]);
    assert(seq![m].drop_last() =~= seq![]);
    reveal_with_fuel(total_replayed, 2);
    reveal_with_fuel(all_entry_points, 2);
    assert(Seq::<Seq<char>>::empty() + views(m.workspace.entry_points@) =~= views(
        m.workspace.entry_points@,
    ));
}

proof fn lemma_replays(a: Seq<Option<usize>>, b: Seq<Option<usize>>)
    ensures
        total_replayed(a + b) == total_replayed(a) + total_replayed(b),
    decreases b.len(),
{
    if b.len() == 0 {
        assert(a + b =~= a);
    } else {
        assert((a + b).drop_last() =~= a + b.drop_last());
        lemma_replays(a, b.drop_last());
    }
}

proof fn lemma_entry_points(ms: Seq<PluginManifest>, ns: Seq<PluginManifest>)
    ensures
        all_entry_points(ms + ns) == all_entry_points(ms) + all_entry_points(ns),
    decreases ns.len(),
{
    if ns.len() == 0 {
        assert(ms + ns =~= ms);
        assert(all_entry_points(ms) + all_entry_points(ns) =~= all_entry_points(ms));
    } else {
        assert((ms + ns).drop_last() =~= ms + ns.drop_last());
        lemma_entry_points(ms, ns.drop_last());
        assert(all_entry_points(ms + ns) =~= all_entry_points(ms) + all_entry_points(ns));
    }
}

// ---------------------------------------------------------------------------
// Names and words
// ---------------------------------------------------------------------------
/// The last segment of a path is what follows the last slash, or all of it.
pub proof fn the_last_segment_follows_the_last_slash(dir: Seq<char>, name: Seq<char>)
    requires
        !name.contains('/'),
    ensures
        last_segment(name) == name,
        last_segment(dir.push('/') + name) == name,
{
    lemma_last(dir.push('/'), name);
    lemma_last(seq![], name);
    assert(seq![] + name =~= name);
    assert((dir.push('/') + name).skip(dir.len() as int + 1) =~= name);
    assert(name.skip(0) =~= name);
}

proof fn lemma_last(before: Seq<char>, name: Seq<char>)
    requires
        !name.contains('/'),
        before.len() > 0 ==> before.last() == '/',
    ensures
        last_start(before + name, 0, Separation::Slash) == before.len(),
    decreases name.len(),
{
    let p = before + name;
    if name.len() == 0 {
        assert(p =~= before);
    } else {
        assert(p.last() == name[name.len() - 1]);
        assert(name.contains(name[name.len() - 1]));
        assert(p.drop_last() =~= before + name.drop_last());
        assert(!name.drop_last().contains('/')) by {
            if name.drop_last().contains('/') {
                let k = choose|k: int| 0 <= k < name.drop_last().len() && name.drop_last()[k] == '/';
                assert(name[k] == '/');
            }
        }
        lemma_last(before, name.drop_last());
    }
}

proof fn lemma_holds(before: Seq<char>, part: Seq<char>, after: Seq<char>)
    ensures
        holds_part(before + part + after, part),
{
    let whole = before + part + after;
    assert(whole.subrange(before.len() as int, before.len() as int + part.len()) =~= part);
}

/// What is told of a language names it, with what is known of it: what was
/// found instead, or why it did not start; and what is told of a file that
/// nobody claims names the file and its extension.
pub proof fn what_is_told_names_what_it_is_about(
    language: Seq<char>,
    why: Seq<char>,
    ext: Seq<char>,
    file: Seq<char>,
)
    ensures
        holds_part(unknown_text(language, why), language),
        holds_part(unknown_text(language, why), why),
        holds_part(waited_text(language, why), language),
        holds_part(waited_text(language, why), why),
        holds_part(panicked_text(language), language),
        holds_part(unclaimed_text(Some(ext), file), ext),
        holds_part(unclaimed_text(Some(ext), file), file),
        holds_part(unclaimed_text(None, file), file),
{
    let no = "no plugin was discovered for language \""@;
    let found = "\" (discovered: "@;
    lemma_holds(no, language, found + why + ")"@);
    assert(unknown_text(language, why) =~= no + language + (found + why + ")"@));
    lemma_holds(no + language + found, why, ")"@);
    let wait = "the in-progress spawn of the "@;
    let failed = " plugin this call waited on failed: "@;
    lemma_holds(wait, language, failed + why);
    assert(waited_text(language, why) =~= wait + language + (failed + why));
    lemma_holds(wait + language + failed, why, seq![]);
    assert(waited_text(language, why) =~= wait + language + failed + why + seq![]);
    lemma_holds(
        "the thread spawning the "@,
        language,
        " plugin panicked before it finished"@,
    );
    let claims = "g-mesh daemon: no installed plugin claims \""@;
    let seen = "\" files (first seen: "@;
    let not = ") - changes to them are not indexed; further \""@;
    let again = "\" files will not be reported again"@;
    lemma_holds(claims, ext, seen + file + not + ext + again);
    assert(unclaimed_text(Some(ext), file) =~= claims + ext + (seen + file + not + ext + again));
    lemma_holds(claims + ext + seen, file, not + ext + again);
    assert(unclaimed_text(Some(ext), file) =~= claims + ext + seen + file + (not + ext + again));
    lemma_holds(
        "g-mesh daemon: no installed plugin claims files without an extension (first seen: "@,
        file,
        ") - changes to them are not indexed; further extensionless files will not be reported again"@,
    );
}

/// Putting plugins to sleep leaves none that is due with a process; each of the
/// others keeps its own, and every plugin keeps what waits for it and whether
/// it is suspended.
pub proof fn sleeping_ends_what_is_due_and_nothing_else(
    before: Seq<(String, SupervisorSlot)>,
    after: Seq<(String, SupervisorSlot)>,
    now: Option<Duration>,
    m: Member,
    i: int,
)
    requires
        is_slept(before, after, now),
        0 <= i < before.len(),
        before[i].1 is Running,
    ensures
        after[i].0 == before[i].0,
        after[i].1 is Running,
        ({
            let s = before[i].1->Running_0;
            let t = after[i].1->Running_0;
            let due = now is None || (s.idle_timeout matches Some(timeout) && (now->0 >= s.last_activity
                + timeout || timeout == 0));
            &&& t.process == if due {
                None
            } else {
                s.process
            }
            &&& t@.dirty == s@.dirty
            &&& t.last_activity == s.last_activity
            &&& t.semantic_suspended == s.semantic_suspended
            &&& t.manifest == s.manifest
        }),
        !ending(after, now).contains(m),
{
    assert(after[i].0 == before[i].0);
    only_what_is_due_is_ended(after, now, m);
    if exists|k: int| #[trigger] is_put_to_sleep(after, k, now, m) {
        let k = choose|k: int| #[trigger] is_put_to_sleep(after, k, now, m);
        assert(after[k].0 == before[k].0);
    }
}

/// What was found is told as the languages in their order, or as none where
/// there is none.
pub proof fn what_was_found_is_told_in_order(registry: PluginRegistry)
    ensures
        registry.discovered.manifests@.len() == 0 ==> registry.found_text() == "none"@,
        registry.discovered.manifests@.len() > 0 ==> registry.found_text() == joined_with(
            sorted(languages(registry.discovered.manifests@)),
            ", "@,
        ),
{
}

} // verus!
