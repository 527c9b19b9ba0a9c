//! One supervisor per language, made when a file of that language is first
//! seen; which language a file goes to; and what is told of all of them.
//!
//! A language whose plugin is being started has a slot that says so, from
//! before the start until after it, so that nobody starts a second one and
//! nobody else has to wait. A start that failed leaves no trace: the next file
//! of that language tries again.

use vstd::prelude::*;
use vstd::string::*;

use crate::manifest::{
    can_compile, capable, excluded, extension_of, find_manifest, glob_accepts, glob_match,
    is_compilable, languages, routed_extension, semantic_pass_capable_languages, under_excluded_dir,
    Capabilities, DiscoveredPlugins, PluginManifest,
};
use crate::number::{decimal, decimal_text};
use crate::order::{
    dedup_texts, deduped, is_order, is_sorted, order_of, picked, sort_texts, sorted, sorted_is_in_order,
};
use crate::path::{anchor, bare, join, join_path, last_start, parent, PathStyle, Separation};
use crate::state_files::{plugin_pid_file_name, plugin_pid_name};
use crate::supervisor::{Plugin, PluginSupervisor};
use crate::text::{
    chars_of, contains_text, join_texts, joined_with, opt_text, opt_view, same, slice_text,
    strip_prefix, strip_suffix, trim, trimmed, views,
};
use crate::time::Duration;

verus! {

// ---------------------------------------------------------------------------
// What lies in a state directory
// ---------------------------------------------------------------------------
/// The language that a file's name encodes, between `plugin-` and `suffix`.
pub open spec fn encoded_language(name: Seq<char>, suffix: Seq<char>) -> Option<Seq<char>> {
    let prefix = "plugin-"@;
    if prefix.is_prefix_of(name) && suffix.is_suffix_of(name.skip(prefix.len() as int)) {
        Some(
            name.skip(prefix.len() as int).take(
                name.skip(prefix.len() as int).len() - suffix.len(),
            ),
        )
    } else {
        None
    }
}

/// The language that a file's name encodes.
fn language_in(name: &str, suffix: &str) -> (r: Option<String>)
    ensures
        opt_text(r) == encoded_language(name@, suffix@),
{
    match strip_prefix(name, "plugin-") {
        Some(rest) => strip_suffix(rest.as_str(), suffix),
        None => None,
    }
}

/// A language with a text: a path, or a reason.
pub struct Row {
    pub language: Seq<char>,
    pub text: Seq<char>,
}

/// What the pairs of a list say, in order.
pub open spec fn rows(pairs: Seq<(String, String)>) -> Seq<Row> {
    Seq::new(pairs.len(), |i: int| Row { language: pairs[i].0@, text: pairs[i].1@ })
}

/// The languages of rows, in order.
pub open spec fn row_languages(rs: Seq<Row>) -> Seq<Seq<char>> {
    Seq::new(rs.len(), |i: int| rs[i].language)
}

/// Whether `r` lists the rows `rs` in the order of their languages.
pub open spec fn lists_in_order(r: Seq<(String, String)>, rs: Seq<Row>) -> bool {
    exists|p: Seq<usize>| #[trigger] is_order(row_languages(rs), p) && rows(r) == picked(rs, p)
}

/// One entry of a state directory: its name, its path and what it says, where
/// that was read.
#[derive(Clone, Debug)]
pub struct StateEntry {
    pub name: String,
    pub path: String,
    pub contents: Option<String>,
}

/// The rows for the plugins' pid files among `entries`: each language with the
/// file's path.
pub open spec fn pid_rows(entries: Seq<StateEntry>) -> Seq<Row>
    decreases entries.len(),
{
    if entries.len() == 0 {
        seq![]
    } else {
        match encoded_language(entries.last().name@, ".pid"@) {
            Some(language) => pid_rows(entries.drop_last()).push(
                Row { language, text: entries.last().path@ },
            ),
            None => pid_rows(entries.drop_last()),
        }
    }
}

/// The rows for the suspension markers among `entries`: each language with the
/// marker's path.
pub open spec fn marker_rows(entries: Seq<StateEntry>) -> Seq<Row>
    decreases entries.len(),
{
    if entries.len() == 0 {
        seq![]
    } else {
        match encoded_language(entries.last().name@, ".suspended"@) {
            Some(language) => marker_rows(entries.drop_last()).push(
                Row { language, text: entries.last().path@ },
            ),
            None => marker_rows(entries.drop_last()),
        }
    }
}

/// What a marker says: its text without the white space around it, or that it
/// cannot be read.
pub open spec fn marker_reason(contents: Option<String>) -> Seq<char> {
    match contents {
        Some(text) => trimmed(text@),
        None => "(unreadable)"@,
    }
}

/// The rows for the suspension markers among `entries`: each language with the
/// reason the marker gives.
pub open spec fn reason_rows(entries: Seq<StateEntry>) -> Seq<Row>
    decreases entries.len(),
{
    if entries.len() == 0 {
        seq![]
    } else {
        match encoded_language(entries.last().name@, ".suspended"@) {
            Some(language) => reason_rows(entries.drop_last()).push(
                Row { language, text: marker_reason(entries.last().contents) },
            ),
            None => reason_rows(entries.drop_last()),
        }
    }
}

/// The pairs of a list in the order of their first texts.
fn by_language(pairs: &Vec<(String, String)>) -> (r: Vec<(String, String)>)
    ensures
        lists_in_order(r@, rows(pairs@)),
{
    let ghost rs = rows(pairs@);
    let mut keys: Vec<String> = Vec::new();
    let mut i: usize = 0;
    while i < pairs.len()
        invariant
            i <= pairs.len(),
            keys@.len() == i,
            forall|j: int| 0 <= j < i ==> (#[trigger] keys@[j])@ == pairs@[j].0@,
        decreases pairs.len() - i,
    {
        keys.push(pairs[i].0.clone());
        i += 1;
    }
    let order = order_of(&keys);
    proof {
        assert(views(keys@) =~= row_languages(rs));
    }
    let mut r: Vec<(String, String)> = Vec::new();
    let mut k: usize = 0;
    while k < order.len()
        invariant
            k <= order.len(),
            rs == rows(pairs@),
            is_order(row_languages(rs), order@),
            r@.len() == k,
            forall|j: int| 0 <= j < k ==> #[trigger] rows(r@)[j] == rs[order@[j] as int],
        decreases order.len() - k,
    {
        let ghost before = r@;
        let pair = &pairs[order[k]];
        r.push((pair.0.clone(), pair.1.clone()));
        proof {
            assert forall|j: int| 0 <= j < k + 1 implies #[trigger] rows(r@)[j] == rs[order@[j] as int] by {
                if j < k {
                    assert(rows(r@)[j] == rows(before)[j]);
                }
            }
        }
        k += 1;
    }
    proof {
        assert(rows(r@) =~= picked(rs, order@));
    }
    r
}

/// The plugins' pid files of a state directory, each with its language, in the
/// order of the languages.
pub fn discovered_pid_files(entries: &Vec<StateEntry>) -> (r: Vec<(String, String)>)
    ensures
        lists_in_order(r@, pid_rows(entries@)),
{
    let mut found: Vec<(String, String)> = Vec::new();
    let mut i: usize = 0;
    proof {
        assert(entries@.take(0) =~= seq![]);
        assert(rows(found@) =~= seq![]);
    }
    while i < entries.len()
        invariant
            i <= entries.len(),
            rows(found@) == pid_rows(entries@.take(i as int)),
        decreases entries.len() - i,
    {
        let ghost before = rows(found@);
        proof {
            assert(entries@.take(i + 1).drop_last() =~= entries@.take(i as int));
            assert(entries@.take(i + 1).last() == entries@[i as int]);
        }
        match language_in(entries[i].name.as_str(), ".pid") {
            Some(language) => {
                found.push((language, entries[i].path.clone()));
                proof {
                    assert(rows(found@) =~= before.push(
                        Row { language: language@, text: entries@[i as int].path@ },
                    ));
                }
            },
            None => {},
        }
        i += 1;
    }
    proof {
        assert(entries@.take(i as int) =~= entries@);
    }
    by_language(&found)
}

/// The suspension markers of a state directory, each with its language, in the
/// order of the languages.
pub fn discovered_suspended_marker_paths(entries: &Vec<StateEntry>) -> (r: Vec<(String, String)>)
    ensures
        lists_in_order(r@, marker_rows(entries@)),
{
    let mut found: Vec<(String, String)> = Vec::new();
    let mut i: usize = 0;
    proof {
        assert(entries@.take(0) =~= seq![]);
        assert(rows(found@) =~= seq![]);
    }
    while i < entries.len()
        invariant
            i <= entries.len(),
            rows(found@) == marker_rows(entries@.take(i as int)),
        decreases entries.len() - i,
    {
        let ghost before = rows(found@);
        proof {
            assert(entries@.take(i + 1).drop_last() =~= entries@.take(i as int));
            assert(entries@.take(i + 1).last() == entries@[i as int]);
        }
        match language_in(entries[i].name.as_str(), ".suspended") {
            Some(language) => {
                found.push((language, entries[i].path.clone()));
                proof {
                    assert(rows(found@) =~= before.push(
                        Row { language: language@, text: entries@[i as int].path@ },
                    ));
                }
            },
            None => {},
        }
        i += 1;
    }
    proof {
        assert(entries@.take(i as int) =~= entries@);
    }
    by_language(&found)
}

/// The languages that are suspended, each with the reason, in the order of the
/// languages.
pub fn discovered_suspended_markers(entries: &Vec<StateEntry>) -> (r: Vec<(String, String)>)
    ensures
        lists_in_order(r@, reason_rows(entries@)),
{
    let mut found: Vec<(String, String)> = Vec::new();
    let mut i: usize = 0;
    proof {
        assert(entries@.take(0) =~= seq![]);
        assert(rows(found@) =~= seq![]);
    }
    while i < entries.len()
        invariant
            i <= entries.len(),
            rows(found@) == reason_rows(entries@.take(i as int)),
        decreases entries.len() - i,
    {
        let ghost before = rows(found@);
        proof {
            assert(entries@.take(i + 1).drop_last() =~= entries@.take(i as int));
            assert(entries@.take(i + 1).last() == entries@[i as int]);
        }
        match language_in(entries[i].name.as_str(), ".suspended") {
            Some(language) => {
                let reason: String = match &entries[i].contents {
                    Some(text) => trim(text.as_str()),
                    None => "(unreadable)".to_owned(),
                };
                found.push((language, reason));
                proof {
                    assert(rows(found@) =~= before.push(
                        Row {
                            language: language@,
                            text: marker_reason(entries@[i as int].contents),
                        },
                    ));
                }
            },
            None => {},
        }
        i += 1;
    }
    proof {
        assert(entries@.take(i as int) =~= entries@);
    }
    by_language(&found)
}

/// The markers that a daemon removes as it starts: all of them, because no
/// daemon is left that remembers the suspensions.
pub fn clear_stale_suspension_markers(entries: &Vec<StateEntry>) -> (r: Vec<String>)
    ensures
        exists|p: Seq<usize>| #[trigger]
            is_order(row_languages(marker_rows(entries@)), p) && views(r@) == Seq::new(
                p.len(),
                |i: int| marker_rows(entries@)[p[i] as int].text,
            ),
{
    let found = discovered_suspended_marker_paths(entries);
    let mut r: Vec<String> = Vec::new();
    let mut i: usize = 0;
    while i < found.len()
        invariant
            i <= found.len(),
            r@.len() == i,
            forall|j: int| 0 <= j < i ==> (#[trigger] r@[j])@ == found@[j].1@,
        decreases found.len() - i,
    {
        r.push(found[i].1.clone());
        i += 1;
    }
    proof {
        let rs = marker_rows(entries@);
        let p = choose|p: Seq<usize>| #[trigger]
            is_order(row_languages(rs), p) && rows(found@) == picked(rs, p);
        assert(rows(found@).len() == picked(rs, p).len());
        assert forall|j: int| 0 <= j < found@.len() implies (#[trigger] found@[j]).1@
            == rs[p[j] as int].text by {
            assert(rows(found@)[j] == picked(rs, p)[j]);
        }
        assert(views(r@) =~= Seq::new(p.len(), |i: int| rs[p[i] as int].text));
    }
    r
}

/// A plugin's pid file is found under the language it was named after.
pub proof fn pid_files_are_found_by_their_language(language: Seq<char>)
    ensures
        encoded_language(plugin_pid_name(language), ".pid"@) == Some(language),
{
    let name = plugin_pid_name(language);
    let rest = name.skip("plugin-"@.len() as int);
    assert(name.take("plugin-"@.len() as int) =~= "plugin-"@);
    assert(rest =~= language + ".pid"@);
    assert(rest.skip(rest.len() - ".pid"@.len()) =~= ".pid"@);
    assert(rest.take(rest.len() - ".pid"@.len()) =~= language);
}

// ---------------------------------------------------------------------------
// Where a file goes
// ---------------------------------------------------------------------------
/// What follows the last separator of a path.
pub open spec fn last_segment(p: Seq<char>) -> Seq<char> {
    p.skip(last_start(p, 0, Separation::Slash) as int)
}

/// What follows the last separator of a path.
pub fn file_name_of(file_path: &str) -> (r: String)
    ensures
        r@ == last_segment(file_path@),
{
    let v = chars_of(file_path);
    let mut n: usize = v.len();
    proof {
        assert(file_path@.take(n as int) =~= file_path@);
    }
    while n > 0 && v[n - 1] != '/'
        invariant
            v@ == file_path@,
            n <= v.len(),
            last_start(file_path@, 0, Separation::Slash) == last_start(
                file_path@.take(n as int),
                0,
                Separation::Slash,
            ),
        decreases n,
    {
        proof {
            let p = file_path@.take(n as int);
            assert(p.last() == v@[n - 1]);
            assert(p.drop_last() =~= file_path@.take(n - 1));
        }
        n -= 1;
    }
    proof {
        if n > 0 {
            assert(file_path@.take(n as int).last() == v@[n - 1]);
        }
        assert(v@.subrange(n as int, v@.len() as int) =~= file_path@.skip(n as int));
    }
    slice_text(&v, n, v.len())
}

/// The languages that `hits` picks of those that do not exclude the file, in
/// the order of the manifests.
pub open spec fn hit_languages(ms: Seq<PluginManifest>, hits: Seq<bool>, file_path: Seq<char>) -> Seq<
    Seq<char>,
>
    decreases ms.len(),
{
    if ms.len() == 0 {
        seq![]
    } else {
        let rest = hit_languages(ms.drop_last(), hits.drop_last(), file_path);
        if hits.last() && !excluded(file_path, views(ms.last().workspace.exclude_dirs@)) {
            rest.push(ms.last().language@)
        } else {
            rest
        }
    }
}

/// Whether one of a plugin's patterns that hold no backslash matches a file
/// name.
pub open spec fn watches(m: PluginManifest, name: Seq<char>) -> bool {
    exists|k: int|
        0 <= k < m.workspace.watch_files@.len() && !(#[trigger] m.workspace.watch_files@[k])@.contains('\\')
            && glob_match(m.workspace.watch_files@[k]@, name)
}

/// Whether one of a plugin's patterns holds a backslash, so that what it
/// matches is not the same everywhere.
pub open spec fn has_local_pattern(m: PluginManifest) -> bool {
    exists|k: int|
        0 <= k < m.workspace.watch_files@.len() && (#[trigger] m.workspace.watch_files@[k])@.contains('\\')
}

/// Whether `hit` says whether one of a plugin's patterns matches a file name,
/// as far as that is the same everywhere: a pattern without a backslash that
/// matches is a hit, and a hit is such a pattern or the plugin has another
/// kind of pattern. Without patterns there is no hit.
pub open spec fn says(m: PluginManifest, name: Seq<char>, hit: bool) -> bool {
    &&& !name.contains('\\') && watches(m, name) ==> hit
    &&& !name.contains('\\') && hit ==> watches(m, name) || has_local_pattern(m)
    &&& hit ==> m.workspace.watch_files@.len() > 0
}

/// Whether every pattern is small enough to be compiled.
pub open spec fn all_compilable(ms: Seq<PluginManifest>) -> bool {
    forall|i: int, k: int|
        0 <= i < ms.len() && 0 <= k < ms[i].workspace.watch_files@.len() ==> is_compilable(
            (#[trigger] ms[i].workspace.watch_files@[k])@,
        )
}

/// Whether `hits` says of each plugin whether one of its patterns matches the
/// file's name, as far as that is the same everywhere.
pub open spec fn answers(ms: Seq<PluginManifest>, hits: Seq<bool>, file_path: Seq<char>) -> bool {
    &&& hits.len() == ms.len()
    &&& forall|i: int| 0 <= i < ms.len() ==> says(#[trigger] ms[i], last_segment(file_path), hits[i])
}

/// The languages a workspace file matters to, given which plugins' patterns
/// match its name: those whose patterns do and that do not exclude it, sorted.
pub fn workspace_languages(ms: &Vec<PluginManifest>, hits: &Vec<bool>, file_path: &str) -> (r: Vec<String>)
    requires
        hits@.len() == ms@.len(),
    ensures
        views(r@) == sorted(hit_languages(ms@, hits@, file_path@)),
{
    let mut found: Vec<String> = Vec::new();
    let mut i: usize = 0;
    proof {
        assert(ms@.take(0) =~= seq![]);
        assert(views(found@) =~= seq![]);
    }
    while i < ms.len()
        invariant
            i <= ms.len(),
            hits@.len() == ms@.len(),
            views(found@) == hit_languages(ms@.take(i as int), hits@.take(i as int), file_path@),
        decreases ms.len() - i,
    {
        let ghost before = views(found@);
        proof {
            assert(ms@.take(i + 1).drop_last() =~= ms@.take(i as int));
            assert(hits@.take(i + 1).drop_last() =~= hits@.take(i as int));
            assert(ms@.take(i + 1).last() == ms@[i as int]);
            assert(hits@.take(i + 1).last() == hits@[i as int]);
        }
        if hits[i] && !under_excluded_dir(file_path, &ms[i].workspace.exclude_dirs) {
            found.push(ms[i].language.clone());
            proof {
                assert(views(found@) =~= before.push(ms@[i as int].language@));
            }
        }
        i += 1;
    }
    proof {
        assert(ms@.take(i as int) =~= ms@);
        assert(hits@.take(i as int) =~= hits@);
    }
    sort_texts(&found)
}

/// Whether one of a plugin's patterns matches a file name.
fn is_watched(m: &PluginManifest, name: &str) -> (r: bool)
    requires
        forall|k: int|
            0 <= k < m.workspace.watch_files@.len() ==> is_compilable(
                (#[trigger] m.workspace.watch_files@[k])@,
            ),
    ensures
        says(*m, name@, r),
{
    let mut k: usize = 0;
    while k < m.workspace.watch_files.len()
        invariant
            k <= m.workspace.watch_files.len(),
            forall|j: int|
                0 <= j < m.workspace.watch_files@.len() ==> is_compilable(
                    (#[trigger] m.workspace.watch_files@[j])@,
                ),
            !name@.contains('\\') ==> forall|j: int|
                0 <= j < k && !(#[trigger] m.workspace.watch_files@[j])@.contains('\\') ==> !glob_match(
                    m.workspace.watch_files@[j]@,
                    name@,
                ),
        decreases m.workspace.watch_files.len() - k,
    {
        if glob_accepts(m.workspace.watch_files[k].as_str(), name) {
            return true;
        }
        k += 1;
    }
    false
}

/// The names of a list of manifests' entry points, one manifest after the
/// other.
pub open spec fn all_entry_points(ms: Seq<PluginManifest>) -> Seq<Seq<char>>
    decreases ms.len(),
{
    if ms.len() == 0 {
        seq![]
    } else {
        all_entry_points(ms.drop_last()) + views(ms.last().workspace.entry_points@)
    }
}

/// What is said of a file that no plugin claims, the first time its extension
/// is seen.
pub open spec fn unclaimed_text(ext: Option<Seq<char>>, file_path: Seq<char>) -> Seq<char> {
    match ext {
        Some(e) => "g-mesh daemon: no installed plugin claims \""@ + e + "\" files (first seen: "@
            + file_path + ") - changes to them are not indexed; further \""@ + e
            + "\" files will not be reported again"@,
        None => "g-mesh daemon: no installed plugin claims files without an extension (first seen: "@
            + file_path
            + ") - changes to them are not indexed; further extensionless files will not be reported again"@,
    }
}

/// What an extension is remembered as; a file without one has the empty one.
pub open spec fn remembered(ext: Option<Seq<char>>) -> Seq<char> {
    match ext {
        Some(e) => e,
        None => seq![],
    }
}

// ---------------------------------------------------------------------------
// The registry
// ---------------------------------------------------------------------------
/// What there is for a language: a plugin that runs or has run, or the start of
/// one under way.
#[derive(Debug)]
pub enum SupervisorSlot {
    Spawning,
    Running(PluginSupervisor),
}

/// The daemon's plugins: what was found, and which of them have been started.
#[derive(Debug)]
pub struct PluginRegistry {
    pub project_root: String,
    pub state_dir: String,
    /// How paths are spelt.
    pub style: PathStyle,
    pub discovered: DiscoveredPlugins,
    pub idle_timeout: Option<Duration>,
    pub memory_limit_mb: Option<u64>,
    pub supervisors: Vec<(String, SupervisorSlot)>,
    /// The extensions that were reported as unclaimed.
    pub unroutable: Vec<String>,
}

/// What there is for `language`: the first of its slots.
pub open spec fn slot_in(slots: Seq<(String, SupervisorSlot)>, language: Seq<char>) -> Option<
    SupervisorSlot,
>
    decreases slots.len(),
{
    if slots.len() == 0 {
        None
    } else {
        match slot_in(slots.drop_last(), language) {
            Some(slot) => Some(slot),
            None => if slots.last().0@ == language {
                Some(slots.last().1)
            } else {
                None
            },
        }
    }
}

proof fn lemma_slot_in(slots: Seq<(String, SupervisorSlot)>, language: Seq<char>, at: int)
    requires
        0 <= at <= slots.len(),
        forall|j: int| 0 <= j < at ==> (#[trigger] slots[j]).0@ != language,
        at < slots.len() ==> slots[at].0@ == language,
    ensures
        slot_in(slots, language) == if at < slots.len() {
            Some(slots[at].1)
        } else {
            None
        },
    decreases slots.len(),
{
    if slots.len() > 0 {
        let front = slots.drop_last();
        if at < front.len() {
            lemma_slot_in(front, language, at);
        } else {
            lemma_slot_in(front, language, front.len() as int);
        }
    }
}

/// Whether no language has two slots, and every supervisor is in order and in
/// the slot of its own language.
pub open spec fn slots_wf(slots: Seq<(String, SupervisorSlot)>) -> bool {
    &&& forall|i: int, j: int|
        0 <= i < j < slots.len() ==> (#[trigger] slots[i]).0@ != (#[trigger] slots[j]).0@
    &&& forall|i: int|
        0 <= i < slots.len() ==> match (#[trigger] slots[i]).1 {
            SupervisorSlot::Running(s) => s.wf() && s.manifest.language@ == slots[i].0@,
            SupervisorSlot::Spawning => true,
        }
}

/// What is to be done to have a language's plugin.
#[derive(Debug)]
pub enum GetOrSpawn {
    /// It is there.
    Running,
    /// Someone is starting it: wait for them.
    Wait,
    /// Start it, as the manifest at this index says, and record its pid here.
    Spawn { manifest: usize, pid_file: String },
    /// No plugin was found for the language.
    Unknown { message: String },
}

/// Whether `r` is what is to be done to have a language's plugin, and `after`
/// is what that makes of the slots: a language that has a plugin, and no slot,
/// gets one; nothing else changes.
pub open spec fn got(
    before: PluginRegistry,
    after: PluginRegistry,
    language: Seq<char>,
    r: GetOrSpawn,
) -> bool {
    let found = before.discovered.manifests@;
    match before.slot(language) {
        Some(SupervisorSlot::Running(_)) => r is Running && after.supervisors@ == before.supervisors@,
        Some(SupervisorSlot::Spawning) => r is Wait && after.supervisors@ == before.supervisors@,
        None => if languages(found).contains(language) {
            &&& r matches GetOrSpawn::Spawn { manifest, pid_file } && manifest < found.len()
                && found[manifest as int].language@ == language && pid_file@ == join(
                before.state_dir@,
                plugin_pid_name(language),
                before.style,
            )
            &&& after.supervisors@.len() == before.supervisors@.len() + 1
            &&& after.supervisors@.drop_last() == before.supervisors@
            &&& after.supervisors@.last().0@ == language
            &&& after.supervisors@.last().1 is Spawning
            &&& after.slot(language) == Some(SupervisorSlot::Spawning)
            &&& forall|other: Seq<char>|
                other != language ==> #[trigger] after.slot(other) == before.slot(other)
        } else {
            &&& r matches GetOrSpawn::Unknown { message } && message@ == unknown_text(
                language,
                before.found_text(),
            )
            &&& after.supervisors@ == before.supervisors@
        },
    }
}

/// Where a settled change goes.
#[derive(Clone, Debug)]
pub enum Route {
    /// To these languages' reindexes, because it shapes their workspaces.
    Workspace { languages: Vec<String> },
    /// To this language's plugin.
    Source { language: String },
    /// Nowhere: the language that claims it excludes it.
    Excluded,
    /// Nowhere: no plugin claims it. To be reported, the first time.
    Unclaimed { notice: Option<String> },
}

/// What a `Route` says.
pub enum Way {
    Workspace(Seq<Seq<char>>),
    Source(Seq<char>),
    Excluded,
    Unclaimed(Option<Seq<char>>),
}

impl View for Route {
    type V = Way;

    open spec fn view(&self) -> Way {
        match self {
            Route::Workspace { languages } => Way::Workspace(views(languages@)),
            Route::Source { language } => Way::Source(language@),
            Route::Excluded => Way::Excluded,
            Route::Unclaimed { notice } => Way::Unclaimed(opt_text(*notice)),
        }
    }
}

/// Where a changed source file goes, and which extensions have been reported
/// then; `known` are those that have been.
pub open spec fn source_way(d: DiscoveredPlugins, known: Seq<Seq<char>>, file_path: Seq<char>) -> (
    Way,
    Seq<Seq<char>>,
) {
    let ext = routed_extension(file_path, d.style);
    match d.indexer(file_path) {
        Some(language) => (Way::Source(language), known),
        None => if d.claimant(file_path) is Some {
            (Way::Excluded, known)
        } else if known.contains(remembered(ext)) {
            (Way::Unclaimed(None), known)
        } else {
            (Way::Unclaimed(Some(unclaimed_text(ext, file_path))), known.push(remembered(ext)))
        },
    }
}

impl PluginRegistry {
    /// Whether the slots are in order.
    pub open spec fn wf(self) -> bool {
        slots_wf(self.supervisors@)
    }

    /// What there is for a language.
    pub open spec fn slot(self, language: Seq<char>) -> Option<SupervisorSlot> {
        slot_in(self.supervisors@, language)
    }

    /// Whether nothing but the slots and what was reported differs.
    pub open spec fn is_same(self, other: PluginRegistry) -> bool {
        &&& self.project_root == other.project_root
        &&& self.state_dir == other.state_dir
        &&& self.style == other.style
        &&& self.discovered == other.discovered
        &&& self.idle_timeout == other.idle_timeout
        &&& self.memory_limit_mb == other.memory_limit_mb
    }

    /// A registry over what was found. Nothing is started.
    pub fn new(
        project_root: &str,
        state_dir: String,
        style: PathStyle,
        discovered: DiscoveredPlugins,
        idle_timeout: Option<Duration>,
        memory_limit_mb: Option<u64>,
    ) -> (r: Self)
        ensures
            r.wf(),
            r.project_root@ == project_root@,
            r.state_dir == state_dir,
            r.style == style,
            r.discovered == discovered,
            r.idle_timeout == idle_timeout,
            r.memory_limit_mb == memory_limit_mb,
            r.supervisors@.len() == 0,
            r.unroutable@.len() == 0,
    {
        PluginRegistry {
            project_root: project_root.to_owned(),
            state_dir,
            style,
            discovered,
            idle_timeout,
            memory_limit_mb,
            supervisors: Vec::new(),
            unroutable: Vec::new(),
        }
    }

    pub fn project_root(&self) -> (r: &str)
        ensures
            r@ == self.project_root@,
    {
        self.project_root.as_str()
    }

    /// The language whose plugin claims a file.
    pub fn language_for(&self, file_path: &str) -> (r: Option<&str>)
        ensures
            opt_view(r) == self.discovered.claimant(file_path@),
    {
        self.discovered.language_for(file_path)
    }

    /// Whether a plugin was found for a language.
    pub fn has_manifest(&self, language: &str) -> (r: bool)
        ensures
            r == languages(self.discovered.manifests@).contains(language@),
    {
        find_manifest(&self.discovered.manifests, language) < self.discovered.manifests.len()
    }

    /// Whether every pattern is small enough to be compiled.
    pub fn patterns_compile(&self) -> (r: bool)
        ensures
            r == all_compilable(self.discovered.manifests@),
    {
        let ms = &self.discovered.manifests;
        let mut i: usize = 0;
        while i < ms.len()
            invariant
                *ms == self.discovered.manifests,
                i <= ms.len(),
                forall|a: int, k: int|
                    0 <= a < i && 0 <= k < ms@[a].workspace.watch_files@.len() ==> is_compilable(
                        (#[trigger] ms@[a].workspace.watch_files@[k])@,
                    ),
            decreases ms.len() - i,
        {
            let mut k: usize = 0;
            while k < ms[i].workspace.watch_files.len()
                invariant
                    *ms == self.discovered.manifests,
                    i < ms.len(),
                    k <= ms@[i as int].workspace.watch_files@.len(),
                    forall|j: int|
                        0 <= j < k ==> is_compilable(
                            (#[trigger] ms@[i as int].workspace.watch_files@[j])@,
                        ),
                decreases ms@[i as int].workspace.watch_files@.len() - k,
            {
                if !can_compile(ms[i].workspace.watch_files[k].as_str()) {
                    proof {
                        assert(!is_compilable(ms@[i as int].workspace.watch_files@[k as int]@));
                    }
                    return false;
                }
                k += 1;
            }
            i += 1;
        }
        true
    }

    /// The languages a changed file matters to as a part of their workspace,
    /// sorted: those with a pattern for its name that do not exclude it.
    pub fn workspace_language_matches(&self, file_path: &str) -> (r: Vec<String>)
        requires
            all_compilable(self.discovered.manifests@),
        ensures
            exists|hits: Seq<bool>| #[trigger]
                answers(self.discovered.manifests@, hits, file_path@) && views(r@) == sorted(
                    hit_languages(self.discovered.manifests@, hits, file_path@),
                ),
    {
        let name = file_name_of(file_path);
        let ms = &self.discovered.manifests;
        let mut hits: Vec<bool> = Vec::new();
        let mut i: usize = 0;
        while i < ms.len()
            invariant
                *ms == self.discovered.manifests,
                all_compilable(ms@),
                name@ == last_segment(file_path@),
                i <= ms.len(),
                hits@.len() == i,
                forall|j: int| 0 <= j < i ==> says(#[trigger] ms@[j], name@, hits@[j]),
            decreases ms.len() - i,
        {
            let hit: bool = is_watched(&ms[i], name.as_str());
            hits.push(hit);
            i += 1;
        }
        proof {
            assert(answers(self.discovered.manifests@, hits@, file_path@));
        }
        workspace_languages(ms, &hits, file_path)
    }

    /// Every name that a directory's main file has for some plugin, sorted,
    /// each once.
    pub fn entry_points(&self) -> (r: Vec<String>)
        ensures
            views(r@) == deduped(sorted(all_entry_points(self.discovered.manifests@))),
    {
        let ms = &self.discovered.manifests;
        let mut points: Vec<String> = Vec::new();
        let mut i: usize = 0;
        proof {
            assert(ms@.take(0) =~= seq![]);
            assert(views(points@) =~= seq![]);
        }
        while i < ms.len()
            invariant
                *ms == self.discovered.manifests,
                i <= ms.len(),
                views(points@) == all_entry_points(ms@.take(i as int)),
            decreases ms.len() - i,
        {
            let ghost before = views(points@);
            let mut own = crate::text::copy_texts(&ms[i].workspace.entry_points);
            points.append(&mut own);
            proof {
                assert(ms@.take(i + 1).drop_last() =~= ms@.take(i as int));
                assert(ms@.take(i + 1).last() == ms@[i as int]);
                assert(views(points@) =~= before + views(ms@[i as int].workspace.entry_points@));
            }
            i += 1;
        }
        proof {
            assert(ms@.take(i as int) =~= ms@);
        }
        dedup_texts(&sort_texts(&points))
    }

    /// What every plugin can do, by its language.
    pub fn receiver_call_capabilities(&self) -> (r: Vec<(String, Capabilities)>)
        ensures
            r@.len() == self.discovered.manifests@.len(),
            forall|i: int|
                0 <= i < r@.len() ==> (#[trigger] r@[i]).0@ == self.discovered.manifests@[i].language@
                    && r@[i].1 == self.discovered.manifests@[i].capabilities,
    {
        let ms = &self.discovered.manifests;
        let mut r: Vec<(String, Capabilities)> = Vec::new();
        let mut i: usize = 0;
        while i < ms.len()
            invariant
                *ms == self.discovered.manifests,
                i <= ms.len(),
                r@.len() == i,
                forall|j: int|
                    0 <= j < i ==> (#[trigger] r@[j]).0@ == ms@[j].language@ && r@[j].1
                        == ms@[j].capabilities,
            decreases ms.len() - i,
        {
            r.push((ms[i].language.clone(), ms[i].capabilities));
            i += 1;
        }
        r
    }

    /// The languages that can run a semantic pass, sorted.
    pub fn semantic_pass_languages(&self) -> (r: Vec<String>)
        ensures
            views(r@) == sorted(capable(self.discovered.manifests@)),
    {
        semantic_pass_capable_languages(&self.discovered.manifests)
    }

    /// Where the pid of a language's plugin is recorded.
    pub fn pid_file_for(&self, language: &str) -> (r: String)
        ensures
            r@ == join(self.state_dir@, plugin_pid_name(language@), self.style),
            self.style == PathStyle::Unix ==> parent(r@, self.style) is Some,
    {
        proof {
            lemma_pid_file_has_parent(self.state_dir@, language@);
        }
        join_path(self.state_dir.as_str(), plugin_pid_file_name(language).as_str(), self.style)
    }

    /// The languages that were found, for a message: sorted, or that there is
    /// none.
    pub open spec fn found_text(self) -> Seq<char> {
        if self.discovered.manifests@.len() == 0 {
            "none"@
        } else {
            joined_with(sorted(languages(self.discovered.manifests@)), ", "@)
        }
    }

    fn discovered_languages(&self) -> (r: String)
        ensures
            r@ == self.found_text(),
    {
        let ms = &self.discovered.manifests;
        if ms.len() == 0 {
            return "none".to_owned();
        }
        let mut names: Vec<String> = Vec::new();
        let mut i: usize = 0;
        while i < ms.len()
            invariant
                *ms == self.discovered.manifests,
                i <= ms.len(),
                names@.len() == i,
                forall|j: int| 0 <= j < i ==> (#[trigger] names@[j])@ == ms@[j].language@,
            decreases ms.len() - i,
        {
            names.push(ms[i].language.clone());
            i += 1;
        }
        proof {
            assert(views(names@) =~= languages(ms@));
        }
        join_texts(&sort_texts(&names), ", ")
    }

    /// What is said of a file that no plugin claims; nothing if its extension
    /// has been reported.
    pub fn unroutable_notice(&mut self, file_path: &str) -> (r: Option<String>)
        ensures
            final(self).is_same(*old(self)),
            final(self).supervisors == old(self).supervisors,
            ({
                let ext = routed_extension(file_path@, old(self).discovered.style);
                let known = views(old(self).unroutable@);
                if known.contains(remembered(ext)) {
                    r is None && views(final(self).unroutable@) == known
                } else {
                    r is Some && r->0@ == unclaimed_text(ext, file_path@) && views(
                        final(self).unroutable@,
                    ) == known.push(remembered(ext))
                }
            }),
    {
        let ext = extension_of(file_path, self.discovered.style);
        let key: String = match &ext {
            Some(e) => e.clone(),
            None => String::new(),
        };
        proof {
            assert(key@ =~= remembered(opt_text(ext)));
        }
        if contains_text(&self.unroutable, key.as_str()) {
            return None;
        }
        let ghost before = views(self.unroutable@);
        self.unroutable.push(key);
        proof {
            assert(views(self.unroutable@) =~= before.push(key@));
        }
        let mut notice: String;
        match &ext {
            Some(e) => {
                notice = "g-mesh daemon: no installed plugin claims \"".to_owned();
                notice.append(e.as_str());
                notice.append("\" files (first seen: ");
                notice.append(file_path);
                notice.append(") - changes to them are not indexed; further \"");
                notice.append(e.as_str());
                notice.append("\" files will not be reported again");
            },
            None => {
                notice =
                "g-mesh daemon: no installed plugin claims files without an extension (first seen: ".to_owned();
                notice.append(file_path);
                notice.append(
                    ") - changes to them are not indexed; further extensionless files will not be reported again",
                );
            },
        }
        Some(notice)
    }

    /// Where a changed source file goes: to the language that indexes it, or
    /// nowhere.
    pub fn file_changed(&mut self, file_path: &str) -> (r: Route)
        ensures
            final(self).is_same(*old(self)),
            final(self).supervisors == old(self).supervisors,
            (r@, views(final(self).unroutable@)) == source_way(
                old(self).discovered,
                views(old(self).unroutable@),
                file_path@,
            ),
    {
        if self.discovered.language_for(file_path).is_none() {
            let notice = self.unroutable_notice(file_path);
            return Route::Unclaimed { notice };
        }
        match self.discovered.indexing_language(file_path) {
            Some(language) => Route::Source { language: language.to_owned() },
            None => Route::Excluded,
        }
    }

    /// Where a settled change goes: a file that shapes workspaces goes to their
    /// languages and nowhere else, any other file to the language that indexes
    /// it.
    pub fn route_settled_path(&mut self, file_path: &str) -> (r: Route)
        requires
            all_compilable(old(self).discovered.manifests@),
        ensures
            final(self).is_same(*old(self)),
            final(self).supervisors == old(self).supervisors,
            exists|hits: Seq<bool>| #[trigger]
                answers(old(self).discovered.manifests@, hits, file_path@) && ({
                    let matched = sorted(
                        hit_languages(old(self).discovered.manifests@, hits, file_path@),
                    );
                    (r@, views(final(self).unroutable@)) == (if matched.len() > 0 {
                        (Way::Workspace(matched), views(old(self).unroutable@))
                    } else {
                        source_way(
                            old(self).discovered,
                            views(old(self).unroutable@),
                            file_path@,
                        )
                    })
                }),
    {
        let matched = self.workspace_language_matches(file_path);
        if matched.len() > 0 {
            return Route::Workspace { languages: matched };
        }
        self.file_changed(file_path)
    }
}

proof fn lemma_pid_file_has_parent(dir: Seq<char>, language: Seq<char>)
    ensures
        parent(join(dir, plugin_pid_name(language), PathStyle::Unix), PathStyle::Unix) is Some,
{
    reveal_strlit("plugin-");
    reveal_strlit(".pid");
    let name = plugin_pid_name(language);
    let p = join(dir, name, PathStyle::Unix);
    assert(name.len() >= 11);
    assert(p.last() == name.last());
    assert(name.last() == 'd');
    assert(bare(p, anchor(p, PathStyle::Unix), Separation::Slash) == p);
}

// ---------------------------------------------------------------------------
// Starting plugins
// ---------------------------------------------------------------------------
/// What a language without a plugin is reported as.
pub open spec fn unknown_text(language: Seq<char>, found: Seq<char>) -> Seq<char> {
    "no plugin was discovered for language \""@ + language + "\" (discovered: "@ + found + ")"@
}

/// What a start is reported as to those who waited for it and that failed.
pub open spec fn waited_text(language: Seq<char>, why: Seq<char>) -> Seq<char> {
    "the in-progress spawn of the "@ + language + " plugin this call waited on failed: "@ + why
}

/// What a start is reported as that was never finished.
pub open spec fn panicked_text(language: Seq<char>) -> Seq<char> {
    "the thread spawning the "@ + language + " plugin panicked before it finished"@
}

/// What someone who waited for a start is told that failed.
pub fn waited_failure(language: &str, why: &str) -> (r: String)
    ensures
        r@ == waited_text(language@, why@),
{
    let mut r: String = "the in-progress spawn of the ".to_owned();
    r.append(language);
    r.append(" plugin this call waited on failed: ");
    r.append(why);
    r
}

impl PluginRegistry {
    /// The index of a language's slot; their number if it has none.
    fn find_slot(&self, language: &str) -> (at: usize)
        ensures
            at <= self.supervisors@.len(),
            self.slot(language@) == (if at < self.supervisors@.len() {
                Some(self.supervisors@[at as int].1)
            } else {
                None
            }),
            at < self.supervisors@.len() ==> self.supervisors@[at as int].0@ == language@,
            forall|j: int| 0 <= j < at ==> (#[trigger] self.supervisors@[j]).0@ != language@,
    {
        let mut at: usize = 0;
        while at < self.supervisors.len()
            invariant
                at <= self.supervisors.len(),
                forall|j: int| 0 <= j < at ==> (#[trigger] self.supervisors@[j]).0@ != language@,
            decreases self.supervisors.len() - at,
        {
            if same(self.supervisors[at].0.as_str(), language) {
                proof {
                    lemma_slot_in(self.supervisors@, language@, at as int);
                }
                return at;
            }
            at += 1;
        }
        proof {
            lemma_slot_in(self.supervisors@, language@, at as int);
        }
        at
    }

    /// What is to be done to have a language's plugin. Whoever is told to start
    /// it has its slot, and has to settle it; nobody else is told so meanwhile.
    pub fn get_or_spawn(&mut self, language: &str) -> (r: GetOrSpawn)
        requires
            old(self).wf(),
        ensures
            final(self).wf(),
            final(self).is_same(*old(self)),
            final(self).unroutable == old(self).unroutable,
            got(*old(self), *final(self), language@, r),
    {
        let at = self.find_slot(language);
        if at < self.supervisors.len() {
            return match &self.supervisors[at].1 {
                SupervisorSlot::Running(_) => GetOrSpawn::Running,
                SupervisorSlot::Spawning => GetOrSpawn::Wait,
            };
        }
        let manifest = find_manifest(&self.discovered.manifests, language);
        if manifest == self.discovered.manifests.len() {
            let mut message: String = "no plugin was discovered for language \"".to_owned();
            message.append(language);
            message.append("\" (discovered: ");
            message.append(self.discovered_languages().as_str());
            message.append(")");
            return GetOrSpawn::Unknown { message };
        }
        let pid_file = self.pid_file_for(language);
        let ghost before = self.supervisors@;
        self.supervisors.push((language.to_owned(), SupervisorSlot::Spawning));
        proof {
            assert(self.supervisors@.drop_last() =~= before);
        }
        GetOrSpawn::Spawn { manifest, pid_file }
    }

    /// A start is over. A plugin that is there is what everyone gets from now
    /// on; a failure leaves no slot, so that the next one tries again.
    pub fn settle(&mut self, language: &str, spawned: Result<PluginSupervisor, String>)
        requires
            old(self).wf(),
            spawned matches Ok(s) ==> s.wf() && s.manifest.language@ == language@,
        ensures
            final(self).wf(),
            final(self).is_same(*old(self)),
            final(self).unroutable == old(self).unroutable,
            final(self).slot(language@) == (match spawned {
                Ok(s) => Some(SupervisorSlot::Running(s)),
                Err(_) => None,
            }),
            forall|other: Seq<char>|
                other != language@ ==> #[trigger] final(self).slot(other) == old(self).slot(other),
    {
        self.forget(language);
        let ghost cleared = *self;
        match spawned {
            Ok(s) => {
                let ghost before = self.supervisors@;
                proof {
                    assert forall|j: int| 0 <= j < before.len() implies (#[trigger] before[j]).0@
                        != language@ by {
                        if before[j].0@ == language@ {
                            lemma_first_slot(before, language@, j);
                        }
                    }
                }
                self.supervisors.push((language.to_owned(), SupervisorSlot::Running(s)));
                proof {
                    let after = self.supervisors@;
                    assert(after.drop_last() =~= before);
                    assert forall|other: Seq<char>| other != language@ implies #[trigger] slot_in(
                        after,
                        other,
                    ) == old(self).slot(other) by {
                        assert(after.last().0@ == language@);
                        assert(cleared.slot(other) == slot_in(before, other));
                    }
                }
            },
            Err(_) => {},
        }
    }

    /// A start was never finished: its slot goes, and those who waited for it
    /// are told this.
    pub fn abandon(&mut self, language: &str) -> (r: String)
        requires
            old(self).wf(),
        ensures
            final(self).wf(),
            final(self).is_same(*old(self)),
            final(self).unroutable == old(self).unroutable,
            final(self).slot(language@) is None,
            forall|other: Seq<char>|
                other != language@ ==> #[trigger] final(self).slot(other) == old(self).slot(other),
            r@ == panicked_text(language@),
    {
        self.forget(language);
        let mut r: String = "the thread spawning the ".to_owned();
        r.append(language);
        r.append(" plugin panicked before it finished");
        r
    }

    fn forget(&mut self, language: &str)
        requires
            old(self).wf(),
        ensures
            final(self).wf(),
            final(self).is_same(*old(self)),
            final(self).unroutable == old(self).unroutable,
            final(self).slot(language@) is None,
            forall|other: Seq<char>|
                other != language@ ==> #[trigger] final(self).slot(other) == old(self).slot(other),
    {
        let at = self.find_slot(language);
        if at < self.supervisors.len() {
            let ghost before = self.supervisors@;
            self.supervisors.remove(at);
            proof {
                let after = self.supervisors@;
                assert(after == before.remove(at as int));
                assert forall|j: int| 0 <= j < after.len() implies (#[trigger] after[j]).0@ != language@ by {
                    let b = if j < at { j } else { j + 1 };
                    assert(after[j] == before[b]);
                    if b < at {
                        assert(before[b].0@ != before[at as int].0@);
                    } else {
                        assert(before[at as int].0@ != before[b].0@);
                    }
                }
                lemma_slot_in(after, language@, after.len() as int);
                assert forall|other: Seq<char>| other != language@ implies #[trigger] slot_in(after, other)
                    == slot_in(before, other) by {
                    lemma_slot_removed(before, at as int, other);
                }
                assert(slots_wf(after)) by {
                    assert forall|i: int, j: int| 0 <= i < j < after.len() implies (
                    #[trigger] after[i]).0@ != (#[trigger] after[j]).0@ by {
                        let bi = if i < at { i } else { i + 1 };
                        let bj = if j < at { j } else { j + 1 };
                        assert(before[bi].0@ != before[bj].0@);
                    }
                    assert forall|i: int| 0 <= i < after.len() implies match (#[trigger] after[i]).1 {
                        SupervisorSlot::Running(s) => s.wf() && s.manifest.language@ == after[i].0@,
                        SupervisorSlot::Spawning => true,
                    } by {
                        let b = if i < at { i } else { i + 1 };
                        assert(after[i] == before[b]);
                    }
                }
            }
        }
    }

    /// The supervisor of a language whose plugin has been started.
    pub fn supervisor_mut(&mut self, language: &str) -> (r: Option<&mut PluginSupervisor>)
        requires
            old(self).wf(),
        ensures
            match r {
                Some(s) => {
                    &&& old(self).slot(language@) == Some(SupervisorSlot::Running(*s))
                    &&& s.wf()
                    &&& s.manifest.language@ == language@
                    &&& final(self).is_same(*old(self))
                    &&& final(self).unroutable == old(self).unroutable
                    &&& final(self).slot(language@) == Some(SupervisorSlot::Running(*final(s)))
                    &&& forall|other: Seq<char>|
                        other != language@ ==> #[trigger] final(self).slot(other) == old(self).slot(other)
                    &&& final(s).wf() && final(s).is_same(*s) ==> final(self).wf()
                },
                None => {
                    &&& !(old(self).slot(language@) matches Some(SupervisorSlot::Running(s)))
                    &&& final(self).is_same(*old(self))
                    &&& final(self).unroutable == old(self).unroutable
                    &&& final(self).supervisors@ == old(self).supervisors@
                },
            },
    {
        let at = self.find_slot(language);
        if at == self.supervisors.len() {
            return None;
        }
        let ghost before = self.supervisors@;
        proof {
            let last = before[at as int].0;
            assert forall|slot: SupervisorSlot|
                slot_in(#[trigger] before.update(at as int, (last, slot)), language@) == Some(slot) by {
                lemma_slot_in(before.update(at as int, (last, slot)), language@, at as int);
            }
            assert forall|slot: SupervisorSlot, other: Seq<char>|
                other != language@ implies #[trigger] slot_in(
                before.update(at as int, (last, slot)),
                other,
            ) == slot_in(before, other) by {
                lemma_slot_updated(before, at as int, slot, other);
            }
            assert forall|t: PluginSupervisor|
                t.wf() && t.manifest.language@ == language@ implies slots_wf(
                #[trigger] before.update(at as int, (last, SupervisorSlot::Running(t))),
            ) by {
                let after = before.update(at as int, (last, SupervisorSlot::Running(t)));
                assert forall|i: int| 0 <= i < after.len() implies match (#[trigger] after[i]).1 {
                    SupervisorSlot::Running(u) => u.wf() && u.manifest.language@ == after[i].0@,
                    SupervisorSlot::Spawning => true,
                } by {
                    if i != at {
                        assert(after[i] == before[i]);
                    }
                }
                assert forall|i: int, j: int| 0 <= i < j < after.len() implies (#[trigger] after[i]).0@
                    != (#[trigger] after[j]).0@ by {
                    assert(after[i].0 == before[i].0 && after[j].0 == before[j].0);
                }
            }
            assert(match before[at as int].1 {
                SupervisorSlot::Running(u) => u.wf() && u.manifest.language@ == language@,
                SupervisorSlot::Spawning => true,
            });
        }
        self.at_mut(at)
    }

    fn at_mut(&mut self, at: usize) -> (r: Option<&mut PluginSupervisor>)
        requires
            at < old(self).supervisors@.len(),
        ensures
            match r {
                Some(s) => {
                    &&& old(self).supervisors@[at as int].1 == SupervisorSlot::Running(*s)
                    &&& final(self).is_same(*old(self))
                    &&& final(self).unroutable == old(self).unroutable
                    &&& final(self).supervisors@ == old(self).supervisors@.update(
                        at as int,
                        (old(self).supervisors@[at as int].0, SupervisorSlot::Running(*final(s))),
                    )
                },
                None => {
                    &&& old(self).supervisors@[at as int].1 is Spawning
                    &&& final(self).is_same(*old(self))
                    &&& final(self).unroutable == old(self).unroutable
                    &&& final(self).supervisors@ == old(self).supervisors@
                },
            },
    {
        match &mut self.supervisors[at].1 {
            SupervisorSlot::Running(s) => Some(s),
            SupervisorSlot::Spawning => None,
        }
    }
}

proof fn lemma_first_slot(slots: Seq<(String, SupervisorSlot)>, language: Seq<char>, at: int)
    requires
        0 <= at < slots.len(),
        slots[at].0@ == language,
    ensures
        slot_in(slots, language) is Some,
    decreases slots.len(),
{
    if at < slots.len() - 1 {
        lemma_first_slot(slots.drop_last(), language, at);
    }
}

proof fn lemma_slot_removed(slots: Seq<(String, SupervisorSlot)>, at: int, other: Seq<char>)
    requires
        0 <= at < slots.len(),
        slots[at].0@ != other,
    ensures
        slot_in(slots.remove(at), other) == slot_in(slots, other),
    decreases slots.len(),
{
    let after = slots.remove(at);
    if at == slots.len() - 1 {
        assert(after =~= slots.drop_last());
    } else {
        lemma_slot_removed(slots.drop_last(), at, other);
        assert(after.drop_last() =~= slots.drop_last().remove(at));
        assert(after.last() == slots.last());
    }
}

proof fn lemma_slot_updated(
    slots: Seq<(String, SupervisorSlot)>,
    at: int,
    slot: SupervisorSlot,
    other: Seq<char>,
)
    requires
        0 <= at < slots.len(),
        slots[at].0@ != other,
    ensures
        slot_in(slots.update(at, (slots[at].0, slot)), other) == slot_in(slots, other),
    decreases slots.len(),
{
    let after = slots.update(at, (slots[at].0, slot));
    if at == slots.len() - 1 {
        assert(after.drop_last() =~= slots.drop_last());
    } else {
        lemma_slot_updated(slots.drop_last(), at, slot, other);
        assert(after.drop_last() =~= slots.drop_last().update(at, (slots[at].0, slot)));
    }
}

// ---------------------------------------------------------------------------
// All plugins together
// ---------------------------------------------------------------------------
/// The languages whose plugins have been started, in the order of their slots.
pub open spec fn started(slots: Seq<(String, SupervisorSlot)>) -> Seq<Seq<char>>
    decreases slots.len(),
{
    if slots.len() == 0 {
        seq![]
    } else if slots.last().1 is Running {
        started(slots.drop_last()).push(slots.last().0@)
    } else {
        started(slots.drop_last())
    }
}

/// The languages whose plugins are being started, in the order of their slots.
pub open spec fn starting(slots: Seq<(String, SupervisorSlot)>) -> Seq<Seq<char>>
    decreases slots.len(),
{
    if slots.len() == 0 {
        seq![]
    } else if slots.last().1 is Spawning {
        starting(slots.drop_last()).push(slots.last().0@)
    } else {
        starting(slots.drop_last())
    }
}

/// What is told of a language that changes wait for.
pub open spec fn waiting_text(language: Seq<char>, count: nat) -> Seq<char> {
    language + " ("@ + decimal(count) + " "@ + (if count == 1 {
        "file"@
    } else {
        "files"@
    }) + ")"@
}

/// What is told of the languages that changes wait for, in the order of their
/// slots.
pub open spec fn waiting(slots: Seq<(String, SupervisorSlot)>) -> Seq<Seq<char>>
    decreases slots.len(),
{
    if slots.len() == 0 {
        seq![]
    } else {
        let rest = waiting(slots.drop_last());
        match slots.last().1 {
            SupervisorSlot::Running(s) => if s@.dirty.len() > 0 {
                rest.push(waiting_text(s.manifest.language@, s@.dirty.len()))
            } else {
                rest
            },
            SupervisorSlot::Spawning => rest,
        }
    }
}

/// A process with the language of its plugin.
pub struct Member {
    pub language: Seq<char>,
    pub pid: u32,
}

/// What the pairs of a list say, in order.
pub open spec fn members(pairs: Seq<(String, u32)>) -> Seq<Member> {
    Seq::new(pairs.len(), |i: int| Member { language: pairs[i].0@, pid: pairs[i].1 })
}

/// Whether a plugin is to sleep: at a given time if it is idle then, and
/// otherwise in any case.
pub open spec fn is_to_sleep(s: PluginSupervisor, now: Option<Duration>) -> bool {
    match now {
        Some(n) => s.is_idle(n),
        None => true,
    }
}

/// The processes that end where plugins go to sleep, in the order of their
/// slots.
pub open spec fn ending(slots: Seq<(String, SupervisorSlot)>, now: Option<Duration>) -> Seq<Member>
    decreases slots.len(),
{
    if slots.len() == 0 {
        seq![]
    } else {
        let rest = ending(slots.drop_last(), now);
        match slots.last().1 {
            SupervisorSlot::Running(s) => if is_to_sleep(s, now) && s@.process is Some {
                rest.push(Member { language: slots.last().0@, pid: s@.process->0 })
            } else {
                rest
            },
            SupervisorSlot::Spawning => rest,
        }
    }
}

/// Whether `after` is `before` with the plugins asleep that are to sleep, and
/// everything else as it was.
pub open spec fn is_slept(
    before: Seq<(String, SupervisorSlot)>,
    after: Seq<(String, SupervisorSlot)>,
    now: Option<Duration>,
) -> bool {
    &&& after.len() == before.len()
    &&& forall|i: int|
        0 <= i < before.len() ==> (#[trigger] after[i]).0 == before[i].0 && match before[i].1 {
            SupervisorSlot::Running(s) => {
                &&& after[i].1 matches SupervisorSlot::Running(t) && t.is_same(s) && t.wf() && t@
                    == (if is_to_sleep(s, now) {
                    Plugin { process: None, ..s@ }
                } else {
                    s@
                })
            },
            SupervisorSlot::Spawning => after[i].1 is Spawning,
        }
}

/// The processes whose memory is to be sampled, in the order of their slots.
pub open spec fn sampled(slots: Seq<(String, SupervisorSlot)>) -> Seq<Member>
    decreases slots.len(),
{
    if slots.len() == 0 {
        seq![]
    } else {
        let rest = sampled(slots.drop_last());
        match slots.last().1 {
            SupervisorSlot::Running(s) => if s.memory_limit_mb is Some && s@.process is Some {
                rest.push(Member { language: slots.last().0@, pid: s@.process->0 })
            } else {
                rest
            },
            SupervisorSlot::Spawning => rest,
        }
    }
}

/// What is to be done before a file is answered about.
#[derive(Debug)]
pub enum FreshRoute {
    /// No plugin claims it: there is nothing to check.
    Unclaimed,
    /// What the index says is current; no plugin is started for it.
    AlreadyFresh,
    /// Have this language's plugin reindex it.
    Ask { language: String, plugin: GetOrSpawn },
}

impl PluginRegistry {
    /// The languages whose plugins have been started. One whose start is under
    /// way is not among them, and nobody waits for it here.
    pub fn active_supervisors(&self) -> (r: Vec<String>)
        ensures
            views(r@) == started(self.supervisors@),
    {
        let mut r: Vec<String> = Vec::new();
        let mut i: usize = 0;
        proof {
            assert(self.supervisors@.take(0) =~= seq![]);
            assert(views(r@) =~= seq![]);
        }
        while i < self.supervisors.len()
            invariant
                i <= self.supervisors.len(),
                views(r@) == started(self.supervisors@.take(i as int)),
            decreases self.supervisors.len() - i,
        {
            let ghost before = views(r@);
            proof {
                assert(self.supervisors@.take(i + 1).drop_last() =~= self.supervisors@.take(i as int));
                assert(self.supervisors@.take(i + 1).last() == self.supervisors@[i as int]);
            }
            match &self.supervisors[i].1 {
                SupervisorSlot::Running(_) => {
                    r.push(self.supervisors[i].0.clone());
                    proof {
                        assert(views(r@) =~= before.push(self.supervisors@[i as int].0@));
                    }
                },
                SupervisorSlot::Spawning => {},
            }
            i += 1;
        }
        proof {
            assert(self.supervisors@.take(i as int) =~= self.supervisors@);
        }
        r
    }

    /// The languages whose plugins are being started: a core on its way out
    /// waits for these before it stops everything.
    pub fn in_flight(&self) -> (r: Vec<String>)
        ensures
            views(r@) == starting(self.supervisors@),
    {
        let mut r: Vec<String> = Vec::new();
        let mut i: usize = 0;
        proof {
            assert(self.supervisors@.take(0) =~= seq![]);
            assert(views(r@) =~= seq![]);
        }
        while i < self.supervisors.len()
            invariant
                i <= self.supervisors.len(),
                views(r@) == starting(self.supervisors@.take(i as int)),
            decreases self.supervisors.len() - i,
        {
            let ghost before = views(r@);
            proof {
                assert(self.supervisors@.take(i + 1).drop_last() =~= self.supervisors@.take(i as int));
                assert(self.supervisors@.take(i + 1).last() == self.supervisors@[i as int]);
            }
            match &self.supervisors[i].1 {
                SupervisorSlot::Spawning => {
                    r.push(self.supervisors[i].0.clone());
                    proof {
                        assert(views(r@) =~= before.push(self.supervisors@[i as int].0@));
                    }
                },
                SupervisorSlot::Running(_) => {},
            }
            i += 1;
        }
        proof {
            assert(self.supervisors@.take(i as int) =~= self.supervisors@);
        }
        r
    }

    fn sleep_where(&mut self, now: Option<Duration>) -> (r: Vec<(String, u32)>)
        requires
            old(self).wf(),
        ensures
            final(self).wf(),
            final(self).is_same(*old(self)),
            final(self).unroutable == old(self).unroutable,
            is_slept(old(self).supervisors@, final(self).supervisors@, now),
            members(r@) == ending(old(self).supervisors@, now),
    {
        let ghost start = *self;
        let ghost before = self.supervisors@;
        let mut r: Vec<(String, u32)> = Vec::new();
        let mut i: usize = 0;
        proof {
            assert(before.take(0) =~= seq![]);
            assert(members(r@) =~= seq![]);
        }
        while i < self.supervisors.len()
            invariant
                slots_wf(before),
                self.is_same(start),
                self.unroutable == start.unroutable,
                i <= self.supervisors@.len(),
                self.supervisors@.len() == before.len(),
                forall|j: int| i <= j < before.len() ==> self.supervisors@[j] == before[j],
                is_slept(before.take(i as int), self.supervisors@.take(i as int), now),
                members(r@) == ending(before.take(i as int), now),
            decreases self.supervisors@.len() - i,
        {
            let ghost mid = self.supervisors@;
            let ghost so_far = members(r@);
            proof {
                assert(before.take(i + 1).drop_last() =~= before.take(i as int));
                assert(before.take(i + 1).last() == before[i as int]);
                assert(mid[i as int] == before[i as int]);
                assert(match before[i as int].1 {
                    SupervisorSlot::Running(u) => u.wf() && u.manifest.language@ == before[i as int].0@,
                    SupervisorSlot::Spawning => true,
                });
            }
            let language: String = self.supervisors[i].0.clone();
            let ended: Option<u32> = match self.at_mut(i) {
                Some(s) => match now {
                    Some(n) => s.sleep_if_idle(n),
                    None => s.sleep_now(),
                },
                None => None,
            };
            match ended {
                Some(pid) => {
                    r.push((language, pid));
                    proof {
                        assert(members(r@) =~= so_far.push(Member { language: language@, pid }));
                    }
                },
                None => {},
            }
            proof {
                let after = self.supervisors@;
                assert forall|j: int| 0 <= j < i + 1 implies (#[trigger] after.take(i + 1)[j]).0
                    == before.take(i + 1)[j].0 && match before.take(i + 1)[j].1 {
                    SupervisorSlot::Running(s) => {
                        &&& after.take(i + 1)[j].1 matches SupervisorSlot::Running(t) && t.is_same(s)
                            && t.wf() && t@ == (if is_to_sleep(s, now) {
                            Plugin { process: None, ..s@ }
                        } else {
                            s@
                        })
                    },
                    SupervisorSlot::Spawning => after.take(i + 1)[j].1 is Spawning,
                } by {
                    if j < i {
                        assert(after[j] == mid[j]);
                        assert(mid.take(i as int)[j] == mid[j]);
                        assert(before.take(i as int)[j] == before[j]);
                    }
                }
            }
            i += 1;
        }
        proof {
            assert(before.take(i as int) =~= before);
            assert(self.supervisors@.take(i as int) =~= self.supervisors@);
            lemma_slept_wf(before, self.supervisors@, now);
        }
        r
    }

    /// Puts every plugin to sleep that is idle: the processes to end.
    pub fn sleep_if_idle_all(&mut self, now: Duration) -> (r: Vec<(String, u32)>)
        requires
            old(self).wf(),
        ensures
            final(self).wf(),
            final(self).is_same(*old(self)),
            final(self).unroutable == old(self).unroutable,
            is_slept(old(self).supervisors@, final(self).supervisors@, Some(now)),
            members(r@) == ending(old(self).supervisors@, Some(now)),
    {
        self.sleep_where(Some(now))
    }

    /// Puts every plugin to sleep: the processes to end.
    pub fn sleep_all_now(&mut self) -> (r: Vec<(String, u32)>)
        requires
            old(self).wf(),
        ensures
            final(self).wf(),
            final(self).is_same(*old(self)),
            final(self).unroutable == old(self).unroutable,
            is_slept(old(self).supervisors@, final(self).supervisors@, None),
            members(r@) == ending(old(self).supervisors@, None),
    {
        self.sleep_where(None)
    }

    /// The processes whose memory is to be sampled: those that run under a
    /// limit.
    pub fn check_memory_limits_all(&self) -> (r: Vec<(String, u32)>)
        ensures
            members(r@) == sampled(self.supervisors@),
    {
        let mut r: Vec<(String, u32)> = Vec::new();
        let mut i: usize = 0;
        proof {
            assert(self.supervisors@.take(0) =~= seq![]);
            assert(members(r@) =~= seq![]);
        }
        while i < self.supervisors.len()
            invariant
                i <= self.supervisors.len(),
                members(r@) == sampled(self.supervisors@.take(i as int)),
            decreases self.supervisors.len() - i,
        {
            let ghost before = members(r@);
            proof {
                assert(self.supervisors@.take(i + 1).drop_last() =~= self.supervisors@.take(i as int));
                assert(self.supervisors@.take(i + 1).last() == self.supervisors@[i as int]);
            }
            match &self.supervisors[i].1 {
                SupervisorSlot::Running(s) => match s.check_memory_limit() {
                    Some(pid) => {
                        r.push((self.supervisors[i].0.clone(), pid));
                        proof {
                            assert(members(r@) =~= before.push(
                                Member { language: self.supervisors@[i as int].0@, pid },
                            ));
                        }
                    },
                    None => {},
                },
                SupervisorSlot::Spawning => {},
            }
            i += 1;
        }
        proof {
            assert(self.supervisors@.take(i as int) =~= self.supervisors@);
        }
        r
    }

    /// Whether a language's semantic passes are suspended; one that was never
    /// started is not.
    pub fn is_semantic_suspended(&self, language: &str) -> (r: bool)
        ensures
            r == (self.slot(language@) matches Some(SupervisorSlot::Running(s)) && s@.suspended),
    {
        let at = self.find_slot(language);
        if at == self.supervisors.len() {
            return false;
        }
        match &self.supervisors[at].1 {
            SupervisorSlot::Running(s) => s.is_semantic_suspended(),
            SupervisorSlot::Spawning => false,
        }
    }

    /// What is told of the languages that changes wait for, one after the
    /// other.
    fn waiting_entries(&self) -> (r: Vec<String>)
        ensures
            views(r@) == waiting(self.supervisors@),
    {
        let mut r: Vec<String> = Vec::new();
        let mut i: usize = 0;
        proof {
            assert(self.supervisors@.take(0) =~= seq![]);
            assert(views(r@) =~= seq![]);
        }
        while i < self.supervisors.len()
            invariant
                i <= self.supervisors.len(),
                views(r@) == waiting(self.supervisors@.take(i as int)),
            decreases self.supervisors.len() - i,
        {
            let ghost before = views(r@);
            proof {
                assert(self.supervisors@.take(i + 1).drop_last() =~= self.supervisors@.take(i as int));
                assert(self.supervisors@.take(i + 1).last() == self.supervisors@[i as int]);
            }
            match &self.supervisors[i].1 {
                SupervisorSlot::Running(s) => {
                    let count: usize = s.pending_len();
                    if count > 0 {
                        let mut entry: String = s.language().to_owned();
                        entry.append(" (");
                        entry.append(decimal_text(count as u128).as_str());
                        entry.append(" ");
                        if count == 1 {
                            entry.append("file");
                        } else {
                            entry.append("files");
                        }
                        entry.append(")");
                        r.push(entry);
                        proof {
                            assert(views(r@) =~= before.push(
                                waiting_text(s.manifest.language@, count as nat),
                            ));
                        }
                    }
                },
                SupervisorSlot::Spawning => {},
            }
            i += 1;
        }
        proof {
            assert(self.supervisors@.take(i as int) =~= self.supervisors@);
        }
        r
    }

    /// Whether any change waits for a plugin.
    pub fn has_pending(&self) -> (r: bool)
        ensures
            r == (waiting(self.supervisors@).len() > 0),
    {
        let mut i: usize = 0;
        proof {
            assert(self.supervisors@.take(0) =~= seq![]);
        }
        while i < self.supervisors.len()
            invariant
                i <= self.supervisors.len(),
                waiting(self.supervisors@.take(i as int)).len() == 0,
            decreases self.supervisors.len() - i,
        {
            proof {
                assert(self.supervisors@.take(i + 1).drop_last() =~= self.supervisors@.take(i as int));
                assert(self.supervisors@.take(i + 1).last() == self.supervisors@[i as int]);
            }
            match &self.supervisors[i].1 {
                SupervisorSlot::Running(s) => {
                    if s.pending_len() > 0 {
                        proof {
                            lemma_waiting_grows(self.supervisors@, i + 1);
                        }
                        return true;
                    }
                },
                SupervisorSlot::Spawning => {},
            }
            i += 1;
        }
        proof {
            assert(self.supervisors@.take(i as int) =~= self.supervisors@);
        }
        false
    }

    /// Which languages changes wait for, and how many.
    pub fn pending_summary(&self) -> (r: String)
        ensures
            r@ == (if waiting(self.supervisors@).len() == 0 {
                "none"@
            } else {
                joined_with(waiting(self.supervisors@), ", "@)
            }),
    {
        let entries = self.waiting_entries();
        proof {
            assert(views(entries@).len() == entries@.len());
        }
        if entries.len() == 0 {
            return "none".to_owned();
        }
        join_texts(&entries, ", ")
    }

    /// How many changes were replayed over all languages, out of what each
    /// language's replay came to; one that failed adds nothing and keeps no
    /// other from being counted.
    pub fn replay_pending(replays: &Vec<Option<usize>>) -> (r: usize)
        requires
            total_replayed(replays@) <= usize::MAX,
        ensures
            r == total_replayed(replays@),
    {
        let mut total: usize = 0;
        let mut i: usize = 0;
        proof {
            assert(replays@.take(0) =~= seq![]);
        }
        while i < replays.len()
            invariant
                i <= replays.len(),
                total_replayed(replays@) <= usize::MAX,
                total == total_replayed(replays@.take(i as int)),
            decreases replays.len() - i,
        {
            proof {
                assert(replays@.take(i + 1).drop_last() =~= replays@.take(i as int));
                assert(replays@.take(i + 1).last() == replays@[i as int]);
                lemma_total_grows(replays@, i + 1);
            }
            match replays[i] {
                Some(n) => {
                    total = total + n;
                },
                None => {},
            }
            i += 1;
        }
        proof {
            assert(replays@.take(i as int) =~= replays@);
        }
        total
    }

    /// What is to be done before a file is answered about. A file that is
    /// current never has a plugin started for it.
    pub fn ensure_fresh(&mut self, file_path: &str, stale: bool) -> (r: FreshRoute)
        requires
            old(self).wf(),
        ensures
            final(self).wf(),
            final(self).is_same(*old(self)),
            final(self).unroutable == old(self).unroutable,
            match old(self).discovered.claimant(file_path@) {
                None => r is Unclaimed && final(self).supervisors@ == old(self).supervisors@,
                Some(claimant) => if !stale {
                    r is AlreadyFresh && final(self).supervisors@ == old(self).supervisors@
                } else {
                    r matches FreshRoute::Ask { language, plugin } && language@ == claimant && got(
                        *old(self),
                        *final(self),
                        claimant,
                        plugin,
                    )
                },
            },
    {
        let language: String = match self.discovered.language_for(file_path) {
            Some(language) => language.to_owned(),
            None => {
                return FreshRoute::Unclaimed;
            },
        };
        if !stale {
            return FreshRoute::AlreadyFresh;
        }
        let plugin = self.get_or_spawn(language.as_str());
        FreshRoute::Ask { language, plugin }
    }
}

/// How many changes were replayed over all languages.
pub open spec fn total_replayed(replays: Seq<Option<usize>>) -> nat
    decreases replays.len(),
{
    if replays.len() == 0 {
        0
    } else {
        total_replayed(replays.drop_last()) + match replays.last() {
            Some(n) => n as nat,
            None => 0,
        }
    }
}

proof fn lemma_total_grows(replays: Seq<Option<usize>>, n: int)
    requires
        0 <= n <= replays.len(),
    ensures
        total_replayed(replays.take(n)) <= total_replayed(replays),
    decreases replays.len() - n,
{
    if n < replays.len() {
        lemma_total_grows(replays, n + 1);
        assert(replays.take(n + 1).drop_last() =~= replays.take(n));
    } else {
        assert(replays.take(n) =~= replays);
    }
}

proof fn lemma_waiting_grows(slots: Seq<(String, SupervisorSlot)>, n: int)
    requires
        0 <= n <= slots.len(),
    ensures
        waiting(slots.take(n)).len() <= waiting(slots).len(),
    decreases slots.len() - n,
{
    if n < slots.len() {
        lemma_waiting_grows(slots, n + 1);
        assert(slots.take(n + 1).drop_last() =~= slots.take(n));
    } else {
        assert(slots.take(n) =~= slots);
    }
}

proof fn lemma_slept_wf(
    before: Seq<(String, SupervisorSlot)>,
    after: Seq<(String, SupervisorSlot)>,
    now: Option<Duration>,
)
    requires
        slots_wf(before),
        is_slept(before, after, now),
    ensures
        slots_wf(after),
{
    assert forall|i: int, j: int| 0 <= i < j < after.len() implies (#[trigger] after[i]).0@ != (
    #[trigger] after[j]).0@ by {
        assert(after[i].0 == before[i].0 && after[j].0 == before[j].0);
    }
    assert forall|i: int| 0 <= i < after.len() implies match (#[trigger] after[i]).1 {
        SupervisorSlot::Running(s) => s.wf() && s.manifest.language@ == after[i].0@,
        SupervisorSlot::Spawning => true,
    } by {
        assert(after[i].0 == before[i].0);
        match before[i].1 {
            SupervisorSlot::Running(s) => {
                assert(s.manifest.language@ == before[i].0@);
            },
            SupervisorSlot::Spawning => {},
        }
    }
}

// ---------------------------------------------------------------------------
// Laws
// ---------------------------------------------------------------------------
proof fn lemma_slots_front(slots: Seq<(String, SupervisorSlot)>)
    requires
        slots_wf(slots),
        slots.len() > 0,
    ensures
        slots_wf(slots.drop_last()),
        slot_in(slots.drop_last(), slots.last().0@) is None,
{
    let front = slots.drop_last();
    let language = slots.last().0@;
    assert forall|i: int, j: int| 0 <= i < j < front.len() implies (#[trigger] front[i]).0@ != (
    #[trigger] front[j]).0@ by {
        assert(front[i] == slots[i] && front[j] == slots[j]);
    }
    assert forall|i: int| 0 <= i < front.len() implies match (#[trigger] front[i]).1 {
        SupervisorSlot::Running(s) => s.wf() && s.manifest.language@ == front[i].0@,
        SupervisorSlot::Spawning => true,
    } by {
        assert(front[i] == slots[i]);
    }
    assert forall|i: int| 0 <= i < front.len() implies (#[trigger] front[i]).0@ != language by {
        assert(front[i] == slots[i]);
        assert(slots[i].0@ != slots[slots.len() - 1].0@);
    }
    lemma_no_slot(front, language);
}

proof fn lemma_no_slot(slots: Seq<(String, SupervisorSlot)>, language: Seq<char>)
    requires
        forall|i: int| 0 <= i < slots.len() ==> (#[trigger] slots[i]).0@ != language,
    ensures
        slot_in(slots, language) is None,
    decreases slots.len(),
{
    if slots.len() > 0 {
        let front = slots.drop_last();
        assert forall|i: int| 0 <= i < front.len() implies (#[trigger] front[i]).0@ != language by {
            assert(front[i] == slots[i]);
        }
        lemma_no_slot(front, language);
        assert(slots[slots.len() - 1].0@ != language);
    }
}

/// Whether the plugin at `i` is for `language`, has a hit and does not exclude
/// the file.
pub open spec fn is_touched(
    ms: Seq<PluginManifest>,
    hits: Seq<bool>,
    file_path: Seq<char>,
    language: Seq<char>,
    i: int,
) -> bool {
    &&& 0 <= i < ms.len()
    &&& ms[i].language@ == language
    &&& hits[i]
    &&& !excluded(file_path, views(ms[i].workspace.exclude_dirs@))
}

proof fn lemma_hit_languages(ms: Seq<PluginManifest>, hits: Seq<bool>, file_path: Seq<char>)
    requires
        hits.len() == ms.len(),
    ensures
        forall|language: Seq<char>| #[trigger]
            hit_languages(ms, hits, file_path).contains(language) <==> exists|i: int|
                is_touched(ms, hits, file_path, language, i),
        languages(ms).no_duplicates() ==> hit_languages(ms, hits, file_path).no_duplicates(),
    decreases ms.len(),
{
    if ms.len() > 0 {
        let (fms, fhits) = (ms.drop_last(), hits.drop_last());
        let rest = hit_languages(fms, fhits, file_path);
        let all = hit_languages(ms, hits, file_path);
        let last = ms.last().language@;
        lemma_hit_languages(fms, fhits, file_path);
        assert forall|language: Seq<char>| #[trigger] all.contains(language) <==> exists|i: int|
            is_touched(ms, hits, file_path, language, i) by {
            vstd::seq_lib::lemma_seq_contains_after_push(rest, last, language);
            if rest.contains(language) {
                let i = choose|i: int| is_touched(fms, fhits, file_path, language, i);
                assert(is_touched(ms, hits, file_path, language, i));
            }
            if all.contains(language) && !rest.contains(language) {
                assert(is_touched(ms, hits, file_path, language, ms.len() - 1));
            }
            if exists|i: int| is_touched(ms, hits, file_path, language, i) {
                let i = choose|i: int| is_touched(ms, hits, file_path, language, i);
                if i < fms.len() {
                    assert(is_touched(fms, fhits, file_path, language, i));
                    assert(rest.contains(language));
                }
            }
        }
        if languages(ms).no_duplicates() {
            let ls = languages(ms);
            assert(languages(fms) =~= ls.drop_last());
            if rest.contains(last) {
                let i = choose|i: int| is_touched(fms, fhits, file_path, last, i);
                assert(ls[i] == ls[ms.len() - 1]);
            }
        }
    } else {
        assert forall|language: Seq<char>| #[trigger]
            hit_languages(ms, hits, file_path).contains(language) <==> exists|i: int|
                is_touched(ms, hits, file_path, language, i) by {}
    }
}

/// A workspace file matters to exactly the languages with a hit that do not
/// exclude it, to all of them and not just the first, each listed once and in
/// order.
pub proof fn a_workspace_file_matters_to_every_language_it_touches(
    ms: Seq<PluginManifest>,
    hits: Seq<bool>,
    file_path: Seq<char>,
)
    requires
        hits.len() == ms.len(),
        languages(ms).no_duplicates(),
    ensures
        ({
            let found = sorted(hit_languages(ms, hits, file_path));
            &&& is_sorted(found)
            &&& found.no_duplicates()
            &&& forall|language: Seq<char>| #[trigger]
                found.contains(language) <==> exists|i: int|
                    is_touched(ms, hits, file_path, language, i)
        }),
{
    let hit = hit_languages(ms, hits, file_path);
    lemma_hit_languages(ms, hits, file_path);
    sorted_is_in_order(hit);
    hit.lemma_multiset_has_no_duplicates();
    sorted(hit).lemma_multiset_has_no_duplicates_conv();
    assert forall|language: Seq<char>| #[trigger] sorted(hit).contains(language) <==> exists|i: int|
        is_touched(ms, hits, file_path, language, i) by {
        assert(sorted(hit).contains(language) <==> hit.contains(language));
    }
}

/// A language is started once or not at all: those that are listed as started
/// are exactly those whose slot has a plugin, each listed once, and none of
/// them is listed as being started.
pub proof fn a_language_is_started_once(slots: Seq<(String, SupervisorSlot)>)
    requires
        slots_wf(slots),
    ensures
        started(slots).no_duplicates(),
        forall|language: Seq<char>|
            (#[trigger] started(slots).contains(language)) <==> (slot_in(slots, language) matches Some(
                SupervisorSlot::Running(s),
            )),
        forall|language: Seq<char>|
            (#[trigger] starting(slots).contains(language)) <==> slot_in(slots, language) == Some(
                SupervisorSlot::Spawning,
            ),
    decreases slots.len(),
{
    if slots.len() > 0 {
        let front = slots.drop_last();
        let last = slots.last();
        lemma_slots_front(slots);
        a_language_is_started_once(front);
        let up = started(front);
        let coming = starting(front);
        assert(!up.contains(last.0@));
        assert(!coming.contains(last.0@));
        assert forall|language: Seq<char>| #[trigger]
            started(slots).contains(language) <==> (slot_in(slots, language) matches Some(
                SupervisorSlot::Running(s),
            )) by {
            vstd::seq_lib::lemma_seq_contains_after_push(up, last.0@, language);
            assert(up.contains(language) == (slot_in(front, language) matches Some(
                SupervisorSlot::Running(s),
            )));
        }
        assert forall|language: Seq<char>| #[trigger]
            starting(slots).contains(language) <==> slot_in(slots, language) == Some(
                SupervisorSlot::Spawning,
            ) by {
            vstd::seq_lib::lemma_seq_contains_after_push(coming, last.0@, language);
            assert(coming.contains(language) == (slot_in(front, language) == Some(
                SupervisorSlot::Spawning,
            )));
        }
    }
}

/// Putting plugins to sleep forgets no change that waits, and no language.
pub proof fn sleeping_forgets_nothing(
    before: Seq<(String, SupervisorSlot)>,
    after: Seq<(String, SupervisorSlot)>,
    now: Option<Duration>,
)
    requires
        is_slept(before, after, now),
    ensures
        waiting(after) == waiting(before),
        started(after) == started(before),
        starting(after) == starting(before),
    decreases before.len(),
{
    if before.len() > 0 {
        let b = before.drop_last();
        let a = after.drop_last();
        assert forall|i: int| 0 <= i < b.len() implies (#[trigger] a[i]).0 == b[i].0 && match b[i].1 {
            SupervisorSlot::Running(s) => {
                &&& a[i].1 matches SupervisorSlot::Running(t) && t.is_same(s) && t.wf() && t@ == (
                if is_to_sleep(s, now) {
                    Plugin { process: None, ..s@ }
                } else {
                    s@
                })
            },
            SupervisorSlot::Spawning => a[i].1 is Spawning,
        } by {
            assert(a[i] == after[i] && b[i] == before[i]);
        }
        sleeping_forgets_nothing(b, a, now);
        assert(after[before.len() - 1].0 == before[before.len() - 1].0);
    }
}

} // verus!
