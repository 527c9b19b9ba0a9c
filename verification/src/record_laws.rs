//! What holds of what daemons leave for each other to read - locks, stamps,
//! pids, fingerprints - and of what they tell.

use vstd::prelude::*;
use vstd::string::*;

use crate::build_stamp::{Account, Fields, Vintage, compared, fields, stamp_in, stamp_text};
use crate::digest::{fingerprint_text, hex, hex_digit, sha256};
use crate::fingerprint::{
    BuildEntry, Content, build_message, child_rel, file_message, files_in, files_of, is_passed_over,
};
use crate::generation::{Known, known_message, plugins_message};
use crate::identity::recorded_root;
use crate::lock::{DaemonLock, judged};
use crate::manifest::{Fault, fault_text};
use crate::memory::{ProcessRecord, ProcessTreeSample, has_member, in_tree, is_below, is_child, sum_of};
use crate::number::{decimal, parsed, parsed_signed, signed_decimal};
use crate::order::{ahead, is_order, picked, precedes, precedes_from, precedes_is_total};
use crate::path::{PathStyle, file_name, join, parent, with_extension};
use crate::registry::{Row, lists_in_order, row_languages, rows};
use crate::semantic::{Failure, completed_lines, failed_lines};
use crate::state_files::{
    Address, NoStateDir, StateFileWrite, address_in, owner_in, pid_in, plugin_pid_name, plugin_suspended_name,
    state_path,
};
use crate::supervisor::{Applied, PluginSupervisor, committed, suspension_reason};
use crate::text::{holds_part, lemma_position, lemma_position_is, lines, trimmed};

verus! {

proof fn lemma_holds(before: Seq<char>, part: Seq<char>, after: Seq<char>)
    ensures
        holds_part(before + part + after, part),
{
    let whole = before + part + after;
    assert(whole.subrange(before.len() as int, before.len() as int + part.len()) =~= part);
}

// ---------------------------------------------------------------------------
// Locks and stamps
// ---------------------------------------------------------------------------
/// A lock is judged by whether someone answers, then by whether it is held,
/// then by who said they serve: one verdict for every case. What is recorded
/// counts only where the lock is held and nobody answers.
pub proof fn a_lock_has_one_verdict(
    listening: bool,
    held: bool,
    record: Option<Seq<char>>,
    alive: Seq<u32>,
    other: Option<Seq<char>>,
    others: Seq<u32>,
)
    ensures
        judged(listening, held, record, alive) == DaemonLock::Serving <==> listening,
        judged(listening, held, record, alive) == DaemonLock::Free <==> !listening && !held,
        judged(listening, held, record, alive) is Starting || judged(listening, held, record, alive) is Wedged
            <==> !listening && held,
        listening || !held ==> judged(listening, held, record, alive) == judged(
            listening,
            held,
            other,
            others,
        ),
        judged(false, true, None, alive) is Starting,
        judged(false, true, record, Seq::empty()) is Starting,
{
}

/// A build is compared by its age first and by its plugin second, and never by
/// where it lies: an older one is outdated, one of the same age with another
/// plugin is told apart, and every other is current.
pub proof fn a_build_is_compared_by_age_and_plugin(theirs: Account, ours: Account, elsewhere: Seq<char>)
    ensures
        compared(None, ours) == Vintage::Unknown,
        compared(Some(theirs), ours) == Vintage::Outdated <==> theirs.mtime < ours.mtime,
        compared(Some(theirs), ours) == Vintage::PluginChanged <==> theirs.mtime == ours.mtime
            && theirs.plugin != ours.plugin,
        compared(Some(theirs), ours) == Vintage::Current <==> theirs.mtime > ours.mtime || (theirs.mtime
            == ours.mtime && theirs.plugin == ours.plugin),
        compared(Some(Account { exe: elsewhere, ..theirs }), ours) == compared(Some(theirs), ours),
        compared(Some(theirs), Account { exe: elsewhere, ..ours }) == compared(Some(theirs), ours),
{
}

// ---------------------------------------------------------------------------
// State files
// ---------------------------------------------------------------------------
/// A daemon listens on a socket in its state directory, or on Windows under the
/// directory's name.
pub proof fn a_daemon_listens_where_its_state_is(state_dir: Seq<char>, style: PathStyle)
    ensures
        style == PathStyle::Unix ==> address_in(state_dir, style) == Some(
            Address::AtPath(join(state_dir, "daemon.sock"@, style)),
        ),
        style == PathStyle::Windows ==> (address_in(state_dir, style) is Some <==> file_name(
            state_dir,
            style,
        ) is Some),
        style == PathStyle::Windows && address_in(state_dir, style) is Some ==> address_in(
            state_dir,
            style,
        ) == Some(Address::Named(file_name(state_dir, style)->0)),
{
}

/// Without a state directory there is no state file, for the same reason; with
/// one, each lies in it under its own name.
pub proof fn a_state_file_lies_in_the_state_directory(
    dir: &str,
    e: NoStateDir,
    file: Seq<char>,
    style: PathStyle,
)
    ensures
        state_path(Ok(dir), file, style) == Ok::<Seq<char>, NoStateDir>(join(dir@, file, style)),
        state_path(Err(e), file, style) == Err::<Seq<char>, NoStateDir>(e),
{
}

/// Each language has files of its own, and its pid is not where its suspension
/// is told.
pub proof fn each_language_has_files_of_its_own(one: Seq<char>, other: Seq<char>)
    ensures
        plugin_pid_name(one) == plugin_pid_name(other) <==> one == other,
        plugin_suspended_name(one) == plugin_suspended_name(other) <==> one == other,
        plugin_pid_name(one) != plugin_suspended_name(other),
{
    let p = "plugin-"@.len() as int;
    let pid = plugin_pid_name(one);
    let sus = plugin_suspended_name(one);
    reveal_strlit(".pid");
    reveal_strlit(".suspended");
    assert(pid.subrange(p, p + one.len()) =~= one);
    assert(plugin_pid_name(other).subrange(p, p + other.len()) =~= other);
    assert(sus.subrange(p, p + one.len()) =~= one);
    assert(plugin_suspended_name(other).subrange(p, p + other.len()) =~= other);
    let s = plugin_suspended_name(other);
    assert(pid[pid.len() - 2] == 'i');
    assert(s[s.len() - 2] == 'e');
}

/// A pid is a number within what pids can be, with white space around it or
/// without; a record of who serves says nothing until its line is ended.
pub proof fn a_pid_is_a_number(contents: Seq<char>)
    ensures
        pid_in(contents) == parsed(trimmed(contents), 0xffff_ffff),
        pid_in(contents) matches Some(n) ==> n <= 0xffff_ffff,
        contents.len() == 0 || contents.last() != '\n' ==> owner_in(contents) is None,
        owner_in(contents.push('\n')) == pid_in(contents),
{
    assert(contents.push('\n').drop_last() =~= contents);
}

/// What is recorded of a project root is the text without the white space
/// around it; nothing is, where there is nothing else.
pub proof fn a_blank_record_names_no_root(contents: Seq<char>)
    ensures
        recorded_root(contents) matches Some(root) ==> root == trimmed(contents) && root.len() > 0,
        recorded_root(contents) is None <==> trimmed(contents).len() == 0,
{
}

// ---------------------------------------------------------------------------
// Fingerprints
// ---------------------------------------------------------------------------
/// The names of directories that are no part of any build.
pub open spec fn no_part_of_a_build() -> Seq<Seq<char>> {
    seq![".git"@, "node_modules"@, "__pycache__"@, ".venv"@, "venv"@, ".pytest_cache"@]
}

/// Of a build every file counts, in every directory but those that are no part
/// of any build and those that the plugin leaves out; a name is left out only
/// as a directory's.
pub proof fn every_other_directory_counts(
    rel: Seq<char>,
    name: String,
    bytes: Vec<u8>,
    entries: Vec<BuildEntry>,
    ignore: Seq<Seq<char>>,
    style: PathStyle,
)
    ensures
        files_of(rel, BuildEntry::Dir { name, entries }, ignore, style) == (if no_part_of_a_build().contains(
            name@,
        ) || ignore.contains(name@) {
            seq![]
        } else {
            files_in(child_rel(rel, name@, style), entries, entries@.len(), ignore, style)
        }),
        files_of(rel, BuildEntry::File { name, bytes }, ignore, style).len() == 1,
        files_of(rel, BuildEntry::File { name, bytes }, ignore, style)[0].bytes == bytes@,
        files_of(rel, BuildEntry::File { name, bytes }, ignore, style)[0].relative == if rel.len() == 0 {
            name@
        } else {
            rel + seq![style.separator()] + name@
        },
        files_of(rel, BuildEntry::Other, ignore, style).len() == 0,
{
    let out = no_part_of_a_build();
    assert(out[0] == ".git"@ && out[1] == "node_modules"@ && out[2] == "__pycache__"@);
    assert(out[3] == ".venv"@ && out[4] == "venv"@ && out[5] == ".pytest_cache"@);
    if out.contains(name@) {
        let k = choose|k: int| 0 <= k < out.len() && out[k] == name@;
        assert(is_passed_over(name@, ignore));
    }
    assert(rel.push(style.separator()) + name@ =~= rel + seq![style.separator()] + name@);
}

/// What a hexadecimal digit stands for.
pub open spec fn hex_value(c: char) -> int {
    if '0' <= c <= '9' {
        (c as u32) - 48
    } else {
        (c as u32) - 87
    }
}

/// Each byte is spelt by the two digits at its place, the higher one first.
pub proof fn each_byte_is_two_digits(bytes: Seq<u8>, i: int)
    requires
        0 <= i < bytes.len(),
    ensures
        hex(bytes).len() == 2 * bytes.len(),
        16 * hex_value(hex(bytes)[2 * i]) + hex_value(hex(bytes)[2 * i + 1]) == bytes[i],
    decreases bytes.len(),
{
    crate::digest::hex_is_hexadecimal(bytes);
    crate::digest::hex_is_hexadecimal(bytes.drop_last());
    let front = hex(bytes.drop_last());
    if i == bytes.len() - 1 {
        let high = bytes.last() as int / 16;
        let low = bytes.last() as int % 16;
        assert(hex_value(hex_digit(high)) == high);
        assert(hex_value(hex_digit(low)) == low);
    } else {
        each_byte_is_two_digits(bytes.drop_last(), i);
        assert(hex(bytes)[2 * i] == front[2 * i]);
        assert(hex(bytes)[2 * i + 1] == front[2 * i + 1]);
    }
}

// ---------------------------------------------------------------------------
// Order
// ---------------------------------------------------------------------------
/// Texts are ordered as in a dictionary: by the first character in which they
/// differ, and a text comes before what it begins.
pub proof fn texts_are_ordered_as_in_a_dictionary(
    common: Seq<char>,
    a: char,
    b: char,
    one: Seq<char>,
    other: Seq<char>,
)
    ensures
        a < b ==> precedes(common + seq![a] + one, common + seq![b] + other),
        precedes(common, common + seq![a] + one),
        !precedes(common + seq![a] + one, common),
        !precedes(common, common),
{
    if a < b {
        lemma_alike(common, seq![a] + one, seq![b] + other, 0);
    }
    lemma_alike(common, seq![], seq![a] + one, 0);
    lemma_alike(common, seq![a] + one, seq![], 0);
    lemma_alike(common, seq![], seq![], 0);
    assert(common + (seq![a] + one) =~= common + seq![a] + one);
    assert(common + (seq![b] + other) =~= common + seq![b] + other);
    assert(common + Seq::<char>::empty() =~= common);
}

proof fn lemma_alike(common: Seq<char>, x: Seq<char>, y: Seq<char>, i: int)
    requires
        0 <= i <= common.len(),
        x.len() > 0 && y.len() > 0 ==> x[0] != y[0],
    ensures
        precedes_from(common + x, common + y, i) == (if y.len() == 0 {
            false
        } else if x.len() == 0 {
            true
        } else {
            x[0] < y[0]
        }),
    decreases common.len() - i,
{
    if i < common.len() {
        assert((common + x)[i] == (common + y)[i]);
        lemma_alike(common, x, y, i + 1);
    } else {
        if x.len() > 0 {
            assert((common + x)[i] == x[0]);
        }
        if y.len() > 0 {
            assert((common + y)[i] == y[0]);
        }
    }
}

// ---------------------------------------------------------------------------
// What is told
// ---------------------------------------------------------------------------
/// A refusal says what it is for: both languages, both versions, or the pattern
/// and what is wrong with it.
pub proof fn a_refusal_says_what_it_is_for(f: Fault, dir: Seq<char>, command: Seq<char>, style: PathStyle)
    ensures
        ({
            let text = fault_text(f, dir, command, style);
            match f {
                Fault::NoDirectoryName => holds_part(text, dir),
                Fault::Language { declared, dir_name } => holds_part(text, declared) && holds_part(
                    text,
                    dir_name,
                ),
                Fault::Protocol { declared, expected } => holds_part(text, decimal(declared as nat))
                    && holds_part(text, decimal(expected as nat)),
                Fault::Command(_) => holds_part(text, command),
                Fault::Glob { pattern, reason } => holds_part(text, pattern) && holds_part(text, reason),
            }
        }),
{
    let text = fault_text(f, dir, command, style);
    let path = join(dir, crate::manifest::MANIFEST_FILE_NAME@, style);
    let at = "plugin manifest at "@ + path;
    match f {
        Fault::NoDirectoryName => {
            lemma_holds(
                at + ": its directory "@,
                dir,
                " has no valid (UTF-8) directory name"@,
            );
        },
        Fault::Language { declared, dir_name } => {
            let named = "\", but its containing directory is named \""@;
            let must = "\" - the manifest's language must match the directory it lives in"@;
            let declares = at + " declares language \""@;
            lemma_holds(declares, declared, named + dir_name + must);
            assert(text =~= declares + declared + (named + dir_name + must));
            lemma_holds(declares + declared + named, dir_name, must);
        },
        Fault::Protocol { declared, expected } => {
            let one = decimal(declared as nat);
            let other = decimal(expected as nat);
            let declares = at + " declares protocol_version "@;
            let expects = ", but core expects protocol version "@;
            let refusing = " - refusing to load; update the plugin to match"@;
            lemma_holds(declares, one, expects + other + refusing);
            assert(text =~= declares + one + (expects + other + refusing));
            lemma_holds(declares + one + expects, other, refusing);
        },
        Fault::Command(e) => {
            let start = "invalid [plugin.spawn] command in plugin manifest at "@ + path + ": "@;
            let why = crate::manifest::command_error_text(e, command);
            lemma_command(e, command);
            let at = choose|at: int|
                0 <= at && at + command.len() <= why.len() && #[trigger] why.subrange(
                    at,
                    at + command.len(),
                ) == command;
            let k = start.len() as int + at;
            assert(text.subrange(k, k + command.len()) =~= why.subrange(at, at + command.len()));
        },
        Fault::Glob { pattern, reason } => {
            let declares = at + " declares an invalid glob \""@;
            let files = "\" in [plugin.workspace] watch_files: "@;
            lemma_holds(declares, pattern, files + reason);
            assert(text =~= declares + pattern + (files + reason));
            lemma_holds(declares + pattern + files, reason, seq![]);
            assert(text =~= declares + pattern + files + reason + seq![]);
        },
    }
}

proof fn lemma_command(e: crate::spelling::CommandError, command: Seq<char>)
    ensures
        holds_part(crate::manifest::command_error_text(e, command), command),
{
    let text = crate::manifest::command_error_text(e, command);
    let placeholder = crate::spelling::BIN_DIR_PLACEHOLDER@;
    match e {
        crate::spelling::CommandError::PlaceholderNotAtStart => {
            let only = "`"@ + placeholder + "` is only expanded at the start of `command`, got \""@;
            lemma_holds(only, command, "\""@);
        },
        crate::spelling::CommandError::UnknownBinDir => {
            let uses = "\" uses `"@ + placeholder
                + "`, but the running executable's directory is unknown"@;
            lemma_holds("`command` \""@, command, uses);
            assert(text =~= "`command` \""@ + command + uses);
        },
        crate::spelling::CommandError::NoBinary => {
            let must = "\" must be `"@ + placeholder + "/<binary>`"@;
            lemma_holds("`command` \""@, command, must);
            assert(text =~= "`command` \""@ + command + must);
        },
    }
}

/// There is a line for each language, in the order of the run; each names the
/// language and the index its pass was over, and that of one that failed the
/// reason too.
pub proof fn each_language_has_a_line(
    languages: Seq<Seq<char>>,
    fs: Seq<Failure>,
    context: Seq<char>,
    i: int,
)
    ensures
        completed_lines(languages, context).len() == languages.len(),
        failed_lines(fs, context).len() == fs.len(),
        0 <= i < languages.len() ==> holds_part(completed_lines(languages, context)[i], languages[i])
            && holds_part(completed_lines(languages, context)[i], context),
        0 <= i < fs.len() ==> holds_part(failed_lines(fs, context)[i], fs[i].language) && holds_part(
            failed_lines(fs, context)[i],
            fs[i].reason,
        ) && holds_part(failed_lines(fs, context)[i], context),
{
    let over = " semantic pass over "@;
    if 0 <= i < languages.len() {
        let line = completed_lines(languages, context)[i];
        let l = languages[i];
        lemma_holds("g-mesh: "@, l, over + context + " complete"@);
        assert(line =~= "g-mesh: "@ + l + (over + context + " complete"@));
        lemma_holds("g-mesh: "@ + l + over, context, " complete"@);
    }
    if 0 <= i < fs.len() {
        let line = failed_lines(fs, context)[i];
        let l = fs[i].language;
        let end = ") - its edges keep whatever the structural pass resolved"@;
        let rest = " failed ("@ + fs[i].reason + end;
        lemma_holds("g-mesh: the "@, l, over + context + rest);
        assert(line =~= "g-mesh: the "@ + l + (over + context + rest));
        lemma_holds("g-mesh: the "@ + l + over, context, rest);
        assert(line =~= "g-mesh: the "@ + l + over + context + rest);
        lemma_holds("g-mesh: the "@ + l + over + context + " failed ("@, fs[i].reason, end);
    }
}

/// A suspension is told with the limit and both samples.
pub proof fn a_suspension_is_told_with_its_numbers(limit: u64, measured: u64, confirmed: u64)
    ensures
        holds_part(suspension_reason(limit, measured, confirmed), decimal(limit as nat)),
        holds_part(suspension_reason(limit, measured, confirmed), decimal(measured as nat)),
        holds_part(suspension_reason(limit, measured, confirmed), decimal(confirmed as nat)),
{
    let text = suspension_reason(limit, measured, confirmed);
    let l = decimal(limit as nat);
    let m = decimal(measured as nat);
    let c = decimal(confirmed as nat);
    let a = "memoryLimitMb "@;
    let b = "MB exceeded - measured "@;
    let d = "MB across its process tree and confirmed at "@;
    let e = "MB by a second sample"@;
    lemma_holds(a, l, b + m + d + c + e);
    assert(text =~= a + l + (b + m + d + c + e));
    lemma_holds(a + l + b, m, d + c + e);
    assert(text =~= a + l + b + m + (d + c + e));
    lemma_holds(a + l + b + m + d, c, e);
}

// ---------------------------------------------------------------------------
// Plugins
// ---------------------------------------------------------------------------
/// A change gets a semantic pass exactly where the plugin declares that it can
/// give one and its language is not suspended; and a suspension is told beside
/// the plugin's pid.
pub proof fn a_suspended_language_gets_no_pass(s: PluginSupervisor)
    ensures
        s.semantic_suspended ==> !s.upgrades(),
        !s.manifest.capabilities.semantic_pass ==> !s.upgrades(),
        s.manifest.capabilities.semantic_pass && !s.semantic_suspended ==> s.upgrades(),
        parent(s.pid_file@, s.style) matches Some(dir) ==> s.marker_path() == join(
            dir,
            "plugin-"@ + s.manifest.language@ + ".suspended"@,
            s.style,
        ),
{
}

/// Of two lists of changes as many were committed as of each of them, and
/// nothing but a commit counts as one.
pub proof fn only_commits_are_counted(a: Seq<Applied>, b: Seq<Applied>, one: Applied)
    ensures
        committed(a + b) == committed(a) + committed(b),
        committed(seq![one]) == if one == Applied::Committed {
            1nat
        } else {
            0nat
        },
    decreases b.len(),
{
    reveal_with_fuel(committed, 2);
    assert(seq![one].drop_last() =~= seq![]);
    assert(seq![one].last() == one);
    if b.len() == 0 {
        assert(a + b =~= a);
    } else {
        assert((a + b).drop_last() =~= a + b.drop_last());
        only_commits_are_counted(a, b.drop_last(), one);
    }
}

// ---------------------------------------------------------------------------
// Build stamps
// ---------------------------------------------------------------------------
/// A stamp is published as three lines: the executable, its age and its plugin.
pub proof fn a_stamp_is_three_lines(stamp: Account)
    ensures
        stamp_text(stamp) == "exe="@ + stamp.exe + "\nexe_mtime_millis="@ + signed_decimal(stamp.mtime)
            + "\nplugin_fingerprint="@ + stamp.plugin + "\n"@,
{
    reveal_strlit("exe");
    reveal_strlit("=");
    reveal_strlit("exe=");
    reveal_strlit("\n");
    reveal_strlit("exe_mtime_millis");
    reveal_strlit("\nexe_mtime_millis=");
    reveal_strlit("plugin_fingerprint");
    reveal_strlit("\nplugin_fingerprint=");
    assert("exe"@ + "="@ =~= "exe="@);
    assert("\n"@ + "exe_mtime_millis"@ + "="@ =~= "\nexe_mtime_millis="@);
    assert("\n"@ + "plugin_fingerprint"@ + "="@ =~= "\nplugin_fingerprint="@);
    assert(stamp_text(stamp) =~= ("exe"@ + "="@) + stamp.exe + ("\n"@ + "exe_mtime_millis"@ + "="@)
        + signed_decimal(stamp.mtime) + ("\n"@ + "plugin_fingerprint"@ + "="@) + stamp.plugin + "\n"@);
}

/// A line of a stamp sets what its key names and nothing else, whatever stood
/// there before; a line with another key, or with none, changes nothing.
pub proof fn a_line_sets_what_its_key_names(ls: Seq<Seq<char>>, key: Seq<char>, value: Seq<char>)
    requires
        !key.contains('='),
    ensures
        ({
            let before = fields(ls);
            let after = fields(ls.push(key + seq!['='] + value));
            &&& key == "exe"@ ==> after == (Fields { exe: Some(value), ..before })
            &&& key == "exe_mtime_millis"@ ==> after == (Fields { mtime: parsed_signed(value), ..before })
            &&& key == "plugin_fingerprint"@ ==> after == (Fields { plugin: Some(value), ..before })
            &&& key != "exe"@ && key != "exe_mtime_millis"@ && key != "plugin_fingerprint"@ ==> after
                == before
            &&& fields(ls.push(key)) == before
            &&& fields(seq![]) == (Fields { exe: None, mtime: None, plugin: None })
        }),
{
    let line = key + seq!['='] + value;
    let n = key.len() as int;
    assert(ls.push(line).drop_last() =~= ls);
    assert(ls.push(key).drop_last() =~= ls);
    assert(line[n] == '=');
    assert forall|i: int| 0 <= i < n implies line[i] != '=' by {
        assert(line[i] == key[i]);
        assert(key.contains(key[i]));
    }
    lemma_position_is(line, '=', n);
    assert(line.take(n) =~= key);
    assert(line.skip(n + 1) =~= value);
    lemma_position(key, '=');
    reveal_strlit("exe");
    reveal_strlit("exe_mtime_millis");
    reveal_strlit("plugin_fingerprint");
    assert("exe"@.len() == 3 && "exe_mtime_millis"@.len() == 16 && "plugin_fingerprint"@.len() == 18);
}

/// A stamp is read only where all three are there.
pub proof fn a_stamp_needs_all_three(body: Seq<char>)
    ensures
        ({
            let f = fields(lines(body));
            &&& stamp_in(body) is Some <==> f.exe is Some && f.mtime is Some && f.plugin is Some
            &&& stamp_in(body) matches Some(a) ==> f == (Fields {
                exe: Some(a.exe),
                mtime: Some(a.mtime),
                plugin: Some(a.plugin),
            })
        }),
{
}

// ---------------------------------------------------------------------------
// Writes
// ---------------------------------------------------------------------------
/// A state file is written beside itself first, under a name with the writer's
/// pid in it, and then takes the file's place with exactly these contents.
pub proof fn a_state_file_is_written_beside_itself(
    w: StateFileWrite,
    path: Seq<char>,
    contents: Seq<char>,
    own_pid: u32,
    style: PathStyle,
)
    requires
        w.replaces(path, contents, own_pid, style),
    ensures
        w.path@ == path,
        w.contents@ == contents,
        w.temporary@ == with_extension(path, decimal(own_pid as nat) + ".tmp"@, style),
{
}

/// What a build's files come to is put together file by file: the name, a byte
/// that no name holds, how many bytes there are, and the bytes.
pub proof fn a_message_is_put_together_file_by_file(a: Seq<Content>, b: Seq<Content>, f: Content)
    ensures
        build_message(a + b) == build_message(a) + build_message(b),
        build_message(seq![f]) == vstd::utf8::encode_utf8(f.relative) + seq![0u8]
            + vstd::bytes::spec_u64_to_le_bytes(f.bytes.len() as u64) + f.bytes,
    decreases b.len(),
{
    reveal_with_fuel(build_message, 2);
    assert(seq![f].drop_last() =~= seq![]);
    assert(seq![f].last() == f);
    assert(Seq::<u8>::empty() + file_message(f) =~= file_message(f));
    if b.len() == 0 {
        assert(a + b =~= a);
        assert(build_message(a) + build_message(b) =~= build_message(a));
    } else {
        assert((a + b).drop_last() =~= a + b.drop_last());
        a_message_is_put_together_file_by_file(a, b.drop_last(), f);
        assert(build_message(a + b) =~= build_message(a) + build_message(b));
    }
}

/// What a set of plugins comes to is put together plugin by plugin: the
/// language and the build, each with a byte behind it that neither holds.
pub proof fn plugins_are_put_together_one_by_one(a: Seq<Known>, b: Seq<Known>, k: Known)
    ensures
        plugins_message(a + b) == plugins_message(a) + plugins_message(b),
        plugins_message(seq![k]) == vstd::utf8::encode_utf8(k.language) + seq![0u8]
            + vstd::utf8::encode_utf8(k.build) + seq![0u8],
    decreases b.len(),
{
    reveal_with_fuel(plugins_message, 2);
    assert(seq![k].drop_last() =~= seq![]);
    assert(seq![k].last() == k);
    assert(Seq::<u8>::empty() + known_message(k) =~= known_message(k));
    if b.len() == 0 {
        assert(a + b =~= a);
        assert(plugins_message(a) + plugins_message(b) =~= plugins_message(a));
    } else {
        assert((a + b).drop_last() =~= a + b.drop_last());
        plugins_are_put_together_one_by_one(a, b.drop_last(), k);
        assert(plugins_message(a + b) =~= plugins_message(a) + plugins_message(b));
    }
}

// ---------------------------------------------------------------------------
// What is put in order
// ---------------------------------------------------------------------------
/// What is put in order by a key ascends by it, keeps what has the same key in
/// the order it had, and is what was there: nothing is left out, nothing is
/// there twice.
pub proof fn what_is_put_in_order_ascends<T>(items: Seq<T>, keys: Seq<Seq<char>>, p: Seq<usize>, i: int, j: int)
    requires
        keys.len() == items.len(),
        is_order(keys, p),
        0 <= i < j < p.len(),
    ensures
        picked(items, p).len() == items.len(),
        p[i] < items.len() && p[j] < items.len(),
        picked(items, p)[i] == items[p[i] as int],
        p[i] != p[j],
        !precedes(keys[p[j] as int], keys[p[i] as int]),
        keys[p[i] as int] == keys[p[j] as int] ==> p[i] < p[j],
{
    precedes_is_total(keys[p[i] as int], keys[p[j] as int]);
    assert(ahead(keys, p[i] as int, p[j] as int));
}

/// The rows that are listed are those that were found, in the order of their
/// languages.
pub proof fn rows_are_listed_by_language(r: Seq<(String, String)>, found: Seq<Row>, i: int, j: int)
    requires
        lists_in_order(r, found),
        0 <= i < j < r.len(),
    ensures
        r.len() == found.len(),
        !precedes(r[j].0@, r[i].0@),
        found.contains(Row { language: r[i].0@, text: r[i].1@ }),
{
    let p = choose|p: Seq<usize>| #[trigger]
        is_order(row_languages(found), p) && rows(r) == picked(found, p);
    assert(rows(r).len() == r.len());
    what_is_put_in_order_ascends(found, row_languages(found), p, i, j);
    assert(rows(r)[i] == picked(found, p)[i]);
    assert(rows(r)[j] == picked(found, p)[j]);
    assert(found[p[i] as int] == rows(r)[i]);
}

/// A fingerprint is the first sixteen hexadecimal digits of the hash.
pub proof fn a_fingerprint_begins_the_hash(message: Seq<u8>)
    requires
        sha256(message).len() >= 8,
    ensures
        fingerprint_text(message) == hex(sha256(message)).take(16),
        fingerprint_text(message).len() == 16,
{
    let all = sha256(message);
    lemma_hex_begins(all, 8);
    crate::digest::hex_is_hexadecimal(all.take(8));
}

proof fn lemma_hex_begins(bytes: Seq<u8>, n: int)
    requires
        0 <= n <= bytes.len(),
    ensures
        hex(bytes.take(n)) == hex(bytes).take(2 * n),
        hex(bytes).len() == 2 * bytes.len(),
    decreases bytes.len(),
{
    crate::digest::hex_is_hexadecimal(bytes);
    if n == bytes.len() {
        assert(bytes.take(n) =~= bytes);
        assert(hex(bytes).take(2 * n) =~= hex(bytes));
    } else {
        let front = bytes.drop_last();
        lemma_hex_begins(front, n);
        assert(front.take(n) =~= bytes.take(n));
        assert(hex(bytes).take(2 * n) =~= hex(front).take(2 * n));
    }
}

// ---------------------------------------------------------------------------
// Memory
// ---------------------------------------------------------------------------
/// What a process tree takes is what its members take together: no less than
/// any of them, the first of which is the process itself; and a process that is
/// in no way below it does not count.
pub proof fn a_tree_takes_what_its_members_take(
    sample: ProcessTreeSample,
    snapshot: Seq<ProcessRecord>,
    root: u32,
    k: int,
)
    requires
        sample.measures(snapshot, root),
        0 <= k < snapshot.len(),
    ensures
        sample.members@[0].0 == root,
        in_tree(snapshot, root, snapshot[k].pid) ==> sample.total_bytes >= snapshot[k].memory,
        !in_tree(snapshot, root, snapshot[k].pid) ==> !has_member(sample.members@, snapshot[k].pid),
        sum_of(sample.members@) <= u64::MAX ==> sample.total_bytes == sum_of(sample.members@),
        sample.members@.len() == 1 ==> sample.total_bytes == sample.members@[0].1,
        snapshot[k].parent == Some(root) ==> has_member(sample.members@, snapshot[k].pid),
{
    let members = sample.members@;
    let pid = snapshot[k].pid;
    if snapshot[k].parent == Some(root) {
        assert(is_child(snapshot, root, pid));
        assert(is_below(snapshot, root, root, 0));
        assert(is_below(snapshot, root, pid, 1));
        assert(in_tree(snapshot, root, pid));
    }
    if in_tree(snapshot, root, pid) {
        assert(has_member(members, pid));
        let i = choose|i: int| 0 <= i < members.len() && #[trigger] members[i].0 == pid;
        assert(members[i].1 == snapshot[k].memory);
        lemma_part_of_sum(members, i);
    }
    if members.len() == 1 {
        assert(members.drop_last() =~= seq![]);
        reveal_with_fuel(sum_of, 2);
    }
}

proof fn lemma_part_of_sum(members: Seq<(u32, u64)>, i: int)
    requires
        0 <= i < members.len(),
    ensures
        members[i].1 <= sum_of(members),
    decreases members.len(),
{
    if i < members.len() - 1 {
        lemma_part_of_sum(members.drop_last(), i);
    }
}

} // verus!
