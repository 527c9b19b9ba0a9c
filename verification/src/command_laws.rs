//! What holds of the commands that plugins are started with: how a command is
//! spelt, which plugin is started, how long it may take, and what is told of
//! one that is not there.

use vstd::prelude::*;
use vstd::string::*;

use crate::number::{decimal, decimal_reads_back, lemma_decimal, parsed};
use crate::path::{PathStyle, ancestors, extension, file_name, file_stem, join, parent};
use crate::plugin::{
    RoundTripTimeouts, ascii_lowered, build_command, entry_path, first_holding, is_script, node_hint,
    round_trip, workspace_hint, workspace_output,
};
use crate::spelling::{
    CommandError, arg_path, bin_dir, command_path, exe_resolved, file_name_has_parent, has_separator,
    names_disk, plain_win32, suffixed, unseparated, utf16_len,
};
use crate::state_files::lemma_digits_stay;
use crate::text::{holds_part, trimmed};
use crate::text_laws::trimming_takes_off_both_ends;
use crate::time::Duration;

verus! {

// ---------------------------------------------------------------------------
// Commands
// ---------------------------------------------------------------------------
/// Whether all of a text is slashes of either kind.
pub open spec fn is_slashes(s: Seq<char>) -> bool {
    forall|i: int| 0 <= i < s.len() ==> (#[trigger] s[i]) == '/' || s[i] == '\\'
}

proof fn lemma_unseparated(slashes: Seq<char>, rest: Seq<char>)
    requires
        is_slashes(slashes),
        rest.len() > 0 ==> rest[0] != '/' && rest[0] != '\\',
    ensures
        unseparated(slashes + rest) == rest,
    decreases slashes.len(),
{
    let s = slashes + rest;
    if slashes.len() == 0 {
        assert(s =~= rest);
    } else {
        assert(s[0] == slashes[0]);
        assert(s.drop_first() =~= slashes.drop_first() + rest);
        assert forall|i: int| 0 <= i < slashes.drop_first().len() implies (#[trigger] slashes.drop_first()[i])
            == '/' || slashes.drop_first()[i] == '\\' by {
            assert(slashes.drop_first()[i] == slashes[i + 1]);
        }
        lemma_unseparated(slashes.drop_first(), rest);
    }
}

/// A command that begins with the placeholder stands beside the daemon, however
/// many slashes follow the placeholder and wherever the manifest lies. Without
/// anything behind them, or with the placeholder once more, there is no command,
/// and without the daemon's own directory none that can be found.
pub proof fn a_placeholder_leads_beside_the_daemon(
    slashes: Seq<char>,
    rest: Seq<char>,
    dir: Seq<char>,
    bin: Seq<char>,
    suffix: Seq<char>,
    files: Set<Seq<char>>,
    style: PathStyle,
)
    requires
        is_slashes(slashes),
        rest.len() > 0,
        rest[0] != '/' && rest[0] != '\\',
    ensures
        ({
            let placeholder = "${G_MESH_BIN_DIR}"@;
            let whole = placeholder + slashes + rest;
            let bare = placeholder + slashes;
            &&& command_path(whole, dir, Some(bin), suffix, files, style) == if holds_part(rest, placeholder) {
                Err::<Seq<char>, CommandError>(CommandError::NoBinary)
            } else {
                Ok::<Seq<char>, CommandError>(exe_resolved(join(bin, rest, style), suffix, files, style))
            }
            &&& command_path(whole, dir, None, suffix, files, style) == Err::<Seq<char>, CommandError>(
                CommandError::UnknownBinDir,
            )
            &&& command_path(bare, dir, Some(bin), suffix, files, style) == Err::<Seq<char>, CommandError>(
                CommandError::NoBinary,
            )
        }),
{
    let placeholder = "${G_MESH_BIN_DIR}"@;
    let whole = placeholder + slashes + rest;
    let bare = placeholder + slashes;
    let n = placeholder.len() as int;
    assert(whole.take(n) =~= placeholder);
    assert(whole.skip(n) =~= slashes + rest);
    assert(bare.take(n) =~= placeholder);
    assert(bare.skip(n) =~= slashes + Seq::<char>::empty());
    lemma_unseparated(slashes, rest);
    lemma_unseparated(slashes, seq![]);
}

/// A command without the placeholder is looked up where it is called if it is a
/// bare name, and from its manifest's directory if it is a path. The
/// placeholder counts only at the start.
pub proof fn a_command_is_a_name_or_a_path(
    value: Seq<char>,
    dir: Seq<char>,
    bin: Option<Seq<char>>,
    suffix: Seq<char>,
    files: Set<Seq<char>>,
    style: PathStyle,
)
    ensures
        ({
            let placeholder = "${G_MESH_BIN_DIR}"@;
            let r = command_path(value, dir, bin, suffix, files, style);
            let is_path = exists|i: int|
                0 <= i < value.len() && (value[i] == '/' || (value[i] == '\\' && style
                    == PathStyle::Windows));
            &&& !holds_part(value, placeholder) && !is_path ==> r == Ok::<Seq<char>, CommandError>(value)
            &&& !holds_part(value, placeholder) && is_path ==> r == Ok::<Seq<char>, CommandError>(
                exe_resolved(join(dir, value, style), suffix, files, style),
            )
            &&& r == Err::<Seq<char>, CommandError>(CommandError::PlaceholderNotAtStart) <==> holds_part(
                value,
                placeholder,
            ) && !placeholder.is_prefix_of(value)
            &&& r == Err::<Seq<char>, CommandError>(CommandError::UnknownBinDir) <==> bin is None
                && placeholder.is_prefix_of(value)
            &&& !is_path ==> arg_path(value, dir, style) == value
            &&& is_path ==> arg_path(value, dir, style) == join(dir, value, style)
        }),
{
    let placeholder = "${G_MESH_BIN_DIR}"@;
    if placeholder.is_prefix_of(value) {
        assert(value.subrange(0, 0 + placeholder.len() as int) =~= placeholder);
        assert(holds_part(value, placeholder));
    }
    let is_path = exists|i: int|
        0 <= i < value.len() && (value[i] == '/' || (value[i] == '\\' && style == PathStyle::Windows));
    if is_path {
        let i = choose|i: int|
            0 <= i < value.len() && (value[i] == '/' || (value[i] == '\\' && style == PathStyle::Windows));
        assert(style.separates(value[i]));
    }
    if has_separator(value, style) {
        let i = choose|i: int| 0 <= i < value.len() && style.separates(#[trigger] value[i]);
        assert(value[i] == '/' || (value[i] == '\\' && style == PathStyle::Windows));
    }
}

/// An executable is taken as it is spelt if it is there; with the suffix behind
/// its name if that is there instead; and else as it is spelt, so that what is
/// told of it names what was asked for.
pub proof fn an_executable_is_taken_as_it_is_spelt(
    resolved: Seq<char>,
    suffix: Seq<char>,
    files: Set<Seq<char>>,
    style: PathStyle,
)
    ensures
        ({
            let r = exe_resolved(resolved, suffix, files, style);
            &&& files.contains(resolved) ==> r == resolved
            &&& suffix.len() == 0 ==> r == resolved
            &&& r != resolved ==> files.contains(r) && Some(r) == suffixed(resolved, suffix, style)
            &&& !files.contains(resolved) && suffixed(resolved, suffix, style) is Some && files.contains(
                suffixed(resolved, suffix, style)->0,
            ) ==> r == suffixed(resolved, suffix, style)->0
            &&& extension(resolved, style) is Some ==> r == resolved
        }),
{
}

/// The daemon's directory is that of its executable; of one that lies with the
/// test executables it is the one above.
pub proof fn test_executables_lie_one_directory_deeper(exe: Seq<char>, style: PathStyle)
    ensures
        parent(exe, style) is None ==> bin_dir(exe, style) is None,
        parent(exe, style) matches Some(dir) ==> bin_dir(exe, style) == (if file_name(dir, style) == Some(
            "deps"@,
        ) {
            parent(dir, style)
        } else {
            Some(dir)
        }),
{
}

// ---------------------------------------------------------------------------
// Plain spellings
// ---------------------------------------------------------------------------
/// The length of a text in sixteen-bit units is the sum of its parts', and
/// that of a plain text is its own.
pub proof fn plain_characters_are_one_unit(a: Seq<char>, b: Seq<char>)
    ensures
        utf16_len(a + b) == utf16_len(a) + utf16_len(b),
        (forall|i: int| 0 <= i < a.len() ==> (#[trigger] a[i]) as u32 <= 0xffff) ==> utf16_len(a) == a.len(),
        (forall|i: int| 0 <= i < a.len() ==> (#[trigger] a[i]) as u32 > 0xffff) ==> utf16_len(a) == 2
            * a.len(),
    decreases a.len() + b.len(),
{
    if b.len() > 0 {
        assert((a + b).drop_last() =~= a + b.drop_last());
        plain_characters_are_one_unit(a, b.drop_last());
    } else {
        assert(a + b =~= a);
        if a.len() > 0 {
            assert(a.last() == a[a.len() - 1]);
            plain_characters_are_one_unit(a.drop_last(), b);
            assert forall|i: int| 0 <= i < a.drop_last().len() implies #[trigger] a.drop_last()[i] == a[i] by {}
        }
    }
}

/// A verbatim disk path, or a verbatim share, has the plain spelling without
/// the prefix if that is short enough, and no other path has one.
pub proof fn the_verbatim_prefix_is_taken_off(path: Seq<char>, rest: Seq<char>)
    ensures
        names_disk(rest) && utf16_len(rest) <= 259 ==> plain_win32("\\\\?\\"@ + rest) == Some(rest),
        names_disk(rest) && utf16_len(rest) > 259 ==> plain_win32("\\\\?\\"@ + rest) is None,
        utf16_len("\\\\"@ + rest) <= 259 ==> plain_win32("\\\\?\\UNC\\"@ + rest) == Some("\\\\"@ + rest),
        utf16_len("\\\\"@ + rest) > 259 ==> plain_win32("\\\\?\\UNC\\"@ + rest) is None,
        !"\\\\?\\"@.is_prefix_of(path) ==> plain_win32(path) is None,
        plain_win32(path) matches Some(plain) ==> path == "\\\\?\\"@ + plain || exists|share: Seq<char>|
            path == #[trigger] ("\\\\?\\UNC\\"@ + share) && plain == "\\\\"@ + share,
{
    let verbatim = "\\\\?\\"@;
    let unc = "\\\\?\\UNC\\"@;
    reveal_strlit("\\\\?\\");
    reveal_strlit("\\\\?\\UNC\\");
    reveal_strlit("\\\\");
    let disk = verbatim + rest;
    assert(disk.take(4) =~= verbatim);
    assert(disk.skip(4) =~= rest);
    if names_disk(rest) && unc.is_prefix_of(disk) {
        assert(disk[5] == unc[5]);
        assert(rest[1] == ':');
    }
    let share = unc + rest;
    assert(share.take(8) =~= unc);
    assert(share.skip(8) =~= rest);
    if unc.is_prefix_of(path) {
        assert(path.take(8) =~= unc);
        assert(path.take(4) =~= verbatim);
        assert(path =~= unc + path.skip(8));
    } else if verbatim.is_prefix_of(path) {
        assert(path.take(4) =~= verbatim);
        assert(path =~= verbatim + path.skip(4));
    }
}

// ---------------------------------------------------------------------------
// The bundled plugin
// ---------------------------------------------------------------------------
/// A path that is given is the bundled plugin's entry, whatever else is there.
/// Otherwise it is the installed one if that is a file, and else that of the
/// checkout.
pub proof fn the_installed_plugin_is_preferred(
    given: Seq<char>,
    exe: Option<Seq<char>>,
    exe_suffix: Seq<char>,
    checkout: Seq<char>,
    files: Set<Seq<char>>,
    style: PathStyle,
)
    ensures
        entry_path(Some(given), exe, exe_suffix, checkout, files, style) == given,
        ({
            let built = join(checkout, "../plugins/typescript/dist/src/index.js"@, style);
            let entry = entry_path(None, exe, exe_suffix, checkout, files, style);
            let dir = parent(exe->0, style);
            let installed = join(
                join(join(dir->0, "plugins"@, style), "typescript"@, style),
                "g-mesh-plugin-typescript"@ + exe_suffix,
                style,
            );
            &&& exe is Some && dir is Some && files.contains(installed) ==> entry == installed
            &&& !(exe is Some && dir is Some && files.contains(installed)) ==> entry == built
        }),
{
}

/// A script is run by its interpreter whatever the case of its extension.
pub proof fn the_case_of_an_extension_does_not_count(one: Seq<char>, other: Seq<char>, style: PathStyle)
    requires
        extension(one, style) is Some <==> extension(other, style) is Some,
        extension(one, style) is Some ==> ascii_lowered(extension(one, style)->0) == ascii_lowered(
            extension(other, style)->0,
        ),
    ensures
        is_script(one, style) == is_script(other, style),
        is_script(one, style) <==> extension(one, style) is Some && seq!["js"@, "cjs"@, "mjs"@].contains(
            ascii_lowered(extension(one, style)->0),
        ),
        forall|s: Seq<char>, i: int|
            0 <= i < s.len() ==> (#[trigger] ascii_lowered(s)[i]) == if 'A' <= s[i] <= 'Z' {
                ((s[i] as u8) + 32) as u8 as char
            } else {
                s[i]
            },
        forall|s: Seq<char>| (#[trigger] ascii_lowered(s)).len() == s.len(),
{
    let known = seq!["js"@, "cjs"@, "mjs"@];
    assert(known[0] == "js"@ && known[1] == "cjs"@ && known[2] == "mjs"@);
}

// ---------------------------------------------------------------------------
// How long a plugin may take
// ---------------------------------------------------------------------------
/// A variable that is not set, is no number or is zero leaves the default; any
/// other number is that many milliseconds.
pub proof fn a_round_trip_is_read_in_milliseconds(text: Seq<char>, n: u64, default: Duration)
    ensures
        round_trip(None, default) == default,
        parsed(trimmed(text), u64::MAX as nat) is None ==> round_trip(Some(text), default) == default,
        round_trip(Some(text), default) == round_trip(Some(trimmed(text)), default),
        round_trip(Some(decimal(n as nat)), default) == if n == 0 {
            default
        } else {
            (n * 1_000_000) as Duration
        },
{
    trimming_takes_off_both_ends(text);
    decimal_reads_back(n as nat, u64::MAX as nat);
    lemma_decimal(n as nat);
    lemma_digits_stay(decimal(n as nat));
}

/// A pass over a project may take the time that is set for it, or ten seconds
/// for each file if that is more.
pub proof fn each_file_is_worth_ten_seconds(timeouts: RoundTripTimeouts, files: nat)
    requires
        files <= u32::MAX,
    ensures
        timeouts.project_timeout(files) >= timeouts.semantic_pass_project,
        timeouts.project_timeout(files) >= files * 10_000_000_000,
        timeouts.project_timeout(files) == timeouts.semantic_pass_project || timeouts.project_timeout(files)
            == files * 10_000_000_000,
{
}

// ---------------------------------------------------------------------------
// What is told of a plugin that is not there
// ---------------------------------------------------------------------------
/// The directory that is found is the first that holds such a file; none is
/// found exactly where none does.
pub proof fn the_nearest_directory_is_found(
    dirs: Seq<Seq<char>>,
    name: Seq<char>,
    files: Set<Seq<char>>,
    style: PathStyle,
)
    ensures
        first_holding(dirs, name, files, style) is None <==> forall|i: int|
            0 <= i < dirs.len() ==> !files.contains(join(#[trigger] dirs[i], name, style)),
        first_holding(dirs, name, files, style) matches Some(dir) ==> exists|i: int|
            0 <= i < dirs.len() && #[trigger] dirs[i] == dir && files.contains(join(dir, name, style))
                && forall|j: int| 0 <= j < i ==> !files.contains(join(#[trigger] dirs[j], name, style)),
    decreases dirs.len(),
{
    if dirs.len() > 0 && !files.contains(join(dirs[0], name, style)) {
        let rest = dirs.drop_first();
        the_nearest_directory_is_found(rest, name, files, style);
        match first_holding(rest, name, files, style) {
            Some(dir) => {
                let i = choose|i: int|
                    0 <= i < rest.len() && #[trigger] rest[i] == dir && files.contains(join(dir, name, style))
                        && forall|j: int|
                        0 <= j < i ==> !files.contains(join(#[trigger] rest[j], name, style));
                assert(dirs[i + 1] == dir);
                assert forall|j: int| 0 <= j < i + 1 implies !files.contains(
                    join(#[trigger] dirs[j], name, style),
                ) by {
                    if j > 0 {
                        assert(rest[j - 1] == dirs[j]);
                    }
                }
            },
            None => {
                assert forall|j: int| 0 <= j < dirs.len() implies !files.contains(
                    join(#[trigger] dirs[j], name, style),
                ) by {
                    if j > 0 {
                        assert(rest[j - 1] == dirs[j]);
                    }
                }
            },
        }
    }
}

proof fn lemma_holds(before: Seq<char>, part: Seq<char>, after: Seq<char>)
    ensures
        holds_part(before + part + after, part),
{
    let whole = before + part + after;
    assert(whole.subrange(before.len() as int, before.len() as int + part.len()) =~= part);
}

/// A script that the interpreter is to run and that is not there was not built:
/// that is told exactly then, with the script's path, and with the nearest
/// directory that has a package to build if one has.
pub proof fn a_missing_script_is_told_of(
    command: Seq<char>,
    args: Seq<Seq<char>>,
    files: Set<Seq<char>>,
    style: PathStyle,
)
    ensures
        ({
            let hint = node_hint(command, args, files, style);
            let package = first_holding(ancestors(args[0], style), "package.json"@, files, style);
            &&& hint is Some <==> args.len() > 0 && file_stem(command, style) == Some("node"@)
                && !files.contains(args[0])
            &&& hint is Some ==> holds_part(hint->0, args[0])
            &&& hint is Some && package is Some ==> holds_part(hint->0, package->0)
        }),
{
    let hint = node_hint(command, args, files, style);
    let package = first_holding(ancestors(args[0], style), "package.json"@, files, style);
    if hint is Some {
        let start = "the plugin's entry point "@;
        match package {
            Some(dir) => {
                let then = " does not exist - it has not been built yet. Run `npm ci && npm run build` in "@;
                lemma_holds(start, args[0], then + dir);
                assert(hint->0 =~= start + args[0] + (then + dir));
                lemma_holds(start + args[0] + then, dir, seq![]);
                assert(hint->0 =~= start + args[0] + then + dir + seq![]);
            },
            None => {
                lemma_holds(
                    start,
                    args[0],
                    " does not exist - it has not been built yet (run `npm ci && npm run build` in its package directory)"@,
                );
            },
        }
    }
}

/// An executable of a workspace that is not there was not built: that is told
/// exactly then, with what to run for it, in which directory if that is one
/// with a manifest, and with a release build asked for exactly where the
/// executable is one.
pub proof fn a_missing_executable_is_told_of(
    command: Seq<char>,
    suffix: Seq<char>,
    files: Set<Seq<char>>,
    style: PathStyle,
)
    ensures
        ({
            let hint = workspace_hint(command, suffix, files, style);
            let output = workspace_output(command, style);
            &&& hint is Some <==> !files.contains(command) && output is Some
            &&& hint is Some ==> holds_part(hint->0, build_command((output->0).0))
            &&& hint is Some && (output->0).1 is Some && files.contains(
                join((output->0).1->0, "Cargo.toml"@, style),
            ) ==> holds_part(hint->0, (output->0).1->0)
            &&& output matches Some((profile, above)) ==> {
                let dir = parent(command, style)->0;
                let target = parent(dir, style)->0;
                &&& parent(command, style) is Some
                &&& file_name(dir, style) == Some(profile)
                &&& profile == "debug"@ || profile == "release"@
                &&& parent(dir, style) is Some
                &&& file_name(target, style) == Some("target"@)
                &&& above == parent(target, style)
            }
            &&& parent(command, style) matches Some(dir) ==> (parent(dir, style) matches Some(target) ==> (
            file_name(target, style) == Some("target"@) && (file_name(dir, style) == Some("debug"@)
                || file_name(dir, style) == Some("release"@)) ==> output is Some))
            &&& build_command("release"@) == "cargo build --workspace --release"@
            &&& build_command("debug"@) == "cargo build --workspace"@
        }),
{
    reveal_strlit("release");
    reveal_strlit("debug");
    assert("release"@.len() != "debug"@.len());
    let hint = workspace_hint(command, suffix, files, style);
    if hint is Some {
        let (profile, above) = workspace_output(command, style)->0;
        let named = match suffixed(command, suffix, style) {
            Some(p) => p,
            None => command,
        };
        let start = "the plugin binary "@ + named + " does not exist - it has not been built yet"@;
        let run = build_command(profile);
        if above is Some && files.contains(join(above->0, "Cargo.toml"@, style)) {
            let root = above->0;
            lemma_holds(start + ". Run `"@, run, "` in "@ + root);
            assert(hint->0 =~= start + ". Run `"@ + run + ("` in "@ + root));
            lemma_holds(start + ". Run `"@ + run + "` in "@, root, seq![]);
            assert(hint->0 =~= start + ". Run `"@ + run + "` in "@ + root + seq![]);
        } else {
            lemma_holds(start + " (run `"@, run, "` in the repository root)"@);
        }
    }
}

/// A path takes the suffix exactly where it has a name without an extension.
pub proof fn a_name_without_an_extension_takes_the_suffix(
    path: Seq<char>,
    suffix: Seq<char>,
    style: PathStyle,
)
    ensures
        suffixed(path, suffix, style) is Some <==> suffix.len() > 0 && extension(path, style) is None
            && file_name(path, style) is Some,
        suffixed(path, suffix, style) matches Some(p) ==> parent(path, style) is Some && p == join(
            parent(path, style)->0,
            file_name(path, style)->0 + suffix,
            style,
        ),
{
    if file_name(path, style) is Some {
        file_name_has_parent(path, style);
    }
}

/// A disk is named by one letter and a colon, with nothing or a backslash
/// behind it.
pub proof fn a_disk_is_a_letter_and_a_colon(letter: char, rest: Seq<char>, s: Seq<char>)
    ensures
        'a' <= letter <= 'z' || 'A' <= letter <= 'Z' ==> names_disk(seq![letter, ':']) && names_disk(
            seq![letter, ':', '\\'] + rest,
        ),
        names_disk(s) ==> s.len() >= 2 && s[1] == ':' && ('a' <= s[0] <= 'z' || 'A' <= s[0] <= 'Z') && (s.len()
            == 2 || s[2] == '\\'),
{
    let whole = seq![letter, ':', '\\'] + rest;
    assert(whole[0] == letter && whole[1] == ':' && whole[2] == '\\');
}

} // verus!
