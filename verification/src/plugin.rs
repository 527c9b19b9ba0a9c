//! A language plugin as a process: where the bundled one lies, how one is
//! launched, how long it has to answer, and what a missing one is reported as.

use vstd::prelude::*;
use vstd::string::*;

use crate::files::Files;
use crate::manifest::{installed_bundled_root, installed_root, Capabilities, PluginManifest, WorkspaceConfig};
use crate::number::{parse_number, parsed};
use crate::path::{
    ancestors, ancestors_of, extension, extension_in, file_name, file_name_in, file_stem,
    file_stem_in, join, join_path, parent, parent_of, PathStyle,
};
use crate::spelling::{exe_suffixed, suffixed};
use crate::state_files::BUNDLED_LANGUAGE;
use crate::text::{chars_of, joined, opt_text, opt_view, same, trim, trimmed, views};
use crate::time::{from_millis, Duration, NANOS_PER_MILLI};

verus! {

/// Overrides where the bundled plugin lies.
pub const PLUGIN_PATH_ENV: &'static str = "G_MESH_JS_TS_PLUGIN_PATH";

pub const DEFAULT_FILE_CHANGED_TIMEOUT: Duration = 30_000_000_000;

pub const DEFAULT_SEMANTIC_PASS_FILE_TIMEOUT: Duration = 120_000_000_000;

pub const DEFAULT_SEMANTIC_PASS_PROJECT_TIMEOUT: Duration = 1_200_000_000_000;

/// How much time each indexed file buys a semantic pass over a project.
pub const SEMANTIC_PASS_PER_FILE_BUDGET: Duration = 10_000_000_000;

pub const FILE_CHANGED_TIMEOUT_ENV: &'static str = "G_MESH_FILE_CHANGED_TIMEOUT_MS";

pub const SEMANTIC_PASS_FILE_TIMEOUT_ENV: &'static str = "G_MESH_SEMANTIC_PASS_FILE_TIMEOUT_MS";

pub const SEMANTIC_PASS_PROJECT_TIMEOUT_ENV: &'static str = "G_MESH_SEMANTIC_PASS_PROJECT_TIMEOUT_MS";

/// What a fingerprint says that could not be taken: no hexadecimal text, and
/// always the same, so that two failures compare equal.
pub const FINGERPRINT_UNAVAILABLE: &'static str = "unavailable";

/// The bundled plugin as an executable of its own, without its suffix.
pub const BUNDLED_PLUGIN_EXE: &'static str = "g-mesh-plugin-typescript";

/// The bundled plugin's compiled script, seen from the crate's directory.
pub const CHECKOUT_ENTRY: &'static str = "../plugins/typescript/dist/src/index.js";

// ---------------------------------------------------------------------------
// How long a plugin has to answer
// ---------------------------------------------------------------------------
/// How long a plugin has to answer each kind of request.
#[derive(Clone, Copy, Debug, PartialEq, Eq, Structural)]
pub struct RoundTripTimeouts {
    pub file_changed: Duration,
    pub semantic_pass_file: Duration,
    /// The least that a semantic pass over a project gets; a large project
    /// gets more.
    pub semantic_pass_project: Duration,
}

impl Default for RoundTripTimeouts {
    fn default() -> (r: Self)
        ensures
            r.file_changed == DEFAULT_FILE_CHANGED_TIMEOUT,
            r.semantic_pass_file == DEFAULT_SEMANTIC_PASS_FILE_TIMEOUT,
            r.semantic_pass_project == DEFAULT_SEMANTIC_PASS_PROJECT_TIMEOUT,
    {
        RoundTripTimeouts {
            file_changed: DEFAULT_FILE_CHANGED_TIMEOUT,
            semantic_pass_file: DEFAULT_SEMANTIC_PASS_FILE_TIMEOUT,
            semantic_pass_project: DEFAULT_SEMANTIC_PASS_PROJECT_TIMEOUT,
        }
    }
}

/// A timeout that a variable overrides: a whole number of milliseconds that is
/// not zero. Anything else is ignored in favour of the default.
pub open spec fn round_trip(raw: Option<Seq<char>>, default: Duration) -> Duration {
    match raw {
        None => default,
        Some(text) => match parsed(trimmed(text), u64::MAX as nat) {
            None => default,
            Some(millis) => if millis == 0 {
                default
            } else {
                (millis * NANOS_PER_MILLI) as Duration
            },
        },
    }
}

/// The timeout that `raw` gives, or the default.
pub fn parse_round_trip_timeout(raw: Option<&str>, default: Duration) -> (r: Duration)
    ensures
        r == round_trip(opt_view(raw), default),
{
    match raw {
        None => default,
        Some(text) => match parse_number(trim(text).as_str(), u64::MAX as u128) {
            None => default,
            Some(millis) => {
                if millis == 0 {
                    default
                } else {
                    from_millis(millis as u64)
                }
            },
        },
    }
}

/// The larger of two time spans.
pub open spec fn longer(a: Duration, b: Duration) -> Duration {
    if a >= b {
        a
    } else {
        b
    }
}

impl RoundTripTimeouts {
    /// The defaults, unless the environment overrides them.
    pub fn from_env(
        file_changed: Option<&str>,
        semantic_pass_file: Option<&str>,
        semantic_pass_project: Option<&str>,
    ) -> (r: Self)
        ensures
            r.file_changed == round_trip(opt_view(file_changed), DEFAULT_FILE_CHANGED_TIMEOUT),
            r.semantic_pass_file == round_trip(
                opt_view(semantic_pass_file),
                DEFAULT_SEMANTIC_PASS_FILE_TIMEOUT,
            ),
            r.semantic_pass_project == round_trip(
                opt_view(semantic_pass_project),
                DEFAULT_SEMANTIC_PASS_PROJECT_TIMEOUT,
            ),
    {
        RoundTripTimeouts {
            file_changed: parse_round_trip_timeout(file_changed, DEFAULT_FILE_CHANGED_TIMEOUT),
            semantic_pass_file: parse_round_trip_timeout(
                semantic_pass_file,
                DEFAULT_SEMANTIC_PASS_FILE_TIMEOUT,
            ),
            semantic_pass_project: parse_round_trip_timeout(
                semantic_pass_project,
                DEFAULT_SEMANTIC_PASS_PROJECT_TIMEOUT,
            ),
        }
    }

    /// How long a semantic pass gets over a project of this many files: what
    /// each of them buys, and never less than the floor. More files than 32
    /// bits can count buy as much as that many.
    pub open spec fn project_timeout(self, file_count: nat) -> Duration {
        let counted = if file_count <= u32::MAX {
            file_count
        } else {
            u32::MAX as nat
        };
        longer(self.semantic_pass_project, (counted * SEMANTIC_PASS_PER_FILE_BUDGET) as Duration)
    }

    /// How long a semantic pass gets over a project of this many files.
    pub fn semantic_pass_project_timeout(&self, file_count: usize) -> (r: Duration)
        ensures
            r == self.project_timeout(file_count as nat),
    {
        let counted: u32 = if file_count <= u32::MAX as usize {
            file_count as u32
        } else {
            u32::MAX
        };
        let scaled: Duration = counted as u128 * SEMANTIC_PASS_PER_FILE_BUDGET;
        if self.semantic_pass_project >= scaled {
            self.semantic_pass_project
        } else {
            scaled
        }
    }
}

/// More files never get less time, and no project gets less than the floor.
pub proof fn larger_projects_get_no_less_time(timeouts: RoundTripTimeouts, fewer: nat, more: nat)
    requires
        fewer <= more,
    ensures
        timeouts.semantic_pass_project <= timeouts.project_timeout(fewer) <= timeouts.project_timeout(more),
{
    let a = if fewer <= u32::MAX {
        fewer
    } else {
        u32::MAX as nat
    };
    let b = if more <= u32::MAX {
        more
    } else {
        u32::MAX as nat
    };
    assert(a * SEMANTIC_PASS_PER_FILE_BUDGET <= b * SEMANTIC_PASS_PER_FILE_BUDGET) by (nonlinear_arith)
        requires
            a <= b,
            SEMANTIC_PASS_PER_FILE_BUDGET >= 0,
    ;
    assert(b * SEMANTIC_PASS_PER_FILE_BUDGET <= u32::MAX * SEMANTIC_PASS_PER_FILE_BUDGET)
        by (nonlinear_arith)
        requires
            b <= u32::MAX,
            SEMANTIC_PASS_PER_FILE_BUDGET >= 0,
    ;
}

// ---------------------------------------------------------------------------
// Where the bundled plugin lies and how a plugin is launched
// ---------------------------------------------------------------------------
/// The bundled plugin as an installed executable, if it is there.
pub open spec fn installed_exe(
    exe: Option<Seq<char>>,
    exe_suffix: Seq<char>,
    files: Set<Seq<char>>,
    style: PathStyle,
) -> Option<Seq<char>> {
    match installed_root(exe, style) {
        Some(root) => {
            let path = join(join(root, BUNDLED_LANGUAGE@, style), BUNDLED_PLUGIN_EXE@ + exe_suffix, style);
            if files.contains(path) {
                Some(path)
            } else {
                None
            }
        },
        None => None,
    }
}

/// The bundled plugin as an installed executable, if it is there.
pub fn installed_plugin_executable(
    exe: Option<&str>,
    exe_suffix: &str,
    files: &Files,
    style: PathStyle,
) -> (r: Option<String>)
    ensures
        opt_text(r) == installed_exe(opt_view(exe), exe_suffix@, files@, style),
{
    match installed_bundled_root(exe, style) {
        Some(root) => {
            let dir = join_path(root.as_str(), BUNDLED_LANGUAGE, style);
            let name = joined(BUNDLED_PLUGIN_EXE, exe_suffix);
            let path = join_path(dir.as_str(), name.as_str(), style);
            if files.is_file(path.as_str()) {
                Some(path)
            } else {
                None
            }
        },
        None => None,
    }
}

/// The bundled plugin's entry: the override, else the installed executable,
/// else the checkout's script.
pub open spec fn entry_path(
    over: Option<Seq<char>>,
    exe: Option<Seq<char>>,
    exe_suffix: Seq<char>,
    checkout: Seq<char>,
    files: Set<Seq<char>>,
    style: PathStyle,
) -> Seq<char> {
    match over {
        Some(path) => path,
        None => match installed_exe(exe, exe_suffix, files, style) {
            Some(path) => path,
            None => join(checkout, CHECKOUT_ENTRY@, style),
        },
    }
}

/// The bundled plugin's entry.
pub fn plugin_entry_path(
    over: Option<&str>,
    exe: Option<&str>,
    exe_suffix: &str,
    checkout: &str,
    files: &Files,
    style: PathStyle,
) -> (r: String)
    ensures
        r@ == entry_path(opt_view(over), opt_view(exe), exe_suffix@, checkout@, files@, style),
{
    match over {
        Some(path) => path.to_owned(),
        None => match installed_plugin_executable(exe, exe_suffix, files, style) {
            Some(path) => path,
            None => join_path(checkout, CHECKOUT_ENTRY, style),
        },
    }
}

/// `c` in lower case, if it is an ASCII letter.
pub open spec fn ascii_lower(c: char) -> char {
    if 'A' <= c <= 'Z' {
        ((c as u8) + 32) as u8 as char
    } else {
        c
    }
}

/// `s` with its ASCII letters in lower case.
pub open spec fn ascii_lowered(s: Seq<char>) -> Seq<char> {
    Seq::new(s.len(), |i: int| ascii_lower(s[i]))
}

fn to_ascii_lower(s: &str) -> (r: String)
    ensures
        r@ == ascii_lowered(s@),
{
    let v = chars_of(s);
    let mut r = String::new();
    let mut i: usize = 0;
    while i < v.len()
        invariant
            i <= v.len(),
            v@ == s@,
            r@ == ascii_lowered(s@).take(i as int),
        decreases v.len() - i,
    {
        let c: char = v[i];
        let lower: char = if 'A' <= c && c <= 'Z' {
            (c as u8 + 32) as char
        } else {
            c
        };
        r.push(lower);
        proof {
            assert(ascii_lowered(s@).take(i + 1) =~= ascii_lowered(s@).take(i as int).push(lower));
        }
        i += 1;
    }
    proof {
        assert(ascii_lowered(s@).take(i as int) =~= ascii_lowered(s@));
    }
    r
}

/// Whether an entry is a script, by its extension.
pub open spec fn is_script(entry: Seq<char>, style: PathStyle) -> bool {
    match extension(entry, style) {
        Some(ext) => ascii_lowered(ext) == "js"@ || ascii_lowered(ext) == "cjs"@ || ascii_lowered(ext)
            == "mjs"@,
        None => false,
    }
}

/// How an entry is launched: a script by its interpreter, anything else by
/// itself.
pub fn launch_command_for(entry: &str, style: PathStyle) -> (r: (String, Vec<String>))
    ensures
        if is_script(entry@, style) {
            r.0@ == "node"@ && views(r.1@) == seq![entry@]
        } else {
            r.0@ == entry@ && r.1@.len() == 0
        },
{
    let script: bool = match extension_in(entry, style) {
        Some(ext) => {
            let lower = to_ascii_lower(ext.as_str());
            same(lower.as_str(), "js") || same(lower.as_str(), "cjs") || same(lower.as_str(), "mjs")
        },
        None => false,
    };
    let mut args: Vec<String> = Vec::new();
    if script {
        args.push(entry.to_owned());
        proof {
            assert(views(args@) =~= seq![entry@]);
        }
        ("node".to_owned(), args)
    } else {
        (entry.to_owned(), args)
    }
}

/// A manifest for the bundled plugin at `entry`, with nothing read from disk.
pub fn bundled_manifest(entry: &str, protocol: u32, style: PathStyle) -> (r: PluginManifest)
    ensures
        r.language@ == BUNDLED_LANGUAGE@,
        r.protocol_version == protocol,
        r.plugin_version@.len() == 0,
        if is_script(entry@, style) {
            r.command@ == "node"@ && views(r.args@) == seq![entry@]
        } else {
            r.command@ == entry@ && r.args@.len() == 0
        },
        r.extensions@.len() == 0,
        r.fingerprint_ignore@.len() == 0,
        r.manifest_dir@ == (match parent(entry@, style) {
            Some(dir) => dir,
            None => seq![],
        }),
        !r.capabilities.semantic_pass,
        r.workspace.watch_files@.len() == 0,
        r.workspace.exclude_dirs@.len() == 0,
        r.workspace.entry_points@.len() == 0,
{
    let (command, args) = launch_command_for(entry, style);
    let manifest_dir: String = match parent_of(entry, style) {
        Some(dir) => dir,
        None => {
            let empty = String::new();
            proof {
                assert(empty@ =~= seq![]);
            }
            empty
        },
    };
    PluginManifest {
        language: BUNDLED_LANGUAGE.to_owned(),
        protocol_version: protocol,
        plugin_version: String::new(),
        command,
        args,
        extensions: Vec::new(),
        fingerprint_ignore: Vec::new(),
        manifest_dir,
        capabilities: Capabilities::default(),
        workspace: WorkspaceConfig::default(),
    }
}

/// What a plugin is refused for that says it is for another language than its
/// manifest does.
pub fn check_handshake(manifest: &PluginManifest, reported: &str) -> (r: Result<(), String>)
    ensures
        r is Ok <==> reported@ == manifest.language@,
        r matches Err(message) ==> message@ == "plugin at "@ + manifest.manifest_dir@
            + " declares language \""@ + manifest.language@
            + "\" in its manifest but its handshake reports \""@ + reported@
            + "\" - refusing to load"@,
{
    if same(reported, manifest.language.as_str()) {
        return Ok(());
    }
    let mut message: String = "plugin at ".to_owned();
    message.append(manifest.manifest_dir.as_str());
    message.append(" declares language \"");
    message.append(manifest.language.as_str());
    message.append("\" in its manifest but its handshake reports \"");
    message.append(reported);
    message.append("\" - refusing to load");
    Err(message)
}

// ---------------------------------------------------------------------------
// What a plugin that was never built is reported as
// ---------------------------------------------------------------------------
/// The first of `dirs` that holds the file `name`.
pub open spec fn first_holding(
    dirs: Seq<Seq<char>>,
    name: Seq<char>,
    files: Set<Seq<char>>,
    style: PathStyle,
) -> Option<
    Seq<char>,
>
    decreases dirs.len(),
{
    if dirs.len() == 0 {
        None
    } else if files.contains(join(dirs[0], name, style)) {
        Some(dirs[0])
    } else {
        first_holding(dirs.drop_first(), name, files, style)
    }
}

fn find_holding(dirs: &Vec<String>, name: &str, files: &Files, style: PathStyle) -> (r: Option<String>)
    ensures
        opt_text(r) == first_holding(views(dirs@), name@, files@, style),
{
    let mut i: usize = 0;
    let ghost all = views(dirs@);
    proof {
        assert(all.skip(0) =~= all);
    }
    while i < dirs.len()
        invariant
            i <= dirs.len(),
            all == views(dirs@),
            first_holding(all, name@, files@, style) == first_holding(all.skip(i as int), name@, files@, style),
        decreases dirs.len() - i,
    {
        proof {
            assert(all.skip(i as int)[0] == dirs@[i as int]@);
            assert(all.skip(i as int).drop_first() =~= all.skip(i + 1));
        }
        if files.is_file(join_path(dirs[i].as_str(), name, style).as_str()) {
            return Some(dirs[i].clone());
        }
        i += 1;
    }
    None
}

/// What a missing script is reported as: that it has not been built, and where
/// to build it, which is the nearest directory above it with a package in it.
pub open spec fn node_hint(
    command: Seq<char>,
    args: Seq<Seq<char>>,
    files: Set<Seq<char>>,
    style: PathStyle,
) -> Option<
    Seq<char>,
> {
    if args.len() == 0 || file_stem(command, style) != Some("node"@) || files.contains(args[0]) {
        None
    } else {
        Some(
            match first_holding(ancestors(args[0], style), "package.json"@, files, style) {
                Some(dir) => "the plugin's entry point "@ + args[0]
                    + " does not exist - it has not been built yet. Run `npm ci && npm run build` in "@
                    + dir,
                None => "the plugin's entry point "@ + args[0]
                    + " does not exist - it has not been built yet (run `npm ci && npm run build` in its package directory)"@,
            },
        )
    }
}

/// What a missing script of a plugin that `node` runs is reported as.
pub fn missing_node_entry_hint(
    command: &str,
    args: &Vec<String>,
    files: &Files,
    style: PathStyle,
) -> (r: Option<String>)
    ensures
        opt_text(r) == node_hint(command@, views(args@), files@, style),
{
    let is_node: bool = match file_stem_in(command, style) {
        Some(stem) => same(stem.as_str(), "node"),
        None => false,
    };
    if args.len() == 0 {
        return None;
    }
    let entry = args[0].as_str();
    proof {
        assert(views(args@)[0] == entry@);
    }
    if !is_node || files.is_file(entry) {
        return None;
    }
    let mut hint: String = "the plugin's entry point ".to_owned();
    hint.append(entry);
    match find_holding(&ancestors_of(entry, style), "package.json", files, style) {
        Some(dir) => {
            hint.append(
                " does not exist - it has not been built yet. Run `npm ci && npm run build` in ",
            );
            hint.append(dir.as_str());
        },
        None => {
            hint.append(
                " does not exist - it has not been built yet (run `npm ci && npm run build` in its package directory)",
            );
        },
    }
    Some(hint)
}

/// The command that builds a workspace in a profile.
pub open spec fn build_command(profile: Seq<char>) -> Seq<char> {
    if profile == "release"@ {
        "cargo build --workspace --release"@
    } else {
        "cargo build --workspace"@
    }
}

/// Which profile's output `command` is, and the directory above the target
/// directory; nothing if it lies in no target directory.
pub open spec fn workspace_output(
    command: Seq<char>,
    style: PathStyle,
) -> Option<(Seq<char>, Option<Seq<char>>)> {
    match parent(command, style) {
        None => None,
        Some(profile_dir) => match (file_name(profile_dir, style), parent(profile_dir, style)) {
            (Some(profile), Some(target_dir)) => if (profile == "debug"@ || profile == "release"@)
                && file_name(target_dir, style) == Some("target"@) {
                Some((profile, parent(target_dir, style)))
            } else {
                None
            },
            _ => None,
        },
    }
}

/// What a missing binary of a cargo workspace is reported as: that it has not
/// been built, and the command that builds it in the same profile. It is
/// named as the platform spells it.
pub open spec fn workspace_hint(
    command: Seq<char>,
    suffix: Seq<char>,
    files: Set<Seq<char>>,
    style: PathStyle,
) -> Option<
    Seq<char>,
> {
    if files.contains(command) {
        None
    } else {
        match workspace_output(command, style) {
            None => None,
            Some((profile, above)) => {
                let named = match suffixed(command, suffix, style) {
                    Some(p) => p,
                    None => command,
                };
                let start = "the plugin binary "@ + named
                    + " does not exist - it has not been built yet"@;
                match above {
                    Some(root) => if files.contains(join(root, "Cargo.toml"@, style)) {
                        Some(start + ". Run `"@ + build_command(profile) + "` in "@ + root)
                    } else {
                        Some(start + " (run `"@ + build_command(profile) + "` in the repository root)"@)
                    },
                    None => Some(
                        start + " (run `"@ + build_command(profile) + "` in the repository root)"@,
                    ),
                }
            },
        }
    }
}

/// What a missing binary of a cargo workspace is reported as, with the suffix
/// of the platform's executables given.
pub fn missing_workspace_binary_hint_with_suffix(
    command: &str,
    suffix: &str,
    files: &Files,
    style: PathStyle,
) -> (r: Option<String>)
    ensures
        opt_text(r) == workspace_hint(command@, suffix@, files@, style),
{
    if files.is_file(command) {
        return None;
    }
    let profile_dir: String = match parent_of(command, style) {
        Some(dir) => dir,
        None => {
            return None;
        },
    };
    let profile: String = match file_name_in(profile_dir.as_str(), style) {
        Some(name) => name,
        None => {
            return None;
        },
    };
    let release: bool = same(profile.as_str(), "release");
    if !release && !same(profile.as_str(), "debug") {
        return None;
    }
    let target_dir: String = match parent_of(profile_dir.as_str(), style) {
        Some(dir) => dir,
        None => {
            return None;
        },
    };
    let in_target: bool = match file_name_in(target_dir.as_str(), style) {
        Some(name) => same(name.as_str(), "target"),
        None => false,
    };
    if !in_target {
        return None;
    }
    let named: String = match exe_suffixed(command, suffix, style) {
        Some(p) => p,
        None => command.to_owned(),
    };
    let build: &str = if release {
        "cargo build --workspace --release"
    } else {
        "cargo build --workspace"
    };
    let mut hint: String = "the plugin binary ".to_owned();
    hint.append(named.as_str());
    hint.append(" does not exist - it has not been built yet");
    let root: Option<String> = match parent_of(target_dir.as_str(), style) {
        Some(dir) => {
            if files.is_file(join_path(dir.as_str(), "Cargo.toml", style).as_str()) {
                Some(dir)
            } else {
                None
            }
        },
        None => None,
    };
    match root {
        Some(dir) => {
            hint.append(". Run `");
            hint.append(build);
            hint.append("` in ");
            hint.append(dir.as_str());
        },
        None => {
            hint.append(" (run `");
            hint.append(build);
            hint.append("` in the repository root)");
        },
    }
    Some(hint)
}

/// What a missing binary of a cargo workspace is reported as.
pub fn missing_workspace_binary_hint(
    command: &str,
    exe_suffix: &str,
    files: &Files,
    style: PathStyle,
) -> (r: Option<String>)
    ensures
        opt_text(r) == workspace_hint(command@, exe_suffix@, files@, style),
{
    missing_workspace_binary_hint_with_suffix(command, exe_suffix, files, style)
}

/// What a plugin that was never built is reported as, whichever kind it is.
pub fn missing_plugin_binary_hint(
    command: &str,
    args: &Vec<String>,
    exe_suffix: &str,
    files: &Files,
    style: PathStyle,
) -> (r:
    Option<String>)
    ensures
        opt_text(r) == (match node_hint(command@, views(args@), files@, style) {
            Some(hint) => Some(hint),
            None => workspace_hint(command@, exe_suffix@, files@, style),
        }),
{
    match missing_node_entry_hint(command, args, files, style) {
        Some(hint) => Some(hint),
        None => missing_workspace_binary_hint(command, exe_suffix, files, style),
    }
}

} // verus!
