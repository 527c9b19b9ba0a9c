//! What a plugin declares about itself, and which plugin claims which file.
//!
//! A plugin is a directory named after its language that holds a manifest. A
//! manifest is checked once, when it is read; the set of plugins found over
//! all roots is put together once, at startup.

use vstd::prelude::*;
use vstd::string::*;

use crate::files::Files;
use crate::number::{decimal, decimal_text};
use crate::order::{sort_texts, sorted, sorted_is_in_order};
use crate::path::{extension, extension_in, file_name, file_name_in, join, join_path, PathStyle};
use crate::spelling::{
    arg_path, command_path, resolve_arg, resolve_command, CommandError, BIN_DIR_PLACEHOLDER,
};
use crate::text::{
    chars_of, contains_text, holds_part, opt_text, opt_view, same, split, split_on, views,
};

verus! {

/// The file of a plugin's directory that holds its manifest.
pub const MANIFEST_FILE_NAME: &'static str = "plugin.toml";

/// Names the manifest to a spawned plugin.
pub const MANIFEST_PATH_ENV: &'static str = "G_MESH_PLUGIN_MANIFEST";

/// Replaces the whole list of plugin roots.
pub const PLUGIN_ROOTS_OVERRIDE_ENV: &'static str = "G_MESH_PLUGIN_ROOTS_OVERRIDE";

/// The directory of plugin directories.
pub const PLUGINS_DIR: &'static str = "plugins";

/// The directory below the home directory that holds what users install.
pub const HOME_STATE_DIR: &'static str = ".g-mesh";

/// Where a checkout has its plugins, seen from the crate's directory.
pub const CHECKOUT_PLUGINS: &'static str = "../plugins";

// ---------------------------------------------------------------------------
// Outside functions
// ---------------------------------------------------------------------------
/// The lower-case form of a text.
pub uninterp spec fn lowercase(s: Seq<char>) -> Seq<char>;

/// `str::to_lowercase`: the result depends on the text alone.
#[verifier::external_body]
fn lowercase_of(s: &str) -> (r: String)
    ensures
        r@ == lowercase(s@),
{
    s.to_lowercase()
}

/// How deep alternations may nest in a pattern that is parsed.
pub const MAX_PARSED_NESTING: usize = 1_000;

/// The longest pattern that is compiled.
pub const MAX_PATTERN_CHARS: usize = 16_384;

/// How deep alternations may nest in a pattern that is compiled.
pub const MAX_COMPILED_NESTING: usize = 81;

/// Where in a pattern a character stands: what a brace means there.
#[derive(Clone, Copy, Debug, PartialEq, Eq, Structural)]
pub enum Scan {
    /// Where braces open and close alternations.
    Outside,
    /// Behind a backslash that takes the next character as it is.
    Escaped,
    /// Right behind the bracket that opens a class.
    ClassOpened,
    /// Behind the sign that negates a class.
    ClassNegated,
    /// Further inside a class.
    InClass,
}

/// Where the character behind `c` stands. Only some platforms have backslashes
/// that escape.
pub open spec fn scanned(at: Scan, c: char, escapes: bool) -> Scan {
    match at {
        Scan::Outside => if c == '[' {
            Scan::ClassOpened
        } else if c == '\\' && escapes {
            Scan::Escaped
        } else {
            Scan::Outside
        },
        Scan::Escaped => Scan::Outside,
        Scan::ClassOpened => if c == '!' || c == '^' {
            Scan::ClassNegated
        } else {
            Scan::InClass
        },
        // A bracket that comes first in a class does not close it.
        Scan::ClassNegated => Scan::InClass,
        Scan::InClass => if c == ']' {
            Scan::Outside
        } else {
            Scan::InClass
        },
    }
}

/// Where the character behind `pattern` would stand.
pub open spec fn scan(pattern: Seq<char>, escapes: bool) -> Scan
    decreases pattern.len(),
{
    if pattern.len() == 0 {
        Scan::Outside
    } else {
        scanned(scan(pattern.drop_last(), escapes), pattern.last(), escapes)
    }
}

/// How many alternations are open behind `pattern`: those it opens less those
/// it closes.
pub open spec fn open_behind(pattern: Seq<char>, escapes: bool) -> nat
    decreases pattern.len(),
{
    if pattern.len() == 0 {
        0
    } else {
        let before = open_behind(pattern.drop_last(), escapes);
        if scan(pattern.drop_last(), escapes) != Scan::Outside {
            before
        } else if pattern.last() == '{' {
            before + 1
        } else if pattern.last() == '}' && before > 0 {
            (before - 1) as nat
        } else {
            before
        }
    }
}

/// Whether no more than `max` alternations are ever open at once in `pattern`,
/// whether or not its backslashes escape.
pub open spec fn nests_within(pattern: Seq<char>, max: nat) -> bool {
    forall|n: int, escapes: bool|
        0 <= n <= pattern.len() ==> #[trigger] open_behind(pattern.take(n), escapes) <= max
}

/// Whether a pattern does not nest too deep to be parsed.
pub open spec fn is_parsable(pattern: Seq<char>) -> bool {
    nests_within(pattern, MAX_PARSED_NESTING as nat)
}

/// Whether a pattern is neither too long nor too deep to be compiled.
pub open spec fn is_compilable(pattern: Seq<char>) -> bool {
    pattern.len() <= MAX_PATTERN_CHARS && nests_within(pattern, MAX_COMPILED_NESTING as nat)
}

fn scan_on(at: Scan, c: char, escapes: bool) -> (r: Scan)
    ensures
        r == scanned(at, c, escapes),
{
    match at {
        Scan::Outside => {
            if c == '[' {
                Scan::ClassOpened
            } else if c == '\\' && escapes {
                Scan::Escaped
            } else {
                Scan::Outside
            }
        },
        Scan::Escaped => Scan::Outside,
        Scan::ClassOpened => {
            if c == '!' || c == '^' {
                Scan::ClassNegated
            } else {
                Scan::InClass
            }
        },
        Scan::ClassNegated => Scan::InClass,
        Scan::InClass => {
            if c == ']' {
                Scan::Outside
            } else {
                Scan::InClass
            }
        },
    }
}

fn stays_within(v: &Vec<char>, max: usize, escapes: bool) -> (r: bool)
    ensures
        r == (forall|n: int| 0 <= n <= v@.len() ==> #[trigger] open_behind(v@.take(n), escapes) <= max),
{
    let mut at: Scan = Scan::Outside;
    let mut open: usize = 0;
    let mut i: usize = 0;
    proof {
        assert(v@.take(0) =~= seq![]);
    }
    while i < v.len()
        invariant
            i <= v.len(),
            open <= max,
            at == scan(v@.take(i as int), escapes),
            open == open_behind(v@.take(i as int), escapes),
            forall|n: int| 0 <= n <= i ==> #[trigger] open_behind(v@.take(n), escapes) <= max,
        decreases v.len() - i,
    {
        let c = v[i];
        proof {
            assert(v@.take(i + 1).drop_last() =~= v@.take(i as int));
            assert(v@.take(i + 1).last() == c);
        }
        if at == Scan::Outside {
            if c == '{' {
                if open == max {
                    proof {
                        assert(open_behind(v@.take(i + 1), escapes) == max + 1);
                    }
                    return false;
                }
                open += 1;
            } else if c == '}' && open > 0 {
                open -= 1;
            }
        }
        at = scan_on(at, c, escapes);
        i += 1;
    }
    true
}

/// Whether no more than `max` alternations are ever open at once in `pattern`.
fn is_nested_within(pattern: &str, max: usize) -> (r: bool)
    ensures
        r == nests_within(pattern@, max as nat),
{
    let v = chars_of(pattern);
    let escaping: bool = stays_within(&v, max, true);
    let separating: bool = stays_within(&v, max, false);
    proof {
        if escaping && separating {
            assert forall|n: int, escapes: bool| 0 <= n <= pattern@.len() implies #[trigger] open_behind(
                pattern@.take(n),
                escapes,
            ) <= max by {
                if escapes {
                    assert(open_behind(v@.take(n), true) <= max);
                } else {
                    assert(open_behind(v@.take(n), false) <= max);
                }
            }
        }
    }
    escaping && separating
}

/// Whether a pattern is neither too long nor too deep to be compiled.
pub fn can_compile(pattern: &str) -> (r: bool)
    ensures
        r == is_compilable(pattern@),
{
    chars_of(pattern).len() <= MAX_PATTERN_CHARS && is_nested_within(pattern, MAX_COMPILED_NESTING)
}

/// Why a text is no glob pattern; nothing if it is one.
pub uninterp spec fn glob_refusal(pattern: Seq<char>) -> Option<Seq<char>>;

/// `globset::Glob::new`: whether it accepts the pattern, and otherwise its
/// error's text. It descends into every alternation within another, so only a
/// pattern that nests them to a bounded depth may be asked about. What a
/// backslash means to it differs between platforms, so nothing is claimed of a
/// pattern that holds one.
#[verifier::external_body]
fn glob_refusal_of(pattern: &str) -> (r: Option<String>)
    requires
        is_parsable(pattern@),
    ensures
        !pattern@.contains('\\') ==> opt_text(r) == glob_refusal(pattern@),
{
    globset::Glob::new(pattern).err().map(|e| e.to_string())
}

/// Whether a pattern matches a file name; a text that is no pattern matches
/// none.
pub uninterp spec fn glob_match(pattern: Seq<char>, name: Seq<char>) -> bool;

/// `globset::Glob::new`, `compile_matcher` and `is_match`: whether the pattern
/// matches the name. Compiling panics on a pattern that comes to a program of
/// more than ten mebibytes or to an expression of more than 250 levels, and
/// every alternation within another adds at most three levels, so only one
/// that cannot do either may be asked about. What a backslash means differs between
/// platforms, so nothing is claimed where there is one.
#[verifier::external_body]
pub(crate) fn glob_accepts(pattern: &str, name: &str) -> (r: bool)
    requires
        is_compilable(pattern@),
    ensures
        !pattern@.contains('\\') && !name@.contains('\\') ==> r == glob_match(pattern@, name@),
{
    match globset::Glob::new(pattern) {
        Ok(glob) => glob.compile_matcher().is_match(name),
        Err(_) => false,
    }
}

// ---------------------------------------------------------------------------
// Roots
// ---------------------------------------------------------------------------
/// The plugins beside the running executable.
pub fn installed_bundled_root(exe: Option<&str>, style: PathStyle) -> (r: Option<String>)
    ensures
        opt_text(r) == installed_root(opt_view(exe), style),
{
    match exe {
        Some(path) => match crate::path::parent_of(path, style) {
            Some(dir) => Some(join_path(dir.as_str(), PLUGINS_DIR, style)),
            None => None,
        },
        None => None,
    }
}

/// The plugins beside the executable `exe`.
pub open spec fn installed_root(exe: Option<Seq<char>>, style: PathStyle) -> Option<Seq<char>> {
    match exe {
        Some(path) => match crate::path::parent(path, style) {
            Some(dir) => Some(join(dir, PLUGINS_DIR@, style)),
            None => None,
        },
        None => None,
    }
}

/// The roots that come with an install, first one first: what lies beside the
/// executable, then the checkout it was built from.
pub open spec fn bundled(exe: Option<Seq<char>>, checkout: Seq<char>, style: PathStyle) -> Seq<Seq<char>> {
    match installed_root(exe, style) {
        Some(root) => seq![root, join(checkout, CHECKOUT_PLUGINS@, style)],
        None => seq![join(checkout, CHECKOUT_PLUGINS@, style)],
    }
}

/// The roots that come with an install. `exe` is the running executable, where
/// it is known; `checkout` the directory the crate was built in.
pub fn bundled_roots(exe: Option<&str>, checkout: &str, style: PathStyle) -> (r: Vec<String>)
    ensures
        views(r@) == bundled(opt_view(exe), checkout@, style),
{
    let mut r: Vec<String> = Vec::new();
    match installed_bundled_root(exe, style) {
        Some(root) => {
            r.push(root);
        },
        None => {},
    }
    r.push(join_path(checkout, CHECKOUT_PLUGINS, style));
    proof {
        assert(views(r@) =~= bundled(opt_view(exe), checkout@, style));
    }
    r
}

/// The roots to look for plugins in, first one first: the override alone where
/// there is one, else what users install, then what comes with the install.
pub open spec fn roots(
    over: Option<Seq<char>>,
    home: Option<Seq<char>>,
    exe: Option<Seq<char>>,
    checkout: Seq<char>,
    style: PathStyle,
) -> Seq<Seq<char>> {
    match over {
        Some(root) => seq![root],
        None => match home {
            Some(dir) => seq![join(join(dir, HOME_STATE_DIR@, style), PLUGINS_DIR@, style)] + bundled(
                exe,
                checkout,
                style,
            ),
            None => bundled(exe, checkout, style),
        },
    }
}

/// The roots to look for plugins in. `over` is the value of the override, and
/// `home` the user's home directory.
pub fn default_roots(
    over: Option<&str>,
    home: Option<&str>,
    exe: Option<&str>,
    checkout: &str,
    style: PathStyle,
) -> (r: Vec<String>)
    ensures
        views(r@) == roots(opt_view(over), opt_view(home), opt_view(exe), checkout@, style),
{
    let mut r: Vec<String> = Vec::new();
    match over {
        Some(root) => {
            r.push(root.to_owned());
            proof {
                assert(views(r@) =~= seq![root@]);
            }
            return r;
        },
        None => {},
    }
    match home {
        Some(dir) => {
            let state = join_path(dir, HOME_STATE_DIR, style);
            r.push(join_path(state.as_str(), PLUGINS_DIR, style));
        },
        None => {},
    }
    let ghost own = views(r@);
    let mut rest = bundled_roots(exe, checkout, style);
    let ghost more = views(rest@);
    r.append(&mut rest);
    proof {
        assert(views(r@) =~= own + more);
        assert(views(r@) =~= roots(None, opt_view(home), opt_view(exe), checkout@, style));
    }
    r
}

// ---------------------------------------------------------------------------
// Manifests
// ---------------------------------------------------------------------------
/// Whether a call on a receiver is resolved to what it calls.
#[derive(Clone, Copy, Debug, PartialEq, Eq, Structural)]
pub enum ReceiverCallResolution {
    Resolved,
    Unresolved,
}

impl ReceiverCallResolution {
    /// The word a manifest and a message have for it.
    pub open spec fn word(self) -> Seq<char> {
        match self {
            ReceiverCallResolution::Resolved => "resolved"@,
            ReceiverCallResolution::Unresolved => "unresolved"@,
        }
    }

    /// The word a manifest and a message have for it.
    pub fn as_text(&self) -> (r: &'static str)
        ensures
            r@ == self.word(),
    {
        match self {
            ReceiverCallResolution::Resolved => "resolved",
            ReceiverCallResolution::Unresolved => "unresolved",
        }
    }
}

impl Default for ReceiverCallResolution {
    /// What a plugin that says nothing is taken to do.
    fn default() -> (r: Self)
        ensures
            r == ReceiverCallResolution::Unresolved,
    {
        ReceiverCallResolution::Unresolved
    }
}

/// What a plugin can do beyond the structural pass.
#[derive(Clone, Copy, Debug, PartialEq, Eq, Structural)]
pub struct Capabilities {
    pub semantic_pass: bool,
    pub receiver_calls: ReceiverCallResolution,
    pub receiver_calls_structural: ReceiverCallResolution,
}

impl Default for Capabilities {
    /// A plugin that says nothing can do nothing beyond the structural pass.
    fn default() -> (r: Self)
        ensures
            !r.semantic_pass,
            r.receiver_calls == ReceiverCallResolution::Unresolved,
            r.receiver_calls_structural == ReceiverCallResolution::Unresolved,
    {
        Capabilities {
            semantic_pass: false,
            receiver_calls: ReceiverCallResolution::Unresolved,
            receiver_calls_structural: ReceiverCallResolution::Unresolved,
        }
    }
}

/// What a plugin says about the projects it works on: the glob patterns of the
/// files that shape a workspace, the directories it does not look into, and
/// the names a directory's main file may have.
#[derive(Clone, Debug, PartialEq, Eq)]
pub struct WorkspaceConfig {
    pub watch_files: Vec<String>,
    pub exclude_dirs: Vec<String>,
    pub entry_points: Vec<String>,
}

impl Default for WorkspaceConfig {
    fn default() -> (r: Self)
        ensures
            r.watch_files@.len() == 0,
            r.exclude_dirs@.len() == 0,
            r.entry_points@.len() == 0,
    {
        WorkspaceConfig { watch_files: Vec::new(), exclude_dirs: Vec::new(), entry_points: Vec::new() }
    }
}

/// A plugin's manifest, checked, with its paths resolved.
#[derive(Clone, Debug, PartialEq, Eq)]
pub struct PluginManifest {
    pub language: String,
    pub protocol_version: u32,
    pub plugin_version: String,
    pub command: String,
    pub args: Vec<String>,
    pub extensions: Vec<String>,
    pub fingerprint_ignore: Vec<String>,
    pub manifest_dir: String,
    pub capabilities: Capabilities,
    pub workspace: WorkspaceConfig,
}

impl PluginManifest {
    /// The manifest file this was read from.
    pub fn path(&self, style: PathStyle) -> (r: String)
        ensures
            r@ == join(self.manifest_dir@, MANIFEST_FILE_NAME@, style),
    {
        join_path(self.manifest_dir.as_str(), MANIFEST_FILE_NAME, style)
    }
}

/// A manifest as it is written, with every default filled in.
#[derive(Clone, Debug)]
pub struct RawPlugin {
    pub language: String,
    pub protocol_version: u32,
    pub plugin_version: String,
    pub command: String,
    pub args: Vec<String>,
    pub extensions: Vec<String>,
    pub fingerprint_ignore: Vec<String>,
    pub capabilities: Capabilities,
    pub watch_files: Vec<String>,
    pub exclude_dirs: Vec<String>,
    pub entry_points: Vec<String>,
}

/// Why a manifest is refused.
#[derive(Clone, Debug)]
pub enum ManifestError {
    /// Its directory has no name.
    NoDirectoryName,
    /// Its language is not its directory's name.
    Language { declared: String, dir_name: String },
    /// It speaks another protocol version.
    Protocol { declared: u32, expected: u32 },
    /// Its command cannot be resolved.
    Command(CommandError),
    /// One of its watched files is no glob pattern.
    Glob { pattern: String, reason: String },
}

/// What a `ManifestError` says.
pub enum Fault {
    NoDirectoryName,
    Language { declared: Seq<char>, dir_name: Seq<char> },
    Protocol { declared: u32, expected: u32 },
    Command(CommandError),
    Glob { pattern: Seq<char>, reason: Seq<char> },
}

impl ManifestError {
    pub open spec fn fault(self) -> Fault {
        match self {
            ManifestError::NoDirectoryName => Fault::NoDirectoryName,
            ManifestError::Language { declared, dir_name } => Fault::Language {
                declared: declared@,
                dir_name: dir_name@,
            },
            ManifestError::Protocol { declared, expected } => Fault::Protocol { declared, expected },
            ManifestError::Command(e) => Fault::Command(e),
            ManifestError::Glob { pattern, reason } => Fault::Glob { pattern: pattern@, reason: reason@ },
        }
    }
}

/// The first pattern that is refused, with the reason, in the order they are
/// written.
pub open spec fn first_refusal(patterns: Seq<Seq<char>>, refusals: Seq<Option<Seq<char>>>) -> Option<
    (Seq<char>, Seq<char>),
>
    decreases patterns.len(),
{
    if patterns.len() == 0 {
        None
    } else {
        match first_refusal(patterns.drop_last(), refusals.drop_last()) {
            Some(f) => Some(f),
            None => match refusals.last() {
                Some(reason) => Some((patterns.last(), reason)),
                None => None,
            },
        }
    }
}

/// What is wrong with a manifest in `dir`, if anything is: its directory's
/// name, its language, its protocol version, its command and its patterns are
/// looked at in this order, and the first fault is the answer.
pub open spec fn fault_of(
    raw: RawPlugin,
    dir: Seq<char>,
    protocol: u32,
    command: Result<Seq<char>, CommandError>,
    refusals: Seq<Option<Seq<char>>>,
    style: PathStyle,
) -> Option<Fault> {
    match file_name(dir, style) {
        None => Some(Fault::NoDirectoryName),
        Some(dir_name) => if raw.language@ != dir_name {
            Some(Fault::Language { declared: raw.language@, dir_name })
        } else if raw.protocol_version != protocol {
            Some(Fault::Protocol { declared: raw.protocol_version, expected: protocol })
        } else {
            match command {
                Err(e) => Some(Fault::Command(e)),
                Ok(_) => match first_refusal(views(raw.watch_files@), refusals) {
                    Some((pattern, reason)) => Some(Fault::Glob { pattern, reason }),
                    None => None,
                },
            }
        },
    }
}

/// Whether `m` is what `raw` says, in the directory `dir`.
pub open spec fn holds_manifest(
    m: PluginManifest,
    raw: RawPlugin,
    dir: Seq<char>,
    command: Seq<char>,
    style: PathStyle,
) -> bool {
    &&& m.language@ == raw.language@
    &&& m.protocol_version == raw.protocol_version
    &&& m.plugin_version@ == raw.plugin_version@
    &&& m.command@ == command
    &&& views(m.args@) == Seq::new(raw.args@.len(), |i: int| arg_path(raw.args@[i]@, dir, style))
    &&& m.extensions == raw.extensions
    &&& m.fingerprint_ignore == raw.fingerprint_ignore
    &&& m.manifest_dir@ == dir
    &&& m.capabilities == raw.capabilities
    &&& m.workspace.watch_files == raw.watch_files
    &&& m.workspace.exclude_dirs == raw.exclude_dirs
    &&& m.workspace.entry_points == raw.entry_points
}

/// What the optional texts of a list say, in order.
pub open spec fn opt_views(v: Seq<Option<String>>) -> Seq<Option<Seq<char>>> {
    Seq::new(v.len(), |i: int| opt_text(v[i]))
}

/// Whether checking `raw` in `dir` comes out as `r`.
pub open spec fn reads_as(
    r: Result<PluginManifest, ManifestError>,
    raw: RawPlugin,
    dir: Seq<char>,
    protocol: u32,
    command: Result<Seq<char>, CommandError>,
    refusals: Seq<Option<Seq<char>>>,
    style: PathStyle,
) -> bool {
    match r {
        Ok(m) => fault_of(raw, dir, protocol, command, refusals, style) is None && holds_manifest(
            m,
            raw,
            dir,
            command->Ok_0,
            style,
        ),
        Err(e) => fault_of(raw, dir, protocol, command, refusals, style) == Some(e.fault()),
    }
}

/// Checks a manifest that stands in `dir`. `refusals` holds, for each of its
/// patterns, the reason it is none, if it is none.
pub fn checked_manifest(
    raw: RawPlugin,
    dir: &str,
    protocol: u32,
    bin_dir: Option<&str>,
    exe_suffix: &str,
    files: &Files,
    refusals: &Vec<Option<String>>,
    style: PathStyle,
) -> (r: Result<PluginManifest, ManifestError>)
    requires
        refusals@.len() == raw.watch_files@.len(),
    ensures
        reads_as(
            r,
            raw,
            dir@,
            protocol,
            command_path(raw.command@, dir@, opt_view(bin_dir), exe_suffix@, files@, style),
            opt_views(refusals@),
            style,
        ),
{
    let dir_name: String = match file_name_in(dir, style) {
        Some(name) => name,
        None => {
            return Err(ManifestError::NoDirectoryName);
        },
    };
    if !same(raw.language.as_str(), dir_name.as_str()) {
        return Err(ManifestError::Language { declared: raw.language, dir_name });
    }
    if raw.protocol_version != protocol {
        return Err(ManifestError::Protocol { declared: raw.protocol_version, expected: protocol });
    }
    let command: String = match resolve_command(raw.command.as_str(), dir, bin_dir, exe_suffix, files, style) {
        Ok(p) => p,
        Err(e) => {
            return Err(ManifestError::Command(e));
        },
    };
    let mut args: Vec<String> = Vec::new();
    let mut i: usize = 0;
    while i < raw.args.len()
        invariant
            i <= raw.args.len(),
            views(args@) == Seq::new(i as nat, |j: int| arg_path(raw.args@[j]@, dir@, style)),
        decreases raw.args.len() - i,
    {
        let ghost before = views(args@);
        args.push(resolve_arg(raw.args[i].as_str(), dir, style));
        proof {
            assert(views(args@) =~= before.push(arg_path(raw.args@[i as int]@, dir@, style)));
            assert(views(args@) =~= Seq::new((i + 1) as nat, |j: int| arg_path(raw.args@[j]@, dir@, style)));
        }
        i += 1;
    }
    let ghost patterns = views(raw.watch_files@);
    let ghost reasons = opt_views(refusals@);
    let mut k: usize = 0;
    proof {
        assert(patterns.take(0) =~= seq![]);
    }
    while k < raw.watch_files.len()
        invariant
            k <= raw.watch_files.len(),
            refusals@.len() == raw.watch_files@.len(),
            patterns == views(raw.watch_files@),
            reasons == opt_views(refusals@),
            first_refusal(patterns.take(k as int), reasons.take(k as int)) is None,
            fault_of(
                raw,
                dir@,
                protocol,
                command_path(raw.command@, dir@, opt_view(bin_dir), exe_suffix@, files@, style),
                reasons,
                style,
            ) == (match first_refusal(patterns, reasons) {
                Some((pattern, reason)) => Some(Fault::Glob { pattern, reason }),
                None => None,
            }),
        decreases raw.watch_files.len() - k,
    {
        proof {
            assert(patterns.take(k + 1).drop_last() =~= patterns.take(k as int));
            assert(reasons.take(k + 1).drop_last() =~= reasons.take(k as int));
            assert(patterns.take(k + 1).last() == patterns[k as int]);
            assert(reasons.take(k + 1).last() == reasons[k as int]);
        }
        match &refusals[k] {
            Some(reason) => {
                proof {
                    lemma_first_refusal(patterns, reasons, k + 1);
                }
                return Err(
                    ManifestError::Glob { pattern: raw.watch_files[k].clone(), reason: reason.clone() },
                );
            },
            None => {},
        }
        k += 1;
    }
    proof {
        assert(patterns.take(k as int) =~= patterns);
        assert(reasons.take(k as int) =~= reasons);
    }
    Ok(
        PluginManifest {
            language: raw.language,
            protocol_version: raw.protocol_version,
            plugin_version: raw.plugin_version,
            command,
            args,
            extensions: raw.extensions,
            fingerprint_ignore: raw.fingerprint_ignore,
            manifest_dir: dir.to_owned(),
            capabilities: raw.capabilities,
            workspace: WorkspaceConfig {
                watch_files: raw.watch_files,
                exclude_dirs: raw.exclude_dirs,
                entry_points: raw.entry_points,
            },
        },
    )
}

proof fn lemma_first_refusal(patterns: Seq<Seq<char>>, refusals: Seq<Option<Seq<char>>>, k: int)
    requires
        0 <= k <= patterns.len(),
        patterns.len() == refusals.len(),
        first_refusal(patterns.take(k), refusals.take(k)) is Some,
    ensures
        first_refusal(patterns, refusals) == first_refusal(patterns.take(k), refusals.take(k)),
    decreases patterns.len() - k,
{
    if k < patterns.len() {
        assert(patterns.take(k + 1).drop_last() =~= patterns.take(k));
        assert(refusals.take(k + 1).drop_last() =~= refusals.take(k));
        lemma_first_refusal(patterns, refusals, k + 1);
    } else {
        assert(patterns.take(k) =~= patterns);
        assert(refusals.take(k) =~= refusals);
    }
}

impl RawPlugin {
    /// Whether none of the patterns nests too deep to be parsed.
    pub open spec fn has_parsable_patterns(self) -> bool {
        forall|i: int| 0 <= i < self.watch_files@.len() ==> is_parsable((#[trigger] self.watch_files@[i])@)
    }

    /// Whether none of the patterns nests too deep to be parsed.
    pub fn patterns_parse(&self) -> (r: bool)
        ensures
            r == self.has_parsable_patterns(),
    {
        let mut i: usize = 0;
        while i < self.watch_files.len()
            invariant
                i <= self.watch_files.len(),
                forall|j: int| 0 <= j < i ==> is_parsable((#[trigger] self.watch_files@[j])@),
            decreases self.watch_files.len() - i,
        {
            if !is_nested_within(self.watch_files[i].as_str(), MAX_PARSED_NESTING) {
                return false;
            }
            i += 1;
        }
        true
    }
}

/// Whether `refusals` is what the glob crate says of `patterns`, as far as
/// that is the same everywhere.
pub open spec fn answers(patterns: Seq<Seq<char>>, refusals: Seq<Option<Seq<char>>>) -> bool {
    &&& refusals.len() == patterns.len()
    &&& forall|i: int|
        0 <= i < patterns.len() && !(#[trigger] patterns[i]).contains('\\') ==> refusals[i]
            == glob_refusal(patterns[i])
}

/// Checks a manifest that stands in `dir`, its patterns included. `protocol`
/// is the version the core speaks, `bin_dir` the directory of the running
/// executable, `exe_suffix` what the platform's executables end in.
pub fn read_manifest(
    raw: RawPlugin,
    dir: &str,
    protocol: u32,
    bin_dir: Option<&str>,
    exe_suffix: &str,
    files: &Files,
    style: PathStyle,
) -> (r: Result<PluginManifest, ManifestError>)
    requires
        raw.has_parsable_patterns(),
    ensures
        exists|refusals: Seq<Option<Seq<char>>>| #[trigger]
            answers(views(raw.watch_files@), refusals) && reads_as(
                r,
                raw,
                dir@,
                protocol,
                command_path(raw.command@, dir@, opt_view(bin_dir), exe_suffix@, files@, style),
                refusals,
                style,
            ),
{
    let mut refusals: Vec<Option<String>> = Vec::new();
    let mut i: usize = 0;
    let ghost patterns = views(raw.watch_files@);
    while i < raw.watch_files.len()
        invariant
            i <= raw.watch_files.len(),
            refusals@.len() == i,
            raw.has_parsable_patterns(),
            patterns == views(raw.watch_files@),
            forall|j: int|
                0 <= j < i && !(#[trigger] patterns[j]).contains('\\') ==> opt_text(refusals@[j])
                    == glob_refusal(patterns[j]),
        decreases raw.watch_files.len() - i,
    {
        let refusal = glob_refusal_of(raw.watch_files[i].as_str());
        refusals.push(refusal);
        i += 1;
    }
    proof {
        assert(answers(patterns, opt_views(refusals@)));
    }
    checked_manifest(raw, dir, protocol, bin_dir, exe_suffix, files, &refusals, style)
}

/// The text of a `CommandError` for the command `value`.
pub open spec fn command_error_text(e: CommandError, value: Seq<char>) -> Seq<char> {
    match e {
        CommandError::PlaceholderNotAtStart => "`"@ + BIN_DIR_PLACEHOLDER@
            + "` is only expanded at the start of `command`, got \""@ + value + "\""@,
        CommandError::UnknownBinDir => "`command` \""@ + value + "\" uses `"@ + BIN_DIR_PLACEHOLDER@
            + "`, but the running executable's directory is unknown"@,
        CommandError::NoBinary => "`command` \""@ + value + "\" must be `"@ + BIN_DIR_PLACEHOLDER@
            + "/<binary>`"@,
    }
}

/// The text of a `CommandError` for the command `value`.
pub fn command_error_message(e: CommandError, value: &str) -> (r: String)
    ensures
        r@ == command_error_text(e, value@),
{
    let mut r: String;
    match e {
        CommandError::PlaceholderNotAtStart => {
            r = "`".to_owned();
            r.append(BIN_DIR_PLACEHOLDER);
            r.append("` is only expanded at the start of `command`, got \"");
            r.append(value);
            r.append("\"");
        },
        CommandError::UnknownBinDir => {
            r = "`command` \"".to_owned();
            r.append(value);
            r.append("\" uses `");
            r.append(BIN_DIR_PLACEHOLDER);
            r.append("`, but the running executable's directory is unknown");
        },
        CommandError::NoBinary => {
            r = "`command` \"".to_owned();
            r.append(value);
            r.append("\" must be `");
            r.append(BIN_DIR_PLACEHOLDER);
            r.append("/<binary>`");
        },
    }
    r
}

/// What a refused manifest is reported as. `dir` is its directory, `command`
/// the command it declares.
pub open spec fn fault_text(f: Fault, dir: Seq<char>, command: Seq<char>, style: PathStyle) -> Seq<char> {
    let path = join(dir, MANIFEST_FILE_NAME@, style);
    match f {
        Fault::NoDirectoryName => "plugin manifest at "@ + path + ": its directory "@ + dir
            + " has no valid (UTF-8) directory name"@,
        Fault::Language { declared, dir_name } => "plugin manifest at "@ + path
            + " declares language \""@ + declared + "\", but its containing directory is named \""@
            + dir_name + "\" - the manifest's language must match the directory it lives in"@,
        Fault::Protocol { declared, expected } => "plugin manifest at "@ + path
            + " declares protocol_version "@ + decimal(declared as nat)
            + ", but core expects protocol version "@ + decimal(expected as nat)
            + " - refusing to load; update the plugin to match"@,
        Fault::Command(e) => "invalid [plugin.spawn] command in plugin manifest at "@ + path + ": "@
            + command_error_text(e, command),
        Fault::Glob { pattern, reason } => "plugin manifest at "@ + path
            + " declares an invalid glob \""@ + pattern + "\" in [plugin.workspace] watch_files: "@
            + reason,
    }
}

impl ManifestError {
    /// What a refused manifest is reported as.
    pub fn message(&self, dir: &str, command: &str, style: PathStyle) -> (r: String)
        ensures
            r@ == fault_text(self.fault(), dir@, command@, style),
    {
        let path = join_path(dir, MANIFEST_FILE_NAME, style);
        let mut r: String;
        match self {
            ManifestError::NoDirectoryName => {
                r = "plugin manifest at ".to_owned();
                r.append(path.as_str());
                r.append(": its directory ");
                r.append(dir);
                r.append(" has no valid (UTF-8) directory name");
            },
            ManifestError::Language { declared, dir_name } => {
                r = "plugin manifest at ".to_owned();
                r.append(path.as_str());
                r.append(" declares language \"");
                r.append(declared.as_str());
                r.append("\", but its containing directory is named \"");
                r.append(dir_name.as_str());
                r.append("\" - the manifest's language must match the directory it lives in");
            },
            ManifestError::Protocol { declared, expected } => {
                r = "plugin manifest at ".to_owned();
                r.append(path.as_str());
                r.append(" declares protocol_version ");
                r.append(decimal_text(*declared as u128).as_str());
                r.append(", but core expects protocol version ");
                r.append(decimal_text(*expected as u128).as_str());
                r.append(" - refusing to load; update the plugin to match");
            },
            ManifestError::Command(e) => {
                r = "invalid [plugin.spawn] command in plugin manifest at ".to_owned();
                r.append(path.as_str());
                r.append(": ");
                r.append(command_error_message(*e, command).as_str());
            },
            ManifestError::Glob { pattern, reason } => {
                r = "plugin manifest at ".to_owned();
                r.append(path.as_str());
                r.append(" declares an invalid glob \"");
                r.append(pattern.as_str());
                r.append("\" in [plugin.workspace] watch_files: ");
                r.append(reason.as_str());
            },
        }
        r
    }
}

proof fn lemma_holds(before: Seq<char>, part: Seq<char>, after: Seq<char>)
    ensures
        holds_part(before + part + after, part),
{
    let whole = before + part + after;
    assert(whole.subrange(before.len() as int, before.len() as int + part.len()) =~= part);
}

/// Every refusal names the path of the manifest it is about.
pub proof fn every_refusal_names_its_manifest(f: Fault, dir: Seq<char>, command: Seq<char>, style: PathStyle)
    ensures
        holds_part(fault_text(f, dir, command, style), join(dir, MANIFEST_FILE_NAME@, style)),
{
    let path = join(dir, MANIFEST_FILE_NAME@, style);
    let text = fault_text(f, dir, command, style);
    let before = if f is Command {
        "invalid [plugin.spawn] command in plugin manifest at "@
    } else {
        "plugin manifest at "@
    };
    let after = text.skip((before.len() + path.len()) as int);
    assert(text =~= before + path + after);
    lemma_holds(before, path, after);
}

// ---------------------------------------------------------------------------
// Which plugin claims a file
// ---------------------------------------------------------------------------
/// The extension of a file as routing spells it: in lower case, with its dot.
pub open spec fn routed_extension(file_path: Seq<char>, style: PathStyle) -> Option<Seq<char>> {
    match extension(file_path, style) {
        Some(ext) => Some(seq!['.'] + lowercase(ext)),
        None => None,
    }
}

/// The extension of a file as routing spells it.
pub fn extension_of(file_path: &str, style: PathStyle) -> (r: Option<String>)
    ensures
        opt_text(r) == routed_extension(file_path@, style),
{
    match extension_in(file_path, style) {
        Some(ext) => {
            let mut r = String::new();
            r.push('.');
            r.append(lowercase_of(ext.as_str()).as_str());
            proof {
                assert(r@ =~= seq!['.'] + lowercase(ext@));
            }
            Some(r)
        },
        None => None,
    }
}

/// Whether a directory that `file_path` goes through is one of `dirs`, by its
/// whole name; the file's own name is not looked at.
pub open spec fn excluded(file_path: Seq<char>, dirs: Seq<Seq<char>>) -> bool {
    exists|i: int|
        0 <= i < split(file_path, '/').len() - 1 && dirs.contains(#[trigger] split(file_path, '/')[i])
}

/// Whether `file_path` lies under one of `exclude_dirs`.
pub fn under_excluded_dir(file_path: &str, exclude_dirs: &Vec<String>) -> (r: bool)
    ensures
        r == excluded(file_path@, views(exclude_dirs@)),
{
    if exclude_dirs.len() == 0 {
        return false;
    }
    let segments = split_on(file_path, '/');
    let ghost parts = split(file_path@, '/');
    let mut i: usize = 0;
    while i < segments.len() && i != segments.len() - 1
        invariant
            views(segments@) == parts,
            parts == split(file_path@, '/'),
            forall|j: int|
                0 <= j < i && j < parts.len() - 1 ==> !views(exclude_dirs@).contains(#[trigger] parts[j]),
            i <= segments.len(),
        decreases segments.len() - i,
    {
        proof {
            assert(parts[i as int] == segments@[i as int]@);
        }
        if contains_text(exclude_dirs, segments[i].as_str()) {
            return true;
        }
        i += 1;
    }
    false
}

/// The text that `key` leads to in a list of pairs: the first one's.
pub open spec fn lookup(pairs: Seq<(String, String)>, key: Seq<char>) -> Option<Seq<char>>
    decreases pairs.len(),
{
    if pairs.len() == 0 {
        None
    } else {
        match lookup(pairs.drop_last(), key) {
            Some(value) => Some(value),
            None => if pairs.last().0@ == key {
                Some(pairs.last().1@)
            } else {
                None
            },
        }
    }
}

proof fn lemma_lookup(pairs: Seq<(String, String)>, key: Seq<char>, at: int)
    requires
        0 <= at <= pairs.len(),
        forall|j: int| 0 <= j < at ==> (#[trigger] pairs[j]).0@ != key,
        at < pairs.len() ==> pairs[at].0@ == key,
    ensures
        lookup(pairs, key) == if at < pairs.len() {
            Some(pairs[at].1@)
        } else {
            None
        },
    decreases pairs.len(),
{
    if pairs.len() > 0 {
        let front = pairs.drop_last();
        if at < front.len() {
            lemma_lookup(front, key, at);
        } else {
            lemma_lookup(front, key, front.len() as int);
        }
    }
}

/// The text that `key` leads to.
fn look_up<'a>(pairs: &'a Vec<(String, String)>, key: &str) -> (r: Option<&'a str>)
    ensures
        opt_view(r) == lookup(pairs@, key@),
{
    let mut i: usize = 0;
    while i < pairs.len()
        invariant
            i <= pairs.len(),
            forall|j: int| 0 <= j < i ==> (#[trigger] pairs@[j]).0@ != key@,
        decreases pairs.len() - i,
    {
        if same(pairs[i].0.as_str(), key) {
            proof {
                lemma_lookup(pairs@, key@, i as int);
            }
            return Some(pairs[i].1.as_str());
        }
        i += 1;
    }
    proof {
        lemma_lookup(pairs@, key@, i as int);
    }
    None
}

/// The languages of a list of manifests, in order.
pub open spec fn languages(ms: Seq<PluginManifest>) -> Seq<Seq<char>> {
    Seq::new(ms.len(), |i: int| ms[i].language@)
}

/// The index of the manifest for `language`; the number of manifests if none is for it.
pub fn find_manifest(ms: &Vec<PluginManifest>, language: &str) -> (at: usize)
    ensures
        at <= ms@.len(),
        at < ms@.len() <==> languages(ms@).contains(language@),
        at < ms@.len() ==> ms@[at as int].language@ == language@,
        forall|j: int| 0 <= j < at ==> (#[trigger] ms@[j]).language@ != language@,
{
    let mut at: usize = 0;
    while at < ms.len()
        invariant
            at <= ms.len(),
            forall|j: int| 0 <= j < at ==> (#[trigger] ms@[j]).language@ != language@,
        decreases ms.len() - at,
    {
        if same(ms[at].language.as_str(), language) {
            proof {
                assert(languages(ms@)[at as int] == language@);
            }
            return at;
        }
        at += 1;
    }
    proof {
        assert forall|j: int| 0 <= j < ms@.len() implies languages(ms@)[j] != language@ by {
            assert(ms@[j].language@ != language@);
        }
    }
    at
}

/// The plugins that were found, and which language's plugin each extension
/// goes to.
#[derive(Clone, Debug, PartialEq, Eq)]
pub struct DiscoveredPlugins {
    pub manifests: Vec<PluginManifest>,
    pub routing: Vec<(String, String)>,
    /// How the paths of files are spelt.
    pub style: PathStyle,
}

impl Default for DiscoveredPlugins {
    /// No plugin at all.
    fn default() -> (r: Self)
        ensures
            r.manifests@.len() == 0,
            r.routing@.len() == 0,
            r.style == PathStyle::Unix,
    {
        DiscoveredPlugins { manifests: Vec::new(), routing: Vec::new(), style: PathStyle::Unix }
    }
}

impl DiscoveredPlugins {
    /// The language whose plugin claims a file, by its extension.
    pub open spec fn claimant(self, file_path: Seq<char>) -> Option<Seq<char>> {
        match routed_extension(file_path, self.style) {
            Some(ext) => lookup(self.routing@, ext),
            None => None,
        }
    }

    /// Whether the manifest for `language` keeps its plugin away from a file.
    pub open spec fn keeps_out(self, language: Seq<char>, file_path: Seq<char>) -> bool {
        exists|i: int|
            0 <= i < self.manifests@.len() && (#[trigger] self.manifests@[i]).language@ == language && (
            forall|j: int| 0 <= j < i ==> (#[trigger] self.manifests@[j]).language@ != language)
                && excluded(file_path, views(self.manifests@[i].workspace.exclude_dirs@))
    }

    /// The language whose plugin indexes a file: the one that claims it,
    /// unless the file lies in a directory that this language excludes.
    pub open spec fn indexer(self, file_path: Seq<char>) -> Option<Seq<char>> {
        match self.claimant(file_path) {
            Some(language) => if self.keeps_out(language, file_path) {
                None
            } else {
                Some(language)
            },
            None => None,
        }
    }

    /// The language whose plugin claims a file, by its extension.
    pub fn language_for(&self, file_path: &str) -> (r: Option<&str>)
        ensures
            opt_view(r) == self.claimant(file_path@),
    {
        match extension_of(file_path, self.style) {
            Some(ext) => look_up(&self.routing, ext.as_str()),
            None => None,
        }
    }

    /// The language whose plugin indexes a file.
    pub fn indexing_language(&self, file_path: &str) -> (r: Option<&str>)
        ensures
            opt_view(r) == self.indexer(file_path@),
    {
        match self.language_for(file_path) {
            Some(language) => {
                let at = find_manifest(&self.manifests, language);
                if at < self.manifests.len() && under_excluded_dir(
                    file_path,
                    &self.manifests[at].workspace.exclude_dirs,
                ) {
                    proof {
                        assert(self.manifests@[at as int].language@ == language@);
                    }
                    None
                } else {
                    proof {
                        if self.keeps_out(language@, file_path@) {
                            let i = choose|i: int|
                                0 <= i < self.manifests@.len() && (#[trigger] self.manifests@[i]).language@
                                    == language@ && (forall|j: int|
                                    0 <= j < i ==> (#[trigger] self.manifests@[j]).language@ != language@)
                                    && excluded(
                                    file_path@,
                                    views(self.manifests@[i].workspace.exclude_dirs@),
                                );
                            assert(languages(self.manifests@)[i] == language@);
                            assert(i == at);
                        }
                    }
                    Some(language)
                }
            },
            None => None,
        }
    }
}

/// The languages that can run a semantic pass, in the order of the manifests.
pub open spec fn capable(ms: Seq<PluginManifest>) -> Seq<Seq<char>>
    decreases ms.len(),
{
    if ms.len() == 0 {
        seq![]
    } else if ms.last().capabilities.semantic_pass {
        capable(ms.drop_last()).push(ms.last().language@)
    } else {
        capable(ms.drop_last())
    }
}

/// The languages that can run a semantic pass, sorted.
pub fn semantic_pass_capable_languages(manifests: &Vec<PluginManifest>) -> (r: Vec<String>)
    ensures
        views(r@) == sorted(capable(manifests@)),
{
    let mut found: Vec<String> = Vec::new();
    let mut i: usize = 0;
    proof {
        assert(manifests@.take(0) =~= seq![]);
        assert(views(found@) =~= seq![]);
    }
    while i < manifests.len()
        invariant
            i <= manifests.len(),
            views(found@) == capable(manifests@.take(i as int)),
        decreases manifests.len() - i,
    {
        let ghost before = views(found@);
        proof {
            assert(manifests@.take(i + 1).drop_last() =~= manifests@.take(i as int));
            assert(manifests@.take(i + 1).last() == manifests@[i as int]);
        }
        if manifests[i].capabilities.semantic_pass {
            found.push(manifests[i].language.clone());
            proof {
                assert(views(found@) =~= before.push(manifests@[i as int].language@));
            }
        }
        i += 1;
    }
    proof {
        assert(manifests@.take(i as int) =~= manifests@);
    }
    sort_texts(&found)
}

/// A language is among the capable ones if and only if one of its manifests
/// declares the capability.
pub proof fn capable_languages_declare_it(ms: Seq<PluginManifest>, language: Seq<char>)
    ensures
        sorted(capable(ms)).contains(language) <==> exists|i: int|
            0 <= i < ms.len() && (#[trigger] ms[i]).language@ == language
                && ms[i].capabilities.semantic_pass,
{
    sorted_is_in_order(capable(ms));
    lemma_capable(ms, language);
}

proof fn lemma_capable(ms: Seq<PluginManifest>, language: Seq<char>)
    ensures
        capable(ms).contains(language) <==> exists|i: int|
            0 <= i < ms.len() && (#[trigger] ms[i]).language@ == language
                && ms[i].capabilities.semantic_pass,
    decreases ms.len(),
{
    if ms.len() > 0 {
        let front = ms.drop_last();
        lemma_capable(front, language);
        if capable(ms).contains(language) {
            let k = choose|k: int| 0 <= k < capable(ms).len() && capable(ms)[k] == language;
            if k < capable(front).len() {
                assert(capable(front)[k] == language);
                let i = choose|i: int|
                    0 <= i < front.len() && (#[trigger] front[i]).language@ == language
                        && front[i].capabilities.semantic_pass;
                assert(ms[i].language@ == language);
            } else {
                assert(ms[ms.len() - 1].language@ == language);
            }
        }
        if exists|i: int|
            0 <= i < ms.len() && (#[trigger] ms[i]).language@ == language
                && ms[i].capabilities.semantic_pass {
            let i = choose|i: int|
                0 <= i < ms.len() && (#[trigger] ms[i]).language@ == language
                    && ms[i].capabilities.semantic_pass;
            if i < front.len() {
                assert(front[i].language@ == language);
                let k = choose|k: int| 0 <= k < capable(front).len() && capable(front)[k] == language;
                assert(capable(ms)[k] == language);
            } else {
                assert(capable(ms)[capable(ms).len() - 1] == language);
            }
        }
    }
}

// ---------------------------------------------------------------------------
// Discovery
// ---------------------------------------------------------------------------
/// The manifests that count of those found: the first one of each language.
pub open spec fn winners(found: Seq<PluginManifest>) -> Seq<PluginManifest>
    decreases found.len(),
{
    if found.len() == 0 {
        seq![]
    } else {
        let earlier = winners(found.drop_last());
        if languages(earlier).contains(found.last().language@) {
            earlier
        } else {
            earlier.push(found.last())
        }
    }
}

/// Whether the plugin claims files of this extension.
pub open spec fn claims(m: PluginManifest, ext: Seq<char>) -> bool {
    views(m.extensions@).contains(ext)
}

/// Whether two plugins for different languages claim the same extension.
pub open spec fn conflicting(ms: Seq<PluginManifest>) -> bool {
    exists|i: int, j: int, ext: Seq<char>|
        0 <= i < j < ms.len() && ms[i].language@ != ms[j].language@ && #[trigger] claims(ms[i], ext)
            && #[trigger] claims(ms[j], ext)
}

/// The language an extension goes to: that of the first plugin to claim it.
pub open spec fn first_claim(ms: Seq<PluginManifest>, ext: Seq<char>) -> Option<Seq<char>>
    decreases ms.len(),
{
    if ms.len() == 0 {
        None
    } else {
        match first_claim(ms.drop_last(), ext) {
            Some(language) => Some(language),
            None => if claims(ms.last(), ext) {
                Some(ms.last().language@)
            } else {
                None
            },
        }
    }
}

/// Two plugins for different languages that claim the same extension.
#[derive(Clone, Debug)]
pub struct ExtensionConflict {
    pub extension: String,
    pub first_language: String,
    pub first_manifest: String,
    pub second_language: String,
    pub second_manifest: String,
}

/// The file a manifest was read from.
pub open spec fn manifest_path(m: PluginManifest, style: PathStyle) -> Seq<char> {
    join(m.manifest_dir@, MANIFEST_FILE_NAME@, style)
}

impl ExtensionConflict {
    /// Whether this names two of the plugins and an extension they both claim.
    pub open spec fn is_between(self, ms: Seq<PluginManifest>, style: PathStyle) -> bool {
        exists|i: int, j: int|
            #![trigger ms[i], ms[j]]
            0 <= i < j < ms.len() && ms[i].language@ != ms[j].language@ && claims(ms[i], self.extension@)
                && claims(ms[j], self.extension@) && self.first_language@ == ms[i].language@
                && self.first_manifest@ == manifest_path(ms[i], style) && self.second_language@
                == ms[j].language@ && self.second_manifest@ == manifest_path(ms[j], style)
    }

    /// What the conflict is reported as.
    pub fn message(&self) -> (r: String)
        ensures
            r@ == "extension \""@ + self.extension@ + "\" is claimed by both plugin \""@
                + self.first_language@ + "\" ("@ + self.first_manifest@ + ") and plugin \""@
                + self.second_language@ + "\" ("@ + self.second_manifest@
                + ") - two different languages cannot claim the same file extension"@,
    {
        let mut r: String = "extension \"".to_owned();
        r.append(self.extension.as_str());
        r.append("\" is claimed by both plugin \"");
        r.append(self.first_language.as_str());
        r.append("\" (");
        r.append(self.first_manifest.as_str());
        r.append(") and plugin \"");
        r.append(self.second_language.as_str());
        r.append("\" (");
        r.append(self.second_manifest.as_str());
        r.append(") - two different languages cannot claim the same file extension");
        r
    }
}

/// The first manifest of each language, in the order they were found.
fn keep_winners(found: Vec<PluginManifest>) -> (r: Vec<PluginManifest>)
    ensures
        r@ == winners(found@),
{
    let ghost all = found@;
    let mut rest = found;
    let mut kept: Vec<PluginManifest> = Vec::new();
    proof {
        assert(all.take(0) =~= seq![]);
        assert(all.skip(0) =~= all);
    }
    let ghost mut n: int = 0;
    while rest.len() > 0
        invariant
            0 <= n <= all.len(),
            rest@ == all.skip(n),
            kept@ == winners(all.take(n)),
        decreases rest.len(),
    {
        let m = rest.remove(0);
        proof {
            assert(m == all[n]);
            assert(rest@ =~= all.skip(n + 1));
            assert(all.take(n + 1).drop_last() =~= all.take(n));
            assert(all.take(n + 1).last() == all[n]);
            n = n + 1;
        }
        if find_manifest(&kept, m.language.as_str()) == kept.len() {
            kept.push(m);
        }
    }
    proof {
        assert(all.take(n) =~= all);
    }
    kept
}

proof fn lemma_first_claim(ms: Seq<PluginManifest>, ext: Seq<char>)
    ensures
        first_claim(ms, ext) is Some <==> exists|i: int| 0 <= i < ms.len() && #[trigger] claims(ms[i], ext),
        first_claim(ms, ext) matches Some(language) ==> exists|i: int|
            0 <= i < ms.len() && #[trigger] claims(ms[i], ext) && ms[i].language@ == language,
    decreases ms.len(),
{
    if ms.len() > 0 {
        let front = ms.drop_last();
        lemma_first_claim(front, ext);
        if first_claim(front, ext) is Some {
            let i = choose|i: int|
                0 <= i < front.len() && #[trigger] claims(front[i], ext) && Some(front[i].language@)
                    == first_claim(front, ext);
            assert(claims(ms[i], ext));
        }
        if first_claim(ms, ext) is Some && first_claim(front, ext) is None {
            assert(claims(ms[ms.len() - 1], ext));
        }
        if exists|i: int| 0 <= i < ms.len() && #[trigger] claims(ms[i], ext) {
            let i = choose|i: int| 0 <= i < ms.len() && #[trigger] claims(ms[i], ext);
            if i < front.len() {
                assert(claims(front[i], ext));
            }
        }
    }
}

/// Which language each extension goes to, or two plugins that cannot both be
/// there.
fn route(ms: &Vec<PluginManifest>, style: PathStyle) -> (r: Result<Vec<(String, String)>, ExtensionConflict>)
    requires
        forall|i: int, j: int|
            0 <= i < j < ms@.len() ==> (#[trigger] ms@[i]).language@ != (#[trigger] ms@[j]).language@,
    ensures
        match r {
            Ok(routing) => !conflicting(ms@) && forall|ext: Seq<char>| #[trigger]
                lookup(routing@, ext) == first_claim(ms@, ext),
            Err(conflict) => conflict.is_between(ms@, style),
        },
{
    let mut routing: Vec<(String, String)> = Vec::new();
    let mut i: usize = 0;
    while i < ms.len()
        invariant
            i <= ms.len(),
            forall|a: int, b: int|
                0 <= a < b < ms@.len() ==> (#[trigger] ms@[a]).language@ != (#[trigger] ms@[b]).language@,
            forall|ext: Seq<char>|
                (#[trigger] lookup(routing@, ext)) is Some ==> exists|p: int|
                    0 <= p < i && #[trigger] claims(ms@[p], ext) && lookup(routing@, ext) == Some(
                        ms@[p].language@,
                    ),
            forall|p: int, ext: Seq<char>|
                0 <= p < i && #[trigger] claims(ms@[p], ext) ==> lookup(routing@, ext) == Some(
                    ms@[p].language@,
                ),
        decreases ms.len() - i,
    {
        let mut k: usize = 0;
        let ghost own = views(ms@[i as int].extensions@);
        while k < ms[i as usize].extensions.len()
            invariant
                i < ms.len(),
                k <= ms@[i as int].extensions@.len(),
                forall|a: int, b: int|
                    0 <= a < b < ms@.len() ==> (#[trigger] ms@[a]).language@ != (
                    #[trigger] ms@[b]).language@,
                own == views(ms@[i as int].extensions@),
                forall|ext: Seq<char>|
                    (#[trigger] lookup(routing@, ext)) is Some ==> exists|p: int|
                        0 <= p <= i && #[trigger] claims(ms@[p], ext) && lookup(routing@, ext) == Some(
                            ms@[p].language@,
                        ),
                forall|p: int, ext: Seq<char>|
                    0 <= p < i && #[trigger] claims(ms@[p], ext) ==> lookup(routing@, ext) == Some(
                        ms@[p].language@,
                    ),
                forall|j: int|
                    0 <= j < k ==> lookup(routing@, #[trigger] own[j]) == Some(ms@[i as int].language@),
            decreases ms@[i as int].extensions@.len() - k,
        {
            let m = &ms[i];
            let ext: &str = m.extensions[k].as_str();
            proof {
                assert(own[k as int] == ext@);
                assert(claims(ms@[i as int], ext@));
            }
            match look_up(&routing, ext) {
                Some(language) => {
                    if !same(language, m.language.as_str()) {
                        let at = find_manifest(ms, language);
                        proof {
                            let p = choose|p: int|
                                0 <= p <= i && #[trigger] claims(ms@[p], ext@) && ms@[p].language@ == language@;
                            assert(languages(ms@)[p] == language@);
                            assert(p == at);
                        }
                        let first = &ms[at];
                        let conflict = ExtensionConflict {
                            extension: ext.to_owned(),
                            first_language: first.language.clone(),
                            first_manifest: first.path(style),
                            second_language: m.language.clone(),
                            second_manifest: m.path(style),
                        };
                        proof {
                            assert(conflict.is_between(ms@, style)) by {
                                assert(ms@[at as int].language@ != ms@[i as int].language@);
                            }
                        }
                        return Err(conflict);
                    }
                },
                None => {
                    let ghost before = routing@;
                    routing.push((ext.to_owned(), m.language.clone()));
                    proof {
                        assert(routing@.drop_last() =~= before);
                        assert forall|e: Seq<char>|
                            (#[trigger] lookup(routing@, e)) is Some implies exists|p: int|
                            0 <= p <= i && #[trigger] claims(ms@[p], e) && lookup(routing@, e) == Some(
                                ms@[p].language@,
                            ) by {
                            if lookup(before, e) is None {
                                assert(claims(ms@[i as int], e));
                            }
                        }
                    }
                },
            }
            k += 1;
        }
        proof {
            assert forall|p: int, ext: Seq<char>|
                0 <= p < i + 1 && #[trigger] claims(ms@[p], ext) implies lookup(routing@, ext) == Some(
                ms@[p].language@,
            ) by {
                if p == i {
                    let j = choose|j: int| 0 <= j < own.len() && own[j] == ext;
                    assert(lookup(routing@, own[j]) == Some(ms@[i as int].language@));
                }
            }
        }
        i += 1;
    }
    proof {
        assert forall|ext: Seq<char>| #[trigger] lookup(routing@, ext) == first_claim(ms@, ext) by {
            lemma_first_claim(ms@, ext);
        }
    }
    Ok(routing)
}

/// Puts together what was found, first root first: the first manifest of a
/// language counts and the later ones are shadowed, and no two languages may
/// claim one extension.
pub fn discover(
    found: Vec<PluginManifest>,
    style: PathStyle,
) -> (r: Result<DiscoveredPlugins, ExtensionConflict>)
    ensures
        r is Err <==> conflicting(winners(found@)),
        match r {
            Ok(d) => d.style == style && d.manifests@ == winners(found@) && forall|ext: Seq<char>| #[trigger]
                lookup(d.routing@, ext) == first_claim(winners(found@), ext),
            Err(conflict) => conflict.is_between(winners(found@), style),
        },
{
    proof {
        earlier_roots_shadow_later_ones(found@);
    }
    let manifests = keep_winners(found);
    match route(&manifests, style) {
        Ok(routing) => Ok(DiscoveredPlugins { manifests, routing, style }),
        Err(conflict) => Err(conflict),
    }
}

/// Of several manifests for one language exactly the first one counts, and
/// every language that was found is represented.
pub proof fn earlier_roots_shadow_later_ones(found: Seq<PluginManifest>)
    ensures
        forall|i: int, j: int|
            0 <= i < j < winners(found).len() ==> (#[trigger] winners(found)[i]).language@ != (
            #[trigger] winners(found)[j]).language@,
        forall|l: Seq<char>| #[trigger] languages(winners(found)).contains(l) <==> languages(found).contains(l),
        forall|k: int|
            0 <= k < winners(found).len() ==> exists|i: int|
                0 <= i < found.len() && #[trigger] found[i] == #[trigger] winners(found)[k] && forall|j: int|
                    0 <= j < i ==> (#[trigger] found[j]).language@ != found[i].language@,
    decreases found.len(),
{
    let w = winners(found);
    if found.len() > 0 {
        let front = found.drop_last();
        let last = found.last();
        let e = winners(front);
        earlier_roots_shadow_later_ones(front);
        assert forall|l: Seq<char>| #[trigger] languages(w).contains(l) <==> languages(found).contains(l) by {
            if languages(w).contains(l) {
                let k = choose|k: int| 0 <= k < w.len() && languages(w)[k] == l;
                if k < e.len() {
                    assert(languages(e)[k] == l);
                    assert(languages(e).contains(l));
                    let i = choose|i: int| 0 <= i < front.len() && languages(front)[i] == l;
                    assert(languages(found)[i] == l);
                } else {
                    assert(languages(found)[found.len() - 1] == l);
                }
            }
            if languages(found).contains(l) {
                let i = choose|i: int| 0 <= i < found.len() && languages(found)[i] == l;
                if i < front.len() {
                    assert(languages(front)[i] == l);
                    assert(languages(e).contains(l));
                }
                if languages(e).contains(l) {
                    let k = choose|k: int| 0 <= k < e.len() && languages(e)[k] == l;
                    assert(languages(w)[k] == l);
                } else {
                    assert(languages(w)[w.len() - 1] == l);
                }
            }
        }
        assert forall|i: int, j: int| 0 <= i < j < w.len() implies (#[trigger] w[i]).language@ != (
        #[trigger] w[j]).language@ by {
            if j == e.len() {
                assert(languages(e)[i] == w[i].language@);
            } else {
                assert(e[i] == w[i] && e[j] == w[j]);
            }
        }
        assert forall|k: int| 0 <= k < w.len() implies exists|i: int|
            0 <= i < found.len() && #[trigger] found[i] == #[trigger] w[k] && forall|j: int|
                0 <= j < i ==> (#[trigger] found[j]).language@ != found[i].language@ by {
            if k < e.len() {
                assert(e[k] == w[k]);
                let i = choose|i: int|
                    0 <= i < front.len() && #[trigger] front[i] == e[k] && forall|j: int|
                        0 <= j < i ==> (#[trigger] front[j]).language@ != front[i].language@;
                assert(found[i] == w[k]);
                assert forall|j: int| 0 <= j < i implies (#[trigger] found[j]).language@
                    != found[i].language@ by {
                    assert(front[j] == found[j]);
                }
            } else {
                let i = found.len() - 1;
                assert(found[i] == w[k]);
                assert forall|j: int| 0 <= j < i implies (#[trigger] found[j]).language@
                    != found[i].language@ by {
                    assert(languages(front)[j] == found[j].language@);
                    assert(languages(front).contains(found[j].language@));
                }
            }
        }
    }
}

/// Without a conflict every extension goes to the one language that claims it.
pub proof fn an_extension_has_one_language(ms: Seq<PluginManifest>, i: int, ext: Seq<char>)
    requires
        !conflicting(ms),
        0 <= i < ms.len(),
        claims(ms[i], ext),
    ensures
        first_claim(ms, ext) == Some(ms[i].language@),
{
    lemma_first_claim(ms, ext);
    let k = choose|k: int|
        0 <= k < ms.len() && #[trigger] claims(ms[k], ext) && Some(ms[k].language@) == first_claim(ms, ext);
    if ms[k].language@ != ms[i].language@ {
        if k < i {
            assert(claims(ms[k], ext) && claims(ms[i], ext));
        } else {
            assert(claims(ms[i], ext) && claims(ms[k], ext));
        }
    }
}

} // verus!
