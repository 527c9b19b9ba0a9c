//! How a manifest spells a command, an argument or a directory, and which
//! path that comes to.

use vstd::prelude::*;
use vstd::string::*;

use crate::files::Files;
use crate::path::{
    components, extension, extension_in, file_name, file_name_in, join, join_path, parent, parent_of,
    PathStyle,
};
use crate::path_laws::{
    a_joined_name_is_the_file_name, a_path_is_its_directory_and_its_name, is_part, is_plain,
    lemma_file_name_is_plain, lemma_join_anchored, starts_alike,
};
use crate::text::{
    chars_of, contains_part, holds_part, joined, joined_with, opt_text, opt_view, result_view, same, slice_text,
    strip_prefix,
};

verus! {

/// The placeholder a command starts with to be looked up beside the running
/// executable.
pub const BIN_DIR_PLACEHOLDER: &'static str = "${G_MESH_BIN_DIR}";

/// The longest path that can be spelt without the extended-length prefix, in
/// UTF-16 code units.
pub const MAX_PATH_WITHOUT_NUL: usize = 259;

/// The directory cargo builds test executables in, below the profile's own.
pub const TEST_EXE_DIR: &'static str = "deps";

/// The directory of the binaries built along with `exe`: the one that holds
/// it, or the one above where that is cargo's directory of test executables.
pub open spec fn bin_dir(exe: Seq<char>, style: PathStyle) -> Option<Seq<char>> {
    match parent(exe, style) {
        Some(dir) => if file_name(dir, style) == Some(TEST_EXE_DIR@) {
            parent(dir, style)
        } else {
            Some(dir)
        },
        None => None,
    }
}

/// The directory of the binaries built along with `exe`.
pub fn bin_dir_of(exe: &str, style: PathStyle) -> (r: Option<String>)
    ensures
        opt_text(r) == bin_dir(exe@, style),
{
    match parent_of(exe, style) {
        Some(dir) => {
            let in_test_dir: bool = match file_name_in(dir.as_str(), style) {
                Some(name) => same(name.as_str(), TEST_EXE_DIR),
                None => false,
            };
            if in_test_dir {
                parent_of(dir.as_str(), style)
            } else {
                Some(dir)
            }
        },
        None => None,
    }
}

/// Whether `value` contains a path separator: the line between a name to look
/// up and a path to resolve.
pub open spec fn has_separator(value: Seq<char>, style: PathStyle) -> bool {
    exists|i: int| 0 <= i < value.len() && style.separates(#[trigger] value[i])
}

/// Whether `value` contains a path separator.
pub fn has_path_separator(value: &str, style: PathStyle) -> (r: bool)
    ensures
        r == has_separator(value@, style),
{
    let v = chars_of(value);
    let mut i: usize = 0;
    while i < v.len()
        invariant
            v@ == value@,
            i <= v.len(),
            forall|j: int| 0 <= j < i ==> !style.separates(#[trigger] v@[j]),
        decreases v.len() - i,
    {
        if style.is_separator(v[i]) {
            proof {
                assert(style.separates(value@[i as int]));
            }
            return true;
        }
        i += 1;
    }
    false
}

/// `path` with `suffix` behind its file name; nothing where the name has an
/// extension or the suffix is empty.
pub open spec fn suffixed(path: Seq<char>, suffix: Seq<char>, style: PathStyle) -> Option<Seq<char>> {
    if suffix.len() == 0 || extension(path, style) is Some {
        None
    } else {
        match (file_name(path, style), parent(path, style)) {
            (Some(name), Some(dir)) => Some(join(dir, name + suffix, style)),
            _ => None,
        }
    }
}

/// A path with a file name has a directory that the name stands in.
pub proof fn file_name_has_parent(path: Seq<char>, style: PathStyle)
    requires
        file_name(path, style) is Some,
    ensures
        parent(path, style) is Some,
{
    a_path_is_its_directory_and_its_name(path, style);
}

/// A suffixed path keeps its directory, component for component, and its file
/// name is the name with the suffix behind it. The suffix holds no separator.
/// (On Windows a name that looks like a drive, or that becomes a part of the
/// path's share, is none.)
pub proof fn a_suffixed_path_keeps_its_directory(path: Seq<char>, suffix: Seq<char>, style: PathStyle)
    requires
        suffixed(path, suffix, style) is Some,
        forall|i: int| 0 <= i < suffix.len() ==> !style.separates(#[trigger] suffix[i]),
        style == PathStyle::Windows ==> is_plain(file_name(path, style)->0 + suffix, style) && starts_alike(
            parent(path, style)->0,
            suffixed(path, suffix, style)->0,
            style,
        ),
    ensures
        ({
            let q = suffixed(path, suffix, style)->0;
            &&& file_name(q, style) == Some(file_name(path, style)->0 + suffix)
            &&& parent(q, style) is Some
            &&& components(parent(q, style)->0, style) == components(parent(path, style)->0, style)
        }),
{
    let dir = parent(path, style)->0;
    let name = file_name(path, style)->0;
    let full = name + suffix;
    if style == PathStyle::Unix {
        lemma_file_name_is_plain(path);
        reveal_strlit(".");
        reveal_strlit("..");
        assert("."@ =~= seq!['.']);
        assert(".."@ =~= seq!['.', '.']);
        assert forall|i: int| 0 <= i < full.len() implies !style.separates(#[trigger] full[i]) by {
            if i < name.len() {
                assert(full[i] == name[i]);
            } else {
                assert(full[i] == suffix[i - name.len()]);
            }
        }
        if full == "."@ || full == ".."@ {
            assert(full[0] == '.');
            assert(name[0] == full[0]);
            if name.len() == 1 {
                assert(name =~= seq!['.']);
            } else {
                assert(name =~= full);
            }
        }
        assert(is_plain(full, style));
        let ns = seq![full];
        assert(joined_with(ns, "/"@) == full);
        assert(is_part(ns[0], style));
        lemma_join_anchored(dir, ns, style);
    }
    a_joined_name_is_the_file_name(dir, full, style);
}

/// The spelling of `path` with the platform's executable suffix.
pub fn exe_suffixed(path: &str, suffix: &str, style: PathStyle) -> (r: Option<String>)
    ensures
        opt_text(r) == suffixed(path@, suffix@, style),
{
    if suffix.is_empty() || extension_in(path, style).is_some() {
        return None;
    }
    match file_name_in(path, style) {
        Some(name) => {
            proof {
                file_name_has_parent(path@, style);
            }
            match parent_of(path, style) {
                Some(dir) => {
                    let full = joined(name.as_str(), suffix);
                    Some(join_path(dir.as_str(), full.as_str(), style))
                },
                None => None,
            }
        },
        None => None,
    }
}

/// What `resolved` comes to: itself, unless it does not exist and its
/// suffixed spelling does.
pub open spec fn exe_resolved(
    resolved: Seq<char>,
    suffix: Seq<char>,
    files: Set<Seq<char>>,
    style: PathStyle,
) -> Seq<
    char,
> {
    if files.contains(resolved) {
        resolved
    } else {
        match suffixed(resolved, suffix, style) {
            Some(p) => if files.contains(p) {
                p
            } else {
                resolved
            },
            None => resolved,
        }
    }
}

/// Falls back to the platform's suffixed spelling for a path that does not
/// exist as written, once that spelling is known to exist.
pub fn resolve_exe_suffix(resolved: String, suffix: &str, files: &Files, style: PathStyle) -> (r: String)
    ensures
        r@ == exe_resolved(resolved@, suffix@, files@, style),
{
    if files.is_file(resolved.as_str()) {
        return resolved;
    }
    match exe_suffixed(resolved.as_str(), suffix, style) {
        Some(p) => if files.is_file(p.as_str()) {
            p
        } else {
            resolved
        },
        None => resolved,
    }
}

/// What a `command` entry of a manifest in `dir` comes to.
pub open spec fn path_entry(
    value: Seq<char>,
    dir: Seq<char>,
    suffix: Seq<char>,
    files: Set<Seq<char>>,
    style: PathStyle,
) -> Seq<char> {
    if has_separator(value, style) {
        exe_resolved(join(dir, value, style), suffix, files, style)
    } else {
        value
    }
}

/// A bare name stays as it is; a path is looked up from `dir`, with the
/// executable suffix as a fallback.
pub fn resolve_path_entry(value: &str, dir: &str, suffix: &str, files: &Files, style: PathStyle) -> (r: String)
    ensures
        r@ == path_entry(value@, dir@, suffix@, files@, style),
{
    if has_path_separator(value, style) {
        resolve_exe_suffix(join_path(dir, value, style), suffix, files, style)
    } else {
        value.to_owned()
    }
}

/// Why a `command` cannot be resolved.
#[derive(Clone, Copy, Debug, PartialEq, Eq, Structural)]
pub enum CommandError {
    /// The placeholder stands somewhere else than at the start.
    PlaceholderNotAtStart,
    /// The placeholder is used, but the executable's directory is unknown.
    UnknownBinDir,
    /// Nothing, or the placeholder again, follows the placeholder.
    NoBinary,
}

/// `s` without the separators it starts with, of either kind.
pub open spec fn unseparated(s: Seq<char>) -> Seq<char>
    decreases s.len(),
{
    if s.len() > 0 && (s[0] == '/' || s[0] == '\\') {
        unseparated(s.drop_first())
    } else {
        s
    }
}

/// `s` without the separators it starts with.
fn without_separators(s: &str) -> (r: String)
    ensures
        r@ == unseparated(s@),
{
    let v = chars_of(s);
    let mut from: usize = 0;
    proof {
        assert(s@.skip(0) =~= s@);
    }
    while from < v.len() && (v[from] == '/' || v[from] == '\\')
        invariant
            v@ == s@,
            from <= v.len(),
            unseparated(s@) == unseparated(s@.skip(from as int)),
        decreases v.len() - from,
    {
        proof {
            assert(s@.skip(from as int).drop_first() =~= s@.skip(from + 1));
        }
        from += 1;
    }
    proof {
        assert(v@.subrange(from as int, v@.len() as int) =~= s@.skip(from as int));
    }
    slice_text(&v, from, v.len())
}

/// What the `command` of a manifest in `dir` comes to.
pub open spec fn command_path(
    value: Seq<char>,
    dir: Seq<char>,
    bin_dir: Option<Seq<char>>,
    suffix: Seq<char>,
    files: Set<Seq<char>>,
    style: PathStyle,
) -> Result<Seq<char>, CommandError> {
    let placeholder = BIN_DIR_PLACEHOLDER@;
    if !placeholder.is_prefix_of(value) {
        if holds_part(value, placeholder) {
            Err(CommandError::PlaceholderNotAtStart)
        } else {
            Ok(path_entry(value, dir, suffix, files, style))
        }
    } else {
        match bin_dir {
            None => Err(CommandError::UnknownBinDir),
            Some(bin) => {
                let rest = unseparated(value.skip(placeholder.len() as int));
                if rest.len() == 0 || holds_part(rest, placeholder) {
                    Err(CommandError::NoBinary)
                } else {
                    Ok(exe_resolved(join(bin, rest, style), suffix, files, style))
                }
            },
        }
    }
}

/// Resolves a `command`: a leading placeholder stands for `bin_dir`, anything
/// else is a path entry.
pub fn resolve_command(
    value: &str,
    dir: &str,
    bin_dir: Option<&str>,
    suffix: &str,
    files: &Files,
    style: PathStyle,
) -> (r: Result<String, CommandError>)
    ensures
        result_view(r) == command_path(value@, dir@, opt_view(bin_dir), suffix@, files@, style),
{
    match strip_prefix(value, BIN_DIR_PLACEHOLDER) {
        None => {
            if contains_part(value, BIN_DIR_PLACEHOLDER) {
                Err(CommandError::PlaceholderNotAtStart)
            } else {
                Ok(resolve_path_entry(value, dir, suffix, files, style))
            }
        },
        Some(after) => match bin_dir {
            None => Err(CommandError::UnknownBinDir),
            Some(bin) => {
                let rest = without_separators(after.as_str());
                if rest.as_str().is_empty() || contains_part(rest.as_str(), BIN_DIR_PLACEHOLDER) {
                    Err(CommandError::NoBinary)
                } else {
                    Ok(resolve_exe_suffix(join_path(bin, rest.as_str(), style), suffix, files, style))
                }
            },
        },
    }
}

/// Resolving an entry that is not a file looks at two paths and no others: the
/// entry and its suffixed spelling.
pub proof fn exe_resolution_looks_at_two_paths(
    resolved: Seq<char>,
    suffix: Seq<char>,
    one: Set<Seq<char>>,
    other: Set<Seq<char>>,
    style: PathStyle,
)
    requires
        one.contains(resolved) == other.contains(resolved),
        suffixed(resolved, suffix, style) matches Some(p) ==> one.contains(p) == other.contains(p),
    ensures
        exe_resolved(resolved, suffix, one, style) == exe_resolved(resolved, suffix, other, style),
{
}

/// The paths whose existence decides what a `command` comes to: the resolved
/// path and its suffixed spelling, where it is a path at all.
pub fn command_probes(
    value: &str,
    dir: &str,
    bin_dir: Option<&str>,
    suffix: &str,
    style: PathStyle,
) -> (r: Vec<String>)
    ensures
        forall|one: Set<Seq<char>>, other: Set<Seq<char>>|
            (forall|i: int| 0 <= i < r@.len() ==> one.contains((#[trigger] r@[i])@) == other.contains(r@[i]@))
                ==> #[trigger] command_path(
                value@,
                dir@,
                opt_view(bin_dir),
                suffix@,
                one,
                style,
            ) == #[trigger] command_path(value@, dir@, opt_view(bin_dir), suffix@, other, style),
{
    let nothing = Files { present: Vec::new() };
    let mut r: Vec<String> = Vec::new();
    match resolve_command(value, dir, bin_dir, suffix, &nothing, style) {
        Ok(p) => {
            // With no file present a path resolves to itself.
            match exe_suffixed(p.as_str(), suffix, style) {
                Some(q) => {
                    r.push(q);
                },
                None => {},
            }
            r.push(p);
            proof {
                assert forall|one: Set<Seq<char>>, other: Set<Seq<char>>|
                    (forall|i: int|
                        0 <= i < r@.len() ==> one.contains((#[trigger] r@[i])@) == other.contains(
                            r@[i]@,
                        )) implies #[trigger] command_path(
                    value@,
                    dir@,
                    opt_view(bin_dir),
                    suffix@,
                    one,
                    style,
                ) == #[trigger] command_path(value@, dir@, opt_view(bin_dir), suffix@, other, style) by {
                    assert(one.contains(r@[r@.len() - 1]@) == other.contains(r@[r@.len() - 1]@));
                    assert(one.contains(r@[0]@) == other.contains(r@[0]@));
                }
            }
        },
        Err(_) => {},
    }
    r
}

/// What an `args` entry of a manifest in `dir` comes to.
pub open spec fn arg_path(value: Seq<char>, dir: Seq<char>, style: PathStyle) -> Seq<char> {
    if has_separator(value, style) {
        join(dir, value, style)
    } else {
        value
    }
}

/// An argument with a path separator is a path looked up from `dir`; any other
/// is left as it is.
pub fn resolve_arg(value: &str, dir: &str, style: PathStyle) -> (r: String)
    ensures
        r@ == arg_path(value@, dir@, style),
{
    if has_path_separator(value, style) {
        join_path(dir, value, style)
    } else {
        value.to_owned()
    }
}

/// The prefix of an extended-length path.
pub const VERBATIM: &'static str = "\\\\?\\";

/// The prefix of an extended-length path to a network share.
pub const VERBATIM_UNC: &'static str = "\\\\?\\UNC\\";

/// What the ordinary spelling of a path to a network share starts with.
pub const UNC: &'static str = "\\\\";

/// Whether `s` starts like a path on a disk: a letter, a colon and, if
/// anything follows, a backslash.
pub open spec fn names_disk(s: Seq<char>) -> bool {
    &&& s.len() >= 2
    &&& ('a' <= s[0] <= 'z' || 'A' <= s[0] <= 'Z')
    &&& s[1] == ':'
    &&& s.len() > 2 ==> s[2] == '\\'
}

/// How many UTF-16 code units `s` takes.
pub open spec fn utf16_len(s: Seq<char>) -> nat
    decreases s.len(),
{
    if s.len() == 0 {
        0
    } else {
        utf16_len(s.drop_last()) + if (s.last() as u32) < 0x10000 {
            1nat
        } else {
            2nat
        }
    }
}

/// The ordinary spelling of an extended-length path, of whatever length.
pub open spec fn unprefixed(path: Seq<char>) -> Option<Seq<char>> {
    if VERBATIM_UNC@.is_prefix_of(path) {
        Some(UNC@ + path.skip(VERBATIM_UNC@.len() as int))
    } else if VERBATIM@.is_prefix_of(path) && names_disk(path.skip(VERBATIM@.len() as int)) {
        Some(path.skip(VERBATIM@.len() as int))
    } else {
        None
    }
}

/// The ordinary spelling of an extended-length path, where it has one that is
/// short enough to be used.
pub open spec fn plain_win32(path: Seq<char>) -> Option<Seq<char>> {
    match unprefixed(path) {
        Some(plain) => if utf16_len(plain) <= MAX_PATH_WITHOUT_NUL {
            Some(plain)
        } else {
            None
        },
        None => None,
    }
}

fn starts_on_disk(s: &str) -> (r: bool)
    ensures
        r == names_disk(s@),
{
    let v = chars_of(s);
    v.len() >= 2 && (('a' <= v[0] && v[0] <= 'z') || ('A' <= v[0] && v[0] <= 'Z')) && v[1] == ':' && (
    v.len() == 2 || v[2] == '\\')
}

/// Whether `s` takes at most `max` UTF-16 code units.
fn fits_utf16(s: &str, max: usize) -> (r: bool)
    ensures
        r == (utf16_len(s@) <= max),
{
    let v = chars_of(s);
    let mut i: usize = 0;
    let mut left: usize = max;
    proof {
        assert(s@.take(0) =~= seq![]);
    }
    while i < v.len()
        invariant
            v@ == s@,
            i <= v.len(),
            left == max - utf16_len(s@.take(i as int)),
        decreases v.len() - i,
    {
        let units: usize = if (v[i] as u32) < 0x10000 {
            1
        } else {
            2
        };
        proof {
            assert(s@.take(i + 1).drop_last() =~= s@.take(i as int));
            assert(s@.take(i + 1).last() == v@[i as int]);
        }
        if units > left {
            proof {
                lemma_utf16_grows(s@, i + 1);
            }
            return false;
        }
        left -= units;
        i += 1;
    }
    proof {
        assert(s@.take(i as int) =~= s@);
    }
    true
}

proof fn lemma_utf16_grows(s: Seq<char>, k: int)
    requires
        0 <= k <= s.len(),
    ensures
        utf16_len(s.take(k)) <= utf16_len(s),
    decreases s.len() - k,
{
    if k < s.len() {
        lemma_utf16_grows(s, k + 1);
        assert(s.take(k + 1).drop_last() =~= s.take(k));
    } else {
        assert(s.take(k) =~= s);
    }
}

/// An extended-length path written the ordinary way: `\\?\C:\x` as `C:\x`,
/// `\\?\UNC\srv\share` as `\\srv\share`. Nothing where the path has no such
/// spelling or it would be too long.
pub fn plain_win32_path(path: &str) -> (r: Option<String>)
    ensures
        opt_text(r) == plain_win32(path@),
{
    let plain: String = match strip_prefix(path, VERBATIM_UNC) {
        Some(share) => joined(UNC, share.as_str()),
        None => match strip_prefix(path, VERBATIM) {
            Some(disk) => {
                if !starts_on_disk(disk.as_str()) {
                    return None;
                }
                disk
            },
            None => {
                return None;
            },
        },
    };
    if fits_utf16(plain.as_str(), MAX_PATH_WITHOUT_NUL) {
        Some(plain)
    } else {
        None
    }
}

/// `path` in its ordinary spelling, or as it came where it has none.
pub fn plain_spelling(path: String) -> (r: String)
    ensures
        r@ == (match plain_win32(path@) {
            Some(plain) => plain,
            None => path@,
        }),
{
    match plain_win32_path(path.as_str()) {
        Some(plain) => plain,
        None => path,
    }
}

/// A disk path that has been spelt plainly has no plainer spelling.
pub proof fn plain_spelling_is_final(path: Seq<char>)
    requires
        plain_win32(path) is Some,
        !VERBATIM_UNC@.is_prefix_of(path),
    ensures
        plain_win32(plain_win32(path)->0) is None,
{
    let plain = plain_win32(path)->0;
    reveal_strlit("\\\\?\\");
    reveal_strlit("\\\\?\\UNC\\");
    if VERBATIM@.is_prefix_of(plain) {
        assert(plain[0] == VERBATIM@[0]);
    }
    if VERBATIM_UNC@.is_prefix_of(plain) {
        assert(plain[0] == VERBATIM_UNC@[0]);
    }
}

} // verus!
