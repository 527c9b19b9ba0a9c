//! The small files a daemon keeps in a project's state directory: their names
//! and what is written in them.

use vstd::prelude::*;
use vstd::string::*;

use crate::number::{
    all_digits, decimal, decimal_reads_back, decimal_text, is_digit, lemma_decimal, parse_number, parsed,
};
use crate::path::{
    file_name, file_name_in, join, join_path, parent, replace_extension, with_extension, PathStyle,
};
use crate::path_laws::{is_plain, names_in_one_directory_have_one_parent};
use crate::text::{
    is_space, opt_text, result_view, strip_suffix, trim, trim_end, trim_start, trimmed,
};

verus! {

pub const SOCKET_FILE: &'static str = "daemon.sock";

pub const PID_FILE: &'static str = "daemon.pid";

pub const BUILD_STAMP_FILE: &'static str = "daemon.build";

pub const BOOTSTRAP_LOCK_FILE: &'static str = "bootstrap.lock";

pub const DAEMON_LOCK_FILE: &'static str = "daemon.lock";

pub const DAEMON_SERVING_FILE: &'static str = "daemon.serving";

pub const PHASE_FILE: &'static str = "index.phase";

pub const PROGRESS_FILE: &'static str = "index.progress";

/// The language of the plugin that comes with the daemon.
pub const BUNDLED_LANGUAGE: &'static str = "typescript";

/// A project whose state directory cannot be told.
#[derive(Clone, Debug, PartialEq, Eq)]
pub struct NoStateDir {
    pub why: String,
}

/// The path of `file` in a state directory, if that is known.
pub open spec fn state_path(dir: Result<&str, NoStateDir>, file: Seq<char>, style: PathStyle) -> Result<
    Seq<char>,
    NoStateDir,
> {
    match dir {
        Ok(d) => Ok(join(d@, file, style)),
        Err(e) => Err(e),
    }
}

fn path_in(dir: Result<&str, NoStateDir>, file: &str, style: PathStyle) -> (r: Result<String, NoStateDir>)
    ensures
        result_view(r) == state_path(dir, file@, style),
{
    match dir {
        Ok(d) => Ok(join_path(d, file, style)),
        Err(e) => Err(e),
    }
}

// ---------------------------------------------------------------------------
// Names
// ---------------------------------------------------------------------------
/// What clients connect to.
#[derive(Clone, Debug, PartialEq, Eq)]
pub enum Endpoint {
    /// A socket file.
    AtPath(String),
    /// A name of its own, where sockets are not files.
    Named(String),
}

/// What an `Endpoint` says.
pub enum Address {
    AtPath(Seq<char>),
    Named(Seq<char>),
}

impl View for Endpoint {
    type V = Address;

    open spec fn view(&self) -> Address {
        match self {
            Endpoint::AtPath(p) => Address::AtPath(p@),
            Endpoint::Named(n) => Address::Named(n@),
        }
    }
}

/// The endpoint of the daemon with this state directory: a socket in it, or,
/// where sockets are not files, a pipe named after the directory.
pub open spec fn address_in(state_dir: Seq<char>, style: PathStyle) -> Option<Address> {
    if style == PathStyle::Windows {
        match file_name(state_dir, style) {
            Some(name) => Some(Address::Named(name)),
            None => None,
        }
    } else {
        Some(Address::AtPath(join(state_dir, SOCKET_FILE@, style)))
    }
}

/// The endpoint of the daemon with this state directory.
pub fn endpoint_in(state_dir: &str, style: PathStyle) -> (r: Option<Endpoint>)
    ensures
        match r {
            Some(e) => address_in(state_dir@, style) == Some(e@),
            None => address_in(state_dir@, style) is None,
        },
{
    if style == PathStyle::Windows {
        match file_name_in(state_dir, style) {
            Some(name) => Some(Endpoint::Named(name)),
            None => None,
        }
    } else {
        Some(Endpoint::AtPath(join_path(state_dir, SOCKET_FILE, style)))
    }
}

/// Why a project has no endpoint.
#[derive(Clone, Debug, PartialEq, Eq)]
pub enum EndpointError {
    NoStateDir(NoStateDir),
    Underivable { dir: String },
}

impl EndpointError {
    /// What it is reported as.
    pub fn message(&self) -> (r: String)
        ensures
            r@ == (match self {
                EndpointError::NoStateDir(e) => e.why@,
                EndpointError::Underivable { dir } => "failed to derive the daemon endpoint from "@ + dir@,
            }),
    {
        match self {
            EndpointError::NoStateDir(e) => e.why.clone(),
            EndpointError::Underivable { dir } => {
                let mut r: String = "failed to derive the daemon endpoint from ".to_owned();
                r.append(dir.as_str());
                r
            },
        }
    }
}

/// The endpoint of a project's daemon.
pub fn endpoint(project_dir: Result<&str, NoStateDir>, style: PathStyle) -> (r: Result<
    Endpoint,
    EndpointError,
>)
    ensures
        match (project_dir, r) {
            (Ok(dir), Ok(e)) => address_in(dir@, style) == Some(e@),
            (Ok(dir), Err(EndpointError::Underivable { dir: named })) => address_in(dir@, style) is None
                && named@ == dir@,
            (Err(why), Err(EndpointError::NoStateDir(e))) => e == why,
            _ => false,
        },
{
    match project_dir {
        Ok(dir) => match endpoint_in(dir, style) {
            Some(e) => Ok(e),
            None => Err(EndpointError::Underivable { dir: dir.to_owned() }),
        },
        Err(why) => Err(EndpointError::NoStateDir(why)),
    }
}

pub fn socket_path(project_dir: Result<&str, NoStateDir>, style: PathStyle) -> (r: Result<String, NoStateDir>)
    ensures
        result_view(r) == state_path(project_dir, SOCKET_FILE@, style),
{
    path_in(project_dir, SOCKET_FILE, style)
}

pub fn pid_path(project_dir: Result<&str, NoStateDir>, style: PathStyle) -> (r: Result<String, NoStateDir>)
    ensures
        result_view(r) == state_path(project_dir, PID_FILE@, style),
{
    path_in(project_dir, PID_FILE, style)
}

pub fn pid_path_in(state_dir: &str, style: PathStyle) -> (r: String)
    ensures
        r@ == join(state_dir@, PID_FILE@, style),
{
    join_path(state_dir, PID_FILE, style)
}

/// The name of the file that holds the pid of a language's plugin.
pub open spec fn plugin_pid_name(language: Seq<char>) -> Seq<char> {
    "plugin-"@ + language + ".pid"@
}

/// The name of the file that holds the pid of a language's plugin.
pub fn plugin_pid_file_name(language: &str) -> (r: String)
    ensures
        r@ == plugin_pid_name(language@),
{
    let mut r: String = "plugin-".to_owned();
    r.append(language);
    r.append(".pid");
    r
}

/// The name of the file that says why a language's semantic passes are
/// suspended.
pub open spec fn plugin_suspended_name(language: Seq<char>) -> Seq<char> {
    "plugin-"@ + language + ".suspended"@
}

/// The name of the file that says why a language's semantic passes are
/// suspended.
pub fn plugin_suspended_marker_file_name(language: &str) -> (r: String)
    ensures
        r@ == plugin_suspended_name(language@),
{
    let mut r: String = "plugin-".to_owned();
    r.append(language);
    r.append(".suspended");
    r
}

pub fn plugin_pid_path(
    project_dir: Result<&str, NoStateDir>,
    style: PathStyle,
) -> (r: Result<String, NoStateDir>)
    ensures
        result_view(r) == state_path(project_dir, plugin_pid_name(BUNDLED_LANGUAGE@), style),
{
    path_in(project_dir, plugin_pid_file_name(BUNDLED_LANGUAGE).as_str(), style)
}

pub fn plugin_pid_path_in(state_dir: &str, style: PathStyle) -> (r: String)
    ensures
        r@ == join(state_dir@, plugin_pid_name(BUNDLED_LANGUAGE@), style),
{
    join_path(state_dir, plugin_pid_file_name(BUNDLED_LANGUAGE).as_str(), style)
}

pub fn phase_path_in(state_dir: &str, style: PathStyle) -> (r: String)
    ensures
        r@ == join(state_dir@, PHASE_FILE@, style),
{
    join_path(state_dir, PHASE_FILE, style)
}

pub fn progress_path_in(state_dir: &str, style: PathStyle) -> (r: String)
    ensures
        r@ == join(state_dir@, PROGRESS_FILE@, style),
{
    join_path(state_dir, PROGRESS_FILE, style)
}

pub fn build_stamp_path(
    project_dir: Result<&str, NoStateDir>,
    style: PathStyle,
) -> (r: Result<String, NoStateDir>)
    ensures
        result_view(r) == state_path(project_dir, BUILD_STAMP_FILE@, style),
{
    path_in(project_dir, BUILD_STAMP_FILE, style)
}

pub fn build_stamp_path_in(state_dir: &str, style: PathStyle) -> (r: String)
    ensures
        r@ == join(state_dir@, BUILD_STAMP_FILE@, style),
{
    join_path(state_dir, BUILD_STAMP_FILE, style)
}

/// The lock a shim holds while it starts a daemon.
pub fn lock_path(project_dir: Result<&str, NoStateDir>, style: PathStyle) -> (r: Result<String, NoStateDir>)
    ensures
        result_view(r) == state_path(project_dir, BOOTSTRAP_LOCK_FILE@, style),
{
    path_in(project_dir, BOOTSTRAP_LOCK_FILE, style)
}

/// The lock a running daemon holds for its whole lifetime.
pub fn daemon_lock_path(
    project_dir: Result<&str, NoStateDir>,
    style: PathStyle,
) -> (r: Result<String, NoStateDir>)
    ensures
        result_view(r) == state_path(project_dir, DAEMON_LOCK_FILE@, style),
{
    path_in(project_dir, DAEMON_LOCK_FILE, style)
}

pub fn daemon_lock_path_in(state_dir: &str, style: PathStyle) -> (r: String)
    ensures
        r@ == join(state_dir@, DAEMON_LOCK_FILE@, style),
{
    join_path(state_dir, DAEMON_LOCK_FILE, style)
}

pub fn serving_owner_path_in(state_dir: &str, style: PathStyle) -> (r: String)
    ensures
        r@ == join(state_dir@, DAEMON_SERVING_FILE@, style),
{
    join_path(state_dir, DAEMON_SERVING_FILE, style)
}

// ---------------------------------------------------------------------------
// Contents
// ---------------------------------------------------------------------------
/// The pid a file's contents spell, with white space around it or without.
pub open spec fn pid_in(contents: Seq<char>) -> Option<nat> {
    parsed(trimmed(contents), u32::MAX as nat)
}

fn parse_pid(contents: &str) -> (r: Option<u32>)
    ensures
        r is Some <==> pid_in(contents@) is Some,
        r matches Some(pid) ==> pid_in(contents@) == Some(pid as nat),
{
    match parse_number(trim(contents).as_str(), u32::MAX as u128) {
        Some(n) => Some(n as u32),
        None => None,
    }
}

/// Why a file could not be read.
#[derive(Clone, Debug, PartialEq, Eq)]
pub enum ReadFailure {
    NotFound,
    Other { why: String },
}

/// The pid in a pid file; none where nothing is recorded. `contents` is what
/// reading the file gave.
pub fn read_pid_file(contents: Result<&str, ReadFailure>) -> (r: Option<u32>)
    ensures
        match contents {
            Ok(text) => match r {
                Some(pid) => pid_in(text@) == Some(pid as nat),
                None => pid_in(text@) is None,
            },
            Err(_) => r is None,
        },
{
    match read_pid_file_result(contents) {
        Ok(recorded) => recorded,
        Err(_) => None,
    }
}

/// The pid in a pid file. A file that is not there records nothing; one that
/// cannot be read is a failure, because a caller must not take "could not
/// tell" for "nothing recorded".
pub fn read_pid_file_result(contents: Result<&str, ReadFailure>) -> (r: Result<Option<u32>, ReadFailure>)
    ensures
        match contents {
            Ok(text) => match r {
                Ok(Some(pid)) => pid_in(text@) == Some(pid as nat),
                Ok(None) => pid_in(text@) is None,
                Err(_) => false,
            },
            Err(ReadFailure::NotFound) => r == Ok::<Option<u32>, ReadFailure>(None),
            Err(e) => r == Err::<Option<u32>, ReadFailure>(e),
        },
{
    match contents {
        Ok(text) => Ok(parse_pid(text)),
        Err(ReadFailure::NotFound) => Ok(None),
        Err(e) => Err(e),
    }
}

/// A file to be replaced in one step: written under a name of its own first,
/// then renamed into place, so that no reader ever sees half of it.
#[derive(Clone, Debug, PartialEq, Eq)]
pub struct StateFileWrite {
    pub temporary: String,
    pub path: String,
    pub contents: String,
}

impl StateFileWrite {
    /// Whether this replaces `path` by `contents`, by way of a file that no
    /// other process writes.
    pub open spec fn replaces(
        self,
        path: Seq<char>,
        contents: Seq<char>,
        own_pid: u32,
        style: PathStyle,
    ) -> bool {
        &&& self.temporary@ == with_extension(path, decimal(own_pid as nat) + ".tmp"@, style)
        &&& self.path@ == path
        &&& self.contents@ == contents
    }
}

/// How `path` is replaced by `contents`, in the process `own_pid`.
pub fn write_state_file_atomic(
    path: &str,
    contents: &str,
    own_pid: u32,
    style: PathStyle,
) -> (r: StateFileWrite)
    ensures
        r.replaces(path@, contents@, own_pid, style),
{
    let mut ext = decimal_text(own_pid as u128);
    ext.append(".tmp");
    StateFileWrite {
        temporary: replace_extension(path, ext.as_str(), style),
        path: path.to_owned(),
        contents: contents.to_owned(),
    }
}

/// What a pid file says: the pid on a line of its own.
pub open spec fn pid_text(pid: u32) -> Seq<char> {
    decimal(pid as nat) + "\n"@
}

/// How `pid` is recorded in `path`.
pub fn write_pid_file(path: &str, pid: u32, own_pid: u32, style: PathStyle) -> (r: StateFileWrite)
    ensures
        r.replaces(path@, pid_text(pid), own_pid, style),
{
    let mut text = decimal_text(pid as u128);
    text.append("\n");
    write_state_file_atomic(path, text.as_str(), own_pid, style)
}

/// The phase a phase file says, without the white space around it.
pub fn read_phase_in(contents: Option<&str>) -> (r: Option<String>)
    ensures
        opt_text(r) == (match contents {
            Some(text) => Some(trimmed(text@)),
            None => None,
        }),
{
    match contents {
        Some(text) => Some(trim(text)),
        None => None,
    }
}

/// The pid that the holder of the daemon lock recorded. The record ends in a
/// line feed; without it the record is a part of one and says nothing.
pub open spec fn owner_in(contents: Seq<char>) -> Option<nat> {
    if contents.len() > 0 && contents.last() == '\n' {
        pid_in(contents.drop_last())
    } else {
        None
    }
}

/// The pid that the holder of the daemon lock recorded once it was serving.
pub fn serving_owner_in(contents: Option<&str>) -> (r: Option<u32>)
    ensures
        match contents {
            Some(text) => match r {
                Some(pid) => owner_in(text@) == Some(pid as nat),
                None => owner_in(text@) is None,
            },
            None => r is None,
        },
{
    match contents {
        Some(text) => {
            proof {
                reveal_strlit("\n");
                assert("\n"@ =~= seq!['\n']);
            }
            match strip_suffix(text, "\n") {
                Some(line) => {
                    proof {
                        assert(text@.last() == '\n');
                        assert(text@.drop_last() =~= line@);
                    }
                    parse_pid(line.as_str())
                },
                None => {
                    proof {
                        if text@.len() > 0 && text@.last() == '\n' {
                            assert(text@.skip(text@.len() - 1) =~= "\n"@);
                            assert("\n"@.is_suffix_of(text@));
                        }
                    }
                    None
                },
            }
        },
        None => None,
    }
}

/// How the holder of the daemon lock records that it is serving.
pub fn record_serving_owner(state_dir: &str, own_pid: u32, style: PathStyle) -> (r: StateFileWrite)
    ensures
        r.replaces(join(state_dir@, DAEMON_SERVING_FILE@, style), pid_text(own_pid), own_pid, style),
{
    write_pid_file(serving_owner_path_in(state_dir, style).as_str(), own_pid, own_pid, style)
}

/// A text of digits has nothing to trim.
pub proof fn lemma_digits_stay(s: Seq<char>)
    requires
        s.len() > 0,
        all_digits(s),
    ensures
        trimmed(s) == s,
{
    assert(is_digit(s[0]));
    assert(is_digit(s[s.len() - 1]));
}

/// A pid that was written reads back as that pid.
pub proof fn a_written_pid_reads_back(pid: u32)
    ensures
        pid_in(pid_text(pid)) == Some(pid as nat),
        owner_in(pid_text(pid)) == Some(pid as nat),
{
    let d = decimal(pid as nat);
    let t = pid_text(pid);
    reveal_strlit("\n");
    assert("\n"@ =~= seq!['\n']);
    lemma_decimal(pid as nat);
    lemma_digits_stay(d);
    decimal_reads_back(pid as nat, u32::MAX as nat);
    assert(is_digit(d[0]));
    assert(t[0] == d[0]);
    assert(trim_start(t) == t);
    assert(t.last() == '\n' && is_space('\n'));
    assert(t.drop_last() =~= d);
    assert(is_digit(d[d.len() - 1]));
    assert(trim_end(d) == d);
    assert(trim_end(t) == trim_end(t.drop_last()));
}

/// A record of which only a part has been written says nothing.
pub proof fn a_partial_owner_record_says_nothing(pid: u32, written: int)
    requires
        0 <= written < pid_text(pid).len(),
    ensures
        owner_in(pid_text(pid).take(written)) is None,
{
    let d = decimal(pid as nat);
    let part = pid_text(pid).take(written);
    reveal_strlit("\n");
    lemma_decimal(pid as nat);
    if written > 0 {
        assert(part.last() == d[written - 1]);
        assert(is_digit(d[written - 1]));
    }
}

/// The lock that a daemon holds while it lives and the one that starting it
/// takes lie in one directory and are never one file.
pub proof fn the_locks_are_two_files(state_dir: Seq<char>, style: PathStyle)
    ensures
        parent(join(state_dir, DAEMON_LOCK_FILE@, style), style) == parent(
            join(state_dir, BOOTSTRAP_LOCK_FILE@, style),
            style,
        ),
        join(state_dir, DAEMON_LOCK_FILE@, style) != join(state_dir, BOOTSTRAP_LOCK_FILE@, style),
{
    reveal_strlit("daemon.lock");
    reveal_strlit("bootstrap.lock");
    reveal_strlit(".");
    reveal_strlit("..");
    assert(is_plain(DAEMON_LOCK_FILE@, style));
    assert(is_plain(BOOTSTRAP_LOCK_FILE@, style));
    assert(DAEMON_LOCK_FILE@.len() != BOOTSTRAP_LOCK_FILE@.len());
    names_in_one_directory_have_one_parent(state_dir, DAEMON_LOCK_FILE@, BOOTSTRAP_LOCK_FILE@, style);
}

} // verus!
