//! Paths as text. What a path names on disk is nobody's concern here: these
//! functions only take its spelling apart and put it together, the way a
//! platform spells paths.

use vstd::prelude::*;
use vstd::string::*;

use crate::text::{
    chars_of, join_texts, joined_with, opt_text, same, slice_text, split, split_on, views,
};

verus! {

/// How a platform spells paths.
#[derive(Clone, Copy, Debug, PartialEq, Eq, Structural)]
pub enum PathStyle {
    /// `/` stands between components.
    Unix,
    /// `\` or `/` stands between components, and a path may start with a drive,
    /// such as `C:`, or a share, such as `\\server\share`. In an
    /// extended-length path, such as `\\?\C:\dir`, only `\` does.
    Windows,
}

impl PathStyle {
    /// Whether `c` stands between components.
    pub open spec fn separates(self, c: char) -> bool {
        c == '/' || (c == '\\' && self == PathStyle::Windows)
    }

    /// What is put between components.
    pub open spec fn separator(self) -> char {
        match self {
            PathStyle::Unix => '/',
            PathStyle::Windows => '\\',
        }
    }

    /// Whether `c` stands between components.
    pub fn is_separator(self, c: char) -> (r: bool)
        ensures
            r == self.separates(c),
    {
        c == '/' || (c == '\\' && self == PathStyle::Windows)
    }

    /// What is put between components.
    pub fn main_separator(self) -> (r: char)
        ensures
            r == self.separator(),
    {
        match self {
            PathStyle::Unix => '/',
            PathStyle::Windows => '\\',
        }
    }
}

/// What stands between the components of one path.
#[derive(Clone, Copy, Debug, PartialEq, Eq, Structural)]
pub enum Separation {
    Slash,
    Either,
    /// Of an extended-length path, whose components are taken as they are.
    Backslash,
}

impl Separation {
    /// Whether `c` stands between components.
    pub open spec fn separates(self, c: char) -> bool {
        match self {
            Separation::Slash => c == '/',
            Separation::Either => c == '/' || c == '\\',
            Separation::Backslash => c == '\\',
        }
    }

    /// Whether `c` stands between components.
    pub fn is_separator(self, c: char) -> (r: bool)
        ensures
            r == self.separates(c),
    {
        match self {
            Separation::Slash => c == '/',
            Separation::Either => c == '/' || c == '\\',
            Separation::Backslash => c == '\\',
        }
    }
}

// ---------------------------------------------------------------------------
// What a path starts with
// ---------------------------------------------------------------------------
/// Whether `p` is an extended-length path: it starts with `\\?\`.
pub open spec fn is_extended(p: Seq<char>, style: PathStyle) -> bool {
    &&& style == PathStyle::Windows
    &&& p.len() >= 4
    &&& p[0] == '\\'
    &&& p[1] == '\\'
    &&& p[2] == '?'
    &&& p[3] == '\\'
}

/// What stands between the components of `p`.
pub open spec fn separation(p: Seq<char>, style: PathStyle) -> Separation {
    if style == PathStyle::Unix {
        Separation::Slash
    } else if is_extended(p, style) {
        Separation::Backslash
    } else {
        Separation::Either
    }
}

/// Where the component that starts at `from` ends.
pub open spec fn part_end(p: Seq<char>, from: int, sep: Separation) -> int
    decreases p.len() - from,
{
    if from < 0 || from >= p.len() || sep.separates(p[from]) {
        from
    } else {
        part_end(p, from + 1, sep)
    }
}

/// Where the share of a server's name that starts at `from` ends, if there is
/// one.
pub open spec fn share_end(p: Seq<char>, from: int, sep: Separation) -> Option<int> {
    let server = part_end(p, from, sep);
    let share = part_end(p, server + 1, sep);
    if server + 1 < share <= p.len() {
        Some(share)
    } else {
        None
    }
}

/// Whether `p` starts with a drive: a letter and a colon.
pub open spec fn has_drive(p: Seq<char>) -> bool {
    p.len() >= 2 && ('a' <= p[0] <= 'z' || 'A' <= p[0] <= 'Z') && p[1] == ':'
}

/// Whether an extended-length path starts with a share.
pub open spec fn has_extended_share(p: Seq<char>) -> bool {
    p.len() >= 8 && p[4] == 'U' && p[5] == 'N' && p[6] == 'C' && (p[7] == '\\' || p[7] == '/')
}

/// Whether an extended-length path starts with a drive and no more.
pub open spec fn has_extended_drive(p: Seq<char>) -> bool {
    &&& p.len() >= 6
    &&& 'a' <= p[4] <= 'z' || 'A' <= p[4] <= 'Z'
    &&& p[5] == ':'
    &&& p.len() == 6 || p[6] == '\\' || p[6] == '/'
}

/// How much of an extended-length path is its drive or share, or what stands
/// for one.
pub open spec fn extended_prefix_len(p: Seq<char>) -> int {
    if has_extended_share(p) {
        match share_end(p, 8, Separation::Backslash) {
            Some(share) => share,
            None => part_end(p, 8, Separation::Backslash),
        }
    } else if has_extended_drive(p) {
        6
    } else {
        part_end(p, 4, Separation::Backslash)
    }
}

/// How much of a Windows path that is not extended is its drive or share, or
/// the name of a device.
pub open spec fn plain_prefix_len(p: Seq<char>) -> int {
    let sep = Separation::Either;
    if p.len() >= 2 && sep.separates(p[0]) && sep.separates(p[1]) {
        if p.len() >= 4 && p[2] == '.' && sep.separates(p[3]) {
            part_end(p, 4, sep)
        } else {
            match share_end(p, 2, sep) {
                Some(share) => if part_end(p, 2, sep) > 2 {
                    share
                } else {
                    0
                },
                None => 0,
            }
        }
    } else if has_drive(p) {
        2
    } else {
        0
    }
}

/// How much of `p` is its drive or share.
pub open spec fn prefix_len(p: Seq<char>, style: PathStyle) -> int {
    if style == PathStyle::Unix {
        0
    } else if is_extended(p, style) {
        extended_prefix_len(p)
    } else {
        plain_prefix_len(p)
    }
}

/// How much of `p` is no component: its drive or share, and the root.
pub open spec fn anchor(p: Seq<char>, style: PathStyle) -> int {
    let n = prefix_len(p, style);
    if n < p.len() && style.separates(p[n]) {
        n + 1
    } else {
        n
    }
}

/// Whether the root is one of the components of `p`. A share that is not
/// extended implies it.
pub open spec fn is_rooted(p: Seq<char>, style: PathStyle) -> bool {
    anchor(p, style) > prefix_len(p, style) || (prefix_len(p, style) > 2 && !is_extended(p, style))
}

/// A component ends at the first separator behind where it starts, or at the end.
pub proof fn lemma_part_end(p: Seq<char>, from: int, sep: Separation)
    requires
        0 <= from,
    ensures
        part_end(p, from, sep) >= from,
        from <= p.len() ==> part_end(p, from, sep) <= p.len(),
        part_end(p, from, sep) < p.len() ==> sep.separates(p[part_end(p, from, sep)]),
        forall|i: int| from <= i < part_end(p, from, sep) ==> i < p.len() && !sep.separates(#[trigger] p[i]),
    decreases p.len() - from,
{
    if from < p.len() && !sep.separates(p[from]) {
        lemma_part_end(p, from + 1, sep);
    }
}

/// What a path starts with is a part of it.
pub proof fn lemma_anchor(p: Seq<char>, style: PathStyle)
    ensures
        0 <= prefix_len(p, style) <= anchor(p, style) <= p.len(),
        is_extended(p, style) ==> prefix_len(p, style) >= 4,
{
    lemma_part_end(p, 2, Separation::Either);
    lemma_part_end(p, 4, Separation::Either);
    lemma_part_end(p, 4, Separation::Backslash);
    lemma_part_end(p, 8, Separation::Backslash);
    let server = part_end(p, 2, Separation::Either);
    lemma_part_end(p, server + 1, Separation::Either);
    let extended = part_end(p, 8, Separation::Backslash);
    lemma_part_end(p, extended + 1, Separation::Backslash);
}

fn extends(v: &Vec<char>, style: PathStyle) -> (r: bool)
    ensures
        r == is_extended(v@, style),
{
    style == PathStyle::Windows && v.len() >= 4 && v[0] == '\\' && v[1] == '\\' && v[2] == '?' && v[3]
        == '\\'
}

fn separation_of(v: &Vec<char>, style: PathStyle) -> (r: Separation)
    ensures
        r == separation(v@, style),
{
    match style {
        PathStyle::Unix => Separation::Slash,
        PathStyle::Windows => {
            if extends(v, style) {
                Separation::Backslash
            } else {
                Separation::Either
            }
        },
    }
}

fn end_of_part(v: &Vec<char>, from: usize, sep: Separation) -> (r: usize)
    requires
        from <= v@.len(),
    ensures
        r == part_end(v@, from as int, sep),
        from <= r <= v@.len(),
{
    let mut at: usize = from;
    while at < v.len() && !sep.is_separator(v[at])
        invariant
            from <= at <= v.len(),
            part_end(v@, from as int, sep) == part_end(v@, at as int, sep),
        decreases v.len() - at,
    {
        at += 1;
    }
    at
}

fn end_of_share(v: &Vec<char>, from: usize, sep: Separation) -> (r: Option<usize>)
    requires
        from <= v@.len(),
    ensures
        match r {
            Some(share) => share_end(v@, from as int, sep) == Some(share as int) && share <= v@.len(),
            None => share_end(v@, from as int, sep) is None,
        },
{
    let server = end_of_part(v, from, sep);
    if server == v.len() {
        proof {
            lemma_part_end(v@, server + 1, sep);
        }
        return None;
    }
    let share = end_of_part(v, server + 1, sep);
    if server + 1 < share {
        Some(share)
    } else {
        None
    }
}

fn is_letter(c: char) -> (r: bool)
    ensures
        r == ('a' <= c <= 'z' || 'A' <= c <= 'Z'),
{
    ('a' <= c && c <= 'z') || ('A' <= c && c <= 'Z')
}

fn len_of_prefix(v: &Vec<char>, style: PathStyle) -> (r: usize)
    ensures
        r == prefix_len(v@, style),
        r <= v@.len(),
{
    match style {
        PathStyle::Unix => 0,
        PathStyle::Windows => {
            let sep = Separation::Either;
            if extends(v, style) {
                if v.len() >= 8 && v[4] == 'U' && v[5] == 'N' && v[6] == 'C' && (v[7] == '\\' || v[7] == '/') {
                    match end_of_share(v, 8, Separation::Backslash) {
                        Some(share) => share,
                        None => end_of_part(v, 8, Separation::Backslash),
                    }
                } else if v.len() >= 6 && is_letter(v[4]) && v[5] == ':' && (v.len() == 6 || v[6] == '\\' || v[6]
                    == '/') {
                    6
                } else {
                    end_of_part(v, 4, Separation::Backslash)
                }
            } else if v.len() >= 2 && sep.is_separator(v[0]) && sep.is_separator(v[1]) {
                if v.len() >= 4 && v[2] == '.' && sep.is_separator(v[3]) {
                    end_of_part(v, 4, sep)
                } else {
                    match end_of_share(v, 2, sep) {
                        Some(share) => if end_of_part(v, 2, sep) > 2 {
                            share
                        } else {
                            0
                        },
                        None => 0,
                    }
                }
            } else if v.len() >= 2 && is_letter(v[0]) && v[1] == ':' {
                2
            } else {
                0
            }
        },
    }
}

fn len_of_anchor(v: &Vec<char>, style: PathStyle) -> (r: usize)
    ensures
        r == anchor(v@, style),
        r <= v@.len(),
{
    let n = len_of_prefix(v, style);
    if n < v.len() && style.is_separator(v[n]) {
        n + 1
    } else {
        n
    }
}

// ---------------------------------------------------------------------------
// Taking apart from the end
// ---------------------------------------------------------------------------
/// Whether what `p` ends in names nothing of its own: a separator, or a `.`
/// component. An extended-length path has its `.` components as they are.
pub open spec fn ends_in_nothing(p: Seq<char>, sep: Separation) -> bool {
    p.len() > 0 && (sep.separates(p.last()) || (sep != Separation::Backslash && p.len() >= 2 && p.last()
        == '.' && sep.separates(p[p.len() - 2])))
}

/// `p` without trailing separators and trailing `.` components, which name
/// nothing of their own. Its first `keep` characters stay.
pub open spec fn bare(p: Seq<char>, keep: int, sep: Separation) -> Seq<char>
    decreases p.len(),
{
    if p.len() > keep && ends_in_nothing(p, sep) {
        bare(p.drop_last(), keep, sep)
    } else {
        p
    }
}

/// Where the last component of `p` starts, behind its first `keep` characters.
pub open spec fn last_start(p: Seq<char>, keep: int, sep: Separation) -> nat
    decreases p.len(),
{
    if p.len() == 0 || p.len() <= keep || sep.separates(p.last()) {
        p.len()
    } else {
        last_start(p.drop_last(), keep, sep)
    }
}

/// `p` without what names nothing at its end.
pub open spec fn trimmed_path(p: Seq<char>, style: PathStyle) -> Seq<char> {
    bare(p, anchor(p, style), separation(p, style))
}

/// Where the last component of `p` starts.
pub open spec fn name_start(p: Seq<char>, style: PathStyle) -> nat {
    last_start(trimmed_path(p, style), anchor(p, style), separation(p, style))
}

/// Whether `p` is a drive and a `.` behind it, which is no component there.
pub open spec fn is_drive_itself(p: Seq<char>, style: PathStyle) -> bool {
    &&& prefix_len(p, style) > 0
    &&& anchor(p, style) == prefix_len(p, style)
    &&& trimmed_path(p, style).len() == anchor(p, style) + 1
    &&& trimmed_path(p, style).last() == '.'
}

/// The directory that holds what `p` names; none for a root, a bare drive or
/// share, and for the empty path.
pub open spec fn parent(p: Seq<char>, style: PathStyle) -> Option<Seq<char>> {
    let keep = anchor(p, style);
    let b = trimmed_path(p, style);
    if b.len() <= keep || is_drive_itself(p, style) {
        None
    } else {
        Some(bare(b.take(name_start(p, style) as int), keep, separation(p, style)))
    }
}

/// The last component of `p`, unless that is no name but `.`, `..` or the root.
pub open spec fn file_name(p: Seq<char>, style: PathStyle) -> Option<Seq<char>> {
    let name = trimmed_path(p, style).skip(name_start(p, style) as int);
    if name.len() == 0 || name == seq!['.'] || name == seq!['.', '.'] {
        None
    } else {
        Some(name)
    }
}

/// Where the last dot of `name` stands; its length if there is none.
pub open spec fn last_dot(name: Seq<char>) -> int
    decreases name.len(),
{
    if name.len() == 0 {
        0
    } else if name.last() == '.' {
        name.len() - 1
    } else if last_dot(name.drop_last()) == name.len() - 1 {
        name.len() as int
    } else {
        last_dot(name.drop_last())
    }
}

/// Whether a file name has an extension: a dot that is not its first
/// character.
pub open spec fn dotted(name: Seq<char>) -> bool {
    0 < last_dot(name) < name.len()
}

/// What follows the last dot of the file name; a dot that the name starts with
/// does not count.
pub open spec fn extension(p: Seq<char>, style: PathStyle) -> Option<Seq<char>> {
    match file_name(p, style) {
        Some(name) => if dotted(name) {
            Some(name.skip(last_dot(name) + 1))
        } else {
            None
        },
        None => None,
    }
}

/// The file name without its extension and the dot before it.
pub open spec fn file_stem(p: Seq<char>, style: PathStyle) -> Option<Seq<char>> {
    match file_name(p, style) {
        Some(name) => if dotted(name) {
            Some(name.take(last_dot(name)))
        } else {
            Some(name)
        },
        None => None,
    }
}

/// What is left of a path that is made bare is its start, and names something
/// at its end.
pub proof fn lemma_bare(p: Seq<char>, keep: int, sep: Separation)
    ensures
        bare(p, keep, sep).len() <= p.len(),
        keep <= p.len() ==> keep <= bare(p, keep, sep).len(),
        bare(p, keep, sep) == p.take(bare(p, keep, sep).len() as int),
        bare(p, keep, sep).len() > keep ==> !ends_in_nothing(bare(p, keep, sep), sep),
    decreases p.len(),
{
    let b = bare(p, keep, sep);
    if p.len() > keep && ends_in_nothing(p, sep) {
        lemma_bare(p.drop_last(), keep, sep);
        assert(b =~= p.take(b.len() as int));
    } else {
        assert(p.take(p.len() as int) =~= p);
    }
}

/// How much of `v[..to]` is left when it is made bare.
fn bare_len(v: &Vec<char>, to: usize, keep: usize, sep: Separation) -> (n: usize)
    requires
        to <= v@.len(),
    ensures
        n <= to,
        v@.take(n as int) == bare(v@.take(to as int), keep as int, sep),
{
    let mut n: usize = to;
    while n > keep && n > 0 && (sep.is_separator(v[n - 1]) || (sep != Separation::Backslash && n >= 2 && v[n
        - 1] == '.' && sep.is_separator(v[n - 2])))
        invariant
            n <= to <= v.len(),
            bare(v@.take(to as int), keep as int, sep) == bare(v@.take(n as int), keep as int, sep),
        decreases n,
    {
        proof {
            let p = v@.take(n as int);
            assert(p.last() == v@[n - 1]);
            if n >= 2 {
                assert(p[p.len() - 2] == v@[n - 2]);
            }
            assert(p.drop_last() =~= v@.take(n - 1));
        }
        n -= 1;
    }
    proof {
        let p = v@.take(n as int);
        if n >= 1 {
            assert(p.last() == v@[n - 1]);
        }
        if n >= 2 {
            assert(p[p.len() - 2] == v@[n - 2]);
        }
    }
    n
}

/// Where the last component of `v[..to]` starts.
fn start_of_last(v: &Vec<char>, to: usize, keep: usize, sep: Separation) -> (n: usize)
    requires
        to <= v@.len(),
    ensures
        n <= to,
        n == last_start(v@.take(to as int), keep as int, sep),
{
    let mut n: usize = to;
    while n > 0 && n > keep && !sep.is_separator(v[n - 1])
        invariant
            n <= to <= v.len(),
            last_start(v@.take(to as int), keep as int, sep) == last_start(
                v@.take(n as int),
                keep as int,
                sep,
            ),
        decreases n,
    {
        proof {
            let p = v@.take(n as int);
            assert(p.last() == v@[n - 1]);
            assert(p.drop_last() =~= v@.take(n - 1));
        }
        n -= 1;
    }
    proof {
        if n > 0 {
            assert(v@.take(n as int).last() == v@[n - 1]);
        }
    }
    n
}

/// The directory that holds what `p` names.
pub fn parent_of(p: &str, style: PathStyle) -> (r: Option<String>)
    ensures
        opt_text(r) == parent(p@, style),
{
    let v = chars_of(p);
    proof {
        assert(v@.take(v@.len() as int) =~= p@);
    }
    let sep = separation_of(&v, style);
    let prefix = len_of_prefix(&v, style);
    let keep = len_of_anchor(&v, style);
    let end = bare_len(&v, v.len(), keep, sep);
    let ghost b = trimmed_path(p@, style);
    if end <= keep {
        return None;
    }
    proof {
        assert(b.last() == v@[end - 1]);
    }
    if prefix > 0 && keep == prefix && end - keep == 1 && v[end - 1] == '.' {
        return None;
    }
    let start = start_of_last(&v, end, keep, sep);
    let dir = bare_len(&v, start, keep, sep);
    proof {
        assert(b.take(start as int) =~= v@.take(start as int));
        assert(v@.subrange(0, dir as int) =~= v@.take(dir as int));
    }
    Some(slice_text(&v, 0, dir))
}

/// The last component of `p`, if it is a name.
pub fn file_name_in(p: &str, style: PathStyle) -> (r: Option<String>)
    ensures
        opt_text(r) == file_name(p@, style),
{
    let v = chars_of(p);
    proof {
        assert(v@.take(v@.len() as int) =~= p@);
    }
    let sep = separation_of(&v, style);
    let keep = len_of_anchor(&v, style);
    let end = bare_len(&v, v.len(), keep, sep);
    let start = start_of_last(&v, end, keep, sep);
    let name = slice_text(&v, start, end);
    proof {
        assert(trimmed_path(p@, style).skip(start as int) =~= v@.subrange(start as int, end as int));
        reveal_strlit(".");
        reveal_strlit("..");
        assert("."@ =~= seq!['.']);
        assert(".."@ =~= seq!['.', '.']);
    }
    if start == end || same(name.as_str(), ".") || same(name.as_str(), "..") {
        None
    } else {
        Some(name)
    }
}

fn dot_of(v: &Vec<char>) -> (at: usize)
    ensures
        at == last_dot(v@),
        at <= v@.len(),
{
    let mut n: usize = v.len();
    proof {
        assert(v@.take(n as int) =~= v@);
    }
    while n > 0 && v[n - 1] != '.'
        invariant
            n <= v.len(),
            forall|j: int| n <= j < v@.len() ==> v@[j] != '.',
        decreases n,
    {
        n -= 1;
    }
    proof {
        lemma_last_dot(v@, n as int);
    }
    if n == 0 {
        v.len()
    } else {
        n - 1
    }
}

proof fn lemma_last_dot(name: Seq<char>, n: int)
    requires
        0 <= n <= name.len(),
        forall|j: int| n <= j < name.len() ==> name[j] != '.',
        n > 0 ==> name[n - 1] == '.',
    ensures
        last_dot(name) == if n == 0 {
            name.len() as int
        } else {
            n - 1
        },
    decreases name.len(),
{
    if name.len() > n {
        lemma_last_dot(name.drop_last(), n);
    }
}

/// What follows the last dot of the file name of `p`.
pub fn extension_in(p: &str, style: PathStyle) -> (r: Option<String>)
    ensures
        opt_text(r) == extension(p@, style),
{
    match file_name_in(p, style) {
        Some(name) => {
            let v = chars_of(name.as_str());
            let at = dot_of(&v);
            if 0 < at && at < v.len() {
                proof {
                    assert(v@.subrange(at + 1, v@.len() as int) =~= name@.skip(at + 1));
                }
                Some(slice_text(&v, at + 1, v.len()))
            } else {
                None
            }
        },
        None => None,
    }
}

/// The file name of `p` without its extension.
pub fn file_stem_in(p: &str, style: PathStyle) -> (r: Option<String>)
    ensures
        opt_text(r) == file_stem(p@, style),
{
    match file_name_in(p, style) {
        Some(name) => {
            let v = chars_of(name.as_str());
            let at = dot_of(&v);
            if 0 < at && at < v.len() {
                proof {
                    assert(v@.subrange(0, at as int) =~= name@.take(at as int));
                }
                Some(slice_text(&v, 0, at))
            } else {
                Some(name)
            }
        },
        None => None,
    }
}

/// The last component of a path holds no separator, and stands behind one or
/// behind what is kept.
pub proof fn lemma_last_start_bound(p: Seq<char>, keep: int, sep: Separation)
    ensures
        last_start(p, keep, sep) <= p.len(),
        keep <= p.len() ==> keep <= last_start(p, keep, sep),
        p.len() > 0 && p.len() > keep && !sep.separates(p.last()) ==> last_start(p, keep, sep) < p.len(),
        keep >= 0 && last_start(p, keep, sep) > keep ==> sep.separates(p[last_start(p, keep, sep) - 1]),
        forall|i: int| last_start(p, keep, sep) <= i < p.len() ==> !sep.separates(#[trigger] p[i]),
    decreases p.len(),
{
    if p.len() > 0 && p.len() > keep && !sep.separates(p.last()) {
        let front = p.drop_last();
        lemma_last_start_bound(front, keep, sep);
        assert forall|i: int| last_start(p, keep, sep) <= i < p.len() implies !sep.separates(#[trigger] p[i]) by {
            if i < front.len() {
                assert(front[i] == p[i]);
            }
        }
        if keep >= 0 && last_start(p, keep, sep) > keep {
            let at = last_start(p, keep, sep) - 1;
            assert(front[at] == p[at]);
        }
    }
}

/// Every step to a parent shortens a path.
pub proof fn parent_is_shorter(p: Seq<char>, style: PathStyle)
    ensures
        parent(p, style) matches Some(dir) ==> dir.len() < p.len(),
{
    let keep = anchor(p, style);
    let sep = separation(p, style);
    let b = trimmed_path(p, style);
    lemma_anchor(p, style);
    lemma_bare(p, keep, sep);
    if parent(p, style) is Some {
        lemma_last_start_bound(b, keep, sep);
        lemma_bare(b.take(name_start(p, style) as int), keep, sep);
    }
}

/// `p` and the directories above it, from the inside out.
pub open spec fn ancestors(p: Seq<char>, style: PathStyle) -> Seq<Seq<char>>
    decreases p.len(),
    via ancestors_decreases
{
    match parent(p, style) {
        Some(dir) => seq![p] + ancestors(dir, style),
        None => seq![p],
    }
}

#[via_fn]
proof fn ancestors_decreases(p: Seq<char>, style: PathStyle) {
    parent_is_shorter(p, style);
}

/// `p` and the directories above it, from the inside out.
pub fn ancestors_of(p: &str, style: PathStyle) -> (r: Vec<String>)
    ensures
        views(r@) == ancestors(p@, style),
    decreases p@.len(),
{
    proof {
        parent_is_shorter(p@, style);
    }
    let mut r: Vec<String> = Vec::new();
    r.push(p.to_owned());
    match parent_of(p, style) {
        Some(dir) => {
            let mut above = ancestors_of(dir.as_str(), style);
            let ghost rest = views(above@);
            r.append(&mut above);
            proof {
                assert(views(r@) =~= seq![p@] + rest);
            }
        },
        None => {
            proof {
                assert(views(r@) =~= seq![p@]);
            }
        },
    }
    r
}

/// `p` with what follows the last dot of its file name replaced by `ext`, or
/// with `ext` behind a dot where there is no such dot.
pub open spec fn with_extension(p: Seq<char>, ext: Seq<char>, style: PathStyle) -> Seq<char> {
    let dir = trimmed_path(p, style).take(name_start(p, style) as int);
    match file_stem(p, style) {
        Some(stem) => if ext.len() == 0 {
            dir + stem
        } else {
            dir + stem + "."@ + ext
        },
        None => p,
    }
}

/// `p` with the extension of its file name replaced by `ext`.
pub fn replace_extension(p: &str, ext: &str, style: PathStyle) -> (r: String)
    ensures
        r@ == with_extension(p@, ext@, style),
{
    match file_stem_in(p, style) {
        Some(stem) => {
            let v = chars_of(p);
            proof {
                assert(v@.take(v@.len() as int) =~= p@);
            }
            let sep = separation_of(&v, style);
            let keep = len_of_anchor(&v, style);
            let end = bare_len(&v, v.len(), keep, sep);
            let start = start_of_last(&v, end, keep, sep);
            let mut r = slice_text(&v, 0, start);
            proof {
                assert(v@.subrange(0, start as int) =~= trimmed_path(p@, style).take(start as int));
            }
            r.append(stem.as_str());
            if !ext.is_empty() {
                r.append(".");
                r.append(ext);
            }
            r
        },
        None => p.to_owned(),
    }
}

// ---------------------------------------------------------------------------
// Components
// ---------------------------------------------------------------------------
/// The parts of a path that are components: not the empty ones and, unless
/// `dots`, not `.`.
pub open spec fn names(parts: Seq<Seq<char>>, dots: bool) -> Seq<Seq<char>>
    decreases parts.len(),
{
    if parts.len() == 0 {
        seq![]
    } else if parts.last().len() == 0 || (parts.last() == "."@ && !dots) {
        names(parts.drop_last(), dots)
    } else {
        names(parts.drop_last(), dots).push(parts.last())
    }
}

/// `c` in upper case, where it is one of the letters that drives are named by.
pub open spec fn drive_letter(c: char) -> char {
    if 'a' <= c <= 'z' {
        ((c as u8 - 32) as u8) as char
    } else {
        c
    }
}

/// `p` with `/` for every separator.
pub open spec fn slashed(p: Seq<char>, sep: Separation) -> Seq<char> {
    Seq::new(
        p.len(),
        |i: int|
            if sep.separates(p[i]) {
                '/'
            } else {
                p[i]
            },
    )
}

/// What stands between the separators of `p`.
pub open spec fn parts(p: Seq<char>, sep: Separation) -> Seq<Seq<char>> {
    if sep == Separation::Backslash {
        split(p, '\\')
    } else {
        split(slashed(p, sep), '/')
    }
}

/// What a path's drive or share is compared by: a drive's letter counts in
/// either case, and either separator is the same one.
pub open spec fn prefix_text(p: Seq<char>, style: PathStyle) -> Seq<char> {
    let n = prefix_len(p, style);
    if is_extended(p, style) {
        Seq::new(
            n as nat,
            |i: int|
                if i == 4 && !has_extended_share(p) && has_extended_drive(p) {
                    drive_letter(p[4])
                } else if i == 7 && has_extended_share(p) {
                    '\\'
                } else {
                    p[i]
                },
        )
    } else if n == 2 {
        seq![drive_letter(p[0]), ':']
    } else {
        slashed(p.take(n), Separation::Either)
    }
}

/// What of a path stands behind its drive or share and the root.
pub open spec fn below_anchor(p: Seq<char>, style: PathStyle) -> Seq<Seq<char>> {
    parts(p.skip(anchor(p, style)), separation(p, style))
}

/// The components that a path starts with: its drive or share, if it has one,
/// and the root; without either a leading `.`, where there is one.
pub open spec fn leading(p: Seq<char>, style: PathStyle) -> Seq<Seq<char>> {
    if prefix_len(p, style) > 0 {
        if is_rooted(p, style) {
            seq![prefix_text(p, style), "/"@]
        } else {
            seq![prefix_text(p, style)]
        }
    } else if is_rooted(p, style) {
        seq!["/"@]
    } else if below_anchor(p, style)[0] == "."@ {
        seq!["."@]
    } else {
        seq![]
    }
}

/// The components of a path behind those that it starts with.
pub open spec fn body(p: Seq<char>, style: PathStyle) -> Seq<Seq<char>> {
    names(below_anchor(p, style), is_extended(p, style))
}

/// The components of a path: what it starts with, then every part that names
/// something.
pub open spec fn components(p: Seq<char>, style: PathStyle) -> Seq<Seq<char>> {
    leading(p, style) + body(p, style)
}

/// The text of `v[from..to]`, with `/` for every separator.
fn slashed_text(v: &Vec<char>, from: usize, to: usize, sep: Separation) -> (r: String)
    requires
        from <= to <= v@.len(),
    ensures
        r@ == slashed(v@.subrange(from as int, to as int), sep),
{
    let mut r = String::new();
    let ghost all = slashed(v@.subrange(from as int, to as int), sep);
    let mut i: usize = from;
    proof {
        assert(r@ =~= all.take(0));
    }
    while i < to
        invariant
            from <= i <= to <= v.len(),
            all == slashed(v@.subrange(from as int, to as int), sep),
            r@ == all.take(i - from),
        decreases to - i,
    {
        let c: char = if sep.is_separator(v[i]) {
            '/'
        } else {
            v[i]
        };
        proof {
            assert(v@.subrange(from as int, to as int)[i - from] == v@[i as int]);
            assert(all[i - from] == c);
            assert(all.take(i - from + 1) =~= all.take(i - from).push(c));
        }
        r.push(c);
        i += 1;
    }
    proof {
        assert(all.take(to - from) =~= all);
    }
    r
}

fn upper_letter(c: char) -> (r: char)
    ensures
        r == drive_letter(c),
{
    if 'a' <= c && c <= 'z' {
        (c as u8 - 32) as char
    } else {
        c
    }
}

fn extended_prefix_of(v: &Vec<char>, style: PathStyle) -> (r: String)
    requires
        is_extended(v@, style),
    ensures
        r@ == prefix_text(v@, style),
{
    let n = len_of_prefix(v, style);
    let share: bool = v.len() >= 8 && v[4] == 'U' && v[5] == 'N' && v[6] == 'C' && (v[7] == '\\' || v[7] == '/');
    let drive: bool = !share && v.len() >= 6 && is_letter(v[4]) && v[5] == ':' && (v.len() == 6 || v[6] == '\\'
        || v[6] == '/');
    let ghost all = prefix_text(v@, style);
    let mut r = String::new();
    let mut i: usize = 0;
    proof {
        assert(r@ =~= all.take(0));
    }
    while i < n
        invariant
            i <= n <= v.len(),
            n == prefix_len(v@, style),
            is_extended(v@, style),
            all == prefix_text(v@, style),
            share == has_extended_share(v@),
            drive == (!has_extended_share(v@) && has_extended_drive(v@)),
            r@ == all.take(i as int),
        decreases n - i,
    {
        let c: char = if i == 4 && drive {
            upper_letter(v[4])
        } else if i == 7 && share {
            '\\'
        } else {
            v[i]
        };
        proof {
            assert(all[i as int] == c);
            assert(all.take(i + 1) =~= all.take(i as int).push(c));
        }
        r.push(c);
        i += 1;
    }
    proof {
        assert(all.take(n as int) =~= all);
    }
    r
}

fn prefix_of(v: &Vec<char>, style: PathStyle) -> (r: String)
    requires
        prefix_len(v@, style) > 0,
    ensures
        r@ == prefix_text(v@, style),
{
    let n = len_of_prefix(v, style);
    if extends(v, style) {
        extended_prefix_of(v, style)
    } else if n == 2 {
        let mut r = String::new();
        r.push(upper_letter(v[0]));
        r.push(':');
        proof {
            assert(r@ =~= seq![drive_letter(v@[0]), ':']);
        }
        r
    } else {
        proof {
            assert(v@.subrange(0, n as int) =~= v@.take(n as int));
        }
        slashed_text(v, 0, n, Separation::Either)
    }
}

/// What of a path stands behind its drive or share and the root.
fn parts_below(v: &Vec<char>, style: PathStyle) -> (r: Vec<String>)
    ensures
        views(r@) == below_anchor(v@, style),
        r@.len() > 0,
{
    let sep = separation_of(v, style);
    let from = len_of_anchor(v, style);
    proof {
        assert(v@.subrange(from as int, v@.len() as int) =~= v@.skip(from as int));
    }
    let r = if sep == Separation::Backslash {
        let below = slice_text(v, from, v.len());
        split_on(below.as_str(), '\\')
    } else {
        let below = slashed_text(v, from, v.len(), sep);
        split_on(below.as_str(), '/')
    };
    proof {
        assert(views(r@).len() > 0);
    }
    r
}

/// The components of a path behind those that it starts with, after `lead`.
fn body_after(lead: Vec<String>, v: &Vec<char>, style: PathStyle) -> (r: Vec<String>)
    ensures
        views(r@) == views(lead@) + body(v@, style),
{
    let below = parts_below(v, style);
    let dots = extends(v, style);
    let ghost all = below_anchor(v@, style);
    let ghost start = views(lead@);
    let mut r = lead;
    proof {
        assert(all.take(0) =~= seq![]);
        assert(start + names(all.take(0), dots) =~= start);
    }
    let mut i: usize = 0;
    while i < below.len()
        invariant
            i <= below.len(),
            all == views(below@),
            views(r@) == start + names(all.take(i as int), dots),
        decreases below.len() - i,
    {
        let part = below[i].as_str();
        let ghost before = views(r@);
        proof {
            assert(all.take(i + 1).drop_last() =~= all.take(i as int));
            assert(all.take(i + 1).last() == part@);
        }
        if !part.is_empty() && (dots || !same(part, ".")) {
            r.push(part.to_owned());
            proof {
                assert(views(r@) =~= before.push(part@));
                assert(start + names(all.take(i as int), dots).push(part@) =~= before.push(part@));
            }
        }
        i += 1;
    }
    proof {
        assert(all.take(i as int) =~= all);
    }
    r
}

/// The components of a path.
pub fn components_of(p: &str, style: PathStyle) -> (r: Vec<String>)
    ensures
        views(r@) == components(p@, style),
{
    let v = chars_of(p);
    let prefix = len_of_prefix(&v, style);
    let from = len_of_anchor(&v, style);
    let rooted: bool = from > prefix || (prefix > 2 && !extends(&v, style));
    let mut lead: Vec<String> = Vec::new();
    if prefix > 0 {
        lead.push(prefix_of(&v, style));
        if rooted {
            lead.push("/".to_owned());
        }
    } else if rooted {
        lead.push("/".to_owned());
    } else {
        let below = parts_below(&v, style);
        proof {
            assert(below_anchor(p@, style)[0] == below@[0]@);
        }
        if same(below[0].as_str(), ".") {
            lead.push(".".to_owned());
        }
    }
    proof {
        assert(views(lead@) =~= leading(p@, style));
    }
    body_after(lead, &v, style)
}

// ---------------------------------------------------------------------------
// Putting together
// ---------------------------------------------------------------------------
/// Whether a component is a name, and not `.` or `..`.
pub open spec fn is_name(part: Seq<char>) -> bool {
    part != "."@ && part != ".."@
}

/// Where `steps` lead from `at`: `..` takes back the last name, if that is the
/// last component, and anything else is one component more.
pub open spec fn resolved(at: Seq<Seq<char>>, steps: Seq<Seq<char>>) -> Seq<Seq<char>>
    decreases steps.len(),
{
    if steps.len() == 0 {
        at
    } else {
        let so_far = resolved(at, steps.drop_last());
        if steps.last() != ".."@ {
            so_far.push(steps.last())
        } else if so_far.len() > 0 && is_name(so_far.last()) {
            so_far.drop_last()
        } else {
            so_far
        }
    }
}

/// An extended-length path, spelt out of its parts.
pub open spec fn spelt(prefix: Seq<char>, rooted: bool, parts: Seq<Seq<char>>) -> Seq<char> {
    if rooted || parts.len() > 0 {
        prefix.push('\\') + joined_with(parts, "\\"@)
    } else {
        prefix
    }
}

/// `rest` looked up from an extended-length `base`: such a path is spelt anew,
/// and where `rest` goes up or stays, so does the path.
pub open spec fn rebuilt(base: Seq<char>, rest: Seq<char>, style: PathStyle) -> Seq<char> {
    let from_root = style.separates(rest[0]);
    spelt(
        base.take(prefix_len(base, style)),
        from_root || anchor(base, style) > prefix_len(base, style),
        resolved(
            if from_root {
                seq![]
            } else {
                body(base, style)
            },
            body(rest, style),
        ),
    )
}

/// `rest` looked up from `base`. A `rest` with a drive or share stands for
/// itself, and one that starts at a root keeps nothing of `base` but its drive
/// or share.
pub open spec fn join(base: Seq<char>, rest: Seq<char>, style: PathStyle) -> Seq<char> {
    if prefix_len(rest, style) > 0 {
        rest
    } else if is_extended(base, style) && rest.len() > 0 {
        rebuilt(base, rest, style)
    } else if rest.len() > 0 && style.separates(rest[0]) {
        base.take(prefix_len(base, style)) + rest
    } else if base.len() == 0 || style.separates(base.last()) || (has_drive(base) && base.len() == 2
        && style == PathStyle::Windows) {
        base + rest
    } else {
        base.push(style.separator()) + rest
    }
}

fn resolve(at: Vec<String>, steps: &Vec<String>) -> (r: Vec<String>)
    ensures
        views(r@) == resolved(views(at@), views(steps@)),
{
    let ghost start = views(at@);
    let ghost all = views(steps@);
    let mut r = at;
    let mut i: usize = 0;
    proof {
        assert(all.take(0) =~= seq![]);
    }
    while i < steps.len()
        invariant
            i <= steps.len(),
            all == views(steps@),
            views(r@) == resolved(start, all.take(i as int)),
        decreases steps.len() - i,
    {
        let step = steps[i].as_str();
        let ghost before = views(r@);
        proof {
            assert(all.take(i + 1).drop_last() =~= all.take(i as int));
            assert(all.take(i + 1).last() == step@);
        }
        if !same(step, "..") {
            r.push(step.to_owned());
            proof {
                assert(views(r@) =~= before.push(step@));
            }
        } else if r.len() > 0 {
            let last = r[r.len() - 1].as_str();
            proof {
                assert(before.last() == last@);
            }
            if !same(last, ".") && !same(last, "..") {
                let gone = r.pop();
                proof {
                    assert(views(r@) =~= before.drop_last());
                }
            }
        }
        i += 1;
    }
    proof {
        assert(all.take(i as int) =~= all);
    }
    r
}

fn rebuild(b: &Vec<char>, t: &Vec<char>, style: PathStyle) -> (r: String)
    requires
        t@.len() > 0,
    ensures
        r@ == rebuilt(b@, t@, style),
{
    let prefix = len_of_prefix(b, style);
    let from_root: bool = style.is_separator(t[0]);
    let rooted: bool = from_root || len_of_anchor(b, style) > prefix;
    let none: Vec<String> = Vec::new();
    let at: Vec<String> = if from_root {
        Vec::new()
    } else {
        body_after(Vec::new(), b, style)
    };
    let steps = body_after(Vec::new(), t, style);
    proof {
        assert(views(none@) =~= seq![]);
        assert(Seq::<Seq<char>>::empty() + body(b@, style) =~= body(b@, style));
        assert(Seq::<Seq<char>>::empty() + body(t@, style) =~= body(t@, style));
        assert(views(steps@) =~= body(t@, style));
        assert(views(at@) =~= if from_root {
            seq![]
        } else {
            body(b@, style)
        });
    }
    let parts = resolve(at, &steps);
    let mut r = slice_text(b, 0, prefix);
    proof {
        assert(b@.subrange(0, prefix as int) =~= b@.take(prefix as int));
    }
    if rooted || parts.len() > 0 {
        r.push('\\');
        r.append(join_texts(&parts, "\\").as_str());
    }
    r
}

/// `rest` looked up from `base`.
pub fn join_path(base: &str, rest: &str, style: PathStyle) -> (r: String)
    ensures
        r@ == join(base@, rest@, style),
{
    let b = chars_of(base);
    let t = chars_of(rest);
    if len_of_prefix(&t, style) > 0 {
        return rest.to_owned();
    }
    if extends(&b, style) && t.len() > 0 {
        return rebuild(&b, &t, style);
    }
    let kept = len_of_prefix(&b, style);
    if t.len() > 0 && style.is_separator(t[0]) {
        let mut r = slice_text(&b, 0, kept);
        proof {
            assert(b@.subrange(0, kept as int) =~= base@.take(kept as int));
        }
        r.append(rest);
        return r;
    }
    let mut r: String = base.to_owned();
    let is_drive: bool = b.len() == 2 && is_letter(b[0]) && b[1] == ':' && style == PathStyle::Windows;
    if b.len() > 0 && !style.is_separator(b[b.len() - 1]) && !is_drive {
        r.push(style.main_separator());
    }
    r.append(rest);
    r
}

// ---------------------------------------------------------------------------
// Paths below a root
// ---------------------------------------------------------------------------
/// What of `absolute` lies below `root`, as `/`-separated text; nothing if
/// `absolute` does not lie there.
pub open spec fn wire_path(root: Seq<char>, absolute: Seq<char>, style: PathStyle) -> Option<Seq<char>> {
    if components(root, style).is_prefix_of(components(absolute, style)) {
        Some(joined_with(components(absolute, style).skip(components(root, style).len() as int), "/"@))
    } else {
        None
    }
}

/// A path as the project knows it: relative to the root, with `/` between its
/// parts; nothing outside the root.
pub fn relative_wire_path(root: &str, absolute: &str, style: PathStyle) -> (r: Option<String>)
    ensures
        opt_text(r) == wire_path(root@, absolute@, style),
{
    let base = components_of(root, style);
    let full = components_of(absolute, style);
    let ghost b = components(root@, style);
    let ghost f = components(absolute@, style);
    if base.len() > full.len() {
        return None;
    }
    let mut i: usize = 0;
    while i < base.len()
        invariant
            i <= base.len() <= full.len(),
            b == views(base@),
            f == views(full@),
            b == components(root@, style),
            f == components(absolute@, style),
            forall|j: int| 0 <= j < i ==> b[j] == f[j],
        decreases base.len() - i,
    {
        if !same(base[i].as_str(), full[i].as_str()) {
            proof {
                assert(b[i as int] != f[i as int]);
            }
            return None;
        }
        proof {
            assert(b[i as int] == f[i as int]);
        }
        i += 1;
    }
    proof {
        assert(b =~= f.take(b.len() as int));
    }
    let mut rest: Vec<String> = Vec::new();
    while i < full.len()
        invariant
            base.len() <= i <= full.len(),
            b == views(base@),
            f == views(full@),
            views(rest@) == f.subrange(b.len() as int, i as int),
        decreases full.len() - i,
    {
        let ghost before = views(rest@);
        rest.push(full[i].clone());
        proof {
            assert(views(rest@) =~= before.push(f[i as int]));
            assert(f.subrange(b.len() as int, i + 1) =~= before.push(f[i as int]));
        }
        i += 1;
    }
    proof {
        assert(views(rest@) =~= f.skip(b.len() as int));
    }
    Some(join_texts(&rest, "/"))
}

/// A settled change that is to be routed: the path below the root, unless the
/// change lies outside it or is the root itself.
pub fn settled_file(root: &str, settled: &str, style: PathStyle) -> (r: Option<String>)
    ensures
        opt_text(r) == (match wire_path(root@, settled@, style) {
            Some(p) => if p.len() == 0 {
                None
            } else {
                Some(p)
            },
            None => None,
        }),
{
    match relative_wire_path(root, settled, style) {
        Some(p) => if p.as_str().is_empty() {
            None
        } else {
            Some(p)
        },
        None => None,
    }
}

/// The root itself lies nowhere below the root: its path is empty.
pub proof fn the_root_has_an_empty_wire_path(root: Seq<char>, style: PathStyle)
    ensures
        wire_path(root, root, style) == Some(Seq::<char>::empty()),
{
    let c = components(root, style);
    assert(c.take(c.len() as int) =~= c);
    assert(c.skip(c.len() as int) =~= seq![]);
}

} // verus!
