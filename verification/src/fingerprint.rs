//! What a plugin's build is known by: a digest of all its files, so that it
//! changes exactly when what the plugin does may have changed.

use vstd::bytes::*;
use vstd::prelude::*;
use vstd::string::*;

use crate::digest::{
    fingerprint_of, fingerprint_text, hex_is_hexadecimal, is_hex, FINGERPRINT_HEX_CHARS,
};
use crate::order::{arrangement_is_unique, is_order, keys_of, order_of, picked};
use crate::path::PathStyle;
use crate::plugin::FINGERPRINT_UNAVAILABLE;
use crate::text::{contains_text, same, views};

verus! {

/// One entry of a directory of a plugin's build.
#[derive(Debug)]
pub enum BuildEntry {
    File { name: String, bytes: Vec<u8> },
    Dir { name: String, entries: Vec<BuildEntry> },
    /// Neither a regular file nor a directory: nothing a build emits.
    Other,
}

/// Whether every plugin's fingerprint passes over directories of this name.
pub open spec fn is_junk(name: Seq<char>) -> bool {
    ||| name == ".git"@
    ||| name == "node_modules"@
    ||| name == "__pycache__"@
    ||| name == ".venv"@
    ||| name == "venv"@
    ||| name == ".pytest_cache"@
}

/// Whether a fingerprint passes over directories of this name: those that every
/// one does, and those that the plugin's manifest adds.
pub open spec fn is_passed_over(name: Seq<char>, ignore: Seq<Seq<char>>) -> bool {
    is_junk(name) || ignore.contains(name)
}

/// Whether a fingerprint passes over directories of this name.
pub fn is_fingerprint_ignored(name: &str, ignore: &Vec<String>) -> (r: bool)
    ensures
        r == is_passed_over(name@, views(ignore@)),
{
    same(name, ".git") || same(name, "node_modules") || same(name, "__pycache__") || same(name, ".venv")
        || same(name, "venv") || same(name, ".pytest_cache") || contains_text(ignore, name)
}

/// A file of a build: its path below the build's directory, and what it holds.
#[derive(Clone, Debug)]
pub struct BuildFile {
    pub relative: String,
    pub bytes: Vec<u8>,
}

/// What a `BuildFile` says.
pub struct Content {
    pub relative: Seq<char>,
    pub bytes: Seq<u8>,
}

impl View for BuildFile {
    type V = Content;

    open spec fn view(&self) -> Content {
        Content { relative: self.relative@, bytes: self.bytes@ }
    }
}

/// What a list of files says, in order.
pub open spec fn contents(files: Seq<BuildFile>) -> Seq<Content> {
    Seq::new(files.len(), |i: int| files[i]@)
}

/// The path of `name` below `rel`, with the platform's separator.
pub open spec fn child_rel(rel: Seq<char>, name: Seq<char>, style: PathStyle) -> Seq<char> {
    if rel.len() == 0 {
        name
    } else {
        rel.push(style.separator()) + name
    }
}

/// The files of one entry of the directory `rel`, at any depth.
pub open spec fn files_of(
    rel: Seq<char>,
    entry: BuildEntry,
    ignore: Seq<Seq<char>>,
    style: PathStyle,
) -> Seq<Content>
    decreases entry, 0nat,
{
    match entry {
        BuildEntry::File { name, bytes } => seq![
            Content { relative: child_rel(rel, name@, style), bytes: bytes@ },
        ],
        BuildEntry::Dir { name, entries } => if is_passed_over(name@, ignore) {
            seq![]
        } else {
            files_in(child_rel(rel, name@, style), entries, entries@.len(), ignore, style)
        },
        BuildEntry::Other => seq![],
    }
}

/// The files of the first `n` entries of the directory `rel`, at any depth.
pub open spec fn files_in(
    rel: Seq<char>,
    entries: Vec<BuildEntry>,
    n: nat,
    ignore: Seq<Seq<char>>,
    style: PathStyle,
) -> Seq<
    Content,
>
    decreases entries, n,
{
    if n == 0 || n > entries@.len() {
        seq![]
    } else {
        files_in(rel, entries, (n - 1) as nat, ignore, style) + files_of(rel, entries[n - 1], ignore, style)
    }
}

/// Gathers the files of the directory `rel`, at any depth.
fn collect_fingerprinted_files(
    rel: &str,
    entries: &Vec<BuildEntry>,
    ignore: &Vec<String>,
    out: &mut Vec<BuildFile>,
    style: PathStyle,
)
    ensures
        contents(final(out)@) == contents(old(out)@) + files_in(
            rel@,
            *entries,
            entries@.len(),
            views(ignore@),
            style,
        ),
    decreases entries,
{
    let ghost before = contents(out@);
    let mut i: usize = 0;
    proof {
        assert(before + files_in(rel@, *entries, 0, views(ignore@), style) =~= before);
    }
    while i < entries.len()
        invariant
            i <= entries.len(),
            contents(out@) == before + files_in(rel@, *entries, i as nat, views(ignore@), style),
        decreases entries.len() - i,
    {
        let ghost so_far = contents(out@);
        match &entries[i] {
            BuildEntry::File { name, bytes } => {
                let relative = below(rel, name.as_str(), style);
                out.push(BuildFile { relative, bytes: copy_bytes(bytes) });
                proof {
                    assert(contents(out@) =~= so_far + seq![
                        Content { relative: child_rel(rel@, name@, style), bytes: bytes@ },
                    ]);
                }
            },
            BuildEntry::Dir { name, entries: inner } => {
                if !is_fingerprint_ignored(name.as_str(), ignore) {
                    let inside = below(rel, name.as_str(), style);
                    collect_fingerprinted_files(inside.as_str(), inner, ignore, out, style);
                } else {
                    proof {
                        assert(so_far + Seq::<Content>::empty() =~= so_far);
                    }
                }
            },
            BuildEntry::Other => {
                proof {
                    assert(so_far + Seq::<Content>::empty() =~= so_far);
                }
            },
        }
        proof {
            assert(contents(out@) =~= so_far + files_of(rel@, entries@[i as int], views(ignore@), style));
            assert(before + (files_in(rel@, *entries, i as nat, views(ignore@), style) + files_of(
                rel@,
                entries@[i as int],
                views(ignore@),
                style,
            )) =~= so_far + files_of(rel@, entries@[i as int], views(ignore@), style));
        }
        i += 1;
    }
}

fn below(rel: &str, name: &str, style: PathStyle) -> (r: String)
    ensures
        r@ == child_rel(rel@, name@, style),
{
    if rel.is_empty() {
        name.to_owned()
    } else {
        let mut r: String = rel.to_owned();
        r.push(style.main_separator());
        r.append(name);
        r
    }
}

fn copy_bytes(bytes: &Vec<u8>) -> (r: Vec<u8>)
    ensures
        r@ == bytes@,
{
    let mut r: Vec<u8> = Vec::new();
    append_bytes(&mut r, bytes);
    proof {
        assert(r@ =~= bytes@);
    }
    r
}

fn append_bytes(out: &mut Vec<u8>, bytes: &[u8])
    ensures
        final(out)@ == old(out)@ + bytes@,
{
    let ghost before = out@;
    let mut i: usize = 0;
    while i < bytes.len()
        invariant
            i <= bytes@.len(),
            out@ == before + bytes@.take(i as int),
        decreases bytes@.len() - i,
    {
        out.push(bytes[i]);
        proof {
            assert(bytes@.take(i + 1) =~= bytes@.take(i as int).push(bytes@[i as int]));
            assert(out@ =~= before + bytes@.take(i + 1));
        }
        i += 1;
    }
    proof {
        assert(bytes@.take(i as int) =~= bytes@);
    }
}

/// What one file adds to the message that is digested: its path, a zero byte,
/// its length and its bytes.
pub open spec fn file_message(file: Content) -> Seq<u8> {
    vstd::utf8::encode_utf8(file.relative) + seq![0u8] + spec_u64_to_le_bytes(file.bytes.len() as u64)
        + file.bytes
}

/// The message that is digested for `files`, in this order.
pub open spec fn build_message(files: Seq<Content>) -> Seq<u8>
    decreases files.len(),
{
    if files.len() == 0 {
        seq![]
    } else {
        build_message(files.drop_last()) + file_message(files.last())
    }
}

/// The paths of files, in order.
pub open spec fn relatives(files: Seq<Content>) -> Seq<Seq<char>> {
    Seq::new(files.len(), |i: int| files[i].relative)
}

/// Whether `digest` is the fingerprint of `files`: that of all of them, in the
/// order of their paths.
pub open spec fn is_fingerprint(digest: Seq<char>, files: Seq<Content>) -> bool {
    exists|p: Seq<usize>| #[trigger]
        is_order(relatives(files), p) && digest == fingerprint_text(build_message(picked(files, p)))
}

/// The fingerprint of a build; nothing where there is no file to take it of.
pub fn digest_of_plugin_build(
    entries: &Vec<BuildEntry>,
    ignore: &Vec<String>,
    style: PathStyle,
) -> (r: Option<String>)
    ensures
        ({
            let files = files_in(seq![], *entries, entries@.len(), views(ignore@), style);
            match r {
                Some(digest) => files.len() > 0 && is_fingerprint(digest@, files) && digest@.len()
                    == FINGERPRINT_HEX_CHARS,
                None => files.len() == 0,
            }
        }),
{
    let mut files: Vec<BuildFile> = Vec::new();
    proof {
        reveal_strlit("");
        assert(""@ =~= Seq::<char>::empty());
        assert(contents(files@) =~= seq![]);
    }
    collect_fingerprinted_files("", entries, ignore, &mut files, style);
    let ghost all = files_in(seq![], *entries, entries@.len(), views(ignore@), style);
    proof {
        assert(contents(files@) =~= all);
    }
    if files.len() == 0 {
        return None;
    }
    let mut keys: Vec<String> = Vec::new();
    let mut i: usize = 0;
    while i < files.len()
        invariant
            i <= files.len(),
            keys@.len() == i,
            forall|j: int| 0 <= j < i ==> (#[trigger] keys@[j])@ == files@[j].relative@,
        decreases files.len() - i,
    {
        keys.push(files[i].relative.clone());
        i += 1;
    }
    let order = order_of(&keys);
    proof {
        assert(views(keys@) =~= relatives(all));
    }
    let ghost sorted = picked(all, order@);
    let mut message: Vec<u8> = Vec::new();
    let mut k: usize = 0;
    proof {
        assert(sorted.take(0) =~= seq![]);
        assert(message@ =~= build_message(seq![]));
    }
    while k < order.len()
        invariant
            k <= order.len(),
            contents(files@) == all,
            is_order(relatives(all), order@),
            sorted == picked(all, order@),
            message@ == build_message(sorted.take(k as int)),
        decreases order.len() - k,
    {
        let file = &files[order[k]];
        let ghost before = message@;
        append_bytes(&mut message, file.relative.as_str().as_bytes());
        message.push(0);
        let size = u64_to_le_bytes(file.bytes.len() as u64);
        append_bytes(&mut message, size.as_slice());
        append_bytes(&mut message, file.bytes.as_slice());
        proof {
            assert(file@ == sorted[k as int]);
            assert(sorted.take(k + 1).drop_last() =~= sorted.take(k as int));
            assert(sorted.take(k + 1).last() == file@);
            assert(message@ =~= before + file_message(file@));
        }
        k += 1;
    }
    proof {
        assert(sorted.take(k as int) =~= sorted);
    }
    Some(fingerprint_of(message.as_slice()))
}

/// Whether `known` is what a build is known by: its fingerprint, or a fixed
/// text where there is none.
pub open spec fn is_known_by(
    known: Seq<char>,
    build: Option<Vec<BuildEntry>>,
    ignore: Seq<Seq<char>>,
    style: PathStyle,
) -> bool {
    match build {
        Some(dir) => {
            let files = files_in(seq![], dir, dir@.len(), ignore, style);
            if files.len() > 0 {
                is_fingerprint(known, files) && known.len() == FINGERPRINT_HEX_CHARS
            } else {
                known == FINGERPRINT_UNAVAILABLE@
            }
        },
        None => known == FINGERPRINT_UNAVAILABLE@,
    }
}

/// What a build is known by: its fingerprint, or a fixed text where there is
/// none. `entries` is what the plugin's directory holds, if it could be read.
pub fn fingerprint(entries: Option<&Vec<BuildEntry>>, ignore: &Vec<String>, style: PathStyle) -> (r: String)
    ensures
        is_known_by(
            r@,
            match entries {
                Some(dir) => Some(*dir),
                None => None,
            },
            views(ignore@),
            style,
        ),
{
    match entries {
        Some(dir) => match digest_of_plugin_build(dir, ignore, style) {
            Some(digest) => digest,
            None => FINGERPRINT_UNAVAILABLE.to_owned(),
        },
        None => FINGERPRINT_UNAVAILABLE.to_owned(),
    }
}

/// What the bundled plugin's build is known by; its manifest adds nothing to
/// what is passed over.
pub fn bundled_fingerprint(entries: Option<&Vec<BuildEntry>>, style: PathStyle) -> (r: String)
    ensures
        is_known_by(
            r@,
            match entries {
                Some(dir) => Some(*dir),
                None => None,
            },
            seq![],
            style,
        ),
{
    let nothing: Vec<String> = Vec::new();
    proof {
        assert(views(nothing@) =~= seq![]);
    }
    fingerprint(entries, &nothing, style)
}

// ---------------------------------------------------------------------------
// Laws
// ---------------------------------------------------------------------------
/// What lies in a directory that is passed over does not count: it can be
/// anything, and the files of the build are the same.
pub proof fn an_ignored_directory_does_not_count(
    rel: Seq<char>,
    name: String,
    one: Vec<BuildEntry>,
    other: Vec<BuildEntry>,
    ignore: Seq<Seq<char>>,
    style: PathStyle,
)
    requires
        is_passed_over(name@, ignore),
    ensures
        files_of(rel, BuildEntry::Dir { name, entries: one }, ignore, style) == files_of(
            rel,
            BuildEntry::Dir { name, entries: other },
            ignore,
            style,
        ),
        files_of(rel, BuildEntry::Dir { name, entries: one }, ignore, style).len() == 0,
{
}

/// A fingerprint is of the files and not of the order they were listed in: two
/// builds of the same files have the same fingerprint.
pub proof fn the_listing_order_does_not_count(
    one: Seq<Content>,
    other: Seq<Content>,
    digest: Seq<char>,
    other_digest: Seq<char>,
)
    requires
        relatives(one).no_duplicates(),
        relatives(other).no_duplicates(),
        forall|f: Content| one.contains(f) <==> other.contains(f),
        is_fingerprint(digest, one),
        is_fingerprint(other_digest, other),
    ensures
        digest == other_digest,
{
    let p = choose|p: Seq<usize>| #[trigger]
        is_order(relatives(one), p) && digest == fingerprint_text(build_message(picked(one, p)));
    let q = choose|q: Seq<usize>| #[trigger]
        is_order(relatives(other), q) && other_digest == fingerprint_text(
            build_message(picked(other, q)),
        );
    let key = |f: Content| f.relative;
    assert(relatives(one) =~= keys_of(one, key));
    assert(relatives(other) =~= keys_of(other, key));
    arrangement_is_unique(one, other, p, q, key);
}

/// The name of an entry; `Other` has none that counts.
pub open spec fn name_of(entry: BuildEntry) -> Option<Seq<char>> {
    match entry {
        BuildEntry::File { name, .. } => Some(name@),
        BuildEntry::Dir { name, .. } => Some(name@),
        BuildEntry::Other => None,
    }
}

/// Whether an entry is one that a directory can hold: its name is some text
/// without separators, and so on below it.
pub open spec fn is_entry(entry: BuildEntry, style: PathStyle) -> bool
    decreases entry, 0nat,
{
    &&& name_of(entry) matches Some(name) ==> name.len() > 0 && !name.contains(style.separator())
    &&& entry matches BuildEntry::Dir { entries, .. } ==> is_listing(entries, entries@.len(), style)
}

/// Whether the first `n` entries are what a directory can hold: no two of them
/// have the same name, and so on below them.
pub open spec fn is_listing(entries: Vec<BuildEntry>, n: nat, style: PathStyle) -> bool
    decreases entries, n,
{
    n == 0 || n > entries@.len() || {
        &&& is_listing(entries, (n - 1) as nat, style)
        &&& is_entry(entries[n - 1], style)
        &&& forall|i: int|
            0 <= i < n - 1 && name_of(#[trigger] entries@[i]) is Some ==> name_of(entries@[i]) != name_of(
                entries[n - 1],
            )
    }
}

/// Whether `path` is `stem` and `name`, with nothing or a separator behind.
spec fn goes_through(path: Seq<char>, stem: Seq<char>, name: Seq<char>, style: PathStyle) -> bool {
    &&& (stem + name).is_prefix_of(path)
    &&& path.len() > stem.len() + name.len() ==> path[(stem.len() + name.len()) as int] == style.separator()
}

/// What the paths of the entries of the directory `rel` start with.
spec fn stem_of(rel: Seq<char>, style: PathStyle) -> Seq<char> {
    if rel.len() == 0 {
        rel
    } else {
        rel.push(style.separator())
    }
}

/// A path goes through one name only.
proof fn lemma_one_name(
    path: Seq<char>,
    stem: Seq<char>,
    one: Seq<char>,
    other: Seq<char>,
    style: PathStyle,
)
    requires
        goes_through(path, stem, one, style),
        goes_through(path, stem, other, style),
        !one.contains(style.separator()),
        !other.contains(style.separator()),
    ensures
        one == other,
{
    let s = stem.len() as int;
    assert forall|i: int| 0 <= i < one.len() implies path[s + i] == one[i] by {
        assert((stem + one)[s + i] == path.take((stem + one).len() as int)[s + i]);
    }
    assert forall|i: int| 0 <= i < other.len() implies path[s + i] == other[i] by {
        assert((stem + other)[s + i] == path.take((stem + other).len() as int)[s + i]);
    }
    if one.len() < other.len() {
        assert(other[one.len() as int] == path[s + one.len()]);
        assert(other.contains(style.separator()));
    }
    if other.len() < one.len() {
        assert(one[other.len() as int] == path[s + other.len()]);
        assert(one.contains(style.separator()));
    }
    assert(one =~= other);
}

/// Every file of an entry has a path through the entry's name.
proof fn lemma_files_go_through(
    rel: Seq<char>,
    entry: BuildEntry,
    ignore: Seq<Seq<char>>,
    style: PathStyle,
    f: Content,
)
    requires
        is_entry(entry, style),
        files_of(rel, entry, ignore, style).contains(f),
    ensures
        name_of(entry) is Some,
        goes_through(f.relative, stem_of(rel, style), name_of(entry)->0, style),
    decreases entry, 0nat,
{
    let stem = stem_of(rel, style);
    let name = name_of(entry)->0;
    let own = child_rel(rel, name, style);
    assert(own =~= stem + name);
    match entry {
        BuildEntry::File { .. } => {
            assert(f.relative =~= (stem + name).take((stem + name).len() as int));
        },
        BuildEntry::Dir { entries, .. } => {
            lemma_files_lie_below(own, entries, entries@.len(), ignore, style, f);
            assert(stem_of(own, style) == own.push(style.separator()));
            let path = f.relative;
            let start = own.push(style.separator());
            assert(path.take(start.len() as int)[own.len() as int] == style.separator());
            assert(own =~= path.take(own.len() as int)) by {
                assert forall|i: int| 0 <= i < own.len() implies own[i] == path[i] by {
                    assert(start[i] == path.take(start.len() as int)[i]);
                }
            }
        },
        BuildEntry::Other => {},
    }
}

/// Every file of a directory has a path below it.
proof fn lemma_files_lie_below(
    rel: Seq<char>,
    entries: Vec<BuildEntry>,
    n: nat,
    ignore: Seq<Seq<char>>,
    style: PathStyle,
    f: Content,
)
    requires
        is_listing(entries, n, style),
        n <= entries@.len(),
        files_in(rel, entries, n, ignore, style).contains(f),
    ensures
        stem_of(rel, style).is_prefix_of(f.relative),
        exists|i: int| 0 <= i < n && files_of(rel, #[trigger] entries@[i], ignore, style).contains(f),
    decreases entries, n,
{
    if n > 0 {
        let front = files_in(rel, entries, (n - 1) as nat, ignore, style);
        let last = files_of(rel, entries[n - 1], ignore, style);
        let k = choose|k: int| 0 <= k < (front + last).len() && (front + last)[k] == f;
        if k < front.len() {
            assert(front[k] == f);
            lemma_files_lie_below(rel, entries, (n - 1) as nat, ignore, style, f);
            let i = choose|i: int|
                0 <= i < n - 1 && files_of(rel, #[trigger] entries@[i], ignore, style).contains(f);
            assert(files_of(rel, entries@[i], ignore, style).contains(f));
        } else {
            assert(last[k - front.len()] == f);
            let entry = entries@[n - 1];
            assert(entry == entries[n - 1]);
            assert(files_of(rel, entry, ignore, style).contains(f));
            lemma_files_go_through(rel, entries[n - 1], ignore, style, f);
            let stem = stem_of(rel, style);
            let whole = stem + name_of(entry)->0;
            assert(stem =~= f.relative.take(stem.len() as int)) by {
                assert forall|i: int| 0 <= i < stem.len() implies stem[i] == f.relative[i] by {
                    assert(whole[i] == f.relative.take(whole.len() as int)[i]);
                }
            }
        }
    }
}

proof fn lemma_no_path_twice_in_entry(
    rel: Seq<char>,
    entry: BuildEntry,
    ignore: Seq<Seq<char>>,
    style: PathStyle,
)
    requires
        is_entry(entry, style),
    ensures
        relatives(files_of(rel, entry, ignore, style)).no_duplicates(),
    decreases entry, 0nat,
{
    match entry {
        BuildEntry::Dir { name, entries } => {
            lemma_no_path_twice(child_rel(rel, name@, style), entries, entries@.len(), ignore, style);
        },
        _ => {},
    }
}

/// What a directory holds has no path twice.
proof fn lemma_no_path_twice(
    rel: Seq<char>,
    entries: Vec<BuildEntry>,
    n: nat,
    ignore: Seq<Seq<char>>,
    style: PathStyle,
)
    requires
        is_listing(entries, n, style),
        n <= entries@.len(),
    ensures
        relatives(files_in(rel, entries, n, ignore, style)).no_duplicates(),
    decreases entries, n,
{
    if n > 0 {
        let front = files_in(rel, entries, (n - 1) as nat, ignore, style);
        let last = files_of(rel, entries[n - 1], ignore, style);
        let all = front + last;
        lemma_no_path_twice(rel, entries, (n - 1) as nat, ignore, style);
        lemma_no_path_twice_in_entry(rel, entries[n - 1], ignore, style);
        let r = relatives(all);
        assert forall|i: int, j: int| 0 <= i < r.len() && 0 <= j < r.len() && i != j implies r[i] != r[j] by {
            if i < front.len() && j < front.len() {
                assert(relatives(front)[i] == r[i] && relatives(front)[j] == r[j]);
            } else if i >= front.len() && j >= front.len() {
                let (a, b) = (i - front.len(), j - front.len());
                assert(relatives(last)[a] == r[i] && relatives(last)[b] == r[j]);
            } else {
                let (x, y) = if i < front.len() {
                    (i, j)
                } else {
                    (j, i)
                };
                assert(front.contains(front[x]));
                assert(last.contains(last[y - front.len()]));
                lemma_apart(rel, entries, n, ignore, style, front[x], last[y - front.len()]);
            }
        }
    }
}

/// Files of different entries of a directory have different paths.
proof fn lemma_apart(
    rel: Seq<char>,
    entries: Vec<BuildEntry>,
    n: nat,
    ignore: Seq<Seq<char>>,
    style: PathStyle,
    f: Content,
    g: Content,
)
    requires
        is_listing(entries, n, style),
        0 < n <= entries@.len(),
        files_in(rel, entries, (n - 1) as nat, ignore, style).contains(f),
        files_of(rel, entries[n - 1], ignore, style).contains(g),
    ensures
        f.relative != g.relative,
{
    lemma_files_lie_below(rel, entries, (n - 1) as nat, ignore, style, f);
    let i = choose|i: int| 0 <= i < n - 1 && files_of(rel, #[trigger] entries@[i], ignore, style).contains(f);
    lemma_listed(entries, (n - 1) as nat, i, style);
    lemma_files_go_through(rel, entries@[i], ignore, style, f);
    lemma_files_go_through(rel, entries[n - 1], ignore, style, g);
    assert(name_of(entries@[i]) != name_of(entries[n - 1]));
    lemma_listed(entries, n, n - 1, style);
    assert(!(name_of(entries@[n - 1])->0).contains(style.separator()));
    if f.relative == g.relative {
        lemma_one_name(
            f.relative,
            stem_of(rel, style),
            name_of(entries@[i])->0,
            name_of(entries[n - 1])->0,
            style,
        );
    }
}

proof fn lemma_listed(entries: Vec<BuildEntry>, n: nat, i: int, style: PathStyle)
    requires
        is_listing(entries, n, style),
        0 <= i < n <= entries@.len(),
    ensures
        is_entry(entries@[i], style),
    decreases n,
{
    if i < n - 1 {
        lemma_listed(entries, (n - 1) as nat, i, style);
    }
}

/// A build is known by its files alone: two directories whose files outside
/// what is passed over have the same paths and the same bytes are known by the
/// same text, however they are listed and whatever else they hold. Without any
/// such file that is the fixed text; with one it is lower-case hexadecimal
/// digits.
pub proof fn a_build_is_known_by_its_files(
    one: Vec<BuildEntry>,
    other: Vec<BuildEntry>,
    ignore: Seq<Seq<char>>,
    other_ignore: Seq<Seq<char>>,
    style: PathStyle,
    known: Seq<char>,
    other_known: Seq<char>,
)
    requires
        is_listing(one, one@.len(), style),
        is_listing(other, other@.len(), style),
        forall|f: Content|
            files_in(seq![], one, one@.len(), ignore, style).contains(f) <==> files_in(
                seq![],
                other,
                other@.len(),
                other_ignore,
                style,
            ).contains(f),
        is_known_by(known, Some(one), ignore, style),
        is_known_by(other_known, Some(other), other_ignore, style),
    ensures
        known == other_known,
        files_in(seq![], one, one@.len(), ignore, style).len() == 0 ==> known == FINGERPRINT_UNAVAILABLE@,
        files_in(seq![], one, one@.len(), ignore, style).len() > 0 ==> known.len() == FINGERPRINT_HEX_CHARS
            && forall|i: int| 0 <= i < known.len() ==> is_hex(#[trigger] known[i]),
{
    let a = files_in(seq![], one, one@.len(), ignore, style);
    let b = files_in(seq![], other, other@.len(), other_ignore, style);
    lemma_no_path_twice(seq![], one, one@.len(), ignore, style);
    lemma_no_path_twice(seq![], other, other@.len(), other_ignore, style);
    if a.len() > 0 {
        assert(a.contains(a[0]));
        assert(b.contains(a[0]));
        the_listing_order_does_not_count(a, b, known, other_known);
        let p = choose|p: Seq<usize>| #[trigger]
            is_order(relatives(a), p) && known == fingerprint_text(build_message(picked(a, p)));
        let message = build_message(picked(a, p));
        hex_is_hexadecimal(crate::digest::sha256(message).take(crate::digest::FINGERPRINT_BYTES as int));
    } else if b.len() > 0 {
        assert(b.contains(b[0]));
        assert(a.contains(b[0]));
    }
}

/// Whether a file is one that a file system can hold: no zero character in its
/// path, and a length that can be counted.
pub open spec fn is_plain(file: Content) -> bool {
    !file.relative.contains('\0') && file.bytes.len() <= u64::MAX
}

/// The encoding of a text without zero characters has no zero bytes.
pub proof fn lemma_no_zero_bytes(s: Seq<char>)
    requires
        !s.contains('\0'),
    ensures
        forall|i: int|
            0 <= i < vstd::utf8::encode_utf8(s).len() ==> #[trigger] vstd::utf8::encode_utf8(s)[i] != 0,
    decreases s.len(),
{
    if s.len() > 0 {
        let rest = s.drop_first();
        assert(!rest.contains('\0')) by {
            if rest.contains('\0') {
                let k = choose|k: int| 0 <= k < rest.len() && rest[k] == '\0';
                assert(s[k + 1] == '\0');
            }
        }
        lemma_no_zero_bytes(rest);
        let c = s[0] as u32;
        assert(s[0] != '\0') by {
            if s[0] == '\0' {
                assert(s.contains(s[0]));
            }
        }
        assert(c != 0) by {
            vstd::utf8::char_u32_cast(s[0], c);
        }
        let head = vstd::utf8::encode_scalar(c);
        assert(1 <= c <= 0x7F ==> (c & 0x7F) as u8 != 0) by (bit_vector);
        assert((0xC0u8 | ((c >> 6) & 0x1F) as u8) != 0) by (bit_vector);
        assert((0xE0u8 | ((c >> 12) & 0x0F) as u8) != 0) by (bit_vector);
        assert((0xF0u8 | ((c >> 18) & 0x07) as u8) != 0) by (bit_vector);
        assert((0x80u8 | (c & 0x3F) as u8) != 0) by (bit_vector);
        assert((0x80u8 | ((c >> 6) & 0x3F) as u8) != 0) by (bit_vector);
        assert((0x80u8 | ((c >> 12) & 0x3F) as u8) != 0) by (bit_vector);
        assert forall|i: int| 0 <= i < head.len() implies #[trigger] head[i] != 0 by {}
        let all = vstd::utf8::encode_utf8(s);
        assert(all == head + vstd::utf8::encode_utf8(rest));
        assert forall|i: int| 0 <= i < all.len() implies #[trigger] all[i] != 0 by {
            if i < head.len() {
                assert(all[i] == head[i]);
            } else {
                assert(all[i] == vstd::utf8::encode_utf8(rest)[i - head.len()]);
            }
        }
    }
}

proof fn lemma_message_front(files: Seq<Content>)
    requires
        files.len() > 0,
    ensures
        build_message(files) == file_message(files[0]) + build_message(files.drop_first()),
    decreases files.len(),
{
    let rest = files.drop_first();
    if files.len() == 1 {
        assert(files.drop_last() =~= seq![]);
        assert(rest =~= seq![]);
        assert(build_message(files) =~= file_message(files[0]) + build_message(rest));
    } else {
        let front = files.drop_last();
        lemma_message_front(front);
        assert(front.drop_first() =~= rest.drop_last());
        assert(rest.last() == files.last());
        assert(build_message(files) =~= file_message(files[0]) + build_message(rest));
    }
}

/// The first file of a message and what follows it can be told from the
/// message.
proof fn lemma_first_file(a: Content, b: Content, ra: Seq<u8>, rb: Seq<u8>)
    requires
        is_plain(a),
        is_plain(b),
        file_message(a) + ra == file_message(b) + rb,
    ensures
        a == b,
        ra == rb,
{
    let m = file_message(a) + ra;
    let n = file_message(b) + rb;
    let ua = vstd::utf8::encode_utf8(a.relative);
    let ub = vstd::utf8::encode_utf8(b.relative);
    lemma_no_zero_bytes(a.relative);
    lemma_no_zero_bytes(b.relative);
    lemma_auto_spec_u64_to_from_le_bytes();
    let la = spec_u64_to_le_bytes(a.bytes.len() as u64);
    let lb = spec_u64_to_le_bytes(b.bytes.len() as u64);
    assert(m[ua.len() as int] == 0);
    assert(n[ub.len() as int] == 0);
    assert forall|i: int| 0 <= i < ua.len() implies m[i] == ua[i] by {}
    assert forall|i: int| 0 <= i < ub.len() implies n[i] == ub[i] by {}
    if ua.len() < ub.len() {
        assert(n[ua.len() as int] == ub[ua.len() as int]);
    }
    if ub.len() < ua.len() {
        assert(m[ub.len() as int] == ua[ub.len() as int]);
    }
    let u = ua.len() as int;
    assert(ua =~= ub) by {
        assert forall|i: int| 0 <= i < u implies ua[i] == ub[i] by {
            assert(m[i] == n[i]);
        }
    }
    vstd::utf8::encode_utf8_decode_utf8(a.relative);
    vstd::utf8::encode_utf8_decode_utf8(b.relative);
    assert(a.relative == b.relative);
    assert(la =~= m.subrange(u + 1, u + 9));
    assert(lb =~= n.subrange(u + 1, u + 9));
    assert(a.bytes.len() as u64 == b.bytes.len() as u64);
    let k = a.bytes.len() as int;
    assert(b.bytes.len() == k);
    assert(a.bytes =~= m.subrange(u + 9, u + 9 + k));
    assert(b.bytes =~= n.subrange(u + 9, u + 9 + k));
    assert(ra =~= m.skip(u + 9 + k));
    assert(rb =~= n.skip(u + 9 + k));
}

/// The message that is digested tells builds apart: only the same files, with
/// the same bytes in each, make the same message, so nothing can be moved
/// between two files without a trace.
pub proof fn a_message_is_of_one_build(one: Seq<Content>, other: Seq<Content>)
    requires
        forall|i: int| 0 <= i < one.len() ==> is_plain(#[trigger] one[i]),
        forall|i: int| 0 <= i < other.len() ==> is_plain(#[trigger] other[i]),
        build_message(one) == build_message(other),
    ensures
        one == other,
    decreases one.len(),
{
    lemma_auto_spec_u64_to_from_le_bytes();
    if one.len() > 0 {
        lemma_message_front(one);
    }
    if other.len() > 0 {
        lemma_message_front(other);
    }
    if one.len() == 0 || other.len() == 0 {
        assert(one =~= other);
    } else {
        assert(is_plain(one[0]) && is_plain(other[0]));
        let r1 = one.drop_first();
        let r2 = other.drop_first();
        lemma_first_file(one[0], other[0], build_message(r1), build_message(r2));
        assert forall|i: int| 0 <= i < r1.len() implies is_plain(#[trigger] r1[i]) by {
            assert(r1[i] == one[i + 1]);
        }
        assert forall|i: int| 0 <= i < r2.len() implies is_plain(#[trigger] r2[i]) by {
            assert(r2[i] == other[i + 1]);
        }
        a_message_is_of_one_build(r1, r2);
        assert(one =~= seq![one[0]] + r1);
        assert(other =~= seq![other[0]] + r2);
    }
}

} // verus!
