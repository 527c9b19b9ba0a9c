//! What holds of the names of files: where the extension begins, what is left
//! without it, and which extension a file is routed by.

use vstd::prelude::*;
use vstd::string::*;

use crate::manifest::{DiscoveredPlugins, lookup, lowercase, routed_extension};
use crate::path::{
    PathStyle, ancestors, dotted, extension, file_name, file_stem, last_dot, name_start, parent,
    parent_is_shorter, trimmed_path, with_extension,
};

verus! {

proof fn lemma_last_dot(stem: Seq<char>, ext: Seq<char>)
    requires
        !ext.contains('.'),
    ensures
        last_dot(stem + seq!['.'] + ext) == stem.len(),
    decreases ext.len(),
{
    let name = stem + seq!['.'] + ext;
    if ext.len() == 0 {
        assert(name.last() == '.');
    } else {
        assert(name.last() == ext[ext.len() - 1]);
        assert(ext.contains(ext[ext.len() - 1]));
        assert(name.drop_last() =~= stem + seq!['.'] + ext.drop_last());
        assert(!ext.drop_last().contains('.')) by {
            if ext.drop_last().contains('.') {
                let k = choose|k: int| 0 <= k < ext.drop_last().len() && ext.drop_last()[k] == '.';
                assert(ext[k] == '.');
            }
        }
        lemma_last_dot(stem, ext.drop_last());
    }
}

proof fn lemma_no_dot(name: Seq<char>)
    requires
        !name.contains('.'),
    ensures
        last_dot(name) == name.len(),
    decreases name.len(),
{
    if name.len() > 0 {
        assert(name.contains(name[name.len() - 1]));
        assert(!name.drop_last().contains('.')) by {
            if name.drop_last().contains('.') {
                let k = choose|k: int| 0 <= k < name.drop_last().len() && name.drop_last()[k] == '.';
                assert(name[k] == '.');
            }
        }
        lemma_no_dot(name.drop_last());
    }
}

/// The extension of a file is what follows the last dot of its name, and the
/// stem is what precedes that dot; the file is routed by the extension in lower
/// case, with its dot. Another extension takes the place of the first, and
/// leaves everything before it as it is.
pub proof fn the_extension_follows_the_last_dot(
    path: Seq<char>,
    stem: Seq<char>,
    ext: Seq<char>,
    other: Seq<char>,
    style: PathStyle,
)
    requires
        file_name(path, style) == Some(stem + seq!['.'] + ext),
        stem.len() > 0,
        !ext.contains('.'),
    ensures
        extension(path, style) == Some(ext),
        file_stem(path, style) == Some(stem),
        routed_extension(path, style) == Some(seq!['.'] + lowercase(ext)),
        trimmed_path(path, style) == path && other.len() > 0 ==> with_extension(path, other, style)
            == path.take(path.len() - ext.len()) + other,
{
    let name = stem + seq!['.'] + ext;
    lemma_last_dot(stem, ext);
    assert(name.skip(stem.len() as int + 1) =~= ext);
    assert(name.take(stem.len() as int) =~= stem);
    if trimmed_path(path, style) == path && other.len() > 0 {
        let k = name_start(path, style) as int;
        assert(path.skip(k) == name);
        crate::path::lemma_last_start_bound(
            path,
            crate::path::anchor(path, style),
            crate::path::separation(path, style),
        );
        reveal_strlit(".");
        assert("."@ =~= seq!['.']);
        assert(path =~= path.take(k) + name);
        assert(path.take(k) + stem + "."@ + other =~= path.take(path.len() - ext.len()) + other);
    }
}

/// A name without a dot, or with none but the one it begins with, has no
/// extension: all of it is its stem, and nobody can claim it.
pub proof fn a_name_without_a_dot_has_no_extension(path: Seq<char>, name: Seq<char>, style: PathStyle)
    requires
        file_name(path, style) == Some(name),
        !name.contains('.') || (name[0] == '.' && !name.drop_first().contains('.')),
    ensures
        extension(path, style) is None,
        file_stem(path, style) == Some(name),
        routed_extension(path, style) is None,
        forall|d: DiscoveredPlugins| d.style == style ==> #[trigger] d.claimant(path) is None,
{
    if !name.contains('.') {
        lemma_no_dot(name);
    } else {
        let rest = name.drop_first();
        lemma_last_dot(seq![], rest);
        assert(Seq::<char>::empty() + seq!['.'] + rest =~= name);
    }
    assert(!dotted(name));
}

/// A file with an extension is claimed by whoever its extension is routed to.
pub proof fn a_file_is_claimed_by_its_extension(
    d: DiscoveredPlugins,
    path: Seq<char>,
    stem: Seq<char>,
    ext: Seq<char>,
)
    requires
        file_name(path, d.style) == Some(stem + seq!['.'] + ext),
        stem.len() > 0,
        !ext.contains('.'),
    ensures
        d.claimant(path) == lookup(d.routing@, seq!['.'] + lowercase(ext)),
{
    the_extension_follows_the_last_dot(path, stem, ext, seq!['x'], d.style);
}

/// The directories above a path are the path itself, its parent, its parent's
/// parent and so on, up to one that has none.
pub proof fn the_directories_above_are_parents_of_parents(p: Seq<char>, style: PathStyle)
    ensures
        ancestors(p, style).len() > 0,
        ancestors(p, style)[0] == p,
        parent(ancestors(p, style).last(), style) is None,
        forall|i: int|
            0 < i < ancestors(p, style).len() ==> parent(ancestors(p, style)[i - 1], style) == Some(
                #[trigger] ancestors(p, style)[i],
            ),
    decreases p.len(),
{
    let all = ancestors(p, style);
    match parent(p, style) {
        Some(dir) => {
            parent_is_shorter(p, style);
            the_directories_above_are_parents_of_parents(dir, style);
            let rest = ancestors(dir, style);
            assert(all == seq![p] + rest);
            assert(all.last() == rest.last());
            assert forall|i: int| 0 < i < all.len() implies parent(all[i - 1], style) == Some(
                #[trigger] all[i],
            ) by {
                assert(all[i] == rest[i - 1]);
                if i > 1 {
                    assert(all[i - 1] == rest[i - 2]);
                }
            }
        },
        None => {
            assert(all == seq![p]);
        },
    }
}

} // verus!
