//! Which generation an index is of: the core's own pipeline and the build of
//! every plugin that was found. An index is only as current as the least
//! current of the builds that filled it.

use vstd::prelude::*;
use vstd::string::*;

use crate::digest::{fingerprint_of, fingerprint_text, FINGERPRINT_HEX_CHARS};
use crate::fingerprint::{fingerprint, is_known_by, lemma_no_zero_bytes, BuildEntry};
use crate::manifest::{DiscoveredPlugins, PluginManifest};
use crate::order::{arrangement_is_unique, is_order, keys_of, order_of, picked};
use crate::path::PathStyle;
use crate::text::views;

verus! {

/// A language with what its plugin's build is known by.
pub struct Known {
    pub language: Seq<char>,
    pub build: Seq<char>,
}

/// What one plugin adds to the message that is digested, with zero bytes
/// between, so that nothing can be moved from the one to the other.
pub open spec fn known_message(k: Known) -> Seq<u8> {
    vstd::utf8::encode_utf8(k.language) + seq![0u8] + vstd::utf8::encode_utf8(k.build) + seq![0u8]
}

/// The message that is digested for all plugins, in this order.
pub open spec fn plugins_message(ks: Seq<Known>) -> Seq<u8>
    decreases ks.len(),
{
    if ks.len() == 0 {
        seq![]
    } else {
        plugins_message(ks.drop_last()) + known_message(ks.last())
    }
}

/// The languages of a list, in order.
pub open spec fn known_languages(ks: Seq<Known>) -> Seq<Seq<char>> {
    Seq::new(ks.len(), |i: int| ks[i].language)
}

/// Whether `digest` is that of all plugins, in the order of their languages.
pub open spec fn is_plugins_digest(digest: Seq<char>, ks: Seq<Known>) -> bool {
    exists|p: Seq<usize>| #[trigger]
        is_order(known_languages(ks), p) && digest == fingerprint_text(plugins_message(picked(ks, p)))
}

/// What the pairs of a list say: a language, and what its build is known by.
pub open spec fn knowns(pairs: Seq<(String, String)>) -> Seq<Known> {
    Seq::new(pairs.len(), |i: int| Known { language: pairs[i].0@, build: pairs[i].1@ })
}

fn push_text(out: &mut Vec<u8>, text: &str)
    ensures
        final(out)@ == old(out)@ + text.spec_bytes() + seq![0u8],
{
    let bytes = text.as_bytes();
    let ghost before = out@;
    let mut i: usize = 0;
    while i < bytes.len()
        invariant
            i <= bytes@.len(),
            out@ == before + bytes@.take(i as int),
        decreases bytes@.len() - i,
    {
        out.push(bytes[i]);
        proof {
            assert(bytes@.take(i + 1) =~= bytes@.take(i as int).push(bytes@[i as int]));
            assert(out@ =~= before + bytes@.take(i + 1));
        }
        i += 1;
    }
    out.push(0);
    proof {
        assert(bytes@.take(i as int) =~= bytes@);
        assert(out@ =~= before + bytes@ + seq![0u8]);
    }
}

/// One digest of every plugin's language and build.
pub fn plugins_digest(fingerprinted: &Vec<(String, String)>) -> (r: String)
    ensures
        is_plugins_digest(r@, knowns(fingerprinted@)),
        r@.len() == FINGERPRINT_HEX_CHARS,
{
    let ghost ks = knowns(fingerprinted@);
    let mut keys: Vec<String> = Vec::new();
    let mut i: usize = 0;
    while i < fingerprinted.len()
        invariant
            i <= fingerprinted.len(),
            keys@.len() == i,
            forall|j: int| 0 <= j < i ==> (#[trigger] keys@[j])@ == fingerprinted@[j].0@,
        decreases fingerprinted.len() - i,
    {
        keys.push(fingerprinted[i].0.clone());
        i += 1;
    }
    let order = order_of(&keys);
    proof {
        assert(views(keys@) =~= known_languages(ks));
    }
    let ghost sorted = picked(ks, order@);
    let mut message: Vec<u8> = Vec::new();
    let mut k: usize = 0;
    proof {
        assert(sorted.take(0) =~= seq![]);
        assert(message@ =~= plugins_message(seq![]));
    }
    while k < order.len()
        invariant
            k <= order.len(),
            ks == knowns(fingerprinted@),
            is_order(known_languages(ks), order@),
            sorted == picked(ks, order@),
            message@ == plugins_message(sorted.take(k as int)),
        decreases order.len() - k,
    {
        let pair = &fingerprinted[order[k]];
        let ghost before = message@;
        push_text(&mut message, pair.0.as_str());
        push_text(&mut message, pair.1.as_str());
        proof {
            let one = sorted[k as int];
            assert(one == (Known { language: pair.0@, build: pair.1@ }));
            assert(sorted.take(k + 1).drop_last() =~= sorted.take(k as int));
            assert(sorted.take(k + 1).last() == one);
            assert(message@ =~= before + known_message(one));
        }
        k += 1;
    }
    proof {
        assert(sorted.take(k as int) =~= sorted);
    }
    fingerprint_of(message.as_slice())
}

/// Whether each plugin's build is known by what `ks` says.
pub open spec fn knows_builds(
    ks: Seq<Known>,
    manifests: Seq<PluginManifest>,
    builds: Seq<Option<Vec<BuildEntry>>>,
    style: PathStyle,
) -> bool {
    &&& ks.len() == manifests.len()
    &&& forall|i: int|
        0 <= i < manifests.len() ==> (#[trigger] ks[i]).language == manifests[i].language@ && is_known_by(
            ks[i].build,
            builds[i],
            views(manifests[i].fingerprint_ignore@),
            style,
        )
}

/// The generation an index is stamped with: `core` is the core's own, and
/// `builds` holds, for each plugin that was found, what its directory holds,
/// if it could be read.
pub fn indexer_version(
    core: &str,
    discovered: &DiscoveredPlugins,
    builds: &Vec<Option<Vec<BuildEntry>>>,
    style: PathStyle,
) -> (r: String)
    requires
        builds@.len() == discovered.manifests@.len(),
    ensures
        exists|ks: Seq<Known>, digest: Seq<char>|
            knows_builds(ks, discovered.manifests@, builds@, style) && #[trigger] is_plugins_digest(digest, ks)
                && digest.len() == FINGERPRINT_HEX_CHARS && r@ == core@ + "+"@ + digest,
{
    let mut pairs: Vec<(String, String)> = Vec::new();
    let mut i: usize = 0;
    let ghost ms = discovered.manifests@;
    while i < discovered.manifests.len()
        invariant
            i <= discovered.manifests.len(),
            ms == discovered.manifests@,
            builds@.len() == ms.len(),
            pairs@.len() == i,
            forall|j: int|
                0 <= j < i ==> (#[trigger] pairs@[j]).0@ == ms[j].language@ && is_known_by(
                    pairs@[j].1@,
                    builds@[j],
                    views(ms[j].fingerprint_ignore@),
                    style,
                ),
        decreases discovered.manifests.len() - i,
    {
        let manifest = &discovered.manifests[i];
        let known = match &builds[i] {
            Some(dir) => fingerprint(Some(dir), &manifest.fingerprint_ignore, style),
            None => fingerprint(None, &manifest.fingerprint_ignore, style),
        };
        pairs.push((manifest.language.clone(), known));
        i += 1;
    }
    let digest = plugins_digest(&pairs);
    let mut r: String = core.to_owned();
    r.append("+");
    r.append(digest.as_str());
    proof {
        let ks = knowns(pairs@);
        assert forall|j: int| 0 <= j < ms.len() implies (#[trigger] ks[j]).language == ms[j].language@
            && is_known_by(ks[j].build, builds@[j], views(ms[j].fingerprint_ignore@), style) by {
            assert(pairs@[j].0@ == ms[j].language@);
        }
        assert(knows_builds(ks, ms, builds@, style));
        assert(is_plugins_digest(digest@, ks));
    }
    r
}

// ---------------------------------------------------------------------------
// Laws
// ---------------------------------------------------------------------------
/// The generation does not depend on the order the plugins were found in: the
/// same plugins, with the same builds, have the same digest.
pub proof fn the_order_of_discovery_does_not_count(
    one: Seq<Known>,
    other: Seq<Known>,
    digest: Seq<char>,
    other_digest: Seq<char>,
)
    requires
        known_languages(one).no_duplicates(),
        known_languages(other).no_duplicates(),
        forall|k: Known| one.contains(k) <==> other.contains(k),
        is_plugins_digest(digest, one),
        is_plugins_digest(other_digest, other),
    ensures
        digest == other_digest,
{
    let p = choose|p: Seq<usize>| #[trigger]
        is_order(known_languages(one), p) && digest == fingerprint_text(
            plugins_message(picked(one, p)),
        );
    let q = choose|q: Seq<usize>| #[trigger]
        is_order(known_languages(other), q) && other_digest == fingerprint_text(
            plugins_message(picked(other, q)),
        );
    let key = |k: Known| k.language;
    assert(known_languages(one) =~= keys_of(one, key));
    assert(known_languages(other) =~= keys_of(other, key));
    arrangement_is_unique(one, other, p, q, key);
}

proof fn lemma_message_front(ks: Seq<Known>)
    requires
        ks.len() > 0,
    ensures
        plugins_message(ks) == known_message(ks[0]) + plugins_message(ks.drop_first()),
    decreases ks.len(),
{
    let rest = ks.drop_first();
    if ks.len() == 1 {
        assert(ks.drop_last() =~= seq![]);
        assert(rest =~= seq![]);
        assert(plugins_message(ks) =~= known_message(ks[0]) + plugins_message(rest));
    } else {
        let front = ks.drop_last();
        lemma_message_front(front);
        assert(front.drop_first() =~= rest.drop_last());
        assert(rest.last() == ks.last());
        assert(plugins_message(ks) =~= known_message(ks[0]) + plugins_message(rest));
    }
}

/// A text that ends in a zero byte and what follows it can be told apart.
proof fn lemma_first_text(a: Seq<char>, b: Seq<char>, ra: Seq<u8>, rb: Seq<u8>)
    requires
        !a.contains('\0'),
        !b.contains('\0'),
        vstd::utf8::encode_utf8(a) + seq![0u8] + ra == vstd::utf8::encode_utf8(b) + seq![0u8] + rb,
    ensures
        a == b,
        ra == rb,
{
    let ua = vstd::utf8::encode_utf8(a);
    let ub = vstd::utf8::encode_utf8(b);
    let m = ua + seq![0u8] + ra;
    let n = ub + seq![0u8] + rb;
    lemma_no_zero_bytes(a);
    lemma_no_zero_bytes(b);
    assert(m[ua.len() as int] == 0);
    assert(n[ub.len() as int] == 0);
    if ua.len() < ub.len() {
        assert(n[ua.len() as int] == ub[ua.len() as int]);
    }
    if ub.len() < ua.len() {
        assert(m[ub.len() as int] == ua[ub.len() as int]);
    }
    assert forall|i: int| 0 <= i < ua.len() implies ua[i] == ub[i] by {
        assert(m[i] == ua[i] && n[i] == ub[i]);
    }
    assert(ua =~= ub);
    vstd::utf8::encode_utf8_decode_utf8(a);
    vstd::utf8::encode_utf8_decode_utf8(b);
    assert(ra =~= m.skip(ua.len() as int + 1));
    assert(rb =~= n.skip(ub.len() as int + 1));
}

/// The message that is digested tells sets of plugins apart: renaming one, or
/// two of them exchanging builds, makes another message.
pub proof fn a_message_is_of_one_set_of_plugins(one: Seq<Known>, other: Seq<Known>)
    requires
        forall|i: int|
            0 <= i < one.len() ==> !(#[trigger] one[i]).language.contains('\0') && !one[i].build.contains(
                '\0',
            ),
        forall|i: int|
            0 <= i < other.len() ==> !(#[trigger] other[i]).language.contains('\0')
                && !other[i].build.contains('\0'),
        plugins_message(one) == plugins_message(other),
    ensures
        one == other,
    decreases one.len(),
{
    if one.len() > 0 {
        lemma_message_front(one);
    }
    if other.len() > 0 {
        lemma_message_front(other);
    }
    if one.len() == 0 || other.len() == 0 {
        assert(one =~= other);
    } else {
        let r1 = one.drop_first();
        let r2 = other.drop_first();
        let a = one[0];
        let b = other[0];
        let ta = vstd::utf8::encode_utf8(a.build) + seq![0u8] + plugins_message(r1);
        let tb = vstd::utf8::encode_utf8(b.build) + seq![0u8] + plugins_message(r2);
        assert(plugins_message(one) =~= vstd::utf8::encode_utf8(a.language) + seq![0u8] + ta);
        assert(plugins_message(other) =~= vstd::utf8::encode_utf8(b.language) + seq![0u8] + tb);
        lemma_first_text(a.language, b.language, ta, tb);
        lemma_first_text(a.build, b.build, plugins_message(r1), plugins_message(r2));
        assert forall|i: int| 0 <= i < r1.len() implies !(#[trigger] r1[i]).language.contains('\0')
            && !r1[i].build.contains('\0') by {
            assert(r1[i] == one[i + 1]);
        }
        assert forall|i: int| 0 <= i < r2.len() implies !(#[trigger] r2[i]).language.contains('\0')
            && !r2[i].build.contains('\0') by {
            assert(r2[i] == other[i + 1]);
        }
        a_message_is_of_one_set_of_plugins(r1, r2);
        assert(one =~= seq![a] + r1);
        assert(other =~= seq![b] + r2);
    }
}

} // verus!
