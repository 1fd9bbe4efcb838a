//! Laws of the file lifecycle, stated over the managers' transition
//! predicates and proved once and for all.

use vstd::prelude::*;

use crate::lifecycle::FileLifecycleManager;
use crate::lifecycle::obj_path;
use crate::paths::lemma_join_injective;
use crate::paths::spec_filename_of;
use crate::paths::spec_join;

verus! {

/// Round-trip: a successful upload stores exactly the request body under
/// its new path, so an immediate read of that path yields the same bytes.
pub proof fn lemma_upload_round_trip(
    pre: FileLifecycleManager,
    post: FileLifecycleManager,
    key: Seq<char>,
    uri: Seq<char>,
    token: Seq<char>,
    body: Seq<u8>,
    url: Seq<char>,
)
    requires
        FileLifecycleManager::spec_upload_ok(pre, post, key, uri, token, body, url),
    ensures
        post.spec_resolves_to(spec_join(token, spec_filename_of(uri)), body),
{
    let n = post.objects.objects@.len() - 1;
    assert(obj_path(post.objects.objects@[n]) == spec_join(token, spec_filename_of(uri)));
}

/// Isolation: two successful uploads land in distinct namespaces, so even
/// identical requested filenames produce distinct paths, and the second
/// upload does not disturb what the first one stored.
pub proof fn lemma_upload_isolation(
    s0: FileLifecycleManager,
    s1: FileLifecycleManager,
    s2: FileLifecycleManager,
    key1: Seq<char>,
    key2: Seq<char>,
    uri1: Seq<char>,
    uri2: Seq<char>,
    token1: Seq<char>,
    token2: Seq<char>,
    body1: Seq<u8>,
    body2: Seq<u8>,
    url1: Seq<char>,
    url2: Seq<char>,
)
    requires
        FileLifecycleManager::spec_upload_ok(s0, s1, key1, uri1, token1, body1, url1),
        FileLifecycleManager::spec_upload_ok(s1, s2, key2, uri2, token2, body2, url2),
    ensures
        token2 != token1,
        spec_join(token1, spec_filename_of(uri1)) != spec_join(token2, spec_filename_of(uri2)),
        s2.spec_resolves_to(spec_join(token1, spec_filename_of(uri1)), body1),
        s2.spec_resolves_to(spec_join(token2, spec_filename_of(uri2)), body2),
{
    let n1 = s1.objects.objects@.len() - 1;
    let n2 = s2.objects.objects@.len() - 1;
    assert(s1.objects.objects@[n1].namespace@ == token1);
    assert(s1.objects.spec_ns_exists(token1));
    assert(token2 != token1);
    if spec_join(token1, spec_filename_of(uri1)) == spec_join(token2, spec_filename_of(uri2)) {
        lemma_join_injective(
            token1,
            spec_filename_of(uri1),
            token2,
            spec_filename_of(uri2),
        );
        assert(false);
    }
    assert(s2.objects.objects@[n1] == s1.objects.objects@[n1]) by {
        assert(s2.objects.objects@.drop_last()[n1] == s2.objects.objects@[n1]);
    }
    assert(obj_path(s2.objects.objects@[n1]) == spec_join(token1, spec_filename_of(uri1)));
    assert(obj_path(s2.objects.objects@[n2]) == spec_join(token2, spec_filename_of(uri2)));
}

/// Rename addressing: after a successful move to a genuinely new name, the
/// old path no longer resolves, the new path resolves to the original
/// bytes, the old public URL has been purged, and the new URL — never
/// cached, never purged before — is still unpurged.
pub proof fn lemma_move_addressing(
    pre: FileLifecycleManager,
    post: FileLifecycleManager,
    path: Seq<char>,
    new_name: Seq<char>,
    url: Seq<char>,
    j: int,
    i: int,
)
    requires
        FileLifecycleManager::spec_move_shift(pre, post, path, new_name, url, j, i),
        spec_join(pre.objects.objects@[i].namespace@, new_name) != path,
        post.purged_urls() == pre.purged_urls().push(spec_join(pre.config.base_url@, path)),
        !pre.purged_urls().contains(url),
        url != spec_join(pre.config.base_url@, path),
    ensures
        !post.spec_resolvable(path),
        post.spec_resolves_to(
            spec_join(pre.objects.objects@[i].namespace@, new_name),
            pre.objects.objects@[i].content@,
        ),
        post.purged_urls().contains(spec_join(pre.config.base_url@, path)),
        !post.purged_urls().contains(url),
{
    let old_url = spec_join(pre.config.base_url@, path);
    assert(post.purged_urls()[post.purged_urls().len() - 1] == old_url);
    assert(post.purged_urls().contains(old_url));
    assert(obj_path(post.objects.objects@[i]) == spec_join(
        pre.objects.objects@[i].namespace@,
        new_name,
    ));
    if post.purged_urls().contains(url) {
        let t = choose|t: int| 0 <= t < post.purged_urls().len() && post.purged_urls()[t] == url;
        if t < pre.purged_urls().len() {
            assert(pre.purged_urls()[t] == url);
            assert(pre.purged_urls().contains(url));
            assert(false);
        } else {
            assert(post.purged_urls()[t] == old_url);
            assert(false);
        }
    }
}

/// Authorization agreement: the ownership gate is exactly the metadata
/// join, so a key that is not registered, and a registered key that does
/// not own the target, are both rejected; a key owning the target is not.
pub proof fn lemma_unknown_key_owns_nothing(
    m: FileLifecycleManager,
    key: Seq<char>,
    path: Seq<char>,
)
    requires
        !m.metadata.spec_key_exists(key),
    ensures
        !m.metadata.spec_owns(key, path),
{
    if m.metadata.spec_owns(key, path) {
        let (i, j) = choose|i: int, j: int|
            0 <= i < m.metadata.users@.len() && 0 <= j < m.metadata.uploads@.len()
                && m.metadata.users@[i].key@ == key && m.metadata.uploads@[j].file_path@ == path
                && m.metadata.uploads@[j].uploader == m.metadata.users@[i].id;
        assert(0 <= i < m.metadata.users@.len() && m.metadata.users@[i].key@ == key);
        assert(false);
    }
}

/// Consistency: a well-formed manager never lets the stores diverge — a
/// path has a metadata row exactly when an object resolves under it.
pub proof fn lemma_stores_agree(m: FileLifecycleManager, path: Seq<char>)
    requires
        m.wf(),
    ensures
        m.metadata.spec_path_exists(path) <==> m.spec_resolvable(path),
{
    if m.metadata.spec_path_exists(path) {
        let j = choose|j: int|
            0 <= j < m.metadata.uploads@.len() && m.metadata.uploads@[j].file_path@ == path;
        assert(m.spec_resolvable(m.metadata.uploads@[j].file_path@));
    }
    if m.spec_resolvable(path) {
        let i = choose|i: int|
            0 <= i < m.objects.objects@.len() && obj_path(#[trigger] m.objects.objects@[i])
                == path;
        assert(m.metadata.spec_path_exists(obj_path(m.objects.objects@[i])));
    }
}

} // verus!
