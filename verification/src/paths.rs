//! Path handling: extracting the final path component from a request URI,
//! composing and splitting `<namespace>/<filename>` object paths, and the
//! validity rules for path components.

use vstd::prelude::*;

verus! {

/// Drops every trailing `/` from a sequence of characters.
pub open spec fn trim_trailing_slashes(s: Seq<char>) -> Seq<char>
    decreases s.len(),
{
    if s.len() > 0 && s.last() == '/' {
        trim_trailing_slashes(s.drop_last())
    } else {
        s
    }
}

/// The characters after the last `/`, or the whole sequence if it has none.
pub open spec fn tail_component(s: Seq<char>) -> Seq<char>
    decreases s.len(),
{
    if s.len() == 0 {
        Seq::empty()
    } else if s.last() == '/' {
        Seq::empty()
    } else {
        tail_component(s.drop_last()).push(s.last())
    }
}

/// The final path component of a request URI: trailing separators are
/// ignored, and everything up to and including the last remaining
/// separator is stripped.
pub open spec fn spec_filename_of(uri: Seq<char>) -> Seq<char> {
    tail_component(trim_trailing_slashes(uri))
}

/// A usable path component: non-empty, free of separators, and not one of
/// the traversal components `.` and `..`.
pub open spec fn is_valid_component(s: Seq<char>) -> bool {
    &&& s.len() > 0
    &&& s != seq!['.']
    &&& s != seq!['.', '.']
    &&& forall|i: int| 0 <= i < s.len() ==> s[i] != '/'
}

/// `<left>/<right>`: the object path of filename `right` in namespace `left`,
/// and likewise the public URL of path `right` under base URL `left`.
pub open spec fn spec_join(a: Seq<char>, b: Seq<char>) -> Seq<char> {
    a.push('/') + b
}

/// When every character from `end` on is a separator and the character just
/// before `end` is not, trimming stops exactly at `end`.
proof fn lemma_trim_range(s: Seq<char>, end: int)
    requires
        0 <= end <= s.len(),
        forall|k: int| end <= k < s.len() ==> s[k] == '/',
        end > 0 ==> s[end - 1] != '/',
    ensures
        trim_trailing_slashes(s) == s.subrange(0, end),
    decreases s.len(),
{
    if end == s.len() {
        assert(s.subrange(0, end) =~= s);
    } else {
        assert(s.last() == '/');
        lemma_trim_range(s.drop_last(), end);
        assert(s.drop_last().subrange(0, end) =~= s.subrange(0, end));
    }
}

/// When no character from `start` on is a separator and the character just
/// before `start` is one, the tail component starts exactly at `start`.
proof fn lemma_tail_range(s: Seq<char>, start: int)
    requires
        0 <= start <= s.len(),
        forall|k: int| start <= k < s.len() ==> s[k] != '/',
        start > 0 ==> s[start - 1] == '/',
    ensures
        tail_component(s) == s.subrange(start, s.len() as int),
    decreases s.len(),
{
    if start == s.len() {
        assert(tail_component(s) =~= s.subrange(start, s.len() as int));
    } else {
        assert(s.last() != '/');
        lemma_tail_range(s.drop_last(), start);
        assert(s.drop_last().subrange(start, s.len() - 1) =~= s.subrange(
            start,
            s.len() - 1,
        ));
        assert(tail_component(s.drop_last()).push(s.last()) =~= s.subrange(
            start,
            s.len() as int,
        ));
    }
}

/// Joining is injective while the left part is free of separators: the
/// first separator of the joined path marks the boundary.
pub proof fn lemma_join_injective(a: Seq<char>, b: Seq<char>, c: Seq<char>, d: Seq<char>)
    requires
        spec_join(a, b) == spec_join(c, d),
        forall|i: int| 0 <= i < a.len() ==> a[i] != '/',
        forall|i: int| 0 <= i < c.len() ==> c[i] != '/',
    ensures
        a == c,
        b == d,
{
    let j = spec_join(a, b);
    assert(j[a.len() as int] == '/');
    assert(j[c.len() as int] == '/');
    if a.len() < c.len() {
        assert(j[a.len() as int] == c[a.len() as int]);
        assert(false);
    }
    if c.len() < a.len() {
        assert(j[c.len() as int] == a[c.len() as int]);
        assert(false);
    }
    assert(a =~= c) by {
        assert(forall|i: int| 0 <= i < a.len() ==> a[i] == j[i] && c[i] == j[i]);
    }
    assert(spec_join(a, b).len() == a.len() + 1 + b.len());
    assert(spec_join(c, d).len() == c.len() + 1 + d.len());
    assert(b =~= d) by {
        assert forall|i: int| 0 <= i < b.len() implies b[i] == d[i] by {
            assert(spec_join(a, b)[i + a.len() + 1] == b[i]);
            assert(spec_join(c, d)[i + c.len() + 1] == d[i]);
        }
    }
}

/// Derives the filename from a request URI: the final path component, or
/// `None` when that component is empty or a traversal component (`.`,
/// `..`), so that traversal-only input such as `/` or `..` is rejected.
pub fn parse_filename_from_uri(uri: &str) -> (r: Option<String>)
    ensures
        match r {
            Some(name) => name@ == spec_filename_of(uri@) && is_valid_component(name@),
            None => !is_valid_component(spec_filename_of(uri@)),
        },
{
    let n = uri.unicode_len();
    let mut end = n;
    while end > 0 && uri.get_char(end - 1) == '/'
        invariant
            0 <= end <= n,
            n == uri@.len(),
            forall|k: int| end <= k < n ==> uri@[k] == '/',
        decreases end,
    {
        end = end - 1;
    }
    proof {
        lemma_trim_range(uri@, end as int);
    }
    let ghost trimmed = uri@.subrange(0, end as int);
    let mut start = end;
    while start > 0 && uri.get_char(start - 1) != '/'
        invariant
            0 <= start <= end <= n,
            n == uri@.len(),
            forall|k: int| start <= k < end ==> uri@[k] != '/',
        decreases start,
    {
        start = start - 1;
    }
    proof {
        lemma_tail_range(trimmed, start as int);
        assert(trimmed.subrange(start as int, end as int) =~= uri@.subrange(
            start as int,
            end as int,
        ));
    }
    let ghost name_spec = spec_filename_of(uri@);
    assert(name_spec == uri@.subrange(start as int, end as int));
    if end == start {
        assert(name_spec.len() == 0);
        return None;
    }
    if end - start == 1 && uri.get_char(start) == '.' {
        assert(name_spec =~= seq!['.']);
        return None;
    }
    if end - start == 2 && uri.get_char(start) == '.' && uri.get_char(start + 1) == '.' {
        assert(name_spec =~= seq!['.', '.']);
        return None;
    }
    let name = uri.substring_char(start, end);
    proof {
        if name_spec.len() == 1 {
            assert(name_spec != seq!['.']) by {
                assert(name_spec[0] == uri@[start as int]);
            }
        }
        if name_spec.len() == 2 {
            assert(name_spec != seq!['.', '.']) by {
                assert(name_spec[0] == uri@[start as int]);
                assert(name_spec[1] == uri@[start as int + 1]);
            }
        }
    }
    Some(name.to_owned())
}

/// Composes `<a>/<b>` as an owned string.
pub fn join_path(a: &str, b: &str) -> (r: String)
    ensures
        r@ == spec_join(a@, b@),
{
    proof {
        reveal_strlit("/");
    }
    let mut s = a.to_owned();
    s.append("/");
    s.append(b);
    proof {
        assert(s@ =~= spec_join(a@, b@));
    }
    s
}

/// Splits an object path at its first separator into the namespace and the
/// filename. Returns `None` when the path has no separator at all.
pub fn split_path(path: &str) -> (r: Option<(String, String)>)
    ensures
        match r {
            Some(parts) => {
                &&& path@ == spec_join(parts.0@, parts.1@)
                &&& forall|i: int| 0 <= i < parts.0@.len() ==> parts.0@[i] != '/'
            },
            None => forall|i: int| 0 <= i < path@.len() ==> path@[i] != '/',
        },
{
    let n = path.unicode_len();
    let mut i: usize = 0;
    while i < n && path.get_char(i) != '/'
        invariant
            0 <= i <= n,
            n == path@.len(),
            forall|k: int| 0 <= k < i ==> path@[k] != '/',
        decreases n - i,
    {
        i = i + 1;
    }
    if i == n {
        return None;
    }
    let ns = path.substring_char(0, i);
    let name = path.substring_char(i + 1, n);
    proof {
        assert(path@ =~= spec_join(ns@, name@));
    }
    Some((ns.to_owned(), name.to_owned()))
}

/// Checks that a string is a usable path component.
pub fn check_component(s: &str) -> (b: bool)
    ensures
        b == is_valid_component(s@),
{
    let n = s.unicode_len();
    if n == 0 {
        return false;
    }
    if n == 1 && s.get_char(0) == '.' {
        assert(s@ =~= seq!['.']);
        return false;
    }
    if n == 2 && s.get_char(0) == '.' && s.get_char(1) == '.' {
        assert(s@ =~= seq!['.', '.']);
        return false;
    }
    let mut i: usize = 0;
    while i < n
        invariant
            0 <= i <= n,
            n == s@.len(),
            forall|k: int| 0 <= k < i ==> s@[k] != '/',
        decreases n - i,
    {
        if s.get_char(i) == '/' {
            return false;
        }
        i = i + 1;
    }
    proof {
        if s@.len() == 1 {
            assert(s@ != seq!['.']) by {
                assert(s@[0] != '.');
            }
        }
        if s@.len() == 2 {
            assert(s@ != seq!['.', '.']) by {
                if s@ == seq!['.', '.'] {
                    assert(s@[0] == '.' && s@[1] == '.');
                }
            }
        }
    }
    true
}

} // verus!

