//! Key/path logic: a flat object key space is read as a tree whose edges are
//! `/` characters. Everything here is character-exact.

use vstd::prelude::*;
use vstd::string::StrSliceExecFns;
use vstd::string::StringExecFns;
use crate::text::spec_ends_with_char;
use crate::text::spec_starts_with;
use crate::text::ends_with_char;

verus! {

/// `s` with every trailing '/' removed.
pub open spec fn spec_trim_trailing_slashes(s: Seq<char>) -> Seq<char>
    decreases s.len(),
{
    if s.len() > 0 && s[s.len() - 1] == '/' {
        spec_trim_trailing_slashes(s.drop_last())
    } else {
        s
    }
}

/// The suffix of `s` after its last '/', or all of `s` when it holds none.
pub open spec fn spec_after_last_slash(s: Seq<char>) -> Seq<char>
    decreases s.len(),
{
    if s.len() == 0 {
        Seq::empty()
    } else if s[s.len() - 1] == '/' {
        Seq::empty()
    } else {
        spec_after_last_slash(s.drop_last()).push(s[s.len() - 1])
    }
}

/// The final path segment of `s`: what follows the last '/' once trailing
/// '/' characters are dropped. Empty when `s` is empty or all slashes.
pub open spec fn spec_basename(s: Seq<char>) -> Seq<char> {
    spec_after_last_slash(spec_trim_trailing_slashes(s))
}

proof fn lemma_trim_is_subrange(s: Seq<char>, t: int)
    requires
        0 <= t <= s.len(),
        forall|j: int| t <= j < s.len() ==> s[j] == '/',
        t == 0 || s[t - 1] != '/',
    ensures
        spec_trim_trailing_slashes(s) == s.subrange(0, t),
    decreases s.len(),
{
    if s.len() > t {
        assert(s[s.len() - 1] == '/');
        lemma_trim_is_subrange(s.drop_last(), t);
        assert(s.drop_last().subrange(0, t) =~= s.subrange(0, t));
    } else {
        assert(s.subrange(0, t) =~= s);
    }
}

proof fn lemma_after_last_slash_whole(s: Seq<char>)
    requires
        forall|j: int| 0 <= j < s.len() ==> s[j] != '/',
    ensures
        spec_after_last_slash(s) == s,
    decreases s.len(),
{
    if s.len() > 0 {
        lemma_after_last_slash_whole(s.drop_last());
        assert(spec_after_last_slash(s.drop_last()).push(s[s.len() - 1]) =~= s);
    } else {
        assert(spec_after_last_slash(s) =~= s);
    }
}

proof fn lemma_after_last_slash_split(s: Seq<char>, p: int)
    requires
        0 <= p < s.len(),
        s[p] == '/',
        forall|j: int| p < j < s.len() ==> s[j] != '/',
    ensures
        spec_after_last_slash(s) == s.subrange(p + 1, s.len() as int),
    decreases s.len(),
{
    if p == s.len() - 1 {
        assert(s.subrange(p + 1, s.len() as int) =~= Seq::<char>::empty());
    } else {
        assert(s[s.len() - 1] != '/');
        lemma_after_last_slash_split(s.drop_last(), p);
        assert(
            s.drop_last().subrange(p + 1, s.len() - 1).push(s[s.len() - 1]) =~= s.subrange(
                p + 1,
                s.len() as int,
            )
        );
    }
}

/// The final path segment of `path`, the name a client sees for the key:
/// `"a/b/c.txt"` gives `"c.txt"`, `"a/b/"` gives `"b"`. `None` when the key
/// holds no segment at all (empty, or slashes only).
pub fn get_filename_from_path(path: &str) -> (r: Option<String>)
    ensures
        match r {
            Some(name) => name@ == spec_basename(path@) && name@.len() > 0,
            None => spec_basename(path@).len() == 0,
        },
{
    let len = path.unicode_len();
    let mut t: usize = len;
    while t > 0 && path.get_char(t - 1) == '/'
        invariant
            t <= len,
            len == path@.len(),
            forall|j: int| t <= j < len ==> path@[j] == '/',
        decreases t,
    {
        t = t - 1;
    }
    proof {
        lemma_trim_is_subrange(path@, t as int);
    }
    if t == 0 {
        proof {
            assert(spec_trim_trailing_slashes(path@) =~= Seq::<char>::empty());
        }
        return None;
    }
    let ghost trimmed = spec_trim_trailing_slashes(path@);
    let mut p: usize = t;
    while p > 0 && path.get_char(p - 1) != '/'
        invariant
            p <= t,
            t <= len,
            len == path@.len(),
            forall|j: int| p <= j < t ==> path@[j] != '/',
        decreases p,
    {
        p = p - 1;
    }
    let name = path.substring_char(p, t);
    if p == 0 {
        proof {
            lemma_after_last_slash_whole(trimmed);
        }
    } else {
        proof {
            lemma_after_last_slash_split(trimmed, p as int - 1);
            assert(trimmed.subrange(p as int, t as int) =~= path@.subrange(p as int, t as int));
        }
    }
    Some(name.to_owned())
}

/// The position of the first '/' in `k` at or after `from`, or `k.len()`
/// when there is none.
pub open spec fn spec_first_slash_from(k: Seq<char>, from: int) -> int
    recommends
        0 <= from <= k.len(),
    decreases k.len() - from,
{
    if from < 0 || from >= k.len() {
        k.len() as int
    } else if k[from] == '/' {
        from
    } else {
        spec_first_slash_from(k, from + 1)
    }
}

/// What [`spec_first_slash_from`] returns: a position in `[from, k.len()]`,
/// a '/' when inside the sequence, with nothing but non-'/' before it.
pub proof fn lemma_first_slash_from_props(k: Seq<char>, from: int)
    requires
        0 <= from <= k.len(),
    ensures
        from <= spec_first_slash_from(k, from) <= k.len(),
        spec_first_slash_from(k, from) < k.len() ==> k[spec_first_slash_from(k, from)] == '/',
        forall|j: int| from <= j < spec_first_slash_from(k, from) ==> k[j] != '/',
    decreases k.len() - from,
{
    if from < k.len() && k[from] != '/' {
        lemma_first_slash_from_props(k, from + 1);
    }
}

proof fn lemma_first_slash_from_char(k: Seq<char>, from: int, r: int)
    requires
        0 <= from <= r <= k.len(),
        forall|j: int| from <= j < r ==> k[j] != '/',
        r < k.len() ==> k[r] == '/',
    ensures
        spec_first_slash_from(k, from) == r,
    decreases r - from,
{
    if from < r {
        assert(k[from] != '/');
        lemma_first_slash_from_char(k, from + 1, r);
    }
}

/// Find the first '/' in `s` at or after `from`; `s`'s length when none.
pub fn find_slash_from(s: &str, from: usize) -> (r: usize)
    requires
        from <= s@.len(),
    ensures
        r as int == spec_first_slash_from(s@, from as int),
        from <= r <= s@.len(),
        r < s@.len() ==> s@[r as int] == '/',
        forall|j: int| from <= j < r ==> s@[j] != '/',
{
    let len = s.unicode_len();
    let mut i = from;
    while i < len
        invariant
            from <= i <= len,
            len == s@.len(),
            forall|j: int| from <= j < i ==> s@[j] != '/',
        decreases len - i,
    {
        if s.get_char(i) == '/' {
            proof {
                lemma_first_slash_from_char(s@, from as int, i as int);
            }
            return i;
        }
        i = i + 1;
    }
    proof {
        lemma_first_slash_from_char(s@, from as int, len as int);
    }
    len
}

/// Whether `k` is a direct file child of `prefix`: it extends the prefix and
/// holds no further '/'. The key equal to the prefix itself is the folder
/// marker, not a child.
pub open spec fn spec_is_direct_file(k: Seq<char>, prefix: Seq<char>) -> bool {
    &&& spec_starts_with(k, prefix)
    &&& k.len() > prefix.len()
    &&& spec_first_slash_from(k, prefix.len() as int) == k.len()
}

/// Whether `k` lies below some folder that is a direct child of `prefix`:
/// it extends the prefix and holds a further '/'.
pub open spec fn spec_is_in_folder(k: Seq<char>, prefix: Seq<char>) -> bool {
    &&& spec_starts_with(k, prefix)
    &&& spec_first_slash_from(k, prefix.len() as int) < k.len()
}

/// The key of the direct child folder of `prefix` that `k` lies below:
/// `k` cut just after the first '/' past the prefix.
pub open spec fn spec_folder_key_of(k: Seq<char>, prefix: Seq<char>) -> Seq<char> {
    k.subrange(0, spec_first_slash_from(k, prefix.len() as int) + 1)
}

/// Whether `x` is the key of a folder standing directly below `prefix`: it
/// extends the prefix and its one '/' past the prefix is its last character.
pub open spec fn spec_is_direct_folder_key(x: Seq<char>, prefix: Seq<char>) -> bool {
    &&& spec_starts_with(x, prefix)
    &&& x.len() > prefix.len()
    &&& x[x.len() - 1] == '/'
    &&& spec_first_slash_from(x, prefix.len() as int) == x.len() - 1
}

/// The folder key cut for a key below a child folder is itself a direct
/// folder key of the prefix.
pub proof fn lemma_folder_key_is_direct(k: Seq<char>, prefix: Seq<char>)
    requires
        spec_is_in_folder(k, prefix),
    ensures
        spec_is_direct_folder_key(spec_folder_key_of(k, prefix), prefix),
{
    let from = prefix.len() as int;
    let fs = spec_first_slash_from(k, from);
    lemma_first_slash_from_props(k, from);
    let x = spec_folder_key_of(k, prefix);
    assert(x.len() == fs + 1);
    assert(forall|j: int| 0 <= j < x.len() ==> x[j] == k[j]);
    assert(x.subrange(0, prefix.len() as int) =~= k.subrange(0, prefix.len() as int));
    assert(x[x.len() - 1] == k[fs]);
    lemma_first_slash_from_char(x, from, fs);
}

/// `key` read as a folder prefix: unchanged when it already ends with '/',
/// otherwise with '/' appended. The empty key stays empty (the bucket root's
/// children carry no prefix at all).
pub open spec fn spec_listing_prefix(key: Seq<char>) -> Seq<char> {
    if key.len() == 0 {
        key
    } else if spec_ends_with_char(key, '/') {
        key
    } else {
        key.push('/')
    }
}

/// Build the listing prefix for `key`.
pub fn listing_prefix(key: &str) -> (r: String)
    ensures
        r@ == spec_listing_prefix(key@),
{
    if key.is_empty() {
        String::new()
    } else if ends_with_char(key, '/') {
        key.to_owned()
    } else {
        let r = String::from_str(key).concat("/");
        proof {
            reveal_strlit("/");
            assert(r@ =~= key@.push('/'));
        }
        r
    }
}

} // verus!
