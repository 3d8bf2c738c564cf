//! An in-memory object store with the observable surface the gateway needs
//! from the backend: get, put, delete, prefix probe and one-level listing.
//! It doubles as the single-writer harness the stateful properties of the
//! dispatcher are stated and proved against; the production backend is wired
//! up by the application instead.

use vstd::prelude::*;
use vstd::string::StrSliceExecFns;
use crate::model::MetaView;
use crate::model::ResourceMetadata;
use crate::paths::spec_first_slash_from;
use crate::paths::spec_folder_key_of;
use crate::paths::spec_is_direct_file;
use crate::paths::spec_is_direct_folder_key;
use crate::paths::spec_is_in_folder;
use crate::paths::lemma_folder_key_is_direct;
use crate::paths::spec_listing_prefix;
use crate::paths::find_slash_from;
use crate::paths::listing_prefix;
use crate::text::spec_starts_with;
use crate::text::starts_with_str;
use crate::text::str_eq;

verus! {

/// One stored object: a key and its bytes.
pub struct StoreEntry {
    pub key: String,
    pub body: Vec<u8>,
}

/// A flat key space of byte blobs, held in insertion order.
pub struct MemoryStore {
    pub entries: Vec<StoreEntry>,
}

impl MemoryStore {
    /// The store as a sequence of (key, body) pairs in insertion order.
    pub open spec fn entries_view(self) -> Seq<(Seq<char>, Seq<u8>)> {
        self.entries@.map(|i: int, e: StoreEntry| (e.key@, e.body@))
    }

    /// Well-formed: no key occurs twice.
    pub open spec fn wf(self) -> bool {
        forall|i: int, j: int|
            0 <= i < j < self.entries@.len() ==> self.entries@[i].key@ != self.entries@[j].key@
    }

    /// Whether some entry carries key `k`.
    pub open spec fn spec_contains(self, k: Seq<char>) -> bool {
        exists|i: int| 0 <= i < self.entries@.len() && self.entries@[i].key@ == k
    }
}

impl View for MemoryStore {
    type V = Map<Seq<char>, Seq<u8>>;

    open spec fn view(&self) -> Map<Seq<char>, Seq<u8>> {
        Map::new(
            |k: Seq<char>| self.spec_contains(k),
            |k: Seq<char>|
                self.entries@[
                    choose|i: int| 0 <= i < self.entries@.len() && self.entries@[i].key@ == k
                ].body@,
        )
    }
}

/// In a well-formed store the map view reads off the entries: a key is in the
/// domain exactly when an entry carries it, and that entry's bytes are its
/// value.
pub proof fn lemma_store_view(s: MemoryStore)
    requires
        s.wf(),
    ensures
        forall|k: Seq<char>| #[trigger] s@.dom().contains(k) <==> s.spec_contains(k),
        forall|i: int|
            0 <= i < s.entries@.len() ==> s@[#[trigger] s.entries@[i].key@] == s.entries@[i].body@,
{
    assert forall|i: int| 0 <= i < s.entries@.len() implies s@[#[trigger] s.entries@[i].key@]
        == s.entries@[i].body@ by {
        let k = s.entries@[i].key@;
        assert(s.spec_contains(k));
        let j = choose|j: int| 0 <= j < s.entries@.len() && s.entries@[j].key@ == k;
        if j < i {
            assert(s.entries@[j].key@ != s.entries@[i].key@);
        } else if i < j {
            assert(s.entries@[i].key@ != s.entries@[j].key@);
        }
    }
}

impl MemoryStore {
    /// An empty store.
    pub fn new() -> (s: MemoryStore)
        ensures
            s.wf(),
            s@ == Map::<Seq<char>, Seq<u8>>::empty(),
            s.entries@.len() == 0,
    {
        let s = MemoryStore { entries: Vec::new() };
        proof {
            assert(s@ =~= Map::<Seq<char>, Seq<u8>>::empty());
        }
        s
    }

    /// The index of the entry carrying `key`, if any.
    fn index_of(&self, key: &str) -> (r: Option<usize>)
        ensures
            match r {
                Some(i) => i < self.entries@.len() && self.entries@[i as int].key@ == key@,
                None => !self.spec_contains(key@),
            },
    {
        let n = self.entries.len();
        let mut i: usize = 0;
        while i < n
            invariant
                i <= n,
                n == self.entries@.len(),
                forall|j: int| 0 <= j < i ==> self.entries@[j].key@ != key@,
            decreases n - i,
        {
            if str_eq(self.entries[i].key.as_str(), key) {
                return Some(i);
            }
            i = i + 1;
        }
        None
    }

    /// Remove the object under `key`. Idempotent: deleting an absent key
    /// leaves the store as it was.
    pub fn delete(&mut self, key: &str)
        requires
            old(self).wf(),
        ensures
            final(self).wf(),
            final(self)@ == old(self)@.remove(key@),
    {
        proof {
            lemma_store_view(*old(self));
        }
        match self.index_of(key) {
            Some(i) => {
                self.entries.remove(i);
                proof {
                    let oldE = old(self).entries@;
                    let newE = self.entries@;
                    assert(newE == oldE.remove(i as int));
                    assert forall|a: int, b: int| 0 <= a < b < newE.len() implies newE[a].key@
                        != newE[b].key@ by {
                        let a0: int = if a < i { a } else { a + 1 };
                        let b0: int = if b < i { b } else { b + 1 };
                        assert(newE[a] == oldE[a0]);
                        assert(newE[b] == oldE[b0]);
                    }
                    assert(self.wf());
                    lemma_store_view(*self);
                    assert forall|k: Seq<char>| #[trigger] self@.dom().contains(k) implies old(
                        self,
                    )@.remove(key@).dom().contains(k) && self@[k] == old(self)@.remove(key@)[k] by {
                        let j = choose|j: int| 0 <= j < newE.len() && newE[j].key@ == k;
                        let j0: int = if j < i { j } else { j + 1 };
                        assert(newE[j] == oldE[j0]);
                        assert(old(self).spec_contains(k));
                        assert(oldE[i as int].key@ == key@);
                        assert(k != key@);
                        assert(self@[k] == newE[j].body@);
                        assert(old(self)@[k] == oldE[j0].body@);
                    }
                    assert forall|k: Seq<char>| #[trigger] old(self)@.remove(key@).dom().contains(
                        k,
                    ) implies self@.dom().contains(k) by {
                        let j0 = choose|j0: int| 0 <= j0 < oldE.len() && oldE[j0].key@ == k;
                        assert(k != key@);
                        assert(j0 != i);
                        let j: int = if j0 < i { j0 } else { j0 - 1 };
                        assert(newE[j] == oldE[j0]);
                        assert(self.spec_contains(k));
                    }
                    assert(self@ =~= old(self)@.remove(key@));
                }
            },
            None => {
                proof {
                    assert(self@ =~= old(self)@.remove(key@));
                }
            },
        }
    }

    /// Store `body` under `key`, replacing any previous object.
    pub fn put(&mut self, key: &str, body: Vec<u8>)
        requires
            old(self).wf(),
        ensures
            final(self).wf(),
            final(self)@ == old(self)@.insert(key@, body@),
    {
        self.delete(key);
        proof {
            lemma_store_view(*self);
        }
        let ghost mid = *self;
        let entry = StoreEntry { key: key.to_owned(), body };
        self.entries.push(entry);
        proof {
            let midE = mid.entries@;
            let newE = self.entries@;
            assert(newE == midE.push(entry));
            lemma_store_view(mid);
            assert(mid@ == old(self)@.remove(key@));
            assert(!mid@.dom().contains(key@));
            assert(!mid.spec_contains(key@));
            assert forall|a: int, b: int| 0 <= a < b < newE.len() implies newE[a].key@
                != newE[b].key@ by {
                if b < midE.len() {
                    assert(newE[a] == midE[a]);
                    assert(newE[b] == midE[b]);
                } else {
                    assert(newE[a] == midE[a]);
                    assert(newE[b].key@ == key@);
                    if midE[a].key@ == key@ {
                        assert(mid.spec_contains(key@));
                    }
                }
            }
            assert(self.wf());
            lemma_store_view(*self);
            lemma_store_view(mid);
            assert forall|k: Seq<char>| #[trigger] self@.dom().contains(k) implies mid@.insert(
                key@,
                body@,
            ).dom().contains(k) && self@[k] == mid@.insert(key@, body@)[k] by {
                let j = choose|j: int| 0 <= j < newE.len() && newE[j].key@ == k;
                if k == key@ {
                    if j < midE.len() {
                        assert(newE[j] == midE[j]);
                        assert(mid.spec_contains(key@));
                    }
                    assert(j == midE.len());
                    assert(self@[k] == newE[j].body@);
                } else {
                    assert(j < midE.len());
                    assert(newE[j] == midE[j]);
                    assert(mid.spec_contains(k));
                    assert(self@[k] == newE[j].body@);
                    assert(mid@[k] == midE[j].body@);
                }
            }
            assert forall|k: Seq<char>| #[trigger] mid@.insert(key@, body@).dom().contains(
                k,
            ) implies self@.dom().contains(k) by {
                if k == key@ {
                    assert(newE[midE.len() as int].key@ == key@);
                    assert(self.spec_contains(k));
                } else {
                    let j = choose|j: int| 0 <= j < midE.len() && midE[j].key@ == k;
                    assert(newE[j] == midE[j]);
                    assert(self.spec_contains(k));
                }
            }
            assert(self@ =~= mid@.insert(key@, body@));
            assert(self@ =~= old(self)@.insert(key@, body@));
        }
    }

    /// The bytes stored under `key`, if any.
    pub fn get(&self, key: &str) -> (r: Option<&Vec<u8>>)
        requires
            self.wf(),
        ensures
            match r {
                Some(b) => self@.dom().contains(key@) && b@ == self@[key@],
                None => !self@.dom().contains(key@),
            },
    {
        proof {
            lemma_store_view(*self);
        }
        match self.index_of(key) {
            Some(i) => Some(&self.entries[i].body),
            None => None,
        }
    }
}

/// What the folder heuristic decides over a store state: the empty key (the
/// bucket root) is always a collection; any other key is one exactly when at
/// least one stored key lies under its slash-terminated prefix. The
/// heuristic cannot tell an empty folder from an absent path: both are "not
/// a collection", and callers fall back to an exact-key lookup.
pub open spec fn spec_is_collection(m: Map<Seq<char>, Seq<u8>>, key: Seq<char>) -> bool {
    key.len() == 0 || exists|k: Seq<char>|
        #[trigger] m.dom().contains(k) && spec_starts_with(k, spec_listing_prefix(key))
}

impl MemoryStore {
    /// Whether any stored key starts with `prefix`.
    pub fn contains_prefixed(&self, prefix: &str) -> (r: bool)
        requires
            self.wf(),
        ensures
            r == exists|k: Seq<char>|
                #[trigger] self@.dom().contains(k) && spec_starts_with(k, prefix@),
    {
        proof {
            lemma_store_view(*self);
        }
        let n = self.entries.len();
        let mut i: usize = 0;
        while i < n
            invariant
                i <= n,
                n == self.entries@.len(),
                forall|j: int| 0 <= j < i ==> !spec_starts_with(self.entries@[j].key@, prefix@),
            decreases n - i,
        {
            if starts_with_str(self.entries[i].key.as_str(), prefix) {
                proof {
                    assert(self.spec_contains(self.entries@[i as int].key@));
                    assert(self@.dom().contains(self.entries@[i as int].key@));
                }
                return true;
            }
            i = i + 1;
        }
        proof {
            assert forall|k: Seq<char>| #[trigger] self@.dom().contains(k) implies
                !spec_starts_with(k, prefix@) by {
                let j = choose|j: int|
                    0 <= j < self.entries@.len() && self.entries@[j].key@ == k;
            }
        }
        false
    }

    /// The folder-resolution heuristic; see [`spec_is_collection`]. Never
    /// fails: the decision is a pure function of the store state and the key.
    pub fn is_collection(&self, key: &str) -> (r: bool)
        requires
            self.wf(),
        ensures
            r == spec_is_collection(self@, key@),
    {
        if key.is_empty() {
            return true;
        }
        let prefix = listing_prefix(key);
        self.contains_prefixed(prefix.as_str())
    }
}

/// The keys of the direct child folders below `prefix`, one key per folder,
/// in first-occurrence order over the entry sequence.
pub open spec fn spec_folders(es: Seq<(Seq<char>, Seq<u8>)>, prefix: Seq<char>) -> Seq<Seq<char>>
    decreases es.len(),
{
    if es.len() == 0 {
        Seq::empty()
    } else {
        let rest = spec_folders(es.drop_last(), prefix);
        let k = es.last().0;
        if spec_is_in_folder(k, prefix) && !rest.contains(spec_folder_key_of(k, prefix)) {
            rest.push(spec_folder_key_of(k, prefix))
        } else {
            rest
        }
    }
}

/// The direct file children below `prefix`, in entry order.
pub open spec fn spec_files(es: Seq<(Seq<char>, Seq<u8>)>, prefix: Seq<char>) -> Seq<MetaView>
    decreases es.len(),
{
    if es.len() == 0 {
        Seq::empty()
    } else {
        let rest = spec_files(es.drop_last(), prefix);
        let k = es.last().0;
        if spec_is_direct_file(k, prefix) {
            rest.push(MetaView::file(k, es.last().1.len() as u64))
        } else {
            rest
        }
    }
}

/// All direct children below `prefix`: folders first, then files. Deeper
/// descendants appear only through the one folder key that covers them.
pub open spec fn spec_children(es: Seq<(Seq<char>, Seq<u8>)>, prefix: Seq<char>) -> Seq<MetaView> {
    spec_folders(es, prefix).map(|i: int, k: Seq<char>| MetaView::folder(k)) + spec_files(
        es,
        prefix,
    )
}

impl MemoryStore {
    /// The direct children below `prefix` (either empty, for the bucket
    /// root, or slash-terminated): synthesized folders first, then files, as
    /// a one-level listing with delimiter '/' reports them.
    pub fn list_children(&self, prefix: &str) -> (r: Vec<ResourceMetadata>)
        ensures
            r@.map(|i: int, c: ResourceMetadata| c@) == spec_children(
                self.entries_view(),
                prefix@,
            ),
    {
        let plen = prefix.unicode_len();
        let n = self.entries.len();
        let ghost ev = self.entries_view();
        let mut folders: Vec<ResourceMetadata> = Vec::new();
        let mut i: usize = 0;
        while i < n
            invariant
                i <= n,
                n == self.entries@.len(),
                ev == self.entries_view(),
                plen == prefix@.len(),
                folders@.len() == spec_folders(ev.subrange(0, i as int), prefix@).len(),
                forall|j: int|
                    0 <= j < folders@.len() ==> #[trigger] folders@[j]@ == MetaView::folder(
                        spec_folders(ev.subrange(0, i as int), prefix@)[j],
                    ),
            decreases n - i,
        {
            let ghost fprev = spec_folders(ev.subrange(0, i as int), prefix@);
            proof {
                assert(ev.subrange(0, i as int + 1).drop_last() =~= ev.subrange(0, i as int));
                assert(ev.subrange(0, i as int + 1).last() == ev[i as int]);
            }
            let key_ref: &str = self.entries[i].key.as_str();
            let klen = key_ref.unicode_len();
            if starts_with_str(key_ref, prefix) {
                let spos = find_slash_from(key_ref, plen);
                if spos < klen {
                    let fkey = key_ref.substring_char(0, spos + 1);
                    proof {
                        assert(spec_is_in_folder(ev[i as int].0, prefix@));
                        assert(fkey@ == spec_folder_key_of(ev[i as int].0, prefix@));
                    }
                    let mut seen = false;
                    let mut j: usize = 0;
                    let fcount = folders.len();
                    while j < fcount
                        invariant
                            j <= fcount,
                            fcount == folders@.len(),
                            fcount == fprev.len(),
                            forall|jj: int|
                                0 <= jj < folders@.len() ==> #[trigger] folders@[jj]@
                                    == MetaView::folder(fprev[jj]),
                            seen ==> fprev.contains(fkey@),
                            !seen ==> forall|jj: int| 0 <= jj < j ==> fprev[jj] != fkey@,
                        decreases fcount - j,
                    {
                        if str_eq(folders[j].key.as_str(), fkey) {
                            proof {
                                assert(folders@[j as int]@.key == fprev[j as int]);
                            }
                            seen = true;
                        }
                        j = j + 1;
                    }
                    if !seen {
                        proof {
                            assert(!fprev.contains(fkey@));
                        }
                        folders.push(ResourceMetadata::folder(fkey.to_owned()));
                    }
                    proof {
                        let fnext = spec_folders(ev.subrange(0, i as int + 1), prefix@);
                        if seen {
                            assert(fnext == fprev);
                        } else {
                            assert(fnext == fprev.push(fkey@));
                        }
                    }
                } else {
                    proof {
                        assert(!spec_is_in_folder(ev[i as int].0, prefix@));
                    }
                }
            } else {
                proof {
                    assert(!spec_is_in_folder(ev[i as int].0, prefix@));
                }
            }
            i = i + 1;
        }
        let ghost all_folders = spec_folders(ev, prefix@);
        proof {
            assert(ev.subrange(0, n as int) =~= ev);
        }
        let mut files: Vec<ResourceMetadata> = Vec::new();
        i = 0;
        while i < n
            invariant
                i <= n,
                n == self.entries@.len(),
                ev == self.entries_view(),
                plen == prefix@.len(),
                files@.len() == spec_files(ev.subrange(0, i as int), prefix@).len(),
                forall|j: int|
                    0 <= j < files@.len() ==> #[trigger] files@[j]@ == spec_files(
                        ev.subrange(0, i as int),
                        prefix@,
                    )[j],
            decreases n - i,
        {
            proof {
                assert(ev.subrange(0, i as int + 1).drop_last() =~= ev.subrange(0, i as int));
                assert(ev.subrange(0, i as int + 1).last() == ev[i as int]);
            }
            let key_ref: &str = self.entries[i].key.as_str();
            let klen = key_ref.unicode_len();
            if starts_with_str(key_ref, prefix) && klen > plen {
                let spos = find_slash_from(key_ref, plen);
                if spos == klen {
                    proof {
                        assert(spec_is_direct_file(ev[i as int].0, prefix@));
                    }
                    let size = self.entries[i].body.len() as u64;
                    files.push(ResourceMetadata::file(self.entries[i].key.clone(), size));
                } else {
                    proof {
                        assert(!spec_is_direct_file(ev[i as int].0, prefix@));
                    }
                }
            } else {
                proof {
                    assert(!spec_is_direct_file(ev[i as int].0, prefix@));
                }
            }
            i = i + 1;
        }
        let ghost all_files = spec_files(ev, prefix@);
        let mut result = folders;
        result.append(&mut files);
        proof {
            let target = spec_children(ev, prefix@);
            assert(result@.map(|idx: int, c: ResourceMetadata| c@) =~= target);
        }
        result
    }
}

proof fn lemma_folders_are_direct(es: Seq<(Seq<char>, Seq<u8>)>, prefix: Seq<char>)
    ensures
        forall|i: int|
            0 <= i < spec_folders(es, prefix).len() ==> spec_is_direct_folder_key(
                #[trigger] spec_folders(es, prefix)[i],
                prefix,
            ),
    decreases es.len(),
{
    if es.len() > 0 {
        lemma_folders_are_direct(es.drop_last(), prefix);
        let rest = spec_folders(es.drop_last(), prefix);
        let k = es.last().0;
        if spec_is_in_folder(k, prefix) && !rest.contains(spec_folder_key_of(k, prefix)) {
            lemma_folder_key_is_direct(k, prefix);
            let x = spec_folder_key_of(k, prefix);
            assert(spec_folders(es, prefix) == rest.push(x));
            assert forall|i: int| 0 <= i < spec_folders(es, prefix).len() implies
                spec_is_direct_folder_key(#[trigger] spec_folders(es, prefix)[i], prefix) by {
                if i < rest.len() {
                    assert(spec_folders(es, prefix)[i] == rest[i]);
                } else {
                    assert(spec_folders(es, prefix)[i] == x);
                }
            }
        } else {
            assert(spec_folders(es, prefix) == rest);
        }
    }
}

proof fn lemma_files_are_direct(es: Seq<(Seq<char>, Seq<u8>)>, prefix: Seq<char>)
    ensures
        forall|i: int|
            0 <= i < spec_files(es, prefix).len() ==> spec_is_direct_file(
                (#[trigger] spec_files(es, prefix)[i]).key,
                prefix,
            ) && !spec_files(es, prefix)[i].is_collection,
    decreases es.len(),
{
    if es.len() > 0 {
        lemma_files_are_direct(es.drop_last(), prefix);
    }
}

/// Law: a one-level listing reaches one level and no further. Every child it
/// reports stands directly below the prefix: a folder child's key extends the
/// prefix and holds exactly one further '/', as its final character; a file
/// child's key extends the prefix and holds none. A deeper descendant can
/// appear only through the one folder key that covers it.
pub proof fn lemma_children_one_level(es: Seq<(Seq<char>, Seq<u8>)>, prefix: Seq<char>)
    ensures
        forall|i: int|
            0 <= i < spec_children(es, prefix).len() ==> {
                let c = #[trigger] spec_children(es, prefix)[i];
                if c.is_collection {
                    spec_is_direct_folder_key(c.key, prefix)
                } else {
                    spec_is_direct_file(c.key, prefix)
                }
            },
{
    lemma_folders_are_direct(es, prefix);
    lemma_files_are_direct(es, prefix);
    let folders = spec_folders(es, prefix).map(|i: int, k: Seq<char>| MetaView::folder(k));
    let files = spec_files(es, prefix);
    assert forall|i: int| 0 <= i < spec_children(es, prefix).len() implies {
        let c = #[trigger] spec_children(es, prefix)[i];
        if c.is_collection {
            spec_is_direct_folder_key(c.key, prefix)
        } else {
            spec_is_direct_file(c.key, prefix)
        }
    } by {
        if i < folders.len() {
            assert(spec_children(es, prefix)[i] == MetaView::folder(spec_folders(es, prefix)[i]));
        } else {
            assert(spec_children(es, prefix)[i] == files[i - folders.len()]);
        }
    }
}

/// Law: the bucket root is a collection in every store state.
pub proof fn lemma_root_always_collection(m: Map<Seq<char>, Seq<u8>>, key: Seq<char>)
    requires
        key.len() == 0,
    ensures
        spec_is_collection(m, key),
{
}

/// Law: a non-empty key with at least one object stored under its
/// slash-terminated prefix is a collection.
pub proof fn lemma_child_implies_collection(
    m: Map<Seq<char>, Seq<u8>>,
    key: Seq<char>,
    child: Seq<char>,
)
    requires
        key.len() > 0,
        m.dom().contains(child),
        spec_starts_with(child, spec_listing_prefix(key)),
    ensures
        spec_is_collection(m, key),
{
}

/// Law: a non-empty key that maps to an exact-match object, with nothing
/// stored deeper (no key below its slash-terminated prefix, whatever else the
/// store holds), is not a collection: the object itself is one character too
/// short to lie under its own prefix.
pub proof fn lemma_exact_match_not_collection(m: Map<Seq<char>, Seq<u8>>, key: Seq<char>)
    requires
        key.len() > 0,
        key[key.len() - 1] != '/',
        m.dom().contains(key),
        forall|q: Seq<char>|
            #[trigger] m.dom().contains(q) && q != key ==> !spec_starts_with(
                q,
                spec_listing_prefix(key),
            ),
    ensures
        !spec_is_collection(m, key),
{
    assert forall|k: Seq<char>| #[trigger] m.dom().contains(k) implies !spec_starts_with(
        k,
        spec_listing_prefix(key),
    ) by {
        if k == key {
            assert(spec_listing_prefix(key).len() == key.len() + 1);
        }
    }
}

} // verus!
