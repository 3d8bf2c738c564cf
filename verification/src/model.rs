//! Protocol-neutral records the gateway passes between its parts: resource
//! metadata, collection listings, credentials, and the response record the
//! application maps onto an HTTP reply.

use vstd::prelude::*;
use vstd::string::StringExecFns;

verus! {

/// The view of an `Option<String>` as an optional character sequence.
pub open spec fn opt_view(o: Option<String>) -> Option<Seq<char>> {
    match o {
        Some(s) => Some(s@),
        None => None,
    }
}

/// HTTP Basic Auth credentials, forwarded verbatim as object-store access
/// credentials. Extracted once per request and never kept beyond it.
pub struct Credentials {
    pub access_key: String,
    pub secret_key: String,
}

impl Credentials {
    /// Whether these credentials may be forwarded at all: both parts present.
    pub open spec fn spec_accepted(self) -> bool {
        self.access_key@.len() > 0 && self.secret_key@.len() > 0
    }
}

/// Whether a username/password pair is accepted for forwarding: both
/// non-empty. The decision behind the gateway's Basic Auth validator.
pub fn credentials_accepted(username: &str, password: &str) -> (r: bool)
    ensures
        r == (username@.len() > 0 && password@.len() > 0),
{
    !username.is_empty() && !password.is_empty()
}

/// The mathematical content of a [`ResourceMetadata`] record.
pub ghost struct MetaView {
    pub key: Seq<char>,
    pub size: u64,
    pub content_type: Option<Seq<char>>,
    pub last_modified: Option<Seq<char>>,
    pub etag: Option<Seq<char>>,
    pub is_collection: bool,
}

impl MetaView {
    /// Metadata of a synthesized folder under `key`.
    pub open spec fn folder(key: Seq<char>) -> MetaView {
        MetaView {
            key,
            size: 0,
            content_type: None,
            last_modified: None,
            etag: None,
            is_collection: true,
        }
    }

    /// Metadata of a plain object of `size` bytes under `key`, with no
    /// optional backend fields.
    pub open spec fn file(key: Seq<char>, size: u64) -> MetaView {
        MetaView { key, size, content_type: None, last_modified: None, etag: None, is_collection: false }
    }
}

/// One resource as the protocol layer sees it, normalized from raw backend
/// responses. Optional fields stay `None` when the backend reported nothing.
pub struct ResourceMetadata {
    /// The full object key (for folders: the prefix, ending in '/').
    pub key: String,
    /// Object size in bytes; zero for folders.
    pub size: u64,
    pub content_type: Option<String>,
    pub last_modified: Option<String>,
    pub etag: Option<String>,
    pub is_collection: bool,
}

impl View for ResourceMetadata {
    type V = MetaView;

    open spec fn view(&self) -> MetaView {
        MetaView {
            key: self.key@,
            size: self.size,
            content_type: opt_view(self.content_type),
            last_modified: opt_view(self.last_modified),
            etag: opt_view(self.etag),
            is_collection: self.is_collection,
        }
    }
}

impl ResourceMetadata {
    /// Metadata of a synthesized folder under `key`.
    pub fn folder(key: String) -> (r: ResourceMetadata)
        ensures
            r@ == MetaView::folder(key@),
    {
        ResourceMetadata {
            key,
            size: 0,
            content_type: None,
            last_modified: None,
            etag: None,
            is_collection: true,
        }
    }

    /// Metadata of a plain object of `size` bytes under `key`.
    pub fn file(key: String, size: u64) -> (r: ResourceMetadata)
        ensures
            r@ == MetaView::file(key@, size),
    {
        ResourceMetadata {
            key,
            size,
            content_type: None,
            last_modified: None,
            etag: None,
            is_collection: false,
        }
    }
}

/// A collection's own metadata together with its direct children, in the
/// order the backend listing gave them: folders first, then files.
pub struct CollectionListing {
    pub collection: ResourceMetadata,
    pub children: Vec<ResourceMetadata>,
}

impl CollectionListing {
    /// The children as mathematical records.
    pub open spec fn children_view(self) -> Seq<MetaView> {
        self.children@.map(|i: int, c: ResourceMetadata| c@)
    }
}

/// What a PROPFIND target turned out to be: a single resource, or a
/// collection with its direct children.
pub enum MetadataView {
    Single(ResourceMetadata),
    Collection(CollectionListing),
}

/// A response body: nothing, raw object bytes, or rendered text.
pub enum ResponseBody {
    Empty,
    Bytes(Vec<u8>),
    Text(String),
}

/// The gateway's reply to one request, as plain values. The application maps
/// each field onto the HTTP response; `Content-Length` for byte bodies is
/// carried explicitly because the protocol surface promises it.
pub struct DavResponse {
    pub status: u16,
    pub content_type: Option<String>,
    pub content_length: Option<u64>,
    pub etag: Option<String>,
    pub location: Option<String>,
    pub dav: Option<String>,
    pub allow: Option<String>,
    pub body: ResponseBody,
}

/// An owned copy of a byte vector.
pub fn copy_bytes(v: &Vec<u8>) -> (r: Vec<u8>)
    ensures
        r@ == v@,
{
    let n = v.len();
    let mut r: Vec<u8> = Vec::new();
    let mut i: usize = 0;
    while i < n
        invariant
            i <= n,
            n == v@.len(),
            r@ == v@.subrange(0, i as int),
        decreases n - i,
    {
        r.push(v[i]);
        proof {
            assert(v@.subrange(0, i as int).push(v@[i as int]) =~= v@.subrange(0, i as int + 1));
        }
        i = i + 1;
    }
    proof {
        assert(v@.subrange(0, n as int) =~= v@);
    }
    r
}

/// The keys that a deep listing actually reported, in order: the backend
/// marks a missing key as absent rather than failing the whole listing.
pub open spec fn spec_present_keys(s: Seq<Option<String>>) -> Seq<Seq<char>>
    decreases s.len(),
{
    if s.len() == 0 {
        Seq::empty()
    } else {
        let rest = spec_present_keys(s.drop_last());
        match s.last() {
            Some(k) => rest.push(k@),
            None => rest,
        }
    }
}

/// Collect the keys present in a listing's entries, in listing order. This
/// is what a recursive folder delete walks.
pub fn present_keys(keys: &Vec<Option<String>>) -> (r: Vec<String>)
    ensures
        r@.map(|i: int, s: String| s@) == spec_present_keys(keys@),
{
    let n = keys.len();
    let mut r: Vec<String> = Vec::new();
    let mut i: usize = 0;
    while i < n
        invariant
            i <= n,
            n == keys@.len(),
            r@.map(|j: int, s: String| s@) == spec_present_keys(keys@.subrange(0, i as int)),
        decreases n - i,
    {
        proof {
            assert(keys@.subrange(0, i as int + 1).drop_last() =~= keys@.subrange(0, i as int));
            assert(keys@.subrange(0, i as int + 1).last() == keys@[i as int]);
        }
        match &keys[i] {
            Some(k) => {
                r.push(k.clone());
                proof {
                    assert(r@.map(|j: int, s: String| s@) =~= spec_present_keys(
                        keys@.subrange(0, i as int + 1),
                    ));
                }
            },
            None => {
                proof {
                    assert(r@.map(|j: int, s: String| s@) =~= spec_present_keys(
                        keys@.subrange(0, i as int + 1),
                    ));
                }
            },
        }
        i = i + 1;
    }
    proof {
        assert(keys@.subrange(0, n as int) =~= keys@);
    }
    r
}

/// The content type a fetched object is surfaced with: the backend's own
/// when it reported one, otherwise the octet-stream default.
pub open spec fn spec_content_type_or_default(ct: Option<Seq<char>>) -> Seq<char> {
    match ct {
        Some(c) => c,
        None => "application/octet-stream"@,
    }
}

/// Normalize an optional backend content type; see
/// [`spec_content_type_or_default`].
pub fn normalize_content_type(ct: Option<String>) -> (r: String)
    ensures
        r@ == spec_content_type_or_default(opt_view(ct)),
{
    match ct {
        Some(c) => c,
        None => String::from_str("application/octet-stream"),
    }
}

} // verus!
