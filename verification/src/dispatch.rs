//! Method dispatch: the closed set of WebDAV verbs the gateway recognizes,
//! the response each verb produces from backend outcomes, and the composed
//! request handler over the in-memory store, against which the stateful
//! properties of the protocol are proved.

use vstd::prelude::*;
use vstd::string::StringExecFns;
use crate::error::DavError;
use crate::model::CollectionListing;
use crate::model::Credentials;
use crate::model::MetaView;
use crate::model::MetadataView;
use crate::model::ResourceMetadata;
use crate::model::ResponseBody;
use crate::model::DavResponse;
use crate::model::copy_bytes;
use crate::model::opt_view;
use crate::paths::listing_prefix;
use crate::paths::spec_listing_prefix;
use crate::provider::DeploymentMode;
use crate::provider::resolve_backend;
use crate::render::render_multistatus;
use crate::render::spec_multistatus_collection;
use crate::render::spec_multistatus_single;
use crate::store::MemoryStore;
use crate::store::spec_children;
use crate::store::spec_is_collection;
use crate::text::spec_dec;
use crate::text::spec_starts_with;
use crate::text::str_eq;
use crate::text::u64_to_dec;

verus! {

/// The ceiling on an uploaded body, in bytes.
pub const MAX_UPLOAD_BYTES: u64 = 10 * 1024 * 1024 * 1024;

/// The closed set of verbs the gateway serves. Anything else is rejected at
/// routing time.
#[derive(Clone, Copy, Debug, PartialEq, Eq, Structural)]
pub enum Verb {
    Get,
    Head,
    Put,
    Delete,
    Options,
    Propfind,
    Mkcol,
    Copy,
    Move,
}

/// Map an HTTP method name to a verb; `None` for anything outside the set.
pub fn parse_verb(method: &str) -> (r: Option<Verb>)
    ensures
        (r == Some(Verb::Get)) <==> method@ == "GET"@,
        (r == Some(Verb::Head)) <==> method@ == "HEAD"@,
        (r == Some(Verb::Put)) <==> method@ == "PUT"@,
        (r == Some(Verb::Delete)) <==> method@ == "DELETE"@,
        (r == Some(Verb::Options)) <==> method@ == "OPTIONS"@,
        (r == Some(Verb::Propfind)) <==> method@ == "PROPFIND"@,
        (r == Some(Verb::Mkcol)) <==> method@ == "MKCOL"@,
        (r == Some(Verb::Copy)) <==> method@ == "COPY"@,
        (r == Some(Verb::Move)) <==> method@ == "MOVE"@,
{
    proof {
        reveal_strlit("GET");
        reveal_strlit("HEAD");
        reveal_strlit("PUT");
        reveal_strlit("DELETE");
        reveal_strlit("OPTIONS");
        reveal_strlit("PROPFIND");
        reveal_strlit("MKCOL");
        reveal_strlit("COPY");
        reveal_strlit("MOVE");
        assert("GET"@.len() == 3 && "GET"@[0] == 'G');
        assert("HEAD"@.len() == 4 && "HEAD"@[0] == 'H');
        assert("PUT"@.len() == 3 && "PUT"@[0] == 'P');
        assert("DELETE"@.len() == 6);
        assert("OPTIONS"@.len() == 7);
        assert("PROPFIND"@.len() == 8);
        assert("MKCOL"@.len() == 5);
        assert("COPY"@.len() == 4 && "COPY"@[0] == 'C');
        assert("MOVE"@.len() == 4 && "MOVE"@[0] == 'M');
    }
    if str_eq(method, "GET") {
        Some(Verb::Get)
    } else if str_eq(method, "HEAD") {
        Some(Verb::Head)
    } else if str_eq(method, "PUT") {
        Some(Verb::Put)
    } else if str_eq(method, "DELETE") {
        Some(Verb::Delete)
    } else if str_eq(method, "OPTIONS") {
        Some(Verb::Options)
    } else if str_eq(method, "PROPFIND") {
        Some(Verb::Propfind)
    } else if str_eq(method, "MKCOL") {
        Some(Verb::Mkcol)
    } else if str_eq(method, "COPY") {
        Some(Verb::Copy)
    } else if str_eq(method, "MOVE") {
        Some(Verb::Move)
    } else {
        None
    }
}

/// A response with nothing but a status code.
fn bare_response(status: u16) -> (r: DavResponse)
    ensures
        r.status == status,
        r.content_type is None,
        r.content_length is None,
        r.etag is None,
        r.location is None,
        r.dav is None,
        r.allow is None,
        r.body is Empty,
{
    DavResponse {
        status,
        content_type: None,
        content_length: None,
        etag: None,
        location: None,
        dav: None,
        allow: None,
        body: ResponseBody::Empty,
    }
}

/// The liveness probe's reply, also used for HEAD: a plain 200 "OK".
pub fn plain_ok_response() -> (r: DavResponse)
    ensures
        r.content_type is None,
        r.content_length is None,
        r.etag is None,
        r.location is None,
        r.dav is None,
        r.allow is None,
        r.status == 200,
        r.body matches ResponseBody::Text(t) && t@ == "OK"@,
{
    let mut r = bare_response(200);
    r.body = ResponseBody::Text(String::from_str("OK"));
    r
}

/// The OPTIONS reply: 200 with the DAV capability class and the verb set.
pub fn options_response() -> (r: DavResponse)
    ensures
        r.content_type is None,
        r.content_length is None,
        r.etag is None,
        r.location is None,
        r.status == 200,
        r.dav matches Some(d) && d@ == "1"@,
        r.allow matches Some(a) && a@
            == "GET, HEAD, PUT, DELETE, OPTIONS, PROPFIND, MKCOL, COPY, MOVE"@,
        r.body is Empty,
{
    let mut r = bare_response(200);
    r.dav = Some(String::from_str("1"));
    r.allow = Some(String::from_str("GET, HEAD, PUT, DELETE, OPTIONS, PROPFIND, MKCOL, COPY, MOVE"));
    r
}

/// The bare reply for a classified error: its one status code and nothing
/// else, not even a body. No error detail travels back to the client.
pub fn error_response(e: DavError) -> (r: DavResponse)
    ensures
        r.content_type is None,
        r.content_length is None,
        r.etag is None,
        r.location is None,
        r.dav is None,
        r.allow is None,
        r.status == e.spec_http_status(),
        r.body is Empty,
{
    bare_response(e.http_status())
}

/// The COPY and MOVE reply: both verbs are deliberately not offered.
pub fn not_implemented_response() -> (r: DavResponse)
    ensures
        r.content_type is None,
        r.content_length is None,
        r.etag is None,
        r.location is None,
        r.dav is None,
        r.allow is None,
        r.status == 501,
        r.body is Empty,
{
    error_response(DavError::NotImplemented)
}

/// The reply when per-request credentials were required and absent or empty:
/// a 401 challenge.
pub fn unauthorized_response() -> (r: DavResponse)
    ensures
        r.content_type is None,
        r.content_length is None,
        r.etag is None,
        r.location is None,
        r.dav is None,
        r.allow is None,
        r.status == 401,
        r.body is Empty,
{
    error_response(DavError::AuthenticationRequired)
}

/// The reply when a backend write or transport fault surfaced.
pub fn backend_error_response() -> (r: DavResponse)
    ensures
        r.content_type is None,
        r.content_length is None,
        r.etag is None,
        r.location is None,
        r.dav is None,
        r.allow is None,
        r.status == 500,
        r.body is Empty,
{
    error_response(DavError::BackendError)
}

/// A successful GET: the object's bytes with its (possibly defaulted)
/// content type and exact length.
pub fn get_success_response(bytes: Vec<u8>, content_type: Option<String>) -> (r: DavResponse)
    ensures
        r.etag is None,
        r.location is None,
        r.dav is None,
        r.allow is None,
        r.status == 200,
        r.content_type matches Some(ct) && ct@ == crate::model::spec_content_type_or_default(
            opt_view(content_type),
        ),
        r.content_length == Some(bytes@.len() as u64),
        r.body matches ResponseBody::Bytes(b) && b@ == bytes@,
{
    let length = bytes.len() as u64;
    let mut r = bare_response(200);
    r.content_type = Some(crate::model::normalize_content_type(content_type));
    r.content_length = Some(length);
    r.body = ResponseBody::Bytes(bytes);
    r
}

/// A GET whose key holds no object.
pub fn get_not_found_response() -> (r: DavResponse)
    ensures
        r.content_type is None,
        r.content_length is None,
        r.etag is None,
        r.location is None,
        r.dav is None,
        r.allow is None,
        r.status == 404,
        r.body matches ResponseBody::Text(t) && t@ == "File not found"@,
{
    let mut r = bare_response(404);
    r.body = ResponseBody::Text(String::from_str("File not found"));
    r
}

/// A successful PUT: 201 with the backend's ETag (empty when it reported
/// none) and the stored location `/{bucket}{key}`.
pub fn put_success_response(bucket: &str, key: &str, etag: Option<String>) -> (r: DavResponse)
    ensures
        r.content_type is None,
        r.content_length is None,
        r.dav is None,
        r.allow is None,
        r.status == 201,
        r.etag matches Some(e) && e@ == (match etag {
            Some(x) => x@,
            None => Seq::<char>::empty(),
        }),
        r.location matches Some(l) && l@ == "/"@ + bucket@ + key@,
        r.body is Empty,
{
    let mut r = bare_response(201);
    let tag = match etag {
        Some(x) => x,
        None => String::new(),
    };
    r.etag = Some(tag);
    let mut location = String::from_str("/");
    location.append(bucket);
    location.append(key);
    r.location = Some(location);
    r
}

/// The PUT reply when the body exceeded the upload ceiling.
pub fn payload_too_large_response() -> (r: DavResponse)
    ensures
        r.content_type is None,
        r.content_length is None,
        r.etag is None,
        r.location is None,
        r.dav is None,
        r.allow is None,
        r.status == 400,
        r.body is Empty,
{
    error_response(DavError::PayloadTooLarge)
}

/// A successful DELETE: 204 whether or not the key existed.
pub fn delete_success_response() -> (r: DavResponse)
    ensures
        r.content_type is None,
        r.content_length is None,
        r.etag is None,
        r.location is None,
        r.dav is None,
        r.allow is None,
        r.status == 204,
        r.body is Empty,
{
    bare_response(204)
}

/// The MKCOL reply: 409 when anything is already stored under the target
/// prefix, 204 otherwise.
pub fn mkcol_response(occupied: bool) -> (r: DavResponse)
    ensures
        r.content_type is None,
        r.content_length is None,
        r.etag is None,
        r.location is None,
        r.dav is None,
        r.allow is None,
        r.status == (if occupied {
            409u16
        } else {
            204u16
        }),
        r.body is Empty,
{
    if occupied {
        error_response(DavError::Conflict)
    } else {
        bare_response(204)
    }
}

/// A successful PROPFIND: 207 with the rendered multistatus document.
pub fn propfind_response(bucket: &str, subject: &MetadataView) -> (r: DavResponse)
    ensures
        r.content_length is None,
        r.etag is None,
        r.location is None,
        r.dav is None,
        r.allow is None,
        r.status == 207,
        r.content_type matches Some(ct) && ct@ == "text/xml"@,
        r.body matches ResponseBody::Text(t) && t@ == (match subject {
            MetadataView::Single(m) => spec_multistatus_single(bucket@, m@),
            MetadataView::Collection(l) => spec_multistatus_collection(
                bucket@,
                l.collection@,
                l.children_view(),
            ),
        }),
{
    let document = render_multistatus(bucket, subject);
    let mut r = bare_response(207);
    r.content_type = Some(String::from_str("text/xml"));
    r.body = ResponseBody::Text(document);
    r
}

/// A PROPFIND whose key is neither a collection nor an object.
pub fn propfind_not_found_response() -> (r: DavResponse)
    ensures
        r.content_type is None,
        r.content_length is None,
        r.etag is None,
        r.location is None,
        r.dav is None,
        r.allow is None,
        r.status == 404,
        r.body is Empty,
{
    error_response(DavError::NotFound)
}

/// One inbound request, as plain values: the verb, the `/{bucket}/{path}`
/// URL parts, the request body and the Basic-Auth credentials, if any.
pub struct GatewayRequest {
    pub verb: Verb,
    pub bucket: String,
    pub key: String,
    pub body: Vec<u8>,
    pub credentials: Option<Credentials>,
}

/// Whether a request clears the provider: fixed-credential deployments take
/// every request; per-request deployments need non-empty credentials.
pub open spec fn spec_authorized(mode: DeploymentMode, credentials: Option<Credentials>) -> bool {
    match mode {
        DeploymentMode::Fixed(_) => true,
        DeploymentMode::PerRequest(_) => match credentials {
            Some(c) => c.spec_accepted(),
            None => false,
        },
    }
}

/// The ETag the harness store reports for a stored body: its length in
/// decimal, quoted. Deterministic and never empty.
pub open spec fn spec_harness_etag(n: u64) -> Seq<char> {
    "\""@ + spec_dec(n as nat) + "\""@
}

fn harness_etag(n: u64) -> (r: String)
    ensures
        r@ == spec_harness_etag(n),
{
    let mut r = String::from_str("\"");
    let digits = u64_to_dec(n);
    r.append(digits.as_str());
    r.append("\"");
    proof {
        assert(r@ =~= spec_harness_etag(n));
    }
    r
}

/// Serve one request against the in-memory store: the same decision chain
/// the gateway runs against the real backend, with the store standing in for
/// it. The contract pins, for every verb, both the reply and the store's new
/// state.
pub fn handle_request(mode: &DeploymentMode, store: &mut MemoryStore, req: &GatewayRequest) -> (r:
    DavResponse)
    requires
        old(store).wf(),
    ensures
        final(store).wf(),
        !spec_authorized(*mode, req.credentials) ==> r.status == 401 && final(store)@ == old(
            store,
        )@,
        spec_authorized(*mode, req.credentials) ==> match req.verb {
            Verb::Get => final(store)@ == old(store)@ && (if old(store)@.dom().contains(req.key@) {
                &&& r.status == 200
                &&& r.body matches ResponseBody::Bytes(b) && b@ == old(store)@[req.key@]
                &&& r.content_length == Some(old(store)@[req.key@].len() as u64)
                &&& r.content_type matches Some(ct) && ct@ == "application/octet-stream"@
            } else {
                &&& r.status == 404
                &&& r.body matches ResponseBody::Text(t) && t@ == "File not found"@
            }),
            Verb::Head => final(store)@ == old(store)@ && r.status == 200,
            Verb::Put => {
                if req.body@.len() > MAX_UPLOAD_BYTES {
                    &&& r.status == 400
                    &&& final(store)@ == old(store)@
                } else {
                    &&& r.status == 201
                    &&& final(store)@ == old(store)@.insert(req.key@, req.body@)
                    &&& r.etag matches Some(e) && e@ == spec_harness_etag(req.body@.len() as u64)
                    &&& r.location matches Some(l) && l@ == "/"@ + req.bucket@ + req.key@
                }
            },
            Verb::Delete => r.status == 204 && final(store)@ == old(store)@.remove(req.key@),
            Verb::Propfind => final(store)@ == old(store)@ && (if spec_is_collection(
                old(store)@,
                req.key@,
            ) {
                &&& r.status == 207
                &&& r.body matches ResponseBody::Text(t) && t@ == spec_multistatus_collection(
                    req.bucket@,
                    MetaView::folder(spec_listing_prefix(req.key@)),
                    spec_children(old(store).entries_view(), spec_listing_prefix(req.key@)),
                )
            } else if old(store)@.dom().contains(req.key@) {
                &&& r.status == 207
                &&& r.body matches ResponseBody::Text(t) && t@ == spec_multistatus_single(
                    req.bucket@,
                    MetaView::file(req.key@, old(store)@[req.key@].len() as u64),
                )
            } else {
                r.status == 404 && r.body is Empty
            }),
            Verb::Mkcol => final(store)@ == old(store)@ && r.status == (if exists|k: Seq<char>|
                #[trigger] old(store)@.dom().contains(k) && spec_starts_with(k, req.key@) {
                409u16
            } else {
                204u16
            }),
            Verb::Copy => final(store)@ == old(store)@ && r.status == 501,
            Verb::Move => final(store)@ == old(store)@ && r.status == 501,
            Verb::Options => {
                &&& final(store)@ == old(store)@
                &&& r.status == 200
                &&& r.dav matches Some(d) && d@ == "1"@
                &&& r.allow matches Some(a) && a@
                    == "GET, HEAD, PUT, DELETE, OPTIONS, PROPFIND, MKCOL, COPY, MOVE"@
            },
        },
{
    let resolved = resolve_backend(mode, &req.credentials);
    if resolved.is_err() {
        return unauthorized_response();
    }
    match req.verb {
        Verb::Get => {
            match store.get(req.key.as_str()) {
                Some(b) => {
                    let bytes = copy_bytes(b);
                    get_success_response(bytes, None)
                },
                None => get_not_found_response(),
            }
        },
        Verb::Head => plain_ok_response(),
        Verb::Put => {
            if req.body.len() as u64 > MAX_UPLOAD_BYTES {
                payload_too_large_response()
            } else {
                let bytes = copy_bytes(&req.body);
                store.put(req.key.as_str(), bytes);
                let etag = harness_etag(req.body.len() as u64);
                put_success_response(req.bucket.as_str(), req.key.as_str(), Some(etag))
            }
        },
        Verb::Delete => {
            store.delete(req.key.as_str());
            delete_success_response()
        },
        Verb::Propfind => {
            if store.is_collection(req.key.as_str()) {
                let prefix = listing_prefix(req.key.as_str());
                let children = store.list_children(prefix.as_str());
                let listing = CollectionListing {
                    collection: ResourceMetadata::folder(prefix),
                    children,
                };
                propfind_response(req.bucket.as_str(), &MetadataView::Collection(listing))
            } else {
                match store.get(req.key.as_str()) {
                    Some(b) => {
                        let size = b.len() as u64;
                        let meta = ResourceMetadata::file(req.key.clone(), size);
                        propfind_response(req.bucket.as_str(), &MetadataView::Single(meta))
                    },
                    None => propfind_not_found_response(),
                }
            }
        },
        Verb::Mkcol => {
            let occupied = store.contains_prefixed(req.key.as_str());
            mkcol_response(occupied)
        },
        Verb::Copy => not_implemented_response(),
        Verb::Move => not_implemented_response(),
        Verb::Options => options_response(),
    }
}

/// Law (write-then-read): a PUT that fits the ceiling stores exactly the
/// bytes sent, so the GET that follows it finds the key and returns a
/// byte-identical body -- `handle_request`'s PUT clause ends in the store
/// `m.insert(k, b)`, and its GET clause returns the store's value at `k`
/// with that value's length.
pub proof fn lemma_put_then_get(m: Map<Seq<char>, Seq<u8>>, k: Seq<char>, b: Seq<u8>)
    ensures
        m.insert(k, b).dom().contains(k),
        m.insert(k, b)[k] == b,
{
}

/// Law (delete idempotence): deleting an absent key leaves the store as it
/// was, and `handle_request`'s DELETE clause replies 204 unconditionally.
pub proof fn lemma_delete_absent_is_noop(m: Map<Seq<char>, Seq<u8>>, k: Seq<char>)
    requires
        !m.dom().contains(k),
    ensures
        m.remove(k) == m,
{
    assert(m.remove(k) =~= m);
}

} // verus!
