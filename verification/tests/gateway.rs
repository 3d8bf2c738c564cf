use s3dav::dispatch::handle_request;
use s3dav::dispatch::GatewayRequest;
use s3dav::dispatch::Verb;
use s3dav::dispatch::MAX_UPLOAD_BYTES;
use s3dav::model::Credentials;
use s3dav::model::ResponseBody;
use s3dav::provider::DeploymentMode;
use s3dav::provider::EndpointConfig;
use s3dav::provider::BackendSpec;
use s3dav::store::MemoryStore;

fn endpoint() -> EndpointConfig {
    EndpointConfig {
        endpoint: String::from("http://localhost:9000"),
        region: String::from("us-east-1"),
        force_path_style: true,
    }
}

fn fixed_mode() -> DeploymentMode {
    DeploymentMode::Fixed(BackendSpec {
        config: endpoint(),
        access_key: String::from("fixed-user"),
        secret_key: String::from("fixed-pass"),
    })
}

fn request(verb: Verb, bucket: &str, key: &str, body: &[u8]) -> GatewayRequest {
    GatewayRequest {
        verb,
        bucket: String::from(bucket),
        key: String::from(key),
        body: body.to_vec(),
        credentials: Some(Credentials {
            access_key: String::from("user"),
            secret_key: String::from("pass"),
        }),
    }
}

fn count_occurrences(haystack: &str, needle: &str) -> usize {
    let mut count: usize = 0;
    let mut rest = haystack;
    while let Some(pos) = rest.find(needle) {
        count += 1;
        rest = &rest[pos + needle.len()..];
    }
    count
}

fn body_text(body: &ResponseBody) -> &str {
    match body {
        ResponseBody::Text(t) => t.as_str(),
        _ => panic!("expected a text body"),
    }
}

#[test]
fn put_then_get_returns_identical_bytes() {
    let mode = fixed_mode();
    let mut store = MemoryStore::new();
    let put = handle_request(&mode, &mut store, &request(Verb::Put, "b", "k.txt", b"payload"));
    assert_eq!(put.status, 201);
    let get = handle_request(&mode, &mut store, &request(Verb::Get, "b", "k.txt", b""));
    assert_eq!(get.status, 200);
    assert_eq!(get.content_length, Some(7));
    match get.body {
        ResponseBody::Bytes(b) => assert_eq!(b, b"payload".to_vec()),
        _ => panic!("expected bytes"),
    }
}

#[test]
fn example_scenario_docs_bucket() {
    let mode = fixed_mode();
    let mut store = MemoryStore::new();

    let put = handle_request(
        &mode,
        &mut store,
        &request(Verb::Put, "docs", "docs/a.txt", b"hello"),
    );
    assert_eq!(put.status, 201);
    let etag = put.etag.expect("a PUT reply carries an ETag");
    assert!(!etag.is_empty());

    let get = handle_request(&mode, &mut store, &request(Verb::Get, "docs", "docs/a.txt", b""));
    assert_eq!(get.status, 200);
    assert_eq!(get.content_length, Some(5));
    match get.body {
        ResponseBody::Bytes(b) => assert_eq!(b, b"hello".to_vec()),
        _ => panic!("expected bytes"),
    }

    let propfind = handle_request(&mode, &mut store, &request(Verb::Propfind, "docs", "docs/", b""));
    assert_eq!(propfind.status, 207);
    let xml = body_text(&propfind.body);
    assert_eq!(count_occurrences(xml, "<response>"), 2);
    assert!(xml.contains("<getcontentlength>5</getcontentlength>"));
    assert!(xml.contains("<href>/docs/docs/a.txt</href>"));
    assert!(xml.contains("<displayname>a.txt</displayname>"));
}

#[test]
fn propfind_lists_one_level_only() {
    let mode = fixed_mode();
    let mut store = MemoryStore::new();
    for (key, body) in [
        ("a/b.txt", b"one".as_slice()),
        ("a/c/d.txt", b"two".as_slice()),
        ("a/c/e/f.txt", b"three".as_slice()),
    ] {
        let r = handle_request(&mode, &mut store, &request(Verb::Put, "bkt", key, body));
        assert_eq!(r.status, 201);
    }
    let propfind = handle_request(&mode, &mut store, &request(Verb::Propfind, "bkt", "a", b""));
    assert_eq!(propfind.status, 207);
    let xml = body_text(&propfind.body);
    // the collection itself, the folder a/c/ and the file a/b.txt
    assert_eq!(count_occurrences(xml, "<response>"), 3);
    assert!(xml.contains("<href>/bkt/a/c/</href>"));
    assert!(xml.contains("<href>/bkt/a/b.txt</href>"));
    assert!(!xml.contains("d.txt"));
    assert!(!xml.contains("f.txt"));
    // folders come before files
    let folder_pos = xml.find("/bkt/a/c/").unwrap();
    let file_pos = xml.find("/bkt/a/b.txt").unwrap();
    assert!(folder_pos < file_pos);
}

#[test]
fn propfind_single_resource() {
    let mode = fixed_mode();
    let mut store = MemoryStore::new();
    let put = handle_request(&mode, &mut store, &request(Verb::Put, "b", "solo.txt", b"data"));
    assert_eq!(put.status, 201);
    let propfind = handle_request(&mode, &mut store, &request(Verb::Propfind, "b", "solo.txt", b""));
    assert_eq!(propfind.status, 207);
    let xml = body_text(&propfind.body);
    assert_eq!(count_occurrences(xml, "<response>"), 1);
    assert!(xml.contains("<getcontentlength>4</getcontentlength>"));
    assert!(xml.contains("<resourcetype></resourcetype>"));
}

#[test]
fn propfind_missing_key_is_404() {
    let mode = fixed_mode();
    let mut store = MemoryStore::new();
    let propfind = handle_request(&mode, &mut store, &request(Verb::Propfind, "b", "ghost", b""));
    assert_eq!(propfind.status, 404);
}

#[test]
fn propfind_root_of_empty_store_is_a_collection() {
    let mode = fixed_mode();
    let mut store = MemoryStore::new();
    let propfind = handle_request(&mode, &mut store, &request(Verb::Propfind, "b", "", b""));
    assert_eq!(propfind.status, 207);
    let xml = body_text(&propfind.body);
    assert_eq!(count_occurrences(xml, "<response>"), 1);
    // the root's displayname falls back to the bucket's name
    assert!(xml.contains("<displayname>b</displayname>"));
}

#[test]
fn mkcol_on_empty_prefix_is_204() {
    let mode = fixed_mode();
    let mut store = MemoryStore::new();
    let mkcol = handle_request(&mode, &mut store, &request(Verb::Mkcol, "b", "newdir", b""));
    assert_eq!(mkcol.status, 204);
}

#[test]
fn mkcol_on_occupied_prefix_is_409() {
    let mode = fixed_mode();
    let mut store = MemoryStore::new();
    let put = handle_request(&mode, &mut store, &request(Verb::Put, "b", "dir/x.txt", b"x"));
    assert_eq!(put.status, 201);
    let mkcol = handle_request(&mode, &mut store, &request(Verb::Mkcol, "b", "dir", b""));
    assert_eq!(mkcol.status, 409);
}

#[test]
fn delete_is_idempotent() {
    let mode = fixed_mode();
    let mut store = MemoryStore::new();
    let first = handle_request(&mode, &mut store, &request(Verb::Delete, "b", "absent", b""));
    assert_eq!(first.status, 204);
    let put = handle_request(&mode, &mut store, &request(Verb::Put, "b", "k", b"v"));
    assert_eq!(put.status, 201);
    let second = handle_request(&mode, &mut store, &request(Verb::Delete, "b", "k", b""));
    assert_eq!(second.status, 204);
    let third = handle_request(&mode, &mut store, &request(Verb::Delete, "b", "k", b""));
    assert_eq!(third.status, 204);
    let get = handle_request(&mode, &mut store, &request(Verb::Get, "b", "k", b""));
    assert_eq!(get.status, 404);
}

#[test]
fn get_missing_key_is_404() {
    let mode = fixed_mode();
    let mut store = MemoryStore::new();
    let get = handle_request(&mode, &mut store, &request(Verb::Get, "b", "none", b""));
    assert_eq!(get.status, 404);
    match get.body {
        ResponseBody::Text(t) => assert_eq!(t, "File not found"),
        _ => panic!("expected text"),
    }
}

#[test]
fn get_reports_default_content_type() {
    let mode = fixed_mode();
    let mut store = MemoryStore::new();
    handle_request(&mode, &mut store, &request(Verb::Put, "b", "k", b"v"));
    let get = handle_request(&mode, &mut store, &request(Verb::Get, "b", "k", b""));
    assert_eq!(get.content_type.as_deref(), Some("application/octet-stream"));
}

#[test]
fn put_reports_location_and_etag() {
    let mode = fixed_mode();
    let mut store = MemoryStore::new();
    let put = handle_request(&mode, &mut store, &request(Verb::Put, "bucket", "path/file", b"abc"));
    assert_eq!(put.status, 201);
    assert_eq!(put.location.as_deref(), Some("/bucketpath/file"));
    assert_eq!(put.etag.as_deref(), Some("\"3\""));
}

#[test]
fn copy_and_move_are_not_implemented() {
    let mode = fixed_mode();
    let mut store = MemoryStore::new();
    let copy = handle_request(&mode, &mut store, &request(Verb::Copy, "b", "k", b""));
    assert_eq!(copy.status, 501);
    let mv = handle_request(&mode, &mut store, &request(Verb::Move, "b", "k", b""));
    assert_eq!(mv.status, 501);
}

#[test]
fn options_advertises_the_verb_set() {
    let mode = fixed_mode();
    let mut store = MemoryStore::new();
    let options = handle_request(&mode, &mut store, &request(Verb::Options, "b", "k", b""));
    assert_eq!(options.status, 200);
    assert_eq!(options.dav.as_deref(), Some("1"));
    let allow = options.allow.expect("OPTIONS advertises the allowed verbs");
    for verb in ["GET", "HEAD", "PUT", "DELETE", "OPTIONS", "PROPFIND", "MKCOL", "COPY", "MOVE"] {
        assert!(allow.contains(verb));
    }
}

#[test]
fn head_is_plain_ok() {
    let mode = fixed_mode();
    let mut store = MemoryStore::new();
    let head = handle_request(&mode, &mut store, &request(Verb::Head, "b", "k", b""));
    assert_eq!(head.status, 200);
}

#[test]
fn per_request_mode_rejects_missing_credentials() {
    let mode = DeploymentMode::PerRequest(endpoint());
    let mut store = MemoryStore::new();
    let mut req = request(Verb::Get, "b", "k", b"");
    req.credentials = None;
    let r = handle_request(&mode, &mut store, &req);
    assert_eq!(r.status, 401);
}

#[test]
fn per_request_mode_rejects_empty_credentials() {
    let mode = DeploymentMode::PerRequest(endpoint());
    let mut store = MemoryStore::new();
    let mut req = request(Verb::Put, "b", "k", b"v");
    req.credentials = Some(Credentials {
        access_key: String::from("user"),
        secret_key: String::from(""),
    });
    let r = handle_request(&mode, &mut store, &req);
    assert_eq!(r.status, 401);
    // the rejected PUT stored nothing
    let get = handle_request(&fixed_mode(), &mut store, &request(Verb::Get, "b", "k", b""));
    assert_eq!(get.status, 404);
}

#[test]
fn per_request_mode_accepts_full_credentials() {
    let mode = DeploymentMode::PerRequest(endpoint());
    let mut store = MemoryStore::new();
    let r = handle_request(&mode, &mut store, &request(Verb::Put, "b", "k", b"v"));
    assert_eq!(r.status, 201);
}

#[test]
fn upload_ceiling_is_ten_gibibytes() {
    assert_eq!(MAX_UPLOAD_BYTES, 10_737_418_240);
}
