use s3dav::dispatch::error_response;
use s3dav::dispatch::parse_verb;
use s3dav::model::ResponseBody;
use s3dav::dispatch::Verb;
use s3dav::error::DavError;
use s3dav::model::credentials_accepted;
use s3dav::model::normalize_content_type;
use s3dav::model::present_keys;
use s3dav::model::Credentials;
use s3dav::paths::find_slash_from;
use s3dav::paths::get_filename_from_path;
use s3dav::paths::listing_prefix;
use s3dav::provider::resolve_backend;
use s3dav::provider::BackendSpec;
use s3dav::provider::DeploymentMode;
use s3dav::provider::EndpointConfig;
use s3dav::store::MemoryStore;
use s3dav::text::ends_with_char;
use s3dav::text::starts_with_str;
use s3dav::text::str_eq;
use s3dav::text::u64_to_dec;

#[test]
fn filename_is_the_final_segment() {
    assert_eq!(get_filename_from_path("a/b/c.txt").as_deref(), Some("c.txt"));
    assert_eq!(get_filename_from_path("a/b/").as_deref(), Some("b"));
    assert_eq!(get_filename_from_path("name").as_deref(), Some("name"));
    assert_eq!(get_filename_from_path("folder///").as_deref(), Some("folder"));
    assert_eq!(get_filename_from_path(""), None);
    assert_eq!(get_filename_from_path("///"), None);
}

#[test]
fn listing_prefix_normalizes_to_trailing_slash() {
    assert_eq!(listing_prefix("docs"), "docs/");
    assert_eq!(listing_prefix("docs/"), "docs/");
    assert_eq!(listing_prefix(""), "");
    assert_eq!(listing_prefix("a/b"), "a/b/");
}

#[test]
fn decimal_rendering_is_exact() {
    assert_eq!(u64_to_dec(0), "0");
    assert_eq!(u64_to_dec(7), "7");
    assert_eq!(u64_to_dec(10), "10");
    assert_eq!(u64_to_dec(1234567890), "1234567890");
    assert_eq!(u64_to_dec(u64::MAX), "18446744073709551615");
}

#[test]
fn string_utilities_compare_by_characters() {
    assert!(str_eq("abc", "abc"));
    assert!(!str_eq("abc", "abd"));
    assert!(!str_eq("abc", "ab"));
    assert!(starts_with_str("abcdef", "abc"));
    assert!(starts_with_str("abc", ""));
    assert!(!starts_with_str("ab", "abc"));
    assert!(ends_with_char("docs/", '/'));
    assert!(!ends_with_char("docs", '/'));
    assert!(!ends_with_char("", '/'));
}

#[test]
fn slash_search_finds_the_first_slash() {
    assert_eq!(find_slash_from("a/b/c", 0), 1);
    assert_eq!(find_slash_from("a/b/c", 2), 3);
    assert_eq!(find_slash_from("abc", 0), 3);
    assert_eq!(find_slash_from("abc", 3), 3);
}

#[test]
fn verbs_parse_exactly() {
    assert_eq!(parse_verb("GET"), Some(Verb::Get));
    assert_eq!(parse_verb("HEAD"), Some(Verb::Head));
    assert_eq!(parse_verb("PUT"), Some(Verb::Put));
    assert_eq!(parse_verb("DELETE"), Some(Verb::Delete));
    assert_eq!(parse_verb("OPTIONS"), Some(Verb::Options));
    assert_eq!(parse_verb("PROPFIND"), Some(Verb::Propfind));
    assert_eq!(parse_verb("MKCOL"), Some(Verb::Mkcol));
    assert_eq!(parse_verb("COPY"), Some(Verb::Copy));
    assert_eq!(parse_verb("MOVE"), Some(Verb::Move));
    assert_eq!(parse_verb("PATCH"), None);
    assert_eq!(parse_verb("get"), None);
    assert_eq!(parse_verb(""), None);
}

#[test]
fn content_type_defaults_to_octet_stream() {
    assert_eq!(normalize_content_type(None), "application/octet-stream");
    assert_eq!(normalize_content_type(Some(String::from("text/plain"))), "text/plain");
}

#[test]
fn present_keys_skips_absent_entries() {
    let keys = vec![
        Some(String::from("a")),
        None,
        Some(String::from("b/c")),
        None,
    ];
    assert_eq!(present_keys(&keys), vec![String::from("a"), String::from("b/c")]);
    assert_eq!(present_keys(&Vec::new()), Vec::<String>::new());
}

#[test]
fn credentials_need_both_parts() {
    assert!(credentials_accepted("user", "pass"));
    assert!(!credentials_accepted("", "pass"));
    assert!(!credentials_accepted("user", ""));
    assert!(!credentials_accepted("", ""));
}

#[test]
fn every_error_maps_to_one_status() {
    assert_eq!(DavError::AuthenticationRequired.http_status(), 401);
    assert_eq!(DavError::NotFound.http_status(), 404);
    assert_eq!(DavError::Conflict.http_status(), 409);
    assert_eq!(DavError::PayloadTooLarge.http_status(), 400);
    assert_eq!(DavError::BackendError.http_status(), 500);
    assert_eq!(DavError::NotImplemented.http_status(), 501);
}

#[test]
fn error_responses_carry_only_their_status() {
    let errors = [
        DavError::AuthenticationRequired,
        DavError::NotFound,
        DavError::Conflict,
        DavError::PayloadTooLarge,
        DavError::BackendError,
        DavError::NotImplemented,
    ];
    for e in errors {
        let r = error_response(e);
        assert_eq!(r.status, e.http_status());
        assert!(matches!(r.body, ResponseBody::Empty));
        assert!(r.content_type.is_none());
        assert!(r.etag.is_none());
        assert!(r.location.is_none());
    }
}

#[test]
fn fixed_mode_ignores_request_credentials() {
    let mode = DeploymentMode::Fixed(BackendSpec {
        config: EndpointConfig {
            endpoint: String::from("http://e"),
            region: String::from("r"),
            force_path_style: false,
        },
        access_key: String::from("ak"),
        secret_key: String::from("sk"),
    });
    let resolved = resolve_backend(&mode, &None).expect("fixed mode always resolves");
    assert_eq!(resolved.access_key, "ak");
    assert_eq!(resolved.secret_key, "sk");
    assert_eq!(resolved.config.endpoint, "http://e");
}

#[test]
fn per_request_mode_builds_from_credentials() {
    let mode = DeploymentMode::PerRequest(EndpointConfig {
        endpoint: String::from("http://e"),
        region: String::from("r"),
        force_path_style: true,
    });
    let creds = Some(Credentials {
        access_key: String::from("me"),
        secret_key: String::from("secret"),
    });
    let resolved = resolve_backend(&mode, &creds).expect("full credentials resolve");
    assert_eq!(resolved.access_key, "me");
    assert_eq!(resolved.secret_key, "secret");
    assert!(resolved.config.force_path_style);

    let missing = resolve_backend(&mode, &None);
    assert_eq!(missing.unwrap_err(), DavError::AuthenticationRequired);

    let empty = resolve_backend(
        &mode,
        &Some(Credentials { access_key: String::new(), secret_key: String::from("x") }),
    );
    assert_eq!(empty.unwrap_err(), DavError::AuthenticationRequired);
}

#[test]
fn store_heuristic_follows_the_prefix_rule() {
    let mut store = MemoryStore::new();
    assert!(store.is_collection(""));
    store.put("docs/a.txt", b"x".to_vec());
    assert!(store.is_collection("docs"));
    assert!(store.is_collection("docs/"));
    assert!(!store.is_collection("docs/a.txt"));
    store.put("file.txt", b"y".to_vec());
    assert!(!store.is_collection("file.txt"));
    assert!(!store.is_collection("missing"));
    store.delete("docs/a.txt");
    // an emptied folder is indistinguishable from an absent path
    assert!(!store.is_collection("docs"));
}
