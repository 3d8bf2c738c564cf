use s3dav::model::CollectionListing;
use s3dav::model::MetadataView;
use s3dav::model::ResourceMetadata;
use s3dav::render::escape_xml;
use s3dav::render::render_multistatus;

fn count_occurrences(haystack: &str, needle: &str) -> usize {
    let mut count: usize = 0;
    let mut rest = haystack;
    while let Some(pos) = rest.find(needle) {
        count += 1;
        rest = &rest[pos + needle.len()..];
    }
    count
}

#[test]
fn empty_collection_renders_exactly_one_response() {
    let listing = CollectionListing {
        collection: ResourceMetadata::folder(String::from("docs/")),
        children: Vec::new(),
    };
    let xml = render_multistatus("bucket", &MetadataView::Collection(listing));
    assert_eq!(count_occurrences(&xml, "<response>"), 1);
    assert_eq!(
        xml,
        "<multistatus xmlns=\"DAV:\"><response><href>/bucket/docs/</href><propstat><prop>\
         <displayname>docs</displayname><resourcetype><collection></collection></resourcetype>\
         </prop><status>HTTP/1.1 200 OK</status></propstat></response></multistatus>"
    );
}

#[test]
fn single_resource_renders_exact_document() {
    let meta = ResourceMetadata::file(String::from("a.txt"), 5);
    let xml = render_multistatus("b", &MetadataView::Single(meta));
    assert_eq!(
        xml,
        "<multistatus xmlns=\"DAV:\"><response><href>/b/a.txt</href><propstat><prop>\
         <displayname>a.txt</displayname><getcontentlength>5</getcontentlength>\
         <getlastmodified>Thu, 01 Jan 1970 00:00:00 GMT</getlastmodified>\
         <resourcetype></resourcetype></prop><status>HTTP/1.1 200 OK</status></propstat>\
         </response></multistatus>"
    );
}

#[test]
fn collection_renders_folders_before_files() {
    let listing = CollectionListing {
        collection: ResourceMetadata::folder(String::from("a/")),
        children: vec![
            ResourceMetadata::folder(String::from("a/sub/")),
            ResourceMetadata::file(String::from("a/file.txt"), 3),
        ],
    };
    let xml = render_multistatus("bkt", &MetadataView::Collection(listing));
    assert_eq!(count_occurrences(&xml, "<response>"), 3);
    let folder_pos = xml.find("/bkt/a/sub/").unwrap();
    let file_pos = xml.find("/bkt/a/file.txt").unwrap();
    assert!(folder_pos < file_pos);
    // folder children display their basename with the trailing slash dropped
    assert!(xml.contains("<displayname>sub</displayname>"));
    assert!(xml.contains("<displayname>file.txt</displayname>"));
    // one collection marker for the listing's own response and one per folder
    assert_eq!(count_occurrences(&xml, "<collection></collection>"), 2);
}

#[test]
fn stored_last_modified_is_rendered() {
    let meta = ResourceMetadata {
        key: String::from("doc.txt"),
        size: 1,
        content_type: None,
        last_modified: Some(String::from("Tue, 02 Feb 2021 03:04:05 GMT")),
        etag: None,
        is_collection: false,
    };
    let xml = render_multistatus("b", &MetadataView::Single(meta));
    assert!(xml.contains("<getlastmodified>Tue, 02 Feb 2021 03:04:05 GMT</getlastmodified>"));
    assert!(!xml.contains("Thu, 01 Jan 1970"));
}

#[test]
fn text_content_is_escaped() {
    assert_eq!(escape_xml("a<b>&\"'"), "a&lt;b&gt;&amp;&quot;&apos;");
    assert_eq!(escape_xml(""), "");
    assert_eq!(escape_xml("plain"), "plain");
}

#[test]
fn keys_with_markup_are_escaped_in_documents() {
    let meta = ResourceMetadata::file(String::from("odd<response>.txt"), 1);
    let xml = render_multistatus("b", &MetadataView::Single(meta));
    assert_eq!(count_occurrences(&xml, "<response>"), 1);
    assert!(xml.contains("odd&lt;response&gt;.txt"));
}
