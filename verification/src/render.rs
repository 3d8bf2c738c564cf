//! The multistatus XML builder: a pure renderer from resource metadata to a
//! WebDAV `multistatus` document, exact to the character. Folders come first,
//! then files; every `propstat` status is the literal `HTTP/1.1 200 OK`; a
//! missing last-modified field is substituted with a fixed placeholder, so
//! rendering never fails.

use vstd::prelude::*;
use vstd::string::StrSliceExecFns;
use vstd::string::StringExecFns;
use crate::model::CollectionListing;
use crate::model::MetaView;
use crate::model::MetadataView;
use crate::model::ResourceMetadata;
use crate::paths::get_filename_from_path;
use crate::paths::spec_basename;
use crate::text::spec_dec;
use crate::text::spec_digit_char;
use crate::text::spec_ends_with;
use crate::text::spec_starts_with;
use crate::text::u64_to_dec;

verus! {

/// The characters that XML text content cannot carry verbatim.
pub open spec fn spec_is_xml_special(c: char) -> bool {
    c == '<' || c == '>' || c == '&' || c == '"' || c == '\''
}

/// The escape of one character in XML text content.
pub open spec fn spec_escape_char(c: char) -> Seq<char> {
    if c == '<' {
        "&lt;"@
    } else if c == '>' {
        "&gt;"@
    } else if c == '&' {
        "&amp;"@
    } else if c == '"' {
        "&quot;"@
    } else if c == '\'' {
        "&apos;"@
    } else {
        seq![c]
    }
}

/// The XML text escape of a whole sequence.
pub open spec fn spec_escape(s: Seq<char>) -> Seq<char>
    decreases s.len(),
{
    if s.len() == 0 {
        Seq::empty()
    } else {
        spec_escape(s.drop_last()) + spec_escape_char(s[s.len() - 1])
    }
}

proof fn lemma_escape_concat(a: Seq<char>, b: Seq<char>)
    ensures
        spec_escape(a + b) == spec_escape(a) + spec_escape(b),
    decreases b.len(),
{
    if b.len() == 0 {
        assert(a + b =~= a);
        assert(spec_escape(a) + spec_escape(b) =~= spec_escape(a));
    } else {
        lemma_escape_concat(a, b.drop_last());
        assert((a + b).drop_last() =~= a + b.drop_last());
        assert((a + b)[(a + b).len() - 1] == b[b.len() - 1]);
        assert(spec_escape(a) + spec_escape(b.drop_last()) + spec_escape_char(b[b.len() - 1])
            =~= spec_escape(a) + spec_escape(b));
    }
}

proof fn lemma_escape_plain(s: Seq<char>)
    requires
        forall|j: int| 0 <= j < s.len() ==> !spec_is_xml_special(s[j]),
    ensures
        spec_escape(s) == s,
    decreases s.len(),
{
    if s.len() == 0 {
        assert(spec_escape(s) =~= s);
    } else {
        lemma_escape_plain(s.drop_last());
        assert(spec_escape_char(s[s.len() - 1]) =~= seq![s[s.len() - 1]]);
        assert(s.drop_last() + seq![s[s.len() - 1]] =~= s);
    }
}

/// Escape `s` for use as XML text content.
pub fn escape_xml(s: &str) -> (r: String)
    ensures
        r@ == spec_escape(s@),
{
    let len = s.unicode_len();
    let mut out = String::new();
    let mut start: usize = 0;
    let mut i: usize = 0;
    while i < len
        invariant
            start <= i <= len,
            len == s@.len(),
            out@ == spec_escape(s@.subrange(0, start as int)),
            forall|j: int| start <= j < i ==> !spec_is_xml_special(s@[j]),
        decreases len - i,
    {
        let c = s.get_char(i);
        if c == '<' || c == '>' || c == '&' || c == '"' || c == '\'' {
            let run = s.substring_char(start, i);
            out.append(run);
            let entity = if c == '<' {
                "&lt;"
            } else if c == '>' {
                "&gt;"
            } else if c == '&' {
                "&amp;"
            } else if c == '"' {
                "&quot;"
            } else {
                "&apos;"
            };
            out.append(entity);
            proof {
                lemma_escape_plain(s@.subrange(start as int, i as int));
                lemma_escape_concat(s@.subrange(0, start as int), s@.subrange(start as int, i as int));
                assert(s@.subrange(0, start as int) + s@.subrange(start as int, i as int)
                    =~= s@.subrange(0, i as int));
                lemma_escape_concat(s@.subrange(0, i as int), seq![c]);
                assert(s@.subrange(0, i as int) + seq![c] =~= s@.subrange(0, i as int + 1));
                assert(seq![c].drop_last() =~= Seq::<char>::empty());
                assert(spec_escape(seq![c]) == spec_escape(seq![c].drop_last())
                    + spec_escape_char(seq![c][0]));
                assert(spec_escape(seq![c]) =~= spec_escape_char(c));
                assert(out@ =~= spec_escape(s@.subrange(0, i as int + 1)));
            }
            start = i + 1;
        }
        i = i + 1;
    }
    let run = s.substring_char(start, len);
    out.append(run);
    proof {
        lemma_escape_plain(s@.subrange(start as int, len as int));
        lemma_escape_concat(s@.subrange(0, start as int), s@.subrange(start as int, len as int));
        assert(s@.subrange(0, start as int) + s@.subrange(start as int, len as int) =~= s@);
    }
    out
}

/// The placeholder rendered when the backend reported no last-modified time.
pub open spec fn spec_last_modified_text(lm: Option<Seq<char>>) -> Seq<char> {
    match lm {
        Some(t) => spec_escape(t),
        None => spec_escape("Thu, 01 Jan 1970 00:00:00 GMT"@),
    }
}

/// The `href` of a resource: `/{bucket}/{key}`, both parts escaped.
pub open spec fn spec_href(bucket: Seq<char>, key: Seq<char>) -> Seq<char> {
    "/"@ + spec_escape(bucket) + "/"@ + spec_escape(key)
}

/// The displayname of a collection: its own basename, or the bucket's name
/// for the bucket root (whose key has no segment).
pub open spec fn spec_collection_name(bucket: Seq<char>, key: Seq<char>) -> Seq<char> {
    if spec_basename(key).len() > 0 {
        spec_basename(key)
    } else {
        bucket
    }
}

/// The `response` fragment of a plain resource.
pub open spec fn spec_file_response(bucket: Seq<char>, m: MetaView) -> Seq<char> {
    "<response>"@ + "<href>"@ + spec_href(bucket, m.key)
        + "</href><propstat><prop><displayname>"@ + spec_escape(spec_basename(m.key))
        + "</displayname><getcontentlength>"@ + spec_dec(m.size as nat)
        + "</getcontentlength><getlastmodified>"@ + spec_last_modified_text(m.last_modified)
        + "</getlastmodified><resourcetype></resourcetype></prop><status>HTTP/1.1 200 OK</status></propstat>"@
        + "</response>"@
}

/// The `response` fragment of a folder, shown under `name`.
pub open spec fn spec_folder_response(bucket: Seq<char>, name: Seq<char>, key: Seq<char>) -> Seq<
    char,
> {
    "<response>"@ + "<href>"@ + spec_href(bucket, key)
        + "</href><propstat><prop><displayname>"@ + spec_escape(name)
        + "</displayname><resourcetype><collection></collection></resourcetype></prop><status>HTTP/1.1 200 OK</status></propstat>"@
        + "</response>"@
}

/// The `response` fragment of one direct child.
pub open spec fn spec_child_response(bucket: Seq<char>, m: MetaView) -> Seq<char> {
    if m.is_collection {
        spec_folder_response(bucket, spec_basename(m.key), m.key)
    } else {
        spec_file_response(bucket, m)
    }
}

/// The `response` fragment of the collection itself.
pub open spec fn spec_collection_response(bucket: Seq<char>, m: MetaView) -> Seq<char> {
    spec_folder_response(bucket, spec_collection_name(bucket, m.key), m.key)
}

/// The concatenated fragments of a child sequence, in listing order.
pub open spec fn spec_children_cat(bucket: Seq<char>, cs: Seq<MetaView>) -> Seq<char>
    decreases cs.len(),
{
    if cs.len() == 0 {
        Seq::empty()
    } else {
        spec_children_cat(bucket, cs.drop_last()) + spec_child_response(bucket, cs.last())
    }
}

/// The opening of every multistatus document.
pub open spec fn spec_document_header() -> Seq<char> {
    "<multistatus xmlns=\"DAV:\">"@
}

/// The whole document for a single (non-collection) resource.
pub open spec fn spec_multistatus_single(bucket: Seq<char>, m: MetaView) -> Seq<char> {
    spec_document_header() + spec_file_response(bucket, m) + "</multistatus>"@
}

/// The whole document for a collection and its direct children.
pub open spec fn spec_multistatus_collection(
    bucket: Seq<char>,
    cm: MetaView,
    cs: Seq<MetaView>,
) -> Seq<char> {
    spec_document_header() + spec_collection_response(bucket, cm) + spec_children_cat(bucket, cs)
        + "</multistatus>"@
}

/// Append `/{bucket}/{key}`, escaped, to `out`.
fn append_href(out: &mut String, bucket: &str, key: &str)
    ensures
        final(out)@ == old(out)@ + spec_href(bucket@, key@),
{
    out.append("/");
    let escaped_bucket = escape_xml(bucket);
    out.append(escaped_bucket.as_str());
    out.append("/");
    let escaped_key = escape_xml(key);
    out.append(escaped_key.as_str());
    proof {
        assert(final(out)@ =~= old(out)@ + spec_href(bucket@, key@));
    }
}

/// Append the escaped basename of `key` to `out`.
fn append_basename(out: &mut String, key: &str)
    ensures
        final(out)@ == old(out)@ + spec_escape(spec_basename(key@)),
{
    match get_filename_from_path(key) {
        Some(name) => {
            let escaped = escape_xml(name.as_str());
            out.append(escaped.as_str());
        },
        None => {
            proof {
                assert(spec_escape(spec_basename(key@)) =~= Seq::<char>::empty());
                assert(old(out)@ + spec_escape(spec_basename(key@)) =~= old(out)@);
            }
        },
    }
}

/// Append the last-modified text, or its placeholder, to `out`.
fn append_last_modified(out: &mut String, lm: &Option<String>)
    ensures
        final(out)@ == old(out)@ + spec_last_modified_text(
            match lm {
                Some(t) => Some(t@),
                None => None,
            },
        ),
{
    match lm {
        Some(t) => {
            let escaped = escape_xml(t.as_str());
            out.append(escaped.as_str());
        },
        None => {
            let escaped = escape_xml("Thu, 01 Jan 1970 00:00:00 GMT");
            out.append(escaped.as_str());
        },
    }
}

/// Append the `response` fragment of a plain resource to `out`.
#[verifier::rlimit(100)]
fn append_file_response(out: &mut String, bucket: &str, m: &ResourceMetadata)
    ensures
        final(out)@ == old(out)@ + spec_file_response(bucket@, m@),
{
    out.append("<response>");
    out.append("<href>");
    append_href(out, bucket, m.key.as_str());
    out.append("</href><propstat><prop><displayname>");
    append_basename(out, m.key.as_str());
    out.append("</displayname><getcontentlength>");
    let size_text = u64_to_dec(m.size);
    out.append(size_text.as_str());
    out.append("</getcontentlength><getlastmodified>");
    append_last_modified(out, &m.last_modified);
    out.append("</getlastmodified><resourcetype></resourcetype></prop><status>HTTP/1.1 200 OK</status></propstat>");
    out.append("</response>");
    proof {
        assert(final(out)@ =~= old(out)@ + spec_file_response(bucket@, m@));
    }
}

/// Append the `response` fragment of a folder shown under `name`.
#[verifier::rlimit(100)]
fn append_folder_response(out: &mut String, bucket: &str, name: &str, key: &str)
    ensures
        final(out)@ == old(out)@ + spec_folder_response(bucket@, name@, key@),
{
    out.append("<response>");
    out.append("<href>");
    append_href(out, bucket, key);
    out.append("</href><propstat><prop><displayname>");
    let escaped = escape_xml(name);
    out.append(escaped.as_str());
    out.append("</displayname><resourcetype><collection></collection></resourcetype></prop><status>HTTP/1.1 200 OK</status></propstat>");
    out.append("</response>");
    proof {
        assert(final(out)@ =~= old(out)@ + spec_folder_response(bucket@, name@, key@));
    }
}

/// Append a child's `response` fragment to `out`.
fn append_child_response(out: &mut String, bucket: &str, m: &ResourceMetadata)
    ensures
        final(out)@ == old(out)@ + spec_child_response(bucket@, m@),
{
    if m.is_collection {
        match get_filename_from_path(m.key.as_str()) {
            Some(name) => append_folder_response(out, bucket, name.as_str(), m.key.as_str()),
            None => {
                let empty = String::new();
                append_folder_response(out, bucket, empty.as_str(), m.key.as_str());
            },
        }
    } else {
        append_file_response(out, bucket, m);
    }
}

/// Append the collection's own `response` fragment to `out`.
fn append_collection_response(out: &mut String, bucket: &str, m: &ResourceMetadata)
    ensures
        final(out)@ == old(out)@ + spec_collection_response(bucket@, m@),
{
    match get_filename_from_path(m.key.as_str()) {
        Some(name) => append_folder_response(out, bucket, name.as_str(), m.key.as_str()),
        None => append_folder_response(out, bucket, bucket, m.key.as_str()),
    }
}

proof fn lemma_file_response_bracketed(bucket: Seq<char>, m: MetaView)
    ensures
        spec_starts_with(spec_file_response(bucket, m), "<response>"@),
        spec_ends_with(spec_file_response(bucket, m), "</response>"@),
{
    let f = spec_file_response(bucket, m);
    assert(f.subrange(0, "<response>"@.len() as int) =~= "<response>"@);
    assert(f.subrange(f.len() - "</response>"@.len(), f.len() as int) =~= "</response>"@);
}

proof fn lemma_folder_response_bracketed(bucket: Seq<char>, name: Seq<char>, key: Seq<char>)
    ensures
        spec_starts_with(spec_folder_response(bucket, name, key), "<response>"@),
        spec_ends_with(spec_folder_response(bucket, name, key), "</response>"@),
{
    let f = spec_folder_response(bucket, name, key);
    assert(f.subrange(0, "<response>"@.len() as int) =~= "<response>"@);
    assert(f.subrange(f.len() - "</response>"@.len(), f.len() as int) =~= "</response>"@);
}

/// The `response` fragments of a collection document: the collection's own,
/// then one per direct child, in listing order.
pub open spec fn spec_response_fragments(
    bucket: Seq<char>,
    cm: MetaView,
    cs: Seq<MetaView>,
) -> Seq<Seq<char>> {
    Seq::new(
        cs.len() + 1,
        |i: int|
            if i == 0 {
                spec_collection_response(bucket, cm)
            } else {
                spec_child_response(bucket, cs[i - 1])
            },
    )
}

proof fn lemma_fragments_flatten(bucket: Seq<char>, cm: MetaView, cs: Seq<MetaView>)
    ensures
        spec_response_fragments(bucket, cm, cs).flatten_alt() == spec_collection_response(
            bucket,
            cm,
        ) + spec_children_cat(bucket, cs),
    decreases cs.len(),
{
    let frags = spec_response_fragments(bucket, cm, cs);
    if cs.len() == 0 {
        assert(frags.drop_last() =~= Seq::<Seq<char>>::empty());
        assert(Seq::<Seq<char>>::empty().flatten_alt() =~= Seq::<char>::empty());
        assert(frags.flatten_alt() =~= spec_collection_response(bucket, cm) + spec_children_cat(
            bucket,
            cs,
        ));
    } else {
        lemma_fragments_flatten(bucket, cm, cs.drop_last());
        assert(frags.drop_last() =~= spec_response_fragments(bucket, cm, cs.drop_last()));
        assert(frags.last() == spec_child_response(bucket, cs.last()));
        assert(frags.flatten_alt() =~= spec_collection_response(bucket, cm) + spec_children_cat(
            bucket,
            cs,
        ));
    }
}

/// Law: the document for a collection is the multistatus header, then exactly
/// one `response` fragment for the collection itself and one per direct child
/// -- nothing else -- then the closing tag. The fragments stand in one-to-one
/// correspondence with the children sequence, so deep descendants never
/// appear: a one-level listing renders one level.
pub proof fn lemma_collection_document_shape(bucket: Seq<char>, cm: MetaView, cs: Seq<MetaView>)
    ensures
        spec_response_fragments(bucket, cm, cs).len() == cs.len() + 1,
        spec_multistatus_collection(bucket, cm, cs) == spec_document_header()
            + spec_response_fragments(bucket, cm, cs).flatten() + "</multistatus>"@,
        forall|i: int|
            0 <= i <= cs.len() ==> spec_starts_with(
                #[trigger] spec_response_fragments(bucket, cm, cs)[i],
                "<response>"@,
            ),
        forall|i: int|
            0 <= i <= cs.len() ==> spec_ends_with(
                #[trigger] spec_response_fragments(bucket, cm, cs)[i],
                "</response>"@,
            ),
{
    let frags = spec_response_fragments(bucket, cm, cs);
    lemma_fragments_flatten(bucket, cm, cs);
    frags.lemma_flatten_and_flatten_alt_are_equivalent();
    assert(spec_multistatus_collection(bucket, cm, cs) =~= spec_document_header()
        + frags.flatten() + "</multistatus>"@);
    assert forall|i: int| 0 <= i <= cs.len() implies spec_starts_with(
        #[trigger] frags[i],
        "<response>"@,
    ) && spec_ends_with(frags[i], "</response>"@) by {
        if i == 0 {
            lemma_folder_response_bracketed(
                bucket,
                spec_collection_name(bucket, cm.key),
                cm.key,
            );
        } else {
            let c = cs[i - 1];
            if c.is_collection {
                lemma_folder_response_bracketed(bucket, spec_basename(c.key), c.key);
            } else {
                lemma_file_response_bracketed(bucket, c);
            }
        }
    }
}

/// Law: a collection with zero children renders to a document holding exactly
/// one `response` fragment, the collection's own, and nothing more.
pub proof fn lemma_empty_collection_single_response(bucket: Seq<char>, cm: MetaView)
    ensures
        spec_response_fragments(bucket, cm, Seq::empty()).len() == 1,
        spec_multistatus_collection(bucket, cm, Seq::empty()) == spec_document_header()
            + spec_collection_response(bucket, cm) + "</multistatus>"@,
{
    assert(spec_multistatus_collection(bucket, cm, Seq::empty()) =~= spec_document_header()
        + spec_collection_response(bucket, cm) + "</multistatus>"@);
}

/// The number of positions at or after `i` where `p` begins in `s`.
pub open spec fn spec_count_matches_from(s: Seq<char>, p: Seq<char>, i: int) -> nat
    decreases s.len() - i,
{
    if p.len() <= 0 || i < 0 || i + p.len() > s.len() {
        0
    } else if s.subrange(i, i + p.len()) == p {
        1 + spec_count_matches_from(s, p, i + 1)
    } else {
        spec_count_matches_from(s, p, i + 1)
    }
}

/// The number of positions where `p` occurs in `s`.
pub open spec fn spec_count_matches(s: Seq<char>, p: Seq<char>) -> nat {
    spec_count_matches_from(s, p, 0)
}

/// Position `j` cannot begin an occurrence of `p` in `s` -- nor in any longer
/// sequence extending `s` to the right, since a character of `s` itself
/// already differs.
spec fn spec_no_match_start(s: Seq<char>, p: Seq<char>, j: int) -> bool {
    exists|d: int| 0 <= d < p.len() && j + d < s.len() && #[trigger] s[j + d] != p[d]
}

/// `s` blocks `p` everywhere: `p` occurs nowhere in `s`, and no occurrence
/// can straddle `s`'s right edge in a longer sequence.
spec fn spec_blocks(s: Seq<char>, p: Seq<char>) -> bool {
    forall|j: int| 0 <= j < s.len() ==> spec_no_match_start(s, p, j)
}

proof fn lemma_count_shift(a: Seq<char>, b: Seq<char>, p: Seq<char>, t: int)
    requires
        p.len() > 0,
        0 <= t <= b.len(),
    ensures
        spec_count_matches_from(a + b, p, a.len() + t) == spec_count_matches_from(b, p, t),
    decreases b.len() - t,
{
    let s = a + b;
    if t + p.len() <= b.len() {
        assert(s.subrange(a.len() + t, a.len() + t + p.len()) =~= b.subrange(t, t + p.len()));
        lemma_count_shift(a, b, p, t + 1);
    }
}

proof fn lemma_count_skip(a: Seq<char>, b: Seq<char>, p: Seq<char>, i: int)
    requires
        p.len() > 0,
        0 <= i <= a.len(),
        forall|j: int| i <= j < a.len() ==> spec_no_match_start(a, p, j),
    ensures
        spec_count_matches_from(a + b, p, i) == spec_count_matches(b, p),
    decreases a.len() - i,
{
    let s = a + b;
    if i < a.len() {
        assert(spec_no_match_start(a, p, i));
        let d = choose|d: int| 0 <= d < p.len() && i + d < a.len() && #[trigger] a[i + d] != p[d];
        if i + p.len() <= s.len() {
            assert(s[i + d] == a[i + d]);
            assert(s.subrange(i, i + p.len())[d] == s[i + d]);
            assert(s.subrange(i, i + p.len()) != p);
        }
        lemma_count_skip(a, b, p, i + 1);
    } else {
        lemma_count_shift(a, b, p, 0);
    }
}

proof fn lemma_blocks_count_zero(s: Seq<char>, p: Seq<char>)
    requires
        p.len() > 0,
        spec_blocks(s, p),
    ensures
        spec_count_matches(s, p) == 0,
{
    lemma_count_skip(s, Seq::empty(), p, 0);
    assert(s + Seq::<char>::empty() =~= s);
    assert(spec_count_matches(Seq::<char>::empty(), p) == 0);
}

proof fn lemma_count_concat_blocked(a: Seq<char>, b: Seq<char>, p: Seq<char>)
    requires
        p.len() > 0,
        spec_blocks(a, p),
    ensures
        spec_count_matches(a + b, p) == spec_count_matches(b, p),
{
    lemma_count_skip(a, b, p, 0);
}

proof fn lemma_blocks_concat(a: Seq<char>, b: Seq<char>, p: Seq<char>)
    requires
        spec_blocks(a, p),
        spec_blocks(b, p),
    ensures
        spec_blocks(a + b, p),
{
    let s = a + b;
    assert forall|j: int| 0 <= j < s.len() implies spec_no_match_start(s, p, j) by {
        if j < a.len() {
            assert(spec_no_match_start(a, p, j));
            let d = choose|d: int|
                0 <= d < p.len() && j + d < a.len() && #[trigger] a[j + d] != p[d];
            assert(s[j + d] == a[j + d]);
            assert(s[j + d] != p[d]);
        } else {
            let t = j - a.len();
            assert(spec_no_match_start(b, p, t));
            let d = choose|d: int|
                0 <= d < p.len() && t + d < b.len() && #[trigger] b[t + d] != p[d];
            assert(s[j + d] == b[t + d]);
            assert(s[j + d] != p[d]);
        }
    }
}

proof fn lemma_blocks_without_first(s: Seq<char>, p: Seq<char>)
    requires
        p.len() > 0,
        forall|j: int| 0 <= j < s.len() ==> #[trigger] s[j] != p[0],
    ensures
        spec_blocks(s, p),
{
    assert forall|j: int| 0 <= j < s.len() implies spec_no_match_start(s, p, j) by {
        assert(s[j + 0] != p[0]);
    }
}

proof fn lemma_escape_no_langle(s: Seq<char>)
    ensures
        forall|j: int| 0 <= j < spec_escape(s).len() ==> #[trigger] spec_escape(s)[j] != '<',
    decreases s.len(),
{
    if s.len() > 0 {
        lemma_escape_no_langle(s.drop_last());
        let c = s[s.len() - 1];
        let e = spec_escape_char(c);
        assert forall|j: int| 0 <= j < e.len() implies #[trigger] e[j] != '<' by {
            reveal_strlit("&lt;");
            reveal_strlit("&gt;");
            reveal_strlit("&amp;");
            reveal_strlit("&quot;");
            reveal_strlit("&apos;");
        }
        assert forall|j: int| 0 <= j < spec_escape(s).len() implies #[trigger] spec_escape(s)[j]
            != '<' by {
            if j < spec_escape(s.drop_last()).len() {
                assert(spec_escape(s)[j] == spec_escape(s.drop_last())[j]);
            } else {
                assert(spec_escape(s)[j] == e[j - spec_escape(s.drop_last()).len()]);
            }
        }
    }
}

proof fn lemma_dec_no_langle(n: nat)
    ensures
        forall|j: int| 0 <= j < spec_dec(n).len() ==> #[trigger] spec_dec(n)[j] != '<',
    decreases n,
{
    if n < 10 {
        assert(spec_dec(n)[0] == spec_digit_char(n));
    } else {
        lemma_dec_no_langle((n / 10) as nat);
        let rest = spec_dec((n / 10) as nat);
        assert forall|j: int| 0 <= j < spec_dec(n).len() implies #[trigger] spec_dec(n)[j]
            != '<' by {
            if j < rest.len() {
                assert(spec_dec(n)[j] == rest[j]);
            } else {
                assert(spec_dec(n)[j] == spec_digit_char((n % 10) as nat));
            }
        }
    }
}

/// The pattern whose occurrences the counting laws speak of.
spec fn spec_response_tag() -> Seq<char> {
    "<response>"@
}

proof fn lemma_escape_blocks(s: Seq<char>)
    ensures
        spec_blocks(spec_escape(s), spec_response_tag()),
{
    reveal_strlit("<response>");
    lemma_escape_no_langle(s);
    lemma_blocks_without_first(spec_escape(s), spec_response_tag());
}

proof fn lemma_dec_blocks(n: nat)
    ensures
        spec_blocks(spec_dec(n), spec_response_tag()),
{
    reveal_strlit("<response>");
    lemma_dec_no_langle(n);
    lemma_blocks_without_first(spec_dec(n), spec_response_tag());
}

proof fn lemma_fixed_text_blocks()
    ensures
        spec_blocks("<href>"@, spec_response_tag()),
        spec_blocks("/"@, spec_response_tag()),
        spec_blocks("</href><propstat><prop><displayname>"@, spec_response_tag()),
        spec_blocks("</displayname><resourcetype><collection></collection></resourcetype></prop><status>HTTP/1.1 200 OK</status></propstat>"@, spec_response_tag()),
        spec_blocks("</displayname><getcontentlength>"@, spec_response_tag()),
        spec_blocks("</getcontentlength><getlastmodified>"@, spec_response_tag()),
        spec_blocks("</getlastmodified><resourcetype></resourcetype></prop><status>HTTP/1.1 200 OK</status></propstat>"@, spec_response_tag()),
        spec_blocks("</response>"@, spec_response_tag()),
        spec_blocks("<multistatus xmlns=\"DAV:\">"@, spec_response_tag()),
        spec_blocks("</multistatus>"@, spec_response_tag()),
{
    let resp = spec_response_tag();
    reveal_strlit("<response>");
    reveal_strlit("<href>");
    reveal_strlit("/");
    reveal_strlit("</href><propstat><prop><displayname>");
    reveal_strlit("</displayname><resourcetype><collection></collection></resourcetype></prop><status>HTTP/1.1 200 OK</status></propstat>");
    reveal_strlit("</displayname><getcontentlength>");
    reveal_strlit("</getcontentlength><getlastmodified>");
    reveal_strlit("</getlastmodified><resourcetype></resourcetype></prop><status>HTTP/1.1 200 OK</status></propstat>");
    reveal_strlit("</response>");
    reveal_strlit("<multistatus xmlns=\"DAV:\">");
    reveal_strlit("</multistatus>");
    assert forall|j: int| 0 <= j < "<href>"@.len() implies spec_no_match_start(
        "<href>"@,
        resp,
        j,
    ) by {
        let s = "<href>"@;
        if s[j] == '<' {
            if s[j + 1] == 'r' {
                assert(0 <= 4 < resp.len() && j + 4 < s.len() && s[j + 4] != resp[4]);
            } else {
                assert(0 <= 1 < resp.len() && j + 1 < s.len() && s[j + 1] != resp[1]);
            }
        } else {
            assert(0 <= 0 < resp.len() && j + 0 < s.len() && s[j + 0] != resp[0]);
        }
    }
    assert forall|j: int| 0 <= j < "/"@.len() implies spec_no_match_start(
        "/"@,
        resp,
        j,
    ) by {
        let s = "/"@;
        if s[j] == '<' {
            if s[j + 1] == 'r' {
                assert(0 <= 4 < resp.len() && j + 4 < s.len() && s[j + 4] != resp[4]);
            } else {
                assert(0 <= 1 < resp.len() && j + 1 < s.len() && s[j + 1] != resp[1]);
            }
        } else {
            assert(0 <= 0 < resp.len() && j + 0 < s.len() && s[j + 0] != resp[0]);
        }
    }
    assert forall|j: int| 0 <= j < "</href><propstat><prop><displayname>"@.len() implies spec_no_match_start(
        "</href><propstat><prop><displayname>"@,
        resp,
        j,
    ) by {
        let s = "</href><propstat><prop><displayname>"@;
        if s[j] == '<' {
            if s[j + 1] == 'r' {
                assert(0 <= 4 < resp.len() && j + 4 < s.len() && s[j + 4] != resp[4]);
            } else {
                assert(0 <= 1 < resp.len() && j + 1 < s.len() && s[j + 1] != resp[1]);
            }
        } else {
            assert(0 <= 0 < resp.len() && j + 0 < s.len() && s[j + 0] != resp[0]);
        }
    }
    assert forall|j: int| 0 <= j < "</displayname><resourcetype><collection></collection></resourcetype></prop><status>HTTP/1.1 200 OK</status></propstat>"@.len() implies spec_no_match_start(
        "</displayname><resourcetype><collection></collection></resourcetype></prop><status>HTTP/1.1 200 OK</status></propstat>"@,
        resp,
        j,
    ) by {
        let s = "</displayname><resourcetype><collection></collection></resourcetype></prop><status>HTTP/1.1 200 OK</status></propstat>"@;
        if s[j] == '<' {
            if s[j + 1] == 'r' {
                assert(0 <= 4 < resp.len() && j + 4 < s.len() && s[j + 4] != resp[4]);
            } else {
                assert(0 <= 1 < resp.len() && j + 1 < s.len() && s[j + 1] != resp[1]);
            }
        } else {
            assert(0 <= 0 < resp.len() && j + 0 < s.len() && s[j + 0] != resp[0]);
        }
    }
    assert forall|j: int| 0 <= j < "</displayname><getcontentlength>"@.len() implies spec_no_match_start(
        "</displayname><getcontentlength>"@,
        resp,
        j,
    ) by {
        let s = "</displayname><getcontentlength>"@;
        if s[j] == '<' {
            if s[j + 1] == 'r' {
                assert(0 <= 4 < resp.len() && j + 4 < s.len() && s[j + 4] != resp[4]);
            } else {
                assert(0 <= 1 < resp.len() && j + 1 < s.len() && s[j + 1] != resp[1]);
            }
        } else {
            assert(0 <= 0 < resp.len() && j + 0 < s.len() && s[j + 0] != resp[0]);
        }
    }
    assert forall|j: int| 0 <= j < "</getcontentlength><getlastmodified>"@.len() implies spec_no_match_start(
        "</getcontentlength><getlastmodified>"@,
        resp,
        j,
    ) by {
        let s = "</getcontentlength><getlastmodified>"@;
        if s[j] == '<' {
            if s[j + 1] == 'r' {
                assert(0 <= 4 < resp.len() && j + 4 < s.len() && s[j + 4] != resp[4]);
            } else {
                assert(0 <= 1 < resp.len() && j + 1 < s.len() && s[j + 1] != resp[1]);
            }
        } else {
            assert(0 <= 0 < resp.len() && j + 0 < s.len() && s[j + 0] != resp[0]);
        }
    }
    assert forall|j: int| 0 <= j < "</getlastmodified><resourcetype></resourcetype></prop><status>HTTP/1.1 200 OK</status></propstat>"@.len() implies spec_no_match_start(
        "</getlastmodified><resourcetype></resourcetype></prop><status>HTTP/1.1 200 OK</status></propstat>"@,
        resp,
        j,
    ) by {
        let s = "</getlastmodified><resourcetype></resourcetype></prop><status>HTTP/1.1 200 OK</status></propstat>"@;
        if s[j] == '<' {
            if s[j + 1] == 'r' {
                assert(0 <= 4 < resp.len() && j + 4 < s.len() && s[j + 4] != resp[4]);
            } else {
                assert(0 <= 1 < resp.len() && j + 1 < s.len() && s[j + 1] != resp[1]);
            }
        } else {
            assert(0 <= 0 < resp.len() && j + 0 < s.len() && s[j + 0] != resp[0]);
        }
    }
    assert forall|j: int| 0 <= j < "</response>"@.len() implies spec_no_match_start(
        "</response>"@,
        resp,
        j,
    ) by {
        let s = "</response>"@;
        if s[j] == '<' {
            if s[j + 1] == 'r' {
                assert(0 <= 4 < resp.len() && j + 4 < s.len() && s[j + 4] != resp[4]);
            } else {
                assert(0 <= 1 < resp.len() && j + 1 < s.len() && s[j + 1] != resp[1]);
            }
        } else {
            assert(0 <= 0 < resp.len() && j + 0 < s.len() && s[j + 0] != resp[0]);
        }
    }
    assert forall|j: int| 0 <= j < "<multistatus xmlns=\"DAV:\">"@.len() implies spec_no_match_start(
        "<multistatus xmlns=\"DAV:\">"@,
        resp,
        j,
    ) by {
        let s = "<multistatus xmlns=\"DAV:\">"@;
        if s[j] == '<' {
            if s[j + 1] == 'r' {
                assert(0 <= 4 < resp.len() && j + 4 < s.len() && s[j + 4] != resp[4]);
            } else {
                assert(0 <= 1 < resp.len() && j + 1 < s.len() && s[j + 1] != resp[1]);
            }
        } else {
            assert(0 <= 0 < resp.len() && j + 0 < s.len() && s[j + 0] != resp[0]);
        }
    }
    assert forall|j: int| 0 <= j < "</multistatus>"@.len() implies spec_no_match_start(
        "</multistatus>"@,
        resp,
        j,
    ) by {
        let s = "</multistatus>"@;
        if s[j] == '<' {
            if s[j + 1] == 'r' {
                assert(0 <= 4 < resp.len() && j + 4 < s.len() && s[j + 4] != resp[4]);
            } else {
                assert(0 <= 1 < resp.len() && j + 1 < s.len() && s[j + 1] != resp[1]);
            }
        } else {
            assert(0 <= 0 < resp.len() && j + 0 < s.len() && s[j + 0] != resp[0]);
        }
    }
}

proof fn lemma_href_blocks(bucket: Seq<char>, key: Seq<char>)
    ensures
        spec_blocks(spec_href(bucket, key), spec_response_tag()),
{
    let resp = spec_response_tag();
    lemma_fixed_text_blocks();
    lemma_escape_blocks(bucket);
    lemma_escape_blocks(key);
    lemma_blocks_concat("/"@, spec_escape(bucket), resp);
    lemma_blocks_concat("/"@ + spec_escape(bucket), "/"@, resp);
    lemma_blocks_concat("/"@ + spec_escape(bucket) + "/"@, spec_escape(key), resp);
}

proof fn lemma_last_modified_blocks(lm: Option<Seq<char>>)
    ensures
        spec_blocks(spec_last_modified_text(lm), spec_response_tag()),
{
    match lm {
        Some(t) => lemma_escape_blocks(t),
        None => lemma_escape_blocks("Thu, 01 Jan 1970 00:00:00 GMT"@),
    }
}

/// A folder `response` fragment after its opening tag.
spec fn spec_folder_middle(bucket: Seq<char>, name: Seq<char>, key: Seq<char>) -> Seq<char> {
    "<href>"@ + spec_href(bucket, key) + "</href><propstat><prop><displayname>"@ + spec_escape(
        name,
    )
        + "</displayname><resourcetype><collection></collection></resourcetype></prop><status>HTTP/1.1 200 OK</status></propstat>"@
        + "</response>"@
}

/// A file `response` fragment after its opening tag.
spec fn spec_file_middle(bucket: Seq<char>, m: MetaView) -> Seq<char> {
    "<href>"@ + spec_href(bucket, m.key) + "</href><propstat><prop><displayname>"@ + spec_escape(
        spec_basename(m.key),
    ) + "</displayname><getcontentlength>"@ + spec_dec(m.size as nat)
        + "</getcontentlength><getlastmodified>"@ + spec_last_modified_text(m.last_modified)
        + "</getlastmodified><resourcetype></resourcetype></prop><status>HTTP/1.1 200 OK</status></propstat>"@
        + "</response>"@
}

proof fn lemma_folder_middle_blocks(bucket: Seq<char>, name: Seq<char>, key: Seq<char>)
    ensures
        spec_folder_response(bucket, name, key) == "<response>"@ + spec_folder_middle(
            bucket,
            name,
            key,
        ),
        spec_blocks(spec_folder_middle(bucket, name, key), spec_response_tag()),
{
    let resp = spec_response_tag();
    assert(spec_folder_response(bucket, name, key) =~= "<response>"@ + spec_folder_middle(
        bucket,
        name,
        key,
    ));
    lemma_fixed_text_blocks();
    lemma_href_blocks(bucket, key);
    lemma_escape_blocks(name);
    let p1 = "<href>"@;
    let p2 = p1 + spec_href(bucket, key);
    let p3 = p2 + "</href><propstat><prop><displayname>"@;
    let p4 = p3 + spec_escape(name);
    let p5 = p4
        + "</displayname><resourcetype><collection></collection></resourcetype></prop><status>HTTP/1.1 200 OK</status></propstat>"@;
    lemma_blocks_concat(p1, spec_href(bucket, key), resp);
    lemma_blocks_concat(p2, "</href><propstat><prop><displayname>"@, resp);
    lemma_blocks_concat(p3, spec_escape(name), resp);
    lemma_blocks_concat(
        p4,
        "</displayname><resourcetype><collection></collection></resourcetype></prop><status>HTTP/1.1 200 OK</status></propstat>"@,
        resp,
    );
    lemma_blocks_concat(p5, "</response>"@, resp);
}

proof fn lemma_file_middle_blocks(bucket: Seq<char>, m: MetaView)
    ensures
        spec_file_response(bucket, m) == "<response>"@ + spec_file_middle(bucket, m),
        spec_blocks(spec_file_middle(bucket, m), spec_response_tag()),
{
    let resp = spec_response_tag();
    assert(spec_file_response(bucket, m) =~= "<response>"@ + spec_file_middle(bucket, m));
    lemma_fixed_text_blocks();
    lemma_href_blocks(bucket, m.key);
    lemma_escape_blocks(spec_basename(m.key));
    lemma_dec_blocks(m.size as nat);
    lemma_last_modified_blocks(m.last_modified);
    let p1 = "<href>"@;
    let p2 = p1 + spec_href(bucket, m.key);
    let p3 = p2 + "</href><propstat><prop><displayname>"@;
    let p4 = p3 + spec_escape(spec_basename(m.key));
    let p5 = p4 + "</displayname><getcontentlength>"@;
    let p6 = p5 + spec_dec(m.size as nat);
    let p7 = p6 + "</getcontentlength><getlastmodified>"@;
    let p8 = p7 + spec_last_modified_text(m.last_modified);
    let p9 = p8
        + "</getlastmodified><resourcetype></resourcetype></prop><status>HTTP/1.1 200 OK</status></propstat>"@;
    lemma_blocks_concat(p1, spec_href(bucket, m.key), resp);
    lemma_blocks_concat(p2, "</href><propstat><prop><displayname>"@, resp);
    lemma_blocks_concat(p3, spec_escape(spec_basename(m.key)), resp);
    lemma_blocks_concat(p4, "</displayname><getcontentlength>"@, resp);
    lemma_blocks_concat(p5, spec_dec(m.size as nat), resp);
    lemma_blocks_concat(p6, "</getcontentlength><getlastmodified>"@, resp);
    lemma_blocks_concat(p7, spec_last_modified_text(m.last_modified), resp);
    lemma_blocks_concat(
        p8,
        "</getlastmodified><resourcetype></resourcetype></prop><status>HTTP/1.1 200 OK</status></propstat>"@,
        resp,
    );
    lemma_blocks_concat(p9, "</response>"@, resp);
}

proof fn lemma_count_after_open_tag(y: Seq<char>)
    ensures
        spec_count_matches("<response>"@ + y, spec_response_tag()) == 1 + spec_count_matches(
            y,
            spec_response_tag(),
        ),
{
    let p = spec_response_tag();
    reveal_strlit("<response>");
    let s = "<response>"@ + y;
    assert(s.subrange(0, p.len() as int) =~= p);
    assert(spec_count_matches_from(s, p, 0) == 1 + spec_count_matches_from(s, p, 1));
    assert forall|j: int| 1 <= j < "<response>"@.len() implies spec_no_match_start(
        "<response>"@,
        p,
        j,
    ) by {
        assert(0 <= 0 < p.len() && j + 0 < "<response>"@.len() && "<response>"@[j + 0] != p[0]);
    }
    lemma_count_skip("<response>"@, y, p, 1);
}

proof fn lemma_folder_then(bucket: Seq<char>, name: Seq<char>, key: Seq<char>, x: Seq<char>)
    ensures
        spec_count_matches(spec_folder_response(bucket, name, key) + x, spec_response_tag()) == 1
            + spec_count_matches(x, spec_response_tag()),
{
    let resp = spec_response_tag();
    lemma_folder_middle_blocks(bucket, name, key);
    let m = spec_folder_middle(bucket, name, key);
    assert(spec_folder_response(bucket, name, key) + x =~= "<response>"@ + (m + x));
    lemma_count_after_open_tag(m + x);
    lemma_count_concat_blocked(m, x, resp);
}

proof fn lemma_file_then(bucket: Seq<char>, m: MetaView, x: Seq<char>)
    ensures
        spec_count_matches(spec_file_response(bucket, m) + x, spec_response_tag()) == 1
            + spec_count_matches(x, spec_response_tag()),
{
    let resp = spec_response_tag();
    lemma_file_middle_blocks(bucket, m);
    let mid = spec_file_middle(bucket, m);
    assert(spec_file_response(bucket, m) + x =~= "<response>"@ + (mid + x));
    lemma_count_after_open_tag(mid + x);
    lemma_count_concat_blocked(mid, x, resp);
}

proof fn lemma_cat_then(bucket: Seq<char>, cs: Seq<MetaView>, x: Seq<char>)
    ensures
        spec_count_matches(spec_children_cat(bucket, cs) + x, spec_response_tag()) == cs.len()
            + spec_count_matches(x, spec_response_tag()),
    decreases cs.len(),
{
    if cs.len() == 0 {
        assert(spec_children_cat(bucket, cs) + x =~= x);
    } else {
        let c = cs.last();
        assert(spec_children_cat(bucket, cs) + x =~= spec_children_cat(bucket, cs.drop_last()) + (
        spec_child_response(bucket, c) + x));
        if c.is_collection {
            lemma_folder_then(bucket, spec_basename(c.key), c.key, x);
        } else {
            lemma_file_then(bucket, c, x);
        }
        lemma_cat_then(bucket, cs.drop_last(), spec_child_response(bucket, c) + x);
    }
}

/// Law: the rendered document of a collection holds the text `<response>`
/// exactly once for the collection itself and once per direct child --
/// counted as literal occurrences anywhere in the document, so nothing else
/// in it, escaped names included, can masquerade as a further response.
pub proof fn lemma_collection_response_tag_count(
    bucket: Seq<char>,
    cm: MetaView,
    cs: Seq<MetaView>,
)
    ensures
        spec_count_matches(spec_multistatus_collection(bucket, cm, cs), "<response>"@) == cs.len()
            + 1,
{
    let resp = spec_response_tag();
    reveal_strlit("<response>");
    let tail = spec_children_cat(bucket, cs) + "</multistatus>"@;
    lemma_fixed_text_blocks();
    assert(spec_multistatus_collection(bucket, cm, cs) =~= "<multistatus xmlns=\"DAV:\">"@ + (
    spec_collection_response(bucket, cm) + tail));
    lemma_count_concat_blocked(
        "<multistatus xmlns=\"DAV:\">"@,
        spec_collection_response(bucket, cm) + tail,
        resp,
    );
    lemma_folder_then(bucket, spec_collection_name(bucket, cm.key), cm.key, tail);
    lemma_cat_then(bucket, cs, "</multistatus>"@);
    lemma_blocks_count_zero("</multistatus>"@, resp);
}

/// Law: the rendered document of a single resource holds the text
/// `<response>` exactly once.
pub proof fn lemma_single_response_tag_count(bucket: Seq<char>, m: MetaView)
    ensures
        spec_count_matches(spec_multistatus_single(bucket, m), "<response>"@) == 1,
{
    let resp = spec_response_tag();
    reveal_strlit("<response>");
    lemma_fixed_text_blocks();
    assert(spec_multistatus_single(bucket, m) =~= "<multistatus xmlns=\"DAV:\">"@ + (
    spec_file_response(bucket, m) + "</multistatus>"@));
    lemma_count_concat_blocked(
        "<multistatus xmlns=\"DAV:\">"@,
        spec_file_response(bucket, m) + "</multistatus>"@,
        resp,
    );
    lemma_file_then(bucket, m, "</multistatus>"@);
    lemma_blocks_count_zero("</multistatus>"@, resp);
}

/// Render the full multistatus document for a PROPFIND subject. A pure
/// function of its arguments; it never fails.
pub fn render_multistatus(bucket: &str, subject: &MetadataView) -> (r: String)
    ensures
        match subject {
            MetadataView::Single(m) => r@ == spec_multistatus_single(bucket@, m@),
            MetadataView::Collection(l) => r@ == spec_multistatus_collection(
                bucket@,
                l.collection@,
                l.children_view(),
            ),
        },
{
    let mut out = String::new();
    out.append("<multistatus xmlns=\"DAV:\">");
    match subject {
        MetadataView::Single(m) => {
            append_file_response(&mut out, bucket, m);
            out.append("</multistatus>");
            proof {
                assert(out@ =~= spec_multistatus_single(bucket@, m@));
            }
        },
        MetadataView::Collection(l) => {
            append_collection_response(&mut out, bucket, &l.collection);
            let n = l.children.len();
            let ghost cs = l.children_view();
            let mut i: usize = 0;
            while i < n
                invariant
                    i <= n,
                    n == l.children@.len(),
                    cs == l.children_view(),
                    cs.len() == n,
                    out@ == spec_document_header() + spec_collection_response(
                        bucket@,
                        l.collection@,
                    ) + spec_children_cat(bucket@, cs.subrange(0, i as int)),
                decreases n - i,
            {
                append_child_response(&mut out, bucket, &l.children[i]);
                proof {
                    assert(cs.subrange(0, i as int + 1).drop_last() =~= cs.subrange(0, i as int));
                    assert(cs.subrange(0, i as int + 1).last() == l.children@[i as int]@);
                    assert(out@ =~= spec_document_header() + spec_collection_response(
                        bucket@,
                        l.collection@,
                    ) + spec_children_cat(bucket@, cs.subrange(0, i as int + 1)));
                }
                i = i + 1;
            }
            out.append("</multistatus>");
            proof {
                assert(cs.subrange(0, n as int) =~= cs);
                assert(out@ =~= spec_multistatus_collection(bucket@, l.collection@, cs));
            }
        },
    }
    out
}

} // verus!
