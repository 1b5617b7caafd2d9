use http_server::cli::verify_path;
use http_server::escape::{encode_segment, escape_html};
use http_server::listing::{decimal, link_path, render_listing, DirEntry};
use http_server::path::{
    is_within, join_segments, join_under, normalize_segments, request_target, resolve_request,
    split_segments,
};
use http_server::router::{
    classify, content_type_of, file_response, file_response_typed, listing_page,
    listing_response, lookup, route, Lookup, ResolvedTarget, Response, Step,
};

fn strings(v: &[&str]) -> Vec<String> {
    v.iter().map(|s| s.to_string()).collect()
}

fn file(name: &str, size: u64) -> DirEntry {
    DirEntry { name: name.to_string(), is_dir: false, size }
}

fn dir(name: &str) -> DirEntry {
    DirEntry { name: name.to_string(), is_dir: true, size: 4096 }
}

/// Percent-decoding as a server applies it to a request path.
fn percent_decode(s: &str) -> String {
    let b = s.as_bytes();
    let mut out = Vec::new();
    let mut i = 0;
    while i < b.len() {
        if b[i] == b'%' && i + 2 < b.len() {
            let hex = std::str::from_utf8(&b[i + 1..i + 3]).unwrap();
            out.push(u8::from_str_radix(hex, 16).unwrap());
            i += 3;
        } else {
            out.push(b[i]);
            i += 1;
        }
    }
    String::from_utf8(out).unwrap()
}

fn segments_of(request: &str) -> Option<Vec<String>> {
    resolve_request(request)
}

/// The response for a request under the served tree of the example: the
/// filesystem facts are given, as the handler would read them.
fn respond(request: &str, fs: &[(&str, bool, Result<Vec<u8>, String>)]) -> Response {
    let root = "/srv/www";
    let (segs, path) = match lookup(root, request) {
        Lookup::Reply(r) => return r,
        Lookup::Check { segments, path } => (segments, path),
    };
    let found = fs.iter().find(|(p, _, _)| *p == path);
    let target = match found {
        None => classify(true, false, false, path.clone()),
        Some((_, is_dir, _)) => classify(is_within(root, &path), true, *is_dir, path.clone()),
    };
    match route(target) {
        Step::Reply(r) => r,
        Step::ListDir(p) => {
            let mut entries = Vec::new();
            let prefix = format!("{}/", p.trim_end_matches('/'));
            for (q, is_dir, content) in fs {
                if let Some(name) = q.strip_prefix(&prefix) {
                    if !name.contains('/') && !name.is_empty() {
                        let size = content.as_ref().map(|b| b.len() as u64).unwrap_or(0);
                        entries.push(DirEntry { name: name.to_string(), is_dir: *is_dir, size });
                    }
                }
            }
            listing_page(&segs, Ok(entries))
        }
        Step::ReadFile(p) => {
            let read = fs.iter().find(|(q, _, _)| *q == p).unwrap().2.clone();
            file_response(&p, read)
        }
    }
}

fn example_fs() -> Vec<(&'static str, bool, Result<Vec<u8>, String>)> {
    vec![
        ("/srv/www", true, Ok(vec![])),
        ("/srv/www/index.html", false, Ok(b"<h1>hi</h1>\n".to_vec())),
        ("/srv/www/docs", true, Ok(vec![])),
        ("/srv/www/docs/a.txt", false, Ok(b"a".to_vec())),
    ]
}

#[test]
fn test_verify_path() {
    assert!(verify_path(".").is_ok());
    assert!(verify_path("xxx").is_err());
    assert!(verify_path("./src").is_ok());
}

#[test]
fn verify_path_rejects_a_file_with_its_message() {
    assert_eq!(verify_path("./Cargo.toml").unwrap_err(), "File does not exist");
}

#[test]
fn example_root_listing() {
    let r = respond("", &example_fs());
    assert_eq!(r.status(), 200);
    match r {
        Response::Listing(page) => {
            assert!(page.contains("<a href=\"/index.html\">index.html</a>  - 12 bytes"));
            assert!(page.contains("<a href=\"/docs\">docs</a>"));
            assert_eq!(page.matches("<li>").count(), 2);
        }
        _ => panic!("expected a listing"),
    }
}

#[test]
fn example_file_fetch() {
    let r = respond("index.html", &example_fs());
    assert_eq!(r.status(), 200);
    match r {
        Response::File { content_type, bytes } => {
            assert_eq!(bytes.len(), 12);
            assert_eq!(bytes, b"<h1>hi</h1>\n".to_vec());
            assert_eq!(content_type, "text/html");
        }
        _ => panic!("expected a file"),
    }
}

#[test]
fn example_subdirectory_listing() {
    let r = respond("docs", &example_fs());
    assert_eq!(r.status(), 200);
    match r {
        Response::Listing(page) => {
            assert_eq!(
                page,
                "<html><body><ul><li>📄 <a href=\"/docs/a.txt\">a.txt</a>  - 1 bytes</li></ul></body></html>"
            );
        }
        _ => panic!("expected a listing"),
    }
}

#[test]
fn example_missing_is_not_found() {
    assert_eq!(respond("missing", &example_fs()).status(), 404);
}

#[test]
fn example_traversal_is_not_found() {
    assert_eq!(respond("/../etc/passwd", &example_fs()).status(), 404);
    assert_eq!(respond("../etc/passwd", &example_fs()).status(), 404);
    assert_eq!(respond("docs/../../secret", &example_fs()).status(), 404);
}

#[test]
fn file_removed_after_classification_is_server_error() {
    let mut fs = example_fs();
    fs[1].2 = Err("No such file or directory".to_string());
    let r = respond("index.html", &fs);
    assert_eq!(r.status(), 500);
    match r {
        Response::ServerError(msg) => assert_eq!(msg, "No such file or directory"),
        _ => panic!("expected a server error"),
    }
}

#[test]
fn split_keeps_empty_segments() {
    assert_eq!(split_segments("/a//b/"), strings(&["", "a", "", "b", ""]));
    assert_eq!(split_segments(""), strings(&[""]));
}

#[test]
fn normalize_collapses_dots() {
    assert_eq!(segments_of("/a/./b/../c/"), Some(strings(&["a", "c"])));
    assert_eq!(segments_of(""), Some(vec![]));
    assert_eq!(segments_of("/"), Some(vec![]));
    assert_eq!(segments_of("a/.."), Some(vec![]));
    assert_eq!(segments_of("a/../.."), None);
    assert_eq!(segments_of("/../secret"), None);
    assert_eq!(segments_of("..."), Some(strings(&["..."])));
    assert_eq!(normalize_segments(&strings(&["..", "a"])), None);
}

#[test]
fn join_under_root() {
    assert_eq!(join_segments(&strings(&["a", "b"])), "a/b");
    assert_eq!(join_under("/srv/www", &strings(&["a", "b"])), "/srv/www/a/b");
    assert_eq!(join_under("/srv/www/", &strings(&["a"])), "/srv/www/a");
    assert_eq!(join_under("/srv/www", &vec![]), "/srv/www");
}

#[test]
fn request_target_stays_under_root() {
    let (segs, path) = request_target("/srv/www", "docs/./a.txt").unwrap();
    assert_eq!(segs, strings(&["docs", "a.txt"]));
    assert_eq!(path, "/srv/www/docs/a.txt");
    assert!(is_within("/srv/www", &path));
    assert!(request_target("/srv/www", "..").is_none());
}

#[test]
fn containment_compares_whole_segments() {
    assert!(is_within("/srv/www", "/srv/www"));
    assert!(is_within("/srv/www", "/srv/www/a"));
    assert!(!is_within("/srv/www", "/srv/wwwx"));
    assert!(!is_within("/srv/www", "/srv"));
    assert!(!is_within("/srv/www", "/etc/passwd"));
    assert!(is_within("/", "/etc"));
}

#[test]
fn classify_each_outcome() {
    assert!(matches!(classify(true, false, false, "p".to_string()), ResolvedTarget::NotFound));
    assert!(matches!(classify(false, true, true, "p".to_string()), ResolvedTarget::NotFound));
    assert!(matches!(classify(true, true, true, "p".to_string()), ResolvedTarget::Directory(p) if p == "p"));
    assert!(matches!(classify(true, true, false, "p".to_string()), ResolvedTarget::File(p) if p == "p"));
}

#[test]
fn rendered_links_resolve_back_to_entries() {
    let rel = segments_of("/docs/sub").unwrap();
    for name in ["a.txt", "b c", "...", "100% #1?", "a&amp;b", "line\nbreak\t\u{7f}", "x<y>{z}|^`\\'\"", "été"] {
        let link = percent_decode(&link_path(&rel, &name.to_string()));
        let mut expected = rel.clone();
        expected.push(name.to_string());
        assert_eq!(segments_of(&link), Some(expected));
    }
    assert_eq!(link_path(&rel, &"a.txt".to_string()), "/docs/sub/a.txt");
    assert_eq!(link_path(&vec![], &"x".to_string()), "/x");
    assert_eq!(link_path(&strings(&["my docs"]), &"a#1.txt".to_string()), "/my%20docs/a%231.txt");
}

#[test]
fn encoding_escapes_only_what_links_cannot_hold() {
    assert_eq!(encode_segment("plain-name_1.txt"), "plain-name_1.txt");
    assert_eq!(encode_segment("a b"), "a%20b");
    assert_eq!(encode_segment("50%"), "50%25");
    assert_eq!(encode_segment("q?x#y"), "q%3Fx%23y");
    assert_eq!(encode_segment("\"<'>"), "%22%3C%27%3E");
    assert_eq!(encode_segment("\\^`{|}"), "%5C%5E%60%7B%7C%7D");
    assert_eq!(encode_segment("été"), "été");
    assert_eq!(encode_segment(""), "");
    assert_eq!(encode_segment("a&b"), "a%26b");
    assert_eq!(encode_segment("a\nb\u{0}\u{1f}\u{7f}"), "a%0Ab%00%1F%7F");
}

#[test]
fn listing_has_one_item_per_entry_in_order() {
    let rel = strings(&["d"]);
    let page = render_listing(&rel, &vec![file("z", 0), dir("y"), file("x", 1234567890)]);
    assert_eq!(
        page,
        "<html><body><ul>\
<li>📄 <a href=\"/d/z\">z</a>  - 0 bytes</li>\
<li>📁 <a href=\"/d/y\">y</a></li>\
<li>📄 <a href=\"/d/x\">x</a>  - 1234567890 bytes</li>\
</ul></body></html>"
    );
    assert_eq!(render_listing(&vec![], &vec![]), "<html><body><ul></ul></body></html>");
}

#[test]
fn listing_failure_is_server_error() {
    let r = listing_page(&vec![], Err("permission denied".to_string()));
    assert_eq!(r.status(), 500);
    let ok = listing_response(Ok("page".to_string()));
    assert_eq!(ok.status(), 200);
}

#[test]
fn decimal_digits() {
    assert_eq!(decimal(0), "0");
    assert_eq!(decimal(9), "9");
    assert_eq!(decimal(10), "10");
    assert_eq!(decimal(u64::MAX), "18446744073709551615");
}

#[test]
fn content_types_follow_extensions() {
    assert_eq!(content_type_of("/srv/www/index.html"), "text/html");
    assert_eq!(content_type_of("data.json"), "application/json");
    assert_eq!(content_type_of("notes.unknownext"), "text/plain");
    assert_eq!(content_type_of("README"), "text/plain");
}

#[test]
fn file_response_carries_bytes_and_type() {
    let r = file_response("a.json", Ok(vec![1, 2, 3]));
    assert_eq!(r.status(), 200);
    match r {
        Response::File { content_type, bytes } => {
            assert_eq!(content_type, "application/json");
            assert_eq!(bytes, vec![1, 2, 3]);
        }
        _ => panic!("expected a file"),
    }
    let t = file_response_typed("text/css".to_string(), Err("gone".to_string()));
    assert_eq!(t.status(), 500);
}

#[test]
fn not_found_routes_to_404() {
    match route(ResolvedTarget::NotFound) {
        Step::Reply(r) => assert_eq!(r.status(), 404),
        _ => panic!("expected a reply"),
    }
}

#[test]
fn html_text_escapes_markup() {
    assert_eq!(escape_html("a<b>&\"c'"), "a&lt;b&gt;&amp;&quot;c&#39;");
    assert_eq!(escape_html("plain été"), "plain été");
    let page = render_listing(&vec![], &vec![file("<x>&y", 3)]);
    assert_eq!(
        page,
        "<html><body><ul><li>📄 <a href=\"/%3Cx%3E%26y\">&lt;x&gt;&amp;y</a>  - 3 bytes</li></ul></body></html>"
    );
}

#[test]
fn lookup_answers_traversal_itself() {
    match lookup("/srv/www", "/../etc/passwd") {
        Lookup::Reply(r) => assert_eq!(r.status(), 404),
        _ => panic!("expected a reply"),
    }
    match lookup("/srv/www", "docs/a.txt") {
        Lookup::Check { segments, path } => {
            assert_eq!(segments, strings(&["docs", "a.txt"]));
            assert_eq!(path, "/srv/www/docs/a.txt");
        }
        _ => panic!("expected a lookup"),
    }
}
