use docling_backends::location::{join_location, normalize_cid, posix_normpath, resolve_base};

#[test]
fn windows_locations_are_joined_without_urljoin() {
    for root in [r"C:\safe\page.html", "C:/safe/page.html"] {
        let first = join_location(root, "images/a.png");
        let equivalent = join_location(root, "./images/a.png");
        assert_eq!(first, "C:/safe/images/a.png", "{root}");
        assert_eq!(equivalent, first);
    }
}

#[test]
fn location_helpers_follow_docling() {
    assert_eq!(
        normalize_cid(" <CID-Image@Example> "),
        "cid:cid-image@example"
    );
    assert_eq!(normalize_cid("cid:x@y"), "cid:x@y");
    assert_eq!(resolve_base(None), "thismessage:/");
    assert_eq!(resolve_base(Some("//host/p.html")), "https://host/p.html");
    assert_eq!(
        resolve_base(Some("https://example.com/docs/page.html")),
        "https://example.com/docs/page.html"
    );
    assert_eq!(
        resolve_base(Some("file:///C:/saved/page.html")),
        "thismessage:/C:/saved/page.html"
    );
    assert_eq!(resolve_base(Some("page.html")), "thismessage:/page.html");
    assert_eq!(
        join_location("thismessage:/C:/saved/page.html", "images\\file.png"),
        "thismessage:/C:/saved/images/file.png"
    );
    assert_eq!(
        join_location("https://example.com/docs/page.html", "../images/a.png"),
        "https://example.com/images/a.png"
    );
    assert_eq!(
        join_location("https://example.com/docs/page.html", "/root.png"),
        "https://example.com/root.png"
    );
    assert_eq!(
        join_location("https://example.com/docs/page.html", "//cdn.example/x.png"),
        "//cdn.example/x.png"
    );
    assert_eq!(
        join_location("thismessage:/page.html", "https://a.b/c.png"),
        "https://a.b/c.png"
    );
    assert_eq!(posix_normpath("/a/b/../c/./d"), "/a/c/d");
    assert_eq!(posix_normpath("../x"), "../x");
}

#[test]
fn references_resolve_against_their_base() {
    let base = "http://a/b/c/d;p?q";
    for (reference, want) in [
        ("g:h", "g:h"),
        ("g", "http://a/b/c/g"),
        ("./g", "http://a/b/c/g"),
        ("g/", "http://a/b/c/g/"),
        ("/g", "http://a/g"),
        ("?y", "http://a/b/c/d;p?y"),
        ("g?y", "http://a/b/c/g?y"),
        ("#s", "http://a/b/c/d;p?q#s"),
        ("g#s", "http://a/b/c/g#s"),
        (";x", "http://a/b/c/;x"),
        ("", "http://a/b/c/d;p?q"),
        (".", "http://a/b/c/"),
        ("./", "http://a/b/c/"),
        ("..", "http://a/b/"),
        ("../", "http://a/b/"),
        ("../g", "http://a/b/g"),
        ("../..", "http://a/"),
        ("../../", "http://a/"),
        ("../../g", "http://a/g"),
        ("../../../g", "http://a/g"),
        ("/./g", "http://a/g"),
        ("/../g", "http://a/g"),
        ("g.", "http://a/b/c/g."),
        ("..g", "http://a/b/c/..g"),
        ("./../g", "http://a/b/g"),
        ("./g/.", "http://a/b/c/g/"),
        ("g/./h", "http://a/b/c/g/h"),
        ("g/../h", "http://a/b/c/h"),
    ] {
        assert_eq!(join_location(base, reference), want, "{reference}");
    }
}

#[test]
fn the_path_of_a_file_address_is_decoded() {
    assert_eq!(
        resolve_base(Some("file:///saved/caf%C3%A9/page.html")),
        "thismessage:/saved/caf\u{e9}/page.html"
    );
}
